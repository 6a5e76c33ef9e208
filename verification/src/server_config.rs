//! The settings the HTTP server is started with, and the address the
//! interactive IDE is announced under.

use vstd::prelude::*;

verus! {

/// The decimal digits of a number, most significant first.
pub open spec fn dec_digits(n: nat) -> Seq<char>
    decreases n,
{
    if n < 10 {
        seq![((n + 48) as u8) as char]
    } else {
        dec_digits(n / 10).push(((n % 10 + 48) as u8) as char)
    }
}

/// Returns the decimal digit character of a value below ten.
fn digit_str(d: u16) -> (r: &'static str)
    requires
        d < 10,
    ensures
        r@ == seq![((d + 48) as u8) as char],
{
    proof {
        reveal_strlit("0");
        reveal_strlit("1");
        reveal_strlit("2");
        reveal_strlit("3");
        reveal_strlit("4");
        reveal_strlit("5");
        reveal_strlit("6");
        reveal_strlit("7");
        reveal_strlit("8");
        reveal_strlit("9");
    }
    let r = match d {
        0 => "0",
        1 => "1",
        2 => "2",
        3 => "3",
        4 => "4",
        5 => "5",
        6 => "6",
        7 => "7",
        8 => "8",
        _ => "9",
    };
    proof {
        assert(r@ =~= seq![((d + 48) as u8) as char]);
    }
    r
}

/// Renders a value in decimal, most significant digit first.
fn u16_to_string(n: u16) -> (r: String)
    ensures
        r@ == dec_digits(n as nat),
    decreases n,
{
    if n < 10 {
        String::from_str(digit_str(n))
    } else {
        let prefix = u16_to_string(n / 10);
        let r = prefix.concat(digit_str(n % 10));
        proof {
            assert(r@ =~= dec_digits((n / 10) as nat).push(((n % 10 + 48) as u8) as char));
        }
        r
    }
}

/// What the server runs with once the configuration is compiled: the listen
/// address, the protocol, and whether the interactive IDE is served.
///
/// `hostname` must carry the authority form of the host: an IPv6 address
/// goes in brackets, since the announced URL is built as `hostname:port`.
pub struct ServerConfig {
    pub http2: bool,
    pub hostname: String,
    pub port: u16,
    pub enable_graphiql: bool,
}

impl ServerConfig {
    /// The announced address of the interactive IDE: the scheme follows the
    /// protocol, the authority is the listen address.
    pub open spec fn spec_graphiql_url(&self) -> Seq<char> {
        (if self.http2 {
            "https"@
        } else {
            "http"@
        }) + "://"@ + self.hostname@ + ":"@ + dec_digits(self.port as nat)
    }

    /// Returns the protocol version the server speaks.
    pub fn http_version(&self) -> (r: String)
        ensures
            self.http2 ==> r@ == "HTTP/2"@,
            !self.http2 ==> r@ == "HTTP/1.1"@,
    {
        if self.http2 {
            String::from_str("HTTP/2")
        } else {
            String::from_str("HTTP/1.1")
        }
    }

    /// Returns the URL the interactive IDE is announced under.
    pub fn graphiql_url(&self) -> (r: String)
        ensures
            r@ == self.spec_graphiql_url(),
    {
        let protocol = if self.http2 {
            "https"
        } else {
            "http"
        };
        let url = String::from_str(protocol);
        let url = url.concat("://");
        let url = url.concat(self.hostname.as_str());
        let url = url.concat(":");
        let port = u16_to_string(self.port);
        let url = url.concat(port.as_str());
        url
    }

    /// Returns whether the interactive IDE is served.
    pub fn graphiql(&self) -> (r: bool)
        ensures
            r == self.enable_graphiql,
    {
        self.enable_graphiql
    }
}

/// The endpoint the interactive IDE submits queries to: the request's own
/// query string, if any, is carried over.
pub fn graphiql_endpoint(query: Option<&String>) -> (r: String)
    ensures
        match query {
            Some(q) if q@.len() > 0 => r@ == "/graphql?"@ + q@,
            _ => r@ == "/graphql"@,
        },
{
    match query {
        Some(q) if q.as_str().unicode_len() > 0 => {
            let endpoint = String::from_str("/graphql?");
            endpoint.concat(q.as_str())
        },
        _ => String::from_str("/graphql"),
    }
}

} // verus!
