//! Cross-origin parameters of the gateway's HTTP layer: the data and the
//! rule that keeps credentialed requests away from wildcards. Turning these
//! into concrete headers is the HTTP layer's business, not the library's.

use vstd::prelude::*;

use crate::config::{contains_string, strs_view};

verus! {

/// One or several header values.
#[derive(Debug)]
pub enum StringOrSequence {
    String(String),
    Sequence(Vec<String>),
}

impl StringOrSequence {
    /// The value admits any origin, method or header.
    pub open spec fn spec_is_wildcard(&self) -> bool {
        match self {
            StringOrSequence::String(s) => s@ == "*"@,
            StringOrSequence::Sequence(v) => strs_view(v@).contains("*"@),
        }
    }

    /// Returns whether the value admits anything.
    pub fn is_wildcard(&self) -> (r: bool)
        ensures
            r == self.spec_is_wildcard(),
    {
        let star = String::from_str("*");
        match self {
            StringOrSequence::String(s) => *s == star,
            StringOrSequence::Sequence(v) => contains_string(v, &star),
        }
    }
}

impl Default for StringOrSequence {
    /// Returns the empty sequence of values.
    fn default() -> (r: Self)
        ensures
            r matches StringOrSequence::Sequence(v) && v@.len() == 0,
    {
        StringOrSequence::Sequence(Vec::new())
    }
}

/// An optional value admits anything only when it is set and does.
pub open spec fn opt_is_wildcard(o: &Option<StringOrSequence>) -> bool {
    match o {
        Some(v) => v.spec_is_wildcard(),
        None => false,
    }
}

/// The headers a preflight response varies on.
pub fn preflight_request_headers() -> (r: Vec<String>)
    ensures
        r@.len() == 3,
        r@[0]@ == "origin"@,
        r@[1]@ == "access-control-request-method"@,
        r@[2]@ == "access-control-request-headers"@,
{
    let mut v: Vec<String> = Vec::new();
    v.push(String::from_str("origin"));
    v.push(String::from_str("access-control-request-method"));
    v.push(String::from_str("access-control-request-headers"));
    v
}

/// Cross-origin parameters, as declared in a configuration.
#[derive(Debug, Default)]
pub struct CorsParams {
    pub allow_credentials: bool,
    pub allow_headers: Option<StringOrSequence>,
    pub allow_methods: Option<StringOrSequence>,
    pub allow_origin: StringOrSequence,
    pub allow_private_network: bool,
    pub expose_headers: StringOrSequence,
    pub max_age: Option<usize>,
    pub vary: Vec<String>,
}

/// Credentialed requests may not be combined with a wildcard anywhere.
pub open spec fn usable_cors_rules(layer: &CorsParams) -> bool {
    layer.allow_credentials ==> {
        &&& !opt_is_wildcard(&layer.allow_headers)
        &&& !opt_is_wildcard(&layer.allow_methods)
        &&& !layer.allow_origin.spec_is_wildcard()
        &&& !layer.expose_headers.spec_is_wildcard()
    }
}

/// Returns whether the parameters obey the credentials rule.
pub fn cors_rules_usable(layer: &CorsParams) -> (r: bool)
    ensures
        r == usable_cors_rules(layer),
{
    if !layer.allow_credentials {
        return true;
    }
    let headers_wild = match &layer.allow_headers {
        Some(v) => v.is_wildcard(),
        None => false,
    };
    let methods_wild = match &layer.allow_methods {
        Some(v) => v.is_wildcard(),
        None => false,
    };
    !headers_wild && !methods_wild && !layer.allow_origin.is_wildcard()
        && !layer.expose_headers.is_wildcard()
}

/// Accepts only parameter sets that combine credentials with no wildcard:
/// callers establish the rule before building a CORS layer from them.
pub fn ensure_usable_cors_rules(layer: &CorsParams)
    requires
        usable_cors_rules(layer),
{
}

} // verus!
