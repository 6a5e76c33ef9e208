//! References to schema documents and descriptor files, their classification
//! into local paths and remote URLs, and format detection.

use vstd::prelude::*;

verus! {

/// Whether a text parses as an absolute URL.
pub uninterp spec fn is_url(s: Seq<char>) -> bool;

/// Relies on url::Url::parse: it accepts exactly the absolute URLs, a fixed
/// syntactic class, so the outcome depends on the text alone.
#[verifier::external_body]
pub(crate) fn parses_as_url(s: &String) -> (r: bool)
    ensures
        r == is_url(s@),
{
    url::Url::parse(s).is_ok()
}

/// A reference to a document, classified once at ingestion: a parseable
/// absolute URL is remote, anything else is a local path.
pub enum Reference {
    Local(String),
    Remote(String),
}

impl Reference {
    /// The raw text of the reference.
    pub open spec fn spec_text(&self) -> Seq<char> {
        match self {
            Reference::Local(p) => p@,
            Reference::Remote(u) => u@,
        }
    }

    /// The tag agrees with the syntactic classification of the text.
    pub open spec fn wf(&self) -> bool {
        match self {
            Reference::Local(p) => !is_url(p@),
            Reference::Remote(u) => is_url(u@),
        }
    }

    /// Classifies a raw reference text.
    pub fn classify(text: String) -> (r: Reference)
        ensures
            r.wf(),
            r.spec_text() == text@,
    {
        if parses_as_url(&text) {
            Reference::Remote(text)
        } else {
            Reference::Local(text)
        }
    }
}

/// The format of a configuration document, detected from the syntactic shape
/// of its reference.
#[derive(Clone, Copy, Debug, PartialEq, Eq, Structural)]
pub enum Source {
    GraphQL,
    Json,
    Yaml,
}

/// `s` ends with the suffix `suffix`.
pub open spec fn spec_ends_with(s: Seq<char>, suffix: Seq<char>) -> bool {
    suffix.len() <= s.len() && s.skip(s.len() - suffix.len()) == suffix
}

/// Returns whether `s` ends with `suffix`.
#[verifier::loop_isolation(false)]
pub fn str_ends_with(s: &str, suffix: &str) -> (r: bool)
    ensures
        r == spec_ends_with(s@, suffix@),
{
    let n = s.unicode_len();
    let k = suffix.unicode_len();
    if k > n {
        return false;
    }
    let mut i: usize = 0;
    while i < k
        invariant
            i <= k,
            forall|j: int| 0 <= j < i ==> s@[n - k + j] == suffix@[j],
        decreases k - i,
    {
        if s.get_char(n - k + i) != suffix.get_char(i) {
            assert(s@.skip(s@.len() - suffix@.len())[i as int] != suffix@[i as int]);
            return false;
        }
        i += 1;
    }
    proof {
        assert(s@.skip(s@.len() - suffix@.len()) =~= suffix@);
    }
    true
}

/// The format a reference's shape announces, if any.
pub open spec fn detect_spec(path: Seq<char>) -> Option<Source> {
    if spec_ends_with(path, ".graphql"@) || spec_ends_with(path, ".gql"@) {
        Some(Source::GraphQL)
    } else if spec_ends_with(path, ".json"@) {
        Some(Source::Json)
    } else if spec_ends_with(path, ".yml"@) || spec_ends_with(path, ".yaml"@) {
        Some(Source::Yaml)
    } else {
        None
    }
}

impl Source {
    /// Detects the document format from the reference's syntactic shape.
    pub fn detect(path: &String) -> (r: Result<Source, crate::error::ConfigError>)
        ensures
            r is Ok <==> detect_spec(path@) is Some,
            r is Ok ==> r->Ok_0 == detect_spec(path@)->0,
            r is Err ==> r->Err_0 is Syntax && r->Err_0.spec_reference() == path@,
    {
        if str_ends_with(path.as_str(), ".graphql") || str_ends_with(path.as_str(), ".gql") {
            Ok(Source::GraphQL)
        } else if str_ends_with(path.as_str(), ".json") {
            Ok(Source::Json)
        } else if str_ends_with(path.as_str(), ".yml") || str_ends_with(path.as_str(), ".yaml") {
            Ok(Source::Yaml)
        } else {
            Err(crate::error::ConfigError::Syntax {
                file: path.clone(),
                message: String::from_str("unsupported configuration format"),
            })
        }
    }
}

} // verus!
