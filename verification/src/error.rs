//! Error taxonomy of the resolution engine.
//!
//! Every stage fails fast: a failure anywhere aborts the whole resolution,
//! and the error carries the offending reference as context.

use vstd::prelude::*;

verus! {

/// Failure of a single transport fetch.
#[derive(Debug, PartialEq, Eq)]
pub enum IoError {
    NotFound,
    NetworkError,
    PermissionDenied,
    Timeout,
    InvalidEncoding,
}

/// Failure of the resolution pipeline, annotated with the offending reference.
#[derive(Debug, PartialEq, Eq)]
pub enum ConfigError {
    /// A transport could not deliver the referenced content.
    Io { reference: String, error: IoError },
    /// A configuration document could not be parsed.
    Syntax { file: String, message: String },
    /// A protocol-descriptor file could not be parsed.
    Descriptor { path: String, message: String },
}

impl ConfigError {
    /// The reference (path or URL) the failure is about.
    pub open spec fn spec_reference(&self) -> Seq<char> {
        match self {
            ConfigError::Io { reference, .. } => reference@,
            ConfigError::Syntax { file, .. } => file@,
            ConfigError::Descriptor { path, .. } => path@,
        }
    }

    /// Returns the reference (path or URL) the failure is about.
    pub fn reference(&self) -> (r: &String)
        ensures
            r@ == self.spec_reference(),
    {
        match self {
            ConfigError::Io { reference, .. } => reference,
            ConfigError::Syntax { file, .. } => file,
            ConfigError::Descriptor { path, .. } => path,
        }
    }
}

} // verus!
