//! Configuration resolution engine for a GraphQL gateway.
//!
//! The library turns one or more independently authored schema documents into
//! a single, fully resolved configuration bundle. It classifies references,
//! loads their content through injected transports, resolves the transitive
//! import closure of protocol-descriptor files (with a bundled well-known
//! catalog shortcut), inlines externally referenced scripts, and folds the
//! per-file results into one `ConfigSet` under a right-biased merge.

pub mod assoc;
pub mod config;
pub mod cors;
pub mod descriptor;
pub mod error;
pub mod graph;
pub mod memory;
pub mod reader;
pub mod runtime;
pub mod server_config;
pub mod source;

pub use error::{ConfigError, IoError};
