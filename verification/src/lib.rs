//! Core logic of a static-analysis language server: a versioned store of open
//! documents, a combined multi-rule scan that turns pattern matches into
//! diagnostics, and a fix resolver that correlates client-echoed diagnostics
//! with freshly recomputed matches to build text edits.
//!
//! Parsing and pattern matching themselves are external collaborators: their
//! results enter this library as plain match values, and everything that is
//! decided from them is verified here.

pub mod types;
pub mod rules;
pub mod store;
pub mod diagnostics;
pub mod fixes;
pub mod session;
pub mod search;
pub mod capabilities;
