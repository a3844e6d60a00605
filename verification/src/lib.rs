//! Propagates one version through a workspace of package manifests.
//!
//! Starting from a root manifest, every manifest that can be reached through
//! local path dependencies gets its own package version and the versions of
//! its unpinned dependencies set to the target version. Each manifest is
//! handled exactly once, however often and from wherever it is reached.
//!
//! The crate holds the decisions and the rewriting; reading and writing
//! files and running the units of work concurrently is left to the caller.

pub mod claimed;
pub mod document;
pub mod error;
pub mod laws;
pub mod path;
pub mod rewrite;
pub mod tasks;
pub mod traversal;
pub mod version;
