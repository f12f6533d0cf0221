//! Verified core of a package manager for versioned Protocol Buffer APIs:
//! semantic-version selection, dependency graphs, manifests, lockfiles,
//! namespace scanning and build metadata.

pub mod artifactory;
pub mod assembly;
pub mod digest;
pub mod lock;
pub mod manifest;
pub mod metadata;
pub mod namespace_scan;
pub mod package;
pub mod pubgrub_resolver;
pub mod registry;
pub mod resolver;
pub mod text;
pub mod update;
pub mod version;
