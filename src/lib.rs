//! Version selection for container-image lockfiles: a parser for
//! "git describe" style tags, a parser for registry image references, and the
//! per-entry update decision.
pub mod repo;
pub mod text;
pub mod update;
pub mod version;
