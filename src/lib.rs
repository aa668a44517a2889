//! Core of a disk-usage scanner: filter compilation, scan policy, the
//! per-entry aggregation of a directory walk, snapshot construction, the
//! bounded largest-files set and the per-session cancellation registry.

pub mod text;
pub mod filter;
pub mod policy;
pub mod largest;
pub mod tree;
pub mod snapshot;
pub mod registry;
pub mod session;
pub mod shell;
