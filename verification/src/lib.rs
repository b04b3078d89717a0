//! Incremental directory scanning: a metadata cache, the rule that tells a
//! cached record from a stale one, and the engine that reconciles what a
//! walk of the tree observes with what the cache remembers.
//!
//! The library never touches the filesystem. A caller walks the tree, reads
//! metadata when the engine asks for it, and hands every observation in as a
//! plain value; the engine answers with what to do next and, once an entry
//! is settled, with an outcome that is merged into the running scan.

pub mod engine;
pub mod entry;
pub mod fault;
pub mod laws;
pub mod model;
pub mod predicate;
pub mod record;
pub mod scan;
pub mod store;
