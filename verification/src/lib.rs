//! Candidate commit emails: gathering, ordering and deduplication.
//!
//! The library collects candidate `user.email` values from three sources
//! (repository-local configuration, user-wide configuration, and a
//! project-committed declarative file), merges them into one ordered,
//! duplicate-free list, and offers the small decisions an interactive
//! front end needs: whether a prompt is worth showing and which entry a
//! selection picks.

pub mod engine;
pub mod sources;
