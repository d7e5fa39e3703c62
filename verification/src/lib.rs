//! Incremental one-way directory synchronization core.
//!
//! The crate detects what changed between two directory snapshots and
//! produces a safe, depth-ordered plan of copy / mkdir / remove operations.
//! Paths are modelled as sequences of named segments compared
//! case-insensitively; entries of the source and target snapshot are joined
//! on a normalized relative-path key and classified into create, update and
//! delete actions; the planner orders creates parent-first and deletes
//! child-first and suppresses deletes unless they are enabled.
//!
//! All filesystem access (walking directories, reading metadata and file
//! contents, applying the planned operations) is left to the caller: the
//! functions here work on plain values.

pub mod change_detector;
pub mod configuration;
pub mod copier;
pub mod header;
pub mod paths;
pub mod utilities;
