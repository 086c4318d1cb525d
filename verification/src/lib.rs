//! Declarative management of filesystem symbolic links.
//!
//! A configuration maps link paths to target paths; a lock file records the
//! links created by earlier runs.  The reconciliation engine compares the two,
//! decides which links may be created or overwritten, collects every queued
//! removal, and produces the next lock file.  Filesystem access and
//! serialization stay outside this crate; the engine works on observations
//! handed in as plain values.

pub mod clean;
pub mod config;
pub mod error;
pub mod fs;
pub mod lock_file;
pub mod order;
pub mod path_ext;
pub mod path_set;
pub mod symlink;
pub mod sync;
