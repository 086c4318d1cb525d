//! The filesystem port's verified face.
//!
//! The application performs the raw filesystem work — existence checks,
//! removals, directory creation, symlink creation and read-back — honouring
//! `Fs::dry_run`.  What the engine needs to know about the live filesystem
//! comes back to it as one `Observation` per desired entry.

use vstd::prelude::*;

verus! {

/// Settings of the filesystem port.  In dry-run mode every mutation is
/// reported instead of performed, so planning takes one code path and the
/// decisions cannot differ between a rehearsal and a real run.
#[derive(Debug, Clone, Copy, PartialEq, Eq, Structural)]
pub struct Fs {
    pub dry_run: bool,
}

impl Fs {
    pub fn new(dry_run: bool) -> (r: Self)
        ensures
            r.dry_run == dry_run,
    {
        Fs { dry_run }
    }
}

/// What one look at the live filesystem showed for a desired entry.
#[derive(Debug, Clone, PartialEq, Eq)]
pub struct Observation {
    /// The entry's target exists.
    pub target_exists: bool,
    /// Something already lives at the entry's link path.
    pub link_exists: bool,
    /// What the live symlink at the link path points to; nothing when what
    /// lives there is not a symlink.
    pub live_target: Option<String>,
}

/// The view of a live symlink target as a character sequence.
pub open spec fn spec_live_target(o: Option<String>) -> Option<Seq<char>> {
    match o {
        Some(t) => Some(t@),
        None => None,
    }
}

} // verus!
