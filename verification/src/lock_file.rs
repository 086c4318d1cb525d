//! The persisted record of earlier runs.
//!
//! The lock file holds the links the tool believes it created (`symlinks`)
//! and the links queued for removal (`symlinks_to_remove`).  It is the
//! single source of ownership across runs: the live filesystem is observed
//! but never trusted to tell who created a link.  Reading and writing the
//! record is the application's business; this module owns the schema and
//! the lock file's path.

use crate::path_ext::{cut_point, name_start, spec_cut_point, spec_name_start};
use crate::path_set::PathSet;
use crate::symlink::Symlinks;
use vstd::prelude::*;

verus! {

#[derive(Debug)]
pub struct LockFile {
    /// Link paths mapped to the targets the tool last wrote for them.
    pub symlinks: Symlinks,
    /// Links once managed and no longer desired, awaiting removal.
    pub symlinks_to_remove: PathSet,
}

impl LockFile {
    pub open spec fn wf(&self) -> bool {
        self.symlinks.wf() && self.symlinks_to_remove.wf()
    }

    /// A link is either currently owned or queued for removal, never both.
    pub open spec fn spec_disjoint(&self) -> bool {
        forall|p: Seq<char>|
            !(self.symlinks.spec_contains(p) && self.symlinks_to_remove.spec_contains(p))
    }

    pub fn new(symlinks: Symlinks, symlinks_to_remove: PathSet) -> (r: Self)
        ensures
            r.symlinks == symlinks,
            r.symlinks_to_remove == symlinks_to_remove,
    {
        LockFile { symlinks, symlinks_to_remove }
    }
}

/// Where the lock file lives, next to the configuration file.
#[derive(Debug, Clone)]
pub struct LockFilePath(pub String);

/// The configuration path with its extension replaced by `lock`: the part
/// after the last `.` of the file name goes, or `.lock` is added when the
/// file name has no extension.
pub open spec fn spec_lock_path(s: Seq<char>) -> Seq<char> {
    s.take(spec_cut_point(s, spec_name_start(s))) + ".lock"@
}

impl LockFilePath {
    /// Derives the lock file's path from the configuration file's path.
    pub fn from_config_path(config_path: &str) -> (r: Self)
        ensures
            r.0@ == spec_lock_path(config_path@),
    {
        let ns = name_start(config_path);
        let c = cut_point(config_path, ns);
        let prefix = config_path.substring_char(0, c);
        let mut out = prefix.to_owned();
        out.append(".lock");
        LockFilePath(out)
    }
}

} // verus!
