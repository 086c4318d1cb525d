//! The desired link set of a run.
//!
//! A configuration file maps link paths to target paths; duplicate links
//! are rejected while parsing, before a `Config` exists.  The application
//! parses the file into raw entries and hands them over; expanding the raw
//! paths and building the ordered desired set happens here.

use crate::error::Error;
use crate::symlink::Symlinks;
use vstd::prelude::*;

verus! {

#[derive(Debug)]
pub struct Config {
    pub symlinks: Symlinks,
}

impl Config {
    pub fn new(symlinks: Symlinks) -> (r: Self)
        ensures
            r.symlinks == symlinks,
    {
        Config { symlinks }
    }

    /// Builds the desired set from raw configuration entries, expanding
    /// environment references and a leading tilde in every path.
    pub fn try_from(raw: &Symlinks) -> (r: Result<Config, Error>)
        requires
            raw.wf(),
        ensures
            r matches Ok(config) ==> config.symlinks.wf(),
            r matches Err(e) ==> e matches Error::EnvExpansion(_),
            raw.all_plain() ==> (r matches Ok(config) && (forall|p: Seq<char>|
                config.symlinks.spec_contains(p) == raw.spec_contains(p)) && (forall|p: Seq<char>|
                raw.spec_contains(p) ==> config.symlinks.spec_target(p) == raw.spec_target(p))),
    {
        match raw.to_path_bufs() {
            Ok(symlinks) => Ok(Config { symlinks }),
            Err(e) => Err(e),
        }
    }
}

} // verus!
