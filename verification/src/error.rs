//! Errors of a run.
//!
//! The two validation errors, `TargetFileNotExist` and `SymlinkExists`, carry
//! the complete ordered set of offending paths: validation reports everything
//! at once instead of failing on the first path.  Errors coming from the
//! world outside the engine (file access, parsing, expansion) carry the
//! offending path and a message describing the underlying failure.

use crate::path_set::PathSet;
use vstd::prelude::*;

verus! {

#[derive(Debug)]
pub enum Error {
    /// The configuration file could not be read or parsed.
    LoadConfig(String, String),
    /// The lock file exists but could not be read or parsed.
    LoadLockFile(String, String),
    /// The lock file could not be written.
    SaveLockFile(String, String),
    /// Targets of the desired links that do not exist, complete and ordered.
    TargetFileNotExist(PathSet),
    /// Links that cannot be overwritten without force, complete and ordered.
    SymlinkExists(PathSet),
    /// A live symlink's target could not be read back.
    FailedToInspectSymlink(String, String),
    /// An existing file or symlink could not be removed.
    FileCannotBeRemoved(String, String),
    /// A link's parent directory chain could not be created.
    FailedToCreateParentDir(String, String),
    /// The symlink itself could not be created.
    FailedToCreateSymlink { link: String, target: String, error: String },
    /// An environment variable in a configured path could not be resolved.
    EnvExpansion(String),
}

impl Error {
    pub fn load_config(file: String, err: String) -> (r: Self)
        ensures
            r == Error::LoadConfig(file, err),
    {
        Error::LoadConfig(file, err)
    }
}

/// One line per path, `- ` before each, newlines in between.
pub open spec fn spec_join_files(items: Seq<String>, i: int) -> Seq<char>
    decreases items.len() - i,
{
    if i < 0 || i >= items.len() {
        Seq::empty()
    } else if i == items.len() - 1 {
        "- "@ + items[i]@
    } else {
        "- "@ + items[i]@ + "\n"@ + spec_join_files(items, i + 1)
    }
}

pub open spec fn spec_format_files(items: Seq<String>) -> Seq<char> {
    spec_join_files(items, 0)
}

fn format_from(files: &PathSet, i: usize) -> (r: String)
    requires
        i <= files.spec_len(),
    ensures
        r@ == spec_join_files(files.items@, i as int),
    decreases files.spec_len() - i,
{
    let n = files.len();
    if i >= n {
        String::new()
    } else {
        let mut out = "- ".to_owned();
        out.append(files.get(i).as_str());
        if i + 1 < n {
            out.append("\n");
            let rest = format_from(files, i + 1);
            out.append(rest.as_str());
        }
        out
    }
}

/// Lists a set of paths one per line, as the aggregate error messages do.
pub fn format_files(files: &PathSet) -> (r: String)
    ensures
        r@ == spec_format_files(files.items@),
{
    format_from(files, 0)
}

impl Error {
    /// The message shown for this error.
    pub open spec fn spec_message(&self) -> Seq<char> {
        match self {
            Error::LoadConfig(file, err) => "Failed to load config at "@ + file@ + ": "@ + err@,
            Error::LoadLockFile(file, err) => "Failed to load lock file, remove \""@ + file@
                + "\" and run `sync` to regenerate it: "@ + err@,
            Error::SaveLockFile(file, err) => "Failed to save lock file at "@ + file@ + ": "@
                + err@,
            Error::TargetFileNotExist(missing) => "Source file does not exist:\n"@
                + spec_format_files(missing.items@),
            Error::SymlinkExists(links) => "Symlink already exists, use --force to overwrite:\n"@
                + spec_format_files(links.items@),
            Error::FailedToInspectSymlink(path, err) => "Failed to inspect symlink at "@ + path@
                + ": "@ + err@,
            Error::FileCannotBeRemoved(path, err) => "Failed to remove existing file/symlink at "@
                + path@ + ": "@ + err@,
            Error::FailedToCreateParentDir(path, err) => "Failed to create parent directory at "@
                + path@ + ": "@ + err@,
            Error::FailedToCreateSymlink { link, target, error } => "Failed to create symlink from "@
                + link@ + " to "@ + target@ + ": "@ + error@,
            Error::EnvExpansion(err) => "Failed to resolve environment variable expansion: "@
                + err@,
        }
    }

    /// Renders the error for display.
    pub fn message(&self) -> (r: String)
        ensures
            r@ == self.spec_message(),
    {
        match self {
            Error::LoadConfig(file, err) => {
                let mut out = "Failed to load config at ".to_owned();
                out.append(file.as_str());
                out.append(": ");
                out.append(err.as_str());
                out
            },
            Error::LoadLockFile(file, err) => {
                let mut out = "Failed to load lock file, remove \"".to_owned();
                out.append(file.as_str());
                out.append("\" and run `sync` to regenerate it: ");
                out.append(err.as_str());
                out
            },
            Error::SaveLockFile(file, err) => {
                let mut out = "Failed to save lock file at ".to_owned();
                out.append(file.as_str());
                out.append(": ");
                out.append(err.as_str());
                out
            },
            Error::TargetFileNotExist(missing) => {
                let mut out = "Source file does not exist:\n".to_owned();
                let listing = format_files(missing);
                out.append(listing.as_str());
                out
            },
            Error::SymlinkExists(links) => {
                let mut out = "Symlink already exists, use --force to overwrite:\n".to_owned();
                let listing = format_files(links);
                out.append(listing.as_str());
                out
            },
            Error::FailedToInspectSymlink(path, err) => {
                let mut out = "Failed to inspect symlink at ".to_owned();
                out.append(path.as_str());
                out.append(": ");
                out.append(err.as_str());
                out
            },
            Error::FileCannotBeRemoved(path, err) => {
                let mut out = "Failed to remove existing file/symlink at ".to_owned();
                out.append(path.as_str());
                out.append(": ");
                out.append(err.as_str());
                out
            },
            Error::FailedToCreateParentDir(path, err) => {
                let mut out = "Failed to create parent directory at ".to_owned();
                out.append(path.as_str());
                out.append(": ");
                out.append(err.as_str());
                out
            },
            Error::FailedToCreateSymlink { link, target, error } => {
                let mut out = "Failed to create symlink from ".to_owned();
                out.append(link.as_str());
                out.append(" to ");
                out.append(target.as_str());
                out.append(": ");
                out.append(error.as_str());
                out
            },
            Error::EnvExpansion(err) => {
                let mut out = "Failed to resolve environment variable expansion: ".to_owned();
                out.append(err.as_str());
                out
            },
        }
    }
}

} // verus!
