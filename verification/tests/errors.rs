use symkeeper::error::{format_files, Error};
use symkeeper::path_set::PathSet;

fn set(paths: &[&str]) -> PathSet {
    let mut s = PathSet::new();
    for p in paths {
        s.insert(p.to_string());
    }
    s
}

#[test]
fn format_files_lists_one_path_per_line() {
    assert_eq!(format_files(&set(&[])), "");
    assert_eq!(format_files(&set(&["a"])), "- a");
    assert_eq!(format_files(&set(&["b", "a"])), "- a\n- b");
    assert_eq!(format_files(&set(&["c", "a", "b"])), "- a\n- b\n- c");
}

#[test]
fn load_config_error_carries_file_and_cause() {
    let err = Error::load_config("symkeeper.toml".to_string(), "broken".to_string());
    assert_eq!(err.message(), "Failed to load config at symkeeper.toml: broken");
}

#[test]
fn each_error_renders_its_message() {
    assert_eq!(
        Error::LoadLockFile("x.lock".to_string(), "bad".to_string()).message(),
        "Failed to load lock file, remove \"x.lock\" and run `sync` to regenerate it: bad"
    );
    assert_eq!(
        Error::SaveLockFile("x.lock".to_string(), "full".to_string()).message(),
        "Failed to save lock file at x.lock: full"
    );
    assert_eq!(
        Error::TargetFileNotExist(set(&["t"])).message(),
        "Source file does not exist:\n- t"
    );
    assert_eq!(
        Error::SymlinkExists(set(&["l"])).message(),
        "Symlink already exists, use --force to overwrite:\n- l"
    );
    assert_eq!(
        Error::FailedToInspectSymlink("l".to_string(), "io".to_string()).message(),
        "Failed to inspect symlink at l: io"
    );
    assert_eq!(
        Error::FileCannotBeRemoved("l".to_string(), "io".to_string()).message(),
        "Failed to remove existing file/symlink at l: io"
    );
    assert_eq!(
        Error::FailedToCreateParentDir("d".to_string(), "io".to_string()).message(),
        "Failed to create parent directory at d: io"
    );
    assert_eq!(
        Error::FailedToCreateSymlink {
            link: "l".to_string(),
            target: "t".to_string(),
            error: "io".to_string()
        }
        .message(),
        "Failed to create symlink from l to t: io"
    );
    assert_eq!(
        Error::EnvExpansion("no such variable".to_string()).message(),
        "Failed to resolve environment variable expansion: no such variable"
    );
}
