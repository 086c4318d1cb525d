use symkeeper::config::Config;
use symkeeper::error::Error;
use symkeeper::fs::Fs;
use symkeeper::symlink::{Symlink, Symlinks};

#[test]
fn plain_paths_pass_through_expansion() {
    let symlink = Symlink { target: "plain/target".to_string(), link: "bar".to_string() };
    let mapped = symlink.to_path_buf().expect("nothing to expand");
    assert_eq!(mapped.target, "plain/target");
    assert_eq!(mapped.link, "bar");
}

#[test]
fn undefined_variable_is_an_expansion_error() {
    let symlink = Symlink {
        target: "$SYMKEEPER_SUCH_A_VARIABLE_DOES_NOT_EXIST/foo".to_string(),
        link: "bar".to_string(),
    };
    let err = symlink.to_path_buf().err().expect("lookup must fail");
    assert!(matches!(err, Error::EnvExpansion(_)));
    assert!(err
        .message()
        .starts_with("Failed to resolve environment variable expansion: "));
}

#[test]
fn to_path_bufs_keeps_plain_entries() {
    let mut raw = Symlinks::new();
    raw.insert("l2".to_string(), "t2".to_string());
    raw.insert("l1".to_string(), "t1".to_string());
    let expanded = raw.to_path_bufs().expect("plain entries");
    assert_eq!(expanded.entries, raw.entries);
}

#[test]
fn to_path_bufs_propagates_expansion_failure() {
    let mut raw = Symlinks::new();
    raw.insert("l".to_string(), "$SYMKEEPER_SUCH_A_VARIABLE_DOES_NOT_EXIST".to_string());
    let err = raw.to_path_bufs().err().expect("lookup must fail");
    assert!(matches!(err, Error::EnvExpansion(_)));
}

#[test]
fn try_map_applies_target_first() {
    let symlink = Symlink { target: "t".to_string(), link: "l".to_string() };
    let mapped: Result<Symlink<usize>, String> = symlink.try_map(|s: String| Ok(s.len()));
    let mapped = mapped.expect("both sides map");
    assert_eq!(mapped.target, 1);
    assert_eq!(mapped.link, 1);

    let symlink = Symlink { target: "t".to_string(), link: "l".to_string() };
    let failed: Result<Symlink<usize>, String> =
        symlink.try_map(|s: String| if s == "t" { Err("no".to_string()) } else { Ok(s.len()) });
    assert_eq!(failed.err(), Some("no".to_string()));
}

#[test]
fn config_is_built_from_raw_entries() {
    let mut raw = Symlinks::new();
    raw.insert("l".to_string(), "t".to_string());
    let config = Config::try_from(&raw).expect("plain entries");
    assert_eq!(config.symlinks.get(&"l".to_string()), Some(&"t".to_string()));

    let mut bad = Symlinks::new();
    bad.insert("l".to_string(), "$SYMKEEPER_SUCH_A_VARIABLE_DOES_NOT_EXIST".to_string());
    assert!(matches!(Config::try_from(&bad), Err(Error::EnvExpansion(_))));

    assert!(Fs::new(true).dry_run);
    assert!(!Fs::new(false).dry_run);
}

#[test]
fn into_target_and_into_link_hand_the_fields_out() {
    let symlink = Symlink { target: "t".to_string(), link: "l".to_string() };
    assert_eq!(symlink.clone().into_target(), "t");
    assert_eq!(symlink.into_link(), "l");
}
