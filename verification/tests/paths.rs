use symkeeper::lock_file::LockFilePath;
use symkeeper::order::{str_compare, PathOrder};
use symkeeper::path_ext::parent_of;
use symkeeper::path_set::PathSet;
use symkeeper::symlink::Symlinks;

#[test]
fn string_comparison_is_lexicographic() {
    assert_eq!(str_compare("a", "b"), PathOrder::Before);
    assert_eq!(str_compare("b", "a"), PathOrder::After);
    assert_eq!(str_compare("a", "a"), PathOrder::Same);
    assert_eq!(str_compare("a", "ab"), PathOrder::Before);
    assert_eq!(str_compare("ab", "a"), PathOrder::After);
    assert_eq!(str_compare("", "a"), PathOrder::Before);
    assert_eq!(str_compare("", ""), PathOrder::Same);
    assert_eq!(str_compare("abd", "abc"), PathOrder::After);
}

#[test]
fn path_set_stays_sorted_and_unique() {
    let mut s = PathSet::new();
    s.insert("b".to_string());
    s.insert("a".to_string());
    s.insert("c".to_string());
    s.insert("b".to_string());
    assert_eq!(s.items, vec!["a".to_string(), "b".to_string(), "c".to_string()]);
    assert!(s.contains(&"b".to_string()));
    assert!(!s.contains(&"d".to_string()));
    assert_eq!(s.len(), 3);
    assert!(!s.is_empty());
}

#[test]
fn symlinks_insert_replaces_by_link() {
    let mut m = Symlinks::new();
    m.insert("l2".to_string(), "t2".to_string());
    m.insert("l1".to_string(), "t1".to_string());
    m.insert("l2".to_string(), "t3".to_string());
    assert_eq!(m.len(), 2);
    assert_eq!(m.get(&"l2".to_string()), Some(&"t3".to_string()));
    assert_eq!(m.get(&"l1".to_string()), Some(&"t1".to_string()));
    assert_eq!(m.get(&"l3".to_string()), None);
    let entries = m.iter();
    assert_eq!(entries[0].link, "l1");
    assert_eq!(entries[1].link, "l2");
}

#[test]
fn parent_of_splits_at_the_last_separator() {
    assert_eq!(parent_of("a/b").as_deref(), Some("a"));
    assert_eq!(parent_of("a/b/c").as_deref(), Some("a/b"));
    assert_eq!(parent_of("/a").as_deref(), Some("/"));
    assert_eq!(parent_of("plain"), None);
    assert_eq!(parent_of(""), None);
}

#[test]
fn lock_path_replaces_the_extension() {
    assert_eq!(LockFilePath::from_config_path("symkeeper.toml").0, "symkeeper.lock");
    assert_eq!(LockFilePath::from_config_path("dir/config.toml").0, "dir/config.lock");
    assert_eq!(LockFilePath::from_config_path("no_extension").0, "no_extension.lock");
    assert_eq!(LockFilePath::from_config_path(".hidden").0, ".hidden.lock");
    assert_eq!(LockFilePath::from_config_path("a.b/file").0, "a.b/file.lock");
    assert_eq!(LockFilePath::from_config_path("x.tar.gz").0, "x.tar.lock");
}
