use symkeeper::clean::CleanRunner;
use symkeeper::error::Error;
use symkeeper::fs::Observation;
use symkeeper::lock_file::LockFile;
use symkeeper::path_set::PathSet;
use symkeeper::symlink::Symlinks;
use symkeeper::sync::{require_force, SyncRunner};

fn links(pairs: &[(&str, &str)]) -> Symlinks {
    let mut s = Symlinks::new();
    for (l, t) in pairs {
        s.insert(l.to_string(), t.to_string());
    }
    s
}

fn config(pairs: &[(&str, &str)]) -> symkeeper::config::Config {
    symkeeper::config::Config::new(links(pairs))
}

fn obs(target_exists: bool, link_exists: bool, live_target: Option<&str>) -> Observation {
    Observation { target_exists, link_exists, live_target: live_target.map(|t| t.to_string()) }
}

#[test]
fn require_force_decides_from_the_record_and_the_live_link() {
    let lock = || {
        let mut pending = PathSet::new();
        pending.insert("queued".to_string());
        Some(LockFile::new(links(&[("managed", "t")]), pending))
    };
    let link = |s: &str| s.to_string();
    let live = |s: &str| Some(s.to_string());

    // A link that does not exist needs nothing, whatever the record says.
    assert!(!require_force(&None, &link("l"), false, &None));
    // No record at all: every existing link is somebody else's.
    assert!(require_force(&None, &link("l"), true, &None));
    // Already queued for removal: ours to replace.
    assert!(!require_force(&lock(), &link("queued"), true, &None));
    // Managed and still pointing where the record says: safe.
    assert!(!require_force(&lock(), &link("managed"), true, &live("t")));
    // Managed but repointed behind the tool's back: drift.
    assert!(require_force(&lock(), &link("managed"), true, &live("elsewhere")));
    // Managed but no longer a symlink at all: drift too.
    assert!(require_force(&lock(), &link("managed"), true, &None));
    // Existing but never recorded: protected.
    assert!(require_force(&lock(), &link("stranger"), true, &None));
}

#[test]
fn sync_twice_from_empty_state_changes_nothing() {
    let runner = SyncRunner::new(false);

    // First run: clean world, no record.
    let world1 = vec![obs(true, false, None), obs(true, false, None)];
    let r1 = runner.run(config(&[("l1", "t1"), ("l2", "t2")]), &None, &world1);
    let out1 = r1.expect("first run");
    assert_eq!(out1.actions.len(), 2);
    assert!(!out1.actions[0].remove_existing);
    assert_eq!(out1.new_lock.symlinks.len(), 2);
    assert_eq!(out1.new_lock.symlinks_to_remove.len(), 0);

    // Second run: the world the first plan produced.
    let world2 = vec![obs(true, true, Some("t1")), obs(true, true, Some("t2"))];
    let r2 = runner.run(config(&[("l1", "t1"), ("l2", "t2")]), &Some(out1.new_lock), &world2);
    let out2 = r2.expect("second run succeeds without force");
    // Every planned operation re-creates what is already live.
    assert_eq!(out2.actions.len(), 2);
    for (action, o) in out2.actions.iter().zip(world2.iter()) {
        assert_eq!(o.live_target.as_deref(), Some(action.target.as_str()));
    }
    // The record converges.
    assert_eq!(out2.new_lock.symlinks.entries, links(&[("l1", "t1"), ("l2", "t2")]).entries);
    assert_eq!(out2.new_lock.symlinks_to_remove.len(), 0);
}

#[test]
fn missing_targets_are_reported_together_and_sorted() {
    let runner = SyncRunner::new(false);
    // Entries ordered by link; both targets absent, in reverse name order.
    let world = vec![obs(false, false, None), obs(false, false, None)];
    let r = runner.run(config(&[("l1", "b"), ("l2", "a")]), &None, &world);
    match r {
        Err(Error::TargetFileNotExist(missing)) => {
            assert_eq!(missing.items, vec!["a".to_string(), "b".to_string()]);
        }
        other => panic!("expected TargetFileNotExist, got {:?}", other),
    }
}

#[test]
fn missing_target_error_message_lists_all_paths() {
    let runner = SyncRunner::new(false);
    let world = vec![obs(false, false, None), obs(false, false, None)];
    let r = runner.run(config(&[("l1", "b"), ("l2", "a")]), &None, &world);
    let err = r.err().expect("must fail");
    assert_eq!(err.message(), "Source file does not exist:\n- a\n- b");
}

#[test]
fn drifted_link_requires_force() {
    let previous = Some(LockFile::new(links(&[("l", "t1")]), PathSet::new()));
    // The live symlink was repointed to t2 behind the tool's back.
    let world = vec![obs(true, true, Some("t2"))];

    let r = SyncRunner::new(false).run(config(&[("l", "t1")]), &previous, &world);
    match r {
        Err(Error::SymlinkExists(conflicts)) => {
            assert_eq!(conflicts.items, vec!["l".to_string()]);
        }
        other => panic!("expected SymlinkExists, got {:?}", other),
    }

    let forced = SyncRunner::new(true).run(config(&[("l", "t1")]), &previous, &world);
    let out = forced.expect("force overwrites the drifted link");
    assert_eq!(out.actions.len(), 1);
    assert!(out.actions[0].remove_existing);
    assert_eq!(out.actions[0].target, "t1");
}

#[test]
fn matching_link_is_safe_without_force() {
    let previous = Some(LockFile::new(links(&[("l", "t")]), PathSet::new()));
    let world = vec![obs(true, true, Some("t"))];
    let r = SyncRunner::new(false).run(config(&[("l", "t")]), &previous, &world);
    assert!(r.is_ok(), "no drift, no force needed: {:?}", r.err().map(|e| e.message()));
}

#[test]
fn dropped_link_is_queued_and_clean_converges() {
    // The link was managed; the new configuration no longer wants it.
    let previous = Some(LockFile::new(links(&[("l", "t")]), PathSet::new()));
    let world = vec![];
    let out = SyncRunner::new(false)
        .run(config(&[]), &previous, &world)
        .expect("sync with empty desired set");
    assert_eq!(out.new_lock.symlinks.len(), 0);
    assert_eq!(out.new_lock.symlinks_to_remove.items, vec!["l".to_string()]);

    // The link is still live: clean removes it and empties the queue.
    let cleaned = CleanRunner::new().run(Some(out.new_lock), &vec![true]);
    assert_eq!(cleaned.remove, vec!["l".to_string()]);
    let pruned = cleaned.new_lock.expect("a record to persist");
    assert_eq!(pruned.symlinks_to_remove.len(), 0);
    assert_eq!(pruned.symlinks.len(), 0);
}

#[test]
fn clean_skips_already_removed_links() {
    let lock = LockFile::new(Symlinks::new(), {
        let mut p = PathSet::new();
        p.insert("gone".to_string());
        p
    });
    let cleaned = CleanRunner::new().run(Some(lock), &vec![false]);
    assert_eq!(cleaned.remove.len(), 0);
    let pruned = cleaned.new_lock.expect("still persists the pruned record");
    assert_eq!(pruned.symlinks_to_remove.len(), 0);
}

#[test]
fn clean_without_record_does_nothing() {
    let cleaned = CleanRunner::new().run(None, &vec![]);
    assert_eq!(cleaned.remove.len(), 0);
    assert!(cleaned.new_lock.is_none());
}

#[test]
fn unmanaged_existing_file_requires_force() {
    // Nothing was ever recorded, but something lives at the link path.
    let world = vec![obs(true, true, None)];
    let r = SyncRunner::new(false).run(config(&[("l", "t")]), &None, &world);
    match r {
        Err(Error::SymlinkExists(conflicts)) => {
            assert_eq!(conflicts.items, vec!["l".to_string()]);
        }
        other => panic!("expected SymlinkExists, got {:?}", other),
    }

    // The same with a record that does not mention the link.
    let previous = Some(LockFile::new(links(&[("other", "t")]), PathSet::new()));
    let r2 = SyncRunner::new(false).run(config(&[("l", "t")]), &previous, &world);
    assert!(matches!(r2, Err(Error::SymlinkExists(_))));
}

#[test]
fn queued_link_may_be_overwritten_without_force() {
    let mut pending = PathSet::new();
    pending.insert("l".to_string());
    let previous = Some(LockFile::new(Symlinks::new(), pending));
    let world = vec![obs(true, true, None)];
    let r = SyncRunner::new(false).run(config(&[("l", "t")]), &previous, &world);
    let out = r.expect("a link already queued for removal is ours to replace");
    // Re-desired: the link leaves the removal queue.
    assert_eq!(out.new_lock.symlinks_to_remove.len(), 0);
}

#[test]
fn plan_carries_parent_directories() {
    let world = vec![obs(true, false, None), obs(true, false, None), obs(true, false, None)];
    let out = SyncRunner::new(false)
        .run(config(&[("/root_level", "t"), ("dir/sub/file", "t"), ("plain", "t")]), &None, &world)
        .expect("sync");
    assert_eq!(out.actions[0].parent.as_deref(), Some("/"));
    assert_eq!(out.actions[1].parent.as_deref(), Some("dir/sub"));
    assert_eq!(out.actions[2].parent, None);
}

#[test]
fn previously_queued_links_stay_queued_until_desired_again() {
    let mut pending = PathSet::new();
    pending.insert("old".to_string());
    let previous = Some(LockFile::new(links(&[("kept", "t"), ("stale", "t")]), pending));
    let world = vec![obs(true, true, Some("t"))];
    let out = SyncRunner::new(false)
        .run(config(&[("kept", "t")]), &previous, &world)
        .expect("sync");
    assert_eq!(
        out.new_lock.symlinks_to_remove.items,
        vec!["old".to_string(), "stale".to_string()]
    );
}
