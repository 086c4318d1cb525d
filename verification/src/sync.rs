//! The reconciliation engine.
//!
//! `SyncRunner::run` compares the desired link set against the previous
//! record and what the live filesystem shows, and either fails with one
//! aggregate validation error or produces the plan of link operations and
//! the next record.  Validation never mutates: both gates look at every
//! entry and report the complete ordered set of offenders at once.

use crate::config::Config;
use crate::error::Error;
use crate::fs::{spec_live_target, Observation};
use crate::lock_file::LockFile;
use crate::order::{string_compare, PathOrder};
use crate::path_ext::{parent_of, spec_parent};
use crate::path_set::PathSet;
use crate::symlink::{Symlink, Symlinks};
use vstd::prelude::*;

verus! {

/// Whether overwriting what lives at `link` needs the force flag.
///
/// A link that does not exist needs nothing.  An existing link needs force
/// unless the record explains it: it is already queued for removal, or it
/// is recorded with the very target the live symlink still points to.  An
/// existing link with no record at all, a recorded link whose live target
/// drifted, and a live entry that is not a symlink all need force.
pub open spec fn spec_requires_force(
    previous: Option<LockFile>,
    link: Seq<char>,
    link_exists: bool,
    live_target: Option<Seq<char>>,
) -> bool {
    if !link_exists {
        false
    } else {
        match previous {
            None => true,
            Some(lock) => if lock.symlinks_to_remove.spec_contains(link) {
                false
            } else if !lock.symlinks.spec_contains(link) {
                true
            } else {
                live_target != Some(lock.symlinks.spec_target(link))
            },
        }
    }
}

/// Decides `spec_requires_force` for one link from the previous record and
/// what the filesystem shows at its path.
pub fn require_force(
    previous: &Option<LockFile>,
    link: &String,
    link_exists: bool,
    live_target: &Option<String>,
) -> (r: bool)
    requires
        previous matches Some(lock) ==> lock.wf(),
    ensures
        r == spec_requires_force(*previous, link@, link_exists, spec_live_target(*live_target)),
{
    if !link_exists {
        return false;
    }
    let lock = match previous {
        Some(l) => l,
        None => {
            return true;
        },
    };
    if lock.symlinks_to_remove.contains(link) {
        return false;
    }
    let recorded = match lock.symlinks.get(link) {
        Some(t) => t,
        None => {
            return true;
        },
    };
    match live_target {
        None => true,
        Some(t) => {
            let c = string_compare(t, recorded);
            !(c == PathOrder::Same)
        },
    }
}

/// One planned link operation: remove what lives at `link` if anything
/// does, create the parent directory if there is one, then create the
/// symlink from `link` to `target`.
#[derive(Debug, Clone, PartialEq, Eq)]
pub struct Action {
    pub link: String,
    pub target: String,
    pub remove_existing: bool,
    pub parent: Option<String>,
}

/// What a successful reconciliation hands back: the plan to apply and the
/// record to persist once every planned operation has succeeded.
#[derive(Debug)]
pub struct SyncOutcome {
    pub actions: Vec<Action>,
    pub new_lock: LockFile,
}

/// Target `t` is missing: some desired entry wants it and the filesystem
/// showed nothing there.
pub open spec fn spec_target_missing(
    desired: Symlinks,
    world: Seq<Observation>,
    t: Seq<char>,
) -> bool {
    exists|i: int|
        0 <= i < desired.entries@.len() && (#[trigger] desired.entries@[i]).target@ == t
            && !world[i].target_exists
}

/// Every desired target was seen on the filesystem.
pub open spec fn spec_all_targets_exist(desired: Symlinks, world: Seq<Observation>) -> bool {
    forall|i: int| 0 <= i < desired.entries@.len() ==> (#[trigger] world[i]).target_exists
}

/// Link `l` conflicts: its desired entry cannot be overwritten without
/// force.
pub open spec fn spec_link_conflict(
    desired: Symlinks,
    previous: Option<LockFile>,
    world: Seq<Observation>,
    l: Seq<char>,
) -> bool {
    exists|i: int|
        0 <= i < desired.entries@.len() && (#[trigger] desired.entries@[i]).link@ == l
            && spec_requires_force(
            previous,
            desired.entries@[i].link@,
            world[i].link_exists,
            spec_live_target(world[i].live_target),
        )
}

/// No desired entry needs force.
pub open spec fn spec_no_conflicts(
    desired: Symlinks,
    previous: Option<LockFile>,
    world: Seq<Observation>,
) -> bool {
    forall|i: int|
        0 <= i < desired.entries@.len() ==> !spec_requires_force(
            previous,
            (#[trigger] desired.entries@[i]).link@,
            world[i].link_exists,
            spec_live_target(world[i].live_target),
        )
}

/// The plan's entry `i` serves desired entry `e` as observed by `o`.
pub open spec fn spec_action_for(a: Action, e: Symlink<String>, o: Observation) -> bool {
    &&& a.link@ == e.link@
    &&& a.target@ == e.target@
    &&& a.remove_existing == o.link_exists
    &&& match a.parent {
        Some(p) => spec_parent(e.link@) == Some(p@),
        None => spec_parent(e.link@) is None,
    }
}

/// The previous record tracked `p`, as a managed link or a queued removal.
pub open spec fn spec_previously_tracked(previous: Option<LockFile>, p: Seq<char>) -> bool {
    match previous {
        None => false,
        Some(lock) => lock.symlinks.spec_contains(p) || lock.symlinks_to_remove.spec_contains(p),
    }
}

/// The record a successful run persists: the desired set becomes managed,
/// and whatever was tracked before but is desired no longer stays queued
/// for removal.
pub open spec fn spec_new_lock(
    desired: Symlinks,
    previous: Option<LockFile>,
    lock: LockFile,
) -> bool {
    &&& lock.symlinks == desired
    &&& lock.symlinks_to_remove.wf()
    &&& forall|p: Seq<char>|
        lock.symlinks_to_remove.spec_contains(p) <==> (spec_previously_tracked(previous, p)
            && !desired.spec_contains(p))
}

pub struct SyncRunner {
    pub force: bool,
}

impl SyncRunner {
    pub fn new(force: bool) -> (r: Self)
        ensures
            r.force == force,
    {
        SyncRunner { force }
    }

    /// Reconciles the desired set against the previous record.
    ///
    /// Logic flow:
    /// - every desired target must exist, and every absent one is reported;
    /// - without force, every desired link must be overwritable, and every
    ///   offender is reported;
    /// - the plan recreates each desired link and the next record queues
    ///   whatever was tracked but is no longer desired.
    pub fn run(&self, config: Config, previous: &Option<LockFile>, world: &Vec<Observation>) -> (r:
        Result<SyncOutcome, Error>)
        requires
            config.symlinks.wf(),
            previous matches Some(lock) ==> lock.wf(),
            world@.len() == config.symlinks.spec_len(),
        ensures
            match r {
                Ok(out) => {
                    &&& spec_all_targets_exist(config.symlinks, world@)
                    &&& self.force || spec_no_conflicts(config.symlinks, *previous, world@)
                    &&& out.actions@.len() == config.symlinks.spec_len()
                    &&& forall|i: int|
                        0 <= i < out.actions@.len() ==> spec_action_for(
                            #[trigger] out.actions@[i],
                            config.symlinks.entries@[i],
                            world@[i],
                        )
                    &&& spec_new_lock(config.symlinks, *previous, out.new_lock)
                    &&& out.new_lock.wf()
                    &&& out.new_lock.spec_disjoint()
                },
                Err(Error::TargetFileNotExist(missing)) => {
                    &&& !spec_all_targets_exist(config.symlinks, world@)
                    &&& missing.wf()
                    &&& forall|t: Seq<char>|
                        missing.spec_contains(t) == spec_target_missing(
                            config.symlinks,
                            world@,
                            t,
                        )
                },
                Err(Error::SymlinkExists(links)) => {
                    &&& spec_all_targets_exist(config.symlinks, world@)
                    &&& !self.force
                    &&& !spec_no_conflicts(config.symlinks, *previous, world@)
                    &&& links.wf()
                    &&& forall|l: Seq<char>|
                        links.spec_contains(l) == spec_link_conflict(
                            config.symlinks,
                            *previous,
                            world@,
                            l,
                        )
                },
                Err(_) => false,
            },
    {
        let n = config.symlinks.len();

        // Target existence gate: look at every entry before touching anything.
        let mut missing = PathSet::new();
        let mut i: usize = 0;
        while i < n
            invariant
                i <= n,
                n == config.symlinks.spec_len(),
                world@.len() == n,
                missing.wf(),
                forall|t: Seq<char>|
                    missing.spec_contains(t) <==> exists|j: int|
                        0 <= j < i && (#[trigger] config.symlinks.entries@[j]).target@ == t
                            && !world@[j].target_exists,
            decreases n - i,
        {
            if !world[i].target_exists {
                missing.insert(config.symlinks.entries[i].target.clone());
            }
            i = i + 1;
        }
        if !missing.is_empty() {
            return Err(Error::TargetFileNotExist(missing));
        }
        assert(spec_all_targets_exist(config.symlinks, world@)) by {
            assert forall|j: int|
                0 <= j < config.symlinks.entries@.len() implies (#[trigger] world@[j]).target_exists by {
                if !world@[j].target_exists {
                    assert(missing.spec_contains(config.symlinks.entries@[j].target@));
                }
            }
        }

        // Ownership gate: without force, every offender is collected.
        if !self.force {
            let mut conflicts = PathSet::new();
            let mut i: usize = 0;
            while i < n
                invariant
                    i <= n,
                    n == config.symlinks.spec_len(),
                    world@.len() == n,
                    previous matches Some(lock) ==> lock.wf(),
                    conflicts.wf(),
                    forall|l: Seq<char>|
                        conflicts.spec_contains(l) <==> exists|j: int|
                            0 <= j < i && (#[trigger] config.symlinks.entries@[j]).link@ == l
                                && spec_requires_force(
                                *previous,
                                config.symlinks.entries@[j].link@,
                                world@[j].link_exists,
                                spec_live_target(world@[j].live_target),
                            ),
                decreases n - i,
            {
                let e = &config.symlinks.entries[i];
                let needs = require_force(previous, &e.link, world[i].link_exists, &world[i].live_target);
                if needs {
                    conflicts.insert(e.link.clone());
                }
                i = i + 1;
            }
            if !conflicts.is_empty() {
                return Err(Error::SymlinkExists(conflicts));
            }
            assert(spec_no_conflicts(config.symlinks, *previous, world@)) by {
                assert forall|j: int|
                    0 <= j < config.symlinks.entries@.len() implies !spec_requires_force(
                    *previous,
                    (#[trigger] config.symlinks.entries@[j]).link@,
                    world@[j].link_exists,
                    spec_live_target(world@[j].live_target),
                ) by {
                    if spec_requires_force(
                        *previous,
                        config.symlinks.entries@[j].link@,
                        world@[j].link_exists,
                        spec_live_target(world@[j].live_target),
                    ) {
                        assert(conflicts.spec_contains(config.symlinks.entries@[j].link@));
                    }
                }
            }
        }

        // The plan: recreate every desired link.
        let mut actions: Vec<Action> = Vec::new();
        let mut i: usize = 0;
        while i < n
            invariant
                i <= n,
                n == config.symlinks.spec_len(),
                world@.len() == n,
                actions@.len() == i,
                forall|j: int|
                    0 <= j < i ==> spec_action_for(
                        #[trigger] actions@[j],
                        config.symlinks.entries@[j],
                        world@[j],
                    ),
            decreases n - i,
        {
            let e = &config.symlinks.entries[i];
            let parent = parent_of(e.link.as_str());
            actions.push(
                Action {
                    link: e.link.clone(),
                    target: e.target.clone(),
                    remove_existing: world[i].link_exists,
                    parent,
                },
            );
            i = i + 1;
        }

        // The next record: queue whatever was tracked but is desired no more.
        let mut queued = PathSet::new();
        match previous {
            Some(lock) => {
                let m = lock.symlinks.len();
                let mut k: usize = 0;
                while k < m
                    invariant
                        k <= m,
                        m == lock.symlinks.spec_len(),
                        config.symlinks.wf(),
                        lock.wf(),
                        queued.wf(),
                        forall|p: Seq<char>|
                            queued.spec_contains(p) <==> exists|j: int|
                                0 <= j < k && (#[trigger] lock.symlinks.entries@[j]).link@ == p
                                    && !config.symlinks.spec_contains(p),
                    decreases m - k,
                {
                    let e = &lock.symlinks.entries[k];
                    if config.symlinks.get(&e.link).is_none() {
                        queued.insert(e.link.clone());
                    }
                    k = k + 1;
                }
                let q = lock.symlinks_to_remove.len();
                let mut k2: usize = 0;
                while k2 < q
                    invariant
                        k2 <= q,
                        q == lock.symlinks_to_remove.spec_len(),
                        config.symlinks.wf(),
                        lock.wf(),
                        queued.wf(),
                        forall|p: Seq<char>|
                            queued.spec_contains(p) <==> ((lock.symlinks.spec_contains(p)
                                || exists|j: int|
                                0 <= j < k2 && (#[trigger] lock.symlinks_to_remove.items@[j])@
                                    == p) && !config.symlinks.spec_contains(p)),
                    decreases q - k2,
                {
                    let p = lock.symlinks_to_remove.get(k2);
                    if config.symlinks.get(p).is_none() {
                        queued.insert(p.clone());
                    }
                    k2 = k2 + 1;
                }
            },
            None => {},
        }
        let Config { symlinks } = config;
        let new_lock = LockFile::new(symlinks, queued);
        Ok(SyncOutcome { actions, new_lock })
    }
}

/// An action that re-creates exactly what already lives at its link: the
/// live symlink already points at the target the action writes.
pub open spec fn spec_action_redundant(a: Action, o: Observation) -> bool {
    o.link_exists && spec_live_target(o.live_target) == Some(a.target@)
}

/// Idempotence: after a run from an empty record whose plan was applied,
/// a second run without force passes both gates again, every operation it
/// plans re-creates a link exactly as it already stands, and the record it
/// persists has the same content as the first one.  Together with `run`'s
/// contract this says the second run returns `Ok` and changes nothing.
pub proof fn lemma_sync_idempotent(
    desired: Symlinks,
    lock1: LockFile,
    world2: Seq<Observation>,
    lock2: LockFile,
)
    requires
        desired.wf(),
        lock1.wf(),
        spec_new_lock(desired, None, lock1),
        world2.len() == desired.entries@.len(),
        forall|i: int| 0 <= i < world2.len() ==> (#[trigger] world2[i]).target_exists,
        forall|i: int| 0 <= i < world2.len() ==> (#[trigger] world2[i]).link_exists,
        forall|i: int|
            0 <= i < world2.len() ==> spec_live_target((#[trigger] world2[i]).live_target)
                == Some(desired.entries@[i].target@),
    ensures
        spec_all_targets_exist(desired, world2),
        spec_no_conflicts(desired, Some(lock1), world2),
        forall|i: int, a: Action|
            0 <= i < world2.len() && #[trigger] spec_action_for(a, desired.entries@[i], world2[i])
                ==> spec_action_redundant(a, world2[i]),
        spec_new_lock(desired, Some(lock1), lock2) ==> (lock2.symlinks == desired && forall|
            p: Seq<char>,
        | !lock2.symlinks_to_remove.spec_contains(p)),
{
    assert(lock1.symlinks == desired);
    assert forall|i: int| 0 <= i < desired.entries@.len() implies !spec_requires_force(
        Some(lock1),
        (#[trigger] desired.entries@[i]).link@,
        world2[i].link_exists,
        spec_live_target(world2[i].live_target),
    ) by {
        let link = desired.entries@[i].link@;
        assert(!spec_previously_tracked(None, link));
        assert(!lock1.symlinks_to_remove.spec_contains(link));
        assert(lock1.symlinks.spec_contains(link));
        desired.lemma_unique_links();
        let k = choose|k: int|
            0 <= k < desired.entries@.len() && desired.entries@[k].link@ == link;
        assert(k == i);
        assert(lock1.symlinks.spec_target(link) == desired.entries@[i].target@);
    }
    if spec_new_lock(desired, Some(lock1), lock2) {
        assert forall|p: Seq<char>| !lock2.symlinks_to_remove.spec_contains(p) by {
            assert(!spec_previously_tracked(None, p) || spec_previously_tracked(None, p));
            if spec_previously_tracked(Some(lock1), p) {
                assert(lock1.symlinks.spec_contains(p) || lock1.symlinks_to_remove.spec_contains(
                    p,
                ));
                assert(desired.spec_contains(p));
            }
        }
    }
}

/// Drift requires force: an existing link recorded with one target, not
/// queued for removal, whose live symlink shows anything else, conflicts —
/// so a run without force reports it and only a forced run overwrites it.
pub proof fn lemma_drift_requires_force(
    desired: Symlinks,
    lock: LockFile,
    world: Seq<Observation>,
    i: int,
)
    requires
        desired.wf(),
        lock.wf(),
        world.len() == desired.entries@.len(),
        0 <= i < desired.entries@.len(),
        lock.symlinks.spec_contains(desired.entries@[i].link@),
        !lock.symlinks_to_remove.spec_contains(desired.entries@[i].link@),
        world[i].link_exists,
        spec_live_target(world[i].live_target) != Some(
            lock.symlinks.spec_target(desired.entries@[i].link@),
        ),
    ensures
        spec_requires_force(
            Some(lock),
            desired.entries@[i].link@,
            world[i].link_exists,
            spec_live_target(world[i].live_target),
        ),
        spec_link_conflict(desired, Some(lock), world, desired.entries@[i].link@),
        !spec_no_conflicts(desired, Some(lock), world),
{
    assert(spec_link_conflict(desired, Some(lock), world, desired.entries@[i].link@)) by {
        assert((#[trigger] desired.entries@[i]).link@ == desired.entries@[i].link@);
    }
}

/// No drift is safe without force: an existing link whose live target
/// matches what the record says needs no force.
pub proof fn lemma_no_drift_is_safe(lock: LockFile, link: Seq<char>)
    requires
        lock.symlinks.spec_contains(link),
    ensures
        !spec_requires_force(Some(lock), link, true, Some(lock.symlinks.spec_target(link))),
{
}

/// A link that exists on disk but appears in no prior record — neither
/// managed nor queued — cannot be overwritten without force.
pub proof fn lemma_unmanaged_existing_needs_force(
    previous: Option<LockFile>,
    link: Seq<char>,
    live: Option<Seq<char>>,
)
    requires
        !spec_previously_tracked(previous, link),
    ensures
        spec_requires_force(previous, link, true, live),
{
}

/// Dropping a previously managed link from the desired set queues it for
/// removal in the record a successful run persists.
pub proof fn lemma_dropped_link_is_queued(
    desired: Symlinks,
    previous: LockFile,
    link: Seq<char>,
    new_lock: LockFile,
)
    requires
        previous.symlinks.spec_contains(link),
        !desired.spec_contains(link),
        spec_new_lock(desired, Some(previous), new_lock),
    ensures
        new_lock.symlinks_to_remove.spec_contains(link),
{
}

/// A missing record and an empty record decide alike: nothing is managed,
/// nothing is queued, so every existing link needs force and a successful
/// run queues nothing.
pub proof fn lemma_no_record_like_empty(
    empty: LockFile,
    link: Seq<char>,
    link_exists: bool,
    live: Option<Seq<char>>,
)
    requires
        empty.symlinks.spec_len() == 0,
        empty.symlinks_to_remove.spec_len() == 0,
    ensures
        spec_requires_force(None, link, link_exists, live) == spec_requires_force(
            Some(empty),
            link,
            link_exists,
            live,
        ),
        spec_previously_tracked(None, link) == spec_previously_tracked(Some(empty), link),
{
}

} // verus!
