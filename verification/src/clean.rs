//! The cleaner: applies removals queued by earlier runs.
//!
//! `CleanRunner::run` turns the previous record and one existence check per
//! queued link into the list of links to remove and the pruned record to
//! persist afterwards.  A queued link that is already gone is skipped, not
//! an error; the pruned record empties the queue and keeps the managed set
//! unchanged.  The application removes the listed links in order and
//! persists the pruned record only when every removal succeeded, so a
//! failed removal leaves the whole queue to be retried.

use crate::lock_file::LockFile;
use crate::path_set::PathSet;
use vstd::prelude::*;

verus! {

/// The queued links that were seen on disk, in their queued order.
pub open spec fn spec_existing_pending(items: Seq<String>, exist: Seq<bool>) -> Seq<Seq<char>>
    decreases items.len(),
{
    if items.len() == 0 {
        Seq::empty()
    } else {
        let rest = spec_existing_pending(items.drop_last(), exist.drop_last());
        if exist[items.len() - 1] {
            rest.push(items.last()@)
        } else {
            rest
        }
    }
}

/// What a clean pass hands back: the links to remove and the record to
/// persist once all removals have succeeded.
#[derive(Debug)]
pub struct CleanOutcome {
    pub remove: Vec<String>,
    pub new_lock: Option<LockFile>,
}

pub struct CleanRunner {}

impl CleanRunner {
    pub fn new() -> (r: Self) {
        CleanRunner {}
    }

    /// Decides the clean pass from the previous record and one existence
    /// check per queued link.  With no record there is nothing to clean and
    /// nothing to persist.
    pub fn run(&self, previous: Option<LockFile>, exist: &Vec<bool>) -> (r: CleanOutcome)
        requires
            previous matches Some(lock) ==> lock.wf() && exist@.len()
                == lock.symlinks_to_remove.spec_len(),
        ensures
            match previous {
                None => r.remove@.len() == 0 && r.new_lock is None,
                Some(lock) => {
                    &&& r.remove@.map_values(|s: String| s@) == spec_existing_pending(
                        lock.symlinks_to_remove.items@,
                        exist@,
                    )
                    &&& (r.new_lock matches Some(nl) && nl.symlinks == lock.symlinks
                        && nl.symlinks_to_remove.spec_len() == 0 && nl.wf() && nl.spec_disjoint())
                },
            },
    {
        match previous {
            None => CleanOutcome { remove: Vec::new(), new_lock: None },
            Some(lock) => {
                let q = lock.symlinks_to_remove.len();
                let mut remove: Vec<String> = Vec::new();
                let mut i: usize = 0;
                while i < q
                    invariant
                        i <= q,
                        q == lock.symlinks_to_remove.spec_len(),
                        exist@.len() == q,
                        remove@.map_values(|s: String| s@) == spec_existing_pending(
                            lock.symlinks_to_remove.items@.take(i as int),
                            exist@.take(i as int),
                        ),
                    decreases q - i,
                {
                    let ghost items = lock.symlinks_to_remove.items@;
                    let ghost before = remove@;
                    if exist[i] {
                        remove.push(lock.symlinks_to_remove.get(i).clone());
                    }
                    i = i + 1;
                    proof {
                        let t = i as int;
                        assert(items.take(t).drop_last() =~= items.take(t - 1));
                        assert(exist@.take(t).drop_last() =~= exist@.take(t - 1));
                        assert(items.take(t).last() == items[t - 1]);
                        if exist@[t - 1] {
                            assert(remove@.map_values(|s: String| s@) =~= before.map_values(
                                |s: String| s@,
                            ).push(items[t - 1]@));
                        } else {
                            assert(remove@.map_values(|s: String| s@) =~= before.map_values(
                                |s: String| s@,
                            ));
                        }
                    }
                }
                proof {
                    assert(lock.symlinks_to_remove.items@.take(q as int)
                        =~= lock.symlinks_to_remove.items@);
                    assert(exist@.take(q as int) =~= exist@);
                }
                let LockFile { symlinks, symlinks_to_remove } = lock;
                CleanOutcome {
                    remove,
                    new_lock: Some(LockFile::new(symlinks, PathSet::new())),
                }
            },
        }
    }
}

/// A queued link that is live gets removed: it stands in the clean pass's
/// removal list.
pub proof fn lemma_clean_removes_existing(items: Seq<String>, exist: Seq<bool>, k: int)
    requires
        exist.len() == items.len(),
        0 <= k < items.len(),
        exist[k],
    ensures
        spec_existing_pending(items, exist).contains(items[k]@),
    decreases items.len(),
{
    let whole = spec_existing_pending(items, exist);
    let rest = spec_existing_pending(items.drop_last(), exist.drop_last());
    if k == items.len() - 1 {
        assert(items.last() == items[k]);
        assert(whole == rest.push(items[k]@));
        assert(whole[rest.len() as int] == items[k]@);
    } else {
        lemma_clean_removes_existing(items.drop_last(), exist.drop_last(), k);
        assert(items.drop_last()[k] == items[k]);
        let j = choose|j: int| 0 <= j < rest.len() && rest[j] == items[k]@;
        if exist[items.len() - 1] {
            assert(whole[j] == items[k]@);
        } else {
            assert(whole[j] == items[k]@);
        }
    }
}

/// A queued link that is already gone is skipped, not an error: only links
/// observed on disk reach the removal list.
pub proof fn lemma_clean_skips_missing(items: Seq<String>, exist: Seq<bool>)
    requires
        exist.len() == items.len(),
    ensures
        forall|p: Seq<char>|
            spec_existing_pending(items, exist).contains(p) ==> exists|k: int|
                0 <= k < items.len() && items[k]@ == p && exist[k],
    decreases items.len(),
{
    if items.len() > 0 {
        lemma_clean_skips_missing(items.drop_last(), exist.drop_last());
        let rest = spec_existing_pending(items.drop_last(), exist.drop_last());
        assert forall|p: Seq<char>|
            spec_existing_pending(items, exist).contains(p) implies exists|k: int|
            0 <= k < items.len() && items[k]@ == p && exist[k] by {
            let whole = spec_existing_pending(items, exist);
            let j = choose|j: int| 0 <= j < whole.len() && whole[j] == p;
            if exist[items.len() - 1] && j == whole.len() - 1 {
                assert(items[items.len() - 1]@ == p);
            } else {
                assert(rest[j] == p);
                assert(rest.contains(p));
                let k = choose|k: int|
                    0 <= k < items.drop_last().len() && items.drop_last()[k]@ == p
                        && exist.drop_last()[k];
                assert(items[k]@ == p);
                assert(exist[k]);
            }
        }
    }
}

} // verus!
