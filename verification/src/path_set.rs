//! An ordered set of path strings.
//!
//! The verified counterpart of a `BTreeSet` of paths: items are kept in
//! strictly increasing lexicographic order, so the set holds no duplicates
//! and iterating it is deterministic.  Aggregate errors report their
//! offending paths through this type.

use crate::order::{
    lemma_lt_transitive, lemma_sorted_canonical, seq_lt, sorted_strict, string_compare, PathOrder,
};
use vstd::prelude::*;

verus! {

#[derive(Debug, PartialEq, Eq)]
pub struct PathSet {
    pub items: Vec<String>,
}

impl PathSet {
    /// The items stand in strictly increasing lexicographic order.
    pub open spec fn wf(&self) -> bool {
        forall|i: int, j: int|
            0 <= i < j < self.items@.len() ==> seq_lt(self.items@[i]@, self.items@[j]@)
    }

    pub open spec fn spec_contains(&self, p: Seq<char>) -> bool {
        exists|i: int| 0 <= i < self.items@.len() && self.items@[i]@ == p
    }

    pub open spec fn spec_len(&self) -> nat {
        self.items@.len()
    }

    pub fn new() -> (r: Self)
        ensures
            r.wf(),
            r.spec_len() == 0,
            forall|p: Seq<char>| !r.spec_contains(p),
    {
        PathSet { items: Vec::new() }
    }

    pub fn len(&self) -> (n: usize)
        ensures
            n == self.spec_len(),
    {
        self.items.len()
    }

    pub fn is_empty(&self) -> (r: bool)
        ensures
            r == (self.spec_len() == 0),
            r == !(exists|p: Seq<char>| self.spec_contains(p)),
    {
        proof {
            if self.items@.len() > 0 {
                assert(self.spec_contains(self.items@[0]@));
            }
        }
        self.items.is_empty()
    }

    pub fn get(&self, i: usize) -> (r: &String)
        requires
            i < self.spec_len(),
        ensures
            r == self.items@[i as int],
    {
        &self.items[i]
    }

    pub fn contains(&self, p: &String) -> (r: bool)
        ensures
            r == self.spec_contains(p@),
    {
        let n = self.items.len();
        let mut i: usize = 0;
        while i < n
            invariant
                i <= n,
                n == self.items@.len(),
                forall|j: int| 0 <= j < i ==> self.items@[j]@ != p@,
            decreases n - i,
        {
            let c = string_compare(&self.items[i], p);
            if c == PathOrder::Same {
                return true;
            }
            i = i + 1;
        }
        false
    }

    /// Adds a path; a path already present stays as it is.
    pub fn insert(&mut self, s: String)
        requires
            old(self).wf(),
        ensures
            final(self).wf(),
            forall|p: Seq<char>|
                final(self).spec_contains(p) <==> (old(self).spec_contains(p) || p == s@),
    {
        let n = self.items.len();
        let mut i: usize = 0;
        let mut found_after = false;
        while i < n && !found_after
            invariant
                i <= n,
                n == self.items@.len(),
                *self == *old(self),
                old(self).wf(),
                forall|j: int| 0 <= j < i ==> seq_lt(self.items@[j]@, s@),
                found_after ==> i < n && seq_lt(s@, self.items@[i as int]@),
            decreases n - i, (if found_after { 0int } else { 1int }),
        {
            let c = string_compare(&self.items[i], &s);
            if c == PathOrder::Same {
                proof {
                    assert(self.spec_contains(s@));
                }
                return;
            }
            if c == PathOrder::After {
                found_after = true;
            } else {
                i = i + 1;
            }
        }
        let ghost pre = self.items@;
        self.items.insert(i, s);
        proof {
            let post = self.items@;
            assert(post == pre.insert(i as int, s));
            assert forall|a: int, b: int| 0 <= a < b < post.len() implies seq_lt(
                post[a]@,
                post[b]@,
            ) by {
                if b < i {
                    assert(post[a] == pre[a]);
                    assert(post[b] == pre[b]);
                } else if b == i {
                    assert(post[a] == pre[a]);
                    assert(post[b] == s);
                } else if a < i {
                    assert(post[a] == pre[a]);
                    assert(post[b] == pre[b - 1]);
                    if b - 1 == a {
                        // a < i <= b - 1, impossible
                        assert(false);
                    }
                } else if a == i {
                    assert(post[a] == s);
                    assert(post[b] == pre[b - 1]);
                    if b - 1 > i {
                        lemma_lt_transitive(s@, pre[i as int]@, pre[b - 1]@);
                    }
                } else {
                    assert(post[a] == pre[a - 1]);
                    assert(post[b] == pre[b - 1]);
                }
            }
            assert forall|p: Seq<char>|
                self.spec_contains(p) <==> (old(self).spec_contains(p) || p == s@) by {
                if self.spec_contains(p) {
                    let k = choose|k: int| 0 <= k < post.len() && post[k]@ == p;
                    if k < i {
                        assert(pre[k]@ == p);
                    } else if k == i {
                        assert(p == s@);
                    } else {
                        assert(pre[k - 1]@ == p);
                    }
                }
                if old(self).spec_contains(p) {
                    let k = choose|k: int| 0 <= k < pre.len() && pre[k]@ == p;
                    if k < i {
                        assert(post[k]@ == p);
                    } else {
                        assert(post[k + 1]@ == p);
                    }
                    assert(self.spec_contains(p));
                }
                if p == s@ {
                    assert(post[i as int]@ == p);
                    assert(self.spec_contains(p));
                }
            }
        }
    }

    /// Reports are deterministic: two well-formed sets holding the same
    /// paths list them identically, whatever order they were built in.
    pub proof fn lemma_canonical_order(x: PathSet, y: PathSet)
        requires
            x.wf(),
            y.wf(),
            forall|p: Seq<char>| x.spec_contains(p) == y.spec_contains(p),
        ensures
            x.items@.map_values(|s: String| s@) == y.items@.map_values(|s: String| s@),
    {
        let sx = x.items@.map_values(|s: String| s@);
        let sy = y.items@.map_values(|s: String| s@);
        assert(sorted_strict(sx));
        assert(sorted_strict(sy));
        assert forall|p: Seq<char>| sx.contains(p) == sy.contains(p) by {
            if sx.contains(p) {
                let k = choose|k: int| 0 <= k < sx.len() && sx[k] == p;
                assert(x.items@[k]@ == p);
                assert(x.spec_contains(p));
                let k2 = choose|k2: int| 0 <= k2 < y.items@.len() && y.items@[k2]@ == p;
                assert(sy[k2] == p);
                assert(sy.contains(p));
            }
            if sy.contains(p) {
                let k = choose|k: int| 0 <= k < sy.len() && sy[k] == p;
                assert(y.items@[k]@ == p);
                assert(y.spec_contains(p));
                let k2 = choose|k2: int| 0 <= k2 < x.items@.len() && x.items@[k2]@ == p;
                assert(sx[k2] == p);
                assert(sx.contains(p));
            }
        }
        lemma_sorted_canonical(sx, sy);
    }
}

} // verus!
