//! Desired links and the ordered mapping from link path to target path.
//!
//! `Symlinks` is the verified counterpart of a `BTreeMap` from link to
//! target: entries are kept in strictly increasing lexicographic order of
//! their link paths, so every link appears at most once and iteration is
//! deterministic.

use crate::error::Error;
use crate::order::{
    lemma_lt_irreflexive, lemma_lt_transitive, seq_lt, string_compare, PathOrder,
};
use vstd::prelude::*;

verus! {

/// A link path and the target path it must point to.
#[derive(Debug, Clone, Copy, PartialEq, Eq)]
pub struct Symlink<T> {
    pub target: T,
    pub link: T,
}

impl<T> Symlink<T> {
    pub fn into_target(self) -> (r: T)
        ensures
            r == self.target,
    {
        self.target
    }

    pub fn into_link(self) -> (r: T)
        ensures
            r == self.link,
    {
        self.link
    }

    /// Applies `f` to the target, then to the link; the first failure wins.
    pub fn try_map<U, E, F: Fn(T) -> Result<U, E>>(self, f: F) -> (r:
        Result<Symlink<U>, E>)
        requires
            f.requires((self.target,)),
            f.requires((self.link,)),
        ensures
            match r {
                Ok(mapped) => f.ensures((self.target,), Ok(mapped.target)) && f.ensures(
                    (self.link,),
                    Ok(mapped.link),
                ),
                Err(e) => f.ensures((self.target,), Err(e)) || f.ensures((self.link,), Err(e)),
            },
    {
        let Symlink { target, link } = self;
        let target = match f(target) {
            Ok(t) => t,
            Err(e) => {
                return Err(e);
            },
        };
        let link = match f(link) {
            Ok(l) => l,
            Err(e) => {
                return Err(e);
            },
        };
        Ok(Symlink { target, link })
    }
}

/// True of a path string that expansion leaves alone: no `$` anywhere and no
/// `~` in front.
pub open spec fn plain_path(s: Seq<char>) -> bool {
    (forall|i: int| 0 <= i < s.len() ==> s[i] != '$') && (s.len() == 0 || s[0] != '~')
}

/// Relies on shellexpand::full: expands `$VAR` and `${VAR}` references and a
/// leading `~` in a path string.  A string with no `$` and no leading `~`
/// comes back unchanged; the only failure is a variable whose lookup fails,
/// reported here as its display text.
#[verifier::external_body]
fn expand_env_variable(s: &str) -> (r: Result<String, String>)
    ensures
        (match r {
            Ok(v) => plain_path(s@) ==> v@ == s@,
            Err(e) => !plain_path(s@),
        }),
{
    match shellexpand::full(s) {
        Ok(expanded) => Ok(expanded.into_owned()),
        Err(error) => Err(error.to_string()),
    }
}

/// Expands one path string, turning a failed lookup into the library's
/// expansion error.
fn expand_to_error(raw: String) -> (res: Result<String, Error>)
    ensures
        plain_path(raw@) ==> (res matches Ok(v) && v@ == raw@),
        res matches Err(e) ==> e matches Error::EnvExpansion(_),
{
    match expand_env_variable(raw.as_str()) {
        Ok(v) => Ok(v),
        Err(m) => Err(Error::EnvExpansion(m)),
    }
}

impl Symlink<String> {
    /// Expands environment references and a leading tilde in both paths.
    pub fn to_path_buf(self) -> (r: Result<Symlink<String>, Error>)
        ensures
            plain_path(self.target@) && plain_path(self.link@) ==> (r matches Ok(mapped)
                && mapped.target@ == self.target@ && mapped.link@ == self.link@),
            r matches Err(e) ==> e matches Error::EnvExpansion(_),
    {
        self.try_map(expand_to_error)
    }
}

/// The ordered mapping from link path to target path.
#[derive(Debug, PartialEq, Eq)]
pub struct Symlinks {
    pub entries: Vec<Symlink<String>>,
}

impl Symlinks {
    /// Entries stand in strictly increasing lexicographic order of links.
    pub open spec fn wf(&self) -> bool {
        forall|i: int, j: int|
            0 <= i < j < self.entries@.len() ==> seq_lt(
                self.entries@[i].link@,
                self.entries@[j].link@,
            )
    }

    pub open spec fn spec_len(&self) -> nat {
        self.entries@.len()
    }

    pub open spec fn spec_contains(&self, link: Seq<char>) -> bool {
        exists|i: int| 0 <= i < self.entries@.len() && self.entries@[i].link@ == link
    }

    /// The target recorded for `link`; meaningful when `spec_contains(link)`.
    pub open spec fn spec_target(&self, link: Seq<char>) -> Seq<char> {
        let i = choose|i: int| 0 <= i < self.entries@.len() && self.entries@[i].link@ == link;
        self.entries@[i].target@
    }

    /// In a well-formed mapping no two entries share a link.
    pub proof fn lemma_unique_links(&self)
        requires
            self.wf(),
        ensures
            forall|i: int, j: int|
                0 <= i < j < self.entries@.len() ==> self.entries@[i].link@
                    != self.entries@[j].link@,
    {
        assert forall|i: int, j: int|
            0 <= i < j < self.entries@.len() implies self.entries@[i].link@
            != self.entries@[j].link@ by {
            if self.entries@[i].link@ == self.entries@[j].link@ {
                lemma_lt_irreflexive(self.entries@[i].link@);
            }
        }
    }

    pub fn new() -> (r: Self)
        ensures
            r.wf(),
            r.spec_len() == 0,
            forall|p: Seq<char>| !r.spec_contains(p),
    {
        Symlinks { entries: Vec::new() }
    }

    pub fn len(&self) -> (n: usize)
        ensures
            n == self.spec_len(),
    {
        self.entries.len()
    }

    /// Looks the target up for a link path.
    pub fn get(&self, link: &String) -> (r: Option<&String>)
        requires
            self.wf(),
        ensures
            match r {
                Some(t) => self.spec_contains(link@) && t@ == self.spec_target(link@),
                None => !self.spec_contains(link@),
            },
    {
        let n = self.entries.len();
        let mut i: usize = 0;
        while i < n
            invariant
                i <= n,
                n == self.entries@.len(),
                self.wf(),
                forall|j: int| 0 <= j < i ==> self.entries@[j].link@ != link@,
            decreases n - i,
        {
            let c = string_compare(&self.entries[i].link, link);
            if c == PathOrder::Same {
                proof {
                    self.lemma_unique_links();
                    let k = choose|k: int|
                        0 <= k < self.entries@.len() && self.entries@[k].link@ == link@;
                    assert(k == i);
                }
                return Some(&self.entries[i].target);
            }
            i = i + 1;
        }
        None
    }

    /// Adds an entry; an entry with the same link is replaced.
    pub fn insert(&mut self, link: String, target: String)
        requires
            old(self).wf(),
        ensures
            final(self).wf(),
            forall|p: Seq<char>|
                final(self).spec_contains(p) <==> (old(self).spec_contains(p) || p == link@),
            final(self).spec_target(link@) == target@,
            forall|p: Seq<char>|
                old(self).spec_contains(p) && p != link@ ==> final(self).spec_target(p) == old(
                    self,
                ).spec_target(p),
    {
        let n = self.entries.len();
        let mut i: usize = 0;
        let mut found_after = false;
        while i < n && !found_after
            invariant
                i <= n,
                n == self.entries@.len(),
                *self == *old(self),
                old(self).wf(),
                forall|j: int| 0 <= j < i ==> seq_lt(self.entries@[j].link@, link@),
                found_after ==> i < n && seq_lt(link@, self.entries@[i as int].link@),
            decreases n - i, (if found_after { 0int } else { 1int }),
        {
            let c = string_compare(&self.entries[i].link, &link);
            if c == PathOrder::Same {
                let ghost pre = self.entries@;
                self.entries.remove(i);
                self.entries.insert(i, Symlink { target, link });
                proof {
                    let post = self.entries@;
                    assert(post =~= pre.update(i as int, post[i as int]));
                    assert(post[i as int].link@ == pre[i as int].link@);
                    assert forall|a: int, b: int| 0 <= a < b < post.len() implies seq_lt(
                        post[a].link@,
                        post[b].link@,
                    ) by {
                        assert(post[a].link@ == pre[a].link@);
                        assert(post[b].link@ == pre[b].link@);
                    }
                    self.lemma_unique_links();
                    old(self).lemma_unique_links();
                    assert forall|p: Seq<char>|
                        self.spec_contains(p) <==> (old(self).spec_contains(p) || p == link@) by {
                        if self.spec_contains(p) {
                            let k = choose|k: int| 0 <= k < post.len() && post[k].link@ == p;
                            assert(pre[k].link@ == p);
                        }
                        if old(self).spec_contains(p) {
                            let k = choose|k: int| 0 <= k < pre.len() && pre[k].link@ == p;
                            assert(post[k].link@ == p);
                            assert(self.spec_contains(p));
                        }
                        if p == link@ {
                            assert(post[i as int].link@ == p);
                            assert(self.spec_contains(p));
                        }
                    }
                    assert(final(self).spec_target(link@) == target@) by {
                        let k = choose|k: int| 0 <= k < post.len() && post[k].link@ == link@;
                        assert(post[i as int].link@ == link@);
                        assert(k == i);
                    }
                    assert forall|p: Seq<char>|
                        old(self).spec_contains(p) && p != link@ implies self.spec_target(p)
                        == old(self).spec_target(p) by {
                        let k = choose|k: int| 0 <= k < pre.len() && pre[k].link@ == p;
                        assert(post[k].link@ == p);
                        let k2 = choose|k2: int| 0 <= k2 < post.len() && post[k2].link@ == p;
                        assert(k2 == k);
                        assert(k != i);
                        assert(post[k] == pre[k]);
                    }
                }
                return;
            }
            if c == PathOrder::After {
                found_after = true;
            } else {
                i = i + 1;
            }
        }
        let ghost pre = self.entries@;
        self.entries.insert(i, Symlink { target, link });
        proof {
            let post = self.entries@;
            assert(post == pre.insert(i as int, post[i as int]));
            assert(post[i as int].link@ == link@);
            assert forall|a: int, b: int| 0 <= a < b < post.len() implies seq_lt(
                post[a].link@,
                post[b].link@,
            ) by {
                if b < i {
                    assert(post[a] == pre[a]);
                    assert(post[b] == pre[b]);
                } else if b == i {
                    assert(post[a] == pre[a]);
                } else if a < i {
                    assert(post[a] == pre[a]);
                    assert(post[b] == pre[b - 1]);
                    if b - 1 == a {
                        assert(false);
                    }
                } else if a == i {
                    assert(post[b] == pre[b - 1]);
                    if b - 1 > i {
                        lemma_lt_transitive(link@, pre[i as int].link@, pre[b - 1].link@);
                    }
                } else {
                    assert(post[a] == pre[a - 1]);
                    assert(post[b] == pre[b - 1]);
                }
            }
            self.lemma_unique_links();
            old(self).lemma_unique_links();
            assert forall|p: Seq<char>|
                self.spec_contains(p) <==> (old(self).spec_contains(p) || p == link@) by {
                if self.spec_contains(p) {
                    let k = choose|k: int| 0 <= k < post.len() && post[k].link@ == p;
                    if k < i {
                        assert(pre[k].link@ == p);
                    } else if k == i {
                        assert(p == link@);
                    } else {
                        assert(pre[k - 1].link@ == p);
                    }
                }
                if old(self).spec_contains(p) {
                    let k = choose|k: int| 0 <= k < pre.len() && pre[k].link@ == p;
                    if k < i {
                        assert(post[k].link@ == p);
                    } else {
                        assert(post[k + 1].link@ == p);
                    }
                    assert(self.spec_contains(p));
                }
                if p == link@ {
                    assert(post[i as int].link@ == p);
                    assert(self.spec_contains(p));
                }
            }
            assert(final(self).spec_target(link@) == target@) by {
                let k = choose|k: int| 0 <= k < post.len() && post[k].link@ == link@;
                assert(post[i as int].link@ == link@);
                assert(k == i);
            }
            assert forall|p: Seq<char>|
                old(self).spec_contains(p) && p != link@ implies self.spec_target(p) == old(
                self,
            ).spec_target(p) by {
                let k = choose|k: int| 0 <= k < pre.len() && pre[k].link@ == p;
                let ki: int = if k < i {
                    k
                } else {
                    k + 1
                };
                assert(post[ki].link@ == p);
                let k2 = choose|k2: int| 0 <= k2 < post.len() && post[k2].link@ == p;
                assert(k2 == ki);
                assert(post[ki] == pre[k]);
            }
        }
    }

    /// True when expansion leaves every path in the mapping alone.
    pub open spec fn all_plain(&self) -> bool {
        forall|i: int|
            0 <= i < self.entries@.len() ==> plain_path(#[trigger] self.entries@[i].link@)
                && plain_path(self.entries@[i].target@)
    }

    /// Expands every link and target and rebuilds the mapping, ordered by
    /// the expanded link paths; when two links expand to the same path the
    /// later entry replaces the earlier one.
    pub fn to_path_bufs(&self) -> (r: Result<Symlinks, Error>)
        requires
            self.wf(),
        ensures
            r matches Ok(expanded) ==> expanded.wf(),
            r matches Err(e) ==> e matches Error::EnvExpansion(_),
            self.all_plain() ==> (r matches Ok(expanded) && (forall|p: Seq<char>|
                expanded.spec_contains(p) == self.spec_contains(p)) && (forall|p: Seq<char>|
                self.spec_contains(p) ==> expanded.spec_target(p) == self.spec_target(p))),
    {
        let n = self.entries.len();
        let mut out = Symlinks::new();
        let mut i: usize = 0;
        while i < n
            invariant
                i <= n,
                n == self.entries@.len(),
                self.wf(),
                out.wf(),
                self.all_plain() ==> (forall|p: Seq<char>|
                    out.spec_contains(p) <==> exists|j: int|
                        0 <= j < i && #[trigger] self.entries@[j].link@ == p) && (forall|j: int|
                    0 <= j < i ==> out.spec_target(#[trigger] self.entries@[j].link@)
                        == self.entries@[j].target@),
            decreases n - i,
        {
            let e = &self.entries[i];
            let pair = Symlink { target: e.target.clone(), link: e.link.clone() };
            match pair.to_path_buf() {
                Ok(mapped) => {
                    let ghost before = out;
                    out.insert(mapped.link, mapped.target);
                    proof {
                        if self.all_plain() {
                            self.lemma_unique_links();
                            assert(mapped.link@ == self.entries@[i as int].link@);
                            assert(mapped.target@ == self.entries@[i as int].target@);
                            assert forall|j: int| 0 <= j < i + 1 implies out.spec_target(
                                #[trigger] self.entries@[j].link@,
                            ) == self.entries@[j].target@ by {
                                if j < i {
                                    assert(self.entries@[j].link@ != self.entries@[i as int].link@);
                                    assert(before.spec_contains(self.entries@[j].link@));
                                }
                            }
                        }
                    }
                },
                Err(err) => {
                    return Err(err);
                },
            }
            i = i + 1;
        }
        proof {
            if self.all_plain() {
                self.lemma_unique_links();
                assert forall|p: Seq<char>| self.spec_contains(p) implies out.spec_target(p)
                    == self.spec_target(p) by {
                    let k = choose|k: int|
                        0 <= k < self.entries@.len() && self.entries@[k].link@ == p;
                    assert(out.spec_target(self.entries@[k].link@) == self.entries@[k].target@);
                    let k2 = choose|k2: int|
                        0 <= k2 < self.entries@.len() && self.entries@[k2].link@ == p;
                    assert(k2 == k);
                }
            }
        }
        Ok(out)
    }

    /// The entries in order, each pair cloned.
    pub fn iter(&self) -> (r: Vec<Symlink<String>>)
        ensures
            r@.len() == self.entries@.len(),
            forall|i: int|
                0 <= i < r@.len() ==> r@[i].link@ == self.entries@[i].link@ && r@[i].target@
                    == self.entries@[i].target@,
    {
        let n = self.entries.len();
        let mut out: Vec<Symlink<String>> = Vec::new();
        let mut i: usize = 0;
        while i < n
            invariant
                i <= n,
                n == self.entries@.len(),
                out@.len() == i,
                forall|j: int|
                    0 <= j < i ==> out@[j].link@ == self.entries@[j].link@ && out@[j].target@
                        == self.entries@[j].target@,
            decreases n - i,
        {
            let e = &self.entries[i];
            out.push(Symlink { target: e.target.clone(), link: e.link.clone() });
            i = i + 1;
        }
        out
    }

    /// The entries in order, by value.
    pub fn into_iter(self) -> (r: Vec<Symlink<String>>)
        ensures
            r == self.entries,
    {
        self.entries
    }

    /// The ordered entry list backing the mapping.
    pub fn into_inner(self) -> (r: Vec<Symlink<String>>)
        ensures
            r == self.entries,
    {
        self.entries
    }
}

} // verus!
