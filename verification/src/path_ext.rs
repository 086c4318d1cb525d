//! Structural helpers on path strings.
//!
//! A path is a string whose components are separated by `/`.  These
//! functions find where the file name begins, compute the parent directory
//! to create before a link, and find where a file extension is cut off.

use vstd::prelude::*;

verus! {

/// `i` marks where the file name of `s` begins: no separator stands at or
/// after `i`, and a separator stands right before `i` unless `i` is 0.
pub open spec fn is_name_start(s: Seq<char>, i: int) -> bool {
    &&& 0 <= i <= s.len()
    &&& forall|j: int| i <= j < s.len() ==> s[j] != '/'
    &&& i > 0 ==> s[i - 1] == '/'
}

/// At most one position can mark the file name's start.
pub proof fn lemma_name_start_unique(s: Seq<char>, i1: int, i2: int)
    requires
        is_name_start(s, i1),
        is_name_start(s, i2),
    ensures
        i1 == i2,
{
    if i1 < i2 {
        assert(s[i2 - 1] != '/');
    }
    if i2 < i1 {
        assert(s[i1 - 1] != '/');
    }
}

/// Where the file name of `s` begins.
pub open spec fn spec_name_start(s: Seq<char>) -> int {
    choose|i: int| is_name_start(s, i)
}

/// Finds where the file name begins.
pub fn name_start(s: &str) -> (i: usize)
    ensures
        is_name_start(s@, i as int),
        i == spec_name_start(s@),
{
    let n = s.unicode_len();
    let mut i: usize = n;
    while i > 0
        invariant
            i <= n,
            n == s@.len(),
            forall|j: int| i <= j < n ==> s@[j] != '/',
        decreases i,
    {
        let c = s.get_char(i - 1);
        if c == '/' {
            proof {
                lemma_name_start_unique(s@, i as int, spec_name_start(s@));
            }
            return i;
        }
        i = i - 1;
    }
    proof {
        lemma_name_start_unique(s@, 0, spec_name_start(s@));
    }
    0
}

/// The directory part of a path: the prefix before the file name, a lone
/// separator when the file name sits at the root, nothing when the path
/// holds no separator at all.
pub open spec fn spec_parent(s: Seq<char>) -> Option<Seq<char>> {
    let ns = spec_name_start(s);
    if ns == 0 {
        None
    } else if ns == 1 {
        Some(s.take(1))
    } else {
        Some(s.take(ns - 1))
    }
}

/// Computes the directory whose existence a link needs.
pub fn parent_of(s: &str) -> (r: Option<String>)
    ensures
        match r {
            Some(p) => spec_parent(s@) == Some(p@),
            None => spec_parent(s@) is None,
        },
{
    let ns = name_start(s);
    if ns == 0 {
        None
    } else {
        let keep = if ns == 1 {
            1
        } else {
            ns - 1
        };
        let prefix = s.substring_char(0, keep);
        Some(prefix.to_owned())
    }
}

/// `c` marks where the extension of the file name beginning at `ns` is cut
/// off: either `c` is a `.` standing after the file name's first character
/// with no later `.`, or `c` is the end and no such `.` exists.
pub open spec fn is_cut_point(s: Seq<char>, ns: int, c: int) -> bool {
    ||| (ns < c < s.len() && s[c] == '.' && (forall|j: int| c < j < s.len() ==> s[j] != '.'))
    ||| (c == s.len() && (forall|j: int| ns < j < s.len() ==> s[j] != '.'))
}

/// At most one position can mark the cut.
pub proof fn lemma_cut_point_unique(s: Seq<char>, ns: int, c1: int, c2: int)
    requires
        is_cut_point(s, ns, c1),
        is_cut_point(s, ns, c2),
    ensures
        c1 == c2,
{
    if c1 < c2 {
        if c2 < s.len() {
            assert(s[c2] != '.');
        } else {
            assert(s[c1] != '.');
        }
    }
    if c2 < c1 {
        if c1 < s.len() {
            assert(s[c1] != '.');
        } else {
            assert(s[c2] != '.');
        }
    }
}

/// Where the extension of the file name beginning at `ns` is cut off.
pub open spec fn spec_cut_point(s: Seq<char>, ns: int) -> int {
    choose|c: int| is_cut_point(s, ns, c)
}

/// Finds where the file extension is cut off, given the file name's start.
pub fn cut_point(s: &str, ns: usize) -> (c: usize)
    requires
        ns <= s@.len(),
    ensures
        is_cut_point(s@, ns as int, c as int),
        c == spec_cut_point(s@, ns as int),
        c <= s@.len(),
{
    let n = s.unicode_len();
    let mut j: usize = n;
    while j >= 1 && j - 1 > ns
        invariant
            j <= n,
            n == s@.len(),
            forall|k: int| j <= k < n ==> s@[k] != '.',
        decreases j,
    {
        let c = s.get_char(j - 1);
        if c == '.' {
            proof {
                lemma_cut_point_unique(s@, ns as int, j - 1, spec_cut_point(s@, ns as int));
            }
            return j - 1;
        }
        j = j - 1;
    }
    proof {
        lemma_cut_point_unique(s@, ns as int, n as int, spec_cut_point(s@, ns as int));
    }
    n
}

} // verus!
