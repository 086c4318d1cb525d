//! Lexicographic ordering on path strings.
//!
//! Paths are compared character by character, by code point, the way
//! `BTreeMap<String, _>` orders its keys.  The sorted containers in this
//! crate rest on the order lemmas proved here.

use vstd::prelude::*;

verus! {

/// `a` comes strictly before `b` in lexicographic order by character.
pub open spec fn seq_lt(a: Seq<char>, b: Seq<char>) -> bool
    decreases a.len(),
{
    if b.len() == 0 {
        false
    } else if a.len() == 0 {
        true
    } else if a[0] != b[0] {
        a[0] < b[0]
    } else {
        seq_lt(a.skip(1), b.skip(1))
    }
}

pub proof fn lemma_lt_irreflexive(a: Seq<char>)
    ensures
        !seq_lt(a, a),
    decreases a.len(),
{
    if a.len() > 0 {
        lemma_lt_irreflexive(a.skip(1));
    }
}

pub proof fn lemma_lt_asymmetric(a: Seq<char>, b: Seq<char>)
    ensures
        !(seq_lt(a, b) && seq_lt(b, a)),
    decreases a.len(),
{
    if a.len() > 0 && b.len() > 0 && a[0] == b[0] {
        lemma_lt_asymmetric(a.skip(1), b.skip(1));
    }
}

pub proof fn lemma_lt_connected(a: Seq<char>, b: Seq<char>)
    ensures
        a != b ==> seq_lt(a, b) || seq_lt(b, a),
    decreases a.len(),
{
    if a.len() == 0 && b.len() == 0 {
        assert(a =~= b);
    } else if a.len() > 0 && b.len() > 0 && a[0] == b[0] {
        lemma_lt_connected(a.skip(1), b.skip(1));
        if a.skip(1) == b.skip(1) {
            assert(a.skip(1).len() == a.len() - 1);
            assert(b.skip(1).len() == b.len() - 1);
            assert(a.len() == b.len());
            assert forall|i: int| 0 <= i < a.len() implies a[i] == b[i] by {
                if i > 0 {
                    assert(a[i] == a.skip(1)[i - 1]);
                    assert(b[i] == b.skip(1)[i - 1]);
                }
            }
            assert(a =~= b);
        }
    }
}

pub proof fn lemma_lt_transitive(a: Seq<char>, b: Seq<char>, c: Seq<char>)
    ensures
        seq_lt(a, b) && seq_lt(b, c) ==> seq_lt(a, c),
    decreases a.len(),
{
    if seq_lt(a, b) && seq_lt(b, c) && a.len() > 0 && b.len() > 0 && c.len() > 0 && a[0] == b[0]
        && b[0] == c[0] {
        lemma_lt_transitive(a.skip(1), b.skip(1), c.skip(1));
    }
}

/// A strictly smaller character at the first position where the sequences
/// differ decides the order.
pub proof fn lemma_lt_from_index(a: Seq<char>, b: Seq<char>, i: int)
    requires
        0 <= i < a.len(),
        i < b.len(),
        forall|j: int| 0 <= j < i ==> a[j] == b[j],
        a[i] < b[i],
    ensures
        seq_lt(a, b),
    decreases i,
{
    if i > 0 {
        assert forall|j: int| 0 <= j < i - 1 implies a.skip(1)[j] == b.skip(1)[j] by {
            assert(a[j + 1] == b[j + 1]);
        }
        assert(a.skip(1)[i - 1] == a[i]);
        assert(b.skip(1)[i - 1] == b[i]);
        lemma_lt_from_index(a.skip(1), b.skip(1), i - 1);
    }
}

/// A strict prefix comes before any longer sequence it is a prefix of.
pub proof fn lemma_lt_from_prefix(a: Seq<char>, b: Seq<char>)
    requires
        a.len() < b.len(),
        forall|j: int| 0 <= j < a.len() ==> a[j] == b[j],
    ensures
        seq_lt(a, b),
    decreases a.len(),
{
    if a.len() > 0 {
        assert forall|j: int| 0 <= j < a.skip(1).len() implies a.skip(1)[j] == b.skip(1)[j] by {
            assert(a[j + 1] == b[j + 1]);
        }
        lemma_lt_from_prefix(a.skip(1), b.skip(1));
    }
}

/// Sequences standing in strictly increasing lexicographic order.
pub open spec fn sorted_strict(s: Seq<Seq<char>>) -> bool {
    forall|i: int, j: int| 0 <= i < j < s.len() ==> seq_lt(s[i], s[j])
}

/// Two strictly sorted sequences with the same members are the same
/// sequence: keeping a reported set sorted makes its order canonical.
pub proof fn lemma_sorted_canonical(a: Seq<Seq<char>>, b: Seq<Seq<char>>)
    requires
        sorted_strict(a),
        sorted_strict(b),
        forall|p: Seq<char>| a.contains(p) == b.contains(p),
    ensures
        a == b,
    decreases a.len(),
{
    if a.len() == 0 {
        if b.len() > 0 {
            assert(b.contains(b[0]));
            assert(a.contains(b[0]));
            assert(false);
        }
        assert(a =~= b);
    } else {
        assert(a.contains(a[0]));
        assert(b.contains(a[0]));
        let kb = choose|k: int| 0 <= k < b.len() && b[k] == a[0];
        assert(b.contains(b[0]));
        assert(a.contains(b[0]));
        let ka = choose|k: int| 0 <= k < a.len() && a[k] == b[0];
        if ka > 0 && kb > 0 {
            assert(seq_lt(a[0], a[ka]));
            assert(seq_lt(b[0], b[kb]));
            lemma_lt_asymmetric(a[0], b[0]);
            assert(false);
        }
        assert(a[0] == b[0]);
        let at = a.skip(1);
        let bt = b.skip(1);
        assert(sorted_strict(at)) by {
            assert forall|i: int, j: int| 0 <= i < j < at.len() implies seq_lt(at[i], at[j]) by {
                assert(at[i] == a[i + 1]);
                assert(at[j] == a[j + 1]);
            }
        }
        assert(sorted_strict(bt)) by {
            assert forall|i: int, j: int| 0 <= i < j < bt.len() implies seq_lt(bt[i], bt[j]) by {
                assert(bt[i] == b[i + 1]);
                assert(bt[j] == b[j + 1]);
            }
        }
        assert forall|p: Seq<char>| at.contains(p) == (a.contains(p) && p != a[0]) by {
            if at.contains(p) {
                let j = choose|j: int| 0 <= j < at.len() && at[j] == p;
                assert(a[j + 1] == p);
                assert(a.contains(p));
                if p == a[0] {
                    assert(seq_lt(a[0], a[j + 1]));
                    lemma_lt_irreflexive(p);
                }
            }
            if a.contains(p) && p != a[0] {
                let k = choose|k: int| 0 <= k < a.len() && a[k] == p;
                assert(k > 0);
                assert(at[k - 1] == p);
                assert(at.contains(p));
            }
        }
        assert forall|p: Seq<char>| bt.contains(p) == (b.contains(p) && p != b[0]) by {
            if bt.contains(p) {
                let j = choose|j: int| 0 <= j < bt.len() && bt[j] == p;
                assert(b[j + 1] == p);
                assert(b.contains(p));
                if p == b[0] {
                    assert(seq_lt(b[0], b[j + 1]));
                    lemma_lt_irreflexive(p);
                }
            }
            if b.contains(p) && p != b[0] {
                let k = choose|k: int| 0 <= k < b.len() && b[k] == p;
                assert(k > 0);
                assert(bt[k - 1] == p);
                assert(bt.contains(p));
            }
        }
        lemma_sorted_canonical(at, bt);
        assert(a.len() == b.len());
        assert forall|i: int| 0 <= i < a.len() implies a[i] == b[i] by {
            if i > 0 {
                assert(a[i] == at[i - 1]);
                assert(b[i] == bt[i - 1]);
            }
        }
        assert(a =~= b);
    }
}

/// Outcome of comparing two path strings.
#[derive(Clone, Copy, Debug, PartialEq, Eq, Structural)]
pub enum PathOrder {
    Before,
    Same,
    After,
}

/// Compares two strings in the lexicographic order `seq_lt`.
pub fn str_compare(a: &str, b: &str) -> (c: PathOrder)
    ensures
        (c == PathOrder::Before) == seq_lt(a@, b@),
        (c == PathOrder::Same) == (a@ == b@),
        (c == PathOrder::After) == seq_lt(b@, a@),
{
    proof {
        lemma_lt_irreflexive(a@);
        lemma_lt_asymmetric(a@, b@);
        lemma_lt_connected(a@, b@);
    }
    let a_len = a.unicode_len();
    let b_len = b.unicode_len();
    let n = if a_len < b_len {
        a_len
    } else {
        b_len
    };
    let mut i: usize = 0;
    while i < n
        invariant
            i <= n,
            n <= a_len,
            n <= b_len,
            n == if a_len < b_len { a_len } else { b_len },
            a_len == a@.len(),
            b_len == b@.len(),
            forall|j: int| 0 <= j < i ==> a@[j] == b@[j],
        decreases n - i,
    {
        let ca = a.get_char(i);
        let cb = b.get_char(i);
        if ca < cb {
            proof {
                lemma_lt_from_index(a@, b@, i as int);
                lemma_lt_asymmetric(a@, b@);
                lemma_lt_irreflexive(a@);
            }
            return PathOrder::Before;
        }
        if cb < ca {
            proof {
                lemma_lt_from_index(b@, a@, i as int);
                lemma_lt_asymmetric(a@, b@);
                lemma_lt_irreflexive(b@);
            }
            return PathOrder::After;
        }
        i = i + 1;
    }
    if a_len < b_len {
        proof {
            lemma_lt_from_prefix(a@, b@);
            lemma_lt_asymmetric(a@, b@);
            lemma_lt_irreflexive(a@);
        }
        PathOrder::Before
    } else if b_len < a_len {
        proof {
            lemma_lt_from_prefix(b@, a@);
            lemma_lt_asymmetric(a@, b@);
            lemma_lt_irreflexive(b@);
        }
        PathOrder::After
    } else {
        proof {
            assert(a@ =~= b@);
            lemma_lt_irreflexive(a@);
        }
        PathOrder::Same
    }
}

/// `str_compare` on two owned path strings.
pub fn string_compare(a: &String, b: &String) -> (c: PathOrder)
    ensures
        (c == PathOrder::Before) == seq_lt(a@, b@),
        (c == PathOrder::Same) == (a@ == b@),
        (c == PathOrder::After) == seq_lt(b@, a@),
{
    str_compare(a.as_str(), b.as_str())
}

}
