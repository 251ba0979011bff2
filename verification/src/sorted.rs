//! Ordered sets of strings and years, kept as strictly ascending vectors.
//!
//! Strings are ordered character by character (by code point), which is
//! the order `str`'s `Ord` gives, since UTF-8 preserves code point order.

use vstd::prelude::*;

use crate::text::{copy_chars, string_of, string_views, views};

verus! {

/// Lexicographic order on character sequences.
pub open spec fn lex_lt(a: Seq<char>, b: Seq<char>) -> bool
    decreases a.len(),
{
    if a.len() == 0 {
        b.len() > 0
    } else if b.len() == 0 {
        false
    } else if a[0] != b[0] {
        a[0] < b[0]
    } else {
        lex_lt(a.drop_first(), b.drop_first())
    }
}

pub proof fn lemma_lex_irreflexive(a: Seq<char>)
    ensures
        !lex_lt(a, a),
    decreases a.len(),
{
    if a.len() > 0 {
        lemma_lex_irreflexive(a.drop_first());
    }
}

pub proof fn lemma_lex_transitive(a: Seq<char>, b: Seq<char>, c: Seq<char>)
    requires
        lex_lt(a, b),
        lex_lt(b, c),
    ensures
        lex_lt(a, c),
    decreases a.len(),
{
    if a.len() > 0 && b.len() > 0 && c.len() > 0 && a[0] == b[0] && b[0] == c[0] {
        lemma_lex_transitive(a.drop_first(), b.drop_first(), c.drop_first());
    }
}

pub proof fn lemma_lex_total(a: Seq<char>, b: Seq<char>)
    ensures
        a == b || lex_lt(a, b) || lex_lt(b, a),
    decreases a.len(),
{
    if a.len() > 0 && b.len() > 0 && a[0] == b[0] {
        lemma_lex_total(a.drop_first(), b.drop_first());
        if a.drop_first() == b.drop_first() {
            assert(a =~= seq![a[0]] + a.drop_first());
            assert(b =~= seq![b[0]] + b.drop_first());
        }
    } else if a.len() == 0 && b.len() == 0 {
        assert(a =~= b);
    }
}

pub proof fn lemma_lex_asymmetric(a: Seq<char>, b: Seq<char>)
    requires
        lex_lt(a, b),
    ensures
        !lex_lt(b, a),
{
    if lex_lt(b, a) {
        lemma_lex_transitive(a, b, a);
        lemma_lex_irreflexive(a);
    }
}

proof fn lemma_lex_skip(a: Seq<char>, b: Seq<char>, i: int)
    requires
        0 <= i <= a.len(),
        i <= b.len(),
        a.take(i) == b.take(i),
    ensures
        lex_lt(a, b) == lex_lt(a.skip(i), b.skip(i)),
    decreases i,
{
    if i > 0 {
        assert(a[0] == a.take(i)[0]);
        assert(b[0] == b.take(i)[0]);
        assert(a.drop_first().take(i - 1) =~= a.take(i).drop_first());
        assert(b.drop_first().take(i - 1) =~= b.take(i).drop_first());
        lemma_lex_skip(a.drop_first(), b.drop_first(), i - 1);
        assert(a.drop_first().skip(i - 1) =~= a.skip(i));
        assert(b.drop_first().skip(i - 1) =~= b.skip(i));
    } else {
        assert(a.skip(0) =~= a);
        assert(b.skip(0) =~= b);
    }
}

/// `a < b` on character sequences.
pub fn lex_less(a: &Vec<char>, b: &Vec<char>) -> (r: bool)
    ensures
        r == lex_lt(a@, b@),
{
    let n = if a.len() < b.len() { a.len() } else { b.len() };
    let mut i: usize = 0;
    while i < n
        invariant
            i <= n,
            n <= a@.len(),
            n <= b@.len(),
            n == a@.len() || n == b@.len(),
            a@.take(i as int) == b@.take(i as int),
        decreases n - i,
    {
        if a[i] != b[i] {
            proof {
                lemma_lex_skip(a@, b@, i as int);
                assert(a@.skip(i as int)[0] == a@[i as int]);
                assert(b@.skip(i as int)[0] == b@[i as int]);
            }
            return a[i] < b[i];
        }
        assert(a@.take(i + 1) =~= a@.take(i as int).push(a@[i as int]));
        assert(b@.take(i + 1) =~= b@.take(i as int).push(b@[i as int]));
        i = i + 1;
    }
    proof {
        lemma_lex_skip(a@, b@, n as int);
    }
    a.len() < b.len()
}

/// Strictly ascending, hence free of repeats.
pub open spec fn strictly_sorted(s: Seq<Seq<char>>) -> bool {
    forall|i: int, j: int| 0 <= i < j < s.len() ==> lex_lt(#[trigger] s[i], #[trigger] s[j])
}

/// Two strictly ascending sequences with the same elements are equal.
pub proof fn lemma_sorted_unique(a: Seq<Seq<char>>, b: Seq<Seq<char>>)
    requires
        strictly_sorted(a),
        strictly_sorted(b),
        forall|y: Seq<char>| a.contains(y) <==> b.contains(y),
    ensures
        a == b,
    decreases a.len(),
{
    if a.len() == 0 {
        if b.len() > 0 {
            assert(b.contains(b[0]));
        }
        assert(a =~= b);
    } else {
        assert(a.contains(a[0]));
        assert(b.contains(a[0]));
        let k = choose|k: int| 0 <= k < b.len() && b[k] == a[0];
        assert(b.contains(b[0]));
        let j = choose|j: int| 0 <= j < a.len() && a[j] == b[0];
        if j > 0 && k > 0 {
            assert(lex_lt(a[0], a[j]));
            assert(lex_lt(b[0], b[k]));
            lemma_lex_asymmetric(a[0], b[0]);
        } else if j > 0 {
            assert(lex_lt(a[0], a[j]));
        } else if k > 0 {
            assert(lex_lt(b[0], b[k]));
        }
        assert(a[0] == b[0]);
        let a1 = a.drop_first();
        let b1 = b.drop_first();
        assert forall|y: Seq<char>| a1.contains(y) <==> b1.contains(y) by {
            if a1.contains(y) {
                let i = choose|i: int| 0 <= i < a1.len() && a1[i] == y;
                assert(a[i + 1] == y);
                assert(lex_lt(a[0], a[i + 1]));
                lemma_lex_irreflexive(y);
                assert(b.contains(y));
                let q = choose|q: int| 0 <= q < b.len() && b[q] == y;
                assert(q != 0);
                assert(b1[q - 1] == y);
            }
            if b1.contains(y) {
                let i = choose|i: int| 0 <= i < b1.len() && b1[i] == y;
                assert(b[i + 1] == y);
                assert(lex_lt(b[0], b[i + 1]));
                lemma_lex_irreflexive(y);
                assert(a.contains(y));
                let q = choose|q: int| 0 <= q < a.len() && a[q] == y;
                assert(q != 0);
                assert(a1[q - 1] == y);
            }
        }
        lemma_sorted_unique(a1, b1);
        assert(a =~= seq![a[0]] + a1);
        assert(b =~= seq![b[0]] + b1);
    }
}

/// Adds `x` to a strictly ascending vector, keeping it so; nothing happens
/// when `x` is already there.
pub fn insert_sorted(v: &mut Vec<Vec<char>>, x: &Vec<char>)
    requires
        strictly_sorted(views(old(v)@)),
    ensures
        strictly_sorted(views(final(v)@)),
        forall|y: Seq<char>| views(final(v)@).contains(y) <==> (views(old(v)@).contains(y) || y == x@),
{
    let ghost s0 = views(v@);
    let n = v.len();
    let mut k: usize = 0;
    while k < n && lex_less(&v[k], x)
        invariant
            k <= n == v@.len(),
            s0 == views(v@),
            strictly_sorted(s0),
            forall|j: int| 0 <= j < k ==> lex_lt(#[trigger] s0[j], x@),
        decreases n - k,
    {
        k = k + 1;
    }
    if k < n && crate::text::chars_eq(&v[k], x) {
        assert(s0[k as int] == x@);
        return;
    }
    proof {
        if k < n {
            lemma_lex_total(s0[k as int], x@);
            assert(lex_lt(x@, s0[k as int]));
            assert forall|j: int| k <= j < n implies lex_lt(x@, #[trigger] s0[j]) by {
                if j > k {
                    lemma_lex_transitive(x@, s0[k as int], s0[j]);
                }
            }
        }
    }
    v.insert(k, copy_chars(x));
    let ghost s1 = views(v@);
    assert(s1 =~= s0.insert(k as int, x@));
    assert forall|i: int, j: int| 0 <= i < j < s1.len() implies lex_lt(#[trigger] s1[i], #[trigger] s1[j]) by {
        if j < k {
            assert(s1[i] == s0[i]);
            assert(s1[j] == s0[j]);
        } else if j == k {
            assert(s1[i] == s0[i]);
        } else if i < k {
            assert(s1[i] == s0[i]);
            assert(s1[j] == s0[j - 1]);
        } else if i == k {
            assert(s1[j] == s0[j - 1]);
        } else {
            assert(s1[i] == s0[i - 1]);
            assert(s1[j] == s0[j - 1]);
        }
    }
    assert forall|y: Seq<char>| s1.contains(y) <==> (s0.contains(y) || y == x@) by {
        if s1.contains(y) {
            let i = choose|i: int| 0 <= i < s1.len() && s1[i] == y;
            if i < k {
                assert(s0[i] == y);
            } else if i > k {
                assert(s0[i - 1] == y);
            }
        }
        if s0.contains(y) {
            let i = choose|i: int| 0 <= i < s0.len() && s0[i] == y;
            if i < k {
                assert(s1[i] == y);
            } else {
                assert(s1[i + 1] == y);
            }
        }
        if y == x@ {
            assert(s1[k as int] == y);
        }
    }
}

/// The strings of a strictly ascending set, in order.
pub fn to_strings(v: &Vec<Vec<char>>) -> (r: Vec<String>)
    ensures
        string_views(r@) == views(v@),
{
    let mut r: Vec<String> = Vec::new();
    let n = v.len();
    for i in 0..n
        invariant
            n == v@.len(),
            string_views(r@) == views(v@).take(i as int),
    {
        let ghost before = r@;
        r.push(string_of(&v[i]));
        assert(string_views(r@) =~= string_views(before).push(v@[i as int]@));
        assert(views(v@).take(i + 1) =~= views(v@).take(i as int).push(v@[i as int]@));
    }
    assert(views(v@).take(n as int) =~= views(v@));
    r
}

/// Strictly ascending integers.
pub open spec fn strictly_ascending(s: Seq<i64>) -> bool {
    forall|i: int, j: int| 0 <= i < j < s.len() ==> #[trigger] s[i] < #[trigger] s[j]
}

/// Adds `x` to a strictly ascending vector of integers, keeping it so.
pub fn insert_key(v: &mut Vec<i64>, x: i64)
    requires
        strictly_ascending(old(v)@),
    ensures
        strictly_ascending(final(v)@),
        forall|y: i64| final(v)@.contains(y) <==> (old(v)@.contains(y) || y == x),
{
    let ghost s0 = v@;
    let n = v.len();
    let mut k: usize = 0;
    while k < n && v[k] < x
        invariant
            k <= n == v@.len(),
            s0 == v@,
            strictly_ascending(s0),
            forall|j: int| 0 <= j < k ==> #[trigger] s0[j] < x,
        decreases n - k,
    {
        k = k + 1;
    }
    if k < n && v[k] == x {
        return;
    }
    v.insert(k, x);
    let ghost s1 = v@;
    assert(s1 =~= s0.insert(k as int, x));
    assert forall|i: int, j: int| 0 <= i < j < s1.len() implies #[trigger] s1[i] < #[trigger] s1[j] by {
        if i < k && j > k {
            assert(s1[j] == s0[j - 1]);
        } else if i == k && j > k {
            assert(s1[j] == s0[j - 1]);
            assert(s0[k as int] > x);
        } else if i > k {
            assert(s1[i] == s0[i - 1]);
            assert(s1[j] == s0[j - 1]);
        }
    }
    assert forall|y: i64| s1.contains(y) <==> (s0.contains(y) || y == x) by {
        if s1.contains(y) {
            let i = choose|i: int| 0 <= i < s1.len() && s1[i] == y;
            if i < k {
                assert(s0[i] == y);
            } else if i > k {
                assert(s0[i - 1] == y);
            }
        }
        if s0.contains(y) {
            let i = choose|i: int| 0 <= i < s0.len() && s0[i] == y;
            if i < k {
                assert(s1[i] == y);
            } else {
                assert(s1[i + 1] == y);
            }
        }
        if y == x {
            assert(s1[k as int] == y);
        }
    }
}

} // verus!
