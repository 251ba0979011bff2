//! Slugs and small list helpers for post metadata.

use vstd::prelude::*;

use crate::text::{
    split_chars, split_on, string_views, trim, trim_chars, views, chars_of, is_alnum, is_alphanumeric, is_digit, is_lower, lower, string_of, to_lower,
};

verus! {

/// The slug of `s`: each maximal run of ASCII letters and digits, lowercased,
/// with consecutive runs joined by a single `-`. Everything else is dropped.
pub open spec fn slug_spec(s: Seq<char>) -> Seq<char>
    decreases s.len(),
{
    if s.len() == 0 {
        Seq::<char>::empty()
    } else {
        let prev = slug_spec(s.drop_last());
        let c = s.last();
        if !is_alnum(c) {
            prev
        } else if prev.len() > 0 && !is_alnum(s[s.len() - 2]) {
            prev.push('-').push(lower(c))
        } else {
            prev.push(lower(c))
        }
    }
}

/// A well-formed slug: lowercase letters, digits and single inner dashes.
pub open spec fn is_slug(t: Seq<char>) -> bool {
    &&& forall|k: int| 0 <= k < t.len() ==> (is_lower(#[trigger] t[k]) || is_digit(t[k]) || t[k] == '-')
    &&& t.len() > 0 ==> t[0] != '-' && t.last() != '-'
    &&& forall|k: int| 0 <= k < t.len() - 1 ==> !(#[trigger] t[k] == '-' && t[k + 1] == '-')
}

proof fn lemma_lower_alnum(c: char)
    requires
        is_alnum(c),
    ensures
        is_lower(lower(c)) || is_digit(lower(c)),
        lower(c) != '-',
{
}

/// What `slug_spec` produces is a well-formed slug.
pub proof fn lemma_slug_spec_is_slug(s: Seq<char>)
    ensures
        is_slug(slug_spec(s)),
    decreases s.len(),
{
    if s.len() > 0 {
        lemma_slug_spec_is_slug(s.drop_last());
        let prev = slug_spec(s.drop_last());
        let c = s.last();
        if is_alnum(c) {
            lemma_lower_alnum(c);
            let r = slug_spec(s);
            if prev.len() > 0 && !is_alnum(s[s.len() - 2]) {
                assert(r == prev.push('-').push(lower(c)));
                assert forall|k: int| 0 <= k < r.len() - 1 implies !(#[trigger] r[k] == '-' && r[k + 1] == '-') by {
                    if k < prev.len() - 1 {
                        assert(r[k] == prev[k] && r[k + 1] == prev[k + 1]);
                    } else if k == prev.len() - 1 {
                        assert(r[k] == prev.last());
                    }
                }
            } else {
                assert(r == prev.push(lower(c)));
                assert forall|k: int| 0 <= k < r.len() - 1 implies !(#[trigger] r[k] == '-' && r[k + 1] == '-') by {
                    if k < prev.len() - 1 {
                        assert(r[k] == prev[k] && r[k + 1] == prev[k + 1]);
                    }
                }
            }
        }
    }
}

proof fn lemma_slug_spec_dashed(t: Seq<char>)
    requires
        forall|k: int| 0 <= k < t.len() ==> (is_lower(#[trigger] t[k]) || is_digit(t[k]) || t[k] == '-'),
        t.len() > 0 ==> t[0] != '-',
        forall|k: int| 0 <= k < t.len() - 1 ==> !(#[trigger] t[k] == '-' && t[k + 1] == '-'),
    ensures
        slug_spec(t) == (if t.len() > 0 && t.last() == '-' { t.drop_last() } else { t }),
    decreases t.len(),
{
    if t.len() > 0 {
        let u = t.drop_last();
        assert forall|k: int| 0 <= k < u.len() - 1 implies !(#[trigger] u[k] == '-' && u[k + 1] == '-') by {
            assert(u[k] == t[k] && u[k + 1] == t[k + 1]);
        }
        assert forall|k: int| 0 <= k < u.len() implies (is_lower(#[trigger] u[k]) || is_digit(u[k]) || u[k] == '-') by {
            assert(u[k] == t[k]);
        }
        if u.len() > 0 {
            assert(u[0] == t[0]);
        }
        lemma_slug_spec_dashed(u);
        let c = t.last();
        if c == '-' {
            if u.len() > 0 {
                assert(!(t[u.len() - 1] == '-' && t[u.len() as int] == '-'));
                assert(u.last() == t[u.len() - 1]);
            }
        } else {
            assert(is_lower(c) || is_digit(c));
            assert(lower(c) == c);
            if u.len() > 0 && u.last() == '-' {
                assert(u.len() >= 2);
                assert(t[t.len() - 2] == u.last());
                assert(u.drop_last().push('-').push(c) =~= t);
            } else {
                if u.len() > 0 {
                    assert(t[t.len() - 2] == u.last());
                }
                assert(u.push(c) =~= t);
            }
        }
    }
}

/// A well-formed slug is left unchanged by `slug_spec`.
pub proof fn lemma_slug_fixpoint(t: Seq<char>)
    requires
        is_slug(t),
    ensures
        slug_spec(t) == t,
{
    lemma_slug_spec_dashed(t);
}

/// Converts arbitrary text into a bckt slug.
///
/// The mapping is frozen: slugs become permalinks, tag URLs and post
/// directory names.
pub fn slugify(value: &str) -> (slug: String)
    ensures
        slug@ == slug_spec(value@),
{
    let chars = chars_of(value);
    let mut slug: Vec<char> = Vec::new();
    let mut previous_dash = false;
    let n = chars.len();
    assert(chars@.take(0) =~= Seq::<char>::empty());
    for i in 0..n
        invariant
            n == chars@.len(),
            slug@ == slug_spec(chars@.take(i as int)) + (if previous_dash {
                seq!['-']
            } else {
                Seq::<char>::empty()
            }),
            previous_dash == (i > 0 && !is_alnum(chars@[i - 1]) && slug_spec(
                chars@.take(i as int),
            ).len() > 0),
    {
        let ghost t = chars@.take(i as int);
        let ghost t1 = chars@.take(i + 1);
        assert(t1.drop_last() =~= t);
        assert(t1.last() == chars@[i as int]);
        if i > 0 {
            assert(t1[t1.len() - 2] == chars@[i - 1]);
        }
        let ch = chars[i];
        if is_alphanumeric(ch) {
            slug.push(to_lower(ch));
            previous_dash = false;
            assert(slug@ =~= slug_spec(t1));
        } else if !previous_dash && slug.len() > 0 {
            slug.push('-');
            previous_dash = true;
            assert(slug@ =~= slug_spec(t1) + seq!['-']);
        } else {
            assert(slug_spec(t1) == slug_spec(t));
        }
    }
    assert(chars@.take(n as int) =~= chars@);
    if previous_dash {
        slug.pop();
        assert(slug@ =~= slug_spec(chars@));
    } else {
        assert(slug@ =~= slug_spec(chars@));
    }
    string_of(&slug)
}

/// Slugifying twice gives the same slug as slugifying once.
pub proof fn slugify_idempotent(s: Seq<char>)
    ensures
        slug_spec(slug_spec(s)) == slug_spec(s),
        is_slug(slug_spec(s)),
{
    lemma_slug_spec_is_slug(s);
    lemma_slug_fixpoint(slug_spec(s));
}


/// The trimmed pieces of `ps` that are not empty, in order.
pub open spec fn trimmed_nonempty(ps: Seq<Seq<char>>) -> Seq<Seq<char>>
    decreases ps.len(),
{
    if ps.len() == 0 {
        Seq::<Seq<char>>::empty()
    } else {
        let r = trimmed_nonempty(ps.drop_last());
        let t = trim(ps.last());
        if t.len() > 0 {
            r.push(t)
        } else {
            r
        }
    }
}

/// The tags of a comma-separated list.
pub open spec fn tags_spec(s: Seq<char>) -> Seq<Seq<char>> {
    trimmed_nonempty(split_on(s, ','))
}

/// Keeps the trimmed, non-empty pieces.
pub fn trimmed_pieces(pieces: &Vec<Vec<char>>) -> (r: Vec<String>)
    ensures
        string_views(r@) == trimmed_nonempty(views(pieces@)),
{
    let mut r: Vec<String> = Vec::new();
    let n = pieces.len();
    for i in 0..n
        invariant
            n == pieces@.len(),
            string_views(r@) == trimmed_nonempty(views(pieces@).take(i as int)),
    {
        let ghost t1 = views(pieces@).take(i + 1);
        assert(t1.drop_last() =~= views(pieces@).take(i as int));
        assert(t1.last() == pieces@[i as int]@);
        let t = trim_chars(&pieces[i]);
        if t.len() > 0 {
            r.push(string_of(&t));
            assert(string_views(r@) =~= trimmed_nonempty(t1));
        } else {
            assert(string_views(r@) =~= trimmed_nonempty(t1));
        }
    }
    assert(views(pieces@).take(n as int) =~= views(pieces@));
    r
}

/// Splits a comma-separated list into trimmed, non-empty values.
pub fn normalize_tags(input: &str) -> (tags: Vec<String>)
    ensures
        string_views(tags@) == tags_spec(input@),
{
    let chars = chars_of(input);
    let pieces = split_chars(&chars, ',');
    trimmed_pieces(&pieces)
}

/// Returns the trimmed value, or `None` when it is blank.
pub fn non_empty(value: &str) -> (r: Option<String>)
    ensures
        match r {
            Some(t) => trim(value@).len() > 0 && t@ == trim(value@),
            None => trim(value@).len() == 0,
        },
{
    let trimmed = trim_chars(&chars_of(value));
    if trimmed.len() == 0 {
        None
    } else {
        Some(string_of(&trimmed))
    }
}

} // verus!
