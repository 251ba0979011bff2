//! URL and path shaping shared by the render pipeline.

use vstd::prelude::*;

use crate::text::{
    chars_of, copy_chars, extend_chars, single, join, split_chars, split_on, string_of, strip_leading,
    strip_leading_chars, strip_trailing, strip_trailing_chars, views,
};

verus! {

/// `base` and `path` joined by exactly one `/`.
pub open spec fn absolute_url_spec(base: Seq<char>, path: Seq<char>) -> Seq<char> {
    let b = strip_trailing(base, '/');
    let p = strip_leading(path, '/');
    if p.len() == 0 {
        b.push('/')
    } else {
        b + seq!['/'] + p
    }
}

/// Joins a site base URL and a site path with exactly one `/` between them.
pub fn absolute_url(base: &str, path: &str) -> (r: String)
    ensures
        r@ == absolute_url_spec(base@, path@),
{
    let mut out = strip_trailing_chars(&chars_of(base), '/');
    let p = strip_leading_chars(&chars_of(path), '/');
    out.push('/');
    extend_chars(&mut out, &p);
    assert(out@ =~= absolute_url_spec(base@, path@));
    string_of(&out)
}

/// The pieces that `Path::components` keeps after the first: empty pieces and
/// `.` are dropped.
pub open spec fn kept_components(ps: Seq<Seq<char>>) -> Seq<Seq<char>>
    decreases ps.len(),
{
    if ps.len() == 0 {
        Seq::<Seq<char>>::empty()
    } else {
        let r = kept_components(ps.drop_last());
        let p = ps.last();
        if p.len() == 0 || p == seq!['.'] {
            r
        } else {
            r.push(p)
        }
    }
}

/// The components kept are pieces of the input, none empty and none `.`.
pub proof fn lemma_kept_components(ps: Seq<Seq<char>>)
    ensures
        forall|i: int|
            0 <= i < kept_components(ps).len() ==> {
                let c = #[trigger] kept_components(ps)[i];
                c.len() > 0 && c != seq!['.'] && ps.contains(c)
            },
    decreases ps.len(),
{
    if ps.len() > 0 {
        lemma_kept_components(ps.drop_last());
        let r = kept_components(ps.drop_last());
        assert forall|i: int| 0 <= i < kept_components(ps).len() implies {
            let c = #[trigger] kept_components(ps)[i];
            c.len() > 0 && c != seq!['.'] && ps.contains(c)
        } by {
            let c = kept_components(ps)[i];
            if i < r.len() {
                assert(c == r[i]);
                let k = choose|k: int| 0 <= k < ps.drop_last().len() && ps.drop_last()[k] == c;
                assert(ps[k] == c);
            } else {
                assert(c == ps.last());
                assert(ps[ps.len() - 1] == c);
            }
        }
    }
}

/// Pieces that are neither empty nor `.` are all kept.
pub proof fn lemma_kept_all(ps: Seq<Seq<char>>)
    requires
        forall|i: int| 0 <= i < ps.len() ==> (#[trigger] ps[i]).len() > 0 && ps[i] != seq!['.'],
    ensures
        kept_components(ps) == ps,
    decreases ps.len(),
{
    if ps.len() > 0 {
        let init = ps.drop_last();
        assert forall|i: int| 0 <= i < init.len() implies (#[trigger] init[i]).len() > 0 && init[i] != seq!['.'] by {
            assert(init[i] == ps[i]);
        }
        lemma_kept_all(init);
        assert(ps[ps.len() - 1] == ps.last());
        assert(init.push(ps.last()) =~= ps);
    }
}

/// A path's components, less a leading `.`, joined again with `/`, when
/// none is `..` and the path is not absolute: the result is not absolute and
/// its own components are those, so none of them is `..`.
pub proof fn lemma_relative_rejoined(d: Seq<char>)
    ensures
        ({
            let cs = path_components(d);
            let rest = if cs.len() > 0 && cs[0] == seq!['.'] { cs.drop_first() } else { cs };
            let t = join(rest, seq!['/']);
            !(cs.len() > 0 && cs[0] == seq!['/']) && !rest.contains(seq!['.', '.']) ==> {
                &&& !(t.len() > 0 && t[0] == '/')
                &&& path_components(t) == rest
                &&& !path_components(t).contains(seq!['.', '.'])
            }
        }),
{
    let cs = path_components(d);
    let pieces = split_on(d, '/');
    crate::text::lemma_split_pieces(d, '/');
    crate::text::lemma_split_on_nonempty(d, '/');
    let from = if d.len() > 0 && d[0] == '/' {
        pieces.drop_first()
    } else if pieces[0] == seq!['.'] {
        pieces.drop_first()
    } else {
        pieces
    };
    lemma_kept_components(from);
    let kept = kept_components(from);
    let rest = if cs.len() > 0 && cs[0] == seq!['.'] { cs.drop_first() } else { cs };
    let t = join(rest, seq!['/']);
    if !(cs.len() > 0 && cs[0] == seq!['/']) && !rest.contains(seq!['.', '.']) {
        assert(rest =~= kept) by {
            if !(d.len() > 0 && d[0] == '/') && !(pieces[0] == seq!['.']) && cs.len() > 0 {
                assert(kept[0] != seq!['.']);
            }
        }
        assert forall|i: int| 0 <= i < rest.len() implies !(#[trigger] rest[i]).contains('/') && rest[i].len() > 0
            && rest[i] != seq!['.'] by {
            let c = kept[i];
            let k = choose|k: int| 0 <= k < from.len() && from[k] == c;
            if from =~= pieces.drop_first() {
                assert(from[k] == pieces[k + 1]);
            }
        }
        if rest.len() == 0 {
            assert(t =~= Seq::<char>::empty());
            assert(split_on(t, '/') =~= seq![Seq::<char>::empty()]);
            assert(seq![Seq::<char>::empty()].drop_last() =~= Seq::<Seq<char>>::empty());
            assert(kept_components(Seq::<Seq<char>>::empty()) =~= Seq::<Seq<char>>::empty());
            assert(seq![Seq::<char>::empty()].last().len() == 0);
            assert(path_components(t) =~= rest);
        } else {
            crate::text::lemma_split_join(rest, '/');
            crate::text::lemma_join_starts_with_first(rest, seq!['/']);
            assert(t[0] == rest[0][0]);
            assert(rest[0][0] != '/') by {
                assert(!rest[0].contains('/'));
            }
            lemma_kept_all(rest);
            assert(path_components(t) == rest);
        }
    }
}

/// The components of a `/`-separated path: a leading `/` or `.` is kept as a
/// component of its own, empty pieces and other `.` pieces are dropped.
pub open spec fn path_components(s: Seq<char>) -> Seq<Seq<char>> {
    let pieces = split_on(s, '/');
    if s.len() > 0 && s[0] == '/' {
        seq![seq!['/']] + kept_components(pieces.drop_first())
    } else if pieces[0] == seq!['.'] {
        seq![seq!['.']] + kept_components(pieces.drop_first())
    } else {
        kept_components(pieces)
    }
}

/// A path's components joined with `/`.
pub open spec fn normalize_path_spec(s: Seq<char>) -> Seq<char> {
    join(path_components(s), seq!['/'])
}

fn kept_components_exec(ps: &Vec<Vec<char>>, from: usize) -> (r: Vec<Vec<char>>)
    requires
        from <= ps@.len(),
    ensures
        views(r@) == kept_components(views(ps@).subrange(from as int, ps@.len() as int)),
{
    let mut r: Vec<Vec<char>> = Vec::new();
    let n = ps.len();
    let mut i = from;
    assert(views(ps@).subrange(from as int, from as int) =~= Seq::<Seq<char>>::empty());
    while i < n
        invariant
            from <= i <= n == ps@.len(),
            views(r@) == kept_components(views(ps@).subrange(from as int, i as int)),
        decreases n - i,
    {
        let ghost t1 = views(ps@).subrange(from as int, i + 1);
        assert(t1.drop_last() =~= views(ps@).subrange(from as int, i as int));
        assert(t1.last() == ps@[i as int]@);
        let p = &ps[i];
        let is_dot = p.len() == 1 && p[0] == '.';
        if is_dot {
            assert(p@ =~= seq!['.']);
        } else if p.len() == 0 {
        } else {
            assert(p@ != seq!['.']) by {
                if p@ == seq!['.'] {
                    assert(p@[0] == '.');
                }
            }
            r.push(copy_chars(p));
        }
        assert(views(r@) =~= kept_components(t1));
        i = i + 1;
    }
    r
}

fn join_slash(items: &Vec<Vec<char>>) -> (r: Vec<char>)
    ensures
        r@ == join(views(items@), seq!['/']),
{
    let mut r: Vec<char> = Vec::new();
    let n = items.len();
    for i in 0..n
        invariant
            n == items@.len(),
            r@ == join(views(items@).take(i as int), seq!['/']),
    {
        let ghost t1 = views(items@).take(i + 1);
        assert(t1.drop_last() =~= views(items@).take(i as int));
        assert(t1.last() == items@[i as int]@);
        if i > 0 {
            r.push('/');
        }
        extend_chars(&mut r, &items[i]);
        assert(r@ =~= join(t1, seq!['/']));
    }
    assert(views(items@).take(n as int) =~= views(items@));
    r
}

/// The components of a `/`-separated path.
pub fn components(path: &Vec<char>) -> (r: Vec<Vec<char>>)
    ensures
        views(r@) == path_components(path@),
{
    let pieces = split_chars(path, '/');
    proof {
        crate::text::lemma_split_on_nonempty(path@, '/');
    }
    assert(views(pieces@).drop_first() =~= views(pieces@).subrange(1, pieces@.len() as int));
    assert(views(pieces@) =~= views(pieces@).subrange(0, pieces@.len() as int));
    if path.len() > 0 && path[0] == '/' {
        let rest = kept_components_exec(&pieces, 1);
        let mut r: Vec<Vec<char>> = Vec::new();
        r.push(single('/'));
        let mut k: usize = 0;
        while k < rest.len()
            invariant
                k <= rest@.len(),
                views(r@) == seq![seq!['/']] + views(rest@).take(k as int),
            decreases rest@.len() - k,
        {
            let ghost before = r@;
            r.push(copy_chars(&rest[k]));
            assert(views(r@) =~= views(before).push(rest@[k as int]@));
            assert(views(rest@).take(k + 1) =~= views(rest@).take(k as int).push(rest@[k as int]@));
            assert(views(r@) =~= seq![seq!['/']] + views(rest@).take(k + 1));
            k = k + 1;
        }
        assert(views(rest@).take(rest@.len() as int) =~= views(rest@));
        r
    } else if pieces[0].len() == 1 && pieces[0][0] == '.' {
        assert(pieces@[0]@ =~= seq!['.']);
        let rest = kept_components_exec(&pieces, 1);
        let mut r: Vec<Vec<char>> = Vec::new();
        r.push(single('.'));
        let mut k: usize = 0;
        while k < rest.len()
            invariant
                k <= rest@.len(),
                views(r@) == seq![seq!['.']] + views(rest@).take(k as int),
            decreases rest@.len() - k,
        {
            let ghost before = r@;
            r.push(copy_chars(&rest[k]));
            assert(views(r@) =~= views(before).push(rest@[k as int]@));
            assert(views(rest@).take(k + 1) =~= views(rest@).take(k as int).push(rest@[k as int]@));
            assert(views(r@) =~= seq![seq!['.']] + views(rest@).take(k + 1));
            k = k + 1;
        }
        assert(views(rest@).take(rest@.len() as int) =~= views(rest@));
        r
    } else {
        assert(pieces@[0]@ != seq!['.']) by {
            if pieces@[0]@ == seq!['.'] {
                assert(pieces@[0]@.len() == 1 && pieces@[0]@[0] == '.');
            }
        }
        kept_components_exec(&pieces, 0)
    }
}

/// A path's components joined with `/`, on characters.
pub fn normalize_path_chars(path: &Vec<char>) -> (r: Vec<char>)
    ensures
        r@ == normalize_path_spec(path@),
{
    let comps = components(path);
    join_slash(&comps)
}

/// A path's components joined with `/`, independent of how it was written.
pub fn normalize_path(path: &str) -> (r: String)
    ensures
        r@ == normalize_path_spec(path@),
{
    let comps = components(&chars_of(path));
    string_of(&join_slash(&comps))
}


/// `b` appended to path `a` as `Path::join` does: an absolute `b` replaces
/// `a`, otherwise one `/` separates them.
pub open spec fn join_path_spec(a: Seq<char>, b: Seq<char>) -> Seq<char> {
    if b.len() > 0 && b[0] == '/' {
        b
    } else if a.len() == 0 {
        b
    } else if a.last() == '/' {
        a + b
    } else {
        a + seq!['/'] + b
    }
}

/// `Path::join` on `/`-separated paths.
pub fn join_path(a: &Vec<char>, b: &Vec<char>) -> (r: Vec<char>)
    ensures
        r@ == join_path_spec(a@, b@),
{
    if b.len() > 0 && b[0] == '/' {
        copy_chars(b)
    } else if a.len() == 0 {
        copy_chars(b)
    } else if a[a.len() - 1] == '/' {
        let mut r = copy_chars(a);
        extend_chars(&mut r, b);
        r
    } else {
        let mut r = copy_chars(a);
        r.push('/');
        extend_chars(&mut r, b);
        assert(r@ =~= join_path_spec(a@, b@));
        r
    }
}

/// `~/` at the start of a path replaced by the home directory, when one is
/// known; any other path unchanged.
pub open spec fn expand_tilde_spec(path: Seq<char>, home: Option<Seq<char>>) -> Seq<char> {
    if path.len() >= 2 && path[0] == '~' && path[1] == '/' && home is Some {
        home->0 + path.drop_first()
    } else {
        path
    }
}

/// Expands a leading `~/` to the home directory.
pub fn expand_tilde(path: &str, home: &Option<String>) -> (r: String)
    ensures
        r@ == expand_tilde_spec(path@, crate::text::opt_view(*home)),
{
    let v = chars_of(path);
    if v.len() >= 2 && v[0] == '~' && v[1] == '/' {
        if let Some(h) = home {
            let mut out = chars_of(h.as_str());
            extend_chars(&mut out, &crate::text::slice_chars(&v, 1, v.len()));
            assert(v@.subrange(1, v@.len() as int) =~= v@.drop_first());
            return string_of(&out);
        }
    }
    path.to_owned()
}

/// A project root from the `--root` option: `.` when none is given, a
/// leading `~/` expanded, and a relative path taken from `cwd`.
pub open spec fn resolve_root_spec(root: Option<Seq<char>>, home: Option<Seq<char>>, cwd: Seq<char>) -> Seq<char> {
    let p = match root {
        Some(r) => r,
        None => seq!['.'],
    };
    let e = expand_tilde_spec(p, home);
    if e.len() > 0 && e[0] == '/' {
        e
    } else {
        join_path_spec(cwd, e)
    }
}

/// Resolves the project root named on the command line.
pub fn resolve_root(root: &Option<String>, home: &Option<String>, cwd: &str) -> (r: String)
    ensures
        r@ == resolve_root_spec(crate::text::opt_view(*root), crate::text::opt_view(*home), cwd@),
{
    let p = match root {
        Some(r) => r.clone(),
        None => ".".to_owned(),
    };
    proof {
        reveal_strlit(".");
    }
    let e = chars_of(expand_tilde(p.as_str(), home).as_str());
    if e.len() > 0 && e[0] == '/' {
        string_of(&e)
    } else {
        string_of(&join_path(&chars_of(cwd), &e))
    }
}

/// The site's base URL as templates see it: trimmed, without trailing
/// slashes.
pub fn normalize_base_url(value: &str) -> (r: String)
    ensures
        r@ == strip_trailing(crate::text::trim(value@), '/'),
{
    let t = crate::text::trim_chars(&chars_of(value));
    string_of(&strip_trailing_chars(&t, '/'))
}

/// Splits a comma-separated list into trimmed, non-empty values.
pub fn split_csv(value: &str) -> (r: Vec<String>)
    ensures
        crate::text::string_views(r@) == crate::post::slug::tags_spec(value@),
{
    crate::post::slug::normalize_tags(value)
}

/// The scheme and path of `value` as `url::Url::parse` reads it, or `None`
/// where the crate refuses `value` as an absolute URL.
pub uninterp spec fn parsed_url(value: Seq<char>) -> Option<(Seq<char>, Seq<char>)>;

/// Calls `url::Url::parse` and, on success, `Url::scheme` and `Url::path`.
/// Claims only that the answer is a function of the text.
#[verifier::external_body]
pub(crate) fn parse_url(value: &str) -> (r: Option<(String, String)>)
    ensures
        match r {
            Some((scheme, path)) => parsed_url(value@) == Some((scheme@, path@)),
            None => parsed_url(value@) is None,
        },
{
    let url = url::Url::parse(value).ok()?;
    Some((url.scheme().to_owned(), url.path().to_owned()))
}

/// The path of the site's base URL as templates see it: without trailing
/// slashes, so empty for a site at the root of its host (and for a base
/// URL that does not parse).
pub fn extract_base_path(base_url: &str) -> (r: String)
    ensures
        r@ == match parsed_url(base_url@) {
            Some((_, path)) => strip_trailing(path, '/'),
            None => Seq::<char>::empty(),
        },
{
    match parse_url(base_url) {
        Some((_, path)) => string_of(&strip_trailing_chars(&chars_of(path.as_str()), '/')),
        None => String::new(),
    }
}

} // verus!
