//! Post pages: rewriting links to a post's attachments.

use vstd::prelude::*;

use crate::text::{
    chars_eq, chars_of, extend_chars, extend_str, find_either, first_index, join, lower_chars,
    lower_seq, matches_at, occurs_at, slice_chars, split_chars, split_on, starts_with, string_of,
    strip_leading, strip_leading_chars, strip_prefix_rep, strip_prefix_rep_chars, strip_trailing,
    strip_trailing_chars, trim, trim_chars, views,
};
use crate::utils::{absolute_url_spec, normalize_path_chars, normalize_path_spec};

verus! {

/// The first media type `mime_guess` has for a path's extension, as the
/// `mime` crate displays it, or `application/octet-stream` when it has none.
pub uninterp spec fn guessed_mime_text(path: Seq<char>) -> Seq<char>;

/// Calls `mime_guess::from_path(..).first_or_octet_stream()` and displays
/// the type. Claims only that the answer is a function of the path (the
/// crate looks at its extension alone).
#[verifier::external_body]
fn guess_mime_text(path: &str) -> (r: String)
    ensures
        r@ == guessed_mime_text(path@),
{
    mime_guess::from_path(path).first_or_octet_stream().to_string()
}

/// What a post's templates learn of one attachment, besides its size: the
/// key it is listed under (its relative path, normalized) and its media
/// type, guessed from the path of the file.
pub fn attachment_entry(relative: &str, asset_path: &str) -> (r: (String, String))
    ensures
        r.0@ == normalize_path_spec(relative@),
        r.1@ == guessed_mime_text(asset_path@),
{
    (crate::utils::normalize_path(relative), guess_mime_text(asset_path))
}

/// The attribute that `rest` starts with, as its quote character and the
/// length of `src="`, `src='`, `href="` or `href='`.
pub open spec fn attr_prefix(rest: Seq<char>) -> Option<(char, nat)> {
    if starts_with(rest, "src=\""@) {
        Some(('"', 5))
    } else if starts_with(rest, "src='"@) {
        Some(('\'', 5))
    } else if starts_with(rest, "href=\""@) {
        Some(('"', 6))
    } else if starts_with(rest, "href='"@) {
        Some(('\'', 6))
    } else {
        None
    }
}

/// Detects a `src=` or `href=` attribute opening at position `at`.
pub fn match_attribute(v: &Vec<char>, at: usize) -> (r: Option<(char, usize)>)
    requires
        at <= v@.len(),
    ensures
        r == (match attr_prefix(v@.skip(at as int)) {
            Some((q, n)) => Some((q, n as usize)),
            None => None::<(char, usize)>,
        }),
        r matches Some((q, n)) ==> at + n <= v@.len() && (n == 5 || n == 6),
{
    let ghost rest = v@.skip(at as int);
    proof {
        reveal_strlit("src=\"");
        reveal_strlit("src='");
        reveal_strlit("href=\"");
        reveal_strlit("href='");
    }
    let p1 = chars_of("src=\"");
    let p2 = chars_of("src='");
    let p3 = chars_of("href=\"");
    let p4 = chars_of("href='");
    assert forall|p: Seq<char>, k: int| 0 <= at && k == at as int implies occurs_at(v@, p, k) == starts_with(rest, p) by {
        if occurs_at(v@, p, k) {
            assert(rest.subrange(0, p.len() as int) =~= v@.subrange(k, k + p.len()));
        }
        if starts_with(rest, p) {
            assert(rest.subrange(0, p.len() as int) =~= v@.subrange(k, k + p.len()));
        }
    }
    if matches_at(v, &p1, at) {
        Some(('"', 5))
    } else if matches_at(v, &p2, at) {
        Some(('\'', 5))
    } else if matches_at(v, &p3, at) {
        Some(('"', 6))
    } else if matches_at(v, &p4, at) {
        Some(('\'', 6))
    } else {
        None
    }
}

/// Whether a link target points outside the post: absolute paths, fragments,
/// protocol-relative URLs and `http:`, `https:`, `mailto:`, `tel:`, `data:` or
/// `javascript:` URLs (scheme compared without case).
pub open spec fn is_external(t: Seq<char>) -> bool {
    let lower = lower_seq(t);
    ||| starts_with(t, seq!['/'])
    ||| starts_with(t, seq!['#'])
    ||| starts_with(lower, "http://"@)
    ||| starts_with(lower, "https://"@)
    ||| starts_with(lower, "mailto:"@)
    ||| starts_with(lower, "tel:"@)
    ||| starts_with(lower, "data:"@)
    ||| starts_with(lower, "javascript:"@)
}

/// `b` appended to `a` as `PathBuf::push` does: an absolute `b` replaces
/// `a`, otherwise one `/` separates them.
pub open spec fn push_path(a: Seq<char>, b: Seq<char>) -> Seq<char> {
    if b.len() > 0 && b[0] == '/' {
        b
    } else if a.len() == 0 {
        b
    } else if a.last() == '/' {
        a + b
    } else {
        a + seq!['/'] + b
    }
}

/// The non-empty pieces, in order.
pub open spec fn nonempty_pieces(ps: Seq<Seq<char>>) -> Seq<Seq<char>>
    decreases ps.len(),
{
    if ps.len() == 0 {
        Seq::<Seq<char>>::empty()
    } else {
        let r = nonempty_pieces(ps.drop_last());
        if ps.last().len() > 0 {
            r.push(ps.last())
        } else {
            r
        }
    }
}

/// The site path of `relative` inside the post at `permalink`.
pub open spec fn join_permalink_spec(permalink: Seq<char>, relative: Seq<char>) -> Seq<char> {
    if starts_with(relative, seq!['/']) {
        relative
    } else {
        let segs = nonempty_pieces(split_on(strip_trailing(strip_leading(permalink, '/'), '/'), '/'));
        let t = strip_prefix_rep(relative, "./"@);
        seq!['/'] + normalize_path_spec(push_path(join(segs, seq!['/']), t))
    }
}

fn nonempty_joined(ps: &Vec<Vec<char>>) -> (r: Vec<char>)
    ensures
        r@ == join(nonempty_pieces(views(ps@)), seq!['/']),
{
    let mut r: Vec<char> = Vec::new();
    let ghost mut kept: Seq<Seq<char>> = Seq::empty();
    let mut any = false;
    let n = ps.len();
    for i in 0..n
        invariant
            n == ps@.len(),
            any == (kept.len() > 0),
            kept == nonempty_pieces(views(ps@).take(i as int)),
            r@ == join(kept, seq!['/']),
    {
        let ghost t1 = views(ps@).take(i + 1);
        assert(t1.drop_last() =~= views(ps@).take(i as int));
        assert(t1.last() == ps@[i as int]@);
        if ps[i].len() > 0 {
            if any {
                r.push('/');
            }
            extend_chars(&mut r, &ps[i]);
            any = true;
            proof {
                let old_kept = kept;
                kept = kept.push(ps@[i as int]@);
                if old_kept.len() == 0 {
                    assert(r@ =~= join(kept, seq!['/']));
                } else {
                    assert(kept.drop_last() =~= old_kept);
                    assert(r@ =~= join(kept, seq!['/']));
                }
            }
        }
    }
    assert(views(ps@).take(n as int) =~= views(ps@));
    r
}

/// The site path of an attachment `relative` of the post at `permalink`.
pub fn join_permalink(permalink: &Vec<char>, relative: &Vec<char>) -> (r: Vec<char>)
    ensures
        r@ == join_permalink_spec(permalink@, relative@),
{
    if relative.len() > 0 && relative[0] == '/' {
        assert(starts_with(relative@, seq!['/'])) by {
            assert(relative@.subrange(0, 1) =~= seq!['/']);
        }
        return crate::text::copy_chars(relative);
    }
    assert(!starts_with(relative@, seq!['/'])) by {
        if starts_with(relative@, seq!['/']) {
            assert(relative@.subrange(0, 1)[0] == relative@[0]);
        }
    }
    let trimmed = strip_trailing_chars(&strip_leading_chars(permalink, '/'), '/');
    let pieces = split_chars(&trimmed, '/');
    let full = nonempty_joined(&pieces);
    proof {
        reveal_strlit("./");
    }
    let t = strip_prefix_rep_chars(relative, &chars_of("./"));
    let pushed: Vec<char> = if t.len() > 0 && t[0] == '/' {
        crate::text::copy_chars(&t)
    } else if full.len() == 0 {
        crate::text::copy_chars(&t)
    } else if full[full.len() - 1] == '/' {
        let mut a = crate::text::copy_chars(&full);
        extend_chars(&mut a, &t);
        a
    } else {
        let mut a = crate::text::copy_chars(&full);
        a.push('/');
        extend_chars(&mut a, &t);
        a
    };
    assert(pushed@ =~= push_path(full@, t@));
    let mut r: Vec<char> = Vec::new();
    r.push('/');
    let norm = normalize_path_chars(&pushed);
    extend_chars(&mut r, &norm);
    assert(r@ =~= join_permalink_spec(permalink@, relative@));
    r
}

/// How an attachment link is rewritten: a link to one of the post's
/// attachments (after `./` prefixes are dropped, up to a `?` or `#`) becomes
/// the attachment path, or its absolute URL when `absolute` is set. Other
/// links are left alone (`None`).
pub open spec fn rewrite_spec(
    value: Seq<char>,
    permalink: Seq<char>,
    base_url: Seq<char>,
    attached: Seq<Seq<char>>,
    absolute: bool,
) -> Option<Seq<char>> {
    let t = trim(value);
    let relative = strip_prefix_rep(t, "./"@);
    if t.len() == 0 || is_external(t) || relative.len() == 0 {
        None
    } else {
        let (path_part, suffix) = match first_index(relative, '?', '#') {
            Some(k) => (relative.take(k), relative.skip(k)),
            None => (relative, Seq::<char>::empty()),
        };
        if !attached.contains(path_part) {
            None
        } else if absolute {
            Some(absolute_url_spec(base_url, join_permalink_spec(permalink, path_part) + suffix))
        } else {
            Some(path_part + suffix)
        }
    }
}

fn has_path(attached: &Vec<Vec<char>>, p: &Vec<char>) -> (r: bool)
    ensures
        r == views(attached@).contains(p@),
{
    let n = attached.len();
    for i in 0..n
        invariant
            n == attached@.len(),
            forall|k: int| 0 <= k < i ==> attached@[k]@ != p@,
    {
        if chars_eq(&attached[i], p) {
            assert(views(attached@)[i as int] == p@);
            return true;
        }
    }
    assert(!views(attached@).contains(p@)) by {
        if views(attached@).contains(p@) {
            let k = choose|k: int| 0 <= k < views(attached@).len() && views(attached@)[k] == p@;
            assert(attached@[k]@ == p@);
        }
    }
    false
}

fn starts_with_str(v: &Vec<char>, p: &str) -> (r: bool)
    ensures
        r == starts_with(v@, p@),
{
    matches_at(v, &chars_of(p), 0)
}

fn external(t: &Vec<char>) -> (r: bool)
    ensures
        r == is_external(t@),
{
    let lower = lower_chars(t);
    let slash = crate::text::single('/');
    let hash = crate::text::single('#');
    matches_at(t, &slash, 0) || matches_at(t, &hash, 0) || starts_with_str(&lower, "http://")
        || starts_with_str(&lower, "https://") || starts_with_str(&lower, "mailto:")
        || starts_with_str(&lower, "tel:") || starts_with_str(&lower, "data:")
        || starts_with_str(&lower, "javascript:")
}

/// Rewrites one attribute value when it names an attachment of the post.
pub fn rewrite_if_attached(
    value: &Vec<char>,
    permalink: &Vec<char>,
    base_url: &Vec<char>,
    attached: &Vec<Vec<char>>,
    return_absolute: bool,
) -> (r: Option<Vec<char>>)
    ensures
        match r {
            Some(w) => rewrite_spec(value@, permalink@, base_url@, views(attached@), return_absolute) == Some(w@),
            None => rewrite_spec(value@, permalink@, base_url@, views(attached@), return_absolute) is None,
        },
{
    let trimmed = trim_chars(value);
    if trimmed.len() == 0 {
        return None;
    }
    if external(&trimmed) {
        return None;
    }
    proof {
        reveal_strlit("./");
    }
    let relative = strip_prefix_rep_chars(&trimmed, &chars_of("./"));
    if relative.len() == 0 {
        return None;
    }
    let (path_part, suffix) = match find_either(&relative, '?', '#') {
        Some(k) => (slice_chars(&relative, 0, k), slice_chars(&relative, k, relative.len())),
        None => (crate::text::copy_chars(&relative), Vec::new()),
    };
    assert(path_part@ =~= relative@.take(path_part@.len() as int));
    proof {
        match first_index(relative@, '?', '#') {
            Some(k) => {
                assert(path_part@ =~= relative@.take(k));
                assert(suffix@ =~= relative@.skip(k));
            },
            None => {
                assert(suffix@ =~= Seq::<char>::empty());
            },
        }
    }
    if !has_path(attached, &path_part) {
        return None;
    }
    if return_absolute {
        let mut joined = join_permalink(permalink, &path_part);
        extend_chars(&mut joined, &suffix);
        let mut out = strip_trailing_chars(base_url, '/');
        let p = strip_leading_chars(&joined, '/');
        out.push('/');
        extend_chars(&mut out, &p);
        assert(out@ =~= absolute_url_spec(base_url@, joined@));
        Some(out)
    } else {
        let mut out = path_part;
        extend_chars(&mut out, &suffix);
        Some(out)
    }
}

/// The body with every `src`/`href` attribute that names an attachment
/// rewritten; everything else is copied as it is. An attribute whose closing
/// quote is missing ends the rewriting.
pub open spec fn rewrite_body(
    rest: Seq<char>,
    permalink: Seq<char>,
    base_url: Seq<char>,
    attached: Seq<Seq<char>>,
    absolute: bool,
) -> Seq<char>
    decreases rest.len(),
{
    if rest.len() == 0 {
        rest
    } else {
        match attr_prefix(rest) {
            Some((q, n)) => {
                let after = rest.skip(n as int);
                match first_index(after, q, q) {
                    Some(e) => if 0 <= e < after.len() && n <= rest.len() {
                        let value = after.take(e);
                        rest.take(n as int) + (match rewrite_spec(value, permalink, base_url, attached, absolute) {
                            Some(w) => w,
                            None => value,
                        }) + seq![q] + rewrite_body(after.skip(e + 1), permalink, base_url, attached, absolute)
                    } else {
                        rest
                    },
                    None => rest,
                }
            },
            None => seq![rest[0]] + rewrite_body(rest.drop_first(), permalink, base_url, attached, absolute),
        }
    }
}

/// The normalized relative paths among a post's attachments.
pub open spec fn relative_attachments(attached: Seq<Seq<char>>) -> Seq<Seq<char>>
    decreases attached.len(),
{
    if attached.len() == 0 {
        Seq::<Seq<char>>::empty()
    } else {
        let r = relative_attachments(attached.drop_last());
        let a = attached.last();
        if a.len() > 0 && a[0] == '/' {
            r
        } else {
            r.push(normalize_path_spec(a))
        }
    }
}

/// A post body with links to its attachments rewritten.
pub open spec fn att_to_absolute_spec(
    body: Seq<char>,
    permalink: Seq<char>,
    base_url: Seq<char>,
    attached: Seq<Seq<char>>,
    absolute: bool,
) -> Seq<char> {
    let rel = relative_attachments(attached);
    if attached.len() == 0 || rel.len() == 0 {
        body
    } else {
        rewrite_body(body, permalink, base_url, rel, absolute)
    }
}

fn relative_attachment_paths(attached: &Vec<String>) -> (r: Vec<Vec<char>>)
    ensures
        views(r@) == relative_attachments(crate::text::string_views(attached@)),
{
    let mut r: Vec<Vec<char>> = Vec::new();
    let n = attached.len();
    for i in 0..n
        invariant
            n == attached@.len(),
            views(r@) == relative_attachments(crate::text::string_views(attached@).take(i as int)),
    {
        let ghost t1 = crate::text::string_views(attached@).take(i + 1);
        assert(t1.drop_last() =~= crate::text::string_views(attached@).take(i as int));
        assert(t1.last() == attached@[i as int]@);
        let a = chars_of(attached[i].as_str());
        if a.len() > 0 && a[0] == '/' {
        } else {
            let ghost before = r@;
            r.push(normalize_path_chars(&a));
            assert(views(r@) =~= views(before).push(normalize_path_spec(a@)));
        }
    }
    assert(crate::text::string_views(attached@).take(n as int) =~= crate::text::string_views(attached@));
    r
}

/// Rewrites the `src` and `href` attributes of a post body that point at the
/// post's attachments: to the attachment's path relative to the post, or to
/// its absolute URL when `return_absolute` is set (feeds).
pub fn att_to_absolute(
    body: &str,
    permalink: &str,
    base_url: &str,
    attached: &Vec<String>,
    return_absolute: bool,
) -> (r: String)
    ensures
        r@ == att_to_absolute_spec(body@, permalink@, base_url@, crate::text::string_views(attached@), return_absolute),
{
    let b = chars_of(body);
    if attached.len() == 0 {
        return string_of(&b);
    }
    let rel = relative_attachment_paths(attached);
    if rel.len() == 0 {
        return string_of(&b);
    }
    let perma = chars_of(permalink);
    let base = chars_of(base_url);
    let mut output: Vec<char> = Vec::new();
    let mut i: usize = 0;
    let n = b.len();
    assert(b@.skip(0) =~= b@);
    while i < n
        invariant
            n == b@.len(),
            i <= n,
            output@ + rewrite_body(b@.skip(i as int), perma@, base@, views(rel@), return_absolute)
                == rewrite_body(b@, perma@, base@, views(rel@), return_absolute),
        decreases n - i,
    {
        let (chunk, next) = rewrite_step(&b, i, &perma, &base, &rel, return_absolute);
        let ghost before = output@;
        extend_chars(&mut output, &chunk);
        assert(before + (chunk@ + rewrite_body(b@.skip(next as int), perma@, base@, views(rel@), return_absolute))
            =~= output@ + rewrite_body(b@.skip(next as int), perma@, base@, views(rel@), return_absolute));
        i = next;
    }
    assert(b@.skip(n as int) =~= Seq::<char>::empty());
    assert(output@ =~= rewrite_body(b@, perma@, base@, views(rel@), return_absolute));
    string_of(&output)
}

/// One step of the rewriting scan at position `i`: what it emits and where
/// the scan goes on.
fn rewrite_step(
    b: &Vec<char>,
    i: usize,
    perma: &Vec<char>,
    base: &Vec<char>,
    rel: &Vec<Vec<char>>,
    return_absolute: bool,
) -> (r: (Vec<char>, usize))
    requires
        i < b@.len(),
    ensures
        i < r.1 <= b@.len(),
        r.0@ + rewrite_body(b@.skip(r.1 as int), perma@, base@, views(rel@), return_absolute)
            == rewrite_body(b@.skip(i as int), perma@, base@, views(rel@), return_absolute),
{
    let n = b.len();
    let ghost rest = b@.skip(i as int);
    let mut output: Vec<char> = Vec::new();
    match match_attribute(b, i) {
        Some((quote, prefix_len)) => {
            let start = i + prefix_len;
            let tail = slice_chars(b, start, n);
            assert(tail@ =~= rest.skip(prefix_len as int));
            let prefix = slice_chars(b, i, start);
            assert(prefix@ =~= rest.take(prefix_len as int));
            extend_chars(&mut output, &prefix);
            match find_either(&tail, quote, quote) {
                None => {
                    extend_chars(&mut output, &tail);
                    assert(rest =~= rest.take(prefix_len as int) + rest.skip(prefix_len as int));
                    assert(b@.skip(n as int) =~= Seq::<char>::empty());
                    assert(output@ =~= rest);
                    (output, n)
                },
                Some(end) => {
                    let value = slice_chars(&tail, 0, end);
                    assert(value@ =~= tail@.take(end as int));
                    match rewrite_if_attached(&value, perma, base, rel, return_absolute) {
                        Some(w) => extend_chars(&mut output, &w),
                        None => extend_chars(&mut output, &value),
                    }
                    output.push(quote);
                    assert(tail@.skip(end + 1) =~= b@.skip(start + end + 1));
                    (output, start + end + 1)
                },
            }
        },
        None => {
            output.push(b[i]);
            assert(rest.drop_first() =~= b@.skip(i + 1));
            assert(output@ =~= seq![rest[0]]);
            (output, i + 1)
        },
    }
}

/// The template a post is rendered with: `post-<type>.html` for a typed
/// post, else `post.html`.
pub open spec fn post_template_spec(post_type: Option<Seq<char>>) -> Seq<char> {
    match post_type {
        Some(t) => "post-"@ + t + ".html"@,
        None => "post.html"@,
    }
}

/// The template a post is rendered with.
pub fn post_template_name(post_type: &Option<String>) -> (r: String)
    ensures
        r@ == post_template_spec(crate::text::opt_view(*post_type)),
{
    match post_type {
        Some(t) => {
            let mut out = chars_of("post-");
            extend_str(&mut out, t.as_str());
            extend_str(&mut out, ".html");
            string_of(&out)
        },
        None => "post.html".to_owned(),
    }
}

/// Where a post's page is written: `index.html` in the directory its
/// permalink names under the output root.
pub fn post_output_path(html_root: &str, permalink: &str) -> (r: String)
    ensures
        r@ == crate::utils::join_path_spec(
            crate::utils::join_path_spec(html_root@, strip_leading(permalink@, '/')),
            "index.html"@,
        ),
{
    let dir = crate::utils::join_path(&chars_of(html_root), &strip_leading_chars(&chars_of(permalink), '/'));
    string_of(&crate::utils::join_path(&dir, &chars_of("index.html")))
}

/// Whether a post must be rendered again: always in a full build, else when
/// the cached digest is missing or differs from the fresh one.
pub fn post_needs_render(full: bool, cached: &Option<String>, digest: &str) -> (r: bool)
    ensures
        r == (full || crate::text::opt_view(*cached) != Some(digest@)),
{
    if full {
        return true;
    }
    match cached {
        Some(c) => !chars_eq(&chars_of(c.as_str()), &chars_of(digest)),
        None => true,
    }
}

/// The first pair of posts that share a permalink: the first position whose
/// permalink appeared before, with that earlier position.
pub open spec fn first_duplicate(ps: Seq<Seq<char>>) -> Option<(int, int)> {
    first_duplicate_from(ps, 0)
}

/// The first repeat at or after position `j`, given none before it.
pub open spec fn first_duplicate_from(ps: Seq<Seq<char>>, j: int) -> Option<(int, int)>
    decreases ps.len() - j,
{
    if j < 0 || j >= ps.len() {
        None
    } else if ps.take(j).contains(ps[j]) {
        Some((choose|i: int| 0 <= i < j && ps[i] == ps[j], j))
    } else {
        first_duplicate_from(ps, j + 1)
    }
}

/// Finds the first two posts that would be published at the same URL: the
/// first position whose permalink appeared before, and that earlier position.
pub fn find_duplicate_permalink(permalinks: &Vec<String>) -> (r: Option<(usize, usize)>)
    ensures
        match r {
            None => first_duplicate(crate::text::string_views(permalinks@)) is None,
            Some((i, j)) => first_duplicate(crate::text::string_views(permalinks@)) == Some(
                (i as int, j as int),
            ) && i < j && permalinks@[i as int]@ == permalinks@[j as int]@,
        },
{
    let ghost ps = crate::text::string_views(permalinks@);
    let n = permalinks.len();
    for j in 0..n
        invariant
            n == permalinks@.len() == ps.len(),
            ps == crate::text::string_views(permalinks@),
            first_duplicate(ps) == first_duplicate_from(ps, j as int),
            forall|a: int, b: int| 0 <= a < b < j ==> ps[a] != ps[b],
    {
        let pj = chars_of(permalinks[j].as_str());
        for i in 0..j
            invariant
                j < n == permalinks@.len() == ps.len(),
                ps == crate::text::string_views(permalinks@),
                pj@ == ps[j as int],
                first_duplicate(ps) == first_duplicate_from(ps, j as int),
                forall|a: int, b: int| 0 <= a < b < j ==> ps[a] != ps[b],
                forall|k: int| 0 <= k < i ==> ps[k] != ps[j as int],
        {
            if chars_eq(&chars_of(permalinks[i].as_str()), &pj) {
                proof {
                    assert(ps.take(j as int)[i as int] == ps[j as int]);
                    let c = choose|k: int| 0 <= k < j && ps[k] == ps[j as int];
                    assert(0 <= c < j && ps[c] == ps[j as int]);
                    if c != i as int {
                        if c < i {
                            assert(ps[c] != ps[i as int]);
                        } else {
                            assert(ps[i as int] != ps[c]);
                        }
                    }
                }
                return Some((i, j));
            }
        }
        assert(!ps.take(j as int).contains(ps[j as int])) by {
            if ps.take(j as int).contains(ps[j as int]) {
                let k = choose|k: int| 0 <= k < j && ps.take(j as int)[k] == ps[j as int];
                assert(ps[k] == ps[j as int]);
            }
        }
    }
    None
}

/// Whether a path is absolute (starts at the root).
pub open spec fn is_absolute_path(p: Seq<char>) -> bool {
    p.len() > 0 && p[0] == '/'
}

/// The attachment paths a post lists, as its templates see them: each
/// normalized, without repeats, in ascending order; refused (naming the path)
/// when one is absolute.
pub fn convert_paths(paths: &Vec<String>) -> (r: Result<Vec<String>, String>)
    ensures
        match r {
            Ok(v) => {
                &&& forall|i: int| 0 <= i < paths@.len() ==> !is_absolute_path(#[trigger] paths@[i]@)
                &&& crate::sorted::strictly_sorted(crate::text::string_views(v@))
                &&& forall|y: Seq<char>|
                    crate::text::string_views(v@).contains(y) <==> exists|i: int|
                        0 <= i < paths@.len() && y == normalize_path_spec(#[trigger] paths@[i]@)
            },
            Err(p) => exists|i: int|
                0 <= i < paths@.len() && is_absolute_path(#[trigger] paths@[i]@) && p@ == paths@[i]@
                    && forall|k: int| 0 <= k < i ==> !is_absolute_path(#[trigger] paths@[k]@),
        },
{
    let mut set: Vec<Vec<char>> = Vec::new();
    let n = paths.len();
    for i in 0..n
        invariant
            n == paths@.len(),
            crate::sorted::strictly_sorted(views(set@)),
            forall|k: int| 0 <= k < i ==> !is_absolute_path(#[trigger] paths@[k]@),
            forall|y: Seq<char>|
                views(set@).contains(y) <==> exists|k: int| 0 <= k < i && y == normalize_path_spec(#[trigger] paths@[k]@),
    {
        let p = chars_of(paths[i].as_str());
        if p.len() > 0 && p[0] == '/' {
            return Err(paths[i].clone());
        }
        let normalized = normalize_path_chars(&p);
        let ghost before = views(set@);
        crate::sorted::insert_sorted(&mut set, &normalized);
        assert forall|y: Seq<char>|
            views(set@).contains(y) <==> exists|k: int| 0 <= k < i + 1 && y == normalize_path_spec(#[trigger] paths@[k]@) by {
            if views(set@).contains(y) && y != normalized@ {
                assert(before.contains(y));
            }
            if exists|k: int| 0 <= k < i + 1 && y == normalize_path_spec(#[trigger] paths@[k]@) {
                let k = choose|k: int| 0 <= k < i + 1 && y == normalize_path_spec(#[trigger] paths@[k]@);
                if k < i {
                    assert(before.contains(y));
                }
            }
        }
    }
    let r = crate::sorted::to_strings(&set);
    Ok(r)
}

/// The ordering keys of posts: each post's date (as a timestamp) and slug.
pub open spec fn key_views(keys: Seq<(i128, String)>) -> Seq<(i128, Seq<char>)> {
    keys.map_values(|k: (i128, String)| (k.0, k.1@))
}

/// Whether post `a` comes before post `b`: an earlier date, else a slug
/// earlier in character order, else (same date and slug) the one found
/// first.
pub open spec fn post_before(keys: Seq<(i128, Seq<char>)>, a: int, b: int) -> bool {
    keys[a].0 < keys[b].0 || (keys[a].0 == keys[b].0 && (crate::sorted::lex_lt(keys[a].1, keys[b].1) || (keys[a].1
        == keys[b].1 && a < b)))
}

/// Whether an order lists posts as `post_before` puts them.
pub open spec fn in_publication_order(keys: Seq<(i128, Seq<char>)>, order: Seq<usize>) -> bool {
    forall|i: int, j: int| 0 <= i < j < order.len() ==> post_before(keys, #[trigger] order[i] as int, #[trigger] order[j] as int)
}

proof fn lemma_before_total(keys: Seq<(i128, Seq<char>)>, a: int, b: int)
    requires
        a != b,
    ensures
        post_before(keys, a, b) || post_before(keys, b, a),
{
    crate::sorted::lemma_lex_total(keys[a].1, keys[b].1);
}

proof fn lemma_before_transitive(keys: Seq<(i128, Seq<char>)>, a: int, b: int, c: int)
    requires
        post_before(keys, a, b),
        post_before(keys, b, c),
    ensures
        post_before(keys, a, c),
{
    if keys[a].0 == keys[b].0 && keys[b].0 == keys[c].0 {
        if crate::sorted::lex_lt(keys[a].1, keys[b].1) && crate::sorted::lex_lt(keys[b].1, keys[c].1) {
            crate::sorted::lemma_lex_transitive(keys[a].1, keys[b].1, keys[c].1);
        }
    }
}

fn key_before(keys: &Vec<(i128, String)>, a: usize, b: usize) -> (r: bool)
    requires
        a < keys@.len(),
        b < keys@.len(),
    ensures
        r == post_before(key_views(keys@), a as int, b as int),
{
    let ka = &keys[a];
    let kb = &keys[b];
    if ka.0 != kb.0 {
        return ka.0 < kb.0;
    }
    let sa = chars_of(ka.1.as_str());
    let sb = chars_of(kb.1.as_str());
    if crate::sorted::lex_less(&sa, &sb) {
        return true;
    }
    chars_eq(&sa, &sb) && a < b
}

/// The order posts are published in: positions into `keys`, by date, then
/// by slug, posts with the same date and slug in the order found. Every
/// position appears once.
pub fn publication_order(keys: &Vec<(i128, String)>) -> (r: Vec<usize>)
    ensures
        r@.len() == keys@.len(),
        forall|k: int| 0 <= k < r@.len() ==> (#[trigger] r@[k]) < keys@.len(),
        forall|p: usize| p < keys@.len() ==> r@.contains(p),
        in_publication_order(key_views(keys@), r@),
{
    let ghost ks = key_views(keys@);
    let n = keys.len();
    let mut r: Vec<usize> = Vec::new();
    for i in 0..n
        invariant
            n == keys@.len(),
            ks == key_views(keys@),
            r@.len() == i,
            forall|k: int| 0 <= k < r@.len() ==> (#[trigger] r@[k]) < i,
            forall|p: usize| p < i ==> r@.contains(p),
            in_publication_order(ks, r@),
    {
        let m = r.len();
        let mut k: usize = 0;
        while k < m && key_before(keys, r[k], i)
            invariant
                k <= m == r@.len() == i,
                i < n == keys@.len(),
                ks == key_views(keys@),
                forall|q: int| 0 <= q < r@.len() ==> (#[trigger] r@[q]) < i,
                forall|q: int| 0 <= q < k ==> post_before(ks, #[trigger] r@[q] as int, i as int),
            decreases m - k,
        {
            k = k + 1;
        }
        let ghost s0 = r@;
        proof {
            if k < m {
                assert(s0[k as int] < i);
                lemma_before_total(ks, s0[k as int] as int, i as int);
                assert forall|q: int| k <= q < m implies post_before(ks, i as int, #[trigger] s0[q] as int) by {
                    if q > k {
                        lemma_before_transitive(ks, i as int, s0[k as int] as int, s0[q] as int);
                    }
                }
            }
        }
        r.insert(k, i);
        assert(r@ =~= s0.insert(k as int, i));
        assert forall|a: int, b: int| 0 <= a < b < r@.len() implies post_before(ks, #[trigger] r@[a] as int, #[trigger] r@[b] as int) by {
            if b < k {
                assert(r@[a] == s0[a] && r@[b] == s0[b]);
            } else if b == k {
                assert(r@[a] == s0[a]);
            } else if a < k {
                assert(r@[a] == s0[a] && r@[b] == s0[b - 1]);
            } else if a == k {
                assert(r@[b] == s0[b - 1]);
            } else {
                assert(r@[a] == s0[a - 1] && r@[b] == s0[b - 1]);
            }
        }
        assert forall|q: int| 0 <= q < r@.len() implies (#[trigger] r@[q]) < i + 1 by {
            if q < k {
                assert(r@[q] == s0[q]);
            } else if q > k {
                assert(r@[q] == s0[q - 1]);
            }
        }
        assert forall|p: usize| p < i + 1 implies r@.contains(p) by {
            if p < i {
                assert(s0.contains(p));
                let q = choose|q: int| 0 <= q < s0.len() && s0[q] == p;
                if q < k {
                    assert(r@[q] == p);
                } else {
                    assert(r@[q + 1] == p);
                }
            } else {
                assert(r@[k as int] == p);
            }
        }
    }
    r
}

} // verus!
