//! Reading posts: plain text and excerpts of a body, a post's type, language
//! and slug, the front matter block, and where a post is published.

use vstd::prelude::*;

use crate::post::slug::{slug_spec, slugify};
use crate::render::listing::{push_year, year_spec};
use crate::search::{sanitize_language, sanitize_spec};
use crate::text::{
    chars_eq, chars_of, extend_chars, extend_str, is_whitespace, is_ws, join, lower_chars,
    lower_seq, push_padded, slice_chars, split_chars, split_on, string_of, string_views, trim,
    trim_chars, views, zero_padded,
};
use crate::disk::{ask_disk, probe_view, probes_view, Probe, ProbeKind};
use crate::theme::comps_prefix;
use crate::utils::{components, join_path, join_path_spec, path_components};

verus! {

/// `s` with the markup between `<` and `>` removed, and the brackets too;
/// with `gap`, each `>` leaves a space behind. The flag says whether the
/// scan ends inside a tag.
pub open spec fn strip_tags(s: Seq<char>, gap: bool) -> (Seq<char>, bool)
    decreases s.len(),
{
    if s.len() == 0 {
        (Seq::<char>::empty(), false)
    } else {
        let (out, in_tag) = strip_tags(s.drop_last(), gap);
        let c = s.last();
        if c == '<' {
            (out, true)
        } else if c == '>' {
            (if gap { out.push(' ') } else { out }, false)
        } else if in_tag {
            (out, true)
        } else {
            (out.push(c), false)
        }
    }
}

/// `s` with every run of whitespace turned into one space. The flag says
/// whether the result ends with such a space.
pub open spec fn squeeze(s: Seq<char>) -> (Seq<char>, bool)
    decreases s.len(),
{
    if s.len() == 0 {
        (Seq::<char>::empty(), false)
    } else {
        let (out, last_space) = squeeze(s.drop_last());
        if is_ws(s.last()) {
            if last_space {
                (out, true)
            } else {
                (out.push(' '), true)
            }
        } else {
            (out.push(s.last()), false)
        }
    }
}

/// The text of an HTML fragment: tags dropped, whitespace runs turned into
/// single spaces, trimmed.
pub open spec fn plain_text_spec(html: Seq<char>) -> Seq<char> {
    trim(squeeze(strip_tags(html, false).0).0)
}

fn strip_tags_chars(v: &Vec<char>, gap: bool) -> (r: Vec<char>)
    ensures
        r@ == strip_tags(v@, gap).0,
{
    let mut out: Vec<char> = Vec::new();
    let mut in_tag = false;
    let n = v.len();
    for i in 0..n
        invariant
            n == v@.len(),
            (out@, in_tag) == strip_tags(v@.take(i as int), gap),
    {
        let c = v[i];
        assert(v@.take(i + 1).drop_last() =~= v@.take(i as int));
        if c == '<' {
            in_tag = true;
        } else if c == '>' {
            in_tag = false;
            if gap {
                out.push(' ');
            }
        } else if !in_tag {
            out.push(c);
        }
    }
    assert(v@.take(n as int) =~= v@);
    out
}

fn squeeze_chars(v: &Vec<char>) -> (r: Vec<char>)
    ensures
        r@ == squeeze(v@).0,
{
    let mut out: Vec<char> = Vec::new();
    let mut last_space = false;
    let n = v.len();
    for i in 0..n
        invariant
            n == v@.len(),
            (out@, last_space) == squeeze(v@.take(i as int)),
    {
        let c = v[i];
        assert(v@.take(i + 1).drop_last() =~= v@.take(i as int));
        if is_whitespace(c) {
            if !last_space {
                out.push(' ');
                last_space = true;
            }
        } else {
            out.push(c);
            last_space = false;
        }
    }
    assert(v@.take(n as int) =~= v@);
    out
}

/// The plain text of an HTML body, as the search index holds it.
pub fn to_plain_text(html: &str) -> (r: String)
    ensures
        r@ == plain_text_spec(html@),
{
    let stripped = strip_tags_chars(&chars_of(html), false);
    string_of(&trim_chars(&squeeze_chars(&stripped)))
}

/// How many characters an excerpt keeps.
pub const EXCERPT_LIMIT: usize = 280;

/// `text` cut to `limit` characters, with `...` where something was cut,
/// then trimmed.
pub open spec fn truncate_spec(text: Seq<char>, limit: nat) -> Seq<char> {
    if text.len() > limit {
        trim(text.take(limit as int) + "..."@)
    } else {
        trim(text)
    }
}

/// Cuts `text` to `limit` characters, marking a cut with `...`.
pub fn truncate(text: &str, limit: usize) -> (r: String)
    ensures
        r@ == truncate_spec(text@, limit as nat),
{
    let v = chars_of(text);
    if v.len() == 0 {
        assert(trim(v@) =~= v@);
        return String::new();
    }
    if v.len() > limit {
        let mut cut = slice_chars(&v, 0, limit);
        extend_str(&mut cut, "...");
        string_of(&trim_chars(&cut))
    } else {
        string_of(&trim_chars(&v))
    }
}

/// The excerpt of an HTML body: its text (a space where each tag ended,
/// whitespace runs as single spaces, trimmed), cut to the excerpt limit.
pub open spec fn html_excerpt_spec(html: Seq<char>) -> Seq<char> {
    truncate_spec(trim(squeeze(strip_tags(html, true).0).0), EXCERPT_LIMIT as nat)
}

/// The excerpt of an HTML body.
pub fn excerpt_from_html(html: &str) -> (r: String)
    ensures
        r@ == html_excerpt_spec(html@),
{
    let stripped = strip_tags_chars(&chars_of(html), true);
    let text = string_of(&trim_chars(&squeeze_chars(&stripped)));
    truncate(text.as_str(), EXCERPT_LIMIT)
}

/// A post type as it is written to the post: trimmed and ASCII-lowercased,
/// `None` when blank.
pub open spec fn post_type_spec(value: Option<Seq<char>>) -> Option<Seq<char>> {
    match value {
        None => None,
        Some(v) => if trim(v).len() == 0 {
            None
        } else {
            Some(lower_seq(trim(v)))
        },
    }
}

/// The characters a post type may hold: lowercase ASCII letters, digits,
/// `-` and `_`.
pub open spec fn type_char(c: char) -> bool {
    ('a' <= c && c <= 'z') || ('0' <= c && c <= '9') || c == '-' || c == '_'
}

/// Whether every character of a post type is allowed.
pub open spec fn valid_type(x: Seq<char>) -> bool {
    forall|k: int| 0 <= k < x.len() ==> type_char(#[trigger] x[k])
}

/// A post type that holds another character.
#[derive(Clone, Debug)]
pub struct InvalidPostType {
    pub origin: String,
}

impl InvalidPostType {
    /// The error's message, naming the content file.
    pub fn message(&self) -> (r: String)
        ensures
            r@ == self.origin@ + ": type may only contain lowercase letters, digits, '-' or '_'"@,
    {
        let mut out = chars_of(self.origin.as_str());
        extend_str(&mut out, ": type may only contain lowercase letters, digits, '-' or '_'");
        string_of(&out)
    }
}

/// Normalizes a post's `type`: trimmed and ASCII-lowercased, `None` when
/// missing or blank, and refused when it holds anything but lowercase ASCII
/// letters, digits, `-` and `_`.
pub fn normalize_post_type(value: &Option<String>, origin: &str) -> (r: Result<Option<String>, InvalidPostType>)
    ensures
        ({
            let t = post_type_spec(crate::text::opt_view(*value));
            match r {
                Ok(o) => crate::text::opt_view(o) == t && (t matches Some(x) ==> valid_type(x)),
                Err(e) => e.origin@ == origin@ && (t matches Some(x) && !valid_type(x)),
            }
        }),
{
    let raw = match value {
        None => return Ok(None),
        Some(v) => v,
    };
    let trimmed = trim_chars(&chars_of(raw.as_str()));
    if trimmed.len() == 0 {
        return Ok(None);
    }
    let normalized = lower_chars(&trimmed);
    let n = normalized.len();
    for i in 0..n
        invariant
            n == normalized@.len(),
            crate::text::opt_view(*value) == Some(raw@),
            trimmed@ == trim(raw@),
            trimmed@.len() > 0,
            normalized@ == lower_seq(trimmed@),
            forall|k: int| 0 <= k < i ==> type_char(#[trigger] normalized@[k]),
    {
        let c = normalized[i];
        if !(('a' <= c && c <= 'z') || ('0' <= c && c <= '9') || c == '-' || c == '_') {
            assert(!type_char(normalized@[i as int]));
            assert(post_type_spec(crate::text::opt_view(*value)) == Some(normalized@));
            return Err(InvalidPostType { origin: origin.to_owned() });
        }
    }
    Ok(Some(string_of(&normalized)))
}

/// Whether a character is a letter of the Greek script (the Greek and
/// Coptic block, and Greek Extended).
pub open spec fn is_greek_letter(c: char) -> bool {
    (0x370 <= (c as u32) <= 0x3ff) || (0x1f00 <= (c as u32) <= 0x1fff)
}

/// Whether a character is an ASCII (Latin) letter.
pub open spec fn is_latin_letter(c: char) -> bool {
    ('a' <= c <= 'z') || ('A' <= c <= 'Z')
}

/// How many characters of `s` are Greek letters.
pub open spec fn greek_count(s: Seq<char>) -> nat
    decreases s.len(),
{
    if s.len() == 0 {
        0
    } else {
        greek_count(s.drop_last()) + if is_greek_letter(s.last()) { 1nat } else { 0nat }
    }
}

/// How many characters of `s` are Latin letters.
pub open spec fn latin_count(s: Seq<char>) -> nat
    decreases s.len(),
{
    if s.len() == 0 {
        0
    } else {
        latin_count(s.drop_last()) + if is_latin_letter(s.last()) { 1nat } else { 0nat }
    }
}

/// The fewest letters a text needs before its language is guessed.
pub const DETECTION_MIN_LETTERS: usize = 20;

/// The language recognised in a post's text: `el` when it holds at least
/// `DETECTION_MIN_LETTERS` Greek and Latin letters and the Greek ones
/// outnumber the Latin ones; nothing otherwise (the configured default then
/// applies).
pub open spec fn detected_language(text: Seq<char>) -> Option<Seq<char>> {
    let g = greek_count(text);
    let l = latin_count(text);
    if g + l >= DETECTION_MIN_LETTERS && g > l {
        Some("el"@)
    } else {
        None
    }
}

/// A post's language: its own, sanitized, unless that is blank; else the
/// language detected from its text; else (for a short text) the configured
/// default, sanitized.
pub open spec fn post_language_spec(value: Option<Seq<char>>, default_language: Seq<char>, text: Seq<char>) -> Seq<char> {
    let fallback = match detected_language(text) {
        Some(l) => l,
        None => sanitize_spec(default_language),
    };
    match value {
        Some(v) => if sanitize_spec(v).len() > 0 {
            sanitize_spec(v)
        } else {
            fallback
        },
        None => fallback,
    }
}

/// Counts the Greek and the Latin letters of a text.
fn script_counts(text: &str) -> (r: (usize, usize))
    ensures
        r.0 == greek_count(text@),
        r.1 == latin_count(text@),
{
    let v = chars_of(text);
    let mut g: usize = 0;
    let mut l: usize = 0;
    let n = v.len();
    for i in 0..n
        invariant
            n == v@.len(),
            v@ == text@,
            g == greek_count(v@.take(i as int)),
            l == latin_count(v@.take(i as int)),
            g <= i,
            l <= i,
    {
        let c = v[i];
        assert(v@.take(i + 1).drop_last() =~= v@.take(i as int));
        assert(v@.take(i + 1).last() == c);
        if (0x370 <= (c as u32) && (c as u32) <= 0x3ff) || (0x1f00 <= (c as u32) && (c as u32) <= 0x1fff) {
            g = g + 1;
        }
        if ('a' <= c && c <= 'z') || ('A' <= c && c <= 'Z') {
            l = l + 1;
        }
    }
    assert(v@.take(n as int) =~= v@);
    (g, l)
}

/// The language detected from a post's text, if it is long enough.
pub fn detect_language(text: &str) -> (r: Option<String>)
    ensures
        crate::text::opt_view(r) == detected_language(text@),
{
    let (g, l) = script_counts(text);
    if g > l && !(g < DETECTION_MIN_LETTERS && l < DETECTION_MIN_LETTERS - g) {
        Some("el".to_owned())
    } else {
        None
    }
}

/// The language a post is filed under, from its front matter value, its
/// text (plain, without markup) and the configured default.
pub fn determine_language(value: &Option<String>, default_language: &str, text: &str) -> (r: String)
    ensures
        r@ == post_language_spec(crate::text::opt_view(*value), default_language@, text@),
{
    if let Some(explicit) = value {
        let sanitized = sanitize_language(explicit.as_str());
        if chars_of(sanitized.as_str()).len() > 0 {
            return sanitized;
        }
    }
    match detect_language(text) {
        Some(l) => l,
        None => sanitize_language(default_language),
    }
}

/// The position of the last `c` in `s`, or -1.
pub open spec fn last_index_of(s: Seq<char>, c: char) -> int
    decreases s.len(),
{
    if s.len() == 0 {
        -1
    } else if s.last() == c {
        s.len() - 1
    } else {
        last_index_of(s.drop_last(), c)
    }
}

/// The file name of a path (`Path::file_name`): its last component, unless
/// that is the root, `.` or `..`.
pub open spec fn file_name_spec(path: Seq<char>) -> Option<Seq<char>> {
    let cs = path_components(path);
    if cs.len() == 0 {
        None
    } else {
        let l = cs.last();
        if l == seq!['/'] || l == seq!['.'] || l == seq!['.', '.'] {
            None
        } else {
            Some(l)
        }
    }
}

/// The extension of a path (`Path::extension`): what follows the last `.`
/// of the file name, where that `.` is not the name's first character.
pub open spec fn extension_spec(path: Seq<char>) -> Option<Seq<char>> {
    match file_name_spec(path) {
        None => None,
        Some(name) => {
            let k = last_index_of(name, '.');
            if k <= 0 {
                None
            } else {
                Some(name.skip(k + 1))
            }
        },
    }
}

fn last_index(v: &Vec<char>, c: char) -> (r: Option<usize>)
    ensures
        match r {
            Some(k) => k as int == last_index_of(v@, c) && k < v@.len(),
            None => last_index_of(v@, c) == -1,
        },
{
    let mut i = v.len();
    assert(v@.take(i as int) =~= v@);
    while i > 0
        invariant
            i <= v@.len(),
            last_index_of(v@, c) == last_index_of(v@.take(i as int), c),
        decreases i,
    {
        assert(v@.take(i as int).drop_last() =~= v@.take(i - 1));
        if v[i - 1] == c {
            return Some(i - 1);
        }
        i = i - 1;
        assert(last_index_of(v@.take(i + 1), c) == last_index_of(v@.take(i as int), c));
    }
    assert(v@.take(0) =~= Seq::<char>::empty());
    None
}

fn is_seq2(v: &Vec<char>, a: char, b: char) -> (r: bool)
    ensures
        r == (v@ == seq![a, b]),
{
    let r = v.len() == 2 && v[0] == a && v[1] == b;
    proof {
        if v@ == seq![a, b] {
            assert(v@[0] == a && v@[1] == b);
        }
        if r {
            assert(v@ =~= seq![a, b]);
        }
    }
    r
}

fn is_seq1(v: &Vec<char>, a: char) -> (r: bool)
    ensures
        r == (v@ == seq![a]),
{
    let r = v.len() == 1 && v[0] == a;
    proof {
        if v@ == seq![a] {
            assert(v@[0] == a);
        }
        if r {
            assert(v@ =~= seq![a]);
        }
    }
    r
}

fn file_name_of(path: &Vec<char>) -> (r: Option<Vec<char>>)
    ensures
        match r {
            Some(n) => file_name_spec(path@) == Some(n@),
            None => file_name_spec(path@) is None,
        },
{
    let cs = crate::utils::components(path);
    if cs.len() == 0 {
        return None;
    }
    let last = &cs[cs.len() - 1];
    assert(views(cs@).last() == last@);
    if is_seq1(last, '/') || is_seq1(last, '.') || is_seq2(last, '.', '.') {
        return None;
    }
    Some(crate::text::copy_chars(last))
}

fn extension_of(path: &Vec<char>) -> (r: Option<Vec<char>>)
    ensures
        match r {
            Some(e) => extension_spec(path@) == Some(e@),
            None => extension_spec(path@) is None,
        },
{
    let name = match file_name_of(path) {
        Some(n) => n,
        None => return None,
    };
    let len = name.len();
    match last_index(&name, '.') {
        Some(k) => if k == 0 {
            None
        } else {
            Some(slice_chars(&name, k + 1, len))
        },
        None => None,
    }
}

/// The file name of a path, if it has one.
pub fn file_name_of_str(path: &str) -> (r: Option<String>)
    ensures
        match r {
            Some(n) => file_name_spec(path@) == Some(n@),
            None => file_name_spec(path@) is None,
        },
{
    match file_name_of(&chars_of(path)) {
        Some(n) => Some(string_of(&n)),
        None => None,
    }
}

/// The position of the last `c` in `v`, if any.
pub fn last_index_of_chars(v: &Vec<char>, c: char) -> (r: Option<usize>)
    ensures
        match r {
            Some(k) => k as int == last_index_of(v@, c) && k < v@.len(),
            None => last_index_of(v@, c) == -1,
        },
{
    last_index(v, c)
}

/// The extension of a path, if it has one.
pub fn extension_of_str(path: &str) -> (r: Option<String>)
    ensures
        match r {
            Some(e) => extension_spec(path@) == Some(e@),
            None => extension_spec(path@) is None,
        },
{
    match extension_of(&chars_of(path)) {
        Some(e) => Some(string_of(&e)),
        None => None,
    }
}

/// Whether a file is a post's main content file: its extension, in any
/// ASCII case, is `md` or `html`.
pub open spec fn is_main_file_spec(path: Seq<char>) -> bool {
    match extension_spec(path) {
        Some(e) => lower_seq(e) == "md"@ || lower_seq(e) == "html"@,
        None => false,
    }
}

/// Whether `path` names a post's main content file.
pub fn is_main_file(path: &str) -> (r: bool)
    ensures
        r == is_main_file_spec(path@),
{
    match extension_of(&chars_of(path)) {
        Some(e) => {
            let lowered = lower_chars(&e);
            chars_eq(&lowered, &chars_of("md")) || chars_eq(&lowered, &chars_of("html"))
        },
        None => false,
    }
}

/// Why a post has no slug.
#[derive(Clone, Copy, Debug, PartialEq, Eq, Structural)]
pub enum SlugIssue {
    /// No slug was given and the directory has no name.
    NoDirectoryName,
    /// The slug comes out empty.
    Empty,
}

/// A post's slug: the one its front matter gives, else its directory's
/// name, slugified; refused when it comes out empty.
pub open spec fn post_slug_spec(dir: Seq<char>, provided: Option<Seq<char>>) -> Result<Seq<char>, SlugIssue> {
    let raw = match provided {
        Some(p) => Some(p),
        None => file_name_spec(dir),
    };
    match raw {
        None => Err(SlugIssue::NoDirectoryName),
        Some(r) => if slug_spec(r).len() == 0 {
            Err(SlugIssue::Empty)
        } else {
            Ok(slug_spec(r))
        },
    }
}

/// Determines the slug of the post in directory `dir`.
pub fn determine_slug(dir: &str, provided: &Option<String>) -> (r: Result<String, SlugIssue>)
    ensures
        match r {
            Ok(s) => post_slug_spec(dir@, crate::text::opt_view(*provided)) == Ok::<Seq<char>, SlugIssue>(s@),
            Err(e) => post_slug_spec(dir@, crate::text::opt_view(*provided)) == Err::<Seq<char>, SlugIssue>(e),
        },
{
    let raw = match provided {
        Some(p) => p.clone(),
        None => match file_name_of(&chars_of(dir)) {
            Some(n) => string_of(&n),
            None => return Err(SlugIssue::NoDirectoryName),
        },
    };
    let candidate = slugify(raw.as_str());
    if chars_of(candidate.as_str()).len() == 0 {
        return Err(SlugIssue::Empty);
    }
    Ok(candidate)
}

/// Where a post is published: `/<YYYY>/<MM>/<DD>/<slug>/`.
pub open spec fn permalink_spec(year: int, month: nat, day: nat, slug: Seq<char>) -> Seq<char> {
    seq!['/'] + year_spec(year) + seq!['/'] + zero_padded(month, 2) + seq!['/'] + zero_padded(day, 2)
        + seq!['/'] + slug + seq!['/']
}

/// The permalink of a post published on the given date.
pub fn build_permalink(year: i32, month: u8, day: u8, slug: &str) -> (r: String)
    ensures
        r@ == permalink_spec(year as int, month as nat, day as nat, slug@),
{
    let mut out: Vec<char> = Vec::new();
    out.push('/');
    push_year(&mut out, year);
    out.push('/');
    push_padded(&mut out, month as u64, 2);
    out.push('/');
    push_padded(&mut out, day as u64, 2);
    out.push('/');
    extend_str(&mut out, slug);
    out.push('/');
    assert(out@ =~= permalink_spec(year as int, month as nat, day as nat, slug@));
    string_of(&out)
}

/// The cache key of a post directory's rendered body: `parsed:` and the
/// directory's path relative to the posts root (or the whole path, when it
/// is not under the root), its components joined with `/`.
pub open spec fn parsed_body_key_spec(root: Seq<char>, dir: Seq<char>) -> Seq<char> {
    let rc = path_components(root);
    let dc = path_components(dir);
    let rel = if rc.is_prefix_of(dc) { dc.skip(rc.len() as int) } else { dc };
    "parsed:"@ + join(rel, seq!['/'])
}

/// The cache key of the rendered body of the post in `dir`.
pub fn parsed_body_key(root: &str, dir: &str) -> (r: String)
    ensures
        r@ == parsed_body_key_spec(root@, dir@),
{
    let rc = crate::utils::components(&chars_of(root));
    let dc = crate::utils::components(&chars_of(dir));
    let mut is_prefix = rc.len() <= dc.len();
    let mut i: usize = 0;
    while is_prefix && i < rc.len()
        invariant
            i <= rc@.len(),
            is_prefix ==> rc@.len() <= dc@.len(),
            is_prefix ==> forall|k: int| 0 <= k < i ==> rc@[k]@ == dc@[k]@,
            !is_prefix ==> !views(rc@).is_prefix_of(views(dc@)),
        decreases rc@.len() - i,
    {
        if !chars_eq(&rc[i], &dc[i]) {
            assert(views(rc@)[i as int] != views(dc@)[i as int]);
            is_prefix = false;
        }
        i = i + 1;
    }
    proof {
        if is_prefix {
            assert(views(rc@) =~= views(dc@).take(rc@.len() as int));
        }
    }
    let from: usize = if is_prefix { rc.len() } else { 0 };
    let mut out = chars_of("parsed:");
    let n = dc.len();
    let mut k = from;
    assert(views(dc@).subrange(from as int, from as int) =~= Seq::<Seq<char>>::empty());
    while k < n
        invariant
            from <= k <= n == dc@.len(),
            out@ == "parsed:"@ + join(views(dc@).subrange(from as int, k as int), seq!['/']),
        decreases n - k,
    {
        let ghost t1 = views(dc@).subrange(from as int, k + 1);
        assert(t1.drop_last() =~= views(dc@).subrange(from as int, k as int));
        assert(t1.last() == dc@[k as int]@);
        if k > from {
            out.push('/');
        }
        extend_chars(&mut out, &dc[k]);
        assert(out@ =~= "parsed:"@ + join(t1, seq!['/']));
        k = k + 1;
    }
    assert(views(dc@).subrange(from as int, n as int) =~= (if views(rc@).is_prefix_of(views(dc@)) {
        views(dc@).skip(rc@.len() as int)
    } else {
        views(dc@)
    }));
    string_of(&out)
}

/// A line without the `\r` of a `\r\n` ending.
pub open spec fn strip_cr(p: Seq<char>) -> Seq<char> {
    if p.len() > 0 && p.last() == '\r' {
        p.drop_last()
    } else {
        p
    }
}

/// The lines of `s` as `str::lines` gives them: split at `\n`, a `\r`
/// before the `\n` dropped, and no empty line after a final `\n`.
pub open spec fn lines_spec(s: Seq<char>) -> Seq<Seq<char>> {
    let ps = split_on(s, '\n');
    let n = ps.len();
    let k = if ps.last().len() == 0 { n - 1 } else { n as int };
    Seq::new(k as nat, |i: int| if i < n - 1 { strip_cr(ps[i]) } else { ps[i] })
}

fn lines_of(v: &Vec<char>) -> (r: Vec<Vec<char>>)
    ensures
        views(r@) == lines_spec(v@),
{
    let ps = split_chars(v, '\n');
    proof {
        crate::text::lemma_split_on_nonempty(v@, '\n');
    }
    let ghost pv = views(ps@);
    let n = ps.len();
    let k = if ps[n - 1].len() == 0 { n - 1 } else { n };
    assert(pv.last() == ps@[n - 1]@);
    let mut r: Vec<Vec<char>> = Vec::new();
    for i in 0..k
        invariant
            k <= n == ps@.len() == pv.len(),
            pv == views(ps@),
            views(r@) == Seq::new(i as nat, |q: int| if q < n - 1 { strip_cr(pv[q]) } else { pv[q] }),
    {
        let p = &ps[i];
        assert(pv[i as int] == p@);
        let line = if i < n - 1 && p.len() > 0 && p[p.len() - 1] == '\r' {
            slice_chars(p, 0, p.len() - 1)
        } else {
            crate::text::copy_chars(p)
        };
        assert(line@ == (if i < n - 1 { strip_cr(pv[i as int]) } else { pv[i as int] }));
        let ghost before = r@;
        r.push(line);
        assert(views(r@) =~= views(before).push(line@));
        assert(views(r@) =~= Seq::new((i + 1) as nat, |q: int| if q < n - 1 { strip_cr(pv[q]) } else { pv[q] }));
    }
    r
}

/// The lines of a text, as `str::lines` gives them.
pub fn lines_of_str(text: &str) -> (r: Vec<Vec<char>>)
    ensures
        views(r@) == lines_spec(text@),
{
    lines_of(&chars_of(text))
}

/// The first line at or after `i` that is a `---` fence (once trimmed).
pub open spec fn fence_from(ls: Seq<Seq<char>>, i: int) -> Option<int>
    decreases ls.len() - i,
{
    if i < 0 || i >= ls.len() {
        None
    } else if trim(ls[i]) == "---"@ {
        Some(i)
    } else {
        fence_from(ls, i + 1)
    }
}

/// Why a post has no front matter block.
#[derive(Clone, Copy, Debug, PartialEq, Eq, Structural)]
pub enum FrontMatterIssue {
    /// The first line is not `---`.
    MissingStart,
    /// No later line is `---`.
    NotTerminated,
}

/// A post file split into its front matter and its body: the file must
/// open with a `---` line; the front matter is every line up to the next
/// `---` line, joined with newlines; the body is every line after it, joined
/// with newlines, without a leading empty line.
pub open spec fn front_matter_spec(raw: Seq<char>) -> Result<(Seq<char>, Seq<char>), FrontMatterIssue> {
    let ls = lines_spec(raw);
    if ls.len() == 0 || trim(ls[0]) != "---"@ {
        Err(FrontMatterIssue::MissingStart)
    } else {
        match fence_from(ls, 1) {
            None => Err(FrontMatterIssue::NotTerminated),
            Some(j) => {
                let body = join(ls.skip(j + 1), seq!['\n']);
                Ok(
                    (
                        join(ls.subrange(1, j), seq!['\n']),
                        if body.len() > 0 && body[0] == '\n' { body.drop_first() } else { body },
                    ),
                )
            },
        }
    }
}

fn join_lines(ls: &Vec<Vec<char>>, from: usize, to: usize) -> (r: Vec<char>)
    requires
        from <= to <= ls@.len(),
    ensures
        r@ == join(views(ls@).subrange(from as int, to as int), seq!['\n']),
{
    let mut out: Vec<char> = Vec::new();
    let mut i = from;
    assert(views(ls@).subrange(from as int, from as int) =~= Seq::<Seq<char>>::empty());
    while i < to
        invariant
            from <= i <= to <= ls@.len(),
            out@ == join(views(ls@).subrange(from as int, i as int), seq!['\n']),
        decreases to - i,
    {
        let ghost t1 = views(ls@).subrange(from as int, i + 1);
        assert(t1.drop_last() =~= views(ls@).subrange(from as int, i as int));
        assert(t1.last() == ls@[i as int]@);
        if i > from {
            out.push('\n');
        }
        extend_chars(&mut out, &ls[i]);
        assert(out@ =~= join(t1, seq!['\n']));
        i = i + 1;
    }
    out
}

/// Splits a post file into its front matter text and its body.
pub fn parse_front_matter(raw: &str) -> (r: Result<(String, String), FrontMatterIssue>)
    ensures
        match r {
            Ok((yaml, body)) => front_matter_spec(raw@) == Ok::<(Seq<char>, Seq<char>), FrontMatterIssue>((yaml@, body@)),
            Err(e) => front_matter_spec(raw@) == Err::<(Seq<char>, Seq<char>), FrontMatterIssue>(e),
        },
{
    let ls = lines_of(&chars_of(raw));
    let ghost lv = views(ls@);
    let fence = chars_of("---");
    if ls.len() == 0 {
        return Err(FrontMatterIssue::MissingStart);
    }
    assert(lv[0] == ls@[0]@);
    if !chars_eq(&trim_chars(&ls[0]), &fence) {
        return Err(FrontMatterIssue::MissingStart);
    }
    let n = ls.len();
    let mut j: usize = 1;
    while j < n
        invariant
            1 <= j <= n == ls@.len() == lv.len(),
            lv == views(ls@),
            lv == lines_spec(raw@),
            trim(lv[0]) == "---"@,
            fence@ == "---"@,
            fence_from(lv, 1) == fence_from(lv, j as int),
        decreases n - j,
    {
        assert(lv[j as int] == ls@[j as int]@);
        if chars_eq(&trim_chars(&ls[j]), &fence) {
            let yaml = join_lines(&ls, 1, j);
            let body = join_lines(&ls, j + 1, n);
            assert(views(ls@).subrange(j + 1, n as int) =~= lv.skip(j + 1));
            let text = if body.len() > 0 && body[0] == '\n' {
                slice_chars(&body, 1, body.len())
            } else {
                body
            };
            proof {
                if body@.len() > 0 && body@[0] == '\n' {
                    assert(text@ =~= body@.drop_first());
                }
            }
            return Ok((string_of(&yaml), string_of(&text)));
        }
        j = j + 1;
    }
    Err(FrontMatterIssue::NotTerminated)
}

/// How many of `files` are main content files.
pub open spec fn main_file_count(files: Seq<Seq<char>>) -> nat
    decreases files.len(),
{
    if files.len() == 0 {
        0
    } else {
        main_file_count(files.drop_last()) + (if is_main_file_spec(files.last()) { 1nat } else { 0nat })
    }
}

/// What the files of a directory say of its post.
#[derive(Clone, Copy, Debug, PartialEq, Eq, Structural)]
pub enum MainFile {
    /// No main content file: the directory holds no post.
    NoPost,
    /// Exactly one, at this index.
    Found(usize),
    /// Several, this many: the directory is refused.
    Several(usize),
}

/// Finds the main content file among the files of a post directory.
pub fn choose_main_file(files: &Vec<String>) -> (r: MainFile)
    ensures
        match r {
            MainFile::NoPost => main_file_count(string_views(files@)) == 0,
            MainFile::Found(i) => main_file_count(string_views(files@)) == 1 && i < files@.len()
                && is_main_file_spec(files@[i as int]@),
            MainFile::Several(n) => n == main_file_count(string_views(files@)) && n > 1,
        },
{
    let ghost fs = string_views(files@);
    let n = files.len();
    let mut count: usize = 0;
    let mut first: usize = 0;
    for i in 0..n
        invariant
            n == files@.len(),
            fs == string_views(files@),
            count == main_file_count(fs.take(i as int)),
            count <= i,
            count > 0 ==> first < i && is_main_file_spec(files@[first as int]@),
    {
        assert(fs.take(i + 1).drop_last() =~= fs.take(i as int));
        assert(fs.take(i + 1).last() == files@[i as int]@);
        if is_main_file(files[i].as_str()) {
            if count == 0 {
                first = i;
            }
            count = count + 1;
        }
    }
    assert(fs.take(n as int) =~= fs);
    if count == 0 {
        MainFile::NoPost
    } else if count == 1 {
        MainFile::Found(first)
    } else {
        MainFile::Several(count)
    }
}

/// The file whose presence keeps a directory, and everything under it, out
/// of the search for posts.
pub open spec fn ignore_marker_spec(dir: Seq<char>) -> Seq<char> {
    join_path_spec(dir, ".bcktignore"@)
}

/// Whether `dir` is `top` or lies under it, by whole components.
pub open spec fn lies_under(dir: Seq<char>, top: Seq<char>) -> bool {
    path_components(top).is_prefix_of(path_components(dir))
}

/// Whether `d` is searched for posts: no directory of `dirs` that holds the
/// marker (`marked`) is `d` or contains it.
pub open spec fn searched_dir(dirs: Seq<Seq<char>>, marked: Seq<bool>, d: Seq<char>) -> bool {
    forall|j: int| 0 <= j < dirs.len() && j < marked.len() && #[trigger] marked[j] ==> !lies_under(d, dirs[j])
}

/// The questions to ask the disk about directories found under the posts
/// directory: whether each holds the marker file.
pub open spec fn ignore_probes_spec(dirs: Seq<Seq<char>>) -> Seq<(Seq<char>, ProbeKind, Seq<char>)> {
    dirs.map_values(|d: Seq<char>| (ignore_marker_spec(d), ProbeKind::Exists, d))
}

/// Makes the probes of `ignore_probes_spec`.
pub fn ignore_probes(dirs: &Vec<String>) -> (r: Vec<Probe>)
    ensures
        probes_view(r@) == ignore_probes_spec(string_views(dirs@)),
{
    let marker = chars_of(".bcktignore");
    let mut r: Vec<Probe> = Vec::new();
    let n = dirs.len();
    for i in 0..n
        invariant
            n == dirs@.len(),
            marker@ == ".bcktignore"@,
            probes_view(r@) == ignore_probes_spec(string_views(dirs@)).take(i as int),
    {
        let d = chars_of(dirs[i].as_str());
        let ghost before = r@;
        r.push(Probe { path: string_of(&join_path(&d, &marker)), kind: ProbeKind::Exists, result: string_of(&d) });
        proof {
            let want = ignore_probes_spec(string_views(dirs@));
            assert(probes_view(r@) =~= probes_view(before).push(probe_view(r@[i as int])));
            assert(want.take(i + 1) =~= want.take(i as int).push(want[i as int]));
        }
    }
    assert(ignore_probes_spec(string_views(dirs@)).take(n as int) =~= ignore_probes_spec(string_views(dirs@)));
    r
}

/// The directories searched for posts, as indices into `dirs` in their
/// order, given which of them hold the marker file.
pub fn searched_dirs(dirs: &Vec<String>, marked: &Vec<bool>) -> (r: Vec<usize>)
    requires
        dirs@.len() == marked@.len(),
    ensures
        forall|k: int| 0 <= k < r@.len() ==> r@[k] < dirs@.len(),
        forall|a: int, b: int| 0 <= a < b < r@.len() ==> r@[a] < r@[b],
        forall|i: int|
            0 <= i < dirs@.len() ==> (r@.contains(i as usize) <==> searched_dir(
                string_views(dirs@),
                marked@,
                #[trigger] dirs@[i]@,
            )),
{
    let ghost ds = string_views(dirs@);
    let n = dirs.len();
    let mut comps: Vec<Vec<Vec<char>>> = Vec::new();
    for k in 0..n
        invariant
            n == dirs@.len(),
            comps@.len() == k,
            forall|m: int| 0 <= m < k ==> views(#[trigger] comps@[m]@) == path_components(dirs@[m]@),
    {
        comps.push(components(&chars_of(dirs[k].as_str())));
    }
    let mut r: Vec<usize> = Vec::new();
    for i in 0..n
        invariant
            n == dirs@.len() == marked@.len() == comps@.len(),
            ds == string_views(dirs@),
            forall|m: int| 0 <= m < n ==> views(#[trigger] comps@[m]@) == path_components(dirs@[m]@),
            forall|k: int| 0 <= k < r@.len() ==> r@[k] < i,
            forall|a: int, b: int| 0 <= a < b < r@.len() ==> r@[a] < r@[b],
            forall|m: int| 0 <= m < i ==> (r@.contains(m as usize) <==> searched_dir(ds, marked@, #[trigger] dirs@[m]@)),
    {
        let mut keep = true;
        for j in 0..n
            invariant
                n == dirs@.len() == marked@.len() == comps@.len(),
                i < n,
                ds == string_views(dirs@),
                forall|m: int| 0 <= m < n ==> views(#[trigger] comps@[m]@) == path_components(dirs@[m]@),
                keep <==> (forall|q: int| 0 <= q < j && #[trigger] marked@[q] ==> !lies_under(dirs@[i as int]@, ds[q])),
        {
            if marked[j] && comps_prefix(&comps[j], &comps[i]) {
                keep = false;
            }
        }
        let ghost before = r@;
        if keep {
            r.push(i);
        }
        proof {
            assert(keep <==> searched_dir(ds, marked@, dirs@[i as int]@));
            assert forall|m: int| 0 <= m <= i implies (r@.contains(m as usize) <==> searched_dir(
                ds,
                marked@,
                #[trigger] dirs@[m]@,
            )) by {
                if m < i {
                    if keep {
                        assert(r@ == before.push(i));
                        assert(r@.contains(m as usize) <==> before.contains(m as usize)) by {
                            if r@.contains(m as usize) {
                                let t = choose|t: int| 0 <= t < r@.len() && r@[t] == m as usize;
                                assert(t < before.len());
                            }
                            if before.contains(m as usize) {
                                let t = choose|t: int| 0 <= t < before.len() && before[t] == m as usize;
                                assert(r@[t] == before[t]);
                            }
                        }
                    }
                } else {
                    if keep {
                        assert(r@[r@.len() - 1] == i);
                    } else {
                        if r@.contains(m as usize) {
                            let t = choose|t: int| 0 <= t < r@.len() && r@[t] == m as usize;
                        }
                    }
                }
            }
        }
    }
    r
}

/// Whether `r` lists exactly the searched directories of `dirs`, given the
/// marker answers `marked`.
pub open spec fn lists_searched(dirs: Seq<Seq<char>>, marked: Seq<bool>, r: Seq<usize>) -> bool {
    &&& marked.len() == dirs.len()
    &&& forall|i: int| 0 <= i < dirs.len() ==> (r.contains(i as usize) <==> searched_dir(dirs, marked, #[trigger] dirs[i]))
}

/// The directories under the posts directory that are searched for posts,
/// as indices into `dirs`: each directory's marker file is asked for, and
/// the answers decide as `searched_dirs` does.
pub fn post_dirs(dirs: &Vec<String>) -> (r: Vec<usize>)
    ensures
        exists|marked: Seq<bool>| #[trigger] lists_searched(string_views(dirs@), marked, r@),
{
    let probes = ignore_probes(dirs);
    assert(probes@.len() == probes_view(probes@).len());
    assert(ignore_probes_spec(string_views(dirs@)).len() == dirs@.len());
    let marked = ask_disk(&probes);
    let r = searched_dirs(dirs, &marked);
    assert(lists_searched(string_views(dirs@), marked@, r@)) by {
        assert forall|i: int| 0 <= i < dirs@.len() implies string_views(dirs@)[i] == #[trigger] dirs@[i]@ by {}
    }
    r
}

/// A directory holding the marker file is not searched for posts, and
/// neither is any directory under it.
pub proof fn marked_directories_hide_their_subtrees(
    dirs: Seq<Seq<char>>,
    marked: Seq<bool>,
    r: Seq<usize>,
    i: int,
    j: int,
)
    requires
        lists_searched(dirs, marked, r),
        0 <= i < dirs.len(),
        0 <= j < dirs.len(),
        marked[j],
        lies_under(dirs[i], dirs[j]),
    ensures
        !r.contains(i as usize),
{
    assert(!searched_dir(dirs, marked, dirs[i]));
}

} // verus!
