//! The development server's rules: which file a request names, the live
//! reload snippet, and the poll endpoint's answers.

use vstd::prelude::*;

use crate::content::extension_spec;
use crate::text::{
    chars_eq, chars_of, contains, contains_chars, decimal, digits_value, extend_chars, extend_str,
    lemma_replace_keeps_prefix, lower_chars, lower_seq, occurs_at, push_decimal, replace, replace_chars,
    rfind_chars,
    slice_chars, split_chars, split_on, string_of, views,
};
use crate::utils::{join_path, join_path_spec, path_components};

verus! {

/// What `percent_encoding::percent_decode_str(s).decode_utf8()` gives for
/// `s`: the decoded text, or `None` where the bytes are not UTF-8.
pub uninterp spec fn percent_decoded(s: Seq<char>) -> Option<Seq<char>>;

/// Calls `percent_encoding::percent_decode_str` and `decode_utf8` on the
/// result. Claims only that the answer is a function of the text.
#[verifier::external_body]
fn percent_decode(s: &str) -> (r: Option<String>)
    ensures
        match r {
            Some(t) => percent_decoded(s@) == Some(t@),
            None => percent_decoded(s@) is None,
        },
{
    match percent_encoding::percent_decode_str(s).decode_utf8() {
        Ok(text) => Some(text.into_owned()),
        Err(_) => None,
    }
}

/// The id that marks a page as already carrying the live reload snippet.
pub open spec fn live_reload_id() -> Seq<char> {
    "__bucket3_live_reload__"@
}

/// The live reload snippet as written, polling from time zero.
pub open spec fn live_reload_template() -> Seq<char> {
    r#"<script id=\"__bucket3_live_reload__\">(function(){if(window.__bucket3LiveReload){return;}window.__bucket3LiveReload=true;let last=0;async function poll(){try{const res=await fetch('/__bucket3__/poll?since='+last+'&_='+(Date.now()),{cache:'no-store'});if(res.ok){const data=await res.json();if(typeof data.timestamp==='number'){last=data.timestamp;}if(data.reload){window.location.reload();return;}}}catch(e){}setTimeout(poll,1000);}poll();})();</script>"#@
}

/// The snippet for a page served after the change at `stamp`: polling
/// starts from that time.
pub open spec fn live_reload_snippet(stamp: nat) -> Seq<char> {
    replace(live_reload_template(), "last=0"@, "last="@ + decimal(stamp))
}

/// `s` with `t` inserted at position `k`.
pub open spec fn insert_at(s: Seq<char>, k: int, t: Seq<char>) -> Seq<char> {
    s.take(k) + t + s.skip(k)
}

/// Whether `k` is the last place `p` occurs in `s`.
pub open spec fn last_occurrence(s: Seq<char>, p: Seq<char>, k: int) -> bool {
    occurs_at(s, p, k) && forall|j: int| k < j ==> !occurs_at(s, p, j)
}

/// A page with the live reload snippet: unchanged when it has it already;
/// otherwise the snippet goes before the last `</body>`, else before the last
/// `</html>`, else at the end.
pub open spec fn inject_spec(page: Seq<char>, stamp: nat, r: Seq<char>) -> bool {
    let snippet = live_reload_snippet(stamp);
    if contains(page, live_reload_id()) {
        r == page
    } else if contains(page, "</body>"@) {
        exists|k: int| last_occurrence(page, "</body>"@, k) && r == insert_at(page, k, snippet)
    } else if contains(page, "</html>"@) {
        exists|k: int| last_occurrence(page, "</html>"@, k) && r == insert_at(page, k, snippet)
    } else {
        r == page + snippet
    }
}

/// The snippet carries the marker id, right after `<script id="`.
proof fn lemma_snippet_has_id(stamp: nat)
    ensures
        occurs_at(live_reload_snippet(stamp), live_reload_id(), 13),
{
    let t = live_reload_template();
    let p = "last=0"@;
    reveal_strlit(r#"<script id=\"__bucket3_live_reload__\">(function(){if(window.__bucket3LiveReload){return;}window.__bucket3LiveReload=true;let last=0;async function poll(){try{const res=await fetch('/__bucket3__/poll?since='+last+'&_='+(Date.now()),{cache:'no-store'});if(res.ok){const data=await res.json();if(typeof data.timestamp==='number'){last=data.timestamp;}if(data.reload){window.location.reload();return;}}}catch(e){}setTimeout(poll,1000);}poll();})();</script>"#);
    reveal_strlit("last=0");
    reveal_strlit("__bucket3_live_reload__");
    assert forall|j: int| 0 <= j < 36 implies !occurs_at(t, p, j) by {
        if occurs_at(t, p, j) {
            assert(t.subrange(j, j + 6)[4] == t[j + 4]);
            assert(t.subrange(j, j + 6)[0] == t[j]);
        }
    }
    lemma_replace_keeps_prefix(t, p, "last="@ + decimal(stamp), 36);
    let snippet = live_reload_snippet(stamp);
    assert(snippet.subrange(13, 36) =~= t.subrange(13, 36));
    assert(t.subrange(13, 36) =~= live_reload_id());
}

/// A page that carries the live reload snippet is served as it is: injecting
/// into a page twice, whatever the two change stamps, gives what injecting
/// once gave.
pub proof fn live_reload_injected_once(page: Seq<char>, first: nat, second: nat, once: Seq<char>, twice: Seq<char>)
    requires
        inject_spec(page, first, once),
        inject_spec(once, second, twice),
    ensures
        twice == once,
{
    let snippet = live_reload_snippet(first);
    lemma_snippet_has_id(first);
    let id = live_reload_id();
    if contains(page, id) {
    } else if contains(page, "</body>"@) {
        let k = choose|k: int| last_occurrence(page, "</body>"@, k) && once == insert_at(page, k, snippet);
        lemma_inserted_snippet_has_id(page, k, first);
    } else if contains(page, "</html>"@) {
        let k = choose|k: int| last_occurrence(page, "</html>"@, k) && once == insert_at(page, k, snippet);
        lemma_inserted_snippet_has_id(page, k, first);
    } else {
        lemma_inserted_snippet_has_id(page, page.len() as int, first);
        assert(insert_at(page, page.len() as int, snippet) =~= page + snippet);
    }
}

proof fn lemma_inserted_snippet_has_id(page: Seq<char>, k: int, stamp: nat)
    requires
        0 <= k <= page.len(),
    ensures
        contains(insert_at(page, k, live_reload_snippet(stamp)), live_reload_id()),
{
    let snippet = live_reload_snippet(stamp);
    lemma_snippet_has_id(stamp);
    let once = insert_at(page, k, snippet);
    reveal_strlit("__bucket3_live_reload__");
    assert(once.subrange(k + 13, k + 36) =~= snippet.subrange(13, 36));
    assert(occurs_at(once, live_reload_id(), k + 13));
}

fn snippet(stamp: u64) -> (r: Vec<char>)
    ensures
        r@ == live_reload_snippet(stamp as nat),
{
    let template = chars_of(
        r#"<script id=\"__bucket3_live_reload__\">(function(){if(window.__bucket3LiveReload){return;}window.__bucket3LiveReload=true;let last=0;async function poll(){try{const res=await fetch('/__bucket3__/poll?since='+last+'&_='+(Date.now()),{cache:'no-store'});if(res.ok){const data=await res.json();if(typeof data.timestamp==='number'){last=data.timestamp;}if(data.reload){window.location.reload();return;}}}catch(e){}setTimeout(poll,1000);}poll();})();</script>"#,
    );
    let pattern = chars_of("last=0");
    proof {
        reveal_strlit("last=0");
    }
    let mut with = chars_of("last=");
    push_decimal(&mut with, stamp);
    replace_chars(&template, &pattern, &with)
}

fn insert_chars(v: &Vec<char>, k: usize, t: &Vec<char>) -> (r: Vec<char>)
    requires
        k <= v@.len(),
    ensures
        r@ == insert_at(v@, k as int, t@),
{
    let mut r = slice_chars(v, 0, k);
    extend_chars(&mut r, t);
    extend_chars(&mut r, &slice_chars(v, k, v.len()));
    r
}

/// Adds the live reload snippet to a page served after the change at
/// `stamp`.
pub fn inject_live_reload(html: &str, stamp: u64) -> (r: String)
    ensures
        inject_spec(html@, stamp as nat, r@),
{
    let page = chars_of(html);
    if contains_chars(&page, &chars_of("__bucket3_live_reload__")) {
        return html.to_owned();
    }
    let s = snippet(stamp);
    if let Some(k) = rfind_chars(&page, &chars_of("</body>")) {
        proof {
            reveal_strlit("</body>");
        }
        assert(k <= page@.len());
        return string_of(&insert_chars(&page, k, &s));
    }
    if let Some(k) = rfind_chars(&page, &chars_of("</html>")) {
        proof {
            reveal_strlit("</html>");
        }
        assert(k <= page@.len());
        return string_of(&insert_chars(&page, k, &s));
    }
    let mut out = page;
    extend_chars(&mut out, &s);
    string_of(&out)
}

/// A request URL split at its first `?` into path and query.
pub open spec fn split_url_spec(url: Seq<char>) -> (Seq<char>, Option<Seq<char>>) {
    let ps = split_on(url, '?');
    if ps.len() > 1 {
        (ps[0], Some(url.skip(ps[0].len() as int + 1)))
    } else {
        (url, None)
    }
}

/// Splits a request URL into its path and its query, at the first `?`.
pub fn split_url(url: &str) -> (r: (String, Option<String>))
    ensures
        (r.0@, crate::text::opt_view(r.1)) == split_url_spec(url@),
{
    let v = chars_of(url);
    let ps = split_chars(&v, '?');
    proof {
        crate::text::lemma_split_on_nonempty(v@, '?');
    }
    assert(views(ps@)[0] == ps@[0]@);
    if ps.len() > 1 {
        proof {
            lemma_first_piece(v@, '?');
        }
        let first = ps[0].len();
        let n = v.len();
        assert(first < n);
        let rest = slice_chars(&v, first + 1, n);
        (string_of(&ps[0]), Some(string_of(&rest)))
    } else {
        (url.to_owned(), None)
    }
}

/// When a string splits into more than one piece, the first piece is
/// followed by the separator.
proof fn lemma_first_piece(s: Seq<char>, sep: char)
    requires
        split_on(s, sep).len() > 1,
    ensures
        split_on(s, sep)[0].len() < s.len(),
        s[split_on(s, sep)[0].len() as int] == sep,
        s.take(split_on(s, sep)[0].len() as int) == split_on(s, sep)[0],
    decreases s.len(),
{
    let pre = split_on(s.drop_last(), sep);
    crate::text::lemma_split_on_nonempty(s.drop_last(), sep);
    if pre.len() > 1 {
        lemma_first_piece(s.drop_last(), sep);
        assert(split_on(s, sep)[0] == pre[0]);
        assert(s.take(pre[0].len() as int) =~= s.drop_last().take(pre[0].len() as int));
    } else {
        assert(s.last() == sep);
        lemma_single_piece(s.drop_last(), sep);
        assert(split_on(s, sep)[0] == s.drop_last());
        assert(s.take(s.len() - 1) =~= s.drop_last());
    }
}

/// When a string splits into one piece, that piece is the string.
proof fn lemma_single_piece(s: Seq<char>, sep: char)
    requires
        split_on(s, sep).len() == 1,
    ensures
        split_on(s, sep)[0] == s,
    decreases s.len(),
{
    if s.len() > 0 {
        let pre = split_on(s.drop_last(), sep);
        crate::text::lemma_split_on_nonempty(s.drop_last(), sep);
        assert(s.last() != sep);
        lemma_single_piece(s.drop_last(), sep);
        assert(s =~= s.drop_last().push(s.last()));
    }
}

/// Why a `since` value could not be read from a poll query.
#[derive(Clone, Copy, Debug, PartialEq, Eq, Structural)]
pub enum SinceIssue {
    /// No `since=` pair.
    Missing,
    /// The value is not valid percent-encoded UTF-8.
    Undecodable,
    /// The value is not a number.
    NotANumber,
}

/// The `since` value of a query, from its first `since=` pair.
pub open spec fn since_from(pairs: Seq<Seq<char>>, i: int) -> Result<int, SinceIssue>
    decreases pairs.len() - i,
{
    if i < 0 || i >= pairs.len() {
        Err(SinceIssue::Missing)
    } else {
        let (key, value) = split_url_spec_at(pairs[i], '=');
        if value is Some && key == "since"@ {
            match percent_decoded(value->0) {
                None => Err(SinceIssue::Undecodable),
                Some(d) => match crate::text::parse_unsigned_spec(d, u64::MAX as int) {
                    None => Err(SinceIssue::NotANumber),
                    Some(n) => Ok(n),
                },
            }
        } else {
            since_from(pairs, i + 1)
        }
    }
}

/// `s` split at its first `sep` (`str::split_once`).
pub open spec fn split_url_spec_at(s: Seq<char>, sep: char) -> (Seq<char>, Option<Seq<char>>) {
    let ps = split_on(s, sep);
    if ps.len() > 1 {
        (ps[0], Some(s.skip(ps[0].len() as int + 1)))
    } else {
        (s, None)
    }
}

fn split_once(v: &Vec<char>, sep: char) -> (r: (Vec<char>, Option<Vec<char>>))
    ensures
        (r.0@, match r.1 {
            Some(x) => Some(x@),
            None => None,
        }) == split_url_spec_at(v@, sep),
{
    let ps = split_chars(v, sep);
    proof {
        crate::text::lemma_split_on_nonempty(v@, sep);
    }
    assert(views(ps@)[0] == ps@[0]@);
    if ps.len() > 1 {
        proof {
            lemma_first_piece(v@, sep);
        }
        let first = ps[0].len();
        let n = v.len();
        assert(first < n);
        (crate::text::copy_chars(&ps[0]), Some(slice_chars(v, first + 1, n)))
    } else {
        (crate::text::copy_chars(v), None)
    }
}

/// `s` split at its first `sep` (`str::split_once`).
pub fn split_once_str(s: &str, sep: char) -> (r: (String, Option<String>))
    ensures
        (r.0@, crate::text::opt_view(r.1)) == split_url_spec_at(s@, sep),
{
    let (a, b) = split_once(&chars_of(s), sep);
    let rest = match b {
        Some(x) => Some(string_of(&x)),
        None => None,
    };
    (string_of(&a), rest)
}

/// Reads the `since` timestamp of a poll query (`since=<n>` among
/// `&`-separated pairs, percent-decoded).
pub fn parse_since(query: &str) -> (r: Result<u64, SinceIssue>)
    ensures
        match r {
            Ok(n) => since_from(split_on(query@, '&'), 0) == Ok::<int, SinceIssue>(n as int),
            Err(e) => since_from(split_on(query@, '&'), 0) == Err::<int, SinceIssue>(e),
        },
{
    let pairs = split_chars(&chars_of(query), '&');
    let ghost pv = views(pairs@);
    let key_name = chars_of("since");
    let n = pairs.len();
    for i in 0..n
        invariant
            n == pairs@.len() == pv.len(),
            pv == views(pairs@),
            pv == split_on(query@, '&'),
            key_name@ == "since"@,
            since_from(pv, 0) == since_from(pv, i as int),
    {
        assert(pv[i as int] == pairs@[i as int]@);
        let (key, value) = split_once(&pairs[i], '=');
        if let Some(value) = value {
            if chars_eq(&key, &key_name) {
                let decoded = match percent_decode(string_of(&value).as_str()) {
                    Some(d) => d,
                    None => return Err(SinceIssue::Undecodable),
                };
                return match crate::text::parse_unsigned(&chars_of(decoded.as_str()), u64::MAX) {
                    Some(x) => Ok(x),
                    None => Err(SinceIssue::NotANumber),
                };
            }
        }
    }
    Err(SinceIssue::Missing)
}

/// The poll endpoint's answer, as JSON: whether the page should reload (a
/// change happened after the `since` of the query, zero when there is none)
/// and the time of the latest change.
pub open spec fn poll_reply_spec(query: Option<Seq<char>>, current: nat) -> Seq<char> {
    let since: int = match query {
        Some(q) => match since_from(split_on(q, '&'), 0) {
            Ok(n) => n,
            Err(_) => 0,
        },
        None => 0,
    };
    "{\"reload\":"@ + (if current > since { "true"@ } else { "false"@ }) + ",\"timestamp\":"@ + decimal(current)
        + "}"@
}

/// Answers a poll for changes after the one at `current`.
pub fn poll_reply(query: &Option<String>, current: u64) -> (r: String)
    ensures
        r@ == poll_reply_spec(crate::text::opt_view(*query), current as nat),
{
    let since: u64 = match query {
        Some(q) => match parse_since(q.as_str()) {
            Ok(n) => n,
            Err(_) => 0,
        },
        None => 0,
    };
    let mut out = chars_of("{\"reload\":");
    if current > since {
        extend_str(&mut out, "true");
    } else {
        extend_str(&mut out, "false");
    }
    extend_str(&mut out, ",\"timestamp\":");
    push_decimal(&mut out, current);
    extend_str(&mut out, "}");
    string_of(&out)
}

/// The essence (`type/subtype`) of the first media type `mime_guess` has
/// for a path's extension, or `application/octet-stream` when it has none.
pub uninterp spec fn guessed_mime_essence(path: Seq<char>) -> Seq<char>;

/// Calls `mime_guess::from_path(..).first_or_octet_stream()` and takes the
/// type's `essence_str`. Claims only that the answer is a function of the
/// path (the crate looks at its extension alone).
#[verifier::external_body]
fn guess_mime_essence(path: &str) -> (r: String)
    ensures
        r@ == guessed_mime_essence(path@),
{
    mime_guess::from_path(path).first_or_octet_stream().essence_str().to_owned()
}

/// The `Content-Type` a served file gets: HTML as UTF-8 text, anything else
/// by the media type guessed from its path.
pub open spec fn content_type_spec(path: Seq<char>, is_html: bool) -> Seq<char> {
    if is_html {
        "text/html; charset=utf-8"@
    } else {
        guessed_mime_essence(path)
    }
}

/// The `Content-Type` header value for a file the server sends.
pub fn content_type(path: &str, is_html: bool) -> (r: String)
    ensures
        r@ == content_type_spec(path@, is_html),
{
    if is_html {
        proof {
            reveal_strlit("text/html; charset=utf-8");
        }
        "text/html; charset=utf-8".to_owned()
    } else {
        guess_mime_essence(path)
    }
}

/// Why a request path was refused.
#[derive(Clone, Copy, Debug, PartialEq, Eq, Structural)]
pub enum PathRejected {
    /// The path is not valid percent-encoded UTF-8.
    Undecodable,
    /// It is absolute or climbs out with `..`.
    Escapes,
}

/// The file a request path names, relative to the site root: the path
/// before any `?`, without one leading `/`, percent-decoded; `index.html`
/// when empty; refused when it is absolute or holds `..`; `.` components
/// dropped.
pub open spec fn request_target(raw: Seq<char>) -> Result<Seq<char>, PathRejected> {
    let p0 = split_on(raw, '?')[0];
    let p = if p0.len() > 0 && p0[0] == '/' { p0.drop_first() } else { p0 };
    match percent_decoded(p) {
        None => Err(PathRejected::Undecodable),
        Some(d) => if d.len() == 0 {
            Ok("index.html"@)
        } else {
            let cs = path_components(d);
            if cs.len() > 0 && cs[0] == seq!['/'] {
                Err(PathRejected::Escapes)
            } else {
                let rest = if cs.len() > 0 && cs[0] == seq!['.'] { cs.drop_first() } else { cs };
                if rest.contains(seq!['.', '.']) {
                    Err(PathRejected::Escapes)
                } else {
                    Ok(crate::text::join(rest, seq!['/']))
                }
            }
        },
    }
}

/// The target of a request the server accepts never leaves the site root:
/// it is not absolute and none of its components is `..`.
pub proof fn request_target_stays_inside(raw: Seq<char>)
    requires
        request_target(raw) is Ok,
    ensures
        ({
            let t = request_target(raw)->Ok_0;
            &&& !(t.len() > 0 && t[0] == '/')
            &&& !path_components(t).contains(seq!['.', '.'])
        }),
{
    let p0 = split_on(raw, '?')[0];
    let p = if p0.len() > 0 && p0[0] == '/' { p0.drop_first() } else { p0 };
    let d = percent_decoded(p)->Some_0;
    let t = request_target(raw)->Ok_0;
    if d.len() == 0 {
        reveal_strlit("index.html");
        assert(!"index.html"@.contains('/'));
        crate::text::lemma_split_on_whole("index.html"@, '/');
        crate::utils::lemma_kept_all(seq!["index.html"@]);
        assert(!seq!["index.html"@].contains(seq!['.', '.'])) by {
            if seq!["index.html"@].contains(seq!['.', '.']) {
                assert(seq!["index.html"@][0] == seq!['.', '.']);
                assert("index.html"@[1] == 'n');
            }
        }
    } else {
        crate::utils::lemma_relative_rejoined(d);
    }
}

/// Whether a path's extension is `html`, in any ASCII case.
pub open spec fn is_html_spec(path: Seq<char>) -> bool {
    match extension_spec(path) {
        Some(e) => lower_seq(e) == "html"@,
        None => false,
    }
}

fn safe_join(d: &Vec<char>) -> (r: Result<Vec<char>, PathRejected>)
    requires
        d@.len() > 0,
    ensures
        ({
            let cs = path_components(d@);
            let expected: Result<Seq<char>, PathRejected> = if cs.len() > 0 && cs[0] == seq!['/'] {
                Err(PathRejected::Escapes)
            } else {
                let rest = if cs.len() > 0 && cs[0] == seq!['.'] { cs.drop_first() } else { cs };
                if rest.contains(seq!['.', '.']) {
                    Err(PathRejected::Escapes)
                } else {
                    Ok(crate::text::join(rest, seq!['/']))
                }
            };
            match r {
                Ok(v) => expected == Ok::<Seq<char>, PathRejected>(v@),
                Err(e) => expected == Err::<Seq<char>, PathRejected>(e),
            }
        }),
{
    let name = string_of(d);
    match crate::theme::safe_relative_path(name.as_str()) {
        Some(p) => Ok(chars_of(p.as_str())),
        None => {
            let cs = crate::utils::components(d);
            if cs.len() > 0 && cs[0].len() == 1 && cs[0][0] == '/' {
                assert(views(cs@)[0] == cs@[0]@);
                assert(cs@[0]@ =~= seq!['/']);
                return Err(PathRejected::Escapes);
            }
            proof {
                if cs@.len() > 0 {
                    assert(views(cs@)[0] == cs@[0]@);
                    if cs@[0]@ == seq!['/'] {
                        assert(cs@[0]@[0] == '/');
                    }
                }
            }
            let skip: usize = if cs.len() > 0 && cs[0].len() == 1 && cs[0][0] == '.' { 1 } else { 0 };
            proof {
                if cs@.len() > 0 && cs@[0]@ == seq!['.'] {
                    assert(cs@[0]@[0] == '.');
                }
                if skip == 1 {
                    assert(cs@[0]@ =~= seq!['.']);
                }
            }
            let rest_len = cs.len() - skip;
            if rest_len == 0 {
                assert(views(cs@).subrange(skip as int, cs@.len() as int) =~= Seq::<Seq<char>>::empty());
                if skip == 1 {
                    assert(views(cs@).drop_first() =~= Seq::<Seq<char>>::empty());
                }
                return Ok(Vec::new());
            }
            Err(PathRejected::Escapes)
        },
    }
}

/// What is served for a request whose file would be `candidate`: its
/// `index.html` (HTML) when the candidate is a directory, else the candidate
/// itself, HTML when its extension says so.
pub open spec fn target_choice(candidate: Seq<char>, is_dir: bool) -> (Seq<char>, bool) {
    if is_dir {
        (join_path_spec(candidate, "index.html"@), true)
    } else {
        (candidate, is_html_spec(candidate))
    }
}

/// The file to serve and whether it is HTML, given whether the candidate
/// path is a directory.
pub fn choose_target(candidate: &str, is_dir: bool) -> (r: (String, bool))
    ensures
        (r.0@, r.1) == target_choice(candidate@, is_dir),
{
    if is_dir {
        let index = join_path(&chars_of(candidate), &chars_of("index.html"));
        return (string_of(&index), true);
    }
    let html = match crate::content::extension_of_str(candidate) {
        Some(e) => chars_eq(&lower_chars(&chars_of(e.as_str())), &chars_of("html")),
        None => false,
    };
    proof {
        reveal_strlit("html");
    }
    (candidate.to_owned(), html)
}

/// The path under the site root that a request names (before asking whether
/// it is a directory), or why the request is refused.
pub fn request_candidate(html_root: &str, raw_path: &str) -> (r: Result<String, PathRejected>)
    ensures
        match r {
            Err(e) => request_target(raw_path@) == Err::<Seq<char>, PathRejected>(e),
            Ok(c) => request_target(raw_path@) is Ok && c@ == join_path_spec(html_root@, request_target(raw_path@)->Ok_0),
        },
{
    let raw = chars_of(raw_path);
    let parts = split_chars(&raw, '?');
    proof {
        crate::text::lemma_split_on_nonempty(raw@, '?');
    }
    assert(views(parts@)[0] == parts@[0]@);
    let p0 = &parts[0];
    let p = if p0.len() > 0 && p0[0] == '/' {
        slice_chars(p0, 1, p0.len())
    } else {
        crate::text::copy_chars(p0)
    };
    proof {
        if p0@.len() > 0 && p0@[0] == '/' {
            assert(p@ =~= p0@.drop_first());
        }
    }
    let decoded = match percent_decode(string_of(&p).as_str()) {
        Some(d) => chars_of(d.as_str()),
        None => return Err(PathRejected::Undecodable),
    };
    let safe = if decoded.len() == 0 {
        chars_of("index.html")
    } else {
        match safe_join(&decoded) {
            Ok(s) => s,
            Err(e) => return Err(e),
        }
    };
    Ok(string_of(&join_path(&chars_of(html_root), &safe)))
}

/// Resolves a request path to the file to serve and whether it is HTML.
/// The disk is asked whether `request_candidate`'s path is a directory;
/// `choose_target` decides from the answer.
pub fn resolve_path(html_root: &str, raw_path: &str) -> (r: Result<(String, bool), PathRejected>)
    ensures
        match r {
            Err(e) => request_target(raw_path@) == Err::<Seq<char>, PathRejected>(e),
            Ok((p, html)) => request_target(raw_path@) is Ok && exists|is_dir: bool|
                #![trigger target_choice(join_path_spec(html_root@, request_target(raw_path@)->Ok_0), is_dir)]
                (p@, html) == target_choice(join_path_spec(html_root@, request_target(raw_path@)->Ok_0), is_dir),
        },
{
    let candidate = match request_candidate(html_root, raw_path) {
        Ok(c) => c,
        Err(e) => return Err(e),
    };
    let is_dir = crate::disk::path_is_dir(candidate.as_str());
    let r = choose_target(candidate.as_str(), is_dir);
    Ok(r)
}

/// The render plan the development server uses, for its first render and
/// for each rebuild: posts and static assets, incremental unless a full
/// rebuild is forced.
pub fn dev_plan(args: &crate::cli::DevArgs) -> (r: crate::render::plan::RenderPlan)
    ensures
        r.posts && r.static_assets,
        r.verbose == args.verbose,
        r.mode == (if args.force {
            crate::render::plan::BuildMode::Full
        } else {
            crate::render::plan::BuildMode::Changed
        }),
{
    crate::render::plan::RenderPlan {
        posts: true,
        static_assets: true,
        mode: if args.force {
            crate::render::plan::BuildMode::Full
        } else {
            crate::render::plan::BuildMode::Changed
        },
        verbose: args.verbose,
    }
}

} // verus!
