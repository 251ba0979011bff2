//! Turning a Farcaster cast into a post: cast ids, handles, quotes, media
//! kinds, timestamps and the post file itself.

use vstd::prelude::*;

use crate::content::{lines_spec, lines_of_str};
use crate::dev::split_url_spec_at;
use crate::text::{
    chars_eq, chars_of, ends_with, extend_chars, extend_str, lower_chars, lower_seq, occurs_at,
    split_chars, split_on, starts_with, string_of, strip_leading, strip_leading_chars, trim,
    trim_chars, trim_end, trim_end_chars, views,
};

verus! {

/// Why a cast id was refused.
#[derive(Clone, Copy, Debug, PartialEq, Eq, Structural)]
pub enum CastIdIssue {
    /// There is no `/` between user name and hash.
    MissingHash,
    /// The user name or the hash is empty.
    Malformed,
}

/// A cast id `username/hash` split at its first `/`.
pub open spec fn castid_spec(input: Seq<char>) -> Result<(Seq<char>, Seq<char>), CastIdIssue> {
    let (user, rest) = split_url_spec_at(input, '/');
    match rest {
        None => Err(CastIdIssue::MissingHash),
        Some(hash) => if user.len() == 0 || hash.len() == 0 {
            Err(CastIdIssue::Malformed)
        } else {
            Ok((user, hash))
        },
    }
}

/// Reads a cast id of the form `username/hash`.
pub fn parse_castid(input: &str) -> (r: Result<(String, String), CastIdIssue>)
    ensures
        match r {
            Ok((u, h)) => castid_spec(input@) == Ok::<(Seq<char>, Seq<char>), CastIdIssue>((u@, h@)),
            Err(e) => castid_spec(input@) == Err::<(Seq<char>, Seq<char>), CastIdIssue>(e),
        },
{
    let (user, rest) = crate::dev::split_once_str(input, '/');
    match rest {
        None => Err(CastIdIssue::MissingHash),
        Some(hash) => if chars_of(user.as_str()).len() == 0 || chars_of(hash.as_str()).len() == 0 {
            Err(CastIdIssue::Malformed)
        } else {
            Ok((user, hash))
        },
    }
}

/// A user name as a handle: trimmed, with exactly the one leading `@` it
/// had, or `@` added.
pub open spec fn handle_spec(input: Seq<char>) -> Seq<char> {
    let t = trim(input);
    if t.len() > 0 && t[0] == '@' {
        t
    } else {
        seq!['@'] + strip_leading(t, '@')
    }
}

/// Makes a handle (`@name`) of a user name.
pub fn ensure_handle(input: &str) -> (r: String)
    ensures
        r@ == handle_spec(input@),
{
    let t = trim_chars(&chars_of(input));
    if t.len() > 0 && t[0] == '@' {
        return string_of(&t);
    }
    let mut out: Vec<char> = Vec::new();
    out.push('@');
    extend_chars(&mut out, &strip_leading_chars(&t, '@'));
    string_of(&out)
}

/// One quoted line: `>` alone for a blank line, else `> ` and the line
/// without trailing whitespace.
pub open spec fn quote_line(line: Seq<char>) -> Seq<char> {
    if trim_end(line).len() == 0 {
        seq!['>', '\n']
    } else {
        "> "@ + trim_end(line) + seq!['\n']
    }
}

/// The quoted lines, in order.
pub open spec fn quote_lines(ls: Seq<Seq<char>>) -> Seq<char>
    decreases ls.len(),
{
    if ls.len() == 0 {
        Seq::<char>::empty()
    } else {
        quote_lines(ls.drop_last()) + quote_line(ls.last())
    }
}

/// What quoting `text` by `username` adds to a body: nothing for text
/// without lines; otherwise each line quoted, then a quoted attribution.
pub open spec fn quote_spec(username: Seq<char>, text: Seq<char>) -> Seq<char> {
    let ls = lines_spec(text);
    if ls.len() == 0 {
        Seq::<char>::empty()
    } else {
        quote_lines(ls) + ">\n> --"@ + username + seq!['\n']
    }
}

/// Appends `text` to `body` as a quote attributed to `username`.
pub fn append_quote(body: &mut String, username: &str, text: &str)
    ensures
        final(body)@ == old(body)@ + quote_spec(username@, text@),
{
    let ls = lines_of_str(text);
    if ls.len() == 0 {
        return;
    }
    let mut out = chars_of(body.as_str());
    let ghost start = out@;
    let n = ls.len();
    for i in 0..n
        invariant
            n == ls@.len(),
            views(ls@) == lines_spec(text@),
            out@ == start + quote_lines(views(ls@).take(i as int)),
    {
        let trimmed = trim_end_chars(&ls[i]);
        if trimmed.len() == 0 {
            out.push('>');
        } else {
            extend_str(&mut out, "> ");
            extend_chars(&mut out, &trimmed);
        }
        out.push('\n');
        assert(views(ls@).take(i + 1).drop_last() =~= views(ls@).take(i as int));
        assert(views(ls@).take(i + 1).last() == ls@[i as int]@);
        assert(out@ =~= start + quote_lines(views(ls@).take(i + 1)));
    }
    assert(views(ls@).take(n as int) =~= views(ls@));
    extend_str(&mut out, ">\n> --");
    extend_str(&mut out, username);
    out.push('\n');
    *body = string_of(&out);
}

/// The media type of a `Content-Type` value: what precedes any `;`,
/// trimmed.
pub open spec fn media_type(mime: Seq<char>) -> Seq<char> {
    trim(split_on(mime, ';')[0])
}

fn media_type_of(mime: &str) -> (r: Vec<char>)
    ensures
        r@ == media_type(mime@),
{
    let v = chars_of(mime);
    let parts = split_chars(&v, ';');
    proof {
        crate::text::lemma_split_on_nonempty(v@, ';');
    }
    assert(views(parts@)[0] == parts@[0]@);
    trim_chars(&parts[0])
}

/// The file extension for an image media type: its subtype without any
/// `+suffix`, `jpg` for `jpeg`; `None` when it is not an image.
pub open spec fn image_extension_spec(mime: Seq<char>) -> Option<Seq<char>> {
    let raw = media_type(mime);
    if !starts_with(raw, "image/"@) {
        None
    } else {
        let sub = split_on(raw.skip(6), '+')[0];
        if sub == "jpeg"@ || sub == "jpg"@ {
            Some("jpg"@)
        } else {
            Some(sub)
        }
    }
}

/// The file extension to save an image of this media type with.
pub fn image_extension_from_mime(mime: &str) -> (r: Option<String>)
    ensures
        crate::text::opt_view(r) == image_extension_spec(mime@),
{
    let raw = media_type_of(mime);
    let prefix = chars_of("image/");
    proof {
        reveal_strlit("image/");
    }
    if !crate::text::matches_at(&raw, &prefix, 0) {
        return None;
    }
    let rest = crate::text::slice_chars(&raw, 6, raw.len());
    let parts = split_chars(&rest, '+');
    proof {
        crate::text::lemma_split_on_nonempty(rest@, '+');
    }
    assert(views(parts@)[0] == parts@[0]@);
    assert(rest@ =~= raw@.skip(6));
    let sub = &parts[0];
    if chars_eq(sub, &chars_of("jpeg")) || chars_eq(sub, &chars_of("jpg")) {
        Some("jpg".to_owned())
    } else {
        Some(string_of(sub))
    }
}

/// Whether a media type is a video: any `video/` type, or one of the
/// streaming playlist and transport types.
pub open spec fn is_video_mime_spec(mime: Seq<char>) -> bool {
    let n = lower_seq(media_type(mime));
    ||| starts_with(n, "video/"@)
    ||| n == "application/vnd.apple.mpegurl"@
    ||| n == "application/x-mpegurl"@
    ||| n == "application/dash+xml"@
    ||| n == "application/mp2t"@
}

/// Whether a `Content-Type` value names a video.
pub fn is_video_mime(mime: &str) -> (r: bool)
    ensures
        r == is_video_mime_spec(mime@),
{
    let n = lower_chars(&media_type_of(mime));
    crate::text::matches_at(&n, &chars_of("video/"), 0) || chars_eq(&n, &chars_of("application/vnd.apple.mpegurl"))
        || chars_eq(&n, &chars_of("application/x-mpegurl")) || chars_eq(&n, &chars_of("application/dash+xml"))
        || chars_eq(&n, &chars_of("application/mp2t"))
}

/// The file endings of videos and playlists.
pub open spec fn video_extensions() -> Seq<Seq<char>> {
    seq![".m3u8"@, ".m3u"@, ".mp4"@, ".mov"@, ".webm"@, ".mkv"@, ".avi"@, ".mpg"@, ".mpeg"@, ".ogv"@]
}

/// Whether a URL (already lowercased) points at a video file: its path,
/// before any `?`, ends with a video extension.
pub open spec fn looks_like_video_url_spec(url: Seq<char>) -> bool {
    let path = split_on(url, '?')[0];
    exists|k: int| 0 <= k < video_extensions().len() && ends_with(path, #[trigger] video_extensions()[k])
}

fn ends_with_chars(v: &Vec<char>, p: &Vec<char>) -> (r: bool)
    ensures
        r == ends_with(v@, p@),
{
    if p.len() > v.len() {
        return false;
    }
    crate::text::matches_at(v, p, v.len() - p.len())
}

/// Whether a URL looks like it points at a video file.
pub fn looks_like_video_url(url: &str) -> (r: bool)
    ensures
        r == looks_like_video_url_spec(url@),
{
    let v = chars_of(url);
    let parts = split_chars(&v, '?');
    proof {
        crate::text::lemma_split_on_nonempty(v@, '?');
    }
    assert(views(parts@)[0] == parts@[0]@);
    let path = &parts[0];
    let exts: [&str; 10] = [".m3u8", ".m3u", ".mp4", ".mov", ".webm", ".mkv", ".avi", ".mpg", ".mpeg", ".ogv"];
    assert(exts@.map_values(|e: &str| e@) =~= video_extensions());
    for k in 0..10
        invariant
            exts@.map_values(|e: &str| e@) == video_extensions(),
            path@ == split_on(url@, '?')[0],
            forall|q: int| 0 <= q < k ==> !ends_with(path@, #[trigger] video_extensions()[q]),
    {
        assert(exts@[k as int]@ == video_extensions()[k as int]);
        if ends_with_chars(path, &chars_of(exts[k])) {
            return true;
        }
    }
    false
}

/// A Farcaster timestamp in Unix seconds: values from 10^10 up are
/// milliseconds since the Unix epoch; smaller ones are seconds since the
/// Farcaster epoch (2021-01-01); negative ones are refused.
pub open spec fn epoch_seconds_spec(value: int) -> Option<int> {
    if value >= 10_000_000_000 {
        Some(value / 1000)
    } else if value >= 0 {
        Some(value + 1_609_459_200)
    } else {
        None
    }
}

/// Converts a Farcaster timestamp to Unix seconds.
pub fn epoch_seconds(value: i64) -> (r: Option<i64>)
    ensures
        match r {
            Some(s) => epoch_seconds_spec(value as int) == Some(s as int),
            None => epoch_seconds_spec(value as int) is None,
        },
{
    if value >= 10_000_000_000 {
        Some(value / 1000)
    } else if value >= 0 {
        Some(value + 1_609_459_200)
    } else {
        None
    }
}

/// One front matter list (`key:` then `  - item` lines), or nothing for an
/// empty list.
pub open spec fn yaml_list(key: Seq<char>, items: Seq<Seq<char>>) -> Seq<char> {
    if items.len() == 0 {
        Seq::<char>::empty()
    } else {
        key + ":\n"@ + list_items(items)
    }
}

/// The `  - item` lines of a list.
pub open spec fn list_items(items: Seq<Seq<char>>) -> Seq<char>
    decreases items.len(),
{
    if items.len() == 0 {
        Seq::<char>::empty()
    } else {
        list_items(items.drop_last()) + "  - "@ + items.last() + seq!['\n']
    }
}

fn push_list(out: &mut Vec<char>, key: &str, items: &Vec<String>)
    ensures
        final(out)@ == old(out)@ + yaml_list(key@, crate::text::string_views(items@)),
{
    let n = items.len();
    if n == 0 {
        return;
    }
    extend_str(out, key);
    extend_str(out, ":\n");
    let ghost start = out@;
    for i in 0..n
        invariant
            n == items@.len(),
            out@ == start + list_items(crate::text::string_views(items@).take(i as int)),
    {
        extend_str(out, "  - ");
        extend_str(out, items[i].as_str());
        out.push('\n');
        assert(crate::text::string_views(items@).take(i + 1).drop_last() =~= crate::text::string_views(items@).take(i as int));
        assert(out@ =~= start + list_items(crate::text::string_views(items@).take(i + 1)));
    }
    assert(crate::text::string_views(items@).take(n as int) =~= crate::text::string_views(items@));
}

/// The lines of one front matter list: `key:` then an `  - item` line per
/// item; none for an empty list.
pub open spec fn list_lines(key: Seq<char>, items: Seq<Seq<char>>) -> Seq<Seq<char>> {
    if items.len() == 0 {
        Seq::<Seq<char>>::empty()
    } else {
        seq![key + seq![':']] + items.map_values(|item: Seq<char>| "  - "@ + item)
    }
}

proof fn lemma_list_items_text(items: Seq<Seq<char>>)
    ensures
        list_items(items) == crate::post::document::lines_text(items.map_values(|item: Seq<char>| "  - "@ + item)),
    decreases items.len(),
{
    if items.len() > 0 {
        lemma_list_items_text(items.drop_last());
        let f = |item: Seq<char>| "  - "@ + item;
        assert(items.map_values(f).drop_last() =~= items.drop_last().map_values(f));
        assert(items.map_values(f).last() == "  - "@ + items.last());
        assert(list_items(items) =~= crate::post::document::lines_text(items.map_values(f)));
    }
}

proof fn lemma_list_text(key: Seq<char>, items: Seq<Seq<char>>)
    ensures
        yaml_list(key, items) == crate::post::document::lines_text(list_lines(key, items)),
{
    if items.len() > 0 {
        let f = |item: Seq<char>| "  - "@ + item;
        lemma_list_items_text(items);
        crate::post::document::lemma_lines_text_one(key + seq![':']);
        crate::post::document::lemma_lines_text_concat(seq![key + seq![':']], items.map_values(f));
        reveal_strlit(":\n");
        assert(key + ":\n"@ =~= key + seq![':'] + seq!['\n']);
    } else {
        assert(list_lines(key, items) =~= Seq::<Seq<char>>::empty());
    }
}

/// The file written for a cast: its front matter (empty title, slug, date,
/// type `farcaster`, cast id, and the attachment, image and video lists that
/// are not empty), a blank line, and the body, ending with a newline.
pub open spec fn cast_post_spec(
    slug: Seq<char>,
    date: Seq<char>,
    castid: Seq<char>,
    attachments: Seq<Seq<char>>,
    images: Seq<Seq<char>>,
    videos: Seq<Seq<char>>,
    body: Seq<char>,
) -> Seq<char> {
    "---\ntitle: \"\"\nslug: \""@ + slug + "\"\ndate: \""@ + date + "\"\ntype: farcaster\ncastid: "@ + castid
        + seq!['\n'] + yaml_list("attached"@, attachments) + yaml_list("images"@, images) + yaml_list(
        "videos"@,
        videos,
    ) + "---\n\n"@ + body + if body.len() > 0 && body.last() == '\n' {
        Seq::<char>::empty()
    } else {
        seq!['\n']
    }
}

/// The front matter lines of a cast's post file.
pub open spec fn cast_field_lines(
    slug: Seq<char>,
    date: Seq<char>,
    castid: Seq<char>,
    attachments: Seq<Seq<char>>,
    images: Seq<Seq<char>>,
    videos: Seq<Seq<char>>,
) -> Seq<Seq<char>> {
    seq![
        "title: \"\""@,
        "slug: \""@ + slug + "\""@,
        "date: \""@ + date + "\""@,
        "type: farcaster"@,
        "castid: "@ + castid,
    ] + list_lines("attached"@, attachments) + list_lines("images"@, images) + list_lines("videos"@, videos)
}

/// The body of a cast's post file: the text, ending with a line break.
pub open spec fn cast_body(body: Seq<char>) -> Seq<char> {
    body + if body.len() > 0 && body.last() == '\n' {
        Seq::<char>::empty()
    } else {
        seq!['\n']
    }
}

proof fn lemma_lines_text_push(ls: Seq<Seq<char>>, x: Seq<char>)
    ensures
        crate::post::document::lines_text(ls.push(x)) == crate::post::document::lines_text(ls) + x + seq!['\n'],
{
    assert(ls.push(x).drop_last() =~= ls);
}

proof fn lemma_cast_literals()
    ensures
        "---\ntitle: \"\"\nslug: \""@ == "---"@ + seq!['\n'] + "title: \"\""@ + seq!['\n'] + "slug: \""@,
        "\"\ndate: \""@ == "\""@ + seq!['\n'] + "date: \""@,
        "\"\ntype: farcaster\ncastid: "@ == "\""@ + seq!['\n'] + "type: farcaster"@ + seq!['\n'] + "castid: "@,
        "---\n\n"@ == "---"@ + seq!['\n'] + seq!['\n'],
{
    assert("---\ntitle: \"\"\nslug: \""@ =~= "---"@ + seq!['\n'] + "title: \"\""@ + seq!['\n'] + "slug: \""@) by {
        reveal_strlit("---\ntitle: \"\"\nslug: \"");
        reveal_strlit("---");
        reveal_strlit("title: \"\"");
        reveal_strlit("slug: \"");
    }
    assert("\"\ndate: \""@ =~= "\""@ + seq!['\n'] + "date: \""@) by {
        reveal_strlit("\"\ndate: \"");
        reveal_strlit("\"");
        reveal_strlit("date: \"");
    }
    assert("\"\ntype: farcaster\ncastid: "@ =~= "\""@ + seq!['\n'] + "type: farcaster"@ + seq!['\n'] + "castid: "@) by {
        reveal_strlit("\"\ntype: farcaster\ncastid: ");
        reveal_strlit("\"");
        reveal_strlit("type: farcaster");
        reveal_strlit("castid: ");
    }
    assert("---\n\n"@ =~= "---"@ + seq!['\n'] + seq!['\n']) by {
        reveal_strlit("---\n\n");
        reveal_strlit("---");
    }
}

proof fn lemma_regroup(
    p1: Seq<char>,
    p2: Seq<char>,
    p3: Seq<char>,
    g1: Seq<char>,
    g2: Seq<char>,
    g3: Seq<char>,
    slug: Seq<char>,
    date: Seq<char>,
    castid: Seq<char>,
    ya: Seq<char>,
    yi: Seq<char>,
    yv: Seq<char>,
    dash: Seq<char>,
    d2: Seq<char>,
    body: Seq<char>,
    cond: Seq<char>,
)
    requires
        p1 == g1,
        p2 == g2,
        p3 == g3,
        d2 == dash + seq!['\n'] + seq!['\n'],
    ensures
        p1 + slug + p2 + date + p3 + castid + seq!['\n'] + ya + yi + yv + d2 + body + cond == (g1 + slug + g2 + date + g3
            + castid + seq!['\n']) + ya + yi + yv + (dash + seq!['\n']) + seq!['\n'] + (body + cond),
{
    assert(p1 + slug + p2 + date + p3 + castid + seq!['\n'] + ya + yi + yv + d2 + body + cond =~= (g1 + slug + g2 + date
        + g3 + castid + seq!['\n']) + ya + yi + yv + (dash + seq!['\n']) + seq!['\n'] + (body + cond));
}

proof fn lemma_cast_head_text(slug: Seq<char>, date: Seq<char>, castid: Seq<char>)
    ensures
        crate::post::document::lines_text(
            seq![
                "---"@,
                "title: \"\""@,
                "slug: \""@ + slug + "\""@,
                "date: \""@ + date + "\""@,
                "type: farcaster"@,
                "castid: "@ + castid,
            ],
        ) == ("---"@ + seq!['\n'] + "title: \"\""@ + seq!['\n'] + "slug: \""@) + slug + ("\""@ + seq!['\n'] + "date: \""@)
            + date + ("\""@ + seq!['\n'] + "type: farcaster"@ + seq!['\n'] + "castid: "@) + castid + seq!['\n'],
{
    let nl = seq!['\n'];
    let h1 = seq!["---"@];
    let h2 = h1.push("title: \"\""@);
    let h3 = h2.push("slug: \""@ + slug + "\""@);
    let h4 = h3.push("date: \""@ + date + "\""@);
    let h5 = h4.push("type: farcaster"@);
    let h6 = h5.push("castid: "@ + castid);
    assert(h6 =~= seq![
        "---"@,
        "title: \"\""@,
        "slug: \""@ + slug + "\""@,
        "date: \""@ + date + "\""@,
        "type: farcaster"@,
        "castid: "@ + castid,
    ]);
    crate::post::document::lemma_lines_text_one("---"@);
    lemma_lines_text_push(h1, "title: \"\""@);
    lemma_lines_text_push(h2, "slug: \""@ + slug + "\""@);
    lemma_lines_text_push(h3, "date: \""@ + date + "\""@);
    lemma_lines_text_push(h4, "type: farcaster"@);
    lemma_lines_text_push(h5, "castid: "@ + castid);
    assert(crate::post::document::lines_text(h6) =~= ("---"@ + nl + "title: \"\""@ + nl + "slug: \""@) + slug + ("\""@
        + nl + "date: \""@) + date + ("\""@ + nl + "type: farcaster"@ + nl + "castid: "@) + castid + nl);
}

proof fn lemma_cast_lines(
    slug: Seq<char>,
    date: Seq<char>,
    castid: Seq<char>,
    attachments: Seq<Seq<char>>,
    images: Seq<Seq<char>>,
    videos: Seq<Seq<char>>,
    body: Seq<char>,
)
    ensures
        cast_post_spec(slug, date, castid, attachments, images, videos, body)
            == crate::post::document::lines_text(
            seq!["---"@] + cast_field_lines(slug, date, castid, attachments, images, videos) + seq!["---"@],
        ) + seq!['\n'] + cast_body(body),
{
    let head = seq![
        "---"@,
        "title: \"\""@,
        "slug: \""@ + slug + "\""@,
        "date: \""@ + date + "\""@,
        "type: farcaster"@,
        "castid: "@ + castid,
    ];
    let la = list_lines("attached"@, attachments);
    let li = list_lines("images"@, images);
    let lv = list_lines("videos"@, videos);
    let d = seq!["---"@];
    lemma_list_text("attached"@, attachments);
    lemma_list_text("images"@, images);
    lemma_list_text("videos"@, videos);
    lemma_cast_head_text(slug, date, castid);
    crate::post::document::lemma_lines_text_one("---"@);
    crate::post::document::lemma_lines_text_concat(head, la);
    crate::post::document::lemma_lines_text_concat(head + la, li);
    crate::post::document::lemma_lines_text_concat(head + la + li, lv);
    crate::post::document::lemma_lines_text_concat(head + la + li + lv, d);
    assert(seq!["---"@] + cast_field_lines(slug, date, castid, attachments, images, videos) + d =~= head + la + li + lv + d);
    lemma_cast_literals();
    let nl = seq!['\n'];
    let cond = if body.len() > 0 && body.last() == '\n' { Seq::<char>::empty() } else { nl };
    lemma_regroup(
        "---\ntitle: \"\"\nslug: \""@,
        "\"\ndate: \""@,
        "\"\ntype: farcaster\ncastid: "@,
        "---"@ + nl + "title: \"\""@ + nl + "slug: \""@,
        "\""@ + nl + "date: \""@,
        "\""@ + nl + "type: farcaster"@ + nl + "castid: "@,
        slug,
        date,
        castid,
        yaml_list("attached"@, attachments),
        yaml_list("images"@, images),
        yaml_list("videos"@, videos),
        "---"@,
        "---\n\n"@,
        body,
        cond,
    );
}

proof fn lemma_list_plain(key: Seq<char>, items: Seq<Seq<char>>)
    requires
        key.len() > 0,
        !crate::text::is_ws(key[0]),
        key[0] != '-',
        crate::post::document::single_line(key),
        forall|i: int| 0 <= i < items.len() ==> crate::post::document::single_line(#[trigger] items[i]),
    ensures
        forall|i: int|
            0 <= i < list_lines(key, items).len() ==> crate::post::document::plain_line(#[trigger] list_lines(key, items)[i]),
{
    if items.len() > 0 {
        let ls = list_lines(key, items);
        assert(crate::post::document::single_line(seq![':'])) by {
            if seq![':'].contains('\n') || seq![':'].contains('\r') {
                assert(seq![':'][0] == ':');
            }
        }
        crate::post::document::lemma_keyed_line(key, seq![':']);
        reveal_strlit("  - ");
        assert(crate::post::document::single_line("  - "@));
        assert forall|i: int| 0 <= i < ls.len() implies crate::post::document::plain_line(#[trigger] ls[i]) by {
            if i > 0 {
                let item = items[i - 1];
                assert(ls[i] == "  - "@ + item);
                crate::post::document::lemma_concat_single("  - "@, item);
                crate::post::document::lemma_item_not_fence(item);
            }
        }
    }
}

/// A cast's post file reads back as a post: its front matter is the cast's
/// field lines and its body is the lines of the cast text (which the file
/// ends with a line break). The slug, the date, the cast id and every list
/// item must fit on one line.
pub proof fn cast_post_reads_back(
    slug: Seq<char>,
    date: Seq<char>,
    castid: Seq<char>,
    attachments: Seq<Seq<char>>,
    images: Seq<Seq<char>>,
    videos: Seq<Seq<char>>,
    body: Seq<char>,
)
    requires
        crate::post::document::single_line(slug),
        crate::post::document::single_line(date),
        crate::post::document::single_line(castid),
        forall|i: int| 0 <= i < attachments.len() ==> crate::post::document::single_line(#[trigger] attachments[i]),
        forall|i: int| 0 <= i < images.len() ==> crate::post::document::single_line(#[trigger] images[i]),
        forall|i: int| 0 <= i < videos.len() ==> crate::post::document::single_line(#[trigger] videos[i]),
    ensures
        crate::content::front_matter_spec(cast_post_spec(slug, date, castid, attachments, images, videos, body)) == Ok::<
            (Seq<char>, Seq<char>),
            crate::content::FrontMatterIssue,
        >(
            (
                crate::text::join(cast_field_lines(slug, date, castid, attachments, images, videos), seq!['\n']),
                crate::text::join(lines_spec(cast_body(body)), seq!['\n']),
            ),
        ),
{
    let f = cast_field_lines(slug, date, castid, attachments, images, videos);
    let d = seq!["---"@];
    let all = d + f + d;
    let cb = cast_body(body);
    lemma_cast_lines(slug, date, castid, attachments, images, videos, body);
    lemma_cast_fields_plain(slug, date, castid, attachments, images, videos);
    crate::post::document::lemma_fence_line();
    assert forall|i: int| 0 <= i < all.len() implies crate::post::document::single_line(#[trigger] all[i]) by {
        if i == 0 || i == all.len() - 1 {
            assert(all[i] == "---"@);
        } else {
            assert(all[i] == f[i - 1]);
        }
    }
    crate::post::document::lemma_document_lines(all, cb);
    let lb = lines_spec(cb);
    let ls = all + seq![Seq::<char>::empty()] + lb;
    let j: int = f.len() as int + 1;
    assert(ls[0] == "---"@);
    assert(ls[j] == "---"@);
    assert forall|m: int| 1 <= m < j implies trim(#[trigger] ls[m]) != "---"@ by {
        assert(ls[m] == f[m - 1]);
    }
    crate::post::document::lemma_fence_at(ls, 1, j);
    assert(ls.subrange(1, j) =~= f);
    assert(ls.skip(j + 1) =~= seq![Seq::<char>::empty()] + lb);
    crate::post::document::lemma_join_after_blank(lb);
    let joined = crate::text::join(ls.skip(j + 1), seq!['\n']);
    if lb.len() > 0 {
        assert(joined[0] == '\n');
        assert(joined.drop_first() =~= crate::text::join(lb, seq!['\n']));
    } else {
        assert(joined.len() == 0);
        assert(crate::text::join(lb, seq!['\n']) =~= Seq::<char>::empty());
    }
}

proof fn lemma_cast_fields_plain(
    slug: Seq<char>,
    date: Seq<char>,
    castid: Seq<char>,
    attachments: Seq<Seq<char>>,
    images: Seq<Seq<char>>,
    videos: Seq<Seq<char>>,
)
    requires
        crate::post::document::single_line(slug),
        crate::post::document::single_line(date),
        crate::post::document::single_line(castid),
        forall|i: int| 0 <= i < attachments.len() ==> crate::post::document::single_line(#[trigger] attachments[i]),
        forall|i: int| 0 <= i < images.len() ==> crate::post::document::single_line(#[trigger] images[i]),
        forall|i: int| 0 <= i < videos.len() ==> crate::post::document::single_line(#[trigger] videos[i]),
    ensures
        forall|i: int|
            0 <= i < cast_field_lines(slug, date, castid, attachments, images, videos).len()
                ==> crate::post::document::plain_line(
                #[trigger] cast_field_lines(slug, date, castid, attachments, images, videos)[i],
            ),
{
    let q = "\""@;
    let e = Seq::<char>::empty();
    reveal_strlit("\"");
    reveal_strlit("title: \"\"");
    reveal_strlit("slug: \"");
    reveal_strlit("date: \"");
    reveal_strlit("type: farcaster");
    reveal_strlit("castid: ");
    reveal_strlit("attached");
    reveal_strlit("images");
    reveal_strlit("videos");
    assert(crate::post::document::single_line(e));
    assert(crate::post::document::single_line(q)) by {
        if q.contains('\n') || q.contains('\r') {
            assert(q[0] == '"');
        }
    }
    crate::post::document::lemma_concat_single(slug, q);
    crate::post::document::lemma_concat_single(date, q);
    crate::post::document::lemma_keyed_line("title: \"\""@, e);
    crate::post::document::lemma_keyed_line("slug: \""@, slug + q);
    crate::post::document::lemma_keyed_line("date: \""@, date + q);
    crate::post::document::lemma_keyed_line("type: farcaster"@, e);
    crate::post::document::lemma_keyed_line("castid: "@, castid);
    assert("title: \"\""@ + e =~= "title: \"\""@);
    assert("type: farcaster"@ + e =~= "type: farcaster"@);
    assert("slug: \""@ + (slug + q) =~= "slug: \""@ + slug + q);
    assert("date: \""@ + (date + q) =~= "date: \""@ + date + q);
    let head = seq!["title: \"\""@, "slug: \""@ + slug + q, "date: \""@ + date + q, "type: farcaster"@, "castid: "@ + castid];
    assert forall|i: int| 0 <= i < head.len() implies crate::post::document::plain_line(#[trigger] head[i]) by {}
    lemma_list_plain("attached"@, attachments);
    lemma_list_plain("images"@, images);
    lemma_list_plain("videos"@, videos);
    let la = list_lines("attached"@, attachments);
    let li = list_lines("images"@, images);
    let lv = list_lines("videos"@, videos);
    crate::post::document::lemma_plain_concat(head, la);
    crate::post::document::lemma_plain_concat(head + la, li);
    crate::post::document::lemma_plain_concat(head + la + li, lv);
}

/// Writes the post file for a cast.
pub fn cast_post_contents(
    slug: &str,
    date: &str,
    castid: &str,
    attachments: &Vec<String>,
    images: &Vec<String>,
    videos: &Vec<String>,
    body: &str,
) -> (r: String)
    ensures
        r@ == cast_post_spec(
            slug@,
            date@,
            castid@,
            crate::text::string_views(attachments@),
            crate::text::string_views(images@),
            crate::text::string_views(videos@),
            body@,
        ),
{
    let mut out = chars_of("---\ntitle: \"\"\nslug: \"");
    extend_str(&mut out, slug);
    extend_str(&mut out, "\"\ndate: \"");
    extend_str(&mut out, date);
    extend_str(&mut out, "\"\ntype: farcaster\ncastid: ");
    extend_str(&mut out, castid);
    out.push('\n');
    push_list(&mut out, "attached", attachments);
    push_list(&mut out, "images", images);
    push_list(&mut out, "videos", videos);
    extend_str(&mut out, "---\n\n");
    let b = chars_of(body);
    extend_chars(&mut out, &b);
    if !(b.len() > 0 && b[b.len() - 1] == '\n') {
        out.push('\n');
    }
    string_of(&out)
}

/// The number of leading characters of `t` that fit, in UTF-8, within the
/// first `q` bytes, counting from character `k` on.
pub open spec fn fitting_chars(t: Seq<char>, q: int, k: int) -> int
    decreases t.len() - k,
{
    if 0 <= k < t.len() && crate::search::utf8_len(t.take(k + 1)) <= q {
        fitting_chars(t, q, k + 1)
    } else {
        k
    }
}

/// Where a mention at byte offset `pos` goes: the last character boundary
/// at or before `pos` (offsets past the end stand for the end), as a
/// character index.
pub open spec fn mention_cut(t: Seq<char>, pos: int) -> int {
    let total = crate::search::utf8_len(t) as int;
    fitting_chars(t, if pos < total { pos } else { total }, 0)
}

/// Whether a character right after a mention is the mention's own marker,
/// which the handle replaces: `@`, or the control characters U+0001 and
/// U+001F.
pub open spec fn mention_marker(c: char) -> bool {
    c == '@' || c == '\u{1}' || c == '\u{1f}'
}

/// Where the text resumes after a mention placed at character `k`.
pub open spec fn resume_at(t: Seq<char>, k: int) -> int {
    if 0 <= k < t.len() && mention_marker(t[k]) {
        k + 1
    } else {
        k
    }
}

/// Whether each mention (sorted by offset) lands at or after the point
/// where the text resumed after the one before it.
pub open spec fn mentions_ordered(t: Seq<char>, es: Seq<(usize, String)>) -> bool {
    forall|i: int|
        #![trigger es[i]]
        1 <= i < es.len() ==> mention_cut(t, es[i].0 as int) >= resume_at(t, mention_cut(t, es[i - 1].0 as int))
}

/// The text from character `last` on, with the mentions from `j` on
/// spliced in.
pub open spec fn splice_from(t: Seq<char>, es: Seq<(usize, String)>, j: int, last: int) -> Seq<char>
    decreases es.len() - j,
{
    if j < 0 || j >= es.len() {
        t.subrange(last, t.len() as int)
    } else {
        let k = mention_cut(t, es[j].0 as int);
        t.subrange(last, k) + es[j].1@ + splice_from(t, es, j + 1, resume_at(t, k))
    }
}

proof fn lemma_fitting_bounds(t: Seq<char>, q: int, k: int)
    requires
        0 <= k <= t.len(),
    ensures
        k <= fitting_chars(t, q, k) <= t.len(),
    decreases t.len() - k,
{
    if k < t.len() && crate::search::utf8_len(t.take(k + 1)) <= q {
        lemma_fitting_bounds(t, q, k + 1);
    }
}

fn char_width(c: char) -> (w: usize)
    ensures
        w == crate::search::utf8_width(c),
{
    if (c as u32) < 0x80 {
        1
    } else if (c as u32) < 0x800 {
        2
    } else if (c as u32) < 0x10000 {
        3
    } else {
        4
    }
}

/// The character index a mention at byte offset `pos` goes to.
fn cut_index(t: &Vec<char>, pos: usize) -> (k: usize)
    ensures
        k == mention_cut(t@, pos as int),
        k <= t@.len(),
{
    let mut total: usize = 0;
    let mut k: usize = 0;
    let n = t.len();
    let ghost full = crate::search::utf8_len(t@) as int;
    let ghost q: int = if (pos as int) < full { pos as int } else { full };
    while k < n
        invariant
            n == t@.len(),
            k <= n,
            total == crate::search::utf8_len(t@.take(k as int)),
            total <= q,
            full == crate::search::utf8_len(t@) as int,
            q == (if (pos as int) < full { pos as int } else { full }),
            fitting_chars(t@, q, 0) == fitting_chars(t@, q, k as int),
        decreases n - k,
    {
        let w = char_width(t[k]);
        assert(t@.take(k + 1).drop_last() =~= t@.take(k as int));
        proof {
            crate::search::lemma_utf8_len_prefix(t@, k + 1);
        }
        if w > pos - total {
            return k;
        }
        total = total + w;
        k = k + 1;
    }
    assert(t@.take(n as int) =~= t@);
    k
}

fn resume_index(t: &Vec<char>, k: usize) -> (r: usize)
    requires
        k <= t@.len(),
    ensures
        r == resume_at(t@, k as int),
        r <= t@.len(),
{
    if k < t.len() && (t[k] == '@' || t[k] == '\u{1}' || t[k] == '\u{1f}') {
        k + 1
    } else {
        k
    }
}

/// Whether the mentions can be spliced into `text` in the order given:
/// none lands before the point where the text resumed after the previous
/// one.
pub fn mentions_in_order(text: &str, mentions: &Vec<(usize, String)>) -> (r: bool)
    ensures
        r == mentions_ordered(text@, mentions@),
{
    let t = chars_of(text);
    let n = mentions.len();
    if n == 0 {
        return true;
    }
    let mut prev = resume_index(&t, cut_index(&t, mentions[0].0));
    let mut i: usize = 1;
    while i < n
        invariant
            n == mentions@.len(),
            1 <= i <= n,
            t@ == text@,
            prev == resume_at(t@, mention_cut(t@, mentions@[i - 1].0 as int)),
            forall|q: int|
                1 <= q < i ==> mention_cut(t@, (#[trigger] mentions@[q]).0 as int) >= resume_at(
                    t@,
                    mention_cut(t@, mentions@[q - 1].0 as int),
                ),
        decreases n - i,
    {
        let k = cut_index(&t, mentions[i].0);
        if k < prev {
            return false;
        }
        prev = resume_index(&t, k);
        i = i + 1;
    }
    true
}

/// Mentions ordered by position, then by account id.
pub open spec fn mention_lt(a: (usize, u64), b: (usize, u64)) -> bool {
    a.0 < b.0 || (a.0 == b.0 && a.1 < b.1)
}

/// Strictly ascending mentions: sorted by position, none repeated.
pub open spec fn mentions_ascending(s: Seq<(usize, u64)>) -> bool {
    forall|i: int, j: int| 0 <= i < j < s.len() ==> mention_lt(#[trigger] s[i], #[trigger] s[j])
}

/// Whether `(pos, fid)` is one of the cast's mentions: the `k`th account id
/// with the `k`th position, for `k` below both lists' lengths.
pub open spec fn is_mention(fids: Seq<u64>, positions: Seq<usize>, m: (usize, u64)) -> bool {
    exists|k: int| 0 <= k < fids.len() && k < positions.len() && m == (#[trigger] positions[k], fids[k])
}

fn insert_mention(v: &mut Vec<(usize, u64)>, x: (usize, u64))
    requires
        mentions_ascending(old(v)@),
    ensures
        mentions_ascending(final(v)@),
        forall|y: (usize, u64)| final(v)@.contains(y) <==> (old(v)@.contains(y) || y == x),
{
    let ghost s0 = v@;
    let n = v.len();
    let mut k: usize = 0;
    while k < n && (v[k].0 < x.0 || (v[k].0 == x.0 && v[k].1 < x.1))
        invariant
            k <= n == v@.len(),
            s0 == v@,
            mentions_ascending(s0),
            forall|j: int| 0 <= j < k ==> mention_lt(#[trigger] s0[j], x),
        decreases n - k,
    {
        k = k + 1;
    }
    if k < n && v[k].0 == x.0 && v[k].1 == x.1 {
        assert(s0[k as int] == x);
        assert forall|y: (usize, u64)| v@.contains(y) <==> (s0.contains(y) || y == x) by {
            if y == x {
                assert(s0[k as int] == y);
            }
        }
        return;
    }
    proof {
        if k < n {
            assert(mention_lt(x, s0[k as int]));
        }
    }
    v.insert(k, x);
    let ghost s1 = v@;
    assert(s1 =~= s0.insert(k as int, x));
    assert forall|i: int, j: int| 0 <= i < j < s1.len() implies mention_lt(#[trigger] s1[i], #[trigger] s1[j]) by {
        if j < k {
            assert(s1[i] == s0[i] && s1[j] == s0[j]);
        } else if j == k {
            assert(s1[i] == s0[i]);
        } else if i < k {
            assert(s1[i] == s0[i] && s1[j] == s0[j - 1]);
            if k < n {
                assert(mention_lt(x, s0[k as int]));
            }
        } else if i == k {
            assert(s1[j] == s0[j - 1]);
            assert(mention_lt(x, s0[k as int]));
        } else {
            assert(s1[i] == s0[i - 1] && s1[j] == s0[j - 1]);
        }
    }
    assert forall|y: (usize, u64)| s1.contains(y) <==> (s0.contains(y) || y == x) by {
        if s1.contains(y) {
            let i = choose|i: int| 0 <= i < s1.len() && s1[i] == y;
            if i < k {
                assert(s0[i] == y);
            } else if i > k {
                assert(s0[i - 1] == y);
            }
        }
        if s0.contains(y) {
            let i = choose|i: int| 0 <= i < s0.len() && s0[i] == y;
            if i < k {
                assert(s1[i] == y);
            } else {
                assert(s1[i + 1] == y);
            }
        }
        if y == x {
            assert(s1[k as int] == y);
        }
    }
}

/// The cast's mentions, each once, ordered by position (and, at one
/// position, by account id): the order they are spliced in.
pub fn mention_order(fids: &Vec<u64>, positions: &Vec<usize>) -> (r: Vec<(usize, u64)>)
    ensures
        mentions_ascending(r@),
        forall|m: (usize, u64)| r@.contains(m) <==> is_mention(fids@, positions@, m),
{
    let mut r: Vec<(usize, u64)> = Vec::new();
    let n = if fids.len() < positions.len() { fids.len() } else { positions.len() };
    for i in 0..n
        invariant
            n <= fids@.len(),
            n <= positions@.len(),
            mentions_ascending(r@),
            forall|m: (usize, u64)|
                r@.contains(m) <==> exists|k: int| 0 <= k < i && m == (#[trigger] positions@[k], fids@[k]),
    {
        let ghost before = r@;
        insert_mention(&mut r, (positions[i], fids[i]));
        assert forall|m: (usize, u64)|
            r@.contains(m) <==> exists|k: int| 0 <= k < i + 1 && m == (#[trigger] positions@[k], fids@[k]) by {
            if exists|k: int| 0 <= k < i + 1 && m == (#[trigger] positions@[k], fids@[k]) {
                let k = choose|k: int| 0 <= k < i + 1 && m == (#[trigger] positions@[k], fids@[k]);
                if k < i {
                    assert(before.contains(m));
                }
            }
        }
    }
    assert forall|m: (usize, u64)| r@.contains(m) <==> is_mention(fids@, positions@, m) by {
        if is_mention(fids@, positions@, m) {
            let k = choose|k: int| 0 <= k < fids@.len() && k < positions@.len() && m == (#[trigger] positions@[k], fids@[k]);
            assert(k < n);
        }
    }
    r
}

/// Splices mention handles into a cast's text. Each mention (sorted by
/// offset) is a UTF-8 byte offset and the handle to insert there: the
/// handle goes at the last character boundary at or before the offset, and
/// replaces a marker character (`@`, U+0001 or U+001F) that follows.
pub fn splice_mentions(text: &str, mentions: &Vec<(usize, String)>) -> (r: String)
    requires
        mentions_ordered(text@, mentions@),
    ensures
        r@ == splice_from(text@, mentions@, 0, 0),
{
    let t = chars_of(text);
    let n = mentions.len();
    let mut out: Vec<char> = Vec::new();
    let mut last: usize = 0;
    let mut j: usize = 0;
    while j < n
        invariant
            n == mentions@.len(),
            j <= n,
            t@ == text@,
            last <= t@.len(),
            mentions_ordered(t@, mentions@),
            j > 0 ==> last == resume_at(t@, mention_cut(t@, mentions@[j - 1].0 as int)),
            j == 0 ==> last == 0,
            out@ + splice_from(t@, mentions@, j as int, last as int) == splice_from(t@, mentions@, 0, 0),
        decreases n - j,
    {
        let k = cut_index(&t, mentions[j].0);
        proof {
            if j > 0 {
                assert(mention_cut(t@, mentions@[j as int].0 as int) >= resume_at(
                    t@,
                    mention_cut(t@, mentions@[j - 1].0 as int),
                ));
            }
        }
        let ghost before = out@;
        extend_chars(&mut out, &crate::text::slice_chars(&t, last, k));
        extend_str(&mut out, mentions[j].1.as_str());
        let next = resume_index(&t, k);
        assert(out@ + splice_from(t@, mentions@, j + 1, next as int) =~= before + splice_from(
            t@,
            mentions@,
            j as int,
            last as int,
        ));
        last = next;
        j = j + 1;
    }
    extend_chars(&mut out, &crate::text::slice_chars(&t, last, t.len()));
    assert(out@ =~= splice_from(t@, mentions@, 0, 0));
    string_of(&out)
}

/// The slug of a cast's post: `fc-`, the date, `-` and the first ten
/// bytes of the hash (all of it when shorter).
pub open spec fn cast_slug_spec(date: Seq<char>, hash: Seq<char>, k: int) -> Seq<char> {
    "fc-"@ + date + seq!['-'] + hash.take(k)
}

/// Whether `k` characters of `hash` make exactly its first ten bytes (or
/// all of it when shorter).
pub open spec fn short_hash_chars(hash: Seq<char>, k: int) -> bool {
    let total = crate::search::utf8_len(hash) as int;
    0 <= k <= hash.len() && crate::search::utf8_len(hash.take(k)) == (if total < 10 { total } else { 10 })
}

/// Makes the slug of a cast's post.
pub fn cast_slug(date: &str, hash: &str) -> (r: String)
    requires
        exists|k: int| short_hash_chars(hash@, k),
    ensures
        exists|k: int| short_hash_chars(hash@, k) && r@ == cast_slug_spec(date@, hash@, k),
{
    let h = chars_of(hash);
    let k = cut_index(&h, 10);
    proof {
        let w = choose|w: int| short_hash_chars(hash@, w);
        lemma_cut_is_boundary(h@, w);
    }
    let mut out = chars_of("fc-");
    extend_str(&mut out, date);
    out.push('-');
    extend_chars(&mut out, &crate::text::slice_chars(&h, 0, k));
    proof {
        reveal_strlit("fc-");
        assert(h@.subrange(0, k as int) =~= h@.take(k as int));
        assert(out@ =~= cast_slug_spec(date@, hash@, k as int));
    }
    string_of(&out)
}

fn utf8_len_upto(v: &Vec<char>, n: usize, cap: usize) -> (r: usize)
    requires
        n <= v@.len(),
        0 < cap < usize::MAX - 4,
    ensures
        r == (if crate::search::utf8_len(v@.take(n as int)) < cap { crate::search::utf8_len(v@.take(n as int)) as int } else { cap as int }),
{
    let mut total: usize = 0;
    let mut i: usize = 0;
    while i < n
        invariant
            n <= v@.len(),
            cap < usize::MAX - 4,
            i <= n,
            total == crate::search::utf8_len(v@.take(i as int)),
            total < cap,
        decreases n - i,
    {
        assert(v@.take(i + 1).drop_last() =~= v@.take(i as int));
        total = total + char_width(v[i]);
        i = i + 1;
        if total >= cap {
            proof {
                if (i as int) < n as int {
                    lemma_utf8_len_grows(v@, i as int, n as int);
                }
            }
            return cap;
        }
    }
    total
}

/// Makes the slug of a cast's post where the hash can be cut at its tenth
/// byte (or is shorter), and `None` where that byte falls inside a
/// character.
pub fn cast_slug_checked(date: &str, hash: &str) -> (r: Option<String>)
    ensures
        r is Some <==> exists|k: int| short_hash_chars(hash@, k),
        r matches Some(slug) ==> exists|k: int| short_hash_chars(hash@, k) && slug@ == cast_slug_spec(date@, hash@, k),
{
    let h = chars_of(hash);
    let k = cut_index(&h, 10);
    let prefix = utf8_len_upto(&h, k, 11);
    let total = utf8_len_upto(&h, h.len(), 11);
    assert(h@.take(h@.len() as int) =~= h@);
    let want = if total < 10 { total } else { 10 };
    if prefix == want {
        assert(short_hash_chars(hash@, k as int));
        Some(cast_slug(date, hash))
    } else {
        proof {
            if exists|w: int| short_hash_chars(hash@, w) {
                let w = choose|w: int| short_hash_chars(hash@, w);
                lemma_cut_is_boundary(h@, w);
            }
        }
        None
    }
}

proof fn lemma_utf8_len_grows(t: Seq<char>, a: int, b: int)
    requires
        0 <= a < b <= t.len(),
    ensures
        crate::search::utf8_len(t.take(a)) < crate::search::utf8_len(t.take(b)),
    decreases b - a,
{
    assert(t.take(b).drop_last() =~= t.take(b - 1));
    if a < b - 1 {
        lemma_utf8_len_grows(t, a, b - 1);
    }
}

proof fn lemma_fitting_at(t: Seq<char>, q: int, k: int, w: int)
    requires
        0 <= k <= w <= t.len(),
        crate::search::utf8_len(t.take(w)) == q,
    ensures
        fitting_chars(t, q, k) == w,
    decreases t.len() - k,
{
    if k < w {
        if k + 1 < w {
            lemma_utf8_len_grows(t, k + 1, w);
        }
        lemma_fitting_at(t, q, k + 1, w);
    } else {
        if k < t.len() {
            lemma_utf8_len_grows(t, k, k + 1);
        }
    }
}

proof fn lemma_cut_is_boundary(t: Seq<char>, w: int)
    requires
        short_hash_chars(t, w),
    ensures
        mention_cut(t, 10) == w,
{
    let total = crate::search::utf8_len(t) as int;
    lemma_fitting_at(t, if 10 < total { 10 } else { total }, 0, w);
}

} // verus!
