//! The decisions taken while a cast's embeds become attachments, quotes and
//! links. The application fetches content types, downloads files and casts;
//! this module decides what is fetched, how downloads are named, what is
//! skipped, and what the post body gains.

use vstd::prelude::*;

use crate::farcaster::{
    append_quote, image_extension_from_mime, image_extension_spec, is_video_mime,
    is_video_mime_spec, looks_like_video_url, looks_like_video_url_spec, quote_spec,
};
use crate::text::{
    chars_eq, chars_of, contains, contains_chars, extend_str, lower_chars,
    lower_seq, occurs_at, push_char, push_decimal, push_padded, decimal, string_of, string_views,
    trim, trim_chars, zero_padded,
};

verus! {

broadcast use vstd::string::group_string_axioms;

/// What has been gathered from a cast's embeds so far.
pub struct EmbedState {
    /// Files to list as the post's attachments, each once.
    pub attachments: Vec<String>,
    /// Downloaded images.
    pub images: Vec<String>,
    /// Downloaded videos, each once.
    pub videos: Vec<String>,
    /// URLs to list at the end of the body.
    pub links: Vec<String>,
    /// URLs and cast keys already handled.
    pub seen: Vec<String>,
    /// The number the next downloaded image gets.
    pub image_index: usize,
    /// The number the next downloaded video gets.
    pub video_index: usize,
}

/// The state as plain values.
pub struct EmbedModel {
    pub attachments: Seq<Seq<char>>,
    pub images: Seq<Seq<char>>,
    pub videos: Seq<Seq<char>>,
    pub links: Seq<Seq<char>>,
    pub seen: Seq<Seq<char>>,
    pub image_index: nat,
    pub video_index: nat,
}

impl View for EmbedState {
    type V = EmbedModel;

    open spec fn view(&self) -> EmbedModel {
        EmbedModel {
            attachments: string_views(self.attachments@),
            images: string_views(self.images@),
            videos: string_views(self.videos@),
            links: string_views(self.links@),
            seen: string_views(self.seen@),
            image_index: self.image_index as nat,
            video_index: self.video_index as nat,
        }
    }
}

/// Whether a URL is fetched over the web.
pub open spec fn is_web_url(url: Seq<char>) -> bool {
    occurs_at(url, "http://"@, 0) || occurs_at(url, "https://"@, 0)
}

/// The links after noting `url`: added unless the body already shows it.
pub open spec fn with_link(links: Seq<Seq<char>>, body: Seq<char>, url: Seq<char>) -> Seq<Seq<char>> {
    if contains(body, url) {
        links
    } else {
        links.push(url)
    }
}

/// `items` with `x` added at the end unless it is there already.
pub open spec fn push_absent(items: Seq<Seq<char>>, x: Seq<char>) -> Seq<Seq<char>> {
    if items.contains(x) {
        items
    } else {
        items.push(x)
    }
}

/// `items` with each of `xs` added in turn, unless already there.
pub open spec fn push_all_absent(items: Seq<Seq<char>>, xs: Seq<Seq<char>>) -> Seq<Seq<char>>
    decreases xs.len(),
{
    if xs.len() == 0 {
        items
    } else {
        push_absent(push_all_absent(items, xs.drop_last()), xs.last())
    }
}

/// What to do with a URL embed before anything is fetched.
#[derive(Clone, Copy, Debug, PartialEq, Eq, Structural)]
pub enum UrlStep {
    /// Not an `http` or `https` URL: it was noted as a link.
    NotWeb,
    /// Handled before: nothing more to do.
    Repeat,
    /// New: fetch its content type, then call `choose_media`.
    Fetch,
}

/// What to do with a web URL once its content type is known.
pub enum MediaAction {
    /// Download the video with files named after `prefix`, then call
    /// `record_video`.
    Video { prefix: String },
    /// Download the image to `filename`, then call `record_image`.
    Image { filename: String },
    /// Nothing to download: the URL was noted as a link.
    Link,
}

/// Whether an embed is a video, by its URL or its content type.
pub open spec fn is_video_embed(url: Seq<char>, content_type: Option<Seq<char>>) -> bool {
    looks_like_video_url_spec(lower_seq(url)) || match content_type {
        Some(ct) => is_video_mime_spec(ct),
        None => false,
    }
}

/// The image extension that a content type calls for, if any.
pub open spec fn image_extension_of(content_type: Option<Seq<char>>) -> Option<Seq<char>> {
    match content_type {
        Some(ct) => image_extension_spec(ct),
        None => None,
    }
}

/// The name prefix of the `n`-th downloaded video: `video` and two digits.
pub open spec fn video_prefix(n: nat) -> Seq<char> {
    "video"@ + zero_padded(n, 2)
}

/// The file name of the `n`-th downloaded image.
pub open spec fn image_filename(n: nat, ext: Seq<char>) -> Seq<char> {
    "image"@ + zero_padded(n, 2) + "."@ + ext
}

/// The key under which an embedded cast is remembered.
pub open spec fn cast_key_spec(fid: nat, hash: Seq<char>) -> Seq<char> {
    "cast:"@ + decimal(fid) + ":"@ + hash
}

/// Whether a body ends with a line break.
pub open spec fn ends_in_newline(body: Seq<char>) -> bool {
    body.len() > 0 && body.last() == '\n'
}

/// A body with a blank line opened at its end: a line break first where
/// the last line is unfinished, then one more.
pub open spec fn open_paragraph(body: Seq<char>) -> Seq<char> {
    if ends_in_newline(body) {
        body.push('\n')
    } else {
        body.push('\n').push('\n')
    }
}

/// The links, one per line.
pub open spec fn link_lines(links: Seq<Seq<char>>) -> Seq<char>
    decreases links.len(),
{
    if links.len() == 0 {
        Seq::<char>::empty()
    } else {
        link_lines(links.drop_last()) + links.last() + seq!['\n']
    }
}

fn contains_string(v: &Vec<String>, s: &str) -> (r: bool)
    ensures
        r == string_views(v@).contains(s@),
{
    let p = chars_of(s);
    let n = v.len();
    for i in 0..n
        invariant
            n == v@.len(),
            p@ == s@,
            forall|k: int| 0 <= k < i ==> v@[k]@ != s@,
    {
        if chars_eq(&chars_of(v[i].as_str()), &p) {
            assert(string_views(v@)[i as int] == s@);
            return true;
        }
    }
    assert(!string_views(v@).contains(s@)) by {
        if string_views(v@).contains(s@) {
            let k = choose|k: int| 0 <= k < string_views(v@).len() && string_views(v@)[k] == s@;
            assert(v@[k]@ == s@);
        }
    }
    false
}

fn push_string(v: &mut Vec<String>, s: &str)
    ensures
        string_views(final(v)@) == string_views(old(v)@).push(s@),
{
    v.push(string_of(&chars_of(s)));
    assert(string_views(v@) =~= string_views(old(v)@).push(s@));
}

fn push_if_absent(v: &mut Vec<String>, s: &str)
    ensures
        string_views(final(v)@) == push_absent(string_views(old(v)@), s@),
{
    if !contains_string(v, s) {
        push_string(v, s);
    }
}

fn note_link(links: &mut Vec<String>, body: &str, url: &str)
    ensures
        string_views(final(links)@) == with_link(string_views(old(links)@), body@, url@),
{
    if !contains_chars(&chars_of(body), &chars_of(url)) {
        push_string(links, url);
    }
}

fn open_paragraph_in(body: &mut String)
    ensures
        final(body)@ == open_paragraph(old(body)@),
{
    let n = body.as_str().unicode_len();
    if n == 0 || body.as_str().get_char(n - 1) != '\n' {
        push_char(body, '\n');
    }
    push_char(body, '\n');
}

/// The key under which an embedded cast is remembered: `cast:`, the fid,
/// `:` and the hash.
pub fn cast_key(fid: u64, hash: &str) -> (r: String)
    ensures
        r@ == cast_key_spec(fid as nat, hash@),
{
    let mut out: Vec<char> = Vec::new();
    extend_str(&mut out, "cast:");
    push_decimal(&mut out, fid);
    extend_str(&mut out, ":");
    extend_str(&mut out, hash);
    proof {
        reveal_strlit("cast:");
        reveal_strlit(":");
    }
    string_of(&out)
}

impl EmbedState {
    /// Nothing gathered yet; numbering starts at 1.
    pub fn new() -> (r: EmbedState)
        ensures
            r@ == (EmbedModel {
                attachments: Seq::empty(),
                images: Seq::empty(),
                videos: Seq::empty(),
                links: Seq::empty(),
                seen: Seq::empty(),
                image_index: 1,
                video_index: 1,
            }),
    {
        let r = EmbedState {
            attachments: Vec::new(),
            images: Vec::new(),
            videos: Vec::new(),
            links: Vec::new(),
            seen: Vec::new(),
            image_index: 1,
            video_index: 1,
        };
        assert(r@.attachments =~= Seq::empty());
        assert(r@.images =~= Seq::empty());
        assert(r@.videos =~= Seq::empty());
        assert(r@.links =~= Seq::empty());
        assert(r@.seen =~= Seq::empty());
        r
    }

    /// The first decision on a URL embed. A URL that is not fetched over
    /// the web is noted as a link (unless the body shows it); one handled
    /// before is skipped; a new one is remembered and is to be fetched.
    pub fn begin_url(&mut self, body: &str, url: &str) -> (r: UrlStep)
        ensures
            !is_web_url(url@) ==> r == UrlStep::NotWeb && final(self)@ == (EmbedModel {
                links: with_link(old(self)@.links, body@, url@),
                ..old(self)@
            }),
            is_web_url(url@) && old(self)@.seen.contains(url@) ==> r == UrlStep::Repeat
                && final(self)@ == old(self)@,
            is_web_url(url@) && !old(self)@.seen.contains(url@) ==> r == UrlStep::Fetch
                && final(self)@ == (EmbedModel { seen: old(self)@.seen.push(url@), ..old(self)@ }),
    {
        let u = chars_of(url);
        let web = crate::text::matches_at(&u, &chars_of("http://"), 0) || crate::text::matches_at(
            &u,
            &chars_of("https://"),
            0,
        );
        if !web {
            note_link(&mut self.links, body, url);
            return UrlStep::NotWeb;
        }
        if contains_string(&self.seen, url) {
            return UrlStep::Repeat;
        }
        push_string(&mut self.seen, url);
        UrlStep::Fetch
    }

    /// The decision on a new web URL once its content type is known (the
    /// fetch may have failed). A video, by URL or type, is downloaded when
    /// videos are wanted; else an image type names the next image file;
    /// else the URL is noted as a link unless the body shows it.
    pub fn choose_media(
        &mut self,
        body: &str,
        url: &str,
        content_type: &Option<String>,
        download_videos: bool,
    ) -> (r: MediaAction)
        requires
            old(self).image_index < usize::MAX,
        ensures
            ({
                let ct = crate::text::opt_view(*content_type);
                if download_videos && is_video_embed(url@, ct) {
                    r matches MediaAction::Video { prefix } && prefix@ == video_prefix(
                        old(self)@.video_index,
                    ) && final(self)@ == old(self)@
                } else {
                    match image_extension_of(ct) {
                        Some(ext) => r matches MediaAction::Image { filename } && filename@
                            == image_filename(old(self)@.image_index, ext) && final(self)@ == (
                        EmbedModel { image_index: old(self)@.image_index + 1, ..old(self)@ }),
                        None => r matches MediaAction::Link && final(self)@ == (EmbedModel {
                            links: with_link(old(self)@.links, body@, url@),
                            ..old(self)@
                        }),
                    }
                }
            }),
    {
        let lowered = string_of(&lower_chars(&chars_of(url)));
        let by_type = match content_type {
            Some(ct) => is_video_mime(ct.as_str()),
            None => false,
        };
        let is_video = looks_like_video_url(lowered.as_str()) || by_type;
        if download_videos && is_video {
            let mut p: Vec<char> = Vec::new();
            extend_str(&mut p, "video");
            push_padded(&mut p, self.video_index as u64, 2);
            proof {
                reveal_strlit("video");
            }
            return MediaAction::Video { prefix: string_of(&p) };
        }
        let ext = match content_type {
            Some(ct) => image_extension_from_mime(ct.as_str()),
            None => None,
        };
        match ext {
            Some(e) => {
                let mut f: Vec<char> = Vec::new();
                extend_str(&mut f, "image");
                push_padded(&mut f, self.image_index as u64, 2);
                extend_str(&mut f, ".");
                extend_str(&mut f, e.as_str());
                proof {
                    reveal_strlit("image");
                    reveal_strlit(".");
                }
                self.image_index = self.image_index + 1;
                MediaAction::Image { filename: string_of(&f) }
            },
            None => {
                note_link(&mut self.links, body, url);
                MediaAction::Link
            },
        }
    }

    /// Records the files a video download produced: each becomes an
    /// attachment and a video unless already listed; the next video gets
    /// the next number.
    pub fn record_video(&mut self, files: &Vec<String>)
        requires
            old(self).video_index < usize::MAX,
        ensures
            final(self)@ == (EmbedModel {
                attachments: push_all_absent(old(self)@.attachments, string_views(files@)),
                videos: push_all_absent(old(self)@.videos, string_views(files@)),
                video_index: old(self)@.video_index + 1,
                ..old(self)@
            }),
    {
        let ghost start = self@;
        let n = files.len();
        for i in 0..n
            invariant
                n == files@.len(),
                self.video_index == start.video_index,
                string_views(self.attachments@) == push_all_absent(
                    start.attachments,
                    string_views(files@).take(i as int),
                ),
                string_views(self.videos@) == push_all_absent(
                    start.videos,
                    string_views(files@).take(i as int),
                ),
                string_views(self.images@) == start.images,
                string_views(self.links@) == start.links,
                string_views(self.seen@) == start.seen,
                self.image_index == start.image_index,
                start.video_index < usize::MAX,
        {
            push_if_absent(&mut self.attachments, files[i].as_str());
            push_if_absent(&mut self.videos, files[i].as_str());
            assert(string_views(files@).take(i + 1).drop_last() =~= string_views(files@).take(
                i as int,
            ));
        }
        assert(string_views(files@).take(n as int) =~= string_views(files@));
        self.video_index = self.video_index + 1;
    }

    /// Records how an image download went: a downloaded image becomes an
    /// attachment and an image; a failed one leaves the URL as a link
    /// unless the body shows it.
    pub fn record_image(&mut self, body: &str, url: &str, filename: &str, downloaded: bool)
        ensures
            downloaded ==> final(self)@ == (EmbedModel {
                attachments: old(self)@.attachments.push(filename@),
                images: old(self)@.images.push(filename@),
                ..old(self)@
            }),
            !downloaded ==> final(self)@ == (EmbedModel {
                links: with_link(old(self)@.links, body@, url@),
                ..old(self)@
            }),
    {
        if downloaded {
            push_string(&mut self.attachments, filename);
            push_string(&mut self.images, filename);
        } else {
            note_link(&mut self.links, body, url);
        }
    }

    /// The first decision on an embedded cast: false when it was handled
    /// before; otherwise it is remembered and true is returned.
    pub fn begin_cast(&mut self, fid: u64, hash: &str) -> (r: bool)
        ensures
            r == !old(self)@.seen.contains(cast_key_spec(fid as nat, hash@)),
            r ==> final(self)@ == (EmbedModel {
                seen: old(self)@.seen.push(cast_key_spec(fid as nat, hash@)),
                ..old(self)@
            }),
            !r ==> final(self)@ == old(self)@,
    {
        let key = cast_key(fid, hash);
        if contains_string(&self.seen, key.as_str()) {
            return false;
        }
        push_string(&mut self.seen, key.as_str());
        true
    }

    /// Ends the body with the gathered links, one per line, after a blank
    /// line; a body without links is left as it is.
    pub fn finish_links(&self, body: &mut String)
        ensures
            self@.links.len() == 0 ==> final(body)@ == old(body)@,
            self@.links.len() > 0 ==> final(body)@ == open_paragraph(old(body)@) + link_lines(
                self@.links,
            ),
    {
        let n = self.links.len();
        if n == 0 {
            return;
        }
        open_paragraph_in(body);
        let mut out = chars_of(body.as_str());
        let ghost start = out@;
        for i in 0..n
            invariant
                n == self.links@.len(),
                out@ == start + link_lines(string_views(self.links@).take(i as int)),
        {
            extend_str(&mut out, self.links[i].as_str());
            out.push('\n');
            assert(string_views(self.links@).take(i + 1).drop_last() =~= string_views(
                self.links@,
            ).take(i as int));
            assert(out@ =~= start + link_lines(string_views(self.links@).take(i + 1)));
        }
        assert(string_views(self.links@).take(n as int) =~= string_views(self.links@));
        *body = string_of(&out);
    }
}

/// Adds an embedded cast's text to the body as a quote after a blank line.
/// Text that is blank once trimmed adds nothing, and false is returned.
pub fn quote_embedded_cast(body: &mut String, username: &str, text: &str) -> (r: bool)
    ensures
        r == (trim(text@).len() > 0),
        !r ==> final(body)@ == old(body)@,
        r ==> final(body)@ == open_paragraph(old(body)@) + quote_spec(username@, trim(text@)),
{
    let t = trim_chars(&chars_of(text));
    if t.len() == 0 {
        return false;
    }
    open_paragraph_in(body);
    let ts = string_of(&t);
    append_quote(body, username, ts.as_str());
    true
}

} // verus!
