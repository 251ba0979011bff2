//! RSS feeds and the sitemap: escaping, which tags get a feed, and what the
//! sitemap lists.

use vstd::prelude::*;

use super::listing::{all_tags, bucket_matches, bucket_slugs, post_keys, tag_buckets, used_slugs, TagBucket};
use super::pagination::{compute_pagination_layout, page_url, page_url_spec, per_page_spec, regular_page_count_spec, pagination_partitions_posts};
use crate::post::slug::{normalize_tags, tags_spec};
use crate::sorted::{insert_sorted, strictly_sorted, to_strings};
use crate::text::{
    chars_of, extend_chars, extend_str, opt_view, replace, replace_chars, string_of, string_views,
    trim, trim_chars, views,
};
use crate::utils::{absolute_url, absolute_url_spec};
use crate::post::datetime::{format_rfc2822, rfc2822_text, DateTime};
use super::posts::{att_to_absolute, att_to_absolute_spec};

verus! {

/// The XML escape of one character.
pub open spec fn xml_escape_char(c: char) -> Seq<char> {
    if c == '&' {
        "&amp;"@
    } else if c == '<' {
        "&lt;"@
    } else if c == '>' {
        "&gt;"@
    } else if c == '"' {
        "&quot;"@
    } else if c == '\'' {
        "&apos;"@
    } else {
        seq![c]
    }
}

/// `s` with `&`, `<`, `>`, `"` and `'` replaced by their XML entities.
pub open spec fn xml_escape_spec(s: Seq<char>) -> Seq<char>
    decreases s.len(),
{
    if s.len() == 0 {
        Seq::<char>::empty()
    } else {
        xml_escape_spec(s.drop_last()) + xml_escape_char(s.last())
    }
}

fn push_escaped(out: &mut Vec<char>, value: &Vec<char>)
    ensures
        final(out)@ == old(out)@ + xml_escape_spec(value@),
{
    let n = value.len();
    for i in 0..n
        invariant
            n == value@.len(),
            out@ == old(out)@ + xml_escape_spec(value@.take(i as int)),
    {
        let c = value[i];
        let ghost before = out@;
        if c == '&' {
            extend_str(out, "&amp;");
        } else if c == '<' {
            extend_str(out, "&lt;");
        } else if c == '>' {
            extend_str(out, "&gt;");
        } else if c == '"' {
            extend_str(out, "&quot;");
        } else if c == '\'' {
            extend_str(out, "&apos;");
        } else {
            out.push(c);
        }
        assert(value@.take(i + 1).drop_last() =~= value@.take(i as int));
        assert(out@ =~= old(out)@ + xml_escape_spec(value@.take(i + 1)));
    }
    assert(value@.take(n as int) =~= value@);
}

/// Escapes text for use in XML.
pub fn xml_escape(value: &str) -> (r: String)
    ensures
        r@ == xml_escape_spec(value@),
{
    let mut out: Vec<char> = Vec::new();
    push_escaped(&mut out, &chars_of(value));
    string_of(&out)
}

/// Makes text safe inside a CDATA section: every `]]>` is split across two
/// sections as `]]]><![CDATA[>`.
pub fn sanitize_cdata(value: &str) -> (r: String)
    ensures
        r@ == replace(value@, "]]>"@, "]]]><![CDATA[>"@),
{
    let end = chars_of("]]>");
    proof {
        reveal_strlit("]]>");
    }
    string_of(&replace_chars(&chars_of(value), &end, &chars_of("]]]><![CDATA[>")))
}

/// The `rss_tags` setting as the configuration file holds it.
#[derive(Clone, Debug)]
pub enum RssTags {
    /// A comma-separated list.
    Text(String),
    /// A list; entries that are not strings are `None`.
    List(Vec<Option<String>>),
    /// Missing, or of another kind.
    Other,
}

/// The tags an `rss_tags` setting names, before sorting.
pub open spec fn rss_tag_items(t: RssTags) -> Seq<Seq<char>> {
    match t {
        RssTags::Text(s) => tags_spec(s@),
        RssTags::List(items) => list_items(items@),
        RssTags::Other => Seq::<Seq<char>>::empty(),
    }
}

/// The trimmed, non-blank strings of a list.
pub open spec fn list_items(items: Seq<Option<String>>) -> Seq<Seq<char>>
    decreases items.len(),
{
    if items.len() == 0 {
        Seq::<Seq<char>>::empty()
    } else {
        let r = list_items(items.drop_last());
        match items.last() {
            Some(s) => if trim(s@).len() > 0 {
                r.push(trim(s@))
            } else {
                r
            },
            None => r,
        }
    }
}

fn collect_list(items: &Vec<Option<String>>) -> (r: Vec<Vec<char>>)
    ensures
        views(r@) == list_items(items@),
{
    let mut r: Vec<Vec<char>> = Vec::new();
    let n = items.len();
    for i in 0..n
        invariant
            n == items@.len(),
            views(r@) == list_items(items@.take(i as int)),
    {
        assert(items@.take(i + 1).drop_last() =~= items@.take(i as int));
        match &items[i] {
            Some(s) => {
                let t = trim_chars(&chars_of(s.as_str()));
                if t.len() > 0 {
                    let ghost before = r@;
                    r.push(t);
                    assert(views(r@) =~= views(before).push(t@));
                }
            },
            None => {},
        }
    }
    assert(items@.take(n as int) =~= items@);
    r
}

/// The tags that get a feed of their own: those `rss_tags` names, without
/// repeats, in ascending order.
pub fn config_tag_feeds(setting: &RssTags) -> (r: Vec<String>)
    ensures
        strictly_sorted(string_views(r@)),
        forall|y: Seq<char>| #[trigger] string_views(r@).contains(y) <==> rss_tag_items(*setting).contains(y),
{
    let items: Vec<Vec<char>> = match setting {
        RssTags::Text(s) => {
            let tags = normalize_tags(s.as_str());
            let mut v: Vec<Vec<char>> = Vec::new();
            let n = tags.len();
            for i in 0..n
                invariant
                    n == tags@.len(),
                    views(v@) == string_views(tags@).take(i as int),
            {
                let ghost before = v@;
                v.push(chars_of(tags[i].as_str()));
                assert(views(v@) =~= views(before).push(tags@[i as int]@));
                assert(string_views(tags@).take(i + 1) =~= string_views(tags@).take(i as int).push(tags@[i as int]@));
            }
            assert(string_views(tags@).take(n as int) =~= string_views(tags@));
            v
        },
        RssTags::List(list) => collect_list(list),
        RssTags::Other => Vec::new(),
    };
    assert(views(items@) == rss_tag_items(*setting));
    let mut set: Vec<Vec<char>> = Vec::new();
    let n = items.len();
    for i in 0..n
        invariant
            n == items@.len(),
            strictly_sorted(views(set@)),
            forall|y: Seq<char>| #[trigger] views(set@).contains(y) <==> views(items@).take(i as int).contains(y),
    {
        let ghost before = views(set@);
        insert_sorted(&mut set, &items[i]);
        let ghost seen = views(items@).take(i as int);
        assert(views(items@).take(i + 1) =~= seen.push(items@[i as int]@));
        proof {
            crate::text::lemma_push_contains(seen, items@[i as int]@);
        }
        assert forall|y: Seq<char>| #[trigger] views(set@).contains(y) <==> views(items@).take(i + 1).contains(y) by {
            assert(before.contains(y) <==> seen.contains(y));
        }
    }
    assert(views(items@).take(n as int) =~= views(items@));
    to_strings(&set)
}

/// The title of a tag's feed: the tag, a middle dot, and the site title
/// (`bckt` where none is set).
pub open spec fn tag_feed_title_spec(tag: Seq<char>, site_title: Option<Seq<char>>) -> Seq<char> {
    tag + " · "@ + match site_title {
        Some(t) => t,
        None => "bckt"@,
    }
}

/// The title of a tag's feed.
pub fn tag_feed_title(tag: &str, site_title: &Option<String>) -> (r: String)
    ensures
        r@ == tag_feed_title_spec(tag@, crate::text::opt_view(*site_title)),
{
    let mut out = chars_of(tag);
    extend_str(&mut out, " · ");
    match site_title {
        Some(t) => extend_str(&mut out, t.as_str()),
        None => extend_str(&mut out, "bckt"),
    }
    string_of(&out)
}

/// One `<url>` of the sitemap.
#[derive(Clone, Debug)]
pub struct SitemapEntry {
    pub loc: String,
    pub lastmod: Option<String>,
}

/// The text of an entry.
pub open spec fn entry_view(e: SitemapEntry) -> (Seq<char>, Option<Seq<char>>) {
    (e.loc@, crate::text::opt_view(e.lastmod))
}

/// The XML lines of one entry.
pub open spec fn entry_xml(e: (Seq<char>, Option<Seq<char>>)) -> Seq<char> {
    "  <url>\n    <loc>"@ + xml_escape_spec(e.0) + "</loc>\n"@ + match e.1 {
        Some(m) => "    <lastmod>"@ + xml_escape_spec(m) + "</lastmod>\n"@,
        None => Seq::<char>::empty(),
    } + "  </url>\n"@
}

/// The entries' XML lines, in order.
pub open spec fn entries_xml(es: Seq<(Seq<char>, Option<Seq<char>>)>) -> Seq<char>
    decreases es.len(),
{
    if es.len() == 0 {
        Seq::<char>::empty()
    } else {
        entries_xml(es.drop_last()) + entry_xml(es.last())
    }
}

/// The sitemap document listing `es`.
pub open spec fn sitemap_xml_spec(es: Seq<(Seq<char>, Option<Seq<char>>)>) -> Seq<char> {
    "<?xml version=\"1.0\" encoding=\"utf-8\"?>\n"@
        + "<urlset xmlns=\"http://www.sitemaps.org/schemas/sitemap/0.9\">\n"@ + entries_xml(es)
        + "</urlset>\n"@
}

/// Writes the sitemap document for `entries`.
pub fn sitemap_xml(entries: &Vec<SitemapEntry>) -> (r: String)
    ensures
        r@ == sitemap_xml_spec(entries@.map_values(|e: SitemapEntry| entry_view(e))),
{
    let ghost es = entries@.map_values(|e: SitemapEntry| entry_view(e));
    let mut out: Vec<char> = Vec::new();
    extend_str(&mut out, "<?xml version=\"1.0\" encoding=\"utf-8\"?>\n");
    extend_str(&mut out, "<urlset xmlns=\"http://www.sitemaps.org/schemas/sitemap/0.9\">\n");
    let ghost head = out@;
    let n = entries.len();
    for i in 0..n
        invariant
            n == entries@.len() == es.len(),
            es == entries@.map_values(|e: SitemapEntry| entry_view(e)),
            out@ == head + entries_xml(es.take(i as int)),
    {
        let e = &entries[i];
        let ghost before = out@;
        extend_str(&mut out, "  <url>\n    <loc>");
        push_escaped(&mut out, &chars_of(e.loc.as_str()));
        extend_str(&mut out, "</loc>\n");
        match &e.lastmod {
            Some(m) => {
                extend_str(&mut out, "    <lastmod>");
                push_escaped(&mut out, &chars_of(m.as_str()));
                extend_str(&mut out, "</lastmod>\n");
            },
            None => {},
        }
        extend_str(&mut out, "  </url>\n");
        assert(es.take(i + 1).drop_last() =~= es.take(i as int));
        assert(es.take(i + 1).last() == entry_view(*e));
        assert(out@ =~= before + entry_xml(entry_view(*e)));
    }
    assert(es.take(n as int) =~= es);
    extend_str(&mut out, "</urlset>\n");
    string_of(&out)
}

/// The position of the last post (below `n`) filed under `slug`, or -1.
pub open spec fn last_tagged(all: Seq<Seq<Seq<char>>>, slug: Seq<char>, n: int) -> int
    decreases n,
{
    if n <= 0 {
        -1
    } else if post_keys(all[n - 1]).contains(slug) {
        n - 1
    } else {
        last_tagged(all, slug, n - 1)
    }
}

/// What the sitemap lists, before the tags: the homepage (dated by the
/// newest post), each numbered page (dated by its newest post), then each
/// post.
pub open spec fn sitemap_head(
    base: Seq<char>,
    homepage_posts: nat,
    permalinks: Seq<Seq<char>>,
    dates: Seq<Seq<char>>,
) -> Seq<(Seq<char>, Option<Seq<char>>)> {
    let n = permalinks.len();
    let per = per_page_spec(homepage_posts);
    let regular = regular_page_count_spec(n, homepage_posts);
    seq![(absolute_url_spec(base, "/"@), if n > 0 { Some(dates[n - 1]) } else { None })]
        + Seq::new(regular, |i: int| (absolute_url_spec(base, page_url_spec((i + 1) as nat)), Some(dates[(i + 1) * per - 1])))
        + Seq::new(n, |i: int| (absolute_url_spec(base, permalinks[i]), Some(dates[i])))
}

/// A tag's entry in the sitemap: its index page, dated by the newest post
/// carrying it.
pub open spec fn tag_entry(base: Seq<char>, all: Seq<Seq<Seq<char>>>, dates: Seq<Seq<char>>, slug: Seq<char>) -> (Seq<char>, Option<Seq<char>>) {
    (absolute_url_spec(base, "/tags/"@ + slug + seq!['/']), Some(dates[last_tagged(all, slug, all.len() as int)]))
}

proof fn lemma_last_index(b: TagBucket, all: Seq<Seq<Seq<char>>>)
    requires
        bucket_matches(b, all),
        all.len() <= usize::MAX,
    ensures
        b.indices@.last() as int == last_tagged(all, b.slug@, all.len() as int),
        0 <= last_tagged(all, b.slug@, all.len() as int) < all.len(),
{
    let m = b.indices@.last();
    assert(b.indices@.contains(m));
    assert forall|j: int| m < j < all.len() implies !post_keys(all[j]).contains(b.slug@) by {
        if post_keys(all[j]).contains(b.slug@) {
            assert(b.indices@.contains(j as usize));
            let k = choose|k: int| 0 <= k < b.indices@.len() && b.indices@[k] == j as usize;
            if k < b.indices@.len() - 1 {
                assert(b.indices@[k] < b.indices@[b.indices@.len() - 1]);
            }
        }
    }
    lemma_last_tagged_at(all, b.slug@, all.len() as int, m as int);
}

proof fn lemma_last_tagged_at(all: Seq<Seq<Seq<char>>>, slug: Seq<char>, n: int, m: int)
    requires
        0 <= m < n <= all.len(),
        post_keys(all[m]).contains(slug),
        forall|j: int| m < j < all.len() ==> !post_keys(all[j]).contains(slug),
    ensures
        last_tagged(all, slug, n) == m,
    decreases n,
{
    if n - 1 > m {
        lemma_last_tagged_at(all, slug, n - 1, m);
    }
}

/// Lists what the sitemap holds: the homepage, the numbered pages and the
/// posts (see `sitemap_head`), then one entry per tag slug the posts use, in
/// ascending order of slug. `dates` holds each post's RFC 3339 date.
pub fn sitemap_entries(
    base_url: &str,
    homepage_posts: usize,
    permalinks: &Vec<String>,
    dates: &Vec<String>,
    tags: &Vec<Vec<String>>,
) -> (r: Vec<SitemapEntry>)
    requires
        dates@.len() == permalinks@.len(),
        tags@.len() == permalinks@.len(),
    ensures
        r@.map_values(|e: SitemapEntry| entry_view(e)) == sitemap_head(
            base_url@,
            homepage_posts as nat,
            string_views(permalinks@),
            string_views(dates@),
        ) + used_slugs(all_tags(tags@)).map_values(
            |slug: Seq<char>| tag_entry(base_url@, all_tags(tags@), string_views(dates@), slug),
        ),
{
    let ghost pv = string_views(permalinks@);
    let ghost dv = string_views(dates@);
    let ghost all = all_tags(tags@);
    let ghost head = sitemap_head(base_url@, homepage_posts as nat, pv, dv);
    let ghost tail = used_slugs(all).map_values(|slug: Seq<char>| tag_entry(base_url@, all, dv, slug));
    let n = permalinks.len();
    let layout = compute_pagination_layout(n, homepage_posts);
    proof {
        pagination_partitions_posts(n as nat, homepage_posts as nat);
    }
    let per = layout.per_page;
    let regular = layout.regular_page_count;
    let mut r: Vec<SitemapEntry> = Vec::new();
    let home_date = if n > 0 {
        Some(dates[n - 1].clone())
    } else {
        None
    };
    r.push(SitemapEntry { loc: absolute_url(base_url, "/"), lastmod: home_date });
    let mut p: usize = 0;
    while p < regular
        invariant
            p <= regular,
            n == permalinks@.len() == dates@.len() == tags@.len(),
            per == per_page_spec(homepage_posts as nat),
            regular == regular_page_count_spec(n as nat, homepage_posts as nat),
            regular * per <= n,
            head == sitemap_head(base_url@, homepage_posts as nat, pv, dv),
            pv == string_views(permalinks@),
            dv == string_views(dates@),
            r@.map_values(|e: SitemapEntry| entry_view(e)) == head.take(1 + p),
        decreases regular - p,
    {
        assert((p + 1) * per <= regular * per) by (nonlinear_arith)
            requires
                p < regular,
                per > 0,
        ;
        assert((p + 1) * per >= 1) by (nonlinear_arith)
            requires
                per > 0,
        ;
        let end = (p + 1) * per;
        let url = page_url(p + 1);
        let ghost before = r@;
        r.push(SitemapEntry { loc: absolute_url(base_url, url.as_str()), lastmod: Some(dates[end - 1].clone()) });
        assert(r@.map_values(|e: SitemapEntry| entry_view(e)) =~= before.map_values(|e: SitemapEntry| entry_view(e)).push(
            entry_view(r@.last()),
        ));
        assert(head.take(1 + p + 1) =~= head.take(1 + p).push(head[1 + p]));
        p = p + 1;
    }
    let mut i: usize = 0;
    while i < n
        invariant
            i <= n,
            n == permalinks@.len() == dates@.len() == tags@.len(),
            regular == regular_page_count_spec(n as nat, homepage_posts as nat),
            head == sitemap_head(base_url@, homepage_posts as nat, pv, dv),
            pv == string_views(permalinks@),
            dv == string_views(dates@),
            r@.map_values(|e: SitemapEntry| entry_view(e)) == head.take(1 + regular + i),
        decreases n - i,
    {
        let ghost before = r@;
        r.push(SitemapEntry {
            loc: absolute_url(base_url, permalinks[i].as_str()),
            lastmod: Some(dates[i].clone()),
        });
        assert(r@.map_values(|e: SitemapEntry| entry_view(e)) =~= before.map_values(|e: SitemapEntry| entry_view(e)).push(
            entry_view(r@.last()),
        ));
        assert(head.take(1 + regular + i + 1) =~= head.take(1 + regular + i).push(head[1 + regular + i]));
        i = i + 1;
    }
    assert(head.take(1 + regular + n) =~= head);
    let buckets = tag_buckets(tags);
    let b = buckets.len();
    let mut k: usize = 0;
    while k < b
        invariant
            k <= b == buckets@.len(),
            n == permalinks@.len() == dates@.len() == tags@.len() == all.len(),
            all == all_tags(tags@),
            dv == string_views(dates@),
            bucket_slugs(buckets@) == used_slugs(all),
            forall|q: int| 0 <= q < buckets@.len() ==> bucket_matches(#[trigger] buckets@[q], all),
            tail == used_slugs(all).map_values(|slug: Seq<char>| tag_entry(base_url@, all, dv, slug)),
            r@.map_values(|e: SitemapEntry| entry_view(e)) == head + tail.take(k as int),
        decreases b - k,
    {
        let bucket = &buckets[k];
        assert(bucket_matches(buckets@[k as int], all));
        proof {
            lemma_last_index(buckets@[k as int], all);
        }
        let last = bucket.indices[bucket.indices.len() - 1];
        let page = super::listing::tag_index_url(bucket.slug.as_str());
        let ghost before = r@;
        r.push(SitemapEntry {
            loc: absolute_url(base_url, page.as_str()),
            lastmod: Some(dates[last].clone()),
        });
        assert(bucket_slugs(buckets@)[k as int] == bucket.slug@);
        assert(tail[k as int] == tag_entry(base_url@, all, dv, bucket.slug@));
        assert(r@.map_values(|e: SitemapEntry| entry_view(e)) =~= before.map_values(|e: SitemapEntry| entry_view(e)).push(
            entry_view(r@.last()),
        ));
        assert(tail.take(k + 1) =~= tail.take(k as int).push(tail[k as int]));
        k = k + 1;
    }
    assert(tail.take(b as int) =~= tail);
    r
}

/// The most items a feed holds.
pub const FEED_ITEM_LIMIT: usize = 50;

/// Whether a post with these tags belongs in a feed: every post for the
/// site feed, the posts carrying the tag for a tag feed.
pub open spec fn in_feed(tags: Seq<Seq<char>>, tag: Option<Seq<char>>) -> bool {
    match tag {
        None => true,
        Some(t) => tags.contains(t),
    }
}

/// The indices from `lo` up to `hi` (excluded) of the posts in the feed,
/// highest first.
pub open spec fn feed_from(tags: Seq<Seq<Seq<char>>>, tag: Option<Seq<char>>, lo: int, hi: int) -> Seq<int>
    decreases hi - lo,
{
    if lo >= hi {
        Seq::empty()
    } else {
        feed_from(tags, tag, lo + 1, hi) + if in_feed(tags[lo], tag) { seq![lo] } else { Seq::<int>::empty() }
    }
}

/// The posts a feed lists, given each post's tags in publication order:
/// those in the feed, newest first, at most `FEED_ITEM_LIMIT` of them.
pub open spec fn feed_items_spec(tags: Seq<Seq<Seq<char>>>, tag: Option<Seq<char>>) -> Seq<int> {
    let all = feed_from(tags, tag, 0, tags.len() as int);
    all.take(if all.len() < FEED_ITEM_LIMIT { all.len() as int } else { FEED_ITEM_LIMIT as int })
}

/// The tags of each post, as plain values.
pub open spec fn tag_lists(tags: Seq<Vec<String>>) -> Seq<Seq<Seq<char>>> {
    tags.map_values(|v: Vec<String>| crate::text::string_views(v@))
}

fn carries_tag(tags: &Vec<String>, tag: &String) -> (r: bool)
    ensures
        r == crate::text::string_views(tags@).contains(tag@),
{
    let ghost ts = crate::text::string_views(tags@);
    let n = tags.len();
    for i in 0..n
        invariant
            n == tags@.len(),
            ts == crate::text::string_views(tags@),
            forall|k: int| 0 <= k < i ==> ts[k] != tag@,
    {
        assert(ts[i as int] == tags@[i as int]@);
        if crate::text::chars_eq(&chars_of(tags[i].as_str()), &chars_of(tag.as_str())) {
            return true;
        }
    }
    assert(!ts.contains(tag@)) by {
        if ts.contains(tag@) {
            let k = choose|k: int| 0 <= k < ts.len() && ts[k] == tag@;
        }
    }
    false
}

/// The posts a feed lists (indices into `tags`, whose posts are in
/// publication order): newest first, only those carrying `tag` when one is
/// given, at most `FEED_ITEM_LIMIT`.
pub fn feed_items(tags: &Vec<Vec<String>>, tag: &Option<String>) -> (r: Vec<usize>)
    ensures
        r@.map_values(|i: usize| i as int) == feed_items_spec(tag_lists(tags@), crate::text::opt_view(*tag)),
{
    let ghost ts = tag_lists(tags@);
    let ghost t = crate::text::opt_view(*tag);
    let n = tags.len();
    let mut r: Vec<usize> = Vec::new();
    let mut lo = n;
    assert(feed_from(ts, t, n as int, n as int) =~= Seq::<int>::empty());
    assert(r@.map_values(|i: usize| i as int) =~= Seq::<int>::empty());
    while lo > 0
        invariant
            lo <= n == tags@.len() == ts.len(),
            ts == tag_lists(tags@),
            t == crate::text::opt_view(*tag),
            r@.len() <= FEED_ITEM_LIMIT,
            ({
                let all = feed_from(ts, t, lo as int, n as int);
                r@.map_values(|i: usize| i as int) == all.take(
                    if all.len() < FEED_ITEM_LIMIT { all.len() as int } else { FEED_ITEM_LIMIT as int },
                )
            }),
        decreases lo,
    {
        lo = lo - 1;
        let member = match tag {
            None => true,
            Some(x) => carries_tag(&tags[lo], x),
        };
        assert(ts[lo as int] == crate::text::string_views(tags@[lo as int]@));
        let ghost before = r@;
        let ghost prev = feed_from(ts, t, lo + 1, n as int);
        let ghost all = feed_from(ts, t, lo as int, n as int);
        if member && r.len() < FEED_ITEM_LIMIT {
            r.push(lo);
            assert(all =~= prev.push(lo as int));
            assert(r@.map_values(|i: usize| i as int) =~= before.map_values(|i: usize| i as int).push(lo as int));
            assert(all.take(all.len() as int) =~= all);
            assert(prev.take(prev.len() as int) =~= prev);
        } else if member {
            assert(all =~= prev.push(lo as int));
            assert(before.map_values(|i: usize| i as int).len() == FEED_ITEM_LIMIT);
            assert(prev.len() >= FEED_ITEM_LIMIT);
            assert(all.take(FEED_ITEM_LIMIT as int) =~= prev.take(FEED_ITEM_LIMIT as int));
        } else {
            assert(all =~= prev);
        }
    }
    r
}

/// What a feed writes for one post, each part ready to stand in the feed's
/// XML.
pub struct FeedItem {
    pub title: String,
    pub link: String,
    pub guid: String,
    pub pub_date: String,
    pub description: String,
    pub content: String,
}

/// A feed item's title: the post's title where it has one that is not
/// blank, else its slug.
pub open spec fn feed_title_spec(title: Option<Seq<char>>, slug: Seq<char>) -> Seq<char> {
    match title {
        Some(t) => if trim(t).len() > 0 { t } else { slug },
        None => slug,
    }
}

/// A feed item's description: the excerpt, or the item's title where the
/// excerpt is blank.
pub open spec fn feed_description_spec(excerpt: Seq<char>, item_title: Seq<char>) -> Seq<char> {
    if trim(excerpt).len() == 0 { item_title } else { excerpt }
}

/// Builds the feed item of a post: escaped title, absolute link (also the
/// guid), RFC 2822 date and description, and the body with links to the
/// post's attachments made absolute, safe inside CDATA. `None` where the
/// date cannot be written in RFC 2822 form.
pub fn build_feed_item(
    base_url: &str,
    title: &Option<String>,
    slug: &str,
    permalink: &str,
    excerpt: &str,
    body_html: &str,
    attached: &Vec<String>,
    date: &DateTime,
) -> (r: Option<FeedItem>)
    ensures
        r is Some <==> rfc2822_text(*date) is Some,
        r matches Some(item) ==> {
            let item_title = feed_title_spec(opt_view(*title), slug@);
            let link = absolute_url_spec(base_url@, permalink@);
            &&& item.title@ == xml_escape_spec(item_title)
            &&& item.link@ == xml_escape_spec(link)
            &&& item.guid@ == xml_escape_spec(link)
            &&& item.pub_date@ == xml_escape_spec(rfc2822_text(*date)->0)
            &&& item.description@ == xml_escape_spec(feed_description_spec(excerpt@, item_title))
            &&& item.content@ == replace(
                att_to_absolute_spec(body_html@, permalink@, base_url@, string_views(attached@), true),
                "]]>"@,
                "]]]><![CDATA[>"@,
            )
        },
{
    let pub_date = match format_rfc2822(date) {
        Some(d) => d,
        None => return None,
    };
    let item_title: &str = match title {
        Some(t) => {
            if trim_chars(&chars_of(t.as_str())).len() > 0 {
                t.as_str()
            } else {
                slug
            }
        },
        None => slug,
    };
    let description: &str = if trim_chars(&chars_of(excerpt)).len() == 0 {
        item_title
    } else {
        excerpt
    };
    let link = absolute_url(base_url, permalink);
    let body = att_to_absolute(body_html, permalink, base_url, attached, true);
    Some(FeedItem {
        title: xml_escape(item_title),
        link: xml_escape(link.as_str()),
        guid: xml_escape(link.as_str()),
        pub_date: xml_escape(pub_date.as_str()),
        description: xml_escape(description),
        content: sanitize_cdata(body.as_str()),
    })
}

} // verus!
