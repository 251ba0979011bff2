//! Index pages: tag slugs, tag and archive grouping, and where index pages go.

use vstd::prelude::*;
use vstd::utf8::encode_utf8;

use crate::hash::{blake3_hex, hex_spec, spec_blake3};
use crate::post::slug::{slug_spec, slugify};
use crate::dev::split_url_spec_at;
use crate::sorted::{insert_sorted, strictly_sorted};
use crate::text::{all_digits, parse_int, parse_int_spec, parse_unsigned, parse_unsigned_spec, split_on};
use crate::text::{
    chars_of, decimal, extend_chars, extend_str, push_decimal, push_padded, slice_chars, string_of,
    string_views, trim, trim_chars, views, zero_padded,
};
use crate::utils::{join_path, join_path_spec};

verus! {

/// The slug of a tag: its slug, or `tag-` and the first eight hex digits of
/// the BLAKE3 digest of its UTF-8 bytes when the slug would be empty.
pub open spec fn tag_slug_spec(tag: Seq<char>) -> Seq<char> {
    let slug = slug_spec(tag);
    if slug.len() == 0 {
        "tag-"@ + hex_spec(spec_blake3(encode_utf8(tag))).take(8)
    } else {
        slug
    }
}

/// The URL slug of a tag.
pub fn tag_slug(tag: &str) -> (r: String)
    ensures
        r@ == tag_slug_spec(tag@),
        r@.len() > 0,
{
    let slug = slugify(tag);
    let slug_chars = chars_of(slug.as_str());
    if slug_chars.len() == 0 {
        let hex = blake3_hex(tag);
        let mut out: Vec<char> = Vec::new();
        extend_str(&mut out, "tag-");
        extend_chars(&mut out, &slice_chars(&hex, 0, 8));
        proof {
            reveal_strlit("tag-");
        }
        assert(out@ =~= tag_slug_spec(tag@));
        string_of(&out)
    } else {
        slug
    }
}

/// The URL of a tag's index page: `/tags/<slug>/`.
pub fn tag_index_url(slug: &str) -> (r: String)
    ensures
        r@ == "/tags/"@ + slug@ + seq!['/'],
{
    let mut out: Vec<char> = Vec::new();
    extend_str(&mut out, "/tags/");
    extend_str(&mut out, slug);
    out.push('/');
    assert(out@ =~= "/tags/"@ + slug@ + seq!['/']);
    string_of(&out)
}

/// Where numbered page `n` is written: `<html_root>/page/<n>/index.html`.
pub fn page_output_path(html_root: &str, page_number: usize) -> (r: String)
    ensures
        r@ == join_path_spec(join_path_spec(join_path_spec(html_root@, "page"@), decimal(page_number as nat)), "index.html"@),
{
    let mut n: Vec<char> = Vec::new();
    push_decimal(&mut n, page_number as u64);
    assert(n@ =~= decimal(page_number as nat));
    let a = join_path(&chars_of(html_root), &chars_of("page"));
    let b = join_path(&a, &n);
    let c = join_path(&b, &chars_of("index.html"));
    string_of(&c)
}

/// Where a tag's index page is written: `<html_root>/tags/<slug>/index.html`.
pub fn tag_index_path(html_root: &str, slug: &str) -> (r: String)
    ensures
        r@ == join_path_spec(join_path_spec(join_path_spec(html_root@, "tags"@), slug@), "index.html"@),
{
    let a = join_path(&chars_of(html_root), &chars_of("tags"));
    let b = join_path(&a, &chars_of(slug));
    let c = join_path(&b, &chars_of("index.html"));
    string_of(&c)
}

/// A year as `format!("{:04}")` writes it: zero-padded to four digits, with a
/// leading `-` counted in the width for years before zero.
pub open spec fn year_spec(year: int) -> Seq<char> {
    if year < 0 {
        seq!['-'] + zero_padded((-year) as nat, 3)
    } else {
        zero_padded(year as nat, 4)
    }
}

pub fn push_year(out: &mut Vec<char>, year: i32)
    ensures
        final(out)@ == old(out)@ + year_spec(year as int),
{
    if year < 0 {
        out.push('-');
        let m: i64 = -(year as i64);
        push_padded(out, m as u64, 3);
        assert(out@ =~= old(out)@ + year_spec(year as int));
    } else {
        push_padded(out, year as u64, 4);
    }
}

/// Where a year archive is written: `<html_root>/<YYYY>/index.html`.
pub fn archive_year_path(html_root: &str, year: i32) -> (r: String)
    ensures
        r@ == join_path_spec(join_path_spec(html_root@, year_spec(year as int)), "index.html"@),
{
    let mut y: Vec<char> = Vec::new();
    push_year(&mut y, year);
    assert(y@ =~= year_spec(year as int));
    let a = join_path(&chars_of(html_root), &y);
    let b = join_path(&a, &chars_of("index.html"));
    string_of(&b)
}

/// Where a month archive is written: `<html_root>/<YYYY>/<MM>/index.html`.
pub fn archive_month_path(html_root: &str, year: i32, month: u8) -> (r: String)
    ensures
        r@ == join_path_spec(
            join_path_spec(join_path_spec(html_root@, year_spec(year as int)), zero_padded(month as nat, 2)),
            "index.html"@,
        ),
{
    let mut y: Vec<char> = Vec::new();
    push_year(&mut y, year);
    assert(y@ =~= year_spec(year as int));
    let mut m: Vec<char> = Vec::new();
    push_padded(&mut m, month as u64, 2);
    assert(m@ =~= zero_padded(month as nat, 2));
    let a = join_path(&chars_of(html_root), &y);
    let b = join_path(&a, &m);
    let c = join_path(&b, &chars_of("index.html"));
    string_of(&c)
}

/// What a tag files its post under: the slug of the trimmed tag, or nothing
/// (the empty sequence) for a blank tag.
pub open spec fn tag_key(t: Seq<char>) -> Seq<char> {
    if trim(t).len() > 0 {
        tag_slug_spec(trim(t))
    } else {
        Seq::<char>::empty()
    }
}

/// The keys of a post's tags, in order.
pub open spec fn post_keys(tags: Seq<Seq<char>>) -> Seq<Seq<char>> {
    tags.map_values(|t: Seq<char>| tag_key(t))
}

/// The tags of every post, as text.
pub open spec fn all_tags(posts: Seq<Vec<String>>) -> Seq<Seq<Seq<char>>> {
    posts.map_values(|ts: Vec<String>| string_views(ts@))
}

/// The posts filed under one tag.
#[derive(Clone, Debug)]
pub struct TagBucket {
    /// The tag as first written (trimmed).
    pub name: String,
    pub slug: String,
    /// The posts carrying the tag, by position, ascending.
    pub indices: Vec<usize>,
}

impl TagBucket {
    /// The posts of a tag page, newest first: the positions in reverse.
    pub fn newest_first(&self) -> (r: Vec<usize>)
        ensures
            r@ == self.indices@.reverse(),
    {
        let mut r: Vec<usize> = Vec::new();
        let n = self.indices.len();
        let mut k = n;
        while k > 0
            invariant
                k <= n == self.indices@.len(),
                r@ == self.indices@.subrange(k as int, n as int).reverse(),
            decreases k,
        {
            k = k - 1;
            r.push(self.indices[k]);
            assert(r@ =~= self.indices@.subrange(k as int, n as int).reverse());
        }
        assert(self.indices@.subrange(0, n as int) =~= self.indices@);
        r
    }
}

/// Strictly ascending positions.
pub open spec fn ascending_indices(s: Seq<usize>) -> bool {
    forall|a: int, b: int| 0 <= a < b < s.len() ==> #[trigger] s[a] < #[trigger] s[b]
}

/// Bucket `b` of the tag lists `all`: a slug some post uses; exactly the
/// posts using it, ascending; named after the first tag (trimmed) of the
/// first such post that has this slug.
pub open spec fn bucket_matches(b: TagBucket, all: Seq<Seq<Seq<char>>>) -> bool {
    &&& b.slug@.len() > 0
    &&& ascending_indices(b.indices@)
    &&& forall|i: usize|
        #[trigger] b.indices@.contains(i) <==> (i < all.len() && post_keys(all[i as int]).contains(b.slug@))
    &&& b.indices@.len() > 0
    &&& exists|j: int|
        #![trigger post_keys(all[b.indices@[0] as int])[j]]
        0 <= j < all[b.indices@[0] as int].len()
            && post_keys(all[b.indices@[0] as int])[j] == b.slug@
            && (forall|k: int| 0 <= k < j ==> post_keys(all[b.indices@[0] as int])[k] != b.slug@)
            && b.name@ == trim(all[b.indices@[0] as int][j])
}

/// Whether some post has a tag filed under `y`.
pub open spec fn slug_used(all: Seq<Seq<Seq<char>>>, y: Seq<char>) -> bool {
    y.len() > 0 && exists|i: int| 0 <= i < all.len() && #[trigger] post_keys(all[i]).contains(y)
}

/// The slugs the posts' tags use, in ascending order.
pub open spec fn used_slugs(all: Seq<Seq<Seq<char>>>) -> Seq<Seq<char>> {
    choose|s: Seq<Seq<char>>| strictly_sorted(s) && forall|y: Seq<char>| #[trigger] s.contains(y) <==> slug_used(all, y)
}

/// The slugs of a list of buckets.
pub open spec fn bucket_slugs(bs: Seq<TagBucket>) -> Seq<Seq<char>> {
    bs.map_values(|b: TagBucket| b.slug@)
}

fn key_of_tag(t: &String) -> (r: Vec<char>)
    ensures
        r@ == tag_key(t@),
{
    let trimmed = trim_chars(&chars_of(t.as_str()));
    if trimmed.len() == 0 {
        return Vec::new();
    }
    let slug = tag_slug(string_of(&trimmed).as_str());
    chars_of(slug.as_str())
}

fn keys_of_post(tags: &Vec<String>) -> (r: Vec<Vec<char>>)
    ensures
        views(r@) == post_keys(string_views(tags@)),
{
    let mut r: Vec<Vec<char>> = Vec::new();
    let n = tags.len();
    for j in 0..n
        invariant
            n == tags@.len(),
            views(r@) == post_keys(string_views(tags@)).take(j as int),
    {
        let ghost before = r@;
        r.push(key_of_tag(&tags[j]));
        assert(views(r@) =~= views(before).push(tag_key(tags@[j as int]@)));
        assert(post_keys(string_views(tags@)).take(j + 1) =~= post_keys(string_views(tags@)).take(
            j as int,
        ).push(tag_key(tags@[j as int]@)));
    }
    assert(post_keys(string_views(tags@)).take(n as int) =~= post_keys(string_views(tags@)));
    r
}

/// Position of the first key equal to `slug`, if any.
fn first_key(keys: &Vec<Vec<char>>, slug: &Vec<char>) -> (r: Option<usize>)
    ensures
        match r {
            Some(j) => j < keys@.len() && keys@[j as int]@ == slug@ && forall|k: int|
                0 <= k < j ==> keys@[k]@ != slug@,
            None => !views(keys@).contains(slug@),
        },
{
    let n = keys.len();
    for j in 0..n
        invariant
            n == keys@.len(),
            forall|k: int| 0 <= k < j ==> keys@[k]@ != slug@,
    {
        if crate::text::chars_eq(&keys[j], slug) {
            return Some(j);
        }
    }
    proof {
        if views(keys@).contains(slug@) {
            let k = choose|k: int| 0 <= k < views(keys@).len() && views(keys@)[k] == slug@;
            assert(keys@[k]@ == slug@);
        }
    }
    None
}

/// The bucket for `slug`, a key some post has.
fn make_bucket(tags: &Vec<Vec<String>>, keys: &Vec<Vec<Vec<char>>>, slug: &Vec<char>) -> (r: TagBucket)
    requires
        keys@.len() == tags@.len(),
        forall|i: int| 0 <= i < tags@.len() ==> views(#[trigger] keys@[i]@) == post_keys(string_views(tags@[i]@)),
        slug@.len() > 0,
        exists|i: int| 0 <= i < tags@.len() && post_keys(string_views(#[trigger] tags@[i]@)).contains(slug@),
    ensures
        bucket_matches(r, all_tags(tags@)),
        r.slug@ == slug@,
{
    let ghost all = all_tags(tags@);
    let mut indices: Vec<usize> = Vec::new();
    let mut name: Option<String> = None;
    let n = tags.len();
    for i in 0..n
        invariant
            n == tags@.len() == keys@.len() == all.len(),
            all == all_tags(tags@),
            forall|k: int| 0 <= k < tags@.len() ==> views(#[trigger] keys@[k]@) == post_keys(string_views(tags@[k]@)),
            ascending_indices(indices@),
            forall|k: int| 0 <= k < indices@.len() ==> #[trigger] indices@[k] < i,
            forall|k: usize|
                #[trigger] indices@.contains(k) <==> (k < i && post_keys(all[k as int]).contains(slug@)),
            name is None <==> indices@.len() == 0,
            name matches Some(nm) ==> exists|j: int|
                #![trigger post_keys(all[indices@[0] as int])[j]]
                0 <= j < all[indices@[0] as int].len()
                    && post_keys(all[indices@[0] as int])[j] == slug@
                    && (forall|k: int| 0 <= k < j ==> post_keys(all[indices@[0] as int])[k] != slug@)
                    && nm@ == trim(all[indices@[0] as int][j]),
    {
        assert(all[i as int] == string_views(tags@[i as int]@));
        match first_key(&keys[i], slug) {
            Some(j) => {
                assert(views(keys@[i as int]@)[j as int] == keys@[i as int]@[j as int]@);
                assert(post_keys(all[i as int]).contains(slug@));
                if name.is_none() {
                    let t = trim_chars(&chars_of(tags[i][j].as_str()));
                    name = Some(string_of(&t));
                    assert forall|k: int| 0 <= k < j implies post_keys(all[i as int])[k] != slug@ by {
                        assert(views(keys@[i as int]@)[k] == keys@[i as int]@[k]@);
                    }
                    assert(post_keys(all[i as int])[j as int] == slug@);
                    assert(all[i as int][j as int] == tags@[i as int]@[j as int]@);
                }
                let ghost before = indices@;
                indices.push(i);
                assert forall|k: usize|
                    #[trigger] indices@.contains(k) <==> (k < i + 1 && post_keys(all[k as int]).contains(slug@)) by {
                    crate::text::lemma_push_contains(before, i);
                }
                assert(indices@[0] == (if before.len() == 0 { i } else { before[0] }));
            },
            None => {
                assert(!post_keys(all[i as int]).contains(slug@));
            },
        }
    }
    proof {
        let w = choose|w: int| 0 <= w < tags@.len() && post_keys(string_views(#[trigger] tags@[w]@)).contains(slug@);
        assert(all[w] == string_views(tags@[w]@));
        assert(indices@.contains(w as usize));
    }
    let nm = match name {
        Some(nm) => nm,
        None => String::new(),
    };
    TagBucket { name: nm, slug: string_of(slug), indices }
}

/// Groups posts by tag, as the tag index pages list them: one bucket per
/// tag slug, ascending by slug, each holding the posts that carry a tag with
/// that slug (blank tags are ignored) and named after the first such tag.
pub fn tag_buckets(tags: &Vec<Vec<String>>) -> (r: Vec<TagBucket>)
    ensures
        strictly_sorted(bucket_slugs(r@)),
        bucket_slugs(r@) == used_slugs(all_tags(tags@)),
        forall|k: int| 0 <= k < r@.len() ==> bucket_matches(#[trigger] r@[k], all_tags(tags@)),
        forall|i: int, y: Seq<char>|
            0 <= i < tags@.len() && y.len() > 0 && #[trigger] post_keys(all_tags(tags@)[i]).contains(y)
                ==> bucket_slugs(r@).contains(y),
{
    let ghost all = all_tags(tags@);
    let mut keys: Vec<Vec<Vec<char>>> = Vec::new();
    let mut slugs: Vec<Vec<char>> = Vec::new();
    let n = tags.len();
    for i in 0..n
        invariant
            n == tags@.len() == all.len(),
            all == all_tags(tags@),
            keys@.len() == i,
            forall|k: int| 0 <= k < i ==> views(#[trigger] keys@[k]@) == post_keys(string_views(tags@[k]@)),
            strictly_sorted(views(slugs@)),
            forall|y: Seq<char>|
                #[trigger] views(slugs@).contains(y) <==> (y.len() > 0 && exists|k: int|
                    0 <= k < i && post_keys(string_views(#[trigger] tags@[k]@)).contains(y)),
    {
        let post = keys_of_post(&tags[i]);
        let ghost ks = post_keys(string_views(tags@[i as int]@));
        let m = post.len();
        let ghost start = views(slugs@);
        for j in 0..m
            invariant
                m == post@.len(),
                views(post@) == ks,
                strictly_sorted(views(slugs@)),
                forall|y: Seq<char>|
                    #[trigger] views(slugs@).contains(y) <==> (start.contains(y) || (y.len() > 0
                        && ks.take(j as int).contains(y))),
        {
            let ghost before = views(slugs@);
            if post[j].len() > 0 {
                insert_sorted(&mut slugs, &post[j]);
            }
            assert(ks.take(j + 1) =~= ks.take(j as int).push(post@[j as int]@));
            proof {
                crate::text::lemma_push_contains(ks.take(j as int), post@[j as int]@);
            }
            assert forall|y: Seq<char>|
                #[trigger] views(slugs@).contains(y) <==> (start.contains(y) || (y.len() > 0
                    && ks.take(j + 1).contains(y))) by {
                assert(before.contains(y) <==> (start.contains(y) || (y.len() > 0 && ks.take(j as int).contains(y))));
            }
        }
        assert(ks.take(m as int) =~= ks);
        keys.push(post);
        assert forall|y: Seq<char>|
            #[trigger] views(slugs@).contains(y) <==> (y.len() > 0 && exists|k: int|
                0 <= k < i + 1 && post_keys(string_views(#[trigger] tags@[k]@)).contains(y)) by {
            if y.len() > 0 && exists|k: int| 0 <= k < i + 1 && post_keys(string_views(#[trigger] tags@[k]@)).contains(y) {
                let k = choose|k: int| 0 <= k < i + 1 && post_keys(string_views(#[trigger] tags@[k]@)).contains(y);
                if k < i {
                    assert(start.contains(y));
                }
            }
        }
    }
    let mut r: Vec<TagBucket> = Vec::new();
    let b = slugs.len();
    for k in 0..b
        invariant
            b == slugs@.len(),
            n == tags@.len() == keys@.len() == all.len(),
            all == all_tags(tags@),
            forall|q: int| 0 <= q < n ==> views(#[trigger] keys@[q]@) == post_keys(string_views(tags@[q]@)),
            strictly_sorted(views(slugs@)),
            forall|y: Seq<char>|
                #[trigger] views(slugs@).contains(y) <==> (y.len() > 0 && exists|q: int|
                    0 <= q < n && post_keys(string_views(#[trigger] tags@[q]@)).contains(y)),
            r@.len() == k,
            bucket_slugs(r@) == views(slugs@).take(k as int),
            forall|q: int| 0 <= q < k ==> bucket_matches(#[trigger] r@[q], all),
    {
        assert(views(slugs@).contains(slugs@[k as int]@)) by {
            assert(views(slugs@)[k as int] == slugs@[k as int]@);
        }
        let bucket = make_bucket(tags, &keys, &slugs[k]);
        let ghost before = r@;
        r.push(bucket);
        assert(bucket_slugs(r@) =~= bucket_slugs(before).push(slugs@[k as int]@));
        assert(views(slugs@).take(k + 1) =~= views(slugs@).take(k as int).push(slugs@[k as int]@));
    }
    assert(views(slugs@).take(b as int) =~= views(slugs@));
    assert forall|i: int, y: Seq<char>|
        0 <= i < tags@.len() && y.len() > 0 && #[trigger] post_keys(all_tags(tags@)[i]).contains(y)
            implies bucket_slugs(r@).contains(y) by {
        assert(all_tags(tags@)[i] == string_views(tags@[i]@));
        assert(views(slugs@).contains(y));
    }
    assert forall|y: Seq<char>| #[trigger] bucket_slugs(r@).contains(y) <==> slug_used(all, y) by {
        if slug_used(all, y) {
            let i = choose|i: int| 0 <= i < all.len() && #[trigger] post_keys(all[i]).contains(y);
            assert(all[i] == string_views(tags@[i]@));
            assert(views(slugs@).contains(y));
        }
        if bucket_slugs(r@).contains(y) {
            assert(views(slugs@).contains(y));
            let q = choose|q: int| 0 <= q < n && post_keys(string_views(#[trigger] tags@[q]@)).contains(y);
            assert(all[q] == string_views(tags@[q]@));
        }
    }
    proof {
        let u = used_slugs(all);
        assert(strictly_sorted(bucket_slugs(r@)) && forall|y: Seq<char>| #[trigger] bucket_slugs(r@).contains(y) <==> slug_used(all, y));
        crate::sorted::lemma_sorted_unique(bucket_slugs(r@), u);
    }
    r
}

/// Strictly descending positions.
pub open spec fn descending_indices(s: Seq<usize>) -> bool {
    forall|a: int, b: int| 0 <= a < b < s.len() ==> #[trigger] s[a] > #[trigger] s[b]
}

/// Posts sharing one key, newest position first.
struct KeyGroup {
    key: i64,
    indices: Vec<usize>,
}

/// Group `g` of `keys`: exactly the positions holding its key, descending.
spec fn key_group_matches(g: KeyGroup, keys: Seq<i64>) -> bool {
    &&& descending_indices(g.indices@)
    &&& g.indices@.len() > 0
    &&& forall|i: usize| #[trigger] g.indices@.contains(i) <==> (i < keys.len() && keys[i as int] == g.key)
}

/// The positions holding `key`, last first.
fn positions_of(keys: &Vec<i64>, key: i64) -> (r: Vec<usize>)
    ensures
        descending_indices(r@),
        forall|i: usize| #[trigger] r@.contains(i) <==> (i < keys@.len() && keys@[i as int] == key),
{
    let mut r: Vec<usize> = Vec::new();
    let mut i = keys.len();
    while i > 0
        invariant
            i <= keys@.len(),
            descending_indices(r@),
            forall|k: int| 0 <= k < r@.len() ==> #[trigger] r@[k] >= i,
            forall|q: usize| #[trigger] r@.contains(q) <==> (i <= q < keys@.len() && keys@[q as int] == key),
        decreases i,
    {
        i = i - 1;
        if keys[i] == key {
            let ghost before = r@;
            r.push(i);
            proof {
                crate::text::lemma_push_contains(before, i);
            }
            assert forall|a: int, b: int| 0 <= a < b < r@.len() implies #[trigger] r@[a] > #[trigger] r@[b] by {
                if b == r@.len() - 1 {
                    assert(r@[a] == before[a]);
                }
            }
        }
    }
    r
}

spec fn has_group_key(r: Seq<KeyGroup>, x: i64) -> bool {
    exists|k: int| 0 <= k < r.len() && #[trigger] r[k].key == x
}

/// Whether some year group is for year `y`.
pub open spec fn has_year_group(r: Seq<YearGroup>, y: i32) -> bool {
    exists|k: int| 0 <= k < r.len() && #[trigger] r[k].year == y
}

/// The groups of equal keys, by descending key.
fn groups_by_key(keys: &Vec<i64>) -> (r: Vec<KeyGroup>)
    ensures
        forall|a: int, b: int| 0 <= a < b < r@.len() ==> #[trigger] r@[a].key > #[trigger] r@[b].key,
        forall|k: int| 0 <= k < r@.len() ==> key_group_matches(#[trigger] r@[k], keys@),
        forall|i: int| 0 <= i < keys@.len() ==> has_group_key(r@, #[trigger] keys@[i]),
{
    let mut distinct: Vec<i64> = Vec::new();
    let n = keys.len();
    for i in 0..n
        invariant
            n == keys@.len(),
            crate::sorted::strictly_ascending(distinct@),
            forall|y: i64| #[trigger] distinct@.contains(y) <==> exists|q: int| 0 <= q < i && keys@[q] == y,
    {
        let ghost before = distinct@;
        crate::sorted::insert_key(&mut distinct, keys[i]);
        assert forall|y: i64| #[trigger] distinct@.contains(y) <==> exists|q: int| 0 <= q < i + 1 && keys@[q] == y by {
            if exists|q: int| 0 <= q < i + 1 && keys@[q] == y {
                let q = choose|q: int| 0 <= q < i + 1 && keys@[q] == y;
                if q < i {
                    assert(before.contains(y));
                }
            }
        }
    }
    let mut r: Vec<KeyGroup> = Vec::new();
    let d = distinct.len();
    let mut k = d;
    while k > 0
        invariant
            k <= d == distinct@.len(),
            crate::sorted::strictly_ascending(distinct@),
            forall|y: i64| #[trigger] distinct@.contains(y) <==> exists|q: int| 0 <= q < n && keys@[q] == y,
            n == keys@.len(),
            r@.len() == d - k,
            forall|q: int| 0 <= q < r@.len() ==> #[trigger] r@[q].key == distinct@[d - 1 - q],
            forall|q: int| 0 <= q < r@.len() ==> key_group_matches(#[trigger] r@[q], keys@),
        decreases k,
    {
        k = k - 1;
        let key = distinct[k];
        assert(distinct@.contains(key));
        let indices = positions_of(keys, key);
        proof {
            let q = choose|q: int| 0 <= q < n && keys@[q] == key;
            assert(indices@.contains(q as usize));
        }
        r.push(KeyGroup { key, indices });
    }
    assert forall|a: int, b: int| 0 <= a < b < r@.len() implies #[trigger] r@[a].key > #[trigger] r@[b].key by {
        assert(r@[a].key == distinct@[d - 1 - a]);
        assert(r@[b].key == distinct@[d - 1 - b]);
    }
    assert forall|i: int| 0 <= i < keys@.len() implies has_group_key(r@, #[trigger] keys@[i]) by {
        assert(distinct@.contains(keys@[i]));
        let j = choose|j: int| 0 <= j < distinct@.len() && distinct@[j] == keys@[i];
        assert(r@[d - 1 - j].key == distinct@[j]);
    }
    r
}

/// The posts of one year's archive, newest first.
#[derive(Clone, Debug)]
pub struct YearGroup {
    pub year: i32,
    pub indices: Vec<usize>,
}

/// The posts of one month's archive, newest first.
#[derive(Clone, Debug)]
pub struct MonthGroup {
    pub year: i32,
    pub month: u8,
    pub indices: Vec<usize>,
}

/// Groups posts (given by their publication year) into year archives:
/// years descending, each listing exactly that year's posts, last first.
pub fn year_groups(years: &Vec<i32>) -> (r: Vec<YearGroup>)
    ensures
        forall|a: int, b: int| 0 <= a < b < r@.len() ==> #[trigger] r@[a].year > #[trigger] r@[b].year,
        forall|k: int| 0 <= k < r@.len() ==> {
            &&& descending_indices(#[trigger] r@[k].indices@)
            &&& r@[k].indices@.len() > 0
            &&& forall|i: usize| #[trigger] r@[k].indices@.contains(i) <==> (i < years@.len() && years@[i as int] == r@[k].year)
        },
        forall|i: int| 0 <= i < years@.len() ==> has_year_group(r@, #[trigger] years@[i]),
{
    let mut keys: Vec<i64> = Vec::new();
    let n = years.len();
    for i in 0..n
        invariant
            n == years@.len(),
            keys@.len() == i,
            forall|q: int| 0 <= q < i ==> #[trigger] keys@[q] == years@[q] as i64,
    {
        keys.push(years[i] as i64);
    }
    let groups = groups_by_key(&keys);
    let mut r: Vec<YearGroup> = Vec::new();
    let g = groups.len();
    for k in 0..g
        invariant
            g == groups@.len(),
            n == years@.len() == keys@.len(),
            forall|q: int| 0 <= q < n ==> #[trigger] keys@[q] == years@[q] as i64,
            forall|q: int| 0 <= q < g ==> key_group_matches(#[trigger] groups@[q], keys@),
            r@.len() == k,
            forall|q: int| 0 <= q < k ==> (#[trigger] r@[q]).year as i64 == groups@[q].key && r@[q].indices@ == groups@[q].indices@,
    {
        let grp = &groups[k];
        assert(key_group_matches(groups@[k as int], keys@));
        assert(grp.indices@.contains(grp.indices@[0]));
        let year = years[grp.indices[0]];
        r.push(YearGroup { year, indices: grp.indices.clone() });
    }
    assert forall|a: int, b: int| 0 <= a < b < r@.len() implies #[trigger] r@[a].year > #[trigger] r@[b].year by {
        assert(groups@[a].key > groups@[b].key);
    }
    assert forall|k: int| 0 <= k < r@.len() implies {
        &&& descending_indices(#[trigger] r@[k].indices@)
        &&& r@[k].indices@.len() > 0
        &&& forall|i: usize| #[trigger] r@[k].indices@.contains(i) <==> (i < years@.len() && years@[i as int] == r@[k].year)
    } by {
        assert(key_group_matches(groups@[k], keys@));
        assert forall|i: usize| #[trigger] r@[k].indices@.contains(i) <==> (i < years@.len() && years@[i as int] == r@[k].year) by {
            if i < years@.len() {
                assert(keys@[i as int] == years@[i as int] as i64);
            }
        }
    }
    assert forall|i: int| 0 <= i < years@.len() implies has_year_group(r@, #[trigger] years@[i]) by {
        assert(keys@[i] == years@[i] as i64);
        assert(has_group_key(groups@, keys@[i]));
        let k = choose|k: int| 0 <= k < groups@.len() && #[trigger] groups@[k].key == keys@[i];
        assert(r@[k].year as i64 == keys@[i]);
        assert(r@[k].year == years@[i]);
    }
    r
}

/// `(year, month)` comes after `(y2, m2)`.
pub open spec fn month_after(y1: i32, m1: u8, y2: i32, m2: u8) -> bool {
    y1 > y2 || (y1 == y2 && m1 > m2)
}

/// Whether some month group is for `(y, m)`.
pub open spec fn has_month_group(r: Seq<MonthGroup>, y: i32, m: u8) -> bool {
    exists|k: int| 0 <= k < r.len() && #[trigger] r[k].year == y && r[k].month == m
}

proof fn lemma_month_key(y1: i32, m1: u8, y2: i32, m2: u8)
    ensures
        (y1 as int) * 256 + (m1 as int) > (y2 as int) * 256 + (m2 as int) <==> month_after(y1, m1, y2, m2),
        (y1 as int) * 256 + (m1 as int) == (y2 as int) * 256 + (m2 as int) <==> (y1 == y2 && m1 == m2),
{
    assert((y1 as int) * 256 + (m1 as int) > (y2 as int) * 256 + (m2 as int) <==> month_after(y1, m1, y2, m2)) by (nonlinear_arith)
        requires
            0 <= m1 < 256,
            0 <= m2 < 256,
    ;
    assert((y1 as int) * 256 + (m1 as int) == (y2 as int) * 256 + (m2 as int) <==> (y1 == y2 && m1 == m2)) by (nonlinear_arith)
        requires
            0 <= m1 < 256,
            0 <= m2 < 256,
    ;
}

/// Groups posts (given by publication year and month) into month archives:
/// months descending, each listing exactly that month's posts, last first.
pub fn month_groups(dates: &Vec<(i32, u8)>) -> (r: Vec<MonthGroup>)
    ensures
        forall|a: int, b: int|
            0 <= a < b < r@.len() ==> month_after(#[trigger] r@[a].year, r@[a].month, #[trigger] r@[b].year, r@[b].month),
        forall|k: int| 0 <= k < r@.len() ==> {
            &&& descending_indices(#[trigger] r@[k].indices@)
            &&& r@[k].indices@.len() > 0
            &&& forall|i: usize| #[trigger] r@[k].indices@.contains(i) <==> (i < dates@.len() && dates@[i as int]
                == (r@[k].year, r@[k].month))
        },
        forall|i: int| 0 <= i < dates@.len() ==> has_month_group(r@, (#[trigger] dates@[i]).0, dates@[i].1),
{
    let mut keys: Vec<i64> = Vec::new();
    let n = dates.len();
    for i in 0..n
        invariant
            n == dates@.len(),
            keys@.len() == i,
            forall|q: int| 0 <= q < i ==> #[trigger] keys@[q] == (dates@[q].0 as int) * 256 + (dates@[q].1 as int),
    {
        let (y, m) = dates[i];
        keys.push((y as i64) * 256 + (m as i64));
    }
    let groups = groups_by_key(&keys);
    let mut r: Vec<MonthGroup> = Vec::new();
    let g = groups.len();
    for k in 0..g
        invariant
            g == groups@.len(),
            n == dates@.len() == keys@.len(),
            forall|q: int| 0 <= q < n ==> #[trigger] keys@[q] == (dates@[q].0 as int) * 256 + (dates@[q].1 as int),
            forall|q: int| 0 <= q < g ==> key_group_matches(#[trigger] groups@[q], keys@),
            r@.len() == k,
            forall|q: int| 0 <= q < k ==> (#[trigger] r@[q]).year as int * 256 + r@[q].month as int == groups@[q].key
                && r@[q].indices@ == groups@[q].indices@,
    {
        let grp = &groups[k];
        assert(key_group_matches(groups@[k as int], keys@));
        assert(grp.indices@.contains(grp.indices@[0]));
        let (year, month) = dates[grp.indices[0]];
        r.push(MonthGroup { year, month, indices: grp.indices.clone() });
    }
    assert forall|a: int, b: int| 0 <= a < b < r@.len() implies month_after(#[trigger] r@[a].year, r@[a].month, #[trigger] r@[b].year, r@[b].month) by {
        assert(groups@[a].key > groups@[b].key);
        lemma_month_key(r@[a].year, r@[a].month, r@[b].year, r@[b].month);
    }
    assert forall|k: int| 0 <= k < r@.len() implies {
        &&& descending_indices(#[trigger] r@[k].indices@)
        &&& r@[k].indices@.len() > 0
        &&& forall|i: usize| #[trigger] r@[k].indices@.contains(i) <==> (i < dates@.len() && dates@[i as int]
            == (r@[k].year, r@[k].month))
    } by {
        assert(key_group_matches(groups@[k], keys@));
        assert forall|i: usize| #[trigger] r@[k].indices@.contains(i) <==> (i < dates@.len() && dates@[i as int]
            == (r@[k].year, r@[k].month)) by {
            if i < dates@.len() {
                lemma_month_key(dates@[i as int].0, dates@[i as int].1, r@[k].year, r@[k].month);
            }
        }
    }
    assert forall|i: int| 0 <= i < dates@.len() implies has_month_group(r@, (#[trigger] dates@[i]).0, dates@[i].1) by {
        assert(has_group_key(groups@, keys@[i]));
        let k = choose|k: int| 0 <= k < groups@.len() && #[trigger] groups@[k].key == keys@[i];
        lemma_month_key(dates@[i].0, dates@[i].1, r@[k].year, r@[k].month);
    }
    r
}

/// How many entries of `s` equal `y`.
pub open spec fn count_year(s: Seq<i32>, y: i32) -> nat
    decreases s.len(),
{
    if s.len() == 0 {
        0
    } else {
        count_year(s.drop_last(), y) + if s.last() == y {
            1nat
        } else {
            0nat
        }
    }
}

/// A year and how many posts it has, as the archive index lists it.
#[derive(Clone, Copy, Debug, PartialEq, Eq, Structural)]
pub struct ArchiveYear {
    pub year: i32,
    pub count: usize,
}

/// Whether the archive index lists year `y`.
pub open spec fn has_archive_year(r: Seq<ArchiveYear>, y: i32) -> bool {
    exists|k: int| 0 <= k < r.len() && #[trigger] r[k].year == y
}

fn count_in(years: &Vec<i32>, y: i32) -> (r: usize)
    ensures
        r == count_year(years@, y),
{
    let mut c: usize = 0;
    let n = years.len();
    for i in 0..n
        invariant
            n == years@.len(),
            c == count_year(years@.take(i as int), y),
            c <= i,
    {
        assert(years@.take(i + 1).drop_last() =~= years@.take(i as int));
        if years[i] == y {
            c = c + 1;
        }
    }
    assert(years@.take(n as int) =~= years@);
    c
}

/// The years that have posts, newest first, each with its number of posts.
pub fn build_archive_years(years: &Vec<i32>) -> (r: Vec<ArchiveYear>)
    ensures
        forall|a: int, b: int| 0 <= a < b < r@.len() ==> #[trigger] r@[a].year > #[trigger] r@[b].year,
        forall|k: int| 0 <= k < r@.len() ==> (#[trigger] r@[k]).count == count_year(years@, r@[k].year)
            && r@[k].count > 0,
        forall|i: int| 0 <= i < years@.len() ==> has_archive_year(r@, #[trigger] years@[i]),
{
    let groups = year_groups(years);
    let mut r: Vec<ArchiveYear> = Vec::new();
    let g = groups.len();
    for k in 0..g
        invariant
            g == groups@.len(),
            r@.len() == k,
            forall|q: int| 0 <= q < k ==> (#[trigger] r@[q]).year == groups@[q].year
                && r@[q].count == count_year(years@, r@[q].year) && r@[q].count > 0,
            forall|q: int| 0 <= q < g ==> {
                &&& (#[trigger] groups@[q]).indices@.len() > 0
                &&& forall|i: usize| #[trigger] groups@[q].indices@.contains(i) <==> (i < years@.len() && years@[i as int] == groups@[q].year)
            },
    {
        let year = groups[k].year;
        let count = count_in(years, year);
        proof {
            let i = groups@[k as int].indices@[0];
            assert(groups@[k as int].indices@.contains(i));
            lemma_count_positive(years@, year, i as int);
        }
        r.push(ArchiveYear { year, count });
    }
    assert forall|a: int, b: int| 0 <= a < b < r@.len() implies #[trigger] r@[a].year > #[trigger] r@[b].year by {
        assert(groups@[a].year > groups@[b].year);
    }
    assert forall|i: int| 0 <= i < years@.len() implies has_archive_year(r@, #[trigger] years@[i]) by {
        assert(has_year_group(groups@, years@[i]));
        let k = choose|k: int| 0 <= k < groups@.len() && #[trigger] groups@[k].year == years@[i];
        assert(r@[k].year == years@[i]);
    }
    r
}

proof fn lemma_count_positive(s: Seq<i32>, y: i32, i: int)
    requires
        0 <= i < s.len(),
        s[i] == y,
    ensures
        count_year(s, y) > 0,
    decreases s.len(),
{
    if i < s.len() - 1 {
        lemma_count_positive(s.drop_last(), y, i);
    }
}

/// The cache key of a year archive: `archive_year:<YYYY>`.
pub open spec fn year_key_spec(year: int) -> Seq<char> {
    "archive_year:"@ + year_spec(year)
}

/// The cache key of a month archive: `archive_month:<YYYY>-<MM>`.
pub open spec fn month_key_spec(year: int, month: nat) -> Seq<char> {
    "archive_month:"@ + year_spec(year) + seq!['-'] + zero_padded(month, 2)
}

/// The cache key of a year archive.
pub fn year_archive_key(year: i32) -> (r: String)
    ensures
        r@ == year_key_spec(year as int),
{
    let mut out = chars_of("archive_year:");
    push_year(&mut out, year);
    string_of(&out)
}

/// The cache key of a month archive.
pub fn month_archive_key(year: i32, month: u8) -> (r: String)
    ensures
        r@ == month_key_spec(year as int, month as nat),
{
    let mut out = chars_of("archive_month:");
    push_year(&mut out, year);
    out.push('-');
    push_padded(&mut out, month as u64, 2);
    assert(out@ =~= month_key_spec(year as int, month as nat));
    string_of(&out)
}

/// The cache key of a tag index page: `tag_index:<slug>`.
pub fn tag_cache_key(slug: &str) -> (r: String)
    ensures
        r@ == "tag_index:"@ + slug@,
{
    let mut out = chars_of("tag_index:");
    extend_str(&mut out, slug);
    string_of(&out)
}

/// The cache key of a post: `post:<permalink>`.
pub fn post_cache_key(permalink: &str) -> (r: String)
    ensures
        r@ == "post:"@ + permalink@,
{
    let mut out = chars_of("post:");
    extend_str(&mut out, permalink);
    string_of(&out)
}

/// The year a year archive's cache key names.
pub open spec fn year_from_key_spec(key: Seq<char>) -> Option<int> {
    if crate::text::starts_with(key, "archive_year:"@) {
        parse_int_spec(key.skip(13), i32::MIN as int, i32::MAX as int)
    } else {
        None
    }
}

/// The year and month a month archive's cache key names.
pub open spec fn month_from_key_spec(key: Seq<char>) -> Option<(int, int)> {
    if crate::text::starts_with(key, "archive_month:"@) {
        let (ys, ms) = split_url_spec_at(key.skip(14), '-');
        match ms {
            None => None,
            Some(m) => match (parse_int_spec(ys, i32::MIN as int, i32::MAX as int), parse_unsigned_spec(m, 255)) {
                (Some(y), Some(mm)) => Some((y, mm)),
                _ => None,
            },
        }
    } else {
        None
    }
}

/// Reads back the year of a year archive's cache key.
pub fn year_from_key(key: &str) -> (r: Option<i32>)
    ensures
        match r {
            Some(y) => year_from_key_spec(key@) == Some(y as int),
            None => year_from_key_spec(key@) is None,
        },
{
    let k = chars_of(key);
    let prefix = chars_of("archive_year:");
    proof {
        reveal_strlit("archive_year:");
    }
    if !crate::text::matches_at(&k, &prefix, 0) {
        return None;
    }
    let rest = slice_chars(&k, 13, k.len());
    assert(rest@ =~= key@.skip(13));
    match parse_int(&rest, -2147483648, 2147483647) {
        Some(v) => Some(v as i32),
        None => None,
    }
}

/// Reads back the year and month of a month archive's cache key.
pub fn month_from_key(key: &str) -> (r: Option<(i32, u8)>)
    ensures
        match r {
            Some((y, m)) => month_from_key_spec(key@) == Some((y as int, m as int)),
            None => month_from_key_spec(key@) is None,
        },
{
    let k = chars_of(key);
    let prefix = chars_of("archive_month:");
    proof {
        reveal_strlit("archive_month:");
    }
    if !crate::text::matches_at(&k, &prefix, 0) {
        return None;
    }
    let rest = string_of(&slice_chars(&k, 14, k.len()));
    assert(rest@ =~= key@.skip(14));
    let (ys, ms) = crate::dev::split_once_str(rest.as_str(), '-');
    let m = match ms {
        Some(m) => m,
        None => return None,
    };
    let y = parse_int(&chars_of(ys.as_str()), -2147483648, 2147483647);
    let mm = parse_unsigned(&chars_of(m.as_str()), 255);
    match (y, mm) {
        (Some(y), Some(mm)) => Some((y as i32, mm as u8)),
        _ => None,
    }
}

proof fn lemma_no_sep_single(a: Seq<char>, sep: char)
    requires
        !a.contains(sep),
    ensures
        split_on(a, sep) == seq![a],
    decreases a.len(),
{
    if a.len() > 0 {
        assert(!a.drop_last().contains(sep)) by {
            if a.drop_last().contains(sep) {
                let k = choose|k: int| 0 <= k < a.drop_last().len() && a.drop_last()[k] == sep;
                assert(a[k] == sep);
            }
        }
        lemma_no_sep_single(a.drop_last(), sep);
        assert(a.last() != sep) by {
            assert(a[a.len() - 1] == a.last());
        }
        assert(a.drop_last().push(a.last()) =~= a);
        assert(seq![a.drop_last()].update(0, a.drop_last().push(a.last())) =~= seq![a]);
    } else {
        assert(a =~= Seq::<char>::empty());
    }
}

proof fn lemma_split_after(a: Seq<char>, sep: char, b: Seq<char>)
    requires
        !a.contains(sep),
    ensures
        split_on(a.push(sep) + b, sep).len() > 1,
        split_on(a.push(sep) + b, sep)[0] == a,
    decreases b.len(),
{
    let s = a.push(sep) + b;
    if b.len() == 0 {
        assert(s =~= a.push(sep));
        assert(s.drop_last() =~= a);
        lemma_no_sep_single(a, sep);
    } else {
        assert(s.drop_last() =~= a.push(sep) + b.drop_last());
        lemma_split_after(a, sep, b.drop_last());
    }
}

proof fn lemma_digits_no_sign(s: Seq<char>)
    requires
        all_digits(s),
        s.len() > 0,
    ensures
        s[0] != '+' && s[0] != '-',
        !s.contains('-'),
{
    assert(crate::text::is_digit(s[0]));
    assert(!s.contains('-')) by {
        if s.contains('-') {
            let k = choose|k: int| 0 <= k < s.len() && s[k] == '-';
            assert(crate::text::is_digit(s[k]));
        }
    }
}

proof fn lemma_year_reads_back(y: int)
    requires
        i32::MIN <= y <= i32::MAX,
    ensures
        parse_int_spec(year_spec(y), i32::MIN as int, i32::MAX as int) == Some(y),
{
    if y < 0 {
        crate::text::lemma_padded_value((-y) as nat, 3);
        let s = year_spec(y);
        assert(s.drop_first() =~= zero_padded((-y) as nat, 3));
    } else {
        crate::text::lemma_padded_value(y as nat, 4);
        lemma_digits_no_sign(zero_padded(y as nat, 4));
    }
}

/// A year archive's cache key reads back as its year.
pub proof fn year_key_round_trip(year: i32)
    ensures
        year_from_key_spec(year_key_spec(year as int)) == Some(year as int),
{
    let key = year_key_spec(year as int);
    reveal_strlit("archive_year:");
    assert(key.skip(13) =~= year_spec(year as int));
    assert(crate::text::starts_with(key, "archive_year:"@)) by {
        assert(key.subrange(0, 13) =~= "archive_year:"@);
    }
    lemma_year_reads_back(year as int);
}

/// A month archive's cache key reads back as its year and month, for years
/// from 0 on (before year 0 the key's `-` sign is taken as the separator).
pub proof fn month_key_round_trip(year: i32, month: u8)
    requires
        year >= 0,
    ensures
        month_from_key_spec(month_key_spec(year as int, month as nat)) == Some((year as int, month as int)),
{
    let key = month_key_spec(year as int, month as nat);
    reveal_strlit("archive_month:");
    let ys = zero_padded(year as nat, 4);
    let ms = zero_padded(month as nat, 2);
    assert(key.skip(14) =~= ys.push('-') + ms);
    assert(crate::text::starts_with(key, "archive_month:"@)) by {
        assert(key.subrange(0, 14) =~= "archive_month:"@);
    }
    crate::text::lemma_padded_value(year as nat, 4);
    crate::text::lemma_padded_value(month as nat, 2);
    lemma_digits_no_sign(ys);
    lemma_digits_no_sign(ms);
    lemma_split_after(ys, '-', ms);
    assert(key.skip(14).skip(ys.len() as int + 1) =~= ms);
    lemma_year_reads_back(year as int);
}

} // verus!
