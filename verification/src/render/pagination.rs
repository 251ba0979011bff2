//! Homepage pagination: which posts land on which page and how pages link.

use vstd::prelude::*;

use crate::text::{chars_of, decimal, extend_str, push_decimal, string_of};

verus! {

/// How the posts are split into pages.
pub struct PaginationLayout {
    pub per_page: usize,
    pub regular_page_count: usize,
}

/// Posts per page: the configured count, at least one.
pub open spec fn per_page_spec(homepage_posts: nat) -> nat {
    if homepage_posts < 1 {
        1
    } else {
        homepage_posts
    }
}

/// How many posts the homepage shows: all of them when there are fewer than a
/// page, otherwise one page plus whatever does not fill a whole page.
pub open spec fn home_page_size_spec(post_count: nat, per_page: nat) -> nat {
    if post_count < per_page {
        post_count
    } else if post_count % per_page == 0 {
        per_page
    } else {
        per_page + post_count % per_page
    }
}

/// The number of numbered pages before the homepage.
pub open spec fn regular_page_count_spec(post_count: nat, homepage_posts: nat) -> nat {
    let per = per_page_spec(homepage_posts);
    ((post_count - home_page_size_spec(post_count, per)) / (per as int)) as nat
}

/// Splits `post_count` posts into numbered pages of `homepage_posts` posts
/// (at least one) and a homepage holding the rest.
pub fn compute_pagination_layout(post_count: usize, homepage_posts: usize) -> (l: PaginationLayout)
    ensures
        l.per_page == per_page_spec(homepage_posts as nat),
        l.regular_page_count == regular_page_count_spec(post_count as nat, homepage_posts as nat),
{
    let per_page = if homepage_posts < 1 {
        1
    } else {
        homepage_posts
    };
    let remainder = post_count % per_page;
    let home_page_size = if post_count < per_page {
        post_count
    } else if remainder == 0 {
        per_page
    } else if remainder < per_page {
        assert(remainder + per_page <= post_count) by (nonlinear_arith)
            requires
                post_count >= per_page,
                remainder == post_count % per_page,
                per_page > 0,
        ;
        remainder + per_page
    } else {
        per_page
    };
    let regular_page_count = (post_count - home_page_size) / per_page;
    PaginationLayout { per_page, regular_page_count }
}

/// The numbered pages and the homepage together hold every post exactly
/// once: the numbered pages are full, the homepage holds the rest, and that
/// rest is a whole page plus what does not fill one (or everything, when
/// there is less than a page). The number of numbered pages is one less than
/// the number of whole pages.
pub proof fn pagination_partitions_posts(post_count: nat, homepage_posts: nat)
    ensures
        ({
            let per = per_page_spec(homepage_posts);
            let regular = regular_page_count_spec(post_count, homepage_posts);
            let home = home_page_size_spec(post_count, per);
            &&& regular * per + home == post_count
            &&& post_count < per ==> regular == 0 && home == post_count
            &&& post_count >= per ==> per <= home < 2 * per
            &&& post_count >= per ==> regular == post_count / per - 1
        }),
{
    let per = per_page_spec(homepage_posts);
    let home = home_page_size_spec(post_count, per);
    let q = post_count / per;
    let r = post_count % per;
    assert(post_count == q * per + r && r < per) by (nonlinear_arith)
        requires
            per > 0,
            q == post_count / per,
            r == post_count % per,
    ;
    if post_count >= per {
        assert(q >= 1) by (nonlinear_arith)
            requires
                post_count == q * per + r,
                r < per,
                post_count >= per,
        ;
        assert(post_count - home == (q - 1) * per) by (nonlinear_arith)
            requires
                post_count == q * per + r,
                home == (if r == 0 { per } else { per + r }),
        ;
        assert(((q - 1) * per) / (per as int) == q - 1) by (nonlinear_arith)
            requires
                per > 0,
                q >= 1,
        ;
        let regular = regular_page_count_spec(post_count, homepage_posts);
        assert(regular == q - 1);
        assert(regular * per == (q - 1) * per);
        assert(regular * per + home == post_count);
    } else {
        assert(home == post_count);
        assert(post_count - home == 0);
        assert(0int / (per as int) == 0);
        assert(regular_page_count_spec(post_count, homepage_posts) == 0);
    }
}

/// Later posts never move an existing numbered page: with more posts there are
/// at least as many numbered pages, and page `p` covers the same posts.
pub proof fn pagination_pages_are_stable(older: nat, newer: nat, homepage_posts: nat)
    requires
        older <= newer,
    ensures
        regular_page_count_spec(older, homepage_posts) <= regular_page_count_spec(newer, homepage_posts),
        forall|i: int|
            0 <= i < regular_page_count_spec(older, homepage_posts) ==> #[trigger] page_ranges_spec(
                older,
                homepage_posts,
            )[i] == page_ranges_spec(newer, homepage_posts)[i],
{
    pagination_partitions_posts(older, homepage_posts);
    pagination_partitions_posts(newer, homepage_posts);
    let per = per_page_spec(homepage_posts);
    assert(older / per <= newer / per) by (nonlinear_arith)
        requires
            per > 0,
            older <= newer,
    ;
}

/// The posts `[start, end)` shown on page `page_number` (0 is the homepage).
#[derive(Clone, Copy, Debug, PartialEq, Eq, Structural)]
pub struct PageRange {
    pub page_number: usize,
    pub start: usize,
    pub end: usize,
}

/// The post range of each page: numbered pages `1..=regular` in order, each a
/// full page starting from the oldest post, then the homepage with the rest.
pub open spec fn page_ranges_spec(post_count: nat, homepage_posts: nat) -> Seq<PageRange> {
    let per = per_page_spec(homepage_posts);
    let regular = regular_page_count_spec(post_count, homepage_posts);
    Seq::new(regular, |i: int| PageRange {
        page_number: (i + 1) as usize,
        start: (i * per) as usize,
        end: ((i + 1) * per) as usize,
    }).push(PageRange { page_number: 0, start: (regular * per) as usize, end: post_count as usize })
}

/// The range of every page, numbered pages first and the homepage last.
pub fn page_ranges(post_count: usize, homepage_posts: usize) -> (r: Vec<PageRange>)
    ensures
        r@ == page_ranges_spec(post_count as nat, homepage_posts as nat),
{
    let layout = compute_pagination_layout(post_count, homepage_posts);
    proof {
        pagination_partitions_posts(post_count as nat, homepage_posts as nat);
    }
    let per = layout.per_page;
    let regular = layout.regular_page_count;
    let mut r: Vec<PageRange> = Vec::new();
    let mut i: usize = 0;
    while i < regular
        invariant
            i <= regular,
            per == per_page_spec(homepage_posts as nat),
            regular == regular_page_count_spec(post_count as nat, homepage_posts as nat),
            regular * per <= post_count,
            r@ == Seq::new(i as nat, |k: int| PageRange {
                page_number: (k + 1) as usize,
                start: (k * per) as usize,
                end: ((k + 1) * per) as usize,
            }),
        decreases regular - i,
    {
        assert((i + 1) * per <= regular * per) by (nonlinear_arith)
            requires
                i < regular,
                per > 0,
        ;
        assert(i * per + per == (i + 1) * per) by (nonlinear_arith);
        let start = i * per;
        let end = start + per;
        r.push(PageRange { page_number: i + 1, start, end });
        assert(r@ =~= Seq::new((i + 1) as nat, |k: int| PageRange {
            page_number: (k + 1) as usize,
            start: (k * per) as usize,
            end: ((k + 1) * per) as usize,
        }));
        i = i + 1;
    }
    r.push(PageRange { page_number: 0, start: regular * per, end: post_count });
    assert(r@ =~= page_ranges_spec(post_count as nat, homepage_posts as nat));
    r
}

/// The URL of numbered page `n`.
pub open spec fn page_url_spec(n: nat) -> Seq<char> {
    "/page/"@ + decimal(n) + seq!['/']
}

/// The URL of numbered page `page_number`: `/page/<n>/`.
pub fn page_url(page_number: usize) -> (r: String)
    ensures
        r@ == page_url_spec(page_number as nat),
{
    let mut out: Vec<char> = Vec::new();
    extend_str(&mut out, "/page/");
    push_decimal(&mut out, page_number as u64);
    out.push('/');
    assert(out@ =~= page_url_spec(page_number as nat));
    string_of(&out)
}

/// The pagination links of one page, as a template sees them.
pub struct PaginationContext {
    pub current: usize,
    pub total: usize,
    pub prev: String,
    pub next: String,
}

/// Page `page_number`'s previous and next links, among `regular` numbered
/// pages followed by the homepage (page 0). Numbered pages run from the
/// oldest posts; the homepage comes last, so its previous link is the last
/// numbered page and the last numbered page's next link is `/`.
pub open spec fn page_links_spec(page_number: nat, regular: nat) -> (Seq<char>, Seq<char>) {
    if page_number == 0 {
        (if regular > 0 {
            page_url_spec(regular)
        } else {
            Seq::<char>::empty()
        }, Seq::<char>::empty())
    } else {
        (if page_number == 1 {
            Seq::<char>::empty()
        } else {
            page_url_spec((page_number - 1) as nat)
        }, if page_number < regular {
            page_url_spec(page_number + 1)
        } else {
            seq!['/']
        })
    }
}

/// The pagination context of page `page_number` (0 is the homepage) among
/// `regular` numbered pages.
pub fn pagination_context(page_number: usize, regular: usize) -> (c: PaginationContext)
    requires
        regular < usize::MAX,
    ensures
        c.total == regular + 1,
        c.current == (if page_number == 0 { regular + 1 } else { page_number as int }),
        (c.prev@, c.next@) == page_links_spec(page_number as nat, regular as nat),
{
    let total = regular + 1;
    let (prev, next) = if page_number == 0 {
        let prev = if regular > 0 {
            page_url(regular)
        } else {
            String::new()
        };
        (prev, String::new())
    } else if page_number == 1 {
        let next = if page_number < regular {
            page_url(page_number + 1)
        } else {
            string_of(&crate::text::single('/'))
        };
        (String::new(), next)
    } else {
        let prev = page_url(page_number - 1);
        let next = if page_number < regular {
            page_url(page_number + 1)
        } else {
            string_of(&crate::text::single('/'))
        };
        (prev, next)
    };
    PaginationContext {
        current: if page_number == 0 {
            total
        } else {
            page_number
        },
        total,
        prev,
        next,
    }
}

/// A homepage page as the cache records it: its number (0 for the
/// homepage), the keys of its posts in display order, and a digest of what
/// it shows.
#[derive(Clone, Debug)]
pub struct StoredPage {
    pub page_number: usize,
    pub posts: Vec<String>,
    pub content_digest: String,
}

/// The keys of the posts `[start, end)`, newest first.
pub open spec fn page_keys(keys: Seq<Seq<char>>, start: int, end: int) -> Seq<Seq<char>> {
    keys.subrange(start, end).reverse()
}

/// The pages of the homepage: for each page range (numbered pages, then the
/// homepage), its number and its posts' keys, newest first.
pub fn homepage_pages(keys: &Vec<String>, homepage_posts: usize) -> (r: Vec<(usize, Vec<String>)>)
    ensures
        r@.len() == page_ranges_spec(keys@.len() as nat, homepage_posts as nat).len(),
        forall|i: int| 0 <= i < r@.len() ==> {
            let range = page_ranges_spec(keys@.len() as nat, homepage_posts as nat)[i];
            &&& (#[trigger] r@[i]).0 == range.page_number
            &&& crate::text::string_views(r@[i].1@) == page_keys(
                crate::text::string_views(keys@),
                range.start as int,
                range.end as int,
            )
        },
{
    let klen = keys.len();
    let ranges = page_ranges(klen, homepage_posts);
    proof {
        pagination_partitions_posts(keys@.len() as nat, homepage_posts as nat);
    }
    let mut r: Vec<(usize, Vec<String>)> = Vec::new();
    let n = ranges.len();
    for i in 0..n
        invariant
            n == ranges@.len(),
            klen == keys@.len(),
            ranges@ == page_ranges_spec(keys@.len() as nat, homepage_posts as nat),
            regular_page_count_spec(keys@.len() as nat, homepage_posts as nat) * per_page_spec(homepage_posts as nat)
                <= keys@.len(),
            r@.len() == i,
            forall|q: int| 0 <= q < i ==> {
                let range = ranges@[q];
                &&& (#[trigger] r@[q]).0 == range.page_number
                &&& crate::text::string_views(r@[q].1@) == page_keys(
                    crate::text::string_views(keys@),
                    range.start as int,
                    range.end as int,
                )
            },
    {
        let range = ranges[i];
        proof {
            pagination_partitions_posts(keys@.len() as nat, homepage_posts as nat);
        }
        assert(range.start <= range.end <= keys@.len()) by {
            let per = per_page_spec(homepage_posts as nat);
            let regular = regular_page_count_spec(keys@.len() as nat, homepage_posts as nat);
            if i < n - 1 {
                assert((i + 1) * per <= regular * per) by (nonlinear_arith)
                    requires
                        i < regular,
                        per > 0,
                ;
                assert(0 <= i * per <= (i + 1) * per) by (nonlinear_arith)
                    requires
                        per > 0,
                        i >= 0,
                ;
                assert(ranges@[i as int] == PageRange {
                    page_number: (i + 1) as usize,
                    start: (i * per) as usize,
                    end: ((i + 1) * per) as usize,
                });
            } else {
                assert(ranges@[i as int] == PageRange {
                    page_number: 0,
                    start: (regular * per) as usize,
                    end: keys@.len() as usize,
                });
            }
        }
        let mut page: Vec<String> = Vec::new();
        let mut j = range.end;
        while j > range.start
            invariant
                range.start <= j <= range.end <= keys@.len(),
                crate::text::string_views(page@) == crate::text::string_views(keys@).subrange(j as int, range.end as int).reverse(),
            decreases j,
        {
            j = j - 1;
            let ghost before = page@;
            page.push(keys[j].clone());
            assert(crate::text::string_views(page@) =~= crate::text::string_views(before).push(keys@[j as int]@));
            assert(crate::text::string_views(keys@).subrange(j as int, range.end as int).reverse() =~= crate::text::string_views(
                keys@,
            ).subrange(j + 1, range.end as int).reverse().push(keys@[j as int]@));
        }
        r.push((range.page_number, page));
    }
    r
}

/// Whether a homepage page must be rendered again: always in a full build;
/// otherwise when the cache has no page with its number (the last record
/// for a number counts) or that page listed other posts or showed other
/// content.
pub open spec fn page_needs_render_spec(full: bool, stored: Seq<(nat, Seq<Seq<char>>, Seq<char>)>, page: (nat, Seq<Seq<char>>, Seq<char>)) -> bool {
    if full {
        true
    } else {
        match last_record(stored, page.0, stored.len() as int) {
            None => true,
            Some(k) => stored[k].1 != page.1 || stored[k].2 != page.2,
        }
    }
}

/// The position of the last record (below `n`) for page `number`.
pub open spec fn last_record(stored: Seq<(nat, Seq<Seq<char>>, Seq<char>)>, number: nat, n: int) -> Option<int>
    decreases n,
{
    if n <= 0 {
        None
    } else if stored[n - 1].0 == number {
        Some(n - 1)
    } else {
        last_record(stored, number, n - 1)
    }
}

/// A stored page as text.
pub open spec fn page_view(p: StoredPage) -> (nat, Seq<Seq<char>>, Seq<char>) {
    (p.page_number as nat, crate::text::string_views(p.posts@), p.content_digest@)
}

fn same_keys(a: &Vec<String>, b: &Vec<String>) -> (r: bool)
    ensures
        r == (crate::text::string_views(a@) == crate::text::string_views(b@)),
{
    if a.len() != b.len() {
        assert(crate::text::string_views(a@).len() != crate::text::string_views(b@).len());
        return false;
    }
    let n = a.len();
    for i in 0..n
        invariant
            n == a@.len() == b@.len(),
            forall|k: int| 0 <= k < i ==> a@[k]@ == b@[k]@,
    {
        if !crate::text::chars_eq(&chars_of(a[i].as_str()), &chars_of(b[i].as_str())) {
            assert(crate::text::string_views(a@)[i as int] != crate::text::string_views(b@)[i as int]);
            return false;
        }
    }
    assert(crate::text::string_views(a@) =~= crate::text::string_views(b@));
    true
}

/// Decides whether a homepage page must be rendered again, given the pages
/// the cache holds.
pub fn page_needs_render(full: bool, stored: &Vec<StoredPage>, page: &StoredPage) -> (r: bool)
    ensures
        r == page_needs_render_spec(full, stored@.map_values(|p: StoredPage| page_view(p)), page_view(*page)),
{
    let ghost sv = stored@.map_values(|p: StoredPage| page_view(p));
    if full {
        return true;
    }
    let mut k = stored.len();
    while k > 0
        invariant
            k <= stored@.len() == sv.len(),
            !full,
            sv == stored@.map_values(|p: StoredPage| page_view(p)),
            last_record(sv, page.page_number as nat, sv.len() as int) == last_record(sv, page.page_number as nat, k as int),
        decreases k,
    {
        k = k - 1;
        if stored[k].page_number == page.page_number {
            assert(sv[k as int] == page_view(stored@[k as int]));
            assert(last_record(sv, page.page_number as nat, k + 1) == Some(k as int));
            let keys_same = same_keys(&stored[k].posts, &page.posts);
            let digest_same = crate::text::chars_eq(
                &chars_of(stored[k].content_digest.as_str()),
                &chars_of(page.content_digest.as_str()),
            );
            assert(keys_same == (sv[k as int].1 == page_view(*page).1));
            assert(digest_same == (sv[k as int].2 == page_view(*page).2));
            return !(keys_same && digest_same);
        }
    }
    true
}

/// How pages link, among `regular` numbered pages and the homepage (page 0):
/// a numbered page after the first links back to the page just before it
/// and page 1 links back nowhere; a numbered page links on to the page just
/// after it, the last one to the homepage `/`; the homepage links back to
/// the last numbered page (if any) and on nowhere. So following "next" from
/// a page and then "previous" comes back to it.
pub proof fn pages_link_to_their_neighbours(page_number: nat, regular: nat)
    ensures
        page_number >= 2 ==> page_links_spec(page_number, regular).0 == "/page/"@ + decimal(
            (page_number - 1) as nat,
        ) + "/"@,
        page_number == 1 ==> page_links_spec(page_number, regular).0 == Seq::<char>::empty(),
        1 <= page_number < regular ==> page_links_spec(page_number, regular).1 == "/page/"@ + decimal(
            page_number + 1,
        ) + "/"@,
        1 <= page_number && page_number >= regular ==> page_links_spec(page_number, regular).1 == "/"@,
        page_number == 0 ==> page_links_spec(page_number, regular).1 == Seq::<char>::empty(),
        page_number == 0 && regular > 0 ==> page_links_spec(page_number, regular).0 == "/page/"@ + decimal(
            regular,
        ) + "/"@,
        page_number == 0 && regular == 0 ==> page_links_spec(page_number, regular).0 == Seq::<char>::empty(),
        1 <= page_number < regular ==> page_links_spec(page_number + 1, regular).0 == "/page/"@ + decimal(
            page_number,
        ) + "/"@,
{
    reveal_strlit("/");
    assert(seq!['/'] =~= "/"@);
}

} // verus!
