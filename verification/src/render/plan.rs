//! What a render run does.

use vstd::prelude::*;

verus! {

/// What a render run covers and how.
#[derive(Clone, Copy, Debug)]
pub struct RenderPlan {
    pub posts: bool,
    pub static_assets: bool,
    pub mode: BuildMode,
    pub verbose: bool,
}

/// Whether every output is regenerated or only what changed.
#[derive(Clone, Copy, Debug, PartialEq, Eq, Structural)]
pub enum BuildMode {
    Full,
    Changed,
}

/// The mode a run actually uses: a requested incremental run becomes a full
/// one when the configuration or the templates changed since the last run.
pub open spec fn effective_mode_spec(requested: BuildMode, site_changed: bool) -> BuildMode {
    match requested {
        BuildMode::Full => BuildMode::Full,
        BuildMode::Changed => if site_changed {
            BuildMode::Full
        } else {
            BuildMode::Changed
        },
    }
}

pub fn effective_mode(requested: BuildMode, site_changed: bool) -> (m: BuildMode)
    ensures
        m == effective_mode_spec(requested, site_changed),
{
    match requested {
        BuildMode::Full => BuildMode::Full,
        BuildMode::Changed => if site_changed {
            BuildMode::Full
        } else {
            BuildMode::Changed
        },
    }
}

/// Whether an output whose cache entry holds `cached` must be written again,
/// when its fresh digest is `digest` and the output file exists or not.
pub open spec fn needs_render_spec(
    mode: BuildMode,
    cached: Option<Seq<char>>,
    digest: Seq<char>,
    output_exists: bool,
) -> bool {
    ||| mode == BuildMode::Full
    ||| cached != Some(digest)
    ||| !output_exists
}

/// Decides whether a cached output must be rendered again.
pub fn needs_render(mode: BuildMode, cached: &Option<String>, digest: &String, output_exists: bool) -> (r: bool)
    ensures
        r == needs_render_spec(
            mode,
            match cached {
                Some(c) => Some(c@),
                None => None,
            },
            digest@,
            output_exists,
        ),
{
    if mode == BuildMode::Full {
        return true;
    }
    match cached {
        Some(c) => {
            if *c == *digest {
                !output_exists
            } else {
                true
            }
        },
        None => true,
    }
}

/// The stored keys (in the order given) that are not to be kept.
pub open spec fn stale_spec(stored: Seq<Seq<char>>, keep: Seq<Seq<char>>) -> Seq<Seq<char>> {
    stored.filter(|k: Seq<char>| !keep.contains(k))
}

/// The cache keys to drop after a render: those stored that the render did
/// not keep, in the order they were stored.
pub fn stale_keys(stored: &Vec<String>, keep: &Vec<String>) -> (r: Vec<String>)
    ensures
        crate::text::string_views(r@) == stale_spec(crate::text::string_views(stored@), crate::text::string_views(keep@)),
{
    let ghost ks = crate::text::string_views(keep@);
    let ghost ss = crate::text::string_views(stored@);
    let mut r: Vec<String> = Vec::new();
    let n = stored.len();
    for i in 0..n
        invariant
            n == stored@.len(),
            ks == crate::text::string_views(keep@),
            ss == crate::text::string_views(stored@),
            crate::text::string_views(r@) == stale_spec(ss.take(i as int), ks),
    {
        let mut kept = false;
        let m = keep.len();
        for j in 0..m
            invariant
                m == keep@.len(),
                i < stored@.len(),
                ks == crate::text::string_views(keep@),
                kept <==> exists|q: int| 0 <= q < j && ks[q] == stored@[i as int]@,
        {
            assert(ks[j as int] == keep@[j as int]@);
            if crate::text::chars_eq(&crate::text::chars_of(keep[j].as_str()), &crate::text::chars_of(stored[i].as_str())) {
                kept = true;
            }
        }
        assert(kept <==> ks.contains(stored@[i as int]@));
        let ghost before = r@;
        if !kept {
            r.push(stored[i].clone());
        }
        assert(ss.take(i + 1) =~= ss.take(i as int).push(ss[i as int]));
        assert(ss[i as int] == stored@[i as int]@);
        proof {
            ss.take(i as int).lemma_filter_push(ss[i as int], |k: Seq<char>| !ks.contains(k));
        }
        assert(crate::text::string_views(r@) =~= stale_spec(ss.take(i + 1), ks));
    }
    assert(ss.take(n as int) =~= ss);
    r
}

/// Cached pages (tag pages, year and month archives, feeds) go with the
/// last post that made them: after a render, a stored key is dropped exactly
/// when the render did not produce it again, and a key it produced is kept.
pub proof fn pages_go_with_their_last_post(stored: Seq<Seq<char>>, keep: Seq<Seq<char>>, k: Seq<char>)
    ensures
        stale_spec(stored, keep).contains(k) <==> (stored.contains(k) && !keep.contains(k)),
{
    broadcast use vstd::seq_lib::group_filter_ensures;
    let pred = |x: Seq<char>| !keep.contains(x);
    if stored.contains(k) && !keep.contains(k) {
        let i = choose|i: int| 0 <= i < stored.len() && stored[i] == k;
        assert(stored.filter(pred).contains(stored[i]));
    }
    if stale_spec(stored, keep).contains(k) {
        let j = choose|j: int| 0 <= j < stored.filter(pred).len() && stored.filter(pred)[j] == k;
        assert(pred(stored.filter(pred)[j]));
        stored.lemma_filter_contains_rev(pred, k);
    }
}

/// Incremental rebuilds: an output is left alone exactly when the run was
/// asked to be incremental, neither the configuration nor the templates
/// changed, its file exists and its cache entry holds its current digest. In
/// particular, once an output was written and its digest stored, a later
/// incremental run over an unchanged site skips it, and after a change to
/// the configuration or the templates every output is written again.
pub proof fn rebuild_skips_exactly_unchanged_outputs(
    requested: BuildMode,
    site_changed: bool,
    cached: Option<Seq<char>>,
    digest: Seq<char>,
    output_exists: bool,
)
    ensures
        !needs_render_spec(effective_mode_spec(requested, site_changed), cached, digest, output_exists) <==> (
        requested == BuildMode::Changed && !site_changed && output_exists && cached == Some(digest)),
        !needs_render_spec(effective_mode_spec(BuildMode::Changed, false), Some(digest), digest, true),
        needs_render_spec(effective_mode_spec(requested, true), cached, digest, output_exists),
{
}

} // verus!
