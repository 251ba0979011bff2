//! Where a project and its posts live.

use vstd::prelude::*;

use crate::disk::{ask_disk, first_found, lemma_first_found_member, pick_probe, probe_view, probes_view, Probe, ProbeKind};
use crate::text::{chars_of, extend_chars, single, string_of, views};
use crate::text::join;
use crate::utils::{components, join_path, join_path_spec, path_components};
use super::datetime::{date_prefix, date_prefix_text, DateTime};

verus! {

/// A path written back from its components: a leading root component
/// becomes the leading `/`, the others are joined with `/`.
pub open spec fn render_components(cs: Seq<Seq<char>>) -> Seq<char> {
    if cs.len() > 0 && cs[0] == seq!['/'] {
        seq!['/'] + join(cs.drop_first(), seq!['/'])
    } else {
        join(cs, seq!['/'])
    }
}

/// The directories above `start`: the paths made of its leading components,
/// from the longest proper prefix down to the root (or, for a relative path,
/// down to the empty path, the current directory).
pub open spec fn is_ancestor_or_self(start: Seq<char>, dir: Seq<char>) -> bool {
    let cs = path_components(start);
    let lowest: int = if cs.len() > 0 && cs[0] == seq!['/'] { 1 } else { 0 };
    ||| dir == start
    ||| exists|j: int| lowest <= j < cs.len() && dir == #[trigger] render_components(cs.take(j))
}

fn join_from(items: &Vec<Vec<char>>, from: usize, to: usize) -> (r: Vec<char>)
    requires
        from <= to <= items@.len(),
    ensures
        r@ == join(views(items@).subrange(from as int, to as int), seq!['/']),
{
    let mut r: Vec<char> = Vec::new();
    let mut i = from;
    assert(views(items@).subrange(from as int, from as int) =~= Seq::<Seq<char>>::empty());
    while i < to
        invariant
            from <= i <= to <= items@.len(),
            r@ == join(views(items@).subrange(from as int, i as int), seq!['/']),
        decreases to - i,
    {
        let ghost t1 = views(items@).subrange(from as int, i + 1);
        assert(t1.drop_last() =~= views(items@).subrange(from as int, i as int));
        assert(t1.last() == items@[i as int]@);
        if i > from {
            r.push('/');
        }
        extend_chars(&mut r, &items[i]);
        assert(r@ =~= join(t1, seq!['/']));
        i = i + 1;
    }
    r
}

fn render_prefix(cs: &Vec<Vec<char>>, j: usize, rooted: bool) -> (r: Vec<char>)
    requires
        j <= cs@.len(),
        rooted ==> j >= 1,
        rooted == (cs@.len() > 0 && cs@[0]@ == seq!['/']),
    ensures
        r@ == render_components(views(cs@).take(j as int)),
{
    let ghost pre = views(cs@).take(j as int);
    if rooted {
        let mut r = single('/');
        let tail = join_from(cs, 1, j);
        extend_chars(&mut r, &tail);
        assert(pre.drop_first() =~= views(cs@).subrange(1, j as int));
        assert(pre[0] == views(cs@)[0]);
        r
    } else {
        let r = join_from(cs, 0, j);
        assert(pre =~= views(cs@).subrange(0, j as int));
        proof {
            if pre.len() > 0 {
                assert(pre[0] == cs@[0]@);
            }
        }
        r
    }
}

/// Why no project root was found.
#[derive(Clone, Debug, PartialEq, Eq, Structural)]
pub enum ProjectRootError {
    /// No directory from the start upwards holds `bckt.yaml`.
    NotFound,
}

impl ProjectRootError {
    /// The message shown when no project root was found from `start`.
    pub fn message(&self, start: &str) -> (r: String)
        ensures
            r@ == "could not locate bckt.yaml starting from "@ + start@,
    {
        let mut out = chars_of("could not locate bckt.yaml starting from ");
        extend_chars(&mut out, &chars_of(start));
        string_of(&out)
    }
}

/// The directories that may hold `bckt.yaml`, nearest first: `start`
/// itself, then each directory above it up to the root (or, for a relative
/// path, up to the empty path, the current directory).
pub open spec fn root_candidates(start: Seq<char>) -> Seq<Seq<char>> {
    let cs = path_components(start);
    let lowest: int = if cs.len() > 0 && cs[0] == seq!['/'] { 1 } else { 0 };
    seq![start] + Seq::new((cs.len() - lowest) as nat, |k: int| render_components(cs.take(cs.len() - 1 - k)))
}

/// The questions asked of the disk when looking for the project root:
/// whether `<candidate>/bckt.yaml` exists, for each candidate in order.
pub open spec fn root_probes_spec(start: Seq<char>) -> Seq<(Seq<char>, ProbeKind, Seq<char>)> {
    root_candidates(start).map_values(|c: Seq<char>| (join_path_spec(c, "bckt.yaml"@), ProbeKind::Exists, c))
}

/// The project root given the disk's answers to the probes: the first
/// candidate whose `bckt.yaml` exists, `NotFound` when none does.
pub open spec fn root_answer(start: Seq<char>, found: Seq<bool>) -> Result<Seq<char>, ProjectRootError> {
    match first_found(root_probes_spec(start), found) {
        Some(d) => Ok(d),
        None => Err(ProjectRootError::NotFound),
    }
}

/// Every candidate is `start` or one of the directories above it.
pub proof fn lemma_root_candidates_ancestors(start: Seq<char>)
    ensures
        forall|i: int|
            0 <= i < root_candidates(start).len() ==> is_ancestor_or_self(start, #[trigger] root_candidates(start)[i]),
{
    let cs = path_components(start);
    let lowest: int = if cs.len() > 0 && cs[0] == seq!['/'] { 1 } else { 0 };
    assert forall|i: int| 0 <= i < root_candidates(start).len() implies is_ancestor_or_self(
        start,
        #[trigger] root_candidates(start)[i],
    ) by {
        if i > 0 {
            let j = cs.len() - 1 - (i - 1);
            assert(root_candidates(start)[i] == render_components(cs.take(j)));
            assert(lowest <= j < cs.len());
        }
    }
}

/// The questions asked of the disk when looking for the project root.
pub fn root_probes(start: &str) -> (r: Vec<Probe>)
    ensures
        probes_view(r@) == root_probes_spec(start@),
{
    let config = chars_of("bckt.yaml");
    let first = chars_of(start);
    let mut r: Vec<Probe> = Vec::new();
    r.push(Probe { path: string_of(&join_path(&first, &config)), kind: ProbeKind::Exists, result: string_of(&first) });
    let cs = components(&first);
    let rooted = cs.len() > 0 && cs[0].len() == 1 && cs[0][0] == '/';
    assert(rooted == (cs@.len() > 0 && cs@[0]@ == seq!['/'])) by {
        if cs@.len() > 0 && cs@[0]@ == seq!['/'] {
            assert(cs@[0]@[0] == '/');
        }
        if rooted {
            assert(cs@[0]@ =~= seq!['/']);
        }
    }
    assert(views(cs@)[0] == cs@[0]@ || cs@.len() == 0);
    let ghost want = root_probes_spec(start@);
    let lowest: usize = if rooted { 1 } else { 0 };
    let mut j = cs.len();
    while j > lowest
        invariant
            lowest <= j <= cs@.len(),
            lowest == (if rooted { 1usize } else { 0usize }),
            rooted == (cs@.len() > 0 && cs@[0]@ == seq!['/']),
            views(cs@) == path_components(start@),
            config@ == "bckt.yaml"@,
            want == root_probes_spec(start@),
            r@.len() == 1 + cs@.len() - j,
            probes_view(r@) == want.take(r@.len() as int),
        decreases j,
    {
        j = j - 1;
        let dir = render_prefix(&cs, j, rooted);
        let ghost before = r@;
        r.push(Probe { path: string_of(&join_path(&dir, &config)), kind: ProbeKind::Exists, result: string_of(&dir) });
        proof {
            if cs@.len() > 0 {
                assert(views(cs@)[0] == cs@[0]@);
            }
            let k = before.len() as int;
            assert(root_candidates(start@)[k] == render_components(views(cs@).take(j as int)));
            assert(probes_view(r@) =~= probes_view(before).push(probe_view(r@[k])));
            assert(want.take(k + 1) =~= want.take(k).push(want[k]));
        }
    }
    assert(want.take(r@.len() as int) =~= want);
    r
}

/// Picks the project root from the disk's answers to `root_probes(start)`.
pub fn pick_root(start: &str, found: &Vec<bool>) -> (r: Result<String, ProjectRootError>)
    requires
        found@.len() == root_candidates(start@).len(),
    ensures
        match r {
            Ok(d) => root_answer(start@, found@) == Ok::<Seq<char>, ProjectRootError>(d@),
            Err(e) => root_answer(start@, found@) == Err::<Seq<char>, ProjectRootError>(e),
        },
{
    let probes = root_probes(start);
    match pick_probe(&probes, found) {
        Some(d) => Ok(d),
        None => Err(ProjectRootError::NotFound),
    }
}

/// Walks up from `start` until a directory containing `bckt.yaml` is found.
///
/// The disk is asked, for `start` and then each directory above it, whether
/// `bckt.yaml` exists there (see `root_probes`); the nearest directory where
/// it does is returned, and `NotFound` when it exists nowhere.
pub fn find_project_root(start: &str) -> (r: Result<String, ProjectRootError>)
    ensures
        r matches Ok(dir) ==> is_ancestor_or_self(start@, dir@),
        exists|found: Seq<bool>|
            #![trigger root_answer(start@, found)]
            found.len() == root_candidates(start@).len() && (match r {
                Ok(d) => root_answer(start@, found) == Ok::<Seq<char>, ProjectRootError>(d@),
                Err(e) => root_answer(start@, found) == Err::<Seq<char>, ProjectRootError>(e),
            }),
{
    let probes = root_probes(start);
    let found = ask_disk(&probes);
    let r = pick_root(start, &found);
    proof {
        lemma_first_found_member(root_probes_spec(start@), found@);
        lemma_root_candidates_ancestors(start@);
        if r is Ok {
            let d = r->Ok_0;
            let i = choose|i: int| 0 <= i < root_probes_spec(start@).len() && (#[trigger] root_probes_spec(start@)[i]).2 == d@;
            assert(root_probes_spec(start@)[i].2 == root_candidates(start@)[i]);
        }
    }
    r
}

/// Returns the content file inside `post_dir`: `<post_dir>/<slug>.md`.
pub fn post_file(post_dir: &str, slug: &str) -> (r: String)
    ensures
        r@ == join_path_spec(post_dir@, slug@ + ".md"@),
{
    let mut name = chars_of(slug);
    extend_chars(&mut name, &chars_of(".md"));
    string_of(&join_path(&chars_of(post_dir), &name))
}

/// A year as `i32::to_string` writes it.
pub open spec fn year_text(year: int) -> Seq<char> {
    if year < 0 {
        seq!['-'] + crate::text::decimal((-year) as nat)
    } else {
        crate::text::decimal(year as nat)
    }
}

fn push_year_text(out: &mut Vec<char>, year: i32)
    ensures
        final(out)@ == old(out)@ + year_text(year as int),
{
    if year < 0 {
        out.push('-');
        let m: i64 = -(year as i64);
        crate::text::push_decimal(out, m as u64);
        assert(out@ =~= old(out)@ + year_text(year as int));
    } else {
        crate::text::push_decimal(out, year as u64);
    }
}

/// The conventional directory of a post: `<posts_root>/<YYYY>/<YYMMDD>-<slug>`
/// (`None` where the date's parts do not make a date).
pub fn post_dir(posts_root: &str, date: &DateTime, slug: &str) -> (r: Option<String>)
    ensures
        match date_prefix_text(*date) {
            None => r is None,
            Some(p) => r matches Some(d) && d@ == join_path_spec(
                join_path_spec(posts_root@, year_text(date.year as int)),
                p + seq!['-'] + slug@,
            ),
        },
{
    let prefix = match date_prefix(date) {
        Some(p) => p,
        None => return None,
    };
    let mut year: Vec<char> = Vec::new();
    push_year_text(&mut year, date.year);
    let mut name = chars_of(prefix.as_str());
    name.push('-');
    extend_chars(&mut name, &chars_of(slug));
    Some(string_of(&join_path(&join_path(&chars_of(posts_root), &year), &name)))
}

/// The slug used when none can be derived: the date prefix and `-post`.
pub fn generate_fallback_slug(now: &DateTime) -> (r: Option<String>)
    ensures
        match date_prefix_text(*now) {
            None => r is None,
            Some(p) => r matches Some(s) && s@ == p + "-post"@,
        },
{
    let prefix = match date_prefix(now) {
        Some(p) => p,
        None => return None,
    };
    let mut out = chars_of(prefix.as_str());
    crate::text::extend_str(&mut out, "-post");
    Some(string_of(&out))
}

/// The prompt shown for a value: the label, with the default in brackets
/// when there is one.
pub open spec fn prompt_spec(label: Seq<char>, default: Seq<char>) -> Seq<char> {
    if default.len() == 0 {
        label + ": "@
    } else {
        label + " ["@ + default + "]: "@
    }
}

/// The prompt shown for a value.
pub fn prompt_text(label: &str, default: &str) -> (r: String)
    ensures
        r@ == prompt_spec(label@, default@),
{
    let mut out = chars_of(label);
    if chars_of(default).len() == 0 {
        crate::text::extend_str(&mut out, ": ");
    } else {
        crate::text::extend_str(&mut out, " [");
        crate::text::extend_str(&mut out, default);
        crate::text::extend_str(&mut out, "]: ");
    }
    string_of(&out)
}

/// The value a prompt yields for a typed line: the line trimmed, or, when
/// that is blank, the empty value (where it is allowed) or the default.
pub open spec fn answer_spec(input: Seq<char>, default: Seq<char>, allow_empty: bool) -> Seq<char> {
    if crate::text::trim(input).len() == 0 {
        if allow_empty {
            Seq::<char>::empty()
        } else {
            default
        }
    } else {
        crate::text::trim(input)
    }
}

/// The value a prompt yields for a typed line.
pub fn prompt_answer(input: &str, default: &str, allow_empty: bool) -> (r: String)
    ensures
        r@ == answer_spec(input@, default@, allow_empty),
{
    let trimmed = crate::text::trim_chars(&chars_of(input));
    if trimmed.len() == 0 {
        if allow_empty {
            String::new()
        } else {
            default.to_owned()
        }
    } else {
        string_of(&trimmed)
    }
}

} // verus!
