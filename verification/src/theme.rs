//! Where themes and demo content are looked up, and which archive entries
//! may be written when a theme is installed.

use vstd::prelude::*;

use crate::disk::{ask_disk, first_found, lemma_first_found_member, pick_probe, probe_view, probes_view, Probe, ProbeKind};
use crate::text::{
    chars_eq, chars_of, contains, ends_with, extend_str, find_either, join, string_of,
    string_views, views,
};
use crate::utils::{components, join_path, join_path_spec, path_components};

verus! {

/// `root/<sub>` for every share root, in order.
pub open spec fn share_subdirs(roots: Seq<Seq<char>>, sub: Seq<char>) -> Seq<Seq<char>> {
    roots.map_values(|r: Seq<char>| join_path_spec(r, sub))
}

fn subdirs(roots: &Vec<String>, sub: &str) -> (r: Vec<String>)
    ensures
        string_views(r@) == share_subdirs(string_views(roots@), sub@),
{
    let s = chars_of(sub);
    let mut r: Vec<String> = Vec::new();
    let n = roots.len();
    for i in 0..n
        invariant
            n == roots@.len(),
            s@ == sub@,
            string_views(r@) == share_subdirs(string_views(roots@), sub@).take(i as int),
    {
        let ghost before = r@;
        r.push(string_of(&join_path(&chars_of(roots[i].as_str()), &s)));
        assert(string_views(r@) =~= string_views(before).push(r@.last()@));
        assert(share_subdirs(string_views(roots@), sub@).take(i + 1) =~= share_subdirs(
            string_views(roots@),
            sub@,
        ).take(i as int).push(join_path_spec(roots@[i as int]@, sub@)));
    }
    assert(share_subdirs(string_views(roots@), sub@).take(n as int) =~= share_subdirs(
        string_views(roots@),
        sub@,
    ));
    r
}

/// The directories searched for bundled themes: `themes/` under each share
/// root, in the roots' order.
pub fn theme_search_paths(roots: &Vec<String>) -> (r: Vec<String>)
    ensures
        string_views(r@) == share_subdirs(string_views(roots@), "themes"@),
{
    subdirs(roots, "themes")
}

/// The directories searched for demo content: `demo/` under each share root.
pub fn demo_search_paths(roots: &Vec<String>) -> (r: Vec<String>)
    ensures
        string_views(r@) == share_subdirs(string_views(roots@), "demo"@),
{
    subdirs(roots, "demo")
}

/// A theme spec that names a path rather than a theme: it ends in `.zip` or
/// holds a `/`.
pub open spec fn is_theme_path(spec: Seq<char>) -> bool {
    ends_with(spec, ".zip"@) || spec.contains('/')
}

/// The places a bare theme name may be found, in the order they are tried:
/// for each search directory, `<name>.zip` and then `<name>/`.
pub open spec fn theme_candidate(dirs: Seq<Seq<char>>, name: Seq<char>, p: Seq<char>) -> bool {
    exists|i: int|
        0 <= i < dirs.len() && (p == join_path_spec(#[trigger] dirs[i], name + ".zip"@) || p
            == join_path_spec(dirs[i], name))
}

/// A theme or demo that could not be found.
#[derive(Clone, Debug)]
pub struct NotFound {
    /// What was asked for.
    pub spec: String,
    /// Whether it was taken as a path (rather than a name to search for).
    pub direct: bool,
}

fn holds_slash(v: &Vec<char>) -> (r: bool)
    ensures
        r == v@.contains('/'),
{
    let found = find_either(v, '/', '/');
    proof {
        if v@.contains('/') {
            let k = choose|k: int| 0 <= k < v@.len() && v@[k] == '/';
            assert(v@[k] == '/');
        }
    }
    found.is_some()
}

fn ends_with_chars(v: &Vec<char>, p: &Vec<char>) -> (r: bool)
    ensures
        r == ends_with(v@, p@),
{
    if p.len() > v.len() {
        return false;
    }
    crate::text::matches_at(v, p, v.len() - p.len())
}

/// The questions asked for a bare theme name: for each search directory in
/// order, whether `<dir>/<name>.zip` is a file, then whether `<dir>/<name>`
/// is a directory.
pub open spec fn theme_dir_probes(ds: Seq<Seq<char>>, name: Seq<char>) -> Seq<(Seq<char>, ProbeKind, Seq<char>)>
    decreases ds.len(),
{
    if ds.len() == 0 {
        Seq::empty()
    } else {
        let zip = join_path_spec(ds.last(), name + ".zip"@);
        let dir = join_path_spec(ds.last(), name);
        theme_dir_probes(ds.drop_last(), name) + seq![(zip, ProbeKind::File, zip), (dir, ProbeKind::Dir, dir)]
    }
}

/// The questions asked of the disk to resolve a theme spec: a path is asked
/// whether it is a file or a directory; a bare name goes through the search
/// directories.
pub open spec fn theme_probes_spec(spec: Seq<char>, roots: Seq<Seq<char>>) -> Seq<(Seq<char>, ProbeKind, Seq<char>)> {
    if is_theme_path(spec) {
        seq![(spec, ProbeKind::FileOrDir, spec)]
    } else {
        theme_dir_probes(share_subdirs(roots, "themes"@), spec)
    }
}

/// The resolved theme given the disk's answers: the first probe answered
/// yes, else not found (with the spec, and whether it was a path).
pub open spec fn theme_answer(spec: Seq<char>, roots: Seq<Seq<char>>, found: Seq<bool>) -> Result<Seq<char>, (Seq<char>, bool)> {
    match first_found(theme_probes_spec(spec, roots), found) {
        Some(p) => Ok(p),
        None => Err((spec, is_theme_path(spec))),
    }
}

proof fn lemma_theme_dir_probes(ds: Seq<Seq<char>>, name: Seq<char>)
    ensures
        theme_dir_probes(ds, name).len() == 2 * ds.len(),
        forall|i: int|
            0 <= i < theme_dir_probes(ds, name).len() ==> theme_candidate(ds, name, (#[trigger] theme_dir_probes(ds, name)[i]).2),
    decreases ds.len(),
{
    if ds.len() > 0 {
        let init = ds.drop_last();
        lemma_theme_dir_probes(init, name);
        let ps = theme_dir_probes(ds, name);
        let pre = theme_dir_probes(init, name);
        assert forall|i: int| 0 <= i < ps.len() implies theme_candidate(ds, name, (#[trigger] ps[i]).2) by {
            if i < pre.len() {
                assert(ps[i] == pre[i]);
                assert(theme_candidate(init, name, pre[i].2));
                let k = choose|k: int|
                    0 <= k < init.len() && (pre[i].2 == join_path_spec(#[trigger] init[k], name + ".zip"@) || pre[i].2
                        == join_path_spec(init[k], name));
                assert(ds[k] == init[k]);
            } else {
                assert(ds[ds.len() - 1] == ds.last());
            }
        }
    }
}

/// The questions asked of the disk to resolve a theme spec.
pub fn theme_probes(spec: &str, roots: &Vec<String>) -> (r: Vec<Probe>)
    ensures
        probes_view(r@) == theme_probes_spec(spec@, string_views(roots@)),
{
    let s = chars_of(spec);
    let mut r: Vec<Probe> = Vec::new();
    if ends_with_chars(&s, &chars_of(".zip")) || holds_slash(&s) {
        r.push(Probe { path: spec.to_owned(), kind: ProbeKind::FileOrDir, result: spec.to_owned() });
        assert(probes_view(r@) =~= seq![(spec@, ProbeKind::FileOrDir, spec@)]);
        return r;
    }
    let dirs = theme_search_paths(roots);
    let ghost ds = share_subdirs(string_views(roots@), "themes"@);
    let mut file_name = chars_of(spec);
    extend_str(&mut file_name, ".zip");
    let n = dirs.len();
    assert(ds.take(0) =~= Seq::<Seq<char>>::empty());
    assert(probes_view(r@) =~= theme_dir_probes(ds.take(0), spec@));
    for i in 0..n
        invariant
            n == dirs@.len() == ds.len(),
            ds == string_views(dirs@),
            file_name@ == spec@ + ".zip"@,
            s@ == spec@,
            probes_view(r@) == theme_dir_probes(ds.take(i as int), spec@),
    {
        let dir = chars_of(dirs[i].as_str());
        assert(dir@ == ds[i as int]);
        let archive = string_of(&join_path(&dir, &file_name));
        let theme_dir = string_of(&join_path(&dir, &s));
        let ghost before = r@;
        r.push(Probe { path: archive.clone(), kind: ProbeKind::File, result: archive });
        r.push(Probe { path: theme_dir.clone(), kind: ProbeKind::Dir, result: theme_dir });
        assert(ds.take(i + 1).drop_last() =~= ds.take(i as int));
        assert(ds.take(i + 1).last() == ds[i as int]);
        assert(probes_view(r@) =~= probes_view(before) + seq![probe_view(r@[before.len() as int]), probe_view(r@[before.len() as int + 1])]);
    }
    assert(ds.take(n as int) =~= ds);
    r
}

/// Picks the theme source from the disk's answers to `theme_probes`.
pub fn pick_theme(spec: &str, roots: &Vec<String>, found: &Vec<bool>) -> (r: Result<String, NotFound>)
    requires
        found@.len() == theme_probes_spec(spec@, string_views(roots@)).len(),
    ensures
        match r {
            Ok(p) => theme_answer(spec@, string_views(roots@), found@) == Ok::<Seq<char>, (Seq<char>, bool)>(p@),
            Err(e) => theme_answer(spec@, string_views(roots@), found@) == Err::<Seq<char>, (Seq<char>, bool)>((e.spec@, e.direct)),
        },
{
    let probes = theme_probes(spec, roots);
    match pick_probe(&probes, found) {
        Some(p) => Ok(p),
        None => {
            let s = chars_of(spec);
            let direct = ends_with_chars(&s, &chars_of(".zip")) || holds_slash(&s);
            Err(NotFound { spec: spec.to_owned(), direct })
        },
    }
}

/// Resolves a theme spec to a local source.
///
/// A spec ending in `.zip` or holding a `/` is a path and is returned as it
/// is when it is a file or a directory. A bare name is looked up in each of
/// the search directories, `<name>.zip` (a file) first and then `<name>/` (a
/// directory); the first that exists is returned. The questions asked of the
/// disk are those of `theme_probes`.
pub fn resolve_theme(spec: &str, roots: &Vec<String>) -> (r: Result<String, NotFound>)
    ensures
        match r {
            Ok(p) => if is_theme_path(spec@) {
                p@ == spec@
            } else {
                theme_candidate(share_subdirs(string_views(roots@), "themes"@), spec@, p@)
            },
            Err(e) => e.spec@ == spec@ && e.direct == is_theme_path(spec@),
        },
        exists|found: Seq<bool>|
            #![trigger theme_answer(spec@, string_views(roots@), found)]
            found.len() == theme_probes_spec(spec@, string_views(roots@)).len() && (match r {
                Ok(p) => theme_answer(spec@, string_views(roots@), found) == Ok::<Seq<char>, (Seq<char>, bool)>(p@),
                Err(e) => theme_answer(spec@, string_views(roots@), found) == Err::<Seq<char>, (Seq<char>, bool)>(
                    (e.spec@, e.direct),
                ),
            }),
{
    let probes = theme_probes(spec, roots);
    let found = ask_disk(&probes);
    let r = pick_theme(spec, roots, &found);
    proof {
        let ps = theme_probes_spec(spec@, string_views(roots@));
        lemma_first_found_member(ps, found@);
        lemma_theme_dir_probes(share_subdirs(string_views(roots@), "themes"@), spec@);
        if r is Ok {
            let p = r->Ok_0;
            let i = choose|i: int| 0 <= i < ps.len() && (#[trigger] ps[i]).2 == p@;
            if !is_theme_path(spec@) {
                assert(theme_candidate(share_subdirs(string_views(roots@), "themes"@), spec@, ps[i].2));
            }
        }
    }
    r
}

/// The questions asked of the disk to resolve a demo name: a path is asked
/// whether it is a directory; a bare name, whether `<dir>/<name>` is one for
/// each demo search directory in order.
pub open spec fn demo_probes_spec(name: Seq<char>, roots: Seq<Seq<char>>) -> Seq<(Seq<char>, ProbeKind, Seq<char>)> {
    if name.contains('/') {
        seq![(name, ProbeKind::Dir, name)]
    } else {
        share_subdirs(roots, "demo"@).map_values(
            |d: Seq<char>| (join_path_spec(d, name), ProbeKind::Dir, join_path_spec(d, name)),
        )
    }
}

/// The resolved demo given the disk's answers.
pub open spec fn demo_answer(name: Seq<char>, roots: Seq<Seq<char>>, found: Seq<bool>) -> Result<Seq<char>, (Seq<char>, bool)> {
    match first_found(demo_probes_spec(name, roots), found) {
        Some(p) => Ok(p),
        None => Err((name, name.contains('/'))),
    }
}

/// The questions asked of the disk to resolve a demo name.
pub fn demo_probes(name: &str, roots: &Vec<String>) -> (r: Vec<Probe>)
    ensures
        probes_view(r@) == demo_probes_spec(name@, string_views(roots@)),
{
    let s = chars_of(name);
    let mut r: Vec<Probe> = Vec::new();
    if holds_slash(&s) {
        r.push(Probe { path: name.to_owned(), kind: ProbeKind::Dir, result: name.to_owned() });
        assert(probes_view(r@) =~= seq![(name@, ProbeKind::Dir, name@)]);
        return r;
    }
    let dirs = demo_search_paths(roots);
    let ghost ds = share_subdirs(string_views(roots@), "demo"@);
    let ghost want = demo_probes_spec(name@, string_views(roots@));
    let n = dirs.len();
    for i in 0..n
        invariant
            n == dirs@.len() == ds.len(),
            ds == string_views(dirs@),
            ds == share_subdirs(string_views(roots@), "demo"@),
            s@ == name@,
            !name@.contains('/'),
            want == demo_probes_spec(name@, string_views(roots@)),
            probes_view(r@) == want.take(i as int),
    {
        let dir = chars_of(dirs[i].as_str());
        assert(dir@ == ds[i as int]);
        let demo_dir = string_of(&join_path(&dir, &s));
        let ghost before = r@;
        r.push(Probe { path: demo_dir.clone(), kind: ProbeKind::Dir, result: demo_dir });
        assert(want.take(i + 1) =~= want.take(i as int).push(want[i as int]));
        assert(probes_view(r@) =~= probes_view(before).push(probe_view(r@[i as int])));
    }
    assert(want.take(n as int) =~= want);
    r
}

/// Picks the demo directory from the disk's answers to `demo_probes`.
pub fn pick_demo(name: &str, roots: &Vec<String>, found: &Vec<bool>) -> (r: Result<String, NotFound>)
    requires
        found@.len() == demo_probes_spec(name@, string_views(roots@)).len(),
    ensures
        match r {
            Ok(p) => demo_answer(name@, string_views(roots@), found@) == Ok::<Seq<char>, (Seq<char>, bool)>(p@),
            Err(e) => demo_answer(name@, string_views(roots@), found@) == Err::<Seq<char>, (Seq<char>, bool)>((e.spec@, e.direct)),
        },
{
    let probes = demo_probes(name, roots);
    match pick_probe(&probes, found) {
        Some(p) => Ok(p),
        None => Err(NotFound { spec: name.to_owned(), direct: holds_slash(&chars_of(name)) }),
    }
}

/// Resolves a demo name to a local directory.
///
/// A name holding a `/` is a path and is returned as it is when it is a
/// directory; a bare name is looked up in each demo search directory, and
/// the first where it is a directory is returned. The questions asked of
/// the disk are those of `demo_probes`.
pub fn resolve_demo(name: &str, roots: &Vec<String>) -> (r: Result<String, NotFound>)
    ensures
        match r {
            Ok(p) => if name@.contains('/') {
                p@ == name@
            } else {
                exists|i: int|
                    0 <= i < roots@.len() && p@ == join_path_spec(
                        #[trigger] share_subdirs(string_views(roots@), "demo"@)[i],
                        name@,
                    )
            },
            Err(e) => e.spec@ == name@ && e.direct == name@.contains('/'),
        },
        exists|found: Seq<bool>|
            #![trigger demo_answer(name@, string_views(roots@), found)]
            found.len() == demo_probes_spec(name@, string_views(roots@)).len() && (match r {
                Ok(p) => demo_answer(name@, string_views(roots@), found) == Ok::<Seq<char>, (Seq<char>, bool)>(p@),
                Err(e) => demo_answer(name@, string_views(roots@), found) == Err::<Seq<char>, (Seq<char>, bool)>(
                    (e.spec@, e.direct),
                ),
            }),
{
    let probes = demo_probes(name, roots);
    let found = ask_disk(&probes);
    let r = pick_demo(name, roots, &found);
    proof {
        let ps = demo_probes_spec(name@, string_views(roots@));
        lemma_first_found_member(ps, found@);
        if r is Ok {
            let p = r->Ok_0;
            let i = choose|i: int| 0 <= i < ps.len() && (#[trigger] ps[i]).2 == p@;
            if !name@.contains('/') {
                assert(p@ == join_path_spec(share_subdirs(string_views(roots@), "demo"@)[i], name@));
            }
        }
    }
    r
}

/// The message shown when a theme spec could not be resolved.
pub open spec fn theme_not_found_message(spec: Seq<char>, direct: bool) -> Seq<char> {
    if direct {
        "theme '"@ + spec + "' not found"@
    } else {
        "theme '"@ + spec
            + "' not found in theme search path (set BCKT_SHARE_PATH, or pass a path to a .zip archive or theme directory)"@
    }
}

/// The message shown when a demo name could not be resolved.
pub open spec fn demo_not_found_message(spec: Seq<char>, direct: bool) -> Seq<char> {
    if direct {
        "demo '"@ + spec + "' not found"@
    } else {
        "demo '"@ + spec
            + "' not found (set BCKT_SHARE_PATH, or pass a path to a demo directory)"@
    }
}

impl NotFound {
    /// The message for a theme that could not be found.
    pub fn theme_message(&self) -> (r: String)
        ensures
            r@ == theme_not_found_message(self.spec@, self.direct),
    {
        let mut out = chars_of("theme '");
        extend_str(&mut out, self.spec.as_str());
        if self.direct {
            extend_str(&mut out, "' not found");
        } else {
            extend_str(
                &mut out,
                "' not found in theme search path (set BCKT_SHARE_PATH, or pass a path to a .zip archive or theme directory)",
            );
        }
        string_of(&out)
    }

    /// The message for a demo that could not be found.
    pub fn demo_message(&self) -> (r: String)
        ensures
            r@ == demo_not_found_message(self.spec@, self.direct),
    {
        let mut out = chars_of("demo '");
        extend_str(&mut out, self.spec.as_str());
        if self.direct {
            extend_str(&mut out, "' not found");
        } else {
            extend_str(
                &mut out,
                "' not found (set BCKT_SHARE_PATH, or pass a path to a demo directory)",
            );
        }
        string_of(&out)
    }
}

/// The relative path an archive entry named `name` is written to, or `None`
/// where the entry must be skipped: an absolute name, one with a `..`
/// component, or one with no component left once `.` components are dropped.
pub open spec fn safe_relative_spec(name: Seq<char>) -> Option<Seq<char>> {
    let cs = path_components(name);
    if cs.len() > 0 && cs[0] == seq!['/'] {
        None
    } else {
        let rest = if cs.len() > 0 && cs[0] == seq!['.'] { cs.drop_first() } else { cs };
        if rest.contains(seq!['.', '.']) || rest.len() == 0 {
            None
        } else {
            Some(join(rest, seq!['/']))
        }
    }
}

/// An archive entry is only ever written inside the theme's directory: the
/// relative path kept for it is not absolute and has no `..` component.
pub proof fn archive_entries_stay_inside(name: Seq<char>)
    requires
        safe_relative_spec(name) is Some,
    ensures
        ({
            let p = safe_relative_spec(name)->Some_0;
            &&& !(p.len() > 0 && p[0] == '/')
            &&& !path_components(p).contains(seq!['.', '.'])
        }),
{
    crate::utils::lemma_relative_rejoined(name);
}

fn is_seq(v: &Vec<char>, a: char) -> (r: bool)
    ensures
        r == (v@ == seq![a]),
{
    let r = v.len() == 1 && v[0] == a;
    proof {
        if v@ == seq![a] {
            assert(v@[0] == a);
        }
        if r {
            assert(v@ =~= seq![a]);
        }
    }
    r
}

/// Turns an archive entry name into the relative path it is extracted to,
/// refusing names that would escape the destination.
pub fn safe_relative_path(name: &str) -> (r: Option<String>)
    ensures
        match r {
            Some(p) => safe_relative_spec(name@) == Some(p@),
            None => safe_relative_spec(name@) is None,
        },
{
    let cs = components(&chars_of(name));
    if cs.len() > 0 && is_seq(&cs[0], '/') {
        assert(views(cs@)[0] == cs@[0]@);
        return None;
    }
    let skip: usize = if cs.len() > 0 && is_seq(&cs[0], '.') { 1 } else { 0 };
    proof {
        if cs@.len() > 0 {
            assert(views(cs@)[0] == cs@[0]@);
        }
    }
    let ghost rest = views(cs@).subrange(skip as int, cs@.len() as int);
    assert(rest == (if views(cs@).len() > 0 && views(cs@)[0] == seq!['.'] {
        views(cs@).drop_first()
    } else {
        views(cs@)
    }));
    assert(safe_relative_spec(name@) == (if rest.contains(seq!['.', '.']) || rest.len() == 0 {
        None
    } else {
        Some(join(rest, seq!['/']))
    }));
    let dotdot = chars_of("..");
    proof {
        reveal_strlit("..");
    }
    assert(dotdot@ =~= seq!['.', '.']);
    let mut out: Vec<char> = Vec::new();
    let n = cs.len();
    let mut i = skip;
    assert(views(cs@).subrange(skip as int, skip as int) =~= Seq::<Seq<char>>::empty());
    while i < n
        invariant
            skip <= i <= n == cs@.len(),
            rest == views(cs@).subrange(skip as int, n as int),
            safe_relative_spec(name@) == (if rest.contains(seq!['.', '.']) || rest.len() == 0 {
                None
            } else {
                Some(join(rest, seq!['/']))
            }),
            dotdot@ == seq!['.', '.'],
            out@ == join(views(cs@).subrange(skip as int, i as int), seq!['/']),
            !views(cs@).subrange(skip as int, i as int).contains(seq!['.', '.']),
        decreases n - i,
    {
        let ghost t1 = views(cs@).subrange(skip as int, i + 1);
        assert(t1.drop_last() =~= views(cs@).subrange(skip as int, i as int));
        assert(t1.last() == cs@[i as int]@);
        if chars_eq(&cs[i], &dotdot) {
            assert(rest[i - skip] == cs@[i as int]@);
            assert(rest.contains(seq!['.', '.']));
            return None;
        }
        if i > skip {
            out.push('/');
        }
        crate::text::extend_chars(&mut out, &cs[i]);
        assert(out@ =~= join(t1, seq!['/']));
        assert(!t1.contains(seq!['.', '.'])) by {
            if t1.contains(seq!['.', '.']) {
                let k = choose|k: int| 0 <= k < t1.len() && t1[k] == seq!['.', '.'];
                if k < t1.len() - 1 {
                    assert(views(cs@).subrange(skip as int, i as int)[k] == t1[k]);
                }
            }
        }
        i = i + 1;
    }
    assert(rest =~= views(cs@).subrange(skip as int, i as int));
    if i == skip {
        return None;
    }
    Some(string_of(&out))
}

/// Whether one of two paths lies inside the other (or they are the same), by
/// whole components as `Path::starts_with` compares them.
pub open spec fn paths_overlap_spec(a: Seq<char>, b: Seq<char>) -> bool {
    let ca = path_components(a);
    let cb = path_components(b);
    a == b || cb.is_prefix_of(ca) || ca.is_prefix_of(cb)
}

pub(crate) fn comps_prefix(p: &Vec<Vec<char>>, q: &Vec<Vec<char>>) -> (r: bool)
    ensures
        r == views(p@).is_prefix_of(views(q@)),
{
    if p.len() > q.len() {
        return false;
    }
    let n = p.len();
    for i in 0..n
        invariant
            n == p@.len() <= q@.len(),
            forall|k: int| 0 <= k < i ==> p@[k]@ == q@[k]@,
    {
        if !chars_eq(&p[i], &q[i]) {
            assert(views(p@)[i as int] != views(q@)[i as int]);
            return false;
        }
    }
    assert(views(p@) =~= views(q@).take(n as int));
    true
}

/// Whether installing a theme directory `source` into `target` would write
/// inside the source or remove it: the two paths are equal or one contains
/// the other.
pub fn paths_overlap(source: &str, target: &str) -> (r: bool)
    ensures
        r == paths_overlap_spec(source@, target@),
{
    let a = chars_of(source);
    let b = chars_of(target);
    let ca = components(&a);
    let cb = components(&b);
    chars_eq(&a, &b) || comps_prefix(&cb, &ca) || comps_prefix(&ca, &cb)
}

} // verus!
