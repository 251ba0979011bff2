//! What the library asks of the file system: whether a path exists and what
//! it is. The answers depend on the disk at the time of the call, so nothing
//! is promised about them.

use vstd::prelude::*;

verus! {

/// Calls `std::path::Path::exists`. Trusted to return; whatever it returns is
/// taken as the state of the disk at that moment.
#[verifier::external_body]
pub(crate) fn path_exists(path: &str) -> bool {
    std::path::Path::new(path).exists()
}

/// Calls `std::path::Path::is_file`. Trusted to return; nothing is promised
/// of the answer.
#[verifier::external_body]
pub(crate) fn path_is_file(path: &str) -> bool {
    std::path::Path::new(path).is_file()
}

/// Calls `std::path::Path::is_dir`. Trusted to return; nothing is promised of
/// the answer.
#[verifier::external_body]
pub(crate) fn path_is_dir(path: &str) -> bool {
    std::path::Path::new(path).is_dir()
}

/// What is asked of a path.
#[derive(Clone, Copy, Debug, PartialEq, Eq, Structural)]
pub enum ProbeKind {
    /// Whether anything is there.
    Exists,
    /// Whether it is a file.
    File,
    /// Whether it is a directory.
    Dir,
    /// Whether it is a file or a directory.
    FileOrDir,
}

/// One question to the disk: the path asked about, what is asked, and the
/// path a lookup gives back when the answer is yes.
pub struct Probe {
    pub path: String,
    pub kind: ProbeKind,
    pub result: String,
}

/// A probe as plain values.
pub open spec fn probe_view(p: Probe) -> (Seq<char>, ProbeKind, Seq<char>) {
    (p.path@, p.kind, p.result@)
}

/// Probes as plain values.
pub open spec fn probes_view(ps: Seq<Probe>) -> Seq<(Seq<char>, ProbeKind, Seq<char>)> {
    ps.map_values(|p: Probe| probe_view(p))
}

/// What a lookup gives back, given the disk's answers in the order the
/// probes were made: the result of the first probe answered yes, or nothing
/// when every answer is no.
pub open spec fn first_found(ps: Seq<(Seq<char>, ProbeKind, Seq<char>)>, found: Seq<bool>) -> Option<Seq<char>>
    decreases ps.len(),
{
    if ps.len() == 0 || found.len() == 0 {
        None
    } else if found[0] {
        Some(ps[0].2)
    } else {
        first_found(ps.drop_first(), found.drop_first())
    }
}

/// A found result is the result of one of the probes.
pub proof fn lemma_first_found_member(ps: Seq<(Seq<char>, ProbeKind, Seq<char>)>, found: Seq<bool>)
    ensures
        first_found(ps, found) matches Some(x) ==> exists|i: int| 0 <= i < ps.len() && (#[trigger] ps[i]).2 == x,
    decreases ps.len(),
{
    if ps.len() > 0 && found.len() > 0 && !found[0] {
        lemma_first_found_member(ps.drop_first(), found.drop_first());
        if let Some(x) = first_found(ps, found) {
            let i = choose|i: int| 0 <= i < ps.drop_first().len() && (#[trigger] ps.drop_first()[i]).2 == x;
            assert(ps[i + 1] == ps.drop_first()[i]);
        }
    }
}

/// Picks the result of the first probe answered yes.
pub fn pick_probe(probes: &Vec<Probe>, found: &Vec<bool>) -> (r: Option<String>)
    requires
        probes@.len() == found@.len(),
    ensures
        crate::text::opt_view(r) == first_found(probes_view(probes@), found@),
{
    let ghost ps = probes_view(probes@);
    let n = probes.len();
    let mut i: usize = 0;
    assert(ps.skip(0) =~= ps);
    assert(found@.skip(0) =~= found@);
    while i < n
        invariant
            n == probes@.len() == found@.len(),
            i <= n,
            ps == probes_view(probes@),
            first_found(ps, found@) == first_found(ps.skip(i as int), found@.skip(i as int)),
        decreases n - i,
    {
        assert(ps.skip(i as int)[0] == probe_view(probes@[i as int]));
        assert(found@.skip(i as int)[0] == found@[i as int]);
        if found[i] {
            return Some(probes[i].result.clone());
        }
        assert(ps.skip(i as int).drop_first() =~= ps.skip(i + 1));
        assert(found@.skip(i as int).drop_first() =~= found@.skip(i + 1));
        i = i + 1;
    }
    assert(ps.skip(n as int).len() == 0);
    None
}

/// Asks the disk each probe's question, in order.
pub(crate) fn ask_disk(probes: &Vec<Probe>) -> (r: Vec<bool>)
    ensures
        r@.len() == probes@.len(),
{
    let mut r: Vec<bool> = Vec::new();
    let n = probes.len();
    for i in 0..n
        invariant
            n == probes@.len(),
            r@.len() == i,
    {
        let p = &probes[i];
        let answer = match p.kind {
            ProbeKind::Exists => path_exists(p.path.as_str()),
            ProbeKind::File => path_is_file(p.path.as_str()),
            ProbeKind::Dir => path_is_dir(p.path.as_str()),
            ProbeKind::FileOrDir => path_is_dir(p.path.as_str()) || path_is_file(p.path.as_str()),
        };
        r.push(answer);
    }
    r
}

} // verus!
