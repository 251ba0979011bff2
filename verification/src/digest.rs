//! The digests that tell whether a post's inputs or the static tree changed
//! since the last render: BLAKE3 over the bytes read from disk, framed with
//! each file's path, size and modification time.

use vstd::prelude::*;
use vstd::string::StringSliceAdditionalSpecFns;

use crate::hash::{blake3_hash, hex_spec, spec_blake3, to_hex};

verus! {

broadcast use vstd::string::group_string_axioms;

/// The `n` low bytes of `x`, least significant first (`to_le_bytes`).
pub open spec fn le_bytes(x: nat, n: nat) -> Seq<u8>
    decreases n,
{
    if n == 0 {
        Seq::<u8>::empty()
    } else {
        seq![(x % 256) as u8] + le_bytes(x / 256, (n - 1) as nat)
    }
}

/// What the digest records of a file besides its contents: its path
/// relative to the directory hashed (normalized), its size in bytes, and
/// its modification time as whole seconds and nanoseconds since the Unix
/// epoch (zero for times before it).
pub struct FileStamp {
    pub path: String,
    pub size: u64,
    pub secs: u64,
    pub nanos: u32,
}

/// A file of the static tree: its stamp and its contents.
pub struct StaticFile {
    pub stamp: FileStamp,
    pub data: Vec<u8>,
}

/// The bytes hashed for a file's stamp: the path, then the size, seconds
/// and nanoseconds in little-endian order (8, 8 and 4 bytes).
pub open spec fn stamp_bytes(path: Seq<char>, size: nat, secs: nat, nanos: nat) -> Seq<u8> {
    vstd::utf8::encode_utf8(path) + le_bytes(size, 8) + le_bytes(secs, 8) + le_bytes(nanos, 4)
}

/// The bytes hashed for a post's attachments, in the order given.
pub open spec fn assets_bytes(assets: Seq<FileStamp>) -> Seq<u8>
    decreases assets.len(),
{
    if assets.len() == 0 {
        Seq::<u8>::empty()
    } else {
        let a = assets.last();
        assets_bytes(assets.drop_last()) + stamp_bytes(a.path@, a.size as nat, a.secs as nat, a.nanos as nat)
    }
}

/// The bytes hashed for the static tree: for each file in the order given,
/// its path, its contents, then its size and modification time.
pub open spec fn static_bytes(files: Seq<StaticFile>) -> Seq<u8>
    decreases files.len(),
{
    if files.len() == 0 {
        Seq::<u8>::empty()
    } else {
        let f = files.last();
        static_bytes(files.drop_last()) + vstd::utf8::encode_utf8(f.stamp.path@) + f.data@ + le_bytes(
            f.stamp.size as nat,
            8,
        ) + le_bytes(f.stamp.secs as nat, 8) + le_bytes(f.stamp.nanos as nat, 4)
    }
}

fn push_le(out: &mut Vec<u8>, x: u64, n: usize)
    requires
        n <= 8,
    ensures
        final(out)@ == old(out)@ + le_bytes(x as nat, n as nat),
{
    let ghost start = out@;
    let mut k: usize = 0;
    let mut w: u64 = x;
    while k < n
        invariant
            k <= n,
            out@ + le_bytes(w as nat, (n - k) as nat) == start + le_bytes(x as nat, n as nat),
        decreases n - k,
    {
        let b: u8 = (w % 256) as u8;
        let ghost before = out@;
        out.push(b);
        assert(le_bytes(w as nat, (n - k) as nat) =~= seq![b] + le_bytes((w / 256) as nat, (n - k - 1) as nat));
        assert(out@ + le_bytes((w / 256) as nat, (n - k - 1) as nat) =~= before + le_bytes(w as nat, (n - k) as nat));
        w = w / 256;
        k = k + 1;
    }
    assert(out@ =~= start + le_bytes(x as nat, n as nat));
}

fn push_bytes(out: &mut Vec<u8>, data: &[u8])
    ensures
        final(out)@ == old(out)@ + data@,
{
    let n = data.len();
    for i in 0..n
        invariant
            n == data@.len(),
            out@ == old(out)@ + data@.take(i as int),
    {
        out.push(data[i]);
        assert(data@.take(i + 1) =~= data@.take(i as int).push(data@[i as int]));
    }
    assert(data@.take(n as int) =~= data@);
}

fn push_stamp(out: &mut Vec<u8>, s: &FileStamp)
    ensures
        final(out)@ == old(out)@ + stamp_bytes(s.path@, s.size as nat, s.secs as nat, s.nanos as nat),
{
    push_bytes(out, s.path.as_str().as_bytes());
    push_le(out, s.size, 8);
    push_le(out, s.secs, 8);
    push_le(out, s.nanos as u64, 4);
    assert(out@ =~= old(out)@ + stamp_bytes(s.path@, s.size as nat, s.secs as nat, s.nanos as nat));
}

/// The digest of a post's inputs: BLAKE3 over its content file's bytes,
/// then each attachment's stamp (the caller lists them sorted by path), in
/// lowercase hexadecimal.
pub fn post_digest(content: &[u8], assets: &Vec<FileStamp>) -> (r: String)
    ensures
        r@ == hex_spec(spec_blake3(content@ + assets_bytes(assets@))),
{
    let mut data: Vec<u8> = Vec::new();
    push_bytes(&mut data, content);
    let n = assets.len();
    for i in 0..n
        invariant
            n == assets@.len(),
            data@ == content@ + assets_bytes(assets@.take(i as int)),
    {
        push_stamp(&mut data, &assets[i]);
        assert(assets@.take(i + 1).drop_last() =~= assets@.take(i as int));
        assert(data@ =~= content@ + assets_bytes(assets@.take(i + 1)));
    }
    assert(assets@.take(n as int) =~= assets@);
    let digest = blake3_hash(data.as_slice());
    crate::text::string_of(&to_hex(&digest))
}

/// The digest of the static tree: BLAKE3 over each file's path, contents,
/// size and modification time (the caller lists them sorted by path), in
/// lowercase hexadecimal. An empty or missing tree hashes nothing.
pub fn static_digest(files: &Vec<StaticFile>) -> (r: String)
    ensures
        r@ == hex_spec(spec_blake3(static_bytes(files@))),
{
    let mut data: Vec<u8> = Vec::new();
    let n = files.len();
    for i in 0..n
        invariant
            n == files@.len(),
            data@ == static_bytes(files@.take(i as int)),
    {
        let f = &files[i];
        push_bytes(&mut data, f.stamp.path.as_str().as_bytes());
        push_bytes(&mut data, f.data.as_slice());
        push_le(&mut data, f.stamp.size, 8);
        push_le(&mut data, f.stamp.secs, 8);
        push_le(&mut data, f.stamp.nanos as u64, 4);
        assert(files@.take(i + 1).drop_last() =~= files@.take(i as int));
        assert(data@ =~= static_bytes(files@.take(i + 1)));
    }
    assert(files@.take(n as int) =~= files@);
    let digest = blake3_hash(data.as_slice());
    crate::text::string_of(&to_hex(&digest))
}

} // verus!
