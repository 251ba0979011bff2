//! Content hashing with BLAKE3.

use vstd::prelude::*;
use vstd::string::StringSliceAdditionalSpecFns;
use vstd::utf8::encode_utf8;

verus! {

/// The BLAKE3 digest of `data`, as computed by the `blake3` crate.
pub uninterp spec fn spec_blake3(data: Seq<u8>) -> Seq<u8>;

/// Calls `blake3::hash`. Trusted: the 32 bytes returned are the digest that
/// `blake3` computes for `data`; nothing else about them is stated.
#[verifier::external_body]
pub(crate) fn blake3_hash(data: &[u8]) -> (r: Vec<u8>)
    ensures
        r@ == spec_blake3(data@),
        r@.len() == 32,
{
    blake3::hash(data).as_bytes().to_vec()
}

/// The lowercase hexadecimal digit for `d < 16`.
pub open spec fn hex_digit(d: u8) -> char {
    if d < 10 {
        (('0' as u8) + d) as char
    } else {
        (('a' as u8) + d - 10) as char
    }
}

/// `data` in lowercase hexadecimal, two digits per byte, high nibble first.
pub open spec fn hex_spec(data: Seq<u8>) -> Seq<char>
    decreases data.len(),
{
    if data.len() == 0 {
        Seq::<char>::empty()
    } else {
        hex_spec(data.drop_last()) + seq![hex_digit(data.last() / 16), hex_digit(data.last() % 16)]
    }
}

fn hex_char(d: u8) -> (c: char)
    requires
        d < 16,
    ensures
        c == hex_digit(d),
{
    if d < 10 {
        (48 + d) as char
    } else {
        (87 + d) as char
    }
}

/// Lowercase hexadecimal encoding of `data`.
pub fn to_hex(data: &Vec<u8>) -> (r: Vec<char>)
    ensures
        r@ == hex_spec(data@),
        r@.len() == 2 * data@.len(),
{
    let mut r: Vec<char> = Vec::new();
    let n = data.len();
    for i in 0..n
        invariant
            n == data@.len(),
            r@ == hex_spec(data@.take(i as int)),
            r@.len() == 2 * i,
    {
        let b = data[i];
        r.push(hex_char(b / 16));
        r.push(hex_char(b % 16));
        assert(data@.take(i + 1).drop_last() =~= data@.take(i as int));
        assert(r@ =~= hex_spec(data@.take(i + 1)));
    }
    assert(data@.take(n as int) =~= data@);
    r
}

/// The BLAKE3 digest of a string's UTF-8 bytes, in lowercase hexadecimal.
pub fn blake3_hex(s: &str) -> (r: Vec<char>)
    ensures
        r@ == hex_spec(spec_blake3(s.spec_bytes())),
        r@.len() == 64,
{
    let digest = blake3_hash(s.as_bytes());
    to_hex(&digest)
}

fn append_bytes(out: &mut Vec<u8>, data: &[u8])
    ensures
        final(out)@ == old(out)@ + data@,
{
    let n = data.len();
    for i in 0..n
        invariant
            n == data@.len(),
            out@ == old(out)@ + data@.take(i as int),
    {
        out.push(data[i]);
        assert(data@.take(i + 1) =~= data@.take(i as int).push(data@[i as int]));
    }
    assert(data@.take(n as int) =~= data@);
}

/// The BLAKE3 digest of `data` in lowercase hexadecimal.
pub fn digest_hex(data: &[u8]) -> (r: String)
    ensures
        r@ == hex_spec(spec_blake3(data@)),
{
    let digest = blake3_hash(data);
    crate::text::string_of(&to_hex(&digest))
}

/// The bytes a template set is digested over: each template's name, then
/// its body, in UTF-8, in the order given.
pub open spec fn entries_bytes(entries: Seq<(String, String)>) -> Seq<u8>
    decreases entries.len(),
{
    if entries.len() == 0 {
        Seq::<u8>::empty()
    } else {
        entries_bytes(entries.drop_last()) + encode_utf8(entries.last().0@) + encode_utf8(entries.last().1@)
    }
}

/// The digest of a template set (name and body of each, in order), in
/// hexadecimal.
pub fn templates_digest(entries: &Vec<(String, String)>) -> (r: String)
    ensures
        r@ == hex_spec(spec_blake3(entries_bytes(entries@))),
{
    let mut data: Vec<u8> = Vec::new();
    let n = entries.len();
    for i in 0..n
        invariant
            n == entries@.len(),
            data@ == entries_bytes(entries@.take(i as int)),
    {
        let ghost before = data@;
        append_bytes(&mut data, entries[i].0.as_str().as_bytes());
        append_bytes(&mut data, entries[i].1.as_str().as_bytes());
        assert(entries@.take(i + 1).drop_last() =~= entries@.take(i as int));
        assert(data@ =~= entries_bytes(entries@.take(i + 1)));
    }
    assert(entries@.take(n as int) =~= entries@);
    digest_hex(data.as_slice())
}

/// The digest of the site-wide render inputs: BLAKE3 over the raw
/// configuration text followed by the templates' digest, in hexadecimal.
pub fn compute_site_inputs_hash(config_raw: &str, template_hash: &str) -> (r: String)
    ensures
        r@ == hex_spec(spec_blake3(config_raw.spec_bytes() + template_hash.spec_bytes())),
{
    let mut data: Vec<u8> = Vec::new();
    append_bytes(&mut data, config_raw.as_bytes());
    append_bytes(&mut data, template_hash.as_bytes());
    assert(data@ =~= config_raw.spec_bytes() + template_hash.spec_bytes());
    let digest = blake3_hash(data.as_slice());
    crate::text::string_of(&to_hex(&digest))
}

} // verus!
