//! Record keys (atproto TIDs) derived from a post's date and slug.
//!
//! The mapping is frozen: a key is a live record key and part of embedded
//! page URLs, so the hash and the bit layout never change.

use vstd::prelude::*;
use vstd::utf8::encode_utf8;

use crate::hash::{blake3_hash, spec_blake3};
use crate::sorted::lex_lt;
use crate::text::{chars_of, string_of};

verus! {

/// The instant an RFC 3339 date names, in nanoseconds since the Unix epoch,
/// as `time` reads it; where `time` refuses the text, the message of its
/// error.
pub uninterp spec fn rfc3339_nanos(date: Seq<char>) -> Result<int, Seq<char>>;

/// Calls `time::OffsetDateTime::parse` with the RFC 3339 format and, on
/// success, `OffsetDateTime::unix_timestamp_nanos`; on failure, writes the
/// parse error with its `Display`. Claims only that the answer is a function
/// of the text.
#[verifier::external_body]
fn parse_rfc3339_nanos(date: &str) -> (r: Result<i128, String>)
    ensures
        match r {
            Ok(n) => rfc3339_nanos(date@) == Ok::<int, Seq<char>>(n as int),
            Err(e) => rfc3339_nanos(date@) == Err::<int, Seq<char>>(e@),
        },
{
    match time::OffsetDateTime::parse(date, &time::format_description::well_known::Rfc3339) {
        Ok(dt) => Ok(dt.unix_timestamp_nanos()),
        Err(err) => Err(err.to_string()),
    }
}

/// The character for base-32 digit `d` (`234567abcdefghijklmnopqrstuvwxyz`).
pub open spec fn tid_char(d: nat) -> char {
    if d < 6 {
        ((('2' as u32) + d) as u32) as char
    } else {
        ((('a' as u32) + d - 6) as u32) as char
    }
}

/// `v` written with `k` base-32 digits, most significant first.
pub open spec fn tid_digits(v: nat, k: nat) -> Seq<char>
    decreases k,
{
    if k == 0 {
        Seq::<char>::empty()
    } else {
        tid_digits(v / 32, (k - 1) as nat).push(tid_char(v % 32))
    }
}

/// Division rounding toward zero, as Rust's `/` does.
pub open spec fn trunc_div(n: int, d: int) -> int {
    if n >= 0 {
        n / d
    } else {
        -((-n) / d)
    }
}

/// The 63-bit value a key encodes: the microseconds since the epoch (low 53
/// bits) above a 10-bit clock taken from the first two bytes of the slug's
/// BLAKE3 digest.
pub open spec fn tid_value(nanos: int, d0: u8, d1: u8) -> nat {
    let micros = trunc_div(nanos, 1000) % 0x20_0000_0000_0000;
    let clock = ((d0 as int) * 256 + (d1 as int)) % 1024;
    (micros * 1024 + clock) as nat
}

/// The key for a post dated `nanos` whose slug has `digest`.
pub open spec fn tid_spec(nanos: int, digest: Seq<u8>) -> Seq<char> {
    tid_digits(tid_value(nanos, digest[0], digest[1]), 13)
}

/// Why a key could not be made.
#[derive(Clone, Debug)]
pub struct TidError {
    /// The text given as the date.
    pub date: String,
    /// What `time` said of it.
    pub reason: String,
}

impl TidError {
    /// The message shown to template authors.
    pub fn message(&self) -> (r: String)
        ensures
            r@ == "atproto_tid(): first argument must be an RFC3339 date (e.g. post.date_iso); got '"@
                + self.date@ + "': "@ + self.reason@,
    {
        let mut out = chars_of(
            "atproto_tid(): first argument must be an RFC3339 date (e.g. post.date_iso); got '",
        );
        crate::text::extend_str(&mut out, self.date.as_str());
        crate::text::extend_str(&mut out, "': ");
        crate::text::extend_str(&mut out, self.reason.as_str());
        assert(out@ =~= "atproto_tid(): first argument must be an RFC3339 date (e.g. post.date_iso); got '"@
            + self.date@ + "': "@ + self.reason@);
        string_of(&out)
    }
}

fn digit_char(d: u64) -> (c: char)
    requires
        d < 32,
    ensures
        c == tid_char(d as nat),
{
    if d < 6 {
        ((50 + d) as u8) as char
    } else {
        ((91 + d) as u8) as char
    }
}

fn encode(v: u64) -> (r: Vec<char>)
    ensures
        r@ == tid_digits(v as nat, 13),
{
    let mut out: Vec<char> = Vec::new();
    let mut k: usize = 13;
    let mut w: u64 = v;
    while k > 0
        invariant
            k <= 13,
            out@.len() == 13 - k,
            tid_digits(v as nat, 13) == tid_digits(w as nat, k as nat) + out@,
        decreases k,
    {
        let c = digit_char(w % 32);
        let ghost tail = out@;
        out.insert(0, c);
        assert(out@ =~= seq![c] + tail);
        assert(tid_digits(w as nat, k as nat) =~= tid_digits((w / 32) as nat, (k - 1) as nat).push(c));
        assert(tid_digits(w as nat, k as nat) + tail =~= tid_digits((w / 32) as nat, (k - 1) as nat) + out@);
        w = w / 32;
        k = k - 1;
    }
    assert(tid_digits(w as nat, 0) + out@ =~= out@);
    out
}

/// The record key of a post: its date (RFC 3339) and slug turned into 13
/// characters of sortable base 32.
pub fn atproto_tid(date_rfc3339: &str, slug: &str) -> (r: Result<String, TidError>)
    ensures
        match rfc3339_nanos(date_rfc3339@) {
            Err(reason) => r matches Err(e) && e.date@ == date_rfc3339@ && e.reason@ == reason,
            Ok(n) => r matches Ok(t) && t@ == tid_spec(n, spec_blake3(encode_utf8(slug@))),
        },
{
    let n = match parse_rfc3339_nanos(date_rfc3339) {
        Ok(n) => n,
        Err(reason) => return Err(TidError { date: date_rfc3339.to_owned(), reason }),
    };
    let q: i128 = if n >= 0 {
        n / 1000
    } else if n > -1000 {
        0
    } else {
        let m: i128 = -(n + 1000);
        -(m / 1000) - 1
    };
    assert(q == trunc_div(n as int, 1000)) by (nonlinear_arith)
        requires
            n >= 0 ==> q == n / 1000,
            n < 0 && n > -1000 ==> q == 0,
            n <= -1000 ==> q == -((-(n as int + 1000)) / 1000) - 1,
    ;
    let modulus: i128 = 0x20_0000_0000_0000;
    let micros: i128 = if q >= 0 {
        q % modulus
    } else {
        let r = (-q) % modulus;
        if r == 0 {
            0
        } else {
            modulus - r
        }
    };
    assert(micros == (q as int) % 0x20_0000_0000_0000) by (nonlinear_arith)
        requires
            modulus == 0x20_0000_0000_0000,
            q >= 0 ==> micros == q % modulus,
            q < 0 && (-(q as int)) % (modulus as int) == 0 ==> micros == 0,
            q < 0 && (-(q as int)) % (modulus as int) != 0 ==> micros == modulus - (-(q as int)) % (modulus as int),
    ;
    let digest = blake3_hash(slug.as_bytes());
    let clock: u64 = ((digest[0] as u64) * 256 + (digest[1] as u64)) % 1024;
    let v: u64 = (micros as u64) * 1024 + clock;
    let out = encode(v);
    Ok(string_of(&out))
}

/// Every key is 13 characters of the base-32 alphabet.
pub proof fn tid_uses_alphabet(v: nat)
    ensures
        tid_digits(v, 13).len() == 13,
        forall|i: int| 0 <= i < 13 ==> ({
            let c = #[trigger] tid_digits(v, 13)[i];
            ('2' <= c && c <= '7') || ('a' <= c && c <= 'z')
        }),
{
    lemma_digits_alphabet(v, 13);
}

proof fn lemma_digits_alphabet(v: nat, k: nat)
    ensures
        tid_digits(v, k).len() == k,
        forall|i: int| 0 <= i < k ==> ({
            let c = #[trigger] tid_digits(v, k)[i];
            ('2' <= c && c <= '7') || ('a' <= c && c <= 'z')
        }),
    decreases k,
{
    if k > 0 {
        lemma_digits_alphabet(v / 32, (k - 1) as nat);
        let d = v % 32;
        assert(('2' <= tid_char(d) && tid_char(d) <= '7') || ('a' <= tid_char(d) && tid_char(d) <= 'z'));
    }
}

/// `32^k`.
pub open spec fn pow32(k: nat) -> nat
    decreases k,
{
    if k == 0 {
        1
    } else {
        32 * pow32((k - 1) as nat)
    }
}

/// Every key value is below 2^63: the microseconds keep 53 bits and the
/// clock 10.
pub proof fn tid_value_fits(nanos: int, d0: u8, d1: u8)
    ensures
        tid_value(nanos, d0, d1) < 8 * pow32(12),
{
    reveal_with_fuel(pow32, 13);
    let micros = trunc_div(nanos, 1000) % 0x20_0000_0000_0000;
    let clock = ((d0 as int) * 256 + (d1 as int)) % 1024;
    assert(0 <= micros < 0x20_0000_0000_0000);
    assert(0 <= clock < 1024);
    assert(micros * 1024 + clock < 0x8000_0000_0000_0000) by (nonlinear_arith)
        requires
            0 <= micros < 0x20_0000_0000_0000,
            0 <= clock < 1024,
    ;
}

proof fn lemma_first_digit(v: nat, k: nat)
    requires
        k >= 1,
        v < 8 * pow32((k - 1) as nat),
    ensures
        tid_digits(v, k)[0] == tid_char(v / pow32((k - 1) as nat)),
        v / pow32((k - 1) as nat) < 8,
    decreases k,
{
    if k == 1 {
        assert(tid_digits(v / 32, 0) =~= Seq::<char>::empty());
        assert(tid_digits(v, 1) =~= seq![tid_char(v % 32)]);
        assert(v % 32 == v);
    } else {
        let p = pow32((k - 2) as nat);
        assert(pow32((k - 1) as nat) == 32 * p);
        assert(p > 0) by {
            lemma_pow32_positive((k - 2) as nat);
        }
        assert(v / 32 < 8 * p) by (nonlinear_arith)
            requires
                v < 8 * (32 * p),
                p > 0,
        ;
        lemma_first_digit(v / 32, (k - 1) as nat);
        assert((v / 32) / p == v / (32 * p)) by (nonlinear_arith)
            requires
                p > 0,
        ;
    }
}

proof fn lemma_pow32_positive(k: nat)
    ensures
        pow32(k) > 0,
    decreases k,
{
    if k > 0 {
        lemma_pow32_positive((k - 1) as nat);
    }
}

/// A key starts in the first eight characters of the alphabet (`2`..`7`,
/// `a`, `b`), since its top bit is always clear.
pub proof fn tid_starts_low(nanos: int, digest: Seq<u8>)
    requires
        digest.len() >= 2,
    ensures
        ({
            let c = tid_spec(nanos, digest)[0];
            ('2' <= c && c <= '7') || c == 'a' || c == 'b'
        }),
{
    tid_value_fits(nanos, digest[0], digest[1]);
    lemma_first_digit(tid_value(nanos, digest[0], digest[1]), 13);
}

proof fn lemma_lex_push_prefix(a: Seq<char>, b: Seq<char>, x: char, y: char)
    requires
        a.len() == b.len(),
        lex_lt(a, b),
    ensures
        lex_lt(a.push(x), b.push(y)),
    decreases a.len(),
{
    if a.len() > 0 && a[0] == b[0] {
        lemma_lex_push_prefix(a.drop_first(), b.drop_first(), x, y);
        assert(a.push(x).drop_first() =~= a.drop_first().push(x));
        assert(b.push(y).drop_first() =~= b.drop_first().push(y));
    }
}

proof fn lemma_lex_push_same(a: Seq<char>, x: char, y: char)
    requires
        x < y,
    ensures
        lex_lt(a.push(x), a.push(y)),
    decreases a.len(),
{
    if a.len() > 0 {
        lemma_lex_push_same(a.drop_first(), x, y);
        assert(a.push(x).drop_first() =~= a.drop_first().push(x));
        assert(a.push(y).drop_first() =~= a.drop_first().push(y));
    }
}

/// Keys sort as their values do: a smaller value gives a key that comes
/// first in character order, so keys of later posts sort later.
pub proof fn tid_order_preserving(v1: nat, v2: nat, k: nat)
    requires
        v1 < v2 < pow32(k),
    ensures
        lex_lt(tid_digits(v1, k), tid_digits(v2, k)),
    decreases k,
{
    if k == 0 {
    } else {
        let p = pow32((k - 1) as nat);
        assert(v2 / 32 < p) by (nonlinear_arith)
            requires
                v2 < 32 * p,
        ;
        lemma_digits_alphabet(v1 / 32, (k - 1) as nat);
        lemma_digits_alphabet(v2 / 32, (k - 1) as nat);
        if v1 / 32 < v2 / 32 {
            tid_order_preserving(v1 / 32, v2 / 32, (k - 1) as nat);
            lemma_lex_push_prefix(tid_digits(v1 / 32, (k - 1) as nat), tid_digits(v2 / 32, (k - 1) as nat), tid_char(v1 % 32), tid_char(v2 % 32));
        } else {
            assert(v1 / 32 == v2 / 32) by (nonlinear_arith)
                requires
                    v1 < v2,
                    !(v1 / 32 < v2 / 32),
            ;
            assert(v1 % 32 < v2 % 32) by (nonlinear_arith)
                requires
                    v1 < v2,
                    v1 / 32 == v2 / 32,
            ;
            lemma_lex_push_same(tid_digits(v1 / 32, (k - 1) as nat), tid_char(v1 % 32), tid_char(v2 % 32));
        }
    }
}

} // verus!
