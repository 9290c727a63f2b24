//! The on-disk envelope: a cached payload together with the second at which it
//! was created.
//!
//! An envelope is stored as one human-readable document: a first line
//! `created = <20 decimal digits>` followed by the payload bytes verbatim.
//! The fixed-width timestamp keeps the encoding canonical, so every byte
//! string is the encoding of at most one envelope.

use vstd::prelude::*;
use vstd::slice::slice_index_get;
use vstd::slice::slice_subrange;
use vstd::slice::slice_to_vec;

verus! {

/// The bytes of the line prefix `created = `.
pub open spec fn header() -> Seq<u8> {
    seq![99u8, 114u8, 101u8, 97u8, 116u8, 101u8, 100u8, 32u8, 61u8, 32u8]
}

/// The ASCII digit for `n % 10`.
pub open spec fn digit_byte(n: nat) -> u8 {
    (48 + n % 10) as u8
}

/// The last `width` decimal digits of `n`, zero padded on the left.
pub open spec fn dec_digits(n: nat, width: nat) -> Seq<u8>
    decreases width,
{
    if width == 0 {
        seq![]
    } else {
        dec_digits(n / 10, (width - 1) as nat).push(digit_byte(n))
    }
}

/// The number that a sequence of ASCII digits denotes.
pub open spec fn dec_val(s: Seq<u8>) -> int
    decreases s.len(),
{
    if s.len() == 0 {
        0
    } else {
        dec_val(s.drop_last()) * 10 + (s.last() - 48)
    }
}

pub open spec fn is_digit_seq(s: Seq<u8>) -> bool {
    forall|i: int| 0 <= i < s.len() ==> 48 <= #[trigger] s[i] <= 57
}

pub open spec fn pow10(w: nat) -> nat
    decreases w,
{
    if w == 0 {
        1
    } else {
        10 * pow10((w - 1) as nat)
    }
}

/// A timestamped wrapper around a cached payload. The payload is an opaque
/// blob: whatever document the caller serialized the cached value into.
#[derive(Debug, PartialEq, Eq)]
pub struct Envelope {
    /// Seconds since the epoch at which the payload was produced.
    pub created: u64,
    /// The serialized payload, kept verbatim.
    pub payload: Vec<u8>,
}

/// The byte string that stores an envelope on disk.
pub open spec fn spec_encode(created: u64, payload: Seq<u8>) -> Seq<u8> {
    header() + dec_digits(created as nat, 20) + seq![10u8] + payload
}

/// The envelope that a byte string stores, if it stores one.
pub open spec fn parse_spec(s: Seq<u8>) -> Option<(u64, Seq<u8>)> {
    if exists|c: u64, p: Seq<u8>| s == spec_encode(c, p) {
        let (c, p) = choose|c: u64, p: Seq<u8>| s == spec_encode(c, p);
        Some((c, p))
    } else {
        None
    }
}

proof fn lemma_dec_digits_len(n: nat, w: nat)
    ensures
        dec_digits(n, w).len() == w,
    decreases w,
{
    if w > 0 {
        lemma_dec_digits_len(n / 10, (w - 1) as nat);
    }
}

proof fn lemma_dec_digits_are_digits(n: nat, w: nat)
    ensures
        is_digit_seq(dec_digits(n, w)),
    decreases w,
{
    if w > 0 {
        lemma_dec_digits_are_digits(n / 10, (w - 1) as nat);
        lemma_dec_digits_len(n / 10, (w - 1) as nat);
        let prefix = dec_digits(n / 10, (w - 1) as nat);
        let whole = dec_digits(n, w);
        assert forall|i: int| 0 <= i < whole.len() implies 48 <= #[trigger] whole[i] <= 57 by {
            if i < prefix.len() {
                assert(whole[i] == prefix[i]);
            } else {
                assert(whole[i] == digit_byte(n));
            }
        }
    }
}

proof fn lemma_dec_val_of_dec_digits(n: nat, w: nat)
    requires
        n < pow10(w),
    ensures
        dec_val(dec_digits(n, w)) == n,
    decreases w,
{
    if w == 0 {
        assert(pow10(0) == 1);
    } else {
        let prefix = dec_digits(n / 10, (w - 1) as nat);
        lemma_dec_digits_len(n / 10, (w - 1) as nat);
        assert(n / 10 < pow10((w - 1) as nat)) by (nonlinear_arith)
            requires
                n < pow10(w),
                pow10(w) == 10 * pow10((w - 1) as nat),
        ;
        lemma_dec_val_of_dec_digits(n / 10, (w - 1) as nat);
        let whole = dec_digits(n, w);
        assert(whole.drop_last() =~= prefix);
        assert(whole.last() == digit_byte(n));
        assert(dec_val(whole) == dec_val(prefix) * 10 + (digit_byte(n) - 48));
        assert(n == (n / 10) * 10 + n % 10) by (nonlinear_arith);
    }
}

proof fn lemma_dec_val_bounds(s: Seq<u8>)
    requires
        is_digit_seq(s),
    ensures
        0 <= dec_val(s) < pow10(s.len()),
    decreases s.len(),
{
    if s.len() > 0 {
        let prefix = s.drop_last();
        assert(is_digit_seq(prefix));
        lemma_dec_val_bounds(prefix);
        assert(48 <= s.last() <= 57);
        assert(dec_val(s) < 10 * pow10((s.len() - 1) as nat)) by (nonlinear_arith)
            requires
                dec_val(s) == dec_val(prefix) * 10 + (s.last() - 48),
                0 <= dec_val(prefix) < pow10((s.len() - 1) as nat),
                0 <= s.last() - 48 <= 9,
        ;
    }
}

/// Every sequence of digits is the canonical rendering of its own value.
proof fn lemma_dec_digits_canonical(s: Seq<u8>)
    requires
        is_digit_seq(s),
    ensures
        dec_digits(dec_val(s) as nat, s.len()) == s,
    decreases s.len(),
{
    lemma_dec_val_bounds(s);
    if s.len() == 0 {
        assert(dec_digits(dec_val(s) as nat, 0) =~= s);
    } else {
        let prefix = s.drop_last();
        assert(is_digit_seq(prefix));
        lemma_dec_val_bounds(prefix);
        let v = dec_val(s);
        let d = s.last() - 48;
        assert(48 <= s.last() <= 57);
        assert(v == dec_val(prefix) * 10 + d);
        assert(v / 10 == dec_val(prefix) && v % 10 == d) by (nonlinear_arith)
            requires
                v == dec_val(prefix) * 10 + d,
                0 <= d <= 9,
                0 <= dec_val(prefix),
        ;
        lemma_dec_digits_canonical(prefix);
        assert(dec_digits(v as nat, s.len()) =~= s);
    }
}

proof fn lemma_pow10_20()
    ensures
        pow10(20) == 100000000000000000000,
{
    assert(pow10(0) == 1);
    assert(pow10(1) == 10);
    assert(pow10(2) == 100);
    assert(pow10(3) == 1000);
    assert(pow10(4) == 10000);
    assert(pow10(5) == 100000);
    assert(pow10(6) == 1000000);
    assert(pow10(7) == 10000000);
    assert(pow10(8) == 100000000);
    assert(pow10(9) == 1000000000);
    assert(pow10(10) == 10000000000);
    assert(pow10(11) == 100000000000);
    assert(pow10(12) == 1000000000000);
    assert(pow10(13) == 10000000000000);
    assert(pow10(14) == 100000000000000);
    assert(pow10(15) == 1000000000000000);
    assert(pow10(16) == 10000000000000000);
    assert(pow10(17) == 100000000000000000);
    assert(pow10(18) == 1000000000000000000);
    assert(pow10(19) == 10000000000000000000);
    assert(pow10(20) == 100000000000000000000);
}

/// Two equal encodings come from one envelope: the format is canonical.
pub proof fn lemma_encode_injective(c1: u64, p1: Seq<u8>, c2: u64, p2: Seq<u8>)
    requires
        spec_encode(c1, p1) == spec_encode(c2, p2),
    ensures
        c1 == c2,
        p1 == p2,
{
    let s1 = spec_encode(c1, p1);
    let s2 = spec_encode(c2, p2);
    lemma_dec_digits_len(c1 as nat, 20);
    lemma_dec_digits_len(c2 as nat, 20);
    assert(s1.subrange(10, 30) =~= dec_digits(c1 as nat, 20));
    assert(s2.subrange(10, 30) =~= dec_digits(c2 as nat, 20));
    lemma_pow10_20();
    lemma_dec_val_of_dec_digits(c1 as nat, 20);
    lemma_dec_val_of_dec_digits(c2 as nat, 20);
    assert(s1.subrange(31, s1.len() as int) =~= p1);
    assert(s2.subrange(31, s2.len() as int) =~= p2);
}

/// Decoding inverts encoding: an encoded envelope is stored and read back
/// unchanged.
pub proof fn lemma_parse_encode(c: u64, p: Seq<u8>)
    ensures
        parse_spec(spec_encode(c, p)) == Some((c, p)),
{
    let s = spec_encode(c, p);
    assert(s == spec_encode(c, p));
    let (c2, p2) = choose|c2: u64, p2: Seq<u8>| s == spec_encode(c2, p2);
    lemma_encode_injective(c2, p2, c, p);
}

proof fn lemma_pow10_increases(a: nat, b: nat)
    requires
        a <= b,
    ensures
        pow10(a) <= pow10(b),
    decreases b,
{
    if a < b {
        lemma_pow10_increases(a, (b - 1) as nat);
        assert(pow10((b - 1) as nat) >= 1) by {
            lemma_pow10_positive((b - 1) as nat);
        }
    }
}

proof fn lemma_pow10_positive(w: nat)
    ensures
        pow10(w) >= 1,
    decreases w,
{
    if w > 0 {
        lemma_pow10_positive((w - 1) as nat);
    }
}

/// How an encoding is laid out, index by index.
proof fn lemma_encode_shape(c: u64, p: Seq<u8>)
    ensures
        spec_encode(c, p).len() == 31 + p.len(),
        forall|k: int| 0 <= k < 10 ==> spec_encode(c, p)[k] == header()[k],
        spec_encode(c, p).subrange(10, 30) == dec_digits(c as nat, 20),
        forall|k: int| 10 <= k < 30 ==> 48 <= #[trigger] spec_encode(c, p)[k] <= 57,
        spec_encode(c, p)[30] == 10,
        spec_encode(c, p).subrange(31, spec_encode(c, p).len() as int) == p,
        dec_val(spec_encode(c, p).subrange(10, 30)) == c,
{
    let s = spec_encode(c, p);
    lemma_dec_digits_len(c as nat, 20);
    lemma_dec_digits_are_digits(c as nat, 20);
    assert(s.subrange(10, 30) =~= dec_digits(c as nat, 20));
    assert forall|k: int| 10 <= k < 30 implies 48 <= #[trigger] s[k] <= 57 by {
        assert(s[k] == dec_digits(c as nat, 20)[k - 10]);
    }
    assert(s.subrange(31, s.len() as int) =~= p);
    lemma_pow10_20();
    lemma_dec_val_of_dec_digits(c as nat, 20);
}

/// The byte at position `i` of the line prefix `created = `.
fn header_byte(i: usize) -> (b: u8)
    requires
        i < 10,
    ensures
        b == header()[i as int],
{
    if i == 0 {
        99
    } else if i == 1 {
        114
    } else if i == 2 {
        101
    } else if i == 3 {
        97
    } else if i == 4 {
        116
    } else if i == 5 {
        101
    } else if i == 6 {
        100
    } else if i == 7 {
        32
    } else if i == 8 {
        61
    } else {
        32
    }
}

fn push_header(out: &mut Vec<u8>)
    ensures
        final(out)@ == old(out)@ + header(),
{
    let mut i: usize = 0;
    while i < 10
        invariant
            i <= 10,
            out@ == old(out)@ + header().take(i as int),
        decreases 10 - i,
    {
        out.push(header_byte(i));
        proof {
            assert(header().take(i + 1) =~= header().take(i as int).push(header()[i as int]));
        }
        i = i + 1;
    }
    proof {
        assert(header().take(10) =~= header());
    }
}

fn push_dec_digits(n: u64, width: u8, out: &mut Vec<u8>)
    ensures
        final(out)@ == old(out)@ + dec_digits(n as nat, width as nat),
    decreases width,
{
    if width == 0 {
        proof {
            assert(out@ =~= out@ + dec_digits(n as nat, 0));
        }
    } else {
        push_dec_digits(n / 10, width - 1, out);
        out.push((48 + (n % 10)) as u8);
    }
}

fn push_bytes(out: &mut Vec<u8>, src: &[u8])
    ensures
        final(out)@ == old(out)@ + src@,
{
    let n = src.len();
    let mut i: usize = 0;
    while i < n
        invariant
            i <= n,
            n == src@.len(),
            out@ == old(out)@ + src@.take(i as int),
        decreases n - i,
    {
        out.push(*slice_index_get(src, i));
        proof {
            assert(src@.take(i + 1) =~= src@.take(i as int).push(src@[i as int]));
        }
        i = i + 1;
    }
    proof {
        assert(src@.take(n as int) =~= src@);
    }
}

impl Envelope {
    /// Wraps a payload with the second at which it was produced.
    pub fn new(created: u64, payload: Vec<u8>) -> (r: Envelope)
        ensures
            r.created == created,
            r.payload == payload,
    {
        Envelope { created, payload }
    }

    /// Renders the envelope as the document that stores it on disk.
    pub fn encode(&self) -> (out: Vec<u8>)
        ensures
            out@ == spec_encode(self.created, self.payload@),
    {
        let mut out: Vec<u8> = Vec::new();
        push_header(&mut out);
        push_dec_digits(self.created, 20, &mut out);
        out.push(10);
        push_bytes(&mut out, self.payload.as_slice());
        proof {
            assert(out@ =~= spec_encode(self.created, self.payload@));
        }
        out
    }

    /// Reads an envelope back from its on-disk document. Returns `None` on
    /// any byte string that no envelope encodes to.
    pub fn parse(s: &[u8]) -> (r: Option<Envelope>)
        ensures
            match r {
                Some(env) => parse_spec(s@) == Some((env.created, env.payload@)),
                None => parse_spec(s@) is None,
            },
    {
        let n = s.len();
        if n < 31 {
            proof {
                assert forall|c: u64, p: Seq<u8>| s@ != spec_encode(c, p) by {
                    if s@ == spec_encode(c, p) {
                        lemma_encode_shape(c, p);
                    }
                }
            }
            return None;
        }
        let mut i: usize = 0;
        while i < 10
            invariant
                i <= 10,
                n == s@.len(),
                31 <= n,
                forall|k: int| 0 <= k < i ==> s@[k] == header()[k],
            decreases 10 - i,
        {
            if *slice_index_get(s, i) != header_byte(i) {
                proof {
                    assert forall|c: u64, p: Seq<u8>| s@ != spec_encode(c, p) by {
                        if s@ == spec_encode(c, p) {
                            lemma_encode_shape(c, p);
                        }
                    }
                }
                return None;
            }
            i = i + 1;
        }
        let mut val: u128 = 0;
        let mut j: usize = 10;
        while j < 30
            invariant
                10 <= j <= 30,
                n == s@.len(),
                31 <= n,
                forall|k: int| 0 <= k < 10 ==> s@[k] == header()[k],
                forall|k: int| 10 <= k < j ==> 48 <= #[trigger] s@[k] <= 57,
                val == dec_val(s@.subrange(10, j as int)),
                val < pow10((j - 10) as nat),
            decreases 30 - j,
        {
            let b = *slice_index_get(s, j);
            if b < 48 || b > 57 {
                proof {
                    assert forall|c: u64, p: Seq<u8>| s@ != spec_encode(c, p) by {
                        if s@ == spec_encode(c, p) {
                            lemma_encode_shape(c, p);
                        }
                    }
                }
                return None;
            }
            proof {
                lemma_pow10_increases((j - 10) as nat, 19);
                lemma_pow10_20();
                assert(pow10(19) * 10 == pow10(20));
                assert(val * 10 + (b - 48) < pow10((j + 1 - 10) as nat)) by (nonlinear_arith)
                    requires
                        val < pow10((j - 10) as nat),
                        0 <= b - 48 <= 9,
                        pow10((j + 1 - 10) as nat) == 10 * pow10((j - 10) as nat),
                ;
                assert(val <= pow10(19));
                let whole = s@.subrange(10, j + 1);
                assert(whole.drop_last() =~= s@.subrange(10, j as int));
                assert(whole.last() == s@[j as int]);
            }
            val = val * 10 + ((b - 48) as u128);
            j = j + 1;
        }
        if *slice_index_get(s, 30) != 10 {
            proof {
                assert forall|c: u64, p: Seq<u8>| s@ != spec_encode(c, p) by {
                    if s@ == spec_encode(c, p) {
                        lemma_encode_shape(c, p);
                    }
                }
            }
            return None;
        }
        if val > 0xffff_ffff_ffff_ffff {
            proof {
                assert forall|c: u64, p: Seq<u8>| s@ != spec_encode(c, p) by {
                    if s@ == spec_encode(c, p) {
                        lemma_encode_shape(c, p);
                        assert(dec_val(s@.subrange(10, 30)) == c);
                    }
                }
            }
            return None;
        }
        let created = val as u64;
        let payload = slice_to_vec(slice_subrange(s, 31, n));
        proof {
            let digits = s@.subrange(10, 30);
            assert(is_digit_seq(digits));
            lemma_dec_digits_canonical(digits);
            assert(dec_digits(created as nat, 20) == digits);
            assert forall|k: int| 0 <= k < s@.len() implies s@[k] == spec_encode(
                created,
                payload@,
            )[k] by {
                lemma_encode_shape(created, payload@);
                lemma_dec_digits_len(created as nat, 20);
                if 10 <= k < 30 {
                    assert(spec_encode(created, payload@)[k] == dec_digits(created as nat, 20)[k
                        - 10]);
                    assert(digits[k - 10] == s@[k]);
                } else if 31 <= k {
                    assert(spec_encode(created, payload@).subrange(
                        31,
                        spec_encode(created, payload@).len() as int,
                    ) == payload@);
                    assert(payload@[k - 31] == s@[k]);
                }
            }
            assert(s@ =~= spec_encode(created, payload@));
            lemma_parse_encode(created, payload@);
        }
        Some(Envelope { created, payload })
    }
}

} // verus!
