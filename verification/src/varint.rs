//! The three variable-length integer encodings of the wire protocol.
//!
//! * varint-u32: up to five bytes of little-endian septets; the continuation
//!   bit is the high bit.  The decoder stops unconditionally after the fifth
//!   byte and keeps only the four low bits of it (the accumulator is full).
//! * varint-u64: up to eight length-tagged septets plus one final full byte;
//!   if the ninth byte is reached it contributes all eight of its bits and
//!   carries no continuation bit.  The encoder emits the minimum number of
//!   bytes.
//! * varint-i64: the zigzag of the value written as a varint-u64.

use vstd::prelude::*;

use crate::error::Error;
use crate::reader::{dec_u8, Reader};

verus! {

/// `pow128(n)` is the exclusive upper bound of `n` septets.
pub open spec fn pow128(n: nat) -> nat
    decreases n,
{
    if n == 0 {
        1
    } else {
        128 * pow128((n - 1) as nat)
    }
}

/// Zigzag of a signed value: non-negative values map to the even naturals,
/// negative values to the odd ones.
pub open spec fn spec_zigzag(v: int) -> int {
    if v >= 0 {
        2 * v
    } else {
        -2 * v - 1
    }
}

/// Inverse of [`spec_zigzag`].
pub open spec fn spec_unzigzag(n: int) -> int {
    if n % 2 == 0 {
        n / 2
    } else {
        -(n / 2) - 1
    }
}

/// Little-endian septets with a continuation bit, as many as the value
/// needs.  This is the varint-u32 wire form.
pub open spec fn enc_septets(v: nat) -> Seq<u8>
    decreases v,
{
    if v < 128 {
        seq![v as u8]
    } else {
        seq![(v % 128 + 128) as u8] + enc_septets(v / 128)
    }
}

/// The varint-u32 encoding of `v`.
pub open spec fn enc_vu32(v: u32) -> Seq<u8> {
    enc_septets(v as nat)
}

/// The varint-u64 wire form with `n` length-tagged septets left before the
/// final full byte.  Faithful only for `v < 256 * pow128(n)`.
pub open spec fn enc_vu64_n(v: nat, n: nat) -> Seq<u8>
    decreases n,
{
    if n == 0 {
        seq![v as u8]
    } else if v < 128 {
        seq![v as u8]
    } else {
        seq![(v % 128 + 128) as u8] + enc_vu64_n(v / 128, (n - 1) as nat)
    }
}

/// The varint-u64 encoding of `v`: eight length-tagged septets plus one
/// final full byte.
pub open spec fn enc_vu64(v: u64) -> Seq<u8> {
    enc_vu64_n(v as nat, 8)
}

/// The varint-i64 encoding of `v`: the zigzag of `v` as a varint-u64.
pub open spec fn enc_vi64(v: i64) -> Seq<u8> {
    enc_vu64_n(spec_zigzag(v as int) as nat, 8)
}

/// Decodes a varint-u32 with `left` continuation bytes still allowed.  When
/// `left` reaches zero (the fifth byte), only the four low bits of the byte
/// contribute and decoding stops unconditionally.
pub open spec fn dec_vu32_at(b: Seq<u8>, p: int, left: nat) -> Option<(int, int)>
    decreases left,
{
    match dec_u8(b, p) {
        None => None,
        Some((h, q)) => {
            if left == 0 {
                Some(((h % 16) as int, q))
            } else if h < 128 {
                Some((h as int, q))
            } else {
                match dec_vu32_at(b, q, (left - 1) as nat) {
                    None => None,
                    Some((rest, r)) => Some((h - 128 + 128 * rest, r)),
                }
            }
        },
    }
}

/// Decodes a varint-u32 at position `p`.
pub open spec fn dec_vu32(b: Seq<u8>, p: int) -> Option<(int, int)> {
    dec_vu32_at(b, p, 4)
}

/// Decodes a varint-u64 with `left` length-tagged septets still allowed.
/// When `left` reaches zero (the ninth byte), the byte contributes all
/// eight of its bits and decoding stops unconditionally.
pub open spec fn dec_vu64_at(b: Seq<u8>, p: int, left: nat) -> Option<(int, int)>
    decreases left,
{
    match dec_u8(b, p) {
        None => None,
        Some((h, q)) => {
            if left == 0 {
                Some((h as int, q))
            } else if h < 128 {
                Some((h as int, q))
            } else {
                match dec_vu64_at(b, q, (left - 1) as nat) {
                    None => None,
                    Some((rest, r)) => Some((h - 128 + 128 * rest, r)),
                }
            }
        },
    }
}

/// Decodes a varint-u64 at position `p`.
pub open spec fn dec_vu64(b: Seq<u8>, p: int) -> Option<(int, int)> {
    dec_vu64_at(b, p, 8)
}

/// Decodes a varint-i64 at position `p`: a varint-u64 put through the
/// zigzag inverse.
pub open spec fn dec_vi64(b: Seq<u8>, p: int) -> Option<(int, int)> {
    match dec_vu64(b, p) {
        None => None,
        Some((n, q)) => Some((spec_unzigzag(n), q)),
    }
}

/// Maps an `i64` onto a `u64` so that values of small magnitude stay small.
pub fn zigzag_encode(value: i64) -> (r: u64)
    ensures
        r as int == spec_zigzag(value as int),
{
    if value >= 0 {
        2 * (value as u64)
    } else {
        2 * ((-(value + 1)) as u64) + 1
    }
}

/// Inverse of [`zigzag_encode`].
pub fn zigzag_decode(from: u64) -> (r: i64)
    ensures
        r as int == spec_unzigzag(from as int),
{
    if from % 2 == 0 {
        (from / 2) as i64
    } else {
        -((from / 2) as i64) - 1
    }
}

/// Zigzag is a bijection: decoding an encoded value gives the value back.
pub proof fn lemma_zigzag_round_trip(v: int)
    ensures
        spec_unzigzag(spec_zigzag(v)) == v,
{
}

/// Zigzag hits every natural: encoding a decoded value gives the value back.
pub proof fn lemma_unzigzag_round_trip(n: int)
    requires
        n >= 0,
    ensures
        spec_zigzag(spec_unzigzag(n)) == n,
{
}

/// `pow128` is monotone in its exponent and at least one.
pub proof fn lemma_pow128_le(a: nat, b: nat)
    requires
        a <= b,
    ensures
        pow128(a) <= pow128(b),
        pow128(a) >= 1,
    decreases b,
{
    if b > 0 {
        if a == b {
            lemma_pow128_le((a - 1) as nat, (b - 1) as nat);
            assert(pow128(a) <= 128 * pow128((b - 1) as nat)) by (nonlinear_arith)
                requires
                    pow128((a - 1) as nat) <= pow128((b - 1) as nat),
                    pow128(a) == 128 * pow128((a - 1) as nat),
                    pow128((b - 1) as nat) >= 1,
            ;
        } else {
            lemma_pow128_le(a, (b - 1) as nat);
        }
    }
}

/// A varint-u32 decodes to a value below `16 * pow128(left)` and consumes
/// at least one byte.
pub proof fn lemma_dec_vu32_bound(b: Seq<u8>, p: int, left: nat)
    ensures
        match dec_vu32_at(b, p, left) {
            Some((v, q)) => 0 <= v < 16 * pow128(left) && p < q <= b.len() && q <= p + left + 1,
            None => true,
        },
    decreases left,
{
    lemma_pow128_le(0, left);
    if dec_u8(b, p) is Some {
        let (h, q) = dec_u8(b, p)->Some_0;
        if left > 0 && h >= 128 {
            lemma_dec_vu32_bound(b, q, (left - 1) as nat);
            if dec_vu32_at(b, q, (left - 1) as nat) is Some {
                let (rest, _) = dec_vu32_at(b, q, (left - 1) as nat)->Some_0;
                assert(h - 128 + 128 * rest < 16 * pow128(left)) by (nonlinear_arith)
                    requires
                        0 <= rest < 16 * pow128((left - 1) as nat),
                        h < 256,
                        pow128(left) == 128 * pow128((left - 1) as nat),
                        pow128((left - 1) as nat) >= 1,
                ;
            }
        }
    }
}

/// A varint-u64 decodes to a value below `256 * pow128(left)` and consumes
/// at least one byte.
pub proof fn lemma_dec_vu64_bound(b: Seq<u8>, p: int, left: nat)
    ensures
        match dec_vu64_at(b, p, left) {
            Some((v, q)) => 0 <= v < 256 * pow128(left) && p < q <= b.len() && q <= p + left + 1,
            None => true,
        },
    decreases left,
{
    lemma_pow128_le(0, left);
    if dec_u8(b, p) is Some {
        let (h, q) = dec_u8(b, p)->Some_0;
        if left > 0 && h >= 128 {
            lemma_dec_vu64_bound(b, q, (left - 1) as nat);
            if dec_vu64_at(b, q, (left - 1) as nat) is Some {
                let (rest, _) = dec_vu64_at(b, q, (left - 1) as nat)->Some_0;
                assert(h - 128 + 128 * rest < 256 * pow128(left)) by (nonlinear_arith)
                    requires
                        0 <= rest < 256 * pow128((left - 1) as nat),
                        h < 256,
                        pow128(left) == 128 * pow128((left - 1) as nat),
                        pow128((left - 1) as nat) >= 1,
                ;
            }
        }
    }
}

/// The septet encoding of a value below `pow128(k)` is at most `k` bytes
/// (one byte for the zero value).
pub proof fn lemma_enc_septets_len(v: nat, k: nat)
    requires
        v < pow128(k),
        k >= 1,
    ensures
        1 <= enc_septets(v).len() <= k,
    decreases v,
{
    if v >= 128 {
        assert(k >= 2) by {
            reveal_with_fuel(pow128, 2);
        }
        assert(v / 128 < pow128((k - 1) as nat)) by (nonlinear_arith)
            requires
                v < pow128(k),
                pow128(k) == 128 * pow128((k - 1) as nat),
                v >= 0,
        ;
        assert(v / 128 < v) by (nonlinear_arith)
            requires
                v >= 128,
        ;
        lemma_enc_septets_len(v / 128, (k - 1) as nat);
    }
}

/// A varint-u32 encoding takes at most five bytes.
pub proof fn lemma_enc_vu32_len(v: u32)
    ensures
        1 <= enc_vu32(v).len() <= 5,
{
    assert(v < pow128(5)) by {
        reveal_with_fuel(pow128, 6);
    }
    lemma_enc_septets_len(v as nat, 5);
}

/// A capped varint-u64 encoding takes at most `n + 1` bytes.
pub proof fn lemma_enc_vu64_n_len(v: nat, n: nat)
    ensures
        1 <= enc_vu64_n(v, n).len() <= n + 1,
    decreases n,
{
    if n > 0 && v >= 128 {
        lemma_enc_vu64_n_len(v / 128, (n - 1) as nat);
    }
}

/// A varint-u64 encoding takes at most nine bytes.
pub proof fn lemma_enc_vu64_len(v: u64)
    ensures
        1 <= enc_vu64(v).len() <= 9,
{
    lemma_enc_vu64_n_len(v as nat, 8);
}

/// Varint-u32 round trip: wherever the encoding of `v` sits in a buffer,
/// decoding there yields `v` and stops right after it.
pub proof fn lemma_vu32_round_trip_at(b: Seq<u8>, p: int, v: nat, left: nat)
    requires
        v < 16 * pow128(left),
        0 <= p,
        p + enc_septets(v).len() <= b.len(),
        b.subrange(p, p + enc_septets(v).len() as int) == enc_septets(v),
    ensures
        dec_vu32_at(b, p, left) == Some::<(int, int)>((v as int, p + enc_septets(v).len())),
    decreases left,
{
    let e = enc_septets(v);
    assert(b[p] == b.subrange(p, p + e.len() as int)[0]);
    if v < 128 {
        if left == 0 {
            assert(pow128(0) == 1);
            assert(v < 16);
        }
    } else {
        assert(left >= 1) by {
            reveal_with_fuel(pow128, 1);
        }
        assert(v / 128 < v) by (nonlinear_arith)
            requires
                v >= 128,
        ;
        let e1 = enc_septets(v / 128);
        assert(b.subrange(p + 1, p + e.len() as int) =~= e1) by {
            assert forall|i: int| 0 <= i < e1.len() implies b.subrange(p + 1, p + e.len() as int)[i]
                == e1[i] by {
                assert(b.subrange(p, p + e.len() as int)[i + 1] == e[i + 1]);
            }
        }
        assert(v / 128 < 16 * pow128((left - 1) as nat)) by (nonlinear_arith)
            requires
                v < 16 * pow128(left),
                pow128(left) == 128 * pow128((left - 1) as nat),
                v >= 0,
        ;
        lemma_vu32_round_trip_at(b, p + 1, v / 128, (left - 1) as nat);
        assert((v % 128) + 128 * (v / 128) == v) by (nonlinear_arith)
            requires
                v >= 0,
        ;
    }
}

/// Varint-u32 round trip at the standard budget of five bytes.
pub proof fn lemma_vu32_round_trip(b: Seq<u8>, p: int, v: u32)
    requires
        0 <= p,
        p + enc_vu32(v).len() <= b.len(),
        b.subrange(p, p + enc_vu32(v).len() as int) == enc_vu32(v),
    ensures
        dec_vu32(b, p) == Some::<(int, int)>((v as int, p + enc_vu32(v).len())),
{
    assert(v < 16 * pow128(4)) by {
        reveal_with_fuel(pow128, 5);
    }
    lemma_vu32_round_trip_at(b, p, v as nat, 4);
}

/// Varint-u64 round trip: wherever the encoding of `v` sits in a buffer,
/// decoding there yields `v` and stops right after it.
pub proof fn lemma_vu64_round_trip_at(b: Seq<u8>, p: int, v: nat, left: nat)
    requires
        v < 256 * pow128(left),
        0 <= p,
        p + enc_vu64_n(v, left).len() <= b.len(),
        b.subrange(p, p + enc_vu64_n(v, left).len() as int) == enc_vu64_n(v, left),
    ensures
        dec_vu64_at(b, p, left) == Some::<(int, int)>((v as int, p + enc_vu64_n(v, left).len())),
    decreases left,
{
    let e = enc_vu64_n(v, left);
    assert(b[p] == b.subrange(p, p + e.len() as int)[0]);
    if left == 0 || v < 128 {
        if left == 0 {
            assert(pow128(0) == 1);
            assert(v < 256);
        }
    } else {
        let e1 = enc_vu64_n(v / 128, (left - 1) as nat);
        assert(b.subrange(p + 1, p + e.len() as int) =~= e1) by {
            assert forall|i: int| 0 <= i < e1.len() implies b.subrange(p + 1, p + e.len() as int)[i]
                == e1[i] by {
                assert(b.subrange(p, p + e.len() as int)[i + 1] == e[i + 1]);
            }
        }
        assert(v / 128 < 256 * pow128((left - 1) as nat)) by (nonlinear_arith)
            requires
                v < 256 * pow128(left),
                pow128(left) == 128 * pow128((left - 1) as nat),
                v >= 0,
        ;
        lemma_vu64_round_trip_at(b, p + 1, v / 128, (left - 1) as nat);
        assert((v % 128) + 128 * (v / 128) == v) by (nonlinear_arith)
            requires
                v >= 0,
        ;
    }
}

/// Varint-u64 round trip at the standard budget of nine bytes.
pub proof fn lemma_vu64_round_trip(b: Seq<u8>, p: int, v: u64)
    requires
        0 <= p,
        p + enc_vu64(v).len() <= b.len(),
        b.subrange(p, p + enc_vu64(v).len() as int) == enc_vu64(v),
    ensures
        dec_vu64(b, p) == Some::<(int, int)>((v as int, p + enc_vu64(v).len())),
{
    assert(v < 256 * pow128(8)) by {
        reveal_with_fuel(pow128, 9);
    }
    lemma_vu64_round_trip_at(b, p, v as nat, 8);
}

/// Varint-i64 round trip: the zigzag encoding of `v` decodes back to `v`.
pub proof fn lemma_vi64_round_trip(b: Seq<u8>, p: int, v: i64)
    requires
        0 <= p,
        p + enc_vi64(v).len() <= b.len(),
        b.subrange(p, p + enc_vi64(v).len() as int) == enc_vi64(v),
    ensures
        dec_vi64(b, p) == Some::<(int, int)>((v as int, p + enc_vi64(v).len())),
{
    let z = spec_zigzag(v as int) as nat;
    assert(z < 256 * pow128(8)) by {
        reveal_with_fuel(pow128, 9);
    }
    lemma_vu64_round_trip_at(b, p, z, 8);
    lemma_zigzag_round_trip(v as int);
}

/// A sequential writer of varints.  The crate implements it for `Vec<u8>`,
/// the byte sink every serializer writes into.
pub trait VarintWrite {
    /// The bytes written so far.
    spec fn sink(&self) -> Seq<u8>;

    /// Appends the varint-u32 encoding of `value` and returns its length.
    fn write_vu32(&mut self, value: u32) -> (n: usize)
        ensures
            final(self).sink() == old(self).sink() + enc_vu32(value),
            n == enc_vu32(value).len(),
    ;

    /// Appends the varint-u64 encoding of `value` and returns its length.
    fn write_vu64(&mut self, value: u64) -> (n: usize)
        ensures
            final(self).sink() == old(self).sink() + enc_vu64(value),
            n == enc_vu64(value).len(),
    ;

    /// Appends the varint-i64 encoding of `value` and returns its length.
    fn write_vi64(&mut self, value: i64) -> (n: usize)
        ensures
            final(self).sink() == old(self).sink() + enc_vi64(value),
            n == enc_vi64(value).len(),
    ;
}

/// Writes the septet form of `value`, the body of `write_vu32`.
fn write_septets(w: &mut Vec<u8>, value: u32) -> (n: usize)
    ensures
        final(w)@ == old(w)@ + enc_septets(value as nat),
        n == enc_septets(value as nat).len(),
    decreases value,
{
    proof {
        assert(value < pow128(5)) by {
            reveal_with_fuel(pow128, 6);
        }
        lemma_enc_septets_len(value as nat, 5);
    }
    if value < 0x80 {
        w.push(value as u8);
        assert(w@ =~= old(w)@ + enc_septets(value as nat));
        1
    } else {
        w.push((value % 0x80 + 0x80) as u8);
        let m = write_septets(w, value / 0x80);
        assert(w@ =~= old(w)@ + enc_septets(value as nat));
        1 + m
    }
}

/// Writes the capped septet form of `value`, the body of `write_vu64`;
/// `septets` counts the length-tagged septets still allowed before the
/// final full byte.
fn write_vu64_rec(w: &mut Vec<u8>, value: u64, septets: usize) -> (n: usize)
    requires
        septets <= 8,
        (value as nat) < 256 * pow128(septets as nat),
    ensures
        final(w)@ == old(w)@ + enc_vu64_n(value as nat, septets as nat),
        n == enc_vu64_n(value as nat, septets as nat).len(),
    decreases septets,
{
    proof {
        lemma_enc_vu64_n_len(value as nat, septets as nat);
    }
    if septets == 0 {
        assert(pow128(0) == 1);
        w.push(value as u8);
        assert(w@ =~= old(w)@ + enc_vu64_n(value as nat, septets as nat));
        1
    } else if value < 0x80 {
        w.push(value as u8);
        assert(w@ =~= old(w)@ + enc_vu64_n(value as nat, septets as nat));
        1
    } else {
        w.push((value % 0x80 + 0x80) as u8);
        proof {
            assert((value as nat) / 128 < 256 * pow128((septets - 1) as nat)) by (nonlinear_arith)
                requires
                    (value as nat) < 256 * pow128(septets as nat),
                    pow128(septets as nat) == 128 * pow128((septets - 1) as nat),
            ;
        }
        let m = write_vu64_rec(w, value / 0x80, septets - 1);
        assert(w@ =~= old(w)@ + enc_vu64_n(value as nat, septets as nat));
        1 + m
    }
}

impl VarintWrite for Vec<u8> {
    open spec fn sink(&self) -> Seq<u8> {
        self@
    }

    fn write_vu32(&mut self, value: u32) -> (n: usize) {
        write_septets(self, value)
    }

    fn write_vu64(&mut self, value: u64) -> (n: usize) {
        proof {
            assert(value < 256 * pow128(8)) by {
                reveal_with_fuel(pow128, 9);
            }
        }
        write_vu64_rec(self, value, 8)
    }

    fn write_vi64(&mut self, value: i64) -> (n: usize) {
        let z = zigzag_encode(value);
        proof {
            assert(z < 256 * pow128(8)) by {
                reveal_with_fuel(pow128, 9);
            }
        }
        write_vu64_rec(self, z, 8)
    }
}

/// A sequential reader of varints.  The crate implements it for [`Reader`].
pub trait VarintRead {
    /// The whole underlying buffer.
    spec fn src(&self) -> Seq<u8>;

    /// The current read position.
    spec fn src_position(&self) -> int;

    /// The position never runs past the end of the buffer.
    spec fn src_wf(&self) -> bool;

    /// Reads a varint-u32.
    fn read_vu32(&mut self) -> (r: Result<u32, Error>)
        requires
            old(self).src_wf(),
        ensures
            final(self).src_wf(),
            final(self).src() == old(self).src(),
            match r {
                Ok(v) => dec_vu32(old(self).src(), old(self).src_position()) == Some(
                    (v as int, final(self).src_position()),
                ),
                Err(e) => {
                    &&& dec_vu32(old(self).src(), old(self).src_position()) is None
                    &&& e == Error::Truncated
                },
            },
    ;

    /// Reads a varint-u64.
    fn read_vu64(&mut self) -> (r: Result<u64, Error>)
        requires
            old(self).src_wf(),
        ensures
            final(self).src_wf(),
            final(self).src() == old(self).src(),
            match r {
                Ok(v) => dec_vu64(old(self).src(), old(self).src_position()) == Some(
                    (v as int, final(self).src_position()),
                ),
                Err(e) => {
                    &&& dec_vu64(old(self).src(), old(self).src_position()) is None
                    &&& e == Error::Truncated
                },
            },
    ;

    /// Reads a varint-i64.
    fn read_vi64(&mut self) -> (r: Result<i64, Error>)
        requires
            old(self).src_wf(),
        ensures
            final(self).src_wf(),
            final(self).src() == old(self).src(),
            match r {
                Ok(v) => dec_vi64(old(self).src(), old(self).src_position()) == Some(
                    (v as int, final(self).src_position()),
                ),
                Err(e) => {
                    &&& dec_vi64(old(self).src(), old(self).src_position()) is None
                    &&& e == Error::Truncated
                },
            },
    ;
}

/// Reads a varint-u32 with `left` continuation bytes still allowed.
fn read_vu32_rec(rd: &mut Reader, left: usize) -> (r: Result<u32, Error>)
    requires
        old(rd).wf(),
        left <= 4,
    ensures
        final(rd).wf(),
        final(rd).data() == old(rd).data(),
        match r {
            Ok(v) => dec_vu32_at(old(rd).data(), old(rd).position(), left as nat) == Some(
                (v as int, final(rd).position()),
            ),
            Err(e) => {
                &&& dec_vu32_at(old(rd).data(), old(rd).position(), left as nat) is None
                &&& e == Error::Truncated
            },
        },
    decreases left,
{
    match rd.read_u8() {
        Err(e) => Err(e),
        Ok(h) => {
            if left == 0 {
                Ok((h % 16) as u32)
            } else if h < 128 {
                Ok(h as u32)
            } else {
                match read_vu32_rec(rd, left - 1) {
                    Err(e) => Err(e),
                    Ok(rest) => {
                        proof {
                            lemma_dec_vu32_bound(rd.data(), old(rd).position() + 1, (left
                                - 1) as nat);
                            lemma_pow128_le((left - 1) as nat, 3);
                            assert(pow128(3) == 0x200000) by {
                                reveal_with_fuel(pow128, 4);
                            }
                        }
                        Ok((h - 128) as u32 + 128 * rest)
                    },
                }
            }
        },
    }
}

/// Reads a varint-u64 with `left` length-tagged septets still allowed.
fn read_vu64_rec(rd: &mut Reader, left: usize) -> (r: Result<u64, Error>)
    requires
        old(rd).wf(),
        left <= 8,
    ensures
        final(rd).wf(),
        final(rd).data() == old(rd).data(),
        match r {
            Ok(v) => dec_vu64_at(old(rd).data(), old(rd).position(), left as nat) == Some(
                (v as int, final(rd).position()),
            ),
            Err(e) => {
                &&& dec_vu64_at(old(rd).data(), old(rd).position(), left as nat) is None
                &&& e == Error::Truncated
            },
        },
    decreases left,
{
    match rd.read_u8() {
        Err(e) => Err(e),
        Ok(h) => {
            if left == 0 {
                Ok(h as u64)
            } else if h < 128 {
                Ok(h as u64)
            } else {
                match read_vu64_rec(rd, left - 1) {
                    Err(e) => Err(e),
                    Ok(rest) => {
                        proof {
                            lemma_dec_vu64_bound(rd.data(), old(rd).position() + 1, (left
                                - 1) as nat);
                            lemma_pow128_le((left - 1) as nat, 7);
                            assert(pow128(7) == 0x2000000000000) by {
                                reveal_with_fuel(pow128, 8);
                            }
                        }
                        Ok((h - 128) as u64 + 128 * rest)
                    },
                }
            }
        },
    }
}

impl VarintRead for Reader {
    open spec fn src(&self) -> Seq<u8> {
        self.data()
    }

    open spec fn src_position(&self) -> int {
        self.position()
    }

    open spec fn src_wf(&self) -> bool {
        self.wf()
    }

    fn read_vu32(&mut self) -> (r: Result<u32, Error>) {
        read_vu32_rec(self, 4)
    }

    fn read_vu64(&mut self) -> (r: Result<u64, Error>) {
        read_vu64_rec(self, 8)
    }

    fn read_vi64(&mut self) -> (r: Result<i64, Error>) {
        match read_vu64_rec(self, 8) {
            Err(e) => Err(e),
            Ok(n) => Ok(zigzag_decode(n)),
        }
    }
}

} // verus!
