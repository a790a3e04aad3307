//! A sequential byte reader over an owned buffer.
//!
//! The transport (a file, an HTTP response) hands the codec a plain byte
//! vector; every decoding function consumes bytes through a [`Reader`].
//! Each primitive read is specified against a little-endian decoding
//! function over the byte sequence, so that the contracts of the decoders
//! compose positionally.

use vstd::prelude::*;

use crate::error::Error;

verus! {

/// `pow256(n)` is the exclusive upper bound of an `n`-byte little-endian
/// integer.
pub open spec fn pow256(n: nat) -> nat
    decreases n,
{
    if n == 0 {
        1
    } else {
        256 * pow256((n - 1) as nat)
    }
}

/// Decodes the byte at position `p`, if there is one.
pub open spec fn dec_u8(b: Seq<u8>, p: int) -> Option<(u8, int)> {
    if 0 <= p && p < b.len() {
        Some((b[p], p + 1))
    } else {
        None
    }
}

/// Decodes an `n`-byte little-endian unsigned integer at position `p`.
pub open spec fn dec_le(b: Seq<u8>, p: int, n: nat) -> Option<(int, int)>
    decreases n,
{
    if n == 0 {
        if 0 <= p && p <= b.len() {
            Some((0, p))
        } else {
            None
        }
    } else {
        match dec_u8(b, p) {
            None => None,
            Some((h, q)) => match dec_le(b, q, (n - 1) as nat) {
                None => None,
                Some((rest, r)) => Some((h + 256 * rest, r)),
            },
        }
    }
}

/// Encodes `v` as `n` little-endian bytes; `v` must be below `pow256(n)`
/// for the encoding to be faithful.
pub open spec fn enc_le(v: nat, n: nat) -> Seq<u8>
    decreases n,
{
    if n == 0 {
        seq![]
    } else {
        seq![(v % 256) as u8] + enc_le(v / 256, (n - 1) as nat)
    }
}

/// An `n`-byte little-endian integer decodes to a value below `pow256(n)`,
/// and decoding succeeds exactly when `n` bytes are available.
pub proof fn lemma_dec_le_bound(b: Seq<u8>, p: int, n: nat)
    ensures
        dec_le(b, p, n) is Some <==> 0 <= p && p + n <= b.len(),
        match dec_le(b, p, n) {
            Some((v, q)) => 0 <= v < pow256(n) && q == p + n,
            None => true,
        },
    decreases n,
{
    if n > 0 {
        lemma_dec_le_bound(b, p + 1, (n - 1) as nat);
        if 0 <= p && p < b.len() {
            if dec_le(b, p + 1, (n - 1) as nat) is Some {
                let (rest, _) = dec_le(b, p + 1, (n - 1) as nat)->Some_0;
                assert(b[p] + 256 * rest < 256 * pow256((n - 1) as nat)) by (nonlinear_arith)
                    requires
                        0 <= rest < pow256((n - 1) as nat),
                        b[p] < 256,
                ;
            }
        }
    }
}

/// The encoding of an `n`-byte little-endian integer is `n` bytes long.
pub proof fn lemma_enc_le_len(v: nat, n: nat)
    ensures
        enc_le(v, n).len() == n,
    decreases n,
{
    if n > 0 {
        lemma_enc_le_len(v / 256, (n - 1) as nat);
    }
}

/// Little-endian round trip: decoding an encoding yields the value back,
/// whatever follows it in the buffer.
pub proof fn lemma_le_round_trip(b: Seq<u8>, p: int, v: nat, n: nat)
    requires
        v < pow256(n),
        0 <= p,
        p + n <= b.len(),
        b.subrange(p, p + n as int) == enc_le(v, n),
    ensures
        dec_le(b, p, n) == Some::<(int, int)>((v as int, p + n)),
    decreases n,
{
    if n == 0 {
    } else {
        let e = enc_le(v, n);
        lemma_enc_le_len(v, n);
        assert(b[p] == b.subrange(p, p + n as int)[0]);
        assert(b[p] == (v % 256) as u8);
        assert(b.subrange(p + 1, p + n as int) =~= enc_le(v / 256, (n - 1) as nat)) by {
            assert forall|i: int| 0 <= i < n - 1 implies b.subrange(p + 1, p + n as int)[i]
                == #[trigger] enc_le(v / 256, (n - 1) as nat)[i] by {
                assert(b.subrange(p, p + n as int)[i + 1] == enc_le(v, n)[i + 1]);
            }
        }
        assert(v / 256 < pow256((n - 1) as nat)) by (nonlinear_arith)
            requires
                v < 256 * pow256((n - 1) as nat),
                v >= 0,
        ;
        lemma_le_round_trip(b, p + 1, v / 256, (n - 1) as nat);
        assert((v % 256) + 256 * (v / 256) == v) by (nonlinear_arith)
            requires
                v >= 0,
        ;
    }
}

/// A sequential reader over an owned byte buffer.
pub struct Reader {
    bytes: Vec<u8>,
    pos: usize,
}

impl Reader {
    /// The whole underlying buffer.
    pub closed spec fn data(&self) -> Seq<u8> {
        self.bytes@
    }

    /// The current read position.
    pub closed spec fn position(&self) -> int {
        self.pos as int
    }

    /// The position never runs past the end of the buffer.
    pub closed spec fn wf(&self) -> bool {
        self.pos <= self.bytes.len()
    }

    /// Wraps a byte buffer for sequential consumption.
    pub fn new(bytes: Vec<u8>) -> (r: Reader)
        ensures
            r.data() == bytes@,
            r.position() == 0,
            r.wf(),
    {
        Reader { bytes, pos: 0 }
    }

    /// How many bytes are left to read.
    pub fn remaining(&self) -> (r: usize)
        requires
            self.wf(),
        ensures
            r == self.data().len() - self.position(),
    {
        self.bytes.len() - self.pos
    }

    /// Whether the buffer is fully consumed.
    pub fn is_empty(&self) -> (r: bool)
        requires
            self.wf(),
        ensures
            r == (self.position() == self.data().len()),
    {
        self.pos == self.bytes.len()
    }

    /// Reads one byte.
    pub fn read_u8(&mut self) -> (r: Result<u8, Error>)
        requires
            old(self).wf(),
        ensures
            final(self).wf(),
            final(self).data() == old(self).data(),
            match r {
                Ok(v) => dec_u8(old(self).data(), old(self).position()) == Some(
                    (v, final(self).position()),
                ),
                Err(e) => {
                    &&& dec_u8(old(self).data(), old(self).position()) is None
                    &&& e == Error::Truncated
                    &&& final(self).position() == old(self).position()
                },
            },
    {
        if self.pos < self.bytes.len() {
            let v = self.bytes[self.pos];
            self.pos = self.pos + 1;
            Ok(v)
        } else {
            Err(Error::Truncated)
        }
    }

    /// Reads an `n`-byte little-endian unsigned integer into a `u64`;
    /// `n` must be at most 8.
    fn read_le(&mut self, n: usize) -> (r: Result<u64, Error>)
        requires
            old(self).wf(),
            n <= 8,
        ensures
            final(self).wf(),
            final(self).data() == old(self).data(),
            match r {
                Ok(v) => dec_le(old(self).data(), old(self).position(), n as nat) == Some(
                    (v as int, final(self).position()),
                ),
                Err(e) => {
                    &&& dec_le(old(self).data(), old(self).position(), n as nat) is None
                    &&& e == Error::Truncated
                },
            },
        decreases n,
    {
        if n == 0 {
            Ok(0)
        } else {
            match self.read_u8() {
                Err(e) => Err(e),
                Ok(h) => {
                    match self.read_le(n - 1) {
                        Err(e) => Err(e),
                        Ok(rest) => {
                            proof {
                                lemma_dec_le_bound(self.data(), old(self).position() + 1, (n
                                    - 1) as nat);
                                lemma_pow256_le((n - 1) as nat, 7);
                                assert(pow256(7) == 0x100000000000000) by {
                                    reveal_with_fuel(pow256, 8);
                                }
                            }
                            Ok((h as u64) + 256 * rest)
                        },
                    }
                },
            }
        }
    }

    /// Reads a little-endian `u16`.
    pub fn read_u16_le(&mut self) -> (r: Result<u16, Error>)
        requires
            old(self).wf(),
        ensures
            final(self).wf(),
            final(self).data() == old(self).data(),
            match r {
                Ok(v) => dec_le(old(self).data(), old(self).position(), 2) == Some(
                    (v as int, final(self).position()),
                ),
                Err(e) => {
                    &&& dec_le(old(self).data(), old(self).position(), 2) is None
                    &&& e == Error::Truncated
                },
            },
    {
        proof {
            lemma_dec_le_bound(self.data(), self.position(), 2);
            assert(pow256(2) == 0x10000) by {
                reveal_with_fuel(pow256, 3);
            }
        }
        match self.read_le(2) {
            Ok(v) => Ok(v as u16),
            Err(e) => Err(e),
        }
    }

    /// Reads a little-endian `u32`.
    pub fn read_u32_le(&mut self) -> (r: Result<u32, Error>)
        requires
            old(self).wf(),
        ensures
            final(self).wf(),
            final(self).data() == old(self).data(),
            match r {
                Ok(v) => dec_le(old(self).data(), old(self).position(), 4) == Some(
                    (v as int, final(self).position()),
                ),
                Err(e) => {
                    &&& dec_le(old(self).data(), old(self).position(), 4) is None
                    &&& e == Error::Truncated
                },
            },
    {
        proof {
            lemma_dec_le_bound(self.data(), self.position(), 4);
            assert(pow256(4) == 0x100000000) by {
                reveal_with_fuel(pow256, 5);
            }
        }
        match self.read_le(4) {
            Ok(v) => Ok(v as u32),
            Err(e) => Err(e),
        }
    }

    /// Reads a little-endian `u64`.
    pub fn read_u64_le(&mut self) -> (r: Result<u64, Error>)
        requires
            old(self).wf(),
        ensures
            final(self).wf(),
            final(self).data() == old(self).data(),
            match r {
                Ok(v) => dec_le(old(self).data(), old(self).position(), 8) == Some(
                    (v as int, final(self).position()),
                ),
                Err(e) => {
                    &&& dec_le(old(self).data(), old(self).position(), 8) is None
                    &&& e == Error::Truncated
                },
            },
    {
        self.read_le(8)
    }

    /// Reads exactly `n` bytes.
    pub fn read_bytes(&mut self, n: usize) -> (r: Result<Vec<u8>, Error>)
        requires
            old(self).wf(),
        ensures
            final(self).wf(),
            final(self).data() == old(self).data(),
            match r {
                Ok(v) => {
                    &&& old(self).position() + n <= final(self).data().len()
                    &&& v@ == final(self).data().subrange(
                        old(self).position(),
                        old(self).position() + n,
                    )
                    &&& final(self).position() == old(self).position() + n
                },
                Err(e) => {
                    &&& old(self).position() + n > final(self).data().len()
                    &&& e == Error::Truncated
                },
            },
    {
        if self.bytes.len() - self.pos < n {
            return Err(Error::Truncated);
        }
        let ghost d = self.data();
        let ghost p0 = self.position();
        let mut v: Vec<u8> = Vec::new();
        let mut i: usize = 0;
        assert(v@ =~= d.subrange(p0, p0 + 0));
        while i < n
            invariant
                self.wf(),
                self.data() == d,
                d == old(self).data(),
                i <= n,
                0 <= p0,
                self.position() == p0 + i,
                p0 + n <= d.len(),
                v@ =~= d.subrange(p0, p0 + i),
            decreases n - i,
        {
            let h = self.bytes[self.pos];
            proof {
                assert(h == d[p0 + i]);
            }
            self.pos = self.pos + 1;
            v.push(h);
            proof {
                assert(v@ =~= d.subrange(p0, p0 + i + 1));
            }
            i = i + 1;
        }
        proof {
            assert(v@ =~= d.subrange(p0, p0 + n));
        }
        Ok(v)
    }
}

/// The reader's position is never negative, and never past the end while
/// the reader is well formed.
pub proof fn lemma_reader_position(r: &Reader)
    ensures
        r.position() >= 0,
        r.wf() ==> r.position() <= r.data().len(),
{
}

/// `pow256` is monotone in its exponent and at least one.
pub proof fn lemma_pow256_le(a: nat, b: nat)
    requires
        a <= b,
    ensures
        pow256(a) <= pow256(b),
        pow256(a) >= 1,
    decreases b,
{
    if b > 0 {
        if a == b {
            lemma_pow256_le((a - 1) as nat, (b - 1) as nat);
            assert(pow256(a) <= 256 * pow256((b - 1) as nat)) by (nonlinear_arith)
                requires
                    pow256((a - 1) as nat) <= pow256((b - 1) as nat),
                    pow256(a) == 256 * pow256((a - 1) as nat),
                    pow256((b - 1) as nat) >= 1,
            ;
        } else {
            lemma_pow256_le(a, (b - 1) as nat);
        }
    }
}

} // verus!
