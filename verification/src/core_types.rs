//! The specialized primitive wrappers of the runtime's `core` module.
//!
//! Every wrapper holds the exact wire payload as a plain integer:
//!
//! * [`Float`] holds the IEEE-754 bit pattern of a 64-bit float, which gives
//!   it a total order and exact equality (NaN equals NaN with the same bits).
//!   The host converts through `f64::to_bits` / `f64::from_bits`.
//! * [`Time`] and [`Duration`] hold signed microseconds.
//! * [`Geo`] holds a Morton-encoded latitude/longitude pair; the lossy
//!   float conversion lives with the host, the bit interleaving here.
//! * The node family holds opaque 64-bit node references.

use vstd::prelude::*;

verus! {

/// A 64-bit float carried as its IEEE-754 bit pattern, totally ordered and
/// hashable by those bits.
#[derive(Debug, Clone, Copy, PartialEq, Eq, PartialOrd, Ord, Hash, Structural)]
pub struct Float(pub u64);

impl Float {
    /// Wraps a raw IEEE-754 bit pattern.
    pub fn from_bits(bits: u64) -> (r: Float)
        ensures
            r.0 == bits,
    {
        Float(bits)
    }

    /// The raw IEEE-754 bit pattern.
    pub fn to_bits(&self) -> (r: u64)
        ensures
            r == self.0,
    {
        self.0
    }
}

/// A point in time, in microseconds.
#[derive(Debug, Clone, Copy, PartialEq, Eq, PartialOrd, Ord, Hash, Structural)]
pub struct Time(pub i64);

impl Time {
    pub fn new(value: i64) -> (r: Time)
        ensures
            r.0 == value,
    {
        Time(value)
    }
}

/// A span of time, in microseconds.
#[derive(Debug, Clone, Copy, PartialEq, Eq, PartialOrd, Ord, Hash, Structural)]
pub struct Duration(pub i64);

impl Duration {
    pub fn new(value: i64) -> (r: Duration)
        ensures
            r.0 == value,
    {
        Duration(value)
    }
}

/// A geographic position, Morton-encoded (longitude in the odd bits,
/// latitude in the even ones).
#[derive(Debug, Clone, Copy, PartialEq, Eq, PartialOrd, Ord, Hash, Structural)]
pub struct Geo(pub u64);

/// Two to the `n`.
pub open spec fn pow2l(n: nat) -> int
    decreases n,
{
    if n == 0 {
        1
    } else {
        2 * pow2l((n - 1) as nat)
    }
}

/// Four to the `n`.
pub open spec fn pow4l(n: nat) -> int
    decreases n,
{
    if n == 0 {
        1
    } else {
        4 * pow4l((n - 1) as nat)
    }
}

/// The Morton interleaving of the low `n` bits of two numbers: the second
/// one's bits land in the even positions, the first one's in the odd ones.
pub open spec fn spec_interleave(lng: int, lat: int, n: nat) -> int
    decreases n,
{
    if n == 0 {
        0
    } else {
        (lat % 2) + 2 * (lng % 2) + 4 * spec_interleave(lng / 2, lat / 2, (n - 1) as nat)
    }
}

/// The number spelled by the even bits of `m`, `n` of them.
pub open spec fn spec_even_bits(m: int, n: nat) -> int
    decreases n,
{
    if n == 0 {
        0
    } else {
        (m % 2) + 2 * spec_even_bits(m / 4, (n - 1) as nat)
    }
}

/// The concrete powers the scaled-coordinate code relies on.
pub proof fn lemma_pow_values()
    ensures
        pow4l(31) == 0x4000000000000000,
        pow4l(32) == 0x10000000000000000,
        pow2l(31) == 0x80000000,
        pow2l(32) == 0x100000000,
{
    reveal_with_fuel(pow4l, 33);
    reveal_with_fuel(pow2l, 33);
}

/// An interleaving of `n` bit pairs stays below `4^n`.
pub proof fn lemma_interleave_bound(lng: int, lat: int, n: nat)
    requires
        lng >= 0,
        lat >= 0,
    ensures
        0 <= spec_interleave(lng, lat, n) < pow4l(n),
    decreases n,
{
    if n > 0 {
        lemma_interleave_bound(lng / 2, lat / 2, (n - 1) as nat);
    }
}

/// `n` even bits spell a number below `2^n`.
pub proof fn lemma_even_bits_bound(m: int, n: nat)
    requires
        m >= 0,
    ensures
        0 <= spec_even_bits(m, n) < pow2l(n),
    decreases n,
{
    if n > 0 {
        lemma_even_bits_bound(m / 4, (n - 1) as nat);
    }
}

/// Splitting a number mod a power of two into its low bit and the rest.
proof fn lemma_mod_pow2_split(x: int, n: nat)
    requires
        x >= 0,
        n >= 1,
    ensures
        x % pow2l(n) == x % 2 + 2 * ((x / 2) % pow2l((n - 1) as nat)),
{
    let h = pow2l((n - 1) as nat);
    assert(h >= 1) by {
        lemma_pow2l_pos((n - 1) as nat);
    }
    vstd::arithmetic::div_mod::lemma_mod_breakdown(x, 2, h);
}

/// `pow2l` is positive.
pub proof fn lemma_pow2l_pos(n: nat)
    ensures
        pow2l(n) >= 1,
    decreases n,
{
    if n > 0 {
        lemma_pow2l_pos((n - 1) as nat);
    }
}

/// De-interleaving undoes interleaving: the even bits of a Morton number
/// spell the second input, the even bits of its half spell the first.
pub proof fn lemma_morton_round_trip(lng: int, lat: int, n: nat)
    requires
        lng >= 0,
        lat >= 0,
    ensures
        spec_even_bits(spec_interleave(lng, lat, n), n) == lat % pow2l(n),
        spec_even_bits(spec_interleave(lng, lat, n) / 2, n) == lng % pow2l(n),
    decreases n,
{
    if n == 0 {
        assert(lat % 1 == 0) by (nonlinear_arith)
            requires
                lat >= 0,
        ;
        assert(lng % 1 == 0) by (nonlinear_arith)
            requires
                lng >= 0,
        ;
    } else {
        let b0 = lat % 2;
        let a0 = lng % 2;
        let i1 = spec_interleave(lng / 2, lat / 2, (n - 1) as nat);
        let m = spec_interleave(lng, lat, n);
        lemma_morton_round_trip(lng / 2, lat / 2, (n - 1) as nat);
        lemma_interleave_bound(lng / 2, lat / 2, (n - 1) as nat);
        assert(m == b0 + 2 * a0 + 4 * i1);
        assert(m % 2 == b0 && m / 4 == i1 && m / 2 == a0 + 2 * i1) by (nonlinear_arith)
            requires
                m == b0 + 2 * a0 + 4 * i1,
                0 <= b0 < 2,
                0 <= a0 < 2,
                i1 >= 0,
        ;
        // The even bits of m spell lat.
        assert(spec_even_bits(m, n) == b0 + 2 * spec_even_bits(i1, (n - 1) as nat));
        lemma_mod_pow2_split(lat, n);
        // The even bits of m / 2 spell lng; its quarter is half of i1.
        let md = a0 + 2 * i1;
        assert(md % 2 == a0 && md / 4 == i1 / 2) by (nonlinear_arith)
            requires
                md == a0 + 2 * i1,
                0 <= a0 < 2,
                i1 >= 0,
        ;
        assert(spec_even_bits(md, n) == a0 + 2 * spec_even_bits(i1 / 2, (n - 1) as nat));
        lemma_mod_pow2_split(lng, n);
    }
}

impl Geo {
    /// Builds a position from scaled coordinates: the longitude's bits land
    /// in the odd positions, the latitude's in the even ones.
    pub fn from_scaled(lng: u32, lat: u32) -> (r: Geo)
        ensures
            r.0 as int == spec_interleave(lng as int, lat as int, 32),
    {
        Geo(interleave(lng, lat, 32))
    }

    /// The scaled coordinates back out of a position: longitude first.
    pub fn to_scaled(&self) -> (r: (u32, u32))
        ensures
            r.0 as int == spec_even_bits(self.0 as int / 2, 32),
            r.1 as int == spec_even_bits(self.0 as int, 32),
    {
        let lng = even_bits(self.0 / 2, 32);
        let lat = even_bits(self.0, 32);
        (lng, lat)
    }
}

/// Interleaves the low `n` bits of two numbers.
fn interleave(lng: u32, lat: u32, n: u32) -> (r: u64)
    requires
        n <= 32,
    ensures
        r as int == spec_interleave(lng as int, lat as int, n as nat),
    decreases n,
{
    if n == 0 {
        0
    } else {
        proof {
            lemma_pow_values();
            lemma_interleave_bound(lng as int / 2, lat as int / 2, (n - 1) as nat);
            lemma_pow4l_le((n - 1) as nat, 31);
        }
        let low = (lat % 2) as u64 + 2 * ((lng % 2) as u64);
        low + 4 * interleave(lng / 2, lat / 2, n - 1)
    }
}

/// Reads the even bits of `m`, `n` of them.
fn even_bits(m: u64, n: u32) -> (r: u32)
    requires
        n <= 32,
    ensures
        r as int == spec_even_bits(m as int, n as nat),
    decreases n,
{
    if n == 0 {
        0
    } else {
        proof {
            lemma_pow_values();
            lemma_even_bits_bound(m as int / 4, (n - 1) as nat);
            lemma_pow2l_le((n - 1) as nat, 31);
        }
        (m % 2) as u32 + 2 * even_bits(m / 4, n - 1)
    }
}

/// `pow4l` is monotone in its exponent.
pub proof fn lemma_pow4l_le(a: nat, b: nat)
    requires
        a <= b,
    ensures
        1 <= pow4l(a) <= pow4l(b),
    decreases b,
{
    if b > 0 {
        if a == b {
            lemma_pow4l_le((a - 1) as nat, (b - 1) as nat);
        } else {
            lemma_pow4l_le(a, (b - 1) as nat);
        }
    }
}

/// `pow2l` is monotone in its exponent.
pub proof fn lemma_pow2l_le(a: nat, b: nat)
    requires
        a <= b,
    ensures
        1 <= pow2l(a) <= pow2l(b),
    decreases b,
{
    if b > 0 {
        if a == b {
            lemma_pow2l_le((a - 1) as nat, (b - 1) as nat);
        } else {
            lemma_pow2l_le(a, (b - 1) as nat);
        }
    }
}

/// An opaque node reference.
#[derive(Debug, Clone, Copy, PartialEq, Eq, PartialOrd, Ord, Hash, Structural)]
pub struct Node(pub u64);

impl Node {
    pub fn new(value: u64) -> (r: Node)
        ensures
            r.0 == value,
    {
        Node(value)
    }
}

/// An opaque time-indexed node reference.
#[derive(Debug, Clone, Copy, PartialEq, Eq, PartialOrd, Ord, Hash, Structural)]
pub struct NodeTime(pub u64);

impl NodeTime {
    pub fn new(value: u64) -> (r: NodeTime)
        ensures
            r.0 == value,
    {
        NodeTime(value)
    }
}

/// An opaque index node reference.
#[derive(Debug, Clone, Copy, PartialEq, Eq, PartialOrd, Ord, Hash, Structural)]
pub struct NodeIndex(pub u64);

impl NodeIndex {
    pub fn new(value: u64) -> (r: NodeIndex)
        ensures
            r.0 == value,
    {
        NodeIndex(value)
    }
}

/// An opaque list node reference.
#[derive(Debug, Clone, Copy, PartialEq, Eq, PartialOrd, Ord, Hash, Structural)]
pub struct NodeList(pub u64);

impl NodeList {
    pub fn new(value: u64) -> (r: NodeList)
        ensures
            r.0 == value,
    {
        NodeList(value)
    }
}

/// An opaque geo-indexed node reference.
#[derive(Debug, Clone, Copy, PartialEq, Eq, PartialOrd, Ord, Hash, Structural)]
pub struct NodeGeo(pub u64);

impl NodeGeo {
    pub fn new(value: u64) -> (r: NodeGeo)
        ensures
            r.0 == value,
    {
        NodeGeo(value)
    }
}

} // verus!
