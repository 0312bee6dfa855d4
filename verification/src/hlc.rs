//! Hybrid logical clocks: causally ordered timestamps for replication.
//!
//! A clock value is a triple `(wall_time, logical, node_id)` serialized
//! big-endian into exactly 14 bytes, so that byte-wise lexicographic
//! comparison agrees with the canonical ordering
//! (wall time first, then logical counter, then node id).

use std::time::{SystemTime, UNIX_EPOCH};
use vstd::arithmetic::mul::lemma_mul_inequality;
use vstd::prelude::*;

verus! {

/// A hybrid logical clock value.
///
/// Ordering is canonical: wall time first, then logical counter, then
/// node id. The derived `PartialOrd`/`Ord` compare the fields in exactly
/// that order; verified code reaches the same ordering through
/// [`HybridLogicalClock::lt`] and the spec function [`hlc_lt`].
#[derive(Debug, Clone, Copy, PartialEq, Eq, Structural, PartialOrd, Ord, Hash)]
pub struct HybridLogicalClock {
    /// Wall clock time in milliseconds since the Unix epoch.
    pub wall_time: u64,
    /// Logical counter for events within the same millisecond.
    pub logical: u32,
    /// Node identifier, used as the final tie-breaker.
    pub node_id: u16,
}

/// Canonical strict order on clock values.
pub open spec fn hlc_lt(a: HybridLogicalClock, b: HybridLogicalClock) -> bool {
    ||| a.wall_time < b.wall_time
    ||| (a.wall_time == b.wall_time && a.logical < b.logical)
    ||| (a.wall_time == b.wall_time && a.logical == b.logical && a.node_id < b.node_id)
}

/// Canonical reflexive order on clock values.
pub open spec fn hlc_le(a: HybridLogicalClock, b: HybridLogicalClock) -> bool {
    hlc_lt(a, b) || a == b
}

/// The 14-byte big-endian serialization of a clock value.
pub open spec fn hlc_bytes(h: HybridLogicalClock) -> Seq<u8> {
    seq![
        ((h.wall_time >> 56) & 0xff) as u8,
        ((h.wall_time >> 48) & 0xff) as u8,
        ((h.wall_time >> 40) & 0xff) as u8,
        ((h.wall_time >> 32) & 0xff) as u8,
        ((h.wall_time >> 24) & 0xff) as u8,
        ((h.wall_time >> 16) & 0xff) as u8,
        ((h.wall_time >> 8) & 0xff) as u8,
        (h.wall_time & 0xff) as u8,
        ((h.logical >> 24) & 0xff) as u8,
        ((h.logical >> 16) & 0xff) as u8,
        ((h.logical >> 8) & 0xff) as u8,
        (h.logical & 0xff) as u8,
        ((h.node_id >> 8) & 0xff) as u8,
        (h.node_id & 0xff) as u8,
    ]
}

/// The clock value read back from a 14-byte big-endian serialization.
pub open spec fn hlc_of_bytes(s: Seq<u8>) -> HybridLogicalClock
    recommends
        s.len() == 14,
{
    HybridLogicalClock {
        wall_time: (
            ((s[0] as u64) << 56) | ((s[1] as u64) << 48) | ((s[2] as u64) << 40)
            | ((s[3] as u64) << 32) | ((s[4] as u64) << 24) | ((s[5] as u64) << 16)
            | ((s[6] as u64) << 8) | (s[7] as u64)
        ),
        logical: (
            ((s[8] as u32) << 24) | ((s[9] as u32) << 16) | ((s[10] as u32) << 8) | (s[11] as u32)
        ),
        node_id: (((s[12] as u16) << 8) | (s[13] as u16)),
    }
}

/// Strict lexicographic order on byte sequences, as `[u8]` comparison
/// defines it: the first differing position decides, and a strict prefix
/// is smaller than the longer sequence.
pub open spec fn bytes_lt(a: Seq<u8>, b: Seq<u8>) -> bool
    decreases a.len(),
{
    if b.len() == 0 {
        false
    } else if a.len() == 0 {
        true
    } else if a[0] != b[0] {
        a[0] < b[0]
    } else {
        bytes_lt(a.drop_first(), b.drop_first())
    }
}

/// 256 raised to the given power.
pub open spec fn pow256(n: nat) -> nat
    decreases n,
{
    if n == 0 {
        1
    } else {
        256 * pow256((n - 1) as nat)
    }
}

/// The number a byte sequence denotes in base 256, most significant first.
pub open spec fn be_value(s: Seq<u8>) -> nat
    decreases s.len(),
{
    if s.len() == 0 {
        0
    } else {
        (s[0] as nat) * pow256((s.len() - 1) as nat) + be_value(s.drop_first())
    }
}

proof fn lemma_be_value_bound(s: Seq<u8>)
    ensures
        be_value(s) < pow256(s.len()),
    decreases s.len(),
{
    if s.len() > 0 {
        lemma_be_value_bound(s.drop_first());
        assert((s[0] as nat) * pow256((s.len() - 1) as nat) <= 255 * pow256(
            (s.len() - 1) as nat,
        )) by {
            lemma_mul_inequality(s[0] as int, 255, pow256((s.len() - 1) as nat) as int);
        }
    }
}

proof fn lemma_bytes_lt_iff_value_lt(a: Seq<u8>, b: Seq<u8>)
    requires
        a.len() == b.len(),
    ensures
        bytes_lt(a, b) <==> be_value(a) < be_value(b),
    decreases a.len(),
{
    if a.len() > 0 {
        let p = pow256((a.len() - 1) as nat) as int;
        lemma_be_value_bound(a.drop_first());
        lemma_be_value_bound(b.drop_first());
        if a[0] < b[0] {
            assert((a[0] as int + 1) * p <= b[0] as int * p) by {
                lemma_mul_inequality(a[0] as int + 1, b[0] as int, p);
            }
            assert((a[0] as int + 1) * p == a[0] as int * p + p) by {
                assert((a[0] as int + 1) * p == a[0] as int * p + 1 * p)
                    by (nonlinear_arith);
            }
        } else if b[0] < a[0] {
            assert((b[0] as int + 1) * p <= a[0] as int * p) by {
                lemma_mul_inequality(b[0] as int + 1, a[0] as int, p);
            }
            assert((b[0] as int + 1) * p == b[0] as int * p + p) by {
                assert((b[0] as int + 1) * p == b[0] as int * p + 1 * p)
                    by (nonlinear_arith);
            }
        } else {
            lemma_bytes_lt_iff_value_lt(a.drop_first(), b.drop_first());
        }
    }
}

proof fn lemma_pow256_values()
    ensures
        pow256(0) == 1,
        pow256(1) == 0x100,
        pow256(2) == 0x10000,
        pow256(3) == 0x1000000,
        pow256(4) == 0x100000000,
        pow256(5) == 0x10000000000,
        pow256(6) == 0x1000000000000,
        pow256(7) == 0x100000000000000,
        pow256(8) == 0x10000000000000000,
        pow256(9) == 0x1000000000000000000,
        pow256(10) == 0x100000000000000000000,
        pow256(11) == 0x10000000000000000000000,
        pow256(12) == 0x1000000000000000000000000,
        pow256(13) == 0x100000000000000000000000000,
{
    reveal_with_fuel(pow256, 15);
}

proof fn lemma_be_value_14(s: Seq<u8>)
    requires
        s.len() == 14,
    ensures
        be_value(s) == (s[0] as nat) * pow256(13) + (s[1] as nat) * pow256(12) + (s[2] as nat)
            * pow256(11) + (s[3] as nat) * pow256(10) + (s[4] as nat) * pow256(9) + (
        s[5] as nat) * pow256(8) + (s[6] as nat) * pow256(7) + (s[7] as nat) * pow256(6) + (
        s[8] as nat) * pow256(5) + (s[9] as nat) * pow256(4) + (s[10] as nat) * pow256(3) + (
        s[11] as nat) * pow256(2) + (s[12] as nat) * pow256(1) + (s[13] as nat),
{
    reveal_with_fuel(be_value, 16);
    reveal_with_fuel(pow256, 15);
    let s1 = s.drop_first();
    let s2 = s1.drop_first();
    let s3 = s2.drop_first();
    let s4 = s3.drop_first();
    let s5 = s4.drop_first();
    let s6 = s5.drop_first();
    let s7 = s6.drop_first();
    let s8 = s7.drop_first();
    let s9 = s8.drop_first();
    let s10 = s9.drop_first();
    let s11 = s10.drop_first();
    let s12 = s11.drop_first();
    let s13 = s12.drop_first();
    assert(s1 =~= s.subrange(1, 14));
    assert(s2 =~= s.subrange(2, 14));
    assert(s3 =~= s.subrange(3, 14));
    assert(s4 =~= s.subrange(4, 14));
    assert(s5 =~= s.subrange(5, 14));
    assert(s6 =~= s.subrange(6, 14));
    assert(s7 =~= s.subrange(7, 14));
    assert(s8 =~= s.subrange(8, 14));
    assert(s9 =~= s.subrange(9, 14));
    assert(s10 =~= s.subrange(10, 14));
    assert(s11 =~= s.subrange(11, 14));
    assert(s12 =~= s.subrange(12, 14));
    assert(s13 =~= s.subrange(13, 14));
    assert(be_value(s13) == (s[13] as nat));
    assert(be_value(s12) == (s[12] as nat) * pow256(1) + be_value(s13));
    assert(be_value(s11) == (s[11] as nat) * pow256(2) + be_value(s12));
    assert(be_value(s10) == (s[10] as nat) * pow256(3) + be_value(s11));
    assert(be_value(s9) == (s[9] as nat) * pow256(4) + be_value(s10));
    assert(be_value(s8) == (s[8] as nat) * pow256(5) + be_value(s9));
    assert(be_value(s7) == (s[7] as nat) * pow256(6) + be_value(s8));
    assert(be_value(s6) == (s[6] as nat) * pow256(7) + be_value(s7));
    assert(be_value(s5) == (s[5] as nat) * pow256(8) + be_value(s6));
    assert(be_value(s4) == (s[4] as nat) * pow256(9) + be_value(s5));
    assert(be_value(s3) == (s[3] as nat) * pow256(10) + be_value(s4));
    assert(be_value(s2) == (s[2] as nat) * pow256(11) + be_value(s3));
    assert(be_value(s1) == (s[1] as nat) * pow256(12) + be_value(s2));
    assert(be_value(s) == (s[0] as nat) * pow256(13) + be_value(s1));
}

/// The serialized bytes of a clock denote the number
/// `wall_time * 2^48 + logical * 2^16 + node_id`.
proof fn lemma_hlc_bytes_value(h: HybridLogicalClock)
    ensures
        be_value(hlc_bytes(h)) == (h.wall_time as nat) * 0x1000000000000 + (
        h.logical as nat) * 0x10000 + (h.node_id as nat),
{
    let s = hlc_bytes(h);
    lemma_pow256_values();
    lemma_be_value_14(s);
    let w = h.wall_time;
    let l = h.logical;
    let n = h.node_id;
    assert((w >> 56) & 0xff < 256 && (w >> 48) & 0xff < 256 && (w >> 40) & 0xff < 256 && (w
        >> 32) & 0xff < 256 && (w >> 24) & 0xff < 256 && (w >> 16) & 0xff < 256 && (w >> 8)
        & 0xff < 256 && w & 0xff < 256) by (bit_vector);
    assert((l >> 24) & 0xff < 256 && (l >> 16) & 0xff < 256 && (l >> 8) & 0xff < 256 && l & 0xff
        < 256) by (bit_vector);
    assert((n >> 8) & 0xff < 256 && n & 0xff < 256) by (bit_vector);
    assert(((w >> 56) & 0xff) * 0x100000000000000 + ((w >> 48) & 0xff) * 0x1000000000000 + ((w
        >> 40) & 0xff) * 0x10000000000 + ((w >> 32) & 0xff) * 0x100000000 + ((w >> 24) & 0xff)
        * 0x1000000 + ((w >> 16) & 0xff) * 0x10000 + ((w >> 8) & 0xff) * 0x100 + (w & 0xff)
        == w) by (bit_vector);
    assert(((l >> 24) & 0xff) * 0x1000000 + ((l >> 16) & 0xff) * 0x10000 + ((l >> 8) & 0xff)
        * 0x100 + (l & 0xff) == l) by (bit_vector);
    assert(((n >> 8) & 0xff) * 0x100 + (n & 0xff) == n) by (bit_vector);
}

/// The byte encoding orders exactly as the canonical clock order:
/// `hlc_bytes(a)` is lexicographically below `hlc_bytes(b)` if and only
/// if `a` is canonically below `b`.
pub proof fn lemma_hlc_bytes_order(a: HybridLogicalClock, b: HybridLogicalClock)
    ensures
        bytes_lt(hlc_bytes(a), hlc_bytes(b)) <==> hlc_lt(a, b),
{
    lemma_bytes_lt_iff_value_lt(hlc_bytes(a), hlc_bytes(b));
    lemma_hlc_bytes_value(a);
    lemma_hlc_bytes_value(b);
}

/// Serialization loses nothing: reading the 14 bytes back yields the
/// original clock value.
pub proof fn lemma_hlc_bytes_roundtrip(h: HybridLogicalClock)
    ensures
        hlc_of_bytes(hlc_bytes(h)) == h,
{
    let w = h.wall_time;
    let l = h.logical;
    let n = h.node_id;
    assert(((((w >> 56) & 0xff) as u8 as u64) << 56) | ((((w >> 48) & 0xff) as u8 as u64) << 48)
        | ((((w >> 40) & 0xff) as u8 as u64) << 40) | ((((w >> 32) & 0xff) as u8 as u64) << 32)
        | ((((w >> 24) & 0xff) as u8 as u64) << 24) | ((((w >> 16) & 0xff) as u8 as u64) << 16)
        | ((((w >> 8) & 0xff) as u8 as u64) << 8) | ((w & 0xff) as u8 as u64) == w)
        by (bit_vector);
    assert(((((l >> 24) & 0xff) as u8 as u32) << 24) | ((((l >> 16) & 0xff) as u8 as u32) << 16)
        | ((((l >> 8) & 0xff) as u8 as u32) << 8) | ((l & 0xff) as u8 as u32) == l)
        by (bit_vector);
    assert(((((n >> 8) & 0xff) as u8 as u16) << 8) | ((n & 0xff) as u8 as u16) == n)
        by (bit_vector);
}

/// Milliseconds since the Unix epoch, from the system clock.
///
/// Relies on `std::time::SystemTime::now`; a clock before the epoch is
/// reported as zero rather than failing. Nothing can be promised of the
/// value returned.
#[verifier::external_body]
pub fn wall_clock_ms() -> u64 {
    SystemTime::now().duration_since(UNIX_EPOCH).map(|d| d.as_millis() as u64).unwrap_or(0)
}

/// One lowercase hexadecimal digit.
pub open spec fn hex_digit_char(n: u8) -> char
    recommends
        n < 16,
{
    if n < 10 {
        (('0' as u8) + n) as char
    } else {
        (('a' as u8) + (n - 10)) as char
    }
}

/// The lowercase hexadecimal rendering of a byte sequence, two digits per
/// byte, high nibble first.
pub open spec fn hex_of(bytes: Seq<u8>) -> Seq<char> {
    Seq::new(
        bytes.len() * 2,
        |i: int|
            if i % 2 == 0 {
                hex_digit_char(bytes[i / 2] >> 4)
            } else {
                hex_digit_char(bytes[i / 2] & 0xf)
            },
    )
}

/// Whether a character is a hexadecimal digit in either case.
pub open spec fn is_hex_digit(c: char) -> bool {
    ('0' <= c && c <= '9') || ('a' <= c && c <= 'f') || ('A' <= c && c <= 'F')
}

/// The value of one hexadecimal digit character.
pub open spec fn hex_digit_val(c: char) -> u8
    recommends
        is_hex_digit(c),
{
    if '0' <= c && c <= '9' {
        ((c as u32) - ('0' as u32)) as u8
    } else if 'a' <= c && c <= 'f' {
        (((c as u32) - ('a' as u32)) + 10) as u8
    } else {
        (((c as u32) - ('A' as u32)) + 10) as u8
    }
}

/// Relies on `hex::encode`: renders each byte as two lowercase digits,
/// high nibble first.
#[verifier::external_body]
pub fn hex_encode(bytes: &[u8]) -> (r: String)
    ensures
        r@ == hex_of(bytes@),
{
    hex::encode(bytes)
}

/// Relies on `hex::decode`: succeeds exactly on an even number of
/// hexadecimal digits of either case, pairing digits high nibble first.
#[verifier::external_body]
pub fn hex_decode(s: &str) -> (r: Option<Vec<u8>>)
    ensures
        r is Some <==> (s@.len() % 2 == 0 && forall|i: int|
            0 <= i < s@.len() ==> is_hex_digit(s@[i])),
        r matches Some(v) ==> v@.len() == s@.len() / 2 && forall|i: int|
            0 <= i < v@.len() ==> v@[i] == hex_digit_val(s@[2 * i]) * 16 + hex_digit_val(
                s@[2 * i + 1],
            ),
{
    hex::decode(s).ok()
}

impl HybridLogicalClock {
    /// Create a clock at the current wall time with logical counter zero.
    pub fn new(node_id: u16) -> (r: Self)
        ensures
            r.logical == 0,
            r.node_id == node_id,
    {
        let wall_time = wall_clock_ms();
        Self { wall_time, logical: 0, node_id }
    }

    /// Create a clock from raw components.
    pub fn from_parts(wall_time: u64, logical: u32, node_id: u16) -> (r: Self)
        ensures
            r == (HybridLogicalClock { wall_time, logical, node_id }),
    {
        Self { wall_time, logical, node_id }
    }

    /// The minimum clock value.
    pub fn zero() -> (r: Self)
        ensures
            r == (HybridLogicalClock { wall_time: 0u64, logical: 0u32, node_id: 0u16 }),
    {
        Self { wall_time: 0, logical: 0, node_id: 0 }
    }

    /// Compare two clocks in the canonical order.
    pub fn lt(&self, other: &Self) -> (r: bool)
        ensures
            r == hlc_lt(*self, *other),
    {
        if self.wall_time != other.wall_time {
            self.wall_time < other.wall_time
        } else if self.logical != other.logical {
            self.logical < other.logical
        } else {
            self.node_id < other.node_id
        }
    }

    /// Advance the clock for a local event.
    ///
    /// The result is strictly greater than the receiver and keeps its
    /// node id: either the wall clock moved forward and the counter
    /// resets, or the counter increments at the same wall time.
    pub fn tick(&self) -> (r: Self)
        requires
            self.logical < u32::MAX,
        ensures
            hlc_lt(*self, r),
            r.node_id == self.node_id,
            r.wall_time >= self.wall_time,
            r.logical == 0 || (r.wall_time == self.wall_time && r.logical == self.logical + 1),
    {
        let now = wall_clock_ms();
        if now > self.wall_time {
            Self { wall_time: now, logical: 0, node_id: self.node_id }
        } else {
            Self { wall_time: self.wall_time, logical: self.logical + 1, node_id: self.node_id }
        }
    }

    /// Merge with a clock received from another node.
    ///
    /// The result is strictly greater than both inputs and keeps the
    /// local node id. The wall time is the largest of the two inputs and
    /// the current wall clock; the logical counter continues past
    /// whichever inputs share that wall time, or resets when the wall
    /// clock alone is ahead.
    pub fn merge(&self, other: &Self) -> (r: Self)
        requires
            self.wall_time >= other.wall_time ==> self.logical < u32::MAX,
            other.wall_time >= self.wall_time ==> other.logical < u32::MAX,
        ensures
            hlc_lt(*self, r),
            hlc_lt(*other, r),
            r.node_id == self.node_id,
            r.wall_time >= self.wall_time && r.wall_time >= other.wall_time,
    {
        let now = wall_clock_ms();
        let mut max_wall = now;
        if self.wall_time > max_wall {
            max_wall = self.wall_time;
        }
        if other.wall_time > max_wall {
            max_wall = other.wall_time;
        }
        let logical: u32 = if max_wall == self.wall_time && max_wall == other.wall_time {
            if self.logical > other.logical {
                self.logical + 1
            } else {
                other.logical + 1
            }
        } else if max_wall == self.wall_time {
            self.logical + 1
        } else if max_wall == other.wall_time {
            other.logical + 1
        } else {
            0
        };
        Self { wall_time: max_wall, logical, node_id: self.node_id }
    }

    /// Serialize to 14 big-endian bytes; lexicographic comparison of the
    /// result agrees with the canonical clock order.
    pub fn to_bytes(&self) -> (r: Vec<u8>)
        ensures
            r@ == hlc_bytes(*self),
    {
        let mut buf: Vec<u8> = Vec::new();
        buf.push(((self.wall_time >> 56) & 0xff) as u8);
        buf.push(((self.wall_time >> 48) & 0xff) as u8);
        buf.push(((self.wall_time >> 40) & 0xff) as u8);
        buf.push(((self.wall_time >> 32) & 0xff) as u8);
        buf.push(((self.wall_time >> 24) & 0xff) as u8);
        buf.push(((self.wall_time >> 16) & 0xff) as u8);
        buf.push(((self.wall_time >> 8) & 0xff) as u8);
        buf.push((self.wall_time & 0xff) as u8);
        buf.push(((self.logical >> 24) & 0xff) as u8);
        buf.push(((self.logical >> 16) & 0xff) as u8);
        buf.push(((self.logical >> 8) & 0xff) as u8);
        buf.push((self.logical & 0xff) as u8);
        buf.push(((self.node_id >> 8) & 0xff) as u8);
        buf.push((self.node_id & 0xff) as u8);
        proof {
            assert(buf@ =~= hlc_bytes(*self));
        }
        buf
    }

    /// Parse from 14 big-endian bytes; any other length is rejected.
    pub fn from_bytes(bytes: &[u8]) -> (r: Option<Self>)
        ensures
            r matches Some(h) ==> bytes@.len() == 14 && h == hlc_of_bytes(bytes@),
            r is None <==> bytes@.len() != 14,
    {
        if bytes.len() != 14 {
            return None;
        }
        let wall_time = ((bytes[0] as u64) << 56) | ((bytes[1] as u64) << 48) | ((bytes[2] as u64)
            << 40) | ((bytes[3] as u64) << 32) | ((bytes[4] as u64) << 24) | ((bytes[5] as u64)
            << 16) | ((bytes[6] as u64) << 8) | (bytes[7] as u64);
        let logical = ((bytes[8] as u32) << 24) | ((bytes[9] as u32) << 16) | ((bytes[10] as u32)
            << 8) | (bytes[11] as u32);
        let node_id = ((bytes[12] as u16) << 8) | (bytes[13] as u16);
        Some(Self { wall_time, logical, node_id })
    }

    /// Render as a 28-character lowercase hexadecimal string.
    pub fn to_hex(&self) -> (r: String)
        ensures
            r@ == hex_of(hlc_bytes(*self)),
    {
        let bytes = self.to_bytes();
        hex_encode(bytes.as_slice())
    }

    /// Parse from a hexadecimal string as produced by `to_hex`: exactly
    /// 28 hexadecimal digits of either case, read back as the 14-byte
    /// big-endian encoding.
    pub fn from_hex(s: &str) -> (r: Option<Self>)
        ensures
            r is Some <==> (s@.len() == 28 && forall|i: int|
                0 <= i < s@.len() ==> is_hex_digit(#[trigger] s@[i])),
            r matches Some(h) ==> h == hlc_of_bytes(
                Seq::new(
                    14,
                    |i: int| (hex_digit_val(s@[2 * i]) * 16 + hex_digit_val(s@[2 * i + 1])) as u8,
                ),
            ),
    {
        match hex_decode(s) {
            Some(bytes) => {
                let r = Self::from_bytes(bytes.as_slice());
                proof {
                    if bytes@.len() == 14 {
                        assert forall|i: int| 0 <= i < 14 implies bytes@[i] == (hex_digit_val(
                            s@[2 * i],
                        ) * 16 + hex_digit_val(s@[2 * i + 1])) as u8 by {
                            assert(is_hex_digit(s@[2 * i]) && is_hex_digit(s@[2 * i + 1]));
                            assert(hex_digit_val(s@[2 * i]) < 16 && hex_digit_val(s@[2 * i + 1])
                                < 16);
                        }
                        assert(bytes@ =~= Seq::new(
                            14,
                            |i: int| (hex_digit_val(s@[2 * i]) * 16 + hex_digit_val(
                                s@[2 * i + 1],
                            )) as u8,
                        ));
                    }
                }
                r
            },
            None => None,
        }
    }
}

} // verus!
