//! The TVC tick format: records, sizes and little-endian fields.

use vstd::prelude::*;

verus! {

/// Bytes in front of the first tick.
pub const HEADER_SIZE: usize = 128;

/// Bytes of a full (anchor) tick.
pub const ANCHOR_TICK_SIZE: usize = 30;

/// Bytes of one anchor index entry.
pub const INDEX_ENTRY_SIZE: usize = 16;

/// Bytes of a delta tick whose first byte is not the overflow mark.
pub const BASE_DELTA_SIZE: usize = 8;

/// Bytes of a delta tick that starts with the overflow mark.
pub const OVERFLOW_DELTA_SIZE: usize = 14;

/// First byte of an overflow delta.
pub const OVERFLOW_MARK: u8 = 0xFF;

/// One trade.
#[derive(Debug, Clone, Copy, PartialEq, Eq, Structural)]
pub struct TradeTick {
    pub timestamp_ns: u64,
    pub price_int: i64,
    pub size_int: i64,
    pub side: u8,
    pub flags: u8,
    pub sequence: u32,
}

/// Where in the file the full tick of a tick index stands.
#[derive(Debug, Clone, Copy, PartialEq, Eq, Structural)]
pub struct AnchorIndexEntry {
    pub tick_index: u64,
    pub byte_offset: u64,
}

/// The fields of the file header.
#[derive(Debug, Clone, Copy, PartialEq, Eq)]
pub struct TvcHeader {
    pub magic: [u8; 4],
    pub version: u32,
    pub instrument_id: u32,
    pub decimal_precision: u8,
    pub anchor_interval: u32,
    pub num_ticks: u64,
    pub num_anchors: u32,
    pub start_time_ns: u64,
    pub end_time_ns: u64,
    pub index_offset: u64,
}

/// The 32-bit little-endian number at `at`.
pub open spec fn le32(s: Seq<u8>, at: int) -> nat {
    (s[at] + s[at + 1] * 0x100 + s[at + 2] * 0x1_0000 + s[at + 3] * 0x100_0000) as nat
}

/// The 64-bit little-endian number at `at`.
pub open spec fn le64(s: Seq<u8>, at: int) -> nat {
    le32(s, at) + le32(s, at + 4) * 0x1_0000_0000
}

/// The two's complement reading of an unsigned number of which `half` is the top bit.
pub open spec fn signed(n: nat, half: nat) -> int {
    if n >= half {
        n - 2 * half
    } else {
        n as int
    }
}

/// Zigzag: even numbers are halved, odd ones are the negatives `-1, -2, ..`.
pub open spec fn zigzag(v: int) -> int {
    if v % 2 == 0 {
        v / 2
    } else {
        -(v + 1) / 2
    }
}

/// Reads the 32-bit little-endian number at `at`.
pub fn read_u32(s: &Vec<u8>, at: usize) -> (n: u32)
    requires
        at + 4 <= s.len(),
    ensures
        n == le32(s@, at as int),
{
    s[at] as u32 + s[at + 1] as u32 * 0x100 + s[at + 2] as u32 * 0x1_0000 + s[at + 3] as u32
        * 0x100_0000
}

/// Reads the 64-bit little-endian number at `at`.
pub fn read_u64(s: &Vec<u8>, at: usize) -> (n: u64)
    requires
        at + 8 <= s.len(),
    ensures
        n == le64(s@, at as int),
{
    read_u32(s, at) as u64 + read_u32(s, at + 4) as u64 * 0x1_0000_0000
}

/// Reads the 64-bit little-endian two's complement number at `at`.
pub fn read_i64(s: &Vec<u8>, at: usize) -> (n: i64)
    requires
        at + 8 <= s.len(),
    ensures
        n == signed(le64(s@, at as int), 0x8000_0000_0000_0000),
{
    let v: u64 = read_u64(s, at);
    if v < 0x8000_0000_0000_0000 {
        v as i64
    } else {
        -((0xffff_ffff_ffff_ffff - v) as i64) - 1
    }
}

/// Zigzag of a number with few enough bits.
pub fn zigzag_decode(v: i64) -> (d: i64)
    requires
        -0x1_0000_0000 <= v <= 0x1_0000_0000,
    ensures
        d == zigzag(v as int),
        -0x1_0000_0000 <= d <= 0x1_0000_0000,
{
    if v >= 0 {
        if v % 2 == 0 {
            v / 2
        } else {
            -((v + 1) / 2)
        }
    } else {
        let m: i64 = -v;
        if m % 2 == 0 {
            -(m / 2)
        } else {
            (m - 1) / 2
        }
    }
}

/// Numbers are read with their lowest byte first: each byte counts 256 times as much as the one
/// before it.
pub proof fn lowest_byte_comes_first(s: Seq<u8>, at: int)
    requires
        0 <= at,
        at + 8 <= s.len(),
    ensures
        le32(s, at) == s[at] + 256 * (s[at + 1] + 256 * (s[at + 2] + 256 * s[at + 3])),
        le64(s, at) == s[at] + 256 * (s[at + 1] + 256 * (s[at + 2] + 256 * (s[at + 3] + 256 * (s[at
            + 4] + 256 * (s[at + 5] + 256 * (s[at + 6] + 256 * s[at + 7])))))),
        le32(s, at) < 0x1_0000_0000,
        le64(s, at) < 0x1_0000_0000_0000_0000,
{
}

/// A number with a sign differs from the bits that it is read from by a whole turn, and lies within
/// half a turn of 0.
pub proof fn signed_reading_is_within_half_a_turn(n: nat, half: nat)
    requires
        n < 2 * half,
    ensures
        -half <= signed(n, half) < half,
        signed(n, half) == n || signed(n, half) + 2 * half == n,
{
}

/// Zigzag numbers take turns: 0, -1, 1, -2, 2 and so on.
pub proof fn zigzag_takes_turns(k: int)
    requires
        0 <= k,
    ensures
        zigzag(2 * k) == k,
        zigzag(2 * k + 1) == -k - 1,
{
    assert((2 * k) % 2 == 0 && (2 * k + 1) % 2 == 1);
}

} // verus!
