//! RingBuffer: random access into one TVC tick stream.
//!
//! - `RingBuffer` holds the bytes of a file with its header and anchor index
//! - `RingIter` walks the stream, full ticks at the anchors and deltas between them
//!
//! The stream is a run of groups. The first tick of each group is stored in full at the byte
//! offset that the anchor index gives, every other tick as the change to the tick before it.

use crate::buffer::tvc;
use crate::buffer::tvc::{
    read_i64, read_u32, read_u64, zigzag_decode, AnchorIndexEntry, TradeTick, TvcHeader,
    ANCHOR_TICK_SIZE, BASE_DELTA_SIZE, HEADER_SIZE, INDEX_ENTRY_SIZE, OVERFLOW_DELTA_SIZE,
    OVERFLOW_MARK,
};
use crate::instrument::InstrumentId;
use vstd::prelude::*;

verus! {

/// Errors of `RingBuffer` operations.
#[derive(Debug)]
pub enum RingBufferError {
    Io(String),
    InvalidHeader(String),
    TickNotFound(u64),
    NoAnchors,
    SeekFailed(String),
}

/// What a `RingBufferError` says.
pub enum Fault {
    Io(Seq<char>),
    InvalidHeader(Seq<char>),
    TickNotFound(u64),
    NoAnchors,
    SeekFailed(Seq<char>),
}

impl View for RingBufferError {
    type V = Fault;

    open spec fn view(&self) -> Fault {
        match self {
            RingBufferError::Io(s) => Fault::Io(s@),
            RingBufferError::InvalidHeader(s) => Fault::InvalidHeader(s@),
            RingBufferError::TickNotFound(t) => Fault::TickNotFound(*t),
            RingBufferError::NoAnchors => Fault::NoAnchors,
            RingBufferError::SeekFailed(s) => Fault::SeekFailed(s@),
        }
    }
}

impl Fault {
    /// The message of an error.
    pub open spec fn message(self) -> Seq<char> {
        match self {
            Fault::Io(s) => "IO error: "@ + s,
            Fault::InvalidHeader(s) => "Invalid header: "@ + s,
            Fault::TickNotFound(t) => "Tick "@ + crate::text::decimal(t as nat) + " not found"@,
            Fault::NoAnchors => "No anchors in file"@,
            Fault::SeekFailed(s) => "Seek failed: "@ + s,
        }
    }
}

impl RingBufferError {
    /// The message of the error.
    pub fn message(&self) -> (s: String)
        ensures
            s@ == self@.message(),
    {
        match self {
            RingBufferError::Io(e) => "IO error: ".to_owned().concat(e.as_str()),
            RingBufferError::InvalidHeader(e) => "Invalid header: ".to_owned().concat(e.as_str()),
            RingBufferError::TickNotFound(t) => "Tick ".to_owned().concat(
                crate::text::decimal_text(*t).as_str(),
            ).concat(" not found"),
            RingBufferError::NoAnchors => "No anchors in file".to_owned(),
            RingBufferError::SeekFailed(e) => "Seek failed: ".to_owned().concat(e.as_str()),
        }
    }
}

/// The position behind the last key that a binary search over `lo..hi` takes for `<= t`.
pub open spec fn bisect(keys: Seq<u64>, t: u64, lo: int, hi: int) -> int
    decreases hi - lo,
{
    if lo >= hi {
        lo
    } else {
        let mid = lo + (hi - lo) / 2;
        if keys[mid] <= t {
            bisect(keys, t, mid + 1, hi)
        } else {
            bisect(keys, t, lo, mid)
        }
    }
}

/// The binary search ends between a key that is `<= t` and one that is not.
pub proof fn bisect_is_boundary(keys: Seq<u64>, t: u64, lo: int, hi: int)
    requires
        0 <= lo <= hi <= keys.len(),
    ensures
        lo <= bisect(keys, t, lo, hi) <= hi,
        lo < bisect(keys, t, lo, hi) ==> keys[bisect(keys, t, lo, hi) - 1] <= t,
        bisect(keys, t, lo, hi) < hi ==> keys[bisect(keys, t, lo, hi)] > t,
    decreases hi - lo,
{
    if lo < hi {
        let mid = lo + (hi - lo) / 2;
        if keys[mid] <= t {
            bisect_is_boundary(keys, t, mid + 1, hi);
        } else {
            bisect_is_boundary(keys, t, lo, mid);
        }
    }
}

/// On keys in ascending order the binary search parts the keys `<= t` from the others.
pub proof fn bisect_splits_sorted(keys: Seq<u64>, t: u64)
    requires
        forall|i: int, j: int| 0 <= i <= j < keys.len() ==> keys[i] <= keys[j],
    ensures
        forall|i: int|
            0 <= i < keys.len() ==> (i < bisect(keys, t, 0, keys.len() as int) <==> keys[i] <= t),
{
    bisect_is_boundary(keys, t, 0, keys.len() as int);
}

/// The tick indices of an anchor index.
pub open spec fn tick_keys(index: Seq<AnchorIndexEntry>) -> Seq<u64> {
    Seq::new(index.len(), |i: int| index[i].tick_index)
}

/// What a delta tick changes.
pub struct DeltaChange {
    /// Nanoseconds.
    pub time: int,
    /// The time is added modulo 2^64.
    pub wraps: bool,
    pub price: int,
    pub size: int,
    pub side: u8,
    pub flags: u8,
    /// Bytes that the delta takes.
    pub len: int,
}

/// A place in the stream: the next tick is number `index`, its bytes start at `offset`, `last` is
/// the tick before it and `slot` the anchor that was read last.
pub struct StreamPos {
    pub offset: int,
    pub index: int,
    pub last: TradeTick,
    pub slot: int,
}

/// A TVC file: bytes, header and anchor index.
pub struct RingView {
    pub data: Seq<u8>,
    pub header: TvcHeader,
    pub index: Seq<AnchorIndexEntry>,
    pub interval: u32,
}

/// The entries that stand in the bytes from `start`.
pub open spec fn index_entries(data: Seq<u8>, start: int, n: nat) -> Seq<AnchorIndexEntry> {
    Seq::new(
        n,
        |i: int|
            AnchorIndexEntry {
                tick_index: tvc::le64(data, start + i * 16) as u64,
                byte_offset: tvc::le64(data, start + i * 16 + 8) as u64,
            },
    )
}

/// Why a file with this header is refused.
pub open spec fn open_fault(data: Seq<u8>, header: TvcHeader) -> Option<Fault> {
    if data.len() < 128 {
        Some(Fault::InvalidHeader("File too small"@))
    } else if header.magic@ != seq![0x54u8, 0x56u8, 0x43u8, 0x33u8] {
        Some(Fault::InvalidHeader("Invalid TVC magic"@))
    } else if header.version != 2 {
        Some(Fault::InvalidHeader("Unsupported version"@))
    } else if header.index_offset == 0 || header.index_offset > data.len() {
        Some(Fault::InvalidHeader("Invalid index offset"@))
    } else if header.index_offset + 4 > data.len() {
        Some(Fault::InvalidHeader("Index offset too close to end of file"@))
    } else if tvc::le32(data, header.index_offset as int) == 0 {
        Some(Fault::NoAnchors)
    } else if header.index_offset + 4 + tvc::le32(data, header.index_offset as int) * 16
        > data.len() {
        Some(Fault::InvalidHeader("Index extends beyond file"@))
    } else {
        None
    }
}

impl RingView {
    /// The file is an accepted one and its index is the one that stands in it.
    pub open spec fn wf(self) -> bool {
        &&& open_fault(self.data, self.header) is None
        &&& self.index == index_entries(
            self.data,
            self.header.index_offset + 4,
            tvc::le32(self.data, self.header.index_offset as int),
        )
        &&& self.interval == self.header.anchor_interval
        &&& self.data.len() <= usize::MAX
    }

    /// The full tick that stands at a byte offset.
    pub open spec fn anchor_at(self, off: int) -> Option<TradeTick> {
        if 0 <= off && off + 30 <= self.data.len() {
            Some(
                TradeTick {
                    timestamp_ns: tvc::le64(self.data, off) as u64,
                    price_int: tvc::signed(
                        tvc::le64(self.data, off + 8),
                        0x8000_0000_0000_0000,
                    ) as i64,
                    size_int: tvc::signed(
                        tvc::le64(self.data, off + 16),
                        0x8000_0000_0000_0000,
                    ) as i64,
                    side: self.data[off + 24],
                    flags: self.data[off + 25],
                    sequence: tvc::le32(self.data, off + 26) as u32,
                },
            )
        } else {
            None
        }
    }

    /// Why no delta tick can be read at a byte offset.
    pub open spec fn delta_fault(self, off: int) -> Option<Fault> {
        if off >= self.header.index_offset {
            Some(Fault::SeekFailed("Beyond tick data"@))
        } else if off >= self.data.len() {
            Some(Fault::SeekFailed("Beyond file bounds"@))
        } else if self.data[off] == 0xFF {
            if off + 14 > self.data.len() {
                Some(Fault::SeekFailed("Overflow delta beyond bounds"@))
            } else {
                None
            }
        } else if off + 8 > self.data.len() {
            Some(Fault::SeekFailed("Base delta beyond bounds"@))
        } else {
            None
        }
    }

    /// The change that stands at a byte offset.
    ///
    /// Base layout, 64 bits: 17 bits of microseconds, 18 of price, 27 of size, one of side and
    /// one of flags, the lowest first. Overflow layout: the mark, 32 bits each of microseconds,
    /// price and size, and a byte with the side in its lowest bit and the flags above it.
    pub open spec fn delta_change(self, off: int) -> DeltaChange {
        if self.data[off] == 0xFF {
            DeltaChange {
                time: tvc::zigzag(tvc::le32(self.data, off + 1) as int) * 1000,
                wraps: true,
                price: tvc::zigzag(tvc::signed(tvc::le32(self.data, off + 5), 0x8000_0000)),
                size: tvc::zigzag(tvc::signed(tvc::le32(self.data, off + 9), 0x8000_0000)),
                side: self.data[off + 13] % 2,
                flags: self.data[off + 13] / 2,
                len: 14,
            }
        } else {
            let packed = tvc::le64(self.data, off);
            DeltaChange {
                time: (packed % 0x2_0000) * 1000 as int,
                wraps: false,
                price: tvc::zigzag(tvc::signed((packed / 0x2_0000) % 0x4_0000, 0x2_0000)),
                size: tvc::zigzag(tvc::signed((packed / 0x8_0000_0000) % 0x800_0000, 0x400_0000)),
                side: ((packed / 0x4000_0000_0000_0000) % 2) as u8,
                flags: ((packed / 0x8000_0000_0000_0000) % 2) as u8,
                len: 8,
            }
        }
    }

    /// The tick that the delta at `off` makes of `prev` has fields in their ranges.
    pub open spec fn delta_fits(self, off: int, prev: TradeTick) -> bool {
        self.delta_fault(off) is None ==> {
            let d = self.delta_change(off);
            &&& i64::MIN <= prev.price_int + d.price <= i64::MAX
            &&& i64::MIN <= prev.size_int + d.size <= i64::MAX
            &&& prev.sequence < u32::MAX
            &&& d.wraps || prev.timestamp_ns + d.time <= u64::MAX
        }
    }

    /// The tick that the delta at `off` makes of `prev`, and the bytes it takes.
    pub open spec fn delta_at(self, off: int, prev: TradeTick) -> Option<(TradeTick, int)> {
        if self.delta_fault(off) is Some {
            None
        } else {
            let d = self.delta_change(off);
            Some(
                (
                    TradeTick {
                        timestamp_ns: ((prev.timestamp_ns + d.time) % 0x1_0000_0000_0000_0000) as u64,
                        price_int: (prev.price_int + d.price) as i64,
                        size_int: (prev.size_int + d.size) as i64,
                        side: d.side,
                        flags: d.flags,
                        sequence: (prev.sequence + 1) as u32,
                    },
                    d.len,
                ),
            )
        }
    }
}

/// The bytes of a TVC file with its header and anchor index.
#[derive(Debug)]
pub struct RingBuffer {
    data: Vec<u8>,
    header: TvcHeader,
    anchor_index: Vec<AnchorIndexEntry>,
    instrument_id: InstrumentId,
    anchor_interval: u32,
}

impl View for RingBuffer {
    type V = RingView;

    closed spec fn view(&self) -> RingView {
        RingView {
            data: self.data@,
            header: self.header,
            index: self.anchor_index@,
            interval: self.anchor_interval,
        }
    }
}

impl RingBuffer {
    /// The instrument of the file.
    pub closed spec fn id(self) -> InstrumentId {
        self.instrument_id
    }

    /// The file is an accepted one and its index is the one that stands in it.
    pub open spec fn wf(self) -> bool {
        self@.wf()
    }

    fn check_header(data: &Vec<u8>, header: &TvcHeader) -> (r: Result<(), RingBufferError>)
        requires
            data@.len() >= 128,
        ensures
            match r {
                Ok(_) => header.magic@ == seq![0x54u8, 0x56u8, 0x43u8, 0x33u8] && header.version
                    == 2,
                Err(e) => Some(e@) == open_fault(data@, *header) && (header.magic@ != seq![
                    0x54u8,
                    0x56u8,
                    0x43u8,
                    0x33u8,
                ] || header.version != 2),
            },
    {
        let m = &header.magic;
        if !(m[0] == 0x54 && m[1] == 0x56 && m[2] == 0x43 && m[3] == 0x33) {
            assert(header.magic@ != seq![0x54u8, 0x56u8, 0x43u8, 0x33u8]);
            return Err(RingBufferError::InvalidHeader("Invalid TVC magic".to_owned()));
        }
        assert(header.magic@ =~= seq![0x54u8, 0x56u8, 0x43u8, 0x33u8]);
        if header.version != 2 {
            return Err(RingBufferError::InvalidHeader("Unsupported version".to_owned()));
        }
        Ok(())
    }

    /// Reads the anchor index that the header points to.
    fn build_anchor_index(data: &Vec<u8>, header: &TvcHeader) -> (r: Result<
        Vec<AnchorIndexEntry>,
        RingBufferError,
    >)
        requires
            data@.len() >= 128,
            header.magic@ == seq![0x54u8, 0x56u8, 0x43u8, 0x33u8],
            header.version == 2,
        ensures
            match r {
                Ok(v) => open_fault(data@, *header) is None && v@ == index_entries(
                    data@,
                    header.index_offset + 4,
                    tvc::le32(data@, header.index_offset as int),
                ),
                Err(e) => Some(e@) == open_fault(data@, *header),
            },
    {
        let len: usize = data.len();
        if header.index_offset == 0 || header.index_offset > len as u64 {
            return Err(RingBufferError::InvalidHeader("Invalid index offset".to_owned()));
        }
        let index_offset: usize = header.index_offset as usize;
        if len - index_offset < 4 {
            return Err(
                RingBufferError::InvalidHeader("Index offset too close to end of file".to_owned()),
            );
        }
        let num_anchors: u32 = read_u32(data, index_offset);
        if num_anchors == 0 {
            return Err(RingBufferError::NoAnchors);
        }
        let start: usize = index_offset + 4;
        if ((len - start) as u64) < num_anchors as u64 * 16 {
            return Err(RingBufferError::InvalidHeader("Index extends beyond file".to_owned()));
        }
        let n: usize = num_anchors as usize;
        let mut anchors: Vec<AnchorIndexEntry> = Vec::new();
        let mut i: usize = 0;
        while i < n
            invariant
                i <= n,
                start + n * 16 <= data@.len(),
                len == data@.len(),
                anchors@ == index_entries(data@, start as int, i as nat),
            decreases n - i,
        {
            let pos: usize = start + i * INDEX_ENTRY_SIZE;
            anchors.push(
                AnchorIndexEntry {
                    tick_index: read_u64(data, pos),
                    byte_offset: read_u64(data, pos + 8),
                },
            );
            i = i + 1;
            assert(anchors@ =~= index_entries(data@, start as int, i as nat));
        }
        Ok(anchors)
    }

    /// Accepts the bytes of a TVC file whose header has been read.
    pub fn from_bytes(data: Vec<u8>, header: TvcHeader, instrument_id: InstrumentId) -> (r: Result<
        Self,
        RingBufferError,
    >)
        ensures
            match r {
                Ok(rb) => {
                    &&& open_fault(data@, header) is None
                    &&& rb.wf()
                    &&& rb@.data == data@
                    &&& rb@.header == header
                    &&& rb.id() == instrument_id
                },
                Err(e) => Some(e@) == open_fault(data@, header),
            },
    {
        if data.len() < HEADER_SIZE {
            return Err(RingBufferError::InvalidHeader("File too small".to_owned()));
        }
        match RingBuffer::check_header(&data, &header) {
            Ok(_) => {},
            Err(e) => {
                return Err(e);
            },
        }
        match RingBuffer::build_anchor_index(&data, &header) {
            Ok(anchor_index) => {
                let len: usize = data.len();
                assert(data@.len() == len);
                Ok(
                    RingBuffer {
                        data,
                        header,
                        anchor_index,
                        instrument_id,
                        anchor_interval: header.anchor_interval,
                    },
                )
            },
            Err(e) => Err(e),
        }
    }
}

/// The change that stands at a byte offset, as machine numbers.
struct DeltaFields {
    time: i64,
    wraps: bool,
    price: i64,
    size: i64,
    side: u8,
    flags: u8,
    len: usize,
}

impl DeltaFields {
    spec fn means(self, d: DeltaChange) -> bool {
        &&& self.time == d.time
        &&& self.wraps == d.wraps
        &&& self.price == d.price
        &&& self.size == d.size
        &&& self.side == d.side
        &&& self.flags == d.flags
        &&& self.len == d.len
        &&& -0x1_0000_0000_0000 <= self.time <= 0x1_0000_0000_0000
        &&& !self.wraps ==> self.time >= 0
    }
}

/// The two's complement reading of `n`, of which `half` is the top bit.
fn sign_extend(n: u64, half: u64) -> (v: i64)
    requires
        0 < half <= 0x8000_0000,
        n < 2 * half,
    ensures
        v == tvc::signed(n as nat, half as nat),
        -0x8000_0000 <= v < 0x8000_0000,
{
    if n >= half {
        n as i64 - 2 * half as i64
    } else {
        n as i64
    }
}

impl RingBuffer {
    /// The instrument of the file.
    pub fn instrument_id(&self) -> (r: InstrumentId)
        ensures
            r == self.id(),
    {
        self.instrument_id.clone()
    }

    /// The file header.
    pub fn header(&self) -> (r: &TvcHeader)
        ensures
            *r == self@.header,
    {
        &self.header
    }

    /// The number of ticks that the header states.
    pub fn num_ticks(&self) -> (r: u64)
        ensures
            r == self@.header.num_ticks,
    {
        self.header.num_ticks
    }

    /// The number of anchors that the header states.
    pub fn num_anchors(&self) -> (r: u32)
        ensures
            r == self@.header.num_anchors,
    {
        self.header.num_anchors
    }

    /// Ticks per anchor.
    pub fn anchor_interval(&self) -> (r: u32)
        ensures
            r == self@.interval,
    {
        self.anchor_interval
    }

    /// The time of the first tick that the header states.
    pub fn start_time_ns(&self) -> (r: u64)
        ensures
            r == self@.header.start_time_ns,
    {
        self.header.start_time_ns
    }

    /// The time of the last tick that the header states.
    pub fn end_time_ns(&self) -> (r: u64)
        ensures
            r == self@.header.end_time_ns,
    {
        self.header.end_time_ns
    }

    /// The anchor index.
    pub fn anchor_index(&self) -> (r: &[AnchorIndexEntry])
        ensures
            r@ == self@.index,
    {
        self.anchor_index.as_slice()
    }

    /// The bytes of the file.
    pub fn mmap_data(&self) -> (r: &[u8])
        ensures
            r@ == self@.data,
    {
        self.data.as_slice()
    }

    /// The byte offset of the first full tick.
    pub fn first_anchor_offset(&self) -> (r: usize)
        ensures
            r == 128,
    {
        HEADER_SIZE
    }

    /// Reads the full tick at a byte offset.
    pub fn decode_anchor_at(&self, byte_offset: usize) -> (r: Result<TradeTick, RingBufferError>)
        ensures
            match r {
                Ok(t) => self@.anchor_at(byte_offset as int) == Some(t),
                Err(e) => self@.anchor_at(byte_offset as int) is None && e@ == Fault::SeekFailed(
                    "Beyond file bounds"@,
                ),
            },
    {
        let len: usize = self.data.len();
        if len < ANCHOR_TICK_SIZE || byte_offset > len - ANCHOR_TICK_SIZE {
            return Err(RingBufferError::SeekFailed("Beyond file bounds".to_owned()));
        }
        Ok(
            TradeTick {
                timestamp_ns: read_u64(&self.data, byte_offset),
                price_int: read_i64(&self.data, byte_offset + 8),
                size_int: read_i64(&self.data, byte_offset + 16),
                side: self.data[byte_offset + 24],
                flags: self.data[byte_offset + 25],
                sequence: read_u32(&self.data, byte_offset + 26),
            },
        )
    }

    fn read_delta(&self, byte_offset: usize) -> (r: Result<DeltaFields, RingBufferError>)
        ensures
            match r {
                Ok(d) => self@.delta_fault(byte_offset as int) is None && d.means(
                    self@.delta_change(byte_offset as int),
                ) && byte_offset + d.len <= self@.data.len() && self@.data.len() <= usize::MAX,
                Err(e) => self@.delta_fault(byte_offset as int) == Some(e@),
            },
    {
        let len: usize = self.data.len();
        if byte_offset as u64 >= self.header.index_offset {
            return Err(RingBufferError::SeekFailed("Beyond tick data".to_owned()));
        }
        if byte_offset >= len {
            return Err(RingBufferError::SeekFailed("Beyond file bounds".to_owned()));
        }
        if self.data[byte_offset] == OVERFLOW_MARK {
            if len - byte_offset < OVERFLOW_DELTA_SIZE {
                return Err(RingBufferError::SeekFailed("Overflow delta beyond bounds".to_owned()));
            }
            let time_raw: u32 = read_u32(&self.data, byte_offset + 1);
            let price_raw: u32 = read_u32(&self.data, byte_offset + 5);
            let size_raw: u32 = read_u32(&self.data, byte_offset + 9);
            let last: u8 = self.data[byte_offset + 13];
            Ok(
                DeltaFields {
                    time: zigzag_decode(time_raw as i64) * 1000,
                    wraps: true,
                    price: zigzag_decode(sign_extend(price_raw as u64, 0x8000_0000)),
                    size: zigzag_decode(sign_extend(size_raw as u64, 0x8000_0000)),
                    side: last % 2,
                    flags: last / 2,
                    len: OVERFLOW_DELTA_SIZE,
                },
            )
        } else {
            if len - byte_offset < BASE_DELTA_SIZE {
                return Err(RingBufferError::SeekFailed("Base delta beyond bounds".to_owned()));
            }
            let packed: u64 = read_u64(&self.data, byte_offset);
            let price_raw: u64 = (packed / 0x2_0000) % 0x4_0000;
            let size_raw: u64 = (packed / 0x8_0000_0000) % 0x800_0000;
            Ok(
                DeltaFields {
                    time: (packed % 0x2_0000) as i64 * 1000,
                    wraps: false,
                    price: zigzag_decode(sign_extend(price_raw, 0x2_0000)),
                    size: zigzag_decode(sign_extend(size_raw, 0x400_0000)),
                    side: ((packed / 0x4000_0000_0000_0000) % 2) as u8,
                    flags: ((packed / 0x8000_0000_0000_0000) % 2) as u8,
                    len: BASE_DELTA_SIZE,
                },
            )
        }
    }

    /// Whether the delta at a byte offset, applied to `prev_tick`, keeps every field in range.
    pub fn delta_fits_at(&self, byte_offset: usize, prev_tick: &TradeTick) -> (r: bool)
        ensures
            r == self@.delta_fits(byte_offset as int, *prev_tick),
    {
        match self.read_delta(byte_offset) {
            Ok(d) => {
                prev_tick.price_int.checked_add(d.price).is_some() && prev_tick.size_int.checked_add(
                    d.size,
                ).is_some() && prev_tick.sequence < 0xffff_ffff && (d.wraps
                    || prev_tick.timestamp_ns.checked_add(d.time as u64).is_some())
            },
            Err(_) => true,
        }
    }

    /// Reads the delta tick at a byte offset: the change is applied to `prev_tick`.
    ///
    /// Gives the tick and the bytes that it takes, 8 for a base delta and 14 for an overflow
    /// delta.
    pub fn decode_delta_at(&self, byte_offset: usize, prev_tick: &TradeTick) -> (r: Result<
        (TradeTick, usize),
        RingBufferError,
    >)
        requires
            self@.delta_fits(byte_offset as int, *prev_tick),
        ensures
            match r {
                Ok((t, n)) => self@.delta_at(byte_offset as int, *prev_tick) == Some((t, n as int))
                    && self@.delta_fault(byte_offset as int) is None && byte_offset + n
                    <= self@.data.len() && self@.data.len() <= usize::MAX,
                Err(e) => self@.delta_at(byte_offset as int, *prev_tick) is None
                    && self@.delta_fault(byte_offset as int) == Some(e@),
            },
    {
        match self.read_delta(byte_offset) {
            Ok(d) => {
                let timestamp_ns: u64 = if d.time >= 0 {
                    prev_tick.timestamp_ns.wrapping_add(d.time as u64)
                } else {
                    prev_tick.timestamp_ns.wrapping_sub((-d.time) as u64)
                };
                Ok(
                    (
                        TradeTick {
                            timestamp_ns,
                            price_int: prev_tick.price_int + d.price,
                            size_int: prev_tick.size_int + d.size,
                            side: d.side,
                            flags: d.flags,
                            sequence: prev_tick.sequence + 1,
                        },
                        d.len,
                    ),
                )
            },
            Err(e) => Err(e),
        }
    }

    /// The position behind the last anchor that a binary search takes for `<= tick_index`.
    fn anchors_up_to(&self, tick_index: u64) -> (r: usize)
        ensures
            r == bisect(tick_keys(self@.index), tick_index, 0, self@.index.len() as int),
            r <= self@.index.len(),
    {
        let mut left: usize = 0;
        let mut right: usize = self.anchor_index.len();
        while left < right
            invariant
                left <= right <= self.anchor_index@.len(),
                bisect(tick_keys(self@.index), tick_index, left as int, right as int) == bisect(
                    tick_keys(self@.index),
                    tick_index,
                    0,
                    self@.index.len() as int,
                ),
            decreases right - left,
        {
            let mid: usize = left + (right - left) / 2;
            assert(tick_keys(self@.index)[mid as int] == self.anchor_index@[mid as int].tick_index);
            if self.anchor_index[mid].tick_index <= tick_index {
                left = mid + 1;
            } else {
                right = mid;
            }
        }
        left
    }

    /// The byte offset and tick index of the anchor at or before a tick index.
    ///
    /// On an index in ascending order this is the last anchor whose tick index is at most
    /// `tick_index`; there is none exactly where the first anchor comes later.
    pub fn seek_to_tick(&self, tick_index: u64) -> (r: Result<(usize, u64), RingBufferError>)
        ensures
            ({
                let n = self@.anchors_up_to(tick_index);
                match r {
                    Ok((off, t)) => 0 < n <= self@.index.len() && off == self@.index[n
                        - 1].byte_offset as usize && t == self@.index[n - 1].tick_index,
                    Err(e) => n == 0 && e@ == Fault::TickNotFound(tick_index),
                }
            }),
    {
        let left: usize = self.anchors_up_to(tick_index);
        if left == 0 {
            return Err(RingBufferError::TickNotFound(tick_index));
        }
        let entry = &self.anchor_index[left - 1];
        Ok((entry.byte_offset as usize, entry.tick_index))
    }
}

// ---------------------------------------------------------------------------
// Seeking by time
// ---------------------------------------------------------------------------

/// Where a search by time ends: byte offset, tick index and tick.
pub type Found = (int, int, TradeTick);

impl RingView {
    /// The number of anchors that are not behind a tick index, by binary search.
    pub open spec fn anchors_up_to(self, tick_index: u64) -> int {
        bisect(tick_keys(self.index), tick_index, 0, self.index.len() as int)
    }

    /// The full tick at an anchor.
    pub open spec fn anchor_tick(self, slot: int) -> Option<TradeTick> {
        self.anchor_at(self.index[slot].byte_offset as usize as int)
    }

    /// The times of the anchors; the largest number where one cannot be read.
    pub open spec fn anchor_times(self) -> Seq<u64> {
        Seq::new(
            self.index.len(),
            |i: int|
                match self.anchor_tick(i) {
                    Some(t) => t.timestamp_ns,
                    None => u64::MAX,
                },
        )
    }

    /// The number of anchors that are not behind a time, by binary search.
    pub open spec fn anchors_until(self, target_ns: u64) -> int {
        bisect(self.anchor_times(), target_ns, 0, self.index.len() as int)
    }

    /// The search for the anchor at or before a time.
    pub open spec fn seek_time(self, target_ns: u64) -> Result<Found, Fault> {
        let n = self.anchors_until(target_ns);
        if target_ns < self.header.start_time_ns || n == 0 {
            Err(Fault::TickNotFound(target_ns))
        } else {
            match self.anchor_tick(n - 1) {
                Some(t) => Ok(
                    (
                        self.index[n - 1].byte_offset as usize as int,
                        self.index[n - 1].tick_index as int,
                        t,
                    ),
                ),
                None => Err(Fault::SeekFailed("Beyond file bounds"@)),
            }
        }
    }

    /// The anchor at which the search for the ticks from a time on begins: the last one before the
    /// time, or the first one.
    pub open spec fn range_slot(self, start_ns: u64) -> int {
        if start_ns == 0 || self.anchors_until((start_ns - 1) as u64) == 0 {
            0
        } else {
            self.anchors_until((start_ns - 1) as u64) - 1
        }
    }
}

/// The outcome of a search means what the contract of the search says.
pub open spec fn found_means(
    r: Result<(usize, u64, TradeTick), RingBufferError>,
    f: Result<Found, Fault>,
) -> bool {
    match r {
        Ok((o, i, t)) => f == Ok::<Found, Fault>((o as int, i as int, t)),
        Err(e) => f == Err::<Found, Fault>(e@),
    }
}

impl RingBuffer {
    /// The number of anchors that are not behind a time, by binary search.
    fn anchors_up_to_time(&self, target_ns: u64) -> (r: usize)
        ensures
            r == self@.anchors_until(target_ns),
            r <= self@.index.len(),
    {
        let ghost keys = self@.anchor_times();
        let mut left: usize = 0;
        let mut right: usize = self.anchor_index.len();
        while left < right
            invariant
                keys == self@.anchor_times(),
                left <= right <= self.anchor_index@.len(),
                bisect(keys, target_ns, left as int, right as int) == self@.anchors_until(target_ns),
            decreases right - left,
        {
            let mid: usize = left + (right - left) / 2;
            let time: u64 = match self.decode_anchor_at(
                self.anchor_index[mid].byte_offset as usize,
            ) {
                Ok(t) => t.timestamp_ns,
                Err(_) => u64::MAX,
            };
            assert(keys[mid as int] == time);
            if time <= target_ns {
                left = mid + 1;
            } else {
                right = mid;
            }
        }
        left
    }

    /// Finds the anchor at or before a time: byte offset, tick index and full tick.
    ///
    /// On anchors in time order this is the last anchor whose time is at most `target_ns`.
    pub fn seek_to_time_ns(&self, target_ns: u64) -> (r: Result<
        (usize, u64, TradeTick),
        RingBufferError,
    >)
        ensures
            found_means(r, self@.seek_time(target_ns)),
    {
        if target_ns < self.header.start_time_ns {
            return Err(RingBufferError::TickNotFound(target_ns));
        }
        let n: usize = self.anchors_up_to_time(target_ns);
        if n == 0 {
            return Err(RingBufferError::TickNotFound(target_ns));
        }
        let offset: usize = self.anchor_index[n - 1].byte_offset as usize;
        match self.decode_anchor_at(offset) {
            Ok(t) => Ok((offset, self.anchor_index[n - 1].tick_index, t)),
            Err(e) => Err(e),
        }
    }

    /// The anchor at which the search for the ticks from a time on begins.
    fn slot_before(&self, start_ns: u64) -> (r: usize)
        ensures
            r == self@.range_slot(start_ns),
            self@.index.len() > 0 ==> r < self@.index.len(),
    {
        if start_ns == 0 {
            return 0;
        }
        let n: usize = self.anchors_up_to_time(start_ns - 1);
        if n == 0 {
            0
        } else {
            n - 1
        }
    }

    /// Whether the anchor at which the search for the ticks from a time on begins can be read.
    pub fn can_iter_range(&self, start_ns: u64) -> (r: bool)
        ensures
            r == self@.range_starts(start_ns),
    {
        if self.anchor_index.len() == 0 {
            return false;
        }
        let slot: usize = self.slot_before(start_ns);
        self.decode_anchor_at(self.anchor_index[slot].byte_offset as usize).is_ok()
    }
}

// ---------------------------------------------------------------------------
// RingIter
// ---------------------------------------------------------------------------

impl RingView {
    /// The place at which tick `pos.index` is read: at a later anchor where the index has passed
    /// into another group. `None` where that anchor is missing, cannot be read or goes back in
    /// time.
    pub open spec fn resync(self, pos: StreamPos) -> Option<StreamPos> {
        let slot = pos.index / (self.interval as int);
        if slot > pos.slot {
            if slot < self.index.len() {
                let off = self.index[slot].byte_offset as usize as int;
                match self.anchor_at(off) {
                    Some(t) => if t.timestamp_ns < pos.last.timestamp_ns {
                        None
                    } else {
                        Some(StreamPos { offset: off, index: pos.index, last: t, slot: slot })
                    },
                    None => None,
                }
            } else {
                None
            }
        } else {
            Some(pos)
        }
    }

    /// One step of the iteration: the tick, if there is one, and the place behind it.
    pub open spec fn step(self, pos: StreamPos, end_ns: u64) -> (Option<TradeTick>, StreamPos) {
        if pos.index >= self.header.num_ticks {
            (None, pos)
        } else {
            match self.resync(pos) {
                None => (None, pos),
                Some(p) => if p.index % (self.interval as int) == 0 {
                    if p.last.timestamp_ns >= end_ns {
                        (None, p)
                    } else {
                        (
                            Some(p.last),
                            StreamPos { offset: p.offset + 30, index: p.index + 1, ..p },
                        )
                    }
                } else {
                    match self.delta_at(p.offset, p.last) {
                        None => (None, p),
                        Some((t, n)) => if t.timestamp_ns >= end_ns {
                            (None, p)
                        } else {
                            (
                                Some(t),
                                StreamPos {
                                    offset: p.offset + n,
                                    index: p.index + 1,
                                    last: t,
                                    slot: p.slot,
                                },
                            )
                        },
                    }
                },
            }
        }
    }

    /// The next step keeps every field and offset in range.
    pub open spec fn step_fits(self, pos: StreamPos) -> bool {
        &&& self.interval > 0
        &&& pos.index < self.header.num_ticks ==> match self.resync(pos) {
            None => true,
            Some(p) => if p.index % (self.interval as int) == 0 {
                p.offset + 30 <= usize::MAX
            } else {
                self.delta_fits(p.offset, p.last)
            },
        }
    }

    /// The ticks that the iteration gives from a place on.
    pub open spec fn ticks_from(self, pos: StreamPos, end_ns: u64) -> Seq<TradeTick>
        decreases self.header.num_ticks - pos.index,
    {
        let (t, p) = self.step(pos, end_ns);
        match t {
            Some(tick) => if p.index > pos.index && pos.index < self.header.num_ticks {
                seq![tick] + self.ticks_from(p, end_ns)
            } else {
                seq![]
            },
            None => seq![],
        }
    }

    /// Every step from a place on keeps in range.
    pub open spec fn ticks_fit(self, pos: StreamPos, end_ns: u64) -> bool
        decreases self.header.num_ticks - pos.index,
    {
        let (t, p) = self.step(pos, end_ns);
        &&& self.step_fits(pos)
        &&& (t is Some && p.index > pos.index && pos.index < self.header.num_ticks)
            ==> self.ticks_fit(p, end_ns)
    }

    /// The place in front of the full tick at an anchor.
    pub open spec fn anchor_pos(self, slot: int) -> StreamPos {
        StreamPos {
            offset: self.index[slot].byte_offset as usize as int,
            index: self.index[slot].tick_index as int,
            last: self.anchor_tick(slot)->0,
            slot,
        }
    }

    /// The anchor at which the search for the ticks from a time on begins can be read.
    pub open spec fn range_starts(self, start_ns: u64) -> bool {
        self.index.len() > 0 && self.anchor_tick(self.range_slot(start_ns)) is Some
    }

    /// The place in front of the first tick, from a place on, that is not before a time; or where
    /// the iteration ends.
    pub open spec fn skip_before(self, pos: StreamPos, start_ns: u64, end_ns: u64) -> StreamPos
        decreases self.header.num_ticks - pos.index,
    {
        let (t, p) = self.step(pos, end_ns);
        if self.step_fits(pos) && t is Some && t->0.timestamp_ns < start_ns && p.index > pos.index
            && pos.index < self.header.num_ticks {
            self.skip_before(p, start_ns, end_ns)
        } else {
            pos
        }
    }

    /// The place in front of the first tick of a range.
    pub open spec fn range_pos(self, start_ns: u64, end_ns: u64) -> StreamPos {
        self.skip_before(self.anchor_pos(self.range_slot(start_ns)), start_ns, end_ns)
    }

    /// The place in front of the first tick.
    pub open spec fn origin(self) -> StreamPos {
        StreamPos { offset: 128, index: 0, last: self.anchor_at(128)->0, slot: 0 }
    }

    /// All ticks of the stream.
    pub open spec fn ticks(self) -> Seq<TradeTick> {
        self.ticks_from(self.origin(), u64::MAX)
    }
}

/// Sequential walk over the ticks of a `RingBuffer`.
#[derive(Debug)]
pub struct RingIter<'a> {
    buffer: &'a RingBuffer,
    current_offset: usize,
    current_tick_index: u64,
    last_tick: TradeTick,
    end_ns: u64,
    anchor_slot: usize,
}

impl<'a> View for RingIter<'a> {
    type V = StreamPos;

    closed spec fn view(&self) -> StreamPos {
        StreamPos {
            offset: self.current_offset as int,
            index: self.current_tick_index as int,
            last: self.last_tick,
            slot: self.anchor_slot as int,
        }
    }
}

impl<'a> RingIter<'a> {
    /// The buffer that is walked.
    pub closed spec fn source(self) -> RingView {
        self.buffer@
    }

    /// The walk ends before the first tick at or behind this time.
    pub closed spec fn end(self) -> u64 {
        self.end_ns
    }

    /// Starts at the first tick.
    fn new(buffer: &'a RingBuffer) -> (r: Self)
        requires
            buffer@.anchor_at(128) is Some,
        ensures
            r.source() == buffer@,
            r@ == buffer@.origin(),
            r.end() == u64::MAX,
    {
        let first_offset: usize = buffer.first_anchor_offset();
        let first_tick: TradeTick = match buffer.decode_anchor_at(first_offset) {
            Ok(t) => t,
            Err(_) => vstd::pervasive::unreached(),
        };
        RingIter {
            buffer,
            current_offset: first_offset,
            current_tick_index: 0,
            last_tick: first_tick,
            end_ns: u64::MAX,
            anchor_slot: 0,
        }
    }

    /// Starts at the first tick that is not before `start_ns` and ends before `end_ns`.
    fn range(buffer: &'a RingBuffer, start_ns: u64, end_ns: u64) -> (r: Self)
        requires
            buffer@.range_starts(start_ns),
        ensures
            r.source() == buffer@,
            r.end() == end_ns,
            r@ == buffer@.range_pos(start_ns, end_ns),
    {
        let slot: usize = buffer.slot_before(start_ns);
        let offset: usize = buffer.anchor_index[slot].byte_offset as usize;
        let first: TradeTick = match buffer.decode_anchor_at(offset) {
            Ok(t) => t,
            Err(_) => vstd::pervasive::unreached(),
        };
        let mut it = RingIter {
            buffer,
            current_offset: offset,
            current_tick_index: buffer.anchor_index[slot].tick_index,
            last_tick: first,
            end_ns,
            anchor_slot: slot,
        };
        let ghost goal = buffer@.range_pos(start_ns, end_ns);
        loop
            invariant
                it.source() == buffer@,
                it.end() == end_ns,
                goal == buffer@.range_pos(start_ns, end_ns),
                buffer@.skip_before(it@, start_ns, end_ns) == goal,
            ensures
                it@ == goal,
            decreases buffer@.header.num_ticks - it@.index,
        {
            if !it.skip_one(start_ns) {
                break;
            }
        }
        it
    }

    /// Moves behind the next tick where it is before a time; whether it is.
    fn skip_one(&mut self, start_ns: u64) -> (r: bool)
        ensures
            final(self).source() == old(self).source(),
            final(self).end() == old(self).end(),
            old(self).source().skip_before(final(self)@, start_ns, old(self).end())
                == old(self).source().skip_before(old(self)@, start_ns, old(self).end()),
            if r {
                old(self)@.index < final(self)@.index <= old(self).source().header.num_ticks
            } else {
                final(self)@ == old(self).source().skip_before(
                    old(self)@,
                    start_ns,
                    old(self).end(),
                )
            },
    {
        if !self.can_step() {
            return false;
        }
        let mut ahead = self.clone_at();
        let ghost next = self.source().step(self@, self.end());
        match ahead.next() {
            Some(t) => {
                if t.timestamp_ns >= start_ns {
                    return false;
                }
                assert(next == (Some(t), ahead@));
                *self = ahead;
                true
            },
            None => false,
        }
    }

    /// The same place in the same buffer.
    fn clone_at(&self) -> (r: RingIter<'a>)
        ensures
            r == *self,
    {
        RingIter {
            buffer: self.buffer,
            current_offset: self.current_offset,
            current_tick_index: self.current_tick_index,
            last_tick: self.last_tick,
            end_ns: self.end_ns,
            anchor_slot: self.anchor_slot,
        }
    }

    /// The tick read last, while there are ticks to come.
    pub fn peek(&self) -> (r: Option<&TradeTick>)
        ensures
            r == (if self@.index < self.source().header.num_ticks {
                Some(&self@.last)
            } else {
                None
            }),
    {
        if self.current_tick_index < self.buffer.num_ticks() {
            Some(&self.last_tick)
        } else {
            None
        }
    }

    /// The number of ticks behind the current one that the header states.
    pub fn size_hint(&self) -> (r: (usize, Option<usize>))
        requires
            self@.index <= self.source().header.num_ticks,
        ensures
            r.0 == (self.source().header.num_ticks - self@.index) as usize,
            r.1 == Some(r.0),
    {
        let remaining: usize = (self.buffer.num_ticks() - self.current_tick_index) as usize;
        (remaining, Some(remaining))
    }

    /// The next tick.
    pub fn next(&mut self) -> (r: Option<TradeTick>)
        requires
            old(self).source().step_fits(old(self)@),
        ensures
            final(self).source() == old(self).source(),
            final(self).end() == old(self).end(),
            (r, final(self)@) == old(self).source().step(old(self)@, old(self).end()),
    {
        if self.current_tick_index >= self.buffer.num_ticks() {
            return None;
        }
        let interval: u64 = self.buffer.anchor_interval() as u64;
        let slot: u64 = self.current_tick_index / interval;
        if slot > self.anchor_slot as u64 {
            if slot >= self.buffer.anchor_index.len() as u64 {
                return None;
            }
            let anchor_offset: usize = self.buffer.anchor_index[slot as usize].byte_offset as usize;
            match self.buffer.decode_anchor_at(anchor_offset) {
                Ok(t) => {
                    if t.timestamp_ns < self.last_tick.timestamp_ns {
                        return None;
                    }
                    self.anchor_slot = slot as usize;
                    self.current_offset = anchor_offset;
                    self.last_tick = t;
                },
                Err(_) => {
                    return None;
                },
            }
        }
        assert(old(self).source().resync(old(self)@) == Some(self@));
        if self.current_tick_index % interval == 0 {
            let tick: TradeTick = self.last_tick;
            if tick.timestamp_ns >= self.end_ns {
                return None;
            }
            self.current_offset = self.current_offset + ANCHOR_TICK_SIZE;
            self.current_tick_index = self.current_tick_index + 1;
            Some(tick)
        } else {
            match self.buffer.decode_delta_at(self.current_offset, &self.last_tick) {
                Ok((tick, n)) => {
                    if tick.timestamp_ns >= self.end_ns {
                        return None;
                    }
                    self.last_tick = tick;
                    self.current_offset = self.current_offset + n;
                    self.current_tick_index = self.current_tick_index + 1;
                    Some(tick)
                },
                Err(_) => None,
            }
        }
    }
}

impl<'a> RingIter<'a> {
    /// Starts at a full tick that has been read already: it is the first one to be given.
    pub(crate) fn from_position(
        buffer: &'a RingBuffer,
        byte_offset: usize,
        tick_index: u64,
        first_tick: TradeTick,
        anchor_slot: usize,
    ) -> (r: Self)
        ensures
            r.source() == buffer@,
            r.end() == u64::MAX,
            r@ == (StreamPos {
                offset: byte_offset as int,
                index: tick_index as int,
                last: first_tick,
                slot: anchor_slot as int,
            }),
    {
        RingIter {
            buffer,
            current_offset: byte_offset,
            current_tick_index: tick_index,
            last_tick: first_tick,
            end_ns: u64::MAX,
            anchor_slot,
        }
    }

    /// Whether the next step keeps every field and offset in range.
    pub fn can_step(&self) -> (r: bool)
        ensures
            r == self.source().step_fits(self@),
    {
        if self.buffer.anchor_interval() == 0 {
            return false;
        }
        if self.current_tick_index >= self.buffer.num_ticks() {
            return true;
        }
        let interval: u64 = self.buffer.anchor_interval() as u64;
        let slot: u64 = self.current_tick_index / interval;
        let mut offset: usize = self.current_offset;
        let mut last: TradeTick = self.last_tick;
        if slot > self.anchor_slot as u64 {
            if slot >= self.buffer.anchor_index.len() as u64 {
                return true;
            }
            offset = self.buffer.anchor_index[slot as usize].byte_offset as usize;
            match self.buffer.decode_anchor_at(offset) {
                Ok(t) => {
                    if t.timestamp_ns < last.timestamp_ns {
                        return true;
                    }
                    last = t;
                },
                Err(_) => {
                    return true;
                },
            }
        }
        if self.current_tick_index % interval == 0 {
            offset <= usize::MAX - ANCHOR_TICK_SIZE
        } else {
            self.buffer.delta_fits_at(offset, &last)
        }
    }
}

impl RingBuffer {
    /// Iterates over all ticks.
    pub fn iter(&self) -> (r: RingIter<'_>)
        requires
            self@.anchor_at(128) is Some,
        ensures
            r.source() == self@,
            r@ == self@.origin(),
            r.end() == u64::MAX,
    {
        RingIter::new(self)
    }

    /// Iterates over the ticks from `start_ns` to before `end_ns`.
    pub fn iter_range(&self, start_ns: u64, end_ns: u64) -> (r: RingIter<'_>)
        requires
            self@.range_starts(start_ns),
        ensures
            r.source() == self@,
            r.end() == end_ns,
            r@ == self@.range_pos(start_ns, end_ns),
    {
        RingIter::range(self, start_ns, end_ns)
    }

    /// Iterates from a full tick that has been read already.
    pub fn iter_from(
        &self,
        byte_offset: usize,
        tick_index: u64,
        first_tick: TradeTick,
        anchor_slot: usize,
    ) -> (r: RingIter<'_>)
        ensures
            r.source() == self@,
            r.end() == u64::MAX,
            r@ == (StreamPos {
                offset: byte_offset as int,
                index: tick_index as int,
                last: first_tick,
                slot: anchor_slot as int,
            }),
    {
        RingIter::from_position(self, byte_offset, tick_index, first_tick, anchor_slot)
    }

    /// All ticks in order, or `None` where the first tick cannot be read or one is out of range.
    pub fn read_all(&self) -> (r: Option<Vec<TradeTick>>)
        ensures
            match r {
                Some(v) => self@.anchor_at(128) is Some && self@.ticks_fit(
                    self@.origin(),
                    u64::MAX,
                ) && v@ == self@.ticks(),
                None => self@.anchor_at(128) is None || !self@.ticks_fit(self@.origin(), u64::MAX),
            },
    {
        match self.decode_anchor_at(HEADER_SIZE) {
            Ok(_) => {},
            Err(_) => {
                return None;
            },
        }
        let mut it = self.iter();
        let mut v: Vec<TradeTick> = Vec::new();
        let ghost view = self@;
        let ghost fits = view.ticks_fit(view.origin(), u64::MAX);
        assert(v@ + view.ticks_from(it@, u64::MAX) =~= view.ticks());
        loop
            invariant
                it.source() == view,
                it.end() == u64::MAX,
                view == self@,
                view.anchor_at(128) is Some,
                view.ticks_fit(it@, u64::MAX) == fits,
                fits == view.ticks_fit(view.origin(), u64::MAX),
                v@ + view.ticks_from(it@, u64::MAX) == view.ticks(),
            decreases view.header.num_ticks - it@.index,
        {
            let ghost before = it@;
            let ghost got = v@;
            if !it.can_step() {
                return None;
            }
            match it.next() {
                Some(t) => {
                    v.push(t);
                    proof {
                        assert(view.ticks_from(before, u64::MAX) =~= seq![t] + view.ticks_from(
                            it@,
                            u64::MAX,
                        ));
                        assert(got + (seq![t] + view.ticks_from(it@, u64::MAX)) =~= got.push(t)
                            + view.ticks_from(it@, u64::MAX));
                    }
                },
                None => {
                    assert(view.ticks_from(before, u64::MAX) =~= seq![]);
                    assert(got + seq![] =~= got);
                    return Some(v);
                },
            }
        }
    }
}

/// The first tick of a group is the full tick at the group's anchor.
pub proof fn group_starts_at_anchor(v: RingView, pos: StreamPos, end_ns: u64)
    requires
        v.interval > 0,
        pos.index % (v.interval as int) == 0,
        pos.slot < pos.index / (v.interval as int),
        v.step(pos, end_ns).0 is Some,
    ensures
        pos.index / (v.interval as int) < v.index.len(),
        v.step(pos, end_ns).0 == v.anchor_at(
            v.index[pos.index / (v.interval as int)].byte_offset as usize as int,
        ),
{
}

/// Starting at an anchor gives the same ticks as coming to it from before: once the walk has
/// reached the first tick of a group, the ticks that are left are those of a walk that begins at
/// the group's anchor.
pub proof fn anchor_start_gives_the_rest(v: RingView, pos: StreamPos, end_ns: u64)
    requires
        v.interval > 0,
        pos.index % (v.interval as int) == 0,
        pos.slot < pos.index / (v.interval as int),
        pos.index < v.header.num_ticks,
        v.resync(pos) is Some,
    ensures
        ({
            let slot = pos.index / (v.interval as int);
            let off = v.index[slot].byte_offset as usize as int;
            let start = StreamPos { offset: off, index: pos.index, last: v.anchor_at(off)->0, slot };
            v.ticks_from(pos, end_ns) == v.ticks_from(start, end_ns)
        }),
{
}

/// The walk gives no more ticks than the header states.
pub proof fn no_more_ticks_than_stated(v: RingView, pos: StreamPos, end_ns: u64)
    requires
        pos.index <= v.header.num_ticks,
    ensures
        v.ticks_from(pos, end_ns).len() <= v.header.num_ticks - pos.index,
    decreases v.header.num_ticks - pos.index,
{
    let (t, p) = v.step(pos, end_ns);
    if t is Some {
        no_more_ticks_than_stated(v, p, end_ns);
    }
}

/// No tick of the walk is at or behind the end time.
pub proof fn ticks_end_before(v: RingView, pos: StreamPos, end_ns: u64)
    ensures
        forall|i: int|
            0 <= i < v.ticks_from(pos, end_ns).len() ==> (#[trigger] v.ticks_from(
                pos,
                end_ns,
            )[i]).timestamp_ns < end_ns,
    decreases v.header.num_ticks - pos.index,
{
    let (t, p) = v.step(pos, end_ns);
    if t is Some && p.index > pos.index && pos.index < v.header.num_ticks {
        ticks_end_before(v, p, end_ns);
        assert(t->0.timestamp_ns < end_ns);
        let all = v.ticks_from(pos, end_ns);
        let rest = v.ticks_from(p, end_ns);
        assert(all =~= seq![t->0] + rest);
        assert forall|i: int| 0 <= i < all.len() implies (#[trigger] all[i]).timestamp_ns
            < end_ns by {
            if i > 0 {
                assert(all[i] == rest[i - 1]);
            }
        }
    }
}

/// The search for a time finds an anchor at or before it.
pub proof fn found_anchor_is_not_behind(v: RingView, target_ns: u64)
    ensures
        v.seek_time(target_ns) matches Ok((off, index, t)) ==> t.timestamp_ns <= target_ns,
{
    bisect_is_boundary(v.anchor_times(), target_ns, 0, v.index.len() as int);
    let n = v.anchors_until(target_ns);
    if n > 0 {
        assert(v.anchor_times()[n - 1] <= target_ns);
    }
}

/// A walk that ends before a time gives the ticks of the whole walk up to the first one that is at
/// or behind the time.
proof fn lemma_walk_is_cut(v: RingView, pos: StreamPos, end_ns: u64)
    requires
        v.ticks_fit(pos, u64::MAX),
    ensures
        v.ticks_fit(pos, end_ns),
        v.ticks_from(pos, end_ns).len() <= v.ticks_from(pos, u64::MAX).len(),
        v.ticks_from(pos, end_ns) == v.ticks_from(pos, u64::MAX).take(
            v.ticks_from(pos, end_ns).len() as int,
        ),
        v.ticks_from(pos, end_ns).len() < v.ticks_from(pos, u64::MAX).len() ==> v.ticks_from(
            pos,
            u64::MAX,
        )[v.ticks_from(pos, end_ns).len() as int].timestamp_ns >= end_ns,
    decreases v.header.num_ticks - pos.index,
{
    let (t, p) = v.step(pos, u64::MAX);
    let all = v.ticks_from(pos, u64::MAX);
    let cut = v.ticks_from(pos, end_ns);
    if t is Some && p.index > pos.index && pos.index < v.header.num_ticks {
        assert(all == seq![t->0] + v.ticks_from(p, u64::MAX));
        if t->0.timestamp_ns < end_ns {
            assert(v.step(pos, end_ns) == (t, p));
            lemma_walk_is_cut(v, p, end_ns);
            assert(cut == seq![t->0] + v.ticks_from(p, end_ns));
            assert(cut =~= all.take(cut.len() as int));
            if cut.len() < all.len() {
                assert(all[cut.len() as int] == v.ticks_from(p, u64::MAX)[cut.len() - 1]);
            }
        } else {
            assert(cut.len() == 0);
            assert(cut =~= all.take(0));
            assert(all[0] == t->0);
        }
    } else {
        assert(all.len() == 0);
        assert(cut.len() == 0);
        assert(cut =~= all.take(0));
    }
}

/// Skipping leaves out the first ticks of a walk, as far as they are before the time.
proof fn lemma_walk_is_skipped(v: RingView, pos: StreamPos, start_ns: u64, end_ns: u64) -> (n: int)
    requires
        v.ticks_fit(pos, end_ns),
    ensures
        0 <= n <= v.ticks_from(pos, end_ns).len(),
        v.ticks_from(v.skip_before(pos, start_ns, end_ns), end_ns) == v.ticks_from(
            pos,
            end_ns,
        ).skip(n),
        forall|i: int|
            0 <= i < n ==> (#[trigger] v.ticks_from(pos, end_ns)[i]).timestamp_ns < start_ns,
        n < v.ticks_from(pos, end_ns).len() ==> v.ticks_from(pos, end_ns)[n].timestamp_ns
            >= start_ns,
    decreases v.header.num_ticks - pos.index,
{
    let (t, p) = v.step(pos, end_ns);
    let all = v.ticks_from(pos, end_ns);
    if t is Some && p.index > pos.index && pos.index < v.header.num_ticks {
        let rest = v.ticks_from(p, end_ns);
        assert(all == seq![t->0] + rest);
        assert(all[0] == t->0);
        if t->0.timestamp_ns < start_ns {
            let m = lemma_walk_is_skipped(v, p, start_ns, end_ns);
            assert(all.skip(m + 1) =~= rest.skip(m));
            assert forall|i: int| 0 <= i < m + 1 implies (#[trigger] all[i]).timestamp_ns
                < start_ns by {
                if i > 0 {
                    assert(all[i] == rest[i - 1]);
                }
            }
            if m < rest.len() {
                assert(all[m + 1] == rest[m]);
            }
            m + 1
        } else {
            assert(all.skip(0) =~= all);
            0
        }
    } else {
        assert(all.len() == 0);
        assert(all.skip(0) =~= all);
        0
    }
}

/// The place behind the first `n` ticks of a walk over the whole stream.
spec fn place_of(v: RingView, n: int) -> StreamPos
    decreases n,
{
    if n <= 0 {
        v.origin()
    } else {
        v.step(place_of(v, n - 1), u64::MAX).1
    }
}

proof fn lemma_step_moves(v: RingView, pos: StreamPos)
    requires
        v.interval > 0,
        v.step(pos, u64::MAX).0 is Some,
    ensures
        v.step(pos, u64::MAX).1.index == pos.index + 1,
        v.step(pos, u64::MAX).1.slot == (if pos.index / (v.interval as int) > pos.slot {
            pos.index / (v.interval as int)
        } else {
            pos.slot
        }),
{
}

#[verifier::spinoff_prover]
#[verifier::rlimit(40)]
proof fn lemma_place(v: RingView, n: int)
    requires
        v.interval > 0,
        v.ticks_fit(v.origin(), u64::MAX),
        0 <= n <= v.ticks().len(),
    ensures
        place_of(v, n).index == n,
        v.ticks_fit(place_of(v, n), u64::MAX),
        v.ticks_from(place_of(v, n), u64::MAX) == v.ticks().skip(n),
        n > 0 ==> place_of(v, n).slot == (n - 1) / (v.interval as int),
        n == 0 ==> place_of(v, n).slot == 0,
    decreases n,
{
    let i = v.interval as int;
    if n > 0 {
        lemma_place(v, n - 1);
        let pos = place_of(v, n - 1);
        let rest = v.ticks().skip(n - 1);
        assert(rest.len() > 0);
        let (t, p) = v.step(pos, u64::MAX);
        assert(rest == seq![t->0] + v.ticks_from(p, u64::MAX));
        lemma_step_moves(v, pos);
        assert(v.ticks().skip(n) =~= rest.skip(1));
        assert(rest.skip(1) =~= v.ticks_from(p, u64::MAX));
        assert(p.slot == (n - 1) / i) by {
            if n == 1 {
                assert(0int / i == 0) by (nonlinear_arith)
                    requires
                        i > 0,
                ;
            } else {
                vstd::arithmetic::div_mod::lemma_div_is_ordered(n - 2, n - 1, i);
            }
        }
    } else {
        assert(v.ticks().skip(0) =~= v.ticks());
    }
}

/// The anchors of a file are where its ticks are: every group of `interval` ticks has its anchor,
/// the first one at the front of the stream, and all can be read.
pub open spec fn anchors_match(v: RingView) -> bool {
    &&& v.interval > 0
    &&& v.index.len() > 0
    &&& v.index[0].byte_offset == 128
    &&& forall|k: int|
        0 <= k < v.index.len() ==> (#[trigger] v.index[k]).tick_index == k * v.interval && k
            * v.interval < v.ticks().len() && v.anchor_tick(k) is Some
}

/// The walk from an anchor gives the ticks of the stream from the anchor's tick on.
proof fn lemma_anchor_walk(v: RingView, k: int)
    requires
        anchors_match(v),
        v.ticks_fit(v.origin(), u64::MAX),
        0 <= k < v.index.len(),
    ensures
        v.ticks_fit(v.anchor_pos(k), u64::MAX),
        v.ticks_from(v.anchor_pos(k), u64::MAX) == v.ticks().skip(k * v.interval),
        v.anchor_times()[k] == v.ticks()[k * v.interval].timestamp_ns,
{
    let i = v.interval as int;
    let n = k * i;
    assert(v.index[k].tick_index == n && n < v.ticks().len());
    assert(n >= 0) by (nonlinear_arith)
        requires
            n == k * i,
            k >= 0,
            i > 0,
    ;
    lemma_place(v, n);
    let pos = place_of(v, n);
    let rest = v.ticks().skip(n);
    assert(rest.len() > 0 && rest[0] == v.ticks()[n]);
    assert(v.step(pos, u64::MAX).0 is Some);
    vstd::arithmetic::div_mod::lemma_mod_multiples_basic(k, i);
    vstd::arithmetic::div_mod::lemma_div_multiples_vanish(k, i);
    assert(i * k == n) by (nonlinear_arith)
        requires
            n == k * i,
    ;
    if k == 0 {
        assert(n == 0) by (nonlinear_arith)
            requires
                n == k * i,
                k == 0,
        ;
        assert(v.anchor_pos(0) == v.origin());
    } else {
        assert((n - 1) / i == k - 1) by {
            assert(n - 1 == (k - 1) * i + (i - 1)) by (nonlinear_arith)
                requires
                    n == k * i,
            ;
            vstd::arithmetic::div_mod::lemma_fundamental_div_mod_converse(n - 1, i, k - 1, i - 1);
        }
        assert(pos.slot < n / i);
        assert(v.resync(pos) == Some(v.anchor_pos(k)));
        assert(v.resync(v.anchor_pos(k)) == Some(v.anchor_pos(k)));
        assert(v.step(v.anchor_pos(k), u64::MAX) == v.step(pos, u64::MAX));
    }
}

/// Of a file with ticks in time order and an anchor for every group, a range holds exactly the ticks
/// from its start to before its end.
pub proof fn range_holds_its_ticks(v: RingView, start_ns: u64, end_ns: u64)
    requires
        anchors_match(v),
        v.ticks_fit(v.origin(), u64::MAX),
        forall|i: int, j: int|
            0 <= i <= j < v.ticks().len() ==> (#[trigger] v.ticks()[i]).timestamp_ns <= (
            #[trigger] v.ticks()[j]).timestamp_ns,
    ensures
        v.range_starts(start_ns),
        v.ticks_from(v.range_pos(start_ns, end_ns), end_ns) == v.ticks().filter(
            |t: TradeTick| start_ns <= t.timestamp_ns < end_ns,
        ),
{
    let k = v.range_slot(start_ns);
    lemma_range_slot(v, start_ns);
    assert(v.index[k].tick_index == k * v.interval);
    lemma_anchor_walk(v, k);
    let from = k * v.interval;
    assert(0 <= from && (k == 0 ==> from == 0)) by (nonlinear_arith)
        requires
            from == k * v.interval,
            k >= 0,
            v.interval > 0,
    ;
    let pos = v.anchor_pos(k);
    lemma_walk_is_cut(v, pos, end_ns);
    ticks_end_before(v, pos, end_ns);
    let n = lemma_walk_is_skipped(v, pos, start_ns, end_ns);
    lemma_cut_and_skipped(v.ticks(), from, v.ticks_from(pos, end_ns), n, start_ns, end_ns);
}

/// The search for a range begins at the first anchor, or at one before the start.
proof fn lemma_range_slot(v: RingView, start_ns: u64)
    requires
        v.index.len() > 0,
    ensures
        0 <= v.range_slot(start_ns) < v.index.len(),
        v.range_slot(start_ns) > 0 ==> v.anchor_times()[v.range_slot(start_ns)] < start_ns,
{
    if start_ns > 0 {
        bisect_is_boundary(v.anchor_times(), (start_ns - 1) as u64, 0, v.index.len() as int);
    }
}

/// Ticks in time order from `from` on, cut where they reach the end and without those before the
/// start, are the ticks within the range.
proof fn lemma_cut_and_skipped(
    all: Seq<TradeTick>,
    from: int,
    cut: Seq<TradeTick>,
    n: int,
    start_ns: u64,
    end_ns: u64,
)
    requires
        0 <= from < all.len(),
        forall|i: int, j: int|
            0 <= i <= j < all.len() ==> (#[trigger] all[i]).timestamp_ns <= (
            #[trigger] all[j]).timestamp_ns,
        from > 0 ==> all[from].timestamp_ns < start_ns,
        cut.len() <= all.skip(from).len(),
        cut == all.skip(from).take(cut.len() as int),
        cut.len() < all.skip(from).len() ==> all.skip(from)[cut.len() as int].timestamp_ns
            >= end_ns,
        forall|i: int| 0 <= i < cut.len() ==> (#[trigger] cut[i]).timestamp_ns < end_ns,
        0 <= n <= cut.len(),
        forall|i: int| 0 <= i < n ==> (#[trigger] cut[i]).timestamp_ns < start_ns,
        n < cut.len() ==> cut[n].timestamp_ns >= start_ns,
    ensures
        cut.skip(n) == all.filter(|t: TradeTick| start_ns <= t.timestamp_ns < end_ns),
{
    let a = from + n;
    let b = from + cut.len();
    assert forall|i: int| 0 <= i < cut.len() implies #[trigger] cut[i] == all[from + i] by {
        assert(all.skip(from).take(cut.len() as int)[i] == all[from + i]);
    }
    assert(cut.skip(n) =~= all.subrange(a, b));
    assert forall|j: int| 0 <= j < a implies (#[trigger] all[j]).timestamp_ns < start_ns by {
        if j < from {
            assert(all[j].timestamp_ns <= all[from].timestamp_ns);
        } else {
            assert(all[j] == cut[j - from]);
        }
    }
    assert forall|j: int| a <= j < b implies (#[trigger] all[j]).timestamp_ns < end_ns by {
        assert(all[j] == cut[j - from]);
    }
    lemma_part_in_range(all, a, b, start_ns, end_ns);
}

/// Of ticks in time order, those within a range are the ones from the first that is not before its
/// start to before the first that is not before its end.
proof fn lemma_part_in_range(all: Seq<TradeTick>, a: int, b: int, start_ns: u64, end_ns: u64)
    requires
        0 <= a <= b <= all.len(),
        forall|i: int, j: int|
            0 <= i <= j < all.len() ==> (#[trigger] all[i]).timestamp_ns <= (
            #[trigger] all[j]).timestamp_ns,
        forall|j: int| 0 <= j < a ==> (#[trigger] all[j]).timestamp_ns < start_ns,
        a < b ==> all[a].timestamp_ns >= start_ns,
        forall|j: int| a <= j < b ==> (#[trigger] all[j]).timestamp_ns < end_ns,
        b < all.len() ==> all[b].timestamp_ns >= end_ns,
    ensures
        all.filter(|t: TradeTick| start_ns <= t.timestamp_ns < end_ns) == all.subrange(a, b),
{
    let keep = |t: TradeTick| start_ns <= t.timestamp_ns < end_ns;
    let front = all.take(a);
    let mid = all.subrange(a, b);
    let back = all.skip(b);
    assert(all =~= front + mid + back);
    assert forall|j: int| 0 <= j < front.len() implies !keep(#[trigger] front[j]) by {
        assert(front[j] == all[j]);
    }
    assert forall|j: int| 0 <= j < mid.len() implies keep(#[trigger] mid[j]) by {
        assert(mid[j] == all[a + j]);
        assert(all[a].timestamp_ns <= all[a + j].timestamp_ns);
    }
    assert forall|j: int| 0 <= j < back.len() implies !keep(#[trigger] back[j]) by {
        assert(back[j] == all[b + j]);
        assert(all[b].timestamp_ns <= all[b + j].timestamp_ns);
    }
    crate::filters::filter_of_parts(front + mid, back, keep);
    crate::filters::filter_of_parts(front, mid, keep);
    crate::filters::filter_of_none(front, keep);
    crate::filters::filter_of_none(back, keep);
    crate::filters::filter_of_all(mid, keep);
    assert(all.filter(keep) =~= mid);
}

/// A small change is packed into eight bytes, from the lowest bit on: microseconds, the change of the
/// price and of the size, each in zigzag order, the side and the flag. What was packed is read back,
/// on top of the tick before.
pub proof fn packed_change_reads_back(
    v: RingView,
    off: int,
    prev: TradeTick,
    micros: int,
    price: int,
    size: int,
    side: int,
    flag: int,
)
    requires
        0 <= off,
        off + 8 <= v.data.len(),
        off < v.header.index_offset,
        v.data[off] != 0xFF,
        0 <= micros < 0x2_0000,
        -0x1_0000 <= price < 0x1_0000,
        -0x200_0000 <= size < 0x200_0000,
        0 <= side <= 1,
        0 <= flag <= 1,
        tvc::le64(v.data, off) == micros + 0x2_0000 * (if price >= 0 {
            2 * price
        } else {
            -2 * price - 1
        }) + 0x8_0000_0000 * (if size >= 0 {
            2 * size
        } else {
            -2 * size - 1
        }) + 0x4000_0000_0000_0000 * side + 0x8000_0000_0000_0000 * flag,
        v.delta_fits(off, prev),
    ensures
        v.delta_at(off, prev) matches Some((t, n)) && {
            &&& t.timestamp_ns == prev.timestamp_ns + 1000 * micros
            &&& t.price_int == prev.price_int + price
            &&& t.size_int == prev.size_int + size
            &&& t.side == side
            &&& t.flags == flag
            &&& t.sequence == prev.sequence + 1
            &&& n == 8
        },
{
    let zp = if price >= 0 {
        2 * price
    } else {
        -2 * price - 1
    };
    let zs = if size >= 0 {
        2 * size
    } else {
        -2 * size - 1
    };
    let packed = tvc::le64(v.data, off) as int;
    let top = side + 2 * flag;
    let mid = zs + 0x800_0000 * top;
    let low = zp + 0x4_0000 * mid;
    assert(packed == low * 0x2_0000 + micros);
    assert(packed == mid * 0x8_0000_0000 + (zp * 0x2_0000 + micros));
    assert(packed == top * 0x4000_0000_0000_0000 + (zs * 0x8_0000_0000 + zp * 0x2_0000 + micros));
    vstd::arithmetic::div_mod::lemma_fundamental_div_mod_converse(packed, 0x2_0000, low, micros);
    vstd::arithmetic::div_mod::lemma_fundamental_div_mod_converse(
        packed,
        0x8_0000_0000,
        mid,
        zp * 0x2_0000 + micros,
    );
    vstd::arithmetic::div_mod::lemma_fundamental_div_mod_converse(
        packed,
        0x4000_0000_0000_0000,
        top,
        zs * 0x8_0000_0000 + zp * 0x2_0000 + micros,
    );
    assert(low == mid * 0x4_0000 + zp);
    vstd::arithmetic::div_mod::lemma_fundamental_div_mod_converse(low, 0x4_0000, mid, zp);
    assert(mid == top * 0x800_0000 + zs);
    vstd::arithmetic::div_mod::lemma_fundamental_div_mod_converse(mid, 0x800_0000, top, zs);
    vstd::arithmetic::div_mod::lemma_fundamental_div_mod_converse(top, 2, flag, side);
    assert(packed == flag * 0x8000_0000_0000_0000 + (side * 0x4000_0000_0000_0000 + zs
        * 0x8_0000_0000 + zp * 0x2_0000 + micros));
    vstd::arithmetic::div_mod::lemma_fundamental_div_mod_converse(
        packed,
        0x8000_0000_0000_0000,
        flag,
        side * 0x4000_0000_0000_0000 + zs * 0x8_0000_0000 + zp * 0x2_0000 + micros,
    );
    if price >= 0 {
        tvc::zigzag_takes_turns(price);
    } else {
        tvc::zigzag_takes_turns(-price - 1);
    }
    if size >= 0 {
        tvc::zigzag_takes_turns(size);
    } else {
        tvc::zigzag_takes_turns(-size - 1);
    }
}

/// A large change is written behind a mark in full: microseconds, price and size in zigzag order, and
/// the side in the lowest bit of a byte with the flags above it. What was written is read back.
pub proof fn large_change_reads_back(
    v: RingView,
    off: int,
    prev: TradeTick,
    micros: int,
    price: int,
    size: int,
    side: int,
    flags: int,
)
    requires
        0 <= off,
        off + 14 <= v.data.len(),
        off < v.header.index_offset,
        v.data[off] == 0xFF,
        -0x8000_0000 <= micros < 0x8000_0000,
        -0x4000_0000 <= price < 0x4000_0000,
        -0x4000_0000 <= size < 0x4000_0000,
        0 <= side <= 1,
        0 <= flags < 128,
        0 <= prev.timestamp_ns + 1000 * micros <= u64::MAX,
        tvc::le32(v.data, off + 1) == (if micros >= 0 {
            2 * micros
        } else {
            -2 * micros - 1
        }),
        tvc::le32(v.data, off + 5) == (if price >= 0 {
            2 * price
        } else {
            -2 * price - 1
        }),
        tvc::le32(v.data, off + 9) == (if size >= 0 {
            2 * size
        } else {
            -2 * size - 1
        }),
        v.data[off + 13] == side + 2 * flags,
        v.delta_fits(off, prev),
    ensures
        v.delta_at(off, prev) matches Some((t, n)) && {
            &&& t.timestamp_ns == prev.timestamp_ns + 1000 * micros
            &&& t.price_int == prev.price_int + price
            &&& t.size_int == prev.size_int + size
            &&& t.side == side
            &&& t.flags == flags
            &&& t.sequence == prev.sequence + 1
            &&& n == 14
        },
{
    if micros >= 0 {
        tvc::zigzag_takes_turns(micros);
    } else {
        tvc::zigzag_takes_turns(-micros - 1);
    }
    if price >= 0 {
        tvc::zigzag_takes_turns(price);
    } else {
        tvc::zigzag_takes_turns(-price - 1);
    }
    if size >= 0 {
        tvc::zigzag_takes_turns(size);
    } else {
        tvc::zigzag_takes_turns(-size - 1);
    }
    vstd::arithmetic::div_mod::lemma_small_mod(
        (prev.timestamp_ns + 1000 * micros) as nat,
        0x1_0000_0000_0000_0000,
    );
}

/// A full tick takes thirty bytes: time, price, size, side, flags and sequence, each with its lowest
/// byte first. What was written is read back.
pub proof fn full_tick_reads_back(v: RingView, off: int, t: TradeTick)
    requires
        0 <= off,
        off + 30 <= v.data.len(),
        tvc::le64(v.data, off) == t.timestamp_ns,
        tvc::le64(v.data, off + 8) == (if t.price_int >= 0 {
            t.price_int as int
        } else {
            t.price_int + 0x1_0000_0000_0000_0000
        }),
        tvc::le64(v.data, off + 16) == (if t.size_int >= 0 {
            t.size_int as int
        } else {
            t.size_int + 0x1_0000_0000_0000_0000
        }),
        v.data[off + 24] == t.side,
        v.data[off + 25] == t.flags,
        tvc::le32(v.data, off + 26) == t.sequence,
    ensures
        v.anchor_at(off) == Some(t),
{
}

/// A file is accepted exactly where it has room for its header, begins with `TVC3`, is of the second
/// version, and holds an index with at least one anchor and no more than fit behind it.
pub proof fn accepted_files(data: Seq<u8>, header: TvcHeader)
    ensures
        open_fault(data, header) is None <==> {
            &&& data.len() >= 128
            &&& header.magic@ == seq![84u8, 86u8, 67u8, 51u8]
            &&& header.version == 2
            &&& 0 < header.index_offset
            &&& header.index_offset + 4 <= data.len()
            &&& 0 < tvc::le32(data, header.index_offset as int)
            &&& header.index_offset + 4 + 16 * tvc::le32(data, header.index_offset as int)
                <= data.len()
        },
{
}

/// An entry of the index takes sixteen bytes: the number of the tick and then the place of its anchor.
pub proof fn entries_follow_each_other(data: Seq<u8>, start: int, n: nat, i: int)
    requires
        0 <= i < n,
    ensures
        index_entries(data, start, n).len() == n,
        index_entries(data, start, n)[i].tick_index == tvc::le64(data, start + 16 * i) as u64,
        index_entries(data, start, n)[i].byte_offset == tvc::le64(data, start + 16 * i + 8) as u64,
{
}

/// On anchors in time order the search for a time finds the last anchor that is not behind it; it fails
/// where the time is before the first tick or before all anchors.
pub proof fn last_anchor_before_a_time_is_found(v: RingView, target_ns: u64)
    requires
        forall|i: int, j: int|
            0 <= i <= j < v.anchor_times().len() ==> v.anchor_times()[i] <= v.anchor_times()[j],
        forall|i: int| 0 <= i < v.index.len() ==> (#[trigger] v.anchor_tick(i)) is Some,
    ensures
        v.seek_time(target_ns) is Ok <==> target_ns >= v.header.start_time_ns && v.index.len() > 0
            && v.anchor_times()[0] <= target_ns,
        v.seek_time(target_ns) matches Ok((off, index, t)) ==> exists|k: int|
            {
                &&& 0 <= k < v.index.len()
                &&& off == (#[trigger] v.index[k]).byte_offset as usize
                &&& index == v.index[k].tick_index
                &&& Some(t) == v.anchor_tick(k)
                &&& t.timestamp_ns <= target_ns
                &&& k + 1 < v.index.len() ==> v.anchor_times()[k + 1] > target_ns
            },
{
    let times = v.anchor_times();
    let m = v.index.len() as int;
    bisect_splits_sorted(times, target_ns);
    bisect_is_boundary(times, target_ns, 0, m);
    let n = v.anchors_until(target_ns);
    if n > 0 {
        assert(v.anchor_tick(n - 1) is Some);
        assert(times[n - 1] <= target_ns);
        assert(times[0] <= times[n - 1]);
        assert(v.index[n - 1].byte_offset as usize as int == v.index[n - 1].byte_offset as usize);
    }
}

/// On an index in ascending order the anchors that are counted up to a tick are those that do not come
/// behind it: the last of them is the one from which the tick is reached.
pub proof fn anchors_are_counted_up_to_a_tick(v: RingView, tick_index: u64, i: int)
    requires
        forall|i: int, j: int|
            0 <= i <= j < v.index.len() ==> (#[trigger] v.index[i]).tick_index <= (
            #[trigger] v.index[j]).tick_index,
        0 <= i < v.index.len(),
    ensures
        0 <= v.anchors_up_to(tick_index) <= v.index.len(),
        i < v.anchors_up_to(tick_index) <==> v.index[i].tick_index <= tick_index,
{
    let keys = tick_keys(v.index);
    assert forall|i: int, j: int| 0 <= i <= j < keys.len() implies keys[i] <= keys[j] by {
        assert(v.index[i].tick_index <= v.index[j].tick_index);
    }
    bisect_splits_sorted(keys, tick_index);
    bisect_is_boundary(keys, tick_index, 0, keys.len() as int);
    assert(keys[i] == v.index[i].tick_index);
}

} // verus!
