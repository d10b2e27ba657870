//! RingBufferSet: several files under one anchor index.
//! TickBufferSet: decoded files of several instruments, merged in time order.

use crate::buffer::ring_buffer;
use crate::buffer::ring_buffer::{RingBuffer, RingBufferError, RingView};
use crate::buffer::tick_buffer;
use crate::buffer::tick_buffer::{TickBuffer, TickView, TradeFlowStats};
use crate::instrument::InstrumentId;
use crate::order;
use crate::order::stable_order;
use vstd::prelude::*;

verus! {

/// An anchor of one file in the index over all files.
#[derive(Debug)]
pub struct MergedAnchor {
    /// Tick index counted over all files.
    pub global_tick_index: u64,
    pub instrument_id: InstrumentId,
    /// Byte offset of the anchor within its file.
    pub byte_offset: u64,
    /// Tick index within the file.
    pub local_tick_index: u64,
    /// Position of the file in the set.
    pub buffer_idx: usize,
}

impl Clone for MergedAnchor {
    fn clone(&self) -> (r: Self)
        ensures
            r == *self,
    {
        MergedAnchor {
            global_tick_index: self.global_tick_index,
            instrument_id: self.instrument_id.clone(),
            byte_offset: self.byte_offset,
            local_tick_index: self.local_tick_index,
            buffer_idx: self.buffer_idx,
        }
    }
}

/// A file of the set with its instrument.
pub type SetEntry = (InstrumentId, RingBuffer);

/// The ticks in the first `n` files, as the headers state them.
pub open spec fn ticks_before(files: Seq<SetEntry>, n: int) -> int
    decreases n,
{
    if n <= 0 {
        0
    } else {
        ticks_before(files, n - 1) + files[n - 1].1@.header.num_ticks
    }
}

/// Anchor `s` of file `b` in the index over all files.
pub open spec fn merged_anchor(files: Seq<SetEntry>, b: int, s: int) -> MergedAnchor {
    MergedAnchor {
        global_tick_index: (ticks_before(files, b) + files[b].1@.index[s].tick_index) as u64,
        instrument_id: files[b].0,
        byte_offset: files[b].1@.index[s].byte_offset,
        local_tick_index: files[b].1@.index[s].tick_index,
        buffer_idx: b as usize,
    }
}

/// The first `s` anchors of file `b`.
pub open spec fn file_anchors(files: Seq<SetEntry>, b: int, s: int) -> Seq<MergedAnchor> {
    Seq::new(s as nat, |i: int| merged_anchor(files, b, i))
}

/// The anchors of the first `n` files, file by file.
pub open spec fn listed_anchors(files: Seq<SetEntry>, n: int) -> Seq<MergedAnchor>
    decreases n,
{
    if n <= 0 {
        seq![]
    } else {
        listed_anchors(files, n - 1) + file_anchors(
            files,
            n - 1,
            files[n - 1].1@.index.len() as int,
        )
    }
}

/// The tick indices of anchors.
pub open spec fn global_keys(anchors: Seq<MergedAnchor>) -> Seq<u64> {
    Seq::new(anchors.len(), |i: int| anchors[i].global_tick_index)
}

/// Tick counts and the tick indices of all anchors are within `u64`.
pub open spec fn indices_fit(files: Seq<SetEntry>) -> bool {
    &&& ticks_before(files, files.len() as int) <= u64::MAX
    &&& forall|b: int, s: int|
        0 <= b < files.len() && 0 <= s < files[b].1@.index.len() ==> ticks_before(files, b)
            + (#[trigger] files[b].1@.index[s]).tick_index <= u64::MAX
}

/// Tick counts never go down from one file to the next.
pub proof fn ticks_before_ascends(files: Seq<SetEntry>, a: int, b: int)
    requires
        0 <= a <= b <= files.len(),
    ensures
        ticks_before(files, a) <= ticks_before(files, b),
        0 <= ticks_before(files, a),
    decreases b,
{
    if a < b {
        ticks_before_ascends(files, a, b - 1);
    } else if a > 0 {
        ticks_before_ascends(files, a - 1, b - 1);
    }
}

/// Files of one or more instruments with an anchor index over all of them.
#[derive(Debug)]
pub struct RingBufferSet {
    buffers: Vec<(InstrumentId, RingBuffer)>,
    merged_anchors: Vec<MergedAnchor>,
    total_ticks: u64,
}

/// The contents of a `RingBufferSet`.
pub struct RingSetView {
    pub files: Seq<SetEntry>,
    pub anchors: Seq<MergedAnchor>,
    pub total_ticks: int,
}

impl View for RingBufferSet {
    type V = RingSetView;

    closed spec fn view(&self) -> RingSetView {
        RingSetView {
            files: self.buffers@,
            anchors: self.merged_anchors@,
            total_ticks: self.total_ticks as int,
        }
    }
}

impl RingSetView {
    /// The index holds each anchor of each file once, in ascending order of the tick index over
    /// all files, and equal ones in file order.
    pub open spec fn wf(self) -> bool {
        &&& self.total_ticks == ticks_before(self.files, self.files.len() as int)
        &&& exists|p: Seq<usize>|
            #![trigger order::is_stable_order(global_keys(listed_anchors(self.files, self.files.len() as int)), p)]
            {
                let all = listed_anchors(self.files, self.files.len() as int);
                order::is_stable_order(global_keys(all), p) && self.anchors == order::pick(all, p)
            }
    }
}

proof fn lemma_listed_buffers(files: Seq<SetEntry>, n: int, i: int)
    requires
        0 <= n <= files.len() <= usize::MAX,
        0 <= i < listed_anchors(files, n).len(),
    ensures
        listed_anchors(files, n)[i].buffer_idx < n,
    decreases n,
{
    if n > 0 {
        let front = listed_anchors(files, n - 1);
        if i < front.len() {
            lemma_listed_buffers(files, n - 1, i);
        }
    }
}

/// Each anchor of the index names a file of the set.
pub proof fn anchors_name_files(v: RingSetView)
    requires
        v.wf(),
        v.files.len() <= usize::MAX,
    ensures
        forall|i: int|
            0 <= i < v.anchors.len() ==> (#[trigger] v.anchors[i]).buffer_idx < v.files.len(),
{
    let n = v.files.len() as int;
    let all = listed_anchors(v.files, n);
    let p = choose|p: Seq<usize>|
        #![trigger order::is_stable_order(global_keys(all), p)]
        order::is_stable_order(global_keys(all), p) && v.anchors == order::pick(all, p);
    assert forall|i: int| 0 <= i < v.anchors.len() implies (#[trigger] v.anchors[i]).buffer_idx
        < v.files.len() by {
        assert(v.anchors[i] == all[p[i] as int]);
        lemma_listed_buffers(v.files, n, p[i] as int);
    }
}

/// The tick indices of the index ascend.
pub proof fn anchors_ascend(v: RingSetView)
    requires
        v.wf(),
    ensures
        forall|i: int, j: int|
            0 <= i <= j < v.anchors.len() ==> global_keys(v.anchors)[i] <= global_keys(
                v.anchors,
            )[j],
{
    let n = v.files.len() as int;
    let all = listed_anchors(v.files, n);
    let p = choose|p: Seq<usize>|
        #![trigger order::is_stable_order(global_keys(all), p)]
        order::is_stable_order(global_keys(all), p) && v.anchors == order::pick(all, p);
    order::picked_keys_ascend(global_keys(all), p);
    assert(global_keys(v.anchors) =~= order::pick(global_keys(all), p));
}

impl RingBufferSet {
    /// Collects the anchors of all files, file by file.
    fn collect_anchors(files: &Vec<(InstrumentId, RingBuffer)>) -> (r: (Vec<MergedAnchor>, u64))
        requires
            indices_fit(files@),
        ensures
            r.0@ == listed_anchors(files@, files@.len() as int),
            r.1 == ticks_before(files@, files@.len() as int),
    {
        let mut all: Vec<MergedAnchor> = Vec::new();
        let mut start: u64 = 0;
        let mut b: usize = 0;
        while b < files.len()
            invariant
                b <= files@.len(),
                indices_fit(files@),
                start == ticks_before(files@, b as int),
                all@ == listed_anchors(files@, b as int),
            decreases files@.len() - b,
        {
            let index = files[b].1.anchor_index();
            let ghost front = all@;
            let mut s: usize = 0;
            assert(front + file_anchors(files@, b as int, 0) =~= front);
            while s < index.len()
                invariant
                    b < files@.len(),
                    s <= index@.len(),
                    index@ == files@[b as int].1@.index,
                    indices_fit(files@),
                    start == ticks_before(files@, b as int),
                    all@ == front + file_anchors(files@, b as int, s as int),
                decreases index@.len() - s,
            {
                let entry = &index[s];
                assert(ticks_before(files@, b as int)
                    + files@[b as int].1@.index[s as int].tick_index <= u64::MAX);
                all.push(
                    MergedAnchor {
                        global_tick_index: start + entry.tick_index,
                        instrument_id: files[b].0.clone(),
                        byte_offset: entry.byte_offset,
                        local_tick_index: entry.tick_index,
                        buffer_idx: b,
                    },
                );
                s = s + 1;
                assert(all@ =~= front + file_anchors(files@, b as int, s as int));
            }
            proof {
                ticks_before_ascends(files@, b + 1, files@.len() as int);
            }
            start = start + files[b].1.num_ticks();
            b = b + 1;
        }
        (all, start)
    }

    /// The set of files that have been opened, in the order given.
    pub fn from_buffers(files: Vec<(InstrumentId, RingBuffer)>) -> (r: Self)
        requires
            indices_fit(files@),
        ensures
            r@.files == files@,
            r@.wf(),
    {
        let (all, total_ticks) = RingBufferSet::collect_anchors(&files);
        let mut keys: Vec<u64> = Vec::new();
        let mut i: usize = 0;
        while i < all.len()
            invariant
                i <= all@.len(),
                keys@ == global_keys(all@).take(i as int),
            decreases all@.len() - i,
        {
            keys.push(all[i].global_tick_index);
            i = i + 1;
            assert(keys@ =~= global_keys(all@).take(i as int));
        }
        assert(keys@ =~= global_keys(all@));
        let p = stable_order(&keys);
        let mut merged: Vec<MergedAnchor> = Vec::new();
        let mut j: usize = 0;
        while j < p.len()
            invariant
                j <= p@.len(),
                order::is_stable_order(global_keys(all@), p@),
                merged@ == order::pick(all@, p@).take(j as int),
            decreases p@.len() - j,
        {
            assert(p@[j as int] < global_keys(all@).len());
            merged.push(all[p[j]].clone());
            j = j + 1;
            assert(merged@ =~= order::pick(all@, p@).take(j as int));
        }
        assert(merged@ =~= order::pick(all@, p@));
        let r = RingBufferSet { buffers: files, merged_anchors: merged, total_ticks };
        proof {
            let view = r@;
            assert(order::is_stable_order(
                global_keys(listed_anchors(view.files, view.files.len() as int)),
                p@,
            ));
            assert(view.anchors == order::pick(all@, p@));
        }
        r
    }

    /// Whether tick counts and tick indices over all files are within range.
    pub fn indices_in_range(files: &Vec<(InstrumentId, RingBuffer)>) -> (r: bool)
        ensures
            r == indices_fit(files@),
    {
        let mut start: u64 = 0;
        let mut b: usize = 0;
        while b < files.len()
            invariant
                b <= files@.len(),
                start == ticks_before(files@, b as int),
                forall|c: int, s: int|
                    0 <= c < b && 0 <= s < files@[c].1@.index.len() ==> ticks_before(files@, c)
                        + (#[trigger] files@[c].1@.index[s]).tick_index <= u64::MAX,
            decreases files@.len() - b,
        {
            let index = files[b].1.anchor_index();
            let mut s: usize = 0;
            while s < index.len()
                invariant
                    b < files@.len(),
                    s <= index@.len(),
                    index@ == files@[b as int].1@.index,
                    start == ticks_before(files@, b as int),
                    forall|t: int|
                        0 <= t < s ==> start + (#[trigger] files@[b as int].1@.index[t]).tick_index
                            <= u64::MAX,
                decreases index@.len() - s,
            {
                if start.checked_add(index[s].tick_index).is_none() {
                    assert(ticks_before(files@, b as int)
                        + files@[b as int].1@.index[s as int].tick_index > u64::MAX);
                    return false;
                }
                s = s + 1;
            }
            match start.checked_add(files[b].1.num_ticks()) {
                Some(n) => {
                    start = n;
                },
                None => {
                    proof {
                        ticks_before_ascends(files@, b + 1, files@.len() as int);
                    }
                    return false;
                },
            }
            b = b + 1;
        }
        true
    }

    /// The number of instruments.
    pub fn num_instruments(&self) -> (r: usize)
        ensures
            r == distinct_ids(self@.files, self@.files.len() as int).len(),
    {
        self.instrument_ids().len()
    }

    /// The ticks of all files together.
    pub fn total_ticks(&self) -> (r: u64)
        ensures
            r == self@.total_ticks,
    {
        self.total_ticks
    }

    /// The number of anchors of all files together.
    pub fn num_anchors(&self) -> (r: usize)
        ensures
            r == self@.anchors.len(),
    {
        self.merged_anchors.len()
    }

    /// The first file of an instrument.
    pub fn get(&self, instrument_id: &InstrumentId) -> (r: Option<&RingBuffer>)
        ensures
            match r {
                Some(rb) => exists|i: int|
                    0 <= i < self@.files.len() && self@.files[i].0@ == instrument_id@
                        && self@.files[i].1 == *rb && forall|j: int|
                        0 <= j < i ==> (#[trigger] self@.files[j]).0@ != instrument_id@,
                None => forall|j: int|
                    0 <= j < self@.files.len() ==> (#[trigger] self@.files[j]).0@
                        != instrument_id@,
            },
    {
        let mut i: usize = 0;
        while i < self.buffers.len()
            invariant
                i <= self.buffers@.len(),
                forall|j: int|
                    0 <= j < i ==> (#[trigger] self@.files[j]).0@ != instrument_id@,
            decreases self.buffers@.len() - i,
        {
            if self.buffers[i].0.same(instrument_id) {
                assert(self@.files[i as int].0@ == instrument_id@);
                return Some(&self.buffers[i].1);
            }
            i = i + 1;
        }
        None
    }

    /// The anchor index over all files.
    pub fn merged_anchors(&self) -> (r: &[MergedAnchor])
        ensures
            r@ == self@.anchors,
    {
        self.merged_anchors.as_slice()
    }

    /// The place in the index of the last anchor whose tick index over all files is at most
    /// `global_tick_index`.
    fn place_of_tick(&self, global_tick_index: u64) -> (r: Option<usize>)
        requires
            self@.wf(),
        ensures
            match r {
                Some(i) => is_anchor_of(self@, global_tick_index, i as int)
                    && self@.anchors[i as int].buffer_idx < self@.files.len(),
                None => forall|j: int|
                    0 <= j < self@.anchors.len() ==> (
                    #[trigger] self@.anchors[j]).global_tick_index > global_tick_index,
            },
    {
        let ghost keys = global_keys(self@.anchors);
        let mut left: usize = 0;
        let mut right: usize = self.merged_anchors.len();
        proof {
            anchors_ascend(self@);
            let nfiles: usize = self.buffers.len();
            anchors_name_files(self@);
        }
        while left < right
            invariant
                left <= right <= self.merged_anchors@.len(),
                keys == global_keys(self@.anchors),
                forall|i: int, j: int| 0 <= i <= j < keys.len() ==> keys[i] <= keys[j],
                forall|i: int| 0 <= i < left ==> #[trigger] keys[i] <= global_tick_index,
                forall|i: int| right <= i < keys.len() ==> #[trigger] keys[i] > global_tick_index,
            decreases right - left,
        {
            let mid: usize = left + (right - left) / 2;
            assert(keys[mid as int] == self.merged_anchors@[mid as int].global_tick_index);
            if self.merged_anchors[mid].global_tick_index <= global_tick_index {
                left = mid + 1;
            } else {
                right = mid;
            }
        }
        assert forall|j: int| left <= j < self@.anchors.len() implies (
        #[trigger] self@.anchors[j]).global_tick_index > global_tick_index by {
            assert(keys[j] > global_tick_index);
        }
        if left == 0 {
            return None;
        }
        assert(keys[left - 1] <= global_tick_index);
        assert(self@.anchors[left - 1].buffer_idx < self@.files.len());
        Some(left - 1)
    }

    /// The last anchor whose tick index over all files is at most `global_tick_index`, with its
    /// file.
    pub fn seek_to_global_tick(&self, global_tick_index: u64) -> (r: Option<
        (&MergedAnchor, &RingBuffer),
    >)
        requires
            self@.wf(),
        ensures
            match r {
                Some((a, rb)) => exists|i: int| #[trigger]
                    is_anchor_of(self@, global_tick_index, i) && self@.anchors[i] == *a
                        && a.buffer_idx < self@.files.len() && self@.files[a.buffer_idx as int].1
                        == *rb,
                None => forall|j: int|
                    0 <= j < self@.anchors.len() ==> (
                    #[trigger] self@.anchors[j]).global_tick_index > global_tick_index,
            },
    {
        match self.place_of_tick(global_tick_index) {
            Some(i) => {
                let anchor = &self.merged_anchors[i];
                Some((anchor, &self.buffers[anchor.buffer_idx].1))
            },
            None => None,
        }
    }

    /// Where iteration from a tick index over all files starts, which is at the last anchor that is
    /// not behind it: file, byte offset, tick index within the file and anchor slot.
    pub fn iter_state_from_global_tick(&self, global_tick_index: u64) -> (r: Option<
        (&RingBuffer, usize, u64, usize),
    >)
        requires
            self@.wf(),
        ensures
            match r {
                Some((rb, off, local, slot)) => exists|i: int| #[trigger]
                    is_anchor_of(self@, global_tick_index, i) && is_iter_state(
                        self@,
                        self@.anchors[i],
                        *rb,
                        off,
                        local,
                        slot as int,
                    ),
                None => forall|j: int|
                    0 <= j < self@.anchors.len() ==> (
                    #[trigger] self@.anchors[j]).global_tick_index > global_tick_index,
            },
    {
        let place: usize = match self.place_of_tick(global_tick_index) {
            Some(i) => i,
            None => {
                return None;
            },
        };
        let anchor = &self.merged_anchors[place];
        let rb = &self.buffers[anchor.buffer_idx].1;
        let index = rb.anchor_index();
        let mut slot: usize = 0;
        while slot < index.len() && index[slot].byte_offset != anchor.byte_offset
            invariant
                slot <= index@.len(),
                forall|i: int|
                    0 <= i < slot ==> (#[trigger] index@[i]).byte_offset != anchor.byte_offset,
            decreases index@.len() - slot,
        {
            slot = slot + 1;
        }
        let slot: usize = if slot < index.len() {
            slot
        } else {
            0
        };
        assert(is_anchor_of(self@, global_tick_index, place as int));
        Some((rb, anchor.byte_offset as usize, anchor.local_tick_index, slot))
    }

    /// The instruments of the files, each once, in order of first occurrence.
    pub fn instrument_ids(&self) -> (r: Vec<InstrumentId>)
        ensures
            r@ == distinct_ids(self@.files, self@.files.len() as int),
    {
        let mut ids: Vec<InstrumentId> = Vec::new();
        let mut i: usize = 0;
        while i < self.buffers.len()
            invariant
                i <= self.buffers@.len(),
                ids@ == distinct_ids(self@.files, i as int),
            decreases self.buffers@.len() - i,
        {
            if !holds_id(&ids, &self.buffers[i].0) {
                ids.push(self.buffers[i].0.clone());
            }
            i = i + 1;
        }
        ids
    }

    /// The files with their instruments.
    pub fn buffers(&self) -> (r: &[(InstrumentId, RingBuffer)])
        ensures
            r@ == self@.files,
    {
        self.buffers.as_slice()
    }
}

/// Anchor `i` is the last one whose tick index over all files is at most a tick index.
pub open spec fn is_anchor_of(v: RingSetView, global_tick_index: u64, i: int) -> bool {
    &&& 0 <= i < v.anchors.len()
    &&& v.anchors[i].global_tick_index <= global_tick_index
    &&& forall|j: int|
        i < j < v.anchors.len() ==> (#[trigger] v.anchors[j]).global_tick_index
            > global_tick_index
}

/// Iteration from an anchor starts in this file, at this byte offset, tick index and anchor slot.
pub open spec fn is_iter_state(
    v: RingSetView,
    a: MergedAnchor,
    rb: RingBuffer,
    off: usize,
    local: u64,
    slot: int,
) -> bool {
    &&& a.buffer_idx < v.files.len()
    &&& rb == v.files[a.buffer_idx as int].1
    &&& off == a.byte_offset as usize
    &&& local == a.local_tick_index
    &&& slot_of(rb@, a.byte_offset, slot)
}

/// The first slot of the file's index with the byte offset, or 0 where there is none.
pub open spec fn slot_of(v: RingView, byte_offset: u64, slot: int) -> bool {
    if exists|i: int| 0 <= i < v.index.len() && (#[trigger] v.index[i]).byte_offset == byte_offset {
        &&& 0 <= slot < v.index.len()
        &&& v.index[slot].byte_offset == byte_offset
        &&& forall|i: int| 0 <= i < slot ==> (#[trigger] v.index[i]).byte_offset != byte_offset
    } else {
        slot == 0
    }
}

/// One of the instruments has this name.
pub open spec fn has_id(ids: Seq<InstrumentId>, id: InstrumentId) -> bool {
    exists|i: int| 0 <= i < ids.len() && (#[trigger] ids[i])@ == id@
}

/// The instruments of the first `n` entries, each once, in order of first occurrence.
pub open spec fn distinct_ids<T>(entries: Seq<(InstrumentId, T)>, n: int) -> Seq<InstrumentId>
    decreases n,
{
    if n <= 0 {
        seq![]
    } else {
        let front = distinct_ids(entries, n - 1);
        if has_id(front, entries[n - 1].0) {
            front
        } else {
            front.push(entries[n - 1].0)
        }
    }
}

/// Whether one of the instruments has this name.
fn holds_id(ids: &Vec<InstrumentId>, id: &InstrumentId) -> (r: bool)
    ensures
        r == has_id(ids@, *id),
{
    let mut i: usize = 0;
    while i < ids.len()
        invariant
            i <= ids@.len(),
            forall|j: int| 0 <= j < i ==> (#[trigger] ids@[j])@ != id@,
        decreases ids@.len() - i,
    {
        if ids[i].same(id) {
            assert(ids@[i as int]@ == id@);
            return true;
        }
        i = i + 1;
    }
    false
}

// ---------------------------------------------------------------------------
// TickBufferSet
// ---------------------------------------------------------------------------

/// A decoded file with its instrument.
pub type TickEntry = (InstrumentId, TickBuffer);

/// Decoded files of one or more instruments.
#[derive(Debug)]
pub struct TickBufferSet {
    buffers: Vec<(InstrumentId, TickBuffer)>,
    instrument_ids: Vec<InstrumentId>,
}

impl View for TickBufferSet {
    type V = Seq<TickEntry>;

    closed spec fn view(&self) -> Seq<TickEntry> {
        self.buffers@
    }
}

/// The ticks in the first `n` decoded files.
pub open spec fn decoded_before(files: Seq<TickEntry>, n: int) -> int
    decreases n,
{
    if n <= 0 {
        0
    } else {
        decoded_before(files, n - 1) + files[n - 1].1@.stats.len()
    }
}

proof fn lemma_decoded_ascends(files: Seq<TickEntry>, a: int, b: int)
    requires
        0 <= a <= b <= files.len(),
    ensures
        0 <= decoded_before(files, a) <= decoded_before(files, b),
    decreases b,
{
    if a < b {
        lemma_decoded_ascends(files, a, b - 1);
    } else if a > 0 {
        lemma_decoded_ascends(files, a - 1, b - 1);
    }
}

/// The files before the first one without ticks decode.
pub open spec fn files_decode(files: Seq<SetEntry>, num_buckets: u32) -> bool {
    forall|i: int|
        0 <= i < files.len() ==> TickBuffer::decodes((#[trigger] files[i]).1, num_buckets)
}

/// What file `i` decodes to.
pub open spec fn decoded(files: Seq<SetEntry>, i: int, num_buckets: u32) -> TickView {
    let rb = files[i].1;
    tick_buffer::tick_view(
        rb@.ticks(),
        tick_buffer::bucket_size_of(rb@.header.num_ticks as int, num_buckets as int),
        rb.id(),
    )
}

impl TickBufferSet {
    /// The instruments that are listed are those of the files.
    pub closed spec fn wf(self) -> bool {
        self.instrument_ids@ == distinct_ids(self.buffers@, self.buffers@.len() as int)
    }

    /// Decodes files that have been opened. A file without ticks is refused.
    pub fn from_ring_buffers(
        ring_buffers: Vec<(InstrumentId, RingBuffer)>,
        num_buckets: u32,
    ) -> (r: Result<Self, RingBufferError>)
        requires
            files_decode(ring_buffers@, num_buckets),
        ensures
            match r {
                Ok(set) => {
                    &&& set.wf()
                    &&& set@.len() == ring_buffers@.len()
                    &&& forall|i: int|
                        0 <= i < ring_buffers@.len() ==> {
                            &&& (#[trigger] ring_buffers@[i]).1@.header.num_ticks > 0
                            &&& set@[i].0 == ring_buffers@[i].0
                            &&& set@[i].1@ == decoded(ring_buffers@, i, num_buckets)
                        }
                },
                Err(e) => {
                    &&& e@ == ring_buffer::Fault::InvalidHeader("Buffer has no ticks"@)
                    &&& exists|i: int|
                        0 <= i < ring_buffers@.len() && (
                        #[trigger] ring_buffers@[i]).1@.header.num_ticks == 0
                },
            },
    {
        let mut buffers: Vec<(InstrumentId, TickBuffer)> = Vec::new();
        let mut instrument_ids: Vec<InstrumentId> = Vec::new();
        let mut i: usize = 0;
        while i < ring_buffers.len()
            invariant
                i <= ring_buffers@.len(),
                files_decode(ring_buffers@, num_buckets),
                buffers@.len() == i,
                instrument_ids@ == distinct_ids(buffers@, i as int),
                forall|j: int|
                    0 <= j < i ==> {
                        &&& (#[trigger] ring_buffers@[j]).1@.header.num_ticks > 0
                        &&& buffers@[j].0 == ring_buffers@[j].0
                        &&& buffers@[j].1@ == decoded(ring_buffers@, j, num_buckets)
                    },
            decreases ring_buffers@.len() - i,
        {
            assert(TickBuffer::decodes(ring_buffers@[i as int].1, num_buckets));
            match TickBuffer::from_ring_buffer(&ring_buffers[i].1, num_buckets) {
                Ok(tb) => {
                    let id = ring_buffers[i].0.clone();
                    let ghost before = buffers@;
                    if !holds_id(&instrument_ids, &id) {
                        instrument_ids.push(id.clone());
                    }
                    buffers.push((id, tb));
                    proof {
                        lemma_distinct_prefix(before, buffers@, i as int);
                    }
                },
                Err(e) => {
                    assert(ring_buffers@[i as int].1@.header.num_ticks == 0);
                    return Err(RingBufferError::InvalidHeader(e.message()));
                },
            }
            i = i + 1;
        }
        Ok(TickBufferSet { buffers, instrument_ids })
    }

    /// The number of instruments.
    pub fn num_instruments(&self) -> (r: usize)
        requires
            self.wf(),
        ensures
            r == distinct_ids(self@, self@.len() as int).len(),
    {
        self.instrument_ids.len()
    }

    /// The instruments, in order of first occurrence.
    pub fn instrument_ids(&self) -> (r: &[InstrumentId])
        requires
            self.wf(),
        ensures
            r@ == distinct_ids(self@, self@.len() as int),
    {
        self.instrument_ids.as_slice()
    }

    /// The ticks of all files together.
    pub fn total_ticks(&self) -> (r: u64)
        requires
            decoded_before(self@, self@.len() as int) <= u64::MAX,
        ensures
            r == decoded_before(self@, self@.len() as int),
    {
        let mut total: u64 = 0;
        let mut i: usize = 0;
        while i < self.buffers.len()
            invariant
                i <= self.buffers@.len(),
                decoded_before(self@, self@.len() as int) <= u64::MAX,
                total == decoded_before(self@, i as int),
            decreases self.buffers@.len() - i,
        {
            proof {
                lemma_decoded_ascends(self@, i + 1, self@.len() as int);
            }
            total = total + self.buffers[i].1.num_ticks();
            i = i + 1;
        }
        total
    }

    /// The first file of an instrument.
    pub fn get(&self, instrument_id: &InstrumentId) -> (r: Option<&TickBuffer>)
        ensures
            match r {
                Some(tb) => exists|i: int|
                    first_of(self@, instrument_id@, i) && self@[i].1 == *tb,
                None => forall|j: int|
                    0 <= j < self@.len() ==> (#[trigger] self@[j]).0@ != instrument_id@,
            },
    {
        let mut i: usize = 0;
        while i < self.buffers.len()
            invariant
                i <= self.buffers@.len(),
                forall|j: int| 0 <= j < i ==> (#[trigger] self@[j]).0@ != instrument_id@,
            decreases self.buffers@.len() - i,
        {
            if self.buffers[i].0.same(instrument_id) {
                assert(first_of(self@, instrument_id@, i as int));
                return Some(&self.buffers[i].1);
            }
            i = i + 1;
        }
        None
    }

    /// The files with their instruments.
    pub fn buffers(&self) -> (r: &[(InstrumentId, TickBuffer)])
        ensures
            r@ == self@,
    {
        self.buffers.as_slice()
    }
}

proof fn lemma_distinct_prefix<T>(
    a: Seq<(InstrumentId, T)>,
    b: Seq<(InstrumentId, T)>,
    n: int,
)
    requires
        n <= a.len(),
        n <= b.len(),
        forall|i: int| 0 <= i < n ==> a[i].0 == b[i].0,
    ensures
        distinct_ids(a, n) == distinct_ids(b, n),
    decreases n,
{
    if n > 0 {
        lemma_distinct_prefix(a, b, n - 1);
    }
}

/// Entry `i` is the first one of the instrument.
pub open spec fn first_of<T>(
    entries: Seq<(InstrumentId, T)>,
    id: (Seq<char>, Seq<char>),
    i: int,
) -> bool {
    &&& 0 <= i < entries.len()
    &&& entries[i].0@ == id
    &&& forall|j: int| 0 <= j < i ==> (#[trigger] entries[j]).0@ != id
}

/// The instruments of a set are listed once each, and all of them.
pub proof fn distinct_ids_are_all_once<T>(entries: Seq<(InstrumentId, T)>, n: int)
    requires
        0 <= n <= entries.len(),
    ensures
        forall|i: int, j: int|
            0 <= i < j < distinct_ids(entries, n).len() ==> (#[trigger] distinct_ids(
                entries,
                n,
            )[i])@ != (#[trigger] distinct_ids(entries, n)[j])@,
        forall|i: int| 0 <= i < n ==> has_id(distinct_ids(entries, n), (#[trigger] entries[i]).0),
    decreases n,
{
    if n > 0 {
        distinct_ids_are_all_once(entries, n - 1);
        let front = distinct_ids(entries, n - 1);
        let all = distinct_ids(entries, n);
        if !has_id(front, entries[n - 1].0) {
            assert forall|i: int, j: int| 0 <= i < j < all.len() implies (#[trigger] all[i])@ != (
            #[trigger] all[j])@ by {
                assert(all[i] == front[i]);
                if j < front.len() {
                    assert(all[j] == front[j]);
                }
            }
            assert(all[front.len() as int]@ == entries[n - 1].0@);
        }
        assert forall|i: int| 0 <= i < n implies has_id(all, (#[trigger] entries[i]).0) by {
            if i < n - 1 {
                assert(has_id(front, entries[i].0));
                let k = choose|k: int| 0 <= k < front.len() && (#[trigger] front[k])@
                    == entries[i].0@;
                assert(all[k]@ == entries[i].0@);
            }
        }
    }
}

// ---------------------------------------------------------------------------
// MergeCursor
// ---------------------------------------------------------------------------

/// A tick of one of several instruments.
#[derive(Debug)]
pub struct MultiInstrumentEvent<'a> {
    pub instrument_id: InstrumentId,
    pub tick: &'a TradeFlowStats,
}

/// The ticks of one file and the position of the next one.
pub struct Lane {
    pub id: InstrumentId,
    pub stats: Seq<TradeFlowStats>,
    pub next: int,
}

impl Lane {
    /// A tick is left.
    pub open spec fn has_head(self) -> bool {
        0 <= self.next < self.stats.len()
    }

    /// The time of the next tick; the largest number where none is left.
    pub open spec fn head_time(self) -> u64 {
        if self.has_head() {
            self.stats[self.next].timestamp_ns
        } else {
            u64::MAX
        }
    }

    /// The ticks are in time order.
    pub open spec fn in_time_order(self) -> bool {
        forall|i: int, j: int|
            0 <= i <= j < self.stats.len() ==> self.stats[i].timestamp_ns
                <= self.stats[j].timestamp_ns
    }
}

/// The first of the first `n` lanes whose next tick is earliest; a tick at the largest time does
/// not count.
pub open spec fn earliest(lanes: Seq<Lane>, n: int) -> Option<int>
    decreases n,
{
    if n <= 0 {
        None
    } else {
        let best = earliest(lanes, n - 1);
        let limit = match best {
            Some(i) => lanes[i].head_time(),
            None => u64::MAX,
        };
        if lanes[n - 1].has_head() && lanes[n - 1].head_time() < limit {
            Some(n - 1)
        } else {
            best
        }
    }
}

/// The lane that `earliest` names has the earliest next tick.
pub proof fn earliest_is_earliest(lanes: Seq<Lane>, n: int)
    requires
        0 <= n <= lanes.len(),
    ensures
        match earliest(lanes, n) {
            Some(i) => 0 <= i < n && lanes[i].has_head() && lanes[i].head_time() < u64::MAX
                && forall|j: int|
                0 <= j < n ==> lanes[i].head_time() <= (#[trigger] lanes[j]).head_time(),
            None => forall|j: int| 0 <= j < n ==> (#[trigger] lanes[j]).head_time() == u64::MAX,
        },
    decreases n,
{
    if n > 0 {
        earliest_is_earliest(lanes, n - 1);
    }
}

/// The lanes behind the delivery of the next tick of lane `i`.
pub open spec fn delivered(lanes: Seq<Lane>, i: int) -> Seq<Lane> {
    lanes.update(i, Lane { id: lanes[i].id, stats: lanes[i].stats, next: lanes[i].next + 1 })
}

/// Ticks are delivered in time order: of lanes in time order, the tick that comes next is not
/// before the one delivered.
pub proof fn delivery_is_in_time_order(lanes: Seq<Lane>)
    requires
        forall|i: int| 0 <= i < lanes.len() ==> (#[trigger] lanes[i]).in_time_order(),
        earliest(lanes, lanes.len() as int) is Some,
    ensures
        ({
            let i = earliest(lanes, lanes.len() as int)->0;
            let rest = delivered(lanes, i);
            earliest(rest, rest.len() as int) matches Some(j) ==> lanes[i].head_time()
                <= rest[j].head_time()
        }),
{
    let n = lanes.len() as int;
    earliest_is_earliest(lanes, n);
    let i = earliest(lanes, n)->0;
    let rest = delivered(lanes, i);
    earliest_is_earliest(rest, n);
    if let Some(j) = earliest(rest, n) {
        if j != i {
            assert(rest[j] == lanes[j]);
        }
    }
}

/// The ticks that the lanes still hold.
pub open spec fn ticks_left(lanes: Seq<Lane>, n: int) -> int
    decreases n,
{
    if n <= 0 {
        0
    } else {
        ticks_left(lanes, n - 1) + (lanes[n - 1].stats.len() - lanes[n - 1].next)
    }
}

/// Each delivery takes one tick.
pub proof fn delivery_takes_one(lanes: Seq<Lane>, i: int, n: int)
    requires
        0 <= n <= lanes.len(),
        0 <= i < lanes.len(),
    ensures
        ticks_left(delivered(lanes, i), n) == ticks_left(lanes, n) - if i < n {
            1int
        } else {
            0
        },
    decreases n,
{
    if n > 0 {
        delivery_takes_one(lanes, i, n - 1);
    }
}

/// The next tick of a file.
#[derive(Debug)]
struct MergeState<'a> {
    instrument_id: InstrumentId,
    buffer: &'a TickBuffer,
    next_index: usize,
}

impl<'a> MergeState<'a> {
    spec fn lane(self) -> Lane {
        Lane {
            id: self.instrument_id,
            stats: self.buffer@.stats,
            next: self.next_index as int,
        }
    }
}

/// Walk over the ticks of several files in time order.
#[derive(Debug)]
pub struct MergeCursor<'a> {
    iterators: Vec<MergeState<'a>>,
    current_event: Option<MultiInstrumentEvent<'a>>,
}

/// The event that the next tick of a lane makes.
pub open spec fn event_of(lane: Lane) -> (InstrumentId, TradeFlowStats) {
    (lane.id, lane.stats[lane.next])
}

/// An event means a tick of an instrument.
pub open spec fn event_means(
    e: Option<MultiInstrumentEvent<'_>>,
    m: Option<(InstrumentId, TradeFlowStats)>,
) -> bool {
    match e {
        Some(ev) => m == Some((ev.instrument_id, *ev.tick)),
        None => m is None,
    }
}

/// The event that comes next and the lanes behind it.
pub open spec fn pulled(lanes: Seq<Lane>) -> (Option<(InstrumentId, TradeFlowStats)>, Seq<Lane>) {
    match earliest(lanes, lanes.len() as int) {
        Some(i) => (Some(event_of(lanes[i])), delivered(lanes, i)),
        None => (None, lanes),
    }
}

/// The lanes of a set in front of the first tick: one for each file, in their order.
pub open spec fn starts(lanes: Seq<Lane>, files: Seq<TickEntry>) -> bool {
    &&& lanes.len() == files.len()
    &&& forall|k: int|
        0 <= k < files.len() ==> #[trigger] lanes[k] == Lane {
            id: files[k].0,
            stats: files[k].1@.stats,
            next: 0,
        }
}

impl<'a> MergeCursor<'a> {
    /// The lanes behind the current event.
    pub closed spec fn lanes(self) -> Seq<Lane> {
        Seq::new(self.iterators@.len(), |i: int| self.iterators@[i].lane())
    }

    /// The current event.
    pub closed spec fn current(self) -> Option<(InstrumentId, TradeFlowStats)> {
        match self.current_event {
            Some(e) => Some((e.instrument_id, *e.tick)),
            None => None,
        }
    }

    fn new(buffer_set: &'a TickBufferSet) -> (r: Self)
        ensures
            exists|lanes: Seq<Lane>| #[trigger]
                starts(lanes, buffer_set@) && pulled(lanes) == (r.current(), r.lanes()),
    {
        let mut iterators: Vec<MergeState<'a>> = Vec::new();
        let mut k: usize = 0;
        while k < buffer_set.buffers.len()
            invariant
                k <= buffer_set@.len(),
                iterators@.len() == k,
                forall|j: int|
                    0 <= j < k ==> {
                        &&& (#[trigger] iterators@[j]).instrument_id == buffer_set@[j].0
                        &&& iterators@[j].next_index == 0
                        &&& iterators@[j].buffer@.stats == buffer_set@[j].1@.stats
                    },
            decreases buffer_set@.len() - k,
        {
            iterators.push(
                MergeState {
                    instrument_id: buffer_set.buffers[k].0.clone(),
                    buffer: &buffer_set.buffers[k].1,
                    next_index: 0,
                },
            );
            k = k + 1;
        }
        let mut cursor = MergeCursor { iterators, current_event: None };
        let ghost first = cursor.lanes();
        assert forall|j: int| 0 <= j < buffer_set@.len() implies #[trigger] first[j] == (Lane {
            id: buffer_set@[j].0,
            stats: buffer_set@[j].1@.stats,
            next: 0,
        }) by {
            assert(first[j] == cursor.iterators@[j].lane());
        }
        assert(starts(first, buffer_set@));
        cursor.find_next();
        cursor
    }

    /// Takes the earliest tick.
    fn find_next(&mut self)
        ensures
            pulled(old(self).lanes()) == (final(self).current(), final(self).lanes()),
    {
        let ghost lanes = self.lanes();
        let mut earliest_ts: u64 = u64::MAX;
        let mut earliest_idx: Option<usize> = None;
        let mut i: usize = 0;
        while i < self.iterators.len()
            invariant
                i <= self.iterators@.len(),
                lanes == self.lanes(),
                lanes == old(self).lanes(),
                match earliest_idx {
                    Some(k) => earliest(lanes, i as int) == Some(k as int) && k < i
                        && earliest_ts == lanes[k as int].head_time()
                        && lanes[k as int].has_head(),
                    None => earliest(lanes, i as int) is None && earliest_ts == u64::MAX,
                },
            decreases self.iterators@.len() - i,
        {
            let state = &self.iterators[i];
            assert(lanes[i as int] == state.lane());
            match state.buffer.get(state.next_index) {
                Some(tick) => {
                    if tick.timestamp_ns < earliest_ts {
                        earliest_ts = tick.timestamp_ns;
                        earliest_idx = Some(i);
                    }
                },
                None => {},
            }
            i = i + 1;
        }
        match earliest_idx {
            Some(idx) => {
                assert(lanes[idx as int] == self.iterators@[idx as int].lane());
                let buffer: &'a TickBuffer = self.iterators[idx].buffer;
                let next_index: usize = self.iterators[idx].next_index;
                let instrument_id = self.iterators[idx].instrument_id.clone();
                match buffer.get(next_index) {
                    Some(tick) => {
                        let ghost before = self.iterators@;
                        self.current_event = Some(
                            MultiInstrumentEvent { instrument_id: instrument_id.clone(), tick },
                        );
                        self.iterators.set(
                            idx,
                            MergeState { instrument_id, buffer, next_index: next_index + 1 },
                        );
                        assert(self.lanes() =~= delivered(lanes, idx as int));
                    },
                    None => vstd::pervasive::unreached(),
                }
            },
            None => {
                self.current_event = None;
                assert(self.lanes() =~= lanes);
            },
        }
    }

    /// The current event.
    pub fn peek(&self) -> (r: Option<&MultiInstrumentEvent<'a>>)
        ensures
            match r {
                Some(e) => self.current() == Some((e.instrument_id, *e.tick)),
                None => self.current() is None,
            },
    {
        self.current_event.as_ref()
    }

    /// Gives the current event and moves to the next one.
    pub fn advance(&mut self) -> (r: Option<MultiInstrumentEvent<'a>>)
        ensures
            event_means(r, old(self).current()),
            pulled(old(self).lanes()) == (final(self).current(), final(self).lanes()),
    {
        let result = self.current_event.take();
        assert(self.lanes() =~= old(self).lanes());
        self.find_next();
        result
    }

    /// Gives the current event and moves to the next one.
    pub fn next(&mut self) -> (r: Option<MultiInstrumentEvent<'a>>)
        ensures
            event_means(r, old(self).current()),
            pulled(old(self).lanes()) == (final(self).current(), final(self).lanes()),
    {
        self.advance()
    }

    /// Whether there is a current event.
    pub fn has_next(&self) -> (r: bool)
        ensures
            r == self.current() is Some,
    {
        self.current_event.is_some()
    }

    /// The instrument of a lane.
    pub fn instrument_id(&self, idx: usize) -> (r: InstrumentId)
        requires
            idx < self.lanes().len(),
        ensures
            r == self.lanes()[idx as int].id,
    {
        self.iterators[idx].instrument_id.clone()
    }
}

impl TickBufferSet {
    /// Walks over the ticks of all files in time order.
    pub fn merge_cursor(&self) -> (r: MergeCursor<'_>)
        ensures
            exists|lanes: Seq<Lane>| #[trigger]
                starts(lanes, self@) && pulled(lanes) == (r.current(), r.lanes()),
    {
        MergeCursor::new(self)
    }
}

/// Of ticks at one time that of the first lane comes first.
pub proof fn first_lane_goes_first(lanes: Seq<Lane>, n: int)
    requires
        0 <= n <= lanes.len(),
    ensures
        earliest(lanes, n) matches Some(i) ==> forall|j: int|
            0 <= j < i ==> lanes[i].head_time() < (#[trigger] lanes[j]).head_time(),
    decreases n,
{
    if n > 0 {
        first_lane_goes_first(lanes, n - 1);
        earliest_is_earliest(lanes, n - 1);
    }
}

/// An anchor of a file is listed with its file, its place in it, and its number over all files: the
/// ticks of all files before and its number in its own.
pub proof fn anchor_is_numbered_over_all_files(files: Seq<SetEntry>, b: int, s: int)
    requires
        indices_fit(files),
        0 <= b < files.len() <= usize::MAX,
        0 <= s < files[b].1@.index.len(),
    ensures
        ({
            let a = merged_anchor(files, b, s);
            let own = files[b].1@.index[s];
            &&& a.global_tick_index == ticks_before(files, b) + own.tick_index
            &&& a.local_tick_index == own.tick_index
            &&& a.byte_offset == own.byte_offset
            &&& a.buffer_idx == b
            &&& a.instrument_id == files[b].0
        }),
        ticks_before(files, b + 1) == ticks_before(files, b) + files[b].1@.header.num_ticks,
        ticks_before(files, 0) == 0,
        listed_anchors(files, files.len() as int).contains(merged_anchor(files, b, s)),
{
    ticks_before_ascends(files, b, files.len() as int);
    lemma_anchor_is_listed(files, b, s, files.len() as int);
}

proof fn lemma_anchor_is_listed(files: Seq<SetEntry>, b: int, s: int, n: int)
    requires
        0 <= b < n <= files.len(),
        0 <= s < files[b].1@.index.len(),
    ensures
        listed_anchors(files, n).contains(merged_anchor(files, b, s)),
    decreases n,
{
    let front = listed_anchors(files, n - 1);
    let all = listed_anchors(files, n);
    if b == n - 1 {
        assert(all[front.len() + s] == merged_anchor(files, b, s));
    } else {
        lemma_anchor_is_listed(files, b, s, n - 1);
        let k = choose|k: int| 0 <= k < front.len() && front[k] == merged_anchor(files, b, s);
        assert(all[k] == front[k]);
    }
}

/// A delivery moves one lane on by one tick and leaves all others; what is delivered is that tick, with
/// the instrument of its lane.
pub proof fn delivery_moves_one_lane(lanes: Seq<Lane>, k: int)
    requires
        earliest(lanes, lanes.len() as int) is Some,
        0 <= k < lanes.len(),
    ensures
        ({
            let i = earliest(lanes, lanes.len() as int)->0;
            let (e, rest) = pulled(lanes);
            &&& e == Some((lanes[i].id, lanes[i].stats[lanes[i].next]))
            &&& rest.len() == lanes.len()
            &&& k != i ==> rest[k] == lanes[k]
            &&& rest[i].next == lanes[i].next + 1
            &&& rest[i].stats == lanes[i].stats && rest[i].id == lanes[i].id
        }),
{
    earliest_is_earliest(lanes, lanes.len() as int);
}

} // verus!
