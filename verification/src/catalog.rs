//! The catalog: which files hold the ticks of an instrument, and for which times.

use crate::filters;
use crate::instrument;
use crate::instrument::fnv1a_hash;
use crate::level_map;
use crate::level_map::LevelMap;
use crate::order;
use crate::order::stable_order;
use crate::text;
use crate::text::to_upper;
use sha2::Digest;
use sha2::Sha256;
use vstd::prelude::*;

verus! {

/// A file with ticks of an instrument.
#[derive(Debug, PartialEq)]
pub struct CatalogEntry {
    /// FNV-1a hash of the symbol in upper case.
    pub instrument_id: u32,
    pub symbol: String,
    /// Time of the first tick.
    pub start_time_ns: u64,
    /// Time of the last tick.
    pub end_time_ns: u64,
    pub num_ticks: u64,
    pub file_path: String,
    /// SHA-256 of the file in hexadecimal digits.
    pub checksum: String,
    /// Time at which the file was taken in.
    pub created_at_ns: u64,
    /// Adapter that took the file in.
    pub source_adapter: String,
    /// The file is not being written any more.
    pub is_complete: bool,
    /// First and last time of a file that is being written.
    pub partial_range: Option<(u64, u64)>,
}

impl Clone for CatalogEntry {
    fn clone(&self) -> (r: Self)
        ensures
            r == *self,
    {
        CatalogEntry {
            instrument_id: self.instrument_id,
            symbol: self.symbol.clone(),
            start_time_ns: self.start_time_ns,
            end_time_ns: self.end_time_ns,
            num_ticks: self.num_ticks,
            file_path: self.file_path.clone(),
            checksum: self.checksum.clone(),
            created_at_ns: self.created_at_ns,
            source_adapter: self.source_adapter.clone(),
            is_complete: self.is_complete,
            partial_range: self.partial_range,
        }
    }
}

/// The hash by which the symbol of an instrument is known.
pub open spec fn symbol_hash(symbol: Seq<char>) -> u32 {
    instrument::fnv1a(vstd::utf8::encode_utf8(text::upper(symbol)))
}

/// The hash by which the symbol of an instrument is known.
pub fn symbol_id(symbol: &str) -> (r: u32)
    ensures
        r == symbol_hash(symbol@),
{
    let upper = to_upper(symbol);
    fnv1a_hash(upper.as_str().as_bytes())
}

impl CatalogEntry {
    /// A time of the file lies within `start..=end`.
    pub open spec fn meets(self, start: u64, end: u64) -> bool {
        self.start_time_ns <= end && self.end_time_ns >= start
    }

    /// A time lies within the times of the file.
    pub open spec fn covers(self, t: int) -> bool {
        self.start_time_ns <= t <= self.end_time_ns
    }

    /// A time of the file lies within `start..=end`.
    pub fn overlaps(&self, start: u64, end: u64) -> (r: bool)
        ensures
            r == self.meets(start, end),
    {
        self.start_time_ns <= end && self.end_time_ns >= start
    }

    /// The times of the file lie within `start..=end`.
    pub fn contains(&self, start: u64, end: u64) -> (r: bool)
        ensures
            r == (start <= self.start_time_ns && self.end_time_ns <= end),
    {
        self.start_time_ns >= start && self.end_time_ns <= end
    }
}

// ---------------------------------------------------------------------------
// Merging
// ---------------------------------------------------------------------------

/// A file that goes on where another ends, or before: it starts no later than one nanosecond
/// behind the end.
pub open spec fn joins(a: CatalogEntry, b: CatalogEntry) -> bool {
    b.start_time_ns <= a.end_time_ns + 1
}

/// Two files as one: the times and ticks of both, the rest of the first.
pub open spec fn joined(a: CatalogEntry, b: CatalogEntry) -> CatalogEntry {
    CatalogEntry {
        end_time_ns: if a.end_time_ns >= b.end_time_ns {
            a.end_time_ns
        } else {
            b.end_time_ns
        },
        num_ticks: (a.num_ticks + b.num_ticks) as u64,
        ..a
    }
}

/// A file and those behind it, each joined to the one before it where it joins.
pub open spec fn merged_from(current: CatalogEntry, rest: Seq<CatalogEntry>) -> Seq<CatalogEntry>
    decreases rest.len(),
{
    if rest.len() == 0 {
        seq![current]
    } else if joins(current, rest[0]) {
        merged_from(joined(current, rest[0]), rest.skip(1))
    } else {
        seq![current] + merged_from(rest[0], rest.skip(1))
    }
}

/// Files in order of their start, joined where they join.
pub open spec fn merged(entries: Seq<CatalogEntry>) -> Seq<CatalogEntry> {
    if entries.len() == 0 {
        seq![]
    } else {
        merged_from(entries[0], entries.skip(1))
    }
}

/// No end and no number of ticks is too large to merge.
pub open spec fn fits_from(current: CatalogEntry, rest: Seq<CatalogEntry>) -> bool
    decreases rest.len(),
{
    rest.len() == 0 || {
        &&& current.end_time_ns < u64::MAX
        &&& if joins(current, rest[0]) {
            &&& current.num_ticks + rest[0].num_ticks <= u64::MAX
            &&& fits_from(joined(current, rest[0]), rest.skip(1))
        } else {
            fits_from(rest[0], rest.skip(1))
        }
    }
}

/// No end and no number of ticks is too large to merge.
pub open spec fn merge_fits(entries: Seq<CatalogEntry>) -> bool {
    entries.len() == 0 || fits_from(entries[0], entries.skip(1))
}

/// In ascending order of their start.
pub open spec fn by_start(entries: Seq<CatalogEntry>) -> bool {
    forall|i: int, j: int|
        0 <= i < j < entries.len() ==> (#[trigger] entries[i]).start_time_ns <= (
        #[trigger] entries[j]).start_time_ns
}

/// Every file starts more than one nanosecond behind the end of those before it.
pub open spec fn apart(entries: Seq<CatalogEntry>) -> bool {
    forall|i: int, j: int|
        0 <= i < j < entries.len() ==> (#[trigger] entries[i]).end_time_ns + 1 < (
        #[trigger] entries[j]).start_time_ns
}

/// The time is covered by a file.
pub open spec fn covered(entries: Seq<CatalogEntry>, t: int) -> bool {
    exists|i: int| 0 <= i < entries.len() && (#[trigger] entries[i]).covers(t)
}

/// The number of ticks of files.
pub open spec fn ticks_of(entries: Seq<CatalogEntry>) -> int
    decreases entries.len(),
{
    if entries.len() == 0 {
        0
    } else {
        entries[0].num_ticks + ticks_of(entries.skip(1))
    }
}

/// No file ends before it starts.
pub open spec fn forward(entries: Seq<CatalogEntry>) -> bool {
    forall|i: int|
        0 <= i < entries.len() ==> (#[trigger] entries[i]).start_time_ns <= entries[i].end_time_ns
}

/// The merged files are apart, in order of their start, of the same instrument, cover the same
/// times, and hold as many ticks.
pub proof fn merging_keeps_times_and_ticks(entries: Seq<CatalogEntry>)
    requires
        merge_fits(entries),
        by_start(entries),
        forward(entries),
    ensures
        apart(merged(entries)),
        by_start(merged(entries)),
        forward(merged(entries)),
        forall|t: int| covered(merged(entries), t) <==> covered(entries, t),
        ticks_of(merged(entries)) == ticks_of(entries),
{
    if entries.len() > 0 {
        let rest = entries.skip(1);
        assert(entries =~= seq![entries[0]] + rest);
        lemma_merged(entries[0], rest);
        assert(ticks_of(entries) == entries[0].num_ticks + ticks_of(rest));
        let m = merged(entries);
        assert forall|t: int| covered(m, t) <==> covered(entries, t) by {
            lemma_covered_head(entries[0], rest, t);
        }
        assert forall|i: int, j: int| 0 <= i < j < m.len() implies (#[trigger] m[i]).start_time_ns
            <= (#[trigger] m[j]).start_time_ns by {
            assert(m[i].start_time_ns <= m[i].end_time_ns);
            assert(m[i].end_time_ns + 1 < m[j].start_time_ns);
        }
    }
}

proof fn lemma_covered_head(e: CatalogEntry, rest: Seq<CatalogEntry>, t: int)
    ensures
        covered(seq![e] + rest, t) <==> e.covers(t) || covered(rest, t),
{
    let all = seq![e] + rest;
    if e.covers(t) {
        assert(all[0].covers(t));
    }
    if covered(rest, t) {
        let i = choose|i: int| 0 <= i < rest.len() && (#[trigger] rest[i]).covers(t);
        assert(all[i + 1].covers(t));
    }
    if covered(all, t) {
        let i = choose|i: int| 0 <= i < all.len() && (#[trigger] all[i]).covers(t);
        if i > 0 {
            assert(rest[i - 1].covers(t));
        }
    }
}

proof fn lemma_merged(current: CatalogEntry, rest: Seq<CatalogEntry>)
    requires
        fits_from(current, rest),
        by_start(seq![current] + rest),
        forward(seq![current] + rest),
    ensures
        merged_from(current, rest).len() > 0,
        merged_from(current, rest)[0].start_time_ns == current.start_time_ns,
        apart(merged_from(current, rest)),
        forward(merged_from(current, rest)),
        forall|t: int|
            covered(merged_from(current, rest), t) <==> current.covers(t) || covered(rest, t),
        ticks_of(merged_from(current, rest)) == current.num_ticks + ticks_of(rest),
    decreases rest.len(),
{
    let all = seq![current] + rest;
    let m = merged_from(current, rest);
    assert(all[0] == current);
    if rest.len() == 0 {
        assert(m =~= seq![current]);
        assert(m.skip(1) =~= seq![]);
        assert(rest =~= seq![]);
        reveal_with_fuel(ticks_of, 2);
        assert forall|t: int| covered(m, t) <==> current.covers(t) || covered(rest, t) by {
            if current.covers(t) {
                assert(m[0].covers(t));
            }
        }
    } else {
        let next = rest[0];
        let tail = rest.skip(1);
        assert(rest =~= seq![next] + tail);
        assert(all[1] == next);
        assert(ticks_of(rest) == next.num_ticks + ticks_of(tail));
        if joins(current, next) {
            let both = joined(current, next);
            let s = seq![both] + tail;
            assert forall|i: int, j: int| 0 <= i < j < s.len() implies (
            #[trigger] s[i]).start_time_ns <= (#[trigger] s[j]).start_time_ns by {
                assert(s[j] == all[j + 1]);
                if i > 0 {
                    assert(s[i] == all[i + 1]);
                } else {
                    assert(all[0].start_time_ns <= all[j + 1].start_time_ns);
                }
            }
            assert forall|i: int| 0 <= i < s.len() implies (#[trigger] s[i]).start_time_ns
                <= s[i].end_time_ns by {
                if i > 0 {
                    assert(s[i] == all[i + 1]);
                }
            }
            lemma_merged(both, tail);
            assert forall|t: int| covered(m, t) <==> current.covers(t) || covered(rest, t) by {
                lemma_covered_head(next, tail, t);
                assert(both.covers(t) <==> current.covers(t) || next.covers(t));
            }
        } else {
            let s = seq![next] + tail;
            assert(s =~= rest);
            assert forall|i: int, j: int| 0 <= i < j < s.len() implies (
            #[trigger] s[i]).start_time_ns <= (#[trigger] s[j]).start_time_ns by {
                assert(s[i] == all[i + 1] && s[j] == all[j + 1]);
            }
            assert forall|i: int| 0 <= i < s.len() implies (#[trigger] s[i]).start_time_ns
                <= s[i].end_time_ns by {
                assert(s[i] == all[i + 1]);
            }
            lemma_merged(next, tail);
            let n = merged_from(next, tail);
            assert(m =~= seq![current] + n);
            assert forall|i: int, j: int| 0 <= i < j < m.len() implies (#[trigger] m[i]).end_time_ns
                + 1 < (#[trigger] m[j]).start_time_ns by {
                if i > 0 {
                    assert(m[i] == n[i - 1] && m[j] == n[j - 1]);
                } else {
                    assert(m[j] == n[j - 1]);
                    if j > 1 {
                        assert(n[0].end_time_ns + 1 < n[j - 1].start_time_ns);
                        assert(n[0].start_time_ns <= n[0].end_time_ns);
                    }
                }
            }
            assert forall|i: int| 0 <= i < m.len() implies (#[trigger] m[i]).start_time_ns
                <= m[i].end_time_ns by {
                if i > 0 {
                    assert(m[i] == n[i - 1]);
                }
            }
            assert(m.skip(1) =~= n);
            assert forall|t: int| covered(m, t) <==> current.covers(t) || covered(rest, t) by {
                lemma_covered_head(current, n, t);
                lemma_covered_head(next, tail, t);
            }
        }
    }
}

/// Files that are apart stay as they are.
pub proof fn merging_again_changes_nothing(entries: Seq<CatalogEntry>)
    requires
        apart(entries),
    ensures
        merged(entries) == entries,
    decreases entries.len(),
{
    if entries.len() > 0 {
        let rest = entries.skip(1);
        assert forall|i: int, j: int| 0 <= i < j < rest.len() implies (
        #[trigger] rest[i]).end_time_ns + 1 < (#[trigger] rest[j]).start_time_ns by {
            assert(rest[i] == entries[i + 1] && rest[j] == entries[j + 1]);
        }
        merging_again_changes_nothing(rest);
        if rest.len() > 0 {
            assert(entries[0].end_time_ns + 1 < entries[1].start_time_ns);
            assert(rest[0] == entries[1]);
        }
        assert(merged(entries) =~= entries);
    } else {
        assert(merged(entries) =~= entries);
    }
}

/// The files are all of an instrument.
pub open spec fn all_of(entries: Seq<CatalogEntry>, id: u32) -> bool {
    forall|i: int| 0 <= i < entries.len() ==> (#[trigger] entries[i]).instrument_id == id
}

proof fn lemma_merged_shape(current: CatalogEntry, rest: Seq<CatalogEntry>, id: u32)
    requires
        all_of(rest, id),
        current.instrument_id == id,
        by_start(rest),
        rest.len() > 0 ==> current.start_time_ns <= rest[0].start_time_ns,
    ensures
        merged_from(current, rest).len() > 0,
        merged_from(current, rest)[0].start_time_ns == current.start_time_ns,
        all_of(merged_from(current, rest), id),
        by_start(merged_from(current, rest)),
    decreases rest.len(),
{
    let m = merged_from(current, rest);
    if rest.len() > 0 {
        let tail = rest.skip(1);
        assert forall|i: int, j: int| 0 <= i < j < tail.len() implies (
        #[trigger] tail[i]).start_time_ns <= (#[trigger] tail[j]).start_time_ns by {
            assert(tail[i] == rest[i + 1] && tail[j] == rest[j + 1]);
        }
        assert forall|i: int| 0 <= i < tail.len() implies (#[trigger] tail[i]).instrument_id
            == id by {
            assert(tail[i] == rest[i + 1]);
        }
        if tail.len() > 0 {
            assert(rest[0].start_time_ns <= rest[1].start_time_ns);
        }
        if joins(current, rest[0]) {
            lemma_merged_shape(joined(current, rest[0]), tail, id);
        } else {
            lemma_merged_shape(rest[0], tail, id);
            let n = merged_from(rest[0], tail);
            assert(m == seq![current] + n);
            assert forall|i: int, j: int| 0 <= i < j < m.len() implies (
            #[trigger] m[i]).start_time_ns <= (#[trigger] m[j]).start_time_ns by {
                assert(m[j] == n[j - 1]);
                if i > 0 {
                    assert(m[i] == n[i - 1]);
                } else if j > 1 {
                    assert(n[0].start_time_ns <= n[j - 1].start_time_ns);
                }
            }
            assert forall|i: int| 0 <= i < m.len() implies (#[trigger] m[i]).instrument_id
                == id by {
                if i > 0 {
                    assert(m[i] == n[i - 1]);
                }
            }
        }
    }
}

// ---------------------------------------------------------------------------
// Sorting
// ---------------------------------------------------------------------------

/// The starts of files.
pub open spec fn starts(entries: Seq<CatalogEntry>) -> Seq<u64> {
    Seq::new(entries.len(), |i: int| entries[i].start_time_ns)
}

/// The files in ascending order of their start; those with the same start keep their order.
pub open spec fn sorted(entries: Seq<CatalogEntry>) -> Seq<CatalogEntry> {
    order::pick(entries, choose|p: Seq<usize>| order::is_stable_order(starts(entries), p))
}

/// The files in ascending order of their start.
fn sort_entries(entries: &Vec<CatalogEntry>) -> (r: Vec<CatalogEntry>)
    ensures
        r@ == sorted(entries@),
        by_start(r@),
        r@.len() == entries@.len(),
        forall|i: int| 0 <= i < r@.len() ==> entries@.contains(#[trigger] r@[i]),
{
    let mut keys: Vec<u64> = Vec::new();
    let mut i: usize = 0;
    while i < entries.len()
        invariant
            i <= entries@.len(),
            keys@.len() == i,
            forall|j: int| 0 <= j < i ==> #[trigger] keys@[j] == entries@[j].start_time_ns,
        decreases entries@.len() - i,
    {
        keys.push(entries[i].start_time_ns);
        i = i + 1;
    }
    assert(keys@ =~= starts(entries@));
    let p = stable_order(&keys);
    proof {
        let q = choose|p: Seq<usize>| order::is_stable_order(starts(entries@), p);
        order::stable_order_is_unique(starts(entries@), p@, q);
        order::picked_keys_ascend(keys@, p@);
    }
    let mut r: Vec<CatalogEntry> = Vec::new();
    let mut k: usize = 0;
    while k < p.len()
        invariant
            order::is_stable_order(keys@, p@),
            keys@.len() == entries@.len(),
            k <= p@.len(),
            r@.len() == k,
            forall|j: int| 0 <= j < k ==> #[trigger] r@[j] == entries@[p@[j] as int],
        decreases p@.len() - k,
    {
        assert(p@[k as int] < keys@.len());
        r.push(entries[p[k]].clone());
        k = k + 1;
    }
    proof {
        assert(r@ =~= order::pick(entries@, p@));
        let picked = order::pick(keys@, p@);
        assert forall|i: int, j: int| 0 <= i < j < r@.len() implies (#[trigger] r@[i]).start_time_ns
            <= (#[trigger] r@[j]).start_time_ns by {
            assert(p@[i] < keys@.len() && p@[j] < keys@.len());
            assert(picked[i] == r@[i].start_time_ns);
            assert(picked[j] == r@[j].start_time_ns);
        }
        assert forall|i: int| 0 <= i < r@.len() implies entries@.contains(#[trigger] r@[i]) by {
            assert(p@[i] < keys@.len());
            assert(entries@[p@[i] as int] == r@[i]);
        }
    }
    r
}

/// Files that are in order stay as they are.
pub proof fn sorting_again_changes_nothing(entries: Seq<CatalogEntry>)
    requires
        by_start(entries),
        entries.len() <= usize::MAX,
    ensures
        sorted(entries) == entries,
{
    let keys = starts(entries);
    let p = Seq::new(entries.len(), |i: int| i as usize);
    assert forall|k: int| 0 <= k < keys.len() implies #[trigger] order::listed(p, k) by {
        assert(p[k] == k);
    }
    assert forall|i: int, j: int| 0 <= i < j < keys.len() implies order::before(
        keys,
        #[trigger] p[i] as int,
        #[trigger] p[j] as int,
    ) by {
        assert(entries[i].start_time_ns <= entries[j].start_time_ns);
    }
    assert(order::is_stable_order(keys, p));
    let q = choose|p: Seq<usize>| order::is_stable_order(keys, p);
    order::stable_order_is_unique(keys, p, q);
    assert(order::pick(entries, p) =~= entries);
}

// ---------------------------------------------------------------------------
// Errors and checksums
// ---------------------------------------------------------------------------

/// What can go wrong with a catalog.
#[derive(Debug)]
pub enum CatalogError {
    FileNotFound(String),
    Json(String),
    Io(String),
    /// A file does not have its checksum.
    ChecksumMismatch(String),
    /// A file with ticks cannot be opened.
    TvcOpenError(String),
}

/// What an error says.
pub open spec fn error_text(e: CatalogError) -> Seq<char> {
    match e {
        CatalogError::FileNotFound(s) => "Catalog file not found: "@ + s@,
        CatalogError::Json(s) => "JSON error: "@ + s@,
        CatalogError::Io(s) => "IO error: "@ + s@,
        CatalogError::ChecksumMismatch(s) => "Checksum mismatch: "@ + s@,
        CatalogError::TvcOpenError(s) => "TVC open error: "@ + s@,
    }
}

impl CatalogError {
    /// What the error says.
    pub fn message(&self) -> (r: String)
        ensures
            r@ == error_text(*self),
    {
        let (head, tail): (&str, &String) = match self {
            CatalogError::FileNotFound(s) => ("Catalog file not found: ", s),
            CatalogError::Json(s) => ("JSON error: ", s),
            CatalogError::Io(s) => ("IO error: ", s),
            CatalogError::ChecksumMismatch(s) => ("Checksum mismatch: ", s),
            CatalogError::TvcOpenError(s) => ("TVC open error: ", s),
        };
        let mut r = head.to_owned();
        r.append(tail.as_str());
        r
    }
}

/// What came of opening a file with ticks.
#[derive(Debug)]
pub enum FileCheck {
    /// The file is not there.
    Missing(String),
    /// The file opened, and has its checksum.
    Sound,
    /// The file does not have its checksum.
    Sha256Mismatch,
    /// The file did not open.
    Failed(String),
}

impl CatalogEntry {
    /// The verdict on a file, from what came of opening it.
    pub fn judge(&self, check: FileCheck) -> (r: Result<(), CatalogError>)
        ensures
            match check {
                FileCheck::Sound => r is Ok,
                FileCheck::Sha256Mismatch => r matches Err(CatalogError::ChecksumMismatch(p)) && p@
                    == self.file_path@,
                FileCheck::Missing(e) | FileCheck::Failed(e) => r matches Err(
                    CatalogError::TvcOpenError(m),
                ) && m@ == e@,
            },
    {
        match check {
            FileCheck::Sound => Ok(()),
            FileCheck::Sha256Mismatch => Err(
                CatalogError::ChecksumMismatch(self.file_path.clone()),
            ),
            FileCheck::Missing(e) => Err(CatalogError::TvcOpenError(e)),
            FileCheck::Failed(e) => Err(CatalogError::TvcOpenError(e)),
        }
    }

    /// The verdict on a file when a catalog is loaded: one that is not there yet is let pass.
    pub fn judge_for_load(&self, check: FileCheck) -> (r: Result<(), CatalogError>)
        ensures
            match check {
                FileCheck::Sound | FileCheck::Missing(_) => r is Ok,
                FileCheck::Sha256Mismatch => r matches Err(CatalogError::ChecksumMismatch(p)) && p@
                    == self.file_path@,
                FileCheck::Failed(e) => r matches Err(CatalogError::TvcOpenError(m)) && m@ == e@,
            },
    {
        match check {
            FileCheck::Missing(_) => Ok(()),
            other => self.judge(other),
        }
    }
}

/// The SHA-256 digest of bytes.
pub uninterp spec fn sha256(data: Seq<u8>) -> Seq<u8>;

/// `sha2::Sha256`, fed with all of the data: the digest is a function of the data alone, 32 bytes
/// long.
#[verifier::external_body]
fn sha256_of(data: &[u8]) -> (r: Vec<u8>)
    ensures
        r@ == sha256(data@),
        r@.len() == 32,
{
    let mut hasher = Sha256::new();
    hasher.update(data);
    hasher.finalize().to_vec()
}

/// A hexadecimal digit in lower case.
pub open spec fn hex_digit(d: int) -> char {
    if d < 10 {
        (d + '0' as int) as char
    } else {
        (d - 10 + 'a' as int) as char
    }
}

/// Bytes as hexadecimal digits, two for each.
pub open spec fn hex(data: Seq<u8>) -> Seq<char> {
    Seq::new(
        data.len() * 2,
        |i: int|
            if i % 2 == 0 {
                hex_digit(data[i / 2] as int / 16)
            } else {
                hex_digit(data[i / 2] as int % 16)
            },
    )
}

fn hex_char(d: u8) -> (r: char)
    requires
        d < 16,
    ensures
        r == hex_digit(d as int),
{
    if d < 10 {
        (d + 48) as char
    } else {
        (d - 10 + 97) as char
    }
}

/// Bytes as hexadecimal digits.
pub fn hex_text(data: &Vec<u8>) -> (r: String)
    ensures
        r@ == hex(data@),
{
    let mut s = String::new();
    let mut i: usize = 0;
    assert(s@ =~= hex(data@.take(0)));
    while i < data.len()
        invariant
            i <= data@.len(),
            s@ == hex(data@.take(i as int)),
        decreases data@.len() - i,
    {
        let b: u8 = data[i];
        s.push(hex_char(b / 16));
        s.push(hex_char(b % 16));
        i = i + 1;
        assert(s@ =~= hex(data@.take(i as int)));
    }
    assert(data@.take(i as int) =~= data@);
    s
}

/// The checksum of the bytes of a file: its SHA-256 digest in hexadecimal digits.
pub fn checksum_text(data: &[u8]) -> (r: String)
    ensures
        r@ == hex(sha256(data@)),
        r@.len() == 64,
{
    hex_text(&sha256_of(data))
}

// ---------------------------------------------------------------------------
// Catalog
// ---------------------------------------------------------------------------

/// Files by instrument.
pub type Groups = Map<u32, Seq<CatalogEntry>>;

/// The files of an instrument.
pub open spec fn group(m: Groups, id: u32) -> Seq<CatalogEntry> {
    if m.dom().contains(id) {
        m[id]
    } else {
        seq![]
    }
}

/// The groups of a listing, one behind the other.
pub open spec fn flattened(listing: Seq<(i64, Vec<CatalogEntry>)>, n: int) -> Seq<CatalogEntry>
    decreases n,
{
    if n <= 0 {
        seq![]
    } else {
        flattened(listing, n - 1) + listing[n - 1].1@
    }
}

/// The catalog of the files with ticks.
#[derive(Debug)]
pub struct Catalog {
    entries: LevelMap<Vec<CatalogEntry>>,
    symbols: LevelMap<String>,
    path: String,
}

/// A key stands for an instrument.
pub open spec fn is_id(k: i64) -> bool {
    0 <= k <= u32::MAX
}

impl Catalog {
    /// The files by instrument.
    pub closed spec fn groups(&self) -> Groups {
        Map::new(
            |id: u32| self.entries@.dom().contains(id as i64),
            |id: u32| self.entries@[id as i64]@,
        )
    }

    /// The symbol of each instrument.
    pub closed spec fn names(&self) -> Map<u32, Seq<char>> {
        Map::new(
            |id: u32| self.symbols@.dom().contains(id as i64),
            |id: u32| self.symbols@[id as i64]@,
        )
    }

    /// The file that holds the catalog.
    pub closed spec fn file(&self) -> Seq<char> {
        self.path@
    }

    /// All files, by instrument.
    pub closed spec fn all(&self) -> Seq<CatalogEntry> {
        flattened(self.entries.listing(), self.entries.listing().len() as int)
    }

    /// The parts are in order: each instrument has files, of its own, in ascending order of their
    /// start, and a symbol.
    pub closed spec fn wf(&self) -> bool {
        &&& self.entries.wf()
        &&& self.symbols.wf()
        &&& forall|k: i64| #[trigger]
            self.entries@.dom().contains(k) ==> is_id(k) && self.symbols@.dom().contains(k)
                && self.entries@[k]@.len() > 0 && by_start(self.entries@[k]@) && all_of(
                self.entries@[k]@,
                k as u32,
            )
    }

    /// An empty catalog.
    pub fn new(path: &str) -> (r: Self)
        ensures
            r.wf(),
            r.groups() == Map::<u32, Seq<CatalogEntry>>::empty(),
            r.names() == Map::<u32, Seq<char>>::empty(),
            r.file() == path@,
    {
        let r = Catalog {
            entries: LevelMap::new(),
            symbols: LevelMap::new(),
            path: path.to_owned(),
        };
        assert(r.groups() =~= Map::empty());
        assert(r.names() =~= Map::empty());
        r
    }

    /// The file that holds the catalog.
    pub fn path(&self) -> (r: &str)
        ensures
            r@ == self.file(),
    {
        self.path.as_str()
    }

    /// Merges files that are in ascending order of their start.
    pub fn merge_entries(entries: &[CatalogEntry]) -> (r: Vec<CatalogEntry>)
        requires
            merge_fits(entries@),
        ensures
            r@ == merged(entries@),
    {
        let mut result: Vec<CatalogEntry> = Vec::new();
        if entries.len() == 0 {
            assert(result@ =~= merged(entries@));
            return result;
        }
        let mut current = entries[0].clone();
        let mut i: usize = 1;
        assert(result@ + merged_from(current, entries@.skip(1)) =~= merged(entries@));
        while i < entries.len()
            invariant
                1 <= i <= entries@.len(),
                fits_from(current, entries@.skip(i as int)),
                result@ + merged_from(current, entries@.skip(i as int)) == merged(entries@),
            decreases entries@.len() - i,
        {
            let entry = &entries[i];
            proof {
                assert(entries@.skip(i as int)[0] == entries@[i as int]);
                assert(entries@.skip(i as int).skip(1) =~= entries@.skip(i + 1));
            }
            if entry.start_time_ns <= current.end_time_ns + 1 {
                let ghost was = current;
                if entry.end_time_ns > current.end_time_ns {
                    current.end_time_ns = entry.end_time_ns;
                }
                current.num_ticks = current.num_ticks + entry.num_ticks;
                assert(current == joined(was, entries@[i as int]));
            } else {
                let ghost before = result@;
                let ghost was = current;
                result.push(current);
                current = entry.clone();
                assert(before + (seq![was] + merged_from(current, entries@.skip(i + 1)))
                    =~= result@ + merged_from(current, entries@.skip(i + 1)));
            }
            i = i + 1;
        }
        let ghost before = result@;
        let ghost last = current;
        result.push(current);
        assert(result@ =~= before + merged_from(last, entries@.skip(i as int)));
        result
    }

    /// Merging files in ascending order of their start stays within the numbers.
    pub fn can_merge(entries: &[CatalogEntry]) -> (r: bool)
        ensures
            r == merge_fits(entries@),
    {
        if entries.len() == 0 {
            return true;
        }
        let mut end: u64 = entries[0].end_time_ns;
        let mut ticks: u64 = entries[0].num_ticks;
        let ghost mut current = entries@[0];
        let mut i: usize = 1;
        while i < entries.len()
            invariant
                1 <= i <= entries@.len(),
                end == current.end_time_ns,
                ticks == current.num_ticks,
                merge_fits(entries@) == fits_from(current, entries@.skip(i as int)),
            decreases entries@.len() - i,
        {
            let entry = &entries[i];
            proof {
                assert(entries@.skip(i as int)[0] == entries@[i as int]);
                assert(entries@.skip(i as int).skip(1) =~= entries@.skip(i + 1));
            }
            if end == u64::MAX {
                return false;
            }
            if entry.start_time_ns <= end + 1 {
                if ticks > u64::MAX - entry.num_ticks {
                    return false;
                }
                proof {
                    current = joined(current, entries@[i as int]);
                }
                if entry.end_time_ns > end {
                    end = entry.end_time_ns;
                }
                ticks = ticks + entry.num_ticks;
            } else {
                proof {
                    current = entries@[i as int];
                }
                end = entry.end_time_ns;
                ticks = entry.num_ticks;
            }
            i = i + 1;
        }
        true
    }

    /// The files of an instrument with one more, in ascending order of their start.
    fn with_one_more(&self, entry: &CatalogEntry) -> (r: Vec<CatalogEntry>)
        requires
            self.wf(),
        ensures
            r@ == sorted(group(self.groups(), entry.instrument_id).push(*entry)),
            by_start(r@),
            r@.len() > 0,
            all_of(r@, entry.instrument_id),
    {
        let id: u32 = entry.instrument_id;
        let key: i64 = id as i64;
        let mut all: Vec<CatalogEntry> = Vec::new();
        match self.entries.get(&key) {
            Some(v) => {
                let mut i: usize = 0;
                while i < v.len()
                    invariant
                        i <= v@.len(),
                        all@ == v@.take(i as int),
                    decreases v@.len() - i,
                {
                    all.push(v[i].clone());
                    i = i + 1;
                    assert(all@ =~= v@.take(i as int));
                }
                assert(v@.take(i as int) =~= v@);
            },
            None => {},
        }
        assert(all@ =~= group(self.groups(), id));
        assert(all_of(all@, id));
        all.push(entry.clone());
        let r = sort_entries(&all);
        assert forall|i: int| 0 <= i < r@.len() implies (#[trigger] r@[i]).instrument_id == id by {
            assert(all@.contains(r@[i]));
        }
        r
    }

    /// Adding a file stays within the numbers.
    pub fn can_add_entry(&self, entry: &CatalogEntry) -> (r: bool)
        requires
            self.wf(),
        ensures
            r == merge_fits(sorted(group(self.groups(), entry.instrument_id).push(*entry))),
    {
        let all = self.with_one_more(entry);
        Self::can_merge(all.as_slice())
    }

    /// Adds a file, and merges the files of its instrument.
    pub fn add_entry(&mut self, entry: CatalogEntry)
        requires
            old(self).wf(),
            merge_fits(sorted(group(old(self).groups(), entry.instrument_id).push(entry))),
        ensures
            final(self).wf(),
            final(self).file() == old(self).file(),
            final(self).names() == old(self).names().insert(entry.instrument_id, entry.symbol@),
            final(self).groups() == old(self).groups().insert(
                entry.instrument_id,
                merged(sorted(group(old(self).groups(), entry.instrument_id).push(entry))),
            ),
    {
        let id: u32 = entry.instrument_id;
        let key: i64 = id as i64;
        let all = self.with_one_more(&entry);
        let result = Self::merge_entries(all.as_slice());
        proof {
            let rest = all@.skip(1);
            assert forall|i: int, j: int| 0 <= i < j < rest.len() implies (
            #[trigger] rest[i]).start_time_ns <= (#[trigger] rest[j]).start_time_ns by {
                assert(rest[i] == all@[i + 1] && rest[j] == all@[j + 1]);
            }
            assert forall|i: int| 0 <= i < rest.len() implies (#[trigger] rest[i]).instrument_id
                == id by {
                assert(rest[i] == all@[i + 1]);
            }
            if rest.len() > 0 {
                assert(all@[0].start_time_ns <= all@[1].start_time_ns);
            }
            lemma_merged_shape(all@[0], rest, id);
        }
        self.symbols.insert(key, entry.symbol.clone());
        let ghost made = result@;
        self.entries.insert(key, result);
        proof {
            assert(self.groups() =~= old(self).groups().insert(id, made));
            assert(self.names() =~= old(self).names().insert(id, entry.symbol@));
        }
    }

    /// The files of an instrument with the last one changed.
    fn set_last(&mut self, instrument_id: u32, last: CatalogEntry)
        requires
            old(self).wf(),
            old(self).groups().dom().contains(instrument_id),
            last.start_time_ns == old(self).groups()[instrument_id].last().start_time_ns,
            last.instrument_id == instrument_id,
        ensures
            final(self).wf(),
            final(self).file() == old(self).file(),
            final(self).names() == old(self).names(),
            final(self).groups() == old(self).groups().insert(
                instrument_id,
                old(self).groups()[instrument_id].drop_last().push(last),
            ),
    {
        let key: i64 = instrument_id as i64;
        let ghost g = self.groups()[instrument_id];
        let mut v: Vec<CatalogEntry> = Vec::new();
        match self.entries.get(&key) {
            Some(old_v) => {
                let n: usize = old_v.len();
                let mut i: usize = 0;
                while i + 1 < n
                    invariant
                        old_v@ == g,
                        n == g.len(),
                        n > 0,
                        i < n,
                        v@ == g.take(i as int),
                    decreases n - i,
                {
                    v.push(old_v[i].clone());
                    i = i + 1;
                    assert(v@ =~= g.take(i as int));
                }
                assert(v@ =~= g.drop_last());
            },
            None => {},
        }
        v.push(last);
        let ghost made = v@;
        assert(made =~= g.drop_last().push(last));
        assert forall|i: int, j: int| 0 <= i < j < made.len() implies (
        #[trigger] made[i]).start_time_ns <= (#[trigger] made[j]).start_time_ns by {
            assert(made[i].start_time_ns == g[i].start_time_ns);
            assert(made[j].start_time_ns == g[j].start_time_ns);
        }
        assert forall|i: int| 0 <= i < made.len() implies (#[trigger] made[i]).instrument_id
            == instrument_id by {
            if i < g.len() - 1 {
                assert(made[i] == g[i]);
            }
        }
        self.entries.insert(key, v);
        assert(self.groups() =~= old(self).groups().insert(instrument_id, made));
        assert(self.names() =~= old(self).names());
    }

    /// The last file of an instrument.
    fn last_of(&self, instrument_id: u32) -> (r: Option<CatalogEntry>)
        requires
            self.wf(),
        ensures
            match r {
                Some(e) => self.groups().dom().contains(instrument_id)
                    && self.groups()[instrument_id].len() > 0 && e
                    == self.groups()[instrument_id].last() && e.instrument_id == instrument_id,
                None => !self.groups().dom().contains(instrument_id),
            },
    {
        let key: i64 = instrument_id as i64;
        match self.entries.get(&key) {
            Some(v) => {
                assert(v@ == self.groups()[instrument_id]);
                let n: usize = v.len();
                assert(v@[n - 1].instrument_id == instrument_id);
                Some(v[n - 1].clone())
            },
            None => None,
        }
    }

    /// The last file of an instrument is being written, up to a time.
    pub fn update_entry(&mut self, instrument_id: u32, partial_end_ns: u64)
        requires
            old(self).wf(),
        ensures
            final(self).wf(),
            final(self).file() == old(self).file(),
            final(self).names() == old(self).names(),
            final(self).groups() == (if old(self).groups().dom().contains(instrument_id) {
                let g = old(self).groups()[instrument_id];
                old(self).groups().insert(
                    instrument_id,
                    g.drop_last().push(
                        (CatalogEntry {
                            partial_range: Some((g.last().start_time_ns, partial_end_ns)),
                            ..g.last()
                        }),
                    ),
                )
            } else {
                old(self).groups()
            }),
    {
        match self.last_of(instrument_id) {
            Some(e) => {
                let mut last = e;
                last.partial_range = Some((last.start_time_ns, partial_end_ns));
                self.set_last(instrument_id, last);
            },
            None => {},
        }
    }

    /// The last file of an instrument is not being written any more.
    pub fn finalize_entry(&mut self, instrument_id: u32)
        requires
            old(self).wf(),
        ensures
            final(self).wf(),
            final(self).file() == old(self).file(),
            final(self).names() == old(self).names(),
            final(self).groups() == (if old(self).groups().dom().contains(instrument_id) {
                let g = old(self).groups()[instrument_id];
                old(self).groups().insert(
                    instrument_id,
                    g.drop_last().push(
                        (CatalogEntry { is_complete: true, partial_range: None, ..g.last() }),
                    ),
                )
            } else {
                old(self).groups()
            }),
    {
        match self.last_of(instrument_id) {
            Some(e) => {
                let mut last = e;
                last.is_complete = true;
                last.partial_range = None;
                self.set_last(instrument_id, last);
            },
            None => {},
        }
    }

    /// The files of an instrument that have times within `start_ns..=end_ns`, in ascending order
    /// of their start.
    pub fn query_by_id(&self, instrument_id: u32, start_ns: u64, end_ns: u64) -> (r: Vec<
        CatalogEntry,
    >)
        requires
            self.wf(),
        ensures
            r@ == group(self.groups(), instrument_id).filter(
                |e: CatalogEntry| e.meets(start_ns, end_ns),
            ),
            by_start(r@),
    {
        let ghost g = group(self.groups(), instrument_id);
        let ghost pred = |e: CatalogEntry| e.meets(start_ns, end_ns);
        let key: i64 = instrument_id as i64;
        let mut r: Vec<CatalogEntry> = Vec::new();
        proof {
            assert(g.take(0).filter(pred) =~= Seq::<CatalogEntry>::empty()) by {
                reveal(Seq::filter);
            }
        }
        match self.entries.get(&key) {
            Some(v) => {
                let mut i: usize = 0;
                assert(v@ == g);
                while i < v.len()
                    invariant
                        v@ == g,
                        i <= g.len(),
                        pred == (|e: CatalogEntry| e.meets(start_ns, end_ns)),
                        r@ == g.take(i as int).filter(pred),
                    decreases g.len() - i,
                {
                    proof {
                        assert(g.take(i + 1) =~= g.take(i as int).push(g[i as int]));
                        filters::filter_of_push(g.take(i as int), g[i as int], pred);
                    }
                    if v[i].overlaps(start_ns, end_ns) {
                        r.push(v[i].clone());
                    }
                    i = i + 1;
                }
                assert(g.take(i as int) =~= g);
            },
            None => {
                assert(g.take(0) =~= g);
            },
        }
        proof {
            assert(by_start(g));
            lemma_filter_by_start(g, pred);
        }
        r
    }

    /// The files of a symbol that have times within `start_ns..=end_ns`, in ascending order of
    /// their start.
    pub fn query(&self, symbol: &str, start_ns: u64, end_ns: u64) -> (r: Vec<CatalogEntry>)
        requires
            self.wf(),
        ensures
            r@ == group(self.groups(), symbol_hash(symbol@)).filter(
                |e: CatalogEntry| e.meets(start_ns, end_ns),
            ),
            by_start(r@),
    {
        self.query_by_id(symbol_id(symbol), start_ns, end_ns)
    }

    /// All files of a symbol.
    pub fn get_instrument(&self, symbol: &str) -> (r: Vec<CatalogEntry>)
        requires
            self.wf(),
        ensures
            r@ == group(self.groups(), symbol_hash(symbol@)),
    {
        let key: i64 = symbol_id(symbol) as i64;
        let mut r: Vec<CatalogEntry> = Vec::new();
        match self.entries.get(&key) {
            Some(v) => {
                let mut i: usize = 0;
                while i < v.len()
                    invariant
                        i <= v@.len(),
                        r@ == v@.take(i as int),
                    decreases v@.len() - i,
                {
                    r.push(v[i].clone());
                    i = i + 1;
                    assert(r@ =~= v@.take(i as int));
                }
                assert(v@.take(i as int) =~= v@);
            },
            None => {},
        }
        assert(r@ =~= group(self.groups(), symbol_hash(symbol@)));
        r
    }

    /// The instruments in ascending order.
    pub fn instruments(&self) -> (r: Vec<u32>)
        requires
            self.wf(),
        ensures
            forall|i: int, j: int| 0 <= i < j < r@.len() ==> r@[i] < r@[j],
            forall|id: u32| self.groups().dom().contains(id) <==> r@.contains(id),
    {
        let ghost listing = self.entries.listing();
        proof {
            level_map::map_of_lists(listing);
        }
        let mut r: Vec<u32> = Vec::new();
        let mut i: usize = 0;
        while i < self.entries.len()
            invariant
                self.wf(),
                listing == self.entries.listing(),
                i <= listing.len(),
                r@.len() == i,
                forall|j: int| 0 <= j < listing.len() ==> self.entries@.dom().contains(
                    (#[trigger] listing[j]).0,
                ),
                forall|j: int| 0 <= j < i ==> #[trigger] r@[j] as i64 == listing[j].0,
            decreases listing.len() - i,
        {
            let k: i64 = self.entries.key_at(i);
            assert(self.entries@.dom().contains(listing[i as int].0));
            assert(is_id(k));
            r.push(k as u32);
            i = i + 1;
        }
        proof {
            assert forall|a: int, b: int| 0 <= a < b < r@.len() implies r@[a] < r@[b] by {
                assert(listing[a].0 < listing[b].0);
            }
            assert forall|id: u32| self.groups().dom().contains(id) <==> r@.contains(id) by {
                if self.groups().dom().contains(id) {
                    assert(level_map::has_key(listing, id as i64));
                    let j = choose|j: int|
                        0 <= j < listing.len() && (#[trigger] listing[j]).0 == id as i64;
                    assert(r@[j] as i64 == id as i64);
                    assert(r@[j] == id);
                }
                if r@.contains(id) {
                    let j = choose|j: int| 0 <= j < r@.len() && r@[j] == id;
                    assert(listing[j].0 == id as i64);
                }
            }
        }
        r
    }

    /// All files, by instrument.
    pub fn all_entries(&self) -> (r: Vec<CatalogEntry>)
        requires
            self.wf(),
        ensures
            r@ == self.all(),
    {
        let ghost listing = self.entries.listing();
        let mut r: Vec<CatalogEntry> = Vec::new();
        let mut i: usize = 0;
        while i < self.entries.len()
            invariant
                listing == self.entries.listing(),
                i <= listing.len(),
                r@ == flattened(listing, i as int),
            decreases listing.len() - i,
        {
            let v = self.entries.value_at(i);
            let ghost before = r@;
            let mut j: usize = 0;
            assert(before + v@.take(0) =~= before);
            while j < v.len()
                invariant
                    j <= v@.len(),
                    r@ == before + v@.take(j as int),
                decreases v@.len() - j,
            {
                r.push(v[j].clone());
                j = j + 1;
                assert(r@ =~= before + v@.take(j as int));
            }
            assert(v@.take(j as int) =~= v@);
            i = i + 1;
        }
        r
    }

    /// The number of files.
    pub fn len(&self) -> (r: usize)
        requires
            self.wf(),
            self.all().len() <= usize::MAX,
        ensures
            r == self.all().len(),
    {
        let ghost listing = self.entries.listing();
        let mut n: usize = 0;
        let mut i: usize = 0;
        while i < self.entries.len()
            invariant
                listing == self.entries.listing(),
                i <= listing.len(),
                flattened(listing, listing.len() as int).len() <= usize::MAX,
                n == flattened(listing, i as int).len(),
            decreases listing.len() - i,
        {
            proof {
                lemma_flattened_grows(listing, i + 1, listing.len() as int);
            }
            n = n + self.entries.value_at(i).len();
            i = i + 1;
        }
        n
    }

    /// There are no files.
    pub fn is_empty(&self) -> (r: bool)
        requires
            self.wf(),
        ensures
            r == (self.groups() == Map::<u32, Seq<CatalogEntry>>::empty()),
    {
        let r = self.entries.len() == 0;
        proof {
            let listing = self.entries.listing();
            level_map::map_of_lists(listing);
            if listing.len() > 0 {
                assert(self.entries@.dom().contains(listing[0].0));
                assert(self.groups().dom().contains(listing[0].0 as u32));
            } else {
                assert(self.groups() =~= Map::empty());
            }
        }
        r
    }
}

proof fn lemma_flattened_grows(listing: Seq<(i64, Vec<CatalogEntry>)>, a: int, b: int)
    requires
        0 <= a <= b,
    ensures
        flattened(listing, a).len() <= flattened(listing, b).len(),
    decreases b - a,
{
    if a < b {
        lemma_flattened_grows(listing, a, b - 1);
    }
}

proof fn lemma_filter_by_start(s: Seq<CatalogEntry>, pred: spec_fn(CatalogEntry) -> bool)
    requires
        by_start(s),
    ensures
        by_start(s.filter(pred)),
    decreases s.len(),
{
    reveal(Seq::filter);
    if s.len() > 0 {
        let front = s.drop_last();
        assert forall|i: int, j: int| 0 <= i < j < front.len() implies (
        #[trigger] front[i]).start_time_ns <= (#[trigger] front[j]).start_time_ns by {
            assert(front[i] == s[i] && front[j] == s[j]);
        }
        lemma_filter_by_start(front, pred);
        let kept = front.filter(pred);
        let r = s.filter(pred);
        if pred(s.last()) {
            assert(r == kept.push(s.last()));
            assert forall|i: int, j: int| 0 <= i < j < r.len() implies (
            #[trigger] r[i]).start_time_ns <= (#[trigger] r[j]).start_time_ns by {
                assert(r[i] == kept[i]);
                if j < kept.len() {
                    assert(r[j] == kept[j]);
                } else {
                    assert(kept.contains(kept[i]));
                    front.lemma_filter_contains_rev(pred, kept[i]);
                    let k = choose|k: int| 0 <= k < front.len() && front[k] == kept[i];
                    assert(s[k].start_time_ns <= s[s.len() - 1].start_time_ns);
                }
            }
        }
    }
}

/// The files of an instrument among files.
pub open spec fn of_instrument(entries: Seq<CatalogEntry>, id: u32) -> Seq<CatalogEntry> {
    entries.filter(|e: CatalogEntry| e.instrument_id == id)
}

/// The groups of a list of files: those of an instrument in ascending order of their start.
pub open spec fn groups_of(entries: Seq<CatalogEntry>) -> Groups {
    Map::new(
        |id: u32| of_instrument(entries, id).len() > 0,
        |id: u32| sorted(of_instrument(entries, id)),
    )
}

/// The symbols of a list of files: for each instrument that of its last file.
pub open spec fn names_of(entries: Seq<CatalogEntry>) -> Map<u32, Seq<char>> {
    Map::new(
        |id: u32| of_instrument(entries, id).len() > 0,
        |id: u32| of_instrument(entries, id).last().symbol@,
    )
}

impl Catalog {
    /// The catalog of a list of files.
    pub fn from_entries(path: &str, list: &Vec<CatalogEntry>) -> (r: Self)
        ensures
            r.wf(),
            r.file() == path@,
            r.groups() == groups_of(list@),
            r.names() == names_of(list@),
    {
        let mut found: LevelMap<Vec<CatalogEntry>> = LevelMap::new();
        let mut symbols: LevelMap<String> = LevelMap::new();
        let mut i: usize = 0;
        proof {
            assert forall|id: u32| (#[trigger] of_instrument(list@.take(0), id)).len() == 0 by {
                reveal(Seq::filter);
            }
        }
        while i < list.len()
            invariant
                i <= list@.len(),
                found.wf(),
                symbols.wf(),
                forall|k: i64| #[trigger] found@.dom().contains(k) ==> is_id(k),
                forall|k: i64| #[trigger]
                    found@.dom().contains(k) <==> symbols@.dom().contains(k),
                forall|id: u32|
                    #![trigger of_instrument(list@.take(i as int), id)]
                    found@.dom().contains(id as i64) <==> of_instrument(
                        list@.take(i as int),
                        id,
                    ).len() > 0,
                forall|id: u32|
                    #![trigger of_instrument(list@.take(i as int), id)]
                    found@.dom().contains(id as i64) ==> found@[id as i64]@ == of_instrument(
                        list@.take(i as int),
                        id,
                    ) && symbols@[id as i64]@ == of_instrument(list@.take(i as int), id).last().symbol@,
            decreases list@.len() - i,
        {
            let entry = &list[i];
            let ghost e = list@[i as int];
            let key: i64 = entry.instrument_id as i64;
            proof {
                assert(list@.take(i + 1) =~= list@.take(i as int).push(e));
                assert forall|id: u32|
                    #![trigger of_instrument(list@.take(i + 1), id)]
                    of_instrument(list@.take(i + 1), id) == if e.instrument_id == id {
                        of_instrument(list@.take(i as int), id).push(e)
                    } else {
                        of_instrument(list@.take(i as int), id)
                    } by {
                    filters::filter_of_push(
                        list@.take(i as int),
                        e,
                        |x: CatalogEntry| x.instrument_id == id,
                    );
                }
            }
            let ghost had = of_instrument(list@.take(i as int), e.instrument_id);
            let mut v: Vec<CatalogEntry> = match found.remove(key) {
                Some(v) => v,
                None => Vec::new(),
            };
            assert(v@ =~= had);
            v.push(entry.clone());
            found.insert(key, v);
            symbols.insert(key, entry.symbol.clone());
            proof {
                assert forall|id: u32|
                    #![trigger of_instrument(list@.take(i + 1), id)]
                    (found@.dom().contains(id as i64) <==> of_instrument(
                        list@.take(i + 1),
                        id,
                    ).len() > 0) && (found@.dom().contains(id as i64) ==> found@[id as i64]@
                        == of_instrument(list@.take(i + 1), id) && symbols@[id as i64]@
                        == of_instrument(list@.take(i + 1), id).last().symbol@) by {
                    let before = of_instrument(list@.take(i as int), id);
                    if id == e.instrument_id {
                        assert(found@[id as i64]@ == had.push(e));
                    } else {
                        assert(id as i64 != key);
                    }
                }
            }
            i = i + 1;
        }
        assert(list@.take(i as int) =~= list@);
        let ghost listing = found.listing();
        proof {
            level_map::map_of_lists(listing);
        }
        let mut entries: LevelMap<Vec<CatalogEntry>> = LevelMap::new();
        let mut j: usize = 0;
        while j < found.len()
            invariant
                found.wf(),
                listing == found.listing(),
                j <= listing.len(),
                entries.wf(),
                forall|k: i64| #[trigger] found@.dom().contains(k) ==> is_id(k),
                forall|id: u32|
                    #![trigger of_instrument(list@, id)]
                    found@.dom().contains(id as i64) <==> of_instrument(list@, id).len() > 0,
                forall|id: u32|
                    #![trigger of_instrument(list@, id)]
                    found@.dom().contains(id as i64) ==> found@[id as i64]@ == of_instrument(
                        list@,
                        id,
                    ),
                forall|k: int|
                    0 <= k < listing.len() ==> found@.dom().contains((#[trigger] listing[k]).0)
                        && found@[listing[k].0] == listing[k].1,
                forall|k: i64| #[trigger]
                    entries@.dom().contains(k) <==> exists|n: int|
                        0 <= n < j && (#[trigger] listing[n]).0 == k,
                forall|k: i64| #[trigger]
                    entries@.dom().contains(k) ==> found@.dom().contains(k) && entries@[k]@
                        == sorted(found@[k]@) && by_start(entries@[k]@) && entries@[k]@.len() > 0
                        && all_of(entries@[k]@, k as u32),
            decreases listing.len() - j,
        {
            let k: i64 = found.key_at(j);
            let v = sort_entries(found.value_at(j));
            assert(found@.dom().contains(listing[j as int].0));
            proof {
                let id = k as u32;
                assert(id as i64 == k);
                let mine = of_instrument(list@, id);
                assert(found@[k]@ == mine);
                assert forall|n: int| 0 <= n < v@.len() implies (#[trigger] v@[n]).instrument_id
                    == id by {
                    assert(mine.contains(v@[n]));
                    let m = choose|m: int| 0 <= m < mine.len() && mine[m] == v@[n];
                    list@.lemma_filter_pred(|x: CatalogEntry| x.instrument_id == id, m);
                }
            }
            let ghost before = entries@;
            entries.insert(k, v);
            proof {
                assert forall|x: i64| #[trigger]
                    entries@.dom().contains(x) <==> exists|n: int|
                        0 <= n < j + 1 && (#[trigger] listing[n]).0 == x by {
                    if before.dom().contains(x) {
                        let n = choose|n: int| 0 <= n < j && (#[trigger] listing[n]).0 == x;
                        assert(0 <= n < j + 1 && listing[n].0 == x);
                    }
                    if x == k {
                        assert(listing[j as int].0 == x);
                    }
                }
            }
            j = j + 1;
        }
        let r = Catalog { entries, symbols, path: path.to_owned() };
        proof {
            assert forall|k: i64| found@.dom().contains(k) <==> #[trigger] r.entries@.dom().contains(
                k,
            ) by {
                if found@.dom().contains(k) {
                    let n = choose|n: int| 0 <= n < listing.len() && (#[trigger] listing[n]).0 == k;
                    assert(0 <= n < j && listing[n].0 == k);
                }
            }
            assert forall|id: u32| #[trigger]
                r.groups().dom().contains(id) <==> of_instrument(list@, id).len() > 0 by {}
            assert forall|id: u32| #[trigger] r.groups().dom().contains(id) implies r.groups()[id]
                == sorted(of_instrument(list@, id)) by {
                assert(r.entries@.dom().contains(id as i64));
            }
            assert(r.groups() =~= groups_of(list@));
            assert forall|id: u32| #[trigger]
                r.names().dom().contains(id) <==> of_instrument(list@, id).len() > 0 by {
                assert(found@.dom().contains(id as i64) <==> symbols@.dom().contains(id as i64));
            }
            assert forall|id: u32| #[trigger] r.names().dom().contains(id) implies r.names()[id]
                == of_instrument(list@, id).last().symbol@ by {
                assert(found@.dom().contains(id as i64));
            }
            assert(r.names() =~= names_of(list@));
        }
        r
    }

    /// The files whose checksum is looked at when the catalog is loaded: those that are not being
    /// written.
    pub fn entries_to_check(&self) -> (r: Vec<CatalogEntry>)
        requires
            self.wf(),
        ensures
            r@ == self.all().filter(|e: CatalogEntry| e.is_complete),
    {
        let all = self.all_entries();
        let ghost pred = |e: CatalogEntry| e.is_complete;
        let mut r: Vec<CatalogEntry> = Vec::new();
        let mut i: usize = 0;
        assert(all@.take(0).filter(pred) =~= Seq::<CatalogEntry>::empty()) by {
            reveal(Seq::filter);
        }
        while i < all.len()
            invariant
                i <= all@.len(),
                pred == (|e: CatalogEntry| e.is_complete),
                r@ == all@.take(i as int).filter(pred),
            decreases all@.len() - i,
        {
            proof {
                assert(all@.take(i + 1) =~= all@.take(i as int).push(all@[i as int]));
                filters::filter_of_push(all@.take(i as int), all@[i as int], pred);
            }
            if all[i].is_complete {
                r.push(all[i].clone());
            }
            i = i + 1;
        }
        assert(all@.take(i as int) =~= all@);
        r
    }
}

/// What is listed of a catalog is enough to make it again: the files of each instrument are those
/// of the catalog, in their order.
pub proof fn listed_catalog_reads_back(c: Catalog)
    requires
        c.wf(),
        forall|id: u32| #[trigger]
            c.groups().dom().contains(id) ==> c.groups()[id].len() <= usize::MAX,
    ensures
        groups_of(c.all()) == c.groups(),
{
    let listing = c.entries.listing();
    level_map::map_of_lists(listing);
    assert forall|id: u32| #[trigger] of_instrument(c.all(), id) == group(c.groups(), id) by {
        lemma_of_flattened(c, listing.len() as int, id);
        if level_map::has_key(listing, id as i64) {
            let n = choose|n: int| 0 <= n < listing.len() && (#[trigger] listing[n]).0 == id as i64;
            assert(c.groups()[id] == listing[n].1@);
        }
    }
    assert forall|id: u32| #[trigger] groups_of(c.all()).dom().contains(id)
        <==> c.groups().dom().contains(id) by {
        assert(of_instrument(c.all(), id) == group(c.groups(), id));
        assert(c.groups().dom().contains(id) ==> c.entries@.dom().contains(id as i64));
    }
    assert forall|id: u32| #[trigger] groups_of(c.all()).dom().contains(id) implies groups_of(
        c.all(),
    )[id] == c.groups()[id] by {
        assert(of_instrument(c.all(), id) == group(c.groups(), id));
        assert(c.groups().dom().contains(id));
        assert(c.entries@.dom().contains(id as i64));
        sorting_again_changes_nothing(c.groups()[id]);
    }
    assert(groups_of(c.all()) =~= c.groups());
}

proof fn lemma_of_flattened(c: Catalog, n: int, id: u32)
    requires
        c.wf(),
        0 <= n <= c.entries.listing().len(),
    ensures
        of_instrument(flattened(c.entries.listing(), n), id) == (if (exists|k: int|
            0 <= k < n && (#[trigger] c.entries.listing()[k]).0 == id as i64) {
            group(c.groups(), id)
        } else {
            Seq::<CatalogEntry>::empty()
        }),
    decreases n,
{
    let listing = c.entries.listing();
    let pred = |e: CatalogEntry| e.instrument_id == id;
    level_map::map_of_lists(listing);
    if n == 0 {
        reveal(Seq::filter);
        assert(of_instrument(flattened(listing, 0), id) =~= Seq::<CatalogEntry>::empty());
    } else {
        lemma_of_flattened(c, n - 1, id);
        let front = flattened(listing, n - 1);
        let last = listing[n - 1].1@;
        let key = listing[n - 1].0;
        filters::filter_of_parts(front, last, pred);
        assert(c.entries@.dom().contains(listing[n - 1].0));
        assert(all_of(last, key as u32));
        if key == id as i64 {
            assert forall|i: int| 0 <= i < last.len() implies pred(#[trigger] last[i]) by {}
            filters::filter_of_all(last, pred);
            assert(c.groups()[id] == last);
            assert forall|k: int| 0 <= k < n - 1 implies (#[trigger] listing[k]).0
                != id as i64 by {
                assert(listing[k].0 < listing[n - 1].0);
            }
            assert(Seq::<CatalogEntry>::empty() + last =~= last);
        } else {
            assert forall|i: int| 0 <= i < last.len() implies !pred(#[trigger] last[i]) by {
                assert(last[i].instrument_id == key as u32);
            }
            filters::filter_of_none(last, pred);
            assert(front.filter(pred) + Seq::<CatalogEntry>::empty() =~= front.filter(pred));
            if exists|k: int| 0 <= k < n && (#[trigger] listing[k]).0 == id as i64 {
                let k = choose|k: int| 0 <= k < n && (#[trigger] listing[k]).0 == id as i64;
                assert(0 <= k < n - 1 && listing[k].0 == id as i64);
            }
            if exists|k: int| 0 <= k < n - 1 && (#[trigger] listing[k]).0 == id as i64 {
                let k = choose|k: int| 0 <= k < n - 1 && (#[trigger] listing[k]).0 == id as i64;
                assert(0 <= k < n && listing[k].0 == id as i64);
            }
        }
    }
}

/// A file meets a range exactly where some time lies in both, the ends of both included.
pub proof fn meeting_is_a_common_time(e: CatalogEntry, start: u64, end: u64)
    requires
        e.start_time_ns <= e.end_time_ns,
        start <= end,
    ensures
        e.meets(start, end) <==> exists|t: int| #[trigger] e.covers(t) && start <= t <= end,
{
    if e.meets(start, end) {
        let t = if e.start_time_ns > start {
            e.start_time_ns as int
        } else {
            start as int
        };
        assert(e.covers(t) && start <= t <= end);
    }
}

/// Two files become one where the second starts no later than one nanosecond behind the end of the
/// first: it has the ticks of both and reaches as far as the later one. Otherwise both stay.
pub proof fn neighbours_become_one(a: CatalogEntry, b: CatalogEntry)
    requires
        a.start_time_ns <= b.start_time_ns,
        a.num_ticks + b.num_ticks <= u64::MAX,
    ensures
        b.start_time_ns > a.end_time_ns + 1 ==> merged(seq![a, b]) == seq![a, b],
        b.start_time_ns <= a.end_time_ns + 1 ==> merged(seq![a, b]).len() == 1 && ({
            let m = merged(seq![a, b])[0];
            &&& m.start_time_ns == a.start_time_ns
            &&& m.end_time_ns >= a.end_time_ns && m.end_time_ns >= b.end_time_ns
            &&& m.end_time_ns == a.end_time_ns || m.end_time_ns == b.end_time_ns
            &&& m.num_ticks == a.num_ticks + b.num_ticks
            &&& m.instrument_id == a.instrument_id
        }),
        merged(seq![a]) == seq![a],
{
    reveal_with_fuel(merged_from, 3);
    assert(seq![a, b].skip(1) =~= seq![b]);
    assert(seq![b].skip(1) =~= seq![]);
    assert(seq![a].skip(1) =~= seq![]);
    assert(seq![a] + seq![b] =~= seq![a, b]);
}

/// Two digits stand for a byte, the higher half first: each is one of sixteen, and together they tell
/// the byte.
pub proof fn hex_digits_tell_the_byte(data: Seq<u8>, i: int)
    requires
        0 <= i < data.len(),
    ensures
        hex(data).len() == 2 * data.len(),
        ({
            let value = |c: char|
                if '0' <= c <= '9' {
                    c as int - '0' as int
                } else {
                    c as int - 'a' as int + 10
                };
            let high = hex(data)[2 * i];
            let low = hex(data)[2 * i + 1];
            &&& 16 * value(high) + value(low) == data[i]
            &&& '0' <= high <= '9' || 'a' <= high <= 'f'
            &&& '0' <= low <= '9' || 'a' <= low <= 'f'
        }),
{
    assert((2 * i) / 2 == i && (2 * i + 1) / 2 == i && (2 * i) % 2 == 0 && (2 * i + 1) % 2 == 1);
}

/// The files of an instrument are those with its number, all of them and no others.
pub proof fn files_stand_under_their_instrument(entries: Seq<CatalogEntry>, id: u32, i: int)
    requires
        0 <= i < entries.len(),
    ensures
        of_instrument(entries, id).contains(entries[i]) <==> entries[i].instrument_id == id,
        groups_of(entries).dom().contains(entries[i].instrument_id),
{
    let pred = |e: CatalogEntry| e.instrument_id == id;
    if pred(entries[i]) {
        entries.lemma_filter_contains(pred, i);
    }
    if entries.filter(pred).contains(entries[i]) {
        let k = choose|k: int|
            0 <= k < entries.filter(pred).len() && entries.filter(pred)[k] == entries[i];
        entries.lemma_filter_pred(pred, k);
    }
    let own = entries[i].instrument_id;
    entries.lemma_filter_contains(|e: CatalogEntry| e.instrument_id == own, i);
}

/// The symbol of an instrument is that of the last of its files.
pub proof fn last_file_gives_the_symbol(entries: Seq<CatalogEntry>, e: CatalogEntry)
    ensures
        names_of(entries.push(e))[e.instrument_id] == e.symbol@,
        names_of(entries.push(e)).dom().contains(e.instrument_id),
{
    let id = e.instrument_id;
    let pred = |x: CatalogEntry| x.instrument_id == id;
    entries.lemma_filter_push(e, pred);
    assert(of_instrument(entries.push(e), id) == of_instrument(entries, id).push(e));
}

} // verus!
