//! An index of the files with ticks, by instrument.

use crate::date;
use crate::date::Date;
use crate::name_map::NameMap;
use crate::order;
use crate::order::stable_order;
use crate::text;
use crate::text::same_text;
use vstd::prelude::*;

verus! {

/// A file with ticks.
#[derive(Debug)]
pub struct IndexedFile {
    pub path: String,
    /// Time of the first tick.
    pub start_ts: u64,
    /// Time of the last tick.
    pub end_ts: u64,
    pub num_ticks: u64,
}

/// The files of an instrument.
#[derive(Debug)]
pub struct InstrumentIndex {
    pub exchange: String,
    pub files: Vec<IndexedFile>,
}

/// The files of all instruments, by symbol.
#[derive(Debug)]
pub struct DataIndex {
    pub version: u32,
    pub instruments: NameMap<InstrumentIndex>,
}

/// The times of the file overlap the range from `start` to before `end`.
pub open spec fn within(f: IndexedFile, start: u64, end: u64) -> bool {
    f.end_ts >= start && f.start_ts < end
}

/// The paths of the first `n` files whose times overlap a range.
pub open spec fn paths_within(files: Seq<IndexedFile>, start: u64, end: u64, n: int) -> Seq<
    Seq<char>,
>
    decreases n,
{
    if n <= 0 {
        seq![]
    } else {
        let front = paths_within(files, start, end, n - 1);
        if within(files[n - 1], start, end) {
            front.push(files[n - 1].path@)
        } else {
            front
        }
    }
}

/// The start of the first file with a path, from the file `i` on.
pub open spec fn start_of(files: Seq<IndexedFile>, path: Seq<char>, i: int) -> u64
    decreases files.len() - i,
{
    if i >= files.len() {
        0
    } else if files[i].path@ == path {
        files[i].start_ts
    } else {
        start_of(files, path, i + 1)
    }
}

/// The starts of files, by their paths.
pub open spec fn starts_of(files: Seq<IndexedFile>, paths: Seq<Seq<char>>) -> Seq<u64> {
    Seq::new(paths.len(), |i: int| start_of(files, paths[i], 0))
}

/// The paths of the files whose times overlap a range, in ascending order of their start.
pub open spec fn is_listing(
    files: Seq<IndexedFile>,
    start: u64,
    end: u64,
    r: Seq<Seq<char>>,
) -> bool {
    let found = paths_within(files, start, end, files.len() as int);
    exists|p: Seq<usize>| #[trigger]
        order::is_stable_order(starts_of(files, found), p) && r == order::pick(found, p)
}

/// The first and the last day of a range have times that fit.
pub open spec fn range_fits(start: Date, end: Date) -> bool {
    &&& end.days < i32::MAX
    &&& date::nanos_fit(date::nanos_at(start.days, 0))
    &&& date::nanos_fit(date::nanos_at((end.days + 1) as i32, 0))
}

impl DataIndex {
    /// The symbols are in order.
    pub open spec fn wf(&self) -> bool {
        self.instruments.wf()
    }

    /// The first and the last day of a range have times that fit.
    pub fn can_find(start_date: Date, end_date: Date) -> (r: bool)
        ensures
            r == range_fits(start_date, end_date),
    {
        if end_date.days == i32::MAX {
            return false;
        }
        let next = Date { days: end_date.days + 1 };
        match (start_date.nanos(0), next.nanos(0)) {
            (Some(_), Some(_)) => true,
            _ => false,
        }
    }

    /// The paths of the files of an instrument whose times overlap the days of a range, in ascending
    /// order of their start.
    pub fn files_for_range(&self, symbol: &str, start_date: Date, end_date: Date) -> (r: Vec<
        String,
    >)
        requires
            self.wf(),
            range_fits(start_date, end_date),
        ensures
            if self.instruments@.dom().contains(symbol@) {
                is_listing(
                    self.instruments@[symbol@].files@,
                    date::bits_of(date::nanos_at(start_date.days, 0)),
                    date::bits_of(date::nanos_at((end_date.days + 1) as i32, 0)),
                    text::texts(r@),
                )
            } else {
                r@.len() == 0
            },
    {
        let instrument = match self.instruments.get(symbol) {
            Some(i) => i,
            None => {
                return Vec::new();
            },
        };
        let start: u64 = start_date.utc_ns();
        let next = Date { days: end_date.days + 1 };
        let end: u64 = next.utc_ns();
        let files = &instrument.files;
        let mut found: Vec<String> = Vec::new();
        let mut keys: Vec<u64> = Vec::new();
        let mut i: usize = 0;
        assert(text::texts(found@) =~= paths_within(files@, start, end, 0));
        while i < files.len()
            invariant
                i <= files@.len(),
                text::texts(found@) == paths_within(files@, start, end, i as int),
                keys@ == starts_of(files@, text::texts(found@)),
            decreases files@.len() - i,
        {
            let file = &files[i];
            if file.end_ts >= start && file.start_ts < end {
                let ghost before = text::texts(found@);
                keys.push(Self::start_of_path(files, file.path.as_str()));
                found.push(file.path.clone());
                assert(text::texts(found@) =~= before.push(file.path@));
                assert(keys@ =~= starts_of(files@, text::texts(found@)));
            }
            i = i + 1;
        }
        let p = stable_order(&keys);
        let ghost all = text::texts(found@);
        let mut r: Vec<String> = Vec::new();
        let mut k: usize = 0;
        while k < p.len()
            invariant
                order::is_stable_order(keys@, p@),
                keys@.len() == found@.len(),
                all == text::texts(found@),
                k <= p@.len(),
                r@.len() == k,
                forall|j: int| 0 <= j < k ==> (#[trigger] r@[j])@ == all[p@[j] as int],
            decreases p@.len() - k,
        {
            assert(p@[k as int] < keys@.len());
            r.push(found[p[k]].clone());
            k = k + 1;
        }
        assert(text::texts(r@) =~= order::pick(all, p@));
        r
    }

    fn start_of_path(files: &Vec<IndexedFile>, path: &str) -> (r: u64)
        ensures
            r == start_of(files@, path@, 0),
    {
        let mut i: usize = 0;
        while i < files.len()
            invariant
                i <= files@.len(),
                start_of(files@, path@, 0) == start_of(files@, path@, i as int),
            decreases files@.len() - i,
        {
            if same_text(files[i].path.as_str(), path) {
                return files[i].start_ts;
            }
            i = i + 1;
        }
        0
    }
}

/// A file of the index is found for every range that holds a time between its first and its last
/// tick, these included.
pub proof fn file_with_ticks_is_found(
    files: Seq<IndexedFile>,
    start: u64,
    end: u64,
    i: int,
    ts: u64,
    r: Seq<Seq<char>>,
)
    requires
        0 <= i < files.len(),
        files[i].start_ts <= ts <= files[i].end_ts,
        start <= ts < end,
        is_listing(files, start, end, r),
    ensures
        r.contains(files[i].path@),
{
    let found = paths_within(files, start, end, files.len() as int);
    lemma_path_found(files, start, end, files.len() as int, i);
    let p = choose|p: Seq<usize>| #[trigger]
        order::is_stable_order(starts_of(files, found), p) && r == order::pick(found, p);
    let k = choose|k: int| 0 <= k < found.len() && found[k] == files[i].path@;
    assert(order::listed(p, k));
    let j = choose|j: int| 0 <= j < p.len() && #[trigger] p[j] == k;
    assert(r[j] == files[i].path@);
}

proof fn lemma_path_found(files: Seq<IndexedFile>, start: u64, end: u64, n: int, i: int)
    requires
        0 <= i < n <= files.len(),
        within(files[i], start, end),
    ensures
        paths_within(files, start, end, n).contains(files[i].path@),
    decreases n,
{
    let all = paths_within(files, start, end, n);
    if i == n - 1 {
        assert(all[all.len() - 1] == files[i].path@);
    } else {
        lemma_path_found(files, start, end, n - 1, i);
        let front = paths_within(files, start, end, n - 1);
        let k = choose|k: int| 0 <= k < front.len() && front[k] == files[i].path@;
        assert(all[k] == files[i].path@);
    }
}

/// A time lies between the first and the last of a file.
pub open spec fn covers(f: IndexedFile, t: u64) -> bool {
    f.start_ts <= t <= f.end_ts
}

/// A file overlaps a range exactly where some time lies in both; the end of the range is not in it,
/// and the end of the file is.
pub proof fn overlap_is_a_common_time(f: IndexedFile, start: u64, end: u64)
    requires
        f.start_ts <= f.end_ts,
        start < end,
    ensures
        within(f, start, end) <==> exists|t: u64| #[trigger] covers(f, t) && start <= t < end,
{
    if within(f, start, end) {
        let t = if f.start_ts > start {
            f.start_ts
        } else {
            start
        };
        assert(covers(f, t) && start <= t < end);
    }
}

/// A listing stands in ascending order of the starts of its files.
pub proof fn listing_is_by_start(
    files: Seq<IndexedFile>,
    start: u64,
    end: u64,
    r: Seq<Seq<char>>,
    i: int,
    j: int,
)
    requires
        is_listing(files, start, end, r),
        0 <= i <= j < r.len(),
    ensures
        start_of(files, r[i], 0) <= start_of(files, r[j], 0),
{
    let found = paths_within(files, start, end, files.len() as int);
    let p = choose|p: Seq<usize>| #[trigger]
        order::is_stable_order(starts_of(files, found), p) && r == order::pick(found, p);
    let keys = starts_of(files, found);
    order::picked_keys_ascend(keys, p);
    assert(order::pick(keys, p)[i] <= order::pick(keys, p)[j]);
}

/// The start of a file is looked up by its path: that of the first file with the path.
pub proof fn start_is_looked_up_by_path(files: Seq<IndexedFile>, path: Seq<char>, i: int, k: int)
    requires
        0 <= k <= i < files.len(),
        files[i].path@ == path,
        forall|j: int| 0 <= j < i ==> (#[trigger] files[j]).path@ != path,
    ensures
        start_of(files, path, k) == files[i].start_ts,
    decreases i - k,
{
    if k < i {
        start_is_looked_up_by_path(files, path, i, k + 1);
    }
}

} // verus!
