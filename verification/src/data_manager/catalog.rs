//! The tick files that are there, by exchange, venue, symbol and date.

use crate::data_manager::types;
use crate::data_manager::types::match_exchange;
use crate::data_manager::types::match_venue;
use crate::data_manager::types::Exchange;
use crate::data_manager::types::TvcFile;
use crate::data_manager::types::Venue;
use crate::date;
use crate::date::dates_between;
use crate::date::Date;
use crate::filters;
use crate::path;
use crate::path::extension_of;
use crate::path::name_of;
use crate::path::stem_of;
use crate::text;
use crate::text::same_text;
use crate::text::split_text;
use crate::text::to_lower;
use crate::text::to_upper;
use vstd::prelude::*;

verus! {

/// Under what a file is known.
pub struct FileKey {
    pub exchange: Exchange,
    pub venue: Venue,
    pub symbol: Seq<char>,
    pub date: Date,
}

impl TvcFile {
    /// Under what the file is known.
    pub open spec fn key(self) -> FileKey {
        FileKey {
            exchange: self.exchange,
            venue: self.venue,
            symbol: self.symbol@,
            date: self.date,
        }
    }
}

/// The key of a file of a symbol, in capitals.
pub open spec fn key_of(exchange: Exchange, venue: Venue, symbol: Seq<char>, date: Date) -> FileKey {
    FileKey { exchange, venue, symbol: text::upper(symbol), date }
}

/// A file is known under the key.
pub open spec fn has_key(files: Seq<TvcFile>, k: FileKey) -> bool {
    exists|i: int| 0 <= i < files.len() && (#[trigger] files[i]).key() == k
}

/// No two files are known under one key.
pub open spec fn keys_differ(files: Seq<TvcFile>) -> bool {
    forall|i: int, j: int|
        0 <= i < j < files.len() ==> (#[trigger] files[i]).key() != (#[trigger] files[j]).key()
}

/// The first place of a key among the first `n` files; -1 where there is none.
pub open spec fn place_of(files: Seq<TvcFile>, k: FileKey, n: int) -> int
    decreases n,
{
    if n <= 0 {
        -1
    } else {
        let p = place_of(files, k, n - 1);
        if p >= 0 {
            p
        } else if files[n - 1].key() == k {
            n - 1
        } else {
            -1
        }
    }
}

/// The files with one more: it takes the place of a file with its key.
pub open spec fn put(files: Seq<TvcFile>, f: TvcFile) -> Seq<TvcFile> {
    let p = place_of(files, f.key(), files.len() as int);
    if p >= 0 {
        files.update(p, f)
    } else {
        files.push(f)
    }
}

proof fn lemma_place(files: Seq<TvcFile>, k: FileKey, n: int)
    requires
        0 <= n <= files.len(),
    ensures
        -1 <= place_of(files, k, n) < n,
        place_of(files, k, n) >= 0 ==> files[place_of(files, k, n)].key() == k,
        place_of(files, k, n) < 0 ==> forall|i: int| 0 <= i < n ==> (#[trigger] files[i]).key() != k,
    decreases n,
{
    if n > 0 {
        lemma_place(files, k, n - 1);
    }
}

/// A file that is put is known, no other key is lost, and keys stay different.
pub proof fn put_keeps_the_others(files: Seq<TvcFile>, f: TvcFile, k: FileKey)
    requires
        keys_differ(files),
    ensures
        keys_differ(put(files, f)),
        has_key(put(files, f), k) == (k == f.key() || has_key(files, k)),
        put(files, f).contains(f),
{
    let n = files.len() as int;
    let all = put(files, f);
    lemma_place(files, f.key(), n);
    let p = place_of(files, f.key(), n);
    let at = if p >= 0 {
        p
    } else {
        n
    };
    assert(all[at] == f);
    assert forall|i: int, j: int| 0 <= i < j < all.len() implies (#[trigger] all[i]).key() != (
    #[trigger] all[j]).key() by {
        if i != at {
            assert(all[i] == files[i]);
        }
        if j != at {
            assert(all[j] == files[j]);
        }
    }
    if has_key(files, k) {
        let i = choose|i: int| 0 <= i < files.len() && (#[trigger] files[i]).key() == k;
        assert(all[i].key() == k);
    }
    if has_key(all, k) && k != f.key() {
        let i = choose|i: int| 0 <= i < all.len() && (#[trigger] all[i]).key() == k;
        assert(files[i].key() == k);
    }
}

// ---------------------------------------------------------------------------
// Scanning
// ---------------------------------------------------------------------------

/// The date in the stem of a file name: the last part between underscores that is one.
pub open spec fn date_in(parts: Seq<Seq<char>>, n: int) -> Option<Date>
    decreases n,
{
    if n <= 0 {
        None
    } else {
        match date::day_of_text(parts[n - 1]) {
            Some(days) => Some(Date { days }),
            None => date_in(parts, n - 1),
        }
    }
}

/// The date in the stem of a file name.
pub open spec fn stem_date(stem: Seq<char>) -> Option<Date> {
    let parts = text::split(stem, '_');
    date_in(parts, parts.len() as int)
}

/// The date in the stem of a file name.
pub fn parse_date_from_stem(stem: &str) -> (r: Option<Date>)
    ensures
        r == stem_date(stem@),
{
    let parts = split_text(stem, '_');
    let ghost all = text::texts(parts@);
    let mut n: usize = parts.len();
    while n > 0
        invariant
            n <= parts@.len(),
            all == text::texts(parts@),
            all == text::split(stem@, '_'),
            stem_date(stem@) == date_in(all, n as int),
        decreases n,
    {
        assert(all[n - 1] == parts@[n - 1]@);
        match Date::parse(parts[n - 1].as_str()) {
            Some(d) => {
                return Some(d);
            },
            None => {},
        }
        n = n - 1;
    }
    None
}

/// The four bytes at the front of a tick file.
pub open spec fn magic() -> Seq<u8> {
    seq![84u8, 86, 67, 51]
}

/// The bytes are the four bytes at the front of a tick file.
pub fn is_valid_tvc_magic(head: &[u8]) -> (r: bool)
    ensures
        r == (head@ == magic()),
{
    let r = head.len() == 4 && head[0] == 84 && head[1] == 86 && head[2] == 67 && head[3] == 51;
    if r {
        assert(head@ =~= magic());
    }
    r
}

/// A file that was found in a directory tree of exchanges, venues and symbols.
#[derive(Debug)]
pub struct FoundFile {
    pub exchange_dir: String,
    pub venue_dir: String,
    pub symbol_dir: String,
    pub path: String,
    /// The first bytes, no more than four; empty where the file cannot be read.
    pub head: Vec<u8>,
    pub size_bytes: u64,
}

/// A directory of a venue.
#[derive(Debug)]
pub struct VenueDir {
    pub exchange_dir: String,
    pub venue_dir: String,
}

/// The exchange of a directory.
pub open spec fn dir_exchange(name: Seq<char>) -> Option<Exchange> {
    Exchange::named(text::lower(name))
}

/// The exchange of a directory; other directories are passed over.
pub fn exchange_of_dir(name: &str) -> (r: Option<Exchange>)
    ensures
        r == dir_exchange(name@),
{
    match_exchange(to_lower(name).as_str())
}

/// The venue of a directory.
pub open spec fn dir_venue(name: Seq<char>) -> Option<Venue> {
    Venue::named(text::lower(name))
}

/// The directory belongs to an exchange and to no venue of it.
pub open spec fn is_stray(d: VenueDir) -> bool {
    dir_exchange(d.exchange_dir@) is Some && dir_venue(d.venue_dir@) is None
}

/// The venue of a directory; another directory is an error.
pub fn venue_of_dir(name: &str) -> (r: Result<Venue, String>)
    ensures
        match r {
            Ok(v) => dir_venue(name@) == Some(v),
            Err(e) => dir_venue(name@) is None && e@ == "invalid venue dir"@,
        },
{
    match match_venue(to_lower(name).as_str()) {
        Some(v) => Ok(v),
        None => Err("invalid venue dir".to_owned()),
    }
}

/// A found file belongs to the catalog: its directories are known, its extension is `tvc`, it
/// starts as a tick file, and its name holds a date.
pub open spec fn belongs(f: FoundFile) -> bool {
    &&& dir_exchange(f.exchange_dir@) is Some
    &&& dir_venue(f.venue_dir@) is Some
    &&& path::extension(path::file_name(f.path@)) == Some("tvc"@)
    &&& f.head@ == magic()
    &&& stem_date(path::stem(path::file_name(f.path@))) is Some
}

/// The entry is what the catalog keeps of a found file.
pub open spec fn is_entry(t: TvcFile, f: FoundFile) -> bool {
    &&& Some(t.exchange) == dir_exchange(f.exchange_dir@)
    &&& Some(t.venue) == dir_venue(f.venue_dir@)
    &&& t.symbol@ == text::upper(f.symbol_dir@)
    &&& Some(t.date) == stem_date(path::stem(path::file_name(f.path@)))
    &&& t.path == f.path
    &&& t.size_bytes == f.size_bytes
}

/// What the catalog keeps of a found file.
pub fn entry_of(f: &FoundFile) -> (r: Option<TvcFile>)
    ensures
        match r {
            Some(t) => belongs(*f) && is_entry(t, *f),
            None => !belongs(*f),
        },
{
    let exchange = match exchange_of_dir(f.exchange_dir.as_str()) {
        Some(e) => e,
        None => {
            return None;
        },
    };
    let venue = match venue_of_dir(f.venue_dir.as_str()) {
        Ok(v) => v,
        Err(_) => {
            return None;
        },
    };
    let name = name_of(f.path.as_str());
    match extension_of(name.as_str()) {
        Some(x) => {
            if !same_text(x.as_str(), "tvc") {
                return None;
            }
        },
        None => {
            return None;
        },
    }
    if !is_valid_tvc_magic(f.head.as_slice()) {
        return None;
    }
    match parse_date_from_stem(stem_of(name.as_str()).as_str()) {
        Some(date) => Some(
            TvcFile {
                exchange,
                venue,
                symbol: to_upper(f.symbol_dir.as_str()),
                date,
                path: f.path.clone(),
                size_bytes: f.size_bytes,
            },
        ),
        None => None,
    }
}

/// A text of small letters stays as it is.
proof fn lemma_small_letters(s: Seq<char>)
    requires
        forall|i: int| 0 <= i < s.len() ==> 'a' <= #[trigger] s[i] <= 'z',
    ensures
        text::lower(s) == s,
{
    assert forall|i: int| 0 <= i < s.len() implies text::is_ascii_char(#[trigger] s[i]) by {
        assert('a' <= s[i] <= 'z');
    }
    assert(text::ascii_lower_text(s) =~= s);
}

/// A tick file with the path of a day is found as the file of that day: its directories name its
/// exchange and its venue, and its name holds the date.
pub proof fn file_of_a_day_is_found(
    root: Seq<char>,
    exchange: Exchange,
    venue: Venue,
    symbol: Seq<char>,
    date: Date,
    day: Seq<char>,
    f: FoundFile,
)
    requires
        date::reads_back(date.days, day),
        f.exchange_dir@ == exchange.name(),
        f.venue_dir@ == venue.name(),
        f.symbol_dir@ == symbol,
        f.path@ == types::tvc_path(root, exchange, venue, symbol, day),
        f.head@ == magic(),
    ensures
        belongs(f),
        forall|t: TvcFile| #[trigger]
            is_entry(t, f) ==> t.key() == key_of(exchange, venue, symbol, date),
{
    reveal_strlit("binance");
    reveal_strlit("bybit");
    reveal_strlit("okx");
    reveal_strlit("coinbase");
    reveal_strlit("spot");
    reveal_strlit("futures");
    reveal_strlit("linear");
    reveal_strlit("swap");
    lemma_small_letters(exchange.name());
    lemma_small_letters(venue.name());
    types::exchange_name_reads_back(exchange);
    types::venue_name_reads_back(venue);
    types::tvc_path_reads_back(root, exchange, venue, symbol, day);
    assert forall|i: int| 0 <= i < day.len() implies #[trigger] day[i] != '_' by {
        if i != 4 && i != 7 {
            assert('0' <= day[i] <= '9');
        }
    }
    text::split_of_one_piece(day, '_');
    reveal_with_fuel(date_in, 2);
    assert(stem_date(day) == Some(date));
}

/// Entries in the order in which they were found.
pub open spec fn entries_of(found: Seq<FoundFile>, entries: Seq<TvcFile>, n: int) -> bool
    decreases n,
{
    if n <= 0 {
        entries.len() == 0
    } else if belongs(found[n - 1]) {
        entries.len() > 0 && is_entry(entries.last(), found[n - 1]) && entries_of(
            found,
            entries.drop_last(),
            n - 1,
        )
    } else {
        entries_of(found, entries, n - 1)
    }
}

/// All entries put one behind the other.
pub open spec fn put_all(entries: Seq<TvcFile>) -> Seq<TvcFile>
    decreases entries.len(),
{
    if entries.len() == 0 {
        seq![]
    } else {
        put(put_all(entries.drop_last()), entries.last())
    }
}

// ---------------------------------------------------------------------------
// Catalog
// ---------------------------------------------------------------------------

/// The tick files that are there.
#[derive(Debug)]
pub struct Catalog {
    files: Vec<TvcFile>,
    root: String,
}

impl View for Catalog {
    type V = Seq<TvcFile>;

    closed spec fn view(&self) -> Seq<TvcFile> {
        self.files@
    }
}

/// The file is one of a symbol in a range of dates.
pub open spec fn selected(
    f: TvcFile,
    exchange: Exchange,
    venue: Venue,
    symbol: Seq<char>,
    range: Option<(Date, Date)>,
) -> bool {
    &&& f.exchange == exchange
    &&& f.venue == venue
    &&& f.symbol@ == text::upper(symbol)
    &&& match range {
        Some((start, end)) => start.days <= f.date.days <= end.days,
        None => true,
    }
}

/// The files of a symbol in a range of dates.
pub open spec fn listed(
    files: Seq<TvcFile>,
    exchange: Exchange,
    venue: Venue,
    symbol: Seq<char>,
    range: Option<(Date, Date)>,
) -> Seq<TvcFile> {
    files.filter(|f: TvcFile| selected(f, exchange, venue, symbol, range))
}

/// The dates of a range without a file.
pub open spec fn missing(
    files: Seq<TvcFile>,
    exchange: Exchange,
    venue: Venue,
    symbol: Seq<char>,
    start: Date,
    end: Date,
) -> Seq<Date> {
    date::days_between(start, end).filter(
        |d: Date| !has_key(files, key_of(exchange, venue, symbol, d)),
    )
}

/// What references stand for.
pub open spec fn referred(v: Seq<&TvcFile>) -> Seq<TvcFile> {
    Seq::new(v.len(), |i: int| *v[i])
}

impl Catalog {
    /// No two files are known under one key.
    pub open spec fn wf(&self) -> bool {
        keys_differ(self@)
    }

    /// The directory that was scanned.
    pub closed spec fn dir(&self) -> Seq<char> {
        self.root@
    }

    /// A catalog of what was found below a directory. A directory below an exchange that is no
    /// venue is an error.
    pub fn scan(root: &str, venues: &Vec<VenueDir>, found: &Vec<FoundFile>) -> (r: Result<
        Self,
        String,
    >)
        ensures
            match r {
                Ok(c) => {
                    &&& c.wf()
                    &&& c.dir() == root@
                    &&& forall|i: int| 0 <= i < venues@.len() ==> !is_stray(#[trigger] venues@[i])
                    &&& exists|entries: Seq<TvcFile>|
                        #[trigger] entries_of(found@, entries, found@.len() as int) && c@
                            == put_all(entries)
                },
                Err(e) => e@ == "invalid venue dir"@ && exists|i: int|
                    0 <= i < venues@.len() && is_stray(#[trigger] venues@[i]),
            },
    {
        let mut k: usize = 0;
        while k < venues.len()
            invariant
                k <= venues@.len(),
                forall|i: int| 0 <= i < k ==> !is_stray(#[trigger] venues@[i]),
            decreases venues@.len() - k,
        {
            if exchange_of_dir(venues[k].exchange_dir.as_str()).is_some() {
                match venue_of_dir(venues[k].venue_dir.as_str()) {
                    Ok(_) => {},
                    Err(e) => {
                        assert(is_stray(venues@[k as int]));
                        return Err(e);
                    },
                }
            }
            k = k + 1;
        }
        let mut catalog = Catalog { files: Vec::new(), root: root.to_owned() };
        let ghost mut entries: Seq<TvcFile> = seq![];
        let mut n: usize = 0;
        assert(catalog@ =~= put_all(entries));
        while n < found.len()
            invariant
                n <= found@.len(),
                catalog.wf(),
                catalog.dir() == root@,
                entries_of(found@, entries, n as int),
                catalog@ == put_all(entries),
            decreases found@.len() - n,
        {
            match entry_of(&found[n]) {
                Some(t) => {
                    proof {
                        assert(entries.push(t).drop_last() =~= entries);
                        entries = entries.push(t);
                    }
                    catalog.insert(t);
                },
                None => {},
            }
            n = n + 1;
        }
        Ok(catalog)
    }

    /// Puts a file; it takes the place of one with its key.
    pub fn insert(&mut self, f: TvcFile)
        requires
            old(self).wf(),
        ensures
            final(self).wf(),
            final(self)@ == put(old(self)@, f),
            final(self).dir() == old(self).dir(),
    {
        proof {
            put_keeps_the_others(self@, f, f.key());
        }
        match self.find(f.exchange, f.venue, f.symbol.as_str(), f.date) {
            Some(i) => {
                self.files.set(i, f);
            },
            None => {
                self.files.push(f);
            },
        }
    }

    fn find(&self, exchange: Exchange, venue: Venue, symbol: &str, date: Date) -> (r: Option<usize>)
        ensures
            ({
                let k = FileKey { exchange, venue, symbol: symbol@, date };
                match r {
                    Some(i) => i < self@.len() && i == place_of(self@, k, self@.len() as int),
                    None => place_of(self@, k, self@.len() as int) < 0,
                }
            }),
    {
        let ghost k = FileKey { exchange, venue, symbol: symbol@, date };
        let mut n: usize = 0;
        while n < self.files.len()
            invariant
                n <= self.files@.len(),
                k == (FileKey { exchange, venue, symbol: symbol@, date }),
                place_of(self@, k, n as int) == -1,
            decreases self.files@.len() - n,
        {
            let f = &self.files[n];
            if f.exchange == exchange && f.venue == venue && f.date == date && same_text(
                f.symbol.as_str(),
                symbol,
            ) {
                proof {
                    assert(place_of(self@, k, n + 1) == n);
                    lemma_place_stays(self@, k, n + 1, self@.len() as int);
                }
                return Some(n);
            }
            n = n + 1;
        }
        None
    }

    /// A file of a symbol and a date is there.
    pub fn contains(&self, exchange: Exchange, venue: Venue, symbol: &str, date: Date) -> (r: bool)
        ensures
            r == has_key(self@, key_of(exchange, venue, symbol@, date)),
    {
        self.get(exchange, venue, symbol, date).is_some()
    }

    /// The file of a symbol and a date.
    pub fn get(&self, exchange: Exchange, venue: Venue, symbol: &str, date: Date) -> (r: Option<
        &TvcFile,
    >)
        ensures
            match r {
                Some(f) => self@.contains(*f) && f.key() == key_of(exchange, venue, symbol@, date),
                None => !has_key(self@, key_of(exchange, venue, symbol@, date)),
            },
            r is Some ==> has_key(self@, key_of(exchange, venue, symbol@, date)),
    {
        let upper = to_upper(symbol);
        let r = self.find(exchange, venue, upper.as_str(), date);
        proof {
            lemma_place(self@, key_of(exchange, venue, symbol@, date), self@.len() as int);
        }
        match r {
            Some(i) => {
                assert(self@[i as int].key() == key_of(exchange, venue, symbol@, date));
                Some(&self.files[i])
            },
            None => None,
        }
    }

    fn select(
        &self,
        exchange: Exchange,
        venue: Venue,
        symbol: &str,
        range: Option<(Date, Date)>,
    ) -> (r: Vec<&TvcFile>)
        ensures
            referred(r@) == listed(self@, exchange, venue, symbol@, range),
    {
        let upper = to_upper(symbol);
        let ghost keep = |f: TvcFile| selected(f, exchange, venue, symbol@, range);
        let mut r: Vec<&TvcFile> = Vec::new();
        let mut n: usize = 0;
        proof {
            reveal(Seq::filter);
            assert(referred(r@) =~= self@.take(0).filter(keep));
        }
        while n < self.files.len()
            invariant
                n <= self.files@.len(),
                upper@ == text::upper(symbol@),
                keep == (|f: TvcFile| selected(f, exchange, venue, symbol@, range)),
                referred(r@) == self@.take(n as int).filter(keep),
            decreases self.files@.len() - n,
        {
            let f = &self.files[n];
            let inside = match range {
                Some((start, end)) => start.days <= f.date.days && f.date.days <= end.days,
                None => true,
            };
            let ghost before = r@;
            proof {
                assert(self@.take(n + 1) =~= self@.take(n as int).push(*f));
                filters::filter_of_push(self@.take(n as int), *f, keep);
            }
            if f.exchange == exchange && f.venue == venue && inside && same_text(
                f.symbol.as_str(),
                upper.as_str(),
            ) {
                r.push(f);
                assert(referred(r@) =~= referred(before).push(*f));
            }
            n = n + 1;
        }
        assert(self@.take(n as int) =~= self@);
        r
    }

    /// The files of a symbol.
    pub fn files_for(&self, exchange: Exchange, venue: Venue, symbol: &str) -> (r: Vec<&TvcFile>)
        ensures
            referred(r@) == listed(self@, exchange, venue, symbol@, None),
    {
        self.select(exchange, venue, symbol, None)
    }

    /// The files of a symbol from a date to another.
    pub fn files_in_range(
        &self,
        exchange: Exchange,
        venue: Venue,
        symbol: &str,
        start: Date,
        end: Date,
    ) -> (r: Vec<&TvcFile>)
        ensures
            referred(r@) == listed(self@, exchange, venue, symbol@, Some((start, end))),
    {
        self.select(exchange, venue, symbol, Some((start, end)))
    }

    /// The dates of a range without a file.
    pub fn missing_dates(
        &self,
        exchange: Exchange,
        venue: Venue,
        symbol: &str,
        start: Date,
        end: Date,
    ) -> (r: Vec<Date>)
        requires
            end.days < i32::MAX,
        ensures
            r@ == missing(self@, exchange, venue, symbol@, start, end),
    {
        let dates = dates_between(start, end);
        let ghost keep = |d: Date| !has_key(self@, key_of(exchange, venue, symbol@, d));
        let mut r: Vec<Date> = Vec::new();
        let mut n: usize = 0;
        proof {
            reveal(Seq::filter);
            assert(r@ =~= dates@.take(0).filter(keep));
        }
        while n < dates.len()
            invariant
                n <= dates@.len(),
                keep == (|d: Date| !has_key(self@, key_of(exchange, venue, symbol@, d))),
                r@ == dates@.take(n as int).filter(keep),
            decreases dates@.len() - n,
        {
            proof {
                assert(dates@.take(n + 1) =~= dates@.take(n as int).push(dates@[n as int]));
                filters::filter_of_push(dates@.take(n as int), dates@[n as int], keep);
            }
            if !self.contains(exchange, venue, symbol, dates[n]) {
                r.push(dates[n]);
            }
            n = n + 1;
        }
        assert(dates@.take(n as int) =~= dates@);
        r
    }
}

proof fn lemma_place_stays(files: Seq<TvcFile>, k: FileKey, a: int, b: int)
    requires
        0 <= a <= b,
        place_of(files, k, a) >= 0,
    ensures
        place_of(files, k, b) == place_of(files, k, a),
    decreases b - a,
{
    if a < b {
        lemma_place_stays(files, k, a, b - 1);
    }
}

/// A date of a range is missing, or its file is among the files of the range.
pub proof fn date_is_missing_or_there(
    files: Seq<TvcFile>,
    exchange: Exchange,
    venue: Venue,
    symbol: Seq<char>,
    start: Date,
    end: Date,
    d: Date,
)
    requires
        start.days <= d.days <= end.days,
    ensures
        missing(files, exchange, venue, symbol, start, end).contains(d) <==> !exists|f: TvcFile|
            f.date == d && #[trigger] listed(
                files,
                exchange,
                venue,
                symbol,
                Some((start, end)),
            ).contains(f),
{
    broadcast use vstd::seq_lib::group_filter_ensures;

    let days = date::days_between(start, end);
    let miss = |d: Date| !has_key(files, key_of(exchange, venue, symbol, d));
    let keep = |f: TvcFile| selected(f, exchange, venue, symbol, Some((start, end)));
    let absent = missing(files, exchange, venue, symbol, start, end);
    let there = listed(files, exchange, venue, symbol, Some((start, end)));
    let k = key_of(exchange, venue, symbol, d);
    assert(days[d.days - start.days] == d);
    if has_key(files, k) {
        let i = choose|i: int| 0 <= i < files.len() && (#[trigger] files[i]).key() == k;
        let f = files[i];
        assert(keep(f));
        assert(there.contains(f));
        if absent.contains(d) {
            let j = choose|j: int| 0 <= j < absent.len() && absent[j] == d;
            assert(miss(absent[j]));
        }
    } else {
        assert(miss(d));
        assert(absent.contains(d));
        if exists|f: TvcFile| f.date == d && #[trigger] there.contains(f) {
            let f = choose|f: TvcFile| f.date == d && #[trigger] there.contains(f);
            let j = choose|j: int| 0 <= j < there.len() && there[j] == f;
            assert(keep(there[j]));
            files.lemma_filter_contains_rev(keep, f);
            let i = choose|i: int| 0 <= i < files.len() && files[i] == f;
            assert(files[i].key() == k);
        }
    }
}

/// The files of a symbol in a range are those of the exchange, the venue and the symbol whose date is
/// not before the first and not behind the last date, all of them and no others.
pub proof fn range_lists_its_files(
    files: Seq<TvcFile>,
    exchange: Exchange,
    venue: Venue,
    symbol: Seq<char>,
    start: Date,
    end: Date,
    i: int,
)
    requires
        0 <= i < files.len(),
    ensures
        ({
            let f = files[i];
            let own = f.exchange == exchange && f.venue == venue && f.symbol@ == text::upper(symbol);
            &&& listed(files, exchange, venue, symbol, Some((start, end))).contains(f) <==> own
                && start.days <= f.date.days && f.date.days <= end.days
            &&& listed(files, exchange, venue, symbol, None).contains(f) <==> own
        }),
{
    lemma_selected(files, exchange, venue, symbol, Some((start, end)), i);
    lemma_selected(files, exchange, venue, symbol, None, i);
}

proof fn lemma_selected(
    files: Seq<TvcFile>,
    exchange: Exchange,
    venue: Venue,
    symbol: Seq<char>,
    range: Option<(Date, Date)>,
    i: int,
)
    requires
        0 <= i < files.len(),
    ensures
        listed(files, exchange, venue, symbol, range).contains(files[i]) <==> selected(
            files[i],
            exchange,
            venue,
            symbol,
            range,
        ),
{
    let pred = |f: TvcFile| selected(f, exchange, venue, symbol, range);
    if pred(files[i]) {
        files.lemma_filter_contains(pred, i);
    }
    if files.filter(pred).contains(files[i]) {
        let k = choose|k: int| 0 <= k < files.filter(pred).len() && files.filter(pred)[k] == files[i];
        files.lemma_filter_pred(pred, k);
    }
}

/// A file is put under its own key: it takes the place of the one that was known under it, and is one
/// more otherwise.
pub proof fn file_is_put_under_its_key(files: Seq<TvcFile>, f: TvcFile)
    ensures
        put(files, f).contains(f),
        has_key(files, f.key()) ==> put(files, f).len() == files.len(),
        !has_key(files, f.key()) ==> put(files, f) == files.push(f),
{
    lemma_place_is_a_place(files, f.key(), files.len() as int);
    let p = place_of(files, f.key(), files.len() as int);
    if p >= 0 {
        assert(put(files, f)[p] == f);
    } else {
        assert(put(files, f)[files.len() as int] == f);
    }
}

proof fn lemma_place_is_a_place(files: Seq<TvcFile>, k: FileKey, n: int)
    requires
        0 <= n <= files.len(),
    ensures
        ({
            let p = place_of(files, k, n);
            &&& p >= 0 ==> p < n && files[p].key() == k
            &&& p < 0 ==> forall|i: int| 0 <= i < n ==> (#[trigger] files[i]).key() != k
        }),
    decreases n,
{
    if n > 0 {
        lemma_place_is_a_place(files, k, n - 1);
    }
}

/// A file of a symbol is known in capitals, and under all of exchange, venue, symbol and date: files
/// that differ in one of them are different files.
pub proof fn key_tells_the_file(
    exchange: Exchange,
    venue: Venue,
    symbol: Seq<char>,
    date: Date,
    f: TvcFile,
)
    ensures
        f.key() == key_of(exchange, venue, symbol, date) <==> f.exchange == exchange && f.venue
            == venue && f.symbol@ == text::upper(symbol) && f.date == date,
{
}

/// The date of a file name is the last of its parts that is one.
pub proof fn last_date_counts(parts: Seq<Seq<char>>, n: int)
    requires
        0 < n <= parts.len(),
    ensures
        date::day_of_text(parts[n - 1]) matches Some(days) ==> date_in(parts, n) == Some(Date { days }),
        date::day_of_text(parts[n - 1]) is None ==> date_in(parts, n) == date_in(parts, n - 1),
        date_in(parts, 0) is None,
{
}

} // verus!
