//! Calendar dates, and their times.

use chrono::Datelike;
use chrono::NaiveDate;
use vstd::prelude::*;

verus! {

/// The number of 1 January 1970, with 1 January of the year 1 being day 1.
pub const EPOCH_DAY: i32 = 719_163;

/// The day that a text of the form `YYYY-MM-DD` names.
pub uninterp spec fn day_of_text(s: Seq<char>) -> Option<i32>;

/// `chrono::NaiveDate::parse_from_str` with the format `%Y-%m-%d`, as the number of the day that
/// `chrono::Datelike::num_days_from_ce` gives. The dates of the calendar lie within a hundred
/// million days of the year 1.
#[verifier::external_body]
fn parse_day(s: &str) -> (r: Option<i32>)
    ensures
        r == day_of_text(s@),
        r matches Some(n) ==> -100_000_000 < n < 100_000_000,
{
    NaiveDate::parse_from_str(s, "%Y-%m-%d").ok().map(|d| d.num_days_from_ce())
}

/// The day of a year, a month and a day of the month.
pub uninterp spec fn day_of_ymd(year: i32, month: u32, day: u32) -> Option<i32>;

/// `chrono::NaiveDate::from_ymd_opt`, as the number of the day that
/// `chrono::Datelike::num_days_from_ce` gives. The dates of the calendar lie within a hundred
/// million days of the year 1.
#[verifier::external_body]
fn ymd_day(year: i32, month: u32, day: u32) -> (r: Option<i32>)
    ensures
        r == day_of_ymd(year, month, day),
        r matches Some(n) ==> -100_000_000 < n < 100_000_000,
{
    NaiveDate::from_ymd_opt(year, month, day).map(|d| d.num_days_from_ce())
}

/// The year of a day; nothing for a day outside the calendar.
pub uninterp spec fn year_of_day(days: i32) -> Option<i32>;

/// `chrono::Datelike::year` of the date of a number of days, which
/// `chrono::NaiveDate::from_num_days_from_ce_opt` gives.
#[verifier::external_body]
fn day_year(days: i32) -> (r: Option<i32>)
    ensures
        r == year_of_day(days),
{
    NaiveDate::from_num_days_from_ce_opt(days).map(|d| d.year())
}

/// The text of a day in the form `YYYY-MM-DD`; nothing for a day outside the calendar.
pub uninterp spec fn text_of_day(days: i32) -> Option<Seq<char>>;

/// The text has four digits, two digits and two digits, with dashes between them.
pub open spec fn is_day_text(s: Seq<char>) -> bool {
    &&& s.len() == 10
    &&& s[4] == '-'
    &&& s[7] == '-'
    &&& forall|i: int| 0 <= i < 10 && i != 4 && i != 7 ==> '0' <= #[trigger] s[i] <= '9'
}

/// The day is one of a year with no more than four digits.
pub open spec fn has_four_digit_year(days: i32) -> bool {
    year_of_day(days) matches Some(y) && 0 <= y <= 9999
}

/// The text is the one of the day, and the day is the one of the text.
pub open spec fn reads_back(days: i32, s: Seq<char>) -> bool {
    is_day_text(s) && day_of_text(s) == Some(days)
}

/// The `Display` text of the `chrono::NaiveDate` of a number of days, which
/// `chrono::NaiveDate::from_num_days_from_ce_opt` gives. In the years 0 to 9999 it is written in
/// digits and dashes, and `chrono::NaiveDate::parse_from_str` with the format `%Y-%m-%d` reads the
/// same day.
#[verifier::external_body]
fn day_text(days: i32) -> (r: Option<String>)
    ensures
        match r {
            Some(s) => text_of_day(days) == Some(s@),
            None => text_of_day(days) is None,
        },
        r matches Some(s) ==> has_four_digit_year(days) ==> reads_back(days, s@),
{
    NaiveDate::from_num_days_from_ce_opt(days).map(|d| d.to_string())
}

/// A calendar date.
#[derive(Debug, Clone, Copy, PartialEq, Eq, PartialOrd, Ord, Hash, Structural)]
pub struct Date {
    /// Number of the day, with 1 January of the year 1 being day 1.
    pub days: i32,
}

/// Nanoseconds from the epoch to a number of seconds behind midnight of a day.
pub open spec fn nanos_at(days: i32, secs: int) -> int {
    (days - EPOCH_DAY) * 86_400_000_000_000 + secs * 1_000_000_000
}

/// A number of nanoseconds fits in 64 bits with a sign.
pub open spec fn nanos_fit(n: int) -> bool {
    i64::MIN <= n <= i64::MAX
}

/// The 64 bits of a number with a sign.
pub open spec fn bits_of(n: int) -> u64 {
    if n >= 0 {
        n as u64
    } else {
        (n + 0x1_0000_0000_0000_0000) as u64
    }
}

/// The bits of a time; 0 where it does not fit.
pub open spec fn bits_or_zero(n: int) -> u64 {
    if nanos_fit(n) {
        bits_of(n)
    } else {
        0
    }
}

/// The 64 bits of a number with a sign.
pub fn bits(n: i64) -> (r: u64)
    ensures
        r == bits_of(n as int),
{
    let u: u64 = n as u64;
    assert(n >= 0 ==> u == n) by (bit_vector)
        requires
            u == n as u64,
    ;
    assert(n < 0 ==> u == n + 0x1_0000_0000_0000_0000) by (bit_vector)
        requires
            u == n as u64,
    ;
    u
}

impl Date {
    /// Reads `YYYY-MM-DD`.
    pub fn parse(s: &str) -> (r: Option<Date>)
        ensures
            match r {
                Some(d) => day_of_text(s@) == Some(d.days) && -100_000_000 < d.days < 100_000_000,
                None => day_of_text(s@) is None,
            },
    {
        match parse_day(s) {
            Some(days) => Some(Date { days }),
            None => None,
        }
    }

    /// The date of a year, a month and a day of the month.
    pub fn from_ymd(year: i32, month: u32, day: u32) -> (r: Option<Date>)
        ensures
            match r {
                Some(d) => day_of_ymd(year, month, day) == Some(d.days) && -100_000_000 < d.days
                    < 100_000_000,
                None => day_of_ymd(year, month, day) is None,
            },
    {
        match ymd_day(year, month, day) {
            Some(days) => Some(Date { days }),
            None => None,
        }
    }

    /// The year.
    pub fn year(&self) -> (r: Option<i32>)
        ensures
            r == year_of_day(self.days),
    {
        day_year(self.days)
    }

    /// The text `YYYY-MM-DD`. In the years 0 to 9999 it reads back.
    pub fn to_text(&self) -> (r: Option<String>)
        ensures
            match r {
                Some(s) => text_of_day(self.days) == Some(s@),
                None => text_of_day(self.days) is None,
            },
            r matches Some(s) ==> has_four_digit_year(self.days) ==> reads_back(self.days, s@),
    {
        day_text(self.days)
    }

    /// Nanoseconds from the epoch to a number of seconds behind midnight UTC, where they fit in 64
    /// bits with a sign.
    pub fn nanos(&self, secs: u32) -> (r: Option<i64>)
        ensures
            r == (if nanos_fit(nanos_at(self.days, secs as int)) {
                Some(nanos_at(self.days, secs as int) as i64)
            } else {
                None
            }),
    {
        let n: i128 = (self.days as i128 - EPOCH_DAY as i128) * 86_400_000_000_000 + secs as i128
            * 1_000_000_000;
        if i64::MIN as i128 <= n && n <= i64::MAX as i128 {
            Some(n as i64)
        } else {
            None
        }
    }

    /// Midnight UTC in nanoseconds; 0 where it does not fit.
    pub fn utc_ns(&self) -> (r: u64)
        ensures
            r == bits_or_zero(nanos_at(self.days, 0)),
    {
        match self.nanos(0) {
            Some(n) => bits(n),
            None => 0,
        }
    }

    /// Midnight UTC in milliseconds.
    pub fn utc_millis(&self) -> (r: u64)
        ensures
            r == bits_of((self.days - EPOCH_DAY) * 86_400_000),
    {
        bits((self.days as i64 - EPOCH_DAY as i64) * 86_400_000)
    }

    /// The start of a trading day: two hours before midnight UTC of the date, in nanoseconds; 0
    /// where it does not fit.
    pub fn trading_day_start_ns(&self) -> (r: u64)
        requires
            self.days > i32::MIN,
        ensures
            r == bits_or_zero(nanos_at(self.days, -7_200)),
    {
        let prev = Date { days: self.days - 1 };
        assert(nanos_at(prev.days, 79_200) == nanos_at(self.days, -7_200));
        match prev.nanos(79_200) {
            Some(n) => bits(n),
            None => 0,
        }
    }
}

/// A trading day lasts a day, and the next one starts where it ends.
pub proof fn trading_days_follow_each_other(days: i32)
    requires
        days < i32::MAX,
    ensures
        nanos_at((days + 1) as i32, -7_200) == nanos_at(days, -7_200) + 86_400_000_000_000,
{
}

/// Days from the first to the last of a range of dates.
pub open spec fn days_between(start: Date, end: Date) -> Seq<Date> {
    if start.days <= end.days {
        Seq::new((end.days - start.days + 1) as nat, |i: int| Date { days: (start.days + i) as i32 })
    } else {
        seq![]
    }
}

/// The dates from the first to the last of a range.
pub fn dates_between(start: Date, end: Date) -> (r: Vec<Date>)
    requires
        end.days < i32::MAX,
    ensures
        r@ == days_between(start, end),
{
    let mut r: Vec<Date> = Vec::new();
    let mut d: i32 = start.days;
    while d <= end.days
        invariant
            end.days < i32::MAX,
            start.days <= d,
            d <= end.days + 1 || d == start.days,
            r@.len() == d - start.days,
            forall|i: int| 0 <= i < r@.len() ==> #[trigger] r@[i] == (Date {
                days: (start.days + i) as i32,
            }),
        decreases end.days - d + 1,
    {
        r.push(Date { days: d });
        d = d + 1;
    }
    assert(r@ =~= days_between(start, end));
    r
}

/// Midnight of the first of January 1970 is 0; a second and a day are as long as they are.
pub proof fn time_runs_from_the_epoch(days: i32, secs: int)
    requires
        days < i32::MAX,
    ensures
        nanos_at(719_163, 0) == 0,
        nanos_at(days, secs + 1) == nanos_at(days, secs) + 1_000_000_000,
        nanos_at(days, secs + 86_400) == nanos_at((days + 1) as i32, secs),
{
}

/// The bits of a number are the number itself, or the number and 2 to the 64 where it is below 0;
/// different numbers have different bits.
pub proof fn bits_are_twos_complement(n: int, m: int)
    requires
        nanos_fit(n),
        nanos_fit(m),
    ensures
        n >= 0 ==> bits_of(n) == n,
        n < 0 ==> bits_of(n) == n + 0x1_0000_0000_0000_0000,
        bits_of(n) == bits_of(m) ==> n == m,
        bits_or_zero(n) == bits_of(n),
{
}

/// A range of dates begins with its first date, goes on by one day and ends with its last; a range
/// that ends before it begins holds nothing.
pub proof fn range_holds_each_day_once(start: Date, end: Date, i: int)
    requires
        start.days <= end.days < i32::MAX,
        0 <= i <= end.days - start.days,
    ensures
        days_between(start, end).len() == end.days - start.days + 1,
        days_between(start, end)[0] == start,
        days_between(start, end)[end.days - start.days] == end,
        days_between(start, end)[i].days == start.days + i,
        end.days > start.days ==> days_between(end, start).len() == 0,
{
}

} // verus!
