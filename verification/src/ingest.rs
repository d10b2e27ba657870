//! The ingestor: its arguments, the files of each day, and its account of what was done.

use crate::date;
use crate::date::dates_between;
use crate::date::Date;
use crate::text;
use crate::text::decimal_text;
use crate::text::parse_unsigned_text;
use crate::text::same_text;
use vstd::prelude::*;

verus! {

// ---------------------------------------------------------------------------
// Arguments
// ---------------------------------------------------------------------------

/// What the ingestor is asked to do.
#[derive(Debug)]
pub struct IngestArgs {
    pub symbol: String,
    pub format: String,
    pub input_dir: Option<String>,
    pub output_dir: String,
    pub precision: u8,
    pub anchor_interval: u32,
    pub start_date: Option<String>,
    pub end_date: Option<String>,
}

/// What the ingestor is asked to do, as texts and numbers.
pub struct ArgsView {
    pub symbol: Seq<char>,
    pub format: Seq<char>,
    pub input_dir: Option<Seq<char>>,
    pub output_dir: Seq<char>,
    pub precision: u8,
    pub anchor_interval: u32,
    pub start_date: Option<Seq<char>>,
    pub end_date: Option<Seq<char>>,
}

/// A text that may be missing.
pub open spec fn text_view(s: Option<String>) -> Option<Seq<char>> {
    match s {
        Some(s) => Some(s@),
        None => None,
    }
}

impl View for IngestArgs {
    type V = ArgsView;

    open spec fn view(&self) -> ArgsView {
        ArgsView {
            symbol: self.symbol@,
            format: self.format@,
            input_dir: text_view(self.input_dir),
            output_dir: self.output_dir@,
            precision: self.precision,
            anchor_interval: self.anchor_interval,
            start_date: text_view(self.start_date),
            end_date: text_view(self.end_date),
        }
    }
}

/// What is done without arguments.
pub open spec fn defaults() -> ArgsView {
    ArgsView {
        symbol: "BTCUSDT"@,
        format: "binance"@,
        input_dir: None,
        output_dir: "./tvc_data"@,
        precision: 9,
        anchor_interval: 2,
        start_date: None,
        end_date: None,
    }
}

/// The argument is one of two names.
pub open spec fn either(arg: Seq<char>, long: Seq<char>, short: Seq<char>) -> bool {
    arg == long || arg == short
}

/// The argument takes the one behind it.
pub open spec fn takes_value(arg: Seq<char>) -> bool {
    ||| either(arg, "--symbol"@, "-s"@)
    ||| either(arg, "--format"@, "-f"@)
    ||| either(arg, "--input-dir"@, "-i"@)
    ||| either(arg, "--output"@, "-o"@)
    ||| either(arg, "--precision"@, "-p"@)
    ||| arg == "--anchor"@
    ||| arg == "--start"@
    ||| arg == "--end"@
}

/// A text that may be missing, or another one.
pub open spec fn or_text(s: Option<Seq<char>>, other: Seq<char>) -> Seq<char> {
    match s {
        Some(s) => s,
        None => other,
    }
}

/// A number in a text that may be missing, or another one.
pub open spec fn or_number(s: Option<Seq<char>>, max: nat, other: nat) -> nat {
    match text::parse_unsigned(or_text(s, seq![]), max) {
        Some(n) => n,
        None => other,
    }
}

/// What is asked behind an argument and its value.
pub open spec fn with_arg(a: ArgsView, arg: Seq<char>, value: Option<Seq<char>>) -> ArgsView {
    if either(arg, "--symbol"@, "-s"@) {
        ArgsView { symbol: or_text(value, a.symbol), ..a }
    } else if either(arg, "--format"@, "-f"@) {
        ArgsView { format: or_text(value, a.format), ..a }
    } else if either(arg, "--input-dir"@, "-i"@) {
        ArgsView { input_dir: Some(or_text(value, seq![])), ..a }
    } else if either(arg, "--output"@, "-o"@) {
        ArgsView { output_dir: or_text(value, seq![]), ..a }
    } else if either(arg, "--precision"@, "-p"@) {
        ArgsView { precision: or_number(value, u8::MAX as nat, a.precision as nat) as u8, ..a }
    } else if arg == "--anchor"@ {
        ArgsView { anchor_interval: or_number(value, u32::MAX as nat, 100) as u32, ..a }
    } else if arg == "--start"@ {
        ArgsView { start_date: value, ..a }
    } else if arg == "--end"@ {
        ArgsView { end_date: value, ..a }
    } else {
        a
    }
}

/// What is asked by the arguments from place `i` on. Unknown arguments are passed over.
pub open spec fn with_args(a: ArgsView, args: Seq<Seq<char>>, i: int) -> ArgsView
    decreases args.len() + 1 - i,
{
    if i < 0 || i >= args.len() {
        a
    } else if takes_value(args[i]) {
        let value = if i + 1 < args.len() {
            Some(args[i + 1])
        } else {
            None
        };
        with_args(with_arg(a, args[i], value), args, i + 2)
    } else {
        with_args(a, args, i + 1)
    }
}

fn is_either(arg: &str, long: &str, short: &str) -> (r: bool)
    ensures
        r == either(arg@, long@, short@),
{
    same_text(arg, long) || same_text(arg, short)
}

fn value_or(value: Option<&String>, other: &str) -> (r: String)
    ensures
        r@ == (match value {
            Some(s) => s@,
            None => other@,
        }),
{
    match value {
        Some(s) => s.clone(),
        None => other.to_owned(),
    }
}

impl IngestArgs {
    /// Reads arguments.
    pub fn parse(args: &Vec<String>) -> (r: IngestArgs)
        ensures
            r@ == with_args(defaults(), text::texts(args@), 0),
    {
        let mut a = IngestArgs {
            symbol: "BTCUSDT".to_owned(),
            format: "binance".to_owned(),
            input_dir: None,
            output_dir: "./tvc_data".to_owned(),
            precision: 9,
            anchor_interval: 2,
            start_date: None,
            end_date: None,
        };
        let ghost all = text::texts(args@);
        let count: usize = args.len();
        let mut i: usize = 0;
        while i < count
            invariant
                i <= count,
                count == args@.len(),
                all == text::texts(args@),
                with_args(defaults(), all, 0) == with_args(a@, all, i as int),
            decreases count - i,
        {
            let arg = args[i].as_str();
            assert(arg@ == all[i as int]);
            let value: Option<&String> = if count - i > 1 {
                assert(all[i + 1] == args@[i + 1]@);
                Some(&args[i + 1])
            } else {
                None
            };
            let ghost was = a@;
            let ghost given: Option<Seq<char>> = match value {
                Some(s) => Some(s@),
                None => None,
            };
            proof {
                reveal_strlit("");
                assert(""@ =~= seq![]);
            }
            let mut known = true;
            if is_either(arg, "--symbol", "-s") {
                a.symbol = value_or(value, a.symbol.as_str());
            } else if is_either(arg, "--format", "-f") {
                a.format = value_or(value, a.format.as_str());
            } else if is_either(arg, "--input-dir", "-i") {
                a.input_dir = Some(value_or(value, ""));
            } else if is_either(arg, "--output", "-o") {
                a.output_dir = value_or(value, "");
            } else if is_either(arg, "--precision", "-p") {
                match parse_unsigned_text(value_or(value, "").as_str(), 255) {
                    Some(n) => {
                        a.precision = n as u8;
                    },
                    None => {},
                }
            } else if same_text(arg, "--anchor") {
                a.anchor_interval = match parse_unsigned_text(
                    value_or(value, "").as_str(),
                    0xffff_ffff,
                ) {
                    Some(n) => n as u32,
                    None => 100,
                };
            } else if same_text(arg, "--start") {
                a.start_date = match value {
                    Some(s) => Some(s.clone()),
                    None => None,
                };
            } else if same_text(arg, "--end") {
                a.end_date = match value {
                    Some(s) => Some(s.clone()),
                    None => None,
                };
            } else {
                known = false;
            }
            assert(known == takes_value(arg@));
            if known {
                assert(a@ == with_arg(was, arg@, given));
                i = if count - i > 1 {
                    i + 2
                } else {
                    i + 1
                };
                proof {
                    if i == count {
                        assert(with_args(a@, all, count as int) == a@);
                        assert(with_args(a@, all, count + 1) == a@);
                    }
                }
            } else {
                assert(a@ == was);
                i = i + 1;
            }
        }
        a
    }

    /// What is done: days are downloaded where both ends of a range are given, else local files are
    /// read where there is a directory.
    pub fn mode(&self) -> (r: IngestMode)
        ensures
            r == mode_of(self@),
    {
        if self.start_date.is_some() && self.end_date.is_some() {
            IngestMode::Download
        } else if self.input_dir.is_some() {
            IngestMode::Local
        } else {
            IngestMode::Usage
        }
    }
}

/// What is done.
#[derive(Debug, Clone, Copy, PartialEq, Eq, Structural)]
pub enum IngestMode {
    Download,
    Local,
    Usage,
}

/// What is done.
pub open spec fn mode_of(a: ArgsView) -> IngestMode {
    if a.start_date is Some && a.end_date is Some {
        IngestMode::Download
    } else if a.input_dir is Some {
        IngestMode::Local
    } else {
        IngestMode::Usage
    }
}

// ---------------------------------------------------------------------------
// Days
// ---------------------------------------------------------------------------

/// The files of a day.
#[derive(Debug)]
pub struct DayFiles {
    pub date: String,
    pub zip_url: String,
    pub zip_name: String,
    pub csv_name: String,
    pub tvc_name: String,
}

/// The files are those of a symbol and a day.
pub open spec fn are_day_files(f: DayFiles, symbol: Seq<char>, day: Seq<char>) -> bool {
    let front = symbol + "-trades-"@ + day;
    &&& f.date@ == day
    &&& f.zip_url@ == "https://data.binance.vision/data/spot/daily/trades/"@ + symbol + "/"@
        + front + ".zip"@
    &&& f.zip_name@ == front + ".zip"@
    &&& f.csv_name@ == front + ".csv"@
    &&& f.tvc_name@ == symbol + "_"@ + day + ".tvc"@
}

/// The files of a symbol and a day.
fn day_files(symbol: &str, day: &str) -> (r: DayFiles)
    ensures
        are_day_files(r, symbol@, day@),
{
    let mut front = symbol.to_owned();
    front.append("-trades-");
    front.append(day);
    let mut zip_url = "https://data.binance.vision/data/spot/daily/trades/".to_owned();
    zip_url.append(symbol);
    zip_url.append("/");
    zip_url.append(front.as_str());
    zip_url.append(".zip");
    let mut zip_name = front.clone();
    zip_name.append(".zip");
    let mut csv_name = front.clone();
    csv_name.append(".csv");
    let mut tvc_name = symbol.to_owned();
    tvc_name.append("_");
    tvc_name.append(day);
    tvc_name.append(".tvc");
    DayFiles { date: day.to_owned(), zip_url, zip_name, csv_name, tvc_name }
}

/// The files are those of a symbol and a date.
pub open spec fn are_date_files(f: DayFiles, symbol: Seq<char>, d: Date) -> bool {
    match date::text_of_day(d.days) {
        Some(t) => are_day_files(f, symbol, t),
        None => false,
    }
}

/// Every day of a range has its files.
pub open spec fn are_range_files(files: Seq<DayFiles>, symbol: Seq<char>, days: Seq<Date>) -> bool {
    &&& files.len() == days.len()
    &&& forall|i: int|
        0 <= i < files.len() ==> are_date_files(#[trigger] files[i], symbol, days[i])
}

/// A day is outside the calendar.
pub open spec fn leaves_calendar(days: Seq<Date>) -> bool {
    exists|i: int| 0 <= i < days.len() && date::text_of_day((#[trigger] days[i]).days) is None
}

/// The files of every day from one date to another, or why there are none.
pub fn range_files(symbol: &str, start_date: &str, end_date: &str) -> (r: Result<
    Vec<DayFiles>,
    String,
>)
    ensures
        match (date::day_of_text(start_date@), date::day_of_text(end_date@)) {
            (None, _) => r matches Err(m) && m@ == "Invalid start date (use YYYY-MM-DD)"@,
            (Some(_), None) => r matches Err(m) && m@ == "Invalid end date (use YYYY-MM-DD)"@,
            (Some(s), Some(e)) => {
                let days = date::days_between(Date { days: s }, Date { days: e });
                match r {
                    Ok(v) => are_range_files(v@, symbol@, days),
                    Err(m) => m@ == "Date outside the calendar"@ && leaves_calendar(days),
                }
            },
        },
{
    let start = match Date::parse(start_date) {
        Some(d) => d,
        None => {
            return Err("Invalid start date (use YYYY-MM-DD)".to_owned());
        },
    };
    let end = match Date::parse(end_date) {
        Some(d) => d,
        None => {
            return Err("Invalid end date (use YYYY-MM-DD)".to_owned());
        },
    };
    let days = dates_between(start, end);
    let mut files: Vec<DayFiles> = Vec::new();
    let mut i: usize = 0;
    while i < days.len()
        invariant
            i <= days@.len(),
            days@ == date::days_between(start, end),
            date::day_of_text(start_date@) == Some(start.days),
            date::day_of_text(end_date@) == Some(end.days),
            files@.len() == i,
            forall|j: int|
                0 <= j < i ==> are_date_files(#[trigger] files@[j], symbol@, days@[j]),
        decreases days@.len() - i,
    {
        let d: Date = days[i];
        match d.to_text() {
            Some(t) => {
                let f = day_files(symbol, t.as_str());
                assert(are_date_files(f, symbol@, days@[i as int]));
                files.push(f);
            },
            None => {
                proof {
                    let all = date::days_between(Date { days: start.days }, Date { days: end.days });
                    assert(all[i as int] == d);
                    assert(leaves_calendar(all));
                }
                return Err("Date outside the calendar".to_owned());
            },
        }
        i = i + 1;
    }
    Ok(files)
}

// ---------------------------------------------------------------------------
// Account
// ---------------------------------------------------------------------------

/// What came of a day.
#[derive(Debug)]
pub enum DayOutcome {
    /// The archive could not be fetched.
    NetworkError(String),
    /// The server answered with another status.
    Status(String),
    /// The file was written, with this many ticks.
    Written(u64),
    /// The file could not be made.
    Failed(String),
}

impl DayOutcome {
    /// The line that is shown.
    pub open spec fn text(self) -> Seq<char> {
        match self {
            DayOutcome::NetworkError(e) => "SKIP (network error: "@ + e@ + ")"@,
            DayOutcome::Status(s) => "SKIP (HTTP "@ + s@ + ")"@,
            DayOutcome::Written(n) => text::decimal(n as nat) + " ticks ✓"@,
            DayOutcome::Failed(e) => "ERROR: "@ + e@,
        }
    }

    /// The line that is shown.
    pub fn message(&self) -> (r: String)
        ensures
            r@ == self.text(),
    {
        match self {
            DayOutcome::NetworkError(e) => {
                let mut s = "SKIP (network error: ".to_owned();
                s.append(e.as_str());
                s.append(")");
                s
            },
            DayOutcome::Status(e) => {
                let mut s = "SKIP (HTTP ".to_owned();
                s.append(e.as_str());
                s.append(")");
                s
            },
            DayOutcome::Written(n) => {
                let mut s = decimal_text(*n);
                s.append(" ticks ✓");
                s
            },
            DayOutcome::Failed(e) => "ERROR: ".to_owned().concat(e.as_str()),
        }
    }
}

/// What was done so far.
#[derive(Debug, Clone, Copy, PartialEq, Eq, Structural)]
pub struct Progress {
    pub files_written: u64,
    pub total_ticks: u64,
}

impl Progress {
    /// What was done behind a day: only a file that was written counts.
    pub open spec fn behind(self, outcome: DayOutcome) -> (int, int) {
        match outcome {
            DayOutcome::Written(n) => (self.files_written + 1, self.total_ticks + n),
            _ => (self.files_written as int, self.total_ticks as int),
        }
    }

    /// Nothing was done.
    pub fn new() -> (r: Self)
        ensures
            r.files_written == 0,
            r.total_ticks == 0,
    {
        Progress { files_written: 0, total_ticks: 0 }
    }

    /// Counts a day. False where the numbers do not fit.
    pub fn count(&mut self, outcome: &DayOutcome) -> (r: bool)
        ensures
            ({
                let (files, ticks) = old(self).behind(*outcome);
                if files <= u64::MAX && ticks <= u64::MAX {
                    r && final(self).files_written == files && final(self).total_ticks == ticks
                } else {
                    !r && *final(self) == *old(self)
                }
            }),
    {
        match outcome {
            DayOutcome::Written(n) => match (
                self.files_written.checked_add(1),
                self.total_ticks.checked_add(*n),
            ) {
                (Some(files), Some(ticks)) => {
                    self.files_written = files;
                    self.total_ticks = ticks;
                    true
                },
                _ => false,
            },
            _ => true,
        }
    }

    /// The last line.
    pub fn summary(&self) -> (r: String)
        ensures
            r@ == "\n✓ Done — "@ + text::decimal(self.files_written as nat) + " files, "@
                + text::decimal(self.total_ticks as nat) + " total ticks"@,
    {
        let mut s = "\n✓ Done — ".to_owned();
        s.append(decimal_text(self.files_written).as_str());
        s.append(" files, ");
        s.append(decimal_text(self.total_ticks).as_str());
        s.append(" total ticks");
        s
    }
}

/// A range of dates with both ends is downloaded; otherwise a directory is read, where there is one.
pub proof fn range_is_downloaded(a: ArgsView)
    ensures
        mode_of(a) is Download <==> a.start_date is Some && a.end_date is Some,
        mode_of(a) is Local <==> !(a.start_date is Some && a.end_date is Some) && a.input_dir
            is Some,
        mode_of(a) is Usage <==> !(a.start_date is Some && a.end_date is Some) && a.input_dir
            is None,
{
}

/// A day counts as a file and with its ticks where it was written, and not at all otherwise.
pub proof fn only_written_days_count(p: Progress, n: u64, other: DayOutcome)
    requires
        !(other is Written),
    ensures
        p.behind(DayOutcome::Written(n)) == (p.files_written + 1, p.total_ticks + n),
        p.behind(other) == (p.files_written as int, p.total_ticks as int),
{
}

/// Each argument sets what it is named after, by its long and by its short name, and nothing else; a
/// number that cannot be read leaves the precision and makes the anchor interval a hundred.
pub proof fn argument_sets_its_own_part(a: ArgsView, v: Seq<char>)
    ensures
        with_arg(a, "--symbol"@, Some(v)) == (ArgsView { symbol: v, ..a }),
        with_arg(a, "-s"@, Some(v)) == (ArgsView { symbol: v, ..a }),
        with_arg(a, "--format"@, Some(v)) == (ArgsView { format: v, ..a }),
        with_arg(a, "-f"@, Some(v)) == (ArgsView { format: v, ..a }),
        with_arg(a, "--input-dir"@, Some(v)) == (ArgsView { input_dir: Some(v), ..a }),
        with_arg(a, "-i"@, Some(v)) == (ArgsView { input_dir: Some(v), ..a }),
        with_arg(a, "--output"@, Some(v)) == (ArgsView { output_dir: v, ..a }),
        with_arg(a, "-o"@, Some(v)) == (ArgsView { output_dir: v, ..a }),
        with_arg(a, "--start"@, Some(v)) == (ArgsView { start_date: Some(v), ..a }),
        with_arg(a, "--end"@, Some(v)) == (ArgsView { end_date: Some(v), ..a }),
        text::parse_unsigned(v, 255) matches Some(n) ==> with_arg(a, "--precision"@, Some(v)) == (
        ArgsView { precision: n as u8, ..a }) && with_arg(a, "-p"@, Some(v)) == (ArgsView {
            precision: n as u8,
            ..a
        }),
        text::parse_unsigned(v, 255) is None ==> with_arg(a, "--precision"@, Some(v)) == a,
        text::parse_unsigned(v, 0xffff_ffff) matches Some(n) ==> with_arg(a, "--anchor"@, Some(v))
            == (ArgsView { anchor_interval: n as u32, ..a }),
        text::parse_unsigned(v, 0xffff_ffff) is None ==> with_arg(a, "--anchor"@, Some(v)) == (
        ArgsView { anchor_interval: 100, ..a }),
{
    reveal_strlit("--symbol");
    reveal_strlit("-s");
    reveal_strlit("--format");
    reveal_strlit("-f");
    reveal_strlit("--input-dir");
    reveal_strlit("-i");
    reveal_strlit("--output");
    reveal_strlit("-o");
    reveal_strlit("--precision");
    reveal_strlit("-p");
    reveal_strlit("--anchor");
    reveal_strlit("--start");
    reveal_strlit("--end");
    assert("--symbol"@.len() != "-s"@.len());
    assert("--symbol"@[2] != "--format"@[2]);
    assert("--symbol"@.len() != "-f"@.len());
    assert("--symbol"@.len() != "--input-dir"@.len());
    assert("--symbol"@.len() != "-i"@.len());
    assert("--symbol"@[2] != "--output"@[2]);
    assert("--symbol"@.len() != "-o"@.len());
    assert("--symbol"@.len() != "--precision"@.len());
    assert("--symbol"@.len() != "-p"@.len());
    assert("--symbol"@[2] != "--anchor"@[2]);
    assert("--symbol"@.len() != "--start"@.len());
    assert("--symbol"@.len() != "--end"@.len());
    assert("-s"@.len() != "--format"@.len());
    assert("-s"@[1] != "-f"@[1]);
    assert("-s"@.len() != "--input-dir"@.len());
    assert("-s"@[1] != "-i"@[1]);
    assert("-s"@.len() != "--output"@.len());
    assert("-s"@[1] != "-o"@[1]);
    assert("-s"@.len() != "--precision"@.len());
    assert("-s"@[1] != "-p"@[1]);
    assert("-s"@.len() != "--anchor"@.len());
    assert("-s"@.len() != "--start"@.len());
    assert("-s"@.len() != "--end"@.len());
    assert("--format"@.len() != "-f"@.len());
    assert("--format"@.len() != "--input-dir"@.len());
    assert("--format"@.len() != "-i"@.len());
    assert("--format"@[2] != "--output"@[2]);
    assert("--format"@.len() != "-o"@.len());
    assert("--format"@.len() != "--precision"@.len());
    assert("--format"@.len() != "-p"@.len());
    assert("--format"@[2] != "--anchor"@[2]);
    assert("--format"@.len() != "--start"@.len());
    assert("--format"@.len() != "--end"@.len());
    assert("-f"@.len() != "--input-dir"@.len());
    assert("-f"@[1] != "-i"@[1]);
    assert("-f"@.len() != "--output"@.len());
    assert("-f"@[1] != "-o"@[1]);
    assert("-f"@.len() != "--precision"@.len());
    assert("-f"@[1] != "-p"@[1]);
    assert("-f"@.len() != "--anchor"@.len());
    assert("-f"@.len() != "--start"@.len());
    assert("-f"@.len() != "--end"@.len());
    assert("--input-dir"@.len() != "-i"@.len());
    assert("--input-dir"@.len() != "--output"@.len());
    assert("--input-dir"@.len() != "-o"@.len());
    assert("--input-dir"@[2] != "--precision"@[2]);
    assert("--input-dir"@.len() != "-p"@.len());
    assert("--input-dir"@.len() != "--anchor"@.len());
    assert("--input-dir"@.len() != "--start"@.len());
    assert("--input-dir"@.len() != "--end"@.len());
    assert("-i"@.len() != "--output"@.len());
    assert("-i"@[1] != "-o"@[1]);
    assert("-i"@.len() != "--precision"@.len());
    assert("-i"@[1] != "-p"@[1]);
    assert("-i"@.len() != "--anchor"@.len());
    assert("-i"@.len() != "--start"@.len());
    assert("-i"@.len() != "--end"@.len());
    assert("--output"@.len() != "-o"@.len());
    assert("--output"@.len() != "--precision"@.len());
    assert("--output"@.len() != "-p"@.len());
    assert("--output"@[2] != "--anchor"@[2]);
    assert("--output"@.len() != "--start"@.len());
    assert("--output"@.len() != "--end"@.len());
    assert("-o"@.len() != "--precision"@.len());
    assert("-o"@[1] != "-p"@[1]);
    assert("-o"@.len() != "--anchor"@.len());
    assert("-o"@.len() != "--start"@.len());
    assert("-o"@.len() != "--end"@.len());
    assert("--precision"@.len() != "-p"@.len());
    assert("--precision"@.len() != "--anchor"@.len());
    assert("--precision"@.len() != "--start"@.len());
    assert("--precision"@.len() != "--end"@.len());
    assert("-p"@.len() != "--anchor"@.len());
    assert("-p"@.len() != "--start"@.len());
    assert("-p"@.len() != "--end"@.len());
    assert("--anchor"@.len() != "--start"@.len());
    assert("--anchor"@.len() != "--end"@.len());
    assert("--start"@.len() != "--end"@.len());
}

/// Arguments are taken one behind the other, each with the one behind it; what has no name is passed
/// over.
pub proof fn arguments_are_taken_in_turn(a: ArgsView, args: Seq<Seq<char>>, i: int)
    requires
        0 <= i,
    ensures
        i >= args.len() ==> with_args(a, args, i) == a,
        i + 1 < args.len() && takes_value(args[i]) ==> with_args(a, args, i) == with_args(
            with_arg(a, args[i], Some(args[i + 1])),
            args,
            i + 2,
        ),
        i < args.len() && !takes_value(args[i]) ==> with_args(a, args, i) == with_args(
            a,
            args,
            i + 1,
        ),
{
}

} // verus!
