//! Rows for the calibration of slippage: how they are read, held out and judged.

use crate::text;
use crate::text::chars_of;
use crate::text::decimal_text;
use crate::text::lines_of;
use crate::text::same_text;
use crate::text::split_text;
use crate::text::text_of;
use crate::text::trim_text;
use vstd::prelude::*;

verus! {

/// A row as texts.
#[derive(Debug)]
pub struct RowText {
    pub order_size_ticks: String,
    pub vpin: String,
    pub actual_impact_bps: String,
}

/// The three texts of a row.
pub struct RowView {
    pub order_size_ticks: Seq<char>,
    pub vpin: Seq<char>,
    pub actual_impact_bps: Seq<char>,
}

impl View for RowText {
    type V = RowView;

    open spec fn view(&self) -> RowView {
        RowView {
            order_size_ticks: self.order_size_ticks@,
            vpin: self.vpin@,
            actual_impact_bps: self.actual_impact_bps@,
        }
    }
}

/// The line starts as a header does.
pub open spec fn is_header(line: Seq<char>) -> bool {
    let name = "order_size_ticks"@;
    line.len() >= name.len() && line.take(name.len() as int) == name
}

fn looks_like_header(line: &str) -> (r: bool)
    ensures
        r == is_header(line@),
{
    let v = chars_of(line);
    let n: usize = chars_of("order_size_ticks").len();
    if v.len() < n {
        return false;
    }
    let front = text_of(&v, 0, n);
    assert(front@ =~= line@.take(n as int));
    same_text(front.as_str(), "order_size_ticks")
}

/// The row of a line: its first three fields. A line with fewer has none, nor has a header in the
/// first line.
pub open spec fn row_of(line: Seq<char>, i: int) -> Option<RowView> {
    let fields = text::split(line, ',');
    if (i == 0 && is_header(line)) || fields.len() < 3 {
        None
    } else {
        Some(
            RowView {
                order_size_ticks: text::trim(fields[0]),
                vpin: text::trim(fields[1]),
                actual_impact_bps: text::trim(fields[2]),
            },
        )
    }
}

/// The rows of the first `n` lines.
pub open spec fn rows_of(lines: Seq<Seq<char>>, n: int) -> Seq<RowView>
    decreases n,
{
    if n <= 0 {
        seq![]
    } else {
        match row_of(lines[n - 1], n - 1) {
            Some(row) => rows_of(lines, n - 1).push(row),
            None => rows_of(lines, n - 1),
        }
    }
}

/// Rows as texts.
pub open spec fn views(rows: Seq<RowText>) -> Seq<RowView> {
    Seq::new(rows.len(), |i: int| rows[i]@)
}

/// The rows of a table.
pub fn read_rows(contents: &str) -> (r: Vec<RowText>)
    ensures
        views(r@) == rows_of(text::lines(contents@), text::lines(contents@).len() as int),
{
    let lines = lines_of(contents);
    let ghost all = text::lines(contents@);
    let mut rows: Vec<RowText> = Vec::new();
    let mut i: usize = 0;
    assert(views(rows@) =~= seq![]);
    while i < lines.len()
        invariant
            i <= lines@.len() == all.len(),
            all == text::texts(lines@),
            views(rows@) == rows_of(all, i as int),
        decreases lines@.len() - i,
    {
        let line = &lines[i];
        assert(line@ == all[i as int]);
        let fields = split_text(line.as_str(), ',');
        let ghost parts = text::texts(fields@);
        let header = i == 0 && looks_like_header(line.as_str());
        if !header && fields.len() >= 3 {
            assert(parts[0] == fields@[0]@ && parts[1] == fields@[1]@ && parts[2] == fields@[2]@);
            let ghost before = views(rows@);
            let row = RowText {
                order_size_ticks: trim_text(fields[0].as_str()),
                vpin: trim_text(fields[1].as_str()),
                actual_impact_bps: trim_text(fields[2].as_str()),
            };
            rows.push(row);
            assert(views(rows@) =~= before.push(row@));
        }
        i = i + 1;
    }
    rows
}

/// The number of rows held out: a fifth, and at least one.
pub open spec fn held_out(n: int) -> int {
    if n / 5 > 1 {
        n / 5
    } else {
        1
    }
}

/// The number of rows that are fitted; the others are held out. Fewer than ten rows are too few.
pub fn fit_count(n: usize) -> (r: Result<usize, String>)
    ensures
        match r {
            Ok(k) => n >= 10 && k == n - held_out(n as int),
            Err(m) => n < 10 && m@ == "Need at least 10 rows for calibration, got "@
                + text::decimal(n as nat),
        },
{
    if n < 10 {
        let mut m = "Need at least 10 rows for calibration, got ".to_owned();
        m.append(decimal_text(n as u64).as_str());
        return Err(m);
    }
    let k: usize = n / 5;
    if k > 1 {
        Ok(n - k)
    } else {
        Ok(n - 1)
    }
}

/// The rows held out pass where at least four in five are predicted within one basis point.
pub fn holdout_passes(within: u64, held: u64) -> (r: bool)
    ensures
        r == (within * 5 >= held * 4),
{
    within as u128 * 5 >= held as u128 * 4
}

/// Rows are fitted and rows are held out, and no more than a fifth are held out.
pub proof fn both_parts_have_rows(n: int)
    requires
        n >= 10,
    ensures
        1 <= held_out(n),
        held_out(n) * 5 <= n,
        n - held_out(n) >= 8,
{
}

/// As many rows are held out as a fifth allows.
pub proof fn a_fifth_is_held_out(n: int)
    requires
        n >= 10,
    ensures
        5 * held_out(n) <= n < 5 * (held_out(n) + 1),
{
}

/// A line of three fields gives a row of them, without the white space around them; what stands
/// behind a third comma is passed over.
pub proof fn three_fields_are_a_row(a: Seq<char>, b: Seq<char>, c: Seq<char>, i: int)
    requires
        i > 0,
        text::lacks(a, ','),
        text::lacks(b, ','),
        text::lacks(c, ','),
    ensures
        row_of(a + seq![','] + (b + seq![','] + c), i) == Some(
            RowView {
                order_size_ticks: text::trim(a),
                vpin: text::trim(b),
                actual_impact_bps: text::trim(c),
            },
        ),
        row_of(a + seq![','] + b, i) is None,
{
    text::split_takes_piece_off(a, ',', b + seq![','] + c);
    text::split_takes_piece_off(b, ',', c);
    text::split_of_one_piece(c, ',');
    text::split_takes_piece_off(a, ',', b);
    text::split_of_one_piece(b, ',');
}

/// A header is passed over in the first line, and in no other; no line gives more than one row.
pub proof fn header_is_passed_over(lines: Seq<Seq<char>>, n: int)
    requires
        0 <= n <= lines.len(),
    ensures
        n > 0 && is_header(lines[0]) ==> row_of(lines[0], 0) is None,
        rows_of(lines, n).len() <= n,
        n > 0 && row_of(lines[n - 1], n - 1) is Some ==> rows_of(lines, n).len() == rows_of(
            lines,
            n - 1,
        ).len() + 1 && rows_of(lines, n).last() == row_of(lines[n - 1], n - 1)->0,
        n > 0 && row_of(lines[n - 1], n - 1) is None ==> rows_of(lines, n) == rows_of(lines, n - 1),
    decreases n,
{
    if n > 0 {
        header_is_passed_over(lines, n - 1);
    }
}

} // verus!
