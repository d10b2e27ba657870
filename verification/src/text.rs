//! Text primitives: splitting, decimal numbers and case folding over `Seq<char>`.

use crate::decimals;
use vstd::prelude::*;

verus! {

/// `String::push`: the character is put behind the text that is already there.
pub assume_specification[ String::push ](s: &mut String, c: char)
    ensures
        final(s)@ == old(s)@.push(c),
;

/// What `str::to_uppercase` makes of a text.
pub uninterp spec fn uppercase(s: Seq<char>) -> Seq<char>;

/// What `str::to_lowercase` makes of a text.
pub uninterp spec fn lowercase(s: Seq<char>) -> Seq<char>;

/// Whether `char::is_whitespace` holds of a character.
pub uninterp spec fn is_white(c: char) -> bool;

/// The character is one of the first 128 code points.
pub open spec fn is_ascii_char(c: char) -> bool {
    c as u32 <= 127
}

/// Every character of the text is one of the first 128 code points.
pub open spec fn is_ascii_text(s: Seq<char>) -> bool {
    forall|i: int| 0 <= i < s.len() ==> is_ascii_char(#[trigger] s[i])
}

/// `a` to `z` become `A` to `Z`, anything else stays.
pub open spec fn ascii_upper(c: char) -> char {
    if 'a' <= c <= 'z' {
        (c as u32 - 32) as char
    } else {
        c
    }
}

/// `A` to `Z` become `a` to `z`, anything else stays.
pub open spec fn ascii_lower(c: char) -> char {
    if 'A' <= c <= 'Z' {
        (c as u32 + 32) as char
    } else {
        c
    }
}

/// The text with `ascii_upper` applied to each character.
pub open spec fn ascii_upper_text(s: Seq<char>) -> Seq<char> {
    Seq::new(s.len(), |i: int| ascii_upper(s[i]))
}

/// The text with `ascii_lower` applied to each character.
pub open spec fn ascii_lower_text(s: Seq<char>) -> Seq<char> {
    Seq::new(s.len(), |i: int| ascii_lower(s[i]))
}

/// The capitals of a text.
pub open spec fn upper(s: Seq<char>) -> Seq<char> {
    if is_ascii_text(s) {
        ascii_upper_text(s)
    } else {
        uppercase(s)
    }
}

/// The small letters of a text.
pub open spec fn lower(s: Seq<char>) -> Seq<char> {
    if is_ascii_text(s) {
        ascii_lower_text(s)
    } else {
        lowercase(s)
    }
}

/// The character is white space.
pub open spec fn white(c: char) -> bool {
    if is_ascii_char(c) {
        c as u32 == 32 || 9 <= c as u32 <= 13
    } else {
        is_white(c)
    }
}

/// Calls `str::to_uppercase`. The result depends on the text alone; of a text made of ASCII
/// characters only the letters `a` to `z` change, each into its capital.
#[verifier::external_body]
pub(crate) fn to_upper(s: &str) -> (r: String)
    ensures
        r@ == (if is_ascii_text(s@) {
            ascii_upper_text(s@)
        } else {
            uppercase(s@)
        }),
{
    s.to_uppercase()
}

/// Calls `str::to_lowercase`. The result depends on the text alone; of a text made of ASCII
/// characters only the letters `A` to `Z` change, each into its small letter.
#[verifier::external_body]
pub(crate) fn to_lower(s: &str) -> (r: String)
    ensures
        r@ == (if is_ascii_text(s@) {
            ascii_lower_text(s@)
        } else {
            lowercase(s@)
        }),
{
    s.to_lowercase()
}

/// Calls `char::is_whitespace`. Among the ASCII characters it holds of the space and of the
/// code points 9 to 13.
#[verifier::external_body]
pub(crate) fn char_is_white(c: char) -> (r: bool)
    ensures
        r == (if is_ascii_char(c) {
            c as u32 == 32 || 9 <= c as u32 <= 13
        } else {
            is_white(c)
        }),
{
    c.is_whitespace()
}

/// The characters of a text, in order.
pub fn chars_of(s: &str) -> (v: Vec<char>)
    ensures
        v@ == s@,
{
    let mut v: Vec<char> = Vec::new();
    for c in iter: s.chars()
        invariant
            v@ == s@.subrange(0, iter.index() as int),
            iter.seq() == s@,
    {
        v.push(c);
        assert(v@ =~= s@.subrange(0, iter.index() as int + 1));
    }
    assert(s@.subrange(0, s@.len() as int) =~= s@);
    v
}

/// The text made of the characters `from..to` of `v`.
pub fn text_of(v: &Vec<char>, from: usize, to: usize) -> (s: String)
    requires
        from <= to <= v@.len(),
    ensures
        s@ == v@.subrange(from as int, to as int),
{
    let mut s = String::new();
    let mut i: usize = from;
    assert(v@.subrange(from as int, from as int) =~= Seq::<char>::empty());
    while i < to
        invariant
            from <= i <= to <= v@.len(),
            s@ == v@.subrange(from as int, i as int),
        decreases to - i,
    {
        s.push(v[i]);
        assert(v@.subrange(from as int, i as int).push(v@[i as int]) =~= v@.subrange(
            from as int,
            i as int + 1,
        ));
        i = i + 1;
    }
    s
}

/// Whether two texts hold the same characters.
pub fn same_text(a: &str, b: &str) -> (r: bool)
    ensures
        r == (a@ == b@),
{
    let x: String = a.to_owned();
    let y: String = b.to_owned();
    x == y
}

/// The texts of a sequence of strings.
pub open spec fn texts(v: Seq<String>) -> Seq<Seq<char>> {
    Seq::new(v.len(), |i: int| v[i]@)
}

// ---------------------------------------------------------------------------
// Decimal numbers
// ---------------------------------------------------------------------------

/// The character of a decimal digit.
pub open spec fn digit_char(d: nat) -> char {
    (48 + d) as char
}

/// The decimal notation of a number, without leading zeros.
pub open spec fn decimal(n: nat) -> Seq<char>
    decreases n,
{
    if n < 10 {
        seq![digit_char(n)]
    } else {
        decimal(n / 10).push(digit_char(n % 10))
    }
}

/// The character is one of `0` to `9`.
pub open spec fn is_digit(c: char) -> bool {
    '0' <= c <= '9'
}

/// The text consists of decimal digits.
pub open spec fn all_digits(s: Seq<char>) -> bool {
    forall|i: int| 0 <= i < s.len() ==> is_digit(#[trigger] s[i])
}

/// The number that a text of decimal digits denotes.
pub open spec fn digits_value(s: Seq<char>) -> nat
    decreases s.len(),
{
    if s.len() == 0 {
        0
    } else {
        digits_value(s.drop_last()) * 10 + (s.last() as nat - 48) as nat
    }
}

/// The text of digits behind an optional `+`.
pub open spec fn without_plus(s: Seq<char>) -> Seq<char> {
    if s.len() > 0 && s[0] == '+' {
        s.skip(1)
    } else {
        s
    }
}

/// A non-empty text of digits whose value is at most `max`.
pub open spec fn digits_up_to(s: Seq<char>, max: nat) -> Option<nat> {
    if s.len() > 0 && all_digits(s) && digits_value(s) <= max {
        Some(digits_value(s))
    } else {
        None
    }
}

/// The number written in a text: digits behind an optional `+`, at most `max`.
pub open spec fn parse_unsigned(s: Seq<char>, max: nat) -> Option<nat> {
    digits_up_to(without_plus(s), max)
}

/// The number written in a text: digits behind an optional sign, within `i64`.
pub open spec fn parse_signed(s: Seq<char>) -> Option<int> {
    if s.len() > 0 && s[0] == '-' {
        match digits_up_to(s.skip(1), 0x8000_0000_0000_0000) {
            Some(n) => Some(-(n as int)),
            None => None,
        }
    } else {
        match parse_unsigned(s, i64::MAX as nat) {
            Some(n) => Some(n as int),
            None => None,
        }
    }
}

/// Writing a number and reading it back gives the number.
pub proof fn decimal_reads_back(n: nat, max: nat)
    requires
        n <= max,
    ensures
        parse_unsigned(decimal(n), max) == Some(n),
{
    lemma_decimal(n);
    assert(decimal(n)[0] != '+');
}

proof fn lemma_decimal(n: nat)
    ensures
        decimal(n).len() > 0,
        all_digits(decimal(n)),
        digits_value(decimal(n)) == n,
    decreases n,
{
    if n < 10 {
        let s = seq![digit_char(n)];
        assert(s.drop_last() =~= Seq::<char>::empty());
        assert(digits_value(Seq::<char>::empty()) == 0);
    } else {
        lemma_decimal(n / 10);
        let s = decimal(n / 10).push(digit_char(n % 10));
        assert(s.drop_last() =~= decimal(n / 10));
    }
}

/// The decimal notation of `n`.
pub fn decimal_text(n: u64) -> (s: String)
    ensures
        s@ == decimal(n as nat),
    decreases n,
{
    let d: u8 = (n % 10) as u8;
    let c: char = (48u8 + d) as char;
    let mut s = if n < 10 {
        String::new()
    } else {
        decimal_text(n / 10)
    };
    assert(n < 10 ==> s@.push(c) =~= seq![digit_char(n as nat)]);
    s.push(c);
    s
}

/// The decimal notation of a number with a sign.
pub open spec fn signed(n: int) -> Seq<char> {
    if n < 0 {
        seq!['-'] + decimal((-n) as nat)
    } else {
        decimal(n as nat)
    }
}

/// The decimal notation of a number with a sign.
pub fn signed_text(n: i32) -> (s: String)
    ensures
        s@ == signed(n as int),
{
    if n < 0 {
        let mut s: String = "-".to_owned();
        s.append(decimal_text((-(n as i64)) as u64).as_str());
        proof {
            reveal_strlit("-");
            assert("-"@ =~= seq!['-']);
        }
        s
    } else {
        decimal_text(n as u64)
    }
}

/// The value of the digits `from..` of `v`, where it is at most `max`.
pub fn digits_from(v: &Vec<char>, from: usize, max: u64) -> (r: Option<u64>)
    requires
        from <= v@.len(),
    ensures
        match r {
            Some(n) => digits_up_to(v@.skip(from as int), max as nat) == Some(n as nat),
            None => digits_up_to(v@.skip(from as int), max as nat) is None,
        },
{
    let ghost body = v@.skip(from as int);
    if from == v.len() {
        return None;
    }
    let mut i: usize = from;
    let mut acc: u64 = 0;
    let mut over: bool = false;
    assert(body.take(0) =~= Seq::<char>::empty());
    while i < v.len()
        invariant
            from <= i <= v@.len(),
            body == v@.skip(from as int),
            all_digits(body.take(i - from)),
            over ==> digits_value(body.take(i - from)) > max,
            !over ==> digits_value(body.take(i - from)) == acc && acc <= max,
        decreases v@.len() - i,
    {
        let c: char = v[i];
        assert(body[i - from] == c);
        if !('0' <= c && c <= '9') {
            assert(!is_digit(body[i - from]));
            return None;
        }
        let ghost before = body.take(i - from);
        let ghost after = body.take(i - from + 1);
        assert(after.drop_last() =~= before);
        assert(after.last() == c);
        assert forall|j: int| 0 <= j < after.len() implies is_digit(#[trigger] after[j]) by {
            if j < before.len() {
                assert(before[j] == after[j]);
            }
        }
        let d: u64 = c as u64 - 48;
        if !over {
            let next: u128 = acc as u128 * 10 + d as u128;
            if next > max as u128 {
                over = true;
            } else {
                acc = next as u64;
            }
        }
        i = i + 1;
    }
    assert(body.take(body.len() as int) =~= body);
    if over {
        None
    } else {
        Some(acc)
    }
}

/// Reads a number of digits behind an optional `+`, at most `max`.
pub fn parse_unsigned_text(s: &str, max: u64) -> (r: Option<u64>)
    ensures
        match r {
            Some(n) => parse_unsigned(s@, max as nat) == Some(n as nat),
            None => parse_unsigned(s@, max as nat) is None,
        },
{
    let v = chars_of(s);
    if v.len() > 0 && v[0] == '+' {
        digits_from(&v, 1, max)
    } else {
        assert(v@.skip(0) =~= v@);
        digits_from(&v, 0, max)
    }
}

/// Reads a number of digits behind an optional sign, within `i64`.
pub fn parse_signed_text(s: &str) -> (r: Option<i64>)
    ensures
        match r {
            Some(n) => parse_signed(s@) == Some(n as int),
            None => parse_signed(s@) is None,
        },
{
    let v = chars_of(s);
    if v.len() > 0 && v[0] == '-' {
        match digits_from(&v, 1, 0x8000_0000_0000_0000) {
            Some(n) => if n == 0x8000_0000_0000_0000 {
                Some(i64::MIN)
            } else {
                Some(-(n as i64))
            },
            None => None,
        }
    } else {
        match parse_unsigned_text(s, 0x7fff_ffff_ffff_ffff) {
            Some(n) => Some(n as i64),
            None => None,
        }
    }
}

// ---------------------------------------------------------------------------
// Splitting
// ---------------------------------------------------------------------------

/// The position of the first `sep`, or the length where there is none.
pub open spec fn first_at(s: Seq<char>, sep: char) -> int
    decreases s.len(),
{
    if s.len() == 0 || s[0] == sep {
        0
    } else {
        1 + first_at(s.skip(1), sep)
    }
}

proof fn lemma_first_at(s: Seq<char>, sep: char, k: int)
    requires
        0 <= k <= s.len(),
        forall|i: int| 0 <= i < k ==> s[i] != sep,
        k < s.len() ==> s[k] == sep,
    ensures
        first_at(s, sep) == k,
    decreases k,
{
    if k > 0 {
        assert forall|i: int| 0 <= i < k - 1 implies s.skip(1)[i] != sep by {
            assert(s.skip(1)[i] == s[i + 1]);
        }
        lemma_first_at(s.skip(1), sep, k - 1);
    }
}

/// `first_at` is a position of `sep`, with none before it.
pub proof fn first_at_is_first(s: Seq<char>, sep: char)
    ensures
        0 <= first_at(s, sep) <= s.len(),
        first_at(s, sep) < s.len() ==> s[first_at(s, sep)] == sep,
        forall|i: int| 0 <= i < first_at(s, sep) ==> s[i] != sep,
    decreases s.len(),
{
    if s.len() > 0 && s[0] != sep {
        first_at_is_first(s.skip(1), sep);
        assert forall|i: int| 0 <= i < first_at(s, sep) implies s[i] != sep by {
            if i > 0 {
                assert(s.skip(1)[i - 1] == s[i]);
            }
        }
    }
}

/// The pieces of a text between the occurrences of `sep`.
pub open spec fn split(s: Seq<char>, sep: char) -> Seq<Seq<char>>
    decreases s.len(),
{
    let k = first_at(s, sep);
    if 0 <= k < s.len() {
        seq![s.take(k)] + split(s.skip(k + 1), sep)
    } else {
        seq![s]
    }
}

/// Splits a text at every `sep`.
pub fn split_text(s: &str, sep: char) -> (parts: Vec<String>)
    ensures
        texts(parts@) == split(s@, sep),
        parts@.len() > 0,
{
    let v = chars_of(s);
    let mut parts: Vec<String> = Vec::new();
    let mut start: usize = 0;
    let mut i: usize = 0;
    assert(v@.skip(0) =~= v@);
    assert(texts(parts@) + split(v@, sep) =~= split(v@, sep));
    while i < v.len()
        invariant
            start <= i <= v@.len(),
            texts(parts@) + split(v@.skip(start as int), sep) == split(v@, sep),
            forall|j: int| start <= j < i ==> v@[j] != sep,
        decreases v@.len() - i,
    {
        if v[i] == sep {
            let ghost rest = v@.skip(start as int);
            let ghost before = parts@;
            let part = text_of(&v, start, i);
            proof {
                lemma_first_at(rest, sep, i - start);
                assert(rest.take(i - start) =~= part@);
                assert(rest.skip(i - start + 1) =~= v@.skip(i + 1));
            }
            parts.push(part);
            assert(texts(parts@) =~= texts(before) + seq![part@]);
            assert(texts(before) + (seq![part@] + split(v@.skip(i + 1), sep)) =~= (texts(before)
                + seq![part@]) + split(v@.skip(i + 1), sep));
            start = i + 1;
        }
        i = i + 1;
    }
    let ghost rest = v@.skip(start as int);
    let ghost before = parts@;
    let part = text_of(&v, start, i);
    proof {
        lemma_first_at(rest, sep, rest.len() as int);
        assert(part@ =~= rest);
    }
    parts.push(part);
    assert(texts(parts@) =~= texts(before) + seq![part@]);
    parts
}

/// The text does not hold the character.
pub open spec fn lacks(s: Seq<char>, c: char) -> bool {
    forall|i: int| 0 <= i < s.len() ==> #[trigger] s[i] != c
}

/// Splitting undoes joining: a piece without the separator comes off whole.
pub proof fn split_takes_piece_off(a: Seq<char>, sep: char, b: Seq<char>)
    requires
        lacks(a, sep),
    ensures
        split(a + seq![sep] + b, sep) == seq![a] + split(b, sep),
{
    let s = a + seq![sep] + b;
    lemma_first_at(s, sep, a.len() as int);
    assert(s.take(a.len() as int) =~= a);
    assert(s.skip(a.len() as int + 1) =~= b);
}

/// A text without the separator is one piece.
pub proof fn split_of_one_piece(a: Seq<char>, sep: char)
    requires
        lacks(a, sep),
    ensures
        split(a, sep) == seq![a],
{
    lemma_first_at(a, sep, a.len() as int);
}

/// A number is written in digits only.
pub proof fn decimal_lacks(n: nat, c: char)
    requires
        !is_digit(c),
    ensures
        lacks(decimal(n), c),
{
    lemma_decimal(n);
}

/// The text between the first and the last character that is not white space.
pub open spec fn trim(s: Seq<char>) -> Seq<char>
    decreases s.len(),
{
    if s.len() == 0 {
        s
    } else if white(s[0]) {
        trim(s.skip(1))
    } else if white(s.last()) {
        trim(s.drop_last())
    } else {
        s
    }
}

/// Takes the white space off both ends of a text.
pub fn trim_text(s: &str) -> (r: String)
    ensures
        r@ == trim(s@),
{
    let v = chars_of(s);
    let mut from: usize = 0;
    let mut to: usize = v.len();
    assert(v@.subrange(0, v@.len() as int) =~= v@);
    while from < to && char_is_white(v[from])
        invariant
            from <= to == v@.len(),
            trim(v@.subrange(from as int, to as int)) == trim(v@),
        ensures
            from <= to == v@.len(),
            trim(v@.subrange(from as int, to as int)) == trim(v@),
            from < to ==> !white(v@[from as int]),
        decreases to - from,
    {
        assert(v@.subrange(from as int, to as int).skip(1) =~= v@.subrange(from + 1, to as int));
        from = from + 1;
    }
    while from < to && char_is_white(v[to - 1])
        invariant
            from <= to <= v@.len(),
            from < to ==> !white(v@[from as int]),
            trim(v@.subrange(from as int, to as int)) == trim(v@),
        ensures
            from <= to <= v@.len(),
            from < to ==> !white(v@[from as int]),
            from < to ==> !white(v@[to - 1]),
            trim(v@.subrange(from as int, to as int)) == trim(v@),
        decreases to - from,
    {
        assert(v@.subrange(from as int, to as int).drop_last() =~= v@.subrange(
            from as int,
            to - 1,
        ));
        to = to - 1;
    }
    text_of(&v, from, to)
}

// ---------------------------------------------------------------------------
// Lines
// ---------------------------------------------------------------------------

/// A text without a carriage return at its end.
pub open spec fn without_return(s: Seq<char>) -> Seq<char> {
    if s.len() > 0 && s.last() == '\r' {
        s.drop_last()
    } else {
        s
    }
}

/// The lines of a text. A line ends with a line feed, or with a carriage return and a line feed;
/// the last one may go without.
pub open spec fn lines(s: Seq<char>) -> Seq<Seq<char>> {
    let parts = split(s, '\n');
    let n = parts.len();
    Seq::new(
        if parts.last().len() == 0 {
            (n - 1) as nat
        } else {
            n
        },
        |i: int|
            if i < n - 1 {
                without_return(parts[i])
            } else {
                parts[i]
            },
    )
}

/// The lines of a text.
pub fn lines_of(s: &str) -> (r: Vec<String>)
    ensures
        texts(r@) == lines(s@),
{
    let parts = split_text(s, '\n');
    let n: usize = parts.len();
    let ghost all = texts(parts@);
    let mut r: Vec<String> = Vec::new();
    let mut i: usize = 0;
    while i < n - 1
        invariant
            n == parts@.len() == all.len(),
            n > 0,
            i <= n - 1,
            all == texts(parts@),
            r@.len() == i,
            forall|j: int| 0 <= j < i ==> (#[trigger] r@[j])@ == without_return(all[j]),
        decreases n - i,
    {
        let v = chars_of(parts[i].as_str());
        let m: usize = v.len();
        assert(v@ == all[i as int]);
        if m > 0 && v[m - 1] == '\r' {
            let line = text_of(&v, 0, m - 1);
            assert(line@ =~= all[i as int].drop_last());
            r.push(line);
        } else {
            r.push(parts[i].clone());
        }
        i = i + 1;
    }
    let last = parts[n - 1].clone();
    assert(last@ == all[n - 1]);
    let v = chars_of(last.as_str());
    if v.len() > 0 {
        r.push(last);
    }
    assert(texts(r@) =~= lines(s@));
    r
}

// ---------------------------------------------------------------------------
// Order
// ---------------------------------------------------------------------------

/// `a` comes before `b` in the order of the characters.
pub open spec fn comes_before(a: Seq<char>, b: Seq<char>) -> bool
    decreases a.len(),
{
    if b.len() == 0 {
        false
    } else if a.len() == 0 {
        true
    } else if a[0] != b[0] {
        a[0] < b[0]
    } else {
        comes_before(a.skip(1), b.skip(1))
    }
}

/// No text comes before itself.
pub broadcast proof fn before_irreflexive(a: Seq<char>)
    ensures
        !(#[trigger] comes_before(a, a)),
    decreases a.len(),
{
    if a.len() > 0 {
        before_irreflexive(a.skip(1));
    }
}

/// The order is transitive.
pub broadcast proof fn before_transitive(a: Seq<char>, b: Seq<char>, c: Seq<char>)
    requires
        #[trigger] comes_before(a, b),
        #[trigger] comes_before(b, c),
    ensures
        comes_before(a, c),
    decreases a.len(),
{
    if a.len() > 0 && a[0] == b[0] && b[0] == c[0] {
        before_transitive(a.skip(1), b.skip(1), c.skip(1));
    }
}

/// Of two texts that differ one comes before the other.
pub proof fn before_total(a: Seq<char>, b: Seq<char>)
    ensures
        a == b || comes_before(a, b) || comes_before(b, a),
    decreases a.len(),
{
    if a.len() > 0 && b.len() > 0 && a[0] == b[0] {
        before_total(a.skip(1), b.skip(1));
        if a.skip(1) == b.skip(1) {
            assert(a =~= seq![a[0]] + a.skip(1));
            assert(b =~= seq![b[0]] + b.skip(1));
        }
    } else if a.len() == 0 && b.len() == 0 {
        assert(a =~= b);
    }
}

/// Whether one text comes before another.
pub fn text_before(a: &str, b: &str) -> (r: bool)
    ensures
        r == comes_before(a@, b@),
{
    let x = chars_of(a);
    let y = chars_of(b);
    let mut i: usize = 0;
    assert(x@.skip(0) =~= x@);
    assert(y@.skip(0) =~= y@);
    while i < x.len() && i < y.len() && x[i] == y[i]
        invariant
            i <= x@.len(),
            i <= y@.len(),
            comes_before(x@.skip(i as int), y@.skip(i as int)) == comes_before(x@, y@),
        decreases x@.len() - i,
    {
        assert(x@.skip(i as int).skip(1) =~= x@.skip(i + 1));
        assert(y@.skip(i as int).skip(1) =~= y@.skip(i + 1));
        i = i + 1;
    }
    if i >= y.len() {
        false
    } else if i >= x.len() {
        true
    } else {
        x[i] < y[i]
    }
}

/// Digits stand for tens: one more digit behind a number makes it ten times as large and adds the
/// digit, which is 0 for `0` and 9 for `9`.
pub proof fn digits_stand_for_tens(s: Seq<char>, c: char)
    requires
        is_digit(c),
    ensures
        digits_value(s.push(c)) == 10 * digits_value(s) + (c as int - '0' as int),
        digits_value(seq![]) == 0,
        '0' <= c <= '9',
        !is_digit('+') && !is_digit('-') && !is_digit('.') && !is_digit(' '),
{
    assert(s.push(c).drop_last() =~= s);
}

/// A number is read where the text is digits, and nothing but digits behind one `+`, and where it is
/// not larger than the limit; it is read as the number that the digits stand for.
pub proof fn only_digits_are_read(s: Seq<char>, max: nat)
    ensures
        s.len() > 0 && all_digits(s) && digits_value(s) <= max ==> parse_unsigned(s, max) == Some(
            digits_value(s),
        ) && parse_unsigned(seq!['+'] + s, max) == Some(digits_value(s)),
        s.len() > 0 && all_digits(s) && digits_value(s) > max ==> parse_unsigned(s, max) is None,
        s.len() == 0 ==> parse_unsigned(s, max) is None && parse_signed(s) is None,
        (exists|i: int| 0 < i < s.len() && !is_digit(#[trigger] s[i])) ==> parse_unsigned(s, max)
            is None && parse_signed(s) is None,
{
    let p = seq!['+'] + s;
    assert(p.skip(1) =~= s);
    if s.len() > 0 && all_digits(s) {
        assert(is_digit(s[0]));
    }
    if exists|i: int| 0 < i < s.len() && !is_digit(#[trigger] s[i]) {
        let i = choose|i: int| 0 < i < s.len() && !is_digit(#[trigger] s[i]);
        assert(s.skip(1)[i - 1] == s[i]);
        assert(!all_digits(s.skip(1)));
        assert(!all_digits(s));
    }
}

/// A number with a sign is read as it was written.
pub proof fn signed_reads_back(n: int)
    requires
        i64::MIN <= n <= i64::MAX,
    ensures
        parse_signed(signed(n)) == Some(n),
{
    if n < 0 {
        let d = decimal((-n) as nat);
        lemma_decimal((-n) as nat);
        assert((seq!['-'] + d).skip(1) =~= d);
    } else {
        lemma_decimal(n as nat);
        decimal_reads_back(n as nat, i64::MAX as nat);
        assert(is_digit(decimal(n as nat)[0]));
    }
}

/// Of two texts with the same beginning the first different character decides, and a text comes
/// before the same text with more behind it.
pub proof fn first_difference_decides(
    front: Seq<char>,
    a: char,
    b: char,
    rest: Seq<char>,
    other: Seq<char>,
)
    requires
        a != b,
    ensures
        comes_before(front + (seq![a] + rest), front + (seq![b] + other)) == (a < b),
        comes_before(front, front + (seq![a] + rest)),
        !comes_before(front + (seq![a] + rest), front),
    decreases front.len(),
{
    let x = front + (seq![a] + rest);
    let y = front + (seq![b] + other);
    if front.len() > 0 {
        let tail = front.skip(1);
        first_difference_decides(tail, a, b, rest, other);
        assert(x.skip(1) =~= tail + (seq![a] + rest));
        assert(y.skip(1) =~= tail + (seq![b] + other));
        assert(x[0] == front[0] && y[0] == front[0]);
    } else {
        assert(x[0] == a && y[0] == b);
    }
}

/// White space around a text is taken off, and nothing within it.
pub proof fn trimming_takes_both_ends_off(front: Seq<char>, s: Seq<char>, back: Seq<char>)
    requires
        forall|i: int| 0 <= i < front.len() ==> white(#[trigger] front[i]),
        forall|i: int| 0 <= i < back.len() ==> white(#[trigger] back[i]),
        s.len() > 0 ==> !white(s[0]) && !white(s.last()),
    ensures
        trim(front + s + back) == s,
    decreases front.len() + back.len(),
{
    let t = front + s + back;
    if front.len() > 0 {
        assert(t[0] == front[0]);
        assert(t.skip(1) =~= front.skip(1) + s + back);
        assert forall|i: int| 0 <= i < front.skip(1).len() implies white(
            #[trigger] front.skip(1)[i],
        ) by {
            assert(front.skip(1)[i] == front[i + 1]);
        }
        trimming_takes_both_ends_off(front.skip(1), s, back);
    } else if back.len() > 0 {
        assert(t.last() == back.last());
        assert(back.last() == back[back.len() - 1]);
        if s.len() > 0 {
            assert(t[0] == s[0]);
            assert(t.drop_last() =~= front + s + back.drop_last());
            assert forall|i: int| 0 <= i < back.drop_last().len() implies white(
                #[trigger] back.drop_last()[i],
            ) by {
                assert(back.drop_last()[i] == back[i]);
            }
            trimming_takes_both_ends_off(front, s, back.drop_last());
        } else {
            assert(t =~= back);
            assert(white(t[0]));
            assert forall|i: int| 0 <= i < back.skip(1).len() implies white(
                #[trigger] back.skip(1)[i],
            ) by {
                assert(back.skip(1)[i] == back[i + 1]);
            }
            trimming_takes_both_ends_off(seq![], s, back.skip(1));
            assert(t.skip(1) =~= Seq::<char>::empty() + s + back.skip(1));
        }
    } else {
        assert(t =~= s);
    }
}

/// The lines of a text are those before its first line feed, without a carriage return at its end,
/// and those behind it.
pub proof fn line_feed_ends_a_line(a: Seq<char>, rest: Seq<char>)
    requires
        lacks(a, '\n'),
    ensures
        lines(a + seq!['\n'] + rest) == seq![without_return(a)] + lines(rest),
        lines(a).len() == if a.len() == 0 {
            0nat
        } else {
            1
        },
        a.len() > 0 ==> lines(a)[0] == a,
        without_return(a.push('\r')) == a,
{
    split_takes_piece_off(a, '\n', rest);
    split_of_one_piece(a, '\n');
    let parts = split(rest, '\n');
    let all = seq![a] + parts;
    lemma_split_has_a_piece(rest, '\n');
    assert(all.last() == parts.last());
    let l = lines(a + seq!['\n'] + rest);
    let m = seq![without_return(a)] + lines(rest);
    assert(l.len() == m.len());
    assert forall|i: int| 0 <= i < l.len() implies l[i] == m[i] by {
        if i > 0 {
            assert(all[i] == parts[i - 1]);
        }
    }
    assert(l =~= m);
    assert(a.push('\r').drop_last() =~= a);
}

proof fn lemma_split_has_a_piece(s: Seq<char>, sep: char)
    ensures
        split(s, sep).len() > 0,
{
    reveal_with_fuel(split, 1);
}

/// Capitals and small letters are thirty-two places apart, and only letters change.
pub proof fn letters_change_their_case(c: char)
    ensures
        'a' <= c <= 'z' ==> ascii_upper(c) as int == c as int - 32 && ascii_lower(ascii_upper(c))
            == c,
        'A' <= c <= 'Z' ==> ascii_lower(c) as int == c as int + 32 && ascii_upper(ascii_lower(c))
            == c,
        !('a' <= c <= 'z') ==> ascii_upper(c) == c,
        !('A' <= c <= 'Z') ==> ascii_lower(c) == c,
{
}

/// A number is written without zeros in front of it.
pub proof fn no_zeros_in_front(n: nat)
    requires
        n > 0,
    ensures
        decimal(n)[0] != '0',
        decimal(0) == seq!['0'],
    decreases n,
{
    if n >= 10 {
        no_zeros_in_front(n / 10);
        lemma_decimal(n / 10);
    }
}

/// Of a text of the first 128 characters each letter is made a capital, or a small letter, in its
/// place.
pub proof fn case_changes_in_place(s: Seq<char>, i: int)
    requires
        is_ascii_text(s),
        0 <= i < s.len(),
    ensures
        upper(s).len() == s.len(),
        lower(s).len() == s.len(),
        'a' <= s[i] <= 'z' ==> upper(s)[i] as int == s[i] as int - 32,
        'A' <= s[i] <= 'Z' ==> lower(s)[i] as int == s[i] as int + 32,
        !('a' <= s[i] <= 'z') ==> upper(s)[i] == s[i],
        !('A' <= s[i] <= 'Z') ==> lower(s)[i] == s[i],
{
}

/// A number below a power of ten has no more digits than the power has zeros; its digits are digits,
/// and stand for it.
pub proof fn decimal_is_as_long_as_its_number(n: nat, digits: nat)
    requires
        digits > 0,
        n < decimals::scaled(1, digits as int),
    ensures
        0 < decimal(n).len() <= digits,
        all_digits(decimal(n)),
        digits_value(decimal(n)) == n,
    decreases digits,
{
    lemma_decimal(n);
    if digits > 1 {
        decimals::zeros_are_tens(1, digits - 1, 0);
        if n >= 10 {
            decimal_is_as_long_as_its_number(n / 10, (digits - 1) as nat);
        }
    } else {
        decimals::zeros_are_tens(1, 0, 0);
    }
}

/// Zeros in front of digits do not change their number.
pub proof fn zeros_in_front_change_nothing(s: Seq<char>, zeros: nat)
    requires
        all_digits(s),
    ensures
        digits_value(Seq::new(zeros, |i: int| '0') + s) == digits_value(s),
        all_digits(Seq::new(zeros, |i: int| '0') + s),
    decreases s.len() + zeros,
{
    let z = Seq::new(zeros, |i: int| '0');
    let all = z + s;
    if s.len() > 0 {
        assert(all_digits(s.drop_last())) by {
            assert forall|i: int| 0 <= i < s.drop_last().len() implies is_digit(
                #[trigger] s.drop_last()[i],
            ) by {
                assert(s.drop_last()[i] == s[i]);
            }
        }
        zeros_in_front_change_nothing(s.drop_last(), zeros);
        assert(all.drop_last() =~= z + s.drop_last());
        assert(all.last() == s.last());
    } else if zeros > 0 {
        let fewer = Seq::new((zeros - 1) as nat, |i: int| '0');
        zeros_in_front_change_nothing(s, (zeros - 1) as nat);
        assert(all.drop_last() =~= fewer + s);
        assert(all.last() == '0');
    } else {
        assert(all =~= s);
    }
}

} // verus!
