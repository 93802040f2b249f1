//! The fixed-layout textual timestamp codec.
//!
//! Two encodings carry the same fields (month name, day, four-digit year,
//! hour, minute, second) at different fixed character offsets: one inside the
//! request header's claimed-version string, one inside the stored build
//! marker, which carries extra surrounding text. A layout descriptor gives
//! each field's offset and one generic decoder consumes it; the day field is
//! one digit when the character at the day offset is a space, otherwise two
//! digits.

use vstd::prelude::*;

use crate::errors::ParseError;
use crate::text::{lines_of, push_char};
use crate::timestamp::FirmwareTimestamp;

verus! {

/// Field offsets of one textual timestamp encoding.
#[derive(Clone, Copy, PartialEq, Eq, Structural, Debug)]
pub struct TimestampLayout {
    pub month_off: usize,
    pub day_off: usize,
    pub year_off: usize,
    pub hour_off: usize,
    pub minute_off: usize,
    pub second_off: usize,
}

impl TimestampLayout {
    /// Offsets in field order, far enough apart that no two fields overlap:
    /// three characters of month name, two of day, four of year, two each of
    /// hour, minute and second.
    pub open spec fn wf(self) -> bool {
        &&& self.month_off + 3 <= self.day_off
        &&& self.day_off + 2 <= self.year_off
        &&& self.year_off + 4 <= self.hour_off
        &&& self.hour_off + 2 <= self.minute_off
        &&& self.minute_off + 2 <= self.second_off
        &&& self.second_off + 2 <= usize::MAX
    }

    /// The shortest text the layout can decode.
    pub open spec fn min_len(self) -> int {
        self.second_off + 2
    }
}

/// The layout of the claimed-version string a device sends in its request
/// header: `Mmm DD YYYY, HH:MM:SS`, with a key suffix the decoder ignores.
pub open spec fn spec_request_layout() -> TimestampLayout {
    TimestampLayout {
        month_off: 0,
        day_off: 4,
        year_off: 7,
        hour_off: 13,
        minute_off: 16,
        second_off: 19,
    }
}

/// Executable form of [`spec_request_layout`].
pub fn request_layout() -> (l: TimestampLayout)
    ensures
        l == spec_request_layout(),
        l.wf(),
{
    TimestampLayout { month_off: 0, day_off: 4, year_off: 7, hour_off: 13, minute_off: 16, second_off: 19 }
}

/// The layout of the stored build-marker artifact, whose text carries one
/// leading character before the date and further characters between date and
/// time.
pub open spec fn spec_artifact_layout() -> TimestampLayout {
    TimestampLayout {
        month_off: 1,
        day_off: 5,
        year_off: 8,
        hour_off: 19,
        minute_off: 22,
        second_off: 25,
    }
}

/// Executable form of [`spec_artifact_layout`].
pub fn artifact_layout() -> (l: TimestampLayout)
    ensures
        l == spec_artifact_layout(),
        l.wf(),
{
    TimestampLayout { month_off: 1, day_off: 5, year_off: 8, hour_off: 19, minute_off: 22, second_off: 25 }
}

/// Whether `c` is a decimal digit.
pub open spec fn is_digit(c: char) -> bool {
    48 <= c as u32 <= 57
}

/// The value of a decimal digit character.
pub open spec fn digit_val(c: char) -> int {
    c as u32 - 48
}

/// The character of a decimal digit value.
pub open spec fn digit_char(d: int) -> char {
    if d == 0 {
        '0'
    } else if d == 1 {
        '1'
    } else if d == 2 {
        '2'
    } else if d == 3 {
        '3'
    } else if d == 4 {
        '4'
    } else if d == 5 {
        '5'
    } else if d == 6 {
        '6'
    } else if d == 7 {
        '7'
    } else if d == 8 {
        '8'
    } else {
        '9'
    }
}

proof fn lemma_digit_char_val(d: int)
    requires
        0 <= d <= 9,
    ensures
        is_digit(digit_char(d)),
        digit_val(digit_char(d)) == d,
        digit_char(d) != ' ',
{
}

/// The fixed 12-entry month-name table: the month number named by three
/// characters, if any.
pub open spec fn month_of(c0: char, c1: char, c2: char) -> Option<int> {
    if c0 == 'J' && c1 == 'a' && c2 == 'n' {
        Some(1int)
    } else if c0 == 'F' && c1 == 'e' && c2 == 'b' {
        Some(2int)
    } else if c0 == 'M' && c1 == 'a' && c2 == 'r' {
        Some(3int)
    } else if c0 == 'A' && c1 == 'p' && c2 == 'r' {
        Some(4int)
    } else if c0 == 'M' && c1 == 'a' && c2 == 'y' {
        Some(5int)
    } else if c0 == 'J' && c1 == 'u' && c2 == 'n' {
        Some(6int)
    } else if c0 == 'J' && c1 == 'u' && c2 == 'l' {
        Some(7int)
    } else if c0 == 'A' && c1 == 'u' && c2 == 'g' {
        Some(8int)
    } else if c0 == 'S' && c1 == 'e' && c2 == 'p' {
        Some(9int)
    } else if c0 == 'O' && c1 == 'c' && c2 == 't' {
        Some(10int)
    } else if c0 == 'N' && c1 == 'o' && c2 == 'v' {
        Some(11int)
    } else if c0 == 'D' && c1 == 'e' && c2 == 'c' {
        Some(12int)
    } else {
        None
    }
}

/// The three characters naming month `m`.
pub open spec fn month_name(m: int) -> Seq<char> {
    if m == 1 {
        seq!['J', 'a', 'n']
    } else if m == 2 {
        seq!['F', 'e', 'b']
    } else if m == 3 {
        seq!['M', 'a', 'r']
    } else if m == 4 {
        seq!['A', 'p', 'r']
    } else if m == 5 {
        seq!['M', 'a', 'y']
    } else if m == 6 {
        seq!['J', 'u', 'n']
    } else if m == 7 {
        seq!['J', 'u', 'l']
    } else if m == 8 {
        seq!['A', 'u', 'g']
    } else if m == 9 {
        seq!['S', 'e', 'p']
    } else if m == 10 {
        seq!['O', 'c', 't']
    } else if m == 11 {
        seq!['N', 'o', 'v']
    } else {
        seq!['D', 'e', 'c']
    }
}

fn exec_month_of(c0: char, c1: char, c2: char) -> (r: Option<u32>)
    ensures
        match r {
            Some(m) => month_of(c0, c1, c2) == Some(m as int),
            None => month_of(c0, c1, c2) is None,
        },
{
    if c0 == 'J' && c1 == 'a' && c2 == 'n' {
        Some(1)
    } else if c0 == 'F' && c1 == 'e' && c2 == 'b' {
        Some(2)
    } else if c0 == 'M' && c1 == 'a' && c2 == 'r' {
        Some(3)
    } else if c0 == 'A' && c1 == 'p' && c2 == 'r' {
        Some(4)
    } else if c0 == 'M' && c1 == 'a' && c2 == 'y' {
        Some(5)
    } else if c0 == 'J' && c1 == 'u' && c2 == 'n' {
        Some(6)
    } else if c0 == 'J' && c1 == 'u' && c2 == 'l' {
        Some(7)
    } else if c0 == 'A' && c1 == 'u' && c2 == 'g' {
        Some(8)
    } else if c0 == 'S' && c1 == 'e' && c2 == 'p' {
        Some(9)
    } else if c0 == 'O' && c1 == 'c' && c2 == 't' {
        Some(10)
    } else if c0 == 'N' && c1 == 'o' && c2 == 'v' {
        Some(11)
    } else if c0 == 'D' && c1 == 'e' && c2 == 'c' {
        Some(12)
    } else {
        None
    }
}

fn exec_digit_of(c: char) -> (r: Option<u32>)
    ensures
        match r {
            Some(d) => is_digit(c) && d == digit_val(c) && d <= 9,
            None => !is_digit(c),
        },
{
    let u = c as u32;
    if 48 <= u && u <= 57 {
        Some(u - 48)
    } else {
        None
    }
}

/// The value of the two-digit field at `off`, if both characters are digits.
pub open spec fn two_digits_at(s: Seq<char>, off: int) -> Option<int> {
    if is_digit(s[off]) && is_digit(s[off + 1]) {
        Some(10 * digit_val(s[off]) + digit_val(s[off + 1]))
    } else {
        None
    }
}

/// The value of the four-digit field at `off`, if all four characters are
/// digits.
pub open spec fn four_digits_at(s: Seq<char>, off: int) -> Option<int> {
    if is_digit(s[off]) && is_digit(s[off + 1]) && is_digit(s[off + 2]) && is_digit(s[off + 3]) {
        Some(
            1000 * digit_val(s[off]) + 100 * digit_val(s[off + 1]) + 10 * digit_val(s[off + 2])
                + digit_val(s[off + 3]),
        )
    } else {
        None
    }
}

/// The day field at `off`: a space at the offset means a single digit
/// follows it, otherwise the day is the two digits at the offset.
pub open spec fn day_at(s: Seq<char>, off: int) -> Option<int> {
    if s[off] == ' ' {
        if is_digit(s[off + 1]) {
            Some(digit_val(s[off + 1]))
        } else {
            None
        }
    } else {
        two_digits_at(s, off)
    }
}

/// What decoding text `s` under layout `l` yields: the timestamp, or nothing
/// when the text is too short, a field is not numeric, the month name is not
/// in the table, or the fields do not form a valid calendar instant.
pub open spec fn spec_decode(s: Seq<char>, l: TimestampLayout) -> Option<FirmwareTimestamp> {
    if s.len() < l.min_len() {
        None
    } else {
        let month = month_of(s[l.month_off as int], s[l.month_off + 1], s[l.month_off + 2]);
        let day = day_at(s, l.day_off as int);
        let year = four_digits_at(s, l.year_off as int);
        let hour = two_digits_at(s, l.hour_off as int);
        let minute = two_digits_at(s, l.minute_off as int);
        let second = two_digits_at(s, l.second_off as int);
        match (month, day, year, hour, minute, second) {
            (Some(mo), Some(d), Some(y), Some(h), Some(mi), Some(se)) => {
                let t = FirmwareTimestamp {
                    year: y as u32,
                    month: mo as u32,
                    day: d as u32,
                    hour: h as u32,
                    minute: mi as u32,
                    second: se as u32,
                };
                if t.wf() {
                    Some(t)
                } else {
                    None
                }
            },
            _ => None,
        }
    }
}

fn exec_two_digits_at(s: &str, off: usize) -> (r: Option<u32>)
    requires
        off + 2 <= s@.len(),
        s@.len() <= usize::MAX,
    ensures
        match r {
            Some(v) => two_digits_at(s@, off as int) == Some(v as int) && v <= 99,
            None => two_digits_at(s@, off as int) is None,
        },
{
    let d0 = exec_digit_of(s.get_char(off));
    let d1 = exec_digit_of(s.get_char(off + 1));
    match (d0, d1) {
        (Some(a), Some(b)) => Some(10 * a + b),
        _ => None,
    }
}

fn exec_four_digits_at(s: &str, off: usize) -> (r: Option<u32>)
    requires
        off + 4 <= s@.len(),
        s@.len() <= usize::MAX,
    ensures
        match r {
            Some(v) => four_digits_at(s@, off as int) == Some(v as int) && v <= 9999,
            None => four_digits_at(s@, off as int) is None,
        },
{
    let d0 = exec_digit_of(s.get_char(off));
    let d1 = exec_digit_of(s.get_char(off + 1));
    let d2 = exec_digit_of(s.get_char(off + 2));
    let d3 = exec_digit_of(s.get_char(off + 3));
    match (d0, d1, d2, d3) {
        (Some(a), Some(b), Some(c), Some(d)) => Some(1000 * a + 100 * b + 10 * c + d),
        _ => None,
    }
}

fn exec_day_at(s: &str, off: usize) -> (r: Option<u32>)
    requires
        off + 2 <= s@.len(),
        s@.len() <= usize::MAX,
    ensures
        match r {
            Some(v) => day_at(s@, off as int) == Some(v as int) && v <= 99,
            None => day_at(s@, off as int) is None,
        },
{
    if s.get_char(off) == ' ' {
        match exec_digit_of(s.get_char(off + 1)) {
            Some(d) => Some(d),
            None => None,
        }
    } else {
        exec_two_digits_at(s, off)
    }
}

/// Decodes the timestamp embedded in `s` at the offsets of layout `l`.
/// Characters outside the fields, including any trailing text such as a key
/// suffix, are ignored. Exactly the texts [`spec_decode`] accepts decode;
/// every other text is a malformed timestamp.
pub fn decode(s: &str, l: &TimestampLayout) -> (r: Result<FirmwareTimestamp, ParseError>)
    requires
        l.wf(),
    ensures
        match r {
            Ok(t) => spec_decode(s@, *l) == Some(t) && t.wf(),
            Err(e) => spec_decode(s@, *l) is None && e == ParseError::MalformedTimestamp,
        },
{
    let n = s.unicode_len();
    if n < l.second_off + 2 {
        return Err(ParseError::MalformedTimestamp);
    }
    let c0 = s.get_char(l.month_off);
    let c1 = s.get_char(l.month_off + 1);
    let c2 = s.get_char(l.month_off + 2);
    let month = exec_month_of(c0, c1, c2);
    let day = exec_day_at(s, l.day_off);
    let year = exec_four_digits_at(s, l.year_off);
    let hour = exec_two_digits_at(s, l.hour_off);
    let minute = exec_two_digits_at(s, l.minute_off);
    let second = exec_two_digits_at(s, l.second_off);
    match (month, day, year, hour, minute, second) {
        (Some(mo), Some(d), Some(y), Some(h), Some(mi), Some(se)) => {
            let t = FirmwareTimestamp { year: y, month: mo, day: d, hour: h, minute: mi, second: se };
            let valid = 1 <= t.month && t.month <= 12 && 1 <= t.day && t.day
                <= crate::timestamp::exec_days_in_month(t.year, t.month) && t.hour <= 23 && t.minute
                <= 59 && t.second <= 59;
            if valid {
                Ok(t)
            } else {
                Err(ParseError::MalformedTimestamp)
            }
        },
        _ => Err(ParseError::MalformedTimestamp),
    }
}

/// A run of `n` spaces.
pub open spec fn spaces(n: int) -> Seq<char> {
    Seq::new(n as nat, |i: int| ' ')
}

/// The two digit characters of a value below one hundred.
pub open spec fn two_digit_chars(v: int) -> Seq<char> {
    seq![digit_char(v / 10), digit_char(v % 10)]
}

/// The four digit characters of a value below ten thousand.
pub open spec fn four_digit_chars(v: int) -> Seq<char> {
    seq![
        digit_char(v / 1000),
        digit_char((v / 100) % 10),
        digit_char((v / 10) % 10),
        digit_char(v % 10),
    ]
}

/// The day field's characters: a space then one digit for days below ten,
/// two digits otherwise.
pub open spec fn day_chars(d: int) -> Seq<char> {
    if d < 10 {
        seq![' ', digit_char(d)]
    } else {
        seq![digit_char(d / 10), digit_char(d % 10)]
    }
}

/// The canonical text encoding timestamp `t` under layout `l`: each field at
/// its offset, spaces everywhere else.
pub open spec fn spec_encode(t: FirmwareTimestamp, l: TimestampLayout) -> Seq<char> {
    spaces(l.month_off as int) + month_name(t.month as int) + spaces(
        l.day_off - l.month_off - 3,
    ) + day_chars(t.day as int) + spaces(l.year_off - l.day_off - 2) + four_digit_chars(
        t.year as int,
    ) + spaces(l.hour_off - l.year_off - 4) + two_digit_chars(t.hour as int) + spaces(
        l.minute_off - l.hour_off - 2,
    ) + two_digit_chars(t.minute as int) + spaces(l.second_off - l.minute_off - 2)
        + two_digit_chars(t.second as int)
}

fn push_spaces(s: &mut String, n: usize)
    ensures
        final(s)@ == old(s)@ + spaces(n as int),
{
    let mut i: usize = 0;
    while i < n
        invariant
            i <= n,
            s@ == old(s)@ + spaces(i as int),
        decreases n - i,
    {
        push_char(s, ' ');
        proof {
            assert(old(s)@ + spaces(i as int) + seq![' '] =~= old(s)@ + spaces(i + 1));
        }
        i = i + 1;
    }
    proof {
        assert(s@ =~= old(s)@ + spaces(n as int));
    }
}

fn push_digit(s: &mut String, d: u32)
    requires
        d <= 9,
    ensures
        final(s)@ == old(s)@.push(digit_char(d as int)),
{
    if d == 0 {
        push_char(s, '0')
    } else if d == 1 {
        push_char(s, '1')
    } else if d == 2 {
        push_char(s, '2')
    } else if d == 3 {
        push_char(s, '3')
    } else if d == 4 {
        push_char(s, '4')
    } else if d == 5 {
        push_char(s, '5')
    } else if d == 6 {
        push_char(s, '6')
    } else if d == 7 {
        push_char(s, '7')
    } else if d == 8 {
        push_char(s, '8')
    } else {
        push_char(s, '9')
    }
}

fn push_two_digits(s: &mut String, v: u32)
    requires
        v <= 99,
    ensures
        final(s)@ == old(s)@ + two_digit_chars(v as int),
{
    push_digit(s, v / 10);
    push_digit(s, v % 10);
    proof {
        assert(s@ =~= old(s)@ + two_digit_chars(v as int));
    }
}

fn push_four_digits(s: &mut String, v: u32)
    requires
        v <= 9999,
    ensures
        final(s)@ == old(s)@ + four_digit_chars(v as int),
{
    push_digit(s, v / 1000);
    push_digit(s, (v / 100) % 10);
    push_digit(s, (v / 10) % 10);
    push_digit(s, v % 10);
    proof {
        assert(s@ =~= old(s)@ + four_digit_chars(v as int));
    }
}

fn push_day(s: &mut String, d: u32)
    requires
        d <= 99,
    ensures
        final(s)@ == old(s)@ + day_chars(d as int),
{
    if d < 10 {
        push_char(s, ' ');
        push_digit(s, d);
    } else {
        push_digit(s, d / 10);
        push_digit(s, d % 10);
    }
    proof {
        assert(s@ =~= old(s)@ + day_chars(d as int));
    }
}

fn push_month_name(s: &mut String, m: u32)
    requires
        1 <= m <= 12,
    ensures
        final(s)@ == old(s)@ + month_name(m as int),
{
    if m == 1 {
        s.append("Jan");
        proof {
            reveal_strlit("Jan");
            assert(s@ =~= old(s)@ + month_name(m as int));
        }
    } else if m == 2 {
        s.append("Feb");
        proof {
            reveal_strlit("Feb");
            assert(s@ =~= old(s)@ + month_name(m as int));
        }
    } else if m == 3 {
        s.append("Mar");
        proof {
            reveal_strlit("Mar");
            assert(s@ =~= old(s)@ + month_name(m as int));
        }
    } else if m == 4 {
        s.append("Apr");
        proof {
            reveal_strlit("Apr");
            assert(s@ =~= old(s)@ + month_name(m as int));
        }
    } else if m == 5 {
        s.append("May");
        proof {
            reveal_strlit("May");
            assert(s@ =~= old(s)@ + month_name(m as int));
        }
    } else if m == 6 {
        s.append("Jun");
        proof {
            reveal_strlit("Jun");
            assert(s@ =~= old(s)@ + month_name(m as int));
        }
    } else if m == 7 {
        s.append("Jul");
        proof {
            reveal_strlit("Jul");
            assert(s@ =~= old(s)@ + month_name(m as int));
        }
    } else if m == 8 {
        s.append("Aug");
        proof {
            reveal_strlit("Aug");
            assert(s@ =~= old(s)@ + month_name(m as int));
        }
    } else if m == 9 {
        s.append("Sep");
        proof {
            reveal_strlit("Sep");
            assert(s@ =~= old(s)@ + month_name(m as int));
        }
    } else if m == 10 {
        s.append("Oct");
        proof {
            reveal_strlit("Oct");
            assert(s@ =~= old(s)@ + month_name(m as int));
        }
    } else if m == 11 {
        s.append("Nov");
        proof {
            reveal_strlit("Nov");
            assert(s@ =~= old(s)@ + month_name(m as int));
        }
    } else {
        s.append("Dec");
        proof {
            reveal_strlit("Dec");
            assert(s@ =~= old(s)@ + month_name(m as int));
        }
    }
}

/// Encodes timestamp `t` as the canonical text of layout `l`: the inverse of
/// [`decode`] on well-formed timestamps.
pub fn encode(t: &FirmwareTimestamp, l: &TimestampLayout) -> (r: String)
    requires
        t.wf(),
        l.wf(),
    ensures
        r@ == spec_encode(*t, *l),
{
    let mut out = String::new();
    push_spaces(&mut out, l.month_off);
    push_month_name(&mut out, t.month);
    push_spaces(&mut out, l.day_off - l.month_off - 3);
    push_day(&mut out, t.day);
    push_spaces(&mut out, l.year_off - l.day_off - 2);
    push_four_digits(&mut out, t.year);
    push_spaces(&mut out, l.hour_off - l.year_off - 4);
    push_two_digits(&mut out, t.hour);
    push_spaces(&mut out, l.minute_off - l.hour_off - 2);
    push_two_digits(&mut out, t.minute);
    push_spaces(&mut out, l.second_off - l.minute_off - 2);
    push_two_digits(&mut out, t.second);
    proof {
        assert(Seq::<char>::empty() + spaces(l.month_off as int) =~= spaces(l.month_off as int));
    }
    out
}

/// Round trip: decoding the canonical encoding of any well-formed timestamp,
/// under any well-formed layout, yields that timestamp again.
pub proof fn lemma_codec_round_trip(t: FirmwareTimestamp, l: TimestampLayout)
    requires
        t.wf(),
        l.wf(),
    ensures
        spec_decode(spec_encode(t, l), l) == Some(t),
{
    let e = spec_encode(t, l);
    let mn = month_name(t.month as int);
    assert(mn.len() == 3);
    assert(day_chars(t.day as int).len() == 2);
    assert(e.len() == l.second_off + 2);
    assert(e[l.month_off as int] == mn[0]);
    assert(e[l.month_off + 1] == mn[1]);
    assert(e[l.month_off + 2] == mn[2]);
    assert(month_of(mn[0], mn[1], mn[2]) == Some(t.month as int));
    assert(e[l.day_off as int] == day_chars(t.day as int)[0]);
    assert(e[l.day_off + 1] == day_chars(t.day as int)[1]);
    if t.day < 10 {
        lemma_digit_char_val(t.day as int);
        assert(day_at(e, l.day_off as int) == Some(t.day as int));
    } else {
        lemma_digit_char_val(t.day as int / 10);
        lemma_digit_char_val(t.day as int % 10);
        assert(day_at(e, l.day_off as int) == Some(t.day as int));
    }
    assert(e[l.year_off as int] == four_digit_chars(t.year as int)[0]);
    assert(e[l.year_off + 1] == four_digit_chars(t.year as int)[1]);
    assert(e[l.year_off + 2] == four_digit_chars(t.year as int)[2]);
    assert(e[l.year_off + 3] == four_digit_chars(t.year as int)[3]);
    lemma_digit_char_val(t.year as int / 1000);
    lemma_digit_char_val((t.year as int / 100) % 10);
    lemma_digit_char_val((t.year as int / 10) % 10);
    lemma_digit_char_val(t.year as int % 10);
    assert(1000 * (t.year as int / 1000) + 100 * ((t.year as int / 100) % 10) + 10 * ((t.year as int
        / 10) % 10) + t.year as int % 10 == t.year as int) by {
        let y = t.year as int;
        assert(y == 1000 * (y / 1000) + y % 1000);
        assert(y % 1000 == 100 * ((y % 1000) / 100) + (y % 1000) % 100);
        assert((y % 1000) / 100 == (y / 100) % 10) by (nonlinear_arith)
            requires 0 <= y <= 9999;
        assert((y % 1000) % 100 == y % 100) by (nonlinear_arith)
            requires 0 <= y <= 9999;
        assert(y % 100 == 10 * ((y % 100) / 10) + (y % 100) % 10);
        assert((y % 100) / 10 == (y / 10) % 10) by (nonlinear_arith)
            requires 0 <= y <= 9999;
        assert((y % 100) % 10 == y % 10) by (nonlinear_arith)
            requires 0 <= y <= 9999;
    }
    assert(four_digits_at(e, l.year_off as int) == Some(t.year as int));
    assert(e[l.hour_off as int] == two_digit_chars(t.hour as int)[0]);
    assert(e[l.hour_off + 1] == two_digit_chars(t.hour as int)[1]);
    lemma_digit_char_val(t.hour as int / 10);
    lemma_digit_char_val(t.hour as int % 10);
    assert(two_digits_at(e, l.hour_off as int) == Some(t.hour as int));
    assert(e[l.minute_off as int] == two_digit_chars(t.minute as int)[0]);
    assert(e[l.minute_off + 1] == two_digit_chars(t.minute as int)[1]);
    lemma_digit_char_val(t.minute as int / 10);
    lemma_digit_char_val(t.minute as int % 10);
    assert(two_digits_at(e, l.minute_off as int) == Some(t.minute as int));
    assert(e[l.second_off as int] == two_digit_chars(t.second as int)[0]);
    assert(e[l.second_off + 1] == two_digit_chars(t.second as int)[1]);
    lemma_digit_char_val(t.second as int / 10);
    lemma_digit_char_val(t.second as int % 10);
    assert(two_digits_at(e, l.second_off as int) == Some(t.second as int));
}

/// The build marker's lines joined into one text, the form the artifact
/// layout's offsets address.
pub open spec fn spec_marker_text(file: Seq<char>) -> Seq<char> {
    crate::text::spec_lines(file).flatten()
}

/// Joins the lines of a text, dropping the line breaks.
pub fn join_lines(s: &str) -> (r: String)
    ensures
        r@ == spec_marker_text(s@),
{
    let parts = lines_of(s);
    let ghost kept = crate::text::views(parts@);
    let mut out = String::new();
    let n = parts.len();
    let mut i: usize = 0;
    while i < n
        invariant
            i <= n,
            n == parts@.len(),
            kept == crate::text::views(parts@),
            out@ == kept.take(i as int).flatten_alt(),
        decreases n - i,
    {
        out.append(parts[i].as_str());
        proof {
            assert(kept.take(i + 1).drop_last() =~= kept.take(i as int));
        }
        i = i + 1;
    }
    proof {
        assert(kept.take(n as int) =~= kept);
        kept.lemma_flatten_and_flatten_alt_are_equivalent();
    }
    out
}

/// Decodes the timestamp stored in a build-marker artifact: the file's lines
/// are joined and the artifact layout is applied to the joined text.
pub fn decode_build_marker(file: &str) -> (r: Result<FirmwareTimestamp, ParseError>)
    ensures
        match r {
            Ok(t) => spec_decode(spec_marker_text(file@), spec_artifact_layout()) == Some(t)
                && t.wf(),
            Err(e) => spec_decode(spec_marker_text(file@), spec_artifact_layout()) is None && e
                == ParseError::MalformedTimestamp,
        },
{
    let joined = join_lines(file);
    let l = artifact_layout();
    decode(joined.as_str(), &l)
}

} // verus!
