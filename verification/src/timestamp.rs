//! Timezone-naive timestamps of millisecond precision, and the parser for
//! the date/time prefix of a log line.
//!
//! The textual form is month/day/year followed by a 24-hour time:
//! `10/2/2024 17:36:02.460`. Month, day and hour need not be zero-padded, the
//! year has at most four digits, and the fractional part, when present, is a
//! period followed by exactly three digits. Any amount of whitespace may
//! stand where the format has a space, and may precede each number. A
//! timezone offset is never part of this grammar: the caller truncates the
//! segment at the first `-` or `+` before handing it here, so the offset is
//! discarded rather than parsed.
use vstd::prelude::*;

use crate::chars::digits_end;
use crate::chars::digits_val;
use crate::chars::skip_spaces;

verus! {

/// A date and time of day, to millisecond precision, with no timezone
/// attached.
#[derive(Clone, Copy, Debug, PartialEq, Eq, Structural)]
pub struct Timestamp {
    pub year: u16,
    pub month: u8,
    pub day: u8,
    pub hour: u8,
    pub minute: u8,
    pub second: u8,
    pub millisecond: u16,
}

/// Whether `y` is a leap year of the proleptic Gregorian calendar.
pub open spec fn is_leap_year(y: int) -> bool {
    y % 4 == 0 && (y % 100 != 0 || y % 400 == 0)
}

/// The number of days of month `m` of year `y`.
pub open spec fn days_in_month(y: int, m: int) -> int
    recommends
        1 <= m <= 12,
{
    if m == 2 {
        if is_leap_year(y) {
            29
        } else {
            28
        }
    } else if m == 4 || m == 6 || m == 9 || m == 11 {
        30
    } else {
        31
    }
}

/// Executable counterpart of [`days_in_month`].
pub fn days_in_month_of(y: u16, m: u8) -> (r: u8)
    requires
        1 <= m <= 12,
    ensures
        r as int == days_in_month(y as int, m as int),
{
    if m == 2 {
        if y % 4 == 0 && (y % 100 != 0 || y % 400 == 0) {
            29
        } else {
            28
        }
    } else if m == 4 || m == 6 || m == 9 || m == 11 {
        30
    } else {
        31
    }
}

impl Timestamp {
    /// A timestamp is well-formed when each part lies in its calendar range:
    /// the month is 1 to 12, the day exists in that month of that year, and
    /// the time parts are a valid 24-hour time of millisecond precision. The
    /// year is bounded by its four-digit textual form.
    pub open spec fn well_formed(self) -> bool {
        &&& self.year <= 9999
        &&& 1 <= self.month <= 12
        &&& 1 <= self.day <= days_in_month(self.year as int, self.month as int)
        &&& self.hour <= 23
        &&& self.minute <= 59
        &&& self.second <= 59
        &&& self.millisecond <= 999
    }
}

/// The result of reading the date/time grammar from the whole of `s`:
/// `None` when `s` does not match, otherwise the timestamp it denotes.
///
/// `s` is expected to be a segment already truncated at any timezone sign,
/// so the grammar itself has no notion of a sign.
pub open spec fn parse_timestamp_text(s: Seq<char>) -> Option<Timestamp> {
    let m_start = skip_spaces(s, 0);
    let m_end = digits_end(s, m_start, 2);
    let month = digits_val(s, m_start, m_end);
    if m_end == m_start || month < 1 || month > 12 || !(m_end < s.len() && s[m_end] == '/') {
        None
    } else {
        let d_start = skip_spaces(s, m_end + 1);
        let d_end = digits_end(s, d_start, 2);
        let day = digits_val(s, d_start, d_end);
        if d_end == d_start || day < 1 || day > 31 || !(d_end < s.len() && s[d_end] == '/') {
            None
        } else {
            let y_start = skip_spaces(s, d_end + 1);
            let y_end = digits_end(s, y_start, 4);
            let year = digits_val(s, y_start, y_end);
            if y_end == y_start {
                None
            } else {
                let h_start = skip_spaces(s, y_end);
                let h_end = digits_end(s, h_start, 2);
                let hour = digits_val(s, h_start, h_end);
                if h_end == h_start || hour > 23 || !(h_end < s.len() && s[h_end] == ':') {
                    None
                } else {
                    let mi_start = skip_spaces(s, h_end + 1);
                    let mi_end = digits_end(s, mi_start, 2);
                    let minute = digits_val(s, mi_start, mi_end);
                    if mi_end == mi_start || minute > 59 || !(mi_end < s.len() && s[mi_end]
                        == ':') {
                        None
                    } else {
                        let sec_start = skip_spaces(s, mi_end + 1);
                        let sec_end = digits_end(s, sec_start, 2);
                        let second = digits_val(s, sec_start, sec_end);
                        if sec_end == sec_start || second > 59 {
                            None
                        } else if sec_end == s.len() {
                            assemble(year, month, day, hour, minute, second, 0)
                        } else if s[sec_end] == '.' {
                            let f_end = digits_end(s, sec_end + 1, 3);
                            if f_end == sec_end + 4 && f_end == s.len() {
                                assemble(
                                    year,
                                    month,
                                    day,
                                    hour,
                                    minute,
                                    second,
                                    digits_val(s, sec_end + 1, f_end),
                                )
                            } else {
                                None
                            }
                        } else {
                            None
                        }
                    }
                }
            }
        }
    }
}

/// Executable counterpart of [`parse_timestamp_text`], over the characters
/// of the (already truncated) timestamp segment.
pub fn parse_timestamp_chars(v: &Vec<char>) -> (r: Option<Timestamp>)
    ensures
        r == parse_timestamp_text(v@),
{
    let m_start = crate::chars::skip_spaces_run(v, 0);
    let (m_end, month) = crate::chars::scan_number(v, m_start, 2);
    if m_end == m_start || month < 1 || month > 12 || !(m_end < v.len() && v[m_end] == '/') {
        return None;
    }
    let d_start = crate::chars::skip_spaces_run(v, m_end + 1);
    let (d_end, day) = crate::chars::scan_number(v, d_start, 2);
    if d_end == d_start || day < 1 || day > 31 || !(d_end < v.len() && v[d_end] == '/') {
        return None;
    }
    let y_start = crate::chars::skip_spaces_run(v, d_end + 1);
    let (y_end, year) = crate::chars::scan_number(v, y_start, 4);
    if y_end == y_start {
        return None;
    }
    let h_start = crate::chars::skip_spaces_run(v, y_end);
    let (h_end, hour) = crate::chars::scan_number(v, h_start, 2);
    if h_end == h_start || hour > 23 || !(h_end < v.len() && v[h_end] == ':') {
        return None;
    }
    let mi_start = crate::chars::skip_spaces_run(v, h_end + 1);
    let (mi_end, minute) = crate::chars::scan_number(v, mi_start, 2);
    if mi_end == mi_start || minute > 59 || !(mi_end < v.len() && v[mi_end] == ':') {
        return None;
    }
    let sec_start = crate::chars::skip_spaces_run(v, mi_end + 1);
    let (sec_end, second) = crate::chars::scan_number(v, sec_start, 2);
    if sec_end == sec_start || second > 59 {
        return None;
    }
    let millisecond: u32;
    if sec_end == v.len() {
        millisecond = 0;
    } else if v[sec_end] == '.' {
        let frac_start = sec_end + 1;
        let (f_end, frac) = crate::chars::scan_number(v, frac_start, 3);
        if f_end - frac_start == 3 && f_end == v.len() {
            millisecond = frac;
        } else {
            return None;
        }
    } else {
        return None;
    }
    if day as u8 <= days_in_month_of(year as u16, month as u8) {
        Some(
            Timestamp {
                year: year as u16,
                month: month as u8,
                day: day as u8,
                hour: hour as u8,
                minute: minute as u8,
                second: second as u8,
                millisecond: millisecond as u16,
            },
        )
    } else {
        None
    }
}

/// Every timestamp the grammar yields is well-formed: each part lies in
/// its calendar range.
pub proof fn lemma_parse_timestamp_well_formed(s: Seq<char>)
    ensures
        parse_timestamp_text(s) matches Some(ts) ==> ts.well_formed(),
{
    if parse_timestamp_text(s) is Some {
        crate::chars::lemma_skip_spaces_bounds(s, 0);
        let m_start = skip_spaces(s, 0);
        crate::chars::lemma_digits_end_bounds(s, m_start, 2);
        let m_end = digits_end(s, m_start, 2);
        crate::chars::lemma_digits_val_bound(s, m_start, m_end);
        crate::chars::lemma_skip_spaces_bounds(s, m_end + 1);
        let d_start = skip_spaces(s, m_end + 1);
        crate::chars::lemma_digits_end_bounds(s, d_start, 2);
        let d_end = digits_end(s, d_start, 2);
        crate::chars::lemma_digits_val_bound(s, d_start, d_end);
        crate::chars::lemma_skip_spaces_bounds(s, d_end + 1);
        let y_start = skip_spaces(s, d_end + 1);
        crate::chars::lemma_digits_end_bounds(s, y_start, 4);
        let y_end = digits_end(s, y_start, 4);
        crate::chars::lemma_digits_val_bound(s, y_start, y_end);
        crate::chars::lemma_skip_spaces_bounds(s, y_end);
        let h_start = skip_spaces(s, y_end);
        crate::chars::lemma_digits_end_bounds(s, h_start, 2);
        let h_end = digits_end(s, h_start, 2);
        crate::chars::lemma_digits_val_bound(s, h_start, h_end);
        crate::chars::lemma_skip_spaces_bounds(s, h_end + 1);
        let mi_start = skip_spaces(s, h_end + 1);
        crate::chars::lemma_digits_end_bounds(s, mi_start, 2);
        let mi_end = digits_end(s, mi_start, 2);
        crate::chars::lemma_digits_val_bound(s, mi_start, mi_end);
        crate::chars::lemma_skip_spaces_bounds(s, mi_end + 1);
        let sec_start = skip_spaces(s, mi_end + 1);
        crate::chars::lemma_digits_end_bounds(s, sec_start, 2);
        let sec_end = digits_end(s, sec_start, 2);
        crate::chars::lemma_digits_val_bound(s, sec_start, sec_end);
        if sec_end < s.len() && s[sec_end] == '.' {
            crate::chars::lemma_digits_end_bounds(s, sec_end + 1, 3);
            let f_end = digits_end(s, sec_end + 1, 3);
            crate::chars::lemma_digits_val_bound(s, sec_end + 1, f_end);
        }
    }
}


/// The decimal digit character of `v % 10`.
pub open spec fn digit_of(v: int) -> char {
    let d = v % 10;
    if d == 0 {
        '0'
    } else if d == 1 {
        '1'
    } else if d == 2 {
        '2'
    } else if d == 3 {
        '3'
    } else if d == 4 {
        '4'
    } else if d == 5 {
        '5'
    } else if d == 6 {
        '6'
    } else if d == 7 {
        '7'
    } else if d == 8 {
        '8'
    } else {
        '9'
    }
}

/// The canonical text of a timestamp: zero-padded
/// `year-month-dayThour:minute:second.millisecond`, the form in which a
/// timestamp travels next to its fields when a record is persisted.
pub open spec fn timestamp_text(ts: Timestamp) -> Seq<char> {
    seq![
        digit_of(ts.year as int / 1000),
        digit_of(ts.year as int / 100),
        digit_of(ts.year as int / 10),
        digit_of(ts.year as int),
        '-',
        digit_of(ts.month as int / 10),
        digit_of(ts.month as int),
        '-',
        digit_of(ts.day as int / 10),
        digit_of(ts.day as int),
        'T',
        digit_of(ts.hour as int / 10),
        digit_of(ts.hour as int),
        ':',
        digit_of(ts.minute as int / 10),
        digit_of(ts.minute as int),
        ':',
        digit_of(ts.second as int / 10),
        digit_of(ts.second as int),
        '.',
        digit_of(ts.millisecond as int / 100),
        digit_of(ts.millisecond as int / 10),
        digit_of(ts.millisecond as int),
    ]
}

/// Executable counterpart of [`digit_of`].
fn digit_of_run(v: u16) -> (r: char)
    ensures
        r == digit_of(v as int),
{
    let d = v % 10;
    if d == 0 {
        '0'
    } else if d == 1 {
        '1'
    } else if d == 2 {
        '2'
    } else if d == 3 {
        '3'
    } else if d == 4 {
        '4'
    } else if d == 5 {
        '5'
    } else if d == 6 {
        '6'
    } else if d == 7 {
        '7'
    } else if d == 8 {
        '8'
    } else {
        '9'
    }
}

impl Timestamp {
    /// The canonical text of this timestamp, as [`timestamp_text`]
    /// describes it.
    pub fn to_text(&self) -> (r: String)
        ensures
            r@ == timestamp_text(*self),
    {
        let mut out: Vec<char> = Vec::new();
        out.push(digit_of_run(self.year / 1000));
        out.push(digit_of_run(self.year / 100));
        out.push(digit_of_run(self.year / 10));
        out.push(digit_of_run(self.year));
        out.push('-');
        out.push(digit_of_run(self.month as u16 / 10));
        out.push(digit_of_run(self.month as u16));
        out.push('-');
        out.push(digit_of_run(self.day as u16 / 10));
        out.push(digit_of_run(self.day as u16));
        out.push('T');
        out.push(digit_of_run(self.hour as u16 / 10));
        out.push(digit_of_run(self.hour as u16));
        out.push(':');
        out.push(digit_of_run(self.minute as u16 / 10));
        out.push(digit_of_run(self.minute as u16));
        out.push(':');
        out.push(digit_of_run(self.second as u16 / 10));
        out.push(digit_of_run(self.second as u16));
        out.push('.');
        out.push(digit_of_run(self.millisecond / 100));
        out.push(digit_of_run(self.millisecond / 10));
        out.push(digit_of_run(self.millisecond));
        proof {
            assert(out@ =~= timestamp_text(*self));
        }
        crate::chars::chars_to_string(&out)
    }
}

/// Parses a timestamp segment after truncating it at its first `-` or `+`:
/// the truncation discards any timezone offset, well-formed or not.
pub fn parse_timestamp_vec(v: &Vec<char>) -> (r: Option<Timestamp>)
    ensures
        r == parse_timestamp_text(crate::chars::before_sign(v@)),
{
    let sp = crate::chars::sign_pos_run(v, 0);
    let t = crate::chars::copy_range(v, 0, sp);
    proof {
        assert(t@ =~= crate::chars::before_sign(v@));
    }
    parse_timestamp_chars(&t)
}

/// The last step of timestamp parsing: the day must exist in the parsed
/// month of the parsed year.
pub open spec fn assemble(
    year: int,
    month: int,
    day: int,
    hour: int,
    minute: int,
    second: int,
    millisecond: int,
) -> Option<Timestamp>
    recommends
        0 <= year <= 9999,
        1 <= month <= 12,
        1 <= day <= 31,
        0 <= hour <= 23,
        0 <= minute <= 59,
        0 <= second <= 59,
        0 <= millisecond <= 999,
{
    if day <= days_in_month(year, month) {
        Some(
            Timestamp {
                year: year as u16,
                month: month as u8,
                day: day as u8,
                hour: hour as u8,
                minute: minute as u8,
                second: second as u8,
                millisecond: millisecond as u16,
            },
        )
    } else {
        None
    }
}

} // verus!
