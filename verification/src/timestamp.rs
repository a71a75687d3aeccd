//! The fixed-format timestamp field.
//!
//! Exactly one textual layout is accepted, left to right with no deviation:
//! a 4-digit zero-padded year, `-`, 2-digit month, `-`, 2-digit day, a
//! single space, 2-digit hour, `:`, 2-digit minute, `:`, 2-digit second, a
//! period, exactly 6 digits of microseconds, and the literal ` UTC`.  Any
//! other shape is a layout failure; a conforming shape whose calendar or
//! clock values are out of range is a range failure.

use vstd::prelude::*;

use crate::digits::all_digits;
use crate::digits::digits_val;
use crate::digits::is_digit;
use crate::digits::lemma_digits_val_bound;
use crate::digits::pow10;
use crate::digits::read_number;
use crate::error::FailureCause;
use crate::error::ParseError;

verus! {

/// An absolute UTC instant with microsecond resolution, held as plain
/// calendar and clock fields.
#[derive(Clone, Copy, PartialEq, Eq, Structural, Debug)]
pub struct Timestamp {
    pub year: u16,
    pub month: u8,
    pub day: u8,
    pub hour: u8,
    pub minute: u8,
    pub second: u8,
    pub micros: u32,
}

/// Leap years of the proleptic Gregorian calendar.
pub open spec fn spec_is_leap_year(y: int) -> bool {
    y % 4 == 0 && (y % 100 != 0 || y % 400 == 0)
}

/// The number of days in month `m` of year `y`.
pub open spec fn spec_days_in_month(y: int, m: int) -> int {
    if m == 2 {
        if spec_is_leap_year(y) {
            29
        } else {
            28
        }
    } else if m == 4 || m == 6 || m == 9 || m == 11 {
        30
    } else {
        31
    }
}

impl Timestamp {
    /// A calendar- and clock-valid instant: the month exists, the day
    /// exists in that month of that year, and the clock fields are within
    /// one day.
    pub open spec fn wf(self) -> bool {
        &&& self.year <= 9999
        &&& 1 <= self.month <= 12
        &&& 1 <= self.day <= spec_days_in_month(self.year as int, self.month as int)
        &&& self.hour <= 23
        &&& self.minute <= 59
        &&& self.second <= 59
        &&& self.micros <= 999999
    }
}

pub fn is_leap_year(y: u16) -> (b: bool)
    ensures
        b == spec_is_leap_year(y as int),
{
    y % 4 == 0 && (y % 100 != 0 || y % 400 == 0)
}

pub fn days_in_month(y: u16, m: u8) -> (d: u8)
    requires
        1 <= m <= 12,
    ensures
        d == spec_days_in_month(y as int, m as int),
{
    if m == 2 {
        if is_leap_year(y) {
            29
        } else {
            28
        }
    } else if m == 4 || m == 6 || m == 9 || m == 11 {
        30
    } else {
        31
    }
}

/// Every character of `s[from..to]` is a decimal digit.
pub open spec fn digit_run(s: Seq<char>, from: int, to: int) -> bool {
    forall|j: int| from <= j < to ==> is_digit(#[trigger] s[j])
}

proof fn lemma_digit_run_subrange(s: Seq<char>, from: int, to: int)
    requires
        0 <= from <= to <= s.len(),
        digit_run(s, from, to),
    ensures
        all_digits(s.subrange(from, to)),
{
    assert forall|k: int| 0 <= k < s.subrange(from, to).len() implies is_digit(
        s.subrange(from, to)[k],
    ) by {
        assert(s.subrange(from, to)[k] == s[from + k]);
    }
}

/// Whether `s` matches the fixed textual layout
/// `YYYY-MM-DD HH:MM:SS.ssssss UTC`, character class by character class.
pub open spec fn layout_ok(s: Seq<char>) -> bool {
    &&& s.len() == 30
    &&& digit_run(s, 0, 4)
    &&& s[4] == '-'
    &&& digit_run(s, 5, 7)
    &&& s[7] == '-'
    &&& digit_run(s, 8, 10)
    &&& s[10] == ' '
    &&& digit_run(s, 11, 13)
    &&& s[13] == ':'
    &&& digit_run(s, 14, 16)
    &&& s[16] == ':'
    &&& digit_run(s, 17, 19)
    &&& s[19] == '.'
    &&& digit_run(s, 20, 26)
    &&& s[26] == ' '
    &&& s[27] == 'U'
    &&& s[28] == 'T'
    &&& s[29] == 'C'
}

/// The instant a layout-conforming string denotes, field by field.
pub open spec fn spec_timestamp_of(s: Seq<char>) -> Timestamp {
    Timestamp {
        year: digits_val(s.subrange(0, 4)) as u16,
        month: digits_val(s.subrange(5, 7)) as u8,
        day: digits_val(s.subrange(8, 10)) as u8,
        hour: digits_val(s.subrange(11, 13)) as u8,
        minute: digits_val(s.subrange(14, 16)) as u8,
        second: digits_val(s.subrange(17, 19)) as u8,
        micros: digits_val(s.subrange(20, 26)) as u32,
    }
}

/// Whether `s` is a fully valid timestamp field: the layout matches and the
/// denoted instant is calendar- and clock-valid.
pub open spec fn timestamp_ok(s: Seq<char>) -> bool {
    layout_ok(s) && spec_timestamp_of(s).wf()
}

/// Check that every character of `s[from..to]` is a decimal digit.
fn digits_in_range(s: &str, from: usize, to: usize) -> (b: bool)
    requires
        from <= to <= s@.len(),
    ensures
        b == digit_run(s@, from as int, to as int),
{
    let mut i: usize = from;
    while i < to
        invariant
            from <= i <= to <= s@.len(),
            forall|j: int| from <= j < i ==> is_digit(#[trigger] s@[j]),
        decreases to - i,
    {
        let c = s.get_char(i);
        if !(c >= '0' && c <= '9') {
            return false;
        }
        i += 1;
    }
    true
}

/// Parse one timestamp field against the fixed layout.  Succeeds exactly on
/// a valid field; a failure wraps the whole raw field text together with
/// the detected cause, a layout mismatch taking precedence over an
/// out-of-range value.
pub fn parse_timestamp(s: &str) -> (r: Result<Timestamp, ParseError>)
    ensures
        (r is Ok) <==> timestamp_ok(s@),
        match r {
            Ok(t) => t == spec_timestamp_of(s@) && t.wf(),
            Err(e) => e matches ParseError::Failure(c, raw) && raw@ == s@ && c == (
            if !layout_ok(s@) {
                FailureCause::TimestampLayout
            } else {
                FailureCause::TimestampRange
            }),
        },
{
    if s.unicode_len() != 30 {
        return Err(ParseError::failure(FailureCause::TimestampLayout, s));
    }
    let shape_ok = digits_in_range(s, 0, 4) && s.get_char(4) == '-' && digits_in_range(s, 5, 7)
        && s.get_char(7) == '-' && digits_in_range(s, 8, 10) && s.get_char(10) == ' '
        && digits_in_range(s, 11, 13) && s.get_char(13) == ':' && digits_in_range(s, 14, 16)
        && s.get_char(16) == ':' && digits_in_range(s, 17, 19) && s.get_char(19) == '.'
        && digits_in_range(s, 20, 26) && s.get_char(26) == ' ' && s.get_char(27) == 'U'
        && s.get_char(28) == 'T' && s.get_char(29) == 'C';
    if !shape_ok {
        return Err(ParseError::failure(FailureCause::TimestampLayout, s));
    }
    assert(layout_ok(s@));
    proof {
        reveal_with_fuel(pow10, 8);
        lemma_digit_run_subrange(s@, 0, 4);
        lemma_digits_val_bound(s@.subrange(0, 4));
        lemma_digit_run_subrange(s@, 5, 7);
        lemma_digits_val_bound(s@.subrange(5, 7));
        lemma_digit_run_subrange(s@, 8, 10);
        lemma_digits_val_bound(s@.subrange(8, 10));
        lemma_digit_run_subrange(s@, 11, 13);
        lemma_digits_val_bound(s@.subrange(11, 13));
        lemma_digit_run_subrange(s@, 14, 16);
        lemma_digits_val_bound(s@.subrange(14, 16));
        lemma_digit_run_subrange(s@, 17, 19);
        lemma_digits_val_bound(s@.subrange(17, 19));
        lemma_digit_run_subrange(s@, 20, 26);
        lemma_digits_val_bound(s@.subrange(20, 26));
    }
    let year = read_number(s, 0, 4) as u16;
    let month = read_number(s, 5, 7) as u8;
    let day = read_number(s, 8, 10) as u8;
    let hour = read_number(s, 11, 13) as u8;
    let minute = read_number(s, 14, 16) as u8;
    let second = read_number(s, 17, 19) as u8;
    let micros = read_number(s, 20, 26);
    if month < 1 || month > 12 {
        return Err(ParseError::failure(FailureCause::TimestampRange, s));
    }
    if day < 1 || day > days_in_month(year, month) {
        return Err(ParseError::failure(FailureCause::TimestampRange, s));
    }
    if hour > 23 || minute > 59 || second > 59 {
        return Err(ParseError::failure(FailureCause::TimestampRange, s));
    }
    Ok(Timestamp { year, month, day, hour, minute, second, micros })
}

} // verus!
