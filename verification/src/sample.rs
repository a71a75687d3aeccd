//! One parsed measurement and the line parser that produces it.
//!
//! A raw line is split on commas into columns consumed strictly in this
//! fixed order: timestamp, total, free, available, buffers, cached,
//! swapTotal, swapFree.  Columns are evaluated left to right and parsing
//! short-circuits at the first failing column, so the error always names
//! the leftmost defect.  A failed parse produces no partial measurement.

use vstd::prelude::*;

use crate::digits::digits_val;
use crate::digits::number_ok;
use crate::digits::parse_u64;
use crate::digits::spec_number_cause;
use crate::error::FailureCause;
use crate::error::ParseError;
use crate::timestamp::Timestamp;
use crate::timestamp::layout_ok;
use crate::timestamp::parse_timestamp;
use crate::timestamp::spec_timestamp_of;
use crate::timestamp::timestamp_ok;

verus! {

/// Index of the first comma of `s`, or `s.len()` when there is none.
pub open spec fn first_comma(s: Seq<char>) -> int
    decreases s.len(),
{
    if s.len() == 0 {
        0
    } else if s[0] == ',' {
        0
    } else {
        1 + first_comma(s.drop_first())
    }
}

/// The comma-separated columns of `s`, in order.  A line without commas is
/// one column, and each comma ends a column, so a trailing comma yields a
/// final empty column; there is always at least one column.
pub open spec fn split_commas(s: Seq<char>) -> Seq<Seq<char>>
    decreases s.len(),
{
    let i = first_comma(s);
    if 0 <= i < s.len() {
        seq![s.take(i)] + split_commas(s.skip(i + 1))
    } else {
        seq![s]
    }
}

/// `first_comma` finds exactly the position before which no comma stands
/// and at which one stands, if any does.
proof fn lemma_first_comma_at(s: Seq<char>, j: int)
    requires
        0 <= j <= s.len(),
        forall|x: int| 0 <= x < j ==> s[x] != ',',
        j < s.len() ==> s[j] == ',',
    ensures
        first_comma(s) == j,
    decreases s.len(),
{
    if s.len() == 0 {
    } else if s[0] == ',' {
    } else {
        let t = s.drop_first();
        assert forall|x: int| 0 <= x < j - 1 implies t[x] != ',' by {
            assert(t[x] == s[x + 1]);
        }
        assert(j - 1 < t.len() ==> t[j - 1] == s[j]);
        lemma_first_comma_at(t, j - 1);
    }
}

pub proof fn lemma_split_commas_nonempty(s: Seq<char>)
    ensures
        split_commas(s).len() >= 1,
{
}

/// The views of a sequence of string slices.
spec fn views_of(cols: Seq<&str>) -> Seq<Seq<char>> {
    cols.map_values(|c: &str| c@)
}

/// Split a line on commas into its columns, preserving their order and
/// exact text.
fn split_columns<'a>(s: &'a str) -> (cols: Vec<&'a str>)
    ensures
        cols@.len() == split_commas(s@).len(),
        forall|k: int| 0 <= k < cols@.len() ==> #[trigger] cols@[k]@ == split_commas(s@)[k],
{
    let n = s.unicode_len();
    let mut cols: Vec<&str> = Vec::new();
    let mut start: usize = 0;
    let mut i: usize = 0;
    proof {
        assert(s@.skip(0) =~= s@);
        assert(views_of(cols@) + split_commas(s@) =~= split_commas(s@));
    }
    while i < n
        invariant
            start <= i <= n,
            n == s@.len(),
            forall|j: int| start <= j < i ==> s@[j] != ',',
            split_commas(s@) == views_of(cols@) + split_commas(s@.skip(start as int)),
        decreases n - i,
    {
        let c = s.get_char(i);
        if c == ',' {
            let piece = s.substring_char(start, i);
            let ghost prev = cols@;
            cols.push(piece);
            proof {
                let t = s@.skip(start as int);
                assert forall|x: int| 0 <= x < i - start implies t[x] != ',' by {
                    assert(t[x] == s@[start + x]);
                }
                assert(t[i - start] == s@[i as int]);
                lemma_first_comma_at(t, i - start);
                assert(t.take(i - start) =~= s@.subrange(start as int, i as int));
                assert(t.skip(i - start + 1) =~= s@.skip(i as int + 1));
                assert(views_of(cols@) =~= views_of(prev).push(piece@));
                assert(views_of(prev) + split_commas(t) =~= views_of(cols@) + split_commas(
                    s@.skip(i as int + 1),
                ));
            }
            start = i + 1;
        }
        i += 1;
    }
    let piece = s.substring_char(start, n);
    let ghost prev = cols@;
    cols.push(piece);
    proof {
        let t = s@.skip(start as int);
        assert forall|x: int| 0 <= x < t.len() implies t[x] != ',' by {
            assert(t[x] == s@[start + x]);
        }
        lemma_first_comma_at(t, t.len() as int);
        assert(t =~= s@.subrange(start as int, n as int));
        assert(views_of(cols@) =~= views_of(prev).push(piece@));
        assert(views_of(prev) + split_commas(t) =~= views_of(cols@));
        assert forall|k: int| 0 <= k < cols@.len() implies #[trigger] cols@[k]@ == split_commas(
            s@,
        )[k] by {
            assert(views_of(cols@)[k] == cols@[k]@);
        }
    }
    cols
}

/// One parsed measurement: a timestamp plus seven memory/swap counters,
/// all eight fields present and valid or the value does not exist at all.
#[derive(Clone, Copy, PartialEq, Eq, Structural, Debug)]
pub struct Sample {
    pub timestamp: Timestamp,
    pub total: u64,
    pub free: u64,
    pub available: u64,
    pub buffers: u64,
    pub cached: u64,
    pub swap_total: u64,
    pub swap_free: u64,
}

/// Whether column `k` is individually valid: the timestamp column must
/// match the fixed layout with in-range values, every other column must be
/// a decimal `u64`.
pub open spec fn column_ok(c: Seq<char>, k: int) -> bool {
    if k == 0 {
        timestamp_ok(c)
    } else {
        number_ok(c)
    }
}

/// The cause reported for a failing column that is present.
pub open spec fn spec_column_cause(c: Seq<char>, k: int) -> FailureCause {
    if k == 0 {
        if !layout_ok(c) {
            FailureCause::TimestampLayout
        } else {
            FailureCause::TimestampRange
        }
    } else {
        spec_number_cause(c)
    }
}

/// The position of the first absent or invalid column at or after `k`,
/// scanning left to right, or 8 when all eight required columns are fine.
pub open spec fn first_bad_column_from(cs: Seq<Seq<char>>, k: int) -> int
    decreases 8 - k,
{
    if k >= 8 {
        8
    } else if k >= cs.len() {
        k
    } else if !column_ok(cs[k], k) {
        k
    } else {
        first_bad_column_from(cs, k + 1)
    }
}

/// The first failing column position of a whole line, or 8 if none fails.
pub open spec fn first_bad_column(s: Seq<char>) -> int {
    first_bad_column_from(split_commas(s), 0)
}

/// Whether a whole line parses: its first eight columns are present and
/// individually valid (columns beyond the eighth are ignored).
pub open spec fn line_ok(s: Seq<char>) -> bool {
    first_bad_column(s) == 8
}

/// The measurement a fully valid line denotes, column by column.
pub open spec fn spec_sample_of(s: Seq<char>) -> Sample {
    let cs = split_commas(s);
    Sample {
        timestamp: spec_timestamp_of(cs[0]),
        total: digits_val(cs[1]) as u64,
        free: digits_val(cs[2]) as u64,
        available: digits_val(cs[3]) as u64,
        buffers: digits_val(cs[4]) as u64,
        cached: digits_val(cs[5]) as u64,
        swap_total: digits_val(cs[6]) as u64,
        swap_free: digits_val(cs[7]) as u64,
    }
}

impl Sample {
    /// Parse one raw line into a measurement.
    ///
    /// Succeeds exactly on a line whose first eight comma-separated columns
    /// are present and valid, and then returns the literal parsed values.
    /// Otherwise the error reports the leftmost defect: `MissingColumn`
    /// when the line ran out of fields at that position, or a `Failure`
    /// wrapping the detected cause and the failing column's exact raw text.
    pub fn from_str(s: &str) -> (r: Result<Sample, ParseError>)
        ensures
            (r is Ok) <==> line_ok(s@),
            match r {
                Ok(m) => m == spec_sample_of(s@),
                Err(e) => ({
                    let cs = split_commas(s@);
                    let k = first_bad_column(s@);
                    match e {
                        ParseError::MissingColumn => cs.len() <= k < 8,
                        ParseError::Failure(c, t) => k < cs.len() && t@ == cs[k] && c
                            == spec_column_cause(cs[k], k),
                    }
                }),
            },
    {
        proof {
            reveal_with_fuel(first_bad_column_from, 10);
            lemma_split_commas_nonempty(s@);
        }
        let cols = split_columns(s);
        let timestamp = match parse_timestamp(cols[0]) {
            Ok(t) => t,
            Err(e) => {
                return Err(e);
            },
        };
        if cols.len() <= 1 {
            return Err(ParseError::MissingColumn);
        }
        let total = match parse_u64(cols[1]) {
            Ok(v) => v,
            Err(e) => {
                return Err(e);
            },
        };
        if cols.len() <= 2 {
            return Err(ParseError::MissingColumn);
        }
        let free = match parse_u64(cols[2]) {
            Ok(v) => v,
            Err(e) => {
                return Err(e);
            },
        };
        if cols.len() <= 3 {
            return Err(ParseError::MissingColumn);
        }
        let available = match parse_u64(cols[3]) {
            Ok(v) => v,
            Err(e) => {
                return Err(e);
            },
        };
        if cols.len() <= 4 {
            return Err(ParseError::MissingColumn);
        }
        let buffers = match parse_u64(cols[4]) {
            Ok(v) => v,
            Err(e) => {
                return Err(e);
            },
        };
        if cols.len() <= 5 {
            return Err(ParseError::MissingColumn);
        }
        let cached = match parse_u64(cols[5]) {
            Ok(v) => v,
            Err(e) => {
                return Err(e);
            },
        };
        if cols.len() <= 6 {
            return Err(ParseError::MissingColumn);
        }
        let swap_total = match parse_u64(cols[6]) {
            Ok(v) => v,
            Err(e) => {
                return Err(e);
            },
        };
        if cols.len() <= 7 {
            return Err(ParseError::MissingColumn);
        }
        let swap_free = match parse_u64(cols[7]) {
            Ok(v) => v,
            Err(e) => {
                return Err(e);
            },
        };
        Ok(Sample { timestamp, total, free, available, buffers, cached, swap_total, swap_free })
    }
}

} // verus!
