//! Decimal digit strings: what they denote and how they are read.
//!
//! Every numeric field of an input line is a run of ASCII digits; its value
//! is the base-10 number they spell, most significant digit first.  The spec
//! functions here give that denotation, and the executable readers are
//! proved against it.

use vstd::prelude::*;

use crate::error::FailureCause;
use crate::error::ParseError;

verus! {

/// Whether `c` is an ASCII decimal digit.
pub open spec fn is_digit(c: char) -> bool {
    '0' <= c && c <= '9'
}

/// The numeric value of one decimal digit character.
pub open spec fn digit_val(c: char) -> int {
    c as int - '0' as int
}

/// Every character of `s` is a decimal digit.
pub open spec fn all_digits(s: Seq<char>) -> bool {
    forall|i: int| 0 <= i < s.len() ==> is_digit(#[trigger] s[i])
}

/// The base-10 value a digit string denotes, most significant digit first.
/// The empty string denotes zero.
pub open spec fn digits_val(s: Seq<char>) -> int
    decreases s.len(),
{
    if s.len() == 0 {
        0
    } else {
        digits_val(s.drop_last()) * 10 + digit_val(s.last())
    }
}

/// Ten to the `n`-th power.
pub open spec fn pow10(n: nat) -> int
    decreases n,
{
    if n == 0 {
        1
    } else {
        10 * pow10((n - 1) as nat)
    }
}

/// A digit string denotes a non-negative value.
pub proof fn lemma_digits_val_nonneg(s: Seq<char>)
    requires
        all_digits(s),
    ensures
        digits_val(s) >= 0,
    decreases s.len(),
{
    if s.len() > 0 {
        assert(all_digits(s.drop_last())) by {
            assert(forall|i: int|
                0 <= i < s.drop_last().len() ==> s.drop_last()[i] == #[trigger] s[i]);
        }
        lemma_digits_val_nonneg(s.drop_last());
    }
}

/// A digit string of length `n` denotes a value below `pow10(n)`.
pub proof fn lemma_digits_val_bound(s: Seq<char>)
    requires
        all_digits(s),
    ensures
        0 <= digits_val(s) < pow10(s.len()),
    decreases s.len(),
{
    if s.len() == 0 {
    } else {
        assert(all_digits(s.drop_last())) by {
            assert(forall|i: int|
                0 <= i < s.drop_last().len() ==> s.drop_last()[i] == #[trigger] s[i]);
        }
        lemma_digits_val_bound(s.drop_last());
    }
}

/// Extending a digit prefix by one character multiplies its value by ten and
/// adds the new digit.
pub proof fn lemma_digits_val_window_step(s: Seq<char>, from: int, i: int)
    requires
        0 <= from <= i < s.len(),
    ensures
        digits_val(s.subrange(from, i + 1)) == digits_val(s.subrange(from, i)) * 10 + digit_val(
            s[i],
        ),
{
    assert(s.subrange(from, i + 1).drop_last() =~= s.subrange(from, i));
    assert(s.subrange(from, i + 1).last() == s[i]);
}

/// A prefix of a digit string never denotes more than the whole string.
pub proof fn lemma_digits_val_prefix(s: Seq<char>, i: int)
    requires
        all_digits(s),
        0 <= i <= s.len(),
    ensures
        digits_val(s.take(i)) <= digits_val(s),
    decreases s.len() - i,
{
    if i == s.len() {
        assert(s.take(i) =~= s);
    } else {
        assert(s.take(i + 1).subrange(0, i) =~= s.take(i));
        lemma_digits_val_window_step(s, 0, i);
        assert(s.subrange(0, i + 1) =~= s.take(i + 1));
        assert(s.subrange(0, i) =~= s.take(i));
        assert(all_digits(s.take(i))) by {
            assert(forall|j: int| 0 <= j < i ==> s.take(i)[j] == #[trigger] s[j]);
        }
        lemma_digits_val_nonneg(s.take(i));
        assert(digits_val(s.take(i + 1)) >= digits_val(s.take(i)));
        lemma_digits_val_prefix(s, i + 1);
    }
}

/// The numeric value of one decimal digit character.
fn digit_value(c: char) -> (d: u32)
    requires
        is_digit(c),
    ensures
        d == digit_val(c),
        d <= 9,
{
    (c as u32) - ('0' as u32)
}

/// Read the value of the digit run `s[from..to]`, at most six digits wide.
pub fn read_number(s: &str, from: usize, to: usize) -> (r: u32)
    requires
        from <= to <= s@.len(),
        to - from <= 6,
        forall|j: int| from <= j < to ==> is_digit(#[trigger] s@[j]),
    ensures
        r == digits_val(s@.subrange(from as int, to as int)),
        r < 1000000,
{
    proof {
        reveal_with_fuel(pow10, 8);
    }
    let mut r: u32 = 0;
    let mut i: usize = from;
    while i < to
        invariant
            from <= i <= to <= s@.len(),
            to - from <= 6,
            forall|j: int| from <= j < to ==> is_digit(#[trigger] s@[j]),
            r == digits_val(s@.subrange(from as int, i as int)),
            r < pow10((i - from) as nat),
        decreases to - i,
    {
        let c = s.get_char(i);
        let d = digit_value(c);
        proof {
            reveal_with_fuel(pow10, 8);
            lemma_digits_val_window_step(s@, from as int, i as int);
        }
        r = r * 10 + d;
        i += 1;
    }
    proof {
        reveal_with_fuel(pow10, 8);
    }
    r
}

/// The cause reported when a numeric field fails to parse: empty text, a
/// non-digit character, or a value too large for `u64`, checked in that
/// order.
pub open spec fn spec_number_cause(s: Seq<char>) -> FailureCause {
    if s.len() == 0 {
        FailureCause::EmptyNumber
    } else if !all_digits(s) {
        FailureCause::InvalidDigit
    } else {
        FailureCause::NumberOverflow
    }
}

/// Whether `s` is a well-formed numeric field: non-empty, all digits, and
/// within `u64` range.
pub open spec fn number_ok(s: Seq<char>) -> bool {
    s.len() > 0 && all_digits(s) && digits_val(s) <= u64::MAX
}

/// Parse a whole string as a base-10 non-negative 64-bit integer.  No sign,
/// no separators and no leading `+` are accepted: digits only.
pub fn parse_u64(s: &str) -> (r: Result<u64, ParseError>)
    ensures
        (r is Ok) <==> number_ok(s@),
        match r {
            Ok(v) => v == digits_val(s@),
            Err(e) => e matches ParseError::Failure(c, t) && c == spec_number_cause(s@) && t@
                == s@,
        },
{
    let n = s.unicode_len();
    if n == 0 {
        return Err(ParseError::failure(FailureCause::EmptyNumber, s));
    }
    let mut i: usize = 0;
    while i < n
        invariant
            n == s@.len(),
            i <= n,
            forall|j: int| 0 <= j < i ==> is_digit(#[trigger] s@[j]),
        decreases n - i,
    {
        let c = s.get_char(i);
        if !(c >= '0' && c <= '9') {
            return Err(ParseError::failure(FailureCause::InvalidDigit, s));
        }
        i += 1;
    }
    assert(all_digits(s@));
    let mut v: u64 = 0;
    let mut i: usize = 0;
    while i < n
        invariant
            n == s@.len(),
            i <= n,
            all_digits(s@),
            v == digits_val(s@.take(i as int)),
        decreases n - i,
    {
        let c = s.get_char(i);
        let d = digit_value(c) as u64;
        proof {
            lemma_digits_val_window_step(s@, 0, i as int);
            assert(s@.subrange(0, i as int) =~= s@.take(i as int));
            assert(s@.subrange(0, i as int + 1) =~= s@.take(i as int + 1));
        }
        if v > (u64::MAX - d) / 10 {
            proof {
                let x = (u64::MAX - d) as int;
                vstd::arithmetic::div_mod::lemma_fundamental_div_mod(x, 10);
                assert(v * 10 + d > u64::MAX);
                lemma_digits_val_prefix(s@, i as int + 1);
            }
            return Err(ParseError::failure(FailureCause::NumberOverflow, s));
        }
        v = v * 10 + d;
        i += 1;
    }
    proof {
        assert(s@.take(n as int) =~= s@);
    }
    Ok(v)
}

} // verus!
