//! RFC 3339 timestamps: grammar, parsed values, and the verified parser.
//!
//! The accepted form is `YYYY-MM-DDTHH:MM:SS[.d+](Z|[+-]HH:MM)`, with `T`
//! also accepted in lower case or as a space and `Z` also in lower case.
//! The calendar fields must be in range for the proleptic Gregorian
//! calendar, seconds run 00 through 59, and the offset runs from -23:59
//! to +23:59. Any number of fractional digits is accepted; digits past
//! the first nine (nanoseconds) are ignored.

use vstd::prelude::*;
use vstd::string::StrSliceExecFns;
use crate::calendar::{day_number, days_in_month, days_in_month_exec, day_number_exec,
    days_before_year, lemma_days_before_year_bounds, DAYS_TO_UNIX_EPOCH};
use crate::instant::{Instant, min_epoch_secs, max_epoch_secs};

verus! {

pub open spec fn is_digit_char(c: char) -> bool {
    c == '0' || c == '1' || c == '2' || c == '3' || c == '4' || c == '5' || c == '6' || c == '7'
        || c == '8' || c == '9'
}

pub open spec fn digit_value(c: char) -> int {
    if c == '0' {
        0
    } else if c == '1' {
        1
    } else if c == '2' {
        2
    } else if c == '3' {
        3
    } else if c == '4' {
        4
    } else if c == '5' {
        5
    } else if c == '6' {
        6
    } else if c == '7' {
        7
    } else if c == '8' {
        8
    } else {
        9
    }
}

pub open spec fn two_digits(s: Seq<char>, i: int) -> int {
    10 * digit_value(s[i]) + digit_value(s[i + 1])
}

pub open spec fn four_digits(s: Seq<char>, i: int) -> int {
    100 * two_digits(s, i) + two_digits(s, i + 2)
}

/// Length of the run of digits in `s` starting at position `i`.
pub open spec fn digits_run_from(s: Seq<char>, i: int) -> int
    decreases s.len() - i,
{
    if i >= s.len() || !is_digit_char(s[i]) {
        0
    } else {
        1 + digits_run_from(s, i + 1)
    }
}

pub open spec fn has_frac(s: Seq<char>) -> bool {
    s.len() > 19 && s[19] == '.'
}

pub open spec fn frac_len(s: Seq<char>) -> int {
    digits_run_from(s, 20)
}

/// Position of the UTC-offset part: right after the seconds, or after the
/// fractional-second digits when those are present.
pub open spec fn offset_pos(s: Seq<char>) -> int {
    if has_frac(s) {
        20 + frac_len(s)
    } else {
        19
    }
}

pub open spec fn offset_shape_ok(s: Seq<char>, p: int) -> bool {
    ||| (s.len() == p + 1 && (s[p] == 'Z' || s[p] == 'z'))
    ||| (s.len() == p + 6 && (s[p] == '+' || s[p] == '-') && is_digit_char(s[p + 1])
        && is_digit_char(s[p + 2]) && s[p + 3] == ':' && is_digit_char(s[p + 4])
        && is_digit_char(s[p + 5]))
}

/// The character-level shape of an RFC 3339 timestamp with explicit offset.
pub open spec fn date_time_shape_ok(s: Seq<char>) -> bool {
    &&& s.len() >= 20
    &&& is_digit_char(s[0]) && is_digit_char(s[1]) && is_digit_char(s[2]) && is_digit_char(s[3])
    &&& s[4] == '-'
    &&& is_digit_char(s[5]) && is_digit_char(s[6])
    &&& s[7] == '-'
    &&& is_digit_char(s[8]) && is_digit_char(s[9])
    &&& (s[10] == 'T' || s[10] == 't' || s[10] == ' ')
    &&& is_digit_char(s[11]) && is_digit_char(s[12])
    &&& s[13] == ':'
    &&& is_digit_char(s[14]) && is_digit_char(s[15])
    &&& s[16] == ':'
    &&& is_digit_char(s[17]) && is_digit_char(s[18])
    &&& (has_frac(s) ==> frac_len(s) >= 1)
    &&& offset_shape_ok(s, offset_pos(s))
}

/// The calendar and clock fields are within range. Only meaningful for a
/// string whose shape is accepted.
pub open spec fn fields_in_range(s: Seq<char>) -> bool {
    let p = offset_pos(s);
    &&& 1 <= two_digits(s, 5) <= 12
    &&& 1 <= two_digits(s, 8) <= days_in_month(four_digits(s, 0), two_digits(s, 5))
    &&& two_digits(s, 11) <= 23
    &&& two_digits(s, 14) <= 59
    &&& two_digits(s, 17) <= 59
    &&& ((s[p] == '+' || s[p] == '-') ==> two_digits(s, p + 1) <= 23 && two_digits(s, p + 4)
        <= 59)
}

pub open spec fn is_valid_rfc3339(s: Seq<char>) -> bool {
    date_time_shape_ok(s) && fields_in_range(s)
}

/// The UTC offset the string carries, in seconds east of UTC.
pub open spec fn parsed_offset_secs(s: Seq<char>) -> int {
    let p = offset_pos(s);
    if s[p] == '+' {
        3600 * two_digits(s, p + 1) + 60 * two_digits(s, p + 4)
    } else if s[p] == '-' {
        -(3600 * two_digits(s, p + 1) + 60 * two_digits(s, p + 4))
    } else {
        0
    }
}

pub open spec fn pow10(k: int) -> int
    decreases k,
{
    if k <= 0 {
        1
    } else {
        10 * pow10(k - 1)
    }
}

/// Value of the `k` digits of `s` starting at position `i`, read as a
/// decimal number.
pub open spec fn digits_value(s: Seq<char>, i: int, k: int) -> int
    decreases k,
{
    if k <= 0 {
        0
    } else {
        10 * digits_value(s, i, k - 1) + digit_value(s[i + k - 1])
    }
}

/// The nanosecond part the string carries: the first nine fractional
/// digits, padded with zeros on the right.
pub open spec fn parsed_nanos(s: Seq<char>) -> int {
    if has_frac(s) {
        let k = if frac_len(s) <= 9 {
            frac_len(s)
        } else {
            9
        };
        digits_value(s, 20, k) * pow10(9 - k)
    } else {
        0
    }
}

/// The seconds-since-epoch count of the civil fields, read in their own
/// offset's local time.
pub open spec fn civil_secs(s: Seq<char>) -> int {
    (day_number(four_digits(s, 0), two_digits(s, 5), two_digits(s, 8)) - DAYS_TO_UNIX_EPOCH)
        * 86400 + 3600 * two_digits(s, 11) + 60 * two_digits(s, 14) + two_digits(s, 17)
}

/// The absolute instant the string denotes: its civil fields with the
/// carried offset normalized away.
pub open spec fn parsed_epoch_secs(s: Seq<char>) -> int {
    civil_secs(s) - parsed_offset_secs(s)
}

/// Why a timestamp string was rejected.
#[derive(Clone, Copy, Debug, PartialEq, Eq, Structural)]
pub enum ParseError {
    /// Shorter than the shortest accepted timestamp.
    TooShort,
    /// A separator or digit is not where the grammar puts it.
    InvalidSyntax,
    /// Shaped like a timestamp, but a calendar, clock or offset field is
    /// out of range.
    FieldOutOfRange,
}

impl ParseError {
    /// A human-readable description of what failed.
    pub fn message(&self) -> (m: String)
        ensures
            self is TooShort ==> m@ == "premature end of input"@,
            self is InvalidSyntax ==> m@ == "input contains invalid characters"@,
            self is FieldOutOfRange ==> m@ == "input is out of range"@,
    {
        match self {
            ParseError::TooShort => String::from_str("premature end of input"),
            ParseError::InvalidSyntax => String::from_str("input contains invalid characters"),
            ParseError::FieldOutOfRange => String::from_str("input is out of range"),
        }
    }
}

/// A successfully parsed timestamp: the absolute instant, and the offset
/// the input carried (informational only; it is not stored).
#[derive(Clone, Copy, Debug, PartialEq, Eq, Structural)]
pub struct ParsedDateTime {
    pub instant: Instant,
    /// Seconds east of UTC carried by the input string.
    pub offset_secs: i32,
}

/// Read the digit at position `i`, if it is one.
fn read_digit(s: &str, i: usize) -> (r: Option<u64>)
    requires
        i < s@.len(),
    ensures
        match r {
            Some(v) => is_digit_char(s@[i as int]) && v == digit_value(s@[i as int]),
            None => !is_digit_char(s@[i as int]),
        },
{
    match s.get_char(i) {
        '0' => Some(0),
        '1' => Some(1),
        '2' => Some(2),
        '3' => Some(3),
        '4' => Some(4),
        '5' => Some(5),
        '6' => Some(6),
        '7' => Some(7),
        '8' => Some(8),
        '9' => Some(9),
        _ => None,
    }
}

/// Read the two-digit number at positions `i` and `i + 1`.
fn read_two_digits(s: &str, i: usize) -> (r: Option<u64>)
    requires
        i + 1 < s@.len() <= usize::MAX,
    ensures
        match r {
            Some(v) => is_digit_char(s@[i as int]) && is_digit_char(s@[i as int + 1]) && v
                == two_digits(s@, i as int) && v <= 99,
            None => !(is_digit_char(s@[i as int]) && is_digit_char(s@[i as int + 1])),
        },
{
    let d0 = match read_digit(s, i) {
        Some(v) => v,
        None => {
            return None;
        },
    };
    let d1 = match read_digit(s, i + 1) {
        Some(v) => v,
        None => {
            return None;
        },
    };
    Some(10 * d0 + d1)
}

pub proof fn lemma_digits_run_exact(s: Seq<char>, i: int, j: int)
    requires
        0 <= i <= j <= s.len(),
        forall|k: int| i <= k < j ==> is_digit_char(#[trigger] s[k]),
        j == s.len() || !is_digit_char(s[j]),
    ensures
        digits_run_from(s, i) == j - i,
    decreases j - i,
{
    if i < j {
        lemma_digits_run_exact(s, i + 1, j);
    }
}

fn pow10_exec(k: u64) -> (r: u64)
    requires
        k <= 9,
    ensures
        r == pow10(k as int),
{
    proof {
        reveal_with_fuel(pow10, 11);
    }
    let mut r: u64 = 1;
    let mut i: u64 = 0;
    while i < k
        invariant
            i <= k <= 9,
            r == pow10(i as int),
            r <= 1_000_000_000,
        decreases k - i,
    {
        r = r * 10;
        i = i + 1;
        proof {
            lemma_pow10_bound(i as int);
        }
    }
    r
}

proof fn lemma_pow10_bound(k: int)
    requires
        0 <= k <= 9,
    ensures
        pow10(k) <= 1_000_000_000,
{
    reveal_with_fuel(pow10, 11);
}

proof fn lemma_pow10_add(a: int, b: int)
    requires
        0 <= a,
        0 <= b,
    ensures
        pow10(a) * pow10(b) == pow10(a + b),
        pow10(a) >= 1,
    decreases a,
{
    if a == 0 {
        assert(pow10(b) >= 1) by {
            lemma_pow10_pos(b);
        }
    } else {
        lemma_pow10_add(a - 1, b);
        assert(pow10(a) * pow10(b) == 10 * (pow10(a - 1) * pow10(b)))
            by (nonlinear_arith)
            requires
                pow10(a) == 10 * pow10(a - 1),
        ;
    }
}

proof fn lemma_pow10_pos(b: int)
    ensures
        pow10(b) >= 1,
    decreases (if b >= 0 { b } else { 0 }),
{
    if b > 0 {
        lemma_pow10_pos(b - 1);
    }
}

/// Parse an RFC 3339 timestamp with explicit UTC offset.
///
/// Succeeds exactly on valid strings; on success the returned instant is
/// the denoted absolute point in time, with the offset normalized away,
/// and the carried offset is reported alongside it.
pub fn parse_rfc3339(s: &str) -> (r: Result<ParsedDateTime, ParseError>)
    ensures
        match r {
            Ok(p) => {
                &&& is_valid_rfc3339(s@)
                &&& p.instant.wf()
                &&& p.instant.secs == parsed_epoch_secs(s@)
                &&& p.instant.nanos == parsed_nanos(s@)
                &&& p.offset_secs == parsed_offset_secs(s@)
            },
            Err(e) => {
                &&& !is_valid_rfc3339(s@)
                &&& (e is TooShort <==> s@.len() < 20)
                &&& (e is InvalidSyntax <==> s@.len() >= 20 && !date_time_shape_ok(s@))
                &&& (e is FieldOutOfRange <==> date_time_shape_ok(s@) && !fields_in_range(s@))
            },
        },
{
    let n = s.unicode_len();
    if n < 20 {
        return Err(ParseError::TooShort);
    }
    // Character shape first, so that a range error is only reported for a
    // string that is shaped like a timestamp.
    let y = match read_two_digits(s, 0) {
        Some(hi) => match read_two_digits(s, 2) {
            Some(lo) => 100 * hi + lo,
            None => {
                return Err(ParseError::InvalidSyntax);
            },
        },
        None => {
            return Err(ParseError::InvalidSyntax);
        },
    };
    if s.get_char(4) != '-' {
        return Err(ParseError::InvalidSyntax);
    }
    let m = match read_two_digits(s, 5) {
        Some(v) => v,
        None => {
            return Err(ParseError::InvalidSyntax);
        },
    };
    if s.get_char(7) != '-' {
        return Err(ParseError::InvalidSyntax);
    }
    let d = match read_two_digits(s, 8) {
        Some(v) => v,
        None => {
            return Err(ParseError::InvalidSyntax);
        },
    };
    let sep = s.get_char(10);
    if !(sep == 'T' || sep == 't' || sep == ' ') {
        return Err(ParseError::InvalidSyntax);
    }
    let h = match read_two_digits(s, 11) {
        Some(v) => v,
        None => {
            return Err(ParseError::InvalidSyntax);
        },
    };
    if s.get_char(13) != ':' {
        return Err(ParseError::InvalidSyntax);
    }
    let mi = match read_two_digits(s, 14) {
        Some(v) => v,
        None => {
            return Err(ParseError::InvalidSyntax);
        },
    };
    if s.get_char(16) != ':' {
        return Err(ParseError::InvalidSyntax);
    }
    let se = match read_two_digits(s, 17) {
        Some(v) => v,
        None => {
            return Err(ParseError::InvalidSyntax);
        },
    };

    // Fractional seconds: a dot followed by one or more digits.
    let mut p: usize = 19;
    let mut nanos: u64 = 0;
    if s.get_char(19) == '.' {
        let mut j: usize = 20;
        let mut taken: u64 = 0;
        loop
            invariant
                20 <= j <= n == s@.len(),
                taken == (if j - 20 <= 9 {
                    j - 20
                } else {
                    9
                }),
                nanos == digits_value(s@, 20, taken as int),
                nanos < pow10(taken as int),
                forall|k: int| 20 <= k < j ==> is_digit_char(#[trigger] s@[k]),
            ensures
                20 <= j <= n,
                taken == (if j - 20 <= 9 {
                    j - 20
                } else {
                    9
                }),
                nanos == digits_value(s@, 20, taken as int),
                nanos < pow10(taken as int),
                forall|k: int| 20 <= k < j ==> is_digit_char(#[trigger] s@[k]),
                j == s@.len() || !is_digit_char(s@[j as int]),
            decreases n - j,
        {
            if j >= n {
                break;
            }
            let dg = match read_digit(s, j) {
                Some(v) => v,
                None => {
                    break;
                },
            };
            if taken < 9 {
                proof {
                    lemma_pow10_bound(taken as int);
                }
                nanos = nanos * 10 + dg;
                taken = taken + 1;
            }
            j = j + 1;
        }
        if j == 20 {
            // A dot with no digits after it.
            proof {
                assert(frac_len(s@) == 0) by {
                    lemma_digits_run_exact(s@, 20, 20);
                }
            }
            return Err(ParseError::InvalidSyntax);
        }
        proof {
            lemma_digits_run_exact(s@, 20, j as int);
        }
        // Scale the first nine digits up to nanoseconds.
        let scale = pow10_exec(9 - taken);
        proof {
            lemma_pow10_add(taken as int, 9 - taken as int);
            lemma_pow10_pos(9 - taken as int);
            assert(pow10(9) == 1_000_000_000) by {
                reveal_with_fuel(pow10, 11);
            }
            vstd::arithmetic::mul::lemma_mul_inequality(
                nanos as int + 1,
                pow10(taken as int),
                pow10(9 - taken as int),
            );
            vstd::arithmetic::mul::lemma_mul_is_distributive_add_other_way(
                pow10(9 - taken as int),
                nanos as int,
                1,
            );
        }
        nanos = nanos * scale;
        p = j;
    }

    // The UTC offset: 'Z' or a signed hour:minute pair, ending the string.
    if p >= n {
        return Err(ParseError::InvalidSyntax);
    }
    let oc = s.get_char(p);
    let (neg, oh, om): (bool, u64, u64) = if oc == 'Z' || oc == 'z' {
        if n - p != 1 {
            return Err(ParseError::InvalidSyntax);
        }
        (false, 0, 0)
    } else if oc == '+' || oc == '-' {
        if n - p != 6 {
            return Err(ParseError::InvalidSyntax);
        }
        let ohv = match read_two_digits(s, p + 1) {
            Some(v) => v,
            None => {
                return Err(ParseError::InvalidSyntax);
            },
        };
        if s.get_char(p + 3) != ':' {
            return Err(ParseError::InvalidSyntax);
        }
        let omv = match read_two_digits(s, p + 4) {
            Some(v) => v,
            None => {
                return Err(ParseError::InvalidSyntax);
            },
        };
        (oc == '-', ohv, omv)
    } else {
        return Err(ParseError::InvalidSyntax);
    };
    proof {
        assert(offset_pos(s@) == p);
        assert(date_time_shape_ok(s@));
    }

    // The shape is right; now the field ranges.
    if m < 1 || m > 12 {
        return Err(ParseError::FieldOutOfRange);
    }
    if d < 1 || d > days_in_month_exec(y as i64, m) {
        return Err(ParseError::FieldOutOfRange);
    }
    if h > 23 || mi > 59 || se > 59 {
        return Err(ParseError::FieldOutOfRange);
    }
    if oh > 23 || om > 59 {
        return Err(ParseError::FieldOutOfRange);
    }

    let day = day_number_exec(y, m, d);
    proof {
        lemma_days_before_year_bounds(10000);
    }
    let civil: i64 = (day as i64 - DAYS_TO_UNIX_EPOCH) * 86400 + (3600 * h + 60 * mi + se) as i64;
    let off: i64 = if neg {
        -((3600 * oh + 60 * om) as i64)
    } else {
        (3600 * oh + 60 * om) as i64
    };
    let secs: i64 = civil - off;
    Ok(ParsedDateTime {
        instant: Instant { secs, nanos: nanos as u32 },
        offset_secs: off as i32,
    })
}

} // verus!
