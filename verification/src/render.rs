//! Rendering instants as RFC 3339 text.
//!
//! Rendering is pure: the output is determined by the instant and the
//! offset alone. Its central guarantee is the `renders` relation below:
//! whenever the shifted instant falls on a four-digit year, the output is
//! itself a valid RFC 3339 timestamp that parses back to the very same
//! absolute instant (offsets are shown to whole minutes, so an offset with
//! a seconds part — only found in pre-1972 zone rules — shifts the parsed
//! instant by those leftover seconds).

use vstd::prelude::*;
use vstd::string::StringExecFns;
use crate::calendar::{day_number, days_in_month, days_in_year, days_before_year,
    lemma_days_before_year_mono, lemma_days_before_year_bounds, lemma_days_before_month_full,
    lemma_days_before_month_mono, civil_from_day_number, DAYS_TO_UNIX_EPOCH};
use crate::instant::{min_epoch_secs, max_epoch_secs};
use crate::parse::{is_digit_char, digit_value, two_digits, four_digits, has_frac, frac_len,
    offset_pos, date_time_shape_ok, fields_in_range, is_valid_rfc3339, parsed_offset_secs,
    pow10, digits_value, parsed_nanos, civil_secs, parsed_epoch_secs};

verus! {

pub open spec fn digit_char(d: int) -> char {
    if d == 0 {
        '0'
    } else if d == 1 {
        '1'
    } else if d == 2 {
        '2'
    } else if d == 3 {
        '3'
    } else if d == 4 {
        '4'
    } else if d == 5 {
        '5'
    } else if d == 6 {
        '6'
    } else if d == 7 {
        '7'
    } else if d == 8 {
        '8'
    } else {
        '9'
    }
}

/// The decimal digits of `v`, written with exactly `k` digits.
pub open spec fn dec_digits(v: int, k: int) -> Seq<char>
    decreases k,
{
    if k <= 0 {
        Seq::empty()
    } else {
        dec_digits(v / 10, k - 1).push(digit_char(v % 10))
    }
}

/// An offset truncated to whole minutes, toward zero: the granularity an
/// RFC 3339 offset field can show.
pub open spec fn whole_minute_offset(off: int) -> int {
    if off >= 0 {
        60 * (off / 60)
    } else {
        -(60 * ((-off) / 60))
    }
}

/// The local clock reading `secs + off` falls on a four-digit year.
pub open spec fn renderable_local(local: int) -> bool {
    0 <= local + DAYS_TO_UNIX_EPOCH * 86400 < days_before_year(10000) * 86400
}

/// What rendering promises: whenever the shifted instant has a four-digit
/// year, the output is a valid RFC 3339 timestamp carrying the offset
/// rounded to whole minutes, the same nanoseconds, and — once that rounding
/// is accounted for — the same absolute instant.
pub open spec fn renders(out: Seq<char>, secs: int, nanos: int, off: int) -> bool {
    let local = secs + off;
    &&& out.len() > 0
    &&& (renderable_local(local) ==> {
        &&& is_valid_rfc3339(out)
        &&& parsed_epoch_secs(out) == local - whole_minute_offset(off)
        &&& parsed_nanos(out) == nanos
        &&& parsed_offset_secs(out) == whole_minute_offset(off)
    })
}

fn digit_str(d: u64) -> (r: &'static str)
    requires
        d <= 9,
    ensures
        r@.len() == 1,
        r@[0] == digit_char(d as int),
{
    proof {
        reveal_strlit("0");
        reveal_strlit("1");
        reveal_strlit("2");
        reveal_strlit("3");
        reveal_strlit("4");
        reveal_strlit("5");
        reveal_strlit("6");
        reveal_strlit("7");
        reveal_strlit("8");
        reveal_strlit("9");
    }
    match d {
        0 => "0",
        1 => "1",
        2 => "2",
        3 => "3",
        4 => "4",
        5 => "5",
        6 => "6",
        7 => "7",
        8 => "8",
        _ => "9",
    }
}

/// Append `v` as exactly `k` decimal digits, most significant first.
pub(crate) fn push_digits(out: &mut String, v: u64, k: u64)
    requires
        k <= 10,
        v < pow10(k as int),
    ensures
        final(out)@ == old(out)@ + dec_digits(v as int, k as int),
    decreases k,
{
    if k == 0 {
        proof {
            assert(out@ =~= old(out)@ + dec_digits(v as int, 0));
        }
        return;
    }
    proof {
        vstd::arithmetic::div_mod::lemma_fundamental_div_mod(v as int, 10);
        assert(v / 10 < pow10(k as int - 1)) by {
            if v / 10 >= pow10(k as int - 1) {
                assert(10 * (v as int / 10) >= 10 * pow10(k as int - 1)) by (nonlinear_arith)
                    requires
                        v as int / 10 >= pow10(k as int - 1),
                ;
            }
        }
    }
    push_digits(out, v / 10, k - 1);
    out.append(digit_str(v % 10));
    proof {
        assert(out@ =~= old(out)@ + dec_digits(v as int, k as int));
    }
}

pub proof fn lemma_dec_digits_len(v: int, k: int)
    requires
        0 <= k,
    ensures
        dec_digits(v, k).len() == k,
    decreases k,
{
    if k > 0 {
        lemma_dec_digits_len(v / 10, k - 1);
    }
}

/// The digits written by `dec_digits` are digit characters whose value can
/// be read back: a `k`-digit run denotes `v` again.
proof fn lemma_dec_digits_read_back(s: Seq<char>, i: int, v: int, k: int)
    requires
        0 <= i,
        0 <= k,
        0 <= v < pow10(k),
        i + k <= s.len(),
        forall|j: int| 0 <= j < k ==> s[i + j] == dec_digits(v, k)[j],
    ensures
        digits_value(s, i, k) == v,
        forall|j: int| i <= j < i + k ==> is_digit_char(#[trigger] s[j]),
    decreases k,
{
    if k > 0 {
        vstd::arithmetic::div_mod::lemma_fundamental_div_mod(v, 10);
        assert(v / 10 < pow10(k - 1)) by {
            if v / 10 >= pow10(k - 1) {
                assert(10 * (v / 10) >= 10 * pow10(k - 1)) by (nonlinear_arith)
                    requires
                        v / 10 >= pow10(k - 1),
                ;
            }
        }
        lemma_dec_digits_len(v, k);
        lemma_dec_digits_len(v / 10, k - 1);
        assert(forall|j: int| 0 <= j < k - 1 ==> #[trigger] s[i + j] == dec_digits(
            v / 10,
            k - 1,
        )[j]) by {
            assert forall|j: int| 0 <= j < k - 1 implies #[trigger] s[i + j] == dec_digits(
                v / 10,
                k - 1,
            )[j] by {
                assert(s[i + j] == dec_digits(v, k)[j]);
            }
        }
        lemma_dec_digits_read_back(s, i, v / 10, k - 1);
        assert(s[i + (k - 1)] == dec_digits(v, k)[k - 1]);
        assert(dec_digits(v, k)[k - 1] == digit_char(v % 10));
        assert(is_digit_char(digit_char(v % 10)));
        assert(digit_value(digit_char(v % 10)) == v % 10);
        assert(digits_value(s, i, k) == 10 * digits_value(s, i, k - 1) + digit_value(
            s[i + k - 1],
        ));
    }
}

/// A date with in-range fields lies inside its own year's days.
proof fn lemma_day_number_within_year(y: int, m: int, d: int)
    requires
        1 <= m <= 12,
        1 <= d <= days_in_month(y, m),
    ensures
        days_before_year(y) <= day_number(y, m, d) < days_before_year(y) + days_in_year(y),
{
    lemma_days_before_month_full(y);
    lemma_days_before_month_mono(y, 1, m);
    lemma_days_before_month_mono(y, m + 1, 13);
}

/// Render an instant shifted by a UTC offset as RFC 3339 text.
///
/// Total: any in-range instant and any sub-day offset yield a string. The
/// `renders` relation states what the string means. On the rare shifted
/// instants that fall outside the four-digit years, the year is written
/// with a sign (`-0001`, `+10000`) as chrono does, and `renders` claims
/// nothing further.
pub fn render_rfc3339(secs: i64, nanos: u32, off: i64) -> (r: String)
    requires
        min_epoch_secs() <= secs as int <= max_epoch_secs(),
        nanos < 1_000_000_000,
        -86400 < off < 86400,
    ensures
        renders(r@, secs as int, nanos as int, off as int),
{
    proof {
        lemma_days_before_year_bounds(10000);
        lemma_days_before_year_bounds(10001);
        reveal_with_fuel(pow10, 11);
    }
    let local: i64 = secs + off;
    // Seconds since 0000-01-01T00:00:00, plus one extra leap year so the
    // count is non-negative even one day before year 0.
    let biased: u64 = (local + DAYS_TO_UNIX_EPOCH * 86400 + 366 * 86400) as u64;
    let day_biased: u64 = biased / 86400;
    let sod: u64 = biased % 86400;
    proof {
        vstd::arithmetic::div_mod::lemma_fundamental_div_mod(biased as int, 86400);
    }
    let local_day: i64 = day_biased as i64 - 366;
    proof {
        assert(local + DAYS_TO_UNIX_EPOCH * 86400 == 86400 * local_day + sod);
        assert(days_before_year(10001) == days_before_year(10000) + days_in_year(10000));
        assert(-365 <= local_day < days_before_year(10001));
    }
    let (y, mth, dom) = civil_from_day_number(local_day);
    let h: u64 = sod / 3600;
    let r2: u64 = sod % 3600;
    let mi: u64 = r2 / 60;
    let se: u64 = r2 % 60;
    proof {
        vstd::arithmetic::div_mod::lemma_fundamental_div_mod(sod as int, 3600);
        vstd::arithmetic::div_mod::lemma_fundamental_div_mod(r2 as int, 60);
    }
    let neg: bool = off < 0;
    let oabs: u64 = if off < 0 {
        (-off) as u64
    } else {
        off as u64
    };
    let omin: u64 = oabs / 60;
    let oh: u64 = omin / 60;
    let om: u64 = omin % 60;
    proof {
        vstd::arithmetic::div_mod::lemma_fundamental_div_mod(oabs as int, 60);
        vstd::arithmetic::div_mod::lemma_fundamental_div_mod(omin as int, 60);
    }

    let mut out = String::new();
    let four_digit_year: bool = 0 <= y && y <= 9999;
    if four_digit_year {
        push_digits(&mut out, y as u64, 4);
    } else if y < 0 {
        proof {
            reveal_strlit("-");
        }
        out.append("-");
        push_digits(&mut out, (-y) as u64, 4);
    } else {
        proof {
            reveal_strlit("+");
        }
        out.append("+");
        push_digits(&mut out, y as u64, 5);
    }
    let ghost year_part: Seq<char> = out@;
    proof {
        if four_digit_year {
            assert(year_part =~= dec_digits(y as int, 4));
        }
        reveal_strlit("-");
        reveal_strlit("T");
        reveal_strlit(":");
        reveal_strlit(".");
        reveal_strlit("+");
    }
    out.append("-");
    push_digits(&mut out, mth, 2);
    out.append("-");
    push_digits(&mut out, dom, 2);
    out.append("T");
    push_digits(&mut out, h, 2);
    out.append(":");
    push_digits(&mut out, mi, 2);
    out.append(":");
    push_digits(&mut out, se, 2);
    let ghost datetime_part: Seq<char> = out@;
    proof {
        assert(datetime_part =~= year_part + seq!['-'] + dec_digits(mth as int, 2) + seq!['-']
            + dec_digits(dom as int, 2) + seq!['T'] + dec_digits(h as int, 2) + seq![':']
            + dec_digits(mi as int, 2) + seq![':'] + dec_digits(se as int, 2));
    }

    // Fractional seconds, as chrono writes them: absent when zero, else 3,
    // 6 or 9 digits.
    let frac_digits: u64;
    let frac_value: u64;
    if nanos == 0 {
        frac_digits = 0;
        frac_value = 0;
    } else if nanos % 1_000_000 == 0 {
        frac_digits = 3;
        frac_value = (nanos / 1_000_000) as u64;
        proof {
            vstd::arithmetic::div_mod::lemma_fundamental_div_mod(nanos as int, 1_000_000);
            assert(pow10(3) == 1000 && pow10(6) == 1_000_000) by {
                reveal_with_fuel(pow10, 11);
            }
        }
        out.append(".");
        push_digits(&mut out, frac_value, 3);
    } else if nanos % 1_000 == 0 {
        frac_digits = 6;
        frac_value = (nanos / 1_000) as u64;
        proof {
            vstd::arithmetic::div_mod::lemma_fundamental_div_mod(nanos as int, 1_000);
            assert(pow10(3) == 1000 && pow10(6) == 1_000_000) by {
                reveal_with_fuel(pow10, 11);
            }
        }
        out.append(".");
        push_digits(&mut out, frac_value, 6);
    } else {
        frac_digits = 9;
        frac_value = nanos as u64;
        proof {
            assert(pow10(0) == 1 && pow10(9) == 1_000_000_000) by {
                reveal_with_fuel(pow10, 11);
            }
        }
        out.append(".");
        push_digits(&mut out, frac_value, 9);
    }
    let ghost with_frac = out@;
    proof {
        if frac_digits == 0 {
            assert(with_frac =~= datetime_part);
        } else {
            assert(with_frac =~= datetime_part + seq!['.'] + dec_digits(
                frac_value as int,
                frac_digits as int,
            ));
        }
    }

    if neg {
        out.append("-");
    } else {
        out.append("+");
    }
    push_digits(&mut out, oh, 2);
    out.append(":");
    push_digits(&mut out, om, 2);

    proof {
        assert(out@ =~= with_frac + seq![if neg {
            '-'
        } else {
            '+'
        }] + dec_digits(oh as int, 2) + seq![':'] + dec_digits(om as int, 2));
        assert(60 * (60 * (oh as int) + om as int) == 60 * (oabs as int / 60));
        lemma_render_meaning(
            out@,
            year_part,
            datetime_part,
            with_frac,
            secs as int,
            nanos as int,
            off as int,
            local as int,
            local_day as int,
            y as int,
            mth as int,
            dom as int,
            h as int,
            mi as int,
            se as int,
            neg,
            oh as int,
            om as int,
            frac_digits as int,
            frac_value as int,
        );
    }
    out
}

/// The built string means what `renders` says it means.
#[verifier::spinoff_prover]
proof fn lemma_render_meaning(
    out: Seq<char>,
    year_part: Seq<char>,
    datetime_part: Seq<char>,
    with_frac: Seq<char>,
    secs: int,
    nanos: int,
    off: int,
    local: int,
    local_day: int,
    y: int,
    mth: int,
    dom: int,
    h: int,
    mi: int,
    se: int,
    neg: bool,
    oh: int,
    om: int,
    frac_digits: int,
    frac_value: int,
)
    requires
        local == secs + off,
        local + DAYS_TO_UNIX_EPOCH * 86400 == 86400 * local_day + (3600 * h + 60 * mi + se),
        day_number(y, mth, dom) == local_day,
        -1 <= y <= 10000,
        1 <= mth <= 12,
        1 <= dom <= days_in_month(y, mth),
        0 <= h <= 23,
        0 <= mi <= 59,
        0 <= se <= 59,
        0 <= nanos < 1_000_000_000,
        -86400 < off < 86400,
        neg == (off < 0),
        0 <= oh <= 23,
        0 <= om <= 59,
        60 * (60 * oh + om) == whole_minute_offset(if off < 0 {
            -off
        } else {
            off
        }),
        (0 <= y <= 9999) ==> year_part == dec_digits(y, 4),
        datetime_part == year_part + seq!['-'] + dec_digits(mth, 2) + seq!['-'] + dec_digits(
            dom,
            2,
        ) + seq!['T'] + dec_digits(h, 2) + seq![':'] + dec_digits(mi, 2) + seq![':'] + dec_digits(
            se,
            2,
        ),
        frac_digits == 0 || frac_digits == 3 || frac_digits == 6 || frac_digits == 9,
        nanos == 0 <==> frac_digits == 0,
        0 <= frac_value < pow10(frac_digits),
        frac_digits == 3 ==> nanos == 1_000_000 * frac_value,
        frac_digits == 6 ==> nanos == 1_000 * frac_value,
        frac_digits == 9 ==> nanos == frac_value,
        with_frac == (if frac_digits == 0 {
            datetime_part
        } else {
            datetime_part + seq!['.'] + dec_digits(frac_value, frac_digits)
        }),
        out == with_frac + seq![if neg {
            '-'
        } else {
            '+'
        }] + dec_digits(oh, 2) + seq![':'] + dec_digits(om, 2),
    ensures
        renders(out, secs, nanos, off),
{
    assert(pow10(2) == 100 && pow10(3) == 1000 && pow10(4) == 10000 && pow10(6) == 1_000_000
        && pow10(9) == 1_000_000_000) by {
        reveal_with_fuel(pow10, 11);
    }
    assert(out.len() > 0);
    if renderable_local(local) {
        // A four-digit year: 0 <= local_day < days at year 10000.
        lemma_day_number_within_year(y, mth, dom);
        assert(0 <= local_day < days_before_year(10000)) by {
            assert(0 <= 86400 * local_day + (3600 * h + 60 * mi + se));
            assert(86400 * local_day + (3600 * h + 60 * mi + se) < days_before_year(10000)
                * 86400);
        }
        assert(0 <= y <= 9999) by {
            if y < 0 {
                lemma_days_before_year_mono(y + 1, 0);
                assert(day_number(y, mth, dom) < days_before_year(0));
            }
            if y > 9999 {
                lemma_days_before_year_mono(10000, y);
                assert(day_number(y, mth, dom) >= days_before_year(10000));
            }
        }
        let fl: int = if frac_digits == 0 {
            0
        } else {
            frac_digits + 1
        };
        lemma_dec_digits_len(y, 4);
        lemma_dec_digits_len(mth, 2);
        lemma_dec_digits_len(dom, 2);
        lemma_dec_digits_len(h, 2);
        lemma_dec_digits_len(mi, 2);
        lemma_dec_digits_len(se, 2);
        lemma_dec_digits_len(oh, 2);
        lemma_dec_digits_len(om, 2);
        lemma_dec_digits_len(frac_value, frac_digits);
        assert(year_part.len() == 4 && datetime_part.len() == 19 && with_frac.len() == 19 + fl
            && out.len() == 25 + fl);
        let p = 19 + fl;
        // Character-by-character facts.
        assert(forall|j: int| 0 <= j < 4 ==> out[j] == dec_digits(y, 4)[j]);
        assert(out[4] == '-' && out[7] == '-' && out[10] == 'T' && out[13] == ':' && out[16]
            == ':');
        assert(forall|j: int| 0 <= j < 2 ==> out[5 + j] == dec_digits(mth, 2)[j]);
        assert(forall|j: int| 0 <= j < 2 ==> out[8 + j] == dec_digits(dom, 2)[j]);
        assert(forall|j: int| 0 <= j < 2 ==> out[11 + j] == dec_digits(h, 2)[j]);
        assert(forall|j: int| 0 <= j < 2 ==> out[14 + j] == dec_digits(mi, 2)[j]);
        assert(forall|j: int| 0 <= j < 2 ==> out[17 + j] == dec_digits(se, 2)[j]);
        assert(out[p] == (if neg {
            '-'
        } else {
            '+'
        }));
        assert(forall|j: int| 0 <= j < 2 ==> out[p + 1 + j] == dec_digits(oh, 2)[j]);
        assert(out[p + 3] == ':');
        assert(forall|j: int| 0 <= j < 2 ==> out[p + 4 + j] == dec_digits(om, 2)[j]);

        // Field values read back.
        lemma_dec_digits_read_back(out, 0, y, 4);
        lemma_dec_digits_read_back(out, 5, mth, 2);
        lemma_dec_digits_read_back(out, 8, dom, 2);
        lemma_dec_digits_read_back(out, 11, h, 2);
        lemma_dec_digits_read_back(out, 14, mi, 2);
        lemma_dec_digits_read_back(out, 17, se, 2);
        lemma_dec_digits_read_back(out, p + 1, oh, 2);
        lemma_dec_digits_read_back(out, p + 4, om, 2);
        lemma_two_digit_value(out, y, mth, dom, h, mi, se, p, oh, om);

        // The fractional run and the offset position.
        if frac_digits == 0 {
            assert(!has_frac(out));
            assert(offset_pos(out) == 19);
        } else {
            assert(out[19] == '.');
            assert(has_frac(out));
            assert(forall|j: int| 0 <= j < frac_digits ==> out[20 + j] == dec_digits(
                frac_value,
                frac_digits,
            )[j]);
            lemma_dec_digits_read_back(out, 20, frac_value, frac_digits);
            assert(!is_digit_char(out[20 + frac_digits]));
            crate::parse::lemma_digits_run_exact(out, 20, 20 + frac_digits);
            assert(frac_len(out) == frac_digits);
            assert(offset_pos(out) == p);
        }
        assert(date_time_shape_ok(out));
        assert(fields_in_range(out));
        assert(is_valid_rfc3339(out));

        // The values: nanoseconds ...
        if frac_digits == 0 {
            assert(parsed_nanos(out) == nanos);
        } else {
            assert(digits_value(out, 20, frac_digits) == frac_value);
            assert(parsed_nanos(out) == frac_value * pow10(9 - frac_digits));
            assert(frac_value * pow10(9 - frac_digits) == nanos) by (nonlinear_arith)
                requires
                    frac_digits == 3 || frac_digits == 6 || frac_digits == 9,
                    pow10(6) == 1_000_000,
                    pow10(3) == 1_000,
                    pow10(0) == 1,
                    frac_digits == 3 ==> nanos == 1_000_000 * frac_value,
                    frac_digits == 6 ==> nanos == 1_000 * frac_value,
                    frac_digits == 9 ==> nanos == frac_value,
            ;
        }
        // ... the offset ...
        let shown = 3600 * oh + 60 * om;
        assert(shown == 60 * (60 * oh + om));
        if neg {
            assert(parsed_offset_secs(out) == -shown);
            assert(whole_minute_offset(off) == -(60 * ((-off) / 60)));
        } else {
            assert(parsed_offset_secs(out) == shown);
        }
        assert(parsed_offset_secs(out) == whole_minute_offset(off));
        // ... and the instant itself.
        assert(four_digits(out, 0) == y && two_digits(out, 5) == mth && two_digits(out, 8)
            == dom && two_digits(out, 11) == h && two_digits(out, 14) == mi && two_digits(
            out,
            17,
        ) == se);
        assert(civil_secs(out) == (local_day - DAYS_TO_UNIX_EPOCH) * 86400 + 3600 * h + 60 * mi + se);
        assert(civil_secs(out) == local);
        assert(parsed_epoch_secs(out) == local - whole_minute_offset(off));
    }
}

/// Helper: the two- and four-digit fields of the built string read back as
/// the numbers that were written.
proof fn lemma_two_digit_value(
    out: Seq<char>,
    y: int,
    mth: int,
    dom: int,
    h: int,
    mi: int,
    se: int,
    p: int,
    oh: int,
    om: int,
)
    requires
        0 <= y < 10000,
        digits_value(out, 0, 4) == y,
        digits_value(out, 5, 2) == mth,
        digits_value(out, 8, 2) == dom,
        digits_value(out, 11, 2) == h,
        digits_value(out, 14, 2) == mi,
        digits_value(out, 17, 2) == se,
        digits_value(out, p + 1, 2) == oh,
        digits_value(out, p + 4, 2) == om,
        0 <= mth < 100,
        0 <= dom < 100,
        0 <= h < 100,
        0 <= mi < 100,
        0 <= se < 100,
        0 <= oh < 100,
        0 <= om < 100,
    ensures
        four_digits(out, 0) == y,
        two_digits(out, 5) == mth,
        two_digits(out, 8) == dom,
        two_digits(out, 11) == h,
        two_digits(out, 14) == mi,
        two_digits(out, 17) == se,
        two_digits(out, p + 1) == oh,
        two_digits(out, p + 4) == om,
{
    reveal_with_fuel(digits_value, 5);
}

} // verus!
