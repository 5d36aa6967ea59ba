//! The write path and the fixed health-check text.

use vstd::prelude::*;
use vstd::string::StringExecFns;
use crate::store::Store;
use crate::parse::{parse_rfc3339, ParsedDateTime, ParseError, is_valid_rfc3339,
    parsed_epoch_secs, parsed_nanos, parsed_offset_secs, date_time_shape_ok, fields_in_range,
    pow10};
use crate::render::{dec_digits, push_digits};

verus! {

/// The fixed message of the health-check endpoint.
pub fn health_message() -> (m: String)
    ensures
        m@ == "Building a simple API in Rust using Axum to handle time zones via Chrono-tz"@,
{
    String::from_str("Building a simple API in Rust using Axum to handle time zones via Chrono-tz")
}

/// `±HH:MM` text of a UTC offset, as the create success message shows the
/// offset the caller submitted.
pub open spec fn offset_text(off: int) -> Seq<char> {
    let a = if off >= 0 {
        off
    } else {
        -off
    };
    seq![
        if off >= 0 {
            '+'
        } else {
            '-'
        },
    ] + dec_digits(a / 3600, 2) + seq![':'] + dec_digits((a % 3600) / 60, 2)
}

pub fn offset_string(off: i32) -> (r: String)
    requires
        -86400 < off < 86400,
    ensures
        r@ == offset_text(off as int),
{
    proof {
        reveal_strlit("+");
        reveal_strlit("-");
        reveal_strlit(":");
        assert(pow10(2) == 100) by {
            reveal_with_fuel(pow10, 3);
        }
    }
    let neg = off < 0;
    let a: u64 = if neg {
        (-(off as i64)) as u64
    } else {
        off as u64
    };
    let oh: u64 = a / 3600;
    let om: u64 = (a % 3600) / 60;
    proof {
        vstd::arithmetic::div_mod::lemma_fundamental_div_mod(a as int, 3600);
        vstd::arithmetic::div_mod::lemma_fundamental_div_mod(a as int % 3600, 60);
    }
    let mut out = String::new();
    if neg {
        out.append("-");
    } else {
        out.append("+");
    }
    push_digits(&mut out, oh, 2);
    out.append(":");
    push_digits(&mut out, om, 2);
    proof {
        assert(out@ =~= offset_text(off as int));
    }
    out
}

/// The write path: parse the submitted text; append the instant exactly
/// when parsing succeeds. A rejected submission leaves the store as it
/// was.
pub fn create_datetime(store: &mut Store, input: &str) -> (r: Result<ParsedDateTime, ParseError>)
    requires
        old(store).wf(),
    ensures
        final(store).wf(),
        match r {
            Ok(p) => {
                &&& is_valid_rfc3339(input@)
                &&& final(store)@ == old(store)@.push(p.instant)
                &&& p.instant.wf()
                &&& p.instant.secs == parsed_epoch_secs(input@)
                &&& p.instant.nanos == parsed_nanos(input@)
                &&& p.offset_secs == parsed_offset_secs(input@)
            },
            Err(e) => {
                &&& !is_valid_rfc3339(input@)
                &&& final(store)@ == old(store)@
                &&& (e is TooShort <==> input@.len() < 20)
                &&& (e is InvalidSyntax <==> input@.len() >= 20 && !date_time_shape_ok(input@))
                &&& (e is FieldOutOfRange <==> date_time_shape_ok(input@) && !fields_in_range(
                    input@,
                ))
            },
        },
{
    match parse_rfc3339(input) {
        Ok(p) => {
            store.append(p.instant);
            Ok(p)
        },
        Err(e) => Err(e),
    }
}

} // verus!
