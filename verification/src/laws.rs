//! Library-wide laws: guarantees that tie several operations together.

use vstd::prelude::*;
use crate::parse::{is_valid_rfc3339, parsed_epoch_secs, parsed_nanos, parsed_offset_secs};
use crate::render::{renders, renderable_local};
use crate::zone::{decode_zone_spec, is_known_zone};

verus! {

/// Round trip through UTC is lossless: parse a valid timestamp, render
/// the instant with a zero offset (the UTC zone's rule at every instant),
/// and the output is again a valid timestamp denoting the same absolute
/// instant, with the same nanoseconds and a zero offset. The only valid
/// inputs left out are those whose instant falls outside the four-digit
/// years once the offset is normalized away.
pub proof fn lemma_utc_round_trip(s: Seq<char>, out: Seq<char>)
    requires
        is_valid_rfc3339(s),
        renderable_local(parsed_epoch_secs(s)),
        renders(out, parsed_epoch_secs(s), parsed_nanos(s), 0),
    ensures
        is_valid_rfc3339(out),
        parsed_epoch_secs(out) == parsed_epoch_secs(s),
        parsed_nanos(out) == parsed_nanos(s),
        parsed_offset_secs(out) == 0,
{
}

/// Zone resolution sees only the decoded identifier: two spellings that
/// decode alike — such as a percent-encoded and a plain path separator —
/// resolve alike.
pub proof fn lemma_zone_resolution_depends_on_decoding(a: Seq<char>, b: Seq<char>)
    requires
        decode_zone_spec(a) == decode_zone_spec(b),
    ensures
        is_known_zone(decode_zone_spec(a)) <==> is_known_zone(decode_zone_spec(b)),
{
}

} // verus!
