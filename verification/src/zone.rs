//! Named time zones: identifier decoding, validation, and rendering
//! instants into a zone.
//!
//! The IANA zone database itself is the business of the chrono-tz crate;
//! this module reaches it through two trusted wrappers. Everything around
//! them — percent-decoding of the identifier, the decision to reject, the
//! rendering of the shifted instant — is verified.

use vstd::prelude::*;
use vstd::string::{StrSliceExecFns, StringExecFns};
use chrono::{Offset, TimeZone};
use crate::instant::{Instant, min_epoch_secs, max_epoch_secs};
use crate::render::{render_rfc3339, renders};

verus! {

/// Whether the zone table compiled into the linked chrono-tz crate knows
/// this identifier; the outcome of `Tz::from_str`, a pure table lookup.
pub uninterp spec fn is_known_zone(name: Seq<char>) -> bool;

/// The offset from UTC, in seconds east, that the named zone's rules
/// assign to the given instant (daylight saving included); the outcome of
/// chrono-tz's offset lookup, a pure function of the compiled-in table.
pub uninterp spec fn zone_offset_of(name: Seq<char>, secs: int) -> int;

/// Relies on `chrono_tz::Tz::from_str`: a pure lookup of the identifier in
/// the compiled-in zone table.
#[verifier::external_body]
fn tz_is_known(name: &str) -> (r: bool)
    ensures
        r == is_known_zone(name@),
{
    name.parse::<chrono_tz::Tz>().is_ok()
}

/// Relies on chrono-tz's `TimeZone::offset_from_utc_datetime`, a pure
/// lookup of the zone rule in effect at the given instant, and on chrono's
/// `FixedOffset`, whose seconds are strictly within one day. The table's
/// `UTC` entry is a single all-zero rule.
#[verifier::external_body]
fn tz_offset_at(name: &str, secs: i64) -> (off: i64)
    requires
        is_known_zone(name@),
        min_epoch_secs() <= secs as int <= max_epoch_secs(),
    ensures
        off == zone_offset_of(name@, secs as int),
        -86400 < off < 86400,
        name@ == "UTC"@ ==> off == 0,
{
    let tz: chrono_tz::Tz = name.parse().unwrap();
    let utc = chrono::DateTime::<chrono::Utc>::from_timestamp(secs, 0).unwrap();
    tz.offset_from_utc_datetime(&utc.naive_utc()).fix().local_minus_utc() as i64
}

/// Zone identifiers are hierarchical (`Region/City`); a path separator
/// that reaches us percent-encoded as `%2F` is decoded back, left to
/// right, before lookup.
pub open spec fn decode_zone_spec(s: Seq<char>) -> Seq<char>
    decreases s.len(),
{
    if s.len() == 0 {
        Seq::empty()
    } else if s.len() >= 3 && s[0] == '%' && s[1] == '2' && s[2] == 'F' {
        seq!['/'] + decode_zone_spec(s.skip(3))
    } else {
        seq![s[0]] + decode_zone_spec(s.skip(1))
    }
}

pub fn decode_zone(s: &str) -> (r: String)
    ensures
        r@ == decode_zone_spec(s@),
{
    proof {
        reveal_strlit("/");
    }
    let n = s.unicode_len();
    let mut out = String::new();
    let mut i: usize = 0;
    proof {
        assert(s@.skip(0) =~= s@);
        assert(out@ + decode_zone_spec(s@) =~= decode_zone_spec(s@));
    }
    while i < n
        invariant
            i <= n == s@.len(),
            decode_zone_spec(s@) == out@ + decode_zone_spec(s@.skip(i as int)),
        decreases n - i,
    {
        if n - i >= 3 && s.get_char(i) == '%' && s.get_char(i + 1) == '2' && s.get_char(i + 2)
            == 'F' {
            out.append("/");
            proof {
                reveal_strlit("/");
                assert(s@.skip(i as int).skip(3) =~= s@.skip(i as int + 3));
                assert(decode_zone_spec(s@.skip(i as int)) == seq!['/'] + decode_zone_spec(
                    s@.skip(i as int + 3),
                ));
                assert(decode_zone_spec(s@) =~= out@ + decode_zone_spec(s@.skip(i as int + 3)));
            }
            i = i + 3;
        } else {
            let piece = s.substring_char(i, i + 1);
            out.append(piece);
            proof {
                assert(s@.skip(i as int).skip(1) =~= s@.skip(i as int + 1));
                assert(piece@ =~= seq![s@.skip(i as int)[0]]);
                assert(decode_zone_spec(s@.skip(i as int)) == seq![s@[i as int]]
                    + decode_zone_spec(s@.skip(i as int + 1)));
                assert(decode_zone_spec(s@) =~= out@ + decode_zone_spec(s@.skip(i as int + 1)));
            }
            i = i + 1;
        }
    }
    proof {
        assert(s@.skip(n as int) =~= Seq::<char>::empty());
        assert(decode_zone_spec(s@) =~= out@);
    }
    out
}

/// A zone identifier that the zone database has resolved.
#[derive(Debug)]
pub struct ResolvedZone {
    name: String,
}

impl ResolvedZone {
    /// The decoded identifier this zone was resolved from.
    pub closed spec fn spec_name(&self) -> Seq<char> {
        self.name@
    }

    pub open spec fn wf(&self) -> bool {
        is_known_zone(self.spec_name())
    }

    pub fn name(&self) -> (r: &str)
        ensures
            r@ == self.spec_name(),
    {
        self.name.as_str()
    }
}

/// An identifier the zone database does not know.
#[derive(Debug)]
pub struct ZoneError {
    /// The invalid identifier, as looked up (already percent-decoded).
    pub identifier: String,
}

impl ZoneError {
    /// A human-readable description of what failed.
    pub fn message(&self) -> (m: String)
        ensures
            m@ == "failed to parse timezone"@,
    {
        String::from_str("failed to parse timezone")
    }
}

/// Decode and validate a caller-supplied zone identifier. Succeeds exactly
/// when the decoded identifier is in the zone database.
pub fn validate_zone(raw: &str) -> (r: Result<ResolvedZone, ZoneError>)
    ensures
        match r {
            Ok(z) => {
                &&& is_known_zone(decode_zone_spec(raw@))
                &&& z.spec_name() == decode_zone_spec(raw@)
                &&& z.wf()
            },
            Err(e) => {
                &&& !is_known_zone(decode_zone_spec(raw@))
                &&& e.identifier@ == decode_zone_spec(raw@)
            },
        },
{
    let name = decode_zone(raw);
    if tz_is_known(name.as_str()) {
        Ok(ResolvedZone { name })
    } else {
        Err(ZoneError { identifier: name })
    }
}

/// Render one instant in a resolved zone, as RFC 3339 text whose offset is
/// the zone's rule at that very instant.
pub fn render_in_zone(instant: &Instant, zone: &ResolvedZone) -> (r: String)
    requires
        instant.wf(),
        zone.wf(),
    ensures
        renders(
            r@,
            instant.secs as int,
            instant.nanos as int,
            zone_offset_of(zone.spec_name(), instant.secs as int),
        ),
        zone.spec_name() == "UTC"@ ==> zone_offset_of(zone.spec_name(), instant.secs as int)
            == 0,
{
    let off = tz_offset_at(zone.name.as_str(), instant.secs);
    render_rfc3339(instant.secs, instant.nanos, off)
}

/// Render a whole snapshot in a resolved zone, in insertion order.
pub fn render_all(instants: &Vec<Instant>, zone: &ResolvedZone) -> (v: Vec<String>)
    requires
        forall|k: int| 0 <= k < instants@.len() ==> #[trigger] instants@[k].wf(),
        zone.wf(),
    ensures
        v@.len() == instants@.len(),
        forall|k: int|
            0 <= k < v@.len() ==> renders(
                #[trigger] v@[k]@,
                instants@[k].secs as int,
                instants@[k].nanos as int,
                zone_offset_of(zone.spec_name(), instants@[k].secs as int),
            ),
        zone.spec_name() == "UTC"@ ==> forall|k: int|
            0 <= k < instants@.len() ==> #[trigger] zone_offset_of(
                zone.spec_name(),
                instants@[k].secs as int,
            ) == 0,
{
    let mut v: Vec<String> = Vec::new();
    let mut k: usize = 0;
    while k < instants.len()
        invariant
            k <= instants@.len(),
            v@.len() == k,
            zone.wf(),
            forall|j: int| 0 <= j < instants@.len() ==> #[trigger] instants@[j].wf(),
            forall|j: int|
                0 <= j < k ==> renders(
                    #[trigger] v@[j]@,
                    instants@[j].secs as int,
                    instants@[j].nanos as int,
                    zone_offset_of(zone.spec_name(), instants@[j].secs as int),
                ),
            zone.spec_name() == "UTC"@ ==> forall|j: int|
                0 <= j < k ==> #[trigger] zone_offset_of(
                    zone.spec_name(),
                    instants@[j].secs as int,
                ) == 0,
        decreases instants@.len() - k,
    {
        let rendered = render_in_zone(&instants[k], zone);
        v.push(rendered);
        k = k + 1;
    }
    v
}

/// The whole read path on a snapshot: decode and validate the zone, then
/// render every instant, in order. A zone failure renders nothing.
pub fn fetch_in_zone(instants: &Vec<Instant>, raw_zone: &str) -> (r: Result<
    Vec<String>,
    ZoneError,
>)
    requires
        forall|k: int| 0 <= k < instants@.len() ==> #[trigger] instants@[k].wf(),
    ensures
        match r {
            Ok(v) => {
                &&& is_known_zone(decode_zone_spec(raw_zone@))
                &&& v@.len() == instants@.len()
                &&& forall|k: int|
                    0 <= k < v@.len() ==> renders(
                        #[trigger] v@[k]@,
                        instants@[k].secs as int,
                        instants@[k].nanos as int,
                        zone_offset_of(decode_zone_spec(raw_zone@), instants@[k].secs as int),
                    )
                &&& decode_zone_spec(raw_zone@) == "UTC"@ ==> forall|k: int|
                    0 <= k < instants@.len() ==> #[trigger] zone_offset_of(
                        decode_zone_spec(raw_zone@),
                        instants@[k].secs as int,
                    ) == 0
            },
            Err(e) => {
                &&& !is_known_zone(decode_zone_spec(raw_zone@))
                &&& e.identifier@ == decode_zone_spec(raw_zone@)
            },
        },
{
    let zone = match validate_zone(raw_zone) {
        Ok(z) => z,
        Err(e) => {
            return Err(e);
        },
    };
    Ok(render_all(instants, &zone))
}

} // verus!
