//! Rendering commit timestamps: the civil date and time come from the
//! calendar library behind trusted declarations, while the timezone-offset
//! suffix is computed and specified here exactly.

use vstd::prelude::*;
use chrono::Offset;
use crate::numbers::dec_digits;
use crate::numbers::u64_to_dec;
use crate::bytes::bytes_append;

verus! {

/// What the calendar library renders, `%Y-%m-%d %H:%M:%S`, for an instant
/// given as seconds since the epoch: a function of the seconds alone.
pub uninterp spec fn civil_format_of(secs: i64) -> Seq<u8>;

/// Relies on chrono's DateTime::from_timestamp and format: renders the
/// instant as `%Y-%m-%d %H:%M:%S` in UTC, deciding by the seconds alone;
/// `None` only for an instant outside the representable range, which
/// covers at least the epoch through the end of year 9999.
#[verifier::external_body]
fn format_utc_civil(secs: i64) -> (r: Option<Vec<u8>>)
    ensures
        r matches Some(v) ==> v@ == civil_format_of(secs),
        0 <= secs <= 253_402_300_799 ==> r is Some,
{
    chrono::DateTime::from_timestamp(secs, 0).map(|dt| {
        dt.format("%Y-%m-%d %H:%M:%S").to_string().into_bytes()
    })
}

/// Relies on chrono's Local: the machine's UTC offset at the given
/// instant, in seconds. A fixed offset is kept strictly within one day of
/// zero; which value comes back depends on the machine's timezone
/// database, so nothing more is promised. A corrupt timezone database
/// makes the lookup fail inside the calendar library, an environmental,
/// input-independent failure.
#[verifier::external_body]
fn local_offset_seconds(secs: i64) -> (r: i32)
    ensures
        -86_400 < r < 86_400,
{
    match chrono::DateTime::from_timestamp(secs, 0) {
        Some(dt) => chrono::TimeZone::offset_from_utc_datetime(&chrono::Local, &dt.naive_utc())
            .fix()
            .local_minus_utc(),
        None => 0,
    }
}

/// A number in decimal, padded to at least two digits.
pub open spec fn two_digits(n: nat) -> Seq<u8> {
    if n < 10 {
        seq![48u8] + dec_digits(n)
    } else {
        dec_digits(n)
    }
}

/// The magnitude of a timezone offset in minutes, as a mathematical value.
pub open spec fn offset_magnitude(offset_minutes: i32) -> nat {
    if offset_minutes < 0 {
        (-(offset_minutes as int)) as nat
    } else {
        offset_minutes as nat
    }
}

/// The timezone suffix for an offset in minutes: a sign, the whole hours
/// and the leftover minutes, each padded to two digits.
pub open spec fn offset_suffix(offset_minutes: i32) -> Seq<u8> {
    let sign: u8 = if offset_minutes < 0 {
        45u8
    } else {
        43u8
    };
    seq![32u8, sign] + two_digits(offset_magnitude(offset_minutes) / 60) + two_digits(
        offset_magnitude(offset_minutes) % 60,
    )
}

/// Renders `n` in decimal, padded to at least two digits.
fn push_two_digits(out: &mut Vec<u8>, n: u64)
    ensures
        final(out)@ == old(out)@ + two_digits(n as nat),
{
    if n < 10 {
        out.push(48);
    }
    let digits = u64_to_dec(n);
    bytes_append(out, &digits);
}

/// The full rendering of a commit timestamp: the machine-local civil time,
/// then the commit's own timezone offset. The civil part is the calendar
/// library's rendering of the locally shifted instant; the suffix is
/// exactly `offset_suffix(offset_minutes)`. `None` only for an instant
/// outside the calendar's range: every instant at least a day after the
/// epoch and at least a day before the end of year 9999 renders, whatever
/// the machine's timezone.
pub fn format_commit_time(seconds: i64, offset_minutes: i32) -> (r: Option<Vec<u8>>)
    ensures
        r matches Some(v) ==> exists|shifted: i64|
            v@ == #[trigger] civil_format_of(shifted) + offset_suffix(offset_minutes),
        86_400 <= seconds <= 253_402_214_399 ==> r is Some,
{
    let local_offset = local_offset_seconds(seconds);
    let shifted = seconds.checked_add(local_offset as i64);
    let shifted = match shifted {
        Some(s) => s,
        None => {
            return None;
        },
    };
    let civil = match format_utc_civil(shifted) {
        Some(c) => c,
        None => {
            return None;
        },
    };
    let mut out = civil;
    out.push(32);
    let magnitude: u64 = if offset_minutes < 0 {
        out.push(45);
        (-(offset_minutes as i64)) as u64
    } else {
        out.push(43);
        offset_minutes as u64
    };
    push_two_digits(&mut out, magnitude / 60);
    push_two_digits(&mut out, magnitude % 60);
    proof {
        assert(magnitude == offset_magnitude(offset_minutes));
        assert(out@ =~= civil_format_of(shifted) + offset_suffix(offset_minutes));
    }
    Some(out)
}

} // verus!
