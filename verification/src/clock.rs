//! Instants and their written forms, as `chrono` reads and writes them.

use crate::numbers::{decimal, zero_padded};
use crate::text;
use crate::types::Timestamp;
use vstd::prelude::*;

verus! {

/// The instant that a text in the form of RFC 3339 names, as seconds since 1970
/// and nanoseconds, or why it names none.
pub uninterp spec fn rfc3339_instant(s: Seq<char>) -> Result<(i64, u32), Seq<char>>;

/// The UTC instant that a text without time zone names in a given format.
pub uninterp spec fn naive_instant(s: Seq<char>, format: Seq<char>) -> Option<(i64, u32)>;

/// An instant written in the form of RFC 3339, with nine decimals and a Z.
pub uninterp spec fn rfc3339_text(secs: i64, nanos: u32) -> Option<Seq<char>>;

/// `chrono::DateTime::parse_from_rfc3339`, its result taken as seconds and
/// nanoseconds in UTC, and its error as the text that it shows. A text with fewer
/// characters than a date and a time of day to the second take, with their
/// separators, names no instant.
#[verifier::external_body]
pub(crate) fn read_rfc3339(s: &str) -> (r: Result<(i64, u32), String>)
    ensures
        match r {
            Ok(at) => rfc3339_instant(s@) is Ok && rfc3339_instant(s@)->Ok_0 == at,
            Err(e) => rfc3339_instant(s@) is Err && rfc3339_instant(s@)->Err_0 == e@,
        },
        s@.len() < 19 ==> r is Err,
{
    let read = chrono::DateTime::parse_from_rfc3339(s).map_err(|e| e.to_string());
    read.map(|t| (t.timestamp(), t.timestamp_subsec_nanos()))
}

/// Why a text in none of the known forms names no instant.
pub open spec fn unknown_form() -> Seq<char> {
    rfc3339_instant("bad"@)->Err_0
}

/// Why a text in none of the known forms names no instant.
pub fn unknown_form_text() -> (s: String)
    ensures
        s@ == unknown_form(),
{
    proof {
        reveal_strlit("bad");
    }
    read_rfc3339("bad").unwrap_err()
}

/// `chrono::NaiveDateTime::parse_from_str`, its result taken as UTC.
#[verifier::external_body]
pub(crate) fn read_naive(s: &str, format: &str) -> (r: Option<(i64, u32)>)
    ensures
        r == naive_instant(s@, format@),
{
    let read = chrono::NaiveDateTime::parse_from_str(s, format).ok();
    read.map(|t| (t.and_utc().timestamp(), t.and_utc().timestamp_subsec_nanos()))
}

/// Whether an instant lies in the years 1970 to 9999, in no leap second.
pub open spec fn plain_year(secs: i64, nanos: u32) -> bool {
    0 <= secs < 253_402_300_800 && nanos < 1_000_000_000
}

/// `chrono::DateTime::from_timestamp` and `to_rfc3339_opts` with nanoseconds and
/// a Z for UTC. Up to the end of the year 9999 the text has the plain form of
/// RFC 3339 and names the instant again.
#[verifier::external_body]
pub(crate) fn write_rfc3339(secs: i64, nanos: u32) -> (r: Option<String>)
    ensures
        text::opt_text(r) == rfc3339_text(secs, nanos),
        plain_year(secs, nanos) ==> r is Some && rfc3339_instant(r->Some_0@) is Ok
            && rfc3339_instant(r->Some_0@)->Ok_0 == (secs, nanos),
{
    let at = chrono::DateTime::from_timestamp(secs, nanos);
    at.map(|t| t.to_rfc3339_opts(chrono::SecondsFormat::Nanos, true))
}

/// The time stamp of an instant that was read.
pub open spec fn stamp(at: Option<(i64, u32)>) -> Option<Timestamp> {
    match at {
        Some((secs, nanos)) => Some(Timestamp { secs, nanos }),
        None => None,
    }
}

/// The instant that the text of a time stamp names: RFC 3339, or one of the
/// forms without time zone, with a T or a space and with or without decimals.
pub open spec fn instant_of(s: Seq<char>) -> Option<Timestamp> {
    if let Ok((secs, nanos)) = rfc3339_instant(s) {
        Some(Timestamp { secs, nanos })
    } else if naive_instant(s, "%Y-%m-%dT%H:%M:%S%.f"@) is Some {
        stamp(naive_instant(s, "%Y-%m-%dT%H:%M:%S%.f"@))
    } else if naive_instant(s, "%Y-%m-%dT%H:%M:%S"@) is Some {
        stamp(naive_instant(s, "%Y-%m-%dT%H:%M:%S"@))
    } else if naive_instant(s, "%Y-%m-%d %H:%M:%S%.f"@) is Some {
        stamp(naive_instant(s, "%Y-%m-%d %H:%M:%S%.f"@))
    } else {
        stamp(naive_instant(s, "%Y-%m-%d %H:%M:%S"@))
    }
}

/// Reads the text of a time stamp in any of the known forms.
pub fn read_instant(s: &str) -> (r: Option<Timestamp>)
    ensures
        r == instant_of(s@),
{
    if let Ok((secs, nanos)) = read_rfc3339(s) {
        return Some(Timestamp { secs, nanos });
    }
    if let Some((secs, nanos)) = read_naive(s, "%Y-%m-%dT%H:%M:%S%.f") {
        return Some(Timestamp { secs, nanos });
    }
    if let Some((secs, nanos)) = read_naive(s, "%Y-%m-%dT%H:%M:%S") {
        return Some(Timestamp { secs, nanos });
    }
    if let Some((secs, nanos)) = read_naive(s, "%Y-%m-%d %H:%M:%S%.f") {
        return Some(Timestamp { secs, nanos });
    }
    if let Some((secs, nanos)) = read_naive(s, "%Y-%m-%d %H:%M:%S") {
        return Some(Timestamp { secs, nanos });
    }
    None
}

// ---------------------------------------------------------------------------
// Display
// ---------------------------------------------------------------------------

/// Whether a format is one of those that instants are shown in.
pub open spec fn is_display_format(format: Seq<char>) -> bool {
    ||| format == "%H:%M:%S%.3f"@
    ||| format == "%Y-%m-%d"@
    ||| format == "%Y-%m-%d %H:%M:%S UTC"@
    ||| format == "%Y-%m-%d %H:%M:%S%.3f UTC"@
}

/// An instant written in a format.
pub uninterp spec fn formatted(secs: i64, nanos: u32, format: Seq<char>) -> Option<Seq<char>>;

/// A number below one hundred in two digits.
pub open spec fn two_digits(n: int) -> Seq<char> {
    zero_padded(decimal(n as nat), 2)
}

/// The time of day of an instant, to the millisecond. A leap second counts as
/// the second 60.
pub open spec fn clock_text(secs: i64, nanos: u32) -> Seq<char> {
    let day = secs as int % 86_400;
    two_digits(day / 3600) + ":"@ + two_digits(day / 60 % 60) + ":"@ + two_digits(
        day % 60 + nanos as int / 1_000_000_000,
    ) + "."@ + zero_padded(decimal((nanos as int / 1_000_000 % 1000) as nat), 3)
}

/// `chrono::DateTime::from_timestamp` and `format`. There is a text for every
/// instant of the years 1970 to 9999, and in the format of the time of day it is
/// the one that `clock_text` gives.
#[verifier::external_body]
pub(crate) fn write_format(secs: i64, nanos: u32, format: &str) -> (r: Option<String>)
    requires
        is_display_format(format@),
    ensures
        text::opt_text(r) == formatted(secs, nanos, format@),
        plain_year(secs, nanos) ==> r is Some,
        r is Some && format@ == "%H:%M:%S%.3f"@ ==> r->Some_0@ == clock_text(secs, nanos),
{
    let at = chrono::DateTime::from_timestamp(secs, nanos);
    at.map(|t| t.format(format).to_string())
}

/// The whole seconds from one instant to another.
pub uninterp spec fn elapsed(from_secs: i64, from_nanos: u32, to_secs: i64, to_nanos: u32) -> Option<
    i64,
>;

/// The whole seconds between two instants that are in no leap second, the first
/// of which is not the later one.
pub open spec fn whole_seconds(from_secs: i64, from_nanos: u32, to_secs: i64, to_nanos: u32) -> int {
    to_secs - from_secs - (if to_nanos < from_nanos {
        1int
    } else {
        0
    })
}

/// `chrono::DateTime::signed_duration_since` and `TimeDelta::num_seconds`. For
/// instants of the years 1970 to 9999 that follow one another and are in no leap
/// second the result is the one that `whole_seconds` gives.
#[verifier::external_body]
pub(crate) fn seconds_between(from_secs: i64, from_nanos: u32, to_secs: i64, to_nanos: u32) -> (r: Option<
    i64,
>)
    ensures
        r == elapsed(from_secs, from_nanos, to_secs, to_nanos),
        plain_year(from_secs, from_nanos) && plain_year(to_secs, to_nanos) && whole_seconds(
            from_secs,
            from_nanos,
            to_secs,
            to_nanos,
        ) >= 0 ==> r is Some && r->Some_0 == whole_seconds(
            from_secs,
            from_nanos,
            to_secs,
            to_nanos,
        ),
{
    let from = chrono::DateTime::from_timestamp(from_secs, from_nanos);
    let to = chrono::DateTime::from_timestamp(to_secs, to_nanos);
    from.zip(to).map(|(a, b)| b.signed_duration_since(a).num_seconds())
}

/// An instant in a format; empty for one that has no calendar date.
pub open spec fn shown_instant(at: Timestamp, format: Seq<char>) -> Seq<char> {
    match formatted(at.secs, at.nanos, format) {
        Some(t) => t,
        None => Seq::empty(),
    }
}

/// Writes an instant in one of the display formats.
pub fn show_instant(at: &Timestamp, format: &str) -> (s: String)
    requires
        is_display_format(format@),
    ensures
        s@ == shown_instant(*at, format@),
        plain_year(at.secs, at.nanos) && format@ == "%H:%M:%S%.3f"@ ==> s@ == clock_text(
            at.secs,
            at.nanos,
        ),
{
    match write_format(at.secs, at.nanos, format) {
        Some(t) => t,
        None => String::new(),
    }
}

// ---------------------------------------------------------------------------
// FILETIME
// ---------------------------------------------------------------------------

/// The FILETIME of 1970: units of 100 nanoseconds since 1601.
pub const EPOCH_DIFF: i64 = 116_444_736_000_000_000;

/// A FILETIME written in the form of RFC 3339; empty before 1970.
pub open spec fn filetime_text(ft: i64) -> Seq<char> {
    if ft < EPOCH_DIFF {
        Seq::empty()
    } else {
        let units = ft - EPOCH_DIFF;
        match rfc3339_text((units / 10_000_000) as i64, ((units % 10_000_000) * 100) as u32) {
            Some(t) => t,
            None => Seq::empty(),
        }
    }
}

/// Writes a FILETIME in the form of RFC 3339; empty before 1970.
pub fn filetime_to_rfc3339(ft: i64) -> (s: String)
    ensures
        s@ == filetime_text(ft),
        EPOCH_DIFF <= ft < EPOCH_DIFF + 2_534_023_008_000_000_000 ==> rfc3339_instant(s@) is Ok
            && rfc3339_instant(s@)->Ok_0 == (
                ((ft - EPOCH_DIFF) / 10_000_000) as i64,
                (((ft - EPOCH_DIFF) % 10_000_000) * 100) as u32,
            ),
{
    if ft < EPOCH_DIFF {
        return String::new();
    }
    let units: i64 = ft - EPOCH_DIFF;
    let secs: i64 = units / 10_000_000;
    let nanos: u32 = (units % 10_000_000) as u32 * 100;
    match write_rfc3339(secs, nanos) {
        Some(t) => t,
        None => String::new(),
    }
}

} // verus!
