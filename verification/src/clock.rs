//! Wall-clock time and its RFC 3339 text, as instants of seconds and
//! nanoseconds since the Unix epoch (UTC).
use vstd::prelude::*;

verus! {

/// The current time (`chrono::Utc::now`): seconds and nanoseconds since
/// the epoch. Nothing is promised of it: it is the machine's clock.
#[verifier::external_body]
pub(crate) fn utc_now() -> (i64, u32) {
    let now = chrono::Utc::now();
    (now.timestamp(), now.timestamp_subsec_nanos())
}

/// The instant an RFC 3339 text names, if it is one
/// (`DateTime::parse_from_rfc3339`, taken to UTC).
pub uninterp spec fn rfc3339_instant(s: Seq<char>) -> Option<(i64, u32)>;

/// Reads an RFC 3339 date and time (any offset) as a UTC instant.
#[verifier::external_body]
pub(crate) fn parse_rfc3339(s: &str) -> (r: Option<(i64, u32)>)
    ensures
        r == rfc3339_instant(s@),
{
    match chrono::DateTime::parse_from_rfc3339(s) {
        Ok(t) => Some((t.timestamp(), t.timestamp_subsec_nanos())),
        Err(_) => None,
    }
}

/// The RFC 3339 text of a UTC instant (`DateTime::to_rfc3339`).
pub uninterp spec fn rfc3339_of(secs: i64, nanos: u32) -> Seq<char>;

/// Instants `DateTime::from_timestamp` accepts for certain: a whole number
/// of nanoseconds below one second, and a time within some 250,000 years of
/// the epoch.
pub open spec fn representable(secs: i64, nanos: u32) -> bool {
    -8_000_000_000_000 <= secs <= 8_000_000_000_000 && nanos < 1_000_000_000
}

/// Instants from the epoch to the end of year 9999 with a whole number of
/// nanoseconds below one second: their RFC 3339 text has a four-digit year,
/// and `parse_from_rfc3339` reads it back.
pub open spec fn four_digit_year(secs: i64, nanos: u32) -> bool {
    0 <= secs < 253_402_300_800 && nanos < 1_000_000_000
}

/// The RFC 3339 text of an instant (`DateTime::from_timestamp`, then
/// `to_rfc3339`); `None` where the instant cannot be represented. The text
/// carries every nanosecond (`SecondsFormat::AutoSi`), so for an instant
/// with a four-digit year parsing it gives the instant back.
#[verifier::external_body]
pub(crate) fn rfc3339_text(secs: i64, nanos: u32) -> (r: Option<String>)
    ensures
        r matches Some(t) ==> t@ == rfc3339_of(secs, nanos),
        representable(secs, nanos) ==> r is Some,
        r matches Some(t) ==> (four_digit_year(secs, nanos) ==> rfc3339_instant(t@) == Some((secs, nanos))),
{
    match chrono::DateTime::from_timestamp(secs, nanos) {
        Some(t) => Some(t.to_rfc3339()),
        None => None,
    }
}

/// Whether instant `a` comes before instant `b`.
pub open spec fn before(a: (i64, u32), b: (i64, u32)) -> bool {
    a.0 < b.0 || (a.0 == b.0 && a.1 < b.1)
}

/// Whether instant `a` comes before instant `b`.
pub fn is_before(a: (i64, u32), b: (i64, u32)) -> (r: bool)
    ensures
        r == before(a, b),
{
    a.0 < b.0 || (a.0 == b.0 && a.1 < b.1)
}

} // verus!
