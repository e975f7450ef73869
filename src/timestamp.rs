//! RFC 3339 timestamps, read as instants in nanoseconds since the Unix
//! epoch.

use vstd::prelude::*;

verus! {

/// The instant that an RFC 3339 timestamp denotes, in nanoseconds since the
/// Unix epoch; `None` for text that is not RFC 3339.
pub uninterp spec fn rfc3339_nanos(s: Seq<char>) -> Option<i128>;

/// Relies on `time::OffsetDateTime::parse` with the `Rfc3339` description,
/// then `unix_timestamp_nanos`: `None` where parsing fails, otherwise the
/// instant the text denotes, which depends on the text alone.
#[verifier::external_body]
pub(crate) fn parse_rfc3339(s: &str) -> (r: Option<i128>)
    ensures
        r == rfc3339_nanos(s@),
{
    match time::OffsetDateTime::parse(s, &time::format_description::well_known::Rfc3339) {
        Ok(t) => Some(t.unix_timestamp_nanos()),
        Err(_) => None,
    }
}

/// Relies on `time::OffsetDateTime::now_utc`: the current instant, in
/// nanoseconds since the Unix epoch. Nothing is known of its value.
#[verifier::external_body]
pub(crate) fn now_nanos() -> (r: i128) {
    time::OffsetDateTime::now_utc().unix_timestamp_nanos()
}

} // verus!
