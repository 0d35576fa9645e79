//! The wall clock, read through `chrono`.
use vstd::prelude::*;
use crate::models::opt_view;

verus! {

/// The latest second, counted from the Unix epoch, that chrono can hold:
/// the last second of the year 262142.
pub open spec fn last_chrono_second() -> int {
    8_210_266_876_799
}

/// Calls `chrono::Utc::now()` and reads its `timestamp()` and
/// `timestamp_subsec_nanos()`: the current time as whole seconds since the
/// Unix epoch and the nanoseconds past them. The values depend on the moment
/// of the call. What holds of every reading: `Utc::now` stops with a panic on
/// a clock before the epoch, builds the instant with
/// `DateTime::from_timestamp(secs, Duration::subsec_nanos())` and unwraps it,
/// so the seconds lie between the epoch and the last second chrono can hold,
/// and the nanoseconds are below one second.
#[verifier::external_body]
pub(crate) fn now_moment() -> (r: (i64, u32))
    ensures
        0 <= r.0 <= last_chrono_second(),
        r.1 < 1_000_000_000,
{
    let now = chrono::Utc::now();
    (now.timestamp(), now.timestamp_subsec_nanos())
}

/// The RFC 3339 text (`DateTime::to_rfc3339`) of the instant `secs` seconds
/// and `nanos` nanoseconds after the Unix epoch, in UTC; `None` where
/// `chrono::DateTime::from_timestamp` has no such instant.
pub uninterp spec fn rfc3339_moment(secs: i64, nanos: u32) -> Option<Seq<char>>;

/// Calls `chrono::DateTime::from_timestamp(secs, nanos)` and writes the
/// instant with `to_rfc3339()`: the result is `rfc3339_moment(secs, nanos)`,
/// a function of the two numbers alone. `from_timestamp` has an instant for
/// every second from 8,000,000,000,000 seconds before the epoch up to the
/// last second chrono can hold, with nanoseconds below one second.
#[verifier::external_body]
pub(crate) fn rfc3339_of(secs: i64, nanos: u32) -> (r: Option<String>)
    ensures
        opt_view(r) == rfc3339_moment(secs, nanos),
        -8_000_000_000_000 <= secs <= last_chrono_second() && nanos < 1_000_000_000 ==> r is Some,
{
    match chrono::DateTime::from_timestamp(secs, nanos) {
        Some(moment) => Some(moment.to_rfc3339()),
        None => None,
    }
}

/// The instant `secs` seconds after the Unix epoch written in UTC as
/// `%Y-%m-%dT%H:%M:%SZ`; `None` where `chrono::DateTime::from_timestamp` has
/// no such instant.
pub uninterp spec fn utc_stamp(secs: i64) -> Option<Seq<char>>;

/// Calls `chrono::DateTime::from_timestamp(secs, 0)` and writes the instant
/// with `format("%Y-%m-%dT%H:%M:%SZ")`: the result is `utc_stamp(secs)`, a
/// function of `secs` alone. `from_timestamp` has an instant for every second
/// from 8,000,000,000,000 seconds before the epoch up to the last second
/// chrono can hold.
#[verifier::external_body]
pub(crate) fn utc_stamp_of(secs: i64) -> (r: Option<String>)
    ensures
        opt_view(r) == utc_stamp(secs),
        -8_000_000_000_000 <= secs <= last_chrono_second() ==> r is Some,
{
    match chrono::DateTime::from_timestamp(secs, 0) {
        Some(moment) => Some(moment.format("%Y-%m-%dT%H:%M:%SZ").to_string()),
        None => None,
    }
}

/// The moment that RFC 3339 `text` names, written in UTC as
/// `%Y-%m-%dT%H:%M:%SZ`; `None` when `text` is not RFC 3339.
pub uninterp spec fn search_stamp(text: Seq<char>) -> Option<Seq<char>>;

/// Calls `chrono::DateTime::parse_from_rfc3339` and, for a parsed moment,
/// writes it in UTC with `format("%Y-%m-%dT%H:%M:%SZ")`: the result is
/// `search_stamp(text)`, a function of the text alone.
#[verifier::external_body]
pub(crate) fn rfc3339_to_search_stamp(text: &str) -> (r: Option<String>)
    ensures
        opt_view(r) == search_stamp(text@),
{
    match chrono::DateTime::parse_from_rfc3339(text) {
        Ok(v) => Some(v.with_timezone(&chrono::Utc).format("%Y-%m-%dT%H:%M:%SZ").to_string()),
        Err(_) => None,
    }
}

/// `text` is the RFC 3339 text of a reading of the clock: seconds since the
/// epoch up to the last second chrono can hold, and nanoseconds below one
/// second.
pub open spec fn clock_text(text: Seq<char>) -> bool {
    exists|secs: i64, nanos: u32|
        0 <= secs <= last_chrono_second() && nanos < 1_000_000_000 && #[trigger] rfc3339_moment(
            secs,
            nanos,
        ) == Some(text)
}

/// The current time as RFC 3339 text, from one reading of the clock.
pub(crate) fn now_text() -> (r: String)
    ensures
        clock_text(r@),
{
    let (now, nanos) = now_moment();
    match rfc3339_of(now, nanos) {
        Some(text) => {
            assert(rfc3339_moment(now, nanos) == Some(text@));
            text
        },
        None => String::new(),
    }
}

} // verus!
