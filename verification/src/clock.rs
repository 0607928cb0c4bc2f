//! The wall clock, read through `std::time`, and the date-time formats,
//! read and written by `chrono`.
//!
//! These are the only places where the library reaches either. Verus takes
//! each contract here on trust; [`now`] itself is verified and never fails
//! otherwise than by returning `None`.

use crate::models::opt_text;
use vstd::prelude::*;

verus! {

/// Whether `chrono` reads `text` as an RFC 3339 date-time with an offset.
pub uninterp spec fn is_rfc3339(text: Seq<char>) -> bool;

/// What a second-resolution stamp `YYYYMMDD_HHMMSS` reads as, written out
/// as an RFC 3339 date-time in UTC; `None` where `chrono` does not read it.
pub uninterp spec fn stamp_as_rfc3339(stamp: Seq<char>) -> Option<Seq<char>>;

/// One reading of the clock, in the two forms the library writes.
#[derive(Debug)]
pub struct Timestamp {
    /// RFC 3339, in UTC: the form stored in records.
    pub rfc3339: String,
    /// `YYYYMMDD_HHMMSS`, in UTC: the form used in file names.
    pub stamp: String,
}

/// Calls `chrono::DateTime::parse_from_rfc3339` and reports whether it
/// returned `Ok`. The outcome depends on the text alone.
#[verifier::external_body]
pub(crate) fn parses_as_rfc3339(text: &str) -> (ok: bool)
    ensures
        ok == is_rfc3339(text@),
{
    chrono::DateTime::parse_from_rfc3339(text).is_ok()
}

/// Calls `chrono::NaiveDateTime::parse_from_str` with the format
/// `%Y%m%d_%H%M%S` and, where that reads the stamp, writes the date-time
/// with `and_utc().to_rfc3339()`. The outcome depends on the text alone.
#[verifier::external_body]
pub(crate) fn read_stamp(stamp: &str) -> (out: Option<String>)
    ensures
        opt_text(out) == stamp_as_rfc3339(stamp@),
{
    match chrono::NaiveDateTime::parse_from_str(stamp, "%Y%m%d_%H%M%S") {
        Ok(at) => Some(at.and_utc().to_rfc3339()),
        Err(_) => None,
    }
}

/// `std::time::SystemTime`, carried through as it is.
#[verifier::external_type_specification]
#[verifier::external_body]
pub struct ExSystemTime(std::time::SystemTime);

/// Calls `std::time::SystemTime::now`. Nothing is promised of the result.
#[verifier::external_body]
pub(crate) fn system_now() -> std::time::SystemTime {
    std::time::SystemTime::now()
}

/// Calls `std::time::SystemTime::duration_since` with the start of 1970
/// and hands out the whole seconds and the nanoseconds of what it returns;
/// `None` where it reports that the time lies before 1970. Nothing is
/// promised of the result.
#[verifier::external_body]
pub(crate) fn since_epoch(at: &std::time::SystemTime) -> Option<(u64, u32)> {
    match at.duration_since(std::time::UNIX_EPOCH) {
        Ok(passed) => Some((passed.as_secs(), passed.subsec_nanos())),
        Err(_) => None,
    }
}

/// Calls `chrono::DateTime::from_timestamp` and, where that gives a
/// date-time, writes it with `to_rfc3339` and with
/// `format("%Y%m%d_%H%M%S")`; `None` where the instant is out of the range
/// of `chrono`. Nothing is promised of the result.
#[verifier::external_body]
pub(crate) fn utc_timestamp(secs: i64, nanos: u32) -> Option<Timestamp> {
    match chrono::DateTime::from_timestamp(secs, nanos) {
        Some(at) => Some(
            Timestamp { rfc3339: at.to_rfc3339(), stamp: at.format("%Y%m%d_%H%M%S").to_string() },
        ),
        None => None,
    }
}

/// One reading of the clock, or `None` where the clock shows a time that
/// cannot be written: one before 1970 or beyond the range of dates.
pub(crate) fn now() -> Option<Timestamp> {
    let at = system_now();
    match since_epoch(&at) {
        Some((secs, nanos)) => {
            if secs <= 0x7fff_ffff_ffff_ffff {
                utc_timestamp(secs as i64, nanos)
            } else {
                None
            }
        },
        None => None,
    }
}

} // verus!
