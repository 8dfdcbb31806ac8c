//! The display form of the time of an entry's last change.

use vstd::prelude::*;

verus! {

/// Why a timestamp has no display form.
#[derive(Clone, Copy, Debug)]
pub enum DatetimeError {
    /// The format description was not accepted.
    Description,
    /// The timestamp lies outside the years that a date can hold.
    Range,
    /// The date could not be written in the format.
    Format,
}

/// The format in which a time is shown.
pub const DATETIME_FORMAT: &'static str = "[year]-[month]-[day] [hour]:[minute]:[second] UTC";

/// What the `time` crate makes of a UNIX timestamp, taken as a time in UTC
/// and written in `DATETIME_FORMAT`, or the step at which it fails.
pub uninterp spec fn utc_datetime(timestamp: int) -> Result<Seq<char>, DatetimeError>;

/// Calls `time::format_description::parse` on `DATETIME_FORMAT`,
/// `time::OffsetDateTime::from_unix_timestamp` and
/// `time::OffsetDateTime::format`. Trusted: the outcome depends on the
/// timestamp alone.
#[verifier::external_body]
#[allow(deprecated)]
fn format_utc(timestamp: i64) -> (r: Result<String, DatetimeError>)
    ensures
        match r {
            Ok(text) => utc_datetime(timestamp as int) == Ok::<Seq<char>, DatetimeError>(text@),
            Err(e) => utc_datetime(timestamp as int) == Err::<Seq<char>, DatetimeError>(e),
        },
{
    let format = match time::format_description::parse(DATETIME_FORMAT) {
        Ok(format) => format,
        Err(_) => return Err(DatetimeError::Description),
    };
    let when = match time::OffsetDateTime::from_unix_timestamp(timestamp) {
        Ok(when) => when,
        Err(_) => return Err(DatetimeError::Range),
    };
    match when.format(&format) {
        Ok(text) => Ok(text),
        Err(_) => Err(DatetimeError::Format),
    }
}

/// The time `timestamp` seconds after the UNIX epoch, in UTC, as
/// `year-month-day hour:minute:second UTC`.
pub fn datetime(timestamp: i64) -> (r: Result<String, DatetimeError>)
    ensures
        match r {
            Ok(text) => utc_datetime(timestamp as int) == Ok::<Seq<char>, DatetimeError>(text@),
            Err(e) => utc_datetime(timestamp as int) == Err::<Seq<char>, DatetimeError>(e),
        },
{
    format_utc(timestamp)
}

} // verus!
