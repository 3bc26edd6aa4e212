//! Dates: reading the clippings' date text and the start-date option with
//! chrono, and placing a wall-clock time in the machine's time zone.
use vstd::prelude::*;
use crate::model::ConvertError;
use crate::text::string_of;

verus! {

/// The seconds since the Unix epoch of the wall-clock time that chrono reads
/// from a text with a strftime-style format, taken as UTC.
pub uninterp spec fn naive_seconds_of(s: Seq<char>, fmt: Seq<char>) -> Option<i64>;

/// The seconds since the Unix epoch of the midnight starting the date that
/// chrono reads from a text with a strftime-style format, taken as UTC.
pub uninterp spec fn naive_date_seconds_of(s: Seq<char>, fmt: Seq<char>) -> Option<i64>;

/// Relies on chrono's `NaiveDateTime::parse_from_str`: the wall-clock time
/// read from `s` with `fmt`, or `None` where the text does not fit the
/// format. It depends on the two texts alone.
#[verifier::external_body]
fn parse_naive_seconds(s: &str, fmt: &str) -> (r: Option<i64>)
    ensures
        r == naive_seconds_of(s@, fmt@),
{
    match chrono::NaiveDateTime::parse_from_str(s, fmt) {
        Ok(n) => Some(n.and_utc().timestamp()),
        Err(_) => None,
    }
}

/// Relies on chrono's `NaiveDate::parse_from_str`: the date read from `s`
/// with `fmt`, or `None` where the text does not fit the format. It depends
/// on the two texts alone.
#[verifier::external_body]
fn parse_naive_date_seconds(s: &str, fmt: &str) -> (r: Option<i64>)
    ensures
        r == naive_date_seconds_of(s@, fmt@),
{
    match chrono::NaiveDate::parse_from_str(s, fmt) {
        Ok(d) => Some(d.and_time(chrono::NaiveTime::MIN).and_utc().timestamp()),
        Err(_) => None,
    }
}

/// Relies on chrono's `TimeZone::from_local_datetime` for `Local`: the UTC
/// instant of a wall-clock time in the machine's time zone, or `None` where
/// that time is skipped or repeated there. It depends on the machine.
#[verifier::external_body]
pub(crate) fn local_to_utc_seconds(naive_seconds: i64) -> (r: Option<i64>) {
    match chrono::DateTime::from_timestamp(naive_seconds, 0) {
        Some(d) => match chrono::TimeZone::from_local_datetime(
            &chrono::Local,
            &d.naive_utc(),
        ).single() {
            Some(l) => Some(l.timestamp()),
            None => None,
        },
        None => None,
    }
}

/// The format of a clipping's date, e.g. `November 24, 2018 11:31:30 AM`.
pub open spec fn clipping_date_format() -> Seq<char> {
    "%B %d, %Y %-I:%M:%S %p"@
}

/// The format of the start-date option, month-day-year.
pub open spec fn start_date_format() -> Seq<char> {
    "%m-%d-%Y"@
}

/// The wall-clock seconds of a clipping's date text.
pub fn clipping_naive_seconds(date_text: &Vec<char>) -> (r: Option<i64>)
    ensures
        r == naive_seconds_of(date_text@, clipping_date_format()),
{
    let s = string_of(date_text);
    parse_naive_seconds(s.as_str(), "%B %d, %Y %-I:%M:%S %p")
}

/// The start-date option (`MM-DD-YYYY`, local midnight) as a UTC instant.
pub fn date_from_str(date_str: &str) -> (r: Result<i64, ConvertError>)
    ensures
        naive_date_seconds_of(date_str@, start_date_format()) is None ==> r == Err::<
            i64,
            ConvertError,
        >(ConvertError::InvalidStartDate),
        r is Err ==> r == Err::<i64, ConvertError>(ConvertError::InvalidStartDate),
{
    match parse_naive_date_seconds(date_str, "%m-%d-%Y") {
        None => Err(ConvertError::InvalidStartDate),
        Some(n) => match local_to_utc_seconds(n) {
            Some(d) => Ok(d),
            None => Err(ConvertError::InvalidStartDate),
        },
    }
}

} // verus!
