//! Calendar text of instants, written and read by `chrono`.
//!
//! Nothing in this module is proved: each function hands its argument to
//! `chrono` and states what comes back.

use crate::types::{MAX_MILLIS, MIN_MILLIS};
use vstd::prelude::*;

verus! {

#[verifier::external_type_specification]
#[verifier::external_body]
pub struct ExParseError(chrono::ParseError);

/// The text that `chrono::DateTime::<Utc>::to_rfc3339_opts` gives, with
/// whole seconds and `Z` for the offset, for the instant that lies `millis`
/// milliseconds after the Unix epoch.
pub uninterp spec fn rfc3339_seconds_text(millis: int) -> Seq<char>;

/// The text that `chrono::NaiveDateTime::format` gives under the pattern
/// `%Y-%m-%dT%H:%M:%S` for the instant that lies `millis` milliseconds after
/// the Unix epoch, read in UTC.
pub uninterp spec fn naive_seconds_text(millis: int) -> Seq<char>;

/// What `chrono::NaiveDateTime::from_str` reads from a text: the
/// milliseconds between the Unix epoch and the date and time, taken as UTC,
/// or `None` where it refuses the text.
pub uninterp spec fn naive_datetime_millis(text: Seq<char>) -> Option<int>;

/// Calls `chrono::DateTime::<Utc>::to_rfc3339_opts(SecondsFormat::Secs, true)`
/// on the instant made by `chrono::DateTime::from_timestamp_millis`.
///
/// Claimed and not proved: the result is the text named
/// [`rfc3339_seconds_text`]; it ends in `Z`, the offset that `chrono` writes
/// for UTC when asked for it; it holds no underscore, being made of digits,
/// `-`, `T`, `:` and the `Z`; and what stands before the `Z` is read by
/// `chrono::NaiveDateTime::from_str` as the second in which the instant
/// lies. Within the range required, `from_timestamp_millis` returns an
/// instant and the year is written with four digits.
#[verifier::external_body]
pub(crate) fn rfc3339_seconds(millis: i64) -> (text: String)
    requires
        MIN_MILLIS <= millis <= MAX_MILLIS,
    ensures
        text@ == rfc3339_seconds_text(millis as int),
        text@.len() > 0,
        text@.last() == 'Z',
        !text@.contains('_'),
        naive_datetime_millis(text@.drop_last()) == Some(millis - millis % 1000),
{
    match chrono::DateTime::from_timestamp_millis(millis) {
        Some(time) => time.to_rfc3339_opts(chrono::SecondsFormat::Secs, true),
        None => String::new(),
    }
}

/// Calls `chrono::NaiveDateTime::format` with the pattern
/// `%Y-%m-%dT%H:%M:%S` on the UTC date and time of the instant made by
/// `chrono::DateTime::from_timestamp_millis`.
///
/// Claimed and not proved: the result is the text named
/// [`naive_seconds_text`]. Within the range required,
/// `from_timestamp_millis` returns an instant.
#[verifier::external_body]
pub(crate) fn naive_seconds(millis: i64) -> (text: String)
    requires
        MIN_MILLIS <= millis <= MAX_MILLIS,
    ensures
        text@ == naive_seconds_text(millis as int),
{
    match chrono::DateTime::from_timestamp_millis(millis) {
        Some(time) => time.naive_utc().format("%Y-%m-%dT%H:%M:%S").to_string(),
        None => String::new(),
    }
}

/// Calls `chrono::NaiveDateTime::from_str` and, where it reads a date and
/// time, `chrono::NaiveDateTime::and_utc` and
/// `chrono::DateTime::timestamp_millis`.
///
/// Claimed and not proved: the outcome is the one named
/// [`naive_datetime_millis`], `Err` standing for `None`.
#[verifier::external_body]
pub(crate) fn parse_naive_datetime(text: &str) -> (r: Result<i64, chrono::ParseError>)
    ensures
        naive_datetime_millis(text@) == match r {
            Ok(millis) => Some(millis as int),
            Err(_) => None,
        },
{
    match text.parse::<chrono::NaiveDateTime>() {
        Ok(time) => Ok(time.and_utc().timestamp_millis()),
        Err(error) => Err(error),
    }
}

} // verus!
