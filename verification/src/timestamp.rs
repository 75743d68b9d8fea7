//! Timestamps of several shapes brought to one: RFC 3339 in UTC.

use vstd::prelude::*;
use vstd::string::StringExecFns;
use crate::json::{owned, Json, JsonNumber};
use crate::text::{all_digits, digits_value, parse_digits, trim, trimmed};

verus! {

/// From this magnitude on an epoch counts milliseconds, below it seconds.
pub const MILLIS_FROM: i64 = 1_000_000_000_000;

/// The RFC 3339 text in UTC of the instant that the RFC 3339 text `text`
/// names, as chrono parses and writes it; `None` where chrono rejects `text`.
pub uninterp spec fn utc_of_rfc3339(text: Seq<char>) -> Option<Seq<char>>;

/// The RFC 3339 text in UTC of the instant `seconds` seconds after the Unix
/// epoch, as chrono writes it; `None` where chrono cannot represent it.
pub uninterp spec fn utc_of_seconds(seconds: i64) -> Option<Seq<char>>;

/// The RFC 3339 text in UTC of the instant `millis` milliseconds after the
/// Unix epoch, as chrono writes it; `None` where chrono cannot represent it.
pub uninterp spec fn utc_of_millis(millis: i64) -> Option<Seq<char>>;

/// The characters of an optional string.
pub open spec fn chars_of(text: Option<String>) -> Option<Seq<char>> {
    match text {
        Some(s) => Some(s@),
        None => None,
    }
}

/// `chrono::DateTime::parse_from_rfc3339`, then `with_timezone(&Utc)` and
/// `to_rfc3339` on what it parsed. The contract only names the result.
#[verifier::external_body]
fn rfc3339_to_utc(text: &str) -> (utc: Option<String>)
    ensures
        chars_of(utc) == utc_of_rfc3339(text@),
{
    match chrono::DateTime::parse_from_rfc3339(text) {
        Ok(instant) => Some(instant.with_timezone(&chrono::Utc).to_rfc3339()),
        Err(_) => None,
    }
}

/// `Utc.timestamp_opt(seconds, 0)`, its single result written by
/// `to_rfc3339`. The contract only names the result.
#[verifier::external_body]
fn seconds_to_utc(seconds: i64) -> (utc: Option<String>)
    ensures
        chars_of(utc) == utc_of_seconds(seconds),
{
    chrono::TimeZone::timestamp_opt(&chrono::Utc, seconds, 0).single().map(|t| t.to_rfc3339())
}

/// `Utc.timestamp_millis_opt(millis)`, its single result written by
/// `to_rfc3339`. The contract only names the result.
#[verifier::external_body]
fn millis_to_utc(millis: i64) -> (utc: Option<String>)
    ensures
        chars_of(utc) == utc_of_millis(millis),
{
    chrono::TimeZone::timestamp_millis_opt(&chrono::Utc, millis).single().map(|t| t.to_rfc3339())
}

/// The timestamp of an epoch: read as milliseconds where its magnitude is at
/// least 10^12, as seconds below that.
pub open spec fn epoch_timestamp(epoch: i64) -> Option<Seq<char>> {
    if epoch >= MILLIS_FROM || epoch <= -MILLIS_FROM {
        utc_of_millis(epoch)
    } else {
        utc_of_seconds(epoch)
    }
}

/// The first of two readings that is there, or `text` itself where neither
/// is.
pub open spec fn first_reading(
    parsed: Option<Seq<char>>,
    epoch: Option<Seq<char>>,
    text: Seq<char>,
) -> Seq<char> {
    match parsed {
        Some(t) => t,
        None => match epoch {
            Some(t) => t,
            None => text,
        },
    }
}

/// The reading of `text` as an epoch: that of the number it writes, where it
/// is a string of digits within `i64`.
pub open spec fn digits_timestamp(text: Seq<char>) -> Option<Seq<char>> {
    if text.len() > 0 && all_digits(text) && digits_value(text) <= i64::MAX {
        epoch_timestamp(digits_value(text) as i64)
    } else {
        None
    }
}

/// The timestamp of trimmed, non-empty text: its RFC 3339 reading; else its
/// reading as an epoch; else the text itself.
pub open spec fn text_timestamp(text: Seq<char>) -> Seq<char> {
    first_reading(utc_of_rfc3339(text), digits_timestamp(text), text)
}

/// The canonical timestamp of a JSON value: of a string, the timestamp of its
/// trimmed text unless that is empty; of an integer within `i64`, its reading
/// as an epoch; nothing for anything else.
pub open spec fn normalized_timestamp(value: Option<Json>) -> Option<Seq<char>> {
    match value {
        Some(Json::Text(s)) => if trimmed(s@).len() == 0 {
            None
        } else {
            Some(text_timestamp(trimmed(s@)))
        },
        Some(Json::Number(JsonNumber::Unsigned(u))) => if u <= i64::MAX {
            epoch_timestamp(u as i64)
        } else {
            None
        },
        Some(Json::Number(JsonNumber::Negative(i))) => epoch_timestamp(i),
        _ => None,
    }
}

/// The canonical timestamp of `value`, or `fallback` where it has none.
pub open spec fn timestamp_or(value: Option<Json>, fallback: Seq<char>) -> Seq<char> {
    match normalized_timestamp(value) {
        Some(t) => t,
        None => fallback,
    }
}

/// Writes an epoch, in seconds or in milliseconds by its magnitude, as
/// RFC 3339 in UTC.
pub fn normalize_epoch(epoch: i64) -> (utc: Option<String>)
    ensures
        chars_of(utc) == epoch_timestamp(epoch),
{
    if epoch >= MILLIS_FROM || epoch <= -MILLIS_FROM {
        millis_to_utc(epoch)
    } else {
        seconds_to_utc(epoch)
    }
}

/// Picks the timestamp of a text from its readings: the RFC 3339 reading,
/// else the epoch reading, else the text itself.
pub fn pick_reading(parsed: Option<String>, epoch: Option<String>, text: &str) -> (utc: String)
    ensures
        utc@ == first_reading(chars_of(parsed), chars_of(epoch), text@),
{
    match parsed {
        Some(utc) => utc,
        None => match epoch {
            Some(utc) => utc,
            None => String::from_str(text),
        },
    }
}

/// Brings a timestamp held in a JSON value to RFC 3339 in UTC.
pub fn normalize_timestamp(value: Option<&Json>) -> (utc: Option<String>)
    ensures
        chars_of(utc) == normalized_timestamp(owned(value)),
{
    match value {
        Some(Json::Text(s)) => {
            let text = trim(s.as_str());
            if text.unicode_len() == 0 {
                return None;
            }
            let parsed = rfc3339_to_utc(text);
            let epoch = match parse_digits(text, i64::MAX as u64) {
                Some(epoch) => normalize_epoch(epoch as i64),
                None => None,
            };
            Some(pick_reading(parsed, epoch, text))
        },
        Some(Json::Number(JsonNumber::Unsigned(u))) => {
            if *u <= i64::MAX as u64 {
                normalize_epoch(*u as i64)
            } else {
                None
            }
        },
        Some(Json::Number(JsonNumber::Negative(i))) => normalize_epoch(*i),
        _ => None,
    }
}

/// The canonical timestamp of `value`, or `fallback` where it has none.
pub fn timestamp_or_fallback(value: Option<&Json>, fallback: &str) -> (utc: String)
    ensures
        utc@ == timestamp_or(owned(value), fallback@),
{
    match normalize_timestamp(value) {
        Some(utc) => utc,
        None => String::from_str(fallback),
    }
}

} // verus!
