//! Reading the instant at which an event occurred.
//!
//! A carrier writes the instant either as an RFC 3339 date and time or
//! without a zone, as `YYYY-MM-DDTHH:MM:SS`, which is then taken as UTC.
//! The calendar work is `chrono`'s; what is decided here is which reading
//! is tried, in what order, and what a failure says.

use vstd::prelude::*;
use crate::models::Timestamp;
use crate::text::join;

verus! {

/// What `chrono` reads in a text taken as an RFC 3339 date and time: the
/// instant as seconds and nanoseconds, or nothing where the text is no
/// such date and time.
pub uninterp spec fn rfc3339_reading(text: Seq<char>) -> Option<(i64, u32)>;

/// What `chrono` reads in a text under a format that names no zone: the
/// instant that the date and time are in UTC, as seconds and nanoseconds,
/// or the words of its refusal.
pub uninterp spec fn naive_reading(text: Seq<char>, format: Seq<char>) -> Result<
    (i64, u32),
    Seq<char>,
>;

/// `chrono::DateTime::parse_from_rfc3339`, the instant handed out as
/// `timestamp()` and `timestamp_subsec_nanos()` give it. The contract
/// claims only that the outcome is a function of the text.
#[verifier::external_body]
fn read_rfc3339(text: &str) -> (at: Option<(i64, u32)>)
    ensures
        at == rfc3339_reading(text@),
{
    match chrono::DateTime::parse_from_rfc3339(text) {
        Ok(at) => Some((at.timestamp(), at.timestamp_subsec_nanos())),
        Err(_) => None,
    }
}

/// `chrono::NaiveDateTime::parse_from_str`, the date and time taken as UTC
/// by `and_utc()` and handed out as `timestamp()` and
/// `timestamp_subsec_nanos()` give it; a refusal is handed out in the
/// words of its `Display`. The contract claims only that the outcome is a
/// function of the text and the format.
#[verifier::external_body]
fn read_naive(text: &str, format: &str) -> (at: Result<(i64, u32), String>)
    ensures
        at is Ok ==> naive_reading(text@, format@) == Ok::<(i64, u32), Seq<char>>(at->Ok_0),
        at is Err ==> naive_reading(text@, format@) == Err::<(i64, u32), Seq<char>>(at->Err_0@),
{
    match chrono::NaiveDateTime::parse_from_str(text, format) {
        Ok(at) => Ok((at.and_utc().timestamp(), at.and_utc().timestamp_subsec_nanos())),
        Err(why) => Err(why.to_string()),
    }
}

/// A reading with its words of refusal as a character sequence.
pub open spec fn reading_view(r: Result<Timestamp, String>) -> Result<Timestamp, Seq<char>> {
    match r {
        Ok(at) => Ok(at),
        Err(why) => Err(why@),
    }
}

/// The instant that is so many seconds and nanoseconds.
pub open spec fn instant(at: (i64, u32)) -> Timestamp {
    Timestamp { seconds: at.0, nanos: at.1 }
}

/// What the second reading settles: its instant, or the failure that is
/// reported for the field.
pub open spec fn spec_fallback_datetime(second: Result<(i64, u32), Seq<char>>) -> Result<
    Timestamp,
    Seq<char>,
> {
    match second {
        Ok(at) => Ok(instant(at)),
        Err(why) => Err("Failed to parse datetime: "@ + why),
    }
}

/// The instant that a carrier's text gives: the RFC 3339 reading where
/// there is one, else what the zoneless reading settles.
pub open spec fn spec_deserialize_datetime(text: Seq<char>) -> Result<Timestamp, Seq<char>> {
    match rfc3339_reading(text) {
        Some(at) => Ok(instant(at)),
        None => spec_fallback_datetime(naive_reading(text, "%Y-%m-%dT%H:%M:%S"@)),
    }
}

/// The outcome of the zoneless reading with its words as a character
/// sequence.
pub open spec fn second_view(second: Result<(i64, u32), String>) -> Result<(i64, u32), Seq<char>> {
    match second {
        Ok(at) => Ok(at),
        Err(why) => Err(why@),
    }
}

/// Settles the outcome of the zoneless reading, tried after the RFC 3339
/// reading gave nothing.
pub fn fallback_datetime(second: Result<(i64, u32), String>) -> (at: Result<Timestamp, String>)
    ensures
        reading_view(at) == spec_fallback_datetime(second_view(second)),
{
    match second {
        Ok(at) => Ok(Timestamp { seconds: at.0, nanos: at.1 }),
        Err(why) => Err(join("Failed to parse datetime: ", why.as_str())),
    }
}

/// Reads the instant of an event from the carrier's text.
pub fn deserialize_datetime(text: &str) -> (at: Result<Timestamp, String>)
    ensures
        reading_view(at) == spec_deserialize_datetime(text@),
{
    match read_rfc3339(text) {
        Some(at) => Ok(Timestamp { seconds: at.0, nanos: at.1 }),
        None => fallback_datetime(read_naive(text, "%Y-%m-%dT%H:%M:%S")),
    }
}

} // verus!
