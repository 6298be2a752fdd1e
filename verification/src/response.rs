//! Classifying what the provider answered.
//!
//! One request gives a status code, a few headers and a body. The status
//! decides: the body is handed on, or the answer becomes a typed error.
//! Nothing is retried here.

use vstd::prelude::*;
use crate::models::{
    ApiError,
    ApiErrorResponse,
    ApiErrorResponseView,
    ApiErrorView,
    TrackingError,
    TrackingErrorView,
};
use crate::text::{decimal_digits, decimal_string, decimal_value, join, parse_decimal, str_eq};

verus! {

/// The headers that tell of the provider's quota, each as it was received
/// if it was received: `RateLimit-Limit`, `RateLimit-Remaining`,
/// `RateLimit-Reset` and `Retry-After`.
#[derive(Clone, Debug, PartialEq, Eq)]
pub struct RateLimitHeaders {
    pub limit: Option<String>,
    pub remaining: Option<String>,
    pub reset: Option<String>,
    pub retry_after: Option<String>,
}

pub struct RateLimitHeadersView {
    pub limit: Option<Seq<char>>,
    pub remaining: Option<Seq<char>>,
    pub reset: Option<Seq<char>>,
    pub retry_after: Option<Seq<char>>,
}

impl View for RateLimitHeaders {
    type V = RateLimitHeadersView;

    open spec fn view(&self) -> RateLimitHeadersView {
        RateLimitHeadersView {
            limit: self.limit.deep_view(),
            remaining: self.remaining.deep_view(),
            reset: self.reset.deep_view(),
            retry_after: self.retry_after.deep_view(),
        }
    }
}

/// The words in which `http` shows a status code: the number and the
/// reason phrase that goes with it. Nothing for a number that is no
/// status code.
pub uninterp spec fn status_display(code: u16) -> Option<Seq<char>>;

/// `http::StatusCode::from_u16`, and for the status it gives `to_string()`,
/// which goes through the `Display` of `StatusCode`. The contract claims
/// only that the outcome is a function of the code.
#[verifier::external_body]
fn status_line(code: u16) -> (line: Option<String>)
    ensures
        line.deep_view() == status_display(code),
{
    match http::StatusCode::from_u16(code) {
        Ok(status) => Some(status.to_string()),
        Err(_) => None,
    }
}

/// How a status is named in a message: as `http` shows it, or by its
/// digits alone where it is no status code.
pub open spec fn status_words(code: u16) -> Seq<char> {
    match status_display(code) {
        Some(line) => line,
        None => decimal_digits(code as nat),
    }
}

/// Names a status for a message.
pub fn status_text(code: u16) -> (text: String)
    ensures
        text@ == status_words(code),
{
    match status_line(code) {
        Some(line) => line,
        None => decimal_string(code as u64),
    }
}

/// The number that a header gives: none where the header is missing or
/// is no decimal number.
pub open spec fn header_number(value: Option<Seq<char>>) -> Option<u64> {
    match value {
        Some(text) => decimal_value(text),
        None => None,
    }
}

/// The error that a throttling answer becomes. The time to wait comes
/// from `RateLimit-Reset`, else from `Retry-After`, else it is 60 seconds;
/// a missing remainder is 0 and a missing quota 10.
pub open spec fn throttled(headers: RateLimitHeadersView) -> TrackingErrorView {
    let reset = match header_number(headers.reset) {
        Some(n) => Some(n),
        None => header_number(headers.retry_after),
    };
    TrackingErrorView::RateLimited(
        match reset {
            Some(n) => n,
            None => 60,
        },
        match header_number(headers.remaining) {
            Some(n) => n,
            None => 0,
        },
        match header_number(headers.limit) {
            Some(n) => n,
            None => 10,
        },
    )
}

/// The first entry of an error body, if the body decoded and has one.
pub open spec fn first_error(errors: Option<ApiErrorResponseView>) -> Option<ApiErrorView> {
    match errors {
        Some(envelope) => if envelope.errors.len() > 0 {
            Some(envelope.errors[0])
        } else {
            None
        },
        None => None,
    }
}

/// What an error entry says: its message, or its code where it has none.
pub open spec fn error_words(entry: ApiErrorView) -> Seq<char> {
    match entry.message {
        Some(message) => message,
        None => entry.code,
    }
}

/// The statuses whose body names the error.
pub open spec fn is_client_fault(status: u16) -> bool {
    status == 400 || status == 401 || status == 403 || status == 409
}

/// The statuses that say the provider failed.
pub open spec fn is_server_fault(status: u16) -> bool {
    status == 500 || status == 502 || status == 503 || status == 504
}

/// What an answer is, by its status: `words` names the status wherever a
/// message names it.
pub open spec fn classified(
    status: u16,
    words: Seq<char>,
    headers: RateLimitHeadersView,
    body: Seq<char>,
    errors: Option<ApiErrorResponseView>,
    tracking_number: Seq<char>,
) -> Result<Seq<char>, TrackingErrorView> {
    if status == 200 || status == 201 {
        Ok(body)
    } else if status == 429 {
        Err(throttled(headers))
    } else if status == 404 {
        match first_error(errors) {
            Some(entry) => if entry.code == "parcel_not_found"@ {
                Err(TrackingErrorView::NoTrackingData)
            } else {
                Err(TrackingErrorView::InvalidTrackingNumber(tracking_number))
            },
            None => Err(TrackingErrorView::InvalidTrackingNumber(tracking_number)),
        }
    } else if is_client_fault(status) {
        match first_error(errors) {
            Some(entry) => Err(TrackingErrorView::ApiError(error_words(entry))),
            None => Err(TrackingErrorView::ApiError("API error: "@ + words)),
        }
    } else if is_server_fault(status) {
        Err(TrackingErrorView::ServerError("Server error: "@ + words))
    } else {
        Err(TrackingErrorView::ApiError("Unexpected status code: "@ + words))
    }
}

/// A classified answer with its text as character sequences.
pub open spec fn answer_view(answer: Result<String, TrackingError>) -> Result<
    Seq<char>,
    TrackingErrorView,
> {
    match answer {
        Ok(body) => Ok(body@),
        Err(e) => Err(e@),
    }
}

fn read_header(value: &Option<String>) -> (number: Option<u64>)
    ensures
        number == header_number(value.deep_view()),
{
    match value {
        Some(text) => parse_decimal(text.as_str()),
        None => None,
    }
}

/// The error that a throttling answer becomes.
pub fn rate_limited(headers: &RateLimitHeaders) -> (e: TrackingError)
    ensures
        e@ == throttled(headers@),
{
    let reset = match read_header(&headers.reset) {
        Some(n) => Some(n),
        None => read_header(&headers.retry_after),
    };
    TrackingError::RateLimited(
        match reset {
            Some(n) => n,
            None => 60,
        },
        match read_header(&headers.remaining) {
            Some(n) => n,
            None => 0,
        },
        match read_header(&headers.limit) {
            Some(n) => n,
            None => 10,
        },
    )
}

fn first_entry(errors: &Option<ApiErrorResponse>) -> (entry: Option<&ApiError>)
    ensures
        entry.deep_view() == first_error(errors.deep_view()),
{
    match errors {
        Some(envelope) => if envelope.errors.len() > 0 {
            Some(&envelope.errors[0])
        } else {
            None
        },
        None => None,
    }
}

fn words_of(entry: &ApiError) -> (words: String)
    ensures
        words@ == error_words(entry@),
{
    match &entry.message {
        Some(message) => message.clone(),
        None => entry.code.clone(),
    }
}

/// Classifies an answer whose status is named by `words`.
///
/// `errors` is the body decoded as an error envelope, or nothing where it
/// is none; it is looked at only for the statuses whose body names the
/// error.
pub fn classify_described(
    status: u16,
    words: &str,
    headers: &RateLimitHeaders,
    body: String,
    errors: Option<ApiErrorResponse>,
    tracking_number: &str,
) -> (answer: Result<String, TrackingError>)
    ensures
        answer_view(answer) == classified(
            status,
            words@,
            headers@,
            body@,
            errors.deep_view(),
            tracking_number@,
        ),
{
    if status == 200 || status == 201 {
        Ok(body)
    } else if status == 429 {
        Err(rate_limited(headers))
    } else if status == 404 {
        match first_entry(&errors) {
            Some(entry) => if str_eq(entry.code.as_str(), "parcel_not_found") {
                Err(TrackingError::NoTrackingData)
            } else {
                Err(TrackingError::InvalidTrackingNumber(String::from_str(tracking_number)))
            },
            None => Err(TrackingError::InvalidTrackingNumber(String::from_str(tracking_number))),
        }
    } else if status == 400 || status == 401 || status == 403 || status == 409 {
        match first_entry(&errors) {
            Some(entry) => Err(TrackingError::ApiError(words_of(entry))),
            None => Err(TrackingError::ApiError(join("API error: ", words))),
        }
    } else if status == 500 || status == 502 || status == 503 || status == 504 {
        Err(TrackingError::ServerError(join("Server error: ", words)))
    } else {
        Err(TrackingError::ApiError(join("Unexpected status code: ", words)))
    }
}

/// Classifies an answer: a status of 200 or 201 hands the body on, every
/// other status becomes the error that stands for it.
pub fn classify_response(
    status: u16,
    headers: &RateLimitHeaders,
    body: String,
    errors: Option<ApiErrorResponse>,
    tracking_number: &str,
) -> (answer: Result<String, TrackingError>)
    ensures
        answer_view(answer) == classified(
            status,
            status_words(status),
            headers@,
            body@,
            errors.deep_view(),
            tracking_number@,
        ),
{
    let words = status_text(status);
    classify_described(status, words.as_str(), headers, body, errors, tracking_number)
}

} // verus!
