use simple_package_tracker::models::{ApiError, ApiErrorResponse, TrackingError};
use simple_package_tracker::response::{
    classify_described, classify_response, rate_limited, status_text, RateLimitHeaders,
};
use simple_package_tracker::tracking::tracking_result;

fn no_headers() -> RateLimitHeaders {
    RateLimitHeaders { limit: None, remaining: None, reset: None, retry_after: None }
}

fn headers(
    limit: Option<&str>,
    remaining: Option<&str>,
    reset: Option<&str>,
    retry_after: Option<&str>,
) -> RateLimitHeaders {
    RateLimitHeaders {
        limit: limit.map(String::from),
        remaining: remaining.map(String::from),
        reset: reset.map(String::from),
        retry_after: retry_after.map(String::from),
    }
}

fn errors(entries: Vec<(&str, Option<&str>)>) -> Option<ApiErrorResponse> {
    Some(ApiErrorResponse {
        errors: entries
            .into_iter()
            .map(|(code, message)| ApiError {
                code: code.to_string(),
                message: message.map(String::from),
            })
            .collect(),
    })
}

fn classify(status: u16, decoded: Option<ApiErrorResponse>) -> Result<String, TrackingError> {
    classify_response(status, &no_headers(), "the body".to_string(), decoded, "AB123")
}

#[test]
fn ok_and_created_hand_the_body_on() {
    assert_eq!(classify(200, None), Ok("the body".to_string()));
    assert_eq!(classify(201, None), Ok("the body".to_string()));
    assert_eq!(classify(200, errors(vec![("parcel_not_found", None)])), Ok("the body".to_string()));
}

#[test]
fn too_many_requests_reads_the_quota_headers() {
    let answer = classify_response(
        429,
        &headers(Some("10"), Some("2"), Some("30"), None),
        String::new(),
        None,
        "AB123",
    );
    assert_eq!(answer, Err(TrackingError::RateLimited(30, 2, 10)));
}

#[test]
fn a_throttled_answer_shows_in_the_result() {
    let answer = classify_response(
        429,
        &headers(Some("10"), Some("2"), Some("30"), None),
        String::new(),
        None,
        "AB123",
    );
    let info = tracking_result("AB123".to_string(), answer.map(|_| Err(String::new())));
    assert!(info.has_error);
    assert_eq!(
        info.error_message,
        Some("Rate limited. Please try again in 30 seconds. Remaining requests: 2/10".to_string())
    );
}

#[test]
fn missing_quota_headers_have_defaults() {
    assert_eq!(rate_limited(&no_headers()), TrackingError::RateLimited(60, 0, 10));
    assert_eq!(classify(429, None), Err(TrackingError::RateLimited(60, 0, 10)));
}

#[test]
fn retry_after_stands_in_for_a_missing_or_unreadable_reset() {
    assert_eq!(
        rate_limited(&headers(None, None, None, Some("7"))),
        TrackingError::RateLimited(7, 0, 10)
    );
    assert_eq!(
        rate_limited(&headers(None, None, Some("soon"), Some("7"))),
        TrackingError::RateLimited(7, 0, 10)
    );
    assert_eq!(
        rate_limited(&headers(None, None, Some("3"), Some("7"))),
        TrackingError::RateLimited(3, 0, 10)
    );
    assert_eq!(
        rate_limited(&headers(None, None, Some("soon"), Some("later"))),
        TrackingError::RateLimited(60, 0, 10)
    );
}

#[test]
fn unreadable_quota_headers_count_as_missing() {
    assert_eq!(
        rate_limited(&headers(Some("ten"), Some("-1"), Some("1.5"), Some(""))),
        TrackingError::RateLimited(60, 0, 10)
    );
    assert_eq!(
        rate_limited(&headers(Some("0"), Some("+5"), Some("0"), None)),
        TrackingError::RateLimited(0, 5, 0)
    );
}

#[test]
fn not_found_with_parcel_not_found_is_no_tracking_data() {
    assert_eq!(
        classify(404, errors(vec![("parcel_not_found", None)])),
        Err(TrackingError::NoTrackingData)
    );
}

#[test]
fn not_found_with_tracker_not_found_is_an_invalid_number() {
    assert_eq!(
        classify(404, errors(vec![("tracker_not_found", Some("no such tracker"))])),
        Err(TrackingError::InvalidTrackingNumber("AB123".to_string()))
    );
}

#[test]
fn not_found_with_anything_else_is_an_invalid_number() {
    let invalid = Err(TrackingError::InvalidTrackingNumber("AB123".to_string()));
    assert_eq!(classify(404, errors(vec![("something_else", Some("text"))])), invalid);
    assert_eq!(classify(404, errors(vec![])), invalid);
    assert_eq!(classify(404, None), invalid);
    assert_eq!(
        classify(404, errors(vec![("tracker_not_found", None), ("parcel_not_found", None)])),
        invalid
    );
}

#[test]
fn client_faults_carry_the_first_message_or_code() {
    for status in [400u16, 401, 403, 409] {
        assert_eq!(
            classify(status, errors(vec![("bad_key", Some("The key is wrong")), ("x", None)])),
            Err(TrackingError::ApiError("The key is wrong".to_string()))
        );
        assert_eq!(
            classify(status, errors(vec![("bad_key", None)])),
            Err(TrackingError::ApiError("bad_key".to_string()))
        );
    }
}

#[test]
fn client_faults_without_a_readable_body_name_the_status() {
    assert_eq!(classify(400, None), Err(TrackingError::ApiError("API error: 400 Bad Request".to_string())));
    assert_eq!(
        classify(401, errors(vec![])),
        Err(TrackingError::ApiError("API error: 401 Unauthorized".to_string()))
    );
    assert_eq!(classify(403, None), Err(TrackingError::ApiError("API error: 403 Forbidden".to_string())));
    assert_eq!(classify(409, None), Err(TrackingError::ApiError("API error: 409 Conflict".to_string())));
}

#[test]
fn server_faults_name_the_status() {
    assert_eq!(
        classify(500, None),
        Err(TrackingError::ServerError("Server error: 500 Internal Server Error".to_string()))
    );
    assert_eq!(
        classify(502, errors(vec![("ignored", Some("ignored"))])),
        Err(TrackingError::ServerError("Server error: 502 Bad Gateway".to_string()))
    );
    assert_eq!(
        classify(503, None),
        Err(TrackingError::ServerError("Server error: 503 Service Unavailable".to_string()))
    );
    assert_eq!(
        classify(504, None),
        Err(TrackingError::ServerError("Server error: 504 Gateway Timeout".to_string()))
    );
}

#[test]
fn any_other_status_is_unexpected() {
    assert_eq!(
        classify(418, None),
        Err(TrackingError::ApiError("Unexpected status code: 418 I'm a teapot".to_string()))
    );
    assert_eq!(
        classify(204, None),
        Err(TrackingError::ApiError("Unexpected status code: 204 No Content".to_string()))
    );
    assert_eq!(
        classify(501, None),
        Err(TrackingError::ApiError("Unexpected status code: 501 Not Implemented".to_string()))
    );
    assert_eq!(
        classify(302, None),
        Err(TrackingError::ApiError("Unexpected status code: 302 Found".to_string()))
    );
}

#[test]
fn a_status_without_a_reason_is_shown_as_unknown() {
    assert_eq!(status_text(299), "299 <unknown status code>");
    assert_eq!(status_text(999), "999 <unknown status code>");
}

#[test]
fn a_number_that_is_no_status_is_shown_by_its_digits() {
    assert_eq!(status_text(0), "0");
    assert_eq!(status_text(99), "99");
    assert_eq!(status_text(1000), "1000");
    assert_eq!(status_text(65535), "65535");
    assert_eq!(
        classify(42, None),
        Err(TrackingError::ApiError("Unexpected status code: 42".to_string()))
    );
}

#[test]
fn status_texts_agree_with_http() {
    for code in 0..=1100u16 {
        let expected = match http::StatusCode::from_u16(code) {
            Ok(status) => status.to_string(),
            Err(_) => code.to_string(),
        };
        assert_eq!(status_text(code), expected);
    }
}

#[test]
fn the_words_for_the_status_are_taken_as_given() {
    assert_eq!(
        classify_described(500, "five hundred", &no_headers(), String::new(), None, "AB123"),
        Err(TrackingError::ServerError("Server error: five hundred".to_string()))
    );
    assert_eq!(
        classify_described(400, "", &no_headers(), String::new(), None, "AB123"),
        Err(TrackingError::ApiError("API error: ".to_string()))
    );
    assert_eq!(
        classify_described(300, "300 Multiple Choices", &no_headers(), String::new(), None, "AB123"),
        Err(TrackingError::ApiError("Unexpected status code: 300 Multiple Choices".to_string()))
    );
    assert_eq!(
        classify_described(201, "ignored", &no_headers(), "kept".to_string(), None, "AB123"),
        Ok("kept".to_string())
    );
}
