//! What is asked of the provider for one tracking number.
//!
//! The request is described, not sent: where it goes, the headers it
//! carries, and what its JSON body holds. A request that is planned has
//! passed the limiter: its description comes with the time to let pass
//! before it is sent.

use vstd::prelude::*;
use crate::rate_limiter::{grant_instant, RateLimiter};
use crate::text::join;

verus! {

/// The provider's API, to which the path of an endpoint is added.
pub const BASE_URL: &'static str = "https://api.ship24.com/public/v1";

/// One `POST` that asks the provider to track a number. The body is the
/// JSON object `{"trackingNumber": .., "settings":
/// {"restrictTrackingToCourierCode": ..}}`.
#[derive(Clone, Debug, PartialEq, Eq)]
pub struct TrackingRequest {
    pub url: String,
    /// The value of the `Authorization` header.
    pub authorization: String,
    /// The value of the `Content-Type` header.
    pub content_type: String,
    pub tracking_number: String,
    pub restrict_tracking_to_courier_code: bool,
}

pub struct TrackingRequestView {
    pub url: Seq<char>,
    pub authorization: Seq<char>,
    pub content_type: Seq<char>,
    pub tracking_number: Seq<char>,
    pub restrict_tracking_to_courier_code: bool,
}

impl View for TrackingRequest {
    type V = TrackingRequestView;

    open spec fn view(&self) -> TrackingRequestView {
        TrackingRequestView {
            url: self.url@,
            authorization: self.authorization@,
            content_type: self.content_type@,
            tracking_number: self.tracking_number@,
            restrict_tracking_to_courier_code: self.restrict_tracking_to_courier_code,
        }
    }
}

/// The request for a number: to the tracking endpoint under `base_url`,
/// with the key as bearer token, the number as it is, and the courier not
/// restricted.
pub open spec fn spec_tracking_request(
    base_url: Seq<char>,
    api_key: Seq<char>,
    tracking_number: Seq<char>,
) -> TrackingRequestView {
    TrackingRequestView {
        url: base_url + "/trackers/track"@,
        authorization: "Bearer "@ + api_key,
        content_type: "application/json"@,
        tracking_number: tracking_number,
        restrict_tracking_to_courier_code: false,
    }
}

/// Describes the request for a number.
pub fn tracking_request(base_url: &str, api_key: &str, tracking_number: &str) -> (request:
    TrackingRequest)
    ensures
        request@ == spec_tracking_request(base_url@, api_key@, tracking_number@),
{
    TrackingRequest {
        url: join(base_url, "/trackers/track"),
        authorization: join("Bearer ", api_key),
        content_type: String::from_str("application/json"),
        tracking_number: String::from_str(tracking_number),
        restrict_tracking_to_courier_code: false,
    }
}

/// A request that the limiter has let through: it is to be sent once
/// `delay_millis` milliseconds have passed.
#[derive(Clone, Debug, PartialEq, Eq)]
pub struct PlannedFetch {
    pub delay_millis: u64,
    pub request: TrackingRequest,
}

/// Plans the fetch of a number by a caller whose clock reads `now`: takes
/// the next grant of the limiter and describes the request. No request is
/// described here without a grant taken for it.
pub fn plan_fetch(
    limiter: &mut RateLimiter,
    now: u64,
    base_url: &str,
    api_key: &str,
    tracking_number: &str,
) -> (planned: PlannedFetch)
    ensures
        final(limiter).interval() == old(limiter).interval(),
        final(limiter).last_grant() == grant_instant(
            old(limiter).last_grant(),
            old(limiter).interval(),
            now,
        ),
        now + planned.delay_millis == final(limiter).last_grant(),
        planned.request@ == spec_tracking_request(base_url@, api_key@, tracking_number@),
{
    let delay_millis = limiter.wait_for_next_request(now);
    PlannedFetch { delay_millis, request: tracking_request(base_url, api_key, tracking_number) }
}

} // verus!
