//! The data model: the provider's envelope as decoded, the result handed
//! out per tracking number, and the errors a fetch can end in. Each type
//! has a view that holds its text as character sequences.

use vstd::prelude::*;
use crate::milestone::StatusMilestone;
use crate::text::{decimal_digits, decimal_string, join};

verus! {

/// An instant on the UTC time line: whole seconds since the start of 1970
/// and the nanoseconds into that second (a leap second is shown as a
/// nanosecond count of a billion or more).
#[derive(Clone, Copy, Debug, PartialEq, Eq, Structural)]
pub struct Timestamp {
    pub seconds: i64,
    pub nanos: u32,
}

/// The provider's success envelope.
#[derive(Clone, Debug, PartialEq, Eq)]
pub struct ApiResponse {
    pub data: TrackingData,
}

#[derive(Clone, Debug, PartialEq, Eq)]
pub struct TrackingData {
    pub trackings: Vec<Tracking>,
}

/// One tracked parcel as the provider reports it.
#[derive(Clone, Debug, PartialEq, Eq)]
pub struct Tracking {
    pub tracker: Tracker,
    pub shipment: Shipment,
    pub events: Vec<Event>,
}

#[derive(Clone, Debug, PartialEq, Eq)]
pub struct Tracker {
    pub tracking_number: String,
}

#[derive(Clone, Debug, PartialEq, Eq)]
pub struct Shipment {
    pub status_milestone: String,
}

/// An occurrence that a carrier reported: free text if the carrier gave
/// any, the instant, and the milestone tag.
#[derive(Clone, Debug, PartialEq, Eq)]
pub struct Event {
    pub status: Option<String>,
    pub occurrence_datetime: Timestamp,
    pub status_milestone: String,
}

/// One step of the displayed progress: its label, whether the shipment is
/// past it, and the milestone it stands for.
#[derive(Clone, Debug, PartialEq, Eq)]
pub struct Timeline {
    pub short_label: String,
    pub status: bool,
    pub milestone: StatusMilestone,
}

/// What is handed out for one tracking number, whether the fetch
/// succeeded or not.
#[derive(Clone, Debug, PartialEq, Eq)]
pub struct TrackingInfo {
    pub id_ship: String,
    pub label: String,
    pub status: String,
    pub events: Vec<Event>,
    pub timeline: Vec<Timeline>,
    pub url: Option<String>,
    pub has_error: bool,
    pub error_message: Option<String>,
}

/// The provider's error envelope.
#[derive(Clone, Debug, PartialEq, Eq)]
pub struct ApiErrorResponse {
    pub errors: Vec<ApiError>,
}

#[derive(Clone, Debug, PartialEq, Eq)]
pub struct ApiError {
    pub code: String,
    pub message: Option<String>,
}

/// How a fetch can fail.
#[derive(Clone, Debug, PartialEq, Eq)]
pub enum TrackingError {
    /// The provider throttles: seconds until the quota is reset, requests
    /// left, and the quota.
    RateLimited(u64, u64, u64),
    /// The provider reported an error; its message, or its code.
    ApiError(String),
    /// The provider does not know the number, which is carried along.
    InvalidTrackingNumber(String),
    /// The provider knows the number and has nothing on it yet.
    NoTrackingData,
    /// The request did not get through; the words of the cause.
    NetworkError(String),
    /// A body could not be decoded; the words of the decoder.
    ParseError(String),
    /// The provider failed on its side.
    ServerError(String),
}

pub enum TrackingErrorView {
    RateLimited(u64, u64, u64),
    ApiError(Seq<char>),
    InvalidTrackingNumber(Seq<char>),
    NoTrackingData,
    NetworkError(Seq<char>),
    ParseError(Seq<char>),
    ServerError(Seq<char>),
}

impl View for TrackingError {
    type V = TrackingErrorView;

    open spec fn view(&self) -> TrackingErrorView {
        match self {
            TrackingError::RateLimited(reset, remaining, limit) => TrackingErrorView::RateLimited(
                *reset,
                *remaining,
                *limit,
            ),
            TrackingError::ApiError(text) => TrackingErrorView::ApiError(text@),
            TrackingError::InvalidTrackingNumber(number) => TrackingErrorView::InvalidTrackingNumber(
                number@,
            ),
            TrackingError::NoTrackingData => TrackingErrorView::NoTrackingData,
            TrackingError::NetworkError(text) => TrackingErrorView::NetworkError(text@),
            TrackingError::ParseError(text) => TrackingErrorView::ParseError(text@),
            TrackingError::ServerError(text) => TrackingErrorView::ServerError(text@),
        }
    }
}

/// What a throttled caller is told: when to try again and how much of the
/// quota is left.
pub open spec fn rate_limit_notice(reset: u64, remaining: u64, limit: u64) -> Seq<char> {
    "Rate limited. Please try again in "@ + decimal_digits(reset as nat)
        + " seconds. Remaining requests: "@ + decimal_digits(remaining as nat) + "/"@
        + decimal_digits(limit as nat)
}

/// Writes the notice for a throttled caller.
pub fn rate_limit_text(reset: u64, remaining: u64, limit: u64) -> (text: String)
    ensures
        text@ == rate_limit_notice(reset, remaining, limit),
{
    let mut text = join("Rate limited. Please try again in ", decimal_string(reset).as_str());
    text.append(" seconds. Remaining requests: ");
    text.append(decimal_string(remaining).as_str());
    text.append("/");
    text.append(decimal_string(limit).as_str());
    text
}

impl TrackingErrorView {
    /// The error in words.
    pub open spec fn to_text(self) -> Seq<char> {
        match self {
            TrackingErrorView::RateLimited(reset, remaining, limit) => rate_limit_notice(
                reset,
                remaining,
                limit,
            ),
            TrackingErrorView::ApiError(text) => "API error: "@ + text,
            TrackingErrorView::InvalidTrackingNumber(number) => "Invalid tracking number: "@
                + number,
            TrackingErrorView::NoTrackingData => "No tracking data available"@,
            TrackingErrorView::NetworkError(text) => "Network error: "@ + text,
            TrackingErrorView::ParseError(text) => "Parse error: "@ + text,
            TrackingErrorView::ServerError(text) => "Server error: "@ + text,
        }
    }
}

impl TrackingError {
    /// The error in words.
    pub fn to_string(&self) -> (text: String)
        ensures
            text@ == self@.to_text(),
    {
        match self {
            TrackingError::RateLimited(reset, remaining, limit) => rate_limit_text(
                *reset,
                *remaining,
                *limit,
            ),
            TrackingError::ApiError(text) => join("API error: ", text.as_str()),
            TrackingError::InvalidTrackingNumber(number) => join(
                "Invalid tracking number: ",
                number.as_str(),
            ),
            TrackingError::NoTrackingData => String::from_str("No tracking data available"),
            TrackingError::NetworkError(text) => join("Network error: ", text.as_str()),
            TrackingError::ParseError(text) => join("Parse error: ", text.as_str()),
            TrackingError::ServerError(text) => join("Server error: ", text.as_str()),
        }
    }
}

pub struct TrackerView {
    pub tracking_number: Seq<char>,
}

pub struct ShipmentView {
    pub status_milestone: Seq<char>,
}

pub struct EventView {
    pub status: Option<Seq<char>>,
    pub occurrence_datetime: Timestamp,
    pub status_milestone: Seq<char>,
}

pub struct TrackingView {
    pub tracker: TrackerView,
    pub shipment: ShipmentView,
    pub events: Seq<EventView>,
}

pub struct TrackingDataView {
    pub trackings: Seq<TrackingView>,
}

pub struct ApiResponseView {
    pub data: TrackingDataView,
}

pub struct TimelineView {
    pub short_label: Seq<char>,
    pub status: bool,
    pub milestone: StatusMilestone,
}

pub struct TrackingInfoView {
    pub id_ship: Seq<char>,
    pub label: Seq<char>,
    pub status: Seq<char>,
    pub events: Seq<EventView>,
    pub timeline: Seq<TimelineView>,
    pub url: Option<Seq<char>>,
    pub has_error: bool,
    pub error_message: Option<Seq<char>>,
}

pub struct ApiErrorView {
    pub code: Seq<char>,
    pub message: Option<Seq<char>>,
}

pub struct ApiErrorResponseView {
    pub errors: Seq<ApiErrorView>,
}

impl View for Tracker {
    type V = TrackerView;

    open spec fn view(&self) -> TrackerView {
        TrackerView { tracking_number: self.tracking_number@ }
    }
}

impl View for Shipment {
    type V = ShipmentView;

    open spec fn view(&self) -> ShipmentView {
        ShipmentView { status_milestone: self.status_milestone@ }
    }
}

impl View for Event {
    type V = EventView;

    open spec fn view(&self) -> EventView {
        EventView {
            status: self.status.deep_view(),
            occurrence_datetime: self.occurrence_datetime,
            status_milestone: self.status_milestone@,
        }
    }
}

impl DeepView for Event {
    type V = EventView;

    open spec fn deep_view(&self) -> EventView {
        self@
    }
}

impl View for Tracking {
    type V = TrackingView;

    open spec fn view(&self) -> TrackingView {
        TrackingView {
            tracker: self.tracker@,
            shipment: self.shipment@,
            events: self.events.deep_view(),
        }
    }
}

impl DeepView for Tracking {
    type V = TrackingView;

    open spec fn deep_view(&self) -> TrackingView {
        self@
    }
}

impl View for TrackingData {
    type V = TrackingDataView;

    open spec fn view(&self) -> TrackingDataView {
        TrackingDataView { trackings: self.trackings.deep_view() }
    }
}

impl View for ApiResponse {
    type V = ApiResponseView;

    open spec fn view(&self) -> ApiResponseView {
        ApiResponseView { data: self.data@ }
    }
}

impl View for Timeline {
    type V = TimelineView;

    open spec fn view(&self) -> TimelineView {
        TimelineView {
            short_label: self.short_label@,
            status: self.status,
            milestone: self.milestone,
        }
    }
}

impl DeepView for Timeline {
    type V = TimelineView;

    open spec fn deep_view(&self) -> TimelineView {
        self@
    }
}

impl View for TrackingInfo {
    type V = TrackingInfoView;

    open spec fn view(&self) -> TrackingInfoView {
        TrackingInfoView {
            id_ship: self.id_ship@,
            label: self.label@,
            status: self.status@,
            events: self.events.deep_view(),
            timeline: self.timeline.deep_view(),
            url: self.url.deep_view(),
            has_error: self.has_error,
            error_message: self.error_message.deep_view(),
        }
    }
}

impl DeepView for TrackingInfo {
    type V = TrackingInfoView;

    open spec fn deep_view(&self) -> TrackingInfoView {
        self@
    }
}

impl View for ApiError {
    type V = ApiErrorView;

    open spec fn view(&self) -> ApiErrorView {
        ApiErrorView { code: self.code@, message: self.message.deep_view() }
    }
}

impl DeepView for ApiError {
    type V = ApiErrorView;

    open spec fn deep_view(&self) -> ApiErrorView {
        self@
    }
}

impl View for ApiErrorResponse {
    type V = ApiErrorResponseView;

    open spec fn view(&self) -> ApiErrorResponseView {
        ApiErrorResponseView { errors: self.errors.deep_view() }
    }
}

impl DeepView for ApiErrorResponse {
    type V = ApiErrorResponseView;

    open spec fn deep_view(&self) -> ApiErrorResponseView {
        self@
    }
}

} // verus!
