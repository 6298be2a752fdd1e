use simple_package_tracker::milestone::StatusMilestone;
use simple_package_tracker::models::{
    ApiResponse, Event, Shipment, Timeline, Timestamp, Tracker, Tracking, TrackingData,
    TrackingError, TrackingInfo,
};
use simple_package_tracker::timeline::{
    build_timeline, dedup_steps, derive_steps, label_of, mark_completed, sort_steps,
};
use simple_package_tracker::tracking::{
    failure_info, failure_message, find_highest_milestone, label_of_first, parse_tracking_info,
    tracking_result,
};

fn event(status: Option<&str>, seconds: i64, tag: &str) -> Event {
    Event {
        status: status.map(String::from),
        occurrence_datetime: Timestamp { seconds, nanos: 0 },
        status_milestone: tag.to_string(),
    }
}

fn envelope(number: &str, shipment_tag: &str, events: Vec<Event>) -> ApiResponse {
    ApiResponse {
        data: TrackingData {
            trackings: vec![Tracking {
                tracker: Tracker { tracking_number: number.to_string() },
                shipment: Shipment { status_milestone: shipment_tag.to_string() },
                events,
            }],
        },
    }
}

fn step(label: &str, status: bool, milestone: StatusMilestone) -> Timeline {
    Timeline { short_label: label.to_string(), status, milestone }
}

fn failure(id: &str, label: &str, status: &str, message: &str) -> TrackingInfo {
    TrackingInfo {
        id_ship: id.to_string(),
        label: label.to_string(),
        status: status.to_string(),
        events: Vec::new(),
        timeline: Vec::new(),
        url: None,
        has_error: true,
        error_message: Some(message.to_string()),
    }
}

#[test]
fn an_envelope_without_trackings_gives_nothing() {
    let decoded = Ok(ApiResponse { data: TrackingData { trackings: Vec::new() } });
    assert_eq!(parse_tracking_info(decoded), None);
}

#[test]
fn a_tracking_without_events_gives_no_data() {
    let info = parse_tracking_info(Ok(envelope("AB123", "in_transit", Vec::new()))).unwrap();
    assert!(info.has_error);
    assert_eq!(info.error_message, Some("No tracking data available".to_string()));
    assert_eq!(
        info,
        failure("AB123", "No tracking data available", "Unknown", "No tracking data available")
    );
}

#[test]
fn two_events_of_one_milestone_leave_one_step() {
    let events = vec![
        event(Some("Left the sorting centre"), 100, "in_transit"),
        event(None, 200, "in_transit"),
    ];
    let info = parse_tracking_info(Ok(envelope("AB123", "in_transit", events))).unwrap();
    assert_eq!(
        info.timeline,
        vec![step("Left the sorting centre", false, StatusMilestone::InTransit)]
    );
}

#[test]
fn the_first_of_two_events_gives_the_label_even_without_text() {
    let events = vec![
        event(None, 100, "in_transit"),
        event(Some("Left the sorting centre"), 200, "in_transit"),
    ];
    let info = parse_tracking_info(Ok(envelope("AB123", "in_transit", events))).unwrap();
    assert_eq!(info.timeline, vec![step("Package is in transit", false, StatusMilestone::InTransit)]);
    assert_eq!(info.label, "Package is in transit");
}

#[test]
fn a_body_that_did_not_decode_gives_a_failure_with_the_decoder_s_words() {
    let info = parse_tracking_info(Err("expected value at line 1 column 1".to_string())).unwrap();
    assert_eq!(info, failure("", "", "", "expected value at line 1 column 1"));
}

#[test]
fn a_full_body_gives_the_whole_result() {
    let events = vec![
        event(Some("Out with the courier"), 400, "out_for_delivery"),
        event(Some("Label created"), 100, "info_received"),
        event(None, 300, "in_transit"),
        event(Some("Arrived at hub"), 200, "in_transit"),
        event(Some("Handed over"), 500, "delivered"),
        event(Some("Something else"), 50, "customs_hold"),
    ];
    let info = parse_tracking_info(Ok(envelope("AB123", "delivered", events.clone()))).unwrap();
    assert_eq!(
        info,
        TrackingInfo {
            id_ship: "AB123".to_string(),
            label: "Handed over".to_string(),
            status: "Delivered".to_string(),
            events,
            timeline: vec![
                step("Something else", true, StatusMilestone::Pending),
                step("Label created", true, StatusMilestone::InfoReceived),
                step("Package is in transit", true, StatusMilestone::InTransit),
                step("Out with the courier", true, StatusMilestone::OutForDelivery),
                step("Handed over", true, StatusMilestone::Delivered),
            ],
            url: Some("https://www.ship24.com/tracking?p=AB123".to_string()),
            has_error: false,
            error_message: None,
        }
    );
}

#[test]
fn the_label_follows_the_events_and_the_flags_follow_the_shipment() {
    let events = vec![
        event(Some("Label created"), 100, "info_received"),
        event(Some("Out with the courier"), 400, "out_for_delivery"),
        event(Some("On the road"), 300, "in_transit"),
    ];
    let info = parse_tracking_info(Ok(envelope("AB123", "in_transit", events))).unwrap();
    assert_eq!(info.label, "Out with the courier");
    assert_eq!(info.status, "Out for Delivery");
    assert_eq!(
        info.timeline,
        vec![
            step("Label created", true, StatusMilestone::InfoReceived),
            step("On the road", false, StatusMilestone::InTransit),
            step("Out with the courier", false, StatusMilestone::OutForDelivery),
        ]
    );
}

#[test]
fn the_label_of_a_textless_highest_event_is_the_phrase() {
    let events = vec![event(Some("Label created"), 100, "info_received"), event(None, 200, "exception")];
    let info = parse_tracking_info(Ok(envelope("AB123", "exception", events))).unwrap();
    assert_eq!(info.label, "Package has an exception");
    assert_eq!(info.status, "Exception");
}

#[test]
fn the_label_is_of_the_first_event_of_the_highest_milestone() {
    let events = vec![
        event(Some("first"), 100, "delivered"),
        event(Some("second"), 200, "delivered"),
        event(Some("low"), 300, "pending"),
    ];
    let info = parse_tracking_info(Ok(envelope("AB123", "delivered", events))).unwrap();
    assert_eq!(info.label, "first");
}

#[test]
fn only_the_first_tracking_is_looked_at() {
    let mut decoded = envelope("FIRST", "pending", vec![event(Some("a"), 1, "pending")]);
    decoded.data.trackings.push(Tracking {
        tracker: Tracker { tracking_number: "SECOND".to_string() },
        shipment: Shipment { status_milestone: "delivered".to_string() },
        events: vec![event(Some("b"), 2, "delivered")],
    });
    let info = parse_tracking_info(Ok(decoded)).unwrap();
    assert_eq!(info.id_ship, "FIRST");
    assert_eq!(info.label, "a");
}

#[test]
fn the_events_are_handed_on_untouched() {
    let events = vec![
        event(Some("late"), 900, "delivered"),
        event(None, 100, "gibberish"),
        event(Some("late"), 900, "delivered"),
    ];
    let info = parse_tracking_info(Ok(envelope("AB123", "delivered", events.clone()))).unwrap();
    assert_eq!(info.events, events);
}

#[test]
fn the_link_holds_the_number_as_it_is() {
    let events = vec![event(None, 1, "pending")];
    let info = parse_tracking_info(Ok(envelope("AB 12/3?x=1", "pending", events))).unwrap();
    assert_eq!(info.url, Some("https://www.ship24.com/tracking?p=AB 12/3?x=1".to_string()));
}

#[test]
fn an_unknown_shipment_tag_flags_nothing() {
    let events = vec![event(None, 1, "pending"), event(None, 2, "delivered")];
    let info = parse_tracking_info(Ok(envelope("AB123", "who knows", events))).unwrap();
    assert_eq!(
        info.timeline,
        vec![
            step("Package status is pending", false, StatusMilestone::Pending),
            step("Package has been delivered", false, StatusMilestone::Delivered),
        ]
    );
}

#[test]
fn a_delivered_shipment_flags_every_step() {
    let events = vec![
        event(None, 1, "exception"),
        event(None, 2, "delivered"),
        event(None, 3, "pending"),
        event(None, 4, "failed_attempt"),
    ];
    let info = parse_tracking_info(Ok(envelope("AB123", "delivered", events))).unwrap();
    assert_eq!(info.timeline.len(), 4);
    assert!(info.timeline.iter().all(|t| t.status));
}

#[test]
fn the_timeline_rises_and_repeats_no_milestone() {
    let tags = [
        "delivered", "pending", "in_transit", "exception", "in_transit", "pending", "unknown",
        "available_for_pickup", "failed_attempt", "out_for_delivery", "info_received", "delivered",
    ];
    let events: Vec<Event> = tags.iter().map(|t| event(None, 0, t)).collect();
    let info = parse_tracking_info(Ok(envelope("AB123", "in_transit", events))).unwrap();
    let ranks: Vec<u8> = info.timeline.iter().map(|t| t.milestone.order()).collect();
    assert_eq!(ranks, vec![0, 1, 2, 3, 4, 5, 6, 7]);
    for pair in info.timeline.windows(2) {
        assert!(pair[0].milestone.order() <= pair[1].milestone.order());
        assert_ne!(pair[0].milestone, pair[1].milestone);
    }
}

#[test]
fn parsing_twice_gives_the_same() {
    let events = vec![
        event(Some("b"), 2, "in_transit"),
        event(Some("a"), 1, "info_received"),
        event(None, 3, "in_transit"),
    ];
    let decoded: Result<ApiResponse, String> = Ok(envelope("AB123", "in_transit", events));
    assert_eq!(parse_tracking_info(decoded.clone()), parse_tracking_info(decoded));
    let refused: Result<ApiResponse, String> = Err("EOF while parsing".to_string());
    assert_eq!(parse_tracking_info(refused.clone()), parse_tracking_info(refused));
}

#[test]
fn steps_are_derived_one_for_each_event() {
    let events = vec![
        event(Some("Out"), 1, "out_for_delivery"),
        event(None, 2, "info_received"),
        event(Some("Out again"), 3, "out_for_delivery"),
    ];
    assert_eq!(
        derive_steps(&events, StatusMilestone::OutForDelivery),
        vec![
            step("Out", false, StatusMilestone::OutForDelivery),
            step("Package information received", true, StatusMilestone::InfoReceived),
            step("Out again", false, StatusMilestone::OutForDelivery),
        ]
    );
    assert_eq!(derive_steps(&Vec::new(), StatusMilestone::Pending), Vec::new());
}

#[test]
fn sorting_keeps_the_order_within_a_milestone() {
    let mut steps = vec![
        step("da", false, StatusMilestone::Delivered),
        step("ta", false, StatusMilestone::InTransit),
        step("db", false, StatusMilestone::Delivered),
        step("pa", false, StatusMilestone::Pending),
        step("tb", false, StatusMilestone::InTransit),
        step("tc", false, StatusMilestone::InTransit),
        step("pb", false, StatusMilestone::Pending),
    ];
    sort_steps(&mut steps);
    let labels: Vec<&str> = steps.iter().map(|t| t.short_label.as_str()).collect();
    assert_eq!(labels, vec!["pa", "pb", "ta", "tb", "tc", "da", "db"]);
}

#[test]
fn sorting_leaves_sorted_and_empty_alone() {
    let mut none: Vec<Timeline> = Vec::new();
    sort_steps(&mut none);
    assert_eq!(none, Vec::new());
    let mut sorted = vec![
        step("a", true, StatusMilestone::Pending),
        step("b", false, StatusMilestone::Exception),
    ];
    sort_steps(&mut sorted);
    assert_eq!(
        sorted,
        vec![step("a", true, StatusMilestone::Pending), step("b", false, StatusMilestone::Exception)]
    );
}

#[test]
fn dedup_keeps_the_first_of_each_milestone() {
    let steps = vec![
        step("ta", false, StatusMilestone::InTransit),
        step("da", false, StatusMilestone::Delivered),
        step("tb", false, StatusMilestone::InTransit),
        step("db", false, StatusMilestone::Delivered),
        step("pa", false, StatusMilestone::Pending),
    ];
    let kept = dedup_steps(steps);
    let labels: Vec<&str> = kept.iter().map(|t| t.short_label.as_str()).collect();
    assert_eq!(labels, vec!["ta", "da", "pa"]);
}

#[test]
fn marking_sets_every_flag_anew() {
    let mut steps = vec![
        step("a", false, StatusMilestone::Pending),
        step("b", true, StatusMilestone::InTransit),
        step("c", true, StatusMilestone::Exception),
    ];
    mark_completed(&mut steps, StatusMilestone::InTransit);
    assert_eq!(
        steps,
        vec![
            step("a", true, StatusMilestone::Pending),
            step("b", false, StatusMilestone::InTransit),
            step("c", false, StatusMilestone::Exception),
        ]
    );
}

#[test]
fn the_timeline_is_built_from_the_events() {
    let events = vec![
        event(Some("x"), 1, "exception"),
        event(None, 2, "pending"),
        event(Some("y"), 3, "exception"),
    ];
    assert_eq!(
        build_timeline(&events, StatusMilestone::Exception),
        vec![
            step("Package status is pending", true, StatusMilestone::Pending),
            step("x", false, StatusMilestone::Exception),
        ]
    );
}

#[test]
fn labels_come_from_the_text_or_the_phrase() {
    assert_eq!(label_of(&event(Some("Custom"), 0, "delivered")), "Custom");
    assert_eq!(label_of(&event(Some(""), 0, "delivered")), "");
    assert_eq!(label_of(&event(None, 0, "delivered")), "Package has been delivered");
    assert_eq!(label_of(&event(None, 0, "???")), "Package status is pending");
}

#[test]
fn the_highest_milestone_is_found() {
    assert_eq!(find_highest_milestone(&Vec::new()), StatusMilestone::Pending);
    let events = vec![
        event(None, 0, "in_transit"),
        event(None, 0, "exception"),
        event(None, 0, "delivered"),
    ];
    assert_eq!(find_highest_milestone(&events), StatusMilestone::Exception);
    assert_eq!(
        label_of_first(&events, StatusMilestone::Delivered),
        "Package has been delivered"
    );
}

#[test]
fn the_label_of_a_milestone_is_that_of_its_first_event() {
    let events = vec![
        event(Some("one"), 0, "in_transit"),
        event(Some("two"), 0, "pending"),
        event(Some("three"), 0, "in_transit"),
        event(None, 0, "delivered"),
    ];
    assert_eq!(label_of_first(&events, StatusMilestone::InTransit), "one");
    assert_eq!(label_of_first(&events, StatusMilestone::Pending), "two");
    assert_eq!(label_of_first(&events, StatusMilestone::Delivered), "Package has been delivered");
    assert_eq!(label_of_first(&events, StatusMilestone::Exception), "Package has an exception");
    assert_eq!(label_of_first(&Vec::new(), StatusMilestone::Pending), "Package status is pending");
}

#[test]
fn a_failure_has_no_events_timeline_or_link() {
    assert_eq!(
        failure_info("AB123".to_string(), "Status unknown", "Unknown", "why".to_string()),
        failure("AB123", "Status unknown", "Unknown", "why")
    );
}

#[test]
fn a_throttled_fetch_tells_when_to_try_again() {
    let info = tracking_result("AB123".to_string(), Err(TrackingError::RateLimited(30, 2, 10)));
    assert_eq!(
        info,
        failure(
            "AB123",
            "Status unknown",
            "Unknown",
            "Rate limited. Please try again in 30 seconds. Remaining requests: 2/10"
        )
    );
}

#[test]
fn failures_are_told_in_words() {
    assert_eq!(failure_message(&TrackingError::NoTrackingData), "No tracking data available");
    assert_eq!(
        failure_message(&TrackingError::InvalidTrackingNumber("AB123".to_string())),
        "Invalid tracking number"
    );
    assert_eq!(
        failure_message(&TrackingError::ApiError("quota exceeded".to_string())),
        "Error: API error: quota exceeded"
    );
    assert_eq!(
        failure_message(&TrackingError::ServerError("Server error: 502 Bad Gateway".to_string())),
        "Error: Server error: Server error: 502 Bad Gateway"
    );
    assert_eq!(
        failure_message(&TrackingError::NetworkError("connection refused".to_string())),
        "Error: Network error: connection refused"
    );
    assert_eq!(
        failure_message(&TrackingError::ParseError("EOF".to_string())),
        "Error: Parse error: EOF"
    );
    assert_eq!(
        failure_message(&TrackingError::RateLimited(60, 0, 10)),
        "Rate limited. Please try again in 60 seconds. Remaining requests: 0/10"
    );
}

#[test]
fn errors_are_shown_in_words() {
    assert_eq!(TrackingError::ApiError("x".to_string()).to_string(), "API error: x");
    assert_eq!(
        TrackingError::InvalidTrackingNumber("AB123".to_string()).to_string(),
        "Invalid tracking number: AB123"
    );
    assert_eq!(TrackingError::NoTrackingData.to_string(), "No tracking data available");
    assert_eq!(TrackingError::NetworkError("x".to_string()).to_string(), "Network error: x");
    assert_eq!(TrackingError::ParseError("x".to_string()).to_string(), "Parse error: x");
    assert_eq!(TrackingError::ServerError("x".to_string()).to_string(), "Server error: x");
    assert_eq!(
        TrackingError::RateLimited(1, 18446744073709551615, 0).to_string(),
        "Rate limited. Please try again in 1 seconds. Remaining requests: 18446744073709551615/0"
    );
}

#[test]
fn a_fetch_that_ends_well_gives_the_parsed_result() {
    let events = vec![event(Some("On the road"), 1, "in_transit")];
    let info = tracking_result("ASKED".to_string(), Ok(Ok(envelope("REPORTED", "in_transit", events))));
    assert!(!info.has_error);
    assert_eq!(info.id_ship, "REPORTED");
    assert_eq!(info.label, "On the road");
}

#[test]
fn a_body_without_trackings_fails_under_the_asked_number() {
    let decoded = Ok(ApiResponse { data: TrackingData { trackings: Vec::new() } });
    assert_eq!(
        tracking_result("ASKED".to_string(), Ok(decoded)),
        failure("ASKED", "Status unknown", "Unknown", "Failed to parse tracking data")
    );
}

#[test]
fn a_refused_body_keeps_the_decoder_s_words() {
    assert_eq!(
        tracking_result("ASKED".to_string(), Ok(Err("missing field `data`".to_string()))),
        failure("", "", "", "missing field `data`")
    );
}
