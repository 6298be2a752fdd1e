//! From a decoded success body to the result for one tracking number.
//!
//! The steps of the timeline are flagged against the milestone that the
//! provider reports for the shipment; the label and the status of the
//! result come from the highest milestone among the events. The two can
//! differ and are kept apart.

use vstd::prelude::*;
use crate::milestone::StatusMilestone;
use crate::models::{
    rate_limit_notice,
    rate_limit_text,
    ApiResponse,
    ApiResponseView,
    Event,
    EventView,
    TimelineView,
    TrackingError,
    TrackingErrorView,
    TrackingInfo,
    TrackingInfoView,
    TrackingView,
};
use crate::text::join;
use crate::timeline::{
    build_timeline,
    event_label,
    event_milestone,
    is_first_of_its_milestone,
    is_strictly_ascending,
    label_of,
    lemma_timeline_covers_events,
    lemma_timeline_flags,
    lemma_timeline_milestones_are_distinct,
    lemma_timeline_steps_are_first_events,
    rank,
    step_of,
    timeline_of,
};

verus! {

/// The milestone of highest rank among the events; `Pending`, the lowest,
/// where there are none.
pub open spec fn highest_milestone(events: Seq<EventView>) -> StatusMilestone
    decreases events.len(),
{
    if events.len() == 0 {
        StatusMilestone::Pending
    } else {
        let before = highest_milestone(events.drop_last());
        let last = event_milestone(events.last());
        if last.spec_order() > before.spec_order() {
            last
        } else {
            before
        }
    }
}

/// Where the first event of a milestone stands; the number of events
/// where none has it.
pub open spec fn first_event_of(events: Seq<EventView>, m: StatusMilestone) -> int
    decreases events.len(),
{
    if events.len() == 0 || event_milestone(events[0]) == m {
        0
    } else {
        1 + first_event_of(events.drop_first(), m)
    }
}

/// The label that a milestone has among the events: that of the first
/// event of the milestone, or the milestone's phrase where no event has it.
pub open spec fn label_at(events: Seq<EventView>, m: StatusMilestone) -> Seq<char> {
    if first_event_of(events, m) < events.len() {
        event_label(events[first_event_of(events, m)])
    } else {
        m.spec_phrase()
    }
}

/// The result that reports a failure: no events, no timeline, no link.
pub open spec fn failure_view(
    id: Seq<char>,
    label: Seq<char>,
    status: Seq<char>,
    message: Seq<char>,
) -> TrackingInfoView {
    TrackingInfoView {
        id_ship: id,
        label: label,
        status: status,
        events: Seq::empty(),
        timeline: Seq::empty(),
        url: None,
        has_error: true,
        error_message: Some(message),
    }
}

/// The result for a parcel that has events.
pub open spec fn success_view(tracking: TrackingView) -> TrackingInfoView {
    let current = StatusMilestone::spec_from_str(tracking.shipment.status_milestone);
    let highest = highest_milestone(tracking.events);
    TrackingInfoView {
        id_ship: tracking.tracker.tracking_number,
        label: label_at(tracking.events, highest),
        status: highest.spec_to_string(),
        events: tracking.events,
        timeline: timeline_of(tracking.events, current),
        url: Some("https://www.ship24.com/tracking?p="@ + tracking.tracker.tracking_number),
        has_error: false,
        error_message: None,
    }
}

/// What a decoded body gives. A body that did not decode gives a failure
/// that carries the decoder's words; an envelope without parcels gives
/// nothing; a first parcel without events gives the failure "No tracking
/// data available"; a first parcel with events gives its result.
pub open spec fn spec_parse_tracking_info(decoded: Result<ApiResponseView, Seq<char>>) -> Option<
    TrackingInfoView,
> {
    match decoded {
        Err(why) => Some(failure_view(Seq::empty(), Seq::empty(), Seq::empty(), why)),
        Ok(envelope) => if envelope.data.trackings.len() == 0 {
            None
        } else {
            let tracking = envelope.data.trackings[0];
            if tracking.events.len() == 0 {
                Some(
                    failure_view(
                        tracking.tracker.tracking_number,
                        "No tracking data available"@,
                        "Unknown"@,
                        "No tracking data available"@,
                    ),
                )
            } else {
                Some(success_view(tracking))
            }
        },
    }
}

/// A decoding outcome with its text as character sequences.
pub open spec fn decoded_view(decoded: Result<ApiResponse, String>) -> Result<
    ApiResponseView,
    Seq<char>,
> {
    match decoded {
        Ok(envelope) => Ok(envelope@),
        Err(why) => Err(why@),
    }
}

/// Builds the result that reports a failure.
pub fn failure_info(id: String, label: &str, status: &str, message: String) -> (info: TrackingInfo)
    ensures
        info@ == failure_view(id@, label@, status@, message@),
{
    let info = TrackingInfo {
        id_ship: id,
        label: String::from_str(label),
        status: String::from_str(status),
        events: Vec::new(),
        timeline: Vec::new(),
        url: None,
        has_error: true,
        error_message: Some(message),
    };
    assert(info.events.deep_view() =~= Seq::<EventView>::empty());
    assert(info.timeline.deep_view() =~= Seq::<TimelineView>::empty());
    info
}

proof fn lemma_highest_milestone(events: Seq<EventView>)
    ensures
        forall|i: int|
            0 <= i < events.len() ==> event_milestone(#[trigger] events[i]).spec_order()
                <= highest_milestone(events).spec_order(),
        events.len() > 0 ==> exists|i: int|
            0 <= i < events.len() && event_milestone(#[trigger] events[i]) == highest_milestone(
                events,
            ),
    decreases events.len(),
{
    if events.len() > 0 {
        let rest = events.drop_last();
        lemma_highest_milestone(rest);
        assert forall|i: int| 0 <= i < events.len() implies event_milestone(
            #[trigger] events[i],
        ).spec_order() <= highest_milestone(events).spec_order() by {
            if i < rest.len() {
                assert(rest[i] == events[i]);
            }
        }
        if highest_milestone(events) == event_milestone(events.last()) {
            assert(event_milestone(events[events.len() - 1]) == highest_milestone(events));
        } else {
            let i = choose|i: int|
                0 <= i < rest.len() && event_milestone(#[trigger] rest[i]) == highest_milestone(
                    rest,
                );
            assert(rest[i] == events[i]);
        }
    }
}

proof fn lemma_first_event_at(events: Seq<EventView>, m: StatusMilestone, i: int)
    requires
        0 <= i <= events.len(),
        forall|j: int| 0 <= j < i ==> event_milestone(#[trigger] events[j]) != m,
        i == events.len() || event_milestone(events[i]) == m,
    ensures
        first_event_of(events, m) == i,
    decreases i,
{
    if i > 0 {
        assert(event_milestone(events[0]) != m);
        let rest = events.drop_first();
        assert forall|j: int| 0 <= j < i - 1 implies event_milestone(#[trigger] rest[j]) != m by {
            assert(rest[j] == events[j + 1]);
        }
        lemma_first_event_at(rest, m, i - 1);
    }
}

/// The milestone of highest rank among the events.
pub fn find_highest_milestone(events: &Vec<Event>) -> (highest: StatusMilestone)
    ensures
        highest == highest_milestone(events.deep_view()),
{
    let mut highest = StatusMilestone::Pending;
    let mut i: usize = 0;
    assert(events.deep_view().take(0) =~= Seq::<EventView>::empty());
    while i < events.len()
        invariant
            i <= events.len(),
            highest == highest_milestone(events.deep_view().take(i as int)),
        decreases events.len() - i,
    {
        let milestone = StatusMilestone::from_str(events[i].status_milestone.as_str());
        proof {
            let next = events.deep_view().take(i + 1);
            assert(next.drop_last() =~= events.deep_view().take(i as int));
            assert(next.last() == events@[i as int]@);
        }
        if milestone.order() > highest.order() {
            highest = milestone;
        }
        i += 1;
    }
    assert(events.deep_view().take(events.len() as int) =~= events.deep_view());
    highest
}

/// The label of the first event that has the milestone; the phrase of the
/// milestone where no event has it.
pub fn label_of_first(events: &Vec<Event>, milestone: StatusMilestone) -> (label: String)
    ensures
        label@ == label_at(events.deep_view(), milestone),
{
    let mut i: usize = 0;
    while i < events.len() && StatusMilestone::from_str(events[i].status_milestone.as_str())
        != milestone
        invariant
            i <= events.len(),
            forall|j: int| 0 <= j < i ==> event_milestone(#[trigger] events.deep_view()[j]) != milestone,
        decreases events.len() - i,
    {
        i += 1;
    }
    proof {
        lemma_first_event_at(events.deep_view(), milestone, i as int);
    }
    if i < events.len() {
        label_of(&events[i])
    } else {
        String::from_str(milestone.phrase())
    }
}

/// Turns a decoded success body into the result for its first parcel.
///
/// `decoded` is what decoding the body gave: the envelope, or the words in
/// which the decoder refused the body. A refused body is no failure of
/// this function: it gives a result that carries the refusal.
pub fn parse_tracking_info(decoded: Result<ApiResponse, String>) -> (parsed: Option<TrackingInfo>)
    ensures
        parsed.deep_view() == spec_parse_tracking_info(decoded_view(decoded)),
        parsed matches Some(info) ==> is_consistent(info@),
{
    proof {
        lemma_parsed_is_consistent(decoded_view(decoded));
    }
    match decoded {
        Err(why) => {
            proof {
                reveal_strlit("");
                assert(""@ =~= Seq::<char>::empty());
            }
            Some(failure_info(String::new(), "", "", why))
        },
        Ok(envelope) => {
            let mut trackings = envelope.data.trackings;
            if trackings.len() == 0 {
                return None;
            }
            let tracking = trackings.remove(0);
            assert(tracking@ == envelope@.data.trackings[0]);
            if tracking.events.len() == 0 {
                return Some(
                    failure_info(
                        tracking.tracker.tracking_number,
                        "No tracking data available",
                        "Unknown",
                        String::from_str("No tracking data available"),
                    ),
                );
            }
            let current = StatusMilestone::from_str(tracking.shipment.status_milestone.as_str());
            let timeline = build_timeline(&tracking.events, current);
            let highest = find_highest_milestone(&tracking.events);
            let label = label_of_first(&tracking.events, highest);
            let url = join("https://www.ship24.com/tracking?p=", tracking.tracker.tracking_number.as_str());
            let info = TrackingInfo {
                id_ship: tracking.tracker.tracking_number,
                label,
                status: String::from_str(highest.to_string()),
                events: tracking.events,
                timeline,
                url: Some(url),
                has_error: false,
                error_message: None,
            };
            Some(info)
        },
    }
}

/// What the holder of a tracking number is told of a failed fetch.
pub open spec fn failure_notice(e: TrackingErrorView) -> Seq<char> {
    match e {
        TrackingErrorView::RateLimited(reset, remaining, limit) => rate_limit_notice(
            reset,
            remaining,
            limit,
        ),
        TrackingErrorView::NoTrackingData => "No tracking data available"@,
        TrackingErrorView::InvalidTrackingNumber(_) => "Invalid tracking number"@,
        _ => "Error: "@ + e.to_text(),
    }
}

/// What a fetch gave: the decoding of a success body, or the error the
/// fetch ended in.
pub open spec fn fetched_view(fetched: Result<Result<ApiResponse, String>, TrackingError>) -> Result<
    Result<ApiResponseView, Seq<char>>,
    TrackingErrorView,
> {
    match fetched {
        Ok(decoded) => Ok(decoded_view(decoded)),
        Err(e) => Err(e@),
    }
}

/// The result for a tracking number, whatever its fetch gave. A failed
/// fetch and a body without parcels give a failure under the number that
/// was asked for; nothing a fetch can give goes without a result.
pub open spec fn spec_tracking_result(
    number: Seq<char>,
    fetched: Result<Result<ApiResponseView, Seq<char>>, TrackingErrorView>,
) -> TrackingInfoView {
    match fetched {
        Ok(decoded) => match spec_parse_tracking_info(decoded) {
            Some(info) => info,
            None => failure_view(
                number,
                "Status unknown"@,
                "Unknown"@,
                "Failed to parse tracking data"@,
            ),
        },
        Err(e) => failure_view(number, "Status unknown"@, "Unknown"@, failure_notice(e)),
    }
}

/// Writes what the holder of a tracking number is told of a failed fetch.
pub fn failure_message(e: &TrackingError) -> (message: String)
    ensures
        message@ == failure_notice(e@),
{
    match e {
        TrackingError::RateLimited(reset, remaining, limit) => rate_limit_text(
            *reset,
            *remaining,
            *limit,
        ),
        TrackingError::NoTrackingData => String::from_str("No tracking data available"),
        TrackingError::InvalidTrackingNumber(_) => String::from_str("Invalid tracking number"),
        _ => join("Error: ", e.to_string().as_str()),
    }
}

/// Settles the result for one tracking number from what its fetch gave.
pub fn tracking_result(
    number: String,
    fetched: Result<Result<ApiResponse, String>, TrackingError>,
) -> (info: TrackingInfo)
    ensures
        info@ == spec_tracking_result(number@, fetched_view(fetched)),
        is_consistent(info@),
{
    proof {
        lemma_result_is_consistent(number@, fetched_view(fetched));
    }
    match fetched {
        Ok(decoded) => match parse_tracking_info(decoded) {
            Some(info) => info,
            None => failure_info(
                number,
                "Status unknown",
                "Unknown",
                String::from_str("Failed to parse tracking data"),
            ),
        },
        Err(e) => {
            let message = failure_message(&e);
            failure_info(number, "Status unknown", "Unknown", message)
        },
    }
}

/// What holds of every result. The error flag and the message go
/// together. A failure has no events, no timeline and no link; a success
/// has events, a timeline in strictly rising rank, and a link.
pub open spec fn is_consistent(info: TrackingInfoView) -> bool {
    &&& info.has_error <==> info.error_message is Some
    &&& info.has_error ==> info.events.len() == 0 && info.timeline.len() == 0 && info.url is None
    &&& !info.has_error ==> info.events.len() > 0 && info.timeline.len() > 0
        && is_strictly_ascending(info.timeline) && info.url is Some
}

/// The label and the status of a success are those of the last step of
/// its timeline: the step of the highest milestone among the events.
pub proof fn lemma_label_is_of_last_step(tracking: TrackingView)
    requires
        tracking.events.len() > 0,
    ensures
        success_view(tracking).timeline.len() > 0,
        success_view(tracking).label == success_view(tracking).timeline.last().short_label,
        success_view(tracking).status == success_view(
            tracking,
        ).timeline.last().milestone.spec_to_string(),
        success_view(tracking).timeline.last().milestone == highest_milestone(tracking.events),
{
    let events = tracking.events;
    let current = StatusMilestone::spec_from_str(tracking.shipment.status_milestone);
    let timeline = timeline_of(events, current);
    let highest = highest_milestone(events);
    lemma_highest_milestone(events);
    let i = choose|i: int| 0 <= i < events.len() && event_milestone(#[trigger] events[i]) == highest;
    lemma_timeline_covers_events(events, current, i);
    let k = choose|k: int| 0 <= k < timeline.len() && (#[trigger] timeline[k]).milestone == highest;
    lemma_timeline_milestones_are_distinct(events, current);
    let last = timeline.len() - 1;
    if k < last {
        lemma_timeline_steps_are_first_events(events, current, last);
        let j = choose|j: int|
            is_first_of_its_milestone(events, j) && timeline[last] == step_of(
                #[trigger] events[j],
                current,
            );
        assert(rank(timeline[k]) < rank(timeline[last]));
        assert(event_milestone(events[j]).spec_order() <= highest.spec_order());
    }
    lemma_timeline_steps_are_first_events(events, current, k);
    let first = choose|first: int|
        is_first_of_its_milestone(events, first) && timeline[k] == step_of(
            #[trigger] events[first],
            current,
        );
    lemma_first_event_at(events, highest, first);
}

/// In the result for a parcel, a step is flagged exactly if the shipment,
/// standing where the provider says it stands, is past the step's
/// milestone; so every step of a delivered shipment is flagged.
pub proof fn lemma_result_flags(tracking: TrackingView)
    ensures
        forall|k: int|
            0 <= k < success_view(tracking).timeline.len() ==> (#[trigger] success_view(
                tracking,
            ).timeline[k]).status == success_view(tracking).timeline[k].milestone.spec_is_completed_at(
                StatusMilestone::spec_from_str(tracking.shipment.status_milestone),
            ),
        StatusMilestone::spec_from_str(tracking.shipment.status_milestone)
            == StatusMilestone::Delivered ==> forall|k: int|
            0 <= k < success_view(tracking).timeline.len() ==> (#[trigger] success_view(
                tracking,
            ).timeline[k]).status,
{
    lemma_timeline_flags(
        tracking.events,
        StatusMilestone::spec_from_str(tracking.shipment.status_milestone),
    );
}

/// Every result that a decoded body gives is consistent.
pub proof fn lemma_parsed_is_consistent(decoded: Result<ApiResponseView, Seq<char>>)
    ensures
        spec_parse_tracking_info(decoded) matches Some(info) ==> is_consistent(info),
{
    if let Ok(envelope) = decoded {
        if envelope.data.trackings.len() > 0 {
            let tracking = envelope.data.trackings[0];
            if tracking.events.len() > 0 {
                lemma_label_is_of_last_step(tracking);
                lemma_timeline_milestones_are_distinct(
                    tracking.events,
                    StatusMilestone::spec_from_str(tracking.shipment.status_milestone),
                );
            }
        }
    }
}

/// Every result that is settled for a tracking number is consistent, and
/// a failure among them says why in at least one character, but for a
/// body that was refused without a word.
pub proof fn lemma_result_is_consistent(
    number: Seq<char>,
    fetched: Result<Result<ApiResponseView, Seq<char>>, TrackingErrorView>,
)
    ensures
        is_consistent(spec_tracking_result(number, fetched)),
        spec_tracking_result(number, fetched).has_error && fetched != Ok::<
            Result<ApiResponseView, Seq<char>>,
            TrackingErrorView,
        >(Err(Seq::empty())) ==> spec_tracking_result(number, fetched).error_message->Some_0.len()
            > 0,
{
    reveal_strlit("No tracking data available");
    reveal_strlit("Failed to parse tracking data");
    reveal_strlit("Invalid tracking number");
    reveal_strlit("Error: ");
    reveal_strlit("Rate limited. Please try again in ");
    match fetched {
        Ok(decoded) => {
            lemma_parsed_is_consistent(decoded);
            if let Err(why) = decoded {
                assert(why.len() > 0 || why =~= Seq::empty());
            }
        },
        Err(e) => {},
    }
}

/// Parsing settles its result: two decoded bodies of the same content
/// give results of the same content, field by field.
pub proof fn lemma_parse_is_deterministic(
    first: Result<ApiResponse, String>,
    second: Result<ApiResponse, String>,
    first_parsed: Option<TrackingInfo>,
    second_parsed: Option<TrackingInfo>,
)
    requires
        decoded_view(first) == decoded_view(second),
        first_parsed.deep_view() == spec_parse_tracking_info(decoded_view(first)),
        second_parsed.deep_view() == spec_parse_tracking_info(decoded_view(second)),
    ensures
        first_parsed.deep_view() == second_parsed.deep_view(),
{
}

} // verus!
