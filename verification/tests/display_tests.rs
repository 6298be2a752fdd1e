use simple_package_tracker::display::{completed_steps, history_order, is_later, latest_label};
use simple_package_tracker::milestone::StatusMilestone;
use simple_package_tracker::models::{Event, Timeline, Timestamp};

fn at(text: &str, seconds: i64, nanos: u32) -> Event {
    Event {
        status: Some(text.to_string()),
        occurrence_datetime: Timestamp { seconds, nanos },
        status_milestone: "in_transit".to_string(),
    }
}

fn labelled(label: &str, status: bool) -> Timeline {
    Timeline { short_label: label.to_string(), status, milestone: StatusMilestone::Pending }
}

fn texts(events: &[Event]) -> Vec<&str> {
    events.iter().map(|e| e.status.as_deref().unwrap_or("")).collect()
}

#[test]
fn later_means_more_seconds_or_more_nanoseconds() {
    assert!(is_later(&at("", 2, 0), &at("", 1, 999_999_999)));
    assert!(is_later(&at("", 1, 1), &at("", 1, 0)));
    assert!(!is_later(&at("", 1, 0), &at("", 1, 0)));
    assert!(!is_later(&at("", -5, 0), &at("", -4, 0)));
    assert!(is_later(&at("", 0, 0), &at("", -1, 1_999_999_999)));
    assert!(is_later(&at("", i64::MAX, u32::MAX), &at("", i64::MAX, 0)));
    assert!(is_later(&at("", i64::MIN + 1, 0), &at("", i64::MIN, u32::MAX)));
}

#[test]
fn the_history_shows_the_newest_first() {
    let events = vec![at("b", 20, 0), at("d", 40, 0), at("a", 10, 0), at("c", 30, 5), at("c0", 30, 0)];
    assert_eq!(texts(&history_order(&events)), vec!["d", "c", "c0", "b", "a"]);
    assert_eq!(texts(&events), vec!["b", "d", "a", "c", "c0"]);
}

#[test]
fn events_of_one_instant_keep_their_order() {
    let events = vec![at("x1", 5, 0), at("y", 9, 0), at("x2", 5, 0), at("x3", 5, 0), at("z", 1, 0)];
    assert_eq!(texts(&history_order(&events)), vec!["y", "x1", "x2", "x3", "z"]);
}

#[test]
fn the_history_of_nothing_is_nothing() {
    assert_eq!(history_order(&Vec::new()), Vec::new());
    assert_eq!(history_order(&vec![at("only", 1, 1)]), vec![at("only", 1, 1)]);
}

#[test]
fn the_history_agrees_with_a_stable_sort() {
    let events: Vec<Event> = [7i64, 3, 9, 3, 3, -2, 9, 0, 7, 100, -50, 3]
        .iter()
        .enumerate()
        .map(|(i, s)| at(&format!("e{}", i), *s, (i % 2) as u32))
        .collect();
    let mut expected = events.clone();
    expected.sort_by(|a, b| {
        (b.occurrence_datetime.seconds, b.occurrence_datetime.nanos)
            .cmp(&(a.occurrence_datetime.seconds, a.occurrence_datetime.nanos))
    });
    assert_eq!(history_order(&events), expected);
}

#[test]
fn flagged_steps_are_counted() {
    assert_eq!(completed_steps(&Vec::new()), 0);
    assert_eq!(
        completed_steps(&vec![labelled("a", true), labelled("b", false), labelled("c", true)]),
        2
    );
    assert_eq!(completed_steps(&vec![labelled("a", false)]), 0);
}

#[test]
fn the_latest_label_is_the_last_that_is_not_empty() {
    assert_eq!(latest_label(&Vec::new()), None);
    assert_eq!(latest_label(&vec![labelled("", true), labelled("", false)]), None);
    assert_eq!(
        latest_label(&vec![labelled("a", true), labelled("b", false), labelled("", false)]),
        Some("b".to_string())
    );
    assert_eq!(latest_label(&vec![labelled("a", true)]), Some("a".to_string()));
}
