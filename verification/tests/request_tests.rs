use simple_package_tracker::numbers::{clean_numbers_list, holds};
use simple_package_tracker::rate_limiter::RateLimiter;
use simple_package_tracker::request::{plan_fetch, tracking_request, TrackingRequest, BASE_URL};

fn strings(items: &[&str]) -> Vec<String> {
    items.iter().map(|s| s.to_string()).collect()
}

#[test]
fn the_request_goes_to_the_tracking_endpoint() {
    assert_eq!(BASE_URL, "https://api.ship24.com/public/v1");
    assert_eq!(
        tracking_request(BASE_URL, "secret", "AB123"),
        TrackingRequest {
            url: "https://api.ship24.com/public/v1/trackers/track".to_string(),
            authorization: "Bearer secret".to_string(),
            content_type: "application/json".to_string(),
            tracking_number: "AB123".to_string(),
            restrict_tracking_to_courier_code: false,
        }
    );
}

#[test]
fn the_request_takes_base_key_and_number_as_they_are() {
    let request = tracking_request("http://localhost:8080/", "", " a b ");
    assert_eq!(request.url, "http://localhost:8080//trackers/track");
    assert_eq!(request.authorization, "Bearer ");
    assert_eq!(request.tracking_number, " a b ");
    assert!(!request.restrict_tracking_to_courier_code);
}

#[test]
fn a_list_holds_what_stands_in_it() {
    let list = strings(&["AB123", "", "é"]);
    assert!(holds(&list, "AB123"));
    assert!(holds(&list, ""));
    assert!(holds(&list, "é"));
    assert!(!holds(&list, "ab123"));
    assert!(!holds(&list, "AB12"));
    assert!(!holds(&Vec::new(), ""));
}

#[test]
fn new_lines_are_added_after_the_kept_numbers() {
    assert_eq!(
        clean_numbers_list(strings(&["OLD1", "OLD2"]), "NEW1\n  NEW2  \n\n"),
        strings(&["OLD1", "OLD2", "NEW1", "NEW2"])
    );
}

#[test]
fn a_line_that_is_kept_already_is_not_added() {
    assert_eq!(
        clean_numbers_list(strings(&["A", "B"]), "B\nC\n A \nD"),
        strings(&["A", "B", "C", "D"])
    );
}

#[test]
fn a_repeated_line_is_added_once_where_it_first_stands() {
    assert_eq!(
        clean_numbers_list(Vec::new(), "X\nY\nX\nZ\nY\nX"),
        strings(&["X", "Y", "Z"])
    );
}

#[test]
fn an_empty_text_leaves_the_kept_numbers() {
    assert_eq!(clean_numbers_list(strings(&["A", "A", "B"]), ""), strings(&["A", "A", "B"]));
    assert_eq!(clean_numbers_list(strings(&["A"]), " \n\t\r\n"), strings(&["A"]));
    assert_eq!(clean_numbers_list(Vec::new(), ""), Vec::<String>::new());
}

#[test]
fn kept_duplicates_stay() {
    assert_eq!(
        clean_numbers_list(strings(&["A", "A"]), "A\nB"),
        strings(&["A", "A", "B"])
    );
}

#[test]
fn a_planned_fetch_has_taken_its_grant() {
    let mut limiter = RateLimiter::new(10);
    let first = plan_fetch(&mut limiter, 1_000, BASE_URL, "k", "A");
    assert_eq!(first.delay_millis, 0);
    assert_eq!(first.request, tracking_request(BASE_URL, "k", "A"));
    assert_eq!(limiter.last_grant_millis(), 1_000);
    let second = plan_fetch(&mut limiter, 1_020, BASE_URL, "k", "B");
    assert_eq!(second.delay_millis, 80);
    assert_eq!(second.request.tracking_number, "B");
    assert_eq!(limiter.last_grant_millis(), 1_100);
    let third = plan_fetch(&mut limiter, 1_020, BASE_URL, "k", "C");
    assert_eq!(third.delay_millis, 180);
    assert_eq!(limiter.last_grant_millis(), 1_200);
}
