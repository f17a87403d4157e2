use findtime::calendly;
use findtime::calendly::AvailabilityResponse;
use findtime::calendly::Day;
use findtime::calendly::Spot;
use findtime::google_cal;
use findtime::google_cal::Slot;
use findtime::parse::parse_i64_dec;
use findtime::router::get_calendar_type;
use findtime::router::CalendarType;
use findtime::text::str_contains;
use findtime::text::str_eq;
use findtime::FetchError;

#[test]
fn router_picks_calendly_for_calendly_links() {
    assert_eq!(get_calendar_type("https://calendly.com/someone/30min"), CalendarType::Calendly);
}

#[test]
fn router_falls_back_to_google() {
    assert_eq!(
        get_calendar_type("https://calendar.app.google/abc123"),
        CalendarType::Google
    );
    assert_eq!(get_calendar_type(""), CalendarType::Google);
}

#[test]
fn str_contains_finds_substrings() {
    assert!(str_contains("abcalendlyxyz", "calendly"));
    assert!(!str_contains("abc", "calendly"));
    assert!(str_contains("abc", ""));
    assert!(str_contains("abc", "abc"));
}

#[test]
fn str_eq_compares_by_characters() {
    assert!(str_eq("available", "available"));
    assert!(!str_eq("available", "booked"));
    assert!(!str_eq("a", "ab"));
}

#[test]
fn parse_accepts_plain_decimals() {
    assert_eq!(parse_i64_dec("0"), Some(0));
    assert_eq!(parse_i64_dec("123"), Some(123));
    assert_eq!(parse_i64_dec("+42"), Some(42));
    assert_eq!(parse_i64_dec("-17"), Some(-17));
    assert_eq!(parse_i64_dec("007"), Some(7));
}

#[test]
fn parse_handles_the_64_bit_boundaries() {
    assert_eq!(parse_i64_dec("9223372036854775807"), Some(i64::MAX));
    assert_eq!(parse_i64_dec("-9223372036854775808"), Some(i64::MIN));
    assert_eq!(parse_i64_dec("9223372036854775808"), None);
    assert_eq!(parse_i64_dec("-9223372036854775809"), None);
}

#[test]
fn parse_rejects_malformed_text() {
    assert_eq!(parse_i64_dec(""), None);
    assert_eq!(parse_i64_dec("-"), None);
    assert_eq!(parse_i64_dec("+"), None);
    assert_eq!(parse_i64_dec("12a"), None);
    assert_eq!(parse_i64_dec("1.5"), None);
    assert_eq!(parse_i64_dec(" 1"), None);
}

const CALENDLY_PAGE: &str = "{\"availability\":{\"uuid\":\"evt-123-abc\",\"duration\":30,\"profile\":{\"name\":\"Team Sync\"}}}";

#[test]
fn calendly_resolve_extracts_all_fields() {
    let info = calendly::resolve_page(CALENDLY_PAGE).unwrap();
    assert_eq!(info.uuid, "evt-123-abc");
    assert_eq!(info.duration_ms, 30 * 60 * 1000);
    assert_eq!(info.title, "Team Sync");
}

#[test]
fn calendly_resolve_reports_missing_uuid() {
    let page = "{\"duration\":30,\"name\":\"T\"}";
    match calendly::resolve_page(page) {
        Err(FetchError::ExtractionError { field }) => assert_eq!(field, "uuid"),
        other => panic!("unexpected outcome: {:?}", other.map(|i| i.uuid)),
    }
}

#[test]
fn calendly_resolve_reports_missing_duration() {
    let page = "{\"uuid\":\"u1\",\"name\":\"T\"}";
    match calendly::resolve_page(page) {
        Err(FetchError::ExtractionError { field }) => assert_eq!(field, "duration"),
        other => panic!("unexpected outcome: {:?}", other.map(|i| i.uuid)),
    }
}

#[test]
fn calendly_resolve_reports_missing_name() {
    let page = "{\"uuid\":\"u1\",\"duration\":15}";
    match calendly::resolve_page(page) {
        Err(FetchError::ExtractionError { field }) => assert_eq!(field, "name"),
        other => panic!("unexpected outcome: {:?}", other.map(|i| i.uuid)),
    }
}

fn spot(status: &str, start_time: &str) -> Spot {
    Spot {
        status: status.to_string(),
        start_time: start_time.to_string(),
        invitees_remaining: 1,
    }
}

fn response(duration: i64, spots: Vec<Spot>) -> AvailabilityResponse {
    AvailabilityResponse {
        scheduling_link: "https://calendly.com/x".to_string(),
        duration,
        availability_timezone: "Europe/Berlin".to_string(),
        days: vec![Day {
            date: "1970-01-01".to_string(),
            status: "available".to_string(),
            spots,
            invitee_events: Vec::new(),
        }],
        title: "Team Sync".to_string(),
    }
}

#[test]
fn calendly_maps_available_spots() {
    let c = response(
        60_000,
        vec![
            spot("available", "1970-01-01T00:00:10+00:00"),
            spot("unavailable", "1970-01-01T00:01:00+00:00"),
            spot("available", "1970-01-01T00:02:00+00:00"),
        ],
    );
    let events = calendly::calendly_to_events(c).unwrap();
    assert_eq!(events.len(), 2);
    assert_eq!(events[0].title, "Team Sync");
    assert_eq!(events[0].start, 10_000);
    assert_eq!(events[0].end, 70_000);
    assert_eq!(events[0].color, "TO_BE_FILLED");
    assert_eq!(events[1].start, 120_000);
    assert_eq!(events[1].end, 180_000);
}

#[test]
fn calendly_honors_timezone_offsets() {
    let c = response(60_000, vec![spot("available", "1970-01-01T01:00:00+01:00")]);
    let events = calendly::calendly_to_events(c).unwrap();
    assert_eq!(events[0].start, 0);
}

#[test]
fn calendly_rejects_unparseable_start_times() {
    let c = response(60_000, vec![spot("available", "not-a-timestamp")]);
    match calendly::calendly_to_events(c) {
        Err(FetchError::DecodeError) => {}
        other => panic!("unexpected outcome: {:?}", other.map(|e| e.len())),
    }
}

#[test]
fn calendly_ignores_bad_times_of_unavailable_spots() {
    let c = response(60_000, vec![spot("booked", "not-a-timestamp")]);
    let events = calendly::calendly_to_events(c).unwrap();
    assert!(events.is_empty());
}

#[test]
fn calendly_discards_empty_windows() {
    let c = response(0, vec![spot("available", "1970-01-01T00:00:10+00:00")]);
    let events = calendly::calendly_to_events(c).unwrap();
    assert!(events.is_empty());
}

const GOOGLE_PAGE: &str = "window.data = [\\\"api-key-77\\\",\\\"https://calendar.google.com\\\"];<meta property=\"og:title\" content=\"Office Hours\">";

#[test]
fn google_resolve_extracts_key_and_title() {
    let info = google_cal::resolve_page(GOOGLE_PAGE).unwrap();
    assert_eq!(info.uuid, "api-key-77");
    assert_eq!(info.title, "Office Hours");
}

#[test]
fn google_resolve_reports_missing_key() {
    match google_cal::resolve_page("<meta property=\"og:title\" content=\"X\">") {
        Err(FetchError::ExtractionError { field }) => assert_eq!(field, "uuid"),
        other => panic!("unexpected outcome: {:?}", other.map(|i| i.uuid)),
    }
}

#[test]
fn google_resolve_reports_missing_title() {
    match google_cal::resolve_page("x [\\\"k\\\",\\\"https://calendar\\\"] y") {
        Err(FetchError::ExtractionError { field }) => assert_eq!(field, "name"),
        other => panic!("unexpected outcome: {:?}", other.map(|i| i.uuid)),
    }
}

#[test]
fn google_maps_slots_with_per_slot_durations() {
    let response = vec![vec![
        vec![Slot(vec!["100".to_string()], 30)],
        vec![Slot(vec!["5000".to_string()], 60)],
    ]];
    let events = google_cal::google_to_events(response, "Office Hours").unwrap();
    assert_eq!(events.len(), 2);
    assert_eq!(events[0].title, "Office Hours");
    assert_eq!(events[0].start, 100_000);
    assert_eq!(events[0].end, (100 + 30 * 60) * 1000);
    assert_eq!(events[0].color, "TO_BE_FILLED");
    assert_eq!(events[1].start, 5_000_000);
    assert_eq!(events[1].end, (5000 + 60 * 60) * 1000);
}

#[test]
fn google_rejects_slots_without_timestamps() {
    let response = vec![vec![vec![Slot(Vec::new(), 30)]]];
    match google_cal::google_to_events(response, "t") {
        Err(FetchError::DecodeError) => {}
        other => panic!("unexpected outcome: {:?}", other.map(|e| e.len())),
    }
}

#[test]
fn google_rejects_non_numeric_timestamps() {
    let response = vec![vec![vec![Slot(vec!["soon".to_string()], 30)]]];
    match google_cal::google_to_events(response, "t") {
        Err(FetchError::DecodeError) => {}
        other => panic!("unexpected outcome: {:?}", other.map(|e| e.len())),
    }
}

#[test]
fn google_discards_empty_windows() {
    let response = vec![vec![vec![Slot(vec!["100".to_string()], 0)]]];
    let events = google_cal::google_to_events(response, "t").unwrap();
    assert!(events.is_empty());
}
