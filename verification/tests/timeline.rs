use findtime::aggregate::aggregate;
use findtime::aggregate::SourceResult;
use findtime::color::attach_color;
use findtime::merge::dedup_events;
use findtime::Event;
use findtime::FetchError;

fn ev(title: &str, start: i64, end: i64, color: &str) -> Event {
    Event { title: title.to_string(), start, end, color: color.to_string() }
}

#[test]
fn touching_intervals_merge() {
    let mut events = vec![ev("a", 0, 100, "x"), ev("a", 100, 200, "x")];
    dedup_events(&mut events);
    assert_eq!(events, vec![ev("a", 0, 200, "x")]);
}

#[test]
fn overlapping_intervals_keep_first_color() {
    let mut events = vec![ev("first", 0, 100, "A"), ev("second", 50, 150, "B")];
    dedup_events(&mut events);
    assert_eq!(events, vec![ev("first", 0, 150, "A")]);
}

#[test]
fn contained_interval_is_absorbed() {
    let mut events = vec![ev("a", 0, 1000, "A"), ev("b", 200, 300, "B")];
    dedup_events(&mut events);
    assert_eq!(events, vec![ev("a", 0, 1000, "A")]);
}

#[test]
fn disjoint_intervals_unchanged_in_order() {
    let input = vec![ev("s", 0, 10, "A"), ev("s", 20, 30, "A"), ev("s", 40, 50, "A")];
    let mut events = input.clone();
    dedup_events(&mut events);
    assert_eq!(events, input);
}

#[test]
fn unsorted_input_is_sorted() {
    let mut events = vec![ev("b", 40, 50, "B"), ev("a", 0, 10, "A"), ev("c", 20, 30, "C")];
    dedup_events(&mut events);
    assert_eq!(
        events,
        vec![ev("a", 0, 10, "A"), ev("c", 20, 30, "C"), ev("b", 40, 50, "B")]
    );
}

#[test]
fn dedup_is_idempotent_on_concrete_input() {
    let mut once = vec![
        ev("a", 0, 100, "A"),
        ev("b", 90, 200, "B"),
        ev("c", 300, 400, "C"),
    ];
    dedup_events(&mut once);
    let mut twice = once.clone();
    dedup_events(&mut twice);
    assert_eq!(once, twice);
}

#[test]
fn empty_input_stays_empty() {
    let mut events: Vec<Event> = Vec::new();
    dedup_events(&mut events);
    assert!(events.is_empty());
}

#[test]
fn dedup_output_is_sorted_and_maximal() {
    let mut events = vec![
        ev("a", 500, 600, "A"),
        ev("b", 0, 120, "B"),
        ev("c", 100, 250, "C"),
        ev("d", 250, 260, "D"),
        ev("e", 700, 800, "E"),
    ];
    dedup_events(&mut events);
    for pair in events.windows(2) {
        assert!(pair[0].start <= pair[1].start);
        assert!(pair[0].end < pair[1].start);
    }
    assert_eq!(events, vec![ev("b", 0, 260, "B"), ev("a", 500, 600, "A"), ev("e", 700, 800, "E")]);
}

#[test]
fn attach_color_cycles_palette() {
    let palette = ["#9D68AF", "#32B579", "#E67B73", "#E4C441"];
    for i in 0..6usize {
        let tagged = attach_color(vec![ev("t", 0, 10, "TO_BE_FILLED")], i);
        assert_eq!(tagged.len(), 1);
        assert_eq!(tagged[0].color, palette[i % 4]);
        assert_eq!(tagged[0].title, "t");
        assert_eq!(tagged[0].start, 0);
        assert_eq!(tagged[0].end, 10);
    }
}

#[test]
fn aggregate_colors_follow_request_position() {
    // Five sources, handed to the aggregator in request order; the
    // outcomes could have arrived in any completion order without
    // changing anything below, because the color comes from the stored
    // request position alone.
    let results: Vec<SourceResult> = (0..5usize)
        .map(|i| SourceResult::ok(i, vec![ev("s", 1000 * i as i64, 1000 * i as i64 + 10, "")]))
        .collect();
    let timeline = aggregate(results);
    let palette = ["#9D68AF", "#32B579", "#E67B73", "#E4C441"];
    assert_eq!(timeline.events.len(), 5);
    for (i, e) in timeline.events.iter().enumerate() {
        assert_eq!(e.color, palette[i % 4]);
    }
    // The fifth source cycles back to the first palette entry.
    assert_eq!(timeline.events[4].color, palette[0]);
}

#[test]
fn failed_source_does_not_taint_siblings() {
    let results = vec![
        SourceResult::ok(0, vec![ev("a", 0, 10, "")]),
        SourceResult::failed(1, FetchError::TransportError),
        SourceResult::ok(2, vec![ev("c", 20, 30, "")]),
    ];
    let timeline = aggregate(results);
    assert_eq!(timeline.events.len(), 2);
    assert_eq!(timeline.events[0].title, "a");
    assert_eq!(timeline.events[0].color, "#9D68AF");
    assert_eq!(timeline.events[1].title, "c");
    assert_eq!(timeline.events[1].color, "#E67B73");
}

#[test]
fn all_failed_sources_yield_empty_timeline() {
    let results = vec![
        SourceResult::failed(0, FetchError::TransportError),
        SourceResult::failed(1, FetchError::DecodeError),
    ];
    let timeline = aggregate(results);
    assert!(timeline.events.is_empty());
}

#[test]
fn empty_request_yields_empty_timeline() {
    let timeline = aggregate(Vec::new());
    assert!(timeline.events.is_empty());
}

#[test]
fn aggregate_merges_across_sources_first_source_wins() {
    let results = vec![
        SourceResult::ok(0, vec![ev("first", 0, 100, "")]),
        SourceResult::ok(1, vec![ev("second", 50, 150, "")]),
    ];
    let timeline = aggregate(results);
    assert_eq!(timeline.events.len(), 1);
    assert_eq!(timeline.events[0].title, "first");
    assert_eq!(timeline.events[0].start, 0);
    assert_eq!(timeline.events[0].end, 150);
    assert_eq!(timeline.events[0].color, "#9D68AF");
}
