use event_filter::event::Event;
use event_filter::filter::{filter_events, select_within, text_filter};
use event_filter::text::contains_substring;

fn ev(id: &str, title: &str, description: &str, city: &str, lat_e7: i64, lon_e7: i64, tags: &str) -> Event {
    Event::new(
        String::from(id),
        String::from(title),
        String::from(description),
        String::from(city),
        lat_e7,
        lon_e7,
        String::from("2024-06-01"),
        String::from(tags),
        String::from("https://example.test/e"),
    )
}

fn jazz_night() -> Event {
    ev("e1", "Jazz Night", "", "Paris", 488_566_000, 23_522_000, "music,live")
}

fn ids(events: &[Event]) -> Vec<String> {
    events.iter().map(|e| e.id.clone()).collect()
}

#[test]
fn test_query_jazz_included() {
    let events = vec![jazz_night()];
    let out = filter_events(&events, None, Some("jazz"));
    assert_eq!(ids(&out), vec![String::from("e1")]);
}

#[test]
fn test_query_opera_excluded() {
    let events = vec![jazz_night()];
    let out = filter_events(&events, None, Some("opera"));
    assert!(out.is_empty());
}

#[test]
fn test_query_is_case_insensitive_both_ways() {
    let events = vec![
        ev("up", "JAZZ NIGHT", "", "Paris", 0, 0, ""),
        ev("low", "jazz night", "", "Paris", 0, 0, ""),
    ];
    let upper = filter_events(&events, None, Some("JaZz"));
    assert_eq!(ids(&upper), vec![String::from("up"), String::from("low")]);
    let lower = filter_events(&events, None, Some("jazz"));
    assert_eq!(ids(&lower), vec![String::from("up"), String::from("low")]);
}

#[test]
fn test_query_matches_partial_word_in_city() {
    let events = vec![jazz_night()];
    let out = filter_events(&events, None, Some("par"));
    assert_eq!(ids(&out), vec![String::from("e1")]);
}

#[test]
fn test_query_matches_tags_and_description() {
    let events = vec![
        ev("t", "Quiet Evening", "", "Lyon", 0, 0, "music,live"),
        ev("d", "Quiet Evening", "open air concert", "Lyon", 0, 0, ""),
    ];
    assert_eq!(ids(&filter_events(&events, None, Some("live"))), vec![String::from("t")]);
    assert_eq!(ids(&filter_events(&events, None, Some("open air"))), vec![String::from("d")]);
}

#[test]
fn test_no_filters_returns_all_in_order() {
    let events = vec![
        ev("a", "One", "", "X", 0, 0, ""),
        ev("b", "Two", "", "Y", 10, 10, ""),
        ev("c", "Three", "", "Z", 20, 20, ""),
    ];
    let out = filter_events(&events, None, None);
    assert_eq!(out, events);
}

#[test]
fn test_empty_query_returns_all_in_order() {
    let events = vec![
        ev("a", "One", "", "X", 0, 0, ""),
        ev("b", "Two", "", "Y", 10, 10, ""),
    ];
    let out = filter_events(&events, None, Some(""));
    assert_eq!(out, events);
}

#[test]
fn test_empty_collection() {
    let events: Vec<Event> = Vec::new();
    assert!(filter_events(&events, None, Some("jazz")).is_empty());
    assert!(filter_events(&events, None, None).is_empty());
}

#[test]
fn test_flag_selection_keeps_flagged_in_order() {
    let events = vec![
        ev("a", "One", "", "X", 0, 0, ""),
        ev("b", "Two", "", "Y", 10, 10, ""),
        ev("c", "Three", "", "Z", 20, 20, ""),
    ];
    let flags = vec![true, false, true];
    let out = filter_events(&events, Some(&flags), None);
    assert_eq!(ids(&out), vec![String::from("a"), String::from("c")]);
    let direct = select_within(&events, &flags);
    assert_eq!(out, direct);
}

#[test]
fn test_all_flags_false_yields_empty() {
    let events = vec![jazz_night()];
    let flags = vec![false];
    assert!(filter_events(&events, Some(&flags), None).is_empty());
}

#[test]
fn test_composition_is_intersection() {
    let events = vec![
        ev("near_match", "Jazz Brunch", "", "Paris", 0, 0, ""),
        ev("near_other", "Opera Gala", "", "Paris", 0, 0, ""),
        ev("far_match", "Jazz Cruise", "", "London", 0, 0, ""),
        ev("far_other", "Ballet", "", "London", 0, 0, ""),
    ];
    let flags = vec![true, true, false, false];
    let geo_only = filter_events(&events, Some(&flags), None);
    let text_only = filter_events(&events, None, Some("jazz"));
    let both = filter_events(&events, Some(&flags), Some("jazz"));
    assert_eq!(ids(&both), vec![String::from("near_match")]);
    for e in &both {
        assert!(geo_only.contains(e) && text_only.contains(e));
    }
    for e in &geo_only {
        if text_only.contains(e) {
            assert!(both.contains(e));
        }
    }
}

#[test]
fn test_duplicate_events_are_kept() {
    let events = vec![jazz_night(), jazz_night()];
    let out = filter_events(&events, None, Some("jazz"));
    assert_eq!(out.len(), 2);
}

#[test]
fn test_search_string_joins_fields_with_single_spaces() {
    let e = jazz_night();
    assert_eq!(e.search_string(), String::from("Jazz Night music,live  Paris"));
}

#[test]
fn test_contains_substring_direct() {
    assert!(contains_substring("hello world", "lo wo"));
    assert!(contains_substring("hello world", ""));
    assert!(contains_substring("", ""));
    assert!(!contains_substring("", "a"));
    assert!(!contains_substring("hello", "world"));
    assert!(!contains_substring("abc", "abcd"));
    assert!(contains_substring("abc", "abc"));
}

#[test]
fn test_text_filter_direct_lowercases_needle() {
    let events = vec![jazz_night()];
    let out = text_filter(&events, "MUSIC,LIVE");
    assert_eq!(out.len(), 1);
}

#[test]
fn test_clone_equals_original() {
    let e = jazz_night();
    assert_eq!(e.clone(), e);
}
