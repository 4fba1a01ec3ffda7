use std::str::FromStr;

use aw_export::event::Event;
use aw_export::merge::merge_subwatcher_fields;
use aw_export::time::{TimeSpan, Timestamp};
use chrono::{DateTime, Utc};
use serde_json::Value;

fn ts(s: &str) -> Timestamp {
    let t: DateTime<Utc> = DateTime::from_str(s).unwrap();
    Timestamp::new(t.timestamp(), t.timestamp_subsec_nanos()).unwrap()
}

fn seconds(n: i64) -> TimeSpan {
    TimeSpan::new(n, 0).unwrap()
}

fn nanoseconds(n: i64) -> TimeSpan {
    TimeSpan::between(0, n)
}

fn json(s: &str) -> Value {
    Value::from(s)
}

fn json_map(entries: &[(&str, &str)]) -> serde_json::Map<String, Value> {
    let mut map = serde_json::Map::new();
    for (key, value) in entries {
        map.insert(key.to_string(), json(value));
    }
    map
}

fn event(timestamp: Timestamp, duration: TimeSpan, data: &[(&str, &str)]) -> Event {
    Event { id: None, timestamp, duration, data: json_map(data) }
}

fn keys(names: &[&str]) -> Vec<String> {
    names.iter().map(|n| n.to_string()).collect()
}

#[test]
fn test_basic_merge() {
    let base = vec![event(ts("2000-01-01T00:00:00Z"), seconds(10), &[("app", "vim")])];
    let sub = vec![event(
        ts("2000-01-01T00:00:02Z"),
        seconds(5),
        &[("project", "gptme"), ("file", "main.rs"), ("language", "Rust")],
    )];
    let result = merge_subwatcher_fields(
        base,
        sub,
        &["project".to_string(), "file".to_string(), "language".to_string()],
        "base_wins",
    );
    assert_eq!(result.len(), 1);
    assert_eq!(result[0].data.get("app").unwrap(), &json("vim"));
    assert_eq!(result[0].data.get("project").unwrap(), &json("gptme"));
    assert_eq!(result[0].data.get("file").unwrap(), &json("main.rs"));
    assert_eq!(result[0].data.get("language").unwrap(), &json("Rust"));
    // Timestamps/durations unchanged
    assert_eq!(result[0].timestamp, ts("2000-01-01T00:00:00Z"));
    assert_eq!(result[0].duration, seconds(10));
}

#[test]
fn test_no_overlap() {
    let base = vec![event(ts("2000-01-01T00:00:00Z"), seconds(5), &[("app", "firefox")])];
    let sub = vec![event(ts("2000-01-01T00:00:10Z"), seconds(5), &[("project", "other")])];
    let result = merge_subwatcher_fields(base, sub, &["project".to_string()], "base_wins");
    assert_eq!(result.len(), 1);
    assert_eq!(result[0].data.get("app").unwrap(), &json("firefox"));
    assert!(result[0].data.get("project").is_none());
}

#[test]
fn test_base_wins_conflict() {
    let base = vec![event(ts("2000-01-01T00:00:00Z"), seconds(10), &[("project", "base-project")])];
    let sub = vec![event(ts("2000-01-01T00:00:02Z"), seconds(5), &[("project", "sub-project")])];
    let result = merge_subwatcher_fields(base, sub, &["project".to_string()], "base_wins");
    assert_eq!(result[0].data.get("project").unwrap(), &json("base-project"));
}

#[test]
fn test_sub_wins_conflict() {
    let base = vec![event(ts("2000-01-01T00:00:00Z"), seconds(10), &[("file", "old.rs")])];
    let sub = vec![event(ts("2000-01-01T00:00:02Z"), seconds(5), &[("file", "new.rs")])];
    let result = merge_subwatcher_fields(base, sub, &["file".to_string()], "sub_wins");
    assert_eq!(result[0].data.get("file").unwrap(), &json("new.rs"));
}

#[test]
fn test_attach_longest_overlap() {
    // sub_short overlaps for 1s, sub_long overlaps for 9s
    let base = vec![event(ts("2000-01-01T00:00:00Z"), seconds(10), &[("app", "vim")])];
    let sub_short = event(ts("2000-01-01T00:00:00Z"), seconds(1), &[("project", "short")]);
    let sub_long = event(ts("2000-01-01T00:00:01Z"), seconds(9), &[("project", "long")]);
    let result = merge_subwatcher_fields(
        base,
        vec![sub_short, sub_long],
        &["project".to_string()],
        "base_wins",
    );
    assert_eq!(result[0].data.get("project").unwrap(), &json("long"));
}

#[test]
fn test_empty_subwatcher_events() {
    let base = vec![event(ts("2000-01-01T00:00:00Z"), seconds(10), &[("app", "vim")])];
    let result = merge_subwatcher_fields(base, vec![], &["project".to_string()], "base_wins");
    assert_eq!(result.len(), 1);
    assert_eq!(result[0].data.get("app").unwrap(), &json("vim"));
}

#[test]
fn test_empty_keys() {
    let base = vec![event(ts("2000-01-01T00:00:00Z"), seconds(10), &[("app", "vim")])];
    let sub = vec![event(ts("2000-01-01T00:00:02Z"), seconds(5), &[("project", "gptme")])];
    let result = merge_subwatcher_fields(base, sub, &[], "base_wins");
    assert_eq!(result.len(), 1);
    // Empty keys: no enrichment
    assert_eq!(result[0].data.get("app").unwrap(), &json("vim"));
    assert!(result[0].data.get("project").is_none());
}

#[test]
fn test_multiple_base_events() {
    let base = vec![
        event(ts("2000-01-01T00:00:00Z"), seconds(5), &[("app", "vim")]),
        event(ts("2000-01-01T00:00:05Z"), seconds(5), &[("app", "firefox")]),
    ];
    let sub = vec![event(ts("2000-01-01T00:00:02Z"), seconds(8), &[("project", "gptme")])];
    let result = merge_subwatcher_fields(base, sub, &["project".to_string()], "base_wins");
    assert_eq!(result.len(), 2);
    // First base event overlaps with sub
    assert_eq!(result[0].data.get("project").unwrap(), &json("gptme"));
    // Second base event also overlaps with sub
    assert_eq!(result[1].data.get("project").unwrap(), &json("gptme"));
}

fn project_of(base: Event, subs: Vec<Event>) -> Option<Value> {
    let result = merge_subwatcher_fields(vec![base], subs, &keys(&["project"]), "base_wins");
    assert_eq!(result.len(), 1);
    result[0].data.get("project").cloned()
}

#[test]
fn equal_overlap_goes_to_the_earlier_start() {
    let base = event(ts("2000-01-01T00:00:00Z"), seconds(10), &[]);
    // Both overlap by 4 s; the later one stands first in the list.
    let late = event(ts("2000-01-01T00:00:05Z"), seconds(4), &[("project", "late")]);
    let early = event(ts("2000-01-01T00:00:01Z"), seconds(4), &[("project", "early")]);
    assert_eq!(project_of(base, vec![late, early]), Some(json("early")));
}

#[test]
fn equal_start_goes_to_the_first_in_the_list() {
    let base = event(ts("2000-01-01T00:00:00Z"), seconds(10), &[]);
    let one = event(ts("2000-01-01T00:00:01Z"), seconds(4), &[("project", "one")]);
    let two = event(ts("2000-01-01T00:00:01Z"), seconds(4), &[("project", "two")]);
    assert_eq!(project_of(base.clone(), vec![one.clone(), two.clone()]), Some(json("one")));
    assert_eq!(project_of(base, vec![two, one]), Some(json("two")));
}

#[test]
fn overlap_counts_to_the_nanosecond() {
    let base = event(ts("2000-01-01T00:00:00Z"), seconds(10), &[]);
    let short = event(ts("2000-01-01T00:00:00Z"), nanoseconds(1_200_000), &[("project", "short")]);
    let longer = event(ts("2000-01-01T00:00:01Z"), nanoseconds(1_900_000), &[("project", "longer")]);
    let subs = vec![short.clone(), longer.clone()];
    assert_eq!(project_of(base.clone(), subs), Some(json("longer")));
    assert_eq!(project_of(base.clone(), vec![longer, short]), Some(json("longer")));
    let tiny = event(ts("2000-01-01T00:00:00Z"), nanoseconds(1), &[("project", "tiny")]);
    assert_eq!(project_of(base.clone(), vec![tiny]), Some(json("tiny")));
    let none = event(ts("2000-01-01T00:00:00Z"), nanoseconds(0), &[("project", "none")]);
    assert_eq!(project_of(base, vec![none]), None);
}

#[test]
fn adjacent_events_do_not_overlap() {
    let base = event(ts("2000-01-01T00:00:10Z"), seconds(10), &[]);
    let before = event(ts("2000-01-01T00:00:00Z"), seconds(10), &[("project", "before")]);
    let after = event(ts("2000-01-01T00:00:20Z"), seconds(10), &[("project", "after")]);
    assert_eq!(project_of(base, vec![before, after]), None);
}

#[test]
fn negative_durations_overlap_nothing() {
    let base = event(ts("2000-01-01T00:00:10Z"), seconds(-5), &[]);
    let sub = event(ts("2000-01-01T00:00:00Z"), seconds(60), &[("project", "x")]);
    assert_eq!(project_of(base, vec![sub]), None);
}

#[test]
fn many_unordered_subwatcher_events() {
    let base = event(ts("2000-01-01T00:00:00Z"), seconds(1000), &[]);
    let start = ts("2000-01-01T00:00:00Z");
    let mut subs = Vec::new();
    for i in 0..97i64 {
        // Starts are shuffled; the event that starts after 60 s is the longest.
        let at = (i * 37) % 97;
        let length = if at == 60 { 9 } else { 3 };
        subs.push(Event {
            id: Some(i),
            timestamp: start.plus(seconds(at)),
            duration: seconds(length),
            data: json_map(&[("project", &at.to_string())]),
        });
    }
    assert_eq!(project_of(base.clone(), subs.clone()), Some(json("60")));
    subs.retain(|e| e.duration == seconds(3));
    assert_eq!(project_of(base, subs), Some(json("0")));
}

#[test]
fn only_named_fields_are_copied() {
    let base = event(ts("2000-01-01T00:00:00Z"), seconds(10), &[("app", "vim"), ("file", "a")]);
    let sub = event(
        ts("2000-01-01T00:00:00Z"),
        seconds(10),
        &[("app", "other"), ("file", "b"), ("project", "p"), ("language", "Rust")],
    );
    let names = keys(&["file", "project", "missing", "file"]);
    let kept = merge_subwatcher_fields(vec![base.clone()], vec![sub.clone()], &names, "base_wins");
    assert_eq!(kept[0].data, json_map(&[("app", "vim"), ("file", "a"), ("project", "p")]));
    let taken = merge_subwatcher_fields(vec![base], vec![sub], &names, "sub_wins");
    assert_eq!(taken[0].data, json_map(&[("app", "vim"), ("file", "b"), ("project", "p")]));
}

#[test]
fn merging_again_changes_nothing() {
    let base = event(ts("2000-01-01T00:00:00Z"), seconds(10), &[("file", "a")]);
    let sub = event(ts("2000-01-01T00:00:03Z"), seconds(10), &[("file", "b"), ("project", "p")]);
    for conflict in ["base_wins", "sub_wins"] {
        let names = keys(&["file", "project"]);
        let once =
            merge_subwatcher_fields(vec![base.clone()], vec![sub.clone()], &names, conflict);
        let twice = merge_subwatcher_fields(once.clone(), vec![sub.clone()], &names, conflict);
        assert_eq!(once, twice);
    }
}

#[test]
fn ids_are_kept() {
    let mut base = event(ts("2000-01-01T00:00:00Z"), seconds(10), &[]);
    base.id = Some(7);
    let sub = event(ts("2000-01-01T00:00:00Z"), seconds(10), &[("project", "p")]);
    let result = merge_subwatcher_fields(vec![base], vec![sub], &keys(&["project"]), "sub_wins");
    assert_eq!(result[0].id, Some(7));
}

#[test]
fn a_leap_second_counts() {
    // 11:59:60 to 12:00:05; one event lies in the leap second, the other after it.
    let noon = ts("2016-06-30T12:00:00Z");
    let leap = Timestamp::new(noon.timestamp() - 1, 1_000_000_000).unwrap();
    let base = event(leap, seconds(6), &[]);
    let within = event(leap, nanoseconds(900_000_000), &[("project", "within")]);
    let after = event(noon, nanoseconds(800_000_000), &[("project", "after")]);
    assert_eq!(project_of(base.clone(), vec![after.clone(), within.clone()]), Some(json("within")));
    let longer = event(noon, seconds(1), &[("project", "longer")]);
    assert_eq!(project_of(base, vec![within, longer]), Some(json("longer")));
    let inside = event(leap, nanoseconds(500_000_000), &[]);
    assert_eq!(project_of(inside, vec![after]), None);
}
