use std::io::Write;

use aw_export::csv::{write_csv_from_events, EventsCsv};
use aw_export::error::DatastoreError;
use aw_export::event::{Event, EventRow, RowError};
use aw_export::export::{
    check_selection, export_err, export_event, export_query_sql, export_range, exports,
    write_export, ExportWriter,
};
use aw_export::query::{
    event_filter, events_query_sql, write_csv_rows, write_events_csv, Bucket, Buckets, EventFilter,
};
use aw_export::time::{TimeSpan, Timestamp};
use rusqlite::Connection;
use serde_json::Value;

fn parse(text: &str) -> Value {
    serde_json::from_str(text).unwrap()
}

fn bucket(bid: i64, id: &str) -> Bucket {
    let mut metadata = parse(
        "{\"type\": \"test\", \"client\": \"test\", \"hostname\": \"host\", \"created\": null, \
         \"data\": {}, \"metadata\": {\"start\": null, \"end\": null}, \"events\": null}",
    );
    metadata["id"] = Value::from(id);
    Bucket { bid: Some(bid), id: id.to_string(), metadata }
}

fn insert(conn: &Connection, bid: i64, start: i64, end: i64, data: &str) {
    conn.execute(
        "INSERT INTO events(bucketrow,starttime,endtime,data) VALUES(?1,?2,?3,?4)",
        (bid, start, end, data),
    )
    .unwrap();
}

fn setup() -> (Connection, Buckets) {
    let conn = Connection::open_in_memory().unwrap();
    conn.execute_batch(
        "CREATE TABLE events (
            id INTEGER PRIMARY KEY AUTOINCREMENT,
            bucketrow INTEGER NOT NULL,
            starttime INTEGER NOT NULL,
            endtime INTEGER NOT NULL,
            data TEXT NOT NULL
        );
        CREATE INDEX events_bucketrow_starttime_endtime_index
            ON events(bucketrow, starttime, endtime);
        CREATE INDEX events_bucketrow_endtime_starttime_index
            ON events(bucketrow, endtime, starttime);",
    )
    .unwrap();
    let mut buckets = Buckets::new();
    buckets.insert(bucket(1, "populated"));
    buckets.insert(bucket(2, "empty"));
    for (start, duration) in [(-10, 20), (5, 20), (5, 10), (5, 10), (30, 0)] {
        insert(
            &conn,
            1,
            start * 1_000_000_000,
            (start + duration) * 1_000_000_000,
            "{\"text\": \"quotes \\\" and unicode ☀\", \"nested\": [1, true]}",
        );
    }
    insert(&conn, 1, 6_000_000_000, 7_000_000_000, "invalid json");
    (conn, buckets)
}

fn rows(conn: &Connection, sql: &str, params: impl rusqlite::Params) -> Vec<Result<EventRow, RowError>> {
    let mut stmt = conn.prepare(sql).unwrap();
    let mut rows = stmt.query(params).unwrap();
    let mut all = Vec::new();
    while let Some(row) = rows.next().unwrap() {
        all.push(Ok(EventRow {
            id: row.get(0).unwrap(),
            starttime: row.get(1).unwrap(),
            endtime: row.get(2).unwrap(),
            data: row.get(3).unwrap(),
        }));
    }
    all
}

fn csv_rows(conn: &Connection, filter: &EventFilter, prefer_endtime_index: bool) -> Vec<Result<EventRow, RowError>> {
    rows(
        conn,
        events_query_sql(prefer_endtime_index),
        (filter.bucketrow, filter.starttime, filter.endtime, filter.limit),
    )
}

fn export_rows(conn: &Connection, bid: i64) -> Vec<Result<EventRow, RowError>> {
    rows(conn, export_query_sql(), (bid, i64::MAX))
}

fn events_of(rows: &[Result<EventRow, RowError>]) -> Vec<Event> {
    rows.iter().filter_map(|row| export_event(row.clone()).ok()).collect()
}

fn event_json(event: &Event) -> Value {
    let mut map = serde_json::Map::new();
    let seconds = event.duration.whole_secs() as f64 + f64::from(event.duration.subsec_nanos()) / 1e9;
    map.insert("id".to_string(), Value::from(event.id));
    map.insert("timestamp".to_string(), Value::from(event.timestamp.to_rfc3339()));
    map.insert("duration".to_string(), Value::from(seconds));
    map.insert("data".to_string(), Value::Object(event.data.clone()));
    Value::Object(map)
}

fn event_texts(rows: &[Result<EventRow, RowError>]) -> Vec<Result<String, RowError>> {
    rows.iter()
        .map(|row| export_event(row.clone()).map(|e| event_json(&e).to_string()))
        .collect()
}

#[test]
fn streamed_json_matches_materialized_exports() {
    let (conn, buckets) = setup();
    let texts: Vec<_> =
        [1, 2].iter().map(|bid| event_texts(&export_rows(&conn, *bid))).collect();
    for selected in [None, Some("populated"), Some("empty")] {
        let mut expected = serde_json::Map::new();
        for i in 0..buckets.len() {
            let bucket = buckets.at(i);
            if selected.is_none() || selected == Some(bucket.id.as_str()) {
                let mut value = bucket.metadata.clone();
                let events = events_of(&export_rows(&conn, bucket.bid.unwrap()));
                value["events"] = events.iter().map(event_json).collect();
                expected.insert(bucket.id.clone(), value);
            }
        }
        let mut document = serde_json::Map::new();
        document.insert("buckets".to_string(), Value::Object(expected));
        let mut output = String::new();
        write_export(&buckets, &texts, selected, &mut output).unwrap();
        assert_eq!(parse(&output), Value::Object(document));
    }
}

#[test]
fn missing_bucket_and_writer_failures_propagate() {
    let (conn, buckets) = setup();
    let texts: Vec<_> =
        [1, 2].iter().map(|bid| event_texts(&export_rows(&conn, *bid))).collect();
    let mut output = String::new();
    assert!(matches!(
        write_export(&buckets, &texts, Some("missing"), &mut output),
        Err(DatastoreError::NoSuchBucket(_))
    ));
    assert!(output.is_empty());
    struct FailingWriter(usize);
    impl Write for FailingWriter {
        fn write(&mut self, bytes: &[u8]) -> std::io::Result<usize> {
            if self.0 == 0 {
                return Err(std::io::Error::new(std::io::ErrorKind::Other, "disk full"));
            }
            let n = bytes.len().min(self.0);
            self.0 -= n;
            Ok(n)
        }
        fn flush(&mut self) -> std::io::Result<()> {
            Ok(())
        }
    }
    write_export(&buckets, &texts, None, &mut output).unwrap();
    let failure = FailingWriter(500)
        .write_all(output.as_bytes())
        .map_err(|err| export_err(&err.to_string()));
    assert!(matches!(failure, Err(DatastoreError::InternalError(_))));
    assert_eq!(
        failure.unwrap_err(),
        DatastoreError::InternalError("Failed to write export: disk full".to_string())
    );
}

#[test]
fn streamed_csv_preserves_precision_neutralizes_formulas_and_rejects_missing() {
    let (conn, buckets) = setup();
    insert(&conn, 2, 0, 1_500_000, "{\"app\": \"firefox\", \"title\": \"=cmd|calc\"}");

    let filter = event_filter(&buckets, "empty", None, None, None).unwrap().unwrap();
    let fetched = csv_rows(&conn, &filter, false);
    let mut csv = String::new();
    write_events_csv(&buckets, "empty", None, None, None, &fetched, &mut csv).unwrap();
    assert!(csv.starts_with("id,timestamp,duration,"), "{csv}");
    assert!(csv.contains("0.001500000"), "duration: {csv}");
    assert!(csv.contains("'=cmd|calc"), "formula: {csv}");

    let mut missing = String::new();
    assert!(matches!(
        write_events_csv(&buckets, "missing", None, None, None, &fetched, &mut missing),
        Err(DatastoreError::NoSuchBucket(_))
    ));
    assert!(missing.is_empty());
}

#[test]
fn streamed_csv_matches_get_events_row_count() {
    let (conn, buckets) = setup();
    let events = events_of(&export_rows(&conn, 1));
    let filter = event_filter(&buckets, "populated", None, None, None).unwrap().unwrap();
    let fetched = csv_rows(&conn, &filter, false);
    let mut csv = String::new();
    write_events_csv(&buckets, "populated", None, None, None, &fetched, &mut csv).unwrap();
    assert_eq!(csv.lines().count(), events.len() + 1, "{csv}");
    assert!(csv.contains("\"quotes \"\" and unicode ☀\""), "{csv}");

    let mut at_once = String::new();
    write_csv_from_events(&events, &mut at_once);
    assert_eq!(csv, at_once);
}

#[test]
fn both_indexes_give_the_same_document() {
    let (conn, buckets) = setup();
    let start = Some(Timestamp::from_nanos(6_000_000_000));
    let end = Some(Timestamp::from_nanos(29_000_000_000));
    let filter = event_filter(&buckets, "populated", start, end, Some(2)).unwrap().unwrap();
    assert_eq!(
        filter,
        EventFilter {
            bucketrow: 1,
            starttime: 6_000_000_000,
            endtime: 29_000_000_000,
            limit: 2
        }
    );
    let mut by_start = String::new();
    let mut by_end = String::new();
    write_csv_rows(
        filter.starttime,
        filter.endtime,
        filter.limit,
        &csv_rows(&conn, &filter, false),
        &mut by_start,
    );
    write_csv_rows(
        filter.starttime,
        filter.endtime,
        filter.limit,
        &csv_rows(&conn, &filter, true),
        &mut by_end,
    );
    assert_eq!(by_start, by_end);
    // The corrupt row counts toward the limit; the other row is cut to the range.
    assert_eq!(
        by_start,
        "id,timestamp,duration,nested,text\n\
         3,1970-01-01T00:00:06+00:00,9.000000000,\"[1,true]\",\"quotes \"\" and unicode ☀\"\n"
    );
}

#[test]
fn event_filter_of_bounds_and_limits() {
    let (_, buckets) = setup();
    let at = |ns| Some(Timestamp::from_nanos(ns));
    assert_eq!(
        event_filter(&buckets, "empty", None, None, None).unwrap(),
        Some(EventFilter { bucketrow: 2, starttime: 0, endtime: i64::MAX, limit: -1 })
    );
    assert_eq!(
        event_filter(&buckets, "empty", at(-5), at(-5), Some(u64::MAX - 1)).unwrap(),
        Some(EventFilter { bucketrow: 2, starttime: -5, endtime: -5, limit: -2 })
    );
    assert_eq!(
        event_filter(&buckets, "empty", None, None, Some(i64::MAX as u64)).unwrap().unwrap().limit,
        i64::MAX
    );
    assert_eq!(event_filter(&buckets, "empty", at(6), at(5), None).unwrap(), None);
    assert_eq!(
        event_filter(&buckets, "missing", at(6), at(5), None),
        Err(DatastoreError::NoSuchBucket("missing".to_string()))
    );
}

#[test]
fn empty_range_is_a_header() {
    let (_, buckets) = setup();
    let mut out = String::new();
    let before = Some(Timestamp::new(-1, 0).unwrap());
    let rows = vec![Ok(EventRow { id: 1, starttime: 0, endtime: 1, data: "{}".to_string() })];
    write_events_csv(&buckets, "populated", None, before, None, &rows, &mut out).unwrap();
    assert_eq!(out, "id,timestamp,duration\n");
}

#[test]
fn buckets_keep_one_of_each_id() {
    let mut buckets = Buckets::new();
    assert_eq!(buckets.len(), 0);
    assert_eq!(buckets.position("a"), None);
    buckets.insert(bucket(1, "a"));
    buckets.insert(bucket(2, "b"));
    buckets.insert(bucket(3, "a"));
    assert_eq!(buckets.len(), 2);
    assert_eq!(buckets.position("a"), Some(0));
    assert_eq!(buckets.position("b"), Some(1));
    assert_eq!(buckets.at(0).bid, Some(3));
}

#[test]
fn export_document_is_framed() {
    let mut buckets = Buckets::new();
    buckets.insert(Bucket {
        bid: None,
        id: "q\"".to_string(),
        metadata: parse("{\"b\": 1, \"events\": [5], \"a\": \"x\"}"),
    });
    buckets.insert(Bucket { bid: None, id: "e".to_string(), metadata: parse("{\"events\": null}") });
    let texts = vec![
        vec![Ok("{\"id\":1}".to_string()), Err(RowError::InvalidData), Ok("2".to_string())],
        vec![],
    ];
    let mut out = String::from("before ");
    write_export(&buckets, &texts, None, &mut out).unwrap();
    assert_eq!(
        out,
        "before {\"buckets\":{\
         \"q\\\"\":{\"a\":\"x\",\"b\":1,\"events\":[{\"id\":1},2]},\
         \"e\":{\"events\":[]}}}"
    );
    let mut one = String::new();
    write_export(&buckets, &texts, Some("e"), &mut one).unwrap();
    assert_eq!(one, "{\"buckets\":{\"e\":{\"events\":[]}}}");
}

#[test]
fn export_of_no_buckets_is_an_empty_object() {
    let mut out = String::new();
    write_export(&Buckets::new(), &vec![], None, &mut out).unwrap();
    assert_eq!(out, "{\"buckets\":{}}");
}

#[test]
fn export_rejects_metadata_that_is_no_object() {
    let mut buckets = Buckets::new();
    buckets.insert(bucket(1, "a"));
    buckets.insert(Bucket { bid: None, id: "b".to_string(), metadata: Value::from(3) });
    let texts = vec![vec![], vec![]];
    let mut out = String::new();
    assert_eq!(
        write_export(&buckets, &texts, None, &mut out),
        Err(DatastoreError::InternalError(
            "Failed to write export: invalid bucket metadata".to_string()
        ))
    );
    assert!(out.ends_with("\"events\":[]},\"b\":"), "{out}");
    out.clear();
    assert!(write_export(&buckets, &texts, Some("a"), &mut out).is_ok());
}

#[test]
fn pieces_make_up_the_document() {
    let (conn, buckets) = setup();
    let texts: Vec<_> =
        [1, 2].iter().map(|bid| event_texts(&export_rows(&conn, *bid))).collect();
    let mut pieces = String::new();
    let mut writer = ExportWriter::begin(&mut pieces);
    for i in 0..buckets.len() {
        writer.begin_bucket(buckets.at(i), &mut pieces).unwrap();
        for text in &texts[i] {
            writer.write_event(text, &mut pieces);
        }
        writer.end_bucket(&mut pieces);
    }
    writer.finish(&mut pieces);
    let mut whole = String::new();
    write_export(&buckets, &texts, None, &mut whole).unwrap();
    assert_eq!(pieces, whole);
}

#[test]
fn export_cuts_events_to_the_default_range() {
    let (conn, _) = setup();
    let events = events_of(&export_rows(&conn, 1));
    let spans: Vec<_> = events
        .iter()
        .map(|e| (e.timestamp.timestamp(), e.duration.whole_secs()))
        .collect();
    assert_eq!(spans, vec![(30, 0), (5, 10), (5, 10), (5, 20), (0, 10)]);
    assert_eq!(events[4].timestamp, Timestamp::from_nanos(0));
    assert_eq!(events[4].duration, TimeSpan::new(10, 0).unwrap());
}

#[test]
fn export_reports_corrupt_rows() {
    assert_eq!(export_range(), (0, i64::MAX));
    let corrupt = EventRow { id: 1, starttime: 0, endtime: 1, data: "[1]".to_string() };
    assert_eq!(export_event(Ok(corrupt)), Err(RowError::InvalidData));
    let unreadable = RowError::Unreadable("bad column".to_string());
    assert_eq!(export_event(Err(unreadable.clone())), Err(unreadable));
}

#[test]
fn a_selection_has_to_exist() {
    let (_, buckets) = setup();
    assert_eq!(check_selection(&buckets, None), Ok(()));
    assert_eq!(check_selection(&buckets, Some("empty")), Ok(()));
    assert_eq!(
        check_selection(&buckets, Some("missing")),
        Err(DatastoreError::NoSuchBucket("missing".to_string()))
    );
    assert!(exports(buckets.at(0), None));
    assert!(exports(buckets.at(0), Some("populated")));
    assert!(!exports(buckets.at(0), Some("empty")));
}

#[test]
fn different_ids_have_different_keys() {
    let mut buckets = Buckets::new();
    for (bid, id) in ["a\"", "a\\\"", "a\n", "a\\n", "a\u{1}", "a\\u0001"].iter().enumerate() {
        buckets.insert(bucket(bid as i64, id));
    }
    let texts = vec![Vec::new(); buckets.len()];
    let mut out = String::new();
    write_export(&buckets, &texts, None, &mut out).unwrap();
    let document = parse(&out);
    let exported = document["buckets"].as_object().unwrap();
    assert_eq!(exported.len(), 6);
    for i in 0..buckets.len() {
        assert_eq!(exported[&buckets.at(i).id]["id"], Value::from(buckets.at(i).id.as_str()));
    }
}

fn csv_of(conn: &Connection, buckets: &Buckets, limit: Option<u64>) -> String {
    let filter = event_filter(buckets, "populated", None, None, limit).unwrap().unwrap();
    let mut out = String::new();
    let rows = csv_rows(conn, &filter, false);
    write_events_csv(buckets, "populated", None, None, limit, &rows, &mut out).unwrap();
    out
}

#[test]
fn a_limit_gives_the_first_records() {
    let (conn, buckets) = setup();
    let all = csv_of(&conn, &buckets, None);
    let all: Vec<&str> = all.lines().skip(1).collect();
    assert_eq!(all.len(), 5);
    // The corrupt row comes second and uses up one of the limit.
    for (limit, count) in [(0, 0), (1, 1), (2, 1), (3, 2), (6, 5), (7, 5), (u64::MAX, 5)] {
        let some = csv_of(&conn, &buckets, Some(limit));
        let some: Vec<&str> = some.lines().skip(1).collect();
        assert_eq!(some, all[..count]);
    }
}

#[test]
fn rows_make_up_the_csv_document() {
    let (conn, buckets) = setup();
    for id in ["populated", "empty"] {
        let filter = event_filter(&buckets, id, None, None, None).unwrap().unwrap();
        let rows = csv_rows(&conn, &filter, false);
        let mut whole = String::new();
        write_csv_rows(filter.starttime, filter.endtime, filter.limit, &rows, &mut whole);
        let mut csv = EventsCsv::new(filter.starttime, filter.endtime);
        let mut sent = String::new();
        for row in &rows {
            let mut piece = String::new();
            let _ = csv.write_row(row, &mut piece);
            sent.push_str(&piece);
        }
        csv.finish(&mut sent);
        assert_eq!(sent, whole);
    }
}

#[test]
fn no_more_rows_are_taken_than_the_limit_says() {
    let (conn, buckets) = setup();
    let filter = event_filter(&buckets, "populated", None, None, None).unwrap().unwrap();
    let rows = csv_rows(&conn, &filter, false);
    for limit in [None, Some(0), Some(3), Some(6), Some(u64::MAX)] {
        let mut out = String::new();
        write_events_csv(&buckets, "populated", None, None, limit, &rows, &mut out).unwrap();
        assert_eq!(out.lines().skip(1).collect::<Vec<_>>(), {
            let expected = csv_of(&conn, &buckets, limit);
            expected.lines().skip(1).map(str::to_string).collect::<Vec<_>>()
        });
    }
}

#[test]
fn metadata_values_of_every_kind_are_json() {
    let numbers: Vec<f64> = vec![
        0.0, -0.0, 1.0, -1.5, 1e-7, 5e-324, 1.7976931348623157e308, 1e15, 1e16, 1e17, 1e21, 5e20,
        123456789.125, 0.1, 2.5e-10, 1e-5, 1e-6, 9007199254740993.0,
    ];
    let mut metadata = parse("{\"n\": null, \"t\": [true, false, {}], \"s\": \"\\u0001\\\"\"}");
    metadata["numbers"] = numbers.iter().map(|n| Value::from(*n)).collect();
    metadata["big"] = Value::from(u64::MAX);
    metadata["small"] = Value::from(i64::MIN);
    let mut buckets = Buckets::new();
    buckets.insert(Bucket { bid: None, id: "b".to_string(), metadata: metadata.clone() });
    let mut out = String::new();
    write_export(&buckets, &vec![vec![]], None, &mut out).unwrap();
    metadata["events"] = Value::Array(vec![]);
    assert_eq!(parse(&out)["buckets"]["b"], metadata);
    for n in numbers {
        assert!(is_json_number(&Value::from(n).to_string()), "{n}");
    }
}

fn is_json_number(text: &str) -> bool {
    let text = text.strip_prefix('-').unwrap_or(text);
    let (mantissa, exponent) = text.split_once(['e', 'E']).unwrap_or((text, "0"));
    let (whole, fraction) = mantissa.split_once('.').unwrap_or((mantissa, "0"));
    let exponent = exponent.strip_prefix(['+', '-']).unwrap_or(exponent);
    let digits = |s: &str| !s.is_empty() && s.bytes().all(|b| b.is_ascii_digit());
    digits(whole)
        && (whole == "0" || !whole.starts_with('0'))
        && digits(fraction)
        && digits(exponent)
}
