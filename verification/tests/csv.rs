use aw_export::csv::{
    csv_escape, csv_io_err, csv_query_err, duration_csv, event_field_value, neutralize_formula,
    write_csv_event, write_csv_from_events, write_csv_header, write_csv_record, EventsCsv,
    QueryStage,
};
use aw_export::error::DatastoreError;
use aw_export::event::{parse_event_row, Event, EventRow, RowError};
use aw_export::time::{TimeSpan, Timestamp};
use serde_json::Value;

fn strings(fields: &[&str]) -> Vec<String> {
    fields.iter().map(|f| f.to_string()).collect()
}

fn object(text: &str) -> serde_json::Map<String, Value> {
    serde_json::from_str(text).unwrap()
}

fn event(id: Option<i64>, start: i64, length: i64, data: &str) -> Event {
    Event {
        id,
        timestamp: Timestamp::from_nanos(start),
        duration: TimeSpan::between(0, length),
        data: object(data),
    }
}

fn row(id: i64, starttime: i64, endtime: i64, data: &str) -> Result<EventRow, RowError> {
    Ok(EventRow { id, starttime, endtime, data: data.to_string() })
}

/// Reads a document as RFC 4180 has it.
fn read(text: &str) -> Vec<Vec<String>> {
    let mut records = Vec::new();
    let mut fields = Vec::new();
    let mut field = String::new();
    let mut quoted = false;
    let mut chars = text.chars().peekable();
    while let Some(c) = chars.next() {
        if quoted {
            if c != '"' {
                field.push(c);
            } else if chars.peek() == Some(&'"') {
                chars.next();
                field.push('"');
            } else {
                quoted = false;
            }
        } else if c == '"' && field.is_empty() {
            quoted = true;
        } else if c == ',' {
            fields.push(std::mem::take(&mut field));
        } else if c == '\n' {
            fields.push(std::mem::take(&mut field));
            records.push(std::mem::take(&mut fields));
        } else {
            field.push(c);
        }
    }
    records
}

#[test]
fn csv_duration_preserves_sub_millisecond_nanos() {
    assert_eq!(duration_csv(&TimeSpan::between(0, 1_500_000)), "0.001500000");
    assert_eq!(duration_csv(&TimeSpan::between(0, 1_000_000)), "0.001000000");
    assert_eq!(duration_csv(&TimeSpan::new(0, 0).unwrap()), "0.000000000");
}

#[test]
fn csv_duration_of_other_spans() {
    assert_eq!(duration_csv(&TimeSpan::between(0, -1_500_000_000)), "-1.500000000");
    assert_eq!(duration_csv(&TimeSpan::between(0, -1)), "-0.000000001");
    assert_eq!(duration_csv(&TimeSpan::between(0, i64::MAX)), "9223372036.854775807");
    assert_eq!(duration_csv(&TimeSpan::between(0, i64::MIN)), "-9223372036.854775808");
    // Spans whose nanoseconds overflow 64 bits are exact too.
    assert_eq!(duration_csv(&TimeSpan::new(9_223_372_037, 0).unwrap()), "9223372037.000000000");
    assert_eq!(
        duration_csv(&TimeSpan::new(10_000_000_000, 0).unwrap()),
        "10000000000.000000000"
    );
    assert_eq!(
        duration_csv(&TimeSpan::new(-10_000_000_000, 500_000_000).unwrap()),
        "-9999999999.500000000"
    );
    assert_eq!(
        duration_csv(&TimeSpan::new(9_223_372_036_854_775, 807_000_000).unwrap()),
        "9223372036854775.807000000"
    );
}

#[test]
fn csv_escape_neutralizes_formula_prefixes_and_quotes_rfc4180() {
    assert_eq!(csv_escape("plain"), "plain");
    assert_eq!(csv_escape("=1+1"), "'=1+1");
    assert_eq!(csv_escape("+cmd"), "'+cmd");
    assert_eq!(csv_escape("-1+1"), "'-1+1");
    assert_eq!(csv_escape("@SUM(A1)"), "'@SUM(A1)");
    assert_eq!(csv_escape("A \"quoted\" title"), "\"A \"\"quoted\"\" title\"");
    assert_eq!(csv_escape("=1,2"), "\"'=1,2\"");
}

#[test]
fn csv_escape_of_line_ends_and_tabs() {
    assert_eq!(csv_escape(""), "");
    assert_eq!(csv_escape("\tx"), "'\tx");
    assert_eq!(csv_escape("\rx"), "\"'\rx\"");
    assert_eq!(csv_escape("a\nb"), "\"a\nb\"");
    assert_eq!(csv_escape("a\rb"), "\"a\rb\"");
    assert_eq!(csv_escape("\""), "\"\"\"\"");
    assert_eq!(csv_escape("a=1"), "a=1");
    assert_eq!(csv_escape("☀"), "☀");
}

#[test]
fn neutralizing_twice_is_neutralizing_once() {
    for s in ["", "=x", "x", "'=x", "-", "\r"] {
        let once = neutralize_formula(s);
        assert_eq!(neutralize_formula(&once), once);
    }
}

#[test]
fn csv_record_reads_back() {
    let fields = ["a,b", "", "\"", "=x", "line\nend\r", "plain", "\"quoted\""];
    let mut out = String::from("kept\n");
    write_csv_record(&mut out, &strings(&fields));
    let expected: Vec<String> = fields.iter().map(|f| neutralize_formula(f)).collect();
    assert_eq!(read(&out), vec![strings(&["kept"]), expected]);
}

#[test]
fn csv_record_of_no_and_one_field() {
    let mut out = String::new();
    write_csv_record(&mut out, &strings(&[]));
    write_csv_record(&mut out, &strings(&["x"]));
    assert_eq!(out, "\nx\n");
}

#[test]
fn csv_header_has_three_fixed_columns() {
    let mut out = String::new();
    write_csv_header(&mut out, &strings(&[]));
    write_csv_header(&mut out, &strings(&["app", "a,b"]));
    assert_eq!(out, "id,timestamp,duration\nid,timestamp,duration,app,\"a,b\"\n");
}

#[test]
fn event_field_is_text_or_json() {
    let e = event(
        None,
        0,
        0,
        "{\"s\": \"a \\\"b\\\"\", \"n\": 1.5, \"z\": null, \"l\": [1, true], \"o\": {\"k\": \"v\"}}",
    );
    assert_eq!(event_field_value(&e, "s"), "a \"b\"");
    assert_eq!(event_field_value(&e, "n"), "1.5");
    assert_eq!(event_field_value(&e, "z"), "null");
    assert_eq!(event_field_value(&e, "l"), "[1,true]");
    assert_eq!(event_field_value(&e, "o"), "{\"k\":\"v\"}");
    assert_eq!(event_field_value(&e, "missing"), "");
}

#[test]
fn csv_event_record() {
    let mut out = String::new();
    let e = event(Some(-7), 1_500_000_000, 250_000_000, "{\"b\": \"x\", \"a\": [1]}");
    write_csv_event(&mut out, &e, &strings(&["a", "b", "c"]));
    assert_eq!(out, "'-7,1970-01-01T00:00:01.500+00:00,0.250000000,[1],x,\n");
    let mut out = String::new();
    let e = event(None, 0, 0, "{}");
    write_csv_event(&mut out, &e, &strings(&[]));
    assert_eq!(out, ",1970-01-01T00:00:00+00:00,0.000000000\n");
}

#[test]
fn columns_are_the_keys_of_the_first_event() {
    let mut out = String::new();
    let events = [
        event(Some(1), 0, 0, "{\"title\": \"t\", \"app\": \"a\", \"App\": 1}"),
        event(Some(2), 0, 0, "{\"other\": \"o\", \"title\": \"u\"}"),
    ];
    write_csv_from_events(&events, &mut out);
    assert_eq!(
        out,
        "id,timestamp,duration,App,app,title\n\
         1,1970-01-01T00:00:00+00:00,0.000000000,1,a,t\n\
         2,1970-01-01T00:00:00+00:00,0.000000000,,,u\n"
    );
}

#[test]
fn csv_of_no_events_is_a_header() {
    let mut out = String::new();
    write_csv_from_events(&[], &mut out);
    assert_eq!(out, "id,timestamp,duration\n");
}

#[test]
fn every_record_is_as_long_as_the_header_and_no_formula() {
    let mut out = String::new();
    let events = [
        event(Some(-1), 0, -5, "{\"=k\": \"=v\", \"a\": \"+1\\n,\\\"\"}"),
        event(Some(2), 5, 5, "{\"a\": -3, \"x\": \"@y\"}"),
    ];
    write_csv_from_events(&events, &mut out);
    let records = read(&out);
    assert_eq!(records.len(), 3);
    for record in &records {
        assert_eq!(record.len(), 5);
        for field in record {
            assert!(!field.starts_with(['=', '+', '-', '@', '\t', '\r']), "{field}");
        }
    }
    assert_eq!(records[0][3], "'=k");
    assert_eq!(records[1][4], "'+1\n,\"");
}

#[test]
fn rows_are_cut_to_the_range() {
    let stored = row(3, -10, 10, "{\"k\": 1}").unwrap();
    let whole = parse_event_row(&stored, None).unwrap();
    assert_eq!(whole, event(Some(3), -10, 20, "{\"k\": 1}"));
    assert_eq!(parse_event_row(&stored, Some((-10, 10))).unwrap(), whole);
    assert_eq!(
        parse_event_row(&stored, Some((0, 5))).unwrap(),
        event(Some(3), 0, 5, "{\"k\": 1}")
    );
    let widest = row(1, i64::MIN, i64::MAX, "{}").unwrap();
    let e = parse_event_row(&widest, None).unwrap();
    assert_eq!(e.duration, TimeSpan::between(i64::MIN, i64::MAX));
    assert_eq!(duration_csv(&e.duration), "18446744073.709551615");
}

#[test]
fn rows_without_an_object_are_corrupt() {
    for data in ["invalid json", "", "[1]", "null", "\"text\"", "{\"a\": 1"] {
        let stored = row(1, 0, 1, data).unwrap();
        assert_eq!(parse_event_row(&stored, None), Err(RowError::InvalidData));
    }
}

#[test]
fn streamed_document_is_that_of_the_valid_events() {
    let rows = [
        row(9, 0, 1, "invalid json"),
        row(1, 30, 40, "{\"b\": \"=1\", \"a\": 2}"),
        Err(RowError::Unreadable("bad column".to_string())),
        row(2, -5, 12, "{\"c\": 1}"),
    ];
    let mut streamed = String::new();
    let mut csv = EventsCsv::new(0, 35);
    let written: Vec<_> = rows.iter().map(|r| csv.write_row(r, &mut streamed)).collect();
    csv.finish(&mut streamed);
    assert_eq!(
        written,
        vec![
            Err(RowError::InvalidData),
            Ok(()),
            Err(RowError::Unreadable("bad column".to_string())),
            Ok(())
        ]
    );
    let mut at_once = String::new();
    let events = [
        event(Some(1), 30, 5, "{\"b\": \"=1\", \"a\": 2}"),
        event(Some(2), 0, 12, "{\"c\": 1}"),
    ];
    write_csv_from_events(&events, &mut at_once);
    assert_eq!(streamed, at_once);
}

#[test]
fn streamed_document_without_events_is_a_header() {
    let mut out = String::new();
    let mut csv = EventsCsv::new(0, i64::MAX);
    assert!(csv.write_row(&row(1, 0, 0, "no"), &mut out).is_err());
    assert_eq!(out, "");
    csv.finish(&mut out);
    assert_eq!(out, "id,timestamp,duration\n");
}

#[test]
fn csv_write_failures_are_internal_errors() {
    assert_eq!(
        csv_io_err("disk full"),
        DatastoreError::InternalError("Failed to write CSV export: disk full".to_string())
    );
}

#[test]
fn query_errors_name_the_stage() {
    for (stage, message) in [
        (QueryStage::Prepare, "Failed to prepare CSV export SQL: locked"),
        (QueryStage::Query, "Failed to query CSV export SQL: locked"),
        (QueryStage::Read, "Failed to read CSV export row: locked"),
    ] {
        assert_eq!(
            csv_query_err(stage, "locked"),
            DatastoreError::InternalError(message.to_string())
        );
    }
}
