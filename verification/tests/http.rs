use aw_export::error::DatastoreError;
use aw_export::http::{
    content_disposition, export_filename, sanitize_header_value, BucketEventsCsvRocket,
    BucketsExportRocket, HttpErrorJson, ResponseHead,
};
use aw_export::time::Timestamp;

#[test]
fn content_disposition_quotes_the_filename() {
    // Spaces are legal in bucket ids; an unquoted filename= parameter with a
    // space is malformed and clients may drop it.
    assert_eq!(
        content_disposition("aw-events-export-my bucket.csv"),
        "attachment; filename=\"aw-events-export-my bucket.csv\""
    );
    assert_eq!(
        content_disposition("aw-buckets-export.json"),
        "attachment; filename=\"aw-buckets-export.json\""
    );
}

#[test]
fn sanitize_header_value_strips_header_metacharacters() {
    assert_eq!(sanitize_header_value("aw-watcher-window_host"), "aw-watcher-window_host");
    // CR/LF would split the header; quote/backslash/semicolon would end or
    // re-parameterize the filename value.
    assert_eq!(sanitize_header_value("evil\r\nX-Injected: 1"), "evil__X-Injected: 1");
    assert_eq!(sanitize_header_value("a\"b\\c;d"), "a_b_c_d");
}

#[test]
fn every_control_character_is_replaced_and_no_other() {
    for code in 0..=0x10ffffu32 {
        if let Some(c) = char::from_u32(code) {
            let unsafe_char = c.is_control() || c == '"' || c == '\\' || c == ';';
            let expected = if unsafe_char { '_' } else { c };
            assert_eq!(sanitize_header_value(&c.to_string()), expected.to_string());
        }
    }
}

#[test]
fn a_hostile_filename_stays_one_header_value() {
    let value = content_disposition("a\"; filename=\"b\\\r\n\u{85}☀");
    assert_eq!(value, "attachment; filename=\"a__ filename=_b____☀\"");
    assert_eq!(value.matches('"').count(), 2);
    assert_eq!(value.matches(';').count(), 1);
}

fn ids(names: &[&str]) -> Vec<String> {
    names.iter().map(|n| n.to_string()).collect()
}

#[test]
fn export_filename_names_the_bucket() {
    assert_eq!(
        export_filename(Some("win\ndow"), Ok(ids(&["win\ndow"]))).unwrap(),
        "attachment; filename=\"aw-bucket-export_win_dow.json\""
    );
    assert_eq!(
        export_filename(None, Ok(ids(&["only"]))).unwrap(),
        "attachment; filename=\"aw-bucket-export_only.json\""
    );
    for names in [vec![], ids(&["a", "b"])] {
        assert_eq!(
            export_filename(None, Ok(names)).unwrap(),
            "attachment; filename=\"aw-buckets-export.json\""
        );
    }
}

#[test]
fn export_of_a_missing_bucket_is_not_found() {
    let missing = DatastoreError::NoSuchBucket("x".to_string());
    let err = BucketsExportRocket::new("handle", Some("x"), Err(missing)).err().unwrap();
    assert_eq!(err, HttpErrorJson::new(404, "The requested bucket 'x' does not exist".to_string()));
}

#[test]
fn export_keeps_what_was_asked_for() {
    let export = BucketsExportRocket::new("handle", Some("x"), Ok(ids(&["x"]))).ok().unwrap();
    assert_eq!(export.datastore, "handle");
    assert_eq!(export.bucket_id, Some("x".to_string()));
    assert_eq!(export.filename, "attachment; filename=\"aw-bucket-export_x.json\"");
    let export = BucketsExportRocket::new((), None, Ok(ids(&["x", "y"]))).ok().unwrap();
    assert_eq!(export.bucket_id, None);
    assert_eq!(export.filename, "attachment; filename=\"aw-buckets-export.json\"");
}

#[test]
fn csv_export_keeps_what_was_asked_for() {
    let start = Some(Timestamp::from_nanos(5));
    let export = BucketEventsCsvRocket::new(
        "handle",
        "my bucket",
        start,
        None,
        Some(3),
        Ok(()),
        Ok(()),
        Ok(17u8),
    )
    .ok()
    .unwrap();
    assert_eq!(export.datastore, "handle");
    assert_eq!(export.bucket_id, "my bucket");
    assert_eq!(export.start, start);
    assert_eq!(export.end, None);
    assert_eq!(export.limit, Some(3));
    assert_eq!(export.staging, 17);
    assert_eq!(export.filename, "attachment; filename=\"aw-events-export-my bucket.csv\"");
}

#[test]
fn csv_export_answers_the_first_failure() {
    let lookups = [Ok(()), Err(DatastoreError::NoSuchBucket("x".to_string()))];
    let probes = [Ok(()), Err(DatastoreError::MpscError)];
    let stagings = [Ok(17u8), Err("disk full".to_string())];
    for found in &lookups {
        for probed in &probes {
            for staging in &stagings {
                let r = BucketEventsCsvRocket::new(
                    (),
                    "x",
                    None,
                    None,
                    None,
                    found.clone(),
                    probed.clone(),
                    staging.clone(),
                );
                let expected = if found.is_err() {
                    Some((404, "The requested bucket 'x' does not exist"))
                } else if probed.is_err() {
                    Some((500, "Unexpected Mpsc error!"))
                } else if staging.is_err() {
                    Some((500, "Failed to create CSV staging file: disk full"))
                } else {
                    None
                };
                let answer = r.err();
                assert_eq!(
                    answer,
                    expected.map(|(status, m)| HttpErrorJson::new(status, m.to_string()))
                );
            }
        }
    }
}

#[test]
fn datastore_errors_are_answered() {
    let s = || "s".to_string();
    for (err, status, message) in [
        (DatastoreError::NoSuchBucket(s()), 404, "The requested bucket 's' does not exist"),
        (DatastoreError::BucketAlreadyExists(s()), 304, "Bucket 's' already exists"),
        (DatastoreError::NoSuchKey(s()), 404, "The requested key(s) 's' do not exist"),
        (DatastoreError::MpscError, 500, "Unexpected Mpsc error!"),
        (DatastoreError::InternalError(s()), 500, "s"),
        (DatastoreError::Uninitialized(s()), 500, "s"),
        (DatastoreError::OldDbVersion(s()), 500, "s"),
    ] {
        assert_eq!(HttpErrorJson::from(err), HttpErrorJson::new(status, message.to_string()));
    }
}

#[test]
fn error_body_is_a_json_object() {
    let err = HttpErrorJson::new(500, "a \"b\" \\ c\n☀".to_string());
    assert_eq!(err.body(), "{\"message\":\"a \\\"b\\\" \\\\ c\\n☀\"}");
    assert_eq!(
        err.response_head(),
        ResponseHead {
            status: 500,
            content_type: "application/json".to_string(),
            content_disposition: None,
        }
    );
}

#[test]
fn every_character_is_escaped_as_json_asks() {
    for code in 0..=0x2fffu32 {
        if let Some(c) = char::from_u32(code) {
            let escaped = match c {
                '"' => "\\\"".to_string(),
                '\\' => "\\\\".to_string(),
                '\u{8}' => "\\b".to_string(),
                '\t' => "\\t".to_string(),
                '\n' => "\\n".to_string(),
                '\u{c}' => "\\f".to_string(),
                '\r' => "\\r".to_string(),
                c if code < 0x20 => format!("\\u{:04x}", c as u32),
                c => c.to_string(),
            };
            let body = HttpErrorJson::new(500, c.to_string()).body();
            assert_eq!(body, format!("{{\"message\":\"{escaped}\"}}"));
            let value: serde_json::Value = serde_json::from_str(&body).unwrap();
            assert_eq!(value["message"], c.to_string());
        }
    }
}

#[test]
fn downloads_are_announced() {
    let export = BucketsExportRocket::new((), Some("x"), Ok(ids(&["x"]))).ok().unwrap();
    assert_eq!(
        export.response_head(),
        ResponseHead {
            status: 200,
            content_type: "application/json".to_string(),
            content_disposition: Some(
                "attachment; filename=\"aw-bucket-export_x.json\"".to_string()
            ),
        }
    );
    let export =
        BucketEventsCsvRocket::new((), "x", None, None, None, Ok(()), Ok(()), Ok(())).ok().unwrap();
    assert_eq!(
        export.response_head(),
        ResponseHead {
            status: 200,
            content_type: "text/csv".to_string(),
            content_disposition: Some(
                "attachment; filename=\"aw-events-export-x.csv\"".to_string()
            ),
        }
    );
}
