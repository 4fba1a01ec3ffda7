use aw_export::time::{TimeSpan, Timestamp, MAX_TIMESTAMP, MIN_TIMESTAMP};
use chrono::{DateTime, TimeDelta, Timelike, Utc};

#[test]
fn calendar_bounds_are_those_of_chrono() {
    assert_eq!(MIN_TIMESTAMP, DateTime::<Utc>::MIN_UTC.timestamp());
    assert_eq!(MAX_TIMESTAMP, DateTime::<Utc>::MAX_UTC.timestamp());
    assert!(Timestamp::new(MIN_TIMESTAMP, 0).is_some());
    assert!(Timestamp::new(MAX_TIMESTAMP, 999_999_999).is_some());
    assert!(Timestamp::new(MIN_TIMESTAMP - 1, 999_999_999).is_none());
    assert!(Timestamp::new(MAX_TIMESTAMP + 1, 0).is_none());
    assert!(Timestamp::new(0, 1_999_999_999).is_some());
    assert!(Timestamp::new(0, 2_000_000_000).is_none());
    assert!(DateTime::<Utc>::from_timestamp(MIN_TIMESTAMP, 0).is_some());
    assert!(DateTime::<Utc>::from_timestamp(MAX_TIMESTAMP, 999_999_999).is_some());
    assert!(DateTime::<Utc>::from_timestamp(MIN_TIMESTAMP - 1, 999_999_999).is_none());
    assert!(DateTime::<Utc>::from_timestamp(MAX_TIMESTAMP + 1, 0).is_none());
}

#[test]
fn span_bounds_are_those_of_chrono() {
    for (secs, nanos) in [
        (9_223_372_036_854_775, 807_000_000),
        (9_223_372_036_854_775, 807_000_001),
        (9_223_372_036_854_776, 0),
        (-9_223_372_036_854_776, 193_000_000),
        (-9_223_372_036_854_776, 192_999_999),
        (-9_223_372_036_854_777, 999_999_999),
        (i64::MIN, 0),
        (i64::MAX, 0),
        (0, 1_000_000_000),
    ] {
        assert_eq!(TimeSpan::new(secs, nanos).is_some(), TimeDelta::new(secs, nanos).is_some());
    }
}

#[test]
fn nanoseconds_split_toward_the_past() {
    let t = Timestamp::from_nanos(-1);
    assert_eq!((t.timestamp(), t.timestamp_subsec_nanos()), (-1, 999_999_999));
    let t = Timestamp::from_nanos(1_500_000_000);
    assert_eq!((t.timestamp(), t.timestamp_subsec_nanos()), (1, 500_000_000));
    let d = TimeSpan::between(1_000_000_000, -500_000_000);
    assert_eq!((d.whole_secs(), d.subsec_nanos()), (-2, 500_000_000));
}

#[test]
fn nanoseconds_round_trip_unless_they_overflow() {
    for ns in [0, 1, -1, i64::MAX, i64::MIN, 1_500_000_000, -1_500_000_000] {
        assert_eq!(Timestamp::from_nanos(ns).timestamp_nanos_opt(), Some(ns));
    }
    assert_eq!(Timestamp::new(9_223_372_036, 854_775_808).unwrap().timestamp_nanos_opt(), None);
    assert_eq!(Timestamp::new(-9_223_372_037, 145_224_191).unwrap().timestamp_nanos_opt(), None);
    assert_eq!(
        Timestamp::new(-9_223_372_037, 145_224_192).unwrap().timestamp_nanos_opt(),
        Some(i64::MIN)
    );
}

#[test]
fn rfc3339_text() {
    assert_eq!(Timestamp::from_nanos(0).to_rfc3339(), "1970-01-01T00:00:00+00:00");
    assert_eq!(
        Timestamp::new(946_684_800, 1_000_000).unwrap().to_rfc3339(),
        "2000-01-01T00:00:00.001+00:00"
    );
}

#[test]
fn sums_and_differences() {
    let t = Timestamp::new(10, 900_000_000).unwrap();
    let later = t.plus(TimeSpan::new(2, 200_000_000).unwrap());
    assert_eq!(later, Timestamp::new(13, 100_000_000).unwrap());
    assert_eq!(later.since(t), TimeSpan::new(2, 200_000_000).unwrap());
    assert_eq!(t.since(later), TimeSpan::new(-3, 800_000_000).unwrap());
    assert!(t.is_before(&later));
    assert!(!later.is_before(&t));
    assert!(!t.is_before(&t));
    assert!(t.is_before(&Timestamp::new(10, 900_000_001).unwrap()));
    let first = Timestamp::new(MIN_TIMESTAMP, 0).unwrap();
    let last = Timestamp::new(MAX_TIMESTAMP, 999_999_999).unwrap();
    assert_eq!(first.plus(last.since(first)), last);
    assert_eq!(last.plus(first.since(last)), first);
}

#[test]
fn spans_are_ordered() {
    let spans = [
        TimeSpan::new(-2, 999_999_999).unwrap(),
        TimeSpan::new(-1, 0).unwrap(),
        TimeSpan::new(-1, 1).unwrap(),
        TimeSpan::zero(),
        TimeSpan::new(0, 1).unwrap(),
        TimeSpan::new(1, 0).unwrap(),
    ];
    for (i, a) in spans.iter().enumerate() {
        assert_eq!(a.is_negative(), i < 3);
        for (j, b) in spans.iter().enumerate() {
            assert_eq!(a.is_shorter(b), i < j);
        }
    }
}

#[test]
fn magnitude_has_no_sign() {
    for (secs, nanos, magnitude) in [
        (3, 5, (3, 5)),
        (0, 0, (0, 0)),
        (-3, 0, (3, 0)),
        (-3, 1, (2, 999_999_999)),
        (-1, 999_999_999, (0, 1)),
        (-9_223_372_036_854_776, 193_000_000, (9_223_372_036_854_775, 807_000_000)),
    ] {
        assert_eq!(TimeSpan::new(secs, nanos).unwrap().magnitude(), magnitude);
    }
}

fn date(secs: i64, nanos: u32) -> DateTime<Utc> {
    let start = DateTime::<Utc>::from_timestamp(secs, 0).unwrap().naive_utc();
    start.with_nanosecond(nanos).unwrap().and_utc()
}

#[test]
fn leap_seconds_are_written_as_such() {
    // The leap second at the end of June 2015.
    let leap = Timestamp::new(1_435_708_799, 1_500_000_000).unwrap();
    assert_eq!(leap.to_rfc3339(), "2015-06-30T23:59:60.500+00:00");
    assert_eq!(leap.timestamp(), 1_435_708_799);
    assert_eq!(leap.timestamp_subsec_nanos(), 1_500_000_000);
    assert_eq!(leap.timestamp_nanos_opt(), Some(1_435_708_800_500_000_000));
    assert!(leap.is_before(&Timestamp::new(1_435_708_800, 0).unwrap()));
    assert!(Timestamp::new(1_435_708_799, 999_999_999).unwrap().is_before(&leap));
    // Before the epoch the start of the next second has to fit too.
    assert_eq!(Timestamp::new(-9_223_372_038, 1_900_000_000).unwrap().timestamp_nanos_opt(), None);
    assert_eq!(date(-9_223_372_038, 1_900_000_000).timestamp_nanos_opt(), None);
}

/// The instant that the documented rule of leap seconds gives.
fn later(secs: i64, nanos: i64, span: i128) -> (i64, u32) {
    let leap = nanos >= 1_000_000_000;
    let within = -1_000_000_000 < span && span < 1_000_000_000;
    if leap && within && i128::from(nanos) + span < 2_000_000_000 {
        return (secs, (i128::from(nanos) + span) as u32);
    }
    let skipped = if leap && span > 0 { 1_000_000_000 } else { 0 };
    let ns = i128::from(secs) * 1_000_000_000 + i128::from(nanos) + span - skipped;
    (ns.div_euclid(1_000_000_000) as i64, ns.rem_euclid(1_000_000_000) as u32)
}

/// The span that the rule of leap seconds gives.
fn since(a: (i64, u32), b: (i64, u32)) -> i128 {
    let ns = |t: (i64, u32)| i128::from(t.0) * 1_000_000_000 + i128::from(t.1);
    let (day_a, day_b) = (a.0.rem_euclid(86_400), b.0.rem_euclid(86_400));
    let leap = if day_a > day_b && b.1 >= 1_000_000_000 {
        1_000_000_000
    } else if day_a < day_b && a.1 >= 1_000_000_000 {
        -1_000_000_000
    } else {
        0
    };
    ns(a) - ns(b) + leap
}

#[test]
fn sums_and_differences_around_leap_seconds() {
    let instants: Vec<(i64, u32)> = [-86_401i64, -1, 0, 29, 59, 60, 86_399, 86_400]
        .iter()
        .flat_map(|secs| [0, 1, 999_999_999, 1_000_000_000, 1_999_999_999].map(|n| (*secs, n)))
        .collect();
    let spans = [-90_000_000_000_000i64, -1_000_000_000, -999_999_999, -1, 0, 1, 500_000_000]
        .into_iter()
        .chain([999_999_999, 1_000_000_000, 86_400_000_000_000]);
    for span in spans {
        for (secs, nanos) in &instants {
            let t = Timestamp::new(*secs, *nanos).unwrap();
            let end = t.plus(TimeSpan::between(0, span));
            let end = (end.timestamp(), end.timestamp_subsec_nanos());
            assert_eq!(end, later(*secs, i64::from(*nanos), i128::from(span)));
            let expected = date(*secs, *nanos) + TimeDelta::nanoseconds(span);
            assert_eq!(end, (expected.timestamp(), expected.timestamp_subsec_nanos()));
        }
    }
    for a in &instants {
        for b in &instants {
            let (x, y) = (Timestamp::new(a.0, a.1).unwrap(), Timestamp::new(b.0, b.1).unwrap());
            let span = x.since(y);
            let ns = i128::from(span.whole_secs()) * 1_000_000_000 + i128::from(span.subsec_nanos());
            assert_eq!(ns, since(*a, *b));
            let expected = date(a.0, a.1) - date(b.0, b.1);
            assert_eq!(ns, i128::from(expected.num_nanoseconds().unwrap()));
            assert_eq!(x.is_before(&y), date(a.0, a.1) < date(b.0, b.1));
        }
    }
}
