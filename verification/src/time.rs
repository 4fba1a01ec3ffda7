//! Instants and spans of time with nanosecond precision.
//!
//! An instant is a number of seconds and a number of nanoseconds since the start of
//! that second, which may run on for a second more: a leap second. A span is whole
//! seconds and a non-negative nanosecond part. Both hold what `chrono` can
//! represent, and the arithmetic and the formatting of calendar dates are `chrono`'s.

use vstd::prelude::*;

verus! {

pub const NANOS_PER_SEC: u32 = 1_000_000_000;

/// The first second of the calendar, at the start of the year -262143.
pub const MIN_TIMESTAMP: i64 = -8_334_601_228_800;

/// The last second of the calendar, at the end of the year 262142.
pub const MAX_TIMESTAMP: i64 = 8_210_266_876_799;

/// The bound, on both sides, of a span in milliseconds.
pub const MAX_SPAN_MILLIS: i64 = 0x7fff_ffff_ffff_ffff;

/// The nanoseconds in `secs` seconds and `nanos` nanoseconds.
pub open spec fn as_nanos(secs: int, nanos: int) -> int {
    secs * 1_000_000_000 + nanos
}

/// An instant: seconds since the Unix epoch that are not leap seconds, and
/// nanoseconds since the start of the last one. In a leap second these go beyond a
/// second.
pub struct Instant {
    pub secs: int,
    pub nanos: int,
}

impl Instant {
    /// The nanoseconds since the Unix epoch. A leap second has those of the second
    /// that follows it.
    pub open spec fn ns(self) -> int {
        as_nanos(self.secs, self.nanos)
    }

    /// Whether the instant lies in a leap second.
    pub open spec fn is_leap(self) -> bool {
        self.nanos >= 1_000_000_000
    }

    /// Whether the instant lies before another.
    pub open spec fn before(self, other: Instant) -> bool {
        self.secs < other.secs || (self.secs == other.secs && self.nanos < other.nanos)
    }

    /// The instant a span of nanoseconds later. There is no leap second but the one
    /// that the instant may lie in.
    pub open spec fn later(self, span: int) -> Instant {
        if self.is_leap() && -1_000_000_000 < span < 1_000_000_000 && self.nanos + span
            < 2_000_000_000 {
            Instant { secs: self.secs, nanos: self.nanos + span }
        } else if self.is_leap() && span > 0 {
            instant_at(self.ns() + span - 1_000_000_000)
        } else {
            instant_at(self.ns() + span)
        }
    }

    /// The nanoseconds from another instant to this one. A leap second that either
    /// lies in counts if the other time of day lies beyond it.
    pub open spec fn since(self, other: Instant) -> int {
        let day = 86_400;
        let leap = if self.secs % day > other.secs % day && other.is_leap() {
            1_000_000_000int
        } else if self.secs % day < other.secs % day && self.is_leap() {
            -1_000_000_000
        } else {
            0
        };
        self.ns() - other.ns() + leap
    }
}

/// The instant so many nanoseconds after the Unix epoch, in no leap second.
pub open spec fn instant_at(ns: int) -> Instant {
    Instant { secs: ns / 1_000_000_000, nanos: ns % 1_000_000_000 }
}

/// Whether `chrono` gives an instant as nanoseconds in a signed integer of 64 bits:
/// it takes those of the second after an instant before the epoch, which have to fit
/// too.
pub open spec fn has_nanos(i: Instant) -> bool {
    fits_i64(i.ns()) && (i.secs < 0 ==> fits_i64(as_nanos(i.secs + 1, 0)))
}

/// Whether the calendar reaches an instant.
pub open spec fn in_calendar(i: Instant) -> bool {
    MIN_TIMESTAMP <= i.secs <= MAX_TIMESTAMP
}

/// Whether a number of nanoseconds is a span of at most `MAX_SPAN_MILLIS`
/// milliseconds.
pub open spec fn in_span(ns: int) -> bool {
    -MAX_SPAN_MILLIS * 1_000_000 <= ns <= MAX_SPAN_MILLIS * 1_000_000
}

/// Whether a number fits a signed integer of 64 bits.
pub open spec fn fits_i64(n: int) -> bool {
    i64::MIN <= n <= i64::MAX
}

/// An instant within the calendar.
#[derive(Clone, Copy, Debug, PartialEq, Eq, Structural)]
pub struct Timestamp {
    secs: i64,
    nanos: u32,
}

/// A signed span of time.
#[derive(Clone, Copy, Debug, PartialEq, Eq, Structural)]
pub struct TimeSpan {
    secs: i64,
    nanos: u32,
}

/// Whether the calendar has an instant of so many seconds and nanoseconds.
pub open spec fn is_timestamp(secs: int, nanos: int) -> bool {
    MIN_TIMESTAMP <= secs <= MAX_TIMESTAMP && 0 <= nanos < 2_000_000_000
}

/// What `DateTime::to_rfc3339` writes for the instant of so many seconds and
/// nanoseconds, in UTC.
pub uninterp spec fn rfc3339(secs: int, nanos: int) -> Seq<char>;

/// `chrono::DateTime::<Utc>::to_rfc3339`. The text depends on the instant
/// alone; what it is on a given instant is not stated.
#[verifier::external_body]
fn chrono_to_rfc3339(secs: i64, nanos: u32) -> (s: String)
    requires
        is_timestamp(secs as int, nanos as int),
    ensures
        s@ == rfc3339(secs as int, nanos as int),
{
    let date = chrono::DateTime::<chrono::Utc>::from_timestamp(secs, 0).unwrap().naive_utc();
    let date = chrono::Timelike::with_nanosecond(&date, nanos).unwrap().and_utc();
    date.to_rfc3339()
}

/// `chrono::DateTime::timestamp_nanos_opt`: the nanoseconds since the Unix
/// epoch, unless they overflow 64 bits. Before the epoch it also gives none where the
/// start of the next second overflows.
#[verifier::external_body]
fn chrono_timestamp_nanos_opt(secs: i64, nanos: u32) -> (r: Option<i64>)
    requires
        is_timestamp(secs as int, nanos as int),
    ensures
        r == if has_nanos(Instant { secs: secs as int, nanos: nanos as int }) {
            Some(as_nanos(secs as int, nanos as int) as i64)
        } else {
            None
        },
{
    let date = chrono::DateTime::<chrono::Utc>::from_timestamp(secs, 0).unwrap().naive_utc();
    let date = chrono::Timelike::with_nanosecond(&date, nanos).unwrap().and_utc();
    date.timestamp_nanos_opt()
}

/// `DateTime + TimeDelta` of `chrono`: the instant that lies a span after
/// another, as seconds and nanoseconds. It panics beyond the calendar, so the
/// sum has to lie within it.
#[verifier::external_body]
fn chrono_add(secs: i64, nanos: u32, span_secs: i64, span_nanos: u32) -> (r: (i64, u32))
    requires
        is_timestamp(secs as int, nanos as int),
        span_nanos < NANOS_PER_SEC,
        in_span(as_nanos(span_secs as int, span_nanos as int)),
        in_calendar(
            (Instant { secs: secs as int, nanos: nanos as int }).later(
                as_nanos(span_secs as int, span_nanos as int),
            ),
        ),
    ensures
        (Instant { secs: r.0 as int, nanos: r.1 as int }) == (Instant {
            secs: secs as int,
            nanos: nanos as int,
        }).later(as_nanos(span_secs as int, span_nanos as int)),
{
    let start = chrono::DateTime::<chrono::Utc>::from_timestamp(secs, 0).unwrap().naive_utc();
    let start = chrono::Timelike::with_nanosecond(&start, nanos).unwrap().and_utc();
    let end = start + chrono::TimeDelta::new(span_secs, span_nanos).unwrap();
    (end.timestamp(), end.timestamp_subsec_nanos())
}

/// `DateTime - DateTime` of `chrono`: the span from the second instant to the
/// first, as seconds and nanoseconds of one sign.
#[verifier::external_body]
fn chrono_sub(secs: i64, nanos: u32, from_secs: i64, from_nanos: u32) -> (r: (i64, i32))
    requires
        is_timestamp(secs as int, nanos as int),
        is_timestamp(from_secs as int, from_nanos as int),
    ensures
        as_nanos(r.0 as int, r.1 as int) == (Instant {
            secs: secs as int,
            nanos: nanos as int,
        }).since(Instant { secs: from_secs as int, nanos: from_nanos as int }),
{
    let end = chrono::DateTime::<chrono::Utc>::from_timestamp(secs, 0).unwrap().naive_utc();
    let end = chrono::Timelike::with_nanosecond(&end, nanos).unwrap().and_utc();
    let start = chrono::DateTime::<chrono::Utc>::from_timestamp(from_secs, 0).unwrap().naive_utc();
    let start = chrono::Timelike::with_nanosecond(&start, from_nanos).unwrap().and_utc();
    let span = end - start;
    (span.num_seconds(), span.subsec_nanos())
}

/// A number of nanoseconds as seconds, rounded down, and what is left.
fn split_nanos(ns: i128) -> (r: (i64, u32))
    requires
        in_span(ns as int),
    ensures
        r.1 < NANOS_PER_SEC,
        as_nanos(r.0 as int, r.1 as int) == ns,
{
    if ns >= 0 {
        ((ns / 1_000_000_000) as i64, (ns % 1_000_000_000) as u32)
    } else {
        let rest: i128 = -(ns + 1);
        (-((rest / 1_000_000_000) as i64) - 1, 999_999_999 - (rest % 1_000_000_000) as u32)
    }
}

impl View for Timestamp {
    type V = Instant;

    closed spec fn view(&self) -> Instant {
        Instant { secs: self.secs as int, nanos: self.nanos as int }
    }
}

impl Timestamp {
    #[verifier::type_invariant]
    closed spec fn valid(self) -> bool {
        is_timestamp(self.secs as int, self.nanos as int)
    }

    /// The instant as nanoseconds since the Unix epoch.
    pub open spec fn ns(self) -> int {
        self@.ns()
    }

    /// The instant `secs` seconds and `nanos` nanoseconds after the Unix
    /// epoch, if it lies within the calendar. From a second on, the nanoseconds are
    /// those of a leap second.
    pub fn new(secs: i64, nanos: u32) -> (r: Option<Timestamp>)
        ensures
            r is Some <==> is_timestamp(secs as int, nanos as int),
            r matches Some(t) ==> t@ == (Instant { secs: secs as int, nanos: nanos as int }),
    {
        if MIN_TIMESTAMP <= secs && secs <= MAX_TIMESTAMP && nanos < 2 * NANOS_PER_SEC {
            Some(Timestamp { secs, nanos })
        } else {
            None
        }
    }

    /// The instant `ns` nanoseconds after the Unix epoch.
    pub fn from_nanos(ns: i64) -> (t: Timestamp)
        ensures
            t@ == instant_at(ns as int),
    {
        let (secs, nanos) = split_nanos(ns as i128);
        Timestamp { secs, nanos }
    }

    /// Whole seconds since the Unix epoch, rounded down.
    pub fn timestamp(&self) -> (r: i64)
        ensures
            r == self@.secs,
    {
        self.secs
    }

    /// Nanoseconds since the last whole second, beyond a second in a leap second.
    pub fn timestamp_subsec_nanos(&self) -> (r: u32)
        ensures
            r == self@.nanos,
    {
        self.nanos
    }

    /// Nanoseconds since the Unix epoch, if they fit 64 bits.
    pub fn timestamp_nanos_opt(&self) -> (r: Option<i64>)
        ensures
            r == if has_nanos(self@) {
                Some(self.ns() as i64)
            } else {
                None
            },
    {
        proof {
            use_type_invariant(self);
        }
        chrono_timestamp_nanos_opt(self.secs, self.nanos)
    }

    /// The instant as RFC 3339 text.
    pub fn to_rfc3339(&self) -> (s: String)
        ensures
            s@ == rfc3339(self@.secs, self@.nanos),
    {
        proof {
            use_type_invariant(self);
        }
        chrono_to_rfc3339(self.secs, self.nanos)
    }

    /// The instant `span` later.
    pub fn plus(&self, span: TimeSpan) -> (t: Timestamp)
        requires
            in_calendar(self@.later(span.ns())),
        ensures
            t@ == self@.later(span.ns()),
    {
        proof {
            use_type_invariant(self);
            use_type_invariant(&span);
        }
        let (secs, nanos) = chrono_add(self.secs, self.nanos, span.secs, span.nanos);
        Timestamp { secs, nanos }
    }

    /// The span since `earlier`.
    pub fn since(&self, earlier: Timestamp) -> (d: TimeSpan)
        ensures
            d.ns() == self@.since(earlier@),
    {
        proof {
            use_type_invariant(self);
            use_type_invariant(&earlier);
        }
        let (whole, rest) = chrono_sub(self.secs, self.nanos, earlier.secs, earlier.nanos);
        let (secs, nanos) = split_nanos(whole as i128 * 1_000_000_000 + rest as i128);
        TimeSpan { secs, nanos }
    }

    /// Whether the instant lies before `other`.
    pub fn is_before(&self, other: &Timestamp) -> (r: bool)
        ensures
            r == self@.before(other@),
    {
        proof {
            use_type_invariant(self);
            use_type_invariant(other);
        }
        self.secs < other.secs || (self.secs == other.secs && self.nanos < other.nanos)
    }
}

impl TimeSpan {
    #[verifier::type_invariant]
    closed spec fn valid(self) -> bool {
        &&& self.nanos < NANOS_PER_SEC
        &&& in_span(as_nanos(self.secs as int, self.nanos as int))
    }

    pub closed spec fn secs(self) -> int {
        self.secs as int
    }

    pub closed spec fn nanos(self) -> int {
        self.nanos as int
    }

    /// The span in nanoseconds.
    pub open spec fn ns(self) -> int {
        as_nanos(self.secs(), self.nanos())
    }

    /// The span of `secs` seconds and `nanos` nanoseconds, if it is not longer
    /// than the bound.
    pub fn new(secs: i64, nanos: u32) -> (r: Option<TimeSpan>)
        ensures
            r is Some <==> nanos < NANOS_PER_SEC && in_span(as_nanos(secs as int, nanos as int)),
            r matches Some(d) ==> d.secs() == secs && d.nanos() == nanos,
    {
        let total: i128 = secs as i128 * 1_000_000_000 + nanos as i128;
        let bound: i128 = MAX_SPAN_MILLIS as i128 * 1_000_000;
        if nanos < NANOS_PER_SEC && -bound <= total && total <= bound {
            Some(TimeSpan { secs, nanos })
        } else {
            None
        }
    }

    /// The span from the instant `start` to the instant `end`, both given in
    /// nanoseconds since the Unix epoch.
    pub fn between(start: i64, end: i64) -> (d: TimeSpan)
        ensures
            d.ns() == end - start,
    {
        let (secs, nanos) = split_nanos(end as i128 - start as i128);
        TimeSpan { secs, nanos }
    }

    /// The seconds of the span, rounded down.
    pub fn whole_secs(&self) -> (r: i64)
        ensures
            r == self.secs(),
    {
        self.secs
    }

    /// The nanoseconds beyond the whole seconds.
    pub fn subsec_nanos(&self) -> (r: u32)
        ensures
            r == self.nanos(),
    {
        self.nanos
    }

    /// The span of no length.
    pub fn zero() -> (d: TimeSpan)
        ensures
            d.ns() == 0,
    {
        TimeSpan { secs: 0, nanos: 0 }
    }

    /// Whether the span is shorter than `other`; a negative one is shorter than
    /// none.
    pub fn is_shorter(&self, other: &TimeSpan) -> (r: bool)
        ensures
            r == (self.ns() < other.ns()),
    {
        proof {
            use_type_invariant(self);
            use_type_invariant(other);
        }
        self.secs < other.secs || (self.secs == other.secs && self.nanos < other.nanos)
    }

    /// The span without its sign: its whole seconds, and the nanoseconds beyond
    /// them.
    pub fn magnitude(&self) -> (r: (u64, u64))
        ensures
            r.1 < NANOS_PER_SEC,
            as_nanos(r.0 as int, r.1 as int) == if self.ns() < 0 {
                -self.ns()
            } else {
                self.ns()
            },
    {
        proof {
            use_type_invariant(self);
        }
        if self.secs >= 0 {
            (self.secs as u64, self.nanos as u64)
        } else if self.nanos == 0 {
            ((-self.secs) as u64, 0)
        } else {
            ((-(self.secs + 1)) as u64, (NANOS_PER_SEC - self.nanos) as u64)
        }
    }

    /// Whether the span is negative.
    pub fn is_negative(&self) -> (r: bool)
        ensures
            r == (self.ns() < 0),
    {
        proof {
            use_type_invariant(self);
        }
        self.secs < 0
    }
}

} // verus!
