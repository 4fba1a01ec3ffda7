//! Events, and how a stored row becomes one.

use serde_json::Value;
use vstd::prelude::*;

use crate::json::{map_clone, members, object_from_str, parsed_object};
use crate::time::{in_calendar, instant_at, Instant, TimeSpan, Timestamp};

verus! {

/// What an event says: its id, the instant in which it starts, how many nanoseconds
/// it lasts, and its data by key.
#[verifier::ext_equal]
pub struct EventView {
    pub id: Option<i64>,
    pub start: Instant,
    pub length: int,
    pub data: Map<Seq<char>, Value>,
}

/// Something that was observed for a while.
#[derive(Debug, PartialEq)]
pub struct Event {
    pub id: Option<i64>,
    pub timestamp: Timestamp,
    pub duration: TimeSpan,
    pub data: serde_json::Map<String, Value>,
}

impl View for Event {
    type V = EventView;

    open spec fn view(&self) -> EventView {
        EventView {
            id: self.id,
            start: self.timestamp@,
            length: self.duration.ns(),
            data: members(self.data),
        }
    }
}

/// The views of a sequence of events.
pub open spec fn views(events: Seq<Event>) -> Seq<EventView> {
    events.map_values(|e: Event| e@)
}

impl Event {
    /// The instant in which the event ends.
    pub open spec fn end(self) -> Instant {
        self.timestamp@.later(self.duration.ns())
    }

    /// Whether two events agree in everything but their data.
    pub open spec fn same_frame(self, other: Event) -> bool {
        &&& self.id == other.id
        &&& self.timestamp == other.timestamp
        &&& self.duration == other.duration
    }

    /// The instant in which the event ends, which has to lie within the
    /// calendar.
    pub fn calculate_endtime(&self) -> (end: Timestamp)
        requires
            in_calendar(self.end()),
        ensures
            end@ == self.end(),
    {
        self.timestamp.plus(self.duration)
    }
}

impl Clone for Event {
    fn clone(&self) -> (e: Event)
        ensures
            e.same_frame(*self),
            members(e.data) == members(self.data),
    {
        Event {
            id: self.id,
            timestamp: self.timestamp,
            duration: self.duration,
            data: map_clone(&self.data),
        }
    }
}

/// A row of the event table. Both instants are in nanoseconds since the Unix
/// epoch; the data is JSON text.
#[derive(Clone, Debug, PartialEq, Eq)]
pub struct EventRow {
    pub id: i64,
    pub starttime: i64,
    pub endtime: i64,
    pub data: String,
}

/// Why a row is not an event.
#[derive(Clone, Debug, PartialEq, Eq)]
pub enum RowError {
    /// A column could not be read.
    Unreadable(String),
    /// The data is not a JSON object.
    InvalidData,
}

impl EventRow {
    /// The first nanosecond of the row within a range.
    pub open spec fn clipped_start(self, clip: Option<(i64, i64)>) -> int {
        match clip {
            Some((start, _)) if start > self.starttime => start as int,
            _ => self.starttime as int,
        }
    }

    /// The end of the row within a range.
    pub open spec fn clipped_end(self, clip: Option<(i64, i64)>) -> int {
        match clip {
            Some((_, end)) if end < self.endtime => end as int,
            _ => self.endtime as int,
        }
    }

    /// The event that the row stands for, cut to a range, if its data is a JSON
    /// object.
    pub open spec fn event(self, clip: Option<(i64, i64)>) -> Option<EventView> {
        match parsed_object(self.data@) {
            Some(data) => Some(
                EventView {
                    id: Some(self.id),
                    start: instant_at(self.clipped_start(clip)),
                    length: self.clipped_end(clip) - self.clipped_start(clip),
                    data,
                },
            ),
            None => None,
        }
    }
}

/// Reads a row and cuts it to a range, if there is one. A row whose data is not
/// a JSON object is corrupt.
pub fn parse_event_row(row: &EventRow, clip: Option<(i64, i64)>) -> (r: Result<Event, RowError>)
    ensures
        match r {
            Ok(e) => row.event(clip) == Some(e@),
            Err(err) => row.event(clip) is None && err is InvalidData,
        },
{
    let mut starttime: i64 = row.starttime;
    let mut endtime: i64 = row.endtime;
    if let Some((start, end)) = clip {
        if start > starttime {
            starttime = start;
        }
        if end < endtime {
            endtime = end;
        }
    }
    match object_from_str(row.data.as_str()) {
        Some(data) => Ok(
            Event {
                id: Some(row.id),
                timestamp: Timestamp::from_nanos(starttime),
                duration: TimeSpan::between(starttime, endtime),
                data,
            },
        ),
        None => Err(RowError::InvalidData),
    }
}

/// The views of some events are theirs, one for each, in order.
pub proof fn views_are_of_each(events: Seq<Event>, i: int)
    ensures
        views(events).len() == events.len(),
        0 <= i < events.len() ==> {
            &&& views(events)[i].id == events[i].id
            &&& views(events)[i].start == events[i].timestamp@
            &&& views(events)[i].length == events[i].duration.ns()
            &&& views(events)[i].data == members(events[i].data)
        },
{
}

/// A row is an event exactly if its data is a JSON object. The event has the id and
/// the data of the row. It starts with the row, or with the range if that starts
/// later, and ends with the row, or with the range if that ends earlier.
pub proof fn row_is_its_event(row: EventRow, clip: Option<(i64, i64)>)
    ensures
        row.event(clip) is Some <==> parsed_object(row.data@) is Some,
        row.event(clip) matches Some(e) ==> {
            let end = e.start.ns() + e.length;
            &&& e.id == Some(row.id)
            &&& Some(e.data) == parsed_object(row.data@)
            &&& 0 <= e.start.nanos < 1_000_000_000
            &&& match clip {
                None => e.start.ns() == row.starttime && end == row.endtime,
                Some((from, to)) => {
                    &&& e.start.ns() >= from && e.start.ns() >= row.starttime
                    &&& e.start.ns() == from || e.start.ns() == row.starttime
                    &&& end <= to && end <= row.endtime
                    &&& end == to || end == row.endtime
                },
            }
        },
{
}

} // verus!
