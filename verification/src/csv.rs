//! Events as RFC 4180 text with comma-separated fields.

use serde_json::Value;
use vstd::prelude::*;
use vstd::string::*;

use crate::error::DatastoreError;
use crate::event::{parse_event_row, views, Event, EventRow, EventView, RowError};
use crate::json::{
    json_text, keys_of, map_get, members, ordered_keys, string_of, value_as_str, value_to_string,
};
use crate::text::{
    decimal, integer_text, padded_decimal, push_decimal, push_padded_decimal, signed_decimal,
    texts,
};
use crate::time::{rfc3339, TimeSpan};

verus! {

/// Whether a spreadsheet takes a cell that begins with the character for a
/// formula.
pub open spec fn starts_formula(c: char) -> bool {
    c == '=' || c == '+' || c == '-' || c == '@' || c == '\t' || c == '\r'
}

/// Whether a field that holds the character has to be quoted.
pub open spec fn forces_quotes(c: char) -> bool {
    c == ',' || c == '"' || c == '\n' || c == '\r'
}

/// A text that no spreadsheet takes for a formula.
pub open spec fn neutralized(s: Seq<char>) -> Seq<char> {
    if s.len() > 0 && starts_formula(s[0]) {
        seq!['\''] + s
    } else {
        s
    }
}

/// A text with every quotation mark doubled.
pub open spec fn doubled_quotes(s: Seq<char>) -> Seq<char>
    decreases s.len(),
{
    if s.len() == 0 {
        Seq::empty()
    } else if s.last() == '"' {
        doubled_quotes(s.drop_last()) + seq!['"', '"']
    } else {
        doubled_quotes(s.drop_last()).push(s.last())
    }
}

/// Whether a text has to be quoted.
pub open spec fn needs_quotes(s: Seq<char>) -> bool {
    exists|i: int| 0 <= i < s.len() && forces_quotes(#[trigger] s[i])
}

/// A text as a field of a record: neutralized, and quoted where it has to be.
pub open spec fn csv_field(s: Seq<char>) -> Seq<char> {
    let t = neutralized(s);
    if needs_quotes(t) {
        seq!['"'] + doubled_quotes(t) + seq!['"']
    } else {
        t
    }
}

/// Fields with a comma between any two.
pub open spec fn csv_fields(fields: Seq<Seq<char>>) -> Seq<char>
    decreases fields.len(),
{
    if fields.len() == 0 {
        Seq::empty()
    } else if fields.len() == 1 {
        csv_field(fields[0])
    } else {
        csv_fields(fields.drop_last()).push(',') + csv_field(fields.last())
    }
}

/// A record: its fields, and a line feed.
pub open spec fn csv_record(fields: Seq<Seq<char>>) -> Seq<char> {
    csv_fields(fields).push('\n')
}

/// Seconds with nine decimals.
pub open spec fn duration_text(ns: int) -> Seq<char> {
    let size = (if ns < 0 {
        -ns
    } else {
        ns
    }) as nat;
    let sign = if ns < 0 {
        seq!['-']
    } else {
        Seq::<char>::empty()
    };
    sign + decimal(size / 1_000_000_000).push('.') + padded_decimal(size % 1_000_000_000, 9)
}

/// The text of a member: a string as it is, any other value as JSON, nothing
/// where there is no such member.
pub open spec fn field_text(data: Map<Seq<char>, Value>, key: Seq<char>) -> Seq<char> {
    if !data.contains_key(key) {
        Seq::empty()
    } else {
        match string_of(data[key]) {
            Some(s) => s,
            None => json_text(data[key]),
        }
    }
}

/// The text of an id, nothing where there is none.
pub open spec fn id_text(id: Option<i64>) -> Seq<char> {
    match id {
        Some(i) => signed_decimal(i as int),
        None => Seq::empty(),
    }
}

/// The names of the columns: three fixed ones, then the given keys.
pub open spec fn header_fields(keys: Seq<Seq<char>>) -> Seq<Seq<char>> {
    seq!["id"@, "timestamp"@, "duration"@] + keys
}

/// What an event has in the columns.
pub open spec fn event_fields(e: EventView, keys: Seq<Seq<char>>) -> Seq<Seq<char>> {
    seq![id_text(e.id), rfc3339(e.start.secs, e.start.nanos), duration_text(e.length)] + keys.map_values(
        |k: Seq<char>| field_text(e.data, k),
    )
}

/// The records of some events under the given columns.
pub open spec fn event_records(events: Seq<EventView>, keys: Seq<Seq<char>>) -> Seq<char>
    decreases events.len(),
{
    if events.len() == 0 {
        Seq::empty()
    } else {
        event_records(events.drop_last(), keys) + csv_record(event_fields(events.last(), keys))
    }
}

/// The data columns of a document: the keys of the first event.
pub open spec fn data_columns(events: Seq<EventView>) -> Seq<Seq<char>> {
    if events.len() == 0 {
        Seq::empty()
    } else {
        ordered_keys(events[0].data)
    }
}

/// A whole document: a header, and a record for each event.
pub open spec fn csv_document(events: Seq<EventView>) -> Seq<char> {
    csv_record(header_fields(data_columns(events))) + event_records(events, data_columns(events))
}

/// The error of an export that could not be written.
pub fn csv_io_err(err: &str) -> (r: DatastoreError)
    ensures
        r is InternalError,
        r.detail() == "Failed to write CSV export: "@ + err@,
{
    let mut msg = "Failed to write CSV export: ".to_owned();
    msg.append(err);
    DatastoreError::InternalError(msg)
}

/// What is done with the query of an export.
#[derive(Clone, Copy, Debug, PartialEq, Eq, Structural)]
pub enum QueryStage {
    Prepare,
    Query,
    Read,
}

/// The error of an export whose query failed.
pub fn csv_query_err(stage: QueryStage, err: &str) -> (r: DatastoreError)
    ensures
        r is InternalError,
        r.detail() == match stage {
            QueryStage::Prepare => "Failed to prepare CSV export SQL: "@,
            QueryStage::Query => "Failed to query CSV export SQL: "@,
            QueryStage::Read => "Failed to read CSV export row: "@,
        } + err@,
{
    let text: &str = match stage {
        QueryStage::Prepare => "Failed to prepare CSV export SQL: ",
        QueryStage::Query => "Failed to query CSV export SQL: ",
        QueryStage::Read => "Failed to read CSV export row: ",
    };
    let mut msg = text.to_owned();
    msg.append(err);
    DatastoreError::InternalError(msg)
}

/// Prefixes what a spreadsheet would take for a formula.
pub fn neutralize_formula(s: &str) -> (r: String)
    ensures
        r@ == neutralized(s@),
{
    let mut chars = s.chars();
    let formula = match chars.next() {
        Some(c) => c == '=' || c == '+' || c == '-' || c == '@' || c == '\t' || c == '\r',
        None => false,
    };
    let mut r = String::new();
    if formula {
        r.push('\'');
    }
    r.append(s);
    assert(r@ =~= neutralized(s@));
    r
}

/// Escapes a field, after neutralizing it.
pub fn csv_escape(s: &str) -> (r: String)
    ensures
        r@ == csv_field(s@),
{
    let plain = neutralize_formula(s);
    let mut quote = false;
    let mut r = String::new();
    r.push('"');
    let ghost text = plain@;
    assert(r@ =~= seq!['"'] + doubled_quotes(text.take(0)));
    for c in it: plain.as_str().chars()
        invariant
            it.seq() == text,
            quote <==> exists|i: int| 0 <= i < it.index() && forces_quotes(#[trigger] text[i]),
            r@ == seq!['"'] + doubled_quotes(text.take(it.index())),
    {
        let ghost n = it.index();
        assert(text[n] == c);
        assert(text.take(n + 1).drop_last() =~= text.take(n));
        if c == ',' || c == '"' || c == '\n' || c == '\r' {
            quote = true;
        }
        if c == '"' {
            r.push('"');
        }
        r.push(c);
        assert(r@ =~= seq!['"'] + doubled_quotes(text.take(n + 1)));
    }
    assert(text.take(text.len() as int) =~= text);
    if quote {
        r.push('"');
        assert(r@ =~= csv_field(s@));
        r
    } else {
        plain
    }
}

/// A span as seconds with nine decimals, exact to the nanosecond.
pub fn duration_csv(duration: &TimeSpan) -> (r: String)
    ensures
        r@ == duration_text(duration.ns()),
{
    let (secs, nanos) = duration.magnitude();
    let mut r = String::new();
    if duration.is_negative() {
        r.push('-');
    }
    push_decimal(&mut r, secs);
    r.push('.');
    push_padded_decimal(&mut r, nanos, 9);
    assert(r@ =~= duration_text(duration.ns()));
    r
}

/// The text that an event has in the column of a key.
pub fn event_field_value(event: &Event, key: &str) -> (r: String)
    ensures
        r@ == field_text(event@.data, key@),
{
    match map_get(&event.data, key) {
        Some(value) => match value_as_str(value) {
            Some(s) => s.to_owned(),
            None => value_to_string(value),
        },
        None => String::new(),
    }
}

/// Appends a record.
pub fn write_csv_record(out: &mut String, fields: &Vec<String>)
    ensures
        final(out)@ == old(out)@ + csv_record(texts(fields@)),
{
    let ghost before = out@;
    let ghost all = texts(fields@);
    let mut i: usize = 0;
    assert(out@ =~= before + csv_fields(all.take(0)));
    while i < fields.len()
        invariant
            i <= fields.len(),
            all == texts(fields@),
            out@ == before + csv_fields(all.take(i as int)),
        decreases fields.len() - i,
    {
        if i > 0 {
            out.push(',');
        }
        let field = csv_escape(fields[i].as_str());
        out.append(field.as_str());
        proof {
            assert(all.take(i + 1).drop_last() =~= all.take(i as int));
            assert(all.take(i + 1).last() == fields[i as int]@);
            assert(out@ =~= before + csv_fields(all.take(i + 1)));
        }
        i = i + 1;
    }
    assert(all.take(all.len() as int) =~= all);
    out.push('\n');
    assert(out@ =~= before + csv_record(all));
}

/// Appends the names of the columns.
pub fn write_csv_header(out: &mut String, data_keys: &Vec<String>)
    ensures
        final(out)@ == old(out)@ + csv_record(header_fields(texts(data_keys@))),
{
    let mut fields: Vec<String> = Vec::new();
    fields.push("id".to_owned());
    fields.push("timestamp".to_owned());
    fields.push("duration".to_owned());
    let ghost keys = texts(data_keys@);
    assert(texts(fields@) =~= header_fields(keys.take(0)));
    let mut i: usize = 0;
    while i < data_keys.len()
        invariant
            i <= data_keys.len(),
            keys == texts(data_keys@),
            texts(fields@) == header_fields(keys.take(i as int)),
        decreases data_keys.len() - i,
    {
        let ghost earlier = fields@;
        fields.push(data_keys[i].clone());
        assert(texts(fields@) =~= texts(earlier).push(data_keys[i as int]@));
        assert(texts(fields@) =~= header_fields(keys.take(i + 1)));
        i = i + 1;
    }
    assert(keys.take(keys.len() as int) =~= keys);
    write_csv_record(out, &fields);
}

/// Appends the record of an event.
pub fn write_csv_event(out: &mut String, event: &Event, data_keys: &Vec<String>)
    ensures
        final(out)@ == old(out)@ + csv_record(event_fields(event@, texts(data_keys@))),
{
    let mut fields: Vec<String> = Vec::new();
    fields.push(
        match event.id {
            Some(id) => integer_text(id),
            None => String::new(),
        },
    );
    fields.push(event.timestamp.to_rfc3339());
    fields.push(duration_csv(&event.duration));
    let ghost keys = texts(data_keys@);
    assert(texts(fields@) =~= event_fields(event@, keys.take(0)));
    let mut i: usize = 0;
    while i < data_keys.len()
        invariant
            i <= data_keys.len(),
            keys == texts(data_keys@),
            texts(fields@) == event_fields(event@, keys.take(i as int)),
        decreases data_keys.len() - i,
    {
        let ghost earlier = fields@;
        let value = event_field_value(event, data_keys[i].as_str());
        fields.push(value);
        assert(texts(fields@) =~= texts(earlier).push(value@));
        assert(texts(fields@) =~= event_fields(event@, keys.take(i + 1)));
        i = i + 1;
    }
    assert(keys.take(keys.len() as int) =~= keys);
    write_csv_record(out, &fields);
}

/// Appends a document of events that are at hand.
///
/// The columns are `id`, `timestamp` and `duration`, then all keys of the data
/// of the first event.
pub fn write_csv_from_events(events: &[Event], out: &mut String)
    ensures
        final(out)@ == old(out)@ + csv_document(views(events@)),
{
    let ghost before = out@;
    let ghost all = views(events@);
    let data_keys: Vec<String> = if events.len() == 0 {
        Vec::new()
    } else {
        keys_of(&events[0].data)
    };
    assert(texts(data_keys@) =~= data_columns(all));
    write_csv_header(out, &data_keys);
    let ghost header = out@;
    let mut i: usize = 0;
    assert(out@ =~= header + event_records(all.take(0), data_columns(all)));
    while i < events.len()
        invariant
            i <= events.len(),
            all == views(events@),
            texts(data_keys@) == data_columns(all),
            out@ == header + event_records(all.take(i as int), data_columns(all)),
        decreases events.len() - i,
    {
        write_csv_event(out, &events[i], &data_keys);
        proof {
            assert(all.take(i + 1).drop_last() =~= all.take(i as int));
            assert(all.take(i + 1).last() == events[i as int]@);
            assert(out@ =~= header + event_records(all.take(i + 1), data_columns(all)));
        }
        i = i + 1;
    }
    assert(all.take(all.len() as int) =~= all);
    assert(out@ =~= before + csv_document(all));
}

/// The event of a row that was read, if it was read and is not corrupt.
pub open spec fn row_event(row: Result<EventRow, RowError>, range: (i64, i64)) -> Option<
    EventView,
> {
    match row {
        Ok(row) => row.event(Some(range)),
        Err(_) => None,
    }
}

/// The events of the rows that are not corrupt, cut to a range.
pub open spec fn row_events(rows: Seq<Result<EventRow, RowError>>, range: (i64, i64)) -> Seq<
    EventView,
>
    decreases rows.len(),
{
    if rows.len() == 0 {
        Seq::empty()
    } else {
        match row_event(rows.last(), range) {
            Some(e) => row_events(rows.drop_last(), range).push(e),
            None => row_events(rows.drop_last(), range),
        }
    }
}

/// A document that is written row by row.
///
/// The first event that comes fixes the data columns. Corrupt rows leave no
/// trace.
pub struct EventsCsv {
    range: (i64, i64),
    data_keys: Option<Vec<String>>,
}

impl EventsCsv {
    /// The range that rows are cut to.
    pub closed spec fn range(self) -> (i64, i64) {
        self.range
    }

    /// The data columns, once an event has come.
    pub closed spec fn columns(self) -> Option<Seq<Seq<char>>> {
        match self.data_keys {
            Some(keys) => Some(texts(keys@)),
            None => None,
        }
    }

    /// A document to which no row has come yet.
    pub fn new(starttime: i64, endtime: i64) -> (r: EventsCsv)
        ensures
            r.range() == (starttime, endtime),
            r.columns() is None,
    {
        EventsCsv { range: (starttime, endtime), data_keys: None }
    }

    /// Appends what a row adds: the record of its event, after the header if it
    /// is the first. A corrupt row adds nothing and is reported.
    pub fn write_row(&mut self, row: &Result<EventRow, RowError>, out: &mut String) -> (r: Result<
        (),
        RowError,
    >)
        ensures
            final(self).range() == old(self).range(),
            match row_event(*row, old(self).range()) {
                Some(e) => {
                    let keys = match old(self).columns() {
                        Some(keys) => keys,
                        None => ordered_keys(e.data),
                    };
                    let header = match old(self).columns() {
                        Some(_) => Seq::<char>::empty(),
                        None => csv_record(header_fields(keys)),
                    };
                    &&& r is Ok
                    &&& final(self).columns() == Some(keys)
                    &&& final(out)@ == old(out)@ + header + csv_record(event_fields(e, keys))
                },
                None => {
                    &&& r == Err::<(), RowError>(
                        match *row {
                            Err(err) => err,
                            Ok(_) => RowError::InvalidData,
                        },
                    )
                    &&& final(self).columns() == old(self).columns()
                    &&& final(out)@ == old(out)@
                },
            },
    {
        let row = match row {
            Ok(row) => row,
            Err(RowError::Unreadable(msg)) => {
                return Err(RowError::Unreadable(msg.clone()));
            },
            Err(RowError::InvalidData) => {
                return Err(RowError::InvalidData);
            },
        };
        let event = match parse_event_row(row, Some(self.range)) {
            Ok(event) => event,
            Err(err) => {
                return Err(err);
            },
        };
        if self.data_keys.is_none() {
            let keys = keys_of(&event.data);
            write_csv_header(out, &keys);
            self.data_keys = Some(keys);
        }
        if let Some(keys) = &self.data_keys {
            write_csv_event(out, &event, keys);
        }
        proof {
            let before = old(out)@;
            assert(before + Seq::<char>::empty() =~= before);
        }
        Ok(())
    }

    /// Appends what is missing once no more rows come: the header, if there was
    /// no event.
    pub fn finish(&self, out: &mut String)
        ensures
            final(out)@ == if self.columns() is None {
                old(out)@ + csv_record(header_fields(Seq::empty()))
            } else {
                old(out)@
            },
    {
        if self.data_keys.is_none() {
            let none: Vec<String> = Vec::new();
            assert(texts(none@) =~= Seq::<Seq<char>>::empty());
            write_csv_header(out, &none);
        }
    }
}

} // verus!
