//! The JSON document of an export: `{"buckets":{...}}`, with the metadata and
//! the events of each bucket under its id.
//!
//! The document is framed piece by piece, so that no more than one event has to
//! be in memory. The JSON text of an event comes from outside.

use serde_json::Value;
use vstd::prelude::*;
use vstd::string::*;

use crate::csv::row_event;
use crate::error::DatastoreError;
use crate::event::{parse_event_row, Event, EventRow, RowError};
use crate::json::{
    json_quoted, json_text, key_list_is_unique, keys_of, lists_keys, map_get, members, object_of,
    ordered_keys, text_before, text_order_is_strict, text_to_json, value_as_object,
    value_to_string,
};
use crate::json_reader::{
    export_json, export_reads_back, exports_json_events, has_json_metadata, read_json,
};
use crate::query::{distinct_ids, place_of, Bucket, Buckets};
use crate::text::{same_text, texts};

verus! {

/// Texts with a comma between any two.
pub open spec fn comma_joined(parts: Seq<Seq<char>>) -> Seq<char>
    decreases parts.len(),
{
    if parts.len() == 0 {
        Seq::empty()
    } else if parts.len() == 1 {
        parts[0]
    } else {
        comma_joined(parts.drop_last()).push(',') + parts.last()
    }
}

/// What comes before one more part after some parts.
pub open spec fn comma_after<T>(parts: Seq<T>) -> Seq<char> {
    if parts.len() == 0 {
        Seq::empty()
    } else {
        seq![',']
    }
}

/// A member of an object, given its key and the JSON text of its value.
pub open spec fn member_text(key: Seq<char>, value: Seq<char>) -> Seq<char> {
    json_quoted(key).push(':') + value
}

/// Members of an object, with a comma between any two.
pub open spec fn joined_members(entries: Seq<(Seq<char>, Seq<char>)>) -> Seq<char> {
    comma_joined(entries.map_values(|e: (Seq<char>, Seq<char>)| member_text(e.0, e.1)))
}

/// The compact JSON text of an object, given the keys of its members and the JSON
/// texts of their values.
pub open spec fn object_text(entries: Seq<(Seq<char>, Seq<char>)>) -> Seq<char> {
    "{"@ + joined_members(entries) + "}"@
}

/// The compact JSON text of an array, given the JSON texts of its items.
pub open spec fn array_text(items: Seq<Seq<char>>) -> Seq<char> {
    "["@ + comma_joined(items) + "]"@
}

/// The members of an object under the given keys, but for its events, with the
/// JSON texts of their values.
pub open spec fn metadata_entries(m: Map<Seq<char>, Value>, keys: Seq<Seq<char>>) -> Seq<
    (Seq<char>, Seq<char>),
>
    decreases keys.len(),
{
    if keys.len() == 0 {
        Seq::empty()
    } else {
        let rest = metadata_entries(m, keys.drop_last());
        let key = keys.last();
        if key == "events"@ {
            rest
        } else {
            rest.push((key, json_text(m[key])))
        }
    }
}

/// The members of a bucket: its metadata, with the given events in the place of
/// any that the metadata holds.
pub open spec fn bucket_members(m: Map<Seq<char>, Value>, events: Seq<Seq<char>>) -> Seq<
    (Seq<char>, Seq<char>),
> {
    metadata_entries(m, ordered_keys(m)).push(("events"@, array_text(events)))
}

/// The JSON text of a bucket.
pub open spec fn bucket_text(m: Map<Seq<char>, Value>, events: Seq<Seq<char>>) -> Seq<char> {
    object_text(bucket_members(m, events))
}

/// Members of an object, each with a comma behind it.
pub open spec fn members_text(entries: Seq<(Seq<char>, Seq<char>)>) -> Seq<char>
    decreases entries.len(),
{
    if entries.len() == 0 {
        Seq::empty()
    } else {
        members_text(entries.drop_last()) + member_text(
            entries.last().0,
            entries.last().1,
        ).push(',')
    }
}

/// What the document has of a bucket before its events.
pub open spec fn bucket_head(id: Seq<char>, m: Map<Seq<char>, Value>) -> Seq<char> {
    json_quoted(id).push(':') + "{"@ + members_text(metadata_entries(m, ordered_keys(m)))
        + json_quoted("events"@).push(':') + "["@
}

/// The JSON texts of the events that are not corrupt.
pub open spec fn valid_texts(rows: Seq<Result<String, RowError>>) -> Seq<Seq<char>>
    decreases rows.len(),
{
    if rows.len() == 0 {
        Seq::empty()
    } else {
        match rows.last() {
            Ok(text) => valid_texts(rows.drop_last()).push(text@),
            Err(_) => valid_texts(rows.drop_last()),
        }
    }
}

/// What the document has of a bucket: its id, and its JSON text.
pub open spec fn bucket_entry(bucket: Bucket, rows: Seq<Result<String, RowError>>) -> (
    Seq<char>,
    Seq<char>,
) {
    (bucket.id@, bucket_text(object_of(bucket.metadata)->0, valid_texts(rows)))
}

/// Whether a bucket is to be exported: it is the selected one, or none is
/// selected.
pub open spec fn is_selected(bucket: Bucket, selected: Option<Seq<char>>) -> bool {
    selected matches Some(id) ==> bucket.id@ == id
}

/// Whether a bucket is selected that does not exist.
pub open spec fn selects_nothing(buckets: Seq<Bucket>, selected: Option<Seq<char>>) -> bool {
    selected matches Some(id) && place_of(buckets, id) is None
}

/// What the document has of the first `n` buckets.
pub open spec fn bucket_entries(
    buckets: Seq<Bucket>,
    rows: Seq<Vec<Result<String, RowError>>>,
    selected: Option<Seq<char>>,
    n: int,
) -> Seq<(Seq<char>, Seq<char>)>
    decreases n,
{
    if n <= 0 {
        Seq::empty()
    } else {
        let rest = bucket_entries(buckets, rows, selected, n - 1);
        if is_selected(buckets[n - 1], selected) {
            rest.push(bucket_entry(buckets[n - 1], rows[n - 1]@))
        } else {
            rest
        }
    }
}

/// The first of the first `n` buckets that is to be exported and whose metadata
/// is not an object.
pub open spec fn first_invalid(
    buckets: Seq<Bucket>,
    selected: Option<Seq<char>>,
    n: int,
) -> Option<int>
    decreases n,
{
    if n <= 0 {
        None
    } else if first_invalid(buckets, selected, n - 1) is Some {
        first_invalid(buckets, selected, n - 1)
    } else if is_selected(buckets[n - 1], selected) && object_of(buckets[n - 1].metadata) is None {
        Some(n - 1)
    } else {
        None
    }
}

/// The whole document.
pub open spec fn export_document(
    buckets: Seq<Bucket>,
    rows: Seq<Vec<Result<String, RowError>>>,
    selected: Option<Seq<char>>,
) -> Seq<char> {
    object_text(
        seq![
            (
                "buckets"@,
                object_text(bucket_entries(buckets, rows, selected, buckets.len() as int)),
            ),
        ],
    )
}

/// What the document has before its buckets.
pub open spec fn document_head() -> Seq<char> {
    "{"@ + json_quoted("buckets"@).push(':') + "{"@
}

/// What has been written of the document when bucket `k` turns out to have no
/// metadata.
pub open spec fn broken_document(
    buckets: Seq<Bucket>,
    rows: Seq<Vec<Result<String, RowError>>>,
    selected: Option<Seq<char>>,
    k: int,
) -> Seq<char> {
    let entries = bucket_entries(buckets, rows, selected, k);
    document_head() + joined_members(entries) + comma_after(entries) + json_quoted(
        buckets[k].id@,
    ).push(':')
}

/// The view of a selection.
pub open spec fn selection(selected: Option<&str>) -> Option<Seq<char>> {
    match selected {
        Some(id) => Some(id@),
        None => None,
    }
}

/// The error of an export that could not be written.
pub fn export_err(err: &str) -> (r: DatastoreError)
    ensures
        r is InternalError,
        r.detail() == "Failed to write export: "@ + err@,
{
    let mut msg = "Failed to write export: ".to_owned();
    msg.append(err);
    DatastoreError::InternalError(msg)
}

/// The query for the events of a bucket.
pub fn export_query_sql() -> (sql: &'static str)
    ensures
        sql@
            == "SELECT id, starttime, endtime, data FROM events INDEXED BY events_bucketrow_starttime_endtime_index WHERE bucketrow = ?1 AND endtime >= 0 AND starttime <= ?2 ORDER BY starttime DESC, endtime ASC, id ASC"@,
{
    "SELECT id, starttime, endtime, data FROM events INDEXED BY events_bucketrow_starttime_endtime_index WHERE bucketrow = ?1 AND endtime >= 0 AND starttime <= ?2 ORDER BY starttime DESC, endtime ASC, id ASC"
}

/// The range that the events of an export are cut to.
pub fn export_range() -> (r: (i64, i64))
    ensures
        r == (0i64, i64::MAX),
{
    (0, i64::MAX)
}

/// The event of a row that was read, cut to the range of an export. A row that
/// could not be read, or whose data is not a JSON object, is corrupt.
pub fn export_event(row: Result<EventRow, RowError>) -> (r: Result<Event, RowError>)
    ensures
        match row_event(row, (0, i64::MAX)) {
            Some(e) => r matches Ok(event) && event@ == e,
            None => r == Err::<Event, RowError>(
                match row {
                    Err(err) => err,
                    Ok(_) => RowError::InvalidData,
                },
            ),
        },
{
    match row {
        Ok(row) => parse_event_row(&row, Some(export_range())),
        Err(err) => Err(err),
    }
}

/// Appends the members of an object but its events, each with a comma behind it.
fn write_metadata(m: &serde_json::Map<String, Value>, out: &mut String)
    ensures
        final(out)@ == old(out)@ + members_text(
            metadata_entries(members(*m), ordered_keys(members(*m))),
        ),
        lists_keys(ordered_keys(members(*m)), members(*m)),
        forall|k: Seq<char>| #[trigger]
            members(*m).contains_key(k) && k != "events"@ ==> read_json(
                json_text(members(*m)[k]),
            ) is Some,
{
    let ghost before = out@;
    let keys = keys_of(m);
    let ghost all = texts(keys@);
    let mut i: usize = 0;
    assert(out@ =~= before + members_text(metadata_entries(members(*m), all.take(0))));
    while i < keys.len()
        invariant
            i <= keys.len(),
            all == texts(keys@),
            lists_keys(all, members(*m)),
            out@ == before + members_text(metadata_entries(members(*m), all.take(i as int))),
            forall|j: int|
                0 <= j < i && #[trigger] all[j] != "events"@ ==> read_json(
                    json_text(members(*m)[all[j]]),
                ) is Some,
        decreases keys.len() - i,
    {
        let key = keys[i].as_str();
        let ghost entries = metadata_entries(members(*m), all.take(i as int));
        proof {
            assert(all[i as int] == key@);
            assert(all.contains(key@));
            assert(all.take(i + 1).drop_last() =~= all.take(i as int));
            assert(all.take(i + 1).last() == key@);
        }
        if !same_text(key, "events") {
            if let Some(value) = map_get(m, key) {
                out.append(text_to_json(key).as_str());
                out.push(':');
                out.append(value_to_string(value).as_str());
                out.push(',');
                assert(entries.push((key@, json_text(*value))).drop_last() =~= entries);
            }
        }
        assert(out@ =~= before + members_text(metadata_entries(members(*m), all.take(i + 1))));
        i = i + 1;
    }
    assert(all.take(all.len() as int) =~= all);
    assert forall|k: Seq<char>| #[trigger]
        members(*m).contains_key(k) && k != "events"@ implies read_json(
        json_text(members(*m)[k]),
    ) is Some by {
        assert(all.contains(k));
        let j = choose|j: int| 0 <= j < all.len() && all[j] == k;
        assert(all[j] != "events"@);
    }
}

/// A document that is written piece by piece.
pub struct ExportWriter {
    has_bucket: bool,
    has_event: bool,
}

impl ExportWriter {
    /// Whether a bucket has been begun.
    pub closed spec fn has_bucket(self) -> bool {
        self.has_bucket
    }

    /// Whether the bucket that was begun last has an event.
    pub closed spec fn has_event(self) -> bool {
        self.has_event
    }

    /// Begins the document.
    pub fn begin(out: &mut String) -> (w: ExportWriter)
        ensures
            !w.has_bucket(),
            !w.has_event(),
            final(out)@ == old(out)@ + document_head(),
    {
        let ghost before = out@;
        out.append("{");
        out.append(text_to_json("buckets").as_str());
        out.push(':');
        out.append("{");
        assert(out@ =~= before + document_head());
        ExportWriter { has_bucket: false, has_event: false }
    }

    /// Begins a bucket. It is an error if its metadata is not an object.
    pub fn begin_bucket(&mut self, bucket: &Bucket, out: &mut String) -> (r: Result<
        (),
        DatastoreError,
    >)
        ensures
            final(self).has_bucket(),
            !final(self).has_event(),
            ({
                let comma = if old(self).has_bucket() {
                    seq![',']
                } else {
                    Seq::<char>::empty()
                };
                match object_of(bucket.metadata) {
                    Some(m) => r is Ok && final(out)@ == old(out)@ + comma + bucket_head(
                        bucket.id@,
                        m,
                    ) && has_json_metadata(*bucket),
                    None => {
                        &&& r matches Err(err) && err is InternalError && err.detail()
                            == "Failed to write export: "@ + "invalid bucket metadata"@
                        &&& final(out)@ == old(out)@ + comma + json_quoted(bucket.id@).push(':')
                    },
                }
            }),
    {
        let ghost before = out@;
        if self.has_bucket {
            out.push(',');
        }
        self.has_bucket = true;
        self.has_event = false;
        let ghost with_comma = out@;
        out.append(text_to_json(bucket.id.as_str()).as_str());
        out.push(':');
        match value_as_object(&bucket.metadata) {
            Some(metadata) => {
                out.append("{");
                write_metadata(metadata, out);
                out.append(text_to_json("events").as_str());
                out.push(':');
                out.append("[");
                assert(out@ =~= with_comma + bucket_head(bucket.id@, members(*metadata)));
                assert(before.push(',') =~= before + seq![',']);
                assert(before + Seq::<char>::empty() =~= before);
                Ok(())
            },
            None => {
                assert(out@ =~= with_comma + json_quoted(bucket.id@).push(':'));
                assert(before.push(',') =~= before + seq![',']);
                assert(before + Seq::<char>::empty() =~= before);
                Err(export_err("invalid bucket metadata"))
            },
        }
    }

    /// Appends the JSON text of an event to the bucket. A corrupt row adds
    /// nothing.
    pub fn write_event(&mut self, row: &Result<String, RowError>, out: &mut String)
        ensures
            final(self).has_bucket() == old(self).has_bucket(),
            match *row {
                Ok(text) => {
                    &&& final(self).has_event()
                    &&& final(out)@ == old(out)@ + (if old(self).has_event() {
                        seq![',']
                    } else {
                        Seq::<char>::empty()
                    }) + text@
                },
                Err(_) => {
                    &&& final(self).has_event() == old(self).has_event()
                    &&& final(out)@ == old(out)@
                },
            },
    {
        if let Ok(text) = row {
            let ghost before = out@;
            if self.has_event {
                out.push(',');
            }
            self.has_event = true;
            assert(before.push(',') =~= before + seq![',']);
            assert(before + Seq::<char>::empty() =~= before);
            out.append(text.as_str());
        }
    }

    /// Ends the bucket.
    pub fn end_bucket(&mut self, out: &mut String)
        ensures
            *final(self) == *old(self),
            final(out)@ == old(out)@ + "]}"@,
    {
        out.append("]}");
    }

    /// Ends the document.
    pub fn finish(self, out: &mut String)
        ensures
            final(out)@ == old(out)@ + "}}"@,
    {
        out.append("}}");
    }
}

/// Appends the events of a bucket that has been begun.
fn write_events(
    writer: &mut ExportWriter,
    rows: &Vec<Result<String, RowError>>,
    out: &mut String,
)
    requires
        !old(writer).has_event(),
    ensures
        final(writer).has_bucket() == old(writer).has_bucket(),
        final(out)@ == old(out)@ + comma_joined(valid_texts(rows@)),
{
    let ghost before = out@;
    let mut i: usize = 0;
    assert(valid_texts(rows@.take(0)) =~= Seq::<Seq<char>>::empty());
    assert(out@ =~= before + comma_joined(valid_texts(rows@.take(0))));
    while i < rows.len()
        invariant
            i <= rows.len(),
            writer.has_bucket() == old(writer).has_bucket(),
            writer.has_event() <==> valid_texts(rows@.take(i as int)).len() > 0,
            out@ == before + comma_joined(valid_texts(rows@.take(i as int))),
        decreases rows.len() - i,
    {
        let ghost parts = valid_texts(rows@.take(i as int));
        writer.write_event(&rows[i], out);
        proof {
            assert(rows@.take(i + 1).drop_last() =~= rows@.take(i as int));
            assert(rows@.take(i + 1).last() == rows@[i as int]);
            if let Ok(text) = rows@[i as int] {
                lemma_comma_joined_push(parts, text@);
                assert(out@ =~= before + comma_joined(parts.push(text@)));
            }
        }
        i = i + 1;
    }
    assert(rows@.take(rows.len() as int) =~= rows@);
}

pub(crate) proof fn lemma_comma_joined_push(parts: Seq<Seq<char>>, part: Seq<char>)
    ensures
        comma_joined(parts.push(part)) == comma_joined(parts) + comma_after(parts) + part,
{
    let longer = parts.push(part);
    assert(longer.drop_last() =~= parts);
    if parts.len() == 0 {
        assert(comma_joined(longer) =~= part);
    }
    assert(comma_joined(longer) =~= comma_joined(parts) + comma_after(parts) + part);
}

pub(crate) proof fn lemma_joined_members_push(
    entries: Seq<(Seq<char>, Seq<char>)>,
    entry: (Seq<char>, Seq<char>),
)
    ensures
        joined_members(entries.push(entry)) == joined_members(entries) + comma_after(entries)
            + member_text(entry.0, entry.1),
{
    let f = |e: (Seq<char>, Seq<char>)| member_text(e.0, e.1);
    assert(entries.push(entry).map_values(f) =~= entries.map_values(f).push(f(entry)));
    lemma_comma_joined_push(entries.map_values(f), f(entry));
}

proof fn lemma_members_then_one(
    entries: Seq<(Seq<char>, Seq<char>)>,
    entry: (Seq<char>, Seq<char>),
)
    ensures
        joined_members(entries.push(entry)) == members_text(entries) + member_text(
            entry.0,
            entry.1,
        ),
    decreases entries.len(),
{
    lemma_joined_members_push(entries, entry);
    if entries.len() == 0 {
        let f = |e: (Seq<char>, Seq<char>)| member_text(e.0, e.1);
        assert(entries.map_values(f) =~= Seq::<Seq<char>>::empty());
        assert(joined_members(entries) + comma_after(entries) =~= members_text(entries));
    } else {
        lemma_members_then_one(entries.drop_last(), entries.last());
        assert(entries.drop_last().push(entries.last()) =~= entries);
        assert(joined_members(entries) + comma_after(entries) =~= members_text(entries));
    }
}

proof fn lemma_bucket_in_pieces(
    id: Seq<char>,
    m: Map<Seq<char>, Value>,
    events: Seq<Seq<char>>,
)
    ensures
        member_text(id, bucket_text(m, events)) == bucket_head(id, m) + comma_joined(events)
            + "]}"@,
{
    reveal_strlit("]");
    reveal_strlit("}");
    reveal_strlit("]}");
    let entries = metadata_entries(m, ordered_keys(m));
    lemma_members_then_one(entries, ("events"@, array_text(events)));
    assert("]"@ + "}"@ =~= "]}"@);
    assert(member_text(id, bucket_text(m, events)) =~= bucket_head(id, m) + comma_joined(events) + (
    "]"@ + "}"@));
}

proof fn lemma_document_in_pieces(entries: Seq<(Seq<char>, Seq<char>)>)
    ensures
        object_text(seq![("buckets"@, object_text(entries))]) == document_head() + joined_members(
            entries,
        ) + "}}"@,
{
    reveal_strlit("}");
    reveal_strlit("}}");
    let f = |e: (Seq<char>, Seq<char>)| member_text(e.0, e.1);
    let only = ("buckets"@, object_text(entries));
    assert(seq![only].map_values(f) =~= seq![f(only)]);
    assert("}"@ + "}"@ =~= "}}"@);
    assert(object_text(seq![only]) =~= document_head() + joined_members(entries) + ("}"@ + "}"@));
}

/// Whether a selection can be exported. A selected bucket that does not exist is
/// an error.
pub fn check_selection(buckets: &Buckets, selected: Option<&str>) -> (r: Result<(), DatastoreError>)
    ensures
        r is Ok <==> !selects_nothing(buckets@, selection(selected)),
        r matches Err(err) ==> err is NoSuchBucket && err.detail() == selection(selected)->0,
{
    if let Some(id) = selected {
        if buckets.position(id).is_none() {
            return Err(DatastoreError::NoSuchBucket(id.to_owned()));
        }
    }
    Ok(())
}

/// Whether a bucket is to be exported.
pub fn exports(bucket: &Bucket, selected: Option<&str>) -> (r: bool)
    ensures
        r == is_selected(*bucket, selection(selected)),
{
    match selected {
        Some(id) => same_text(bucket.id.as_str(), id),
        None => true,
    }
}

/// Appends the document of all buckets, or of the selected one.
///
/// `event_rows` holds, for each bucket, the JSON text of each of its events, or
/// why a row is not an event. A selected bucket that does not exist is an error,
/// and nothing is written then. Given that the texts of the events are JSON, a reader
/// gets back the buckets with their metadata and events, and no other.
#[verifier::rlimit(30)]
pub fn write_export(
    buckets: &Buckets,
    event_rows: &Vec<Vec<Result<String, RowError>>>,
    selected: Option<&str>,
    out: &mut String,
) -> (r: Result<(), DatastoreError>)
    requires
        event_rows.len() == buckets@.len(),
    ensures
        selects_nothing(buckets@, selection(selected)) ==> {
            &&& r matches Err(err) && err is NoSuchBucket && err.detail() == selection(selected)->0
            &&& final(out)@ == old(out)@
        },
        !selects_nothing(buckets@, selection(selected)) ==> match first_invalid(
            buckets@,
            selection(selected),
            buckets@.len() as int,
        ) {
            None => {
                &&& r is Ok
                &&& final(out)@ == old(out)@ + export_document(
                    buckets@,
                    event_rows@,
                    selection(selected),
                )
                &&& exports_json_events(buckets@, event_rows@, selection(selected)) ==> read_json(
                    export_document(buckets@, event_rows@, selection(selected)),
                ) == Some(export_json(buckets@, event_rows@, selection(selected)))
            },
            Some(k) => {
                &&& r matches Err(err) && err is InternalError && err.detail()
                    == "Failed to write export: "@ + "invalid bucket metadata"@
                &&& final(out)@ == old(out)@ + broken_document(
                    buckets@,
                    event_rows@,
                    selection(selected),
                    k,
                )
            },
        },
{
    check_selection(buckets, selected)?;
    let ghost before = out@;
    let ghost sel = selection(selected);
    let ghost all = buckets@;
    let ghost open = document_head();
    let mut writer = ExportWriter::begin(out);
    let count: usize = buckets.len();
    assert(distinct_ids(all));
    let mut i: usize = 0;
    assert(bucket_entries(all, event_rows@, sel, 0).map_values(
        |e: (Seq<char>, Seq<char>)| member_text(e.0, e.1),
    ) =~= Seq::<Seq<char>>::empty());
    assert(out@ =~= before + open + joined_members(bucket_entries(all, event_rows@, sel, 0)));
    while i < count
        invariant
            i <= count,
            count == all.len(),
            all == buckets@,
            sel == selection(selected),
            event_rows.len() == count,
            open == document_head(),
            first_invalid(all, sel, i as int) is None,
            writer.has_bucket() <==> bucket_entries(all, event_rows@, sel, i as int).len() > 0,
            out@ == before + open + joined_members(
                bucket_entries(all, event_rows@, sel, i as int),
            ),
            !selects_nothing(all, sel),
            old(out)@ == before,
            forall|k: int|
                0 <= k < i && is_selected(#[trigger] all[k], sel) ==> has_json_metadata(all[k]),
        decreases count - i,
    {
        let bucket = buckets.at(i);
        let ghost entries = bucket_entries(all, event_rows@, sel, i as int);
        if exports(bucket, selected) {
            let begun = writer.begin_bucket(bucket, out);
            if let Err(err) = begun {
                proof {
                    assert(first_invalid(all, sel, i + 1) == Some(i as int));
                    first_invalid_stays(all, sel, i + 1, all.len() as int);
                    assert(out@ =~= before + broken_document(all, event_rows@, sel, i as int));
                }
                return Err(err);
            }
            let ghost head = out@;
            write_events(&mut writer, &event_rows[i], out);
            writer.end_bucket(out);
            proof {
                let events = valid_texts(event_rows@[i as int]@);
                let m = object_of(bucket.metadata)->0;
                lemma_joined_members_push(entries, bucket_entry(*bucket, event_rows@[i as int]@));
                lemma_bucket_in_pieces(bucket.id@, m, events);
                assert(out@ =~= before + open + joined_members(entries) + comma_after(entries) + (
                bucket_head(bucket.id@, m) + comma_joined(events) + "]}"@));
                assert(out@ =~= before + open + (joined_members(entries) + comma_after(entries)
                    + member_text(bucket.id@, bucket_text(m, events))));
            }
        }
        i = i + 1;
    }
    writer.finish(out);
    proof {
        lemma_document_in_pieces(bucket_entries(all, event_rows@, sel, all.len() as int));
        assert(out@ =~= before + export_document(all, event_rows@, sel));
        if exports_json_events(all, event_rows@, sel) {
            export_reads_back(all, event_rows@, sel);
        }
    }
    Ok(())
}

proof fn first_invalid_stays(
    buckets: Seq<Bucket>,
    selected: Option<Seq<char>>,
    m: int,
    n: int,
)
    requires
        m <= n,
        first_invalid(buckets, selected, m) is Some,
    ensures
        first_invalid(buckets, selected, n) == first_invalid(buckets, selected, m),
    decreases n,
{
    if m < n && n > 0 {
        first_invalid_stays(buckets, selected, m, n - 1);
    }
}

/// What `ExportWriter::write_event` appends for some rows of a bucket, one after the
/// other.
pub open spec fn event_pieces(rows: Seq<Result<String, RowError>>) -> Seq<char>
    decreases rows.len(),
{
    if rows.len() == 0 {
        Seq::empty()
    } else {
        let earlier = rows.drop_last();
        match rows.last() {
            Ok(text) => event_pieces(earlier) + comma_after(valid_texts(earlier)) + text@,
            Err(_) => event_pieces(earlier),
        }
    }
}

/// What is appended for the first `n` buckets: for each that is to be exported, what
/// `ExportWriter::begin_bucket` appends, then `write_event` for its rows, then
/// `end_bucket`.
pub open spec fn bucket_pieces(
    buckets: Seq<Bucket>,
    rows: Seq<Vec<Result<String, RowError>>>,
    selected: Option<Seq<char>>,
    n: int,
) -> Seq<char>
    decreases n,
{
    if n <= 0 {
        Seq::empty()
    } else {
        let bucket = buckets[n - 1];
        let earlier = bucket_pieces(buckets, rows, selected, n - 1);
        if is_selected(bucket, selected) {
            earlier + comma_after(bucket_entries(buckets, rows, selected, n - 1)) + bucket_head(
                bucket.id@,
                object_of(bucket.metadata)->0,
            ) + event_pieces(rows[n - 1]@) + "]}"@
        } else {
            earlier
        }
    }
}

proof fn event_pieces_join(rows: Seq<Result<String, RowError>>)
    ensures
        event_pieces(rows) == comma_joined(valid_texts(rows)),
    decreases rows.len(),
{
    if rows.len() > 0 {
        let earlier = rows.drop_last();
        event_pieces_join(earlier);
        if let Ok(text) = rows.last() {
            lemma_comma_joined_push(valid_texts(earlier), text@);
        }
    }
}

proof fn bucket_pieces_join(
    buckets: Seq<Bucket>,
    rows: Seq<Vec<Result<String, RowError>>>,
    selected: Option<Seq<char>>,
    n: int,
)
    ensures
        bucket_pieces(buckets, rows, selected, n) == joined_members(
            bucket_entries(buckets, rows, selected, n),
        ),
    decreases n,
{
    if n <= 0 {
        assert(bucket_entries(buckets, rows, selected, n).map_values(
            |e: (Seq<char>, Seq<char>)| member_text(e.0, e.1),
        ) =~= Seq::<Seq<char>>::empty());
    } else {
        let bucket = buckets[n - 1];
        let entries = bucket_entries(buckets, rows, selected, n - 1);
        bucket_pieces_join(buckets, rows, selected, n - 1);
        if is_selected(bucket, selected) {
            let m = object_of(bucket.metadata)->0;
            let events = valid_texts(rows[n - 1]@);
            event_pieces_join(rows[n - 1]@);
            lemma_joined_members_push(entries, bucket_entry(bucket, rows[n - 1]@));
            lemma_bucket_in_pieces(bucket.id@, m, events);
            assert(joined_members(entries) + comma_after(entries) + bucket_head(bucket.id@, m)
                + comma_joined(events) + "]}"@ =~= joined_members(entries) + comma_after(entries)
                + (bucket_head(bucket.id@, m) + comma_joined(events) + "]}"@));
        }
    }
}

/// What an `ExportWriter` appends piece by piece, from `begin` to `finish`, makes up
/// the whole document.
pub proof fn pieces_make_up_document(
    buckets: Seq<Bucket>,
    rows: Seq<Vec<Result<String, RowError>>>,
    selected: Option<Seq<char>>,
)
    ensures
        document_head() + bucket_pieces(buckets, rows, selected, buckets.len() as int) + "}}"@
            == export_document(buckets, rows, selected),
{
    bucket_pieces_join(buckets, rows, selected, buckets.len() as int);
    lemma_document_in_pieces(bucket_entries(buckets, rows, selected, buckets.len() as int));
}

/// Without a selection, the document has every bucket, in the order of the
/// buckets, and each under a key of its own.
pub proof fn export_has_every_bucket(
    buckets: Seq<Bucket>,
    rows: Seq<Vec<Result<String, RowError>>>,
    n: int,
)
    requires
        0 <= n <= buckets.len(),
    ensures
        bucket_entries(buckets, rows, None, n) == Seq::new(
            n as nat,
            |i: int| bucket_entry(buckets[i], rows[i]@),
        ),
        distinct_ids(buckets) ==> forall|i: int, j: int|
            0 <= i < j < n ==> (#[trigger] bucket_entries(buckets, rows, None, n)[i]).0 != (
            #[trigger] bucket_entries(buckets, rows, None, n)[j]).0,
    decreases n,
{
    if n > 0 {
        export_has_every_bucket(buckets, rows, n - 1);
    }
    assert(bucket_entries(buckets, rows, None, n) =~= Seq::new(
        n as nat,
        |i: int| bucket_entry(buckets[i], rows[i]@),
    ));
}

proof fn selected_entries(
    buckets: Seq<Bucket>,
    rows: Seq<Vec<Result<String, RowError>>>,
    id: Seq<char>,
    i: int,
    n: int,
)
    requires
        distinct_ids(buckets),
        0 <= i < buckets.len(),
        buckets[i].id@ == id,
        0 <= n <= buckets.len(),
    ensures
        bucket_entries(buckets, rows, Some(id), n) == if i < n {
            seq![bucket_entry(buckets[i], rows[i]@)]
        } else {
            Seq::empty()
        },
    decreases n,
{
    if n > 0 {
        selected_entries(buckets, rows, id, i, n - 1);
        if n - 1 == i {
            assert(Seq::empty().push(bucket_entry(buckets[i], rows[i]@)) =~= seq![
                bucket_entry(buckets[i], rows[i]@),
            ]);
        } else {
            assert(buckets[n - 1].id@ != buckets[i].id@);
        }
    }
}

/// With a selection, the document is the one of the selected bucket alone.
pub proof fn selected_export_is_of_one_bucket(
    buckets: Seq<Bucket>,
    rows: Seq<Vec<Result<String, RowError>>>,
    id: Seq<char>,
)
    requires
        distinct_ids(buckets),
        rows.len() == buckets.len(),
        place_of(buckets, id) is Some,
    ensures
        ({
            let i = place_of(buckets, id)->0;
            export_document(buckets, rows, Some(id)) == export_document(
                seq![buckets[i]],
                seq![rows[i]],
                None,
            )
        }),
{
    let i = place_of(buckets, id)->0;
    selected_entries(buckets, rows, id, i, buckets.len() as int);
    export_has_every_bucket(seq![buckets[i]], seq![rows[i]], 1);
    assert(bucket_entries(seq![buckets[i]], seq![rows[i]], None, 1) =~= seq![
        bucket_entry(buckets[i], rows[i]@),
    ]);
}

/// Corrupt rows leave no trace in the document.
pub proof fn corrupt_texts_leave_no_trace(rows: Seq<Result<String, RowError>>)
    ensures
        valid_texts(rows.filter(|r: Result<String, RowError>| r is Ok)) == valid_texts(rows),
    decreases rows.len(),
{
    reveal(Seq::filter);
    let valid = |r: Result<String, RowError>| r is Ok;
    if rows.len() > 0 {
        let rest = rows.drop_last();
        corrupt_texts_leave_no_trace(rest);
        if rows.last() is Ok {
            assert(rows.filter(valid).drop_last() =~= rest.filter(valid));
        }
    }
}

spec fn not_events(k: Seq<char>) -> bool {
    k != "events"@
}

/// Leaving the events out of a list of keys keeps its order and its other keys.
proof fn keys_without_events(keys: Seq<Seq<char>>)
    requires
        forall|i: int, j: int| 0 <= i < j < keys.len() ==> text_before(keys[i], keys[j]),
    ensures
        ({
            let kept = keys.filter(|k: Seq<char>| not_events(k));
            &&& forall|i: int, j: int| 0 <= i < j < kept.len() ==> text_before(kept[i], kept[j])
            &&& forall|k: Seq<char>| #[trigger]
                kept.contains(k) <==> keys.contains(k) && not_events(k)
        }),
    decreases keys.len(),
{
    reveal(Seq::filter);
    let keep = |k: Seq<char>| not_events(k);
    let kept = keys.filter(keep);
    if keys.len() > 0 {
        let rest = keys.drop_last();
        let kept_rest = rest.filter(keep);
        keys_without_events(rest);
        assert forall|k: Seq<char>| #[trigger] kept.contains(k) <==> keys.contains(k) && not_events(
            k,
        ) by {
            if kept.contains(k) {
                let n = choose|n: int| 0 <= n < kept.len() && kept[n] == k;
                if n < kept_rest.len() {
                    assert(kept_rest[n] == k);
                    assert(kept_rest.contains(k));
                    let m = choose|m: int| 0 <= m < rest.len() && rest[m] == k;
                    assert(keys[m] == k);
                } else {
                    assert(keys[keys.len() - 1] == k);
                }
            }
            if keys.contains(k) && not_events(k) {
                let m = choose|m: int| 0 <= m < keys.len() && keys[m] == k;
                if m < rest.len() {
                    assert(rest[m] == k);
                    assert(kept_rest.contains(k));
                    let n = choose|n: int| 0 <= n < kept_rest.len() && kept_rest[n] == k;
                    assert(kept[n] == k);
                } else {
                    assert(kept[kept.len() - 1] == k);
                }
            }
        }
        assert forall|i: int, j: int| 0 <= i < j < kept.len() implies text_before(
            kept[i],
            kept[j],
        ) by {
            if j < kept_rest.len() {
                assert(text_before(kept_rest[i], kept_rest[j]));
            } else {
                assert(kept_rest[i] == kept[i]);
                assert(kept_rest.contains(kept[i]));
                let m = choose|m: int| 0 <= m < rest.len() && rest[m] == kept[i];
                assert(keys[m] == kept[i]);
            }
        }
    }
}

proof fn entries_skip_events(
    m: Map<Seq<char>, Value>,
    other: Map<Seq<char>, Value>,
    keys: Seq<Seq<char>>,
)
    requires
        forall|k: Seq<char>| not_events(k) ==> m[k] == #[trigger] other[k],
    ensures
        metadata_entries(m, keys) == metadata_entries(
            other,
            keys.filter(|k: Seq<char>| not_events(k)),
        ),
    decreases keys.len(),
{
    reveal(Seq::filter);
    let keep = |k: Seq<char>| not_events(k);
    if keys.len() > 0 {
        entries_skip_events(m, other, keys.drop_last());
        if not_events(keys.last()) {
            assert(keys.filter(keep).drop_last() =~= keys.drop_last().filter(keep));
            assert(m[keys.last()] == other[keys.last()]);
        }
    }
}

proof fn metadata_entries_follow_keys(m: Map<Seq<char>, Value>, keys: Seq<Seq<char>>)
    requires
        forall|i: int, j: int| 0 <= i < j < keys.len() ==> text_before(keys[i], keys[j]),
    ensures
        ({
            let entries = metadata_entries(m, keys);
            &&& forall|i: int, j: int|
                0 <= i < j < entries.len() ==> (#[trigger] entries[i]).0 != (
                #[trigger] entries[j]).0
            &&& forall|k: Seq<char>, t: Seq<char>| #[trigger]
                entries.contains((k, t)) <==> keys.contains(k) && k != "events"@ && t
                    == json_text(m[k])
        }),
    decreases keys.len(),
{
    let entries = metadata_entries(m, keys);
    if keys.len() > 0 {
        let rest = keys.drop_last();
        let earlier = metadata_entries(m, rest);
        let last = keys.last();
        metadata_entries_follow_keys(m, rest);
        assert forall|k: Seq<char>| #[trigger] keys.contains(k) <==> rest.contains(k) || k
            == last by {
            if rest.contains(k) {
                let n = choose|n: int| 0 <= n < rest.len() && rest[n] == k;
                assert(keys[n] == k);
            }
            if k == last {
                assert(keys[keys.len() - 1] == k);
            }
            if keys.contains(k) && k != last {
                let n = choose|n: int| 0 <= n < keys.len() && keys[n] == k;
                assert(rest[n] == k);
            }
        }
        assert(!rest.contains(last)) by {
            if rest.contains(last) {
                let n = choose|n: int| 0 <= n < rest.len() && rest[n] == last;
                assert(text_before(keys[n], keys[keys.len() - 1]));
                text_order_is_strict(last, last);
            }
        }
        if last != "events"@ {
            let entry = (last, json_text(m[last]));
            assert(entries == earlier.push(entry));
            assert forall|k: Seq<char>, t: Seq<char>| #[trigger]
                entries.contains((k, t)) <==> earlier.contains((k, t)) || (k, t) == entry by {
                if earlier.contains((k, t)) {
                    let n = choose|n: int| 0 <= n < earlier.len() && earlier[n] == (k, t);
                    assert(entries[n] == (k, t));
                }
                if (k, t) == entry {
                    assert(entries[earlier.len() as int] == (k, t));
                }
            }
            assert forall|i: int, j: int| 0 <= i < j < entries.len() implies (
            #[trigger] entries[i]).0 != (#[trigger] entries[j]).0 by {
                assert(entries[i] == earlier[i]);
                if j < earlier.len() {
                    assert(entries[j] == earlier[j]);
                } else {
                    assert(earlier.contains((earlier[i].0, earlier[i].1)));
                }
            }
        }
    }
}

/// A bucket in the document has exactly the members of its metadata, with their
/// values, and its events under the key `events`; no key comes twice.
pub proof fn bucket_is_metadata_with_events(
    m: Map<Seq<char>, Value>,
    keys: Seq<Seq<char>>,
    events: Seq<Seq<char>>,
)
    requires
        lists_keys(keys, m),
    ensures
        ({
            let all = bucket_members(m, events);
            &&& forall|i: int, j: int|
                0 <= i < j < all.len() ==> (#[trigger] all[i]).0 != (#[trigger] all[j]).0
            &&& forall|k: Seq<char>, t: Seq<char>| #[trigger]
                all.contains((k, t)) <==> if k == "events"@ {
                    t == array_text(events)
                } else {
                    m.contains_key(k) && t == json_text(m[k])
                }
        }),
{
    let all = bucket_members(m, events);
    let entries = metadata_entries(m, ordered_keys(m));
    let last = ("events"@, array_text(events));
    key_list_is_unique(keys, ordered_keys(m), m);
    metadata_entries_follow_keys(m, keys);
    assert forall|k: Seq<char>, t: Seq<char>| #[trigger]
        all.contains((k, t)) <==> entries.contains((k, t)) || (k, t) == last by {
        if entries.contains((k, t)) {
            let n = choose|n: int| 0 <= n < entries.len() && entries[n] == (k, t);
            assert(all[n] == (k, t));
        }
        if (k, t) == last {
            assert(all[entries.len() as int] == (k, t));
        }
    }
    assert forall|i: int, j: int| 0 <= i < j < all.len() implies (#[trigger] all[i]).0 != (
    #[trigger] all[j]).0 by {
        assert(all[i] == entries[i]);
        if j < entries.len() {
            assert(all[j] == entries[j]);
        } else {
            assert(entries.contains((entries[i].0, entries[i].1)));
        }
    }
}

/// The events that the metadata of a bucket may hold are never written: the
/// document is the same without them.
pub proof fn events_of_metadata_are_replaced(
    m: Map<Seq<char>, Value>,
    keys: Seq<Seq<char>>,
    events: Seq<Seq<char>>,
)
    requires
        lists_keys(keys, m),
    ensures
        bucket_text(m, events) == bucket_text(m.remove("events"@), events),
{
    let other = m.remove("events"@);
    let kept = keys.filter(|k: Seq<char>| not_events(k));
    keys_without_events(keys);
    assert(lists_keys(kept, other));
    key_list_is_unique(keys, ordered_keys(m), m);
    key_list_is_unique(kept, ordered_keys(other), other);
    entries_skip_events(m, other, keys);
}

/// The events of a bucket in the document are its rows that are not corrupt, each once
/// and in order: those of some rows and those of the rows after them, one of a row that
/// is an event, none of a corrupt one.
pub proof fn each_row_gives_its_text(
    a: Seq<Result<String, RowError>>,
    b: Seq<Result<String, RowError>>,
    text: String,
    err: RowError,
)
    ensures
        valid_texts(a + b) == valid_texts(a) + valid_texts(b),
        valid_texts(seq![Ok(text)]) == seq![text@],
        valid_texts(seq![Err(err)]) == Seq::<Seq<char>>::empty(),
    decreases b.len(),
{
    let good: Seq<Result<String, RowError>> = seq![Ok(text)];
    let bad: Seq<Result<String, RowError>> = seq![Err(err)];
    let none = Seq::<Result<String, RowError>>::empty();
    assert(good.drop_last() =~= none);
    assert(bad.drop_last() =~= none);
    assert(valid_texts(none) =~= Seq::<Seq<char>>::empty());
    assert(valid_texts(good) =~= seq![text@]);
    if b.len() == 0 {
        assert(a + b =~= a);
        assert(valid_texts(a) + valid_texts(b) =~= valid_texts(a));
    } else {
        each_row_gives_its_text(a, b.drop_last(), text, err);
        assert((a + b).drop_last() =~= a + b.drop_last());
        assert(valid_texts(a + b) =~= valid_texts(a) + valid_texts(b));
    }
}

/// There are as many events as rows that are not corrupt, and the event in a place is
/// that of the row in the same place among them.
pub proof fn texts_are_of_valid_rows(rows: Seq<Result<String, RowError>>)
    ensures
        ({
            let valid = rows.filter(|r: Result<String, RowError>| r is Ok);
            &&& valid_texts(rows).len() == valid.len()
            &&& forall|i: int| 0 <= i < valid.len() ==> #[trigger] valid_texts(rows)[i] == valid[i]->Ok_0@
        }),
    decreases rows.len(),
{
    reveal(Seq::filter);
    let keep = |r: Result<String, RowError>| r is Ok;
    if rows.len() > 0 {
        let rest = rows.drop_last();
        texts_are_of_valid_rows(rest);
        let valid = rows.filter(keep);
        assert forall|i: int| 0 <= i < valid.len() implies #[trigger] valid_texts(rows)[i]
            == valid[i]->Ok_0@ by {
            if i < rest.filter(keep).len() {
                assert(valid_texts(rows)[i] == valid_texts(rest)[i]);
                assert(valid[i] == rest.filter(keep)[i]);
            }
        }
    }
}

/// Where no row is corrupt, there are as many events as rows, and each has the text of
/// the row in its place.
pub proof fn every_valid_row_is_exported(rows: Seq<Result<String, RowError>>, i: int)
    requires
        forall|j: int| 0 <= j < rows.len() ==> #[trigger] rows[j] is Ok,
        0 <= i < rows.len(),
    ensures
        valid_texts(rows).len() == rows.len(),
        valid_texts(rows)[i] == rows[i]->Ok_0@,
    decreases rows.len(),
{
    let rest = rows.drop_last();
    assert(rows[rows.len() - 1] is Ok);
    assert forall|j: int| 0 <= j < rest.len() implies #[trigger] rest[j] is Ok by {
        assert(rest[j] == rows[j]);
    }
    if i < rest.len() {
        every_valid_row_is_exported(rest, i);
        assert(rest[i] == rows[i]);
    } else if rest.len() > 0 {
        every_valid_row_is_exported(rest, 0);
    }
}

/// A bucket is exported exactly if none is selected or it is the one; a selection is in
/// vain exactly if no bucket has the id.
pub proof fn selection_is_by_id(buckets: Seq<Bucket>, selected: Option<Seq<char>>, i: int)
    requires
        0 <= i < buckets.len(),
    ensures
        is_selected(buckets[i], selected) <==> selected is None || selected == Some(
            buckets[i].id@,
        ),
        selects_nothing(buckets, selected) <==> selected is Some && forall|j: int|
            0 <= j < buckets.len() ==> (#[trigger] buckets[j]).id@ != selected->0,
{
}

/// The bucket at which an export breaks off is the first of those that are exported whose
/// metadata is not an object; there is none if all have one.
pub proof fn export_breaks_at_first_without_metadata(
    buckets: Seq<Bucket>,
    selected: Option<Seq<char>>,
    n: int,
    i: int,
)
    requires
        0 <= i < n <= buckets.len(),
        selected is None || selected == Some(buckets[i].id@),
        object_of(buckets[i].metadata) is None,
    ensures
        first_invalid(buckets, selected, n) matches Some(k) && {
            &&& 0 <= k <= i
            &&& selected is None || selected == Some(buckets[k].id@)
            &&& object_of(buckets[k].metadata) is None
        },
    decreases n,
{
    if i < n - 1 {
        export_breaks_at_first_without_metadata(buckets, selected, n - 1, i);
    } else if first_invalid(buckets, selected, n - 1) is Some {
        first_invalid_is_without_metadata(buckets, selected, n - 1);
    }
}

/// An export breaks off only at a bucket that is exported and whose metadata is not an
/// object.
pub proof fn first_invalid_is_without_metadata(
    buckets: Seq<Bucket>,
    selected: Option<Seq<char>>,
    n: int,
)
    requires
        0 <= n <= buckets.len(),
    ensures
        first_invalid(buckets, selected, n) matches Some(k) ==> {
            &&& 0 <= k < n
            &&& selected is None || selected == Some(buckets[k].id@)
            &&& object_of(buckets[k].metadata) is None
        },
    decreases n,
{
    if n > 0 {
        first_invalid_is_without_metadata(buckets, selected, n - 1);
    }
}

/// A selection is the text that it was given as.
pub proof fn selection_is_as_given(id: &str)
    ensures
        selection(Some(id)) == Some(id@),
        selection(None) is None,
{
}

/// Between any two parts stands a comma and nothing else; members of an object have a key,
/// a colon and a value.
pub proof fn parts_are_separated_by_commas(
    a: Seq<Seq<char>>,
    b: Seq<Seq<char>>,
    key: Seq<char>,
    value: Seq<char>,
)
    requires
        a.len() > 0,
        b.len() > 0,
    ensures
        comma_joined(a + b) == comma_joined(a) + seq![','] + comma_joined(b),
        comma_joined(seq![value]) == value,
        comma_joined(Seq::empty()) == Seq::<char>::empty(),
        member_text(key, value) == json_quoted(key) + seq![':'] + value,
        object_text(seq![(key, value)]) == "{"@ + json_quoted(key) + seq![':'] + value + "}"@,
        array_text(a) == "["@ + comma_joined(a) + "]"@,
    decreases b.len(),
{
    let rest = b.drop_last();
    assert((a + b).drop_last() =~= a + rest);
    if b.len() == 1 {
        assert(a + rest =~= a);
    } else {
        parts_are_separated_by_commas(a, rest, key, value);
    }
    assert(comma_joined(a + b) =~= comma_joined(a) + seq![','] + comma_joined(b));
    let one = seq![(key, value)];
    assert(one.map_values(|e: (Seq<char>, Seq<char>)| member_text(e.0, e.1)) =~= seq![
        member_text(key, value),
    ]);
    assert(member_text(key, value) =~= json_quoted(key) + seq![':'] + value);
    assert(object_text(one) =~= "{"@ + json_quoted(key) + seq![':'] + value + "}"@);
}

/// What is there of an export that breaks off at a bucket is the document of the buckets
/// before it up to there, and the key of the bucket.
pub proof fn broken_export_ends_with_key(
    buckets: Seq<Bucket>,
    rows: Seq<Vec<Result<String, RowError>>>,
    selected: Option<Seq<char>>,
    k: int,
)
    requires
        0 <= k < buckets.len(),
    ensures
        ({
            let before = document_head() + bucket_pieces(buckets, rows, selected, k);
            let key = json_quoted(buckets[k].id@) + seq![':'];
            let first = forall|i: int|
                0 <= i < k ==> selected is Some && selected->0 != (#[trigger] buckets[i]).id@;
            broken_document(buckets, rows, selected, k) == if first {
                before + key
            } else {
                before + seq![','] + key
            }
        }),
{
    bucket_pieces_join(buckets, rows, selected, k);
    let entries = bucket_entries(buckets, rows, selected, k);
    entries_of_selected_only(buckets, rows, selected, k);
    let before = document_head() + bucket_pieces(buckets, rows, selected, k);
    let key = json_quoted(buckets[k].id@) + seq![':'];
    assert(json_quoted(buckets[k].id@).push(':') =~= key);
    if entries.len() == 0 {
        assert(broken_document(buckets, rows, selected, k) =~= before + key);
    } else {
        assert(broken_document(buckets, rows, selected, k) =~= before + seq![','] + key);
    }
}

proof fn entries_of_selected_only(
    buckets: Seq<Bucket>,
    rows: Seq<Vec<Result<String, RowError>>>,
    selected: Option<Seq<char>>,
    n: int,
)
    requires
        0 <= n <= buckets.len(),
    ensures
        bucket_entries(buckets, rows, selected, n).len() == 0 <==> forall|i: int|
            0 <= i < n ==> selected is Some && selected->0 != (#[trigger] buckets[i]).id@,
    decreases n,
{
    if n > 0 {
        entries_of_selected_only(buckets, rows, selected, n - 1);
        assert(is_selected(buckets[n - 1], selected) <==> !(selected is Some && selected->0
            != buckets[n - 1].id@));
    }
}

} // verus!
