//! The buckets of a datastore, and which of their events an export asks for.

use serde_json::Value;
use vstd::prelude::*;

use crate::csv::{
    csv_document, csv_record, data_columns, event_fields, event_records, header_fields, row_event,
    row_events, write_csv_header, EventsCsv,
};
use crate::csv_reader::{document_reads_back, read_csv};
use crate::error::DatastoreError;
use crate::event::{views, Event, EventRow, EventView, RowError};
use crate::json::{ordered_keys, parsed_object};
use crate::text::{same_text, texts};
use crate::time::{has_nanos, Timestamp};

verus! {

/// A bucket of events.
pub struct Bucket {
    /// The row of the bucket in the database, once it is stored.
    pub bid: Option<i64>,
    pub id: String,
    /// The bucket as a JSON value.
    pub metadata: Value,
}

/// The buckets of a datastore, no two of which have the same id.
pub struct Buckets {
    list: Vec<Bucket>,
}

/// The place of the bucket with an id, if there is one.
pub open spec fn place_of(buckets: Seq<Bucket>, id: Seq<char>) -> Option<int> {
    if exists|i: int| 0 <= i < buckets.len() && (#[trigger] buckets[i]).id@ == id {
        Some(choose|i: int| 0 <= i < buckets.len() && (#[trigger] buckets[i]).id@ == id)
    } else {
        None
    }
}

/// Whether no two buckets have the same id.
pub open spec fn distinct_ids(buckets: Seq<Bucket>) -> bool {
    forall|i: int, j: int|
        0 <= i < j < buckets.len() ==> (#[trigger] buckets[i]).id@ != (#[trigger] buckets[j]).id@
}

impl View for Buckets {
    type V = Seq<Bucket>;

    closed spec fn view(&self) -> Seq<Bucket> {
        self.list@
    }
}

impl Buckets {
    #[verifier::type_invariant]
    closed spec fn valid(self) -> bool {
        distinct_ids(self.list@)
    }

    /// No buckets.
    pub fn new() -> (r: Buckets)
        ensures
            r@ == Seq::<Bucket>::empty(),
    {
        Buckets { list: Vec::new() }
    }

    /// How many buckets there are.
    pub fn len(&self) -> (n: usize)
        ensures
            n == self@.len(),
            distinct_ids(self@),
    {
        proof {
            use_type_invariant(self);
        }
        self.list.len()
    }

    /// The place of the bucket with an id.
    pub fn position(&self, id: &str) -> (r: Option<usize>)
        ensures
            match r {
                Some(i) => place_of(self@, id@) == Some(i as int) && i < self@.len()
                    && self@[i as int].id@ == id@,
                None => place_of(self@, id@) is None,
            },
    {
        proof {
            use_type_invariant(self);
        }
        let mut i: usize = 0;
        while i < self.list.len()
            invariant
                i <= self.list.len(),
                distinct_ids(self.list@),
                forall|k: int| 0 <= k < i ==> (#[trigger] self.list[k]).id@ != id@,
            decreases self.list.len() - i,
        {
            if same_text(self.list[i].id.as_str(), id) {
                assert(self@[i as int].id@ == id@);
                return Some(i);
            }
            i = i + 1;
        }
        None
    }

    /// The bucket at a place.
    pub fn at(&self, i: usize) -> (b: &Bucket)
        requires
            i < self@.len(),
        ensures
            *b == self@[i as int],
    {
        &self.list[i]
    }

    /// Puts a bucket in: in the place of the one with the same id, if there is
    /// one, and at the end otherwise.
    pub fn insert(&mut self, bucket: Bucket)
        ensures
            final(self)@ == match place_of(old(self)@, bucket.id@) {
                Some(i) => old(self)@.update(i, bucket),
                None => old(self)@.push(bucket),
            },
    {
        proof {
            use_type_invariant(&*self);
        }
        let place = self.position(bucket.id.as_str());
        let mut list: Vec<Bucket> = Vec::new();
        std::mem::swap(&mut list, &mut self.list);
        match place {
            Some(i) => {
                list.set(i, bucket);
            },
            None => {
                list.push(bucket);
            },
        }
        self.list = list;
    }
}

/// Where an export starts that was asked to start at an instant, or was not.
pub open spec fn range_start(starttime_opt: Option<Timestamp>) -> int {
    match starttime_opt {
        Some(t) => t.ns(),
        None => 0,
    }
}

/// Where an export ends that was asked to end at an instant, or was not.
pub open spec fn range_end(endtime_opt: Option<Timestamp>) -> int {
    match endtime_opt {
        Some(t) => t.ns(),
        None => i64::MAX as int,
    }
}

/// The limit as the database takes it: a signed integer of 64 bits, of which a
/// negative one is no limit.
pub open spec fn sql_limit(limit_opt: Option<u64>) -> int {
    match limit_opt {
        Some(l) if l <= i64::MAX => l as int,
        Some(l) => l - 0x1_0000_0000_0000_0000,
        None => -1,
    }
}

/// The rows that a query gives under a limit: the first ones, or all if the limit
/// is negative.
pub open spec fn limited(rows: Seq<Result<EventRow, RowError>>, limit: int) -> Seq<
    Result<EventRow, RowError>,
> {
    if 0 <= limit < rows.len() {
        rows.take(limit)
    } else {
        rows
    }
}

/// What the query of an export is asked with.
#[derive(Clone, Copy, Debug, PartialEq, Eq, Structural)]
pub struct EventFilter {
    pub bucketrow: i64,
    pub starttime: i64,
    pub endtime: i64,
    pub limit: i64,
}

/// Whether an export of a bucket can be asked for: if there is such a bucket,
/// both bounds fit 64 bits, and unless the range is empty the bucket is stored.
pub open spec fn can_filter(
    buckets: Seq<Bucket>,
    bucket_id: Seq<char>,
    starttime_opt: Option<Timestamp>,
    endtime_opt: Option<Timestamp>,
) -> bool {
    place_of(buckets, bucket_id) matches Some(i) ==> {
        &&& starttime_opt matches Some(t) ==> has_nanos(t@)
        &&& endtime_opt matches Some(t) ==> has_nanos(t@)
        &&& range_start(starttime_opt) <= range_end(endtime_opt) ==> buckets[i].bid is Some
    }
}

fn limit_as_i64(l: u64) -> (r: i64)
    ensures
        r == sql_limit(Some(l)),
{
    assert(l <= 0x7fff_ffff_ffff_ffff ==> (l as i64) == l) by (bit_vector);
    assert(l > 0x7fff_ffff_ffff_ffff ==> (l as i64) == l - 0x1_0000_0000_0000_0000)
        by (bit_vector);
    #[verifier::truncate]
    (l as i64)
}

/// What to ask the database for, or nothing if the range is empty. A bucket that
/// does not exist is an error.
pub fn event_filter(
    buckets: &Buckets,
    bucket_id: &str,
    starttime_opt: Option<Timestamp>,
    endtime_opt: Option<Timestamp>,
    limit_opt: Option<u64>,
) -> (r: Result<Option<EventFilter>, DatastoreError>)
    requires
        can_filter(buckets@, bucket_id@, starttime_opt, endtime_opt),
    ensures
        match place_of(buckets@, bucket_id@) {
            None => r matches Err(err) && err is NoSuchBucket && err.detail() == bucket_id@,
            Some(i) => if range_start(starttime_opt) > range_end(endtime_opt) {
                r == Ok::<_, DatastoreError>(None::<EventFilter>)
            } else {
                r == Ok::<_, DatastoreError>(
                    Some(
                        (EventFilter {
                            bucketrow: buckets@[i].bid->0,
                            starttime: range_start(starttime_opt) as i64,
                            endtime: range_end(endtime_opt) as i64,
                            limit: sql_limit(limit_opt) as i64,
                        }),
                    ),
                )
            },
        },
{
    let place: usize = match buckets.position(bucket_id) {
        Some(i) => i,
        None => {
            return Err(DatastoreError::NoSuchBucket(bucket_id.to_owned()));
        },
    };
    let starttime: i64 = match starttime_opt {
        Some(t) => t.timestamp_nanos_opt().unwrap(),
        None => 0,
    };
    let endtime: i64 = match endtime_opt {
        Some(t) => t.timestamp_nanos_opt().unwrap(),
        None => i64::MAX,
    };
    if starttime > endtime {
        return Ok(None);
    }
    let limit: i64 = match limit_opt {
        Some(l) => limit_as_i64(l),
        None => -1,
    };
    let bucketrow: i64 = buckets.at(place).bid.unwrap();
    Ok(Some(EventFilter { bucketrow, starttime, endtime, limit }))
}

/// The query of an export. Both forms give the same rows in the same order; they
/// differ in the index that the database walks.
pub fn events_query_sql(prefer_endtime_index: bool) -> (sql: &'static str)
    ensures
        sql@ == if prefer_endtime_index {
            "SELECT id, starttime, endtime, data FROM events INDEXED BY events_bucketrow_endtime_starttime_index WHERE bucketrow = ?1 AND endtime >= ?2 AND starttime <= ?3 ORDER BY starttime DESC, endtime ASC, id ASC LIMIT ?4"@
        } else {
            "SELECT id, starttime, endtime, data FROM events INDEXED BY events_bucketrow_starttime_endtime_index WHERE bucketrow = ?1 AND endtime >= ?2 AND starttime <= ?3 ORDER BY starttime DESC, endtime ASC, id ASC LIMIT ?4"@
        },
{
    if prefer_endtime_index {
        "SELECT id, starttime, endtime, data FROM events INDEXED BY events_bucketrow_endtime_starttime_index WHERE bucketrow = ?1 AND endtime >= ?2 AND starttime <= ?3 ORDER BY starttime DESC, endtime ASC, id ASC LIMIT ?4"
    } else {
        "SELECT id, starttime, endtime, data FROM events INDEXED BY events_bucketrow_starttime_endtime_index WHERE bucketrow = ?1 AND endtime >= ?2 AND starttime <= ?3 ORDER BY starttime DESC, endtime ASC, id ASC LIMIT ?4"
    }
}

/// Appends the document of the rows that a query returned, as many as a limit says,
/// cut to a range.
pub fn write_csv_rows(
    starttime: i64,
    endtime: i64,
    limit: i64,
    rows: &Vec<Result<EventRow, RowError>>,
    out: &mut String,
)
    ensures
        final(out)@ == old(out)@ + csv_document(
            row_events(limited(rows@, limit as int), (starttime, endtime)),
        ),
{
    let ghost before = out@;
    let ghost range = (starttime, endtime);
    let count: usize = if limit < 0 || limit as u64 >= rows.len() as u64 {
        rows.len()
    } else {
        limit as usize
    };
    let mut csv = EventsCsv::new(starttime, endtime);
    let mut i: usize = 0;
    assert(row_events(rows@.take(0), range) =~= Seq::<EventView>::empty());
    while i < count
        invariant
            i <= count <= rows.len(),
            range == (starttime, endtime),
            csv.range() == range,
            ({
                let events = row_events(rows@.take(i as int), range);
                match csv.columns() {
                    None => events.len() == 0 && out@ == before,
                    Some(keys) => {
                        &&& events.len() > 0
                        &&& keys == data_columns(events)
                        &&& out@ == before + csv_record(header_fields(keys)) + event_records(
                            events,
                            keys,
                        )
                    },
                }
            }),
        decreases count - i,
    {
        let ghost events = row_events(rows@.take(i as int), range);
        let ghost written = out@;
        let ghost columns = csv.columns();
        let skipped = csv.write_row(&rows[i], out);
        proof {
            assert(rows@.take(i + 1).drop_last() =~= rows@.take(i as int));
            assert(rows@.take(i + 1).last() == rows@[i as int]);
            let later = row_events(rows@.take(i + 1), range);
            if let Some(e) = row_event(rows@[i as int], range) {
                assert(later == events.push(e));
                assert(later.drop_last() =~= events);
                let keys = csv.columns()->0;
                if columns is None {
                    assert(events =~= Seq::<EventView>::empty());
                    assert(event_records(events, keys) =~= Seq::<char>::empty());
                } else {
                    assert(later[0] == events[0]);
                }
                assert(out@ =~= before + csv_record(header_fields(keys)) + event_records(
                    later,
                    keys,
                ));
            }
        }
        i = i + 1;
    }
    let ghost events = row_events(rows@.take(count as int), range);
    assert(rows@.take(count as int) =~= limited(rows@, limit as int));
    csv.finish(out);
    proof {
        if csv.columns() is None {
            assert(events =~= Seq::<EventView>::empty());
            assert(event_records(events, data_columns(events)) =~= Seq::<char>::empty());
        }
        assert(out@ =~= before + csv_document(events));
    }
}

/// Appends the document of one bucket.
///
/// `rows` is what the query of `event_filter` returned, with its limit or without:
/// no more rows are taken than the limit says. The columns are `id`,
/// `timestamp` and `duration`, then all keys of the data of the first event that
/// is not corrupt. Events are cut to the range, and corrupt rows are left out. An
/// empty range gives a header alone.
pub fn write_events_csv(
    buckets: &Buckets,
    bucket_id: &str,
    starttime_opt: Option<Timestamp>,
    endtime_opt: Option<Timestamp>,
    limit_opt: Option<u64>,
    rows: &Vec<Result<EventRow, RowError>>,
    out: &mut String,
) -> (r: Result<(), DatastoreError>)
    requires
        can_filter(buckets@, bucket_id@, starttime_opt, endtime_opt),
    ensures
        match place_of(buckets@, bucket_id@) {
            None => {
                &&& r matches Err(err) && err is NoSuchBucket && err.detail() == bucket_id@
                &&& final(out)@ == old(out)@
            },
            Some(_) => {
                &&& r is Ok
                &&& final(out)@ == old(out)@ + if range_start(starttime_opt) > range_end(
                    endtime_opt,
                ) {
                    csv_record(header_fields(Seq::empty()))
                } else {
                    csv_document(
                        row_events(
                            limited(rows@, sql_limit(limit_opt)),
                            (range_start(starttime_opt) as i64, range_end(endtime_opt) as i64),
                        ),
                    )
                }
            },
        },
{
    match event_filter(buckets, bucket_id, starttime_opt, endtime_opt, limit_opt) {
        Ok(Some(filter)) => {
            write_csv_rows(filter.starttime, filter.endtime, filter.limit, rows, out);
            Ok(())
        },
        Ok(None) => {
            let none: Vec<String> = Vec::new();
            assert(texts(none@) =~= Seq::<Seq<char>>::empty());
            write_csv_header(out, &none);
            Ok(())
        },
        Err(err) => Err(err),
    }
}

/// A document that is written row by row is the one that is written from the
/// events of the rows at once.
pub proof fn streamed_document_is_document_of_events(
    rows: Seq<Result<EventRow, RowError>>,
    range: (i64, i64),
    events: Seq<Event>,
)
    requires
        views(events) == row_events(rows, range),
    ensures
        csv_document(row_events(rows, range)) == csv_document(views(events)),
{
}

/// What `EventsCsv::write_row` appends for some rows, one after the other.
pub open spec fn csv_pieces(rows: Seq<Result<EventRow, RowError>>, range: (i64, i64)) -> Seq<char>
    decreases rows.len(),
{
    if rows.len() == 0 {
        Seq::empty()
    } else {
        let earlier = rows.drop_last();
        let events = row_events(earlier, range);
        match row_event(rows.last(), range) {
            Some(e) if events.len() == 0 => csv_pieces(earlier, range) + csv_record(
                header_fields(ordered_keys(e.data)),
            ) + csv_record(event_fields(e, ordered_keys(e.data))),
            Some(e) => csv_pieces(earlier, range) + csv_record(
                event_fields(e, data_columns(events)),
            ),
            None => csv_pieces(earlier, range),
        }
    }
}

/// What `EventsCsv::finish` appends after some rows.
pub open spec fn csv_end(rows: Seq<Result<EventRow, RowError>>, range: (i64, i64)) -> Seq<char> {
    if row_events(rows, range).len() == 0 {
        csv_record(header_fields(Seq::empty()))
    } else {
        Seq::empty()
    }
}

proof fn csv_pieces_join(rows: Seq<Result<EventRow, RowError>>, range: (i64, i64))
    ensures
        csv_pieces(rows, range) == if row_events(rows, range).len() == 0 {
            Seq::empty()
        } else {
            csv_document(row_events(rows, range))
        },
    decreases rows.len(),
{
    if rows.len() > 0 {
        let earlier = rows.drop_last();
        let events = row_events(earlier, range);
        csv_pieces_join(earlier, range);
        if let Some(e) = row_event(rows.last(), range) {
            let all = events.push(e);
            let keys = data_columns(all);
            assert(all.drop_last() =~= events);
            if events.len() == 0 {
                assert(event_records(events, keys) =~= Seq::<char>::empty());
                assert(all[0] == e);
            } else {
                assert(all[0] == events[0]);
            }
            assert(csv_pieces(rows, range) =~= csv_document(all));
        }
    }
}

/// What an `EventsCsv` appends row by row, and at the end, makes up the whole
/// document.
pub proof fn rows_make_up_document(rows: Seq<Result<EventRow, RowError>>, range: (i64, i64))
    ensures
        csv_pieces(rows, range) + csv_end(rows, range) == csv_document(row_events(rows, range)),
{
    let events = row_events(rows, range);
    csv_pieces_join(rows, range);
    if events.len() == 0 {
        assert(event_records(events, data_columns(events)) =~= Seq::<char>::empty());
    }
    assert(csv_pieces(rows, range) + csv_end(rows, range) =~= csv_document(events));
}

/// The records of a document but its header.
pub open spec fn data_records(document: Seq<char>) -> Seq<Seq<Seq<char>>> {
    read_csv(document).skip(1)
}

proof fn first_rows_give_first_events(
    rows: Seq<Result<EventRow, RowError>>,
    range: (i64, i64),
    k: int,
)
    requires
        0 <= k <= rows.len(),
    ensures
        row_events(rows.take(k), range).is_prefix_of(row_events(rows, range)),
        row_events(rows.take(k), range).len() <= k,
        (forall|i: int| 0 <= i < rows.len() ==> row_event(#[trigger] rows[i], range) is Some)
            ==> row_events(rows.take(k), range).len() == k,
    decreases rows.len(),
{
    if rows.len() > 0 {
        let rest = rows.drop_last();
        if k < rows.len() {
            first_rows_give_first_events(rest, range, k);
            assert(rest.take(k) =~= rows.take(k));
        } else {
            first_rows_give_first_events(rest, range, k - 1);
            assert(rest.take(k - 1) =~= rest);
            assert(rows.take(k) =~= rows);
        }
        assert(forall|i: int| 0 <= i < rest.len() ==> #[trigger] rest[i] == rows[i]);
        if forall|i: int| 0 <= i < rows.len() ==> row_event(#[trigger] rows[i], range) is Some {
            assert(row_event(rows[rows.len() - 1], range) is Some);
            assert forall|i: int| 0 <= i < rest.len() implies row_event(
                #[trigger] rest[i],
                range,
            ) is Some by {
                assert(rest[i] == rows[i]);
            }
        }
    }
}

/// The records under a limit are the first of those without one, and at most as many
/// as the limit says. Where no row is corrupt, they are as many, or all there are; a
/// corrupt row uses up the limit and has no record. A limit that a signed integer of
/// 64 bits does not hold is none, and as good as none for as many rows as it says.
pub proof fn limit_gives_first_records(
    rows: Seq<Result<EventRow, RowError>>,
    range: (i64, i64),
    limit_opt: Option<u64>,
)
    ensures
        ({
            let all = data_records(csv_document(row_events(rows, range)));
            let some = data_records(
                csv_document(row_events(limited(rows, sql_limit(limit_opt)), range)),
            );
            &&& some.is_prefix_of(all)
            &&& limit_opt is None ==> some == all
            &&& limit_opt matches Some(n) ==> n <= i64::MAX || rows.len() <= n ==> {
                &&& some.len() <= n
                &&& (forall|i: int|
                    0 <= i < rows.len() ==> row_event(#[trigger] rows[i], range) is Some)
                    ==> some.len() == if n < all.len() {
                    n as nat
                } else {
                    all.len()
                }
            }
        }),
{
    let limit = sql_limit(limit_opt);
    let k = limited(rows, limit).len() as int;
    assert(limited(rows, limit) =~= rows.take(k));
    first_rows_give_first_events(rows, range, k);
    first_rows_give_first_events(rows, range, rows.len() as int);
    assert(rows.take(rows.len() as int) =~= rows);
    let events = row_events(rows, range);
    let first = row_events(rows.take(k), range);
    document_reads_back(events);
    document_reads_back(first);
    let all = data_records(csv_document(events));
    let some = data_records(csv_document(first));
    assert(all.len() == events.len());
    assert(some.len() == first.len());
    if first.len() > 0 {
        assert(first[0] == events[0]);
        assert(data_columns(first) == data_columns(events));
    }
    assert(some =~= all.take(some.len() as int));
}

/// Corrupt rows leave no trace in the document, which has a header and one record
/// for each row that is not corrupt.
pub proof fn corrupt_rows_leave_no_trace(
    rows: Seq<Result<EventRow, RowError>>,
    range: (i64, i64),
)
    ensures
        ({
            let valid = rows.filter(|r: Result<EventRow, RowError>| row_event(r, range) is Some);
            &&& row_events(rows, range) == row_events(valid, range)
            &&& read_csv(csv_document(row_events(rows, range))).len() == valid.len() + 1
        }),
{
    let valid = rows.filter(|r: Result<EventRow, RowError>| row_event(r, range) is Some);
    row_events_of_valid_rows(rows, range);
    document_reads_back(row_events(rows, range));
}

proof fn row_events_of_valid_rows(rows: Seq<Result<EventRow, RowError>>, range: (i64, i64))
    ensures
        ({
            let valid = rows.filter(|r: Result<EventRow, RowError>| row_event(r, range) is Some);
            &&& row_events(rows, range) == row_events(valid, range)
            &&& row_events(rows, range).len() == valid.len()
        }),
    decreases rows.len(),
{
    reveal(Seq::filter);
    let keep = |r: Result<EventRow, RowError>| row_event(r, range) is Some;
    if rows.len() > 0 {
        let rest = rows.drop_last();
        row_events_of_valid_rows(rest, range);
        if row_event(rows.last(), range) is Some {
            assert(rows.filter(keep).drop_last() =~= rest.filter(keep));
        }
    }
}

/// Every event lies within the range that it was cut to, and is not longer than
/// its row. One that the query can return does not end before it starts, unless
/// its row does.
pub proof fn events_are_cut_to_range(row: EventRow, range: (i64, i64))
    requires
        row.event(Some(range)) is Some,
    ensures
        ({
            let e = row.event(Some(range))->0;
            &&& e.start.ns() >= range.0
            &&& e.start.later(e.length).ns() <= range.1
            &&& e.start.ns() >= row.starttime
            &&& e.start.later(e.length).ns() <= row.endtime
            &&& row.starttime <= row.endtime && row.endtime >= range.0 && row.starttime <= range.1
                && range.0 <= range.1 ==> e.length >= 0
        }),
{
}

/// A row that lies within the range is not cut.
pub proof fn rows_within_range_stay(row: EventRow, range: (i64, i64))
    requires
        row.event(Some(range)) is Some,
        range.0 <= row.starttime,
        row.endtime <= range.1,
    ensures
        row.event(Some(range)) == row.event(None),
{
}

/// The events of rows are those of each row, in order: none of a row that could not be
/// read, one of a row whose data is a JSON object, none of any other.
pub proof fn each_row_gives_its_event(
    a: Seq<Result<EventRow, RowError>>,
    b: Seq<Result<EventRow, RowError>>,
    row: EventRow,
    err: RowError,
    range: (i64, i64),
)
    ensures
        row_events(a + b, range) == row_events(a, range) + row_events(b, range),
        row_events(seq![Err(err)], range) == Seq::<EventView>::empty(),
        row_events(seq![Ok(row)], range).len() == if parsed_object(row.data@) is Some {
            1nat
        } else {
            0
        },
        parsed_object(row.data@) is Some ==> Some(row_events(seq![Ok(row)], range)[0])
            == row.event(Some(range)),
    decreases b.len(),
{
    let good: Seq<Result<EventRow, RowError>> = seq![Ok(row)];
    let bad: Seq<Result<EventRow, RowError>> = seq![Err(err)];
    let none = Seq::<Result<EventRow, RowError>>::empty();
    assert(good.drop_last() =~= none);
    assert(bad.drop_last() =~= none);
    assert(row_events(none, range) =~= Seq::<EventView>::empty());
    if b.len() == 0 {
        assert(a + b =~= a);
        assert(row_events(a, range) + row_events(b, range) =~= row_events(a, range));
    } else {
        each_row_gives_its_event(a, b.drop_last(), row, err, range);
        assert((a + b).drop_last() =~= a + b.drop_last());
        assert(row_events(a + b, range) =~= row_events(a, range) + row_events(b, range));
    }
}

/// Where no row is corrupt, the document has a record for each row and no other, in the
/// order of the rows.
pub proof fn each_row_has_its_record(rows: Seq<Result<EventRow, RowError>>, range: (i64, i64))
    requires
        forall|i: int|
            0 <= i < rows.len() ==> (#[trigger] rows[i] matches Ok(row) && parsed_object(
                row.data@,
            ) is Some),
    ensures
        read_csv(csv_document(row_events(rows, range))).len() == rows.len() + 1,
        row_events(rows, range).len() == rows.len(),
        forall|i: int|
            0 <= i < rows.len() ==> Some(#[trigger] row_events(rows, range)[i])
                == rows[i]->Ok_0.event(Some(range)),
    decreases rows.len(),
{
    document_reads_back(row_events(rows, range));
    if rows.len() > 0 {
        let rest = rows.drop_last();
        assert forall|i: int| 0 <= i < rest.len() implies (#[trigger] rest[i] matches Ok(row)
            && parsed_object(row.data@) is Some) by {
            assert(rest[i] == rows[i]);
        }
        each_row_has_its_record(rest, range);
        assert(rows[rows.len() - 1] is Ok);
        let events = row_events(rows, range);
        assert forall|i: int| 0 <= i < rows.len() implies Some(#[trigger] events[i])
            == rows[i]->Ok_0.event(Some(range)) by {
            if i < rest.len() {
                assert(events[i] == row_events(rest, range)[i]);
                assert(rest[i] == rows[i]);
            }
        }
    }
}

/// An export that names no start begins with the Unix epoch, and one that names no end
/// has none; bounds that are named are taken to the nanosecond. A limit that is named is
/// the limit, as far as a signed integer of 64 bits holds it; otherwise it is negative.
pub proof fn query_is_as_asked(start: Timestamp, end: Timestamp, limit: u64)
    ensures
        range_start(None) == 0,
        range_end(None) == 0x7fff_ffff_ffff_ffff,
        range_start(Some(start)) == start@.secs * 1_000_000_000 + start@.nanos,
        range_end(Some(end)) == end@.secs * 1_000_000_000 + end@.nanos,
        sql_limit(None) < 0,
        limit <= 0x7fff_ffff_ffff_ffff ==> sql_limit(Some(limit)) == limit,
        limit > 0x7fff_ffff_ffff_ffff ==> sql_limit(Some(limit)) < 0,
{
}

/// Under a limit that is not negative the first rows are taken, as many as it says or
/// all there are; under any other all are.
pub proof fn limit_takes_first_rows(rows: Seq<Result<EventRow, RowError>>, limit: int)
    ensures
        limited(rows, limit).is_prefix_of(rows),
        limit < 0 || limit >= rows.len() ==> limited(rows, limit).len() == rows.len(),
        0 <= limit < rows.len() ==> limited(rows, limit).len() == limit,
{
}

/// A bucket is found exactly if there is one with the id, and where ids are distinct it
/// is found in its place.
pub proof fn bucket_is_found_by_id(buckets: Seq<Bucket>, id: Seq<char>, i: int)
    requires
        0 <= i < buckets.len(),
    ensures
        place_of(buckets, id) matches Some(p) ==> 0 <= p < buckets.len() && buckets[p].id@ == id,
        buckets[i].id@ == id ==> place_of(buckets, id) is Some,
        distinct_ids(buckets) && buckets[i].id@ == id ==> place_of(buckets, id) == Some(i),
{
}

} // verus!
