//! What an RFC 4180 reader makes of the documents that are written.

use vstd::prelude::*;

use crate::csv::{
    csv_document, csv_field, csv_fields, csv_record, data_columns, doubled_quotes, duration_text,
    event_fields, event_records, forces_quotes, header_fields, needs_quotes, neutralized,
    starts_formula,
};
use crate::event::EventView;
use crate::json::{json_text, key_list_is_unique, lists_keys, ordered_keys, string_of};
use crate::text::{
    decimal, decimal_has_no_leading_zero, decimal_reads_back, decimal_value, padded_decimal,
    padded_decimal_has_digits, padded_decimal_reads_back, pow10, signed_decimal,
};
use crate::time::rfc3339;

verus! {

/// Where in a field the reader is.
pub enum Place {
    /// Before its first character.
    Start,
    /// In a field without quotes.
    Plain,
    /// Between quotes.
    Quoted,
    /// After a quotation mark that ends the quotes, or is half of a doubled one.
    QuoteSeen,
}

/// What the reader has read: whole records, the fields of the record that it is
/// in, and the text of the field that it is in.
#[verifier::ext_equal]
pub struct Reader {
    pub records: Seq<Seq<Seq<char>>>,
    pub fields: Seq<Seq<char>>,
    pub field: Seq<char>,
    pub place: Place,
}

impl Reader {
    /// The reader before a document.
    pub open spec fn start() -> Reader {
        Reader {
            records: Seq::empty(),
            fields: Seq::empty(),
            field: Seq::empty(),
            place: Place::Start,
        }
    }

    pub open spec fn end_field(self) -> Reader {
        Reader {
            fields: self.fields.push(self.field),
            field: Seq::empty(),
            place: Place::Start,
            ..self
        }
    }

    pub open spec fn end_record(self) -> Reader {
        Reader {
            records: self.records.push(self.fields.push(self.field)),
            fields: Seq::empty(),
            field: Seq::empty(),
            place: Place::Start,
        }
    }

    pub open spec fn add(self, c: char, place: Place) -> Reader {
        Reader { field: self.field.push(c), place, ..self }
    }

    /// Reads one character.
    pub open spec fn read_char(self, c: char) -> Reader {
        match self.place {
            Place::Quoted => if c == '"' {
                Reader { place: Place::QuoteSeen, ..self }
            } else {
                self.add(c, Place::Quoted)
            },
            Place::QuoteSeen if c == '"' => self.add(c, Place::Quoted),
            Place::Start if c == '"' => Reader { place: Place::Quoted, ..self },
            _ => if c == ',' {
                self.end_field()
            } else if c == '\n' {
                self.end_record()
            } else {
                self.add(c, Place::Plain)
            },
        }
    }

    /// Reads a text.
    pub open spec fn read(self, s: Seq<char>) -> Reader
        decreases s.len(),
    {
        if s.len() == 0 {
            self
        } else {
            self.read(s.drop_last()).read_char(s.last())
        }
    }
}

/// The records of a document.
pub open spec fn read_csv(s: Seq<char>) -> Seq<Seq<Seq<char>>> {
    Reader::start().read(s).records
}

/// Fields without what a spreadsheet would take for a formula.
pub open spec fn all_neutralized(fields: Seq<Seq<char>>) -> Seq<Seq<char>> {
    fields.map_values(|f: Seq<char>| neutralized(f))
}

/// The records of a document of events: the header, and one for each event.
pub open spec fn document_records(events: Seq<EventView>) -> Seq<Seq<Seq<char>>> {
    let keys = data_columns(events);
    seq![all_neutralized(header_fields(keys))] + events.map_values(
        |e: EventView| all_neutralized(event_fields(e, keys)),
    )
}

proof fn read_concat(r: Reader, a: Seq<char>, b: Seq<char>)
    ensures
        r.read(a + b) == r.read(a).read(b),
    decreases b.len(),
{
    if b.len() == 0 {
        assert(a + b =~= a);
    } else {
        read_concat(r, a, b.drop_last());
        assert((a + b).drop_last() =~= a + b.drop_last());
    }
}

proof fn read_push(r: Reader, a: Seq<char>, c: char)
    ensures
        r.read(a.push(c)) == r.read(a).read_char(c),
{
    assert(a.push(c).drop_last() =~= a);
}

proof fn read_plain(r: Reader, s: Seq<char>)
    requires
        r.place is Start,
        r.field.len() == 0,
        !needs_quotes(s),
    ensures
        r.read(s) == (Reader {
            field: s,
            place: if s.len() == 0 {
                Place::Start
            } else {
                Place::Plain
            },
            ..r
        }),
    decreases s.len(),
{
    if s.len() == 0 {
        assert(r.field =~= s);
    } else {
        let t = s.drop_last();
        assert(!forces_quotes(s[s.len() - 1]));
        assert forall|i: int| 0 <= i < t.len() implies !forces_quotes(#[trigger] t[i]) by {
            assert(!forces_quotes(s[i]));
        }
        read_plain(r, t);
        assert(t.push(s.last()) =~= s);
    }
}

proof fn read_doubled(r: Reader, s: Seq<char>)
    requires
        r.place is Quoted,
    ensures
        r.read(doubled_quotes(s)) == (Reader { field: r.field + s, ..r }),
    decreases s.len(),
{
    if s.len() == 0 {
        assert(r.field + s =~= r.field);
    } else {
        let t = s.drop_last();
        let d = doubled_quotes(t);
        read_doubled(r, t);
        assert((r.field + t).push(s.last()) =~= r.field + s);
        if s.last() == '"' {
            assert(d + seq!['"', '"'] =~= d.push('"').push('"'));
            read_push(r, d, '"');
            read_push(r, d.push('"'), '"');
        } else {
            read_push(r, d, s.last());
        }
    }
}

/// After a field, a comma or a line feed ends it with the neutralized text.
proof fn read_field(r: Reader, s: Seq<char>)
    requires
        r.place is Start,
        r.field.len() == 0,
    ensures
        ({
            let after = r.read(csv_field(s));
            &&& after.fields == r.fields
            &&& after.records == r.records
            &&& after.field == neutralized(s)
            &&& !(after.place is Quoted)
        }),
{
    let t = neutralized(s);
    if needs_quotes(t) {
        let open = r.read_char('"');
        assert(r.read(seq!['"']) == open) by {
            assert(seq!['"'] =~= Seq::<char>::empty().push('"'));
            read_push(r, Seq::empty(), '"');
        }
        read_doubled(open, t);
        read_concat(r, seq!['"'], doubled_quotes(t));
        assert(csv_field(s) =~= (seq!['"'] + doubled_quotes(t)).push('"'));
        read_push(r, seq!['"'] + doubled_quotes(t), '"');
        assert(open.field + t =~= t);
    } else {
        read_plain(r, t);
    }
}

proof fn read_fields(r: Reader, fields: Seq<Seq<char>>)
    requires
        r.place is Start,
        r.field.len() == 0,
        r.fields.len() == 0,
        fields.len() > 0,
    ensures
        ({
            let after = r.read(csv_fields(fields));
            &&& after.fields.push(after.field) == all_neutralized(fields)
            &&& after.records == r.records
            &&& !(after.place is Quoted)
        }),
    decreases fields.len(),
{
    if fields.len() == 1 {
        read_field(r, fields[0]);
        let after = r.read(csv_fields(fields));
        assert(after.fields.push(after.field) =~= all_neutralized(fields));
    } else {
        let rest = fields.drop_last();
        read_fields(r, rest);
        let mid = r.read(csv_fields(rest));
        read_push(r, csv_fields(rest), ',');
        let next = mid.read_char(',');
        read_field(next, fields.last());
        read_concat(r, csv_fields(rest).push(','), csv_field(fields.last()));
        let after = r.read(csv_fields(fields));
        assert(after.fields.push(after.field) =~= all_neutralized(fields));
    }
}

proof fn read_record(r: Reader, fields: Seq<Seq<char>>)
    requires
        r.place is Start,
        r.field.len() == 0,
        r.fields.len() == 0,
        fields.len() > 0,
    ensures
        r.read(csv_record(fields)) == (Reader {
            records: r.records.push(all_neutralized(fields)),
            ..Reader::start()
        }),
{
    read_fields(r, fields);
    read_push(r, csv_fields(fields), '\n');
}

proof fn read_events(r: Reader, events: Seq<EventView>, keys: Seq<Seq<char>>)
    requires
        r == (Reader { records: r.records, ..Reader::start() }),
    ensures
        r.read(event_records(events, keys)) == (Reader {
            records: r.records + events.map_values(
                |e: EventView| all_neutralized(event_fields(e, keys)),
            ),
            ..Reader::start()
        }),
    decreases events.len(),
{
    let f = |e: EventView| all_neutralized(event_fields(e, keys));
    if events.len() == 0 {
        assert(r.records + events.map_values(f) =~= r.records);
    } else {
        let rest = events.drop_last();
        read_events(r, rest, keys);
        read_concat(
            r,
            event_records(rest, keys),
            csv_record(event_fields(events.last(), keys)),
        );
        read_record(r.read(event_records(rest, keys)), event_fields(events.last(), keys));
        assert((r.records + rest.map_values(f)).push(f(events.last())) =~= r.records
            + events.map_values(f));
    }
}

/// A reader gets back the fields of a record, neutralized.
pub proof fn record_reads_back(fields: Seq<Seq<char>>)
    requires
        fields.len() > 0,
    ensures
        read_csv(csv_record(fields)) == seq![all_neutralized(fields)],
{
    read_record(Reader::start(), fields);
    assert(Seq::empty().push(all_neutralized(fields)) =~= seq![all_neutralized(fields)]);
}

/// A reader gets back a header and one record for each event, whatever the data
/// holds, and nothing else.
pub proof fn document_reads_back(events: Seq<EventView>)
    ensures
        read_csv(csv_document(events)) == document_records(events),
        read_csv(csv_document(events)).len() == events.len() + 1,
{
    let keys = data_columns(events);
    let r = Reader::start();
    read_concat(r, csv_record(header_fields(keys)), event_records(events, keys));
    read_record(r, header_fields(keys));
    let after = r.read(csv_record(header_fields(keys)));
    read_events(after, events, keys);
    assert(after.records =~= seq![all_neutralized(header_fields(keys))]);
}

/// Every record of a document has as many fields as its header.
pub proof fn document_is_rectangular(events: Seq<EventView>, i: int)
    requires
        0 <= i < document_records(events).len(),
    ensures
        document_records(events)[i].len() == data_columns(events).len() + 3,
{
}

/// No field of a document is one that a spreadsheet takes for a formula.
pub proof fn document_has_no_formula(events: Seq<EventView>, i: int, j: int)
    requires
        0 <= i < document_records(events).len(),
        0 <= j < document_records(events)[i].len(),
    ensures
        ({
            let field = document_records(events)[i][j];
            field.len() == 0 || !starts_formula(field[0])
        }),
{
}

/// No written field begins with what a spreadsheet takes for a formula, quoted or
/// not.
pub proof fn field_is_no_formula(s: Seq<char>)
    ensures
        csv_field(s).len() == 0 || !starts_formula(csv_field(s)[0]),
{
}

/// Neutralizing changes a text by one character at the most, and a text that is
/// neutralized already not at all.
pub proof fn neutralizing_is_idempotent(s: Seq<char>)
    ensures
        neutralized(neutralized(s)) == neutralized(s),
        neutralized(s) == s || neutralized(s) == seq!['\''] + s,
{
}

/// The nanoseconds that seconds with nine decimals denote.
pub open spec fn duration_value(s: Seq<char>) -> int {
    let negative = s.len() > 0 && s[0] == '-';
    let digits = if negative {
        s.drop_first()
    } else {
        s
    };
    let whole = decimal_value(digits.take(digits.len() - 10));
    let part = decimal_value(digits.skip(digits.len() - 9));
    let size = whole * 1_000_000_000 + part;
    if negative {
        -size
    } else {
        size as int
    }
}

/// The text of a duration denotes its nanoseconds, to the last one.
pub proof fn duration_reads_back(ns: int)
    ensures
        duration_value(duration_text(ns)) == ns,
{
    let size = (if ns < 0 {
        -ns
    } else {
        ns
    }) as nat;
    let whole = decimal(size / 1_000_000_000);
    let part = padded_decimal(size % 1_000_000_000, 9);
    decimal_reads_back(size / 1_000_000_000);
    assert(pow10(9) == 1_000_000_000) by {
        reveal_with_fuel(pow10, 10);
    }
    padded_decimal_reads_back(size % 1_000_000_000, 9);
    let digits = whole.push('.') + part;
    let s = duration_text(ns);
    assert('0' <= whole[0] <= '9');
    if ns < 0 {
        assert(s =~= seq!['-'] + digits);
        assert(s.drop_first() =~= digits);
    } else {
        assert(s =~= digits);
        assert(s[0] == whole[0]);
    }
    assert(digits.take(digits.len() - 10) =~= whole);
    assert(digits.skip(digits.len() - 9) =~= part);
}

/// A text that begins with an equals sign, a plus or minus sign, an at sign, a tab or a
/// carriage return gets an apostrophe before it; any other text stays as it is.
pub proof fn neutralized_keeps_text(s: Seq<char>)
    ensures
        ({
            let n = neutralized(s);
            &&& n == s || (n.len() == s.len() + 1 && n[0] == '\'' && n.drop_first() == s)
            &&& n.len() > 0 ==> n[0] != '=' && n[0] != '+' && n[0] != '-' && n[0] != '@' && n[0]
                != '\t' && n[0] != '\r'
            &&& n != s ==> s[0] == '=' || s[0] == '+' || s[0] == '-' || s[0] == '@' || s[0] == '\t'
                || s[0] == '\r'
        }),
{
    assert((seq!['\''] + s).drop_first() =~= s);
}

/// Doubling the quotation marks of a text doubles those of its parts, each mark alone,
/// and nothing else.
pub proof fn quotes_are_doubled_one_by_one(a: Seq<char>, b: Seq<char>, c: char)
    ensures
        doubled_quotes(a + b) == doubled_quotes(a) + doubled_quotes(b),
        doubled_quotes(seq![c]) == if c == '"' {
            seq!['"', '"']
        } else {
            seq![c]
        },
    decreases b.len(),
{
    assert(seq![c].drop_last() =~= Seq::<char>::empty());
    assert(doubled_quotes(Seq::empty()) =~= Seq::<char>::empty());
    if c == '"' {
        assert(Seq::<char>::empty() + seq!['"', '"'] =~= seq!['"', '"']);
    } else {
        assert(Seq::<char>::empty().push(c) =~= seq![c]);
    }
    if b.len() == 0 {
        assert(a + b =~= a);
        assert(doubled_quotes(a) + doubled_quotes(b) =~= doubled_quotes(a));
    } else {
        quotes_are_doubled_one_by_one(a, b.drop_last(), c);
        assert((a + b).drop_last() =~= a + b.drop_last());
        assert(doubled_quotes(a + b) =~= doubled_quotes(a) + doubled_quotes(b));
    }
}

/// A field is its neutralized text, within quotation marks and with those of the text
/// doubled exactly if the text has a comma, a quotation mark or a line break.
pub proof fn field_is_quoted_where_it_has_to_be(s: Seq<char>)
    ensures
        ({
            let n = neutralized(s);
            let special = exists|i: int|
                0 <= i < n.len() && ((#[trigger] n[i]) == ',' || n[i] == '"' || n[i] == '\n' || n[i]
                    == '\r');
            csv_field(s) == if special {
                seq!['"'] + doubled_quotes(n) + seq!['"']
            } else {
                n
            }
        }),
{
    let n = neutralized(s);
    if needs_quotes(n) {
        let i = choose|i: int| 0 <= i < n.len() && forces_quotes(#[trigger] n[i]);
        assert(n[i] == ',' || n[i] == '"' || n[i] == '\n' || n[i] == '\r');
    } else {
        assert forall|i: int| 0 <= i < n.len() implies (#[trigger] n[i]) != ',' && n[i] != '"'
            && n[i] != '\n' && n[i] != '\r' by {
            assert(!forces_quotes(n[i]));
        }
    }
}

/// Between any two fields of a record stands a comma, and a line feed at its end.
pub proof fn fields_are_separated_by_commas(a: Seq<Seq<char>>, b: Seq<Seq<char>>, s: Seq<char>)
    requires
        a.len() > 0,
        b.len() > 0,
    ensures
        csv_fields(a + b) == csv_fields(a) + seq![','] + csv_fields(b),
        csv_fields(seq![s]) == csv_field(s),
        csv_fields(Seq::empty()) == Seq::<char>::empty(),
        csv_record(a) == csv_fields(a) + seq!['\n'],
        csv_record(Seq::empty()) == seq!['\n'],
    decreases b.len(),
{
    let rest = b.drop_last();
    assert((a + b).drop_last() =~= a + rest);
    assert((a + b).last() == b.last());
    if b.len() == 1 {
        assert(a + rest =~= a);
        assert(csv_fields(a + b) =~= csv_fields(a) + seq![','] + csv_fields(b));
    } else {
        fields_are_separated_by_commas(a, rest, s);
        assert(csv_fields(a + b) =~= csv_fields(a) + seq![','] + csv_fields(b));
    }
    assert(csv_record(a) =~= csv_fields(a) + seq!['\n']);
    assert(csv_fields(Seq::empty()) =~= Seq::<char>::empty());
    assert(csv_record(Seq::empty()) =~= seq!['\n']);
}

/// A duration is written as its whole seconds, a point and nine decimals, after a minus
/// sign exactly if it is negative. Together these digits are its nanoseconds.
pub proof fn duration_has_nine_decimals(ns: int)
    ensures
        ({
            let text = duration_text(ns);
            let digits = if ns < 0 {
                text.drop_first()
            } else {
                text
            };
            let n = digits.len() as int;
            &&& text.len() > 0
            &&& text[0] == '-' <==> ns < 0
            &&& n >= 11
            &&& digits[n - 10] == '.'
            &&& forall|i: int| 0 <= i < n && i != n - 10 ==> '0' <= #[trigger] digits[i] <= '9'
            &&& n == 11 || digits[0] != '0'
            &&& decimal_value(digits.take(n - 10)) * 1_000_000_000 + decimal_value(
                digits.skip(n - 9),
            ) == if ns < 0 {
                -ns
            } else {
                ns
            }
        }),
{
    let size = (if ns < 0 {
        -ns
    } else {
        ns
    }) as nat;
    let whole = decimal(size / 1_000_000_000);
    let part = padded_decimal(size % 1_000_000_000, 9);
    decimal_reads_back(size / 1_000_000_000);
    decimal_has_no_leading_zero(size / 1_000_000_000);
    padded_decimal_has_digits(size % 1_000_000_000, 9);
    duration_reads_back(ns);
    let digits = whole.push('.') + part;
    let text = duration_text(ns);
    assert('0' <= whole[0] <= '9');
    if ns < 0 {
        assert(text =~= seq!['-'] + digits);
        assert(text.drop_first() =~= digits);
    } else {
        assert(text =~= digits);
        assert(text[0] == whole[0]);
    }
    let n = digits.len() as int;
    assert forall|i: int| 0 <= i < n && i != n - 10 implies '0' <= #[trigger] digits[i] <= '9' by {
        if i < n - 10 {
            assert(digits[i] == whole[i]);
        } else {
            assert(digits[i] == part[i - (n - 9)]);
        }
    }
}

/// A reader gets a header and, for each event, a record as long. The first three fields
/// of a record are the id, the start and the duration of the event. Each field after
/// them is what the event has under the key that stands in the same place of the header:
/// its string, the JSON of any other value, or nothing.
pub proof fn fields_stand_under_their_keys(
    events: Seq<EventView>,
    keys: Seq<Seq<char>>,
    i: int,
    j: int,
)
    requires
        0 <= i < events.len(),
        lists_keys(keys, events[0].data),
    ensures
        ({
            let records = read_csv(csv_document(events));
            let header = records[0];
            let record = records[i + 1];
            let e = events[i];
            let key = keys[j];
            &&& records.len() == events.len() + 1
            &&& header.len() == 3 + keys.len()
            &&& header[0] == "id"@ && header[1] == "timestamp"@ && header[2] == "duration"@
            &&& record.len() == header.len()
            &&& record[0] == match e.id {
                Some(id) => neutralized(signed_decimal(id as int)),
                None => Seq::<char>::empty(),
            }
            &&& record[1] == neutralized(rfc3339(e.start.secs, e.start.nanos))
            &&& record[2] == neutralized(duration_text(e.length))
            &&& 0 <= j < keys.len() ==> {
                &&& header[3 + j] == neutralized(key)
                &&& !e.data.contains_key(key) ==> record[3 + j] == Seq::<char>::empty()
                &&& e.data.contains_key(key) ==> match string_of(e.data[key]) {
                    Some(text) => record[3 + j] == neutralized(text),
                    None => record[3 + j] == neutralized(json_text(e.data[key])),
                }
            }
        }),
{
    reveal_strlit("id");
    reveal_strlit("timestamp");
    reveal_strlit("duration");
    document_reads_back(events);
    key_list_is_unique(keys, ordered_keys(events[0].data), events[0].data);
    let fields = event_fields(events[i], keys);
    let record = read_csv(csv_document(events))[i + 1];
    assert(record == all_neutralized(fields));
    if 0 <= j < keys.len() {
        assert(record[3 + j] == neutralized(fields[3 + j]));
    }
    assert(record[0] == neutralized(fields[0]));
}

/// A document whose first event has no data, or that has no events, has no more fields
/// than the first three.
pub proof fn header_without_data(events: Seq<EventView>)
    requires
        events.len() > 0 ==> lists_keys(Seq::empty(), events[0].data),
    ensures
        ({
            let records = read_csv(csv_document(events));
            &&& records.len() == events.len() + 1
            &&& records[0] == seq!["id"@, "timestamp"@, "duration"@]
            &&& forall|i: int| 0 < i < records.len() ==> (#[trigger] records[i]).len() == 3
        }),
{
    reveal_strlit("id");
    reveal_strlit("timestamp");
    reveal_strlit("duration");
    document_reads_back(events);
    if events.len() > 0 {
        key_list_is_unique(Seq::empty(), ordered_keys(events[0].data), events[0].data);
    }
    assert(data_columns(events) =~= Seq::<Seq<char>>::empty());
    let records = read_csv(csv_document(events));
    assert(records[0] =~= seq!["id"@, "timestamp"@, "duration"@]);
}

/// The records of events follow one another, with nothing between them.
pub proof fn records_follow_one_another(
    a: Seq<EventView>,
    b: Seq<EventView>,
    e: EventView,
    keys: Seq<Seq<char>>,
)
    ensures
        event_records(a + b, keys) == event_records(a, keys) + event_records(b, keys),
        event_records(seq![e], keys) == csv_record(event_fields(e, keys)),
    decreases b.len(),
{
    assert(seq![e].drop_last() =~= Seq::<EventView>::empty());
    assert(event_records(Seq::empty(), keys) =~= Seq::<char>::empty());
    assert(event_records(seq![e], keys) =~= csv_record(event_fields(e, keys)));
    if b.len() == 0 {
        assert(a + b =~= a);
        assert(event_records(a, keys) + event_records(b, keys) =~= event_records(a, keys));
    } else {
        records_follow_one_another(a, b.drop_last(), e, keys);
        assert((a + b).drop_last() =~= a + b.drop_last());
        assert(event_records(a + b, keys) =~= event_records(a, keys) + event_records(b, keys));
    }
}

/// One more event at the end of a document adds its record and changes nothing else. The
/// document of the first event is a header and its record, and that of no events a header
/// of the three fixed names.
pub proof fn one_more_event_adds_its_record(
    events: Seq<EventView>,
    e: EventView,
    keys: Seq<Seq<char>>,
)
    requires
        lists_keys(
            keys,
            if events.len() == 0 {
                e.data
            } else {
                events[0].data
            },
        ),
    ensures
        csv_document(events.push(e)) == (if events.len() == 0 {
            csv_record(seq!["id"@, "timestamp"@, "duration"@] + keys)
        } else {
            csv_document(events)
        }) + csv_record(event_fields(e, keys)),
        csv_document(Seq::empty()) == csv_record(seq!["id"@, "timestamp"@, "duration"@]),
{
    let all = events.push(e);
    key_list_is_unique(keys, ordered_keys(all[0].data), all[0].data);
    assert(all =~= events + seq![e]);
    records_follow_one_another(events, seq![e], e, keys);
    let none = Seq::<EventView>::empty();
    let no_keys = Seq::<Seq<char>>::empty();
    assert(event_records(none, no_keys) =~= Seq::<char>::empty());
    assert(event_records(none, keys) =~= Seq::<char>::empty());
    assert(header_fields(no_keys) =~= seq!["id"@, "timestamp"@, "duration"@]);
    assert(csv_document(none) =~= csv_record(seq!["id"@, "timestamp"@, "duration"@]));
    if events.len() == 0 {
        assert(events =~= none);
    }
    assert(csv_document(all) =~= (if events.len() == 0 {
        csv_record(seq!["id"@, "timestamp"@, "duration"@] + keys)
    } else {
        csv_document(events)
    }) + csv_record(event_fields(e, keys)));
}

} // verus!
