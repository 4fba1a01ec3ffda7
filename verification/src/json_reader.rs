//! What an RFC 8259 reader makes of the JSON texts that are written.

use serde_json::Value;
use vstd::prelude::*;

use crate::event::RowError;
use crate::export::{
    array_text, bucket_entries, bucket_entry, bucket_is_metadata_with_events, bucket_members,
    comma_after, comma_joined, export_document, is_selected, joined_members,
    lemma_comma_joined_push, lemma_joined_members_push, member_text, object_text,
    selection_is_by_id, texts_are_of_valid_rows, valid_texts,
};
use crate::json::{
    hex_digit, json_escape, json_escaped, json_quoted, json_text, lists_keys, object_of,
    ordered_keys,
};
use crate::query::{bucket_is_found_by_id, distinct_ids, place_of, Bucket};

verus! {

/// A JSON value. A number is the text that it was read from.
pub enum Json {
    Null,
    Bool(bool),
    Number(Seq<char>),
    Text(Seq<char>),
    Array(Seq<Json>),
    Object(Map<Seq<char>, Json>),
}

/// An array or an object that the reader is in.
pub enum Frame {
    /// An array, with its items so far.
    Array(Seq<Json>),
    /// An object, with its members so far, and the key of the member that is being
    /// read.
    Object(Map<Seq<char>, Json>, Seq<char>),
}

/// Where in a string literal the reader is.
pub enum Escape {
    /// Outside an escape.
    Outside,
    /// After a backslash.
    Backslash,
    /// In the digits of a `\u` escape: how many there were, and their value. With
    /// the first half of a surrogate pair, if that came before.
    Hex(nat, nat, Option<nat>),
    /// After the first half of a surrogate pair.
    Half(nat),
    /// After that and a backslash.
    HalfBackslash(nat),
}

/// Which part of a number the reader has read last.
pub enum NumberPart {
    Minus,
    Zero,
    Whole,
    Point,
    Fraction,
    Exponent,
    ExponentSign,
    ExponentDigits,
}

/// What the reader is in the middle of.
pub enum Mode {
    /// A value has to come.
    Value,
    /// An array has begun: a value or its end has to come.
    FirstItem,
    /// An object has begun: a key or its end has to come.
    FirstKey,
    /// A key has to come.
    Key,
    /// A colon has to come.
    Colon,
    /// A string literal, which may be a key.
    Literal(bool, Seq<char>, Escape),
    Number(Seq<char>, NumberPart),
    /// `true`, `false` or `null`.
    Word(Seq<char>),
    /// An item or a member has been read: a comma or an end has to come.
    After,
    /// The value has been read, and only whitespace may come.
    Done(Json),
    /// The text is not JSON.
    Failed,
}

/// A reader, with the arrays and objects that it is in.
pub struct JsonReader {
    pub frames: Seq<Frame>,
    pub mode: Mode,
}

pub open spec fn is_space(c: char) -> bool {
    c == ' ' || c == '\t' || c == '\n' || c == '\r'
}

pub open spec fn is_digit(c: char) -> bool {
    '0' <= c && c <= '9'
}

/// The value of a hexadecimal digit.
pub open spec fn hex_value(c: char) -> Option<nat> {
    if is_digit(c) {
        Some((c as nat - 48) as nat)
    } else if 'a' <= c && c <= 'f' {
        Some((c as nat - 87) as nat)
    } else if 'A' <= c && c <= 'F' {
        Some((c as nat - 55) as nat)
    } else {
        None
    }
}

/// The part of a number that a character leads to.
pub open spec fn next_part(part: NumberPart, c: char) -> Option<NumberPart> {
    match part {
        NumberPart::Minus => if c == '0' {
            Some(NumberPart::Zero)
        } else if is_digit(c) {
            Some(NumberPart::Whole)
        } else {
            None
        },
        NumberPart::Zero | NumberPart::Whole => if is_digit(c) && part is Whole {
            Some(NumberPart::Whole)
        } else if c == '.' {
            Some(NumberPart::Point)
        } else if c == 'e' || c == 'E' {
            Some(NumberPart::Exponent)
        } else {
            None
        },
        NumberPart::Point => if is_digit(c) {
            Some(NumberPart::Fraction)
        } else {
            None
        },
        NumberPart::Fraction => if is_digit(c) {
            Some(NumberPart::Fraction)
        } else if c == 'e' || c == 'E' {
            Some(NumberPart::Exponent)
        } else {
            None
        },
        NumberPart::Exponent => if c == '+' || c == '-' {
            Some(NumberPart::ExponentSign)
        } else if is_digit(c) {
            Some(NumberPart::ExponentDigits)
        } else {
            None
        },
        NumberPart::ExponentSign | NumberPart::ExponentDigits => if is_digit(c) {
            Some(NumberPart::ExponentDigits)
        } else {
            None
        },
    }
}

/// Whether a number may end with a part.
pub open spec fn may_end(part: NumberPart) -> bool {
    part is Zero || part is Whole || part is Fraction || part is ExponentDigits
}

/// The value of a whole word.
pub open spec fn word_value(s: Seq<char>) -> Option<Json> {
    if s == seq!['t', 'r', 'u', 'e'] {
        Some(Json::Bool(true))
    } else if s == seq!['f', 'a', 'l', 's', 'e'] {
        Some(Json::Bool(false))
    } else if s == seq!['n', 'u', 'l', 'l'] {
        Some(Json::Null)
    } else {
        None
    }
}

/// Whether a text begins a word.
pub open spec fn begins_word(s: Seq<char>) -> bool {
    ||| s.is_prefix_of(seq!['t', 'r', 'u', 'e'])
    ||| s.is_prefix_of(seq!['f', 'a', 'l', 's', 'e'])
    ||| s.is_prefix_of(seq!['n', 'u', 'l', 'l'])
}

impl JsonReader {
    /// The reader before a text.
    pub open spec fn start() -> JsonReader {
        JsonReader { frames: Seq::empty(), mode: Mode::Value }
    }

    pub open spec fn to(self, mode: Mode) -> JsonReader {
        JsonReader { frames: self.frames, mode }
    }

    /// Opens an array or an object.
    pub open spec fn enter(self, frame: Frame, mode: Mode) -> JsonReader {
        JsonReader { frames: self.frames.push(frame), mode }
    }

    /// Takes a value that has been read to where it belongs.
    pub open spec fn take(self, v: Json) -> JsonReader {
        if self.frames.len() == 0 {
            self.to(Mode::Done(v))
        } else {
            let outer = self.frames.drop_last();
            match self.frames.last() {
                Frame::Array(items) => JsonReader {
                    frames: outer.push(Frame::Array(items.push(v))),
                    mode: Mode::After,
                },
                Frame::Object(members, key) => JsonReader {
                    frames: outer.push(Frame::Object(members.insert(key, v), Seq::empty())),
                    mode: Mode::After,
                },
            }
        }
    }

    /// Closes the innermost array or object.
    pub open spec fn close(self) -> JsonReader {
        let outer = JsonReader { frames: self.frames.drop_last(), mode: self.mode };
        match self.frames.last() {
            Frame::Array(items) => outer.take(Json::Array(items)),
            Frame::Object(members, _) => outer.take(Json::Object(members)),
        }
    }

    /// Reads the first character of a value.
    pub open spec fn begin_value(self, c: char) -> JsonReader {
        if c == '[' {
            self.enter(Frame::Array(Seq::empty()), Mode::FirstItem)
        } else if c == '{' {
            self.enter(Frame::Object(Map::empty(), Seq::empty()), Mode::FirstKey)
        } else if c == '"' {
            self.to(Mode::Literal(false, Seq::empty(), Escape::Outside))
        } else if c == '-' {
            self.to(Mode::Number(seq![c], NumberPart::Minus))
        } else if c == '0' {
            self.to(Mode::Number(seq![c], NumberPart::Zero))
        } else if is_digit(c) {
            self.to(Mode::Number(seq![c], NumberPart::Whole))
        } else if c == 't' || c == 'f' || c == 'n' {
            self.to(Mode::Word(seq![c]))
        } else {
            self.to(Mode::Failed)
        }
    }

    /// Reads a character after an item, a member or the whole value.
    pub open spec fn read_after(self, c: char) -> JsonReader {
        if is_space(c) {
            self
        } else if self.frames.len() == 0 {
            self.to(Mode::Failed)
        } else if c == ',' {
            match self.frames.last() {
                Frame::Array(_) => self.to(Mode::Value),
                Frame::Object(_, _) => self.to(Mode::Key),
            }
        } else if (c == ']' && self.frames.last() is Array) || (c == '}'
            && self.frames.last() is Object) {
            self.close()
        } else {
            self.to(Mode::Failed)
        }
    }

    /// Ends a string literal.
    pub open spec fn end_literal(self, is_key: bool, text: Seq<char>) -> JsonReader {
        if !is_key {
            self.take(Json::Text(text))
        } else if self.frames.len() == 0 {
            self.to(Mode::Failed)
        } else {
            match self.frames.last() {
                Frame::Object(members, _) => JsonReader {
                    frames: self.frames.drop_last().push(Frame::Object(members, text)),
                    mode: Mode::Colon,
                },
                Frame::Array(_) => self.to(Mode::Failed),
            }
        }
    }

    /// Reads the last digit of a `\u` escape, which gives a code.
    pub open spec fn end_hex(
        self,
        is_key: bool,
        text: Seq<char>,
        code: nat,
        half: Option<nat>,
    ) -> JsonReader {
        match half {
            None => if 0xd800 <= code <= 0xdbff {
                self.to(Mode::Literal(is_key, text, Escape::Half(code)))
            } else if 0xdc00 <= code <= 0xdfff {
                self.to(Mode::Failed)
            } else {
                self.to(Mode::Literal(is_key, text.push(code as char), Escape::Outside))
            },
            Some(high) => if 0xdc00 <= code <= 0xdfff {
                let c = (0x1_0000 + (high - 0xd800) * 0x400 + (code - 0xdc00)) as char;
                self.to(Mode::Literal(is_key, text.push(c), Escape::Outside))
            } else {
                self.to(Mode::Failed)
            },
        }
    }

    /// Reads a character of a string literal.
    pub open spec fn read_literal(
        self,
        is_key: bool,
        text: Seq<char>,
        escape: Escape,
        c: char,
    ) -> JsonReader {
        match escape {
            Escape::Outside => if c == '"' {
                self.end_literal(is_key, text)
            } else if c == '\\' {
                self.to(Mode::Literal(is_key, text, Escape::Backslash))
            } else if c <= '\u{1f}' {
                self.to(Mode::Failed)
            } else {
                self.to(Mode::Literal(is_key, text.push(c), Escape::Outside))
            },
            Escape::Backslash => if c == '"' || c == '\\' || c == '/' {
                self.to(Mode::Literal(is_key, text.push(c), Escape::Outside))
            } else if c == 'b' {
                self.to(Mode::Literal(is_key, text.push('\u{8}'), Escape::Outside))
            } else if c == 'f' {
                self.to(Mode::Literal(is_key, text.push('\u{c}'), Escape::Outside))
            } else if c == 'n' {
                self.to(Mode::Literal(is_key, text.push('\n'), Escape::Outside))
            } else if c == 'r' {
                self.to(Mode::Literal(is_key, text.push('\r'), Escape::Outside))
            } else if c == 't' {
                self.to(Mode::Literal(is_key, text.push('\t'), Escape::Outside))
            } else if c == 'u' {
                self.to(Mode::Literal(is_key, text, Escape::Hex(0, 0, None)))
            } else {
                self.to(Mode::Failed)
            },
            Escape::Hex(n, value, half) => match hex_value(c) {
                None => self.to(Mode::Failed),
                Some(d) => if n < 3 {
                    self.to(Mode::Literal(is_key, text, Escape::Hex(n + 1, value * 16 + d, half)))
                } else {
                    self.end_hex(is_key, text, value * 16 + d, half)
                },
            },
            Escape::Half(high) => if c == '\\' {
                self.to(Mode::Literal(is_key, text, Escape::HalfBackslash(high)))
            } else {
                self.to(Mode::Failed)
            },
            Escape::HalfBackslash(high) => if c == 'u' {
                self.to(Mode::Literal(is_key, text, Escape::Hex(0, 0, Some(high))))
            } else {
                self.to(Mode::Failed)
            },
        }
    }

    /// Reads one character.
    pub open spec fn read_char(self, c: char) -> JsonReader {
        match self.mode {
            Mode::Value => if is_space(c) {
                self
            } else {
                self.begin_value(c)
            },
            Mode::FirstItem => if is_space(c) {
                self
            } else if c == ']' {
                self.close()
            } else {
                self.begin_value(c)
            },
            Mode::FirstKey => if is_space(c) {
                self
            } else if c == '}' {
                self.close()
            } else if c == '"' {
                self.to(Mode::Literal(true, Seq::empty(), Escape::Outside))
            } else {
                self.to(Mode::Failed)
            },
            Mode::Key => if is_space(c) {
                self
            } else if c == '"' {
                self.to(Mode::Literal(true, Seq::empty(), Escape::Outside))
            } else {
                self.to(Mode::Failed)
            },
            Mode::Colon => if is_space(c) {
                self
            } else if c == ':' {
                self.to(Mode::Value)
            } else {
                self.to(Mode::Failed)
            },
            Mode::Literal(is_key, text, escape) => self.read_literal(is_key, text, escape, c),
            Mode::Number(text, part) => match next_part(part, c) {
                Some(next) => self.to(Mode::Number(text.push(c), next)),
                None => if may_end(part) {
                    self.take(Json::Number(text)).read_after(c)
                } else {
                    self.to(Mode::Failed)
                },
            },
            Mode::Word(text) => match word_value(text.push(c)) {
                Some(v) => self.take(v),
                None => if begins_word(text.push(c)) {
                    self.to(Mode::Word(text.push(c)))
                } else {
                    self.to(Mode::Failed)
                },
            },
            Mode::After | Mode::Done(_) => self.read_after(c),
            Mode::Failed => self,
        }
    }

    /// Reads a text.
    pub open spec fn read(self, s: Seq<char>) -> JsonReader
        decreases s.len(),
    {
        if s.len() == 0 {
            self
        } else {
            self.read(s.drop_last()).read_char(s.last())
        }
    }

    /// The value that has been read, if it is whole.
    pub open spec fn value(self) -> Option<Json> {
        match self.mode {
            Mode::Done(v) => Some(v),
            Mode::Number(text, part) if self.frames.len() == 0 && may_end(part) => Some(
                Json::Number(text),
            ),
            _ => None,
        }
    }
}

/// The value of a JSON text, if it is one.
pub open spec fn read_json(s: Seq<char>) -> Option<Json> {
    JsonReader::start().read(s).value()
}

/// The value of a text that is JSON.
pub open spec fn json_value(s: Seq<char>) -> Json {
    read_json(s)->0
}

/// The members that a reader gets of an object, given their keys and the texts of
/// their values. Where a key comes twice, the last one counts.
pub open spec fn entry_map(entries: Seq<(Seq<char>, Seq<char>)>) -> Map<Seq<char>, Json>
    decreases entries.len(),
{
    if entries.len() == 0 {
        Map::empty()
    } else {
        entry_map(entries.drop_last()).insert(entries.last().0, json_value(entries.last().1))
    }
}

/// The items that a reader gets of an array, given their texts.
pub open spec fn item_values(items: Seq<Seq<char>>) -> Seq<Json> {
    items.map_values(|t: Seq<char>| json_value(t))
}

proof fn read_concat(r: JsonReader, a: Seq<char>, b: Seq<char>)
    ensures
        r.read(a + b) == r.read(a).read(b),
    decreases b.len(),
{
    if b.len() == 0 {
        assert(a + b =~= a);
    } else {
        read_concat(r, a, b.drop_last());
        assert((a + b).drop_last() =~= a + b.drop_last());
    }
}

proof fn read_push(r: JsonReader, a: Seq<char>, c: char)
    ensures
        r.read(a.push(c)) == r.read(a).read_char(c),
{
    assert(a.push(c).drop_last() =~= a);
}

proof fn read_one(r: JsonReader, c: char)
    ensures
        r.read(seq![c]) == r.read_char(c),
{
    assert(seq![c] =~= Seq::<char>::empty().push(c));
    read_push(r, Seq::empty(), c);
}

/// Whether the frames of a reader fit what it is in the middle of.
spec fn fits(r: JsonReader) -> bool {
    match r.mode {
        Mode::Done(_) => r.frames.len() == 0,
        Mode::After => r.frames.len() > 0,
        Mode::FirstItem => r.frames.len() > 0 && r.frames.last() is Array,
        Mode::FirstKey | Mode::Key | Mode::Colon => r.frames.len() > 0
            && r.frames.last() is Object,
        Mode::Literal(is_key, _, _) => is_key ==> r.frames.len() > 0 && r.frames.last() is Object,
        _ => true,
    }
}

/// A reader that reads within some arrays and objects what `r` reads by itself.
/// `first` says whether it reads the first item of an array.
spec fn within(outer: Seq<Frame>, first: bool, r: JsonReader) -> JsonReader {
    match r.mode {
        Mode::Done(v) => (JsonReader { frames: outer, mode: Mode::Value }).take(v),
        Mode::Value if r.frames.len() == 0 => JsonReader {
            frames: outer,
            mode: if first {
                Mode::FirstItem
            } else {
                Mode::Value
            },
        },
        _ => JsonReader { frames: outer + r.frames, mode: r.mode },
    }
}

proof fn take_within(outer: Seq<Frame>, first: bool, r: JsonReader, v: Json)
    requires
        outer.len() > 0,
    ensures
        within(outer, first, r.take(v)) == (JsonReader {
            frames: outer + r.frames,
            mode: r.mode,
        }).take(v),
        fits(r.take(v)),
{
    let frames = outer + r.frames;
    if r.frames.len() == 0 {
        assert(frames =~= outer);
    } else {
        assert(frames.last() == r.frames.last());
        assert(frames.drop_last() =~= outer + r.frames.drop_last());
        let taken = r.take(v).frames;
        assert(outer + taken =~= frames.drop_last().push(taken.last()));
    }
}

proof fn close_within(outer: Seq<Frame>, first: bool, r: JsonReader)
    requires
        outer.len() > 0,
        r.frames.len() > 0,
    ensures
        within(outer, first, r.close()) == (JsonReader {
            frames: outer + r.frames,
            mode: r.mode,
        }).close(),
        fits(r.close()),
{
    let frames = outer + r.frames;
    assert(frames.last() == r.frames.last());
    assert(frames.drop_last() =~= outer + r.frames.drop_last());
    let inner = JsonReader { frames: r.frames.drop_last(), mode: r.mode };
    match r.frames.last() {
        Frame::Array(items) => take_within(outer, first, inner, Json::Array(items)),
        Frame::Object(members, _) => take_within(outer, first, inner, Json::Object(members)),
    }
}

proof fn read_after_within(outer: Seq<Frame>, first: bool, r: JsonReader, c: char)
    requires
        outer.len() > 0,
        r.mode is After || r.mode is Done,
        fits(r),
        !(r.read_after(c).mode is Failed),
    ensures
        within(outer, first, r.read_after(c)) == within(outer, first, r).read_after(c),
        fits(r.read_after(c)),
{
    let frames = outer + r.frames;
    if r.frames.len() > 0 {
        assert(frames.last() == r.frames.last());
        if !is_space(c) && c != ',' {
            close_within(outer, first, r);
        }
    }
}

proof fn begin_value_within(outer: Seq<Frame>, first: bool, r: JsonReader, c: char)
    requires
        outer.len() > 0,
        !(r.begin_value(c).mode is Failed),
    ensures
        within(outer, first, r.begin_value(c)) == (JsonReader {
            frames: outer + r.frames,
            mode: r.mode,
        }).begin_value(c),
        fits(r.begin_value(c)),
{
    let array = Frame::Array(Seq::empty());
    assert(outer + r.frames.push(array) =~= (outer + r.frames).push(array));
    let object = Frame::Object(Map::empty(), Seq::empty());
    assert(outer + r.frames.push(object) =~= (outer + r.frames).push(object));
}

proof fn end_literal_within(
    outer: Seq<Frame>,
    first: bool,
    r: JsonReader,
    is_key: bool,
    text: Seq<char>,
)
    requires
        outer.len() > 0,
        is_key ==> r.frames.len() > 0 && r.frames.last() is Object,
    ensures
        within(outer, first, r.end_literal(is_key, text)) == (JsonReader {
            frames: outer + r.frames,
            mode: r.mode,
        }).end_literal(is_key, text),
        fits(r.end_literal(is_key, text)),
{
    let frames = outer + r.frames;
    if is_key {
        assert(frames.last() == r.frames.last());
        assert(frames.drop_last() =~= outer + r.frames.drop_last());
        let named = r.end_literal(is_key, text).frames;
        assert(outer + named =~= frames.drop_last().push(named.last()));
    } else {
        take_within(outer, first, r, Json::Text(text));
    }
}

proof fn read_char_within(outer: Seq<Frame>, first: bool, r: JsonReader, c: char)
    requires
        outer.len() > 0,
        fits(r),
        !(r.read_char(c).mode is Failed),
    ensures
        within(outer, first, r.read_char(c)) == within(outer, first, r).read_char(c),
        fits(r.read_char(c)),
{
    let frames = outer + r.frames;
    if r.frames.len() == 0 {
        assert(frames =~= outer);
    }
    match r.mode {
        Mode::Value | Mode::FirstItem => {
            if !is_space(c) {
                if r.mode is FirstItem && c == ']' {
                    close_within(outer, first, r);
                } else {
                    begin_value_within(outer, first, r, c);
                }
            }
        },
        Mode::FirstKey => {
            if c == '}' {
                close_within(outer, first, r);
            }
        },
        Mode::Literal(is_key, text, escape) => {
            if escape is Outside && c == '"' {
                end_literal_within(outer, first, r, is_key, text);
            }
        },
        Mode::Number(text, part) => {
            if next_part(part, c) is None {
                let v = Json::Number(text);
                take_within(outer, first, r, v);
                read_after_within(outer, first, r.take(v), c);
            }
        },
        Mode::Word(text) => {
            if let Some(v) = word_value(text.push(c)) {
                take_within(outer, first, r, v);
            }
        },
        Mode::After | Mode::Done(_) => {
            read_after_within(outer, first, r, c);
        },
        _ => {},
    }
}

proof fn read_within(outer: Seq<Frame>, first: bool, s: Seq<char>)
    requires
        outer.len() > 0,
        !(JsonReader::start().read(s).mode is Failed),
    ensures
        within(outer, first, JsonReader::start().read(s)) == within(
            outer,
            first,
            JsonReader::start(),
        ).read(s),
        fits(JsonReader::start().read(s)),
    decreases s.len(),
{
    if s.len() > 0 {
        read_within(outer, first, s.drop_last());
        read_char_within(outer, first, JsonReader::start().read(s.drop_last()), s.last());
    }
}

/// Within arrays and objects, a text that is JSON is read as its value once a comma
/// or an end follows.
proof fn read_value_within(outer: Seq<Frame>, first: bool, s: Seq<char>, c: char)
    requires
        outer.len() > 0,
        read_json(s) is Some,
        c == ',' || c == ']' || c == '}',
    ensures
        within(outer, first, JsonReader::start()).read(s).read_char(c) == (JsonReader {
            frames: outer,
            mode: Mode::Value,
        }).take(json_value(s)).read_char(c),
{
    let r = JsonReader::start().read(s);
    read_within(outer, first, s);
    if r.mode is Number {
        assert(outer + r.frames =~= outer);
    }
}

proof fn read_escape(r: JsonReader, is_key: bool, text: Seq<char>, c: char)
    ensures
        r.to(Mode::Literal(is_key, text, Escape::Outside)).read(json_escape(c)) == r.to(
            Mode::Literal(is_key, text.push(c), Escape::Outside),
        ),
{
    let start = r.to(Mode::Literal(is_key, text, Escape::Outside));
    let escape = json_escape(c);
    if escape.len() == 1 {
        read_one(start, c);
    } else if escape.len() == 2 {
        assert(escape =~= seq!['\\'].push(escape[1]));
        read_one(start, '\\');
        read_push(start, seq!['\\'], escape[1]);
    } else {
        let high = hex_digit(c as nat / 16);
        let low = hex_digit(c as nat % 16);
        assert(escape =~= seq!['\\'].push('u').push('0').push('0').push(high).push(low));
        read_one(start, '\\');
        read_push(start, seq!['\\'], 'u');
        read_push(start, seq!['\\'].push('u'), '0');
        read_push(start, seq!['\\'].push('u').push('0'), '0');
        read_push(start, seq!['\\'].push('u').push('0').push('0'), high);
        read_push(start, seq!['\\'].push('u').push('0').push('0').push(high), low);
        assert(hex_value('0') == Some(0nat));
        assert(hex_value(high) == Some(c as nat / 16));
        assert(hex_value(low) == Some(c as nat % 16));
    }
}

proof fn read_escaped(r: JsonReader, is_key: bool, text: Seq<char>, s: Seq<char>)
    ensures
        r.to(Mode::Literal(is_key, text, Escape::Outside)).read(json_escaped(s)) == r.to(
            Mode::Literal(is_key, text + s, Escape::Outside),
        ),
    decreases s.len(),
{
    if s.len() == 0 {
        assert(text + s =~= text);
    } else {
        let start = r.to(Mode::Literal(is_key, text, Escape::Outside));
        read_concat(start, json_escape(s[0]), json_escaped(s.drop_first()));
        read_escape(r, is_key, text, s[0]);
        read_escaped(r, is_key, text.push(s[0]), s.drop_first());
        assert(text.push(s[0]) + s.drop_first() =~= text + s);
    }
}

proof fn read_quoted(r: JsonReader, is_key: bool, s: Seq<char>)
    requires
        r.read_char('"') == r.to(Mode::Literal(is_key, Seq::empty(), Escape::Outside)),
    ensures
        r.read(json_quoted(s)) == r.end_literal(is_key, s),
{
    reveal(json_quoted);
    read_one(r, '"');
    read_concat(r, seq!['"'], json_escaped(s));
    read_escaped(r, is_key, Seq::empty(), s);
    assert(Seq::<char>::empty() + s =~= s);
    assert(json_quoted(s) =~= (seq!['"'] + json_escaped(s)).push('"'));
    read_push(r, seq!['"'] + json_escaped(s), '"');
}

/// A reader gets back the text of a string literal.
pub proof fn literal_reads_back(s: Seq<char>)
    ensures
        read_json(json_quoted(s)) == Some(Json::Text(s)),
{
    read_quoted(JsonReader::start(), false, s);
}

/// The reader within an object with the given members.
spec fn in_object(members: Map<Seq<char>, Json>, mode: Mode) -> JsonReader {
    JsonReader { frames: seq![Frame::Object(members, Seq::empty())], mode }
}

proof fn read_member(
    members: Map<Seq<char>, Json>,
    mode: Mode,
    key: Seq<char>,
    text: Seq<char>,
    c: char,
)
    requires
        mode is FirstKey || mode is Key,
        read_json(text) is Some,
        c == ',' || c == '}',
    ensures
        in_object(members, mode).read(member_text(key, text)).read_char(c) == in_object(
            members.insert(key, json_value(text)),
            Mode::After,
        ).read_char(c),
{
    let r = in_object(members, mode);
    let named = seq![Frame::Object(members, key)];
    read_quoted(r, true, key);
    assert(r.frames.drop_last().push(Frame::Object(members, key)) =~= named);
    read_push(r, json_quoted(key), ':');
    read_concat(r, json_quoted(key).push(':'), text);
    assert(r.read(json_quoted(key).push(':')) == within(named, false, JsonReader::start()));
    read_value_within(named, false, text, c);
    let after = in_object(members.insert(key, json_value(text)), Mode::After);
    assert(named.drop_last().push(after.frames[0]) =~= after.frames);
}

proof fn read_members(entries: Seq<(Seq<char>, Seq<char>)>, c: char)
    requires
        forall|i: int| 0 <= i < entries.len() ==> read_json((#[trigger] entries[i]).1) is Some,
        entries.len() > 0,
        c == ',' || c == '}',
    ensures
        in_object(Map::empty(), Mode::FirstKey).read(joined_members(entries)).read_char(c)
            == in_object(entry_map(entries), Mode::After).read_char(c),
    decreases entries.len(),
{
    let open = in_object(Map::empty(), Mode::FirstKey);
    let rest = entries.drop_last();
    let last = entries.last();
    lemma_joined_members_push(rest, last);
    assert(entries =~= rest.push(last));
    assert(read_json(entries[entries.len() - 1].1) is Some);
    if rest.len() == 0 {
        assert(joined_members(rest) + comma_after(rest) =~= Seq::<char>::empty()) by {
            assert(rest.map_values(|e: (Seq<char>, Seq<char>)| member_text(e.0, e.1)) =~= Seq::<
                Seq<char>,
            >::empty());
        }
        assert(joined_members(entries) =~= member_text(last.0, last.1));
        assert(entry_map(rest) =~= Map::empty());
        read_member(Map::empty(), Mode::FirstKey, last.0, last.1, c);
    } else {
        assert forall|i: int| 0 <= i < rest.len() implies read_json((#[trigger] rest[i]).1) is Some by {
            assert(rest[i] == entries[i]);
        }
        read_members(rest, ',');
        assert(joined_members(rest) + comma_after(rest) =~= joined_members(rest).push(','));
        read_push(open, joined_members(rest), ',');
        read_concat(open, joined_members(rest).push(','), member_text(last.0, last.1));
        read_member(entry_map(rest), Mode::Key, last.0, last.1, c);
    }
}

/// A reader gets back the members of an object, given that their values are JSON.
pub proof fn object_reads_back(entries: Seq<(Seq<char>, Seq<char>)>)
    requires
        forall|i: int| 0 <= i < entries.len() ==> read_json((#[trigger] entries[i]).1) is Some,
    ensures
        read_json(object_text(entries)) == Some(Json::Object(entry_map(entries))),
{
    reveal_strlit("{");
    reveal_strlit("}");
    let start = JsonReader::start();
    let open = in_object(Map::empty(), Mode::FirstKey);
    let inside = joined_members(entries);
    assert(object_text(entries) =~= (seq!['{'] + inside).push('}'));
    read_push(start, seq!['{'] + inside, '}');
    read_concat(start, seq!['{'], inside);
    read_one(start, '{');
    assert(start.frames.push(Frame::Object(Map::empty(), Seq::empty())) =~= open.frames);
    if entries.len() == 0 {
        assert(inside =~= Seq::<char>::empty()) by {
            assert(entries.map_values(
                |e: (Seq<char>, Seq<char>)| member_text(e.0, e.1),
            ) =~= Seq::<Seq<char>>::empty());
        }
        assert(open.frames.drop_last() =~= Seq::<Frame>::empty());
    } else {
        read_members(entries, '}');
        let after = in_object(entry_map(entries), Mode::After);
        assert(after.frames.drop_last() =~= Seq::<Frame>::empty());
    }
}

/// The reader within an array with the given items.
spec fn in_array(items: Seq<Json>, mode: Mode) -> JsonReader {
    JsonReader { frames: seq![Frame::Array(items)], mode }
}

proof fn read_item(items: Seq<Json>, first: bool, text: Seq<char>, c: char)
    requires
        read_json(text) is Some,
        c == ',' || c == ']',
    ensures
        in_array(
            items,
            if first {
                Mode::FirstItem
            } else {
                Mode::Value
            },
        ).read(text).read_char(c) == in_array(items.push(json_value(text)), Mode::After).read_char(
            c,
        ),
{
    let outer = seq![Frame::Array(items)];
    read_value_within(outer, first, text, c);
    let after = in_array(items.push(json_value(text)), Mode::After);
    assert(outer.drop_last().push(after.frames[0]) =~= after.frames);
}

proof fn read_items(items: Seq<Seq<char>>, c: char)
    requires
        forall|i: int| 0 <= i < items.len() ==> read_json(#[trigger] items[i]) is Some,
        items.len() > 0,
        c == ',' || c == ']',
    ensures
        in_array(Seq::empty(), Mode::FirstItem).read(comma_joined(items)).read_char(c) == in_array(
            item_values(items),
            Mode::After,
        ).read_char(c),
    decreases items.len(),
{
    let open = in_array(Seq::empty(), Mode::FirstItem);
    let rest = items.drop_last();
    let last = items.last();
    lemma_comma_joined_push(rest, last);
    assert(items =~= rest.push(last));
    assert(read_json(items[items.len() - 1]) is Some);
    assert(item_values(items) =~= item_values(rest).push(json_value(last)));
    if rest.len() == 0 {
        assert(item_values(rest) =~= Seq::<Json>::empty());
        read_item(Seq::empty(), true, last, c);
    } else {
        assert forall|i: int| 0 <= i < rest.len() implies read_json(#[trigger] rest[i]) is Some by {
            assert(rest[i] == items[i]);
        }
        read_items(rest, ',');
        assert(comma_joined(rest) + comma_after(rest) =~= comma_joined(rest).push(','));
        read_push(open, comma_joined(rest), ',');
        read_concat(open, comma_joined(rest).push(','), last);
        read_item(item_values(rest), false, last, c);
    }
}

/// A reader gets back the items of an array, given that they are JSON.
pub proof fn array_reads_back(items: Seq<Seq<char>>)
    requires
        forall|i: int| 0 <= i < items.len() ==> read_json(#[trigger] items[i]) is Some,
    ensures
        read_json(array_text(items)) == Some(Json::Array(item_values(items))),
{
    reveal_strlit("[");
    reveal_strlit("]");
    let start = JsonReader::start();
    let open = in_array(Seq::empty(), Mode::FirstItem);
    let inside = comma_joined(items);
    assert(array_text(items) =~= (seq!['['] + inside).push(']'));
    read_push(start, seq!['['] + inside, ']');
    read_concat(start, seq!['['], inside);
    read_one(start, '[');
    assert(start.frames.push(Frame::Array(Seq::empty())) =~= open.frames);
    if items.len() == 0 {
        assert(inside =~= Seq::<char>::empty());
        assert(open.frames.drop_last() =~= Seq::<Frame>::empty());
        assert(item_values(items) =~= Seq::<Json>::empty());
    } else {
        read_items(items, ']');
        let after = in_array(item_values(items), Mode::After);
        assert(after.frames.drop_last() =~= Seq::<Frame>::empty());
    }
}

/// Where no key comes twice, a reader gets each member with its value, and no
/// other.
proof fn distinct_entries(entries: Seq<(Seq<char>, Seq<char>)>)
    requires
        forall|i: int, j: int|
            0 <= i < j < entries.len() ==> (#[trigger] entries[i]).0 != (#[trigger] entries[j]).0,
    ensures
        forall|i: int|
            0 <= i < entries.len() ==> entry_map(entries).contains_key((#[trigger] entries[i]).0)
                && entry_map(entries)[entries[i].0] == json_value(entries[i].1),
        forall|k: Seq<char>| #[trigger]
            entry_map(entries).contains_key(k) ==> exists|i: int|
                0 <= i < entries.len() && (#[trigger] entries[i]).0 == k,
    decreases entries.len(),
{
    if entries.len() > 0 {
        let rest = entries.drop_last();
        let n = entries.len() - 1;
        distinct_entries(rest);
        assert forall|i: int| 0 <= i < entries.len() implies entry_map(entries).contains_key(
            (#[trigger] entries[i]).0,
        ) && entry_map(entries)[entries[i].0] == json_value(entries[i].1) by {
            if i < n {
                assert(rest[i] == entries[i]);
                assert(entries[i].0 != entries[n].0);
            }
        }
        assert forall|k: Seq<char>| #[trigger] entry_map(entries).contains_key(k) implies exists|
            i: int,
        |
            0 <= i < entries.len() && (#[trigger] entries[i]).0 == k by {
            if k == entries[n].0 {
            } else {
                assert(entry_map(rest).contains_key(k));
                let i = choose|i: int| 0 <= i < rest.len() && (#[trigger] rest[i]).0 == k;
                assert(entries[i].0 == k);
            }
        }
    }
}

/// Whether the metadata of a bucket is an object whose values, but for its events,
/// have JSON texts.
pub open spec fn has_json_metadata(bucket: Bucket) -> bool {
    &&& object_of(bucket.metadata) matches Some(m)
    &&& lists_keys(ordered_keys(m), m)
    &&& forall|k: Seq<char>| #[trigger]
        m.contains_key(k) && k != "events"@ ==> read_json(json_text(m[k])) is Some
}

/// Whether the texts of the events that are not corrupt are JSON.
pub open spec fn has_json_events(rows: Seq<Result<String, RowError>>) -> bool {
    forall|i: int|
        0 <= i < valid_texts(rows).len() ==> read_json(#[trigger] valid_texts(rows)[i]) is Some
}

/// Whether the metadata of each bucket that is to be exported is JSON.
pub open spec fn exports_json_metadata(buckets: Seq<Bucket>, selected: Option<Seq<char>>) -> bool {
    forall|i: int|
        0 <= i < buckets.len() && is_selected(#[trigger] buckets[i], selected)
            ==> has_json_metadata(buckets[i])
}

/// Whether the texts of the events of each bucket that is to be exported are JSON.
pub open spec fn exports_json_events(
    buckets: Seq<Bucket>,
    rows: Seq<Vec<Result<String, RowError>>>,
    selected: Option<Seq<char>>,
) -> bool {
    forall|i: int|
        0 <= i < buckets.len() && is_selected(#[trigger] buckets[i], selected) ==> has_json_events(
            rows[i]@,
        )
}

/// A bucket as a JSON value: the object that its metadata is, with an array of its
/// events under the key `events`.
pub open spec fn bucket_json(bucket: Bucket, rows: Seq<Result<String, RowError>>) -> Json {
    let m = object_of(bucket.metadata)->0;
    Json::Object(
        Map::new(
            |k: Seq<char>| m.contains_key(k) || k == "events"@,
            |k: Seq<char>|
                if k == "events"@ {
                    Json::Array(item_values(valid_texts(rows)))
                } else {
                    json_value(json_text(m[k]))
                },
        ),
    )
}

/// The JSON value of an export: an object that has under the key `buckets` an object
/// of the buckets that are to be exported, each under its id.
pub open spec fn export_json(
    buckets: Seq<Bucket>,
    rows: Seq<Vec<Result<String, RowError>>>,
    selected: Option<Seq<char>>,
) -> Json {
    let exported = Map::new(
        |id: Seq<char>|
            place_of(buckets, id) is Some && (selected matches Some(only) ==> id == only),
        |id: Seq<char>|
            bucket_json(buckets[place_of(buckets, id)->0], rows[place_of(buckets, id)->0]@),
    );
    Json::Object(map!["buckets"@ => Json::Object(exported)])
}

proof fn bucket_reads_back(bucket: Bucket, rows: Seq<Result<String, RowError>>)
    requires
        has_json_metadata(bucket),
        has_json_events(rows),
    ensures
        read_json(bucket_entry(bucket, rows).1) == Some(bucket_json(bucket, rows)),
{
    let m: Map<Seq<char>, Value> = object_of(bucket.metadata)->0;
    let events = valid_texts(rows);
    let all = bucket_members(m, events);
    array_reads_back(events);
    bucket_is_metadata_with_events(m, ordered_keys(m), events);
    assert forall|i: int| 0 <= i < all.len() implies read_json((#[trigger] all[i]).1) is Some by {
        assert(all.contains((all[i].0, all[i].1)));
        if all[i].0 != "events"@ {
            assert(m.contains_key(all[i].0));
        }
    }
    object_reads_back(all);
    distinct_entries(all);
    let got = entry_map(all);
    let expected = bucket_json(bucket, rows)->Object_0;
    assert forall|k: Seq<char>| #[trigger] got.contains_key(k) implies expected.contains_key(
        k,
    ) by {
        let i = choose|i: int| 0 <= i < all.len() && (#[trigger] all[i]).0 == k;
        assert(all.contains((all[i].0, all[i].1)));
    }
    assert forall|k: Seq<char>| #[trigger] expected.contains_key(k) implies got.contains_key(k)
        && got[k] == expected[k] by {
        let t = if k == "events"@ {
            array_text(events)
        } else {
            json_text(m[k])
        };
        assert(all.contains((k, t)));
        let i = choose|i: int| 0 <= i < all.len() && all[i] == (k, t);
        assert(all[i].0 == k && all[i].1 == t);
    }
    assert(got =~= expected);
}

/// Whether a member of the document is one of the first `n` buckets that is to be
/// exported.
spec fn is_of_bucket(
    buckets: Seq<Bucket>,
    rows: Seq<Vec<Result<String, RowError>>>,
    selected: Option<Seq<char>>,
    n: int,
    e: (Seq<char>, Seq<char>),
) -> bool {
    exists|i: int|
        0 <= i < n && is_selected(#[trigger] buckets[i], selected) && e == bucket_entry(
            buckets[i],
            rows[i]@,
        )
}

/// What the document has of the first `n` buckets is the entries of those that are
/// to be exported, each under a key of its own.
proof fn entries_are_of_selected(
    buckets: Seq<Bucket>,
    rows: Seq<Vec<Result<String, RowError>>>,
    selected: Option<Seq<char>>,
    n: int,
)
    requires
        distinct_ids(buckets),
        0 <= n <= buckets.len(),
    ensures
        ({
            let entries = bucket_entries(buckets, rows, selected, n);
            &&& forall|i: int, j: int|
                0 <= i < j < entries.len() ==> (#[trigger] entries[i]).0 != (
                #[trigger] entries[j]).0
            &&& forall|p: int|
                0 <= p < entries.len() ==> is_of_bucket(
                    buckets,
                    rows,
                    selected,
                    n,
                    #[trigger] entries[p],
                )
            &&& forall|i: int|
                0 <= i < n && is_selected(#[trigger] buckets[i], selected) ==> entries.contains(
                    bucket_entry(buckets[i], rows[i]@),
                )
        }),
    decreases n,
{
    let entries = bucket_entries(buckets, rows, selected, n);
    if n > 0 {
        let rest = bucket_entries(buckets, rows, selected, n - 1);
        let last = bucket_entry(buckets[n - 1], rows[n - 1]@);
        entries_are_of_selected(buckets, rows, selected, n - 1);
        assert forall|p: int| 0 <= p < entries.len() implies is_of_bucket(
            buckets,
            rows,
            selected,
            n,
            #[trigger] entries[p],
        ) by {
            if p < rest.len() {
                assert(entries[p] == rest[p]);
                let i = choose|i: int|
                    0 <= i < n - 1 && is_selected(#[trigger] buckets[i], selected) && rest[p]
                        == bucket_entry(buckets[i], rows[i]@);
                assert(is_selected(buckets[i], selected));
            } else {
                assert(is_selected(buckets[n - 1], selected));
            }
        }
        assert forall|i: int, j: int| 0 <= i < j < entries.len() implies (
        #[trigger] entries[i]).0 != (#[trigger] entries[j]).0 by {
            assert(entries[i] == rest[i]);
            if j < rest.len() {
                assert(entries[j] == rest[j]);
            } else {
                let q = choose|q: int|
                    0 <= q < n - 1 && is_selected(#[trigger] buckets[q], selected) && rest[i]
                        == bucket_entry(buckets[q], rows[q]@);
                assert(buckets[q].id@ != buckets[n - 1].id@);
            }
        }
        assert forall|i: int|
            0 <= i < n && is_selected(#[trigger] buckets[i], selected) implies entries.contains(
            bucket_entry(buckets[i], rows[i]@),
        ) by {
            let e = bucket_entry(buckets[i], rows[i]@);
            if i < n - 1 {
                assert(rest.contains(e));
                let p = choose|p: int| 0 <= p < rest.len() && rest[p] == e;
                assert(entries[p] == e);
            } else {
                assert(entries[rest.len() as int] == e);
            }
        }
    }
}

/// A reader gets back of an export one object with the buckets that are to be
/// exported and no other, each with its metadata and its events, given that the
/// values of the metadata and the texts of the events are JSON.
pub proof fn export_reads_back(
    buckets: Seq<Bucket>,
    rows: Seq<Vec<Result<String, RowError>>>,
    selected: Option<Seq<char>>,
)
    requires
        distinct_ids(buckets),
        rows.len() == buckets.len(),
        exports_json_metadata(buckets, selected),
        exports_json_events(buckets, rows, selected),
    ensures
        read_json(export_document(buckets, rows, selected)) == Some(
            export_json(buckets, rows, selected),
        ),
{
    let n = buckets.len() as int;
    let entries = bucket_entries(buckets, rows, selected, n);
    entries_are_of_selected(buckets, rows, selected, n);
    assert forall|p: int| 0 <= p < entries.len() implies read_json((#[trigger] entries[p]).1) is Some by {
        let i = choose|i: int|
            0 <= i < n && is_selected(#[trigger] buckets[i], selected) && entries[p]
                == bucket_entry(buckets[i], rows[i]@);
        bucket_reads_back(buckets[i], rows[i]@);
    }
    object_reads_back(entries);
    distinct_entries(entries);
    let got = entry_map(entries);
    let whole = export_json(buckets, rows, selected)->Object_0;
    let expected = whole["buckets"@]->Object_0;
    assert forall|id: Seq<char>| #[trigger] expected.contains_key(id) implies got.contains_key(id)
        && got[id] == expected[id] by {
        let i = place_of(buckets, id)->0;
        assert(0 <= i < n && buckets[i].id@ == id);
        assert(is_selected(buckets[i], selected));
        bucket_reads_back(buckets[i], rows[i]@);
        let e = bucket_entry(buckets[i], rows[i]@);
        assert(entries.contains(e));
        let p = choose|p: int| 0 <= p < entries.len() && entries[p] == e;
        assert(entries[p].0 == id);
    }
    assert forall|id: Seq<char>| #[trigger] got.contains_key(id) implies expected.contains_key(
        id,
    ) by {
        let p = choose|p: int| 0 <= p < entries.len() && (#[trigger] entries[p]).0 == id;
        let i = choose|i: int|
            0 <= i < n && is_selected(#[trigger] buckets[i], selected) && entries[p]
                == bucket_entry(buckets[i], rows[i]@);
        assert(buckets[i].id@ == id);
    }
    assert(got =~= expected);
    let only = seq![("buckets"@, object_text(entries))];
    object_reads_back(only);
    assert(only.drop_last() =~= Seq::<(Seq<char>, Seq<char>)>::empty());
    assert(entry_map(only.drop_last()) =~= Map::<Seq<char>, Json>::empty());
    assert(entry_map(only) =~= whole);
}

/// A reader gets back of the body of an error an object with the message.
pub proof fn error_body_reads_back(message: Seq<char>)
    ensures
        read_json(object_text(seq![("message"@, json_quoted(message))])) == Some(
            Json::Object(map!["message"@ => Json::Text(message)]),
        ),
{
    let entries = seq![("message"@, json_quoted(message))];
    literal_reads_back(message);
    object_reads_back(entries);
    assert(entries.drop_last() =~= Seq::<(Seq<char>, Seq<char>)>::empty());
    assert(entry_map(entries.drop_last()) =~= Map::<Seq<char>, Json>::empty());
    assert(entry_map(entries) =~= map!["message"@ => Json::Text(message)]);
}

proof fn valid_text_is_of_row(rows: Seq<Result<String, RowError>>, x: int) -> (j: int)
    requires
        0 <= x < valid_texts(rows).len(),
    ensures
        0 <= j < rows.len(),
        rows[j] matches Ok(text) && text@ == valid_texts(rows)[x],
    decreases rows.len(),
{
    let rest = rows.drop_last();
    if x < valid_texts(rest).len() {
        valid_text_is_of_row(rest, x)
    } else {
        rows.len() - 1
    }
}

/// A reader gets of an export one object, which has the key `buckets` alone. Under it is
/// an object that has, under their ids, the buckets that are exported: all of them, or the
/// one that is selected. Each has the members of its metadata, with their values, and
/// under `events` an array with an item for each of its rows that is not corrupt, in the
/// order of the rows.
pub proof fn export_has_buckets_with_all_events(
    buckets: Seq<Bucket>,
    rows: Seq<Vec<Result<String, RowError>>>,
    selected: Option<Seq<char>>,
    i: int,
    k: Seq<char>,
)
    requires
        distinct_ids(buckets),
        rows.len() == buckets.len(),
        forall|b: int|
            0 <= b < buckets.len() && (selected is None || selected == Some(
                (#[trigger] buckets[b]).id@,
            )) ==> {
                &&& object_of(buckets[b].metadata) matches Some(m)
                &&& lists_keys(ordered_keys(m), m)
                &&& forall|key: Seq<char>| #[trigger]
                    m.contains_key(key) && key != "events"@ ==> read_json(json_text(m[key])) is Some
                &&& forall|r: int|
                    0 <= r < rows[b]@.len() ==> (#[trigger] rows[b]@[r] matches Ok(text)
                        ==> read_json(text@) is Some)
            },
    ensures
        ({
            let id = buckets[i].id@;
            let exported = 0 <= i < buckets.len() && (selected is None || selected == Some(id));
            let valid = rows[i]@.filter(|r: Result<String, RowError>| r is Ok);
            &&& read_json(export_document(buckets, rows, selected)) matches Some(Json::Object(top))
            &&& top.contains_key(k) <==> k == "buckets"@
            &&& top["buckets"@] matches Json::Object(all)
            &&& all.contains_key(k) <==> (selected is None || selected == Some(k)) && exists|b: int|
                0 <= b < buckets.len() && (#[trigger] buckets[b]).id@ == k
            &&& exported ==> all.contains_key(id)
            &&& exported ==> {
                let m = object_of(buckets[i].metadata)->0;
                &&& all[id] matches Json::Object(bucket)
                &&& bucket.contains_key(k) <==> k == "events"@ || m.contains_key(k)
                &&& m.contains_key(k) && k != "events"@ ==> Some(bucket[k]) == read_json(
                    json_text(m[k]),
                )
                &&& bucket["events"@] matches Json::Array(items)
                &&& items.len() == valid.len()
                &&& forall|p: int|
                    0 <= p < valid.len() ==> Some(#[trigger] items[p]) == read_json(
                        valid[p]->Ok_0@,
                    )
            }
        }),
{
    assert forall|b: int|
        0 <= b < buckets.len() && is_selected(#[trigger] buckets[b], selected) implies {
        &&& has_json_metadata(buckets[b])
        &&& has_json_events(rows[b]@)
    } by {
        selection_is_by_id(buckets, selected, b);
        let m = object_of(buckets[b].metadata)->0;
        assert(has_json_metadata(buckets[b]));
        assert forall|x: int| 0 <= x < valid_texts(rows[b]@).len() implies read_json(
            #[trigger] valid_texts(rows[b]@)[x],
        ) is Some by {
            let r = valid_text_is_of_row(rows[b]@, x);
            assert(rows[b]@[r] is Ok);
        }
    }
    export_reads_back(buckets, rows, selected);
    texts_are_of_valid_rows(rows[i]@);
    let whole = export_json(buckets, rows, selected)->Object_0;
    let all = whole["buckets"@]->Object_0;
    let id = buckets[i].id@;
    if 0 <= i < buckets.len() && (selected is None || selected == Some(id)) {
        selection_is_by_id(buckets, selected, i);
        bucket_is_found_by_id(buckets, id, i);
        let items = item_values(valid_texts(rows[i]@));
        let valid = rows[i]@.filter(|r: Result<String, RowError>| r is Ok);
        let m = object_of(buckets[i].metadata)->0;
        assert(has_json_metadata(buckets[i]));
        assert(all[id] == bucket_json(buckets[i], rows[i]@));
        assert(has_json_events(rows[i]@));
        assert forall|p: int| 0 <= p < valid.len() implies Some(#[trigger] items[p]) == read_json(
            valid[p]->Ok_0@,
        ) by {
            assert(valid_texts(rows[i]@)[p] == valid[p]->Ok_0@);
        }
        if m.contains_key(k) && k != "events"@ {
            assert(read_json(json_text(m[k])) is Some);
        }
    }
}

} // verus!
