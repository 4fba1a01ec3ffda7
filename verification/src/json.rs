//! The JSON values that events and buckets carry.
//!
//! A JSON object is a `serde_json::Map`, which maps strings to values and walks
//! its keys in the order of strings. A `serde_json::Value` is carried as it is:
//! of what it holds, only the text of a string, the members of an object and
//! the compact JSON text are looked at.

use serde_json::Value;
use vstd::prelude::*;

use crate::json_reader::read_json;
use crate::text::texts;

verus! {

#[verifier::external_type_specification]
#[verifier::external_body]
#[verifier::reject_recursive_types(K)]
#[verifier::reject_recursive_types(V)]
pub struct ExJsonMap<K, V>(serde_json::Map<K, V>);

#[verifier::external_type_specification]
#[verifier::external_body]
pub struct ExJsonValue(serde_json::Value);

/// What a JSON object holds: its members by key.
pub uninterp spec fn members(m: serde_json::Map<String, serde_json::Value>) -> Map<
    Seq<char>,
    serde_json::Value,
>;

/// The text that `Value::as_str` gives, if the value is a string.
pub uninterp spec fn string_of(v: serde_json::Value) -> Option<Seq<char>>;

/// The members of the object that `Value::as_object` gives, if the value is an
/// object.
pub uninterp spec fn object_of(v: serde_json::Value) -> Option<Map<Seq<char>, serde_json::Value>>;

/// The compact JSON text that `Value::to_string` gives.
pub uninterp spec fn json_text(v: serde_json::Value) -> Seq<char>;

/// The hexadecimal digit of a number below 16.
pub open spec fn hex_digit(d: nat) -> char {
    if d < 10 {
        (48 + d) as char
    } else {
        (87 + d) as char
    }
}

/// A character within a JSON string literal: escaped if it is a quotation mark, a
/// backslash or a control character of ASCII below the space, as it is otherwise.
pub open spec fn json_escape(c: char) -> Seq<char> {
    if c == '"' {
        seq!['\\', '"']
    } else if c == '\\' {
        seq!['\\', '\\']
    } else if c == '\u{8}' {
        seq!['\\', 'b']
    } else if c == '\t' {
        seq!['\\', 't']
    } else if c == '\n' {
        seq!['\\', 'n']
    } else if c == '\u{c}' {
        seq!['\\', 'f']
    } else if c == '\r' {
        seq!['\\', 'r']
    } else if c <= '\u{1f}' {
        seq!['\\', 'u', '0', '0', hex_digit(c as nat / 16), hex_digit(c as nat % 16)]
    } else {
        seq![c]
    }
}

/// A text within a JSON string literal.
pub open spec fn json_escaped(s: Seq<char>) -> Seq<char>
    decreases s.len(),
{
    if s.len() == 0 {
        Seq::empty()
    } else {
        json_escape(s[0]) + json_escaped(s.drop_first())
    }
}

/// A text as a JSON string literal.
#[verifier::opaque]
pub open spec fn json_quoted(s: Seq<char>) -> Seq<char> {
    seq!['"'] + json_escaped(s) + seq!['"']
}

/// The members of the object that `serde_json::from_str` reads from a text, if
/// the text is a JSON object.
pub uninterp spec fn parsed_object(s: Seq<char>) -> Option<Map<Seq<char>, serde_json::Value>>;

/// Whether a text precedes another in the order of strings: by the first
/// character in which they differ, a prefix before what it begins.
pub open spec fn text_before(a: Seq<char>, b: Seq<char>) -> bool
    decreases a.len(),
{
    if b.len() == 0 {
        false
    } else if a.len() == 0 {
        true
    } else if a[0] != b[0] {
        a[0] < b[0]
    } else {
        text_before(a.drop_first(), b.drop_first())
    }
}

/// Whether a sequence lists each key of an object once, in the order of
/// strings.
pub open spec fn lists_keys(keys: Seq<Seq<char>>, m: Map<Seq<char>, Value>) -> bool {
    &&& forall|i: int, j: int| 0 <= i < j < keys.len() ==> text_before(keys[i], keys[j])
    &&& forall|k: Seq<char>| #[trigger] keys.contains(k) <==> m.contains_key(k)
}

/// The keys of an object in the order of strings.
pub open spec fn ordered_keys(m: Map<Seq<char>, Value>) -> Seq<Seq<char>> {
    choose|keys: Seq<Seq<char>>| lists_keys(keys, m)
}

/// `Map::get`: the value of a key, if the object has the key.
#[verifier::external_body]
pub(crate) fn map_get<'a>(m: &'a serde_json::Map<String, Value>, key: &str) -> (r: Option<
    &'a Value,
>)
    ensures
        r is Some <==> members(*m).contains_key(key@),
        r matches Some(v) ==> *v == members(*m)[key@],
{
    m.get(key)
}

/// `Map::contains_key`: whether the object has a key.
#[verifier::external_body]
pub(crate) fn map_contains_key(m: &serde_json::Map<String, Value>, key: &str) -> (r: bool)
    ensures
        r == members(*m).contains_key(key@),
{
    m.contains_key(key)
}

/// `Map::insert`: the key gets the value, whether or not it had one before.
#[verifier::external_body]
pub(crate) fn map_insert(m: &mut serde_json::Map<String, Value>, key: String, value: Value)
    ensures
        members(*final(m)) == members(*old(m)).insert(key@, value),
{
    m.insert(key, value);
}

/// `Map::clone`: an object with the same members.
#[verifier::external_body]
pub(crate) fn map_clone(m: &serde_json::Map<String, Value>) -> (r: serde_json::Map<String, Value>)
    ensures
        members(r) == members(*m),
{
    m.clone()
}

/// `Map::keys`: each key of the object once, in the order of strings. The
/// object is a `BTreeMap` of strings, as it is without the feature
/// `preserve_order` of `serde_json`.
#[verifier::external_body]
pub(crate) fn map_keys(m: &serde_json::Map<String, Value>) -> (keys: Vec<String>)
    ensures
        lists_keys(texts(keys@), members(*m)),
{
    m.keys().cloned().collect()
}

/// `Value::clone`: the same value.
#[verifier::external_body]
pub(crate) fn value_clone(v: &Value) -> (r: Value)
    ensures
        r == *v,
{
    v.clone()
}

/// `Value::as_str`: the text of a string, nothing for any other value.
#[verifier::external_body]
pub(crate) fn value_as_str(v: &Value) -> (r: Option<&str>)
    ensures
        r is Some <==> string_of(*v) is Some,
        r matches Some(s) ==> s@ == string_of(*v)->0,
{
    v.as_str()
}

/// `Value::as_object`: the object, nothing for any other value.
#[verifier::external_body]
pub(crate) fn value_as_object(v: &Value) -> (r: Option<&serde_json::Map<String, Value>>)
    ensures
        r is Some <==> object_of(*v) is Some,
        r matches Some(m) ==> members(*m) == object_of(*v)->0,
{
    v.as_object()
}

/// `Value::to_string`: the compact JSON text of the value, which a reader of JSON
/// takes.
#[verifier::external_body]
pub(crate) fn value_to_string(v: &Value) -> (s: String)
    ensures
        s@ == json_text(*v),
        read_json(s@) is Some,
{
    v.to_string()
}

/// `serde_json::to_string` on a string slice: its JSON string literal, with the
/// escapes of the compact formatter. Writing a string slice into memory does not
/// fail.
#[verifier::external_body]
pub(crate) fn text_to_json(s: &str) -> (r: String)
    ensures
        r@ == json_quoted(s@),
{
    serde_json::to_string(s).unwrap()
}

/// `serde_json::from_str` into an object: the object that the text holds,
/// nothing if the text is not a JSON object.
#[verifier::external_body]
pub(crate) fn object_from_str(s: &str) -> (r: Option<serde_json::Map<String, Value>>)
    ensures
        r is Some <==> parsed_object(s@) is Some,
        r matches Some(m) ==> members(m) == parsed_object(s@)->0,
{
    serde_json::from_str(s).ok()
}

pub(crate) proof fn text_order_is_strict(a: Seq<char>, b: Seq<char>)
    ensures
        !(text_before(a, b) && text_before(b, a)),
        !text_before(a, a),
    decreases a.len(),
{
    if a.len() > 0 && b.len() > 0 {
        text_order_is_strict(a.drop_first(), b.drop_first());
    } else if a.len() > 0 {
        text_order_is_strict(a.drop_first(), b);
    }
}

/// The keys of an object can be listed in one way only.
pub proof fn key_list_is_unique(a: Seq<Seq<char>>, b: Seq<Seq<char>>, m: Map<Seq<char>, Value>)
    requires
        lists_keys(a, m),
        lists_keys(b, m),
    ensures
        a == b,
    decreases a.len(),
{
    if a.len() == 0 {
        if b.len() > 0 {
            assert(b.contains(b[0]));
            assert(a.contains(b[0]));
        }
        assert(a =~= b);
    } else {
        assert(a.contains(a[0]));
        assert(b.contains(a[0]));
        let j = choose|j: int| 0 <= j < b.len() && b[j] == a[0];
        assert(b.contains(b[0]));
        assert(a.contains(b[0]));
        let i = choose|i: int| 0 <= i < a.len() && a[i] == b[0];
        text_order_is_strict(a[0], b[0]);
        assert(a[0] == b[0]);
        let rest = m.remove(a[0]);
        assert forall|s: Seq<Seq<char>>|
            #![trigger lists_keys(s, m)]
            lists_keys(s, m) && s.len() > 0 && s[0] == a[0] implies lists_keys(
            s.drop_first(),
            rest,
        ) by {
            let t = s.drop_first();
            assert forall|k: Seq<char>| #[trigger] t.contains(k) <==> rest.contains_key(k) by {
                if t.contains(k) {
                    let n = choose|n: int| 0 <= n < t.len() && t[n] == k;
                    assert(s[n + 1] == k);
                    assert(s.contains(k));
                    text_order_is_strict(a[0], k);
                }
                if rest.contains_key(k) {
                    assert(s.contains(k));
                    let n = choose|n: int| 0 <= n < s.len() && s[n] == k;
                    assert(t[n - 1] == k);
                }
            }
        }
        key_list_is_unique(a.drop_first(), b.drop_first(), rest);
        assert(a =~= seq![a[0]] + a.drop_first());
        assert(b =~= seq![b[0]] + b.drop_first());
    }
}

proof fn hex_digits_are_apart(a: nat, b: nat)
    requires
        a < 16,
        b < 16,
        hex_digit(a) == hex_digit(b),
    ensures
        a == b,
{
    assert(hex_digit(a) as nat == if a < 10 {
        48 + a
    } else {
        87 + a
    });
    assert(hex_digit(b) as nat == if b < 10 {
        48 + b
    } else {
        87 + b
    });
}

proof fn first_escape_is_apart(a: char, after_a: Seq<char>, b: char, after_b: Seq<char>)
    requires
        json_escape(a) + after_a == json_escape(b) + after_b,
    ensures
        a == b,
{
    let x = json_escape(a);
    let y = json_escape(b);
    let whole = x + after_a;
    assert(whole[0] == x[0] && whole[0] == y[0]);
    if x.len() > 1 && y.len() > 1 {
        assert(whole[1] == x[1] && whole[1] == y[1]);
    }
    if x.len() == 6 && y.len() == 6 {
        assert(whole[4] == x[4] && whole[4] == y[4]);
        assert(whole[5] == x[5] && whole[5] == y[5]);
        hex_digits_are_apart(a as nat / 16, b as nat / 16);
        hex_digits_are_apart(a as nat % 16, b as nat % 16);
    }
}

proof fn escapes_are_apart(a: Seq<char>, b: Seq<char>)
    requires
        json_escaped(a) == json_escaped(b),
    ensures
        a == b,
    decreases a.len(),
{
    if a.len() > 0 && b.len() > 0 {
        let after_a = json_escaped(a.drop_first());
        let after_b = json_escaped(b.drop_first());
        first_escape_is_apart(a[0], after_a, b[0], after_b);
        let n = json_escape(a[0]).len() as int;
        assert(json_escaped(a).skip(n) =~= after_a);
        assert(json_escaped(b).skip(n) =~= after_b);
        escapes_are_apart(a.drop_first(), b.drop_first());
        assert(a =~= seq![a[0]] + a.drop_first());
        assert(b =~= seq![b[0]] + b.drop_first());
    } else {
        assert(a.len() > 0 ==> json_escaped(a).len() >= json_escape(a[0]).len() > 0);
        assert(b.len() > 0 ==> json_escaped(b).len() >= json_escape(b[0]).len() > 0);
        assert(a =~= b);
    }
}

/// Different texts have different JSON string literals.
pub proof fn json_literals_are_apart(a: Seq<char>, b: Seq<char>)
    ensures
        json_quoted(a) == json_quoted(b) <==> a == b,
{
    reveal(json_quoted);
    if json_quoted(a) == json_quoted(b) {
        assert(json_quoted(a).subrange(1, json_quoted(a).len() - 1) =~= json_escaped(a));
        assert(json_quoted(b).subrange(1, json_quoted(b).len() - 1) =~= json_escaped(b));
        escapes_are_apart(a, b);
    }
}

/// The keys of an object in the order of strings.
pub fn keys_of(m: &serde_json::Map<String, Value>) -> (keys: Vec<String>)
    ensures
        texts(keys@) == ordered_keys(members(*m)),
        lists_keys(texts(keys@), members(*m)),
{
    let keys = map_keys(m);
    proof {
        key_list_is_unique(texts(keys@), ordered_keys(members(*m)), members(*m));
    }
    keys
}

/// Of two texts that differ first in one character, the one with the smaller character
/// comes first, and what begins a text comes before it.
pub proof fn first_difference_decides(
    common: Seq<char>,
    c: char,
    d: char,
    a: Seq<char>,
    b: Seq<char>,
)
    ensures
        c < d ==> text_before(common + seq![c] + a, common + seq![d] + b),
        text_before(common, common + seq![c] + a),
        !text_before(common + seq![c] + a, common),
        !text_before(common, common),
    decreases common.len(),
{
    let x = common + seq![c] + a;
    let y = common + seq![d] + b;
    if common.len() == 0 {
        assert(x[0] == c && y[0] == d);
        text_order_is_strict(common, x);
    } else {
        let rest = common.drop_first();
        first_difference_decides(rest, c, d, a, b);
        assert(x.drop_first() =~= rest + seq![c] + a);
        assert(y.drop_first() =~= rest + seq![d] + b);
    }
}

/// Of two different texts, one comes before the other and not the other way round.
pub proof fn texts_are_ordered(a: Seq<char>, b: Seq<char>)
    ensures
        text_before(a, b) || text_before(b, a) <==> a != b,
        !(text_before(a, b) && text_before(b, a)),
    decreases a.len(),
{
    text_order_is_strict(a, b);
    if a.len() > 0 && b.len() > 0 && a[0] == b[0] {
        texts_are_ordered(a.drop_first(), b.drop_first());
        assert(a =~= seq![a[0]] + a.drop_first());
        assert(b =~= seq![b[0]] + b.drop_first());
    } else if a.len() == 0 && b.len() == 0 {
        assert(a =~= b);
    }
}

/// A list of the keys of an object has each of them, nothing else, none twice, and the
/// smaller ones first.
pub proof fn key_list_has_each_key_once(keys: Seq<Seq<char>>, m: Map<Seq<char>, Value>)
    requires
        lists_keys(keys, m),
    ensures
        forall|k: Seq<char>| m.contains_key(k) <==> #[trigger] keys.contains(k),
        forall|i: int, j: int|
            0 <= i < j < keys.len() ==> keys[i] != keys[j] && text_before(keys[i], keys[j]),
{
    assert forall|i: int, j: int| 0 <= i < j < keys.len() implies keys[i] != keys[j] by {
        text_order_is_strict(keys[i], keys[j]);
        assert(text_before(keys[i], keys[j]));
    }
}

} // verus!
