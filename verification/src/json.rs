//! JSON values: what a value of `serde_json` holds, and the calls into `serde_json`, `toml`
//! and `indexmap` that the settings need, each with what it is trusted to do.

use crate::toml_access::toml_document;
use crate::toml_doc::{has_key, string_in, Entries, Toml};
use indexmap::IndexMap;
use serde_json::Value;
use vstd::prelude::*;

verus! {

#[verifier::external_type_specification]
#[verifier::external_body]
pub struct ExValue(serde_json::Value);

#[verifier::external_type_specification]
#[verifier::external_body]
pub struct ExTomlValue(toml::Value);

#[verifier::external_type_specification]
#[verifier::external_body]
#[verifier::reject_recursive_types(K)]
#[verifier::reject_recursive_types(V)]
#[verifier::reject_recursive_types(S)]
pub struct ExIndexMap<K, V, S>(indexmap::IndexMap<K, V, S>);

/// What a JSON value holds. An object has no order.
#[verifier::ext_equal]
pub enum Json {
    Null,
    Bool(bool),
    /// A number without fraction and exponent, between the least `i64` and the greatest `u64`.
    Integer(int),
    /// Any other number: the bits of it.
    Float(u64),
    Str(Seq<char>),
    Array(Seq<Json>),
    Object(Map<Seq<char>, Json>),
}

/// A list of named values, in order.
pub type Members = Seq<(Seq<char>, Json)>;

/// What a value holds.
pub uninterp spec fn json_tree(v: serde_json::Value) -> Json;

/// What the parser makes of a text: the value, or the message that tells why it is none.
pub uninterp spec fn json_document(text: Seq<char>) -> Result<Json, Seq<char>>;

/// A value written out over several lines, with its members in the order of their names.
pub uninterp spec fn json_pretty(v: Json) -> Seq<char>;

/// What a value of `toml` holds, as JSON.
pub uninterp spec fn toml_value_json(v: toml::Value) -> Json;

/// What `toml` makes of a text, as JSON, or the message that tells why it is none.
pub uninterp spec fn toml_json(text: Seq<char>) -> Result<Json, Seq<char>>;

/// The keys and values of a map, in order.
pub uninterp spec fn map_members(m: indexmap::IndexMap<String, serde_json::Value>) -> Seq<
    (Seq<char>, Json),
>;

/// The member `key` of a value.
pub open spec fn member_of(v: Json, key: Seq<char>) -> Option<Json> {
    match v {
        Json::Object(m) => if m.contains_key(key) {
            Some(m[key])
        } else {
            None
        },
        _ => None,
    }
}

/// The string that a value is.
pub open spec fn text_in(v: Option<Json>) -> Option<Seq<char>> {
    match v {
        Some(Json::Str(s)) => Some(s),
        _ => None,
    }
}

/// The elements of the array that a value is.
pub open spec fn elements_in(v: Option<Json>) -> Option<Seq<Json>> {
    match v {
        Some(Json::Array(a)) => Some(a),
        _ => None,
    }
}

/// The members of the object that a value is.
pub open spec fn object_in(v: Option<Json>) -> Option<Map<Seq<char>, Json>> {
    match v {
        Some(Json::Object(m)) => Some(m),
        _ => None,
    }
}

/// What each value of a list holds.
pub open spec fn trees(values: Seq<Value>) -> Seq<Json> {
    values.map_values(|v: Value| json_tree(v))
}

/// Nested at most `n` deep, and without a number that is not an integer.
pub open spec fn exact_within(v: Json, n: nat) -> bool
    decreases n,
{
    match v {
        Json::Float(_) => false,
        Json::Array(a) => n > 0 && forall|i: int|
            0 <= i < a.len() ==> exact_within(#[trigger] a[i], (n - 1) as nat),
        Json::Object(m) => n > 0 && forall|k: Seq<char>| #[trigger]
            m.contains_key(k) ==> exact_within(m[k], (n - 1) as nat),
        _ => true,
    }
}

/// Nested at most `n` deep.
pub open spec fn nested_within(v: Json, n: nat) -> bool
    decreases n,
{
    match v {
        Json::Array(a) => n > 0 && forall|i: int|
            0 <= i < a.len() ==> nested_within(#[trigger] a[i], (n - 1) as nat),
        Json::Object(m) => n > 0 && forall|k: Seq<char>| #[trigger]
            m.contains_key(k) ==> nested_within(m[k], (n - 1) as nat),
        _ => true,
    }
}

/// Within the nesting that the parser takes.
pub open spec fn is_nested(v: Json) -> bool {
    nested_within(v, 127)
}

/// Within the nesting that the parser takes, and without a number that it may round.
pub open spec fn is_exact(v: Json) -> bool {
    exact_within(v, 127)
}

/// The same, as far as `n` levels down, but for numbers that are not integers.
pub open spec fn like_within(a: Json, b: Json, n: nat) -> bool
    decreases n,
{
    n > 0 ==> match (a, b) {
        (Json::Float(_), Json::Float(_)) => true,
        (Json::Array(s), Json::Array(t)) => s.len() == t.len() && forall|i: int|
            0 <= i < s.len() ==> like_within(#[trigger] s[i], t[i], (n - 1) as nat),
        (Json::Object(s), Json::Object(t)) => s.dom() == t.dom() && forall|k: Seq<char>|
            s.contains_key(k) ==> like_within(#[trigger] s[k], t[k], (n - 1) as nat),
        _ => a == b,
    }
}

/// The same, but for numbers that are not integers.
pub open spec fn is_like(a: Json, b: Json) -> bool {
    forall|n: nat| #[trigger] like_within(a, b, n)
}

/// `text` is `v` written out: the parser takes it, unless `v` is nested too deep, and what it
/// reads is like `v`.
pub open spec fn json_reads_back(text: Seq<char>, v: Json) -> bool {
    &&& is_nested(v) ==> json_document(text) is Ok
    &&& json_document(text) matches Ok(again) ==> is_like(again, v)
}

/// A number of this form is neither infinite nor no number.
pub open spec fn is_finite(bits: u64) -> bool {
    (bits / 0x10_0000_0000_0000) % 0x800 != 0x7ff
}

/// What an item of a TOML document is as JSON. There are no infinite numbers there, and a date
/// is an object that marks it.
pub open spec fn json_of(t: Toml) -> Json
    decreases t,
{
    match t {
        Toml::Str(s) => Json::Str(s),
        Toml::Integer(n) => Json::Integer(n),
        Toml::Float(bits) => if is_finite(bits) {
            Json::Float(bits)
        } else {
            Json::Null
        },
        Toml::Bool(b) => Json::Bool(b),
        Toml::Date(text) => Json::Object(map![date_mark() => Json::Str(text)]),
        Toml::Array(s) => Json::Array(json_list(s)),
        Toml::Tables(s) => Json::Array(json_list(s)),
        Toml::Table(s) => Json::Object(json_members(s)),
        Toml::Irregular => Json::Null,
    }
}

/// What each item of a list is as JSON.
pub open spec fn json_list(s: Seq<Toml>) -> Seq<Json>
    decreases s,
{
    if s.len() == 0 {
        Seq::empty()
    } else {
        json_list(s.drop_last()).push(json_of(s[s.len() - 1]))
    }
}

/// What the entries of a table are as the members of a JSON object.
pub open spec fn json_members(s: Entries) -> Map<Seq<char>, Json>
    decreases s,
{
    if s.len() == 0 {
        Map::empty()
    } else {
        json_members(s.drop_last()).insert(s[s.len() - 1].0, json_of(s[s.len() - 1].1))
    }
}

/// No table has the key by which `toml` marks a date.
pub open spec fn is_unmarked(t: Toml) -> bool
    decreases t,
{
    match t {
        Toml::Table(s) => !has_key(s, date_mark()) && forall|i: int|
            0 <= i < s.len() ==> is_unmarked(#[trigger] s[i].1),
        Toml::Array(s) => forall|i: int| 0 <= i < s.len() ==> is_unmarked(#[trigger] s[i]),
        Toml::Tables(s) => forall|i: int| 0 <= i < s.len() ==> is_unmarked(#[trigger] s[i]),
        _ => true,
    }
}

/// `text` is a document whose strings directly under a key of the root are members of `v`,
/// unless the root has the key that marks a date.
pub open spec fn shows_strings(text: Seq<char>, v: Json) -> bool {
    toml_document(text) matches Ok(doc) && (!has_key(doc, date_mark()) ==> forall|k: Seq<char>|
        (#[trigger] string_in(doc, k)) is Some ==> text_in(member_of(v, k)) == string_in(doc, k))
}

/// The key by which `toml` marks a date; a table that starts with it is read as one.
pub open spec fn date_mark() -> Seq<char> {
    "$__toml_private_datetime"@
}

/// The value under `key` of a list of named values.
pub open spec fn find_member(s: Members, key: Seq<char>) -> Option<Json>
    decreases s.len(),
{
    if s.len() == 0 {
        None
    } else if s.last().0 == key {
        Some(s.last().1)
    } else {
        find_member(s.drop_last(), key)
    }
}

/// `Value::as_str`: the string that the value is.
pub assume_specification[ serde_json::Value::as_str ](v: &Value) -> (r: Option<&str>)
    ensures
        match r {
            Some(s) => json_tree(*v) == Json::Str(s@),
            None => !(json_tree(*v) is Str),
        },
;

/// `Value::is_object`: whether the value is an object.
pub assume_specification[ serde_json::Value::is_object ](v: &Value) -> (r: bool)
    ensures
        r == (json_tree(*v) is Object),
;

/// `Value::as_array`: the elements of the array that the value is.
pub assume_specification[ serde_json::Value::as_array ](v: &Value) -> (r: Option<&Vec<Value>>)
    ensures
        match r {
            Some(a) => json_tree(*v) == Json::Array(trees(a@)),
            None => !(json_tree(*v) is Array),
        },
;

/// `Value::clone`: a value that holds the same.
pub assume_specification[ <serde_json::Value as Clone>::clone ](v: &Value) -> (r: Value)
    ensures
        json_tree(r) == json_tree(*v),
;

/// `Value::get` with a string: the member of that name, if the value is an object that has it.
#[verifier::external_body]
pub(crate) fn member<'a>(v: &'a Value, key: &str) -> (r: Option<&'a Value>)
    ensures
        match r {
            Some(m) => member_of(json_tree(*v), key@) == Some(json_tree(*m)),
            None => member_of(json_tree(*v), key@) is None,
        },
{
    v.get(key)
}

/// `serde_json::Map::iter`: the members of an object, each once.
#[verifier::external_body]
pub(crate) fn object_members<'a>(v: &'a Value) -> (r: Vec<(&'a String, &'a Value)>)
    requires
        json_tree(*v) is Object,
    ensures
        forall|i: int|
            0 <= i < r@.len() ==> member_of(json_tree(*v), (#[trigger] r@[i]).0@) == Some(
                json_tree(*r@[i].1),
            ),
        forall|k: Seq<char>| #[trigger]
            (json_tree(*v)->Object_0).contains_key(k) ==> exists|i: int|
                0 <= i < r@.len() && (#[trigger] r@[i]).0@ == k,
        forall|i: int, j: int| 0 <= i < j < r@.len() ==> (#[trigger] r@[i]).0@ != (#[trigger] r@[j]).0@,
{
    v.as_object().unwrap().iter().collect()
}

/// `serde_json::Map::new`: an object without members.
#[verifier::external_body]
pub(crate) fn empty_object() -> (r: Value)
    ensures
        json_tree(r) == Json::Object(Map::<Seq<char>, Json>::empty()),
{
    Value::Object(serde_json::Map::new())
}

/// `serde_json::Map::insert`: the object has the value under `key`, in the place of what it
/// had there.
#[verifier::external_body]
pub(crate) fn object_insert(v: &mut Value, key: &str, value: Value)
    requires
        json_tree(*old(v)) is Object,
    ensures
        json_tree(*final(v)) == Json::Object(
            (json_tree(*old(v))->Object_0).insert(key@, json_tree(value)),
        ),
{
    v.as_object_mut().unwrap().insert(key.to_string(), value);
}

/// `Value::from` on a string: a value that is this string.
#[verifier::external_body]
pub(crate) fn string_value(s: &str) -> (r: Value)
    ensures
        json_tree(r) == Json::Str(s@),
{
    Value::from(s)
}

/// `Value::from` on a list: an array of these values.
#[verifier::external_body]
pub(crate) fn array_value(elements: Vec<Value>) -> (r: Value)
    ensures
        json_tree(r) == Json::Array(trees(elements@)),
{
    Value::from(elements)
}

/// `serde_json::from_str`: the value that a text is, nested no deeper than the parser goes, or
/// the message of the parser's error.
#[verifier::external_body]
pub(crate) fn parse_json(text: &str) -> (r: Result<Value, String>)
    ensures
        match r {
            Ok(v) => json_document(text@) == Ok::<Json, Seq<char>>(json_tree(v)) && is_nested(
                json_tree(v),
            ),
            Err(message) => json_document(text@) == Err::<Json, Seq<char>>(message@),
        },
{
    serde_json::from_str::<Value>(text).map_err(|e| e.to_string())
}

/// `serde_json::to_string_pretty` on a value: it does not fail, and the parser reads the
/// value back from the text, unless the value is nested deeper than the parser goes. A number
/// that is not an integer may come back rounded, and is always taken: it is written with at
/// most seventeen digits, and the parser's product of these with a power of ten stays finite,
/// for the greatest number too.
#[verifier::external_body]
pub(crate) fn write_json(v: &Value) -> (r: Result<String, String>)
    ensures
        match r {
            Ok(text) => text@ == json_pretty(json_tree(*v)) && json_reads_back(
                text@,
                json_tree(*v),
            ),
            Err(_) => false,
        },
{
    serde_json::to_string_pretty(v).map_err(|e| e.to_string())
}

/// `toml::from_str` into `toml::Value`: the value that a text is, or the message of the
/// parser's error. The parser is the one of `toml_edit`: where that refuses a text, so does
/// this, with the same message. Where that takes it, so does this, and the value holds what
/// the document holds, unless a table of the document has the key that marks a date, and is
/// read as one, or refused. With that key in another table than the root, the strings directly
/// under the keys of the root are members of the value nevertheless.
#[verifier::external_body]
pub(crate) fn parse_toml_value(text: &str) -> (r: Result<toml::Value, String>)
    ensures
        match r {
            Ok(v) => toml_json(text@) == Ok::<Json, Seq<char>>(toml_value_json(v))
                && shows_strings(text@, toml_value_json(v)) && (toml_document(text@) matches Ok(doc)
                && (is_unmarked(Toml::Table(doc)) ==> toml_value_json(v) == json_of(
                Toml::Table(doc),
            ))),
            Err(message) => toml_json(text@) == Err::<Json, Seq<char>>(message@) && match
                toml_document(text@) {
                Ok(doc) => !is_unmarked(Toml::Table(doc)),
                Err(m) => m == message@,
            },
        },
{
    toml::from_str::<toml::Value>(text).map_err(|e| e.to_string())
}

/// `serde_json::to_value` on a `toml::Value`: the value as JSON; it does not fail.
#[verifier::external_body]
pub(crate) fn toml_to_json(v: toml::Value) -> (r: Result<Value, String>)
    ensures
        match r {
            Ok(j) => json_tree(j) == toml_value_json(v),
            Err(_) => false,
        },
{
    serde_json::to_value(v).map_err(|e| e.to_string())
}

/// `IndexMap::new`: a map without entries.
#[verifier::external_body]
pub(crate) fn empty_map() -> (r: IndexMap<String, Value>)
    ensures
        map_members(r) == Seq::<(Seq<char>, Json)>::empty(),
{
    IndexMap::new()
}

/// `IndexMap::insert` with a key that the map does not have: the entry comes last.
#[verifier::external_body]
pub(crate) fn map_append(m: &mut IndexMap<String, Value>, key: String, value: Value)
    requires
        find_member(map_members(*old(m)), key@) is None,
    ensures
        map_members(*final(m)) == map_members(*old(m)).push((key@, json_tree(value))),
{
    m.insert(key, value);
}

/// `IndexMap::get`: the value under `key`.
#[verifier::external_body]
pub(crate) fn map_get<'a>(m: &'a IndexMap<String, Value>, key: &str) -> (r: Option<&'a Value>)
    ensures
        match r {
            Some(v) => find_member(map_members(*m), key@) == Some(json_tree(*v)),
            None => find_member(map_members(*m), key@) is None,
        },
{
    m.get(key)
}

} // verus!
