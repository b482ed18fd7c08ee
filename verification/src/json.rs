//! A JSON document as the analyzer reports it, and the lookups that the
//! report logic makes in it (`get`, `as_str`, `as_u64`, `as_array`).
use vstd::prelude::*;

use crate::text::{chars_equal, chars_of};

verus! {

/// A JSON number: its text, and its value where it is an integer that fits
/// in a `u64` (what `as_u64` gives).
pub struct JsonNumber {
    pub repr: String,
    pub unsigned: Option<u64>,
}

/// One member of a JSON object.
pub struct JsonMember {
    pub key: String,
    pub value: JsonValue,
}

/// A JSON value. An object keeps its members in order; a key names the
/// first member that carries it.
pub enum JsonValue {
    Null,
    Bool(bool),
    Number(JsonNumber),
    String(String),
    Array(Vec<JsonValue>),
    Object(Vec<JsonMember>),
}

/// The position of the first member named `key`, if any.
pub open spec fn member_position(members: Seq<JsonMember>, key: Seq<char>) -> Option<int>
    decreases members.len(),
{
    if members.len() == 0 {
        None
    } else if members.last().key@ == key && member_position(members.drop_last(), key) is None {
        Some(members.len() - 1)
    } else {
        member_position(members.drop_last(), key)
    }
}

/// The value of the member named `key`, where `v` is an object that has one
/// (`Value::get` with a string key).
pub open spec fn lookup(v: JsonValue, key: Seq<char>) -> Option<JsonValue> {
    match v {
        JsonValue::Object(members) => match member_position(members@, key) {
            Some(i) => Some(members@[i].value),
            None => None,
        },
        _ => None,
    }
}

/// The text of a JSON string (`Value::as_str`).
pub open spec fn as_text(v: Option<JsonValue>) -> Option<Seq<char>> {
    match v {
        Some(JsonValue::String(s)) => Some(s@),
        _ => None,
    }
}

/// The value of a JSON number that is an integer fitting in `u64`
/// (`Value::as_u64`).
pub open spec fn as_unsigned(v: Option<JsonValue>) -> Option<u64> {
    match v {
        Some(JsonValue::Number(n)) => n.unsigned,
        _ => None,
    }
}

/// The text under `key`, or the empty text.
pub open spec fn spec_json_string(v: JsonValue, key: Seq<char>) -> Seq<char> {
    match as_text(lookup(v, key)) {
        Some(s) => s,
        None => Seq::empty(),
    }
}

proof fn lemma_member_position_bounds(members: Seq<JsonMember>, key: Seq<char>)
    ensures
        member_position(members, key) matches Some(i) ==> 0 <= i < members.len() && members[i].key@
            == key,
        member_position(members, key) is None ==> forall|j: int|
            0 <= j < members.len() ==> (#[trigger] members[j]).key@ != key,
    decreases members.len(),
{
    if members.len() > 0 {
        lemma_member_position_bounds(members.drop_last(), key);
        assert forall|j: int| 0 <= j < members.len() - 1 implies (#[trigger] members[j]).key@
            == members.drop_last()[j].key@ by {}
    }
}

proof fn lemma_member_position_first(members: Seq<JsonMember>, key: Seq<char>, i: int)
    requires
        0 <= i < members.len(),
        members[i].key@ == key,
        forall|j: int| 0 <= j < i ==> (#[trigger] members[j]).key@ != key,
    ensures
        member_position(members, key) == Some(i),
    decreases members.len(),
{
    if i < members.len() - 1 {
        let t = members.drop_last();
        assert forall|j: int| 0 <= j < i implies (#[trigger] t[j]).key@ != key by {
            assert(t[j] == members[j]);
        }
        lemma_member_position_first(t, key, i);
    } else {
        let t = members.drop_last();
        lemma_member_position_bounds(t, key);
        assert forall|j: int| 0 <= j < t.len() implies (#[trigger] t[j]).key@ != key by {
            assert(t[j] == members[j]);
        }
    }
}

/// The value stored under `key` in the object `v` (`Value::get`).
pub fn json_get<'a>(v: &'a JsonValue, key: &str) -> (res: Option<&'a JsonValue>)
    ensures
        match res {
            Some(r) => lookup(*v, key@) == Some(*r),
            None => lookup(*v, key@) is None,
        },
{
    match v {
        JsonValue::Object(members) => {
            let k = chars_of(key);
            let mut i: usize = 0;
            while i < members.len()
                invariant
                    i <= members@.len(),
                    k@ == key@,
                    *v == JsonValue::Object(*members),
                    forall|j: int| 0 <= j < i ==> (#[trigger] members@[j]).key@ != key@,
                decreases members@.len() - i,
            {
                let mk = chars_of(members[i].key.as_str());
                if chars_equal(mk.as_slice(), k.as_slice()) {
                    proof {
                        lemma_member_position_first(members@, key@, i as int);
                        assert(lookup(*v, key@) == Some(members@[i as int].value));
                    }
                    return Some(&members[i].value);
                }
                i = i + 1;
            }
            proof {
                lemma_member_position_bounds(members@, key@);
                if member_position(members@, key@) is Some {
                    let p = member_position(members@, key@)->0;
                    assert(members@[p].key@ == key@);
                }
            }
            None
        },
        _ => None,
    }
}

/// The text of `v` where it is a JSON string (`Value::as_str`).
pub fn json_as_str(v: Option<&JsonValue>) -> (res: Option<&str>)
    ensures
        match res {
            Some(r) => as_text(opt_deref(v)) == Some(r@),
            None => as_text(opt_deref(v)) is None,
        },
{
    match v {
        Some(JsonValue::String(s)) => Some(s.as_str()),
        _ => None,
    }
}

/// The value of `v` where it is a JSON integer that fits in `u64`
/// (`Value::as_u64`).
pub fn json_as_u64(v: Option<&JsonValue>) -> (res: Option<u64>)
    ensures
        res == as_unsigned(opt_deref(v)),
{
    match v {
        Some(JsonValue::Number(n)) => n.unsigned,
        _ => None,
    }
}

/// The elements of `v` where it is a JSON array (`Value::as_array`).
pub fn json_as_array(v: Option<&JsonValue>) -> (res: Option<&Vec<JsonValue>>)
    ensures
        match res {
            Some(a) => opt_deref(v) == Some(JsonValue::Array(*a)),
            None => !(opt_deref(v) matches Some(JsonValue::Array(_))),
        },
{
    match v {
        Some(JsonValue::Array(a)) => Some(a),
        _ => None,
    }
}

/// The value behind an optional reference.
pub open spec fn opt_deref(v: Option<&JsonValue>) -> Option<JsonValue> {
    match v {
        Some(r) => Some(*r),
        None => None,
    }
}

/// The elements of an optional JSON array, or none.
pub open spec fn array_items(v: Option<JsonValue>) -> Seq<JsonValue> {
    match v {
        Some(JsonValue::Array(a)) => a@,
        _ => Seq::empty(),
    }
}

/// The text under `key`, or the empty text (`get(key)`, `as_str`,
/// `unwrap_or_default`).
pub fn json_string(value: &JsonValue, key: &str) -> (res: String)
    ensures
        res@ == spec_json_string(*value, key@),
{
    match json_as_str(json_get(value, key)) {
        Some(s) => s.to_owned(),
        None => String::new(),
    }
}

/// The text under `key`, if it is a JSON string.
pub fn json_string_opt(value: &JsonValue, key: &str) -> (res: Option<String>)
    ensures
        text_views(res) == as_text(lookup(*value, key@)),
{
    match json_as_str(json_get(value, key)) {
        Some(s) => Some(s.to_owned()),
        None => None,
    }
}

/// The views of an optional string.
pub open spec fn text_views(o: Option<String>) -> Option<Seq<char>> {
    match o {
        Some(s) => Some(s@),
        None => None,
    }
}

/// The integer under `key`, cut to its low 32 bits as `as u32` does.
pub open spec fn spec_json_u32(value: JsonValue, key: Seq<char>) -> Option<u32> {
    match as_unsigned(lookup(value, key)) {
        Some(n) => Some(n as u32),
        None => None,
    }
}

/// The integer under `key`, cut to 32 bits.
pub fn json_u32_opt(value: &JsonValue, key: &str) -> (res: Option<u32>)
    ensures
        res == spec_json_u32(*value, key@),
{
    match json_as_u64(json_get(value, key)) {
        Some(n) => Some(n as u32),
        None => None,
    }
}

/// The integer under `key` as a `usize`, or 0.
pub open spec fn spec_json_usize(value: JsonValue, key: Seq<char>) -> usize {
    match as_unsigned(lookup(value, key)) {
        Some(n) => n as usize,
        None => 0,
    }
}

/// The integer under `key` as a `usize`, or 0 where there is none.
pub fn json_usize(value: &JsonValue, key: &str) -> (res: usize)
    ensures
        res == spec_json_usize(*value, key@),
{
    match json_as_u64(json_get(value, key)) {
        Some(n) => n as usize,
        None => 0,
    }
}

/// A JSON document as `serde_json` holds it.
#[verifier::external_type_specification]
#[verifier::external_body]
pub struct ExJsonDocument(serde_json::Value);

/// What `serde_json::from_str::<serde_json::Value>` makes of a text, in
/// this library's JSON values: the document, or the parser's message.
pub uninterp spec fn parsed_json(text: Seq<char>) -> Result<JsonValue, Seq<char>>;

/// A `serde_json` document as this library's JSON value, one value for one:
/// a number keeps its text (`Display`) and `as_u64`; an object keeps its
/// members in the order `serde_json` iterates them. Nothing is stated of it.
#[verifier::external_body]
fn from_document(v: &serde_json::Value) -> JsonValue {
    match v {
        serde_json::Value::Null => JsonValue::Null,
        serde_json::Value::Bool(b) => JsonValue::Bool(*b),
        serde_json::Value::Number(n) => JsonValue::Number(
            JsonNumber { repr: n.to_string(), unsigned: n.as_u64() },
        ),
        serde_json::Value::String(t) => JsonValue::String(t.clone()),
        serde_json::Value::Array(a) => JsonValue::Array(a.iter().map(from_document).collect()),
        serde_json::Value::Object(m) => JsonValue::Object(
            m.iter().map(|(k, x)| JsonMember { key: k.clone(), value: from_document(x) }).collect(),
        ),
    }
}

/// `serde_json::from_str::<serde_json::Value>`: parses a JSON text. The
/// result, a document or the parser's message (its `Display`), depends on
/// the text alone and is named `parsed_json`.
#[verifier::external_body]
pub(crate) fn parse_json(text: &str) -> (res: Result<JsonValue, String>)
    ensures
        match res {
            Ok(v) => parsed_json(text@) == Ok::<JsonValue, Seq<char>>(v),
            Err(m) => parsed_json(text@) == Err::<JsonValue, Seq<char>>(m@),
        },
{
    match serde_json::from_str::<serde_json::Value>(text) {
        Ok(v) => Ok(from_document(&v)),
        Err(e) => Err(e.to_string()),
    }
}

} // verus!
