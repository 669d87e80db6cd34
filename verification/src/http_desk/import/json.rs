//! A JSON document tree that the importers walk, the lookups they make in
//! it, and the calls into `serde_json` / `serde_yaml` that read and write
//! JSON text.
use vstd::prelude::*;

use crate::text::text_eq;

verus! {

/// A number as `serde_json` read it; only ever written back out.
#[verifier::external_type_specification]
#[verifier::external_body]
pub struct ExJsonNumber(serde_json::Number);

/// `serde_json`'s own document tree, met only inside the calls below.
#[verifier::external_type_specification]
#[verifier::external_body]
pub struct ExSerdeJsonValue(serde_json::Value);

/// A JSON value. An object's members are kept in the order in which
/// `serde_json`'s map yields them, each key once.
#[derive(Debug)]
pub enum JsonValue {
    Null,
    Bool(bool),
    Number(serde_json::Number),
    String(String),
    Array(Vec<JsonValue>),
    Object(Vec<(String, JsonValue)>),
}

/// Why a YAML (or JSON) document could not be read as JSON.
#[derive(Debug)]
pub enum YamlJsonError {
    /// The text is not YAML; the parser's message.
    Syntax(String),
    /// The YAML has no JSON form; the converter's message.
    Conversion(String),
}

// ---------------------------------------------------------------------
// Lookups
// ---------------------------------------------------------------------

/// The index of the first member named `key`.
pub open spec fn entry_index(es: Seq<(String, JsonValue)>, key: Seq<char>) -> Option<int>
    decreases es.len(),
{
    if es.len() == 0 {
        None
    } else if es[0].0@ == key {
        Some(0)
    } else {
        match entry_index(es.drop_first(), key) {
            Some(i) => Some(i + 1),
            None => None,
        }
    }
}

pub proof fn lemma_entry_index(es: Seq<(String, JsonValue)>, key: Seq<char>)
    ensures
        entry_index(es, key) matches Some(i) ==> 0 <= i < es.len() && es[i].0@ == key && forall|
            k: int,
        | 0 <= k < i ==> es[k].0@ != key,
        entry_index(es, key) is None ==> forall|k: int| 0 <= k < es.len() ==> es[k].0@ != key,
    decreases es.len(),
{
    if es.len() > 0 && es[0].0@ != key {
        lemma_entry_index(es.drop_first(), key);
        assert forall|k: int| 0 < k < es.len() implies es[k] == es.drop_first()[k - 1] by {}
    }
}

/// The member `key` of an object; `None` for a missing key or a value that
/// is not an object (`Value::get`).
pub open spec fn field(v: JsonValue, key: Seq<char>) -> Option<JsonValue> {
    match v {
        JsonValue::Object(es) => match entry_index(es@, key) {
            Some(i) => Some(es@[i].1),
            None => None,
        },
        _ => None,
    }
}

/// `field` on an optional value.
pub open spec fn field_of(o: Option<JsonValue>, key: Seq<char>) -> Option<JsonValue> {
    match o {
        Some(v) => field(v, key),
        None => None,
    }
}

/// The text of a string value (`Value::as_str`).
pub open spec fn str_of(o: Option<JsonValue>) -> Option<Seq<char>> {
    match o {
        Some(JsonValue::String(s)) => Some(s@),
        _ => None,
    }
}

/// The items of an array value (`Value::as_array`).
pub open spec fn array_of(o: Option<JsonValue>) -> Option<Seq<JsonValue>> {
    match o {
        Some(JsonValue::Array(a)) => Some(a@),
        _ => None,
    }
}

/// The members of an object value (`Value::as_object`).
pub open spec fn object_of(o: Option<JsonValue>) -> Option<Seq<(String, JsonValue)>> {
    match o {
        Some(JsonValue::Object(es)) => Some(es@),
        _ => None,
    }
}

/// The flag of a boolean value (`Value::as_bool`).
pub open spec fn bool_of(o: Option<JsonValue>) -> Option<bool> {
    match o {
        Some(JsonValue::Bool(b)) => Some(b),
        _ => None,
    }
}

/// The text, or the empty text.
pub open spec fn text_or_empty(o: Option<Seq<char>>) -> Seq<char> {
    match o {
        Some(t) => t,
        None => seq![],
    }
}

/// The member `key` of `v`, if `v` is an object that has one.
pub fn get<'a>(v: &'a JsonValue, key: &str) -> (r: Option<&'a JsonValue>)
    ensures
        r matches Some(x) ==> field(*v, key@) == Some(*x),
        r is None ==> field(*v, key@) is None,
{
    match v {
        JsonValue::Object(es) => {
            let mut i: usize = 0;
            while i < es.len()
                invariant
                    *v == JsonValue::Object(*es),
                    i <= es@.len(),
                    forall|k: int| 0 <= k < i ==> es@[k].0@ != key@,
                decreases es.len() - i,
            {
                if text_eq(es[i].0.as_str(), key) {
                    proof {
                        lemma_entry_index(es@, key@);
                        assert(es@[i as int].0@ == key@);
                        if let Some(j) = entry_index(es@, key@) {
                            if j > i {
                                assert(es@[i as int].0@ != key@);
                            }
                        }
                        assert(entry_index(es@, key@) == Some(i as int));
                    }
                    return Some(&es[i].1);
                }
                i = i + 1;
            }
            proof {
                lemma_entry_index(es@, key@);
            }
            None
        },
        _ => None,
    }
}

/// `get` on an optional value.
pub fn get_of<'a>(o: Option<&'a JsonValue>, key: &str) -> (r: Option<&'a JsonValue>)
    ensures
        opt_ref(r) == field_of(opt_ref(o), key@),
{
    match o {
        Some(v) => {
            let r = get(v, key);
            r
        },
        None => None,
    }
}

/// The value behind an optional reference.
pub open spec fn opt_ref(o: Option<&JsonValue>) -> Option<JsonValue> {
    match o {
        Some(v) => Some(*v),
        None => None,
    }
}

/// The text of an optional string value.
pub fn as_str<'a>(o: Option<&'a JsonValue>) -> (r: Option<&'a str>)
    ensures
        opt_str(r) == str_of(opt_ref(o)),
{
    match o {
        Some(JsonValue::String(s)) => Some(s.as_str()),
        _ => None,
    }
}

/// The text behind an optional string slice.
pub open spec fn opt_str(o: Option<&str>) -> Option<Seq<char>> {
    match o {
        Some(s) => Some(s@),
        None => None,
    }
}

/// The items of an optional array value.
pub fn as_array<'a>(o: Option<&'a JsonValue>) -> (r: Option<&'a Vec<JsonValue>>)
    ensures
        match r {
            Some(a) => array_of(opt_ref(o)) == Some(a@),
            None => array_of(opt_ref(o)) is None,
        },
{
    match o {
        Some(JsonValue::Array(a)) => Some(a),
        _ => None,
    }
}

/// The members of an optional object value.
pub fn as_object<'a>(o: Option<&'a JsonValue>) -> (r: Option<&'a Vec<(String, JsonValue)>>)
    ensures
        match r {
            Some(es) => object_of(opt_ref(o)) == Some(es@),
            None => object_of(opt_ref(o)) is None,
        },
{
    match o {
        Some(JsonValue::Object(es)) => Some(es),
        _ => None,
    }
}

/// The flag of an optional boolean value.
pub fn as_bool(o: Option<&JsonValue>) -> (r: Option<bool>)
    ensures
        r == bool_of(opt_ref(o)),
{
    match o {
        Some(JsonValue::Bool(b)) => Some(*b),
        _ => None,
    }
}

/// The text of an optional string value, or the empty text.
pub fn str_or_empty(o: Option<&JsonValue>) -> (r: String)
    ensures
        r@ == text_or_empty(str_of(opt_ref(o))),
{
    match as_str(o) {
        Some(s) => String::from_str(s),
        None => String::new(),
    }
}

// ---------------------------------------------------------------------
// Reading and writing JSON text
// ---------------------------------------------------------------------

/// The document that `serde_json::from_str` reads from a text, or `None`
/// when the text is not JSON.
pub uninterp spec fn json_document(content: Seq<char>) -> Option<JsonValue>;

/// Whether `serde_yaml::from_str::<serde_yaml::Value>` reads a text.
pub uninterp spec fn yaml_parses(content: Seq<char>) -> bool;

/// The document that `serde_yaml::from_str` reads from a text and
/// `serde_json::to_value` turns into JSON, or `None` when either refuses.
pub uninterp spec fn yaml_json_document(content: Seq<char>) -> Option<JsonValue>;

/// The text that `serde_json::to_string_pretty` writes for a value.
pub uninterp spec fn json_pretty_text(v: JsonValue) -> Seq<char>;

/// The compact text that `serde_json::Value`'s `Display` writes.
pub uninterp spec fn json_compact_text(v: JsonValue) -> Seq<char>;

/// `serde_json`'s tree as a `JsonValue`, member for member.
#[verifier::external_body]
fn from_serde(v: &serde_json::Value) -> JsonValue {
    match v {
        serde_json::Value::Null => JsonValue::Null,
        serde_json::Value::Bool(b) => JsonValue::Bool(*b),
        serde_json::Value::Number(n) => JsonValue::Number(n.clone()),
        serde_json::Value::String(s) => JsonValue::String(s.clone()),
        serde_json::Value::Array(a) => JsonValue::Array(a.iter().map(from_serde).collect()),
        serde_json::Value::Object(m) => JsonValue::Object(
            m.iter().map(|(k, x)| (k.clone(), from_serde(x))).collect(),
        ),
    }
}

/// A `JsonValue` as `serde_json`'s tree, member for member.
#[verifier::external_body]
fn to_serde(v: &JsonValue) -> serde_json::Value {
    match v {
        JsonValue::Null => serde_json::Value::Null,
        JsonValue::Bool(b) => serde_json::Value::Bool(*b),
        JsonValue::Number(n) => serde_json::Value::Number(n.clone()),
        JsonValue::String(s) => serde_json::Value::String(s.clone()),
        JsonValue::Array(a) => serde_json::Value::Array(a.iter().map(to_serde).collect()),
        JsonValue::Object(es) => serde_json::Value::Object(
            es.iter().map(|(k, x)| (k.clone(), to_serde(x))).collect(),
        ),
    }
}

/// Reads JSON text with `serde_json::from_str::<serde_json::Value>`. It
/// succeeds exactly when `json_document` names a document, and then gives
/// that document; on failure it gives the parser's message, of which
/// nothing is stated.
#[verifier::external_body]
pub(crate) fn parse_json(content: &str) -> (r: Result<JsonValue, String>)
    ensures
        r is Ok <==> json_document(content@) is Some,
        r matches Ok(v) ==> json_document(content@) == Some(v),
{
    match serde_json::from_str::<serde_json::Value>(content) {
        Ok(v) => Ok(from_serde(&v)),
        Err(e) => Err(e.to_string()),
    }
}

/// Reads YAML (of which JSON is a subset) with
/// `serde_yaml::from_str::<serde_yaml::Value>` and turns it into JSON with
/// `serde_json::to_value`. It succeeds exactly when `yaml_json_document`
/// names a document, and then gives it; a failure says which step refused
/// (`Syntax` exactly when the YAML reader refuses the text), with that
/// step's message, of which nothing is stated.
#[verifier::external_body]
pub(crate) fn parse_yaml_json(content: &str) -> (r: Result<JsonValue, YamlJsonError>)
    ensures
        r is Ok <==> yaml_json_document(content@) is Some,
        r matches Err(YamlJsonError::Syntax(_)) <==> !yaml_parses(content@),
        r matches Ok(v) ==> yaml_json_document(content@) == Some(v),
{
    let yaml: serde_yaml::Value = match serde_yaml::from_str(content) {
        Ok(y) => y,
        Err(e) => return Err(YamlJsonError::Syntax(e.to_string())),
    };
    match serde_json::to_value(&yaml) {
        Ok(v) => Ok(from_serde(&v)),
        Err(e) => Err(YamlJsonError::Conversion(e.to_string())),
    }
}

/// Writes a value as indented JSON text (`serde_json::to_string_pretty`),
/// the text that `json_pretty_text` names. For a `serde_json::Value` the
/// call succeeds: its map keys are strings, its numbers are finite, and the
/// text is written into memory.
#[verifier::external_body]
pub(crate) fn to_pretty_text(v: &JsonValue) -> (r: Result<String, String>)
    ensures
        r is Ok,
        r matches Ok(s) ==> s@ == json_pretty_text(*v),
{
    serde_json::to_string_pretty(&to_serde(v)).map_err(|e| e.to_string())
}

/// Writes a value as compact JSON text (`serde_json::Value`'s `Display`),
/// the text that `json_compact_text` names.
#[verifier::external_body]
pub(crate) fn to_compact_text(v: &JsonValue) -> (r: String)
    ensures
        r@ == json_compact_text(*v),
{
    to_serde(v).to_string()
}

} // verus!
