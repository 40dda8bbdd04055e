//! Parsing one fetched payload into a record. The payload text is handed to
//! serde_json behind a small trusted boundary; everything after the parse is
//! verified.

use vstd::prelude::*;
use crate::errors::FetchError;
use crate::record::{entries_sorted, entry_view, RecordModel, SecretRecord};
use crate::value::{SecretValue, ValueModel};

verus! {

#[verifier::external_type_specification]
#[verifier::external_body]
pub struct ExJsonValue(serde_json::Value);

/// The shape serde_json gives a payload: not valid JSON at all, valid JSON
/// that is not an object at the top level, or an object with its entries.
pub enum PayloadModel {
    Invalid,
    NotObject,
    Object(Seq<(Seq<char>, ValueModel)>),
}

/// What parsing a payload text yields. Stands for `serde_json::from_str`
/// (to `serde_json::Value`) together with iteration over the parsed
/// top-level map; parsing is a function of the text alone.
pub uninterp spec fn json_payload_of(s: Seq<char>) -> PayloadModel;

/// What one parsed JSON value holds, as the tag and text this library reads
/// from it. Stands for the content of a `serde_json::Value`; the content is
/// a function of the value alone.
pub uninterp spec fn value_model_of(v: serde_json::Value) -> ValueModel;

/// A payload as serde_json hands it back: classified by shape, the top-level
/// entries still holding their parsed values.
enum RawPayload {
    Invalid,
    NotObject,
    Object(Vec<(String, serde_json::Value)>),
}

/// Relies on serde_json::from_str and serde_json::Map. A payload either
/// fails to parse, parses to a non-object, or parses to an object; the map
/// of a parsed object iterates in strictly ascending key order (it is
/// ordered by its string keys), each key at most once.
#[verifier::external_body]
fn parse_payload_raw(s: &str) -> (r: RawPayload)
    ensures
        (r is Invalid) == (json_payload_of(s@) is Invalid),
        (r is NotObject) == (json_payload_of(s@) is NotObject),
        (r is Object) == (json_payload_of(s@) is Object),
        r is Object ==> r->Object_0@.map_values(
            |e: (String, serde_json::Value)| (e.0@, value_model_of(e.1)),
        ) == json_payload_of(s@)->Object_0,
        r is Object ==> entries_sorted(json_payload_of(s@)->Object_0),
{
    match serde_json::from_str::<serde_json::Value>(s) {
        Err(_) => RawPayload::Invalid,
        Ok(serde_json::Value::Object(map)) => RawPayload::Object(map.into_iter().collect()),
        Ok(_) => RawPayload::NotObject,
    }
}

/// Relies on serde_json's canonical rendering of parsed values: a string
/// value is taken as it is, a number as its canonical decimal text
/// (`Number::to_string`), an array or nested object as its canonical
/// serialized text (`Value::to_string`).
#[verifier::external_body]
fn convert_value(v: &serde_json::Value) -> (r: SecretValue)
    ensures
        r@ == value_model_of(*v),
{
    match v {
        serde_json::Value::String(s) => SecretValue::Text(s.clone()),
        serde_json::Value::Number(n) => SecretValue::Num(n.to_string()),
        serde_json::Value::Bool(b) => SecretValue::Bool(*b),
        serde_json::Value::Null => SecretValue::Null,
        serde_json::Value::Array(_) => SecretValue::Arr(v.to_string()),
        serde_json::Value::Object(_) => SecretValue::Obj(v.to_string()),
    }
}

/// Parses one payload text into key-value entries. Succeeds exactly when the
/// text is a JSON object at the top level; the entries mirror the parsed
/// mapping, keys ascending.
pub fn parse_entries(payload: &str) -> (r: Result<Vec<(String, SecretValue)>, FetchError>)
    ensures
        match r {
            Ok(entries) => json_payload_of(payload@) is Object && entries@.map_values(
                |e: (String, SecretValue)| entry_view(e),
            ) == json_payload_of(payload@)->Object_0 && entries_sorted(
                json_payload_of(payload@)->Object_0,
            ),
            Err(e) => !(json_payload_of(payload@) is Object) && (e is PayloadNotParseable
                <==> json_payload_of(payload@) is Invalid) && (e is PayloadNotAnObject
                <==> json_payload_of(payload@) is NotObject),
        },
{
    let raw = parse_payload_raw(payload);
    match raw {
        RawPayload::Invalid => Err(FetchError::PayloadNotParseable),
        RawPayload::NotObject => Err(FetchError::PayloadNotAnObject),
        RawPayload::Object(items) => {
            let ghost target = json_payload_of(payload@)->Object_0;
            let mut entries: Vec<(String, SecretValue)> = Vec::new();
            let n = items.len();
            let mut i: usize = 0;
            while i < n
                invariant
                    0 <= i <= n,
                    n == items@.len(),
                    entries@.len() == i,
                    items@.map_values(
                        |e: (String, serde_json::Value)| (e.0@, value_model_of(e.1)),
                    ) == target,
                    forall|j: int| 0 <= j < i ==> entry_view(#[trigger] entries@[j]) == target[j],
                decreases n - i,
            {
                let item = &items[i];
                let key = item.0.clone();
                let val = convert_value(&item.1);
                proof {
                    assert(items@.map_values(
                        |e: (String, serde_json::Value)| (e.0@, value_model_of(e.1)),
                    )[i as int] == (items@[i as int].0@, value_model_of(items@[i as int].1)));
                }
                entries.push((key, val));
                i = i + 1;
            }
            proof {
                assert(entries@.map_values(|e: (String, SecretValue)| entry_view(e)) =~= target);
            }
            Ok(entries)
        },
    }
}

/// Parses one fetched payload into a record under `name`. Succeeds exactly
/// when the payload is a JSON object at the top level; the record's key set
/// and values mirror the parsed mapping.
pub fn parse_secret(name: String, payload: &str) -> (r: Result<SecretRecord, FetchError>)
    ensures
        match r {
            Ok(rec) => json_payload_of(payload@) is Object && rec@ == (RecordModel {
                name: name@,
                entries: json_payload_of(payload@)->Object_0,
            }) && rec.wf(),
            Err(e) => !(json_payload_of(payload@) is Object) && (e is PayloadNotParseable
                <==> json_payload_of(payload@) is Invalid) && (e is PayloadNotAnObject
                <==> json_payload_of(payload@) is NotObject),
        },
{
    match parse_entries(payload) {
        Ok(entries) => {
            let rec = SecretRecord { name, entries };
            Ok(rec)
        },
        Err(e) => Err(e),
    }
}

} // verus!
