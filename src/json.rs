use vstd::prelude::*;

use simd_json::{OwnedValue, StaticNode};

verus! {

broadcast use vstd::std_specs::vec::axiom_vec_index_decreases;

/// A JSON document.
#[derive(Debug)]
pub enum JsonValue {
    Null,
    Bool(bool),
    Int(i64),
    UInt(u64),
    Str(String),
    /// A number with a fraction.
    Other,
    Array(Vec<JsonValue>),
    /// The members of an object, in no particular order.
    Object(Vec<(String, JsonValue)>),
}

/// The mathematical value of a JSON document; an object is a map from keys
/// to values.
pub enum JsonModel {
    Null,
    Bool(bool),
    Int(i64),
    UInt(u64),
    Str(Seq<char>),
    Other,
    Array(Seq<JsonModel>),
    Object(Map<Seq<char>, JsonModel>),
}

#[verifier::external_type_specification]
#[verifier::external_body]
pub struct ExOwnedValue(simd_json::OwnedValue);

/// The document that JSON text `payload` holds, `None` when it holds none.
pub uninterp spec fn json_doc_of(payload: Seq<u8>) -> Option<JsonModel>;

/// Converts a simd_json value into a `JsonValue`, variant by variant.
#[verifier::external_body]
fn json_value_of(v: OwnedValue) -> JsonValue {
    match v {
        OwnedValue::Static(StaticNode::Null) => JsonValue::Null,
        OwnedValue::Static(StaticNode::Bool(b)) => JsonValue::Bool(b),
        OwnedValue::Static(StaticNode::I64(i)) => JsonValue::Int(i),
        OwnedValue::Static(StaticNode::U64(u)) => JsonValue::UInt(u),
        OwnedValue::Static(_) => JsonValue::Other,
        OwnedValue::String(s) => JsonValue::Str(s),
        OwnedValue::Array(xs) => {
            JsonValue::Array((*xs).into_iter().map(json_value_of).collect())
        },
        OwnedValue::Object(m) => {
            JsonValue::Object((*m).into_iter().map(|(k, x)| (k, json_value_of(x))).collect())
        },
    }
}

/// Relies on `simd_json::to_owned_value`: the document the bytes hold, or
/// `None` when they are not JSON. With the `value-no-dup-keys` feature a
/// repeated key keeps its last value, so each object holds every key once and
/// the document depends on the bytes alone.
#[verifier::external_body]
pub(crate) fn parse_json(payload: &[u8]) -> (r: Option<JsonValue>)
    ensures
        r is None <==> json_doc_of(payload@) is None,
        r matches Some(v) ==> json_doc_of(payload@) == Some(model_of(v)),
{
    let mut buf = payload.to_vec();
    simd_json::to_owned_value(&mut buf).ok().map(json_value_of)
}

/// Index of the last member of `es` with key `k` (`-1` when none).
pub open spec fn last_key_index(es: Seq<(String, JsonValue)>, k: Seq<char>) -> int
    decreases es.len(),
{
    if es.len() == 0 {
        -1
    } else if es.last().0@ == k {
        es.len() - 1
    } else {
        last_key_index(es.drop_last(), k)
    }
}

/// The value of a document.
pub open spec fn model_of(v: JsonValue) -> JsonModel
    decreases v,
{
    match v {
        JsonValue::Null => JsonModel::Null,
        JsonValue::Bool(b) => JsonModel::Bool(b),
        JsonValue::Int(i) => JsonModel::Int(i),
        JsonValue::UInt(u) => JsonModel::UInt(u),
        JsonValue::Str(s) => JsonModel::Str(s@),
        JsonValue::Other => JsonModel::Other,
        JsonValue::Array(xs) => JsonModel::Array(
            Seq::new(
                xs.len() as nat,
                |i: int|
                    if 0 <= i < xs.len() {
                        model_of(xs@[i])
                    } else {
                        JsonModel::Null
                    },
            ),
        ),
        JsonValue::Object(es) => JsonModel::Object(
            Map::new(
                |k: Seq<char>| last_key_index(es@, k) >= 0,
                |k: Seq<char>|
                    if 0 <= last_key_index(es@, k) < es.len() {
                        model_of(es@[last_key_index(es@, k)].1)
                    } else {
                        JsonModel::Null
                    },
            ),
        ),
    }
}

/// The value of an optional document.
pub open spec fn opt_model(v: Option<&JsonValue>) -> Option<JsonModel> {
    match v {
        Some(x) => Some(model_of(*x)),
        None => None,
    }
}

/// Member `key` of `v`, `None` when it is missing or `v` is no object.
pub open spec fn member(v: JsonModel, key: Seq<char>) -> Option<JsonModel> {
    match v {
        JsonModel::Object(m) => if m.contains_key(key) {
            Some(m[key])
        } else {
            None
        },
        _ => None,
    }
}

/// `v` unless it is `null`.
pub open spec fn non_null(v: Option<JsonModel>) -> Option<JsonModel> {
    match v {
        Some(JsonModel::Null) => None,
        other => other,
    }
}

proof fn lemma_last_key_index(es: Seq<(String, JsonValue)>, k: Seq<char>)
    ensures
        -1 <= last_key_index(es, k) < es.len(),
        last_key_index(es, k) >= 0 ==> es[last_key_index(es, k)].0@ == k,
    decreases es.len(),
{
    if es.len() > 0 {
        lemma_last_key_index(es.drop_last(), k);
    }
}

/// Member `key` of `v`.
pub fn find_member<'a>(v: &'a JsonValue, key: &str) -> (r: Option<&'a JsonValue>)
    ensures
        opt_model(r) == member(model_of(*v), key@),
{
    match v {
        JsonValue::Object(es) => {
            let k = key.to_owned();
            let mut found: Option<usize> = None;
            let mut i: usize = 0;
            while i < es.len()
                invariant
                    i <= es.len(),
                    k@ == key@,
                    found matches Some(f) ==> f == last_key_index(es@.subrange(0, i as int), key@),
                    found is None ==> last_key_index(es@.subrange(0, i as int), key@) == -1,
                decreases es.len() - i,
            {
                assert(es@.subrange(0, i + 1).drop_last() =~= es@.subrange(0, i as int));
                if String::eq(&es[i].0, &k) {
                    found = Some(i);
                }
                i = i + 1;
            }
            assert(es@.subrange(0, es.len() as int) =~= es@);
            proof {
                lemma_last_key_index(es@, key@);
            }
            match found {
                Some(f) => Some(&es[f].1),
                None => None,
            }
        },
        _ => None,
    }
}

/// `v` unless it is `null`.
pub fn ensure_not_null<'a>(v: Option<&'a JsonValue>) -> (r: Option<&'a JsonValue>)
    ensures
        opt_model(r) == non_null(opt_model(v)),
        r is Some ==> r == v,
{
    match v {
        Some(JsonValue::Null) => None,
        other => other,
    }
}

} // verus!
