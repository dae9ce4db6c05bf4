//! The JSON texts of stored documents, written by serde_json. A document is
//! a JSON object whose fields are string pairs (key, value).
use vstd::prelude::*;

verus! {

/// What `serde_json::to_string` writes for the JSON object with these
/// string-valued fields.
pub uninterp spec fn json_compact(fields: Seq<(Seq<char>, Seq<char>)>) -> Seq<char>;

/// What `serde_json::to_string_pretty` writes for the JSON object with these
/// string-valued fields.
pub uninterp spec fn json_pretty(fields: Seq<(Seq<char>, Seq<char>)>) -> Seq<char>;

/// What `{:#?}` prints for the list of JSON objects (`Vec<serde_json::Value>`)
/// with these string-valued fields, through serde_json's `Debug` for `Value`.
pub uninterp spec fn json_debug_list(objects: Seq<Seq<(Seq<char>, Seq<char>)>>) -> Seq<char>;

/// The fields made of `keys[i]` and `values[i]`.
pub open spec fn field_pairs(keys: Seq<String>, values: Seq<String>) -> Seq<(Seq<char>, Seq<char>)> {
    Seq::new(keys.len(), |i: int| (keys[i]@, values[i]@))
}

/// The objects whose fields are the keys `keys` and the values of each row.
pub open spec fn object_rows(keys: Seq<String>, rows: Seq<Vec<String>>) -> Seq<
    Seq<(Seq<char>, Seq<char>)>,
> {
    Seq::new(rows.len(), |i: int| field_pairs(keys, rows[i]@))
}

/// Calls `serde_json::to_string` on the object built from `keys[i]: values[i]`.
/// Serializing a `Value` whose map keys are strings never fails (the errors
/// that `to_string` documents come from a failing `Serialize` impl or a
/// non-string key), so the `unwrap` does not panic. Claimed: the text is
/// `json_compact` of the fields; nothing more is said of it.
#[verifier::external_body]
pub(crate) fn to_json_compact(keys: &Vec<String>, values: &Vec<String>) -> (r: String)
    requires
        keys@.len() == values@.len(),
    ensures
        r@ == json_compact(field_pairs(keys@, values@)),
{
    let map: serde_json::Map<String, serde_json::Value> = keys.iter().cloned().zip(
        values.iter().map(|v| serde_json::Value::String(v.clone())),
    ).collect();
    serde_json::to_string(&serde_json::Value::Object(map)).unwrap()
}

/// Calls `serde_json::to_string_pretty` on the object built from
/// `keys[i]: values[i]`; as above it cannot fail. Claimed: the text is
/// `json_pretty` of the fields.
#[verifier::external_body]
pub(crate) fn to_json_pretty(keys: &Vec<String>, values: &Vec<String>) -> (r: String)
    requires
        keys@.len() == values@.len(),
    ensures
        r@ == json_pretty(field_pairs(keys@, values@)),
{
    let map: serde_json::Map<String, serde_json::Value> = keys.iter().cloned().zip(
        values.iter().map(|v| serde_json::Value::String(v.clone())),
    ).collect();
    serde_json::to_string_pretty(&serde_json::Value::Object(map)).unwrap()
}

/// Formats with `{:#?}` the `Vec<serde_json::Value>` of objects built from
/// `keys` and each row, through serde_json's `Debug` for `Value`. Claimed:
/// the text is `json_debug_list` of those objects.
#[verifier::external_body]
pub(crate) fn to_json_debug_list(keys: &Vec<String>, rows: &Vec<Vec<String>>) -> (r: String)
    requires
        forall|i: int| 0 <= i < rows@.len() ==> (#[trigger] rows@[i])@.len() == keys@.len(),
    ensures
        r@ == json_debug_list(object_rows(keys@, rows@)),
{
    let values: Vec<serde_json::Value> = rows.iter().map(
        |row|
            serde_json::Value::Object(
                keys.iter().cloned().zip(
                    row.iter().map(|v| serde_json::Value::String(v.clone())),
                ).collect(),
            ),
    ).collect();
    format!("{:#?}", values)
}

} // verus!
