//! Flat JSON objects written with `serde_json`.
use serde_json::Value;
use vstd::prelude::*;

verus! {

/// The text `serde_json::to_string` writes for a `serde_json::Map` built by
/// inserting the string fields `texts`, in order, and then the integer
/// fields `numbers`, in order.
pub uninterp spec fn json_object(
    texts: Seq<(Seq<char>, Seq<char>)>,
    numbers: Seq<(Seq<char>, int)>,
) -> Seq<char>;

/// String fields as pairs of character sequences.
pub open spec fn text_fields(fields: Seq<(String, String)>) -> Seq<(Seq<char>, Seq<char>)> {
    fields.map_values(|f: (String, String)| (f.0@, f.1@))
}

/// Integer fields as pairs of a character sequence and an integer.
pub open spec fn number_fields(fields: Seq<(String, i64)>) -> Seq<(Seq<char>, int)> {
    fields.map_values(|f: (String, i64)| (f.0@, f.1 as int))
}

/// `serde_json::to_string` of the map that `texts` and then `numbers`
/// fill (string values as `Value::String`, integers as `Value::Number`).
/// The contract names the text and says nothing more of it: the map is
/// ordered by key and the strings are escaped as JSON requires.
/// Serialising such a map cannot fail: its keys are strings and its values
/// are strings and integers.
#[verifier::external_body]
pub(crate) fn json_object_string(texts: &Vec<(String, String)>, numbers: &Vec<(String, i64)>) -> (json: String)
    ensures
        json@ == json_object(text_fields(texts@), number_fields(numbers@)),
{
    let mut map = serde_json::Map::new();
    for (k, v) in texts.iter() {
        map.insert(k.clone(), Value::from(v.clone()));
    }
    for (k, v) in numbers.iter() {
        map.insert(k.clone(), Value::from(*v));
    }
    serde_json::to_string(&map).unwrap()
}

} // verus!
