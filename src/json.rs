use vstd::prelude::*;

verus! {

#[verifier::external_type_specification]
#[verifier::external_body]
pub struct ExJsonValue(serde_json::Value);

#[verifier::external_type_specification]
#[verifier::external_body]
#[verifier::reject_recursive_types(K)]
#[verifier::reject_recursive_types(V)]
pub struct ExJsonMap<K, V>(serde_json::Map<K, V>);

#[verifier::external_type_specification]
#[verifier::external_body]
pub struct ExJsonError(serde_json::Error);

/// A JSON object as serde_json holds it.
pub type JsonObject = serde_json::Map<String, serde_json::Value>;

/// The members of a JSON object whose values are strings, by name.
pub uninterp spec fn object_strings(m: serde_json::Map<String, serde_json::Value>) -> Map<
    Seq<char>,
    Seq<char>,
>;

/// What a text holds when read as a JSON array: `None` when it is not valid JSON
/// or not an array; else one element per array element, `None` for one that is
/// not an object and the object's string members for one that is.
pub uninterp spec fn array_elements(text: Seq<char>) -> Option<Seq<Option<Map<Seq<char>, Seq<char>>>>>;

/// Relies on `serde_json::from_str::<Vec<serde_json::Value>>`, which succeeds exactly
/// on a text that is one JSON array; each element that is an object is handed on.
#[verifier::external_body]
pub(crate) fn parse_array(text: &str) -> (r: Result<Vec<Option<JsonObject>>, serde_json::Error>)
    ensures
        r is Ok <==> array_elements(text@) is Some,
        r matches Ok(v) ==> v@.len() == array_elements(text@)->0.len(),
        r matches Ok(v) ==> forall|i: int|
            0 <= i < v@.len() ==> (#[trigger] v@[i] is Some <==> array_elements(text@)->0[i] is Some),
        r matches Ok(v) ==> forall|i: int|
            0 <= i < v@.len() && #[trigger] v@[i] is Some ==> object_strings(v@[i]->0)
                == array_elements(text@)->0[i]->0,
{
    match serde_json::from_str::<Vec<serde_json::Value>>(text) {
        Ok(values) => Ok(
            values.into_iter().map(
                |v| match v {
                    serde_json::Value::Object(m) => Some(m),
                    _ => None,
                },
            ).collect(),
        ),
        Err(e) => Err(e),
    }
}

/// Relies on `serde_json::Map::get` and `serde_json::Value::as_str`: the member
/// named `key`, when its value is a string.
#[verifier::external_body]
pub(crate) fn member_str<'a>(m: &'a JsonObject, key: &str) -> (r: Option<&'a str>)
    ensures
        r is Some <==> object_strings(*m).contains_key(key@),
        r matches Some(v) ==> v@ == object_strings(*m)[key@],
{
    m.get(key).and_then(serde_json::Value::as_str)
}

/// Relies on `Display` for `serde_json::Error`: a message naming what was wrong and where.
#[verifier::external_body]
pub(crate) fn error_text(e: &serde_json::Error) -> (r: String) {
    e.to_string()
}

} // verus!
