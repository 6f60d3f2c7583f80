//! JSON values that are built here: numbers, texts, flags and objects of them.
use vstd::prelude::*;

verus! {

/// `serde_json::Value`, taken as it is.
#[verifier::external_type_specification]
#[verifier::external_body]
pub struct ExJsonValue(serde_json::Value);

/// `serde_json::Map`, taken as it is.
#[verifier::external_type_specification]
#[verifier::external_body]
#[verifier::reject_recursive_types(K)]
#[verifier::reject_recursive_types(V)]
pub struct ExJsonMap<K, V>(serde_json::Map<K, V>);

/// What a JSON value holds.
pub ghost enum Json {
    Number(int),
    Text(Seq<char>),
    Flag(bool),
    Object(Map<Seq<char>, Json>),
}

/// What a `serde_json::Value` holds.
pub uninterp spec fn json_of(v: serde_json::Value) -> Json;

/// The members that a `serde_json::Map` holds.
pub uninterp spec fn members_of(
    m: serde_json::Map<String, serde_json::Value>,
) -> Map<Seq<char>, Json>;

/// `serde_json::Map::new`: a map without members.
#[verifier::external_body]
pub(crate) fn json_map() -> (m: serde_json::Map<String, serde_json::Value>)
    ensures
        members_of(m).dom() == Set::<Seq<char>>::empty(),
{
    serde_json::Map::new()
}

/// `serde_json::Map::insert`: the member is there afterwards, in place of an earlier one of that
/// name, and the others are as before.
#[verifier::external_body]
pub(crate) fn json_insert(
    m: &mut serde_json::Map<String, serde_json::Value>,
    key: String,
    value: serde_json::Value,
)
    ensures
        members_of(*final(m)) == members_of(*old(m)).insert(key@, json_of(value)),
{
    m.insert(key, value);
}

/// `serde_json::Value::from` on an `i64`: the number.
#[verifier::external_body]
pub(crate) fn json_number(n: i64) -> (v: serde_json::Value)
    ensures
        json_of(v) == Json::Number(n as int),
{
    serde_json::Value::from(n)
}

/// `serde_json::Value::from` on a `String`: the text.
#[verifier::external_body]
pub(crate) fn json_text(text: String) -> (v: serde_json::Value)
    ensures
        json_of(v) == Json::Text(text@),
{
    serde_json::Value::from(text)
}

/// `serde_json::Value::from` on a `bool`: the flag.
#[verifier::external_body]
pub(crate) fn json_flag(flag: bool) -> (v: serde_json::Value)
    ensures
        json_of(v) == Json::Flag(flag),
{
    serde_json::Value::from(flag)
}

/// `serde_json::Value::from` on a `serde_json::Map`: the object with the members of the map.
#[verifier::external_body]
pub(crate) fn json_object(m: serde_json::Map<String, serde_json::Value>) -> (v: serde_json::Value)
    ensures
        json_of(v) == Json::Object(members_of(m)),
{
    serde_json::Value::from(m)
}

/// `serde_json::Value::clone`: the same JSON once more.
#[verifier::external_body]
pub(crate) fn json_clone(v: &serde_json::Value) -> (r: serde_json::Value)
    ensures
        r == *v,
{
    v.clone()
}

} // verus!
