//! Trusted access to serde_json values, against a mathematical model.
//!
//! A parsed document is opaque to the verifier; what it holds is named by
//! [`value_view`], a [`JsonView`], and every trusted item below speaks of
//! that model, so verified code can reason about what a walk of the
//! document returns.

use vstd::prelude::*;

verus! {

/// The mathematical value of a JSON document node. A number carries the
/// unsigned integer it reads as, when it reads as one.
pub enum JsonView {
    Null,
    Bool(bool),
    Num(Option<u64>),
    Str(Seq<char>),
    Arr(Seq<JsonView>),
    Obj(Map<Seq<char>, JsonView>),
}

#[verifier::external_type_specification]
#[verifier::external_body]
pub struct ExValue(serde_json::Value);

#[verifier::external_type_specification]
#[verifier::external_body]
pub struct ExJsonError(serde_json::Error);

/// What a parsed JSON value holds.
pub uninterp spec fn value_view(v: serde_json::Value) -> JsonView;

/// What a JSON text parses to, when it is a valid document.
pub uninterp spec fn json_doc_of(s: Seq<char>) -> Option<JsonView>;

/// The models of a sequence of parsed values.
pub open spec fn value_views(s: Seq<serde_json::Value>) -> Seq<JsonView> {
    s.map_values(|x: serde_json::Value| value_view(x))
}

/// Relies on serde_json::from_str: whether a text parses, and to which
/// document, depends on the text alone.
#[verifier::external_body]
pub(crate) fn json_parse(s: &str) -> (r: Result<serde_json::Value, serde_json::Error>)
    ensures
        r is Ok <==> json_doc_of(s@) is Some,
        r is Ok ==> Some(value_view(r->Ok_0)) == json_doc_of(s@),
{
    serde_json::from_str(s)
}

/// Relies on serde_json::Value::get: the member of a JSON object under a
/// key; `None` when the value is no object or the key is absent.
#[verifier::external_body]
pub(crate) fn json_get<'a>(v: &'a serde_json::Value, key: &str) -> (r: Option<
    &'a serde_json::Value,
>)
    ensures
        match r {
            Option::Some(x) => value_view(*v) is Obj && value_view(*v)->Obj_0.contains_key(key@)
                && value_view(*x) == value_view(*v)->Obj_0[key@],
            Option::None => !(value_view(*v) is Obj && value_view(*v)->Obj_0.contains_key(key@)),
        },
{
    v.get(key)
}

/// Relies on serde_json::Value::as_str: the string a JSON string holds,
/// `None` for every other kind of value.
#[verifier::external_body]
pub(crate) fn json_as_str<'a>(v: &'a serde_json::Value) -> (r: Option<&'a str>)
    ensures
        match r {
            Option::Some(s) => value_view(*v) is Str && s@ == value_view(*v)->Str_0,
            Option::None => !(value_view(*v) is Str),
        },
{
    v.as_str()
}

/// Relies on serde_json::Value::as_u64: the unsigned integer a JSON number
/// reads as, `None` for other kinds and for numbers outside that range.
#[verifier::external_body]
pub(crate) fn json_as_u64(v: &serde_json::Value) -> (r: Option<u64>)
    ensures
        match r {
            Option::Some(n) => value_view(*v) is Num && value_view(*v)->Num_0 == Some(n),
            Option::None => !(value_view(*v) is Num) || value_view(*v)->Num_0 is None,
        },
{
    v.as_u64()
}

/// Relies on serde_json::Value::as_array: the elements of a JSON array,
/// `None` for every other kind of value.
#[verifier::external_body]
pub(crate) fn json_as_array<'a>(v: &'a serde_json::Value) -> (r: Option<
    &'a Vec<serde_json::Value>,
>)
    ensures
        match r {
            Option::Some(a) => value_view(*v) is Arr && value_views(a@) == value_view(*v)->Arr_0,
            Option::None => !(value_view(*v) is Arr),
        },
{
    v.as_array()
}

} // verus!
