//! JSON documents as plain values, and their pretty-printed text.

use vstd::prelude::*;

verus! {

/// A JSON value: a string, a non-negative integer, an array, or an object
/// given as its members in order.
#[derive(Debug)]
pub enum Json {
    Str(String),
    Num(u64),
    Arr(Vec<Json>),
    Obj(Vec<(String, Json)>),
}

pub enum JsonView {
    Str(Seq<char>),
    Num(u64),
    Arr(Seq<JsonView>),
    Obj(Seq<(Seq<char>, JsonView)>),
}

pub open spec fn json_view(j: Json) -> JsonView
    decreases j,
{
    match j {
        Json::Str(s) => JsonView::Str(s@),
        Json::Num(n) => JsonView::Num(n),
        Json::Arr(items) => JsonView::Arr(
            Seq::new(
                items@.len(),
                |i: int|
                    if 0 <= i < items@.len() {
                        json_view(items@[i])
                    } else {
                        JsonView::Num(0)
                    },
            ),
        ),
        Json::Obj(fields) => JsonView::Obj(
            Seq::new(
                fields@.len(),
                |i: int|
                    if 0 <= i < fields@.len() {
                        (fields@[i].0@, json_view(fields@[i].1))
                    } else {
                        (Seq::empty(), JsonView::Num(0))
                    },
            ),
        ),
    }
}

impl View for Json {
    type V = JsonView;

    open spec fn view(&self) -> JsonView {
        json_view(*self)
    }
}

/// A JSON string.
pub fn json_str(s: &str) -> (r: Json)
    ensures
        r@ == JsonView::Str(s@),
{
    Json::Str(s.to_owned())
}

/// A JSON array of the given items.
pub fn json_arr(items: Vec<Json>) -> (r: Json)
    ensures
        r@ == JsonView::Arr(items@.map_values(|x: Json| x@)),
{
    let ghost v = items@;
    let r = Json::Arr(items);
    assert(r@ == JsonView::Arr(v.map_values(|x: Json| x@))) by {
        if let JsonView::Arr(s) = r@ {
            assert(s =~= v.map_values(|x: Json| x@));
        }
    }
    r
}

/// A JSON object with the given members, in order.
pub fn json_obj(fields: Vec<(String, Json)>) -> (r: Json)
    ensures
        r@ == JsonView::Obj(fields@.map_values(|f: (String, Json)| (f.0@, f.1@))),
{
    let ghost v = fields@;
    let r = Json::Obj(fields);
    assert(r@ == JsonView::Obj(v.map_values(|f: (String, Json)| (f.0@, f.1@)))) by {
        if let JsonView::Obj(s) = r@ {
            assert(s =~= v.map_values(|f: (String, Json)| (f.0@, f.1@)));
        }
    }
    r
}

#[verifier::external_type_specification]
#[verifier::external_body]
pub struct ExJsonValue(serde_json::Value);

#[verifier::external_type_specification]
#[verifier::external_body]
pub struct ExJsonError(serde_json::Error);

/// Names the text that `serde_json::to_string_pretty` makes of a JSON value
/// (two-space indentation, one member or item per line).
pub uninterp spec fn json_pretty(v: JsonView) -> Seq<char>;

/// Converts a `Json` one for one into a `serde_json::Value` (strings,
/// numbers from `u64`, arrays, objects built member by member into
/// `serde_json::Map`). Claims nothing of the value, which is opaque here;
/// its only caller is `to_string_pretty`.
#[verifier::external_body]
fn json_value(v: &Json) -> serde_json::Value {
    match v {
        Json::Str(s) => serde_json::Value::String(s.clone()),
        Json::Num(n) => serde_json::Value::from(*n),
        Json::Arr(items) => serde_json::Value::Array(items.iter().map(json_value).collect()),
        Json::Obj(fields) => serde_json::Value::Object(
            fields.iter().map(|(k, x)| (k.clone(), json_value(x))).collect(),
        ),
    }
}

/// Pretty-prints a JSON value with `serde_json::to_string_pretty`. Claims:
/// it succeeds, and the text is `json_pretty` of the value. The value is a
/// `serde_json::Value` made of strings, `u64` numbers, arrays and
/// string-keyed maps, written into a `Vec`; serde_json fails only where a
/// `Serialize` impl fails or a map has non-string keys, and `Value`'s impl
/// has no failing path for such a value.
#[verifier::external_body]
fn to_string_pretty(v: &Json) -> (r: Result<String, serde_json::Error>)
    ensures
        r is Ok,
        r matches Ok(s) ==> s@ == json_pretty(v@),
{
    serde_json::to_string_pretty(&json_value(v))
}

/// The pretty-printed text of a JSON value (two-space indentation).
pub fn pretty(v: &Json) -> (r: String)
    ensures
        r@ == json_pretty(v@),
{
    match to_string_pretty(v) {
        Ok(s) => s,
        Err(_) => String::new(),
    }
}

} // verus!
