//! The JSON tree that notebooks are read from, and its accessors.
//!
//! Missing keys, wrong types and absent members all read as empty values,
//! so that the model builder never fails on a single malformed field.
use vstd::prelude::*;
use crate::text::str_eq;

verus! {

/// A parsed JSON value. Objects keep their entries in document order.
pub enum Json {
    Null,
    Bool(bool),
    Number,
    Str(String),
    Array(Vec<Json>),
    Object(Vec<(String, Json)>),
}

#[verifier::external_type_specification]
#[verifier::external_body]
pub struct ExJsonValue(json::JsonValue);

/// The tree that `json::parse` builds from `text`, or `None` when the text is not JSON.
pub uninterp spec fn parsed_json(text: Seq<char>) -> Option<Json>;

/// Relies on the variants of `json::JsonValue`: each becomes the matching
/// `Json` variant, object entries in the order in which `json` iterates them.
#[verifier::external_body]
fn json_tree(v: &json::JsonValue) -> Json {
    match v {
        json::JsonValue::Null => Json::Null,
        json::JsonValue::Short(s) => Json::Str(s.as_str().to_string()),
        json::JsonValue::String(s) => Json::Str(s.clone()),
        json::JsonValue::Number(_) => Json::Number,
        json::JsonValue::Boolean(b) => Json::Bool(*b),
        json::JsonValue::Object(o) => Json::Object(o.iter().map(|(k, x)| (k.to_string(), json_tree(x))).collect()),
        json::JsonValue::Array(a) => Json::Array(a.iter().map(json_tree).collect()),
    }
}

/// Relies on `json::parse`: the tree of `text`, or an error when it is not JSON.
#[verifier::external_body]
pub(crate) fn parse_json(text: &str) -> (r: Option<Json>)
    ensures
        r == parsed_json(text@),
{
    json::parse(text).ok().map(|v| json_tree(&v))
}

/// The value of the first entry of `es` whose key is `key`, `Null` if none.
pub open spec fn lookup(es: Seq<(String, Json)>, key: Seq<char>) -> Json
    decreases es.len(),
{
    if es.len() == 0 {
        Json::Null
    } else if es[0].0@ == key {
        es[0].1
    } else {
        lookup(es.drop_first(), key)
    }
}

/// `v[key]`: the member named `key` of an object, `Null` otherwise.
pub open spec fn field(v: Json, key: Seq<char>) -> Json {
    match v {
        Json::Object(es) => lookup(es@, key),
        _ => Json::Null,
    }
}

/// The characters of a string value.
pub open spec fn str_of(v: Json) -> Option<Seq<char>> {
    match v {
        Json::Str(s) => Some(s@),
        _ => None,
    }
}

/// The characters of a string value, empty for any other value.
pub open spec fn text_of(v: Json) -> Seq<char> {
    match v {
        Json::Str(s) => s@,
        _ => Seq::empty(),
    }
}

/// The members of an array, empty for any other value.
pub open spec fn members(v: Json) -> Seq<Json> {
    match v {
        Json::Array(a) => a@,
        _ => Seq::empty(),
    }
}

/// The entries of an object, empty for any other value.
pub open spec fn entries(v: Json) -> Seq<(String, Json)> {
    match v {
        Json::Object(es) => es@,
        _ => Seq::empty(),
    }
}

/// A text field that is either one string or an array of string fragments:
/// the fragments, with a non-string member read as empty.
pub open spec fn fragments(v: Json) -> Seq<Seq<char>> {
    match v {
        Json::Str(s) => seq![s@],
        _ => members(v).map_values(|m: Json| text_of(m)),
    }
}

impl Json {
    /// `self[key]`; `None` stands for the `Null` that a missing key reads as.
    pub fn get(&self, key: &str) -> (r: Option<&Json>)
        ensures
            r matches Some(x) ==> *x == field(*self, key@),
            r is None ==> field(*self, key@) == Json::Null,
    {
        match self {
            Json::Object(es) => {
                let mut i: usize = 0;
                assert(es@.subrange(0, es@.len() as int) =~= es@);
                while i < es.len()
                    invariant
                        i <= es.len(),
                        field(*self, key@) == lookup(es@, key@),
                        lookup(es@, key@) == lookup(es@.subrange(i as int, es@.len() as int), key@),
                    decreases es.len() - i,
                {
                    assert(es@.subrange(i as int, es@.len() as int).drop_first()
                        =~= es@.subrange(i + 1, es@.len() as int));
                    if str_eq(es[i].0.as_str(), key) {
                        assert(es@.subrange(i as int, es@.len() as int)[0] == es@[i as int]);
                        assert(lookup(es@.subrange(i as int, es@.len() as int), key@) == es@[i as int].1);
                        return Some(&es[i].1);
                    }
                    i = i + 1;
                }
                None
            },
            _ => None,
        }
    }

    /// The string, if this is a string value.
    pub fn as_str(&self) -> (r: Option<&String>)
        ensures
            r matches Some(s) ==> str_of(*self) == Some(s@),
            r is None ==> str_of(*self) is None,
    {
        match self {
            Json::Str(s) => Some(s),
            _ => None,
        }
    }

    /// The members, if this is an array.
    pub fn members(&self) -> (r: &[Json])
        ensures
            r@ == members(*self),
    {
        match self {
            Json::Array(a) => a.as_slice(),
            _ => &[],
        }
    }

    /// The entries, if this is an object.
    pub fn entries(&self) -> (r: &[(String, Json)])
        ensures
            r@ == entries(*self),
    {
        match self {
            Json::Object(es) => es.as_slice(),
            _ => &[],
        }
    }
}

/// The string of `v`, an empty string for any other value.
pub fn text_or_empty(v: Option<&Json>) -> (r: String)
    ensures
        r@ == match v { Some(x) => text_of(*x), None => Seq::empty() },
{
    match v {
        Some(Json::Str(s)) => s.clone(),
        _ => String::new(),
    }
}

/// The fragments of a text field given as one string or as an array of strings.
pub fn text_fragments(v: Option<&Json>) -> (r: Vec<String>)
    ensures
        r@.map_values(|s: String| s@) == match v { Some(x) => fragments(*x), None => Seq::empty() },
{
    let mut r: Vec<String> = Vec::new();
    match v {
        Some(Json::Str(s)) => {
            r.push(s.clone());
            assert(r@.map_values(|s: String| s@) =~= seq![s@]);
        },
        Some(x) => {
            let ms = x.members();
            let mut i: usize = 0;
            while i < ms.len()
                invariant
                    i <= ms.len(),
                    ms@ == members(*x),
                    r@.map_values(|s: String| s@) == ms@.take(i as int).map_values(|m: Json| text_of(m)),
                decreases ms.len() - i,
            {
                r.push(text_or_empty(Some(&ms[i])));
                assert(ms@.take(i + 1).map_values(|m: Json| text_of(m))
                    =~= ms@.take(i as int).map_values(|m: Json| text_of(m)).push(text_of(ms@[i as int])));
                assert(r@.map_values(|s: String| s@) =~= ms@.take(i + 1).map_values(|m: Json| text_of(m)));
                i = i + 1;
            }
            assert(ms@.take(i as int) =~= ms@);
        },
        None => {
            assert(r@.map_values(|s: String| s@) =~= Seq::<Seq<char>>::empty());
        },
    }
    r
}

} // verus!

verus! {

/// The value that a lookup produced; a missing one reads as `Null`.
pub open spec fn at(v: Option<&Json>) -> Json {
    match v {
        Some(x) => *x,
        None => Json::Null,
    }
}

/// The members of the looked-up value, empty when it is missing or not an array.
pub fn members_at(v: Option<&Json>) -> (r: &[Json])
    ensures
        r@ == members(at(v)),
{
    match v {
        Some(x) => x.members(),
        None => &[],
    }
}

/// The entries of the looked-up value, empty when it is missing or not an object.
pub fn entries_at(v: Option<&Json>) -> (r: &[(String, Json)])
    ensures
        r@ == entries(at(v)),
{
    match v {
        Some(x) => x.entries(),
        None => &[],
    }
}

} // verus!
