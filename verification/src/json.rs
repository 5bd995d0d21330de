//! A JSON document value, with the object operations the library needs.
//! Objects keep their members in insertion order, each key once.
use vstd::prelude::*;
use crate::ordered::{text_map_get, text_map_insert};
use crate::text::{copy_string, str_eq};

verus! {

broadcast use vstd::std_specs::vec::group_vec_axioms;

/// A JSON value. A number is held as its text.
#[derive(Debug)]
pub enum JsonValue {
    Null,
    Bool(bool),
    Number(String),
    String(String),
    Array(Vec<JsonValue>),
    Object(Vec<(String, JsonValue)>),
}

/// The mathematical value a `JsonValue` stands for.
pub enum Json {
    Null,
    Bool(bool),
    Num(Seq<char>),
    Str(Seq<char>),
    Arr(Seq<Json>),
    Obj(Seq<(Seq<char>, Json)>),
}

/// The model of a `JsonValue`.
pub open spec fn json_view(v: JsonValue) -> Json
    decreases v,
{
    match v {
        JsonValue::Null => Json::Null,
        JsonValue::Bool(b) => Json::Bool(b),
        JsonValue::Number(t) => Json::Num(t@),
        JsonValue::String(s) => Json::Str(s@),
        JsonValue::Array(xs) => Json::Arr(
            Seq::new(
                xs@.len(),
                |i: int|
                    if 0 <= i < xs@.len() {
                        json_view(xs@[i])
                    } else {
                        Json::Null
                    },
            ),
        ),
        JsonValue::Object(m) => Json::Obj(
            Seq::new(
                m@.len(),
                |i: int|
                    if 0 <= i < m@.len() {
                        (m@[i].0@, json_view(m@[i].1))
                    } else {
                        (Seq::empty(), Json::Null)
                    },
            ),
        ),
    }
}

impl View for JsonValue {
    type V = Json;

    open spec fn view(&self) -> Json {
        json_view(*self)
    }
}

/// The models of a list of values.
pub open spec fn json_items(xs: Seq<JsonValue>) -> Seq<Json> {
    Seq::new(xs.len(), |i: int| xs[i]@)
}

/// The models of object members.
pub open spec fn json_members(m: Seq<(String, JsonValue)>) -> Seq<(Seq<char>, Json)> {
    Seq::new(m.len(), |i: int| (m[i].0@, m[i].1@))
}

/// An array value's model lists its elements' models.
pub proof fn lemma_array_view(xs: Vec<JsonValue>)
    ensures
        JsonValue::Array(xs)@ == Json::Arr(json_items(xs@)),
{
    let l = JsonValue::Array(xs)@->Arr_0;
    assert(l =~= json_items(xs@));
}

/// An object value's model lists its members' models.
pub proof fn lemma_object_view(m: Vec<(String, JsonValue)>)
    ensures
        JsonValue::Object(m)@ == Json::Obj(json_members(m@)),
{
    let l = JsonValue::Object(m)@->Obj_0;
    assert(l =~= json_members(m@));
}

/// The member `key` of `v` when `v` is an object that has it.
pub open spec fn json_get(v: Json, key: Seq<char>) -> Option<Json> {
    match v {
        Json::Obj(m) => text_map_get(m, key),
        _ => None,
    }
}

/// The text of a string value.
pub open spec fn json_str(v: Json) -> Option<Seq<char>> {
    match v {
        Json::Str(s) => Some(s),
        _ => None,
    }
}

/// A copy of `v`.
#[verifier::loop_isolation(false)]
pub fn copy_json(v: &JsonValue) -> (r: JsonValue)
    ensures
        r@ == v@,
    decreases v,
{
    match v {
        JsonValue::Null => JsonValue::Null,
        JsonValue::Bool(b) => JsonValue::Bool(*b),
        JsonValue::Number(t) => JsonValue::Number(copy_string(t)),
        JsonValue::String(s) => JsonValue::String(copy_string(s)),
        JsonValue::Array(xs) => {
            let mut out: Vec<JsonValue> = Vec::new();
            let mut i: usize = 0;
            while i < xs.len()
                invariant
                    i <= xs@.len(),
                    out@.len() == i,
                    forall|j: int| 0 <= j < i ==> (#[trigger] out@[j])@ == xs@[j]@,
                decreases xs@.len() - i,
            {
                assert(decreases_to!(v => xs@[i as int]));
                out.push(copy_json(&xs[i]));
                i += 1;
            }
            proof {
                lemma_array_view(out);
                lemma_array_view(*xs);
                assert(json_items(out@) =~= json_items(xs@));
            }
            JsonValue::Array(out)
        },
        JsonValue::Object(m) => {
            let mut out: Vec<(String, JsonValue)> = Vec::new();
            let mut i: usize = 0;
            while i < m.len()
                invariant
                    i <= m@.len(),
                    out@.len() == i,
                    forall|j: int| 0 <= j < i ==> (#[trigger] out@[j]).0@ == m@[j].0@ && out@[j].1@ == m@[j].1@,
                decreases m@.len() - i,
            {
                assert(decreases_to!(v => m@[i as int].1)) by {
                    assert(decreases_to!(v => v->Object_0));
                    assert(decreases_to!(m@ => m@[i as int]));
                    assert(decreases_to!(m@[i as int] => m@[i as int].1));
                }
                out.push((copy_string(&m[i].0), copy_json(&m[i].1)));
                i += 1;
            }
            proof {
                lemma_object_view(out);
                lemma_object_view(*m);
                assert(json_members(out@) =~= json_members(m@));
            }
            JsonValue::Object(out)
        },
    }
}

/// The member `key` of object members `m` (`Map::get`).
pub fn members_get<'a>(m: &'a Vec<(String, JsonValue)>, key: &str) -> (r: Option<&'a JsonValue>)
    ensures
        r matches Some(v) ==> text_map_get(json_members(m@), key@) == Some(v@),
        r is None ==> text_map_get(json_members(m@), key@) is None,
{
    let ghost s = json_members(m@);
    let mut j: usize = 0;
    while j < m.len()
        invariant
            s == json_members(m@),
            j <= m@.len(),
            forall|i: int| 0 <= i < j ==> #[trigger] s[i].0 != key@,
        decreases m@.len() - j,
    {
        if str_eq(m[j].0.as_str(), key) {
            assert(crate::ordered::first_text_key_at(s, key@, j as int));
            let ghost w = choose|w: int| crate::ordered::first_text_key_at(s, key@, w);
            assert(w == j as int) by {
                if w < j as int {
                } else if w > j as int {
                    assert(s[j as int].0 == key@);
                }
            }
            return Some(&m[j].1);
        }
        j += 1;
    }
    None
}

/// Stores `v` under `key` in object members `m` (`Map::insert`): an existing
/// key takes the new value in its place, a new key goes last.
pub fn members_insert(m: &mut Vec<(String, JsonValue)>, key: String, v: JsonValue)
    ensures
        json_members(final(m)@) == text_map_insert(json_members(old(m)@), key@, v@),
{
    let ghost s = json_members(m@);
    let mut j: usize = 0;
    while j < m.len()
        invariant
            s == json_members(m@),
            s == json_members(old(m)@),
            j <= m@.len(),
            forall|i: int| 0 <= i < j ==> #[trigger] s[i].0 != key@,
        decreases m@.len() - j,
    {
        if str_eq(m[j].0.as_str(), key.as_str()) {
            assert(crate::ordered::first_text_key_at(s, key@, j as int));
            let ghost w = choose|w: int| crate::ordered::first_text_key_at(s, key@, w);
            assert(w == j as int) by {
                if w < j as int {
                } else if w > j as int {
                    assert(s[j as int].0 == key@);
                }
            }
            m.set(j, (key, v));
            assert(json_members(m@) =~= s.update(j as int, (key@, v@)));
            return;
        }
        j += 1;
    }
    assert(!exists|w: int| crate::ordered::first_text_key_at(s, key@, w));
    m.push((key, v));
    assert(json_members(m@) =~= s.push((key@, v@)));
}

/// Whether a value is null.
pub fn json_is_null(v: &JsonValue) -> (r: bool)
    ensures
        r == (v@ is Null),
{
    match v {
        JsonValue::Null => true,
        _ => false,
    }
}

/// The member `key` of `v` when `v` is an object (`Value::get`).
pub fn json_get_exec<'a>(v: &'a JsonValue, key: &str) -> (r: Option<&'a JsonValue>)
    ensures
        r matches Some(x) ==> json_get(v@, key@) == Some(x@),
        r is None ==> json_get(v@, key@) is None,
{
    match v {
        JsonValue::Object(m) => {
            proof {
                lemma_object_view(*m);
            }
            members_get(m, key)
        },
        _ => None,
    }
}

} // verus!
