//! Making values safe to persist as JSON: nulls dropped from containers,
//! nesting cut off at a depth, and chat messages cleaned of API-only fields.
use vstd::prelude::*;
use crate::json::{
    Json, JsonValue, json_items, json_members, lemma_array_view, lemma_object_view, copy_json,
    members_get, members_insert, json_is_null,
};
use crate::ordered::{text_map_get, text_map_insert, first_text_key_at};
use crate::bundle_dict::distinct_names;
use crate::registry::lemma_insert_keeps_names_once;
use crate::text::{copy_string, str_eq, str_to_string};

verus! {

broadcast use vstd::std_specs::vec::group_vec_axioms;

/// The default nesting limit.
pub const DEFAULT_MAX_DEPTH: usize = 50;

/// A value sanitized with `depth` levels left: at no level left, null; an
/// object or array keeps its sanitized non-null members; anything else stays.
pub open spec fn sanitize(v: Json, depth: nat) -> Json
    decreases depth, 0nat,
{
    if depth == 0 {
        Json::Null
    } else {
        match v {
            Json::Obj(m) => Json::Obj(sanitize_members(m, (depth - 1) as nat)),
            Json::Arr(xs) => Json::Arr(sanitize_items(xs, (depth - 1) as nat)),
            _ => v,
        }
    }
}

/// Object members sanitized, the null ones left out.
pub open spec fn sanitize_members(m: Seq<(Seq<char>, Json)>, depth: nat) -> Seq<(Seq<char>, Json)>
    decreases depth, m.len(),
{
    if m.len() == 0 {
        Seq::empty()
    } else {
        let acc = sanitize_members(m.drop_last(), depth);
        let s = sanitize(m.last().1, depth);
        if s is Null {
            acc
        } else {
            text_map_insert(acc, m.last().0, s)
        }
    }
}

/// Array items sanitized, the null ones left out.
pub open spec fn sanitize_items(xs: Seq<Json>, depth: nat) -> Seq<Json>
    decreases depth, xs.len(),
{
    if xs.len() == 0 {
        Seq::empty()
    } else {
        let acc = sanitize_items(xs.drop_last(), depth);
        let s = sanitize(xs.last(), depth);
        if s is Null {
            acc
        } else {
            acc.push(s)
        }
    }
}

fn sanitize_impl(value: &JsonValue, depth: usize) -> (r: JsonValue)
    ensures
        r@ == sanitize(value@, depth as nat),
    decreases depth,
{
    if depth == 0 {
        return JsonValue::Null;
    }
    match value {
        JsonValue::Object(m) => {
            proof {
                lemma_object_view(*m);
            }
            let ghost ms = json_members(m@);
            let mut out: Vec<(String, JsonValue)> = Vec::new();
            let mut i: usize = 0;
            assert(ms.take(0) =~= Seq::<(Seq<char>, Json)>::empty());
            assert(json_members(out@) =~= Seq::<(Seq<char>, Json)>::empty());
            while i < m.len()
                invariant
                    i <= m@.len(),
                    depth > 0,
                    ms == json_members(m@),
                    json_members(out@) == sanitize_members(ms.take(i as int), (depth - 1) as nat),
                decreases m@.len() - i,
            {
                proof {
                    let t = ms.take(i + 1);
                    assert(t.drop_last() =~= ms.take(i as int));
                    assert(t.last() == ms[i as int]);
                }
                let s = sanitize_impl(&m[i].1, depth - 1);
                if !json_is_null(&s) {
                    members_insert(&mut out, copy_string(&m[i].0), s);
                }
                i += 1;
            }
            assert(ms.take(m@.len() as int) =~= ms);
            proof {
                lemma_object_view(out);
            }
            JsonValue::Object(out)
        },
        JsonValue::Array(xs) => {
            proof {
                lemma_array_view(*xs);
            }
            let ghost items = json_items(xs@);
            let mut out: Vec<JsonValue> = Vec::new();
            let mut i: usize = 0;
            assert(items.take(0) =~= Seq::<Json>::empty());
            assert(json_items(out@) =~= Seq::<Json>::empty());
            while i < xs.len()
                invariant
                    i <= xs@.len(),
                    depth > 0,
                    items == json_items(xs@),
                    json_items(out@) == sanitize_items(items.take(i as int), (depth - 1) as nat),
                decreases xs@.len() - i,
            {
                proof {
                    let t = items.take(i + 1);
                    assert(t.drop_last() =~= items.take(i as int));
                    assert(t.last() == items[i as int]);
                }
                let s = sanitize_impl(&xs[i], depth - 1);
                if !json_is_null(&s) {
                    let ghost before = json_items(out@);
                    let ghost sv = s@;
                    out.push(s);
                    assert(json_items(out@) =~= before.push(sv));
                }
                i += 1;
            }
            assert(items.take(xs@.len() as int) =~= items);
            proof {
                lemma_array_view(out);
            }
            JsonValue::Array(out)
        },
        _ => copy_json(value),
    }
}

/// A value made safe for JSON with the default depth limit.
pub fn sanitize_for_json(value: &JsonValue) -> (r: JsonValue)
    ensures
        r@ == sanitize(value@, DEFAULT_MAX_DEPTH as nat),
{
    sanitize_impl(value, DEFAULT_MAX_DEPTH)
}

/// A value made safe for JSON with `max_depth` levels (null at level zero).
pub fn sanitize_for_json_with_depth(value: &JsonValue, max_depth: usize) -> (r: JsonValue)
    ensures
        r@ == sanitize(value@, max_depth as nat),
{
    sanitize_impl(value, max_depth)
}

/// No container anywhere in `v` holds a null.
pub open spec fn nulls_gone(v: Json, depth: nat) -> bool
    decreases depth,
{
    match v {
        Json::Obj(m) => forall|i: int|
            0 <= i < m.len() ==> !(#[trigger] m[i].1 is Null) && (depth > 0 ==> nulls_gone(
                m[i].1,
                (depth - 1) as nat,
            )),
        Json::Arr(xs) => forall|i: int|
            0 <= i < xs.len() ==> !(#[trigger] xs[i] is Null) && (depth > 0 ==> nulls_gone(
                xs[i],
                (depth - 1) as nat,
            )),
        _ => true,
    }
}

proof fn lemma_members_clean(m: Seq<(Seq<char>, Json)>, depth: nat)
    ensures
        forall|i: int|
            0 <= i < sanitize_members(m, depth).len() ==> !(#[trigger] sanitize_members(m, depth)[i].1 is Null)
                && (depth > 0 ==> nulls_gone(sanitize_members(m, depth)[i].1, (depth - 1) as nat)),
    decreases depth, m.len() + 1,
{
    if m.len() > 0 {
        lemma_members_clean(m.drop_last(), depth);
        lemma_sanitize_clean(m.last().1, depth);
        let acc = sanitize_members(m.drop_last(), depth);
        let s = sanitize(m.last().1, depth);
        if !(s is Null) {
            let r = text_map_insert(acc, m.last().0, s);
            assert forall|i: int| 0 <= i < r.len() implies !(#[trigger] r[i].1 is Null) && (depth > 0
                ==> nulls_gone(r[i].1, (depth - 1) as nat)) by {
                if i < acc.len() && r[i] != acc[i] {
                    assert(r[i].1 == s);
                }
                if i == acc.len() {
                    assert(r[i].1 == s);
                }
            }
        }
    }
}

proof fn lemma_items_clean(xs: Seq<Json>, depth: nat)
    ensures
        forall|i: int|
            0 <= i < sanitize_items(xs, depth).len() ==> !(#[trigger] sanitize_items(xs, depth)[i] is Null)
                && (depth > 0 ==> nulls_gone(sanitize_items(xs, depth)[i], (depth - 1) as nat)),
    decreases depth, xs.len() + 1,
{
    if xs.len() > 0 {
        lemma_items_clean(xs.drop_last(), depth);
        lemma_sanitize_clean(xs.last(), depth);
    }
}

proof fn lemma_sanitize_clean(v: Json, depth: nat)
    ensures
        nulls_gone(sanitize(v, depth), if depth > 0 { (depth - 1) as nat } else { 0 }),
    decreases depth, 0nat,
{
    if depth > 0 {
        match v {
            Json::Obj(m) => {
                lemma_members_clean(m, (depth - 1) as nat);
            },
            Json::Arr(xs) => {
                lemma_items_clean(xs, (depth - 1) as nat);
            },
            _ => {},
        }
    }
}

/// A sanitized value holds no null inside any object or array.
pub proof fn law_sanitized_has_no_nested_null(v: Json, depth: nat)
    ensures
        nulls_gone(sanitize(v, depth), if depth > 0 { (depth - 1) as nat } else { 0 }),
        depth == 0 ==> sanitize(v, depth) is Null,
{
    lemma_sanitize_clean(v, depth);
}

proof fn lemma_members_shape(m: Seq<(Seq<char>, Json)>, e: nat)
    ensures
        distinct_names(sanitize_members(m, e)),
        forall|i: int| 0 <= i < sanitize_members(m, e).len() ==> (#[trigger] sanitize_members(m, e)[i]).1 !is Null
            && exists|j: int| 0 <= j < m.len() && sanitize_members(m, e)[i].1 == sanitize(m[j].1, e),
    decreases m.len(),
{
    if m.len() > 0 {
        let p = m.drop_last();
        lemma_members_shape(p, e);
        let acc = sanitize_members(p, e);
        let sv = sanitize(m.last().1, e);
        let k = m.last().0;
        if sv !is Null {
            lemma_insert_keeps_names_once(acc, k, sv);
            let t = text_map_insert(acc, k, sv);
            assert forall|i: int| 0 <= i < t.len() implies (#[trigger] t[i]).1 !is Null && exists|j: int|
                0 <= j < m.len() && t[i].1 == sanitize(m[j].1, e) by {
                if exists|j: int| first_text_key_at(acc, k, j) {
                    let w = choose|j: int| first_text_key_at(acc, k, j);
                    if i == w {
                        assert(t[i].1 == sanitize(m[m.len() - 1].1, e));
                    } else {
                        assert(t[i] == acc[i]);
                        let j = choose|j: int| 0 <= j < p.len() && acc[i].1 == sanitize(p[j].1, e);
                        assert(p[j] == m[j]);
                    }
                } else {
                    if i == acc.len() {
                        assert(t[i].1 == sanitize(m[m.len() - 1].1, e));
                    } else {
                        assert(t[i] == acc[i]);
                        let j = choose|j: int| 0 <= j < p.len() && acc[i].1 == sanitize(p[j].1, e);
                        assert(p[j] == m[j]);
                    }
                }
            }
        } else {
            assert forall|i: int| 0 <= i < acc.len() implies (#[trigger] acc[i]).1 !is Null && exists|j: int|
                0 <= j < m.len() && acc[i].1 == sanitize(m[j].1, e) by {
                let j = choose|j: int| 0 <= j < p.len() && acc[i].1 == sanitize(p[j].1, e);
                assert(p[j] == m[j]);
            }
        }
    }
}

proof fn lemma_members_fixed(s: Seq<(Seq<char>, Json)>, e: nat)
    requires
        distinct_names(s),
        forall|i: int| 0 <= i < s.len() ==> (#[trigger] s[i]).1 !is Null && sanitize(s[i].1, e) == s[i].1,
    ensures
        sanitize_members(s, e) == s,
    decreases s.len(),
{
    if s.len() > 0 {
        let p = s.drop_last();
        assert forall|i: int| 0 <= i < p.len() implies (#[trigger] p[i]).1 !is Null && sanitize(p[i].1, e)
            == p[i].1 by {
            assert(p[i] == s[i]);
        }
        lemma_members_fixed(p, e);
        let k = s.last().0;
        assert(!exists|j: int| first_text_key_at(p, k, j)) by {
            if exists|j: int| first_text_key_at(p, k, j) {
                let j = choose|j: int| first_text_key_at(p, k, j);
                assert(p[j] == s[j]);
                assert(s[j].0 != s[s.len() - 1].0);
            }
        }
        assert(p.push((k, s.last().1)) =~= s);
    }
}

proof fn lemma_items_shape(xs: Seq<Json>, e: nat)
    ensures
        forall|i: int| 0 <= i < sanitize_items(xs, e).len() ==> (#[trigger] sanitize_items(xs, e)[i]) !is Null
            && exists|j: int| 0 <= j < xs.len() && sanitize_items(xs, e)[i] == sanitize(xs[j], e),
    decreases xs.len(),
{
    if xs.len() > 0 {
        let p = xs.drop_last();
        lemma_items_shape(p, e);
        let acc = sanitize_items(p, e);
        let r = sanitize_items(xs, e);
        assert forall|i: int| 0 <= i < r.len() implies (#[trigger] r[i]) !is Null && exists|j: int|
            0 <= j < xs.len() && r[i] == sanitize(xs[j], e) by {
            if i < acc.len() {
                assert(r[i] == acc[i]);
                let j = choose|j: int| 0 <= j < p.len() && acc[i] == sanitize(p[j], e);
                assert(p[j] == xs[j]);
            } else {
                assert(r[i] == sanitize(xs[xs.len() - 1], e));
            }
        }
    }
}

proof fn lemma_items_fixed(xs: Seq<Json>, e: nat)
    requires
        forall|i: int| 0 <= i < xs.len() ==> (#[trigger] xs[i]) !is Null && sanitize(xs[i], e) == xs[i],
    ensures
        sanitize_items(xs, e) == xs,
    decreases xs.len(),
{
    if xs.len() > 0 {
        let p = xs.drop_last();
        assert forall|i: int| 0 <= i < p.len() implies (#[trigger] p[i]) !is Null && sanitize(p[i], e) == p[i] by {
            assert(p[i] == xs[i]);
        }
        lemma_items_fixed(p, e);
        assert(p.push(xs.last()) =~= xs);
    }
}

/// Sanitizing is idempotent: a sanitized value sanitized again (with the
/// same depth) is unchanged.
pub proof fn law_sanitize_idempotent(v: Json, depth: nat)
    ensures
        sanitize(sanitize(v, depth), depth) == sanitize(v, depth),
    decreases depth,
{
    if depth > 0 {
        let e = (depth - 1) as nat;
        match v {
            Json::Obj(m) => {
                let sm = sanitize_members(m, e);
                lemma_members_shape(m, e);
                assert forall|i: int| 0 <= i < sm.len() implies (#[trigger] sm[i]).1 !is Null && sanitize(sm[i].1, e)
                    == sm[i].1 by {
                    let j = choose|j: int| 0 <= j < m.len() && sm[i].1 == sanitize(m[j].1, e);
                    law_sanitize_idempotent(m[j].1, e);
                }
                lemma_members_fixed(sm, e);
            },
            Json::Arr(xs) => {
                let si = sanitize_items(xs, e);
                lemma_items_shape(xs, e);
                assert forall|i: int| 0 <= i < si.len() implies (#[trigger] si[i]) !is Null && sanitize(si[i], e)
                    == si[i] by {
                    let j = choose|j: int| 0 <= j < xs.len() && si[i] == sanitize(xs[j], e);
                    law_sanitize_idempotent(xs[j], e);
                }
                lemma_items_fixed(si, e);
            },
            _ => {},
        }
    }
}

/// `v` fits within `depth` levels as a sanitized value: at no level left only
/// null fits; a scalar fits at any level; an object (with each key once) or
/// an array fits when its members are non-null and fit one level down.
pub open spec fn fits_within(v: Json, depth: nat) -> bool
    decreases depth,
{
    if depth == 0 {
        v is Null
    } else {
        match v {
            Json::Obj(m) => distinct_names(m) && forall|i: int|
                0 <= i < m.len() ==> (#[trigger] m[i]).1 !is Null && fits_within(m[i].1, (depth - 1) as nat),
            Json::Arr(xs) => forall|i: int|
                0 <= i < xs.len() ==> (#[trigger] xs[i]) !is Null && fits_within(xs[i], (depth - 1) as nat),
            _ => true,
        }
    }
}

/// Sanitizing keeps what fits: a value that fits within `depth` levels
/// (scalars at any level above the limit, containers without nulls and with
/// each key once) comes back unchanged, same keys, same order.
pub proof fn law_sanitize_keeps_what_fits(v: Json, depth: nat)
    requires
        fits_within(v, depth),
    ensures
        sanitize(v, depth) == v,
    decreases depth,
{
    if depth > 0 {
        let e = (depth - 1) as nat;
        match v {
            Json::Obj(m) => {
                assert forall|i: int| 0 <= i < m.len() implies (#[trigger] m[i]).1 !is Null && sanitize(m[i].1, e)
                    == m[i].1 by {
                    law_sanitize_keeps_what_fits(m[i].1, e);
                }
                lemma_members_fixed(m, e);
            },
            Json::Arr(xs) => {
                assert forall|i: int| 0 <= i < xs.len() implies (#[trigger] xs[i]) !is Null && sanitize(xs[i], e)
                    == xs[i] by {
                    law_sanitize_keeps_what_fits(xs[i], e);
                }
                lemma_items_fixed(xs, e);
            },
            _ => {},
        }
    }
}

/// Sanitizing drops what is too deep: whatever the value, the result fits
/// within `depth` levels (anything nested `depth` or more levels down is
/// gone, and no container holds a null or a key twice).
pub proof fn law_sanitize_fits(v: Json, depth: nat)
    ensures
        fits_within(sanitize(v, depth), depth),
    decreases depth,
{
    if depth > 0 {
        let e = (depth - 1) as nat;
        match v {
            Json::Obj(m) => {
                let sm = sanitize_members(m, e);
                lemma_members_shape(m, e);
                assert forall|i: int| 0 <= i < sm.len() implies (#[trigger] sm[i]).1 !is Null && fits_within(
                    sm[i].1,
                    e,
                ) by {
                    let j = choose|j: int| 0 <= j < m.len() && sm[i].1 == sanitize(m[j].1, e);
                    law_sanitize_fits(m[j].1, e);
                }
            },
            Json::Arr(xs) => {
                let si = sanitize_items(xs, e);
                lemma_items_shape(xs, e);
                assert forall|i: int| 0 <= i < si.len() implies (#[trigger] si[i]) !is Null && fits_within(si[i], e) by {
                    let j = choose|j: int| 0 <= j < xs.len() && si[i] == sanitize(xs[j], e);
                    law_sanitize_fits(xs[j], e);
                }
            },
            _ => {},
        }
    }
}

/// Message members cleaned: a `thinking_block` object gives its `text` as
/// `thinking_text`, `content_blocks` is dropped, and every other member is
/// sanitized (and dropped when that gives null).
pub open spec fn message_members(ms: Seq<(Seq<char>, Json)>) -> Seq<(Seq<char>, Json)>
    decreases ms.len(),
{
    if ms.len() == 0 {
        Seq::empty()
    } else {
        let acc = message_members(ms.drop_last());
        let (k, v) = ms.last();
        if k == "thinking_block"@ {
            match v {
                Json::Obj(o) => match text_map_get(o, "text"@) {
                    Some(t) => text_map_insert(acc, "thinking_text"@, t),
                    None => acc,
                },
                _ => acc,
            }
        } else if k == "content_blocks"@ {
            acc
        } else {
            let c = sanitize(v, DEFAULT_MAX_DEPTH as nat);
            if c is Null {
                acc
            } else {
                text_map_insert(acc, k, c)
            }
        }
    }
}

/// A chat message cleaned for persistence: always an object.
pub open spec fn sanitize_message_model(m: Json) -> Json {
    match m {
        Json::Obj(ms) => Json::Obj(message_members(ms)),
        _ => {
            let r = sanitize(m, DEFAULT_MAX_DEPTH as nat);
            if r is Obj {
                r
            } else {
                Json::Obj(Seq::empty())
            }
        },
    }
}

/// A chat message cleaned for persistence (see `sanitize_message_model`).
pub fn sanitize_message(message: &JsonValue) -> (r: JsonValue)
    ensures
        r@ == sanitize_message_model(message@),
{
    proof {
        reveal_strlit("thinking_block");
        reveal_strlit("content_blocks");
    }
    let m = match message {
        JsonValue::Object(m) => m,
        _ => {
            let result = sanitize_for_json(message);
            if let JsonValue::Object(_) = result {
                return result;
            }
            let empty: Vec<(String, JsonValue)> = Vec::new();
            proof {
                lemma_object_view(empty);
                assert(json_members(empty@) =~= Seq::<(Seq<char>, Json)>::empty());
            }
            return JsonValue::Object(empty);
        },
    };
    proof {
        lemma_object_view(*m);
    }
    let ghost ms = json_members(m@);
    let mut out: Vec<(String, JsonValue)> = Vec::new();
    let mut i: usize = 0;
    assert(ms.take(0) =~= Seq::<(Seq<char>, Json)>::empty());
    assert(json_members(out@) =~= Seq::<(Seq<char>, Json)>::empty());
    while i < m.len()
        invariant
            i <= m@.len(),
            ms == json_members(m@),
            json_members(out@) == message_members(ms.take(i as int)),
        decreases m@.len() - i,
    {
        proof {
            let t = ms.take(i + 1);
            assert(t.drop_last() =~= ms.take(i as int));
            assert(t.last() == ms[i as int]);
        }
        let key = &m[i].0;
        let value = &m[i].1;
        if str_eq(key.as_str(), "thinking_block") {
            if let JsonValue::Object(o) = value {
                proof {
                    lemma_object_view(*o);
                }
                if let Some(text) = members_get(o, "text") {
                    members_insert(&mut out, str_to_string("thinking_text"), copy_json(text));
                }
            }
        } else if str_eq(key.as_str(), "content_blocks") {
        } else {
            let clean = sanitize_for_json(value);
            if !json_is_null(&clean) {
                members_insert(&mut out, copy_string(key), clean);
            }
        }
        i += 1;
    }
    assert(ms.take(m@.len() as int) =~= ms);
    proof {
        lemma_object_view(out);
    }
    JsonValue::Object(out)
}

} // verus!
