//! Insertion-ordered maps keyed by text (`indexmap::IndexMap`), as the library
//! uses them: what each map holds is named, and each operation says what it
//! does to that.
use vstd::prelude::*;
use indexmap::IndexMap;
use crate::value::{Yaml, YamlValue};
use crate::registry::{BundleState, StateModel};
use crate::bundle_dict::distinct_names;

verus! {

#[verifier::external_type_specification]
#[verifier::external_body]
#[verifier::reject_recursive_types(K)]
#[verifier::reject_recursive_types(V)]
#[verifier::reject_recursive_types(S)]
pub struct ExIndexMap<K, V, S>(IndexMap<K, V, S>);

/// The entries of an `IndexMap<String, YamlValue>`, in order.
pub uninterp spec fn value_map_entries(m: IndexMap<String, YamlValue>) -> Seq<(Seq<char>, Yaml)>;

/// Key `k` sits at position `j`, and at no earlier position.
pub open spec fn first_text_key_at<V>(s: Seq<(Seq<char>, V)>, k: Seq<char>, j: int) -> bool {
    &&& 0 <= j < s.len()
    &&& s[j].0 == k
    &&& forall|i: int| 0 <= i < j ==> #[trigger] s[i].0 != k
}

/// The value stored under key `k`.
pub open spec fn text_map_get<V>(s: Seq<(Seq<char>, V)>, k: Seq<char>) -> Option<V> {
    if exists|j: int| first_text_key_at(s, k, j) {
        Some(s[choose|j: int| first_text_key_at(s, k, j)].1)
    } else {
        None
    }
}

/// The entries after storing `v` under `k`: an existing key keeps its place and
/// takes the new value, a new key goes last.
pub open spec fn text_map_insert<V>(s: Seq<(Seq<char>, V)>, k: Seq<char>, v: V) -> Seq<
    (Seq<char>, V),
> {
    if exists|j: int| first_text_key_at(s, k, j) {
        let j = choose|j: int| first_text_key_at(s, k, j);
        s.update(j, (k, v))
    } else {
        s.push((k, v))
    }
}

proof fn lemma_first_text_unique<V>(s: Seq<(Seq<char>, V)>, k: Seq<char>, a: int, b: int)
    requires
        first_text_key_at(s, k, a),
        first_text_key_at(s, k, b),
    ensures
        a == b,
{
    if a < b {
        assert(s[a].0 != k);
    } else if b < a {
        assert(s[b].0 != k);
    }
}

proof fn lemma_first_text_exists<V>(s: Seq<(Seq<char>, V)>, k: Seq<char>, w: int)
    requires
        0 <= w < s.len(),
        s[w].0 == k,
    ensures
        exists|j: int| first_text_key_at(s, k, j),
    decreases w,
{
    if exists|i: int| 0 <= i < w && s[i].0 == k {
        let i = choose|i: int| 0 <= i < w && s[i].0 == k;
        lemma_first_text_exists(s, k, i);
    } else {
        assert(first_text_key_at(s, k, w));
    }
}

proof fn lemma_same_keys_first<V>(s: Seq<(Seq<char>, V)>, t: Seq<(Seq<char>, V)>, q: Seq<char>, i: int)
    requires
        s.len() == t.len(),
        forall|m: int| #![trigger s[m]] #![trigger t[m]] 0 <= m < s.len() ==> t[m].0 == s[m].0,
    ensures
        first_text_key_at(t, q, i) == first_text_key_at(s, q, i),
{
    if 0 <= i < s.len() {
        assert(t[i].0 == s[i].0);
        if first_text_key_at(t, q, i) {
            assert forall|m: int| 0 <= m < i implies #[trigger] s[m].0 != q by {
                assert(t[m].0 != q);
            }
        }
        if first_text_key_at(s, q, i) {
            assert forall|m: int| 0 <= m < i implies #[trigger] t[m].0 != q by {
                assert(s[m].0 != q);
            }
        }
    }
}

/// Looking up `q` after storing `v` under `k`: `v` when `q` is `k`, else what
/// was there before.
pub proof fn lemma_text_get_after_insert<V>(s: Seq<(Seq<char>, V)>, k: Seq<char>, v: V, q: Seq<char>)
    ensures
        text_map_get(text_map_insert(s, k, v), q) == if q == k {
            Some(v)
        } else {
            text_map_get(s, q)
        },
{
    let t = text_map_insert(s, k, v);
    if exists|j: int| first_text_key_at(s, k, j) {
        let j = choose|j: int| first_text_key_at(s, k, j);
        assert(t == s.update(j, (k, v)));
        assert forall|i: int| first_text_key_at(t, q, i) <==> first_text_key_at(s, q, i) by {
            lemma_same_keys_first(s, t, q, i);
        }
        if q == k {
            let w = choose|w: int| first_text_key_at(t, k, w);
            lemma_first_text_unique(t, k, w, j);
        } else {
            if exists|w: int| first_text_key_at(t, q, w) {
                let w = choose|w: int| first_text_key_at(t, q, w);
                let w2 = choose|w: int| first_text_key_at(s, q, w);
                lemma_first_text_unique(s, q, w, w2);
                assert(w != j);
            }
        }
    } else {
        assert(t == s.push((k, v)));
        assert forall|i: int| 0 <= i < s.len() implies #[trigger] t[i] == s[i] by {}
        if q == k {
            assert forall|i: int| 0 <= i < s.len() implies #[trigger] t[i].0 != k by {
                if s[i].0 == k {
                    lemma_first_text_exists(s, k, i);
                }
            }
            assert(first_text_key_at(t, k, s.len() as int));
            let w = choose|w: int| first_text_key_at(t, k, w);
            lemma_first_text_unique(t, k, w, s.len() as int);
        } else {
            assert forall|i: int| first_text_key_at(t, q, i) <==> first_text_key_at(s, q, i) by {
                if i == s.len() {
                    assert(t[i].0 == k);
                } else {
                    lemma_same_keys_first(s, t.take(s.len() as int), q, i);
                    assert(t.take(s.len() as int) =~= s);
                    if 0 <= i < s.len() {
                        assert(t[i] == s[i]);
                        assert forall|m: int| 0 <= m < i implies t[m] == #[trigger] s[m] by {}
                    }
                }
            }
            if exists|w: int| first_text_key_at(t, q, w) {
                let w = choose|w: int| first_text_key_at(t, q, w);
                let w2 = choose|w: int| first_text_key_at(s, q, w);
                lemma_first_text_unique(s, q, w, w2);
            }
        }
    }
}

/// `IndexMap::new`: an empty map.
#[verifier::external_body]
pub(crate) fn value_map_new() -> (m: IndexMap<String, YamlValue>)
    ensures
        value_map_entries(m) == Seq::<(Seq<char>, Yaml)>::empty(),
{
    IndexMap::new()
}

/// `IndexMap::get`: the value stored under `k`.
#[verifier::external_body]
pub(crate) fn value_map_get<'a>(m: &'a IndexMap<String, YamlValue>, k: &String) -> (r: Option<&'a YamlValue>)
    ensures
        r matches Some(v) ==> text_map_get(value_map_entries(*m), k@) == Some(v@),
        r is None ==> text_map_get(value_map_entries(*m), k@) is None,
{
    m.get(k)
}

/// `IndexMap::insert`: stores `v` under `k` (the returned old value is dropped).
/// An `IndexMap` holds each key once.
#[verifier::external_body]
pub(crate) fn value_map_insert(m: &mut IndexMap<String, YamlValue>, k: String, v: YamlValue)
    ensures
        value_map_entries(*final(m)) == text_map_insert(value_map_entries(*old(m)), k@, v@),
        distinct_names(value_map_entries(*final(m))),
{
    m.insert(k, v);
}

/// `IndexMap::into_values`, collected: the values in order.
#[verifier::external_body]
pub(crate) fn value_map_into_values(m: IndexMap<String, YamlValue>) -> (r: Vec<YamlValue>)
    ensures
        r@.len() == value_map_entries(m).len(),
        forall|i: int| 0 <= i < r@.len() ==> (#[trigger] r@[i])@ == value_map_entries(m)[i].1,
{
    m.into_values().collect()
}

/// `IndexMap::clone`: a map with the same entries in the same order, each
/// key once.
#[verifier::external_body]
pub(crate) fn value_map_clone(m: &IndexMap<String, YamlValue>) -> (r: IndexMap<String, YamlValue>)
    ensures
        value_map_entries(r) == value_map_entries(*m),
        distinct_names(value_map_entries(r)),
{
    m.clone()
}

/// `IndexMap::iter`, cloned and collected: the entries in order, each key
/// once.
#[verifier::external_body]
pub(crate) fn value_map_to_vec(m: &IndexMap<String, YamlValue>) -> (r: Vec<(String, YamlValue)>)
    ensures
        r@.len() == value_map_entries(*m).len(),
        forall|i: int|
            0 <= i < r@.len() ==> (#[trigger] r@[i]).0@ == value_map_entries(*m)[i].0 && r@[i].1@
                == value_map_entries(*m)[i].1,
        forall|i: int, j: int| 0 <= i < j < r@.len() ==> (#[trigger] r@[i]).0@ != (#[trigger] r@[j]).0@,
{
    m.iter().map(|(k, v)| (k.clone(), v.clone())).collect()
}

/// The entries of an `IndexMap<String, String>`, in order.
pub uninterp spec fn text_map_entries(m: IndexMap<String, String>) -> Seq<(Seq<char>, Seq<char>)>;

/// `IndexMap::new`: an empty map.
#[verifier::external_body]
pub(crate) fn text_map_new() -> (m: IndexMap<String, String>)
    ensures
        text_map_entries(m) == Seq::<(Seq<char>, Seq<char>)>::empty(),
{
    IndexMap::new()
}

/// `IndexMap::get`: the text stored under `k`.
#[verifier::external_body]
pub(crate) fn text_map_lookup<'a>(m: &'a IndexMap<String, String>, k: &str) -> (r: Option<&'a String>)
    ensures
        r matches Some(v) ==> text_map_get(text_map_entries(*m), k@) == Some(v@),
        r is None ==> text_map_get(text_map_entries(*m), k@) is None,
{
    m.get(k)
}

/// `IndexMap::insert`: stores `v` under `k` (the returned old value is dropped).
/// An `IndexMap` holds each key once.
#[verifier::external_body]
pub(crate) fn text_map_put(m: &mut IndexMap<String, String>, k: String, v: String)
    ensures
        text_map_entries(*final(m)) == text_map_insert(text_map_entries(*old(m)), k@, v@),
        distinct_names(text_map_entries(*final(m))),
{
    m.insert(k, v);
}

/// `IndexMap::clone`: a map with the same entries in the same order, each
/// key once.
#[verifier::external_body]
pub(crate) fn text_map_clone(m: &IndexMap<String, String>) -> (r: IndexMap<String, String>)
    ensures
        text_map_entries(r) == text_map_entries(*m),
        distinct_names(text_map_entries(r)),
{
    m.clone()
}

/// `IndexMap::iter`, cloned and collected: the entries in order, each key
/// once.
#[verifier::external_body]
pub(crate) fn text_map_to_vec(m: &IndexMap<String, String>) -> (r: Vec<(String, String)>)
    ensures
        r@.len() == text_map_entries(*m).len(),
        forall|i: int|
            0 <= i < r@.len() ==> (#[trigger] r@[i]).0@ == text_map_entries(*m)[i].0 && r@[i].1@
                == text_map_entries(*m)[i].1,
        forall|i: int, j: int| 0 <= i < j < r@.len() ==> (#[trigger] r@[i]).0@ != (#[trigger] r@[j]).0@,
{
    m.iter().map(|(k, v)| (k.clone(), v.clone())).collect()
}

/// The entries of an `IndexMap<String, BundleState>`, in order.
pub uninterp spec fn state_map_entries(m: IndexMap<String, BundleState>) -> Seq<(Seq<char>, StateModel)>;

/// The entries after removing key `k` (its first entry), the rest in order.
pub open spec fn text_map_remove<V>(s: Seq<(Seq<char>, V)>, k: Seq<char>) -> Seq<(Seq<char>, V)> {
    if exists|j: int| first_text_key_at(s, k, j) {
        s.remove(choose|j: int| first_text_key_at(s, k, j))
    } else {
        s
    }
}

/// `IndexMap::new`: an empty map.
#[verifier::external_body]
pub(crate) fn state_map_new() -> (m: IndexMap<String, BundleState>)
    ensures
        state_map_entries(m) == Seq::<(Seq<char>, StateModel)>::empty(),
{
    IndexMap::new()
}

/// `IndexMap::get`: the state stored under `k`.
#[verifier::external_body]
pub(crate) fn state_map_get<'a>(m: &'a IndexMap<String, BundleState>, k: &str) -> (r: Option<&'a BundleState>)
    ensures
        r matches Some(v) ==> text_map_get(state_map_entries(*m), k@) == Some(v@),
        r is None ==> text_map_get(state_map_entries(*m), k@) is None,
{
    m.get(k)
}

/// `IndexMap::insert`: stores `v` under `k` (the returned old value is dropped).
/// An `IndexMap` holds each key once.
#[verifier::external_body]
pub(crate) fn state_map_insert(m: &mut IndexMap<String, BundleState>, k: String, v: BundleState)
    ensures
        state_map_entries(*final(m)) == text_map_insert(state_map_entries(*old(m)), k@, v@),
        distinct_names(state_map_entries(*final(m))),
{
    m.insert(k, v);
}

/// `IndexMap::shift_remove` (a map holds each key once): takes out the entry
/// under `k`, keeping the order
/// of the others, and gives back its state.
#[verifier::external_body]
pub(crate) fn state_map_shift_remove(m: &mut IndexMap<String, BundleState>, k: &str) -> (r: Option<BundleState>)
    ensures
        state_map_entries(*final(m)) == text_map_remove(state_map_entries(*old(m)), k@),
        distinct_names(state_map_entries(*final(m))),
        r matches Some(v) ==> text_map_get(state_map_entries(*old(m)), k@) == Some(v@),
        r is None ==> text_map_get(state_map_entries(*old(m)), k@) is None,
{
    m.shift_remove(k)
}

/// `IndexMap::keys`, cloned and collected: the keys in order, each once.
#[verifier::external_body]
pub(crate) fn state_map_keys(m: &IndexMap<String, BundleState>) -> (r: Vec<String>)
    ensures
        r@.len() == state_map_entries(*m).len(),
        forall|i: int| 0 <= i < r@.len() ==> (#[trigger] r@[i])@ == state_map_entries(*m)[i].0,
        forall|i: int, j: int| 0 <= i < j < r@.len() ==> (#[trigger] r@[i])@ != (#[trigger] r@[j])@,
{
    m.keys().cloned().collect()
}

/// `IndexMap::shift_remove` (a map holds each key once): takes out the entry
/// under `k`, keeping the order
/// of the others, and gives back its text.
#[verifier::external_body]
pub(crate) fn text_map_take(m: &mut IndexMap<String, String>, k: &str) -> (r: Option<String>)
    ensures
        text_map_entries(*final(m)) == text_map_remove(text_map_entries(*old(m)), k@),
        distinct_names(text_map_entries(*final(m))),
        r matches Some(v) ==> text_map_get(text_map_entries(*old(m)), k@) == Some(v@),
        r is None ==> text_map_get(text_map_entries(*old(m)), k@) is None,
{
    m.shift_remove(k)
}

} // verus!
