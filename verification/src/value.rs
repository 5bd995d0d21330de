//! A YAML document value (null, bool, number, string, sequence, mapping or
//! tagged value) with the equality and mapping operations YAML tools use.
use vstd::prelude::*;
use crate::text::str_chars;
use crate::text::str_eq;

verus! {

broadcast use vstd::std_specs::vec::group_vec_axioms;

/// A YAML number. A float is carried as its IEEE-754 bit pattern; the library
/// never computes with it, it only compares and carries it.
#[derive(Clone, Copy, Debug, PartialEq)]
pub enum YamlNumber {
    PosInt(u64),
    NegInt(i64),
    Float(u64),
}

/// A YAML value. A mapping is a sequence of key/value entries in insertion order.
/// A number carries, beside its value, the text it is shown as.
#[derive(Debug, PartialEq)]
pub enum YamlValue {
    Null,
    Bool(bool),
    Number(YamlNumber, String),
    String(String),
    Sequence(Vec<YamlValue>),
    Mapping(Vec<(YamlValue, YamlValue)>),
    Tagged(String, Box<YamlValue>),
}

/// The mathematical value that a `YamlValue` stands for: strings as character
/// sequences, sequences and mappings as `Seq`s.
pub enum Yaml {
    Null,
    Bool(bool),
    Number(YamlNumber, Seq<char>),
    Str(Seq<char>),
    List(Seq<Yaml>),
    Dict(Seq<(Yaml, Yaml)>),
    Tagged(Seq<char>, Box<Yaml>),
}

/// The model of a `YamlValue`.
pub open spec fn yaml_view(v: YamlValue) -> Yaml
    decreases v,
{
    match v {
        YamlValue::Null => Yaml::Null,
        YamlValue::Bool(b) => Yaml::Bool(b),
        YamlValue::Number(n, t) => Yaml::Number(n, t@),
        YamlValue::String(s) => Yaml::Str(s@),
        YamlValue::Sequence(xs) => Yaml::List(
            Seq::new(
                xs@.len(),
                |i: int|
                    if 0 <= i < xs@.len() {
                        yaml_view(xs@[i])
                    } else {
                        Yaml::Null
                    },
            ),
        ),
        YamlValue::Mapping(xs) => Yaml::Dict(
            Seq::new(
                xs@.len(),
                |i: int|
                    if 0 <= i < xs@.len() {
                        (yaml_view(xs@[i].0), yaml_view(xs@[i].1))
                    } else {
                        (Yaml::Null, Yaml::Null)
                    },
            ),
        ),
        YamlValue::Tagged(t, b) => Yaml::Tagged(t@, Box::new(yaml_view(*b))),
    }
}

impl View for YamlValue {
    type V = Yaml;

    open spec fn view(&self) -> Yaml {
        yaml_view(*self)
    }
}

/// The model of a sequence of values.
pub open spec fn seq_view(xs: Seq<YamlValue>) -> Seq<Yaml> {
    Seq::new(xs.len(), |i: int| xs[i]@)
}

/// The model of a sequence of mapping entries.
pub open spec fn entries_view(xs: Seq<(YamlValue, YamlValue)>) -> Seq<(Yaml, Yaml)> {
    Seq::new(xs.len(), |i: int| (xs[i].0@, xs[i].1@))
}

/// A sequence value's model lists its elements' models.
pub proof fn lemma_list_view(xs: Vec<YamlValue>)
    ensures
        YamlValue::Sequence(xs)@ == Yaml::List(seq_view(xs@)),
{
    let lhs = yaml_view(YamlValue::Sequence(xs));
    let l = lhs->List_0;
    assert(l.len() == xs@.len());
    assert forall|i: int| 0 <= i < l.len() implies l[i] == seq_view(xs@)[i] by {}
    assert(l =~= seq_view(xs@));
}

/// A mapping value's model lists its entries' models.
pub proof fn lemma_dict_view(xs: Vec<(YamlValue, YamlValue)>)
    ensures
        YamlValue::Mapping(xs)@ == Yaml::Dict(entries_view(xs@)),
{
    let lhs = yaml_view(YamlValue::Mapping(xs));
    let l = lhs->Dict_0;
    assert(l.len() == xs@.len());
    assert forall|i: int| 0 <= i < l.len() implies l[i] == entries_view(xs@)[i] by {}
    assert(l =~= entries_view(xs@));
}

/// An element of a sequence value is smaller than the value.
pub proof fn lemma_seq_elem_decreases(a: YamlValue, xs: Vec<YamlValue>, i: int)
    requires
        a == YamlValue::Sequence(xs),
        0 <= i < xs@.len(),
    ensures
        decreases_to!(a => xs@[i]),
{
    assert(decreases_to!(a => a->Sequence_0));
    assert(decreases_to!(xs => xs[i]));
}

/// A key or value of a mapping value is smaller than the value.
pub proof fn lemma_entry_decreases(a: YamlValue, xs: Vec<(YamlValue, YamlValue)>, i: int)
    requires
        a == YamlValue::Mapping(xs),
        0 <= i < xs@.len(),
    ensures
        decreases_to!(a => xs@[i].0),
        decreases_to!(a => xs@[i].1),
{
    assert(decreases_to!(a => a->Mapping_0));
    assert(decreases_to!(xs => xs[i]));
    assert(decreases_to!(xs[i] => xs[i].0));
    assert(decreases_to!(xs[i] => xs[i].1));
}

/// The bit pattern of a float is a NaN.
pub open spec fn is_nan_bits(b: u64) -> bool {
    (b & 0x7ff0_0000_0000_0000u64) == 0x7ff0_0000_0000_0000u64 && (b & 0x000f_ffff_ffff_ffffu64)
        != 0
}

/// The bit pattern is a zero (positive or negative).
pub open spec fn is_zero_bits(b: u64) -> bool {
    (b & 0x7fff_ffff_ffff_ffffu64) == 0
}

/// YAML number equality: integers by value within their kind, floats by
/// IEEE equality except that all NaNs are equal.
pub open spec fn num_eq(a: YamlNumber, b: YamlNumber) -> bool {
    match (a, b) {
        (YamlNumber::PosInt(x), YamlNumber::PosInt(y)) => x == y,
        (YamlNumber::NegInt(x), YamlNumber::NegInt(y)) => x == y,
        (YamlNumber::Float(x), YamlNumber::Float(y)) => {
            if is_nan_bits(x) && is_nan_bits(y) {
                true
            } else {
                !is_nan_bits(x) && !is_nan_bits(y) && (x == y || (is_zero_bits(x) && is_zero_bits(
                    y,
                )))
            }
        },
        _ => false,
    }
}

/// A tag compared without one leading `!` (a lone `!` stays as it is).
pub open spec fn nobang(s: Seq<char>) -> Seq<char> {
    if s.len() >= 2 && s[0] == '!' {
        s.skip(1)
    } else {
        s
    }
}

/// Key `k` sits at position `j` of mapping entries `s`, and no earlier key equals it.
pub open spec fn first_key_at(s: Seq<(Yaml, Yaml)>, k: Yaml, j: int) -> bool {
    &&& 0 <= j < s.len()
    &&& yaml_eq(k, s[j].0)
    &&& forall|i: int| 0 <= i < j ==> !yaml_eq(k, #[trigger] s[i].0)
}

/// YAML value equality: sequences elementwise, mappings as unordered maps
/// (same size, and each key of the left found in the right with an equal value),
/// tags without a leading `!`.
pub open spec fn yaml_eq(a: Yaml, b: Yaml) -> bool
    decreases a,
{
    match a {
        Yaml::Null => b is Null,
        Yaml::Bool(x) => b matches Yaml::Bool(y) && x == y,
        Yaml::Number(x, _) => b matches Yaml::Number(y, _) && num_eq(x, y),
        Yaml::Str(x) => b matches Yaml::Str(y) && x == y,
        Yaml::List(xs) => b matches Yaml::List(ys) && xs.len() == ys.len() && forall|i: int|
            0 <= i < xs.len() ==> yaml_eq(#[trigger] xs[i], ys[i]),
        Yaml::Dict(xs) => b matches Yaml::Dict(ys) && xs.len() == ys.len() && forall|i: int|
            0 <= i < xs.len() ==> entry_matches(#[trigger] xs[i], ys),
        Yaml::Tagged(t, x) => b matches Yaml::Tagged(u, y) && nobang(t) == nobang(u) && yaml_eq(
            *x,
            *y,
        ),
    }
}

/// Entry `x` finds, under its key, an equal value in mapping entries `ys`
/// (the key is looked up as a hash map looks it up: first equal key).
pub open spec fn entry_matches(x: (Yaml, Yaml), ys: Seq<(Yaml, Yaml)>) -> bool
    decreases x,
{
    exists|j: int|
        {
            &&& 0 <= j < ys.len()
            &&& yaml_eq(x.0, #[trigger] ys[j].0)
            &&& (forall|m: int| 0 <= m < j ==> !yaml_eq(x.0, #[trigger] ys[m].0))
            &&& yaml_eq(x.1, ys[j].1)
        }
}

/// The position of the first key of `s` equal to `k`.
pub open spec fn map_find(s: Seq<(Yaml, Yaml)>, k: Yaml) -> Option<int> {
    if exists|j: int| first_key_at(s, k, j) {
        Some(choose|j: int| first_key_at(s, k, j))
    } else {
        None
    }
}

/// The value stored under key `k` in mapping entries `s`.
pub open spec fn map_get(s: Seq<(Yaml, Yaml)>, k: Yaml) -> Option<Yaml> {
    match map_find(s, k) {
        Some(j) => Some(s[j].1),
        None => None,
    }
}

/// Mapping entries `s` with `v` stored under `k`: an existing key keeps its place
/// (and its own spelling) and takes the new value; a new key goes last.
pub open spec fn map_insert(s: Seq<(Yaml, Yaml)>, k: Yaml, v: Yaml) -> Seq<(Yaml, Yaml)> {
    match map_find(s, k) {
        Some(j) => s.update(j, (s[j].0, v)),
        None => s.push((k, v)),
    }
}

/// The position of the first string key `key`.
pub open spec fn first_str_key_at(s: Seq<(Yaml, Yaml)>, key: Seq<char>, j: int) -> bool {
    &&& 0 <= j < s.len()
    &&& s[j].0 == Yaml::Str(key)
    &&& forall|i: int| 0 <= i < j ==> #[trigger] s[i].0 != Yaml::Str(key)
}

/// The value stored under the string key `key`.
pub open spec fn map_get_str(s: Seq<(Yaml, Yaml)>, key: Seq<char>) -> Option<Yaml> {
    if exists|j: int| first_str_key_at(s, key, j) {
        Some(s[choose|j: int| first_str_key_at(s, key, j)].1)
    } else {
        None
    }
}

/// The value under any tags: a tagged value stands for what it tags.
pub open spec fn untag(v: Yaml) -> Yaml
    decreases v,
{
    match v {
        Yaml::Tagged(_, b) => untag(*b),
        _ => v,
    }
}

/// The text of `v` when `v` (under its tags) is a string.
pub open spec fn as_str(v: Yaml) -> Option<Seq<char>> {
    match untag(v) {
        Yaml::Str(s) => Some(s),
        _ => None,
    }
}

/// `v` is (under its tags) a mapping.
pub open spec fn is_dict(v: Yaml) -> bool {
    untag(v) is Dict
}

/// `v` is (under its tags) null.
pub open spec fn is_null(v: Yaml) -> bool {
    untag(v) is Null
}

/// The entries of `v` when it is (under its tags) a mapping, none otherwise.
pub open spec fn dict_entries(v: Yaml) -> Seq<(Yaml, Yaml)> {
    match untag(v) {
        Yaml::Dict(m) => m,
        _ => Seq::empty(),
    }
}

/// The value under string key `key` when `v` is (under its tags) a mapping.
pub open spec fn value_get_str(v: Yaml, key: Seq<char>) -> Option<Yaml> {
    match untag(v) {
        Yaml::Dict(m) => map_get_str(m, key),
        _ => None,
    }
}

/// A string key looks up the first entry whose key is that very string.
pub proof fn lemma_str_key_lookup(s: Seq<(Yaml, Yaml)>, key: Seq<char>)
    ensures
        map_get(s, Yaml::Str(key)) == map_get_str(s, key),
        map_find(s, Yaml::Str(key)) is Some <==> exists|j: int| first_str_key_at(s, key, j),
        forall|j: int| first_str_key_at(s, key, j) ==> map_find(s, Yaml::Str(key)) == Some(j),
{
    let k = Yaml::Str(key);
    assert forall|i: int| 0 <= i < s.len() implies yaml_eq(k, s[i].0) == (s[i].0 == k) by {
        if yaml_eq(k, s[i].0) {
            assert(s[i].0 == k);
        }
    }
    assert forall|j: int| first_key_at(s, k, j) <==> first_str_key_at(s, key, j) by {}
    if exists|j: int| first_str_key_at(s, key, j) {
        let j = choose|j: int| first_str_key_at(s, key, j);
        assert forall|j2: int| first_str_key_at(s, key, j2) implies j2 == j by {
            if j2 < j {
            } else if j2 > j {
                assert(s[j].0 != k);
            }
        }
    }
}

/// When an entry has string key `key`, a first such entry exists.
pub proof fn lemma_first_str_key_exists(s: Seq<(Yaml, Yaml)>, key: Seq<char>, w: int)
    requires
        0 <= w < s.len(),
        s[w].0 == Yaml::Str(key),
    ensures
        exists|j: int| first_str_key_at(s, key, j),
    decreases w,
{
    if exists|i: int| 0 <= i < w && s[i].0 == Yaml::Str(key) {
        let i = choose|i: int| 0 <= i < w && s[i].0 == Yaml::Str(key);
        lemma_first_str_key_exists(s, key, i);
    } else {
        assert(first_str_key_at(s, key, w));
    }
}

/// Two first positions of the same string key coincide.
pub proof fn lemma_first_str_unique(s: Seq<(Yaml, Yaml)>, key: Seq<char>, j1: int, j2: int)
    requires
        first_str_key_at(s, key, j1),
        first_str_key_at(s, key, j2),
    ensures
        j1 == j2,
{
    if j1 < j2 {
        assert(s[j1].0 != Yaml::Str(key));
    } else if j2 < j1 {
        assert(s[j2].0 != Yaml::Str(key));
    }
}

/// Looking up string key `q` after appending entry `e`: an earlier entry
/// under `q` wins, else `e` when it has key `q`.
pub proof fn lemma_get_str_push(s: Seq<(Yaml, Yaml)>, e: (Yaml, Yaml), q: Seq<char>)
    ensures
        map_get_str(s.push(e), q) == match map_get_str(s, q) {
            Some(x) => Some(x),
            None => if e.0 == Yaml::Str(q) {
                Some(e.1)
            } else {
                None
            },
        },
{
    let t = s.push(e);
    if exists|j: int| first_str_key_at(s, q, j) {
        let j = choose|j: int| first_str_key_at(s, q, j);
        assert(first_str_key_at(t, q, j)) by {
            assert forall|i: int| 0 <= i < j implies #[trigger] t[i].0 != Yaml::Str(q) by {
                assert(t[i] == s[i]);
            }
        }
        let w = choose|w: int| first_str_key_at(t, q, w);
        lemma_first_str_unique(t, q, w, j);
    } else {
        assert forall|i: int| 0 <= i < s.len() implies #[trigger] t[i].0 != Yaml::Str(q) by {
            assert(t[i] == s[i]);
            if s[i].0 == Yaml::Str(q) {
                lemma_first_str_key_exists(s, q, i);
            }
        }
        if e.0 == Yaml::Str(q) {
            assert(first_str_key_at(t, q, s.len() as int));
            let w = choose|w: int| first_str_key_at(t, q, w);
            lemma_first_str_unique(t, q, w, s.len() as int);
        } else {
            if exists|w: int| first_str_key_at(t, q, w) {
                let w = choose|w: int| first_str_key_at(t, q, w);
                if w < s.len() {
                } else {
                    assert(t[w] == e);
                }
            }
        }
    }
}

/// Looking up string key `q` after storing `x` under string key `k`.
#[verifier::spinoff_prover]
pub proof fn lemma_get_str_after_insert(s: Seq<(Yaml, Yaml)>, k: Seq<char>, x: Yaml, q: Seq<char>)
    ensures
        map_get_str(map_insert(s, Yaml::Str(k), x), q) == if q == k {
            Some(x)
        } else {
            map_get_str(s, q)
        },
{
    lemma_str_key_lookup(s, k);
    let t = map_insert(s, Yaml::Str(k), x);
    if exists|j: int| first_str_key_at(s, k, j) {
        let j = choose|j: int| first_str_key_at(s, k, j);
        assert(map_find(s, Yaml::Str(k)) == Some(j));
        assert(t == s.update(j, (s[j].0, x)));
        assert forall|i: int| 0 <= i < t.len() implies #[trigger] t[i].0 == s[i].0 by {}
        assert forall|i: int| first_str_key_at(t, q, i) <==> first_str_key_at(s, q, i) by {
            if 0 <= i < t.len() {
                assert(t[i].0 == s[i].0);
                assert forall|m: int| 0 <= m < i implies (#[trigger] t[m].0 == Yaml::Str(q)) == (
                s[m].0 == Yaml::Str(q)) by {
                    assert(t[m].0 == s[m].0);
                }
            }
        }
        if q == k {
            assert(first_str_key_at(t, k, j));
            let w = choose|w: int| first_str_key_at(t, k, w);
            lemma_first_str_unique(t, k, w, j);
        } else {
            if exists|w: int| first_str_key_at(t, q, w) {
                let w = choose|w: int| first_str_key_at(t, q, w);
                let w2 = choose|w: int| first_str_key_at(s, q, w);
                lemma_first_str_unique(s, q, w, w2);
                assert(w != j);
            }
        }
    } else {
        assert(map_find(s, Yaml::Str(k)) is None);
        assert(t == s.push((Yaml::Str(k), x)));
        if q == k {
            assert forall|i: int| 0 <= i < s.len() implies #[trigger] t[i].0 != Yaml::Str(k) by {
                assert(t[i] == s[i]);
                if s[i].0 == Yaml::Str(k) {
                    lemma_first_str_key_exists(s, k, i);
                }
            }
            assert(first_str_key_at(t, k, s.len() as int));
            let w = choose|w: int| first_str_key_at(t, k, w);
            lemma_first_str_unique(t, k, w, s.len() as int);
        } else {
            assert forall|i: int| first_str_key_at(t, q, i) <==> first_str_key_at(s, q, i) by {
                if 0 <= i < s.len() {
                    assert(t[i] == s[i]);
                    assert forall|m: int| 0 <= m < i implies t[m] == s[m] by {}
                }
            }
            if exists|w: int| first_str_key_at(t, q, w) {
                let w = choose|w: int| first_str_key_at(t, q, w);
                let w2 = choose|w: int| first_str_key_at(s, q, w);
                lemma_first_str_unique(s, q, w, w2);
                assert(t[w] == s[w]);
            }
        }
    }
}

/// Equality of two YAML numbers.
pub fn number_equal(a: &YamlNumber, b: &YamlNumber) -> (r: bool)
    ensures
        r == num_eq(*a, *b),
{
    match (a, b) {
        (YamlNumber::PosInt(x), YamlNumber::PosInt(y)) => *x == *y,
        (YamlNumber::NegInt(x), YamlNumber::NegInt(y)) => *x == *y,
        (YamlNumber::Float(x), YamlNumber::Float(y)) => {
            let xn = (*x & 0x7ff0_0000_0000_0000u64) == 0x7ff0_0000_0000_0000u64 && (*x
                & 0x000f_ffff_ffff_ffffu64) != 0;
            let yn = (*y & 0x7ff0_0000_0000_0000u64) == 0x7ff0_0000_0000_0000u64 && (*y
                & 0x000f_ffff_ffff_ffffu64) != 0;
            if xn && yn {
                true
            } else {
                !xn && !yn && (*x == *y || ((*x & 0x7fff_ffff_ffff_ffffu64) == 0 && (*y
                    & 0x7fff_ffff_ffff_ffffu64) == 0))
            }
        },
        _ => false,
    }
}

/// `nobang(a) == nobang(b)`.
fn tags_equal(a: &String, b: &String) -> (r: bool)
    ensures
        r == (nobang(a@) == nobang(b@)),
{
    let va = str_chars(a.as_str());
    let vb = str_chars(b.as_str());
    let sa: usize = if va.len() >= 2 && va[0] == '!' { 1 } else { 0 };
    let sb: usize = if vb.len() >= 2 && vb[0] == '!' { 1 } else { 0 };
    assert(nobang(a@) =~= va@.skip(sa as int));
    assert(nobang(b@) =~= vb@.skip(sb as int));
    if va.len() - sa != vb.len() - sb {
        return false;
    }
    let mut i: usize = 0;
    while i < va.len() - sa
        invariant
            sa <= va@.len(),
            sb <= vb@.len(),
            va@.len() - sa == vb@.len() - sb,
            i <= va@.len() - sa,
            sb + i <= vb@.len(),
            vb@.len() == vb.len(),
            va@.len() == va.len(),
            nobang(a@) == va@.skip(sa as int),
            nobang(b@) == vb@.skip(sb as int),
            forall|j: int| 0 <= j < i ==> va@.skip(sa as int)[j] == #[trigger] vb@.skip(sb as int)[j],
        decreases va@.len() - sa - i,
    {
        if va[sa + i] != vb[sb + i] {
            assert(va@.skip(sa as int)[i as int] != vb@.skip(sb as int)[i as int]);
            return false;
        }
        i += 1;
    }
    assert(va@.skip(sa as int) =~= vb@.skip(sb as int));
    true
}

/// A copy of `v`.
#[verifier::loop_isolation(false)]
pub fn copy_value(v: &YamlValue) -> (r: YamlValue)
    ensures
        r@ == v@,
    decreases v,
{
    match v {
        YamlValue::Null => YamlValue::Null,
        YamlValue::Bool(b) => YamlValue::Bool(*b),
        YamlValue::Number(n, t) => YamlValue::Number(*n, t.clone()),
        YamlValue::String(s) => YamlValue::String(s.clone()),
        YamlValue::Sequence(xs) => {
            let mut out: Vec<YamlValue> = Vec::new();
            let mut i: usize = 0;
            while i < xs.len()
                invariant
                    i <= xs@.len(),
                    out@.len() == i,
                    forall|j: int| 0 <= j < i ==> (#[trigger] out@[j])@ == xs@[j]@,
                decreases xs@.len() - i,
            {
                assert(decreases_to!(v => xs@[i as int]));
                out.push(copy_value(&xs[i]));
                i += 1;
            }
            proof {
                lemma_list_view(out);
                lemma_list_view(*xs);
                assert(seq_view(out@) =~= seq_view(xs@));
            }
            YamlValue::Sequence(out)
        },
        YamlValue::Mapping(xs) => {
            let mut out: Vec<(YamlValue, YamlValue)> = Vec::new();
            let mut i: usize = 0;
            while i < xs.len()
                invariant
                    i <= xs@.len(),
                    out@.len() == i,
                    forall|j: int|
                        0 <= j < i ==> (#[trigger] out@[j]).0@ == xs@[j].0@ && out@[j].1@
                            == xs@[j].1@,
                decreases xs@.len() - i,
            {
                assert(decreases_to!(v => xs@[i as int].0));
                assert(decreases_to!(v => xs@[i as int].1));
                let k = copy_value(&xs[i].0);
                let val = copy_value(&xs[i].1);
                out.push((k, val));
                i += 1;
            }
            proof {
                lemma_dict_view(out);
                lemma_dict_view(*xs);
                assert(entries_view(out@) =~= entries_view(xs@));
            }
            YamlValue::Mapping(out)
        },
        YamlValue::Tagged(t, x) => YamlValue::Tagged(t.clone(), Box::new(copy_value(&**x))),
    }
}

impl Clone for YamlValue {
    fn clone(&self) -> (r: Self)
        ensures
            r@ == self@,
    {
        copy_value(self)
    }
}

/// The first entry of `m` whose key equals `k`.
pub fn mapping_find(m: &Vec<(YamlValue, YamlValue)>, k: &YamlValue) -> (r: Option<usize>)
    ensures
        r matches Some(j) ==> j < m@.len() && map_find(entries_view(m@), k@) == Some(j as int),
        r is None ==> map_find(entries_view(m@), k@) is None,
{
    let ghost s = entries_view(m@);
    let mut j: usize = 0;
    while j < m.len()
        invariant
            s == entries_view(m@),
            j <= m@.len(),
            forall|i: int| 0 <= i < j ==> !yaml_eq(k@, #[trigger] s[i].0),
        decreases m@.len() - j,
    {
        if yaml_equal(k, &m[j].0) {
            assert(first_key_at(s, k@, j as int));
            let ghost w = choose|w: int| first_key_at(s, k@, w);
            assert(w == j as int) by {
                if w < j as int {
                    assert(!yaml_eq(k@, s[w].0));
                } else if w > j as int {
                    assert(!yaml_eq(k@, s[j as int].0));
                }
            }
            return Some(j);
        }
        j += 1;
    }
    None
}

/// The first entry of `m` whose key is the string `key`.
pub fn mapping_find_str(m: &Vec<(YamlValue, YamlValue)>, key: &str) -> (r: Option<usize>)
    ensures
        r matches Some(j) ==> j < m@.len() && first_str_key_at(entries_view(m@), key@, j as int),
        r is None ==> !exists|j: int| first_str_key_at(entries_view(m@), key@, j),
        r matches Some(j) ==> map_get_str(entries_view(m@), key@) == Some(m@[j as int].1@),
        r is None ==> map_get_str(entries_view(m@), key@) is None,
{
    let ghost s = entries_view(m@);
    let mut j: usize = 0;
    while j < m.len()
        invariant
            s == entries_view(m@),
            j <= m@.len(),
            forall|i: int| 0 <= i < j ==> #[trigger] s[i].0 != Yaml::Str(key@),
        decreases m@.len() - j,
    {
        let hit = match &m[j].0 {
            YamlValue::String(t) => str_eq(t.as_str(), key),
            _ => false,
        };
        if hit {
            assert(first_str_key_at(s, key@, j as int));
            let ghost w = choose|w: int| first_str_key_at(s, key@, w);
            assert(w == j as int) by {
                if w < j as int {
                } else if w > j as int {
                    assert(s[j as int].0 == Yaml::Str(key@));
                }
            }
            return Some(j);
        } else {
            assert(s[j as int].0 != Yaml::Str(key@));
        }
        j += 1;
    }
    None
}

/// The value under string key `key` in mapping entries `m`.
pub fn mapping_get_str<'a>(m: &'a Vec<(YamlValue, YamlValue)>, key: &str) -> (r: Option<&'a YamlValue>)
    ensures
        r matches Some(v) ==> map_get_str(entries_view(m@), key@) == Some(v@),
        r is None ==> map_get_str(entries_view(m@), key@) is None,
{
    match mapping_find_str(m, key) {
        Some(j) => Some(&m[j].1),
        None => None,
    }
}

/// The value under its tags (`Value::untag_ref`).
pub fn untag_ref(v: &YamlValue) -> (r: &YamlValue)
    ensures
        r@ == untag(v@),
        !(r is Tagged),
    decreases v,
{
    match v {
        YamlValue::Tagged(_, b) => untag_ref(&**b),
        _ => v,
    }
}

/// The text of `v` when it is (under its tags) a string (`Value::as_str`).
pub fn value_as_str(v: &YamlValue) -> (r: Option<&String>)
    ensures
        r matches Some(s) ==> as_str(v@) == Some(s@),
        r is None ==> as_str(v@) is None,
{
    match untag_ref(v) {
        YamlValue::String(s) => Some(s),
        _ => None,
    }
}

/// The entries of `v` when it is (under its tags) a mapping (`Value::as_mapping`).
pub fn value_as_mapping(v: &YamlValue) -> (r: Option<&Vec<(YamlValue, YamlValue)>>)
    ensures
        r matches Some(m) ==> is_dict(v@) && dict_entries(v@) == entries_view(m@),
        r is None ==> !is_dict(v@),
{
    match untag_ref(v) {
        YamlValue::Mapping(m) => {
            proof {
                lemma_dict_view(*m);
            }
            Some(m)
        },
        _ => None,
    }
}

/// Whether `v` is (under its tags) a mapping (`Value::is_mapping`).
pub fn value_is_mapping(v: &YamlValue) -> (r: bool)
    ensures
        r == is_dict(v@),
{
    value_as_mapping(v).is_some()
}

/// Whether `v` is (under its tags) null (`Value::is_null`).
pub fn value_is_null(v: &YamlValue) -> (r: bool)
    ensures
        r == is_null(v@),
{
    match untag_ref(v) {
        YamlValue::Null => true,
        _ => false,
    }
}

/// The value under string key `key` of `v`, when `v` is (under its tags) a mapping.
pub fn get_str<'a>(v: &'a YamlValue, key: &str) -> (r: Option<&'a YamlValue>)
    ensures
        r matches Some(x) ==> value_get_str(v@, key@) == Some(x@),
        r is None ==> value_get_str(v@, key@) is None,
{
    match untag_ref(v) {
        YamlValue::Mapping(m) => {
            proof {
                lemma_dict_view(*m);
            }
            mapping_get_str(m, key)
        },
        _ => None,
    }
}

/// Stores `v` under key `k` in mapping entries `m`.
pub fn mapping_insert(m: &mut Vec<(YamlValue, YamlValue)>, k: YamlValue, v: YamlValue)
    ensures
        entries_view(final(m)@) == map_insert(entries_view(old(m)@), k@, v@),
{
    match mapping_find(m, &k) {
        Some(j) => {
            let ghost before = entries_view(m@);
            let key = copy_value(&m[j].0);
            m.set(j, (key, v));
            assert(entries_view(m@) =~= before.update(j as int, (before[j as int].0, v@)));
        },
        None => {
            let ghost before = entries_view(m@);
            m.push((k, v));
            assert(entries_view(m@) =~= before.push((k@, v@)));
        },
    }
}

/// A `YamlValue::String` holding the text of `s`.
pub fn str_value(s: &str) -> (r: YamlValue)
    ensures
        r@ == Yaml::Str(s@),
{
    YamlValue::String(crate::text::str_to_string(s))
}

/// YAML value equality (`serde_yaml_ng::Value == Value`).
pub fn yaml_equal(a: &YamlValue, b: &YamlValue) -> (r: bool)
    ensures
        r == yaml_eq(a@, b@),
    decreases a,
{
    match (a, b) {
        (YamlValue::Null, YamlValue::Null) => true,
        (YamlValue::Bool(x), YamlValue::Bool(y)) => *x == *y,
        (YamlValue::Number(x, _), YamlValue::Number(y, _)) => number_equal(x, y),
        (YamlValue::String(x), YamlValue::String(y)) => str_eq(x.as_str(), y.as_str()),
        (YamlValue::Sequence(xs), YamlValue::Sequence(ys)) => {
            proof {
                lemma_list_view(*xs);
                lemma_list_view(*ys);
            }
            if xs.len() != ys.len() {
                return false;
            }
            let mut i: usize = 0;
            while i < xs.len()
                invariant
                    *a == YamlValue::Sequence(*xs),
                    a@ == Yaml::List(seq_view(xs@)),
                    b@ == Yaml::List(seq_view(ys@)),
                    xs@.len() == ys@.len(),
                    i <= xs@.len(),
                    forall|j: int| 0 <= j < i ==> yaml_eq(#[trigger] xs@[j]@, ys@[j]@),
                decreases xs@.len() - i,
            {
                proof { lemma_seq_elem_decreases(*a, *xs, i as int); }
                if !yaml_equal(&xs[i], &ys[i]) {
                    assert(seq_view(xs@)[i as int] == xs@[i as int]@);
                    return false;
                }
                i += 1;
            }
            assert forall|j: int| 0 <= j < xs@.len() implies yaml_eq(
                #[trigger] seq_view(xs@)[j],
                seq_view(ys@)[j],
            ) by {
                assert(yaml_eq(xs@[j]@, ys@[j]@));
            }
            true
        },
        (YamlValue::Mapping(xs), YamlValue::Mapping(ys)) => {
            proof {
                lemma_dict_view(*xs);
                lemma_dict_view(*ys);
            }
            let ghost sx = entries_view(xs@);
            let ghost sy = entries_view(ys@);
            if xs.len() != ys.len() {
                return false;
            }
            let mut i: usize = 0;
            while i < xs.len()
                invariant
                    *a == YamlValue::Mapping(*xs),
                    a@ == Yaml::Dict(entries_view(xs@)),
                    b@ == Yaml::Dict(entries_view(ys@)),
                    sx == entries_view(xs@),
                    sy == entries_view(ys@),
                    xs@.len() == ys@.len(),
                    i <= xs@.len(),
                    forall|p: int| 0 <= p < i ==> entry_matches(#[trigger] sx[p], sy),
                decreases xs@.len() - i,
            {
                proof { lemma_entry_decreases(*a, *xs, i as int); }
                let mut j: usize = 0;
                let mut found: Option<usize> = None;
                while j < ys.len()
                    invariant_except_break
                        found is None,
                    invariant
                        *a == YamlValue::Mapping(*xs),
                        decreases_to!(*a => xs@[i as int].0),
                        sx == entries_view(xs@),
                        sy == entries_view(ys@),
                        xs@.len() == ys@.len(),
                        i < xs@.len(),
                        j <= ys@.len(),
                        forall|m: int| 0 <= m < j ==> !yaml_eq(sx[i as int].0, #[trigger] sy[m].0),
                    ensures
                        found matches Some(fj) ==> fj == j && j < ys@.len() && yaml_eq(sx[i as int].0, sy[j as int].0),
                        found is None ==> j == ys@.len(),
                    decreases ys@.len() - j,
                {
                    if yaml_equal(&xs[i].0, &ys[j].0) {
                        found = Some(j);
                        break;
                    }
                    j += 1;
                }
                match found {
                    Some(fj) => {
                        if !yaml_equal(&xs[i].1, &ys[fj].1) {
                            assert forall|j2: int|
                                !({
                                    &&& 0 <= j2 < sy.len()
                                    &&& yaml_eq(sx[i as int].0, #[trigger] sy[j2].0)
                                    &&& (forall|m: int|
                                        0 <= m < j2 ==> !yaml_eq(sx[i as int].0, #[trigger] sy[m].0))
                                    &&& yaml_eq(sx[i as int].1, sy[j2].1)
                                }) by {
                                if j2 < fj as int {
                                } else if j2 > fj as int {
                                    assert(yaml_eq(sx[i as int].0, sy[fj as int].0));
                                }
                            }
                            assert(!entry_matches(sx[i as int], sy));
                            return false;
                        }
                        assert(yaml_eq(sx[i as int].0, sy[fj as int].0));
                        assert(entry_matches(sx[i as int], sy));
                    },
                    None => {
                        assert(!entry_matches(sx[i as int], sy));
                        assert(!yaml_eq(a@, b@));
                        return false;
                    },
                }
                i += 1;
            }
            assert(sx.len() == sy.len());
            assert(yaml_eq(Yaml::Dict(sx), Yaml::Dict(sy)));
            assert(yaml_eq(a@, b@));
            true
        },
        (YamlValue::Tagged(t, x), YamlValue::Tagged(u, y)) => {
            if !tags_equal(t, u) {
                return false;
            }
            let r = yaml_equal(&**x, &**y);
            assert(a@ == Yaml::Tagged(t@, Box::new((**x)@)));
            assert(b@ == Yaml::Tagged(u@, Box::new((**y)@)));
            r
        },
        _ => false,
    }
}

} // verus!
