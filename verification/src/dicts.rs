//! Dictionary utilities: deep merge, nested get and set.
use vstd::prelude::*;
use crate::ordered::{
    text_map_get, text_map_insert, value_map_entries, value_map_get, value_map_insert,
    value_map_into_values, value_map_new,
};
use crate::value::{
    as_str, value_as_str,
    copy_value, dict_entries, entries_view, first_str_key_at, is_dict, untag, value_is_mapping, get_str, lemma_dict_view, lemma_entry_decreases,
    lemma_get_str_after_insert, lemma_str_key_lookup, map_get, map_get_str, map_insert,
    mapping_find, mapping_find_str, mapping_insert, value_get_str, Yaml, YamlValue,
};

verus! {

broadcast use vstd::std_specs::vec::group_vec_axioms;

/// How many steps a child value allows in the merge fold.
pub open spec fn dict_len(c: Yaml) -> int {
    match c {
        Yaml::Dict(m) => m.len() as int + 1,
        _ => 0,
    }
}

/// Deep merge of two YAML values: when both are mappings, the child's entries
/// are folded into the parent's, in the child's order; every other pair gives
/// the child.
pub open spec fn merge_model(p: Yaml, c: Yaml) -> Yaml
    decreases c, dict_len(c),
{
    match (p, c) {
        (Yaml::Dict(pm), Yaml::Dict(cm)) => Yaml::Dict(merge_fold(pm, c, cm.len() as nat)),
        _ => c,
    }
}

/// The parent's entries after folding in the first `n` entries of mapping `c`:
/// a key the accumulated mapping already holds takes the merge of both values,
/// a new key is appended with the child's value.
pub open spec fn merge_fold(pm: Seq<(Yaml, Yaml)>, c: Yaml, n: nat) -> Seq<(Yaml, Yaml)>
    decreases c, n,
{
    if c is Dict && 0 < n <= c->Dict_0.len() {
        let acc = merge_fold(pm, c, (n - 1) as nat);
        let entry = c->Dict_0[n - 1];
        match map_get(acc, entry.0) {
            Some(pv) => map_insert(acc, entry.0, merge_model(pv, entry.1)),
            None => map_insert(acc, entry.0, entry.1),
        }
    } else {
        pm
    }
}

/// Deep merge two YAML values (`deep_merge`).
///
/// Child values override parent values; when both are mappings they are merged
/// recursively; for any other pair (sequences included) the child replaces the
/// parent. The inputs are not modified.
pub fn deep_merge(parent: &YamlValue, child: &YamlValue) -> (r: YamlValue)
    ensures
        r@ == merge_model(parent@, child@),
    decreases child,
{
    match (parent, child) {
        (YamlValue::Mapping(pm), YamlValue::Mapping(cm)) => {
            proof {
                lemma_dict_view(*pm);
                lemma_dict_view(*cm);
            }
            let mut result = copy_entries(pm);
            let mut i: usize = 0;
            while i < cm.len()
                invariant
                    *child == YamlValue::Mapping(*cm),
                    child@ == Yaml::Dict(entries_view(cm@)),
                    parent@ == Yaml::Dict(entries_view(pm@)),
                    i <= cm@.len(),
                    entries_view(result@) == merge_fold(entries_view(pm@), child@, i as nat),
                decreases cm@.len() - i,
            {
                proof {
                    lemma_entry_decreases(*child, *cm, i as int);
                }
                let ghost acc = entries_view(result@);
                let key = &cm[i].0;
                match mapping_find(&result, key) {
                    Some(j) => {
                        let merged = deep_merge(&result[j].1, &cm[i].1);
                        mapping_insert(&mut result, copy_value(key), merged);
                    },
                    None => {
                        mapping_insert(&mut result, copy_value(key), copy_value(&cm[i].1));
                    },
                }
                i += 1;
            }
            proof {
                lemma_dict_view(result);
            }
            YamlValue::Mapping(result)
        },
        _ => copy_value(child),
    }
}

/// A copy of all mapping entries.
pub fn copy_entries(xs: &Vec<(YamlValue, YamlValue)>) -> (r: Vec<(YamlValue, YamlValue)>)
    ensures
        entries_view(r@) == entries_view(xs@),
{
    let mut out: Vec<(YamlValue, YamlValue)> = Vec::new();
    let mut i: usize = 0;
    while i < xs.len()
        invariant
            i <= xs@.len(),
            out@.len() == i,
            forall|j: int|
                0 <= j < i ==> (#[trigger] out@[j]).0@ == xs@[j].0@ && out@[j].1@ == xs@[j].1@,
        decreases xs@.len() - i,
    {
        let k = copy_value(&xs[i].0);
        let v = copy_value(&xs[i].1);
        out.push((k, v));
        i += 1;
    }
    assert(entries_view(out@) =~= entries_view(xs@));
    out
}

/// The texts of a path of keys.
pub open spec fn keys_view(path: Seq<&str>) -> Seq<Seq<char>> {
    Seq::new(path.len(), |i: int| path[i]@)
}

/// The value reached from `d` by following string keys `path` through
/// mappings; `None` when a key is missing or an intermediate value is not a mapping.
pub open spec fn get_path(d: Yaml, path: Seq<Seq<char>>) -> Option<Yaml>
    decreases path.len(),
{
    if path.len() == 0 {
        Some(d)
    } else {
        match value_get_str(d, path[0]) {
            Some(v) => get_path(v, path.drop_first()),
            None => None,
        }
    }
}

/// `d` with the mapping under its tags replaced by entries `m`, its tags kept;
/// when `d` is not (under its tags) a mapping, the plain mapping `m`.
pub open spec fn with_entries(d: Yaml, m: Seq<(Yaml, Yaml)>) -> Yaml
    decreases d,
{
    match d {
        Yaml::Tagged(t, b) => if is_dict(*b) {
            Yaml::Tagged(t, Box::new(with_entries(*b, m)))
        } else {
            Yaml::Dict(m)
        },
        _ => Yaml::Dict(m),
    }
}

/// `d` with `v` stored at `path`: every value on the way that is not (under its
/// tags) a mapping, the top one included, becomes an empty mapping first; tagged
/// mappings keep their tags; an empty path leaves `d`.
pub open spec fn set_path(d: Yaml, path: Seq<Seq<char>>, v: Yaml) -> Yaml
    decreases path.len(),
{
    if path.len() == 0 {
        d
    } else if path.len() == 1 {
        with_entries(d, map_insert(dict_entries(d), Yaml::Str(path[0]), v))
    } else {
        let m = dict_entries(d);
        let child = match map_get_str(m, path[0]) {
            Some(c) => if is_dict(c) {
                c
            } else {
                Yaml::Dict(Seq::empty())
            },
            None => Yaml::Dict(Seq::empty()),
        };
        with_entries(d, map_insert(m, Yaml::Str(path[0]), set_path(child, path.drop_first(), v)))
    }
}

/// Get a value from nested mappings by a path of string keys (`get_nested`).
/// An empty path gives a copy of `data`; a missing key, or an intermediate value
/// that is not a mapping, gives `None`.
pub fn get_nested(data: &YamlValue, path: &[&str]) -> (r: Option<YamlValue>)
    ensures
        r matches Some(v) ==> get_path(data@, keys_view(path@)) == Some(v@),
        r is None ==> get_path(data@, keys_view(path@)) is None,
{
    let ghost keys = keys_view(path@);
    let mut current: &YamlValue = data;
    let mut i: usize = 0;
    assert(keys.skip(0) =~= keys);
    while i < path.len()
        invariant
            keys == keys_view(path@),
            i <= path@.len(),
            get_path(data@, keys) == get_path(current@, keys.skip(i as int)),
        decreases path@.len() - i,
    {
        let ghost rest = keys.skip(i as int);
        assert(rest.drop_first() =~= keys.skip(i + 1));
        match get_str(current, path[i]) {
            Some(next) => {
                current = next;
            },
            None => {
                return None;
            },
        }
        i += 1;
    }
    assert(keys.skip(path@.len() as int) =~= Seq::<Seq<char>>::empty());
    Some(copy_value(current))
}

/// Get a value from nested mappings by path, or `default` when the path
/// does not lead to a value (`get_nested_with_default`).
pub fn get_nested_with_default(data: &YamlValue, path: &[&str], default: YamlValue) -> (r:
    YamlValue)
    ensures
        r@ == match get_path(data@, keys_view(path@)) {
            Some(v) => v,
            None => default@,
        },
{
    match get_nested(data, path) {
        Some(v) => v,
        None => default,
    }
}

/// The entries of a value that is not tagged: its own when it is a mapping,
/// none otherwise.
fn take_entries(d: YamlValue) -> (r: Vec<(YamlValue, YamlValue)>)
    requires
        !(d is Tagged),
    ensures
        entries_view(r@) == dict_entries(d@),
{
    match d {
        YamlValue::Mapping(m) => {
            proof {
                lemma_dict_view(m);
            }
            m
        },
        _ => {
            let r: Vec<(YamlValue, YamlValue)> = Vec::new();
            assert(entries_view(r@) =~= Seq::<(Yaml, Yaml)>::empty());
            r
        },
    }
}

/// Under its tags, `with_entries(d, m)` is the mapping `m`.
pub proof fn lemma_untag_with_entries(d: Yaml, m: Seq<(Yaml, Yaml)>)
    ensures
        untag(with_entries(d, m)) == Yaml::Dict(m),
    decreases d,
{
    if let Yaml::Tagged(t, b) = d {
        if is_dict(*b) {
            lemma_untag_with_entries(*b, m);
        }
    }
}

/// `set_path` on owned values, from position `i` of the path on.
fn set_path_from(d: YamlValue, path: &[&str], i: usize, value: YamlValue) -> (r: YamlValue)
    requires
        i < path@.len(),
    ensures
        r@ == set_path(d@, keys_view(path@).skip(i as int), value@),
    decreases path@.len() - i, d,
{
    let ghost keys = keys_view(path@).skip(i as int);
    let ghost dv = d@;
    let mut entries: Vec<(YamlValue, YamlValue)> = match d {
        YamlValue::Tagged(t, b) => {
            if value_is_mapping(&*b) {
                let inner = set_path_from(*b, path, i, value);
                return YamlValue::Tagged(t, Box::new(inner));
            } else {
                let r: Vec<(YamlValue, YamlValue)> = Vec::new();
                assert(entries_view(r@) =~= Seq::<(Yaml, Yaml)>::empty());
                r
            }
        },
        other => take_entries(other),
    };
    assert(entries_view(entries@) == dict_entries(dv));
    let key = crate::value::str_value(path[i]);
    if i + 1 == path.len() {
        mapping_insert(&mut entries, key, value);
        proof {
            lemma_dict_view(entries);
        }
        YamlValue::Mapping(entries)
    } else {
        let empty: Vec<(YamlValue, YamlValue)> = Vec::new();
        proof {
            lemma_dict_view(empty);
            assert(entries_view(empty@) =~= Seq::<(Yaml, Yaml)>::empty());
        }
        let child: YamlValue = match mapping_find_str(&entries, path[i]) {
            Some(j) => {
                if value_is_mapping(&entries[j].1) {
                    copy_value(&entries[j].1)
                } else {
                    YamlValue::Mapping(empty)
                }
            },
            None => YamlValue::Mapping(empty),
        };
        assert(keys.drop_first() =~= keys_view(path@).skip(i + 1));
        let inner = set_path_from(child, path, i + 1, value);
        mapping_insert(&mut entries, key, inner);
        proof {
            lemma_dict_view(entries);
        }
        YamlValue::Mapping(entries)
    }
}

/// The deepest path `set_nested` writes at: a longer path is refused, so that
/// no mapping is nested more deeply than this by it.
pub const MAX_NESTING_DEPTH: usize = 64;

/// Set a value in nested mappings by a path of string keys (`set_nested`).
/// Intermediate mappings are created as needed, and any value on the way that
/// is not a mapping (the top one included) is replaced by one. An empty path,
/// or one deeper than `MAX_NESTING_DEPTH`, leaves `data` as it is.
pub fn set_nested(data: &mut YamlValue, path: &[&str], value: YamlValue)
    ensures
        path@.len() == 0 || path@.len() > MAX_NESTING_DEPTH ==> final(data)@ == old(data)@,
        0 < path@.len() <= MAX_NESTING_DEPTH ==> final(data)@ == set_path(old(data)@, keys_view(path@), value@),
{
    if path.len() == 0 || path.len() > MAX_NESTING_DEPTH {
        return;
    }
    let mut d = YamlValue::Null;
    std::mem::swap(&mut d, data);
    assert(keys_view(path@).skip(0) =~= keys_view(path@));
    *data = set_path_from(d, path, 0, value);
}

/// All keys of mapping entries `m` are strings, and no two are the same.
pub open spec fn distinct_str_keys(m: Seq<(Yaml, Yaml)>) -> bool {
    &&& forall|i: int| 0 <= i < m.len() ==> (#[trigger] m[i]).0 is Str
    &&& forall|i: int, j: int| 0 <= i < j < m.len() ==> (#[trigger] m[i]).0 != (#[trigger] m[j]).0
}

/// What a merge holds under one key: the child's value merged into the
/// parent's, the child's value alone, or the parent's value alone.
pub open spec fn merged_lookup(pv: Option<Yaml>, cv: Option<Yaml>) -> Option<Yaml> {
    match (pv, cv) {
        (_, None) => pv,
        (None, Some(c)) => Some(c),
        (Some(p), Some(c)) => Some(merge_model(p, c)),
    }
}

proof fn lemma_fold_lookup(pm: Seq<(Yaml, Yaml)>, c: Yaml, n: nat, k: Seq<char>)
    requires
        c is Dict,
        n <= c->Dict_0.len(),
        distinct_str_keys(c->Dict_0),
    ensures
        map_get_str(merge_fold(pm, c, n), k) == merged_lookup(
            map_get_str(pm, k),
            map_get_str(c->Dict_0.take(n as int), k),
        ),
    decreases n,
{
    let cm = c->Dict_0;
    if n == 0 {
        assert(cm.take(0) =~= Seq::<(Yaml, Yaml)>::empty());
        assert(!exists|j: int| first_str_key_at(cm.take(0), k, j));
    } else {
        let m = (n - 1) as nat;
        let entry = cm[m as int];
        let kn = entry.0->Str_0;
        assert(entry.0 == Yaml::Str(kn));
        lemma_fold_lookup(pm, c, m, k);
        lemma_fold_lookup(pm, c, m, kn);
        let acc = merge_fold(pm, c, m);
        lemma_str_key_lookup(acc, kn);
        let pre = cm.take(m as int);
        let cur = cm.take(n as int);
        assert(cur == pre.push(entry));
        // kn does not occur among the earlier child keys.
        assert forall|i: int| 0 <= i < pre.len() implies #[trigger] pre[i].0 != Yaml::Str(kn) by {
            assert(pre[i] == cm[i]);
        }
        assert(!exists|j: int| first_str_key_at(pre, kn, j));
        lemma_get_str_after_insert(
            acc,
            kn,
            match map_get(acc, entry.0) {
                Some(pv) => merge_model(pv, entry.1),
                None => entry.1,
            },
            k,
        );
        lemma_get_str_after_insert(pre, kn, entry.1, k);
        assert(map_insert(pre, Yaml::Str(kn), entry.1) == cur) by {
            lemma_str_key_lookup(pre, kn);
        }
    }
}

/// Deep merge, looked up by key: when both sides are mappings and the child's
/// keys are distinct strings, the merge holds under each key the child's value
/// merged into the parent's (both present), the child's value (only the child
/// has it), or the parent's value (only the parent has it).
pub proof fn law_deep_merge_lookup(p: Yaml, c: Yaml, k: Seq<char>)
    requires
        p is Dict,
        c is Dict,
        distinct_str_keys(c->Dict_0),
    ensures
        value_get_str(merge_model(p, c), k) == merged_lookup(
            value_get_str(p, k),
            value_get_str(c, k),
        ),
{
    let cm = c->Dict_0;
    lemma_fold_lookup(p->Dict_0, c, cm.len() as nat, k);
    assert(cm.take(cm.len() as int) =~= cm);
}

/// Deep merge keeps the child when either side is not a mapping.
pub proof fn law_deep_merge_non_mapping(p: Yaml, c: Yaml)
    requires
        !(p is Dict) || !(c is Dict),
    ensures
        merge_model(p, c) == c,
{
}

/// Reading a path after writing it gives back what was written.
pub proof fn law_get_after_set(d: Yaml, path: Seq<Seq<char>>, v: Yaml)
    requires
        path.len() > 0,
    ensures
        get_path(set_path(d, path, v), path) == Some(v),
    decreases path.len(),
{
    reveal_with_fuel(get_path, 2);
    let m = dict_entries(d);
    if path.len() == 1 {
        lemma_untag_with_entries(d, map_insert(m, Yaml::Str(path[0]), v));
        lemma_get_str_after_insert(m, path[0], v, path[0]);
        assert(path.drop_first().len() == 0);
    } else {
        let child = match map_get_str(m, path[0]) {
            Some(c) => if is_dict(c) {
                c
            } else {
                Yaml::Dict(Seq::empty())
            },
            None => Yaml::Dict(Seq::empty()),
        };
        let inner = set_path(child, path.drop_first(), v);
        lemma_untag_with_entries(d, map_insert(m, Yaml::Str(path[0]), inner));
        lemma_get_str_after_insert(m, path[0], inner, path[0]);
        law_get_after_set(child, path.drop_first(), v);
    }
}

/// Writing at an empty path leaves the value unchanged, and reading an empty path
/// gives the value itself.
pub proof fn law_empty_path(d: Yaml, v: Yaml)
    ensures
        set_path(d, Seq::empty(), v) == d,
        get_path(d, Seq::empty()) == Some(d),
{
}

/// The module id of a module config: the text under its `module` key.
pub open spec fn module_id(c: Yaml) -> Option<Seq<char>> {
    match value_get_str(c, "module"@) {
        Some(v) => as_str(v),
        None => None,
    }
}

/// The parent configs indexed by module id, the first `n` of them: a later
/// config with the same id replaces an earlier one in its place; configs
/// without an id are left out.
pub open spec fn index_modules(parent: Seq<Yaml>, n: int) -> Seq<(Seq<char>, Yaml)>
    decreases n,
{
    if n <= 0 || n > parent.len() {
        Seq::empty()
    } else {
        let acc = index_modules(parent, n - 1);
        match module_id(parent[n - 1]) {
            Some(id) => text_map_insert(acc, id, parent[n - 1]),
            None => acc,
        }
    }
}

/// The first `n` child configs folded into the index: a known id takes the
/// child deep-merged into the existing config, a new id is appended, and a
/// config without an id is skipped.
pub open spec fn fold_modules(acc: Seq<(Seq<char>, Yaml)>, child: Seq<Yaml>, n: int) -> Seq<
    (Seq<char>, Yaml),
>
    decreases n,
{
    if n <= 0 || n > child.len() {
        acc
    } else {
        let prev = fold_modules(acc, child, n - 1);
        match module_id(child[n - 1]) {
            Some(id) => match text_map_get(prev, id) {
                Some(existing) => text_map_insert(prev, id, merge_model(existing, child[n - 1])),
                None => text_map_insert(prev, id, child[n - 1]),
            },
            None => prev,
        }
    }
}

/// The merged module list: parent modules first, in order of first appearance,
/// then modules new in the child.
pub open spec fn merged_modules(parent: Seq<Yaml>, child: Seq<Yaml>) -> Seq<Yaml> {
    let idx = fold_modules(index_modules(parent, parent.len() as int), child, child.len() as int);
    Seq::new(idx.len(), |i: int| idx[i].1)
}

/// A child value that is not a mapping replaces whatever the parent had
/// under the same key in a deep merge.
proof fn lemma_child_value_wins(p: Yaml, c: Yaml, k: Seq<char>, cv: Yaml)
    requires
        c is Dict ==> distinct_str_keys(c->Dict_0),
        value_get_str(c, k) == Some(cv),
        !(cv is Dict),
    ensures
        value_get_str(merge_model(p, c), k) == Some(cv),
{
    if p is Dict && c is Dict {
        law_deep_merge_lookup(p, c, k);
        match value_get_str(p, k) {
            Some(pv) => {
                law_deep_merge_non_mapping(pv, cv);
            },
            None => {},
        }
    } else {
        law_deep_merge_non_mapping(p, c);
    }
}

/// The config the fold holds under `id` after the last child config with
/// that id (at `j`) is folded in.
proof fn lemma_fold_last_config(acc: Seq<(Seq<char>, Yaml)>, child: Seq<Yaml>, n: int, j: int, id: Seq<char>)
    requires
        0 <= j < n <= child.len(),
        module_id(child[j]) == Some(id),
        forall|l: int| j < l < n ==> module_id(#[trigger] child[l]) != Some(id),
    ensures
        text_map_get(fold_modules(acc, child, n), id) == Some(
            match text_map_get(fold_modules(acc, child, j), id) {
                Some(e) => merge_model(e, child[j]),
                None => child[j],
            },
        ),
    decreases n,
{
    let prev = fold_modules(acc, child, n - 1);
    if n - 1 == j {
        match text_map_get(prev, id) {
            Some(e) => crate::ordered::lemma_text_get_after_insert(prev, id, merge_model(e, child[j]), id),
            None => crate::ordered::lemma_text_get_after_insert(prev, id, child[j], id),
        }
    } else {
        lemma_fold_last_config(acc, child, n - 1, j, id);
        assert(module_id(child[n - 1]) != Some(id));
        match module_id(child[n - 1]) {
            Some(id2) => match text_map_get(prev, id2) {
                Some(e) => crate::ordered::lemma_text_get_after_insert(prev, id2, merge_model(e, child[n - 1]), id),
                None => crate::ordered::lemma_text_get_after_insert(prev, id2, child[n - 1], id),
            },
            None => {},
        }
    }
}

/// Merging module lists, the child overrides the parent: for the last child
/// config with a given module id, the merged list holds a config with that
/// id in which every key the child config sets to a non-mapping value has
/// the child's value (whatever the parent's config with that id held).
pub proof fn law_child_module_config_wins(parent: Seq<Yaml>, child: Seq<Yaml>, j: int, id: Seq<char>, k: Seq<char>, cv: Yaml)
    requires
        0 <= j < child.len(),
        module_id(child[j]) == Some(id),
        forall|l: int| j < l < child.len() ==> module_id(#[trigger] child[l]) != Some(id),
        child[j] is Dict ==> distinct_str_keys(child[j]->Dict_0),
        value_get_str(child[j], k) == Some(cv),
        !(cv is Dict),
    ensures
        exists|i: int|
            0 <= i < merged_modules(parent, child).len() && module_id(#[trigger] merged_modules(parent, child)[i])
                == Some(id) && value_get_str(merged_modules(parent, child)[i], k) == Some(cv),
{
    let acc = index_modules(parent, parent.len() as int);
    let idx = fold_modules(acc, child, child.len() as int);
    let r = merged_modules(parent, child);
    lemma_fold_last_config(acc, child, child.len() as int, j, id);
    let c = child[j];
    let val = match text_map_get(fold_modules(acc, child, j), id) {
        Some(e) => merge_model(e, c),
        None => c,
    };
    // The child's module id and value under `k` survive the merge.
    let mv = value_get_str(c, "module"@)->0;
    assert(value_get_str(c, "module"@) == Some(mv));
    assert(!(mv is Dict)) by {
        if mv is Dict {
            assert(untag(mv) == mv);
        }
    }
    match text_map_get(fold_modules(acc, child, j), id) {
        Some(e) => {
            lemma_child_value_wins(e, c, k, cv);
            lemma_child_value_wins(e, c, "module"@, mv);
        },
        None => {},
    }
    assert(module_id(val) == Some(id));
    assert(value_get_str(val, k) == Some(cv));
    let w = choose|w: int| crate::ordered::first_text_key_at(idx, id, w);
    assert(idx[w].1 == val);
    assert(r[w] == val);
}

/// The models of a slice of values.
pub open spec fn values_view(xs: Seq<YamlValue>) -> Seq<Yaml> {
    Seq::new(xs.len(), |i: int| xs[i]@)
}

/// The module id of a config value.
fn config_module_id(c: &YamlValue) -> (r: Option<String>)
    ensures
        r matches Some(s) ==> module_id(c@) == Some(s@),
        r is None ==> module_id(c@) is None,
{
    match get_str(c, "module") {
        Some(v) => match value_as_str(v) {
            Some(s) => Some(s.clone()),
            None => None,
        },
        None => None,
    }
}

/// The position of the first module config of `list` that is not a mapping,
/// if any: the one `merge_module_lists` refuses.
pub fn first_non_mapping(list: &[YamlValue]) -> (r: Option<usize>)
    ensures
        r is None ==> forall|i: int| 0 <= i < list@.len() ==> is_dict(#[trigger] list@[i]@),
        r matches Some(i) ==> i < list@.len() && !is_dict(list@[i as int]@) && forall|k: int|
            0 <= k < i ==> is_dict(#[trigger] list@[k]@),
{
    let mut i: usize = 0;
    while i < list.len()
        invariant
            i <= list@.len(),
            forall|k: int| 0 <= k < i ==> is_dict(#[trigger] list@[k]@),
        decreases list@.len() - i,
    {
        if !value_is_mapping(&list[i]) {
            return Some(i);
        }
        i += 1;
    }
    None
}

/// Merge two lists of module configs by module id (`merge_module_lists`).
///
/// A module config is a mapping whose `module` key holds its id. A child config
/// with a known id is deep-merged into the config with that id (child wins); a
/// new id is appended; a child config without an id is skipped, and so is a
/// parent config without one. Order: parent modules first, then new child modules.
/// Every element of both lists must be a mapping.
pub fn merge_module_lists(parent: &[YamlValue], child: &[YamlValue]) -> (r: Vec<YamlValue>)
    requires
        forall|i: int| 0 <= i < parent@.len() ==> is_dict(#[trigger] parent@[i]@),
        forall|i: int| 0 <= i < child@.len() ==> is_dict(#[trigger] child@[i]@),
    ensures
        values_view(r@) == merged_modules(values_view(parent@), values_view(child@)),
{
    let ghost pv = values_view(parent@);
    let ghost cv = values_view(child@);
    let mut by_id = value_map_new();
    let mut i: usize = 0;
    while i < parent.len()
        invariant
            pv == values_view(parent@),
            i <= parent@.len(),
            value_map_entries(by_id) == index_modules(pv, i as int),
        decreases parent@.len() - i,
    {
        match config_module_id(&parent[i]) {
            Some(id) => {
                value_map_insert(&mut by_id, id, copy_value(&parent[i]));
            },
            None => {},
        }
        i += 1;
    }
    let ghost base = value_map_entries(by_id);
    let mut j: usize = 0;
    while j < child.len()
        invariant
            cv == values_view(child@),
            j <= child@.len(),
            value_map_entries(by_id) == fold_modules(base, cv, j as int),
        decreases child@.len() - j,
    {
        match config_module_id(&child[j]) {
            Some(id) => {
                let merged = match value_map_get(&by_id, &id) {
                    Some(existing) => deep_merge(existing, &child[j]),
                    None => copy_value(&child[j]),
                };
                value_map_insert(&mut by_id, id, merged);
            },
            None => {},
        }
        j += 1;
    }
    let ghost idx = value_map_entries(by_id);
    let r = value_map_into_values(by_id);
    assert(values_view(r@) =~= Seq::new(idx.len(), |k: int| idx[k].1));
    r
}

} // verus!
