//! Reading a bundle from its dictionary form, writing it back, and the mount
//! plan a bundle produces.
use vstd::prelude::*;
use vstd::string::StrSliceExecFns;
use indexmap::IndexMap;
use crate::value::{
    Yaml, YamlValue, as_str, is_dict, dict_entries, untag, map_get_str, map_insert, value_get_str,
    seq_view, entries_view, copy_value, value_as_mapping, value_as_str, value_is_mapping,
    mapping_get_str, mapping_insert, str_value, lemma_list_view, untag_ref,
};
use crate::ordered::{
    text_map_entries, text_map_get, text_map_insert, text_map_new, text_map_put, value_map_entries,
    value_map_insert, value_map_new,
};
use crate::text::{concat, decimal, decimal_text, has_char, is_prefix, push_str, str_has_char,
    str_starts_with, str_to_string, copy_string};
use crate::paths::{join_text, join_path};
use crate::debug::{debug_text, debug_string};
use crate::error::BundleError;
use crate::bundle::{Bundle, BundleModel};

verus! {

broadcast use vstd::std_specs::vec::group_vec_axioms;

/// The kind of a value, as error messages name it (tags are not looked through).
pub open spec fn kind_name(v: Yaml) -> Seq<char> {
    match v {
        Yaml::Null => "null"@,
        Yaml::Bool(_) => "bool"@,
        Yaml::Number(_, _) => "number"@,
        Yaml::Str(_) => "str"@,
        Yaml::List(_) => "list"@,
        Yaml::Dict(_) => "dict"@,
        Yaml::Tagged(_, _) => "tagged"@,
    }
}

/// The kind of a value (`value_type_name`).
pub fn value_type_name(v: &YamlValue) -> (r: String)
    ensures
        r@ == kind_name(v@),
{
    match v {
        YamlValue::Null => str_to_string("null"),
        YamlValue::Bool(_) => str_to_string("bool"),
        YamlValue::Number(_, _) => str_to_string("number"),
        YamlValue::String(_) => str_to_string("str"),
        YamlValue::Sequence(_) => str_to_string("list"),
        YamlValue::Mapping(_) => str_to_string("dict"),
        YamlValue::Tagged(_, _) => str_to_string("tagged"),
    }
}

/// The closing advice of a malformed-module-list message.
pub open spec fn format_hint(field: Seq<char>) -> Seq<char> {
    ".\nCorrect format: "@ + field + ": [{module: 'module-id', source: 'git+https://...'}]"@
}

/// The message for a module list that is not a list.
pub open spec fn list_error(ident: Seq<char>, field: Seq<char>, v: Yaml) -> Seq<char> {
    "Bundle '"@ + ident + "' has malformed "@ + field + ": expected list, got "@ + kind_name(v)
        + format_hint(field)
}

/// How a malformed entry is quoted: a string in single quotes, anything else
/// by its debugging text.
pub open spec fn item_repr(v: Yaml) -> Seq<char> {
    match as_str(v) {
        Some(s) => "'"@ + s + "'"@,
        None => debug_text(v),
    }
}

/// The message for entry `i` of a module list that is not a mapping.
pub open spec fn item_error(ident: Seq<char>, field: Seq<char>, i: nat, v: Yaml) -> Seq<char> {
    "Bundle '"@ + ident + "' has malformed "@ + field + "["@ + decimal(i)
        + "]: expected dict with 'module' and 'source' keys, got "@ + kind_name(v) + " "@
        + item_repr(v) + format_hint(field)
}

/// A source given relative to the bundle (`./` or `../`).
pub open spec fn is_relative_source(src: Seq<char>) -> bool {
    is_prefix("./"@, src) || is_prefix("../"@, src)
}

/// A module entry as loading keeps it: with a base path, a relative string
/// `source` of a mapping entry is joined onto the base (and the entry loses
/// its tags); anything else is kept as it is.
pub open spec fn module_entry_model(item: Yaml, base: Option<Seq<char>>) -> Yaml {
    match base {
        None => item,
        Some(bp) => match untag(item) {
            Yaml::Dict(m) => match map_get_str(m, "source"@) {
                Some(Yaml::Str(src)) => if is_relative_source(src) {
                    Yaml::Dict(map_insert(m, Yaml::Str("source"@), Yaml::Str(join_text(bp, src))))
                } else {
                    item
                },
                _ => item,
            },
            _ => item,
        },
    }
}

/// Entry `i` is the first entry of `xs` that is not a mapping.
pub open spec fn first_non_dict(xs: Seq<Yaml>, i: int) -> bool {
    &&& 0 <= i < xs.len()
    &&& !is_dict(xs[i])
    &&& forall|j: int| 0 <= j < i ==> is_dict(#[trigger] xs[j])
}

/// A module list (providers, tools or hooks) as loading reads it: absent or
/// null gives none; a list of mappings gives its entries; anything else is
/// refused with the message saying what is wrong.
pub open spec fn module_list_model(
    items: Option<Yaml>,
    field: Seq<char>,
    ident: Seq<char>,
    base: Option<Seq<char>>,
) -> Result<Seq<Yaml>, Seq<char>> {
    match items {
        None => Ok(Seq::empty()),
        Some(v) => if v is Null {
            Ok(Seq::empty())
        } else {
            match untag(v) {
                Yaml::List(xs) => if exists|i: int| first_non_dict(xs, i) {
                    let i = choose|i: int| first_non_dict(xs, i);
                    Err(item_error(ident, field, i as nat, xs[i]))
                } else {
                    Ok(Seq::new(xs.len(), |i: int| module_entry_model(xs[i], base)))
                },
                _ => Err(list_error(ident, field, v)),
            }
        },
    }
}

/// A module entry as loading keeps it.
fn module_entry(item: &YamlValue, base: Option<&str>) -> (r: YamlValue)
    ensures
        r@ == module_entry_model(item@, match base {
            Some(b) => Some(b@),
            None => None,
        }),
{
    proof {
        reveal_strlit("./");
        reveal_strlit("../");
    }
    if let Some(bp) = base {
        if let Some(m) = value_as_mapping(item) {
            if let Some(YamlValue::String(src)) = mapping_get_str(m, "source") {
                if str_starts_with(src.as_str(), "./") || str_starts_with(src.as_str(), "../") {
                    let resolved = join_path(bp, src.as_str());
                    let mut new_map: Vec<(YamlValue, YamlValue)> = crate::dicts::copy_entries(m);
                    mapping_insert(&mut new_map, str_value("source"), YamlValue::String(resolved));
                    proof {
                        crate::value::lemma_dict_view(new_map);
                    }
                    return YamlValue::Mapping(new_map);
                }
            }
        }
    }
    copy_value(item)
}

/// Reads a module list, refusing anything but a list of mappings.
pub fn validate_module_list(
    items: Option<&YamlValue>,
    field: &str,
    ident: &str,
    base: Option<&str>,
) -> (r: Result<Vec<YamlValue>, BundleError>)
    ensures
        match (r, module_list_model(
            match items {
                Some(v) => Some(v@),
                None => None,
            },
            field@,
            ident@,
            match base {
                Some(b) => Some(b@),
                None => None,
            },
        )) {
            (Ok(v), Ok(m)) => seq_view(v@) == m,
            (Err(BundleError::LoadError { reason }), Err(msg)) => reason@ == msg,
            _ => false,
        },
{
    let ghost bm: Option<Seq<char>> = match base {
        Some(b) => Some(b@),
        None => None,
    };
    let v = match items {
        None => {
            let e: Vec<YamlValue> = Vec::new();
            assert(seq_view(e@) =~= Seq::<Yaml>::empty());
            return Ok(e);
        },
        Some(v) => v,
    };
    if let YamlValue::Null = v {
        let e: Vec<YamlValue> = Vec::new();
        assert(seq_view(e@) =~= Seq::<Yaml>::empty());
        return Ok(e);
    }
    proof {
        reveal_strlit("Bundle '");
        reveal_strlit("' has malformed ");
        reveal_strlit(": expected list, got ");
        reveal_strlit(".\nCorrect format: ");
        reveal_strlit(": [{module: 'module-id', source: 'git+https://...'}]");
        reveal_strlit("[");
        reveal_strlit("]: expected dict with 'module' and 'source' keys, got ");
        reveal_strlit(" ");
        reveal_strlit("'");
    }
    let xs = match untag_ref(v) {
        YamlValue::Sequence(xs) => xs,
        _ => {
            let mut msg = concat("Bundle '", ident);
            push_str(&mut msg, "' has malformed ");
            push_str(&mut msg, field);
            push_str(&mut msg, ": expected list, got ");
            let t = value_type_name(v);
            push_str(&mut msg, t.as_str());
            push_str(&mut msg, ".\nCorrect format: ");
            push_str(&mut msg, field);
            push_str(&mut msg, ": [{module: 'module-id', source: 'git+https://...'}]");
            return Err(BundleError::LoadError { reason: msg });
        },
    };
    proof {
        lemma_list_view(*xs);
    }
    let ghost ys = seq_view(xs@);
    let mut out: Vec<YamlValue> = Vec::new();
    let mut i: usize = 0;
    while i < xs.len()
        invariant
            i <= xs@.len(),
            ys == seq_view(xs@),
            untag(v@) == Yaml::List(ys),
            !(v@ is Null),
            items == Some(v),
            out@.len() == i,
            forall|j: int| 0 <= j < i ==> is_dict(#[trigger] ys[j]),
            forall|j: int| 0 <= j < i ==> (#[trigger] out@[j])@ == module_entry_model(ys[j], bm),
            bm == match base {
                Some(b) => Some(b@),
                None => None::<Seq<char>>,
            },
        decreases xs@.len() - i,
    {
        let item = &xs[i];
        if !value_is_mapping(item) {
            assert(first_non_dict(ys, i as int));
            proof {
                let w = choose|w: int| first_non_dict(ys, w);
                assert(w == i as int) by {
                    if w < i as int {
                        assert(is_dict(ys[w]));
                    } else if w > i as int {
                        assert(is_dict(ys[i as int]));
                    }
                }
            }
            let mut msg = concat("Bundle '", ident);
            push_str(&mut msg, "' has malformed ");
            push_str(&mut msg, field);
            push_str(&mut msg, "[");
            let n = decimal_text(i as u64);
            push_str(&mut msg, n.as_str());
            push_str(&mut msg, "]: expected dict with 'module' and 'source' keys, got ");
            let t = value_type_name(item);
            push_str(&mut msg, t.as_str());
            push_str(&mut msg, " ");
            let repr = match value_as_str(item) {
                Some(s) => {
                    let q = concat("'", s.as_str());
                    concat(q.as_str(), "'")
                },
                None => debug_string(item),
            };
            push_str(&mut msg, repr.as_str());
            push_str(&mut msg, ".\nCorrect format: ");
            push_str(&mut msg, field);
            push_str(&mut msg, ": [{module: 'module-id', source: 'git+https://...'}]");
            return Err(BundleError::LoadError { reason: msg });
        }
        out.push(module_entry(item, base));
        i += 1;
    }
    assert(!exists|w: int| first_non_dict(ys, w));
    assert(seq_view(out@) =~= Seq::new(ys.len(), |j: int| module_entry_model(ys[j], bm)));
    Ok(out)
}

/// Agents as loading reads them: the string keys of a mapping, each with its
/// value, later entries replacing earlier ones under the same name.
pub open spec fn agents_fold(m: Seq<(Yaml, Yaml)>) -> Seq<(Seq<char>, Yaml)>
    decreases m.len(),
{
    if m.len() == 0 {
        Seq::empty()
    } else {
        let acc = agents_fold(m.drop_last());
        match as_str(m.last().0) {
            Some(k) => text_map_insert(acc, k, m.last().1),
            None => acc,
        }
    }
}

/// The `agents` section read: only an untagged mapping counts.
pub open spec fn parse_agents_model(cfg: Option<Yaml>) -> Seq<(Seq<char>, Yaml)> {
    match cfg {
        Some(Yaml::Dict(m)) => agents_fold(m),
        _ => Seq::empty(),
    }
}

/// The context path a local entry resolves to.
pub open spec fn local_context_path(base: Option<Seq<char>>, v: Seq<char>) -> Seq<char> {
    match base {
        Some(b) => join_text(b, v),
        None => v,
    }
}

/// Context entries as loading reads them: string keys with string values; an
/// entry whose key or value holds `:` refers to another bundle and waits
/// (second part), any other is a local path (first part).
pub open spec fn context_fold(m: Seq<(Yaml, Yaml)>, base: Option<Seq<char>>) -> (
    Seq<(Seq<char>, Seq<char>)>,
    Seq<(Seq<char>, Seq<char>)>,
)
    decreases m.len(),
{
    if m.len() == 0 {
        (Seq::empty(), Seq::empty())
    } else {
        let (r, p) = context_fold(m.drop_last(), base);
        match (as_str(m.last().0), as_str(m.last().1)) {
            (Some(k), Some(v)) => if has_char(k, ':') || has_char(v, ':') {
                (r, text_map_insert(p, k, v))
            } else {
                (text_map_insert(r, k, local_context_path(base, v)), p)
            },
            _ => (r, p),
        }
    }
}

proof fn lemma_context_fold_local(m: Seq<(Yaml, Yaml)>, base: Seq<char>, i: int, k: Seq<char>, v: Seq<char>)
    requires
        0 <= i < m.len(),
        as_str(m[i].0) == Some(k),
        as_str(m[i].1) == Some(v),
        !has_char(k, ':'),
        !has_char(v, ':'),
        forall|j: int| i < j < m.len() ==> as_str(#[trigger] m[j].0) != Some(k),
    ensures
        text_map_get(context_fold(m, Some(base)).0, k) == Some(join_text(base, v)),
    decreases m.len(),
{
    let (r, p) = context_fold(m.drop_last(), Some(base));
    let last = m.last();
    if i == m.len() - 1 {
        crate::ordered::lemma_text_get_after_insert(r, k, local_context_path(Some(base), v), k);
    } else {
        assert forall|j: int| i < j < m.drop_last().len() implies as_str(#[trigger] m.drop_last()[j].0) != Some(k) by {
            assert(m.drop_last()[j] == m[j]);
        }
        assert(m.drop_last()[i] == m[i]);
        lemma_context_fold_local(m.drop_last(), base, i, k, v);
        assert(as_str(m[m.len() - 1].0) != Some(k));
        match (as_str(last.0), as_str(last.1)) {
            (Some(k2), Some(v2)) => {
                if !(has_char(k2, ':') || has_char(v2, ':')) {
                    crate::ordered::lemma_text_get_after_insert(r, k2, local_context_path(Some(base), v2), k);
                }
            },
            _ => {},
        }
    }
}

/// Loading with a base path resolves a local context entry against it: when
/// the bundle's `context` mapping holds, as the last entry under name `k`,
/// the path `v` (neither holding `:`), the loaded bundle's context gives `k`
/// the path `v` joined onto the base path.
pub proof fn law_local_context_joined_to_base(data: Yaml, base: Seq<char>, i: int, k: Seq<char>, v: Seq<char>)
    requires
        map_get_str(bundle_meta(data), "context"@) matches Some(c) && is_dict(c) && 0 <= i < dict_entries(c).len()
            && as_str(dict_entries(c)[i].0) == Some(k) && as_str(dict_entries(c)[i].1) == Some(v) && forall|j: int|
            i < j < dict_entries(c).len() ==> as_str(#[trigger] dict_entries(c)[j].0) != Some(k),
        !has_char(k, ':'),
        !has_char(v, ':'),
    ensures
        from_dict_model(data, Some(base)) matches Ok(bm) ==> text_map_get(bm.context, k) == Some(join_text(base, v)),
{
    let c = map_get_str(bundle_meta(data), "context"@)->0;
    lemma_context_fold_local(dict_entries(c), base, i, k, v);
}

/// The `context` section read (a mapping, under any tags).
pub open spec fn parse_context_model(cfg: Option<Yaml>, base: Option<Seq<char>>) -> (
    Seq<(Seq<char>, Seq<char>)>,
    Seq<(Seq<char>, Seq<char>)>,
) {
    match cfg {
        Some(v) => if is_dict(v) {
            context_fold(dict_entries(v), base)
        } else {
            (Seq::empty(), Seq::empty())
        },
        None => (Seq::empty(), Seq::empty()),
    }
}

/// Reads the `agents` section.
pub fn parse_agents(cfg: Option<&YamlValue>) -> (r: IndexMap<String, YamlValue>)
    ensures
        value_map_entries(r) == parse_agents_model(match cfg {
            Some(v) => Some(v@),
            None => None,
        }),
{
    let mut result = value_map_new();
    let m = match cfg {
        Some(YamlValue::Mapping(m)) => m,
        _ => {
            return result;
        },
    };
    proof {
        crate::value::lemma_dict_view(*m);
    }
    let ghost es = entries_view(m@);
    let mut i: usize = 0;
    assert(es.take(0) =~= Seq::<(Yaml, Yaml)>::empty());
    while i < m.len()
        invariant
            i <= m@.len(),
            es == entries_view(m@),
            value_map_entries(result) == agents_fold(es.take(i as int)),
        decreases m@.len() - i,
    {
        proof {
            let t = es.take(i + 1);
            assert(t.drop_last() =~= es.take(i as int));
            assert(t.last() == es[i as int]);
        }
        if let Some(k) = value_as_str(&m[i].0) {
            value_map_insert(&mut result, copy_string(k), copy_value(&m[i].1));
        }
        i += 1;
    }
    assert(es.take(m@.len() as int) =~= es);
    result
}

/// Reads the `context` section into local paths and references that wait
/// for another bundle.
pub fn parse_context(cfg: Option<&YamlValue>, base: Option<&str>) -> (r: (
    IndexMap<String, String>,
    IndexMap<String, String>,
))
    ensures
        (text_map_entries(r.0), text_map_entries(r.1)) == parse_context_model(
            match cfg {
                Some(v) => Some(v@),
                None => None,
            },
            match base {
                Some(b) => Some(b@),
                None => None,
            },
        ),
{
    let ghost bm: Option<Seq<char>> = match base {
        Some(b) => Some(b@),
        None => None,
    };
    let mut resolved = text_map_new();
    let mut pending = text_map_new();
    let m = match cfg {
        Some(v) => match value_as_mapping(v) {
            Some(m) => m,
            None => {
                return (resolved, pending);
            },
        },
        None => {
            return (resolved, pending);
        },
    };
    let ghost es = entries_view(m@);
    let mut i: usize = 0;
    assert(es.take(0) =~= Seq::<(Yaml, Yaml)>::empty());
    while i < m.len()
        invariant
            i <= m@.len(),
            es == entries_view(m@),
            bm == match base {
                Some(b) => Some(b@),
                None => None::<Seq<char>>,
            },
            (text_map_entries(resolved), text_map_entries(pending)) == context_fold(
                es.take(i as int),
                bm,
            ),
        decreases m@.len() - i,
    {
        proof {
            let t = es.take(i + 1);
            assert(t.drop_last() =~= es.take(i as int));
            assert(t.last() == es[i as int]);
        }
        if let Some(k) = value_as_str(&m[i].0) {
            if let Some(v) = value_as_str(&m[i].1) {
                if str_has_char(k.as_str(), ':') || str_has_char(v.as_str(), ':') {
                    text_map_put(&mut pending, copy_string(k), copy_string(v));
                } else {
                    let path = match base {
                        Some(bp) => join_path(bp, v.as_str()),
                        None => copy_string(v),
                    };
                    text_map_put(&mut resolved, copy_string(k), path);
                }
            }
        }
        i += 1;
    }
    assert(es.take(m@.len() as int) =~= es);
    (resolved, pending)
}

/// The entries of the `bundle` section of a dictionary (none when it is
/// missing or not a mapping).
pub open spec fn bundle_meta(data: Yaml) -> Seq<(Yaml, Yaml)> {
    match value_get_str(data, "bundle"@) {
        Some(b) => dict_entries(b),
        None => Seq::empty(),
    }
}

/// The text under `key`, or `default` when it is missing or not a string.
pub open spec fn meta_text(meta: Seq<(Yaml, Yaml)>, key: Seq<char>, default: Seq<char>) -> Seq<
    char,
> {
    match map_get_str(meta, key) {
        Some(v) => match as_str(v) {
            Some(s) => s,
            None => default,
        },
        None => default,
    }
}

/// The value under `key`, or null.
pub open spec fn meta_value(meta: Seq<(Yaml, Yaml)>, key: Seq<char>) -> Yaml {
    match map_get_str(meta, key) {
        Some(v) => v,
        None => Yaml::Null,
    }
}

/// The elements under `key` when they form a list (under any tags).
pub open spec fn meta_list(meta: Seq<(Yaml, Yaml)>, key: Seq<char>) -> Seq<Yaml> {
    match map_get_str(meta, key) {
        Some(v) => match untag(v) {
            Yaml::List(xs) => xs,
            _ => Seq::empty(),
        },
        None => Seq::empty(),
    }
}

/// How error messages name a bundle: its name, else its base path, else
/// `unknown`.
pub open spec fn bundle_ident(name: Seq<char>, base: Option<Seq<char>>) -> Seq<char> {
    if name.len() > 0 {
        name
    } else {
        match base {
            Some(b) => b,
            None => "unknown"@,
        }
    }
}

/// The bundle a dictionary describes, or the message of the first malformed
/// module list (providers, then tools, then hooks).
pub open spec fn from_dict_model(data: Yaml, base: Option<Seq<char>>) -> Result<
    BundleModel,
    Seq<char>,
> {
    let meta = bundle_meta(data);
    let name = meta_text(meta, "name"@, Seq::empty());
    let ident = bundle_ident(name, base);
    match module_list_model(map_get_str(meta, "providers"@), "providers"@, ident, base) {
        Err(e) => Err(e),
        Ok(providers) => match module_list_model(map_get_str(meta, "tools"@), "tools"@, ident, base) {
            Err(e) => Err(e),
            Ok(tools) => match module_list_model(map_get_str(meta, "hooks"@), "hooks"@, ident, base) {
                Err(e) => Err(e),
                Ok(hooks) => {
                    let (context, pending) = parse_context_model(
                        map_get_str(meta, "context"@),
                        base,
                    );
                    Ok(
                        BundleModel {
                            name: name,
                            version: meta_text(meta, "version"@, "1.0.0"@),
                            description: meta_text(meta, "description"@, Seq::empty()),
                            includes: meta_list(meta, "includes"@),
                            session: meta_value(meta, "session"@),
                            providers: providers,
                            tools: tools,
                            hooks: hooks,
                            spawn: meta_value(meta, "spawn"@),
                            agents: parse_agents_model(map_get_str(meta, "agents"@)),
                            context: context,
                            instruction: None,
                            base_path: base,
                            source_base_paths: Seq::empty(),
                            pending_context: pending,
                            extra: Yaml::Null,
                            source_uri: None,
                        },
                    )
                },
            },
        },
    }
}

/// A loading result matches its model: the same bundle, or a load error with
/// the same message.
pub open spec fn load_matches(r: Result<Bundle, BundleError>, m: Result<BundleModel, Seq<char>>) -> bool {
    match (r, m) {
        (Ok(b), Ok(bm)) => b@ == bm,
        (Err(BundleError::LoadError { reason }), Err(msg)) => reason@ == msg,
        _ => false,
    }
}

/// The model of an optional path argument.
pub open spec fn opt_str(o: Option<&str>) -> Option<Seq<char>> {
    match o {
        Some(s) => Some(s@),
        None => None,
    }
}

fn meta_text_of(meta: &Vec<(YamlValue, YamlValue)>, key: &str, default: &str) -> (r: String)
    ensures
        r@ == meta_text(entries_view(meta@), key@, default@),
{
    match mapping_get_str(meta, key) {
        Some(v) => match value_as_str(v) {
            Some(s) => copy_string(s),
            None => str_to_string(default),
        },
        None => str_to_string(default),
    }
}

impl Bundle {
    /// The bundle a dictionary describes (see `from_dict_model`).
    pub fn from_dict(data: &YamlValue) -> (r: Result<Bundle, BundleError>)
        ensures
            load_matches(r, from_dict_model(data@, None)),
    {
        Self::from_dict_with_base_path_opt(data, None)
    }

    /// The bundle a dictionary describes, its relative paths taken from
    /// `base_path`.
    pub fn from_dict_with_base_path(data: &YamlValue, base_path: &str) -> (r: Result<
        Bundle,
        BundleError,
    >)
        ensures
            load_matches(r, from_dict_model(data@, Some(base_path@))),
    {
        Self::from_dict_with_base_path_opt(data, Some(base_path))
    }

    fn from_dict_with_base_path_opt(data: &YamlValue, base_path: Option<&str>) -> (r: Result<
        Bundle,
        BundleError,
    >)
        ensures
            load_matches(r, from_dict_model(data@, opt_str(base_path))),
    {
        proof {
            reveal_strlit("unknown");
            reveal_strlit("1.0.0");
            reveal_strlit("");
        }
        let ghost bm = opt_str(base_path);
        let empty: Vec<(YamlValue, YamlValue)> = Vec::new();
        let meta: &Vec<(YamlValue, YamlValue)> = match value_as_mapping(data) {
            Some(m) => match mapping_get_str(m, "bundle") {
                Some(b) => match value_as_mapping(b) {
                    Some(mm) => mm,
                    None => &empty,
                },
                None => &empty,
            },
            None => &empty,
        };
        let ghost me = entries_view(meta@);
        assert(me == bundle_meta(data@));
        let name = meta_text_of(meta, "name", "");
        let version = meta_text_of(meta, "version", "1.0.0");
        let description = meta_text_of(meta, "description", "");
        let ident = if name.as_str().unicode_len() > 0 {
            copy_string(&name)
        } else {
            match base_path {
                Some(bp) => str_to_string(bp),
                None => str_to_string("unknown"),
            }
        };
        assert(ident@ == bundle_ident(name@, bm));
        let item_providers = mapping_get_str(meta, "providers");
        assert(match item_providers {
            Some(v) => Some(v@),
            None => None,
        } == map_get_str(me, "providers"@));
        let providers = match validate_module_list(
            item_providers,
            "providers",
            ident.as_str(),
            base_path,
        ) {
            Ok(v) => v,
            Err(e) => {
                return Err(e);
            },
        };
        let item_tools = mapping_get_str(meta, "tools");
        assert(match item_tools {
            Some(v) => Some(v@),
            None => None,
        } == map_get_str(me, "tools"@));
        let tools = match validate_module_list(
            item_tools,
            "tools",
            ident.as_str(),
            base_path,
        ) {
            Ok(v) => v,
            Err(e) => {
                return Err(e);
            },
        };
        let item_hooks = mapping_get_str(meta, "hooks");
        assert(match item_hooks {
            Some(v) => Some(v@),
            None => None,
        } == map_get_str(me, "hooks"@));
        let hooks = match validate_module_list(
            item_hooks,
            "hooks",
            ident.as_str(),
            base_path,
        ) {
            Ok(v) => v,
            Err(e) => {
                return Err(e);
            },
        };
        let session = match mapping_get_str(meta, "session") {
            Some(v) => copy_value(v),
            None => YamlValue::Null,
        };
        let spawn = match mapping_get_str(meta, "spawn") {
            Some(v) => copy_value(v),
            None => YamlValue::Null,
        };
        let includes = match mapping_get_str(meta, "includes") {
            Some(v) => match untag_ref(v) {
                YamlValue::Sequence(xs) => {
                    proof {
                        lemma_list_view(*xs);
                    }
                    crate::bundle::copy_values(xs)
                },
                _ => Vec::new(),
            },
            None => Vec::new(),
        };
        assert(seq_view(includes@) == meta_list(me, "includes"@));
        let (context, pending) = parse_context(mapping_get_str(meta, "context"), base_path);
        let agents = parse_agents(mapping_get_str(meta, "agents"));
        let b = Bundle {
            name: name,
            version: version,
            description: description,
            includes: includes,
            session: session,
            providers: providers,
            tools: tools,
            hooks: hooks,
            spawn: spawn,
            agents: agents,
            context: context,
            instruction: None,
            base_path: match base_path {
                Some(bp) => Some(str_to_string(bp)),
                None => None,
            },
            source_base_paths: text_map_new(),
            pending_context: pending,
            extra: YamlValue::Null,
            source_uri: None,
        };
        assert(b@.session == meta_value(me, "session"@));
        assert(b@.spawn == meta_value(me, "spawn"@));
        assert(b@.agents == parse_agents_model(map_get_str(me, "agents"@)));
        assert((b@.context, b@.pending_context) == parse_context_model(map_get_str(me, "context"@), bm));
        assert(b@.base_path == bm);
        assert(b@.name == meta_text(me, "name"@, Seq::empty()));
        assert(b@.description == meta_text(me, "description"@, Seq::empty()));
        Ok(b)
    }
}

/// A value that stands for "nothing here": null, or a mapping without entries
/// (tags are not looked through).
pub open spec fn null_or_empty(v: Yaml) -> bool {
    v is Null || (v matches Yaml::Dict(m) && m.len() == 0)
}

/// Whether a value is null or an empty mapping (`is_null_or_empty_mapping`).
pub fn is_null_or_empty_mapping(v: &YamlValue) -> (r: bool)
    ensures
        r == null_or_empty(v@),
{
    match v {
        YamlValue::Null => true,
        YamlValue::Mapping(m) => {
            proof {
                crate::value::lemma_dict_view(*m);
            }
            m.len() == 0
        },
        _ => false,
    }
}

/// The entries written for candidate entries `(key, written?, value)`, in order.
pub open spec fn written_entries(cs: Seq<(Seq<char>, bool, Yaml)>) -> Seq<(Yaml, Yaml)>
    decreases cs.len(),
{
    if cs.len() == 0 {
        Seq::empty()
    } else {
        let acc = written_entries(cs.drop_last());
        if cs.last().1 {
            acc.push((Yaml::Str(cs.last().0), cs.last().2))
        } else {
            acc
        }
    }
}

/// The value a candidate list gives key `k`: that of the last candidate
/// under `k` when it is written.
pub open spec fn cand_get(cs: Seq<(Seq<char>, bool, Yaml)>, k: Seq<char>) -> Option<Yaml>
    decreases cs.len(),
{
    if cs.len() == 0 {
        None
    } else if cs.last().0 == k {
        if cs.last().1 {
            Some(cs.last().2)
        } else {
            None
        }
    } else {
        cand_get(cs.drop_last(), k)
    }
}

/// No two candidates share a key.
pub open spec fn distinct_cands(cs: Seq<(Seq<char>, bool, Yaml)>) -> bool {
    forall|i: int, j: int| 0 <= i < j < cs.len() ==> #[trigger] cs[i].0 != #[trigger] cs[j].0
}

proof fn lemma_cand_absent(cs: Seq<(Seq<char>, bool, Yaml)>, k: Seq<char>)
    requires
        forall|i: int| 0 <= i < cs.len() ==> #[trigger] cs[i].0 != k,
    ensures
        cand_get(cs, k) is None,
        map_get_str(written_entries(cs), k) is None,
    decreases cs.len(),
{
    if cs.len() > 0 {
        assert(cs.last().0 != k);
        lemma_cand_absent(cs.drop_last(), k);
        crate::value::lemma_get_str_push(
            written_entries(cs.drop_last()),
            (Yaml::Str(cs.last().0), cs.last().2),
            k,
        );
    }
}

/// Looking a key up in written candidates finds what the candidates give it.
proof fn lemma_written_lookup(cs: Seq<(Seq<char>, bool, Yaml)>, k: Seq<char>)
    requires
        distinct_cands(cs),
    ensures
        map_get_str(written_entries(cs), k) == cand_get(cs, k),
    decreases cs.len(),
{
    if cs.len() > 0 {
        let init = cs.drop_last();
        assert(distinct_cands(init)) by {
            assert forall|i: int, j: int| 0 <= i < j < init.len() implies #[trigger] init[i].0
                != #[trigger] init[j].0 by {
                assert(init[i] == cs[i] && init[j] == cs[j]);
            }
        }
        lemma_written_lookup(init, k);
        crate::value::lemma_get_str_push(
            written_entries(init),
            (Yaml::Str(cs.last().0), cs.last().2),
            k,
        );
        if cs.last().0 == k {
            assert forall|i: int| 0 <= i < init.len() implies #[trigger] init[i].0 != k by {
                assert(init[i] == cs[i]);
                assert(cs[i].0 != cs[cs.len() - 1].0);
            }
            lemma_cand_absent(init, k);
        }
    }
}

proof fn lemma_written_step(cs: Seq<(Seq<char>, bool, Yaml)>, j: int)
    requires
        0 <= j < cs.len(),
    ensures
        written_entries(cs.take(j + 1)) == if cs[j].1 {
            written_entries(cs.take(j)).push((Yaml::Str(cs[j].0), cs[j].2))
        } else {
            written_entries(cs.take(j))
        },
{
    let t = cs.take(j + 1);
    assert(t.drop_last() =~= cs.take(j));
    assert(t.last() == cs[j]);
}

/// A mapping of names to values, as dictionary entries with string keys.
pub open spec fn named_entries(a: Seq<(Seq<char>, Yaml)>) -> Seq<(Yaml, Yaml)> {
    Seq::new(a.len(), |i: int| (Yaml::Str(a[i].0), a[i].1))
}

/// A mapping of names to texts, as dictionary entries of strings.
pub open spec fn text_entries(a: Seq<(Seq<char>, Seq<char>)>) -> Seq<(Yaml, Yaml)> {
    Seq::new(a.len(), |i: int| (Yaml::Str(a[i].0), Yaml::Str(a[i].1)))
}

/// What `to_dict` writes under `bundle`, before filtering: name and version
/// always; the rest only when they hold something.
pub open spec fn dict_cands(b: BundleModel) -> Seq<(Seq<char>, bool, Yaml)> {
    seq![
        ("name"@, true, Yaml::Str(b.name)),
        ("version"@, true, Yaml::Str(b.version)),
        ("description"@, b.description.len() > 0, Yaml::Str(b.description)),
        ("providers"@, b.providers.len() > 0, Yaml::List(b.providers)),
        ("tools"@, b.tools.len() > 0, Yaml::List(b.tools)),
        ("hooks"@, b.hooks.len() > 0, Yaml::List(b.hooks)),
        ("session"@, !null_or_empty(b.session), b.session),
        ("spawn"@, !null_or_empty(b.spawn), b.spawn),
        ("agents"@, b.agents.len() > 0, Yaml::Dict(named_entries(b.agents))),
        ("context"@, b.context.len() > 0, Yaml::Dict(text_entries(b.context))),
        ("includes"@, b.includes.len() > 0, Yaml::List(b.includes)),
    ]
}

/// The dictionary a bundle is written as: everything under a `bundle` key.
pub open spec fn to_dict_model(b: BundleModel) -> Yaml {
    Yaml::Dict(seq![(Yaml::Str("bundle"@), Yaml::Dict(written_entries(dict_cands(b))))])
}

/// The sections of a mount plan, before filtering.
pub open spec fn mount_cands(b: BundleModel) -> Seq<(Seq<char>, bool, Yaml)> {
    seq![
        ("session"@, !null_or_empty(b.session), b.session),
        ("providers"@, b.providers.len() > 0, Yaml::List(b.providers)),
        ("tools"@, b.tools.len() > 0, Yaml::List(b.tools)),
        ("hooks"@, b.hooks.len() > 0, Yaml::List(b.hooks)),
        ("agents"@, b.agents.len() > 0, Yaml::Dict(named_entries(b.agents))),
        ("spawn"@, !null_or_empty(b.spawn), b.spawn),
    ]
}

/// The mount plan of a bundle: its non-empty sections.
pub open spec fn mount_plan_model(b: BundleModel) -> Yaml {
    Yaml::Dict(written_entries(mount_cands(b)))
}

fn put_entry(meta: &mut Vec<(YamlValue, YamlValue)>, key: &str, v: YamlValue)
    ensures
        entries_view(final(meta)@) == entries_view(old(meta)@).push((Yaml::Str(key@), v@)),
{
    let ghost before = entries_view(meta@);
    meta.push((str_value(key), v));
    assert(entries_view(meta@) =~= before.push((Yaml::Str(key@), v@)));
}

fn list_value(xs: &Vec<YamlValue>) -> (r: YamlValue)
    ensures
        r@ == Yaml::List(seq_view(xs@)),
{
    let c = crate::bundle::copy_values(xs);
    proof {
        lemma_list_view(c);
    }
    YamlValue::Sequence(c)
}

fn agents_value(m: &IndexMap<String, YamlValue>) -> (r: Vec<(YamlValue, YamlValue)>)
    ensures
        entries_view(r@) == named_entries(value_map_entries(*m)),
        distinct_names(value_map_entries(*m)),
{
    let es = crate::ordered::value_map_to_vec(m);
    assert forall|a: int, b: int| 0 <= a < b < value_map_entries(*m).len() implies #[trigger] value_map_entries(
        *m,
    )[a].0 != #[trigger] value_map_entries(*m)[b].0 by {
        assert(es@[a].0@ != es@[b].0@);
    }
    let mut out: Vec<(YamlValue, YamlValue)> = Vec::new();
    let mut i: usize = 0;
    while i < es.len()
        invariant
            i <= es@.len(),
            es@.len() == value_map_entries(*m).len(),
            forall|j: int|
                0 <= j < es@.len() ==> (#[trigger] es@[j]).0@ == value_map_entries(*m)[j].0
                    && es@[j].1@ == value_map_entries(*m)[j].1,
            entries_view(out@) == named_entries(value_map_entries(*m)).take(i as int),
        decreases es@.len() - i,
    {
        let ghost before = entries_view(out@);
        let key = YamlValue::String(copy_string(&es[i].0));
        let val = copy_value(&es[i].1);
        assert(key@ == Yaml::Str(es@[i as int].0@));
        out.push((key, val));
        assert(entries_view(out@) =~= before.push((Yaml::Str(es@[i as int].0@), es@[i as int].1@)));
        assert(entries_view(out@) =~= named_entries(value_map_entries(*m)).take(i + 1));
        i += 1;
    }
    assert(named_entries(value_map_entries(*m)).take(es@.len() as int) =~= named_entries(
        value_map_entries(*m),
    ));
    out
}

fn context_value(m: &IndexMap<String, String>) -> (r: Vec<(YamlValue, YamlValue)>)
    ensures
        entries_view(r@) == text_entries(text_map_entries(*m)),
        distinct_names(text_map_entries(*m)),
{
    let es = crate::ordered::text_map_to_vec(m);
    assert forall|a: int, b: int| 0 <= a < b < text_map_entries(*m).len() implies #[trigger] text_map_entries(
        *m,
    )[a].0 != #[trigger] text_map_entries(*m)[b].0 by {
        assert(es@[a].0@ != es@[b].0@);
    }
    let mut out: Vec<(YamlValue, YamlValue)> = Vec::new();
    let mut i: usize = 0;
    while i < es.len()
        invariant
            i <= es@.len(),
            es@.len() == text_map_entries(*m).len(),
            forall|j: int|
                0 <= j < es@.len() ==> (#[trigger] es@[j]).0@ == text_map_entries(*m)[j].0
                    && es@[j].1@ == text_map_entries(*m)[j].1,
            entries_view(out@) == text_entries(text_map_entries(*m)).take(i as int),
        decreases es@.len() - i,
    {
        let ghost before = entries_view(out@);
        let key = YamlValue::String(copy_string(&es[i].0));
        let val = YamlValue::String(copy_string(&es[i].1));
        assert(key@ == Yaml::Str(es@[i as int].0@));
        assert(val@ == Yaml::Str(es@[i as int].1@));
        out.push((key, val));
        assert(entries_view(out@) =~= before.push((Yaml::Str(es@[i as int].0@), Yaml::Str(es@[i as int].1@))));
        assert(entries_view(out@) =~= text_entries(text_map_entries(*m)).take(i + 1));
        i += 1;
    }
    assert(text_entries(text_map_entries(*m)).take(es@.len() as int) =~= text_entries(
        text_map_entries(*m),
    ));
    out
}

impl Bundle {
    /// The dictionary `from_dict` reads this bundle back from: everything under
    /// `bundle`; name and version always, other sections only when they hold
    /// something.
    #[verifier::spinoff_prover]
    #[verifier::rlimit(40)]
    pub fn to_dict(&self) -> (r: YamlValue)
        ensures
            r@ == to_dict_model(self@),
            distinct_names(self@.agents),
            distinct_names(self@.context),
    {
        let ghost cs = dict_cands(self@);
        let mut meta: Vec<(YamlValue, YamlValue)> = Vec::new();
        assert(cs.take(0) =~= Seq::<(Seq<char>, bool, Yaml)>::empty());
        proof { lemma_written_step(cs, 0); }
        put_entry(&mut meta, "name", YamlValue::String(copy_string(&self.name)));
        assert(entries_view(meta@) == written_entries(cs.take(1)));
        proof { lemma_written_step(cs, 1); }
        put_entry(&mut meta, "version", YamlValue::String(copy_string(&self.version)));
        assert(entries_view(meta@) == written_entries(cs.take(2)));
        proof { lemma_written_step(cs, 2); }
        if self.description.as_str().unicode_len() > 0 {
            put_entry(&mut meta, "description", YamlValue::String(copy_string(&self.description)));
        }
        assert(entries_view(meta@) == written_entries(cs.take(3)));
        proof { lemma_written_step(cs, 3); }
        if self.providers.len() > 0 {
            put_entry(&mut meta, "providers", list_value(&self.providers));
        }
        assert(entries_view(meta@) == written_entries(cs.take(4)));
        proof { lemma_written_step(cs, 4); }
        if self.tools.len() > 0 {
            put_entry(&mut meta, "tools", list_value(&self.tools));
        }
        assert(entries_view(meta@) == written_entries(cs.take(5)));
        proof { lemma_written_step(cs, 5); }
        if self.hooks.len() > 0 {
            put_entry(&mut meta, "hooks", list_value(&self.hooks));
        }
        assert(entries_view(meta@) == written_entries(cs.take(6)));
        proof { lemma_written_step(cs, 6); }
        if !is_null_or_empty_mapping(&self.session) {
            put_entry(&mut meta, "session", copy_value(&self.session));
        }
        assert(entries_view(meta@) == written_entries(cs.take(7)));
        proof { lemma_written_step(cs, 7); }
        if !is_null_or_empty_mapping(&self.spawn) {
            put_entry(&mut meta, "spawn", copy_value(&self.spawn));
        }
        assert(entries_view(meta@) == written_entries(cs.take(8)));
        proof { lemma_written_step(cs, 8); }
        let agents = agents_value(&self.agents);
        assert(entries_view(agents@).len() == agents@.len());
        if agents.len() > 0 {
            proof {
                crate::value::lemma_dict_view(agents);
            }
            put_entry(&mut meta, "agents", YamlValue::Mapping(agents));
        }
        assert(entries_view(meta@) == written_entries(cs.take(9)));
        proof { lemma_written_step(cs, 9); }
        let context = context_value(&self.context);
        assert(entries_view(context@).len() == context@.len());
        if context.len() > 0 {
            proof {
                crate::value::lemma_dict_view(context);
            }
            put_entry(&mut meta, "context", YamlValue::Mapping(context));
        }
        assert(entries_view(meta@) == written_entries(cs.take(10)));
        proof { lemma_written_step(cs, 10); }
        if self.includes.len() > 0 {
            put_entry(&mut meta, "includes", list_value(&self.includes));
        }
        assert(entries_view(meta@) == written_entries(cs.take(11)));
        assert(cs.take(11) =~= cs);
        let mut top: Vec<(YamlValue, YamlValue)> = Vec::new();
        proof {
            crate::value::lemma_dict_view(meta);
        }
        let ghost inner = entries_view(meta@);
        assert(inner == written_entries(cs));
        put_entry(&mut top, "bundle", YamlValue::Mapping(meta));
        assert(entries_view(top@) =~= seq![(Yaml::Str("bundle"@), Yaml::Dict(inner))]);
        proof {
            crate::value::lemma_dict_view(top);
        }
        YamlValue::Mapping(top)
    }

    /// The mount plan: the session, module lists, agents and spawn sections
    /// that hold something (context and instruction are not part of it).
    pub fn to_mount_plan(&self) -> (r: YamlValue)
        ensures
            r@ == mount_plan_model(self@),
    {
        let ghost cs = mount_cands(self@);
        let mut map: Vec<(YamlValue, YamlValue)> = Vec::new();
        assert(cs.take(0) =~= Seq::<(Seq<char>, bool, Yaml)>::empty());
        proof { lemma_written_step(cs, 0); }
        if !is_null_or_empty_mapping(&self.session) {
            put_entry(&mut map, "session", copy_value(&self.session));
        }
        assert(entries_view(map@) == written_entries(cs.take(1)));
        proof { lemma_written_step(cs, 1); }
        if self.providers.len() > 0 {
            put_entry(&mut map, "providers", list_value(&self.providers));
        }
        assert(entries_view(map@) == written_entries(cs.take(2)));
        proof { lemma_written_step(cs, 2); }
        if self.tools.len() > 0 {
            put_entry(&mut map, "tools", list_value(&self.tools));
        }
        assert(entries_view(map@) == written_entries(cs.take(3)));
        proof { lemma_written_step(cs, 3); }
        if self.hooks.len() > 0 {
            put_entry(&mut map, "hooks", list_value(&self.hooks));
        }
        assert(entries_view(map@) == written_entries(cs.take(4)));
        proof { lemma_written_step(cs, 4); }
        let agents = agents_value(&self.agents);
        assert(entries_view(agents@).len() == agents@.len());
        if agents.len() > 0 {
            proof {
                crate::value::lemma_dict_view(agents);
            }
            put_entry(&mut map, "agents", YamlValue::Mapping(agents));
        }
        assert(entries_view(map@) == written_entries(cs.take(5)));
        proof { lemma_written_step(cs, 5); }
        if !is_null_or_empty_mapping(&self.spawn) {
            put_entry(&mut map, "spawn", copy_value(&self.spawn));
        }
        assert(entries_view(map@) == written_entries(cs.take(6)));
        assert(cs.take(6) =~= cs);
        proof {
            crate::value::lemma_dict_view(map);
        }
        YamlValue::Mapping(map)
    }
}

/// No two entries share a name (as in a map).
pub open spec fn distinct_names<V>(s: Seq<(Seq<char>, V)>) -> bool {
    forall|i: int, j: int| 0 <= i < j < s.len() ==> #[trigger] s[i].0 != #[trigger] s[j].0
}

proof fn lemma_cand_at(cs: Seq<(Seq<char>, bool, Yaml)>, j: int, k: Seq<char>)
    requires
        distinct_cands(cs),
        0 <= j < cs.len(),
        cs[j].0 == k,
    ensures
        cand_get(cs, k) == if cs[j].1 {
            Some(cs[j].2)
        } else {
            None
        },
    decreases cs.len(),
{
    if j < cs.len() - 1 {
        let init = cs.drop_last();
        assert(cs[j].0 != cs[cs.len() - 1].0);
        assert(distinct_cands(init)) by {
            assert forall|a: int, b: int| 0 <= a < b < init.len() implies #[trigger] init[a].0
                != #[trigger] init[b].0 by {
                assert(init[a] == cs[a] && init[b] == cs[b]);
            }
        }
        assert(init[j] == cs[j]);
        lemma_cand_at(init, j, k);
    }
}

proof fn lemma_no_key<V>(s: Seq<(Seq<char>, V)>, k: Seq<char>)
    requires
        forall|i: int| 0 <= i < s.len() ==> #[trigger] s[i].0 != k,
    ensures
        forall|v: V| #[trigger] text_map_insert(s, k, v) == s.push((k, v)),
{
}

proof fn lemma_agents_read_back(a: Seq<(Seq<char>, Yaml)>)
    requires
        distinct_names(a),
    ensures
        agents_fold(named_entries(a)) == a,
    decreases a.len(),
{
    if a.len() > 0 {
        let init = a.drop_last();
        assert(distinct_names(init)) by {
            assert forall|x: int, y: int| 0 <= x < y < init.len() implies #[trigger] init[x].0
                != #[trigger] init[y].0 by {
                assert(init[x] == a[x] && init[y] == a[y]);
            }
        }
        lemma_agents_read_back(init);
        let m = named_entries(a);
        assert(m.drop_last() =~= named_entries(init));
        assert(m.last() == (Yaml::Str(a.last().0), a.last().1));
        assert forall|i: int| 0 <= i < init.len() implies #[trigger] init[i].0 != a.last().0 by {
            assert(init[i] == a[i]);
        }
        lemma_no_key(init, a.last().0);
        assert(init.push(a.last()) =~= a);
    }
}

proof fn lemma_context_read_back(c: Seq<(Seq<char>, Seq<char>)>)
    requires
        distinct_names(c),
        forall|i: int| 0 <= i < c.len() ==> !has_char(#[trigger] c[i].0, ':') && !has_char(c[i].1, ':'),
    ensures
        context_fold(text_entries(c), None) == (c, Seq::<(Seq<char>, Seq<char>)>::empty()),
    decreases c.len(),
{
    if c.len() > 0 {
        let init = c.drop_last();
        assert(distinct_names(init)) by {
            assert forall|x: int, y: int| 0 <= x < y < init.len() implies #[trigger] init[x].0
                != #[trigger] init[y].0 by {
                assert(init[x] == c[x] && init[y] == c[y]);
            }
        }
        assert forall|i: int| 0 <= i < init.len() implies !has_char(#[trigger] init[i].0, ':')
            && !has_char(init[i].1, ':') by {
            assert(init[i] == c[i]);
        }
        lemma_context_read_back(init);
        let m = text_entries(c);
        assert(m.drop_last() =~= text_entries(init));
        assert(m.last() == (Yaml::Str(c.last().0), Yaml::Str(c.last().1)));
        assert(!has_char(c[c.len() - 1].0, ':') && !has_char(c[c.len() - 1].1, ':'));
        assert forall|i: int| 0 <= i < init.len() implies #[trigger] init[i].0 != c.last().0 by {
            assert(init[i] == c[i]);
        }
        lemma_no_key(init, c.last().0);
        assert(init.push(c.last()) =~= c);
    }
}

proof fn lemma_dict_keys_distinct(b: BundleModel)
    ensures
        distinct_cands(dict_cands(b)),
{
    reveal_strlit("name");
    reveal_strlit("version");
    reveal_strlit("description");
    reveal_strlit("providers");
    reveal_strlit("tools");
    reveal_strlit("hooks");
    reveal_strlit("session");
    reveal_strlit("spawn");
    reveal_strlit("agents");
    reveal_strlit("context");
    reveal_strlit("includes");
    let cs = dict_cands(b);
    let sig = Seq::new(cs.len(), |i: int| (cs[i].0.len(), cs[i].0[0]));
    assert(sig =~= seq![
        (4nat, 'n'), (7nat, 'v'), (11nat, 'd'), (9nat, 'p'), (5nat, 't'), (5nat, 'h'),
        (7nat, 's'), (5nat, 's'), (6nat, 'a'), (7nat, 'c'), (8nat, 'i'),
    ]);
    assert forall|i: int, j: int| 0 <= i < j < cs.len() implies #[trigger] cs[i].0
        != #[trigger] cs[j].0 by {
        assert(sig[i] != sig[j]);
    }
}

/// What a bundle reads back as from its own dictionary: the sections that
/// `to_dict` writes, with a null or empty session or spawn read as null, and
/// nothing of what it leaves out.
pub open spec fn read_back_model(b: BundleModel) -> BundleModel {
    BundleModel {
        name: b.name,
        version: b.version,
        description: b.description,
        includes: b.includes,
        session: if null_or_empty(b.session) {
            Yaml::Null
        } else {
            b.session
        },
        providers: b.providers,
        tools: b.tools,
        hooks: b.hooks,
        spawn: if null_or_empty(b.spawn) {
            Yaml::Null
        } else {
            b.spawn
        },
        agents: b.agents,
        context: b.context,
        instruction: None,
        base_path: None,
        source_base_paths: Seq::empty(),
        pending_context: Seq::empty(),
        extra: Yaml::Null,
        source_uri: None,
    }
}

proof fn lemma_module_list_read_back(xs: Seq<Yaml>, field: Seq<char>, ident: Seq<char>)
    requires
        forall|i: int| 0 <= i < xs.len() ==> is_dict(#[trigger] xs[i]),
    ensures
        module_list_model(
            if xs.len() > 0 {
                Some(Yaml::List(xs))
            } else {
                None
            },
            field,
            ident,
            None,
        ) == Ok::<Seq<Yaml>, Seq<char>>(xs),
{
    if xs.len() > 0 {
        assert(!exists|i: int| first_non_dict(xs, i));
        assert(Seq::new(xs.len(), |i: int| module_entry_model(xs[i], None)) =~= xs);
    } else {
        assert(xs =~= Seq::<Yaml>::empty());
    }
}

/// Reading back what `to_dict` writes gives the bundle again: name, version,
/// description, includes, module lists, session and spawn (a null or empty
/// one as null), agents and context. It holds for bundles whose module-list
/// entries are all mappings and whose context names and paths hold no `:`,
/// with each agent and context name held once (as `Bundle::to_dict` states
/// of every bundle).
pub proof fn law_dict_round_trip(b: BundleModel)
    requires
        distinct_names(b.agents),
        distinct_names(b.context),
        forall|i: int| 0 <= i < b.providers.len() ==> is_dict(#[trigger] b.providers[i]),
        forall|i: int| 0 <= i < b.tools.len() ==> is_dict(#[trigger] b.tools[i]),
        forall|i: int| 0 <= i < b.hooks.len() ==> is_dict(#[trigger] b.hooks[i]),
        forall|i: int|
            0 <= i < b.context.len() ==> !has_char(#[trigger] b.context[i].0, ':') && !has_char(
                b.context[i].1,
                ':',
            ),
    ensures
        from_dict_model(to_dict_model(b), None) == Ok::<BundleModel, Seq<char>>(read_back_model(b)),
{
    reveal_strlit("bundle");
    reveal_strlit("name");
    reveal_strlit("version");
    reveal_strlit("description");
    reveal_strlit("providers");
    reveal_strlit("tools");
    reveal_strlit("hooks");
    reveal_strlit("session");
    reveal_strlit("spawn");
    reveal_strlit("agents");
    reveal_strlit("context");
    reveal_strlit("includes");
    let cs = dict_cands(b);
    let w = written_entries(cs);
    let top = seq![(Yaml::Str("bundle"@), Yaml::Dict(w))];
    crate::value::lemma_get_str_push(Seq::empty(), (Yaml::Str("bundle"@), Yaml::Dict(w)), "bundle"@);
    assert(Seq::<(Yaml, Yaml)>::empty().push((Yaml::Str("bundle"@), Yaml::Dict(w))) =~= top);
    assert(bundle_meta(to_dict_model(b)) == w);
    lemma_dict_keys_distinct(b);
    lemma_written_lookup(cs, "name"@);
    lemma_cand_at(cs, 0, "name"@);
    lemma_written_lookup(cs, "version"@);
    lemma_cand_at(cs, 1, "version"@);
    lemma_written_lookup(cs, "description"@);
    lemma_cand_at(cs, 2, "description"@);
    lemma_written_lookup(cs, "providers"@);
    lemma_cand_at(cs, 3, "providers"@);
    lemma_written_lookup(cs, "tools"@);
    lemma_cand_at(cs, 4, "tools"@);
    lemma_written_lookup(cs, "hooks"@);
    lemma_cand_at(cs, 5, "hooks"@);
    lemma_written_lookup(cs, "session"@);
    lemma_cand_at(cs, 6, "session"@);
    lemma_written_lookup(cs, "spawn"@);
    lemma_cand_at(cs, 7, "spawn"@);
    lemma_written_lookup(cs, "agents"@);
    lemma_cand_at(cs, 8, "agents"@);
    lemma_written_lookup(cs, "context"@);
    lemma_cand_at(cs, 9, "context"@);
    lemma_written_lookup(cs, "includes"@);
    lemma_cand_at(cs, 10, "includes"@);
    let ident = bundle_ident(b.name, None);
    lemma_module_list_read_back(b.providers, "providers"@, ident);
    lemma_module_list_read_back(b.tools, "tools"@, ident);
    lemma_module_list_read_back(b.hooks, "hooks"@, ident);
    lemma_agents_read_back(b.agents);
    lemma_context_read_back(b.context);
    if b.agents.len() == 0 {
        assert(b.agents =~= Seq::<(Seq<char>, Yaml)>::empty());
    }
    if b.context.len() == 0 {
        assert(b.context =~= Seq::<(Seq<char>, Seq<char>)>::empty());
    }
    if b.includes.len() == 0 {
        assert(b.includes =~= Seq::<Yaml>::empty());
    }
    if b.description.len() == 0 {
        assert(b.description =~= Seq::<char>::empty());
    }
}

} // verus!
