//! Composing bundles: an overlay laid over a base, one after another, by five
//! strategies (deep merge, merge by module id, update by name, accumulate
//! under a namespace, later replaces).
use vstd::prelude::*;
use vstd::string::StrSliceExecFns;
use indexmap::IndexMap;
use crate::value::{Yaml, YamlValue, is_null, seq_view, yaml_eq, copy_value, value_is_null, yaml_equal};
use crate::ordered::{
    text_map_entries, text_map_get, text_map_insert, text_map_put, text_map_lookup, text_map_to_vec,
    value_map_entries, value_map_insert, value_map_to_vec,
};
use crate::text::{concat, copy_string, has_char, str_has_char};
use crate::dicts::{deep_merge, merge_model, merge_module_lists, merged_modules, values_view};
use crate::bundle::{Bundle, BundleModel, copy_opt, opt_text};
use crate::bundle_dict::{null_or_empty, is_null_or_empty_mapping};
use crate::value::is_dict;

verus! {

broadcast use vstd::std_specs::vec::group_vec_axioms;

/// Every entry of a module list is a mapping.
pub open spec fn all_dicts(xs: Seq<Yaml>) -> bool {
    forall|i: int| 0 <= i < xs.len() ==> is_dict(#[trigger] xs[i])
}

/// Strategy 1: a section that holds something is deep-merged into the
/// accumulated one (or taken as it is when that holds nothing).
pub open spec fn merge_section(acc: Yaml, other: Yaml) -> Yaml {
    if !null_or_empty(other) {
        if null_or_empty(acc) {
            other
        } else {
            merge_model(acc, other)
        }
    } else {
        acc
    }
}

/// Strategy 2: a non-empty module list is merged by module id.
pub open spec fn merge_list(acc: Seq<Yaml>, other: Seq<Yaml>) -> Seq<Yaml> {
    if other.len() > 0 {
        merged_modules(acc, other)
    } else {
        acc
    }
}

/// Strategy 3: the overlay's entries stored one by one (later wins by name).
pub open spec fn update_all<V>(acc: Seq<(Seq<char>, V)>, other: Seq<(Seq<char>, V)>) -> Seq<
    (Seq<char>, V),
>
    decreases other.len(),
{
    if other.len() == 0 {
        acc
    } else {
        let prev = update_all(acc, other.drop_last());
        text_map_insert(prev, other.last().0, other.last().1)
    }
}

/// The name a context entry of bundle `ns` takes when accumulated: prefixed
/// with `ns:` unless `ns` is empty or the name already has a namespace.
pub open spec fn context_key(ns: Seq<char>, key: Seq<char>) -> Seq<char> {
    if ns.len() > 0 && !has_char(key, ':') {
        ns + ":"@ + key
    } else {
        key
    }
}

/// Strategy 4: the overlay's context accumulated under its namespace.
pub open spec fn accumulate_context(
    acc: Seq<(Seq<char>, Seq<char>)>,
    ns: Seq<char>,
    other: Seq<(Seq<char>, Seq<char>)>,
) -> Seq<(Seq<char>, Seq<char>)>
    decreases other.len(),
{
    if other.len() == 0 {
        acc
    } else {
        let prev = accumulate_context(acc, ns, other.drop_last());
        text_map_insert(prev, context_key(ns, other.last().0), other.last().1)
    }
}

/// The base paths by namespace after an overlay: its own entries stored, then
/// its name mapped to its base path unless the name is already known.
pub open spec fn merge_base_paths(acc: Seq<(Seq<char>, Seq<char>)>, o: BundleModel) -> Seq<
    (Seq<char>, Seq<char>),
> {
    let stored = update_all(acc, o.source_base_paths);
    if o.name.len() > 0 && o.base_path is Some && text_map_get(stored, o.name) is None {
        stored.push((o.name, o.base_path->0))
    } else {
        stored
    }
}

/// Includes accumulated: each include of the overlay not already present
/// (by value equality) is appended.
pub open spec fn add_includes(acc: Seq<Yaml>, other: Seq<Yaml>) -> Seq<Yaml>
    decreases other.len(),
{
    if other.len() == 0 {
        acc
    } else {
        let prev = add_includes(acc, other.drop_last());
        if exists|i: int| 0 <= i < prev.len() && yaml_eq(other.last(), #[trigger] prev[i]) {
            prev
        } else {
            prev.push(other.last())
        }
    }
}

/// Extra data: deep-merged when the overlay's is not null.
pub open spec fn merge_extra(acc: Yaml, other: Yaml) -> Yaml {
    if !is_null(other) {
        if is_null(acc) {
            other
        } else {
            merge_model(acc, other)
        }
    } else {
        acc
    }
}

/// One overlay laid over the accumulated bundle.
pub open spec fn compose_step(r: BundleModel, o: BundleModel) -> BundleModel {
    BundleModel {
        name: o.name,
        version: o.version,
        description: if o.description.len() > 0 {
            o.description
        } else {
            r.description
        },
        includes: add_includes(r.includes, o.includes),
        session: merge_section(r.session, o.session),
        providers: merge_list(r.providers, o.providers),
        tools: merge_list(r.tools, o.tools),
        hooks: merge_list(r.hooks, o.hooks),
        spawn: merge_section(r.spawn, o.spawn),
        agents: update_all(r.agents, o.agents),
        context: accumulate_context(r.context, o.name, o.context),
        instruction: if o.instruction is Some {
            o.instruction
        } else {
            r.instruction
        },
        base_path: if o.base_path is Some {
            o.base_path
        } else {
            r.base_path
        },
        source_base_paths: merge_base_paths(r.source_base_paths, o),
        pending_context: update_all(r.pending_context, o.pending_context),
        extra: merge_extra(r.extra, o.extra),
        source_uri: r.source_uri,
    }
}

/// The bundle after laying each overlay over `b`, in order.
pub open spec fn compose_model(b: BundleModel, others: Seq<BundleModel>) -> BundleModel
    decreases others.len(),
{
    if others.len() == 0 {
        b
    } else {
        compose_step(compose_model(b, others.drop_last()), others.last())
    }
}

/// A module list can be merged into: a non-empty overlay list meets an
/// accumulated list of mappings and is itself made of mappings.
pub open spec fn list_mergeable(acc: Seq<Yaml>, other: Seq<Yaml>) -> bool {
    other.len() > 0 ==> all_dicts(acc) && all_dicts(other)
}

/// One overlay can be laid over `r`: each module list it merges is mergeable.
pub open spec fn step_defined(r: BundleModel, o: BundleModel) -> bool {
    &&& list_mergeable(r.providers, o.providers)
    &&& list_mergeable(r.tools, o.tools)
    &&& list_mergeable(r.hooks, o.hooks)
}

/// Every overlay, in turn, can be laid over what came before it.
pub open spec fn compose_defined(b: BundleModel, others: Seq<BundleModel>) -> bool
    decreases others.len(),
{
    if others.len() == 0 {
        true
    } else {
        compose_defined(b, others.drop_last()) && step_defined(
            compose_model(b, others.drop_last()),
            others.last(),
        )
    }
}

/// The models of a list of bundles.
pub open spec fn bundle_models(bs: Seq<&Bundle>) -> Seq<BundleModel> {
    Seq::new(bs.len(), |i: int| bs[i]@)
}

fn update_values(acc: &mut IndexMap<String, YamlValue>, other: &IndexMap<String, YamlValue>)
    ensures
        value_map_entries(*final(acc)) == update_all(
            value_map_entries(*old(acc)),
            value_map_entries(*other),
        ),
{
    let es = value_map_to_vec(other);
    let ghost os = value_map_entries(*other);
    let ghost start = value_map_entries(*acc);
    let mut i: usize = 0;
    assert(os.take(0) =~= Seq::<(Seq<char>, Yaml)>::empty());
    while i < es.len()
        invariant
            i <= es@.len(),
            os == value_map_entries(*other),
            es@.len() == os.len(),
            forall|j: int| 0 <= j < es@.len() ==> (#[trigger] es@[j]).0@ == os[j].0 && es@[j].1@ == os[j].1,
            value_map_entries(*acc) == update_all(start, os.take(i as int)),
        decreases es@.len() - i,
    {
        proof {
            let t = os.take(i + 1);
            assert(t.drop_last() =~= os.take(i as int));
            assert(t.last() == os[i as int]);
        }
        value_map_insert(acc, copy_string(&es[i].0), copy_value(&es[i].1));
        i += 1;
    }
    assert(os.take(es@.len() as int) =~= os);
}

fn update_texts(acc: &mut IndexMap<String, String>, other: &IndexMap<String, String>)
    ensures
        text_map_entries(*final(acc)) == update_all(
            text_map_entries(*old(acc)),
            text_map_entries(*other),
        ),
{
    let es = text_map_to_vec(other);
    let ghost os = text_map_entries(*other);
    let ghost start = text_map_entries(*acc);
    let mut i: usize = 0;
    assert(os.take(0) =~= Seq::<(Seq<char>, Seq<char>)>::empty());
    while i < es.len()
        invariant
            i <= es@.len(),
            os == text_map_entries(*other),
            es@.len() == os.len(),
            forall|j: int| 0 <= j < es@.len() ==> (#[trigger] es@[j]).0@ == os[j].0 && es@[j].1@ == os[j].1,
            text_map_entries(*acc) == update_all(start, os.take(i as int)),
        decreases es@.len() - i,
    {
        proof {
            let t = os.take(i + 1);
            assert(t.drop_last() =~= os.take(i as int));
            assert(t.last() == os[i as int]);
        }
        text_map_put(acc, copy_string(&es[i].0), copy_string(&es[i].1));
        i += 1;
    }
    assert(os.take(es@.len() as int) =~= os);
}

fn accumulate_texts(acc: &mut IndexMap<String, String>, ns: &String, other: &IndexMap<String, String>)
    ensures
        text_map_entries(*final(acc)) == accumulate_context(
            text_map_entries(*old(acc)),
            ns@,
            text_map_entries(*other),
        ),
{
    proof {
        reveal_strlit(":");
    }
    let es = text_map_to_vec(other);
    let ghost os = text_map_entries(*other);
    let ghost start = text_map_entries(*acc);
    let mut i: usize = 0;
    assert(os.take(0) =~= Seq::<(Seq<char>, Seq<char>)>::empty());
    while i < es.len()
        invariant
            i <= es@.len(),
            os == text_map_entries(*other),
            es@.len() == os.len(),
            forall|j: int| 0 <= j < es@.len() ==> (#[trigger] es@[j]).0@ == os[j].0 && es@[j].1@ == os[j].1,
            text_map_entries(*acc) == accumulate_context(start, ns@, os.take(i as int)),
        decreases es@.len() - i,
    {
        proof {
            let t = os.take(i + 1);
            assert(t.drop_last() =~= os.take(i as int));
            assert(t.last() == os[i as int]);
        }
        let key = &es[i].0;
        let prefixed = if ns.as_str().unicode_len() > 0 && !str_has_char(key.as_str(), ':') {
            let with_colon = concat(ns.as_str(), ":");
            concat(with_colon.as_str(), key.as_str())
        } else {
            copy_string(key)
        };
        text_map_put(acc, prefixed, copy_string(&es[i].1));
        i += 1;
    }
    assert(os.take(es@.len() as int) =~= os);
}

fn add_includes_exec(acc: &mut Vec<YamlValue>, other: &Vec<YamlValue>)
    ensures
        seq_view(final(acc)@) == add_includes(seq_view(old(acc)@), seq_view(other@)),
{
    let ghost os = seq_view(other@);
    let ghost start = seq_view(acc@);
    let mut i: usize = 0;
    assert(os.take(0) =~= Seq::<Yaml>::empty());
    while i < other.len()
        invariant
            i <= other@.len(),
            os == seq_view(other@),
            seq_view(acc@) == add_includes(start, os.take(i as int)),
        decreases other@.len() - i,
    {
        proof {
            let t = os.take(i + 1);
            assert(t.drop_last() =~= os.take(i as int));
            assert(t.last() == os[i as int]);
        }
        let ghost prev = seq_view(acc@);
        let inc = &other[i];
        let mut found = false;
        let mut k: usize = 0;
        while k < acc.len()
            invariant
                k <= acc@.len(),
                prev == seq_view(acc@),
                found == exists|m: int| 0 <= m < k && yaml_eq(inc@, #[trigger] prev[m]),
            decreases acc@.len() - k,
        {
            let eq = yaml_equal(inc, &acc[k]);
            assert(prev[k as int] == acc@[k as int]@);
            if eq {
                found = true;
                assert(yaml_eq(inc@, prev[k as int]));
            }
            k += 1;
        }
        if !found {
            acc.push(copy_value(inc));
            assert(seq_view(acc@) =~= prev.push(inc@));
        }
        i += 1;
    }
    assert(os.take(other@.len() as int) =~= os);
}

fn merge_section_exec(acc: &YamlValue, other: &YamlValue) -> (r: YamlValue)
    ensures
        r@ == merge_section(acc@, other@),
{
    if !is_null_or_empty_mapping(other) {
        if is_null_or_empty_mapping(acc) {
            copy_value(other)
        } else {
            deep_merge(acc, other)
        }
    } else {
        copy_value(acc)
    }
}

fn merge_list_exec(acc: &Vec<YamlValue>, other: &Vec<YamlValue>) -> (r: Vec<YamlValue>)
    requires
        list_mergeable(seq_view(acc@), seq_view(other@)),
    ensures
        seq_view(r@) == merge_list(seq_view(acc@), seq_view(other@)),
{
    if other.len() > 0 {
        let a = acc.as_slice();
        let o = other.as_slice();
        assert(values_view(a@) =~= seq_view(acc@));
        assert(values_view(o@) =~= seq_view(other@));
        assert forall|i: int| 0 <= i < a@.len() implies is_dict(#[trigger] a@[i]@) by {
            assert(seq_view(acc@)[i] == a@[i]@);
        }
        assert forall|i: int| 0 <= i < o@.len() implies is_dict(#[trigger] o@[i]@) by {
            assert(seq_view(other@)[i] == o@[i]@);
        }
        let r = merge_module_lists(a, o);
        assert(values_view(r@) =~= seq_view(r@));
        r
    } else {
        crate::bundle::copy_values(acc)
    }
}

fn merge_base_paths_exec(acc: &mut IndexMap<String, String>, o: &Bundle)
    ensures
        text_map_entries(*final(acc)) == merge_base_paths(text_map_entries(*old(acc)), o@),
{
    update_texts(acc, &o.source_base_paths);
    if o.name.as_str().unicode_len() > 0 {
        if let Some(bp) = &o.base_path {
            if text_map_lookup(acc, o.name.as_str()).is_none() {
                text_map_put(acc, copy_string(&o.name), copy_string(bp));
            }
        }
    }
}

/// Lays one overlay over `result` by the five strategies.
fn compose_one(result: &mut Bundle, other: &Bundle)
    requires
        step_defined(old(result)@, other@),
    ensures
        final(result)@ == compose_step(old(result)@, other@),
{
    result.name = copy_string(&other.name);
    result.version = copy_string(&other.version);
    if other.description.as_str().unicode_len() > 0 {
        result.description = copy_string(&other.description);
    }
    if other.instruction.is_some() {
        result.instruction = copy_opt(&other.instruction);
    }
    result.session = merge_section_exec(&result.session, &other.session);
    result.spawn = merge_section_exec(&result.spawn, &other.spawn);
    result.providers = merge_list_exec(&result.providers, &other.providers);
    result.tools = merge_list_exec(&result.tools, &other.tools);
    result.hooks = merge_list_exec(&result.hooks, &other.hooks);
    update_values(&mut result.agents, &other.agents);
    accumulate_texts(&mut result.context, &other.name, &other.context);
    update_texts(&mut result.pending_context, &other.pending_context);
    merge_base_paths_exec(&mut result.source_base_paths, other);
    if other.base_path.is_some() {
        result.base_path = copy_opt(&other.base_path);
    }
    add_includes_exec(&mut result.includes, &other.includes);
    if !value_is_null(&other.extra) {
        if value_is_null(&result.extra) {
            result.extra = copy_value(&other.extra);
        } else {
            result.extra = deep_merge(&result.extra, &other.extra);
        }
    }
}

impl Bundle {
    /// This bundle with each overlay laid over it in turn (see
    /// `compose_step`): later name, version, base path and a set instruction
    /// or description replace; session and spawn deep-merge; module lists
    /// merge by module id; agents update by name; context accumulates under
    /// the overlay's name; includes accumulate without repeats.
    pub fn compose(&self, others: &[&Bundle]) -> (r: Bundle)
        requires
            compose_defined(self@, bundle_models(others@)),
        ensures
            r@ == compose_model(self@, bundle_models(others@)),
    {
        let ghost ms = bundle_models(others@);
        let mut result = self.copy();
        let mut i: usize = 0;
        assert(ms.take(0) =~= Seq::<BundleModel>::empty());
        while i < others.len()
            invariant
                i <= others@.len(),
                ms == bundle_models(others@),
                compose_defined(self@, ms),
                result@ == compose_model(self@, ms.take(i as int)),
            decreases others@.len() - i,
        {
            proof {
                let t = ms.take(i + 1);
                assert(t.drop_last() =~= ms.take(i as int));
                assert(t.last() == ms[i as int]);
                lemma_defined_prefix(self@, ms, i + 1);
            }
            compose_one(&mut result, others[i]);
            i += 1;
        }
        assert(ms.take(others@.len() as int) =~= ms);
        result
    }
}

/// A composition that can be carried out can be carried out up to any point.
proof fn lemma_defined_prefix(b: BundleModel, ms: Seq<BundleModel>, n: int)
    requires
        compose_defined(b, ms),
        0 <= n <= ms.len(),
    ensures
        compose_defined(b, ms.take(n)),
    decreases ms.len(),
{
    if n < ms.len() {
        assert(ms.drop_last().take(n) =~= ms.take(n));
        lemma_defined_prefix(b, ms.drop_last(), n);
    } else {
        assert(ms.take(n) =~= ms);
    }
}

/// Laying no overlay over a bundle leaves it as it is.
pub proof fn law_compose_nothing(b: BundleModel)
    ensures
        compose_model(b, Seq::empty()) == b,
{
}

/// Composing with a list of overlays is composing with its first part, then
/// laying the rest over the result.
pub proof fn law_compose_in_steps(b: BundleModel, first: Seq<BundleModel>, rest: Seq<BundleModel>)
    ensures
        compose_model(b, first + rest) == compose_model(compose_model(b, first), rest),
    decreases rest.len(),
{
    if rest.len() == 0 {
        assert(first + rest =~= first);
    } else {
        law_compose_in_steps(b, first, rest.drop_last());
        assert((first + rest).drop_last() =~= first + rest.drop_last());
        assert((first + rest).last() == rest.last());
    }
}

/// Strategy 1: laying one overlay over a bundle deep-merges its session and
/// spawn sections into the bundle's (an overlay section that holds nothing
/// leaves the bundle's, and a bundle section that holds nothing is replaced).
pub proof fn law_compose_merges_sections(b: BundleModel, o: BundleModel)
    ensures
        compose_model(b, seq![o]).session == merge_section(b.session, o.session),
        compose_model(b, seq![o]).spawn == merge_section(b.spawn, o.spawn),
{
    assert(seq![o].drop_last() =~= Seq::<BundleModel>::empty());
    assert(compose_model(b, Seq::<BundleModel>::empty()) == b);
    assert(compose_model(b, seq![o]) == compose_step(b, o));
}

/// Strategy 2: laying one overlay over a bundle merges its provider, tool
/// and hook lists into the bundle's by module id (an empty overlay list
/// leaves the bundle's).
pub proof fn law_compose_merges_modules(b: BundleModel, o: BundleModel)
    ensures
        compose_model(b, seq![o]).providers == merge_list(b.providers, o.providers),
        compose_model(b, seq![o]).tools == merge_list(b.tools, o.tools),
        compose_model(b, seq![o]).hooks == merge_list(b.hooks, o.hooks),
{
    assert(seq![o].drop_last() =~= Seq::<BundleModel>::empty());
    assert(compose_model(b, Seq::<BundleModel>::empty()) == b);
    assert(compose_model(b, seq![o]) == compose_step(b, o));
}

/// Strategy 5: the composed bundle has the last overlay's name and version,
/// and its base path when it has one.
pub proof fn law_compose_later_replaces(b: BundleModel, others: Seq<BundleModel>)
    requires
        others.len() > 0,
    ensures
        compose_model(b, others).name == others.last().name,
        compose_model(b, others).version == others.last().version,
        others.last().base_path is Some ==> compose_model(b, others).base_path
            == others.last().base_path,
{
}

/// Strategy 5 for the instruction: the last overlay's instruction replaces
/// the one composed so far when it has one; an overlay without one keeps
/// what was composed before it. With no overlay having one, the base's
/// instruction stays.
pub proof fn law_compose_instruction(b: BundleModel, others: Seq<BundleModel>)
    ensures
        others.len() > 0 && others.last().instruction is Some ==> compose_model(b, others).instruction
            == others.last().instruction,
        others.len() > 0 && others.last().instruction is None ==> compose_model(b, others).instruction
            == compose_model(b, others.drop_last()).instruction,
        (forall|i: int| 0 <= i < others.len() ==> (#[trigger] others[i]).instruction is None)
            ==> compose_model(b, others).instruction == b.instruction,
    decreases others.len(),
{
    if others.len() > 0 {
        let p = others.drop_last();
        law_compose_instruction(b, p);
        if forall|i: int| 0 <= i < others.len() ==> (#[trigger] others[i]).instruction is None {
            assert forall|i: int| 0 <= i < p.len() implies (#[trigger] p[i]).instruction is None by {
                assert(p[i] == others[i]);
            }
            assert(others[others.len() - 1].instruction is None);
        }
    }
}

/// Composing a bundle over its loaded includes: the bundle's own
/// instruction wins when it has one; otherwise the last include that has
/// one gives it.
pub proof fn law_includes_instruction(b: BundleModel, loaded: Seq<BundleModel>)
    ensures
        loaded.len() > 0 && b.instruction is Some ==> with_includes_model(b, loaded).instruction == b.instruction,
        loaded.len() > 0 && b.instruction is None ==> with_includes_model(b, loaded).instruction == compose_model(
            loaded[0],
            loaded.drop_first(),
        ).instruction,
{
    if loaded.len() > 0 {
        let os = loaded.drop_first().push(b);
        law_compose_instruction(loaded[0], os);
        assert(os.drop_last() =~= loaded.drop_first());
    }
}

proof fn lemma_text_push_get<V>(s: Seq<(Seq<char>, V)>, e: (Seq<char>, V), k: Seq<char>)
    requires
        forall|i: int| 0 <= i < s.len() ==> #[trigger] s[i].0 != e.0,
    ensures
        text_map_get(s.push(e), k) == if k == e.0 {
            Some(e.1)
        } else {
            text_map_get(s, k)
        },
{
    assert(text_map_insert(s, e.0, e.1) == s.push(e));
    crate::ordered::lemma_text_get_after_insert(s, e.0, e.1, k);
}

/// Strategy 3: after an overlay's entries are stored, a name the overlay has
/// gives the overlay's value; any other name keeps what it had.
pub proof fn law_later_entries_win<V>(acc: Seq<(Seq<char>, V)>, o: Seq<(Seq<char>, V)>, k: Seq<char>)
    requires
        crate::bundle_dict::distinct_names(o),
    ensures
        text_map_get(update_all(acc, o), k) == match text_map_get(o, k) {
            Some(v) => Some(v),
            None => text_map_get(acc, k),
        },
    decreases o.len(),
{
    if o.len() > 0 {
        let init = o.drop_last();
        assert(crate::bundle_dict::distinct_names(init)) by {
            assert forall|x: int, y: int| 0 <= x < y < init.len() implies #[trigger] init[x].0
                != #[trigger] init[y].0 by {
                assert(init[x] == o[x] && init[y] == o[y]);
            }
        }
        law_later_entries_win(acc, init, k);
        crate::ordered::lemma_text_get_after_insert(update_all(acc, init), o.last().0, o.last().1, k);
        assert forall|i: int| 0 <= i < init.len() implies #[trigger] init[i].0 != o.last().0 by {
            assert(init[i] == o[i]);
        }
        assert(init.push(o.last()) =~= o);
        lemma_text_push_get(init, o.last(), k);
    }
}

/// Strategy 4: each context entry of an overlay is found under its
/// namespaced name, when no two of its entries take the same name.
pub proof fn law_context_accumulates(
    acc: Seq<(Seq<char>, Seq<char>)>,
    ns: Seq<char>,
    o: Seq<(Seq<char>, Seq<char>)>,
    i: int,
)
    requires
        forall|x: int, y: int|
            0 <= x < y < o.len() ==> context_key(ns, #[trigger] o[x].0) != context_key(
                ns,
                #[trigger] o[y].0,
            ),
        0 <= i < o.len(),
    ensures
        text_map_get(accumulate_context(acc, ns, o), context_key(ns, o[i].0)) == Some(o[i].1),
    decreases o.len(),
{
    let last = o.len() - 1;
    let init = o.drop_last();
    let prev = accumulate_context(acc, ns, init);
    crate::ordered::lemma_text_get_after_insert(
        prev,
        context_key(ns, o[last].0),
        o[last].1,
        context_key(ns, o[i].0),
    );
    if i < last {
        assert(init[i] == o[i]);
        assert(context_key(ns, o[i].0) != context_key(ns, o[last].0));
        assert forall|x: int, y: int| 0 <= x < y < init.len() implies context_key(
            ns,
            #[trigger] init[x].0,
        ) != context_key(ns, #[trigger] init[y].0) by {
            assert(init[x] == o[x] && init[y] == o[y]);
        }
        law_context_accumulates(acc, ns, init, i);
    }
}

/// The models of a list of owned bundles.
pub open spec fn owned_models(bs: Seq<Bundle>) -> Seq<BundleModel> {
    Seq::new(bs.len(), |i: int| bs[i]@)
}

/// What composing a bundle over its loaded includes gives: with no include
/// the bundle itself; otherwise the first include with the others and then
/// the bundle laid over it.
pub open spec fn with_includes_model(b: BundleModel, loaded: Seq<BundleModel>) -> BundleModel {
    if loaded.len() == 0 {
        b
    } else {
        compose_model(loaded[0], loaded.drop_first().push(b))
    }
}

/// Composes a bundle over its loaded includes (the last phase of composing
/// includes): includes first, in order, and the bundle on top.
pub fn compose_with_includes(bundle: Bundle, loaded: Vec<Bundle>) -> (r: Bundle)
    requires
        loaded@.len() > 0 ==> compose_defined(
            loaded@[0]@,
            owned_models(loaded@).drop_first().push(bundle@),
        ),
    ensures
        r@ == with_includes_model(bundle@, owned_models(loaded@)),
{
    if loaded.len() == 0 {
        return bundle;
    }
    let ghost ms = owned_models(loaded@);
    let ghost rest = ms.drop_first();
    let mut refs: Vec<&Bundle> = Vec::new();
    let mut i: usize = 1;
    while i < loaded.len()
        invariant
            1 <= i <= loaded@.len(),
            refs@.len() == i - 1,
            forall|k: int| 0 <= k < refs@.len() ==> *(#[trigger] refs@[k]) == loaded@[k + 1],
        decreases loaded@.len() - i,
    {
        refs.push(&loaded[i]);
        i += 1;
    }
    assert(bundle_models(refs@) =~= rest);
    proof {
        law_compose_in_steps(ms[0], rest, seq![bundle@]);
        assert(rest + seq![bundle@] =~= rest.push(bundle@));
        lemma_defined_prefix(ms[0], rest.push(bundle@), rest.len() as int);
        assert(rest.push(bundle@).take(rest.len() as int) =~= rest);
    }
    let first = loaded[0].compose(refs.as_slice());
    let single: Vec<&Bundle> = vec![&bundle];
    proof {
        assert(bundle_models(single@) =~= seq![bundle@]);
        let full = rest.push(bundle@);
        assert(full.drop_last() =~= rest);
        assert(compose_defined(ms[0], full));
        assert(ms[0] == loaded@[0]@);
        assert(first@ == compose_model(ms[0], rest));
        assert(full.last() == bundle@);
        assert(step_defined(compose_model(ms[0], full.drop_last()), full.last()));
        assert(compose_defined(first@, seq![bundle@])) by {
            let one = seq![bundle@];
            assert(one.drop_last() =~= Seq::<BundleModel>::empty());
            assert(one.last() == bundle@);
            assert(compose_defined(first@, Seq::<BundleModel>::empty()));
            assert(compose_model(first@, Seq::<BundleModel>::empty()) == first@);
            assert(step_defined(compose_model(first@, one.drop_last()), one.last()));
        }
    }
    first.compose(single.as_slice())
}


/// Every module list of a bundle is made of mappings.
pub open spec fn lists_all_dicts(b: BundleModel) -> bool {
    all_dicts(b.providers) && all_dicts(b.tools) && all_dicts(b.hooks)
}

proof fn lemma_insert_keeps_dicts(s: Seq<(Seq<char>, Yaml)>, k: Seq<char>, v: Yaml)
    requires
        forall|i: int| 0 <= i < s.len() ==> is_dict(#[trigger] s[i].1),
        is_dict(v),
    ensures
        forall|i: int| 0 <= i < text_map_insert(s, k, v).len() ==> is_dict(#[trigger] text_map_insert(s, k, v)[i].1),
{
    let t = text_map_insert(s, k, v);
    assert forall|i: int| 0 <= i < t.len() implies is_dict(#[trigger] t[i].1) by {
        if exists|j: int| crate::ordered::first_text_key_at(s, k, j) {
            let j = choose|j: int| crate::ordered::first_text_key_at(s, k, j);
            assert(t == s.update(j, (k, v)));
            if i != j {
                assert(t[i] == s[i]);
            }
        } else {
            assert(t == s.push((k, v)));
            if i < s.len() {
                assert(t[i] == s[i]);
            }
        }
    }
}

proof fn lemma_index_dicts(parent: Seq<Yaml>, n: int)
    requires
        all_dicts(parent),
    ensures
        forall|i: int| 0 <= i < crate::dicts::index_modules(parent, n).len() ==> is_dict(
            #[trigger] crate::dicts::index_modules(parent, n)[i].1,
        ),
    decreases n,
{
    if n <= 0 || n > parent.len() {
    } else {
        lemma_index_dicts(parent, n - 1);
        let acc = crate::dicts::index_modules(parent, n - 1);
        match crate::dicts::module_id(parent[n - 1]) {
            Some(id) => {
                lemma_insert_keeps_dicts(acc, id, parent[n - 1]);
            },
            None => {},
        }
    }
}

proof fn lemma_fold_dicts(acc: Seq<(Seq<char>, Yaml)>, child: Seq<Yaml>, n: int)
    requires
        forall|i: int| 0 <= i < acc.len() ==> is_dict(#[trigger] acc[i].1),
        all_dicts(child),
    ensures
        forall|i: int| 0 <= i < crate::dicts::fold_modules(acc, child, n).len() ==> is_dict(
            #[trigger] crate::dicts::fold_modules(acc, child, n)[i].1,
        ),
    decreases n,
{
    if n <= 0 || n > child.len() {
    } else {
        lemma_fold_dicts(acc, child, n - 1);
        let prev = crate::dicts::fold_modules(acc, child, n - 1);
        let c = child[n - 1];
        match crate::dicts::module_id(c) {
            Some(id) => match text_map_get(prev, id) {
                Some(existing) => {
                    assert(is_dict(merge_model(existing, c))) by {
                        match (existing, c) {
                            (Yaml::Dict(_), Yaml::Dict(_)) => {},
                            _ => {},
                        }
                    }
                    lemma_insert_keeps_dicts(prev, id, merge_model(existing, c));
                },
                None => {
                    lemma_insert_keeps_dicts(prev, id, c);
                },
            },
            None => {},
        }
    }
}

proof fn lemma_merged_dicts(parent: Seq<Yaml>, child: Seq<Yaml>)
    requires
        all_dicts(parent),
        all_dicts(child),
    ensures
        all_dicts(merged_modules(parent, child)),
{
    lemma_index_dicts(parent, parent.len() as int);
    let idx0 = crate::dicts::index_modules(parent, parent.len() as int);
    lemma_fold_dicts(idx0, child, child.len() as int);
}

proof fn lemma_step_keeps_dicts(r: BundleModel, o: BundleModel)
    requires
        lists_all_dicts(r),
        lists_all_dicts(o),
    ensures
        step_defined(r, o),
        lists_all_dicts(compose_step(r, o)),
{
    lemma_merged_dicts(r.providers, o.providers);
    lemma_merged_dicts(r.tools, o.tools);
    lemma_merged_dicts(r.hooks, o.hooks);
}

/// Bundles whose module lists are all made of mappings can always be
/// composed, and so is the result.
pub proof fn lemma_composable(b: BundleModel, others: Seq<BundleModel>)
    requires
        lists_all_dicts(b),
        forall|i: int| 0 <= i < others.len() ==> lists_all_dicts(#[trigger] others[i]),
    ensures
        compose_defined(b, others),
        lists_all_dicts(compose_model(b, others)),
    decreases others.len(),
{
    if others.len() > 0 {
        lemma_composable(b, others.drop_last());
        lemma_step_keeps_dicts(compose_model(b, others.drop_last()), others.last());
    }
}

fn values_are_mappings(xs: &Vec<YamlValue>) -> (r: bool)
    ensures
        r == all_dicts(seq_view(xs@)),
{
    let mut i: usize = 0;
    while i < xs.len()
        invariant
            i <= xs@.len(),
            forall|k: int| 0 <= k < i ==> is_dict(#[trigger] seq_view(xs@)[k]),
        decreases xs@.len() - i,
    {
        if !crate::value::value_is_mapping(&xs[i]) {
            assert(!is_dict(seq_view(xs@)[i as int]));
            return false;
        }
        i += 1;
    }
    true
}

/// Whether every module list of the bundle is made of mappings.
pub fn module_lists_are_mappings(b: &Bundle) -> (r: bool)
    ensures
        r == lists_all_dicts(b@),
{
    values_are_mappings(&b.providers) && values_are_mappings(&b.tools) && values_are_mappings(&b.hooks)
}

/// Whether the bundles' module lists are all made of mappings, so that the
/// overlays can be composed over the bundle.
pub fn can_compose(b: &Bundle, others: &[&Bundle]) -> (r: bool)
    ensures
        r ==> compose_defined(b@, bundle_models(others@)),
        r == (lists_all_dicts(b@) && forall|i: int| 0 <= i < others@.len() ==> lists_all_dicts(#[trigger] others@[i]@)),
{
    if !module_lists_are_mappings(b) {
        return false;
    }
    let mut i: usize = 0;
    while i < others.len()
        invariant
            i <= others@.len(),
            forall|k: int| 0 <= k < i ==> lists_all_dicts(#[trigger] others@[k]@),
        decreases others@.len() - i,
    {
        if !module_lists_are_mappings(others[i]) {
            return false;
        }
        i += 1;
    }
    proof {
        let ms = bundle_models(others@);
        assert forall|k: int| 0 <= k < ms.len() implies lists_all_dicts(#[trigger] ms[k]) by {
            assert(ms[k] == others@[k]@);
        }
        lemma_composable(b@, ms);
    }
    true
}


proof fn lemma_first_non_dict_exists(xs: Seq<Yaml>, i: int)
    requires
        0 <= i < xs.len(),
        !is_dict(xs[i]),
    ensures
        exists|j: int| crate::bundle_dict::first_non_dict(xs, j),
    decreases i,
{
    if forall|j: int| 0 <= j < i ==> is_dict(#[trigger] xs[j]) {
        assert(crate::bundle_dict::first_non_dict(xs, i));
    } else {
        let j = choose|j: int| 0 <= j < i && !is_dict(#[trigger] xs[j]);
        lemma_first_non_dict_exists(xs, j);
    }
}

proof fn lemma_module_list_dicts(items: Option<Yaml>, field: Seq<char>, ident: Seq<char>, base: Option<Seq<char>>)
    requires
        crate::bundle_dict::module_list_model(items, field, ident, base) is Ok,
    ensures
        all_dicts(crate::bundle_dict::module_list_model(items, field, ident, base)->Ok_0),
{
    let r = crate::bundle_dict::module_list_model(items, field, ident, base)->Ok_0;
    match items {
        None => {},
        Some(v) => if v is Null {
        } else {
            match crate::value::untag(v) {
                Yaml::List(xs) => {
                    assert(!exists|i: int| crate::bundle_dict::first_non_dict(xs, i));
                    assert forall|i: int| 0 <= i < r.len() implies is_dict(#[trigger] r[i]) by {
                        if !is_dict(xs[i]) {
                            lemma_first_non_dict_exists(xs, i);
                        }
                        assert(r[i] == crate::bundle_dict::module_entry_model(xs[i], base));
                    }
                },
                _ => {},
            }
        },
    }
}

/// The module lists of a bundle read from a dictionary are made of
/// mappings, so bundles read from dictionaries can always be composed.
pub proof fn law_loaded_bundles_compose(data: Yaml, base: Option<Seq<char>>, others: Seq<BundleModel>)
    requires
        crate::bundle_dict::from_dict_model(data, base) is Ok,
        forall|i: int| 0 <= i < others.len() ==> lists_all_dicts(#[trigger] others[i]),
    ensures
        lists_all_dicts(crate::bundle_dict::from_dict_model(data, base)->Ok_0),
        compose_defined(crate::bundle_dict::from_dict_model(data, base)->Ok_0, others),
{
    let meta = crate::bundle_dict::bundle_meta(data);
    let name = crate::bundle_dict::meta_text(meta, "name"@, Seq::empty());
    let ident = crate::bundle_dict::bundle_ident(name, base);
    lemma_module_list_dicts(crate::value::map_get_str(meta, "providers"@), "providers"@, ident, base);
    lemma_module_list_dicts(crate::value::map_get_str(meta, "tools"@), "tools"@, ident, base);
    lemma_module_list_dicts(crate::value::map_get_str(meta, "hooks"@), "hooks"@, ident, base);
    lemma_composable(crate::bundle_dict::from_dict_model(data, base)->Ok_0, others);
}

} // verus!
