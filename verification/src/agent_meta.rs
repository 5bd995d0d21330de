//! Agent metadata: finding an agent's `.md` file, reading its metadata out of
//! the file's frontmatter and body, and filling gaps in an agent's
//! configuration with it.
use vstd::prelude::*;
use vstd::string::StrSliceExecFns;
use crate::value::{
    Yaml, YamlValue, YamlNumber, as_str, copy_value, dict_entries, entries_view, is_dict,
    is_zero_bits, lemma_str_key_lookup, lemma_get_str_after_insert, map_find, map_get, map_get_str, map_insert, mapping_find,
    mapping_get_str, mapping_insert, str_value, value_as_mapping, value_as_str,
};
use crate::text::{chars_split_once, concat, copy_string, str_chars, str_eq, str_to_string, chars_to_string, split_once_char, trim_ws, trim_whitespace};
use crate::paths::{join_text, join_path};
use crate::disk::{path_exists, first_present};
use crate::ordered::{text_map_get, text_map_insert, text_map_lookup, value_map_entries, value_map_get, value_map_insert};
use crate::bundle::{Bundle, BundleModel};
use crate::registry::texts;

verus! {

broadcast use vstd::std_specs::vec::group_vec_axioms;

/// Whether a value counts as false (as a truth test sees it): null,
/// `false`, zero, an empty string, sequence or mapping. A tagged value never
/// does.
pub open spec fn is_falsy(v: Yaml) -> bool {
    match v {
        Yaml::Null => true,
        Yaml::Bool(b) => !b,
        Yaml::Number(n, _) => match n {
            YamlNumber::PosInt(x) => x == 0,
            YamlNumber::NegInt(x) => x == 0,
            YamlNumber::Float(b) => is_zero_bits(b),
        },
        Yaml::Str(s) => s.len() == 0,
        Yaml::List(xs) => xs.len() == 0,
        Yaml::Dict(es) => es.len() == 0,
        Yaml::Tagged(_, _) => false,
    }
}

/// Whether a value counts as false (see `is_falsy`).
pub fn is_falsy_value(v: &YamlValue) -> (r: bool)
    ensures
        r == is_falsy(v@),
{
    match v {
        YamlValue::Null => true,
        YamlValue::Bool(b) => !*b,
        YamlValue::Number(n, _) => match n {
            YamlNumber::PosInt(x) => *x == 0,
            YamlNumber::NegInt(x) => *x == 0,
            YamlNumber::Float(b) => (*b & 0x7fff_ffff_ffff_ffffu64) == 0,
        },
        YamlValue::String(s) => s.as_str().unicode_len() == 0,
        YamlValue::Sequence(xs) => {
            proof {
                crate::value::lemma_list_view(*xs);
            }
            xs.len() == 0
        },
        YamlValue::Mapping(es) => {
            proof {
                crate::value::lemma_dict_view(*es);
            }
            es.len() == 0
        },
        YamlValue::Tagged(_, _) => false,
    }
}

/// Configuration entries with the file's entries filling their gaps: each
/// file entry goes in where its key is missing or holds a false value.
pub open spec fn fill_gaps(config: Seq<(Yaml, Yaml)>, file: Seq<(Yaml, Yaml)>) -> Seq<(Yaml, Yaml)>
    decreases file.len(),
{
    if file.len() == 0 {
        config
    } else {
        let acc = fill_gaps(config, file.drop_last());
        let e = file.last();
        if map_get(acc, e.0) matches Some(v) && !is_falsy(v) {
            acc
        } else {
            map_insert(acc, e.0, e.1)
        }
    }
}

/// An agent's configuration with the file's entries filling its gaps; the
/// mapping under any tags is the one filled, anything else stays as it is.
pub open spec fn merged_config(v: Yaml, file: Seq<(Yaml, Yaml)>) -> Yaml
    decreases v,
{
    match v {
        Yaml::Dict(es) => Yaml::Dict(fill_gaps(es, file)),
        Yaml::Tagged(t, b) => Yaml::Tagged(t, Box::new(merged_config(*b, file))),
        _ => v,
    }
}

/// Filling gaps keeps every field the configuration set (to a value that is
/// not false), gives every field the file has a value, and leaves a field
/// the file does not have as it was (for a file whose keys are strings).
pub proof fn law_merge_fills_only_gaps(config: Seq<(Yaml, Yaml)>, file: Seq<(Yaml, Yaml)>, q: Seq<char>)
    requires
        forall|i: int| 0 <= i < file.len() ==> (#[trigger] file[i]).0 is Str,
    ensures
        (map_get_str(config, q) matches Some(v) && !is_falsy(v)) ==> map_get_str(fill_gaps(config, file), q)
            == map_get_str(config, q),
        (exists|i: int| 0 <= i < file.len() && (#[trigger] file[i]).0 == Yaml::Str(q)) ==> map_get_str(
            fill_gaps(config, file),
            q,
        ) is Some,
        !(exists|i: int| 0 <= i < file.len() && (#[trigger] file[i]).0 == Yaml::Str(q)) ==> map_get_str(
            fill_gaps(config, file),
            q,
        ) == map_get_str(config, q),
    decreases file.len(),
{
    if file.len() > 0 {
        let init = file.drop_last();
        assert forall|i: int| 0 <= i < init.len() implies (#[trigger] init[i]).0 is Str by {
            assert(init[i] == file[i]);
        }
        law_merge_fills_only_gaps(config, init, q);
        let acc = fill_gaps(config, init);
        let e = file.last();
        let k = e.0->Str_0;
        assert(e.0 == Yaml::Str(k));
        lemma_str_key_lookup(acc, k);
        lemma_get_str_after_insert(acc, k, e.1, q);
        if exists|i: int| 0 <= i < file.len() && (#[trigger] file[i]).0 == Yaml::Str(q) {
            if k != q {
                let i = choose|i: int| 0 <= i < file.len() && (#[trigger] file[i]).0 == Yaml::Str(q);
                assert(i < init.len());
                assert(init[i] == file[i]);
            }
        } else {
            assert(k != q) by {
                assert(file[file.len() - 1] == e);
            }
            assert(!exists|i: int| 0 <= i < init.len() && (#[trigger] init[i]).0 == Yaml::Str(q)) by {
                if exists|i: int| 0 <= i < init.len() && (#[trigger] init[i]).0 == Yaml::Str(q) {
                    let i = choose|i: int| 0 <= i < init.len() && (#[trigger] init[i]).0 == Yaml::Str(q);
                    assert(file[i] == init[i]);
                }
            }
        }
    }
}

fn fill_entries(es: &mut Vec<(YamlValue, YamlValue)>, file: &Vec<(YamlValue, YamlValue)>)
    ensures
        entries_view(final(es)@) == fill_gaps(entries_view(old(es)@), entries_view(file@)),
{
    let ghost start = entries_view(es@);
    let ghost fv = entries_view(file@);
    let mut i: usize = 0;
    assert(fv.take(0) =~= Seq::<(Yaml, Yaml)>::empty());
    while i < file.len()
        invariant
            i <= file@.len(),
            fv == entries_view(file@),
            entries_view(es@) == fill_gaps(start, fv.take(i as int)),
        decreases file@.len() - i,
    {
        proof {
            let t = fv.take(i + 1);
            assert(t.drop_last() =~= fv.take(i as int));
            assert(t.last() == fv[i as int]);
        }
        let keep = match mapping_find(es, &file[i].0) {
            Some(j) => !is_falsy_value(&es[j].1),
            None => false,
        };
        if !keep {
            mapping_insert(es, copy_value(&file[i].0), copy_value(&file[i].1));
        }
        i += 1;
    }
    assert(fv.take(file@.len() as int) =~= fv);
}

fn fill_config(v: YamlValue, file: &Vec<(YamlValue, YamlValue)>) -> (r: YamlValue)
    ensures
        r@ == merged_config(v@, entries_view(file@)),
    decreases v,
{
    match v {
        YamlValue::Mapping(es) => {
            proof {
                crate::value::lemma_dict_view(es);
            }
            let mut es = es;
            fill_entries(&mut es, file);
            proof {
                crate::value::lemma_dict_view(es);
            }
            YamlValue::Mapping(es)
        },
        YamlValue::Tagged(t, b) => {
            let inner = fill_config(*b, file);
            YamlValue::Tagged(t, Box::new(inner))
        },
        other => other,
    }
}

/// Fills the gaps of an agent's configuration with the metadata read from
/// its file: each entry of the file's mapping goes in where the
/// configuration's mapping lacks the key or holds a false value there.
/// Nothing changes where either is not a mapping.
pub fn merge_agent_metadata(agent_config: &mut YamlValue, file_metadata: &YamlValue)
    ensures
        final(agent_config)@ == if is_dict(file_metadata@) {
            merged_config(old(agent_config)@, dict_entries(file_metadata@))
        } else {
            old(agent_config)@
        },
{
    let file_map = match value_as_mapping(file_metadata) {
        Some(m) => m,
        None => {
            return;
        },
    };
    let mut taken = YamlValue::Null;
    std::mem::swap(&mut taken, agent_config);
    *agent_config = fill_config(taken, file_map);
}

/// The metadata section of an agent's frontmatter: the non-empty mapping
/// under `meta`, or else the frontmatter itself when it has a `name` or a
/// `description`.
pub open spec fn agent_meta_model(fm: Yaml) -> Option<Seq<(Yaml, Yaml)>> {
    if !is_dict(fm) {
        None
    } else {
        let m = dict_entries(fm);
        let flat = if map_get_str(m, "name"@) is Some || map_get_str(m, "description"@) is Some {
            Some(m)
        } else {
            None
        };
        match map_get_str(m, "meta"@) {
            Some(mv) => if is_dict(mv) && dict_entries(mv).len() > 0 {
                Some(dict_entries(mv))
            } else {
                flat
            },
            None => flat,
        }
    }
}

/// The metadata section of an agent's frontmatter (see `agent_meta_model`).
pub fn get_agent_meta(frontmatter: &YamlValue) -> (r: Option<&Vec<(YamlValue, YamlValue)>>)
    ensures
        match r {
            Some(m) => agent_meta_model(frontmatter@) == Some(entries_view(m@)),
            None => agent_meta_model(frontmatter@) is None,
        },
{
    let fm_map = match value_as_mapping(frontmatter) {
        Some(m) => m,
        None => {
            return None;
        },
    };
    match mapping_get_str(fm_map, "meta") {
        Some(mv) => match value_as_mapping(mv) {
            Some(mm) => {
                if mm.len() > 0 {
                    return Some(mm);
                }
            },
            None => {},
        },
        None => {},
    }
    if mapping_get_str(fm_map, "name").is_some() || mapping_get_str(fm_map, "description").is_some() {
        Some(fm_map)
    } else {
        None
    }
}

/// The sections of a mount plan an agent may define at the top of its
/// frontmatter.
pub open spec fn is_mount_section(k: Seq<char>) -> bool {
    k == "tools"@ || k == "providers"@ || k == "hooks"@ || k == "session"@
}

/// `acc` with the extra metadata entries added: those whose key is a string
/// other than `name`, `description` and the mount plan sections.
pub open spec fn meta_extras(acc: Seq<(Yaml, Yaml)>, meta: Seq<(Yaml, Yaml)>) -> Seq<(Yaml, Yaml)>
    decreases meta.len(),
{
    if meta.len() == 0 {
        acc
    } else {
        let a = meta_extras(acc, meta.drop_last());
        let e = meta.last();
        if as_str(e.0) matches Some(k) && k != "name"@ && k != "description"@ && !is_mount_section(k) {
            map_insert(a, e.0, e.1)
        } else {
            a
        }
    }
}

/// `acc` with the frontmatter's top-level `section`, where it has one.
pub open spec fn add_section(acc: Seq<(Yaml, Yaml)>, fm: Yaml, section: Seq<char>) -> Seq<(Yaml, Yaml)> {
    if is_dict(fm) {
        match map_get_str(dict_entries(fm), section) {
            Some(v) => map_insert(acc, Yaml::Str(section), v),
            None => acc,
        }
    } else {
        acc
    }
}

/// A string field of the metadata section, or `default`.
pub open spec fn meta_text(meta: Option<Seq<(Yaml, Yaml)>>, key: Seq<char>, default: Seq<char>) -> Seq<char> {
    match meta {
        Some(m) => match map_get_str(m, key) {
            Some(v) => match as_str(v) {
                Some(s) => s,
                None => default,
            },
            None => default,
        },
        None => default,
    }
}

/// The configuration an agent file gives, from its frontmatter (null when
/// it has none) and body: `name` (from the metadata, or `fallback_name`),
/// `description` (or empty), the other string-keyed metadata, the top-level
/// `tools`, `providers`, `hooks` and `session`, and the trimmed body as
/// `instruction` when it is not empty.
pub open spec fn agent_file_metadata_model(fm: Yaml, body: Seq<char>, fallback_name: Seq<char>) -> Yaml {
    let meta = agent_meta_model(fm);
    let r0 = map_insert(
        map_insert(Seq::empty(), Yaml::Str("name"@), Yaml::Str(meta_text(meta, "name"@, fallback_name))),
        Yaml::Str("description"@),
        Yaml::Str(meta_text(meta, "description"@, Seq::empty())),
    );
    let r1 = match meta {
        Some(m) => meta_extras(r0, m),
        None => r0,
    };
    let r2 = add_section(add_section(add_section(add_section(r1, fm, "tools"@), fm, "providers"@), fm, "hooks"@), fm, "session"@);
    let t = trim_ws(body);
    Yaml::Dict(if t.len() > 0 {
        map_insert(r2, Yaml::Str("instruction"@), Yaml::Str(t))
    } else {
        r2
    })
}

fn meta_text_exec(meta: Option<&Vec<(YamlValue, YamlValue)>>, key: &str, default: &str) -> (r: String)
    ensures
        r@ == meta_text(
            match meta {
                Some(m) => Some(entries_view(m@)),
                None => None,
            },
            key@,
            default@,
        ),
{
    match meta {
        Some(m) => match mapping_get_str(m, key) {
            Some(v) => match value_as_str(v) {
                Some(s) => s.clone(),
                None => str_to_string(default),
            },
            None => str_to_string(default),
        },
        None => str_to_string(default),
    }
}

fn add_meta_extras(out: &mut Vec<(YamlValue, YamlValue)>, meta: &Vec<(YamlValue, YamlValue)>)
    ensures
        entries_view(final(out)@) == meta_extras(entries_view(old(out)@), entries_view(meta@)),
{
    let ghost start = entries_view(out@);
    let ghost mv = entries_view(meta@);
    let mut i: usize = 0;
    assert(mv.take(0) =~= Seq::<(Yaml, Yaml)>::empty());
    while i < meta.len()
        invariant
            i <= meta@.len(),
            mv == entries_view(meta@),
            entries_view(out@) == meta_extras(start, mv.take(i as int)),
        decreases meta@.len() - i,
    {
        proof {
            let t = mv.take(i + 1);
            assert(t.drop_last() =~= mv.take(i as int));
            assert(t.last() == mv[i as int]);
        }
        match value_as_str(&meta[i].0) {
            Some(k) => {
                let ks = k.as_str();
                if !str_eq(ks, "name") && !str_eq(ks, "description") && !str_eq(ks, "tools")
                    && !str_eq(ks, "providers") && !str_eq(ks, "hooks") && !str_eq(ks, "session") {
                    mapping_insert(out, copy_value(&meta[i].0), copy_value(&meta[i].1));
                }
            },
            None => {},
        }
        i += 1;
    }
    assert(mv.take(meta@.len() as int) =~= mv);
}

fn add_section_exec(out: &mut Vec<(YamlValue, YamlValue)>, fm: &YamlValue, section: &str)
    ensures
        entries_view(final(out)@) == add_section(entries_view(old(out)@), fm@, section@),
{
    match value_as_mapping(fm) {
        Some(m) => match mapping_get_str(m, section) {
            Some(v) => {
                mapping_insert(out, str_value(section), copy_value(v));
            },
            None => {},
        },
        None => {},
    }
}

/// The configuration an agent file gives (see `agent_file_metadata_model`),
/// from its frontmatter (`None` when it has none) and its body; the name
/// defaults to `fallback_name`.
pub fn agent_file_metadata(frontmatter: Option<&YamlValue>, body: &str, fallback_name: &str) -> (r: YamlValue)
    ensures
        r@ == agent_file_metadata_model(
            match frontmatter {
                Some(f) => f@,
                None => Yaml::Null,
            },
            body@,
            fallback_name@,
        ),
{
    let null = YamlValue::Null;
    let fm: &YamlValue = match frontmatter {
        Some(f) => f,
        None => &null,
    };
    let meta = get_agent_meta(fm);
    let ghost fmv = fm@;
    let ghost mm = agent_meta_model(fmv);
    assert(fmv == match frontmatter {
        Some(f) => f@,
        None => Yaml::Null,
    });
    assert(mm == match meta {
        Some(m) => Some(entries_view(m@)),
        None => None,
    });
    let mut out: Vec<(YamlValue, YamlValue)> = Vec::new();
    let name = meta_text_exec(meta, "name", fallback_name);
    assert(entries_view(out@) =~= Seq::<(Yaml, Yaml)>::empty());
    mapping_insert(&mut out, str_value("name"), YamlValue::String(name));
    let description = meta_text_exec(meta, "description", "");
    proof {
        reveal_strlit("");
        assert(""@ =~= Seq::<char>::empty());
    }
    mapping_insert(&mut out, str_value("description"), YamlValue::String(description));
    let ghost r0 = entries_view(out@);
    assert(r0 == map_insert(
        map_insert(Seq::empty(), Yaml::Str("name"@), Yaml::Str(meta_text(mm, "name"@, fallback_name@))),
        Yaml::Str("description"@),
        Yaml::Str(meta_text(mm, "description"@, Seq::empty())),
    ));
    match meta {
        Some(m) => add_meta_extras(&mut out, m),
        None => {},
    }
    let ghost r1 = entries_view(out@);
    assert(r1 == match mm {
        Some(m) => meta_extras(r0, m),
        None => r0,
    });
    add_section_exec(&mut out, fm, "tools");
    add_section_exec(&mut out, fm, "providers");
    add_section_exec(&mut out, fm, "hooks");
    add_section_exec(&mut out, fm, "session");
    let ghost r2 = entries_view(out@);
    assert(r2 == add_section(add_section(add_section(add_section(r1, fmv, "tools"@), fmv, "providers"@), fmv, "hooks"@), fmv, "session"@));
    let trimmed = trim_whitespace(body);
    if trimmed.as_str().unicode_len() > 0 {
        mapping_insert(&mut out, str_value("instruction"), YamlValue::String(trimmed));
    }
    proof {
        crate::value::lemma_dict_view(out);
    }
    YamlValue::Mapping(out)
}

/// The file of agent `name` in a directory: `<dir>/agents/<name>.md`.
pub open spec fn agent_file(dir: Seq<char>, name: Seq<char>) -> Seq<char> {
    join_text(join_text(dir, "agents"@), name + ".md"@)
}

/// Where agent `name` of a bundle may be, in the order tried. A namespaced
/// name `ns:agent` is looked for under the directory recorded for `ns`, then
/// (when `ns` is the bundle's own name) under its base path; a plain name
/// under the base path.
pub open spec fn agent_candidates(b: BundleModel, name: Seq<char>) -> Seq<Seq<char>> {
    match split_once_char(name, ':') {
        Some((ns, simple)) => {
            let from_sources = match text_map_get(b.source_base_paths, ns) {
                Some(d) => seq![agent_file(d, simple)],
                None => Seq::empty(),
            };
            let from_self = if ns == b.name && b.base_path is Some {
                seq![agent_file(b.base_path->0, simple)]
            } else {
                Seq::empty()
            };
            from_sources + from_self
        },
        None => match b.base_path {
            Some(bp) => seq![agent_file(bp, name)],
            None => Seq::empty(),
        },
    }
}

fn agent_file_exec(dir: &str, name: &str) -> (r: String)
    ensures
        r@ == agent_file(dir@, name@),
{
    let agents = join_path(dir, "agents");
    let file = concat(name, ".md");
    join_path(agents.as_str(), file.as_str())
}

impl Bundle {
    /// The paths where agent `name` may be, in the order they are tried
    /// (see `agent_candidates`).
    pub fn agent_path_candidates(&self, name: &str) -> (r: Vec<String>)
        ensures
            texts(r@) == agent_candidates(self@, name@),
    {
        let v = str_chars(name);
        let mut out: Vec<String> = Vec::new();
        match chars_split_once(&v, ':') {
            Some((ns, simple)) => {
                let ns_s = chars_to_string(&ns);
                let simple_s = chars_to_string(&simple);
                match text_map_lookup(&self.source_base_paths, ns_s.as_str()) {
                    Some(d) => {
                        out.push(agent_file_exec(d.as_str(), simple_s.as_str()));
                    },
                    None => {},
                }
                if str_eq(ns_s.as_str(), self.name.as_str()) {
                    match &self.base_path {
                        Some(bp) => {
                            out.push(agent_file_exec(bp.as_str(), simple_s.as_str()));
                        },
                        None => {},
                    }
                }
            },
            None => match &self.base_path {
                Some(bp) => {
                    out.push(agent_file_exec(bp.as_str(), name));
                },
                None => {},
            },
        }
        assert(texts(out@) =~= agent_candidates(self@, name@));
        out
    }

    /// The file of agent `name`: the first of its candidate paths that
    /// exists. Which exists depends on the disk; whatever is found is one of
    /// the candidates, and nothing is found when there are none.
    pub fn resolve_agent_path(&self, name: &str) -> (r: Option<String>)
        ensures
            r matches Some(p) ==> agent_candidates(self@, name@).contains(p@),
            agent_candidates(self@, name@).len() == 0 ==> r is None,
    {
        let cands = self.agent_path_candidates(name);
        let mut present: Vec<bool> = Vec::new();
        let mut found = false;
        while present.len() < cands.len() && !found
            invariant
                present@.len() <= cands@.len(),
            decreases cands@.len() - present@.len(),
        {
            let here = path_exists(cands[present.len()].as_str());
            present.push(here);
            found = here;
        }
        match first_present(&present) {
            Some(k) => {
                assert(texts(cands@)[k as int] == cands@[k as int]@);
                Some(copy_string(&cands[k]))
            },
            None => None,
        }
    }

    /// Fills the gaps of agent `name`'s configuration with the metadata read
    /// from its file (see `merge_agent_metadata`); nothing changes for an
    /// agent the bundle does not have.
    pub fn apply_agent_metadata(&mut self, name: &str, file_metadata: &YamlValue)
        ensures
            final(self)@ == (BundleModel {
                agents: match text_map_get(old(self)@.agents, name@) {
                    Some(c) => text_map_insert(
                        old(self)@.agents,
                        name@,
                        if is_dict(file_metadata@) {
                            merged_config(c, dict_entries(file_metadata@))
                        } else {
                            c
                        },
                    ),
                    None => old(self)@.agents,
                },
                ..old(self)@
            }),
    {
        let key = str_to_string(name);
        match value_map_get(&self.agents, &key) {
            Some(c) => {
                let mut config = copy_value(c);
                merge_agent_metadata(&mut config, file_metadata);
                value_map_insert(&mut self.agents, key, config);
            },
            None => {},
        }
    }
}

} // verus!
