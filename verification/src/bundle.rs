//! The bundle: the composable unit of configuration, its model, and the
//! operations that build, serialise and compose bundles.
use vstd::prelude::*;
use indexmap::IndexMap;
use crate::value::{Yaml, YamlValue, copy_value, seq_view};
use crate::ordered::{
    text_map_clone, text_map_entries, text_map_new, value_map_clone, value_map_entries,
    value_map_new,
};
use crate::text::{copy_string, str_to_string};

verus! {

broadcast use vstd::std_specs::vec::group_vec_axioms;

/// A bundle: metadata, the sections of a mount plan, resources and the
/// bookkeeping that composition and loading use. Paths are held as text.
pub struct Bundle {
    pub name: String,
    pub version: String,
    pub description: String,
    pub includes: Vec<YamlValue>,
    pub session: YamlValue,
    pub providers: Vec<YamlValue>,
    pub tools: Vec<YamlValue>,
    pub hooks: Vec<YamlValue>,
    pub spawn: YamlValue,
    pub agents: IndexMap<String, YamlValue>,
    pub context: IndexMap<String, String>,
    pub instruction: Option<String>,
    pub base_path: Option<String>,
    pub source_base_paths: IndexMap<String, String>,
    pub pending_context: IndexMap<String, String>,
    pub extra: YamlValue,
    pub source_uri: Option<String>,
}

/// What a bundle holds, as mathematical values.
pub struct BundleModel {
    pub name: Seq<char>,
    pub version: Seq<char>,
    pub description: Seq<char>,
    pub includes: Seq<Yaml>,
    pub session: Yaml,
    pub providers: Seq<Yaml>,
    pub tools: Seq<Yaml>,
    pub hooks: Seq<Yaml>,
    pub spawn: Yaml,
    pub agents: Seq<(Seq<char>, Yaml)>,
    pub context: Seq<(Seq<char>, Seq<char>)>,
    pub instruction: Option<Seq<char>>,
    pub base_path: Option<Seq<char>>,
    pub source_base_paths: Seq<(Seq<char>, Seq<char>)>,
    pub pending_context: Seq<(Seq<char>, Seq<char>)>,
    pub extra: Yaml,
    pub source_uri: Option<Seq<char>>,
}

/// The model of an optional text.
pub open spec fn opt_text(o: Option<String>) -> Option<Seq<char>> {
    match o {
        Some(s) => Some(s@),
        None => None,
    }
}

impl View for Bundle {
    type V = BundleModel;

    open spec fn view(&self) -> BundleModel {
        BundleModel {
            name: self.name@,
            version: self.version@,
            description: self.description@,
            includes: seq_view(self.includes@),
            session: self.session@,
            providers: seq_view(self.providers@),
            tools: seq_view(self.tools@),
            hooks: seq_view(self.hooks@),
            spawn: self.spawn@,
            agents: value_map_entries(self.agents),
            context: text_map_entries(self.context),
            instruction: opt_text(self.instruction),
            base_path: opt_text(self.base_path),
            source_base_paths: text_map_entries(self.source_base_paths),
            pending_context: text_map_entries(self.pending_context),
            extra: self.extra@,
            source_uri: opt_text(self.source_uri),
        }
    }
}

/// A fresh bundle called `name`: version `1.0.0`, everything else empty.
pub open spec fn new_model(name: Seq<char>) -> BundleModel {
    BundleModel {
        name: name,
        version: "1.0.0"@,
        description: Seq::empty(),
        includes: Seq::empty(),
        session: Yaml::Null,
        providers: Seq::empty(),
        tools: Seq::empty(),
        hooks: Seq::empty(),
        spawn: Yaml::Null,
        agents: Seq::empty(),
        context: Seq::empty(),
        instruction: None,
        base_path: None,
        source_base_paths: Seq::empty(),
        pending_context: Seq::empty(),
        extra: Yaml::Null,
        source_uri: None,
    }
}

/// A copy of a list of values.
pub fn copy_values(xs: &Vec<YamlValue>) -> (r: Vec<YamlValue>)
    ensures
        seq_view(r@) == seq_view(xs@),
{
    let mut out: Vec<YamlValue> = Vec::new();
    let mut i: usize = 0;
    while i < xs.len()
        invariant
            i <= xs@.len(),
            out@.len() == i,
            forall|j: int| 0 <= j < i ==> (#[trigger] out@[j])@ == xs@[j]@,
        decreases xs@.len() - i,
    {
        out.push(copy_value(&xs[i]));
        i += 1;
    }
    assert(seq_view(out@) =~= seq_view(xs@));
    out
}

/// A copy of an optional text.
pub fn copy_opt(o: &Option<String>) -> (r: Option<String>)
    ensures
        opt_text(r) == opt_text(*o),
{
    match o {
        Some(s) => Some(copy_string(s)),
        None => None,
    }
}

impl Bundle {
    /// A new bundle called `name`, version `1.0.0`, with nothing in it.
    pub fn new(name: &str) -> (b: Bundle)
        ensures
            b@ == new_model(name@),
    {
        proof {
            reveal_strlit("1.0.0");
        }
        let b = Bundle {
            name: str_to_string(name),
            version: str_to_string("1.0.0"),
            description: String::new(),
            includes: Vec::new(),
            session: YamlValue::Null,
            providers: Vec::new(),
            tools: Vec::new(),
            hooks: Vec::new(),
            spawn: YamlValue::Null,
            agents: value_map_new(),
            context: text_map_new(),
            instruction: None,
            base_path: None,
            source_base_paths: text_map_new(),
            pending_context: text_map_new(),
            extra: YamlValue::Null,
            source_uri: None,
        };
        assert(seq_view(b.includes@) =~= Seq::<Yaml>::empty());
        assert(seq_view(b.providers@) =~= Seq::<Yaml>::empty());
        assert(seq_view(b.tools@) =~= Seq::<Yaml>::empty());
        assert(seq_view(b.hooks@) =~= Seq::<Yaml>::empty());
        b
    }

    /// A copy of the bundle (what `clone` gives).
    pub fn copy(&self) -> (b: Bundle)
        ensures
            b@ == self@,
    {
        Bundle {
            name: copy_string(&self.name),
            version: copy_string(&self.version),
            description: copy_string(&self.description),
            includes: copy_values(&self.includes),
            session: copy_value(&self.session),
            providers: copy_values(&self.providers),
            tools: copy_values(&self.tools),
            hooks: copy_values(&self.hooks),
            spawn: copy_value(&self.spawn),
            agents: value_map_clone(&self.agents),
            context: text_map_clone(&self.context),
            instruction: copy_opt(&self.instruction),
            base_path: copy_opt(&self.base_path),
            source_base_paths: text_map_clone(&self.source_base_paths),
            pending_context: text_map_clone(&self.pending_context),
            extra: copy_value(&self.extra),
            source_uri: copy_opt(&self.source_uri),
        }
    }
}

impl Clone for Bundle {
    fn clone(&self) -> (r: Self)
        ensures
            r@ == self@,
    {
        self.copy()
    }
}

} // verus!
