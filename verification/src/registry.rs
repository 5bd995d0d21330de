//! The bundle registry: the state tracked for each known bundle, how it is
//! persisted, and how names, includes and sources are resolved.
use vstd::prelude::*;
use vstd::string::StrSliceExecFns;
use crate::json::{Json, JsonValue, json_items, json_members, lemma_array_view, lemma_object_view, members_get};
use crate::ordered::{
    text_map_get, text_map_insert, text_map_remove, first_text_key_at, state_map_entries, state_map_new,
    state_map_get, state_map_insert, state_map_shift_remove, state_map_keys, lemma_text_get_after_insert,
};
use indexmap::IndexMap;
use crate::text::str_eq;
use crate::bundle_dict::distinct_names;
use crate::text::{concat, contains_seq, has_char, is_prefix, split_once_char, str_contains, str_has_char,
    str_starts_with, str_chars, chars_split_once, chars_to_string};
use crate::registry_names::{before_char, include_model, parse_include};
use crate::disk::{path_exists, path_is_file, canonical_path, absolute_path, settled_path, first_present, is_absolute_text, with_extension, path_with_extension,
    parent_of, path_parent, strip_path_prefix, path_strip_prefix};
use crate::paths::{join_text, join_path, path_components};
use crate::error::BundleError;
use crate::value::{Yaml, YamlValue, seq_view};
use crate::bundle::{Bundle, BundleModel};
use crate::written::{written, cand_value, distinct_keys, lemma_written_lookup, lemma_cand_at, lemma_written_step};
use crate::text::{copy_string, str_to_string};
use crate::bundle::{copy_opt, opt_text};

verus! {

broadcast use vstd::std_specs::vec::group_vec_axioms;

/// A confirmed update for a registered bundle.
#[derive(Debug, Clone, PartialEq, Eq, Hash)]
pub struct UpdateInfo {
    pub name: String,
    pub current_version: Option<String>,
    pub available_version: String,
    pub uri: String,
}

/// What the registry tracks for one bundle. Times are ISO 8601 text.
#[derive(Debug)]
pub struct BundleState {
    pub uri: String,
    pub name: String,
    pub version: Option<String>,
    pub loaded_at: Option<String>,
    pub checked_at: Option<String>,
    pub local_path: Option<String>,
    pub includes: Vec<String>,
    pub included_by: Vec<String>,
    pub is_root: bool,
    pub root_name: Option<String>,
    pub explicitly_requested: bool,
    pub app_bundle: bool,
}

/// A bundle's tracked state as mathematical values.
pub struct StateModel {
    pub uri: Seq<char>,
    pub name: Seq<char>,
    pub version: Option<Seq<char>>,
    pub loaded_at: Option<Seq<char>>,
    pub checked_at: Option<Seq<char>>,
    pub local_path: Option<Seq<char>>,
    pub includes: Seq<Seq<char>>,
    pub included_by: Seq<Seq<char>>,
    pub is_root: bool,
    pub root_name: Option<Seq<char>>,
    pub explicitly_requested: bool,
    pub app_bundle: bool,
}

/// The texts of a list of strings.
pub open spec fn texts(xs: Seq<String>) -> Seq<Seq<char>> {
    Seq::new(xs.len(), |i: int| xs[i]@)
}

impl View for BundleState {
    type V = StateModel;

    open spec fn view(&self) -> StateModel {
        StateModel {
            uri: self.uri@,
            name: self.name@,
            version: opt_text(self.version),
            loaded_at: opt_text(self.loaded_at),
            checked_at: opt_text(self.checked_at),
            local_path: opt_text(self.local_path),
            includes: texts(self.includes@),
            included_by: texts(self.included_by@),
            is_root: self.is_root,
            root_name: opt_text(self.root_name),
            explicitly_requested: self.explicitly_requested,
            app_bundle: self.app_bundle,
        }
    }
}

/// A fresh state: a root bundle, nothing loaded, checked or related yet.
pub open spec fn new_state(name: Seq<char>, uri: Seq<char>) -> StateModel {
    StateModel {
        uri: uri,
        name: name,
        version: None,
        loaded_at: None,
        checked_at: None,
        local_path: None,
        includes: Seq::empty(),
        included_by: Seq::empty(),
        is_root: true,
        root_name: None,
        explicitly_requested: false,
        app_bundle: false,
    }
}

/// A copy of a list of strings.
pub fn copy_strings(xs: &Vec<String>) -> (r: Vec<String>)
    ensures
        texts(r@) == texts(xs@),
{
    let mut out: Vec<String> = Vec::new();
    let mut i: usize = 0;
    while i < xs.len()
        invariant
            i <= xs@.len(),
            out@.len() == i,
            forall|j: int| 0 <= j < i ==> (#[trigger] out@[j])@ == xs@[j]@,
        decreases xs@.len() - i,
    {
        out.push(copy_string(&xs[i]));
        i += 1;
    }
    assert(texts(out@) =~= texts(xs@));
    out
}

/// An optional text as a JSON member value.
pub open spec fn opt_member(o: Option<Seq<char>>) -> Json {
    match o {
        Some(s) => Json::Str(s),
        None => Json::Null,
    }
}

/// Texts as a JSON array of strings.
pub open spec fn str_array(xs: Seq<Seq<char>>) -> Json {
    Json::Arr(Seq::new(xs.len(), |i: int| Json::Str(xs[i])))
}

/// The members `to_dict` may write, in order: uri, name and the flags always;
/// the others when they are set (or, for lists, not empty).
pub open spec fn state_cands(s: StateModel) -> Seq<(Seq<char>, bool, Json)> {
    seq![
        ("uri"@, true, Json::Str(s.uri)),
        ("name"@, true, Json::Str(s.name)),
        ("version"@, s.version is Some, opt_member(s.version)),
        ("loaded_at"@, s.loaded_at is Some, opt_member(s.loaded_at)),
        ("checked_at"@, s.checked_at is Some, opt_member(s.checked_at)),
        ("local_path"@, s.local_path is Some, opt_member(s.local_path)),
        ("is_root"@, true, Json::Bool(s.is_root)),
        ("explicitly_requested"@, true, Json::Bool(s.explicitly_requested)),
        ("app_bundle"@, true, Json::Bool(s.app_bundle)),
        ("includes"@, s.includes.len() > 0, str_array(s.includes)),
        ("included_by"@, s.included_by.len() > 0, str_array(s.included_by)),
        ("root_name"@, s.root_name is Some, opt_member(s.root_name)),
    ]
}

/// The JSON object a state is persisted as.
pub open spec fn state_dict_model(s: StateModel) -> Json {
    Json::Obj(written(state_cands(s)))
}

/// The member `key` of `data` when it is an object.
pub open spec fn member(data: Json, key: Seq<char>) -> Option<Json> {
    match data {
        Json::Obj(m) => text_map_get(m, key),
        _ => None,
    }
}

/// The text of member `key` when it is a string.
pub open spec fn member_text(data: Json, key: Seq<char>) -> Option<Seq<char>> {
    match member(data, key) {
        Some(Json::Str(s)) => Some(s),
        _ => None,
    }
}

/// The text of member `key` when it is a non-empty string.
pub open spec fn member_nonempty(data: Json, key: Seq<char>) -> Option<Seq<char>> {
    match member_text(data, key) {
        Some(s) => if s.len() > 0 {
            Some(s)
        } else {
            None
        },
        None => None,
    }
}

/// The truth value of member `key`, or `default` when it is not a boolean.
pub open spec fn member_flag(data: Json, key: Seq<char>, default: bool) -> bool {
    match member(data, key) {
        Some(Json::Bool(b)) => b,
        _ => default,
    }
}

/// The strings of an array, other items left out.
pub open spec fn strings_of(xs: Seq<Json>) -> Seq<Seq<char>>
    decreases xs.len(),
{
    if xs.len() == 0 {
        Seq::empty()
    } else {
        let acc = strings_of(xs.drop_last());
        match xs.last() {
            Json::Str(s) => acc.push(s),
            _ => acc,
        }
    }
}

/// The strings of array member `key` (none when it is not an array).
pub open spec fn member_strings(data: Json, key: Seq<char>) -> Seq<Seq<char>> {
    match member(data, key) {
        Some(Json::Arr(xs)) => strings_of(xs),
        _ => Seq::empty(),
    }
}

/// The state that persisted data describes for bundle `name`: missing or
/// mistyped members take their defaults, empty times count as missing.
pub open spec fn state_from_dict_model(name: Seq<char>, data: Json) -> StateModel {
    StateModel {
        uri: match member_text(data, "uri"@) {
            Some(s) => s,
            None => Seq::empty(),
        },
        name: name,
        version: member_text(data, "version"@),
        loaded_at: member_nonempty(data, "loaded_at"@),
        checked_at: member_nonempty(data, "checked_at"@),
        local_path: member_text(data, "local_path"@),
        includes: member_strings(data, "includes"@),
        included_by: member_strings(data, "included_by"@),
        is_root: member_flag(data, "is_root"@, true),
        root_name: member_text(data, "root_name"@),
        explicitly_requested: member_flag(data, "explicitly_requested"@, false),
        app_bundle: member_flag(data, "app_bundle"@, false),
    }
}

fn put_member(m: &mut Vec<(String, JsonValue)>, key: &str, v: JsonValue)
    ensures
        json_members(final(m)@) == json_members(old(m)@).push((key@, v@)),
{
    let ghost before = json_members(m@);
    m.push((str_to_string(key), v));
    assert(json_members(m@) =~= before.push((key@, v@)));
}

fn string_array(xs: &Vec<String>) -> (r: JsonValue)
    ensures
        r@ == str_array(texts(xs@)),
{
    let mut out: Vec<JsonValue> = Vec::new();
    let mut i: usize = 0;
    while i < xs.len()
        invariant
            i <= xs@.len(),
            out@.len() == i,
            forall|j: int| 0 <= j < i ==> (#[trigger] out@[j])@ == Json::Str(xs@[j]@),
        decreases xs@.len() - i,
    {
        out.push(JsonValue::String(copy_string(&xs[i])));
        i += 1;
    }
    proof {
        lemma_array_view(out);
        assert(json_items(out@) =~= Seq::new(xs@.len() as nat, |j: int| Json::Str(texts(xs@)[j])));
    }
    JsonValue::Array(out)
}

fn member_text_exec<'a>(m: &'a Vec<(String, JsonValue)>, key: &str) -> (r: Option<&'a String>)
    ensures
        match r {
            Some(s) => member_text(Json::Obj(json_members(m@)), key@) == Some(s@),
            None => member_text(Json::Obj(json_members(m@)), key@) is None,
        },
{
    match members_get(m, key) {
        Some(JsonValue::String(s)) => Some(s),
        _ => None,
    }
}

fn member_flag_exec(m: &Vec<(String, JsonValue)>, key: &str, default: bool) -> (r: bool)
    ensures
        r == member_flag(Json::Obj(json_members(m@)), key@, default),
{
    match members_get(m, key) {
        Some(JsonValue::Bool(b)) => *b,
        _ => default,
    }
}

fn member_strings_exec(m: &Vec<(String, JsonValue)>, key: &str) -> (r: Vec<String>)
    ensures
        texts(r@) == member_strings(Json::Obj(json_members(m@)), key@),
{
    let mut out: Vec<String> = Vec::new();
    match members_get(m, key) {
        Some(JsonValue::Array(xs)) => {
            proof {
                lemma_array_view(*xs);
            }
            let ghost items = json_items(xs@);
            let mut i: usize = 0;
            assert(items.take(0) =~= Seq::<Json>::empty());
            while i < xs.len()
                invariant
                    i <= xs@.len(),
                    items == json_items(xs@),
                    texts(out@) == strings_of(items.take(i as int)),
                decreases xs@.len() - i,
            {
                proof {
                    let t = items.take(i + 1);
                    assert(t.drop_last() =~= items.take(i as int));
                    assert(t.last() == items[i as int]);
                }
                if let JsonValue::String(s) = &xs[i] {
                    let ghost before = texts(out@);
                    out.push(copy_string(s));
                    assert(texts(out@) =~= before.push(s@));
                }
                i += 1;
            }
            assert(items.take(xs@.len() as int) =~= items);
            out
        },
        _ => {
            assert(texts(out@) =~= Seq::<Seq<char>>::empty());
            out
        },
    }
}

impl BundleState {
    /// A fresh state for bundle `name` at `uri`.
    pub fn new(name: &str, uri: &str) -> (s: BundleState)
        ensures
            s@ == new_state(name@, uri@),
    {
        let s = BundleState {
            uri: str_to_string(uri),
            name: str_to_string(name),
            version: None,
            loaded_at: None,
            checked_at: None,
            local_path: None,
            includes: Vec::new(),
            included_by: Vec::new(),
            is_root: true,
            root_name: None,
            explicitly_requested: false,
            app_bundle: false,
        };
        assert(texts(s.includes@) =~= Seq::<Seq<char>>::empty());
        assert(texts(s.included_by@) =~= Seq::<Seq<char>>::empty());
        s
    }

    /// A copy of the state.
    pub fn copy(&self) -> (s: BundleState)
        ensures
            s@ == self@,
    {
        BundleState {
            uri: copy_string(&self.uri),
            name: copy_string(&self.name),
            version: copy_opt(&self.version),
            loaded_at: copy_opt(&self.loaded_at),
            checked_at: copy_opt(&self.checked_at),
            local_path: copy_opt(&self.local_path),
            includes: copy_strings(&self.includes),
            included_by: copy_strings(&self.included_by),
            is_root: self.is_root,
            root_name: copy_opt(&self.root_name),
            explicitly_requested: self.explicitly_requested,
            app_bundle: self.app_bundle,
        }
    }

    /// The JSON object this state is persisted as (see `state_cands`).
    pub fn to_dict(&self) -> (r: JsonValue)
        ensures
            r@ == state_dict_model(self@),
    {
        let ghost cs = state_cands(self@);
        let mut m: Vec<(String, JsonValue)> = Vec::new();
        assert(cs.take(0) =~= Seq::<(Seq<char>, bool, Json)>::empty());
        assert(json_members(m@) =~= Seq::<(Seq<char>, Json)>::empty());
        proof { lemma_written_step(cs, 0); }
        put_member(&mut m, "uri", JsonValue::String(copy_string(&self.uri)));
        proof { lemma_written_step(cs, 1); }
        put_member(&mut m, "name", JsonValue::String(copy_string(&self.name)));
        proof { lemma_written_step(cs, 2); }
        if let Some(v) = &self.version {
            put_member(&mut m, "version", JsonValue::String(copy_string(v)));
        }
        proof { lemma_written_step(cs, 3); }
        if let Some(v) = &self.loaded_at {
            put_member(&mut m, "loaded_at", JsonValue::String(copy_string(v)));
        }
        proof { lemma_written_step(cs, 4); }
        if let Some(v) = &self.checked_at {
            put_member(&mut m, "checked_at", JsonValue::String(copy_string(v)));
        }
        proof { lemma_written_step(cs, 5); }
        if let Some(v) = &self.local_path {
            put_member(&mut m, "local_path", JsonValue::String(copy_string(v)));
        }
        proof { lemma_written_step(cs, 6); }
        put_member(&mut m, "is_root", JsonValue::Bool(self.is_root));
        proof { lemma_written_step(cs, 7); }
        put_member(&mut m, "explicitly_requested", JsonValue::Bool(self.explicitly_requested));
        proof { lemma_written_step(cs, 8); }
        put_member(&mut m, "app_bundle", JsonValue::Bool(self.app_bundle));
        proof { lemma_written_step(cs, 9); }
        if self.includes.len() > 0 {
            put_member(&mut m, "includes", string_array(&self.includes));
        }
        proof { lemma_written_step(cs, 10); }
        if self.included_by.len() > 0 {
            put_member(&mut m, "included_by", string_array(&self.included_by));
        }
        proof { lemma_written_step(cs, 11); }
        if let Some(v) = &self.root_name {
            put_member(&mut m, "root_name", JsonValue::String(copy_string(v)));
        }
        assert(cs.take(12) =~= cs);
        proof {
            lemma_object_view(m);
        }
        JsonValue::Object(m)
    }

    /// The state persisted data describes for bundle `name` (see
    /// `state_from_dict_model`).
    pub fn from_dict(name: &str, data: &JsonValue) -> (s: BundleState)
        ensures
            s@ == state_from_dict_model(name@, data@),
    {
        let empty: Vec<(String, JsonValue)> = Vec::new();
        let m: &Vec<(String, JsonValue)> = match data {
            JsonValue::Object(m) => m,
            _ => &empty,
        };
        proof {
            lemma_object_view(*m);
            assert(json_members(empty@) =~= Seq::<(Seq<char>, Json)>::empty());
        }
        let ghost d = Json::Obj(json_members(m@));
        assert(forall|k: Seq<char>| #[trigger] member(d, k) == member(data@, k));
        let uri = match member_text_exec(m, "uri") {
            Some(s) => copy_string(s),
            None => String::new(),
        };
        let version = match member_text_exec(m, "version") {
            Some(s) => Some(copy_string(s)),
            None => None,
        };
        let loaded_at = match member_text_exec(m, "loaded_at") {
            Some(s) => if s.as_str().unicode_len() > 0 { Some(copy_string(s)) } else { None },
            None => None,
        };
        let checked_at = match member_text_exec(m, "checked_at") {
            Some(s) => if s.as_str().unicode_len() > 0 { Some(copy_string(s)) } else { None },
            None => None,
        };
        let local_path = match member_text_exec(m, "local_path") {
            Some(s) => Some(copy_string(s)),
            None => None,
        };
        let root_name = match member_text_exec(m, "root_name") {
            Some(s) => Some(copy_string(s)),
            None => None,
        };
        let s = BundleState {
            uri: uri,
            name: str_to_string(name),
            version: version,
            loaded_at: loaded_at,
            checked_at: checked_at,
            local_path: local_path,
            includes: member_strings_exec(m, "includes"),
            included_by: member_strings_exec(m, "included_by"),
            is_root: member_flag_exec(m, "is_root", true),
            root_name: root_name,
            explicitly_requested: member_flag_exec(m, "explicitly_requested", false),
            app_bundle: member_flag_exec(m, "app_bundle", false),
        };
        assert(s@.uri == state_from_dict_model(name@, data@).uri);
        assert(s@.loaded_at == state_from_dict_model(name@, data@).loaded_at);
        assert(s@.checked_at == state_from_dict_model(name@, data@).checked_at);
        s
    }
}

/// An optional time read back: an empty one counts as missing.
pub open spec fn nonempty_time(t: Option<Seq<char>>) -> Option<Seq<char>> {
    match t {
        Some(s) => if s.len() > 0 {
            Some(s)
        } else {
            None
        },
        None => None,
    }
}

proof fn lemma_state_keys_distinct(s: StateModel)
    ensures
        distinct_keys(state_cands(s)),
{
    reveal_strlit("uri");
    reveal_strlit("name");
    reveal_strlit("version");
    reveal_strlit("loaded_at");
    reveal_strlit("checked_at");
    reveal_strlit("local_path");
    reveal_strlit("is_root");
    reveal_strlit("explicitly_requested");
    reveal_strlit("app_bundle");
    reveal_strlit("includes");
    reveal_strlit("included_by");
    reveal_strlit("root_name");
    let cs = state_cands(s);
    let sig = Seq::new(cs.len(), |i: int| (cs[i].0.len(), cs[i].0[0]));
    assert(sig =~= seq![
        (3nat, 'u'), (4nat, 'n'), (7nat, 'v'), (9nat, 'l'), (10nat, 'c'), (10nat, 'l'),
        (7nat, 'i'), (20nat, 'e'), (10nat, 'a'), (8nat, 'i'), (11nat, 'i'), (9nat, 'r'),
    ]);
    assert forall|i: int, j: int| 0 <= i < j < cs.len() implies #[trigger] cs[i].0
        != #[trigger] cs[j].0 by {
        assert(sig[i] != sig[j]);
    }
}

proof fn lemma_strings_read_back(xs: Seq<Seq<char>>)
    ensures
        strings_of(Seq::new(xs.len(), |i: int| Json::Str(xs[i]))) == xs,
    decreases xs.len(),
{
    if xs.len() > 0 {
        let a = Seq::new(xs.len(), |i: int| Json::Str(xs[i]));
        let init = xs.drop_last();
        lemma_strings_read_back(init);
        assert(a.drop_last() =~= Seq::new(init.len(), |i: int| Json::Str(init[i])));
        assert(init.push(xs.last()) =~= xs);
    }
}

/// Reading back the persisted form of a state gives the state again, except
/// that an empty load or check time reads back as missing.
pub proof fn law_state_round_trip(s: StateModel)
    ensures
        state_from_dict_model(s.name, state_dict_model(s)) == (StateModel {
            loaded_at: nonempty_time(s.loaded_at),
            checked_at: nonempty_time(s.checked_at),
            ..s
        }),
{
    let cs = state_cands(s);
    lemma_state_keys_distinct(s);
    reveal_strlit("uri");
    reveal_strlit("name");
    reveal_strlit("version");
    reveal_strlit("loaded_at");
    reveal_strlit("checked_at");
    reveal_strlit("local_path");
    reveal_strlit("is_root");
    reveal_strlit("explicitly_requested");
    reveal_strlit("app_bundle");
    reveal_strlit("includes");
    reveal_strlit("included_by");
    reveal_strlit("root_name");
    lemma_written_lookup(cs, "uri"@);
    lemma_cand_at(cs, 0, "uri"@);
    lemma_written_lookup(cs, "version"@);
    lemma_cand_at(cs, 2, "version"@);
    lemma_written_lookup(cs, "loaded_at"@);
    lemma_cand_at(cs, 3, "loaded_at"@);
    lemma_written_lookup(cs, "checked_at"@);
    lemma_cand_at(cs, 4, "checked_at"@);
    lemma_written_lookup(cs, "local_path"@);
    lemma_cand_at(cs, 5, "local_path"@);
    lemma_written_lookup(cs, "is_root"@);
    lemma_cand_at(cs, 6, "is_root"@);
    lemma_written_lookup(cs, "explicitly_requested"@);
    lemma_cand_at(cs, 7, "explicitly_requested"@);
    lemma_written_lookup(cs, "app_bundle"@);
    lemma_cand_at(cs, 8, "app_bundle"@);
    lemma_written_lookup(cs, "includes"@);
    lemma_cand_at(cs, 9, "includes"@);
    lemma_written_lookup(cs, "included_by"@);
    lemma_cand_at(cs, 10, "included_by"@);
    lemma_written_lookup(cs, "root_name"@);
    lemma_cand_at(cs, 11, "root_name"@);
    lemma_strings_read_back(s.includes);
    lemma_strings_read_back(s.included_by);
    if s.includes.len() == 0 {
        assert(s.includes =~= Seq::<Seq<char>>::empty());
    }
    if s.included_by.len() == 0 {
        assert(s.included_by =~= Seq::<Seq<char>>::empty());
    }
}

/// Central bundle management: what is known of each bundle, by name, in the
/// order the names were first registered. Each name is held once.
pub struct BundleRegistry {
    home: String,
    bundles: IndexMap<String, BundleState>,
}

/// The text list without any occurrence of `n`.
pub open spec fn without(xs: Seq<Seq<char>>, n: Seq<char>) -> Seq<Seq<char>>
    decreases xs.len(),
{
    if xs.len() == 0 {
        Seq::empty()
    } else {
        let acc = without(xs.drop_last(), n);
        if xs.last() == n {
            acc
        } else {
            acc.push(xs.last())
        }
    }
}

/// The text list with `n` appended unless already present.
pub open spec fn with_added(xs: Seq<Seq<char>>, n: Seq<char>) -> Seq<Seq<char>> {
    if xs.contains(n) {
        xs
    } else {
        xs.push(n)
    }
}

/// Registration of name/URI pairs in order: a known name takes the new URI,
/// a new name gets a fresh state.
pub open spec fn register_model(
    acc: Seq<(Seq<char>, StateModel)>,
    pairs: Seq<(Seq<char>, Seq<char>)>,
) -> Seq<(Seq<char>, StateModel)>
    decreases pairs.len(),
{
    if pairs.len() == 0 {
        acc
    } else {
        let prev = register_model(acc, pairs.drop_last());
        let (name, uri) = pairs.last();
        match text_map_get(prev, name) {
            Some(st) => text_map_insert(prev, name, StateModel { uri: uri, ..st }),
            None => text_map_insert(prev, name, new_state(name, uri)),
        }
    }
}

/// Each named child that is registered stops listing `name` among the
/// bundles that include it.
pub open spec fn drop_included_by(
    acc: Seq<(Seq<char>, StateModel)>,
    children: Seq<Seq<char>>,
    name: Seq<char>,
) -> Seq<(Seq<char>, StateModel)>
    decreases children.len(),
{
    if children.len() == 0 {
        acc
    } else {
        let prev = drop_included_by(acc, children.drop_last(), name);
        let c = children.last();
        match text_map_get(prev, c) {
            Some(st) => text_map_insert(
                prev,
                c,
                StateModel { included_by: without(st.included_by, name), ..st },
            ),
            None => prev,
        }
    }
}

/// Each named parent that is registered stops listing `name` among its
/// includes.
pub open spec fn drop_includes(
    acc: Seq<(Seq<char>, StateModel)>,
    parents: Seq<Seq<char>>,
    name: Seq<char>,
) -> Seq<(Seq<char>, StateModel)>
    decreases parents.len(),
{
    if parents.len() == 0 {
        acc
    } else {
        let prev = drop_includes(acc, parents.drop_last(), name);
        let p = parents.last();
        match text_map_get(prev, p) {
            Some(st) => text_map_insert(
                prev,
                p,
                StateModel { includes: without(st.includes, name), ..st },
            ),
            None => prev,
        }
    }
}

/// The registry's entries after `name` is unregistered: its entry removed,
/// and the relations it had on both sides cleaned up.
pub open spec fn unregister_model(s: Seq<(Seq<char>, StateModel)>, name: Seq<char>) -> Seq<
    (Seq<char>, StateModel),
> {
    match text_map_get(s, name) {
        Some(st) => drop_includes(
            drop_included_by(text_map_remove(s, name), st.includes, name),
            st.included_by,
            name,
        ),
        None => s,
    }
}

/// The parent's includes gain each child not yet listed.
pub open spec fn add_all(xs: Seq<Seq<char>>, ns: Seq<Seq<char>>) -> Seq<Seq<char>>
    decreases ns.len(),
{
    if ns.len() == 0 {
        xs
    } else {
        with_added(add_all(xs, ns.drop_last()), ns.last())
    }
}

/// Each registered child gains `parent` among the bundles including it.
pub open spec fn add_included_by(
    acc: Seq<(Seq<char>, StateModel)>,
    children: Seq<Seq<char>>,
    parent: Seq<char>,
) -> Seq<(Seq<char>, StateModel)>
    decreases children.len(),
{
    if children.len() == 0 {
        acc
    } else {
        let prev = add_included_by(acc, children.drop_last(), parent);
        let c = children.last();
        match text_map_get(prev, c) {
            Some(st) => text_map_insert(
                prev,
                c,
                StateModel { included_by: with_added(st.included_by, parent), ..st },
            ),
            None => prev,
        }
    }
}

/// The entries after recording that `parent` includes `children`.
pub open spec fn record_model(
    s: Seq<(Seq<char>, StateModel)>,
    parent: Seq<char>,
    children: Seq<Seq<char>>,
) -> Seq<(Seq<char>, StateModel)> {
    let s1 = match text_map_get(s, parent) {
        Some(st) => text_map_insert(s, parent, StateModel { includes: add_all(st.includes, children), ..st }),
        None => s,
    };
    add_included_by(s1, children, parent)
}

fn remove_text(xs: &Vec<String>, n: &str) -> (r: Vec<String>)
    ensures
        texts(r@) == without(texts(xs@), n@),
{
    let ghost src = texts(xs@);
    let mut out: Vec<String> = Vec::new();
    let mut i: usize = 0;
    assert(src.take(0) =~= Seq::<Seq<char>>::empty());
    assert(texts(out@) =~= Seq::<Seq<char>>::empty());
    while i < xs.len()
        invariant
            i <= xs@.len(),
            src == texts(xs@),
            texts(out@) == without(src.take(i as int), n@),
        decreases xs@.len() - i,
    {
        proof {
            let t = src.take(i + 1);
            assert(t.drop_last() =~= src.take(i as int));
            assert(t.last() == src[i as int]);
        }
        if !str_eq(xs[i].as_str(), n) {
            let ghost before = texts(out@);
            out.push(copy_string(&xs[i]));
            assert(texts(out@) =~= before.push(src[i as int]));
        }
        i += 1;
    }
    assert(src.take(xs@.len() as int) =~= src);
    out
}

fn contains_text(xs: &[String], n: &str) -> (r: bool)
    ensures
        r == texts(xs@).contains(n@),
{
    let mut i: usize = 0;
    while i < xs.len()
        invariant
            i <= xs@.len(),
            forall|k: int| 0 <= k < i ==> texts(xs@)[k] != n@,
        decreases xs@.len() - i,
    {
        if str_eq(xs[i].as_str(), n) {
            assert(texts(xs@)[i as int] == n@);
            return true;
        }
        i += 1;
    }
    false
}

fn add_text(xs: &mut Vec<String>, n: &str)
    ensures
        texts(final(xs)@) == with_added(texts(old(xs)@), n@),
{
    if !contains_text(xs.as_slice(), n) {
        let ghost before = texts(xs@);
        xs.push(str_to_string(n));
        assert(texts(xs@) =~= before.push(n@));
    }
}

impl BundleRegistry {
    #[verifier::type_invariant]
    spec fn names_held_once(self) -> bool {
        distinct_names(state_map_entries(self.bundles))
    }

    /// What the registry knows, by name, in order.
    pub closed spec fn entries(self) -> Seq<(Seq<char>, StateModel)> {
        state_map_entries(self.bundles)
    }

    /// The registry's home directory.
    pub closed spec fn home_dir(self) -> Seq<char> {
        self.home@
    }

    /// An empty registry kept under `home`.
    pub fn new(home: &str) -> (r: BundleRegistry)
        ensures
            r.entries() == Seq::<(Seq<char>, StateModel)>::empty(),
            r.home_dir() == home@,
            distinct_names(r.entries()),
    {
        BundleRegistry { home: str_to_string(home), bundles: state_map_new() }
    }

    /// The home directory.
    pub fn home(&self) -> (r: &String)
        ensures
            r@ == self.home_dir(),
    {
        &self.home
    }
}

/// Storing a value keeps every name held once.
pub proof fn lemma_insert_keeps_names_once<V>(s: Seq<(Seq<char>, V)>, k: Seq<char>, v: V)
    requires
        distinct_names(s),
    ensures
        distinct_names(text_map_insert(s, k, v)),
{
    let t = text_map_insert(s, k, v);
    if exists|j: int| first_text_key_at(s, k, j) {
        let j = choose|j: int| first_text_key_at(s, k, j);
        assert forall|a: int, b: int| 0 <= a < b < t.len() implies #[trigger] t[a].0 != #[trigger] t[b].0 by {
            assert(t[a].0 == s[a].0 && t[b].0 == s[b].0);
        }
    } else {
        assert forall|a: int, b: int| 0 <= a < b < t.len() implies #[trigger] t[a].0 != #[trigger] t[b].0 by {
            if b == s.len() {
                if s[a].0 == k {
                    assert(first_text_key_at(s, k, a)) by {
                        assert forall|i: int| 0 <= i < a implies #[trigger] s[i].0 != k by {
                            assert(s[i].0 != s[a].0);
                        }
                    }
                }
            } else {
                assert(t[a] == s[a] && t[b] == s[b]);
            }
        }
    }
}

/// Removing a name keeps every other name held once, and the name is gone.
pub proof fn lemma_remove_keeps_names_once<V>(s: Seq<(Seq<char>, V)>, k: Seq<char>)
    requires
        distinct_names(s),
    ensures
        distinct_names(text_map_remove(s, k)),
        text_map_get(text_map_remove(s, k), k) is None,
{
    let t = text_map_remove(s, k);
    if exists|j: int| first_text_key_at(s, k, j) {
        let j = choose|j: int| first_text_key_at(s, k, j);
        assert forall|a: int, b: int| 0 <= a < b < t.len() implies #[trigger] t[a].0 != #[trigger] t[b].0 by {
            let sa = if a < j { a } else { a + 1 };
            let sb = if b < j { b } else { b + 1 };
            assert(t[a] == s[sa] && t[b] == s[sb]);
        }
        assert forall|i: int| 0 <= i < t.len() implies #[trigger] t[i].0 != k by {
            let si = if i < j { i } else { i + 1 };
            assert(t[i] == s[si]);
            assert(s[si].0 != s[j].0);
        }
    } else {
        assert forall|i: int| 0 <= i < t.len() implies #[trigger] t[i].0 != k by {
            if t[i].0 == k {
                assert(first_text_key_at(s, k, i)) by {
                    assert forall|m: int| 0 <= m < i implies #[trigger] s[m].0 != k by {
                        assert(s[m].0 != s[i].0);
                    }
                }
            }
        }
    }
}

proof fn lemma_without(xs: Seq<Seq<char>>, n: Seq<char>)
    ensures
        !without(xs, n).contains(n),
        without(without(xs, n), n) == without(xs, n),
        forall|y: Seq<char>| y != n ==> (#[trigger] without(xs, n).contains(y) <==> xs.contains(y)),
    decreases xs.len(),
{
    if xs.len() > 0 {
        let p = xs.drop_last();
        lemma_without(p, n);
        let a = without(p, n);
        if xs.last() != n {
            let b = a.push(xs.last());
            assert(b.drop_last() =~= a);
            assert(without(b, n) == without(a, n).push(xs.last()));
            assert(!b.contains(n)) by {
                if b.contains(n) {
                    let k = choose|k: int| 0 <= k < b.len() && b[k] == n;
                    if k < a.len() {
                        assert(a[k] == n);
                    }
                }
            }
        }
        assert forall|y: Seq<char>| y != n implies (#[trigger] without(xs, n).contains(y) <==> xs.contains(y)) by {
            let w = without(xs, n);
            if xs.last() != n {
                assert(w == a.push(xs.last()));
            } else {
                assert(w == a);
            }
            if xs.contains(y) {
                let k = choose|k: int| 0 <= k < xs.len() && xs[k] == y;
                if k < p.len() {
                    assert(p[k] == y);
                    assert(p.contains(y));
                    assert(without(p, n).contains(y));
                    let k2 = choose|k2: int| 0 <= k2 < a.len() && a[k2] == y;
                    if xs.last() != n {
                        assert(w[k2] == y);
                    }
                } else {
                    assert(w[w.len() - 1] == y);
                }
            }
            if w.contains(y) {
                let k = choose|k: int| 0 <= k < w.len() && w[k] == y;
                if k < a.len() {
                    assert(a[k] == y);
                    assert(without(p, n).contains(y));
                    let k2 = choose|k2: int| 0 <= k2 < p.len() && p[k2] == y;
                    assert(xs[k2] == y);
                } else {
                    assert(xs[xs.len() - 1] == y);
                }
            }
        }
    }
}

/// Looking up a key after the named children stop listing `name` among
/// their includers.
proof fn lemma_drop_included_by_get(acc: Seq<(Seq<char>, StateModel)>, cs: Seq<Seq<char>>, name: Seq<char>, q: Seq<char>)
    ensures
        text_map_get(drop_included_by(acc, cs, name), q) == match text_map_get(acc, q) {
            None => None,
            Some(st) => Some(
                if cs.contains(q) {
                    StateModel { included_by: without(st.included_by, name), ..st }
                } else {
                    st
                },
            ),
        },
    decreases cs.len(),
{
    if cs.len() > 0 {
        let p = cs.drop_last();
        let c = cs.last();
        lemma_drop_included_by_get(acc, p, name, q);
        lemma_drop_included_by_get(acc, p, name, c);
        let prev = drop_included_by(acc, p, name);
        assert(cs.contains(q) == (p.contains(q) || q == c)) by {
            if cs.contains(q) && q != c {
                let k = choose|k: int| 0 <= k < cs.len() && cs[k] == q;
                assert(p[k] == q);
            }
            if p.contains(q) {
                let k = choose|k: int| 0 <= k < p.len() && p[k] == q;
                assert(cs[k] == q);
            }
            if q == c {
                assert(cs[cs.len() - 1] == q);
            }
        }
        match text_map_get(prev, c) {
            Some(stc) => {
                lemma_text_get_after_insert(
                    prev,
                    c,
                    StateModel { included_by: without(stc.included_by, name), ..stc },
                    q,
                );
                match text_map_get(acc, c) {
                    Some(st0) => {
                        lemma_without(st0.included_by, name);
                    },
                    None => {},
                }
            },
            None => {},
        }
    }
}

/// Looking up a key after the named parents stop listing `name` among their
/// includes.
proof fn lemma_drop_includes_get(acc: Seq<(Seq<char>, StateModel)>, ps: Seq<Seq<char>>, name: Seq<char>, q: Seq<char>)
    ensures
        text_map_get(drop_includes(acc, ps, name), q) == match text_map_get(acc, q) {
            None => None,
            Some(st) => Some(
                if ps.contains(q) {
                    StateModel { includes: without(st.includes, name), ..st }
                } else {
                    st
                },
            ),
        },
    decreases ps.len(),
{
    if ps.len() > 0 {
        let p = ps.drop_last();
        let c = ps.last();
        lemma_drop_includes_get(acc, p, name, q);
        lemma_drop_includes_get(acc, p, name, c);
        let prev = drop_includes(acc, p, name);
        assert(ps.contains(q) == (p.contains(q) || q == c)) by {
            if ps.contains(q) && q != c {
                let k = choose|k: int| 0 <= k < ps.len() && ps[k] == q;
                assert(p[k] == q);
            }
            if p.contains(q) {
                let k = choose|k: int| 0 <= k < p.len() && p[k] == q;
                assert(ps[k] == q);
            }
            if q == c {
                assert(ps[ps.len() - 1] == q);
            }
        }
        match text_map_get(prev, c) {
            Some(stc) => {
                lemma_text_get_after_insert(prev, c, StateModel { includes: without(stc.includes, name), ..stc }, q);
                match text_map_get(acc, c) {
                    Some(st0) => {
                        lemma_without(st0.includes, name);
                    },
                    None => {},
                }
            },
            None => {},
        }
    }
}

/// With every name held once, the entry at position `i` is what its name
/// looks up.
proof fn lemma_get_at<V>(s: Seq<(Seq<char>, V)>, i: int)
    requires
        distinct_names(s),
        0 <= i < s.len(),
    ensures
        text_map_get(s, s[i].0) == Some(s[i].1),
{
    assert(first_text_key_at(s, s[i].0, i)) by {
        assert forall|m: int| 0 <= m < i implies #[trigger] s[m].0 != s[i].0 by {}
    }
    let w = choose|w: int| first_text_key_at(s, s[i].0, w);
    if w < i {
        assert(s[w].0 != s[i].0);
    }
    if w > i {
        assert(s[i].0 != s[i].0);
    }
}

/// Removing `k` leaves what every other name looks up as it was.
proof fn lemma_remove_get_other<V>(s: Seq<(Seq<char>, V)>, k: Seq<char>, q: Seq<char>)
    requires
        distinct_names(s),
        q != k,
    ensures
        text_map_get(text_map_remove(s, k), q) == text_map_get(s, q),
{
    let t = text_map_remove(s, k);
    lemma_remove_keeps_names_once(s, k);
    if exists|j: int| first_text_key_at(s, k, j) {
        let j = choose|j: int| first_text_key_at(s, k, j);
        assert(t == s.remove(j));
        if exists|w: int| first_text_key_at(s, q, w) {
            let w = choose|w: int| first_text_key_at(s, q, w);
            assert(w != j);
            let tw = if w < j { w } else { w - 1 };
            assert(t[tw] == s[w]);
            lemma_get_at(t, tw);
        } else {
            if exists|w: int| first_text_key_at(t, q, w) {
                let w = choose|w: int| first_text_key_at(t, q, w);
                let sw = if w < j { w } else { w + 1 };
                assert(t[w] == s[sw]);
                lemma_get_at(s, sw);
            }
        }
    }
}

/// The include links run both ways: when a registered bundle lists a
/// registered bundle among its includes, that one lists it among its
/// includers, and the other way round.
pub open spec fn links_both_ways(s: Seq<(Seq<char>, StateModel)>) -> bool {
    &&& forall|a: Seq<char>, b: Seq<char>|
        #![trigger text_map_get(s, a), text_map_get(s, b)]
        text_map_get(s, a) is Some && text_map_get(s, b) is Some && text_map_get(s, a)->0.includes.contains(b)
            ==> text_map_get(s, b)->0.included_by.contains(a)
    &&& forall|a: Seq<char>, b: Seq<char>|
        #![trigger text_map_get(s, a), text_map_get(s, b)]
        text_map_get(s, a) is Some && text_map_get(s, b) is Some && text_map_get(s, a)->0.included_by.contains(b)
            ==> text_map_get(s, b)->0.includes.contains(a)
}

/// Unregistering a registered bundle whose include links run both ways
/// leaves nothing of it behind: it is no longer registered, and no bundle
/// left lists it among its includes or its includers.
pub proof fn law_unregister_leaves_nothing(s: Seq<(Seq<char>, StateModel)>, name: Seq<char>, q: Seq<char>)
    requires
        distinct_names(s),
        links_both_ways(s),
        text_map_get(s, name) is Some,
    ensures
        text_map_get(unregister_model(s, name), name) is None,
        text_map_get(unregister_model(s, name), q) matches Some(st) ==> !st.includes.contains(name)
            && !st.included_by.contains(name),
{
    law_unregister_forgets(s, name);
    if q != name {
        match text_map_get(s, name) {
            Some(stn) => {
                let r = text_map_remove(s, name);
                let d1 = drop_included_by(r, stn.includes, name);
                lemma_remove_get_other(s, name, q);
                lemma_drop_included_by_get(r, stn.includes, name, q);
                lemma_drop_includes_get(d1, stn.included_by, name, q);
                match text_map_get(s, q) {
                    Some(stq) => {
                        lemma_without(stq.includes, name);
                        lemma_without(stq.included_by, name);
                        if stq.includes.contains(name) {
                            assert(stn.included_by.contains(q));
                        }
                        if stq.included_by.contains(name) {
                            assert(stn.includes.contains(q));
                        }
                    },
                    None => {},
                }
            },
            None => {},
        }
    }
}

/// The model of a list of name/URI pairs.
pub open spec fn pairs_view(ps: Seq<(String, String)>) -> Seq<(Seq<char>, Seq<char>)> {
    Seq::new(ps.len(), |i: int| (ps[i].0@, ps[i].1@))
}

impl BundleRegistry {
    fn put(&mut self, name: String, st: BundleState)
        ensures
            final(self).entries() == text_map_insert(old(self).entries(), name@, st@),
            final(self).home_dir() == old(self).home_dir(),
    {
        proof {
            use_type_invariant(&*self);
            lemma_insert_keeps_names_once(state_map_entries(self.bundles), name@, st@);
        }
        let mut m = state_map_new();
        std::mem::swap(&mut m, &mut self.bundles);
        state_map_insert(&mut m, name, st);
        std::mem::swap(&mut m, &mut self.bundles);
    }

    /// Registers bundles by name and URI, in the order given: a known name
    /// takes the new URI, a new name gets a fresh state. Nothing is persisted.
    pub fn register(&mut self, bundles: &[(String, String)])
        ensures
            final(self).entries() == register_model(old(self).entries(), pairs_view(bundles@)),
            final(self).home_dir() == old(self).home_dir(),
            distinct_names(final(self).entries()),
    {
        let ghost ps = pairs_view(bundles@);
        let ghost start = self.entries();
        let mut i: usize = 0;
        assert(ps.take(0) =~= Seq::<(Seq<char>, Seq<char>)>::empty());
        while i < bundles.len()
            invariant
                i <= bundles@.len(),
                ps == pairs_view(bundles@),
                self.entries() == register_model(start, ps.take(i as int)),
                self.home_dir() == old(self).home_dir(),
            decreases bundles@.len() - i,
        {
            proof {
                let t = ps.take(i + 1);
                assert(t.drop_last() =~= ps.take(i as int));
                assert(t.last() == ps[i as int]);
            }
            let name = &bundles[i].0;
            let uri = &bundles[i].1;
            let updated = match state_map_get(&self.bundles, name.as_str()) {
                Some(st) => {
                    let mut c = st.copy();
                    c.uri = copy_string(uri);
                    c
                },
                None => BundleState::new(name.as_str(), uri.as_str()),
            };
            self.put(copy_string(name), updated);
            i += 1;
        }
        assert(ps.take(bundles@.len() as int) =~= ps);
        proof {
            use_type_invariant(&*self);
        }
    }

    /// The URI of a registered bundle.
    pub fn find(&self, name: &str) -> (r: Option<String>)
        ensures
            match r {
                Some(u) => text_map_get(self.entries(), name@) matches Some(st) && st.uri == u@,
                None => text_map_get(self.entries(), name@) is None,
            },
    {
        match state_map_get(&self.bundles, name) {
            Some(st) => Some(copy_string(&st.uri)),
            None => None,
        }
    }

    /// The state of a registered bundle.
    pub fn find_state(&self, name: &str) -> (r: Option<&BundleState>)
        ensures
            match r {
                Some(st) => text_map_get(self.entries(), name@) == Some(st@),
                None => text_map_get(self.entries(), name@) is None,
            },
    {
        state_map_get(&self.bundles, name)
    }

    /// All tracked states, by name.
    pub fn get_all_states(&self) -> (r: &IndexMap<String, BundleState>)
        ensures
            state_map_entries(*r) == self.entries(),
    {
        &self.bundles
    }

    /// The state of bundle `name`, a fresh one (with no URI) being recorded
    /// first when the name is not registered.
    pub fn get_state(&mut self, name: &str) -> (r: BundleState)
        ensures
            final(self).entries() == match text_map_get(old(self).entries(), name@) {
                Some(_) => old(self).entries(),
                None => text_map_insert(old(self).entries(), name@, new_state(name@, Seq::empty())),
            },
            text_map_get(final(self).entries(), name@) == Some(r@),
            final(self).home_dir() == old(self).home_dir(),
    {
        proof {
            reveal_strlit("");
        }
        match state_map_get(&self.bundles, name) {
            Some(st) => st.copy(),
            None => {
                let st = BundleState::new(name, "");
                assert(""@ =~= Seq::<char>::empty());
                assert(st@ == new_state(name@, Seq::empty()));
                let c = st.copy();
                self.put(str_to_string(name), st);
                proof {
                    crate::ordered::lemma_text_get_after_insert(
                        old(self).entries(),
                        name@,
                        c@,
                        name@,
                    );
                }
                c
            },
        }
    }

    /// Replaces the state recorded for `name`.
    pub fn set_state(&mut self, name: &str, state: BundleState)
        ensures
            final(self).entries() == text_map_insert(old(self).entries(), name@, state@),
            final(self).home_dir() == old(self).home_dir(),
    {
        self.put(str_to_string(name), state);
    }

    /// The registered names, sorted.
    pub fn list_registered(&self) -> (r: Vec<String>)
        ensures
            crate::sorting::sorted_texts(texts(r@)),
            texts(r@).to_multiset() == Seq::new(
                self.entries().len(),
                |i: int| self.entries()[i].0,
            ).to_multiset(),
            distinct_names(self.entries()),
    {
        proof {
            use_type_invariant(self);
        }
        let keys = state_map_keys(&self.bundles);
        let r = crate::sorting::sort_texts(keys);
        assert(Seq::new(keys@.len(), |i: int| keys@[i]@) =~= Seq::new(
            self.entries().len(),
            |i: int| self.entries()[i].0,
        ));
        assert(texts(r@) =~= Seq::new(r@.len(), |i: int| r@[i]@));
        r
    }
}

impl BundleRegistry {
    /// Unregisters `name`: its entry goes, each bundle it included stops
    /// listing it as an includer, and each bundle that included it stops
    /// listing it as an include. Whether it was registered is returned.
    /// Nothing is persisted.
    pub fn unregister(&mut self, name: &str) -> (r: bool)
        ensures
            r == text_map_get(old(self).entries(), name@) is Some,
            final(self).entries() == unregister_model(old(self).entries(), name@),
            final(self).home_dir() == old(self).home_dir(),
            distinct_names(old(self).entries()),
    {
        proof {
            use_type_invariant(&*self);
            lemma_remove_keeps_names_once(state_map_entries(self.bundles), name@);
        }
        let ghost start = self.entries();
        let mut m = state_map_new();
        std::mem::swap(&mut m, &mut self.bundles);
        let removed = state_map_shift_remove(&mut m, name);
        std::mem::swap(&mut m, &mut self.bundles);
        let state = match removed {
            Some(st) => st,
            None => {
                assert(text_map_remove(start, name@) == start);
                return false;
            },
        };
        let ghost after_remove = self.entries();
        let ghost children = texts(state.includes@);
        let mut i: usize = 0;
        assert(children.take(0) =~= Seq::<Seq<char>>::empty());
        while i < state.includes.len()
            invariant
                i <= state.includes@.len(),
                children == texts(state.includes@),
                self.entries() == drop_included_by(after_remove, children.take(i as int), name@),
                self.home_dir() == old(self).home_dir(),
            decreases state.includes@.len() - i,
        {
            proof {
                let t = children.take(i + 1);
                assert(t.drop_last() =~= children.take(i as int));
                assert(t.last() == children[i as int]);
            }
            let child = &state.includes[i];
            let updated = match state_map_get(&self.bundles, child.as_str()) {
                Some(cs) => {
                    let mut c = cs.copy();
                    c.included_by = remove_text(&cs.included_by, name);
                    Some(c)
                },
                None => None,
            };
            if let Some(c) = updated {
                self.put(copy_string(child), c);
            }
            i += 1;
        }
        assert(children.take(children.len() as int) =~= children);
        let ghost after_children = self.entries();
        let ghost parents = texts(state.included_by@);
        let mut j: usize = 0;
        assert(parents.take(0) =~= Seq::<Seq<char>>::empty());
        while j < state.included_by.len()
            invariant
                j <= state.included_by@.len(),
                parents == texts(state.included_by@),
                self.entries() == drop_includes(after_children, parents.take(j as int), name@),
                self.home_dir() == old(self).home_dir(),
            decreases state.included_by@.len() - j,
        {
            proof {
                let t = parents.take(j + 1);
                assert(t.drop_last() =~= parents.take(j as int));
                assert(t.last() == parents[j as int]);
            }
            let parent = &state.included_by[j];
            let updated = match state_map_get(&self.bundles, parent.as_str()) {
                Some(ps) => {
                    let mut c = ps.copy();
                    c.includes = remove_text(&ps.includes, name);
                    Some(c)
                },
                None => None,
            };
            if let Some(c) = updated {
                self.put(copy_string(parent), c);
            }
            j += 1;
        }
        assert(parents.take(parents.len() as int) =~= parents);
        true
    }

    /// Records that `parent_name` includes `child_names`: the parent's
    /// includes gain each child not listed yet, and each registered child
    /// gains the parent among its includers (once). Nothing is persisted.
    pub fn record_include_relationships(&mut self, parent_name: &str, child_names: &[String])
        ensures
            final(self).entries() == record_model(old(self).entries(), parent_name@, texts(child_names@)),
            final(self).home_dir() == old(self).home_dir(),
    {
        let ghost cs = texts(child_names@);
        let ghost start = self.entries();
        let parent_update = match state_map_get(&self.bundles, parent_name) {
            Some(ps) => {
                let mut c = ps.copy();
                let mut k: usize = 0;
                assert(cs.take(0) =~= Seq::<Seq<char>>::empty());
                while k < child_names.len()
                    invariant
                        k <= child_names@.len(),
                        cs == texts(child_names@),
                        texts(c.includes@) == add_all(ps@.includes, cs.take(k as int)),
                        c@ == (StateModel { includes: texts(c.includes@), ..ps@ }),
                    decreases child_names@.len() - k,
                {
                    proof {
                        let t = cs.take(k + 1);
                        assert(t.drop_last() =~= cs.take(k as int));
                        assert(t.last() == cs[k as int]);
                    }
                    add_text(&mut c.includes, child_names[k].as_str());
                    k += 1;
                }
                assert(cs.take(cs.len() as int) =~= cs);
                Some(c)
            },
            None => None,
        };
        if let Some(c) = parent_update {
            self.put(str_to_string(parent_name), c);
        }
        let ghost s1 = self.entries();
        let mut i: usize = 0;
        assert(cs.take(0) =~= Seq::<Seq<char>>::empty());
        while i < child_names.len()
            invariant
                i <= child_names@.len(),
                cs == texts(child_names@),
                self.entries() == add_included_by(s1, cs.take(i as int), parent_name@),
                self.home_dir() == old(self).home_dir(),
            decreases child_names@.len() - i,
        {
            proof {
                let t = cs.take(i + 1);
                assert(t.drop_last() =~= cs.take(i as int));
                assert(t.last() == cs[i as int]);
            }
            let child = &child_names[i];
            let updated = match state_map_get(&self.bundles, child.as_str()) {
                Some(st) => {
                    let mut c = st.copy();
                    add_text(&mut c.included_by, parent_name);
                    Some(c)
                },
                None => None,
            };
            if let Some(c) = updated {
                self.put(copy_string(child), c);
            }
            i += 1;
        }
        assert(cs.take(cs.len() as int) =~= cs);
    }

    /// The same recording, for callers that persist later.
    pub fn record_include_relationships_deferred(&mut self, parent_name: &str, child_names: &[String])
        ensures
            final(self).entries() == record_model(old(self).entries(), parent_name@, texts(child_names@)),
            final(self).home_dir() == old(self).home_dir(),
    {
        self.record_include_relationships(parent_name, child_names);
    }
}

proof fn lemma_drop_included_by_keeps_absent(
    acc: Seq<(Seq<char>, StateModel)>,
    cs: Seq<Seq<char>>,
    name: Seq<char>,
)
    requires
        text_map_get(acc, name) is None,
    ensures
        text_map_get(drop_included_by(acc, cs, name), name) is None,
    decreases cs.len(),
{
    if cs.len() > 0 {
        lemma_drop_included_by_keeps_absent(acc, cs.drop_last(), name);
        let prev = drop_included_by(acc, cs.drop_last(), name);
        let c = cs.last();
        if let Some(st) = text_map_get(prev, c) {
            crate::ordered::lemma_text_get_after_insert(
                prev,
                c,
                StateModel { included_by: without(st.included_by, name), ..st },
                name,
            );
        }
    }
}

proof fn lemma_drop_includes_keeps_absent(
    acc: Seq<(Seq<char>, StateModel)>,
    ps: Seq<Seq<char>>,
    name: Seq<char>,
)
    requires
        text_map_get(acc, name) is None,
    ensures
        text_map_get(drop_includes(acc, ps, name), name) is None,
    decreases ps.len(),
{
    if ps.len() > 0 {
        lemma_drop_includes_keeps_absent(acc, ps.drop_last(), name);
        let prev = drop_includes(acc, ps.drop_last(), name);
        let p = ps.last();
        if let Some(st) = text_map_get(prev, p) {
            crate::ordered::lemma_text_get_after_insert(
                prev,
                p,
                StateModel { includes: without(st.includes, name), ..st },
                name,
            );
        }
    }
}

/// After a bundle is unregistered it is no longer registered.
pub proof fn law_unregister_forgets(s: Seq<(Seq<char>, StateModel)>, name: Seq<char>)
    requires
        distinct_names(s),
    ensures
        text_map_get(unregister_model(s, name), name) is None,
{
    if let Some(st) = text_map_get(s, name) {
        lemma_remove_keeps_names_once(s, name);
        let r = text_map_remove(s, name);
        lemma_drop_included_by_keeps_absent(r, st.includes, name);
        lemma_drop_includes_keeps_absent(drop_included_by(r, st.includes, name), st.included_by, name);
    }
}

proof fn lemma_add_all_contains(xs: Seq<Seq<char>>, ns: Seq<Seq<char>>, i: int)
    requires
        0 <= i < ns.len(),
    ensures
        add_all(xs, ns).contains(ns[i]),
    decreases ns.len(),
{
    if i < ns.len() - 1 {
        lemma_add_all_contains(xs, ns.drop_last(), i);
        let prev = add_all(xs, ns.drop_last());
        assert(ns.drop_last()[i] == ns[i]);
        let w = choose|w: int| 0 <= w < prev.len() && prev[w] == ns[i];
        if !prev.contains(ns.last()) {
            assert(prev.push(ns.last())[w] == ns[i]);
        }
    } else {
        let prev = add_all(xs, ns.drop_last());
        if !prev.contains(ns.last()) {
            assert(prev.push(ns.last())[prev.len() as int] == ns.last());
        }
    }
}

/// What a registered bundle is included by, in `s`.
pub open spec fn includers_of(s: Seq<(Seq<char>, StateModel)>, q: Seq<char>) -> Seq<Seq<char>> {
    text_map_get(s, q)->0.included_by
}

/// What a registered bundle includes, in `s`.
pub open spec fn includes_of(s: Seq<(Seq<char>, StateModel)>, q: Seq<char>) -> Seq<Seq<char>> {
    text_map_get(s, q)->0.includes
}

proof fn lemma_add_included_by(acc: Seq<(Seq<char>, StateModel)>, cs: Seq<Seq<char>>, p: Seq<char>)
    ensures
        forall|q: Seq<char>|
            #[trigger] text_map_get(acc, q) is Some ==> text_map_get(add_included_by(acc, cs, p), q) is Some
                && includes_of(add_included_by(acc, cs, p), q) == includes_of(acc, q),
        forall|j: int|
            0 <= j < cs.len() && text_map_get(acc, #[trigger] cs[j]) is Some ==> includers_of(
                add_included_by(acc, cs, p),
                cs[j],
            ).contains(p),
    decreases cs.len(),
{
    if cs.len() > 0 {
        let init = cs.drop_last();
        lemma_add_included_by(acc, init, p);
        let prev = add_included_by(acc, init, p);
        let c = cs.last();
        let res = add_included_by(acc, cs, p);
        if let Some(st) = text_map_get(prev, c) {
            let nst = StateModel { included_by: with_added(st.included_by, p), ..st };
            assert(res == text_map_insert(prev, c, nst));
            assert forall|q: Seq<char>| #[trigger] text_map_get(acc, q) is Some implies text_map_get(res, q) is Some
                && includes_of(res, q) == includes_of(acc, q) by {
                crate::ordered::lemma_text_get_after_insert(prev, c, nst, q);
            }
            assert(with_added(st.included_by, p).contains(p)) by {
                if !st.included_by.contains(p) {
                    assert(st.included_by.push(p)[st.included_by.len() as int] == p);
                }
            }
            assert forall|j: int| 0 <= j < cs.len() && text_map_get(acc, #[trigger] cs[j]) is Some implies includers_of(
                res,
                cs[j],
            ).contains(p) by {
                crate::ordered::lemma_text_get_after_insert(prev, c, nst, cs[j]);
                if j < cs.len() - 1 {
                    assert(init[j] == cs[j]);
                }
            }
        } else {
            assert(res == prev);
            assert forall|j: int| 0 <= j < cs.len() && text_map_get(acc, #[trigger] cs[j]) is Some implies includers_of(
                res,
                cs[j],
            ).contains(p) by {
                if j < cs.len() - 1 {
                    assert(init[j] == cs[j]);
                } else {
                    assert(text_map_get(prev, cs[j]) is Some);
                }
            }
        }
    }
}

/// After recording that `parent` includes `children`: a registered parent
/// lists every child among its includes, and every registered child lists
/// the parent among its includers.
pub proof fn law_record_links_both_ways(
    s: Seq<(Seq<char>, StateModel)>,
    parent: Seq<char>,
    children: Seq<Seq<char>>,
    i: int,
)
    requires
        0 <= i < children.len(),
    ensures
        text_map_get(s, parent) is Some ==> includes_of(record_model(s, parent, children), parent).contains(
            children[i],
        ),
        text_map_get(s, children[i]) is Some ==> includers_of(
            record_model(s, parent, children),
            children[i],
        ).contains(parent),
{
    let s1 = match text_map_get(s, parent) {
        Some(st) => text_map_insert(s, parent, StateModel { includes: add_all(st.includes, children), ..st }),
        None => s,
    };
    if let Some(st) = text_map_get(s, parent) {
        let nst = StateModel { includes: add_all(st.includes, children), ..st };
        crate::ordered::lemma_text_get_after_insert(s, parent, nst, parent);
        lemma_add_all_contains(st.includes, children, i);
    }
    if text_map_get(s, children[i]) is Some {
        if let Some(st) = text_map_get(s, parent) {
            let nst = StateModel { includes: add_all(st.includes, children), ..st };
            crate::ordered::lemma_text_get_after_insert(s, parent, nst, children[i]);
        }
    }
    lemma_add_included_by(s1, children, parent);
    assert(text_map_get(s1, parent) is Some ==> includes_of(record_model(s, parent, children), parent)
        == includes_of(s1, parent));
}

/// The JSON document the registry is persisted as: format version 1 and each
/// bundle's state under its name.
pub open spec fn registry_json_model(s: Seq<(Seq<char>, StateModel)>) -> Json {
    Json::Obj(seq![
        ("version"@, Json::Num("1"@)),
        ("bundles"@, Json::Obj(Seq::new(s.len(), |i: int| (s[i].0, state_dict_model(s[i].1))))),
    ])
}

/// The entries after reading persisted data: each bundle under `bundles`
/// stored, in order, with the state its data describes.
pub open spec fn load_persisted_model(s: Seq<(Seq<char>, StateModel)>, data: Json) -> Seq<
    (Seq<char>, StateModel),
> {
    match member(data, "bundles"@) {
        Some(Json::Obj(bs)) => load_all(s, bs),
        _ => s,
    }
}

/// Each persisted bundle stored in turn.
pub open spec fn load_all(s: Seq<(Seq<char>, StateModel)>, bs: Seq<(Seq<char>, Json)>) -> Seq<
    (Seq<char>, StateModel),
>
    decreases bs.len(),
{
    if bs.len() == 0 {
        s
    } else {
        let prev = load_all(s, bs.drop_last());
        text_map_insert(prev, bs.last().0, state_from_dict_model(bs.last().0, bs.last().1))
    }
}

/// A state as it reads back from its persisted form: empty load and check
/// times read back as missing.
pub open spec fn read_back(st: StateModel) -> StateModel {
    StateModel { loaded_at: nonempty_time(st.loaded_at), checked_at: nonempty_time(st.checked_at), ..st }
}

proof fn lemma_load_all_fresh(es: Seq<(Seq<char>, StateModel)>, n: int)
    requires
        distinct_names(es),
        forall|i: int| 0 <= i < es.len() ==> (#[trigger] es[i]).1.name == es[i].0,
        0 <= n <= es.len(),
    ensures
        load_all(Seq::empty(), Seq::new(n as nat, |i: int| (es[i].0, state_dict_model(es[i].1))))
            == Seq::new(n as nat, |i: int| (es[i].0, read_back(es[i].1))),
    decreases n,
{
    let bs = Seq::new(n as nat, |i: int| (es[i].0, state_dict_model(es[i].1)));
    let want = Seq::new(n as nat, |i: int| (es[i].0, read_back(es[i].1)));
    if n == 0 {
        assert(want =~= Seq::<(Seq<char>, StateModel)>::empty());
    } else {
        lemma_load_all_fresh(es, n - 1);
        let prev_bs = Seq::new((n - 1) as nat, |i: int| (es[i].0, state_dict_model(es[i].1)));
        let prev = Seq::new((n - 1) as nat, |i: int| (es[i].0, read_back(es[i].1)));
        assert(bs.drop_last() =~= prev_bs);
        let k = es[n - 1].0;
        law_state_round_trip(es[n - 1].1);
        assert(!exists|j: int| crate::ordered::first_text_key_at(prev, k, j)) by {
            if exists|j: int| crate::ordered::first_text_key_at(prev, k, j) {
                let j = choose|j: int| crate::ordered::first_text_key_at(prev, k, j);
                assert(prev[j].0 == es[j].0);
                assert(es[j].0 != es[n - 1].0);
            }
        }
        assert(prev.push((k, read_back(es[n - 1].1))) =~= want);
    }
}

/// Saving the registry and reading the saved document back into an empty
/// registry gives the same bundles, in the same order, with the same states
/// (each stored under its own name; empty load and check times read back as
/// missing).
pub proof fn law_registry_round_trip(es: Seq<(Seq<char>, StateModel)>)
    requires
        distinct_names(es),
        forall|i: int| 0 <= i < es.len() ==> (#[trigger] es[i]).1.name == es[i].0,
    ensures
        load_persisted_model(Seq::empty(), registry_json_model(es)) == Seq::new(
            es.len(),
            |i: int| (es[i].0, read_back(es[i].1)),
        ),
{
    let doc = registry_json_model(es);
    let members = seq![
        ("version"@, Json::Num("1"@)),
        ("bundles"@, Json::Obj(Seq::new(es.len(), |i: int| (es[i].0, state_dict_model(es[i].1))))),
    ];
    reveal_strlit("version");
    reveal_strlit("bundles");
    assert("version"@[0] != "bundles"@[0]);
    assert(members[0].0 != "bundles"@);
    assert(crate::ordered::first_text_key_at(members, "bundles"@, 1));
    assert(member(doc, "bundles"@) == Some(members[1].1)) by {
        let j = choose|j: int| crate::ordered::first_text_key_at(members, "bundles"@, j);
        assert(j == 1) by {
            if j == 0 {
                assert(members[0].0 != members[1].0);
            }
        }
    }
    lemma_load_all_fresh(es, es.len() as int);
}

impl BundleRegistry {
    /// The JSON document the registry is saved as (see `registry_json_model`).
    pub fn to_json(&self) -> (r: JsonValue)
        ensures
            r@ == registry_json_model(self.entries()),
    {
        let keys = state_map_keys(&self.bundles);
        let ghost es = self.entries();
        let mut out: Vec<(String, JsonValue)> = Vec::new();
        let mut i: usize = 0;
        while i < keys.len()
            invariant
                i <= keys@.len(),
                es == self.entries(),
                keys@.len() == es.len(),
                forall|k: int| 0 <= k < keys@.len() ==> (#[trigger] keys@[k])@ == es[k].0,
                json_members(out@) == Seq::new(i as nat, |k: int| (es[k].0, state_dict_model(es[k].1))),
            decreases keys@.len() - i,
        {
            let ghost before = json_members(out@);
            proof {
                use_type_invariant(self);
                assert(crate::ordered::first_text_key_at(es, es[i as int].0, i as int)) by {
                    assert forall|k: int| 0 <= k < i implies #[trigger] es[k].0 != es[i as int].0 by {}
                }
                let w = choose|w: int| crate::ordered::first_text_key_at(es, es[i as int].0, w);
                assert(w == i as int) by {
                    if w < i as int {
                    } else if w > i as int {
                        assert(es[i as int].0 != es[i as int].0);
                    }
                }
            }
            match state_map_get(&self.bundles, keys[i].as_str()) {
                Some(st) => {
                    assert(st@ == es[i as int].1);
                    let d = st.to_dict();
                    out.push((copy_string(&keys[i]), d));
                    assert(json_members(out@) =~= before.push((es[i as int].0, state_dict_model(es[i as int].1))));
                },
                None => {
                    assert(false);
                },
            }
            assert(json_members(out@) =~= Seq::new((i + 1) as nat, |k: int| (es[k].0, state_dict_model(es[k].1))));
            i += 1;
        }
        proof {
            lemma_object_view(out);
        }
        let mut top: Vec<(String, JsonValue)> = Vec::new();
        put_member(&mut top, "version", JsonValue::Number(str_to_string("1")));
        put_member(&mut top, "bundles", JsonValue::Object(out));
        proof {
            lemma_object_view(top);
            assert(json_members(top@) =~= seq![
                ("version"@, Json::Num("1"@)),
                ("bundles"@, Json::Obj(Seq::new(es.len(), |k: int| (es[k].0, state_dict_model(es[k].1))))),
            ]);
        }
        JsonValue::Object(top)
    }

    /// Reads persisted data: every bundle under `bundles` is stored with the
    /// state its data describes.
    pub fn load_persisted_state(&mut self, data: &JsonValue)
        ensures
            final(self).entries() == load_persisted_model(old(self).entries(), data@),
            final(self).home_dir() == old(self).home_dir(),
    {
        let bs = match data {
            JsonValue::Object(m) => {
                proof {
                    lemma_object_view(*m);
                }
                match members_get(m, "bundles") {
                    Some(JsonValue::Object(bs)) => bs,
                    _ => {
                        return;
                    },
                }
            },
            _ => {
                return;
            },
        };
        proof {
            lemma_object_view(*bs);
        }
        let ghost ms = json_members(bs@);
        let ghost start = self.entries();
        let mut i: usize = 0;
        assert(ms.take(0) =~= Seq::<(Seq<char>, Json)>::empty());
        while i < bs.len()
            invariant
                i <= bs@.len(),
                ms == json_members(bs@),
                self.entries() == load_all(start, ms.take(i as int)),
                self.home_dir() == old(self).home_dir(),
            decreases bs@.len() - i,
        {
            proof {
                let t = ms.take(i + 1);
                assert(t.drop_last() =~= ms.take(i as int));
                assert(t.last() == ms[i as int]);
            }
            let st = BundleState::from_dict(bs[i].0.as_str(), &bs[i].1);
            self.put(copy_string(&bs[i].0), st);
            i += 1;
        }
        assert(ms.take(bs@.len() as int) =~= ms);
    }
}

/// The places `find_resource_path` looks, in order: the path itself, with the
/// extensions `yaml`, `yml` and `md`, and `bundle.yaml` and `bundle.md` in it.
pub open spec fn resource_candidates(base: Seq<char>) -> Seq<Seq<char>> {
    seq![
        base,
        path_with_extension(base, "yaml"@),
        path_with_extension(base, "yml"@),
        path_with_extension(base, "md"@),
        join_text(base, "bundle.yaml"@),
        join_text(base, "bundle.md"@),
    ]
}

/// The candidate places for a resource (see `resource_candidates`).
pub fn resource_candidate_paths(base: &str) -> (r: Vec<String>)
    ensures
        texts(r@) == resource_candidates(base@),
{
    let mut v: Vec<String> = Vec::new();
    v.push(str_to_string(base));
    proof {
        reveal_strlit("yaml");
        reveal_strlit("yml");
        reveal_strlit("md");
        assert(!"yaml"@.contains('/')) by {
            assert forall|i: int| 0 <= i < "yaml"@.len() implies "yaml"@[i] != '/' by {}
        }
        assert(!"yml"@.contains('/')) by {
            assert forall|i: int| 0 <= i < "yml"@.len() implies "yml"@[i] != '/' by {}
        }
        assert(!"md"@.contains('/')) by {
            assert forall|i: int| 0 <= i < "md"@.len() implies "md"@[i] != '/' by {}
        }
    }
    v.push(with_extension(base, "yaml"));
    v.push(with_extension(base, "yml"));
    v.push(with_extension(base, "md"));
    v.push(join_path(base, "bundle.yaml"));
    v.push(join_path(base, "bundle.md"));
    assert(texts(v@) =~= resource_candidates(base@));
    v
}

/// The first candidate place that exists (see `resource_candidates`), made
/// canonical (or else absolute). Which exists, and the canonical form, depend
/// on the disk: when a path is found, it is that of an existing candidate as
/// the disk resolves it, or the candidate itself.
pub fn find_resource_path(base_path: &str) -> (r: Option<String>)
    ensures
        r matches Some(p) ==> is_absolute_text(p@) || resource_candidates(base_path@).contains(p@),
{
    let cs = resource_candidate_paths(base_path);
    let mut present: Vec<bool> = Vec::new();
    let mut found = false;
    while present.len() < cs.len() && !found
        invariant
            present@.len() <= cs@.len(),
        decreases cs@.len() - present@.len(),
    {
        let here = path_exists(cs[present.len()].as_str());
        present.push(here);
        found = here;
    }
    match first_present(&present) {
        Some(k) => {
            let canonical = canonical_path(cs[k].as_str());
            let absolute = if canonical.is_none() {
                absolute_path(cs[k].as_str())
            } else {
                None
            };
            let found = settled_path(cs[k].as_str(), canonical, absolute);
            assert(texts(cs@)[k as int] == cs@[k as int]@);
            Some(found)
        },
        None => None,
    }
}

/// An include source is already a URI.
pub open spec fn is_uri_source(source: Seq<char>) -> bool {
    contains_seq(source, "://"@) || is_prefix("git+"@, source)
}

/// The URI an include resolves to once a resource was found at `found`
/// under namespace root `root`, for a namespace registered from `ns_uri`: for
/// a git namespace its URI (without fragment) with the found path, relative
/// to the root when it lies under it, as subdirectory; for any other, a file
/// URI of the found path.
pub open spec fn found_include_uri(ns_uri: Seq<char>, root: Seq<char>, found: Seq<char>) -> Seq<char> {
    if is_prefix("git+"@, ns_uri) {
        before_char(ns_uri, '#') + "#subdirectory="@ + match path_strip_prefix(found, root) {
            Some(relp) => relp,
            None => found,
        }
    } else {
        "file://"@ + found
    }
}

/// `root` is the directory a recorded local path stands for: the path
/// itself, or its parent (when it names a file).
pub open spec fn is_namespace_root(local_path: Seq<char>, root: Seq<char>) -> bool {
    root == local_path || path_parent(local_path) == Some(root)
}

/// `found` is what the resource lookup under `root` can give for `rel`: one
/// of the candidates of `root` joined with `rel` (see `resource_candidates`),
/// or an absolute path the disk resolved one to.
pub open spec fn is_found_resource(root: Seq<char>, rel: Seq<char>, found: Seq<char>) -> bool {
    is_absolute_text(found) || resource_candidates(join_text(root, rel)).contains(found)
}

/// What `resolve_include_source` is bound to give: exactly a URI for an
/// already-URI source or a plain name, and for `ns:path` nothing when `ns` is
/// not registered or has no local path outside git, and the git URI with the
/// path as subdirectory when a git namespace has no local path yet; when a
/// local path is known, what the disk shows decides between nothing and the
/// URI of the resource found under the namespace root (see
/// `found_include_uri`).
pub open spec fn include_source_ok(
    s: Seq<(Seq<char>, StateModel)>,
    source: Seq<char>,
    r: Option<Seq<char>>,
) -> bool {
    if is_uri_source(source) {
        r == Some(source)
    } else if has_char(source, ':') {
        let (ns, rel) = split_once_char(source, ':')->0;
        match text_map_get(s, ns) {
            None => r is None,
            Some(st) => match st.local_path {
                None => if is_prefix("git+"@, st.uri) {
                    r == Some(before_char(st.uri, '#') + "#subdirectory="@ + rel)
                } else {
                    r is None
                },
                Some(lp) => r is None || exists|root: Seq<char>, found: Seq<char>|
                    #![trigger found_include_uri(st.uri, root, found)]
                    is_namespace_root(lp, root) && is_found_resource(root, rel, found) && r == Some(
                        found_include_uri(st.uri, root, found),
                    ),
            },
        }
    } else {
        r == Some(source)
    }
}

/// What an include into a namespace with a known root resolves to, given
/// what the resource lookup under the root gave: nothing exactly when the
/// lookup found nothing, else the URI of the found resource (see
/// `found_include_uri`).
pub fn include_from_lookup(ns_uri: &str, root: &str, found: Option<String>) -> (r: Option<String>)
    ensures
        r is None <==> found is None,
        found matches Some(f) ==> (r matches Some(u) && u@ == found_include_uri(ns_uri@, root@, f@)),
{
    match found {
        Some(f) => Some(include_uri_for_found(ns_uri, root, f)),
        None => None,
    }
}

/// The URI an include resolves to once the resource lookup found `found`
/// under namespace root `root` (see `found_include_uri`).
pub fn include_uri_for_found(ns_uri: &str, root: &str, found: String) -> (r: String)
    ensures
        r@ == found_include_uri(ns_uri@, root@, found@),
{
    proof {
        reveal_strlit("git+");
        reveal_strlit("#subdirectory=");
        reveal_strlit("file://");
    }
    if str_starts_with(ns_uri, "git+") {
        let uv = str_chars(ns_uri);
        let base_chars = match chars_split_once(&uv, '#') {
            Some((a, _)) => a,
            None => uv,
        };
        let base_uri = chars_to_string(&base_chars);
        assert(base_uri@ == before_char(ns_uri@, '#'));
        let sub = match strip_path_prefix(found.as_str(), root) {
            Some(relp) => relp,
            None => found,
        };
        strings_concat(base_uri.as_str(), "#subdirectory=", sub.as_str())
    } else {
        concat("file://", found.as_str())
    }
}

fn strings_concat(a: &str, b: &str, c: &str) -> (r: String)
    ensures
        r@ == a@ + b@ + c@,
{
    let ab = concat(a, b);
    concat(ab.as_str(), c)
}

/// The directory a namespace's recorded path stands for: the path itself, or
/// its parent when it names a file (as the disk shows it).
fn namespace_root(local_path: &str) -> (r: String)
    ensures
        r@ == local_path@ || path_parent(local_path@) == Some(r@),
{
    if path_is_file(local_path) {
        match parent_of(local_path) {
            Some(p) => p,
            None => str_to_string(local_path),
        }
    } else {
        str_to_string(local_path)
    }
}

impl BundleRegistry {
    /// Resolves an include source to a loadable URI: a URI stays as it is, a
    /// plain name too, and `namespace:path` is looked up in the registry (see
    /// `include_source_ok`).
    pub fn resolve_include_source(&self, source: &str) -> (r: Option<String>)
        ensures
            include_source_ok(
                self.entries(),
                source@,
                match r {
                    Some(x) => Some(x@),
                    None => None,
                },
            ),
    {
        proof {
            reveal_strlit("://");
            reveal_strlit("git+");
            reveal_strlit("#subdirectory=");
            reveal_strlit("file://");
        }
        if str_contains(source, "://") || str_starts_with(source, "git+") {
            return Some(str_to_string(source));
        }
        if !str_has_char(source, ':') {
            return Some(str_to_string(source));
        }
        let v = str_chars(source);
        let (ns_chars, rel_chars) = match chars_split_once(&v, ':') {
            Some(p) => p,
            None => {
                return None;
            },
        };
        let ns = chars_to_string(&ns_chars);
        let rel = chars_to_string(&rel_chars);
        let state = match state_map_get(&self.bundles, ns.as_str()) {
            Some(st) => st,
            None => {
                return None;
            },
        };
        match &state.local_path {
            Some(lp) => {
                let root = namespace_root(lp.as_str());
                let resource = join_path(root.as_str(), rel.as_str());
                let found = find_resource_path(resource.as_str());
                let ghost fo = found;
                let r = include_from_lookup(state.uri.as_str(), root.as_str(), found);
                proof {
                    match fo {
                        Some(f) => {
                            let ghost fv = f@;
                            let ghost rv = r->0@;
                            let ghost st = state@;
                            assert(is_namespace_root(lp@, root@));
                            assert(is_found_resource(root@, rel@, fv));
                            assert(st.local_path == Some(lp@));
                            assert(split_once_char(source@, ':') == Some((ns@, rel@)));
                            assert(text_map_get(self.entries(), ns@) == Some(st));
                            assert(st.uri == state.uri@);
                            assert(is_namespace_root(lp@, root@) && is_found_resource(root@, rel@, fv) && Some(rv)
                                == Some(found_include_uri(st.uri, root@, fv)));
                            assert(exists|rt: Seq<char>, fd: Seq<char>|
                                #![trigger found_include_uri(st.uri, rt, fd)]
                                is_namespace_root(lp@, rt) && is_found_resource(rt, rel@, fd) && Some(rv) == Some(
                                    found_include_uri(st.uri, rt, fd),
                                ));
                        },
                        None => {},
                    }
                }
                r
            },
            None => {
                if str_starts_with(state.uri.as_str(), "git+") {
                    let uv = str_chars(state.uri.as_str());
                    let base_chars = match chars_split_once(&uv, '#') {
                        Some((a, _)) => a,
                        None => uv,
                    };
                    let base_uri = chars_to_string(&base_chars);
                    assert(base_uri@ == before_char(state.uri@, '#'));
                    Some(strings_concat(base_uri.as_str(), "#subdirectory=", rel.as_str()))
                } else {
                    None
                }
            },
        }
    }
}

/// The sources the include entries name, in order (entries that name
/// nothing are skipped).
pub open spec fn include_sources(entries: Seq<Yaml>) -> Seq<Seq<char>>
    decreases entries.len(),
{
    if entries.len() == 0 {
        Seq::empty()
    } else {
        let acc = include_sources(entries.drop_last());
        match include_model(entries.last()) {
            Some(src) => acc.push(src),
            None => acc,
        }
    }
}

/// The message when a registered namespace lacks the included path.
pub open spec fn missing_path_message(source: Seq<char>, ns: Seq<char>) -> Seq<char> {
    "Include resolution failed: '"@ + source + "'. Namespace '"@ + ns
        + "' is registered but the path doesn't exist."@
}

/// The URIs to load for include sources, given what each resolved to: each
/// resolved URI in order; an unresolved `ns:path` whose namespace is
/// registered stops the plan with an error; any other unresolved source is
/// skipped.
pub open spec fn include_plan_model(
    s: Seq<(Seq<char>, StateModel)>,
    srcs: Seq<Seq<char>>,
    outs: Seq<Option<Seq<char>>>,
) -> Result<Seq<Seq<char>>, Seq<char>>
    decreases srcs.len(),
{
    if srcs.len() == 0 || outs.len() != srcs.len() {
        Ok(Seq::empty())
    } else {
        match include_plan_model(s, srcs.drop_last(), outs.drop_last()) {
            Err(e) => Err(e),
            Ok(prev) => {
                let src = srcs.last();
                match outs.last() {
                    Some(u) => Ok(prev.push(u)),
                    None => if has_char(src, ':') && !contains_seq(src, "://"@) && text_map_get(
                        s,
                        before_char(src, ':'),
                    ) is Some {
                        Err(missing_path_message(src, before_char(src, ':')))
                    } else {
                        Ok(prev)
                    },
                }
            },
        }
    }
}

/// An outcome that resolving `src` can have (one that
/// `include_source_ok` allows).
pub open spec fn some_outcome(s: Seq<(Seq<char>, StateModel)>, src: Seq<char>) -> Option<Seq<char>> {
    if is_uri_source(src) {
        Some(src)
    } else if has_char(src, ':') {
        let (ns, rel) = split_once_char(src, ':')->0;
        match text_map_get(s, ns) {
            None => None,
            Some(st) => if is_prefix("git+"@, st.uri) && st.local_path is None {
                Some(before_char(st.uri, '#') + "#subdirectory="@ + rel)
            } else {
                None
            },
        }
    } else {
        Some(src)
    }
}

proof fn lemma_plan_err_sticks(
    s: Seq<(Seq<char>, StateModel)>,
    srcs: Seq<Seq<char>>,
    outs: Seq<Option<Seq<char>>>,
    n: int,
)
    requires
        outs.len() == srcs.len(),
        0 < n <= srcs.len(),
        include_plan_model(s, srcs.take(n), outs.take(n)) is Err,
    ensures
        include_plan_model(s, srcs, outs) == include_plan_model(s, srcs.take(n), outs.take(n)),
    decreases srcs.len(),
{
    if n < srcs.len() {
        assert(srcs.drop_last().take(n) =~= srcs.take(n));
        assert(outs.drop_last().take(n) =~= outs.take(n));
        lemma_plan_err_sticks(s, srcs.drop_last(), outs.drop_last(), n);
    } else {
        assert(srcs.take(n) =~= srcs);
        assert(outs.take(n) =~= outs);
    }
}

/// A planning result matches its model.
pub open spec fn plan_matches(r: Result<Vec<String>, BundleError>, m: Result<Seq<Seq<char>>, Seq<char>>) -> bool {
    match (r, m) {
        (Ok(v), Ok(us)) => texts(v@) == us,
        (Err(BundleError::DependencyError(msg)), Err(e)) => msg@ == e,
        _ => false,
    }
}

proof fn lemma_some_outcome_ok(s: Seq<(Seq<char>, StateModel)>, src: Seq<char>)
    ensures
        include_source_ok(s, src, some_outcome(s, src)),
{
}

/// The sources of a prefix of the entries are a prefix of all the sources.
proof fn lemma_sources_prefix(es: Seq<Yaml>, n: int)
    requires
        0 <= n <= es.len(),
    ensures
        include_sources(es.take(n)).len() <= include_sources(es).len(),
        include_sources(es).take(include_sources(es.take(n)).len() as int) == include_sources(es.take(n)),
    decreases es.len(),
{
    if n < es.len() {
        assert(es.drop_last().take(n) =~= es.take(n));
        lemma_sources_prefix(es.drop_last(), n);
        let a = include_sources(es.drop_last());
        let p = include_sources(es.take(n));
        assert(a.take(p.len() as int) == p);
        match include_model(es.last()) {
            Some(src) => {
                assert(a.push(src).take(p.len() as int) =~= a.take(p.len() as int));
            },
            None => {},
        }
    } else {
        assert(es.take(n) =~= es);
        assert(include_sources(es).take(include_sources(es).len() as int) =~= include_sources(es));
    }
}

impl BundleRegistry {
    /// The URIs to load for a bundle's include entries (the first phase of
    /// composing includes): each entry's source resolved (see
    /// `resolve_include_source`), then planned by `include_plan_model` with
    /// what the sources resolved to.
    pub fn plan_include_sources(&self, entries: &[YamlValue]) -> (r: Result<Vec<String>, BundleError>)
        ensures
            exists|outs: Seq<Option<Seq<char>>>|
                #![trigger include_plan_model(self.entries(), include_sources(seq_view(entries@)), outs)]
                outs.len() == include_sources(seq_view(entries@)).len() && (forall|k: int|
                    0 <= k < outs.len() ==> include_source_ok(
                        self.entries(),
                        include_sources(seq_view(entries@))[k],
                        #[trigger] outs[k],
                    )) && plan_matches(r, include_plan_model(
                    self.entries(),
                    include_sources(seq_view(entries@)),
                    outs,
                )),
    {
        proof {
            reveal_strlit("Include resolution failed: '");
            reveal_strlit("'. Namespace '");
            reveal_strlit("' is registered but the path doesn't exist.");
            reveal_strlit("://");
        }
        let ghost es = seq_view(entries@);
        let ghost mut outs: Seq<Option<Seq<char>>> = Seq::empty();
        let mut out: Vec<String> = Vec::new();
        let mut i: usize = 0;
        assert(es.take(0) =~= Seq::<Yaml>::empty());
        assert(texts(out@) =~= Seq::<Seq<char>>::empty());
        while i < entries.len()
            invariant
                i <= entries@.len(),
                es == seq_view(entries@),
                outs.len() == include_sources(es.take(i as int)).len(),
                forall|k: int| 0 <= k < outs.len() ==> include_source_ok(
                    self.entries(),
                    include_sources(es.take(i as int))[k],
                    #[trigger] outs[k],
                ),
                include_plan_model(self.entries(), include_sources(es.take(i as int)), outs) == Ok::<
                    Seq<Seq<char>>,
                    Seq<char>,
                >(texts(out@)),
            decreases entries@.len() - i,
        {
            let ghost srcs0 = include_sources(es.take(i as int));
            proof {
                let t = es.take(i + 1);
                assert(t.drop_last() =~= es.take(i as int));
                assert(t.last() == es[i as int]);
            }
            match parse_include(&entries[i]) {
                None => {},
                Some(source) => {
                    let ghost srcs1 = include_sources(es.take(i + 1));
                    assert(srcs1 == srcs0.push(source@));
                    let resolved = self.resolve_include_source(source.as_str());
                    let ghost o = match &resolved {
                        Some(x) => Some(x@),
                        None => None,
                    };
                    proof {
                        assert(srcs1.drop_last() =~= srcs0);
                        assert(outs.push(o).drop_last() =~= outs);
                    }
                    match resolved {
                        Some(uri) => {
                            let ghost before = texts(out@);
                            out.push(uri);
                            assert(texts(out@) =~= before.push(o->0));
                        },
                        None => {
                            if str_has_char(source.as_str(), ':') && !str_contains(source.as_str(), "://") {
                                let sv = str_chars(source.as_str());
                                let ns = match chars_split_once(&sv, ':') {
                                    Some((a, _)) => chars_to_string(&a),
                                    None => copy_string(&source),
                                };
                                assert(ns@ == before_char(source@, ':'));
                                if state_map_get(&self.bundles, ns.as_str()).is_some() {
                                    let mut msg = concat("Include resolution failed: '", source.as_str());
                                    crate::text::push_str(&mut msg, "'. Namespace '");
                                    crate::text::push_str(&mut msg, ns.as_str());
                                    crate::text::push_str(&mut msg, "' is registered but the path doesn't exist.");
                                    proof {
                                        let outs2 = outs.push(o);
                                        assert forall|k: int| 0 <= k < outs2.len() implies include_source_ok(
                                            self.entries(),
                                            srcs1[k],
                                            #[trigger] outs2[k],
                                        ) by {
                                            if k < outs.len() {
                                                assert(srcs1[k] == srcs0[k]);
                                            }
                                        }
                                        assert(include_plan_model(self.entries(), srcs1, outs2) == Err::<Seq<Seq<char>>, Seq<char>>(msg@));
                                        let all = include_sources(es);
                                        lemma_sources_prefix(es, i + 1);
                                        let n = srcs1.len() as int;
                                        let pad = Seq::new((all.len() - n) as nat, |k: int| some_outcome(self.entries(), all[n + k]));
                                        let full = outs2 + pad;
                                        assert(full.take(n) =~= outs2);
                                        assert(all.take(n) =~= srcs1);
                                        assert forall|k: int| 0 <= k < full.len() implies include_source_ok(
                                            self.entries(),
                                            all[k],
                                            #[trigger] full[k],
                                        ) by {
                                            if k < n {
                                                assert(full[k] == outs2[k]);
                                                assert(all[k] == srcs1[k]);
                                            } else {
                                                assert(full[k] == some_outcome(self.entries(), all[k]));
                                                lemma_some_outcome_ok(self.entries(), all[k]);
                                            }
                                        }
                                        lemma_plan_err_sticks(self.entries(), all, full, n);
                                        assert(plan_matches(Err(BundleError::DependencyError(msg)), include_plan_model(self.entries(), all, full)));
                                    }
                                    return Err(BundleError::DependencyError(msg));
                                }
                            }
                        },
                    }
                    proof {
                        let outs2 = outs.push(o);
                        assert forall|k: int| 0 <= k < outs2.len() implies include_source_ok(
                            self.entries(),
                            srcs1[k],
                            #[trigger] outs2[k],
                        ) by {
                            if k < outs.len() {
                                assert(srcs1[k] == srcs0[k]);
                            }
                        }
                        outs = outs2;
                    }
                },
            }
            i += 1;
        }
        proof {
            assert(es.take(entries@.len() as int) =~= es);
        }
        Ok(out)
    }
}

/// Whether namespace `ns` should be loaded ahead of resolving `ns:path`
/// includes: registered, with no local path yet, and its URI (with or
/// without fragment) not already being loaded.
pub open spec fn needs_preload(s: Seq<(Seq<char>, StateModel)>, ns: Seq<char>, chain: Seq<Seq<char>>) -> bool {
    match text_map_get(s, ns) {
        Some(st) => st.local_path is None && !chain.contains(st.uri) && !chain.contains(
            before_char(st.uri, '#'),
        ),
        None => false,
    }
}

/// The namespaces to load ahead, in order of first mention, each once.
pub open spec fn preload_model(s: Seq<(Seq<char>, StateModel)>, srcs: Seq<Seq<char>>, chain: Seq<Seq<char>>) -> Seq<
    Seq<char>,
>
    decreases srcs.len(),
{
    if srcs.len() == 0 {
        Seq::empty()
    } else {
        let acc = preload_model(s, srcs.drop_last(), chain);
        let src = srcs.last();
        if has_char(src, ':') && !contains_seq(src, "://"@) && needs_preload(s, before_char(src, ':'), chain) {
            with_added(acc, before_char(src, ':'))
        } else {
            acc
        }
    }
}

impl BundleRegistry {
    /// The namespaces whose bundles must be loaded before `ns:path` includes
    /// can be resolved (see `preload_model`), given the URIs being loaded.
    pub fn namespaces_to_preload(&self, entries: &[YamlValue], loading_chain: &[String]) -> (r: Vec<String>)
        ensures
            texts(r@) == preload_model(self.entries(), include_sources(seq_view(entries@)), texts(loading_chain@)),
    {
        proof {
            reveal_strlit("://");
        }
        let ghost es = seq_view(entries@);
        let ghost chain = texts(loading_chain@);
        let mut out: Vec<String> = Vec::new();
        let mut i: usize = 0;
        assert(es.take(0) =~= Seq::<Yaml>::empty());
        assert(texts(out@) =~= Seq::<Seq<char>>::empty());
        while i < entries.len()
            invariant
                i <= entries@.len(),
                es == seq_view(entries@),
                chain == texts(loading_chain@),
                texts(out@) == preload_model(self.entries(), include_sources(es.take(i as int)), chain),
            decreases entries@.len() - i,
        {
            proof {
                let t = es.take(i + 1);
                assert(t.drop_last() =~= es.take(i as int));
                assert(t.last() == es[i as int]);
            }
            if let Some(source) = parse_include(&entries[i]) {
                proof {
                    let srcs1 = include_sources(es.take(i + 1));
                    assert(srcs1.drop_last() =~= include_sources(es.take(i as int)));
                    assert(srcs1.last() == source@);
                }
                if str_has_char(source.as_str(), ':') && !str_contains(source.as_str(), "://") {
                    let sv = str_chars(source.as_str());
                    let ns = match chars_split_once(&sv, ':') {
                        Some((a, _)) => chars_to_string(&a),
                        None => copy_string(&source),
                    };
                    assert(ns@ == before_char(source@, ':'));
                    let wanted = match state_map_get(&self.bundles, ns.as_str()) {
                        Some(st) => {
                            if st.local_path.is_none() {
                                let uv = str_chars(st.uri.as_str());
                                let base = match chars_split_once(&uv, '#') {
                                    Some((a, _)) => chars_to_string(&a),
                                    None => copy_string(&st.uri),
                                };
                                assert(base@ == before_char(st.uri@, '#'));
                                !contains_text(loading_chain, st.uri.as_str())
                                    && !contains_text(loading_chain, base.as_str())
                            } else {
                                false
                            }
                        },
                        None => false,
                    };
                    if wanted {
                        add_text(&mut out, ns.as_str());
                    }
                }
            }
            i += 1;
        }
        assert(es.take(entries@.len() as int) =~= es);
        out
    }

    /// Records that namespace `ns` was loaded ahead from `local_dir` at time
    /// `now` (nothing happens when it is not registered).
    pub fn mark_preloaded(&mut self, ns: &str, local_dir: &str, now: &str)
        ensures
            final(self).entries() == match text_map_get(old(self).entries(), ns@) {
                Some(st) => text_map_insert(
                    old(self).entries(),
                    ns@,
                    StateModel { local_path: Some(local_dir@), loaded_at: Some(now@), ..st },
                ),
                None => old(self).entries(),
            },
            final(self).home_dir() == old(self).home_dir(),
    {
        let updated = match state_map_get(&self.bundles, ns) {
            Some(st) => {
                let mut c = st.copy();
                c.local_path = Some(str_to_string(local_dir));
                c.loaded_at = Some(str_to_string(now));
                Some(c)
            },
            None => None,
        };
        if let Some(c) = updated {
            self.put(str_to_string(ns), c);
        }
    }
}

/// Every state is as before, or lost a local path it had.
pub open spec fn only_paths_cleared(a: Seq<(Seq<char>, StateModel)>, b: Seq<(Seq<char>, StateModel)>) -> bool {
    &&& a.len() == b.len()
    &&& forall|i: int|
        0 <= i < a.len() ==> (#[trigger] b[i]).0 == a[i].0 && (b[i].1 == a[i].1 || (a[i].1.local_path is Some
            && b[i].1 == (StateModel { local_path: None, ..a[i].1 })))
}

impl BundleRegistry {
    /// Forgets recorded local paths that no longer exist on disk, and says
    /// whether any was forgotten (the registry then wants saving). Which
    /// paths exist depends on the disk; whatever it shows, only local paths
    /// are cleared.
    pub fn validate_cached_paths(&mut self) -> (r: bool)
        ensures
            only_paths_cleared(old(self).entries(), final(self).entries()),
            r == (final(self).entries() != old(self).entries()),
            final(self).home_dir() == old(self).home_dir(),
    {
        proof {
            use_type_invariant(&*self);
        }
        let keys = state_map_keys(&self.bundles);
        let ghost start = self.entries();
        let mut cleared = false;
        let mut i: usize = 0;
        while i < keys.len()
            invariant
                i <= keys@.len(),
                keys@.len() == start.len(),
                forall|k: int| 0 <= k < keys@.len() ==> (#[trigger] keys@[k])@ == start[k].0,
                only_paths_cleared(start, self.entries()),
                forall|k: int| i <= k < start.len() ==> (#[trigger] self.entries()[k]) == start[k],
                !cleared ==> self.entries() == start,
                cleared ==> exists|k: int| 0 <= k < i && #[trigger] self.entries()[k] != start[k],
                distinct_names(start),
                self.home_dir() == old(self).home_dir(),
            decreases keys@.len() - i,
        {
            proof {
                use_type_invariant(&*self);
            }
            let ghost cur = self.entries();
            proof {
                assert(crate::ordered::first_text_key_at(cur, start[i as int].0, i as int)) by {
                    assert forall|k: int| 0 <= k < i implies #[trigger] cur[k].0 != start[i as int].0 by {
                        assert(cur[k].0 == start[k].0);
                    }
                }
                let w = choose|w: int| crate::ordered::first_text_key_at(cur, start[i as int].0, w);
                assert(w == i as int) by {
                    if w < i as int {
                    } else if w > i as int {
                        assert(cur[i as int].0 == start[i as int].0);
                    }
                }
            }
            let stale = match state_map_get(&self.bundles, keys[i].as_str()) {
                Some(st) => match &st.local_path {
                    Some(lp) => {
                        if !path_exists(lp.as_str()) {
                            let mut c = st.copy();
                            c.local_path = None;
                            Some(c)
                        } else {
                            None
                        }
                    },
                    None => None,
                },
                None => None,
            };
            if let Some(c) = stale {
                self.put(copy_string(&keys[i]), c);
                cleared = true;
                proof {
                    let nxt = self.entries();
                    assert(nxt == cur.update(i as int, (start[i as int].0, c@)));
                    assert(nxt[i as int] != start[i as int]);
                }
            }
            i += 1;
        }
        proof {
            if cleared {
                let k = choose|k: int| 0 <= k < i && #[trigger] self.entries()[k] != start[k];
                assert(self.entries()[k] != start[k]);
            }
        }
        cleared
    }
}

/// The `k`-th ancestor of a path (the path itself for `k == 0`).
pub open spec fn ancestor(p: Seq<char>, k: nat) -> Option<Seq<char>>
    decreases k,
{
    if k == 0 {
        Some(p)
    } else {
        match ancestor(p, (k - 1) as nat) {
            Some(q) => path_parent(q),
            None => None,
        }
    }
}

/// `p` is a bundle file (`bundle.md` or `bundle.yaml`) in an ancestor of `start`.
pub open spec fn bundle_file_above(start: Seq<char>, p: Seq<char>) -> bool {
    exists|k: nat, d: Seq<char>|
        #![trigger ancestor(start, k), join_text(d, "bundle.md"@)]
        ancestor(start, k) == Some(d) && (p == join_text(d, "bundle.md"@) || p == join_text(
            d,
            "bundle.yaml"@,
        ))
}

/// The bundle file of directory `dir`, given what the disk shows:
/// `bundle.md` when it is there, else `bundle.yaml` when that is there.
pub fn bundle_file_choice(dir: &str, has_md: bool, has_yaml: bool) -> (r: Option<String>)
    ensures
        has_md ==> (r matches Some(f) && f@ == join_text(dir@, "bundle.md"@)),
        !has_md && has_yaml ==> (r matches Some(f) && f@ == join_text(dir@, "bundle.yaml"@)),
        !has_md && !has_yaml ==> r is None,
{
    if has_md {
        Some(join_path(dir, "bundle.md"))
    } else if has_yaml {
        Some(join_path(dir, "bundle.yaml"))
    } else {
        None
    }
}

/// The bundle file a walk finds, given the directories it looked in, in
/// order, and what the disk showed in each: in the first directory holding
/// `bundle.md` or `bundle.yaml`, `bundle.md` when it is there, else
/// `bundle.yaml`; nothing when no directory holds either.
pub fn nearest_bundle_file(dirs: &Vec<String>, has_md: &Vec<bool>, has_yaml: &Vec<bool>) -> (r: Option<String>)
    requires
        dirs@.len() == has_md@.len(),
        dirs@.len() == has_yaml@.len(),
    ensures
        r is None <==> forall|j: int| 0 <= j < dirs@.len() ==> !has_md@[j] && !has_yaml@[j],
        r matches Some(f) ==> exists|k: int|
            0 <= k < dirs@.len() && (has_md@[k] || has_yaml@[k]) && (forall|j: int|
                0 <= j < k ==> !has_md@[j] && !has_yaml@[j]) && f@ == (if has_md@[k] {
                join_text(dirs@[k]@, "bundle.md"@)
            } else {
                join_text(dirs@[k]@, "bundle.yaml"@)
            }),
{
    let mut present: Vec<bool> = Vec::new();
    let mut i: usize = 0;
    while i < dirs.len()
        invariant
            i <= dirs@.len(),
            dirs@.len() == has_md@.len(),
            dirs@.len() == has_yaml@.len(),
            present@.len() == i,
            forall|j: int| 0 <= j < i ==> present@[j] == (has_md@[j] || has_yaml@[j]),
        decreases dirs@.len() - i,
    {
        present.push(has_md[i] || has_yaml[i]);
        i += 1;
    }
    match first_present(&present) {
        Some(k) => {
            let r = bundle_file_choice(dirs[k].as_str(), has_md[k], has_yaml[k]);
            assert(present@[k as int]);
            r
        },
        None => None,
    }
}

/// Where a walk up towards `stop` goes after `current` (whose resolved form
/// is `current_resolved`; `stop_resolved` is that of `stop`): nowhere once
/// it has reached `stop` or the top (no parent, or a parent that is the
/// same path), else the parent.
pub fn next_dir(current: &str, current_resolved: &str, stop_resolved: &str) -> (r: Option<String>)
    ensures
        path_components(current_resolved@) == path_components(stop_resolved@) ==> r is None,
        path_components(current_resolved@) != path_components(stop_resolved@) ==> match path_parent(current@) {
            Some(p) => if path_components(p) == path_components(current@) {
                r is None
            } else {
                r matches Some(q) && q@ == p
            },
            None => r is None,
        },
        r matches Some(q) ==> q@.len() < current@.len(),
{
    if crate::paths::same_path(current_resolved, stop_resolved) {
        return None;
    }
    match parent_of(current) {
        Some(p) => {
            if crate::paths::same_path(p.as_str(), current) {
                None
            } else {
                Some(p)
            }
        },
        None => None,
    }
}

impl BundleRegistry {
    /// Walks up from `start` (towards `stop`) looking for `bundle.md`, then
    /// `bundle.yaml`, in each directory (see `next_dir` for where the walk
    /// goes and `nearest_bundle_file` for what it picks from what the disk
    /// shows). What is found depends on the disk; whatever it is, it is one
    /// of those files in `start` or above it.
    pub fn find_nearest_bundle_file(&self, start: &str, stop: &str) -> (r: Option<String>)
        ensures
            r matches Some(p) ==> bundle_file_above(start@, p@),
    {
        let stop_c = match canonical_path(stop) {
            Some(c) => c,
            None => str_to_string(stop),
        };
        let mut dirs: Vec<String> = Vec::new();
        let mut mds: Vec<bool> = Vec::new();
        let mut yamls: Vec<bool> = Vec::new();
        let mut current = str_to_string(start);
        let mut walking = true;
        assert(ancestor(start@, 0) == Some(start@));
        while walking
            invariant
                dirs@.len() == mds@.len(),
                dirs@.len() == yamls@.len(),
                forall|j: int| 0 <= j < dirs@.len() ==> ancestor(start@, j as nat) == Some(#[trigger] dirs@[j]@),
                walking ==> ancestor(start@, dirs@.len() as nat) == Some(current@),
            decreases current@.len() + (if walking { 1int } else { 0int }),
        {
            let md = join_path(current.as_str(), "bundle.md");
            let has_md = path_exists(md.as_str());
            let has_yaml = !has_md && path_exists(join_path(current.as_str(), "bundle.yaml").as_str());
            let ghost n = dirs@.len();
            dirs.push(copy_string(&current));
            mds.push(has_md);
            yamls.push(has_yaml);
            assert(dirs@[n as int]@ == current@);
            if has_md || has_yaml {
                walking = false;
            } else {
                let current_c = match canonical_path(current.as_str()) {
                    Some(c) => c,
                    None => copy_string(&current),
                };
                match next_dir(current.as_str(), current_c.as_str(), stop_c.as_str()) {
                    Some(p) => {
                        assert(ancestor(start@, (n + 1) as nat) == path_parent(current@));
                        current = p;
                    },
                    None => {
                        walking = false;
                    },
                }
            }
        }
        let r = nearest_bundle_file(&dirs, &mds, &yamls);
        proof {
            if let Some(f) = &r {
                let k = choose|k: int|
                    0 <= k < dirs@.len() && (mds@[k] || yamls@[k]) && (forall|j: int|
                        0 <= j < k ==> !mds@[j] && !yamls@[j]) && f@ == (if mds@[k] {
                        join_text(dirs@[k]@, "bundle.md"@)
                    } else {
                        join_text(dirs@[k]@, "bundle.yaml"@)
                    });
                let d = dirs@[k]@;
                assert(ancestor(start@, k as nat) == Some(d));
                assert(join_text(d, "bundle.md"@) == join_text(d, "bundle.md"@));
                assert(bundle_file_above(start@, f@));
            }
        }
        r
    }
}

} // verus!
