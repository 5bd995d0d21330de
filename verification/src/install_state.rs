//! Install state for fast module start-up: a fingerprint of each installed
//! module's dependency files, so that unchanged modules skip installation.
use vstd::prelude::*;
use indexmap::IndexMap;
use crate::ordered::{
    text_map_entries, text_map_get, text_map_insert, text_map_remove, text_map_new, text_map_lookup,
    text_map_put, text_map_take, text_map_to_vec, first_text_key_at,
};
use crate::json::{Json, JsonValue, json_get, json_members, lemma_object_view, members_get};
use crate::text::{concat, copy_string, str_chars, str_eq, str_to_string};
use crate::paths::{join_text, join_path};
use crate::disk::{canonical_path, absolute_path, settled_path, is_absolute_text};
use crate::digest::{sha256_hex_bytes, sha256_hex_of_bytes};

use crate::bundle_dict::distinct_names;

verus! {

broadcast use vstd::std_specs::vec::group_vec_axioms;

/// The file the install state is kept in, within the cache directory.
pub const STATE_FILENAME: &'static str = "install-state.json";

/// The format version of the install state.
pub const STATE_VERSION: u64 = 1;

/// Tracks which modules are installed, by the fingerprint of their
/// dependency files; `dirty` says whether there are unsaved changes.
pub struct InstallStateManager {
    pub state_file: String,
    pub dirty: bool,
    pub modules: IndexMap<String, String>,
}

/// The fingerprints persisted state holds: every member of `modules` must be
/// an object with a string `pyproject_hash` (the state is unusable otherwise).
pub open spec fn persisted_modules(ms: Seq<(Seq<char>, Json)>) -> Option<Seq<(Seq<char>, Seq<char>)>>
    decreases ms.len(),
{
    if ms.len() == 0 {
        Some(Seq::empty())
    } else {
        match persisted_modules(ms.drop_last()) {
            None => None,
            Some(acc) => match json_get(ms.last().1, "pyproject_hash"@) {
                Some(Json::Str(h)) => Some(text_map_insert(acc, ms.last().0, h)),
                _ => None,
            },
        }
    }
}

/// What persisted data gives: the recorded fingerprints when the data is of
/// the current version and well formed; nothing otherwise (a fresh state).
pub open spec fn loaded_modules(data: Option<Json>) -> Option<Seq<(Seq<char>, Seq<char>)>> {
    match data {
        Some(d) => match json_get(d, "version"@) {
            Some(Json::Num(t)) => if t == "1"@ {
                match json_get(d, "modules"@) {
                    Some(Json::Obj(ms)) => persisted_modules(ms),
                    _ => None,
                }
            } else {
                None
            },
            _ => None,
        },
        None => None,
    }
}

/// The bytes of an ASCII text.
pub open spec fn ascii_bytes(s: Seq<char>) -> Seq<u8> {
    Seq::new(s.len(), |i: int| s[i] as u8)
}

/// The fingerprint of a module's dependency files, given what could be read
/// of `pyproject.toml` and `requirements.txt`: `none` when neither, else the
/// SHA-256 of each read file's name followed by its content, in that order.
pub open spec fn fingerprint_model(pyproject: Option<Seq<u8>>, requirements: Option<Seq<u8>>) -> Seq<char> {
    if pyproject is None && requirements is None {
        "none"@
    } else {
        let a = match pyproject {
            Some(c) => ascii_bytes("pyproject.toml"@) + c,
            None => Seq::empty(),
        };
        let b = match requirements {
            Some(c) => ascii_bytes("requirements.txt"@) + c,
            None => Seq::empty(),
        };
        "sha256:"@ + sha256_hex_bytes(a + b)
    }
}

fn push_ascii(out: &mut Vec<u8>, s: &str)
    ensures
        final(out)@ == old(out)@ + ascii_bytes(s@),
{
    let v = str_chars(s);
    let ghost start = out@;
    let mut i: usize = 0;
    while i < v.len()
        invariant
            i <= v@.len(),
            v@ == s@,
            out@ == start + ascii_bytes(s@).take(i as int),
        decreases v@.len() - i,
    {
        out.push(v[i] as u8);
        i += 1;
        assert(out@ =~= start + ascii_bytes(s@).take(i as int));
    }
    assert(ascii_bytes(s@).take(v@.len() as int) =~= ascii_bytes(s@));
}

fn push_bytes(out: &mut Vec<u8>, b: &Vec<u8>)
    ensures
        final(out)@ == old(out)@ + b@,
{
    let ghost start = out@;
    let mut i: usize = 0;
    while i < b.len()
        invariant
            i <= b@.len(),
            out@ == start + b@.take(i as int),
        decreases b@.len() - i,
    {
        out.push(b[i]);
        i += 1;
        assert(out@ =~= start + b@.take(i as int));
    }
    assert(b@.take(b@.len() as int) =~= b@);
}

/// The fingerprint of a module's dependency files (see `fingerprint_model`),
/// given the contents that could be read.
pub fn compute_fingerprint(pyproject: Option<&Vec<u8>>, requirements: Option<&Vec<u8>>) -> (r: String)
    ensures
        r@ == fingerprint_model(
            match pyproject {
                Some(c) => Some(c@),
                None => None,
            },
            match requirements {
                Some(c) => Some(c@),
                None => None,
            },
        ),
{
    if pyproject.is_none() && requirements.is_none() {
        return str_to_string("none");
    }
    let mut bytes: Vec<u8> = Vec::new();
    if let Some(c) = pyproject {
        push_ascii(&mut bytes, "pyproject.toml");
        push_bytes(&mut bytes, c);
    }
    let ghost mid = bytes@;
    if let Some(c) = requirements {
        push_ascii(&mut bytes, "requirements.txt");
        push_bytes(&mut bytes, c);
    }
    proof {
        assert(bytes@ =~= (match pyproject {
            Some(c) => ascii_bytes("pyproject.toml"@) + c@,
            None => Seq::<u8>::empty(),
        }) + (match requirements {
            Some(c) => ascii_bytes("requirements.txt"@) + c@,
            None => Seq::<u8>::empty(),
        }));
    }
    let h = sha256_hex_of_bytes(bytes.as_slice());
    concat("sha256:", h.as_str())
}

/// The key a module path is tracked under: its canonical path when it
/// exists, else its absolute path, else the path itself (which depends on
/// the disk and the working directory).
pub fn path_key(module_dir: &str) -> (r: String)
    ensures
        r@ == module_dir@ || is_absolute_text(r@),
{
    let canonical = canonical_path(module_dir);
    let absolute = if canonical.is_none() {
        absolute_path(module_dir)
    } else {
        None
    };
    settled_path(module_dir, canonical, absolute)
}

/// The JSON the state is saved as: the format version and, for each
/// module, its fingerprint as `pyproject_hash`.
pub open spec fn state_json_model(fs: Seq<(Seq<char>, Seq<char>)>) -> Json {
    Json::Obj(seq![
        ("version"@, Json::Num("1"@)),
        ("modules"@, Json::Obj(module_members(fs))),
    ])
}

/// The `modules` members the state is saved with: each module's fingerprint
/// as `pyproject_hash`.
pub open spec fn module_members(fs: Seq<(Seq<char>, Seq<char>)>) -> Seq<(Seq<char>, Json)> {
    Seq::new(fs.len(), |i: int| (fs[i].0, Json::Obj(seq![("pyproject_hash"@, Json::Str(fs[i].1))])))
}


impl InstallStateManager {
    /// The fingerprints recorded, by module key.
    pub closed spec fn fingerprints(&self) -> Seq<(Seq<char>, Seq<char>)> {
        text_map_entries(self.modules)
    }

    /// Each module key is recorded once.
    pub open spec fn keys_held_once(&self) -> bool {
        distinct_names(self.fingerprints())
    }

    /// A manager for the state kept in `cache_dir`, given what the state file
    /// held (`None` when it is missing or not JSON): the recorded
    /// fingerprints when they are usable (then nothing is unsaved), a fresh
    /// empty state otherwise (unsaved, so that it gets written).
    pub fn new(cache_dir: &str, data: Option<&JsonValue>) -> (r: InstallStateManager)
        ensures
            r.state_file@ == join_text(cache_dir@, "install-state.json"@),
            match loaded_modules(
                match data {
                    Some(d) => Some(d@),
                    None => None,
                },
            ) {
                Some(ms) => r.fingerprints() == ms && !r.dirty,
                None => r.fingerprints() == Seq::<(Seq<char>, Seq<char>)>::empty() && r.dirty,
            },
            r.keys_held_once(),
    {
        let state_file = join_path(cache_dir, STATE_FILENAME);
        match Self::load(data) {
            Some(m) => InstallStateManager { state_file: state_file, dirty: false, modules: m },
            None => InstallStateManager { state_file: state_file, dirty: true, modules: text_map_new() },
        }
    }

    fn load(data: Option<&JsonValue>) -> (r: Option<IndexMap<String, String>>)
        ensures
            match loaded_modules(
                match data {
                    Some(d) => Some(d@),
                    None => None,
                },
            ) {
                Some(ms) => r matches Some(m) && text_map_entries(m) == ms,
                None => r is None,
            },
            r matches Some(m) ==> distinct_names(text_map_entries(m)),
    {
        proof {
            reveal_strlit("1");
        }
        let d = match data {
            Some(d) => d,
            None => {
                return None;
            },
        };
        let top = match d {
            JsonValue::Object(m) => m,
            _ => {
                return None;
            },
        };
        proof {
            lemma_object_view(*top);
        }
        match members_get(top, "version") {
            Some(JsonValue::Number(t)) => {
                if !str_eq(t.as_str(), "1") {
                    return None;
                }
            },
            _ => {
                return None;
            },
        }
        let ms = match members_get(top, "modules") {
            Some(JsonValue::Object(ms)) => ms,
            _ => {
                return None;
            },
        };
        proof {
            lemma_object_view(*ms);
        }
        let ghost es = json_members(ms@);
        assert(loaded_modules(Some(d@)) == persisted_modules(es));
        let mut out = text_map_new();
        let mut i: usize = 0;
        assert(es.take(0) =~= Seq::<(Seq<char>, Json)>::empty());
        while i < ms.len()
            invariant
                i <= ms@.len(),
                es == json_members(ms@),
                loaded_modules(match data {
                    Some(d) => Some(d@),
                    None => None,
                }) == persisted_modules(es),
                persisted_modules(es.take(i as int)) == Some(text_map_entries(out)),
                distinct_names(text_map_entries(out)),
            decreases ms@.len() - i,
        {
            proof {
                let t = es.take(i + 1);
                assert(t.drop_last() =~= es.take(i as int));
                assert(t.last() == es[i as int]);
            }
            let h = match &ms[i].1 {
                JsonValue::Object(e) => {
                    proof {
                        lemma_object_view(*e);
                    }
                    match members_get(e, "pyproject_hash") {
                        Some(JsonValue::String(h)) => copy_string(h),
                        _ => {
                            proof {
                                lemma_persisted_none_sticks(es, i as int + 1);
                            }
                            return None;
                        },
                    }
                },
                _ => {
                    proof {
                        lemma_persisted_none_sticks(es, i as int + 1);
                    }
                    return None;
                },
            };
            text_map_put(&mut out, copy_string(&ms[i].0), h);
            i += 1;
        }
        assert(es.take(ms@.len() as int) =~= es);
        Some(out)
    }

    /// Whether the module tracked under `key` is installed with fingerprint
    /// `fingerprint`.
    pub fn is_installed_key(&self, key: &str, fingerprint: &str) -> (r: bool)
        ensures
            r == (text_map_get(self.fingerprints(), key@) == Some(fingerprint@)),
    {
        match text_map_lookup(&self.modules, key) {
            Some(h) => str_eq(h.as_str(), fingerprint),
            None => false,
        }
    }

    /// Whether the module at `module_dir` is installed and its dependency
    /// files still have fingerprint `fingerprint` (the module's key depends
    /// on the disk).
    pub fn is_installed(&self, module_dir: &str, fingerprint: &str) -> (r: bool)
        ensures
            exists|k: Seq<char>|
                (k == module_dir@ || is_absolute_text(k)) && r == (#[trigger] text_map_get(self.fingerprints(), k)
                    == Some(fingerprint@)),
    {
        let key = path_key(module_dir);
        self.is_installed_key(key.as_str(), fingerprint)
    }

    /// Records the module tracked under `key` as installed with fingerprint
    /// `fingerprint`; the state then has unsaved changes.
    pub fn mark_installed_key(&mut self, key: &str, fingerprint: &str)
        ensures
            final(self).fingerprints() == text_map_insert(old(self).fingerprints(), key@, fingerprint@),
            final(self).dirty,
            final(self).state_file == old(self).state_file,
            final(self).keys_held_once(),
    {
        text_map_put(&mut self.modules, str_to_string(key), str_to_string(fingerprint));
        self.dirty = true;
    }

    /// Records the module at `module_dir` as installed with fingerprint
    /// `fingerprint` (its key depends on the disk).
    pub fn mark_installed(&mut self, module_dir: &str, fingerprint: &str)
        ensures
            exists|k: Seq<char>|
                (k == module_dir@ || is_absolute_text(k)) && final(self).fingerprints() == #[trigger] text_map_insert(
                    old(self).fingerprints(),
                    k,
                    fingerprint@,
                ),
            final(self).dirty,
            final(self).state_file == old(self).state_file,
            final(self).keys_held_once(),
    {
        let key = path_key(module_dir);
        self.mark_installed_key(key.as_str(), fingerprint);
    }

    /// Forgets every module; the state has unsaved changes when there was
    /// anything to forget.
    pub fn invalidate_all(&mut self)
        ensures
            final(self).fingerprints() == Seq::<(Seq<char>, Seq<char>)>::empty(),
            final(self).dirty == (old(self).dirty || old(self).fingerprints().len() > 0),
            final(self).state_file == old(self).state_file,
            final(self).keys_held_once(),
    {
        let es = text_map_to_vec(&self.modules);
        if es.len() > 0 {
            self.modules = text_map_new();
            self.dirty = true;
        } else {
            assert(text_map_entries(self.modules) =~= Seq::<(Seq<char>, Seq<char>)>::empty());
        }
    }

    /// Forgets the module tracked under `key`; the state has unsaved changes
    /// when it was tracked.
    pub fn invalidate_key(&mut self, key: &str)
        ensures
            final(self).fingerprints() == text_map_remove(old(self).fingerprints(), key@),
            final(self).dirty == (old(self).dirty || text_map_get(old(self).fingerprints(), key@) is Some),
            final(self).state_file == old(self).state_file,
            final(self).keys_held_once(),
    {
        if text_map_take(&mut self.modules, key).is_some() {
            self.dirty = true;
        }
    }

    /// Forgets one module (by path, whose key depends on the disk) or, with
    /// no path, every module; the state has unsaved changes when anything
    /// was forgotten.
    pub fn invalidate(&mut self, module_dir: Option<&str>)
        ensures
            module_dir is None ==> final(self).fingerprints() == Seq::<(Seq<char>, Seq<char>)>::empty()
                && final(self).dirty == (old(self).dirty || old(self).fingerprints().len() > 0),
            module_dir matches Some(p) ==> exists|k: Seq<char>|
                (k == p@ || is_absolute_text(k)) && final(self).fingerprints() == #[trigger] text_map_remove(
                    old(self).fingerprints(),
                    k,
                ) && final(self).dirty == (old(self).dirty || text_map_get(old(self).fingerprints(), k) is Some),
            final(self).state_file == old(self).state_file,
            final(self).keys_held_once(),
    {
        match module_dir {
            None => self.invalidate_all(),
            Some(p) => {
                let key = path_key(p);
                self.invalidate_key(key.as_str());
            },
        }
    }

    /// Whether there are unsaved changes.
    pub fn is_dirty(&self) -> (r: bool)
        ensures
            r == self.dirty,
    {
        self.dirty
    }

    /// The JSON the state is saved as: the format version and, for each
    /// module, its fingerprint as `pyproject_hash`.
    pub fn state_json(&self) -> (r: JsonValue)
        ensures
            r@ == state_json_model(self.fingerprints()),
            self.keys_held_once(),
    {
        let es = text_map_to_vec(&self.modules);
        let ghost fs = self.fingerprints();
        assert(distinct_names(fs)) by {
            assert forall|a: int, b: int| 0 <= a < b < fs.len() implies #[trigger] fs[a].0 != #[trigger] fs[b].0 by {
                assert(es@[a].0@ != es@[b].0@);
            }
        }
        let mut out: Vec<(String, JsonValue)> = Vec::new();
        let mut i: usize = 0;
        while i < es.len()
            invariant
                i <= es@.len(),
                es@.len() == fs.len(),
                fs == self.fingerprints(),
                forall|k: int| 0 <= k < es@.len() ==> (#[trigger] es@[k]).0@ == fs[k].0 && es@[k].1@ == fs[k].1,
                json_members(out@) == Seq::new(i as nat, |k: int| (
                    fs[k].0,
                    Json::Obj(seq![("pyproject_hash"@, Json::Str(fs[k].1))]),
                )),
            decreases es@.len() - i,
        {
            let mut entry: Vec<(String, JsonValue)> = Vec::new();
            entry.push((str_to_string("pyproject_hash"), JsonValue::String(copy_string(&es[i].1))));
            proof {
                lemma_object_view(entry);
                assert(json_members(entry@) =~= seq![("pyproject_hash"@, Json::Str(fs[i as int].1))]);
            }
            let ghost before = json_members(out@);
            let ev = JsonValue::Object(entry);
            assert(ev@ == Json::Obj(seq![("pyproject_hash"@, Json::Str(fs[i as int].1))]));
            out.push((copy_string(&es[i].0), ev));
            assert(json_members(out@) =~= before.push((fs[i as int].0, Json::Obj(seq![("pyproject_hash"@, Json::Str(fs[i as int].1))]))));
            assert(json_members(out@) =~= Seq::new((i + 1) as nat, |k: int| (
                fs[k].0,
                Json::Obj(seq![("pyproject_hash"@, Json::Str(fs[k].1))]),
            )));
            i += 1;
        }
        proof {
            lemma_object_view(out);
        }
        let mut top: Vec<(String, JsonValue)> = Vec::new();
        top.push((str_to_string("version"), JsonValue::Number(str_to_string("1"))));
        top.push((str_to_string("modules"), JsonValue::Object(out)));
        proof {
            lemma_object_view(top);
        }
        assert(json_members(top@) =~= seq![
            ("version"@, Json::Num("1"@)),
            ("modules"@, Json::Obj(Seq::new(fs.len(), |k: int| (
                fs[k].0,
                Json::Obj(seq![("pyproject_hash"@, Json::Str(fs[k].1))]),
            )))),
        ]);
        JsonValue::Object(top)
    }

    /// Records that the state was written: nothing is unsaved any more.
    pub fn mark_saved(&mut self)
        ensures
            !final(self).dirty,
            final(self).fingerprints() == old(self).fingerprints(),
            final(self).state_file == old(self).state_file,
    {
        self.dirty = false;
    }
}

proof fn lemma_persisted_none_sticks(es: Seq<(Seq<char>, Json)>, n: int)
    requires
        0 < n <= es.len(),
        persisted_modules(es.take(n)) is None,
    ensures
        persisted_modules(es) is None,
    decreases es.len(),
{
    if n < es.len() {
        assert(es.drop_last().take(n) =~= es.take(n));
        lemma_persisted_none_sticks(es.drop_last(), n);
    } else {
        assert(es.take(n) =~= es);
    }
}

/// A module recorded as installed with a fingerprint is then found
/// installed with that fingerprint.
pub proof fn law_installed_after_mark(fs: Seq<(Seq<char>, Seq<char>)>, key: Seq<char>, fp: Seq<char>)
    ensures
        text_map_get(text_map_insert(fs, key, fp), key) == Some(fp),
{
    crate::ordered::lemma_text_get_after_insert(fs, key, fp, key);
}

/// After every module is forgotten, none is found installed.
pub proof fn law_nothing_installed_after_invalidate_all(key: Seq<char>)
    ensures
        text_map_get(Seq::<(Seq<char>, Seq<char>)>::empty(), key) is None,
{
}

proof fn lemma_persisted_members(fs: Seq<(Seq<char>, Seq<char>)>, n: int)
    requires
        distinct_names(fs),
        0 <= n <= fs.len(),
    ensures
        persisted_modules(module_members(fs).take(n)) == Some(fs.take(n)),
    decreases n,
{
    reveal_strlit("pyproject_hash");
    let ms = module_members(fs).take(n);
    if n == 0 {
        assert(ms =~= Seq::<(Seq<char>, Json)>::empty());
        assert(fs.take(0) =~= Seq::<(Seq<char>, Seq<char>)>::empty());
    } else {
        lemma_persisted_members(fs, n - 1);
        assert(ms.drop_last() =~= module_members(fs).take(n - 1));
        let entry = seq![("pyproject_hash"@, Json::Str(fs[n - 1].1))];
        assert(ms.last() == (fs[n - 1].0, Json::Obj(entry)));
        assert(first_text_key_at(entry, "pyproject_hash"@, 0));
        assert(json_get(ms.last().1, "pyproject_hash"@) == Some(Json::Str(fs[n - 1].1)));
        let acc = fs.take(n - 1);
        let k = fs[n - 1].0;
        assert(!exists|j: int| first_text_key_at(acc, k, j)) by {
            if exists|j: int| first_text_key_at(acc, k, j) {
                let j = choose|j: int| first_text_key_at(acc, k, j);
                assert(acc[j] == fs[j]);
                assert(fs[j].0 != fs[n - 1].0);
            }
        }
        assert(text_map_insert(acc, k, fs[n - 1].1) == acc.push((k, fs[n - 1].1)));
        assert(acc.push((k, fs[n - 1].1)) =~= fs.take(n));
    }
}

/// Saving the state and reading the saved JSON back gives the same
/// fingerprints, in the same order (each module recorded once).
pub proof fn law_install_state_round_trip(fs: Seq<(Seq<char>, Seq<char>)>)
    requires
        distinct_names(fs),
    ensures
        loaded_modules(Some(state_json_model(fs))) == Some(fs),
{
    reveal_strlit("version");
    reveal_strlit("modules");
    reveal_strlit("1");
    let top = seq![("version"@, Json::Num("1"@)), ("modules"@, Json::Obj(module_members(fs)))];
    assert(first_text_key_at(top, "version"@, 0));
    assert("version"@ != "modules"@) by {
        assert("version"@[0] != "modules"@[0]);
    }
    assert(first_text_key_at(top, "modules"@, 1));
    lemma_persisted_members(fs, fs.len() as int);
    assert(module_members(fs).take(fs.len() as int) =~= module_members(fs));
    assert(fs.take(fs.len() as int) =~= fs);
}

} // verus!
