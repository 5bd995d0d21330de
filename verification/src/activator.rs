//! Module activation: which modules were activated this session, which
//! bundle packages children must inherit, and which install command (if any)
//! a module needs.
use vstd::prelude::*;
use crate::text::{concat, copy_string, push_str, str_eq, str_to_string};
use crate::paths::{join_text, join_path};
use crate::disk::path_exists;
use crate::json::JsonValue;
use crate::install_state::{InstallStateManager, loaded_modules, state_json_model};
use crate::disk::is_absolute_text;
use crate::ordered::text_map_insert;
use crate::registry::{texts, copy_strings};
use crate::error::BundleError;

verus! {

broadcast use vstd::std_specs::vec::group_vec_axioms;

/// Activates modules: downloads them (through the source resolver set up
/// with `base_path` and `cache_dir`), installs their dependencies when
/// `install_deps` is set, and remembers what it did.
pub struct ModuleActivator {
    pub cache_dir: String,
    pub install_deps: bool,
    pub base_path: Option<String>,
    pub install_state: InstallStateManager,
    /// `name:uri` of each module activated this session, each once.
    pub activated: Vec<String>,
    /// The `src` directories of installed bundle packages, each once.
    pub package_paths: Vec<String>,
}

/// The key a module's activation is remembered under.
pub open spec fn activation_key_model(name: Seq<char>, uri: Seq<char>) -> Seq<char> {
    name + ":"@ + uri
}

/// `xs` with `x` added at the end unless it is there already.
pub open spec fn add_once(xs: Seq<Seq<char>>, x: Seq<char>) -> Seq<Seq<char>> {
    if xs.contains(x) {
        xs
    } else {
        xs.push(x)
    }
}

/// The command that installs a module's dependencies: nothing when it is
/// installed already with the same dependency files, an editable install
/// where it has a `pyproject.toml`, an install of its `requirements.txt`
/// where it has only that, and nothing where it has neither.
pub open spec fn install_command_model(
    module_dir: Seq<char>,
    installed: bool,
    has_pyproject: bool,
    has_requirements: bool,
) -> Option<Seq<Seq<char>>> {
    if installed {
        None
    } else if has_pyproject {
        Some(seq!["uv"@, "pip"@, "install"@, "-e"@, module_dir, "--quiet"@])
    } else if has_requirements {
        Some(seq!["uv"@, "pip"@, "install"@, "-r"@, join_text(module_dir, "requirements.txt"@), "--quiet"@])
    } else {
        None
    }
}

/// Whether `x` is among `xs`.
fn contains_text(xs: &Vec<String>, x: &str) -> (r: bool)
    ensures
        r == texts(xs@).contains(x@),
{
    let mut i: usize = 0;
    while i < xs.len()
        invariant
            i <= xs@.len(),
            forall|j: int| 0 <= j < i ==> (#[trigger] xs@[j])@ != x@,
        decreases xs@.len() - i,
    {
        if str_eq(xs[i].as_str(), x) {
            assert(texts(xs@)[i as int] == x@);
            return true;
        }
        i += 1;
    }
    proof {
        if texts(xs@).contains(x@) {
            let j = choose|j: int| 0 <= j < texts(xs@).len() && texts(xs@)[j] == x@;
            assert(xs@[j]@ == x@);
        }
    }
    false
}

/// Adds `x` to `xs` unless it is there already.
fn push_once(xs: &mut Vec<String>, x: &str)
    ensures
        texts(final(xs)@) == add_once(texts(old(xs)@), x@),
{
    if !contains_text(xs, x) {
        xs.push(str_to_string(x));
        assert(texts(xs@) =~= texts(old(xs)@).push(x@));
    }
}

/// The key a module's activation is remembered under: `name:uri`.
pub fn activation_key(name: &str, uri: &str) -> (r: String)
    ensures
        r@ == activation_key_model(name@, uri@),
{
    let mut k = concat(name, ":");
    push_str(&mut k, uri);
    k
}

/// The install command for a module at `module_dir` (see
/// `install_command_model`), given whether it is installed already and
/// which dependency files it has.
pub fn install_command_for(
    module_dir: &str,
    installed: bool,
    has_pyproject: bool,
    has_requirements: bool,
) -> (r: Option<Vec<String>>)
    ensures
        match r {
            Some(args) => install_command_model(module_dir@, installed, has_pyproject, has_requirements)
                == Some(texts(args@)),
            None => install_command_model(module_dir@, installed, has_pyproject, has_requirements) is None,
        },
{
    if installed {
        return None;
    }
    let (flag, target) = if has_pyproject {
        ("-e", str_to_string(module_dir))
    } else if has_requirements {
        ("-r", join_path(module_dir, "requirements.txt"))
    } else {
        return None;
    };
    let mut args: Vec<String> = Vec::new();
    args.push(str_to_string("uv"));
    args.push(str_to_string("pip"));
    args.push(str_to_string("install"));
    args.push(str_to_string(flag));
    args.push(target);
    args.push(str_to_string("--quiet"));
    proof {
        let expected = if has_pyproject {
            seq!["uv"@, "pip"@, "install"@, "-e"@, module_dir@, "--quiet"@]
        } else {
            seq!["uv"@, "pip"@, "install"@, "-r"@, join_text(module_dir@, "requirements.txt"@), "--quiet"@]
        };
        assert(texts(args@) =~= expected);
    }
    Some(args)
}

/// The error when the install program is not there.
pub fn program_missing_error(program: &str) -> (e: BundleError)
    ensures
        e matches BundleError::LoadError { reason } && reason@ == program@
            + " is not installed. Please install it first."@,
{
    BundleError::LoadError { reason: concat(program, " is not installed. Please install it first.") }
}

/// Words joined with single spaces.
pub open spec fn join_spaces(ws: Seq<Seq<char>>) -> Seq<char>
    decreases ws.len(),
{
    if ws.len() == 0 {
        Seq::empty()
    } else if ws.len() == 1 {
        ws[0]
    } else {
        join_spaces(ws.drop_last()) + " "@ + ws.last()
    }
}

/// The error when the install command ran and failed, with what it printed.
pub fn install_failed_error(args: &Vec<String>, stdout: &str, stderr: &str) -> (e: BundleError)
    ensures
        e matches BundleError::LoadError { reason } && reason@ == "Install command failed: "@
            + join_spaces(texts(args@)) + "\nstdout: "@ + stdout@ + "\nstderr: "@ + stderr@,
{
    let ghost ws = texts(args@);
    let mut reason = str_to_string("Install command failed: ");
    let ghost head = reason@;
    let mut i: usize = 0;
    assert(ws.take(0) =~= Seq::<Seq<char>>::empty());
    while i < args.len()
        invariant
            i <= args@.len(),
            ws == texts(args@),
            reason@ == head + join_spaces(ws.take(i as int)),
        decreases args@.len() - i,
    {
        proof {
            let t = ws.take(i + 1);
            assert(t.drop_last() =~= ws.take(i as int));
            assert(t.last() == ws[i as int]);
        }
        if i > 0 {
            push_str(&mut reason, " ");
        }
        push_str(&mut reason, args[i].as_str());
        proof {
            if i == 0 {
                assert(ws.take(1) =~= seq![ws[0]]);
            }
            assert(reason@ =~= head + join_spaces(ws.take(i + 1)));
        }
        i += 1;
    }
    assert(ws.take(args@.len() as int) =~= ws);
    push_str(&mut reason, "\nstdout: ");
    push_str(&mut reason, stdout);
    push_str(&mut reason, "\nstderr: ");
    push_str(&mut reason, stderr);
    BundleError::LoadError { reason }
}

impl ModuleActivator {
    /// An activator caching in `cache_dir` (by default `cache` in the
    /// Amplifier home `amplifier_home`), with the install state read from
    /// the cache (`install_state`: what the state file held, `None` when it
    /// is missing or not JSON). Nothing is activated yet.
    pub fn new(
        cache_dir: Option<&str>,
        install_deps: bool,
        base_path: Option<&str>,
        amplifier_home: &str,
        install_state: Option<&JsonValue>,
    ) -> (r: ModuleActivator)
        ensures
            r.cache_dir@ == match cache_dir {
                Some(c) => c@,
                None => join_text(amplifier_home@, "cache"@),
            },
            r.install_deps == install_deps,
            match base_path {
                Some(b) => r.base_path matches Some(p) && p@ == b@,
                None => r.base_path is None,
            },
            r.install_state.state_file@ == join_text(r.cache_dir@, "install-state.json"@),
            match loaded_modules(
                match install_state {
                    Some(d) => Some(d@),
                    None => None,
                },
            ) {
                Some(ms) => r.install_state.fingerprints() == ms && !r.install_state.dirty,
                None => r.install_state.fingerprints() == Seq::<(Seq<char>, Seq<char>)>::empty()
                    && r.install_state.dirty,
            },
            r.activated@.len() == 0,
            r.package_paths@.len() == 0,
    {
        let cache = match cache_dir {
            Some(c) => str_to_string(c),
            None => join_path(amplifier_home, "cache"),
        };
        let state = InstallStateManager::new(cache.as_str(), install_state);
        let base = match base_path {
            Some(b) => Some(str_to_string(b)),
            None => None,
        };
        ModuleActivator {
            cache_dir: cache,
            install_deps,
            base_path: base,
            install_state: state,
            activated: Vec::new(),
            package_paths: Vec::new(),
        }
    }

    /// The bundle package paths that child sessions must inherit.
    pub fn bundle_package_paths(&self) -> (r: Vec<String>)
        ensures
            texts(r@) == texts(self.package_paths@),
    {
        copy_strings(&self.package_paths)
    }

    /// Remembers a bundle package's `src` directory for child sessions
    /// (once).
    pub fn track_bundle_package(&mut self, src_dir: &str)
        ensures
            texts(final(self).package_paths@) == add_once(texts(old(self).package_paths@), src_dir@),
            texts(old(self).package_paths@).no_duplicates() ==> texts(final(self).package_paths@).no_duplicates(),
            texts(final(self).activated@) == texts(old(self).activated@),
            final(self).install_state == old(self).install_state,
    {
        push_once(&mut self.package_paths, src_dir);
        proof {
            lemma_add_once_keeps_once(texts(old(self).package_paths@), src_dir@);
        }
    }

    /// Whether the module `name` from `uri` was activated this session.
    pub fn is_activated(&self, name: &str, uri: &str) -> (r: bool)
        ensures
            r == texts(self.activated@).contains(activation_key_model(name@, uri@)),
    {
        let k = activation_key(name, uri);
        contains_text(&self.activated, k.as_str())
    }

    /// Remembers that the module `name` from `uri` was activated.
    pub fn mark_activated(&mut self, name: &str, uri: &str)
        ensures
            texts(final(self).activated@) == add_once(
                texts(old(self).activated@),
                activation_key_model(name@, uri@),
            ),
            texts(old(self).activated@).no_duplicates() ==> texts(final(self).activated@).no_duplicates(),
            texts(final(self).package_paths@) == texts(old(self).package_paths@),
            final(self).install_state == old(self).install_state,
    {
        let k = activation_key(name, uri);
        push_once(&mut self.activated, k.as_str());
        proof {
            lemma_add_once_keeps_once(texts(old(self).activated@), k@);
        }
    }

    /// The command to install the dependencies of the module at
    /// `module_dir`, whose dependency files have fingerprint
    /// `fingerprint`. Whether it counts as installed, and which files it
    /// has, depends on the disk; whatever that gives, the command is one of
    /// the two install commands for this module.
    pub fn install_command(&self, module_dir: &str, fingerprint: &str) -> (r: Option<Vec<String>>)
        ensures
            r matches Some(args) ==> (texts(args@) == install_command_model(module_dir@, false, true, false)->0
                || texts(args@) == install_command_model(module_dir@, false, false, true)->0),
    {
        let installed = self.install_state.is_installed(module_dir, fingerprint);
        let pyproject = join_path(module_dir, "pyproject.toml");
        let requirements = join_path(module_dir, "requirements.txt");
        let has_pyproject = path_exists(pyproject.as_str());
        let has_requirements = path_exists(requirements.as_str());
        install_command_for(module_dir, installed, has_pyproject, has_requirements)
    }

    /// Records that the module at `module_dir` was installed with
    /// dependency files of fingerprint `fingerprint`.
    pub fn record_installed(&mut self, module_dir: &str, fingerprint: &str)
        ensures
            exists|k: Seq<char>|
                (k == module_dir@ || is_absolute_text(k)) && final(self).install_state.fingerprints()
                    == #[trigger] text_map_insert(old(self).install_state.fingerprints(), k, fingerprint@),
            final(self).install_state.dirty,
            final(self).install_state.state_file == old(self).install_state.state_file,
            texts(final(self).activated@) == texts(old(self).activated@),
            texts(final(self).package_paths@) == texts(old(self).package_paths@),
    {
        self.install_state.mark_installed(module_dir, fingerprint);
    }

    /// What is left to save at the end of activation: the state file and the
    /// JSON to write to it, when the install state has unsaved changes.
    pub fn finalize(&self) -> (r: Option<(String, JsonValue)>)
        ensures
            r is Some == self.install_state.dirty,
            r matches Some((f, j)) ==> f@ == self.install_state.state_file@
                && j@ == state_json_model(self.install_state.fingerprints()),
    {
        if self.install_state.is_dirty() {
            Some((copy_string(&self.install_state.state_file), self.install_state.state_json()))
        } else {
            None
        }
    }

    /// Records that the install state was saved.
    pub fn mark_saved(&mut self)
        ensures
            !final(self).install_state.dirty,
            final(self).install_state.fingerprints() == old(self).install_state.fingerprints(),
    {
        self.install_state.mark_saved();
    }
}

/// Remembering the same bundle package, or the same activation, twice is the
/// same as remembering it once.
pub proof fn law_add_once_idempotent(xs: Seq<Seq<char>>, x: Seq<char>)
    ensures
        add_once(add_once(xs, x), x) == add_once(xs, x),
        add_once(xs, x).contains(x),
{
    if !xs.contains(x) {
        assert(xs.push(x)[xs.len() as int] == x);
    }
}

proof fn lemma_add_once_keeps_once(xs: Seq<Seq<char>>, x: Seq<char>)
    ensures
        xs.no_duplicates() ==> add_once(xs, x).no_duplicates(),
{
    if xs.no_duplicates() {
        law_added_once_over_any_sequence(xs, seq![x]);
        let ys = seq![x];
        assert(ys.drop_last() =~= Seq::<Seq<char>>::empty());
        assert(ys.last() == x);
        assert(add_each(xs, ys.drop_last()) == xs);
        assert(add_each(xs, ys) == add_once(xs, x));
    }
}

/// What remembering each of `ys` in turn, starting from `xs`, gives.
pub open spec fn add_each(xs: Seq<Seq<char>>, ys: Seq<Seq<char>>) -> Seq<Seq<char>>
    decreases ys.len(),
{
    if ys.len() == 0 {
        xs
    } else {
        add_once(add_each(xs, ys.drop_last()), ys.last())
    }
}

/// Over any sequence of bundle packages (or activations) remembered in
/// turn, starting from what was remembered, each is held once: nothing is
/// held twice, and what is held is exactly what was held before or
/// remembered since.
pub proof fn law_added_once_over_any_sequence(xs: Seq<Seq<char>>, ys: Seq<Seq<char>>)
    requires
        xs.no_duplicates(),
    ensures
        add_each(xs, ys).no_duplicates(),
        forall|z: Seq<char>| #[trigger] add_each(xs, ys).contains(z) <==> (xs.contains(z) || ys.contains(z)),
    decreases ys.len(),
{
    if ys.len() > 0 {
        let p = ys.drop_last();
        let y = ys.last();
        law_added_once_over_any_sequence(xs, p);
        let a = add_each(xs, p);
        if !a.contains(y) {
            assert forall|i: int, j: int| 0 <= i < j < a.push(y).len() implies a.push(y)[i] != a.push(y)[j] by {
                if j == a.len() {
                    assert(a.push(y)[i] == a[i]);
                }
            }
        }
        assert forall|z: Seq<char>| #[trigger] add_each(xs, ys).contains(z) <==> (xs.contains(z) || ys.contains(z)) by {
            if ys.contains(z) && !p.contains(z) {
                let k = choose|k: int| 0 <= k < ys.len() && ys[k] == z;
                if k < ys.len() - 1 {
                    assert(p[k] == z);
                }
                assert(z == y);
                if !a.contains(y) {
                    assert(a.push(y)[a.len() as int] == y);
                }
            }
            if p.contains(z) {
                let k = choose|k: int| 0 <= k < p.len() && p[k] == z;
                assert(ys[k] == z);
            }
            if add_each(xs, ys).contains(z) && !a.contains(z) {
                let k = choose|k: int| 0 <= k < add_each(xs, ys).len() && add_each(xs, ys)[k] == z;
                assert(z == y);
                assert(ys[ys.len() - 1] == y);
            }
            if a.contains(z) && !a.contains(y) {
                let k = choose|k: int| 0 <= k < a.len() && a[k] == z;
                assert(a.push(y)[k] == z);
            }
        }
    }
}

} // verus!
