//! Finding files: glob patterns under a directory (results in path order),
//! the bundle root above a directory, and the Amplifier home directory.
use vstd::prelude::*;
use crate::text::{chars_strip_prefix, chars_to_string, concat, copy_string, is_prefix, str_chars, str_eq, str_starts_with, str_to_string, strip_prefix};
use crate::paths::{Comp, PathComponent, components, path_components, join_text, join_path, make_absolute, normalize_text, same_path, expand_tilde, expand_tilde_model};
use crate::sorting::{text_le, text_le_exec, lemma_text_le_total, lemma_text_le_trans, lemma_text_le_antisym};
use crate::disk::{path_exists, canonical_path, parent_of, path_parent, first_present};
use crate::registry::{texts, ancestor};

verus! {

broadcast use vstd::std_specs::vec::group_vec_axioms;

/// The rank of a component's kind in the order of `std::path::Component`.
pub open spec fn comp_rank(c: Comp) -> int {
    match c {
        Comp::Root => 1,
        Comp::Cur => 2,
        Comp::Parent => 3,
        Comp::Normal(_) => 4,
    }
}

/// Components in order: by kind, plain names by their characters.
pub open spec fn comp_le(a: Comp, b: Comp) -> bool {
    comp_rank(a) < comp_rank(b) || (comp_rank(a) == comp_rank(b) && match (a, b) {
        (Comp::Normal(x), Comp::Normal(y)) => text_le(x, y),
        _ => true,
    })
}

/// Component lists in lexicographic order (a proper prefix first).
pub open spec fn comps_le(a: Seq<Comp>, b: Seq<Comp>) -> bool
    decreases a.len(),
{
    if a.len() == 0 {
        true
    } else if b.len() == 0 {
        false
    } else if a[0] != b[0] {
        comp_le(a[0], b[0])
    } else {
        comps_le(a.drop_first(), b.drop_first())
    }
}

/// Paths in the order of `Path`'s `Ord`: component by component.
pub open spec fn path_le(a: Seq<char>, b: Seq<char>) -> bool {
    comps_le(path_components(a), path_components(b))
}

proof fn lemma_comp_le_facts(a: Comp, b: Comp, c: Comp)
    ensures
        comp_le(a, b) || comp_le(b, a),
        comp_le(a, b) && comp_le(b, a) ==> a == b,
        comp_le(a, b) && comp_le(b, c) ==> comp_le(a, c),
{
    match (a, b) {
        (Comp::Normal(x), Comp::Normal(y)) => {
            lemma_text_le_total(x, y);
            if text_le(x, y) && text_le(y, x) {
                lemma_text_le_antisym(x, y);
            }
            match c {
                Comp::Normal(z) => {
                    if text_le(x, y) && text_le(y, z) {
                        lemma_text_le_trans(x, y, z);
                    }
                },
                _ => {},
            }
        },
        _ => {},
    }
}

proof fn lemma_comps_le_total(a: Seq<Comp>, b: Seq<Comp>)
    ensures
        comps_le(a, b) || comps_le(b, a),
    decreases a.len(),
{
    if a.len() > 0 && b.len() > 0 {
        if a[0] != b[0] {
            lemma_comp_le_facts(a[0], b[0], b[0]);
        } else {
            lemma_comps_le_total(a.drop_first(), b.drop_first());
        }
    }
}

proof fn lemma_comps_le_trans(a: Seq<Comp>, b: Seq<Comp>, c: Seq<Comp>)
    requires
        comps_le(a, b),
        comps_le(b, c),
    ensures
        comps_le(a, c),
    decreases a.len(),
{
    if a.len() > 0 && b.len() > 0 && c.len() > 0 {
        lemma_comp_le_facts(a[0], b[0], c[0]);
        lemma_comp_le_facts(b[0], c[0], a[0]);
        lemma_comp_le_facts(c[0], a[0], b[0]);
        if a[0] == b[0] && b[0] == c[0] {
            lemma_comps_le_trans(a.drop_first(), b.drop_first(), c.drop_first());
        }
    }
}

/// `x` put into a list of paths after every path that comes no later.
pub open spec fn path_insert(s: Seq<Seq<char>>, x: Seq<char>) -> Seq<Seq<char>>
    decreases s.len(),
{
    if s.len() == 0 {
        seq![x]
    } else if !path_le(s[0], x) {
        seq![x] + s
    } else {
        seq![s[0]] + path_insert(s.drop_first(), x)
    }
}

/// Paths sorted in path order, equal paths kept in the order they came in
/// (`sort` on `PathBuf`s, which is stable).
pub open spec fn path_order(s: Seq<Seq<char>>) -> Seq<Seq<char>>
    decreases s.len(),
{
    if s.len() == 0 {
        Seq::empty()
    } else {
        path_insert(path_order(s.drop_last()), s.last())
    }
}

/// Paths in path order.
pub open spec fn sorted_paths(s: Seq<Seq<char>>) -> bool {
    forall|i: int, j: int| 0 <= i < j < s.len() ==> path_le(#[trigger] s[i], #[trigger] s[j])
}

proof fn lemma_path_insert_at(s: Seq<Seq<char>>, x: Seq<char>, p: int)
    requires
        0 <= p <= s.len(),
        forall|k: int| 0 <= k < p ==> path_le(#[trigger] s[k], x),
        p < s.len() ==> !path_le(s[p], x),
    ensures
        path_insert(s, x) == s.insert(p, x),
    decreases s.len(),
{
    if s.len() == 0 {
        assert(s.insert(p, x) =~= seq![x]);
    } else if p == 0 {
        assert(s.insert(0, x) =~= seq![x] + s);
    } else {
        let t = s.drop_first();
        assert forall|k: int| 0 <= k < p - 1 implies path_le(#[trigger] t[k], x) by {
            assert(t[k] == s[k + 1]);
        }
        lemma_path_insert_at(t, x, p - 1);
        assert(s.insert(p, x) =~= seq![s[0]] + t.insert(p - 1, x));
    }
}

/// Whether two components are the same.
fn comp_eq(a: &PathComponent, b: &PathComponent) -> (r: bool)
    ensures
        r == (a@ == b@),
{
    match (a, b) {
        (PathComponent::RootDir, PathComponent::RootDir) => true,
        (PathComponent::CurDir, PathComponent::CurDir) => true,
        (PathComponent::ParentDir, PathComponent::ParentDir) => true,
        (PathComponent::Normal(x), PathComponent::Normal(y)) => str_eq(x.as_str(), y.as_str()),
        _ => false,
    }
}

fn comp_rank_exec(a: &PathComponent) -> (r: u8)
    ensures
        r == comp_rank(a@),
{
    match a {
        PathComponent::RootDir => 1,
        PathComponent::CurDir => 2,
        PathComponent::ParentDir => 3,
        PathComponent::Normal(_) => 4,
    }
}

fn comp_le_exec(a: &PathComponent, b: &PathComponent) -> (r: bool)
    ensures
        r == comp_le(a@, b@),
{
    let ra = comp_rank_exec(a);
    let rb = comp_rank_exec(b);
    if ra != rb {
        ra < rb
    } else {
        match (a, b) {
            (PathComponent::Normal(x), PathComponent::Normal(y)) => text_le_exec(x.as_str(), y.as_str()),
            _ => true,
        }
    }
}

/// The views of a list of components.
pub open spec fn comps_view(v: Seq<PathComponent>) -> Seq<Comp> {
    Seq::new(v.len(), |i: int| v[i]@)
}

fn comps_le_exec(a: &Vec<PathComponent>, b: &Vec<PathComponent>) -> (r: bool)
    ensures
        r == comps_le(comps_view(a@), comps_view(b@)),
{
    let ghost sa = comps_view(a@);
    let ghost sb = comps_view(b@);
    let mut i: usize = 0;
    assert(sa.skip(0) =~= sa);
    assert(sb.skip(0) =~= sb);
    while i < a.len() && i < b.len() && comp_eq(&a[i], &b[i])
        invariant
            i <= a@.len(),
            i <= b@.len(),
            sa == comps_view(a@),
            sb == comps_view(b@),
            comps_le(sa.skip(i as int), sb.skip(i as int)) == comps_le(sa, sb),
        decreases a@.len() - i,
    {
        assert(sa.skip(i as int).drop_first() =~= sa.skip(i + 1));
        assert(sb.skip(i as int).drop_first() =~= sb.skip(i + 1));
        i += 1;
    }
    if i == a.len() {
        true
    } else if i == b.len() {
        false
    } else {
        comp_le_exec(&a[i], &b[i])
    }
}

/// The paths found, in path order; `found` is what the glob gave: `None`
/// where the pattern was invalid, and `None` for each entry that could not
/// be read (those are left out).
pub fn sort_found_paths(found: Option<Vec<Option<String>>>) -> (r: Vec<String>)
    ensures
        texts(r@) == path_order(found_paths(match found {
            Some(v) => v@,
            None => Seq::empty(),
        })),
        sorted_paths(texts(r@)),
        texts(r@).to_multiset() == found_paths(match found {
            Some(v) => v@,
            None => Seq::empty(),
        }).to_multiset(),
{
    let entries: Vec<Option<String>> = match found {
        Some(v) => v,
        None => Vec::new(),
    };
    let ghost src = found_paths(entries@);
    let mut out: Vec<String> = Vec::new();
    let mut keys: Vec<Vec<PathComponent>> = Vec::new();
    let mut i: usize = 0;
    assert(found_paths(entries@.take(0)) =~= Seq::<Seq<char>>::empty());
    assert(texts(out@) =~= Seq::<Seq<char>>::empty());
    while i < entries.len()
        invariant
            i <= entries@.len(),
            src == found_paths(entries@),
            keys@.len() == out@.len(),
            forall|k: int| 0 <= k < out@.len() ==> comps_view((#[trigger] keys@[k])@) == path_components(out@[k]@),
            texts(out@) == path_order(found_paths(entries@.take(i as int))),
            sorted_paths(texts(out@)),
            texts(out@).to_multiset() == found_paths(entries@.take(i as int)).to_multiset(),
        decreases entries@.len() - i,
    {
        proof {
            let t = entries@.take(i + 1);
            assert(t.drop_last() =~= entries@.take(i as int));
            assert(t.last() == entries@[i as int]);
        }
        match &entries[i] {
            None => {
                assert(found_paths(entries@.take(i + 1)) == found_paths(entries@.take(i as int)));
            },
            Some(path) => {
                let ghost cur = texts(out@);
                let ghost xv = path@;
                proof {
                    let q = found_paths(entries@.take(i as int));
                    assert(found_paths(entries@.take(i + 1)) == q.push(xv));
                    assert(q.push(xv).drop_last() =~= q);
                    assert(path_order(q.push(xv)) == path_insert(path_order(q), xv));
                }
                let key = components(path.as_str());
                assert(comps_view(key@) =~= Seq::new(key@.len(), |k: int| key@[k]@));
                let mut p: usize = 0;
                while p < out.len() && comps_le_exec(&keys[p], &key)
                    invariant
                        p <= out@.len(),
                        keys@.len() == out@.len(),
                        forall|k: int| 0 <= k < out@.len() ==> comps_view((#[trigger] keys@[k])@) == path_components(out@[k]@),
                        cur == texts(out@),
                        comps_view(key@) == path_components(xv),
                        forall|k: int| 0 <= k < p ==> path_le(#[trigger] cur[k], xv),
                    decreases out@.len() - p,
                {
                    assert(cur[p as int] == out@[p as int]@);
                    p += 1;
                }
                proof {
                    if p < out@.len() {
                        assert(cur[p as int] == out@[p as int]@);
                    }
                    lemma_path_insert_at(cur, xv, p as int);
                }
                let ghost old_keys = keys@;
                out.insert(p, path.clone());
                keys.insert(p, key);
                proof {
                    let next = texts(out@);
                    assert(next =~= cur.insert(p as int, xv));
                    assert forall|k: int| 0 <= k < out@.len() implies comps_view((#[trigger] keys@[k])@)
                        == path_components(out@[k]@) by {
                        if k < p {
                            assert(keys@[k] == old_keys[k]);
                        } else if k > p {
                            assert(keys@[k] == old_keys[k - 1]);
                        }
                    }
                    vstd::seq_lib::to_multiset_insert(cur, p as int, xv);
                    vstd::seq_lib::to_multiset_build(found_paths(entries@.take(i as int)), xv);
                    assert forall|a: int, b: int| 0 <= a < b < next.len() implies path_le(
                        #[trigger] next[a],
                        #[trigger] next[b],
                    ) by {
                        if a < p && b < p {
                            assert(next[a] == cur[a] && next[b] == cur[b]);
                        } else if a < p && b == p {
                            assert(next[a] == cur[a]);
                        } else if a < p && b > p {
                            assert(next[a] == cur[a] && next[b] == cur[b - 1]);
                        } else if a == p {
                            assert(next[b] == cur[b - 1]);
                            lemma_comps_le_total(path_components(cur[p as int]), path_components(xv));
                            if b - 1 > p {
                                lemma_comps_le_trans(
                                    path_components(xv),
                                    path_components(cur[p as int]),
                                    path_components(cur[b - 1]),
                                );
                            }
                        } else {
                            assert(next[a] == cur[a - 1] && next[b] == cur[b - 1]);
                        }
                    }
                }
            },
        }
        i += 1;
    }
    assert(entries@.take(entries@.len() as int) =~= entries@);
    out
}

/// The paths among what a glob gave, unreadable entries left out.
pub open spec fn found_paths(es: Seq<Option<String>>) -> Seq<Seq<char>>
    decreases es.len(),
{
    if es.len() == 0 {
        Seq::empty()
    } else {
        let rest = found_paths(es.drop_last());
        match es.last() {
            Some(p) => rest.push(p@),
            None => rest,
        }
    }
}

/// The glob pattern searched for: `pattern` under `base`, with `**/` put in
/// front for a recursive search unless it begins with `**` already.
pub open spec fn glob_pattern_model(base: Seq<char>, pattern: Seq<char>, recursive: bool) -> Seq<char> {
    let effective = if recursive && !is_prefix("**"@, pattern) {
        "**/"@ + pattern
    } else {
        pattern
    };
    join_text(base, effective)
}

/// The glob pattern that `find_files` searches for.
pub fn glob_pattern(base: &str, pattern: &str, recursive: bool) -> (r: String)
    ensures
        r@ == glob_pattern_model(base@, pattern@, recursive),
{
    if recursive && !str_starts_with(pattern, "**") {
        let effective = concat("**/", pattern);
        join_path(base, effective.as_str())
    } else {
        join_path(base, pattern)
    }
}

/// `glob::glob`: the paths that match `pattern` on the disk, `None` when the
/// pattern is invalid, and `None` for each entry that could not be read.
/// What it finds depends on the disk; nothing is stated of it.
#[verifier::external_body]
fn glob_paths(pattern: &str) -> Option<Vec<Option<String>>> {
    match glob::glob(pattern) {
        Ok(paths) => Some(paths.map(|e| e.ok().map(|p| p.display().to_string())).collect()),
        Err(_) => None,
    }
}

/// The files under `base` that match `pattern` (anywhere below `base` when
/// `recursive`), in path order. What is found depends on the disk; whatever
/// it is comes out sorted.
pub fn find_files(base: &str, pattern: &str, recursive: bool) -> (r: Vec<String>)
    ensures
        sorted_paths(texts(r@)),
{
    let full = glob_pattern(base, pattern, recursive);
    let found = glob_paths(full.as_str());
    sort_found_paths(found)
}

/// `start` made absolute (canonical when it exists, otherwise joined to
/// `cwd`) and its ancestors, walked up until a directory holds `bundle.md`
/// or `bundle.yaml`. What is found depends on the disk; whatever it is,
/// for an absolute `start` it is `start` or one of its ancestors.
pub fn find_bundle_root(start: &str, cwd: &str) -> (r: Option<String>)
    ensures
        r matches Some(d) ==> (start@.len() > 0 && start@[0] == '/' ==> exists|k: nat|
            ancestor(start@, k) == Some(d@)),
{
    let v = str_chars(start);
    let absolute = v.len() > 0 && v[0] == '/';
    let mut current = if absolute {
        str_to_string(start)
    } else {
        match canonical_path(start) {
            Some(c) => c,
            None => join_path(cwd, start),
        }
    };
    let ghost base = current@;
    let mut dirs: Vec<String> = Vec::new();
    let mut present: Vec<bool> = Vec::new();
    let mut walking = true;
    assert(ancestor(base, 0) == Some(base));
    while walking
        invariant
            dirs@.len() == present@.len(),
            forall|j: int| 0 <= j < dirs@.len() ==> ancestor(base, j as nat) == Some(#[trigger] dirs@[j]@),
            walking ==> ancestor(base, dirs@.len() as nat) == Some(current@),
            absolute ==> base == start@,
            absolute == (start@.len() > 0 && start@[0] == '/'),
        decreases current@.len() + (if walking { 1int } else { 0int }),
    {
        let md = join_path(current.as_str(), "bundle.md");
        let yaml = join_path(current.as_str(), "bundle.yaml");
        let here = path_exists(md.as_str()) || path_exists(yaml.as_str());
        let ghost n = dirs@.len();
        dirs.push(copy_string(&current));
        present.push(here);
        assert(dirs@[n as int]@ == current@);
        if here {
            walking = false;
        } else {
            match parent_of(current.as_str()) {
                Some(p) => {
                    if same_path(p.as_str(), current.as_str()) {
                        walking = false;
                    } else {
                        assert(ancestor(base, (n + 1) as nat) == path_parent(current@));
                        current = p;
                    }
                },
                None => {
                    walking = false;
                },
            }
        }
    }
    match first_present(&present) {
        Some(k) => {
            assert(ancestor(base, k as nat) == Some(dirs@[k as int]@));
            Some(copy_string(&dirs[k]))
        },
        None => None,
    }
}

/// `dirs::home_dir`: the user's home directory, when one is known. It depends
/// on the environment; nothing is stated of it.
#[verifier::external_body]
fn home_directory() -> Option<String> {
    dirs::home_dir().map(|h| h.display().to_string())
}

/// The text of an optional string.
pub open spec fn opt_view(s: Option<&str>) -> Option<Seq<char>> {
    match s {
        Some(t) => Some(t@),
        None => None,
    }
}

/// Where the Amplifier home is, before it is made absolute: the value of
/// `AMPLIFIER_HOME` (`env_home`) with `~` expanded, or `.amplifier` in the
/// home directory (`.` when there is none).
pub open spec fn amplifier_home_candidate(env_home: Option<Seq<char>>, home: Option<Seq<char>>) -> Seq<char> {
    match env_home {
        Some(e) => expand_tilde_model(e, home),
        None => join_text(
            match home {
                Some(h) => h,
                None => "."@,
            },
            ".amplifier"@,
        ),
    }
}

/// The Amplifier home given the candidate path, what canonicalising it gave
/// (`None` when it does not exist) and the working directory `cwd`: the
/// canonical path, or else the candidate made absolute and normalised.
pub open spec fn amplifier_home_model(candidate: Seq<char>, canonical: Option<Seq<char>>, cwd: Seq<char>) -> Seq<char> {
    match canonical {
        Some(c) => c,
        None => if candidate.len() > 0 && candidate[0] == '/' {
            normalize_text(candidate)
        } else {
            normalize_text(join_text(cwd, candidate))
        },
    }
}

/// The Amplifier home directory, given the value of `AMPLIFIER_HOME`
/// (`env_home`), the home directory (`home`) and the working directory.
/// Whether the candidate exists is up to the disk; the result is either its
/// canonical form or the candidate made absolute.
pub fn amplifier_home_from(env_home: Option<&str>, home: Option<&str>, cwd: &str) -> (r: String)
    ensures
        exists|c: Option<Seq<char>>| r@ == #[trigger] amplifier_home_model(
            amplifier_home_candidate(opt_view(env_home), opt_view(home)),
            c,
            cwd@,
        ),
{
    let candidate = match env_home {
        Some(e) => expand_tilde(e, home),
        None => match home {
            Some(h) => join_path(h, ".amplifier"),
            None => join_path(".", ".amplifier"),
        },
    };
    assert(candidate@ == amplifier_home_candidate(opt_view(env_home), opt_view(home)));
    match canonical_path(candidate.as_str()) {
        Some(c) => {
            assert(amplifier_home_model(candidate@, Some(c@), cwd@) == c@);
            c
        },
        None => {
            let r = make_absolute(candidate.as_str(), cwd);
            assert(amplifier_home_model(candidate@, None, cwd@) == r@);
            r
        },
    }
}

/// The Amplifier home directory: `amplifier_home_from` with the home
/// directory that `dirs::home_dir` reports.
pub fn get_amplifier_home(env_home: Option<&str>, cwd: &str) -> (r: String)
    ensures
        exists|h: Option<Seq<char>>, c: Option<Seq<char>>| r@ == #[trigger] amplifier_home_model(
            amplifier_home_candidate(opt_view(env_home), h),
            c,
            cwd@,
        ),
{
    let home = home_directory();
    match home {
        Some(h) => {
            let r = amplifier_home_from(env_home, Some(h.as_str()), cwd);
            assert(exists|c: Option<Seq<char>>| r@ == #[trigger] amplifier_home_model(
                amplifier_home_candidate(opt_view(env_home), Some(h@)),
                c,
                cwd@,
            ));
            r
        },
        None => amplifier_home_from(env_home, None, cwd),
    }
}

} // verus!
