//! Paths as text: components, joining, lexical normalisation, and the agent
//! and context paths of a bundle.
use vstd::prelude::*;
use vstd::string::StrSliceExecFns;
use crate::text::{
    chars_strip_prefix, concat, str_eq, str_to_string, chars_split, chars_to_string, chars_eq, contains_seq, is_prefix, is_suffix, occurs_at,
    split_char, str_chars, str_ends_with,
};

verus! {

/// One component of a path.
pub enum Comp {
    Root,
    Cur,
    Parent,
    Normal(Seq<char>),
}

/// A path component (`std::path::Component` on Unix).
#[derive(Debug, Clone, PartialEq)]
pub enum PathComponent {
    RootDir,
    CurDir,
    ParentDir,
    Normal(String),
}

impl View for PathComponent {
    type V = Comp;

    open spec fn view(&self) -> Comp {
        match self {
            PathComponent::RootDir => Comp::Root,
            PathComponent::CurDir => Comp::Cur,
            PathComponent::ParentDir => Comp::Parent,
            PathComponent::Normal(s) => Comp::Normal(s@),
        }
    }
}

/// The component a `/`-separated piece stands for: empty pieces and `.` stand
/// for none, `..` for the parent, anything else for itself.
pub open spec fn piece_comp(p: Seq<char>) -> Option<Comp> {
    if p.len() == 0 || p == "."@ {
        None
    } else if p == ".."@ {
        Some(Comp::Parent)
    } else {
        Some(Comp::Normal(p))
    }
}

/// The components of a run of pieces.
pub open spec fn comps_of(pieces: Seq<Seq<char>>) -> Seq<Comp>
    decreases pieces.len(),
{
    if pieces.len() == 0 {
        Seq::empty()
    } else {
        let head = match piece_comp(pieces[0]) {
            Some(c) => seq![c],
            None => Seq::empty(),
        };
        head + comps_of(pieces.drop_first())
    }
}

/// The components of a Unix path: a leading `/` is the root, a leading `.`
/// piece is the current directory, and the pieces between `/`s give the rest.
pub open spec fn path_components(s: Seq<char>) -> Seq<Comp> {
    let pieces = split_char(s, '/');
    if s.len() > 0 && s[0] == '/' {
        seq![Comp::Root] + comps_of(pieces.drop_first())
    } else if pieces[0] == "."@ {
        seq![Comp::Cur] + comps_of(pieces.drop_first())
    } else {
        comps_of(pieces)
    }
}

/// The text of one component.
pub open spec fn comp_text(c: Comp) -> Seq<char> {
    match c {
        Comp::Root => "/"@,
        Comp::Cur => "."@,
        Comp::Parent => ".."@,
        Comp::Normal(s) => s,
    }
}

/// `base` joined with `p` (`Path::join` on Unix): an absolute `p` replaces
/// `base`; otherwise a `/` goes between them unless `base` is empty or already
/// ends with one.
pub open spec fn join_text(base: Seq<char>, p: Seq<char>) -> Seq<char> {
    if p.len() > 0 && p[0] == '/' {
        p
    } else if base.len() == 0 || base[base.len() - 1] == '/' {
        base + p
    } else {
        base + "/"@ + p
    }
}

/// The path a sequence of components makes, joined one by one.
pub open spec fn render(cs: Seq<Comp>) -> Seq<char>
    decreases cs.len(),
{
    if cs.len() == 0 {
        Seq::empty()
    } else {
        join_text(render(cs.drop_last()), comp_text(cs.last()))
    }
}

/// Components with `.` dropped and each `..` taking away the component before
/// it when that is a plain name (and otherwise dropped).
pub open spec fn normalize_comps(cs: Seq<Comp>) -> Seq<Comp>
    decreases cs.len(),
{
    if cs.len() == 0 {
        Seq::empty()
    } else {
        let acc = normalize_comps(cs.drop_last());
        match cs.last() {
            Comp::Cur => acc,
            Comp::Parent => if acc.len() > 0 && acc.last() is Normal {
                acc.drop_last()
            } else {
                acc
            },
            c => acc.push(c),
        }
    }
}

/// A path resolved lexically: `.` and `..` removed without touching the disk.
pub open spec fn normalize_text(s: Seq<char>) -> Seq<char> {
    render(normalize_comps(path_components(s)))
}

/// `s` with every leading `c` removed.
pub open spec fn trim_start(s: Seq<char>, c: char) -> Seq<char>
    decreases s.len(),
{
    if s.len() > 0 && s[0] == c {
        trim_start(s.drop_first(), c)
    } else {
        s
    }
}

/// `s` with every occurrence of `pat` removed, scanning left to right
/// (`str::replace(pat, "")`).
pub open spec fn remove_all(s: Seq<char>, pat: Seq<char>) -> Seq<char>
    decreases s.len(),
{
    if pat.len() == 0 || s.len() < pat.len() {
        s
    } else if s.take(pat.len() as int) == pat {
        remove_all(s.skip(pat.len() as int), pat)
    } else {
        seq![s[0]] + remove_all(s.skip(1), pat)
    }
}

/// `s` without the `/` and `\` characters it starts with.
pub open spec fn trim_separators(s: Seq<char>) -> Seq<char>
    decreases s.len(),
{
    if s.len() > 0 && (s[0] == '/' || s[0] == '\\') {
        trim_separators(s.drop_first())
    } else {
        s
    }
}

/// A name with leading `/` then leading `\` removed, and then every `../`,
/// `..\` and `..` taken out, in that order; separators that the removal
/// leaves at the front are stripped too, so that the name stays relative.
pub open spec fn sanitize_name_model(name: Seq<char>) -> Seq<char> {
    let t = trim_start(trim_start(name, '/'), '\\');
    trim_separators(remove_all(remove_all(remove_all(t, "../"@), "..\\"@), ".."@))
}

/// The path of agent `name` under `base`: `base/agents/<name>`, with `.md`
/// appended unless the sanitised name already ends with it.
pub open spec fn agent_path_model(base: Seq<char>, name: Seq<char>) -> Seq<char> {
    let safe = sanitize_name_model(name);
    let dir = join_text(base, "agents"@);
    if is_suffix(".md"@, safe) {
        join_text(dir, safe)
    } else {
        join_text(dir, safe + ".md"@)
    }
}

/// The path of resource `name` under `base`; `base` itself for an empty name.
pub open spec fn context_path_model(base: Seq<char>, name: Seq<char>) -> Seq<char> {
    let safe = sanitize_name_model(name);
    if safe.len() == 0 {
        base
    } else {
        join_text(base, safe)
    }
}

/// The components of a run of pieces, from position `i` on.
fn comps_from(pieces: &Vec<Vec<char>>, i: usize, out: &mut Vec<PathComponent>)
    requires
        i <= pieces@.len(),
    ensures
        Seq::new(final(out)@.len(), |k: int| final(out)@[k]@) == Seq::new(
            old(out)@.len(),
            |k: int| old(out)@[k]@,
        ) + comps_of(Seq::new(pieces@.len(), |k: int| pieces@[k]@).skip(i as int)),
    decreases pieces@.len() - i,
{
    let ghost ps = Seq::new(pieces@.len(), |k: int| pieces@[k]@);
    let ghost before = Seq::new(out@.len(), |k: int| out@[k]@);
    if i == pieces.len() {
        assert(ps.skip(i as int) =~= Seq::<Seq<char>>::empty());
        assert(before + comps_of(ps.skip(i as int)) =~= before);
        return;
    }
    let p = &pieces[i];
    let dot = str_chars(".");
    let dotdot = str_chars("..");
    proof {
        reveal_strlit(".");
        reveal_strlit("..");
    }
    let ghost head: Seq<Comp> = match piece_comp(p@) {
        Some(c) => seq![c],
        None => Seq::empty(),
    };
    if p.len() == 0 || chars_eq(p, &dot) {
    } else if chars_eq(p, &dotdot) {
        out.push(PathComponent::ParentDir);
    } else {
        out.push(PathComponent::Normal(chars_to_string(p)));
    }
    let ghost mid = Seq::new(out@.len(), |k: int| out@[k]@);
    assert(mid =~= before + head);
    assert(ps.skip(i as int)[0] == p@);
    assert(ps.skip(i as int).drop_first() =~= ps.skip(i + 1));
    comps_from(pieces, i + 1, out);
    assert(before + head + comps_of(ps.skip(i + 1)) =~= before + (head + comps_of(
        ps.skip(i + 1),
    )));
}

/// The components of a path (`Path::components`).
pub fn components(s: &str) -> (r: Vec<PathComponent>)
    ensures
        Seq::new(r@.len(), |k: int| r@[k]@) == path_components(s@),
{
    let v = str_chars(s);
    let pieces = chars_split(&v, '/');
    let ghost ps = Seq::new(pieces@.len(), |k: int| pieces@[k]@);
    assert(ps =~= split_char(s@, '/'));
    proof {
        crate::text::lemma_split_nonempty(s@, '/');
        reveal_strlit(".");
    }
    let mut out: Vec<PathComponent> = Vec::new();
    let dot = str_chars(".");
    if v.len() > 0 && v[0] == '/' {
        out.push(PathComponent::RootDir);
        comps_from(&pieces, 1, &mut out);
        assert(ps.skip(1) =~= ps.drop_first());
        assert(Seq::new(1, |k: int| PathComponent::RootDir@) =~= seq![Comp::Root]);
    } else if chars_eq(&pieces[0], &dot) {
        out.push(PathComponent::CurDir);
        comps_from(&pieces, 1, &mut out);
        assert(ps.skip(1) =~= ps.drop_first());
        assert(Seq::new(1, |k: int| PathComponent::CurDir@) =~= seq![Comp::Cur]);
    } else {
        comps_from(&pieces, 0, &mut out);
        assert(ps.skip(0) =~= ps);
        assert(Seq::new(0, |k: int| PathComponent::CurDir@) + comps_of(ps) =~= comps_of(ps));
    }
    out
}

/// `base` joined with `p` (`Path::join`).
pub fn join_path(base: &str, p: &str) -> (r: String)
    ensures
        r@ == join_text(base@, p@),
{
    let vb = str_chars(base);
    let vp = str_chars(p);
    if vp.len() > 0 && vp[0] == '/' {
        chars_to_string(&vp)
    } else if vb.len() == 0 || vb[vb.len() - 1] == '/' {
        crate::text::concat(base, p)
    } else {
        let with_sep = crate::text::concat(base, "/");
        proof {
            reveal_strlit("/");
        }
        let r = crate::text::concat(with_sep.as_str(), p);
        r
    }
}

/// The text of one component.
fn component_text(c: &PathComponent) -> (r: String)
    ensures
        r@ == comp_text(c@),
{
    proof {
        reveal_strlit("/");
        reveal_strlit(".");
        reveal_strlit("..");
    }
    match c {
        PathComponent::RootDir => crate::text::str_to_string("/"),
        PathComponent::CurDir => crate::text::str_to_string("."),
        PathComponent::ParentDir => crate::text::str_to_string(".."),
        PathComponent::Normal(s) => crate::text::copy_string(s),
    }
}

/// The path that a list of components makes (collecting into a `PathBuf`).
pub fn render_components(cs: &Vec<PathComponent>) -> (r: String)
    ensures
        r@ == render(Seq::new(cs@.len(), |k: int| cs@[k]@)),
{
    let ghost all = Seq::new(cs@.len(), |k: int| cs@[k]@);
    let mut out = String::new();
    let mut i: usize = 0;
    assert(all.take(0) =~= Seq::<Comp>::empty());
    while i < cs.len()
        invariant
            i <= cs@.len(),
            all == Seq::new(cs@.len(), |k: int| cs@[k]@),
            out@ == render(all.take(i as int)),
        decreases cs@.len() - i,
    {
        let t = component_text(&cs[i]);
        out = join_path(out.as_str(), t.as_str());
        proof {
            let next = all.take(i + 1);
            assert(next.drop_last() =~= all.take(i as int));
            assert(next.last() == cs@[i as int]@);
        }
        i += 1;
    }
    assert(all.take(cs@.len() as int) =~= all);
    out
}

/// Lexical normalisation of a component list: `.` dropped, `..` taking away a
/// preceding plain name.
fn normalize_list(cs: &Vec<PathComponent>) -> (r: Vec<PathComponent>)
    ensures
        Seq::new(r@.len(), |k: int| r@[k]@) == normalize_comps(
            Seq::new(cs@.len(), |k: int| cs@[k]@),
        ),
{
    let ghost all = Seq::new(cs@.len(), |k: int| cs@[k]@);
    let mut out: Vec<PathComponent> = Vec::new();
    let mut i: usize = 0;
    assert(all.take(0) =~= Seq::<Comp>::empty());
    while i < cs.len()
        invariant
            i <= cs@.len(),
            all == Seq::new(cs@.len(), |k: int| cs@[k]@),
            Seq::new(out@.len(), |k: int| out@[k]@) == normalize_comps(all.take(i as int)),
        decreases cs@.len() - i,
    {
        let ghost before = Seq::new(out@.len(), |k: int| out@[k]@);
        proof {
            let next = all.take(i + 1);
            assert(next.drop_last() =~= all.take(i as int));
            assert(next.last() == cs@[i as int]@);
        }
        match &cs[i] {
            PathComponent::CurDir => {},
            PathComponent::ParentDir => {
                let n = out.len();
                if n > 0 {
                    let last_is_name = match &out[n - 1] {
                        PathComponent::Normal(_) => true,
                        _ => false,
                    };
                    if last_is_name {
                        out.pop();
                        assert(Seq::new(out@.len(), |k: int| out@[k]@) =~= before.drop_last());
                    }
                }
            },
            PathComponent::RootDir => {
                out.push(PathComponent::RootDir);
                assert(Seq::new(out@.len(), |k: int| out@[k]@) =~= before.push(Comp::Root));
            },
            PathComponent::Normal(s) => {
                let c = crate::text::copy_string(s);
                out.push(PathComponent::Normal(c));
                assert(Seq::new(out@.len(), |k: int| out@[k]@) =~= before.push(cs@[i as int]@));
            },
        }
        i += 1;
    }
    assert(all.take(cs@.len() as int) =~= all);
    out
}

/// A path with `.` and `..` resolved lexically, without touching the disk.
pub fn normalize_components(path: &str) -> (r: String)
    ensures
        r@ == normalize_text(path@),
{
    let cs = components(path);
    let n = normalize_list(&cs);
    render_components(&n)
}

/// `path` made absolute against the working directory `cwd` (unless it is
/// absolute already) and normalised lexically.
pub fn make_absolute(path: &str, cwd: &str) -> (r: String)
    ensures
        r@ == (if path@.len() > 0 && path@[0] == '/' {
            normalize_text(path@)
        } else {
            normalize_text(join_text(cwd@, path@))
        }),
{
    let v = str_chars(path);
    if v.len() > 0 && v[0] == '/' {
        normalize_components(path)
    } else {
        let j = join_path(cwd, path);
        normalize_components(j.as_str())
    }
}

/// `path` with a leading `~` expanded to the home directory `home`, made
/// absolute against `relative_to` (or, without one, against the working
/// directory `cwd`) and normalised lexically; an absolute path is only
/// normalised.
pub open spec fn normalize_path_model(
    path: Seq<char>,
    relative_to: Option<Seq<char>>,
    cwd: Seq<char>,
    home: Option<Seq<char>>,
) -> Seq<char> {
    let p = expand_tilde_model(path, home);
    if p.len() > 0 && p[0] == '/' {
        normalize_text(p)
    } else {
        match relative_to {
            Some(base) => normalize_text(join_text(base, p)),
            None => normalize_text(join_text(cwd, p)),
        }
    }
}

/// A path normalised without touching the disk (see `normalize_path_model`):
/// `~` expanded to `home`, made absolute against `relative_to` or `cwd`,
/// `.` and `..` resolved.
pub fn normalize_path(path: &str, relative_to: Option<&str>, cwd: &str, home: Option<&str>) -> (r: String)
    ensures
        r@ == normalize_path_model(
            path@,
            match relative_to {
                Some(b) => Some(b@),
                None => None,
            },
            cwd@,
            match home {
                Some(h) => Some(h@),
                None => None,
            },
        ),
{
    let expanded = expand_tilde(path, home);
    let p = expanded.as_str();
    let v = str_chars(p);
    if v.len() > 0 && v[0] == '/' {
        normalize_components(p)
    } else {
        match relative_to {
            Some(base) => {
                let j = join_path(base, p);
                normalize_components(j.as_str())
            },
            None => {
                let j = join_path(cwd, p);
                normalize_components(j.as_str())
            },
        }
    }
}

/// A path with a leading `~` standing for the home directory `home`: `~/x`
/// becomes `<home>/x` and `~` becomes `<home>`; without a home directory,
/// or without a leading `~`, the path stays as it is.
pub open spec fn expand_tilde_model(path: Seq<char>, home: Option<Seq<char>>) -> Seq<char> {
    match home {
        Some(h) => if is_prefix("~/"@, path) {
            h + "/"@ + path.skip(2)
        } else if path == "~"@ {
            h
        } else {
            path
        },
        None => path,
    }
}

/// `path` with a leading `~` expanded to the home directory `home`.
pub fn expand_tilde(path: &str, home: Option<&str>) -> (r: String)
    ensures
        r@ == expand_tilde_model(path@, match home {
            Some(h) => Some(h@),
            None => None,
        }),
{
    proof {
        reveal_strlit("~");
        reveal_strlit("~/");
    }
    match home {
        None => str_to_string(path),
        Some(h) => {
            let v = str_chars(path);
            match chars_strip_prefix(&v, "~/") {
                Some(rest) => {
                    let mut out = concat(h, "/");
                    let tail = chars_to_string(&rest);
                    crate::text::push_str(&mut out, tail.as_str());
                    assert(rest@ =~= path@.skip(2));
                    out
                },
                None => {
                    if str_eq(path, "~") {
                        str_to_string(h)
                    } else {
                        str_to_string(path)
                    }
                },
            }
        },
    }
}

/// `v` with every leading `c` removed (`trim_start_matches`).
pub fn trim_leading(v: &Vec<char>, c: char) -> (r: Vec<char>)
    ensures
        r@ == trim_start(v@, c),
{
    let mut i: usize = 0;
    assert(v@.skip(0) =~= v@);
    while i < v.len() && v[i] == c
        invariant
            i <= v@.len(),
            trim_start(v@.skip(i as int), c) == trim_start(v@, c),
        decreases v@.len() - i,
    {
        assert(v@.skip(i as int).drop_first() =~= v@.skip(i + 1));
        i += 1;
    }
    let r = crate::text::sub_chars(v, i, v.len());
    assert(r@ =~= v@.skip(i as int));
    r
}

/// `v` with every occurrence of `pat` removed, left to right (`replace(pat, "")`).
pub fn remove_pattern(v: &Vec<char>, pat: &str) -> (r: Vec<char>)
    ensures
        r@ == remove_all(v@, pat@),
{
    let vp = str_chars(pat);
    let mut out: Vec<char> = Vec::new();
    let mut i: usize = 0;
    if vp.len() == 0 {
        let r = crate::text::sub_chars(v, 0, v.len());
        assert(r@ =~= v@);
        return r;
    }
    assert(v@.skip(0) =~= v@);
    assert(out@ + remove_all(v@, pat@) =~= remove_all(v@, pat@));
    while i < v.len()
        invariant
            i <= v@.len(),
            vp@ == pat@,
            vp@.len() > 0,
            out@ + remove_all(v@.skip(i as int), pat@) == remove_all(v@, pat@),
        decreases v@.len() - i,
    {
        let ghost rest = v@.skip(i as int);
        if vp.len() <= v.len() - i && crate::text::chars_occur_at(v, &vp, i) {
            assert(rest.take(pat@.len() as int) =~= v@.subrange(i as int, i + pat@.len()));
            assert(rest.skip(pat@.len() as int) =~= v@.skip(i + vp@.len()));
            i += vp.len();
        } else {
            proof {
                if rest.len() >= pat@.len() {
                    assert(rest.take(pat@.len() as int) =~= v@.subrange(i as int, i + pat@.len()));
                }
            }
            assert(rest.skip(1) =~= v@.skip(i + 1));
            let ghost before = out@;
            out.push(v[i]);
            assert(out@ + remove_all(v@.skip(i + 1), pat@) =~= before + (seq![v@[i as int]]
                + remove_all(v@.skip(i + 1), pat@)));
            i += 1;
        }
    }
    assert(v@.skip(i as int) =~= Seq::<char>::empty());
    assert(out@ + Seq::<char>::empty() =~= out@);
    out
}

/// `v` without the `/` and `\\` characters it starts with.
pub fn trim_leading_separators(v: &Vec<char>) -> (r: Vec<char>)
    ensures
        r@ == trim_separators(v@),
{
    let mut i: usize = 0;
    assert(v@.skip(0) =~= v@);
    while i < v.len() && (v[i] == '/' || v[i] == '\\')
        invariant
            i <= v@.len(),
            trim_separators(v@.skip(i as int)) == trim_separators(v@),
        decreases v@.len() - i,
    {
        assert(v@.skip(i as int).drop_first() =~= v@.skip(i + 1));
        i += 1;
    }
    let r = crate::text::sub_chars(v, i, v.len());
    assert(r@ =~= v@.skip(i as int));
    r
}

/// A user-supplied name with traversal taken out: leading `/` then leading
/// `\\` stripped, then every `../`, `..\\` and `..` removed, then any
/// separator left at the front stripped, so that the name is relative.
pub fn sanitize_name(name: &str) -> (r: String)
    ensures
        r@ == sanitize_name_model(name@),
{
    let v = str_chars(name);
    let a = trim_leading(&v, '/');
    let b = trim_leading(&a, '\\');
    let c = remove_pattern(&b, "../");
    let d = remove_pattern(&c, "..\\");
    let e = remove_pattern(&d, "..");
    let f = trim_leading_separators(&e);
    chars_to_string(&f)
}

/// The path of agent `name` under bundle directory `base`:
/// `base/agents/<name>.md` (no second `.md` when the name has one).
pub fn construct_agent_path(base: &str, name: &str) -> (r: String)
    ensures
        r@ == agent_path_model(base@, name@),
{
    let safe = sanitize_name(name);
    let dir = join_path(base, "agents");
    if str_ends_with(safe.as_str(), ".md") {
        join_path(dir.as_str(), safe.as_str())
    } else {
        let file = crate::text::concat(safe.as_str(), ".md");
        join_path(dir.as_str(), file.as_str())
    }
}

/// The path of resource `name` relative to bundle directory `base`; `base`
/// itself when nothing is left of the name.
pub fn construct_context_path(base: &str, name: &str) -> (r: String)
    ensures
        r@ == context_path_model(base@, name@),
{
    let safe = sanitize_name(name);
    if safe.as_str().unicode_len() == 0 {
        crate::text::str_to_string(base)
    } else {
        join_path(base, safe.as_str())
    }
}

/// No two neighbouring characters of `s` are both `.`.
pub open spec fn no_double_dot(s: Seq<char>) -> bool {
    forall|i: int| 0 <= i < s.len() - 1 ==> !(#[trigger] s[i] == '.' && s[i + 1] == '.')
}

proof fn lemma_remove_keeps_head(s: Seq<char>)
    requires
        s.len() > 0,
        s[0] != '.',
    ensures
        remove_all(s, ".."@).len() > 0,
        remove_all(s, ".."@)[0] == s[0],
{
    reveal_strlit("..");
    if s.len() >= 2 {
        assert(s.take(2) != ".."@) by {
            assert(s.take(2)[0] == s[0]);
        }
    }
}

proof fn lemma_remove_dotdot(s: Seq<char>)
    ensures
        no_double_dot(remove_all(s, ".."@)),
    decreases s.len(),
{
    reveal_strlit("..");
    let pat = ".."@;
    if s.len() < 2 {
    } else if s.take(2) == pat {
        lemma_remove_dotdot(s.skip(2));
    } else {
        let rest = remove_all(s.skip(1), pat);
        lemma_remove_dotdot(s.skip(1));
        let r = seq![s[0]] + rest;
        assert(remove_all(s, pat) == r);
        if s[0] == '.' {
            assert(s[1] != '.') by {
                if s[1] == '.' {
                    assert(s.take(2) =~= pat);
                }
            }
            lemma_remove_keeps_head(s.skip(1));
        }
        assert forall|i: int| 0 <= i < r.len() - 1 implies !(#[trigger] r[i] == '.' && r[i + 1]
            == '.') by {
            if i > 0 {
                assert(r[i] == rest[i - 1]);
                assert(r[i + 1] == rest[i]);
            }
        }
    }
}

proof fn lemma_trim_separators(s: Seq<char>)
    ensures
        no_double_dot(s) ==> no_double_dot(trim_separators(s)),
        trim_separators(s).len() == 0 || (trim_separators(s)[0] != '/' && trim_separators(s)[0] != '\\'),
    decreases s.len(),
{
    if s.len() > 0 && (s[0] == '/' || s[0] == '\\') {
        let t = s.drop_first();
        if no_double_dot(s) {
            assert forall|i: int| 0 <= i < t.len() - 1 implies !(#[trigger] t[i] == '.' && t[i + 1] == '.') by {
                assert(t[i] == s[i + 1] && t[i + 1] == s[i + 2]);
                assert(!(s[i + 1] == '.' && s[i + 2] == '.'));
            }
        }
        lemma_trim_separators(t);
    }
}

proof fn lemma_no_double_dot_no_parent(r: Seq<char>)
    requires
        no_double_dot(r),
    ensures
        !contains_seq(r, ".."@),
{
    reveal_strlit("..");
    if contains_seq(r, ".."@) {
        let i = choose|i: int| crate::text::occurs_at(r, ".."@, i);
        assert(r.subrange(i, i + 2)[0] == r[i]);
        assert(r.subrange(i, i + 2)[1] == r[i + 1]);
    }
}

proof fn lemma_sanitized(name: Seq<char>)
    ensures
        no_double_dot(sanitize_name_model(name)),
        sanitize_name_model(name).len() == 0 || (sanitize_name_model(name)[0] != '/'
            && sanitize_name_model(name)[0] != '\\'),
{
    let x = remove_all(remove_all(trim_start(trim_start(name, '/'), '\\'), "../"@), "..\\"@);
    lemma_remove_dotdot(x);
    lemma_trim_separators(remove_all(x, ".."@));
}

/// What `sanitize_name` returns never holds `..`.
pub proof fn law_sanitized_name_has_no_parent_step(name: Seq<char>)
    ensures
        !contains_seq(sanitize_name_model(name), ".."@),
{
    lemma_sanitized(name);
    lemma_no_double_dot_no_parent(sanitize_name_model(name));
}

/// What `sanitize_name` returns is relative: it never starts with `/` (or
/// `\\`), so joining it to a directory cannot replace the directory.
pub proof fn law_sanitized_name_is_relative(name: Seq<char>)
    ensures
        sanitize_name_model(name).len() == 0 || (sanitize_name_model(name)[0] != '/'
            && sanitize_name_model(name)[0] != '\\'),
{
    lemma_sanitized(name);
}

/// A context path stays under its base: it starts with the base, and what
/// follows the base holds no `..`.
pub proof fn law_context_path_stays_under_base(base: Seq<char>, name: Seq<char>)
    ensures
        is_prefix(base, context_path_model(base, name)),
        !contains_seq(context_path_model(base, name).skip(base.len() as int), ".."@),
{
    reveal_strlit("/");
    let safe = sanitize_name_model(name);
    let r = context_path_model(base, name);
    lemma_sanitized(name);
    if safe.len() == 0 {
        assert(r.take(base.len() as int) =~= base);
        assert(r.skip(base.len() as int) =~= Seq::<char>::empty());
        assert(no_double_dot(Seq::<char>::empty()));
        lemma_no_double_dot_no_parent(Seq::<char>::empty());
    } else if base.len() == 0 || base[base.len() - 1] == '/' {
        assert(r == base + safe);
        assert(r.take(base.len() as int) =~= base);
        assert(r.skip(base.len() as int) =~= safe);
        lemma_no_double_dot_no_parent(safe);
    } else {
        let rest = "/"@ + safe;
        assert(r == base + rest);
        assert(r.take(base.len() as int) =~= base);
        assert(r.skip(base.len() as int) =~= rest);
        assert forall|i: int| 0 <= i < rest.len() - 1 implies !(#[trigger] rest[i] == '.' && rest[i + 1] == '.') by {
            if i == 0 {
                assert(rest[0] == '/');
            } else {
                assert(rest[i] == safe[i - 1] && rest[i + 1] == safe[i]);
            }
        }
        lemma_no_double_dot_no_parent(rest);
    }
}

/// The file an agent path names, within the agents directory: the
/// sanitised name, with `.md` appended unless it ends with it.
pub open spec fn agent_file_name(name: Seq<char>) -> Seq<char> {
    let safe = sanitize_name_model(name);
    if is_suffix(".md"@, safe) {
        safe
    } else {
        safe + ".md"@
    }
}

/// An agent path stays in the agents directory: it is that directory with
/// the agent's file name (the sanitised name, relative and free of `..`,
/// with `.md`) after a `/` (none when the directory ends with one).
pub proof fn law_agent_path_stays_in_agents_dir(base: Seq<char>, name: Seq<char>)
    ensures
        is_prefix(join_text(base, "agents"@), agent_path_model(base, name)),
        agent_path_model(base, name).skip(join_text(base, "agents"@).len() as int) == agent_file_name(name)
            || agent_path_model(base, name).skip(join_text(base, "agents"@).len() as int) == "/"@
            + agent_file_name(name),
{
    reveal_strlit(".md");
    reveal_strlit("/");
    let dir = join_text(base, "agents"@);
    let f = agent_file_name(name);
    let r = agent_path_model(base, name);
    lemma_sanitized(name);
    assert(f.len() > 0 && f[0] != '/') by {
        let safe = sanitize_name_model(name);
        if !is_suffix(".md"@, safe) {
            if safe.len() == 0 {
                assert(f[0] == '.');
            } else {
                assert(f[0] == safe[0]);
            }
        }
    }
    assert(r == join_text(dir, f));
    if dir.len() == 0 || dir[dir.len() - 1] == '/' {
        assert(r == dir + f);
        assert(r.take(dir.len() as int) =~= dir);
        assert(r.skip(dir.len() as int) =~= f);
    } else {
        assert(r == dir + ("/"@ + f)) by {
            assert(dir + "/"@ + f =~= dir + ("/"@ + f));
        }
        assert(r.take(dir.len() as int) =~= dir);
        assert(r.skip(dir.len() as int) =~= "/"@ + f);
    }
}

fn component_equal(a: &PathComponent, b: &PathComponent) -> (r: bool)
    ensures
        r == (a@ == b@),
{
    match (a, b) {
        (PathComponent::RootDir, PathComponent::RootDir) => true,
        (PathComponent::CurDir, PathComponent::CurDir) => true,
        (PathComponent::ParentDir, PathComponent::ParentDir) => true,
        (PathComponent::Normal(x), PathComponent::Normal(y)) => crate::text::str_eq(
            x.as_str(),
            y.as_str(),
        ),
        _ => false,
    }
}

/// Whether the first `n` components of `a` and `b` agree.
fn components_agree(a: &Vec<PathComponent>, b: &Vec<PathComponent>, n: usize) -> (r: bool)
    requires
        n <= a@.len(),
        n <= b@.len(),
    ensures
        r == (Seq::new(a@.len(), |k: int| a@[k]@).take(n as int) == Seq::new(
            b@.len(),
            |k: int| b@[k]@,
        ).take(n as int)),
{
    let ghost sa = Seq::new(a@.len(), |k: int| a@[k]@);
    let ghost sb = Seq::new(b@.len(), |k: int| b@[k]@);
    let mut i: usize = 0;
    while i < n
        invariant
            i <= n <= a@.len(),
            n <= b@.len(),
            sa == Seq::new(a@.len(), |k: int| a@[k]@),
            sb == Seq::new(b@.len(), |k: int| b@[k]@),
            sa.take(i as int) == sb.take(i as int),
        decreases n - i,
    {
        if !component_equal(&a[i], &b[i]) {
            assert(sa.take(n as int)[i as int] != sb.take(n as int)[i as int]);
            return false;
        }
        assert(sa.take(i + 1) =~= sb.take(i + 1)) by {
            assert forall|k: int| 0 <= k < i + 1 implies #[trigger] sa.take(i + 1)[k] == sb.take(i + 1)[k] by {
                if k < i {
                    assert(sa.take(i as int)[k] == sb.take(i as int)[k]);
                }
            }
        }
        i += 1;
    }
    true
}

/// Whether two paths are equal as paths (`Path` `==`: component by component).
pub fn same_path(a: &str, b: &str) -> (r: bool)
    ensures
        r == (path_components(a@) == path_components(b@)),
{
    let ca = components(a);
    let cb = components(b);
    if ca.len() != cb.len() {
        return false;
    }
    let r = components_agree(&ca, &cb, ca.len());
    proof {
        let sa = Seq::new(ca@.len(), |k: int| ca@[k]@);
        let sb = Seq::new(cb@.len(), |k: int| cb@[k]@);
        assert(sa.take(sa.len() as int) =~= sa);
        assert(sb.take(sb.len() as int) =~= sb);
    }
    r
}

/// Whether path `a` begins with path `b`, component by component
/// (`Path::starts_with`).
pub fn path_starts_with(a: &str, b: &str) -> (r: bool)
    ensures
        r == (path_components(b@).len() <= path_components(a@).len()
            && path_components(a@).take(path_components(b@).len() as int) == path_components(b@)),
{
    let ca = components(a);
    let cb = components(b);
    if cb.len() > ca.len() {
        return false;
    }
    let r = components_agree(&ca, &cb, cb.len());
    proof {
        let sb = Seq::new(cb@.len(), |k: int| cb@[k]@);
        assert(sb.take(sb.len() as int) =~= sb);
    }
    r
}

} // verus!
