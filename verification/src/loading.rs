//! Bundles from bundle files: a YAML file is the bundle section itself; a
//! markdown file has it as frontmatter and the instruction as its body.
use vstd::prelude::*;
use vstd::string::StrSliceExecFns;
use crate::value::{Yaml, YamlValue};
use crate::bundle::{Bundle, BundleModel, new_model};
use crate::bundle_dict::{from_dict_model, load_matches};
use crate::error::BundleError;
use crate::text::{copy_string, slice_to_string, str_chars, str_to_string, str_eq, sub_chars, trim_ws, trim_whitespace};
use crate::ordered::{text_map_insert, text_map_put};
use crate::registry::texts;
use crate::activator::add_once;
use crate::registry_names::{extract_bundle_name, bundle_name_model};

verus! {

broadcast use vstd::std_specs::vec::group_vec_axioms;

/// The dictionary a bundle file's document stands for: the document under
/// `bundle`.
pub open spec fn wrapped(doc: Yaml) -> Yaml {
    Yaml::Dict(seq![(Yaml::Str("bundle"@), doc)])
}

/// The bundle a YAML bundle file holds (its document is the `bundle`
/// section), relative paths taken from `base_path`.
pub fn bundle_from_yaml_document(doc: YamlValue, base_path: &str) -> (r: Result<Bundle, BundleError>)
    ensures
        load_matches(r, from_dict_model(wrapped(doc@), Some(base_path@))),
{
    let ghost d = doc@;
    let mut m: Vec<(YamlValue, YamlValue)> = Vec::new();
    m.push((YamlValue::String(str_to_string("bundle")), doc));
    proof {
        crate::value::lemma_dict_view(m);
        assert(crate::value::entries_view(m@) =~= seq![(Yaml::Str("bundle"@), d)]);
    }
    let data = YamlValue::Mapping(m);
    Bundle::from_dict_with_base_path(&data, base_path)
}

/// A bundle with the instruction of a markdown body: the trimmed body when
/// it is not empty, the bundle's own instruction otherwise.
pub open spec fn with_body(b: BundleModel, body: Seq<char>) -> BundleModel {
    if trim_ws(body).len() > 0 {
        BundleModel { instruction: Some(trim_ws(body)), ..b }
    } else {
        b
    }
}

/// The bundle a markdown bundle file gives: from its frontmatter (the
/// `bundle` section) when it has one, else a bundle named after the file's
/// directory (`unknown` when it has none) with that directory as base path;
/// the trimmed body, when not empty, is the instruction.
pub open spec fn markdown_bundle_model(
    frontmatter: Option<Yaml>,
    body: Seq<char>,
    base_path: Seq<char>,
    dir_name: Option<Seq<char>>,
) -> Result<BundleModel, Seq<char>> {
    match frontmatter {
        Some(fm) => match from_dict_model(wrapped(fm), Some(base_path)) {
            Ok(b) => Ok(with_body(b, body)),
            Err(e) => Err(e),
        },
        None => {
            let name = match dir_name {
                Some(n) => n,
                None => "unknown"@,
            };
            Ok(with_body(BundleModel { base_path: Some(base_path), ..new_model(name) }, body))
        },
    }
}

/// The bundle a markdown bundle file gives (see `markdown_bundle_model`),
/// from its parsed frontmatter and its body; `dir_name` is the name of the
/// file's directory.
pub fn bundle_from_markdown(
    frontmatter: Option<YamlValue>,
    body: &str,
    base_path: &str,
    dir_name: Option<&str>,
) -> (r: Result<Bundle, BundleError>)
    ensures
        load_matches(r, markdown_bundle_model(
            match frontmatter {
                Some(f) => Some(f@),
                None => None,
            },
            body@,
            base_path@,
            match dir_name {
                Some(n) => Some(n@),
                None => None,
            },
        )),
{
    proof {
        reveal_strlit("unknown");
    }
    let mut bundle = match frontmatter {
        Some(fm) => match bundle_from_yaml_document(fm, base_path) {
            Ok(b) => b,
            Err(e) => {
                return Err(e);
            },
        },
        None => {
            let name = match dir_name {
                Some(n) => n,
                None => "unknown",
            };
            let mut b = Bundle::new(name);
            b.base_path = Some(str_to_string(base_path));
            b
        },
    };
    let trimmed = trim_whitespace(body);
    if trimmed.as_str().unicode_len() > 0 {
        bundle.instruction = Some(trimmed);
    }
    Ok(bundle)
}

/// How a bundle path is read.
#[derive(Debug, Clone, Copy, PartialEq, Eq)]
pub enum BundleFileFormat {
    Markdown,
    Yaml,
}

/// A bundle file is markdown when its extension is `md`, YAML otherwise.
pub fn bundle_file_format(extension: Option<&str>) -> (r: BundleFileFormat)
    ensures
        (r == BundleFileFormat::Markdown) == (extension matches Some(e) && e@ == "md"@),
{
    proof {
        reveal_strlit("md");
    }
    match extension {
        Some(e) => if str_eq(e, "md") {
            BundleFileFormat::Markdown
        } else {
            BundleFileFormat::Yaml
        },
        None => BundleFileFormat::Yaml,
    }
}


/// A loaded bundle placed in its directory: when a root bundle was found
/// above it (in another directory), the root's name, and the bundle's own
/// name when it differs, are recorded as living in the root's directory;
/// the bundle's base path is its directory.
pub open spec fn placed_model(b: BundleModel, bundle_dir: Seq<char>, root: Option<(Seq<char>, Seq<char>)>) -> BundleModel {
    let sbp = match root {
        Some((root_name, root_dir)) => if crate::paths::path_components(root_dir)
            != crate::paths::path_components(bundle_dir) {
            let with_root = text_map_insert(b.source_base_paths, root_name, root_dir);
            if b.name.len() > 0 && b.name != root_name {
                text_map_insert(with_root, b.name, root_dir)
            } else {
                with_root
            }
        } else {
            b.source_base_paths
        },
        None => b.source_base_paths,
    };
    BundleModel { source_base_paths: sbp, base_path: Some(bundle_dir), ..b }
}

/// Places a loaded bundle in its directory (see `placed_model`); `root` is
/// the name and directory of the root bundle found above it, if any.
pub fn place_bundle(bundle: &mut Bundle, bundle_dir: &str, root: Option<(&str, &str)>)
    ensures
        final(bundle)@ == placed_model(old(bundle)@, bundle_dir@, match root {
            Some((n, d)) => Some((n@, d@)),
            None => None,
        }),
{
    match root {
        Some((root_name, root_dir)) => {
            if !crate::paths::same_path(root_dir, bundle_dir) {
                text_map_put(&mut bundle.source_base_paths, str_to_string(root_name), str_to_string(root_dir));
                if bundle.name.as_str().unicode_len() > 0 && !str_eq(bundle.name.as_str(), root_name) {
                    let n = copy_string(&bundle.name);
                    text_map_put(&mut bundle.source_base_paths, n, str_to_string(root_dir));
                }
            }
        },
        None => {},
    }
    bundle.base_path = Some(str_to_string(bundle_dir));
}

/// The names of loaded includes that have one, in order.
pub open spec fn named(bs: Seq<BundleModel>) -> Seq<Seq<char>>
    decreases bs.len(),
{
    if bs.len() == 0 {
        Seq::empty()
    } else if bs.last().name.len() > 0 {
        named(bs.drop_last()).push(bs.last().name)
    } else {
        named(bs.drop_last())
    }
}

/// The names of the loaded includes that have one, in order (what the
/// registry records as included).
pub fn included_names(loaded: &Vec<Bundle>) -> (r: Vec<String>)
    ensures
        crate::registry::texts(r@) == named(crate::bundle_compose::owned_models(loaded@)),
{
    let ghost ms = crate::bundle_compose::owned_models(loaded@);
    let mut out: Vec<String> = Vec::new();
    let mut i: usize = 0;
    assert(ms.take(0) =~= Seq::<BundleModel>::empty());
    assert(crate::registry::texts(out@) =~= Seq::<Seq<char>>::empty());
    while i < loaded.len()
        invariant
            i <= loaded@.len(),
            ms == crate::bundle_compose::owned_models(loaded@),
            crate::registry::texts(out@) == named(ms.take(i as int)),
        decreases loaded@.len() - i,
    {
        proof {
            let t = ms.take(i + 1);
            assert(t.drop_last() =~= ms.take(i as int));
            assert(t.last() == ms[i as int]);
            assert(ms[i as int] == loaded@[i as int]@);
        }
        if loaded[i].name.as_str().unicode_len() > 0 {
            let ghost before = crate::registry::texts(out@);
            out.push(copy_string(&loaded[i].name));
            assert(crate::registry::texts(out@) =~= before.push(loaded@[i as int].name@));
        }
        i += 1;
    }
    assert(ms.take(loaded@.len() as int) =~= ms);
    out
}


/// A `---` line of `s` starts at `i`: three dashes at the start of `s` or
/// after a newline, followed by a newline or the end of `s`.
pub open spec fn delimiter_at(s: Seq<char>, i: int) -> bool {
    &&& 0 <= i && i + 3 <= s.len()
    &&& s[i] == '-' && s[i + 1] == '-' && s[i + 2] == '-'
    &&& (i == 0 || s[i - 1] == '\n')
    &&& (i + 3 == s.len() || s[i + 3] == '\n')
}

/// The first `---` line of `s` starts at `i`.
pub open spec fn first_delimiter(s: Seq<char>, i: int) -> bool {
    delimiter_at(s, i) && forall|j: int| 0 <= j < i ==> !delimiter_at(s, j)
}

/// The frontmatter of a document and its body: a document that opens with a
/// `---` line has as frontmatter the text up to the next `---` line, and as
/// body what follows that line; any other document has none (`None`).
pub open spec fn frontmatter_split(content: Seq<char>) -> Option<(Seq<char>, Seq<char>)> {
    if content.len() >= 4 && content.take(4) == "---\n"@ {
        let rest = content.skip(4);
        if exists|i: int| first_delimiter(rest, i) {
            let i = choose|i: int| first_delimiter(rest, i);
            let after = rest.skip(i + 3);
            Some((rest.take(i), if after.len() > 0 {
                after.skip(1)
            } else {
                after
            }))
        } else {
            None
        }
    } else {
        None
    }
}

proof fn lemma_first_delimiter_unique(s: Seq<char>, i: int, j: int)
    requires
        first_delimiter(s, i),
        first_delimiter(s, j),
    ensures
        i == j,
{
}

fn delimiter_at_exec(v: &Vec<char>, i: usize) -> (r: bool)
    requires
        i + 3 <= v@.len(),
    ensures
        r == delimiter_at(v@, i as int),
{
    let len = v.len();
    v[i] == '-' && v[i + 1] == '-' && v[i + 2] == '-' && (i == 0 || v[i - 1] == '\n') && (i + 3 == len
        || v[i + 3] == '\n')
}

/// A document split into its frontmatter text and its body (see
/// `frontmatter_split`); `None` when it has no frontmatter.
pub fn split_frontmatter(content: &str) -> (r: Option<(String, String)>)
    ensures
        match r {
            Some((fm, body)) => frontmatter_split(content@) == Some((fm@, body@)),
            None => frontmatter_split(content@) is None,
        },
{
    proof {
        reveal_strlit("---\n");
    }
    let v = str_chars(content);
    if v.len() < 4 || !(v[0] == '-' && v[1] == '-' && v[2] == '-' && v[3] == '\n') {
        proof {
            if v@.len() >= 4 && v@.take(4) == "---\n"@ {
                assert(v@.take(4)[0] == '-' && v@.take(4)[1] == '-' && v@.take(4)[2] == '-' && v@.take(4)[3] == '\n');
            }
        }
        return None;
    }
    assert(v@.take(4) =~= "---\n"@);
    let rest = sub_chars(&v, 4, v.len());
    assert(rest@ =~= content@.skip(4));
    assert(content@.take(4) =~= "---\n"@);
    let n = rest.len();
    let mut i: usize = 0;
    while i < n && n - i >= 3
        invariant
            n == rest@.len(),
            rest@ == content@.skip(4),
            content@.len() >= 4,
            content@.take(4) == "---\n"@,
            i <= n,
            forall|j: int| 0 <= j < i ==> !delimiter_at(rest@, j),
        decreases n - i,
    {
        if delimiter_at_exec(&rest, i) {
            proof {
                assert(first_delimiter(rest@, i as int));
                let w = choose|w: int| first_delimiter(rest@, w);
                lemma_first_delimiter_unique(rest@, w, i as int);
            }
            let fm = slice_to_string(&rest, 0, i);
            let body = if i + 3 < n {
                slice_to_string(&rest, i + 4, n)
            } else {
                slice_to_string(&rest, i + 3, n)
            };
            proof {
                let after = rest@.skip(i + 3);
                assert(fm@ =~= rest@.take(i as int));
                if i + 3 < n {
                    assert(body@ =~= after.skip(1));
                } else {
                    assert(body@ =~= after);
                }
                let c = content@;
                assert(c.len() >= 4 && c.take(4) == "---\n"@);
                assert(exists|w: int| first_delimiter(c.skip(4), w));
                let w = choose|w: int| first_delimiter(c.skip(4), w);
                lemma_first_delimiter_unique(c.skip(4), w, i as int);
            }
            return Some((fm, body));
        }
        i += 1;
    }
    proof {
        if exists|j: int| first_delimiter(rest@, j) {
            let j = choose|j: int| first_delimiter(rest@, j);
            assert(!delimiter_at(rest@, j));
        }
    }
    None
}


/// The URIs being loaded, outermost first: loading one of them again is a
/// cycle. No URI is held twice.
#[derive(Clone)]
pub struct LoadingChain {
    uris: Vec<String>,
}

impl LoadingChain {
    /// The URIs in the chain, in the order they were added.
    pub closed spec fn uris(&self) -> Seq<Seq<char>> {
        texts(self.uris@)
    }

    /// An empty chain.
    pub fn new() -> (c: LoadingChain)
        ensures
            c.uris() == Seq::<Seq<char>>::empty(),
            c.uris().no_duplicates(),
    {
        let c = LoadingChain { uris: Vec::new() };
        assert(c.uris() =~= Seq::<Seq<char>>::empty());
        c
    }

    /// The URIs in the chain, in order.
    pub fn to_vec(&self) -> (r: Vec<String>)
        ensures
            texts(r@) == self.uris(),
    {
        let mut v: Vec<String> = Vec::new();
        let mut i: usize = 0;
        while i < self.uris.len()
            invariant
                i <= self.uris@.len(),
                v@.len() == i,
                forall|k: int| 0 <= k < i ==> (#[trigger] v@[k])@ == self.uris@[k]@,
            decreases self.uris@.len() - i,
        {
            v.push(copy_string(&self.uris[i]));
            i += 1;
        }
        assert(texts(v@) =~= self.uris());
        v
    }

    /// Whether `uri` is being loaded.
    pub fn contains(&self, uri: &str) -> (r: bool)
        ensures
            r == self.uris().contains(uri@),
    {
        let mut i: usize = 0;
        while i < self.uris.len()
            invariant
                i <= self.uris@.len(),
                forall|k: int| 0 <= k < i ==> self.uris()[k] != uri@,
            decreases self.uris@.len() - i,
        {
            if str_eq(self.uris[i].as_str(), uri) {
                assert(self.uris()[i as int] == uri@);
                return true;
            }
            i += 1;
        }
        false
    }

    /// The chain with `uri` added (unless it is there already).
    pub fn with(&self, uri: &str) -> (c: LoadingChain)
        ensures
            c.uris() == add_once(self.uris(), uri@),
            self.uris().no_duplicates() ==> c.uris().no_duplicates(),
    {
        let mut v = self.to_vec();
        if !self.contains(uri) {
            v.push(str_to_string(uri));
            assert(texts(v@) =~= self.uris().push(uri@));
        }
        LoadingChain { uris: v }
    }
}

/// How loading a URI starts: with the bundle already loaded (`UseCached`),
/// with a bare bundle that breaks a cycle (`BreakCycle`), or by loading it.
pub enum LoadStart {
    UseCached,
    BreakCycle(Bundle),
    Load,
}

/// How loading `uri` starts, given whether a loaded bundle is cached for it
/// and the chain of URIs being loaded: the cached bundle first; a URI that
/// is already being loaded gets a new, empty bundle named after it, which
/// breaks the cycle; any other is loaded.
pub fn load_start(uri: &str, cached: bool, chain: &LoadingChain) -> (r: LoadStart)
    ensures
        cached ==> r is UseCached,
        !cached && chain.uris().contains(uri@) ==> (r matches LoadStart::BreakCycle(b) && b@ == new_model(
            bundle_name_model(uri@),
        )),
        !cached && !chain.uris().contains(uri@) ==> r is Load,
{
    if cached {
        LoadStart::UseCached
    } else if chain.contains(uri) {
        let name = extract_bundle_name(uri);
        LoadStart::BreakCycle(Bundle::new(name.as_str()))
    } else {
        LoadStart::Load
    }
}

} // verus!
