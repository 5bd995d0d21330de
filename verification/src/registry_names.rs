//! Names and sources the registry works with: a bundle's name from its URI,
//! include entries, and local paths from `file://` URIs.
use vstd::prelude::*;
use vstd::string::StrSliceExecFns;
use crate::value::{Yaml, YamlValue, map_get_str, mapping_get_str, lemma_dict_view, entries_view};
use crate::text::{
    chars_split, chars_split_once, chars_to_string, chars_find, contains_seq, copy_string, concat,
    is_prefix, split_char, split_once_char, str_chars, str_contains, str_starts_with, strip_prefix,
    chars_strip_prefix, str_to_string,
};
use crate::error::BundleError;
use crate::debug::{debug_text, debug_string};

verus! {

broadcast use vstd::std_specs::vec::group_vec_axioms;

/// The text before the first `c` (all of it when there is none).
pub open spec fn before_char(s: Seq<char>, c: char) -> Seq<char> {
    match split_once_char(s, c) {
        Some((a, _)) => a,
        None => s,
    }
}

/// The text after the last `/`.
pub open spec fn last_piece(s: Seq<char>) -> Seq<char> {
    let ps = split_char(s, '/');
    ps[ps.len() - 1]
}

/// The repository name that the pieces give after a `github.com` piece at `i`.
pub open spec fn github_name_at(parts: Seq<Seq<char>>, i: int) -> Seq<char> {
    before_char(before_char(parts[i + 2], '@'), '#')
}

/// Piece `i` names GitHub and two pieces later a non-empty repository name.
pub open spec fn github_hit(parts: Seq<Seq<char>>, i: int) -> bool {
    &&& 0 <= i
    &&& i + 2 < parts.len()
    &&& contains_seq(parts[i], "github.com"@)
    &&& github_name_at(parts, i).len() > 0
}

/// The first GitHub hit.
pub open spec fn first_github_hit(parts: Seq<Seq<char>>, i: int) -> bool {
    github_hit(parts, i) && forall|j: int| 0 <= j < i ==> !#[trigger] github_hit(parts, j)
}

/// A bundle's name from its URI: the repository name of a GitHub URI; for a
/// `file://` URI the last path piece without its fragment; otherwise the last
/// path piece without `@ref` and fragment.
pub open spec fn bundle_name_model(uri: Seq<char>) -> Seq<char> {
    let parts = split_char(uri, '/');
    if contains_seq(uri, "github.com"@) && exists|i: int| first_github_hit(parts, i) {
        github_name_at(parts, choose|i: int| first_github_hit(parts, i))
    } else if is_prefix("file://"@, uri) {
        before_char(last_piece(uri), '#')
    } else {
        before_char(before_char(last_piece(uri), '@'), '#')
    }
}

fn before_char_exec(v: &Vec<char>, c: char) -> (r: Vec<char>)
    ensures
        r@ == before_char(v@, c),
{
    match chars_split_once(v, c) {
        Some((a, _)) => a,
        None => crate::text::sub_chars(v, 0, v.len()),
    }
}

proof fn lemma_sub_all(v: Seq<char>)
    ensures
        v.subrange(0, v.len() as int) == v,
{
    assert(v.subrange(0, v.len() as int) =~= v);
}

/// A bundle's name from its URI (see `bundle_name_model`).
pub fn extract_bundle_name(uri: &str) -> (r: String)
    ensures
        r@ == bundle_name_model(uri@),
{
    proof {
        reveal_strlit("github.com");
        reveal_strlit("file://");
        lemma_sub_all(uri@);
    }
    let v = str_chars(uri);
    let parts = chars_split(&v, '/');
    let ghost ps = split_char(uri@, '/');
    proof {
        crate::text::lemma_split_nonempty(uri@, '/');
    }
    if str_contains(uri, "github.com") {
        let gh = str_chars("github.com");
        let mut i: usize = 0;
        while i < parts.len()
            invariant
                i <= parts@.len(),
                parts@.len() == ps.len(),
                forall|k: int| 0 <= k < parts@.len() ==> (#[trigger] parts@[k])@ == ps[k],
                gh@ == "github.com"@,
                ps == split_char(uri@, '/'),
                contains_seq(uri@, "github.com"@),
                forall|j: int| 0 <= j < i ==> !#[trigger] github_hit(ps, j),
            decreases parts@.len() - i,
        {
            if chars_find(&parts[i], &gh).is_some() && parts.len() >= 2 && i < parts.len() - 2 {
                let a = before_char_exec(&parts[i + 2], '@');
                let name = before_char_exec(&a, '#');
                if name.len() > 0 {
                    proof {
                        assert(github_hit(ps, i as int));
                        assert(first_github_hit(ps, i as int));
                        let w = choose|w: int| first_github_hit(ps, w);
                        assert(w == i as int) by {
                            if w < i as int {
                                assert(!github_hit(ps, w));
                            } else if w > i as int {
                                assert(!github_hit(ps, i as int));
                            }
                        }
                    }
                    return chars_to_string(&name);
                }
            }
            proof {
                if github_hit(ps, i as int) {
                    assert(contains_seq(parts@[i as int]@, gh@));
                }
            }
            i += 1;
        }
        assert(!exists|w: int| first_github_hit(ps, w));
    }
    let last = &parts[parts.len() - 1];
    if str_starts_with(uri, "file://") {
        let r = before_char_exec(last, '#');
        chars_to_string(&r)
    } else {
        let a = before_char_exec(last, '@');
        let r = before_char_exec(&a, '#');
        chars_to_string(&r)
    }
}

/// A local path from a URI: what follows `file://`, or the URI itself when it
/// starts with `/` or `.`; anything else is refused.
pub open spec fn file_uri_model(uri: Seq<char>) -> Result<Seq<char>, Seq<char>> {
    match strip_prefix(uri, "file://"@) {
        Some(rest) => Ok(rest),
        None => if uri.len() > 0 && (uri[0] == '/' || uri[0] == '.') {
            Ok(uri)
        } else {
            Err("Unsupported URI scheme: "@ + uri)
        },
    }
}

/// The local path a `file://` URI (or a local path) names.
pub fn resolve_file_uri(uri: &str) -> (r: Result<String, BundleError>)
    ensures
        match (r, file_uri_model(uri@)) {
            (Ok(p), Ok(m)) => p@ == m,
            (Err(BundleError::LoadError { reason }), Err(m)) => reason@ == m,
            _ => false,
        },
{
    let v = str_chars(uri);
    match chars_strip_prefix(&v, "file://") {
        Some(rest) => Ok(chars_to_string(&rest)),
        None => {
            if v.len() > 0 && (v[0] == '/' || v[0] == '.') {
                Ok(str_to_string(uri))
            } else {
                Err(BundleError::LoadError { reason: concat("Unsupported URI scheme: ", uri) })
            }
        },
    }
}

/// What an include entry names: a string is itself; a mapping names what is
/// under its `bundle` key (a non-empty string, a number's text, `true`, or
/// the debugging text of any other value; nothing for null, `false` or an
/// empty string); anything else names nothing.
pub open spec fn include_model(v: Yaml) -> Option<Seq<char>> {
    match v {
        Yaml::Str(s) => Some(s),
        Yaml::Dict(m) => match map_get_str(m, "bundle"@) {
            Some(b) => match b {
                Yaml::Str(s) => if s.len() > 0 {
                    Some(s)
                } else {
                    None
                },
                Yaml::Number(_, t) => Some(t),
                Yaml::Bool(x) => if x {
                    Some("true"@)
                } else {
                    None
                },
                Yaml::Null => None,
                other => Some(debug_text(other)),
            },
            None => None,
        },
        _ => None,
    }
}

/// What an include entry names (see `include_model`).
pub fn parse_include(entry: &YamlValue) -> (r: Option<String>)
    ensures
        match r {
            Some(s) => include_model(entry@) == Some(s@),
            None => include_model(entry@) is None,
        },
{
    match entry {
        YamlValue::String(s) => Some(copy_string(s)),
        YamlValue::Mapping(m) => {
            proof {
                lemma_dict_view(*m);
            }
            let b = match mapping_get_str(m, "bundle") {
                Some(b) => b,
                None => {
                    return None;
                },
            };
            match b {
                YamlValue::String(s) => {
                    if s.as_str().unicode_len() > 0 {
                        Some(copy_string(s))
                    } else {
                        None
                    }
                },
                YamlValue::Number(_, t) => Some(copy_string(t)),
                YamlValue::Bool(x) => {
                    if *x {
                        proof {
                            reveal_strlit("true");
                        }
                        Some(str_to_string("true"))
                    } else {
                        None
                    }
                },
                YamlValue::Null => None,
                other => Some(debug_string(other)),
            }
        },
        _ => None,
    }
}

} // verus!
