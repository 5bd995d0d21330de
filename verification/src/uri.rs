//! URI parsing: `git+`, `zip+`, `file://`, `http(s)://`, local paths and
//! package names.
use vstd::prelude::*;
use crate::text::{
    chars_find, chars_has, chars_position, chars_split, chars_split_once, chars_starts_with,
    chars_strip_prefix, chars_to_string, first_char_pos, find_seq, has_char, is_prefix,
    lemma_first_char_pos, occurs_at, split_char, split_once_char, str_chars, strip_prefix, sub_chars,
};

verus! {

/// The parts of a parsed URI, as text.
pub struct UriModel {
    pub scheme: Seq<char>,
    pub host: Seq<char>,
    pub path: Seq<char>,
    pub ref_: Seq<char>,
    pub subpath: Seq<char>,
}

/// Parsed URI components.
#[derive(Debug, Clone, PartialEq)]
pub struct ParsedURI {
    pub scheme: String,
    pub host: String,
    pub path: String,
    pub ref_: String,
    pub subpath: String,
}

impl View for ParsedURI {
    type V = UriModel;

    open spec fn view(&self) -> UriModel {
        UriModel {
            scheme: self.scheme@,
            host: self.host@,
            path: self.path@,
            ref_: self.ref_@,
            subpath: self.subpath@,
        }
    }
}

/// The value after `subdirectory=` in the first piece that starts with it.
pub open spec fn subdir_in_pieces(pieces: Seq<Seq<char>>) -> Seq<char>
    decreases pieces.len(),
{
    if pieces.len() == 0 {
        Seq::empty()
    } else {
        match strip_prefix(pieces[0], "subdirectory="@) {
            Some(v) => v,
            None => subdir_in_pieces(pieces.drop_first()),
        }
    }
}

/// The `subdirectory=` value of a URL fragment (`&`-separated); empty when absent.
pub open spec fn subdirectory_from_fragment(fragment: Seq<char>) -> Seq<char> {
    if fragment.len() == 0 {
        Seq::empty()
    } else {
        subdir_in_pieces(split_char(fragment, '&'))
    }
}

/// A URI split at its first `#` into the part before it and the fragment's
/// subdirectory; the whole URI and no subdirectory when there is no `#`.
pub open spec fn fragment_subpath(uri: Seq<char>) -> (Seq<char>, Seq<char>) {
    match split_once_char(uri, '#') {
        Some((path, fragment)) => (path, subdirectory_from_fragment(fragment)),
        None => (uri, Seq::empty()),
    }
}

/// Scheme, host and path of a URL: the scheme is what precedes the first `://`,
/// the host runs to the next `/`, and the path (from that `/`) stops before any `?`.
/// Without `://`, the whole text is the path.
pub open spec fn url_components(url: Seq<char>) -> (Seq<char>, Seq<char>, Seq<char>) {
    match find_seq(url, "://"@) {
        Some(idx) => {
            let scheme = url.take(idx);
            let rest = url.skip(idx + 3);
            if has_char(rest, '/') {
                let s = choose|i: int| first_char_pos(rest, '/', i);
                let with_query = rest.skip(s);
                let path = if has_char(with_query, '?') {
                    with_query.take(choose|i: int| first_char_pos(with_query, '?', i))
                } else {
                    with_query
                };
                (scheme, rest.take(s), path)
            } else {
                (scheme, rest, Seq::empty())
            }
        },
        None => (Seq::empty(), Seq::empty(), url),
    }
}

/// A path split at its first `@` into path and ref, when the part before is not
/// empty and the part after is not empty and holds no `/`; otherwise no ref.
pub open spec fn ref_from_path(path: Seq<char>) -> (Seq<char>, Seq<char>) {
    match split_once_char(path, '@') {
        Some((p, r)) => if p.len() > 0 && r.len() > 0 && !has_char(r, '/') {
            (p, r)
        } else {
            (path, Seq::empty())
        },
        None => (path, Seq::empty()),
    }
}

/// A `git+` or `zip+` URI: the prefix is kept on the scheme, a `@ref` is taken
/// from the path, and the fragment gives the subpath.
pub open spec fn vcs_model(uri: Seq<char>, prefix: Seq<char>) -> UriModel {
    let without = uri.skip(prefix.len() as int);
    let (no_fragment, subpath) = fragment_subpath(without);
    let (scheme, host, path) = url_components(no_fragment);
    let (final_path, ref_) = ref_from_path(path);
    UriModel { scheme: prefix + scheme, host, path: final_path, ref_, subpath }
}

/// An `http(s)://` URI: scheme, host, path and the fragment's subpath.
pub open spec fn http_model(uri: Seq<char>) -> UriModel {
    let (no_fragment, subpath) = fragment_subpath(uri);
    let (scheme, host, path) = url_components(no_fragment);
    UriModel { scheme, host, path, ref_: Seq::empty(), subpath }
}

/// A local file path.
pub open spec fn file_model(path: Seq<char>, subpath: Seq<char>) -> UriModel {
    UriModel {
        scheme: "file"@,
        host: Seq::empty(),
        path,
        ref_: Seq::empty(),
        subpath,
    }
}

/// What `parse_uri` gives for a URI, rule by rule in order.
pub open spec fn parse_uri_model(uri: Seq<char>) -> UriModel {
    if is_prefix("git+"@, uri) {
        vcs_model(uri, "git+"@)
    } else if is_prefix("zip+"@, uri) {
        vcs_model(uri, "zip+"@)
    } else if is_prefix("file://"@, uri) {
        let (path, subpath) = fragment_subpath(uri.skip(7));
        file_model(path, subpath)
    } else if is_prefix("/"@, uri) || is_prefix("./"@, uri) || is_prefix("../"@, uri) {
        file_model(uri, Seq::empty())
    } else if is_prefix("http://"@, uri) || is_prefix("https://"@, uri) {
        http_model(uri)
    } else if has_char(uri, '/') {
        let (name, rest) = split_once_char(uri, '/').unwrap();
        UriModel {
            scheme: Seq::empty(),
            host: Seq::empty(),
            path: name,
            ref_: Seq::empty(),
            subpath: rest,
        }
    } else {
        UriModel {
            scheme: Seq::empty(),
            host: Seq::empty(),
            path: uri,
            ref_: Seq::empty(),
            subpath: Seq::empty(),
        }
    }
}

/// The URI kinds, as predicates on the parsed parts.
pub open spec fn is_git_model(u: UriModel) -> bool {
    u.scheme == "git"@ || is_prefix("git+"@, u.scheme)
}

pub open spec fn is_file_model(u: UriModel) -> bool {
    u.scheme == "file"@ || (u.scheme.len() == 0 && has_char(u.path, '/'))
}

pub open spec fn is_http_model(u: UriModel) -> bool {
    u.scheme == "http"@ || u.scheme == "https"@
}

pub open spec fn is_zip_model(u: UriModel) -> bool {
    is_prefix("zip+"@, u.scheme)
}

pub open spec fn is_package_model(u: UriModel) -> bool {
    u.scheme.len() == 0 && !has_char(u.path, '/')
}

impl ParsedURI {
    /// True if this is a git URI.
    pub fn is_git(&self) -> (r: bool)
        ensures
            r == is_git_model(self@),
    {
        crate::text::str_eq(self.scheme.as_str(), "git") || crate::text::str_starts_with(
            self.scheme.as_str(),
            "git+",
        )
    }

    /// True if this is a file URI or local path.
    pub fn is_file(&self) -> (r: bool)
        ensures
            r == is_file_model(self@),
    {
        crate::text::str_eq(self.scheme.as_str(), "file") || (self.scheme.as_str().unicode_len()
            == 0 && crate::text::str_has_char(self.path.as_str(), '/'))
    }

    /// True if this is an HTTP/HTTPS URI.
    pub fn is_http(&self) -> (r: bool)
        ensures
            r == is_http_model(self@),
    {
        crate::text::str_eq(self.scheme.as_str(), "http") || crate::text::str_eq(
            self.scheme.as_str(),
            "https",
        )
    }

    /// True if this is a zip URI (`zip+https://`, `zip+file://`).
    pub fn is_zip(&self) -> (r: bool)
        ensures
            r == is_zip_model(self@),
    {
        crate::text::str_starts_with(self.scheme.as_str(), "zip+")
    }

    /// True if this looks like a package/bundle name.
    pub fn is_package(&self) -> (r: bool)
        ensures
            r == is_package_model(self@),
    {
        self.scheme.as_str().unicode_len() == 0 && !crate::text::str_has_char(
            self.path.as_str(),
            '/',
        )
    }
}

fn extract_subdirectory_from_fragment(fragment: &Vec<char>) -> (r: Vec<char>)
    ensures
        r@ == subdirectory_from_fragment(fragment@),
{
    if fragment.len() == 0 {
        return Vec::new();
    }
    let pieces = chars_split(fragment, '&');
    let ghost all = split_char(fragment@, '&');
    let mut i: usize = 0;
    assert(all.skip(0) =~= all);
    while i < pieces.len()
        invariant
            all == split_char(fragment@, '&'),
            pieces@.len() == all.len(),
            forall|k: int| 0 <= k < pieces@.len() ==> (#[trigger] pieces@[k])@ == all[k],
            i <= pieces@.len(),
            subdir_in_pieces(all) == subdir_in_pieces(all.skip(i as int)),
        decreases pieces@.len() - i,
    {
        let ghost rest = all.skip(i as int);
        assert(rest[0] == pieces@[i as int]@);
        assert(rest.drop_first() =~= all.skip(i + 1));
        match chars_strip_prefix(&pieces[i], "subdirectory=") {
            Some(v) => {
                return v;
            },
            None => {},
        }
        i += 1;
    }
    Vec::new()
}

fn extract_fragment_subpath(uri: &Vec<char>) -> (r: (Vec<char>, Vec<char>))
    ensures
        (r.0@, r.1@) == fragment_subpath(uri@),
{
    match chars_split_once(uri, '#') {
        Some((path, fragment)) => {
            let sub = extract_subdirectory_from_fragment(&fragment);
            (path, sub)
        },
        None => (sub_chars(uri, 0, uri.len()), Vec::new()),
    }
}

fn parse_url_components(url: &Vec<char>) -> (r: (Vec<char>, Vec<char>, Vec<char>))
    ensures
        (r.0@, r.1@, r.2@) == url_components(url@),
{
    let sep = str_chars("://");
    match chars_find(url, &sep) {
        Some(idx) => {
            proof {
                reveal_strlit("://");
            }
            assert(sep@.len() == 3);
            assert(idx + 3 <= url@.len());
            assert(url@.len() == url.len());
            let scheme = sub_chars(url, 0, idx);
            let rest = sub_chars(url, idx + 3, url.len());
            assert(scheme@ =~= url@.take(idx as int));
            assert(rest@ =~= url@.skip(idx + 3));
            match chars_position(&rest, '/') {
                Some(s) => {
                    proof {
                        lemma_first_char_pos(rest@, '/');
                    }
                    let host = sub_chars(&rest, 0, s);
                    let with_query = sub_chars(&rest, s, rest.len());
                    assert(host@ =~= rest@.take(s as int));
                    assert(with_query@ =~= rest@.skip(s as int));
                    let path = match chars_position(&with_query, '?') {
                        Some(q) => {
                            proof {
                                lemma_first_char_pos(with_query@, '?');
                            }
                            let p = sub_chars(&with_query, 0, q);
                            assert(p@ =~= with_query@.take(q as int));
                            p
                        },
                        None => with_query,
                    };
                    (scheme, host, path)
                },
                None => (scheme, rest, Vec::new()),
            }
        },
        None => (Vec::new(), Vec::new(), sub_chars(url, 0, url.len())),
    }
}

fn extract_ref_from_path(path: Vec<char>) -> (r: (Vec<char>, Vec<char>))
    ensures
        (r.0@, r.1@) == ref_from_path(path@),
{
    match chars_split_once(&path, '@') {
        Some((p, r)) => {
            if p.len() > 0 && r.len() > 0 && !chars_has(&r, '/') {
                (p, r)
            } else {
                (path, Vec::new())
            }
        },
        None => (path, Vec::new()),
    }
}

fn parse_vcs_uri(uri: &Vec<char>, prefix: &str) -> (r: ParsedURI)
    requires
        is_prefix(prefix@, uri@),
    ensures
        r@ == vcs_model(uri@, prefix@),
{
    let without = chars_strip_prefix(uri, prefix).unwrap();
    let (no_fragment, subpath) = extract_fragment_subpath(&without);
    let (scheme, host, path) = parse_url_components(&no_fragment);
    let (final_path, ref_) = extract_ref_from_path(path);
    let mut full_scheme = str_chars(prefix);
    let ghost p0 = full_scheme@;
    let mut i: usize = 0;
    while i < scheme.len()
        invariant
            i <= scheme@.len(),
            full_scheme@ == p0 + scheme@.take(i as int),
        decreases scheme@.len() - i,
    {
        full_scheme.push(scheme[i]);
        i += 1;
        assert(full_scheme@ =~= p0 + scheme@.take(i as int));
    }
    assert(scheme@.take(scheme@.len() as int) =~= scheme@);
    ParsedURI {
        scheme: chars_to_string(&full_scheme),
        host: chars_to_string(&host),
        path: chars_to_string(&final_path),
        ref_: chars_to_string(&ref_),
        subpath: chars_to_string(&subpath),
    }
}

fn file_uri(path: &Vec<char>, subpath: &Vec<char>) -> (r: ParsedURI)
    ensures
        r@ == file_model(path@, subpath@),
{
    let scheme = crate::text::str_to_string("file");
    ParsedURI {
        scheme,
        host: String::new(),
        path: chars_to_string(path),
        ref_: String::new(),
        subpath: chars_to_string(subpath),
    }
}

/// An `http(s)://` URI split into its parts (see `http_model`).
fn parse_http_uri(uri: &Vec<char>) -> (r: ParsedURI)
    ensures
        r@ == http_model(uri@),
{
    let (no_fragment, subpath) = extract_fragment_subpath(uri);
    let (scheme, host, path) = parse_url_components(&no_fragment);
    ParsedURI {
        scheme: chars_to_string(&scheme),
        host: chars_to_string(&host),
        path: chars_to_string(&path),
        ref_: String::new(),
        subpath: chars_to_string(&subpath),
    }
}

/// Parse a URI string into its parts (`parse_uri`). It always succeeds:
/// `git+...` and `zip+...` keep their prefix on the scheme and take a `@ref`
/// from the path; `file://...`, absolute paths and `./`, `../` paths are files;
/// `http(s)://...` URLs are split into scheme, host and path; anything else
/// is a package name, with what follows its first `/` as the subpath. A
/// `#subdirectory=` fragment gives the subpath.
pub fn parse_uri(uri: &str) -> (r: ParsedURI)
    ensures
        r@ == parse_uri_model(uri@),
{
    let v = str_chars(uri);
    if chars_starts_with(&v, "git+") {
        return parse_vcs_uri(&v, "git+");
    }
    if chars_starts_with(&v, "zip+") {
        return parse_vcs_uri(&v, "zip+");
    }
    match chars_strip_prefix(&v, "file://") {
        Some(rem) => {
            proof {
                reveal_strlit("file://");
            }
            let (path, subpath) = extract_fragment_subpath(&rem);
            return file_uri(&path, &subpath);
        },
        None => {},
    }
    if chars_starts_with(&v, "/") || chars_starts_with(&v, "./") || chars_starts_with(&v, "../") {
        return file_uri(&v, &Vec::new());
    }
    if chars_starts_with(&v, "http://") || chars_starts_with(&v, "https://") {
        return parse_http_uri(&v);
    }
    match chars_split_once(&v, '/') {
        Some((name, rest)) => {
            ParsedURI {
                scheme: String::new(),
                host: String::new(),
                path: chars_to_string(&name),
                ref_: String::new(),
                subpath: chars_to_string(&rest),
            }
        },
        None => {
            ParsedURI {
                scheme: String::new(),
                host: String::new(),
                path: chars_to_string(&v),
                ref_: String::new(),
                subpath: String::new(),
            }
        },
    }
}

/// Result of resolving a source URI to local paths.
#[derive(Debug, Clone)]
pub struct ResolvedSource {
    pub active_path: String,
    pub source_root: String,
}

impl ResolvedSource {
    /// Whether the active path lies below the source root rather than being it.
    pub fn is_subdirectory(&self) -> (r: bool)
        ensures
            r == (crate::paths::path_components(self.active_path@)
                != crate::paths::path_components(self.source_root@)),
    {
        !crate::paths::same_path(self.active_path.as_str(), self.source_root.as_str())
    }
}

/// `s` begins with `n` characters none of which is `:`, then `://`.
proof fn lemma_scheme_before_separator(s: Seq<char>, n: int)
    requires
        0 <= n,
        s.len() >= n + 3,
        forall|j: int| 0 <= j < n ==> s[j] != ':',
        s[n] == ':' && s[n + 1] == '/' && s[n + 2] == '/',
    ensures
        find_seq(s, "://"@) == Some(n),
{
    reveal_strlit("://");
    assert(s.subrange(n, n + 3) =~= "://"@);
    assert(occurs_at(s, "://"@, n));
    assert forall|j: int| 0 <= j < n implies !occurs_at(s, "://"@, j) by {
        if occurs_at(s, "://"@, j) {
            assert(s.subrange(j, j + 3)[0] == s[j]);
        }
    }
    let i = choose|i: int| #[trigger] occurs_at(s, "://"@, i) && forall|j: int| 0 <= j < i ==> !occurs_at(s, "://"@, j);
    if i > n {
        assert(!occurs_at(s, "://"@, n));
    }
    if i < n {
        assert(s.subrange(i, i + 3)[0] == s[i]);
    }
}

/// The scheme an `http://` or `https://` URI is parsed with: `http` or
/// `https` (its first `n` characters).
proof fn lemma_http_scheme(uri: Seq<char>, n: int)
    requires
        n == 4 || n == 5,
        uri.len() >= n + 3,
        forall|j: int| 0 <= j < n ==> uri[j] != ':' && uri[j] != '#',
        uri[n] == ':' && uri[n + 1] == '/' && uri[n + 2] == '/',
    ensures
        http_model(uri).scheme == uri.take(n),
{
    let nf = fragment_subpath(uri).0;
    if has_char(uri, '#') {
        lemma_first_char_pos(uri, '#');
        let k = choose|i: int| first_char_pos(uri, '#', i);
        assert(uri[k] == '#');
        assert(k >= n + 3) by {
            if k < n + 3 {
                assert(uri[k] != '#');
            }
        }
        assert(nf == uri.take(k));
    } else {
        assert(nf == uri);
    }
    assert(nf.len() >= n + 3);
    assert forall|j: int| 0 <= j < n + 3 implies nf[j] == uri[j] by {}
    lemma_scheme_before_separator(nf, n);
    assert(url_components(nf).0 == nf.take(n));
    assert(nf.take(n) =~= uri.take(n));
}

proof fn lemma_prefix_first(p: Seq<char>, s: Seq<char>)
    requires
        p.len() > 0,
        is_prefix(p, s),
    ensures
        s[0] == p[0],
{
    assert(s.take(p.len() as int)[0] == s[0]);
}

/// A scheme that starts with neither `g` nor `z` starts with neither `git+`
/// nor `zip+`.
proof fn lemma_not_vcs_scheme(sch: Seq<char>)
    requires
        sch.len() == 0 || (sch[0] != 'g' && sch[0] != 'z'),
    ensures
        !is_prefix("git+"@, sch),
        !is_prefix("zip+"@, sch),
{
    reveal_strlit("git+");
    reveal_strlit("zip+");
    if is_prefix("git+"@, sch) {
        lemma_prefix_first("git+"@, sch);
    }
    if is_prefix("zip+"@, sch) {
        lemma_prefix_first("zip+"@, sch);
    }
}

/// Parsing decides the kind of a URI by its beginning: a URI is a git URI
/// exactly when it starts with `git+`, a zip URI exactly when it starts with
/// `zip+`, an HTTP URI exactly when it starts with `http://` or `https://`,
/// a file URI exactly when it starts with `file://`, `/`, `./` or `../`, and
/// a package name (no scheme) exactly when it starts with none of these.
pub proof fn law_uri_kind_by_prefix(uri: Seq<char>)
    ensures
        is_git_model(parse_uri_model(uri)) == is_prefix("git+"@, uri),
        is_zip_model(parse_uri_model(uri)) == is_prefix("zip+"@, uri),
        is_http_model(parse_uri_model(uri)) == (is_prefix("http://"@, uri) || is_prefix("https://"@, uri)),
        is_file_model(parse_uri_model(uri)) == (is_prefix("file://"@, uri) || is_prefix("/"@, uri) || is_prefix(
            "./"@,
            uri,
        ) || is_prefix("../"@, uri)),
        is_package_model(parse_uri_model(uri)) == (parse_uri_model(uri).scheme.len() == 0),
        (parse_uri_model(uri).scheme.len() == 0) == !(is_prefix("git+"@, uri) || is_prefix("zip+"@, uri)
            || is_prefix("file://"@, uri) || is_prefix("/"@, uri) || is_prefix("./"@, uri) || is_prefix(
            "../"@,
            uri,
        ) || is_prefix("http://"@, uri) || is_prefix("https://"@, uri)),
{
    reveal_strlit("git+");
    reveal_strlit("zip+");
    reveal_strlit("file://");
    reveal_strlit("/");
    reveal_strlit("./");
    reveal_strlit("../");
    reveal_strlit("http://");
    reveal_strlit("https://");
    reveal_strlit("git");
    reveal_strlit("file");
    reveal_strlit("http");
    reveal_strlit("https");
    let p = parse_uri_model(uri);
    // The first characters of each prefix, as `uri` shows them.
    assert(is_prefix("git+"@, uri) ==> uri[0] == 'g' && uri[3] == '+') by {
        if is_prefix("git+"@, uri) {
            assert(uri.take(4)[0] == uri[0] && uri.take(4)[3] == uri[3]);
        }
    }
    assert(is_prefix("zip+"@, uri) ==> uri[0] == 'z') by {
        if is_prefix("zip+"@, uri) {
            assert(uri.take(4)[0] == uri[0]);
        }
    }
    assert(is_prefix("file://"@, uri) ==> uri[0] == 'f') by {
        if is_prefix("file://"@, uri) {
            assert(uri.take(7)[0] == uri[0]);
        }
    }
    assert(is_prefix("/"@, uri) ==> uri[0] == '/') by {
        if is_prefix("/"@, uri) {
            assert(uri.take(1)[0] == uri[0]);
        }
    }
    assert(is_prefix("./"@, uri) ==> uri[0] == '.') by {
        if is_prefix("./"@, uri) {
            assert(uri.take(2)[0] == uri[0]);
        }
    }
    assert(is_prefix("../"@, uri) ==> uri[0] == '.') by {
        if is_prefix("../"@, uri) {
            assert(uri.take(3)[0] == uri[0]);
        }
    }
    assert(is_prefix("http://"@, uri) ==> uri[0] == 'h') by {
        if is_prefix("http://"@, uri) {
            assert(uri.take(7)[0] == uri[0]);
        }
    }
    assert(is_prefix("https://"@, uri) ==> uri[0] == 'h') by {
        if is_prefix("https://"@, uri) {
            assert(uri.take(8)[0] == uri[0]);
        }
    }
    if is_prefix("git+"@, uri) {
        let sch = p.scheme;
        assert(sch == "git+"@ + vcs_model(uri, "git+"@).scheme.skip(4));
        assert(sch.take(4) =~= "git+"@);
        assert(sch[0] == 'g');
        assert(!is_prefix("zip+"@, sch)) by {
            if is_prefix("zip+"@, sch) {
                assert(sch.take(4)[0] == sch[0]);
            }
        }
        assert(!is_prefix("zip+"@, uri));
    } else if is_prefix("zip+"@, uri) {
        let sch = p.scheme;
        assert(sch.take(4) =~= "zip+"@);
        assert(sch[0] == 'z');
        assert(sch != "git"@);
        assert(!is_prefix("git+"@, sch)) by {
            if is_prefix("git+"@, sch) {
                assert(sch.take(4)[0] == sch[0]);
            }
        }
    } else if is_prefix("file://"@, uri) {
        assert(p.scheme == "file"@);
        lemma_not_vcs_scheme(p.scheme);
    } else if is_prefix("/"@, uri) || is_prefix("./"@, uri) || is_prefix("../"@, uri) {
        assert(p.scheme == "file"@);
        lemma_not_vcs_scheme(p.scheme);
    } else if is_prefix("http://"@, uri) {
        assert forall|j: int| 0 <= j < 7 implies uri[j] == "http://"@[j] by {
            assert(uri.take(7)[j] == uri[j]);
        }
        lemma_http_scheme(uri, 4);
        assert(p.scheme =~= "http"@);
        assert(p.scheme[0] == 'h');
        lemma_not_vcs_scheme(p.scheme);
    } else if is_prefix("https://"@, uri) {
        assert forall|j: int| 0 <= j < 8 implies uri[j] == "https://"@[j] by {
            assert(uri.take(8)[j] == uri[j]);
        }
        lemma_http_scheme(uri, 5);
        assert(p.scheme =~= "https"@);
        assert(p.scheme[0] == 'h');
        lemma_not_vcs_scheme(p.scheme);
    } else if has_char(uri, '/') {
        lemma_first_char_pos(uri, '/');
        let k = choose|i: int| first_char_pos(uri, '/', i);
        assert(p.path == uri.take(k));
        assert(!has_char(p.path, '/')) by {
            if has_char(p.path, '/') {
                let j = choose|j: int| 0 <= j < p.path.len() && p.path[j] == '/';
                assert(uri[j] == '/');
            }
        }
        lemma_not_vcs_scheme(p.scheme);
    } else {
        lemma_not_vcs_scheme(p.scheme);
    }
}

/// No URI is both a package name and a file.
pub proof fn law_package_is_not_file(u: UriModel)
    ensures
        !(is_package_model(u) && is_file_model(u)),
{
    reveal_strlit("file");
}

} // verus!
