//! Bundle sources: the status of a source, joining paths safely, and the
//! local and cache layouts of file, git, HTTP and zip sources.
use vstd::prelude::*;
use vstd::string::StrSliceExecFns;
use crate::text::{concat, copy_string, is_prefix, str_chars, str_to_string, chars_to_string, slice_to_string, push_str, str_starts_with, has_char};
use crate::paths::{join_text, join_path, normalize_text, normalize_components, path_components, path_starts_with, remove_all, remove_pattern};
use crate::uri::{ParsedURI, ResolvedSource, UriModel};
use crate::disk::{path_exists, canonical_path, is_absolute_text, file_name_of, path_file_name, file_stem_of, path_file_stem};
use crate::digest::{sha256_hex, sha256_hex_of};
use crate::error::BundleError;
use crate::bundle::{copy_opt, opt_text};
use crate::json::{Json, JsonValue, json_get, json_get_exec};
use crate::text::decimal;

verus! {

/// The largest response body an HTTP download may have (100 MB).
pub const MAX_DOWNLOAD_BYTES: u64 = 104857600;

/// How long an HTTP download may take, in seconds.
pub const HTTP_DOWNLOAD_TIMEOUT_SECS: u64 = 120;

/// The update status of a bundle source. `has_update` is unknown (`None`)
/// when the status could not be determined.
#[derive(Debug, Clone, PartialEq)]
pub struct SourceStatus {
    pub uri: String,
    pub current_version: Option<String>,
    pub latest_version: Option<String>,
    pub has_update: Option<bool>,
    pub is_cached: bool,
    pub cached_at: Option<String>,
    pub cached_ref: Option<String>,
    pub cached_commit: Option<String>,
    pub remote_ref: Option<String>,
    pub remote_commit: Option<String>,
    pub error: Option<String>,
    pub summary: String,
}

/// A 40-digit hexadecimal commit id (either case).
pub open spec fn is_commit_id(r: Seq<char>) -> bool {
    r.len() == 40 && forall|i: int| 0 <= i < r.len() ==> is_hex_digit(#[trigger] r[i])
}

/// An ASCII hexadecimal digit.
pub open spec fn is_hex_digit(c: char) -> bool {
    ('0' <= c && c <= '9') || ('a' <= c && c <= 'f') || ('A' <= c && c <= 'F')
}

/// A version tag: starts with `v` and holds an ASCII digit.
pub open spec fn is_version_tag(r: Seq<char>) -> bool {
    r.len() > 0 && r[0] == 'v' && exists|i: int| 0 <= i < r.len() && '0' <= #[trigger] r[i] && r[i] <= '9'
}

/// A ref is pinned when it is a commit id or a version tag.
pub open spec fn pinned_ref(r: Option<Seq<char>>) -> bool {
    match r {
        Some(s) => s.len() > 0 && (is_commit_id(s) || is_version_tag(s)),
        None => false,
    }
}

impl SourceStatus {
    /// A status for `uri` with nothing known yet.
    pub fn new(uri: &str) -> (s: SourceStatus)
        ensures
            s.uri@ == uri@,
            s.current_version is None && s.latest_version is None && s.has_update is None,
            !s.is_cached,
            s.cached_at is None && s.cached_ref is None && s.cached_commit is None,
            s.remote_ref is None && s.remote_commit is None && s.error is None,
            s.summary@ == Seq::<char>::empty(),
    {
        SourceStatus {
            uri: str_to_string(uri),
            current_version: None,
            latest_version: None,
            has_update: None,
            is_cached: false,
            cached_at: None,
            cached_ref: None,
            cached_commit: None,
            remote_ref: None,
            remote_commit: None,
            error: None,
            summary: String::new(),
        }
    }

    /// Whether the cached ref is pinned: a 40-digit commit id or a version
    /// tag (`v` followed by text holding a digit).
    pub fn is_pinned(&self) -> (r: bool)
        ensures
            r == pinned_ref(opt_text(self.cached_ref)),
    {
        let r = match &self.cached_ref {
            Some(r) => r,
            None => {
                return false;
            },
        };
        let v = str_chars(r.as_str());
        if v.len() == 0 {
            return false;
        }
        if v.len() == 40 {
            let mut all_hex = true;
            let mut i: usize = 0;
            while i < v.len()
                invariant
                    i <= v@.len(),
                    all_hex == forall|k: int| 0 <= k < i ==> is_hex_digit(#[trigger] v@[k]),
                decreases v@.len() - i,
            {
                let c = v[i];
                if !(('0' <= c && c <= '9') || ('a' <= c && c <= 'f') || ('A' <= c && c <= 'F')) {
                    all_hex = false;
                }
                i += 1;
            }
            if all_hex {
                return true;
            }
        }
        if v[0] != 'v' {
            return false;
        }
        let mut i: usize = 0;
        while i < v.len()
            invariant
                i <= v@.len(),
                v@.len() > 0,
                v@[0] == 'v',
                opt_text(self.cached_ref) == Some(v@),
                !is_commit_id(v@),
                forall|k: int| 0 <= k < i ==> !('0' <= #[trigger] v@[k] && v@[k] <= '9'),
            decreases v@.len() - i,
        {
            if '0' <= v[i] && v[i] <= '9' {
                assert('0' <= v@[i as int] && v@[i as int] <= '9');
                assert(is_version_tag(v@));
                return true;
            }
            i += 1;
        }
        false
    }
}

/// `subpath` joined onto `base` stays within `base` when the two, resolved,
/// are compared component by component.
pub open spec fn stays_within(resolved: Seq<char>, base_resolved: Seq<char>) -> bool {
    path_components(base_resolved).len() <= path_components(resolved).len()
        && path_components(resolved).take(path_components(base_resolved).len() as int)
        == path_components(base_resolved)
}

/// The message when a subpath escapes its base.
pub open spec fn escape_message(subpath: Seq<char>, base: Seq<char>) -> Seq<char> {
    "Subpath '"@ + subpath + "' escapes base directory '"@ + base + "'"@
}

/// The check `safe_join` makes once both paths are resolved: the joined path
/// when the resolved one lies within the resolved base, an error otherwise.
pub fn check_within(base: &str, subpath: &str, joined: String, resolved: &str, base_resolved: &str) -> (r: Result<String, BundleError>)
    ensures
        stays_within(resolved@, base_resolved@) ==> (r matches Ok(p) && p@ == joined@),
        !stays_within(resolved@, base_resolved@) ==> (r matches Err(BundleError::LoadError { reason })
            && reason@ == escape_message(subpath@, base@)),
{
    if path_starts_with(resolved, base_resolved) {
        Ok(joined)
    } else {
        let mut msg = concat("Subpath '", subpath);
        push_str(&mut msg, "' escapes base directory '");
        push_str(&mut msg, base);
        push_str(&mut msg, "'");
        Err(BundleError::LoadError { reason: msg })
    }
}

/// A path resolved for comparison: canonical when it exists (as the disk
/// shows it), else normalised lexically (see `resolved_for_check`).
fn resolve_for_check(p: &str) -> (r: String)
    ensures
        r@ == normalize_text(p@) || is_absolute_text(r@),
{
    let present = path_exists(p);
    let canonical = if present {
        canonical_path(p)
    } else {
        None
    };
    resolved_for_check(p, present, canonical)
}

/// The form a path is compared in, given whether the disk shows it
/// (`present`) and the canonical form the disk gave (if any): the canonical
/// form of a present path, else the path normalised lexically.
pub fn resolved_for_check(p: &str, present: bool, canonical: Option<String>) -> (r: String)
    ensures
        r@ == (if present && canonical is Some {
            canonical->0@
        } else {
            normalize_text(p@)
        }),
{
    if present {
        match canonical {
            Some(c) => c,
            None => normalize_components(p),
        }
    } else {
        normalize_components(p)
    }
}

/// `base` joined with a user-supplied `subpath`, refused when the result
/// escapes `base` (by `..` or a link). An empty subpath gives `base`. How the
/// two paths resolve depends on the disk; whatever it shows, the result is
/// the plain join or the escape error.
pub fn safe_join(base: &str, subpath: &str) -> (r: Result<String, BundleError>)
    ensures
        subpath@.len() == 0 ==> (r matches Ok(p) && p@ == base@),
        subpath@.len() > 0 ==> (r matches Ok(p) && p@ == join_text(base@, subpath@)) || (r matches Err(
            BundleError::LoadError { reason },
        ) && reason@ == escape_message(subpath@, base@)),
{
    if subpath.unicode_len() == 0 {
        return Ok(str_to_string(base));
    }
    let joined = join_path(base, subpath);
    let resolved = resolve_for_check(joined.as_str());
    let base_resolved = resolve_for_check(base);
    check_within(base, subpath, joined, resolved.as_str(), base_resolved.as_str())
}

/// A handler of one kind of source URI. (Resolving a URI to local paths
/// fetches it, which is done outside this library.)
pub trait SourceHandler {
    /// Whether this handler takes the URI.
    fn can_handle(&self, parsed: &ParsedURI) -> bool;
}

/// A file source: local paths, relative ones taken from `base_path`.
pub struct FileSourceHandler {
    pub base_path: String,
}

impl FileSourceHandler {
    /// A handler resolving relative paths against `base_path`.
    pub fn with_base_path(base_path: &str) -> (h: FileSourceHandler)
        ensures
            h.base_path@ == base_path@,
    {
        FileSourceHandler { base_path: str_to_string(base_path) }
    }

    /// Whether this handler takes the URI: a file URI.
    pub fn can_handle(&self, parsed: &ParsedURI) -> (r: bool)
        ensures
            r == crate::uri::is_file_model(parsed@),
    {
        parsed.is_file()
    }

    /// The local path a file URI names: a `./` or `../` path under the base
    /// path, any other as it is.
    pub fn local_path(&self, path: &str) -> (r: String)
        ensures
            r@ == (if is_prefix("./"@, path@) || is_prefix("../"@, path@) {
                join_text(self.base_path@, path@)
            } else {
                path@
            }),
    {
        if str_starts_with(path, "./") || str_starts_with(path, "../") {
            join_path(self.base_path.as_str(), path)
        } else {
            str_to_string(path)
        }
    }

    /// Resolves a file URI: the local path, with the subpath joined safely
    /// when there is one; refused when nothing is there (as the disk shows
    /// it). The source root is the local path. Whatever the disk shows, a
    /// refusal is the escape error of `safe_join` (for a subpath) or
    /// `NotFound` naming the active path.
    pub fn resolve(&self, parsed: &ParsedURI) -> (r: Result<ResolvedSource, BundleError>)
        ensures
            r matches Ok(rs) ==> rs.source_root@ == file_local_path(self.base_path@, parsed.path@) && rs.active_path@
                == file_active_path(self.base_path@, parsed.path@, parsed.subpath@),
            r matches Err(e) ==> (parsed.subpath@.len() > 0 && (e matches BundleError::LoadError { reason }
                && reason@ == escape_message(parsed.subpath@, file_local_path(self.base_path@, parsed.path@))))
                || (e matches BundleError::NotFound { uri } && uri@ == "File not found: "@ + file_active_path(
                self.base_path@,
                parsed.path@,
                parsed.subpath@,
            )),
    {
        let resolved_path = self.local_path(parsed.path.as_str());
        let active = if parsed.subpath.as_str().unicode_len() > 0 {
            match safe_join(resolved_path.as_str(), parsed.subpath.as_str()) {
                Ok(p) => p,
                Err(e) => {
                    return Err(e);
                },
            }
        } else {
            copy_string(&resolved_path)
        };
        let present = path_exists(active.as_str());
        file_source_result(resolved_path, active, present)
    }
}

/// The local path a file URI with path `path` names under `base`: a `./` or
/// `../` path joined to the base, any other as it is.
pub open spec fn file_local_path(base: Seq<char>, path: Seq<char>) -> Seq<char> {
    if is_prefix("./"@, path) || is_prefix("../"@, path) {
        join_text(base, path)
    } else {
        path
    }
}

/// The path a file URI makes active: its local path, with the subpath joined
/// when there is one.
pub open spec fn file_active_path(base: Seq<char>, path: Seq<char>, subpath: Seq<char>) -> Seq<char> {
    if subpath.len() > 0 {
        join_text(file_local_path(base, path), subpath)
    } else {
        file_local_path(base, path)
    }
}

/// The outcome of resolving a file source once the disk has said whether
/// its active path is there: the resolved paths when it is, `NotFound`
/// naming the active path when it is not.
pub fn file_source_result(source_root: String, active_path: String, present: bool) -> (r: Result<
    ResolvedSource,
    BundleError,
>)
    ensures
        present ==> (r matches Ok(rs) && rs.source_root@ == source_root@ && rs.active_path@ == active_path@),
        !present ==> (r matches Err(BundleError::NotFound { uri }) && uri@ == "File not found: "@ + active_path@),
{
    if present {
        Ok(ResolvedSource { active_path: active_path, source_root: source_root })
    } else {
        Err(BundleError::NotFound { uri: concat("File not found: ", active_path.as_str()) })
    }
}

/// `s` without trailing `c`s.
pub open spec fn trim_end(s: Seq<char>, c: char) -> Seq<char>
    decreases s.len(),
{
    if s.len() > 0 && s.last() == c {
        trim_end(s.drop_last(), c)
    } else {
        s
    }
}

/// The text after the last `/` (all of it when there is none).
pub open spec fn after_last_slash(s: Seq<char>) -> Seq<char> {
    crate::registry_names::last_piece(s)
}

/// The first 16 digits of the SHA-256 of `s`: a cache key.
pub open spec fn cache_key(s: Seq<char>) -> Seq<char> {
    sha256_hex(s).take(16)
}

fn trim_end_exec(v: &Vec<char>, c: char) -> (r: Vec<char>)
    ensures
        r@ == trim_end(v@, c),
{
    let mut n: usize = v.len();
    assert(v@.take(n as int) =~= v@);
    while n > 0 && v[n - 1] == c
        invariant
            n <= v@.len(),
            trim_end(v@.take(n as int), c) == trim_end(v@, c),
        decreases n,
    {
        assert(v@.take(n as int).drop_last() =~= v@.take(n - 1));
        n -= 1;
    }
    crate::text::sub_chars(v, 0, n)
}

fn after_last_slash_exec(s: &str) -> (r: String)
    ensures
        r@ == after_last_slash(s@),
{
    let v = str_chars(s);
    let parts = crate::text::chars_split(&v, '/');
    proof {
        crate::text::lemma_split_nonempty(s@, '/');
    }
    chars_to_string(&parts[parts.len() - 1])
}

fn cache_key_of(s: &str) -> (r: String)
    ensures
        r@ == cache_key(s@),
{
    let h = sha256_hex_of(s);
    let v = str_chars(h.as_str());
    slice_to_string(&v, 0, 16)
}

/// A cached copy's paths: the subpath under the cache when there is one,
/// joined safely (a subpath that escapes the cache is refused with the
/// escape error of `safe_join`). A missing subpath is refused with `missing`
/// followed by the subpath. Whether the subpath escapes (once links are
/// resolved) and whether it is there depend on the disk.
fn with_subpath(cache_path: String, subpath: &str, missing: &str) -> (r: Result<ResolvedSource, BundleError>)
    ensures
        subpath@.len() == 0 ==> (r matches Ok(rs) && rs.active_path@ == cache_path@ && rs.source_root@
            == cache_path@),
        subpath@.len() > 0 ==> subpath_outcome(r, cache_path@, subpath@, missing@),
{
    if subpath.unicode_len() > 0 {
        let result_path = match safe_join(cache_path.as_str(), subpath) {
            Ok(p) => p,
            Err(e) => {
                return Err(e);
            },
        };
        if !path_exists(result_path.as_str()) {
            return Err(BundleError::NotFound { uri: concat(missing, subpath) });
        }
        Ok(ResolvedSource { active_path: result_path, source_root: cache_path })
    } else {
        let active = copy_string(&cache_path);
        Ok(ResolvedSource { active_path: active, source_root: cache_path })
    }
}

/// What resolving a non-empty subpath under a cached copy can give: the
/// joined paths, the escape error of `safe_join`, or `missing` followed by
/// the subpath.
pub open spec fn subpath_outcome(
    r: Result<ResolvedSource, BundleError>,
    cache_path: Seq<char>,
    subpath: Seq<char>,
    missing: Seq<char>,
) -> bool {
    ||| (r matches Ok(rs) && rs.active_path@ == join_text(cache_path, subpath) && rs.source_root@ == cache_path)
    ||| (r matches Err(BundleError::NotFound { uri }) && uri@ == missing + subpath)
    ||| (r matches Err(BundleError::LoadError { reason }) && reason@ == escape_message(subpath, cache_path))
}

/// A git source: repositories cloned into a cache.
pub struct GitSourceHandler;

/// The clone URL of a git URI: the scheme without `git+`, the host and path.
pub open spec fn git_url_model(u: UriModel) -> Seq<char> {
    remove_all(u.scheme, "git+"@) + "://"@ + u.host + u.path
}

/// The ref a git URI asks for (`HEAD` when none).
pub open spec fn git_ref_model(u: UriModel) -> Seq<char> {
    if u.ref_.len() == 0 {
        "HEAD"@
    } else {
        u.ref_
    }
}

/// Where a git URI is cloned: `<repo>-<key>` in the cache directory, the key
/// taken from the clone URL and ref.
pub open spec fn git_cache_path_model(u: UriModel, cache_dir: Seq<char>) -> Seq<char> {
    join_text(
        cache_dir,
        after_last_slash(trim_end(u.path, '/')) + "-"@ + cache_key(git_url_model(u) + "@"@ + git_ref_model(u)),
    )
}

impl GitSourceHandler {
    /// A git source handler.
    pub fn new() -> (h: GitSourceHandler) {
        GitSourceHandler
    }

    /// Whether this handler takes the URI: a git URI.
    pub fn can_handle(&self, parsed: &ParsedURI) -> (r: bool)
        ensures
            r == crate::uri::is_git_model(parsed@),
    {
        parsed.is_git()
    }

    /// The clone URL (see `git_url_model`).
    pub fn build_git_url(parsed: &ParsedURI) -> (r: String)
        ensures
            r@ == git_url_model(parsed@),
    {
        let sv = str_chars(parsed.scheme.as_str());
        let scheme = remove_pattern(&sv, "git+");
        let mut url = chars_to_string(&scheme);
        push_str(&mut url, "://");
        push_str(&mut url, parsed.host.as_str());
        push_str(&mut url, parsed.path.as_str());
        url
    }

    /// The ref to clone (see `git_ref_model`).
    pub fn ref_of(parsed: &ParsedURI) -> (r: String)
        ensures
            r@ == git_ref_model(parsed@),
    {
        if parsed.ref_.as_str().unicode_len() == 0 {
            str_to_string("HEAD")
        } else {
            copy_string(&parsed.ref_)
        }
    }

    /// Where the repository is cloned (see `git_cache_path_model`).
    pub fn get_cache_path(parsed: &ParsedURI, cache_dir: &str) -> (r: String)
        ensures
            r@ == git_cache_path_model(parsed@, cache_dir@),
    {
        let git_url = Self::build_git_url(parsed);
        let r = Self::ref_of(parsed);
        let mut input = copy_string(&git_url);
        push_str(&mut input, "@");
        push_str(&mut input, r.as_str());
        let key = cache_key_of(input.as_str());
        let pv = str_chars(parsed.path.as_str());
        let trimmed = trim_end_exec(&pv, '/');
        let trimmed_s = chars_to_string(&trimmed);
        let mut name = after_last_slash_exec(trimmed_s.as_str());
        push_str(&mut name, "-");
        push_str(&mut name, key.as_str());
        join_path(cache_dir, name.as_str())
    }

    /// Whether a clone looks complete: a `.git` directory and either a Python
    /// project file or a bundle file. It depends on the disk.
    pub fn verify_clone_integrity(cache_path: &str) -> bool {
        let present = path_exists(cache_path);
        let git_dir = join_path(cache_path, ".git");
        let has_git_dir = present && path_exists(git_dir.as_str());
        let has_project_file = has_git_dir && (path_exists(join_path(cache_path, "pyproject.toml").as_str())
            || path_exists(join_path(cache_path, "setup.py").as_str())
            || path_exists(join_path(cache_path, "setup.cfg").as_str()));
        let has_bundle_file = has_git_dir && (path_exists(join_path(cache_path, "bundle.md").as_str())
            || path_exists(join_path(cache_path, "bundle.yaml").as_str()));
        Self::clone_is_complete(present, has_git_dir, has_project_file, has_bundle_file)
    }

    /// Whether a clone counts as complete, given what the disk shows: the
    /// directory is there, with a `.git` directory, and a Python project file
    /// or a bundle file.
    pub fn clone_is_complete(present: bool, has_git_dir: bool, has_project_file: bool, has_bundle_file: bool) -> (r:
        bool)
        ensures
            r == (present && has_git_dir && (has_project_file || has_bundle_file)),
    {
        present && has_git_dir && (has_project_file || has_bundle_file)
    }

    /// The paths of a cloned repository, with the subpath (joined safely)
    /// when there is one.
    pub fn resolve_with_subpath(cache_path: String, subpath: &str) -> (r: Result<ResolvedSource, BundleError>)
        ensures
            subpath@.len() == 0 ==> (r matches Ok(rs) && rs.active_path@ == cache_path@ && rs.source_root@
                == cache_path@),
            subpath@.len() > 0 ==> subpath_outcome(r, cache_path@, subpath@, "Subpath not found after clone: "@),
    {
        with_subpath(cache_path, subpath, "Subpath not found after clone: ")
    }
}

/// An optional text as JSON: the string, or null.
pub open spec fn opt_json(o: Option<Seq<char>>) -> Json {
    match o {
        Some(t) => Json::Str(t),
        None => Json::Null,
    }
}

fn opt_json_exec(o: Option<&str>) -> (r: JsonValue)
    ensures
        r@ == opt_json(match o {
            Some(t) => Some(t@),
            None => None,
        }),
{
    match o {
        Some(t) => JsonValue::String(str_to_string(t)),
        None => JsonValue::Null,
    }
}

/// The arguments of the `git` command that clones a repository: a shallow
/// clone, of branch or tag `ref_` unless it is `HEAD`, into `cache_path`.
pub open spec fn clone_args_model(git_url: Seq<char>, ref_: Seq<char>, cache_path: Seq<char>) -> Seq<Seq<char>> {
    let head = seq!["clone"@, "--depth"@, "1"@];
    let branch = if ref_ == "HEAD"@ {
        Seq::empty()
    } else {
        seq!["--branch"@, ref_]
    };
    head + branch + seq![git_url, cache_path]
}

impl GitSourceHandler {
    /// The arguments of the `git` command that clones a repository (see
    /// `clone_args_model`).
    pub fn clone_args(git_url: &str, ref_: &str, cache_path: &str) -> (r: Vec<String>)
        ensures
            crate::registry::texts(r@) == clone_args_model(git_url@, ref_@, cache_path@),
    {
        let mut v: Vec<String> = Vec::new();
        v.push(str_to_string("clone"));
        v.push(str_to_string("--depth"));
        v.push(str_to_string("1"));
        let is_head = crate::text::str_eq(ref_, "HEAD");
        if !is_head {
            v.push(str_to_string("--branch"));
            v.push(str_to_string(ref_));
        }
        v.push(str_to_string(git_url));
        v.push(str_to_string(cache_path));
        proof {
            if is_head {
                assert(crate::registry::texts(v@) =~= clone_args_model(git_url@, ref_@, cache_path@));
            } else {
                assert(crate::registry::texts(v@) =~= clone_args_model(git_url@, ref_@, cache_path@));
            }
        }
        v
    }

    /// The error when `git` could not be run.
    pub fn clone_run_error(git_url: &str, ref_: &str, reason: &str) -> (e: BundleError)
        ensures
            e matches BundleError::NotFound { uri } && uri@ == "Failed to run git clone for "@ + git_url@
                + "@"@ + ref_@ + ": "@ + reason@,
    {
        let mut m = concat("Failed to run git clone for ", git_url);
        push_str(&mut m, "@");
        push_str(&mut m, ref_);
        push_str(&mut m, ": ");
        push_str(&mut m, reason);
        BundleError::NotFound { uri: m }
    }

    /// The error when the clone failed, with what `git` printed.
    pub fn clone_failed_error(git_url: &str, ref_: &str, stderr: &str) -> (e: BundleError)
        ensures
            e matches BundleError::NotFound { uri } && uri@ == "Failed to clone "@ + git_url@ + "@"@ + ref_@
                + ": "@ + stderr@,
    {
        let mut m = concat("Failed to clone ", git_url);
        push_str(&mut m, "@");
        push_str(&mut m, ref_);
        push_str(&mut m, ": ");
        push_str(&mut m, stderr);
        BundleError::NotFound { uri: m }
    }

    /// The error when a finished clone does not look complete.
    pub fn clone_invalid_error(git_url: &str, ref_: &str) -> (e: BundleError)
        ensures
            e matches BundleError::NotFound { uri } && uri@ == "Clone of "@ + git_url@ + "@"@ + ref_@
                + " completed but result is invalid (missing pyproject.toml/setup.py/bundle.md)"@,
    {
        let mut m = concat("Clone of ", git_url);
        push_str(&mut m, "@");
        push_str(&mut m, ref_);
        push_str(&mut m, " completed but result is invalid (missing pyproject.toml/setup.py/bundle.md)");
        BundleError::NotFound { uri: m }
    }

    /// The metadata saved beside a clone: when it was cached, the ref, the
    /// commit (null when unknown) and the clone URL.
    pub fn cache_metadata(cached_at: &str, ref_: &str, commit: Option<&str>, git_url: &str) -> (r: JsonValue)
        ensures
            r@ == Json::Obj(seq![
                ("cached_at"@, Json::Str(cached_at@)),
                ("commit"@, opt_json(match commit {
                    Some(c) => Some(c@),
                    None => None,
                })),
                ("git_url"@, Json::Str(git_url@)),
                ("ref"@, Json::Str(ref_@)),
            ]),
    {
        let mut m: Vec<(String, JsonValue)> = Vec::new();
        m.push((str_to_string("cached_at"), JsonValue::String(str_to_string(cached_at))));
        m.push((str_to_string("commit"), opt_json_exec(commit)));
        m.push((str_to_string("git_url"), JsonValue::String(str_to_string(git_url))));
        m.push((str_to_string("ref"), JsonValue::String(str_to_string(ref_))));
        proof {
            crate::json::lemma_object_view(m);
            assert(crate::json::json_members(m@) =~= seq![
                ("cached_at"@, Json::Str(cached_at@)),
                ("commit"@, opt_json(match commit {
                    Some(c) => Some(c@),
                    None => None,
                })),
                ("git_url"@, Json::Str(git_url@)),
                ("ref"@, Json::Str(ref_@)),
            ]);
        }
        JsonValue::Object(m)
    }
}

/// An HTTP source: files downloaded into a cache.
pub struct HttpSourceHandler;

/// The URL of an HTTP URI.
pub open spec fn http_url_model(u: UriModel) -> Seq<char> {
    u.scheme + "://"@ + u.host + u.path
}

/// Where a download is cached: `<file name>-<key>` in the cache directory
/// (`download` when the path has no file name), the key taken from the URL.
pub open spec fn http_cache_path_model(url: Seq<char>, u: UriModel, cache_dir: Seq<char>) -> Seq<char> {
    let name = match path_file_name(u.path) {
        Some(n) => if n.len() > 0 {
            n
        } else {
            "download"@
        },
        None => "download"@,
    };
    join_text(cache_dir, name + "-"@ + cache_key(url))
}

/// What a status check's HEAD request came to.
pub enum HeadOutcome {
    /// The server answered with this status code.
    Answered(u16),
    /// The request failed, with this message.
    Failed(String),
    /// The request took too long.
    TimedOut,
}

/// The status an HTTP source has: not cached, or what the HEAD request said
/// (304: up to date; 2xx: an update; anything else unknown, with the error).
pub open spec fn head_status_ok(
    s: SourceStatus,
    url: Seq<char>,
    is_cached: bool,
    cached_at: Option<Seq<char>>,
    outcome: HeadOutcome,
) -> bool {
    &&& s.uri@ == url
    &&& s.is_cached == is_cached
    &&& s.current_version is None && s.latest_version is None
    &&& s.cached_ref is None && s.cached_commit is None
    &&& s.remote_ref is None && s.remote_commit is None
    &&& if !is_cached {
        &&& s.has_update is None
        &&& s.summary@ == "Not cached"@
        &&& s.cached_at is None
        &&& s.error is None
    } else {
        &&& opt_text(s.cached_at) == cached_at
        &&& match outcome {
            HeadOutcome::Answered(code) => if code == 304 {
                s.has_update == Some(false) && s.error is None && s.summary@ == "Up to date (304 Not Modified)"@
            } else if 200 <= code <= 299 {
                s.has_update == Some(true) && s.error is None && s.summary@ == "Update available (HTTP "@
                    + decimal(code as nat) + ")"@
            } else {
                let msg = "HEAD request returned HTTP "@ + decimal(code as nat);
                s.has_update is None && opt_text(s.error) == Some(msg) && s.summary@ == "Unknown ("@ + msg + ")"@
            },
            HeadOutcome::Failed(e) => {
                let msg = "HEAD request failed: "@ + e@;
                s.has_update is None && opt_text(s.error) == Some(msg) && s.summary@ == "Unknown ("@ + msg + ")"@
            },
            HeadOutcome::TimedOut => {
                let msg = "HEAD request timed out"@;
                s.has_update is None && opt_text(s.error) == Some(msg) && s.summary@ == "Unknown ("@ + msg + ")"@
            },
        }
    }
}

/// The text of a non-empty string member of cache metadata.
pub open spec fn meta_text(meta: Option<Json>, key: Seq<char>) -> Option<Seq<char>> {
    match meta {
        Some(m) => match json_get(m, key) {
            Some(Json::Str(s)) => if s.len() > 0 {
                Some(s)
            } else {
                None
            },
            _ => None,
        },
        None => None,
    }
}

fn unknown_summary(msg: &str) -> (r: String)
    ensures
        r@ == "Unknown ("@ + msg@ + ")"@,
{
    let mut s = concat("Unknown (", msg);
    push_str(&mut s, ")");
    s
}

impl HttpSourceHandler {
    /// An HTTP source handler.
    pub fn new() -> (h: HttpSourceHandler) {
        HttpSourceHandler
    }

    /// Whether this handler takes the URI: an HTTP URI.
    pub fn can_handle(&self, parsed: &ParsedURI) -> (r: bool)
        ensures
            r == crate::uri::is_http_model(parsed@),
    {
        parsed.is_http()
    }

    /// The URL (see `http_url_model`).
    pub fn build_url(parsed: &ParsedURI) -> (r: String)
        ensures
            r@ == http_url_model(parsed@),
    {
        let mut url = copy_string(&parsed.scheme);
        push_str(&mut url, "://");
        push_str(&mut url, parsed.host.as_str());
        push_str(&mut url, parsed.path.as_str());
        url
    }

    /// Where the download of `url` is cached (see `http_cache_path_model`).
    pub fn cached_file_path(url: &str, parsed: &ParsedURI, cache_dir: &str) -> (r: String)
        ensures
            r@ == http_cache_path_model(url@, parsed@, cache_dir@),
    {
        let key = cache_key_of(url);
        let mut name = match file_name_of(parsed.path.as_str()) {
            Some(n) => if n.as_str().unicode_len() > 0 {
                n
            } else {
                str_to_string("download")
            },
            None => str_to_string("download"),
        };
        push_str(&mut name, "-");
        push_str(&mut name, key.as_str());
        join_path(cache_dir, name.as_str())
    }

    /// The metadata file kept beside a cached file.
    pub fn meta_path(cached_file: &str) -> (r: String)
        ensures
            r@ == cached_file@ + ".meta.json"@,
    {
        concat(cached_file, ".meta.json")
    }

    /// The paths of a cached download, with the subpath (joined safely) when
    /// there is one.
    pub fn resolve_with_subpath(cached_file: String, subpath: &str) -> (r: Result<ResolvedSource, BundleError>)
        ensures
            subpath@.len() == 0 ==> (r matches Ok(rs) && rs.active_path@ == cached_file@ && rs.source_root@
                == cached_file@),
            subpath@.len() > 0 ==> subpath_outcome(r, cached_file@, subpath@, "Subpath not found: "@),
    {
        with_subpath(cached_file, subpath, "Subpath not found: ")
    }

    /// The metadata saved beside a download: the ETag and Last-Modified
    /// headers (null when absent), when it was cached, and the URL.
    pub fn download_metadata(etag: Option<&str>, last_modified: Option<&str>, cached_at: &str, url: &str) -> (r: JsonValue)
        ensures
            r@ == Json::Obj(seq![
                ("cached_at"@, Json::Str(cached_at@)),
                ("etag"@, opt_json(match etag {
                    Some(c) => Some(c@),
                    None => None,
                })),
                ("last_modified"@, opt_json(match last_modified {
                    Some(c) => Some(c@),
                    None => None,
                })),
                ("url"@, Json::Str(url@)),
            ]),
    {
        let mut m: Vec<(String, JsonValue)> = Vec::new();
        m.push((str_to_string("cached_at"), JsonValue::String(str_to_string(cached_at))));
        m.push((str_to_string("etag"), opt_json_exec(etag)));
        m.push((str_to_string("last_modified"), opt_json_exec(last_modified)));
        m.push((str_to_string("url"), JsonValue::String(str_to_string(url))));
        proof {
            crate::json::lemma_object_view(m);
            assert(crate::json::json_members(m@) =~= seq![
                ("cached_at"@, Json::Str(cached_at@)),
                ("etag"@, opt_json(match etag {
                    Some(c) => Some(c@),
                    None => None,
                })),
                ("last_modified"@, opt_json(match last_modified {
                    Some(c) => Some(c@),
                    None => None,
                })),
                ("url"@, Json::Str(url@)),
            ]);
        }
        JsonValue::Object(m)
    }

    /// The error when a download failed: `Failed to download <url>: <reason>`.
    pub fn download_error(url: &str, reason: &str) -> (e: BundleError)
        ensures
            e matches BundleError::NotFound { uri } && uri@ == "Failed to download "@ + url@ + ": "@ + reason@,
    {
        let mut m = concat("Failed to download ", url);
        push_str(&mut m, ": ");
        push_str(&mut m, reason);
        BundleError::NotFound { uri: m }
    }

    /// Whether a download may go on after `received` bytes and
    /// `elapsed_secs` seconds: past `MAX_DOWNLOAD_BYTES` it is refused as
    /// too large, past `HTTP_DOWNLOAD_TIMEOUT_SECS` as too slow (the size is
    /// checked first), each as a download error of `url`.
    pub fn check_download_limits(url: &str, received: u64, elapsed_secs: u64) -> (r: Result<(), BundleError>)
        ensures
            received > MAX_DOWNLOAD_BYTES ==> (r matches Err(BundleError::NotFound { uri }) && uri@
                == "Failed to download "@ + url@ + ": "@ + "response larger than 104857600 bytes"@),
            received <= MAX_DOWNLOAD_BYTES && elapsed_secs > HTTP_DOWNLOAD_TIMEOUT_SECS ==> (r matches Err(
                BundleError::NotFound { uri },
            ) && uri@ == "Failed to download "@ + url@ + ": "@ + "timed out after 120 seconds"@),
            received <= MAX_DOWNLOAD_BYTES && elapsed_secs <= HTTP_DOWNLOAD_TIMEOUT_SECS ==> r is Ok,
    {
        if received > MAX_DOWNLOAD_BYTES {
            Err(Self::download_error(url, "response larger than 104857600 bytes"))
        } else if elapsed_secs > HTTP_DOWNLOAD_TIMEOUT_SECS {
            Err(Self::download_error(url, "timed out after 120 seconds"))
        } else {
            Ok(())
        }
    }

    /// The validators a conditional HEAD request sends, from the cache
    /// metadata: the ETag and the Last-Modified date, each when non-empty.
    pub fn conditional_headers(meta: Option<&JsonValue>) -> (r: (Option<String>, Option<String>))
        ensures
            opt_text(r.0) == meta_text(
                match meta {
                    Some(m) => Some(m@),
                    None => None,
                },
                "etag"@,
            ),
            opt_text(r.1) == meta_text(
                match meta {
                    Some(m) => Some(m@),
                    None => None,
                },
                "last_modified"@,
            ),
    {
        match meta {
            Some(m) => {
                let etag = match json_get_exec(m, "etag") {
                    Some(JsonValue::String(s)) => if s.as_str().unicode_len() > 0 {
                        Some(copy_string(s))
                    } else {
                        None
                    },
                    _ => None,
                };
                let lm = match json_get_exec(m, "last_modified") {
                    Some(JsonValue::String(s)) => if s.as_str().unicode_len() > 0 {
                        Some(copy_string(s))
                    } else {
                        None
                    },
                    _ => None,
                };
                (etag, lm)
            },
            None => (None, None),
        }
    }

    /// The status of an HTTP source (see `head_status_ok`), given whether it
    /// is cached, when it was cached, and what the HEAD request came to.
    pub fn head_status(url: &str, is_cached: bool, cached_at: Option<String>, outcome: HeadOutcome) -> (r: SourceStatus)
        ensures
            head_status_ok(r, url@, is_cached, opt_text(cached_at), outcome),
    {
        proof {
            reveal_strlit("Not cached");
        }
        let mut status = SourceStatus::new(url);
        status.is_cached = is_cached;
        if !is_cached {
            status.summary = str_to_string("Not cached");
            return status;
        }
        status.cached_at = cached_at;
        match outcome {
            HeadOutcome::Answered(code) => {
                if code == 304 {
                    status.has_update = Some(false);
                    status.summary = str_to_string("Up to date (304 Not Modified)");
                } else if 200 <= code && code <= 299 {
                    status.has_update = Some(true);
                    let mut s = str_to_string("Update available (HTTP ");
                    let d = crate::text::decimal_text(code as u64);
                    push_str(&mut s, d.as_str());
                    push_str(&mut s, ")");
                    status.summary = s;
                } else {
                    let d = crate::text::decimal_text(code as u64);
                    let msg = concat("HEAD request returned HTTP ", d.as_str());
                    status.summary = unknown_summary(msg.as_str());
                    status.error = Some(msg);
                }
            },
            HeadOutcome::Failed(e) => {
                let msg = concat("HEAD request failed: ", e.as_str());
                status.summary = unknown_summary(msg.as_str());
                status.error = Some(msg);
            },
            HeadOutcome::TimedOut => {
                let msg = str_to_string("HEAD request timed out");
                status.summary = unknown_summary(msg.as_str());
                status.error = Some(msg);
            },
        }
        status
    }
}

/// A zip source: archives extracted into a cache.
pub struct ZipSourceHandler;

/// Where a zip URI's archive is and how it is cached: the local archive (for
/// `zip+file`), the URI the cache key is taken from, and the directory it is
/// extracted to (`<archive stem>-<key>` in the cache directory).
pub struct ZipLayout {
    pub zip_path: Option<String>,
    pub source_uri: String,
    pub extract_path: String,
}

/// The scheme of a zip URI without `zip+`.
pub open spec fn zip_inner_scheme(u: UriModel) -> Seq<char> {
    remove_all(u.scheme, "zip+"@)
}

/// The layout of a zip URI (see `ZipLayout`).
pub open spec fn zip_layout_ok(l: ZipLayout, u: UriModel, cache_dir: Seq<char>) -> bool {
    let inner = zip_inner_scheme(u);
    let src = if inner == "file"@ {
        u.path
    } else {
        inner + "://"@ + u.host + u.path
    };
    let stem = match path_file_stem(u.path) {
        Some(n) => n,
        None => Seq::empty(),
    };
    let name = if stem.len() == 0 {
        "archive"@
    } else {
        stem
    };
    &&& opt_text(l.zip_path) == (if inner == "file"@ {
        Some(u.path)
    } else {
        None
    })
    &&& l.source_uri@ == src
    &&& l.extract_path@ == join_text(cache_dir, name + "-"@ + cache_key(src))
}

impl ZipSourceHandler {
    /// A zip source handler.
    pub fn new() -> (h: ZipSourceHandler) {
        ZipSourceHandler
    }

    /// Whether this handler takes the URI: a zip URI.
    pub fn can_handle(&self, parsed: &ParsedURI) -> (r: bool)
        ensures
            r == crate::uri::is_zip_model(parsed@),
    {
        parsed.is_zip()
    }

    /// The layout of a zip URI in a cache directory (see `zip_layout_ok`).
    pub fn layout(parsed: &ParsedURI, cache_dir: &str) -> (l: ZipLayout)
        ensures
            zip_layout_ok(l, parsed@, cache_dir@),
    {
        let sv = str_chars(parsed.scheme.as_str());
        let inner_v = remove_pattern(&sv, "zip+");
        let inner = chars_to_string(&inner_v);
        let is_file = crate::text::str_eq(inner.as_str(), "file");
        let source_uri = if is_file {
            copy_string(&parsed.path)
        } else {
            let mut u = copy_string(&inner);
            push_str(&mut u, "://");
            push_str(&mut u, parsed.host.as_str());
            push_str(&mut u, parsed.path.as_str());
            u
        };
        let key = cache_key_of(source_uri.as_str());
        let mut name = match file_stem_of(parsed.path.as_str()) {
            Some(n) => n,
            None => String::new(),
        };
        if name.as_str().unicode_len() == 0 {
            name = str_to_string("archive");
        }
        push_str(&mut name, "-");
        push_str(&mut name, key.as_str());
        let extract_path = join_path(cache_dir, name.as_str());
        ZipLayout {
            zip_path: if is_file { Some(copy_string(&parsed.path)) } else { None },
            source_uri: source_uri,
            extract_path: extract_path,
        }
    }

    /// The cached extraction, when it is there with the subpath (as the disk
    /// shows it): its paths, the extraction directory as root. A subpath that
    /// escapes the extraction is refused with the escape error of
    /// `safe_join`.
    pub fn cached(layout: &ZipLayout, subpath: &str) -> (r: Result<Option<ResolvedSource>, BundleError>)
        ensures
            r matches Ok(Some(rs)) ==> rs.source_root@ == layout.extract_path@ && rs.active_path@ == (if subpath@.len()
                > 0 {
                join_text(layout.extract_path@, subpath@)
            } else {
                layout.extract_path@
            }),
            r matches Err(e) ==> subpath@.len() > 0 && (e matches BundleError::LoadError { reason } && reason@
                == escape_message(subpath@, layout.extract_path@)),
    {
        if !path_exists(layout.extract_path.as_str()) {
            return Ok(None);
        }
        let rs = match Self::extraction_source(layout, subpath) {
            Ok(rs) => rs,
            Err(e) => {
                return Err(e);
            },
        };
        if path_exists(rs.active_path.as_str()) {
            Ok(Some(rs))
        } else {
            Ok(None)
        }
    }

    /// The paths of an extraction with the subpath: the subpath joined
    /// safely to the extraction directory (the directory itself without
    /// one), the directory as root. Whether the subpath escapes, once links
    /// are resolved, depends on the disk; when it does, the escape error of
    /// `safe_join` is returned.
    pub fn extraction_source(layout: &ZipLayout, subpath: &str) -> (r: Result<ResolvedSource, BundleError>)
        ensures
            subpath@.len() == 0 ==> (r matches Ok(rs) && rs.source_root@ == layout.extract_path@ && rs.active_path@
                == layout.extract_path@),
            subpath@.len() > 0 ==> (r matches Ok(rs) && rs.source_root@ == layout.extract_path@ && rs.active_path@
                == join_text(layout.extract_path@, subpath@)) || (r matches Err(BundleError::LoadError { reason })
                && reason@ == escape_message(subpath@, layout.extract_path@)),
    {
        let result_path = if subpath.unicode_len() > 0 {
            match safe_join(layout.extract_path.as_str(), subpath) {
                Ok(p) => p,
                Err(e) => {
                    return Err(e);
                },
            }
        } else {
            copy_string(&layout.extract_path)
        };
        Ok(ResolvedSource { active_path: result_path, source_root: copy_string(&layout.extract_path) })
    }
}

impl SourceHandler for FileSourceHandler {
    fn can_handle(&self, parsed: &ParsedURI) -> (r: bool)
        ensures
            r == crate::uri::is_file_model(parsed@),
    {
        FileSourceHandler::can_handle(self, parsed)
    }
}
impl SourceHandler for GitSourceHandler {
    fn can_handle(&self, parsed: &ParsedURI) -> (r: bool)
        ensures
            r == crate::uri::is_git_model(parsed@),
    {
        GitSourceHandler::can_handle(self, parsed)
    }
}
impl SourceHandler for HttpSourceHandler {
    fn can_handle(&self, parsed: &ParsedURI) -> (r: bool)
        ensures
            r == crate::uri::is_http_model(parsed@),
    {
        HttpSourceHandler::can_handle(self, parsed)
    }
}
impl SourceHandler for ZipSourceHandler {
    fn can_handle(&self, parsed: &ParsedURI) -> (r: bool)
        ensures
            r == crate::uri::is_zip_model(parsed@),
    {
        ZipSourceHandler::can_handle(self, parsed)
    }
}
} // verus!
