//! What the library asks of the file system, and the path operations of
//! `std::path` whose results it names. Nothing is stated of what the disk
//! answers: it can change between any two calls.
use vstd::prelude::*;

verus! {

/// `Path::exists`. The answer depends on the disk at the moment of the call.
#[verifier::external_body]
pub(crate) fn path_exists(p: &str) -> bool {
    std::path::Path::new(p).exists()
}

/// `Path::is_file`. The answer depends on the disk at the moment of the call.
#[verifier::external_body]
pub(crate) fn path_is_file(p: &str) -> bool {
    std::path::Path::new(p).is_file()
}

/// A Unix absolute path: one that starts at the root.
pub open spec fn is_absolute_text(p: Seq<char>) -> bool {
    p.len() > 0 && p[0] == '/'
}

/// `fs::canonicalize` (through `Path::canonicalize`): the canonical, absolute
/// path with links resolved, when the path exists. Which path that is
/// depends on the disk; it is stated only that it is absolute (on Unix it
/// starts at the root).
#[verifier::external_body]
pub(crate) fn canonical_path(p: &str) -> (r: Option<String>)
    ensures
        r matches Some(c) ==> is_absolute_text(c@),
{
    match std::path::Path::new(p).canonicalize() {
        Ok(c) => Some(c.display().to_string()),
        Err(_) => None,
    }
}

/// `std::path::absolute`: the path made absolute against the working
/// directory. Which path that is depends on the process's working
/// directory; it is stated only that it is absolute (on Unix it starts at
/// the root).
#[verifier::external_body]
pub(crate) fn absolute_path(p: &str) -> (r: Option<String>)
    ensures
        r matches Some(a) ==> is_absolute_text(a@),
{
    match std::path::absolute(p) {
        Ok(c) => Some(c.display().to_string()),
        Err(_) => None,
    }
}

/// The first position whose answer is yes, if any: which of a list of
/// candidates, probed in order, is the one found.
pub fn first_present(present: &Vec<bool>) -> (r: Option<usize>)
    ensures
        match r {
            Some(i) => i < present@.len() && present@[i as int] && forall|j: int| 0 <= j < i ==> !present@[j],
            None => forall|j: int| 0 <= j < present@.len() ==> !present@[j],
        },
{
    let mut i: usize = 0;
    while i < present.len()
        invariant
            i <= present@.len(),
            forall|j: int| 0 <= j < i ==> !present@[j],
        decreases present@.len() - i,
    {
        if present[i] {
            return Some(i);
        }
        i += 1;
    }
    None
}

/// The form a found path is given: its canonical form when the disk gave
/// one, else its absolute form when there is one, else the path as it is.
pub fn settled_path(given: &str, canonical: Option<String>, absolute: Option<String>) -> (r: String)
    ensures
        r@ == match canonical {
            Some(c) => c@,
            None => match absolute {
                Some(a) => a@,
                None => given@,
            },
        },
{
    match canonical {
        Some(c) => c,
        None => match absolute {
            Some(a) => a,
            None => crate::text::str_to_string(given),
        },
    }
}

/// What `Path::with_extension` gives for path `p` and extension `ext`.
pub uninterp spec fn path_with_extension(p: Seq<char>, ext: Seq<char>) -> Seq<char>;

/// `Path::with_extension`: `p` with the extension of its file name set to
/// `ext`. The result is named, as a function of the two texts. The call
/// panics when `ext` holds a path separator (`/` on Unix), so such an `ext`
/// is not admitted.
#[verifier::external_body]
pub(crate) fn with_extension(p: &str, ext: &str) -> (r: String)
    requires
        !ext@.contains('/'),
    ensures
        r@ == path_with_extension(p@, ext@),
{
    std::path::Path::new(p).with_extension(ext).display().to_string()
}

/// What `Path::parent` gives for path `p`.
pub uninterp spec fn path_parent(p: Seq<char>) -> Option<Seq<char>>;

/// `Path::parent`: the path without its last component, when it has one.
/// The result is named, as a function of the text; with a component taken
/// away, it is shorter than the path.
#[verifier::external_body]
pub(crate) fn parent_of(p: &str) -> (r: Option<String>)
    ensures
        match r {
            Some(q) => path_parent(p@) == Some(q@) && q@.len() < p@.len(),
            None => path_parent(p@) is None,
        },
{
    std::path::Path::new(p).parent().map(|q| q.display().to_string())
}

/// What `Path::strip_prefix` gives for path `p` and base `base`.
pub uninterp spec fn path_strip_prefix(p: Seq<char>, base: Seq<char>) -> Option<Seq<char>>;

/// `Path::strip_prefix`: the rest of `p` below `base`, when `p` lies under it.
/// The result is named, as a function of the two texts.
#[verifier::external_body]
pub(crate) fn strip_path_prefix(p: &str, base: &str) -> (r: Option<String>)
    ensures
        match r {
            Some(q) => path_strip_prefix(p@, base@) == Some(q@),
            None => path_strip_prefix(p@, base@) is None,
        },
{
    std::path::Path::new(p).strip_prefix(base).ok().map(|q| q.display().to_string())
}

/// What `Path::file_name` gives for path `p`.
pub uninterp spec fn path_file_name(p: Seq<char>) -> Option<Seq<char>>;

/// `Path::file_name`: the last component when it is a name. The result is
/// named, as a function of the text.
#[verifier::external_body]
pub(crate) fn file_name_of(p: &str) -> (r: Option<String>)
    ensures
        match r {
            Some(q) => path_file_name(p@) == Some(q@),
            None => path_file_name(p@) is None,
        },
{
    std::path::Path::new(p).file_name().map(|q| q.to_string_lossy().to_string())
}

/// What `Path::file_stem` gives for path `p`.
pub uninterp spec fn path_file_stem(p: Seq<char>) -> Option<Seq<char>>;

/// `Path::file_stem`: the file name without its extension. The result is
/// named, as a function of the text.
#[verifier::external_body]
pub(crate) fn file_stem_of(p: &str) -> (r: Option<String>)
    ensures
        match r {
            Some(q) => path_file_stem(p@) == Some(q@),
            None => path_file_stem(p@) is None,
        },
{
    std::path::Path::new(p).file_stem().map(|q| q.to_string_lossy().to_string())
}

} // verus!
