//! Caching by key on disk, and detecting content seen before.
use vstd::prelude::*;
use crate::text::{str_chars, chars_to_string, push_str, str_to_string, copy_string, str_eq};
use crate::paths::{join_text, join_path};
use crate::digest::{sha256_hex, sha256_hex_of};

verus! {

broadcast use vstd::std_specs::vec::group_vec_axioms;

/// What `char::is_alphanumeric` answers for `c` (Unicode letters and numbers).
pub uninterp spec fn char_alphanumeric(c: char) -> bool;

/// `char::is_alphanumeric`. The answer is named, as a function of the character.
#[verifier::external_body]
pub(crate) fn is_alphanumeric(c: char) -> (r: bool)
    ensures
        r == char_alphanumeric(c),
{
    c.is_alphanumeric()
}

/// A character as it may stand in a cache file name: letters, digits, `-` and
/// `_` stay, anything else becomes `_`.
pub open spec fn safe_char(c: char) -> char {
    if char_alphanumeric(c) || c == '-' || c == '_' {
        c
    } else {
        '_'
    }
}

/// The readable part of a cache file name: the first 30 characters of the
/// key, made safe.
pub open spec fn safe_prefix(key: Seq<char>) -> Seq<char> {
    let n = if key.len() < 30 {
        key.len()
    } else {
        30
    };
    Seq::new(n, |i: int| safe_char(key[i]))
}

/// The file a key is cached in: `<safe prefix>-<first 32 digits of the
/// key's SHA-256>.json` in the cache directory.
pub open spec fn cache_file_model(cache_dir: Seq<char>, key: Seq<char>) -> Seq<char> {
    join_text(cache_dir, safe_prefix(key) + "-"@ + sha256_hex(key).take(32) + ".json"@)
}

/// A cache of values on disk, one JSON file per key.
pub struct DiskCache {
    pub cache_dir: String,
}

impl DiskCache {
    /// A cache kept in `cache_dir` (the directory is created by whoever
    /// stores the first value).
    pub fn new(cache_dir: &str) -> (c: DiskCache)
        ensures
            c.cache_dir@ == cache_dir@,
    {
        DiskCache { cache_dir: str_to_string(cache_dir) }
    }

    /// The file `key` is cached in (see `cache_file_model`).
    pub fn cache_key_to_path(&self, key: &str) -> (r: String)
        ensures
            r@ == cache_file_model(self.cache_dir@, key@),
    {
        let h = sha256_hex_of(key);
        let hv = str_chars(h.as_str());
        let kv = str_chars(key);
        let n: usize = if kv.len() < 30 { kv.len() } else { 30 };
        let mut prefix: Vec<char> = Vec::new();
        let mut i: usize = 0;
        while i < n
            invariant
                i <= n,
                n <= kv@.len(),
                kv@ == key@,
                prefix@ == Seq::new(i as nat, |k: int| safe_char(kv@[k])),
            decreases n - i,
        {
            let c = kv[i];
            let d = if is_alphanumeric(c) || c == '-' || c == '_' { c } else { '_' };
            prefix.push(d);
            i += 1;
            assert(prefix@ =~= Seq::new(i as nat, |k: int| safe_char(kv@[k])));
        }
        let mut name = chars_to_string(&prefix);
        push_str(&mut name, "-");
        let hh = crate::text::slice_to_string(&hv, 0, 32);
        push_str(&mut name, hh.as_str());
        push_str(&mut name, ".json");
        join_path(self.cache_dir.as_str(), name.as_str())
    }
}

/// Detects content seen before, by the SHA-256 of the content.
pub struct ContentDeduplicator {
    seen: Vec<String>,
}

impl Default for ContentDeduplicator {
    /// A deduplicator that has seen nothing (as `new`).
    fn default() -> (d: ContentDeduplicator)
        ensures
            d.seen_digests() == Seq::<Seq<char>>::empty(),
    {
        ContentDeduplicator::new()
    }
}

impl ContentDeduplicator {
    /// The digests of the content seen so far.
    pub closed spec fn seen_digests(&self) -> Seq<Seq<char>> {
        Seq::new(self.seen@.len(), |i: int| self.seen@[i]@)
    }

    /// A deduplicator that has seen nothing.
    pub fn new() -> (d: ContentDeduplicator)
        ensures
            d.seen_digests() == Seq::<Seq<char>>::empty(),
            d.seen_digests().no_duplicates(),
    {
        let d = ContentDeduplicator { seen: Vec::new() };
        assert(d.seen_digests() =~= Seq::<Seq<char>>::empty());
        d
    }

    /// Whether `content` was seen before; it counts as seen from now on.
    pub fn is_duplicate(&mut self, content: &str) -> (r: bool)
        ensures
            r == old(self).seen_digests().contains(sha256_hex(content@)),
            final(self).seen_digests().contains(sha256_hex(content@)),
            forall|h: Seq<char>| old(self).seen_digests().contains(h) ==> #[trigger] final(self).seen_digests().contains(h),
            final(self).seen_digests() == (if r {
                old(self).seen_digests()
            } else {
                old(self).seen_digests().push(sha256_hex(content@))
            }),
            old(self).seen_digests().no_duplicates() ==> final(self).seen_digests().no_duplicates(),
    {
        let h = sha256_hex_of(content);
        let ghost before = self.seen_digests();
        let mut i: usize = 0;
        while i < self.seen.len()
            invariant
                i <= self.seen@.len(),
                before == self.seen_digests(),
                before == old(self).seen_digests(),
                h@ == sha256_hex(content@),
                forall|k: int| 0 <= k < i ==> before[k] != h@,
            decreases self.seen@.len() - i,
        {
            if str_eq(self.seen[i].as_str(), h.as_str()) {
                assert(before[i as int] == h@);
                return true;
            }
            i += 1;
        }
        let ghost hv = h@;
        self.seen.push(h);
        proof {
            let after = self.seen_digests();
            assert(after =~= before.push(hv));
            assert(after[before.len() as int] == hv);
            assert forall|x: Seq<char>| before.contains(x) implies #[trigger] after.contains(x) by {
                let k = choose|k: int| 0 <= k < before.len() && before[k] == x;
                assert(after[k] == x);
            }
        }
        false
    }
}

} // verus!
