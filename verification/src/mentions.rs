//! Files pulled into a prompt by `@mentions`: what a resolved mention holds,
//! the resolver's settings, and the listing shown for a mentioned directory.
use vstd::prelude::*;
use std::collections::HashMap;
use crate::text::{push_str, str_to_string};
use crate::sorting::{text_le, text_le_exec, lemma_text_le_total, lemma_text_le_trans};

verus! {

broadcast use vstd::std_specs::vec::group_vec_axioms;

/// A file brought in by a mention.
#[derive(Debug, Clone)]
pub struct ContextFile {
    pub path: String,
    pub content: String,
    pub mention: String,
}

/// The files that the mentions in a text brought in, and the mentions that
/// could not be resolved.
#[derive(Debug, Clone)]
pub struct MentionResult {
    pub files: Vec<ContextFile>,
    pub failed: Vec<String>,
}

/// Turns a mention into the path of the file it names, if there is one.
pub trait MentionResolver {
    fn resolve(&self, mention: &str) -> Option<String>;
}

/// The settings of the basic resolver: a directory that relative mentions
/// start from, and the local directories of named bundles.
pub struct BaseMentionResolver {
    pub base_path: Option<String>,
    pub bundles: Option<HashMap<String, String>>,
}

impl BaseMentionResolver {
    /// A resolver with neither a base directory nor bundles.
    pub fn new() -> (r: BaseMentionResolver)
        ensures
            r.base_path is None,
            r.bundles is None,
    {
        BaseMentionResolver { base_path: None, bundles: None }
    }

    /// A resolver whose relative mentions start from `base_path`.
    pub fn with_base_path(base_path: String) -> (r: BaseMentionResolver)
        ensures
            r.base_path == Some(base_path),
            r.bundles is None,
    {
        BaseMentionResolver { base_path: Some(base_path), bundles: None }
    }

    /// A resolver that knows these bundles' directories.
    pub fn with_bundles(bundles: HashMap<String, String>) -> (r: BaseMentionResolver)
        ensures
            r.base_path is None,
            r.bundles == Some(bundles),
    {
        BaseMentionResolver { base_path: None, bundles: Some(bundles) }
    }
}

/// What `str::to_lowercase` gives for a text (Unicode lower-case mapping).
pub uninterp spec fn lowercase_of(s: Seq<char>) -> Seq<char>;

/// `str::to_lowercase`; its result is named as a function of the text.
#[verifier::external_body]
fn to_lowercase(s: &str) -> (r: String)
    ensures
        r@ == lowercase_of(s@),
{
    s.to_lowercase()
}

/// An entry of a directory: whether it is a file (anything but a directory)
/// and its name.
pub open spec fn entries_view(v: Seq<(bool, String)>) -> Seq<(bool, Seq<char>)> {
    Seq::new(v.len(), |i: int| (v[i].0, v[i].1@))
}

/// `a` is listed no later than `b`: directories before files, and within each
/// group by lower-cased name.
pub open spec fn entry_le(a: (bool, Seq<char>), b: (bool, Seq<char>)) -> bool {
    (!a.0 && b.0) || (a.0 == b.0 && text_le(lowercase_of(a.1), lowercase_of(b.1)))
}

/// Entries in listing order.
pub open spec fn sorted_listing(s: Seq<(bool, Seq<char>)>) -> bool {
    forall|i: int, j: int| 0 <= i < j < s.len() ==> entry_le(#[trigger] s[i], #[trigger] s[j])
}

/// `x` put into a listing after every entry that comes no later than it.
pub open spec fn listing_insert(s: Seq<(bool, Seq<char>)>, x: (bool, Seq<char>)) -> Seq<(bool, Seq<char>)>
    decreases s.len(),
{
    if s.len() == 0 {
        seq![x]
    } else if !entry_le(s[0], x) {
        seq![x] + s
    } else {
        seq![s[0]] + listing_insert(s.drop_first(), x)
    }
}

/// The entries in listing order, entries that compare equal kept in the order
/// they came in (a stable sort).
pub open spec fn listing_order(s: Seq<(bool, Seq<char>)>) -> Seq<(bool, Seq<char>)>
    decreases s.len(),
{
    if s.len() == 0 {
        Seq::empty()
    } else {
        listing_insert(listing_order(s.drop_last()), s.last())
    }
}

proof fn lemma_entry_le_total(a: (bool, Seq<char>), b: (bool, Seq<char>))
    ensures
        entry_le(a, b) || entry_le(b, a),
{
    lemma_text_le_total(lowercase_of(a.1), lowercase_of(b.1));
}

proof fn lemma_entry_le_trans(a: (bool, Seq<char>), b: (bool, Seq<char>), c: (bool, Seq<char>))
    requires
        entry_le(a, b),
        entry_le(b, c),
    ensures
        entry_le(a, c),
{
    if a.0 == b.0 && b.0 == c.0 {
        lemma_text_le_trans(lowercase_of(a.1), lowercase_of(b.1), lowercase_of(c.1));
    }
}

/// Inserting before the first entry that comes after `x` is `listing_insert`.
proof fn lemma_listing_insert_at(s: Seq<(bool, Seq<char>)>, x: (bool, Seq<char>), p: int)
    requires
        0 <= p <= s.len(),
        forall|k: int| 0 <= k < p ==> entry_le(#[trigger] s[k], x),
        p < s.len() ==> !entry_le(s[p], x),
    ensures
        listing_insert(s, x) == s.insert(p, x),
    decreases s.len(),
{
    if s.len() == 0 {
        assert(s.insert(p, x) =~= seq![x]);
    } else if p == 0 {
        assert(s.insert(0, x) =~= seq![x] + s);
    } else {
        let t = s.drop_first();
        assert forall|k: int| 0 <= k < p - 1 implies entry_le(#[trigger] t[k], x) by {
            assert(t[k] == s[k + 1]);
        }
        lemma_listing_insert_at(t, x, p - 1);
        assert(s.insert(p, x) =~= seq![s[0]] + t.insert(p - 1, x));
    }
}

/// Comparison of two entries, the names given with their lower-case forms.
fn entry_le_exec(a_file: bool, a_low: &String, b_file: bool, b_low: &String) -> (r: bool)
    ensures
        r == ((!a_file && b_file) || (a_file == b_file && text_le(a_low@, b_low@))),
{
    if !a_file && b_file {
        true
    } else if a_file == b_file {
        text_le_exec(a_low.as_str(), b_low.as_str())
    } else {
        false
    }
}

/// Directory entries in listing order: directories first, then files, each
/// group by lower-cased name; entries that compare equal keep their order.
pub fn order_listing(items: &Vec<(bool, String)>) -> (r: Vec<(bool, String)>)
    ensures
        entries_view(r@) == listing_order(entries_view(items@)),
        sorted_listing(entries_view(r@)),
        entries_view(r@).to_multiset() == entries_view(items@).to_multiset(),
{
    let ghost src = entries_view(items@);
    let mut out: Vec<(bool, String)> = Vec::new();
    let mut lows: Vec<String> = Vec::new();
    let mut i: usize = 0;
    assert(src.take(0) =~= Seq::<(bool, Seq<char>)>::empty());
    assert(entries_view(out@) =~= Seq::<(bool, Seq<char>)>::empty());
    while i < items.len()
        invariant
            i <= items@.len(),
            src == entries_view(items@),
            lows@.len() == out@.len(),
            forall|k: int| 0 <= k < out@.len() ==> (#[trigger] lows@[k])@ == lowercase_of(out@[k].1@),
            entries_view(out@) == listing_order(src.take(i as int)),
            sorted_listing(entries_view(out@)),
            entries_view(out@).to_multiset() == src.take(i as int).to_multiset(),
        decreases items@.len() - i,
    {
        let ghost cur = entries_view(out@);
        let is_file = items[i].0;
        let name = items[i].1.clone();
        let low = to_lowercase(name.as_str());
        let ghost xv = (is_file, name@);
        assert(xv == src[i as int]);
        let mut p: usize = 0;
        while p < out.len() && entry_le_exec(out[p].0, &lows[p], is_file, &low)
            invariant
                p <= out@.len(),
                lows@.len() == out@.len(),
                forall|k: int| 0 <= k < out@.len() ==> (#[trigger] lows@[k])@ == lowercase_of(out@[k].1@),
                cur == entries_view(out@),
                low@ == lowercase_of(xv.1),
                xv == (is_file, name@),
                forall|k: int| 0 <= k < p ==> entry_le(#[trigger] cur[k], xv),
            decreases out@.len() - p,
        {
            assert(cur[p as int] == (out@[p as int].0, out@[p as int].1@));
            p += 1;
        }
        proof {
            if p < out@.len() {
                assert(cur[p as int] == (out@[p as int].0, out@[p as int].1@));
                assert(!entry_le(cur[p as int], xv));
            }
            lemma_listing_insert_at(cur, xv, p as int);
            let t = src.take(i + 1);
            assert(t.drop_last() =~= src.take(i as int));
            assert(t.last() == xv);
        }
        let ghost old_lows = lows@;
        out.insert(p, (is_file, name));
        lows.insert(p, low);
        proof {
            let next = entries_view(out@);
            assert(next =~= cur.insert(p as int, xv));
            assert forall|k: int| 0 <= k < out@.len() implies (#[trigger] lows@[k])@ == lowercase_of(out@[k].1@) by {
                if k < p {
                    assert(lows@[k] == old_lows[k]);
                } else if k > p {
                    assert(lows@[k] == old_lows[k - 1]);
                }
            }
            vstd::seq_lib::to_multiset_insert(cur, p as int, xv);
            assert(src.take(i + 1) =~= src.take(i as int).push(src[i as int]));
            vstd::seq_lib::to_multiset_build(src.take(i as int), src[i as int]);
            assert forall|a: int, b: int| 0 <= a < b < next.len() implies entry_le(
                #[trigger] next[a],
                #[trigger] next[b],
            ) by {
                if a < p && b < p {
                    assert(next[a] == cur[a] && next[b] == cur[b]);
                } else if a < p && b == p {
                    assert(next[a] == cur[a]);
                } else if a < p && b > p {
                    assert(next[a] == cur[a] && next[b] == cur[b - 1]);
                } else if a == p {
                    assert(next[b] == cur[b - 1]);
                    lemma_entry_le_total(cur[p as int], xv);
                    if b - 1 > p {
                        lemma_entry_le_trans(xv, cur[p as int], cur[b - 1]);
                    }
                } else {
                    assert(next[a] == cur[a - 1] && next[b] == cur[b - 1]);
                }
            }
        }
        i += 1;
    }
    assert(src.take(items@.len() as int) =~= src);
    out
}

/// The line shown for an entry: `  DIR  name` or `  FILE name`.
pub open spec fn listing_line(e: (bool, Seq<char>)) -> Seq<char> {
    "  "@ + (if e.0 {
        "FILE"@
    } else {
        "DIR "@
    }) + " "@ + e.1
}

/// Lines joined with newlines.
pub open spec fn join_lines(ls: Seq<Seq<char>>) -> Seq<char>
    decreases ls.len(),
{
    if ls.len() == 0 {
        Seq::empty()
    } else if ls.len() == 1 {
        ls[0]
    } else {
        join_lines(ls.drop_last()) + "\n"@ + ls.last()
    }
}

/// The listing of a directory shown as `display`, given its entries, or
/// `None` where they could not be read.
pub open spec fn directory_listing_model(display: Seq<char>, entries: Option<Seq<(bool, Seq<char>)>>) -> Seq<char> {
    let head = "Directory: "@ + display + "\n\n"@;
    match entries {
        None => head + "  (permission denied)"@,
        Some(es) => if es.len() == 0 {
            head + "  (empty directory)"@
        } else {
            let sorted = listing_order(es);
            head + join_lines(Seq::new(sorted.len(), |i: int| listing_line(sorted[i])))
        },
    }
}

/// The text shown for a mentioned directory (shown as `display`), given
/// what reading it gave: each entry's kind (`true` for anything but a
/// directory) and name, or `None` where it could not be read.
pub fn format_directory_listing(display: &str, entries: Option<Vec<(bool, String)>>) -> (r: String)
    ensures
        r@ == directory_listing_model(display@, match entries {
            Some(es) => Some(entries_view(es@)),
            None => None,
        }),
{
    let mut out = str_to_string("Directory: ");
    push_str(&mut out, display);
    push_str(&mut out, "\n\n");
    match entries {
        None => {
            push_str(&mut out, "  (permission denied)");
            out
        },
        Some(es) => {
            if es.len() == 0 {
                push_str(&mut out, "  (empty directory)");
                return out;
            }
            let sorted = order_listing(&es);
            let ghost sv = entries_view(sorted@);
            let ghost ls = Seq::new(sv.len(), |k: int| listing_line(sv[k]));
            let ghost head = out@;
            let mut i: usize = 0;
            assert(ls.take(0) =~= Seq::<Seq<char>>::empty());
            while i < sorted.len()
                invariant
                    i <= sorted@.len(),
                    sv == entries_view(sorted@),
                    ls == Seq::new(sv.len(), |k: int| listing_line(sv[k])),
                    out@ == head + join_lines(ls.take(i as int)),
                decreases sorted@.len() - i,
            {
                proof {
                    let t = ls.take(i + 1);
                    assert(t.drop_last() =~= ls.take(i as int));
                    assert(t.last() == ls[i as int]);
                    assert(sv[i as int] == (sorted@[i as int].0, sorted@[i as int].1@));
                }
                if i > 0 {
                    push_str(&mut out, "\n");
                }
                push_str(&mut out, "  ");
                if sorted[i].0 {
                    push_str(&mut out, "FILE");
                } else {
                    push_str(&mut out, "DIR ");
                }
                push_str(&mut out, " ");
                push_str(&mut out, sorted[i].1.as_str());
                proof {
                    if i == 0 {
                        assert(ls.take(1) =~= seq![ls[0]]);
                    }
                    assert(out@ =~= head + join_lines(ls.take(i + 1)));
                }
                i += 1;
            }
            assert(ls.take(sorted@.len() as int) =~= ls);
            out
        },
    }
}

} // verus!
