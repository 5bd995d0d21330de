//! Ordering text the way `String`'s `Ord` does (by character codes, a proper
//! prefix first) and sorting lists of names.
use vstd::prelude::*;
use crate::text::str_chars;

verus! {

broadcast use vstd::std_specs::vec::group_vec_axioms;

/// `a` comes no later than `b` in lexicographic order of character codes (a
/// proper prefix comes first).
pub open spec fn text_le(a: Seq<char>, b: Seq<char>) -> bool
    decreases a.len(),
{
    if a.len() == 0 {
        true
    } else if b.len() == 0 {
        false
    } else if (a[0] as u32) != (b[0] as u32) {
        (a[0] as u32) < (b[0] as u32)
    } else {
        text_le(a.drop_first(), b.drop_first())
    }
}

/// Either of two texts comes no later than the other.
pub proof fn lemma_text_le_total(a: Seq<char>, b: Seq<char>)
    ensures
        text_le(a, b) || text_le(b, a),
    decreases a.len(),
{
    if a.len() > 0 && b.len() > 0 && (a[0] as u32) == (b[0] as u32) {
        lemma_text_le_total(a.drop_first(), b.drop_first());
    }
}

/// The order is transitive.
pub proof fn lemma_text_le_trans(a: Seq<char>, b: Seq<char>, c: Seq<char>)
    requires
        text_le(a, b),
        text_le(b, c),
    ensures
        text_le(a, c),
    decreases a.len(),
{
    if a.len() > 0 && b.len() > 0 && c.len() > 0 && (a[0] as u32) == (b[0] as u32) && (b[0] as u32) == (c[0] as u32) {
        lemma_text_le_trans(a.drop_first(), b.drop_first(), c.drop_first());
    }
}

/// Texts that each come no later than the other are equal.
pub proof fn lemma_text_le_antisym(a: Seq<char>, b: Seq<char>)
    requires
        text_le(a, b),
        text_le(b, a),
    ensures
        a == b,
    decreases a.len(),
{
    if a.len() > 0 && b.len() > 0 {
        lemma_text_le_antisym(a.drop_first(), b.drop_first());
        vstd::utf8::char_u32_cast(a[0], a[0] as u32);
        vstd::utf8::char_u32_cast(b[0], b[0] as u32);
        assert(a[0] == b[0]);
        assert(a =~= seq![a[0]] + a.drop_first());
        assert(b =~= seq![b[0]] + b.drop_first());
    } else {
        assert(a =~= b);
    }
}

/// Texts in order.
pub open spec fn sorted_texts(s: Seq<Seq<char>>) -> bool {
    forall|i: int, j: int| 0 <= i < j < s.len() ==> text_le(#[trigger] s[i], #[trigger] s[j])
}

/// Whether `a` comes no later than `b`.
pub fn text_le_exec(a: &str, b: &str) -> (r: bool)
    ensures
        r == text_le(a@, b@),
{
    let va = str_chars(a);
    let vb = str_chars(b);
    let mut i: usize = 0;
    assert(va@.skip(0) =~= va@);
    assert(vb@.skip(0) =~= vb@);
    while i < va.len() && i < vb.len() && (va[i] as u32) == (vb[i] as u32)
        invariant
            i <= va@.len(),
            i <= vb@.len(),
            text_le(va@.skip(i as int), vb@.skip(i as int)) == text_le(a@, b@),
        decreases va@.len() - i,
    {
        assert(va@.skip(i as int).drop_first() =~= va@.skip(i + 1));
        assert(vb@.skip(i as int).drop_first() =~= vb@.skip(i + 1));
        i += 1;
    }
    if i == va.len() {
        true
    } else if i == vb.len() {
        false
    } else {
        (va[i] as u32) < (vb[i] as u32)
    }
}

/// The names sorted (`sort` on `String`s).
pub fn sort_texts(v: Vec<String>) -> (r: Vec<String>)
    ensures
        sorted_texts(Seq::new(r@.len(), |i: int| r@[i]@)),
        Seq::new(r@.len(), |i: int| r@[i]@).to_multiset() == Seq::new(v@.len(), |i: int| v@[i]@).to_multiset(),
{
    let ghost src = Seq::new(v@.len(), |i: int| v@[i]@);
    let mut out: Vec<String> = Vec::new();
    let mut i: usize = 0;
    assert(src.take(0) =~= Seq::<Seq<char>>::empty());
    assert(Seq::new(out@.len(), |k: int| out@[k]@) =~= Seq::<Seq<char>>::empty());
    while i < v.len()
        invariant
            i <= v@.len(),
            src == Seq::new(v@.len(), |k: int| v@[k]@),
            sorted_texts(Seq::new(out@.len(), |k: int| out@[k]@)),
            Seq::new(out@.len(), |k: int| out@[k]@).to_multiset() == src.take(i as int).to_multiset(),
        decreases v@.len() - i,
    {
        let ghost cur = Seq::new(out@.len(), |k: int| out@[k]@);
        let x = v[i].clone();
        let mut p: usize = 0;
        while p < out.len() && !text_le_exec(x.as_str(), out[p].as_str())
            invariant
                p <= out@.len(),
                cur == Seq::new(out@.len(), |k: int| out@[k]@),
                forall|k: int| 0 <= k < p ==> !text_le(x@, #[trigger] cur[k]),
            decreases out@.len() - p,
        {
            p += 1;
        }
        let ghost xv = x@;
        out.insert(p, x);
        proof {
            let next = Seq::new(out@.len(), |k: int| out@[k]@);
            assert(next =~= cur.insert(p as int, xv));
            vstd::seq_lib::to_multiset_insert(cur, p as int, xv);
            assert(src.take(i + 1) =~= src.take(i as int).push(src[i as int]));
            vstd::seq_lib::to_multiset_build(src.take(i as int), src[i as int]);
            assert forall|a: int, b: int| 0 <= a < b < next.len() implies text_le(
                #[trigger] next[a],
                #[trigger] next[b],
            ) by {
                if a < p && b < p {
                    assert(next[a] == cur[a] && next[b] == cur[b]);
                } else if a < p && b == p {
                    assert(next[a] == cur[a]);
                    lemma_text_le_total(xv, cur[a]);
                } else if a < p && b > p {
                    assert(next[a] == cur[a] && next[b] == cur[b - 1]);
                    if a < b - 1 {
                    } else {
                    }
                } else if a == p {
                    assert(next[b] == cur[b - 1]);
                    assert(p < out@.len() - 1);
                    assert(text_le(xv, cur[p as int]));
                    if b - 1 > p {
                        lemma_text_le_trans(xv, cur[p as int], cur[b - 1]);
                    }
                } else {
                    assert(next[a] == cur[a - 1] && next[b] == cur[b - 1]);
                }
            }
        }
        i += 1;
    }
    assert(src.take(v@.len() as int) =~= src);
    out
}

} // verus!
