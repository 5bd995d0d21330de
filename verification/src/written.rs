//! Objects written from a fixed list of candidate members, each written or
//! not: what such an object holds under each key.
use vstd::prelude::*;
use crate::ordered::{first_text_key_at, text_map_get};

verus! {

/// The members written for candidates `(key, written?, value)`, in order.
pub open spec fn written<V>(cs: Seq<(Seq<char>, bool, V)>) -> Seq<(Seq<char>, V)>
    decreases cs.len(),
{
    if cs.len() == 0 {
        Seq::empty()
    } else {
        let acc = written(cs.drop_last());
        if cs.last().1 {
            acc.push((cs.last().0, cs.last().2))
        } else {
            acc
        }
    }
}

/// The value the candidates give key `k`: that of the last candidate under
/// `k` when it is written.
pub open spec fn cand_value<V>(cs: Seq<(Seq<char>, bool, V)>, k: Seq<char>) -> Option<V>
    decreases cs.len(),
{
    if cs.len() == 0 {
        None
    } else if cs.last().0 == k {
        if cs.last().1 {
            Some(cs.last().2)
        } else {
            None
        }
    } else {
        cand_value(cs.drop_last(), k)
    }
}

/// No two candidates share a key.
pub open spec fn distinct_keys<V>(cs: Seq<(Seq<char>, bool, V)>) -> bool {
    forall|i: int, j: int| 0 <= i < j < cs.len() ==> #[trigger] cs[i].0 != #[trigger] cs[j].0
}

/// Looking up `q` after appending member `e`: an earlier member under `q`
/// wins, else `e` when it has key `q`.
pub proof fn lemma_text_get_push<V>(s: Seq<(Seq<char>, V)>, e: (Seq<char>, V), q: Seq<char>)
    ensures
        text_map_get(s.push(e), q) == match text_map_get(s, q) {
            Some(x) => Some(x),
            None => if e.0 == q {
                Some(e.1)
            } else {
                None
            },
        },
{
    let t = s.push(e);
    if exists|j: int| first_text_key_at(s, q, j) {
        let j = choose|j: int| first_text_key_at(s, q, j);
        assert(first_text_key_at(t, q, j)) by {
            assert forall|i: int| 0 <= i < j implies #[trigger] t[i].0 != q by {
                assert(t[i] == s[i]);
            }
        }
        let w = choose|w: int| first_text_key_at(t, q, w);
        lemma_first_unique(t, q, w, j);
    } else {
        assert forall|i: int| 0 <= i < s.len() implies #[trigger] t[i].0 != q by {
            assert(t[i] == s[i]);
            if s[i].0 == q {
                lemma_first_exists(s, q, i);
            }
        }
        if e.0 == q {
            assert(first_text_key_at(t, q, s.len() as int));
            let w = choose|w: int| first_text_key_at(t, q, w);
            lemma_first_unique(t, q, w, s.len() as int);
        } else {
            if exists|w: int| first_text_key_at(t, q, w) {
                let w = choose|w: int| first_text_key_at(t, q, w);
                if w == s.len() {
                    assert(t[w] == e);
                }
            }
        }
    }
}

proof fn lemma_first_unique<V>(s: Seq<(Seq<char>, V)>, k: Seq<char>, a: int, b: int)
    requires
        first_text_key_at(s, k, a),
        first_text_key_at(s, k, b),
    ensures
        a == b,
{
    if a < b {
        assert(s[a].0 != k);
    } else if b < a {
        assert(s[b].0 != k);
    }
}

proof fn lemma_first_exists<V>(s: Seq<(Seq<char>, V)>, k: Seq<char>, w: int)
    requires
        0 <= w < s.len(),
        s[w].0 == k,
    ensures
        exists|j: int| first_text_key_at(s, k, j),
    decreases w,
{
    if exists|i: int| 0 <= i < w && s[i].0 == k {
        let i = choose|i: int| 0 <= i < w && s[i].0 == k;
        lemma_first_exists(s, k, i);
    } else {
        assert(first_text_key_at(s, k, w));
    }
}

proof fn lemma_cand_absent<V>(cs: Seq<(Seq<char>, bool, V)>, k: Seq<char>)
    requires
        forall|i: int| 0 <= i < cs.len() ==> #[trigger] cs[i].0 != k,
    ensures
        cand_value(cs, k) is None,
        text_map_get(written(cs), k) is None,
    decreases cs.len(),
{
    if cs.len() > 0 {
        assert(cs.last().0 != k);
        lemma_cand_absent(cs.drop_last(), k);
        lemma_text_get_push(written(cs.drop_last()), (cs.last().0, cs.last().2), k);
    }
}

/// Looking a key up in written candidates finds what the candidates give it.
pub proof fn lemma_written_lookup<V>(cs: Seq<(Seq<char>, bool, V)>, k: Seq<char>)
    requires
        distinct_keys(cs),
    ensures
        text_map_get(written(cs), k) == cand_value(cs, k),
    decreases cs.len(),
{
    if cs.len() > 0 {
        let init = cs.drop_last();
        assert(distinct_keys(init)) by {
            assert forall|i: int, j: int| 0 <= i < j < init.len() implies #[trigger] init[i].0
                != #[trigger] init[j].0 by {
                assert(init[i] == cs[i] && init[j] == cs[j]);
            }
        }
        lemma_written_lookup(init, k);
        lemma_text_get_push(written(init), (cs.last().0, cs.last().2), k);
        if cs.last().0 == k {
            assert forall|i: int| 0 <= i < init.len() implies #[trigger] init[i].0 != k by {
                assert(init[i] == cs[i]);
                assert(cs[i].0 != cs[cs.len() - 1].0);
            }
            lemma_cand_absent(init, k);
        }
    }
}

/// The candidate at position `j` decides what key `cs[j].0` holds.
pub proof fn lemma_cand_at<V>(cs: Seq<(Seq<char>, bool, V)>, j: int, k: Seq<char>)
    requires
        distinct_keys(cs),
        0 <= j < cs.len(),
        cs[j].0 == k,
    ensures
        cand_value(cs, k) == if cs[j].1 {
            Some(cs[j].2)
        } else {
            None
        },
    decreases cs.len(),
{
    if j < cs.len() - 1 {
        let init = cs.drop_last();
        assert(cs[j].0 != cs[cs.len() - 1].0);
        assert(distinct_keys(init)) by {
            assert forall|a: int, b: int| 0 <= a < b < init.len() implies #[trigger] init[a].0
                != #[trigger] init[b].0 by {
                assert(init[a] == cs[a] && init[b] == cs[b]);
            }
        }
        assert(init[j] == cs[j]);
        lemma_cand_at(init, j, k);
    }
}

/// Writing the candidates one more step.
pub proof fn lemma_written_step<V>(cs: Seq<(Seq<char>, bool, V)>, j: int)
    requires
        0 <= j < cs.len(),
    ensures
        written(cs.take(j + 1)) == if cs[j].1 {
            written(cs.take(j)).push((cs[j].0, cs[j].2))
        } else {
            written(cs.take(j))
        },
{
    let t = cs.take(j + 1);
    assert(t.drop_last() =~= cs.take(j));
    assert(t.last() == cs[j]);
}

} // verus!
