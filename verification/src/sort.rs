//! A stable ordering of items by a text key, in the order `String`'s `Ord`
//! compares (code point by code point).

use vstd::prelude::*;
use crate::strmap::{compare_chars, lemma_lt_irrefl, lemma_lt_total, lemma_lt_trans, seq_lt};
use crate::text::char_views;

verus! {

/// Position `a` of `keys` sorts before position `b`: by key, then by
/// position, so equal keys keep their order.
pub open spec fn text_rank_lt(keys: Seq<Seq<char>>, a: int, b: int) -> bool {
    seq_lt(keys[a], keys[b]) || (keys[a] == keys[b] && a < b)
}

/// `order` lists every position of `keys` once, sorted by key, equal keys
/// in their input order: the order a stable sort by key leaves them in.
pub open spec fn is_text_stable_order(keys: Seq<Seq<char>>, order: Seq<usize>) -> bool {
    &&& order.len() == keys.len()
    &&& forall|i: int| 0 <= i < order.len() ==> (#[trigger] order[i] as int) < keys.len()
    &&& forall|i: int, j: int|
        0 <= i < j < order.len() ==> text_rank_lt(
            keys,
            #[trigger] order[i] as int,
            #[trigger] order[j] as int,
        )
}

/// The positions of `keys` in stably sorted key order.
pub fn stable_text_order(keys: &Vec<Vec<char>>) -> (order: Vec<usize>)
    ensures
        is_text_stable_order(char_views(keys@), order@),
{
    let ghost ks = char_views(keys@);
    let mut order: Vec<usize> = Vec::new();
    let mut i: usize = 0;
    while i < keys.len()
        invariant
            i <= keys.len(),
            ks == char_views(keys@),
            order@.len() == i,
            forall|m: int| 0 <= m < order@.len() ==> (#[trigger] order@[m] as int) < i,
            forall|a: int, b: int|
                0 <= a < b < order@.len() ==> text_rank_lt(
                    ks,
                    #[trigger] order@[a] as int,
                    #[trigger] order@[b] as int,
                ),
        decreases keys.len() - i,
    {
        let mut p: usize = 0;
        assert(ks[i as int] == keys@[i as int]@);
        while p < order.len() && !compare_chars(keys[i].as_slice(), keys[order[p]].as_slice()).0
            invariant
                i < keys.len(),
                p <= order@.len(),
                ks == char_views(keys@),
                forall|m: int| 0 <= m < order@.len() ==> (#[trigger] order@[m] as int) < i,
                forall|m: int| 0 <= m < p ==> !seq_lt(ks[i as int], #[trigger] ks[order@[m] as int]),
            decreases order@.len() - p,
        {
            assert(ks[order@[p as int] as int] == keys@[order@[p as int] as int]@);
            p += 1;
        }
        let ghost before = order@;
        proof {
            if p < before.len() {
                assert(ks[before[p as int] as int] == keys@[before[p as int] as int]@);
                assert(seq_lt(ks[i as int], ks[before[p as int] as int]));
            }
        }
        order.insert(p, i);
        proof {
            assert(order@ =~= before.insert(p as int, i));
            assert forall|a: int, b: int| 0 <= a < b < order@.len() implies text_rank_lt(
                ks,
                #[trigger] order@[a] as int,
                #[trigger] order@[b] as int,
            ) by {
                if a < p && b == p {
                    let x = before[a] as int;
                    lemma_lt_total(ks[x], ks[i as int]);
                } else if a < p && b > p {
                    assert(order@[b] == before[b - 1]);
                } else if a == p && b > p {
                    let y = before[b - 1] as int;
                    let z = before[p as int] as int;
                    assert(order@[b] == before[b - 1]);
                    if b - 1 > p {
                        assert(text_rank_lt(ks, z, y));
                        if seq_lt(ks[z], ks[y]) {
                            lemma_lt_trans(ks[i as int], ks[z], ks[y]);
                        }
                    }
                } else if a > p {
                    assert(order@[a] == before[a - 1]);
                    assert(order@[b] == before[b - 1]);
                }
            }
        }
        i += 1;
    }
    order
}

/// No position occurs twice in a stable order.
pub proof fn lemma_stable_order_distinct(keys: Seq<Seq<char>>, order: Seq<usize>, i: int, j: int)
    requires
        is_text_stable_order(keys, order),
        0 <= i < j < order.len(),
    ensures
        order[i] != order[j],
{
    assert(text_rank_lt(keys, order[i] as int, order[j] as int));
    if order[i] == order[j] {
        lemma_lt_irrefl(keys[order[i] as int]);
    }
}

} // verus!
