//! Orderings used when laying out rhyme groups: character spans compared
//! by start then end, a sorted de-duplicated span list, and a stable sort
//! order for a list of keys.

use vstd::prelude::*;

verus! {

/// `a` sorts before `b`: by start, then by end.
pub open spec fn span_lt(a: (usize, usize), b: (usize, usize)) -> bool {
    a.0 < b.0 || (a.0 == b.0 && a.1 < b.1)
}

pub open spec fn span_le(a: (usize, usize), b: (usize, usize)) -> bool {
    span_lt(a, b) || a == b
}

pub fn span_less(a: (usize, usize), b: (usize, usize)) -> (r: bool)
    ensures
        r == span_lt(a, b),
{
    a.0 < b.0 || (a.0 == b.0 && a.1 < b.1)
}

/// Strictly ascending, so free of repeats.
pub open spec fn strictly_sorted(s: Seq<(usize, usize)>) -> bool {
    forall|i: int, j: int| 0 <= i < j < s.len() ==> span_lt(#[trigger] s[i], #[trigger] s[j])
}

proof fn lemma_insert_to_set(s: Seq<(usize, usize)>, k: int, x: (usize, usize))
    requires
        0 <= k <= s.len(),
    ensures
        s.insert(k, x).to_set() == s.to_set().insert(x),
{
    let t = s.insert(k, x);
    assert forall|e: (usize, usize)| t.to_set().contains(e) implies s.to_set().insert(x).contains(
        e,
    ) by {
        let m = choose|m: int| 0 <= m < t.len() && t[m] == e;
        if m < k {
            assert(s[m] == e);
        } else if m > k {
            assert(s[m - 1] == e);
        }
    }
    assert forall|e: (usize, usize)| s.to_set().insert(x).contains(e) implies t.to_set().contains(
        e,
    ) by {
        if e == x {
            assert(t[k] == x);
        } else {
            let m = choose|m: int| 0 <= m < s.len() && s[m] == e;
            if m < k {
                assert(t[m] == e);
            } else {
                assert(t[m + 1] == e);
            }
        }
    }
    assert(t.to_set() =~= s.to_set().insert(x));
}

/// `v`'s spans in ascending order, each once.
pub fn sorted_unique(v: &Vec<(usize, usize)>) -> (r: Vec<(usize, usize)>)
    ensures
        strictly_sorted(r@),
        r@.to_set() == v@.to_set(),
{
    let mut r: Vec<(usize, usize)> = Vec::new();
    let mut i: usize = 0;
    while i < v.len()
        invariant
            i <= v.len(),
            strictly_sorted(r@),
            r@.to_set() == v@.take(i as int).to_set(),
        decreases v.len() - i,
    {
        let x = v[i];
        let mut k: usize = 0;
        while k < r.len() && span_less(r[k], x)
            invariant
                k <= r.len(),
                strictly_sorted(r@),
                forall|m: int| 0 <= m < k ==> span_lt(#[trigger] r@[m], x),
            decreases r.len() - k,
        {
            k += 1;
        }
        let ghost before = r@;
        if k < r.len() && r[k].0 == x.0 && r[k].1 == x.1 {
            proof {
                assert(r@[k as int] == x);
                assert(before.to_set().contains(x));
                assert(before.to_set().insert(x) =~= before.to_set());
            }
        } else {
            r.insert(k, x);
            proof {
                if k < before.len() {
                    assert(!span_lt(before[k as int], x));
                    assert(before[k as int] != x);
                    assert(span_lt(x, before[k as int]));
                }
                assert(r@ =~= before.insert(k as int, x));
                assert forall|a: int, b: int| 0 <= a < b < r@.len() implies span_lt(
                    #[trigger] r@[a],
                    #[trigger] r@[b],
                ) by {
                    if a < k && b > k {
                        assert(span_lt(before[a], x));
                        assert(r@[b] == before[b - 1]);
                        if b - 1 > k {
                            assert(span_lt(before[k as int], before[b - 1]));
                        }
                    } else if a == k && b > k {
                        assert(r@[b] == before[b - 1]);
                        if b - 1 > k {
                            assert(span_lt(before[k as int], before[b - 1]));
                        }
                    } else if a > k {
                        assert(span_lt(before[a - 1], before[b - 1]));
                    }
                }
                lemma_insert_to_set(before, k as int, x);
            }
        }
        proof {
            assert(v@.take(i + 1) =~= v@.take(i as int).push(x));
            v@.take(i as int).lemma_push_to_set_commute(x);
        }
        i += 1;
    }
    assert(v@.take(v.len() as int) =~= v@);
    r
}

/// Position `a` of `keys` sorts before position `b`: by key, then by
/// position, so equal keys keep their order.
pub open spec fn rank_lt(keys: Seq<(usize, usize)>, a: int, b: int) -> bool {
    span_lt(keys[a], keys[b]) || (keys[a] == keys[b] && a < b)
}

/// `order` lists every position of `keys` once, sorted by key, equal keys
/// in their input order.
pub open spec fn is_stable_order(keys: Seq<(usize, usize)>, order: Seq<usize>) -> bool {
    &&& order.len() == keys.len()
    &&& forall|i: int| 0 <= i < order.len() ==> (#[trigger] order[i] as int) < keys.len()
    &&& forall|i: int, j: int|
        0 <= i < j < order.len() ==> rank_lt(keys, #[trigger] order[i] as int, #[trigger] order[j] as int)
}

/// The stable sort order of `keys`.
pub fn stable_order(keys: &Vec<(usize, usize)>) -> (order: Vec<usize>)
    ensures
        is_stable_order(keys@, order@),
{
    let mut order: Vec<usize> = Vec::new();
    let mut idx: usize = 0;
    while idx < keys.len()
        invariant
            idx <= keys.len(),
            order.len() == idx,
            forall|i: int| 0 <= i < order.len() ==> (#[trigger] order@[i] as int) < idx,
            forall|i: int, j: int|
                0 <= i < j < order.len() ==> rank_lt(
                    keys@,
                    #[trigger] order@[i] as int,
                    #[trigger] order@[j] as int,
                ),
        decreases keys.len() - idx,
    {
        let key = keys[idx];
        let mut k: usize = 0;
        while k < order.len() && !span_less(key, keys[order[k]])
            invariant
                k <= order.len(),
                order.len() == idx,
                idx < keys.len(),
                key == keys@[idx as int],
                forall|i: int| 0 <= i < order.len() ==> (#[trigger] order@[i] as int) < idx,
                forall|m: int| 0 <= m < k ==> !span_lt(key, keys@[#[trigger] order@[m] as int]),
            decreases order.len() - k,
        {
            k += 1;
        }
        let ghost before = order@;
        order.insert(k, idx);
        proof {
            assert(order@ =~= before.insert(k as int, idx));
            assert forall|a: int, b: int| 0 <= a < b < order@.len() implies rank_lt(
                keys@,
                #[trigger] order@[a] as int,
                #[trigger] order@[b] as int,
            ) by {
                if a < k && b == k {
                    assert(!span_lt(key, keys@[before[a] as int]));
                } else if a < k && b > k {
                    assert(rank_lt(keys@, before[a] as int, before[b - 1] as int));
                } else if a == k && b > k {
                    assert(span_lt(key, keys@[before[k as int] as int]));
                    if b - 1 > k {
                        assert(rank_lt(keys@, before[k as int] as int, before[b - 1] as int));
                    }
                } else if a > k {
                    assert(rank_lt(keys@, before[a - 1] as int, before[b - 1] as int));
                }
            }
        }
        idx += 1;
    }
    order
}

} // verus!
