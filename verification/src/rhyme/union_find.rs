//! A union-find over a growable set of nodes, used to collapse pairwise
//! rhyme matches (possibly chained across several lines) into connected
//! groups for colouring. Union by rank with path compression.

use vstd::prelude::*;
use vstd::arithmetic::power2::{pow2, lemma2_to64, lemma_pow2_strictly_increases, lemma_pow2_unfold};
use vstd::set_lib::{set_int_range, lemma_int_range, lemma_len_subset, lemma_set_disjoint_lens};

verus! {

/// Every parent index is in range, and ranks strictly increase towards a
/// root.
pub open spec fn links_ok(parent: Seq<usize>, rank: Seq<u8>) -> bool {
    &&& parent.len() == rank.len()
    &&& forall|x: int| 0 <= x < parent.len() ==> (#[trigger] parent[x] as int) < parent.len()
    &&& forall|x: int|
        0 <= x < parent.len() && parent[x] != x ==> rank[x] < rank[#[trigger] parent[x] as int]
}

/// The root `x`'s parent chain ends at.
pub open spec fn root_of(parent: Seq<usize>, rank: Seq<u8>, x: int) -> int
    decreases 256 - rank[x],
    when links_ok(parent, rank) && 0 <= x < parent.len()
{
    if parent[x] as int == x {
        x
    } else {
        root_of(parent, rank, parent[x] as int)
    }
}

/// The nodes whose root is `r`.
pub open spec fn class_of(parent: Seq<usize>, rank: Seq<u8>, r: int) -> Set<int> {
    Set::new(|x: int| 0 <= x < parent.len() && root_of(parent, rank, x) == r)
}

/// A root of rank `k` has at least `2^k` nodes under it.
pub open spec fn ranked(parent: Seq<usize>, rank: Seq<u8>) -> bool {
    forall|r: int|
        0 <= r < parent.len() && parent[r] == r ==> pow2(rank[r] as nat) <= (#[trigger] class_of(
            parent,
            rank,
            r,
        )).len()
}

pub proof fn lemma_root(parent: Seq<usize>, rank: Seq<u8>, x: int)
    requires
        links_ok(parent, rank),
        0 <= x < parent.len(),
    ensures
        0 <= root_of(parent, rank, x) < parent.len(),
        parent[root_of(parent, rank, x)] == root_of(parent, rank, x),
        root_of(parent, rank, root_of(parent, rank, x)) == root_of(parent, rank, x),
        parent[x] == x ==> root_of(parent, rank, x) == x,
        parent[x] != x ==> root_of(parent, rank, x) == root_of(parent, rank, parent[x] as int),
        parent[x] != x ==> rank[x] < rank[root_of(parent, rank, x)],
        root_of(parent, rank, x) == x <==> parent[x] == x,
    decreases 256 - rank[x],
{
    if parent[x] as int != x {
        lemma_root(parent, rank, parent[x] as int);
    }
}

proof fn lemma_class_bounded(parent: Seq<usize>, rank: Seq<u8>, r: int)
    ensures
        class_of(parent, rank, r).finite(),
        class_of(parent, rank, r).len() <= parent.len(),
{
    lemma_int_range(0, parent.len() as int);
    assert(class_of(parent, rank, r).subset_of(set_int_range(0, parent.len() as int)));
    lemma_len_subset(class_of(parent, rank, r), set_int_range(0, parent.len() as int));
}

/// Every rank is below 64 (a root of rank `k` covers `2^k` nodes).
proof fn lemma_rank_small(parent: Seq<usize>, rank: Seq<u8>, x: int)
    requires
        links_ok(parent, rank),
        ranked(parent, rank),
        0 <= x < parent.len(),
        parent.len() <= usize::MAX,
    ensures
        rank[x] < 64,
{
    lemma_root(parent, rank, x);
    let r = root_of(parent, rank, x);
    lemma_class_bounded(parent, rank, r);
    assert(pow2(rank[r] as nat) <= class_of(parent, rank, r).len());
    lemma2_to64();
    if rank[r] >= 64 {
        if rank[r] > 64 {
            lemma_pow2_strictly_increases(64, rank[r] as nat);
        }
    }
}

/// Re-pointing nodes straight at their root keeps every node's root.
proof fn lemma_compress(p1: Seq<usize>, p2: Seq<usize>, rank: Seq<u8>, y: int)
    requires
        links_ok(p1, rank),
        links_ok(p2, rank),
        p1.len() == p2.len(),
        0 <= y < p1.len(),
        forall|z: int|
            0 <= z < p1.len() ==> #[trigger] p2[z] == p1[z] || p2[z] as int == root_of(
                p1,
                rank,
                z,
            ),
    ensures
        root_of(p2, rank, y) == root_of(p1, rank, y),
    decreases 256 - rank[y],
{
    lemma_root(p1, rank, y);
    lemma_root(p2, rank, y);
    if p2[y] as int != y {
        let q = p2[y] as int;
        lemma_compress(p1, p2, rank, q);
        lemma_root(p1, rank, q);
    }
}

/// Hanging root `c` under root `t` sends every node of `c`'s class to
/// `t` and leaves every other root alone.
proof fn lemma_link(p1: Seq<usize>, r1: Seq<u8>, p2: Seq<usize>, r2: Seq<u8>, c: int, t: int, y: int)
    requires
        links_ok(p1, r1),
        links_ok(p2, r2),
        p1.len() == p2.len(),
        0 <= c < p1.len(),
        0 <= t < p1.len(),
        c != t,
        p1[c] == c,
        p1[t] == t,
        p2 == p1.update(c, t as usize),
        forall|z: int| 0 <= z < p1.len() && z != t ==> r2[z] == r1[z],
        r2[t] >= r1[t],
        0 <= y < p1.len(),
    ensures
        root_of(p2, r2, y) == if root_of(p1, r1, y) == c {
            t
        } else {
            root_of(p1, r1, y)
        },
    decreases 256 - r1[y],
{
    lemma_root(p1, r1, y);
    lemma_root(p2, r2, y);
    lemma_root(p2, r2, t);
    if y == c {
        lemma_root(p2, r2, c);
    } else if p1[y] as int != y {
        lemma_link(p1, r1, p2, r2, c, t, p1[y] as int);
    }
}

/// A union-find over nodes `0..size()`.
pub struct UnionFind {
    parent: Vec<usize>,
    rank: Vec<u8>,
}

impl UnionFind {
    /// How many nodes there are.
    pub closed spec fn size(&self) -> nat {
        self.parent@.len()
    }

    pub closed spec fn wf(&self) -> bool {
        &&& links_ok(self.parent@, self.rank@)
        &&& ranked(self.parent@, self.rank@)
    }

    /// The representative of `x`'s group.
    pub closed spec fn rep(&self, x: int) -> int {
        root_of(self.parent@, self.rank@, x)
    }

    /// Each node's rank.
    pub closed spec fn ranks(&self) -> Seq<u8> {
        self.rank@
    }

    /// How far `x` can still climb before its rank runs out.
    pub closed spec fn height(&self, x: int) -> int {
        256 - self.rank@[x]
    }

    /// Whether `x` and `y` are in one group.
    pub open spec fn same(&self, x: int, y: int) -> bool {
        self.rep(x) == self.rep(y)
    }

    pub fn new() -> (u: Self)
        ensures
            u.wf(),
            u.size() == 0,
    {
        UnionFind { parent: Vec::new(), rank: Vec::new() }
    }

    /// Add a node in a group of its own; returns its index.
    pub fn push(&mut self) -> (id: usize)
        requires
            old(self).wf(),
        ensures
            final(self).wf(),
            final(self).size() == old(self).size() + 1,
            id == old(self).size(),
            forall|x: int, y: int|
                0 <= x < old(self).size() && 0 <= y < old(self).size() ==> (final(self).same(x, y)
                    <==> old(self).same(x, y)),
            forall|x: int| 0 <= x < old(self).size() ==> !final(self).same(id as int, x),
    {
        let ghost p1 = self.parent@;
        let ghost r1 = self.rank@;
        let id = self.parent.len();
        self.parent.push(id);
        self.rank.push(0);
        let ghost p2 = self.parent@;
        let ghost r2 = self.rank@;
        proof {
            assert(links_ok(p2, r2));
            assert forall|x: int| 0 <= x < p1.len() implies #[trigger] root_of(p2, r2, x)
                == root_of(p1, r1, x) by {
                self.lemma_extend(p1, r1, x);
            }
            lemma_root(p2, r2, id as int);
            assert forall|x: int| 0 <= x < p1.len() implies #[trigger] root_of(p2, r2, x) != id by {
                lemma_root(p1, r1, x);
            }
            assert forall|r: int| 0 <= r < p2.len() && p2[r] == r implies pow2(r2[r] as nat)
                <= (#[trigger] class_of(p2, r2, r)).len() by {
                if r == id {
                    assert(class_of(p2, r2, r) =~= set![id as int]);
                    lemma2_to64();
                } else {
                    assert(class_of(p2, r2, r) =~= class_of(p1, r1, r));
                }
            }
        }
        id
    }

    proof fn lemma_extend(&self, p1: Seq<usize>, r1: Seq<u8>, x: int)
        requires
            links_ok(p1, r1),
            links_ok(self.parent@, self.rank@),
            self.parent@ == p1.push(p1.len() as usize),
            self.rank@ == r1.push(0),
            0 <= x < p1.len(),
        ensures
            root_of(self.parent@, self.rank@, x) == root_of(p1, r1, x),
        decreases 256 - r1[x],
    {
        lemma_root(p1, r1, x);
        lemma_root(self.parent@, self.rank@, x);
        if p1[x] as int != x {
            self.lemma_extend(p1, r1, p1[x] as int);
        }
    }

    /// The representative of `x`'s group, re-pointing `x`'s chain straight
    /// at it on the way.
    pub fn find(&mut self, x: usize) -> (r: usize)
        requires
            old(self).wf(),
            x < old(self).size(),
        ensures
            final(self).wf(),
            final(self).size() == old(self).size(),
            r == old(self).rep(x as int),
            final(self).ranks() == old(self).ranks(),
            forall|y: int| 0 <= y < old(self).size() ==> #[trigger] final(self).rep(y) == old(
                self,
            ).rep(y),
        decreases old(self).height(x as int),
    {
        let ghost p0 = self.parent@;
        let ghost rk = self.rank@;
        proof {
            lemma_root(p0, rk, x as int);
        }
        let ghost s0 = *self;
        let p = self.parent[x];
        if p != x {
            let r = self.find(p);
            let ghost p1 = self.parent@;
            let ghost s1 = *self;
            proof {
                assert forall|y: int| 0 <= y < p0.len() implies #[trigger] root_of(p1, rk, y)
                    == root_of(p0, rk, y) by {
                    assert(s1.rep(y) == s0.rep(y));
                }
            }
            self.parent.set(x, r);
            proof {
                let p2 = self.parent@;
                assert(links_ok(p2, rk)) by {
                    lemma_root(p1, rk, x as int);
                    assert(root_of(p1, rk, x as int) == root_of(p0, rk, x as int));
                }
                assert forall|y: int| 0 <= y < p0.len() implies #[trigger] root_of(p2, rk, y)
                    == root_of(p0, rk, y) by {
                    assert forall|z: int| 0 <= z < p1.len() implies #[trigger] p2[z] == p1[z]
                        || p2[z] as int == root_of(p1, rk, z) by {}
                    lemma_compress(p1, p2, rk, y);
                }
                assert forall|q: int| 0 <= q < p2.len() && p2[q] == q implies pow2(rk[q] as nat)
                    <= (#[trigger] class_of(p2, rk, q)).len() by {
                    lemma_root(p2, rk, q);
                    lemma_root(p0, rk, q);
                    assert(class_of(p2, rk, q) =~= class_of(p0, rk, q));
                }
            }
        }
        self.parent[x]
    }

    /// Merge the groups of `a` and `b`.
    pub fn union(&mut self, a: usize, b: usize)
        requires
            old(self).wf(),
            a < old(self).size(),
            b < old(self).size(),
        ensures
            final(self).wf(),
            final(self).size() == old(self).size(),
            forall|x: int, y: int|
                0 <= x < old(self).size() && 0 <= y < old(self).size() ==> (final(self).same(x, y)
                    <==> (old(self).same(x, y) || (old(self).same(x, a as int) && old(self).same(
                    y,
                    b as int,
                )) || (old(self).same(x, b as int) && old(self).same(y, a as int)))),
    {
        let ghost p0 = self.parent@;
        let ghost r0 = self.rank@;
        let _n = self.parent.len();
        let ghost s0 = *self;
        assert(s0 == *old(self));
        let ra = self.find(a);
        let ghost pm = self.parent@;
        let ghost sm = *self;
        let rb = self.find(b);
        let ghost s1 = *self;
        proof {
            assert forall|y: int| 0 <= y < p0.len() implies #[trigger] s1.rep(y) == s0.rep(y) by {
                assert(sm.rep(y) == s0.rep(y));
                assert(s1.rep(y) == sm.rep(y));
            }
        }
        if ra == rb {
            return;
        }
        let ghost p1 = self.parent@;
        let ghost r1 = self.rank@;
        proof {
            lemma_root(p0, r0, a as int);
            lemma_root(p0, r0, b as int);
            assert(sm.rep(a as int) == s0.rep(a as int));
            assert(s1.rep(ra as int) == sm.rep(ra as int));
            assert(s1.rep(b as int) == sm.rep(b as int));
            lemma_root(pm, r1, a as int);
            lemma_root(pm, r1, ra as int);
            lemma_root(p1, r1, ra as int);
            lemma_root(p1, r1, b as int);
            lemma_root(p1, r1, rb as int);
            assert(p1[ra as int] == ra);
            assert(p1[rb as int] == rb);
        }
        let (child, target): (usize, usize) = if self.rank[ra] < self.rank[rb] {
            self.parent.set(ra, rb);
            (ra, rb)
        } else if self.rank[ra] > self.rank[rb] {
            self.parent.set(rb, ra);
            (rb, ra)
        } else {
            proof {
                lemma_rank_small(p1, r1, ra as int);
            }
            self.parent.set(rb, ra);
            let k = self.rank[ra];
            self.rank.set(ra, k + 1);
            (rb, ra)
        };
        proof {
            let p2 = self.parent@;
            let r2 = self.rank@;
            let c = child as int;
            let t = target as int;
            assert(links_ok(p2, r2)) by {
                assert forall|x: int| 0 <= x < p2.len() && p2[x] != x implies r2[x] < r2[
                    #[trigger] p2[x] as int] by {
                    if x != c {
                        assert(p2[x] == p1[x]);
                    }
                }
            }
            assert forall|y: int| 0 <= y < p1.len() implies #[trigger] root_of(p2, r2, y) == (if root_of(
                p1,
                r1,
                y,
            ) == c {
                t
            } else {
                root_of(p1, r1, y)
            }) by {
                lemma_link(p1, r1, p2, r2, c, t, y);
            }
            assert(ra as int == s0.rep(a as int));
            assert(rb as int == s0.rep(b as int));
            assert forall|x: int, y: int|
                #![trigger self.rep(x), self.rep(y)]
                0 <= x < p0.len() && 0 <= y < p0.len() implies (self.same(x, y) <==> (s0.same(x, y)
                    || (s0.same(x, a as int) && s0.same(y, b as int)) || (s0.same(x, b as int)
                    && s0.same(y, a as int)))) by {
                assert(s1.rep(x) == s0.rep(x));
                assert(s1.rep(y) == s0.rep(y));
                assert(root_of(p2, r2, x) == root_of(p2, r2, x));
                assert(root_of(p2, r2, y) == root_of(p2, r2, y));
            }
            lemma_class_bounded(p1, r1, c);
            lemma_class_bounded(p1, r1, t);
            assert forall|q: int| 0 <= q < p2.len() && p2[q] == q implies pow2(r2[q] as nat)
                <= (#[trigger] class_of(p2, r2, q)).len() by {
                if q == t {
                    let ct = class_of(p1, r1, t);
                    let cc = class_of(p1, r1, c);
                    assert(class_of(p2, r2, q) =~= ct + cc);
                    assert(ct.disjoint(cc));
                    lemma_set_disjoint_lens(ct, cc);
                    if r2[t] != r1[t] {
                        lemma_pow2_unfold(r2[t] as nat);
                    }
                } else {
                    assert(q != c);
                    assert(p1[q] == q);
                    assert(class_of(p2, r2, q) =~= class_of(p1, r1, q));
                }
            }
        }
    }
}

} // verus!
