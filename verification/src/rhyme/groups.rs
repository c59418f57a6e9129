//! Collapsing detected rhymes into colour groups. Every detected rhyme
//! links syllables of one line to syllables of another (or the same) line;
//! all syllables of one rhyme instance render in one colour, so the links
//! are merged transitively, and each resulting group of two or more
//! syllables becomes one colour group — its members' character spans,
//! ascending — with groups ordered by their earliest span so recomputes
//! keep assigning the same colours to the same rhymes.

use vstd::prelude::*;
use super::order::{is_stable_order, rank_lt, sorted_unique, span_le, stable_order, strictly_sorted};
use vstd::set_lib::{set_int_range, lemma_int_range, lemma_subset_equality};
use super::union_find::UnionFind;

verus! {

/// A syllable: its line and its index among the line's syllables.
pub type Syl = (usize, usize);

/// One detected rhyme: syllables `a_start..a_end` of line `i` align, in
/// order, with syllables `b_start..b_end` of line `j` (as far as the
/// shorter of the two runs).
#[derive(Clone, Copy)]
pub struct RhymeSpan {
    pub i: usize,
    pub a_start: usize,
    pub a_end: usize,
    pub j: usize,
    pub b_start: usize,
    pub b_end: usize,
}

/// How many syllable pairs a rhyme aligns.
pub open spec fn zip_len(s: RhymeSpan) -> nat {
    let la = if s.a_end >= s.a_start { s.a_end - s.a_start } else { 0 };
    let lb = if s.b_end >= s.b_start { s.b_end - s.b_start } else { 0 };
    (if la <= lb { la } else { lb }) as nat
}

/// The links one rhyme makes, for its first `k` aligned pairs: each pair
/// is linked, and each pair's first syllable to the one before it, so the
/// whole rhyme ends up in one group.
pub open spec fn span_links(s: RhymeSpan, k: nat) -> Seq<(Syl, Syl)>
    decreases k,
{
    if k == 0 {
        seq![]
    } else {
        let m = (k - 1) as nat;
        let pair = ((s.i, (s.a_start + m) as usize), (s.j, (s.b_start + m) as usize));
        let chain = if m > 0 {
            seq![((s.i, (s.a_start + m - 1) as usize), (s.i, (s.a_start + m) as usize))]
        } else {
            seq![]
        };
        span_links(s, m) + seq![pair] + chain
    }
}

/// Every link of a list of rhymes, in order.
pub open spec fn all_links(spans: Seq<RhymeSpan>) -> Seq<(Syl, Syl)>
    decreases spans.len(),
{
    if spans.len() == 0 {
        seq![]
    } else {
        all_links(spans.drop_last()) + span_links(spans.last(), zip_len(spans.last()))
    }
}

/// Whether `x` and `y` end up in one group once `links` are merged in
/// order.
pub open spec fn merged(links: Seq<(Syl, Syl)>, x: Syl, y: Syl) -> bool
    decreases links.len(),
{
    if links.len() == 0 {
        x == y
    } else {
        let (a, b) = links.last();
        let p = links.drop_last();
        merged(p, x, y) || (merged(p, x, a) && merged(p, y, b)) || (merged(p, x, b) && merged(
            p,
            y,
            a,
        ))
    }
}

/// The syllables some link mentions.
pub open spec fn touched(links: Seq<(Syl, Syl)>) -> Set<Syl> {
    Set::new(|x: Syl| exists|k: int| 0 <= k < links.len() && (links[k].0 == x || links[k].1 == x))
}

/// The touched syllables grouped with `x`.
pub open spec fn group_of(links: Seq<(Syl, Syl)>, x: Syl) -> Set<Syl> {
    touched(links).filter(|y: Syl| merged(links, x, y))
}

/// The character spans of a set of syllables.
pub open spec fn spans_of(char_spans: Seq<Seq<(usize, usize)>>, g: Set<Syl>) -> Set<(usize, usize)> {
    g.map(|y: Syl| char_spans[y.0 as int][y.1 as int])
}

/// Every syllable a rhyme names exists.
pub open spec fn span_in_range(char_spans: Seq<Seq<(usize, usize)>>, s: RhymeSpan) -> bool {
    &&& (s.i as int) < char_spans.len()
    &&& (s.j as int) < char_spans.len()
    &&& s.a_start <= s.a_end <= char_spans[s.i as int].len()
    &&& s.b_start <= s.b_end <= char_spans[s.j as int].len()
}

proof fn lemma_untouched(links: Seq<(Syl, Syl)>, x: Syl, y: Syl)
    requires
        !touched(links).contains(y),
    ensures
        merged(links, x, y) <==> x == y,
        merged(links, y, x) <==> x == y,
    decreases links.len(),
{
    if links.len() > 0 {
        let p = links.drop_last();
        assert(!touched(p).contains(y)) by {
            if touched(p).contains(y) {
                let k = choose|k: int| 0 <= k < p.len() && (p[k].0 == y || p[k].1 == y);
                assert(links[k] == p[k]);
            }
        }
        let (a, b) = links.last();
        assert(links[links.len() - 1] == links.last());
        assert(a != y && b != y);
        lemma_untouched(p, x, y);
        lemma_untouched(p, a, y);
        lemma_untouched(p, b, y);
    }
}

proof fn lemma_merged_symmetric(links: Seq<(Syl, Syl)>, x: Syl, y: Syl)
    ensures
        merged(links, x, y) == merged(links, y, x),
    decreases links.len(),
{
    if links.len() > 0 {
        let p = links.drop_last();
        let (a, b) = links.last();
        lemma_merged_symmetric(p, x, y);
        lemma_merged_symmetric(p, x, a);
        lemma_merged_symmetric(p, y, b);
        lemma_merged_symmetric(p, x, b);
        lemma_merged_symmetric(p, y, a);
    }
}

/// Where `key` sits in `nodes`.
fn index_of(nodes: &Vec<Syl>, key: Syl) -> (r: Option<usize>)
    ensures
        match r {
            Some(m) => m < nodes.len() && nodes@[m as int] == key,
            None => !nodes@.contains(key),
        },
{
    let mut m: usize = 0;
    while m < nodes.len()
        invariant
            m <= nodes.len(),
            forall|p: int| 0 <= p < m ==> nodes@[p] != key,
        decreases nodes.len() - m,
    {
        if nodes[m].0 == key.0 && nodes[m].1 == key.1 {
            return Some(m);
        }
        m += 1;
    }
    None
}

/// The index of `key` among `nodes`, adding it (as a group of its own)
/// when it is new.
fn node_for(nodes: &mut Vec<Syl>, uf: &mut UnionFind, key: Syl, Ghost(links): Ghost<Seq<(Syl, Syl)>>) -> (n: usize)
    requires
        old(uf).wf(),
        old(nodes).len() == old(uf).size(),
        forall|p: int, q: int| 0 <= p < q < old(nodes).len() ==> old(nodes)@[p] != old(nodes)@[q],
        forall|p: int, q: int|
            0 <= p < old(nodes).len() && 0 <= q < old(nodes).len() ==> (old(uf).same(p, q)
                <==> merged(links, old(nodes)@[p], old(nodes)@[q])),
        forall|x: Syl| touched(links).contains(x) ==> old(nodes)@.contains(x),
    ensures
        final(uf).wf(),
        final(nodes).len() == final(uf).size(),
        n < final(nodes).len(),
        final(nodes)@[n as int] == key,
        old(nodes)@.contains(key) ==> final(nodes)@ == old(nodes)@,
        !old(nodes)@.contains(key) ==> final(nodes)@ == old(nodes)@.push(key),
        forall|p: int, q: int| 0 <= p < q < final(nodes).len() ==> final(nodes)@[p] != final(nodes)@[q],
        forall|p: int, q: int|
            0 <= p < final(nodes).len() && 0 <= q < final(nodes).len() ==> (final(uf).same(p, q)
                <==> merged(links, final(nodes)@[p], final(nodes)@[q])),
{
    if let Some(m) = index_of(nodes, key) {
        return m;
    }
    let id = uf.push();
    nodes.push(key);
    proof {
        assert(!touched(links).contains(key));
        assert forall|p: int, q: int|
            0 <= p < nodes.len() && 0 <= q < nodes.len() implies (uf.same(p, q) <==> merged(
                links,
                nodes@[p],
                nodes@[q],
            )) by {
            lemma_untouched(links, nodes@[p], key);
            lemma_untouched(links, nodes@[q], key);
            if p == id && q < id {
                assert(!uf.same(id as int, q));
            }
            if q == id && p < id {
                assert(!uf.same(id as int, p));
            }
        }
    }
    id
}

proof fn lemma_touched_push(links: Seq<(Syl, Syl)>, e: (Syl, Syl))
    ensures
        touched(links.push(e)) == touched(links).insert(e.0).insert(e.1),
{
    let t = links.push(e);
    assert forall|x: Syl| touched(t).contains(x) implies touched(links).insert(e.0).insert(
        e.1,
    ).contains(x) by {
        let k = choose|k: int| 0 <= k < t.len() && (t[k].0 == x || t[k].1 == x);
        if k < links.len() {
            assert(links[k] == t[k]);
        }
    }
    assert forall|x: Syl| touched(links).insert(e.0).insert(e.1).contains(x) implies touched(
        t,
    ).contains(x) by {
        if touched(links).contains(x) {
            let k = choose|k: int| 0 <= k < links.len() && (links[k].0 == x || links[k].1 == x);
            assert(t[k] == links[k]);
        } else {
            assert(t[links.len() as int] == e);
        }
    }
    assert(touched(t) =~= touched(links).insert(e.0).insert(e.1));
}

/// The union-find state after linking: `nodes` lists each touched
/// syllable once, and two nodes share a group exactly when their
/// syllables are merged.
pub open spec fn linked(nodes: Seq<Syl>, uf: UnionFind, links: Seq<(Syl, Syl)>) -> bool {
    &&& uf.wf()
    &&& nodes.len() == uf.size()
    &&& forall|p: int, q: int| 0 <= p < q < nodes.len() ==> nodes[p] != nodes[q]
    &&& forall|p: int, q: int|
        0 <= p < nodes.len() && 0 <= q < nodes.len() ==> (uf.same(p, q) <==> merged(
            links,
            nodes[p],
            nodes[q],
        ))
    &&& nodes.to_set() == touched(links)
}

/// Merge the two syllables of `e` (adding them as nodes where new).
fn link(nodes: &mut Vec<Syl>, uf: &mut UnionFind, e: (Syl, Syl), Ghost(links): Ghost<Seq<(Syl, Syl)>>) -> (r: (usize, usize))
    requires
        linked(old(nodes)@, *old(uf), links),
    ensures
        linked(final(nodes)@, *final(uf), links.push(e)),
        r.0 < final(nodes).len() && final(nodes)@[r.0 as int] == e.0,
        r.1 < final(nodes).len() && final(nodes)@[r.1 as int] == e.1,
        old(nodes)@.len() <= final(nodes)@.len(),
        old(nodes)@ == final(nodes)@.take(old(nodes)@.len() as int),
{
    proof {
        assert forall|x: Syl| touched(links).contains(x) implies nodes@.contains(x) by {
            assert(nodes@.to_set().contains(x));
        }
    }
    let ghost n0 = nodes@;
    let na = node_for(nodes, uf, e.0, Ghost(links));
    let ghost n1 = nodes@;
    proof {
        assert forall|x: Syl| touched(links).contains(x) implies nodes@.contains(x) by {
            assert(n0.contains(x));
            let k = choose|k: int| 0 <= k < n0.len() && n0[k] == x;
            assert(nodes@[k] == x);
        }
    }
    let nb = node_for(nodes, uf, e.1, Ghost(links));
    let ghost u1 = *uf;
    uf.union(na, nb);
    proof {
        let t = links.push(e);
        assert(t.drop_last() =~= links);
        assert(t.last() == e);
        if !n1.contains(e.1) {
            assert(nodes@[na as int] == n1[na as int]);
        }
        assert(nodes@[na as int] == e.0);
        assert forall|p: int, q: int|
            0 <= p < nodes@.len() && 0 <= q < nodes@.len() implies (uf.same(p, q) <==> merged(
                t,
                nodes@[p],
                nodes@[q],
            )) by {
            assert(u1.same(p, na as int) == merged(links, nodes@[p], e.0));
            assert(u1.same(q, nb as int) == merged(links, nodes@[q], e.1));
            assert(u1.same(p, nb as int) == merged(links, nodes@[p], e.1));
            assert(u1.same(q, na as int) == merged(links, nodes@[q], e.0));
        }
        lemma_touched_push(links, e);
        assert(nodes@.to_set() =~= touched(t)) by {
            assert forall|x: Syl| nodes@.to_set().contains(x) <==> touched(t).contains(x) by {
                if nodes@.to_set().contains(x) {
                    let k = choose|k: int| 0 <= k < nodes@.len() && nodes@[k] == x;
                    if k < n0.len() {
                        assert(n0[k] == x);
                        assert(n0.to_set().contains(x));
                    }
                }
                if touched(links).contains(x) {
                    assert(n0.to_set().contains(x));
                    let k = choose|k: int| 0 <= k < n0.len() && n0[k] == x;
                    assert(nodes@[k] == x);
                }
                if x == e.0 {
                    assert(nodes@[na as int] == x);
                }
                if x == e.1 {
                    assert(nodes@[nb as int] == x);
                }
            }
        }
        assert(n0 =~= nodes@.take(n0.len() as int));
    }
    (na, nb)
}

/// Merge everything one rhyme links.
fn link_span(nodes: &mut Vec<Syl>, uf: &mut UnionFind, sp: RhymeSpan, Ghost(links): Ghost<Seq<(Syl, Syl)>>)
    requires
        linked(old(nodes)@, *old(uf), links),
    ensures
        linked(final(nodes)@, *final(uf), links + span_links(sp, zip_len(sp))),
{
    let la = if sp.a_end >= sp.a_start { sp.a_end - sp.a_start } else { 0 };
    let lb = if sp.b_end >= sp.b_start { sp.b_end - sp.b_start } else { 0 };
    let n = if la <= lb { la } else { lb };
    let mut k: usize = 0;
    assert(links + span_links(sp, 0) =~= links);
    while k < n
        invariant
            k <= n,
            n == zip_len(sp),
            n <= la && n <= lb,
            la == if sp.a_end >= sp.a_start { sp.a_end - sp.a_start } else { 0 },
            lb == if sp.b_end >= sp.b_start { sp.b_end - sp.b_start } else { 0 },
            linked(nodes@, *uf, links + span_links(sp, k as nat)),
        decreases n - k,
    {
        let ka: Syl = (sp.i, sp.a_start + k);
        let kb: Syl = (sp.j, sp.b_start + k);
        let ghost e0 = links + span_links(sp, k as nat);
        let _ = link(nodes, uf, (ka, kb), Ghost(e0));
        let ghost e1 = e0.push((ka, kb));
        if k > 0 {
            let kp: Syl = (sp.i, sp.a_start + k - 1);
            let _ = link(nodes, uf, (kp, ka), Ghost(e1));
            assert(e1.push((kp, ka)) =~= links + span_links(sp, (k + 1) as nat));
        } else {
            assert(e1 =~= links + span_links(sp, (k + 1) as nat));
        }
        k += 1;
    }
}

/// Merge everything a list of rhymes links; returns the touched syllables
/// and their groups.
fn link_all(spans: &Vec<RhymeSpan>) -> (r: (Vec<Syl>, UnionFind))
    ensures
        linked(r.0@, r.1, all_links(spans@)),
{
    let mut nodes: Vec<Syl> = Vec::new();
    let mut uf = UnionFind::new();
    proof {
        assert(spans@.take(0) =~= Seq::<RhymeSpan>::empty());
        assert(touched(all_links(spans@.take(0))) =~= Set::<Syl>::empty());
        assert(nodes@.to_set() =~= Set::<Syl>::empty());
    }
    let mut si: usize = 0;
    while si < spans.len()
        invariant
            si <= spans.len(),
            linked(nodes@, uf, all_links(spans@.take(si as int))),
        decreases spans.len() - si,
    {
        let sp = spans[si];
        link_span(&mut nodes, &mut uf, sp, Ghost(all_links(spans@.take(si as int))));
        proof {
            let t = spans@.take(si + 1);
            assert(t.drop_last() =~= spans@.take(si as int));
            assert(t.last() == sp);
        }
        si += 1;
    }
    assert(spans@.take(spans@.len() as int) =~= spans@);
    (nodes, uf)
}

/// The inner views of a list of per-line span lists.
pub open spec fn views(cs: Seq<Vec<(usize, usize)>>) -> Seq<Seq<(usize, usize)>> {
    cs.map_values(|v: Vec<(usize, usize)>| v@)
}

/// The character span of syllable `y`.
pub open spec fn span_at(cs: Seq<Seq<(usize, usize)>>, y: Syl) -> (usize, usize) {
    cs[y.0 as int][y.1 as int]
}

/// `x`'s group holds some other syllable too.
pub open spec fn shared(links: Seq<(Syl, Syl)>, x: Syl) -> bool {
    exists|y: Syl| y != x && #[trigger] group_of(links, x).contains(y)
}

/// The representative index of each node's group.
fn roots_of(uf: &mut UnionFind, n: usize) -> (roots: Vec<usize>)
    requires
        old(uf).wf(),
        n == old(uf).size(),
    ensures
        final(uf).wf(),
        final(uf).size() == n,
        forall|p: int, q: int| 0 <= p < n && 0 <= q < n ==> final(uf).same(p, q) == old(uf).same(p, q),
        roots.len() == n,
        forall|p: int, q: int| 0 <= p < n && 0 <= q < n ==> (roots@[p] == roots@[q]) == old(uf).same(p, q),
{
    let ghost u0 = *uf;
    let mut roots: Vec<usize> = Vec::new();
    let mut m: usize = 0;
    while m < n
        invariant
            m <= n,
            uf.wf(),
            uf.size() == n,
            n == u0.size(),
            forall|y: int| 0 <= y < n ==> #[trigger] uf.rep(y) == u0.rep(y),
            roots.len() == m,
            forall|p: int| 0 <= p < m ==> roots@[p] as int == u0.rep(p),
        decreases n - m,
    {
        let ghost u1 = *uf;
        let r = uf.find(m);
        proof {
            assert forall|y: int| 0 <= y < n implies #[trigger] uf.rep(y) == u0.rep(y) by {
                assert(uf.rep(y) == u1.rep(y));
            }
        }
        roots.push(r);
        m += 1;
    }
    proof {
        assert forall|p: int, q: int| 0 <= p < n && 0 <= q < n implies uf.same(p, q) == u0.same(p, q) by {
            assert(uf.rep(p) == u0.rep(p));
            assert(uf.rep(q) == u0.rep(q));
        }
    }
    roots
}

proof fn lemma_merged_refl(links: Seq<(Syl, Syl)>, x: Syl)
    ensures
        merged(links, x, x),
    decreases links.len(),
{
    if links.len() > 0 {
        lemma_merged_refl(links.drop_last(), x);
    }
}

/// The spans of the nodes whose root is node `m`'s, among the first `q`.
pub open spec fn root_spans(cs: Seq<Seq<(usize, usize)>>, nodes: Seq<Syl>, roots: Seq<usize>, m: int, q: int) -> Set<(usize, usize)> {
    Set::new(|sp: (usize, usize)| exists|t: int| 0 <= t < q && roots[t] == roots[m] && sp == span_at(cs, #[trigger] nodes[t]))
}

/// Every node names an existing syllable.
pub open spec fn nodes_in_range(cs: Seq<Seq<(usize, usize)>>, nodes: Seq<Syl>) -> bool {
    forall|p: int| 0 <= p < nodes.len() ==> (#[trigger] nodes[p].0 as int) < cs.len() && (nodes[p].1 as int) < cs[nodes[p].0 as int].len()
}

/// The spans of the nodes sharing node `m`'s root, and whether any node
/// other than `m` does.
fn members(cs: &Vec<Vec<(usize, usize)>>, nodes: &Vec<Syl>, roots: &Vec<usize>, m: usize) -> (r: (Vec<(usize, usize)>, bool))
    requires
        m < nodes.len(),
        roots.len() == nodes.len(),
        nodes_in_range(views(cs@), nodes@),
    ensures
        r.0@.to_set() == root_spans(views(cs@), nodes@, roots@, m as int, nodes.len() as int),
        r.1 <==> exists|t: int| 0 <= t < nodes.len() && t != m && #[trigger] roots@[t] == roots@[m as int],
{
    let mut out: Vec<(usize, usize)> = Vec::new();
    let mut other = false;
    let mut q: usize = 0;
    assert(out@.to_set() =~= root_spans(views(cs@), nodes@, roots@, m as int, 0));
    while q < nodes.len()
        invariant
            q <= nodes.len(),
            m < nodes.len(),
            roots.len() == nodes.len(),
            nodes_in_range(views(cs@), nodes@),
            out@.to_set() == root_spans(views(cs@), nodes@, roots@, m as int, q as int),
            other <==> exists|t: int| 0 <= t < q && t != m && #[trigger] roots@[t] == roots@[m as int],
        decreases nodes.len() - q,
    {
        let ghost before = out@;
        let ghost cv = views(cs@);
        if roots[q] == roots[m] {
            let y = nodes[q];
            assert(nodes_in_range(cv, nodes@));
            assert((y.0 as int) < cv.len());
            assert(cv[y.0 as int] == cs@[y.0 as int]@);
            let sp = cs[y.0][y.1];
            out.push(sp);
            if q != m {
                other = true;
            }
            proof {
                before.lemma_push_to_set_commute(sp);
                assert(sp == span_at(cv, nodes@[q as int]));
                assert(root_spans(cv, nodes@, roots@, m as int, q + 1) =~= root_spans(cv, nodes@, roots@, m as int, q as int).insert(sp));
            }
        } else {
            proof {
                assert(root_spans(cv, nodes@, roots@, m as int, q + 1) =~= root_spans(cv, nodes@, roots@, m as int, q as int));
            }
        }
        q += 1;
    }
    (out, other)
}

/// A syllable that exists.
pub open spec fn syl_in_range(cs: Seq<Seq<(usize, usize)>>, y: Syl) -> bool {
    (y.0 as int) < cs.len() && (y.1 as int) < cs[y.0 as int].len()
}

/// Every syllable a list of links names exists.
pub open spec fn links_in_range(cs: Seq<Seq<(usize, usize)>>, l: Seq<(Syl, Syl)>) -> bool {
    forall|e: int| 0 <= e < l.len() ==> link_in_range(cs, #[trigger] l[e])
}

/// Both syllables of a link exist.
pub open spec fn link_in_range(cs: Seq<Seq<(usize, usize)>>, e: (Syl, Syl)) -> bool {
    syl_in_range(cs, e.0) && syl_in_range(cs, e.1)
}

#[verifier::spinoff_prover]
#[verifier::rlimit(30)]
proof fn lemma_span_links_in_range(cs: Seq<Seq<(usize, usize)>>, sp: RhymeSpan, k: nat)
    requires
        span_in_range(cs, sp),
        k <= zip_len(sp),
    ensures
        links_in_range(cs, span_links(sp, k)),
    decreases k,
{
    if k > 0 {
        let m = (k - 1) as nat;
        lemma_span_links_in_range(cs, sp, m);
        let prev = span_links(sp, m);
        let pair = ((sp.i, (sp.a_start + m) as usize), (sp.j, (sp.b_start + m) as usize));
        let chain = if m > 0 {
            seq![((sp.i, (sp.a_start + m - 1) as usize), (sp.i, (sp.a_start + m) as usize))]
        } else {
            seq![]
        };
        let all = prev + seq![pair] + chain;
        assert(span_links(sp, k) == all);
        assert(m < zip_len(sp));
        assert(link_in_range(cs, pair));
        if m > 0 {
            assert(link_in_range(cs, chain[0]));
        }
        assert forall|e: int| 0 <= e < all.len() implies link_in_range(cs, #[trigger] all[e]) by {
            if e < prev.len() {
                assert(all[e] == prev[e]);
                assert(link_in_range(cs, prev[e]));
            } else if e == prev.len() {
                assert(all[e] == pair);
            } else {
                assert(all[e] == chain[0]);
            }
        }
    }
}

proof fn lemma_links_in_range(cs: Seq<Seq<(usize, usize)>>, spans: Seq<RhymeSpan>)
    requires
        forall|k: int| 0 <= k < spans.len() ==> span_in_range(cs, #[trigger] spans[k]),
    ensures
        forall|x: Syl| touched(all_links(spans)).contains(x) ==> syl_in_range(cs, x),
    decreases spans.len(),
{
    if spans.len() > 0 {
        let p = spans.drop_last();
        assert forall|k: int| 0 <= k < p.len() implies span_in_range(cs, #[trigger] p[k]) by {
            assert(p[k] == spans[k]);
        }
        lemma_links_in_range(cs, p);
        assert(span_in_range(cs, spans[spans.len() - 1]));
        lemma_span_links_in_range(cs, spans.last(), zip_len(spans.last()));
        let a = all_links(p);
        let b = span_links(spans.last(), zip_len(spans.last()));
        assert(links_in_range(cs, b));
        assert forall|x: Syl| touched(a + b).contains(x) implies syl_in_range(cs, x) by {
            let k = choose|k: int| 0 <= k < (a + b).len() && ((a + b)[k].0 == x || (a + b)[k].1 == x);
            if k < a.len() {
                assert((a + b)[k] == a[k]);
                assert(touched(a).contains(x));
            } else {
                assert((a + b)[k] == b[k - a.len()]);
                assert(link_in_range(cs, b[k - a.len()]));
            }
        }
    }
}

/// `out` is the list of colour groups of `links`, each group traced back
/// to a syllable `w[g]` in it: every group has two or more syllables and
/// lists their spans in ascending order, no two groups come from one
/// merged group, and every merged group of two or more syllables has its
/// colour group.
pub open spec fn groups_witnessed(
    links: Seq<(Syl, Syl)>,
    cs: Seq<Seq<(usize, usize)>>,
    out: Seq<Vec<(usize, usize)>>,
    w: Seq<Syl>,
) -> bool {
    &&& w.len() == out.len()
    &&& forall|g: int|
        0 <= g < out.len() ==> {
            &&& touched(links).contains(#[trigger] w[g])
            &&& shared(links, w[g])
            &&& strictly_sorted(out[g]@)
            &&& out[g]@.len() > 0
            &&& out[g]@.to_set() == spans_of(cs, group_of(links, w[g]))
        }
    &&& forall|g1: int, g2: int|
        0 <= g1 < out.len() && 0 <= g2 < out.len() && g1 != g2 ==> !merged(links, #[trigger] w[g1], #[trigger] w[g2])
    &&& forall|x: Syl|
        touched(links).contains(x) && shared(links, x) ==> exists|g: int| 0 <= g < out.len() && merged(links, x, #[trigger] w[g])
}

fn copy_spans(v: &Vec<(usize, usize)>) -> (r: Vec<(usize, usize)>)
    ensures
        r@ == v@,
{
    let mut r: Vec<(usize, usize)> = Vec::new();
    let mut i: usize = 0;
    while i < v.len()
        invariant
            i <= v.len(),
            r@ == v@.take(i as int),
        decreases v.len() - i,
    {
        r.push(v[i]);
        i += 1;
        assert(r@ =~= v@.take(i as int));
    }
    assert(v@.take(v.len() as int) =~= v@);
    r
}

/// The nodes share roots exactly when their syllables are merged.
pub open spec fn roots_match(nodes: Seq<Syl>, roots: Seq<usize>, links: Seq<(Syl, Syl)>) -> bool {
    &&& roots.len() == nodes.len()
    &&& forall|p: int, q: int|
        0 <= p < nodes.len() && 0 <= q < nodes.len() ==> ((roots[p] == roots[q]) == merged(
            links,
            nodes[p],
            nodes[q],
        ))
}

/// Some node other than `t` shares `t`'s root.
pub open spec fn shared_root(roots: Seq<usize>, t: int) -> bool {
    exists|u: int| 0 <= u < roots.len() && u != t && #[trigger] roots[u] == roots[t]
}

/// Some listed group has `t`'s root.
pub open spec fn covered(roots: Seq<usize>, reps: Seq<int>, t: int) -> bool {
    exists|g: int| 0 <= g < reps.len() && roots[#[trigger] reps[g]] == roots[t]
}

/// The spans of each root shared by two or more nodes, in order of the
/// root's first node; `reps` holds that first node.
fn collect(cs: &Vec<Vec<(usize, usize)>>, nodes: &Vec<Syl>, roots: &Vec<usize>) -> (r: (
    Vec<Vec<(usize, usize)>>,
    Ghost<Seq<int>>,
))
    requires
        roots.len() == nodes.len(),
        nodes_in_range(views(cs@), nodes@),
    ensures
        r.1@.len() == r.0@.len(),
        forall|g: int|
            0 <= g < r.0@.len() ==> {
                &&& 0 <= #[trigger] r.1@[g] < nodes.len()
                &&& strictly_sorted(r.0@[g]@)
                &&& r.0@[g]@.len() > 0
                &&& r.0@[g]@.to_set() == root_spans(views(cs@), nodes@, roots@, r.1@[g], nodes.len() as int)
                &&& shared_root(roots@, r.1@[g])
            },
        forall|g1: int, g2: int|
            0 <= g1 < r.0@.len() && 0 <= g2 < r.0@.len() && g1 != g2 ==> roots@[#[trigger] r.1@[g1]] != roots@[#[trigger] r.1@[g2]],
        forall|t: int| 0 <= t < nodes.len() && #[trigger] shared_root(roots@, t) ==> covered(roots@, r.1@, t),
{
    let n = nodes.len();
    let mut out: Vec<Vec<(usize, usize)>> = Vec::new();
    let ghost mut reps: Seq<int> = seq![];
    let mut m: usize = 0;
    while m < n
        invariant
            m <= n,
            n == nodes.len(),
            roots.len() == nodes.len(),
            nodes_in_range(views(cs@), nodes@),
            reps.len() == out@.len(),
            forall|g: int|
                0 <= g < out@.len() ==> {
                    &&& 0 <= #[trigger] reps[g] < m
                    &&& strictly_sorted(out@[g]@)
                    &&& out@[g]@.len() > 0
                    &&& out@[g]@.to_set() == root_spans(views(cs@), nodes@, roots@, reps[g], n as int)
                    &&& shared_root(roots@, reps[g])
                },
            forall|g1: int, g2: int|
                0 <= g1 < out@.len() && 0 <= g2 < out@.len() && g1 != g2 ==> roots@[#[trigger] reps[g1]] != roots@[#[trigger] reps[g2]],
            forall|t: int| 0 <= t < m && #[trigger] shared_root(roots@, t) ==> covered(roots@, reps, t),
        decreases n - m,
    {
        let ghost reps0 = reps;
        let mut seen = false;
        let mut t: usize = 0;
        while t < m
            invariant
                t <= m,
                m < n,
                roots.len() == n,
                seen <==> exists|u: int| 0 <= u < t && #[trigger] roots@[u] == roots@[m as int],
            decreases m - t,
        {
            if roots[t] == roots[m] {
                seen = true;
            }
            t += 1;
        }
        if !seen {
            let (list, other) = members(cs, nodes, roots, m);
            if other {
                let g = sorted_unique(&list);
                proof {
                    let cv = views(cs@);
                    assert(nodes_in_range(cv, nodes@));
                    assert(root_spans(cv, nodes@, roots@, m as int, n as int).contains(span_at(cv, nodes@[m as int])));
                    assert(list@.to_set().contains(span_at(cv, nodes@[m as int])));
                    assert(g@.to_set().contains(span_at(cv, nodes@[m as int])));
                }
                let ghost old_reps = reps;
                let ghost old_out = out@;
                out.push(g);
                proof {
                    reps = reps.push(m as int);
                    assert forall|g1: int, g2: int|
                        0 <= g1 < out@.len() && 0 <= g2 < out@.len() && g1 != g2 implies roots@[#[trigger] reps[g1]] != roots@[#[trigger] reps[g2]] by {
                        if g1 == out@.len() - 1 {
                            assert(reps[g2] < m);
                            assert(!(roots@[reps[g2]] == roots@[m as int]));
                        } else if g2 == out@.len() - 1 {
                            assert(reps[g1] < m);
                            assert(!(roots@[reps[g1]] == roots@[m as int]));
                        } else {
                            assert(reps[g1] == old_reps[g1]);
                            assert(reps[g2] == old_reps[g2]);
                        }
                    }
                    assert forall|g1: int| 0 <= g1 < out@.len() implies {
                        &&& 0 <= #[trigger] reps[g1] < m + 1
                        &&& strictly_sorted(out@[g1]@)
                        &&& out@[g1]@.len() > 0
                        &&& out@[g1]@.to_set() == root_spans(views(cs@), nodes@, roots@, reps[g1], n as int)
                        &&& shared_root(roots@, reps[g1])
                    } by {
                        if g1 < old_out.len() {
                            assert(out@[g1] == old_out[g1]);
                            assert(reps[g1] == old_reps[g1]);
                        }
                    }
                }
            }
        }
        proof {
            assert forall|t: int| 0 <= t < m + 1 && #[trigger] shared_root(roots@, t) implies covered(roots@, reps, t) by {
                if t == m {
                    if seen {
                        let u = choose|u: int| 0 <= u < m && #[trigger] roots@[u] == roots@[m as int];
                        assert(roots@[m as int] == roots@[u]);
                        assert(shared_root(roots@, u));
                        assert(covered(roots@, reps, u));
                        let g = choose|g: int| 0 <= g < reps.len() && roots@[#[trigger] reps[g]] == roots@[u];
                        assert(roots@[reps[g]] == roots@[t]);
                    } else {
                        assert(shared_root(roots@, m as int));
                        assert(roots@[reps[out@.len() - 1]] == roots@[t]);
                    }
                } else {
                    assert(covered(roots@, reps0, t));
                    let g = choose|g: int| 0 <= g < reps0.len() && roots@[#[trigger] reps0[g]] == roots@[t];
                    assert(reps[g] == reps0[g]);
                }
            }
        }
        m += 1;
    }
    (out, Ghost(reps))
}

/// A stable order lists every position.
proof fn lemma_order_onto(keys: Seq<(usize, usize)>, order: Seq<usize>, g: int)
    requires
        is_stable_order(keys, order),
        0 <= g < keys.len(),
    ensures
        exists|i: int| 0 <= i < order.len() && order[i] as int == g,
{
    let o = order.map_values(|x: usize| x as int);
    assert(o.no_duplicates()) by {
        assert forall|i: int, j: int| 0 <= i < o.len() && 0 <= j < o.len() && i != j implies o[i] != o[j] by {
            if i < j {
                assert(rank_lt(keys, order[i] as int, order[j] as int));
            } else {
                assert(rank_lt(keys, order[j] as int, order[i] as int));
            }
        }
    }
    o.unique_seq_to_set();
    lemma_int_range(0, keys.len() as int);
    assert(o.to_set().subset_of(set_int_range(0, keys.len() as int)));
    lemma_subset_equality(o.to_set(), set_int_range(0, keys.len() as int));
    assert(set_int_range(0, keys.len() as int).contains(g));
    assert(o.to_set().contains(g));
    let i = choose|i: int| 0 <= i < o.len() && o[i] == g;
    assert(order[i] as int == g);
}

/// How the node-level facts read over syllables.
proof fn lemma_root_spans(
    cs: Seq<Seq<(usize, usize)>>,
    nodes: Seq<Syl>,
    roots: Seq<usize>,
    links: Seq<(Syl, Syl)>,
    m: int,
)
    requires
        roots_match(nodes, roots, links),
        nodes.to_set() == touched(links),
        0 <= m < nodes.len(),
    ensures
        root_spans(cs, nodes, roots, m, nodes.len() as int) == spans_of(cs, group_of(links, nodes[m])),
{
    let a = root_spans(cs, nodes, roots, m, nodes.len() as int);
    let b = spans_of(cs, group_of(links, nodes[m]));
    assert forall|sp: (usize, usize)| a.contains(sp) implies b.contains(sp) by {
        let t = choose|t: int| 0 <= t < nodes.len() && roots[t] == roots[m] && sp == span_at(cs, #[trigger] nodes[t]);
        assert(nodes.to_set().contains(nodes[t]));
        assert(group_of(links, nodes[m]).contains(nodes[t]));
    }
    assert forall|sp: (usize, usize)| b.contains(sp) implies a.contains(sp) by {
        let y = choose|y: Syl| group_of(links, nodes[m]).contains(y) && cs[y.0 as int][y.1 as int] == sp;
        assert(nodes.to_set().contains(y));
        let t = choose|t: int| 0 <= t < nodes.len() && nodes[t] == y;
        assert(roots[t] == roots[m]);
        assert(sp == span_at(cs, nodes[t]));
    }
    assert(a =~= b);
}

proof fn lemma_merged_transitive(links: Seq<(Syl, Syl)>, x: Syl, y: Syl, z: Syl)
    requires
        merged(links, x, y),
        merged(links, y, z),
    ensures
        merged(links, x, z),
    decreases links.len(),
{
    if links.len() > 0 {
        let p = links.drop_last();
        let (a, b) = links.last();
        lemma_merged_symmetric(p, y, z);
        lemma_merged_symmetric(p, x, y);
        lemma_merged_symmetric(p, z, a);
        lemma_merged_symmetric(p, z, b);
        lemma_merged_symmetric(p, y, a);
        lemma_merged_symmetric(p, y, b);
        if merged(p, x, y) && merged(p, y, z) {
            lemma_merged_transitive(p, x, y, z);
        }
        if merged(p, x, y) && merged(p, y, a) {
            lemma_merged_transitive(p, x, y, a);
        }
        if merged(p, x, y) && merged(p, y, b) {
            lemma_merged_transitive(p, x, y, b);
        }
        if merged(p, z, y) && merged(p, y, b) {
            lemma_merged_transitive(p, z, y, b);
        }
        if merged(p, z, y) && merged(p, y, a) {
            lemma_merged_transitive(p, z, y, a);
        }
        if merged(p, x, a) && merged(p, a, z) {
            lemma_merged_transitive(p, x, a, z);
        }
        if merged(p, x, b) && merged(p, b, z) {
            lemma_merged_transitive(p, x, b, z);
        }
    }
}

/// No two syllables share a character span.
#[verifier::opaque]
pub open spec fn distinct_spans(cs: Seq<Seq<(usize, usize)>>) -> bool {
    forall|x: Syl, y: Syl|
        syl_in_range(cs, x) && syl_in_range(cs, y) && #[trigger] cs[x.0 as int][x.1 as int]
            == #[trigger] cs[y.0 as int][y.1 as int] ==> x == y
}

proof fn lemma_group_two_spans(
    links: Seq<(Syl, Syl)>,
    cs: Seq<Seq<(usize, usize)>>,
    gs: Seq<(usize, usize)>,
    x: Syl,
)
    requires
        gs.to_set() == spans_of(cs, group_of(links, x)),
        shared(links, x),
        touched(links).contains(x),
        forall|y: Syl| touched(links).contains(y) ==> syl_in_range(cs, y),
        distinct_spans(cs),
    ensures
        gs.len() >= 2,
{
    reveal(distinct_spans);
    let y = choose|y: Syl| y != x && #[trigger] group_of(links, x).contains(y);
    lemma_merged_refl(links, x);
    assert(group_of(links, x).contains(x));
    let sx = cs[x.0 as int][x.1 as int];
    let sy = cs[y.0 as int][y.1 as int];
    assert(spans_of(cs, group_of(links, x)).contains(sx));
    assert(spans_of(cs, group_of(links, x)).contains(sy));
    assert(syl_in_range(cs, x) && syl_in_range(cs, y));
    assert(sx != sy);
    assert(gs.to_set().contains(sx) && gs.to_set().contains(sy));
    let i = choose|i: int| 0 <= i < gs.len() && gs[i] == sx;
    let j = choose|j: int| 0 <= j < gs.len() && gs[j] == sy;
    assert(i != j);
}

proof fn lemma_groups_apart(
    links: Seq<(Syl, Syl)>,
    cs: Seq<Seq<(usize, usize)>>,
    g1: Seq<(usize, usize)>,
    g2: Seq<(usize, usize)>,
    x1: Syl,
    x2: Syl,
    sp: (usize, usize),
)
    requires
        g1.to_set() == spans_of(cs, group_of(links, x1)),
        g2.to_set() == spans_of(cs, group_of(links, x2)),
        !merged(links, x1, x2),
        forall|y: Syl| touched(links).contains(y) ==> syl_in_range(cs, y),
        distinct_spans(cs),
    ensures
        !(g1.contains(sp) && g2.contains(sp)),
{
    reveal(distinct_spans);
    if g1.contains(sp) && g2.contains(sp) {
        assert(g1.to_set().contains(sp));
        assert(g2.to_set().contains(sp));
        let y1 = choose|y: Syl| group_of(links, x1).contains(y) && cs[y.0 as int][y.1 as int] == sp;
        let y2 = choose|y: Syl| group_of(links, x2).contains(y) && cs[y.0 as int][y.1 as int] == sp;
        assert(syl_in_range(cs, y1) && syl_in_range(cs, y2));
        assert(y1 == y2);
        lemma_merged_symmetric(links, x2, y2);
        lemma_merged_transitive(links, x1, y1, x2);
    }
}

proof fn lemma_witnessed_partition(
    links: Seq<(Syl, Syl)>,
    cs: Seq<Seq<(usize, usize)>>,
    groups: Seq<Vec<(usize, usize)>>,
    w: Seq<Syl>,
)
    requires
        groups_witnessed(links, cs, groups, w),
        forall|y: Syl| touched(links).contains(y) ==> syl_in_range(cs, y),
        distinct_spans(cs),
    ensures
        forall|g: int| 0 <= g < groups.len() ==> (#[trigger] groups[g])@.len() >= 2,
        forall|g1: int, g2: int, sp: (usize, usize)|
            0 <= g1 < g2 < groups.len() ==> !(#[trigger] groups[g1]@.contains(sp)
                && #[trigger] groups[g2]@.contains(sp)),
{
    assert forall|g: int| 0 <= g < groups.len() implies (#[trigger] groups[g])@.len() >= 2 by {
        assert(touched(links).contains(w[g]));
        lemma_group_two_spans(links, cs, groups[g]@, w[g]);
    }
    assert forall|g1: int, g2: int, sp: (usize, usize)|
        0 <= g1 < g2 < groups.len() implies !(#[trigger] groups[g1]@.contains(sp)
            && #[trigger] groups[g2]@.contains(sp)) by {
        assert(!merged(links, w[g1], w[g2]));
        lemma_groups_apart(links, cs, groups[g1]@, groups[g2]@, w[g1], w[g2], sp);
    }
}

/// When no two syllables share a span, the colour groups partition what
/// they cover: each has at least two spans, and no span is in two groups.
pub proof fn lemma_groups_partition(
    cs: Seq<Seq<(usize, usize)>>,
    spans: Seq<RhymeSpan>,
    groups: Seq<Vec<(usize, usize)>>,
)
    requires
        forall|k: int| 0 <= k < spans.len() ==> span_in_range(cs, #[trigger] spans[k]),
        distinct_spans(cs),
        exists|w: Seq<Syl>| groups_witnessed(all_links(spans), cs, groups, w),
    ensures
        forall|g: int| 0 <= g < groups.len() ==> (#[trigger] groups[g])@.len() >= 2,
        forall|g1: int, g2: int, sp: (usize, usize)|
            0 <= g1 < g2 < groups.len() ==> !(#[trigger] groups[g1]@.contains(sp)
                && #[trigger] groups[g2]@.contains(sp)),
{
    let w = choose|w: Seq<Syl>| groups_witnessed(all_links(spans), cs, groups, w);
    lemma_links_in_range(cs, spans);
    lemma_witnessed_partition(all_links(spans), cs, groups, w);
}

/// Collapse detected rhymes into colour groups. `char_spans[l][s]` is the
/// character span of syllable `s` of line `l`; each rhyme links its
/// aligned syllable pairs and chains its own syllables together. Every
/// group of two or more merged syllables becomes one colour group: its
/// members' spans, ascending and each once; groups are ordered by their
/// first span (ties keep the order of their first-linked syllable).
pub fn group_rhymes(char_spans: &Vec<Vec<(usize, usize)>>, spans: &Vec<RhymeSpan>) -> (groups: Vec<Vec<(usize, usize)>>)
    requires
        forall|k: int| 0 <= k < spans.len() ==> span_in_range(views(char_spans@), #[trigger] spans@[k]),
    ensures
        exists|w: Seq<Syl>| groups_witnessed(all_links(spans@), views(char_spans@), groups@, w),
        forall|g1: int, g2: int|
            0 <= g1 < g2 < groups.len() ==> span_le(#[trigger] groups@[g1]@[0], #[trigger] groups@[g2]@[0]),
{
    let ghost links = all_links(spans@);
    let ghost cv = views(char_spans@);
    let (nodes, mut uf) = link_all(spans);
    let ghost u0 = uf;
    let n = nodes.len();
    let roots = roots_of(&mut uf, n);
    proof {
        lemma_links_in_range(cv, spans@);
        assert forall|p: int| 0 <= p < nodes@.len() implies (#[trigger] nodes@[p].0 as int) < cv.len() && (nodes@[p].1 as int) < cv[nodes@[p].0 as int].len() by {
            assert(nodes@.to_set().contains(nodes@[p]));
            assert(syl_in_range(cv, nodes@[p]));
        }
        assert forall|p: int, q: int|
            0 <= p < nodes@.len() && 0 <= q < nodes@.len() implies ((roots@[p] == roots@[q]) == merged(
                links,
                nodes@[p],
                nodes@[q],
            )) by {
            assert((roots@[p] == roots@[q]) == u0.same(p, q));
        }
        assert(roots_match(nodes@, roots@, links));
    }
    let (unsorted, Ghost(reps)) = collect(char_spans, &nodes, &roots);
    proof {
        assert forall|h: int| 0 <= h < unsorted@.len() implies (#[trigger] unsorted@[h])@.len() > 0 by {
            assert(0 <= reps[h]);
        }
    }
    let mut firsts: Vec<(usize, usize)> = Vec::new();
    let mut g: usize = 0;
    while g < unsorted.len()
        invariant
            g <= unsorted.len(),
            firsts.len() == g,
            forall|h: int| 0 <= h < unsorted@.len() ==> (#[trigger] unsorted@[h])@.len() > 0,
            forall|h: int| 0 <= h < g ==> #[trigger] firsts@[h] == unsorted@[h]@[0],
        decreases unsorted.len() - g,
    {
        firsts.push(unsorted[g][0]);
        g += 1;
    }
    let order = stable_order(&firsts);
    let mut out: Vec<Vec<(usize, usize)>> = Vec::new();
    let mut i: usize = 0;
    while i < order.len()
        invariant
            i <= order.len(),
            is_stable_order(firsts@, order@),
            firsts.len() == unsorted.len(),
            out.len() == i,
            forall|h: int| 0 <= h < i ==> (#[trigger] out@[h])@ == unsorted@[order@[h] as int]@,
        decreases order.len() - i,
    {
        let v = copy_spans(&unsorted[order[i]]);
        out.push(v);
        i += 1;
    }
    proof {
        let w = Seq::new(out@.len(), |h: int| nodes@[reps[order@[h] as int]]);
        assert forall|h: int| 0 <= h < out@.len() implies {
            &&& touched(links).contains(#[trigger] w[h])
            &&& shared(links, w[h])
            &&& strictly_sorted(out@[h]@)
            &&& out@[h]@.len() > 0
            &&& out@[h]@.to_set() == spans_of(cv, group_of(links, w[h]))
        } by {
            let gi = order@[h] as int;
            let m = reps[gi];
            assert(0 <= m < nodes@.len());
            assert(nodes@.to_set().contains(nodes@[m]));
            assert(shared_root(roots@, m));
            let u = choose|u: int| 0 <= u < roots@.len() && u != m && #[trigger] roots@[u] == roots@[m];
            assert(nodes@.to_set().contains(nodes@[u]));
            assert(group_of(links, nodes@[m]).contains(nodes@[u]));
            lemma_root_spans(cv, nodes@, roots@, links, m);
        }
        assert forall|g1: int, g2: int|
            0 <= g1 < out@.len() && 0 <= g2 < out@.len() && g1 != g2 implies !merged(links, #[trigger] w[g1], #[trigger] w[g2]) by {
            let o1 = order@[g1] as int;
            let o2 = order@[g2] as int;
            if g1 < g2 {
                assert(rank_lt(firsts@, o1, o2));
            } else {
                assert(rank_lt(firsts@, o2, o1));
            }
            assert(o1 != o2);
            assert(roots@[reps[o1]] != roots@[reps[o2]]);
        }
        assert forall|x: Syl| touched(links).contains(x) && shared(links, x) implies exists|h: int| 0 <= h < out@.len() && merged(links, x, #[trigger] w[h]) by {
            assert(nodes@.to_set().contains(x));
            let t = choose|t: int| 0 <= t < nodes@.len() && nodes@[t] == x;
            let y = choose|y: Syl| y != x && #[trigger] group_of(links, x).contains(y);
            assert(nodes@.to_set().contains(y));
            let u = choose|u: int| 0 <= u < nodes@.len() && nodes@[u] == y;
            assert(roots@[u] == roots@[t]);
            assert(shared_root(roots@, t));
            assert(covered(roots@, reps, t));
            let gg = choose|gg: int| 0 <= gg < reps.len() && roots@[#[trigger] reps[gg]] == roots@[t];
            lemma_order_onto(firsts@, order@, gg);
            let h = choose|h: int| 0 <= h < order@.len() && order@[h] as int == gg;
            assert(w[h] == nodes@[reps[gg]]);
        }
        assert(groups_witnessed(links, cv, out@, w));
        assert forall|g1: int, g2: int|
            0 <= g1 < g2 < out@.len() implies span_le(#[trigger] out@[g1]@[0], #[trigger] out@[g2]@[0]) by {
            assert(rank_lt(firsts@, order@[g1] as int, order@[g2] as int));
        }
    }
    out
}

} // verus!
