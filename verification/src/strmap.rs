//! A string-keyed map that keeps its entries sorted by key, so walking it
//! visits keys in ascending order (the order a `BTreeMap<String, _>`
//! iterates in: code point by code point, a prefix before its extensions).

use vstd::prelude::*;
use crate::text::chars_of;

verus! {

/// Strict lexicographic order on character sequences, by code point.
pub open spec fn seq_lt(a: Seq<char>, b: Seq<char>) -> bool
    decreases a.len(),
{
    if a.len() == 0 {
        b.len() > 0
    } else if b.len() == 0 {
        false
    } else if a[0] != b[0] {
        a[0] < b[0]
    } else {
        seq_lt(a.drop_first(), b.drop_first())
    }
}

pub proof fn lemma_lt_irrefl(a: Seq<char>)
    ensures
        !seq_lt(a, a),
    decreases a.len(),
{
    if a.len() > 0 {
        lemma_lt_irrefl(a.drop_first());
    }
}

pub proof fn lemma_lt_trans(a: Seq<char>, b: Seq<char>, c: Seq<char>)
    requires
        seq_lt(a, b),
        seq_lt(b, c),
    ensures
        seq_lt(a, c),
    decreases a.len(),
{
    if a.len() > 0 && b.len() > 0 && c.len() > 0 {
        if a[0] == b[0] && b[0] == c[0] {
            lemma_lt_trans(a.drop_first(), b.drop_first(), c.drop_first());
        }
    }
}

pub proof fn lemma_lt_total(a: Seq<char>, b: Seq<char>)
    ensures
        a == b || seq_lt(a, b) || seq_lt(b, a),
    decreases a.len(),
{
    if a.len() > 0 && b.len() > 0 {
        if a[0] == b[0] {
            lemma_lt_total(a.drop_first(), b.drop_first());
            if a.drop_first() == b.drop_first() {
                assert(a =~= seq![a[0]] + a.drop_first());
                assert(b =~= seq![b[0]] + b.drop_first());
            }
        }
    } else if a.len() == 0 && b.len() == 0 {
        assert(a =~= b);
    }
}

pub proof fn lemma_lt_asym(a: Seq<char>, b: Seq<char>)
    requires
        seq_lt(a, b),
    ensures
        !seq_lt(b, a),
{
    if seq_lt(b, a) {
        lemma_lt_trans(a, b, a);
        lemma_lt_irrefl(a);
    }
}

/// `(a < b, a == b)` by code point.
pub fn compare_chars(a: &[char], b: &[char]) -> (r: (bool, bool))
    ensures
        r.0 == seq_lt(a@, b@),
        r.1 == (a@ == b@),
{
    let mut i: usize = 0;
    assert(a@.skip(0) =~= a@);
    assert(b@.skip(0) =~= b@);
    assert(a@.take(0) =~= b@.take(0));
    while i < a.len() && i < b.len() && a[i] == b[i]
        invariant
            i <= a.len(),
            i <= b.len(),
            a@.take(i as int) == b@.take(i as int),
            seq_lt(a@, b@) == seq_lt(a@.skip(i as int), b@.skip(i as int)),
        decreases a.len() - i,
    {
        proof {
            let sa = a@.skip(i as int);
            let sb = b@.skip(i as int);
            assert(sa.drop_first() =~= a@.skip(i + 1));
            assert(sb.drop_first() =~= b@.skip(i + 1));
            assert(a@.take(i + 1) =~= a@.take(i as int).push(a@[i as int]));
            assert(b@.take(i + 1) =~= b@.take(i as int).push(b@[i as int]));
        }
        i += 1;
    }
    if i == a.len() && i == b.len() {
        assert(a@ =~= a@.take(i as int));
        assert(b@ =~= b@.take(i as int));
        proof {
            lemma_lt_irrefl(a@);
        }
        (false, true)
    } else if i == a.len() {
        assert(a@.skip(i as int).len() == 0);
        assert(a@ != b@);
        (true, false)
    } else if i == b.len() {
        assert(b@.skip(i as int).len() == 0);
        assert(a@.len() != b@.len());
        assert(a@ != b@);
        (false, false)
    } else {
        assert(a@.skip(i as int)[0] == a@[i as int]);
        assert(b@.skip(i as int)[0] == b@[i as int]);
        assert(a@[i as int] != b@[i as int]);
        assert(a@ != b@);
        (a[i] < b[i], false)
    }
}

/// Keys strictly ascending.
pub open spec fn sorted_keys<V>(entries: Seq<(Seq<char>, V)>) -> bool {
    forall|i: int, j: int|
        0 <= i < j < entries.len() ==> seq_lt(#[trigger] entries[i].0, #[trigger] entries[j].0)
}

/// The map a sorted entry list stands for.
pub open spec fn entries_map<V>(entries: Seq<(Seq<char>, V)>) -> Map<Seq<char>, V> {
    Map::new(
        |k: Seq<char>| exists|i: int| 0 <= i < entries.len() && entries[i].0 == k,
        |k: Seq<char>| entries[key_index(entries, k)].1,
    )
}

/// Where `k` sits in `entries` (meaningful when it is there).
pub open spec fn key_index<V>(entries: Seq<(Seq<char>, V)>, k: Seq<char>) -> int {
    choose|i: int| 0 <= i < entries.len() && entries[i].0 == k
}

/// A map from strings to `V`, its entries kept in ascending key order.
#[derive(Clone, PartialEq, Eq, Debug)]
pub struct StrMap<V> {
    entries: Vec<(String, V)>,
}

impl<V> StrMap<V> {
    /// The entries, keys as character sequences, in ascending key order.
    pub closed spec fn pairs(&self) -> Seq<(Seq<char>, V)> {
        self.entries@.map_values(|e: (String, V)| (e.0@, e.1))
    }

    pub open spec fn wf(&self) -> bool {
        sorted_keys(self.pairs())
    }

    pub open spec fn view(&self) -> Map<Seq<char>, V> {
        entries_map(self.pairs())
    }

    pub fn new() -> (m: Self)
        ensures
            m.wf(),
            m@ == Map::<Seq<char>, V>::empty(),
            m.pairs().len() == 0,
    {
        let m = StrMap { entries: Vec::new() };
        assert(m.pairs() =~= Seq::<(Seq<char>, V)>::empty());
        assert(m@ =~= Map::<Seq<char>, V>::empty());
        m
    }

    pub fn len(&self) -> (n: usize)
        ensures
            n == self.pairs().len(),
    {
        self.entries.len()
    }

    /// The `i`-th entry in ascending key order.
    pub fn entry(&self, i: usize) -> (e: (&String, &V))
        requires
            i < self.pairs().len(),
        ensures
            e.0@ == self.pairs()[i as int].0,
            *e.1 == self.pairs()[i as int].1,
    {
        let e = &self.entries[i];
        (&e.0, &e.1)
    }

    /// Position of the first key not below `k`, and whether it equals `k`.
    fn seek(&self, k: &[char]) -> (r: (usize, bool))
        requires
            self.wf(),
        ensures
            r.0 <= self.pairs().len(),
            forall|j: int| 0 <= j < r.0 ==> seq_lt(#[trigger] self.pairs()[j].0, k@),
            r.0 < self.pairs().len() ==> !seq_lt(self.pairs()[r.0 as int].0, k@),
            r.1 == (r.0 < self.pairs().len() && self.pairs()[r.0 as int].0 == k@),
    {
        let mut i: usize = 0;
        while i < self.entries.len()
            invariant
                i <= self.entries.len(),
                self.entries.len() == self.pairs().len(),
                self.wf(),
                forall|j: int| 0 <= j < i ==> seq_lt(#[trigger] self.pairs()[j].0, k@),
            decreases self.entries.len() - i,
        {
            let key = chars_of(self.entries[i].0.as_str());
            assert(key@ == self.pairs()[i as int].0);
            let (lt, eq) = compare_chars(key.as_slice(), k);
            if !lt {
                return (i, eq);
            }
            i += 1;
        }
        (i, false)
    }

    proof fn lemma_lookup(&self, k: Seq<char>, i: int)
        requires
            self.wf(),
            0 <= i < self.pairs().len(),
            self.pairs()[i].0 == k,
        ensures
            self@.contains_key(k),
            self@[k] == self.pairs()[i].1,
    {
        let p = self.pairs();
        assert(exists|j: int| 0 <= j < p.len() && p[j].0 == k);
        let j = key_index(p, k);
        assert(j == i) by {
            lemma_lt_irrefl(k);
            if j < i {
                assert(seq_lt(p[j].0, p[i].0));
            } else if j > i {
                assert(seq_lt(p[i].0, p[j].0));
            }
        }
        assert(entries_map(p).contains_key(k));
        assert(entries_map(p)[k] == p[j].1);
    }

    /// The value stored under `k`.
    pub fn get(&self, k: &[char]) -> (r: Option<&V>)
        requires
            self.wf(),
        ensures
            r matches Some(v) ==> self@.contains_key(k@) && self@[k@] == *v,
            r is None ==> !self@.contains_key(k@),
    {
        let (i, eq) = self.seek(k);
        if eq {
            proof {
                self.lemma_lookup(k@, i as int);
            }
            Some(&self.entries[i].1)
        } else {
            proof {
                let p = self.pairs();
                assert forall|j: int| 0 <= j < p.len() implies p[j].0 != k@ by {
                    if j < i {
                        assert(seq_lt(p[j].0, k@));
                        lemma_lt_irrefl(k@);
                    } else if j > i {
                        assert(seq_lt(p[i as int].0, p[j].0));
                        lemma_lt_total(p[i as int].0, k@);
                        if p[j].0 == k@ {
                            lemma_lt_asym(p[i as int].0, k@);
                        }
                    }
                }
            }
            None
        }
    }

    /// Set `k` to `v`, replacing any earlier value.
    pub fn insert(&mut self, k: String, v: V)
        requires
            old(self).wf(),
        ensures
            final(self).wf(),
            final(self)@ == old(self)@.insert(k@, v),
    {
        let kc = chars_of(k.as_str());
        let (i, eq) = self.seek(kc.as_slice());
        let ghost p0 = self.pairs();
        if eq {
            self.entries.set(i, (k, v));
            proof {
                let p = self.pairs();
                assert(p =~= p0.update(i as int, (kc@, v)));
                assert(self.wf()) by {
                    assert forall|a: int, b: int| 0 <= a < b < p.len() implies seq_lt(
                        #[trigger] p[a].0,
                        #[trigger] p[b].0,
                    ) by {
                        assert(p0[a].0 == p[a].0 || a == i);
                        assert(p0[b].0 == p[b].0 || b == i);
                    }
                }
                assert(self@ =~= old(self)@.insert(kc@, v)) by {
                    assert forall|key: Seq<char>| #[trigger] self@.contains_key(key) implies old(
                        self,
                    )@.insert(kc@, v).contains_key(key) by {
                        let j = choose|j: int| 0 <= j < p.len() && p[j].0 == key;
                        if j != i {
                            assert(p0[j].0 == key);
                        }
                    }
                    assert forall|key: Seq<char>| #[trigger] old(self)@.insert(
                        kc@,
                        v,
                    ).contains_key(key) implies self@.contains_key(key) && self@[key] == old(
                        self,
                    )@.insert(kc@, v)[key] by {
                        if key == kc@ {
                            self.lemma_lookup(key, i as int);
                        } else {
                            let j = choose|j: int| 0 <= j < p0.len() && p0[j].0 == key;
                            old(self).lemma_lookup(key, j);
                            assert(p[j] == p0[j]);
                            self.lemma_lookup(key, j);
                        }
                    }
                }
            }
        } else {
            self.entries.insert(i, (k, v));
            proof {
                let p = self.pairs();
                assert(p =~= p0.insert(i as int, (kc@, v)));
                assert(self.wf()) by {
                    assert forall|a: int, b: int| 0 <= a < b < p.len() implies seq_lt(
                        #[trigger] p[a].0,
                        #[trigger] p[b].0,
                    ) by {
                        if a < i && b < i {
                            assert(p[a] == p0[a] && p[b] == p0[b]);
                        } else if a < i && b == i {
                            assert(p[a] == p0[a]);
                        } else if a < i && b > i {
                            assert(p[a] == p0[a] && p[b] == p0[b - 1]);
                        } else if a == i {
                            assert(p[b] == p0[b - 1]);
                            assert(i < p0.len());
                            assert(!seq_lt(p0[i as int].0, kc@));
                            lemma_lt_total(p0[i as int].0, kc@);
                            if b - 1 > i {
                                assert(seq_lt(p0[i as int].0, p0[b - 1].0));
                                lemma_lt_trans(kc@, p0[i as int].0, p0[b - 1].0);
                            }
                        } else {
                            assert(p[a] == p0[a - 1] && p[b] == p0[b - 1]);
                        }
                    }
                }
                assert(self@ =~= old(self)@.insert(kc@, v)) by {
                    assert forall|key: Seq<char>| #[trigger] self@.contains_key(key) implies old(
                        self,
                    )@.insert(kc@, v).contains_key(key) by {
                        let j = choose|j: int| 0 <= j < p.len() && p[j].0 == key;
                        if j < i {
                            assert(p0[j].0 == key);
                        } else if j > i {
                            assert(p0[j - 1].0 == key);
                        }
                    }
                    assert forall|key: Seq<char>| #[trigger] old(self)@.insert(
                        kc@,
                        v,
                    ).contains_key(key) implies self@.contains_key(key) && self@[key] == old(
                        self,
                    )@.insert(kc@, v)[key] by {
                        if key == kc@ {
                            self.lemma_lookup(key, i as int);
                        } else {
                            let j = choose|j: int| 0 <= j < p0.len() && p0[j].0 == key;
                            old(self).lemma_lookup(key, j);
                            if j < i {
                                assert(p[j] == p0[j]);
                                self.lemma_lookup(key, j);
                            } else {
                                assert(p[j + 1] == p0[j]);
                                self.lemma_lookup(key, j + 1);
                            }
                        }
                    }
                }
            }
        }
    }

    /// Drop `k`'s entry, if any.
    pub fn remove(&mut self, k: &[char])
        requires
            old(self).wf(),
        ensures
            final(self).wf(),
            final(self)@ == old(self)@.remove(k@),
    {
        let (i, eq) = self.seek(k);
        let ghost p0 = self.pairs();
        if eq {
            self.entries.remove(i);
            proof {
                let p = self.pairs();
                assert(p =~= p0.remove(i as int));
                assert(self.wf()) by {
                    assert forall|a: int, b: int| 0 <= a < b < p.len() implies seq_lt(
                        #[trigger] p[a].0,
                        #[trigger] p[b].0,
                    ) by {
                        if a < i && b < i {
                            assert(p[a] == p0[a] && p[b] == p0[b]);
                        } else if a < i {
                            assert(p[a] == p0[a] && p[b] == p0[b + 1]);
                        } else {
                            assert(p[a] == p0[a + 1] && p[b] == p0[b + 1]);
                        }
                    }
                }
                assert(self@ =~= old(self)@.remove(k@)) by {
                    assert forall|key: Seq<char>| #[trigger] self@.contains_key(key) implies old(
                        self,
                    )@.remove(k@).contains_key(key) by {
                        let j = choose|j: int| 0 <= j < p.len() && p[j].0 == key;
                        let jj = if j < i {
                            j
                        } else {
                            j + 1
                        };
                        assert(p0[jj].0 == key);
                        if key == k@ {
                            assert(seq_lt(p0[jj].0, p0[i as int].0) || seq_lt(
                                p0[i as int].0,
                                p0[jj].0,
                            ));
                            lemma_lt_irrefl(key);
                        }
                    }
                    assert forall|key: Seq<char>| #[trigger] old(self)@.remove(k@).contains_key(
                        key,
                    ) implies self@.contains_key(key) && self@[key] == old(self)@.remove(
                        k@,
                    )[key] by {
                        let j = choose|j: int| 0 <= j < p0.len() && p0[j].0 == key;
                        old(self).lemma_lookup(key, j);
                        assert(j != i);
                        if j < i {
                            assert(p[j] == p0[j]);
                            self.lemma_lookup(key, j);
                        } else {
                            assert(p[j - 1] == p0[j]);
                            self.lemma_lookup(key, j - 1);
                        }
                    }
                }
            }
        } else {
            proof {
                let p = p0;
                assert forall|j: int| 0 <= j < p.len() implies p[j].0 != k@ by {
                    if j < i {
                        lemma_lt_irrefl(k@);
                    } else if j > i {
                        assert(seq_lt(p[i as int].0, p[j].0));
                        lemma_lt_total(p[i as int].0, k@);
                        if p[j].0 == k@ {
                            lemma_lt_asym(p[i as int].0, k@);
                        }
                    }
                }
                assert(self@ =~= old(self)@.remove(k@));
            }
        }
    }
}

} // verus!
