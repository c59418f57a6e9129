//! The exact-key fallback for words the dictionary doesn't know, and the
//! order rhyme groups take their colours in.

use vstd::prelude::*;
use cmudict_fast::Cmudict;
use super::lines::{word_view, WordSpan};
use super::pronounce::{dict_words, is_in_dictionary};
use super::units::{rhyme_units, spec_rhyme_units, unit_views};
use crate::text::{chars_of, eq_str, lowercase, string_from, to_lowercase};

verus! {

/// Common function and filler words left out of rhyme matching: nearly
/// every text has some other word ending in the sound of "of" or "is" by
/// coincidence, which would bury the writer's real rhyme scheme.
pub open spec fn spec_is_stopword(w: Seq<char>) -> bool {

    w == "a"@
        || w == "an"@
        || w == "the"@
        || w == "of"@
        || w == "in"@
        || w == "on"@
        || w == "at"@
        || w == "to"@
        || w == "is"@
        || w == "it"@
        || w == "if"@
        || w == "as"@
        || w == "so"@
        || w == "no"@
        || w == "do"@
        || w == "be"@
        || w == "by"@
        || w == "or"@
        || w == "up"@
        || w == "we"@
        || w == "he"@
        || w == "she"@
        || w == "i"@
        || w == "my"@
        || w == "me"@
        || w == "you"@
        || w == "your"@
        || w == "am"@
        || w == "are"@
        || w == "was"@
        || w == "were"@
        || w == "been"@
        || w == "being"@
        || w == "and"@
        || w == "but"@
        || w == "for"@
        || w == "nor"@
        || w == "yet"@
        || w == "with"@
        || w == "from"@
        || w == "into"@
        || w == "onto"@
        || w == "than"@
        || w == "then"@
        || w == "this"@
        || w == "that"@
        || w == "these"@
        || w == "those"@
        || w == "there"@
        || w == "their"@
        || w == "they"@
        || w == "them"@
        || w == "its"@
        || w == "his"@
        || w == "her"@
        || w == "him"@
        || w == "our"@
        || w == "us"@
        || w == "oh"@
        || w == "ah"@
        || w == "uh"@
        || w == "well"@
        || w == "just"@
        || w == "not"@
        || w == "all"@
        || w == "any"@
        || w == "can"@
        || w == "could"@
        || w == "would"@
        || w == "should"@
        || w == "will"@
        || w == "shall"@
        || w == "may"@
        || w == "might"@
        || w == "must"@
        || w == "did"@
        || w == "does"@
        || w == "done"@
        || w == "had"@
        || w == "has"@
        || w == "have"@
        || w == "let"@
        || w == "get"@
        || w == "got"@
        || w == "go"@
        || w == "goes"@
        || w == "one"@
        || w == "two"@
        || w == "out"@
        || w == "off"@
        || w == "down"@
        || w == "over"@
        || w == "under"@
        || w == "again"@
        || w == "also"@
        || w == "too"@
        || w == "very"@
        || w == "much"@
        || w == "some"@
        || w == "such"@
        || w == "same"@
        || w == "own"@
        || w == "each"@
        || w == "every"@
        || w == "both"@
        || w == "few"@
        || w == "more"@
        || w == "most"@
        || w == "other"@
        || w == "only"@
        || w == "which"@
        || w == "who"@
        || w == "whom"@
        || w == "what"@
        || w == "when"@
        || w == "where"@
        || w == "why"@
        || w == "how"@
}

/// Whether `w` is a stop word.
pub fn is_stopword(w: &str) -> (r: bool)
    ensures
        r == spec_is_stopword(w@),
{
    let cs = chars_of(w);
    let s = cs.as_slice();

    eq_str(s, "a")
        || eq_str(s, "an")
        || eq_str(s, "the")
        || eq_str(s, "of")
        || eq_str(s, "in")
        || eq_str(s, "on")
        || eq_str(s, "at")
        || eq_str(s, "to")
        || eq_str(s, "is")
        || eq_str(s, "it")
        || eq_str(s, "if")
        || eq_str(s, "as")
        || eq_str(s, "so")
        || eq_str(s, "no")
        || eq_str(s, "do")
        || eq_str(s, "be")
        || eq_str(s, "by")
        || eq_str(s, "or")
        || eq_str(s, "up")
        || eq_str(s, "we")
        || eq_str(s, "he")
        || eq_str(s, "she")
        || eq_str(s, "i")
        || eq_str(s, "my")
        || eq_str(s, "me")
        || eq_str(s, "you")
        || eq_str(s, "your")
        || eq_str(s, "am")
        || eq_str(s, "are")
        || eq_str(s, "was")
        || eq_str(s, "were")
        || eq_str(s, "been")
        || eq_str(s, "being")
        || eq_str(s, "and")
        || eq_str(s, "but")
        || eq_str(s, "for")
        || eq_str(s, "nor")
        || eq_str(s, "yet")
        || eq_str(s, "with")
        || eq_str(s, "from")
        || eq_str(s, "into")
        || eq_str(s, "onto")
        || eq_str(s, "than")
        || eq_str(s, "then")
        || eq_str(s, "this")
        || eq_str(s, "that")
        || eq_str(s, "these")
        || eq_str(s, "those")
        || eq_str(s, "there")
        || eq_str(s, "their")
        || eq_str(s, "they")
        || eq_str(s, "them")
        || eq_str(s, "its")
        || eq_str(s, "his")
        || eq_str(s, "her")
        || eq_str(s, "him")
        || eq_str(s, "our")
        || eq_str(s, "us")
        || eq_str(s, "oh")
        || eq_str(s, "ah")
        || eq_str(s, "uh")
        || eq_str(s, "well")
        || eq_str(s, "just")
        || eq_str(s, "not")
        || eq_str(s, "all")
        || eq_str(s, "any")
        || eq_str(s, "can")
        || eq_str(s, "could")
        || eq_str(s, "would")
        || eq_str(s, "should")
        || eq_str(s, "will")
        || eq_str(s, "shall")
        || eq_str(s, "may")
        || eq_str(s, "might")
        || eq_str(s, "must")
        || eq_str(s, "did")
        || eq_str(s, "does")
        || eq_str(s, "done")
        || eq_str(s, "had")
        || eq_str(s, "has")
        || eq_str(s, "have")
        || eq_str(s, "let")
        || eq_str(s, "get")
        || eq_str(s, "got")
        || eq_str(s, "go")
        || eq_str(s, "goes")
        || eq_str(s, "one")
        || eq_str(s, "two")
        || eq_str(s, "out")
        || eq_str(s, "off")
        || eq_str(s, "down")
        || eq_str(s, "over")
        || eq_str(s, "under")
        || eq_str(s, "again")
        || eq_str(s, "also")
        || eq_str(s, "too")
        || eq_str(s, "very")
        || eq_str(s, "much")
        || eq_str(s, "some")
        || eq_str(s, "such")
        || eq_str(s, "same")
        || eq_str(s, "own")
        || eq_str(s, "each")
        || eq_str(s, "every")
        || eq_str(s, "both")
        || eq_str(s, "few")
        || eq_str(s, "more")
        || eq_str(s, "most")
        || eq_str(s, "other")
        || eq_str(s, "only")
        || eq_str(s, "which")
        || eq_str(s, "who")
        || eq_str(s, "whom")
        || eq_str(s, "what")
        || eq_str(s, "when")
        || eq_str(s, "where")
        || eq_str(s, "why")
        || eq_str(s, "how")
}

/// A word that takes the exact-key fallback: at least two characters, and,
/// lower-cased, neither a stop word nor in the dictionary.
pub open spec fn takes_fallback(d: Cmudict, w: (int, int, Seq<char>)) -> bool {
    w.1 - w.0 >= 2 && !spec_is_stopword(lowercase(w.2)) && !dict_words(d).contains(
        lowercase(w.2),
    )
}

/// A word's rhyme units as keyed spans of the text: each unit's key, and
/// its span moved to the word's offset (a unit whose end would not fit the
/// index type is left out).
pub open spec fn word_keyed(d: Cmudict, w: (int, int, Seq<char>)) -> Seq<(Seq<char>, (int, int))> {
    spec_rhyme_units(d, w.2).filter(|u: (Seq<char>, usize, usize)| w.0 + u.2 <= usize::MAX).map_values(
        |u: (Seq<char>, usize, usize)| (u.0, (w.0 + u.1, w.0 + u.2)),
    )
}

/// The keyed spans of every fallback word, in text order.
pub open spec fn fallback_keyed(d: Cmudict, words: Seq<(int, int, Seq<char>)>) -> Seq<
    (Seq<char>, (int, int)),
>
    decreases words.len(),
{
    if words.len() == 0 {
        seq![]
    } else {
        fallback_keyed(d, words.drop_last()) + if takes_fallback(d, words.last()) {
            word_keyed(d, words.last())
        } else {
            seq![]
        }
    }
}

/// Where the group of key `k` sits.
pub open spec fn key_slot(g: Seq<(Seq<char>, Seq<(int, int)>)>, k: Seq<char>) -> Option<int>
    decreases g.len(),
{
    if g.len() == 0 {
        None
    } else if g[0].0 == k {
        Some(0)
    } else {
        match key_slot(g.drop_first(), k) {
            Some(i) => Some(i + 1),
            None => None,
        }
    }
}

/// Keyed spans grouped by key, keys in order of first appearance, each
/// group's spans in order.
pub open spec fn key_groups(pairs: Seq<(Seq<char>, (int, int))>) -> Seq<(Seq<char>, Seq<(int, int)>)>
    decreases pairs.len(),
{
    if pairs.len() == 0 {
        seq![]
    } else {
        let g = key_groups(pairs.drop_last());
        let p = pairs.last();
        match key_slot(g, p.0) {
            Some(j) => g.update(j, (g[j].0, g[j].1.push(p.1))),
            None => g.push((p.0, seq![p.1])),
        }
    }
}

proof fn lemma_key_slot(g: Seq<(Seq<char>, Seq<(int, int)>)>, k: Seq<char>)
    ensures
        match key_slot(g, k) {
            Some(j) => 0 <= j < g.len() && g[j].0 == k,
            None => forall|j: int| 0 <= j < g.len() ==> g[j].0 != k,
        },
    decreases g.len(),
{
    if g.len() > 0 {
        lemma_key_slot(g.drop_first(), k);
        if g[0].0 != k {
            assert forall|j: int| 0 < j < g.len() implies g[j] == g.drop_first()[j - 1] by {}
        }
    }
}

proof fn lemma_key_slot_at(g: Seq<(Seq<char>, Seq<(int, int)>)>, k: Seq<char>, j: int)
    requires
        0 <= j < g.len(),
        g[j].0 == k,
        forall|i: int| 0 <= i < j ==> g[i].0 != k,
    ensures
        key_slot(g, k) == Some(j),
    decreases g.len(),
{
    if j > 0 {
        lemma_key_slot_at(g.drop_first(), k, j - 1);
    }
}

pub open spec fn key_views(v: Seq<Vec<char>>) -> Seq<Seq<char>> {
    v.map_values(|k: Vec<char>| k@)
}

pub open spec fn group_keys(g: Seq<(Seq<char>, Seq<(int, int)>)>) -> Seq<Seq<char>> {
    g.map_values(|e: (Seq<char>, Seq<(int, int)>)| e.0)
}

pub open spec fn group_members(g: Seq<(Seq<char>, Seq<(int, int)>)>) -> Seq<Seq<(int, int)>> {
    g.map_values(|e: (Seq<char>, Seq<(int, int)>)| e.1)
}

pub open spec fn span_views(v: Seq<(usize, usize)>) -> Seq<(int, int)> {
    v.map_values(|s: (usize, usize)| (s.0 as int, s.1 as int))
}

pub open spec fn group_views(v: Seq<Vec<(usize, usize)>>) -> Seq<Seq<(int, int)>> {
    v.map_values(|g: Vec<(usize, usize)>| span_views(g@))
}

fn copy_pairs(v: &Vec<(usize, usize)>) -> (r: Vec<(usize, usize)>)
    ensures
        r@ == v@,
{
    let mut r: Vec<(usize, usize)> = Vec::new();
    let mut i: usize = 0;
    while i < v.len()
        invariant
            i <= v.len(),
            r@ == v@.take(i as int),
        decreases v.len() - i,
    {
        r.push(v[i]);
        assert(r@ =~= v@.take(i + 1));
        i += 1;
    }
    assert(v@.take(v@.len() as int) =~= v@);
    r
}

/// Add `span` under key `key`.
fn add_keyed(
    keys: &mut Vec<Vec<char>>,
    groups: &mut Vec<Vec<(usize, usize)>>,
    key: Vec<char>,
    span: (usize, usize),
    Ghost(pairs): Ghost<Seq<(Seq<char>, (int, int))>>,
)
    requires
        old(keys)@.len() == old(groups)@.len(),
        key_views(old(keys)@) == group_keys(key_groups(pairs)),
        group_views(old(groups)@) == group_members(key_groups(pairs)),
    ensures
        final(keys)@.len() == final(groups)@.len(),
        key_views(final(keys)@) == group_keys(key_groups(pairs.push((key@, (span.0 as int, span.1 as int))))),
        group_views(final(groups)@) == group_members(key_groups(pairs.push((key@, (span.0 as int, span.1 as int))))),
{
    let ghost g = key_groups(pairs);
    let ghost np = pairs.push((key@, (span.0 as int, span.1 as int)));
    proof {
        assert(np.drop_last() =~= pairs);
        lemma_key_slot(g, key@);
        assert(key_views(keys@).len() == keys@.len());
        assert(group_keys(g).len() == g.len());
    }
    let mut j: usize = 0;
    while j < keys.len() && !crate::text::eq_chars(keys[j].as_slice(), key.as_slice())
        invariant
            j <= keys@.len(),
            keys@.len() == g.len(),
            key_views(keys@) == group_keys(g),
            forall|i: int| 0 <= i < j ==> g[i].0 != key@,
        decreases keys@.len() - j,
    {
        assert(key_views(keys@)[j as int] == keys@[j as int]@);
        assert(group_keys(g)[j as int] == g[j as int].0);
        j += 1;
    }
    if j < keys.len() {
        proof {
            assert(key_views(keys@)[j as int] == keys@[j as int]@);
            assert(group_keys(g)[j as int] == g[j as int].0);
            lemma_key_slot_at(g, key@, j as int);
        }
        let mut members = copy_pairs(&groups[j]);
        members.push(span);
        let ghost before = groups@;
        let ghost mj = members@;
        assert(mj == before[j as int]@.push(span));
        groups.set(j, members);
        proof {
            let sv = (span.0 as int, span.1 as int);
            let ng = g.update(j as int, (g[j as int].0, g[j as int].1.push(sv)));
            assert(key_groups(np) == ng);
            assert(group_views(before)[j as int] == group_members(g)[j as int]);
            assert forall|i: int| 0 <= i < groups@.len() implies #[trigger] group_views(groups@)[i]
                == group_members(ng)[i] by {
                if i == j {
                    assert(span_views(mj) =~= span_views(before[j as int]@).push(sv));
                } else {
                    assert(groups@[i] == before[i]);
                    assert(group_views(before)[i] == group_members(g)[i]);
                }
            }
            assert(group_views(groups@) =~= group_members(ng));
            assert forall|i: int| 0 <= i < keys@.len() implies #[trigger] key_views(keys@)[i]
                == group_keys(ng)[i] by {
                assert(key_views(keys@)[i] == group_keys(g)[i]);
            }
            assert(key_views(keys@) =~= group_keys(ng));
        }
    } else {
        proof {
            assert(key_slot(g, key@) is None);
            let ng = g.push((key@, seq![(span.0 as int, span.1 as int)]));
            assert(key_groups(np) == ng);
        }
        let ghost kb = keys@;
        let ghost gb = groups@;
        keys.push(key);
        groups.push(vec![span]);
        proof {
            let ng = g.push((key@, seq![(span.0 as int, span.1 as int)]));
            assert(keys@ == kb.push(key));
            assert forall|i: int| 0 <= i < keys@.len() implies #[trigger] key_views(keys@)[i]
                == group_keys(ng)[i] by {
                if i < kb.len() {
                    assert(key_views(kb)[i] == group_keys(g)[i]);
                }
            }
            assert(key_views(keys@) =~= group_keys(ng));
            assert(groups@ == gb.push(groups@[groups@.len() - 1]));
            assert(groups@[groups@.len() - 1]@ == seq![span]);
            assert(span_views(seq![span]) =~= seq![(span.0 as int, span.1 as int)]);
            assert forall|i: int| 0 <= i < groups@.len() implies #[trigger] group_views(groups@)[i]
                == group_members(ng)[i] by {
                if i < gb.len() {
                    assert(groups@[i] == gb[i]);
                    assert(group_views(gb)[i] == group_members(g)[i]);
                }
            }
            assert(group_views(groups@) =~= group_members(ng));
        }
    }
}


pub open spec fn word_views(v: Seq<WordSpan>) -> Seq<(int, int, Seq<char>)> {
    v.map_values(|w: WordSpan| word_view(w))
}

/// A unit whose end, moved to offset `start`, still fits the index type.
pub open spec fn unit_fits(start: int, u: (Seq<char>, usize, usize)) -> bool {
    start + u.2 <= usize::MAX
}

proof fn lemma_keyed_step(
    start: int,
    us: Seq<(Seq<char>, usize, usize)>,
    k: int,
)
    requires
        0 <= k < us.len(),
    ensures
        us.take(k + 1).filter(|u: (Seq<char>, usize, usize)| start + u.2 <= usize::MAX).map_values(
            |u: (Seq<char>, usize, usize)| (u.0, (start + u.1, start + u.2)),
        ) == us.take(k).filter(|u: (Seq<char>, usize, usize)| start + u.2 <= usize::MAX).map_values(
            |u: (Seq<char>, usize, usize)| (u.0, (start + u.1, start + u.2)),
        ) + if start + us[k].2 <= usize::MAX {
            seq![(us[k].0, (start + us[k].1, start + us[k].2))]
        } else {
            seq![]
        },
{
    reveal(Seq::filter);
    let t = us.take(k + 1);
    assert(t.drop_last() =~= us.take(k));
    assert(t.last() == us[k]);
    let f = us.take(k).filter(|u: (Seq<char>, usize, usize)| start + u.2 <= usize::MAX);
    if start + us[k].2 <= usize::MAX {
        assert(t.filter(|u: (Seq<char>, usize, usize)| start + u.2 <= usize::MAX) == f.push(us[k]));
        assert(f.push(us[k]).map_values(|u: (Seq<char>, usize, usize)| (u.0, (start + u.1, start + u.2)))
            =~= f.map_values(|u: (Seq<char>, usize, usize)| (u.0, (start + u.1, start + u.2))) + seq![
            (us[k].0, (start + us[k].1, start + us[k].2)),
        ]);
    } else {
        assert(f.map_values(|u: (Seq<char>, usize, usize)| (u.0, (start + u.1, start + u.2))) + seq![]
            =~= f.map_values(|u: (Seq<char>, usize, usize)| (u.0, (start + u.1, start + u.2))));
    }
}

/// The exact-key groups of the words the dictionary doesn't know: every
/// fallback word's rhyme units grouped by key, keys in order of first
/// appearance, each group's spans in text order.
pub fn fallback_groups(dict: &Cmudict, words: &Vec<WordSpan>) -> (groups: Vec<Vec<(usize, usize)>>)
    ensures
        group_views(groups@) == group_members(key_groups(fallback_keyed(*dict, word_views(words@)))),
{
    let ghost wv = word_views(words@);
    let mut keys: Vec<Vec<char>> = Vec::new();
    let mut groups: Vec<Vec<(usize, usize)>> = Vec::new();
    let ghost mut pairs: Seq<(Seq<char>, (int, int))> = Seq::empty();
    let mut i: usize = 0;
    proof {
        assert(wv.take(0) =~= Seq::<(int, int, Seq<char>)>::empty());
        assert(key_views(keys@) =~= group_keys(key_groups(pairs)));
        assert(group_views(groups@) =~= group_members(key_groups(pairs)));
    }
    while i < words.len()
        invariant
            i <= words@.len(),
            wv == word_views(words@),
            keys@.len() == groups@.len(),
            pairs == fallback_keyed(*dict, wv.take(i as int)),
            key_views(keys@) == group_keys(key_groups(pairs)),
            group_views(groups@) == group_members(key_groups(pairs)),
        decreases words@.len() - i,
    {
        let w = &words[i];
        let ghost before = pairs;
        let ghost wi = wv[i as int];
        proof {
            let t = wv.take(i + 1);
            assert(t.drop_last() =~= wv.take(i as int));
            assert(t.last() == wi);
            assert(wi == word_view(words@[i as int]));
        }
        let long_enough = w.start <= w.end && w.end - w.start >= 2;
        let mut fallback = false;
        if long_enough {
            let lower = to_lowercase(w.text.as_str());
            fallback = !is_stopword(lower.as_str()) && !is_in_dictionary(dict, w.text.as_str());
        }
        assert(fallback == takes_fallback(*dict, wi));
        if fallback {
            let units = rhyme_units(dict, w.text.as_str());
            let ghost us = spec_rhyme_units(*dict, w.text@);
            let mut k: usize = 0;
            proof {
                assert(us.take(0) =~= Seq::<(Seq<char>, usize, usize)>::empty());
                assert(pairs =~= before + us.take(0).filter(
                    |u: (Seq<char>, usize, usize)| w.start + u.2 <= usize::MAX,
                ).map_values(|u: (Seq<char>, usize, usize)| (u.0, (w.start + u.1, w.start + u.2)))) by {
                    reveal(Seq::filter);
                }
            }
            while k < units.len()
                invariant
                    k <= units@.len(),
                    us == spec_rhyme_units(*dict, w.text@),
                    unit_views(units@) == us,
                    forall|q: int| 0 <= q < units@.len() ==> (#[trigger] units@[q]).start < units@[q].end,
                    keys@.len() == groups@.len(),
                    pairs == before + us.take(k as int).filter(
                        |u: (Seq<char>, usize, usize)| w.start + u.2 <= usize::MAX,
                    ).map_values(|u: (Seq<char>, usize, usize)| (u.0, (w.start + u.1, w.start + u.2))),
                    key_views(keys@) == group_keys(key_groups(pairs)),
                    group_views(groups@) == group_members(key_groups(pairs)),
                decreases units@.len() - k,
            {
                let u = &units[k];
                proof {
                    assert(us[k as int] == (u.key@, u.start, u.end));
                    lemma_keyed_step(w.start as int, us, k as int);
                }
                if u.end <= usize::MAX - w.start {
                    let span = (w.start + u.start, w.start + u.end);
                    add_keyed(&mut keys, &mut groups, chars_of(u.key.as_str()), span, Ghost(pairs));
                    proof {
                        let sv = (span.0 as int, span.1 as int);
                        pairs = pairs.push((u.key@, sv));
                    }
                } else {
                    proof {
                        assert(pairs + Seq::<(Seq<char>, (int, int))>::empty() =~= pairs);
                    }
                }
                proof {
                    let a = us.take(k as int).filter(|x: (Seq<char>, usize, usize)| w.start + x.2 <= usize::MAX).map_values(
                        |x: (Seq<char>, usize, usize)| (x.0, (w.start + x.1, w.start + x.2)),
                    );
                    assert(before + (a + if w.start + us[k as int].2 <= usize::MAX {
                        seq![(us[k as int].0, (w.start + us[k as int].1, w.start + us[k as int].2))]
                    } else {
                        seq![]
                    }) =~= (before + a) + if w.start + us[k as int].2 <= usize::MAX {
                        seq![(us[k as int].0, (w.start + us[k as int].1, w.start + us[k as int].2))]
                    } else {
                        seq![]
                    });
                }
                k += 1;
            }
            proof {
                assert(us.take(us.len() as int) =~= us);
            }
        } else {
            proof {
                assert(pairs + Seq::<(Seq<char>, (int, int))>::empty() =~= pairs);
            }
        }
        i += 1;
    }
    proof {
        assert(wv.take(wv.len() as int) =~= wv);
    }
    groups
}

/// The groups of two or more spans, in order.
pub open spec fn big_groups(gs: Seq<Seq<(int, int)>>) -> Seq<Seq<(int, int)>>
    decreases gs.len(),
{
    if gs.len() == 0 {
        seq![]
    } else {
        big_groups(gs.drop_last()) + if gs.last().len() >= 2 {
            seq![gs.last()]
        } else {
            seq![]
        }
    }
}

/// A rhyme group with the palette slot it is coloured with.
pub struct ColourGroup {
    pub colour: usize,
    pub spans: Vec<(usize, usize)>,
}

fn append_big(
    out: &mut Vec<ColourGroup>,
    src: &Vec<Vec<(usize, usize)>>,
    colours: usize,
    Ghost(head): Ghost<Seq<Seq<(int, int)>>>,
)
    requires
        colours > 0,
        old(out)@.len() == head.len(),
        forall|i: int|
            0 <= i < head.len() ==> (#[trigger] old(out)@[i]).colour == i % (colours as int)
                && span_views(old(out)@[i].spans@) == head[i],
    ensures
        final(out)@.len() == (head + big_groups(group_views(src@))).len(),
        forall|i: int|
            0 <= i < final(out)@.len() ==> (#[trigger] final(out)@[i]).colour == i % (colours as int)
                && span_views(final(out)@[i].spans@) == (head + big_groups(group_views(src@)))[i],
{
    let ghost gv = group_views(src@);
    let mut j: usize = 0;
    assert(gv.take(0) =~= Seq::<Seq<(int, int)>>::empty());
    assert(head + big_groups(gv.take(0)) =~= head);
    while j < src.len()
        invariant
            colours > 0,
            j <= src@.len(),
            gv == group_views(src@),
            out@.len() == (head + big_groups(gv.take(j as int))).len(),
            forall|i: int|
                0 <= i < out@.len() ==> (#[trigger] out@[i]).colour == i % (colours as int)
                    && span_views(out@[i].spans@) == (head + big_groups(gv.take(j as int)))[i],
        decreases src@.len() - j,
    {
        let ghost done = head + big_groups(gv.take(j as int));
        proof {
            let t = gv.take(j + 1);
            assert(t.drop_last() =~= gv.take(j as int));
            assert(t.last() == gv[j as int]);
            assert(gv[j as int] == span_views(src@[j as int]@));
        }
        if src[j].len() >= 2 {
            let n = out.len();
            out.push(ColourGroup { colour: n % colours, spans: copy_pairs(&src[j]) });
            proof {
                assert(head + big_groups(gv.take(j + 1)) =~= done.push(gv[j as int]));
            }
        } else {
            proof {
                assert(head + big_groups(gv.take(j + 1)) =~= done);
            }
        }
        j += 1;
    }
    assert(gv.take(src@.len() as int) =~= gv);
}

/// The groups that get a colour — the exact-key groups, then the scored
/// ones, each only when it has two or more spans — with the palette slot
/// each takes: slots are handed out in that order, wrapping round the
/// palette.
pub fn colour_groups(
    fallback: &Vec<Vec<(usize, usize)>>,
    scored: &Vec<Vec<(usize, usize)>>,
    colours: usize,
) -> (r: Vec<ColourGroup>)
    requires
        colours > 0,
    ensures
        r@.len() == (big_groups(group_views(fallback@)) + big_groups(group_views(scored@))).len(),
        forall|i: int|
            0 <= i < r@.len() ==> (#[trigger] r@[i]).colour == i % (colours as int) && span_views(
                r@[i].spans@,
            ) == (big_groups(group_views(fallback@)) + big_groups(group_views(scored@)))[i],
{
    let mut out: Vec<ColourGroup> = Vec::new();
    append_big(&mut out, fallback, colours, Ghost(Seq::empty()));
    assert(Seq::<Seq<(int, int)>>::empty() + big_groups(group_views(fallback@)) =~= big_groups(
        group_views(fallback@),
    ));
    append_big(&mut out, scored, colours, Ghost(big_groups(group_views(fallback@))));
    out
}

/// One of `spans` holds character `offset`.
pub open spec fn covers(spans: Seq<(usize, usize)>, offset: usize) -> bool {
    exists|j: int| 0 <= j < spans.len() && #[trigger] spans[j].0 <= offset && offset < spans[j].1
}

/// The first group with a span holding character `offset`, if any — the
/// group to emphasise under the pointer.
pub fn group_at_offset(groups: &Vec<ColourGroup>, offset: usize) -> (r: Option<usize>)
    ensures
        match r {
            Some(i) => i < groups@.len() && covers(groups@[i as int].spans@, offset) && forall|k: int|
                0 <= k < i ==> !covers(#[trigger] groups@[k].spans@, offset),
            None => forall|k: int|
                0 <= k < groups@.len() ==> !covers(#[trigger] groups@[k].spans@, offset),
        },
{
    let mut i: usize = 0;
    while i < groups.len()
        invariant
            i <= groups@.len(),
            forall|k: int| 0 <= k < i ==> !covers(#[trigger] groups@[k].spans@, offset),
        decreases groups@.len() - i,
    {
        let spans = &groups[i].spans;
        let mut j: usize = 0;
        while j < spans.len()
            invariant
                i < groups@.len(),
                spans@ == groups@[i as int].spans@,
                forall|k: int| 0 <= k < i ==> !covers(#[trigger] groups@[k].spans@, offset),
                j <= spans@.len(),
                forall|t: int| 0 <= t < j ==> !(#[trigger] spans@[t].0 <= offset && offset < spans@[t].1),
            decreases spans@.len() - j,
        {
            if spans[j].0 <= offset && offset < spans[j].1 {
                assert(spans@[j as int].0 <= offset && offset < spans@[j as int].1);
                return Some(i);
            }
            j += 1;
        }
        i += 1;
    }
    None
}

} // verus!
