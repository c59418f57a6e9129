//! The rhyme search panel's results: the word lists an online lookup
//! returns are merged into one entry per word, then shown grouped by
//! syllable count, fewest first, each group in sorted order.

use vstd::prelude::*;
use crate::sort::{is_text_stable_order, stable_text_order};
use crate::text::{
    char_views, chars_of, eq_chars, extend_str, is_whitespace, is_ws, render_u64, slice_vec,
    string_from, trim_start_seq,
};

verus! {

/// The entries of `lists`, one list after another.
pub open spec fn flat(lists: Seq<Seq<(Seq<char>, usize)>>) -> Seq<(Seq<char>, usize)>
    decreases lists.len(),
{
    if lists.len() == 0 {
        Seq::empty()
    } else {
        flat(lists.drop_last()) + lists.last()
    }
}

/// Each word's syllable count after reading `entries` in order: a later
/// entry replaces an earlier one, and an entry without a count (0) is
/// passed over.
pub open spec fn merged(entries: Seq<(Seq<char>, usize)>) -> Map<Seq<char>, usize>
    decreases entries.len(),
{
    if entries.len() == 0 {
        Map::empty()
    } else {
        let m = merged(entries.drop_last());
        let (w, n) = entries.last();
        if n > 0 {
            m.insert(w, n)
        } else {
            m
        }
    }
}

pub open spec fn pair_views(v: Seq<(String, usize)>) -> Seq<(Seq<char>, usize)> {
    v.map_values(|p: (String, usize)| (p.0@, p.1))
}

pub open spec fn list_views(v: Seq<Vec<(String, usize)>>) -> Seq<Seq<(Seq<char>, usize)>> {
    v.map_values(|l: Vec<(String, usize)>| pair_views(l@))
}

/// No word occurs twice in `v`.
pub open spec fn words_distinct(v: Seq<(Seq<char>, usize)>) -> bool {
    forall|i: int, j: int| 0 <= i < j < v.len() ==> #[trigger] v[i].0 != #[trigger] v[j].0
}

/// The map `v` spells out, one entry per word.
pub open spec fn as_map(v: Seq<(Seq<char>, usize)>) -> Map<Seq<char>, usize> {
    Map::new(
        |w: Seq<char>| exists|i: int| 0 <= i < v.len() && #[trigger] v[i].0 == w,
        |w: Seq<char>| v[choose|i: int| 0 <= i < v.len() && #[trigger] v[i].0 == w].1,
    )
}

fn copy_string(s: &String) -> (r: String)
    ensures
        r@ == s@,
{
    string_from(chars_of(s.as_str()).as_slice())
}

/// Add `(w, n)` to `out`, replacing an entry for the same word.
fn put(out: &mut Vec<(String, usize)>, w: &String, n: usize)
    requires
        words_distinct(pair_views(old(out)@)),
    ensures
        words_distinct(pair_views(final(out)@)),
        as_map(pair_views(final(out)@)) == as_map(pair_views(old(out)@)).insert(w@, n),
{
    let ghost v = pair_views(out@);
    let key = chars_of(w.as_str());
    let mut i: usize = 0;
    while i < out.len()
        invariant
            i <= out@.len(),
            v == pair_views(out@),
            v == pair_views(old(out)@),
            words_distinct(v),
            key@ == w@,
            forall|j: int| 0 <= j < i ==> v[j].0 != w@,
        decreases out@.len() - i,
    {
        let k = chars_of(out[i].0.as_str());
        if eq_chars(k.as_slice(), key.as_slice()) {
            let entry = (copy_string(w), n);
            out.set(i, entry);
            proof {
                let r = pair_views(out@);
                assert(v[i as int].0 == w@);
                assert(r =~= v.update(i as int, (w@, n)));
                assert(as_map(r) =~= as_map(v).insert(w@, n)) by {
                    assert forall|x: Seq<char>| #[trigger] as_map(r).contains_key(x) == as_map(
                        v,
                    ).insert(w@, n).contains_key(x) by {
                        if as_map(v).contains_key(x) {
                            let j = choose|j: int| 0 <= j < v.len() && #[trigger] v[j].0 == x;
                            assert(r[j].0 == x);
                        }
                        if as_map(r).contains_key(x) {
                            let j = choose|j: int| 0 <= j < r.len() && #[trigger] r[j].0 == x;
                            assert(v[j].0 == x);
                        }
                        assert(v[i as int].0 == w@ && r[i as int].0 == w@);
                    }
                    assert forall|x: Seq<char>| #[trigger] as_map(r).contains_key(x) implies as_map(
                        r,
                    )[x] == as_map(v).insert(w@, n)[x] by {
                        let j = choose|j: int| 0 <= j < r.len() && #[trigger] r[j].0 == x;
                        if x != w@ {
                            let k = choose|k: int| 0 <= k < v.len() && #[trigger] v[k].0 == x;
                            assert(k == j);
                        } else {
                            assert(j == i);
                        }
                    }
                }
            }
            return;
        }
        i += 1;
    }
    out.push((copy_string(w), n));
    proof {
        let r = pair_views(out@);
        assert(r =~= v.push((w@, n)));
        assert(as_map(r) =~= as_map(v).insert(w@, n)) by {
            assert forall|x: Seq<char>| #[trigger] as_map(r).contains_key(x) == as_map(v).insert(
                w@,
                n,
            ).contains_key(x) by {
                if as_map(v).contains_key(x) {
                    let j = choose|j: int| 0 <= j < v.len() && #[trigger] v[j].0 == x;
                    assert(r[j].0 == x);
                }
                if as_map(r).contains_key(x) && x != w@ {
                    let j = choose|j: int| 0 <= j < r.len() && #[trigger] r[j].0 == x;
                    assert(v[j].0 == x);
                }
                assert(r[v.len() as int].0 == w@);
            }
            assert forall|x: Seq<char>| #[trigger] as_map(r).contains_key(x) implies as_map(r)[x]
                == as_map(v).insert(w@, n)[x] by {
                let j = choose|j: int| 0 <= j < r.len() && #[trigger] r[j].0 == x;
                if x != w@ {
                    let k = choose|k: int| 0 <= k < v.len() && #[trigger] v[k].0 == x;
                    assert(k == j);
                } else {
                    assert(j == v.len());
                }
            }
        }
    }
}

/// The word lists of a lookup's requests merged into one entry per word:
/// each word with the syllable count of its last listing, words listed
/// without a count left out. Their order is not part of the result.
pub fn merge_lookups(lists: &Vec<Vec<(String, usize)>>) -> (words: Vec<(String, usize)>)
    ensures
        words_distinct(pair_views(words@)),
        as_map(pair_views(words@)) == merged(flat(list_views(lists@))),
{
    let ghost ls = list_views(lists@);
    let mut out: Vec<(String, usize)> = Vec::new();
    assert(as_map(pair_views(out@)) =~= Map::<Seq<char>, usize>::empty());
    let mut i: usize = 0;
    while i < lists.len()
        invariant
            i <= lists@.len(),
            ls == list_views(lists@),
            words_distinct(pair_views(out@)),
            as_map(pair_views(out@)) == merged(flat(ls.take(i as int))),
        decreases lists@.len() - i,
    {
        let list = &lists[i];
        let ghost lv = pair_views(list@);
        let ghost before = flat(ls.take(i as int));
        assert(ls[i as int] == lv);
        let mut j: usize = 0;
        while j < list.len()
            invariant
                j <= list@.len(),
                lv == pair_views(list@),
                words_distinct(pair_views(out@)),
                as_map(pair_views(out@)) == merged(before + lv.take(j as int)),
            decreases list@.len() - j,
        {
            let (ref w, n) = list[j];
            let ghost whole = before + lv.take(j + 1);
            assert(whole.drop_last() =~= before + lv.take(j as int));
            assert(whole.last() == (w@, n));
            if n > 0 {
                put(&mut out, w, n);
            }
            j += 1;
        }
        proof {
            let t = ls.take(i + 1);
            assert(t.drop_last() =~= ls.take(i as int));
            assert(lv.take(lv.len() as int) =~= lv);
            assert(flat(t) == before + lv);
        }
        i += 1;
    }
    assert(ls.take(ls.len() as int) =~= ls);
    out
}

/// One group of results: the words with `syllables` syllables.
pub struct RhymeSection {
    pub syllables: usize,
    pub words: Vec<String>,
}

/// The words of `entries` with `n` syllables, in order.
pub open spec fn words_with(entries: Seq<(Seq<char>, usize)>, n: usize) -> Seq<Seq<char>>
    decreases entries.len(),
{
    if entries.len() == 0 {
        Seq::empty()
    } else {
        let rest = words_with(entries.drop_last(), n);
        if entries.last().1 == n {
            rest.push(entries.last().0)
        } else {
            rest
        }
    }
}

/// `sorted` is `words` sorted stably by code point.
pub open spec fn is_sorted_form(words: Seq<Seq<char>>, sorted: Seq<Seq<char>>) -> bool {
    exists|order: Seq<usize>|
        is_text_stable_order(words, order) && sorted == order.map_values(|k: usize| words[k as int])
}

/// The results in sections: one per syllable count that occurs, fewest
/// syllables first, each holding that count's words in sorted order.
pub open spec fn is_sectioned(entries: Seq<(Seq<char>, usize)>, sections: Seq<(usize, Seq<Seq<char>>)>) -> bool {
    &&& forall|a: int, b: int| 0 <= a < b < sections.len() ==> #[trigger] sections[a].0 < #[trigger] sections[b].0
    &&& sections.map_values(|s: (usize, Seq<Seq<char>>)| s.0).to_set() == entries.map_values(
        |e: (Seq<char>, usize)| e.1,
    ).to_set()
    &&& forall|s: int| 0 <= s < sections.len() ==> is_sorted_form(
        words_with(entries, #[trigger] sections[s].0),
        sections[s].1,
    )
}

pub open spec fn section_views(v: Seq<RhymeSection>) -> Seq<(usize, Seq<Seq<char>>)> {
    v.map_values(|s: RhymeSection| (s.syllables, s.words@.map_values(|w: String| w@)))
}

/// The syllable counts that occur in `words`, ascending.
fn counts_of(words: &Vec<(String, usize)>) -> (counts: Vec<usize>)
    ensures
        forall|a: int, b: int| 0 <= a < b < counts@.len() ==> #[trigger] counts@[a] < #[trigger] counts@[b],
        forall|n: usize|
            (exists|i: int| 0 <= i < words@.len() && #[trigger] pair_views(words@)[i].1 == n)
                <==> counts@.contains(n),
{
    let mut counts: Vec<usize> = Vec::new();
    let mut i: usize = 0;
    while i < words.len()
        invariant
            i <= words@.len(),
            forall|a: int, b: int| 0 <= a < b < counts@.len() ==> #[trigger] counts@[a] < #[trigger] counts@[b],
            forall|n: usize| (exists|k: int| 0 <= k < i && #[trigger] words@[k].1 == n) <==> counts@.contains(n),
        decreases words@.len() - i,
    {
        let n = words[i].1;
        let mut p: usize = 0;
        while p < counts.len() && counts[p] < n
            invariant
                p <= counts@.len(),
                forall|m: int| 0 <= m < p ==> #[trigger] counts@[m] < n,
            decreases counts@.len() - p,
        {
            p += 1;
        }
        let ghost before = counts@;
        if p < counts.len() && counts[p] == n {
            proof {
                assert forall|x: usize| (exists|k: int| 0 <= k < i + 1 && #[trigger] words@[k].1 == x) <==> counts@.contains(x) by {
                    if x == n {
                        assert(counts@[p as int] == x);
                    }
                    if exists|k: int| 0 <= k < i + 1 && #[trigger] words@[k].1 == x {
                        let k = choose|k: int| 0 <= k < i + 1 && #[trigger] words@[k].1 == x;
                        if k < i {
                            assert(exists|k: int| 0 <= k < i && #[trigger] words@[k].1 == x);
                        }
                    }
                }
            }
        } else {
            counts.insert(p, n);
            proof {
                assert(counts@ =~= before.insert(p as int, n));
                assert forall|a: int, b: int| 0 <= a < b < counts@.len() implies #[trigger] counts@[a] < #[trigger] counts@[b] by {
                    if a < p && b == p {
                    } else if a < p && b > p {
                        assert(counts@[b] == before[b - 1]);
                        assert(before[a] < before[p as int] || p as int == b - 1);
                    } else if a == p && b > p {
                        assert(counts@[b] == before[b - 1]);
                        assert(before[p as int] > n || b - 1 > p);
                        if b - 1 > p {
                            assert(before[p as int] < before[b - 1]);
                        }
                    } else if a > p {
                        assert(counts@[a] == before[a - 1]);
                        assert(counts@[b] == before[b - 1]);
                    }
                }
                assert forall|x: usize| (exists|k: int| 0 <= k < i + 1 && #[trigger] words@[k].1 == x) <==> counts@.contains(x) by {
                    if x == n {
                        assert(counts@[p as int] == x);
                        assert(words@[i as int].1 == x);
                    }
                    if counts@.contains(x) && x != n {
                        let c = choose|c: int| 0 <= c < counts@.len() && counts@[c] == x;
                        if c < p {
                            assert(before[c] == x);
                        } else {
                            assert(before[c - 1] == x);
                        }
                        assert(before.contains(x));
                    }
                    if before.contains(x) {
                        let c = choose|c: int| 0 <= c < before.len() && before[c] == x;
                        if c < p {
                            assert(counts@[c] == x);
                        } else {
                            assert(counts@[c + 1] == x);
                        }
                    }
                    if exists|k: int| 0 <= k < i + 1 && #[trigger] words@[k].1 == x {
                        let k = choose|k: int| 0 <= k < i + 1 && #[trigger] words@[k].1 == x;
                        if k < i {
                            assert(exists|k: int| 0 <= k < i && #[trigger] words@[k].1 == x);
                        }
                    }
                }
            }
        }
        i += 1;
    }
    assert forall|n: usize|
        (exists|i: int| 0 <= i < words@.len() && #[trigger] pair_views(words@)[i].1 == n)
            <==> counts@.contains(n) by {
        if exists|i: int| 0 <= i < words@.len() && #[trigger] pair_views(words@)[i].1 == n {
            let i = choose|i: int| 0 <= i < words@.len() && #[trigger] pair_views(words@)[i].1 == n;
            assert(words@[i].1 == n);
        }
        if counts@.contains(n) {
            let i = choose|i: int| 0 <= i < words@.len() && #[trigger] words@[i].1 == n;
            assert(pair_views(words@)[i].1 == n);
        }
    }
    counts
}

proof fn lemma_sectioned(ev: Seq<(Seq<char>, usize)>, counts: Seq<usize>, sv: Seq<(usize, Seq<Seq<char>>)>)
    requires
        forall|a: int, b: int| 0 <= a < b < counts.len() ==> #[trigger] counts[a] < #[trigger] counts[b],
        forall|n: usize| (exists|i: int| 0 <= i < ev.len() && #[trigger] ev[i].1 == n) <==> counts.contains(n),
        sv.len() == counts.len(),
        forall|a: int| 0 <= a < sv.len() ==> #[trigger] sv[a].0 == counts[a],
        forall|a: int| 0 <= a < sv.len() ==> is_sorted_form(words_with(ev, counts[a]), #[trigger] sv[a].1),
    ensures
        is_sectioned(ev, sv),
{
    assert forall|a: int, b: int| 0 <= a < b < sv.len() implies #[trigger] sv[a].0
        < #[trigger] sv[b].0 by {
        assert(sv[a].0 == counts[a] && sv[b].0 == counts[b]);
    }
    let firsts = sv.map_values(|s: (usize, Seq<Seq<char>>)| s.0);
    let seconds = ev.map_values(|e: (Seq<char>, usize)| e.1);
    assert(firsts =~= counts);
    assert forall|n: usize| firsts.to_set().contains(n) == seconds.to_set().contains(n) by {
        if seconds.contains(n) {
            let i = choose|i: int| 0 <= i < seconds.len() && seconds[i] == n;
            assert(ev[i].1 == n);
        }
        if counts.contains(n) {
            let i = choose|i: int| 0 <= i < ev.len() && #[trigger] ev[i].1 == n;
            assert(seconds[i] == n);
        }
    }
    assert(firsts.to_set() =~= seconds.to_set());
    assert forall|a: int| 0 <= a < sv.len() implies is_sorted_form(
        words_with(ev, #[trigger] sv[a].0),
        sv[a].1,
    ) by {
        assert(sv[a].0 == counts[a]);
    }
}

/// The words with `n` syllables, in the order given.
fn select_words(words: &Vec<(String, usize)>, n: usize) -> (keys: Vec<Vec<char>>)
    ensures
        char_views(keys@) == words_with(pair_views(words@), n),
{
    let ghost ev = pair_views(words@);
    let mut keys: Vec<Vec<char>> = Vec::new();
    let mut i: usize = 0;
    while i < words.len()
        invariant
            i <= words@.len(),
            ev == pair_views(words@),
            char_views(keys@) == words_with(ev.take(i as int), n),
        decreases words@.len() - i,
    {
        let ghost t = ev.take(i + 1);
        assert(t.drop_last() =~= ev.take(i as int));
        if words[i].1 == n {
            let ghost before = keys@;
            let k = chars_of(words[i].0.as_str());
            keys.push(k);
            assert(char_views(keys@) =~= char_views(before).push(k@));
        }
        i += 1;
    }
    assert(ev.take(ev.len() as int) =~= ev);
    keys
}

/// The results in sections by syllable count.
pub fn rhyme_sections(words: &Vec<(String, usize)>) -> (sections: Vec<RhymeSection>)
    ensures
        is_sectioned(pair_views(words@), section_views(sections@)),
{
    let ghost ev = pair_views(words@);
    let counts = counts_of(words);
    let mut sections: Vec<RhymeSection> = Vec::new();
    let mut s: usize = 0;
    while s < counts.len()
        invariant
            s <= counts@.len(),
            ev == pair_views(words@),
            section_views(sections@).len() == s,
            forall|a: int| 0 <= a < s ==> #[trigger] section_views(sections@)[a].0 == counts@[a],
            forall|a: int| 0 <= a < s ==> is_sorted_form(
                words_with(ev, counts@[a]),
                #[trigger] section_views(sections@)[a].1,
            ),
        decreases counts@.len() - s,
    {
        let n = counts[s];
        let keys = select_words(words, n);
        let order = stable_text_order(&keys);
        let ghost kv = char_views(keys@);
        let mut sorted: Vec<String> = Vec::new();
        let mut j: usize = 0;
        while j < order.len()
            invariant
                j <= order@.len(),
                kv == char_views(keys@),
                is_text_stable_order(kv, order@),
                sorted@.map_values(|w: String| w@) == order@.take(j as int).map_values(|k: usize| kv[k as int]),
            decreases order@.len() - j,
        {
            let k = order[j];
            let w = string_from(keys[k].as_slice());
            let ghost before = sorted@.map_values(|w: String| w@);
            sorted.push(w);
            assert(kv[k as int] == keys@[k as int]@);
            assert(sorted@.map_values(|w: String| w@) =~= before.push(w@));
            assert(order@.take(j + 1).map_values(|k: usize| kv[k as int]) =~= order@.take(j as int).map_values(
                |k: usize| kv[k as int],
            ).push(kv[k as int]));
            j += 1;
        }
        assert(order@.take(order@.len() as int) =~= order@);
        let ghost sv = sorted@.map_values(|w: String| w@);
        assert(is_sorted_form(kv, sv));
        let ghost prev = section_views(sections@);
        sections.push(RhymeSection { syllables: n, words: sorted });
        assert(section_views(sections@) =~= prev.push((n, sv)));
        s += 1;
    }
    proof {
        lemma_sectioned(ev, counts@, section_views(sections@));
    }
    sections
}

/// A section's heading: its syllable count, in the panel's markup.
pub fn section_header(syllables: usize) -> (r: String)
    ensures
        r@ == "<span font_weight='bold' color='#e1e1e1'>"@ + crate::text::render_int(
            syllables as int,
        ) + if syllables == 1 {
            " Syllable"@
        } else {
            " Syllables"@
        } + "</span>"@,
{
    let mut out: Vec<char> = Vec::new();
    extend_str(&mut out, "<span font_weight='bold' color='#e1e1e1'>");
    let digits = render_u64(syllables as u64);
    crate::text::extend_chars(&mut out, digits.as_slice());
    if syllables == 1 {
        extend_str(&mut out, " Syllable");
    } else {
        extend_str(&mut out, " Syllables");
    }
    extend_str(&mut out, "</span>");
    string_from(out.as_slice())
}

/// `words` joined with `, `.
pub open spec fn joined(words: Seq<Seq<char>>) -> Seq<char>
    decreases words.len(),
{
    if words.len() == 0 {
        Seq::empty()
    } else if words.len() == 1 {
        words[0]
    } else {
        joined(words.drop_last()) + ", "@ + words.last()
    }
}

/// A section's words, comma-separated, in the panel's markup.
pub fn section_words(words: &Vec<String>) -> (r: String)
    ensures
        r@ == "<span color='#ffffff'>"@ + joined(words@.map_values(|w: String| w@)) + "</span>"@,
{
    let ghost wv = words@.map_values(|w: String| w@);
    let mut out: Vec<char> = Vec::new();
    extend_str(&mut out, "<span color='#ffffff'>");
    let ghost start = out@;
    let mut i: usize = 0;
    while i < words.len()
        invariant
            i <= words@.len(),
            wv == words@.map_values(|w: String| w@),
            out@ == start + joined(wv.take(i as int)),
        decreases words@.len() - i,
    {
        let ghost t = wv.take(i + 1);
        assert(t.drop_last() =~= wv.take(i as int));
        if i > 0 {
            extend_str(&mut out, ", ");
        }
        extend_str(&mut out, words[i].as_str());
        assert(out@ =~= start + joined(t));
        i += 1;
    }
    assert(wv.take(wv.len() as int) =~= wv);
    extend_str(&mut out, "</span>");
    string_from(out.as_slice())
}

/// The length of the run of non-white-space characters `s` starts with.
pub open spec fn word_len(s: Seq<char>) -> nat
    decreases s.len(),
{
    if s.len() == 0 || is_ws(s[0]) {
        0
    } else {
        1 + word_len(s.drop_first())
    }
}

/// The word a rhyme search looks up: the first white-space-separated word
/// of what was typed; `None` when there is none.
pub open spec fn spec_search_word(input: Seq<char>) -> Option<Seq<char>> {
    let t = trim_start_seq(input);
    if t.len() == 0 {
        None
    } else {
        Some(t.take(word_len(t) as int))
    }
}

proof fn lemma_word_len(s: Seq<char>, i: int)
    requires
        0 <= i <= s.len(),
        forall|j: int| 0 <= j < i ==> !is_ws(s[j]),
        i == s.len() || is_ws(s[i]),
    ensures
        word_len(s) == i,
    decreases i,
{
    if i > 0 {
        assert forall|j: int| 0 <= j < i - 1 implies !is_ws(s.drop_first()[j]) by {
            assert(s.drop_first()[j] == s[j + 1]);
        }
        if i < s.len() {
            assert(s.drop_first()[i - 1] == s[i]);
        }
        lemma_word_len(s.drop_first(), i - 1);
    }
}

/// The word to look up for the search box's text `input`.
pub fn search_word(input: &str) -> (r: Option<String>)
    ensures
        match r {
            Some(w) => spec_search_word(input@) == Some(w@),
            None => spec_search_word(input@) is None,
        },
{
    let cs = chars_of(input);
    let rest = crate::text::trim_start_from(cs.as_slice(), 0);
    assert(cs@.skip(0) =~= input@);
    if rest.len() == 0 {
        return None;
    }
    let mut i: usize = 0;
    while i < rest.len() && !is_whitespace(rest[i])
        invariant
            i <= rest@.len(),
            forall|j: int| 0 <= j < i ==> !is_ws(rest@[j]),
        decreases rest@.len() - i,
    {
        i += 1;
    }
    proof {
        lemma_word_len(rest@, i as int);
    }
    let word = slice_vec(rest.as_slice(), 0, i);
    assert(word@ =~= rest@.take(i as int));
    Some(string_from(word.as_slice()))
}

} // verus!
