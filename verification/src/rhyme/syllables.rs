//! Letter spans for a word's syllables: where each syllable's rhymeable
//! part (vowel onward) sits in the spelling. Hyphenation patterns are
//! preferred; a vowel-letter-run heuristic is the fallback.

use vstd::prelude::*;
use crate::session::string_views;
use crate::text::{ascii_lower, chars_of, is_ascii_alpha, to_ascii_lowercase};

verus! {

/// The syllables `hypher` splits a word into with the English patterns.
pub uninterp spec fn syllable_pieces(word: Seq<char>) -> Seq<Seq<char>>;

/// `hypher::hyphenate(word, Lang::English)`, collected. The pieces are
/// consecutive non-empty slices of the word, so they join back into it.
#[verifier::external_body]
fn hyphenate_english(word: &str) -> (r: Vec<String>)
    ensures
        string_views(r@) == syllable_pieces(word@),
        string_views(r@).flatten() == word@,
        forall|i: int| 0 <= i < r@.len() ==> (#[trigger] r@[i])@.len() > 0,
{
    hypher::hyphenate(word, hypher::Lang::English).map(|p| p.to_string()).collect()
}

/// A vowel letter (`y` included), in either case.
pub open spec fn is_vowel_letter(c: char) -> bool {
    let l = ascii_lower(c);
    l == 'a' || l == 'e' || l == 'i' || l == 'o' || l == 'u' || l == 'y'
}

pub fn vowel_letter(c: char) -> (r: bool)
    ensures
        r == is_vowel_letter(c),
{
    let l = to_ascii_lowercase(c);
    l == 'a' || l == 'e' || l == 'i' || l == 'o' || l == 'u' || l == 'y'
}

/// Position `i` starts a run of vowel letters.
pub open spec fn is_run_start(w: Seq<char>, i: int) -> bool {
    is_vowel_letter(w[i]) && (i == 0 || !is_vowel_letter(w[i - 1]))
}

/// Where each run of vowel letters starts among the first `n` letters, in
/// order.
pub open spec fn run_starts_upto(w: Seq<char>, n: nat) -> Seq<int> {
    Seq::new(n, |i: int| i).filter(|i: int| is_run_start(w, i))
}

/// Where each run of vowel letters starts, in order.
pub open spec fn run_starts(w: Seq<char>) -> Seq<int> {
    run_starts_upto(w, w.len())
}

/// One span per vowel run, from its start to the next run's start (the
/// last to the end of the word); the whole word when it has no vowel.
pub open spec fn run_spans(w: Seq<char>) -> Seq<(usize, usize)> {
    let s = run_starts(w);
    if s.len() == 0 {
        seq![(0usize, w.len() as usize)]
    } else {
        Seq::new(
            s.len(),
            |k: int| (s[k] as usize, if k + 1 < s.len() { s[k + 1] as usize } else { w.len() as usize }),
        )
    }
}

/// Too many spans: the ones past the `target`-th (at least the first) are
/// folded into it.
pub open spec fn fold_tail(spans: Seq<(usize, usize)>, target: int) -> Seq<(usize, usize)> {
    let t = if target < 1 { 1 } else { target };
    if spans.len() > t {
        spans.take(t - 1).push((spans[t - 1].0, spans.last().1))
    } else {
        spans
    }
}

/// Too few spans: the last one is halved until there are `target`.
pub open spec fn split_tail(spans: Seq<(usize, usize)>, target: int) -> Seq<(usize, usize)>
    decreases target - spans.len(),
{
    if spans.len() < target && spans.len() > 0 {
        let (s, e) = spans.last();
        let mid = (s + (e - s) / 2) as usize;
        split_tail(spans.drop_last().push((s, mid)).push((mid, e)), target)
    } else {
        spans
    }
}

/// The vowel-run syllable spans of `w` for `target` syllables.
pub open spec fn spec_vowel_run_syllables(w: Seq<char>, target: int) -> Seq<(usize, usize)> {
    split_tail(fold_tail(run_spans(w), target), target)
}

proof fn lemma_run_starts_step(w: Seq<char>, i: nat)
    requires
        i < w.len(),
    ensures
        run_starts_upto(w, i + 1) == run_starts_upto(w, i) + (if is_run_start(w, i as int) {
            seq![i as int]
        } else {
            seq![]
        }),
{
    let a = Seq::new(i + 1, |j: int| j);
    let b = Seq::new(i, |j: int| j);
    assert(a.drop_last() =~= b);
    reveal_with_fuel(Seq::<_>::filter, 1);
    if is_run_start(w, i as int) {
        assert(a.filter(|j: int| is_run_start(w, j)) =~= b.filter(|j: int| is_run_start(w, j)).push(i as int));
    } else {
        assert(a.filter(|j: int| is_run_start(w, j)) =~= b.filter(|j: int| is_run_start(w, j)));
    }
}

/// Each span runs forward, and each ends before the next begins.
pub open spec fn chained(spans: Seq<(usize, usize)>) -> bool {
    &&& forall|k: int| 0 <= k < spans.len() ==> (#[trigger] spans[k]).0 <= spans[k].1
    &&& forall|a: int, b: int| 0 <= a < b < spans.len() ==> (#[trigger] spans[a]).1 <= (#[trigger] spans[b]).0
}

fn run_starts_of(w: &Vec<char>) -> (starts: Vec<usize>)
    ensures
        starts@.map_values(|s: usize| s as int) == run_starts(w@),
        forall|k: int| 0 <= k < starts@.len() ==> (#[trigger] starts@[k]) < w@.len(),
        forall|a: int, b: int| 0 <= a < b < starts@.len() ==> (#[trigger] starts@[a]) < (#[trigger] starts@[b]),
{
    let n = w.len();
    let mut starts: Vec<usize> = Vec::new();
    let mut prev_vowel = false;
    let mut i: usize = 0;
    assert(run_starts_upto(w@, 0) =~= seq![]);
    while i < n
        invariant
            i <= n,
            n == w@.len(),
            starts@.map_values(|s: usize| s as int) == run_starts_upto(w@, i as nat),
            forall|k: int| 0 <= k < starts@.len() ==> (#[trigger] starts@[k]) < i,
            forall|a: int, b: int| 0 <= a < b < starts@.len() ==> (#[trigger] starts@[a]) < (#[trigger] starts@[b]),
            i > 0 ==> prev_vowel == is_vowel_letter(w@[i - 1]),
            i == 0 ==> !prev_vowel,
        decreases n - i,
    {
        let v = vowel_letter(w[i]);
        proof {
            lemma_run_starts_step(w@, i as nat);
        }
        let ghost before = starts@;
        if v && !prev_vowel {
            starts.push(i);
            assert(starts@.map_values(|s: usize| s as int) =~= before.map_values(|s: usize| s as int).push(i as int));
        } else {
            assert(run_starts_upto(w@, (i + 1) as nat) =~= run_starts_upto(w@, i as nat));
        }
        prev_vowel = v;
        i += 1;
    }
    starts
}

fn run_spans_of(n: usize, starts: &Vec<usize>, Ghost(w): Ghost<Seq<char>>) -> (spans: Vec<(usize, usize)>)
    requires
        starts@.map_values(|s: usize| s as int) == run_starts(w),
        n == w.len(),
        forall|k: int| 0 <= k < starts@.len() ==> (#[trigger] starts@[k]) < w.len(),
        forall|a: int, b: int| 0 <= a < b < starts@.len() ==> (#[trigger] starts@[a]) < (#[trigger] starts@[b]),
    ensures
        spans@ == run_spans(w),
        chained(spans@),
        spans@.len() > 0,
        forall|k: int| 0 <= k < spans@.len() ==> (#[trigger] spans@[k]).1 <= n,
{
    let ghost rs = run_starts(w);
    let mut spans: Vec<(usize, usize)> = Vec::new();
    if starts.len() == 0 {
        spans.push((0, n));
        assert(spans@ =~= run_spans(w));
    } else {
        let mut k: usize = 0;
        while k < starts.len()
            invariant
                k <= starts.len(),
                rs == starts@.map_values(|s: usize| s as int),
                rs.len() > 0,
                rs == run_starts(w),
                n == w.len(),
                forall|q: int| 0 <= q < starts@.len() ==> (#[trigger] starts@[q]) < w.len(),
                forall|a: int, b: int| 0 <= a < b < starts@.len() ==> (#[trigger] starts@[a]) < (#[trigger] starts@[b]),
                spans@ == run_spans(w).take(k as int),
                chained(spans@),
                forall|q: int| 0 <= q < spans@.len() ==> (#[trigger] spans@[q]).1 <= n,
                0 < k < starts.len() ==> spans@[k - 1].1 == starts@[k as int],
            decreases starts.len() - k,
        {
            let end = if k + 1 < starts.len() {
                starts[k + 1]
            } else {
                n
            };
            spans.push((starts[k], end));
            proof {
                assert(rs[k as int] == starts@[k as int] as int);
                if k + 1 < starts.len() {
                    assert(rs[k + 1] == starts@[k + 1] as int);
                }
                assert(run_spans(w)[k as int] == (starts@[k as int], end));
                assert(spans@ =~= run_spans(w).take(k + 1));
            }
            k += 1;
        }
        assert(run_spans(w).take(starts.len() as int) =~= run_spans(w));
    }
    spans
}

/// Split `word` into `target_count` character spans, each starting at a run
/// of vowel letters and reaching the next run. More runs than syllables
/// fold the extra ones into the last kept span; fewer split the last span
/// in halves until the count matches.
pub fn vowel_run_syllables(word: &str, target_count: usize) -> (spans: Vec<(usize, usize)>)
    ensures
        spans@ == spec_vowel_run_syllables(word@, target_count as int),
        chained(spans@),
        spans@.len() == if target_count < 1 { 1 } else { target_count as int },
        forall|k: int| 0 <= k < spans@.len() ==> (#[trigger] spans@[k]).1 <= word@.len(),
{
    let w = chars_of(word);
    let starts = run_starts_of(&w);
    let mut spans = run_spans_of(w.len(), &starts, Ghost(w@));
    let t: usize = if target_count < 1 { 1 } else { target_count };
    let ghost initial = spans@;
    if spans.len() > t {
        let last_end = spans[spans.len() - 1].1;
        let first_start = spans[t - 1].0;
        spans.truncate(t - 1);
        spans.push((first_start, last_end));
        assert(spans@ =~= fold_tail(initial, target_count as int));
    }
    assert(spans@ == fold_tail(initial, target_count as int));
    assert(forall|k: int| 0 <= k < spans@.len() ==> (#[trigger] spans@[k]).1 <= w@.len()) by {
        if initial.len() > t {
            assert forall|k: int| 0 <= k < spans@.len() implies (#[trigger] spans@[k]).1 <= w@.len() by {
                if k < t - 1 {
                    assert(spans@[k] == initial[k]);
                } else {
                    assert(initial[initial.len() - 1].1 <= w@.len());
                }
            }
        }
    }
    assert(chained(spans@)) by {
        if initial.len() > t {
            assert forall|a: int, b: int| 0 <= a < b < spans@.len() implies (#[trigger] spans@[a]).1 <= (#[trigger] spans@[b]).0 by {
                assert(spans@[a] == initial[a]);
                if b < t - 1 {
                    assert(spans@[b] == initial[b]);
                }
            }
            assert(initial[t - 1].0 <= initial[t - 1].1);
            if t - 1 < initial.len() - 1 {
                assert(initial[t - 1].1 <= initial[initial.len() - 1].0);
            }
        }
    }
    while spans.len() < target_count
        invariant
            spans@.len() > 0,
            chained(spans@),
            spans@.len() <= (if target_count < 1 { 1 } else { target_count as int }),
            forall|k: int| 0 <= k < spans@.len() ==> (#[trigger] spans@[k]).1 <= word@.len(),
            split_tail(spans@, target_count as int) == spec_vowel_run_syllables(word@, target_count as int),
        decreases target_count - spans.len(),
    {
        let (s, e) = spans[spans.len() - 1];
        assert(spans@[spans@.len() - 1].0 <= spans@[spans@.len() - 1].1);
        let mid = s + (e - s) / 2;
        let ghost before = spans@;
        spans.pop();
        spans.push((s, mid));
        spans.push((mid, e));
        proof {
            assert(spans@ =~= before.drop_last().push((s, mid)).push((mid, e)));
            assert(before[before.len() - 1].1 <= word@.len());
            assert forall|k: int| 0 <= k < spans@.len() implies (#[trigger] spans@[k]).1 <= word@.len() by {
                if k < before.len() - 1 {
                    assert(spans@[k] == before[k]);
                }
            }
            assert forall|a: int, b: int| 0 <= a < b < spans@.len() implies (#[trigger] spans@[a]).1 <= (#[trigger] spans@[b]).0 by {
                if b < before.len() - 1 {
                    assert(spans@[a] == before[a]);
                    assert(spans@[b] == before[b]);
                } else if a < before.len() - 1 {
                    assert(spans@[a] == before[a]);
                    assert(before[a].1 <= before[before.len() - 1].0);
                }
            }
        }
    }
    spans
}

/// The total length of some pieces.
pub open spec fn pieces_len(p: Seq<Seq<char>>) -> nat
    decreases p.len(),
{
    if p.len() == 0 {
        0
    } else {
        p[0].len() + pieces_len(p.drop_first())
    }
}

proof fn lemma_pieces_len_add(a: Seq<Seq<char>>, b: Seq<Seq<char>>)
    ensures
        pieces_len(a + b) == pieces_len(a) + pieces_len(b),
    decreases a.len(),
{
    if a.len() > 0 {
        assert((a + b).drop_first() =~= a.drop_first() + b);
        lemma_pieces_len_add(a.drop_first(), b);
    } else {
        assert(a + b =~= b);
    }
}

proof fn lemma_pieces_len_flatten(p: Seq<Seq<char>>)
    ensures
        pieces_len(p) == p.flatten().len(),
    decreases p.len(),
{
    if p.len() > 0 {
        lemma_pieces_len_flatten(p.drop_first());
    }
}

/// Piece `k` covers letters `pieces_len(p[..k])..pieces_len(p[..=k])`.
pub open spec fn piece_spans(p: Seq<Seq<char>>) -> Seq<(usize, usize)> {
    Seq::new(p.len(), |k: int| (pieces_len(p.take(k)) as usize, pieces_len(p.take(k + 1)) as usize))
}

/// Every letter is an ASCII letter.
pub open spec fn all_ascii_alpha(w: Seq<char>) -> bool {
    forall|i: int| 0 <= i < w.len() ==> is_ascii_alpha(#[trigger] w[i])
}

/// The hyphenation pieces' letter spans, when the word is plain ASCII
/// letters and the patterns yield exactly `target` pieces.
pub open spec fn spec_hyphenation_spans(w: Seq<char>, target: int) -> Option<Seq<(usize, usize)>> {
    if !all_ascii_alpha(w) {
        None
    } else if syllable_pieces(w).len() != target {
        None
    } else {
        Some(piece_spans(syllable_pieces(w)))
    }
}

/// Letter-level syllable spans for `word` from the hyphenation patterns,
/// used when they agree with `target_count` (the phonetic syllable count);
/// `None` when they don't, or when the word has anything but ASCII letters
/// (an apostrophe).
pub fn hyphenation_spans(word: &str, target_count: usize) -> (r: Option<Vec<(usize, usize)>>)
    ensures
        match r {
            Some(v) => spec_hyphenation_spans(word@, target_count as int) == Some(v@),
            None => spec_hyphenation_spans(word@, target_count as int) is None,
        },
        r matches Some(v) ==> v@.len() == target_count && forall|k: int|
            0 <= k < v@.len() ==> (#[trigger] v@[k]).0 <= v@[k].1 <= word@.len(),
{
    let w = chars_of(word);
    let mut i: usize = 0;
    while i < w.len()
        invariant
            i <= w.len(),
            w@ == word@,
            forall|j: int| 0 <= j < i ==> is_ascii_alpha(#[trigger] w@[j]),
        decreases w.len() - i,
    {
        let c = w[i];
        if !(('a' <= c && c <= 'z') || ('A' <= c && c <= 'Z')) {
            return None;
        }
        i += 1;
    }
    let pieces = hyphenate_english(word);
    if pieces.len() != target_count {
        return None;
    }
    let ghost p = syllable_pieces(word@);
    proof {
        lemma_pieces_len_flatten(p);
    }
    let lw = w.len();
    let mut spans: Vec<(usize, usize)> = Vec::new();
    let mut cursor: usize = 0;
    let mut k: usize = 0;
    assert(p.take(0) =~= Seq::<Seq<char>>::empty());
    while k < pieces.len()
        invariant
            k <= pieces.len(),
            string_views(pieces@) == p,
            pieces_len(p) == word@.len(),
            word@.len() == lw,
            cursor == pieces_len(p.take(k as int)),
            spans@ == piece_spans(p).take(k as int),
            pieces@.len() == target_count,
            forall|q: int| 0 <= q < spans@.len() ==> (#[trigger] spans@[q]).0 <= spans@[q].1 <= lw,
        decreases pieces.len() - k,
    {
        let len = chars_of(pieces[k].as_str()).len();
        proof {
            assert(p[k as int] == pieces@[k as int]@);
            assert(len == p[k as int].len());
            assert(p.take(k + 1) =~= p.take(k as int) + seq![p[k as int]]);
            lemma_pieces_len_add(p.take(k as int), seq![p[k as int]]);
            assert(pieces_len(seq![p[k as int]]) == p[k as int].len()) by {
                reveal_with_fuel(pieces_len, 2);
                assert(seq![p[k as int]].drop_first() =~= Seq::<Seq<char>>::empty());
            }
            assert(p =~= p.take(k + 1) + p.skip(k + 1));
            lemma_pieces_len_add(p.take(k + 1), p.skip(k + 1));
            assert(cursor + len <= lw);
        }
        spans.push((cursor, cursor + len));
        cursor += len;
        proof {
            assert(spans@ =~= piece_spans(p).take(k + 1));
        }
        k += 1;
    }
    assert(piece_spans(p).take(pieces.len() as int) =~= piece_spans(p));
    Some(spans)
}

/// How many letters at the front of `seg` are not vowel letters.
pub open spec fn leading_consonants(seg: Seq<char>) -> nat
    decreases seg.len(),
{
    if seg.len() > 0 && !is_vowel_letter(seg[0]) {
        1 + leading_consonants(seg.drop_first())
    } else {
        0
    }
}

pub open spec fn clip(n: int, len: int) -> int {
    if n < len {
        n
    } else {
        len
    }
}

/// The onset consonants at the front of span `sp` of `w`.
pub open spec fn onset_len(w: Seq<char>, sp: (usize, usize)) -> nat {
    leading_consonants(w.subrange(clip(sp.0 as int, w.len() as int), clip(sp.1 as int, w.len() as int)))
}

/// The spans `orthographic_syllables` starts from.
pub open spec fn base_spans(w: Seq<char>, t: int) -> Seq<(usize, usize)> {
    match spec_hyphenation_spans(w, t) {
        Some(s) => s,
        None => spec_vowel_run_syllables(w, t),
    }
}

/// `w`'s syllable spans for `target` syllables, the first one without its
/// onset consonants.
pub open spec fn spec_orthographic_syllables(w: Seq<char>, target: int) -> Seq<(usize, usize)> {
    let t = if target < 1 { 1 } else { target };
    let sp = base_spans(w, t);
    if sp.len() > 0 {
        sp.update(0, ((sp[0].0 + onset_len(w, sp[0])) as usize, sp[0].1))
    } else {
        sp
    }
}

/// Letter spans for each of `word`'s `target_count` syllables (at least
/// one): hyphenation when it agrees with the count, the vowel-run
/// heuristic otherwise; either way the first syllable's onset consonants
/// are trimmed off, since the onset never takes part in a rhyme.
pub fn orthographic_syllables(word: &str, target_count: usize) -> (spans: Vec<(usize, usize)>)
    ensures
        spans@ == spec_orthographic_syllables(word@, target_count as int),
        spans@.len() == if target_count < 1 { 1 } else { target_count as int },
        forall|k: int| 0 <= k < spans@.len() ==> (#[trigger] spans@[k]).0 <= spans@[k].1 <= word@.len(),
{
    let t: usize = if target_count < 1 { 1 } else { target_count };
    let mut spans = match hyphenation_spans(word, t) {
        Some(s) => {
            proof {
                let p = syllable_pieces(word@);
                if p.len() > 0 {
                    assert(piece_spans(p)[0].0 == 0);
                }
            }
            s
        },
        None => vowel_run_syllables(word, t),
    };
    if spans.len() > 0 {
        let (s, e) = spans[0];
        assert(s <= e) by {
            if spec_hyphenation_spans(word@, t as int) is None {
                assert(chained(spans@));
                assert(spans@[0].0 <= spans@[0].1);
            } else {
                let p = syllable_pieces(word@);
                assert(spans@ == piece_spans(p));
                assert(p.take(1) =~= seq![p[0]]);
                assert(pieces_len(p.take(0)) == 0);
            }
        }
        let w = chars_of(word);
        let n = w.len();
        let ghost seg = w@.subrange(clip(s as int, n as int), clip(e as int, n as int));
        let mut j: usize = s;
        if s < n {
            while j < e && j < n && !vowel_letter(w[j])
                invariant
                    s <= j <= clip(e as int, n as int),
                    s < n,
                    n == w@.len(),
                    seg == w@.subrange(s as int, clip(e as int, n as int)),
                    leading_consonants(seg) == (j - s) + leading_consonants(w@.subrange(j as int, clip(e as int, n as int))),
                decreases n - j,
            {
                let ghost rest = w@.subrange(j as int, clip(e as int, n as int));
                assert(rest.drop_first() =~= w@.subrange(j + 1, clip(e as int, n as int)));
                j += 1;
            }
            proof {
                let rest = w@.subrange(j as int, clip(e as int, n as int));
                if rest.len() > 0 {
                    assert(rest[0] == w@[j as int]);
                }
            }
        } else {
            assert(seg.len() == 0);
        }
        let ghost before = spans@;
        spans.set(0, (j, e));
        proof {
            assert forall|k: int| 0 <= k < spans@.len() implies (#[trigger] spans@[k]).0 <= spans@[k].1 <= word@.len() by {
                if k > 0 {
                    assert(spans@[k] == before[k]);
                    if spec_hyphenation_spans(word@, t as int) is None {
                        assert(chained(before));
                        assert(before[k].0 <= before[k].1);
                    }
                }
            }
        }
    }
    spans
}

} // verus!
