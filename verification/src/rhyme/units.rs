//! Rhyme units: every rhymeable syllable of a word, each with a key two
//! syllables share when they rhyme and the letters it covers, so a
//! multi-syllable word can rhyme with different words on different
//! syllables.

use vstd::prelude::*;
use cmudict_fast::Cmudict;
use rphonetic::Encoder;
use super::pronounce::{dict_pronunciations, dict_words, first_listed};
use super::syllables::{is_vowel_letter, orthographic_syllables, spec_orthographic_syllables, vowel_letter};
use crate::session::string_views;
use crate::text::{
    all_ascii, alphabetic, ascii_lower, ascii_lower_seq, chars_of, extend_chars, extend_str,
    is_alphabetic, is_ascii_alpha, is_ascii_char, is_ascii_digit, lowercase, string_from,
    to_lowercase,
};

verus! {

/// The primary double-metaphone code (at most four letters) of an ASCII
/// word.
pub uninterp spec fn double_metaphone(s: Seq<char>) -> Seq<char>;

/// `DoubleMetaphone::default().encode(s)`. The encoder slices its input
/// by bytes, so it is only handed plain ASCII letters.
#[verifier::external_body]
fn metaphone(s: &str) -> (r: String)
    requires
        forall|i: int| 0 <= i < s@.len() ==> is_ascii_alpha(#[trigger] s@[i]),
    ensures
        r@ == double_metaphone(s@),
{
    rphonetic::DoubleMetaphone::default().encode(s)
}

/// A phoneme name is a vowel's when it carries a stress digit (`AE1`).
pub open spec fn is_vowel_phone(name: Seq<char>) -> bool {
    name.len() > 0 && is_ascii_digit(name.last())
}

/// The phoneme without its stress digit (`AE1` → `AE`).
pub open spec fn phone_base(name: Seq<char>) -> Seq<char> {
    if is_vowel_phone(name) {
        name.drop_last()
    } else {
        name
    }
}

/// Where the vowels of a pronunciation sit, in order.
pub open spec fn vowel_positions(p: Seq<Seq<char>>) -> Seq<int> {
    Seq::new(p.len(), |i: int| i).filter(|i: int| is_vowel_phone(p[i]))
}

/// A pronunciation split into syllables: each vowel plus every consonant
/// up to the next vowel (onsets left out — they never take part in a
/// rhyme); the whole pronunciation when it has no vowel.
pub open spec fn syllabify(p: Seq<Seq<char>>) -> Seq<Seq<Seq<char>>> {
    let v = vowel_positions(p);
    if v.len() == 0 {
        seq![p]
    } else {
        Seq::new(v.len(), |k: int| p.subrange(v[k], if k + 1 < v.len() { v[k + 1] } else { p.len() as int }))
    }
}

/// Names joined with `-` between them.
pub open spec fn join_dash(s: Seq<Seq<char>>) -> Seq<char>
    decreases s.len(),
{
    if s.len() == 0 {
        seq![]
    } else if s.len() == 1 {
        s[0]
    } else {
        join_dash(s.drop_last()) + seq!['-'] + s.last()
    }
}

/// A syllable's rhyme key: its phonemes without stress, joined by `-`.
pub open spec fn syllable_key(s: Seq<Seq<char>>) -> Seq<char> {
    join_dash(s.map_values(|n: Seq<char>| phone_base(n)))
}

/// One rhymeable syllable: its key and the letters `start..end` of the
/// (lower-cased) word it covers.
#[derive(Debug)]
pub struct RhymeUnit {
    pub key: String,
    pub start: usize,
    pub end: usize,
}

/// The units of an in-dictionary word with pronunciation `p`: one per
/// syllable whose letter span is not empty.
pub open spec fn dict_units(w: Seq<char>, p: Seq<Seq<char>>) -> Seq<(Seq<char>, usize, usize)> {
    let syl = syllabify(p);
    let sp = spec_orthographic_syllables(w, syl.len() as int);
    let n = if syl.len() <= sp.len() { syl.len() } else { sp.len() };
    Seq::new(n, |k: int| (syllable_key(syl[k]), sp[k].0, sp[k].1)).filter(
        |u: (Seq<char>, usize, usize)| u.2 > u.1,
    )
}

/// Where the last run of vowel letters starts (0 when there is none).
pub open spec fn last_run_start(w: Seq<char>) -> int
    decreases w.len(),
{
    if w.len() == 0 {
        0
    } else {
        let i = w.len() - 1;
        if is_vowel_letter(w[i]) && (i == 0 || !is_vowel_letter(w[i - 1])) {
            i
        } else {
            last_run_start(w.drop_last())
        }
    }
}

/// The ASCII letters of `s`, in order.
pub open spec fn ascii_letters(s: Seq<char>) -> Seq<char> {
    s.filter(|c: char| is_ascii_alpha(c))
}

/// The unit of an out-of-dictionary word: one double-metaphone key over
/// the ASCII letters from the last vowel run on, covering that run to the
/// end; none when no ASCII letter is left.
pub open spec fn fallback_units(w: Seq<char>) -> Seq<(Seq<char>, usize, usize)> {
    let start = last_run_start(w);
    let tail = ascii_letters(w.skip(start));
    if tail.len() == 0 {
        seq![]
    } else {
        seq![("dm:"@ + double_metaphone(tail), start as usize, w.len() as usize)]
    }
}

/// The rhyme units of `word`, lower-cased first.
pub open spec fn spec_rhyme_units(d: Cmudict, word: Seq<char>) -> Seq<(Seq<char>, usize, usize)> {
    let w = lowercase(word);
    if !(exists|i: int| 0 <= i < w.len() && alphabetic(#[trigger] w[i])) {
        seq![]
    } else if dict_words(d).contains(w) && dict_pronunciations(d, w).len() > 0 {
        dict_units(w, dict_pronunciations(d, w)[0])
    } else {
        fallback_units(w)
    }
}

pub open spec fn unit_views(v: Seq<RhymeUnit>) -> Seq<(Seq<char>, usize, usize)> {
    v.map_values(|u: RhymeUnit| (u.key@, u.start, u.end))
}

/// The phoneme names of `p` as character sequences.
pub open spec fn phone_views(p: Seq<String>) -> Seq<Seq<char>> {
    string_views(p)
}

fn base_of(name: &String) -> (r: Vec<char>)
    ensures
        r@ == phone_base(name@),
{
    let mut cs = chars_of(name.as_str());
    if cs.len() > 0 {
        let last = cs[cs.len() - 1];
        if '0' <= last && last <= '9' {
            cs.pop();
        }
    }
    cs
}

/// The rhyme key of the phonemes `p[from..to]`.
fn key_of_range(p: &Vec<String>, from: usize, to: usize) -> (r: String)
    requires
        from <= to <= p.len(),
    ensures
        r@ == syllable_key(phone_views(p@).subrange(from as int, to as int)),
{
    let ghost names = phone_views(p@);
    let mut out: Vec<char> = Vec::new();
    let mut i = from;
    assert(names.subrange(from as int, from as int).map_values(|n: Seq<char>| phone_base(n)) =~= seq![]);
    while i < to
        invariant
            from <= i <= to <= p.len(),
            names == phone_views(p@),
            out@ == join_dash(names.subrange(from as int, i as int).map_values(|n: Seq<char>| phone_base(n))),
        decreases to - i,
    {
        let b = base_of(&p[i]);
        let ghost prev = names.subrange(from as int, i as int).map_values(|n: Seq<char>| phone_base(n));
        let ghost next = names.subrange(from as int, i + 1).map_values(|n: Seq<char>| phone_base(n));
        proof {
            assert(next =~= prev.push(phone_base(names[i as int])));
            assert(names[i as int] == p@[i as int]@);
            assert(next.drop_last() =~= prev);
        }
        if i > from {
            out.push('-');
        }
        extend_chars(&mut out, b.as_slice());
        proof {
            if i == from {
                assert(next.len() == 1);
                assert(out@ =~= next[0]);
            } else {
                assert(out@ =~= join_dash(prev) + seq!['-'] + next.last());
            }
        }
        i += 1;
    }
    string_from(out.as_slice())
}

proof fn lemma_vowel_positions_step(p: Seq<Seq<char>>, i: nat)
    requires
        i < p.len(),
    ensures
        Seq::new(i + 1, |j: int| j).filter(|j: int| is_vowel_phone(p[j])) == Seq::new(i, |j: int| j).filter(
            |j: int| is_vowel_phone(p[j]),
        ) + (if is_vowel_phone(p[i as int]) {
            seq![i as int]
        } else {
            seq![]
        }),
{
    let a = Seq::new(i + 1, |j: int| j);
    let b = Seq::new(i, |j: int| j);
    assert(a.drop_last() =~= b);
    reveal_with_fuel(Seq::<_>::filter, 1);
    if is_vowel_phone(p[i as int]) {
        assert(a.filter(|j: int| is_vowel_phone(p[j])) =~= b.filter(|j: int| is_vowel_phone(p[j])).push(i as int));
    } else {
        assert(a.filter(|j: int| is_vowel_phone(p[j])) =~= b.filter(|j: int| is_vowel_phone(p[j])));
    }
}

fn vowel_positions_of(p: &Vec<String>) -> (v: Vec<usize>)
    ensures
        v@.map_values(|x: usize| x as int) == vowel_positions(phone_views(p@)),
        forall|k: int| 0 <= k < v@.len() ==> (#[trigger] v@[k]) < p.len(),
        forall|a: int, b: int| 0 <= a < b < v@.len() ==> (#[trigger] v@[a]) < (#[trigger] v@[b]),
{
    let ghost names = phone_views(p@);
    let mut v: Vec<usize> = Vec::new();
    let mut i: usize = 0;
    assert(Seq::new(0, |j: int| j).filter(|j: int| is_vowel_phone(names[j])) =~= seq![]);
    while i < p.len()
        invariant
            i <= p.len(),
            names == phone_views(p@),
            v@.map_values(|x: usize| x as int) == Seq::new(i as nat, |j: int| j).filter(|j: int| is_vowel_phone(names[j])),
            forall|k: int| 0 <= k < v@.len() ==> (#[trigger] v@[k]) < i,
            forall|a: int, b: int| 0 <= a < b < v@.len() ==> (#[trigger] v@[a]) < (#[trigger] v@[b]),
        decreases p.len() - i,
    {
        proof {
            lemma_vowel_positions_step(names, i as nat);
            assert(names[i as int] == p@[i as int]@);
        }
        let cs = chars_of(p[i].as_str());
        let ghost before = v@;
        if cs.len() > 0 && '0' <= cs[cs.len() - 1] && cs[cs.len() - 1] <= '9' {
            v.push(i);
            assert(v@.map_values(|x: usize| x as int) =~= before.map_values(|x: usize| x as int).push(i as int));
        }
        i += 1;
    }
    v
}

/// The rhyme key of each syllable of pronunciation `p`.
fn syllable_keys(p: &Vec<String>) -> (keys: Vec<String>)
    ensures
        string_views(keys@) == syllabify(phone_views(p@)).map_values(|s: Seq<Seq<char>>| syllable_key(s)),
{
    let ghost names = phone_views(p@);
    let v = vowel_positions_of(p);
    let ghost vp = vowel_positions(names);
    let mut keys: Vec<String> = Vec::new();
    if v.len() == 0 {
        keys.push(key_of_range(p, 0, p.len()));
        proof {
            assert(names.subrange(0, p@.len() as int) =~= names);
            assert(string_views(keys@) =~= syllabify(names).map_values(|s: Seq<Seq<char>>| syllable_key(s)));
        }
    } else {
        let mut k: usize = 0;
        while k < v.len()
            invariant
                k <= v.len(),
                v.len() > 0,
                names == phone_views(p@),
                vp == vowel_positions(names),
                vp == v@.map_values(|x: usize| x as int),
                forall|q: int| 0 <= q < v@.len() ==> (#[trigger] v@[q]) < p.len(),
                forall|a: int, b: int| 0 <= a < b < v@.len() ==> (#[trigger] v@[a]) < (#[trigger] v@[b]),
                keys@.len() == k,
                forall|q: int| 0 <= q < k ==> (#[trigger] keys@[q])@ == syllable_key(syllabify(names)[q]),
            decreases v.len() - k,
        {
            let end = if k + 1 < v.len() {
                v[k + 1]
            } else {
                p.len()
            };
            let key = key_of_range(p, v[k], end);
            proof {
                assert(vp[k as int] == v@[k as int] as int);
                if k + 1 < v.len() {
                    assert(vp[k + 1] == v@[k + 1] as int);
                }
            }
            keys.push(key);
            k += 1;
        }
        proof {
            assert(string_views(keys@) =~= syllabify(names).map_values(|s: Seq<Seq<char>>| syllable_key(s)));
        }
    }
    keys
}

fn last_run_start_of(w: &Vec<char>) -> (start: usize)
    ensures
        start as int == last_run_start(w@),
        start <= w.len(),
{
    let mut start: usize = 0;
    let mut prev_vowel = false;
    let mut i: usize = 0;
    assert(w@.take(0) =~= Seq::<char>::empty());
    while i < w.len()
        invariant
            i <= w.len(),
            start as int == last_run_start(w@.take(i as int)),
            start <= i,
            i > 0 ==> prev_vowel == is_vowel_letter(w@[i - 1]),
            i == 0 ==> !prev_vowel,
        decreases w.len() - i,
    {
        let v = vowel_letter(w[i]);
        proof {
            let t = w@.take(i + 1);
            assert(t.drop_last() =~= w@.take(i as int));
            assert(t[i as int] == w@[i as int]);
            if i > 0 {
                assert(t[i - 1] == w@[i - 1]);
            }
        }
        if v && !prev_vowel {
            start = i;
        }
        prev_vowel = v;
        i += 1;
    }
    assert(w@.take(w.len() as int) =~= w@);
    start
}

proof fn lemma_filter_push(s: Seq<char>, x: char)
    ensures
        ascii_letters(s.push(x)) == ascii_letters(s) + (if is_ascii_alpha(x) {
            seq![x]
        } else {
            seq![]
        }),
{
    reveal_with_fuel(Seq::<_>::filter, 1);
    assert(s.push(x).drop_last() =~= s);
    if is_ascii_alpha(x) {
        assert(ascii_letters(s.push(x)) =~= ascii_letters(s).push(x));
    } else {
        assert(ascii_letters(s.push(x)) =~= ascii_letters(s));
    }
}

fn fallback(w: &Vec<char>) -> (units: Vec<RhymeUnit>)
    ensures
        unit_views(units@) == fallback_units(w@),
        forall|k: int| 0 <= k < units@.len() ==> (#[trigger] units@[k]).start < units@[k].end <= w@.len(),
{
    let start = last_run_start_of(w);
    let mut tail: Vec<char> = Vec::new();
    let mut j = start;
    assert(w@.subrange(start as int, start as int) =~= Seq::<char>::empty());
    assert(ascii_letters(Seq::<char>::empty()) =~= Seq::<char>::empty()) by {
        reveal_with_fuel(Seq::<_>::filter, 1);
    }
    while j < w.len()
        invariant
            start <= j <= w.len(),
            tail@ == ascii_letters(w@.subrange(start as int, j as int)),
        decreases w.len() - j,
    {
        let c = w[j];
        proof {
            assert(w@.subrange(start as int, j + 1) =~= w@.subrange(start as int, j as int).push(c));
            lemma_filter_push(w@.subrange(start as int, j as int), c);
        }
        if ('a' <= c && c <= 'z') || ('A' <= c && c <= 'Z') {
            tail.push(c);
        }
        j += 1;
    }
    assert(w@.subrange(start as int, w@.len() as int) =~= w@.skip(start as int));
    let mut units: Vec<RhymeUnit> = Vec::new();
    if tail.len() > 0 {
        proof {
            assert forall|i: int| 0 <= i < tail@.len() implies is_ascii_alpha(#[trigger] tail@[i]) by {
                let s = w@.skip(start as int);
                s.lemma_filter_pred(|c: char| is_ascii_alpha(c), i);
            }
        }
        assert(start < w.len()) by {
            if start >= w.len() {
                assert(w@.skip(start as int).len() == 0);
                assert(tail@.len() <= w@.skip(start as int).len()) by {
                    w@.skip(start as int).lemma_filter_len(|c: char| is_ascii_alpha(c));
                }
            }
        }
        let tail_s = string_from(tail.as_slice());
        let code = metaphone(tail_s.as_str());
        let mut key: Vec<char> = Vec::new();
        extend_str(&mut key, "dm:");
        extend_str(&mut key, code.as_str());
        units.push(RhymeUnit { key: string_from(key.as_slice()), start, end: w.len() });
        assert(unit_views(units@) =~= fallback_units(w@));
    } else {
        assert(unit_views(units@) =~= fallback_units(w@));
    }
    units
}

fn copy_string(s: &String) -> (r: String)
    ensures
        r@ == s@,
{
    string_from(chars_of(s.as_str()).as_slice())
}

/// Every rhymeable syllable of `word` (lower-cased first). A word with no
/// letter has none. A word the dictionary knows gets one unit per syllable
/// of its first pronunciation, keyed by the syllable's phonemes and
/// covering its letter span (empty spans dropped). Any other word gets a
/// single double-metaphone-keyed unit over its last vowel-letter run
/// onward, computed on the ASCII letters there (none if there are none).
pub fn rhyme_units(dict: &Cmudict, word: &str) -> (units: Vec<RhymeUnit>)
    ensures
        unit_views(units@) == spec_rhyme_units(*dict, word@),
        forall|k: int|
            0 <= k < units@.len() ==> (#[trigger] units@[k]).start < units@[k].end <= lowercase(word@).len(),
        all_ascii(word@) ==> forall|k: int|
            0 <= k < units@.len() ==> (#[trigger] units@[k]).end <= word@.len(),
        all_ascii(word@) && !(exists|i: int| 0 <= i < word@.len() && is_ascii_alpha(#[trigger] word@[i]))
            ==> units@.len() == 0,
{
    let lower = to_lowercase(word);
    let w = chars_of(lower.as_str());
    let ghost ascii = all_ascii(word@);
    let mut any = false;
    let mut i: usize = 0;
    while i < w.len()
        invariant
            i <= w.len(),
            w@ == lowercase(word@),
            ascii == all_ascii(word@),
            ascii ==> w@ == ascii_lower_seq(word@),
            any <==> exists|j: int| 0 <= j < i && alphabetic(#[trigger] w@[j]),
            ascii ==> forall|j: int| 0 <= j < i ==> alphabetic(#[trigger] w@[j]) == is_ascii_alpha(word@[j]),
        decreases w.len() - i,
    {
        proof {
            if ascii {
                assert(w@[i as int] == ascii_lower(word@[i as int]));
                assert(is_ascii_char(word@[i as int]));
            }
        }
        if is_alphabetic(w[i]) {
            any = true;
        }
        i += 1;
    }
    proof {
        if ascii && !(exists|k: int| 0 <= k < word@.len() && is_ascii_alpha(#[trigger] word@[k])) {
            assert forall|j: int| 0 <= j < w@.len() implies !alphabetic(#[trigger] w@[j]) by {
                assert(!is_ascii_alpha(word@[j]));
            }
        }
    }
    if !any {
        let units: Vec<RhymeUnit> = Vec::new();
        assert(unit_views(units@) =~= spec_rhyme_units(*dict, word@));
        return units;
    }
    match first_listed(dict, lower.as_str()) {
        Some(p) => {
            let keys = syllable_keys(&p);
            let spans = orthographic_syllables(lower.as_str(), keys.len());
            let ghost names = phone_views(p@);
            let ghost syl = syllabify(names);
            let ghost sp = spec_orthographic_syllables(w@, syl.len() as int);
            let n = if keys.len() <= spans.len() { keys.len() } else { spans.len() };
            let mut units: Vec<RhymeUnit> = Vec::new();
            let mut k: usize = 0;
            proof {
                assert(string_views(keys@).len() == keys@.len());
                assert(Seq::new(0, |q: int| (syllable_key(syl[q]), sp[q].0, sp[q].1)).filter(
                    |u: (Seq<char>, usize, usize)| u.2 > u.1,
                ) =~= Seq::<(Seq<char>, usize, usize)>::empty()) by {
                    reveal_with_fuel(Seq::<_>::filter, 1);
                }
            }
            while k < n
                invariant
                    k <= n,
                    n <= keys.len(),
                    n <= spans.len(),
                    spans@ == sp,
                    string_views(keys@) == syl.map_values(|s: Seq<Seq<char>>| syllable_key(s)),
                    unit_views(units@) == Seq::new(k as nat, |q: int| (syllable_key(syl[q]), sp[q].0, sp[q].1)).filter(
                        |u: (Seq<char>, usize, usize)| u.2 > u.1,
                    ),
                    forall|q: int| 0 <= q < spans@.len() ==> (#[trigger] spans@[q]).0 <= spans@[q].1 <= w@.len(),
                    forall|q: int| 0 <= q < units@.len() ==> (#[trigger] units@[q]).start < units@[q].end <= w@.len(),
                decreases n - k,
            {
                let (a, b) = spans[k];
                let ghost before = unit_views(units@);
                proof {
                    let s1 = Seq::new((k + 1) as nat, |q: int| (syllable_key(syl[q]), sp[q].0, sp[q].1));
                    assert(s1.drop_last() =~= Seq::new(k as nat, |q: int| (syllable_key(syl[q]), sp[q].0, sp[q].1)));
                    reveal_with_fuel(Seq::<_>::filter, 1);
                    assert(string_views(keys@)[k as int] == keys@[k as int]@);
                    assert(string_views(keys@).len() == syl.len());
                    assert(keys@[k as int]@ == syllable_key(syl[k as int]));
                }
                if b > a {
                    units.push(RhymeUnit { key: copy_string(&keys[k]), start: a, end: b });
                    assert(unit_views(units@) =~= before.push((syllable_key(syl[k as int]), sp[k as int].0, sp[k as int].1)));
                } else {
                    assert(unit_views(units@) =~= before);
                }
                k += 1;
            }
            proof {
                assert(w@ == lowercase(word@));
                assert(syl.len() == keys@.len());
                assert(sp.len() == spans@.len());
            }
            units
        },
        None => fallback(&w),
    }
}

} // verus!
