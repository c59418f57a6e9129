//! The single pronunciation-resolution path for rhyme highlighting: every
//! consumer asks here instead of reaching for the CMU dictionary directly,
//! so lookup order lives in one place. Lookups are case-insensitive.

use vstd::prelude::*;
use cmudict_fast::Cmudict;
use crate::session::string_views;
use crate::text::{lowercase, to_lowercase};

verus! {

#[verifier::external_type_specification]
#[verifier::external_body]
pub struct ExCmudict(Cmudict);

/// The words a parsed CMU dictionary has entries for.
pub uninterp spec fn dict_words(d: Cmudict) -> Set<Seq<char>>;

/// The pronunciations a parsed CMU dictionary lists for a word, most
/// canonical first, each as its phoneme names (`"K"`, `"AE1"`, `"T"`).
pub uninterp spec fn dict_pronunciations(d: Cmudict, word: Seq<char>) -> Seq<Seq<Seq<char>>>;

/// `Cmudict::get(word)`: the rules listed under exactly `word`, most
/// canonical first, each as its symbols rendered by their `Display` form
/// (base phoneme plus stress digit for a vowel); `None` when the word has
/// no entry. A word has an entry only once a line of the dictionary has
/// given it a rule, so an entry is never empty.
#[verifier::external_body]
fn dict_get(d: &Cmudict, word: &str) -> (r: Option<Vec<Vec<String>>>)
    ensures
        match r {
            Some(rules) => dict_words(*d).contains(word@) && rules@.len() > 0 && rules@.map_values(
                |p: Vec<String>| string_views(p@),
            ) == dict_pronunciations(*d, word@),
            None => !dict_words(*d).contains(word@),
        },
{
    d.get(word).map(
        |rules| {
            rules.iter().map(|rule| rule.pronunciation().iter().map(|s| s.to_string()).collect()).collect()
        },
    )
}

/// The pronunciations listed under exactly `word`, as phoneme names; empty
/// when it has no entry.
pub open spec fn listed(d: Cmudict, word: Seq<char>) -> Seq<Seq<Seq<char>>> {
    if dict_words(d).contains(word) {
        dict_pronunciations(d, word)
    } else {
        seq![]
    }
}

/// The first pronunciation listed under exactly `word`.
pub(crate) fn first_listed(d: &Cmudict, word: &str) -> (r: Option<Vec<String>>)
    ensures
        match r {
            Some(p) => listed(*d, word@).len() > 0 && string_views(p@) == listed(*d, word@)[0],
            None => listed(*d, word@).len() == 0,
        },
{
    match dict_get(d, word) {
        Some(rules) => {
            if rules.len() > 0 {
                let first = copy_strings(&rules[0]);
                assert(rules@.map_values(|p: Vec<String>| string_views(p@))[0] == string_views(
                    rules@[0]@,
                ));
                Some(first)
            } else {
                None
            }
        },
        None => None,
    }
}

fn copy_strings(v: &Vec<String>) -> (r: Vec<String>)
    ensures
        string_views(r@) == string_views(v@),
{
    let mut r: Vec<String> = Vec::new();
    let mut i: usize = 0;
    while i < v.len()
        invariant
            i <= v.len(),
            string_views(r@) == string_views(v@.take(i as int)),
        decreases v.len() - i,
    {
        r.push(v[i].clone());
        assert(string_views(v@.take(i + 1)) =~= string_views(v@.take(i as int)).push(v@[i as int]@));
        i += 1;
    }
    assert(v@.take(v@.len() as int) =~= v@);
    r
}

/// Where a resolved pronunciation came from. Only the CMU dictionary
/// exists today.
#[derive(Clone, Copy, PartialEq, Eq, Debug, Structural)]
pub enum Source {
    /// A CMU Pronouncing Dictionary entry.
    Cmudict,
}

/// One pronunciation of a word: its phoneme names (stress digits intact)
/// and where it came from.
pub struct Pronunciation {
    pub phonemes: Vec<String>,
    pub source: Source,
}

/// Every known pronunciation of `word` (in any case), most canonical first
/// — more than one for heteronyms and recorded variants. Empty when the
/// word is out of dictionary.
pub fn resolve(dict: &Cmudict, word: &str) -> (r: Vec<Pronunciation>)
    ensures
        r@.map_values(|p: Pronunciation| string_views(p.phonemes@)) == listed(*dict, lowercase(word@)),
        forall|i: int| 0 <= i < r@.len() ==> #[trigger] r@[i].source == Source::Cmudict,
{
    let lower = to_lowercase(word);
    let mut out: Vec<Pronunciation> = Vec::new();
    match dict_get(dict, lower.as_str()) {
        Some(rules) => {
            let ghost all = rules@.map_values(|p: Vec<String>| string_views(p@));
            let mut i: usize = 0;
            while i < rules.len()
                invariant
                    i <= rules@.len(),
                    all == rules@.map_values(|p: Vec<String>| string_views(p@)),
                    out@.map_values(|p: Pronunciation| string_views(p.phonemes@)) == all.take(i as int),
                    forall|j: int| 0 <= j < out@.len() ==> #[trigger] out@[j].source == Source::Cmudict,
                decreases rules@.len() - i,
            {
                let phonemes = copy_strings(&rules[i]);
                let ghost before = out@.map_values(|p: Pronunciation| string_views(p.phonemes@));
                assert(all[i as int] == string_views(rules@[i as int]@));
                out.push(Pronunciation { phonemes, source: Source::Cmudict });
                assert(out@.map_values(|p: Pronunciation| string_views(p.phonemes@)) =~= before.push(
                    all[i as int],
                ));
                assert(out@.map_values(|p: Pronunciation| string_views(p.phonemes@)) =~= all.take(
                    i + 1,
                ));
                i += 1;
            }
            assert(all.take(all.len() as int) =~= all);
        },
        None => {
            assert(out@.map_values(|p: Pronunciation| string_views(p.phonemes@)) =~= Seq::<
                Seq<Seq<char>>,
            >::empty());
        },
    }
    out
}

/// Whether `word` (in any case) has a CMU dictionary entry; unknown words
/// take the orthographic fallback path instead of the scored one.
pub fn is_in_dictionary(dict: &Cmudict, word: &str) -> (r: bool)
    ensures
        r == dict_words(*dict).contains(lowercase(word@)),
        r == (listed(*dict, lowercase(word@)).len() > 0),
{
    let lower = to_lowercase(word);
    match dict_get(dict, lower.as_str()) {
        Some(rules) => {
            assert(rules@.map_values(|p: Vec<String>| string_views(p@)).len() > 0);
            true
        },
        None => false,
    }
}

/// The first (most canonical) pronunciation of `word` (in any case), or
/// `None` when it is out of dictionary.
pub fn resolve_first(dict: &Cmudict, word: &str) -> (r: Option<Pronunciation>)
    ensures
        match r {
            Some(p) => listed(*dict, lowercase(word@)).len() > 0 && string_views(p.phonemes@)
                == listed(*dict, lowercase(word@))[0] && p.source == Source::Cmudict,
            None => listed(*dict, lowercase(word@)).len() == 0,
        },
{
    let lower = to_lowercase(word);
    match first_listed(dict, lower.as_str()) {
        Some(p) => Some(Pronunciation { phonemes: p, source: Source::Cmudict }),
        None => None,
    }
}

} // verus!
