use std::str::FromStr;

use cmudict_fast::Cmudict;
use rhymr_rs::rhyme::fallback::{colour_groups, fallback_groups, is_stopword};
use rhymr_rs::rhyme::groups::{group_rhymes, RhymeSpan};
use rhymr_rs::rhyme::lines::{line_of, line_start_offsets, stanza_bounded_window_start, tokenize};
use rhymr_rs::rhyme::order::{sorted_unique, stable_order};
use rhymr_rs::rhyme::pronounce::{is_in_dictionary, resolve, resolve_first, Source};
use rhymr_rs::rhyme::syllables::{hyphenation_spans, orthographic_syllables, vowel_run_syllables};
use rhymr_rs::rhyme::union_find::UnionFind;
use rhymr_rs::rhyme::units::{rhyme_units, RhymeUnit};

const DICT: &str = "candle K AE1 N D AH0 L\ncloser K L OW1 Z ER0\ncat K AE1 T\nhat HH AE1 T\nthe DH AH0\nread R EH1 D\nread(2) R IY1 D\n";

fn dict() -> Cmudict {
    Cmudict::from_str(DICT).expect("test dictionary parses")
}

#[test]
fn rhyme_units_handles_non_ascii_words_without_panicking() {
    let d = dict();
    for word in [
        "café", "naïve", "façade", "résumé", "émeute", "Montréal", "двойной", "переносе", "🔥bars🔥", "señor",
    ] {
        for unit in rhyme_units(&d, word) {
            assert!(unit.start <= unit.end);
            assert!(unit.end <= word.chars().count());
        }
    }
}

#[test]
fn hyphenation_fixes_syllabic_consonant_endings() {
    let units = rhyme_units(&dict(), "candle");
    assert_eq!(units.len(), 2, "{units:?}");
    let word: Vec<char> = "candle".chars().collect();
    let text = |u: &RhymeUnit| word[u.start..u.end].iter().collect::<String>();
    assert_eq!(text(&units[0]), "an", "{units:?}");
    assert_eq!(text(&units[1]), "dle", "{units:?}");
    assert_eq!(units[0].key, "AE-N-D");
    assert_eq!(units[1].key, "AH-L");
}

#[test]
fn multi_syllable_word_can_produce_multiple_independent_rhyme_units() {
    let units = rhyme_units(&dict(), "closer");
    assert!(units.len() >= 2, "expected multiple syllable units for \"closer\", got {units:?}");
}

#[test]
fn orthographic_syllables_always_returns_target_count_spans_covering_no_more_than_the_word() {
    for word in ["candle", "closer", "cat", "rhythm", "queueing", "a", "strengths"] {
        for target in 1..=4 {
            let spans = orthographic_syllables(word, target);
            assert_eq!(spans.len(), target, "{word:?} with target {target}");
            let char_count = word.chars().count();
            for &(s, e) in &spans {
                assert!(s <= e && e <= char_count, "{word:?} target {target}: span ({s}, {e})");
            }
        }
    }
}

#[test]
fn out_of_dictionary_words_get_one_metaphone_unit() {
    let units = rhyme_units(&dict(), "Zorblax");
    assert_eq!(units.len(), 1);
    assert!(units[0].key.starts_with("dm:"));
    assert_eq!((units[0].start, units[0].end), (5, 7));
    assert!(rhyme_units(&dict(), "1234").is_empty());
}

#[test]
fn vowel_runs_fold_and_split_to_the_syllable_count() {
    assert_eq!(vowel_run_syllables("like", 1), vec![(1, 4)]);
    assert_eq!(vowel_run_syllables("like", 2), vec![(1, 3), (3, 4)]);
    assert_eq!(vowel_run_syllables("our", 2), vec![(0, 1), (1, 3)]);
    assert_eq!(vowel_run_syllables("brr", 1), vec![(0, 3)]);
}

#[test]
fn hyphenation_needs_plain_letters_and_the_right_count() {
    assert_eq!(hyphenation_spans("candle", 2), Some(vec![(0, 3), (3, 6)]));
    assert_eq!(hyphenation_spans("candle", 3), None);
    assert_eq!(hyphenation_spans("can't", 1), None);
}

#[test]
fn dictionary_lookups_ignore_case() {
    let d = dict();
    assert!(is_in_dictionary(&d, "CAT"));
    assert!(!is_in_dictionary(&d, "xyzzyplonk"));
    assert_eq!(resolve_first(&d, "Hat").map(|p| p.phonemes), Some(vec!["HH".to_string(), "AE1".to_string(), "T".to_string()]));
}

#[test]
fn union_find_merges_exactly_the_linked_groups() {
    let mut uf = UnionFind::new();
    let ids: Vec<usize> = (0..6).map(|_| uf.push()).collect();
    assert_eq!(ids, vec![0, 1, 2, 3, 4, 5]);
    uf.union(0, 1);
    uf.union(2, 3);
    uf.union(1, 3);
    assert_eq!(uf.find(0), uf.find(2));
    assert_ne!(uf.find(0), uf.find(4));
    assert_ne!(uf.find(4), uf.find(5));
}

#[test]
fn rhymes_group_transitively_and_sort_by_first_span() {
    // line 0: syllables at chars 0..3 and 4..7; line 1: 8..11; line 2: 20..23, 24..27
    let char_spans = vec![vec![(0, 3), (4, 7)], vec![(8, 11)], vec![(20, 23), (24, 27)]];
    let spans = vec![
        // line 2 syllable 1 rhymes with line 1 syllable 0
        RhymeSpan { i: 2, a_start: 1, a_end: 2, j: 1, b_start: 0, b_end: 1 },
        // line 1 syllable 0 rhymes with line 0 syllable 1 (chains the two above)
        RhymeSpan { i: 1, a_start: 0, a_end: 1, j: 0, b_start: 1, b_end: 2 },
    ];
    let groups = group_rhymes(&char_spans, &spans);
    assert_eq!(groups, vec![vec![(4, 7), (8, 11), (24, 27)]]);
}

#[test]
fn a_multi_syllable_rhyme_is_one_group_and_groups_are_ordered() {
    let char_spans = vec![vec![(0, 2), (2, 4)], vec![(10, 12), (12, 14)], vec![(30, 31)], vec![(40, 41)]];
    let spans = vec![
        RhymeSpan { i: 3, a_start: 0, a_end: 1, j: 2, b_start: 0, b_end: 1 },
        RhymeSpan { i: 1, a_start: 0, a_end: 2, j: 0, b_start: 0, b_end: 2 },
    ];
    let groups = group_rhymes(&char_spans, &spans);
    assert_eq!(groups, vec![vec![(0, 2), (2, 4), (10, 12), (12, 14)], vec![(30, 31), (40, 41)]]);
    assert!(group_rhymes(&char_spans, &Vec::new()).is_empty());
}

#[test]
fn spans_sort_and_orders_are_stable() {
    assert_eq!(sorted_unique(&vec![(3, 4), (1, 2), (3, 4), (1, 1)]), vec![(1, 1), (1, 2), (3, 4)]);
    assert_eq!(stable_order(&vec![(5, 0), (1, 0), (5, 0), (0, 9)]), vec![3, 1, 0, 2]);
}

#[test]
fn windows_stop_at_blank_lines_and_after_three_lines_back() {
    let blank = [false, false, true, false, false, false, false];
    assert_eq!(stanza_bounded_window_start(&blank, 6, false), 3);
    assert_eq!(stanza_bounded_window_start(&blank, 4, true), 3);
    assert_eq!(stanza_bounded_window_start(&blank, 4, false), 1);
    assert_eq!(stanza_bounded_window_start(&blank, 0, true), 0);
}

#[test]
fn line_starts_and_lookup() {
    let starts = line_start_offsets("ab\ncd\n\ne");
    assert_eq!(starts, vec![0, 3, 6, 7]);
    assert_eq!(line_of(&starts, 0), 0);
    assert_eq!(line_of(&starts, 4), 1);
    assert_eq!(line_of(&starts, 6), 2);
    assert_eq!(line_of(&starts, 8), 3);
}

#[test]
fn words_are_letter_runs_with_inner_apostrophes() {
    let words = tokenize("Hello, world's end 'tis ça");
    let got: Vec<(usize, usize, &str)> = words.iter().map(|w| (w.start, w.end, w.text.as_str())).collect();
    assert_eq!(got, vec![(0, 5, "Hello"), (7, 14, "world's"), (15, 18, "end"), (20, 23, "tis"), (24, 26, "ça")]);
    assert!(tokenize("  ,, '' 42").is_empty());
}

#[test]
fn resolve_first_matches_the_legacy_cmudict_first_rule() {
    let d = dict();
    let pron = resolve_first(&d, "cat").expect("cat is in cmudict");
    assert_eq!(pron.source, Source::Cmudict);
    let legacy: Vec<String> = d
        .get("cat")
        .and_then(|rules| rules.first())
        .map(|rule| rule.pronunciation().iter().map(|s| s.to_string()).collect())
        .expect("cat is in cmudict");
    assert_eq!(pron.phonemes, legacy);
}

#[test]
fn resolve_is_empty_for_out_of_dictionary_words() {
    let d = dict();
    assert!(resolve(&d, "xyzzyplonk").is_empty());
    assert!(resolve_first(&d, "xyzzyplonk").is_none());
    assert!(!is_in_dictionary(&d, "xyzzyplonk"));
}

#[test]
fn heteronyms_resolve_to_more_than_one_pronunciation() {
    let d = dict();
    assert!(resolve(&d, "read").len() >= 2);
    assert_eq!(resolve(&d, "READ")[1].phonemes, vec!["R".to_string(), "IY1".to_string(), "D".to_string()]);
}

#[test]
fn rhyme_units_never_panics_or_produces_invalid_spans_across_the_dictionary() {
    let d = dict();
    for word in DICT.lines().filter_map(|line| line.split_whitespace().next()) {
        for unit in rhyme_units(&d, word) {
            assert!(unit.start <= unit.end, "{word:?}: unit {unit:?} has start > end");
            assert!(unit.end <= word.chars().count(), "{word:?}: unit {unit:?} runs past the word");
        }
    }
}

#[test]
fn unknown_words_group_by_exact_key_in_first_seen_order() {
    let d = dict();
    let words = tokenize("blorb zorb cat the glim brim x");
    let groups = fallback_groups(&d, &words);
    assert_eq!(groups[0], vec![(2, 5), (7, 10)]);
    assert!(groups.iter().all(|g| !g.contains(&(12, 14))));
    assert!(is_stopword("the"));
    assert!(!is_stopword("cat"));
}

#[test]
fn groups_take_palette_slots_in_order() {
    let fallback = vec![vec![(0, 1)], vec![(2, 3), (4, 5)]];
    let scored = vec![vec![(6, 7), (8, 9)], vec![(1, 2), (3, 4), (5, 6)]];
    let coloured = colour_groups(&fallback, &scored, 2);
    let got: Vec<(usize, Vec<(usize, usize)>)> = coloured.into_iter().map(|g| (g.colour, g.spans)).collect();
    assert_eq!(
        got,
        vec![(0, vec![(2, 3), (4, 5)]), (1, vec![(6, 7), (8, 9)]), (0, vec![(1, 2), (3, 4), (5, 6)])]
    );
}

#[test]
fn groups_of_distinct_spans_have_two_or_more_and_never_overlap() {
    let char_spans = vec![vec![(0, 3), (4, 7)], vec![(8, 11), (12, 15)], vec![(20, 23)]];
    let spans = vec![
        RhymeSpan { i: 1, a_start: 0, a_end: 1, j: 0, b_start: 0, b_end: 1 },
        RhymeSpan { i: 2, a_start: 0, a_end: 1, j: 1, b_start: 1, b_end: 2 },
    ];
    let groups = group_rhymes(&char_spans, &spans);
    assert!(groups.iter().all(|g| g.len() >= 2));
    for (a, g1) in groups.iter().enumerate() {
        for g2 in &groups[a + 1..] {
            assert!(g1.iter().all(|sp| !g2.contains(sp)));
        }
    }
    // Two syllables sharing one span make a group with a single span.
    let same = vec![vec![(0, 3)], vec![(0, 3)]];
    let linked = vec![RhymeSpan { i: 1, a_start: 0, a_end: 1, j: 0, b_start: 0, b_end: 1 }];
    assert_eq!(group_rhymes(&same, &linked), vec![vec![(0, 3)]]);
}
