use rhymr_rs::rhyme::search::{merge_lookups, rhyme_sections, search_word, section_header, section_words};
use rhymr_rs::latest::Generation;

fn list(xs: &[(&str, usize)]) -> Vec<(String, usize)> {
    xs.iter().map(|(w, n)| (w.to_string(), *n)).collect()
}

#[test]
fn lookups_merge_into_one_entry_per_word_the_last_count_winning() {
    let lists = vec![
        list(&[("hat", 1), ("habitat", 3), ("zzz", 0)]),
        list(&[("hat", 2), ("that", 1)]),
        list(&[("that", 0)]),
    ];
    let mut merged = merge_lookups(&lists);
    merged.sort();
    assert_eq!(merged, list(&[("habitat", 3), ("hat", 2), ("that", 1)]));
    assert!(merge_lookups(&Vec::new()).is_empty());
}

#[test]
fn results_are_sectioned_by_syllables_fewest_first_and_sorted() {
    let words = list(&[("sat", 1), ("acrobat", 3), ("cat", 1), ("format", 2), ("at", 1), ("combat", 2)]);
    let sections = rhyme_sections(&words);
    let shown: Vec<(usize, Vec<String>)> = sections.into_iter().map(|s| (s.syllables, s.words)).collect();
    assert_eq!(
        shown,
        vec![
            (1, vec!["at".to_string(), "cat".to_string(), "sat".to_string()]),
            (2, vec!["combat".to_string(), "format".to_string()]),
            (3, vec!["acrobat".to_string()]),
        ]
    );
    assert!(rhyme_sections(&Vec::new()).is_empty());
}

#[test]
fn sections_render_in_the_panel_markup() {
    assert_eq!(section_header(1), "<span font_weight='bold' color='#e1e1e1'>1 Syllable</span>");
    assert_eq!(section_header(3), "<span font_weight='bold' color='#e1e1e1'>3 Syllables</span>");
    let words = vec!["at".to_string(), "cat".to_string()];
    assert_eq!(section_words(&words), "<span color='#ffffff'>at, cat</span>");
    assert_eq!(section_words(&Vec::new()), "<span color='#ffffff'></span>");
}

#[test]
fn the_search_looks_up_the_first_word_typed() {
    assert_eq!(search_word("  cat hat"), Some("cat".to_string()));
    assert_eq!(search_word("orange\n"), Some("orange".to_string()));
    assert_eq!(search_word(" \t "), None);
    assert_eq!(search_word(""), None);
}

#[test]
fn only_the_latest_lookup_counts() {
    let mut g = Generation::new();
    let first = g.bump();
    assert!(g.is_latest(first));
    let second = g.bump();
    assert_eq!((first, second), (1, 2));
    assert!(!g.is_latest(first));
    assert!(g.is_latest(second));
}
