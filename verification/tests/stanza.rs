use rhymr_rs::stanza::{sticky_line, sticky_text};

fn doc(lines: &[&str]) -> Vec<String> {
    lines.iter().map(|s| s.to_string()).collect()
}

#[test]
fn the_first_line_of_a_scrolled_stanza_is_pinned() {
    let d = doc(&["[Verse]", "line one", "line two", "", "[Chorus]", "la la", "  ", "end"]);
    // The stanza starts in view: nothing to pin.
    assert_eq!(sticky_line(&d, 0), None);
    assert_eq!(sticky_line(&d, 4), None);
    // Scrolled into the first stanza.
    assert_eq!(sticky_line(&d, 1), Some(0));
    assert_eq!(sticky_line(&d, 2), Some(0));
    // A blank gap at the top pins the stanza above it.
    assert_eq!(sticky_line(&d, 3), Some(0));
    assert_eq!(sticky_line(&d, 5), Some(4));
    assert_eq!(sticky_line(&d, 6), Some(4));
    assert_eq!(sticky_line(&d, 7), None);
    // Past the end, the last stanza.
    assert_eq!(sticky_line(&d, 40), Some(7));
}

#[test]
fn nothing_is_pinned_above_blank_text() {
    assert_eq!(sticky_line(&doc(&["", "  ", "x"]), 1), None);
    assert_eq!(sticky_line(&Vec::new(), 3), None);
    assert_eq!(sticky_text("[Chorus]  \n"), "[Chorus]");
    assert_eq!(sticky_text("  keep the indent"), "  keep the indent");
}
