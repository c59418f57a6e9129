use rhymr_rs::rhyme::palette::{dim_grey, rhyme_palette, RHYME_COLOURS};
use rhymr_rs::terminal::paste_bytes;
use rhymr_rs::css::scheme_id;
use rhymr_rs::dock::{stripe_button_class, Anchor};
use rhymr_rs::git::{change_badge, detail_lines, ref_chip_class, CommitDetailText, FileChange, RefKind, RefLabel};
use rhymr_rs::rhyme::fallback::{group_at_offset, ColourGroup};
use rhymr_rs::setting::Theme;

#[test]
fn ref_chips_are_styled_by_kind() {
    let chip = |kind| ref_chip_class(&RefLabel { name: "main".to_string(), kind });
    assert_eq!(chip(RefKind::Head), "ref-head");
    assert_eq!(chip(RefKind::LocalBranch), "ref-local");
    assert_eq!(chip(RefKind::RemoteBranch), "ref-remote");
    assert_eq!(chip(RefKind::Tag), "ref-tag");
}

#[test]
fn only_the_bottom_stripe_has_its_own_button_style() {
    assert_eq!(stripe_button_class(Anchor::Bottom), "bottom-stripe-button");
    assert_eq!(stripe_button_class(Anchor::Left), "tool-stripe-button");
    assert_eq!(stripe_button_class(Anchor::Right), "tool-stripe-button");
}

#[test]
fn each_theme_has_its_style_scheme() {
    assert_eq!(scheme_id(Theme::Dark), "rhymr");
    assert_eq!(scheme_id(Theme::Light), "rhymr-light");
}

#[test]
fn hovering_finds_the_first_group_under_the_pointer() {
    let groups = vec![
        ColourGroup { colour: 0, spans: vec![(0, 3), (10, 14)] },
        ColourGroup { colour: 1, spans: vec![(5, 8), (12, 20)] },
    ];
    assert_eq!(group_at_offset(&groups, 0), Some(0));
    assert_eq!(group_at_offset(&groups, 3), None);
    assert_eq!(group_at_offset(&groups, 6), Some(1));
    assert_eq!(group_at_offset(&groups, 13), Some(0));
    assert_eq!(group_at_offset(&groups, 19), Some(1));
    assert_eq!(group_at_offset(&groups, 20), None);
    assert_eq!(group_at_offset(&Vec::<ColourGroup>::new(), 0), None);
}

#[test]
fn each_theme_has_a_palette_of_distinct_colours() {
    for theme in [Theme::Dark, Theme::Light] {
        let p = rhyme_palette(theme);
        assert_eq!(p.len(), RHYME_COLOURS);
        let mut sorted = p.clone();
        sorted.sort();
        sorted.dedup();
        assert_eq!(sorted.len(), RHYME_COLOURS);
        assert!(p.iter().all(|c| c.len() == 7 && c.starts_with('#')));
    }
    assert_eq!(rhyme_palette(Theme::Dark)[0], "#d57b7b");
    assert_eq!(rhyme_palette(Theme::Light)[23], "#a32947");
    assert_eq!(dim_grey(Theme::Dark), "#5c5c5c");
    assert_eq!(dim_grey(Theme::Light), "#b0b0b0");
}

#[test]
fn a_paste_drops_carriage_returns_and_brackets_when_asked() {
    assert_eq!(paste_bytes("ls\r\npwd", false), b"ls\npwd".to_vec());
    assert_eq!(paste_bytes("ls\r\n", true), b"\x1b[200~ls\n\x1b[201~".to_vec());
    assert_eq!(paste_bytes("", true), b"\x1b[200~\x1b[201~".to_vec());
    assert_eq!(paste_bytes("caf\u{e9}", false), "caf\u{e9}".as_bytes().to_vec());
}

#[test]
fn changed_files_carry_a_badge() {
    assert_eq!(change_badge(FileChange::Added), ("A", "file-added"));
    assert_eq!(change_badge(FileChange::Deleted), ("D", "file-deleted"));
    assert_eq!(change_badge(FileChange::Renamed), ("R", "file-renamed"));
    assert_eq!(change_badge(FileChange::Copied), ("C", "file-renamed"));
    assert_eq!(change_badge(FileChange::Other), ("M", "file-modified"));
}

fn detail(committer: &str, files: usize) -> CommitDetailText {
    CommitDetailText {
        id: "0123abcd".to_string(),
        author_name: "Ada".to_string(),
        author_email: "ada@example.org".to_string(),
        committer_name: committer.to_string(),
        committer_email: "ada@example.org".to_string(),
        commit_time: 1700000000,
        body: "  Fix the chorus\n\nSecond verse too.\n".to_string(),
        files,
    }
}

#[test]
fn the_detail_pane_names_the_committer_only_when_it_is_someone_else() {
    assert_eq!(
        detail_lines(&detail("Ada", 1)),
        vec![
            "commit 0123abcd",
            "Author:    Ada <ada@example.org>",
            "Date:      2023-11-14 22:13 UTC",
            "Fix the chorus\n\nSecond verse too.",
            "1 file changed",
        ]
    );
    assert_eq!(
        detail_lines(&detail("Bot", 3)),
        vec![
            "commit 0123abcd",
            "Author:    Ada <ada@example.org>",
            "Committer: Bot <ada@example.org>",
            "Date:      2023-11-14 22:13 UTC",
            "Fix the chorus\n\nSecond verse too.",
            "3 files changed",
        ]
    );
    assert_eq!(detail_lines(&detail("Ada", 0))[4], "0 files changed");
}
