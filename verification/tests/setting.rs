use rhymr_rs::setting::categories::{breadcrumb, category_expanded, category_matches, depth, enum_initial, has_children, node, page_plan, visible_categories};
use rhymr_rs::setting::spec::{category_tree, CategoryId, SettingKind, SettingValue};
use rhymr_rs::setting::{parse_into, serialize, IconTheme, NotesCacheScope, SettingKey, Settings, Theme};

/// Read `contents` into `settings` the way the app does: fractional values
/// are parsed, checked finite and clamped here, then stored as text.
fn load_into(settings: &mut Settings, contents: &str) {
    for line in parse_into(settings, contents) {
        if let SettingKind::Float { min, max, .. } = line.key.kind() {
            if let Ok(x) = line.raw.parse::<f64>() {
                if x.is_finite() {
                    let lo: f64 = min.parse().unwrap();
                    let hi: f64 = max.parse().unwrap();
                    let clamped = x.clamp(lo, hi);
                    settings.set(line.key, SettingValue::Float(format!("{clamped}")));
                }
            }
        }
    }
}

fn float_of(text: &str) -> f64 {
    text.parse::<f64>().unwrap()
}

#[test]
fn default_round_trips_through_the_flat_format() {
    let saved = Settings::default();
    let mut reloaded = Settings::default();
    load_into(&mut reloaded, &serialize(&saved));
    assert_eq!(saved, reloaded);
}

#[test]
fn unknown_keys_survive_a_load_and_save() {
    let mut settings = Settings::default();
    load_into(
        &mut settings,
        "theme=light\nfuture_toggle=true\nvendor.note=hello world\n",
    );
    assert_eq!(settings.theme, Theme::Light);

    let text = serialize(&settings);
    assert!(text.contains("future_toggle=true"));
    assert!(text.contains("vendor.note=hello world"));

    // A second round trip is stable.
    let mut again = Settings::default();
    load_into(&mut again, &text);
    assert_eq!(settings, again);
}

#[test]
fn out_of_range_ints_are_clamped_on_load() {
    let mut settings = Settings::default();
    load_into(&mut settings, "tab_width=999\nfont_size=2\n");
    assert_eq!(settings.tab_width, 8);
    assert_eq!(settings.font_size, 6);
}

#[test]
fn floats_round_trip_and_clamp_on_load() {
    let mut settings = Settings::default();
    load_into(
        &mut settings,
        "rhyme_merge_threshold=2.75\nrhyme_anchor=99\nrhyme_extend=-1\n",
    );
    assert_eq!(float_of(&settings.rhyme_merge_threshold), 2.75);
    assert_eq!(float_of(&settings.rhyme_anchor), 5.0); // clamped to max
    assert_eq!(float_of(&settings.rhyme_extend), 0.0); // clamped to min

    let mut again = Settings::default();
    load_into(&mut again, &serialize(&settings));
    assert_eq!(settings, again);
}

#[test]
fn unknown_enum_token_keeps_the_default() {
    let mut settings = Settings::default();
    load_into(&mut settings, "theme=chartreuse\nicon_theme=neon\n");
    assert_eq!(settings.theme, Theme::Dark);
    assert_eq!(settings.icon_theme, IconTheme::Color);
}

#[test]
fn a_legacy_settings_file_loads_as_expected() {
    // The exact 15-line shape older builds wrote.
    let legacy = "show_syllable_gutter=false\n\
         show_vcs_gutter=true\n\
         rhyme_highlighting=true\n\
         rhyme_stop_at_blank_line=false\n\
         show_rhyme_legend=false\n\
         rhyme_hover_emphasis=true\n\
         word_completion=true\n\
         auto_indent=false\n\
         tab_width=2\n\
         git_autostage=false\n\
         notes_cache_scope=user\n\
         theme=light\n\
         icon_theme=monochrome\n\
         font_family=Iosevka\n\
         font_size=15\n";
    let mut settings = Settings::default();
    load_into(&mut settings, legacy);

    assert!(!settings.show_syllable_gutter);
    assert!(settings.rhyme_highlighting);
    assert!(!settings.auto_indent);
    assert_eq!(settings.tab_width, 2);
    assert!(!settings.git_autostage);
    assert_eq!(settings.notes_cache_scope, NotesCacheScope::User);
    assert_eq!(settings.theme, Theme::Light);
    assert_eq!(settings.icon_theme, IconTheme::Monochrome);
    assert_eq!(settings.font_family, "Iosevka");
    assert_eq!(settings.font_size, 15);
}

#[test]
fn default_file_lists_every_setting_in_order_with_its_default() {
    let text = serialize(&Settings::default());
    let lines: Vec<&str> = text.lines().collect();
    assert_eq!(lines.len(), 43);
    assert_eq!(lines[0], "show_syllable_gutter=true");
    assert_eq!(lines[4], "line_spacing_px=1");
    assert_eq!(lines[18], "rhyme_merge_threshold=3.25");
    assert_eq!(lines[20], "rhyme_extend=0");
    assert_eq!(lines[34], "apple_notes_refresh_secs=300");
    assert_eq!(lines[35], "rhyme_lookup_timeout_secs=8");
    assert_eq!(lines[37], "icon_theme=color");
    assert_eq!(lines[39], "font_size=13");
    assert_eq!(lines[40], "ui_font_size=13");
    assert_eq!(lines[41], "corner_radius=4");
    assert_eq!(lines[42], "animations_enabled=true");
}

#[test]
fn lines_without_equals_and_bad_values_are_skipped() {
    let mut settings = Settings::default();
    load_into(&mut settings, "tab_width\ntab_width=abc\nfont_family=\n  tab_width = 3 \r\n");
    assert_eq!(settings.tab_width, 3);
    assert_eq!(settings.font_family, "JetBrains Mono");
}

#[test]
fn float_lines_come_back_in_file_order() {
    let mut settings = Settings::default();
    let floats = parse_into(&mut settings, "rhyme_jump=1\ntheme=light\nrhyme_anchor=x\n");
    assert_eq!(floats.len(), 2);
    assert_eq!(floats[0].key, SettingKey::RhymeJump);
    assert_eq!(floats[0].raw, "1");
    assert_eq!(floats[1].key, SettingKey::RhymeAnchor);
    assert_eq!(floats[1].raw, "x");
    assert_eq!(settings.theme, Theme::Light);
}

#[test]
fn unknown_values_lose_line_breaks_and_keys_come_out_sorted() {
    let mut settings = Settings::default();
    load_into(&mut settings, "zeta=1\nalpha=2\n");
    let text = serialize(&settings);
    let alpha = text.find("alpha=2\n").unwrap();
    let zeta = text.find("zeta=1\n").unwrap();
    assert!(alpha < zeta);
}

#[test]
fn set_ignores_values_of_the_wrong_kind() {
    let mut settings = Settings::default();
    settings.set(SettingKey::TabWidth, SettingValue::Bool(true));
    assert_eq!(settings.tab_width, 4);
    settings.set(SettingKey::GitRemoteName, SettingValue::Text(String::new()));
    assert_eq!(settings.git_remote_name, "origin");
    settings.set(SettingKey::Theme, SettingValue::Text("light".to_string()));
    assert_eq!(settings.theme, Theme::Light);
    assert_eq!(settings.get(SettingKey::Theme), SettingValue::Text("light".to_string()));
}

#[test]
fn palette_overrides_are_saved_as_palette_lines() {
    let mut settings = Settings::default();
    load_into(
        &mut settings,
        "palette.bg-dark=#101010\nfont_size=14\npalette.text-muted = #777777\nzeta=1\n",
    );
    assert_eq!(settings.font_size, 14);
    assert_eq!(settings.palette_overrides.len(), 2);
    let text = serialize(&settings);
    assert!(text.contains("palette.bg-dark=#101010\npalette.text-muted=#777777\nzeta=1\n"));
    assert!(!text.contains("\nbg-dark"));

    let mut again = Settings::default();
    load_into(&mut again, &text);
    assert_eq!(settings, again);
}

#[test]
fn a_saved_file_lists_settings_then_palette_then_strays() {
    let mut settings = Settings::default();
    load_into(&mut settings, "b.stray=2\na.stray=1\npalette.x=#000000\n");
    let text = serialize(&settings);
    assert!(text.starts_with("show_syllable_gutter=true\nshow_vcs_gutter=true\n"));
    assert!(text.ends_with("animations_enabled=true\npalette.x=#000000\na.stray=1\nb.stray=2\n"));
}

#[test]
fn category_breadcrumbs_depths_and_search() {
    assert_eq!(breadcrumb(CategoryId::Appearance), "Appearance & Behavior  \u{203a}  Appearance");
    assert_eq!(breadcrumb(CategoryId::ColorScheme), "Appearance  \u{203a}  Color Scheme");
    assert_eq!(breadcrumb(CategoryId::VersionControlGit), "Version Control  \u{203a}  Git");
    assert_eq!(breadcrumb(CategoryId::Keymap), "Keymap");
    assert_eq!(depth(CategoryId::EditorRhyme), 1);
    assert_eq!(depth(CategoryId::EditorGeneral), 0);
    assert!(has_children(CategoryId::Appearance));
    assert!(!has_children(CategoryId::Keymap));
    assert_eq!(node(CategoryId::EditorFileTree).unwrap().label, "File Tree");
    assert!(category_matches(CategoryId::EditorGeneral, "rhyme"));
    assert!(category_matches(CategoryId::Appearance, "editor font"));
    assert!(!category_matches(CategoryId::Keymap, "rhyme"));
    assert!(category_matches(CategoryId::Keymap, ""));
}

#[test]
fn folding_a_category_hides_the_ones_under_it() {
    let all: Vec<CategoryId> = category_tree().iter().map(|n| n.id).collect();
    assert_eq!(visible_categories(&Vec::new(), ""), all);
    let shown = visible_categories(&vec![CategoryId::Appearance], "");
    assert_eq!(
        shown,
        vec![
            CategoryId::Appearance,
            CategoryId::EditorGeneral,
            CategoryId::EditorRhyme,
            CategoryId::EditorCompletion,
            CategoryId::EditorFileTree,
            CategoryId::Keymap,
            CategoryId::VersionControlGit,
            CategoryId::ToolsNetwork,
            CategoryId::Advanced,
        ]
    );
    // Folding a leaf hides nothing.
    assert_eq!(visible_categories(&vec![CategoryId::Keymap], ""), all);
    assert!(category_expanded(CategoryId::Keymap, &vec![CategoryId::Appearance], ""));
    assert!(!category_expanded(CategoryId::Appearance, &vec![CategoryId::Appearance], ""));
    assert!(category_expanded(CategoryId::Appearance, &vec![CategoryId::Appearance], "git"));
}

#[test]
fn a_search_shows_the_matching_categories_whatever_is_folded() {
    let shown = visible_categories(&vec![CategoryId::EditorGeneral], "rhyme");
    let expected: Vec<CategoryId> =
        category_tree().iter().map(|n| n.id).filter(|id| category_matches(*id, "rhyme")).collect();
    assert_eq!(shown, expected);
    assert!(shown.contains(&CategoryId::EditorRhyme));
    assert!(shown.contains(&CategoryId::EditorGeneral));
    assert!(!shown.contains(&CategoryId::Keymap));
}

#[test]
fn a_file_of_skipped_lines_changes_nothing() {
    let mut settings = Settings::default();
    parse_into(&mut settings, "no equals here\ntab_width=abc\ntheme=chartreuse\nfont_size=\n");
    assert_eq!(serialize(&settings), serialize(&Settings::default()));
}

#[test]
fn a_page_lists_its_settings_in_sections_by_group() {
    let rows = page_plan(CategoryId::Appearance);
    let keys: Vec<SettingKey> = rows.iter().map(|r| r.key).collect();
    assert_eq!(
        keys,
        vec![
            SettingKey::Theme,
            SettingKey::IconTheme,
            SettingKey::FontFamily,
            SettingKey::UiFontSize,
            SettingKey::CornerRadius,
            SettingKey::AnimationsEnabled,
        ]
    );
    assert_eq!(rows.iter().map(|r| r.new_section).collect::<Vec<_>>(), vec![true, false, false, false, false, false]);
    let rows = page_plan(CategoryId::EditorGeneral);
    let starts: Vec<SettingKey> = rows.iter().filter(|r| r.new_section).map(|r| r.key).collect();
    assert_eq!(
        starts,
        vec![
            SettingKey::ShowSyllableGutter,
            SettingKey::HighlightCurrentLine,
            SettingKey::ShowRightMargin,
            SettingKey::AutoIndent,
            SettingKey::AutosaveDebounceMs,
        ]
    );
    assert_eq!(rows.len(), 15);
    assert!(page_plan(CategoryId::Keymap).is_empty());
}

#[test]
fn an_option_list_starts_on_the_current_choice() {
    let values = vec!["dark", "light"];
    assert_eq!(enum_initial(&values, "light"), 1);
    assert_eq!(enum_initial(&values, "dark"), 0);
    assert_eq!(enum_initial(&values, "sepia"), 0);
}
