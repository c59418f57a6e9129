use rhymr_rs::css::{assemble_css, css_files, palette, palette_default, sanitize_css_text, scss_path, strip_charset, theme_css, tokens};
use rhymr_rs::setting::{parse_into, Settings, Theme};

#[test]
fn palette_defaults_follow_the_theme() {
    assert_eq!(palette_default("bg-darkest", Theme::Dark), Some("#2b2b2b"));
    assert_eq!(palette_default("bg-darkest", Theme::Light), Some("#ffffff"));
    assert_eq!(palette_default("destructive-text", Theme::Light), Some("#b3261e"));
    assert_eq!(palette_default("no-such-colour", Theme::Dark), None);
    assert_eq!(palette().len(), 37);
    assert_eq!(css_files().len(), 16);
}

#[test]
fn css_text_is_sanitized() {
    assert_eq!(sanitize_css_text("Fira \"Code\"; } {x\\y\n\r"), "Fira Code  xy");
    assert_eq!(sanitize_css_text("JetBrains Mono"), "JetBrains Mono");
}

#[test]
fn theme_block_lists_palette_then_chrome_tokens() {
    let mut settings = Settings::default();
    parse_into(&mut settings, "ui_font_size=12\n");
    let css = theme_css(&settings);
    assert!(css.starts_with(":root {\n    --bg-darkest: #2b2b2b;\n    --bg-dark: #3c3f41;\n"));
    assert!(css.contains("    --accent-bg-color: #2f65ca;\n    --accent-color: #365880;\n    --accent-fg-color: #ffffff;\n"));
    assert!(css.contains("    --destructive-bg-color: #c75450;\n    --destructive-color: #c75450;\n"));
    assert!(css.contains("    --app-font-family: \"JetBrains Mono\";\n    --app-font-size: 13pt;\n"));
    assert!(css.contains("    --ui-font-size: 12px;\n    --radius-sm: 4px;\n    --radius-md: 4px;\n    --radius-lg: 4px;\n"));
    assert!(css.ends_with("    --transition-fast: 60ms linear;\n    --transition-normal: 90ms linear;\n}\n"));
}

#[test]
fn overrides_and_light_theme_change_the_block() {
    let mut settings = Settings::default();
    parse_into(&mut settings, "theme=light\npalette.selection-bg=#123456\nfont_family=Evil\"}Font\ncorner_radius=0\nanimations_enabled=false\n");
    let css = theme_css(&settings);
    assert!(css.contains("    --bg-darkest: #ffffff;\n"));
    assert!(css.contains("    --selection-bg: #123456;\n"));
    assert!(css.contains("    --accent-bg-color: #123456;\n    --accent-color: #4080c0;\n"));
    assert!(css.contains("    --app-font-family: \"EvilFont\";\n"));
    assert!(css.contains("    --radius-lg: 0px;\n"));
    assert!(css.ends_with("    --transition-fast: 0s;\n    --transition-normal: 0s;\n}\n"));
}

#[test]
fn stylesheets_are_assembled_in_order() {
    assert_eq!(scss_path("/opt/app/assets", "base"), "/opt/app/assets/scss/base.scss");
    let stripped: String = strip_charset("@charset \"UTF-8\";\n  a { b: c; }").into_iter().collect();
    assert_eq!(stripped, "a { b: c; }");
    let kept: String = strip_charset(" x {}").into_iter().collect();
    assert_eq!(kept, "x {}");
    let sheets = vec!["@charset \"UTF-8\";p{}".to_string(), "q{}".to_string()];
    let css = assemble_css(&sheets, ":root {\n}\n");
    assert_eq!(css, format!("{}p{{}}\nq{{}}\n:root {{\n}}\n", tokens()));
}
