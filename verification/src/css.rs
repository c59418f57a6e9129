//! The app stylesheet's runtime part: the colour palette both themes draw
//! from, the setting-driven `:root` block appended after the compiled
//! stylesheets, and the assembly of the whole stylesheet.

use vstd::prelude::*;
use crate::config::{join_path, spec_join};
use crate::setting::{Settings, Theme};
use crate::strmap::StrMap;
use crate::text::{
    chars_of, eq_str, extend_chars, extend_str, has_prefix, render_int, render_u64, string_from,
    trim_start_from, trim_start_seq,
};

verus! {

/// One palette entry: CSS variable name, dark value, light value.
pub type PaletteEntry = (&'static str, &'static str, &'static str);

/// The palette as text: name, dark value, light value.
pub open spec fn spec_palette() -> Seq<(Seq<char>, Seq<char>, Seq<char>)> {
    seq![
        ("bg-darkest"@, "#2b2b2b"@, "#ffffff"@),
        ("bg-dark"@, "#3c3f41"@, "#ececec"@),
        ("bg-mid"@, "#45494a"@, "#ffffff"@),
        ("bg-light"@, "#4e5254"@, "#d9d9d9"@),
        ("bg-hover"@, "#4b4f51"@, "#ededed"@),
        ("text-bright"@, "#bbbbbb"@, "#1d1d1d"@),
        ("text-dim"@, "#a9b7c6"@, "#2b2b2b"@),
        ("text-not-so-dim"@, "#a0a0a0"@, "#4a4a4a"@),
        ("text-muted"@, "#808080"@, "#8c8c8c"@),
        ("text-number"@, "#606366"@, "#9a9a9a"@),
        ("text-green"@, "#6a8759"@, "#4a8f3c"@),
        ("gutter-bg"@, "#313335"@, "#f0f0f0"@),
        ("syllable-green"@, "#57a64a"@, "#3a8a2e"@),
        ("sticky-fg"@, "#a9b7c6"@, "#000000"@),
        ("text-modified"@, "#d19a66"@, "#a85f1d"@),
        ("text-new"@, "#6fbf73"@, "#1f8a3d"@),
        ("text-renamed"@, "#61afef"@, "#1568c9"@),
        ("bg-ignored"@, "#544628"@, "#ede0b3"@),
        ("vcs-added"@, "#59a869"@, "#4a8f3c"@),
        ("vcs-modified"@, "#4a88c7"@, "#3573b8"@),
        ("border-dark"@, "#2b2b2b"@, "#c0c0c0"@),
        ("border-light"@, "#4c4c4c"@, "#c0c0c0"@),
        ("border-hover"@, "#5e6060"@, "#a6a6a6"@),
        ("border-active"@, "#6b6b6b"@, "#6e6e6e"@),
        ("button-hover"@, "#4c5052"@, "#e0e0e0"@),
        ("button-active"@, "#5a5d5f"@, "#d0d0d0"@),
        ("button-disabled"@, "#3a3d3f"@, "#f0f0f0"@),
        ("selection-bg"@, "#2f65ca"@, "#2675bf"@),
        ("selection-hover"@, "#365880"@, "#4080c0"@),
        ("selection-active"@, "#1f4a7a"@, "#1c5a9e"@),
        ("popover-bg-color"@, "#3c3f41"@, "#ffffff"@),
        ("popover-fg-color"@, "#bbbbbb"@, "#1d1d1d"@),
        ("selection-fg"@, "#ffffff"@, "#ffffff"@),
        ("destructive"@, "#c75450"@, "#c0392b"@),
        ("destructive-hover"@, "#d16460"@, "#d0473a"@),
        ("destructive-active"@, "#a5423f"@, "#a32f24"@),
        ("destructive-text"@, "#e57474"@, "#b3261e"@),
    ]
}

pub open spec fn entry_view(e: PaletteEntry) -> (Seq<char>, Seq<char>, Seq<char>) {
    (e.0@, e.1@, e.2@)
}

/// Every themeable colour, in the order the `:root` block lists them. The
/// single source of truth for both palettes: [`theme_css`] is the only
/// place that reads it, and the Color Scheme settings page builds a picker
/// per entry.
pub fn palette() -> (p: Vec<PaletteEntry>)
    ensures
        p@.map_values(|e: PaletteEntry| entry_view(e)) == spec_palette(),
{
    let mut p: Vec<PaletteEntry> = Vec::new();
    p.push(("bg-darkest", "#2b2b2b", "#ffffff"));
    p.push(("bg-dark", "#3c3f41", "#ececec"));
    p.push(("bg-mid", "#45494a", "#ffffff"));
    p.push(("bg-light", "#4e5254", "#d9d9d9"));
    p.push(("bg-hover", "#4b4f51", "#ededed"));
    p.push(("text-bright", "#bbbbbb", "#1d1d1d"));
    p.push(("text-dim", "#a9b7c6", "#2b2b2b"));
    p.push(("text-not-so-dim", "#a0a0a0", "#4a4a4a"));
    p.push(("text-muted", "#808080", "#8c8c8c"));
    p.push(("text-number", "#606366", "#9a9a9a"));
    p.push(("text-green", "#6a8759", "#4a8f3c"));
    p.push(("gutter-bg", "#313335", "#f0f0f0"));
    p.push(("syllable-green", "#57a64a", "#3a8a2e"));
    p.push(("sticky-fg", "#a9b7c6", "#000000"));
    p.push(("text-modified", "#d19a66", "#a85f1d"));
    p.push(("text-new", "#6fbf73", "#1f8a3d"));
    p.push(("text-renamed", "#61afef", "#1568c9"));
    p.push(("bg-ignored", "#544628", "#ede0b3"));
    p.push(("vcs-added", "#59a869", "#4a8f3c"));
    p.push(("vcs-modified", "#4a88c7", "#3573b8"));
    p.push(("border-dark", "#2b2b2b", "#c0c0c0"));
    p.push(("border-light", "#4c4c4c", "#c0c0c0"));
    p.push(("border-hover", "#5e6060", "#a6a6a6"));
    p.push(("border-active", "#6b6b6b", "#6e6e6e"));
    p.push(("button-hover", "#4c5052", "#e0e0e0"));
    p.push(("button-active", "#5a5d5f", "#d0d0d0"));
    p.push(("button-disabled", "#3a3d3f", "#f0f0f0"));
    p.push(("selection-bg", "#2f65ca", "#2675bf"));
    p.push(("selection-hover", "#365880", "#4080c0"));
    p.push(("selection-active", "#1f4a7a", "#1c5a9e"));
    p.push(("popover-bg-color", "#3c3f41", "#ffffff"));
    p.push(("popover-fg-color", "#bbbbbb", "#1d1d1d"));
    p.push(("selection-fg", "#ffffff", "#ffffff"));
    p.push(("destructive", "#c75450", "#c0392b"));
    p.push(("destructive-hover", "#d16460", "#d0473a"));
    p.push(("destructive-active", "#a5423f", "#a32f24"));
    p.push(("destructive-text", "#e57474", "#b3261e"));
    assert(p@.map_values(|e: PaletteEntry| entry_view(e)) =~= spec_palette());
    p
}

/// The value an entry takes in a theme.
pub open spec fn themed(e: (Seq<char>, Seq<char>, Seq<char>), dark: bool) -> Seq<char> {
    if dark {
        e.1
    } else {
        e.2
    }
}

/// The themed default for palette entry `name`, with no user override
/// applied: the first entry of that name, in the given theme.
pub fn palette_default(name: &str, theme: Theme) -> (r: Option<&'static str>)
    ensures
        r is Some <==> exists|i: int| 0 <= i < spec_palette().len() && #[trigger] spec_palette()[i].0 == name@,
        r matches Some(v) ==> exists|i: int|
            0 <= i < spec_palette().len() && #[trigger] spec_palette()[i].0 == name@
                && v@ == themed(spec_palette()[i], theme == Theme::Dark)
                && forall|j: int| 0 <= j < i ==> spec_palette()[j].0 != name@,
{
    let p = palette();
    let ghost sp = spec_palette();
    let cs = chars_of(name);
    let mut i: usize = 0;
    while i < p.len()
        invariant
            i <= p.len(),
            cs@ == name@,
            p@.map_values(|e: PaletteEntry| entry_view(e)) == sp,
            sp == spec_palette(),
            forall|j: int| 0 <= j < i ==> sp[j].0 != name@,
        decreases p.len() - i,
    {
        let (n, dark, light) = p[i];
        assert(sp[i as int] == entry_view(p@[i as int]));
        if eq_str(cs.as_slice(), n) {
            let v = if theme == Theme::Dark {
                dark
            } else {
                light
            };
            assert(sp[i as int].0 == name@);
            assert(v@ == themed(sp[i as int], theme == Theme::Dark));
            return Some(v);
        }
        i += 1;
    }
    None
}

/// A character that could end a CSS string or declaration early.
pub open spec fn breaks_css(c: char) -> bool {
    c == '"' || c == '\\' || c == '\n' || c == '\r' || c == '{' || c == '}' || c == ';'
}

/// `s` with every character that could break out of a CSS declaration
/// removed.
pub open spec fn spec_sanitize(s: Seq<char>) -> Seq<char> {
    s.filter(|c: char| !breaks_css(c))
}

/// Strip from `s` what could break out of the CSS string it is put in.
pub fn sanitize_css_text(s: &str) -> (r: String)
    ensures
        r@ == spec_sanitize(s@),
        forall|i: int| 0 <= i < r@.len() ==> !breaks_css(#[trigger] r@[i]),
{
    let cs = chars_of(s);
    let mut out: Vec<char> = Vec::new();
    let mut i: usize = 0;
    proof {
        reveal(Seq::filter);
        assert(cs@.take(0) =~= Seq::<char>::empty());
    }
    while i < cs.len()
        invariant
            i <= cs.len(),
            cs@ == s@,
            out@ == spec_sanitize(cs@.take(i as int)),
            forall|j: int| 0 <= j < out@.len() ==> !breaks_css(#[trigger] out@[j]),
        decreases cs.len() - i,
    {
        let c = cs[i];
        proof {
            reveal(Seq::filter);
            let t = cs@.take(i + 1);
            assert(t.drop_last() =~= cs@.take(i as int));
            assert(t.last() == c);
        }
        if !(c == '"' || c == '\\' || c == '\n' || c == '\r' || c == '{' || c == '}' || c == ';') {
            out.push(c);
        }
        i += 1;
    }
    assert(cs@.take(cs@.len() as int) =~= cs@);
    string_from(out.as_slice())
}

/// A user override for `name` wins over the themed default.
pub open spec fn color_of(overrides: Map<Seq<char>, String>, name: Seq<char>, dflt: Seq<char>) -> Seq<char> {
    if overrides.contains_key(name) {
        overrides[name]@
    } else {
        dflt
    }
}

fn color(overrides: &StrMap<String>, name: &str, dflt: &str) -> (r: String)
    requires
        overrides.wf(),
    ensures
        r@ == color_of(overrides@, name@, dflt@),
{
    let cs = chars_of(name);
    match overrides.get(cs.as_slice()) {
        Some(v) => v.clone(),
        None => string_from(chars_of(dflt).as_slice()),
    }
}

/// The `--name: colour;` lines of `entries`, in order.
pub open spec fn palette_vars(
    overrides: Map<Seq<char>, String>,
    dark: bool,
    entries: Seq<(Seq<char>, Seq<char>, Seq<char>)>,
) -> Seq<char>
    decreases entries.len(),
{
    if entries.len() == 0 {
        seq![]
    } else {
        palette_vars(overrides, dark, entries.drop_last()) + "    --"@ + entries.last().0 + ": "@
            + color_of(overrides, entries.last().0, themed(entries.last(), dark)) + ";\n"@
    }
}

/// The runtime `:root { ... }` block for a theme, the palette overrides,
/// the editor font and the chrome settings.
pub open spec fn spec_theme_css(
    dark: bool,
    o: Map<Seq<char>, String>,
    font_family: Seq<char>,
    font_size: u32,
    ui_font_size: u32,
    corner_radius: u32,
    animations_enabled: bool,
) -> Seq<char> {
    let selection_bg = color_of(o, "selection-bg"@, if dark { "#2f65ca"@ } else { "#2675bf"@ });
    let selection_hover = color_of(
        o,
        "selection-hover"@,
        if dark { "#365880"@ } else { "#4080c0"@ },
    );
    let destructive = color_of(o, "destructive"@, if dark { "#c75450"@ } else { "#c0392b"@ });
    ":root {\n"@ + palette_vars(o, dark, spec_palette()) + role_lines(selection_bg, selection_hover, destructive)
        + chrome_lines(font_family, font_size, ui_font_size, corner_radius, animations_enabled)
}

/// The accent and destructive role lines for the given colours, up to the
/// editor font's opening quote.
pub open spec fn role_lines(bg: Seq<char>, hover: Seq<char>, destructive: Seq<char>) -> Seq<char> {
    "    --accent-bg-color: "@ + bg + ";\n    --accent-color: "@ + hover
        + ";\n    --accent-fg-color: #ffffff;\n    --destructive-bg-color: "@ + destructive
        + ";\n    --destructive-color: "@ + destructive
        + ";\n    --destructive-fg-color: #ffffff;\n    --app-font-family: \""@
}

/// The rest of the block: the editor font and the chrome tokens.
pub open spec fn chrome_lines(
    font_family: Seq<char>,
    font_size: u32,
    ui_font_size: u32,
    corner_radius: u32,
    animations_enabled: bool,
) -> Seq<char> {
    let radius = render_int(corner_radius as int);
    let fast: Seq<char> = if animations_enabled { "60ms linear"@ } else { "0s"@ };
    let normal: Seq<char> = if animations_enabled { "90ms linear"@ } else { "0s"@ };
    spec_sanitize(font_family) + "\";\n    --app-font-size: "@ + render_int(font_size as int)
        + "pt;\n    --ui-font-size: "@ + render_int(ui_font_size as int) + "px;\n    --radius-sm: "@ + radius
        + "px;\n    --radius-md: "@ + radius + "px;\n    --radius-lg: "@ + radius
        + "px;\n    --transition-fast: "@ + fast + ";\n    --transition-normal: "@ + normal
        + ";\n}\n"@
}

/// The runtime-generated `:root { ... }` block: the active theme's palette
/// (with any user override applied), its accent and destructive roles
/// mirrored onto the toolkit's own colour names, the editor font, and the
/// setting-driven chrome tokens (UI font size, corner radius, transitions).
/// It is appended after the compiled stylesheets so it wins.
pub fn theme_css(
    settings: &Settings,
) -> (css: String)
    requires
        settings.palette_overrides.wf(),
    ensures
        css@ == spec_theme_css(
            settings.theme == Theme::Dark,
            settings.palette_overrides@,
            settings.font_family@,
            settings.font_size,
            settings.ui_font_size,
            settings.corner_radius,
            settings.animations_enabled,
        ),
{
    let is_dark = settings.theme == Theme::Dark;
    let o = &settings.palette_overrides;
    let p = palette();
    let ghost sp = spec_palette();
    let mut out: Vec<char> = Vec::new();
    extend_str(&mut out, ":root {\n");
    let ghost head = out@;
    let mut i: usize = 0;
    proof {
        assert(sp.take(0) =~= Seq::<(Seq<char>, Seq<char>, Seq<char>)>::empty());
        assert(out@ =~= head + palette_vars(o@, is_dark, sp.take(0)));
    }
    while i < p.len()
        invariant
            i <= p.len(),
            o.wf(),
            o@ == settings.palette_overrides@,
            is_dark == (settings.theme == Theme::Dark),
            p@.map_values(|e: PaletteEntry| entry_view(e)) == sp,
            sp == spec_palette(),
            head == ":root {\n"@,
            out@ == head + palette_vars(o@, is_dark, sp.take(i as int)),
        decreases p.len() - i,
    {
        let (name, dark, light) = p[i];
        assert(sp[i as int] == entry_view(p@[i as int]));
        let dflt = if is_dark {
            dark
        } else {
            light
        };
        let c = color(o, name, dflt);
        extend_str(&mut out, "    --");
        extend_str(&mut out, name);
        extend_str(&mut out, ": ");
        extend_str(&mut out, c.as_str());
        extend_str(&mut out, ";\n");
        proof {
            let t = sp.take(i + 1);
            assert(t.drop_last() =~= sp.take(i as int));
            assert(t.last() == sp[i as int]);
        }
        i += 1;
    }
    assert(sp.take(sp.len() as int) =~= sp);
    let ghost base = out@;
    let sel_bg = color(o, "selection-bg", if is_dark { "#2f65ca" } else { "#2675bf" });
    let sel_hover = color(o, "selection-hover", if is_dark { "#365880" } else { "#4080c0" });
    let destructive = color(o, "destructive", if is_dark { "#c75450" } else { "#c0392b" });
    extend_str(&mut out, "    --accent-bg-color: ");
    extend_str(&mut out, sel_bg.as_str());
    extend_str(&mut out, ";\n    --accent-color: ");
    extend_str(&mut out, sel_hover.as_str());
    extend_str(&mut out, ";\n    --accent-fg-color: #ffffff;\n    --destructive-bg-color: ");
    extend_str(&mut out, destructive.as_str());
    extend_str(&mut out, ";\n    --destructive-color: ");
    extend_str(&mut out, destructive.as_str());
    extend_str(&mut out, ";\n    --destructive-fg-color: #ffffff;\n    --app-font-family: \"");
    assert(out@ =~= base + role_lines(sel_bg@, sel_hover@, destructive@));
    let ghost mid = out@;
    let font = sanitize_css_text(settings.font_family.as_str());
    extend_str(&mut out, font.as_str());
    extend_str(&mut out, "\";\n    --app-font-size: ");
    extend_chars(&mut out, render_u64(settings.font_size as u64).as_slice());
    extend_str(&mut out, "pt;\n    --ui-font-size: ");
    extend_chars(&mut out, render_u64(settings.ui_font_size as u64).as_slice());
    let radius = render_u64(settings.corner_radius as u64);
    extend_str(&mut out, "px;\n    --radius-sm: ");
    extend_chars(&mut out, radius.as_slice());
    extend_str(&mut out, "px;\n    --radius-md: ");
    extend_chars(&mut out, radius.as_slice());
    extend_str(&mut out, "px;\n    --radius-lg: ");
    extend_chars(&mut out, radius.as_slice());
    let (fast, normal) = if settings.animations_enabled {
        ("60ms linear", "90ms linear")
    } else {
        ("0s", "0s")
    };
    extend_str(&mut out, "px;\n    --transition-fast: ");
    extend_str(&mut out, fast);
    extend_str(&mut out, ";\n    --transition-normal: ");
    extend_str(&mut out, normal);
    extend_str(&mut out, ";\n}\n");
    assert(out@ =~= mid + chrome_lines(
        settings.font_family@,
        settings.font_size,
        settings.ui_font_size,
        settings.corner_radius,
        settings.animations_enabled,
    ));
    string_from(out.as_slice())
}

/// The stylesheet stems under `assets/scss/`, in the order they are
/// combined.
pub open spec fn spec_css_files() -> Seq<Seq<char>> {
    seq![
        "base"@,
        "chrome"@,
        "context_menu"@,
        "dialog"@,
        "dock"@,
        "editor"@,
        "empty_state"@,
        "file_tree"@,
        "git_log"@,
        "layout"@,
        "notebook"@,
        "rhyme_search"@,
        "settings"@,
        "splash"@,
        "status_bar"@,
        "welcome"@,
    ]
}

/// The stylesheet stems under `assets/scss/`, combined into the app's
/// stylesheet at launch, in order.
pub fn css_files() -> (r: Vec<&'static str>)
    ensures
        r@.map_values(|s: &str| s@) == spec_css_files(),
{
    let mut r: Vec<&'static str> = Vec::new();
    r.push("base");
    r.push("chrome");
    r.push("context_menu");
    r.push("dialog");
    r.push("dock");
    r.push("editor");
    r.push("empty_state");
    r.push("file_tree");
    r.push("git_log");
    r.push("layout");
    r.push("notebook");
    r.push("rhyme_search");
    r.push("settings");
    r.push("splash");
    r.push("status_bar");
    r.push("welcome");
    assert(r@.map_values(|s: &str| s@) =~= spec_css_files());
    r
}

/// `<assets>/scss/<stem>.scss`.
pub fn scss_path(assets_dir: &str, stem: &str) -> (r: String)
    ensures
        r@ == spec_join(spec_join(assets_dir@, "scss"@), stem@ + ".scss"@),
{
    let dir = join_path(assets_dir, "scss");
    let mut file = chars_of(stem);
    extend_str(&mut file, ".scss");
    let name = string_from(file.as_slice());
    join_path(dir.as_str(), name.as_str())
}

/// The theme-invariant tokens that open the stylesheet.
pub fn tokens() -> (r: &'static str)
    ensures
        r@ == spec_tokens(),
{
    ":root {\n    /* Chrome (everything outside the editor) uses the OS UI font, classic-IDE\n       style; the editor + its gutter keep the monospace `--app-font-*` set\n       from Settings (see editor.scss). Pango picks the first installed\n       family from the list; unknown names are skipped. */\n    --ui-font-family: \"SF Pro Text\", \"Helvetica Neue\", \"Segoe UI\", Cantarell, \"Ubuntu\", \"Noto Sans\", sans-serif;\n}\n"
}

pub open spec fn spec_tokens() -> Seq<char> {
    ":root {\n    /* Chrome (everything outside the editor) uses the OS UI font, classic-IDE\n       style; the editor + its gutter keep the monospace `--app-font-*` set\n       from Settings (see editor.scss). Pango picks the first installed\n       family from the list; unknown names are skipped. */\n    --ui-font-family: \"SF Pro Text\", \"Helvetica Neue\", \"Segoe UI\", Cantarell, \"Ubuntu\", \"Noto Sans\", sans-serif;\n}\n"@
}

/// The declaration a compiler may put first, which the toolkit's CSS parser
/// does not know.
pub open spec fn charset_rule() -> Seq<char> {
    "@charset \"UTF-8\";"@
}

/// A compiled stylesheet with a leading charset rule dropped, then leading
/// white space trimmed.
pub open spec fn spec_strip_charset(css: Seq<char>) -> Seq<char> {
    trim_start_seq(
        if css.len() >= charset_rule().len() && css.take(charset_rule().len() as int)
            == charset_rule() {
            css.skip(charset_rule().len() as int)
        } else {
            css
        },
    )
}

pub fn strip_charset(css: &str) -> (r: Vec<char>)
    ensures
        r@ == spec_strip_charset(css@),
{
    let cs = chars_of(css);
    let rule = chars_of("@charset \"UTF-8\";");
    let n = rule.len();
    proof {
        reveal_strlit("@charset \"UTF-8\";");
        assert(cs@.skip(0) =~= cs@);
    }
    let from = if has_prefix(cs.as_slice(), rule.as_slice()) {
        n
    } else {
        0
    };
    trim_start_from(cs.as_slice(), from)
}

/// The compiled stylesheets joined after the tokens, each stripped of its
/// charset rule and followed by a line break.
pub open spec fn joined_sheets(sheets: Seq<Seq<char>>) -> Seq<char>
    decreases sheets.len(),
{
    if sheets.len() == 0 {
        seq![]
    } else {
        joined_sheets(sheets.drop_last()) + spec_strip_charset(sheets.last()) + seq!['\n']
    }
}

/// The whole stylesheet: the tokens, every compiled stylesheet that
/// compiled, then the runtime `:root` block so it wins.
pub fn assemble_css(compiled: &Vec<String>, theme: &str) -> (css: String)
    ensures
        css@ == spec_tokens() + joined_sheets(compiled@.map_values(|s: String| s@)) + theme@,
{
    let ghost views = compiled@.map_values(|s: String| s@);
    let mut out = chars_of(tokens());
    let mut i: usize = 0;
    assert(views.take(0) =~= Seq::<Seq<char>>::empty());
    while i < compiled.len()
        invariant
            i <= compiled.len(),
            views == compiled@.map_values(|s: String| s@),
            out@ == spec_tokens() + joined_sheets(views.take(i as int)),
        decreases compiled.len() - i,
    {
        let sheet = strip_charset(compiled[i].as_str());
        extend_chars(&mut out, sheet.as_slice());
        out.push('\n');
        proof {
            let t = views.take(i + 1);
            assert(t.drop_last() =~= views.take(i as int));
            assert(t.last() == compiled@[i as int]@);
            assert(out@ =~= spec_tokens() + joined_sheets(t));
        }
        i += 1;
    }
    assert(views.take(views.len() as int) =~= views);
    extend_str(&mut out, theme);
    string_from(out.as_slice())
}

/// `t` occurs in `s`.
pub open spec fn has_text(s: Seq<char>, t: Seq<char>) -> bool {
    exists|i: int| 0 <= i && i + t.len() <= s.len() && #[trigger] s.subrange(i, i + t.len()) == t
}

proof fn lemma_has_text(pre: Seq<char>, t: Seq<char>, post: Seq<char>)
    ensures
        has_text(pre + t + post, t),
{
    let s = pre + t + post;
    assert(s.subrange(pre.len() as int, (pre.len() + t.len()) as int) =~= t);
}

/// The `--name: colour;` line palette entry `e` gets.
pub open spec fn palette_line(o: Map<Seq<char>, String>, dark: bool, e: (Seq<char>, Seq<char>, Seq<char>)) -> Seq<char> {
    "    --"@ + e.0 + ": "@ + color_of(o, e.0, themed(e, dark)) + ";\n"@
}

proof fn lemma_palette_line(
    o: Map<Seq<char>, String>,
    dark: bool,
    entries: Seq<(Seq<char>, Seq<char>, Seq<char>)>,
    k: int,
) -> (r: (Seq<char>, Seq<char>))
    requires
        0 <= k < entries.len(),
    ensures
        palette_vars(o, dark, entries) == r.0 + palette_line(o, dark, entries[k]) + r.1,
    decreases entries.len(),
{
    let n = entries.len();
    let line = palette_line(o, dark, entries[k]);
    if k == n - 1 {
        let pre = palette_vars(o, dark, entries.drop_last());
        assert(palette_vars(o, dark, entries) =~= pre + line + Seq::<char>::empty());
        (pre, Seq::<char>::empty())
    } else {
        let p = entries.drop_last();
        assert(p[k] == entries[k]);
        let (a, b) = lemma_palette_line(o, dark, p, k);
        let tail = "    --"@ + entries.last().0 + ": "@ + color_of(o, entries.last().0, themed(entries.last(), dark))
            + ";\n"@;
        assert(palette_vars(o, dark, entries) =~= a + line + (b + tail));
        (a, b + tail)
    }
}

proof fn lemma_role_entries()
    ensures
        spec_palette()[27] == ("selection-bg"@, "#2f65ca"@, "#2675bf"@),
        spec_palette()[28] == ("selection-hover"@, "#365880"@, "#4080c0"@),
        spec_palette()[33] == ("destructive"@, "#c75450"@, "#c0392b"@),
        spec_palette().len() > 33,
{
}

/// The theme block as its palette lines, then its role lines, then the
/// rest.
proof fn lemma_theme_parts(
    dark: bool,
    o: Map<Seq<char>, String>,
    font_family: Seq<char>,
    font_size: u32,
    ui_font_size: u32,
    corner_radius: u32,
    animations_enabled: bool,
) -> (rest: Seq<char>)
    ensures
        spec_theme_css(dark, o, font_family, font_size, ui_font_size, corner_radius, animations_enabled)
            == ":root {\n"@ + palette_vars(o, dark, spec_palette()) + role_lines(
            color_of(o, "selection-bg"@, if dark { "#2f65ca"@ } else { "#2675bf"@ }),
            color_of(o, "selection-hover"@, if dark { "#365880"@ } else { "#4080c0"@ }),
            color_of(o, "destructive"@, if dark { "#c75450"@ } else { "#c0392b"@ }),
        ) + rest,
{
    let css = spec_theme_css(dark, o, font_family, font_size, ui_font_size, corner_radius, animations_enabled);
    let bg = color_of(o, "selection-bg"@, if dark { "#2f65ca"@ } else { "#2675bf"@ });
    let hover = color_of(o, "selection-hover"@, if dark { "#365880"@ } else { "#4080c0"@ });
    let destructive = color_of(o, "destructive"@, if dark { "#c75450"@ } else { "#c0392b"@ });
    let rest = chrome_lines(font_family, font_size, ui_font_size, corner_radius, animations_enabled);
    rest
}

proof fn lemma_line_in_block(
    o: Map<Seq<char>, String>,
    dark: bool,
    k: int,
    tail: Seq<char>,
)
    requires
        0 <= k < spec_palette().len(),
    ensures
        has_text(":root {\n"@ + palette_vars(o, dark, spec_palette()) + tail, palette_line(o, dark, spec_palette()[k])),
{
    let (a, b) = lemma_palette_line(o, dark, spec_palette(), k);
    let line = palette_line(o, dark, spec_palette()[k]);
    assert(":root {\n"@ + palette_vars(o, dark, spec_palette()) + tail =~= (":root {\n"@ + a) + line + (b + tail));
    lemma_has_text(":root {\n"@ + a, line, b + tail);
}

proof fn lemma_roles_in_block(pre: Seq<char>, bg: Seq<char>, hover: Seq<char>, destructive: Seq<char>, rest: Seq<char>)
    ensures
        has_text(pre + role_lines(bg, hover, destructive) + rest, role_lines(bg, hover, destructive)),
{
    lemma_has_text(pre, role_lines(bg, hover, destructive), rest);
}

/// The theme block gives the toolkit's roles the colours of its own
/// palette entries: the accent background and colour are the block's
/// `--selection-bg` and `--selection-hover`, and the destructive
/// background and colour are both its `--destructive` — each the user's
/// override when one is set, else the theme's default.
pub proof fn lemma_theme_roles(
    dark: bool,
    o: Map<Seq<char>, String>,
    font_family: Seq<char>,
    font_size: u32,
    ui_font_size: u32,
    corner_radius: u32,
    animations_enabled: bool,
)
    ensures
        ({
            let css = spec_theme_css(dark, o, font_family, font_size, ui_font_size, corner_radius, animations_enabled);
            exists|bg: Seq<char>, hover: Seq<char>, destructive: Seq<char>| {
                &&& has_text(css, "    --"@ + "selection-bg"@ + ": "@ + bg + ";\n"@)
                &&& has_text(css, "    --"@ + "selection-hover"@ + ": "@ + hover + ";\n"@)
                &&& has_text(css, "    --"@ + "destructive"@ + ": "@ + destructive + ";\n"@)
                &&& has_text(
                    css,
                    "    --accent-bg-color: "@ + bg + ";\n    --accent-color: "@ + hover
                        + ";\n    --accent-fg-color: #ffffff;\n    --destructive-bg-color: "@
                        + destructive + ";\n    --destructive-color: "@ + destructive
                        + ";\n    --destructive-fg-color: #ffffff;\n    --app-font-family: \""@,
                )
                &&& (o.contains_key("selection-bg"@) ==> bg == o["selection-bg"@]@)
                &&& (o.contains_key("selection-hover"@) ==> hover == o["selection-hover"@]@)
                &&& (o.contains_key("destructive"@) ==> destructive == o["destructive"@]@)
            }
        }),
{
    let css = spec_theme_css(dark, o, font_family, font_size, ui_font_size, corner_radius, animations_enabled);
    let bg = color_of(o, "selection-bg"@, if dark { "#2f65ca"@ } else { "#2675bf"@ });
    let hover = color_of(o, "selection-hover"@, if dark { "#365880"@ } else { "#4080c0"@ });
    let destructive = color_of(o, "destructive"@, if dark { "#c75450"@ } else { "#c0392b"@ });
    let rest = lemma_theme_parts(dark, o, font_family, font_size, ui_font_size, corner_radius, animations_enabled);
    let vars = palette_vars(o, dark, spec_palette());
    let tail = role_lines(bg, hover, destructive) + rest;
    assert(css =~= ":root {\n"@ + vars + tail);
    lemma_role_entries();
    lemma_line_in_block(o, dark, 27, tail);
    lemma_line_in_block(o, dark, 28, tail);
    lemma_line_in_block(o, dark, 33, tail);
    assert(palette_line(o, dark, spec_palette()[27]) == "    --"@ + "selection-bg"@ + ": "@ + bg + ";\n"@);
    assert(palette_line(o, dark, spec_palette()[28]) == "    --"@ + "selection-hover"@ + ": "@ + hover + ";\n"@);
    assert(palette_line(o, dark, spec_palette()[33]) == "    --"@ + "destructive"@ + ": "@ + destructive + ";\n"@);
    lemma_roles_in_block(":root {\n"@ + vars, bg, hover, destructive, rest);
    assert(css =~= (":root {\n"@ + vars) + role_lines(bg, hover, destructive) + rest);
}

/// The editor's style scheme id for `theme` (the schemes under
/// `assets/styles`).
pub fn scheme_id(theme: Theme) -> (r: &'static str)
    ensures
        r@ == (if theme == Theme::Dark {
            "rhymr"@
        } else {
            "rhymr-light"@
        }),
{
    match theme {
        Theme::Dark => "rhymr",
        Theme::Light => "rhymr-light",
    }
}

} // verus!
