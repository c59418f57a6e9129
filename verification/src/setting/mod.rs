//! User-configurable app behaviour, persisted to a flat `key=value` file
//! across launches. Every setting is declared once in the registry below
//! ([`SettingKey`]); loading ([`parse_into`]) and saving ([`serialize`])
//! both derive from it. Fractional settings carry their value as text; the
//! caller that owns their arithmetic validates the raw text [`parse_into`]
//! hands back for them.

pub mod categories;
pub mod spec;

use vstd::prelude::*;
use spec::{
    clamp_int, kind_well_formed, lemma_no_newlines_id, no_newlines, render_value,
    spec_parse_clamped, strip_newlines, token_list, CategoryId, LiveApply, SValue, SettingKind,
    SettingSpec, SettingValue,
};
use crate::strmap::{key_index, lemma_lt_irrefl, seq_lt, StrMap};
use crate::text::{
    chars_of, digits_of, eq_str, extend_str, find_char, find_from, has_prefix, is_ascii_digit, is_ws,
    lemma_digits_round_trip, lemma_find_char_at, lemma_lines_append, lemma_lines_single,
    lemma_parse_render, lemma_trim_id, parse_int, slice_vec, spec_lines, string_from, strip_cr,
    trim_range, trim_seq,
};

verus! {

/// Light vs. dark app-wide color scheme.
#[derive(Clone, Copy, PartialEq, Eq, Debug, Structural)]
pub enum Theme {
    Dark,
    Light,
}

pub open spec fn spec_theme_str(t: Theme) -> Seq<char> {
    match t {
        Theme::Dark => "dark"@,
        Theme::Light => "light"@,
    }
}

pub open spec fn spec_theme_parse(s: Seq<char>) -> Option<Theme> {
    if s == "dark"@ {
        Some(Theme::Dark)
    } else if s == "light"@ {
        Some(Theme::Light)
    } else {
        None
    }
}

impl Theme {
    pub fn as_str(self) -> (r: &'static str)
        ensures
            r@ == spec_theme_str(self),
    {
        match self {
            Theme::Dark => "dark",
            Theme::Light => "light",
        }
    }

    pub fn parse(s: &str) -> (r: Option<Self>)
        ensures
            r == spec_theme_parse(s@),
    {
        let cs = chars_of(s);
        if eq_str(cs.as_slice(), "dark") {
            Some(Theme::Dark)
        } else if eq_str(cs.as_slice(), "light") {
            Some(Theme::Light)
        } else {
            None
        }
    }
}

/// Which bundled icon set to draw the UI with: the colour set, or the flat
/// grey one that tracks [`Theme`].
#[derive(Clone, Copy, PartialEq, Eq, Debug, Structural)]
pub enum IconTheme {
    Color,
    Monochrome,
}

pub open spec fn spec_icon_theme_str(t: IconTheme) -> Seq<char> {
    match t {
        IconTheme::Color => "color"@,
        IconTheme::Monochrome => "monochrome"@,
    }
}

pub open spec fn spec_icon_theme_parse(s: Seq<char>) -> Option<IconTheme> {
    if s == "color"@ {
        Some(IconTheme::Color)
    } else if s == "monochrome"@ {
        Some(IconTheme::Monochrome)
    } else {
        None
    }
}

impl IconTheme {
    pub fn as_str(self) -> (r: &'static str)
        ensures
            r@ == spec_icon_theme_str(self),
    {
        match self {
            IconTheme::Color => "color",
            IconTheme::Monochrome => "monochrome",
        }
    }

    pub fn parse(s: &str) -> (r: Option<Self>)
        ensures
            r == spec_icon_theme_parse(s@),
    {
        let cs = chars_of(s);
        if eq_str(cs.as_slice(), "color") {
            Some(IconTheme::Color)
        } else if eq_str(cs.as_slice(), "monochrome") {
            Some(IconTheme::Monochrome)
        } else {
            None
        }
    }
}

/// Where the Apple Notes snapshot cache is stored.
#[derive(Clone, Copy, PartialEq, Eq, Debug, Structural)]
pub enum NotesCacheScope {
    /// `<workspace>/.rhymr/apple-notes.json` — per project.
    Workspace,
    /// `<config dir>/rhymr/apple-notes.json` — one copy shared by every
    /// workspace.
    User,
}

pub open spec fn spec_scope_str(t: NotesCacheScope) -> Seq<char> {
    match t {
        NotesCacheScope::Workspace => "workspace"@,
        NotesCacheScope::User => "user"@,
    }
}

pub open spec fn spec_scope_parse(s: Seq<char>) -> Option<NotesCacheScope> {
    if s == "workspace"@ {
        Some(NotesCacheScope::Workspace)
    } else if s == "user"@ {
        Some(NotesCacheScope::User)
    } else {
        None
    }
}

impl NotesCacheScope {
    pub fn as_str(self) -> (r: &'static str)
        ensures
            r@ == spec_scope_str(self),
    {
        match self {
            NotesCacheScope::Workspace => "workspace",
            NotesCacheScope::User => "user",
        }
    }

    pub fn parse(s: &str) -> (r: Option<Self>)
        ensures
            r == spec_scope_parse(s@),
    {
        let cs = chars_of(s);
        if eq_str(cs.as_slice(), "workspace") {
            Some(NotesCacheScope::Workspace)
        } else if eq_str(cs.as_slice(), "user") {
            Some(NotesCacheScope::User)
        } else {
            None
        }
    }
}

/// Every setting, one variant each, in file and dialog order.
#[derive(Clone, Copy, PartialEq, Eq, Debug, Structural)]
pub enum SettingKey {
    ShowSyllableGutter,
    ShowVcsGutter,
    ShowLineNumbers,
    HighlightCurrentLine,
    LineSpacingPx,
    WrapLines,
    ShowWhitespace,
    HighlightBrackets,
    StickyScroll,
    ShowRightMargin,
    RightMarginColumn,
    RhymeHighlighting,
    RhymeStopAtBlankLine,
    ShowRhymeLegend,
    RhymeHoverEmphasis,
    RhymeLineWindow,
    RhymeHueCount,
    RhymeDebounceMs,
    RhymeMergeThreshold,
    RhymeAnchor,
    RhymeExtend,
    RhymeJump,
    WordCompletion,
    CompletionMinPrefix,
    CompletionMaxSuggestions,
    AutoIndent,
    InsertSpaces,
    TabWidth,
    AutosaveDebounceMs,
    GitAutostage,
    GitRemoteName,
    GitDefaultCommitMessage,
    GitSignatureFallback,
    NotesCacheScope,
    AppleNotesRefreshSecs,
    RhymeLookupTimeoutSecs,
    Theme,
    IconTheme,
    FontFamily,
    FontSize,
    UiFontSize,
    CornerRadius,
    AnimationsEnabled,
}

pub open spec fn spec_key_name(k: SettingKey) -> Seq<char> {
    match k {
        SettingKey::ShowSyllableGutter => "show_syllable_gutter"@,
        SettingKey::ShowVcsGutter => "show_vcs_gutter"@,
        SettingKey::ShowLineNumbers => "show_line_numbers"@,
        SettingKey::HighlightCurrentLine => "highlight_current_line"@,
        SettingKey::LineSpacingPx => "line_spacing_px"@,
        SettingKey::WrapLines => "wrap_lines"@,
        SettingKey::ShowWhitespace => "show_whitespace"@,
        SettingKey::HighlightBrackets => "highlight_brackets"@,
        SettingKey::StickyScroll => "sticky_scroll"@,
        SettingKey::ShowRightMargin => "show_right_margin"@,
        SettingKey::RightMarginColumn => "right_margin_column"@,
        SettingKey::RhymeHighlighting => "rhyme_highlighting"@,
        SettingKey::RhymeStopAtBlankLine => "rhyme_stop_at_blank_line"@,
        SettingKey::ShowRhymeLegend => "show_rhyme_legend"@,
        SettingKey::RhymeHoverEmphasis => "rhyme_hover_emphasis"@,
        SettingKey::RhymeLineWindow => "rhyme_line_window"@,
        SettingKey::RhymeHueCount => "rhyme_hue_count"@,
        SettingKey::RhymeDebounceMs => "rhyme_debounce_ms"@,
        SettingKey::RhymeMergeThreshold => "rhyme_merge_threshold"@,
        SettingKey::RhymeAnchor => "rhyme_anchor"@,
        SettingKey::RhymeExtend => "rhyme_extend"@,
        SettingKey::RhymeJump => "rhyme_jump"@,
        SettingKey::WordCompletion => "word_completion"@,
        SettingKey::CompletionMinPrefix => "completion_min_prefix"@,
        SettingKey::CompletionMaxSuggestions => "completion_max_suggestions"@,
        SettingKey::AutoIndent => "auto_indent"@,
        SettingKey::InsertSpaces => "insert_spaces"@,
        SettingKey::TabWidth => "tab_width"@,
        SettingKey::AutosaveDebounceMs => "autosave_debounce_ms"@,
        SettingKey::GitAutostage => "git_autostage"@,
        SettingKey::GitRemoteName => "git_remote_name"@,
        SettingKey::GitDefaultCommitMessage => "git_default_commit_message"@,
        SettingKey::GitSignatureFallback => "git_signature_fallback"@,
        SettingKey::NotesCacheScope => "notes_cache_scope"@,
        SettingKey::AppleNotesRefreshSecs => "apple_notes_refresh_secs"@,
        SettingKey::RhymeLookupTimeoutSecs => "rhyme_lookup_timeout_secs"@,
        SettingKey::Theme => "theme"@,
        SettingKey::IconTheme => "icon_theme"@,
        SettingKey::FontFamily => "font_family"@,
        SettingKey::FontSize => "font_size"@,
        SettingKey::UiFontSize => "ui_font_size"@,
        SettingKey::CornerRadius => "corner_radius"@,
        SettingKey::AnimationsEnabled => "animations_enabled"@,
    }
}

/// The setting a file key names: the one whose name is exactly `s`.
pub open spec fn spec_key_from_name(s: Seq<char>) -> Option<SettingKey> {
    if exists|k: SettingKey| #[trigger] spec_key_name(k) == s {
        Some(choose|k: SettingKey| #[trigger] spec_key_name(k) == s)
    } else {
        None
    }
}

/// A character a setting name is made of.
pub open spec fn is_name_char(c: char) -> bool {
    ('a' <= c && c <= 'z') || c == '_'
}

/// Length, first and eighth character: enough to tell the names apart.
spec fn name_sig(s: Seq<char>) -> (int, char, char) {
    (s.len() as int, if s.len() > 0 { s[0] } else { ' ' }, if s.len() > 7 { s[7] } else { ' ' })
}

spec fn key_of_sig(g: (int, char, char)) -> SettingKey {
    if g == (20int, 's', 'l') {
        SettingKey::ShowSyllableGutter
    }
    else if g == (15int, 's', 's') {
        SettingKey::ShowVcsGutter
    }
    else if g == (17int, 's', 'n') {
        SettingKey::ShowLineNumbers
    }
    else if g == (22int, 'h', 'h') {
        SettingKey::HighlightCurrentLine
    }
    else if g == (15int, 'l', 'a') {
        SettingKey::LineSpacingPx
    }
    else if g == (10int, 'w', 'n') {
        SettingKey::WrapLines
    }
    else if g == (15int, 's', 'i') {
        SettingKey::ShowWhitespace
    }
    else if g == (18int, 'h', 'h') {
        SettingKey::HighlightBrackets
    }
    else if g == (13int, 's', 's') {
        SettingKey::StickyScroll
    }
    else if g == (17int, 's', 'g') {
        SettingKey::ShowRightMargin
    }
    else if g == (19int, 'r', 'a') {
        SettingKey::RightMarginColumn
    }
    else if g == (18int, 'r', 'i') {
        SettingKey::RhymeHighlighting
    }
    else if g == (24int, 'r', 't') {
        SettingKey::RhymeStopAtBlankLine
    }
    else if g == (17int, 's', 'y') {
        SettingKey::ShowRhymeLegend
    }
    else if g == (20int, 'r', 'o') {
        SettingKey::RhymeHoverEmphasis
    }
    else if g == (17int, 'r', 'i') {
        SettingKey::RhymeLineWindow
    }
    else if g == (15int, 'r', 'u') {
        SettingKey::RhymeHueCount
    }
    else if g == (17int, 'r', 'e') {
        SettingKey::RhymeDebounceMs
    }
    else if g == (21int, 'r', 'e') {
        SettingKey::RhymeMergeThreshold
    }
    else if g == (12int, 'r', 'n') {
        SettingKey::RhymeAnchor
    }
    else if g == (12int, 'r', 'x') {
        SettingKey::RhymeExtend
    }
    else if g == (10int, 'r', 'u') {
        SettingKey::RhymeJump
    }
    else if g == (15int, 'w', 'm') {
        SettingKey::WordCompletion
    }
    else if g == (21int, 'c', 'i') {
        SettingKey::CompletionMinPrefix
    }
    else if g == (26int, 'c', 'i') {
        SettingKey::CompletionMaxSuggestions
    }
    else if g == (11int, 'a', 'd') {
        SettingKey::AutoIndent
    }
    else if g == (13int, 'i', 's') {
        SettingKey::InsertSpaces
    }
    else if g == (9int, 't', 't') {
        SettingKey::TabWidth
    }
    else if g == (20int, 'a', 'e') {
        SettingKey::AutosaveDebounceMs
    }
    else if g == (13int, 'g', 'o') {
        SettingKey::GitAutostage
    }
    else if g == (15int, 'g', 'o') {
        SettingKey::GitRemoteName
    }
    else if g == (26int, 'g', 'a') {
        SettingKey::GitDefaultCommitMessage
    }
    else if g == (22int, 'g', 'n') {
        SettingKey::GitSignatureFallback
    }
    else if g == (17int, 'n', 'a') {
        SettingKey::NotesCacheScope
    }
    else if g == (24int, 'a', 'o') {
        SettingKey::AppleNotesRefreshSecs
    }
    else if g == (25int, 'r', 'o') {
        SettingKey::RhymeLookupTimeoutSecs
    }
    else if g == (5int, 't', ' ') {
        SettingKey::Theme
    }
    else if g == (10int, 'i', 'e') {
        SettingKey::IconTheme
    }
    else if g == (11int, 'f', 'm') {
        SettingKey::FontFamily
    }
    else if g == (9int, 'f', 'z') {
        SettingKey::FontSize
    }
    else if g == (12int, 'u', '_') {
        SettingKey::UiFontSize
    }
    else if g == (13int, 'c', 'r') {
        SettingKey::CornerRadius
    }
    else if g == (18int, 'a', 'o') {
        SettingKey::AnimationsEnabled
    }
    else {
        SettingKey::ShowSyllableGutter
    }
}

/// Every name is a non-empty run of `a`-`z` and `_`, and its signature
/// leads back to its key.
proof fn lemma_key_name(k: SettingKey)
    ensures
        spec_key_name(k).len() > 0,
        forall|i: int| 0 <= i < spec_key_name(k).len() ==> is_name_char(#[trigger] spec_key_name(k)[i]),
        key_of_sig(name_sig(spec_key_name(k))) == k,
{
    match k {
        SettingKey::ShowSyllableGutter => {
            reveal_strlit("show_syllable_gutter");
        },
        SettingKey::ShowVcsGutter => {
            reveal_strlit("show_vcs_gutter");
        },
        SettingKey::ShowLineNumbers => {
            reveal_strlit("show_line_numbers");
        },
        SettingKey::HighlightCurrentLine => {
            reveal_strlit("highlight_current_line");
        },
        SettingKey::LineSpacingPx => {
            reveal_strlit("line_spacing_px");
        },
        SettingKey::WrapLines => {
            reveal_strlit("wrap_lines");
        },
        SettingKey::ShowWhitespace => {
            reveal_strlit("show_whitespace");
        },
        SettingKey::HighlightBrackets => {
            reveal_strlit("highlight_brackets");
        },
        SettingKey::StickyScroll => {
            reveal_strlit("sticky_scroll");
        },
        SettingKey::ShowRightMargin => {
            reveal_strlit("show_right_margin");
        },
        SettingKey::RightMarginColumn => {
            reveal_strlit("right_margin_column");
        },
        SettingKey::RhymeHighlighting => {
            reveal_strlit("rhyme_highlighting");
        },
        SettingKey::RhymeStopAtBlankLine => {
            reveal_strlit("rhyme_stop_at_blank_line");
        },
        SettingKey::ShowRhymeLegend => {
            reveal_strlit("show_rhyme_legend");
        },
        SettingKey::RhymeHoverEmphasis => {
            reveal_strlit("rhyme_hover_emphasis");
        },
        SettingKey::RhymeLineWindow => {
            reveal_strlit("rhyme_line_window");
        },
        SettingKey::RhymeHueCount => {
            reveal_strlit("rhyme_hue_count");
        },
        SettingKey::RhymeDebounceMs => {
            reveal_strlit("rhyme_debounce_ms");
        },
        SettingKey::RhymeMergeThreshold => {
            reveal_strlit("rhyme_merge_threshold");
        },
        SettingKey::RhymeAnchor => {
            reveal_strlit("rhyme_anchor");
        },
        SettingKey::RhymeExtend => {
            reveal_strlit("rhyme_extend");
        },
        SettingKey::RhymeJump => {
            reveal_strlit("rhyme_jump");
        },
        SettingKey::WordCompletion => {
            reveal_strlit("word_completion");
        },
        SettingKey::CompletionMinPrefix => {
            reveal_strlit("completion_min_prefix");
        },
        SettingKey::CompletionMaxSuggestions => {
            reveal_strlit("completion_max_suggestions");
        },
        SettingKey::AutoIndent => {
            reveal_strlit("auto_indent");
        },
        SettingKey::InsertSpaces => {
            reveal_strlit("insert_spaces");
        },
        SettingKey::TabWidth => {
            reveal_strlit("tab_width");
        },
        SettingKey::AutosaveDebounceMs => {
            reveal_strlit("autosave_debounce_ms");
        },
        SettingKey::GitAutostage => {
            reveal_strlit("git_autostage");
        },
        SettingKey::GitRemoteName => {
            reveal_strlit("git_remote_name");
        },
        SettingKey::GitDefaultCommitMessage => {
            reveal_strlit("git_default_commit_message");
        },
        SettingKey::GitSignatureFallback => {
            reveal_strlit("git_signature_fallback");
        },
        SettingKey::NotesCacheScope => {
            reveal_strlit("notes_cache_scope");
        },
        SettingKey::AppleNotesRefreshSecs => {
            reveal_strlit("apple_notes_refresh_secs");
        },
        SettingKey::RhymeLookupTimeoutSecs => {
            reveal_strlit("rhyme_lookup_timeout_secs");
        },
        SettingKey::Theme => {
            reveal_strlit("theme");
        },
        SettingKey::IconTheme => {
            reveal_strlit("icon_theme");
        },
        SettingKey::FontFamily => {
            reveal_strlit("font_family");
        },
        SettingKey::FontSize => {
            reveal_strlit("font_size");
        },
        SettingKey::UiFontSize => {
            reveal_strlit("ui_font_size");
        },
        SettingKey::CornerRadius => {
            reveal_strlit("corner_radius");
        },
        SettingKey::AnimationsEnabled => {
            reveal_strlit("animations_enabled");
        },
    }
}

/// No two settings share a name.
pub proof fn lemma_names_distinct(a: SettingKey, b: SettingKey)
    requires
        spec_key_name(a) == spec_key_name(b),
    ensures
        a == b,
{
    lemma_key_name(a);
    lemma_key_name(b);
}

/// A setting's own name leads back to it, and is made of name characters.
pub proof fn lemma_from_name(k: SettingKey)
    ensures
        spec_key_from_name(spec_key_name(k)) == Some(k),
        spec_key_name(k).len() > 0,
        forall|i: int| 0 <= i < spec_key_name(k).len() ==> is_name_char(#[trigger] spec_key_name(k)[i]),
{
    lemma_key_name(k);
    let c = choose|j: SettingKey| #[trigger] spec_key_name(j) == spec_key_name(k);
    lemma_names_distinct(c, k);
}

/// Registry order.
pub open spec fn spec_all_keys() -> Seq<SettingKey> {
    seq![
        SettingKey::ShowSyllableGutter,
        SettingKey::ShowVcsGutter,
        SettingKey::ShowLineNumbers,
        SettingKey::HighlightCurrentLine,
        SettingKey::LineSpacingPx,
        SettingKey::WrapLines,
        SettingKey::ShowWhitespace,
        SettingKey::HighlightBrackets,
        SettingKey::StickyScroll,
        SettingKey::ShowRightMargin,
        SettingKey::RightMarginColumn,
        SettingKey::RhymeHighlighting,
        SettingKey::RhymeStopAtBlankLine,
        SettingKey::ShowRhymeLegend,
        SettingKey::RhymeHoverEmphasis,
        SettingKey::RhymeLineWindow,
        SettingKey::RhymeHueCount,
        SettingKey::RhymeDebounceMs,
        SettingKey::RhymeMergeThreshold,
        SettingKey::RhymeAnchor,
        SettingKey::RhymeExtend,
        SettingKey::RhymeJump,
        SettingKey::WordCompletion,
        SettingKey::CompletionMinPrefix,
        SettingKey::CompletionMaxSuggestions,
        SettingKey::AutoIndent,
        SettingKey::InsertSpaces,
        SettingKey::TabWidth,
        SettingKey::AutosaveDebounceMs,
        SettingKey::GitAutostage,
        SettingKey::GitRemoteName,
        SettingKey::GitDefaultCommitMessage,
        SettingKey::GitSignatureFallback,
        SettingKey::NotesCacheScope,
        SettingKey::AppleNotesRefreshSecs,
        SettingKey::RhymeLookupTimeoutSecs,
        SettingKey::Theme,
        SettingKey::IconTheme,
        SettingKey::FontFamily,
        SettingKey::FontSize,
        SettingKey::UiFontSize,
        SettingKey::CornerRadius,
        SettingKey::AnimationsEnabled,
    ]
}

/// The part of a setting's domain that loading depends on.
pub enum KindModel {
    Bool,
    Int(int, int),
    Float,
    Enum(Seq<Seq<char>>),
    Text,
}

/// The domain `kind` validates against.
pub open spec fn kind_view(kind: SettingKind) -> KindModel {
    match kind {
        SettingKind::Bool => KindModel::Bool,
        SettingKind::Int { min, max, .. } => KindModel::Int(min as int, max as int),
        SettingKind::FontSize { min, max } => KindModel::Int(min as int, max as int),
        SettingKind::Float { .. } => KindModel::Float,
        SettingKind::Enum { values, .. } => KindModel::Enum(token_list(values)),
        SettingKind::Text => KindModel::Text,
        SettingKind::Font => KindModel::Text,
    }
}

#[verifier::opaque]
pub open spec fn spec_kind(k: SettingKey) -> KindModel {
    match k {
        SettingKey::ShowSyllableGutter => KindModel::Bool,
        SettingKey::ShowVcsGutter => KindModel::Bool,
        SettingKey::ShowLineNumbers => KindModel::Bool,
        SettingKey::HighlightCurrentLine => KindModel::Bool,
        SettingKey::LineSpacingPx => KindModel::Int(0, 8),
        SettingKey::WrapLines => KindModel::Bool,
        SettingKey::ShowWhitespace => KindModel::Bool,
        SettingKey::HighlightBrackets => KindModel::Bool,
        SettingKey::StickyScroll => KindModel::Bool,
        SettingKey::ShowRightMargin => KindModel::Bool,
        SettingKey::RightMarginColumn => KindModel::Int(20, 200),
        SettingKey::RhymeHighlighting => KindModel::Bool,
        SettingKey::RhymeStopAtBlankLine => KindModel::Bool,
        SettingKey::ShowRhymeLegend => KindModel::Bool,
        SettingKey::RhymeHoverEmphasis => KindModel::Bool,
        SettingKey::RhymeLineWindow => KindModel::Int(1, 8),
        SettingKey::RhymeHueCount => KindModel::Int(6, 24),
        SettingKey::RhymeDebounceMs => KindModel::Int(100, 2000),
        SettingKey::RhymeMergeThreshold => KindModel::Float,
        SettingKey::RhymeAnchor => KindModel::Float,
        SettingKey::RhymeExtend => KindModel::Float,
        SettingKey::RhymeJump => KindModel::Float,
        SettingKey::WordCompletion => KindModel::Bool,
        SettingKey::CompletionMinPrefix => KindModel::Int(1, 6),
        SettingKey::CompletionMaxSuggestions => KindModel::Int(10, 500),
        SettingKey::AutoIndent => KindModel::Bool,
        SettingKey::InsertSpaces => KindModel::Bool,
        SettingKey::TabWidth => KindModel::Int(1, 8),
        SettingKey::AutosaveDebounceMs => KindModel::Int(100, 5000),
        SettingKey::GitAutostage => KindModel::Bool,
        SettingKey::GitRemoteName => KindModel::Text,
        SettingKey::GitDefaultCommitMessage => KindModel::Text,
        SettingKey::GitSignatureFallback => KindModel::Text,
        SettingKey::NotesCacheScope => KindModel::Enum(seq!["workspace"@, "user"@]),
        SettingKey::AppleNotesRefreshSecs => KindModel::Int(30, 3600),
        SettingKey::RhymeLookupTimeoutSecs => KindModel::Int(2, 60),
        SettingKey::Theme => KindModel::Enum(seq!["dark"@, "light"@]),
        SettingKey::IconTheme => KindModel::Enum(seq!["color"@, "monochrome"@]),
        SettingKey::FontFamily => KindModel::Text,
        SettingKey::FontSize => KindModel::Int(6, 96),
        SettingKey::UiFontSize => KindModel::Int(8, 24),
        SettingKey::CornerRadius => KindModel::Int(0, 12),
        SettingKey::AnimationsEnabled => KindModel::Bool,
    }
}

/// The Rust type each setting's field has.
pub enum FieldClass {
    Bool,
    Int,
    Float,
    Text,
    Scope,
    Theme,
    IconTheme,
}

pub open spec fn field_class(k: SettingKey) -> FieldClass {
    match k {
        SettingKey::ShowSyllableGutter => FieldClass::Bool,
        SettingKey::ShowVcsGutter => FieldClass::Bool,
        SettingKey::ShowLineNumbers => FieldClass::Bool,
        SettingKey::HighlightCurrentLine => FieldClass::Bool,
        SettingKey::LineSpacingPx => FieldClass::Int,
        SettingKey::WrapLines => FieldClass::Bool,
        SettingKey::ShowWhitespace => FieldClass::Bool,
        SettingKey::HighlightBrackets => FieldClass::Bool,
        SettingKey::StickyScroll => FieldClass::Bool,
        SettingKey::ShowRightMargin => FieldClass::Bool,
        SettingKey::RightMarginColumn => FieldClass::Int,
        SettingKey::RhymeHighlighting => FieldClass::Bool,
        SettingKey::RhymeStopAtBlankLine => FieldClass::Bool,
        SettingKey::ShowRhymeLegend => FieldClass::Bool,
        SettingKey::RhymeHoverEmphasis => FieldClass::Bool,
        SettingKey::RhymeLineWindow => FieldClass::Int,
        SettingKey::RhymeHueCount => FieldClass::Int,
        SettingKey::RhymeDebounceMs => FieldClass::Int,
        SettingKey::RhymeMergeThreshold => FieldClass::Float,
        SettingKey::RhymeAnchor => FieldClass::Float,
        SettingKey::RhymeExtend => FieldClass::Float,
        SettingKey::RhymeJump => FieldClass::Float,
        SettingKey::WordCompletion => FieldClass::Bool,
        SettingKey::CompletionMinPrefix => FieldClass::Int,
        SettingKey::CompletionMaxSuggestions => FieldClass::Int,
        SettingKey::AutoIndent => FieldClass::Bool,
        SettingKey::InsertSpaces => FieldClass::Bool,
        SettingKey::TabWidth => FieldClass::Int,
        SettingKey::AutosaveDebounceMs => FieldClass::Int,
        SettingKey::GitAutostage => FieldClass::Bool,
        SettingKey::GitRemoteName => FieldClass::Text,
        SettingKey::GitDefaultCommitMessage => FieldClass::Text,
        SettingKey::GitSignatureFallback => FieldClass::Text,
        SettingKey::NotesCacheScope => FieldClass::Scope,
        SettingKey::AppleNotesRefreshSecs => FieldClass::Int,
        SettingKey::RhymeLookupTimeoutSecs => FieldClass::Int,
        SettingKey::Theme => FieldClass::Theme,
        SettingKey::IconTheme => FieldClass::IconTheme,
        SettingKey::FontFamily => FieldClass::Text,
        SettingKey::FontSize => FieldClass::Int,
        SettingKey::UiFontSize => FieldClass::Int,
        SettingKey::CornerRadius => FieldClass::Int,
        SettingKey::AnimationsEnabled => FieldClass::Bool,
    }
}

/// User-configurable app behaviour, one field per [`SettingKey`].
#[derive(Clone, PartialEq, Debug)]
pub struct Settings {
    pub show_syllable_gutter: bool,
    pub show_vcs_gutter: bool,
    pub show_line_numbers: bool,
    pub highlight_current_line: bool,
    pub line_spacing_px: u32,
    pub wrap_lines: bool,
    pub show_whitespace: bool,
    pub highlight_brackets: bool,
    pub sticky_scroll: bool,
    pub show_right_margin: bool,
    pub right_margin_column: u32,
    pub rhyme_highlighting: bool,
    pub rhyme_stop_at_blank_line: bool,
    pub show_rhyme_legend: bool,
    pub rhyme_hover_emphasis: bool,
    pub rhyme_line_window: u32,
    pub rhyme_hue_count: u32,
    pub rhyme_debounce_ms: u32,
    /// Fractional; its decimal text.
    pub rhyme_merge_threshold: String,
    /// Fractional; its decimal text.
    pub rhyme_anchor: String,
    /// Fractional; its decimal text.
    pub rhyme_extend: String,
    /// Fractional; its decimal text.
    pub rhyme_jump: String,
    pub word_completion: bool,
    pub completion_min_prefix: u32,
    pub completion_max_suggestions: u32,
    pub auto_indent: bool,
    pub insert_spaces: bool,
    pub tab_width: u32,
    pub autosave_debounce_ms: u32,
    pub git_autostage: bool,
    pub git_remote_name: String,
    pub git_default_commit_message: String,
    pub git_signature_fallback: String,
    pub notes_cache_scope: NotesCacheScope,
    pub apple_notes_refresh_secs: u32,
    pub rhyme_lookup_timeout_secs: u32,
    pub theme: Theme,
    pub icon_theme: IconTheme,
    pub font_family: String,
    pub font_size: u32,
    pub ui_font_size: u32,
    pub corner_radius: u32,
    pub animations_enabled: bool,
    /// Editor colour-scheme overrides, `palette.<name>` lines in the file,
    /// consulted by `crate::css::theme_css`: a palette entry's name and a
    /// `#rrggbb` colour. Kept in ascending name order.
    pub palette_overrides: StrMap<String>,
    /// `key=value` lines whose key is neither a setting nor a `palette.`
    /// override — kept verbatim so a file written by a newer build
    /// round-trips unharmed. Kept in ascending key order.
    pub unknown: StrMap<String>,
}

/// What setting `k` currently holds, as [`Settings::get`] reports it.
pub closed spec fn field_value(s: &Settings, k: SettingKey) -> SValue {
    match k {
        SettingKey::ShowSyllableGutter => SValue::Bool(s.show_syllable_gutter),
        SettingKey::ShowVcsGutter => SValue::Bool(s.show_vcs_gutter),
        SettingKey::ShowLineNumbers => SValue::Bool(s.show_line_numbers),
        SettingKey::HighlightCurrentLine => SValue::Bool(s.highlight_current_line),
        SettingKey::LineSpacingPx => SValue::Int(s.line_spacing_px as int),
        SettingKey::WrapLines => SValue::Bool(s.wrap_lines),
        SettingKey::ShowWhitespace => SValue::Bool(s.show_whitespace),
        SettingKey::HighlightBrackets => SValue::Bool(s.highlight_brackets),
        SettingKey::StickyScroll => SValue::Bool(s.sticky_scroll),
        SettingKey::ShowRightMargin => SValue::Bool(s.show_right_margin),
        SettingKey::RightMarginColumn => SValue::Int(s.right_margin_column as int),
        SettingKey::RhymeHighlighting => SValue::Bool(s.rhyme_highlighting),
        SettingKey::RhymeStopAtBlankLine => SValue::Bool(s.rhyme_stop_at_blank_line),
        SettingKey::ShowRhymeLegend => SValue::Bool(s.show_rhyme_legend),
        SettingKey::RhymeHoverEmphasis => SValue::Bool(s.rhyme_hover_emphasis),
        SettingKey::RhymeLineWindow => SValue::Int(s.rhyme_line_window as int),
        SettingKey::RhymeHueCount => SValue::Int(s.rhyme_hue_count as int),
        SettingKey::RhymeDebounceMs => SValue::Int(s.rhyme_debounce_ms as int),
        SettingKey::RhymeMergeThreshold => SValue::Float(s.rhyme_merge_threshold@),
        SettingKey::RhymeAnchor => SValue::Float(s.rhyme_anchor@),
        SettingKey::RhymeExtend => SValue::Float(s.rhyme_extend@),
        SettingKey::RhymeJump => SValue::Float(s.rhyme_jump@),
        SettingKey::WordCompletion => SValue::Bool(s.word_completion),
        SettingKey::CompletionMinPrefix => SValue::Int(s.completion_min_prefix as int),
        SettingKey::CompletionMaxSuggestions => SValue::Int(s.completion_max_suggestions as int),
        SettingKey::AutoIndent => SValue::Bool(s.auto_indent),
        SettingKey::InsertSpaces => SValue::Bool(s.insert_spaces),
        SettingKey::TabWidth => SValue::Int(s.tab_width as int),
        SettingKey::AutosaveDebounceMs => SValue::Int(s.autosave_debounce_ms as int),
        SettingKey::GitAutostage => SValue::Bool(s.git_autostage),
        SettingKey::GitRemoteName => SValue::Text(s.git_remote_name@),
        SettingKey::GitDefaultCommitMessage => SValue::Text(s.git_default_commit_message@),
        SettingKey::GitSignatureFallback => SValue::Text(s.git_signature_fallback@),
        SettingKey::NotesCacheScope => SValue::Text(spec_scope_str(s.notes_cache_scope)),
        SettingKey::AppleNotesRefreshSecs => SValue::Int(s.apple_notes_refresh_secs as int),
        SettingKey::RhymeLookupTimeoutSecs => SValue::Int(s.rhyme_lookup_timeout_secs as int),
        SettingKey::Theme => SValue::Text(spec_theme_str(s.theme)),
        SettingKey::IconTheme => SValue::Text(spec_icon_theme_str(s.icon_theme)),
        SettingKey::FontFamily => SValue::Text(s.font_family@),
        SettingKey::FontSize => SValue::Int(s.font_size as int),
        SettingKey::UiFontSize => SValue::Int(s.ui_font_size as int),
        SettingKey::CornerRadius => SValue::Int(s.corner_radius as int),
        SettingKey::AnimationsEnabled => SValue::Bool(s.animations_enabled),
    }
}

/// What a fresh [`Settings`] holds for `k`.
pub open spec fn spec_default(k: SettingKey) -> SValue {
    match k {
        SettingKey::ShowSyllableGutter => SValue::Bool(true),
        SettingKey::ShowVcsGutter => SValue::Bool(true),
        SettingKey::ShowLineNumbers => SValue::Bool(true),
        SettingKey::HighlightCurrentLine => SValue::Bool(true),
        SettingKey::LineSpacingPx => SValue::Int(1),
        SettingKey::WrapLines => SValue::Bool(true),
        SettingKey::ShowWhitespace => SValue::Bool(false),
        SettingKey::HighlightBrackets => SValue::Bool(false),
        SettingKey::StickyScroll => SValue::Bool(true),
        SettingKey::ShowRightMargin => SValue::Bool(false),
        SettingKey::RightMarginColumn => SValue::Int(80),
        SettingKey::RhymeHighlighting => SValue::Bool(false),
        SettingKey::RhymeStopAtBlankLine => SValue::Bool(true),
        SettingKey::ShowRhymeLegend => SValue::Bool(true),
        SettingKey::RhymeHoverEmphasis => SValue::Bool(true),
        SettingKey::RhymeLineWindow => SValue::Int(3),
        SettingKey::RhymeHueCount => SValue::Int(24),
        SettingKey::RhymeDebounceMs => SValue::Int(400),
        SettingKey::RhymeMergeThreshold => SValue::Float("3.25"@),
        SettingKey::RhymeAnchor => SValue::Float("1.5"@),
        SettingKey::RhymeExtend => SValue::Float("0"@),
        SettingKey::RhymeJump => SValue::Float("2.5"@),
        SettingKey::WordCompletion => SValue::Bool(false),
        SettingKey::CompletionMinPrefix => SValue::Int(2),
        SettingKey::CompletionMaxSuggestions => SValue::Int(100),
        SettingKey::AutoIndent => SValue::Bool(true),
        SettingKey::InsertSpaces => SValue::Bool(false),
        SettingKey::TabWidth => SValue::Int(4),
        SettingKey::AutosaveDebounceMs => SValue::Int(600),
        SettingKey::GitAutostage => SValue::Bool(true),
        SettingKey::GitRemoteName => SValue::Text("origin"@),
        SettingKey::GitDefaultCommitMessage => SValue::Text("Update"@),
        SettingKey::GitSignatureFallback => SValue::Text("Pneuma <pneuma@local>"@),
        SettingKey::NotesCacheScope => SValue::Text("workspace"@),
        SettingKey::AppleNotesRefreshSecs => SValue::Int(300),
        SettingKey::RhymeLookupTimeoutSecs => SValue::Int(8),
        SettingKey::Theme => SValue::Text("dark"@),
        SettingKey::IconTheme => SValue::Text("color"@),
        SettingKey::FontFamily => SValue::Text("JetBrains Mono"@),
        SettingKey::FontSize => SValue::Int(13),
        SettingKey::UiFontSize => SValue::Int(13),
        SettingKey::CornerRadius => SValue::Int(4),
        SettingKey::AnimationsEnabled => SValue::Bool(true),
    }
}

/// The label a setting shows in the dialog.
pub open spec fn spec_setting_label(k: SettingKey) -> Seq<char> {
    match k {
        SettingKey::ShowSyllableGutter => "Show syllable count in the gutter"@,
        SettingKey::ShowVcsGutter => "Show VCS change markers in the gutter"@,
        SettingKey::ShowLineNumbers => "Show line numbers"@,
        SettingKey::HighlightCurrentLine => "Highlight the current line"@,
        SettingKey::LineSpacingPx => "Extra space between lines (px)"@,
        SettingKey::WrapLines => "Wrap long lines to the editor width"@,
        SettingKey::ShowWhitespace => "Show spaces and tabs"@,
        SettingKey::HighlightBrackets => "Highlight matching brackets"@,
        SettingKey::StickyScroll => "Pin the current stanza's first line to the top"@,
        SettingKey::ShowRightMargin => "Show a right-margin guide"@,
        SettingKey::RightMarginColumn => "Right-margin column"@,
        SettingKey::RhymeHighlighting => "Highlight rhyming syllables"@,
        SettingKey::RhymeStopAtBlankLine => "Don't match rhymes across a blank line"@,
        SettingKey::ShowRhymeLegend => "Show the rhyme-group legend under the editor"@,
        SettingKey::RhymeHoverEmphasis => "Hover a word to emphasise its rhyme group"@,
        SettingKey::RhymeLineWindow => "Lines of look-back"@,
        SettingKey::RhymeHueCount => "Distinct group colours before the palette repeats"@,
        SettingKey::RhymeDebounceMs => "Recompute delay after the last keystroke (ms)"@,
        SettingKey::RhymeMergeThreshold => "Merge threshold"@,
        SettingKey::RhymeAnchor => "Anchor threshold"@,
        SettingKey::RhymeExtend => "Extend threshold"@,
        SettingKey::RhymeJump => "Jump threshold"@,
        SettingKey::WordCompletion => "Enable dictionary word completion"@,
        SettingKey::CompletionMinPrefix => "Characters typed before suggesting"@,
        SettingKey::CompletionMaxSuggestions => "Maximum suggestions shown"@,
        SettingKey::AutoIndent => "Auto-indent new lines"@,
        SettingKey::InsertSpaces => "Insert spaces instead of tabs"@,
        SettingKey::TabWidth => "Tab width"@,
        SettingKey::AutosaveDebounceMs => "Autosave delay after the last keystroke (ms)"@,
        SettingKey::GitAutostage => "Automatically stage changes when saving"@,
        SettingKey::GitRemoteName => "Remote name"@,
        SettingKey::GitDefaultCommitMessage => "Default commit message"@,
        SettingKey::GitSignatureFallback => "Fallback author"@,
        SettingKey::NotesCacheScope => "Apple Notes cache"@,
        SettingKey::AppleNotesRefreshSecs => "Apple Notes refresh interval (s)"@,
        SettingKey::RhymeLookupTimeoutSecs => "Rhyme lookup timeout (s)"@,
        SettingKey::Theme => "Theme"@,
        SettingKey::IconTheme => "Icons"@,
        SettingKey::FontFamily => "Editor font"@,
        SettingKey::FontSize => "Editor font size"@,
        SettingKey::UiFontSize => "Interface font size (px)"@,
        SettingKey::CornerRadius => "Corner radius (px)"@,
        SettingKey::AnimationsEnabled => "Animate transitions"@,
    }
}

/// The sub-header a setting sits under; empty for the first group.
pub open spec fn spec_setting_group(k: SettingKey) -> Seq<char> {
    match k {
        SettingKey::ShowSyllableGutter => "Gutter"@,
        SettingKey::ShowVcsGutter => "Gutter"@,
        SettingKey::ShowLineNumbers => "Gutter"@,
        SettingKey::HighlightCurrentLine => "View"@,
        SettingKey::LineSpacingPx => "View"@,
        SettingKey::WrapLines => "View"@,
        SettingKey::ShowWhitespace => "View"@,
        SettingKey::HighlightBrackets => "View"@,
        SettingKey::StickyScroll => "View"@,
        SettingKey::ShowRightMargin => "Right margin"@,
        SettingKey::RightMarginColumn => "Right margin"@,
        SettingKey::RhymeHighlighting => ""@,
        SettingKey::RhymeStopAtBlankLine => ""@,
        SettingKey::ShowRhymeLegend => ""@,
        SettingKey::RhymeHoverEmphasis => ""@,
        SettingKey::RhymeLineWindow => "Engine"@,
        SettingKey::RhymeHueCount => "Engine"@,
        SettingKey::RhymeDebounceMs => "Engine"@,
        SettingKey::RhymeMergeThreshold => "Engine"@,
        SettingKey::RhymeAnchor => "Engine"@,
        SettingKey::RhymeExtend => "Engine"@,
        SettingKey::RhymeJump => "Engine"@,
        SettingKey::WordCompletion => ""@,
        SettingKey::CompletionMinPrefix => ""@,
        SettingKey::CompletionMaxSuggestions => ""@,
        SettingKey::AutoIndent => "Indentation"@,
        SettingKey::InsertSpaces => "Indentation"@,
        SettingKey::TabWidth => "Indentation"@,
        SettingKey::AutosaveDebounceMs => "Saving"@,
        SettingKey::GitAutostage => ""@,
        SettingKey::GitRemoteName => "Remote"@,
        SettingKey::GitDefaultCommitMessage => "Commits"@,
        SettingKey::GitSignatureFallback => "Commits"@,
        SettingKey::NotesCacheScope => ""@,
        SettingKey::AppleNotesRefreshSecs => ""@,
        SettingKey::RhymeLookupTimeoutSecs => ""@,
        SettingKey::Theme => ""@,
        SettingKey::IconTheme => ""@,
        SettingKey::FontFamily => ""@,
        SettingKey::FontSize => ""@,
        SettingKey::UiFontSize => ""@,
        SettingKey::CornerRadius => ""@,
        SettingKey::AnimationsEnabled => ""@,
    }
}

/// The help text under a setting; empty for none.
pub open spec fn spec_setting_description(k: SettingKey) -> Seq<char> {
    match k {
        SettingKey::ShowSyllableGutter => ""@,
        SettingKey::ShowVcsGutter => ""@,
        SettingKey::ShowLineNumbers => ""@,
        SettingKey::HighlightCurrentLine => ""@,
        SettingKey::LineSpacingPx => ""@,
        SettingKey::WrapLines => ""@,
        SettingKey::ShowWhitespace => ""@,
        SettingKey::HighlightBrackets => ""@,
        SettingKey::StickyScroll => ""@,
        SettingKey::ShowRightMargin => ""@,
        SettingKey::RightMarginColumn => ""@,
        SettingKey::RhymeHighlighting => "Colors the text of syllables that rhyme with another word elsewhere in the document."@,
        SettingKey::RhymeStopAtBlankLine => ""@,
        SettingKey::ShowRhymeLegend => ""@,
        SettingKey::RhymeHoverEmphasis => ""@,
        SettingKey::RhymeLineWindow => ""@,
        SettingKey::RhymeHueCount => ""@,
        SettingKey::RhymeDebounceMs => ""@,
        SettingKey::RhymeMergeThreshold => "Minimum length-normalised score for two syllables to join the same colour group. Higher = fewer, stricter groups."@,
        SettingKey::RhymeAnchor => ""@,
        SettingKey::RhymeExtend => ""@,
        SettingKey::RhymeJump => "Anchor-and-extend detection tunables from Hirjee & Brown. Defaults suit most lyrics; changing them alters how aggressively near-rhymes are detected."@,
        SettingKey::WordCompletion => "Suggests words from the bundled dictionary as you type. Tab or Enter accepts a suggestion."@,
        SettingKey::CompletionMinPrefix => ""@,
        SettingKey::CompletionMaxSuggestions => ""@,
        SettingKey::AutoIndent => ""@,
        SettingKey::InsertSpaces => ""@,
        SettingKey::TabWidth => ""@,
        SettingKey::AutosaveDebounceMs => ""@,
        SettingKey::GitAutostage => ""@,
        SettingKey::GitRemoteName => ""@,
        SettingKey::GitDefaultCommitMessage => "Used when the commit dialog's message box is left empty."@,
        SettingKey::GitSignatureFallback => "\"Name <email>\" used to sign a commit when git has no user.name / user.email configured."@,
        SettingKey::NotesCacheScope => "Where the Apple Notes snapshot is stored. \"All workspaces\" keeps one shared copy under your user config dir instead of per-project .rhymr/."@,
        SettingKey::AppleNotesRefreshSecs => "How often the Apple Notes tree re-reads from the Notes app."@,
        SettingKey::RhymeLookupTimeoutSecs => "How long one Rhyme Search lookup may take before the panel reports an error."@,
        SettingKey::Theme => ""@,
        SettingKey::IconTheme => ""@,
        SettingKey::FontFamily => ""@,
        SettingKey::FontSize => ""@,
        SettingKey::UiFontSize => ""@,
        SettingKey::CornerRadius => ""@,
        SettingKey::AnimationsEnabled => ""@,
    }
}

pub open spec fn spec_category(k: SettingKey) -> CategoryId {
    match k {
        SettingKey::ShowSyllableGutter => CategoryId::EditorGeneral,
        SettingKey::ShowVcsGutter => CategoryId::EditorGeneral,
        SettingKey::ShowLineNumbers => CategoryId::EditorGeneral,
        SettingKey::HighlightCurrentLine => CategoryId::EditorGeneral,
        SettingKey::LineSpacingPx => CategoryId::EditorGeneral,
        SettingKey::WrapLines => CategoryId::EditorGeneral,
        SettingKey::ShowWhitespace => CategoryId::EditorGeneral,
        SettingKey::HighlightBrackets => CategoryId::EditorGeneral,
        SettingKey::StickyScroll => CategoryId::EditorGeneral,
        SettingKey::ShowRightMargin => CategoryId::EditorGeneral,
        SettingKey::RightMarginColumn => CategoryId::EditorGeneral,
        SettingKey::RhymeHighlighting => CategoryId::EditorRhyme,
        SettingKey::RhymeStopAtBlankLine => CategoryId::EditorRhyme,
        SettingKey::ShowRhymeLegend => CategoryId::EditorRhyme,
        SettingKey::RhymeHoverEmphasis => CategoryId::EditorRhyme,
        SettingKey::RhymeLineWindow => CategoryId::EditorRhyme,
        SettingKey::RhymeHueCount => CategoryId::EditorRhyme,
        SettingKey::RhymeDebounceMs => CategoryId::EditorRhyme,
        SettingKey::RhymeMergeThreshold => CategoryId::EditorRhyme,
        SettingKey::RhymeAnchor => CategoryId::EditorRhyme,
        SettingKey::RhymeExtend => CategoryId::EditorRhyme,
        SettingKey::RhymeJump => CategoryId::EditorRhyme,
        SettingKey::WordCompletion => CategoryId::EditorCompletion,
        SettingKey::CompletionMinPrefix => CategoryId::EditorCompletion,
        SettingKey::CompletionMaxSuggestions => CategoryId::EditorCompletion,
        SettingKey::AutoIndent => CategoryId::EditorGeneral,
        SettingKey::InsertSpaces => CategoryId::EditorGeneral,
        SettingKey::TabWidth => CategoryId::EditorGeneral,
        SettingKey::AutosaveDebounceMs => CategoryId::EditorGeneral,
        SettingKey::GitAutostage => CategoryId::VersionControlGit,
        SettingKey::GitRemoteName => CategoryId::VersionControlGit,
        SettingKey::GitDefaultCommitMessage => CategoryId::VersionControlGit,
        SettingKey::GitSignatureFallback => CategoryId::VersionControlGit,
        SettingKey::NotesCacheScope => CategoryId::ToolsNetwork,
        SettingKey::AppleNotesRefreshSecs => CategoryId::ToolsNetwork,
        SettingKey::RhymeLookupTimeoutSecs => CategoryId::ToolsNetwork,
        SettingKey::Theme => CategoryId::Appearance,
        SettingKey::IconTheme => CategoryId::Appearance,
        SettingKey::FontFamily => CategoryId::Appearance,
        SettingKey::FontSize => CategoryId::Appearance,
        SettingKey::UiFontSize => CategoryId::Appearance,
        SettingKey::CornerRadius => CategoryId::Appearance,
        SettingKey::AnimationsEnabled => CategoryId::Appearance,
    }
}

pub open spec fn spec_live(k: SettingKey) -> LiveApply {
    match k {
        SettingKey::ShowSyllableGutter => LiveApply::Editor,
        SettingKey::ShowVcsGutter => LiveApply::Editor,
        SettingKey::ShowLineNumbers => LiveApply::Editor,
        SettingKey::HighlightCurrentLine => LiveApply::Editor,
        SettingKey::LineSpacingPx => LiveApply::Editor,
        SettingKey::WrapLines => LiveApply::Editor,
        SettingKey::ShowWhitespace => LiveApply::Editor,
        SettingKey::HighlightBrackets => LiveApply::Editor,
        SettingKey::StickyScroll => LiveApply::Editor,
        SettingKey::ShowRightMargin => LiveApply::Editor,
        SettingKey::RightMarginColumn => LiveApply::Editor,
        SettingKey::RhymeHighlighting => LiveApply::Editor,
        SettingKey::RhymeStopAtBlankLine => LiveApply::Editor,
        SettingKey::ShowRhymeLegend => LiveApply::Editor,
        SettingKey::RhymeHoverEmphasis => LiveApply::Editor,
        SettingKey::RhymeLineWindow => LiveApply::Editor,
        SettingKey::RhymeHueCount => LiveApply::Editor,
        SettingKey::RhymeDebounceMs => LiveApply::Editor,
        SettingKey::RhymeMergeThreshold => LiveApply::Editor,
        SettingKey::RhymeAnchor => LiveApply::Editor,
        SettingKey::RhymeExtend => LiveApply::Editor,
        SettingKey::RhymeJump => LiveApply::Editor,
        SettingKey::WordCompletion => LiveApply::Editor,
        SettingKey::CompletionMinPrefix => LiveApply::Editor,
        SettingKey::CompletionMaxSuggestions => LiveApply::Editor,
        SettingKey::AutoIndent => LiveApply::Editor,
        SettingKey::InsertSpaces => LiveApply::Editor,
        SettingKey::TabWidth => LiveApply::Editor,
        SettingKey::AutosaveDebounceMs => LiveApply::Editor,
        SettingKey::GitAutostage => LiveApply::Other,
        SettingKey::GitRemoteName => LiveApply::Other,
        SettingKey::GitDefaultCommitMessage => LiveApply::Other,
        SettingKey::GitSignatureFallback => LiveApply::Other,
        SettingKey::NotesCacheScope => LiveApply::Other,
        SettingKey::AppleNotesRefreshSecs => LiveApply::Other,
        SettingKey::RhymeLookupTimeoutSecs => LiveApply::Other,
        SettingKey::Theme => LiveApply::EditorAndCss,
        SettingKey::IconTheme => LiveApply::Other,
        SettingKey::FontFamily => LiveApply::Css,
        SettingKey::FontSize => LiveApply::Css,
        SettingKey::UiFontSize => LiveApply::Css,
        SettingKey::CornerRadius => LiveApply::Css,
        SettingKey::AnimationsEnabled => LiveApply::Css,
    }
}

impl SettingKey {
    /// The key's name in the file.
    pub fn name(self) -> (r: &'static str)
        ensures
            r@ == spec_key_name(self),
    {
        match self {
            SettingKey::ShowSyllableGutter => "show_syllable_gutter",
            SettingKey::ShowVcsGutter => "show_vcs_gutter",
            SettingKey::ShowLineNumbers => "show_line_numbers",
            SettingKey::HighlightCurrentLine => "highlight_current_line",
            SettingKey::LineSpacingPx => "line_spacing_px",
            SettingKey::WrapLines => "wrap_lines",
            SettingKey::ShowWhitespace => "show_whitespace",
            SettingKey::HighlightBrackets => "highlight_brackets",
            SettingKey::StickyScroll => "sticky_scroll",
            SettingKey::ShowRightMargin => "show_right_margin",
            SettingKey::RightMarginColumn => "right_margin_column",
            SettingKey::RhymeHighlighting => "rhyme_highlighting",
            SettingKey::RhymeStopAtBlankLine => "rhyme_stop_at_blank_line",
            SettingKey::ShowRhymeLegend => "show_rhyme_legend",
            SettingKey::RhymeHoverEmphasis => "rhyme_hover_emphasis",
            SettingKey::RhymeLineWindow => "rhyme_line_window",
            SettingKey::RhymeHueCount => "rhyme_hue_count",
            SettingKey::RhymeDebounceMs => "rhyme_debounce_ms",
            SettingKey::RhymeMergeThreshold => "rhyme_merge_threshold",
            SettingKey::RhymeAnchor => "rhyme_anchor",
            SettingKey::RhymeExtend => "rhyme_extend",
            SettingKey::RhymeJump => "rhyme_jump",
            SettingKey::WordCompletion => "word_completion",
            SettingKey::CompletionMinPrefix => "completion_min_prefix",
            SettingKey::CompletionMaxSuggestions => "completion_max_suggestions",
            SettingKey::AutoIndent => "auto_indent",
            SettingKey::InsertSpaces => "insert_spaces",
            SettingKey::TabWidth => "tab_width",
            SettingKey::AutosaveDebounceMs => "autosave_debounce_ms",
            SettingKey::GitAutostage => "git_autostage",
            SettingKey::GitRemoteName => "git_remote_name",
            SettingKey::GitDefaultCommitMessage => "git_default_commit_message",
            SettingKey::GitSignatureFallback => "git_signature_fallback",
            SettingKey::NotesCacheScope => "notes_cache_scope",
            SettingKey::AppleNotesRefreshSecs => "apple_notes_refresh_secs",
            SettingKey::RhymeLookupTimeoutSecs => "rhyme_lookup_timeout_secs",
            SettingKey::Theme => "theme",
            SettingKey::IconTheme => "icon_theme",
            SettingKey::FontFamily => "font_family",
            SettingKey::FontSize => "font_size",
            SettingKey::UiFontSize => "ui_font_size",
            SettingKey::CornerRadius => "corner_radius",
            SettingKey::AnimationsEnabled => "animations_enabled",
        }
    }

    /// The setting a file key names.
    pub fn from_name(s: &[char]) -> (r: Option<SettingKey>)
        ensures
            r == spec_key_from_name(s@),
    {
        if eq_str(s, "show_syllable_gutter") {
            proof {
                lemma_from_name(SettingKey::ShowSyllableGutter);
            }
            Some(SettingKey::ShowSyllableGutter)
        }
        else if eq_str(s, "show_vcs_gutter") {
            proof {
                lemma_from_name(SettingKey::ShowVcsGutter);
            }
            Some(SettingKey::ShowVcsGutter)
        }
        else if eq_str(s, "show_line_numbers") {
            proof {
                lemma_from_name(SettingKey::ShowLineNumbers);
            }
            Some(SettingKey::ShowLineNumbers)
        }
        else if eq_str(s, "highlight_current_line") {
            proof {
                lemma_from_name(SettingKey::HighlightCurrentLine);
            }
            Some(SettingKey::HighlightCurrentLine)
        }
        else if eq_str(s, "line_spacing_px") {
            proof {
                lemma_from_name(SettingKey::LineSpacingPx);
            }
            Some(SettingKey::LineSpacingPx)
        }
        else if eq_str(s, "wrap_lines") {
            proof {
                lemma_from_name(SettingKey::WrapLines);
            }
            Some(SettingKey::WrapLines)
        }
        else if eq_str(s, "show_whitespace") {
            proof {
                lemma_from_name(SettingKey::ShowWhitespace);
            }
            Some(SettingKey::ShowWhitespace)
        }
        else if eq_str(s, "highlight_brackets") {
            proof {
                lemma_from_name(SettingKey::HighlightBrackets);
            }
            Some(SettingKey::HighlightBrackets)
        }
        else if eq_str(s, "sticky_scroll") {
            proof {
                lemma_from_name(SettingKey::StickyScroll);
            }
            Some(SettingKey::StickyScroll)
        }
        else if eq_str(s, "show_right_margin") {
            proof {
                lemma_from_name(SettingKey::ShowRightMargin);
            }
            Some(SettingKey::ShowRightMargin)
        }
        else if eq_str(s, "right_margin_column") {
            proof {
                lemma_from_name(SettingKey::RightMarginColumn);
            }
            Some(SettingKey::RightMarginColumn)
        }
        else if eq_str(s, "rhyme_highlighting") {
            proof {
                lemma_from_name(SettingKey::RhymeHighlighting);
            }
            Some(SettingKey::RhymeHighlighting)
        }
        else if eq_str(s, "rhyme_stop_at_blank_line") {
            proof {
                lemma_from_name(SettingKey::RhymeStopAtBlankLine);
            }
            Some(SettingKey::RhymeStopAtBlankLine)
        }
        else if eq_str(s, "show_rhyme_legend") {
            proof {
                lemma_from_name(SettingKey::ShowRhymeLegend);
            }
            Some(SettingKey::ShowRhymeLegend)
        }
        else if eq_str(s, "rhyme_hover_emphasis") {
            proof {
                lemma_from_name(SettingKey::RhymeHoverEmphasis);
            }
            Some(SettingKey::RhymeHoverEmphasis)
        }
        else if eq_str(s, "rhyme_line_window") {
            proof {
                lemma_from_name(SettingKey::RhymeLineWindow);
            }
            Some(SettingKey::RhymeLineWindow)
        }
        else if eq_str(s, "rhyme_hue_count") {
            proof {
                lemma_from_name(SettingKey::RhymeHueCount);
            }
            Some(SettingKey::RhymeHueCount)
        }
        else if eq_str(s, "rhyme_debounce_ms") {
            proof {
                lemma_from_name(SettingKey::RhymeDebounceMs);
            }
            Some(SettingKey::RhymeDebounceMs)
        }
        else if eq_str(s, "rhyme_merge_threshold") {
            proof {
                lemma_from_name(SettingKey::RhymeMergeThreshold);
            }
            Some(SettingKey::RhymeMergeThreshold)
        }
        else if eq_str(s, "rhyme_anchor") {
            proof {
                lemma_from_name(SettingKey::RhymeAnchor);
            }
            Some(SettingKey::RhymeAnchor)
        }
        else if eq_str(s, "rhyme_extend") {
            proof {
                lemma_from_name(SettingKey::RhymeExtend);
            }
            Some(SettingKey::RhymeExtend)
        }
        else if eq_str(s, "rhyme_jump") {
            proof {
                lemma_from_name(SettingKey::RhymeJump);
            }
            Some(SettingKey::RhymeJump)
        }
        else if eq_str(s, "word_completion") {
            proof {
                lemma_from_name(SettingKey::WordCompletion);
            }
            Some(SettingKey::WordCompletion)
        }
        else if eq_str(s, "completion_min_prefix") {
            proof {
                lemma_from_name(SettingKey::CompletionMinPrefix);
            }
            Some(SettingKey::CompletionMinPrefix)
        }
        else if eq_str(s, "completion_max_suggestions") {
            proof {
                lemma_from_name(SettingKey::CompletionMaxSuggestions);
            }
            Some(SettingKey::CompletionMaxSuggestions)
        }
        else if eq_str(s, "auto_indent") {
            proof {
                lemma_from_name(SettingKey::AutoIndent);
            }
            Some(SettingKey::AutoIndent)
        }
        else if eq_str(s, "insert_spaces") {
            proof {
                lemma_from_name(SettingKey::InsertSpaces);
            }
            Some(SettingKey::InsertSpaces)
        }
        else if eq_str(s, "tab_width") {
            proof {
                lemma_from_name(SettingKey::TabWidth);
            }
            Some(SettingKey::TabWidth)
        }
        else if eq_str(s, "autosave_debounce_ms") {
            proof {
                lemma_from_name(SettingKey::AutosaveDebounceMs);
            }
            Some(SettingKey::AutosaveDebounceMs)
        }
        else if eq_str(s, "git_autostage") {
            proof {
                lemma_from_name(SettingKey::GitAutostage);
            }
            Some(SettingKey::GitAutostage)
        }
        else if eq_str(s, "git_remote_name") {
            proof {
                lemma_from_name(SettingKey::GitRemoteName);
            }
            Some(SettingKey::GitRemoteName)
        }
        else if eq_str(s, "git_default_commit_message") {
            proof {
                lemma_from_name(SettingKey::GitDefaultCommitMessage);
            }
            Some(SettingKey::GitDefaultCommitMessage)
        }
        else if eq_str(s, "git_signature_fallback") {
            proof {
                lemma_from_name(SettingKey::GitSignatureFallback);
            }
            Some(SettingKey::GitSignatureFallback)
        }
        else if eq_str(s, "notes_cache_scope") {
            proof {
                lemma_from_name(SettingKey::NotesCacheScope);
            }
            Some(SettingKey::NotesCacheScope)
        }
        else if eq_str(s, "apple_notes_refresh_secs") {
            proof {
                lemma_from_name(SettingKey::AppleNotesRefreshSecs);
            }
            Some(SettingKey::AppleNotesRefreshSecs)
        }
        else if eq_str(s, "rhyme_lookup_timeout_secs") {
            proof {
                lemma_from_name(SettingKey::RhymeLookupTimeoutSecs);
            }
            Some(SettingKey::RhymeLookupTimeoutSecs)
        }
        else if eq_str(s, "theme") {
            proof {
                lemma_from_name(SettingKey::Theme);
            }
            Some(SettingKey::Theme)
        }
        else if eq_str(s, "icon_theme") {
            proof {
                lemma_from_name(SettingKey::IconTheme);
            }
            Some(SettingKey::IconTheme)
        }
        else if eq_str(s, "font_family") {
            proof {
                lemma_from_name(SettingKey::FontFamily);
            }
            Some(SettingKey::FontFamily)
        }
        else if eq_str(s, "font_size") {
            proof {
                lemma_from_name(SettingKey::FontSize);
            }
            Some(SettingKey::FontSize)
        }
        else if eq_str(s, "ui_font_size") {
            proof {
                lemma_from_name(SettingKey::UiFontSize);
            }
            Some(SettingKey::UiFontSize)
        }
        else if eq_str(s, "corner_radius") {
            proof {
                lemma_from_name(SettingKey::CornerRadius);
            }
            Some(SettingKey::CornerRadius)
        }
        else if eq_str(s, "animations_enabled") {
            proof {
                lemma_from_name(SettingKey::AnimationsEnabled);
            }
            Some(SettingKey::AnimationsEnabled)
        }
        else {
            assert forall|k: SettingKey| #[trigger] spec_key_name(k) != s@ by {}
            None
        }
    }

    /// The setting's value type and validation domain.
    pub fn kind(self) -> (r: SettingKind)
        ensures
            kind_view(r) == spec_kind(self),
            kind_well_formed(r),
    {
        reveal(spec_kind);
        match self {
            SettingKey::ShowSyllableGutter => SettingKind::Bool,
            SettingKey::ShowVcsGutter => SettingKind::Bool,
            SettingKey::ShowLineNumbers => SettingKind::Bool,
            SettingKey::HighlightCurrentLine => SettingKind::Bool,
            SettingKey::LineSpacingPx => SettingKind::Int { min: 0, max: 8, step: 1 },
            SettingKey::WrapLines => SettingKind::Bool,
            SettingKey::ShowWhitespace => SettingKind::Bool,
            SettingKey::HighlightBrackets => SettingKind::Bool,
            SettingKey::StickyScroll => SettingKind::Bool,
            SettingKey::ShowRightMargin => SettingKind::Bool,
            SettingKey::RightMarginColumn => SettingKind::Int { min: 20, max: 200, step: 1 },
            SettingKey::RhymeHighlighting => SettingKind::Bool,
            SettingKey::RhymeStopAtBlankLine => SettingKind::Bool,
            SettingKey::ShowRhymeLegend => SettingKind::Bool,
            SettingKey::RhymeHoverEmphasis => SettingKind::Bool,
            SettingKey::RhymeLineWindow => SettingKind::Int { min: 1, max: 8, step: 1 },
            SettingKey::RhymeHueCount => SettingKind::Int { min: 6, max: 24, step: 1 },
            SettingKey::RhymeDebounceMs => SettingKind::Int { min: 100, max: 2000, step: 50 },
            SettingKey::RhymeMergeThreshold => SettingKind::Float { min: "1.0", max: "6.0", step: "0.05" },
            SettingKey::RhymeAnchor => SettingKind::Float { min: "0.0", max: "5.0", step: "0.1" },
            SettingKey::RhymeExtend => SettingKind::Float { min: "0.0", max: "5.0", step: "0.1" },
            SettingKey::RhymeJump => SettingKind::Float { min: "0.0", max: "5.0", step: "0.1" },
            SettingKey::WordCompletion => SettingKind::Bool,
            SettingKey::CompletionMinPrefix => SettingKind::Int { min: 1, max: 6, step: 1 },
            SettingKey::CompletionMaxSuggestions => SettingKind::Int { min: 10, max: 500, step: 10 },
            SettingKey::AutoIndent => SettingKind::Bool,
            SettingKey::InsertSpaces => SettingKind::Bool,
            SettingKey::TabWidth => SettingKind::Int { min: 1, max: 8, step: 1 },
            SettingKey::AutosaveDebounceMs => SettingKind::Int { min: 100, max: 5000, step: 50 },
            SettingKey::GitAutostage => SettingKind::Bool,
            SettingKey::GitRemoteName => SettingKind::Text,
            SettingKey::GitDefaultCommitMessage => SettingKind::Text,
            SettingKey::GitSignatureFallback => SettingKind::Text,
            SettingKey::NotesCacheScope => {
                let values: &'static [&'static str] = &["workspace", "user"];
                assert(values@.len() == 2);
                assert(values@[0]@ == "workspace"@);
                assert(token_list(values) =~= seq!["workspace"@, "user"@]);
                SettingKind::Enum { values, labels: &["This workspace", "All workspaces"] }
            },
            SettingKey::AppleNotesRefreshSecs => SettingKind::Int { min: 30, max: 3600, step: 30 },
            SettingKey::RhymeLookupTimeoutSecs => SettingKind::Int { min: 2, max: 60, step: 1 },
            SettingKey::Theme => {
                let values: &'static [&'static str] = &["dark", "light"];
                assert(values@.len() == 2);
                assert(values@[0]@ == "dark"@);
                assert(token_list(values) =~= seq!["dark"@, "light"@]);
                SettingKind::Enum { values, labels: &["Dark", "Light"] }
            },
            SettingKey::IconTheme => {
                let values: &'static [&'static str] = &["color", "monochrome"];
                assert(values@.len() == 2);
                assert(values@[0]@ == "color"@);
                assert(token_list(values) =~= seq!["color"@, "monochrome"@]);
                SettingKind::Enum { values, labels: &["Color", "Monochrome"] }
            },
            SettingKey::FontFamily => SettingKind::Font,
            SettingKey::FontSize => SettingKind::FontSize { min: 6, max: 96 },
            SettingKey::UiFontSize => SettingKind::Int { min: 8, max: 24, step: 1 },
            SettingKey::CornerRadius => SettingKind::Int { min: 0, max: 12, step: 1 },
            SettingKey::AnimationsEnabled => SettingKind::Bool,
        }
    }

    fn is_choice(self) -> (r: bool)
        ensures
            r == (field_class(self) is Scope || field_class(self) is Theme || field_class(self) is IconTheme),
    {
        match self {
            SettingKey::ShowSyllableGutter => false,
            SettingKey::ShowVcsGutter => false,
            SettingKey::ShowLineNumbers => false,
            SettingKey::HighlightCurrentLine => false,
            SettingKey::LineSpacingPx => false,
            SettingKey::WrapLines => false,
            SettingKey::ShowWhitespace => false,
            SettingKey::HighlightBrackets => false,
            SettingKey::StickyScroll => false,
            SettingKey::ShowRightMargin => false,
            SettingKey::RightMarginColumn => false,
            SettingKey::RhymeHighlighting => false,
            SettingKey::RhymeStopAtBlankLine => false,
            SettingKey::ShowRhymeLegend => false,
            SettingKey::RhymeHoverEmphasis => false,
            SettingKey::RhymeLineWindow => false,
            SettingKey::RhymeHueCount => false,
            SettingKey::RhymeDebounceMs => false,
            SettingKey::RhymeMergeThreshold => false,
            SettingKey::RhymeAnchor => false,
            SettingKey::RhymeExtend => false,
            SettingKey::RhymeJump => false,
            SettingKey::WordCompletion => false,
            SettingKey::CompletionMinPrefix => false,
            SettingKey::CompletionMaxSuggestions => false,
            SettingKey::AutoIndent => false,
            SettingKey::InsertSpaces => false,
            SettingKey::TabWidth => false,
            SettingKey::AutosaveDebounceMs => false,
            SettingKey::GitAutostage => false,
            SettingKey::GitRemoteName => false,
            SettingKey::GitDefaultCommitMessage => false,
            SettingKey::GitSignatureFallback => false,
            SettingKey::NotesCacheScope => true,
            SettingKey::AppleNotesRefreshSecs => false,
            SettingKey::RhymeLookupTimeoutSecs => false,
            SettingKey::Theme => true,
            SettingKey::IconTheme => true,
            SettingKey::FontFamily => false,
            SettingKey::FontSize => false,
            SettingKey::UiFontSize => false,
            SettingKey::CornerRadius => false,
            SettingKey::AnimationsEnabled => false,
        }
    }

    /// The setting's full declaration.
    pub fn spec(self) -> (r: SettingSpec)
        ensures
            r.key@ == spec_key_name(self),
            kind_view(r.kind) == spec_kind(self),
            kind_well_formed(r.kind),
            r.category == spec_category(self),
            r.live == spec_live(self),
            r.label@ == spec_setting_label(self),
            r.group@ == spec_setting_group(self),
            r.description@ == spec_setting_description(self),
    {
        reveal(spec_kind);
        let (group, label, description): (&'static str, &'static str, &'static str) = match self {
            SettingKey::ShowSyllableGutter => ("Gutter", "Show syllable count in the gutter", ""),
            SettingKey::ShowVcsGutter => ("Gutter", "Show VCS change markers in the gutter", ""),
            SettingKey::ShowLineNumbers => ("Gutter", "Show line numbers", ""),
            SettingKey::HighlightCurrentLine => ("View", "Highlight the current line", ""),
            SettingKey::LineSpacingPx => ("View", "Extra space between lines (px)", ""),
            SettingKey::WrapLines => ("View", "Wrap long lines to the editor width", ""),
            SettingKey::ShowWhitespace => ("View", "Show spaces and tabs", ""),
            SettingKey::HighlightBrackets => ("View", "Highlight matching brackets", ""),
            SettingKey::StickyScroll => ("View", "Pin the current stanza's first line to the top", ""),
            SettingKey::ShowRightMargin => ("Right margin", "Show a right-margin guide", ""),
            SettingKey::RightMarginColumn => ("Right margin", "Right-margin column", ""),
            SettingKey::RhymeHighlighting => ("", "Highlight rhyming syllables", "Colors the text of syllables that rhyme with another word elsewhere in the document."),
            SettingKey::RhymeStopAtBlankLine => ("", "Don't match rhymes across a blank line", ""),
            SettingKey::ShowRhymeLegend => ("", "Show the rhyme-group legend under the editor", ""),
            SettingKey::RhymeHoverEmphasis => ("", "Hover a word to emphasise its rhyme group", ""),
            SettingKey::RhymeLineWindow => ("Engine", "Lines of look-back", ""),
            SettingKey::RhymeHueCount => ("Engine", "Distinct group colours before the palette repeats", ""),
            SettingKey::RhymeDebounceMs => ("Engine", "Recompute delay after the last keystroke (ms)", ""),
            SettingKey::RhymeMergeThreshold => ("Engine", "Merge threshold", "Minimum length-normalised score for two syllables to join the same colour group. Higher = fewer, stricter groups."),
            SettingKey::RhymeAnchor => ("Engine", "Anchor threshold", ""),
            SettingKey::RhymeExtend => ("Engine", "Extend threshold", ""),
            SettingKey::RhymeJump => ("Engine", "Jump threshold", "Anchor-and-extend detection tunables from Hirjee & Brown. Defaults suit most lyrics; changing them alters how aggressively near-rhymes are detected."),
            SettingKey::WordCompletion => ("", "Enable dictionary word completion", "Suggests words from the bundled dictionary as you type. Tab or Enter accepts a suggestion."),
            SettingKey::CompletionMinPrefix => ("", "Characters typed before suggesting", ""),
            SettingKey::CompletionMaxSuggestions => ("", "Maximum suggestions shown", ""),
            SettingKey::AutoIndent => ("Indentation", "Auto-indent new lines", ""),
            SettingKey::InsertSpaces => ("Indentation", "Insert spaces instead of tabs", ""),
            SettingKey::TabWidth => ("Indentation", "Tab width", ""),
            SettingKey::AutosaveDebounceMs => ("Saving", "Autosave delay after the last keystroke (ms)", ""),
            SettingKey::GitAutostage => ("", "Automatically stage changes when saving", ""),
            SettingKey::GitRemoteName => ("Remote", "Remote name", ""),
            SettingKey::GitDefaultCommitMessage => ("Commits", "Default commit message", "Used when the commit dialog's message box is left empty."),
            SettingKey::GitSignatureFallback => ("Commits", "Fallback author", "\"Name <email>\" used to sign a commit when git has no user.name / user.email configured."),
            SettingKey::NotesCacheScope => ("", "Apple Notes cache", "Where the Apple Notes snapshot is stored. \"All workspaces\" keeps one shared copy under your user config dir instead of per-project .rhymr/."),
            SettingKey::AppleNotesRefreshSecs => ("", "Apple Notes refresh interval (s)", "How often the Apple Notes tree re-reads from the Notes app."),
            SettingKey::RhymeLookupTimeoutSecs => ("", "Rhyme lookup timeout (s)", "How long one Rhyme Search lookup may take before the panel reports an error."),
            SettingKey::Theme => ("", "Theme", ""),
            SettingKey::IconTheme => ("", "Icons", ""),
            SettingKey::FontFamily => ("", "Editor font", ""),
            SettingKey::FontSize => ("", "Editor font size", ""),
            SettingKey::UiFontSize => ("", "Interface font size (px)", ""),
            SettingKey::CornerRadius => ("", "Corner radius (px)", ""),
            SettingKey::AnimationsEnabled => ("", "Animate transitions", ""),
        };
        let category = match self {
            SettingKey::ShowSyllableGutter => CategoryId::EditorGeneral,
            SettingKey::ShowVcsGutter => CategoryId::EditorGeneral,
            SettingKey::ShowLineNumbers => CategoryId::EditorGeneral,
            SettingKey::HighlightCurrentLine => CategoryId::EditorGeneral,
            SettingKey::LineSpacingPx => CategoryId::EditorGeneral,
            SettingKey::WrapLines => CategoryId::EditorGeneral,
            SettingKey::ShowWhitespace => CategoryId::EditorGeneral,
            SettingKey::HighlightBrackets => CategoryId::EditorGeneral,
            SettingKey::StickyScroll => CategoryId::EditorGeneral,
            SettingKey::ShowRightMargin => CategoryId::EditorGeneral,
            SettingKey::RightMarginColumn => CategoryId::EditorGeneral,
            SettingKey::RhymeHighlighting => CategoryId::EditorRhyme,
            SettingKey::RhymeStopAtBlankLine => CategoryId::EditorRhyme,
            SettingKey::ShowRhymeLegend => CategoryId::EditorRhyme,
            SettingKey::RhymeHoverEmphasis => CategoryId::EditorRhyme,
            SettingKey::RhymeLineWindow => CategoryId::EditorRhyme,
            SettingKey::RhymeHueCount => CategoryId::EditorRhyme,
            SettingKey::RhymeDebounceMs => CategoryId::EditorRhyme,
            SettingKey::RhymeMergeThreshold => CategoryId::EditorRhyme,
            SettingKey::RhymeAnchor => CategoryId::EditorRhyme,
            SettingKey::RhymeExtend => CategoryId::EditorRhyme,
            SettingKey::RhymeJump => CategoryId::EditorRhyme,
            SettingKey::WordCompletion => CategoryId::EditorCompletion,
            SettingKey::CompletionMinPrefix => CategoryId::EditorCompletion,
            SettingKey::CompletionMaxSuggestions => CategoryId::EditorCompletion,
            SettingKey::AutoIndent => CategoryId::EditorGeneral,
            SettingKey::InsertSpaces => CategoryId::EditorGeneral,
            SettingKey::TabWidth => CategoryId::EditorGeneral,
            SettingKey::AutosaveDebounceMs => CategoryId::EditorGeneral,
            SettingKey::GitAutostage => CategoryId::VersionControlGit,
            SettingKey::GitRemoteName => CategoryId::VersionControlGit,
            SettingKey::GitDefaultCommitMessage => CategoryId::VersionControlGit,
            SettingKey::GitSignatureFallback => CategoryId::VersionControlGit,
            SettingKey::NotesCacheScope => CategoryId::ToolsNetwork,
            SettingKey::AppleNotesRefreshSecs => CategoryId::ToolsNetwork,
            SettingKey::RhymeLookupTimeoutSecs => CategoryId::ToolsNetwork,
            SettingKey::Theme => CategoryId::Appearance,
            SettingKey::IconTheme => CategoryId::Appearance,
            SettingKey::FontFamily => CategoryId::Appearance,
            SettingKey::FontSize => CategoryId::Appearance,
            SettingKey::UiFontSize => CategoryId::Appearance,
            SettingKey::CornerRadius => CategoryId::Appearance,
            SettingKey::AnimationsEnabled => CategoryId::Appearance,
        };
        let live = match self {
            SettingKey::ShowSyllableGutter => LiveApply::Editor,
            SettingKey::ShowVcsGutter => LiveApply::Editor,
            SettingKey::ShowLineNumbers => LiveApply::Editor,
            SettingKey::HighlightCurrentLine => LiveApply::Editor,
            SettingKey::LineSpacingPx => LiveApply::Editor,
            SettingKey::WrapLines => LiveApply::Editor,
            SettingKey::ShowWhitespace => LiveApply::Editor,
            SettingKey::HighlightBrackets => LiveApply::Editor,
            SettingKey::StickyScroll => LiveApply::Editor,
            SettingKey::ShowRightMargin => LiveApply::Editor,
            SettingKey::RightMarginColumn => LiveApply::Editor,
            SettingKey::RhymeHighlighting => LiveApply::Editor,
            SettingKey::RhymeStopAtBlankLine => LiveApply::Editor,
            SettingKey::ShowRhymeLegend => LiveApply::Editor,
            SettingKey::RhymeHoverEmphasis => LiveApply::Editor,
            SettingKey::RhymeLineWindow => LiveApply::Editor,
            SettingKey::RhymeHueCount => LiveApply::Editor,
            SettingKey::RhymeDebounceMs => LiveApply::Editor,
            SettingKey::RhymeMergeThreshold => LiveApply::Editor,
            SettingKey::RhymeAnchor => LiveApply::Editor,
            SettingKey::RhymeExtend => LiveApply::Editor,
            SettingKey::RhymeJump => LiveApply::Editor,
            SettingKey::WordCompletion => LiveApply::Editor,
            SettingKey::CompletionMinPrefix => LiveApply::Editor,
            SettingKey::CompletionMaxSuggestions => LiveApply::Editor,
            SettingKey::AutoIndent => LiveApply::Editor,
            SettingKey::InsertSpaces => LiveApply::Editor,
            SettingKey::TabWidth => LiveApply::Editor,
            SettingKey::AutosaveDebounceMs => LiveApply::Editor,
            SettingKey::GitAutostage => LiveApply::Other,
            SettingKey::GitRemoteName => LiveApply::Other,
            SettingKey::GitDefaultCommitMessage => LiveApply::Other,
            SettingKey::GitSignatureFallback => LiveApply::Other,
            SettingKey::NotesCacheScope => LiveApply::Other,
            SettingKey::AppleNotesRefreshSecs => LiveApply::Other,
            SettingKey::RhymeLookupTimeoutSecs => LiveApply::Other,
            SettingKey::Theme => LiveApply::EditorAndCss,
            SettingKey::IconTheme => LiveApply::Other,
            SettingKey::FontFamily => LiveApply::Css,
            SettingKey::FontSize => LiveApply::Css,
            SettingKey::UiFontSize => LiveApply::Css,
            SettingKey::CornerRadius => LiveApply::Css,
            SettingKey::AnimationsEnabled => LiveApply::Css,
        };
        SettingSpec { key: self.name(), kind: self.kind(), category, group, label, description, live }
    }
}

/// Every setting, in registry order.
pub fn all_keys() -> (r: Vec<SettingKey>)
    ensures
        r@ == spec_all_keys(),
{
    let mut r: Vec<SettingKey> = Vec::new();
    r.push(SettingKey::ShowSyllableGutter);
    r.push(SettingKey::ShowVcsGutter);
    r.push(SettingKey::ShowLineNumbers);
    r.push(SettingKey::HighlightCurrentLine);
    r.push(SettingKey::LineSpacingPx);
    r.push(SettingKey::WrapLines);
    r.push(SettingKey::ShowWhitespace);
    r.push(SettingKey::HighlightBrackets);
    r.push(SettingKey::StickyScroll);
    r.push(SettingKey::ShowRightMargin);
    r.push(SettingKey::RightMarginColumn);
    r.push(SettingKey::RhymeHighlighting);
    r.push(SettingKey::RhymeStopAtBlankLine);
    r.push(SettingKey::ShowRhymeLegend);
    r.push(SettingKey::RhymeHoverEmphasis);
    r.push(SettingKey::RhymeLineWindow);
    r.push(SettingKey::RhymeHueCount);
    r.push(SettingKey::RhymeDebounceMs);
    r.push(SettingKey::RhymeMergeThreshold);
    r.push(SettingKey::RhymeAnchor);
    r.push(SettingKey::RhymeExtend);
    r.push(SettingKey::RhymeJump);
    r.push(SettingKey::WordCompletion);
    r.push(SettingKey::CompletionMinPrefix);
    r.push(SettingKey::CompletionMaxSuggestions);
    r.push(SettingKey::AutoIndent);
    r.push(SettingKey::InsertSpaces);
    r.push(SettingKey::TabWidth);
    r.push(SettingKey::AutosaveDebounceMs);
    r.push(SettingKey::GitAutostage);
    r.push(SettingKey::GitRemoteName);
    r.push(SettingKey::GitDefaultCommitMessage);
    r.push(SettingKey::GitSignatureFallback);
    r.push(SettingKey::NotesCacheScope);
    r.push(SettingKey::AppleNotesRefreshSecs);
    r.push(SettingKey::RhymeLookupTimeoutSecs);
    r.push(SettingKey::Theme);
    r.push(SettingKey::IconTheme);
    r.push(SettingKey::FontFamily);
    r.push(SettingKey::FontSize);
    r.push(SettingKey::UiFontSize);
    r.push(SettingKey::CornerRadius);
    r.push(SettingKey::AnimationsEnabled);
    assert(r@ =~= spec_all_keys());
    r
}

/// The registry lists every setting.
pub proof fn lemma_all_keys_contains(k: SettingKey)
    ensures
        spec_all_keys().contains(k),
{
    let keys = spec_all_keys();
    match k {
        SettingKey::ShowSyllableGutter => {
            assert(keys[0] == SettingKey::ShowSyllableGutter);
        },
        SettingKey::ShowVcsGutter => {
            assert(keys[1] == SettingKey::ShowVcsGutter);
        },
        SettingKey::ShowLineNumbers => {
            assert(keys[2] == SettingKey::ShowLineNumbers);
        },
        SettingKey::HighlightCurrentLine => {
            assert(keys[3] == SettingKey::HighlightCurrentLine);
        },
        SettingKey::LineSpacingPx => {
            assert(keys[4] == SettingKey::LineSpacingPx);
        },
        SettingKey::WrapLines => {
            assert(keys[5] == SettingKey::WrapLines);
        },
        SettingKey::ShowWhitespace => {
            assert(keys[6] == SettingKey::ShowWhitespace);
        },
        SettingKey::HighlightBrackets => {
            assert(keys[7] == SettingKey::HighlightBrackets);
        },
        SettingKey::StickyScroll => {
            assert(keys[8] == SettingKey::StickyScroll);
        },
        SettingKey::ShowRightMargin => {
            assert(keys[9] == SettingKey::ShowRightMargin);
        },
        SettingKey::RightMarginColumn => {
            assert(keys[10] == SettingKey::RightMarginColumn);
        },
        SettingKey::RhymeHighlighting => {
            assert(keys[11] == SettingKey::RhymeHighlighting);
        },
        SettingKey::RhymeStopAtBlankLine => {
            assert(keys[12] == SettingKey::RhymeStopAtBlankLine);
        },
        SettingKey::ShowRhymeLegend => {
            assert(keys[13] == SettingKey::ShowRhymeLegend);
        },
        SettingKey::RhymeHoverEmphasis => {
            assert(keys[14] == SettingKey::RhymeHoverEmphasis);
        },
        SettingKey::RhymeLineWindow => {
            assert(keys[15] == SettingKey::RhymeLineWindow);
        },
        SettingKey::RhymeHueCount => {
            assert(keys[16] == SettingKey::RhymeHueCount);
        },
        SettingKey::RhymeDebounceMs => {
            assert(keys[17] == SettingKey::RhymeDebounceMs);
        },
        SettingKey::RhymeMergeThreshold => {
            assert(keys[18] == SettingKey::RhymeMergeThreshold);
        },
        SettingKey::RhymeAnchor => {
            assert(keys[19] == SettingKey::RhymeAnchor);
        },
        SettingKey::RhymeExtend => {
            assert(keys[20] == SettingKey::RhymeExtend);
        },
        SettingKey::RhymeJump => {
            assert(keys[21] == SettingKey::RhymeJump);
        },
        SettingKey::WordCompletion => {
            assert(keys[22] == SettingKey::WordCompletion);
        },
        SettingKey::CompletionMinPrefix => {
            assert(keys[23] == SettingKey::CompletionMinPrefix);
        },
        SettingKey::CompletionMaxSuggestions => {
            assert(keys[24] == SettingKey::CompletionMaxSuggestions);
        },
        SettingKey::AutoIndent => {
            assert(keys[25] == SettingKey::AutoIndent);
        },
        SettingKey::InsertSpaces => {
            assert(keys[26] == SettingKey::InsertSpaces);
        },
        SettingKey::TabWidth => {
            assert(keys[27] == SettingKey::TabWidth);
        },
        SettingKey::AutosaveDebounceMs => {
            assert(keys[28] == SettingKey::AutosaveDebounceMs);
        },
        SettingKey::GitAutostage => {
            assert(keys[29] == SettingKey::GitAutostage);
        },
        SettingKey::GitRemoteName => {
            assert(keys[30] == SettingKey::GitRemoteName);
        },
        SettingKey::GitDefaultCommitMessage => {
            assert(keys[31] == SettingKey::GitDefaultCommitMessage);
        },
        SettingKey::GitSignatureFallback => {
            assert(keys[32] == SettingKey::GitSignatureFallback);
        },
        SettingKey::NotesCacheScope => {
            assert(keys[33] == SettingKey::NotesCacheScope);
        },
        SettingKey::AppleNotesRefreshSecs => {
            assert(keys[34] == SettingKey::AppleNotesRefreshSecs);
        },
        SettingKey::RhymeLookupTimeoutSecs => {
            assert(keys[35] == SettingKey::RhymeLookupTimeoutSecs);
        },
        SettingKey::Theme => {
            assert(keys[36] == SettingKey::Theme);
        },
        SettingKey::IconTheme => {
            assert(keys[37] == SettingKey::IconTheme);
        },
        SettingKey::FontFamily => {
            assert(keys[38] == SettingKey::FontFamily);
        },
        SettingKey::FontSize => {
            assert(keys[39] == SettingKey::FontSize);
        },
        SettingKey::UiFontSize => {
            assert(keys[40] == SettingKey::UiFontSize);
        },
        SettingKey::CornerRadius => {
            assert(keys[41] == SettingKey::CornerRadius);
        },
        SettingKey::AnimationsEnabled => {
            assert(keys[42] == SettingKey::AnimationsEnabled);
        },
    }
}

impl Default for Settings {
    fn default() -> (s: Self)
        ensures
            s.wf(),
            forall|k: SettingKey| #[trigger] s@.values[k] == spec_default(k),
            s@.unknown == Map::<Seq<char>, Seq<char>>::empty(),
            s@.palette == Map::<Seq<char>, Seq<char>>::empty(),
    {
        let s = Settings {
            show_syllable_gutter: true,
            show_vcs_gutter: true,
            show_line_numbers: true,
            highlight_current_line: true,
            line_spacing_px: 1,
            wrap_lines: true,
            show_whitespace: false,
            highlight_brackets: false,
            sticky_scroll: true,
            show_right_margin: false,
            right_margin_column: 80,
            rhyme_highlighting: false,
            rhyme_stop_at_blank_line: true,
            show_rhyme_legend: true,
            rhyme_hover_emphasis: true,
            rhyme_line_window: 3,
            rhyme_hue_count: 24,
            rhyme_debounce_ms: 400,
            rhyme_merge_threshold: string_from(chars_of("3.25").as_slice()),
            rhyme_anchor: string_from(chars_of("1.5").as_slice()),
            rhyme_extend: string_from(chars_of("0").as_slice()),
            rhyme_jump: string_from(chars_of("2.5").as_slice()),
            word_completion: false,
            completion_min_prefix: 2,
            completion_max_suggestions: 100,
            auto_indent: true,
            insert_spaces: false,
            tab_width: 4,
            autosave_debounce_ms: 600,
            git_autostage: true,
            git_remote_name: string_from(chars_of("origin").as_slice()),
            git_default_commit_message: string_from(chars_of("Update").as_slice()),
            git_signature_fallback: string_from(chars_of("Pneuma <pneuma@local>").as_slice()),
            notes_cache_scope: NotesCacheScope::Workspace,
            apple_notes_refresh_secs: 300,
            rhyme_lookup_timeout_secs: 8,
            theme: Theme::Dark,
            icon_theme: IconTheme::Color,
            font_family: string_from(chars_of("JetBrains Mono").as_slice()),
            font_size: 13,
            ui_font_size: 13,
            corner_radius: 4,
            animations_enabled: true,
            palette_overrides: StrMap::new(),
            unknown: StrMap::new(),
        };
        assert(s.unknown_view() =~= Map::<Seq<char>, Seq<char>>::empty());
        assert(s.palette_view() =~= Map::<Seq<char>, Seq<char>>::empty());
        s
    }
}

impl Settings {
    /// The current value of setting `k`.
    pub fn get(&self, k: SettingKey) -> (r: SettingValue)
        ensures
            r@ == self@.values[k],
    {
        match k {
            SettingKey::ShowSyllableGutter => SettingValue::Bool(self.show_syllable_gutter),
            SettingKey::ShowVcsGutter => SettingValue::Bool(self.show_vcs_gutter),
            SettingKey::ShowLineNumbers => SettingValue::Bool(self.show_line_numbers),
            SettingKey::HighlightCurrentLine => SettingValue::Bool(self.highlight_current_line),
            SettingKey::LineSpacingPx => SettingValue::Int(self.line_spacing_px as i64),
            SettingKey::WrapLines => SettingValue::Bool(self.wrap_lines),
            SettingKey::ShowWhitespace => SettingValue::Bool(self.show_whitespace),
            SettingKey::HighlightBrackets => SettingValue::Bool(self.highlight_brackets),
            SettingKey::StickyScroll => SettingValue::Bool(self.sticky_scroll),
            SettingKey::ShowRightMargin => SettingValue::Bool(self.show_right_margin),
            SettingKey::RightMarginColumn => SettingValue::Int(self.right_margin_column as i64),
            SettingKey::RhymeHighlighting => SettingValue::Bool(self.rhyme_highlighting),
            SettingKey::RhymeStopAtBlankLine => SettingValue::Bool(self.rhyme_stop_at_blank_line),
            SettingKey::ShowRhymeLegend => SettingValue::Bool(self.show_rhyme_legend),
            SettingKey::RhymeHoverEmphasis => SettingValue::Bool(self.rhyme_hover_emphasis),
            SettingKey::RhymeLineWindow => SettingValue::Int(self.rhyme_line_window as i64),
            SettingKey::RhymeHueCount => SettingValue::Int(self.rhyme_hue_count as i64),
            SettingKey::RhymeDebounceMs => SettingValue::Int(self.rhyme_debounce_ms as i64),
            SettingKey::RhymeMergeThreshold => SettingValue::Float(self.rhyme_merge_threshold.clone()),
            SettingKey::RhymeAnchor => SettingValue::Float(self.rhyme_anchor.clone()),
            SettingKey::RhymeExtend => SettingValue::Float(self.rhyme_extend.clone()),
            SettingKey::RhymeJump => SettingValue::Float(self.rhyme_jump.clone()),
            SettingKey::WordCompletion => SettingValue::Bool(self.word_completion),
            SettingKey::CompletionMinPrefix => SettingValue::Int(self.completion_min_prefix as i64),
            SettingKey::CompletionMaxSuggestions => SettingValue::Int(self.completion_max_suggestions as i64),
            SettingKey::AutoIndent => SettingValue::Bool(self.auto_indent),
            SettingKey::InsertSpaces => SettingValue::Bool(self.insert_spaces),
            SettingKey::TabWidth => SettingValue::Int(self.tab_width as i64),
            SettingKey::AutosaveDebounceMs => SettingValue::Int(self.autosave_debounce_ms as i64),
            SettingKey::GitAutostage => SettingValue::Bool(self.git_autostage),
            SettingKey::GitRemoteName => SettingValue::Text(self.git_remote_name.clone()),
            SettingKey::GitDefaultCommitMessage => SettingValue::Text(self.git_default_commit_message.clone()),
            SettingKey::GitSignatureFallback => SettingValue::Text(self.git_signature_fallback.clone()),
            SettingKey::NotesCacheScope => SettingValue::Text(string_from(chars_of(self.notes_cache_scope.as_str()).as_slice())),
            SettingKey::AppleNotesRefreshSecs => SettingValue::Int(self.apple_notes_refresh_secs as i64),
            SettingKey::RhymeLookupTimeoutSecs => SettingValue::Int(self.rhyme_lookup_timeout_secs as i64),
            SettingKey::Theme => SettingValue::Text(string_from(chars_of(self.theme.as_str()).as_slice())),
            SettingKey::IconTheme => SettingValue::Text(string_from(chars_of(self.icon_theme.as_str()).as_slice())),
            SettingKey::FontFamily => SettingValue::Text(self.font_family.clone()),
            SettingKey::FontSize => SettingValue::Int(self.font_size as i64),
            SettingKey::UiFontSize => SettingValue::Int(self.ui_font_size as i64),
            SettingKey::CornerRadius => SettingValue::Int(self.corner_radius as i64),
            SettingKey::AnimationsEnabled => SettingValue::Bool(self.animations_enabled),
        }
    }

    #[verifier::rlimit(100)]
    #[verifier::spinoff_prover]
    fn set_bool_a(&mut self, k: SettingKey, b: bool)
        requires
            old(self).wf(),
            k is ShowSyllableGutter || k is ShowVcsGutter || k is ShowLineNumbers || k is HighlightCurrentLine || k is WrapLines || k is ShowWhitespace || k is HighlightBrackets || k is StickyScroll || k is ShowRightMargin,
        ensures
            final(self).wf(),
            final(self).unknown == old(self).unknown,
            final(self).palette_overrides == old(self).palette_overrides,
            forall|j: SettingKey| j != k ==> #[trigger] field_value(final(self), j) == field_value(old(self), j),
            field_value(final(self), k) == match set_effect(k, SValue::Bool(b)) {
                Some(nv) => nv,
                None => field_value(old(self), k),
            },
    {
        let ghost v0 = SValue::Bool(b);
        match k {
            SettingKey::ShowSyllableGutter => {
                self.show_syllable_gutter = b;
            },
            SettingKey::ShowVcsGutter => {
                self.show_vcs_gutter = b;
            },
            SettingKey::ShowLineNumbers => {
                self.show_line_numbers = b;
            },
            SettingKey::HighlightCurrentLine => {
                self.highlight_current_line = b;
            },
            SettingKey::WrapLines => {
                self.wrap_lines = b;
            },
            SettingKey::ShowWhitespace => {
                self.show_whitespace = b;
            },
            SettingKey::HighlightBrackets => {
                self.highlight_brackets = b;
            },
            SettingKey::StickyScroll => {
                self.sticky_scroll = b;
            },
            SettingKey::ShowRightMargin => {
                self.show_right_margin = b;
            },
            _ => {},
        }
    }

    #[verifier::rlimit(100)]
    #[verifier::spinoff_prover]
    fn set_bool_b(&mut self, k: SettingKey, b: bool)
        requires
            old(self).wf(),
            k is RhymeHighlighting || k is RhymeStopAtBlankLine || k is ShowRhymeLegend || k is RhymeHoverEmphasis || k is WordCompletion || k is AutoIndent || k is InsertSpaces || k is GitAutostage || k is AnimationsEnabled,
        ensures
            final(self).wf(),
            final(self).unknown == old(self).unknown,
            final(self).palette_overrides == old(self).palette_overrides,
            forall|j: SettingKey| j != k ==> #[trigger] field_value(final(self), j) == field_value(old(self), j),
            field_value(final(self), k) == match set_effect(k, SValue::Bool(b)) {
                Some(nv) => nv,
                None => field_value(old(self), k),
            },
    {
        let ghost v0 = SValue::Bool(b);
        match k {
            SettingKey::RhymeHighlighting => {
                self.rhyme_highlighting = b;
            },
            SettingKey::RhymeStopAtBlankLine => {
                self.rhyme_stop_at_blank_line = b;
            },
            SettingKey::ShowRhymeLegend => {
                self.show_rhyme_legend = b;
            },
            SettingKey::RhymeHoverEmphasis => {
                self.rhyme_hover_emphasis = b;
            },
            SettingKey::WordCompletion => {
                self.word_completion = b;
            },
            SettingKey::AutoIndent => {
                self.auto_indent = b;
            },
            SettingKey::InsertSpaces => {
                self.insert_spaces = b;
            },
            SettingKey::GitAutostage => {
                self.git_autostage = b;
            },
            SettingKey::AnimationsEnabled => {
                self.animations_enabled = b;
            },
            _ => {},
        }
    }

    #[verifier::rlimit(100)]
    #[verifier::spinoff_prover]
    fn set_int(&mut self, k: SettingKey, n: i64)
        requires
            old(self).wf(),
            true,
        ensures
            final(self).wf(),
            final(self).unknown == old(self).unknown,
            final(self).palette_overrides == old(self).palette_overrides,
            forall|j: SettingKey| j != k ==> #[trigger] field_value(final(self), j) == field_value(old(self), j),
            field_value(final(self), k) == match set_effect(k, SValue::Int(n as int)) {
                Some(nv) => nv,
                None => field_value(old(self), k),
            },
    {
        let ghost v0 = SValue::Int(n as int);
        match k {
            SettingKey::LineSpacingPx => {
                self.line_spacing_px = n as u32;
            },
            SettingKey::RightMarginColumn => {
                self.right_margin_column = n as u32;
            },
            SettingKey::RhymeLineWindow => {
                self.rhyme_line_window = n as u32;
            },
            SettingKey::RhymeHueCount => {
                self.rhyme_hue_count = n as u32;
            },
            SettingKey::RhymeDebounceMs => {
                self.rhyme_debounce_ms = n as u32;
            },
            SettingKey::CompletionMinPrefix => {
                self.completion_min_prefix = n as u32;
            },
            SettingKey::CompletionMaxSuggestions => {
                self.completion_max_suggestions = n as u32;
            },
            SettingKey::TabWidth => {
                self.tab_width = n as u32;
            },
            SettingKey::AutosaveDebounceMs => {
                self.autosave_debounce_ms = n as u32;
            },
            SettingKey::AppleNotesRefreshSecs => {
                self.apple_notes_refresh_secs = n as u32;
            },
            SettingKey::RhymeLookupTimeoutSecs => {
                self.rhyme_lookup_timeout_secs = n as u32;
            },
            SettingKey::FontSize => {
                self.font_size = n as u32;
            },
            SettingKey::UiFontSize => {
                self.ui_font_size = n as u32;
            },
            SettingKey::CornerRadius => {
                self.corner_radius = n as u32;
            },
            _ => {},
        }
    }

    #[verifier::rlimit(100)]
    #[verifier::spinoff_prover]
    fn set_float(&mut self, k: SettingKey, t: String)
        requires
            old(self).wf(),
            true,
        ensures
            final(self).wf(),
            final(self).unknown == old(self).unknown,
            final(self).palette_overrides == old(self).palette_overrides,
            forall|j: SettingKey| j != k ==> #[trigger] field_value(final(self), j) == field_value(old(self), j),
            field_value(final(self), k) == match set_effect(k, SValue::Float(t@)) {
                Some(nv) => nv,
                None => field_value(old(self), k),
            },
    {
        let ghost v0 = SValue::Float(t@);
        match k {
            SettingKey::RhymeMergeThreshold => {
                self.rhyme_merge_threshold = t;
            },
            SettingKey::RhymeAnchor => {
                self.rhyme_anchor = t;
            },
            SettingKey::RhymeExtend => {
                self.rhyme_extend = t;
            },
            SettingKey::RhymeJump => {
                self.rhyme_jump = t;
            },
            _ => {},
        }
    }

    #[verifier::rlimit(100)]
    #[verifier::spinoff_prover]
    fn set_text(&mut self, k: SettingKey, t: String)
        requires
            old(self).wf(),
            !(field_class(k) is Scope || field_class(k) is Theme || field_class(k) is IconTheme),
        ensures
            final(self).wf(),
            final(self).unknown == old(self).unknown,
            final(self).palette_overrides == old(self).palette_overrides,
            forall|j: SettingKey| j != k ==> #[trigger] field_value(final(self), j) == field_value(old(self), j),
            field_value(final(self), k) == match set_effect(k, SValue::Text(t@)) {
                Some(nv) => nv,
                None => field_value(old(self), k),
            },
    {
        let ghost v0 = SValue::Text(t@);
        match k {
            SettingKey::GitRemoteName => {
                if !t.as_str().is_empty() {
                    self.git_remote_name = t;
                }
            },
            SettingKey::GitDefaultCommitMessage => {
                if !t.as_str().is_empty() {
                    self.git_default_commit_message = t;
                }
            },
            SettingKey::GitSignatureFallback => {
                if !t.as_str().is_empty() {
                    self.git_signature_fallback = t;
                }
            },
            SettingKey::FontFamily => {
                if !t.as_str().is_empty() {
                    self.font_family = t;
                }
            },
            _ => {},
        }
    }

    #[verifier::rlimit(100)]
    #[verifier::spinoff_prover]
    fn set_choice(&mut self, k: SettingKey, t: String)
        requires
            old(self).wf(),
            field_class(k) is Scope || field_class(k) is Theme || field_class(k) is IconTheme,
        ensures
            final(self).wf(),
            final(self).unknown == old(self).unknown,
            final(self).palette_overrides == old(self).palette_overrides,
            forall|j: SettingKey| j != k ==> #[trigger] field_value(final(self), j) == field_value(old(self), j),
            field_value(final(self), k) == match set_effect(k, SValue::Text(t@)) {
                Some(nv) => nv,
                None => field_value(old(self), k),
            },
    {
        let ghost v0 = SValue::Text(t@);
        match k {
            SettingKey::NotesCacheScope => {
                if let Some(x) = NotesCacheScope::parse(t.as_str()) {
                    self.notes_cache_scope = x;
                }
            },
            SettingKey::Theme => {
                if let Some(x) = Theme::parse(t.as_str()) {
                    self.theme = x;
                }
            },
            SettingKey::IconTheme => {
                if let Some(x) = IconTheme::parse(t.as_str()) {
                    self.icon_theme = x;
                }
            },
            _ => {},
        }
    }

    /// Store an already-validated value into setting `k`. A value of the
    /// wrong variant, empty text for a text setting, or an unknown token for
    /// a closed set leaves the setting as it was.
    pub fn set(&mut self, k: SettingKey, v: SettingValue)
        requires
            old(self).wf(),
        ensures
            final(self).wf(),
            final(self)@ == apply_set(old(self)@, k, v@),
    {
        match v {
            SettingValue::Bool(b) => match k {
                SettingKey::ShowSyllableGutter | SettingKey::ShowVcsGutter | SettingKey::ShowLineNumbers | SettingKey::HighlightCurrentLine | SettingKey::WrapLines | SettingKey::ShowWhitespace | SettingKey::HighlightBrackets | SettingKey::StickyScroll | SettingKey::ShowRightMargin => self.set_bool_a(k, b),
                SettingKey::RhymeHighlighting | SettingKey::RhymeStopAtBlankLine | SettingKey::ShowRhymeLegend | SettingKey::RhymeHoverEmphasis | SettingKey::WordCompletion | SettingKey::AutoIndent | SettingKey::InsertSpaces | SettingKey::GitAutostage | SettingKey::AnimationsEnabled => self.set_bool_b(k, b),
                _ => {},
            },
            SettingValue::Int(n) => self.set_int(k, n),
            SettingValue::Float(t) => self.set_float(k, t),
            SettingValue::Text(t) => {
                if k.is_choice() {
                    self.set_choice(k, t)
                } else {
                    self.set_text(k, t)
                }
            },
        }
        reveal(apply_set);
        assert(self@.values =~= apply_set(old(self)@, k, v@).values);
    }
}

/// What a [`Settings`] stands for: each setting's value, the stashed
/// unknown lines, and the palette overrides.
pub struct SettingsView {
    pub values: Map<SettingKey, SValue>,
    pub unknown: Map<Seq<char>, Seq<char>>,
    pub palette: Map<Seq<char>, Seq<char>>,
}

impl Settings {
    /// The stashed `key -> value` lines whose key is not a setting.
    pub closed spec fn unknown_view(&self) -> Map<Seq<char>, Seq<char>> {
        self.unknown@.map_values(|v: String| v@)
    }

    /// The stashed lines, in ascending key order.
    pub closed spec fn unknown_pairs(&self) -> Seq<(Seq<char>, Seq<char>)> {
        text_pairs(&self.unknown)
    }

    /// The palette overrides, name to colour.
    pub closed spec fn palette_view(&self) -> Map<Seq<char>, Seq<char>> {
        self.palette_overrides@.map_values(|v: String| v@)
    }

    /// The palette overrides, in ascending name order.
    pub closed spec fn palette_pairs(&self) -> Seq<(Seq<char>, Seq<char>)> {
        text_pairs(&self.palette_overrides)
    }

    /// Both maps keep their keys in order.
    pub closed spec fn wf(&self) -> bool {
        self.unknown.wf() && self.palette_overrides.wf()
    }

    pub closed spec fn view(&self) -> SettingsView {
        SettingsView {
            values: Map::new(|k: SettingKey| true, |k: SettingKey| field_value(self, k)),
            unknown: self.unknown_view(),
            palette: self.palette_view(),
        }
    }
}

/// The entries of a map of strings, in order, values as text.
pub open spec fn text_pairs(m: &StrMap<String>) -> Seq<(Seq<char>, Seq<char>)> {
    m.pairs().map_values(|e: (Seq<char>, String)| (e.0, e.1@))
}

/// What a `palette.` key starts with.
pub open spec fn palette_prefix() -> Seq<char> {
    "palette."@
}

/// A file key that names a palette override.
pub open spec fn is_palette_key(key: Seq<char>) -> bool {
    key.len() >= palette_prefix().len() && key.take(palette_prefix().len() as int)
        == palette_prefix()
}

/// `n` stored into a `u32` field.
pub open spec fn wrap_u32(n: int) -> int {
    (n as u32) as int
}

/// What setting `k` holds after [`Settings::set`] with `v`, or `None` when
/// that call leaves it unchanged.
pub open spec fn set_effect(k: SettingKey, v: SValue) -> Option<SValue> {
    match (field_class(k), v) {
        (FieldClass::Bool, SValue::Bool(b)) => Some(SValue::Bool(b)),
        (FieldClass::Int, SValue::Int(n)) => Some(SValue::Int(wrap_u32(n))),
        (FieldClass::Float, SValue::Float(t)) => Some(SValue::Float(t)),
        (FieldClass::Text, SValue::Text(t)) => if t.len() > 0 {
            Some(SValue::Text(t))
        } else {
            None
        },
        (FieldClass::Scope, SValue::Text(t)) => match spec_scope_parse(t) {
            Some(x) => Some(SValue::Text(spec_scope_str(x))),
            None => None,
        },
        (FieldClass::Theme, SValue::Text(t)) => match spec_theme_parse(t) {
            Some(x) => Some(SValue::Text(spec_theme_str(x))),
            None => None,
        },
        (FieldClass::IconTheme, SValue::Text(t)) => match spec_icon_theme_parse(t) {
            Some(x) => Some(SValue::Text(spec_icon_theme_str(x))),
            None => None,
        },
        _ => None,
    }
}

/// The settings after storing `v` into `k`.
#[verifier::opaque]
pub open spec fn apply_set(m: SettingsView, k: SettingKey, v: SValue) -> SettingsView {
    match set_effect(k, v) {
        Some(nv) => SettingsView { values: m.values.insert(k, nv), ..m },
        None => m,
    }
}

/// What one raw file value parses to in a domain (fractional values are
/// left to the caller).
pub open spec fn parse_model(kind: KindModel, raw: Seq<char>) -> Option<SValue> {
    match kind {
        KindModel::Bool => Some(SValue::Bool(raw == "true"@)),
        KindModel::Int(min, max) => match parse_int(raw) {
            Some(n) => Some(SValue::Int(clamp_int(n, min, max))),
            None => None,
        },
        KindModel::Float => None,
        KindModel::Enum(tokens) => if tokens.contains(raw) {
            Some(SValue::Text(raw))
        } else {
            None
        },
        KindModel::Text => if raw.len() > 0 {
            Some(SValue::Text(raw))
        } else {
            None
        },
    }
}

proof fn lemma_parse_model(kind: SettingKind, raw: Seq<char>)
    requires
        !(kind is Float),
    ensures
        spec_parse_clamped(kind, raw) == parse_model(kind_view(kind), raw),
{
}

/// The key and the raw value of a `key=value` line, both trimmed.
pub open spec fn split_kv(line: Seq<char>) -> Option<(Seq<char>, Seq<char>)> {
    match find_char(line, '=') {
        Some(i) => Some((trim_seq(line.take(i)), trim_seq(line.skip(i + 1)))),
        None => None,
    }
}

/// The settings after reading a line with key `key` and value `raw`.
pub open spec fn apply_kv(m: SettingsView, key: Seq<char>, raw: Seq<char>) -> SettingsView {
    match spec_key_from_name(key) {
        Some(k) => match parse_model(spec_kind(k), raw) {
            Some(v) => apply_set(m, k, v),
            None => m,
        },
        None => if is_palette_key(key) {
            SettingsView {
                palette: m.palette.insert(key.skip(palette_prefix().len() as int), raw),
                ..m
            }
        } else {
            SettingsView { unknown: m.unknown.insert(key, no_newlines(raw)), ..m }
        },
    }
}

/// The settings after reading one line of the file.
pub open spec fn apply_line(m: SettingsView, line: Seq<char>) -> SettingsView {
    match split_kv(line) {
        None => m,
        Some((key, raw)) => apply_kv(m, key, raw),
    }
}

/// The settings after reading `lines` in order.
pub open spec fn apply_lines(m: SettingsView, lines: Seq<Seq<char>>) -> SettingsView
    decreases lines.len(),
{
    if lines.len() == 0 {
        m
    } else {
        apply_lines(apply_line(m, lines[0]), lines.drop_first())
    }
}

/// The fractional setting a `key=raw` line assigns, with its raw text.
pub open spec fn float_kv(key: Seq<char>, raw: Seq<char>) -> Seq<(SettingKey, Seq<char>)> {
    match spec_key_from_name(key) {
        Some(k) => if spec_kind(k) is Float {
            seq![(k, raw)]
        } else {
            seq![]
        },
        None => seq![],
    }
}

/// The fractional setting a line assigns, with its raw text.
pub open spec fn float_line(line: Seq<char>) -> Seq<(SettingKey, Seq<char>)> {
    match split_kv(line) {
        Some((key, raw)) => float_kv(key, raw),
        None => seq![],
    }
}

/// Every fractional assignment in `lines`, in order.
pub open spec fn float_lines(lines: Seq<Seq<char>>) -> Seq<(SettingKey, Seq<char>)>
    decreases lines.len(),
{
    if lines.len() == 0 {
        seq![]
    } else {
        float_line(lines[0]) + float_lines(lines.drop_first())
    }
}

/// A fractional setting's line, handed back by [`parse_into`] for the caller
/// to validate and store with [`Settings::set`].
pub struct FloatLine {
    pub key: SettingKey,
    pub raw: String,
}

pub open spec fn float_views(v: Seq<FloatLine>) -> Seq<(SettingKey, Seq<char>)> {
    v.map_values(|f: FloatLine| (f.key, f.raw@))
}

/// Store the raw value of a line that names setting `k`.
fn read_known(settings: &mut Settings, k: SettingKey, raw: &[char])
    requires
        old(settings).wf(),
        !(spec_kind(k) is Float),
    ensures
        final(settings).wf(),
        final(settings)@ == match parse_model(spec_kind(k), raw@) {
            Some(v) => apply_set(old(settings)@, k, v),
            None => old(settings)@,
        },
{
    let kind = k.kind();
    let raw_s = string_from(raw);
    proof {
        lemma_parse_model(kind, raw@);
    }
    match kind.parse_clamped(raw_s.as_str()) {
        Some(v) => {
            settings.set(k, v);
        },
        None => {},
    }
}

/// Stash a line whose key names no setting.
fn read_unknown(settings: &mut Settings, key: &[char], raw: &[char])
    requires
        old(settings).wf(),
    ensures
        final(settings).wf(),
        final(settings)@ == (SettingsView {
            unknown: old(settings)@.unknown.insert(key@, no_newlines(raw@)),
            ..old(settings)@
        }),
{
    let ghost m0 = settings@;
    let value = strip_newlines(&slice_vec(raw, 0, raw.len()));
    assert(raw@.subrange(0, raw@.len() as int) =~= raw@);
    settings.unknown.insert(string_from(key), string_from(value.as_slice()));
    proof {
        assert(settings.unknown_view() =~= m0.unknown.insert(key@, no_newlines(raw@)));
        assert(settings@.values =~= m0.values);
    }
}

/// Store a `palette.<name>` line.
fn read_palette(settings: &mut Settings, key: &[char], raw: &[char])
    requires
        old(settings).wf(),
        is_palette_key(key@),
    ensures
        final(settings).wf(),
        final(settings)@ == (SettingsView {
            palette: old(settings)@.palette.insert(
                key@.skip(palette_prefix().len() as int),
                raw@,
            ),
            ..old(settings)@
        }),
{
    let ghost m0 = settings@;
    proof {
        reveal_strlit("palette.");
    }
    let name = slice_vec(key, 8, key.len());
    assert(name@ =~= key@.skip(palette_prefix().len() as int));
    settings.palette_overrides.insert(string_from(name.as_slice()), string_from(raw));
    proof {
        assert(settings.palette_view() =~= m0.palette.insert(name@, raw@));
        assert(settings@.values =~= m0.values);
    }
}

/// Read a line with key `key` and value `raw` into `settings`.
fn read_kv(settings: &mut Settings, key: &[char], raw: &[char], floats: &mut Vec<FloatLine>)
    requires
        old(settings).wf(),
    ensures
        final(settings).wf(),
        final(settings)@ == apply_kv(old(settings)@, key@, raw@),
        float_views(final(floats)@) == float_views(old(floats)@) + float_kv(key@, raw@),
{
    match SettingKey::from_name(key) {
        Some(k) => {
            let kind = k.kind();
            if let SettingKind::Float { .. } = kind {
                let ghost before = float_views(floats@);
                floats.push(FloatLine { key: k, raw: string_from(raw) });
                assert(float_views(floats@) =~= before + float_kv(key@, raw@));
            } else {
                read_known(settings, k, raw);
                assert(float_views(floats@) + float_kv(key@, raw@) =~= float_views(floats@));
            }
        },
        None => {
            let prefix = chars_of("palette.");
            if has_prefix(key, prefix.as_slice()) {
                read_palette(settings, key, raw);
            } else {
                read_unknown(settings, key, raw);
            }
            assert(float_views(floats@) + float_kv(key@, raw@) =~= float_views(floats@));
        },
    }
}

/// Read one line into `settings`.
fn read_line(settings: &mut Settings, line: &[char], floats: &mut Vec<FloatLine>)
    requires
        old(settings).wf(),
    ensures
        final(settings).wf(),
        final(settings)@ == apply_line(old(settings)@, line@),
        float_views(final(floats)@) == float_views(old(floats)@) + float_line(line@),
{
    assert(line@.skip(0) =~= line@);
    match find_from(line, '=', 0) {
        None => {
            assert(float_views(floats@) + float_line(line@) =~= float_views(floats@));
        },
        Some(i) => {
            let key = trim_range(line, 0, i);
            let raw = trim_range(line, i + 1, line.len());
            proof {
                assert(line@.subrange(0, i as int) =~= line@.take(i as int));
                assert(line@.subrange(i + 1, line@.len() as int) =~= line@.skip(i + 1));
            }
            read_kv(settings, key.as_slice(), raw.as_slice(), floats);
        },
    }
}

/// Fold a flat `key=value` document into `settings`: known keys through
/// their domain (validated and clamped), unknown keys stashed verbatim (less
/// any CR/LF) so a file from a newer build round-trips unharmed. A line
/// without `=`, or one whose value the domain can't use, is skipped — the
/// setting keeps its current value. Fractional settings are returned, in
/// file order, for the caller to validate and store.
pub fn parse_into(settings: &mut Settings, contents: &str) -> (floats: Vec<FloatLine>)
    requires
        old(settings).wf(),
    ensures
        final(settings).wf(),
        final(settings)@ == apply_lines(old(settings)@, spec_lines(contents@)),
        float_views(floats@) == float_lines(spec_lines(contents@)),
{
    let cs = chars_of(contents);
    let mut floats: Vec<FloatLine> = Vec::new();
    let mut pos: usize = 0;
    proof {
        assert(cs@.skip(0) =~= cs@);
        assert(float_views(floats@) =~= seq![]);
    }
    while pos < cs.len()
        invariant
            pos <= cs.len(),
            cs@ == contents@,
            settings.wf(),
            apply_lines(old(settings)@, spec_lines(cs@)) == apply_lines(
                settings@,
                spec_lines(cs@.skip(pos as int)),
            ),
            float_lines(spec_lines(cs@)) == float_views(floats@) + float_lines(
                spec_lines(cs@.skip(pos as int)),
            ),
        decreases cs.len() - pos,
    {
        let ghost rest = cs@.skip(pos as int);
        let ghost m0 = settings@;
        let ghost f0 = float_views(floats@);
        let (line, next) = match find_from(cs.as_slice(), '\n', pos) {
            Some(j) => {
                let end = if j > pos && cs[j - 1] == '\r' {
                    j - 1
                } else {
                    j
                };
                proof {
                    let i = j - pos;
                    assert(rest.take(i) =~= cs@.subrange(pos as int, j as int));
                    assert(strip_cr(rest.take(i)) =~= cs@.subrange(pos as int, end as int));
                    assert(rest.skip(i + 1) =~= cs@.skip(j + 1));
                }
                (slice_vec(cs.as_slice(), pos, end), j + 1)
            },
            None => {
                proof {
                    assert(rest =~= cs@.subrange(pos as int, cs@.len() as int));
                    assert(cs@.skip(cs@.len() as int) =~= seq![]);
                }
                (slice_vec(cs.as_slice(), pos, cs.len()), cs.len())
            },
        };
        proof {
            assert(spec_lines(rest) == seq![line@] + spec_lines(cs@.skip(next as int)));
            assert((seq![line@] + spec_lines(cs@.skip(next as int))).drop_first() =~= spec_lines(
                cs@.skip(next as int),
            ));
        }
        read_line(settings, line.as_slice(), &mut floats);
        proof {
            assert(f0 + float_lines(spec_lines(rest)) =~= float_views(floats@) + float_lines(
                spec_lines(cs@.skip(next as int)),
            ));
        }
        pos = next;
    }
    floats
}

/// The `name=value` lines of `keys`, in order.
pub open spec fn known_text(m: SettingsView, keys: Seq<SettingKey>) -> Seq<char>
    decreases keys.len(),
{
    if keys.len() == 0 {
        seq![]
    } else {
        known_text(m, keys.drop_last()) + spec_key_name(keys.last()) + "="@ + render_value(
            m.values[keys.last()],
        ) + "\n"@
    }
}

/// The `key=value` lines of stashed pairs, in order.
pub open spec fn pairs_text(pairs: Seq<(Seq<char>, Seq<char>)>) -> Seq<char>
    decreases pairs.len(),
{
    if pairs.len() == 0 {
        seq![]
    } else {
        pairs_text(pairs.drop_last()) + pairs.last().0 + "="@ + pairs.last().1 + "\n"@
    }
}

/// The `palette.<name>=colour` lines of palette overrides, in order.
pub open spec fn palette_text(pairs: Seq<(Seq<char>, Seq<char>)>) -> Seq<char>
    decreases pairs.len(),
{
    if pairs.len() == 0 {
        seq![]
    } else {
        palette_text(pairs.drop_last()) + "palette."@ + pairs.last().0 + "="@ + pairs.last().1
            + "\n"@
    }
}

/// The flat file text of `s`.
pub open spec fn spec_serialize(s: &Settings) -> Seq<char> {
    known_text(s@, spec_all_keys()) + palette_text(s.palette_pairs()) + pairs_text(
        s.unknown_pairs(),
    )
}

/// Render `settings` to the flat format: every setting in registry order,
/// then the palette overrides as `palette.<name>` lines and any stashed
/// unknown keys, each in ascending order.
pub fn serialize(settings: &Settings) -> (out: String)
    ensures
        out@ == spec_serialize(settings),
{
    let keys = all_keys();
    let mut out: Vec<char> = Vec::new();
    let mut i: usize = 0;
    while i < keys.len()
        invariant
            i <= keys.len(),
            keys@ == spec_all_keys(),
            out@ == known_text(settings@, keys@.take(i as int)),
        decreases keys.len() - i,
    {
        let k = keys[i];
        extend_str(&mut out, k.name());
        out.push('=');
        let v = settings.get(k).render();
        extend_str(&mut out, v.as_str());
        out.push('\n');
        proof {
            reveal_strlit("=");
            reveal_strlit("\n");
            let t = keys@.take(i + 1);
            assert(t.drop_last() =~= keys@.take(i as int));
            assert(t.last() == k);
            assert(settings@.values[k] == field_value(settings, k));
            assert(out@ =~= known_text(settings@, t));
        }
        i += 1;
    }
    assert(keys@.take(keys@.len() as int) =~= keys@);
    let ghost known = out@;
    let np = settings.palette_overrides.len();
    let mut q: usize = 0;
    while q < np
        invariant
            q <= np,
            np == settings.palette_pairs().len(),
            out@ == known + palette_text(settings.palette_pairs().take(q as int)),
        decreases np - q,
    {
        let (name, colour) = settings.palette_overrides.entry(q);
        extend_str(&mut out, "palette.");
        extend_str(&mut out, name.as_str());
        out.push('=');
        extend_str(&mut out, colour.as_str());
        out.push('\n');
        proof {
            reveal_strlit("=");
            reveal_strlit("\n");
            reveal_strlit("palette.");
            let p = settings.palette_pairs();
            let t = p.take(q + 1);
            assert(t.last() == (name@, colour@));
            assert(t.drop_last() =~= p.take(q as int));
            assert(out@ =~= known + palette_text(t));
        }
        q += 1;
    }
    assert(settings.palette_pairs().take(np as int) =~= settings.palette_pairs());
    let ghost head = out@;
    let n = settings.unknown.len();
    let mut j: usize = 0;
    while j < n
        invariant
            j <= n,
            n == settings.unknown_pairs().len(),
            out@ == head + pairs_text(settings.unknown_pairs().take(j as int)),
        decreases n - j,
    {
        let (key, value) = settings.unknown.entry(j);
        extend_str(&mut out, key.as_str());
        out.push('=');
        extend_str(&mut out, value.as_str());
        out.push('\n');
        proof {
            reveal_strlit("=");
            reveal_strlit("\n");
            let p = settings.unknown_pairs();
            let t = p.take(j + 1);
            assert(t.last() == (key@, value@));
            assert(t.drop_last() =~= p.take(j as int));
            assert(out@ =~= head + pairs_text(t));
        }
        j += 1;
    }
    assert(settings.unknown_pairs().take(n as int) =~= settings.unknown_pairs());
    string_from(out.as_slice())
}

// ---------------------------------------------------------------------------
// Saving and loading back
// ---------------------------------------------------------------------------

/// Text a `key=value` line carries back unchanged: no line break, and no
/// white space at either end.
pub open spec fn line_safe(t: Seq<char>) -> bool {
    &&& forall|i: int| 0 <= i < t.len() ==> t[i] != '\n' && t[i] != '\r'
    &&& (t.len() == 0 || (!is_ws(t[0]) && !is_ws(t.last())))
}

/// Setting `k` holding `v` reads back as `v` from its own saved line: an
/// integer within its domain, text without line breaks or surrounding
/// white space (and, for free text, not empty).
pub open spec fn value_reloads(k: SettingKey, v: SValue) -> bool {
    match v {
        SValue::Bool(_) => true,
        SValue::Int(n) => match spec_kind(k) {
            KindModel::Int(lo, hi) => lo <= n <= hi,
            _ => true,
        },
        SValue::Float(t) => line_safe(t),
        SValue::Text(t) => field_class(k) is Text ==> line_safe(t) && t.len() > 0,
    }
}

/// A stashed `key=value` line that reads back as itself: its key names no
/// setting, is no `palette.` key, and holds no `=`.
pub open spec fn stray_reloads(key: Seq<char>, value: Seq<char>) -> bool {
    &&& spec_key_from_name(key) is None
    &&& !is_palette_key(key)
    &&& forall|i: int| 0 <= i < key.len() ==> key[i] != '='
    &&& line_safe(key)
    &&& line_safe(value)
}

/// A palette override whose `palette.<name>=colour` line reads back as
/// itself: a name without `=` or line breaks, not ending in white space.
pub open spec fn override_reloads(name: Seq<char>, colour: Seq<char>) -> bool {
    &&& forall|i: int| 0 <= i < name.len() ==> name[i] != '=' && name[i] != '\n' && name[i] != '\r'
    &&& (name.len() == 0 || !is_ws(name.last()))
    &&& line_safe(colour)
}

/// Every setting, palette override and stashed line of `m` reads back as
/// itself.
pub open spec fn saves_cleanly(m: SettingsView) -> bool {
    &&& forall|k: SettingKey| value_reloads(k, #[trigger] m.values[k])
    &&& forall|name: Seq<char>| #[trigger]
        m.palette.contains_key(name) ==> override_reloads(name, m.palette[name])
    &&& forall|key: Seq<char>| #[trigger]
        m.unknown.contains_key(key) ==> stray_reloads(key, m.unknown[key])
}

/// The text of a fractional value.
pub open spec fn float_text(v: SValue) -> Seq<char> {
    match v {
        SValue::Float(t) => t,
        _ => seq![],
    }
}

/// The fractional settings among `keys`, in order, each with its text in `m`.
pub open spec fn float_entries(m: SettingsView, keys: Seq<SettingKey>) -> Seq<
    (SettingKey, Seq<char>),
>
    decreases keys.len(),
{
    if keys.len() == 0 {
        seq![]
    } else {
        float_entries(m, keys.drop_last()) + if spec_kind(keys.last()) is Float {
            seq![(keys.last(), float_text(m.values[keys.last()]))]
        } else {
            seq![]
        }
    }
}

/// The map that inserting `pairs` in order builds.
pub open spec fn pairs_map(pairs: Seq<(Seq<char>, Seq<char>)>) -> Map<Seq<char>, Seq<char>>
    decreases pairs.len(),
{
    if pairs.len() == 0 {
        Map::empty()
    } else {
        pairs_map(pairs.drop_last()).insert(pairs.last().0, pairs.last().1)
    }
}

proof fn lemma_kind_class(k: SettingKey)
    ensures
        field_class(k) is Bool ==> spec_kind(k) is Bool,
        field_class(k) is Int ==> spec_kind(k) is Int,
        field_class(k) is Float <==> spec_kind(k) is Float,
        field_class(k) is Text ==> spec_kind(k) is Text,
        field_class(k) is Scope ==> spec_kind(k) == KindModel::Enum(seq!["workspace"@, "user"@]),
        field_class(k) is Theme ==> spec_kind(k) == KindModel::Enum(seq!["dark"@, "light"@]),
        field_class(k) is IconTheme ==> spec_kind(k) == KindModel::Enum(
            seq!["color"@, "monochrome"@],
        ),
{
    reveal(spec_kind);
}

proof fn lemma_field_shape(s: &Settings, k: SettingKey)
    ensures
        field_class(k) is Bool ==> field_value(s, k) is Bool,
        field_class(k) is Int ==> (field_value(s, k) matches SValue::Int(n) && 0 <= n
            <= u32::MAX),
        field_class(k) is Float ==> field_value(s, k) is Float,
        field_class(k) is Text ==> field_value(s, k) is Text,
        field_class(k) is Scope ==> field_value(s, k) == SValue::Text(
            spec_scope_str(s.notes_cache_scope),
        ),
        field_class(k) is Theme ==> field_value(s, k) == SValue::Text(spec_theme_str(s.theme)),
        field_class(k) is IconTheme ==> field_value(s, k) == SValue::Text(
            spec_icon_theme_str(s.icon_theme),
        ),
{
}

/// A choice token's line reads back as the same choice.
proof fn lemma_token_reloads(k: SettingKey, t: Seq<char>, tokens: Seq<Seq<char>>)
    requires
        spec_kind(k) == KindModel::Enum(tokens),
        tokens.contains(t),
        line_safe(t),
        set_effect(k, SValue::Text(t)) == Some(SValue::Text(t)),
    ensures
        line_safe(render_value(SValue::Text(t))),
        parse_model(spec_kind(k), render_value(SValue::Text(t))) == Some(SValue::Text(t)),
{
    lemma_no_newlines_id(t);
}

/// What `s` holds for `k` renders to text that parses back to it.
proof fn lemma_value_reloads(s: &Settings, k: SettingKey)
    requires
        value_reloads(k, field_value(s, k)),
    ensures
        line_safe(render_value(field_value(s, k))),
        spec_kind(k) is Float ==> field_value(s, k) is Float,
        !(spec_kind(k) is Float) ==> (parse_model(spec_kind(k), render_value(field_value(s, k)))
            matches Some(w) && set_effect(k, w) == Some(field_value(s, k))),
{
    lemma_kind_class(k);
    lemma_field_shape(s, k);
    let v = field_value(s, k);
    let r = render_value(v);
    match field_class(k) {
        FieldClass::Bool => {
            reveal_strlit("true");
            reveal_strlit("false");
            assert("false"@.len() != "true"@.len());
        },
        FieldClass::Int => {
            let n = v->Int_0;
            lemma_digits_round_trip(n as nat);
            lemma_parse_render(n);
            assert(r == digits_of(n as nat));
            assert forall|i: int| 0 <= i < r.len() implies r[i] != '\n' && r[i] != '\r' && !is_ws(
                r[i],
            ) by {
                assert(is_ascii_digit(r[i]));
            }
            assert(wrap_u32(n) == n);
        },
        FieldClass::Float => {},
        FieldClass::Text => {
            let t = v->Text_0;
            lemma_no_newlines_id(t);
        },
        FieldClass::Scope => {
            reveal_strlit("workspace");
            reveal_strlit("user");
            let t = v->Text_0;
            let tokens = seq!["workspace"@, "user"@];
            assert(tokens[0] == "workspace"@ && tokens[1] == "user"@);
            lemma_token_reloads(k, t, tokens);
        },
        FieldClass::Theme => {
            reveal_strlit("dark");
            reveal_strlit("light");
            let t = v->Text_0;
            let tokens = seq!["dark"@, "light"@];
            assert(tokens[0] == "dark"@ && tokens[1] == "light"@);
            lemma_token_reloads(k, t, tokens);
        },
        FieldClass::IconTheme => {
            reveal_strlit("color");
            reveal_strlit("monochrome");
            let t = v->Text_0;
            let tokens = seq!["color"@, "monochrome"@];
            assert(tokens[0] == "color"@ && tokens[1] == "monochrome"@);
            lemma_token_reloads(k, t, tokens);
        },
    }
}

/// Reading lines one run after another is reading them all.
pub proof fn lemma_apply_lines_append(m: SettingsView, a: Seq<Seq<char>>, b: Seq<Seq<char>>)
    ensures
        apply_lines(m, a + b) == apply_lines(apply_lines(m, a), b),
        float_lines(a + b) == float_lines(a) + float_lines(b),
    decreases a.len(),
{
    if a.len() == 0 {
        assert(a + b =~= b);
        assert(float_lines(a) + float_lines(b) =~= float_lines(b));
    } else {
        assert((a + b).drop_first() =~= a.drop_first() + b);
        assert((a + b)[0] == a[0]);
        lemma_apply_lines_append(apply_line(m, a[0]), a.drop_first(), b);
        lemma_apply_lines_append(m, a.drop_first(), b);
        assert(float_line(a[0]) + (float_lines(a.drop_first()) + float_lines(b)) =~= (float_line(
            a[0],
        ) + float_lines(a.drop_first())) + float_lines(b));
    }
}

/// One line read on its own.
proof fn lemma_apply_one_line(m: SettingsView, l: Seq<char>)
    ensures
        apply_lines(m, seq![l]) == apply_line(m, l),
        float_lines(seq![l]) == float_line(l),
{
    let one = seq![l];
    let none: Seq<Seq<char>> = seq![];
    assert(one.drop_first() =~= none);
    assert(one[0] == l);
    assert(apply_lines(apply_line(m, l), none) == apply_line(m, l));
    assert(apply_lines(m, one) == apply_lines(apply_line(m, l), one.drop_first()));
    assert(float_lines(none) == Seq::<(SettingKey, Seq<char>)>::empty());
    assert(float_lines(one) == float_line(l) + float_lines(one.drop_first()));
    assert(float_line(l) + Seq::<(SettingKey, Seq<char>)>::empty() =~= float_line(l));
}

/// The line a setting is saved as, without its line break.
pub open spec fn setting_line(m: SettingsView, k: SettingKey) -> Seq<char> {
    spec_key_name(k) + "="@ + render_value(m.values[k])
}

/// A line `name=value` with a trimmed, `=`-free name.
pub proof fn lemma_split_named(key: Seq<char>, raw: Seq<char>)
    requires
        forall|i: int| 0 <= i < key.len() ==> key[i] != '=',
        line_safe(key),
        line_safe(raw),
    ensures
        split_kv(key + "="@ + raw) == Some((key, raw)),
        line_safe(key + "="@ + raw) || (key + "="@ + raw).last() == '=',
        forall|i: int| 0 <= i < (key + "="@ + raw).len() ==> (key + "="@ + raw)[i] != '\n',
        (key + "="@ + raw).last() != '\r',
{
    reveal_strlit("=");
    let line = key + "="@ + raw;
    let n = key.len() as int;
    assert forall|j: int| 0 <= j < n implies line[j] != '=' by {
        assert(line[j] == key[j]);
    }
    assert(line[n] == '=');
    lemma_find_char_at(line, '=', n);
    assert(line.take(n) =~= key);
    assert(line.skip(n + 1) =~= raw);
    lemma_trim_id(key);
    lemma_trim_id(raw);
    assert forall|i: int| 0 <= i < line.len() implies line[i] != '\n' by {
        if i < n {
            assert(line[i] == key[i]);
        } else if i > n {
            assert(line[i] == raw[i - n - 1]);
        }
    }
    if raw.len() > 0 {
        assert(line.last() == raw.last());
    }
}

/// Reading back the saved line of a setting whose value reloads.
proof fn lemma_setting_line(m: SettingsView, s: &Settings, k: SettingKey)
    requires
        value_reloads(k, field_value(s, k)),
    ensures
        spec_lines(setting_line(s@, k) + "\n"@) == seq![setting_line(s@, k)],
        apply_line(m, setting_line(s@, k)) == (if spec_kind(k) is Float {
            m
        } else {
            SettingsView { values: m.values.insert(k, s@.values[k]), ..m }
        }),
        float_line(setting_line(s@, k)) == (if spec_kind(k) is Float {
            seq![(k, float_text(s@.values[k]))]
        } else {
            seq![]
        }),
{
    reveal_strlit("\n");
    reveal(apply_set);
    let v = field_value(s, k);
    assert(s@.values[k] == v);
    let name = spec_key_name(k);
    let r = render_value(v);
    lemma_from_name(k);
    lemma_value_reloads(s, k);
    assert(line_safe(name)) by {
        assert(is_name_char(name[0]));
        assert(is_name_char(name.last()));
        assert forall|i: int| 0 <= i < name.len() implies name[i] != '\n' && name[i] != '\r' by {
            assert(is_name_char(name[i]));
        }
    }
    assert forall|i: int| 0 <= i < name.len() implies name[i] != '=' by {
        assert(is_name_char(name[i]));
    }
    lemma_split_named(name, r);
    let line = setting_line(s@, k);
    assert(line == name + "="@ + r);
    assert(line + "\n"@ =~= line.push('\n'));
    lemma_lines_single(line);
    if spec_kind(k) is Float {
        assert(r == float_text(v));
    }
}

/// Reading the saved lines of `keys` into `t` sets exactly those of them
/// that are not fractional, and hands the fractional ones back.
pub open spec fn known_state(t: SettingsView, sv: SettingsView, keys: Seq<SettingKey>) -> bool {
    let a = known_text(sv, keys);
    let r = apply_lines(t, spec_lines(a));
    &&& a.len() == 0 || a.last() == '\n'
    &&& forall|k: SettingKey|
        #![trigger r.values[k]]
        r.values[k] == if keys.contains(k) && !(spec_kind(k) is Float) {
            sv.values[k]
        } else {
            t.values[k]
        }
    &&& r.unknown == t.unknown
    &&& r.palette == t.palette
    &&& float_lines(spec_lines(a)) == float_entries(sv, keys)
}

proof fn lemma_known_empty(t: SettingsView, sv: SettingsView)
    ensures
        known_state(t, sv, seq![]),
{
    let keys: Seq<SettingKey> = seq![];
    assert(known_text(sv, keys) == Seq::<char>::empty());
    assert(spec_lines(Seq::<char>::empty()) =~= seq![]);
}

proof fn lemma_known_step(t: SettingsView, s: &Settings, keys: Seq<SettingKey>, k: SettingKey)
    requires
        known_state(t, s@, keys),
        value_reloads(k, field_value(s, k)),
    ensures
        known_state(t, s@, keys.push(k)),
{
    reveal_strlit("\n");
    let next = keys.push(k);
    assert(next.drop_last() =~= keys);
    assert(next.last() == k);
    let a0 = known_text(s@, keys);
    let line = setting_line(s@, k);
    let a = known_text(s@, next);
    assert(a =~= a0 + (line + "\n"@));
    let r0 = apply_lines(t, spec_lines(a0));
    lemma_setting_line(r0, s, k);
    lemma_lines_append(a0, line + "\n"@);
    lemma_apply_lines_append(t, spec_lines(a0), seq![line]);
    lemma_apply_one_line(r0, line);
    let r = apply_lines(t, spec_lines(a));
    assert(r == apply_line(r0, line));
    assert forall|j: SettingKey| #[trigger] next.contains(j) <==> (keys.contains(j) || j == k) by {
        if next.contains(j) {
            let i = choose|i: int| 0 <= i < next.len() && next[i] == j;
            if i < keys.len() {
                assert(keys[i] == j);
            }
        }
        if keys.contains(j) {
            let i = choose|i: int| 0 <= i < keys.len() && keys[i] == j;
            assert(next[i] == j);
        }
        if j == k {
            assert(next[keys.len() as int] == j);
        }
    }
    assert(a.last() == '\n');
}

/// What reading the saved lines of the first `n` registry keys does.
proof fn lemma_known_prefix(t: SettingsView, s: &Settings, n: int)
    requires
        0 <= n <= spec_all_keys().len(),
        forall|k: SettingKey| value_reloads(k, #[trigger] field_value(s, k)),
    ensures
        known_state(t, s@, spec_all_keys().take(n)),
    decreases n,
{
    let keys = spec_all_keys().take(n);
    if n == 0 {
        assert(keys =~= seq![]);
        lemma_known_empty(t, s@);
    } else {
        lemma_known_prefix(t, s, n - 1);
        let prev = spec_all_keys().take(n - 1);
        assert(keys =~= prev.push(spec_all_keys()[n - 1]));
        lemma_known_step(t, s, prev, spec_all_keys()[n - 1]);
    }
}

/// Distinct keys, in order, build a map holding each pair.
proof fn lemma_pairs_map(pairs: Seq<(Seq<char>, Seq<char>)>)
    requires
        forall|i: int, j: int|
            0 <= i < j < pairs.len() ==> #[trigger] pairs[i].0 != #[trigger] pairs[j].0,
    ensures
        forall|key: Seq<char>| #[trigger]
            pairs_map(pairs).contains_key(key) <==> exists|i: int|
                0 <= i < pairs.len() && pairs[i].0 == key,
        forall|i: int| 0 <= i < pairs.len() ==> pairs_map(pairs)[#[trigger] pairs[i].0] == pairs[i].1,
    decreases pairs.len(),
{
    if pairs.len() > 0 {
        let p = pairs.drop_last();
        lemma_pairs_map(p);
        assert forall|key: Seq<char>| #[trigger]
            pairs_map(pairs).contains_key(key) <==> exists|i: int|
                0 <= i < pairs.len() && pairs[i].0 == key by {
            if pairs_map(pairs).contains_key(key) {
                if key == pairs.last().0 {
                    assert(pairs[pairs.len() - 1].0 == key);
                } else {
                    assert(pairs_map(p).contains_key(key));
                    let i = choose|i: int| 0 <= i < p.len() && p[i].0 == key;
                    assert(p[i] == pairs[i]);
                    assert(pairs[i].0 == key);
                }
            }
            if exists|i: int| 0 <= i < pairs.len() && pairs[i].0 == key {
                let i = choose|i: int| 0 <= i < pairs.len() && pairs[i].0 == key;
                if i < pairs.len() - 1 {
                    assert(p[i].0 == key);
                }
            }
        }
        assert forall|i: int| 0 <= i < pairs.len() implies pairs_map(pairs)[#[trigger] pairs[i].0]
            == pairs[i].1 by {
            if i < pairs.len() - 1 {
                assert(p[i] == pairs[i]);
                assert(pairs[i].0 != pairs[pairs.len() - 1].0);
            }
        }
    }
}

/// The entries of an ordered map of strings, read in order, rebuild it.
pub proof fn lemma_text_pairs(m: &StrMap<String>)
    requires
        m.wf(),
    ensures
        pairs_map(text_pairs(m)) == m@.map_values(|v: String| v@),
        forall|i: int|
            0 <= i < text_pairs(m).len() ==> m@.contains_key(#[trigger] text_pairs(m)[i].0)
                && m@[text_pairs(m)[i].0]@ == text_pairs(m)[i].1,
{
    let q = m.pairs();
    let p = text_pairs(m);
    let view = m@.map_values(|v: String| v@);
    assert forall|i: int, j: int| 0 <= i < j < p.len() implies #[trigger] p[i].0
        != #[trigger] p[j].0 by {
        assert(seq_lt(q[i].0, q[j].0));
        if q[i].0 == q[j].0 {
            lemma_lt_irrefl(q[i].0);
        }
    }
    lemma_pairs_map(p);
    assert forall|i: int| 0 <= i < p.len() implies m@.contains_key(#[trigger] p[i].0)
        && m@[p[i].0]@ == p[i].1 by {
        assert(q[i].0 == p[i].0);
        let c = key_index(q, p[i].0);
        assert(0 <= c < q.len() && q[c].0 == p[i].0);
        if c != i {
            if c < i {
                assert(seq_lt(q[c].0, q[i].0));
            } else {
                assert(seq_lt(q[i].0, q[c].0));
            }
            lemma_lt_irrefl(q[i].0);
        }
    }
    assert forall|key: Seq<char>| #[trigger]
        pairs_map(p).contains_key(key) <==> view.contains_key(key) by {
        if view.contains_key(key) {
            let i = choose|i: int| 0 <= i < q.len() && q[i].0 == key;
            assert(p[i].0 == key);
        }
    }
    assert(pairs_map(p) =~= view) by {
        assert forall|key: Seq<char>| #[trigger]
            pairs_map(p).contains_key(key) implies pairs_map(p)[key] == view[key] by {
            let i = choose|i: int| 0 <= i < p.len() && p[i].0 == key;
        }
    }
}

impl Settings {
    /// The stashed lines and the palette overrides, read in order, rebuild
    /// themselves.
    proof fn lemma_saved_pairs(&self)
        requires
            self.wf(),
        ensures
            pairs_map(self.unknown_pairs()) == self@.unknown,
            pairs_map(self.palette_pairs()) == self@.palette,
            forall|i: int|
                0 <= i < self.unknown_pairs().len() ==> self@.unknown.contains_key(
                    #[trigger] self.unknown_pairs()[i].0,
                ) && self@.unknown[self.unknown_pairs()[i].0] == self.unknown_pairs()[i].1,
            forall|i: int|
                0 <= i < self.palette_pairs().len() ==> self@.palette.contains_key(
                    #[trigger] self.palette_pairs()[i].0,
                ) && self@.palette[self.palette_pairs()[i].0] == self.palette_pairs()[i].1,
    {
        lemma_text_pairs(&self.unknown);
        lemma_text_pairs(&self.palette_overrides);
    }
}

/// What reading the first `n` palette lines does.
proof fn lemma_palette_prefix(m: SettingsView, pairs: Seq<(Seq<char>, Seq<char>)>, n: int)
    requires
        0 <= n <= pairs.len(),
        forall|i: int| 0 <= i < pairs.len() ==> override_reloads(#[trigger] pairs[i].0, pairs[i].1),
    ensures
        ({
            let b = palette_text(pairs.take(n));
            &&& b.len() == 0 || b.last() == '\n'
            &&& apply_lines(m, spec_lines(b)) == SettingsView {
                palette: m.palette.union_prefer_right(pairs_map(pairs.take(n))),
                ..m
            }
            &&& float_lines(spec_lines(b)) == Seq::<(SettingKey, Seq<char>)>::empty()
        }),
    decreases n,
{
    let ps = pairs.take(n);
    if n == 0 {
        assert(ps =~= seq![]);
        assert(palette_text(ps) == Seq::<char>::empty());
        assert(spec_lines(Seq::<char>::empty()) =~= seq![]);
        assert(m.palette.union_prefer_right(Map::empty()) =~= m.palette);
    } else {
        reveal_strlit("\n");
        reveal_strlit("palette.");
        lemma_palette_prefix(m, pairs, n - 1);
        let prev = pairs.take(n - 1);
        assert(ps.drop_last() =~= prev);
        let (name, colour) = pairs[n - 1];
        assert(ps.last() == (name, colour));
        assert(override_reloads(name, colour));
        let key = palette_prefix() + name;
        assert(key.take(8) =~= palette_prefix());
        assert(key.skip(8) =~= name);
        assert(is_palette_key(key));
        assert forall|i: int| 0 <= i < key.len() implies key[i] != '=' by {
            if i >= 8 {
                assert(key[i] == name[i - 8]);
            }
        }
        assert(line_safe(key)) by {
            assert forall|i: int| 0 <= i < key.len() implies key[i] != '\n' && key[i] != '\r' by {
                if i >= 8 {
                    assert(key[i] == name[i - 8]);
                }
            }
            if name.len() > 0 {
                assert(key.last() == name.last());
            }
        }
        assert(spec_key_from_name(key) is None) by {
            if exists|k: SettingKey| #[trigger] spec_key_name(k) == key {
                let k = choose|k: SettingKey| #[trigger] spec_key_name(k) == key;
                lemma_from_name(k);
                assert(key[7] == '.');
                assert(is_name_char(spec_key_name(k)[7]));
            }
        }
        let b0 = palette_text(prev);
        let line = key + "="@ + colour;
        let b = palette_text(ps);
        assert(b =~= b0 + (line + "\n"@));
        lemma_split_named(key, colour);
        assert(line + "\n"@ =~= line.push('\n'));
        lemma_lines_single(line);
        lemma_lines_append(b0, line + "\n"@);
        let m0 = apply_lines(m, spec_lines(b0));
        lemma_apply_lines_append(m, spec_lines(b0), seq![line]);
        lemma_apply_one_line(m0, line);
        assert(m.palette.union_prefer_right(pairs_map(prev)).insert(name, colour) =~= m.palette.union_prefer_right(
            pairs_map(ps),
        ));
        assert(float_lines(spec_lines(b0)) + float_line(line) =~= Seq::<
            (SettingKey, Seq<char>),
        >::empty());
        assert(b.last() == '\n');
    }
}

/// What reading the first `n` stashed lines does.
proof fn lemma_stray_prefix(m: SettingsView, pairs: Seq<(Seq<char>, Seq<char>)>, n: int)
    requires
        0 <= n <= pairs.len(),
        forall|i: int| 0 <= i < pairs.len() ==> stray_reloads(#[trigger] pairs[i].0, pairs[i].1),
    ensures
        ({
            let b = pairs_text(pairs.take(n));
            &&& b.len() == 0 || b.last() == '\n'
            &&& apply_lines(m, spec_lines(b)) == SettingsView {
                unknown: m.unknown.union_prefer_right(pairs_map(pairs.take(n))),
                ..m
            }
            &&& float_lines(spec_lines(b)) == Seq::<(SettingKey, Seq<char>)>::empty()
        }),
    decreases n,
{
    let ps = pairs.take(n);
    if n == 0 {
        assert(ps =~= seq![]);
        assert(pairs_text(ps) == Seq::<char>::empty());
        assert(spec_lines(Seq::<char>::empty()) =~= seq![]);
        assert(m.unknown.union_prefer_right(Map::empty()) =~= m.unknown);
    } else {
        reveal_strlit("\n");
        lemma_stray_prefix(m, pairs, n - 1);
        let prev = pairs.take(n - 1);
        assert(ps.drop_last() =~= prev);
        let (key, value) = pairs[n - 1];
        assert(ps.last() == (key, value));
        assert(stray_reloads(key, value));
        let b0 = pairs_text(prev);
        let line = key + "="@ + value;
        let b = pairs_text(ps);
        assert(b =~= b0 + (line + "\n"@));
        lemma_split_named(key, value);
        assert(line + "\n"@ =~= line.push('\n'));
        lemma_lines_single(line);
        lemma_lines_append(b0, line + "\n"@);
        let m0 = apply_lines(m, spec_lines(b0));
        lemma_apply_lines_append(m, spec_lines(b0), seq![line]);
        lemma_apply_one_line(m0, line);
        lemma_no_newlines_id(value);
        assert(m.unknown.union_prefer_right(pairs_map(prev)).insert(key, value) =~= m.unknown.union_prefer_right(
            pairs_map(ps),
        ));
        assert(float_lines(spec_lines(b0)) + float_line(line) =~= Seq::<
            (SettingKey, Seq<char>),
        >::empty());
        assert(b.last() == '\n');
    }
}

/// Saving `s` and reading the text back into `t` restores every setting of
/// `s` that is not fractional, keeps `t`'s fractional values, adds the
/// palette overrides and stashed lines of `s` to those of `t`, and hands
/// back each fractional setting of `s` with its saved text, in registry
/// order — as long as everything in `s` reads back as itself.
pub proof fn lemma_serialize_round_trip(t: Settings, s: Settings)
    requires
        t.wf(),
        s.wf(),
        saves_cleanly(s@),
    ensures
        ({
            let lines = spec_lines(spec_serialize(&s));
            let r = apply_lines(t@, lines);
            &&& forall|k: SettingKey|
                !(spec_kind(k) is Float) ==> #[trigger] r.values[k] == s@.values[k]
            &&& forall|k: SettingKey| spec_kind(k) is Float ==> #[trigger] r.values[k] == t@.values[k]
            &&& r.unknown == t@.unknown.union_prefer_right(s@.unknown)
            &&& r.palette == t@.palette.union_prefer_right(s@.palette)
            &&& float_lines(lines) == float_entries(s@, spec_all_keys())
        }),
{
    let keys = spec_all_keys();
    assert forall|k: SettingKey| value_reloads(k, #[trigger] field_value(&s, k)) by {
        assert(s@.values[k] == field_value(&s, k));
    }
    lemma_known_prefix(t@, &s, keys.len() as int);
    assert(keys.take(keys.len() as int) =~= keys);
    let a = known_text(s@, keys);
    let m = apply_lines(t@, spec_lines(a));
    s.lemma_saved_pairs();
    let pp = s.palette_pairs();
    assert forall|i: int| 0 <= i < pp.len() implies override_reloads(#[trigger] pp[i].0, pp[i].1) by {
        assert(s@.palette.contains_key(pp[i].0));
    }
    lemma_palette_prefix(m, pp, pp.len() as int);
    assert(pp.take(pp.len() as int) =~= pp);
    let c = palette_text(pp);
    let m2 = apply_lines(m, spec_lines(c));
    let p = s.unknown_pairs();
    assert forall|i: int| 0 <= i < p.len() implies stray_reloads(#[trigger] p[i].0, p[i].1) by {
        assert(s@.unknown.contains_key(p[i].0));
    }
    lemma_stray_prefix(m2, p, p.len() as int);
    assert(p.take(p.len() as int) =~= p);
    let b = pairs_text(p);
    lemma_lines_append(a, c);
    assert((a + c).len() == 0 || (a + c).last() == '\n') by {
        if c.len() > 0 {
            assert((a + c).last() == c.last());
        }
    }
    lemma_lines_append(a + c, b);
    assert(a + c + b == spec_serialize(&s));
    lemma_apply_lines_append(t@, spec_lines(a), spec_lines(c));
    lemma_apply_lines_append(t@, spec_lines(a) + spec_lines(c), spec_lines(b));
    assert forall|k: SettingKey| #[trigger] keys.contains(k) by {
        lemma_all_keys_contains(k);
    }
    let none = Seq::<(SettingKey, Seq<char>)>::empty();
    assert(float_entries(s@, keys) + none + none =~= float_entries(s@, keys));
}

/// Storing a value into a setting and reading it back gives what the
/// setting's domain made of it — or the old value, when the domain refused
/// it; every other setting, the palette overrides and the stashed lines are
/// untouched.
pub proof fn lemma_set_then_get(m: SettingsView, k: SettingKey, v: SValue, j: SettingKey)
    ensures
        apply_set(m, k, v).values[k] == match set_effect(k, v) {
            Some(nv) => nv,
            None => m.values[k],
        },
        j != k ==> apply_set(m, k, v).values[j] == m.values[j],
        apply_set(m, k, v).palette == m.palette,
        apply_set(m, k, v).unknown == m.unknown,
{
    reveal(apply_set);
}

/// Each choice's stored token parses back to that choice.
pub proof fn lemma_choice_tokens_round_trip(t: Theme, i: IconTheme, s: NotesCacheScope)
    ensures
        spec_theme_parse(spec_theme_str(t)) == Some(t),
        spec_icon_theme_parse(spec_icon_theme_str(i)) == Some(i),
        spec_scope_parse(spec_scope_str(s)) == Some(s),
{
    reveal_strlit("dark");
    reveal_strlit("light");
    reveal_strlit("color");
    reveal_strlit("monochrome");
    reveal_strlit("workspace");
    reveal_strlit("user");
    assert("dark"@.len() != "light"@.len());
    assert("color"@.len() != "monochrome"@.len());
    assert("workspace"@.len() != "user"@.len());
}

/// The view's refresh interval and lookup timeout are the fields that hold
/// them.
pub proof fn lemma_interval_fields(s: &Settings)
    ensures
        s@.values[SettingKey::AppleNotesRefreshSecs] == SValue::Int(s.apple_notes_refresh_secs as int),
        s@.values[SettingKey::RhymeLookupTimeoutSecs] == SValue::Int(s.rhyme_lookup_timeout_secs as int),
{
}

/// A line the reader passes over: it has no `=`, or it names a setting
/// (not a fractional one, which goes back to the caller) whose value the
/// setting cannot take.
pub open spec fn skipped_line(line: Seq<char>) -> bool {
    match split_kv(line) {
        None => true,
        Some((key, raw)) => match spec_key_from_name(key) {
            Some(k) => !(spec_kind(k) is Float) && parse_model(spec_kind(k), raw) is None,
            None => false,
        },
    }
}

/// Reading a file whose every line is passed over changes no setting and
/// stashes nothing.
pub proof fn lemma_skipped_lines_change_nothing(m: SettingsView, lines: Seq<Seq<char>>)
    requires
        forall|i: int| 0 <= i < lines.len() ==> skipped_line(#[trigger] lines[i]),
    ensures
        apply_lines(m, lines) == m,
    decreases lines.len(),
{
    if lines.len() > 0 {
        assert(skipped_line(lines[0]));
        assert(apply_line(m, lines[0]) == m);
        assert forall|i: int| 0 <= i < lines.drop_first().len() implies skipped_line(
            #[trigger] lines.drop_first()[i],
        ) by {
            assert(lines.drop_first()[i] == lines[i + 1]);
        }
        lemma_skipped_lines_change_nothing(m, lines.drop_first());
    }
}

} // verus!
