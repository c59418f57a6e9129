//! The settings registry's vocabulary: the values a setting carries, the
//! domain each setting's raw file text is validated against, and the
//! category tree the settings dialog is organised by.

use vstd::prelude::*;
use crate::text::{
    all_digits, chars_of, eq_str, parse_i64, parse_int, render_i64, render_int, string_from,
};

verus! {

/// A serialised scalar, carried between the flat file, [`Settings::get`] /
/// [`Settings::set`] and the dialog. A fractional value travels as the
/// text it is written as (`"3.25"`), since its arithmetic lives with the
/// caller.
///
/// [`Settings::get`]: crate::setting::Settings::get
/// [`Settings::set`]: crate::setting::Settings::set
#[derive(Clone, PartialEq, Debug)]
pub enum SettingValue {
    Bool(bool),
    Int(i64),
    Float(String),
    Text(String),
}

/// What a [`SettingValue`] stands for.
pub enum SValue {
    Bool(bool),
    Int(int),
    Float(Seq<char>),
    Text(Seq<char>),
}

impl SettingValue {
    pub open spec fn view(&self) -> SValue {
        match self {
            SettingValue::Bool(b) => SValue::Bool(*b),
            SettingValue::Int(n) => SValue::Int(*n as int),
            SettingValue::Float(t) => SValue::Float(t@),
            SettingValue::Text(t) => SValue::Text(t@),
        }
    }

    /// Render for one `key=value` line. Text loses CR/LF so a pasted value
    /// can't split the line.
    pub fn render(&self) -> (out: String)
        ensures
            out@ == render_value(self@),
    {
        match self {
            SettingValue::Bool(b) => {
                if *b {
                    string_from(chars_of("true").as_slice())
                } else {
                    string_from(chars_of("false").as_slice())
                }
            },
            SettingValue::Int(n) => string_from(render_i64(*n).as_slice()),
            SettingValue::Float(t) => string_from(chars_of(t.as_str()).as_slice()),
            SettingValue::Text(t) => {
                let cs = chars_of(t.as_str());
                string_from(strip_newlines(&cs).as_slice())
            },
        }
    }
}

/// `t` without any `\n` or `\r`.
pub open spec fn no_newlines(t: Seq<char>) -> Seq<char> {
    t.filter(|c: char| c != '\n' && c != '\r')
}

/// Text without line breaks has nothing to strip.
pub proof fn lemma_no_newlines_id(t: Seq<char>)
    requires
        forall|i: int| 0 <= i < t.len() ==> t[i] != '\n' && t[i] != '\r',
    ensures
        no_newlines(t) == t,
    decreases t.len(),
{
    reveal(Seq::filter);
    if t.len() > 0 {
        lemma_no_newlines_id(t.drop_last());
        assert(t.drop_last().push(t.last()) =~= t);
    }
}

pub fn strip_newlines(t: &Vec<char>) -> (out: Vec<char>)
    ensures
        out@ == no_newlines(t@),
{
    let mut out: Vec<char> = Vec::new();
    let mut i: usize = 0;
    while i < t.len()
        invariant
            i <= t.len(),
            out@ == no_newlines(t@.take(i as int)),
        decreases t.len() - i,
    {
        proof {
            assert(t@.take(i + 1).drop_last() =~= t@.take(i as int));
            reveal_with_fuel(Seq::<_>::filter, 1);
        }
        if t[i] != '\n' && t[i] != '\r' {
            out.push(t[i]);
        }
        i += 1;
    }
    assert(t@.take(t.len() as int) =~= t@);
    out
}

/// The line text of a value.
pub open spec fn render_value(v: SValue) -> Seq<char> {
    match v {
        SValue::Bool(b) => if b {
            "true"@
        } else {
            "false"@
        },
        SValue::Int(n) => render_int(n),
        SValue::Float(t) => t,
        SValue::Text(t) => no_newlines(t),
    }
}

/// A setting's value type plus its validation domain. Fractional bounds are
/// kept as the decimal text they are written as.
#[derive(Clone, Copy)]
pub enum SettingKind {
    Bool,
    Int { min: i64, max: i64, step: i64 },
    /// A fractional number. `step` also fixes the spin button's shown
    /// decimal places.
    Float { min: &'static str, max: &'static str, step: &'static str },
    /// A closed set: `values` are the on-disk tokens, `labels` the UI
    /// strings — index-aligned, equal length.
    Enum { values: &'static [&'static str], labels: &'static [&'static str] },
    /// Free text.
    Text,
    /// A font family, paired with a [`SettingKind::FontSize`] field.
    Font,
    /// The size half of a font pair; loaded and saved as a clamped int.
    FontSize { min: i64, max: i64 },
}

pub open spec fn clamp_int(n: int, min: int, max: int) -> int {
    if n < min {
        min
    } else if n > max {
        max
    } else {
        n
    }
}

pub open spec fn token_list(values: &[&str]) -> Seq<Seq<char>> {
    values@.map_values(|s: &str| s@)
}

/// What one raw file value parses to under `kind`, or `None` when it is
/// unusable (unparseable, or an unknown enum token).
pub open spec fn spec_parse_clamped(kind: SettingKind, raw: Seq<char>) -> Option<SValue> {
    match kind {
        SettingKind::Bool => Some(SValue::Bool(raw == "true"@)),
        SettingKind::Int { min, max, .. } => match parse_int(raw) {
            Some(n) => Some(SValue::Int(clamp_int(n, min as int, max as int))),
            None => None,
        },
        SettingKind::FontSize { min, max } => match parse_int(raw) {
            Some(n) => Some(SValue::Int(clamp_int(n, min as int, max as int))),
            None => None,
        },
        SettingKind::Float { .. } => None,
        SettingKind::Enum { values, .. } => if token_list(values).contains(raw) {
            Some(SValue::Text(raw))
        } else {
            None
        },
        SettingKind::Text => if raw.len() > 0 {
            Some(SValue::Text(raw))
        } else {
            None
        },
        SettingKind::Font => if raw.len() > 0 {
            Some(SValue::Text(raw))
        } else {
            None
        },
    }
}

pub open spec fn kind_well_formed(kind: SettingKind) -> bool {
    match kind {
        SettingKind::Int { min, max, .. } => min <= max,
        SettingKind::FontSize { min, max } => min <= max,
        _ => true,
    }
}

fn clamp_i64(n: i64, min: i64, max: i64) -> (r: i64)
    requires
        min <= max,
    ensures
        r == clamp_int(n as int, min as int, max as int),
{
    if n < min {
        min
    } else if n > max {
        max
    } else {
        n
    }
}

impl SettingKind {
    /// Parse one raw file value, validating and clamping to the domain.
    /// `None` = unusable — the caller keeps the current field value.
    /// Fractional values are parsed by the caller, which owns their
    /// arithmetic.
    pub fn parse_clamped(&self, raw: &str) -> (r: Option<SettingValue>)
        requires
            !(self is Float),
            kind_well_formed(*self),
        ensures
            match r {
                Some(v) => spec_parse_clamped(*self, raw@) == Some(v@),
                None => spec_parse_clamped(*self, raw@) is None,
            },
    {
        let cs = chars_of(raw);
        match *self {
            SettingKind::Bool => Some(SettingValue::Bool(eq_str(cs.as_slice(), "true"))),
            SettingKind::Int { min, max, .. } => match parse_i64(cs.as_slice()) {
                Some(n) => Some(SettingValue::Int(clamp_i64(n, min, max))),
                None => None,
            },
            SettingKind::FontSize { min, max } => match parse_i64(cs.as_slice()) {
                Some(n) => Some(SettingValue::Int(clamp_i64(n, min, max))),
                None => None,
            },
            SettingKind::Float { .. } => None,
            SettingKind::Enum { values, labels } => {
                let mut i: usize = 0;
                while i < values.len()
                    invariant
                        i <= values.len(),
                        *self == (SettingKind::Enum { values, labels }),
                        cs@ == raw@,
                        forall|j: int| 0 <= j < i ==> token_list(values)[j] != raw@,
                    decreases values.len() - i,
                {
                    if eq_str(cs.as_slice(), values[i]) {
                        assert(token_list(values)[i as int] == raw@);
                        assert(token_list(values).contains(raw@));
                        return Some(SettingValue::Text(string_from(cs.as_slice())));
                    }
                    i += 1;
                }
                assert(!token_list(values).contains(raw@));
                None
            },
            SettingKind::Text | SettingKind::Font => {
                if cs.len() > 0 {
                    Some(SettingValue::Text(string_from(cs.as_slice())))
                } else {
                    None
                }
            },
        }
    }
}

/// Whether a change reaches open tabs / on-screen chrome without a
/// relaunch.
#[derive(Clone, Copy, PartialEq, Eq, Debug, Structural)]
pub enum LiveApply {
    /// Pushed to open editors.
    Editor,
    /// Applied by re-rendering the stylesheet.
    Css,
    EditorAndCss,
    /// A dedicated hook (icon variant swap, tree/chrome rebuild).
    Other,
    /// Read once at subsystem construction; a restart is required.
    Restart,
}

/// One declared setting: everything the file format and the dialog need.
pub struct SettingSpec {
    pub key: &'static str,
    pub kind: SettingKind,
    pub category: CategoryId,
    /// Sub-header within the page; `""` for the first, unlabelled group.
    pub group: &'static str,
    pub label: &'static str,
    /// Shown under the control; `""` for none.
    pub description: &'static str,
    pub live: LiveApply,
}

/// A node in the settings dialog's left-hand category tree.
#[derive(Clone, Copy, PartialEq, Eq, Hash, Debug, Structural)]
pub enum CategoryId {
    Appearance,
    AppearanceWindow,
    ColorScheme,
    EditorGeneral,
    EditorRhyme,
    EditorCompletion,
    EditorFileTree,
    Keymap,
    VersionControlGit,
    ToolsNetwork,
    Advanced,
}

/// One category-tree entry: its id, its parent (`None` = top level), its
/// sidebar/breadcrumb label, and the group name shown before the label in
/// the content header when it has no parent node of its own.
#[derive(Clone, Copy)]
pub struct CategoryNode {
    pub id: CategoryId,
    pub parent: Option<CategoryId>,
    pub label: &'static str,
    pub breadcrumb_parent: &'static str,
}

/// The parent each category hangs under.
pub open spec fn spec_category_parent(id: CategoryId) -> Option<CategoryId> {
    match id {
        CategoryId::AppearanceWindow => Some(CategoryId::Appearance),
        CategoryId::ColorScheme => Some(CategoryId::Appearance),
        CategoryId::EditorRhyme => Some(CategoryId::EditorGeneral),
        CategoryId::EditorCompletion => Some(CategoryId::EditorGeneral),
        CategoryId::EditorFileTree => Some(CategoryId::EditorGeneral),
        _ => None,
    }
}

/// The label a category shows in the sidebar and its breadcrumb.
pub open spec fn spec_category_label(id: CategoryId) -> Seq<char> {
    match id {
        CategoryId::Appearance => "Appearance"@,
        CategoryId::AppearanceWindow => "Window & Startup"@,
        CategoryId::ColorScheme => "Color Scheme"@,
        CategoryId::EditorGeneral => "Editor"@,
        CategoryId::EditorRhyme => "Rhyme Highlighting"@,
        CategoryId::EditorCompletion => "Completions"@,
        CategoryId::EditorFileTree => "File Tree"@,
        CategoryId::Keymap => "Keymap"@,
        CategoryId::VersionControlGit => "Git"@,
        CategoryId::ToolsNetwork => "Sources"@,
        CategoryId::Advanced => "Advanced Settings"@,
    }
}

/// The group name shown before a top-level category's label in the
/// content header; empty for none.
pub open spec fn spec_breadcrumb_parent(id: CategoryId) -> Seq<char> {
    match id {
        CategoryId::Appearance => "Appearance & Behavior"@,
        CategoryId::AppearanceWindow => ""@,
        CategoryId::ColorScheme => ""@,
        CategoryId::EditorGeneral => ""@,
        CategoryId::EditorRhyme => ""@,
        CategoryId::EditorCompletion => ""@,
        CategoryId::EditorFileTree => ""@,
        CategoryId::Keymap => ""@,
        CategoryId::VersionControlGit => "Version Control"@,
        CategoryId::ToolsNetwork => ""@,
        CategoryId::Advanced => ""@,
    }
}

/// Depth-first category order; the dialog renders it verbatim.
pub open spec fn spec_category_order() -> Seq<CategoryId> {
    seq![
        CategoryId::Appearance,
        CategoryId::AppearanceWindow,
        CategoryId::ColorScheme,
        CategoryId::EditorGeneral,
        CategoryId::EditorRhyme,
        CategoryId::EditorCompletion,
        CategoryId::EditorFileTree,
        CategoryId::Keymap,
        CategoryId::VersionControlGit,
        CategoryId::ToolsNetwork,
        CategoryId::Advanced,
    ]
}

fn category_node(
    id: CategoryId,
    label: &'static str,
    breadcrumb_parent: &'static str,
) -> (n: CategoryNode)
    requires
        label@ == spec_category_label(id),
        breadcrumb_parent@ == spec_breadcrumb_parent(id),
    ensures
        n.id == id,
        n.parent == spec_category_parent(id),
        n.label == label,
        n.breadcrumb_parent == breadcrumb_parent,
{
    let parent = match id {
        CategoryId::AppearanceWindow => Some(CategoryId::Appearance),
        CategoryId::ColorScheme => Some(CategoryId::Appearance),
        CategoryId::EditorRhyme => Some(CategoryId::EditorGeneral),
        CategoryId::EditorCompletion => Some(CategoryId::EditorGeneral),
        CategoryId::EditorFileTree => Some(CategoryId::EditorGeneral),
        _ => None,
    };
    CategoryNode { id, parent, label, breadcrumb_parent }
}

/// The whole category tree, depth-first.
pub fn category_tree() -> (t: Vec<CategoryNode>)
    ensures
        t@.len() == spec_category_order().len(),
        forall|i: int|
            0 <= i < t@.len() ==> #[trigger] t@[i].id == spec_category_order()[i] && t@[i].parent
                == spec_category_parent(t@[i].id) && t@[i].label@ == spec_category_label(t@[i].id)
                && t@[i].breadcrumb_parent@ == spec_breadcrumb_parent(t@[i].id),
{
    let mut t: Vec<CategoryNode> = Vec::new();
    t.push(category_node(CategoryId::Appearance, "Appearance", "Appearance & Behavior"));
    t.push(category_node(CategoryId::AppearanceWindow, "Window & Startup", ""));
    t.push(category_node(CategoryId::ColorScheme, "Color Scheme", ""));
    t.push(category_node(CategoryId::EditorGeneral, "Editor", ""));
    // "Editor" already comes from the parent chain.
    t.push(category_node(CategoryId::EditorRhyme, "Rhyme Highlighting", ""));
    t.push(category_node(CategoryId::EditorCompletion, "Completions", ""));
    t.push(category_node(CategoryId::EditorFileTree, "File Tree", ""));
    t.push(category_node(CategoryId::Keymap, "Keymap", ""));
    t.push(category_node(CategoryId::VersionControlGit, "Git", "Version Control"));
    t.push(category_node(CategoryId::ToolsNetwork, "Sources", ""));
    t.push(category_node(CategoryId::Advanced, "Advanced Settings", ""));
    t
}

} // verus!
