//! Per-workspace view state remembered between launches — which folders
//! are folded, how wide the left panel is, whether the rhyme-search panel
//! is open and how tall. The app keeps one map of these, keyed by workspace
//! root path, in a JSON file; losing it is cosmetic, never breaking.

use vstd::prelude::*;
use crate::strmap::StrMap;
use crate::text::{chars_of, string_from};

verus! {

/// Remembered view state for one workspace.
#[derive(Clone, PartialEq, Debug)]
pub struct WorkspaceSession {
    /// Folded project-tree directories, relative to the workspace root.
    pub collapsed_dirs: Vec<String>,
    /// Folded rows in the read-only source panel. `None` means the user has
    /// never touched the panel (every source section starts folded);
    /// `Some` is the exact folded set, authoritative even when empty.
    pub collapsed_sources: Option<Vec<String>>,
    /// Left panel width in px.
    pub left_panel_width: Option<i32>,
    /// Rhyme Search panel height in px, when it was last open.
    pub rhyme_panel_height: Option<i32>,
    /// Whether the Rhyme Search panel was open.
    pub rhyme_panel_visible: Option<bool>,
}

/// What a [`WorkspaceSession`] records.
pub struct SessionView {
    pub collapsed_dirs: Seq<Seq<char>>,
    pub collapsed_sources: Option<Seq<Seq<char>>>,
    pub left_panel_width: Option<i32>,
    pub rhyme_panel_height: Option<i32>,
    pub rhyme_panel_visible: Option<bool>,
}

pub open spec fn string_views(v: Seq<String>) -> Seq<Seq<char>> {
    v.map_values(|s: String| s@)
}

impl WorkspaceSession {
    pub open spec fn view(&self) -> SessionView {
        SessionView {
            collapsed_dirs: string_views(self.collapsed_dirs@),
            collapsed_sources: match self.collapsed_sources {
                Some(v) => Some(string_views(v@)),
                None => None,
            },
            left_panel_width: self.left_panel_width,
            rhyme_panel_height: self.rhyme_panel_height,
            rhyme_panel_visible: self.rhyme_panel_visible,
        }
    }

    /// A copy holding the same state.
    pub fn duplicate(&self) -> (r: WorkspaceSession)
        ensures
            r@ == self@,
    {
        WorkspaceSession {
            collapsed_dirs: copy_strings(&self.collapsed_dirs),
            collapsed_sources: match &self.collapsed_sources {
                Some(v) => Some(copy_strings(v)),
                None => None,
            },
            left_panel_width: self.left_panel_width,
            rhyme_panel_height: self.rhyme_panel_height,
            rhyme_panel_visible: self.rhyme_panel_visible,
        }
    }

    /// Whether two records hold the same state.
    pub fn same_as(&self, other: &WorkspaceSession) -> (r: bool)
        ensures
            r == (self@ == other@),
    {
        let sources_equal = match (&self.collapsed_sources, &other.collapsed_sources) {
            (Some(a), Some(b)) => strings_equal(a, b),
            (None, None) => true,
            _ => false,
        };
        strings_equal(&self.collapsed_dirs, &other.collapsed_dirs) && sources_equal
            && self.left_panel_width == other.left_panel_width && self.rhyme_panel_height
            == other.rhyme_panel_height && self.rhyme_panel_visible == other.rhyme_panel_visible
    }
}

/// The state of a never-saved workspace: nothing folded, no sizes.
pub open spec fn empty_session() -> SessionView {
    SessionView {
        collapsed_dirs: Seq::empty(),
        collapsed_sources: None,
        left_panel_width: None,
        rhyme_panel_height: None,
        rhyme_panel_visible: None,
    }
}

impl Default for WorkspaceSession {
    fn default() -> (s: Self)
        ensures
            s@ == empty_session(),
    {
        let s = WorkspaceSession {
            collapsed_dirs: Vec::new(),
            collapsed_sources: None,
            left_panel_width: None,
            rhyme_panel_height: None,
            rhyme_panel_visible: None,
        };
        assert(s@.collapsed_dirs =~= Seq::<Seq<char>>::empty());
        s
    }
}

fn copy_strings(v: &Vec<String>) -> (r: Vec<String>)
    ensures
        string_views(r@) == string_views(v@),
{
    let mut r: Vec<String> = Vec::new();
    let mut i: usize = 0;
    while i < v.len()
        invariant
            i <= v.len(),
            r.len() == i,
            forall|j: int| 0 <= j < i ==> r@[j]@ == v@[j]@,
        decreases v.len() - i,
    {
        let c = chars_of(v[i].as_str());
        r.push(string_from(c.as_slice()));
        i += 1;
    }
    assert(string_views(r@) =~= string_views(v@));
    r
}

fn strings_equal(a: &Vec<String>, b: &Vec<String>) -> (r: bool)
    ensures
        r == (string_views(a@) == string_views(b@)),
{
    if a.len() != b.len() {
        assert(string_views(a@).len() != string_views(b@).len());
        return false;
    }
    let mut i: usize = 0;
    while i < a.len()
        invariant
            i <= a.len(),
            a.len() == b.len(),
            forall|j: int| 0 <= j < i ==> a@[j]@ == b@[j]@,
        decreases a.len() - i,
    {
        let ca = chars_of(a[i].as_str());
        let cb = chars_of(b[i].as_str());
        if !crate::text::eq_chars(ca.as_slice(), cb.as_slice()) {
            assert(string_views(a@)[i as int] != string_views(b@)[i as int]);
            return false;
        }
        i += 1;
    }
    assert(string_views(a@) =~= string_views(b@));
    true
}

/// The state workspace `root` has in `sessions`: the stored one, else the
/// empty state.
pub open spec fn session_of(sessions: Map<Seq<char>, WorkspaceSession>, root: Seq<char>) -> SessionView {
    if sessions.contains_key(root) {
        sessions[root]@
    } else {
        empty_session()
    }
}

/// The remembered state for workspace `root` in `sessions` — the empty
/// state when this workspace has never been saved.
pub fn load(sessions: &StrMap<WorkspaceSession>, root: &str) -> (s: WorkspaceSession)
    requires
        sessions.wf(),
    ensures
        s@ == session_of(sessions@, root@),
{
    let key = chars_of(root);
    match sessions.get(key.as_slice()) {
        Some(s) => s.duplicate(),
        None => WorkspaceSession::default(),
    }
}

/// Store `edited` — the result of changing [`load`]'s answer for `root` —
/// as `root`'s state. Returns whether anything changed, i.e. whether the
/// map needs writing back.
pub fn update(sessions: &mut StrMap<WorkspaceSession>, root: &str, edited: WorkspaceSession) -> (changed: bool)
    requires
        old(sessions).wf(),
    ensures
        final(sessions).wf(),
        final(sessions)@ == old(sessions)@.insert(root@, edited),
        changed == (edited@ != session_of(old(sessions)@, root@)),
{
    let before = load(sessions, root);
    let changed = !edited.same_as(&before);
    sessions.insert(string_from(chars_of(root).as_slice()), edited);
    changed
}

/// After a workspace's edited state is stored, loading that workspace
/// gives the edited state back, and every other workspace loads as before.
pub proof fn lemma_update_then_load(
    sessions: Map<Seq<char>, WorkspaceSession>,
    root: Seq<char>,
    edited: WorkspaceSession,
    other: Seq<char>,
)
    ensures
        session_of(sessions.insert(root, edited), root) == edited@,
        other != root ==> session_of(sessions.insert(root, edited), other) == session_of(
            sessions,
            other,
        ),
{
}

} // verus!
