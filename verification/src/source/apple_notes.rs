//! Apple Notes as a text source. The notes themselves are read by the app
//! (macOS only); this side keeps the bodies of the last load, serves note
//! text from them, and turns the flat rows into the folder tree.

use vstd::prelude::*;
use super::TextSource;
use super::model::{DocId, SourceDoc, SourceFolder, SourceStatus, SourceTree};
use crate::config::{apple_notes_cache, spec_join};
use crate::platform::NoteRow;
use crate::setting::NotesCacheScope;
use crate::sort::{is_text_stable_order, stable_text_order};
use crate::strmap::StrMap;
use crate::text::{
    char_views, chars_of, eq_chars, extend_chars, extend_str, lowercase, string_from, to_lowercase,
    trim_seq,
    trim_str,
};

verus! {

/// The separator between a note's folder and title in its document id.
pub open spec fn id_separator() -> char {
    '\u{1f}'
}

/// A document id is `folder␟title`, so notes with the same title in
/// different folders stay distinct.
pub open spec fn spec_doc_id(folder: Seq<char>, title: Seq<char>) -> Seq<char> {
    folder + seq![id_separator()] + title
}

pub fn doc_id(folder: &str, title: &str) -> (d: DocId)
    ensures
        d.0@ == spec_doc_id(folder@, title@),
{
    let mut out = chars_of(folder);
    out.push('\u{1f}');
    extend_str(&mut out, title);
    DocId(string_from(out.as_slice()))
}

/// A row's folder: its name trimmed, or `Notes` when that is blank.
pub open spec fn folder_name(folder: Seq<char>) -> Seq<char> {
    if trim_seq(folder).len() == 0 {
        "Notes"@
    } else {
        trim_seq(folder)
    }
}

/// A row's title: trimmed, or `Untitled` when that is blank.
pub open spec fn title_name(title: Seq<char>) -> Seq<char> {
    if trim_seq(title).len() == 0 {
        "Untitled"@
    } else {
        trim_seq(title)
    }
}

pub open spec fn row_view(r: NoteRow) -> (Seq<char>, Seq<char>, Seq<char>) {
    (r.0@, r.1@, r.2@)
}

/// What a row becomes: its folder, and its document as `(id, title)`.
pub open spec fn row_entry(r: (Seq<char>, Seq<char>, Seq<char>)) -> (
    Seq<char>,
    (Seq<char>, Seq<char>),
) {
    let f = folder_name(r.0);
    let t = title_name(r.1);
    (f, (spec_doc_id(f, t), t))
}

pub open spec fn row_entries(rows: Seq<NoteRow>) -> Seq<(Seq<char>, (Seq<char>, Seq<char>))> {
    rows.map_values(|r: NoteRow| row_entry(row_view(r)))
}

/// Each name once, in order of first appearance.
pub open spec fn first_seen(names: Seq<Seq<char>>) -> Seq<Seq<char>>
    decreases names.len(),
{
    if names.len() == 0 {
        seq![]
    } else {
        let s = first_seen(names.drop_last());
        if s.contains(names.last()) {
            s
        } else {
            s.push(names.last())
        }
    }
}

/// The documents of folder `name`, in row order.
pub open spec fn docs_in(
    entries: Seq<(Seq<char>, (Seq<char>, Seq<char>))>,
    name: Seq<char>,
) -> Seq<(Seq<char>, Seq<char>)>
    decreases entries.len(),
{
    if entries.len() == 0 {
        seq![]
    } else {
        let d = docs_in(entries.drop_last(), name);
        if entries.last().0 == name {
            d.push(entries.last().1)
        } else {
            d
        }
    }
}

/// Every row's body under its document id; a later row with the same id
/// wins.
pub open spec fn bodies_of(rows: Seq<NoteRow>) -> Map<Seq<char>, Seq<char>>
    decreases rows.len(),
{
    if rows.len() == 0 {
        Map::empty()
    } else {
        bodies_of(rows.drop_last()).insert(
            row_entry(row_view(rows.last())).1.0,
            rows.last().2@,
        )
    }
}

pub open spec fn doc_view(d: SourceDoc) -> (Seq<char>, Seq<char>) {
    (d.id.0@, d.title@)
}

pub open spec fn lower_titles(docs: Seq<(Seq<char>, Seq<char>)>) -> Seq<Seq<char>> {
    docs.map_values(|d: (Seq<char>, Seq<char>)| lowercase(d.1))
}

/// `docs` stably sorted by lower-cased title.
pub open spec fn sorted_docs(out: Seq<SourceDoc>, docs: Seq<(Seq<char>, Seq<char>)>) -> bool {
    exists|order: Seq<usize>|
        #![trigger is_text_stable_order(lower_titles(docs), order)]
        is_text_stable_order(lower_titles(docs), order) && out.len() == docs.len() && forall|k: int|
            0 <= k < out.len() ==> doc_view(#[trigger] out[k]) == docs[order[k] as int]
}

/// Folder `f` is `name`, holding `docs` sorted by title and no subfolder.
pub open spec fn folder_holds(
    f: SourceFolder,
    name: Seq<char>,
    docs: Seq<(Seq<char>, Seq<char>)>,
) -> bool {
    &&& f.name@ == name
    &&& f.folders@.len() == 0
    &&& sorted_docs(f.docs@, docs)
}

pub open spec fn lower_names(names: Seq<Seq<char>>) -> Seq<Seq<char>> {
    names.map_values(|n: Seq<char>| lowercase(n))
}

/// The one-level tree of `rows`: a folder per distinct folder name, folders
/// stably sorted by lower-cased name, each holding its notes stably sorted
/// by lower-cased title.
pub open spec fn is_notes_tree(tree: SourceTree, rows: Seq<NoteRow>) -> bool {
    let entries = row_entries(rows);
    let names = first_seen(entries.map_values(|e: (Seq<char>, (Seq<char>, Seq<char>))| e.0));
    &&& tree.docs@.len() == 0
    &&& tree.folders@.len() == names.len()
    &&& exists|order: Seq<usize>|
        #![trigger is_text_stable_order(lower_names(names), order)]
        is_text_stable_order(lower_names(names), order) && forall|i: int|
            0 <= i < names.len() ==> folder_holds(
                #[trigger] tree.folders@[i],
                names[order[i] as int],
                docs_in(entries, names[order[i] as int]),
            )
}

/// A row's folder or title, trimmed, or `fallback` when that is blank.
fn name_or(raw: &str, fallback: &str) -> (r: Vec<char>)
    ensures
        r@ == if trim_seq(raw@).len() == 0 {
            fallback@
        } else {
            trim_seq(raw@)
        },
{
    let t = trim_str(raw);
    if t.len() == 0 {
        chars_of(fallback)
    } else {
        t
    }
}

/// Each row's folder, document id and title.
fn row_parts(rows: &Vec<NoteRow>) -> (r: (Vec<Vec<char>>, Vec<String>, Vec<String>))
    ensures
        r.0@.len() == rows@.len(),
        r.1@.len() == rows@.len(),
        r.2@.len() == rows@.len(),
        forall|i: int|
            0 <= i < rows@.len() ==> (r.0@[i]@, (r.1@[i]@, r.2@[i]@)) == #[trigger] row_entries(
                rows@,
            )[i],
{
    let mut folders: Vec<Vec<char>> = Vec::new();
    let mut ids: Vec<String> = Vec::new();
    let mut titles: Vec<String> = Vec::new();
    let mut i: usize = 0;
    while i < rows.len()
        invariant
            i <= rows.len(),
            folders@.len() == i,
            ids@.len() == i,
            titles@.len() == i,
            forall|j: int|
                0 <= j < i ==> (folders@[j]@, (ids@[j]@, titles@[j]@)) == #[trigger] row_entries(
                    rows@,
                )[j],
        decreases rows.len() - i,
    {
        let folder = name_or(rows[i].0.as_str(), "Notes");
        let title = name_or(rows[i].1.as_str(), "Untitled");
        let folder_s = string_from(folder.as_slice());
        let title_s = string_from(title.as_slice());
        let id = doc_id(folder_s.as_str(), title_s.as_str());
        assert(row_entries(rows@)[i as int] == row_entry(row_view(rows@[i as int])));
        folders.push(folder);
        ids.push(id.0);
        titles.push(title_s);
        i += 1;
    }
    (folders, ids, titles)
}

/// Each folder name once, in order of first appearance.
fn distinct_names(folders: &Vec<Vec<char>>) -> (names: Vec<Vec<char>>)
    ensures
        char_views(names@) == first_seen(char_views(folders@)),
{
    let ghost fs = char_views(folders@);
    let mut names: Vec<Vec<char>> = Vec::new();
    let mut i: usize = 0;
    assert(fs.take(0) =~= Seq::<Seq<char>>::empty());
    assert(char_views(names@) =~= Seq::<Seq<char>>::empty());
    while i < folders.len()
        invariant
            i <= folders.len(),
            fs == char_views(folders@),
            char_views(names@) == first_seen(fs.take(i as int)),
        decreases folders.len() - i,
    {
        let ghost seen = char_views(names@);
        let mut k: usize = 0;
        let mut found = false;
        while k < names.len() && !found
            invariant
                k <= names.len(),
                i < folders.len(),
                seen == char_views(names@),
                found ==> seen.contains(folders@[i as int]@),
                !found ==> forall|m: int| 0 <= m < k ==> seen[m] != folders@[i as int]@,
            decreases names.len() - k + if found { 0int } else { 1int },
        {
            if eq_chars(names[k].as_slice(), folders[i].as_slice()) {
                assert(seen[k as int] == folders@[i as int]@);
                found = true;
            } else {
                k += 1;
            }
        }
        proof {
            let t = fs.take(i + 1);
            assert(t.drop_last() =~= fs.take(i as int));
            assert(t.last() == folders@[i as int]@);
            if !found {
                assert(!seen.contains(folders@[i as int]@));
            }
        }
        if !found {
            let name = slice_all(&folders[i]);
            names.push(name);
            assert(char_views(names@) =~= seen.push(folders@[i as int]@));
        }
        i += 1;
    }
    assert(fs.take(folders@.len() as int) =~= fs);
    names
}

/// A copy of `v`.
fn slice_all(v: &Vec<char>) -> (r: Vec<char>)
    ensures
        r@ == v@,
{
    let mut r: Vec<char> = Vec::new();
    extend_chars(&mut r, v.as_slice());
    r
}

/// The parts of the documents in folder `name`, in row order.
fn docs_of(
    folders: &Vec<Vec<char>>,
    ids: &Vec<String>,
    titles: &Vec<String>,
    name: &Vec<char>,
    Ghost(entries): Ghost<Seq<(Seq<char>, (Seq<char>, Seq<char>))>>,
) -> (r: (Vec<String>, Vec<String>))
    requires
        folders@.len() == entries.len(),
        ids@.len() == entries.len(),
        titles@.len() == entries.len(),
        forall|i: int|
            0 <= i < entries.len() ==> (folders@[i]@, (ids@[i]@, titles@[i]@)) == #[trigger] entries[i],
    ensures
        r.0@.len() == r.1@.len(),
        docs_in(entries, name@) == Seq::new(r.0@.len(), |k: int| (r.0@[k]@, r.1@[k]@)),
{
    let mut sel_ids: Vec<String> = Vec::new();
    let mut sel_titles: Vec<String> = Vec::new();
    let mut i: usize = 0;
    assert(entries.take(0) =~= Seq::<(Seq<char>, (Seq<char>, Seq<char>))>::empty());
    assert(Seq::new(0, |k: int| (sel_ids@[k]@, sel_titles@[k]@)) =~= Seq::<(Seq<char>, Seq<char>)>::empty());
    while i < folders.len()
        invariant
            i <= folders.len(),
            folders@.len() == entries.len(),
            ids@.len() == entries.len(),
            titles@.len() == entries.len(),
            forall|j: int|
                0 <= j < entries.len() ==> (folders@[j]@, (ids@[j]@, titles@[j]@)) == #[trigger] entries[j],
            sel_ids@.len() == sel_titles@.len(),
            docs_in(entries.take(i as int), name@) == Seq::new(
                sel_ids@.len(),
                |k: int| (sel_ids@[k]@, sel_titles@[k]@),
            ),
        decreases folders.len() - i,
    {
        let ghost before = Seq::new(sel_ids@.len(), |k: int| (sel_ids@[k]@, sel_titles@[k]@));
        let hit = eq_chars(folders[i].as_slice(), name.as_slice());
        proof {
            let t = entries.take(i + 1);
            assert(t.drop_last() =~= entries.take(i as int));
            assert(t.last() == entries[i as int]);
        }
        if hit {
            sel_ids.push(ids[i].clone());
            sel_titles.push(titles[i].clone());
            assert(Seq::new(sel_ids@.len(), |k: int| (sel_ids@[k]@, sel_titles@[k]@)) =~= before.push(
                entries[i as int].1,
            ));
        }
        i += 1;
    }
    assert(entries.take(entries.len() as int) =~= entries);
    (sel_ids, sel_titles)
}

/// The lower-cased form of each string.
fn lowered(v: &Vec<String>) -> (r: Vec<Vec<char>>)
    ensures
        r@.len() == v@.len(),
        forall|i: int| 0 <= i < v@.len() ==> #[trigger] r@[i]@ == lowercase(v@[i]@),
{
    let mut r: Vec<Vec<char>> = Vec::new();
    let mut i: usize = 0;
    while i < v.len()
        invariant
            i <= v.len(),
            r@.len() == i,
            forall|j: int| 0 <= j < i ==> #[trigger] r@[j]@ == lowercase(v@[j]@),
        decreases v.len() - i,
    {
        let l = to_lowercase(v[i].as_str());
        r.push(chars_of(l.as_str()));
        i += 1;
    }
    r
}

/// Folder `name` holding the given documents, sorted by lower-cased title.
fn sorted_folder(name: &Vec<char>, ids: &Vec<String>, titles: &Vec<String>) -> (f: SourceFolder)
    requires
        ids@.len() == titles@.len(),
    ensures
        folder_holds(f, name@, Seq::new(ids@.len(), |k: int| (ids@[k]@, titles@[k]@))),
{
    let ghost docs = Seq::new(ids@.len(), |k: int| (ids@[k]@, titles@[k]@));
    let lower = lowered(titles);
    assert(char_views(lower@) =~= lower_titles(docs));
    let order = stable_text_order(&lower);
    let mut out: Vec<SourceDoc> = Vec::new();
    let mut k: usize = 0;
    while k < order.len()
        invariant
            k <= order@.len(),
            order@.len() == docs.len(),
            ids@.len() == docs.len(),
            titles@.len() == docs.len(),
            docs == Seq::new(ids@.len(), |k: int| (ids@[k]@, titles@[k]@)),
            is_text_stable_order(lower_titles(docs), order@),
            out@.len() == k,
            forall|m: int| 0 <= m < k ==> doc_view(#[trigger] out@[m]) == docs[order@[m] as int],
        decreases order@.len() - k,
    {
        let j = order[k];
        out.push(SourceDoc { id: DocId(ids[j].clone()), title: titles[j].clone() });
        k += 1;
    }
    let f = SourceFolder { name: string_from(name.as_slice()), folders: Vec::new(), docs: out };
    assert(sorted_docs(f.docs@, docs));
    f
}

pub struct AppleNotesSource {
    /// Bodies from the most recent load, keyed by document id text.
    bodies: StrMap<String>,
    /// Current workspace root — a per-workspace snapshot lives in its
    /// `.rhymr/`.
    workspace: Option<String>,
    /// Whether the Notes app exists here.
    on_macos: bool,
}

impl AppleNotesSource {
    pub closed spec fn is_ready(&self) -> bool {
        self.on_macos
    }

    pub closed spec fn workspace_root(&self) -> Option<Seq<char>> {
        match self.workspace {
            Some(w) => Some(w@),
            None => None,
        }
    }

    /// The note bodies of the last load, by document id.
    pub closed spec fn body_map(&self) -> Map<Seq<char>, Seq<char>> {
        self.bodies@.map_values(|b: String| b@)
    }

    pub closed spec fn wf(&self) -> bool {
        self.bodies.wf()
    }

    pub fn new(on_macos: bool) -> (s: Self)
        ensures
            s.wf(),
            s.is_ready() == on_macos,
            s.workspace_root() is None,
            s.body_map() == Map::<Seq<char>, Seq<char>>::empty(),
    {
        let s = AppleNotesSource { bodies: StrMap::new(), workspace: None, on_macos };
        assert(s.body_map() =~= Map::<Seq<char>, Seq<char>>::empty());
        s
    }

    /// Point the source at the current workspace, so a per-workspace
    /// snapshot lands in the right place.
    pub fn set_workspace(&mut self, root: Option<&str>)
        ensures
            final(self).workspace_root() == match root {
                Some(r) => Some(r@),
                None => None::<Seq<char>>,
            },
            final(self).body_map() == old(self).body_map(),
            final(self).wf() == old(self).wf(),
            final(self).is_ready() == old(self).is_ready(),
    {
        self.workspace = match root {
            Some(r) => Some(string_from(chars_of(r).as_slice())),
            None => None,
        };
    }

    /// Where this source's snapshot is kept under `scope`.
    pub fn cache_path(&self, scope: NotesCacheScope, config_dir: Option<&str>) -> (r: Option<String>)
        ensures
            match scope {
                NotesCacheScope::User => match config_dir {
                    Some(c) => r matches Some(p) && p@ == spec_join(
                        spec_join(c@, "rhymr"@),
                        "apple-notes.json"@,
                    ),
                    None => r is None,
                },
                NotesCacheScope::Workspace => match self.workspace_root() {
                    Some(w) => r matches Some(p) && p@ == spec_join(
                        spec_join(w, ".rhymr"@),
                        "apple-notes.json"@,
                    ),
                    None => r is None,
                },
            },
    {
        match &self.workspace {
            Some(w) => apple_notes_cache(Some(w.as_str()), scope, config_dir),
            None => apple_notes_cache(None, scope, config_dir),
        }
    }

    /// Turn flat `(folder, title, body)` rows into a one-level tree,
    /// remembering every body for [`Self::document_text`]. A blank folder is
    /// `Notes`, a blank title `Untitled`.
    pub fn ingest(&mut self, rows: Vec<NoteRow>) -> (tree: SourceTree)
        ensures
            final(self).wf(),
            final(self).body_map() == bodies_of(rows@),
            final(self).is_ready() == old(self).is_ready(),
            final(self).workspace_root() == old(self).workspace_root(),
            is_notes_tree(tree, rows@),
    {
        let (folders, ids, titles) = row_parts(&rows);
        let ghost entries = row_entries(rows@);
        let mut bodies: StrMap<String> = StrMap::new();
        let mut i: usize = 0;
        assert(rows@.take(0) =~= Seq::<NoteRow>::empty());
        assert(bodies@.map_values(|b: String| b@) =~= bodies_of(rows@.take(0)));
        while i < rows.len()
            invariant
                i <= rows.len(),
                ids@.len() == rows@.len(),
                entries == row_entries(rows@),
                forall|j: int|
                    0 <= j < rows@.len() ==> (folders@[j]@, (ids@[j]@, titles@[j]@)) == #[trigger] entries[j],
                bodies.wf(),
                bodies@.map_values(|b: String| b@) == bodies_of(rows@.take(i as int)),
            decreases rows.len() - i,
        {
            let ghost before = bodies@;
            bodies.insert(ids[i].clone(), rows[i].2.clone());
            proof {
                let t = rows@.take(i + 1);
                assert(t.drop_last() =~= rows@.take(i as int));
                assert(t.last() == rows@[i as int]);
                assert(entries[i as int] == row_entry(row_view(rows@[i as int])));
                assert(bodies@.map_values(|b: String| b@) =~= bodies_of(t));
            }
            i += 1;
        }
        assert(rows@.take(rows@.len() as int) =~= rows@);
        self.bodies = bodies;
        let names = distinct_names(&folders);
        let ghost all_names = entries.map_values(|e: (Seq<char>, (Seq<char>, Seq<char>))| e.0);
        assert(char_views(folders@) =~= all_names);
        let ghost name_views = char_views(names@);
        let mut name_strings: Vec<String> = Vec::new();
        let mut n: usize = 0;
        while n < names.len()
            invariant
                n <= names.len(),
                name_strings@.len() == n,
                forall|m: int| 0 <= m < n ==> #[trigger] name_strings@[m]@ == names@[m]@,
            decreases names.len() - n,
        {
            name_strings.push(string_from(names[n].as_slice()));
            n += 1;
        }
        let lower = lowered(&name_strings);
        assert(char_views(lower@) =~= lower_names(name_views));
        let order = stable_text_order(&lower);
        let mut out: Vec<SourceFolder> = Vec::new();
        let mut k: usize = 0;
        while k < order.len()
            invariant
                k <= order@.len(),
                order@.len() == names@.len(),
                name_views == char_views(names@),
                is_text_stable_order(lower_names(name_views), order@),
                folders@.len() == entries.len(),
                ids@.len() == entries.len(),
                titles@.len() == entries.len(),
                forall|j: int|
                    0 <= j < entries.len() ==> (folders@[j]@, (ids@[j]@, titles@[j]@)) == #[trigger] entries[j],
                out@.len() == k,
                forall|m: int|
                    0 <= m < k ==> folder_holds(
                        #[trigger] out@[m],
                        name_views[order@[m] as int],
                        docs_in(entries, name_views[order@[m] as int]),
                    ),
            decreases order@.len() - k,
        {
            let j = order[k];
            let (sel_ids, sel_titles) = docs_of(&folders, &ids, &titles, &names[j], Ghost(entries));
            let f = sorted_folder(&names[j], &sel_ids, &sel_titles);
            assert(names@[j as int]@ == name_views[j as int]);
            out.push(f);
            k += 1;
        }
        let tree = SourceTree { folders: out, docs: Vec::new() };
        assert(is_notes_tree(tree, rows@));
        tree
    }

    /// The body of document `id` from the last load; `None` on a miss (the
    /// caller then reloads and asks again).
    pub fn document_text(&self, id: &DocId) -> (r: Option<String>)
        requires
            self.wf(),
        ensures
            match r {
                Some(b) => self.body_map().contains_key(id.0@) && b@ == self.body_map()[id.0@],
                None => !self.body_map().contains_key(id.0@),
            },
    {
        let key = chars_of(id.0.as_str());
        match self.bodies.get(key.as_slice()) {
            Some(b) => Some(string_from(chars_of(b.as_str()).as_slice())),
            None => None,
        }
    }
}

impl TextSource for AppleNotesSource {
    fn id(&self) -> (r: &'static str)
        ensures
            r@ == "apple-notes"@,
    {
        "apple-notes"
    }

    fn label(&self) -> (r: &'static str)
        ensures
            r@ == "Apple Notes"@,
    {
        "Apple Notes"
    }

    fn icon(&self) -> (r: &'static str)
        ensures
            r@ == "folder-ios"@,
    {
        "folder-ios"
    }

    fn status(&self) -> (r: SourceStatus)
        ensures
            self.is_ready() ==> r == SourceStatus::Ready,
            !self.is_ready() ==> (r matches SourceStatus::Unavailable(m) && m@
                == "Apple Notes is macOS only"@),
    {
        if self.on_macos {
            SourceStatus::Ready
        } else {
            SourceStatus::Unavailable(string_from(chars_of("Apple Notes is macOS only").as_slice()))
        }
    }
}

} // verus!
