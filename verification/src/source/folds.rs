//! Which rows of the sources panel are folded: a source's section, or one
//! of its folders, each known by a key; toggling a row, and expanding or
//! collapsing a whole source at once.

use vstd::prelude::*;
use crate::source::model::{SourceFolder, SourceTree};
use crate::strmap::StrMap;
use crate::text::{chars_of, string_from};

verus! {

/// The key of source `id`'s section row.
pub open spec fn spec_section_key(id: Seq<char>) -> Seq<char> {
    seq!['\u{1}'] + id
}

/// The key of folder `name` under source `id` (a folder is known by its
/// own name, however deep it sits).
pub open spec fn spec_folder_key(id: Seq<char>, name: Seq<char>) -> Seq<char> {
    id + seq!['\u{1f}'] + name
}

/// The keys of `folders` and of every folder inside them, depth first,
/// each folder before what it holds.
pub open spec fn keys_in(id: Seq<char>, folders: Seq<SourceFolder>) -> Seq<Seq<char>>
    decreases folders,
{
    if folders.len() == 0 {
        Seq::empty()
    } else {
        let last = folders.last();
        proof {
            assert(decreases_to!(folders => folders[folders.len() - 1]));
            assert(decreases_to!(folders[folders.len() - 1] => folders[folders.len() - 1].folders));
        }
        keys_in(id, folders.subrange(0, folders.len() - 1)) + seq![spec_folder_key(id, last.name@)]
            + keys_in(id, last.folders@)
    }
}

/// The key of source `id`'s section row.
pub fn section_key(id: &str) -> (k: String)
    ensures
        k@ == spec_section_key(id@),
{
    let mut cs: Vec<char> = Vec::new();
    cs.push('\u{1}');
    let rest = chars_of(id);
    let mut i: usize = 0;
    while i < rest.len()
        invariant
            i <= rest@.len(),
            cs@ == seq!['\u{1}'] + rest@.take(i as int),
        decreases rest@.len() - i,
    {
        cs.push(rest[i]);
        assert(cs@ =~= seq!['\u{1}'] + rest@.take(i + 1));
        i += 1;
    }
    assert(rest@.take(rest@.len() as int) =~= id@);
    string_from(cs.as_slice())
}

/// The key of folder `name` under source `id`.
pub fn folder_key(id: &str, name: &str) -> (k: String)
    ensures
        k@ == spec_folder_key(id@, name@),
{
    let mut cs = chars_of(id);
    cs.push('\u{1f}');
    let rest = chars_of(name);
    let ghost start = cs@;
    let mut i: usize = 0;
    while i < rest.len()
        invariant
            i <= rest@.len(),
            cs@ == start + rest@.take(i as int),
        decreases rest@.len() - i,
    {
        cs.push(rest[i]);
        assert(cs@ =~= start + rest@.take(i + 1));
        i += 1;
    }
    assert(rest@.take(rest@.len() as int) =~= name@);
    assert(cs@ =~= spec_folder_key(id@, name@));
    string_from(cs.as_slice())
}

fn push_keys(out: &mut Vec<String>, id: &str, folders: &Vec<SourceFolder>)
    ensures
        final(out)@.map_values(|k: String| k@) == old(out)@.map_values(|k: String| k@) + keys_in(
            id@,
            folders@,
        ),
    decreases folders@,
{
    let ghost start = out@.map_values(|k: String| k@);
    let mut i: usize = 0;
    while i < folders.len()
        invariant
            i <= folders@.len(),
            out@.map_values(|k: String| k@) == start + keys_in(id@, folders@.take(i as int)),
        decreases folders@.len() - i,
    {
        let f = &folders[i];
        let ghost before = out@.map_values(|k: String| k@);
        let k = folder_key(id, f.name.as_str());
        out.push(k);
        assert(out@.map_values(|k: String| k@) =~= before.push(k@));
        proof {
            assert(decreases_to!(folders@ => folders@[i as int]));
            assert(decreases_to!(folders@[i as int] => folders@[i as int].folders));
            assert(decreases_to!(folders@[i as int].folders => folders@[i as int].folders@));
        }
        push_keys(out, id, &f.folders);
        proof {
            let t = folders@.take(i + 1);
            assert(t.subrange(0, t.len() - 1) =~= folders@.take(i as int));
            assert(t.last() == folders@[i as int]);
            assert(out@.map_values(|k: String| k@) =~= start + keys_in(id@, t));
        }
        i += 1;
    }
    assert(folders@.take(folders@.len() as int) =~= folders@);
}

/// The keys of every folder in `tree` under source `id`: what Expand All
/// and Collapse All of that source touch.
pub fn folder_keys(id: &str, tree: &SourceTree) -> (keys: Vec<String>)
    ensures
        keys@.map_values(|k: String| k@) == keys_in(id@, tree.folders@),
{
    let mut out: Vec<String> = Vec::new();
    push_keys(&mut out, id, &tree.folders);
    assert(Seq::<Seq<char>>::empty() + keys_in(id@, tree.folders@) =~= keys_in(id@, tree.folders@));
    out
}

/// The folded rows after row `key` is toggled.
pub open spec fn toggled(folded: Set<Seq<char>>, key: Seq<char>) -> Set<Seq<char>> {
    if folded.contains(key) {
        folded.remove(key)
    } else {
        folded.insert(key)
    }
}

/// Toggling a row twice leaves the panel as it was.
pub proof fn lemma_toggle_twice(folded: Set<Seq<char>>, key: Seq<char>)
    ensures
        toggled(toggled(folded, key), key) == folded,
{
    if folded.contains(key) {
        assert(folded.remove(key).insert(key) =~= folded);
    } else {
        assert(folded.insert(key).remove(key) =~= folded);
    }
}

proof fn lemma_push_to_set(s: Seq<Seq<char>>, x: Seq<char>)
    ensures
        s.push(x).to_set() == s.to_set().insert(x),
{
    assert forall|y: Seq<char>| s.push(x).to_set().contains(y) == s.to_set().insert(x).contains(y) by {
        if s.push(x).contains(y) && y != x {
            let j = choose|j: int| 0 <= j < s.push(x).len() && s.push(x)[j] == y;
            assert(s[j] == y);
        }
        if s.contains(y) {
            let j = choose|j: int| 0 <= j < s.len() && s[j] == y;
            assert(s.push(x)[j] == y);
        }
        if y == x {
            assert(s.push(x)[s.len() as int] == y);
        }
    }
    assert(s.push(x).to_set() =~= s.to_set().insert(x));
}

/// The folded rows of the sources panel.
pub struct Folds {
    collapsed: StrMap<bool>,
}

impl Folds {
    /// The keys of the folded rows.
    pub closed spec fn view(&self) -> Set<Seq<char>> {
        self.collapsed@.dom()
    }

    pub closed spec fn wf(&self) -> bool {
        self.collapsed.wf()
    }

    /// Nothing folded.
    pub fn new() -> (f: Self)
        ensures
            f.wf(),
            f.view() == Set::<Seq<char>>::empty(),
    {
        let f = Folds { collapsed: StrMap::new() };
        assert(f.view() =~= Set::<Seq<char>>::empty());
        f
    }

    /// Whether the row keyed `key` is folded.
    pub fn is_collapsed(&self, key: &str) -> (r: bool)
        requires
            self.wf(),
        ensures
            r == self.view().contains(key@),
    {
        let k = chars_of(key);
        self.collapsed.get(k.as_slice()).is_some()
    }

    /// Fold the row keyed `key`, or unfold it if it is folded.
    pub fn toggle(&mut self, key: String)
        requires
            old(self).wf(),
        ensures
            final(self).wf(),
            final(self).view() == toggled(old(self).view(), key@),
    {
        let k = chars_of(key.as_str());
        if self.collapsed.get(k.as_slice()).is_some() {
            self.collapsed.remove(k.as_slice());
            assert(self.view() =~= old(self).view().remove(key@));
        } else {
            self.collapsed.insert(key, true);
            assert(self.view() =~= old(self).view().insert(key@));
        }
    }

    /// Unfold source `id`'s section and every folder in its `tree`.
    pub fn expand_all(&mut self, id: &str, tree: &SourceTree)
        requires
            old(self).wf(),
        ensures
            final(self).wf(),
            final(self).view() == old(self).view().remove(spec_section_key(id@)).difference(
                keys_in(id@, tree.folders@).to_set(),
            ),
    {
        let section = section_key(id);
        let sk = chars_of(section.as_str());
        self.collapsed.remove(sk.as_slice());
        let keys = folder_keys(id, tree);
        let ghost ks = keys@.map_values(|k: String| k@);
        let ghost start = self.view();
        let mut i: usize = 0;
        while i < keys.len()
            invariant
                i <= keys@.len(),
                ks == keys@.map_values(|k: String| k@),
                self.wf(),
                self.view() == start.difference(ks.take(i as int).to_set()),
            decreases keys@.len() - i,
        {
            let k = chars_of(keys[i].as_str());
            self.collapsed.remove(k.as_slice());
            proof {
                assert(ks[i as int] == keys@[i as int]@);
                assert(ks.take(i + 1) =~= ks.take(i as int).push(ks[i as int]));
                lemma_push_to_set(ks.take(i as int), ks[i as int]);
                assert(self.view() =~= start.difference(ks.take(i + 1).to_set()));
            }
            i += 1;
        }
        assert(ks.take(ks.len() as int) =~= ks);
    }

    /// Fold every folder in source `id`'s `tree` (its section stays as it
    /// is).
    pub fn collapse_all(&mut self, id: &str, tree: &SourceTree)
        requires
            old(self).wf(),
        ensures
            final(self).wf(),
            final(self).view() == old(self).view().union(keys_in(id@, tree.folders@).to_set()),
    {
        let keys = folder_keys(id, tree);
        let ghost ks = keys@.map_values(|k: String| k@);
        let mut i: usize = 0;
        while i < keys.len()
            invariant
                i <= keys@.len(),
                ks == keys@.map_values(|k: String| k@),
                self.wf(),
                self.view() == old(self).view().union(ks.take(i as int).to_set()),
            decreases keys@.len() - i,
        {
            let k = string_from(chars_of(keys[i].as_str()).as_slice());
            self.collapsed.insert(k, true);
            proof {
                assert(ks[i as int] == keys@[i as int]@);
                assert(ks.take(i + 1) =~= ks.take(i as int).push(ks[i as int]));
                lemma_push_to_set(ks.take(i as int), ks[i as int]);
                assert(self.view() =~= old(self).view().union(ks.take(i + 1).to_set()));
            }
            i += 1;
        }
        assert(ks.take(ks.len() as int) =~= ks);
    }
}

} // verus!
