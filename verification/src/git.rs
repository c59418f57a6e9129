//! The decisions behind the app's git integration: how a commit author is
//! read from settings, how a file's status is bucketed for the file tree,
//! how a diff's hunks become per-line gutter marks, which ref chips a log
//! row shows, and what a pull or push does next. The repository itself is
//! driven by the app.

use vstd::prelude::*;
use std::collections::HashMap;
use crate::strmap::StrMap;
use crate::text::{
    chars_of, extend_str, find_char, find_from, render_u64, slice_vec, string_from,
    trim_chars, trim_seq, trim_str, render_int,
};
use crate::timestamp::{absolute_time, spec_absolute_time};

verus! {

broadcast use vstd::std_specs::hash::group_hash_axioms;

/// A file's status relative to HEAD, simplified to the categories the file
/// tree colours differently.
#[derive(Clone, Copy, PartialEq, Eq, Debug, Structural)]
pub enum GitFileStatus {
    New,
    Renamed,
    Modified,
}

/// Per-line change status of a file's current text against HEAD, for the
/// editor's gutter bars. `Deleted` marks the surviving line at the seam
/// where lines were removed.
#[derive(Clone, Copy, PartialEq, Eq, Debug, Structural)]
pub enum LineChange {
    Added,
    Modified,
    Deleted,
}

/// Where a history walk starts.
pub enum LogStart {
    /// The current `HEAD`.
    Head,
    /// A named branch or revision.
    Branch(String),
    /// Every ref — local and remote branches and tags.
    AllRefs,
}

/// Kind of ref pointing at a commit, for the coloured chips in the log.
#[derive(Clone, Copy, PartialEq, Eq, Debug, Structural)]
pub enum RefKind {
    Head,
    LocalBranch,
    RemoteBranch,
    Tag,
}

/// A ref label to chip onto a commit row in the log.
#[derive(Clone, Debug)]
pub struct RefLabel {
    pub name: String,
    pub kind: RefKind,
}

/// The repository the app works on.
pub struct GitController {
    repo_path: String,
}

impl GitController {
    pub closed spec fn path(&self) -> Seq<char> {
        self.repo_path@
    }

    pub fn new(repo_path: &str) -> (g: Self)
        ensures
            g.path() == repo_path@,
    {
        GitController { repo_path: string_from(chars_of(repo_path).as_slice()) }
    }

    /// The repository's path.
    pub fn repo_path(&self) -> (p: &str)
        ensures
            p@ == self.path(),
    {
        self.repo_path.as_str()
    }
}

/// `s` without any trailing `c`.
pub open spec fn trim_end_char(s: Seq<char>, c: char) -> Seq<char>
    decreases s.len(),
{
    if s.len() > 0 && s.last() == c {
        trim_end_char(s.drop_last(), c)
    } else {
        s
    }
}

/// The `(name, email)` an author string `"Name <email>"` stands for, or the
/// built-in fallback when it isn't in that shape.
pub open spec fn spec_parse_author(raw: Seq<char>) -> (Seq<char>, Seq<char>) {
    let fallback = ("Rhymr"@, "rhymr@local"@);
    match find_char(raw, '<') {
        Some(i) => {
            let name = trim_seq(raw.take(i));
            let email = trim_seq(trim_end_char(raw.skip(i + 1), '>'));
            if name.len() > 0 && email.len() > 0 {
                (name, email)
            } else {
                fallback
            }
        },
        None => fallback,
    }
}

fn trim_end_char_vec(s: &mut Vec<char>, c: char)
    ensures
        final(s)@ == trim_end_char(old(s)@, c),
{
    while s.len() > 0 && s[s.len() - 1] == c
        invariant
            trim_end_char(s@, c) == trim_end_char(old(s)@, c),
        decreases s.len(),
    {
        s.pop();
    }
}

/// Split a `"Name <email>"` author string into its parts, falling back to
/// a safe default if it isn't in that shape. Used only when git has no
/// identity configured.
pub fn parse_author(raw: &str) -> (r: (String, String))
    ensures
        (r.0@, r.1@) == spec_parse_author(raw@),
{
    let cs = chars_of(raw);
    assert(cs@.skip(0) =~= cs@);
    if let Some(i) = find_from(cs.as_slice(), '<', 0) {
        let name = trim_chars(slice_vec(cs.as_slice(), 0, i).as_slice());
        let mut rest = slice_vec(cs.as_slice(), i + 1, cs.len());
        proof {
            assert(cs@.subrange(0, i as int) =~= cs@.take(i as int));
            assert(cs@.subrange(i + 1, cs@.len() as int) =~= cs@.skip(i + 1));
        }
        trim_end_char_vec(&mut rest, '>');
        let email = trim_chars(rest.as_slice());
        if name.len() > 0 && email.len() > 0 {
            return (string_from(name.as_slice()), string_from(email.as_slice()));
        }
    }
    (string_from(chars_of("Rhymr").as_slice()), string_from(chars_of("rhymr@local").as_slice()))
}

/// The status bucket of a file from the flags git reports for it: ignored
/// files and unchanged ones get none; otherwise new wins over renamed,
/// which wins over modified (a renamed file whose content also changed
/// still reads as renamed).
pub fn classify_status(ignored: bool, new: bool, renamed: bool, modified: bool) -> (r: Option<
    GitFileStatus,
>)
    ensures
        r == if ignored {
            None
        } else if new {
            Some(GitFileStatus::New)
        } else if renamed {
            Some(GitFileStatus::Renamed)
        } else if modified {
            Some(GitFileStatus::Modified)
        } else {
            None
        },
{
    if ignored {
        None
    } else if new {
        Some(GitFileStatus::New)
    } else if renamed {
        Some(GitFileStatus::Renamed)
    } else if modified {
        Some(GitFileStatus::Modified)
    } else {
        None
    }
}

/// One hunk of a zero-context diff of HEAD's blob against the current text.
#[derive(Clone, Copy)]
pub struct Hunk {
    /// 1-based first line of the hunk in the current text.
    pub new_start: u32,
    /// Lines the hunk covers in the current text.
    pub new_lines: u32,
    /// Lines the hunk covers in HEAD's version.
    pub old_lines: u32,
}

/// `n - 1`, stopping at 0.
pub open spec fn dec_sat(n: int) -> int {
    if n > 0 {
        n - 1
    } else {
        0
    }
}

/// The gutter marks after applying one more hunk.
pub open spec fn apply_hunk(m: Map<usize, LineChange>, h: Hunk) -> Map<usize, LineChange> {
    let start = dec_sat(h.new_start as int);
    if h.new_lines == 0 {
        if m.contains_key(start as usize) {
            m
        } else {
            m.insert(start as usize, LineChange::Deleted)
        }
    } else {
        let kind = if h.old_lines == 0 {
            LineChange::Added
        } else {
            LineChange::Modified
        };
        Map::new(
            |l: usize| m.contains_key(l) || (start <= l < start + h.new_lines),
            |l: usize|
                if start <= l < start + h.new_lines {
                    kind
                } else {
                    m[l]
                },
        )
    }
}

/// The gutter marks of a sequence of hunks, applied in order.
pub open spec fn spec_hunk_changes(hunks: Seq<Hunk>) -> Map<usize, LineChange>
    decreases hunks.len(),
{
    if hunks.len() == 0 {
        Map::empty()
    } else {
        apply_hunk(spec_hunk_changes(hunks.drop_last()), hunks.last())
    }
}

/// The gutter marks every line of a changed hunk: for each hunk that
/// covers lines of the current text, every line it covers (0-based, from
/// its 1-based start) carries a mark, `Added` when HEAD had no lines there
/// and `Modified` otherwise — unless a later changed hunk covers that line
/// too. A pure deletion never unmarks or remarks a line already marked.
pub proof fn lemma_hunk_lines_marked(hunks: Seq<Hunk>, k: int, l: usize)
    requires
        0 <= k < hunks.len(),
        hunks[k].new_lines > 0,
        ({
            let s: int = if hunks[k].new_start > 0 { hunks[k].new_start - 1 } else { 0 };
            s <= l < s + hunks[k].new_lines
        }),
        forall|j: int|
            k < j < hunks.len() && #[trigger] hunks[j].new_lines > 0 ==> {
                let s: int = if hunks[j].new_start > 0 { hunks[j].new_start - 1 } else { 0 };
                !(s <= l < s + hunks[j].new_lines)
            },
    ensures
        spec_hunk_changes(hunks).contains_key(l),
        spec_hunk_changes(hunks)[l] == (if hunks[k].old_lines == 0 {
            LineChange::Added
        } else {
            LineChange::Modified
        }),
    decreases hunks.len(),
{
    let n = hunks.len();
    let p = hunks.drop_last();
    if k < n - 1 {
        assert forall|j: int| k < j < p.len() && #[trigger] p[j].new_lines > 0 implies {
            let s: int = if p[j].new_start > 0 { p[j].new_start - 1 } else { 0 };
            !(s <= l < s + p[j].new_lines)
        } by {
            assert(p[j] == hunks[j]);
            assert(hunks[j].new_lines > 0);
        }
        assert(p[k] == hunks[k]);
        lemma_hunk_lines_marked(p, k, l);
        let last = hunks[n - 1];
        assert(hunks.last() == last);
        if last.new_lines > 0 {
            assert(hunks[n - 1].new_lines > 0);
        }
    }
}

/// No hunk marks a line outside the lines it covers: a line the gutter
/// marks lies in some changed hunk's lines, or is the line just after a
/// pure deletion.
pub proof fn lemma_hunk_marks_come_from_hunks(hunks: Seq<Hunk>, l: usize)
    requires
        spec_hunk_changes(hunks).contains_key(l),
    ensures
        exists|j: int|
            0 <= j < hunks.len() && {
                let s: int = if (#[trigger] hunks[j]).new_start > 0 { hunks[j].new_start - 1 } else { 0 };
                if hunks[j].new_lines > 0 {
                    s <= l < s + hunks[j].new_lines
                } else {
                    l == s
                }
            },
    decreases hunks.len(),
{
    let n = hunks.len();
    let p = hunks.drop_last();
    let last = hunks[n - 1];
    assert(hunks.last() == last);
    let s: int = if last.new_start > 0 { last.new_start - 1 } else { 0 };
    let here = if last.new_lines > 0 { s <= l < s + last.new_lines } else { l == s };
    if !here {
        assert(spec_hunk_changes(p).contains_key(l));
        lemma_hunk_marks_come_from_hunks(p, l);
        let j = choose|j: int|
            0 <= j < p.len() && {
                let s: int = if (#[trigger] p[j]).new_start > 0 { p[j].new_start - 1 } else { 0 };
                if p[j].new_lines > 0 {
                    s <= l < s + p[j].new_lines
                } else {
                    l == s
                }
            };
        assert(hunks[j] == p[j]);
    } else {
        assert(hunks[n - 1] == last);
    }
}

/// A hunk's lines fit the index range.
pub open spec fn hunk_fits(h: Hunk) -> bool {
    dec_sat(h.new_start as int) + h.new_lines <= usize::MAX
}

/// Per-line gutter marks from a diff's hunks: a pure deletion flags the
/// line just after the removed block (unless an earlier hunk marked it);
/// otherwise every line of the hunk is marked added (nothing there before)
/// or modified.
pub fn hunk_changes(hunks: &[Hunk]) -> (m: HashMap<usize, LineChange>)
    requires
        forall|i: int| 0 <= i < hunks@.len() ==> hunk_fits(#[trigger] hunks@[i]),
    ensures
        m@ == spec_hunk_changes(hunks@),
{
    let mut m: HashMap<usize, LineChange> = HashMap::new();
    let mut h: usize = 0;
    assert(hunks@.take(0) =~= Seq::<Hunk>::empty());
    while h < hunks.len()
        invariant
            h <= hunks.len(),
            forall|i: int| 0 <= i < hunks@.len() ==> hunk_fits(#[trigger] hunks@[i]),
            m@ == spec_hunk_changes(hunks@.take(h as int)),
        decreases hunks.len() - h,
    {
        let hunk = hunks[h];
        assert(hunk_fits(hunks@[h as int]));
        let ghost before = m@;
        let start: usize = if hunk.new_start > 0 {
            (hunk.new_start - 1) as usize
        } else {
            0
        };
        if hunk.new_lines == 0 {
            if !m.contains_key(&start) {
                m.insert(start, LineChange::Deleted);
            }
        } else {
            let kind = if hunk.old_lines == 0 {
                LineChange::Added
            } else {
                LineChange::Modified
            };
            let end: usize = start + hunk.new_lines as usize;
            let mut line: usize = start;
            while line < end
                invariant
                    start <= line <= end,
                    end == start + hunk.new_lines,
                    m@ == Map::new(
                        |l: usize| before.contains_key(l) || (start <= l < line),
                        |l: usize|
                            if start <= l < line {
                                kind
                            } else {
                                before[l]
                            },
                    ),
                decreases end - line,
            {
                m.insert(line, kind);
                line += 1;
                assert(m@ =~= Map::new(
                    |l: usize| before.contains_key(l) || (start <= l < line),
                    |l: usize|
                        if start <= l < line {
                            kind
                        } else {
                            before[l]
                        },
                ));
            }
        }
        proof {
            let t = hunks@.take(h + 1);
            assert(t.drop_last() =~= hunks@.take(h as int));
            assert(t.last() == hunk);
            assert(m@ =~= apply_hunk(before, hunk));
        }
        h += 1;
    }
    assert(hunks@.take(hunks@.len() as int) =~= hunks@);
    m
}

/// The gutter marks of a file HEAD doesn't have: every one of its
/// `line_count` lines is new.
pub fn all_added(line_count: usize) -> (m: HashMap<usize, LineChange>)
    ensures
        m@ == Map::new(|l: usize| l < line_count, |l: usize| LineChange::Added),
{
    let mut m: HashMap<usize, LineChange> = HashMap::new();
    let mut line: usize = 0;
    while line < line_count
        invariant
            line <= line_count,
            m@ == Map::new(|l: usize| l < line, |l: usize| LineChange::Added),
        decreases line_count - line,
    {
        m.insert(line, LineChange::Added);
        line += 1;
        assert(m@ =~= Map::new(|l: usize| l < line, |l: usize| LineChange::Added));
    }
    m
}

/// The one-line report of a fetch that brought `received` objects from
/// `remote`.
pub fn fetch_summary(received: u64, remote: &str) -> (s: String)
    ensures
        s@ == if received == 0 {
            "Already up to date."@
        } else {
            "Fetched "@ + render_int(received as int) + " object(s) from "@ + remote@ + "."@
        },
{
    if received == 0 {
        return string_from(chars_of("Already up to date.").as_slice());
    }
    let mut out: Vec<char> = Vec::new();
    extend_str(&mut out, "Fetched ");
    let n = render_u64(received);
    crate::text::extend_chars(&mut out, n.as_slice());
    extend_str(&mut out, " object(s) from ");
    extend_str(&mut out, remote);
    extend_str(&mut out, ".");
    string_from(out.as_slice())
}


/// What a pull does once the fetched commit has been compared with the
/// branch.
pub enum PullStep {
    /// Nothing new; the report to show.
    UpToDate(String),
    /// Move the branch's ref to the fetched commit, then report.
    FastForward { refname: String, message: String },
}

/// The name of local branch `branch`'s ref.
pub open spec fn branch_ref(branch: Seq<char>) -> Seq<char> {
    "refs/heads/"@ + branch
}

/// A pull's next step from the merge analysis of the fetched commit: done
/// when the branch is up to date; a fast-forward when that is possible;
/// otherwise an error, as merging diverged branches is left to the user.
pub fn pull_step(branch: &str, remote: &str, up_to_date: bool, fast_forward: bool) -> (r: Result<
    PullStep,
    String,
>)
    ensures
        up_to_date ==> (r matches Ok(PullStep::UpToDate(m)) && m@ == "Already up to date."@),
        !up_to_date && !fast_forward ==> (r matches Err(e) && e@ == "'"@ + branch@
            + "' has diverged from "@ + remote@ + "/"@ + branch@
            + " \u{2014} can't fast-forward. Resolve manually."@),
        !up_to_date && fast_forward ==> (r matches Ok(PullStep::FastForward { refname, message })
            && refname@ == branch_ref(branch@) && message@ == "Fast-forwarded '"@ + branch@
            + "' to "@ + remote@ + "/"@ + branch@ + "."@),
{
    if up_to_date {
        return Ok(PullStep::UpToDate(string_from(chars_of("Already up to date.").as_slice())));
    }
    if !fast_forward {
        let mut e: Vec<char> = Vec::new();
        extend_str(&mut e, "'");
        extend_str(&mut e, branch);
        extend_str(&mut e, "' has diverged from ");
        extend_str(&mut e, remote);
        extend_str(&mut e, "/");
        extend_str(&mut e, branch);
        extend_str(&mut e, " \u{2014} can't fast-forward. Resolve manually.");
        return Err(string_from(e.as_slice()));
    }
    let mut refname: Vec<char> = Vec::new();
    extend_str(&mut refname, "refs/heads/");
    extend_str(&mut refname, branch);
    let mut m: Vec<char> = Vec::new();
    extend_str(&mut m, "Fast-forwarded '");
    extend_str(&mut m, branch);
    extend_str(&mut m, "' to ");
    extend_str(&mut m, remote);
    extend_str(&mut m, "/");
    extend_str(&mut m, branch);
    extend_str(&mut m, ".");
    Ok(PullStep::FastForward {
        refname: string_from(refname.as_slice()),
        message: string_from(m.as_slice()),
    })
}

/// The refspec that pushes local branch `branch` to the same branch name
/// on the remote.
pub fn push_refspec(branch: &str) -> (r: String)
    ensures
        r@ == branch_ref(branch@) + ":"@ + branch_ref(branch@),
{
    let mut out: Vec<char> = Vec::new();
    extend_str(&mut out, "refs/heads/");
    extend_str(&mut out, branch);
    extend_str(&mut out, ":refs/heads/");
    extend_str(&mut out, branch);
    proof {
        reveal_strlit("refs/heads/");
        reveal_strlit(":refs/heads/");
        reveal_strlit(":");
        assert(":refs/heads/"@ =~= ":"@ + "refs/heads/"@);
        assert(out@ =~= branch_ref(branch@) + ":"@ + branch_ref(branch@));
    }
    string_from(out.as_slice())
}

/// The report of a push of `branch` to `remote`.
pub fn push_summary(branch: &str, remote: &str) -> (r: String)
    ensures
        r@ == "Pushed '"@ + branch@ + "' to "@ + remote@ + "."@,
{
    let mut out: Vec<char> = Vec::new();
    extend_str(&mut out, "Pushed '");
    extend_str(&mut out, branch);
    extend_str(&mut out, "' to ");
    extend_str(&mut out, remote);
    extend_str(&mut out, ".");
    string_from(out.as_slice())
}

/// The error a pull or push gives with no current branch: `op` is `pull`
/// or `push`.
pub fn detached_head(op: &str) -> (r: String)
    ensures
        r@ == "Detached HEAD \u{2014} can't "@ + op@,
{
    let mut out: Vec<char> = Vec::new();
    extend_str(&mut out, "Detached HEAD \u{2014} can't ");
    extend_str(&mut out, op);
    string_from(out.as_slice())
}


/// A reference's kind from what libgit2 reports of it: a local branch, a
/// remote-tracking branch or a tag; `None` for any other ref.
pub fn ref_kind(is_branch: bool, is_remote: bool, is_tag: bool) -> (r: Option<RefKind>)
    ensures
        r == if is_branch {
            Some(RefKind::LocalBranch)
        } else if is_remote {
            Some(RefKind::RemoteBranch)
        } else if is_tag {
            Some(RefKind::Tag)
        } else {
            None::<RefKind>
        },
{
    if is_branch {
        Some(RefKind::LocalBranch)
    } else if is_remote {
        Some(RefKind::RemoteBranch)
    } else if is_tag {
        Some(RefKind::Tag)
    } else {
        None
    }
}

/// A reference as the log's chips need it: the commit it points at (as its
/// id text), its kind, and its short name.
pub struct RefEntry {
    pub commit: String,
    pub kind: RefKind,
    pub name: String,
}

pub open spec fn ref_view(r: RefEntry) -> (Seq<char>, RefKind, Seq<char>) {
    (r.commit@, r.kind, r.name@)
}

pub open spec fn ref_views(v: Seq<RefEntry>) -> Seq<(Seq<char>, RefKind, Seq<char>)> {
    v.map_values(|e: RefEntry| ref_view(e))
}

pub open spec fn head_view(head: Option<String>) -> Option<Seq<char>> {
    match head {
        Some(h) => Some(h@),
        None => None,
    }
}

pub open spec fn label_view(l: RefLabel) -> (Seq<char>, RefKind) {
    (l.name@, l.kind)
}

pub open spec fn label_views(v: Seq<RefLabel>) -> Seq<(Seq<char>, RefKind)> {
    v.map_values(|l: RefLabel| label_view(l))
}

/// The chips of commit `id` from `refs`, in ref order; refs with an empty
/// name get none.
pub open spec fn labels_for(refs: Seq<(Seq<char>, RefKind, Seq<char>)>, id: Seq<char>) -> Seq<
    (Seq<char>, RefKind),
>
    decreases refs.len(),
{
    if refs.len() == 0 {
        seq![]
    } else {
        let l = labels_for(refs.drop_last(), id);
        let r = refs.last();
        if r.0 == id && r.2.len() > 0 {
            l.push((r.2, r.1))
        } else {
            l
        }
    }
}

/// Every chip of commit `id`: its refs' chips, then a `HEAD` chip when
/// HEAD points at it.
pub open spec fn chips_for(
    refs: Seq<(Seq<char>, RefKind, Seq<char>)>,
    head: Option<Seq<char>>,
    id: Seq<char>,
) -> Seq<(Seq<char>, RefKind)> {
    labels_for(refs, id) + if head == Some(id) {
        seq![("HEAD"@, RefKind::Head)]
    } else {
        seq![]
    }
}

fn copy_labels(v: &Vec<RefLabel>) -> (r: Vec<RefLabel>)
    ensures
        label_views(r@) == label_views(v@),
{
    let mut r: Vec<RefLabel> = Vec::new();
    let mut i: usize = 0;
    while i < v.len()
        invariant
            i <= v.len(),
            label_views(r@) == label_views(v@.take(i as int)),
        decreases v.len() - i,
    {
        r.push(RefLabel { name: v[i].name.clone(), kind: v[i].kind });
        assert(label_views(v@.take(i + 1)) =~= label_views(v@.take(i as int)).push(
            label_view(v@[i as int]),
        ));
        i += 1;
    }
    assert(v@.take(v@.len() as int) =~= v@);
    r
}

/// Append a chip to commit `id`'s list.
fn add_chip(map: &mut StrMap<Vec<RefLabel>>, id: &String, label: RefLabel)
    requires
        old(map).wf(),
    ensures
        final(map).wf(),
        final(map)@.dom() == old(map)@.dom().insert(id@),
        label_views(final(map)@[id@]@) == (if old(map)@.contains_key(id@) {
            label_views(old(map)@[id@]@)
        } else {
            seq![]
        }).push(label_view(label)),
        forall|k: Seq<char>| k != id@ && #[trigger] old(map)@.contains_key(k) ==> final(map)@[k] == old(map)@[k],
{
    let key = chars_of(id.as_str());
    let mut list = match map.get(key.as_slice()) {
        Some(v) => copy_labels(v),
        None => Vec::new(),
    };
    let ghost before = label_views(list@);
    list.push(label);
    assert(label_views(list@) =~= before.push(label_view(label)));
    map.insert(id.clone(), list);
}

/// The chips shown on log rows, by commit: every named ref's chip under the
/// commit it points at, in ref order, then a `HEAD` chip on HEAD's commit.
pub fn group_ref_labels(refs: &Vec<RefEntry>, head: Option<String>) -> (r: StrMap<Vec<RefLabel>>)
    ensures
        r.wf(),
        forall|id: Seq<char>|
            r@.contains_key(id) <==> #[trigger] chips_for(ref_views(refs@), head_view(head), id).len()
                > 0,
        forall|id: Seq<char>|
            #[trigger] r@.contains_key(id) ==> label_views(r@[id]@) == chips_for(
                ref_views(refs@),
                head_view(head),
                id,
            ),
{
    let ghost rv = ref_views(refs@);
    let mut map: StrMap<Vec<RefLabel>> = StrMap::new();
    let mut i: usize = 0;
    assert(rv.take(0) =~= Seq::<(Seq<char>, RefKind, Seq<char>)>::empty());
    while i < refs.len()
        invariant
            i <= refs.len(),
            rv == ref_views(refs@),
            map.wf(),
            forall|id: Seq<char>|
                map@.contains_key(id) <==> #[trigger] labels_for(rv.take(i as int), id).len() > 0,
            forall|id: Seq<char>|
                #[trigger] map@.contains_key(id) ==> label_views(map@[id]@) == labels_for(
                    rv.take(i as int),
                    id,
                ),
        decreases refs.len() - i,
    {
        let e = &refs[i];
        let ghost m0 = map@;
        let ghost prev = rv.take(i as int);
        proof {
            let t = rv.take(i + 1);
            assert(t.drop_last() =~= prev);
            assert(t.last() == rv[i as int]);
            assert(rv[i as int] == ref_view(refs@[i as int]));
            assert forall|id: Seq<char>| #[trigger] labels_for(t, id) == (if rv[i as int].0 == id
                && rv[i as int].2.len() > 0 {
                labels_for(prev, id).push((rv[i as int].2, rv[i as int].1))
            } else {
                labels_for(prev, id)
            }) by {}
        }
        if !e.name.as_str().is_empty() {
            add_chip(&mut map, &e.commit, RefLabel { name: e.name.clone(), kind: e.kind });
            proof {
                let t = rv.take(i + 1);
                assert forall|id: Seq<char>| map@.contains_key(id) <==> #[trigger] labels_for(t, id).len() > 0 by {
                    if id != e.commit@ {
                        assert(map@.dom().contains(id) == m0.dom().contains(id));
                    }
                }
                assert forall|id: Seq<char>| #[trigger] map@.contains_key(id) implies label_views(map@[id]@) == labels_for(t, id) by {
                    if id == e.commit@ {
                        if !m0.contains_key(id) {
                            assert(labels_for(prev, id).len() == 0);
                            assert(labels_for(prev, id) =~= Seq::<(Seq<char>, RefKind)>::empty());
                        }
                    } else {
                        assert(m0.contains_key(id));
                    }
                }
            }
        }
        i += 1;
    }
    assert(rv.take(rv.len() as int) =~= rv);
    let ghost hv = head_view(head);
    match head {
        Some(h) => {
            let ghost m0 = map@;
            add_chip(&mut map, &h, RefLabel { name: string_from(chars_of("HEAD").as_slice()), kind: RefKind::Head });
            assert forall|id: Seq<char>| map@.contains_key(id) <==> #[trigger] chips_for(rv, hv, id).len() > 0 by {
                if id != h@ {
                    assert(map@.dom().contains(id) == m0.dom().contains(id));
                }
            }
        },
        None => {
            assert forall|id: Seq<char>| #[trigger] chips_for(rv, hv, id) == labels_for(rv, id) by {
                assert(labels_for(rv, id) + Seq::<(Seq<char>, RefKind)>::empty() =~= labels_for(rv, id));
            }
        },
    }
    map
}

/// The CSS class of a ref chip, by the ref's kind.
pub fn ref_chip_class(label: &RefLabel) -> (r: &'static str)
    ensures
        r@ == match label.kind {
            RefKind::Head => "ref-head"@,
            RefKind::LocalBranch => "ref-local"@,
            RefKind::RemoteBranch => "ref-remote"@,
            RefKind::Tag => "ref-tag"@,
        },
{
    match label.kind {
        RefKind::Head => "ref-head",
        RefKind::LocalBranch => "ref-local",
        RefKind::RemoteBranch => "ref-remote",
        RefKind::Tag => "ref-tag",
    }
}

/// How a file changed in a commit, as the detail pane tells them apart.
#[derive(Clone, Copy, PartialEq, Eq, Debug, Structural)]
pub enum FileChange {
    Added,
    Deleted,
    Renamed,
    Copied,
    /// Modified, or any other change.
    Other,
}

/// The one-letter badge of a changed file and the CSS class that colours
/// it; a copy is coloured as a rename.
pub fn change_badge(change: FileChange) -> (r: (&'static str, &'static str))
    ensures
        (r.0@, r.1@) == match change {
            FileChange::Added => ("A"@, "file-added"@),
            FileChange::Deleted => ("D"@, "file-deleted"@),
            FileChange::Renamed => ("R"@, "file-renamed"@),
            FileChange::Copied => ("C"@, "file-renamed"@),
            FileChange::Other => ("M"@, "file-modified"@),
        },
{
    match change {
        FileChange::Added => ("A", "file-added"),
        FileChange::Deleted => ("D", "file-deleted"),
        FileChange::Renamed => ("R", "file-renamed"),
        FileChange::Copied => ("C", "file-renamed"),
        FileChange::Other => ("M", "file-modified"),
    }
}

/// What a commit's detail pane says about it.
pub struct CommitDetailText {
    /// The commit id, in full hex.
    pub id: String,
    pub author_name: String,
    pub author_email: String,
    pub committer_name: String,
    pub committer_email: String,
    /// Commit time, seconds since the Unix epoch.
    pub commit_time: i64,
    /// The whole commit message.
    pub body: String,
    /// How many files the commit changed.
    pub files: usize,
}

/// `name <email>` after `label`.
pub open spec fn person_line(label: Seq<char>, name: Seq<char>, email: Seq<char>) -> Seq<char> {
    label + name + " <"@ + email + ">"@
}

/// The text lines of a commit's detail pane, top to bottom: the id, the
/// author, the committer where it is someone else, the UTC date, the
/// message trimmed, and how many files changed.
pub open spec fn spec_detail_lines(d: CommitDetailText) -> Seq<Seq<char>> {
    let committer = if d.committer_email@ != d.author_email@ || d.committer_name@
        != d.author_name@ {
        seq![person_line("Committer: "@, d.committer_name@, d.committer_email@)]
    } else {
        Seq::empty()
    };
    seq!["commit "@ + d.id@, person_line("Author:    "@, d.author_name@, d.author_email@)]
        + committer + seq![
        "Date:      "@ + spec_absolute_time(d.commit_time as int),
        trim_seq(d.body@),
        render_int(d.files as int) + if d.files == 1 {
            " file changed"@
        } else {
            " files changed"@
        },
    ]
}

fn person(label: &str, name: &str, email: &str) -> (r: String)
    ensures
        r@ == person_line(label@, name@, email@),
{
    let mut out: Vec<char> = Vec::new();
    extend_str(&mut out, label);
    extend_str(&mut out, name);
    extend_str(&mut out, " <");
    extend_str(&mut out, email);
    extend_str(&mut out, ">");
    assert(out@ =~= person_line(label@, name@, email@));
    string_from(out.as_slice())
}

/// The detail pane's lines for commit `d`.
pub fn detail_lines(d: &CommitDetailText) -> (lines: Vec<String>)
    ensures
        lines@.map_values(|l: String| l@) == spec_detail_lines(*d),
{
    let mut lines: Vec<String> = Vec::new();
    let mut head: Vec<char> = Vec::new();
    extend_str(&mut head, "commit ");
    extend_str(&mut head, d.id.as_str());
    lines.push(string_from(head.as_slice()));
    lines.push(person("Author:    ", d.author_name.as_str(), d.author_email.as_str()));
    let ce = chars_of(d.committer_email.as_str());
    let ae = chars_of(d.author_email.as_str());
    let cn = chars_of(d.committer_name.as_str());
    let an = chars_of(d.author_name.as_str());
    let other = !crate::text::eq_chars(ce.as_slice(), ae.as_slice()) || !crate::text::eq_chars(
        cn.as_slice(),
        an.as_slice(),
    );
    if other {
        lines.push(person("Committer: ", d.committer_name.as_str(), d.committer_email.as_str()));
    }
    let mut date: Vec<char> = Vec::new();
    extend_str(&mut date, "Date:      ");
    let when = absolute_time(d.commit_time);
    extend_str(&mut date, when.as_str());
    lines.push(string_from(date.as_slice()));
    let body = trim_str(d.body.as_str());
    lines.push(string_from(body.as_slice()));
    let mut count = render_u64(d.files as u64);
    if d.files == 1 {
        extend_str(&mut count, " file changed");
    } else {
        extend_str(&mut count, " files changed");
    }
    lines.push(string_from(count.as_slice()));
    assert(lines@.map_values(|l: String| l@) =~= spec_detail_lines(*d));
    lines
}

} // verus!
