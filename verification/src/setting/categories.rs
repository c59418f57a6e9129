//! Questions the settings dialog asks of the category tree: a category's
//! entry, whether it has children, how deep it sits, its breadcrumb, and
//! whether it matches a search.

use vstd::prelude::*;
use super::spec::{
    category_tree, spec_breadcrumb_parent, spec_category_label, spec_category_order,
    spec_category_parent, CategoryId, CategoryNode,
};
use super::{
    all_keys, lemma_all_keys_contains, spec_all_keys, spec_category, spec_setting_description,
    spec_setting_group, spec_setting_label, SettingKey,
};
use crate::text::{chars_of, eq_chars, extend_str, lowercase, slice_vec, string_from, to_lowercase};

verus! {

/// The tree lists every category.
proof fn lemma_order_lists(id: CategoryId)
    ensures
        exists|i: int| 0 <= i < spec_category_order().len() && #[trigger] spec_category_order()[i] == id,
{
    let o = spec_category_order();
    match id {
        CategoryId::Appearance => assert(o[0] == id),
        CategoryId::AppearanceWindow => assert(o[1] == id),
        CategoryId::ColorScheme => assert(o[2] == id),
        CategoryId::EditorGeneral => assert(o[3] == id),
        CategoryId::EditorRhyme => assert(o[4] == id),
        CategoryId::EditorCompletion => assert(o[5] == id),
        CategoryId::EditorFileTree => assert(o[6] == id),
        CategoryId::Keymap => assert(o[7] == id),
        CategoryId::VersionControlGit => assert(o[8] == id),
        CategoryId::ToolsNetwork => assert(o[9] == id),
        CategoryId::Advanced => assert(o[10] == id),
    }
}

/// The tree is two levels deep: every parent is a top-level category.
pub proof fn lemma_parents_are_top_level(id: CategoryId)
    ensures
        spec_category_parent(id) matches Some(p) ==> spec_category_parent(p) is None,
{
}

/// The categories above `id`, outermost first (at most its parent, as
/// every parent is top-level).
pub open spec fn spec_ancestors(id: CategoryId) -> Seq<CategoryId> {
    match spec_category_parent(id) {
        Some(p) => seq![p],
        None => seq![],
    }
}

/// The entry of category `id`.
pub fn node(id: CategoryId) -> (n: Option<CategoryNode>)
    ensures
        n matches Some(x) && x.id == id && x.parent == spec_category_parent(id) && x.label@
            == spec_category_label(id) && x.breadcrumb_parent@ == spec_breadcrumb_parent(id),
{
    let tree = category_tree();
    let mut i: usize = 0;
    proof {
        lemma_order_lists(id);
    }
    while i < tree.len()
        invariant
            i <= tree@.len(),
            tree@.len() == spec_category_order().len(),
            forall|j: int|
                0 <= j < tree@.len() ==> #[trigger] tree@[j].id == spec_category_order()[j]
                    && tree@[j].parent == spec_category_parent(tree@[j].id) && tree@[j].label@
                    == spec_category_label(tree@[j].id) && tree@[j].breadcrumb_parent@
                    == spec_breadcrumb_parent(tree@[j].id),
            forall|j: int| 0 <= j < i ==> spec_category_order()[j] != id,
            exists|j: int| 0 <= j < spec_category_order().len() && #[trigger] spec_category_order()[j] == id,
        decreases tree@.len() - i,
    {
        if tree[i].id == id {
            return Some(tree[i]);
        }
        i += 1;
    }
    None
}

/// Whether any category hangs under `id`.
pub fn has_children(id: CategoryId) -> (r: bool)
    ensures
        r == exists|c: CategoryId| #[trigger] spec_category_parent(c) == Some(id),
{
    let tree = category_tree();
    let mut i: usize = 0;
    while i < tree.len()
        invariant
            i <= tree@.len(),
            tree@.len() == spec_category_order().len(),
            forall|j: int|
                0 <= j < tree@.len() ==> #[trigger] tree@[j].id == spec_category_order()[j]
                    && tree@[j].parent == spec_category_parent(tree@[j].id),
            forall|j: int|
                0 <= j < i ==> spec_category_parent(#[trigger] spec_category_order()[j]) != Some(id),
        decreases tree@.len() - i,
    {
        let hit = match tree[i].parent {
            Some(p) => p == id,
            None => false,
        };
        if hit {
            assert(spec_category_parent(tree@[i as int].id) == Some(id));
            return true;
        }
        i += 1;
    }
    assert forall|c: CategoryId| #[trigger] spec_category_parent(c) != Some(id) by {
        lemma_order_lists(c);
        let j = choose|j: int| 0 <= j < spec_category_order().len() && #[trigger] spec_category_order()[j] == c;
    }
    false
}

/// Number of parent hops from `id` to a top-level category.
pub fn depth(id: CategoryId) -> (d: i32)
    ensures
        d == spec_ancestors(id).len(),
{
    let mut d: i32 = 0;
    let mut cur = node(id).unwrap().parent;
    proof {
        lemma_parents_are_top_level(id);
    }
    while cur.is_some()
        invariant
            (d == 0 && cur == spec_category_parent(id)) || (d == 1 && cur is None
                && spec_category_parent(id) is Some),
            spec_category_parent(id) matches Some(p) ==> spec_category_parent(p) is None,
        decreases if cur is Some { 1int } else { 0int },
    {
        let pid = cur.unwrap();
        d += 1;
        cur = node(pid).unwrap().parent;
    }
    d
}

/// `parts` joined with `sep` between each two.
pub open spec fn joined(parts: Seq<Seq<char>>, sep: Seq<char>) -> Seq<char>
    decreases parts.len(),
{
    if parts.len() == 0 {
        seq![]
    } else if parts.len() == 1 {
        parts[0]
    } else {
        joined(parts.drop_last(), sep) + sep + parts.last()
    }
}

/// The separator between breadcrumb parts.
pub open spec fn crumb_sep() -> Seq<char> {
    "  \u{203a}  "@
}

/// The breadcrumb parts of `id`: the group name of a top-level category
/// that has one, the labels of the categories above it, then its own.
pub open spec fn breadcrumb_parts(id: CategoryId) -> Seq<Seq<char>> {
    (if spec_category_parent(id) is None && spec_breadcrumb_parent(id).len() > 0 {
        seq![spec_breadcrumb_parent(id)]
    } else {
        seq![]
    }) + spec_ancestors(id).map_values(|p: CategoryId| spec_category_label(p)) + seq![
        spec_category_label(id),
    ]
}

/// "Appearance & Behavior  ›  Appearance": the group prefix (for a
/// top-level category) or the chain of parent labels, then the category's
/// own label.
pub fn breadcrumb(id: CategoryId) -> (r: String)
    ensures
        r@ == joined(breadcrumb_parts(id), crumb_sep()),
{
    let n = node(id).unwrap();
    let mut parts: Vec<&'static str> = Vec::new();
    let ghost head: Seq<Seq<char>> = if spec_category_parent(id) is None
        && spec_breadcrumb_parent(id).len() > 0 {
        seq![spec_breadcrumb_parent(id)]
    } else {
        seq![]
    };
    let ghost above = spec_ancestors(id).map_values(|p: CategoryId| spec_category_label(p));
    if n.parent.is_none() && !n.breadcrumb_parent.is_empty() {
        parts.push(n.breadcrumb_parent);
    }
    assert(parts@.map_values(|s: &str| s@) =~= head);
    if let Some(pid) = n.parent {
        parts.push(node(pid).unwrap().label);
    }
    assert(parts@.map_values(|s: &str| s@) =~= head + above);
    parts.push(n.label);
    let ghost views = parts@.map_values(|s: &str| s@);
    assert(views =~= breadcrumb_parts(id));
    let mut out: Vec<char> = Vec::new();
    let mut i: usize = 0;
    assert(views.take(0) =~= Seq::<Seq<char>>::empty());
    while i < parts.len()
        invariant
            i <= parts@.len(),
            views == parts@.map_values(|s: &str| s@),
            out@ == joined(views.take(i as int), crumb_sep()),
        decreases parts@.len() - i,
    {
        if i > 0 {
            extend_str(&mut out, "  \u{203a}  ");
        }
        extend_str(&mut out, parts[i]);
        proof {
            let t = views.take(i + 1);
            assert(t.drop_last() =~= views.take(i as int));
            assert(t.last() == parts@[i as int]@);
            if i == 0 {
                assert(out@ =~= t[0]);
            }
        }
        i += 1;
    }
    assert(views.take(views.len() as int) =~= views);
    string_from(out.as_slice())
}

/// `needle` occurs somewhere in `hay`.
pub open spec fn has_sub(hay: Seq<char>, needle: Seq<char>) -> bool {
    exists|i: int|
        0 <= i && i + needle.len() <= hay.len() && #[trigger] hay.subrange(i, i + needle.len())
            == needle
}

/// `str::contains` for a string needle.
fn contains_chars(hay: &[char], needle: &[char]) -> (r: bool)
    ensures
        r == has_sub(hay@, needle@),
{
    if needle.len() > hay.len() {
        return false;
    }
    let last = hay.len() - needle.len();
    let mut i: usize = 0;
    loop
        invariant_except_break
            needle@.len() <= hay@.len(),
            hay.len() == hay@.len(),
            needle.len() == needle@.len(),
            last == hay@.len() - needle@.len(),
            i <= last,
            forall|j: int| 0 <= j < i ==> #[trigger] hay@.subrange(j, j + needle@.len()) != needle@,
        ensures
            forall|j: int|
                0 <= j <= last ==> #[trigger] hay@.subrange(j, j + needle@.len()) != needle@,
        decreases last - i,
    {
        let piece = slice_vec(hay, i, i + needle.len());
        if eq_chars(piece.as_slice(), needle) {
            return true;
        }
        if i == last {
            break;
        }
        i += 1;
    }
    false
}

/// Whether the lower-cased `text` contains `query`.
fn lower_contains(text: &str, query: &[char]) -> (r: bool)
    ensures
        r == has_sub(lowercase(text@), query@),
{
    let l = to_lowercase(text);
    let cs = chars_of(l.as_str());
    contains_chars(cs.as_slice(), query)
}

/// A setting's label, help text or group contains `query`, lower-cased.
pub open spec fn setting_matches(k: SettingKey, query: Seq<char>) -> bool {
    has_sub(lowercase(spec_setting_label(k)), query) || has_sub(
        lowercase(spec_setting_description(k)),
        query,
    ) || has_sub(lowercase(spec_setting_group(k)), query)
}

/// Category `id` itself matches `query`: its label, or one of its
/// settings.
pub open spec fn matches_here(id: CategoryId, query: Seq<char>) -> bool {
    has_sub(lowercase(spec_category_label(id)), query) || exists|k: SettingKey|
        spec_category(k) == id && #[trigger] setting_matches(k, query)
}

/// Category `id` or a category below it matches `query`.
pub open spec fn spec_category_matches(id: CategoryId, query: Seq<char>) -> bool {
    matches_here(id, query) || exists|c: CategoryId|
        #[trigger] spec_ancestors(c).contains(id) && matches_here(c, query)
}

fn matches_here_exec(id: CategoryId, query: &[char]) -> (r: bool)
    ensures
        r == matches_here(id, query@),
{
    let n = node(id).unwrap();
    if lower_contains(n.label, query) {
        return true;
    }
    let keys = all_keys();
    let mut i: usize = 0;
    while i < keys.len()
        invariant
            i <= keys@.len(),
            keys@ == spec_all_keys(),
            forall|j: int|
                0 <= j < i ==> !(spec_category(#[trigger] keys@[j]) == id && setting_matches(
                    keys@[j],
                    query@,
                )),
        decreases keys@.len() - i,
    {
        let spec = keys[i].spec();
        if spec.category == id && (lower_contains(spec.label, query) || lower_contains(
            spec.description,
            query,
        ) || lower_contains(spec.group, query)) {
            assert(setting_matches(keys@[i as int], query@));
            return true;
        }
        i += 1;
    }
    assert forall|k: SettingKey| !(spec_category(k) == id && #[trigger] setting_matches(k, query@)) by {
        lemma_all_keys_contains(k);
        let j = choose|j: int| 0 <= j < spec_all_keys().len() && spec_all_keys()[j] == k;
        assert(keys@[j] == k);
    }
    false
}

/// Does `id`'s label, one of its settings' label, help text or group, or
/// any category below it match the lower-cased `query`?
pub fn category_matches(id: CategoryId, query: &str) -> (r: bool)
    ensures
        r == spec_category_matches(id, query@),
{
    let q = chars_of(query);
    if matches_here_exec(id, q.as_slice()) {
        return true;
    }
    let tree = category_tree();
    let mut i: usize = 0;
    while i < tree.len()
        invariant
            i <= tree@.len(),
            q@ == query@,
            tree@.len() == spec_category_order().len(),
            forall|j: int|
                0 <= j < tree@.len() ==> #[trigger] tree@[j].id == spec_category_order()[j]
                    && tree@[j].parent == spec_category_parent(tree@[j].id),
            forall|j: int|
                0 <= j < i ==> !(spec_ancestors(#[trigger] spec_category_order()[j]).contains(id)
                    && matches_here(spec_category_order()[j], query@)),
        decreases tree@.len() - i,
    {
        let child = match tree[i].parent {
            Some(p) => p == id,
            None => false,
        };
        proof {
            let c = spec_category_order()[i as int];
            assert(tree@[i as int].id == c);
            if spec_ancestors(c).contains(id) {
                let m = choose|m: int| 0 <= m < spec_ancestors(c).len() && spec_ancestors(c)[m] == id;
                assert(spec_category_parent(c) == Some(id));
            }
            if child {
                assert(spec_ancestors(c) == seq![id]);
                assert(spec_ancestors(c)[0] == id);
            }
        }
        if child && matches_here_exec(tree[i].id, q.as_slice()) {
            return true;
        }
        i += 1;
    }
    assert forall|c: CategoryId| !(#[trigger] spec_ancestors(c).contains(id) && matches_here(
        c,
        query@,
    )) by {
        lemma_order_lists(c);
        let j = choose|j: int| 0 <= j < spec_category_order().len() && #[trigger] spec_category_order()[j] == c;
    }
    false
}

/// Whether category `id` has a row in the sidebar: with the search box
/// empty, unless a category above it is folded; with a search, if it
/// matches.
pub open spec fn spec_category_shown(id: CategoryId, folded: Set<CategoryId>, query: Seq<char>) -> bool {
    if query.len() == 0 {
        forall|k: int| 0 <= k < spec_ancestors(id).len() ==> !folded.contains(#[trigger] spec_ancestors(id)[k])
    } else {
        spec_category_matches(id, query)
    }
}

/// The sidebar's rows among the first `n` categories, in tree order.
pub open spec fn shown_upto(folded: Set<CategoryId>, query: Seq<char>, n: int) -> Seq<CategoryId>
    decreases n,
{
    if n <= 0 {
        Seq::empty()
    } else {
        let rest = shown_upto(folded, query, n - 1);
        let id = spec_category_order()[n - 1];
        if spec_category_shown(id, folded, query) {
            rest.push(id)
        } else {
            rest
        }
    }
}

fn is_folded(folded: &Vec<CategoryId>, id: CategoryId) -> (r: bool)
    ensures
        r == folded@.contains(id),
{
    let mut i: usize = 0;
    while i < folded.len()
        invariant
            i <= folded@.len(),
            forall|j: int| 0 <= j < i ==> folded@[j] != id,
        decreases folded@.len() - i,
    {
        if folded[i] == id {
            assert(folded@[i as int] == id);
            return true;
        }
        i += 1;
    }
    false
}

/// The categories the sidebar shows, in tree order, given the folded
/// ones and the search box's text.
pub fn visible_categories(folded: &Vec<CategoryId>, query: &str) -> (shown: Vec<CategoryId>)
    ensures
        shown@ == shown_upto(folded@.to_set(), query@, spec_category_order().len() as int),
{
    let tree = category_tree();
    let empty = chars_of(query).len() == 0;
    let mut shown: Vec<CategoryId> = Vec::new();
    let mut i: usize = 0;
    while i < tree.len()
        invariant
            i <= tree@.len(),
            tree@.len() == spec_category_order().len(),
            forall|j: int|
                0 <= j < tree@.len() ==> #[trigger] tree@[j].id == spec_category_order()[j]
                    && tree@[j].parent == spec_category_parent(tree@[j].id),
            shown@ == shown_upto(folded@.to_set(), query@, i as int),
            empty == (query@.len() == 0),
        decreases tree@.len() - i,
    {
        let id = tree[i].id;
        assert(tree@[i as int].id == spec_category_order()[i as int]);
        let visible = if empty {
            match tree[i].parent {
                Some(p) => {
                    let f = is_folded(folded, p);
                    proof {
                        assert(spec_ancestors(id) == seq![p]);
                        if !f {
                            assert forall|k: int| 0 <= k < spec_ancestors(id).len() implies !folded@.to_set().contains(
                                #[trigger] spec_ancestors(id)[k],
                            ) by {
                                assert(spec_ancestors(id)[k] == p);
                            }
                        } else {
                            assert(folded@.to_set().contains(spec_ancestors(id)[0]));
                        }
                    }
                    !f
                },
                None => {
                    assert(spec_ancestors(id) =~= Seq::<CategoryId>::empty());
                    true
                },
            }
        } else {
            category_matches(id, query)
        };
        if visible {
            shown.push(id);
        }
        i += 1;
    }
    shown
}

/// Whether the chevron of category `id` shows it open: always during a
/// search, else unless it is folded.
pub fn category_expanded(id: CategoryId, folded: &Vec<CategoryId>, query: &str) -> (r: bool)
    ensures
        r == (query@.len() != 0 || !folded@.contains(id)),
{
    if chars_of(query).len() != 0 {
        return true;
    }
    !is_folded(folded, id)
}

/// Whether setting `k` has its own row on category `cat`'s page: it
/// belongs there, and it is not the font size, which the font row edits
/// along with the family.
#[verifier::opaque]
pub open spec fn on_page(k: SettingKey, cat: CategoryId) -> bool {
    spec_category(k) == cat && k != SettingKey::FontSize
}

/// The rows among the first `n` of `keys` that category `cat`'s page
/// shows, in order.
pub open spec fn page_upto(keys: Seq<SettingKey>, cat: CategoryId, n: int) -> Seq<SettingKey>
    decreases n,
{
    if n <= 0 {
        Seq::empty()
    } else {
        let rest = page_upto(keys, cat, n - 1);
        let k = keys[n - 1];
        if on_page(k, cat) {
            rest.push(k)
        } else {
            rest
        }
    }
}

/// One row of a settings page: its setting, and whether it opens a new
/// section (the first row, or a change of group; a section of a named
/// group is headed by that name).
pub struct PageRow {
    pub key: SettingKey,
    pub new_section: bool,
}

pub open spec fn row_keys(rows: Seq<PageRow>) -> Seq<SettingKey> {
    rows.map_values(|r: PageRow| r.key)
}

/// The group (section heading) setting `k` sits under on its page.
#[verifier::opaque]
pub open spec fn page_group(k: SettingKey) -> Seq<char> {
    spec_setting_group(k)
}

/// Each row opens a section exactly where the group changes.
pub open spec fn sections_marked(rows: Seq<PageRow>) -> bool {
    forall|r: int|
        0 <= r < rows.len() ==> #[trigger] rows[r].new_section == (r == 0 || page_group(
            rows[r].key,
        ) != page_group(rows[r - 1].key))
}

proof fn lemma_push_row(before: Seq<PageRow>, row: PageRow)
    requires
        sections_marked(before),
        row.new_section == (before.len() == 0 || page_group(row.key) != page_group(
            before.last().key,
        )),
    ensures
        sections_marked(before.push(row)),
        row_keys(before.push(row)) == row_keys(before).push(row.key),
{
    let after = before.push(row);
    assert forall|r: int| 0 <= r < after.len() implies #[trigger] after[r].new_section == (r == 0
        || page_group(after[r].key) != page_group(after[r - 1].key)) by {
        if r < before.len() {
            assert(after[r] == before[r]);
            if r > 0 {
                assert(after[r - 1] == before[r - 1]);
            }
        } else if r > 0 {
            assert(after[r - 1] == before[r - 1]);
        }
    }
    assert(row_keys(after) =~= row_keys(before).push(row.key));
}

fn plan_rows(keys: &Vec<SettingKey>, cat: CategoryId) -> (rows: Vec<PageRow>)
    ensures
        row_keys(rows@) == page_upto(keys@, cat, keys@.len() as int),
        sections_marked(rows@),
{
    let mut rows: Vec<PageRow> = Vec::new();
    let mut last_group: Vec<char> = Vec::new();
    let mut i: usize = 0;
    assert(row_keys(rows@) =~= Seq::<SettingKey>::empty());
    while i < keys.len()
        invariant
            i <= keys@.len(),
            row_keys(rows@) == page_upto(keys@, cat, i as int),
            rows@.len() > 0 ==> last_group@ == page_group(rows@.last().key),
            sections_marked(rows@),
        decreases keys@.len() - i,
    {
        let k = keys[i];
        let ghost shown = on_page(k, cat);
        if k != SettingKey::FontSize {
            let sp = k.spec();
            assert(shown == (sp.category == cat)) by {
                reveal(on_page);
            }
            if sp.category == cat {
                let group = chars_of(sp.group);
                assert(group@ == page_group(k)) by {
                    reveal(page_group);
                }
                let fresh = rows.len() == 0 || !eq_chars(group.as_slice(), last_group.as_slice());
                let row = PageRow { key: k, new_section: fresh };
                proof {
                    lemma_push_row(rows@, row);
                }
                rows.push(row);
                last_group = group;
            }
        } else {
            assert(!shown) by {
                reveal(on_page);
            }
        }
        i += 1;
    }
    rows
}

/// The plan of category `cat`'s page: its rows in order, and where each
/// section starts.
pub fn page_plan(cat: CategoryId) -> (rows: Vec<PageRow>)
    ensures
        row_keys(rows@) == page_upto(spec_all_keys(), cat, spec_all_keys().len() as int),
        sections_marked(rows@),
{
    let keys = all_keys();
    plan_rows(&keys, cat)
}

/// The choice an option list starts on: the position of the current
/// token among `values`, else the first.
pub fn enum_initial(values: &Vec<&'static str>, current: &str) -> (i: usize)
    ensures
        (exists|j: int| 0 <= j < values@.len() && values@[j]@ == current@) ==> i < values@.len()
            && values@[i as int]@ == current@ && forall|j: int|
            0 <= j < i ==> values@[j]@ != current@,
        !(exists|j: int| 0 <= j < values@.len() && values@[j]@ == current@) ==> i == 0,
{
    let cur = chars_of(current);
    let mut i: usize = 0;
    while i < values.len()
        invariant
            i <= values@.len(),
            cur@ == current@,
            forall|j: int| 0 <= j < i ==> values@[j]@ != current@,
        decreases values@.len() - i,
    {
        let v = chars_of(values[i]);
        if eq_chars(v.as_slice(), cur.as_slice()) {
            return i;
        }
        i += 1;
    }
    0
}

} // verus!
