//! The tool-window dock's state: which windows are registered on which
//! edge, how big each is and which are open — one visible window per edge
//! — and how that state is saved to and restored from the layout file.
//! The app performs what a change means on screen.

use vstd::prelude::*;
use crate::dock::{spec_anchor_str, Anchor, DockLayout, WindowState};
use crate::strmap::StrMap;
use crate::text::{chars_of, eq_chars, string_from};

verus! {

/// The smallest extent in px an edge can be sized to.
pub const MIN_SIZE: i32 = 120;

/// The largest extent in px an edge can be sized to.
pub const MAX_SIZE: i32 = 1200;

/// `n` clamped to the allowed extents.
pub open spec fn clamp_size(n: i32) -> i32 {
    if n < MIN_SIZE {
        MIN_SIZE
    } else if n > MAX_SIZE {
        MAX_SIZE
    } else {
        n
    }
}

fn clamp_extent(n: i32) -> (r: i32)
    ensures
        r == clamp_size(n),
{
    if n < MIN_SIZE {
        MIN_SIZE
    } else if n > MAX_SIZE {
        MAX_SIZE
    } else {
        n
    }
}

/// The bottom dock's split, for a window whose content is `total` px high
/// with the divider at `position` and `remembered` the panel height last
/// used: opening a panel puts the divider `remembered` px above the bottom
/// of a content area counted as at least 400 px, never above 120 px;
/// closing it remembers the height the panel had, kept between 120 px and
/// 60 px short of the whole (nothing is remembered when the content is 120
/// px or less). Returns the divider's new position, if it moves, and the
/// height to remember.
pub open spec fn spec_bottom_split(total: int, position: int, remembered: int, opening: bool) -> (
    Option<int>,
    int,
) {
    if opening {
        let t = if total < 400 {
            400
        } else {
            total
        };
        let p = t - remembered;
        (Some(if p < 120 {
            120
        } else {
            p
        }), remembered)
    } else if total > 120 {
        let h = total - position;
        (None, if h < 120 {
            120
        } else if h > total - 60 {
            total - 60
        } else {
            h
        })
    } else {
        (None, remembered)
    }
}

/// The bottom dock's split after a panel opens (`opening`) or the dock
/// closes. Closing with content between 120 and 180 px high is left out:
/// no height fits between 120 px and 60 px short of the whole there.
pub fn bottom_split(total: i32, position: i32, remembered: i32, opening: bool) -> (r: (
    Option<i32>,
    i32,
))
    requires
        opening ==> i32::MIN <= (if total < 400 {
            400
        } else {
            total as int
        }) - remembered <= i32::MAX,
        !opening && total > 120 ==> total >= 180 && i32::MIN <= total - position <= i32::MAX,
    ensures
        (
            match r.0 {
                Some(p) => Some(p as int),
                None => None,
            },
            r.1 as int,
        ) == spec_bottom_split(total as int, position as int, remembered as int, opening),
{
    if opening {
        let t = if total < 400 {
            400
        } else {
            total
        };
        let p = t - remembered;
        (Some(if p < 120 {
            120
        } else {
            p
        }), remembered)
    } else if total > 120 {
        let h = total - position;
        (None, if h < 120 {
            120
        } else if h > total - 60 {
            total - 60
        } else {
            h
        })
    } else {
        (None, remembered)
    }
}

/// One registered tool window and its live state.
pub struct DockSlot {
    /// Stable id: the layout key and the toggle action.
    pub id: String,
    /// The edge it docks to.
    pub anchor: Anchor,
    /// Extent in px on a first run.
    pub default_size: i32,
    /// Whether it is open on a first run.
    pub default_open: bool,
    /// Current extent in px.
    pub size: i32,
    /// Whether it is shown.
    pub open: bool,
}

/// What a [`DockSlot`] holds.
pub struct SlotView {
    pub id: Seq<char>,
    pub anchor: Anchor,
    pub default_size: i32,
    pub default_open: bool,
    pub size: i32,
    pub open: bool,
}

pub open spec fn slot_view(s: DockSlot) -> SlotView {
    SlotView {
        id: s.id@,
        anchor: s.anchor,
        default_size: s.default_size,
        default_open: s.default_open,
        size: s.size,
        open: s.open,
    }
}

pub open spec fn slot_views(v: Seq<DockSlot>) -> Seq<SlotView> {
    v.map_values(|s: DockSlot| slot_view(s))
}

/// No id twice, every extent allowed, at most one open window per edge.
pub open spec fn dock_wf(v: Seq<SlotView>) -> bool {
    &&& forall|i: int, j: int| 0 <= i < j < v.len() ==> #[trigger] v[i].id != #[trigger] v[j].id
    &&& forall|i: int| 0 <= i < v.len() ==> MIN_SIZE <= #[trigger] v[i].size <= MAX_SIZE
    &&& forall|i: int, j: int|
        0 <= i < j < v.len() && #[trigger] v[i].open && #[trigger] v[j].open ==> v[i].anchor
            != v[j].anchor
}

/// Where window `id` sits.
pub open spec fn slot_index(v: Seq<SlotView>, id: Seq<char>) -> Option<int> {
    if exists|i: int| 0 <= i < v.len() && #[trigger] v[i].id == id {
        Some(choose|i: int| 0 <= i < v.len() && #[trigger] v[i].id == id)
    } else {
        None
    }
}

/// Window `id` is open.
pub open spec fn spec_is_open(v: Seq<SlotView>, id: Seq<char>) -> bool {
    match slot_index(v, id) {
        Some(k) => v[k].open,
        None => false,
    }
}

/// The windows after showing (`open`) or hiding window `id`. Showing one
/// hides the others on its edge; hiding an open one remembers the extent
/// its edge measures now, `current`.
pub open spec fn spec_set_open(v: Seq<SlotView>, id: Seq<char>, open: bool, current: i32) -> Seq<
    SlotView,
> {
    match slot_index(v, id) {
        None => v,
        Some(k) => if open {
            Seq::new(
                v.len(),
                |i: int|
                    if i == k {
                        SlotView { open: true, ..v[i] }
                    } else if v[i].anchor == v[k].anchor {
                        SlotView { open: false, ..v[i] }
                    } else {
                        v[i]
                    },
            )
        } else {
            v.update(
                k,
                SlotView {
                    size: if v[k].open {
                        clamp_size(current)
                    } else {
                        v[k].size
                    },
                    open: false,
                    ..v[k]
                },
            )
        },
    }
}

/// What a layout file remembers of each window: its extent and whether it
/// was open.
pub open spec fn saved_view(layout: Map<Seq<char>, WindowState>) -> Map<Seq<char>, (i32, bool)> {
    layout.map_values(|w: WindowState| (w.size, w.open))
}

/// One step of restoring: window `i` takes its saved extent (else its
/// default), clamped, and is shown if it was open (else if it opens by
/// default).
pub open spec fn restore_step(v: Seq<SlotView>, saved: Map<Seq<char>, (i32, bool)>, i: int) -> Seq<
    SlotView,
> {
    let s = v[i];
    let (size, open) = if saved.contains_key(s.id) {
        (clamp_size(saved[s.id].0), saved[s.id].1)
    } else {
        (clamp_size(s.default_size), s.default_open)
    };
    let sized = v.update(i, SlotView { size, ..s });
    if open {
        spec_set_open(sized, s.id, true, size)
    } else {
        sized
    }
}

/// The windows after restoring the first `n` of them, in order.
pub open spec fn restore_upto(v: Seq<SlotView>, saved: Map<Seq<char>, (i32, bool)>, n: int) -> Seq<
    SlotView,
>
    decreases n,
{
    if n <= 0 {
        v
    } else {
        restore_step(restore_upto(v, saved, n - 1), saved, n - 1)
    }
}

/// The same windows, in the same order, on the same edges.
pub open spec fn same_windows(a: Seq<SlotView>, b: Seq<SlotView>) -> bool {
    &&& a.len() == b.len()
    &&& forall|i: int|
        #![trigger a[i]]
        #![trigger b[i]]
        0 <= i < a.len() ==> a[i].id == b[i].id && a[i].anchor == b[i].anchor && a[i].default_size
            == b[i].default_size && a[i].default_open == b[i].default_open
}

proof fn lemma_slot_index(v: Seq<SlotView>, k: int)
    requires
        dock_wf(v),
        0 <= k < v.len(),
    ensures
        slot_index(v, v[k].id) == Some(k),
{
    let id = v[k].id;
    assert(v[k].id == id);
    let c = choose|i: int| 0 <= i < v.len() && #[trigger] v[i].id == id;
    if c != k {
        if c < k {
            assert(v[c].id != v[k].id);
        } else {
            assert(v[k].id != v[c].id);
        }
    }
}

proof fn lemma_set_open_keeps(v: Seq<SlotView>, id: Seq<char>, open: bool, current: i32)
    requires
        dock_wf(v),
    ensures
        dock_wf(spec_set_open(v, id, open, current)),
        same_windows(v, spec_set_open(v, id, open, current)),
{
    let r = spec_set_open(v, id, open, current);
    match slot_index(v, id) {
        None => {},
        Some(k) => {
            assert(0 <= k < v.len() && v[k].id == id);
            if open {
                assert forall|i: int, j: int| 0 <= i < j < r.len() && #[trigger] r[i].open
                    && #[trigger] r[j].open implies r[i].anchor != r[j].anchor by {
                    if i != k && j != k {
                        assert(v[i].open && v[j].open);
                    }
                }
            }
        },
    }
}


/// Every window hidden, extents kept.
pub open spec fn all_closed(v: Seq<SlotView>) -> Seq<SlotView> {
    v.map_values(|s: SlotView| SlotView { open: false, ..s })
}

/// The open window on edge `anchor`, if any.
pub open spec fn open_on(v: Seq<SlotView>, anchor: Anchor) -> Option<int> {
    if exists|i: int| 0 <= i < v.len() && #[trigger] v[i].open && v[i].anchor == anchor {
        Some(choose|i: int| 0 <= i < v.len() && #[trigger] v[i].open && v[i].anchor == anchor)
    } else {
        None
    }
}

/// The windows after the splitter of edge `anchor` moved to show `current`
/// px: the open window there takes that extent, clamped.
pub open spec fn spec_splitter_moved(v: Seq<SlotView>, anchor: Anchor, current: i32) -> Seq<SlotView> {
    match open_on(v, anchor) {
        Some(k) => v.update(k, SlotView { size: clamp_size(current), ..v[k] }),
        None => v,
    }
}

/// The windows a layout file was saved from match `v` window by window.
pub open spec fn saved_from(v: Seq<SlotView>, layout: Map<Seq<char>, WindowState>) -> bool {
    forall|i: int|
        0 <= i < v.len() ==> layout.contains_key(#[trigger] v[i].id) && layout[v[i].id].size
            == v[i].size && layout[v[i].id].open == v[i].open
}

/// Where restoring a layout saved from `from` stands after `n` windows.
pub open spec fn restored_upto(from: Seq<SlotView>, fresh: Seq<SlotView>, r: Seq<SlotView>, n: int) -> bool {
    &&& same_windows(fresh, r)
    &&& forall|i: int| #![trigger r[i]] 0 <= i < n ==> r[i].size == from[i].size && r[i].open == from[i].open
    &&& forall|i: int| #![trigger r[i]] n <= i < r.len() ==> r[i] == fresh[i]
}

proof fn lemma_restore_persisted_upto(
    from: Seq<SlotView>,
    fresh: Seq<SlotView>,
    layout: Map<Seq<char>, WindowState>,
    n: int,
)
    requires
        dock_wf(from),
        dock_wf(fresh),
        same_windows(from, fresh),
        forall|i: int| 0 <= i < fresh.len() ==> !(#[trigger] fresh[i].open),
        saved_from(from, layout),
        0 <= n <= fresh.len(),
    ensures
        restored_upto(from, fresh, restore_upto(fresh, saved_view(layout), n), n),
    decreases n,
{
    let saved = saved_view(layout);
    if n == 0 {
    } else {
        lemma_restore_persisted_upto(from, fresh, layout, n - 1);
        let r = restore_upto(fresh, saved, n - 1);
        let k = n - 1;
        let s = r[k];
        assert(s == fresh[k]);
        assert(s.id == from[k].id);
        assert(layout.contains_key(from[k].id));
        assert(saved.contains_key(s.id));
        assert(saved[s.id] == (from[k].size, from[k].open));
        let size = clamp_size(from[k].size);
        assert(size == from[k].size);
        let sized = r.update(k, SlotView { size, ..s });
        assert(dock_wf(sized)) by {
            assert forall|a: int, b: int| 0 <= a < b < sized.len() implies #[trigger] sized[a].id
                != #[trigger] sized[b].id by {
                assert(sized[a].id == fresh[a].id && sized[b].id == fresh[b].id);
            }
            assert forall|a: int| 0 <= a < sized.len() implies MIN_SIZE <= #[trigger] sized[a].size
                <= MAX_SIZE by {
                if a < k {
                    assert(sized[a].size == from[a].size);
                } else if a > k {
                    assert(sized[a] == fresh[a]);
                }
            }
            assert forall|a: int, b: int| 0 <= a < b < sized.len() && #[trigger] sized[a].open
                && #[trigger] sized[b].open implies sized[a].anchor != sized[b].anchor by {
                if b < k {
                    assert(sized[a].open == from[a].open && sized[b].open == from[b].open);
                    assert(from[a].anchor == fresh[a].anchor && from[b].anchor == fresh[b].anchor);
                    assert(sized[a].anchor == fresh[a].anchor && sized[b].anchor == fresh[b].anchor);
                } else if b == k {
                    assert(!fresh[k].open);
                } else {
                    assert(sized[b] == fresh[b]);
                    assert(!fresh[b].open);
                }
            }
        }
        let next = restore_upto(fresh, saved, n);
        assert(next == restore_step(r, saved, k));
        assert(same_windows(fresh, sized)) by {
            assert forall|a: int| 0 <= a < fresh.len() implies #[trigger] fresh[a].id == sized[a].id
                && fresh[a].anchor == sized[a].anchor && fresh[a].default_size == sized[a].default_size
                && fresh[a].default_open == sized[a].default_open by {
                assert(fresh[a].id == r[a].id);
            }
        }
        if from[k].open {
            lemma_slot_index(sized, k);
            lemma_set_open_keeps(sized, s.id, true, size);
            assert(next == spec_set_open(sized, s.id, true, size));
            assert(same_windows(fresh, next)) by {
                assert forall|a: int| 0 <= a < fresh.len() implies #[trigger] fresh[a].id == next[a].id
                    && fresh[a].anchor == next[a].anchor && fresh[a].default_size == next[a].default_size
                    && fresh[a].default_open == next[a].default_open by {
                    assert(fresh[a].id == sized[a].id);
                }
            }
            assert forall|i: int| 0 <= i < n implies #[trigger] next[i].size == from[i].size
                && next[i].open == from[i].open by {
                if i < k && sized[i].anchor == sized[k].anchor {
                    assert(from[i].anchor == from[k].anchor);
                    assert(!from[i].open);
                }
            }
            assert forall|i: int| n <= i < next.len() implies #[trigger] next[i] == fresh[i] by {
                assert(!fresh[i].open);
            }
        } else {
            assert(next == sized);
        }
    }
}

/// Restoring the layout a dock saved, into the same windows all hidden
/// (as on launch), gives every window back its extent and open state.
pub proof fn lemma_restore_persisted(
    from: Seq<SlotView>,
    fresh: Seq<SlotView>,
    layout: Map<Seq<char>, WindowState>,
)
    requires
        dock_wf(from),
        dock_wf(fresh),
        same_windows(from, fresh),
        forall|i: int| 0 <= i < fresh.len() ==> !(#[trigger] fresh[i].open),
        saved_from(from, layout),
    ensures
        ({
            let r = restore_upto(fresh, saved_view(layout), fresh.len() as int);
            &&& same_windows(from, r)
            &&& forall|i: int|
                0 <= i < r.len() ==> #[trigger] r[i].size == from[i].size && r[i].open == from[i].open
        }),
{
    lemma_restore_persisted_upto(from, fresh, layout, fresh.len() as int);
    let r = restore_upto(fresh, saved_view(layout), fresh.len() as int);
    assert forall|a: int| 0 <= a < from.len() implies #[trigger] from[a].id == r[a].id
        && from[a].anchor == r[a].anchor && from[a].default_size == r[a].default_size
        && from[a].default_open == r[a].default_open by {
        assert(from[a].id == fresh[a].id);
        assert(fresh[a].id == r[a].id);
    }
}

/// The dock's windows.
pub struct DockArea {
    slots: Vec<DockSlot>,
}

impl DockArea {
    /// What the dock holds: its windows, in registration order.
    pub closed spec fn view(&self) -> Seq<SlotView> {
        slot_views(self.slots@)
    }

    pub closed spec fn wf(&self) -> bool {
        dock_wf(self.view())
    }

    /// A dock with no windows.
    pub fn new() -> (d: Self)
        ensures
            d.wf(),
            d.view() == Seq::<SlotView>::empty(),
    {
        let d = DockArea { slots: Vec::new() };
        assert(d.view() =~= Seq::<SlotView>::empty());
        d
    }

    fn find(&self, id: &str) -> (r: Option<usize>)
        requires
            self.wf(),
        ensures
            match r {
                Some(k) => slot_index(self.view(), id@) == Some(k as int),
                None => slot_index(self.view(), id@) is None,
            },
    {
        let ghost v = self.view();
        let cs = chars_of(id);
        let mut i: usize = 0;
        while i < self.slots.len()
            invariant
                i <= self.slots@.len(),
                v == self.view(),
                v == slot_views(self.slots@),
                dock_wf(v),
                cs@ == id@,
                forall|j: int| 0 <= j < i ==> v[j].id != id@,
            decreases self.slots@.len() - i,
        {
            let name = chars_of(self.slots[i].id.as_str());
            assert(v[i as int] == slot_view(self.slots@[i as int]));
            if eq_chars(name.as_slice(), cs.as_slice()) {
                proof {
                    lemma_slot_index(v, i as int);
                }
                return Some(i);
            }
            i += 1;
        }
        None
    }

    /// Register a window on edge `anchor` at its clamped default extent,
    /// closed. A window registered again under the same id is replaced.
    pub fn register(&mut self, id: &str, anchor: Anchor, default_size: i32, default_open: bool)
        requires
            old(self).wf(),
        ensures
            final(self).wf(),
            final(self).view() == ({
                let s = SlotView {
                    id: id@,
                    anchor,
                    default_size,
                    default_open,
                    size: clamp_size(default_size),
                    open: false,
                };
                match slot_index(old(self).view(), id@) {
                    Some(k) => old(self).view().update(k, s),
                    None => old(self).view().push(s),
                }
            }),
    {
        let ghost v = self.view();
        let slot = DockSlot {
            id: string_from(chars_of(id).as_slice()),
            anchor,
            default_size,
            default_open,
            size: clamp_extent(default_size),
            open: false,
        };
        let ghost s = slot_view(slot);
        match self.find(id) {
            Some(k) => {
                self.slots.set(k, slot);
                assert(self.view() =~= v.update(k as int, s));
                proof {
                    let r = self.view();
                    assert forall|i: int, j: int| 0 <= i < j < r.len() implies #[trigger] r[i].id
                        != #[trigger] r[j].id by {
                        assert(v[k as int].id == id@);
                    }
                    assert forall|i: int, j: int| 0 <= i < j < r.len() && #[trigger] r[i].open
                        && #[trigger] r[j].open implies r[i].anchor != r[j].anchor by {}
                }
            },
            None => {
                self.slots.push(slot);
                assert(self.view() =~= v.push(s));
                proof {
                    let r = self.view();
                    assert forall|i: int, j: int| 0 <= i < j < r.len() implies #[trigger] r[i].id
                        != #[trigger] r[j].id by {
                        if j == v.len() {
                            assert(v[i].id != id@);
                        }
                    }
                }
            },
        }
    }

    /// Whether window `id` is open; `false` for an unknown id.
    pub fn is_open(&self, id: &str) -> (r: bool)
        requires
            self.wf(),
        ensures
            r == spec_is_open(self.view(), id@),
    {
        match self.find(id) {
            Some(k) => {
                assert(self.view()[k as int] == slot_view(self.slots@[k as int]));
                self.slots[k].open
            },
            None => false,
        }
    }

    /// Show or hide window `id`: showing it hides the other windows on its
    /// edge; hiding an open one remembers `current`, the extent its edge
    /// measures now, clamped. An unknown id changes nothing.
    pub fn set_open(&mut self, id: &str, open: bool, current: i32)
        requires
            old(self).wf(),
        ensures
            final(self).wf(),
            final(self).view() == spec_set_open(old(self).view(), id@, open, current),
    {
        let ghost v = self.view();
        proof {
            lemma_set_open_keeps(v, id@, open, current);
        }
        let k = match self.find(id) {
            Some(k) => k,
            None => return,
        };
        assert(v[k as int] == slot_view(self.slots@[k as int]));
        let anchor = self.slots[k].anchor;
        if open {
            let mut i: usize = 0;
            while i < self.slots.len()
                invariant
                    0 <= k < self.slots@.len(),
                    i <= self.slots@.len(),
                    v.len() == self.slots@.len(),
                    slot_index(v, id@) == Some(k as int),
                    anchor == v[k as int].anchor,
                    forall|j: int|
                        0 <= j < self.slots@.len() ==> #[trigger] slot_view(self.slots@[j]) == if j
                            < i {
                            spec_set_open(v, id@, true, current)[j]
                        } else {
                            v[j]
                        },
                decreases self.slots@.len() - i,
            {
                let s = &self.slots[i];
                let same_edge = s.anchor == anchor;
                if i == k || same_edge {
                    let updated = DockSlot {
                        id: s.id.clone(),
                        anchor: s.anchor,
                        default_size: s.default_size,
                        default_open: s.default_open,
                        size: s.size,
                        open: i == k,
                    };
                    self.slots.set(i, updated);
                }
                i += 1;
            }
            assert(self.view() =~= spec_set_open(v, id@, true, current));
        } else {
            let s = &self.slots[k];
            let size = if s.open {
                clamp_extent(current)
            } else {
                s.size
            };
            let updated = DockSlot {
                id: s.id.clone(),
                anchor: s.anchor,
                default_size: s.default_size,
                default_open: s.default_open,
                size,
                open: false,
            };
            self.slots.set(k, updated);
            assert(self.view() =~= spec_set_open(v, id@, false, current));
        }
    }

    /// Flip window `id` open or closed (the toggle action and the stripe
    /// button both route here); `current` is the extent its edge measures
    /// now.
    pub fn toggle(&mut self, id: &str, current: i32)
        requires
            old(self).wf(),
        ensures
            final(self).wf(),
            final(self).view() == spec_set_open(
                old(self).view(),
                id@,
                !spec_is_open(old(self).view(), id@),
                current,
            ),
    {
        let open = self.is_open(id);
        self.set_open(id, !open, current);
    }

    /// Apply a saved layout: each window, in registration order, takes its
    /// saved extent (else its default), clamped, and is shown if it was
    /// open (else if it opens by default).
    pub fn restore(&mut self, layout: &DockLayout)
        requires
            old(self).wf(),
            layout.windows.wf(),
        ensures
            final(self).wf(),
            final(self).view() == restore_upto(
                old(self).view(),
                saved_view(layout.windows@),
                old(self).view().len() as int,
            ),
    {
        let ghost v0 = self.view();
        let ghost saved = saved_view(layout.windows@);
        let mut i: usize = 0;
        while i < self.slots.len()
            invariant
                i <= self.slots@.len(),
                self.wf(),
                layout.windows.wf(),
                saved == saved_view(layout.windows@),
                same_windows(v0, self.view()),
                self.view() == restore_upto(v0, saved, i as int),
            decreases self.slots@.len() - i,
        {
            let ghost v = self.view();
            assert(v[i as int] == slot_view(self.slots@[i as int]));
            let id = self.slots[i].id.clone();
            let key = chars_of(id.as_str());
            let (size, open) = match layout.windows.get(key.as_slice()) {
                Some(w) => (clamp_extent(w.size), w.open),
                None => (clamp_extent(self.slots[i].default_size), self.slots[i].default_open),
            };
            let s = &self.slots[i];
            let sized = DockSlot {
                id: s.id.clone(),
                anchor: s.anchor,
                default_size: s.default_size,
                default_open: s.default_open,
                size,
                open: s.open,
            };
            self.slots.set(i, sized);
            proof {
                let sv = SlotView { size, ..v[i as int] };
                assert(self.view() =~= v.update(i as int, sv));
                let r = self.view();
                assert forall|a: int, b: int| 0 <= a < b < r.len() implies #[trigger] r[a].id
                    != #[trigger] r[b].id by {
                    assert(r[a].id == v[a].id && r[b].id == v[b].id);
                }
                assert forall|a: int, b: int| 0 <= a < b < r.len() && #[trigger] r[a].open
                    && #[trigger] r[b].open implies r[a].anchor != r[b].anchor by {
                    assert(r[a].open == v[a].open && r[b].open == v[b].open);
                }
            }
            if open {
                self.set_open(id.as_str(), true, size);
            }
            proof {
                let sized_v = v.update(i as int, SlotView { size, ..v[i as int] });
                lemma_set_open_keeps(sized_v, id@, true, size);
                let r = self.view();
                assert(same_windows(sized_v, r));
                assert forall|a: int| 0 <= a < v0.len() implies #[trigger] v0[a].id == r[a].id
                    && v0[a].anchor == r[a].anchor && v0[a].default_size == r[a].default_size
                    && v0[a].default_open == r[a].default_open by {
                    assert(v0[a].id == v[a].id);
                    assert(sized_v[a].id == r[a].id);
                }
            }
            i += 1;
        }
    }

    /// Hide every window, then show the ones that open by default, each at
    /// its clamped default extent — "Restore Default Layout".
    pub fn restore_default_layout(&mut self)
        requires
            old(self).wf(),
        ensures
            final(self).wf(),
            final(self).view() == restore_upto(
                all_closed(old(self).view()),
                saved_view(Map::empty()),
                old(self).view().len() as int,
            ),
    {
        let ghost v = self.view();
        let mut i: usize = 0;
        while i < self.slots.len()
            invariant
                i <= self.slots@.len(),
                v.len() == self.slots@.len(),
                dock_wf(v),
                forall|j: int|
                    0 <= j < self.slots@.len() ==> #[trigger] slot_view(self.slots@[j]) == if j < i {
                        all_closed(v)[j]
                    } else {
                        v[j]
                    },
            decreases self.slots@.len() - i,
        {
            let s = &self.slots[i];
            let closed = DockSlot {
                id: s.id.clone(),
                anchor: s.anchor,
                default_size: s.default_size,
                default_open: s.default_open,
                size: s.size,
                open: false,
            };
            self.slots.set(i, closed);
            i += 1;
        }
        proof {
            assert(self.view() =~= all_closed(v));
            let r = self.view();
            assert forall|a: int, b: int| 0 <= a < b < r.len() implies #[trigger] r[a].id
                != #[trigger] r[b].id by {
                assert(r[a].id == v[a].id && r[b].id == v[b].id);
            }
            assert forall|a: int| 0 <= a < r.len() implies MIN_SIZE <= #[trigger] r[a].size
                <= MAX_SIZE by {
                assert(r[a].size == v[a].size);
            }
        }
        let empty = DockLayout { windows: StrMap::new() };
        self.restore(&empty);
    }

    /// The splitter of edge `anchor` moved and the edge now measures
    /// `current` px: the window open there takes that extent, clamped.
    /// Returns whether one did (the layout then needs saving).
    pub fn on_splitter_moved(&mut self, anchor: Anchor, current: i32) -> (moved: bool)
        requires
            old(self).wf(),
        ensures
            final(self).wf(),
            final(self).view() == spec_splitter_moved(old(self).view(), anchor, current),
            moved == open_on(old(self).view(), anchor) is Some,
    {
        let ghost v = self.view();
        let mut i: usize = 0;
        while i < self.slots.len()
            invariant
                i <= self.slots@.len(),
                v == old(self).view(),
                v == self.view(),
                v == slot_views(self.slots@),
                dock_wf(v),
                forall|j: int| 0 <= j < i ==> !(#[trigger] v[j].open && v[j].anchor == anchor),
            decreases self.slots@.len() - i,
        {
            assert(v[i as int] == slot_view(self.slots@[i as int]));
            if self.slots[i].open && self.slots[i].anchor == anchor {
                proof {
                    let k = i as int;
                    assert(v[k].open && v[k].anchor == anchor);
                    let c = choose|c: int| 0 <= c < v.len() && #[trigger] v[c].open && v[c].anchor == anchor;
                    if c != k {
                        if c < k {
                            assert(!(v[c].open && v[c].anchor == anchor));
                        } else {
                            assert(v[k].open && v[c].open);
                        }
                    }
                    assert(open_on(v, anchor) == Some(k));
                }
                let s = &self.slots[i];
                let moved = DockSlot {
                    id: s.id.clone(),
                    anchor: s.anchor,
                    default_size: s.default_size,
                    default_open: s.default_open,
                    size: clamp_extent(current),
                    open: s.open,
                };
                self.slots.set(i, moved);
                proof {
                    assert(self.view() =~= spec_splitter_moved(v, anchor, current));
                    let r = self.view();
                    assert forall|a: int, b: int| 0 <= a < b < r.len() implies #[trigger] r[a].id
                        != #[trigger] r[b].id by {
                        assert(r[a].id == v[a].id && r[b].id == v[b].id);
                    }
                    assert forall|a: int, b: int| 0 <= a < b < r.len() && #[trigger] r[a].open
                        && #[trigger] r[b].open implies r[a].anchor != r[b].anchor by {
                        assert(r[a].open == v[a].open && r[b].open == v[b].open);
                    }
                }
                return true;
            }
            i += 1;
        }
        false
    }

    /// The layout to save: each window's edge, extent and open state, by id.
    pub fn persist(&self) -> (layout: DockLayout)
        requires
            self.wf(),
        ensures
            layout.windows.wf(),
            saved_from(self.view(), layout.windows@),
            forall|id: Seq<char>|
                layout.windows@.contains_key(id) <==> exists|i: int|
                    0 <= i < self.view().len() && #[trigger] self.view()[i].id == id,
            forall|i: int|
                0 <= i < self.view().len() ==> {
                    let w = #[trigger] layout.windows@[self.view()[i].id];
                    &&& w.anchor@ == spec_anchor_str(self.view()[i].anchor)
                    &&& w.size == self.view()[i].size
                    &&& w.open == self.view()[i].open
                },
    {
        let ghost v = self.view();
        let mut windows: StrMap<WindowState> = StrMap::new();
        let mut i: usize = 0;
        while i < self.slots.len()
            invariant
                i <= self.slots@.len(),
                v == self.view(),
                v == slot_views(self.slots@),
                dock_wf(v),
                windows.wf(),
                forall|id: Seq<char>|
                    windows@.contains_key(id) <==> exists|j: int| 0 <= j < i && #[trigger] v[j].id == id,
                forall|j: int|
                    0 <= j < i ==> {
                        let w = #[trigger] windows@[v[j].id];
                        &&& w.anchor@ == spec_anchor_str(v[j].anchor)
                        &&& w.size == v[j].size
                        &&& w.open == v[j].open
                    },
            decreases self.slots@.len() - i,
        {
            let s = &self.slots[i];
            assert(v[i as int] == slot_view(self.slots@[i as int]));
            let ghost before = windows@;
            windows.insert(
                s.id.clone(),
                WindowState {
                    anchor: string_from(chars_of(s.anchor.as_str()).as_slice()),
                    size: s.size,
                    open: s.open,
                },
            );
            proof {
                assert forall|id: Seq<char>|
                    windows@.contains_key(id) <==> exists|j: int| 0 <= j < i + 1 && #[trigger] v[j].id == id by {
                    if windows@.contains_key(id) && id != v[i as int].id {
                        assert(before.contains_key(id));
                    }
                    if exists|j: int| 0 <= j < i + 1 && #[trigger] v[j].id == id {
                        let j = choose|j: int| 0 <= j < i + 1 && #[trigger] v[j].id == id;
                        if j < i {
                            assert(before.contains_key(id));
                        }
                    }
                }
                assert forall|j: int| 0 <= j < i + 1 implies {
                    let w = #[trigger] windows@[v[j].id];
                    &&& w.anchor@ == spec_anchor_str(v[j].anchor)
                    &&& w.size == v[j].size
                    &&& w.open == v[j].open
                } by {
                    if j < i {
                        assert(v[j].id != v[i as int].id);
                    }
                }
            }
            i += 1;
        }
        DockLayout { windows }
    }
}

} // verus!
