//! The tool-window dock's vocabulary: which edge a window lives on, and the
//! remembered per-window layout (kept by the app in a small JSON file; any
//! missing piece falls back to the window's own defaults).

use vstd::prelude::*;
use crate::strmap::StrMap;
use crate::text::{chars_of, eq_str};

verus! {

/// Which edge of the dock a tool window lives on.
#[derive(Clone, Copy, PartialEq, Eq, Hash, Debug, Structural)]
pub enum Anchor {
    Left,
    Right,
    Bottom,
}

pub open spec fn spec_anchor_str(a: Anchor) -> Seq<char> {
    match a {
        Anchor::Left => "left"@,
        Anchor::Right => "right"@,
        Anchor::Bottom => "bottom"@,
    }
}

pub open spec fn spec_anchor_parse(s: Seq<char>, default: Anchor) -> Anchor {
    if s == "left"@ {
        Anchor::Left
    } else if s == "right"@ {
        Anchor::Right
    } else if s == "bottom"@ {
        Anchor::Bottom
    } else {
        default
    }
}

impl Anchor {
    /// Stable string form for the persisted layout file.
    pub fn as_str(self) -> (r: &'static str)
        ensures
            r@ == spec_anchor_str(self),
    {
        match self {
            Anchor::Left => "left",
            Anchor::Right => "right",
            Anchor::Bottom => "bottom",
        }
    }

    /// Parse [`Anchor::as_str`]; unknown values fall back to `default`.
    pub fn parse(s: &str, default: Anchor) -> (r: Anchor)
        ensures
            r == spec_anchor_parse(s@, default),
    {
        let cs = chars_of(s);
        if eq_str(cs.as_slice(), "left") {
            Anchor::Left
        } else if eq_str(cs.as_slice(), "right") {
            Anchor::Right
        } else if eq_str(cs.as_slice(), "bottom") {
            Anchor::Bottom
        } else {
            default
        }
    }
}

/// Parsing the stored form of an anchor gives the anchor back, whatever
/// the fallback.
pub proof fn lemma_anchor_round_trip(a: Anchor, default: Anchor)
    ensures
        spec_anchor_parse(spec_anchor_str(a), default) == a,
{
    reveal_strlit("left");
    reveal_strlit("right");
    reveal_strlit("bottom");
    assert("right"@.len() != "left"@.len());
    assert("bottom"@.len() != "left"@.len());
    assert("bottom"@.len() != "right"@.len());
}

/// Remembered state for one tool window.
#[derive(Clone, PartialEq, Eq, Debug)]
pub struct WindowState {
    /// Dock edge (`"left"` / `"right"` / `"bottom"`).
    pub anchor: String,
    /// Extent in px (width for Left/Right, height for Bottom).
    pub size: i32,
    /// Whether the window was open.
    pub open: bool,
}

/// The whole layout: one entry per tool-window id.
#[derive(Clone, PartialEq, Eq, Debug)]
pub struct DockLayout {
    pub windows: StrMap<WindowState>,
}

impl Default for DockLayout {
    fn default() -> (d: Self)
        ensures
            d.windows.wf(),
            d.windows@ == Map::<Seq<char>, WindowState>::empty(),
    {
        DockLayout { windows: StrMap::new() }
    }
}

/// The CSS class of a tool window's stripe button: the bottom stripe's
/// buttons are styled apart from the side stripes'.
pub fn stripe_button_class(anchor: Anchor) -> (r: &'static str)
    ensures
        r@ == (if anchor == Anchor::Bottom {
            "bottom-stripe-button"@
        } else {
            "tool-stripe-button"@
        }),
{
    match anchor {
        Anchor::Bottom => "bottom-stripe-button",
        _ => "tool-stripe-button",
    }
}

} // verus!
