//! External text sources — read-only providers of a document corpus kept
//! outside the project (Apple Notes today). Each registered source renders
//! as its own collapsible tree in the file panel; the app never writes back
//! to a source.

pub mod apple_notes;
pub mod folds;
pub mod model;
pub mod registry;

use vstd::prelude::*;
use model::SourceStatus;

verus! {

/// A read-only external provider of text documents: what the file panel
/// shows about it before any loading happens.
pub trait TextSource {
    /// Stable machine id, e.g. `"apple-notes"`.
    fn id(&self) -> &'static str;

    /// Human label for the tree's root row, e.g. `"Apple Notes"`.
    fn label(&self) -> &'static str;

    /// Bundled icon slug for the root and folder rows.
    fn icon(&self) -> &'static str;

    /// Whether the source can be loaded right now.
    fn status(&self) -> SourceStatus;

    /// Whether this source needs an explicit user "Install" (a permission
    /// grant, a sign-in) before it should be loaded in the background.
    /// Unless a source says otherwise, it does.
    fn requires_install(&self) -> (r: bool)
        default_ensures
            r,
    {
        true
    }
}

} // verus!
