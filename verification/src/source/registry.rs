//! The one place external sources are registered. The file panel iterates
//! this; adding a backend means adding it here and nowhere else.

use vstd::prelude::*;
use super::apple_notes::AppleNotesSource;

verus! {

/// Ordered set of the app's registered sources.
pub struct SourceRegistry {
    sources: Vec<AppleNotesSource>,
}

impl SourceRegistry {
    /// The registered sources, in display order.
    pub closed spec fn source_list(&self) -> Seq<AppleNotesSource> {
        self.sources@
    }

    /// The registry the app ships with. Apple Notes is the only backend,
    /// and it only exists on macOS — elsewhere the registry is empty (the
    /// panel then hides itself).
    pub fn with_defaults(on_macos: bool) -> (r: Self)
        ensures
            r.source_list().len() == if on_macos { 1nat } else { 0nat },
            forall|i: int|
                0 <= i < r.source_list().len() ==> #[trigger] r.source_list()[i].is_ready()
                    && r.source_list()[i].wf() && r.source_list()[i].workspace_root() is None
                    && r.source_list()[i].body_map() == Map::<Seq<char>, Seq<char>>::empty(),
    {
        let mut sources: Vec<AppleNotesSource> = Vec::new();
        if on_macos {
            sources.push(AppleNotesSource::new(true));
        }
        SourceRegistry { sources }
    }

    /// Every registered source, in display order.
    pub fn sources(&self) -> (r: &[AppleNotesSource])
        ensures
            r@ == self.source_list(),
    {
        self.sources.as_slice()
    }
}

} // verus!
