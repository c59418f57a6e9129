//! "Latest request wins": slow work (a rhyme lookup, a delayed autosave)
//! is tagged when it starts, and its result is used only if no newer work
//! started since.

use vstd::prelude::*;

verus! {

/// The tag of the most recent piece of work.
pub struct Generation {
    current: u64,
}

impl Generation {
    /// The tag last handed out (0 before any).
    pub closed spec fn view(&self) -> u64 {
        self.current
    }

    /// No work started yet.
    pub fn new() -> (g: Self)
        ensures
            g@ == 0,
    {
        Generation { current: 0 }
    }

    /// Start new work: its tag is the next one (wrapping after the
    /// largest), and every earlier tag goes stale.
    pub fn bump(&mut self) -> (id: u64)
        ensures
            id == (if old(self)@ == u64::MAX {
                0
            } else {
                old(self)@ + 1
            }),
            final(self)@ == id,
    {
        self.current = self.current.wrapping_add(1);
        self.current
    }

    /// Whether work tagged `id` is still the latest, so its result should
    /// be used.
    pub fn is_latest(&self, id: u64) -> (r: bool)
        ensures
            r == (id == self@),
    {
        self.current == id
    }
}

/// Work that started before newer work is stale: once another piece of
/// work has started, an earlier tag is no longer the latest (tags repeat
/// only after 2^64 starts).
pub proof fn lemma_newer_work_wins(before: u64, after: u64)
    requires
        after == (if before == u64::MAX {
            0
        } else {
            before + 1
        }),
    ensures
        after != before,
{
}

} // verus!
