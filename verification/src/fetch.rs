//! Decision logic of the unit-id fetch tool: a resumable cursor over a
//! paged remote listing.  The host performs the page requests and the
//! file I/O; this state decides how far the cursor advances and when the
//! run is complete.

use vstd::prelude::*;

verus! {

/// The fetch tool's resumable state: the next page offset and the ids
/// collected so far.
pub struct FetcherState {
    pub offset: u64,
    pub canisters: Vec<String>,
}

impl FetcherState {
    /// A fresh run: cursor at the start, nothing collected.
    pub fn new() -> (r: Self)
        ensures
            r.offset == 0,
            r.canisters@.len() == 0,
    {
        FetcherState { offset: 0, canisters: Vec::new() }
    }

    /// Records one fetched page: the ids are appended, the cursor
    /// advances by the page's size, and the run goes on exactly when the
    /// page was non-empty and the target is not yet reached.
    pub fn apply_batch(&mut self, ids: Vec<String>, target: u64) -> (go_on: bool)
        requires
            old(self).offset + ids@.len() <= u64::MAX,
            old(self).canisters@.len() + ids@.len() <= usize::MAX,
        ensures
            final(self).offset == old(self).offset + ids@.len(),
            final(self).canisters@ == old(self).canisters@ + ids@,
            go_on == (ids@.len() > 0 && (final(self).canisters@.len() as u64) < target),
    {
        let got = ids.len();
        let mut page = ids;
        self.canisters.append(&mut page);
        self.offset = self.offset + got as u64;
        got > 0 && (self.canisters.len() as u64) < target
    }
}

} // verus!
