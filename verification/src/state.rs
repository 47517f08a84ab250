//! The searcher kept open for the window: `None` until an index could be
//! opened (nothing built yet, or the index is gone), which the window shows
//! as "choose a folder to index".

use vstd::prelude::*;

verus! {

/// The open searcher, if any. Generic over the searcher type, which the
/// shell supplies.
pub struct SearchState<S> {
    searcher: Option<S>,
}

impl<S> SearchState<S> {
    pub closed spec fn searcher(&self) -> Option<S> {
        self.searcher
    }

    /// The state at start-up: the searcher that could be opened, or none
    /// (not being able to open one is no error).
    pub fn load_initial(opened: Option<S>) -> (st: SearchState<S>)
        ensures
            st.searcher() == opened,
    {
        SearchState { searcher: opened }
    }

    /// Puts a freshly opened searcher in place of the old one.
    pub fn replace(&mut self, searcher: S)
        ensures
            final(self).searcher() == Some(searcher),
    {
        self.searcher = Some(searcher);
    }

    /// Drops the searcher (the index is no longer usable).
    pub fn clear(&mut self)
        ensures
            final(self).searcher() == None::<S>,
    {
        self.searcher = None;
    }

    /// The searcher, if one is open.
    pub fn current(&self) -> (r: Option<&S>)
        ensures
            match (r, self.searcher()) {
                (Some(a), Some(b)) => *a == b,
                (None, None) => true,
                _ => false,
            },
    {
        match &self.searcher {
            Some(s) => Some(s),
            None => None,
        }
    }
}

} // verus!
