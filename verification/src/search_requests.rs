//! The bookkeeping of the search panel's store requests. Every refresh of
//! the filters starts a new generation; a reply that arrives after a later
//! refresh answers a question nobody asks any more and is dropped.
use vstd::prelude::*;
use crate::search::ResultsSource;

verus! {

/// The generation of the latest refresh and whether its reply is awaited.
#[derive(Debug)]
pub struct SearchRequests {
    pub generation: usize,
    pub is_searching: bool,
}

/// Whether a reply to the request of generation `generation` is taken when
/// the latest refresh is `latest`.
pub open spec fn reply_current(latest: usize, generation: usize) -> bool {
    latest == generation
}

impl SearchRequests {
    /// No refresh yet, nothing awaited.
    pub fn new() -> (r: Self)
        ensures
            r.generation == 0,
            !r.is_searching,
    {
        SearchRequests { generation: 0, is_searching: false }
    }

    /// Starts a refresh whose results come from `source`, and returns its
    /// generation. A request is awaited unless there is nothing to look for,
    /// in which case the results are simply cleared. After it, no reply to
    /// any earlier request is taken.
    pub fn begin_refresh(&mut self, source: &ResultsSource) -> (r: usize)
        requires
            old(self).generation < usize::MAX,
        ensures
            final(self).generation == old(self).generation + 1,
            r == final(self).generation,
            final(self).is_searching == !(source is Nothing),
            forall|g: usize| g <= old(self).generation ==> !reply_current(final(self).generation, g),
    {
        self.generation = self.generation + 1;
        self.is_searching = match source {
            ResultsSource::Nothing => false,
            _ => true,
        };
        self.generation
    }

    /// Whether a reply to the request of generation `generation` is taken.
    pub fn is_current(&self, generation: usize) -> (r: bool)
        ensures
            r == reply_current(self.generation, generation),
    {
        self.generation == generation
    }

    /// Takes in the reply to the request of generation `generation`, whether
    /// it brought records or failed: when it is current the wait is over and
    /// `true` says that its records replace the results; a stale reply
    /// changes nothing.
    pub fn finish(&mut self, generation: usize) -> (taken: bool)
        ensures
            taken == reply_current(old(self).generation, generation),
            final(self).generation == old(self).generation,
            taken ==> !final(self).is_searching,
            !taken ==> final(self).is_searching == old(self).is_searching,
    {
        if self.generation == generation {
            self.is_searching = false;
            true
        } else {
            false
        }
    }
}

} // verus!
