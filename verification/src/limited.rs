//! A vector wrapper whose reports show only a short prefix.
//!
//! Diagnostic output of wide lanes would flood a log; a `LimitedVec` shows
//! at most `LIMIT` leading entries and marks the elision.

use vstd::prelude::*;

verus! {

/// How many leading entries a report shows.
pub const LIMIT: usize = 4;

/// A vector whose reports are truncated to a short prefix.
#[derive(Clone, PartialEq, Eq, PartialOrd, Ord)]
pub struct LimitedVec<T>(pub Vec<T>);

impl<T> LimitedVec<T> {
    /// How many entries a report of this vector shows: at most `LIMIT`.
    pub fn shown_len(&self) -> (r: usize)
        ensures
            r as int == if self.0@.len() >= LIMIT as int {
                LIMIT as int
            } else {
                self.0@.len() as int
            },
    {
        if self.0.len() >= LIMIT {
            LIMIT
        } else {
            self.0.len()
        }
    }

    /// Whether a report of this vector elides trailing entries.
    pub fn elided(&self) -> (r: bool)
        ensures
            r <==> self.0@.len() > LIMIT as int,
    {
        self.0.len() > LIMIT
    }
}

} // verus!
