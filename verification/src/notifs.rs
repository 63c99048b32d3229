//! Bookkeeping for audio backend notifications.
//!
//! A missed processing deadline (an xrun) is counted and reported but never
//! interrupts processing. A backend shutdown is fatal and left to the caller
//! that owns the backend connection.

use vstd::prelude::*;

verus! {

/// The running count of missed-deadline reports from the audio backend.
/// Purely observational: the count never feeds back into the engine.
pub struct JackNotifs {
    pub xrun_count: usize,
}

impl JackNotifs {
    /// No deadline has been missed yet.
    pub fn new() -> (r: JackNotifs)
        ensures
            r.xrun_count == 0,
    {
        JackNotifs { xrun_count: 0 }
    }

    /// Records one missed-deadline report and returns the count so far, for
    /// the caller to display.
    pub fn xrun(&mut self) -> (r: usize)
        ensures
            final(self).xrun_count == if old(self).xrun_count == usize::MAX {
                usize::MAX as int
            } else {
                old(self).xrun_count + 1
            },
            r == final(self).xrun_count,
    {
        if self.xrun_count < usize::MAX {
            self.xrun_count = self.xrun_count + 1;
        }
        self.xrun_count
    }
}

} // verus!
