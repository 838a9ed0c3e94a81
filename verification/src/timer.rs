//! A named stopwatch that reports its end once.

use vstd::prelude::*;

verus! {

/// A named timer; measuring and printing the time is left to the caller,
/// which reports the end when `end` says so.
pub struct Timer<'a> {
    pub name: &'a str,
    pub has_ended: bool,
}

impl<'a> Timer<'a> {
    /// A running timer called `name`.
    pub fn new(name: &'a str) -> (r: Timer<'a>)
        ensures
            r.name == name,
            !r.has_ended,
    {
        Timer { name, has_ended: false }
    }

    /// Ends the timer. Returns true on the first call only: that is when
    /// the end is to be reported.
    pub fn end(&mut self) -> (report: bool)
        ensures
            report == !old(self).has_ended,
            final(self).has_ended,
            final(self).name == old(self).name,
    {
        if self.has_ended {
            return false;
        }
        self.has_ended = true;
        true
    }
}

} // verus!
