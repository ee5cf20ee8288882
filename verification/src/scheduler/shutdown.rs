//! The shutdown latch: armed once by a termination signal, never unarmed.

use vstd::prelude::*;

verus! {

/// A latch that records whether shutdown was requested, and by which signal.
#[derive(Debug)]
pub struct Shutdown {
    signal: Option<&'static str>,
}

impl Shutdown {
    /// Whether the latch is armed.
    pub closed spec fn armed(self) -> bool {
        self.signal is Some
    }

    /// The label of the signal that armed the latch.
    pub closed spec fn label(self) -> Option<&'static str> {
        self.signal
    }

    /// A latch that is not armed.
    pub fn new() -> (latch: Shutdown)
        ensures
            !latch.armed(),
            latch.label() is None,
    {
        Shutdown { signal: None }
    }

    /// Whether shutdown was requested.
    pub fn requested(&self) -> (armed: bool)
        ensures
            armed == self.armed(),
    {
        self.signal.is_some()
    }

    /// The label of the signal that armed the latch, if it is armed.
    pub fn signal(&self) -> (label: Option<&'static str>)
        ensures
            label == self.label(),
            label is Some <==> self.armed(),
    {
        self.signal
    }

    /// Arms the latch with the label of the signal that arrived. A latch that is already
    /// armed stays as it is: later signals change nothing.
    pub fn arm(&mut self, signal: &'static str)
        ensures
            final(self).armed(),
            old(self).armed() ==> *final(self) == *old(self),
            !old(self).armed() ==> final(self).label() == Some(signal),
    {
        if self.signal.is_none() {
            self.signal = Some(signal);
        }
    }
}

impl Default for Shutdown {
    fn default() -> (latch: Shutdown)
        ensures
            !latch.armed(),
    {
        Shutdown::new()
    }
}

} // verus!
