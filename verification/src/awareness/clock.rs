//! A counter that orders the presence updates of one client.

use vstd::prelude::*;

verus! {

/// A clock that counts up by one and can be moved to a remote value.
#[derive(Debug)]
pub struct IncreasingClock {
    value: u64,
}

impl View for IncreasingClock {
    type V = u64;

    closed spec fn view(&self) -> u64 {
        self.value
    }
}

impl IncreasingClock {
    /// A clock at zero.
    pub fn new() -> (clock: Self)
        ensures
            clock@ == 0,
    {
        IncreasingClock { value: 0 }
    }

    /// Counts one up and returns the new value.
    pub fn increment(&mut self) -> (value: u64)
        requires
            old(self)@ < u64::MAX,
        ensures
            final(self)@ == old(self)@ + 1,
            value == final(self)@,
    {
        self.value = self.value + 1;
        self.value
    }

    /// The current value.
    pub fn get(&self) -> (value: u64)
        ensures
            value == self@,
    {
        self.value
    }

    /// Moves the clock to `value`, forward or back.
    pub fn set(&mut self, value: u64)
        ensures
            final(self)@ == value,
    {
        self.value = value;
    }

    /// Moves the clock forward to `other` if that is ahead.
    pub fn update_to_max(&mut self, other: u64)
        ensures
            final(self)@ == if old(self)@ >= other { old(self)@ } else { other },
    {
        if other > self.value {
            self.value = other;
        }
    }
}

impl Default for IncreasingClock {
    fn default() -> (clock: Self)
        ensures
            clock@ == 0,
    {
        IncreasingClock::new()
    }
}

impl Clone for IncreasingClock {
    fn clone(&self) -> (clock: Self)
        ensures
            clock@ == self@,
    {
        IncreasingClock { value: self.value }
    }
}

} // verus!
