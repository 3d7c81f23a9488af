//! Lamport clock: a per-replica counter that only moves forward.

use vstd::prelude::*;

verus! {

/// Logical clock of one replica.
#[derive(Debug, Clone, Copy, PartialEq, Eq)]
pub struct LamportClock {
    value: u64,
}

impl View for LamportClock {
    type V = u64;

    closed spec fn view(&self) -> u64 {
        self.value
    }
}

impl LamportClock {
    /// A clock at zero.
    pub fn new() -> (c: Self)
        ensures
            c@ == 0,
    {
        LamportClock { value: 0 }
    }

    /// The current value.
    pub fn value(&self) -> (v: u64)
        ensures
            v == self@,
    {
        self.value
    }

    /// Advances the clock by one and returns the new value.
    pub fn tick(&mut self) -> (v: u64)
        requires
            old(self)@ < u64::MAX,
        ensures
            final(self)@ == old(self)@ + 1,
            v == final(self)@,
    {
        self.value = self.value + 1;
        self.value
    }

    /// Advances the clock by `count` and returns the new value, the last
    /// clock of the range `(old, old + count]` that the caller now owns.
    pub fn tick_by(&mut self, count: usize) -> (v: u64)
        requires
            old(self)@ + count <= u64::MAX,
        ensures
            final(self)@ == old(self)@ + count,
            v == final(self)@,
    {
        self.value = self.value + count as u64;
        self.value
    }

    /// Raises the clock to `remote` if that is ahead; never lowers it.
    pub fn update(&mut self, remote: u64)
        ensures
            final(self)@ == if old(self)@ >= remote { old(self)@ } else { remote },
    {
        if remote > self.value {
            self.value = remote;
        }
    }
}

impl Default for LamportClock {
    fn default() -> (c: Self)
        ensures
            c@ == 0,
    {
        LamportClock::new()
    }
}

} // verus!
