//! Presence: who is connected and what each client says about itself.

pub mod clock;
pub mod state;

pub use clock::IncreasingClock;
pub use state::{Awareness, AwarenessState, AwarenessUpdate};

use vstd::prelude::*;

verus! {

/// After how many milliseconds without an update a client counts as gone.
pub const DEFAULT_TIMEOUT: u64 = 30000;

/// How many milliseconds may pass between two updates of a live client.
pub const HEARTBEAT_INTERVAL: u64 = 10000;

} // verus!
