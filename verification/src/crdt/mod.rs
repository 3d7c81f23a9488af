//! Conflict-free replicated data types.

pub mod decimal;
pub mod pn_counter;
pub mod text;
pub mod text_fugue;

pub use pn_counter::PNCounter;
pub use text_fugue::{FugueBlock, FugueText, LamportClock, NodeId, TextError};
