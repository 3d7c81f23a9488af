//! Fugue text CRDT: identifiers, clocks, blocks and the text engine.

pub mod block;
pub mod clock;
pub mod error;
pub mod laws;
pub mod mirror;
pub mod node;
pub mod order;
pub mod position;
pub mod segment;
pub mod split;
pub mod store;
pub mod text;
pub mod tree;

pub use block::FugueBlock;
pub use clock::LamportClock;
pub use error::TextError;
pub use node::NodeId;
pub use text::FugueText;
