//! Collaborative text editing core: a Fugue text CRDT over run-length
//! encoded blocks, with the small CRDT building blocks around it.

pub mod awareness;
pub mod crdt;

use vstd::prelude::*;

verus! {

/// The name of a client or replica.
pub type ClientID = String;

/// The name of a document.
pub type DocumentID = String;

/// The path of a field inside a document.
pub type FieldPath = String;

} // verus!
