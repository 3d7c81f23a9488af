//! The errors of the text engine.

use super::node::{id_text, NodeId};
use crate::crdt::decimal::{decimal, digits};
use vstd::prelude::*;
use vstd::string::StringExecFns;

verus! {

/// Why an operation of the text engine was refused. No refused operation
/// changes the engine.
#[derive(Debug, PartialEq, Eq)]
pub enum TextError {
    /// A position past the end of the document.
    PositionOutOfBounds { position: usize, length: usize },
    /// A range that ends past the end of the document.
    RangeOutOfBounds { start: usize, end: usize, length: usize },
    /// No block is stored under the identifier.
    BlockNotFound(NodeId),
    /// The position lies inside a block that would have to be split first.
    BlockSplitRequired,
    /// Split offsets that do not satisfy `offset_start < offset_end <= block_len`.
    InvalidBlockSplit { block_id: NodeId, offset_start: usize, offset_end: usize, block_len: usize },
    /// The text mirror refused an operation.
    RopeError(String),
}

/// The message of an error.
pub open spec fn error_text(e: TextError) -> Seq<char> {
    match e {
        TextError::PositionOutOfBounds { position, length } => "Position "@ + digits(position as nat)
            + " out of bounds (length: "@ + digits(length as nat) + ")"@,
        TextError::RangeOutOfBounds { start, end, length } => "Range "@ + digits(start as nat) + ".."@
            + digits(end as nat) + " out of bounds (length: "@ + digits(length as nat) + ")"@,
        TextError::BlockNotFound(id) => "Block not found: "@ + id_text(id@),
        TextError::BlockSplitRequired => "Block splitting not implemented in Phase 1"@,
        TextError::InvalidBlockSplit { block_id, offset_start, offset_end, block_len } =>
            "Invalid block split: block "@ + id_text(block_id@) + " (length "@ + digits(
                block_len as nat,
            ) + ") cannot be split at "@ + digits(offset_start as nat) + ".."@ + digits(
                offset_end as nat,
            ),
        TextError::RopeError(msg) => "Rope error: "@ + msg@,
    }
}

impl Clone for TextError {
    fn clone(&self) -> (e: Self)
        ensures
            e == *self,
    {
        match self {
            TextError::PositionOutOfBounds { position, length } => TextError::PositionOutOfBounds {
                position: *position,
                length: *length,
            },
            TextError::RangeOutOfBounds { start, end, length } => TextError::RangeOutOfBounds {
                start: *start,
                end: *end,
                length: *length,
            },
            TextError::BlockNotFound(id) => TextError::BlockNotFound(id.clone()),
            TextError::BlockSplitRequired => TextError::BlockSplitRequired,
            TextError::InvalidBlockSplit { block_id, offset_start, offset_end, block_len } =>
                TextError::InvalidBlockSplit {
                    block_id: block_id.clone(),
                    offset_start: *offset_start,
                    offset_end: *offset_end,
                    block_len: *block_len,
                },
            TextError::RopeError(msg) => TextError::RopeError(msg.clone()),
        }
    }
}

impl TextError {
    /// The message of the error.
    pub fn to_string(&self) -> (text: String)
        ensures
            text@ == error_text(*self),
    {
        match self {
            TextError::PositionOutOfBounds { position, length } => {
                let mut text = "Position ".to_owned();
                text.append(decimal(*position as u64).as_str());
                text.append(" out of bounds (length: ");
                text.append(decimal(*length as u64).as_str());
                text.append(")");
                text
            },
            TextError::RangeOutOfBounds { start, end, length } => {
                let mut text = "Range ".to_owned();
                text.append(decimal(*start as u64).as_str());
                text.append("..");
                text.append(decimal(*end as u64).as_str());
                text.append(" out of bounds (length: ");
                text.append(decimal(*length as u64).as_str());
                text.append(")");
                text
            },
            TextError::BlockNotFound(id) => {
                let mut text = "Block not found: ".to_owned();
                text.append(id.to_string().as_str());
                text
            },
            TextError::BlockSplitRequired => {
                "Block splitting not implemented in Phase 1".to_owned()
            },
            TextError::InvalidBlockSplit { block_id, offset_start, offset_end, block_len } => {
                let mut text = "Invalid block split: block ".to_owned();
                text.append(block_id.to_string().as_str());
                text.append(" (length ");
                text.append(decimal(*block_len as u64).as_str());
                text.append(") cannot be split at ");
                text.append(decimal(*offset_start as u64).as_str());
                text.append("..");
                text.append(decimal(*offset_end as u64).as_str());
                text
            },
            TextError::RopeError(msg) => {
                let mut text = "Rope error: ".to_owned();
                text.append(msg.as_str());
                text
            },
        }
    }
}

} // verus!
