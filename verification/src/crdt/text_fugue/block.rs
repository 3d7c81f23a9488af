//! Blocks: the run of graphemes of one insert, with its Fugue anchors.

use super::node::{opt_id_view, IdView, NodeId};
use super::segment::{grapheme_clusters, grapheme_count};
use vstd::prelude::*;
use vstd::utf8::*;

verus! {

/// What a block is for merging and ordering: everything but its caches.
pub struct BlockView {
    pub id: IdView,
    pub text: Seq<char>,
    pub left_origin: Option<IdView>,
    pub right_origin: Option<IdView>,
    pub deleted: bool,
}

/// A run of graphemes written by one insert.
///
/// `id` names the last character; a block of `n` graphemes owns the `n`
/// clocks that end at `id.clock`. The two origins name the characters the
/// run was inserted between. A deleted block stays as a tombstone.
#[derive(Debug, PartialEq, Eq)]
pub struct FugueBlock {
    /// Identifier of the block's last character.
    pub id: NodeId,
    /// The graphemes of the block.
    pub text: String,
    /// The character this run was inserted after, if any.
    pub left_origin: Option<NodeId>,
    /// The character this run was inserted before, if any.
    pub right_origin: Option<NodeId>,
    /// Tombstone flag.
    pub deleted: bool,
    /// Cached byte position in the text mirror; `usize::MAX` when empty.
    pub rope_start: usize,
    /// Cached grapheme start position; `usize::MAX` when empty.
    pub cached_start_pos: usize,
}

impl View for FugueBlock {
    type V = BlockView;

    open spec fn view(&self) -> BlockView {
        BlockView {
            id: self.id@,
            text: self.text@,
            left_origin: opt_id_view(self.left_origin),
            right_origin: opt_id_view(self.right_origin),
            deleted: self.deleted,
        }
    }
}

/// A cache slot's content: `usize::MAX` stands for "nothing cached".
pub open spec fn slot_of(raw: usize) -> Option<usize> {
    if raw == usize::MAX {
        None
    } else {
        Some(raw)
    }
}

/// A copy of an optional identifier.
pub fn clone_origin(origin: &Option<NodeId>) -> (copy: Option<NodeId>)
    ensures
        copy == *origin,
{
    match origin {
        Some(id) => Some(id.clone()),
        None => None,
    }
}

impl FugueBlock {
    /// The cached byte position in the text mirror, if one is cached.
    pub open spec fn rope_slot(&self) -> Option<usize> {
        slot_of(self.rope_start)
    }

    /// The cached grapheme start position, if one is cached.
    pub open spec fn position_slot(&self) -> Option<usize> {
        slot_of(self.cached_start_pos)
    }

    /// A live block with empty caches.
    pub fn new(
        id: NodeId,
        text: String,
        left_origin: Option<NodeId>,
        right_origin: Option<NodeId>,
    ) -> (block: Self)
        ensures
            block.id == id,
            block.text == text,
            block.left_origin == left_origin,
            block.right_origin == right_origin,
            !block.deleted,
            block.rope_slot() is None,
            block.position_slot() is None,
    {
        FugueBlock {
            id,
            text,
            left_origin,
            right_origin,
            deleted: false,
            rope_start: usize::MAX,
            cached_start_pos: usize::MAX,
        }
    }

    /// Whether the block is a tombstone.
    pub fn is_deleted(&self) -> (deleted: bool)
        ensures
            deleted == self.deleted,
    {
        self.deleted
    }

    /// Turns the block into a tombstone; nothing else changes.
    pub fn mark_deleted(&mut self)
        ensures
            final(self)@ == (BlockView { deleted: true, ..old(self)@ }),
            final(self).id == old(self).id,
            final(self).text == old(self).text,
            final(self).left_origin == old(self).left_origin,
            final(self).right_origin == old(self).right_origin,
            final(self).rope_slot() == old(self).rope_slot(),
            final(self).position_slot() == old(self).position_slot(),
    {
        self.deleted = true;
    }

    /// The number of grapheme clusters in the block.
    pub fn len(&self) -> (n: usize)
        ensures
            n == grapheme_count(self.text@),
    {
        let parts = grapheme_clusters(self.text.as_str());
        parts.len()
    }

    /// The number of bytes of the block's text in UTF-8.
    pub fn byte_len(&self) -> (n: usize)
        ensures
            n == encode_utf8(self.text@).len(),
    {
        self.text.as_str().as_bytes().len()
    }

    /// Whether the block holds no text.
    pub fn is_empty(&self) -> (empty: bool)
        ensures
            empty == (self.text@.len() == 0),
    {
        self.text.as_str().is_empty()
    }

    /// The cached byte position in the text mirror.
    pub fn rope_position(&self) -> (pos: Option<usize>)
        ensures
            pos == self.rope_slot(),
    {
        if self.rope_start == usize::MAX {
            None
        } else {
            Some(self.rope_start)
        }
    }

    /// Caches a byte position; `usize::MAX` empties the slot.
    pub fn set_rope_position(&mut self, pos: usize)
        ensures
            final(self).rope_slot() == slot_of(pos),
            final(self).position_slot() == old(self).position_slot(),
            final(self)@ == old(self)@,
            final(self).id == old(self).id,
    {
        self.rope_start = pos;
    }

    /// Empties the byte position slot.
    pub fn invalidate_rope_position(&mut self)
        ensures
            final(self).rope_slot() is None,
            final(self).position_slot() == old(self).position_slot(),
            final(self)@ == old(self)@,
            final(self).id == old(self).id,
    {
        self.rope_start = usize::MAX;
    }

    /// The cached grapheme start position.
    pub fn cached_position(&self) -> (pos: Option<usize>)
        ensures
            pos == self.position_slot(),
    {
        if self.cached_start_pos == usize::MAX {
            None
        } else {
            Some(self.cached_start_pos)
        }
    }

    /// Caches a grapheme start position; `usize::MAX` empties the slot.
    pub fn set_cached_position(&mut self, pos: usize)
        ensures
            final(self).position_slot() == slot_of(pos),
            final(self).rope_slot() == old(self).rope_slot(),
            final(self)@ == old(self)@,
            final(self).id == old(self).id,
    {
        self.cached_start_pos = pos;
    }

    /// Empties the grapheme start position slot.
    pub fn invalidate_cached_position(&mut self)
        ensures
            final(self).position_slot() is None,
            final(self).rope_slot() == old(self).rope_slot(),
            final(self)@ == old(self)@,
            final(self).id == old(self).id,
    {
        self.cached_start_pos = usize::MAX;
    }
}

impl Default for FugueBlock {
    fn default() -> (block: Self)
        ensures
            block@ == (BlockView {
                id: IdView { client: Seq::empty(), clock: 0, offset: 0 },
                text: Seq::empty(),
                left_origin: None,
                right_origin: None,
                deleted: false,
            }),
            block.rope_slot() is None,
            block.position_slot() is None,
    {
        FugueBlock::new(NodeId::new(String::new(), 0, 0), String::new(), None, None)
    }
}

impl Clone for FugueBlock {
    fn clone(&self) -> (block: Self)
        ensures
            block == *self,
    {
        FugueBlock {
            id: self.id.clone(),
            text: self.text.clone(),
            left_origin: clone_origin(&self.left_origin),
            right_origin: clone_origin(&self.right_origin),
            deleted: self.deleted,
            rope_start: self.rope_start,
            cached_start_pos: self.cached_start_pos,
        }
    }
}

} // verus!
