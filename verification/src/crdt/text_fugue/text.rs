//! The text engine: one replica of a collaboratively edited text.
//!
//! The engine owns a block store, a Lamport clock and a rope that mirrors
//! the visible text. Positions and lengths count the grapheme clusters of
//! the mirror.

use super::block::{BlockView, FugueBlock};
use super::clock::LamportClock;
use super::error::TextError;
use super::laws::{
    lemma_anchor_in_order, lemma_empty_in_order, lemma_insert_keeps_order, ranges_in_order,
};
use super::mirror::{
    cut, rope_char_to_byte, rope_clone, rope_from_str, rope_insert, rope_len_chars, rope_new,
    rope_remove, rope_text, rope_to_string, spliced,
};
use super::node::{IdView, NodeId};
use super::position::{
    build_spans, doc_spans, find_span_with_id, id_at, lemma_located_start, lemma_spans_chained,
    locate_span, origins_at, position_of, span_char_id, span_last_char_id, span_views, CachedSpan,
};
use super::segment::{
    grapheme_clusters, grapheme_count, grapheme_offset, lemma_concat_prefix_len,
    lemma_concat_prefix_monotone, prefix_chars, texts_of,
};
use super::split::{
    apply_splits, collect_overlaps, deleted_range, id_views, item_views, lemma_apply_items_reaches,
    lemma_nothing_recorded,
};
use super::store::{
    absorb, absorb_all, absorbed, block_views, clock_reached, clone_blocks, lemma_absorbed_ids,
    lemma_absorbed_keeps_tombstones, lemma_max_clock_upto, lemma_merged_reaches,
    lemma_tombstones_kept_reflexive, max_block_clock, max_clock, merged, sorted, tombstones_kept,
};
use super::tree::{
    block_first_clock, document_order, document_string, document_text, find_block_for_nodeid,
};
use ropey::Rope;
use vstd::prelude::*;
use vstd::utf8::*;

verus! {

/// One replica of a shared text.
#[derive(Debug)]
pub struct FugueText {
    rope: Rope,
    blocks: Vec<FugueBlock>,
    clock: LamportClock,
    client_id: String,
    cache_valid: bool,
    cached_blocks: Vec<CachedSpan>,
}

/// The block that an insert of `text` at clock `clock` writes.
pub open spec fn inserted_block(
    replica: Seq<char>,
    clock: u64,
    text: Seq<char>,
    origins: (Option<IdView>, Option<IdView>),
) -> BlockView {
    BlockView {
        id: IdView { client: replica, clock, offset: 0 },
        text,
        left_origin: origins.0,
        right_origin: origins.1,
        deleted: false,
    }
}

impl FugueText {
    /// The block store, in identifier order.
    pub closed spec fn store(&self) -> Seq<BlockView> {
        block_views(self.blocks@)
    }

    /// The text that the mirror holds: what `to_string` returns.
    pub closed spec fn mirror(&self) -> Seq<char> {
        rope_text(self.rope)
    }

    /// The value of the Lamport clock.
    pub closed spec fn clock_value(&self) -> u64 {
        self.clock@
    }

    /// The name of this replica.
    pub closed spec fn replica(&self) -> Seq<char> {
        self.client_id@
    }

    /// The length of the document in graphemes.
    pub open spec fn length(&self) -> nat {
        grapheme_count(self.mirror())
    }

    /// The engine's invariant: the store is in identifier order without
    /// repeats, some identifier in it carries a clock at least as large as
    /// the engine's clock (unless that is zero), and a position cache that
    /// is marked valid matches the store.
    pub closed spec fn wf(&self) -> bool {
        &&& sorted(block_views(self.blocks@))
        &&& clock_reached(block_views(self.blocks@), self.clock@)
        &&& self.cache_valid ==> span_views(self.cached_blocks@) == doc_spans(
            block_views(self.blocks@),
        )
    }

    /// Whether the clock ranges of the store are in order under the
    /// engine's clock. An engine that only inserts stays so.
    pub open spec fn ranges_in_order(&self) -> bool {
        ranges_in_order(self.store(), self.clock_value())
    }

    /// What `insert` does, for the engine before and after the call.
    pub open spec fn inserted(
        pre: &FugueText,
        post: &FugueText,
        position: usize,
        text: Seq<char>,
        r: Result<NodeId, TextError>,
    ) -> bool {
        &&& post.replica() == pre.replica()
        &&& tombstones_kept(pre.store(), post.store())
        &&& post.clock_value() >= pre.clock_value()
        &&& pre.ranges_in_order() ==> post.ranges_in_order()
        &&& position > pre.length() ==> r == Err::<NodeId, TextError>(
            TextError::PositionOutOfBounds { position, length: pre.length() as usize },
        ) && post.store() == pre.store() && post.mirror() == pre.mirror() && post.clock_value()
            == pre.clock_value()
        &&& position <= pre.length() ==> r is Ok && r->Ok_0@ == (IdView {
            client: pre.replica(),
            clock: (pre.clock_value() + grapheme_count(text)) as u64,
            offset: 0,
        }) && post.clock_value() == pre.clock_value() + grapheme_count(text) && post.store()
            == absorbed(
            pre.store(),
            inserted_block(
                pre.replica(),
                (pre.clock_value() + grapheme_count(text)) as u64,
                text,
                origins_at(doc_spans(pre.store()), position as nat),
            ),
        ) && post.mirror() == spliced(
            pre.mirror(),
            grapheme_offset(pre.mirror(), position as int) as int,
            text,
        )
    }

    /// An empty document for replica `client_id`.
    pub fn new(client_id: String) -> (engine: Self)
        ensures
            engine.wf(),
            engine.store() == Seq::<BlockView>::empty(),
            engine.mirror() == Seq::<char>::empty(),
            engine.clock_value() == 0,
            engine.replica() == client_id@,
            engine.ranges_in_order(),
    {
        let engine = FugueText {
            rope: rope_new(),
            blocks: Vec::new(),
            clock: LamportClock::new(),
            client_id,
            cache_valid: true,
            cached_blocks: Vec::new(),
        };
        assert(block_views(engine.blocks@) =~= Seq::<BlockView>::empty());
        assert(span_views(engine.cached_blocks@) =~= doc_spans(Seq::<BlockView>::empty()));
        proof {
            lemma_empty_in_order(block_views(engine.blocks@), 0);
        }
        engine
    }

    /// The number of grapheme clusters of the visible text.
    pub fn len(&self) -> (n: usize)
        ensures
            n == self.length(),
    {
        let text = rope_to_string(&self.rope);
        let clusters = grapheme_clusters(text.as_str());
        clusters.len()
    }

    /// Whether the visible text is empty.
    pub fn is_empty(&self) -> (empty: bool)
        ensures
            empty == (self.mirror().len() == 0),
    {
        rope_len_chars(&self.rope) == 0
    }

    /// The visible text.
    pub fn to_string(&self) -> (text: String)
        ensures
            text@ == self.mirror(),
    {
        rope_to_string(&self.rope)
    }

    /// The name of this replica.
    pub fn client_id(&self) -> (name: &str)
        ensures
            name@ == self.replica(),
    {
        self.client_id.as_str()
    }

    /// The current value of the Lamport clock.
    pub fn clock(&self) -> (value: u64)
        ensures
            value == self.clock_value(),
    {
        self.clock.value()
    }

    /// The number of blocks in the store, tombstones included.
    pub fn block_count(&self) -> (n: usize)
        ensures
            n == self.store().len(),
    {
        self.blocks.len()
    }

    /// Brings the position cache up to date with the store.
    fn rebuild_position_cache(&mut self)
        requires
            old(self).wf(),
        ensures
            final(self).wf(),
            final(self).cache_valid,
            final(self).blocks == old(self).blocks,
            final(self).rope == old(self).rope,
            final(self).clock == old(self).clock,
            final(self).client_id == old(self).client_id,
    {
        self.cached_blocks = build_spans(&self.blocks);
        self.cache_valid = true;
    }

    /// The origins of an insert at `grapheme_pos`: the characters just
    /// before and just after that position in document order.
    fn find_origins(&mut self, grapheme_pos: usize) -> (origins: (Option<NodeId>, Option<NodeId>))
        requires
            old(self).wf(),
        ensures
            final(self).wf(),
            final(self).blocks == old(self).blocks,
            final(self).rope == old(self).rope,
            final(self).clock == old(self).clock,
            final(self).client_id == old(self).client_id,
            (super::node::opt_id_view(origins.0), super::node::opt_id_view(origins.1)) == origins_at(
                doc_spans(old(self).store()),
                grapheme_pos as nat,
            ),
    {
        if !self.cache_valid {
            self.rebuild_position_cache();
        }
        let ghost spans = span_views(self.cached_blocks@);
        proof {
            lemma_spans_chained(block_views(self.blocks@), super::tree::document_order(block_views(self.blocks@)));
        }
        if self.cached_blocks.len() == 0 {
            return (None, None);
        }
        let idx = locate_span(&self.cached_blocks, grapheme_pos);
        if idx >= self.cached_blocks.len() {
            let last = &self.cached_blocks[self.cached_blocks.len() - 1];
            assert(last@ == spans.last());
            return (Some(span_last_char_id(last)), None);
        }
        proof {
            lemma_located_start(spans, grapheme_pos as nat);
        }
        let span = &self.cached_blocks[idx];
        assert(span@ == spans[idx as int]);
        if grapheme_pos <= span.start {
            let right = Some(span_char_id(span, 0));
            if idx > 0 {
                let prev = &self.cached_blocks[idx - 1];
                assert(prev@ == spans[idx - 1]);
                (Some(span_last_char_id(prev)), right)
            } else {
                (None, right)
            }
        } else {
            let offset_in_block = grapheme_pos - span.start;
            (Some(span_char_id(span, offset_in_block - 1)), Some(span_char_id(span, offset_in_block)))
        }
    }

    /// The byte index in the mirror at which character `char_pos` starts.
    pub fn char_to_byte(&self, char_pos: usize) -> (r: Result<usize, TextError>)
        ensures
            char_pos > self.mirror().len() ==> r == Err::<usize, TextError>(
                TextError::PositionOutOfBounds { position: char_pos, length: self.mirror().len() as usize },
            ),
            char_pos <= self.mirror().len() ==> r == Ok::<usize, TextError>(
                encode_utf8(self.mirror().take(char_pos as int)).len() as usize,
            ),
    {
        let len_chars = rope_len_chars(&self.rope);
        if char_pos > len_chars {
            return Err(TextError::PositionOutOfBounds { position: char_pos, length: len_chars });
        }
        Ok(rope_char_to_byte(&self.rope, char_pos))
    }

    /// Empties the byte position slot of every block whose cached byte
    /// position is at or after `from_byte_pos`.
    fn invalidate_position_cache(&mut self, from_byte_pos: usize)
        ensures
            block_views(final(self).blocks@) == block_views(old(self).blocks@),
            final(self).blocks@.len() == old(self).blocks@.len(),
            forall|i: int|
                0 <= i < old(self).blocks@.len() ==> (#[trigger] final(self).blocks@[i]).rope_slot() == (
                match old(self).blocks@[i].rope_slot() {
                    Some(at) => if at >= from_byte_pos {
                        None
                    } else {
                        Some(at)
                    },
                    None => None,
                }),
            final(self).rope == old(self).rope,
            final(self).clock == old(self).clock,
            final(self).client_id == old(self).client_id,
            final(self).cache_valid == old(self).cache_valid,
            final(self).cached_blocks == old(self).cached_blocks,
    {
        let mut i: usize = 0;
        while i < self.blocks.len()
            invariant
                i <= self.blocks@.len() == old(self).blocks@.len(),
                forall|j: int| 0 <= j < self.blocks@.len() ==> (#[trigger] self.blocks@[j])@ == old(self).blocks@[j]@,
                forall|j: int|
                    0 <= j < i ==> (#[trigger] self.blocks@[j]).rope_slot() == (match old(self).blocks@[j].rope_slot() {
                        Some(at) => if at >= from_byte_pos {
                            None
                        } else {
                            Some(at)
                        },
                        None => None,
                    }),
                forall|j: int| i <= j < self.blocks@.len() ==> (#[trigger] self.blocks@[j]) == old(self).blocks@[j],
                self.rope == old(self).rope,
                self.clock == old(self).clock,
                self.client_id == old(self).client_id,
                self.cache_valid == old(self).cache_valid,
                self.cached_blocks == old(self).cached_blocks,
            decreases self.blocks@.len() - i,
        {
            match self.blocks[i].rope_position() {
                Some(rope_pos) => {
                    if rope_pos >= from_byte_pos {
                        self.blocks[i].invalidate_rope_position();
                    }
                },
                None => {},
            }
            i = i + 1;
        }
        assert(block_views(self.blocks@) =~= block_views(old(self).blocks@));
    }

    /// Marks the position cache stale after an insert.
    fn update_cache_after_insert(&mut self)
        ensures
            !final(self).cache_valid,
            final(self).blocks == old(self).blocks,
            final(self).rope == old(self).rope,
            final(self).clock == old(self).clock,
            final(self).client_id == old(self).client_id,
    {
        self.cache_valid = false;
    }

    /// Inserts `text` at grapheme position `position` and returns the
    /// identifier of the block written.
    ///
    /// A position past the end is refused with `PositionOutOfBounds` and
    /// nothing changes. Otherwise the clock advances by the grapheme count
    /// of `text`, a block that ends at the new clock and is anchored to the
    /// characters around `position` is taken into the store, and `text` is
    /// put into the visible text at that grapheme boundary.
    pub fn insert(&mut self, position: usize, text: &str) -> (r: Result<NodeId, TextError>)
        requires
            old(self).wf(),
            old(self).clock_value() + grapheme_count(text@) <= u64::MAX,
        ensures
            final(self).wf(),
            FugueText::inserted(old(self), final(self), position, text@, r),
    {
        let visible = rope_to_string(&self.rope);
        let clusters = grapheme_clusters(visible.as_str());
        let len = clusters.len();
        proof {
            lemma_tombstones_kept_reflexive(block_views(self.blocks@));
        }
        if position > len {
            return Err(TextError::PositionOutOfBounds { position, length: len });
        }
        let origins = self.find_origins(position);
        let char_count = grapheme_clusters(text).len();
        let timestamp = self.clock.tick_by(char_count);
        let id = NodeId::new(self.client_id.clone(), timestamp, 0);
        let block = FugueBlock::new(id.clone(), text.to_owned(), origins.0, origins.1);
        proof {
            lemma_absorbed_keeps_tombstones(block_views(self.blocks@), block@);
            lemma_absorbed_ids(block_views(self.blocks@), block@);
            if old(self).ranges_in_order() {
                lemma_insert_keeps_order(block_views(self.blocks@), block@, old(self).clock@);
            }
        }
        absorb(&mut self.blocks, block);
        proof {
            lemma_concat_prefix_len(texts_of(clusters@), position as int);
        }
        let char_idx = prefix_chars(&clusters, position, rope_len_chars(&self.rope));
        let byte_pos = match self.char_to_byte(char_idx) {
            Ok(byte_pos) => byte_pos,
            Err(e) => {
                return Err(e);
            },
        };
        rope_insert(&mut self.rope, char_idx, text);
        self.invalidate_position_cache(byte_pos);
        self.update_cache_after_insert();
        Ok(id)
    }

    /// `insert` for any text: returns `None`, and changes nothing, where
    /// the clock cannot advance by the grapheme count of `text`.
    pub fn try_insert(&mut self, position: usize, text: &str) -> (r: Option<Result<NodeId, TextError>>)
        requires
            old(self).wf(),
        ensures
            final(self).wf(),
            r is None <==> old(self).clock_value() + grapheme_count(text@) > u64::MAX,
            r is Some ==> FugueText::inserted(old(self), final(self), position, text@, r->0),
            r is None ==> final(self).store() == old(self).store() && final(self).mirror() == old(
                self
            ).mirror() && final(self).clock_value() == old(self).clock_value() && final(
                self
            ).replica() == old(self).replica(),
    {
        let char_count = grapheme_clusters(text).len();
        if char_count as u64 > u64::MAX - self.clock.value() {
            None
        } else {
            Some(self.insert(position, text))
        }
    }

    /// The identifier of the character at grapheme position `position`.
    ///
    /// The identifier is the character's own: its replica and its clock,
    /// with offset zero. It stays the character's name whatever is
    /// inserted or deleted around it. A position at or past the end, or one
    /// that the live blocks do not reach, is refused with
    /// `PositionOutOfBounds`.
    pub fn get_node_id_at_position(&mut self, position: usize) -> (r: Result<NodeId, TextError>)
        requires
            old(self).wf(),
        ensures
            final(self).wf(),
            final(self).store() == old(self).store(),
            final(self).mirror() == old(self).mirror(),
            final(self).clock_value() == old(self).clock_value(),
            final(self).replica() == old(self).replica(),
            match r {
                Ok(id) => position < old(self).length() && id_at(
                    doc_spans(old(self).store()),
                    position as nat,
                ) == Some(id@) && (old(self).ranges_in_order() ==> position_of(
                    old(self).store(),
                    id@,
                ) == Some(position)),
                Err(e) => e == (TextError::PositionOutOfBounds {
                    position,
                    length: old(self).length() as usize,
                }) && (position >= old(self).length() || id_at(
                    doc_spans(old(self).store()),
                    position as nat,
                ) is None),
            },
    {
        let len = self.len();
        if position >= len {
            return Err(TextError::PositionOutOfBounds { position, length: len });
        }
        if !self.cache_valid {
            self.rebuild_position_cache();
        }
        let ghost spans = span_views(self.cached_blocks@);
        proof {
            lemma_spans_chained(
                block_views(self.blocks@),
                super::tree::document_order(block_views(self.blocks@)),
            );
        }
        let idx = locate_span(&self.cached_blocks, position);
        if idx >= self.cached_blocks.len() {
            return Err(TextError::PositionOutOfBounds { position, length: len });
        }
        proof {
            lemma_located_start(spans, position as nat);
        }
        let span = &self.cached_blocks[idx];
        assert(span@ == spans[idx as int]);
        proof {
            if old(self).ranges_in_order() {
                assert(block_views(self.blocks@).len() == self.blocks.len());
                lemma_anchor_in_order(block_views(self.blocks@), self.clock@, position);
            }
        }
        Ok(span_char_id(span, position - span.start))
    }

    /// The current position of the character named by `node_id`.
    ///
    /// `None` if no block owns the character, if it was deleted, or if its
    /// block is out of the document order.
    pub fn get_position_of_node_id(&mut self, node_id: &NodeId) -> (r: Option<usize>)
        requires
            old(self).wf(),
        ensures
            final(self).wf(),
            final(self).store() == old(self).store(),
            final(self).mirror() == old(self).mirror(),
            final(self).clock_value() == old(self).clock_value(),
            final(self).replica() == old(self).replica(),
            r == position_of(old(self).store(), node_id@),
    {
        if !self.cache_valid {
            self.rebuild_position_cache();
        }
        let ghost s = block_views(self.blocks@);
        let ghost spans = span_views(self.cached_blocks@);
        let block_idx = match find_block_for_nodeid(&self.blocks, node_id) {
            Some(i) => i,
            None => {
                return None;
            },
        };
        let block = &self.blocks[block_idx];
        assert(block@ == s[block_idx as int]);
        if block.deleted {
            return None;
        }
        let block_start_clock = block_first_clock(block.id.clock, block.len());
        let offset_in_block = node_id.clock - block_start_clock;
        match find_span_with_id(&self.cached_blocks, &block.id) {
            Some(k) => {
                let span = &self.cached_blocks[k];
                assert(span@ == spans[k as int]);
                if offset_in_block > (usize::MAX - span.start) as u64 {
                    None
                } else {
                    Some(span.start + offset_in_block as usize)
                }
            },
            None => None,
        }
    }

    /// Rebuilds the mirror from the store: the texts of the live blocks in
    /// document order.
    fn rebuild_rope(&mut self)
        requires
            old(self).wf(),
        ensures
            final(self).wf(),
            final(self).mirror() == document_text(old(self).store()),
            final(self).store() == old(self).store(),
            final(self).clock == old(self).clock,
            final(self).client_id == old(self).client_id,
    {
        let ghost s = block_views(self.blocks@);
        let mut i: usize = 0;
        while i < self.blocks.len()
            invariant
                i <= self.blocks@.len(),
                s == block_views(self.blocks@),
                self.clock == old(self).clock,
                self.client_id == old(self).client_id,
            decreases self.blocks@.len() - i,
        {
            self.blocks[i].invalidate_rope_position();
            assert(block_views(self.blocks@) =~= s);
            i = i + 1;
        }
        let text = document_string(&self.blocks);
        self.rope = rope_from_str(text.as_str());
        self.cache_valid = false;
    }

    /// Deletes `length` graphemes from position `position` on and returns
    /// the identifiers of the tombstones that now stand for them.
    ///
    /// A range that ends past the end of the document is refused with
    /// `RangeOutOfBounds` and nothing changes. Otherwise every live block
    /// that the range overlaps, in document order, loses the graphemes in
    /// the range: a block that goes whole becomes a tombstone, any other is
    /// split around a tombstone. Where a tombstone was made, the graphemes
    /// of the range leave the visible text. The clock stays as it is.
    pub fn delete(&mut self, position: usize, length: usize) -> (r: Result<Vec<NodeId>, TextError>)
        requires
            old(self).wf(),
            position + length <= usize::MAX,
        ensures
            final(self).wf(),
            final(self).replica() == old(self).replica(),
            final(self).clock_value() == old(self).clock_value(),
            tombstones_kept(old(self).store(), final(self).store()),
            position + length > old(self).length() ==> r == Err::<Vec<NodeId>, TextError>(
                TextError::RangeOutOfBounds {
                    start: position,
                    end: (position + length) as usize,
                    length: old(self).length() as usize,
                },
            ) && final(self).store() == old(self).store() && final(self).mirror() == old(self).mirror(),
            position + length <= old(self).length() ==> r is Ok && (
                final(self).store(),
                id_views(r->Ok_0@),
            ) == deleted_range(
                old(self).store(),
                document_order(old(self).store()),
                position as nat,
                (position + length) as nat,
            ) && final(self).mirror() == (if r->Ok_0@.len() > 0 {
                cut(
                    old(self).mirror(),
                    grapheme_offset(old(self).mirror(), position as int) as int,
                    grapheme_offset(old(self).mirror(), position + length) as int,
                )
            } else {
                old(self).mirror()
            }),
    {
        let visible = rope_to_string(&self.rope);
        let clusters = grapheme_clusters(visible.as_str());
        let doc_len = clusters.len();
        proof {
            lemma_tombstones_kept_reflexive(block_views(self.blocks@));
        }
        if position + length > doc_len {
            return Err(
                TextError::RangeOutOfBounds { start: position, end: position + length, length: doc_len },
            );
        }
        if !self.cache_valid {
            self.rebuild_position_cache();
        }
        let ghost s = block_views(self.blocks@);
        let blocks_to_split = collect_overlaps(
            &self.blocks,
            &self.cached_blocks,
            position,
            position + length,
        );
        let deleted_ids = match apply_splits(&mut self.blocks, &blocks_to_split) {
            Ok(deleted_ids) => deleted_ids,
            Err(e) => {
                return Err(e);
            },
        };
        proof {
            lemma_nothing_recorded(s, item_views(blocks_to_split@), blocks_to_split@.len() as nat);
            lemma_apply_items_reaches(
                s,
                item_views(blocks_to_split@),
                blocks_to_split@.len() as nat,
                self.clock@,
            );
            assert(id_views(deleted_ids@).len() == deleted_ids@.len());
        }
        if deleted_ids.len() > 0 {
            let len_chars = rope_len_chars(&self.rope);
            proof {
                lemma_concat_prefix_len(texts_of(clusters@), position + length);
                lemma_concat_prefix_monotone(texts_of(clusters@), position as int, position + length);
            }
            let char_start = prefix_chars(&clusters, position, len_chars);
            let char_end = prefix_chars(&clusters, position + length, len_chars);
            let byte_start = match self.char_to_byte(char_start) {
                Ok(byte_start) => byte_start,
                Err(e) => {
                    return Err(e);
                },
            };
            rope_remove(&mut self.rope, char_start, char_end);
            self.invalidate_position_cache(byte_start);
            self.cache_valid = false;
        }
        Ok(deleted_ids)
    }

    /// Merges the state of another replica into this one.
    ///
    /// Every block of `remote` is taken into the store: one under a new
    /// identifier is added, one under a known identifier turns the local
    /// block into a tombstone if it is one itself. The clock is raised to
    /// the largest clock among the remote blocks, and the visible text is
    /// rebuilt from the store in document order. A merge never fails.
    pub fn merge(&mut self, remote: &FugueText) -> (r: Result<(), TextError>)
        requires
            old(self).wf(),
            remote.wf(),
        ensures
            final(self).wf(),
            r is Ok,
            final(self).replica() == old(self).replica(),
            final(self).store() == merged(old(self).store(), remote.store()),
            final(self).mirror() == document_text(final(self).store()),
            final(self).clock_value() == (if old(self).clock_value() >= max_clock(remote.store()) {
                old(self).clock_value()
            } else {
                max_clock(remote.store())
            }),
            final(self).clock_value() >= old(self).clock_value(),
            final(self).clock_value() >= remote.clock_value(),
            tombstones_kept(old(self).store(), final(self).store()),
    {
        proof {
            lemma_merged_reaches(block_views(self.blocks@), block_views(remote.blocks@), self.clock@);
        }
        absorb_all(&mut self.blocks, &remote.blocks);
        self.cache_valid = false;
        self.rebuild_rope();
        let remote_max_clock = max_block_clock(&remote.blocks);
        self.clock.update(remote_max_clock);
        Ok(())
    }

    /// A copy of the blocks of the store, in identifier order.
    pub fn blocks(&self) -> (blocks: Vec<FugueBlock>)
        ensures
            block_views(blocks@) == self.store(),
    {
        clone_blocks(&self.blocks)
    }

    /// An engine from stored parts: the blocks in any order, the clock
    /// value and the replica name. Blocks are taken in one by one, and the
    /// visible text is rebuilt from them in document order.
    ///
    /// `None` where the parts are no state of an engine: a clock above
    /// zero that no block's identifier has reached.
    pub fn from_parts(blocks: Vec<FugueBlock>, clock: u64, client_id: String) -> (r: Option<Self>)
        ensures
            r is Some <==> clock_reached(merged(Seq::<BlockView>::empty(), block_views(blocks@)), clock),
            r is Some ==> r->0.wf() && r->0.store() == merged(
                Seq::<BlockView>::empty(),
                block_views(blocks@),
            ) && r->0.mirror() == document_text(r->0.store()) && r->0.clock_value() == clock
                && r->0.replica() == client_id@,
    {
        let mut engine = FugueText::new(client_id);
        absorb_all(&mut engine.blocks, &blocks);
        engine.cache_valid = false;
        let reached = max_block_clock(&engine.blocks);
        proof {
            lemma_max_clock_upto(block_views(engine.blocks@), engine.blocks@.len() as nat);
        }
        if clock > reached {
            return None;
        }
        engine.rebuild_rope();
        engine.clock.update(clock);
        Some(engine)
    }
}

impl Clone for FugueText {
    /// A second engine in the same state.
    fn clone(&self) -> (copy: Self)
        ensures
            self.wf() ==> copy.wf(),
            copy.store() == self.store(),
            copy.mirror() == self.mirror(),
            copy.clock_value() == self.clock_value(),
            copy.replica() == self.replica(),
    {
        FugueText {
            rope: rope_clone(&self.rope),
            blocks: clone_blocks(&self.blocks),
            clock: self.clock,
            client_id: self.client_id.clone(),
            cache_valid: false,
            cached_blocks: Vec::new(),
        }
    }
}

} // verus!

