//! Splitting a block in three when part of it is deleted.
//!
//! The parts carry the parent's origins and keep the parent's clocks, so a
//! character identifier handed out before the split names the same
//! character after it.

use super::block::{clone_origin, BlockView, FugueBlock};
use super::error::TextError;
use super::node::{IdView, NodeId};
use super::segment::{
    concat_all, grapheme_clusters, grapheme_count, grapheme_seq, join_range, texts_of,
};
use super::position::{capped, doc_spans, span_end_of, span_start, span_views, CachedSpan};
use super::store::{
    absorb, absorbed, block_views, clock_reached, find_slot, has_live, ids_kept, lemma_absorbed_ids,
    lemma_absorbed_keeps_tombstones, lemma_absorbed_sorted, lemma_holds_reaches,
    lemma_ids_kept_reflexive, lemma_ids_kept_transitive, lemma_member_at_rank, lemma_rank_is_slot,
    lemma_reached_kept, lemma_remove_sorted, lemma_tombstoned_ids,
    lemma_tombstoned_keeps_tombstones, lemma_tombstoned_sorted, lemma_tombstones_kept_transitive,
    lemma_without_live_keeps_tombstones, rank, remove_block, sorted, tombstone_block, tombstoned, tombstones_kept,
    without_id,
};
use super::tree::{block_first_clock, document_order, first_clock, lemma_document_order_live};
use vstd::prelude::*;

verus! {

/// The identifiers of a list as plain values.
pub open spec fn id_views(ids: Seq<NodeId>) -> Seq<IdView> {
    Seq::new(ids.len(), |i: int| ids[i]@)
}

/// The part of `parent` that holds its graphemes `from..to`: their text,
/// the clock of the last of them, the parent's replica and origins.
pub open spec fn part_of(parent: BlockView, from: int, to: int, deleted: bool) -> BlockView {
    BlockView {
        id: IdView {
            client: parent.id.client,
            clock: (first_clock(parent.id.clock, grapheme_count(parent.text)) + to - 1) as u64,
            offset: 0,
        },
        text: concat_all(grapheme_seq(parent.text).subrange(from, to)),
        left_origin: parent.left_origin,
        right_origin: parent.right_origin,
        deleted,
    }
}

/// Whether `start..end` is a range of graphemes that a block of `len`
/// graphemes can lose.
pub open spec fn valid_split(start: int, end: int, len: int) -> bool {
    0 <= start < end <= len
}

/// The store after graphemes `start..end` of `parent` were deleted: the
/// parent gives way to a live part before the range (if `start > 0`), a
/// tombstone for the range, and a live part after it (if any graphemes
/// follow). A store that holds no live block under the parent's identifier
/// stays as it is.
pub open spec fn split_store(s: Seq<BlockView>, parent: BlockView, start: int, end: int) -> Seq<
    BlockView,
> {
    let len = grapheme_count(parent.text) as int;
    if !has_live(s, parent.id) {
        s
    } else {
        let s0 = without_id(s, parent.id);
        let s1 = if start > 0 {
            absorbed(s0, part_of(parent, 0, start, false))
        } else {
            s0
        };
        let s2 = absorbed(s1, part_of(parent, start, end, true));
        if end < len {
            absorbed(s2, part_of(parent, end, len, false))
        } else {
            s2
        }
    }
}

/// A split keeps the store sorted and loses no tombstone.
pub proof fn lemma_split_store(s: Seq<BlockView>, parent: BlockView, start: int, end: int)
    requires
        sorted(s),
    ensures
        sorted(split_store(s, parent, start, end)),
        tombstones_kept(s, split_store(s, parent, start, end)),
{
    let len = grapheme_count(parent.text) as int;
    lemma_rank_is_slot(s, parent.id);
    if has_live(s, parent.id) {
        let s0 = without_id(s, parent.id);
        lemma_remove_sorted(s, rank(s, parent.id));
        lemma_without_live_keeps_tombstones(s, parent.id);
        let left = part_of(parent, 0, start, false);
        let s1 = if start > 0 {
            absorbed(s0, left)
        } else {
            s0
        };
        lemma_absorbed_sorted(s0, left);
        lemma_absorbed_keeps_tombstones(s0, left);
        if start > 0 {
            lemma_tombstones_kept_transitive(s, s0, s1);
        }
        let middle = part_of(parent, start, end, true);
        let s2 = absorbed(s1, middle);
        lemma_absorbed_sorted(s1, middle);
        lemma_absorbed_keeps_tombstones(s1, middle);
        lemma_tombstones_kept_transitive(s, s1, s2);
        if end < len {
            let right = part_of(parent, end, len, false);
            lemma_absorbed_sorted(s2, right);
            lemma_absorbed_keeps_tombstones(s2, right);
            lemma_tombstones_kept_transitive(s, s2, absorbed(s2, right));
        }
    } else {
        lemma_tombstoned_keeps_tombstones(s, parent.id);
        assert(tombstones_kept(s, s)) by {
            assert forall|i: int| 0 <= i < s.len() && (#[trigger] s[i]).deleted implies exists|j: int|
                0 <= j < s.len() && (#[trigger] s[j]).id == s[i].id && s[j].deleted by {
                assert(s[i].id == s[i].id);
            }
        }
    }
}

/// A split loses no clock that the store had reached: the last part ends
/// where the parent ended, or later.
pub proof fn lemma_split_reaches(s: Seq<BlockView>, parent: BlockView, start: int, end: int, clock: u64)
    requires
        sorted(s),
        valid_split(start, end, grapheme_count(parent.text) as int),
        grapheme_count(parent.text) <= usize::MAX,
        clock_reached(s, clock),
    ensures
        clock_reached(split_store(s, parent, start, end), clock),
{
    let len = grapheme_count(parent.text) as int;
    lemma_rank_is_slot(s, parent.id);
    if has_live(s, parent.id) && clock != 0 {
        let k = rank(s, parent.id);
        let s0 = without_id(s, parent.id);
        lemma_remove_sorted(s, k);
        let left = part_of(parent, 0, start, false);
        let s1 = if start > 0 {
            absorbed(s0, left)
        } else {
            s0
        };
        lemma_absorbed_sorted(s0, left);
        lemma_absorbed_ids(s0, left);
        lemma_ids_kept_reflexive(s0);
        assert(ids_kept(s0, s1));
        let middle = part_of(parent, start, end, true);
        let s2 = absorbed(s1, middle);
        lemma_absorbed_sorted(s1, middle);
        lemma_absorbed_ids(s1, middle);
        lemma_ids_kept_transitive(s0, s1, s2);
        let right = part_of(parent, end, len, false);
        let s3 = split_store(s, parent, start, end);
        lemma_absorbed_ids(s2, right);
        lemma_ids_kept_reflexive(s2);
        assert(ids_kept(s2, s3));
        lemma_ids_kept_transitive(s0, s2, s3);
        let i = choose|i: int| 0 <= i < s.len() && (#[trigger] s[i]).id.clock >= clock;
        if i == k {
            if end < len {
                lemma_holds_reaches(s3, right.id);
            } else {
                lemma_holds_reaches(s2, middle.id);
            }
        } else {
            let i0 = if i < k {
                i
            } else {
                i - 1
            };
            assert(s0[i0] == s[i]);
            assert(clock_reached(s0, clock));
            lemma_reached_kept(s0, s3, clock);
        }
    }
}

/// One live block that a deletion touches: the block as it was when the
/// deletion began, and the range of its graphemes that goes.
pub struct SplitItem {
    pub block: BlockView,
    pub start: nat,
    pub end: nat,
}

/// What the deletion of positions `from..to` takes from the `k`-th block
/// of `order`, if it takes anything.
pub open spec fn overlap_item(s: Seq<BlockView>, order: Seq<usize>, k: int, from: nat, to: nat) -> Option<
    SplitItem,
> {
    let block = s[order[k] as int];
    let start = span_start(s, order, k as nat);
    let end = capped(start + grapheme_count(block.text));
    let lo = if from > start {
        from
    } else {
        start
    };
    let hi = if to < end {
        to
    } else {
        end
    };
    if lo < hi {
        Some(SplitItem { block, start: (lo - start) as nat, end: (hi - start) as nat })
    } else {
        None
    }
}

/// What the deletion of positions `from..to` takes from the first `n`
/// blocks of `order`, block by block.
pub open spec fn overlap_items(s: Seq<BlockView>, order: Seq<usize>, from: nat, to: nat, n: nat) -> Seq<
    SplitItem,
>
    decreases n,
{
    if n == 0 {
        Seq::empty()
    } else {
        let before = overlap_items(s, order, from, to, (n - 1) as nat);
        match overlap_item(s, order, n - 1, from, to) {
            Some(item) => before.push(item),
            None => before,
        }
    }
}

/// The store and the recorded tombstones after one more block lost its
/// range: a block that goes whole becomes a tombstone where it is, any
/// other is split. A block that is no longer live in the store is passed
/// over.
pub open spec fn apply_item(state: (Seq<BlockView>, Seq<IdView>), item: SplitItem) -> (
    Seq<BlockView>,
    Seq<IdView>,
) {
    if !has_live(state.0, item.block.id) {
        state
    } else if item.start == 0 && item.end == grapheme_count(item.block.text) {
        (tombstoned(state.0, item.block.id), state.1.push(item.block.id))
    } else {
        (
            split_store(state.0, item.block, item.start as int, item.end as int),
            state.1.push(part_of(item.block, item.start as int, item.end as int, true).id),
        )
    }
}

/// The store and the recorded tombstones after the first `n` items.
pub open spec fn apply_items(s: Seq<BlockView>, items: Seq<SplitItem>, n: nat) -> (
    Seq<BlockView>,
    Seq<IdView>,
)
    decreases n,
{
    if n == 0 {
        (s, Seq::empty())
    } else {
        apply_item(apply_items(s, items, (n - 1) as nat), items[n - 1])
    }
}

/// The store after positions `from..to` of its document were deleted, and
/// the identifiers of the tombstones that stand for the deleted graphemes,
/// in document order.
pub open spec fn deleted_range(s: Seq<BlockView>, order: Seq<usize>, from: nat, to: nat) -> (
    Seq<BlockView>,
    Seq<IdView>,
) {
    let items = overlap_items(s, order, from, to, order.len());
    apply_items(s, items, items.len())
}

/// One more item keeps the store sorted and loses no tombstone.
pub proof fn lemma_apply_item(state: (Seq<BlockView>, Seq<IdView>), item: SplitItem)
    requires
        sorted(state.0),
    ensures
        sorted(apply_item(state, item).0),
        tombstones_kept(state.0, apply_item(state, item).0),
{
    let s = state.0;
    lemma_rank_is_slot(s, item.block.id);
    lemma_split_store(s, item.block, item.start as int, item.end as int);
    lemma_tombstoned_keeps_tombstones(s, item.block.id);
    if has_live(s, item.block.id) {
        lemma_tombstoned_sorted(s, rank(s, item.block.id));
    }
}

/// A deletion keeps the store sorted and loses no tombstone.
pub proof fn lemma_apply_items(s: Seq<BlockView>, items: Seq<SplitItem>, n: nat)
    requires
        sorted(s),
    ensures
        sorted(apply_items(s, items, n).0),
        tombstones_kept(s, apply_items(s, items, n).0),
    decreases n,
{
    if n > 0 {
        let before = apply_items(s, items, (n - 1) as nat);
        lemma_apply_items(s, items, (n - 1) as nat);
        lemma_apply_item(before, items[n - 1]);
        lemma_tombstones_kept_transitive(s, before.0, apply_items(s, items, n).0);
    } else {
        assert forall|i: int| 0 <= i < s.len() && (#[trigger] s[i]).deleted implies exists|j: int|
            0 <= j < s.len() && (#[trigger] s[j]).id == s[i].id && s[j].deleted by {
            assert(s[i].id == s[i].id);
        }
    }
}

/// One part of a split as a block of its own.
fn make_part(parent: &FugueBlock, parts: &Vec<String>, from: usize, to: usize, deleted: bool) -> (part:
    FugueBlock)
    requires
        from < to <= parts@.len(),
        texts_of(parts@) == grapheme_seq(parent.text@),
    ensures
        part@ == part_of(parent@, from as int, to as int, deleted),
{
    let len = parts.len();
    let first = block_first_clock(parent.id.clock, len);
    let id = NodeId::new(parent.id.client_id.clone(), first + (to - 1) as u64, 0);
    let mut part = FugueBlock::new(
        id,
        join_range(parts, from, to),
        clone_origin(&parent.left_origin),
        clone_origin(&parent.right_origin),
    );
    if deleted {
        part.mark_deleted();
    }
    part
}

/// Replaces `orig_block` in the store by its parts around the deleted
/// graphemes `offset_start..offset_end`, and records the tombstone's
/// identifier in `deleted_ids`.
///
/// Offsets that are no range inside the block are refused with
/// `InvalidBlockSplit`, and nothing changes. A store that holds no live
/// block under the block's identifier is left alone and nothing is recorded.
pub fn split_block_for_deletion(
    blocks: &mut Vec<FugueBlock>,
    orig_block: &FugueBlock,
    offset_start: usize,
    offset_end: usize,
    deleted_ids: &mut Vec<NodeId>,
) -> (r: Result<(), TextError>)
    requires
        sorted(block_views(old(blocks)@)),
    ensures
        sorted(block_views(final(blocks)@)),
        !valid_split(offset_start as int, offset_end as int, grapheme_count(orig_block.text@) as int)
            ==> r == Err::<(), TextError>(
            TextError::InvalidBlockSplit {
                block_id: orig_block.id,
                offset_start,
                offset_end,
                block_len: grapheme_count(orig_block.text@) as usize,
            },
        ) && final(blocks)@ == old(blocks)@ && final(deleted_ids)@ == old(deleted_ids)@,
        valid_split(offset_start as int, offset_end as int, grapheme_count(orig_block.text@) as int)
            ==> r is Ok && block_views(final(blocks)@) == split_store(
            block_views(old(blocks)@),
            orig_block@,
            offset_start as int,
            offset_end as int,
        ) && id_views(final(deleted_ids)@) == (if has_live(block_views(old(blocks)@), orig_block.id@) {
            id_views(old(deleted_ids)@).push(
                part_of(orig_block@, offset_start as int, offset_end as int, true).id,
            )
        } else {
            id_views(old(deleted_ids)@)
        }),
{
    let graphemes = grapheme_clusters(orig_block.text.as_str());
    let block_len = graphemes.len();
    if offset_start >= block_len || offset_end > block_len || offset_start >= offset_end {
        return Err(
            TextError::InvalidBlockSplit {
                block_id: orig_block.id.clone(),
                offset_start,
                offset_end,
                block_len,
            },
        );
    }
    let slot = find_slot(blocks, &orig_block.id);
    if !(slot < blocks.len() && blocks[slot].id.same(&orig_block.id) && !blocks[slot].deleted) {
        assert(id_views(deleted_ids@) =~= id_views(old(deleted_ids)@));
        return Ok(());
    }
    remove_block(blocks, &orig_block.id);
    if offset_start > 0 {
        absorb(blocks, make_part(orig_block, &graphemes, 0, offset_start, false));
    }
    let middle = make_part(orig_block, &graphemes, offset_start, offset_end, true);
    let middle_id = middle.id.clone();
    absorb(blocks, middle);
    deleted_ids.push(middle_id);
    if offset_end < block_len {
        absorb(blocks, make_part(orig_block, &graphemes, offset_end, block_len, false));
    }
    assert(id_views(deleted_ids@) =~= id_views(old(deleted_ids)@).push(
        part_of(orig_block@, offset_start as int, offset_end as int, true).id,
    ));
    Ok(())
}

/// A deletion loses no clock that the store had reached.
pub proof fn lemma_apply_items_reaches(s: Seq<BlockView>, items: Seq<SplitItem>, n: nat, clock: u64)
    requires
        sorted(s),
        all_valid(items),
        n <= items.len(),
        clock_reached(s, clock),
    ensures
        clock_reached(apply_items(s, items, n).0, clock),
    decreases n,
{
    if n > 0 {
        let before = apply_items(s, items, (n - 1) as nat);
        let item = items[n - 1];
        lemma_apply_items_reaches(s, items, (n - 1) as nat, clock);
        lemma_apply_items(s, items, (n - 1) as nat);
        lemma_split_reaches(before.0, item.block, item.start as int, item.end as int, clock);
        lemma_tombstoned_ids(before.0, item.block.id);
        lemma_reached_kept(before.0, tombstoned(before.0, item.block.id), clock);
    }
}

/// A deletion that records no tombstone leaves the store as it was.
pub proof fn lemma_nothing_recorded(s: Seq<BlockView>, items: Seq<SplitItem>, n: nat)
    ensures
        apply_items(s, items, n).1.len() == 0 ==> apply_items(s, items, n).0 == s,
    decreases n,
{
    if n > 0 {
        lemma_nothing_recorded(s, items, (n - 1) as nat);
    }
}

/// One live block that a deletion touches, with the range of its
/// graphemes that goes.
pub struct PendingSplit {
    pub block: FugueBlock,
    pub start: usize,
    pub end: usize,
}

impl View for PendingSplit {
    type V = SplitItem;

    open spec fn view(&self) -> SplitItem {
        SplitItem { block: self.block@, start: self.start as nat, end: self.end as nat }
    }
}

/// The items of a work list as plain values.
pub open spec fn item_views(work: Seq<PendingSplit>) -> Seq<SplitItem> {
    Seq::new(work.len(), |i: int| work[i]@)
}

/// Every item names a range of graphemes inside its block.
pub open spec fn all_valid(items: Seq<SplitItem>) -> bool {
    forall|i: int|
        0 <= i < items.len() ==> valid_split(
            (#[trigger] items[i]).start as int,
            items[i].end as int,
            grapheme_count(items[i].block.text) as int,
        ) && grapheme_count(items[i].block.text) <= usize::MAX
}

/// First pass of a deletion: walks the document order and notes, for
/// every live block that positions `from..to` overlap, the block and the
/// range of its graphemes that the deletion takes.
pub fn collect_overlaps(
    blocks: &Vec<FugueBlock>,
    spans: &Vec<CachedSpan>,
    from: usize,
    to: usize,
) -> (work: Vec<PendingSplit>)
    requires
        sorted(block_views(blocks@)),
        span_views(spans@) == doc_spans(block_views(blocks@)),
    ensures
        item_views(work@) == overlap_items(
            block_views(blocks@),
            document_order(block_views(blocks@)),
            from as nat,
            to as nat,
            document_order(block_views(blocks@)).len(),
        ),
        all_valid(item_views(work@)),
{
    let ghost s = block_views(blocks@);
    let ghost order = document_order(s);
    let ghost sv = span_views(spans@);
    proof {
        lemma_document_order_live(s);
        assert(sv.len() == spans@.len());
        assert(doc_spans(s).len() == order.len());
    }
    let mut work: Vec<PendingSplit> = Vec::new();
    let mut k: usize = 0;
    while k < spans.len()
        invariant
            k <= spans@.len() == order.len(),
            s == block_views(blocks@),
            sorted(s),
            order == document_order(s),
            sv == span_views(spans@),
            sv == doc_spans(s),
            forall|j: int| 0 <= j < order.len() ==> (#[trigger] order[j]) < s.len(),
            item_views(work@) == overlap_items(s, order, from as nat, to as nat, k as nat),
            all_valid(item_views(work@)),
        decreases spans@.len() - k,
    {
        let span = &spans[k];
        assert(span@ == sv[k as int]);
        let start = span.start;
        let end = span_end_of(span);
        let lo = if from > start {
            from
        } else {
            start
        };
        let hi = if to < end {
            to
        } else {
            end
        };
        let ghost before = item_views(work@);
        if lo < hi {
            proof {
                lemma_member_at_rank(s, span.id@, order[k as int] as int);
            }
            let slot = find_slot(blocks, &span.id);
            assert(blocks@[slot as int]@ == s[order[k as int] as int]);
            work.push(PendingSplit { block: blocks[slot].clone(), start: lo - start, end: hi - start });
            assert(item_views(work@) =~= before.push(
                overlap_item(s, order, k as int, from as nat, to as nat)->0,
            ));
        } else {
            assert(item_views(work@) =~= before);
        }
        k = k + 1;
    }
    work
}

/// Second pass of a deletion: lets every noted block lose its range. A
/// block that goes whole becomes a tombstone where it is; any other is
/// split. Returns the identifiers of the tombstones made; the noted
/// ranges lie inside their blocks, so no split is refused.
pub fn apply_splits(blocks: &mut Vec<FugueBlock>, work: &Vec<PendingSplit>) -> (r: Result<
    Vec<NodeId>,
    TextError,
>)
    requires
        sorted(block_views(old(blocks)@)),
        all_valid(item_views(work@)),
    ensures
        sorted(block_views(final(blocks)@)),
        r is Ok,
        (block_views(final(blocks)@), id_views(r->Ok_0@)) == apply_items(
            block_views(old(blocks)@),
            item_views(work@),
            work@.len(),
        ),
        tombstones_kept(block_views(old(blocks)@), block_views(final(blocks)@)),
{
    let ghost s = block_views(blocks@);
    let ghost items = item_views(work@);
    let mut deleted_ids: Vec<NodeId> = Vec::new();
    let mut i: usize = 0;
    assert(id_views(deleted_ids@) =~= Seq::<IdView>::empty());
    while i < work.len()
        invariant
            i <= work@.len(),
            items == item_views(work@),
            all_valid(items),
            sorted(block_views(blocks@)),
            (block_views(blocks@), id_views(deleted_ids@)) == apply_items(s, items, i as nat),
        decreases work@.len() - i,
    {
        let item = &work[i];
        assert(item@ == items[i as int]);
        let ghost now = block_views(blocks@);
        let ghost ids = id_views(deleted_ids@);
        proof {
            lemma_rank_is_slot(now, item.block.id@);
        }
        let slot = find_slot(blocks, &item.block.id);
        if !(slot < blocks.len() && blocks[slot].id.same(&item.block.id) && !blocks[slot].deleted) {
        } else if item.start == 0 && item.end == item.block.len() {
            tombstone_block(blocks, &item.block.id);
            deleted_ids.push(item.block.id.clone());
            assert(id_views(deleted_ids@) =~= ids.push(item.block.id@));
        } else {
            match split_block_for_deletion(blocks, &item.block, item.start, item.end, &mut deleted_ids) {
                Ok(()) => {},
                Err(e) => {
                    return Err(e);
                },
            }
        }
        i = i + 1;
    }
    proof {
        lemma_apply_items(s, items, items.len());
    }
    Ok(deleted_ids)
}

} // verus!
