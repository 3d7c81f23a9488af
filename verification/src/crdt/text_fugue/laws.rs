//! What merging guarantees: the store after a merge does not depend on the
//! order or the grouping of the merges, and the text follows the store.
//!
//! The laws are stated over stores as sorted sequences of blocks, the
//! values that the engine's contracts speak of. They are proved through
//! the store's reading as a map from identifiers to blocks.

use super::block::BlockView;
use super::node::{lemma_id_lt_asymmetric, lemma_id_lt_irreflexive, IdView};
use super::store::{
    absorbed, has_id, holds, lemma_absorbed_sorted, lemma_member_at_rank, lemma_merged_upto,
    lemma_rank_is_slot, merged, merged_upto, rank, sorted,
};
use super::position::{
    char_id, doc_spans, id_at, lemma_locate_from, lemma_located_start, lemma_spans_chained, locate,
    position_of, span_with_id_from, SpanView,
};
use super::order::lemma_document_order_distinct;
use super::segment::grapheme_count;
use super::split::part_of;
use super::tree::{
    document_order, document_text, first_clock, lemma_document_order_live, owner_from, owner_of,
    owns,
};
use vstd::prelude::*;

verus! {

/// The index of a block of `s` with identifier `id`.
pub open spec fn index_of(s: Seq<BlockView>, id: IdView) -> int {
    choose|i: int| 0 <= i < s.len() && (#[trigger] s[i]).id == id
}

/// A store read as a map from identifiers to blocks.
pub open spec fn store_map(s: Seq<BlockView>) -> Map<IdView, BlockView> {
    Map::new(|id: IdView| holds(s, id), |id: IdView| s[index_of(s, id)])
}

/// A block as a tombstone.
pub open spec fn tomb(b: BlockView) -> BlockView {
    BlockView { deleted: true, ..b }
}

/// A map of blocks after taking in block `b`.
pub open spec fn absorb_map(m: Map<IdView, BlockView>, b: BlockView) -> Map<IdView, BlockView> {
    if m.dom().contains(b.id) {
        if b.deleted {
            m.insert(b.id, tomb(m[b.id]))
        } else {
            m
        }
    } else {
        m.insert(b.id, b)
    }
}

/// The merge of two maps of blocks: every identifier of either; a block
/// known to `a` keeps `a`'s content and is a tombstone if either side has
/// it as one; a block known only to `b` is taken as it is.
pub open spec fn merge_maps(a: Map<IdView, BlockView>, b: Map<IdView, BlockView>) -> Map<
    IdView,
    BlockView,
> {
    Map::new(
        |id: IdView| a.dom().contains(id) || b.dom().contains(id),
        |id: IdView|
            if a.dom().contains(id) {
                if b.dom().contains(id) && b[id].deleted {
                    tomb(a[id])
                } else {
                    a[id]
                }
            } else {
                b[id]
            },
    )
}

/// Two stores agree on every block that both hold, but for the tombstone
/// flag: one identifier, one insert.
pub open spec fn compatible(a: Seq<BlockView>, b: Seq<BlockView>) -> bool {
    forall|i: int, j: int|
        0 <= i < a.len() && 0 <= j < b.len() && (#[trigger] a[i]).id == (#[trigger] b[j]).id ==> tomb(
            a[i],
        ) == tomb(b[j])
}

/// In a sorted store no identifier occurs twice.
pub proof fn lemma_unique_ids(s: Seq<BlockView>, i: int, j: int)
    requires
        sorted(s),
        0 <= i < s.len(),
        0 <= j < s.len(),
        s[i].id == s[j].id,
    ensures
        i == j,
{
    if i < j {
        lemma_id_lt_irreflexive(s[i].id);
    } else if j < i {
        lemma_id_lt_irreflexive(s[j].id);
    }
}

/// In a sorted store the map gives back each block under its identifier.
pub proof fn lemma_map_at(s: Seq<BlockView>, i: int)
    requires
        sorted(s),
        0 <= i < s.len(),
    ensures
        holds(s, s[i].id),
        index_of(s, s[i].id) == i,
        store_map(s).dom().contains(s[i].id),
        store_map(s)[s[i].id] == s[i],
{
    lemma_unique_ids(s, i, index_of(s, s[i].id));
}

/// In a sorted store, `has_id` says whether the store holds the identifier.
pub proof fn lemma_has_id_holds(s: Seq<BlockView>, id: IdView)
    requires
        sorted(s),
    ensures
        has_id(s, id) == holds(s, id),
        holds(s, id) ==> index_of(s, id) == rank(s, id),
{
    lemma_rank_is_slot(s, id);
    if holds(s, id) {
        lemma_member_at_rank(s, id, index_of(s, id));
    }
    if has_id(s, id) {
        assert(s[rank(s, id)].id == id);
    }
}

/// Taking a block into a sorted store is taking it into the store's map.
pub proof fn lemma_absorbed_map(s: Seq<BlockView>, b: BlockView)
    requires
        sorted(s),
    ensures
        store_map(absorbed(s, b)) == absorb_map(store_map(s), b),
{
    let t = absorbed(s, b);
    let k = rank(s, b.id);
    lemma_absorbed_sorted(s, b);
    lemma_rank_is_slot(s, b.id);
    lemma_has_id_holds(s, b.id);
    let m = absorb_map(store_map(s), b);
    assert forall|id: IdView| store_map(t).dom().contains(id) == m.dom().contains(id) by {
        if has_id(s, b.id) {
            if holds(s, id) {
                let i = index_of(s, id);
                assert(t[i].id == id);
            }
            if holds(t, id) {
                let i = index_of(t, id);
                assert(s[i].id == id);
            }
        } else {
            if holds(s, id) {
                let i = index_of(s, id);
                let j = if i < k {
                    i
                } else {
                    i + 1
                };
                assert(t[j].id == id);
            }
            if holds(t, id) && id != b.id {
                let j = index_of(t, id);
                let i = if j < k {
                    j
                } else {
                    j - 1
                };
                assert(s[i].id == id);
            }
            if id == b.id {
                assert(t[k].id == id);
            }
        }
    }
    assert forall|id: IdView| store_map(t).dom().contains(id) implies store_map(t)[id] == m[id] by {
        let j = index_of(t, id);
        lemma_map_at(t, j);
        if has_id(s, b.id) {
            assert(s[j].id == id);
            lemma_map_at(s, j);
            if id == b.id {
                lemma_unique_ids(s, j, k);
            }
        } else {
            if j == k {
            } else {
                let i = if j < k {
                    j
                } else {
                    j - 1
                };
                assert(s[i] == t[j]);
                lemma_map_at(s, i);
            }
        }
    }
    assert(store_map(t) =~= m);
}

/// Taking in one more block of the remote side is merging with a remote
/// map that holds one more block.
pub proof fn lemma_merge_maps_step(
    local: Map<IdView, BlockView>,
    remote: Map<IdView, BlockView>,
    b: BlockView,
)
    requires
        !remote.dom().contains(b.id),
    ensures
        absorb_map(merge_maps(local, remote), b) == merge_maps(local, remote.insert(b.id, b)),
{
    assert(absorb_map(merge_maps(local, remote), b) =~= merge_maps(local, remote.insert(b.id, b)));
}

/// A prefix of a sorted store is sorted, and its map holds one block more
/// than the map of the prefix before it.
pub proof fn lemma_prefix_map(r: Seq<BlockView>, n: nat)
    requires
        sorted(r),
        0 < n <= r.len(),
    ensures
        sorted(r.take(n as int)),
        sorted(r.take(n - 1)),
        !store_map(r.take(n - 1)).dom().contains(r[n - 1].id),
        store_map(r.take(n as int)) == store_map(r.take(n - 1)).insert(r[n - 1].id, r[n - 1]),
{
    let p = r.take(n as int);
    let q = r.take(n - 1);
    let b = r[n - 1];
    if holds(q, b.id) {
        let i = index_of(q, b.id);
        assert(q[i] == r[i]);
        lemma_unique_ids(r, i, n - 1);
    }
    let m = store_map(q).insert(b.id, b);
    assert forall|id: IdView| store_map(p).dom().contains(id) == m.dom().contains(id) by {
        if holds(p, id) {
            let i = index_of(p, id);
            if i < n - 1 {
                assert(q[i].id == id);
            }
        }
        if holds(q, id) {
            let i = index_of(q, id);
            assert(p[i].id == id);
        }
        if id == b.id {
            assert(p[n - 1].id == id);
        }
    }
    assert forall|id: IdView| store_map(p).dom().contains(id) implies store_map(p)[id] == m[id] by {
        let i = index_of(p, id);
        lemma_map_at(p, i);
        if i < n - 1 {
            assert(q[i] == p[i]);
            lemma_map_at(q, i);
        }
    }
    assert(store_map(p) =~= m);
}

/// The map of a merged store is the merge of the two stores' maps.
pub proof fn lemma_merged_map_upto(local: Seq<BlockView>, remote: Seq<BlockView>, n: nat)
    requires
        sorted(local),
        sorted(remote),
        n <= remote.len(),
    ensures
        store_map(merged_upto(local, remote, n)) == merge_maps(
            store_map(local),
            store_map(remote.take(n as int)),
        ),
    decreases n,
{
    if n == 0 {
        assert(store_map(local) =~= merge_maps(store_map(local), store_map(remote.take(0))));
    } else {
        lemma_merged_map_upto(local, remote, (n - 1) as nat);
        lemma_merged_upto(local, remote, (n - 1) as nat);
        lemma_absorbed_map(merged_upto(local, remote, (n - 1) as nat), remote[n - 1]);
        lemma_prefix_map(remote, n);
        lemma_merge_maps_step(store_map(local), store_map(remote.take(n - 1)), remote[n - 1]);
    }
}

/// The map of a merged store is the merge of the two stores' maps.
pub proof fn lemma_merged_map(local: Seq<BlockView>, remote: Seq<BlockView>)
    requires
        sorted(local),
        sorted(remote),
    ensures
        sorted(merged(local, remote)),
        store_map(merged(local, remote)) == merge_maps(store_map(local), store_map(remote)),
{
    lemma_merged_map_upto(local, remote, remote.len());
    lemma_merged_upto(local, remote, remote.len());
    assert(remote.take(remote.len() as int) =~= remote);
}

/// The map of a sorted store without its last block.
pub proof fn lemma_drop_last_map(s: Seq<BlockView>)
    requires
        sorted(s),
        s.len() > 0,
    ensures
        sorted(s.drop_last()),
        store_map(s.drop_last()) == store_map(s).remove(s.last().id),
{
    lemma_prefix_map(s, s.len());
    assert(s.take(s.len() as int) =~= s);
    assert(s.take(s.len() - 1) =~= s.drop_last());
    assert(store_map(s.drop_last()) =~= store_map(s).remove(s.last().id));
}

/// A store is determined by its map: two sorted stores that hold the same
/// blocks under the same identifiers are the same sequence.
pub proof fn lemma_sorted_same_map(s1: Seq<BlockView>, s2: Seq<BlockView>)
    requires
        sorted(s1),
        sorted(s2),
        store_map(s1) == store_map(s2),
    ensures
        s1 == s2,
    decreases s1.len(),
{
    if s1.len() == 0 {
        if s2.len() > 0 {
            lemma_map_at(s2, 0);
            assert(holds(s1, s2[0].id));
        }
        assert(s1 =~= s2);
    } else if s2.len() == 0 {
        lemma_map_at(s1, 0);
        assert(holds(s2, s1[0].id));
    } else {
        let a = s1.last();
        let b = s2.last();
        lemma_map_at(s1, s1.len() - 1);
        lemma_map_at(s2, s2.len() - 1);
        assert(holds(s2, a.id));
        assert(holds(s1, b.id));
        let j = index_of(s2, a.id);
        let i = index_of(s1, b.id);
        if j < s2.len() - 1 {
            if i < s1.len() - 1 {
                lemma_id_lt_asymmetric(s2[j].id, b.id);
            } else {
                lemma_id_lt_irreflexive(a.id);
            }
        }
        assert(a.id == b.id);
        assert(a == b);
        lemma_drop_last_map(s1);
        lemma_drop_last_map(s2);
        lemma_sorted_same_map(s1.drop_last(), s2.drop_last());
        assert(s1 =~= s1.drop_last().push(a));
        assert(s2 =~= s2.drop_last().push(b));
    }
}

/// Compatible stores have compatible maps.
proof fn lemma_compatible_maps(a: Seq<BlockView>, b: Seq<BlockView>)
    requires
        sorted(a),
        sorted(b),
        compatible(a, b),
    ensures
        forall|id: IdView|
            store_map(a).dom().contains(id) && store_map(b).dom().contains(id) ==> tomb(
                #[trigger] store_map(a)[id],
            ) == tomb(store_map(b)[id]),
{
    assert forall|id: IdView|
        store_map(a).dom().contains(id) && store_map(b).dom().contains(id) implies tomb(
        #[trigger] store_map(a)[id],
    ) == tomb(store_map(b)[id]) by {
        let i = index_of(a, id);
        let j = index_of(b, id);
        assert(a[i].id == b[j].id);
    }
}

/// Merging is commutative: two replicas that agree on the blocks they
/// share hold the same store whichever merges the other.
pub proof fn lemma_merge_commutative(a: Seq<BlockView>, b: Seq<BlockView>)
    requires
        sorted(a),
        sorted(b),
        compatible(a, b),
    ensures
        merged(a, b) == merged(b, a),
{
    lemma_merged_map(a, b);
    lemma_merged_map(b, a);
    lemma_compatible_maps(a, b);
    assert(merge_maps(store_map(a), store_map(b)) =~= merge_maps(store_map(b), store_map(a)));
    lemma_sorted_same_map(merged(a, b), merged(b, a));
}

/// Merging is associative: merging `b` and then `c` gives the store that
/// merging the merge of `b` and `c` gives.
pub proof fn lemma_merge_associative(a: Seq<BlockView>, b: Seq<BlockView>, c: Seq<BlockView>)
    requires
        sorted(a),
        sorted(b),
        sorted(c),
    ensures
        merged(merged(a, b), c) == merged(a, merged(b, c)),
{
    lemma_merged_map(a, b);
    lemma_merged_map(b, c);
    lemma_merged_map(merged(a, b), c);
    lemma_merged_map(a, merged(b, c));
    assert(merge_maps(merge_maps(store_map(a), store_map(b)), store_map(c)) =~= merge_maps(
        store_map(a),
        merge_maps(store_map(b), store_map(c)),
    ));
    lemma_sorted_same_map(merged(merged(a, b), c), merged(a, merged(b, c)));
}

/// Merging is idempotent: merging a store with itself changes nothing.
pub proof fn lemma_merge_idempotent(a: Seq<BlockView>)
    requires
        sorted(a),
    ensures
        merged(a, a) == a,
{
    lemma_merged_map(a, a);
    assert(merge_maps(store_map(a), store_map(a)) =~= store_map(a));
    lemma_sorted_same_map(merged(a, a), a);
}

/// Merging three replicas that agree on the blocks they share gives the
/// same store in whatever order they are merged.
pub proof fn lemma_merge_any_order(a: Seq<BlockView>, b: Seq<BlockView>, c: Seq<BlockView>)
    requires
        sorted(a),
        sorted(b),
        sorted(c),
        compatible(a, b),
        compatible(a, c),
        compatible(b, c),
    ensures
        merged(merged(a, b), c) == merged(merged(b, a), c),
        merged(merged(a, b), c) == merged(merged(a, c), b),
        merged(merged(a, b), c) == merged(merged(c, a), b),
        merged(merged(a, b), c) == merged(merged(b, c), a),
        merged(merged(a, b), c) == merged(merged(c, b), a),
{
    lemma_merged_map(a, b);
    lemma_merged_map(b, a);
    lemma_merged_map(a, c);
    lemma_merged_map(c, a);
    lemma_merged_map(b, c);
    lemma_merged_map(c, b);
    lemma_merged_map(merged(a, b), c);
    lemma_merged_map(merged(b, a), c);
    lemma_merged_map(merged(a, c), b);
    lemma_merged_map(merged(c, a), b);
    lemma_merged_map(merged(b, c), a);
    lemma_merged_map(merged(c, b), a);
    lemma_compatible_maps(a, b);
    lemma_compatible_maps(a, c);
    lemma_compatible_maps(b, c);
    let ma = store_map(a);
    let mb = store_map(b);
    let mc = store_map(c);
    let all = merge_maps(merge_maps(ma, mb), mc);
    assert(all =~= merge_maps(merge_maps(mb, ma), mc));
    assert(all =~= merge_maps(merge_maps(ma, mc), mb));
    assert(all =~= merge_maps(merge_maps(mc, ma), mb));
    assert(all =~= merge_maps(merge_maps(mb, mc), ma));
    assert(all =~= merge_maps(merge_maps(mc, mb), ma));
    lemma_sorted_same_map(merged(merged(a, b), c), merged(merged(b, a), c));
    lemma_sorted_same_map(merged(merged(a, b), c), merged(merged(a, c), b));
    lemma_sorted_same_map(merged(merged(a, b), c), merged(merged(c, a), b));
    lemma_sorted_same_map(merged(merged(a, b), c), merged(merged(b, c), a));
    lemma_sorted_same_map(merged(merged(a, b), c), merged(merged(c, b), a));
}

/// Convergence: once two replicas that agree on the blocks they share
/// have merged each other, in either order and whether or not the second
/// to merge had changed in between, they hold the same store and show the
/// same text.
pub proof fn lemma_merge_converges(a: Seq<BlockView>, b: Seq<BlockView>)
    requires
        sorted(a),
        sorted(b),
        compatible(a, b),
    ensures
        merged(b, merged(a, b)) == merged(a, b),
        merged(a, merged(b, a)) == merged(a, b),
        merged(merged(b, a), merged(a, b)) == merged(a, b),
        document_text(merged(b, merged(a, b))) == document_text(merged(a, b)),
{
    lemma_merge_commutative(a, b);
    lemma_merged_map(a, b);
    lemma_merged_map(b, merged(a, b));
    lemma_compatible_maps(a, b);
    assert(merge_maps(store_map(b), merge_maps(store_map(a), store_map(b))) =~= merge_maps(
        store_map(a),
        store_map(b),
    ));
    lemma_sorted_same_map(merged(b, merged(a, b)), merged(a, b));
    lemma_merged_map(a, merged(a, b));
    assert(merge_maps(store_map(a), merge_maps(store_map(a), store_map(b))) =~= merge_maps(
        store_map(a),
        store_map(b),
    ));
    lemma_sorted_same_map(merged(a, merged(a, b)), merged(a, b));
    lemma_merge_idempotent(merged(a, b));
}

/// No block's clock range starts below clock zero: a block of `n`
/// graphemes ends at clock `n - 1` or later.
pub open spec fn ranges_sound(s: Seq<BlockView>) -> bool {
    forall|i: int| 0 <= i < s.len() ==> (#[trigger] s[i]).id.clock + 1 >= grapheme_count(s[i].text)
}

/// No character lies in the clock ranges of two blocks.
pub open spec fn ranges_disjoint(s: Seq<BlockView>) -> bool {
    forall|i: int, j: int, c: IdView|
        0 <= i < s.len() && 0 <= j < s.len() && #[trigger] owns(s[i], c) && #[trigger] owns(s[j], c)
            ==> i == j
}

/// No identifier carries a clock above `clock`.
pub open spec fn clocks_within(s: Seq<BlockView>, clock: u64) -> bool {
    forall|i: int| 0 <= i < s.len() ==> (#[trigger] s[i]).id.clock <= clock
}

/// An insert keeps the clock ranges sound and disjoint: the block that a
/// replica writes above every clock in its store owns clocks that no
/// other block owns.
pub proof fn lemma_insert_keeps_ranges(s: Seq<BlockView>, b: BlockView, clock: u64)
    requires
        sorted(s),
        ranges_sound(s),
        ranges_disjoint(s),
        clocks_within(s, clock),
        !b.deleted,
        b.id.clock == clock + grapheme_count(b.text),
    ensures
        ranges_sound(absorbed(s, b)),
        ranges_disjoint(absorbed(s, b)),
        clocks_within(absorbed(s, b), b.id.clock),
{
    lemma_rank_is_slot(s, b.id);
    let t = absorbed(s, b);
    let k = rank(s, b.id);
    if !has_id(s, b.id) {
        assert forall|i: int| 0 <= i < t.len() implies (#[trigger] t[i]).id.clock + 1 >= grapheme_count(
            t[i].text,
        ) && t[i].id.clock <= b.id.clock by {
            if i != k {
                let i0 = if i < k {
                    i
                } else {
                    i - 1
                };
                assert(t[i] == s[i0]);
            }
        }
        assert forall|i: int, j: int, c: IdView|
            0 <= i < t.len() && 0 <= j < t.len() && #[trigger] owns(t[i], c) && #[trigger] owns(
                t[j],
                c,
            ) implies i == j by {
            let i0 = if i < k {
                i
            } else {
                i - 1
            };
            let j0 = if j < k {
                j
            } else {
                j - 1
            };
            if i != k && j != k {
                assert(t[i] == s[i0] && t[j] == s[j0]);
            } else if i != k {
                assert(t[i] == s[i0]);
                assert(c.clock <= s[i0].id.clock);
            } else if j != k {
                assert(t[j] == s[j0]);
                assert(c.clock <= s[j0].id.clock);
            }
        }
    }
}

/// A split keeps every character's clock: where a part's text segments
/// into as many graphemes as were cut out for it, the part owns exactly
/// the clocks that those graphemes had in the parent.
pub proof fn lemma_part_keeps_clocks(parent: BlockView, from: int, to: int, deleted: bool, c: IdView)
    requires
        0 <= from < to <= grapheme_count(parent.text),
        parent.id.clock + 1 >= grapheme_count(parent.text),
        grapheme_count(part_of(parent, from, to, deleted).text) == to - from,
    ensures
        owns(part_of(parent, from, to, deleted), c) <==> c.client == parent.id.client && first_clock(
            parent.id.clock,
            grapheme_count(parent.text),
        ) + from <= c.clock <= first_clock(parent.id.clock, grapheme_count(parent.text)) + to - 1,
        owns(part_of(parent, from, to, deleted), c) ==> owns(parent, c),
{
}

/// The clock ranges of a store are in order under clock `clock`: no
/// block's range starts below clock zero, no character lies in two
/// ranges, and no identifier is ahead of the clock.
#[verifier::opaque]
pub open spec fn ranges_in_order(s: Seq<BlockView>, clock: u64) -> bool {
    ranges_sound(s) && ranges_disjoint(s) && clocks_within(s, clock)
}

/// In a store without blocks the clock ranges are in order.
pub proof fn lemma_empty_in_order(s: Seq<BlockView>, clock: u64)
    requires
        s.len() == 0,
    ensures
        ranges_in_order(s, clock),
{
    reveal(ranges_in_order);
}

/// An insert above the clock keeps the clock ranges in order.
pub proof fn lemma_insert_keeps_order(s: Seq<BlockView>, b: BlockView, clock: u64)
    requires
        sorted(s),
        ranges_in_order(s, clock),
        !b.deleted,
        b.id.clock == clock + grapheme_count(b.text),
    ensures
        ranges_in_order(absorbed(s, b), b.id.clock),
{
    reveal(ranges_in_order);
    lemma_insert_keeps_ranges(s, b, clock);
}

/// Anchors round-trip in a store whose clock ranges are in order.
pub proof fn lemma_anchor_in_order(s: Seq<BlockView>, clock: u64, p: usize)
    requires
        sorted(s),
        s.len() <= usize::MAX,
        ranges_in_order(s, clock),
        id_at(doc_spans(s), p as nat) is Some,
    ensures
        position_of(s, id_at(doc_spans(s), p as nat)->0) == Some(p),
{
    reveal(ranges_in_order);
    lemma_anchor_round_trip(s, p);
}

/// What `owner_from` returns, said without recursion.
pub proof fn lemma_owner_from(s: Seq<BlockView>, c: IdView, i: int)
    requires
        0 <= i <= s.len() <= usize::MAX,
    ensures
        match owner_from(s, c, i) {
            Some(j) => i <= j < s.len() && owns(s[j as int], c) && forall|m: int|
                i <= m < j ==> !owns(#[trigger] s[m], c),
            None => forall|m: int| i <= m < s.len() ==> !owns(#[trigger] s[m], c),
        },
    decreases s.len() - i,
{
    if i < s.len() && !owns(s[i], c) {
        lemma_owner_from(s, c, i + 1);
    }
}

/// What `span_with_id_from` returns, said without recursion.
pub proof fn lemma_span_with_id_from(spans: Seq<SpanView>, id: IdView, i: int)
    requires
        0 <= i <= spans.len(),
    ensures
        match span_with_id_from(spans, id, i) {
            Some(k) => i <= k < spans.len() && spans[k].id == id && forall|m: int|
                i <= m < k ==> (#[trigger] spans[m]).id != id,
            None => forall|m: int| i <= m < spans.len() ==> (#[trigger] spans[m]).id != id,
        },
    decreases spans.len() - i,
{
    if i < spans.len() && spans[i].id != id {
        lemma_span_with_id_from(spans, id, i + 1);
    }
}

/// Anchors round-trip: in a store whose clock ranges are sound and
/// disjoint, the identifier of the character at position `p` leads back
/// to position `p`.
pub proof fn lemma_anchor_round_trip(s: Seq<BlockView>, p: usize)
    requires
        sorted(s),
        s.len() <= usize::MAX,
        ranges_sound(s),
        ranges_disjoint(s),
        id_at(doc_spans(s), p as nat) is Some,
    ensures
        position_of(s, id_at(doc_spans(s), p as nat)->0) == Some(p),
{
    let order = document_order(s);
    let spans = doc_spans(s);
    let k = locate(spans, p as nat);
    lemma_spans_chained(s, order);
    lemma_document_order_distinct(s);
    lemma_locate_from(spans, p as nat, 0);
    assert(0 <= k < spans.len());
    lemma_located_start(spans, p as nat);
    lemma_document_order_live(s);
    let i = order[k];
    let o = p - spans[k].start;
    let x = id_at(spans, p as nat)->0;
    assert(x == char_id(spans[k], o));
    assert(spans[k].id == s[i as int].id);
    assert(owns(s[i as int], x));
    lemma_owner_from(s, x, 0);
    let j = owner_of(s, x)->0;
    assert(owns(s[j as int], x));
    assert(j == i);
    lemma_span_with_id_from(spans, s[i as int].id, 0);
    let found = span_with_id_from(spans, s[i as int].id, 0)->0;
    assert(spans[found].id == s[order[found] as int].id);
    lemma_unique_ids(s, order[found] as int, i as int);
}

/// A deleted character has no position.
pub proof fn lemma_deleted_anchor(s: Seq<BlockView>, c: IdView)
    requires
        owner_of(s, c) is Some,
        owner_of(s, c)->0 < s.len() ==> s[owner_of(s, c)->0 as int].deleted,
    ensures
        position_of(s, c) is None,
{
}

} // verus!
