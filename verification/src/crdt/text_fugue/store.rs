//! The block store: blocks kept in identifier order, no identifier twice.
//!
//! The store only ever grows or splits: a block that arrives under a new
//! identifier is added, one that arrives under a known identifier can only
//! turn the stored block into a tombstone.

use super::block::{BlockView, FugueBlock};
use super::node::{
    id_lt, lemma_id_lt_asymmetric, lemma_id_lt_irreflexive, lemma_id_lt_total,
    lemma_id_lt_transitive, IdView, NodeId,
};
use vstd::prelude::*;

verus! {

/// The blocks of a store as plain values.
pub open spec fn block_views(blocks: Seq<FugueBlock>) -> Seq<BlockView> {
    Seq::new(blocks.len(), |i: int| blocks[i]@)
}

/// Strictly increasing identifiers: identifier order, and none twice.
pub open spec fn sorted(s: Seq<BlockView>) -> bool {
    forall|i: int, j: int| 0 <= i < j < s.len() ==> id_lt((#[trigger] s[i]).id, (#[trigger] s[j]).id)
}

/// How many blocks of `s` have an identifier before `id`.
pub open spec fn rank(s: Seq<BlockView>, id: IdView) -> int
    decreases s.len(),
{
    if s.len() == 0 {
        0
    } else {
        rank(s.drop_last(), id) + if id_lt(s.last().id, id) {
            1int
        } else {
            0int
        }
    }
}

/// Whether a block with identifier `id` is in the sorted store `s`.
pub open spec fn has_id(s: Seq<BlockView>, id: IdView) -> bool {
    rank(s, id) < s.len() && s[rank(s, id)].id == id
}

/// Block `k` of the store turned into a tombstone.
pub open spec fn tombstoned_at(s: Seq<BlockView>, k: int) -> Seq<BlockView> {
    s.update(k, BlockView { deleted: true, ..s[k] })
}

/// The store with the block under `id`, if there is one, a tombstone.
pub open spec fn tombstoned(s: Seq<BlockView>, id: IdView) -> Seq<BlockView> {
    if has_id(s, id) {
        tombstoned_at(s, rank(s, id))
    } else {
        s
    }
}

/// The store after taking in block `b`: under a new identifier `b` is
/// added in order; under a known one the stored block keeps its content
/// and becomes a tombstone if `b` is one.
pub open spec fn absorbed(s: Seq<BlockView>, b: BlockView) -> Seq<BlockView> {
    if has_id(s, b.id) {
        if b.deleted {
            tombstoned_at(s, rank(s, b.id))
        } else {
            s
        }
    } else {
        s.insert(rank(s, b.id), b)
    }
}

/// The store after taking in the first `n` blocks of `remote`, one by one.
pub open spec fn merged_upto(local: Seq<BlockView>, remote: Seq<BlockView>, n: nat) -> Seq<BlockView>
    decreases n,
{
    if n == 0 {
        local
    } else {
        absorbed(merged_upto(local, remote, (n - 1) as nat), remote[n - 1])
    }
}

/// The store after a merge: `local` having taken in every block of `remote`.
pub open spec fn merged(local: Seq<BlockView>, remote: Seq<BlockView>) -> Seq<BlockView> {
    merged_upto(local, remote, remote.len())
}

/// The largest clock among the identifiers of the first `n` blocks; zero
/// if there are none.
pub open spec fn max_clock_upto(s: Seq<BlockView>, n: nat) -> u64
    decreases n,
{
    if n == 0 {
        0
    } else if s[n - 1].id.clock > max_clock_upto(s, (n - 1) as nat) {
        s[n - 1].id.clock
    } else {
        max_clock_upto(s, (n - 1) as nat)
    }
}

/// The largest clock among the identifiers of a store.
pub open spec fn max_clock(s: Seq<BlockView>) -> u64 {
    max_clock_upto(s, s.len())
}

/// Whether the store holds a live block under `id`.
pub open spec fn has_live(s: Seq<BlockView>, id: IdView) -> bool {
    has_id(s, id) && !s[rank(s, id)].deleted
}

/// Every tombstone of `before` is a tombstone of `after`.
pub open spec fn tombstones_kept(before: Seq<BlockView>, after: Seq<BlockView>) -> bool {
    forall|i: int|
        0 <= i < before.len() && (#[trigger] before[i]).deleted ==> exists|j: int|
            0 <= j < after.len() && (#[trigger] after[j]).id == before[i].id && after[j].deleted
}

/// The store without the block under `id`.
pub open spec fn without_id(s: Seq<BlockView>, id: IdView) -> Seq<BlockView> {
    if has_id(s, id) {
        s.remove(rank(s, id))
    } else {
        s
    }
}

/// Position `k` parts the store into the identifiers before `id` and the rest.
pub open spec fn is_slot(s: Seq<BlockView>, id: IdView, k: int) -> bool {
    &&& 0 <= k <= s.len()
    &&& forall|j: int| 0 <= j < k ==> id_lt((#[trigger] s[j]).id, id)
    &&& forall|j: int| k <= j < s.len() ==> !id_lt((#[trigger] s[j]).id, id)
}

/// In a sorted store the only position that parts it at `id` is `rank`.
pub proof fn lemma_slot_is_rank(s: Seq<BlockView>, id: IdView, k: int)
    requires
        is_slot(s, id, k),
    ensures
        rank(s, id) == k,
    decreases s.len(),
{
    if s.len() > 0 {
        let t = s.drop_last();
        if k == s.len() {
            assert(id_lt(s[s.len() - 1].id, id));
            assert forall|j: int| 0 <= j < k - 1 implies id_lt((#[trigger] t[j]).id, id) by {
                assert(t[j] == s[j]);
            }
            lemma_slot_is_rank(t, id, k - 1);
        } else {
            assert(!id_lt(s[s.len() - 1].id, id));
            assert forall|j: int| 0 <= j < k implies id_lt((#[trigger] t[j]).id, id) by {
                assert(t[j] == s[j]);
            }
            assert forall|j: int| k <= j < t.len() implies !id_lt((#[trigger] t[j]).id, id) by {
                assert(t[j] == s[j]);
            }
            lemma_slot_is_rank(t, id, k);
        }
    }
}

/// In a sorted store `rank` parts the store at `id`.
pub proof fn lemma_rank_is_slot(s: Seq<BlockView>, id: IdView)
    requires
        sorted(s),
    ensures
        is_slot(s, id, rank(s, id)),
    decreases s.len(),
{
    if s.len() > 0 {
        let t = s.drop_last();
        assert forall|i: int, j: int| 0 <= i < j < t.len() implies id_lt(
            (#[trigger] t[i]).id,
            (#[trigger] t[j]).id,
        ) by {
            assert(t[i] == s[i] && t[j] == s[j]);
        }
        lemma_rank_is_slot(t, id);
        let k = rank(t, id);
        let last = s[s.len() - 1];
        if id_lt(last.id, id) {
            assert forall|j: int| 0 <= j < s.len() implies id_lt((#[trigger] s[j]).id, id) by {
                if j < s.len() - 1 {
                    lemma_id_lt_transitive(s[j].id, last.id, id);
                }
            }
            lemma_slot_is_rank(t, id, t.len() as int);
        } else {
            assert forall|j: int| 0 <= j < k implies id_lt((#[trigger] s[j]).id, id) by {
                assert(t[j] == s[j]);
            }
            assert forall|j: int| k <= j < s.len() implies !id_lt((#[trigger] s[j]).id, id) by {
                if j < s.len() - 1 {
                    assert(t[j] == s[j]);
                }
            }
        }
    }
}

/// In a sorted store a block sits at the rank of its own identifier.
pub proof fn lemma_rank_of_member(s: Seq<BlockView>, k: int)
    requires
        sorted(s),
        0 <= k < s.len(),
    ensures
        rank(s, s[k].id) == k,
        has_id(s, s[k].id),
{
    let id = s[k].id;
    assert forall|j: int| k <= j < s.len() implies !id_lt((#[trigger] s[j]).id, id) by {
        if j == k {
            lemma_id_lt_irreflexive(id);
        } else {
            lemma_id_lt_asymmetric(id, s[j].id);
        }
    }
    lemma_slot_is_rank(s, id, k);
}

/// In a sorted store only `rank` can hold a block with identifier `id`.
pub proof fn lemma_member_at_rank(s: Seq<BlockView>, id: IdView, k: int)
    requires
        sorted(s),
        0 <= k < s.len(),
        s[k].id == id,
    ensures
        rank(s, id) == k,
{
    lemma_rank_of_member(s, k);
}

/// Adding a block under a new identifier at its rank keeps the store sorted.
pub proof fn lemma_insert_sorted(s: Seq<BlockView>, b: BlockView)
    requires
        sorted(s),
        !has_id(s, b.id),
    ensures
        sorted(s.insert(rank(s, b.id), b)),
{
    lemma_rank_is_slot(s, b.id);
    let k = rank(s, b.id);
    let t = s.insert(k, b);
    assert forall|i: int, j: int| 0 <= i < j < t.len() implies id_lt(
        (#[trigger] t[i]).id,
        (#[trigger] t[j]).id,
    ) by {
        if j == k {
            assert(t[i] == s[i]);
        } else if i == k {
            assert(t[j] == s[j - 1]);
            if !id_lt(b.id, s[j - 1].id) {
                lemma_id_lt_total(b.id, s[j - 1].id);
                lemma_member_at_rank(s, b.id, j - 1);
            }
        } else {
            let i0 = if i < k { i } else { i - 1 };
            let j0 = if j < k { j } else { j - 1 };
            assert(t[i] == s[i0] && t[j] == s[j0]);
        }
    }
}

/// Turning a block into a tombstone keeps the store sorted.
pub proof fn lemma_tombstoned_sorted(s: Seq<BlockView>, k: int)
    requires
        sorted(s),
        0 <= k < s.len(),
    ensures
        sorted(tombstoned_at(s, k)),
{
    let t = tombstoned_at(s, k);
    assert forall|i: int, j: int| 0 <= i < j < t.len() implies id_lt(
        (#[trigger] t[i]).id,
        (#[trigger] t[j]).id,
    ) by {
        assert(t[i].id == s[i].id && t[j].id == s[j].id);
    }
}

/// Taking a block out keeps the store sorted.
pub proof fn lemma_remove_sorted(s: Seq<BlockView>, k: int)
    requires
        sorted(s),
        0 <= k < s.len(),
    ensures
        sorted(s.remove(k)),
{
    let t = s.remove(k);
    assert forall|i: int, j: int| 0 <= i < j < t.len() implies id_lt(
        (#[trigger] t[i]).id,
        (#[trigger] t[j]).id,
    ) by {
        let i0 = if i < k { i } else { i + 1 };
        let j0 = if j < k { j } else { j + 1 };
        assert(t[i] == s[i0] && t[j] == s[j0]);
    }
}

/// Every store operation of this module keeps the store sorted.
pub proof fn lemma_absorbed_sorted(s: Seq<BlockView>, b: BlockView)
    requires
        sorted(s),
    ensures
        sorted(absorbed(s, b)),
{
    lemma_rank_is_slot(s, b.id);
    if has_id(s, b.id) {
        if b.deleted {
            lemma_tombstoned_sorted(s, rank(s, b.id));
        }
    } else {
        lemma_insert_sorted(s, b);
    }
}

/// Taking a block in loses no tombstone.
pub proof fn lemma_absorbed_keeps_tombstones(s: Seq<BlockView>, b: BlockView)
    requires
        sorted(s),
    ensures
        tombstones_kept(s, absorbed(s, b)),
{
    lemma_rank_is_slot(s, b.id);
    let t = absorbed(s, b);
    let k = rank(s, b.id);
    assert forall|i: int| 0 <= i < s.len() && (#[trigger] s[i]).deleted implies exists|j: int|
        0 <= j < t.len() && (#[trigger] t[j]).id == s[i].id && t[j].deleted by {
        if has_id(s, b.id) {
            assert(t[i].id == s[i].id && t[i].deleted);
        } else {
            let j = if i < k { i } else { i + 1 };
            assert(t[j] == s[i]);
        }
    }
}

/// Turning a block into a tombstone loses no tombstone.
pub proof fn lemma_tombstoned_keeps_tombstones(s: Seq<BlockView>, id: IdView)
    requires
        sorted(s),
    ensures
        tombstones_kept(s, tombstoned(s, id)),
{
    lemma_rank_is_slot(s, id);
    let t = tombstoned(s, id);
    assert forall|i: int| 0 <= i < s.len() && (#[trigger] s[i]).deleted implies exists|j: int|
        0 <= j < t.len() && (#[trigger] t[j]).id == s[i].id && t[j].deleted by {
        assert(t[i].id == s[i].id && t[i].deleted);
    }
}

/// Taking a live block out loses no tombstone.
pub proof fn lemma_without_live_keeps_tombstones(s: Seq<BlockView>, id: IdView)
    requires
        sorted(s),
        has_live(s, id),
    ensures
        tombstones_kept(s, without_id(s, id)),
{
    lemma_rank_is_slot(s, id);
    let t = without_id(s, id);
    let k = rank(s, id);
    assert forall|i: int| 0 <= i < s.len() && (#[trigger] s[i]).deleted implies exists|j: int|
        0 <= j < t.len() && (#[trigger] t[j]).id == s[i].id && t[j].deleted by {
        let j = if i < k { i } else { i - 1 };
        assert(t[j] == s[i]);
    }
}

/// Whether some identifier of the store carries a clock of at least
/// `clock`. Clock zero needs no block.
pub open spec fn clock_reached(s: Seq<BlockView>, clock: u64) -> bool {
    clock == 0 || exists|i: int| 0 <= i < s.len() && (#[trigger] s[i]).id.clock >= clock
}

/// Whether some block of `s` has identifier `id`.
pub open spec fn holds(s: Seq<BlockView>, id: IdView) -> bool {
    exists|i: int| 0 <= i < s.len() && (#[trigger] s[i]).id == id
}

/// Every identifier of `before` is an identifier of `after`.
pub open spec fn ids_kept(before: Seq<BlockView>, after: Seq<BlockView>) -> bool {
    forall|i: int| 0 <= i < before.len() ==> holds(after, (#[trigger] before[i]).id)
}

/// A store keeps its own identifiers.
pub proof fn lemma_ids_kept_reflexive(s: Seq<BlockView>)
    ensures
        ids_kept(s, s),
{
}

/// Keeping identifiers carries over two steps.
pub proof fn lemma_ids_kept_transitive(a: Seq<BlockView>, b: Seq<BlockView>, c: Seq<BlockView>)
    requires
        ids_kept(a, b),
        ids_kept(b, c),
    ensures
        ids_kept(a, c),
{
    assert forall|i: int| 0 <= i < a.len() implies holds(c, (#[trigger] a[i]).id) by {
        let m = choose|m: int| 0 <= m < b.len() && (#[trigger] b[m]).id == a[i].id;
        assert(holds(c, b[m].id));
    }
}

/// A clock that the store reached stays reached while identifiers are kept.
pub proof fn lemma_reached_kept(s: Seq<BlockView>, t: Seq<BlockView>, clock: u64)
    requires
        ids_kept(s, t),
        clock_reached(s, clock),
    ensures
        clock_reached(t, clock),
{
    if clock != 0 {
        let i = choose|i: int| 0 <= i < s.len() && (#[trigger] s[i]).id.clock >= clock;
        assert(holds(t, s[i].id));
        let j = choose|j: int| 0 <= j < t.len() && (#[trigger] t[j]).id == s[i].id;
        assert(t[j].id.clock >= clock);
    }
}

/// A store that holds an identifier has reached its clock.
pub proof fn lemma_holds_reaches(s: Seq<BlockView>, id: IdView)
    requires
        holds(s, id),
    ensures
        clock_reached(s, id.clock),
{
    let j = choose|j: int| 0 <= j < s.len() && (#[trigger] s[j]).id == id;
    assert(s[j].id.clock >= id.clock);
}

/// Taking a block in keeps every identifier and makes the block's
/// identifier one of the store's.
pub proof fn lemma_absorbed_ids(s: Seq<BlockView>, b: BlockView)
    requires
        sorted(s),
    ensures
        ids_kept(s, absorbed(s, b)),
        holds(absorbed(s, b), b.id),
        clock_reached(absorbed(s, b), b.id.clock),
{
    lemma_rank_is_slot(s, b.id);
    let t = absorbed(s, b);
    let k = rank(s, b.id);
    assert forall|i: int| 0 <= i < s.len() implies holds(t, (#[trigger] s[i]).id) by {
        if has_id(s, b.id) {
            assert(t[i].id == s[i].id);
        } else {
            let j = if i < k { i } else { i + 1 };
            assert(t[j] == s[i]);
        }
    }
    assert(t[k].id == b.id);
    lemma_holds_reaches(t, b.id);
}

/// A tombstone made in place keeps every identifier.
pub proof fn lemma_tombstoned_ids(s: Seq<BlockView>, id: IdView)
    requires
        sorted(s),
    ensures
        ids_kept(s, tombstoned(s, id)),
{
    lemma_rank_is_slot(s, id);
    let t = tombstoned(s, id);
    assert forall|i: int| 0 <= i < s.len() implies holds(t, (#[trigger] s[i]).id) by {
        assert(t[i].id == s[i].id);
    }
}

/// The largest clock of a store is no smaller than any block's, and it is
/// zero or some block's.
pub proof fn lemma_max_clock_upto(s: Seq<BlockView>, n: nat)
    requires
        n <= s.len(),
    ensures
        forall|i: int| 0 <= i < n ==> (#[trigger] s[i]).id.clock <= max_clock_upto(s, n),
        max_clock_upto(s, n) == 0 || exists|i: int|
            0 <= i < n && (#[trigger] s[i]).id.clock == max_clock_upto(s, n),
    decreases n,
{
    if n > 0 {
        lemma_max_clock_upto(s, (n - 1) as nat);
        let m = max_clock_upto(s, (n - 1) as nat);
        if s[n - 1].id.clock > m {
            assert(s[n - 1].id.clock == max_clock_upto(s, n));
        } else if m != 0 {
            let i = choose|i: int| 0 <= i < n - 1 && (#[trigger] s[i]).id.clock == m;
            assert(s[i].id.clock == max_clock_upto(s, n));
        }
    }
}

/// A merge keeps the identifiers of both sides.
pub proof fn lemma_merged_ids(local: Seq<BlockView>, remote: Seq<BlockView>, n: nat)
    requires
        sorted(local),
        n <= remote.len(),
    ensures
        ids_kept(local, merged_upto(local, remote, n)),
        forall|i: int| 0 <= i < n ==> holds(merged_upto(local, remote, n), (#[trigger] remote[i]).id),
    decreases n,
{
    if n > 0 {
        let before = merged_upto(local, remote, (n - 1) as nat);
        let after = merged_upto(local, remote, n);
        lemma_merged_ids(local, remote, (n - 1) as nat);
        lemma_merged_upto(local, remote, (n - 1) as nat);
        lemma_absorbed_ids(before, remote[n - 1]);
        lemma_ids_kept_transitive(local, before, after);
        assert forall|i: int| 0 <= i < n implies holds(after, (#[trigger] remote[i]).id) by {
            if i < n - 1 {
                let m = choose|m: int| 0 <= m < before.len() && (#[trigger] before[m]).id == remote[i].id;
                assert(holds(after, before[m].id));
            }
        }
    }
}

/// After a merge the store has reached every clock that the local side
/// had reached, and the largest clock of the remote side, which is no
/// smaller than any clock the remote side had reached.
pub proof fn lemma_merged_reaches(local: Seq<BlockView>, remote: Seq<BlockView>, clock: u64)
    requires
        sorted(local),
        clock_reached(local, clock),
    ensures
        clock_reached(merged(local, remote), clock),
        clock_reached(merged(local, remote), max_clock(remote)),
        forall|c: u64| clock_reached(remote, c) ==> c <= max_clock(remote),
{
    lemma_merged_ids(local, remote, remote.len());
    lemma_reached_kept(local, merged(local, remote), clock);
    lemma_max_clock_upto(remote, remote.len());
    let m = max_clock(remote);
    if m != 0 {
        let i = choose|i: int| 0 <= i < remote.len() && (#[trigger] remote[i]).id.clock == m;
        assert(holds(merged(local, remote), remote[i].id));
        lemma_holds_reaches(merged(local, remote), remote[i].id);
    }
    assert forall|c: u64| clock_reached(remote, c) implies c <= max_clock(remote) by {
        if c != 0 {
            let i = choose|i: int| 0 <= i < remote.len() && (#[trigger] remote[i]).id.clock >= c;
            assert(remote[i].id.clock <= m);
        }
    }
}

/// A store keeps its own tombstones.
pub proof fn lemma_tombstones_kept_reflexive(s: Seq<BlockView>)
    ensures
        tombstones_kept(s, s),
{
    assert forall|i: int| 0 <= i < s.len() && (#[trigger] s[i]).deleted implies exists|j: int|
        0 <= j < s.len() && (#[trigger] s[j]).id == s[i].id && s[j].deleted by {
        assert(s[i].id == s[i].id);
    }
}

/// Keeping tombstones carries over two steps.
pub proof fn lemma_tombstones_kept_transitive(a: Seq<BlockView>, b: Seq<BlockView>, c: Seq<BlockView>)
    requires
        tombstones_kept(a, b),
        tombstones_kept(b, c),
    ensures
        tombstones_kept(a, c),
{
    assert forall|i: int| 0 <= i < a.len() && (#[trigger] a[i]).deleted implies exists|j: int|
        0 <= j < c.len() && (#[trigger] c[j]).id == a[i].id && c[j].deleted by {
        let m = choose|m: int| 0 <= m < b.len() && (#[trigger] b[m]).id == a[i].id && b[m].deleted;
        let j = choose|j: int| 0 <= j < c.len() && (#[trigger] c[j]).id == b[m].id && c[j].deleted;
        assert(c[j].id == a[i].id);
    }
}

/// A merge keeps the store sorted and loses no tombstone.
pub proof fn lemma_merged_upto(local: Seq<BlockView>, remote: Seq<BlockView>, n: nat)
    requires
        sorted(local),
    ensures
        sorted(merged_upto(local, remote, n)),
        tombstones_kept(local, merged_upto(local, remote, n)),
    decreases n,
{
    if n > 0 {
        let before = merged_upto(local, remote, (n - 1) as nat);
        lemma_merged_upto(local, remote, (n - 1) as nat);
        lemma_absorbed_sorted(before, remote[n - 1]);
        lemma_absorbed_keeps_tombstones(before, remote[n - 1]);
        lemma_tombstones_kept_transitive(local, before, merged_upto(local, remote, n));
    } else {
        assert forall|i: int| 0 <= i < local.len() && (#[trigger] local[i]).deleted implies exists|j: int|
            0 <= j < local.len() && (#[trigger] local[j]).id == local[i].id && local[j].deleted by {
            assert(local[i].id == local[i].id);
        }
    }
}

/// The position at which `id` is, or would be added: the number of blocks
/// with a smaller identifier. Binary search.
pub fn find_slot(blocks: &Vec<FugueBlock>, id: &NodeId) -> (slot: usize)
    requires
        sorted(block_views(blocks@)),
    ensures
        slot == rank(block_views(blocks@), id@),
        slot <= blocks@.len(),
{
    let ghost s = block_views(blocks@);
    let mut lo: usize = 0;
    let mut hi: usize = blocks.len();
    while lo < hi
        invariant
            s == block_views(blocks@),
            sorted(s),
            lo <= hi <= blocks@.len(),
            forall|j: int| 0 <= j < lo ==> id_lt((#[trigger] s[j]).id, id@),
            forall|j: int| hi <= j < s.len() ==> !id_lt((#[trigger] s[j]).id, id@),
        decreases hi - lo,
    {
        let mid: usize = lo + (hi - lo) / 2;
        if blocks[mid].id.precedes(id) {
            proof {
                assert(s[mid as int].id == blocks@[mid as int].id@);
                assert forall|j: int| 0 <= j < mid + 1 implies id_lt((#[trigger] s[j]).id, id@) by {
                    if j < mid {
                        lemma_id_lt_transitive(s[j].id, s[mid as int].id, id@);
                    }
                }
            }
            lo = mid + 1;
        } else {
            proof {
                assert(s[mid as int].id == blocks@[mid as int].id@);
                assert forall|j: int| mid <= j < s.len() implies !id_lt((#[trigger] s[j]).id, id@) by {
                    if j > mid && id_lt(s[j].id, id@) {
                        lemma_id_lt_transitive(s[mid as int].id, s[j].id, id@);
                    }
                }
            }
            hi = mid;
        }
    }
    proof {
        lemma_slot_is_rank(s, id@, lo as int);
    }
    lo
}

/// Takes a block into the store: adds it under a new identifier, or lets
/// it turn the block already stored under its identifier into a tombstone.
pub fn absorb(blocks: &mut Vec<FugueBlock>, block: FugueBlock)
    requires
        sorted(block_views(old(blocks)@)),
    ensures
        sorted(block_views(final(blocks)@)),
        block_views(final(blocks)@) == absorbed(block_views(old(blocks)@), block@),
{
    let ghost s = block_views(blocks@);
    proof {
        lemma_absorbed_sorted(s, block@);
    }
    let slot = find_slot(blocks, &block.id);
    if slot < blocks.len() && blocks[slot].id.same(&block.id) {
        if block.deleted {
            blocks[slot].mark_deleted();
            assert(block_views(blocks@) =~= tombstoned_at(s, slot as int));
        } else {
            assert(block_views(blocks@) =~= s);
        }
    } else {
        blocks.insert(slot, block);
        assert(block_views(blocks@) =~= s.insert(slot as int, block@));
    }
}

/// Takes the block under `id` out of the store, if there is one.
pub fn remove_block(blocks: &mut Vec<FugueBlock>, id: &NodeId)
    requires
        sorted(block_views(old(blocks)@)),
    ensures
        sorted(block_views(final(blocks)@)),
        block_views(final(blocks)@) == without_id(block_views(old(blocks)@), id@),
{
    let ghost s = block_views(blocks@);
    let slot = find_slot(blocks, id);
    if slot < blocks.len() && blocks[slot].id.same(id) {
        proof {
            lemma_remove_sorted(s, slot as int);
        }
        let _ = blocks.remove(slot);
        assert(block_views(blocks@) =~= s.remove(slot as int));
    } else {
        assert(block_views(blocks@) =~= s);
    }
}

/// Turns the block under `id` into a tombstone, if there is one.
pub fn tombstone_block(blocks: &mut Vec<FugueBlock>, id: &NodeId)
    requires
        sorted(block_views(old(blocks)@)),
    ensures
        sorted(block_views(final(blocks)@)),
        block_views(final(blocks)@) == tombstoned(block_views(old(blocks)@), id@),
{
    let ghost s = block_views(blocks@);
    let slot = find_slot(blocks, id);
    if slot < blocks.len() && blocks[slot].id.same(id) {
        proof {
            lemma_tombstoned_sorted(s, slot as int);
        }
        blocks[slot].mark_deleted();
        assert(block_views(blocks@) =~= tombstoned_at(s, slot as int));
    } else {
        assert(block_views(blocks@) =~= s);
    }
}

/// Takes every block of `incoming` into the store, in order.
pub fn absorb_all(blocks: &mut Vec<FugueBlock>, incoming: &Vec<FugueBlock>)
    requires
        sorted(block_views(old(blocks)@)),
    ensures
        sorted(block_views(final(blocks)@)),
        block_views(final(blocks)@) == merged(block_views(old(blocks)@), block_views(incoming@)),
        tombstones_kept(block_views(old(blocks)@), block_views(final(blocks)@)),
{
    let ghost local = block_views(blocks@);
    let ghost remote = block_views(incoming@);
    let mut i: usize = 0;
    while i < incoming.len()
        invariant
            i <= incoming@.len(),
            remote == block_views(incoming@),
            sorted(block_views(blocks@)),
            block_views(blocks@) == merged_upto(local, remote, i as nat),
        decreases incoming@.len() - i,
    {
        assert(remote[i as int] == incoming@[i as int]@);
        absorb(blocks, incoming[i].clone());
        i = i + 1;
    }
    proof {
        lemma_merged_upto(local, remote, remote.len());
    }
}

/// The largest clock among the identifiers of the blocks; zero if there
/// are none.
pub fn max_block_clock(blocks: &Vec<FugueBlock>) -> (clock: u64)
    ensures
        clock == max_clock(block_views(blocks@)),
{
    let ghost s = block_views(blocks@);
    let mut clock: u64 = 0;
    let mut i: usize = 0;
    while i < blocks.len()
        invariant
            i <= blocks@.len(),
            s == block_views(blocks@),
            clock == max_clock_upto(s, i as nat),
        decreases blocks@.len() - i,
    {
        assert(s[i as int] == blocks@[i as int]@);
        if blocks[i].id.clock > clock {
            clock = blocks[i].id.clock;
        }
        i = i + 1;
    }
    clock
}

/// A copy of the blocks, caches included.
pub fn clone_blocks(blocks: &Vec<FugueBlock>) -> (copy: Vec<FugueBlock>)
    ensures
        copy@ == blocks@,
{
    let mut copy: Vec<FugueBlock> = Vec::new();
    let mut i: usize = 0;
    while i < blocks.len()
        invariant
            i <= blocks@.len(),
            copy@ == blocks@.take(i as int),
        decreases blocks@.len() - i,
    {
        copy.push(blocks[i].clone());
        assert(copy@ =~= blocks@.take(i + 1));
        i = i + 1;
    }
    assert(blocks@.take(blocks@.len() as int) =~= blocks@);
    copy
}

} // verus!
