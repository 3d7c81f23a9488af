//! The document order names no block twice.
//!
//! The walk starts at the roots and goes down the child links. A node
//! under a root has a parent chain that ends at that root, so it hangs
//! under one child of each of its ancestors only, and the walk meets it
//! once.

use super::block::BlockView;
use super::tree::{
    document_order, fugue_tree, is_child, lemma_tree_upto_flags, visit, visit_children, visit_roots,
    Side, TreeNode,
};
use vstd::prelude::*;
use vstd::seq_lib::lemma_no_dup_in_concat;

verus! {

/// The parent of node `x`, if it has one.
pub open spec fn up(tree: Seq<TreeNode>, x: usize) -> Option<usize> {
    if x < tree.len() {
        tree[x as int].parent
    } else {
        None
    }
}

/// The node `d` parent links above `x`, if the chain is that long.
pub open spec fn anc(tree: Seq<TreeNode>, x: usize, d: nat) -> Option<usize>
    decreases d,
{
    if d == 0 {
        Some(x)
    } else {
        match anc(tree, x, (d - 1) as nat) {
            Some(y) => up(tree, y),
            None => None,
        }
    }
}

/// Whether `node` is `e` or lies on `e`'s parent chain.
pub open spec fn reaches(tree: Seq<TreeNode>, e: usize, node: usize) -> bool {
    exists|d: nat| anc(tree, e, d) == Some(node)
}

/// Whether the parent chain of `x` comes to an end.
pub open spec fn ends(tree: Seq<TreeNode>, x: usize) -> bool {
    exists|h: nat| anc(tree, x, h) is None
}

proof fn lemma_anc_sum(tree: Seq<TreeNode>, x: usize, a: nat, b: nat)
    ensures
        anc(tree, x, a + b) == (match anc(tree, x, a) {
            Some(y) => anc(tree, y, b),
            None => None,
        }),
    decreases b,
{
    if b > 0 {
        lemma_anc_sum(tree, x, a, (b - 1) as nat);
        assert(a + b - 1 == a + (b - 1) as nat);
    }
}

proof fn lemma_anc_none_stays(tree: Seq<TreeNode>, x: usize, a: nat, b: nat)
    requires
        a <= b,
        anc(tree, x, a) is None,
    ensures
        anc(tree, x, b) is None,
    decreases b,
{
    if a < b {
        lemma_anc_none_stays(tree, x, a, (b - 1) as nat);
    }
}

/// The parent chain of a node that is its own ancestor never ends.
proof fn lemma_cycle_is_endless(tree: Seq<TreeNode>, x: usize, m: nat, h: nat)
    requires
        m >= 1,
        anc(tree, x, m) == Some(x),
    ensures
        anc(tree, x, h) is Some,
    decreases h,
{
    if h < m {
        if anc(tree, x, h) is None {
            lemma_anc_none_stays(tree, x, h, m);
        }
    } else {
        lemma_anc_sum(tree, x, m, (h - m) as nat);
        lemma_cycle_is_endless(tree, x, m, (h - m) as nat);
    }
}

proof fn lemma_cycle_never_ends(tree: Seq<TreeNode>, x: usize, m: nat)
    requires
        m >= 1,
        anc(tree, x, m) == Some(x),
    ensures
        !ends(tree, x),
{
    assert forall|h: nat| anc(tree, x, h) is Some by {
        lemma_cycle_is_endless(tree, x, m, h);
    }
}

proof fn lemma_child_ends(tree: Seq<TreeNode>, c: usize, node: usize)
    requires
        up(tree, c) == Some(node),
        ends(tree, node),
    ensures
        ends(tree, c),
{
    let h = choose|h: nat| anc(tree, node, h) is None;
    assert(anc(tree, c, 1) == up(tree, c)) by {
        assert(anc(tree, c, 0) == Some(c));
    }
    lemma_anc_sum(tree, c, 1, h);
    assert(anc(tree, c, 1 + h) is None);
}

proof fn lemma_root_ends(tree: Seq<TreeNode>, r: usize)
    requires
        up(tree, r) is None,
    ensures
        ends(tree, r),
{
    assert(anc(tree, r, 0) == Some(r));
    assert(anc(tree, r, 1) is None);
}

/// A node hangs under at most one child of a node whose chain ends.
proof fn lemma_one_child(tree: Seq<TreeNode>, e: usize, c1: usize, c2: usize, node: usize)
    requires
        reaches(tree, e, c1),
        reaches(tree, e, c2),
        up(tree, c1) == Some(node),
        up(tree, c2) == Some(node),
        ends(tree, node),
    ensures
        c1 == c2,
{
    let d1 = choose|d: nat| anc(tree, e, d) == Some(c1);
    let d2 = choose|d: nat| anc(tree, e, d) == Some(c2);
    if d1 < d2 {
        lemma_below_child(tree, e, d1, d2, c1, c2, node);
    } else if d2 < d1 {
        lemma_below_child(tree, e, d2, d1, c2, c1, node);
    }
}

proof fn lemma_below_child(
    tree: Seq<TreeNode>,
    e: usize,
    d1: nat,
    d2: nat,
    c1: usize,
    c2: usize,
    node: usize,
)
    requires
        d1 < d2,
        anc(tree, e, d1) == Some(c1),
        anc(tree, e, d2) == Some(c2),
        up(tree, c1) == Some(node),
        up(tree, c2) == Some(node),
    ensures
        !ends(tree, node),
{
    let m = (d2 - d1) as nat;
    lemma_anc_sum(tree, e, d1, m);
    assert(anc(tree, c1, m) == Some(c2));
    assert(anc(tree, c1, 1) == Some(node)) by {
        assert(anc(tree, c1, 0) == Some(c1));
    }
    lemma_anc_sum(tree, c1, 1, (m - 1) as nat);
    assert(anc(tree, node, (m - 1) as nat) == Some(c2));
    assert(anc(tree, node, m) == Some(node));
    lemma_cycle_never_ends(tree, node, m);
}

/// The chain of a node that hangs under its own child never ends.
proof fn lemma_not_below_itself(tree: Seq<TreeNode>, node: usize, c: usize)
    requires
        reaches(tree, node, c),
        up(tree, c) == Some(node),
    ensures
        !ends(tree, node),
{
    let d = choose|d: nat| anc(tree, node, d) == Some(c);
    assert(anc(tree, node, d + 1) == Some(node));
    lemma_cycle_never_ends(tree, node, d + 1);
}

/// A node hangs under at most one root.
proof fn lemma_one_root(tree: Seq<TreeNode>, e: usize, r1: usize, r2: usize)
    requires
        reaches(tree, e, r1),
        reaches(tree, e, r2),
        up(tree, r1) is None,
        up(tree, r2) is None,
    ensures
        r1 == r2,
{
    let d1 = choose|d: nat| anc(tree, e, d) == Some(r1);
    let d2 = choose|d: nat| anc(tree, e, d) == Some(r2);
    if d1 < d2 {
        assert(anc(tree, e, d1 + 1) is None);
        lemma_anc_none_stays(tree, e, d1 + 1, d2);
    } else if d2 < d1 {
        assert(anc(tree, e, d2 + 1) is None);
        lemma_anc_none_stays(tree, e, d2 + 1, d1);
    }
}

proof fn lemma_concat_contains(a: Seq<usize>, b: Seq<usize>, e: usize)
    ensures
        (a + b).contains(e) == (a.contains(e) || b.contains(e)),
{
    if (a + b).contains(e) {
        let i = choose|i: int| 0 <= i < (a + b).len() && (a + b)[i] == e;
        if i < a.len() {
            assert(a[i] == e);
        } else {
            assert(b[i - a.len()] == e);
        }
    }
    if a.contains(e) {
        let i = choose|i: int| 0 <= i < a.len() && a[i] == e;
        assert((a + b)[i] == e);
    }
    if b.contains(e) {
        let i = choose|i: int| 0 <= i < b.len() && b[i] == e;
        assert((a + b)[i + a.len()] == e);
    }
}

/// Whatever the walk of `node` names has `node` on its parent chain.
proof fn lemma_visit_reaches(tree: Seq<TreeNode>, node: usize, fuel: nat, e: usize)
    requires
        tree.len() <= usize::MAX,
        visit(tree, node, fuel).contains(e),
    ensures
        reaches(tree, e, node),
    decreases fuel, 0nat,
{
    if fuel == 0 || node >= tree.len() {
        assert(visit(tree, node, fuel) =~= Seq::<usize>::empty());
    } else {
        let lefts = visit_children(tree, node, Side::Left, tree.len(), (fuel - 1) as nat);
        let rights = visit_children(tree, node, Side::Right, tree.len(), (fuel - 1) as nat);
        let own = if tree[node as int].deleted {
            Seq::<usize>::empty()
        } else {
            seq![node]
        };
        lemma_concat_contains(lefts + own, rights, e);
        lemma_concat_contains(lefts, own, e);
        if lefts.contains(e) {
            let c = lemma_children_reach(tree, node, Side::Left, tree.len(), (fuel - 1) as nat, e);
            lemma_step_up(tree, e, c, node);
        } else if rights.contains(e) {
            let c = lemma_children_reach(tree, node, Side::Right, tree.len(), (fuel - 1) as nat, e);
            lemma_step_up(tree, e, c, node);
        } else {
            assert(own.contains(e));
            assert(e == node);
            assert(anc(tree, e, 0) == Some(node));
        }
    }
}

proof fn lemma_step_up(tree: Seq<TreeNode>, e: usize, c: usize, node: usize)
    requires
        reaches(tree, e, c),
        up(tree, c) == Some(node),
    ensures
        reaches(tree, e, node),
{
    let d = choose|d: nat| anc(tree, e, d) == Some(c);
    assert(anc(tree, e, d + 1) == Some(node));
}

/// Whatever the walks of a node's children name hangs under one of those
/// children.
proof fn lemma_children_reach(
    tree: Seq<TreeNode>,
    parent: usize,
    side: Side,
    upto: nat,
    fuel: nat,
    e: usize,
) -> (c: usize)
    requires
        tree.len() <= usize::MAX,
        visit_children(tree, parent, side, upto, fuel).contains(e),
    ensures
        c < upto,
        is_child(tree, c as int, parent, side),
        up(tree, c) == Some(parent),
        reaches(tree, e, c),
    decreases fuel, upto,
{
    if upto == 0 {
        assert(visit_children(tree, parent, side, upto, fuel) =~= Seq::<usize>::empty());
        0
    } else {
        let before = visit_children(tree, parent, side, (upto - 1) as nat, fuel);
        let last = if is_child(tree, upto - 1, parent, side) {
            visit(tree, (upto - 1) as usize, fuel)
        } else {
            Seq::<usize>::empty()
        };
        lemma_concat_contains(before, last, e);
        if before.contains(e) {
            lemma_children_reach(tree, parent, side, (upto - 1) as nat, fuel, e)
        } else {
            assert(last.contains(e));
            lemma_visit_reaches(tree, (upto - 1) as usize, fuel, e);
            (upto - 1) as usize
        }
    }
}

/// The walk of a node whose chain ends names no node twice.
proof fn lemma_visit_distinct(tree: Seq<TreeNode>, node: usize, fuel: nat)
    requires
        tree.len() <= usize::MAX,
        ends(tree, node),
    ensures
        visit(tree, node, fuel).no_duplicates(),
    decreases fuel, 0nat,
{
    if fuel == 0 || node >= tree.len() {
    } else {
        let f = (fuel - 1) as nat;
        let lefts = visit_children(tree, node, Side::Left, tree.len(), f);
        let rights = visit_children(tree, node, Side::Right, tree.len(), f);
        let own = if tree[node as int].deleted {
            Seq::<usize>::empty()
        } else {
            seq![node]
        };
        lemma_children_distinct(tree, node, Side::Left, tree.len(), f);
        lemma_children_distinct(tree, node, Side::Right, tree.len(), f);
        assert forall|i: int, j: int| 0 <= i < lefts.len() && 0 <= j < own.len() implies lefts[i]
            != own[j] by {
            if lefts[i] == own[j] {
                assert(lefts.contains(node));
                let c = lemma_children_reach(tree, node, Side::Left, tree.len(), f, node);
                lemma_not_below_itself(tree, node, c);
            }
        }
        lemma_no_dup_in_concat(lefts, own);
        assert forall|i: int, j: int| 0 <= i < (lefts + own).len() && 0 <= j < rights.len() implies (
        lefts + own)[i] != rights[j] by {
            let e = rights[j];
            if (lefts + own)[i] == e {
                assert(rights.contains(e));
                assert((lefts + own).contains(e));
                lemma_concat_contains(lefts, own, e);
                let c2 = lemma_children_reach(tree, node, Side::Right, tree.len(), f, e);
                if lefts.contains(e) {
                    let c1 = lemma_children_reach(tree, node, Side::Left, tree.len(), f, e);
                    lemma_one_child(tree, e, c1, c2, node);
                } else {
                    assert(own.contains(e));
                    assert(e == node);
                    lemma_not_below_itself(tree, node, c2);
                }
            }
        }
        lemma_no_dup_in_concat(lefts + own, rights);
    }
}

/// The walks of the children of a node whose chain ends name no node twice.
proof fn lemma_children_distinct(tree: Seq<TreeNode>, parent: usize, side: Side, upto: nat, fuel: nat)
    requires
        tree.len() <= usize::MAX,
        ends(tree, parent),
    ensures
        visit_children(tree, parent, side, upto, fuel).no_duplicates(),
    decreases fuel, upto,
{
    if upto > 0 {
        let before = visit_children(tree, parent, side, (upto - 1) as nat, fuel);
        lemma_children_distinct(tree, parent, side, (upto - 1) as nat, fuel);
        if is_child(tree, upto - 1, parent, side) {
            let c = (upto - 1) as usize;
            let last = visit(tree, c, fuel);
            lemma_child_ends(tree, c, parent);
            lemma_visit_distinct(tree, c, fuel);
            assert forall|i: int, j: int| 0 <= i < before.len() && 0 <= j < last.len() implies before[i]
                != last[j] by {
                let e = last[j];
                if before[i] == e {
                    assert(before.contains(e));
                    assert(last.contains(e));
                    let c1 = lemma_children_reach(tree, parent, side, (upto - 1) as nat, fuel, e);
                    lemma_visit_reaches(tree, c, fuel, e);
                    lemma_one_child(tree, e, c1, c, parent);
                }
            }
            lemma_no_dup_in_concat(before, last);
        } else {
            assert(before + Seq::<usize>::empty() =~= before);
        }
    }
}

/// Whatever the walks of the roots name hangs under one of those roots.
proof fn lemma_roots_reach(tree: Seq<TreeNode>, upto: nat, e: usize) -> (r: usize)
    requires
        tree.len() <= usize::MAX,
        visit_roots(tree, upto).contains(e),
    ensures
        r < upto,
        up(tree, r) is None,
        reaches(tree, e, r),
    decreases upto,
{
    if upto == 0 {
        assert(visit_roots(tree, upto) =~= Seq::<usize>::empty());
        0
    } else {
        let before = visit_roots(tree, (upto - 1) as nat);
        let last = if upto - 1 < tree.len() && tree[upto - 1].parent is None {
            visit(tree, (upto - 1) as usize, tree.len())
        } else {
            Seq::<usize>::empty()
        };
        lemma_concat_contains(before, last, e);
        if before.contains(e) {
            lemma_roots_reach(tree, (upto - 1) as nat, e)
        } else {
            assert(last.contains(e));
            lemma_visit_reaches(tree, (upto - 1) as usize, tree.len(), e);
            (upto - 1) as usize
        }
    }
}

/// The walks of the roots name no node twice.
proof fn lemma_roots_distinct(tree: Seq<TreeNode>, upto: nat)
    requires
        tree.len() <= usize::MAX,
    ensures
        visit_roots(tree, upto).no_duplicates(),
    decreases upto,
{
    if upto > 0 {
        let before = visit_roots(tree, (upto - 1) as nat);
        lemma_roots_distinct(tree, (upto - 1) as nat);
        if upto - 1 < tree.len() && tree[upto - 1].parent is None {
            let r = (upto - 1) as usize;
            let last = visit(tree, r, tree.len());
            lemma_root_ends(tree, r);
            lemma_visit_distinct(tree, r, tree.len());
            assert forall|i: int, j: int| 0 <= i < before.len() && 0 <= j < last.len() implies before[i]
                != last[j] by {
                let e = last[j];
                if before[i] == e {
                    assert(before.contains(e));
                    assert(last.contains(e));
                    let r1 = lemma_roots_reach(tree, (upto - 1) as nat, e);
                    lemma_visit_reaches(tree, r, tree.len(), e);
                    lemma_one_root(tree, e, r1, r);
                }
            }
            lemma_no_dup_in_concat(before, last);
        } else {
            assert(before + Seq::<usize>::empty() =~= before);
        }
    }
}

/// The document order names no block twice.
pub proof fn lemma_document_order_distinct(s: Seq<BlockView>)
    requires
        s.len() <= usize::MAX,
    ensures
        document_order(s).no_duplicates(),
{
    lemma_tree_upto_flags(s, s.len());
    lemma_roots_distinct(fugue_tree(s), s.len());
}

} // verus!
