//! Document order: the Fugue tree rebuilt from the blocks' origins, and
//! its in-order walk.
//!
//! Blocks are handled by their index in the store, which is their rank in
//! identifier order. The tree is derived state: it is rebuilt whenever the
//! order of the document is needed, and then dropped.

use super::block::{BlockView, FugueBlock};
use super::node::{IdView, NodeId};
use super::segment::grapheme_count;
use super::store::block_views;
use vstd::prelude::*;
use vstd::string::StringExecFns;

verus! {

/// On which side of its parent a block hangs.
#[derive(Debug, Clone, Copy, PartialEq, Eq, Structural)]
pub enum Side {
    Left,
    Right,
}

/// One block's place in the Fugue tree.
#[derive(Debug, Clone, Copy)]
pub struct TreeNode {
    /// Store index of the parent block; `None` for a root.
    pub parent: Option<usize>,
    /// The side of the parent on which this block hangs.
    pub side: Side,
    /// Whether the block is a tombstone.
    pub deleted: bool,
}

/// The clock of the first character of a block that ends at clock `last`
/// and holds `len` graphemes; zero where the range would start below zero.
pub open spec fn first_clock(last: u64, len: nat) -> u64 {
    if len >= 1 && last >= len - 1 {
        (last - (len - 1)) as u64
    } else {
        0
    }
}

/// Whether character `c` lies in the clock range of block `b`: same
/// replica, and a clock between the block's first and last.
pub open spec fn owns(b: BlockView, c: IdView) -> bool {
    &&& b.id.client == c.client
    &&& grapheme_count(b.text) >= 1
    &&& first_clock(b.id.clock, grapheme_count(b.text)) <= c.clock <= b.id.clock
}

/// The first block from index `i` on, in identifier order, that owns `c`.
pub open spec fn owner_from(s: Seq<BlockView>, c: IdView, i: int) -> Option<usize>
    decreases s.len() - i,
{
    if i < 0 || i >= s.len() {
        None
    } else if owns(s[i], c) {
        Some(i as usize)
    } else {
        owner_from(s, c, i + 1)
    }
}

/// The block that character `c` resolves to: the first, in identifier
/// order, whose clock range holds it.
pub open spec fn owner_of(s: Seq<BlockView>, c: IdView) -> Option<usize> {
    owner_from(s, c, 0)
}

/// The block that an origin resolves to; no origin, no block.
pub open spec fn origin_owner(s: Seq<BlockView>, origin: Option<IdView>) -> Option<usize> {
    match origin {
        Some(c) => owner_of(s, c),
        None => None,
    }
}

/// Whether `a` is met when walking from `b` up the parent links of `tree`,
/// taking at most `fuel` steps.
pub open spec fn chain_hits(tree: Seq<TreeNode>, a: usize, b: usize, fuel: nat) -> bool
    decreases fuel,
{
    if b == a {
        true
    } else if fuel == 0 || b >= tree.len() {
        false
    } else {
        match tree[b as int].parent {
            Some(p) => chain_hits(tree, a, p, (fuel - 1) as nat),
            None => false,
        }
    }
}

/// Whether `a` is `b` or an ancestor of `b` in the tree built so far. The
/// walk is as long as the tree has nodes, which reaches every ancestor.
pub open spec fn is_ancestor(tree: Seq<TreeNode>, a: usize, b: usize) -> bool {
    chain_hits(tree, a, b, tree.len())
}

/// The Fugue rule: where a block hangs, given the blocks its two origins
/// resolve to and the tree built from the blocks before it.
pub open spec fn parent_and_side(tree: Seq<TreeNode>, left: Option<usize>, right: Option<usize>) -> (
    Option<usize>,
    Side,
) {
    match (left, right) {
        (None, None) => (None, Side::Right),
        (Some(a), None) => (Some(a), Side::Right),
        (None, Some(b)) => (Some(b), Side::Left),
        (Some(a), Some(b)) => if is_ancestor(tree, a, b) {
            (Some(b), Side::Left)
        } else {
            (Some(a), Side::Right)
        },
    }
}

/// The tree node of block `i`, given the tree of the blocks before it.
pub open spec fn node_at(s: Seq<BlockView>, tree: Seq<TreeNode>, i: int) -> TreeNode {
    let place = parent_and_side(
        tree,
        origin_owner(s, s[i].left_origin),
        origin_owner(s, s[i].right_origin),
    );
    TreeNode { parent: place.0, side: place.1, deleted: s[i].deleted }
}

/// The tree of the first `n` blocks, built in identifier order.
pub open spec fn tree_upto(s: Seq<BlockView>, n: nat) -> Seq<TreeNode>
    decreases n,
{
    if n == 0 {
        Seq::empty()
    } else {
        let before = tree_upto(s, (n - 1) as nat);
        before.push(node_at(s, before, n - 1))
    }
}

/// The Fugue tree of a store.
pub open spec fn fugue_tree(s: Seq<BlockView>) -> Seq<TreeNode> {
    tree_upto(s, s.len())
}

/// Whether node `c` hangs on side `side` of `parent`.
pub open spec fn is_child(tree: Seq<TreeNode>, c: int, parent: usize, side: Side) -> bool {
    0 <= c < tree.len() && tree[c].parent == Some(parent) && tree[c].side == side
}

/// The in-order walk of the subtree of `node`, `fuel` levels deep: the left
/// children's subtrees, the node itself unless it is a tombstone, the right
/// children's subtrees; children in identifier order.
pub open spec fn visit(tree: Seq<TreeNode>, node: usize, fuel: nat) -> Seq<usize>
    decreases fuel, 0nat,
{
    if fuel == 0 || node >= tree.len() {
        Seq::empty()
    } else {
        visit_children(tree, node, Side::Left, tree.len(), (fuel - 1) as nat) + (if tree[node as int].deleted {
            Seq::empty()
        } else {
            seq![node]
        }) + visit_children(tree, node, Side::Right, tree.len(), (fuel - 1) as nat)
    }
}

/// The walks of those of the first `upto` nodes that hang on `side` of
/// `parent`, one after the other.
pub open spec fn visit_children(
    tree: Seq<TreeNode>,
    parent: usize,
    side: Side,
    upto: nat,
    fuel: nat,
) -> Seq<usize>
    decreases fuel, upto,
{
    if upto == 0 {
        Seq::empty()
    } else {
        visit_children(tree, parent, side, (upto - 1) as nat, fuel) + (if is_child(
            tree,
            upto - 1,
            parent,
            side,
        ) {
            visit(tree, (upto - 1) as usize, fuel)
        } else {
            Seq::empty()
        })
    }
}

/// The walks of the roots among the first `upto` nodes, one after the other.
pub open spec fn visit_roots(tree: Seq<TreeNode>, upto: nat) -> Seq<usize>
    decreases upto,
{
    if upto == 0 {
        Seq::empty()
    } else {
        visit_roots(tree, (upto - 1) as nat) + (if upto - 1 < tree.len() && tree[upto - 1].parent is None {
            visit(tree, (upto - 1) as usize, tree.len())
        } else {
            Seq::empty()
        })
    }
}

/// The document order of a store: the store indices of its live blocks in
/// the order in which their text appears.
pub open spec fn document_order(s: Seq<BlockView>) -> Seq<usize> {
    visit_roots(fugue_tree(s), s.len())
}

/// The texts of the first `n` blocks of `order`, joined.
pub open spec fn text_upto(s: Seq<BlockView>, order: Seq<usize>, n: nat) -> Seq<char>
    decreases n,
{
    if n == 0 {
        Seq::empty()
    } else {
        text_upto(s, order, (n - 1) as nat) + s[order[n - 1] as int].text
    }
}

/// The text of a store: the texts of its live blocks in document order.
pub open spec fn document_text(s: Seq<BlockView>) -> Seq<char> {
    text_upto(s, document_order(s), document_order(s).len())
}

/// Every entry names a live node of the tree.
pub open spec fn all_live(tree: Seq<TreeNode>, order: Seq<usize>) -> bool {
    forall|k: int| 0 <= k < order.len() ==> (#[trigger] order[k]) < tree.len() && !tree[order[k] as int].deleted
}

/// The tree keeps each block's tombstone flag.
pub proof fn lemma_tree_upto_flags(s: Seq<BlockView>, n: nat)
    requires
        n <= s.len(),
    ensures
        tree_upto(s, n).len() == n,
        forall|i: int| 0 <= i < n ==> (#[trigger] tree_upto(s, n)[i]).deleted == s[i].deleted,
    decreases n,
{
    if n > 0 {
        lemma_tree_upto_flags(s, (n - 1) as nat);
    }
}

/// Joining two walks of live nodes gives a walk of live nodes.
pub proof fn lemma_all_live_concat(tree: Seq<TreeNode>, a: Seq<usize>, b: Seq<usize>)
    requires
        all_live(tree, a),
        all_live(tree, b),
    ensures
        all_live(tree, a + b),
{
    assert forall|k: int| 0 <= k < (a + b).len() implies (#[trigger] (a + b)[k]) < tree.len() && !tree[(a
        + b)[k] as int].deleted by {
        if k < a.len() {
            assert((a + b)[k] == a[k]);
        } else {
            assert((a + b)[k] == b[k - a.len()]);
        }
    }
}

/// A walk names only live nodes of the tree.
pub proof fn lemma_visit_live(tree: Seq<TreeNode>, node: usize, fuel: nat)
    ensures
        all_live(tree, visit(tree, node, fuel)),
    decreases fuel, 0nat,
{
    if fuel == 0 || node >= tree.len() {
    } else {
        let lefts = visit_children(tree, node, Side::Left, tree.len(), (fuel - 1) as nat);
        let rights = visit_children(tree, node, Side::Right, tree.len(), (fuel - 1) as nat);
        let own = if tree[node as int].deleted {
            Seq::<usize>::empty()
        } else {
            seq![node]
        };
        lemma_visit_children_live(tree, node, Side::Left, tree.len(), (fuel - 1) as nat);
        lemma_visit_children_live(tree, node, Side::Right, tree.len(), (fuel - 1) as nat);
        lemma_all_live_concat(tree, lefts, own);
        lemma_all_live_concat(tree, lefts + own, rights);
    }
}

/// The walks of a node's children name only live nodes of the tree.
pub proof fn lemma_visit_children_live(tree: Seq<TreeNode>, parent: usize, side: Side, upto: nat, fuel: nat)
    ensures
        all_live(tree, visit_children(tree, parent, side, upto, fuel)),
    decreases fuel, upto,
{
    if upto > 0 {
        lemma_visit_children_live(tree, parent, side, (upto - 1) as nat, fuel);
        let before = visit_children(tree, parent, side, (upto - 1) as nat, fuel);
        if is_child(tree, upto - 1, parent, side) {
            lemma_visit_live(tree, (upto - 1) as usize, fuel);
            lemma_all_live_concat(tree, before, visit(tree, (upto - 1) as usize, fuel));
        } else {
            lemma_all_live_concat(tree, before, Seq::<usize>::empty());
        }
    }
}

/// The walks of the roots name only live nodes of the tree.
pub proof fn lemma_visit_roots_live(tree: Seq<TreeNode>, upto: nat)
    ensures
        all_live(tree, visit_roots(tree, upto)),
    decreases upto,
{
    if upto > 0 {
        lemma_visit_roots_live(tree, (upto - 1) as nat);
        let before = visit_roots(tree, (upto - 1) as nat);
        if upto - 1 < tree.len() && tree[upto - 1].parent is None {
            lemma_visit_live(tree, (upto - 1) as usize, tree.len());
            lemma_all_live_concat(tree, before, visit(tree, (upto - 1) as usize, tree.len()));
        } else {
            lemma_all_live_concat(tree, before, Seq::<usize>::empty());
        }
    }
}

/// The document order names only live blocks of the store.
pub proof fn lemma_document_order_live(s: Seq<BlockView>)
    ensures
        forall|k: int|
            0 <= k < document_order(s).len() ==> (#[trigger] document_order(s)[k]) < s.len()
                && !s[document_order(s)[k] as int].deleted,
{
    lemma_tree_upto_flags(s, s.len());
    lemma_visit_roots_live(fugue_tree(s), s.len());
}

/// The clock of a block's first character.
pub fn block_first_clock(last: u64, len: usize) -> (first: u64)
    ensures
        first == first_clock(last, len as nat),
{
    if len >= 1 && last >= (len - 1) as u64 {
        last - (len - 1) as u64
    } else {
        0
    }
}

/// Whether the block's clock range holds character `c`.
pub fn block_owns(block: &FugueBlock, c: &NodeId) -> (r: bool)
    ensures
        r == owns(block@, c@),
{
    if block.id.client_id == c.client_id {
        let len = block.len();
        if len == 0 {
            false
        } else {
            let first = block_first_clock(block.id.clock, len);
            first <= c.clock && c.clock <= block.id.clock
        }
    } else {
        false
    }
}

/// Resolves a character identifier to the block that holds it: the store
/// index of the first block, in identifier order, on the same replica whose
/// clock range contains the character's clock.
pub fn find_block_for_nodeid(blocks: &Vec<FugueBlock>, node_id: &NodeId) -> (found: Option<usize>)
    ensures
        found == owner_of(block_views(blocks@), node_id@),
        found is Some ==> found->0 < blocks@.len() && owns(blocks@[found->0 as int]@, node_id@),
{
    let ghost s = block_views(blocks@);
    let mut i: usize = 0;
    while i < blocks.len()
        invariant
            i <= blocks@.len(),
            s == block_views(blocks@),
            owner_of(s, node_id@) == owner_from(s, node_id@, i as int),
        decreases blocks@.len() - i,
    {
        if block_owns(&blocks[i], node_id) {
            return Some(i);
        }
        i = i + 1;
    }
    None
}

/// Resolves an origin, if there is one.
pub fn find_origin_block(blocks: &Vec<FugueBlock>, origin: &Option<NodeId>) -> (found: Option<usize>)
    ensures
        found == origin_owner(block_views(blocks@), super::node::opt_id_view(*origin)),
{
    match origin {
        Some(c) => find_block_for_nodeid(blocks, c),
        None => None,
    }
}

/// Whether `a` is `b` or one of `b`'s ancestors in the tree built so far.
pub fn is_ancestor_in_tree(a: usize, b: usize, tree: &Vec<TreeNode>) -> (r: bool)
    ensures
        r == is_ancestor(tree@, a, b),
{
    let mut current: usize = b;
    let mut fuel: usize = tree.len();
    loop
        invariant
            is_ancestor(tree@, a, b) == chain_hits(tree@, a, current, fuel as nat),
        decreases fuel,
    {
        if current == a {
            return true;
        }
        if fuel == 0 || current >= tree.len() {
            return false;
        }
        match tree[current].parent {
            Some(p) => {
                current = p;
                fuel = fuel - 1;
            },
            None => {
                return false;
            },
        }
    }
}

/// The Fugue rule for one block: its parent and side.
pub fn determine_parent_and_side(
    left_origin: Option<usize>,
    right_origin: Option<usize>,
    tree: &Vec<TreeNode>,
) -> (place: (Option<usize>, Side))
    ensures
        place == parent_and_side(tree@, left_origin, right_origin),
{
    match (left_origin, right_origin) {
        (None, None) => (None, Side::Right),
        (Some(a), None) => (Some(a), Side::Right),
        (None, Some(b)) => (Some(b), Side::Left),
        (Some(a), Some(b)) => {
            if is_ancestor_in_tree(a, b, tree) {
                (Some(b), Side::Left)
            } else {
                (Some(a), Side::Right)
            }
        },
    }
}

/// Rebuilds the Fugue tree from the blocks' origins, in identifier order.
pub fn reconstruct_fugue_tree(blocks: &Vec<FugueBlock>) -> (tree: Vec<TreeNode>)
    ensures
        tree@ == fugue_tree(block_views(blocks@)),
        tree@.len() == blocks@.len(),
        forall|i: int| 0 <= i < blocks@.len() ==> (#[trigger] tree@[i]).deleted == blocks@[i].deleted,
{
    let ghost s = block_views(blocks@);
    let mut tree: Vec<TreeNode> = Vec::new();
    let mut i: usize = 0;
    while i < blocks.len()
        invariant
            i <= blocks@.len(),
            s == block_views(blocks@),
            tree@ == tree_upto(s, i as nat),
        decreases blocks@.len() - i,
    {
        let left = find_origin_block(blocks, &blocks[i].left_origin);
        let right = find_origin_block(blocks, &blocks[i].right_origin);
        let place = determine_parent_and_side(left, right, &tree);
        tree.push(TreeNode { parent: place.0, side: place.1, deleted: blocks[i].deleted });
        i = i + 1;
    }
    proof {
        lemma_tree_upto_flags(s, s.len());
    }
    tree
}

/// Appends the in-order walk of the subtree of `node_id` to `result`.
pub fn in_order_visit(node_id: usize, tree: &Vec<TreeNode>, fuel: usize, result: &mut Vec<usize>)
    requires
        all_live(tree@, old(result)@),
    ensures
        final(result)@ == old(result)@ + visit(tree@, node_id, fuel as nat),
        all_live(tree@, final(result)@),
    decreases fuel,
{
    let ghost before = result@;
    if fuel == 0 || node_id >= tree.len() {
        assert(result@ =~= before + visit(tree@, node_id, fuel as nat));
        return ;
    }
    let n = tree.len();
    let mut c: usize = 0;
    while c < n
        invariant
            c <= n == tree@.len(),
            fuel > 0,
            result@ == before + visit_children(tree@, node_id, Side::Left, c as nat, (fuel - 1) as nat),
            all_live(tree@, result@),
        decreases n - c,
    {
        let ghost sofar = visit_children(tree@, node_id, Side::Left, c as nat, (fuel - 1) as nat);
        if tree[c].parent == Some(node_id) && tree[c].side == Side::Left {
            in_order_visit(c, tree, fuel - 1, result);
            assert(result@ =~= before + (sofar + visit(tree@, c, (fuel - 1) as nat)));
        } else {
            assert(result@ =~= before + (sofar + Seq::<usize>::empty()));
        }
        c = c + 1;
    }
    let ghost lefts = visit_children(tree@, node_id, Side::Left, n as nat, (fuel - 1) as nat);
    let ghost own = if tree@[node_id as int].deleted {
        Seq::<usize>::empty()
    } else {
        seq![node_id]
    };
    if !tree[node_id].deleted {
        result.push(node_id);
    }
    assert(result@ =~= before + (lefts + own));
    let mut d: usize = 0;
    while d < n
        invariant
            d <= n == tree@.len(),
            fuel > 0,
            result@ == before + (lefts + own + visit_children(
                tree@,
                node_id,
                Side::Right,
                d as nat,
                (fuel - 1) as nat,
            )),
            all_live(tree@, result@),
        decreases n - d,
    {
        let ghost sofar = visit_children(tree@, node_id, Side::Right, d as nat, (fuel - 1) as nat);
        if tree[d].parent == Some(node_id) && tree[d].side == Side::Right {
            in_order_visit(d, tree, fuel - 1, result);
            assert(result@ =~= before + (lefts + own + (sofar + visit(tree@, d, (fuel - 1) as nat))));
        } else {
            assert(result@ =~= before + (lefts + own + (sofar + Seq::<usize>::empty())));
        }
        d = d + 1;
    }
}

/// The in-order walk of the whole tree, root by root in identifier order.
pub fn in_order_traversal(tree: &Vec<TreeNode>) -> (order: Vec<usize>)
    ensures
        order@ == visit_roots(tree@, tree@.len()),
        all_live(tree@, order@),
{
    let mut order: Vec<usize> = Vec::new();
    let n = tree.len();
    let mut r: usize = 0;
    while r < n
        invariant
            r <= n == tree@.len(),
            order@ == visit_roots(tree@, r as nat),
            all_live(tree@, order@),
        decreases n - r,
    {
        let ghost sofar = order@;
        if tree[r].parent.is_none() {
            in_order_visit(r, tree, n, &mut order);
        } else {
            assert(order@ =~= sofar + Seq::<usize>::empty());
        }
        r = r + 1;
    }
    order
}

/// The store indices of the live blocks in document order.
pub fn get_document_order(blocks: &Vec<FugueBlock>) -> (order: Vec<usize>)
    ensures
        order@ == document_order(block_views(blocks@)),
        forall|k: int| 0 <= k < order@.len() ==> (#[trigger] order@[k]) < blocks@.len() && !blocks@[order@[k] as int].deleted,
{
    let tree = reconstruct_fugue_tree(blocks);
    in_order_traversal(&tree)
}

/// The text of the document: the texts of the live blocks, joined in
/// document order.
pub fn document_string(blocks: &Vec<FugueBlock>) -> (text: String)
    ensures
        text@ == document_text(block_views(blocks@)),
{
    let ghost s = block_views(blocks@);
    let order = get_document_order(blocks);
    let mut text = String::new();
    let mut k: usize = 0;
    while k < order.len()
        invariant
            k <= order@.len(),
            s == block_views(blocks@),
            forall|j: int| 0 <= j < order@.len() ==> (#[trigger] order@[j]) < blocks@.len(),
            text@ == text_upto(s, order@, k as nat),
        decreases order@.len() - k,
    {
        text.append(blocks[order[k]].text.as_str());
        k = k + 1;
    }
    text
}

} // verus!
