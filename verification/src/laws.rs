//! What holds of every tree and every authentication path, whatever the
//! hash: the laws that relate insertion, removal, path extraction and the
//! membership check.

use vstd::prelude::*;
use vstd::arithmetic::power2::*;
use crate::hash::{compress, TwoToOneHash};
use crate::merkle::{TreeError, TreeModel};
use crate::path::{holds_child, PathModel};

verus! {

/// After a commitment has been inserted into a slot, a request for the
/// slot's path with that commitment succeeds, and the path shows the
/// commitment under the new root.
pub proof fn lemma_inserted_commitment_is_proved<H: TwoToOneHash>(
    tree: TreeModel<H>,
    idx: u64,
    com: Seq<u8>,
)
    requires
        tree.well_formed(),
        idx < tree.capacity(),
        com.len() == tree.leaf_len(),
    ensures
        tree.insert(idx, com).well_formed(),
        tree.insert(idx, com).authenticate(idx, com) == Ok::<PathModel, TreeError>(
            tree.insert(idx, com).path(idx as int),
        ),
        tree.insert(idx, com).path(idx as int).verifies(
            &tree.hasher,
            tree.height,
            tree.insert(idx, com).root(),
            com,
        ),
{
    let after = tree.insert(idx, com);
    assert(after.leaf(idx as int) == com);
    after.lemma_path_verifies(idx as int);
}

/// The path of every slot of a tree shows the slot's content under the
/// tree's root, written or not.
pub proof fn lemma_every_slot_is_proved<H: TwoToOneHash>(
    tree: TreeModel<H>,
    idx: u64,
)
    requires
        tree.well_formed(),
        idx < tree.capacity(),
    ensures
        tree.authenticate(idx, tree.leaf(idx as int)) == Ok::<PathModel, TreeError>(
            tree.path(idx as int),
        ),
        tree.path(idx as int).verifies(
            &tree.hasher,
            tree.height,
            tree.root(),
            tree.leaf(idx as int),
        ),
{
    tree.lemma_path_verifies(idx as int);
}

/// A request for the path of a slot with a commitment that the slot does
/// not hold is refused as a mismatch.
pub proof fn lemma_other_commitment_is_refused<H: TwoToOneHash>(
    tree: TreeModel<H>,
    idx: u64,
    expected: Seq<u8>,
)
    requires
        idx < tree.capacity(),
        expected != tree.leaf(idx as int),
    ensures
        tree.authenticate(idx, expected) == Err::<PathModel, TreeError>(TreeError::LeafMismatch),
{
}

/// A request for the path of a slot that the tree does not have is refused
/// as out of range, whatever commitment is expected.
pub proof fn lemma_no_path_beyond_capacity<H: TwoToOneHash>(
    tree: TreeModel<H>,
    idx: u64,
    expected: Seq<u8>,
)
    requires
        idx >= tree.capacity(),
    ensures
        tree.authenticate(idx, expected) == Err::<PathModel, TreeError>(
            TreeError::IndexOutOfRange,
        ),
{
}

/// Inserting into a slot and then removing it leaves the tree, and so its
/// root, as if the slot had only been removed; where the slot had never
/// been written, as if it had never been touched.
pub proof fn lemma_remove_undoes_insert<H: TwoToOneHash>(
    tree: TreeModel<H>,
    idx: u64,
    com: Seq<u8>,
)
    ensures
        tree.insert(idx, com).remove(idx) == tree.remove(idx),
        tree.insert(idx, com).remove(idx).root() == tree.remove(idx).root(),
        !tree.leaves.contains_key(idx) ==> tree.insert(idx, com).remove(idx) == tree,
        !tree.leaves.contains_key(idx) ==> tree.insert(idx, com).remove(idx).root() == tree.root(),
{
    assert(tree.insert(idx, com).remove(idx).leaves =~= tree.remove(idx).leaves);
    if !tree.leaves.contains_key(idx) {
        assert(tree.remove(idx).leaves =~= tree.leaves);
    }
}

/// Removing a slot twice is removing it once, and removing a slot that was
/// never written changes nothing.
pub proof fn lemma_remove_is_idempotent<H: TwoToOneHash>(
    tree: TreeModel<H>,
    idx: u64,
)
    ensures
        tree.remove(idx).remove(idx) == tree.remove(idx),
        !tree.leaves.contains_key(idx) ==> tree.remove(idx) == tree,
{
    assert(tree.remove(idx).remove(idx).leaves =~= tree.remove(idx).leaves);
    if !tree.leaves.contains_key(idx) {
        assert(tree.remove(idx).leaves =~= tree.leaves);
    }
}

/// A later insertion into a slot stands over an earlier one.
pub proof fn lemma_insert_overwrites<H: TwoToOneHash>(
    tree: TreeModel<H>,
    idx: u64,
    first: Seq<u8>,
    second: Seq<u8>,
)
    ensures
        tree.insert(idx, first).insert(idx, second) == tree.insert(idx, second),
{
    assert(tree.insert(idx, first).insert(idx, second).leaves =~= tree.insert(idx, second).leaves);
}

/// Insertions into different slots can be made in either order.
pub proof fn lemma_inserts_commute<H: TwoToOneHash>(
    tree: TreeModel<H>,
    one: u64,
    one_com: Seq<u8>,
    other: u64,
    other_com: Seq<u8>,
)
    requires
        one != other,
    ensures
        tree.insert(one, one_com).insert(other, other_com) == tree.insert(other, other_com).insert(
            one,
            one_com,
        ),
{
    assert(tree.insert(one, one_com).insert(other, other_com).leaves =~= tree.insert(
        other,
        other_com,
    ).insert(one, one_com).leaves);
}

/// The nodes of a tree depend on what its slots hold, not on how they
/// came to hold it: trees of one hash and one default leaf whose slots hold
/// the same have the same nodes.
pub proof fn lemma_nodes_of_equal_slots<H: TwoToOneHash>(
    one: TreeModel<H>,
    other: TreeModel<H>,
    level: nat,
    idx: int,
)
    requires
        one.hasher == other.hasher,
        forall|i: int| one.leaf(i) == other.leaf(i),
    ensures
        one.node(level, idx) == other.node(level, idx),
    decreases level,
{
    if level > 0 {
        lemma_nodes_of_equal_slots(one, other, (level - 1) as nat, 2 * idx);
        lemma_nodes_of_equal_slots(one, other, (level - 1) as nat, 2 * idx + 1);
    }
}

/// Writing the default leaf into a slot gives the root that removing the
/// slot gives.
pub proof fn lemma_default_leaf_is_empty_slot<H: TwoToOneHash>(
    tree: TreeModel<H>,
    idx: u64,
)
    ensures
        tree.insert(idx, tree.default_leaf).root() == tree.remove(idx).root(),
{
    lemma_nodes_of_equal_slots(
        tree.insert(idx, tree.default_leaf),
        tree.remove(idx),
        tree.height,
        0,
    );
}

/// In a tree with no written slot every node has the empty value of its
/// level.
pub proof fn lemma_nodes_of_empty_tree<H: TwoToOneHash>(tree: TreeModel<H>, level: nat, idx: int)
    requires
        tree.leaves == Map::<u64, Seq<u8>>::empty(),
    ensures
        tree.node(level, idx) == tree.empty_node(level),
    decreases level,
{
    if level > 0 {
        lemma_nodes_of_empty_tree(tree, (level - 1) as nat, 2 * idx);
        lemma_nodes_of_empty_tree(tree, (level - 1) as nat, 2 * idx + 1);
    }
}

/// The root of a tree with no written slot is the empty value of the top
/// level.
pub proof fn lemma_root_of_empty_tree<H: TwoToOneHash>(tree: TreeModel<H>)
    requires
        tree.leaves == Map::<u64, Seq<u8>>::empty(),
    ensures
        tree.root() == tree.empty_node(tree.height),
{
    lemma_nodes_of_empty_tree(tree, tree.height, 0);
}

/// A path leads to one root only: once it verifies against a root, it
/// verifies against no other, whatever leaf is claimed.
pub proof fn lemma_path_fixes_root<H: TwoToOneHash>(
    path: PathModel,
    hasher: &H,
    height: nat,
    root: Seq<u8>,
    leaf: Seq<u8>,
    other_root: Seq<u8>,
    other_leaf: Seq<u8>,
)
    requires
        path.verifies(hasher, height, root, leaf),
        other_root != root,
    ensures
        !path.verifies(hasher, height, other_root, other_leaf),
{
}

/// A path shows the two leaves of its leaf pair and no other: a claimed
/// leaf that is neither of them is refused under every root.
pub proof fn lemma_path_fixes_leaves<H: TwoToOneHash>(
    path: PathModel,
    hasher: &H,
    height: nat,
    root: Seq<u8>,
    leaf: Seq<u8>,
)
    requires
        leaf != path.leaf_pair.0,
        leaf != path.leaf_pair.1,
    ensures
        !path.verifies(hasher, height, root, leaf),
{
}

/// A path fits one tree height only: once it verifies for a height, it is
/// refused for every other, whatever root and leaf are claimed.
pub proof fn lemma_path_fixes_height<H: TwoToOneHash>(
    path: PathModel,
    hasher: &H,
    height: nat,
    root: Seq<u8>,
    leaf: Seq<u8>,
    other_height: nat,
    other_root: Seq<u8>,
    other_leaf: Seq<u8>,
)
    requires
        path.verifies(hasher, height, root, leaf),
        other_height != height,
    ensures
        !path.verifies(hasher, other_height, other_root, other_leaf),
{
}

/// Whether two different pairs of blocks have one parent: a collision of
/// the hash.
pub open spec fn collide<H: TwoToOneHash>(
    hasher: &H,
    one: (Seq<u8>, Seq<u8>),
    other: (Seq<u8>, Seq<u8>),
) -> bool {
    &&& one != other
    &&& one.0.len() == one.1.len()
    &&& other.0.len() == other.1.len()
    &&& compress(hasher, one.0, one.1) == compress(hasher, other.0, other.1)
}

/// Whether some slot of the tree holds `leaf`.
pub open spec fn holds_leaf<H: TwoToOneHash>(tree: TreeModel<H>, leaf: Seq<u8>) -> bool {
    exists|idx: int| 0 <= idx < tree.capacity() && #[trigger] tree.leaf(idx) == leaf
}

/// Whether `path` shows a collision of the tree's hash: on some level its
/// pair differs from a pair of children of the tree that has the same
/// parent.
pub open spec fn shows_collision<H: TwoToOneHash>(tree: TreeModel<H>, path: PathModel) -> bool {
    exists|level: nat, parent: int|
        level < tree.height && collide(
            &tree.hasher,
            path.pair_at(level),
            #[trigger] tree.children(level, parent),
        )
}

/// The membership check is sound up to collisions: a path that verifies
/// for a leaf under the root of a tree either shows a leaf that a slot of
/// the tree holds, or shows a collision of the hash.
pub proof fn lemma_verified_leaf_is_in_the_tree<H: TwoToOneHash>(
    tree: TreeModel<H>,
    path: PathModel,
    leaf: Seq<u8>,
)
    requires
        tree.well_formed(),
        path.verifies(&tree.hasher, tree.height, tree.root(), leaf),
    ensures
        holds_leaf(tree, leaf) || shows_collision(tree, path),
{
    lemma2_to64();
    lemma_descend(tree, path, leaf, tree.height, 0);
}

/// From a node of the tree that the path reaches, down to the leaves.
proof fn lemma_descend<H: TwoToOneHash>(
    tree: TreeModel<H>,
    path: PathModel,
    leaf: Seq<u8>,
    level: nat,
    idx: int,
)
    requires
        tree.well_formed(),
        path.inner.len() + 1 == tree.height,
        holds_child(path.leaf_pair, leaf),
        1 <= level <= tree.height,
        0 <= idx < pow2((tree.height - level) as nat),
        path.climb(&tree.hasher, (level - 1) as nat) == Some(tree.node(level, idx)),
    ensures
        holds_leaf(tree, leaf) || shows_collision(tree, path),
    decreases level,
{
    let below = (level - 1) as nat;
    let pair = path.pair_at(below);
    let kids = tree.children(below, idx);
    tree.lemma_node_len(below, 2 * idx);
    tree.lemma_node_len(below, 2 * idx + 1);
    lemma_pow2_unfold((tree.height - below) as nat);
    if pair != kids {
        assert(collide(&tree.hasher, pair, tree.children(below, idx)));
    } else if below == 0 {
        if leaf == kids.0 {
            assert(tree.leaf(2 * idx) == leaf);
        } else {
            assert(tree.leaf(2 * idx + 1) == leaf);
        }
    } else {
        let reached = path.climb(&tree.hasher, (below - 1) as nat)->0;
        assert(holds_child(pair, reached));
        if reached == kids.0 {
            lemma_descend(tree, path, leaf, below, 2 * idx);
        } else {
            lemma_descend(tree, path, leaf, below, 2 * idx + 1);
        }
    }
}

} // verus!
