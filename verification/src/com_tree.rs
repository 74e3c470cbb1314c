//! The sparse tree of attribute commitments.
//!
//! A tree of height `h` has `2^h` slots. Only the slots that were written
//! are stored, and of the nodes above them only those that a written slot
//! lies under; every other node has the value that its level has in an
//! empty tree. Writing a slot recomputes the `h` nodes above it and nothing
//! else.

use vstd::prelude::*;
use vstd::arithmetic::power2::*;
use std::collections::BTreeMap;
use vstd::std_specs::iter::IteratorSpec;
use crate::bytes::bytes_eq;
use crate::hash::{evaluate, is_compression, TwoToOneHash};
use crate::groth16::{accepted, concat_inputs, groth16_verdict, groth16_verify};
use crate::path::{PathModel, SparseMerkleTreePath};
use crate::proof_data_structures::{TreeProof, TreeVerifyingKey};
use crate::merkle::{ancestor, empty_node, lemma_ancestor_in_range, TreeError, TreeModel};

verus! {

broadcast use vstd::std_specs::btree::group_btree_axioms;

/// What a tree is built from: the two-to-one hash with its parameters, and
/// the canonical value of an unwritten slot. Leaves enter the tree as they
/// are, without a hash of their own; every leaf is as long as the default
/// leaf.
pub struct ComTreeConfig<H> {
    pub hasher: H,
    pub default_leaf: Vec<u8>,
}

/// A Merkle tree of attribute commitments.
pub struct ComTree<H> {
    config: ComTreeConfig<H>,
    height: u32,
    capacity: u64,
    /// One sparse map per level, the leaves first and the root level last.
    levels: Vec<BTreeMap<u64, Vec<u8>>>,
    /// For each level, the value of a node above unwritten slots only.
    empties: Vec<Vec<u8>>,
    root: Vec<u8>,
}

/// The written slots of a level-0 map, as the model holds them.
pub open spec fn leaves_of(stored: Map<u64, Vec<u8>>) -> Map<u64, Seq<u8>> {
    Map::new(|k: u64| stored.contains_key(k), |k: u64| stored[k]@)
}

/// Whether `stored` holds level `level` of `model`: a stored node has the
/// value that the model gives it, and a node that is not stored has the
/// value `empty`.
spec fn level_holds<H: TwoToOneHash>(
    stored: Map<u64, Vec<u8>>,
    empty: Seq<u8>,
    model: TreeModel<H>,
    level: nat,
) -> bool {
    forall|j: u64|
        if #[trigger] stored.contains_key(j) {
            stored[j]@ == model.node(level, j as int)
        } else {
            model.node(level, j as int) == empty
        }
}

/// Whether a child of node `parent` is stored in `below`.
spec fn has_stored_child(below: Map<u64, Vec<u8>>, parent: u64) -> bool {
    exists|child: u64| #[trigger] below.contains_key(child) && child / 2 == parent
}

/// Whether every node stored in `above` has a child stored in `below`.
spec fn rests_on(above: Map<u64, Vec<u8>>, below: Map<u64, Vec<u8>>) -> bool {
    forall|j: u64| #[trigger] above.contains_key(j) ==> has_stored_child(below, j)
}

impl<H: TwoToOneHash> View for ComTree<H> {
    type V = TreeModel<H>;

    closed spec fn view(&self) -> TreeModel<H> {
        TreeModel {
            hasher: self.config.hasher,
            default_leaf: self.config.default_leaf@,
            height: self.height as nat,
            leaves: leaves_of(self.levels@[0]@),
        }
    }
}

impl<H: TwoToOneHash> ComTree<H> {
    /// The invariant of the stored tree: it holds every level of its model,
    /// and the cached root is the model's root.
    pub closed spec fn wf(&self) -> bool {
        &&& self@.well_formed()
        &&& self.capacity == pow2(self.height as nat)
        &&& self.levels@.len() == self.height + 1
        &&& self.empties@.len() == self.height + 1
        &&& forall|l: int|
            0 <= l <= self.height ==> (#[trigger] self.empties@[l])@ == self@.empty_node(l as nat)
        &&& forall|l: int|
            0 <= l <= self.height ==> level_holds(
                (#[trigger] self.levels@[l])@,
                self.empties@[l]@,
                self@,
                l as nat,
            )
        &&& forall|l: int|
            1 <= l <= self.height ==> rests_on((#[trigger] self.levels@[l])@, self.levels@[l - 1]@)
        &&& self.root@ == self@.root()
    }

    /// Whether node `idx` of level `level` is stored, level 0 being the
    /// leaves.
    pub closed spec fn stores(&self, level: nat, idx: u64) -> bool {
        level <= self.height && self.levels@[level as int]@.contains_key(idx)
    }

    /// Whether node `idx` of level `level` is stored.
    pub fn is_stored(&self, level: u32, idx: u64) -> (stored: bool)
        requires
            self.wf(),
        ensures
            stored == self.stores(level as nat, idx),
    {
        level <= self.height && self.levels[level as usize].contains_key(&idx)
    }

    /// The tree is stored sparsely: of the leaves the written slots and no
    /// other, and of the nodes above them none that no written slot lies
    /// under.
    pub proof fn lemma_stored_sparsely(&self, level: nat, idx: u64)
        requires
            self.wf(),
            self.stores(level, idx),
        ensures
            exists|slot: u64| #[trigger]
                self@.leaves.contains_key(slot) && ancestor(slot as int, level) == idx,
        decreases level,
    {
        if level == 0 {
            assert(self@.leaves.contains_key(idx) && ancestor(idx as int, 0) == idx);
        } else {
            assert(rests_on(self.levels@[level as int]@, self.levels@[level - 1]@));
            assert(has_stored_child(self.levels@[level - 1]@, idx));
            let child = choose|child: u64| #[trigger]
                self.levels@[level - 1]@.contains_key(child) && child / 2 == idx;
            self.lemma_stored_sparsely((level - 1) as nat, child);
            let slot = choose|slot: u64| #[trigger]
                self@.leaves.contains_key(slot) && ancestor(slot as int, (level - 1) as nat)
                    == child;
            assert(self@.leaves.contains_key(slot) && ancestor(slot as int, level) == idx);
        }
    }

    /// Every tree is well formed as a model, whatever was done to it.
    pub proof fn lemma_wf_model(&self)
        requires
            self.wf(),
        ensures
            self@.well_formed(),
    {
    }

    /// The tree's height.
    pub fn height(&self) -> (height: u32)
        ensures
            height == self@.height,
    {
        self.height
    }

    /// Returns this tree's root.
    pub fn root(&self) -> (root: Vec<u8>)
        requires
            self.wf(),
        ensures
            root@ == self@.root(),
    {
        self.root.clone()
    }

    /// The hash and the default leaf that the tree was made with.
    pub fn config(&self) -> (config: &ComTreeConfig<H>)
        ensures
            config.hasher == self@.hasher,
            config.default_leaf@ == self@.default_leaf,
    {
        &self.config
    }

    /// The number of slots.
    pub fn capacity(&self) -> (capacity: u64)
        requires
            self.wf(),
        ensures
            capacity == self@.capacity(),
    {
        self.capacity
    }

    /// The value of node `idx` of level `level`: what is stored for it, or
    /// the empty value of the level.
    fn node_value(&self, level: usize, idx: u64) -> (value: &Vec<u8>)
        requires
            self.wf(),
            level <= self.height,
        ensures
            value@ == self@.node(level as nat, idx as int),
    {
        assert(level_holds(
            self.levels@[level as int]@,
            self.empties@[level as int]@,
            self@,
            level as nat,
        ));
        match self.levels[level].get(&idx) {
            Some(value) => value,
            None => &self.empties[level],
        }
    }

    /// Writes `value` to slot `idx`, or takes the slot back to the default
    /// leaf where `value` is `None`, and recomputes the nodes above the slot.
    fn set_leaf(&mut self, idx: u64, value: Option<Vec<u8>>)
        requires
            old(self).wf(),
            idx < old(self)@.capacity(),
            value matches Some(leaf) ==> leaf@.len() == old(self)@.leaf_len(),
        ensures
            final(self).wf(),
            final(self)@ == (match value {
                Some(leaf) => old(self)@.insert(idx, leaf@),
                None => old(self)@.remove(idx),
            }),
    {
        let ghost before = self@;
        let ghost after = if value is Some {
            before.insert(idx, value->0@)
        } else {
            before.remove(idx)
        };
        let ghost old_levels = self.levels@;
        proof {
            lemma2_to64_rest();
            if self.height < 63 {
                lemma_pow2_strictly_increases(self.height as nat, 63);
            }
        }
        let mut reached: Vec<u8> = match value {
            Some(leaf) => {
                let copy = leaf.clone();
                self.levels[0].insert(idx, leaf);
                copy
            },
            None => {
                self.levels[0].remove(&idx);
                self.config.default_leaf.clone()
            },
        };
        proof {
            assert(self@.leaves =~= after.leaves);
            assert(self@ == after);
            assert(after.well_formed());
            assert(level_holds(old_levels[0]@, self.empties@[0]@, before, 0));
            assert(level_holds(self.levels@[0]@, self.empties@[0]@, after, 0));
            assert(ancestor(idx as int, 0) == idx);
            assert forall|j: u64| #[trigger]
                self.levels@[1]@.contains_key(j) && j != idx / 2 implies has_stored_child(
                self.levels@[0]@,
                j,
            ) by {
                assert(rests_on(old_levels[1]@, old_levels[0]@));
                assert(has_stored_child(old_levels[0]@, j));
                let child = choose|child: u64| #[trigger]
                    old_levels[0]@.contains_key(child) && child / 2 == j;
                assert(self.levels@[0]@.contains_key(child));
            }
        }
        let height: usize = self.height as usize;
        let mut at: u64 = idx;
        let mut level: usize = 0;
        while level < height
            invariant
                height == self.height,
                2 <= height <= 63,
                level <= height,
                self@ == after,
                after.well_formed(),
                before.hasher == after.hasher,
                before.default_leaf == after.default_leaf,
                forall|i: int| i != idx ==> before.leaf(i) == after.leaf(i),
                self.capacity == pow2(self.height as nat),
                idx < pow2(self.height as nat),
                self.levels@.len() == height + 1,
                self.empties@.len() == height + 1,
                forall|l: int|
                    0 <= l <= height ==> (#[trigger] self.empties@[l])@ == after.empty_node(
                        l as nat,
                    ),
                at == ancestor(idx as int, level as nat),
                at <= idx < 0x8000_0000_0000_0000,
                reached@ == after.node(level as nat, at as int),
                forall|l: int|
                    0 <= l <= level ==> level_holds(
                        (#[trigger] self.levels@[l])@,
                        self.empties@[l]@,
                        after,
                        l as nat,
                    ),
                forall|l: int|
                    level < l <= height ==> level_holds(
                        (#[trigger] self.levels@[l])@,
                        self.empties@[l]@,
                        before,
                        l as nat,
                    ),
                forall|l: int|
                    1 <= l <= height && l != level + 1 ==> rests_on(
                        (#[trigger] self.levels@[l])@,
                        self.levels@[l - 1]@,
                    ),
                level < height ==> forall|j: u64| #[trigger]
                    self.levels@[level + 1]@.contains_key(j) && j != at / 2 ==> has_stored_child(
                        self.levels@[level as int]@,
                        j,
                    ),
            decreases height - level,
        {
            let ghost levels_before = self.levels@;
            let above: u64 = at / 2;
            let sibling: u64 = if at % 2 == 0 {
                at + 1
            } else {
                at - 1
            };
            proof {
                after.lemma_node_len(level as nat, at as int);
                after.lemma_node_len(level as nat, sibling as int);
                assert(ancestor(idx as int, (level + 1) as nat) == above);
                assert(at == 2 * above || at == 2 * above + 1);
                assert(level_holds(
                    levels_before[level as int]@,
                    self.empties@[level as int]@,
                    after,
                    level as nat,
                ));
                assert(level_holds(
                    levels_before[level + 1]@,
                    self.empties@[level + 1]@,
                    before,
                    (level + 1) as nat,
                ));
                assert forall|j: u64| j != above implies before.node(
                    (level + 1) as nat,
                    j as int,
                ) == #[trigger] after.node((level + 1) as nat, j as int) by {
                    before.lemma_node_frame(after, idx as int, (level + 1) as nat, j as int);
                }
            }
            let parent: Vec<u8> = if self.levels[level].contains_key(&at)
                || self.levels[level].contains_key(&sibling) {
                // a stored node lies under the parent: compute and store it
                let other = self.node_value_of(level, sibling, Ghost(after));
                let parent = if at % 2 == 0 {
                    evaluate(&self.config.hasher, &reached, other)
                } else {
                    evaluate(&self.config.hasher, other, &reached)
                };
                self.levels[level + 1].insert(above, parent.clone());
                parent
            } else {
                // nothing is stored under the parent: it is an empty node
                // again, and is not stored either
                self.levels[level + 1].remove(&above);
                self.empties[level + 1].clone()
            };
            proof {
                assert(parent@ == after.node((level + 1) as nat, above as int));
                assert(level_holds(
                    self.levels@[level + 1]@,
                    self.empties@[level + 1]@,
                    after,
                    (level + 1) as nat,
                ));
                assert(rests_on(self.levels@[level + 1]@, self.levels@[level as int]@)) by {
                    assert forall|j: u64| #[trigger]
                        self.levels@[level + 1]@.contains_key(j) implies has_stored_child(
                        self.levels@[level as int]@,
                        j,
                    ) by {
                        if j == above {
                            if self.levels@[level as int]@.contains_key(at) {
                                assert(at / 2 == above);
                            } else {
                                assert(self.levels@[level as int]@.contains_key(sibling));
                                assert(sibling / 2 == above);
                            }
                        } else {
                            assert(levels_before[level + 1]@.contains_key(j));
                        }
                    }
                }
                if level + 1 < height {
                    assert forall|j: u64| #[trigger]
                        self.levels@[level + 2]@.contains_key(j) && j != above / 2
                        implies has_stored_child(self.levels@[level + 1]@, j) by {
                        assert(rests_on(levels_before[level + 2]@, levels_before[level + 1]@));
                        assert(has_stored_child(levels_before[level + 1]@, j));
                        let child = choose|child: u64| #[trigger]
                            levels_before[level + 1]@.contains_key(child) && child / 2 == j;
                        assert(self.levels@[level + 1]@.contains_key(child));
                    }
                }
            }
            reached = parent;
            at = above;
            level += 1;
        }
        proof {
            lemma_ancestor_in_range(idx as int, self.height as nat, self.height as nat);
            lemma2_to64();
        }
        self.root = reached;
    }

    /// As `node_value`, during an update: the levels up to `level` already
    /// hold `model`.
    fn node_value_of(&self, level: usize, idx: u64, Ghost(model): Ghost<TreeModel<H>>) -> (value:
        &Vec<u8>)
        requires
            level < self.levels@.len(),
            level < self.empties@.len(),
            level_holds(self.levels@[level as int]@, self.empties@[level as int]@, model, level as nat),
        ensures
            value@ == model.node(level as nat, idx as int),
    {
        match self.levels[level].get(&idx) {
            Some(value) => value,
            None => &self.empties[level],
        }
    }

    /// Inserts a commitment at slot `idx`, over what the slot held before.
    pub fn insert(&mut self, idx: u64, com: &Vec<u8>)
        requires
            old(self).wf(),
            idx < old(self)@.capacity(),
            com@.len() == old(self)@.leaf_len(),
        ensures
            final(self).wf(),
            final(self)@ == old(self)@.insert(idx, com@),
    {
        self.set_leaf(idx, Some(com.clone()));
    }

    /// Takes slot `idx` back to the default leaf. A slot that was never
    /// written stays as it is.
    pub fn remove(&mut self, idx: u64)
        requires
            old(self).wf(),
            idx < old(self)@.capacity(),
        ensures
            final(self).wf(),
            final(self)@ == old(self)@.remove(idx),
    {
        self.set_leaf(idx, None);
    }

    /// Makes a tree with `2^tree_height` slots that holds the given
    /// commitments at the given slots. Every level is computed once, from
    /// the level below it, and the root last.
    pub fn new(config: ComTreeConfig<H>, tree_height: u32, coms: &BTreeMap<u64, Vec<u8>>) -> (tree:
        ComTree<H>)
        requires
            2 <= tree_height <= 63,
            is_compression(&config.hasher),
            forall|k: u64| #[trigger]
                coms@.contains_key(k) ==> k < pow2(tree_height as nat) && coms@[k]@.len()
                    == config.default_leaf@.len(),
        ensures
            tree.wf(),
            tree@ == (TreeModel {
                hasher: config.hasher,
                default_leaf: config.default_leaf@,
                height: tree_height as nat,
                leaves: leaves_of(coms@),
            }),
    {
        let ghost model = TreeModel {
            hasher: config.hasher,
            default_leaf: config.default_leaf@,
            height: tree_height as nat,
            leaves: leaves_of(coms@),
        };
        let empties = empty_nodes(&config.hasher, &config.default_leaf, tree_height);
        let capacity = capacity_of(tree_height);
        let height: usize = tree_height as usize;
        let mut levels: Vec<BTreeMap<u64, Vec<u8>>> = Vec::new();
        levels.push(coms.clone());
        let mut level: usize = 0;
        while level < height
            invariant
                height == tree_height,
                level <= height,
                model.well_formed(),
                model.hasher == config.hasher,
                model.height == height,
                levels@.len() == level + 1,
                levels@[0]@ == coms@,
                empties@.len() == height + 1,
                forall|l: int|
                    0 <= l <= height ==> (#[trigger] empties@[l])@ == model.empty_node(l as nat),
                forall|l: int|
                    0 <= l <= level ==> level_holds(
                        (#[trigger] levels@[l])@,
                        empties@[l]@,
                        model,
                        l as nat,
                    ),
                forall|l: int| 1 <= l <= level ==> rests_on((#[trigger] levels@[l])@, levels@[l - 1]@),
            decreases height - level,
        {
            let above = level_above(
                &config.hasher,
                &levels[level],
                &empties[level],
                Ghost(model),
                Ghost(level as nat),
            );
            levels.push(above);
            level += 1;
        }
        assert(level_holds(levels@[height as int]@, empties@[height as int]@, model, height as nat));
        let root = match levels[height].get(&0) {
            Some(root) => root.clone(),
            None => empties[height].clone(),
        };
        let tree = ComTree { config, height: tree_height, capacity, levels, empties, root };
        assert(tree@ == model);
        tree
    }

    /// Returns the authentication path of slot `idx`, for a caller who
    /// expects the slot to hold `expected`.
    pub fn generate_proof(&self, idx: u64, expected: &Vec<u8>) -> (res: Result<
        SparseMerkleTreePath,
        TreeError,
    >)
        requires
            self.wf(),
        ensures
            match res {
                Ok(path) => self@.authenticate(idx, expected@) == Ok::<PathModel, TreeError>(path@),
                Err(e) => self@.authenticate(idx, expected@) == Err::<PathModel, TreeError>(e),
            },
    {
        if idx >= self.capacity {
            return Err(TreeError::IndexOutOfRange);
        }
        if !bytes_eq(self.node_value(0, idx), expected) {
            return Err(TreeError::LeafMismatch);
        }
        proof {
            lemma2_to64_rest();
            if self.height < 63 {
                lemma_pow2_strictly_increases(self.height as nat, 63);
            }
            assert(ancestor(idx as int, 1) == ancestor(idx as int, 0) / 2);
        }
        let height: usize = self.height as usize;
        let mut at: u64 = idx / 2;
        let leaf_hashes = (
            self.node_value(0, 2 * at).clone(),
            self.node_value(0, 2 * at + 1).clone(),
        );
        let mut inner_hashes: Vec<(Vec<u8>, Vec<u8>)> = Vec::new();
        let mut level: usize = 1;
        while level < height
            invariant
                self.wf(),
                height == self.height,
                1 <= level <= height,
                at == ancestor(idx as int, level as nat),
                at <= idx < 0x8000_0000_0000_0000,
                inner_hashes@.len() == level - 1,
                forall|k: int|
                    0 <= k < level - 1 ==> ((#[trigger] inner_hashes@[k]).0@, inner_hashes@[k].1@)
                        == self@.children((k + 1) as nat, ancestor(idx as int, (k + 2) as nat)),
            decreases height - level,
        {
            let above: u64 = at / 2;
            assert(ancestor(idx as int, (level + 1) as nat) == above);
            let pair = (
                self.node_value(level, 2 * above).clone(),
                self.node_value(level, 2 * above + 1).clone(),
            );
            inner_hashes.push(pair);
            at = above;
            level += 1;
        }
        let path = SparseMerkleTreePath { leaf_hashes, inner_hashes };
        assert(path@.inner =~= self@.path(idx as int).inner);
        Ok(path)
    }

    /// Makes an empty tree with `2^tree_height` slots.
    pub fn empty(config: ComTreeConfig<H>, tree_height: u32) -> (tree: ComTree<H>)
        requires
            2 <= tree_height <= 63,
            is_compression(&config.hasher),
        ensures
            tree.wf(),
            tree@ == (TreeModel {
                hasher: config.hasher,
                default_leaf: config.default_leaf@,
                height: tree_height as nat,
                leaves: Map::<u64, Seq<u8>>::empty(),
            }),
    {
        let coms: BTreeMap<u64, Vec<u8>> = BTreeMap::new();
        assert(leaves_of(coms@) =~= Map::<u64, Seq<u8>>::empty());
        ComTree::new(config, tree_height, &coms)
    }
}

/// The number of slots of a tree of height `height`.
fn capacity_of(height: u32) -> (capacity: u64)
    requires
        height <= 63,
    ensures
        capacity == pow2(height as nat),
{
    let mut capacity: u64 = 1;
    let mut level: u32 = 0;
    proof {
        lemma2_to64();
    }
    while level < height
        invariant
            level <= height <= 63,
            capacity == pow2(level as nat),
        decreases height - level,
    {
        proof {
            lemma_pow2_unfold((level + 1) as nat);
            lemma_pow2_strictly_increases((level + 1) as nat, 64);
            lemma2_to64();
        }
        capacity = capacity * 2;
        level += 1;
    }
    capacity
}

/// For each level up to `height`, the value of a node above default leaves
/// only.
fn empty_nodes<H: TwoToOneHash>(hasher: &H, default_leaf: &Vec<u8>, height: u32) -> (empties: Vec<
    Vec<u8>,
>)
    requires
        is_compression(hasher),
    ensures
        empties@.len() == height + 1,
        forall|l: int|
            0 <= l <= height ==> (#[trigger] empties@[l])@ == empty_node(
                hasher,
                default_leaf@,
                l as nat,
            ),
{
    let mut empties: Vec<Vec<u8>> = Vec::new();
    empties.push(default_leaf.clone());
    let mut level: u32 = 0;
    while level < height
        invariant
            level <= height,
            is_compression(hasher),
            empties@.len() == level + 1,
            forall|l: int|
                0 <= l <= level ==> (#[trigger] empties@[l])@ == empty_node(
                    hasher,
                    default_leaf@,
                    l as nat,
                ),
        decreases height - level,
    {
        let above = evaluate(hasher, &empties[level as usize], &empties[level as usize]);
        empties.push(above);
        level += 1;
    }
    empties
}

/// The nodes above the stored nodes of one level: for every stored node its
/// parent, computed once from its two children.
fn level_above<H: TwoToOneHash>(
    hasher: &H,
    below: &BTreeMap<u64, Vec<u8>>,
    empty: &Vec<u8>,
    Ghost(model): Ghost<TreeModel<H>>,
    Ghost(level): Ghost<nat>,
) -> (above: BTreeMap<u64, Vec<u8>>)
    requires
        model.well_formed(),
        *hasher == model.hasher,
        level < model.height,
        empty@ == model.empty_node(level),
        level_holds(below@, empty@, model, level),
    ensures
        level_holds(above@, model.empty_node(level + 1), model, level + 1),
        rests_on(above@, below@),
{
    let mut above: BTreeMap<u64, Vec<u8>> = BTreeMap::new();
    let ghost entries = below.iter().remaining();
    let ghost mut count: int = 0;
    for entry in it: below.iter()
        invariant
            it.seq() == entries,
            count == it.index(),
            model.well_formed(),
            *hasher == model.hasher,
            empty@ == model.empty_node(level),
            level_holds(below@, empty@, model, level),
            forall|p: u64| #[trigger]
                above@.contains_key(p) ==> above@[p]@ == model.node(level + 1, p as int),
            forall|j: int|
                0 <= j < count ==> above@.contains_key((*(#[trigger] entries[j]).0 / 2) as u64),
            forall|j: int| 0 <= j < entries.len() ==> below@.contains_key(*(#[trigger] entries[j]).0),
            rests_on(above@, below@),
    {
        let parent: u64 = *entry.0 / 2;
        assert(below@.contains_key(*entry.0));
        if !above.contains_key(&parent) {
            let left = match below.get(&(2 * parent)) {
                Some(left) => left,
                None => empty,
            };
            let right = match below.get(&(2 * parent + 1)) {
                Some(right) => right,
                None => empty,
            };
            proof {
                model.lemma_node_len(level, 2 * parent);
                model.lemma_node_len(level, 2 * parent + 1);
            }
            let value = evaluate(hasher, left, right);
            above.insert(parent, value);
        }
        proof {
            count = count + 1;
        }
    }
    proof {
        assert(count == entries.len());
        assert forall|j: u64| !(#[trigger] above@.contains_key(j)) implies model.node(
            level + 1,
            j as int,
        ) == model.empty_node(level + 1) by {
            lemma_children_of_missing_parent(model, level, below@, empty@, j, 2 * j);
            lemma_children_of_missing_parent(model, level, below@, empty@, j, 2 * j + 1);
            if 2 * j <= u64::MAX && below@.contains_key((2 * j) as u64) {
                let k = (2 * j) as u64;
                let i = entries.index_of((&k, &below@[k]));
                assert(*entries[i].0 == k);
            }
            if 2 * j + 1 <= u64::MAX && below@.contains_key((2 * j + 1) as u64) {
                let k = (2 * j + 1) as u64;
                let i = entries.index_of((&k, &below@[k]));
                assert(*entries[i].0 == k);
            }
        }
    }
    above
}

/// A child that is not stored has the empty value of its level, whether it
/// lies within the tree or beyond it.
proof fn lemma_children_of_missing_parent<H: TwoToOneHash>(
    model: TreeModel<H>,
    level: nat,
    below: Map<u64, Vec<u8>>,
    empty: Seq<u8>,
    parent: u64,
    child: int,
)
    requires
        model.well_formed(),
        level < model.height,
        empty == model.empty_node(level),
        level_holds(below, empty, model, level),
        child == 2 * parent || child == 2 * parent + 1,
        child <= u64::MAX ==> !below.contains_key(child as u64),
    ensures
        model.node(level, child) == empty,
{
    if child > u64::MAX {
        lemma2_to64_rest();
        lemma2_to64();
        if model.height - level < 64 {
            lemma_pow2_strictly_increases((model.height - level) as nat, 64);
        }
        model.lemma_node_beyond_capacity(level, child);
    }
}

/// The path that stands in for a witness while only the shape of the
/// statement matters: a leaf pair of `leaf` twice, and under a root at
/// height `height` one pair of `node` twice for each level above.
pub open spec fn placeholder_path(height: nat, leaf: Seq<u8>, node: Seq<u8>) -> PathModel {
    PathModel { leaf_pair: (leaf, leaf), inner: Seq::new((height - 1) as nat, |k: int| (node, node)) }
}

/// The membership statement as a prover holds it: a commitment appears in
/// the tree of height `height` whose root is `root`. The height and the
/// hash are fixed by the statement, the commitment and the root are public,
/// the path is the witness.
pub struct TreeMembershipProver<'a, H> {
    pub height: u32,
    pub crh_param: &'a H,
    /// The leaf value.
    pub attrs_com: Vec<u8>,
    /// The tree root's value.
    pub root: Vec<u8>,
    /// The authentication path of the leaf, or `None` where the statement is
    /// set up for key generation and has no witness yet.
    pub auth_path: Option<SparseMerkleTreePath>,
}

impl<'a, H: TwoToOneHash> TreeMembershipProver<'a, H> {
    /// The path that the statement is checked with: the witness, or the
    /// placeholder made of the public values where there is none.
    pub open spec fn witness(self) -> PathModel {
        match self.auth_path {
            Some(path) => path@,
            None => placeholder_path(self.height as nat, self.attrs_com@, self.root@),
        }
    }

    /// Whether the witness satisfies the statement.
    pub open spec fn satisfied(self) -> bool {
        self.witness().verifies(self.crh_param, self.height as nat, self.root@, self.attrs_com@)
    }

    /// Hands out the path to witness, making the placeholder where the
    /// prover has none.
    pub fn witness_path(self) -> (path: SparseMerkleTreePath)
        requires
            self.auth_path is None ==> self.height >= 2,
        ensures
            path@ == self.witness(),
    {
        match self.auth_path {
            Some(path) => path,
            None => make_placeholder(self.height, &self.attrs_com, &self.root),
        }
    }

    /// Checks the statement against the witness, as the constraints of the
    /// membership circuit do.
    pub fn is_satisfied(&self) -> (ok: bool)
        requires
            self.auth_path is None ==> self.height >= 2,
            is_compression(self.crh_param),
        ensures
            ok == self.satisfied(),
    {
        match &self.auth_path {
            Some(path) => path.check_membership(
                self.crh_param,
                self.height,
                &self.root,
                &self.attrs_com,
            ),
            None => {
                let path = make_placeholder(self.height, &self.attrs_com, &self.root);
                path.check_membership(self.crh_param, self.height, &self.root, &self.attrs_com)
            },
        }
    }
}

/// Makes the placeholder path for a tree of height `height`.
pub fn make_placeholder(height: u32, leaf: &Vec<u8>, node: &Vec<u8>) -> (path:
    SparseMerkleTreePath)
    requires
        height >= 2,
    ensures
        path@ == placeholder_path(height as nat, leaf@, node@),
{
    let mut inner_hashes: Vec<(Vec<u8>, Vec<u8>)> = Vec::new();
    let pairs: u32 = height - 1;
    let mut k: u32 = 0;
    while k < pairs
        invariant
            k <= pairs,
            inner_hashes@.len() == k,
            forall|j: int|
                0 <= j < k ==> (#[trigger] inner_hashes@[j]).0@ == node@ && inner_hashes@[j].1@
                    == node@,
        decreases pairs - k,
    {
        inner_hashes.push((node.clone(), node.clone()));
        k += 1;
    }
    let path = SparseMerkleTreePath { leaf_hashes: (leaf.clone(), leaf.clone()), inner_hashes };
    assert(path@.inner =~= placeholder_path(height as nat, leaf@, node@).inner);
    path
}

impl<H: TwoToOneHash> ComTree<H> {
    /// Builds the statement that `attrs_com` is at slot `idx` of this tree,
    /// with the slot's authentication path as its witness.
    pub fn prove_membership<'a>(&'a self, idx: u64, attrs_com: Vec<u8>) -> (res: Result<
        TreeMembershipProver<'a, H>,
        TreeError,
    >)
        requires
            self.wf(),
        ensures
            match res {
                Ok(prover) => {
                    &&& prover.height == self@.height
                    &&& *prover.crh_param == self@.hasher
                    &&& prover.attrs_com@ == attrs_com@
                    &&& prover.root@ == self@.root()
                    &&& prover.auth_path matches Some(path) && self@.authenticate(idx, attrs_com@)
                        == Ok::<PathModel, TreeError>(path@)
                    &&& prover.satisfied()
                },
                Err(e) => self@.authenticate(idx, attrs_com@) == Err::<PathModel, TreeError>(e),
            },
    {
        let root = self.root();
        match self.generate_proof(idx, &attrs_com) {
            Ok(auth_path) => {
                proof {
                    self@.lemma_path_verifies(idx as int);
                }
                Ok(
                    TreeMembershipProver {
                        height: self.height,
                        crh_param: &self.config.hasher,
                        attrs_com,
                        root,
                        auth_path: Some(auth_path),
                    },
                )
            },
            Err(e) => Err(e),
        }
    }
}

/// Sets the membership statement up for key generation: a tree height and a
/// hash, the default leaf for the public commitment, the hash's default
/// output for the public root, and no witness.
pub fn gen_tree_memb_crs<'a, H: TwoToOneHash>(config: &'a ComTreeConfig<H>, height: u32) -> (prover:
    TreeMembershipProver<'a, H>)
    requires
        height >= 2,
    ensures
        prover.height == height,
        *prover.crh_param == config.hasher,
        prover.attrs_com@ == config.default_leaf@,
        call_ensures(H::default_output, (&config.hasher,), prover.root),
        prover.auth_path is None,
        prover.witness() == placeholder_path(height as nat, config.default_leaf@, prover.root@),
{
    TreeMembershipProver {
        height,
        crh_param: &config.hasher,
        attrs_com: config.default_leaf.clone(),
        root: config.hasher.default_output(),
        auth_path: None,
    }
}

/// Verifies a membership proof against a commitment and a root, both given
/// as field elements. The public inputs are the commitment's elements
/// followed by the root's.
pub fn verify_tree_memb(
    vk: &TreeVerifyingKey,
    proof: &TreeProof,
    attrs_com: &Vec<Vec<u8>>,
    merkle_root: &Vec<Vec<u8>>,
) -> (ok: bool)
    ensures
        ok == (groth16_verdict(
            vk.bytes@,
            proof.bytes@,
            attrs_com.deep_view() + merkle_root.deep_view(),
        ) == Some(true)),
{
    let all_inputs = concat_inputs(attrs_com, merkle_root);
    accepted(groth16_verify(&vk.bytes, &proof.bytes, &all_inputs))
}

} // verus!
