//! The mathematical model of a sparse commitment tree.
//!
//! A tree of height `h` has `2^h` leaf slots at level 0 and a single root at
//! level `h`. A slot that was never written holds the default leaf. A node
//! above the leaves is the compression of its two children, the child with
//! the even index on the left.

use vstd::prelude::*;
use vstd::arithmetic::power2::*;
use crate::hash::{compress, digest_len, is_compression, lemma_compress_len, TwoToOneHash};
use crate::path::{holds_child, PathModel};

verus! {

/// Why a tree gives no authentication path.
#[derive(Clone, Copy, Debug, PartialEq, Eq, Structural)]
pub enum TreeError {
    /// The tree has no slot of that index.
    IndexOutOfRange,
    /// The slot does not hold the commitment that the caller expects.
    LeafMismatch,
}

/// What a tree is, as far as its root and its proofs are concerned: the
/// hash, the default leaf, the height, and the slots that were written with
/// what they hold.
pub struct TreeModel<H> {
    pub hasher: H,
    pub default_leaf: Seq<u8>,
    pub height: nat,
    pub leaves: Map<u64, Seq<u8>>,
}

/// The index, `levels` levels up, of the node above slot or node `idx`.
pub open spec fn ancestor(idx: int, levels: nat) -> int
    decreases levels,
{
    if levels == 0 {
        idx
    } else {
        ancestor(idx, (levels - 1) as nat) / 2
    }
}

/// The value of a node of level `level` above no leaf but `default_leaf`.
pub open spec fn empty_node<H: TwoToOneHash>(
    hasher: &H,
    default_leaf: Seq<u8>,
    level: nat,
) -> Seq<u8>
    decreases level,
{
    if level == 0 {
        default_leaf
    } else {
        compress(
            hasher,
            empty_node(hasher, default_leaf, (level - 1) as nat),
            empty_node(hasher, default_leaf, (level - 1) as nat),
        )
    }
}

/// The length of every node of level `level` of a tree whose leaves have
/// `leaf_len` bytes.
pub open spec fn level_len<H: TwoToOneHash>(hasher: &H, leaf_len: nat, level: nat) -> nat
    decreases level,
{
    if level == 0 {
        leaf_len
    } else {
        digest_len(hasher, level_len(hasher, leaf_len, (level - 1) as nat))
    }
}

impl<H: TwoToOneHash> TreeModel<H> {
    /// Number of leaf slots.
    pub open spec fn capacity(self) -> nat {
        pow2(self.height)
    }

    /// Number of bytes in every leaf.
    pub open spec fn leaf_len(self) -> nat {
        self.default_leaf.len()
    }

    /// What holds of every tree that the library builds: the height is in
    /// range, the hash is a function, and every written slot exists and
    /// holds a leaf as long as the default leaf.
    pub open spec fn well_formed(self) -> bool {
        &&& 2 <= self.height <= 63
        &&& is_compression(&self.hasher)
        &&& forall|k: u64| #[trigger]
            self.leaves.contains_key(k) ==> k < self.capacity() && self.leaves[k].len()
                == self.leaf_len()
    }

    /// The content of leaf slot `idx`.
    pub open spec fn leaf(self, idx: int) -> Seq<u8> {
        if 0 <= idx <= u64::MAX && self.leaves.contains_key(idx as u64) {
            self.leaves[idx as u64]
        } else {
            self.default_leaf
        }
    }

    /// The value of node `idx` of level `level`, level 0 being the leaves.
    pub open spec fn node(self, level: nat, idx: int) -> Seq<u8>
        decreases level,
    {
        if level == 0 {
            self.leaf(idx)
        } else {
            compress(
                &self.hasher,
                self.node((level - 1) as nat, 2 * idx),
                self.node((level - 1) as nat, 2 * idx + 1),
            )
        }
    }

    /// The value of a node of level `level` above default leaves only.
    pub open spec fn empty_node(self, level: nat) -> Seq<u8> {
        empty_node(&self.hasher, self.default_leaf, level)
    }

    /// The root: the one node of the top level.
    pub open spec fn root(self) -> Seq<u8> {
        self.node(self.height, 0)
    }

    /// The tree with `com` written to slot `idx`.
    pub open spec fn insert(self, idx: u64, com: Seq<u8>) -> Self {
        TreeModel {
            hasher: self.hasher,
            default_leaf: self.default_leaf,
            height: self.height,
            leaves: self.leaves.insert(idx, com),
        }
    }

    /// The tree with slot `idx` back at the default leaf.
    pub open spec fn remove(self, idx: u64) -> Self {
        TreeModel {
            hasher: self.hasher,
            default_leaf: self.default_leaf,
            height: self.height,
            leaves: self.leaves.remove(idx),
        }
    }

    /// The two children of node `parent` of level `level + 1`, left first.
    pub open spec fn children(self, level: nat, parent: int) -> (Seq<u8>, Seq<u8>) {
        (self.node(level, 2 * parent), self.node(level, 2 * parent + 1))
    }

    /// The authentication path of slot `idx`: for every level below the
    /// root, the two children of the node above the slot.
    pub open spec fn path(self, idx: int) -> PathModel {
        PathModel {
            leaf_pair: self.children(0, ancestor(idx, 1)),
            inner: Seq::new(
                (self.height - 1) as nat,
                |k: int| self.children((k + 1) as nat, ancestor(idx, (k + 2) as nat)),
            ),
        }
    }

    /// What a request for the path of slot `idx` gets, from a caller who
    /// expects the slot to hold `expected`: the path where the slot exists
    /// and holds just that, else the reason why not.
    pub open spec fn authenticate(self, idx: u64, expected: Seq<u8>) -> Result<PathModel, TreeError> {
        if idx >= self.capacity() {
            Err(TreeError::IndexOutOfRange)
        } else if self.leaf(idx as int) != expected {
            Err(TreeError::LeafMismatch)
        } else {
            Ok(self.path(idx as int))
        }
    }

    /// Two trees that differ in slot `changed` at most agree on every node
    /// that is not above that slot.
    pub proof fn lemma_node_frame(self, other: Self, changed: int, level: nat, idx: int)
        requires
            self.hasher == other.hasher,
            self.default_leaf == other.default_leaf,
            forall|i: int| i != changed ==> self.leaf(i) == other.leaf(i),
            idx != ancestor(changed, level),
        ensures
            self.node(level, idx) == other.node(level, idx),
        decreases level,
    {
        if level > 0 {
            let below = (level - 1) as nat;
            self.lemma_node_frame(other, changed, below, 2 * idx);
            self.lemma_node_frame(other, changed, below, 2 * idx + 1);
        }
    }

    /// All nodes of one level of a well-formed tree have one length.
    pub proof fn lemma_node_len(self, level: nat, idx: int)
        requires
            self.well_formed(),
        ensures
            self.node(level, idx).len() == level_len(&self.hasher, self.leaf_len(), level),
        decreases level,
    {
        if level > 0 {
            let below = (level - 1) as nat;
            self.lemma_node_len(below, 2 * idx);
            self.lemma_node_len(below, 2 * idx + 1);
            lemma_compress_len(
                &self.hasher,
                self.node(below, 2 * idx),
                self.node(below, 2 * idx + 1),
            );
        }
    }

    /// A node beyond the last node of its level has the empty value of the
    /// level: no written slot lies under it.
    pub proof fn lemma_node_beyond_capacity(self, level: nat, idx: int)
        requires
            self.well_formed(),
            level <= self.height,
            idx >= pow2((self.height - level) as nat),
        ensures
            self.node(level, idx) == self.empty_node(level),
        decreases level,
    {
        if level > 0 {
            let below = (level - 1) as nat;
            lemma_pow2_unfold((self.height - below) as nat);
            self.lemma_node_beyond_capacity(below, 2 * idx);
            self.lemma_node_beyond_capacity(below, 2 * idx + 1);
        } else {
            lemma_pow2_pos(self.height);
        }
    }

    /// Climbing the path of a slot passes through the nodes above it.
    pub proof fn lemma_path_climbs(self, idx: int, steps: nat)
        requires
            self.well_formed(),
            steps < self.height,
        ensures
            self.path(idx).climb(&self.hasher, steps) == Some(
                self.node(steps + 1, ancestor(idx, steps + 1)),
            ),
        decreases steps,
    {
        let path = self.path(idx);
        let above = ancestor(idx, steps + 1);
        self.lemma_node_len(steps, 2 * above);
        self.lemma_node_len(steps, 2 * above + 1);
        if steps == 0 {
            assert(ancestor(idx, 0) == idx);
        } else {
            self.lemma_path_climbs(idx, (steps - 1) as nat);
            let below = ancestor(idx, steps);
            assert(above == below / 2);
            assert(path.inner[steps - 1] == self.children(steps, above));
            assert(below == 2 * above || below == 2 * above + 1);
            assert(holds_child(path.inner[steps - 1], self.node(steps, below)));
        }
    }

    /// The path of a slot shows its content under the root, for the tree's
    /// own height and for no other.
    pub proof fn lemma_path_verifies(self, idx: int)
        requires
            self.well_formed(),
            0 <= idx < self.capacity(),
        ensures
            self.path(idx).verifies(&self.hasher, self.height, self.root(), self.leaf(idx)),
    {
        let path = self.path(idx);
        let top = (self.height - 1) as nat;
        self.lemma_path_climbs(idx, top);
        lemma_ancestor_in_range(idx, self.height, self.height);
        lemma2_to64();
        assert(ancestor(idx, 1) == ancestor(idx, 0) / 2);
        assert(idx == 2 * ancestor(idx, 1) || idx == 2 * ancestor(idx, 1) + 1);
        self.lemma_node_len(0, 2 * ancestor(idx, 1));
        self.lemma_node_len(0, 2 * ancestor(idx, 1) + 1);
    }
}

/// The ancestor of a slot `levels` levels up lies within that level.
pub proof fn lemma_ancestor_in_range(idx: int, height: nat, levels: nat)
    requires
        0 <= idx < pow2(height),
        levels <= height,
    ensures
        0 <= ancestor(idx, levels) < pow2((height - levels) as nat),
    decreases levels,
{
    if levels > 0 {
        lemma_ancestor_in_range(idx, height, (levels - 1) as nat);
        lemma_pow2_unfold((height - levels + 1) as nat);
    }
}

} // verus!
