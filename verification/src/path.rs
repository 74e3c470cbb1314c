//! Authentication paths: the sibling data that recomputes a root from one
//! leaf, and the check that a path does so.

use vstd::prelude::*;
use crate::bytes::bytes_eq;
use crate::hash::{compress, evaluate, is_compression, TwoToOneHash};

verus! {

/// A path as a mathematical value: the pair of leaf slots that holds the
/// leaf, then one pair of sibling nodes per level, from the level above the
/// leaves up to the two children of the root.
pub struct PathModel {
    pub leaf_pair: (Seq<u8>, Seq<u8>),
    pub inner: Seq<(Seq<u8>, Seq<u8>)>,
}

/// Whether `pair` can be the two children of a node above `below`: the two
/// are of one length, and one of them is `below`.
pub open spec fn holds_child(pair: (Seq<u8>, Seq<u8>), below: Seq<u8>) -> bool {
    pair.0.len() == pair.1.len() && (below == pair.0 || below == pair.1)
}

impl PathModel {
    /// The pair that the path gives for level `level`: the leaf pair for the
    /// leaves, and the inner pairs above.
    pub open spec fn pair_at(self, level: nat) -> (Seq<u8>, Seq<u8>) {
        if level == 0 {
            self.leaf_pair
        } else {
            self.inner[level - 1]
        }
    }

    /// The node reached from the leaf pair after `steps` inner pairs, or
    /// `None` where the leaf pair is not two blocks of one length or one of
    /// these inner pairs does not hold the node reached below it.
    pub open spec fn climb<H: TwoToOneHash>(self, hasher: &H, steps: nat) -> Option<Seq<u8>>
        decreases steps,
    {
        if steps == 0 {
            if self.leaf_pair.0.len() == self.leaf_pair.1.len() {
                Some(compress(hasher, self.leaf_pair.0, self.leaf_pair.1))
            } else {
                None
            }
        } else {
            match self.climb(hasher, (steps - 1) as nat) {
                Some(below) => {
                    let pair = self.inner[steps - 1];
                    if holds_child(pair, below) {
                        Some(compress(hasher, pair.0, pair.1))
                    } else {
                        None
                    }
                },
                None => None,
            }
        }
    }

    /// Whether the path shows that `leaf` is in a tree of height `height`
    /// with root `root`: it has one pair per level, the leaf pair holds
    /// `leaf`, every pair holds the parent of the pair below, and the parent
    /// of the last pair is `root`.
    pub open spec fn verifies<H: TwoToOneHash>(
        self,
        hasher: &H,
        height: nat,
        root: Seq<u8>,
        leaf: Seq<u8>,
    ) -> bool {
        &&& self.inner.len() + 1 == height
        &&& holds_child(self.leaf_pair, leaf)
        &&& self.climb(hasher, self.inner.len()) == Some(root)
    }

    /// Once a pair has failed to hold the node below it, the climb has failed
    /// for good.
    pub proof fn lemma_climb_stays_broken<H: TwoToOneHash>(
        self,
        hasher: &H,
        broken: nat,
        steps: nat,
    )
        requires
            self.climb(hasher, broken) is None,
            broken <= steps,
        ensures
            self.climb(hasher, steps) is None,
        decreases steps,
    {
        if steps > broken {
            self.lemma_climb_stays_broken(hasher, broken, (steps - 1) as nat);
        }
    }
}

/// A path as the library hands it out.
pub struct SparseMerkleTreePath {
    /// The two leaf slots under the lowest node of the path, left first.
    pub leaf_hashes: (Vec<u8>, Vec<u8>),
    /// For each level above, the two children of the next node of the path.
    pub inner_hashes: Vec<(Vec<u8>, Vec<u8>)>,
}

impl View for SparseMerkleTreePath {
    type V = PathModel;

    open spec fn view(&self) -> PathModel {
        PathModel {
            leaf_pair: (self.leaf_hashes.0@, self.leaf_hashes.1@),
            inner: Seq::new(
                self.inner_hashes@.len(),
                |k: int| (self.inner_hashes@[k].0@, self.inner_hashes@[k].1@),
            ),
        }
    }
}

/// Whether `pair` can be the two children of a node above `below`.
fn pair_holds(pair: &(Vec<u8>, Vec<u8>), below: &Vec<u8>) -> (ok: bool)
    ensures
        ok == holds_child((pair.0@, pair.1@), below@),
{
    pair.0.len() == pair.1.len() && (bytes_eq(below, &pair.0) || bytes_eq(below, &pair.1))
}

impl SparseMerkleTreePath {
    /// Recomputes the path from the bottom and says whether it leads from
    /// `leaf` to `root` in a tree of height `height`. Any path may be given:
    /// one of the wrong shape is refused, never an error.
    pub fn check_membership<H: TwoToOneHash>(
        &self,
        hasher: &H,
        height: u32,
        root: &Vec<u8>,
        leaf: &Vec<u8>,
    ) -> (ok: bool)
        requires
            is_compression(hasher),
        ensures
            ok == self@.verifies(hasher, height as nat, root@, leaf@),
    {
        let n: usize = self.inner_hashes.len();
        if height == 0 || n != (height - 1) as usize {
            return false;
        }
        if !pair_holds(&self.leaf_hashes, leaf) {
            return false;
        }
        let mut reached: Vec<u8> = evaluate(hasher, &self.leaf_hashes.0, &self.leaf_hashes.1);
        let mut k: usize = 0;
        while k < n
            invariant
                n == self.inner_hashes@.len(),
                k <= n,
                is_compression(hasher),
                self@.climb(hasher, k as nat) == Some(reached@),
            decreases n - k,
        {
            let pair = &self.inner_hashes[k];
            assert(self@.inner[k as int] == (pair.0@, pair.1@));
            if !pair_holds(pair, &reached) {
                proof {
                    assert(self@.climb(hasher, (k + 1) as nat) is None);
                    self@.lemma_climb_stays_broken(hasher, (k + 1) as nat, n as nat);
                }
                return false;
            }
            reached = evaluate(hasher, &pair.0, &pair.1);
            k += 1;
        }
        bytes_eq(&reached, root)
    }
}

} // verus!
