//! The Merkle tree over the signatures of all proofs.
//!
//! The root of a sequence of leaves is found level by level: neighbours are
//! combined in pairs, and a node without a neighbour moves up unchanged. The
//! tree grows one leaf at a time and keeps, for every level, the nodes whose
//! pair is complete; the root and the inclusion proofs are computed from
//! those in a number of steps logarithmic in the number of leaves.

use vstd::prelude::*;
use crate::hash;
use crate::hash::spec_combine;
use crate::verification::VerificationError;

verus! {

/// One step of an inclusion proof: the neighbour to combine with, and the
/// side on which it stands.
#[derive(Clone, Copy, Debug, PartialEq, Eq, Structural)]
pub struct ProofStep {
    pub sibling: hash::Hash,
    pub sibling_on_left: bool,
}

/// The proof that a leaf stands at `leaf_index`: the neighbours met on the
/// way from the leaf to the root, lowest level first. Levels on which the
/// node has no neighbour add no step.
#[derive(Clone, Debug, PartialEq, Eq)]
pub struct InclusionProof {
    pub leaf_index: u64,
    pub path: Vec<ProofStep>,
}

/// The level above `nodes`: neighbours combined in pairs, a last node
/// without neighbour moved up unchanged.
pub open spec fn next_level(nodes: Seq<hash::Hash>) -> Seq<hash::Hash> {
    Seq::new(
        ((nodes.len() + 1) / 2) as nat,
        |i: int|
            if 2 * i + 1 < nodes.len() {
                spec_combine(nodes[2 * i], nodes[2 * i + 1])
            } else {
                nodes[2 * i]
            },
    )
}

/// The Merkle root of `leaves`: the zero hash for no leaf, the leaf itself
/// for one, else the root of the level above.
pub open spec fn merkle_root(leaves: Seq<hash::Hash>) -> hash::Hash
    decreases leaves.len(),
{
    if leaves.len() == 0 {
        hash::Hash::spec_zero()
    } else if leaves.len() == 1 {
        leaves[0]
    } else {
        merkle_root(next_level(leaves))
    }
}

/// The nodes `k` levels above `leaves`.
pub open spec fn level_nodes(leaves: Seq<hash::Hash>, k: nat) -> Seq<hash::Hash>
    decreases k,
{
    if k == 0 {
        leaves
    } else {
        next_level(level_nodes(leaves, (k - 1) as nat))
    }
}

/// The node that a step reaches from `node`.
pub open spec fn apply_step(node: hash::Hash, step: ProofStep) -> hash::Hash {
    if step.sibling_on_left {
        spec_combine(step.sibling, node)
    } else {
        spec_combine(node, step.sibling)
    }
}

/// The node reached from `node` by the steps of `path`, in order.
pub open spec fn fold_path(node: hash::Hash, path: Seq<ProofStep>) -> hash::Hash
    decreases path.len(),
{
    if path.len() == 0 {
        node
    } else {
        apply_step(fold_path(node, path.drop_last()), path.last())
    }
}

/// Position of the neighbour of the node at `index`.
pub open spec fn sibling_index(index: int) -> int {
    if index % 2 == 0 {
        index + 1
    } else {
        index - 1
    }
}

/// The step that the node at `index` of `nodes` takes to the level above:
/// none if it has no neighbour.
pub open spec fn level_step(nodes: Seq<hash::Hash>, index: int) -> Seq<ProofStep> {
    if sibling_index(index) < nodes.len() {
        seq![ProofStep { sibling: nodes[sibling_index(index)], sibling_on_left: index % 2 == 1 }]
    } else {
        Seq::empty()
    }
}

/// The inclusion path of the leaf at `index` of `leaves`.
pub open spec fn merkle_path(leaves: Seq<hash::Hash>, index: int) -> Seq<ProofStep>
    decreases leaves.len(),
{
    if leaves.len() <= 1 {
        Seq::empty()
    } else {
        level_step(leaves, index) + merkle_path(next_level(leaves), index / 2)
    }
}

/// Whether `upper` holds exactly the complete pairs of `lower`, combined.
pub open spec fn pairs_up(lower: Seq<hash::Hash>, upper: Seq<hash::Hash>) -> bool {
    &&& upper.len() == lower.len() / 2
    &&& forall|i: int|
        0 <= i < upper.len() ==> #[trigger] upper[i] == spec_combine(lower[2 * i], lower[2 * i + 1])
}

/// The nodes of a level: those kept, and after them the node carried up
/// from below, if there is one.
pub open spec fn with_carry(kept: Seq<hash::Hash>, carry: Option<hash::Hash>) -> Seq<hash::Hash> {
    match carry {
        Some(c) => kept.push(c),
        None => kept,
    }
}

/// The node carried to the level above a level that keeps `kept` and got
/// `carry` from below.
pub open spec fn next_carry(kept: Seq<hash::Hash>, carry: Option<hash::Hash>) -> Option<hash::Hash> {
    if kept.len() % 2 == 0 {
        carry
    } else {
        match carry {
            Some(c) => Some(spec_combine(kept.last(), c)),
            None => Some(kept.last()),
        }
    }
}

/// The level above a level of at most one node is that level.
pub proof fn lemma_next_level_of_short(nodes: Seq<hash::Hash>)
    requires
        nodes.len() <= 1,
    ensures
        next_level(nodes) == nodes,
{
    assert(next_level(nodes) =~= nodes);
}

/// The root of the level above is the root.
pub proof fn lemma_root_of_next_level(nodes: Seq<hash::Hash>)
    ensures
        merkle_root(next_level(nodes)) == merkle_root(nodes),
{
    if nodes.len() <= 1 {
        lemma_next_level_of_short(nodes);
    }
}

/// The root of any level above the leaves is the root.
pub proof fn lemma_root_of_level(leaves: Seq<hash::Hash>, k: nat)
    ensures
        merkle_root(level_nodes(leaves, k)) == merkle_root(leaves),
    decreases k,
{
    if k > 0 {
        lemma_root_of_level(leaves, (k - 1) as nat);
        lemma_root_of_next_level(level_nodes(leaves, (k - 1) as nat));
    }
}

/// Following `first` and then `second` is following both at once.
pub proof fn lemma_fold_path_concat(node: hash::Hash, first: Seq<ProofStep>, second: Seq<ProofStep>)
    ensures
        fold_path(node, first + second) == fold_path(fold_path(node, first), second),
    decreases second.len(),
{
    if second.len() == 0 {
        assert(first + second =~= first);
    } else {
        lemma_fold_path_concat(node, first, second.drop_last());
        assert((first + second).drop_last() =~= first + second.drop_last());
    }
}

/// The step of a node leads to its parent on the level above.
pub proof fn lemma_level_step_reaches_parent(nodes: Seq<hash::Hash>, index: int)
    requires
        0 <= index < nodes.len(),
    ensures
        index / 2 < next_level(nodes).len(),
        fold_path(nodes[index], level_step(nodes, index)) == next_level(nodes)[index / 2],
{
    let step = level_step(nodes, index);
    if step.len() > 0 {
        assert(step.drop_last() =~= Seq::<ProofStep>::empty());
        assert(fold_path(nodes[index], step.drop_last()) == nodes[index]);
        assert(fold_path(nodes[index], step) == apply_step(nodes[index], step.last()));
    }
}

/// The inclusion path of a leaf leads from the leaf to the root.
pub proof fn law_path_reaches_root(leaves: Seq<hash::Hash>, index: int)
    requires
        0 <= index < leaves.len(),
    ensures
        fold_path(leaves[index], merkle_path(leaves, index)) == merkle_root(leaves),
    decreases leaves.len(),
{
    if leaves.len() > 1 {
        let above = next_level(leaves);
        lemma_level_step_reaches_parent(leaves, index);
        law_path_reaches_root(above, index / 2);
        lemma_fold_path_concat(
            leaves[index],
            level_step(leaves, index),
            merkle_path(above, index / 2),
        );
    }
}

/// The level above the nodes of a level is what the level above keeps,
/// followed by what is carried up.
pub proof fn lemma_carry_step(lower: Seq<hash::Hash>, upper: Seq<hash::Hash>, carry: Option<hash::Hash>)
    requires
        pairs_up(lower, upper),
    ensures
        next_level(with_carry(lower, carry)) == with_carry(upper, next_carry(lower, carry)),
{
    let full = with_carry(lower, carry);
    let above = with_carry(upper, next_carry(lower, carry));
    assert(next_level(full).len() == above.len());
    assert forall|i: int| 0 <= i < above.len() implies next_level(full)[i] == above[i] by {
        if i < upper.len() {
            assert(upper[i] == spec_combine(lower[2 * i], lower[2 * i + 1]));
        }
    }
    assert(next_level(full) =~= above);
}

/// An incremental Merkle tree.
pub struct MerkleTree {
    levels: Vec<Vec<hash::Hash>>,
}

impl MerkleTree {
    /// The nodes kept on level `k`; none beyond the top.
    pub closed spec fn stored(self, k: int) -> Seq<hash::Hash> {
        if 0 <= k < self.levels@.len() {
            self.levels@[k]@
        } else {
            Seq::empty()
        }
    }

    /// Number of levels that keep nodes.
    pub closed spec fn height(self) -> nat {
        self.levels@.len()
    }

    /// The leaves, in insertion order.
    pub open spec fn leaves(self) -> Seq<hash::Hash> {
        self.stored(0)
    }

    /// Whether level `k + 1` keeps exactly the complete pairs of level `k`.
    pub open spec fn level_ok(self, k: int) -> bool {
        pairs_up(self.stored(k), self.stored(k + 1))
    }

    /// Whether level `k + 1` keeps the complete pairs of level `k` but for
    /// its newest node, which is still to be paired.
    pub open spec fn level_pending(self, k: int) -> bool {
        &&& self.stored(k).len() >= 1
        &&& pairs_up(self.stored(k).drop_last(), self.stored(k + 1))
    }

    /// The invariant of a tree: there is a level of leaves, and every level
    /// above keeps exactly the complete pairs of the level below.
    pub open spec fn wf(self) -> bool {
        &&& self.height() >= 1
        &&& forall|k: int| 0 <= k < self.height() ==> #[trigger] self.level_ok(k)
    }

    /// The root of the tree.
    pub open spec fn spec_root(self) -> hash::Hash {
        merkle_root(self.leaves())
    }

    /// A tree without leaves.
    pub fn new() -> (tree: MerkleTree)
        ensures
            tree.wf(),
            tree.leaves() == Seq::<hash::Hash>::empty(),
    {
        let mut levels: Vec<Vec<hash::Hash>> = Vec::new();
        levels.push(Vec::new());
        let tree = MerkleTree { levels };
        assert(tree.level_ok(0));
        tree
    }

    /// The tree whose leaves are `leaves`, in order.
    pub fn from_leaves(leaves: &[hash::Hash]) -> (tree: MerkleTree)
        ensures
            tree.wf(),
            tree.leaves() == leaves@,
    {
        let mut tree = MerkleTree::new();
        let n = leaves.len();
        let mut i: usize = 0;
        while i < n
            invariant
                i <= n,
                n == leaves@.len(),
                tree.wf(),
                tree.leaves() == leaves@.take(i as int),
            decreases n - i,
        {
            tree.insert(leaves[i]);
            assert(leaves@.take(i + 1) =~= leaves@.take(i as int).push(leaves@[i as int]));
            i += 1;
        }
        assert(leaves@.take(n as int) =~= leaves@);
        tree
    }

    /// Adds `leaf` after the leaves already there, and completes every pair
    /// that it closes on the way up.
    pub fn insert(&mut self, leaf: hash::Hash)
        requires
            old(self).wf(),
        ensures
            final(self).wf(),
            final(self).leaves() == old(self).leaves().push(leaf),
    {
        let ghost target = self.leaves().push(leaf);
        let ghost before = *self;
        self.levels[0].push(leaf);
        proof {
            assert(self.stored(0).drop_last() =~= before.stored(0));
            assert(before.level_ok(0));
            assert forall|j: int| 0 <= j < self.height() && j != 0 implies #[trigger] self.level_ok(
                j,
            ) by {
                assert(before.level_ok(j));
                assert(self.stored(j) == before.stored(j));
                assert(self.stored(j + 1) == before.stored(j + 1));
            }
        }
        let mut k: usize = 0;
        let mut done = false;
        while !done
            invariant
                self.height() >= 1,
                self.leaves() == target,
                done ==> self.wf(),
                !done ==> k < self.height(),
                !done ==> self.level_pending(k as int),
                !done ==> forall|j: int|
                    0 <= j < self.height() && j != k ==> #[trigger] self.level_ok(j),
            decreases
                    if done {
                        0
                    } else {
                        self.height() - k
                    },
        {
            let ghost at_start = *self;
            let n = self.levels[k].len();
            assert(n == self.stored(k as int).len());
            assert(n >= 1);
            if n % 2 == 1 {
                proof {
                    assert(self.level_ok(k as int));
                }
                done = true;
            } else {
                let node = hash::combine(&self.levels[k][n - 2], &self.levels[k][n - 1]);
                let height = self.levels.len();
                assert(k < height);
                if k + 1 == height {
                    let mut top: Vec<hash::Hash> = Vec::new();
                    top.push(node);
                    self.levels.push(top);
                    proof {
                        assert(at_start.stored(k + 1) =~= Seq::<hash::Hash>::empty());
                        assert(n == 2);
                        assert(self.stored(k as int) == at_start.stored(k as int));
                        assert(self.level_ok(k as int));
                        assert(self.stored(k + 2) =~= Seq::<hash::Hash>::empty());
                        assert(self.level_ok(k + 1));
                        assert forall|j: int| 0 <= j < self.height() implies #[trigger] self.level_ok(
                            j,
                        ) by {
                            if j < k {
                                assert(at_start.level_ok(j));
                                assert(self.stored(j) == at_start.stored(j));
                                assert(self.stored(j + 1) == at_start.stored(j + 1));
                            }
                        }
                    }
                    done = true;
                } else {
                    self.levels[k + 1].push(node);
                    proof {
                        assert(self.stored(k as int) == at_start.stored(k as int));
                        assert(self.stored(k + 1) == at_start.stored(k + 1).push(node));
                        assert(self.stored(k + 1).drop_last() =~= at_start.stored(k + 1));
                        assert(self.stored(k + 2) == at_start.stored(k + 2));
                        assert(at_start.level_ok(k + 1));
                        assert(self.level_ok(k as int));
                        assert(self.level_pending(k + 1));
                        assert forall|j: int|
                            0 <= j < self.height() && j != k + 1 implies #[trigger] self.level_ok(
                            j,
                        ) by {
                            if j != k {
                                assert(at_start.level_ok(j));
                                assert(self.stored(j) == at_start.stored(j));
                                assert(self.stored(j + 1) == at_start.stored(j + 1));
                            }
                        }
                    }
                    k += 1;
                }
            }
        }
    }

    /// Number of leaves.
    pub fn leaf_count(&self) -> (n: u64)
        requires
            self.wf(),
        ensures
            n == self.leaves().len(),
    {
        self.levels[0].len() as u64
    }

    /// The leaf at `index`, if there is one.
    pub fn leaf(&self, index: u64) -> (leaf: Option<hash::Hash>)
        requires
            self.wf(),
        ensures
            leaf == if index < self.leaves().len() {
                Some(self.leaves()[index as int])
            } else {
                None
            },
    {
        if index < self.levels[0].len() as u64 {
            Some(self.levels[0][index as usize])
        } else {
            None
        }
    }

    /// The root of the tree: the zero hash for an empty tree, the leaf
    /// itself for a single leaf.
    pub fn root(&self) -> (root: hash::Hash)
        requires
            self.wf(),
        ensures
            root == merkle_root(self.leaves()),
            root == self.spec_root(),
    {
        let height = self.levels.len();
        let mut carry: Option<hash::Hash> = None;
        let mut k: usize = 0;
        while k < height
            invariant
                self.wf(),
                height == self.height(),
                k <= height,
                level_nodes(self.leaves(), k as nat) == with_carry(self.stored(k as int), carry),
            decreases height - k,
        {
            proof {
                assert(self.level_ok(k as int));
                lemma_carry_step(self.stored(k as int), self.stored(k + 1), carry);
            }
            carry = self.carry_above(k, carry);
            k += 1;
        }
        proof {
            lemma_root_of_level(self.leaves(), height as nat);
            assert(self.stored(height as int) =~= Seq::<hash::Hash>::empty());
        }
        match carry {
            Some(c) => c,
            None => hash::Hash::zero(),
        }
    }

    /// What level `k` carries up, given what it got from below.
    fn carry_above(&self, k: usize, carry: Option<hash::Hash>) -> (above: Option<hash::Hash>)
        requires
            k < self.height(),
        ensures
            above == next_carry(self.stored(k as int), carry),
    {
        let n = self.levels[k].len();
        if n % 2 == 1 {
            let last = self.levels[k][n - 1];
            match carry {
                Some(c) => Some(hash::combine(&last, &c)),
                None => Some(last),
            }
        } else {
            carry
        }
    }

    /// The step that the node at `pos` of level `k` takes upward, given what
    /// the level got from below.
    fn step_at(&self, k: usize, pos: usize, carry: Option<hash::Hash>) -> (step: Option<ProofStep>)
        requires
            k < self.height(),
            pos < with_carry(self.stored(k as int), carry).len(),
        ensures
            match step {
                Some(s) => level_step(with_carry(self.stored(k as int), carry), pos as int) == seq![s],
                None => level_step(with_carry(self.stored(k as int), carry), pos as int)
                    == Seq::<ProofStep>::empty(),
            },
    {
        let n = self.levels[k].len();
        if pos % 2 == 1 {
            Some(ProofStep { sibling: self.levels[k][pos - 1], sibling_on_left: true })
        } else if pos < n {
            if pos + 1 < n {
                Some(ProofStep { sibling: self.levels[k][pos + 1], sibling_on_left: false })
            } else {
                match carry {
                    Some(c) => Some(ProofStep { sibling: c, sibling_on_left: false }),
                    None => None,
                }
            }
        } else {
            None
        }
    }

    /// The inclusion proof of the leaf at `index`; there is none for an
    /// index at or beyond the number of leaves.
    pub fn prove(&self, index: u64) -> (result: Result<InclusionProof, VerificationError>)
        requires
            self.wf(),
        ensures
            result is Ok <==> index < self.leaves().len(),
            result matches Ok(proof) ==> proof.leaf_index == index && proof.path@ == merkle_path(
                self.leaves(),
                index as int,
            ),
            result matches Err(e) ==> e == VerificationError::NotFound,
    {
        if index >= self.levels[0].len() as u64 {
            return Err(VerificationError::NotFound);
        }
        let height = self.levels.len();
        let mut path: Vec<ProofStep> = Vec::new();
        let mut pos: usize = index as usize;
        let mut carry: Option<hash::Hash> = None;
        let mut k: usize = 0;
        while k < height
            invariant
                self.wf(),
                height == self.height(),
                k <= height,
                level_nodes(self.leaves(), k as nat) == with_carry(self.stored(k as int), carry),
                pos < level_nodes(self.leaves(), k as nat).len(),
                path@ + merkle_path(level_nodes(self.leaves(), k as nat), pos as int) == merkle_path(
                    self.leaves(),
                    index as int,
                ),
            decreases height - k,
        {
            let ghost nodes = level_nodes(self.leaves(), k as nat);
            let ghost so_far = path@;
            proof {
                assert(self.level_ok(k as int));
                lemma_carry_step(self.stored(k as int), self.stored(k + 1), carry);
                lemma_level_step_reaches_parent(nodes, pos as int);
            }
            match self.step_at(k, pos, carry) {
                Some(step) => {
                    path.push(step);
                },
                None => {},
            }
            proof {
                assert(path@ =~= so_far + level_step(nodes, pos as int));
                if nodes.len() <= 1 {
                    lemma_next_level_of_short(nodes);
                    assert(level_step(nodes, pos as int) =~= Seq::<ProofStep>::empty());
                    assert(path@ + merkle_path(next_level(nodes), pos as int / 2) =~= so_far
                        + merkle_path(nodes, pos as int));
                } else {
                    assert(path@ + merkle_path(next_level(nodes), pos as int / 2) =~= so_far
                        + merkle_path(nodes, pos as int));
                }
            }
            carry = self.carry_above(k, carry);
            pos = pos / 2;
            k += 1;
        }
        proof {
            assert(self.stored(height as int) =~= Seq::<hash::Hash>::empty());
            assert(path@ + Seq::<ProofStep>::empty() =~= path@);
        }
        Ok(InclusionProof { leaf_index: index, path })
    }

    /// Checks an inclusion proof: whether it is a proof for `index` and its
    /// steps lead from `leaf` to `root`.
    pub fn verify(leaf: &hash::Hash, index: u64, proof: &InclusionProof, root: &hash::Hash) -> (ok: bool)
        ensures
            ok == (proof.leaf_index == index && fold_path(*leaf, proof.path@) == *root),
    {
        if proof.leaf_index != index {
            return false;
        }
        let n = proof.path.len();
        let mut node = *leaf;
        let mut i: usize = 0;
        while i < n
            invariant
                i <= n,
                n == proof.path@.len(),
                node == fold_path(*leaf, proof.path@.take(i as int)),
            decreases n - i,
        {
            let step = proof.path[i];
            proof {
                assert(proof.path@.take(i + 1).drop_last() =~= proof.path@.take(i as int));
            }
            node = if step.sibling_on_left {
                hash::combine(&step.sibling, &node)
            } else {
                hash::combine(&node, &step.sibling)
            };
            i += 1;
        }
        assert(proof.path@.take(n as int) =~= proof.path@);
        node == *root
    }
}

/// Computes the Merkle root of `leaves`.
pub fn compute_root(leaves: &[hash::Hash]) -> (root: hash::Hash)
    ensures
        root == merkle_root(leaves@),
{
    MerkleTree::from_leaves(leaves).root()
}

} // verus!
