use vekos::hash;
use vekos::merkle_tree::{compute_root, InclusionProof, MerkleTree, ProofStep};
use vekos::verification::VerificationError;

fn leaf(n: u32) -> hash::Hash {
    hash::hash(&n.to_le_bytes())
}

fn leaves(n: u32) -> Vec<hash::Hash> {
    (0..n).map(leaf).collect()
}

#[test]
fn empty_tree_root_is_zero() {
    let tree = MerkleTree::new();
    assert_eq!(tree.root(), hash::Hash::zero());
    assert_eq!(tree.leaf_count(), 0);
    assert_eq!(compute_root(&[]), hash::Hash::zero());
}

#[test]
fn single_leaf_root_is_leaf() {
    let mut tree = MerkleTree::new();
    tree.insert(leaf(7));
    assert_eq!(tree.root(), leaf(7));
    assert_eq!(tree.leaf(0), Some(leaf(7)));
    assert_eq!(tree.leaf(1), None);
}

#[test]
fn two_leaf_root_is_their_combination() {
    let tree = MerkleTree::from_leaves(&[leaf(1), leaf(2)]);
    assert_eq!(tree.root(), hash::combine(&leaf(1), &leaf(2)));
}

#[test]
fn odd_leaf_is_promoted_unchanged() {
    let tree = MerkleTree::from_leaves(&[leaf(1), leaf(2), leaf(3)]);
    let left = hash::combine(&leaf(1), &leaf(2));
    assert_eq!(tree.root(), hash::combine(&left, &leaf(3)));
}

#[test]
fn five_leaf_root() {
    let l = leaves(5);
    let tree = MerkleTree::from_leaves(&l);
    let ab = hash::combine(&l[0], &l[1]);
    let cd = hash::combine(&l[2], &l[3]);
    let abcd = hash::combine(&ab, &cd);
    assert_eq!(tree.root(), hash::combine(&abcd, &l[4]));
}

#[test]
fn six_leaf_root() {
    let l = leaves(6);
    let ab = hash::combine(&l[0], &l[1]);
    let cd = hash::combine(&l[2], &l[3]);
    let ef = hash::combine(&l[4], &l[5]);
    let abcd = hash::combine(&ab, &cd);
    assert_eq!(compute_root(&l), hash::combine(&abcd, &ef));
}

#[test]
fn root_is_idempotent_and_incremental() {
    let l = leaves(33);
    let mut tree = MerkleTree::new();
    for (i, x) in l.iter().enumerate() {
        tree.insert(*x);
        assert_eq!(tree.root(), tree.root());
        assert_eq!(tree.root(), compute_root(&l[..i + 1]));
        assert_eq!(tree.leaf_count(), i as u64 + 1);
    }
}

#[test]
fn every_inclusion_proof_verifies() {
    for n in 1..40u32 {
        let l = leaves(n);
        let tree = MerkleTree::from_leaves(&l);
        let root = tree.root();
        for i in 0..n {
            let proof = tree.prove(i as u64).unwrap();
            assert_eq!(proof.leaf_index, i as u64);
            assert!(MerkleTree::verify(&l[i as usize], i as u64, &proof, &root));
        }
    }
}

#[test]
fn inclusion_proof_of_three_leaves_skips_missing_sibling() {
    let l = leaves(3);
    let tree = MerkleTree::from_leaves(&l);
    let last = tree.prove(2).unwrap();
    assert_eq!(
        last.path,
        vec![ProofStep { sibling: hash::combine(&l[0], &l[1]), sibling_on_left: true }]
    );
    let first = tree.prove(0).unwrap();
    assert_eq!(
        first.path,
        vec![
            ProofStep { sibling: l[1], sibling_on_left: false },
            ProofStep { sibling: l[2], sibling_on_left: false },
        ]
    );
}

#[test]
fn inclusion_proof_out_of_range_is_not_found() {
    let tree = MerkleTree::from_leaves(&leaves(4));
    assert_eq!(tree.prove(4), Err(VerificationError::NotFound));
    assert_eq!(MerkleTree::new().prove(0), Err(VerificationError::NotFound));
}

#[test]
fn verify_rejects_wrong_leaf_index_or_root() {
    let l = leaves(8);
    let tree = MerkleTree::from_leaves(&l);
    let root = tree.root();
    let proof = tree.prove(3).unwrap();
    assert!(MerkleTree::verify(&l[3], 3, &proof, &root));
    assert!(!MerkleTree::verify(&l[4], 3, &proof, &root));
    assert!(!MerkleTree::verify(&l[3], 2, &proof, &root));
    assert!(!MerkleTree::verify(&l[3], 3, &proof, &l[0]));
    let empty = InclusionProof { leaf_index: 3, path: Vec::new() };
    assert!(!MerkleTree::verify(&l[3], 3, &empty, &root));
    assert!(MerkleTree::verify(&l[3], 3, &empty, &l[3]));
}
