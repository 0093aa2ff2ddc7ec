use vekos::hash;
use vekos::hash_chain::{replay_from, verify_entries, ChainEntry, HashChain, DEFAULT_CHAIN_CAPACITY};
use vekos::verification::VerificationError;

fn leaf(n: u8) -> hash::Hash {
    hash::hash(&[n])
}

#[test]
fn empty_chain_starts_at_zero() {
    let chain = HashChain::new(DEFAULT_CHAIN_CAPACITY);
    assert_eq!(chain.last_link(), hash::Hash::zero());
    assert_eq!(chain.anchor(), hash::Hash::zero());
    assert_eq!(chain.len(), 0);
    assert_eq!(chain.capacity(), 1024);
    assert_eq!(chain.entry(0), None);
}

#[test]
fn append_combines_last_link_with_proof_hash() {
    let mut chain = HashChain::new(8);
    let first = chain.append(1, leaf(1));
    assert_eq!(first, hash::combine(&hash::Hash::zero(), &leaf(1)));
    let second = chain.append(2, leaf(2));
    assert_eq!(second, hash::combine(&first, &leaf(2)));
    assert_eq!(chain.last_link(), second);
    assert_eq!(
        chain.entry(1),
        Some(ChainEntry { op_id: 2, proof_hash: leaf(2), link_hash: second })
    );
}

#[test]
fn replay_from_zero_reaches_last_link() {
    let mut chain = HashChain::new(4);
    let mut hashes = Vec::new();
    for i in 0..10u8 {
        hashes.push(leaf(i));
        chain.append(i as u64 + 1, leaf(i));
    }
    assert_eq!(replay_from(hash::Hash::zero(), &hashes), chain.last_link());
    assert_eq!(replay_from(leaf(9), &[]), leaf(9));
}

#[test]
fn full_tail_evicts_oldest_entry() {
    let mut chain = HashChain::new(3);
    let mut links = Vec::new();
    for i in 0..5u8 {
        links.push(chain.append(i as u64 + 1, leaf(i)));
    }
    assert_eq!(chain.len(), 3);
    assert_eq!(chain.anchor(), links[1]);
    let kept = chain.entries();
    assert_eq!(kept.len(), 3);
    assert_eq!(kept[0].op_id, 3);
    assert_eq!(kept[2].op_id, 5);
    assert_eq!(chain.last_link(), links[4]);
    assert_eq!(chain.verify(0, 3), Ok(()));
    assert_eq!(chain.verify(1, 3), Ok(()));
}

#[test]
fn chain_of_no_capacity_keeps_only_the_link() {
    let mut chain = HashChain::new(0);
    let link = chain.append(1, leaf(1));
    assert_eq!(chain.len(), 0);
    assert_eq!(chain.anchor(), link);
    assert_eq!(chain.last_link(), link);
}

#[test]
fn verify_rejects_range_outside_tail() {
    let mut chain = HashChain::new(4);
    chain.append(1, leaf(1));
    assert_eq!(chain.verify(0, 2), Err(VerificationError::NotFound));
    assert_eq!(chain.verify(1, 0), Err(VerificationError::NotFound));
    assert_eq!(chain.verify(1, 1), Ok(()));
}

#[test]
fn verify_entries_reports_first_broken_link() {
    let mut chain = HashChain::new(16);
    for i in 0..6u8 {
        chain.append(10 + i as u64, leaf(i));
    }
    let mut entries = chain.entries();
    assert_eq!(verify_entries(hash::Hash::zero(), &entries), Ok(()));
    entries[3].proof_hash = leaf(99);
    assert_eq!(
        verify_entries(hash::Hash::zero(), &entries),
        Err(VerificationError::ChainBroken { at_op_id: 13 })
    );
    entries[1].link_hash = leaf(98);
    assert_eq!(
        verify_entries(hash::Hash::zero(), &entries),
        Err(VerificationError::ChainBroken { at_op_id: 11 })
    );
}

#[test]
fn verify_entries_depends_on_anchor() {
    let mut chain = HashChain::new(16);
    chain.append(1, leaf(1));
    let entries = chain.entries();
    assert_eq!(
        verify_entries(leaf(7), &entries),
        Err(VerificationError::ChainBroken { at_op_id: 1 })
    );
}
