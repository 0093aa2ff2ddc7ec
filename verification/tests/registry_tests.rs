use vekos::boot_verification::BootVerifier;
use vekos::deferred::DeferredRing;
use vekos::hash;
use vekos::hash_chain::replay_from;
use vekos::merkle_tree::{compute_root, MerkleTree};
use vekos::operation_proofs::{
    create_boot_proof, create_fs_proof, create_memory_proof, create_process_proof, BootStage,
    FilesystemOp, MemoryOp, OperationKind, OperationProof, PendingOperation, ProcessOp, Subsystem,
};
use vekos::proof_storage::Superblock;
use vekos::verification::{StorageError, VerificationError, VerificationRegistry};

const BIG: usize = 1 << 20;

const STAGES: [BootStage; 7] = [
    BootStage::GDTLoaded,
    BootStage::IDTLoaded,
    BootStage::MemoryInitialized,
    BootStage::HeapInitialized,
    BootStage::SchedulerReady,
    BootStage::FilesystemReady,
    BootStage::Complete,
];

fn schedule(pid: u64, timestamp: u64) -> PendingOperation {
    PendingOperation {
        kind: OperationKind::Process {
            op: ProcessOp::Schedule,
            pid,
            image_hash: hash::hash(&pid.to_le_bytes()),
        },
        timestamp,
    }
}

fn mixed(i: u64) -> PendingOperation {
    let kind = match i % 4 {
        0 => OperationKind::Memory {
            op: MemoryOp::Alloc,
            addr: 0x1000 * i,
            size: 4096,
            frame_hash: hash::hash(&i.to_le_bytes()),
        },
        1 => OperationKind::Filesystem {
            op: FilesystemOp::Write,
            path_hash: hash::hash(b"/a"),
            content_hash_before: hash::hash(&(i - 1).to_le_bytes()),
            content_hash_after: hash::hash(&i.to_le_bytes()),
        },
        2 => OperationKind::Process { op: ProcessOp::Spawn, pid: i, image_hash: hash::hash(b"img") },
        _ => OperationKind::Memory {
            op: MemoryOp::Free,
            addr: 0x1000 * i,
            size: 4096,
            frame_hash: hash::hash(&i.to_le_bytes()),
        },
    };
    PendingOperation { kind, timestamp: 1000 + i }
}

fn registry_with(n: u64) -> (VerificationRegistry, Vec<OperationProof>) {
    let mut registry = VerificationRegistry::new(1024, BIG);
    let mut proofs = Vec::new();
    for i in 0..n {
        proofs.push(registry.submit(mixed(i)).unwrap());
    }
    (registry, proofs)
}

fn signatures(proofs: &[OperationProof]) -> Vec<hash::Hash> {
    proofs.iter().map(|p| p.signature).collect()
}

#[test]
fn fresh_registry() {
    let registry = VerificationRegistry::new(1024, BIG);
    assert_eq!(registry.next_op_id(), 1);
    assert_eq!(registry.proof_count(), 0);
    assert_eq!(registry.root(), hash::Hash::zero());
    for s in [Subsystem::Boot, Subsystem::Memory, Subsystem::Filesystem, Subsystem::Process] {
        assert_eq!(registry.latest_state(s), hash::Hash::zero());
        assert_eq!(registry.chain_tip(s), hash::Hash::zero());
    }
    assert_eq!(registry.get_proof(1), None);
    assert_eq!(registry.inclusion_proof(1), Err(VerificationError::NotFound));
    assert_eq!(registry.replay(), Ok(()));
    assert_eq!(registry.storage().len(), 128);
}

#[test]
fn scenario_clean_boot() {
    let mut registry = VerificationRegistry::new(1024, BIG);
    let mut driver = BootVerifier::new();
    driver.start_boot(0);
    let mut emitted = Vec::new();
    for (i, stage) in STAGES.iter().enumerate() {
        let proof = driver.verify_stage(*stage, 100 * (i as u64 + 1), registry.next_op_id()).unwrap();
        assert_eq!(registry.register_proof(proof), Ok(()));
        emitted.push(proof);
    }
    assert_eq!(emitted.len(), 7);
    assert_eq!(registry.next_op_id(), 8);
    assert_eq!(registry.replay(), Ok(()));
    assert_eq!(registry.root(), MerkleTree::from_leaves(&signatures(&emitted)).root());
    assert_eq!(registry.latest_state(Subsystem::Boot), driver.chain_tip());
    assert_eq!(registry.latest_state(Subsystem::Boot), emitted[6].new_state);
}

#[test]
fn scenario_interleaved_memory_and_filesystem() {
    let mut registry = VerificationRegistry::new(1024, BIG);
    let zero = hash::Hash::zero();
    let h3 = hash::hash(b"h3");
    let h4 = hash::hash(b"h4");
    let a1 = create_memory_proof(1, registry.latest_state(Subsystem::Memory), 1, MemoryOp::Alloc, 0x1000, 4096, b"h1");
    assert_eq!(registry.register_proof(a1), Ok(()));
    let a2 = create_memory_proof(2, registry.latest_state(Subsystem::Memory), 2, MemoryOp::Alloc, 0x2000, 4096, b"h2");
    assert_eq!(a2.prev_state, a1.new_state);
    assert_eq!(registry.register_proof(a2), Ok(()));
    let c = create_fs_proof(3, registry.latest_state(Subsystem::Filesystem), 3, FilesystemOp::Create, b"/a", zero, h3);
    assert_eq!(c.prev_state, zero);
    assert_eq!(registry.register_proof(c), Ok(()));
    let w = create_fs_proof(4, registry.latest_state(Subsystem::Filesystem), 4, FilesystemOp::Write, b"/a", h3, h4);
    assert_eq!(w.prev_state, c.new_state);
    assert_eq!(registry.register_proof(w), Ok(()));
    let f = create_memory_proof(5, registry.latest_state(Subsystem::Memory), 5, MemoryOp::Free, 0x1000, 4096, b"h1");
    assert_eq!(f.prev_state, a2.new_state);
    assert_eq!(registry.register_proof(f), Ok(()));
    assert_eq!(registry.latest_state(Subsystem::Filesystem), w.new_state);
    assert_eq!(registry.latest_state(Subsystem::Memory), f.new_state);
    assert_eq!(registry.latest_state(Subsystem::Process), zero);
    assert_eq!(registry.next_op_id(), 6);
    assert_eq!(registry.replay(), Ok(()));
}

#[test]
fn scenario_tamper_detection() {
    let (registry, _) = registry_with(5);
    let image = registry.storage().image().clone();
    assert_eq!(registry.replay_image(&image), Ok(()));
    let third = 128 + (162 + 8) + (210 + 8);
    let mut tampered = image.clone();
    tampered[third + 8 + 20] ^= 0x04;
    assert_eq!(
        registry.replay_image(&tampered),
        Err(VerificationError::ChainBroken { at_op_id: 3 })
    );
}

#[test]
fn any_changed_record_byte_breaks_replay() {
    let (registry, _) = registry_with(4);
    let image = registry.storage().image().clone();
    let starts = [128usize, 298, 516, 678, 848];
    assert_eq!(image.len(), 848);
    for q in 128..image.len() {
        let mut tampered = image.clone();
        tampered[q] = tampered[q].wrapping_add(1);
        let record = starts.iter().position(|s| q < *s).unwrap() as u64;
        assert_eq!(
            registry.replay_image(&tampered),
            Err(VerificationError::ChainBroken { at_op_id: record })
        );
    }
}

#[test]
fn scenario_ordering_violation() {
    let (mut registry, _) = registry_with(3);
    let root = registry.root();
    let image = registry.storage().image().clone();
    let prev = registry.latest_state(Subsystem::Process);
    let four = create_process_proof(4, prev, 1, ProcessOp::Exit, 2, b"img");
    let five = create_process_proof(5, four.new_state, 2, ProcessOp::Spawn, 9, b"img");
    assert_eq!(registry.register_proof(five), Err(VerificationError::OutOfOrder));
    assert_eq!(registry.next_op_id(), 4);
    assert_eq!(registry.root(), root);
    assert_eq!(registry.storage().image(), &image);
    assert_eq!(registry.latest_state(Subsystem::Process), prev);
    assert_eq!(registry.register_proof(four), Ok(()));
    assert_eq!(registry.register_proof(five), Ok(()));
    assert_eq!(registry.next_op_id(), 6);
    assert_eq!(registry.register_proof(five), Err(VerificationError::OutOfOrder));
}

#[test]
fn scenario_deferred_path_overflow() {
    let mut ring = DeferredRing::new(4096);
    let mut last = Ok(());
    for i in 0..10_000u64 {
        last = ring.submit_deferred(schedule(i, i));
        if i < 4096 {
            assert_eq!(last, Ok(()));
        }
    }
    assert_eq!(
        last,
        Err(VerificationError::RingOverflow { subsystem: Subsystem::Process, dropped: 5904 })
    );
    assert_eq!(ring.dropped(Subsystem::Process), 5904);
    assert_eq!(ring.dropped(Subsystem::Memory), 0);
    assert_eq!(ring.len(), 4096);
    let mut registry = VerificationRegistry::new(64, BIG);
    assert_eq!(ring.drain(&mut registry), 4096);
    assert_eq!(ring.len(), 0);
    assert_eq!(registry.next_op_id(), 4097);
    for id in 1..=4096u64 {
        let proof = registry.get_proof(id).unwrap();
        assert_eq!(proof.op_id, id);
        assert_eq!(proof.kind, schedule(id - 1, id - 1).kind);
    }
    assert_eq!(registry.get_proof(4097), None);
}

#[test]
fn scenario_checkpoint_and_truncated_tail() {
    let mut registry = VerificationRegistry::new(1024, BIG);
    let mut accepted = Vec::new();
    for i in 0..1000u64 {
        accepted.push(registry.submit(schedule(i, i)).unwrap());
        if i + 1 == 800 {
            registry.checkpoint();
        }
    }
    let sb = registry.storage().superblock();
    assert_eq!(sb.op_watermark, 800);
    assert_eq!(sb.checkpoint, compute_root(&signatures(&accepted[..800])));
    let mut image = registry.storage().image().clone();
    assert_eq!(image.len(), 128 + 1000 * 162);
    image[128 + 949 * 162] ^= 0xff;
    let recovered = VerificationRegistry::recover(&image, 1024, BIG).unwrap();
    assert_eq!(recovered.next_op_id(), 950);
    assert_eq!(recovered.root(), compute_root(&signatures(&accepted[..949])));
    for id in 1..=949u64 {
        assert_eq!(recovered.get_proof(id), Some(accepted[id as usize - 1]));
    }
    assert_eq!(recovered.get_proof(950), None);
    assert_eq!(recovered.storage().len(), 128 + 949 * 162);
    assert_eq!(recovered.storage().superblock().op_watermark, 800);
    assert_eq!(recovered.storage().superblock().checkpoint, sb.checkpoint);
    assert_eq!(recovered.replay(), Ok(()));
    assert_eq!(
        recovered.latest_state(Subsystem::Process),
        accepted[948].new_state
    );
}

#[test]
fn root_equals_fresh_tree_over_signatures() {
    for n in [0u64, 1, 2, 3, 7, 8, 21] {
        let (registry, proofs) = registry_with(n);
        let fresh = MerkleTree::from_leaves(&signatures(&proofs));
        assert_eq!(registry.root(), fresh.root());
    }
}

#[test]
fn every_accepted_proof_has_a_verifying_inclusion_proof() {
    let (registry, proofs) = registry_with(19);
    let root = registry.root();
    for p in &proofs {
        let inclusion = registry.inclusion_proof(p.op_id).unwrap();
        assert_eq!(inclusion.leaf_index, p.op_id - 1);
        assert!(VerificationRegistry::verify(&inclusion, &p.signature, &root));
        assert!(!VerificationRegistry::verify(&inclusion, &p.new_state, &root));
    }
    assert_eq!(registry.inclusion_proof(0), Err(VerificationError::NotFound));
    assert_eq!(registry.inclusion_proof(20), Err(VerificationError::NotFound));
}

#[test]
fn chain_tips_replay_from_zero() {
    let (registry, proofs) = registry_with(30);
    for s in [Subsystem::Boot, Subsystem::Memory, Subsystem::Filesystem, Subsystem::Process] {
        let own: Vec<hash::Hash> =
            proofs.iter().filter(|p| p.subsystem() == s).map(|p| p.signature).collect();
        assert_eq!(replay_from(hash::Hash::zero(), &own), registry.chain_tip(s));
    }
}

#[test]
fn wrong_prev_state_is_a_state_mismatch_and_changes_nothing() {
    let (mut registry, _) = registry_with(6);
    let root = registry.root();
    let image = registry.storage().image().clone();
    let tip = registry.chain_tip(Subsystem::Memory);
    let latest = registry.latest_state(Subsystem::Memory);
    let wrong = create_memory_proof(7, hash::hash(b"not the tip"), 1, MemoryOp::MapPage, 1, 2, b"f");
    assert_eq!(registry.register_proof(wrong), Err(VerificationError::StateMismatch));
    assert_eq!(registry.next_op_id(), 7);
    assert_eq!(registry.root(), root);
    assert_eq!(registry.storage().image(), &image);
    assert_eq!(registry.chain_tip(Subsystem::Memory), tip);
    assert_eq!(registry.latest_state(Subsystem::Memory), latest);
    let right = create_memory_proof(7, latest, 1, MemoryOp::MapPage, 1, 2, b"f");
    assert_eq!(registry.register_proof(right), Ok(()));
}

#[test]
fn first_proof_of_a_subsystem_may_start_anywhere() {
    let mut registry = VerificationRegistry::new(16, BIG);
    let first = create_boot_proof(1, hash::hash(b"handoff"), 1, BootStage::GDTLoaded);
    assert_eq!(registry.register_proof(first), Ok(()));
    let second = create_boot_proof(2, hash::hash(b"handoff"), 2, BootStage::IDTLoaded);
    assert_eq!(registry.register_proof(second), Err(VerificationError::StateMismatch));
}

#[test]
fn invalid_signature_is_checked_first() {
    let (mut registry, _) = registry_with(2);
    let mut forged = create_process_proof(9, hash::hash(b"x"), 1, ProcessOp::Spawn, 1, b"i");
    forged.timestamp = 2;
    assert_eq!(registry.register_proof(forged), Err(VerificationError::InvalidSignature));
    let gap = create_process_proof(9, hash::hash(b"x"), 1, ProcessOp::Spawn, 1, b"i");
    assert_eq!(registry.register_proof(gap), Err(VerificationError::OutOfOrder));
    assert_eq!(registry.next_op_id(), 3);
}

#[test]
fn full_storage_fails_and_changes_nothing() {
    let mut registry = VerificationRegistry::new(16, 128 + 162 + 161);
    assert!(registry.submit(schedule(1, 1)).is_ok());
    let root = registry.root();
    let image = registry.storage().image().clone();
    assert_eq!(
        registry.submit(schedule(2, 2)),
        Err(VerificationError::StorageFailed { io: StorageError::Full })
    );
    let p = create_process_proof(2, registry.latest_state(Subsystem::Process), 1, ProcessOp::Exit, 1, b"i");
    assert_eq!(
        registry.register_proof(p),
        Err(VerificationError::StorageFailed { io: StorageError::Full })
    );
    assert_eq!(registry.next_op_id(), 2);
    assert_eq!(registry.root(), root);
    assert_eq!(registry.storage().image(), &image);
    assert_eq!(registry.replay(), Ok(()));
}

#[test]
fn submit_assigns_dense_increasing_op_ids() {
    let mut registry = VerificationRegistry::new(8, BIG);
    for i in 0..50u64 {
        let proof = registry.submit(mixed(i)).unwrap();
        assert_eq!(proof.op_id, i + 1);
        assert!(proof.verify_signature());
        assert_eq!(registry.get_proof(i + 1), Some(proof));
        assert_eq!(registry.latest_state(proof.subsystem()), proof.new_state);
    }
    assert_eq!(registry.proof_count(), 50);
}

#[test]
fn replay_detects_log_of_another_history() {
    let (registry, _) = registry_with(6);
    let (shorter, _) = registry_with(5);
    assert_eq!(
        registry.replay_image(shorter.storage().image()),
        Err(VerificationError::MerkleMismatch)
    );
    let mut other = VerificationRegistry::new(16, BIG);
    for i in 0..6u64 {
        other.submit(schedule(i, i)).unwrap();
    }
    assert_eq!(
        registry.replay_image(other.storage().image()),
        Err(VerificationError::MerkleMismatch)
    );
}

#[test]
fn replay_rejects_unreadable_superblock() {
    let (registry, _) = registry_with(2);
    let bad = Err(VerificationError::StorageFailed { io: StorageError::BadSuperblock });
    let mut image = registry.storage().image().clone();
    image[3] ^= 1;
    assert_eq!(registry.replay_image(&image), bad);
    assert_eq!(registry.replay_image(&[]), bad);
    let mut truncated = registry.storage().image().clone();
    truncated.pop();
    assert_eq!(registry.replay_image(&truncated), bad);
    let other_version = Superblock { version: 2, head_offset: 128, checkpoint: hash::Hash::zero(), op_watermark: 0 };
    assert_eq!(registry.replay_image(&other_version.encode()), bad);
}

#[test]
fn replay_stops_at_proof_that_does_not_follow() {
    let (registry, _) = registry_with(3);
    let mut log = vekos::proof_storage::ProofStorage::new(BIG);
    let a = create_process_proof(1, hash::Hash::zero(), 1, ProcessOp::Spawn, 1, b"i");
    let b = create_process_proof(3, a.new_state, 1, ProcessOp::Exit, 1, b"i");
    log.append(&a.serialize()).unwrap();
    log.append(&b.serialize()).unwrap();
    assert_eq!(
        registry.replay_image(log.image()),
        Err(VerificationError::ChainBroken { at_op_id: 2 })
    );
    let mut junk = vekos::proof_storage::ProofStorage::new(BIG);
    junk.append(b"not a proof").unwrap();
    assert_eq!(
        registry.replay_image(junk.image()),
        Err(VerificationError::ChainBroken { at_op_id: 1 })
    );
}

#[test]
fn recover_rebuilds_the_registry() {
    let (mut registry, proofs) = registry_with(12);
    registry.checkpoint();
    let image = registry.storage().image().clone();
    let recovered = VerificationRegistry::recover(&image, 4, BIG).unwrap();
    assert_eq!(recovered.next_op_id(), 13);
    assert_eq!(recovered.root(), registry.root());
    assert_eq!(recovered.storage().image(), &image);
    for s in [Subsystem::Boot, Subsystem::Memory, Subsystem::Filesystem, Subsystem::Process] {
        assert_eq!(recovered.latest_state(s), registry.latest_state(s));
        assert_eq!(recovered.chain_tip(s), registry.chain_tip(s));
    }
    assert_eq!(recovered.get_proof(12), Some(proofs[11]));
}

#[test]
fn recover_errors() {
    let (mut registry, _) = registry_with(10);
    registry.checkpoint();
    let image = registry.storage().image().clone();
    assert!(matches!(
        VerificationRegistry::recover(&image[..100], 4, BIG),
        Err(VerificationError::StorageFailed { io: StorageError::BadSuperblock })
    ));
    assert!(matches!(
        VerificationRegistry::recover(&image, 4, image.len() - 1),
        Err(VerificationError::StorageFailed { io: StorageError::Full })
    ));
    let mut cut = image.clone();
    cut[128 + 4] ^= 1;
    assert!(matches!(
        VerificationRegistry::recover(&cut, 4, BIG),
        Err(VerificationError::MerkleMismatch)
    ));
    let shorter = &image[..image.len() - 10];
    assert!(matches!(
        VerificationRegistry::recover(shorter, 4, BIG),
        Err(VerificationError::MerkleMismatch)
    ));
}

#[test]
fn recover_of_shortened_image_keeps_whole_records() {
    let (registry, proofs) = registry_with(10);
    let image = registry.storage().image().clone();
    let shorter = &image[..image.len() - 10];
    let recovered = VerificationRegistry::recover(shorter, 4, BIG).unwrap();
    assert_eq!(recovered.next_op_id(), 10);
    assert_eq!(recovered.root(), compute_root(&signatures(&proofs[..9])));
}

#[test]
fn checkpoint_records_root_and_watermark() {
    let (mut registry, _) = registry_with(5);
    let root = registry.root();
    registry.checkpoint();
    let sb = registry.storage().superblock();
    assert_eq!(sb.checkpoint, root);
    assert_eq!(sb.op_watermark, 5);
    assert_eq!(registry.next_op_id(), 6);
    assert_eq!(registry.root(), root);
    assert_eq!(registry.replay(), Ok(()));
}

#[test]
fn drain_stops_when_storage_is_full() {
    let mut ring = DeferredRing::new(8);
    for i in 0..5u64 {
        assert_eq!(ring.submit_deferred(schedule(i, i)), Ok(()));
    }
    let mut registry = VerificationRegistry::new(8, 128 + 3 * 162);
    assert_eq!(ring.drain(&mut registry), 3);
    assert_eq!(ring.len(), 2);
    assert_eq!(registry.next_op_id(), 4);
    assert_eq!(ring.drain(&mut registry), 0);
    assert_eq!(ring.capacity(), 8);
}

#[test]
fn ring_counts_drops_by_subsystem() {
    let mut ring = DeferredRing::new(1);
    assert_eq!(ring.submit_deferred(mixed(0)), Ok(()));
    assert_eq!(
        ring.submit_deferred(mixed(1)),
        Err(VerificationError::RingOverflow { subsystem: Subsystem::Filesystem, dropped: 1 })
    );
    assert_eq!(
        ring.submit_deferred(mixed(4)),
        Err(VerificationError::RingOverflow { subsystem: Subsystem::Memory, dropped: 1 })
    );
    assert_eq!(
        ring.submit_deferred(mixed(5)),
        Err(VerificationError::RingOverflow { subsystem: Subsystem::Filesystem, dropped: 2 })
    );
    assert_eq!(ring.dropped(Subsystem::Filesystem), 2);
    assert_eq!(ring.dropped(Subsystem::Memory), 1);
    assert_eq!(ring.dropped(Subsystem::Boot), 0);
    assert_eq!(ring.len(), 1);
}

#[test]
fn chain_entries_hold_op_id_signature_and_link() {
    let (registry, proofs) = registry_with(24);
    for s in [Subsystem::Boot, Subsystem::Memory, Subsystem::Filesystem, Subsystem::Process] {
        let own: Vec<&OperationProof> = proofs.iter().filter(|p| p.subsystem() == s).collect();
        let entries = registry.chain(s).entries();
        assert_eq!(entries.len(), own.len());
        let mut link = hash::Hash::zero();
        for (entry, proof) in entries.iter().zip(own.iter()) {
            link = hash::combine(&link, &proof.signature);
            assert_eq!(entry.op_id, proof.op_id);
            assert_eq!(entry.proof_hash, proof.signature);
            assert_eq!(entry.link_hash, link);
        }
        assert_eq!(registry.chain(s).last_link(), link);
        assert_eq!(registry.chain(s).verify(0, entries.len()), Ok(()));
    }
}

#[test]
fn chain_keeps_only_the_last_entries_of_its_subsystem() {
    let mut registry = VerificationRegistry::new(3, BIG);
    let mut proofs = Vec::new();
    for i in 0..10u64 {
        proofs.push(registry.submit(schedule(i, i)).unwrap());
    }
    let entries = registry.chain(Subsystem::Process).entries();
    assert_eq!(entries.len(), 3);
    assert_eq!(entries[0].op_id, 8);
    assert_eq!(entries[2].op_id, 10);
    assert_eq!(entries[2].proof_hash, proofs[9].signature);
    assert_eq!(registry.chain(Subsystem::Memory).len(), 0);
}

#[test]
fn advance_moves_driver_and_registry_together() {
    let mut registry = VerificationRegistry::new(16, BIG);
    let mut driver = BootVerifier::new();
    driver.start_boot(0);
    for (i, stage) in STAGES.iter().enumerate() {
        let proof = vekos::boot_verification::advance(&mut driver, &mut registry, *stage, 10 * i as u64).unwrap();
        assert_eq!(proof.op_id, i as u64 + 1);
        assert_eq!(registry.get_proof(proof.op_id), Some(proof));
        assert_eq!(driver.current_stage(), *stage);
        assert_eq!(driver.chain_tip(), registry.latest_state(Subsystem::Boot));
    }
    assert_eq!(registry.next_op_id(), 8);
    assert_eq!(
        vekos::boot_verification::advance(&mut driver, &mut registry, BootStage::Complete, 99),
        Err(VerificationError::OutOfOrder)
    );
    assert_eq!(registry.next_op_id(), 8);
}

#[test]
fn advance_that_fails_leaves_driver_and_registry() {
    let mut registry = VerificationRegistry::new(16, 128 + 122 + 121);
    let mut driver = BootVerifier::new();
    assert_eq!(
        vekos::boot_verification::advance(&mut driver, &mut registry, BootStage::IDTLoaded, 1),
        Err(VerificationError::OutOfOrder)
    );
    assert!(vekos::boot_verification::advance(&mut driver, &mut registry, BootStage::GDTLoaded, 1).is_ok());
    let tip = driver.chain_tip();
    let image = registry.storage().image().clone();
    assert_eq!(
        vekos::boot_verification::advance(&mut driver, &mut registry, BootStage::IDTLoaded, 2),
        Err(VerificationError::StorageFailed { io: StorageError::Full })
    );
    assert_eq!(driver.current_stage(), BootStage::GDTLoaded);
    assert_eq!(driver.chain_tip(), tip);
    assert_eq!(registry.next_op_id(), 2);
    assert_eq!(registry.storage().image(), &image);

    let mut other = VerificationRegistry::new(16, BIG);
    other.register_proof(create_boot_proof(1, hash::hash(b"elsewhere"), 1, BootStage::GDTLoaded)).unwrap();
    let mut fresh = BootVerifier::new();
    assert_eq!(
        vekos::boot_verification::advance(&mut fresh, &mut other, BootStage::GDTLoaded, 2),
        Err(VerificationError::StateMismatch)
    );
    assert_eq!(fresh.current_stage(), BootStage::Start);
    assert_eq!(other.next_op_id(), 2);
}

#[test]
fn deferred_ring_never_exceeds_its_capacity() {
    let mut ring = DeferredRing::new(5);
    for i in 0..20u64 {
        let _ = ring.submit_deferred(schedule(i, i));
        assert!(ring.len() <= ring.capacity());
    }
    assert_eq!(ring.len(), 5);
    assert_eq!(ring.dropped(Subsystem::Process), 15);
}
