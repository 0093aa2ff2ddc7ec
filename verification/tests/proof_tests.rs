use vekos::hash;
use vekos::operation_proofs::{
    create_boot_proof, create_fs_proof, create_memory_proof, create_process_proof, next_state,
    BootStage, FilesystemOp, MemoryOp, OperationKind, OperationProof, PendingOperation, ProcessOp,
    Subsystem,
};

fn sample_proofs() -> Vec<OperationProof> {
    let z = hash::Hash::zero();
    vec![
        create_memory_proof(1, z, 100, MemoryOp::Alloc, 0x1000, 4096, b"frame"),
        create_fs_proof(2, z, 200, FilesystemOp::Write, b"/a", hash::hash(b"x"), hash::hash(b"y")),
        create_boot_proof(3, z, 300, BootStage::GDTLoaded),
        create_process_proof(4, z, 400, ProcessOp::Spawn, 7, b"image"),
    ]
}

#[test]
fn created_proofs_carry_their_signature() {
    for p in sample_proofs() {
        assert!(p.verify_signature());
        assert_eq!(p.signature, p.compute_signature());
    }
}

#[test]
fn changed_field_invalidates_signature() {
    for p in sample_proofs() {
        let mut q = p;
        q.op_id += 1;
        assert!(!q.verify_signature());
        let mut q = p;
        q.timestamp ^= 1;
        assert!(!q.verify_signature());
        let mut q = p;
        q.new_state = hash::hash(b"elsewhere");
        assert!(!q.verify_signature());
        let mut q = p;
        q.prev_state = hash::hash(b"elsewhere");
        assert!(!q.verify_signature());
    }
}

#[test]
fn signature_covers_tag_id_evidence_states_and_timestamp() {
    let prev = hash::hash(b"prev");
    let p = create_boot_proof(9, prev, 0x0102030405060708, BootStage::IDTLoaded);
    let mut signed = vec![0u8];
    signed.extend_from_slice(&9u64.to_le_bytes());
    signed.push(2);
    signed.extend_from_slice(&prev.bytes());
    signed.extend_from_slice(&p.new_state.bytes());
    signed.extend_from_slice(&0x0102030405060708u64.to_le_bytes());
    assert_eq!(p.signature, hash::hash(&signed));
}

#[test]
fn boot_state_is_hash_of_stage_tag_and_cycle_count() {
    let p = create_boot_proof(1, hash::Hash::zero(), 77, BootStage::Complete);
    let mut bytes = vec![7u8];
    bytes.extend_from_slice(&77u64.to_le_bytes());
    assert_eq!(p.new_state, hash::hash(&bytes));
    assert_eq!(p.kind, OperationKind::Boot { stage: BootStage::Complete });
    assert_eq!(p.subsystem(), Subsystem::Boot);
}

#[test]
fn memory_proof_fields_and_new_state() {
    let prev = hash::hash(b"state");
    let p = create_memory_proof(5, prev, 11, MemoryOp::Free, 0x2000, 8192, b"bytes of frame");
    let kind = OperationKind::Memory {
        op: MemoryOp::Free,
        addr: 0x2000,
        size: 8192,
        frame_hash: hash::hash(b"bytes of frame"),
    };
    assert_eq!(p.kind, kind);
    assert_eq!(p.op_id, 5);
    assert_eq!(p.prev_state, prev);
    assert_eq!(p.timestamp, 11);
    let mut evidence = vec![1u8];
    evidence.extend_from_slice(&0x2000u64.to_le_bytes());
    evidence.extend_from_slice(&8192u64.to_le_bytes());
    evidence.extend_from_slice(&hash::hash(b"bytes of frame").bytes());
    assert_eq!(p.new_state, hash::combine(&prev, &hash::hash(&evidence)));
    assert_eq!(p.new_state, next_state(&prev, &kind));
    assert_eq!(p.subsystem(), Subsystem::Memory);
}

#[test]
fn fs_and_process_proof_kinds() {
    let z = hash::Hash::zero();
    let f = create_fs_proof(1, z, 0, FilesystemOp::Create, b"/a", z, hash::hash(b"h3"));
    assert_eq!(
        f.kind,
        OperationKind::Filesystem {
            op: FilesystemOp::Create,
            path_hash: hash::hash(b"/a"),
            content_hash_before: z,
            content_hash_after: hash::hash(b"h3"),
        }
    );
    assert_eq!(f.subsystem(), Subsystem::Filesystem);
    let p = create_process_proof(2, z, 0, ProcessOp::Schedule, 42, b"img");
    assert_eq!(
        p.kind,
        OperationKind::Process { op: ProcessOp::Schedule, pid: 42, image_hash: hash::hash(b"img") }
    );
    assert_eq!(p.subsystem(), Subsystem::Process);
}

#[test]
fn serialized_lengths_by_subsystem() {
    let p = sample_proofs();
    assert_eq!(p[0].serialize().len(), 162);
    assert_eq!(p[1].serialize().len(), 210);
    assert_eq!(p[2].serialize().len(), 114);
    assert_eq!(p[3].serialize().len(), 154);
    assert_eq!(OperationKind::encoded_len(Subsystem::Memory), 49);
    assert_eq!(OperationKind::encoded_len(Subsystem::Filesystem), 97);
    assert_eq!(OperationKind::encoded_len(Subsystem::Boot), 1);
    assert_eq!(OperationKind::encoded_len(Subsystem::Process), 41);
}

#[test]
fn serialized_layout_is_in_declaration_order() {
    let prev = hash::hash(b"p");
    let p = create_boot_proof(0x0102, prev, 0x0a0b, BootStage::HeapInitialized);
    let bytes = p.serialize();
    assert_eq!(&bytes[0..8], &0x0102u64.to_le_bytes());
    assert_eq!(bytes[8], 0);
    assert_eq!(bytes[9], 4);
    assert_eq!(&bytes[10..42], &prev.bytes()[..]);
    assert_eq!(&bytes[42..74], &p.new_state.bytes()[..]);
    assert_eq!(&bytes[74..82], &0x0a0bu64.to_le_bytes());
    assert_eq!(&bytes[82..114], &p.signature.bytes()[..]);
}

#[test]
fn deserialize_reads_back_every_kind() {
    for p in sample_proofs() {
        assert_eq!(OperationProof::deserialize(&p.serialize()), Some(p));
    }
    for op in [MemoryOp::Alloc, MemoryOp::Free, MemoryOp::MapPage, MemoryOp::Unmap] {
        let p = create_memory_proof(1, hash::Hash::zero(), 0, op, 1, 2, b"");
        assert_eq!(OperationProof::deserialize(&p.serialize()), Some(p));
    }
    for op in [
        FilesystemOp::Create,
        FilesystemOp::Write,
        FilesystemOp::Delete,
        FilesystemOp::Mkdir,
        FilesystemOp::Rmdir,
    ] {
        let z = hash::Hash::zero();
        let p = create_fs_proof(1, z, 0, op, b"/", z, z);
        assert_eq!(OperationProof::deserialize(&p.serialize()), Some(p));
    }
}

#[test]
fn deserialize_rejects_malformed_bytes() {
    let p = sample_proofs()[0];
    let bytes = p.serialize();
    assert_eq!(OperationProof::deserialize(&bytes[..bytes.len() - 1]), None);
    let mut longer = bytes.clone();
    longer.push(0);
    assert_eq!(OperationProof::deserialize(&longer), None);
    let mut bad_subsystem = bytes.clone();
    bad_subsystem[8] = 4;
    assert_eq!(OperationProof::deserialize(&bad_subsystem), None);
    let mut bad_op = bytes.clone();
    bad_op[9] = 4;
    assert_eq!(OperationProof::deserialize(&bad_op), None);
    let mut other_subsystem = bytes.clone();
    other_subsystem[8] = 0;
    assert_eq!(OperationProof::deserialize(&other_subsystem), None);
    assert_eq!(OperationProof::deserialize(&[]), None);
    assert_eq!(OperationProof::deserialize(&[0u8; 8]), None);
}

#[test]
fn tags_round_trip() {
    for t in 0..=255u8 {
        assert_eq!(Subsystem::from_tag(t).map(|s| s.tag()), if t < 4 { Some(t) } else { None });
        assert_eq!(MemoryOp::from_tag(t).map(|s| s.tag()), if t < 4 { Some(t) } else { None });
        assert_eq!(FilesystemOp::from_tag(t).map(|s| s.tag()), if t < 5 { Some(t) } else { None });
        assert_eq!(BootStage::from_tag(t).map(|s| s.tag()), if t < 8 { Some(t) } else { None });
        assert_eq!(ProcessOp::from_tag(t).map(|s| s.tag()), if t < 3 { Some(t) } else { None });
    }
    assert_eq!(Subsystem::Filesystem.index(), 2);
}

#[test]
fn pending_operation_seals_like_the_producers() {
    let prev = hash::hash(b"s");
    let kind = OperationKind::Process { op: ProcessOp::Exit, pid: 3, image_hash: hash::hash(b"i") };
    let op = PendingOperation { kind, timestamp: 5 };
    assert_eq!(op.seal(8, prev), create_process_proof(8, prev, 5, ProcessOp::Exit, 3, b"i"));
    let boot = PendingOperation { kind: OperationKind::Boot { stage: BootStage::GDTLoaded }, timestamp: 6 };
    assert_eq!(boot.seal(1, prev), create_boot_proof(1, prev, 6, BootStage::GDTLoaded));
}
