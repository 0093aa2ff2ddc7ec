//! Replay and recovery of the registry from the image of the proof log.
//!
//! Replay walks the records of a log image in order and accepts each one
//! as the registry would have: the frame must be intact, its bytes must be
//! the byte form of a proof, and the proof must follow the ones before it.
//! A replay that stops before the head of the log has found a broken
//! chain. Recovery is the lenient form: it keeps what replays and drops the
//! rest.

use vstd::prelude::*;
use vstd::slice::slice_subrange;
use crate::hash;
use crate::merkle_tree::{compute_root, merkle_root};
use crate::operation_proofs::{OperationProof, Subsystem};
use crate::proof_storage::{
    frame, frame_payload_at, log_bytes, read_frame, lemma_frame_at_honest, lemma_frame_at_tampered,
    lemma_log_bytes_push, lemma_log_bytes_take, Superblock, LOG_VERSION,
};
use crate::verification::{
    check_proof, serialized, signatures, valid_history, lemma_push_proof, StorageError,
    VerificationError, VerificationRegistry,
};

verus! {

/// The proof that the record framed at `at` adds to the accepted ones, and
/// the offset just after the record, if the frame is intact, holds a proof,
/// and the proof can follow.
pub open spec fn log_step(image: Seq<u8>, at: int, head: int, accepted: Seq<OperationProof>) -> Option<
    (OperationProof, int),
> {
    match frame_payload_at(image, at, head) {
        None => None,
        Some(payload) => match OperationProof::spec_deserialize(payload) {
            None => None,
            Some(proof) => if check_proof(accepted, proof) is None {
                Some((proof, at + 8 + payload.len()))
            } else {
                None
            },
        },
    }
}

/// The proofs accepted by replaying the log from offset `at` on, after
/// `accepted`, and the offset at which the replay stops: the head of the
/// log, or the first record that cannot be accepted.
pub open spec fn replay_log(image: Seq<u8>, at: int, head: int, accepted: Seq<OperationProof>) -> (
    Seq<OperationProof>,
    int,
)
    decreases head - at,
{
    match log_step(image, at, head, accepted) {
        Some((proof, next)) => if at < next <= head {
            replay_log(image, next, head, accepted.push(proof))
        } else {
            (accepted, at)
        },
        None => (accepted, at),
    }
}

/// The head offset that the superblock of a log image gives, if the
/// superblock is intact and of this format, and the image reaches the head.
pub open spec fn log_head(image: Seq<u8>) -> Option<int> {
    match Superblock::spec_decode(image) {
        Some(sb) => if sb.version == LOG_VERSION && 128 <= sb.head_offset <= image.len() {
            Some(sb.head_offset as int)
        } else {
            None
        },
        None => None,
    }
}

/// The head offset up to which a log image can be recovered: that of the
/// superblock, or the end of the image if the image is shorter.
pub open spec fn recoverable_head(image: Seq<u8>) -> Option<int> {
    match Superblock::spec_decode(image) {
        Some(sb) => if sb.version == LOG_VERSION && 128 <= sb.head_offset {
            if sb.head_offset <= image.len() {
                Some(sb.head_offset as int)
            } else {
                Some(image.len() as int)
            }
        } else {
            None
        },
        None => None,
    }
}

/// What a replay of `image` finds, for a registry that accepted
/// `accepted`: a log that cannot be read, a chain broken at the first
/// record that cannot be accepted, a Merkle mismatch if the log replays to
/// another history than the registry holds, or nothing.
pub open spec fn replay_outcome(accepted: Seq<OperationProof>, image: Seq<u8>) -> Result<
    (),
    VerificationError,
> {
    match log_head(image) {
        None => Err(VerificationError::StorageFailed { io: StorageError::BadSuperblock }),
        Some(head) => {
            let replayed = replay_log(image, 128, head, Seq::empty());
            if replayed.1 < head {
                Err(VerificationError::ChainBroken { at_op_id: (replayed.0.len() + 1) as u64 })
            } else if replayed.0.len() != accepted.len() || merkle_root(signatures(replayed.0))
                != merkle_root(signatures(accepted)) {
                Err(VerificationError::MerkleMismatch)
            } else {
                Ok(())
            }
        },
    }
}

/// Offset of the frame of record `j` in the image of a log that holds the
/// byte forms of `proofs`.
pub open spec fn record_offset(proofs: Seq<OperationProof>, j: int) -> int {
    128 + log_bytes(serialized(proofs).take(j)).len() as int
}

/// Replays the records of `image` up to `head` into a fresh registry.
/// Returns the registry and the offset at which the replay stopped.
pub fn rebuild(image: &[u8], head: usize, chain_capacity: usize, storage_capacity: usize) -> (out: (
    VerificationRegistry,
    usize,
))
    requires
        128 <= head <= image@.len(),
        head <= storage_capacity,
    ensures
        out.0.wf(),
        (out.0.accepted(), out.1 as int) == replay_log(image@, 128, head as int, Seq::empty()),
        128 <= out.1 <= head,
        out.0.spec_storage().spec_capacity() == storage_capacity,
        forall|s: Subsystem| #[trigger] out.0.spec_chain(s).spec_capacity() == chain_capacity,
{
    let mut registry = VerificationRegistry::new(chain_capacity, storage_capacity);
    let mut at: usize = 128;
    let mut done = false;
    proof {
        registry.lemma_history();
        registry.spec_storage().lemma_image_shape();
    }
    while !done
        invariant
            registry.wf(),
            128 <= at <= head,
            head <= image@.len(),
            head <= storage_capacity,
            registry.spec_storage().image_bytes().len() == at,
            registry.spec_storage().spec_capacity() == storage_capacity,
            forall|s: Subsystem| #[trigger] registry.spec_chain(s).spec_capacity() == chain_capacity,
            replay_log(image@, 128, head as int, Seq::empty()) == replay_log(
                image@,
                at as int,
                head as int,
                registry.accepted(),
            ),
            done ==> log_step(image@, at as int, head as int, registry.accepted()) is None,
        decreases
                if done {
                    0
                } else {
                    head - at + 1
                },
    {
        let ghost before = registry;
        match read_frame(image, at, head) {
            None => {
                done = true;
            },
            Some((start, end)) => {
                match OperationProof::deserialize(slice_subrange(image, start, end)) {
                    None => {
                        done = true;
                    },
                    Some(proof) => {
                        match registry.register_proof(proof) {
                            Err(_) => {
                                done = true;
                            },
                            Ok(()) => {
                                proof {
                                    before.lemma_history();
                                    registry.lemma_history();
                                    registry.spec_storage().lemma_image_shape();
                                    before.spec_storage().lemma_image_shape();
                                    lemma_push_proof(before.accepted(), proof, Subsystem::Boot);
                                    lemma_log_bytes_push(
                                        serialized(before.accepted()),
                                        proof.spec_serialize(),
                                    );
                                }
                                at = end;
                            },
                        }
                    },
                }
            },
        }
    }
    (registry, at)
}

impl VerificationRegistry {
    /// Replays the image of a proof log and compares what it holds with the
    /// registry: the log must replay to its head, to as many proofs as the
    /// registry accepted, and to the same Merkle root.
    pub fn replay_image(&self, image: &[u8]) -> (result: Result<(), VerificationError>)
        requires
            self.wf(),
        ensures
            result == replay_outcome(self.accepted(), image@),
    {
        let sb = match Superblock::decode(image) {
            Some(sb) => sb,
            None => {
                return Err(VerificationError::StorageFailed { io: StorageError::BadSuperblock });
            },
        };
        if sb.version != LOG_VERSION || sb.head_offset < 128 || sb.head_offset > image.len() as u64 {
            return Err(VerificationError::StorageFailed { io: StorageError::BadSuperblock });
        }
        let head = sb.head_offset as usize;
        let (replayed, end) = rebuild(image, head, 0, head);
        if end < head {
            return Err(VerificationError::ChainBroken { at_op_id: replayed.next_op_id() });
        }
        if replayed.proof_count() != self.proof_count() || replayed.root() != self.root() {
            return Err(VerificationError::MerkleMismatch);
        }
        Ok(())
    }

    /// Replays the registry's own proof log and compares it with what the
    /// registry holds in memory. A registry that kept its invariant always
    /// passes.
    pub fn replay(&self) -> (result: Result<(), VerificationError>)
        requires
            self.wf(),
        ensures
            result == replay_outcome(self.accepted(), self.spec_storage().image_bytes()),
            result is Ok,
    {
        proof {
            self.law_own_log_replays();
        }
        self.replay_image(self.storage().image().as_slice())
    }

    /// Rebuilds a registry from the image of a proof log after a restart.
    /// The records that replay are kept; the log is cut at the first record
    /// that is torn or cannot be accepted. The checkpoint of the superblock
    /// must hold of what was kept: at least as many proofs as its watermark,
    /// the first of which have the Merkle root on record.
    pub fn recover(image: &[u8], chain_capacity: usize, storage_capacity: usize) -> (result: Result<
        VerificationRegistry,
        VerificationError,
    >)
        ensures
            match recoverable_head(image@) {
                None => result matches Err(e) && e == (VerificationError::StorageFailed {
                    io: StorageError::BadSuperblock,
                }),
                Some(head) => if storage_capacity < head {
                    result matches Err(e) && e == (VerificationError::StorageFailed {
                        io: StorageError::Full,
                    })
                } else {
                    let sb = Superblock::spec_decode(image@)->0;
                    let kept = replay_log(image@, 128, head, Seq::empty()).0;
                    if sb.op_watermark > kept.len() || merkle_root(
                        signatures(kept.take(sb.op_watermark as int)),
                    ) != sb.checkpoint {
                        result matches Err(e) && e == VerificationError::MerkleMismatch
                    } else {
                        &&& result matches Ok(registry)
                        &&& registry.wf()
                        &&& registry.accepted() == kept
                        &&& registry.spec_storage().spec_capacity() == storage_capacity
                        &&& registry.spec_storage().spec_superblock().checkpoint == sb.checkpoint
                        &&& registry.spec_storage().spec_superblock().op_watermark
                            == sb.op_watermark
                        &&& forall|s: Subsystem| #[trigger]
                            registry.spec_chain(s).spec_capacity() == chain_capacity
                    }
                },
            },
    {
        let sb = match Superblock::decode(image) {
            Some(sb) => sb,
            None => {
                return Err(VerificationError::StorageFailed { io: StorageError::BadSuperblock });
            },
        };
        if sb.version != LOG_VERSION || sb.head_offset < 128 {
            return Err(VerificationError::StorageFailed { io: StorageError::BadSuperblock });
        }
        let head: usize = if sb.head_offset <= image.len() as u64 {
            sb.head_offset as usize
        } else {
            image.len()
        };
        if storage_capacity < head {
            return Err(VerificationError::StorageFailed { io: StorageError::Full });
        }
        let (mut registry, _end) = rebuild(image, head, chain_capacity, storage_capacity);
        let count = registry.proof_count();
        let next = registry.next_op_id();
        if sb.op_watermark > count {
            return Err(VerificationError::MerkleMismatch);
        }
        assert(sb.op_watermark < next);
        let mut covered: Vec<hash::Hash> = Vec::new();
        let mut id: u64 = 1;
        while id <= sb.op_watermark
            invariant
                registry.wf(),
                1 <= id <= sb.op_watermark + 1,
                sb.op_watermark < u64::MAX,
                sb.op_watermark <= registry.accepted().len(),
                covered@ == signatures(registry.accepted().take(id - 1)),
            decreases sb.op_watermark + 1 - id,
        {
            match registry.get_proof(id) {
                Some(proof) => {
                    covered.push(proof.signature);
                },
                None => {},
            }
            assert(covered@ =~= signatures(registry.accepted().take(id as int)));
            id += 1;
        }
        if compute_root(covered.as_slice()) != sb.checkpoint {
            return Err(VerificationError::MerkleMismatch);
        }
        registry.set_checkpoint(sb.checkpoint, sb.op_watermark);
        Ok(registry)
    }

    /// The log of a registry replays to its head and to the proofs that the
    /// registry accepted.
    pub proof fn law_own_log_replays(self)
        requires
            self.wf(),
        ensures
            replay_outcome(self.accepted(), self.spec_storage().image_bytes()) == Ok::<
                (),
                VerificationError,
            >(()),
    {
        let image = self.spec_storage().image_bytes();
        self.lemma_history();
        self.spec_storage().lemma_image_shape();
        lemma_serialized_lens(self.accepted());
        lemma_honest_replay(image, self.accepted(), 0);
        assert(serialized(self.accepted()).take(0) =~= Seq::<Seq<u8>>::empty());
        assert(self.accepted().take(0) =~= Seq::<OperationProof>::empty());
    }

    /// Changing any one byte of any record in the log of a registry breaks
    /// the replay: it stops at the record that holds the byte and reports
    /// the chain broken at that record's operation.
    pub proof fn law_tampering_breaks_replay(self, changed: Seq<u8>, q: int)
        requires
            self.wf(),
            changed.len() == self.spec_storage().image_bytes().len(),
            128 <= q < changed.len(),
            changed[q] != self.spec_storage().image_bytes()[q],
            forall|j: int|
                0 <= j < changed.len() && j != q ==> changed[j] == self.spec_storage().image_bytes()[j],
        ensures
            replay_outcome(self.accepted(), changed) matches Err(
                VerificationError::ChainBroken { at_op_id },
            ) && 1 <= at_op_id <= self.accepted().len() && record_offset(
                self.accepted(),
                at_op_id - 1,
            ) <= q < record_offset(self.accepted(), at_op_id as int),
    {
        let image = self.spec_storage().image_bytes();
        let proofs = self.accepted();
        self.lemma_history();
        self.spec_storage().lemma_image_shape();
        lemma_serialized_lens(proofs);
        assert(serialized(proofs).take(proofs.len() as int) =~= serialized(proofs));
        let jq = lemma_find_record(proofs, q);
        assert(changed.subrange(0, 128) =~= image.subrange(0, 128));
        Superblock::lemma_decode_local(changed, image);
        lemma_tampered_replay(changed, image, proofs, 0, jq, q);
        assert(serialized(proofs).take(0) =~= Seq::<Seq<u8>>::empty());
        assert(proofs.take(0) =~= Seq::<OperationProof>::empty());
        lemma_offsets_grow(proofs, jq + 1, proofs.len() as int);
        self.spec_storage().lemma_image_shape();
        assert(proofs.len() + 1 <= u64::MAX) by {
            crate::proof_storage::lemma_log_bytes_len(serialized(proofs));
        }
    }
}

/// The byte form of a proof is never longer than a frame can tell.
pub proof fn lemma_serialized_lens(proofs: Seq<OperationProof>)
    ensures
        forall|i: int|
            0 <= i < proofs.len() ==> 114 <= (#[trigger] serialized(proofs)[i]).len() <= 210,
{
    assert forall|i: int| 0 <= i < proofs.len() implies 114 <= (#[trigger] serialized(
        proofs,
    )[i]).len() <= 210 by {
        proofs[i].lemma_serialize_shape();
    }
}

/// The frame of record `j` stands at its offset, and the next offset is
/// just after it.
pub proof fn lemma_record_frame(image: Seq<u8>, proofs: Seq<OperationProof>, j: int)
    requires
        0 <= j < proofs.len(),
        image.len() >= 128,
        image.skip(128) == log_bytes(serialized(proofs)),
    ensures
        record_offset(proofs, j + 1) == record_offset(proofs, j) + 8 + proofs[j].spec_serialize().len(),
        record_offset(proofs, j + 1) <= image.len(),
        image.subrange(record_offset(proofs, j), record_offset(proofs, j + 1)) == frame(
            proofs[j].spec_serialize(),
        ),
{
    let records = serialized(proofs);
    lemma_log_bytes_take(records, j);
    assert(records.take(j + 1) =~= records.take(j).push(records[j]));
    lemma_log_bytes_push(records.take(j), records[j]);
    let a = log_bytes(records.take(j)).len() as int;
    let b = a + 8 + records[j].len();
    assert(image.subrange(128 + a, 128 + b) =~= image.skip(128).subrange(a, b));
}

/// Offsets grow with the record number.
pub proof fn lemma_offsets_grow(proofs: Seq<OperationProof>, a: int, b: int)
    requires
        0 <= a <= b <= proofs.len(),
    ensures
        record_offset(proofs, a) <= record_offset(proofs, b),
    decreases b - a,
{
    if a < b {
        lemma_offsets_grow(proofs, a, b - 1);
        let records = serialized(proofs);
        assert(records.take(b) =~= records.take(b - 1).push(records[b - 1]));
        lemma_log_bytes_push(records.take(b - 1), records[b - 1]);
    }
}

/// Finds the record whose frame holds the byte at offset `q`.
pub proof fn lemma_find_record(proofs: Seq<OperationProof>, q: int) -> (j: int)
    requires
        128 <= q < record_offset(proofs, proofs.len() as int),
    ensures
        0 <= j < proofs.len(),
        record_offset(proofs, j) <= q < record_offset(proofs, j + 1),
    decreases proofs.len(),
{
    let n = proofs.len() as int;
    assert(serialized(proofs).take(0) =~= Seq::<Seq<u8>>::empty());
    if n == 0 {
        0
    } else if record_offset(proofs, n - 1) <= q {
        n - 1
    } else {
        let init = proofs.drop_last();
        assert(serialized(init) =~= serialized(proofs).take(n - 1));
        assert(serialized(init).take(n - 1) =~= serialized(init));
        let j = lemma_find_record(init, q);
        assert(serialized(init).take(j) =~= serialized(proofs).take(j));
        assert(serialized(init).take(j + 1) =~= serialized(proofs).take(j + 1));
        j
    }
}

/// From the offset of record `j` on, the log of a valid history replays to
/// the whole history and to the head.
pub proof fn lemma_honest_replay(image: Seq<u8>, proofs: Seq<OperationProof>, j: int)
    requires
        valid_history(proofs),
        0 <= j <= proofs.len(),
        image.len() >= 128,
        image.skip(128) == log_bytes(serialized(proofs)),
    ensures
        replay_log(image, record_offset(proofs, j), image.len() as int, proofs.take(j)) == (
            proofs,
            image.len() as int,
        ),
    decreases proofs.len() - j,
{
    let head = image.len() as int;
    let records = serialized(proofs);
    let at = record_offset(proofs, j);
    if j == proofs.len() {
        assert(records.take(j) =~= records);
        assert(proofs.take(j) =~= proofs);
        assert(frame_payload_at(image, at, head) is None);
    } else {
        lemma_record_frame(image, proofs, j);
        lemma_serialized_lens(proofs);
        let payload = proofs[j].spec_serialize();
        assert(records[j] == payload);
        lemma_frame_at_honest(image, at, head, payload);
        proofs[j].lemma_deserialize_serialize();
        assert(check_proof(proofs.take(j), proofs[j]) is None);
        assert(proofs.take(j).push(proofs[j]) =~= proofs.take(j + 1));
        lemma_honest_replay(image, proofs, j + 1);
    }
}

/// A log in which one byte of record `jq` was changed replays, from the
/// offset of record `j` on, up to record `jq` and no further.
pub proof fn lemma_tampered_replay(
    changed: Seq<u8>,
    image: Seq<u8>,
    proofs: Seq<OperationProof>,
    j: int,
    jq: int,
    q: int,
)
    requires
        valid_history(proofs),
        0 <= j <= jq < proofs.len(),
        image.len() >= 128,
        image.skip(128) == log_bytes(serialized(proofs)),
        changed.len() == image.len(),
        record_offset(proofs, jq) <= q < record_offset(proofs, jq + 1),
        changed[q] != image[q],
        forall|k: int| 0 <= k < image.len() && k != q ==> changed[k] == image[k],
    ensures
        replay_log(changed, record_offset(proofs, j), image.len() as int, proofs.take(j)) == (
            proofs.take(jq),
            record_offset(proofs, jq),
        ),
    decreases jq - j,
{
    let head = image.len() as int;
    let at = record_offset(proofs, j);
    let payload = proofs[j].spec_serialize();
    lemma_record_frame(image, proofs, j);
    lemma_serialized_lens(proofs);
    assert(serialized(proofs)[j] == payload);
    if j < jq {
        lemma_offsets_grow(proofs, j + 1, jq);
        assert(changed.subrange(at, record_offset(proofs, j + 1)) =~= image.subrange(
            at,
            record_offset(proofs, j + 1),
        ));
        lemma_frame_at_honest(changed, at, head, payload);
        proofs[j].lemma_deserialize_serialize();
        assert(check_proof(proofs.take(j), proofs[j]) is None);
        assert(proofs.take(j).push(proofs[j]) =~= proofs.take(j + 1));
        lemma_tampered_replay(changed, image, proofs, j + 1, jq, q);
    } else {
        lemma_frame_at_tampered(image, changed, at, head, payload, q);
        if let Some(found) = frame_payload_at(changed, at, head) {
            if let Some(other) = OperationProof::spec_deserialize(found) {
                OperationProof::lemma_serialize_deserialize(found);
                other.lemma_serialize_shape();
                proofs[j].lemma_serialize_shape();
                assert(found[8] == payload[8]);
                assert(false);
            }
        }
    }
}

} // verus!
