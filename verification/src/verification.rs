//! The verification registry: the one place where proofs are accepted.
//!
//! The registry checks every proof against the history so far, links it
//! into the hash chain of its subsystem, adds its signature to the Merkle
//! tree, and journals it in the proof log. Everything it holds is a function
//! of the sequence of proofs that it accepted.

use vstd::prelude::*;
use crate::hash;
use crate::hash::spec_combine;
use crate::hash_chain::{chain_link, lemma_chain_link_push, ChainEntry, HashChain};
use crate::merkle_tree::{
    fold_path, merkle_path, merkle_root, law_path_reaches_root, InclusionProof, MerkleTree,
};
use crate::operation_proofs::{OperationProof, PendingOperation, Subsystem, SUBSYSTEM_COUNT};
use crate::proof_storage::ProofStorage;

verus! {

/// Why the proof log refused or lost data.
#[derive(Clone, Copy, Debug, PartialEq, Eq, Structural)]
pub enum StorageError {
    /// The log has no room for the record.
    Full,
    /// The superblock is damaged or of another format.
    BadSuperblock,
}

/// What can go wrong when proofs are registered, looked up or replayed.
#[derive(Clone, Copy, Debug, PartialEq, Eq, Structural)]
pub enum VerificationError {
    /// The proof does not carry the signature of its own fields.
    InvalidSignature,
    /// The proof's operation id is not the next one.
    OutOfOrder,
    /// The proof does not start from the state its subsystem is in.
    StateMismatch,
    /// The proof could not be made durable; nothing else changed.
    StorageFailed { io: StorageError },
    /// Replay found that the record of the operation `at_op_id` does not
    /// continue the chain.
    ChainBroken { at_op_id: u64 },
    /// The recomputed Merkle root differs from the one on record.
    MerkleMismatch,
    /// No proof with the operation id asked for is on record.
    NotFound,
    /// A deferred submission found its ring full; `dropped` counts the
    /// submissions of `subsystem` dropped so far.
    RingOverflow { subsystem: Subsystem, dropped: u64 },
}

/// The signatures of `proofs`, in order.
pub open spec fn signatures(proofs: Seq<OperationProof>) -> Seq<hash::Hash> {
    Seq::new(proofs.len(), |i: int| proofs[i].signature)
}

/// The byte forms of `proofs`, in order.
pub open spec fn serialized(proofs: Seq<OperationProof>) -> Seq<Seq<u8>> {
    Seq::new(proofs.len(), |i: int| proofs[i].spec_serialize())
}

/// The state that `subsystem` is in after `proofs`: the new state of its
/// last proof, if it has one.
pub open spec fn latest_of(proofs: Seq<OperationProof>, subsystem: Subsystem) -> Option<hash::Hash>
    decreases proofs.len(),
{
    if proofs.len() == 0 {
        None
    } else if proofs.last().spec_subsystem() == subsystem {
        Some(proofs.last().new_state)
    } else {
        latest_of(proofs.drop_last(), subsystem)
    }
}

/// The signatures of the proofs of `subsystem` among `proofs`, in order.
pub open spec fn chain_hashes(proofs: Seq<OperationProof>, subsystem: Subsystem) -> Seq<hash::Hash>
    decreases proofs.len(),
{
    if proofs.len() == 0 {
        Seq::empty()
    } else if proofs.last().spec_subsystem() == subsystem {
        chain_hashes(proofs.drop_last(), subsystem).push(proofs.last().signature)
    } else {
        chain_hashes(proofs.drop_last(), subsystem)
    }
}

/// The chain entries of the proofs of `subsystem` among `proofs`, in
/// order: each holds its proof's operation id and signature, and the link
/// reached from the zero hash by the subsystem's signatures up to it.
pub open spec fn chain_entries(proofs: Seq<OperationProof>, subsystem: Subsystem) -> Seq<ChainEntry>
    decreases proofs.len(),
{
    if proofs.len() == 0 {
        Seq::empty()
    } else if proofs.last().spec_subsystem() == subsystem {
        chain_entries(proofs.drop_last(), subsystem).push(
            ChainEntry {
                op_id: proofs.last().op_id,
                proof_hash: proofs.last().signature,
                link_hash: chain_link(hash::Hash::spec_zero(), chain_hashes(proofs, subsystem)),
            },
        )
    } else {
        chain_entries(proofs.drop_last(), subsystem)
    }
}

/// The entries that a chain of the given capacity keeps of `entries`: the
/// last ones, as many as the capacity allows.
pub open spec fn kept_tail(entries: Seq<ChainEntry>, capacity: usize) -> Seq<ChainEntry> {
    if entries.len() > capacity {
        entries.skip(entries.len() - capacity)
    } else {
        entries
    }
}

/// The tail of a chain after one more entry: the new entry after the old
/// ones, without the oldest if that is more than the chain keeps.
pub open spec fn tail_after(tail: Seq<ChainEntry>, capacity: usize, entry: ChainEntry) -> Seq<
    ChainEntry,
> {
    let grown = tail.push(entry);
    if grown.len() > capacity {
        grown.skip(1)
    } else {
        grown
    }
}

/// Keeping the last entries commutes with adding one.
pub proof fn lemma_kept_tail_push(entries: Seq<ChainEntry>, capacity: usize, entry: ChainEntry)
    ensures
        kept_tail(entries.push(entry), capacity) == tail_after(
            kept_tail(entries, capacity),
            capacity,
            entry,
        ),
{
    assert(kept_tail(entries.push(entry), capacity) =~= tail_after(
        kept_tail(entries, capacity),
        capacity,
        entry,
    ));
}

/// Why `proof` cannot follow the accepted proofs, if it cannot. The checks
/// are made in this order: the signature, the operation id, the state that
/// the proof starts from.
pub open spec fn check_proof(accepted: Seq<OperationProof>, proof: OperationProof) -> Option<
    VerificationError,
> {
    if !proof.is_sealed() {
        Some(VerificationError::InvalidSignature)
    } else if proof.op_id != accepted.len() + 1 {
        Some(VerificationError::OutOfOrder)
    } else if latest_of(accepted, proof.spec_subsystem()) is Some && latest_of(
        accepted,
        proof.spec_subsystem(),
    ) != Some(proof.prev_state) {
        Some(VerificationError::StateMismatch)
    } else {
        None
    }
}

/// Whether every proof of `proofs` could follow the ones before it.
pub open spec fn valid_history(proofs: Seq<OperationProof>) -> bool {
    forall|i: int| 0 <= i < proofs.len() ==> #[trigger] check_proof(proofs.take(i), proofs[i]) is None
}

/// The state that `subsystem` is in after `proofs`, the zero hash if it
/// has no proof yet.
pub open spec fn state_of(proofs: Seq<OperationProof>, subsystem: Subsystem) -> hash::Hash {
    match latest_of(proofs, subsystem) {
        Some(h) => h,
        None => hash::Hash::spec_zero(),
    }
}

/// The proof that the registry makes of a pending operation after
/// `accepted`: it gets the next operation id and starts from the state
/// that its subsystem is in.
pub open spec fn next_proof(accepted: Seq<OperationProof>, op: PendingOperation) -> OperationProof {
    op.spec_seal((accepted.len() + 1) as u64, state_of(accepted, op.kind.spec_subsystem()))
}

/// The subsystem whose chain stands at position `i`.
pub open spec fn subsystem_at(i: int) -> Subsystem {
    if i == 0 {
        Subsystem::Boot
    } else if i == 1 {
        Subsystem::Memory
    } else if i == 2 {
        Subsystem::Filesystem
    } else {
        Subsystem::Process
    }
}

/// A valid history that takes one more proof that can follow it stays
/// valid.
pub proof fn lemma_valid_history_push(accepted: Seq<OperationProof>, proof: OperationProof)
    requires
        valid_history(accepted),
        check_proof(accepted, proof) is None,
    ensures
        valid_history(accepted.push(proof)),
{
    let grown = accepted.push(proof);
    assert forall|i: int| 0 <= i < grown.len() implies #[trigger] check_proof(grown.take(i), grown[i])
        is None by {
        if i < accepted.len() {
            assert(grown.take(i) =~= accepted.take(i));
            assert(check_proof(accepted.take(i), accepted[i]) is None);
        } else {
            assert(grown.take(i) =~= accepted);
        }
    }
}

/// What one more proof adds to the signatures, the byte forms, the chains
/// and the latest states.
pub proof fn lemma_push_proof(accepted: Seq<OperationProof>, proof: OperationProof, subsystem: Subsystem)
    ensures
        signatures(accepted.push(proof)) == signatures(accepted).push(proof.signature),
        serialized(accepted.push(proof)) == serialized(accepted).push(proof.spec_serialize()),
        chain_hashes(accepted.push(proof), subsystem) == if proof.spec_subsystem() == subsystem {
            chain_hashes(accepted, subsystem).push(proof.signature)
        } else {
            chain_hashes(accepted, subsystem)
        },
        latest_of(accepted.push(proof), subsystem) == if proof.spec_subsystem() == subsystem {
            Some(proof.new_state)
        } else {
            latest_of(accepted, subsystem)
        },
        chain_entries(accepted.push(proof), subsystem) == if proof.spec_subsystem() == subsystem {
            chain_entries(accepted, subsystem).push(
                ChainEntry {
                    op_id: proof.op_id,
                    proof_hash: proof.signature,
                    link_hash: spec_combine(
                        chain_link(hash::Hash::spec_zero(), chain_hashes(accepted, subsystem)),
                        proof.signature,
                    ),
                },
            )
        } else {
            chain_entries(accepted, subsystem)
        },
{
    lemma_chain_link_push(
        hash::Hash::spec_zero(),
        chain_hashes(accepted, subsystem),
        proof.signature,
    );
    let grown = accepted.push(proof);
    assert(grown.drop_last() =~= accepted);
    assert(signatures(grown) =~= signatures(accepted).push(proof.signature));
    assert(serialized(grown) =~= serialized(accepted).push(proof.spec_serialize()));
}

/// The verification registry.
pub struct VerificationRegistry {
    next_op_id: u64,
    chains: Vec<HashChain>,
    latest: Vec<Option<hash::Hash>>,
    tree: MerkleTree,
    proofs: Vec<OperationProof>,
    storage: ProofStorage,
}

impl VerificationRegistry {
    /// The proofs accepted so far, in order.
    pub closed spec fn accepted(self) -> Seq<OperationProof> {
        self.proofs@
    }

    /// The proof log.
    pub closed spec fn spec_storage(self) -> ProofStorage {
        self.storage
    }

    /// The hash chain of `subsystem`.
    pub closed spec fn spec_chain(self, subsystem: Subsystem) -> HashChain {
        self.chains@[subsystem.spec_tag() as int]
    }

    /// The operation id that the next proof must carry.
    pub closed spec fn spec_next_op_id(self) -> u64 {
        self.next_op_id
    }

    /// Whether the parts of the registry agree with the accepted proofs on
    /// the chain at position `i`.
    pub closed spec fn chain_ok(self, i: int) -> bool {
        &&& self.chains@[i].wf()
        &&& self.chains@[i].history() == chain_hashes(self.accepted(), subsystem_at(i))
        &&& self.chains@[i].tail() == kept_tail(
            chain_entries(self.accepted(), subsystem_at(i)),
            self.chains@[i].spec_capacity(),
        )
        &&& self.latest@[i] == latest_of(self.accepted(), subsystem_at(i))
    }

    /// The invariant of a registry: the accepted proofs form a valid
    /// history, and the operation counter, the chains, the latest states,
    /// the tree and the log are what that history makes them.
    pub closed spec fn wf(self) -> bool {
        &&& valid_history(self.accepted())
        &&& self.next_op_id == self.accepted().len() + 1
        &&& self.chains@.len() == 4
        &&& self.latest@.len() == 4
        &&& forall|i: int| 0 <= i < 4 ==> #[trigger] self.chain_ok(i)
        &&& self.tree.wf()
        &&& self.tree.leaves() == signatures(self.accepted())
        &&& self.storage.wf()
        &&& self.storage.records() == serialized(self.accepted())
    }

    /// A registry that accepted nothing yet. Each chain keeps at most
    /// `chain_capacity` entries in memory, and the image of the proof log may
    /// grow to `storage_capacity` bytes.
    pub fn new(chain_capacity: usize, storage_capacity: usize) -> (registry: VerificationRegistry)
        ensures
            registry.wf(),
            registry.accepted() == Seq::<OperationProof>::empty(),
            registry.spec_next_op_id() == 1,
            registry.spec_storage().spec_capacity() == storage_capacity,
            registry.spec_storage().records() == Seq::<Seq<u8>>::empty(),
            forall|s: Subsystem| #[trigger] registry.spec_chain(s).spec_capacity() == chain_capacity,
    {
        let mut chains: Vec<HashChain> = Vec::new();
        let mut latest: Vec<Option<hash::Hash>> = Vec::new();
        let mut i: usize = 0;
        while i < SUBSYSTEM_COUNT
            invariant
                i <= 4,
                chains@.len() == i,
                latest@.len() == i,
                forall|j: int|
                    0 <= j < i ==> {
                        &&& (#[trigger] chains@[j]).wf()
                        &&& chains@[j].history() == Seq::<hash::Hash>::empty()
                        &&& chains@[j].tail() == Seq::<ChainEntry>::empty()
                        &&& chains@[j].spec_capacity() == chain_capacity
                        &&& latest@[j] == None::<hash::Hash>
                    },
            decreases 4 - i,
        {
            let ghost chains_before = chains@;
            let ghost latest_before = latest@;
            let chain = HashChain::new(chain_capacity);
            chains.push(chain);
            latest.push(None);
            proof {
                assert forall|j: int| 0 <= j < i + 1 implies {
                    &&& (#[trigger] chains@[j]).wf()
                    &&& chains@[j].history() == Seq::<hash::Hash>::empty()
                    &&& chains@[j].tail() == Seq::<ChainEntry>::empty()
                    &&& chains@[j].spec_capacity() == chain_capacity
                    &&& latest@[j] == None::<hash::Hash>
                } by {
                    if j < i {
                        assert(chains@[j] == chains_before[j]);
                        assert(latest@[j] == latest_before[j]);
                    }
                }
            }
            i += 1;
        }
        let registry = VerificationRegistry {
            next_op_id: 1,
            chains,
            latest,
            tree: MerkleTree::new(),
            proofs: Vec::new(),
            storage: ProofStorage::new(storage_capacity),
        };
        proof {
            assert(signatures(registry.accepted()) =~= Seq::<hash::Hash>::empty());
            assert(serialized(registry.accepted()) =~= Seq::<Seq<u8>>::empty());
            assert forall|j: int| 0 <= j < 4 implies #[trigger] registry.chain_ok(j) by {
                assert(registry.chains@[j].wf());
            }
            assert forall|s: Subsystem| #[trigger]
                registry.spec_chain(s).spec_capacity() == chain_capacity by {
                assert(registry.chains@[s.spec_tag() as int].wf());
            }
        }
        registry
    }

    /// Registers a proof. The proof must carry its own signature, the next
    /// operation id, and, if its subsystem has a proof already, the state
    /// that the last one left; and the log must have room for it. A proof
    /// that fails leaves the registry as it was.
    pub fn register_proof(&mut self, proof: OperationProof) -> (result: Result<(), VerificationError>)
        requires
            old(self).wf(),
        ensures
            final(self).wf(),
            match check_proof(old(self).accepted(), proof) {
                Some(e) => result == Err::<(), VerificationError>(e) && *final(self) == *old(self),
                None => if old(self).spec_storage().fits(proof.spec_serialize().len() as int) {
                    &&& result is Ok
                    &&& final(self).accepted() == old(self).accepted().push(proof)
                    &&& final(self).spec_next_op_id() == old(self).spec_next_op_id() + 1
                    &&& final(self).spec_storage().spec_capacity() == old(
                        self,
                    ).spec_storage().spec_capacity()
                    &&& final(self).spec_storage().spec_superblock().checkpoint == old(
                        self,
                    ).spec_storage().spec_superblock().checkpoint
                    &&& final(self).spec_storage().spec_superblock().op_watermark == old(
                        self,
                    ).spec_storage().spec_superblock().op_watermark
                    &&& forall|s: Subsystem| #[trigger]
                        final(self).spec_chain(s).spec_capacity() == old(self).spec_chain(
                            s,
                        ).spec_capacity()
                    &&& final(self).spec_chain(proof.spec_subsystem()).tail() == tail_after(
                        old(self).spec_chain(proof.spec_subsystem()).tail(),
                        old(self).spec_chain(proof.spec_subsystem()).spec_capacity(),
                        ChainEntry {
                            op_id: proof.op_id,
                            proof_hash: proof.signature,
                            link_hash: spec_combine(
                                old(self).spec_chain(proof.spec_subsystem()).spec_last_link(),
                                proof.signature,
                            ),
                        },
                    )
                    &&& forall|s: Subsystem|
                        s != proof.spec_subsystem() ==> #[trigger] final(self).spec_chain(s) == old(
                            self,
                        ).spec_chain(s)
                } else {
                    &&& result == Err::<(), VerificationError>(
                        VerificationError::StorageFailed { io: StorageError::Full },
                    )
                    &&& *final(self) == *old(self)
                },
            },
    {
        if !proof.verify_signature() {
            return Err(VerificationError::InvalidSignature);
        }
        if proof.op_id != self.next_op_id {
            return Err(VerificationError::OutOfOrder);
        }
        let subsystem = proof.subsystem();
        let i = subsystem.index();
        assert(self.chain_ok(i as int));
        assert(subsystem_at(i as int) == subsystem);
        match self.latest[i] {
            Some(tip) => {
                if proof.prev_state != tip {
                    return Err(VerificationError::StateMismatch);
                }
            },
            None => {},
        }
        assert(check_proof(self.accepted(), proof) is None);
        let record = proof.serialize();
        match self.storage.append(record.as_slice()) {
            Err(_) => {
                return Err(VerificationError::StorageFailed { io: StorageError::Full });
            },
            Ok(()) => {},
        }
        let ghost before = *old(self);
        proof {
            self.storage.lemma_image_shape();
            lemma_valid_history_push(before.accepted(), proof);
            lemma_push_proof(before.accepted(), proof, Subsystem::Boot);
            lemma_push_proof(before.accepted(), proof, Subsystem::Memory);
            lemma_push_proof(before.accepted(), proof, Subsystem::Filesystem);
            lemma_push_proof(before.accepted(), proof, Subsystem::Process);
            assert forall|j: int| 0 <= j < 4 implies #[trigger] before.chain_ok(j) by {}
        }
        let used = self.storage.len();
        self.chains[i].append(proof.op_id, proof.signature);
        self.latest[i] = Some(proof.new_state);
        self.tree.insert(proof.signature);
        self.proofs.push(proof);
        self.next_op_id = self.next_op_id + 1;
        proof {
            before.chains@[i as int].law_replay_reaches_last_link();
            lemma_kept_tail_push(
                chain_entries(before.accepted(), subsystem),
                before.chains@[i as int].spec_capacity(),
                ChainEntry {
                    op_id: proof.op_id,
                    proof_hash: proof.signature,
                    link_hash: spec_combine(
                        before.chains@[i as int].spec_last_link(),
                        proof.signature,
                    ),
                },
            );
            assert forall|j: int| 0 <= j < 4 implies #[trigger] self.chain_ok(j) by {
                assert(before.chain_ok(j));
                if j != i {
                    assert(self.chains@[j] == before.chains@[j]);
                    assert(self.latest@[j] == before.latest@[j]);
                }
            }
            assert forall|s: Subsystem| #[trigger]
                self.spec_chain(s).spec_capacity() == before.spec_chain(s).spec_capacity() by {
                let j = s.spec_tag() as int;
                if j != i {
                    assert(self.chains@[j] == before.chains@[j]);
                }
            }
            assert forall|s: Subsystem| s != proof.spec_subsystem() implies #[trigger] self.spec_chain(
                s,
            ) == before.spec_chain(s) by {
                let j = s.spec_tag() as int;
                assert(self.chains@[j] == before.chains@[j]);
            }
        }
        Ok(())
    }

    /// Whether the proof log has room for the proof that the registry would
    /// make of `op`.
    #[verifier::opaque]
    pub open spec fn has_room_for(self, op: PendingOperation) -> bool {
        self.spec_storage().fits(next_proof(self.accepted(), op).spec_serialize().len() as int)
    }

    /// Makes the proof of a pending operation and registers it: the proof
    /// gets the next operation id and starts from the state that its
    /// subsystem is in, so only the log can refuse it.
    pub fn submit(&mut self, op: PendingOperation) -> (result: Result<OperationProof, VerificationError>)
        requires
            old(self).wf(),
        ensures
            final(self).wf(),
            ({
                let proof = next_proof(old(self).accepted(), op);
                if old(self).has_room_for(op) {
                    &&& result == Ok::<OperationProof, VerificationError>(proof)
                    &&& final(self).accepted() == old(self).accepted().push(proof)
                    &&& final(self).spec_next_op_id() == old(self).spec_next_op_id() + 1
                    &&& final(self).spec_chain(proof.spec_subsystem()).tail() == tail_after(
                        old(self).spec_chain(proof.spec_subsystem()).tail(),
                        old(self).spec_chain(proof.spec_subsystem()).spec_capacity(),
                        ChainEntry {
                            op_id: proof.op_id,
                            proof_hash: proof.signature,
                            link_hash: spec_combine(
                                old(self).spec_chain(proof.spec_subsystem()).spec_last_link(),
                                proof.signature,
                            ),
                        },
                    )
                    &&& forall|s: Subsystem|
                        s != proof.spec_subsystem() ==> #[trigger] final(self).spec_chain(s) == old(
                            self,
                        ).spec_chain(s)
                    &&& final(self).spec_storage().spec_capacity() == old(
                        self,
                    ).spec_storage().spec_capacity()
                    &&& forall|s: Subsystem| #[trigger]
                        final(self).spec_chain(s).spec_capacity() == old(self).spec_chain(
                            s,
                        ).spec_capacity()
                } else {
                    &&& result == Err::<OperationProof, VerificationError>(
                        VerificationError::StorageFailed { io: StorageError::Full },
                    )
                    &&& *final(self) == *old(self)
                }
            }),
    {
        proof {
            reveal(next_proof);
            reveal(VerificationRegistry::has_room_for);
        }
        let prev_state = self.latest_state(op.kind.subsystem());
        let proof = op.seal(self.next_op_id, prev_state);
        assert(check_proof(self.accepted(), proof) is None);
        match self.register_proof(proof) {
            Ok(()) => Ok(proof),
            Err(e) => Err(e),
        }
    }

    /// The operation id that the next proof must carry: one more than the
    /// number of proofs accepted.
    pub fn next_op_id(&self) -> (id: u64)
        requires
            self.wf(),
        ensures
            id == self.accepted().len() + 1,
            id == self.spec_next_op_id(),
    {
        self.next_op_id
    }

    /// Number of proofs accepted.
    pub fn proof_count(&self) -> (n: u64)
        requires
            self.wf(),
        ensures
            n == self.accepted().len(),
    {
        self.next_op_id - 1
    }

    /// The state that `subsystem` is in: the new state of its last proof, or
    /// the zero hash if it has none.
    pub fn latest_state(&self, subsystem: Subsystem) -> (state: hash::Hash)
        requires
            self.wf(),
        ensures
            state == match latest_of(self.accepted(), subsystem) {
                Some(h) => h,
                None => hash::Hash::spec_zero(),
            },
    {
        let i = subsystem.index();
        assert(self.chain_ok(i as int));
        assert(subsystem_at(i as int) == subsystem);
        match self.latest[i] {
            Some(h) => h,
            None => hash::Hash::zero(),
        }
    }

    /// The newest link of the hash chain of `subsystem`: the link reached
    /// from the zero hash by the signatures of all its proofs.
    pub fn chain_tip(&self, subsystem: Subsystem) -> (link: hash::Hash)
        requires
            self.wf(),
        ensures
            link == chain_link(hash::Hash::spec_zero(), chain_hashes(self.accepted(), subsystem)),
            link == self.spec_chain(subsystem).spec_last_link(),
    {
        let i = subsystem.index();
        assert(self.chain_ok(i as int));
        assert(subsystem_at(i as int) == subsystem);
        self.chains[i].last_link()
    }

    /// The hash chain of `subsystem`. Its entries are those of the
    /// subsystem's accepted proofs, as many of the last as the chain keeps.
    pub fn chain(&self, subsystem: Subsystem) -> (chain: &HashChain)
        requires
            self.wf(),
        ensures
            *chain == self.spec_chain(subsystem),
            chain.wf(),
            chain.history() == chain_hashes(self.accepted(), subsystem),
            chain.tail() == kept_tail(
                chain_entries(self.accepted(), subsystem),
                chain.spec_capacity(),
            ),
    {
        let i = subsystem.index();
        assert(self.chain_ok(i as int));
        assert(subsystem_at(i as int) == subsystem);
        &self.chains[i]
    }

    /// The Merkle root over the signatures of all accepted proofs.
    pub fn root(&self) -> (root: hash::Hash)
        requires
            self.wf(),
        ensures
            root == merkle_root(signatures(self.accepted())),
    {
        self.tree.root()
    }

    /// The proof of operation `op_id`, if it was accepted.
    pub fn get_proof(&self, op_id: u64) -> (proof: Option<OperationProof>)
        requires
            self.wf(),
        ensures
            proof == if 1 <= op_id <= self.accepted().len() {
                Some(self.accepted()[op_id - 1])
            } else {
                None
            },
            proof matches Some(p) ==> p.op_id == op_id,
    {
        let n = self.proofs.len();
        if op_id >= 1 && op_id - 1 < n as u64 {
            proof {
                let i = op_id - 1;
                assert(check_proof(self.accepted().take(i), self.accepted()[i]) is None);
            }
            Some(self.proofs[(op_id - 1) as usize])
        } else {
            None
        }
    }

    /// The inclusion proof of the operation `op_id`: the path from its
    /// signature to the current root. There is none for an operation that
    /// was not accepted.
    pub fn inclusion_proof(&self, op_id: u64) -> (result: Result<InclusionProof, VerificationError>)
        requires
            self.wf(),
        ensures
            result is Ok <==> 1 <= op_id <= self.accepted().len(),
            result matches Ok(proof) ==> {
                &&& proof.leaf_index == op_id - 1
                &&& proof.path@ == merkle_path(signatures(self.accepted()), op_id - 1)
                &&& fold_path(self.accepted()[op_id - 1].signature, proof.path@) == merkle_root(
                    signatures(self.accepted()),
                )
            },
            result matches Err(e) ==> e == VerificationError::NotFound,
    {
        if op_id == 0 {
            return Err(VerificationError::NotFound);
        }
        proof {
            if op_id <= self.accepted().len() {
                law_path_reaches_root(signatures(self.accepted()), op_id - 1);
            }
        }
        self.tree.prove(op_id - 1)
    }

    /// Checks an inclusion proof: whether its steps lead from `signature`
    /// to `root`.
    pub fn verify(proof: &InclusionProof, signature: &hash::Hash, root: &hash::Hash) -> (ok: bool)
        ensures
            ok == (fold_path(*signature, proof.path@) == *root),
    {
        MerkleTree::verify(signature, proof.leaf_index, proof, root)
    }

    /// Writes a checkpoint into the superblock of the log: the current
    /// Merkle root, which covers every proof accepted so far.
    pub fn checkpoint(&mut self)
        requires
            old(self).wf(),
        ensures
            final(self).wf(),
            final(self).accepted() == old(self).accepted(),
            final(self).spec_next_op_id() == old(self).spec_next_op_id(),
            final(self).spec_storage().spec_capacity() == old(self).spec_storage().spec_capacity(),
            final(self).spec_storage().spec_superblock().checkpoint == merkle_root(
                signatures(old(self).accepted()),
            ),
            final(self).spec_storage().spec_superblock().op_watermark == old(
                self,
            ).accepted().len(),
            forall|s: Subsystem| #[trigger]
                final(self).spec_chain(s).spec_capacity() == old(self).spec_chain(s).spec_capacity(),
    {
        let root = self.tree.root();
        let watermark = self.next_op_id - 1;
        self.set_checkpoint(root, watermark);
    }

    /// Writes the checkpoint `root`, which covers the operations up to
    /// `watermark`, into the superblock of the log.
    pub(crate) fn set_checkpoint(&mut self, root: hash::Hash, watermark: u64)
        requires
            old(self).wf(),
        ensures
            final(self).wf(),
            final(self).accepted() == old(self).accepted(),
            final(self).spec_next_op_id() == old(self).spec_next_op_id(),
            final(self).spec_storage().spec_capacity() == old(self).spec_storage().spec_capacity(),
            final(self).spec_storage().spec_superblock().checkpoint == root,
            final(self).spec_storage().spec_superblock().op_watermark == watermark,
            forall|s: Subsystem| #[trigger]
                final(self).spec_chain(s).spec_capacity() == old(self).spec_chain(s).spec_capacity(),
    {
        let ghost before = *self;
        self.storage.set_checkpoint(root, watermark);
        proof {
            assert forall|j: int| 0 <= j < 4 implies #[trigger] self.chain_ok(j) by {
                assert(before.chain_ok(j));
            }
        }
    }

    /// The proof log.
    pub fn storage(&self) -> (log: &ProofStorage)
        ensures
            *log == self.spec_storage(),
    {
        &self.storage
    }

    /// The Merkle root that the registry holds.
    pub open spec fn spec_root(self) -> hash::Hash {
        merkle_root(signatures(self.accepted()))
    }

    /// The root of the registry is the root of a fresh tree built from the
    /// signatures of the accepted proofs.
    pub proof fn law_root_is_fresh_tree_root(self, fresh: MerkleTree)
        requires
            self.wf(),
            fresh.wf(),
            fresh.leaves() == signatures(self.accepted()),
        ensures
            self.spec_root() == fresh.spec_root(),
    {
    }

    /// The inclusion path of every accepted proof leads from its signature
    /// to the root of the registry.
    pub proof fn law_inclusion_proof_verifies(self, k: int)
        requires
            self.wf(),
            0 <= k < self.accepted().len(),
        ensures
            fold_path(
                self.accepted()[k].signature,
                merkle_path(signatures(self.accepted()), k),
            ) == self.spec_root(),
    {
        law_path_reaches_root(signatures(self.accepted()), k);
    }

    /// The newest link of every chain is the one reached from the zero hash
    /// by replaying the signatures of the subsystem's proofs.
    pub proof fn law_chain_replays_to_last_link(self, subsystem: Subsystem)
        requires
            self.wf(),
        ensures
            chain_link(hash::Hash::spec_zero(), chain_hashes(self.accepted(), subsystem))
                == self.spec_chain(subsystem).spec_last_link(),
    {
        self.lemma_history();
        self.spec_chain(subsystem).law_replay_reaches_last_link();
    }

    /// The accepted proofs form a valid history, and the log holds their
    /// byte forms.
    pub proof fn lemma_history(self)
        requires
            self.wf(),
        ensures
            valid_history(self.accepted()),
            self.spec_next_op_id() == self.accepted().len() + 1,
            self.spec_storage().wf(),
            self.spec_storage().records() == serialized(self.accepted()),
            forall|s: Subsystem| #[trigger] self.spec_chain(s).wf(),
            forall|s: Subsystem| #[trigger]
                self.spec_chain(s).history() == chain_hashes(self.accepted(), s),
            forall|s: Subsystem| #[trigger]
                self.spec_chain(s).tail() == kept_tail(
                    chain_entries(self.accepted(), s),
                    self.spec_chain(s).spec_capacity(),
                ),
    {
        assert forall|s: Subsystem| #[trigger]
            self.spec_chain(s).tail() == kept_tail(
                chain_entries(self.accepted(), s),
                self.spec_chain(s).spec_capacity(),
            ) by {
            let j = s.spec_tag() as int;
            assert(self.chain_ok(j));
            assert(subsystem_at(j) == s);
        }
        assert forall|s: Subsystem| #[trigger] self.spec_chain(s).wf() by {
            let j = s.spec_tag() as int;
            assert(self.chain_ok(j));
        }
        assert forall|s: Subsystem| #[trigger]
            self.spec_chain(s).history() == chain_hashes(self.accepted(), s) by {
            let j = s.spec_tag() as int;
            assert(self.chain_ok(j));
            assert(subsystem_at(j) == s);
        }
    }
}

/// A proof that does not start from the state its subsystem is in is
/// refused as a state mismatch, if the subsystem has a proof already and
/// nothing else is wrong with the proof.
pub proof fn law_wrong_prev_state_is_refused(accepted: Seq<OperationProof>, proof: OperationProof)
    requires
        proof.is_sealed(),
        proof.op_id == accepted.len() + 1,
        latest_of(accepted, proof.spec_subsystem()) is Some,
        proof.prev_state != state_of(accepted, proof.spec_subsystem()),
    ensures
        check_proof(accepted, proof) == Some(VerificationError::StateMismatch),
{
}

/// In a valid history every proof carries its own signature, and the
/// operation ids count up from 1 without gaps.
pub proof fn law_op_ids_are_dense(proofs: Seq<OperationProof>)
    requires
        valid_history(proofs),
    ensures
        forall|i: int| 0 <= i < proofs.len() ==> (#[trigger] proofs[i]).op_id == i + 1,
        forall|i: int| 0 <= i < proofs.len() ==> (#[trigger] proofs[i]).is_sealed(),
{
    assert forall|i: int| 0 <= i < proofs.len() implies (#[trigger] proofs[i]).op_id == i + 1
        && proofs[i].is_sealed() by {
        assert(check_proof(proofs.take(i), proofs[i]) is None);
    }
}

/// In a valid history every proof but the first of its subsystem starts
/// from the state that the subsystem's proof before it left.
pub proof fn law_states_are_continuous(proofs: Seq<OperationProof>, i: int)
    requires
        valid_history(proofs),
        0 <= i < proofs.len(),
        latest_of(proofs.take(i), proofs[i].spec_subsystem()) is Some,
    ensures
        proofs[i].prev_state == state_of(proofs.take(i), proofs[i].spec_subsystem()),
{
    assert(check_proof(proofs.take(i), proofs[i]) is None);
}

} // verus!
