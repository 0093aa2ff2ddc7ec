//! Operation proofs: typed records that witness one state transition of one
//! subsystem.
//!
//! A proof carries the operation's evidence, the subsystem's state hash
//! before and after the operation, and a signature: the hash of all its other
//! fields. The byte form of a proof is what the proof log stores.

use vstd::prelude::*;
use crate::bytes::{le64, le64_at, push_u64_le, read_u64_le, lemma_le64_at_bytes, lemma_le64_embedded, group_byte_lengths};
use crate::hash;
use crate::hash::{spec_hash, spec_combine};

verus! {

broadcast use {group_byte_lengths, hash::Hash::lemma_to_bytes_len};

/// The subsystems that emit proofs; each has a hash chain of its own.
#[derive(Clone, Copy, Debug, PartialEq, Eq, Structural)]
pub enum Subsystem {
    Boot,
    Memory,
    Filesystem,
    Process,
}

/// Number of subsystems.
pub const SUBSYSTEM_COUNT: usize = 4;

/// Operations of the memory manager.
#[derive(Clone, Copy, Debug, PartialEq, Eq, Structural)]
pub enum MemoryOp {
    Alloc,
    Free,
    MapPage,
    Unmap,
}

/// Operations of the filesystem.
#[derive(Clone, Copy, Debug, PartialEq, Eq, Structural)]
pub enum FilesystemOp {
    Create,
    Write,
    Delete,
    Mkdir,
    Rmdir,
}

/// Stages of the boot sequence, in the order in which they are reached.
#[derive(Clone, Copy, Debug, PartialEq, Eq, Structural)]
pub enum BootStage {
    Start,
    GDTLoaded,
    IDTLoaded,
    MemoryInitialized,
    HeapInitialized,
    SchedulerReady,
    FilesystemReady,
    Complete,
}

/// Events in the life of a process.
#[derive(Clone, Copy, Debug, PartialEq, Eq, Structural)]
pub enum ProcessOp {
    Spawn,
    Exit,
    Schedule,
}

impl Subsystem {
    /// The byte that stands for the subsystem in hashed and stored data.
    pub open spec fn spec_tag(self) -> u8 {
        match self {
            Subsystem::Boot => 0,
            Subsystem::Memory => 1,
            Subsystem::Filesystem => 2,
            Subsystem::Process => 3,
        }
    }

    /// The subsystem that a tag byte stands for, if any.
    pub open spec fn spec_from_tag(tag: u8) -> Option<Subsystem> {
        if tag == 0 {
            Some(Subsystem::Boot)
        } else if tag == 1 {
            Some(Subsystem::Memory)
        } else if tag == 2 {
            Some(Subsystem::Filesystem)
        } else if tag == 3 {
            Some(Subsystem::Process)
        } else {
            None
        }
    }

    /// The byte that stands for the value in hashed and stored data.
    pub fn tag(self) -> (t: u8)
        ensures
            t == self.spec_tag(),
            t < 4,
    {
        match self {
            Subsystem::Boot => 0,
            Subsystem::Memory => 1,
            Subsystem::Filesystem => 2,
            Subsystem::Process => 3,
        }
    }

    /// The value that a tag byte stands for, if any.
    pub fn from_tag(tag: u8) -> (s: Option<Subsystem>)
        ensures
            s == Subsystem::spec_from_tag(tag),
            s is Some <==> tag < 4,
            s matches Some(sub) ==> sub.spec_tag() == tag,
    {
        if tag == 0 {
            Some(Subsystem::Boot)
        } else if tag == 1 {
            Some(Subsystem::Memory)
        } else if tag == 2 {
            Some(Subsystem::Filesystem)
        } else if tag == 3 {
            Some(Subsystem::Process)
        } else {
            None
        }
    }

    /// Position of the subsystem's chain among the chains of a registry.
    pub fn index(self) -> (i: usize)
        ensures
            i == self.spec_tag(),
            i < SUBSYSTEM_COUNT,
    {
        match self {
            Subsystem::Boot => 0,
            Subsystem::Memory => 1,
            Subsystem::Filesystem => 2,
            Subsystem::Process => 3,
        }
    }
}

impl MemoryOp {
    /// The byte that stands for the operation in hashed and stored data.
    pub open spec fn spec_tag(self) -> u8 {
        match self {
            MemoryOp::Alloc => 0,
            MemoryOp::Free => 1,
            MemoryOp::MapPage => 2,
            MemoryOp::Unmap => 3,
        }
    }

    /// The value that a tag byte stands for, if any.
    pub open spec fn spec_from_tag(tag: u8) -> Option<MemoryOp> {
        if tag == 0 {
            Some(MemoryOp::Alloc)
        } else if tag == 1 {
            Some(MemoryOp::Free)
        } else if tag == 2 {
            Some(MemoryOp::MapPage)
        } else if tag == 3 {
            Some(MemoryOp::Unmap)
        } else {
            None
        }
    }

    /// The byte that stands for the value in hashed and stored data.
    pub fn tag(self) -> (t: u8)
        ensures
            t == self.spec_tag(),
    {
        match self {
            MemoryOp::Alloc => 0,
            MemoryOp::Free => 1,
            MemoryOp::MapPage => 2,
            MemoryOp::Unmap => 3,
        }
    }

    /// The value that a tag byte stands for, if any.
    pub fn from_tag(tag: u8) -> (op: Option<MemoryOp>)
        ensures
            op == MemoryOp::spec_from_tag(tag),
    {
        if tag == 0 {
            Some(MemoryOp::Alloc)
        } else if tag == 1 {
            Some(MemoryOp::Free)
        } else if tag == 2 {
            Some(MemoryOp::MapPage)
        } else if tag == 3 {
            Some(MemoryOp::Unmap)
        } else {
            None
        }
    }
}

impl FilesystemOp {
    /// The byte that stands for the operation in hashed and stored data.
    pub open spec fn spec_tag(self) -> u8 {
        match self {
            FilesystemOp::Create => 0,
            FilesystemOp::Write => 1,
            FilesystemOp::Delete => 2,
            FilesystemOp::Mkdir => 3,
            FilesystemOp::Rmdir => 4,
        }
    }

    /// The value that a tag byte stands for, if any.
    pub open spec fn spec_from_tag(tag: u8) -> Option<FilesystemOp> {
        if tag == 0 {
            Some(FilesystemOp::Create)
        } else if tag == 1 {
            Some(FilesystemOp::Write)
        } else if tag == 2 {
            Some(FilesystemOp::Delete)
        } else if tag == 3 {
            Some(FilesystemOp::Mkdir)
        } else if tag == 4 {
            Some(FilesystemOp::Rmdir)
        } else {
            None
        }
    }

    /// The byte that stands for the value in hashed and stored data.
    pub fn tag(self) -> (t: u8)
        ensures
            t == self.spec_tag(),
    {
        match self {
            FilesystemOp::Create => 0,
            FilesystemOp::Write => 1,
            FilesystemOp::Delete => 2,
            FilesystemOp::Mkdir => 3,
            FilesystemOp::Rmdir => 4,
        }
    }

    /// The value that a tag byte stands for, if any.
    pub fn from_tag(tag: u8) -> (op: Option<FilesystemOp>)
        ensures
            op == FilesystemOp::spec_from_tag(tag),
    {
        if tag == 0 {
            Some(FilesystemOp::Create)
        } else if tag == 1 {
            Some(FilesystemOp::Write)
        } else if tag == 2 {
            Some(FilesystemOp::Delete)
        } else if tag == 3 {
            Some(FilesystemOp::Mkdir)
        } else if tag == 4 {
            Some(FilesystemOp::Rmdir)
        } else {
            None
        }
    }
}

impl BootStage {
    /// Position of the stage in the boot sequence, which also stands for it
    /// in hashed and stored data.
    pub open spec fn spec_tag(self) -> u8 {
        match self {
            BootStage::Start => 0,
            BootStage::GDTLoaded => 1,
            BootStage::IDTLoaded => 2,
            BootStage::MemoryInitialized => 3,
            BootStage::HeapInitialized => 4,
            BootStage::SchedulerReady => 5,
            BootStage::FilesystemReady => 6,
            BootStage::Complete => 7,
        }
    }

    /// The value that a tag byte stands for, if any.
    pub open spec fn spec_from_tag(tag: u8) -> Option<BootStage> {
        if tag == 0 {
            Some(BootStage::Start)
        } else if tag == 1 {
            Some(BootStage::GDTLoaded)
        } else if tag == 2 {
            Some(BootStage::IDTLoaded)
        } else if tag == 3 {
            Some(BootStage::MemoryInitialized)
        } else if tag == 4 {
            Some(BootStage::HeapInitialized)
        } else if tag == 5 {
            Some(BootStage::SchedulerReady)
        } else if tag == 6 {
            Some(BootStage::FilesystemReady)
        } else if tag == 7 {
            Some(BootStage::Complete)
        } else {
            None
        }
    }

    /// The byte that stands for the value in hashed and stored data.
    pub fn tag(self) -> (t: u8)
        ensures
            t == self.spec_tag(),
            t < 8,
    {
        match self {
            BootStage::Start => 0,
            BootStage::GDTLoaded => 1,
            BootStage::IDTLoaded => 2,
            BootStage::MemoryInitialized => 3,
            BootStage::HeapInitialized => 4,
            BootStage::SchedulerReady => 5,
            BootStage::FilesystemReady => 6,
            BootStage::Complete => 7,
        }
    }

    /// The value that a tag byte stands for, if any.
    pub fn from_tag(tag: u8) -> (stage: Option<BootStage>)
        ensures
            stage == BootStage::spec_from_tag(tag),
    {
        if tag == 0 {
            Some(BootStage::Start)
        } else if tag == 1 {
            Some(BootStage::GDTLoaded)
        } else if tag == 2 {
            Some(BootStage::IDTLoaded)
        } else if tag == 3 {
            Some(BootStage::MemoryInitialized)
        } else if tag == 4 {
            Some(BootStage::HeapInitialized)
        } else if tag == 5 {
            Some(BootStage::SchedulerReady)
        } else if tag == 6 {
            Some(BootStage::FilesystemReady)
        } else if tag == 7 {
            Some(BootStage::Complete)
        } else {
            None
        }
    }
}

impl ProcessOp {
    /// The byte that stands for the operation in hashed and stored data.
    pub open spec fn spec_tag(self) -> u8 {
        match self {
            ProcessOp::Spawn => 0,
            ProcessOp::Exit => 1,
            ProcessOp::Schedule => 2,
        }
    }

    /// The value that a tag byte stands for, if any.
    pub open spec fn spec_from_tag(tag: u8) -> Option<ProcessOp> {
        if tag == 0 {
            Some(ProcessOp::Spawn)
        } else if tag == 1 {
            Some(ProcessOp::Exit)
        } else if tag == 2 {
            Some(ProcessOp::Schedule)
        } else {
            None
        }
    }

    /// The byte that stands for the value in hashed and stored data.
    pub fn tag(self) -> (t: u8)
        ensures
            t == self.spec_tag(),
    {
        match self {
            ProcessOp::Spawn => 0,
            ProcessOp::Exit => 1,
            ProcessOp::Schedule => 2,
        }
    }

    /// The value that a tag byte stands for, if any.
    pub fn from_tag(tag: u8) -> (op: Option<ProcessOp>)
        ensures
            op == ProcessOp::spec_from_tag(tag),
    {
        if tag == 0 {
            Some(ProcessOp::Spawn)
        } else if tag == 1 {
            Some(ProcessOp::Exit)
        } else if tag == 2 {
            Some(ProcessOp::Schedule)
        } else {
            None
        }
    }
}

/// What an operation did: the evidence that its proof carries.
#[derive(Clone, Copy, Debug, PartialEq, Eq, Structural)]
#[allow(inconsistent_fields)]
pub enum OperationKind {
    Memory { op: MemoryOp, addr: u64, size: u64, frame_hash: hash::Hash },
    Filesystem {
        op: FilesystemOp,
        path_hash: hash::Hash,
        content_hash_before: hash::Hash,
        content_hash_after: hash::Hash,
    },
    Boot { stage: BootStage },
    Process { op: ProcessOp, pid: u64, image_hash: hash::Hash },
}

impl OperationKind {
    /// The subsystem that performs operations of this kind.
    pub open spec fn spec_subsystem(self) -> Subsystem {
        match self {
            OperationKind::Memory { .. } => Subsystem::Memory,
            OperationKind::Filesystem { .. } => Subsystem::Filesystem,
            OperationKind::Boot { .. } => Subsystem::Boot,
            OperationKind::Process { .. } => Subsystem::Process,
        }
    }

    /// Number of bytes in the byte form of the evidence of `subsystem`.
    pub open spec fn spec_len(subsystem: Subsystem) -> nat {
        match subsystem {
            Subsystem::Memory => 49,
            Subsystem::Filesystem => 97,
            Subsystem::Boot => 1,
            Subsystem::Process => 41,
        }
    }

    /// The byte form of the evidence: the operation's tag, then its fields
    /// in order, integers least significant byte first.
    pub open spec fn spec_bytes(self) -> Seq<u8> {
        match self {
            OperationKind::Memory { op, addr, size, frame_hash } => seq![op.spec_tag()] + le64(addr)
                + le64(size) + frame_hash.to_bytes(),
            OperationKind::Filesystem { op, path_hash, content_hash_before, content_hash_after } =>
                seq![op.spec_tag()] + path_hash.to_bytes() + content_hash_before.to_bytes()
                    + content_hash_after.to_bytes(),
            OperationKind::Boot { stage } => seq![stage.spec_tag()],
            OperationKind::Process { op, pid, image_hash } => seq![op.spec_tag()] + le64(pid)
                + image_hash.to_bytes(),
        }
    }

    /// The evidence of `subsystem` whose byte form starts at `at`, if the
    /// operation tag found there is one of that subsystem.
    pub open spec fn spec_parse(subsystem: Subsystem, bytes: Seq<u8>, at: int) -> Option<
        OperationKind,
    > {
        match subsystem {
            Subsystem::Memory => match MemoryOp::spec_from_tag(bytes[at]) {
                Some(op) => Some(
                    OperationKind::Memory {
                        op,
                        addr: le64_at(bytes, at + 1),
                        size: le64_at(bytes, at + 9),
                        frame_hash: hash::Hash::from_bytes_at(bytes, at + 17),
                    },
                ),
                None => None,
            },
            Subsystem::Filesystem => match FilesystemOp::spec_from_tag(bytes[at]) {
                Some(op) => Some(
                    OperationKind::Filesystem {
                        op,
                        path_hash: hash::Hash::from_bytes_at(bytes, at + 1),
                        content_hash_before: hash::Hash::from_bytes_at(bytes, at + 33),
                        content_hash_after: hash::Hash::from_bytes_at(bytes, at + 65),
                    },
                ),
                None => None,
            },
            Subsystem::Boot => match BootStage::spec_from_tag(bytes[at]) {
                Some(stage) => Some(OperationKind::Boot { stage }),
                None => None,
            },
            Subsystem::Process => match ProcessOp::spec_from_tag(bytes[at]) {
                Some(op) => Some(
                    OperationKind::Process {
                        op,
                        pid: le64_at(bytes, at + 1),
                        image_hash: hash::Hash::from_bytes_at(bytes, at + 9),
                    },
                ),
                None => None,
            },
        }
    }

    /// The subsystem that performs operations of this kind.
    pub fn subsystem(&self) -> (s: Subsystem)
        ensures
            s == self.spec_subsystem(),
    {
        match self {
            OperationKind::Memory { .. } => Subsystem::Memory,
            OperationKind::Filesystem { .. } => Subsystem::Filesystem,
            OperationKind::Boot { .. } => Subsystem::Boot,
            OperationKind::Process { .. } => Subsystem::Process,
        }
    }

    /// Number of bytes in the byte form of the evidence of `subsystem`.
    pub fn encoded_len(subsystem: Subsystem) -> (n: usize)
        ensures
            n == OperationKind::spec_len(subsystem),
    {
        match subsystem {
            Subsystem::Memory => 49,
            Subsystem::Filesystem => 97,
            Subsystem::Boot => 1,
            Subsystem::Process => 41,
        }
    }

    /// Appends the byte form of the evidence to `out`.
    pub fn write_bytes(&self, out: &mut Vec<u8>)
        ensures
            final(out)@ == old(out)@ + self.spec_bytes(),
    {
        let ghost before = out@;
        match self {
            OperationKind::Memory { op, addr, size, frame_hash } => {
                out.push(op.tag());
                push_u64_le(out, *addr);
                push_u64_le(out, *size);
                frame_hash.write_bytes(out);
            },
            OperationKind::Filesystem { op, path_hash, content_hash_before, content_hash_after } => {
                out.push(op.tag());
                path_hash.write_bytes(out);
                content_hash_before.write_bytes(out);
                content_hash_after.write_bytes(out);
            },
            OperationKind::Boot { stage } => {
                out.push(stage.tag());
            },
            OperationKind::Process { op, pid, image_hash } => {
                out.push(op.tag());
                push_u64_le(out, *pid);
                image_hash.write_bytes(out);
            },
        }
        assert(out@ =~= before + self.spec_bytes());
    }

    /// Reads the evidence of `subsystem` whose byte form starts at `at`.
    pub fn parse(subsystem: Subsystem, bytes: &[u8], at: usize) -> (kind: Option<OperationKind>)
        requires
            at + OperationKind::spec_len(subsystem) <= bytes@.len(),
        ensures
            kind == OperationKind::spec_parse(subsystem, bytes@, at as int),
    {
        let len = bytes.len();
        assert(at + OperationKind::spec_len(subsystem) <= len);
        match subsystem {
            Subsystem::Memory => match MemoryOp::from_tag(bytes[at]) {
                Some(op) => Some(
                    OperationKind::Memory {
                        op,
                        addr: read_u64_le(bytes, at + 1),
                        size: read_u64_le(bytes, at + 9),
                        frame_hash: hash::Hash::read_bytes(bytes, at + 17),
                    },
                ),
                None => None,
            },
            Subsystem::Filesystem => match FilesystemOp::from_tag(bytes[at]) {
                Some(op) => Some(
                    OperationKind::Filesystem {
                        op,
                        path_hash: hash::Hash::read_bytes(bytes, at + 1),
                        content_hash_before: hash::Hash::read_bytes(bytes, at + 33),
                        content_hash_after: hash::Hash::read_bytes(bytes, at + 65),
                    },
                ),
                None => None,
            },
            Subsystem::Boot => match BootStage::from_tag(bytes[at]) {
                Some(stage) => Some(OperationKind::Boot { stage }),
                None => None,
            },
            Subsystem::Process => match ProcessOp::from_tag(bytes[at]) {
                Some(op) => Some(
                    OperationKind::Process {
                        op,
                        pid: read_u64_le(bytes, at + 1),
                        image_hash: hash::Hash::read_bytes(bytes, at + 9),
                    },
                ),
                None => None,
            },
        }
    }

    /// The byte form of the evidence has the length of its subsystem.
    pub broadcast proof fn lemma_bytes_len(self)
        ensures
            #[trigger] self.spec_bytes().len() == OperationKind::spec_len(self.spec_subsystem()),
    {
    }
}

/// The proof of one operation.
#[derive(Clone, Copy, Debug, PartialEq, Eq, Structural)]
pub struct OperationProof {
    /// Position of the operation among all operations since boot, from 1.
    pub op_id: u64,
    /// The evidence; it also tells the subsystem.
    pub kind: OperationKind,
    /// Hash of the subsystem's state just before the operation.
    pub prev_state: hash::Hash,
    /// Hash of the subsystem's state just after the operation.
    pub new_state: hash::Hash,
    /// Cycle count when the proof was made.
    pub timestamp: u64,
    /// Hash of all the fields above.
    pub signature: hash::Hash,
}

/// Number of bytes in the byte form of a proof, besides its evidence.
pub const PROOF_FIXED_LEN: usize = 113;

/// The state hash of a subsystem after an operation of `kind` on the state
/// `prev`: the old state combined with the hash of the evidence.
pub open spec fn transition(prev: hash::Hash, kind: OperationKind) -> hash::Hash {
    spec_combine(prev, spec_hash(kind.spec_bytes()))
}

/// The state hash of the boot subsystem on reaching `stage` at cycle count
/// `tsc`: the hash of the stage's tag and the count.
pub open spec fn boot_state(stage: BootStage, tsc: u64) -> hash::Hash {
    spec_hash(seq![stage.spec_tag()] + le64(tsc))
}

impl OperationProof {
    /// The subsystem whose operation the proof witnesses.
    pub open spec fn spec_subsystem(self) -> Subsystem {
        self.kind.spec_subsystem()
    }

    /// The bytes that the signature covers: the subsystem's tag, the
    /// operation id, the evidence, both state hashes and the timestamp.
    pub open spec fn signing_bytes(self) -> Seq<u8> {
        seq![self.spec_subsystem().spec_tag()] + le64(self.op_id) + self.kind.spec_bytes()
            + self.prev_state.to_bytes() + self.new_state.to_bytes() + le64(self.timestamp)
    }

    /// The signature that the proof should carry.
    pub open spec fn spec_signature(self) -> hash::Hash {
        spec_hash(self.signing_bytes())
    }

    /// Whether the proof carries the signature of its own fields.
    pub open spec fn is_sealed(self) -> bool {
        self.signature == self.spec_signature()
    }

    /// The byte form of the proof: operation id, subsystem tag, evidence,
    /// state before, state after, timestamp, signature.
    pub open spec fn spec_serialize(self) -> Seq<u8> {
        le64(self.op_id) + seq![self.spec_subsystem().spec_tag()] + self.kind.spec_bytes()
            + self.prev_state.to_bytes() + self.new_state.to_bytes() + le64(self.timestamp)
            + self.signature.to_bytes()
    }

    /// Number of bytes in the byte form of a proof of `subsystem`.
    pub open spec fn spec_len(subsystem: Subsystem) -> nat {
        113 + OperationKind::spec_len(subsystem)
    }

    /// The proof with the given fields and the signature that belongs to
    /// them.
    pub open spec fn spec_seal(
        op_id: u64,
        kind: OperationKind,
        prev_state: hash::Hash,
        new_state: hash::Hash,
        timestamp: u64,
    ) -> OperationProof {
        let unsigned = OperationProof {
            op_id,
            kind,
            prev_state,
            new_state,
            timestamp,
            signature: hash::Hash::spec_zero(),
        };
        OperationProof {
            op_id,
            kind,
            prev_state,
            new_state,
            timestamp,
            signature: unsigned.spec_signature(),
        }
    }

    /// The subsystem whose operation the proof witnesses.
    pub fn subsystem(&self) -> (s: Subsystem)
        ensures
            s == self.spec_subsystem(),
    {
        self.kind.subsystem()
    }

    /// Computes the signature that belongs to the proof's fields.
    pub fn compute_signature(&self) -> (sig: hash::Hash)
        ensures
            sig == self.spec_signature(),
    {
        let mut buf: Vec<u8> = Vec::new();
        buf.push(self.kind.subsystem().tag());
        push_u64_le(&mut buf, self.op_id);
        self.kind.write_bytes(&mut buf);
        self.prev_state.write_bytes(&mut buf);
        self.new_state.write_bytes(&mut buf);
        push_u64_le(&mut buf, self.timestamp);
        assert(buf@ =~= self.signing_bytes());
        hash::hash(buf.as_slice())
    }

    /// Whether the proof carries the signature of its own fields.
    pub fn verify_signature(&self) -> (ok: bool)
        ensures
            ok == self.is_sealed(),
    {
        self.signature == self.compute_signature()
    }

    /// Makes the proof with the given fields and signs it.
    pub fn seal(
        op_id: u64,
        kind: OperationKind,
        prev_state: hash::Hash,
        new_state: hash::Hash,
        timestamp: u64,
    ) -> (proof: OperationProof)
        ensures
            proof == OperationProof::spec_seal(op_id, kind, prev_state, new_state, timestamp),
            proof.is_sealed(),
    {
        let unsigned = OperationProof {
            op_id,
            kind,
            prev_state,
            new_state,
            timestamp,
            signature: hash::Hash::zero(),
        };
        let signature = unsigned.compute_signature();
        let proof = OperationProof { op_id, kind, prev_state, new_state, timestamp, signature };
        assert(proof.signing_bytes() == unsigned.signing_bytes());
        proof
    }

    /// The byte form of the proof.
    pub fn serialize(&self) -> (out: Vec<u8>)
        ensures
            out@ == self.spec_serialize(),
            out@.len() == OperationProof::spec_len(self.spec_subsystem()),
    {
        let mut out: Vec<u8> = Vec::new();
        push_u64_le(&mut out, self.op_id);
        out.push(self.kind.subsystem().tag());
        self.kind.write_bytes(&mut out);
        self.prev_state.write_bytes(&mut out);
        self.new_state.write_bytes(&mut out);
        push_u64_le(&mut out, self.timestamp);
        self.signature.write_bytes(&mut out);
        assert(out@ =~= self.spec_serialize());
        proof {
            self.kind.lemma_bytes_len();
        }
        out
    }
}

/// Makes the proof of a memory operation on the frame that holds
/// `frame_bytes`.
pub fn create_memory_proof(
    op_id: u64,
    prev_state: hash::Hash,
    timestamp: u64,
    op: MemoryOp,
    addr: u64,
    size: u64,
    frame_bytes: &[u8],
) -> (proof: OperationProof)
    ensures
        proof.kind == (OperationKind::Memory { op, addr, size, frame_hash: spec_hash(frame_bytes@) }),
        proof == OperationProof::spec_seal(
            op_id,
            proof.kind,
            prev_state,
            transition(prev_state, proof.kind),
            timestamp,
        ),
        proof.is_sealed(),
{
    let kind = OperationKind::Memory { op, addr, size, frame_hash: hash::hash(frame_bytes) };
    seal_transition(op_id, prev_state, timestamp, kind)
}

/// Makes the proof of a filesystem operation on the file at `path`, whose
/// content hashes before and after are given; a file that does not exist has
/// the zero hash.
pub fn create_fs_proof(
    op_id: u64,
    prev_state: hash::Hash,
    timestamp: u64,
    op: FilesystemOp,
    path: &[u8],
    before: hash::Hash,
    after: hash::Hash,
) -> (proof: OperationProof)
    ensures
        proof.kind == (OperationKind::Filesystem {
            op,
            path_hash: spec_hash(path@),
            content_hash_before: before,
            content_hash_after: after,
        }),
        proof == OperationProof::spec_seal(
            op_id,
            proof.kind,
            prev_state,
            transition(prev_state, proof.kind),
            timestamp,
        ),
        proof.is_sealed(),
{
    let kind = OperationKind::Filesystem {
        op,
        path_hash: hash::hash(path),
        content_hash_before: before,
        content_hash_after: after,
    };
    seal_transition(op_id, prev_state, timestamp, kind)
}

/// Makes the proof of an event in the life of process `pid`, whose program
/// image holds `image`.
pub fn create_process_proof(
    op_id: u64,
    prev_state: hash::Hash,
    timestamp: u64,
    op: ProcessOp,
    pid: u64,
    image: &[u8],
) -> (proof: OperationProof)
    ensures
        proof.kind == (OperationKind::Process { op, pid, image_hash: spec_hash(image@) }),
        proof == OperationProof::spec_seal(
            op_id,
            proof.kind,
            prev_state,
            transition(prev_state, proof.kind),
            timestamp,
        ),
        proof.is_sealed(),
{
    let kind = OperationKind::Process { op, pid, image_hash: hash::hash(image) };
    seal_transition(op_id, prev_state, timestamp, kind)
}

/// Makes the proof that the boot sequence reached `stage` at cycle count
/// `timestamp`.
pub fn create_boot_proof(op_id: u64, prev_state: hash::Hash, timestamp: u64, stage: BootStage) -> (proof:
    OperationProof)
    ensures
        proof == OperationProof::spec_seal(
            op_id,
            OperationKind::Boot { stage },
            prev_state,
            boot_state(stage, timestamp),
            timestamp,
        ),
        proof.is_sealed(),
{
    let mut buf: Vec<u8> = Vec::new();
    buf.push(stage.tag());
    push_u64_le(&mut buf, timestamp);
    assert(buf@ =~= seq![stage.spec_tag()] + le64(timestamp));
    let new_state = hash::hash(buf.as_slice());
    OperationProof::seal(op_id, OperationKind::Boot { stage }, prev_state, new_state, timestamp)
}

/// Computes the state after an operation of `kind` on the state `prev`.
pub fn next_state(prev: &hash::Hash, kind: &OperationKind) -> (next: hash::Hash)
    ensures
        next == transition(*prev, *kind),
{
    let mut buf: Vec<u8> = Vec::new();
    kind.write_bytes(&mut buf);
    assert(buf@ =~= kind.spec_bytes());
    let evidence = hash::hash(buf.as_slice());
    hash::combine(prev, &evidence)
}

/// Makes and signs the proof of an operation of `kind`, whose new state
/// follows from the old one and the evidence.
pub fn seal_transition(op_id: u64, prev_state: hash::Hash, timestamp: u64, kind: OperationKind) -> (proof:
    OperationProof)
    ensures
        proof == OperationProof::spec_seal(
            op_id,
            kind,
            prev_state,
            transition(prev_state, kind),
            timestamp,
        ),
        proof.is_sealed(),
{
    let new_state = next_state(&prev_state, &kind);
    OperationProof::seal(op_id, kind, prev_state, new_state, timestamp)
}

impl OperationKind {
    /// Evidence is read back from wherever its byte form stands.
    pub proof fn lemma_parse_embedded(self, bytes: Seq<u8>, at: int)
        requires
            0 <= at,
            at + OperationKind::spec_len(self.spec_subsystem()) <= bytes.len(),
            bytes.subrange(at, at + OperationKind::spec_len(self.spec_subsystem())) == self.spec_bytes(),
        ensures
            OperationKind::spec_parse(self.spec_subsystem(), bytes, at) == Some(self),
    {
        let n = OperationKind::spec_len(self.spec_subsystem()) as int;
        let part = bytes.subrange(at, at + n);
        assert(part[0] == bytes[at]);
        match self {
            OperationKind::Memory { op, addr, size, frame_hash } => {
                assert(part[0] == op.spec_tag());
                assert(bytes.subrange(at + 1, at + 9) =~= part.subrange(1, 9));
                assert(part.subrange(1, 9) =~= le64(addr));
                assert(bytes.subrange(at + 9, at + 17) =~= part.subrange(9, 17));
                assert(part.subrange(9, 17) =~= le64(size));
                assert(bytes.subrange(at + 17, at + 49) =~= part.subrange(17, 49));
                assert(part.subrange(17, 49) =~= frame_hash.to_bytes());
                lemma_le64_embedded(bytes, at + 1, addr);
                lemma_le64_embedded(bytes, at + 9, size);
                hash::Hash::lemma_from_bytes_embedded(bytes, at + 17, frame_hash);
            },
            OperationKind::Filesystem { op, path_hash, content_hash_before, content_hash_after } => {
                assert(part[0] == op.spec_tag());
                assert(bytes.subrange(at + 1, at + 33) =~= part.subrange(1, 33));
                assert(part.subrange(1, 33) =~= path_hash.to_bytes());
                assert(bytes.subrange(at + 33, at + 65) =~= part.subrange(33, 65));
                assert(part.subrange(33, 65) =~= content_hash_before.to_bytes());
                assert(bytes.subrange(at + 65, at + 97) =~= part.subrange(65, 97));
                assert(part.subrange(65, 97) =~= content_hash_after.to_bytes());
                hash::Hash::lemma_from_bytes_embedded(bytes, at + 1, path_hash);
                hash::Hash::lemma_from_bytes_embedded(bytes, at + 33, content_hash_before);
                hash::Hash::lemma_from_bytes_embedded(bytes, at + 65, content_hash_after);
            },
            OperationKind::Boot { stage } => {
                assert(part[0] == stage.spec_tag());
            },
            OperationKind::Process { op, pid, image_hash } => {
                assert(part[0] == op.spec_tag());
                assert(bytes.subrange(at + 1, at + 9) =~= part.subrange(1, 9));
                assert(part.subrange(1, 9) =~= le64(pid));
                assert(bytes.subrange(at + 9, at + 41) =~= part.subrange(9, 41));
                assert(part.subrange(9, 41) =~= image_hash.to_bytes());
                lemma_le64_embedded(bytes, at + 1, pid);
                hash::Hash::lemma_from_bytes_embedded(bytes, at + 9, image_hash);
            },
        }
    }

    /// The byte form of parsed evidence is the bytes it was parsed from.
    pub proof fn lemma_parse_bytes(subsystem: Subsystem, bytes: Seq<u8>, at: int)
        requires
            0 <= at,
            at + OperationKind::spec_len(subsystem) <= bytes.len(),
            OperationKind::spec_parse(subsystem, bytes, at) is Some,
        ensures
            OperationKind::spec_parse(subsystem, bytes, at)->0.spec_subsystem() == subsystem,
            OperationKind::spec_parse(subsystem, bytes, at)->0.spec_bytes() == bytes.subrange(
                at,
                at + OperationKind::spec_len(subsystem),
            ),
    {
        let kind = OperationKind::spec_parse(subsystem, bytes, at)->0;
        let n = OperationKind::spec_len(subsystem) as int;
        match subsystem {
            Subsystem::Memory => {
                lemma_le64_at_bytes(bytes, at + 1);
                lemma_le64_at_bytes(bytes, at + 9);
                hash::Hash::lemma_from_to_bytes(bytes, at + 17);
            },
            Subsystem::Filesystem => {
                hash::Hash::lemma_from_to_bytes(bytes, at + 1);
                hash::Hash::lemma_from_to_bytes(bytes, at + 33);
                hash::Hash::lemma_from_to_bytes(bytes, at + 65);
            },
            Subsystem::Boot => {},
            Subsystem::Process => {
                lemma_le64_at_bytes(bytes, at + 1);
                hash::Hash::lemma_from_to_bytes(bytes, at + 9);
            },
        }
        assert(kind.spec_bytes() =~= bytes.subrange(at, at + n));
    }
}

impl OperationProof {
    /// The proof whose byte form is `bytes`, if there is one.
    pub open spec fn spec_deserialize(bytes: Seq<u8>) -> Option<OperationProof> {
        if bytes.len() < 9 {
            None
        } else {
            match Subsystem::spec_from_tag(bytes[8]) {
                None => None,
                Some(subsystem) => {
                    let n = OperationKind::spec_len(subsystem) as int;
                    if bytes.len() != 113 + n {
                        None
                    } else {
                        match OperationKind::spec_parse(subsystem, bytes, 9) {
                            None => None,
                            Some(kind) => Some(
                                OperationProof {
                                    op_id: le64_at(bytes, 0),
                                    kind,
                                    prev_state: hash::Hash::from_bytes_at(bytes, 9 + n),
                                    new_state: hash::Hash::from_bytes_at(bytes, 41 + n),
                                    timestamp: le64_at(bytes, 73 + n),
                                    signature: hash::Hash::from_bytes_at(bytes, 81 + n),
                                },
                            ),
                        }
                    }
                },
            }
        }
    }

    /// Reads a proof from its byte form. Fails unless `bytes` is exactly the
    /// byte form of some proof.
    pub fn deserialize(bytes: &[u8]) -> (proof: Option<OperationProof>)
        ensures
            proof == OperationProof::spec_deserialize(bytes@),
            proof matches Some(p) ==> p.spec_serialize() == bytes@,
            proof is None ==> forall|p: OperationProof| p.spec_serialize() != bytes@,
    {
        proof {
            OperationProof::lemma_serialize_deserialize(bytes@);
            if OperationProof::spec_deserialize(bytes@) is None {
                assert forall|p: OperationProof| p.spec_serialize() != bytes@ by {
                    OperationProof::lemma_deserialize_serialize(p);
                }
            }
        }
        let len = bytes.len();
        if len < 9 {
            return None;
        }
        let subsystem = match Subsystem::from_tag(bytes[8]) {
            Some(s) => s,
            None => { return None; },
        };
        let n = OperationKind::encoded_len(subsystem);
        if len != PROOF_FIXED_LEN + n {
            return None;
        }
        let kind = match OperationKind::parse(subsystem, bytes, 9) {
            Some(k) => k,
            None => { return None; },
        };
        Some(
            OperationProof {
                op_id: read_u64_le(bytes, 0),
                kind,
                prev_state: hash::Hash::read_bytes(bytes, 9 + n),
                new_state: hash::Hash::read_bytes(bytes, 41 + n),
                timestamp: read_u64_le(bytes, 73 + n),
                signature: hash::Hash::read_bytes(bytes, 81 + n),
            },
        )
    }

    /// The byte form of a proof has the length of its subsystem, and the
    /// subsystem's tag stands at offset 8.
    pub proof fn lemma_serialize_shape(self)
        ensures
            self.spec_serialize().len() == OperationProof::spec_len(self.spec_subsystem()),
            self.spec_serialize()[8] == self.spec_subsystem().spec_tag(),
    {
        self.kind.lemma_bytes_len();
    }

    /// Reading back the byte form of a proof gives the proof.
    pub proof fn lemma_deserialize_serialize(self)
        ensures
            OperationProof::spec_deserialize(self.spec_serialize()) == Some(self),
    {
        let bytes = self.spec_serialize();
        let subsystem = self.spec_subsystem();
        let n = OperationKind::spec_len(subsystem) as int;
        self.lemma_serialize_shape();
        self.kind.lemma_bytes_len();
        assert(bytes.subrange(0, 8) =~= le64(self.op_id));
        assert(bytes.subrange(9, 9 + n) =~= self.kind.spec_bytes());
        assert(bytes.subrange(9 + n, 41 + n) =~= self.prev_state.to_bytes());
        assert(bytes.subrange(41 + n, 73 + n) =~= self.new_state.to_bytes());
        assert(bytes.subrange(73 + n, 81 + n) =~= le64(self.timestamp));
        assert(bytes.subrange(81 + n, 113 + n) =~= self.signature.to_bytes());
        lemma_le64_embedded(bytes, 0, self.op_id);
        self.kind.lemma_parse_embedded(bytes, 9);
        hash::Hash::lemma_from_bytes_embedded(bytes, 9 + n, self.prev_state);
        hash::Hash::lemma_from_bytes_embedded(bytes, 41 + n, self.new_state);
        lemma_le64_embedded(bytes, 73 + n, self.timestamp);
        hash::Hash::lemma_from_bytes_embedded(bytes, 81 + n, self.signature);
    }

    /// The byte form of a proof read from `bytes` is `bytes`.
    pub proof fn lemma_serialize_deserialize(bytes: Seq<u8>)
        ensures
            OperationProof::spec_deserialize(bytes) matches Some(p) ==> p.spec_serialize() == bytes,
    {
        if let Some(p) = OperationProof::spec_deserialize(bytes) {
            let subsystem = Subsystem::spec_from_tag(bytes[8])->0;
            let n = OperationKind::spec_len(subsystem) as int;
            OperationKind::lemma_parse_bytes(subsystem, bytes, 9);
            lemma_le64_at_bytes(bytes, 0);
            hash::Hash::lemma_from_to_bytes(bytes, 9 + n);
            hash::Hash::lemma_from_to_bytes(bytes, 41 + n);
            lemma_le64_at_bytes(bytes, 73 + n);
            hash::Hash::lemma_from_to_bytes(bytes, 81 + n);
            assert(p.spec_subsystem() == subsystem);
            assert(p.spec_serialize() =~= bytes);
        }
    }
}

/// An operation that waits for its proof: what happened and when. The
/// operation id and the state it starts from are given when it is sealed.
#[derive(Clone, Copy, Debug, PartialEq, Eq, Structural)]
pub struct PendingOperation {
    pub kind: OperationKind,
    pub timestamp: u64,
}

impl PendingOperation {
    /// The proof of the operation, as operation `op_id` on the state
    /// `prev_state`. A boot stage is brought to the state of that stage and
    /// cycle count; every other operation to the old state combined with the
    /// hash of the evidence.
    pub open spec fn spec_seal(self, op_id: u64, prev_state: hash::Hash) -> OperationProof {
        match self.kind {
            OperationKind::Boot { stage } => OperationProof::spec_seal(
                op_id,
                self.kind,
                prev_state,
                boot_state(stage, self.timestamp),
                self.timestamp,
            ),
            _ => OperationProof::spec_seal(
                op_id,
                self.kind,
                prev_state,
                transition(prev_state, self.kind),
                self.timestamp,
            ),
        }
    }

    /// Makes and signs the proof of the operation, as operation `op_id` on
    /// the state `prev_state`.
    pub fn seal(&self, op_id: u64, prev_state: hash::Hash) -> (proof: OperationProof)
        ensures
            proof == self.spec_seal(op_id, prev_state),
            proof.is_sealed(),
            proof.op_id == op_id,
            proof.prev_state == prev_state,
            proof.kind == self.kind,
    {
        match self.kind {
            OperationKind::Boot { stage } => create_boot_proof(op_id, prev_state, self.timestamp, stage),
            _ => seal_transition(op_id, prev_state, self.timestamp, self.kind),
        }
    }
}

} // verus!
