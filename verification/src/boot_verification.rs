//! The boot-verification driver: a small state machine that sequences the
//! proofs of the boot stages.
//!
//! The stages are reached in a fixed order. Each transition makes a boot
//! proof that starts from the driver's chain tip and brings it to the state
//! of the stage reached. Errors met on the way are kept for the panic
//! handler, the most recent thirty-two of them.

use vstd::prelude::*;
use std::collections::VecDeque;
use crate::hash;
use crate::operation_proofs::{boot_state, create_boot_proof, BootStage, OperationKind, OperationProof};
use crate::verification::{check_proof, StorageError, VerificationError, VerificationRegistry};

verus! {

/// Number of error messages that the driver keeps.
pub const MAX_BOOT_ERRORS: usize = 32;

/// The stage that follows `stage` in the boot sequence, if any.
pub open spec fn spec_successor(stage: BootStage) -> Option<BootStage> {
    match stage {
        BootStage::Start => Some(BootStage::GDTLoaded),
        BootStage::GDTLoaded => Some(BootStage::IDTLoaded),
        BootStage::IDTLoaded => Some(BootStage::MemoryInitialized),
        BootStage::MemoryInitialized => Some(BootStage::HeapInitialized),
        BootStage::HeapInitialized => Some(BootStage::SchedulerReady),
        BootStage::SchedulerReady => Some(BootStage::FilesystemReady),
        BootStage::FilesystemReady => Some(BootStage::Complete),
        BootStage::Complete => None,
    }
}

/// The stage that follows `stage` in the boot sequence, if any.
pub fn successor(stage: BootStage) -> (next: Option<BootStage>)
    ensures
        next == spec_successor(stage),
        next matches Some(n) ==> n.spec_tag() == stage.spec_tag() + 1,
{
    match stage {
        BootStage::Start => Some(BootStage::GDTLoaded),
        BootStage::GDTLoaded => Some(BootStage::IDTLoaded),
        BootStage::IDTLoaded => Some(BootStage::MemoryInitialized),
        BootStage::MemoryInitialized => Some(BootStage::HeapInitialized),
        BootStage::HeapInitialized => Some(BootStage::SchedulerReady),
        BootStage::SchedulerReady => Some(BootStage::FilesystemReady),
        BootStage::FilesystemReady => Some(BootStage::Complete),
        BootStage::Complete => None,
    }
}

/// The error messages kept after one more: the new one last, the oldest
/// gone if there were thirty-two already.
pub open spec fn errors_after(kept: Seq<&'static str>, message: &'static str) -> Seq<&'static str> {
    if kept.len() >= MAX_BOOT_ERRORS {
        kept.skip(1).push(message)
    } else {
        kept.push(message)
    }
}

/// Number of messages kept when `logged` were logged: all of them up to
/// thirty-two.
pub open spec fn spec_kept_count(logged: u64) -> nat {
    if logged < MAX_BOOT_ERRORS {
        logged as nat
    } else {
        MAX_BOOT_ERRORS as nat
    }
}

/// The boot-verification driver.
pub struct BootVerifier {
    current_stage: BootStage,
    chain_tip: hash::Hash,
    start_tsc: u64,
    last_tsc: u64,
    errors: VecDeque<&'static str>,
    error_count: u64,
}

impl BootVerifier {
    /// The stage that the boot sequence has reached.
    pub closed spec fn stage(self) -> BootStage {
        self.current_stage
    }

    /// The state of the boot subsystem: the new state of the last boot
    /// proof made, or the zero hash before the first.
    pub closed spec fn tip(self) -> hash::Hash {
        self.chain_tip
    }

    /// The error messages kept, oldest first.
    pub closed spec fn kept_errors(self) -> Seq<&'static str> {
        self.errors@
    }

    /// Number of errors logged, kept or not.
    pub closed spec fn spec_error_count(self) -> u64 {
        self.error_count
    }

    /// Cycle count at which the boot began.
    pub closed spec fn spec_start_tsc(self) -> u64 {
        self.start_tsc
    }

    /// Cycle count of the last stage reached.
    pub closed spec fn spec_last_tsc(self) -> u64 {
        self.last_tsc
    }

    /// The invariant of a driver: it keeps every message logged up to
    /// thirty-two, and thirty-two from then on.
    pub closed spec fn wf(self) -> bool {
        self.errors@.len() == spec_kept_count(self.error_count)
    }

    /// A driver never keeps more than thirty-two messages: as many as were
    /// logged, up to that bound.
    pub proof fn lemma_ring_bounded(self)
        requires
            self.wf(),
        ensures
            self.kept_errors().len() <= MAX_BOOT_ERRORS,
            self.kept_errors().len() == spec_kept_count(self.spec_error_count()),
    {
    }

    /// A driver at the start of the boot sequence.
    pub fn new() -> (driver: BootVerifier)
        ensures
            driver.wf(),
            driver.stage() == BootStage::Start,
            driver.tip() == hash::Hash::spec_zero(),
            driver.kept_errors() == Seq::<&'static str>::empty(),
            driver.spec_error_count() == 0,
            driver.spec_start_tsc() == 0,
            driver.spec_last_tsc() == 0,
    {
        BootVerifier {
            current_stage: BootStage::Start,
            chain_tip: hash::Hash::zero(),
            start_tsc: 0,
            last_tsc: 0,
            errors: VecDeque::new(),
            error_count: 0,
        }
    }

    /// Begins the boot sequence at cycle count `tsc_now`: the driver goes
    /// back to the start, with no stage reached and no error kept.
    pub fn start_boot(&mut self, tsc_now: u64)
        ensures
            final(self).wf(),
            final(self).stage() == BootStage::Start,
            final(self).tip() == hash::Hash::spec_zero(),
            final(self).kept_errors() == Seq::<&'static str>::empty(),
            final(self).spec_error_count() == 0,
            final(self).spec_start_tsc() == tsc_now,
            final(self).spec_last_tsc() == tsc_now,
    {
        self.current_stage = BootStage::Start;
        self.chain_tip = hash::Hash::zero();
        self.start_tsc = tsc_now;
        self.last_tsc = tsc_now;
        self.errors = VecDeque::new();
        self.error_count = 0;
    }

    /// Records that the boot sequence reached `stage` at cycle count
    /// `tsc_now`, and makes the proof of it as operation `op_id`. Only the
    /// stage that follows the current one can be reached; any other is out
    /// of order and leaves the driver as it was.
    pub fn verify_stage(&mut self, stage: BootStage, tsc_now: u64, op_id: u64) -> (result: Result<
        OperationProof,
        VerificationError,
    >)
        requires
            old(self).wf(),
        ensures
            final(self).wf(),
            spec_successor(old(self).stage()) == Some(stage) ==> {
                &&& result == Ok::<OperationProof, VerificationError>(
                    OperationProof::spec_seal(
                        op_id,
                        OperationKind::Boot { stage },
                        old(self).tip(),
                        boot_state(stage, tsc_now),
                        tsc_now,
                    ),
                )
                &&& result->Ok_0.is_sealed()
                &&& final(self).stage() == stage
                &&& final(self).tip() == boot_state(stage, tsc_now)
                &&& final(self).kept_errors() == old(self).kept_errors()
                &&& final(self).spec_error_count() == old(self).spec_error_count()
                &&& final(self).spec_start_tsc() == old(self).spec_start_tsc()
                &&& final(self).spec_last_tsc() == tsc_now
            },
            spec_successor(old(self).stage()) != Some(stage) ==> {
                &&& result == Err::<OperationProof, VerificationError>(VerificationError::OutOfOrder)
                &&& *final(self) == *old(self)
            },
    {
        match successor(self.current_stage) {
            Some(next) => {
                if next != stage {
                    return Err(VerificationError::OutOfOrder);
                }
            },
            None => {
                return Err(VerificationError::OutOfOrder);
            },
        }
        let proof = create_boot_proof(op_id, self.chain_tip, tsc_now, stage);
        self.current_stage = stage;
        self.chain_tip = proof.new_state;
        self.last_tsc = tsc_now;
        Ok(proof)
    }

    /// Logs an error met during boot. Before the boot is complete the
    /// message is kept, in place of the oldest if thirty-two are kept
    /// already, and counted; afterwards it is ignored. Returns whether it was
    /// kept.
    pub fn log_error(&mut self, message: &'static str) -> (kept: bool)
        requires
            old(self).wf(),
        ensures
            final(self).wf(),
            final(self).stage() == old(self).stage(),
            final(self).tip() == old(self).tip(),
            final(self).spec_start_tsc() == old(self).spec_start_tsc(),
            final(self).spec_last_tsc() == old(self).spec_last_tsc(),
            kept == (old(self).stage() != BootStage::Complete),
            kept ==> final(self).kept_errors() == errors_after(old(self).kept_errors(), message),
            final(self).kept_errors().len() <= MAX_BOOT_ERRORS,
            kept ==> final(self).spec_error_count() == if old(self).spec_error_count() < u64::MAX {
                (old(self).spec_error_count() + 1) as u64
            } else {
                old(self).spec_error_count()
            },
            !kept ==> *final(self) == *old(self),
    {
        if self.current_stage == BootStage::Complete {
            return false;
        }
        if self.errors.len() >= MAX_BOOT_ERRORS {
            let _ = self.errors.pop_front();
        }
        self.errors.push_back(message);
        if self.error_count < u64::MAX {
            self.error_count = self.error_count + 1;
        }
        true
    }

    /// The stage that the boot sequence has reached.
    pub fn current_stage(&self) -> (stage: BootStage)
        ensures
            stage == self.stage(),
    {
        self.current_stage
    }

    /// The stage that comes next, if the boot is not complete.
    pub fn next_stage(&self) -> (next: Option<BootStage>)
        ensures
            next == spec_successor(self.stage()),
    {
        successor(self.current_stage)
    }

    /// Number of stages verified so far.
    pub fn stages_verified(&self) -> (n: usize)
        ensures
            n == self.stage().spec_tag(),
    {
        self.current_stage.tag() as usize
    }

    /// Whether the boot sequence is complete.
    pub fn is_complete(&self) -> (done: bool)
        ensures
            done == (self.stage() == BootStage::Complete),
    {
        self.current_stage == BootStage::Complete
    }

    /// The state of the boot subsystem.
    pub fn chain_tip(&self) -> (tip: hash::Hash)
        ensures
            tip == self.tip(),
    {
        self.chain_tip
    }

    /// Cycles between the start of the boot and the last stage reached; none
    /// if the counter went backwards.
    pub fn get_boot_time(&self) -> (cycles: u64)
        ensures
            cycles == if self.spec_last_tsc() >= self.spec_start_tsc() {
                (self.spec_last_tsc() - self.spec_start_tsc()) as u64
            } else {
                0
            },
    {
        if self.last_tsc >= self.start_tsc {
            self.last_tsc - self.start_tsc
        } else {
            0
        }
    }

    /// Number of errors logged, kept or not.
    pub fn error_count(&self) -> (n: u64)
        ensures
            n == self.spec_error_count(),
    {
        self.error_count
    }

    /// The error messages kept, oldest first: what the panic handler
    /// writes out.
    pub fn errors(&self) -> (out: Vec<&'static str>)
        requires
            self.wf(),
        ensures
            out@ == self.kept_errors(),
            out@.len() <= MAX_BOOT_ERRORS,
            out@.len() == spec_kept_count(self.spec_error_count()),
    {
        let n = self.errors.len();
        let mut out: Vec<&'static str> = Vec::new();
        let mut i: usize = 0;
        while i < n
            invariant
                i <= n,
                n == self.errors@.len(),
                out@ == self.errors@.take(i as int),
            decreases n - i,
        {
            out.push(self.errors[i]);
            assert(out@ =~= self.errors@.take(i + 1));
            i += 1;
        }
        assert(self.errors@.take(n as int) =~= self.errors@);
        out
    }
}

/// Takes the boot sequence one stage further, as one step of driver and
/// registry together: the proof that `stage` was reached at cycle count
/// `tsc_now` is made with the registry's next operation id and the driver's
/// chain tip, and registered. Only if the registry accepts it does the
/// driver move on. A stage out of order, a proof that the registry refuses
/// or a full log leaves both as they were.
pub fn advance(
    driver: &mut BootVerifier,
    registry: &mut VerificationRegistry,
    stage: BootStage,
    tsc_now: u64,
) -> (result: Result<OperationProof, VerificationError>)
    requires
        old(driver).wf(),
        old(registry).wf(),
    ensures
        final(driver).wf(),
        final(registry).wf(),
        ({
            let proof = OperationProof::spec_seal(
                old(registry).spec_next_op_id(),
                OperationKind::Boot { stage },
                old(driver).tip(),
                boot_state(stage, tsc_now),
                tsc_now,
            );
            if spec_successor(old(driver).stage()) != Some(stage) {
                &&& result == Err::<OperationProof, VerificationError>(VerificationError::OutOfOrder)
                &&& *final(driver) == *old(driver)
                &&& *final(registry) == *old(registry)
            } else {
                match check_proof(old(registry).accepted(), proof) {
                    Some(e) => {
                        &&& result == Err::<OperationProof, VerificationError>(e)
                        &&& *final(driver) == *old(driver)
                        &&& *final(registry) == *old(registry)
                    },
                    None => if old(registry).spec_storage().fits(
                        proof.spec_serialize().len() as int,
                    ) {
                        &&& result == Ok::<OperationProof, VerificationError>(proof)
                        &&& final(registry).accepted() == old(registry).accepted().push(proof)
                        &&& final(registry).spec_next_op_id() == old(registry).spec_next_op_id() + 1
                        &&& final(driver).stage() == stage
                        &&& final(driver).tip() == boot_state(stage, tsc_now)
                        &&& final(driver).kept_errors() == old(driver).kept_errors()
                        &&& final(driver).spec_error_count() == old(driver).spec_error_count()
                        &&& final(driver).spec_start_tsc() == old(driver).spec_start_tsc()
                        &&& final(driver).spec_last_tsc() == tsc_now
                    } else {
                        &&& result == Err::<OperationProof, VerificationError>(
                            VerificationError::StorageFailed { io: StorageError::Full },
                        )
                        &&& *final(driver) == *old(driver)
                        &&& *final(registry) == *old(registry)
                    },
                }
            }
        }),
{
    match successor(driver.current_stage) {
        Some(next) => {
            if next != stage {
                return Err(VerificationError::OutOfOrder);
            }
        },
        None => {
            return Err(VerificationError::OutOfOrder);
        },
    }
    let proof = create_boot_proof(registry.next_op_id(), driver.chain_tip, tsc_now, stage);
    match registry.register_proof(proof) {
        Err(e) => Err(e),
        Ok(()) => {
            driver.current_stage = stage;
            driver.chain_tip = proof.new_state;
            driver.last_tsc = tsc_now;
            Ok(proof)
        },
    }
}

} // verus!
