//! Verifiable operation chain of the VEKOS kernel.
//!
//! Every significant state transition of the kernel (a boot stage, a memory
//! operation, a filesystem mutation, a process event) is witnessed by an
//! operation proof. Proofs are linked into one hash chain per subsystem and
//! into a global Merkle tree, and are journalled into an append-only log, so
//! that the whole history can be replayed and checked later.
//!
//! The crate root also holds the few plain values that the kernel entry
//! shares with the rest of the system: the drawing palette and the exit codes
//! understood by the emulator's debug-exit device.

use vstd::prelude::*;

pub mod address;
pub mod boot_verification;
pub mod bytes;
pub mod crc32;
pub mod deferred;
pub mod hash;
pub mod hash_chain;
pub mod merkle_tree;
pub mod operation_proofs;
pub mod proof_storage;
pub mod replay;
pub mod sha256;
pub mod verification;

verus! {

/// Size of one page of physical memory, in bytes.
pub const PAGE_SIZE: usize = 4096;

/// Number of block orders managed by the buddy allocator.
pub const MAX_ORDER: usize = 11;

/// Whether pages are mapped lazily, on first access.
pub const DEMAND_PAGE_ENABLED: bool = true;

/// Number of timer ticks between two runs of the scheduler.
pub const SCHEDULE_INTERVAL_TICKS: u64 = 10;

/// The sixteen ARGB colours of the drawing palette.
pub const PALETTE_COLORS: [u32; 16] = [
    0xFF000000, 0xFFFF0000, 0xFF00FF00, 0xFF0000FF,
    0xFFFFFF00, 0xFFFF00FF, 0xFF00FFFF, 0xFFFFFFFF,
    0xFF808080, 0xFF800000, 0xFF008000, 0xFF000080,
    0xFF808000, 0xFF800080, 0xFF008080, 0xFFC0C0C0,
];

/// State of the drawing tool: the colour that the next stroke uses.
pub struct DrawingState {
    current_color: u32,
}

impl DrawingState {
    /// The colour that the next stroke uses.
    pub closed spec fn color(self) -> u32 {
        self.current_color
    }

    /// A fresh drawing state, which draws in the first palette colour
    /// (opaque black).
    pub fn new() -> (state: Self)
        ensures
            state.color() == PALETTE_COLORS[0],
            state.color() == 0xFF000000u32,
    {
        Self { current_color: PALETTE_COLORS[0] }
    }

    /// The colour that the next stroke uses.
    pub fn current_color(&self) -> (color: u32)
        ensures
            color == self.color(),
    {
        self.current_color
    }
}

/// Exit status handed to the emulator's debug-exit device.
#[derive(Debug, Clone, Copy, PartialEq, Eq, Structural)]
pub enum QemuExitCode {
    Success,
    Failed,
}

impl QemuExitCode {
    /// The value written to the debug-exit port for this status.
    pub open spec fn spec_code(self) -> u32 {
        match self {
            QemuExitCode::Success => 0x10,
            QemuExitCode::Failed => 0x11,
        }
    }

    /// The value written to the debug-exit port for this status.
    pub fn code(self) -> (value: u32)
        ensures
            value == self.spec_code(),
    {
        match self {
            QemuExitCode::Success => 0x10,
            QemuExitCode::Failed => 0x11,
        }
    }
}

/// Outcome of one self-test, or of a run of them.
#[derive(Debug, Clone, Copy, PartialEq, Eq, Structural)]
pub enum TestResult {
    Passed,
    Failed,
}

/// The outcome of a run of self-tests: failed if any of them failed.
pub fn summarize(results: &[TestResult]) -> (overall: TestResult)
    ensures
        overall == TestResult::Failed <==> exists|i: int|
            0 <= i < results@.len() && results@[i] == TestResult::Failed,
{
    let n = results.len();
    let mut failed = false;
    let mut i: usize = 0;
    while i < n
        invariant
            i <= n,
            n == results@.len(),
            failed <==> exists|j: int| 0 <= j < i && results@[j] == TestResult::Failed,
        decreases n - i,
    {
        if results[i] == TestResult::Failed {
            failed = true;
        }
        i += 1;
    }
    if failed {
        TestResult::Failed
    } else {
        TestResult::Passed
    }
}

/// Whether the scheduler is due: at least `SCHEDULE_INTERVAL_TICKS` ticks
/// have passed since it last ran. A tick counter that went backwards counts
/// as no time passed.
pub fn schedule_due(current_ticks: u64, last_schedule: u64) -> (due: bool)
    ensures
        due <==> current_ticks - last_schedule >= SCHEDULE_INTERVAL_TICKS,
{
    current_ticks >= last_schedule && current_ticks - last_schedule >= SCHEDULE_INTERVAL_TICKS
}

} // verus!
