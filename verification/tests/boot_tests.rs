use vekos::boot_verification::{successor, BootVerifier, MAX_BOOT_ERRORS};
use vekos::hash;
use vekos::operation_proofs::{create_boot_proof, BootStage, OperationKind};
use vekos::verification::VerificationError;

const STAGES: [BootStage; 7] = [
    BootStage::GDTLoaded,
    BootStage::IDTLoaded,
    BootStage::MemoryInitialized,
    BootStage::HeapInitialized,
    BootStage::SchedulerReady,
    BootStage::FilesystemReady,
    BootStage::Complete,
];

#[test]
fn stages_follow_in_order() {
    let mut stage = BootStage::Start;
    for next in STAGES {
        assert_eq!(successor(stage), Some(next));
        stage = next;
    }
    assert_eq!(successor(BootStage::Complete), None);
}

#[test]
fn driver_walks_the_boot_sequence() {
    let mut driver = BootVerifier::new();
    driver.start_boot(1000);
    assert_eq!(driver.current_stage(), BootStage::Start);
    assert_eq!(driver.chain_tip(), hash::Hash::zero());
    let mut tip = hash::Hash::zero();
    for (i, stage) in STAGES.iter().enumerate() {
        assert_eq!(driver.next_stage(), Some(*stage));
        let tsc = 1000 + 10 * (i as u64 + 1);
        let proof = driver.verify_stage(*stage, tsc, i as u64 + 1).unwrap();
        assert_eq!(proof, create_boot_proof(i as u64 + 1, tip, tsc, *stage));
        assert_eq!(proof.kind, OperationKind::Boot { stage: *stage });
        assert_eq!(proof.prev_state, tip);
        assert!(proof.verify_signature());
        tip = proof.new_state;
        assert_eq!(driver.chain_tip(), tip);
        assert_eq!(driver.current_stage(), *stage);
        assert_eq!(driver.stages_verified(), i + 1);
    }
    assert!(driver.is_complete());
    assert_eq!(driver.next_stage(), None);
    assert_eq!(driver.get_boot_time(), 70);
}

#[test]
fn stage_out_of_sequence_is_refused() {
    let mut driver = BootVerifier::new();
    assert_eq!(
        driver.verify_stage(BootStage::IDTLoaded, 5, 1),
        Err(VerificationError::OutOfOrder)
    );
    assert_eq!(driver.verify_stage(BootStage::Start, 5, 1), Err(VerificationError::OutOfOrder));
    assert_eq!(driver.current_stage(), BootStage::Start);
    assert_eq!(driver.chain_tip(), hash::Hash::zero());
    assert!(driver.verify_stage(BootStage::GDTLoaded, 5, 1).is_ok());
    assert_eq!(
        driver.verify_stage(BootStage::GDTLoaded, 6, 2),
        Err(VerificationError::OutOfOrder)
    );
    for stage in &STAGES[1..] {
        assert!(driver.verify_stage(*stage, 7, 2).is_ok());
    }
    assert_eq!(
        driver.verify_stage(BootStage::Complete, 8, 9),
        Err(VerificationError::OutOfOrder)
    );
}

#[test]
fn error_ring_keeps_the_last_thirty_two() {
    let names: Vec<&'static str> = vec![
        "e00", "e01", "e02", "e03", "e04", "e05", "e06", "e07", "e08", "e09", "e10", "e11", "e12",
        "e13", "e14", "e15", "e16", "e17", "e18", "e19", "e20", "e21", "e22", "e23", "e24", "e25",
        "e26", "e27", "e28", "e29", "e30", "e31", "e32", "e33", "e34",
    ];
    let mut driver = BootVerifier::new();
    assert_eq!(driver.errors(), Vec::<&'static str>::new());
    for (i, name) in names.iter().enumerate() {
        assert!(driver.log_error(name));
        assert_eq!(driver.error_count(), i as u64 + 1);
        assert!(driver.errors().len() <= MAX_BOOT_ERRORS);
    }
    assert_eq!(driver.errors(), names[3..].to_vec());
    assert_eq!(MAX_BOOT_ERRORS, 32);
}

#[test]
fn errors_after_completion_are_not_captured() {
    let mut driver = BootVerifier::new();
    assert!(driver.log_error("IDT verification failed"));
    for stage in STAGES {
        driver.verify_stage(stage, 1, 1).unwrap();
    }
    assert!(!driver.log_error("late"));
    assert_eq!(driver.errors(), vec!["IDT verification failed"]);
    assert_eq!(driver.error_count(), 1);
}

#[test]
fn start_boot_resets_driver() {
    let mut driver = BootVerifier::new();
    driver.verify_stage(BootStage::GDTLoaded, 9, 1).unwrap();
    driver.log_error("warning");
    driver.start_boot(50);
    assert_eq!(driver.current_stage(), BootStage::Start);
    assert_eq!(driver.chain_tip(), hash::Hash::zero());
    assert_eq!(driver.error_count(), 0);
    assert_eq!(driver.errors().len(), 0);
    assert_eq!(driver.get_boot_time(), 0);
    driver.verify_stage(BootStage::GDTLoaded, 40, 1).unwrap();
    assert_eq!(driver.get_boot_time(), 0);
}
