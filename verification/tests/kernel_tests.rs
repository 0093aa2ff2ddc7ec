use vekos::{
    schedule_due, summarize, DrawingState, QemuExitCode, TestResult, DEMAND_PAGE_ENABLED,
    MAX_ORDER, PAGE_SIZE, PALETTE_COLORS, SCHEDULE_INTERVAL_TICKS,
};

#[test]
fn drawing_state_starts_with_first_palette_colour() {
    let state = DrawingState::new();
    assert_eq!(state.current_color(), PALETTE_COLORS[0]);
    assert_eq!(state.current_color(), 0xFF000000);
}

#[test]
fn palette_and_constants() {
    assert_eq!(PALETTE_COLORS.len(), 16);
    assert_eq!(PALETTE_COLORS[1], 0xFFFF0000);
    assert_eq!(PALETTE_COLORS[15], 0xFFC0C0C0);
    assert_eq!(PAGE_SIZE, 4096);
    assert_eq!(MAX_ORDER, 11);
    assert!(DEMAND_PAGE_ENABLED);
    assert_eq!(SCHEDULE_INTERVAL_TICKS, 10);
}

#[test]
fn qemu_exit_codes() {
    assert_eq!(QemuExitCode::Success.code(), 0x10);
    assert_eq!(QemuExitCode::Failed.code(), 0x11);
}

#[test]
fn run_fails_if_any_test_failed() {
    let passed = TestResult::Passed;
    let failed = TestResult::Failed;
    assert_eq!(summarize(&[]), passed);
    assert_eq!(summarize(&[passed, passed, passed, passed, passed]), passed);
    assert_eq!(summarize(&[passed, failed, passed]), failed);
    assert_eq!(summarize(&[failed]), failed);
    assert_eq!(summarize(&[passed, passed, failed]), failed);
}

#[test]
fn scheduler_is_due_every_ten_ticks() {
    assert!(!schedule_due(0, 0));
    assert!(!schedule_due(9, 0));
    assert!(schedule_due(10, 0));
    assert!(schedule_due(25, 10));
    assert!(!schedule_due(19, 10));
    assert!(!schedule_due(5, 10));
    assert!(schedule_due(u64::MAX, 0));
}
