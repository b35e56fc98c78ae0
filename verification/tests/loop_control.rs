//! Behaviour of the scan loop's decisions.

use bluetooth_scanner::orchestrator::loop_step;
use bluetooth_scanner::orchestrator::startup_decision;
use bluetooth_scanner::orchestrator::LoopAction;
use bluetooth_scanner::orchestrator::LoopEvent;
use bluetooth_scanner::orchestrator::LoopState;
use bluetooth_scanner::orchestrator::StartupDecision;

#[test]
fn tick_begins_a_cycle() {
    let (state, action) = loop_step(LoopState::Idle, LoopEvent::TickDue);
    assert_eq!(state, LoopState::Scanning);
    assert_eq!(action, LoopAction::BeginCycle);
}

#[test]
fn successful_cycle_returns_to_idle() {
    let (state, action) = loop_step(LoopState::Scanning, LoopEvent::CycleEnded(true));
    assert_eq!(state, LoopState::Idle);
    assert_eq!(action, LoopAction::WaitForTick);
}

#[test]
fn failed_cycle_is_tolerated() {
    let (state, action) = loop_step(LoopState::Scanning, LoopEvent::CycleEnded(false));
    assert_eq!(state, LoopState::Idle);
    assert_eq!(action, LoopAction::WaitForTick);
}

#[test]
fn connection_success_enters_loop() {
    assert_eq!(startup_decision(true), StartupDecision::EnterScanLoop);
}

#[test]
fn connection_failure_aborts_before_any_scan() {
    assert_eq!(startup_decision(false), StartupDecision::AbortProcess);
}
