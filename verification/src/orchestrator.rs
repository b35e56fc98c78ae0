//! The scan loop's decisions.
//!
//! The loop itself performs I/O (connect, scan, publish, sleep) and so
//! lives outside this crate; every decision it takes is a function here.
//! The loop has two states: `Idle` between cycles and `Scanning` while a
//! cycle runs. It enters `Scanning` at each due tick, returns to `Idle`
//! unconditionally when the cycle ends — a failed cycle is tolerated,
//! never terminal — and never stops on its own.

use vstd::prelude::*;

verus! {

/// Where the scan loop stands.
#[derive(Clone, Copy, PartialEq, Eq, Structural, Debug)]
pub enum LoopState {
    /// Between cycles, waiting for the next tick.
    Idle,
    /// A scan-and-publish cycle is in progress.
    Scanning,
}

/// What the loop is told happened.
#[derive(Clone, Copy, PartialEq, Eq, Structural, Debug)]
pub enum LoopEvent {
    /// The inter-cycle delay elapsed (or the process just started).
    TickDue,
    /// The running cycle finished; `true` means it completed without
    /// error, `false` that some error was caught at the cycle boundary.
    CycleEnded(bool),
}

/// What the loop must do next.
#[derive(Clone, Copy, PartialEq, Eq, Structural, Debug)]
pub enum LoopAction {
    /// Run one scan-and-publish cycle.
    BeginCycle,
    /// Sleep the fixed inter-cycle delay, then report a due tick.
    WaitForTick,
}

/// One step of the loop: from a state and an event to the next state
/// and the action to perform. A due tick while idle begins a cycle; the
/// end of a cycle — successful or failed alike — returns to idle and
/// waits. Mismatched combinations change nothing: the loop never stops.
pub fn loop_step(state: LoopState, event: LoopEvent) -> (r: (LoopState, LoopAction))
    ensures
        state is Idle && event is TickDue ==> r == (LoopState::Scanning, LoopAction::BeginCycle),
        state is Scanning && event is CycleEnded ==> r == (
            LoopState::Idle,
            LoopAction::WaitForTick,
        ),
        state is Idle && event is CycleEnded ==> r == (LoopState::Idle, LoopAction::WaitForTick),
        state is Scanning && event is TickDue ==> r == (
            LoopState::Scanning,
            LoopAction::BeginCycle,
        ),
{
    match (state, event) {
        (LoopState::Idle, LoopEvent::TickDue) => (LoopState::Scanning, LoopAction::BeginCycle),
        (LoopState::Scanning, LoopEvent::CycleEnded(_)) => (
            LoopState::Idle,
            LoopAction::WaitForTick,
        ),
        (LoopState::Idle, LoopEvent::CycleEnded(_)) => (LoopState::Idle, LoopAction::WaitForTick),
        (LoopState::Scanning, LoopEvent::TickDue) => (
            LoopState::Scanning,
            LoopAction::BeginCycle,
        ),
    }
}

/// What the process does once the startup connection attempt returns.
#[derive(Clone, Copy, PartialEq, Eq, Structural, Debug)]
pub enum StartupDecision {
    /// The broker accepted the connection: enter the scan loop.
    EnterScanLoop,
    /// The broker could not be reached: exit with a non-zero status,
    /// before any scan is attempted.
    AbortProcess,
}

/// The startup rule: scanning begins only on a successful connection;
/// an unreachable broker aborts the process.
pub fn startup_decision(connected: bool) -> (d: StartupDecision)
    ensures
        d == StartupDecision::EnterScanLoop <==> connected,
        d == StartupDecision::AbortProcess <==> !connected,
{
    if connected {
        StartupDecision::EnterScanLoop
    } else {
        StartupDecision::AbortProcess
    }
}

} // verus!
