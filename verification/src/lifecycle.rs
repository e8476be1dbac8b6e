use vstd::prelude::*;

verus! {

/// How long shutdown waits for active runs, in seconds.
pub const GRACEFUL_TIMEOUT_SECS: u64 = 30;

/// How often shutdown looks again at the active runs, in milliseconds.
pub const POLL_INTERVAL_MS: u64 = 500;

/// What shutdown does after looking at the active runs.
#[derive(PartialEq, Eq, Structural, Clone, Copy, Debug)]
pub enum ShutdownStep {
    /// No run is active: go on with shutdown.
    Idle,
    /// Runs are still active but the time is up: go on anyway.
    TimedOut,
    /// The active runs could not be counted: go on with shutdown.
    QueryFailed,
    /// Runs are active: wait `POLL_INTERVAL_MS` and look again.
    Wait,
}

/// The next step of shutdown, given the number of active runs (`None` where they
/// could not be counted) and the milliseconds since shutdown began.
pub fn shutdown_step(active: Option<u64>, elapsed_ms: u64) -> (r: ShutdownStep)
    ensures
        r == match active {
            None => ShutdownStep::QueryFailed,
            Some(0) => ShutdownStep::Idle,
            Some(_) => if elapsed_ms >= GRACEFUL_TIMEOUT_SECS * 1000 {
                ShutdownStep::TimedOut
            } else {
                ShutdownStep::Wait
            },
        },
{
    match active {
        None => ShutdownStep::QueryFailed,
        Some(0) => ShutdownStep::Idle,
        Some(_) => if elapsed_ms >= GRACEFUL_TIMEOUT_SECS * 1000 {
            ShutdownStep::TimedOut
        } else {
            ShutdownStep::Wait
        },
    }
}

} // verus!
