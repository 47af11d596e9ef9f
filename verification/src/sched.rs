//! Decision logic of the background timer loop.
//!
//! The loop itself lives with the host application: it polls a shutdown
//! channel, runs one tick, and sleeps one period. Everything it decides —
//! when to stop, and that a failed tick never stops it — is decided here.

use vstd::prelude::*;

verus! {

/// Why a tick, or a store operation, failed.
pub enum AccrualError {
    /// Storage could not be opened or created.
    StoreUnavailable,
    /// A write could not be committed.
    TransactionFailure,
    /// The running-process snapshot could not be obtained.
    EnumerationFailure,
}

impl AccrualError {
    /// A short description for the log line of a failed operation.
    pub fn message(&self) -> (s: &'static str)
        ensures
            s@ == match self {
                AccrualError::StoreUnavailable => "storage unavailable"@,
                AccrualError::TransactionFailure => "transaction failure"@,
                AccrualError::EnumerationFailure => "process enumeration failure"@,
            },
    {
        match self {
            AccrualError::StoreUnavailable => "storage unavailable",
            AccrualError::TransactionFailure => "transaction failure",
            AccrualError::EnumerationFailure => "process enumeration failure",
        }
    }
}

/// What the timer loop found when it polled the shutdown channel,
/// non-blocking, at a period boundary.
pub enum TickSignal {
    /// A shutdown was requested.
    Shutdown,
    /// The requesting side is gone; treated as a shutdown request.
    Disconnected,
    /// No signal; carry on.
    Empty,
}

/// What the timer loop does next.
pub enum SchedulerAction {
    /// Leave the loop without firing another tick.
    Stop,
    /// Run one tick, then sleep one period.
    RunTick,
}

/// The state of the singleton scheduler: whether a shutdown has been
/// observed. Once stopped, it stays stopped.
pub struct Scheduler {
    pub stopped: bool,
}

impl Scheduler {
    /// A scheduler as started at process launch.
    pub fn new() -> (s: Scheduler)
        ensures
            !s.stopped,
    {
        Scheduler { stopped: false }
    }

    /// One period boundary: observe the polled signal and decide whether to
    /// fire the next tick. The loop stops exactly when a shutdown request
    /// (or a closed channel) has been seen, now or earlier.
    pub fn on_signal(&mut self, sig: &TickSignal) -> (a: SchedulerAction)
        ensures
            final(self).stopped == (old(self).stopped || !(sig is Empty)),
            (a is Stop) == final(self).stopped,
    {
        match sig {
            TickSignal::Empty => {},
            _ => {
                self.stopped = true;
            },
        }
        if self.stopped {
            SchedulerAction::Stop
        } else {
            SchedulerAction::RunTick
        }
    }

    /// The decision after a tick: log a failure, and carry on either way.
    /// A tick error never stops the scheduler — the outcome plays no part
    /// in whether the loop continues.
    pub fn after_tick(&self, outcome: &Result<(), AccrualError>) -> (r: (SchedulerAction, bool))
        ensures
            (r.0 is Stop) == self.stopped,
            r.1 == (outcome is Err),
    {
        let log = match outcome {
            Ok(_) => false,
            Err(_) => true,
        };
        if self.stopped {
            (SchedulerAction::Stop, log)
        } else {
            (SchedulerAction::RunTick, log)
        }
    }
}

} // verus!
