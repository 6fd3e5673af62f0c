use vstd::prelude::*;

verus! {

/// When a yielding event wants to be resumed.
#[derive(Clone, Copy, Debug, PartialEq, Eq, Structural)]
pub enum YieldUntil {
    /// Resume only when another thread marks this one ready.
    Indefinite,
    /// Resume at once, after the scheduler has had a chance to run.
    Immediate,
    /// Reschedule after the given number of nanoseconds of emulated time.
    Reschedule(u128),
    /// Resume when woken, or after the given number of nanoseconds at the latest.
    Timeout(u128),
}

/// Work that an event hands back to the scheduler to run on its behalf.
#[derive(Clone, Copy, Debug, PartialEq, Eq, Structural)]
pub enum Task {
    /// Terminate the current thread by cancellation.
    TerminateByCancellation,
    /// Terminate the given (other) thread by cancellation.
    CancelThread(u64),
    /// Spawn the host thread of a new emulated thread.
    CreateThread,
    /// Terminate the current thread with the given return value.
    ExitThread(u64),
}

/// What running one step of an event produced.
#[derive(Clone, Copy, Debug, PartialEq, Eq, Structural)]
pub enum Outcome<S, E> {
    Success(S),
    Error(E),
    Yield(YieldUntil),
    RunTask(Task, YieldUntil),
}

} // verus!
