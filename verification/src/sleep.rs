//! Emulated sleeping: a thread suspends until its timeout passes or a
//! signal interrupts it.
use vstd::prelude::*;

use crate::errno::Errno;
use crate::scheduler::{Outcome, YieldUntil};
use crate::state::{FizzleState, LocalState, SignalInfo};
use crate::table::Table;

verus! {

#[derive(Clone, Copy, Debug, PartialEq, Eq, Structural)]
pub enum SleepState {
    Start,
    Finish,
}

/// A sleep of the given number of nanoseconds (`None`: until a signal arrives).
pub struct SleepEvent {
    pub duration: Option<u128>,
    pub state: SleepState,
}

/// The local state with a new signal table and nothing else changed.
pub open spec fn with_signals(l: LocalState, t: Table<SignalInfo>) -> LocalState {
    LocalState { signals: t, ..l }
}

/// How long a sleep yields for.
pub open spec fn sleep_yield(duration: Option<u128>) -> YieldUntil {
    match duration {
        Some(d) => YieldUntil::Timeout(d),
        None => YieldUntil::Indefinite,
    }
}

impl SleepEvent {
    pub fn new(duration: Option<u128>) -> (r: Self)
        ensures
            r.duration == duration,
            r.state == SleepState::Start,
    {
        Self { duration, state: SleepState::Start }
    }

    /// First run: marks thread `current` suspended and not interrupted, and yields for
    /// the duration. Second run: clears the suspension and fails with `EINTR` when a
    /// signal interrupted the sleep.
    pub fn run(&mut self, state: &mut FizzleState, current: u64) -> (r: Outcome<(), Errno>)
        requires
            old(state).wf(),
            old(state).local.signals@.contains_key(current as int),
        ensures
            final(state).wf(),
            final(self).duration == old(self).duration,
            final(self).state == SleepState::Finish,
            final(state).global == old(state).global,
            final(state).local == with_signals(old(state).local, final(state).local.signals),
            old(self).state == SleepState::Start ==> {
                &&& r == Outcome::<(), Errno>::Yield(sleep_yield(old(self).duration))
                &&& final(state).local.signals@ == old(state).local.signals@.insert(
                    current as int,
                    SignalInfo { sigsuspend: true, interrupted: false },
                )
            },
            old(self).state == SleepState::Finish ==> {
                let info = old(state).local.signals@[current as int];
                &&& r == (if info.interrupted {
                    Outcome::<(), Errno>::Error(Errno::EINTR)
                } else {
                    Outcome::<(), Errno>::Success(())
                })
                &&& final(state).local.signals@ == old(state).local.signals@.insert(
                    current as int,
                    SignalInfo { sigsuspend: false, interrupted: info.interrupted },
                )
            },
    {
        let info = match state.local.signals.get(current as i128) {
            Some(i) => *i,
            None => {
                assert(false);
                SignalInfo { sigsuspend: false, interrupted: false }
            },
        };
        match self.state {
            SleepState::Start => {
                self.state = SleepState::Finish;
                state.local.signals.insert(
                    current as i128,
                    SignalInfo { sigsuspend: true, interrupted: false },
                );
                match self.duration {
                    Some(d) => Outcome::Yield(YieldUntil::Timeout(d)),
                    None => Outcome::Yield(YieldUntil::Indefinite),
                }
            },
            SleepState::Finish => {
                state.local.signals.insert(
                    current as i128,
                    SignalInfo { sigsuspend: false, interrupted: info.interrupted },
                );
                if info.interrupted {
                    Outcome::Error(Errno::EINTR)
                } else {
                    Outcome::Success(())
                }
            },
        }
    }
}

} // verus!
