//! Emulated `pthread_spin_*`: each spinlock is a FIFO queue of threads whose
//! front holds the lock.
use vstd::prelude::*;

use crate::errno::Errno;
use crate::scheduler::{Outcome, YieldUntil};
use crate::state::{GlobalState, FizzleState, LocalState};
use crate::table::Table;

verus! {

/// The address of a `pthread_spinlock_t`, which identifies the spinlock.
#[derive(Clone, Copy, Debug, PartialEq, Eq, Hash, Structural)]
pub struct SpinlockPtr(pub usize);

impl SpinlockPtr {
    pub open spec fn key(self) -> int {
        self.0 as int
    }

    /// The spinlock at the given address.
    pub fn from_addr(addr: usize) -> (r: Self)
        ensures
            r.0 == addr,
    {
        SpinlockPtr(addr)
    }
}

/// The queue of each spinlock, front first.
pub open spec fn queues(t: Table<Vec<u64>>) -> Map<int, Seq<u64>> {
    t@.map_values(|v: Vec<u64>| v@)
}

/// The local state with a new spinlock table and nothing else changed.
pub open spec fn with_spinlocks(l: LocalState, t: Table<Vec<u64>>) -> LocalState {
    LocalState { spinlocks: t, ..l }
}

/// What `pthread_spin_lock` (or `pthread_spin_trylock` when `nonblocking`) by thread `t`
/// does to a queue `q`, and what it answers at once.
pub open spec fn lock_step(q: Seq<u64>, t: u64, nonblocking: bool) -> (Seq<u64>, Outcome<(), Errno>) {
    if q.len() == 0 {
        (q.push(t), Outcome::Success(()))
    } else if nonblocking {
        (q, Outcome::Error(Errno::EBUSY))
    } else {
        (q.push(t), Outcome::Yield(YieldUntil::Indefinite))
    }
}

/// What `pthread_spin_unlock` does to a queue: its holder leaves it.
pub open spec fn unlock_step(q: Seq<u64>) -> Seq<u64> {
    q.drop_first()
}

pub struct ThreadSpinInitEvent {
    pub lock: SpinlockPtr,
    pub shared: bool,
}

impl ThreadSpinInitEvent {
    pub fn new(lock: SpinlockPtr, shared: bool) -> (r: Self)
        ensures
            r.lock == lock,
            r.shared == shared,
    {
        Self { lock, shared }
    }

    /// Initializes the spinlock with an empty queue.
    pub fn run(&mut self, state: &mut FizzleState) -> (r: Outcome<(), ()>)
        requires
            old(state).wf(),
            !old(state).local.spinlocks@.contains_key(old(self).lock.key()),
        ensures
            final(state).wf(),
            r == Outcome::<(), ()>::Success(()),
            queues(final(state).local.spinlocks) == queues(old(state).local.spinlocks).insert(
                old(self).lock.key(),
                Seq::<u64>::empty(),
            ),
            final(state).local == with_spinlocks(old(state).local, final(state).local.spinlocks),
            final(state).global == old(state).global,
    {
        let prev = state.local.spinlocks.insert(self.lock.0 as i128, Vec::new());
        proof {
            assert(queues(state.local.spinlocks) =~= queues(old(state).local.spinlocks).insert(
                self.lock.key(),
                Seq::<u64>::empty(),
            ));
        }
        Outcome::Success(())
    }
}

pub struct ThreadSpinDestroyEvent {
    pub lock: SpinlockPtr,
}

impl ThreadSpinDestroyEvent {
    pub fn new(lock: SpinlockPtr) -> (r: Self)
        ensures
            r.lock == lock,
    {
        Self { lock }
    }

    /// Forgets an unlocked spinlock.
    pub fn run(&mut self, state: &mut FizzleState) -> (r: Outcome<(), ()>)
        requires
            old(state).wf(),
            old(state).local.spinlocks@.contains_key(old(self).lock.key()),
            old(state).local.spinlocks@[old(self).lock.key()]@.len() == 0,
        ensures
            final(state).wf(),
            r == Outcome::<(), ()>::Success(()),
            queues(final(state).local.spinlocks) == queues(old(state).local.spinlocks).remove(
                old(self).lock.key(),
            ),
            final(state).local == with_spinlocks(old(state).local, final(state).local.spinlocks),
            final(state).global == old(state).global,
    {
        let _queue = state.local.spinlocks.remove(self.lock.0 as i128);
        proof {
            assert(queues(state.local.spinlocks) =~= queues(old(state).local.spinlocks).remove(
                self.lock.key(),
            ));
        }
        Outcome::Success(())
    }
}

#[derive(Clone, Copy, Debug, PartialEq, Eq, Structural)]
pub enum ThreadSpinLockState {
    Start,
    Finish,
}

pub struct ThreadSpinLockEvent {
    pub state: ThreadSpinLockState,
    pub lock: SpinlockPtr,
    pub nonblocking: bool,
}

impl ThreadSpinLockEvent {
    pub fn new(lock: SpinlockPtr, nonblocking: bool) -> (r: Self)
        ensures
            r.state == ThreadSpinLockState::Start,
            r.lock == lock,
            r.nonblocking == nonblocking,
    {
        Self { state: ThreadSpinLockState::Start, lock, nonblocking }
    }

    /// Takes the spinlock for thread `current`: at once when it is free; otherwise fails
    /// with `EBUSY` when nonblocking, or queues the thread and yields until it is handed
    /// the lock, after which the second run succeeds.
    pub fn run(&mut self, state: &mut FizzleState, current: u64) -> (r: Outcome<(), Errno>)
        requires
            old(state).wf(),
            old(self).state == ThreadSpinLockState::Start ==> old(state).local.spinlocks@.contains_key(
                old(self).lock.key(),
            ),
        ensures
            final(state).wf(),
            final(self).lock == old(self).lock,
            final(self).nonblocking == old(self).nonblocking,
            final(self).state == ThreadSpinLockState::Finish,
            final(state).global == old(state).global,
            final(state).local == with_spinlocks(old(state).local, final(state).local.spinlocks),
            old(self).state == ThreadSpinLockState::Finish ==> r == Outcome::<(), Errno>::Success(())
                && queues(final(state).local.spinlocks) == queues(old(state).local.spinlocks),
            old(self).state == ThreadSpinLockState::Start ==> ({
                let (q, out) = lock_step(
                    old(state).local.spinlocks@[old(self).lock.key()]@,
                    current,
                    old(self).nonblocking,
                );
                &&& r == out
                &&& queues(final(state).local.spinlocks) == queues(old(state).local.spinlocks).insert(
                    old(self).lock.key(),
                    q,
                )
            }),
    {
        match self.state {
            ThreadSpinLockState::Start => {
                self.state = ThreadSpinLockState::Finish;
                let ghost k = self.lock.key();
                let mut queue = match state.local.spinlocks.remove(self.lock.0 as i128) {
                    Some(q) => q,
                    None => {
                        assert(false);
                        Vec::new()
                    },
                };
                let out = if queue.len() == 0 {
                    queue.push(current);
                    Outcome::Success(())
                } else if self.nonblocking {
                    Outcome::Error(Errno::EBUSY)
                } else {
                    queue.push(current);
                    Outcome::Yield(YieldUntil::Indefinite)
                };
                let ghost q = queue@;
                state.local.spinlocks.insert(self.lock.0 as i128, queue);
                proof {
                    assert(queues(state.local.spinlocks) =~= queues(old(state).local.spinlocks).insert(k, q));
                }
                out
            },
            ThreadSpinLockState::Finish => Outcome::Success(()),
        }
    }
}

pub struct ThreadSpinUnlockEvent {
    pub lock: SpinlockPtr,
}

impl ThreadSpinUnlockEvent {
    pub fn new(lock: SpinlockPtr) -> (r: Self)
        ensures
            r.lock == lock,
    {
        Self { lock }
    }

    /// Releases the spinlock that thread `current` holds and marks the next waiting
    /// thread, if any, ready: it now holds the lock.
    pub fn run(&mut self, state: &mut FizzleState, current: u64) -> (r: Outcome<(), ()>)
        requires
            old(state).wf(),
            old(state).local.spinlocks@.contains_key(old(self).lock.key()),
            old(state).local.spinlocks@[old(self).lock.key()]@.len() > 0,
            old(state).local.spinlocks@[old(self).lock.key()]@[0] == current,
        ensures
            final(state).wf(),
            r == Outcome::<(), ()>::Success(()),
            queues(final(state).local.spinlocks) == queues(old(state).local.spinlocks).insert(
                old(self).lock.key(),
                unlock_step(old(state).local.spinlocks@[old(self).lock.key()]@),
            ),
            final(state).local == with_spinlocks(old(state).local, final(state).local.spinlocks),
            final(state).global.ready_threads@ == ({
                let rest = unlock_step(old(state).local.spinlocks@[old(self).lock.key()]@);
                if rest.len() > 0 {
                    old(state).global.ready_threads@.push(rest[0])
                } else {
                    old(state).global.ready_threads@
                }
            }),
            final(state).global == (GlobalState { ready_threads: final(state).global.ready_threads, ..old(state).global }),
    {
        let ghost k = self.lock.key();
        let mut queue = match state.local.spinlocks.remove(self.lock.0 as i128) {
            Some(q) => q,
            None => {
                assert(false);
                Vec::new()
            },
        };
        let ghost q0 = queue@;
        let _popped = queue.remove(0);
        assert(queue@ =~= q0.drop_first());
        let next = if queue.len() > 0 {
            Some(queue[0])
        } else {
            None
        };
        let ghost q = queue@;
        state.local.spinlocks.insert(self.lock.0 as i128, queue);
        proof {
            assert(queues(state.local.spinlocks) =~= queues(old(state).local.spinlocks).insert(k, q));
        }
        if let Some(next_thread) = next {
            state.mark_thread_ready(next_thread);
        }
        Outcome::Success(())
    }
}

/// Taking a free spinlock and releasing it leaves it free again, whichever way it was taken.
pub proof fn lemma_lock_unlock_round_trip(t: u64, nonblocking: bool)
    ensures
        lock_step(Seq::<u64>::empty(), t, nonblocking).1 == Outcome::<(), Errno>::Success(()),
        unlock_step(lock_step(Seq::<u64>::empty(), t, nonblocking).0) == Seq::<u64>::empty(),
{
    assert(unlock_step(lock_step(Seq::<u64>::empty(), t, nonblocking).0) =~= Seq::<u64>::empty());
}

/// A held spinlock is never taken by a second thread: a trylock fails with `EBUSY` and
/// changes nothing, and a blocking lock queues the thread behind the holder, who keeps it.
pub proof fn lemma_lock_exclusive(q: Seq<u64>, t: u64)
    requires
        q.len() > 0,
    ensures
        lock_step(q, t, true) == (q, Outcome::<(), Errno>::Error(Errno::EBUSY)),
        lock_step(q, t, false).0[0] == q[0],
        lock_step(q, t, false).1 == Outcome::<(), Errno>::Yield(YieldUntil::Indefinite),
{
}

/// Waiting threads are handed the lock in the order they asked for it: after the holder
/// of `q` releases it, the first thread that queued behind it holds it, and a thread that
/// queues now is served after everyone already waiting.
pub proof fn lemma_lock_fifo(q: Seq<u64>, t: u64)
    requires
        q.len() > 1,
    ensures
        unlock_step(q)[0] == q[1],
        lock_step(q, t, false).0 == q.push(t),
        unlock_step(lock_step(q, t, false).0) == unlock_step(q).push(t),
{
    assert(unlock_step(lock_step(q, t, false).0) =~= unlock_step(q).push(t));
}

} // verus!
