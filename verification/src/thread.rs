//! Thread bookkeeping: thread identities, the hasher that maps a thread to
//! its index, and the pthread event handlers.
use vstd::prelude::*;

use crate::errno::Errno;
use crate::scheduler::{Outcome, Task, YieldUntil};
use crate::state::{GlobalState, FizzleState, LocalState, PThreadRoutine};
use crate::table::Table;

verus! {

/// How a thread reacts to a cancellation request.
#[derive(Clone, Copy, Debug, PartialEq, Eq, Structural)]
pub enum ThreadCancelType {
    Deferred,
    Asynchronous,
}

impl ThreadCancelType {
    /// The name of the corresponding `PTHREAD_CANCEL_*` constant.
    pub fn name(&self) -> (r: &'static str)
        ensures
            r@ == (match *self {
                ThreadCancelType::Deferred => "PTHREAD_CANCEL_DEFERRED"@,
                ThreadCancelType::Asynchronous => "PTHREAD_CANCEL_ASYNCHRONOUS"@,
            }),
    {
        match self {
            ThreadCancelType::Deferred => "PTHREAD_CANCEL_DEFERRED",
            ThreadCancelType::Asynchronous => "PTHREAD_CANCEL_ASYNCHRONOUS",
        }
    }
}

/// The ID associated with a given thread.
///
/// Equivalent to a tid_t.
#[derive(Clone, Copy, Debug, PartialEq, Eq, Hash, PartialOrd, Ord, Structural)]
pub struct Tid(pub usize);

impl Tid {
    /// The identifier of a (non-negative) raw `pid_t`.
    pub fn from_raw(tid: i32) -> (r: Self)
        requires
            tid >= 0,
        ensures
            r.0 == tid,
    {
        Tid(tid as usize)
    }

    /// The raw `pid_t`, truncated to 32 bits as `as` does.
    pub fn as_raw(&self) -> (r: i32)
        ensures
            r == self.0 as i32,
    {
        self.0 as i32
    }
}

/// What the emulator knows of a pthread.
pub struct ThreadInfo {
    pub id: u64,
    pub detached: bool,
    pub cancellable: bool,
    pub cancel_type: ThreadCancelType,
    pub cancel_requested: bool,
    pub held_mutexes: Vec<u64>,
}

impl ThreadInfo {
    /// A thread with deferred cancellation, no pending cancellation and no mutexes.
    pub fn new(id: u64, detached: bool, cancellable: bool) -> (r: Self)
        ensures
            r.id == id,
            r.detached == detached,
            r.cancellable == cancellable,
            r.cancel_type == ThreadCancelType::Deferred,
            !r.cancel_requested,
            r.held_mutexes@ == Seq::<u64>::empty(),
    {
        Self {
            id,
            detached,
            cancellable,
            cancel_type: ThreadCancelType::Deferred,
            cancel_requested: false,
            held_mutexes: Vec::new(),
        }
    }
}

/// Little-endian value of the bytes `b`.
pub open spec fn le_value(b: Seq<u8>) -> nat
    decreases b.len(),
{
    if b.len() == 0 {
        0
    } else {
        b[0] as nat + 256 * le_value(b.drop_first())
    }
}

/// What one `write` adds to the hash: each full 8-byte chunk read little-endian, and a
/// final partial chunk, if any, read with its bytes in reverse order.
pub open spec fn write_sum(b: Seq<u8>) -> nat
    decreases b.len(),
{
    if b.len() >= 8 {
        le_value(b.take(8)) + write_sum(b.skip(8))
    } else if b.len() == 0 {
        0
    } else {
        le_value(b.reverse())
    }
}

/// A hasher that correctly outputs the internal value of a thread identifier for its hash.
pub struct ThreadHasher {
    pub value: u64,
}

impl ThreadHasher {
    pub fn new() -> (r: Self)
        ensures
            r.value == 0,
    {
        Self { value: 0 }
    }

    /// The hash: the sum of everything written.
    pub fn finish(&self) -> (r: u64)
        ensures
            r == self.value,
    {
        self.value
    }

    pub fn write_u32(&mut self, i: u32)
        requires
            old(self).value + i <= u64::MAX,
        ensures
            final(self).value == old(self).value + i,
    {
        self.value += i as u64;
    }

    pub fn write_u64(&mut self, i: u64)
        requires
            old(self).value + i <= u64::MAX,
        ensures
            final(self).value == old(self).value + i,
    {
        self.value += i;
    }

    /// Adds the bytes to the hash, 8 at a time read little-endian; a shorter tail is
    /// read with its bytes reversed.
    pub fn write(&mut self, bytes: &[u8])
        requires
            old(self).value + write_sum(bytes@) <= u64::MAX,
        ensures
            final(self).value == old(self).value + write_sum(bytes@),
    {
        let mut idx: usize = 0;
        let ghost b = bytes@;
        assert(b.skip(0) =~= b);
        while bytes.len() - idx >= 8
            invariant
                idx <= b.len(),
                b == bytes@,
                old(self).value + write_sum(b) <= u64::MAX,
                self.value + write_sum(b.skip(idx as int)) == old(self).value + write_sum(b),
            decreases b.len() - idx,
        {
            let chunk = le_u64(bytes, idx);
            proof {
                let rest = b.skip(idx as int);
                assert(rest.take(8) =~= b.subrange(idx as int, idx + 8));
                assert(rest.skip(8) =~= b.skip(idx + 8));
            }
            self.value += chunk;
            idx += 8;
        }
        if idx != bytes.len() {
            let tail = reversed_tail_value(bytes, idx);
            proof {
                assert(b.skip(idx as int).len() < 8);
            }
            self.value += tail;
        } else {
            proof {
                assert(b.skip(idx as int).len() == 0);
            }
        }
    }
}

/// `256` to the power `n`.
pub open spec fn pow256(n: nat) -> nat
    decreases n,
{
    if n == 0 {
        1
    } else {
        256 * pow256((n - 1) as nat)
    }
}

pub proof fn lemma_pow256_mono(m: nat, n: nat)
    requires
        m <= n,
    ensures
        1 <= pow256(m) <= pow256(n),
    decreases n,
{
    if m < n {
        lemma_pow256_mono(m, (n - 1) as nat);
    } else if n > 0 {
        lemma_pow256_mono(0, (n - 1) as nat);
    }
}

pub proof fn lemma_le_value_bound(b: Seq<u8>)
    ensures
        le_value(b) < pow256(b.len()),
        b.len() <= 8 ==> le_value(b) < 0x1_0000_0000_0000_0000,
    decreases b.len(),
{
    if b.len() > 0 {
        lemma_le_value_bound(b.drop_first());
        assert(le_value(b) <= 255 + 256 * (pow256((b.len() - 1) as nat) - 1)) by (nonlinear_arith)
            requires
                le_value(b) == b[0] as nat + 256 * le_value(b.drop_first()),
                le_value(b.drop_first()) < pow256((b.len() - 1) as nat),
                b[0] <= 255,
        ;
    }
    if b.len() <= 8 {
        lemma_pow256_mono(b.len(), 8);
        reveal_with_fuel(pow256, 9);
    }
}

/// The value of the 8 bytes at `idx`, little-endian.
fn le_u64(bytes: &[u8], idx: usize) -> (r: u64)
    requires
        idx + 8 <= bytes@.len(),
    ensures
        r == le_value(bytes@.subrange(idx as int, idx + 8)),
{
    let mut v: u64 = 0;
    let mut k: usize = 8;
    let _len = bytes.len();
    while k > 0
        invariant
            k <= 8,
            bytes@.len() <= usize::MAX,
            idx + 8 <= bytes@.len(),
            v == le_value(bytes@.subrange(idx + k, idx + 8)),
        decreases k,
    {
        k -= 1;
        proof {
            let s = bytes@.subrange(idx + k, idx + 8);
            assert(s.drop_first() =~= bytes@.subrange(idx + k + 1, idx + 8));
            lemma_le_value_bound(s);
            lemma_le_value_bound(s.drop_first());
        }
        v = bytes[idx + k] as u64 + 256 * v;
    }
    v
}

/// The value of the bytes from `idx` to the end (fewer than 8), read in reverse order.
fn reversed_tail_value(bytes: &[u8], idx: usize) -> (r: u64)
    requires
        idx < bytes@.len() < idx + 8,
    ensures
        r == le_value(bytes@.skip(idx as int).reverse()),
{
    let ghost t = bytes@.skip(idx as int);
    let ghost rt = t.reverse();
    let mut v: u64 = 0;
    let mut k: usize = idx;
    while k < bytes.len()
        invariant
            idx <= k <= bytes@.len() < idx + 8,
            t == bytes@.skip(idx as int),
            rt == t.reverse(),
            v == le_value(rt.skip(bytes@.len() - k)),
        decreases bytes@.len() - k,
    {
        proof {
            let j = bytes@.len() - k;
            let s = rt.skip(j - 1);
            assert(s.drop_first() =~= rt.skip(j));
            assert(s[0] == bytes@[k as int]);
            lemma_le_value_bound(s);
            lemma_le_value_bound(s.drop_first());
        }
        v = bytes[k] as u64 + 256 * v;
        k += 1;
    }
    proof {
        assert(rt.skip(0) =~= rt);
    }
    v
}

/// The index of a thread: the hash of its identifier, which the thread identifier hashes
/// by writing it as one `u64`.
pub fn index_of_thread(thread_id: u64) -> (r: usize)
    ensures
        r == thread_id as usize,
{
    let mut hasher = ThreadHasher::new();
    hasher.write_u64(thread_id);
    hasher.finish() as usize
}

/// Hashing a thread identifier gives the identifier back, whether it is written as a
/// `u64` or as its 8 little-endian bytes.
pub proof fn lemma_hash_is_identity(id: u64, bytes: Seq<u8>)
    requires
        bytes.len() == 8,
        le_value(bytes) == id,
    ensures
        0 + id == id,
        write_sum(bytes) == id,
{
    assert(bytes.take(8) =~= bytes);
    assert(bytes.skip(8).len() == 0);
    assert(write_sum(bytes.skip(8)) == 0);
}


/// The routines pushed by each thread, oldest first.
pub open spec fn cleanup_stacks(t: Table<Vec<PThreadRoutine>>) -> Map<int, Seq<PThreadRoutine>> {
    t@.map_values(|v: Vec<PThreadRoutine>| v@)
}

/// The value each thread holds under each key.
pub open spec fn key_values(t: Table<Table<u64>>) -> Map<int, Map<int, u64>> {
    t@.map_values(|v: Table<u64>| v@)
}

/// The local state with a new pthread table and nothing else changed.
pub open spec fn with_pthreads(l: LocalState, t: Table<ThreadInfo>) -> LocalState {
    LocalState { pthreads: t, ..l }
}

/// The thread of `info` with a new cancellation type.
pub open spec fn with_cancel_type(info: ThreadInfo, t: ThreadCancelType) -> ThreadInfo {
    ThreadInfo { cancel_type: t, ..info }
}

/// Removes and returns the pthread under `key`, which the caller knows is there.
fn take_thread(t: &mut Table<ThreadInfo>, key: i128) -> (r: ThreadInfo)
    requires
        old(t).wf(),
        old(t)@.contains_key(key as int),
    ensures
        final(t).wf(),
        r == old(t)@[key as int],
        final(t)@ == old(t)@.remove(key as int),
{
    match t.remove(key) {
        Some(info) => info,
        None => {
            assert(false);
            ThreadInfo::new(0, false, false)
        },
    }
}

#[derive(Clone, Copy, Debug, PartialEq, Eq, Structural)]
pub enum ThreadCreateState {
    Start,
    Finish,
}

/// What the new thread runs, and whether it starts detached.
#[derive(Clone, Copy, Debug, PartialEq, Eq, Structural)]
pub struct PtCreateWrapper {
    pub wrapped_fn: u64,
    pub wrapped_arg: u64,
    pub detached: bool,
}

/// `pthread_create`: the host thread is spawned by a task that the scheduler runs.
pub struct ThreadCreateEvent {
    pub pthread: u64,
    pub attrs: u64,
    pub wrapper: PtCreateWrapper,
    pub state: ThreadCreateState,
}

impl ThreadCreateEvent {
    /// A creation of a thread that runs `f(arg)`, detached when its attributes say so.
    pub fn new(pthread: u64, attrs: u64, f: u64, arg: u64, detached: bool) -> (r: Self)
        ensures
            r.pthread == pthread,
            r.attrs == attrs,
            r.wrapper == (PtCreateWrapper { wrapped_fn: f, wrapped_arg: arg, detached }),
            r.state == ThreadCreateState::Start,
    {
        Self {
            pthread,
            attrs,
            wrapper: PtCreateWrapper { wrapped_fn: f, wrapped_arg: arg, detached },
            state: ThreadCreateState::Start,
        }
    }

    /// First run: hands the spawning of the host thread to the scheduler and asks to be
    /// rescheduled at once. Second run: succeeds.
    pub fn run(&mut self) -> (r: Outcome<(), Errno>)
        ensures
            final(self).state == ThreadCreateState::Finish,
            final(self).pthread == old(self).pthread,
            final(self).attrs == old(self).attrs,
            final(self).wrapper == old(self).wrapper,
            r == (if old(self).state == ThreadCreateState::Start {
                Outcome::<(), Errno>::RunTask(Task::CreateThread, YieldUntil::Reschedule(0))
            } else {
                Outcome::<(), Errno>::Success(())
            }),
    {
        match self.state {
            ThreadCreateState::Start => {
                self.state = ThreadCreateState::Finish;
                Outcome::RunTask(Task::CreateThread, YieldUntil::Reschedule(0))
            },
            ThreadCreateState::Finish => Outcome::Success(()),
        }
    }
}

/// `pthread_exit`: the thread terminates with the given return value.
pub struct ThreadExitEvent {
    pub retval: u64,
}

impl ThreadExitEvent {
    pub fn new(retval: u64) -> (r: Self)
        ensures
            r.retval == retval,
    {
        Self { retval }
    }

    pub fn run(&mut self) -> (r: Outcome<(), ()>)
        ensures
            r == Outcome::<(), ()>::RunTask(Task::ExitThread(old(self).retval), YieldUntil::Indefinite),
    {
        Outcome::RunTask(Task::ExitThread(self.retval), YieldUntil::Indefinite)
    }
}

#[derive(Clone, Copy, Debug, PartialEq, Eq, Structural)]
pub enum ThreadJoinState {
    Start,
    Finish,
}

/// `pthread_join`.
pub struct ThreadJoinEvent {
    pub thread: u64,
    pub retval: u64,
    pub state: ThreadJoinState,
}

impl ThreadJoinEvent {
    pub fn new(thread: u64, retval: u64) -> (r: Self)
        ensures
            r.thread == thread,
            r.retval == retval,
            r.state == ThreadJoinState::Start,
    {
        Self { thread, retval, state: ThreadJoinState::Start }
    }

    /// First run: forgets the target pthread (`EDEADLK` when unknown); when its thread has
    /// not terminated yet, registers thread `current` as waiting for it and yields until
    /// woken, otherwise clears the termination record and yields briefly. Second run: the
    /// host join returned `join_ret`, reported as success when non-negative and as `errno`
    /// otherwise.
    pub fn run(&mut self, state: &mut FizzleState, current: u64, join_ret: i32, errno: Errno) -> (r: Outcome<(), Errno>)
        requires
            old(state).wf(),
        ensures
            final(state).wf(),
            final(self).state == ThreadJoinState::Finish,
            final(self).thread == old(self).thread,
            final(self).retval == old(self).retval,
            final(state).global == old(state).global,
            old(self).state == ThreadJoinState::Finish ==> {
                &&& final(state).local == old(state).local
                &&& r == (if join_ret >= 0 {
                    Outcome::<(), Errno>::Success(())
                } else {
                    Outcome::<(), Errno>::Error(errno)
                })
            },
            old(self).state == ThreadJoinState::Start && !old(state).local.pthreads@.contains_key(
                old(self).thread as int,
            ) ==> {
                &&& final(state).local == old(state).local
                &&& r == Outcome::<(), Errno>::Error(Errno::EDEADLK)
            },
            old(self).state == ThreadJoinState::Start && old(state).local.pthreads@.contains_key(
                old(self).thread as int,
            ) ==> {
                let id = old(state).local.pthreads@[old(self).thread as int].id as int;
                let l = old(state).local;
                &&& final(state).local.pthreads@ == l.pthreads@.remove(old(self).thread as int)
                &&& if l.terminated_threads@.contains_key(id) {
                    &&& r == Outcome::<(), Errno>::Yield(YieldUntil::Immediate)
                    &&& final(state).local.terminated_threads@ == l.terminated_threads@.remove(id)
                    &&& final(state).local == (LocalState {
                        pthreads: final(state).local.pthreads,
                        terminated_threads: final(state).local.terminated_threads,
                        ..l
                    })
                } else {
                    &&& r == Outcome::<(), Errno>::Yield(YieldUntil::Indefinite)
                    &&& final(state).local.awaiting_thread_death@.contains_key(id)
                    &&& final(state).local.awaiting_thread_death@[id]@ == (if l.awaiting_thread_death@.contains_key(id) {
                        l.awaiting_thread_death@[id]@.push(current)
                    } else {
                        seq![current]
                    })
                    &&& final(state).local.awaiting_thread_death@.remove(id)
                        == l.awaiting_thread_death@.remove(id)
                    &&& final(state).local == (LocalState {
                        pthreads: final(state).local.pthreads,
                        awaiting_thread_death: final(state).local.awaiting_thread_death,
                        ..l
                    })
                }
            },
    {
        match self.state {
            ThreadJoinState::Start => {
                self.state = ThreadJoinState::Finish;
                if !state.local.pthreads.contains(self.thread as i128) {
                    return Outcome::Error(Errno::EDEADLK);
                }
                let target = take_thread(&mut state.local.pthreads, self.thread as i128);
                let id = target.id;
                if !state.local.terminated_threads.contains(id as i128) {
                    let mut waiting = match state.local.awaiting_thread_death.remove(id as i128) {
                        Some(w) => w,
                        None => Vec::new(),
                    };
                    waiting.push(current);
                    state.local.awaiting_thread_death.insert(id as i128, waiting);
                    proof {
                        assert(state.local.awaiting_thread_death@.remove(id as int)
                            =~= old(state).local.awaiting_thread_death@.remove(id as int));
                    }
                    Outcome::Yield(YieldUntil::Indefinite)
                } else {
                    state.local.terminated_threads.remove(id as i128);
                    Outcome::Yield(YieldUntil::Immediate)
                }
            },
            ThreadJoinState::Finish => {
                if join_ret >= 0 {
                    Outcome::Success(())
                } else {
                    Outcome::Error(errno)
                }
            },
        }
    }
}

/// `pthread_detach`.
pub struct ThreadDetachEvent {
    pub thread: u64,
}

impl ThreadDetachEvent {
    pub fn new(thread: u64) -> (r: Self)
        ensures
            r.thread == thread,
    {
        Self { thread }
    }

    /// Marks the pthread detached; `ESRCH` when it is unknown.
    pub fn run(&mut self, state: &mut FizzleState) -> (r: Outcome<(), Errno>)
        requires
            old(state).wf(),
            old(state).local.pthreads@.contains_key(old(self).thread as int)
                ==> !old(state).local.pthreads@[old(self).thread as int].detached,
        ensures
            final(state).wf(),
            final(state).global == old(state).global,
            final(state).local == with_pthreads(old(state).local, final(state).local.pthreads),
            !old(state).local.pthreads@.contains_key(old(self).thread as int) ==> r
                == Outcome::<(), Errno>::Error(Errno::ESRCH) && final(state).local.pthreads@
                == old(state).local.pthreads@,
            old(state).local.pthreads@.contains_key(old(self).thread as int) ==> r
                == Outcome::<(), Errno>::Success(()) && final(state).local.pthreads@
                == old(state).local.pthreads@.insert(
                old(self).thread as int,
                ThreadInfo { detached: true, ..old(state).local.pthreads@[old(self).thread as int] },
            ),
    {
        if !state.local.pthreads.contains(self.thread as i128) {
            return Outcome::Error(Errno::ESRCH);
        }
        let mut info = take_thread(&mut state.local.pthreads, self.thread as i128);
        info.detached = true;
        state.local.pthreads.insert(self.thread as i128, info);
        Outcome::Success(())
    }
}

#[derive(Clone, Copy, Debug, PartialEq, Eq, Structural)]
pub enum ThreadCancelState {
    Start,
    Finish,
}

/// `pthread_cancel`.
pub struct ThreadCancelEvent {
    pub thread: u64,
    pub state: ThreadCancelState,
}

impl ThreadCancelEvent {
    pub fn new(thread: u64) -> (r: Self)
        ensures
            r.thread == thread,
            r.state == ThreadCancelState::Start,
    {
        Self { thread, state: ThreadCancelState::Start }
    }

    /// First run: `ESRCH` for an unknown pthread; a thread that is not cancellable only
    /// records the request; the calling thread (`self_pthread`) is terminated at once;
    /// another thread is cancelled by a task. Second run: succeeds.
    pub fn run(&mut self, state: &mut FizzleState, self_pthread: u64) -> (r: Outcome<(), Errno>)
        requires
            old(state).wf(),
        ensures
            final(state).wf(),
            final(self).state == ThreadCancelState::Finish,
            final(self).thread == old(self).thread,
            final(state).global == old(state).global,
            final(state).local == with_pthreads(old(state).local, final(state).local.pthreads),
            ({
                let k = old(self).thread as int;
                let m = old(state).local.pthreads@;
                if old(self).state == ThreadCancelState::Finish {
                    r == Outcome::<(), Errno>::Success(()) && final(state).local.pthreads@ == m
                } else if !m.contains_key(k) {
                    r == Outcome::<(), Errno>::Error(Errno::ESRCH) && final(state).local.pthreads@ == m
                } else if !m[k].cancellable {
                    r == Outcome::<(), Errno>::Success(()) && final(state).local.pthreads@ == m.insert(
                        k,
                        ThreadInfo { cancel_requested: true, ..m[k] },
                    )
                } else if old(self).thread == self_pthread {
                    r == Outcome::<(), Errno>::RunTask(Task::TerminateByCancellation, YieldUntil::Indefinite)
                        && final(state).local.pthreads@ == m
                } else {
                    r == Outcome::<(), Errno>::RunTask(Task::CancelThread(m[k].id), YieldUntil::Reschedule(0))
                        && final(state).local.pthreads@ == m
                }
            }),
    {
        match self.state {
            ThreadCancelState::Start => {
                self.state = ThreadCancelState::Finish;
                if !state.local.pthreads.contains(self.thread as i128) {
                    return Outcome::Error(Errno::ESRCH);
                }
                let mut target = take_thread(&mut state.local.pthreads, self.thread as i128);
                if !target.cancellable {
                    target.cancel_requested = true;
                    state.local.pthreads.insert(self.thread as i128, target);
                    return Outcome::Success(());
                }
                let id = target.id;
                state.local.pthreads.insert(self.thread as i128, target);
                proof {
                    assert(state.local.pthreads@ =~= old(state).local.pthreads@);
                }
                if self.thread == self_pthread {
                    return Outcome::RunTask(Task::TerminateByCancellation, YieldUntil::Indefinite);
                }
                Outcome::RunTask(Task::CancelThread(id), YieldUntil::Reschedule(0))
            },
            ThreadCancelState::Finish => Outcome::Success(()),
        }
    }
}

/// `pthread_cleanup_push`.
pub struct ThreadCleanupPushEvent {
    pub routine: u64,
    pub arg: u64,
}

impl ThreadCleanupPushEvent {
    pub fn new(routine: u64, arg: u64) -> (r: Self)
        ensures
            r.routine == routine,
            r.arg == arg,
    {
        Self { routine, arg }
    }

    /// Appends the routine to the cleanup handlers of thread `current`.
    pub fn run(&mut self, state: &mut FizzleState, current: u64) -> (r: Outcome<(), ()>)
        requires
            old(state).wf(),
            old(state).local.pthread_cleanup@.contains_key(current as int),
        ensures
            final(state).wf(),
            r == Outcome::<(), ()>::Success(()),
            final(state).global == old(state).global,
            final(state).local == (LocalState { pthread_cleanup: final(state).local.pthread_cleanup, ..old(state).local }),
            cleanup_stacks(final(state).local.pthread_cleanup) == cleanup_stacks(old(state).local.pthread_cleanup).insert(
                current as int,
                cleanup_stacks(old(state).local.pthread_cleanup)[current as int].push(
                    PThreadRoutine { function: old(self).routine, arg: Some(old(self).arg) },
                ),
            ),
    {
        let mut stack = match state.local.pthread_cleanup.remove(current as i128) {
            Some(s) => s,
            None => {
                assert(false);
                Vec::new()
            },
        };
        stack.push(PThreadRoutine { function: self.routine, arg: Some(self.arg) });
        let ghost sv = stack@;
        state.local.pthread_cleanup.insert(current as i128, stack);
        proof {
            assert(cleanup_stacks(state.local.pthread_cleanup) =~= cleanup_stacks(old(state).local.pthread_cleanup).insert(
                current as int,
                sv,
            ));
        }
        Outcome::Success(())
    }
}

/// `pthread_cleanup_pop`.
pub struct ThreadCleanupPopEvent {
    pub execute: bool,
}

impl ThreadCleanupPopEvent {
    pub fn new(execute: bool) -> (r: Self)
        ensures
            r.execute == execute,
    {
        Self { execute }
    }

    /// Removes the most recently pushed cleanup handler of thread `current`, and returns
    /// it when it is to be executed.
    pub fn run(&mut self, state: &mut FizzleState, current: u64) -> (r: Outcome<Option<PThreadRoutine>, ()>)
        requires
            old(state).wf(),
            old(state).local.pthread_cleanup@.contains_key(current as int),
        ensures
            final(state).wf(),
            final(state).global == old(state).global,
            final(state).local == (LocalState { pthread_cleanup: final(state).local.pthread_cleanup, ..old(state).local }),
            ({
                let st = cleanup_stacks(old(state).local.pthread_cleanup)[current as int];
                if st.len() == 0 {
                    r == Outcome::<Option<PThreadRoutine>, ()>::Success(None) && cleanup_stacks(
                        final(state).local.pthread_cleanup,
                    ) == cleanup_stacks(old(state).local.pthread_cleanup)
                } else {
                    &&& r == Outcome::<Option<PThreadRoutine>, ()>::Success(
                        if old(self).execute {
                            Some(st.last())
                        } else {
                            None
                        },
                    )
                    &&& cleanup_stacks(final(state).local.pthread_cleanup) == cleanup_stacks(
                        old(state).local.pthread_cleanup,
                    ).insert(current as int, st.drop_last())
                }
            }),
    {
        let mut stack = match state.local.pthread_cleanup.remove(current as i128) {
            Some(s) => s,
            None => {
                assert(false);
                Vec::new()
            },
        };
        let ghost st = stack@;
        let popped = if stack.len() > 0 {
            stack.pop()
        } else {
            None
        };
        let ghost sv = stack@;
        state.local.pthread_cleanup.insert(current as i128, stack);
        proof {
            assert(cleanup_stacks(state.local.pthread_cleanup) =~= cleanup_stacks(old(state).local.pthread_cleanup).insert(
                current as int,
                sv,
            ));
            if st.len() > 0 {
                assert(sv =~= st.drop_last());
            } else {
                assert(cleanup_stacks(state.local.pthread_cleanup) =~= cleanup_stacks(old(state).local.pthread_cleanup));
            }
        }
        match popped {
            Some(routine) => if self.execute {
                Outcome::Success(Some(routine))
            } else {
                Outcome::Success(None)
            },
            None => Outcome::Success(None),
        }
    }
}

/// `pthread_key_create`.
pub struct ThreadKeyCreateEvent {
    pub destructor: u64,
}

impl ThreadKeyCreateEvent {
    pub fn new(destructor: u64) -> (r: Self)
        ensures
            r.destructor == destructor,
    {
        Self { destructor }
    }

    /// Records the key that the host's `pthread_key_create` made (it returned `ret` and
    /// stored `key`) with its destructor and no values; a non-zero `ret` fails with `errno`.
    pub fn run(&mut self, state: &mut FizzleState, ret: i32, key: u32, errno: Errno) -> (r: Outcome<(), Errno>)
        requires
            old(state).wf(),
        ensures
            final(state).wf(),
            final(state).global == old(state).global,
            ret != 0 ==> r == Outcome::<(), Errno>::Error(errno) && final(state).local == old(state).local,
            ret == 0 ==> {
                &&& r == Outcome::<(), Errno>::Success(())
                &&& final(state).local.pthread_keys@ == old(state).local.pthread_keys@.insert(
                    key as int,
                    PThreadRoutine { function: old(self).destructor, arg: None },
                )
                &&& key_values(final(state).local.pthread_key_values) == key_values(
                    old(state).local.pthread_key_values,
                ).insert(key as int, Map::<int, u64>::empty())
                &&& final(state).local == (LocalState {
                    pthread_keys: final(state).local.pthread_keys,
                    pthread_key_values: final(state).local.pthread_key_values,
                    ..old(state).local
                })
            },
    {
        if ret == 0 {
            state.local.pthread_keys.insert(key as i128, PThreadRoutine { function: self.destructor, arg: None });
            let values: Table<u64> = Table::new();
            state.local.pthread_key_values.insert(key as i128, values);
            proof {
                assert(key_values(state.local.pthread_key_values) =~= key_values(old(state).local.pthread_key_values).insert(
                    key as int,
                    Map::<int, u64>::empty(),
                ));
            }
            Outcome::Success(())
        } else {
            Outcome::Error(errno)
        }
    }
}

/// `pthread_key_delete`.
pub struct ThreadKeyDeleteEvent {
    pub key: u32,
}

impl ThreadKeyDeleteEvent {
    pub fn new(key: u32) -> (r: Self)
        ensures
            r.key == key,
    {
        Self { key }
    }

    /// Forgets the key once the host's `pthread_key_delete` returned `ret == 0`; a
    /// non-zero `ret` fails with `errno`.
    pub fn run(&mut self, state: &mut FizzleState, ret: i32, errno: Errno) -> (r: Outcome<(), Errno>)
        requires
            old(state).wf(),
        ensures
            final(state).wf(),
            final(state).global == old(state).global,
            ret != 0 ==> r == Outcome::<(), Errno>::Error(errno) && final(state).local == old(state).local,
            ret == 0 ==> {
                &&& r == Outcome::<(), Errno>::Success(())
                &&& final(state).local.pthread_keys@ == old(state).local.pthread_keys@.remove(old(self).key as int)
                &&& key_values(final(state).local.pthread_key_values) == key_values(
                    old(state).local.pthread_key_values,
                ).remove(old(self).key as int)
                &&& final(state).local == (LocalState {
                    pthread_keys: final(state).local.pthread_keys,
                    pthread_key_values: final(state).local.pthread_key_values,
                    ..old(state).local
                })
            },
    {
        if ret == 0 {
            state.local.pthread_keys.remove(self.key as i128);
            state.local.pthread_key_values.remove(self.key as i128);
            proof {
                assert(key_values(state.local.pthread_key_values) =~= key_values(old(state).local.pthread_key_values).remove(
                    self.key as int,
                ));
            }
            Outcome::Success(())
        } else {
            Outcome::Error(errno)
        }
    }
}

#[derive(Clone, Copy, Debug, PartialEq, Eq, Structural)]
pub enum ThreadYieldState {
    Start,
    Finish,
}

/// `sched_yield` / `pthread_yield`.
pub struct ThreadYieldEvent {
    pub state: ThreadYieldState,
}

impl ThreadYieldEvent {
    pub fn new() -> (r: Self)
        ensures
            r.state == ThreadYieldState::Start,
    {
        Self { state: ThreadYieldState::Start }
    }

    /// First run: marks thread `current` ready again and yields. Second run: succeeds.
    pub fn run(&mut self, state: &mut FizzleState, current: u64) -> (r: Outcome<(), Errno>)
        ensures
            final(self).state == ThreadYieldState::Finish,
            final(state).local == old(state).local,
            final(state).global == (GlobalState { ready_threads: final(state).global.ready_threads, ..old(state).global }),
            old(self).state == ThreadYieldState::Start ==> r == Outcome::<(), Errno>::Yield(YieldUntil::Indefinite)
                && final(state).global.ready_threads@ == old(state).global.ready_threads@.push(current),
            old(self).state == ThreadYieldState::Finish ==> r == Outcome::<(), Errno>::Success(())
                && final(state).global.ready_threads == old(state).global.ready_threads,
    {
        match self.state {
            ThreadYieldState::Start => {
                state.mark_thread_ready(current);
                self.state = ThreadYieldState::Finish;
                Outcome::Yield(YieldUntil::Indefinite)
            },
            ThreadYieldState::Finish => Outcome::Success(()),
        }
    }
}

/// `pthread_setcancelstate`.
pub struct ThreadCancellableEvent {
    pub cancellable: bool,
}

impl ThreadCancellableEvent {
    pub fn new(cancellable: bool) -> (r: Self)
        ensures
            r.cancellable == cancellable,
    {
        Self { cancellable }
    }

    /// Sets whether the calling pthread can be cancelled and returns the previous
    /// setting; enabling cancellation with a request pending terminates the thread.
    pub fn run(&mut self, state: &mut FizzleState, self_pthread: u64) -> (r: Outcome<bool, ()>)
        requires
            old(state).wf(),
            old(state).local.pthreads@.contains_key(self_pthread as int),
        ensures
            final(state).wf(),
            final(state).global == old(state).global,
            final(state).local == with_pthreads(old(state).local, final(state).local.pthreads),
            ({
                let info = old(state).local.pthreads@[self_pthread as int];
                &&& final(state).local.pthreads@ == old(state).local.pthreads@.insert(
                    self_pthread as int,
                    ThreadInfo { cancellable: old(self).cancellable, ..info },
                )
                &&& r == (if old(self).cancellable && info.cancel_requested {
                    Outcome::<bool, ()>::RunTask(Task::TerminateByCancellation, YieldUntil::Reschedule(0))
                } else {
                    Outcome::<bool, ()>::Success(info.cancellable)
                })
            }),
    {
        let mut info = take_thread(&mut state.local.pthreads, self_pthread as i128);
        let prev_cancellable = info.cancellable;
        info.cancellable = self.cancellable;
        let requested = info.cancel_requested;
        state.local.pthreads.insert(self_pthread as i128, info);
        if self.cancellable && requested {
            Outcome::RunTask(Task::TerminateByCancellation, YieldUntil::Reschedule(0))
        } else {
            Outcome::Success(prev_cancellable)
        }
    }
}

/// `pthread_setcanceltype`.
pub struct ThreadCancelTypeEvent {
    pub cancel_type: ThreadCancelType,
}

impl ThreadCancelTypeEvent {
    pub fn new(cancel_type: ThreadCancelType) -> (r: Self)
        ensures
            r.cancel_type == cancel_type,
    {
        Self { cancel_type }
    }

    /// Sets the cancellation type of the calling pthread and returns the previous one.
    pub fn run(&mut self, state: &mut FizzleState, self_pthread: u64) -> (r: Outcome<ThreadCancelType, ()>)
        requires
            old(state).wf(),
            old(state).local.pthreads@.contains_key(self_pthread as int),
        ensures
            final(state).wf(),
            final(state).global == old(state).global,
            final(state).local == with_pthreads(old(state).local, final(state).local.pthreads),
            final(state).local.pthreads@ == old(state).local.pthreads@.insert(
                self_pthread as int,
                with_cancel_type(old(state).local.pthreads@[self_pthread as int], old(self).cancel_type),
            ),
            r == Outcome::<ThreadCancelType, ()>::Success(old(state).local.pthreads@[self_pthread as int].cancel_type),
    {
        let mut info = take_thread(&mut state.local.pthreads, self_pthread as i128);
        let old_cancel_type = info.cancel_type;
        info.cancel_type = self.cancel_type;
        state.local.pthreads.insert(self_pthread as i128, info);
        Outcome::Success(old_cancel_type)
    }
}

/// `pthread_testcancel`.
pub struct ThreadTestCancelEvent;

impl ThreadTestCancelEvent {
    /// Cancellation happens immediately in the emulator, so this always returns.
    pub fn run(&mut self) -> (r: Outcome<(), ()>)
        ensures
            r == Outcome::<(), ()>::Success(()),
    {
        Outcome::Success(())
    }
}

/// `pthread_setspecific`.
pub struct ThreadSetSpecificEvent {
    pub key: u32,
    pub pointer: u64,
}

impl ThreadSetSpecificEvent {
    pub fn new(key: u32, pointer: u64) -> (r: Self)
        ensures
            r.key == key,
            r.pointer == pointer,
    {
        Self { key, pointer }
    }

    /// Stores the pointer as thread `current`'s value of the key.
    pub fn run(&mut self, state: &mut FizzleState, current: u64) -> (r: Outcome<(), ()>)
        requires
            old(state).wf(),
            old(state).local.pthread_key_values@.contains_key(old(self).key as int),
        ensures
            final(state).wf(),
            r == Outcome::<(), ()>::Success(()),
            final(state).global == old(state).global,
            final(state).local == (LocalState {
                pthread_key_values: final(state).local.pthread_key_values,
                ..old(state).local
            }),
            key_values(final(state).local.pthread_key_values) == key_values(old(state).local.pthread_key_values).insert(
                old(self).key as int,
                key_values(old(state).local.pthread_key_values)[old(self).key as int].insert(
                    current as int,
                    old(self).pointer,
                ),
            ),
    {
        let mut values = match state.local.pthread_key_values.remove(self.key as i128) {
            Some(v) => v,
            None => {
                assert(false);
                Table::new()
            },
        };
        values.insert(current as i128, self.pointer);
        let ghost vv = values@;
        state.local.pthread_key_values.insert(self.key as i128, values);
        proof {
            assert(key_values(state.local.pthread_key_values) =~= key_values(old(state).local.pthread_key_values).insert(
                self.key as int,
                vv,
            ));
        }
        Outcome::Success(())
    }
}

/// `pthread_getspecific`.
pub struct ThreadGetSpecificEvent {
    pub key: u32,
}

/// Thread `t`'s value of a key whose values are `m`: null (0) when it has none.
pub open spec fn specific_value(m: Map<int, u64>, t: u64) -> u64 {
    if m.contains_key(t as int) {
        m[t as int]
    } else {
        0
    }
}

impl ThreadGetSpecificEvent {
    pub fn new(key: u32) -> (r: Self)
        ensures
            r.key == key,
    {
        Self { key }
    }

    /// Thread `current`'s value of the key, or null (0).
    pub fn run(&mut self, state: &FizzleState, current: u64) -> (r: Outcome<u64, ()>)
        requires
            state.wf(),
            state.local.pthread_key_values@.contains_key(old(self).key as int),
        ensures
            final(self).key == old(self).key,
            r == Outcome::<u64, ()>::Success(
                specific_value(key_values(state.local.pthread_key_values)[old(self).key as int], current),
            ),
    {
        match state.local.pthread_key_values.get(self.key as i128) {
            Some(values) => match values.get(current as i128) {
                Some(p) => Outcome::Success(*p),
                None => Outcome::Success(0),
            },
            None => {
                assert(false);
                Outcome::Success(0)
            },
        }
    }
}

/// A thread reads back the value it stored under a key, and storing it leaves every other
/// thread's value of that key as it was.
pub proof fn lemma_specific_read_back(m: Map<int, u64>, t: u64, other: u64, p: u64)
    requires
        other != t,
    ensures
        specific_value(m.insert(t as int, p), t) == p,
        specific_value(m.insert(t as int, p), other) == specific_value(m, other),
{
}

/// Setting the cancellation type returns the type set before it: a second setting returns
/// what the first set, and the first setting's effect is exactly the new type.
pub proof fn lemma_cancel_type_read_back(info: ThreadInfo, t1: ThreadCancelType, t2: ThreadCancelType)
    ensures
        with_cancel_type(info, t1).cancel_type == t1,
        with_cancel_type(with_cancel_type(info, t1), t2) == with_cancel_type(info, t2),
{
}

/// Cleanup handlers form a stack: the handler just pushed is the one the next pop
/// returns, and the pop leaves the handlers as they were before the push.
pub proof fn lemma_cleanup_push_pop(st: Seq<PThreadRoutine>, r: PThreadRoutine)
    ensures
        st.push(r).last() == r,
        st.push(r).drop_last() == st,
{
    assert(st.push(r).drop_last() =~= st);
}

} // verus!
