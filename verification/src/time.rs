//! Emulated clocks and timers: interval timers (`setitimer`), POSIX timers
//! (`timer_*`) and timer descriptors (`timerfd_*`). All times are nanoseconds.
use vstd::prelude::*;

use crate::errno::Errno;
use crate::scheduler::{Outcome, YieldUntil};
use crate::state::{GlobalState, Polled,
    DescriptorInfo, FdResource, FizzleState, ItimerInfo, LocalState, ReadyInfo, ScheduledItem, TimerIdType,
    TimerPosixInfo, TimerType, TimerfdInfo, MAX_DURATION_NANOS,
};
use crate::endian::{int_bytes, int_to_bytes, native_little_endian};
use crate::sockio::{fill_from, filled_from, min_nat};

verus! {

/// The point in time that the process-time counters count from, in nanoseconds.
pub const TIMES_EPOCH_NANOS: u128 = 1735924847000000000u128;

/// An interval and the time left until the next expiry.
#[derive(Clone, Copy, Debug, PartialEq, Eq, Structural)]
pub struct ItimerValue {
    pub interval: u128,
    pub val: u128,
}

/// Which scheduled timer expiries a handler looks for.
#[derive(Clone, Copy, Debug, PartialEq, Eq, Structural)]
pub enum TimerSel {
    /// Any expiry of the given timer type.
    Itimer(TimerType),
    /// Expiries of the given POSIX timer.
    Posix(i64),
    /// Expiries of the given timer descriptor.
    Fd(i32),
}

/// Whether `r` is an expiry of process `pid` that `sel` looks for.
pub open spec fn selects(r: ScheduledItem, pid: i32, sel: TimerSel) -> bool {
    match r.info {
        ReadyInfo::Timer(p, ty, id, _) => p == pid && match sel {
            TimerSel::Itimer(which) => ty == which,
            TimerSel::Posix(t) => id == TimerIdType::Timer(t),
            TimerSel::Fd(fd) => id == TimerIdType::Fd(fd),
        },
        ReadyInfo::Thread(_) => false,
    }
}

/// The first selected expiry of the queue from index `i` on.
pub open spec fn first_selected(q: Seq<ScheduledItem>, pid: i32, sel: TimerSel, i: int) -> Option<int>
    decreases q.len() - i,
{
    if i < 0 || i >= q.len() {
        None
    } else if selects(q[i], pid, sel) {
        Some(i)
    } else {
        first_selected(q, pid, sel, i + 1)
    }
}

pub open spec fn saturating_sub(a: u128, b: u128) -> u128 {
    if a >= b {
        (a - b) as u128
    } else {
        0
    }
}

/// The time left until the first selected expiry of the queue, or zero.
pub open spec fn remaining(q: Seq<ScheduledItem>, pid: i32, sel: TimerSel, now: u128) -> u128 {
    match first_selected(q, pid, sel, 0) {
        Some(i) => saturating_sub(q[i].timestamp, now),
        None => 0,
    }
}

/// The queue without the items that `sel` selects for process `pid`; the others stay,
/// in order.
pub open spec fn without_selected(q: Seq<ScheduledItem>, pid: i32, sel: TimerSel) -> Seq<ScheduledItem>
    decreases q.len(),
{
    if q.len() == 0 {
        q
    } else {
        let rest = without_selected(q.drop_last(), pid, sel);
        if !selects(q.last(), pid, sel) {
            rest.push(q.last())
        } else {
            rest
        }
    }
}

/// The interval timer that a timer type reads (the clock types read the real one).
pub open spec fn itimer_of(l: LocalState, which: TimerType) -> Option<ItimerInfo> {
    match which {
        TimerType::Real => l.itimer_real,
        TimerType::Virtual => l.itimer_virtual,
        TimerType::Prof => l.itimer_prof,
        TimerType::ClockRealtime => l.itimer_real,
        TimerType::ClockMonotonic => l.itimer_real,
    }
}

pub open spec fn interval_of(info: Option<ItimerInfo>) -> u128 {
    match info {
        Some(i) => i.interval,
        None => 0,
    }
}

/// The local state after `setitimer` stored a new interval for `which`.
pub open spec fn set_itimer(l: LocalState, which: TimerType, interval: u128) -> LocalState {
    let info = if interval == 0 {
        None
    } else {
        Some(ItimerInfo { interval })
    };
    match which {
        TimerType::Real => LocalState { itimer_real: info, ..l },
        TimerType::Virtual => LocalState { itimer_virtual: info, ..l },
        TimerType::Prof => LocalState { itimer_prof: info, ..l },
        _ => l,
    }
}

/// The time left until the first selected expiry in `ready`.
fn find_remaining(ready: &Vec<ScheduledItem>, pid: i32, sel: TimerSel, now: u128) -> (r: u128)
    ensures
        r == remaining(ready@, pid, sel, now),
{
    let mut i: usize = 0;
    while i < ready.len()
        invariant
            i <= ready@.len(),
            first_selected(ready@, pid, sel, 0) == first_selected(ready@, pid, sel, i as int),
        decreases ready@.len() - i,
    {
        if selects_exec(&ready[i], pid, sel) {
            return ready[i].timestamp.saturating_sub(now);
        }
        i += 1;
    }
    0
}

fn selects_exec(r: &ScheduledItem, pid: i32, sel: TimerSel) -> (b: bool)
    ensures
        b == selects(*r, pid, sel),
{
    match r.info {
        ReadyInfo::Timer(p, ty, id, _) => p == pid && match sel {
            TimerSel::Itimer(which) => ty == which,
            TimerSel::Posix(t) => match id {
                TimerIdType::Timer(x) => x == t,
                _ => false,
            },
            TimerSel::Fd(fd) => match id {
                TimerIdType::Fd(x) => x == fd,
                _ => false,
            },
        },
        ReadyInfo::Thread(_) => false,
    }
}

/// Drops the items of `ready` that `sel` selects for process `pid`.
fn drop_selected(ready: &mut Vec<ScheduledItem>, pid: i32, sel: TimerSel)
    ensures
        final(ready)@ == without_selected(old(ready)@, pid, sel),
{
    let ghost q = ready@;
    let mut out: Vec<ScheduledItem> = Vec::new();
    let mut i: usize = 0;
    while i < ready.len()
        invariant
            ready@ == q,
            i <= q.len(),
            out@ == without_selected(q.take(i as int), pid, sel),
        decreases q.len() - i,
    {
        proof {
            assert(q.take(i + 1).drop_last() =~= q.take(i as int));
            assert(q.take(i + 1).last() == q[i as int]);
        }
        let item = ready[i];
        if !selects_exec(&item, pid, sel) {
            out.push(item);
        }
        i += 1;
    }
    proof {
        assert(q.take(q.len() as int) =~= q);
    }
    *ready = out;
}

/// `getitimer`.
pub struct GetItimerEvent {
    pub which: TimerType,
}

impl GetItimerEvent {
    pub fn new(which: TimerType) -> (r: Self)
        ensures
            r.which == which,
    {
        Self { which }
    }

    /// The timer's interval and the time left until its first scheduled expiry.
    pub fn run(&mut self, state: &FizzleState) -> (r: Outcome<ItimerValue, Errno>)
        ensures
            final(self).which == old(self).which,
            r == Outcome::<ItimerValue, Errno>::Success(
                ItimerValue {
                    interval: interval_of(itimer_of(state.local, old(self).which)),
                    val: remaining(
                        state.global.ready@,
                        state.local.pid,
                        TimerSel::Itimer(old(self).which),
                        state.global.current_time,
                    ),
                },
            ),
    {
        let timer_info = match self.which {
            TimerType::Real => state.local.itimer_real,
            TimerType::Virtual => state.local.itimer_virtual,
            TimerType::Prof => state.local.itimer_prof,
            TimerType::ClockRealtime => state.local.itimer_real,
            TimerType::ClockMonotonic => state.local.itimer_real,
        };
        let interval = match timer_info {
            Some(info) => info.interval,
            None => 0,
        };
        let val = find_remaining(
            &state.global.ready,
            state.local.pid,
            TimerSel::Itimer(self.which),
            state.global.current_time,
        );
        Outcome::Success(ItimerValue { interval, val })
    }
}

/// `setitimer`.
pub struct SetItimerEvent {
    pub which: TimerType,
    pub new_value: Option<ItimerValue>,
}

/// How long after now a timer set to `v` first expires: its value, or its interval when
/// the value is zero.
pub open spec fn first_expiry(v: ItimerValue) -> u128 {
    if v.val == 0 {
        v.interval
    } else {
        v.val
    }
}

impl SetItimerEvent {
    pub fn new(which: TimerType, new_value: Option<ItimerValue>) -> (r: Self)
        ensures
            r.which == which,
            r.new_value == new_value,
    {
        Self { which, new_value }
    }

    /// Returns the timer's previous interval and time left; with a new value, drops the
    /// timer's scheduled expiries, stores the new interval (none when zero) and schedules
    /// the first expiry.
    pub fn run(&mut self, state: &mut FizzleState) -> (r: Outcome<ItimerValue, ()>)
        requires
            old(self).new_value matches Some(v) ==> old(state).global.current_time + first_expiry(v)
                <= MAX_DURATION_NANOS,
        ensures
            final(self).which == old(self).which,
            final(self).new_value == old(self).new_value,
            r == Outcome::<ItimerValue, ()>::Success(
                ItimerValue {
                    interval: interval_of(itimer_of(old(state).local, old(self).which)),
                    val: remaining(
                        old(state).global.ready@,
                        old(state).local.pid,
                        TimerSel::Itimer(old(self).which),
                        old(state).global.current_time,
                    ),
                },
            ),
            final(state).global == (GlobalState { ready: final(state).global.ready, ..old(state).global }),
            match old(self).new_value {
                None => final(state).local == old(state).local && final(state).global.ready
                    == old(state).global.ready,
                Some(v) => {
                    let kept = without_selected(
                        old(state).global.ready@,
                        old(state).local.pid,
                        TimerSel::Itimer(old(self).which));
                    &&& final(state).local == set_itimer(old(state).local, old(self).which, v.interval)
                    &&& final(state).global.ready@ == if first_expiry(v) == 0 {
                        kept
                    } else {
                        kept.push(
                            ScheduledItem {
                                info: ReadyInfo::Timer(
                                    old(state).local.pid,
                                    old(self).which,
                                    TimerIdType::Itimer,
                                    None,
                                ),
                                timestamp: (old(state).global.current_time + first_expiry(v)) as u128,
                            },
                        )
                    }
                },
            },
    {
        let current_time = state.global.current_time;
        let timer_info = match self.which {
            TimerType::Real => state.local.itimer_real,
            TimerType::Virtual => state.local.itimer_virtual,
            TimerType::Prof => state.local.itimer_prof,
            TimerType::ClockRealtime => state.local.itimer_real,
            TimerType::ClockMonotonic => state.local.itimer_real,
        };
        let old_interval = match timer_info {
            Some(info) => info.interval,
            None => 0,
        };
        let current_pid = state.local.pid;
        let old_remaining = find_remaining(
            &state.global.ready,
            current_pid,
            TimerSel::Itimer(self.which),
            current_time,
        );
        if let Some(v) = self.new_value {
            drop_selected(&mut state.global.ready, current_pid, TimerSel::Itimer(self.which));
            let info = if v.interval == 0 {
                None
            } else {
                Some(ItimerInfo { interval: v.interval })
            };
            match self.which {
                TimerType::Real => {
                    state.local.itimer_real = info;
                },
                TimerType::Virtual => {
                    state.local.itimer_virtual = info;
                },
                TimerType::Prof => {
                    state.local.itimer_prof = info;
                },
                TimerType::ClockRealtime => {},
                TimerType::ClockMonotonic => {},
            }
            let timer_duration = if v.val == 0 {
                v.interval
            } else {
                v.val
            };
            if timer_duration != 0 {
                state.global.ready.push(
                    ScheduledItem {
                        info: ReadyInfo::Timer(current_pid, self.which, TimerIdType::Itimer, None),
                        timestamp: current_time + timer_duration,
                    },
                );
            }
        }
        Outcome::Success(ItimerValue { interval: old_interval, val: old_remaining })
    }
}

/// Setting an interval timer and then reading it gives back what was set: the stored
/// interval, and the value as the time left until the first expiry (the interval when
/// the value is zero; 0 when both are, and nothing is scheduled). `l`, `q` and `now` are
/// the process state, queue and time `setitimer` starts from; the queue it leaves is the
/// one its contract states.
pub proof fn lemma_itimer_set_then_get(l: LocalState, q: Seq<ScheduledItem>, now: u128, which: TimerType, v: ItimerValue)
    requires
        which == TimerType::Real || which == TimerType::Virtual || which == TimerType::Prof,
        now + first_expiry(v) <= MAX_DURATION_NANOS,
    ensures
        ({
            let kept = without_selected(q, l.pid, TimerSel::Itimer(which));
            let q2 = if first_expiry(v) == 0 {
                kept
            } else {
                kept.push(
                    ScheduledItem {
                        info: ReadyInfo::Timer(l.pid, which, TimerIdType::Itimer, None),
                        timestamp: (now + first_expiry(v)) as u128,
                    },
                )
            };
            &&& interval_of(itimer_of(set_itimer(l, which, v.interval), which)) == v.interval
            &&& remaining(q2, l.pid, TimerSel::Itimer(which), now) == first_expiry(v)
        }),
{
    let kept = without_selected(q, l.pid, TimerSel::Itimer(which));
    lemma_without_selected(q, l.pid, TimerSel::Itimer(which));
    let item = ScheduledItem {
        info: ReadyInfo::Timer(l.pid, which, TimerIdType::Itimer, None),
        timestamp: (now + first_expiry(v)) as u128,
    };
    if first_expiry(v) == 0 {
        lemma_first_selected_none(kept, l.pid, TimerSel::Itimer(which), 0);
    } else {
        let q2 = kept.push(item);
        lemma_first_selected_after(q2, l.pid, TimerSel::Itimer(which), 0, kept.len() as int);
    }
}

/// After dropping the selected items, none is left.
pub proof fn lemma_without_selected(q: Seq<ScheduledItem>, pid: i32, sel: TimerSel)
    ensures
        forall|i: int|
            0 <= i < without_selected(q, pid, sel).len() ==> !selects(
                #[trigger] without_selected(q, pid, sel)[i],
                pid,
                sel,
            ),
    decreases q.len(),
{
    if q.len() > 0 {
        lemma_without_selected(q.drop_last(), pid, sel);
        let rest = without_selected(q.drop_last(), pid, sel);
        let all = without_selected(q, pid, sel);
        assert forall|i: int| 0 <= i < all.len() implies !selects(#[trigger] all[i], pid, sel) by {
            if i < rest.len() {
                assert(all[i] == rest[i]);
            }
        }
    }
}

proof fn lemma_first_selected_none(q: Seq<ScheduledItem>, pid: i32, sel: TimerSel, i: int)
    requires
        0 <= i,
        forall|k: int| i <= k < q.len() ==> !selects(#[trigger] q[k], pid, sel),
    ensures
        first_selected(q, pid, sel, i) is None,
    decreases q.len() - i,
{
    if i < q.len() {
        lemma_first_selected_none(q, pid, sel, i + 1);
    }
}

proof fn lemma_first_selected_after(q: Seq<ScheduledItem>, pid: i32, sel: TimerSel, i: int, j: int)
    requires
        0 <= i <= j < q.len(),
        selects(q[j], pid, sel),
        forall|k: int| i <= k < j ==> !selects(#[trigger] q[k], pid, sel),
    ensures
        first_selected(q, pid, sel, i) == Some(j),
    decreases j - i,
{
    if i < j {
        lemma_first_selected_after(q, pid, sel, i + 1, j);
    }
}


/// `clock_gettime` and friends: the emulated current time.
pub struct GetTimeEvent;

impl GetTimeEvent {
    pub fn run(&mut self, state: &FizzleState) -> (r: Outcome<u128, Errno>)
        ensures
            r == Outcome::<u128, Errno>::Success(state.global.current_time),
    {
        Outcome::Success(state.global.current_time)
    }
}

/// Process times as `times()` reports them, in clock ticks.
#[derive(Clone, Copy, Debug, PartialEq, Eq, Structural)]
pub struct Times {
    pub tms_utime: i64,
    pub tms_stime: i64,
    pub tms_cutime: i64,
    pub tms_cstime: i64,
}

/// The tick count `times()` reports: the nanoseconds since the epoch of the counters,
/// as `i64`, on a 4 GHz clock.
pub open spec fn ticks(now: u128) -> int {
    4 * (((now - TIMES_EPOCH_NANOS) as u128) as i64)
}

/// `times`.
pub struct GetTimesEvent;

impl GetTimesEvent {
    /// Every counter reads the time elapsed since the counters' epoch on a 4 GHz clock.
    pub fn run(&mut self, state: &FizzleState) -> (r: Outcome<Times, Errno>)
        requires
            state.global.current_time >= TIMES_EPOCH_NANOS,
            i64::MIN <= ticks(state.global.current_time) <= i64::MAX,
        ensures
            r == Outcome::<Times, Errno>::Success(
                Times {
                    tms_utime: ticks(state.global.current_time) as i64,
                    tms_stime: ticks(state.global.current_time) as i64,
                    tms_cutime: ticks(state.global.current_time) as i64,
                    tms_cstime: ticks(state.global.current_time) as i64,
                },
            ),
    {
        let diff = state.global.current_time - TIMES_EPOCH_NANOS;
        let t = 4 * (diff as i64);
        Outcome::Success(Times { tms_utime: t, tms_stime: t, tms_cutime: t, tms_cstime: t })
    }
}

/// `timer_create`.
pub struct TimerCreateEvent {
    pub clockid: i32,
    pub signal_to_send: Option<i32>,
}

/// A new POSIX timer on `clockid`, disarmed.
pub open spec fn fresh_timer(clockid: i32, signal: Option<i32>) -> TimerPosixInfo {
    TimerPosixInfo { clockid, interval: 0, signal, exptime: 0, overruns: 0 }
}

impl TimerCreateEvent {
    pub fn new(clockid: i32, signal_to_send: Option<i32>) -> (r: Self)
        ensures
            r.clockid == clockid,
            r.signal_to_send == signal_to_send,
    {
        Self { clockid, signal_to_send }
    }

    /// Creates a disarmed timer under the next free identifier and returns it.
    pub fn run(&mut self, state: &mut FizzleState) -> (r: Outcome<i64, ()>)
        requires
            old(state).wf(),
            old(state).local.timer_posix_state.next_timer < i64::MAX,
        ensures
            final(state).wf(),
            final(state).global == old(state).global,
            r == Outcome::<i64, ()>::Success(old(state).local.timer_posix_state.next_timer),
            final(state).local.timer_posix_state.next_timer == old(state).local.timer_posix_state.next_timer + 1,
            final(state).local.timers_posix@ == old(state).local.timers_posix@.insert(
                old(state).local.timer_posix_state.next_timer as int,
                fresh_timer(old(self).clockid, old(self).signal_to_send),
            ),
            final(state).local == (LocalState {
                timers_posix: final(state).local.timers_posix,
                timer_posix_state: final(state).local.timer_posix_state,
                ..old(state).local
            }),
    {
        state.local.timer_posix_state.next_timer += 1;
        let current_timer_id = state.local.timer_posix_state.next_timer - 1;
        state.local.timers_posix.insert(
            current_timer_id as i128,
            TimerPosixInfo {
                clockid: self.clockid,
                interval: 0,
                signal: self.signal_to_send,
                exptime: 0,
                overruns: 0,
            },
        );
        Outcome::Success(current_timer_id)
    }
}

/// `timer_delete`.
pub struct TimerDeleteEvent {
    pub timerid: i64,
}

impl TimerDeleteEvent {
    pub fn new(timerid: i64) -> (r: Self)
        ensures
            r.timerid == timerid,
    {
        Self { timerid }
    }

    /// Removes this timer's pending expiries from the scheduler's queue (every other item
    /// stays, in order), and succeeds whether or not the timer exists.
    pub fn run(&mut self, state: &mut FizzleState) -> (r: Outcome<(), ()>)
        ensures
            r == Outcome::<(), ()>::Success(()),
            final(state).local == old(state).local,
            final(state).global.ready@ == without_selected(
                old(state).global.ready@,
                old(state).local.pid,
                TimerSel::Posix(old(self).timerid)),
            final(state).global == (GlobalState { ready: final(state).global.ready, ..old(state).global }),
    {
        let current_pid = state.local.pid;
        drop_selected(&mut state.global.ready, current_pid, TimerSel::Posix(self.timerid));
        Outcome::Success(())
    }
}

/// `timer_gettime`.
pub struct TimerGettimeEvent {
    pub timerid: i64,
}

impl TimerGettimeEvent {
    pub fn new(timerid: i64) -> (r: Self)
        ensures
            r.timerid == timerid,
    {
        Self { timerid }
    }

    /// The timer's interval and the time left until its first scheduled expiry; `EINVAL`
    /// for an unknown timer.
    pub fn run(&mut self, state: &FizzleState) -> (r: Outcome<ItimerValue, Errno>)
        requires
            state.wf(),
        ensures
            final(self).timerid == old(self).timerid,
            !state.local.timers_posix@.contains_key(old(self).timerid as int) ==> r
                == Outcome::<ItimerValue, Errno>::Error(Errno::EINVAL),
            state.local.timers_posix@.contains_key(old(self).timerid as int) ==> r
                == Outcome::<ItimerValue, Errno>::Success(
                ItimerValue {
                    interval: state.local.timers_posix@[old(self).timerid as int].interval,
                    val: remaining(
                        state.global.ready@,
                        state.local.pid,
                        TimerSel::Posix(old(self).timerid),
                        state.global.current_time,
                    ),
                },
            ),
    {
        let info = match state.local.timers_posix.get(self.timerid as i128) {
            Some(i) => *i,
            None => return Outcome::Error(Errno::EINVAL),
        };
        let val = find_remaining(
            &state.global.ready,
            state.local.pid,
            TimerSel::Posix(self.timerid),
            state.global.current_time,
        );
        Outcome::Success(ItimerValue { interval: info.interval, val })
    }
}

/// The expiry time stored by `timer_settime`: the new value, made relative to `now` when
/// it is absolute.
pub open spec fn settime_exptime(is_absolute: bool, v: ItimerValue, now: u128) -> u128 {
    if is_absolute {
        (v.val - now) as u128
    } else {
        v.val
    }
}

/// How long after now a timer set by `timer_settime` is scheduled, as `setitimer` does:
/// its expiry time, or the interval when the expiry time is zero (zero when both are, and
/// then nothing is scheduled).
pub open spec fn settime_delay(interval: u128, exptime: u128) -> u128 {
    if exptime == 0 {
        interval
    } else {
        exptime
    }
}

/// The queue after `timer_settime` on a timer selected by `sel`: its pending expiries are
/// removed (every other item stays, in order), and the new expiry is appended when there
/// is one.
pub open spec fn settime_queue(
    q: Seq<ScheduledItem>,
    pid: i32,
    sel: TimerSel,
    id: TimerIdType,
    signal: Option<i32>,
    delay: u128,
    now: u128,
) -> Seq<ScheduledItem> {
    let kept = without_selected(q, pid, sel);
    if delay == 0 {
        kept
    } else {
        kept.push(
            ScheduledItem {
                info: ReadyInfo::Timer(pid, TimerType::ClockRealtime, id, signal),
                timestamp: (now + delay) as u128,
            },
        )
    }
}

/// Re-arms the POSIX timer `id` (known to exist) as `timer_settime` does; shared by
/// `timer_settime` and `timerfd_settime`.
fn settime_core(
    state: &mut FizzleState,
    id: i64,
    sel: TimerSel,
    ready_id: TimerIdType,
    is_absolute: bool,
    new_value: ItimerValue,
) -> (r: ItimerValue)
    requires
        old(state).wf(),
        old(state).local.timers_posix@.contains_key(id as int),
        is_absolute ==> new_value.val >= old(state).global.current_time,
        old(state).global.current_time + settime_delay(
            new_value.interval,
            settime_exptime(is_absolute, new_value, old(state).global.current_time),
        ) <= MAX_DURATION_NANOS,
    ensures
        final(state).wf(),
        ({
            let info = old(state).local.timers_posix@[id as int];
            let now = old(state).global.current_time;
            let exptime = settime_exptime(is_absolute, new_value, now);
            &&& r == (ItimerValue {
                interval: info.interval,
                val: remaining(old(state).global.ready@, old(state).local.pid, sel, now),
            })
            &&& final(state).local.timers_posix@ == old(state).local.timers_posix@.insert(
                id as int,
                TimerPosixInfo { interval: new_value.interval, exptime, ..info },
            )
            &&& final(state).global.ready@ == settime_queue(
                old(state).global.ready@,
                old(state).local.pid,
                sel,
                ready_id,
                info.signal,
                settime_delay(new_value.interval, exptime),
                now,
            )
        }),
        final(state).local == (LocalState { timers_posix: final(state).local.timers_posix, ..old(state).local }),
        final(state).global == (GlobalState { ready: final(state).global.ready, ..old(state).global }),
{
    let current_time = state.global.current_time;
    let mut timer_info = match state.local.timers_posix.get(id as i128) {
        Some(i) => *i,
        None => {
            assert(false);
            TimerPosixInfo { clockid: 0, interval: 0, signal: None, exptime: 0, overruns: 0 }
        },
    };
    let old_interval = timer_info.interval;
    let current_pid = state.local.pid;
    let old_remaining = find_remaining(&state.global.ready, current_pid, sel, current_time);
    drop_selected(&mut state.global.ready, current_pid, sel);
    timer_info.interval = new_value.interval;
    if is_absolute {
        timer_info.exptime = new_value.val - current_time;
    } else {
        timer_info.exptime = new_value.val;
    }
    state.local.timers_posix.insert(id as i128, timer_info);
    let timer_duration = if timer_info.exptime == 0 {
        timer_info.interval
    } else {
        timer_info.exptime
    };
    if timer_duration != 0 {
        state.global.ready.push(
            ScheduledItem {
                info: ReadyInfo::Timer(current_pid, TimerType::ClockRealtime, ready_id, timer_info.signal),
                timestamp: current_time + timer_duration,
            },
        );
    }
    ItimerValue { interval: old_interval, val: old_remaining }
}

/// `timer_settime`.
pub struct TimerSettimeEvent {
    pub timerid: i64,
    pub is_absolute: bool,
    pub new_value: ItimerValue,
}

impl TimerSettimeEvent {
    pub fn new(timerid: i64, is_absolute: bool, new_value: ItimerValue) -> (r: Self)
        ensures
            r.timerid == timerid,
            r.is_absolute == is_absolute,
            r.new_value == new_value,
    {
        Self { timerid, is_absolute, new_value }
    }

    /// Returns the timer's previous interval and time left, stores the new interval and
    /// (relative) expiry time, removes this timer's pending expiries from the scheduler's
    /// queue (every other item stays), and schedules the next expiry after the new value
    /// (after the interval when the value is zero; none when both are, see
    /// `settime_delay`); `EINVAL` for an unknown timer.
    pub fn run(&mut self, state: &mut FizzleState) -> (r: Outcome<ItimerValue, Errno>)
        requires
            old(state).wf(),
            old(state).local.timers_posix@.contains_key(old(self).timerid as int) ==> {
                &&& old(self).is_absolute ==> old(self).new_value.val >= old(state).global.current_time
                &&& old(state).global.current_time + settime_delay(
                    old(self).new_value.interval,
                    settime_exptime(old(self).is_absolute, old(self).new_value, old(state).global.current_time),
                ) <= MAX_DURATION_NANOS
            },
        ensures
            final(state).wf(),
            final(self).timerid == old(self).timerid,
            final(self).is_absolute == old(self).is_absolute,
            final(self).new_value == old(self).new_value,
            !old(state).local.timers_posix@.contains_key(old(self).timerid as int) ==> r
                == Outcome::<ItimerValue, Errno>::Error(Errno::EINVAL) && final(state).local
                == old(state).local && final(state).global == old(state).global,
            old(state).local.timers_posix@.contains_key(old(self).timerid as int) ==> ({
                let id = old(self).timerid;
                let info = old(state).local.timers_posix@[id as int];
                let now = old(state).global.current_time;
                let exptime = settime_exptime(old(self).is_absolute, old(self).new_value, now);
                &&& r == Outcome::<ItimerValue, Errno>::Success(
                    ItimerValue {
                        interval: info.interval,
                        val: remaining(old(state).global.ready@, old(state).local.pid, TimerSel::Posix(id), now),
                    },
                )
                &&& final(state).local.timers_posix@ == old(state).local.timers_posix@.insert(
                    id as int,
                    TimerPosixInfo { interval: old(self).new_value.interval, exptime, ..info },
                )
                &&& final(state).global.ready@ == settime_queue(
                    old(state).global.ready@,
                    old(state).local.pid,
                    TimerSel::Posix(id),
                    TimerIdType::Timer(id),
                    info.signal,
                    settime_delay(old(self).new_value.interval, exptime),
                    now,
                )
                &&& final(state).local == (LocalState {
                    timers_posix: final(state).local.timers_posix,
                    ..old(state).local
                })
                &&& final(state).global == (GlobalState { ready: final(state).global.ready, ..old(state).global })
            }),
    {
        if !state.local.timers_posix.contains(self.timerid as i128) {
            return Outcome::Error(Errno::EINVAL);
        }
        let old_value = settime_core(
            state,
            self.timerid,
            TimerSel::Posix(self.timerid),
            TimerIdType::Timer(self.timerid),
            self.is_absolute,
            self.new_value,
        );
        Outcome::Success(old_value)
    }
}

/// `timerfd_create`.
pub struct TimerfdCreateEvent {
    /// The file descriptor number with which to create this timer descriptor
    pub fd: i32,
    pub clockid: i32,
}

impl TimerfdCreateEvent {
    pub fn new(fd: i32, clockid: i32) -> (r: Self)
        ensures
            r.fd == fd,
            r.clockid == clockid,
    {
        Self { fd, clockid }
    }

    /// Creates a disarmed timer under the next free identifier and registers the
    /// descriptor as a timer descriptor for it, not yet readable; returns the timer's
    /// identifier.
    pub fn run(&mut self, state: &mut FizzleState) -> (r: Outcome<i64, Errno>)
        requires
            old(state).wf(),
            old(state).local.timer_posix_state.next_timer < i64::MAX,
        ensures
            final(state).wf(),
            final(state).global == old(state).global,
            ({
                let id = old(state).local.timer_posix_state.next_timer;
                &&& r == Outcome::<i64, Errno>::Success(id)
                &&& final(state).local.timer_posix_state.next_timer == id + 1
                &&& final(state).local.timers_posix@ == old(state).local.timers_posix@.insert(
                    id as int,
                    fresh_timer(old(self).clockid, None),
                )
                &&& final(state).local.fds@ == old(state).local.fds@.insert(
                    old(self).fd as int,
                    DescriptorInfo {
                        close_on_exec: false,
                        nonblocking: false,
                        is_passthrough: false,
                        is_random: false,
                        resource: FdResource::Timerfd(TimerfdInfo { polled_raised: false, timerid: id }),
                    },
                )
                &&& final(state).local == (LocalState {
                    timers_posix: final(state).local.timers_posix,
                    timer_posix_state: final(state).local.timer_posix_state,
                    fds: final(state).local.fds,
                    ..old(state).local
                })
            }),
    {
        state.local.timer_posix_state.next_timer += 1;
        let current_timer_id = state.local.timer_posix_state.next_timer - 1;
        state.local.timers_posix.insert(
            current_timer_id as i128,
            TimerPosixInfo { clockid: self.clockid, interval: 0, signal: None, exptime: 0, overruns: 0 },
        );
        state.local.fds.insert(
            self.fd as i128,
            DescriptorInfo {
                close_on_exec: false,
                nonblocking: false,
                is_passthrough: false,
                is_random: false,
                resource: FdResource::Timerfd(TimerfdInfo { polled_raised: false, timerid: current_timer_id }),
            },
        );
        Outcome::Success(current_timer_id)
    }
}

/// The timer behind a timer descriptor, if the descriptor is one.
pub open spec fn timerfd_timer(fds: Map<int, DescriptorInfo>, fd: i32) -> Option<i64> {
    if fds.contains_key(fd as int) {
        match fds[fd as int].resource {
            FdResource::Timerfd(info) => Some(info.timerid),
            _ => None,
        }
    } else {
        None
    }
}

/// `timerfd_settime`.
pub struct TimerfdSettimeEvent {
    pub fd: i32,
    pub is_absolute: bool,
    pub new_value: ItimerValue,
}

impl TimerfdSettimeEvent {
    pub fn new(fd: i32, is_absolute: bool, new_value: ItimerValue) -> (r: Self)
        ensures
            r.fd == fd,
            r.is_absolute == is_absolute,
            r.new_value == new_value,
    {
        Self { fd, is_absolute, new_value }
    }

    /// As `timer_settime` on the descriptor's timer, with the descriptor's expiries in the
    /// scheduler's queue; `EBADF` for an unknown descriptor and `EINVAL` for one that is
    /// not a timer descriptor.
    pub fn run(&mut self, state: &mut FizzleState) -> (r: Outcome<ItimerValue, Errno>)
        requires
            old(state).wf(),
            timerfd_timer(old(state).local.fds@, old(self).fd) matches Some(id) ==> {
                &&& old(state).local.timers_posix@.contains_key(id as int)
                &&& old(self).is_absolute ==> old(self).new_value.val >= old(state).global.current_time
                &&& old(state).global.current_time + settime_delay(
                    old(self).new_value.interval,
                    settime_exptime(old(self).is_absolute, old(self).new_value, old(state).global.current_time),
                ) <= MAX_DURATION_NANOS
            },
        ensures
            final(state).wf(),
            final(self).fd == old(self).fd,
            final(self).is_absolute == old(self).is_absolute,
            final(self).new_value == old(self).new_value,
            !old(state).local.fds@.contains_key(old(self).fd as int) ==> r == Outcome::<ItimerValue, Errno>::Error(
                Errno::EBADF,
            ) && final(state).local == old(state).local && final(state).global == old(state).global,
            old(state).local.fds@.contains_key(old(self).fd as int) && timerfd_timer(
                old(state).local.fds@,
                old(self).fd,
            ) is None ==> r == Outcome::<ItimerValue, Errno>::Error(Errno::EINVAL) && final(state).local
                == old(state).local && final(state).global == old(state).global,
            timerfd_timer(old(state).local.fds@, old(self).fd) matches Some(id) ==> ({
                let info = old(state).local.timers_posix@[id as int];
                let now = old(state).global.current_time;
                let exptime = settime_exptime(old(self).is_absolute, old(self).new_value, now);
                &&& r == Outcome::<ItimerValue, Errno>::Success(
                    ItimerValue {
                        interval: info.interval,
                        val: remaining(
                            old(state).global.ready@,
                            old(state).local.pid,
                            TimerSel::Fd(old(self).fd),
                            now,
                        ),
                    },
                )
                &&& final(state).local.timers_posix@ == old(state).local.timers_posix@.insert(
                    id as int,
                    TimerPosixInfo { interval: old(self).new_value.interval, exptime, ..info },
                )
                &&& final(state).global.ready@ == settime_queue(
                    old(state).global.ready@,
                    old(state).local.pid,
                    TimerSel::Fd(old(self).fd),
                    TimerIdType::Fd(old(self).fd),
                    info.signal,
                    settime_delay(old(self).new_value.interval, exptime),
                    now,
                )
                &&& final(state).local == (LocalState {
                    timers_posix: final(state).local.timers_posix,
                    ..old(state).local
                })
                &&& final(state).global == (GlobalState { ready: final(state).global.ready, ..old(state).global })
            }),
    {
        let id = match state.local.fds.get(self.fd as i128) {
            None => return Outcome::Error(Errno::EBADF),
            Some(d) => match d.resource {
                FdResource::Timerfd(info) => info.timerid,
                _ => return Outcome::Error(Errno::EINVAL),
            },
        };
        let old_value = settime_core(
            state,
            id,
            TimerSel::Fd(self.fd),
            TimerIdType::Fd(self.fd),
            self.is_absolute,
            self.new_value,
        );
        Outcome::Success(old_value)
    }
}

/// Reading a POSIX timer right after setting it with a non-zero value gives back, as time
/// left, the expiry time set (the interval set is stored, see `timer_settime`).
pub proof fn lemma_settime_then_gettime(
    q: Seq<ScheduledItem>,
    pid: i32,
    id: i64,
    signal: Option<i32>,
    interval: u128,
    exptime: u128,
    now: u128,
)
    requires
        exptime != 0,
        now + exptime <= MAX_DURATION_NANOS,
    ensures
        remaining(
            settime_queue(q, pid, TimerSel::Posix(id), TimerIdType::Timer(id), signal, settime_delay(interval, exptime), now),
            pid,
            TimerSel::Posix(id),
            now,
        ) == exptime,
{
    lemma_without_selected(q, pid, TimerSel::Posix(id));
    let kept = without_selected(q, pid, TimerSel::Posix(id));
    let q2 = settime_queue(q, pid, TimerSel::Posix(id), TimerIdType::Timer(id), signal, settime_delay(interval, exptime), now);
    assert(q2[kept.len() as int] == q2.last());
    lemma_first_selected_after(q2, pid, TimerSel::Posix(id), 0, kept.len() as int);
}

/// The total length of a list of buffers.
pub open spec fn total_len(d: Seq<Vec<u8>>) -> nat
    decreases d.len(),
{
    if d.len() == 0 {
        0
    } else {
        total_len(d.drop_last()) + d.last()@.len()
    }
}

/// Each buffer of `out` holds the bytes of `src` at the offset where the buffers before
/// it (with the lengths of `d`) end, as many as its length in `d`.
pub open spec fn scattered(src: Seq<u8>, d: Seq<Vec<u8>>, out: Seq<Vec<u8>>) -> bool {
    &&& out.len() == d.len()
    &&& forall|i: int|
        0 <= i < d.len() ==> #[trigger] out[i]@ == src.subrange(
            total_len(d.take(i)) as int,
            (total_len(d.take(i)) + d[i]@.len()) as int,
        )
}

proof fn lemma_total_len_prefix(d: Seq<Vec<u8>>, i: int)
    requires
        0 <= i <= d.len(),
    ensures
        total_len(d.take(i)) <= total_len(d),
    decreases d.len() - i,
{
    if i < d.len() {
        lemma_total_len_prefix(d, i + 1);
        assert(d.take(i + 1).drop_last() =~= d.take(i));
    } else {
        assert(d.take(i) =~= d);
    }
}

/// Copies `src` across the buffers of `d` in order, each buffer taking as many bytes as
/// it is long, and returns the number of bytes copied.
pub fn scatter(src: &[u8], d: &Vec<Vec<u8>>) -> (r: (Vec<Vec<u8>>, usize))
    requires
        total_len(d@) <= src@.len(),
    ensures
        scattered(src@, d@, r.0@),
        r.1 == total_len(d@),
{
    let mut out: Vec<Vec<u8>> = Vec::new();
    let mut total: usize = 0;
    let mut i: usize = 0;
    let _src_len = src.len();
    while i < d.len()
        invariant
            i <= d@.len(),
            src@.len() <= usize::MAX,
            total_len(d@) <= src@.len(),
            total == total_len(d@.take(i as int)),
            out@.len() == i,
            forall|j: int|
                0 <= j < i ==> #[trigger] out@[j]@ == src@.subrange(
                    total_len(d@.take(j)) as int,
                    (total_len(d@.take(j)) + d@[j]@.len()) as int,
                ),
        decreases d@.len() - i,
    {
        proof {
            assert(d@.take(i + 1).drop_last() =~= d@.take(i as int));
            lemma_total_len_prefix(d@, i + 1);
            assert(d@.take(i + 1).last() == d@[i as int]);
        }
        let len = d[i].len();
        assert(total + len == total_len(d@.take(i + 1)));
        let mut buf: Vec<u8> = Vec::new();
        let mut k: usize = 0;
        while k < len
            invariant
                k <= len,
                i < d@.len(),
                src@.len() <= usize::MAX,
                len == d@[i as int]@.len(),
                total + len <= src@.len(),
                buf@ == src@.subrange(total as int, total + k),
            decreases len - k,
        {
            buf.push(src[total + k]);
            k += 1;
            proof {
                assert(buf@ =~= src@.subrange(total as int, total + k));
            }
        }
        out.push(buf);
        total += len;
        i += 1;
    }
    proof {
        assert(d@.take(d@.len() as int) =~= d@);
    }
    (out, total)
}

#[derive(Clone, Copy, Debug, PartialEq, Eq, Structural)]
pub enum TimerfdReadState {
    Start,
    /// Waiting ended; the poller registered for the wait, if any.
    Finish(Option<i64>),
}

/// `read` on a timer descriptor: the buffers in `data` receive the 8-byte expiry count.
pub struct TimerfdReadEvent {
    pub fd: i32,
    pub nonblocking: bool,
    pub data: Vec<Vec<u8>>,
    pub state: TimerfdReadState,
}

impl TimerfdReadEvent {
    pub fn new(fd: i32, nonblocking: bool, data: Vec<Vec<u8>>) -> (r: Self)
        ensures
            r.fd == fd,
            r.nonblocking == nonblocking,
            r.data@ == data@,
            r.state == TimerfdReadState::Start,
    {
        Self { fd, nonblocking, data, state: TimerfdReadState::Start }
    }

    /// First run: when the descriptor is readable, goes on at once; otherwise fails with
    /// `EAGAIN` when nonblocking, or registers a poller on the descriptor and yields until
    /// woken. Second run: drops the poller and copies the timer's expiry count, as 8
    /// bytes in the given byte order (least significant first when `little`), into the
    /// buffers in order (see `filled_from`: bytes beyond the 8 keep what they held);
    /// returns the number of bytes copied, at most 8.
    pub fn run_ordered(&mut self, state: &mut FizzleState, little: bool) -> (r: Outcome<usize, Errno>)
        requires
            old(state).wf(),
            timerfd_timer(old(state).local.fds@, old(self).fd) is Some,
            old(self).state == TimerfdReadState::Start ==> old(state).global.next_poller < i64::MAX,
            old(self).state != TimerfdReadState::Start ==> {
                &&& old(state).local.timers_posix@.contains_key(
                    timerfd_timer(old(state).local.fds@, old(self).fd)->Some_0 as int,
                )
            },
        ensures
            final(state).wf(),
            final(self).fd == old(self).fd,
            final(self).nonblocking == old(self).nonblocking,
            final(state).local == old(state).local,
            final(state).global == (GlobalState { pollers: final(state).global.pollers, next_poller: final(state).global.next_poller, ..old(state).global }),
            old(self).state == TimerfdReadState::Start ==> {
                let raised = match old(state).local.fds@[old(self).fd as int].resource {
                    FdResource::Timerfd(info) => info.polled_raised,
                    _ => false,
                };
                &&& final(self).data == old(self).data
                &&& if raised {
                    &&& r == Outcome::<usize, Errno>::Yield(YieldUntil::Immediate)
                    &&& final(self).state == TimerfdReadState::Finish(None)
                    &&& final(state).global.pollers == old(state).global.pollers
                    &&& final(state).global.next_poller == old(state).global.next_poller
                } else if old(self).nonblocking {
                    &&& r == Outcome::<usize, Errno>::Error(Errno::EAGAIN)
                    &&& final(self).state == old(self).state
                    &&& final(state).global.pollers == old(state).global.pollers
                    &&& final(state).global.next_poller == old(state).global.next_poller
                } else {
                    let p = old(state).global.next_poller;
                    &&& r == Outcome::<usize, Errno>::Yield(YieldUntil::Indefinite)
                    &&& final(self).state == TimerfdReadState::Finish(Some(p))
                    &&& final(state).global.pollers@ == old(state).global.pollers@.insert(p as int, Polled::Timerfd(old(self).fd))
                    &&& final(state).global.next_poller == p + 1
                }
            },
            old(self).state matches TimerfdReadState::Finish(poller) ==> {
                let id = timerfd_timer(old(state).local.fds@, old(self).fd)->Some_0;
                let overruns = old(state).local.timers_posix@[id as int].overruns as u64;
                &&& r == Outcome::<usize, Errno>::Success(min_nat(total_len(old(self).data@), 8) as usize)
                &&& final(self).state == old(self).state
                &&& filled_from(old(self).data@, int_bytes(overruns as nat, 8, little), final(self).data@)
                &&& final(state).global.pollers@ == match poller {
                    Some(p) => old(state).global.pollers@.remove(p as int),
                    None => old(state).global.pollers@,
                }
                &&& final(state).global.next_poller == old(state).global.next_poller
            },
    {
        let timer_id = match state.local.fds.get(self.fd as i128) {
            Some(d) => match d.resource {
                FdResource::Timerfd(info) => info,
                _ => {
                    assert(false);
                    TimerfdInfo { polled_raised: false, timerid: 0 }
                },
            },
            None => {
                assert(false);
                TimerfdInfo { polled_raised: false, timerid: 0 }
            },
        };
        match self.state {
            TimerfdReadState::Start => {
                if timer_id.polled_raised {
                    self.state = TimerfdReadState::Finish(None);
                    Outcome::Yield(YieldUntil::Immediate)
                } else if self.nonblocking {
                    Outcome::Error(Errno::EAGAIN)
                } else {
                    let poller_id = state.global.next_poller;
                    state.global.next_poller += 1;
                    state.global.pollers.insert(poller_id as i128, Polled::Timerfd(self.fd));
                    self.state = TimerfdReadState::Finish(Some(poller_id));
                    Outcome::Yield(YieldUntil::Indefinite)
                }
            },
            TimerfdReadState::Finish(poller) => {
                if let Some(p) = poller {
                    state.global.pollers.remove(p as i128);
                }
                let timer_info = match state.local.timers_posix.get(timer_id.timerid as i128) {
                    Some(i) => *i,
                    None => {
                        assert(false);
                        TimerPosixInfo { clockid: 0, interval: 0, signal: None, exptime: 0, overruns: 0 }
                    },
                };
                let overruns: u64 = timer_info.overruns as u64;
                let overruns_bytes = int_to_bytes(overruns, 8, little);
                let (filled, total_read) = fill_from(&self.data, overruns_bytes.as_slice());
                self.data = filled;
                Outcome::Success(total_read)
            },
        }
    }

    /// First run: when the descriptor is readable, goes on at once; otherwise fails with
    /// `EAGAIN` when nonblocking, or registers a poller on the descriptor and yields until
    /// woken. Second run: drops the poller and copies the timer's expiry count, as 8
    /// bytes in the machine's byte order (see `run_ordered`), into the buffers; returns
    /// the number of bytes copied, at most 8.
    pub fn run(&mut self, state: &mut FizzleState) -> (r: Outcome<usize, Errno>)
        requires
            old(state).wf(),
            timerfd_timer(old(state).local.fds@, old(self).fd) is Some,
            old(self).state == TimerfdReadState::Start ==> old(state).global.next_poller < i64::MAX,
            old(self).state != TimerfdReadState::Start ==> {
                &&& old(state).local.timers_posix@.contains_key(
                    timerfd_timer(old(state).local.fds@, old(self).fd)->Some_0 as int,
                )
            },
        ensures
            final(state).wf(),
            final(self).fd == old(self).fd,
            final(self).nonblocking == old(self).nonblocking,
            final(state).local == old(state).local,
            final(state).global == (GlobalState { pollers: final(state).global.pollers, next_poller: final(state).global.next_poller, ..old(state).global }),
            old(self).state == TimerfdReadState::Start ==> {
                let raised = match old(state).local.fds@[old(self).fd as int].resource {
                    FdResource::Timerfd(info) => info.polled_raised,
                    _ => false,
                };
                &&& final(self).data == old(self).data
                &&& if raised {
                    &&& r == Outcome::<usize, Errno>::Yield(YieldUntil::Immediate)
                    &&& final(self).state == TimerfdReadState::Finish(None)
                    &&& final(state).global.pollers == old(state).global.pollers
                    &&& final(state).global.next_poller == old(state).global.next_poller
                } else if old(self).nonblocking {
                    &&& r == Outcome::<usize, Errno>::Error(Errno::EAGAIN)
                    &&& final(self).state == old(self).state
                    &&& final(state).global.pollers == old(state).global.pollers
                    &&& final(state).global.next_poller == old(state).global.next_poller
                } else {
                    let p = old(state).global.next_poller;
                    &&& r == Outcome::<usize, Errno>::Yield(YieldUntil::Indefinite)
                    &&& final(self).state == TimerfdReadState::Finish(Some(p))
                    &&& final(state).global.pollers@ == old(state).global.pollers@.insert(p as int, Polled::Timerfd(old(self).fd))
                    &&& final(state).global.next_poller == p + 1
                }
            },
            old(self).state matches TimerfdReadState::Finish(poller) ==> {
                let id = timerfd_timer(old(state).local.fds@, old(self).fd)->Some_0;
                let overruns = old(state).local.timers_posix@[id as int].overruns as u64;
                &&& r == Outcome::<usize, Errno>::Success(min_nat(total_len(old(self).data@), 8) as usize)
                &&& final(self).state == old(self).state
                &&& (filled_from(old(self).data@, int_bytes(overruns as nat, 8, true), final(self).data@)
                    || filled_from(old(self).data@, int_bytes(overruns as nat, 8, false), final(self).data@))
                &&& final(state).global.pollers@ == match poller {
                    Some(p) => old(state).global.pollers@.remove(p as int),
                    None => old(state).global.pollers@,
                }
                &&& final(state).global.next_poller == old(state).global.next_poller
            },
    {
        let little = native_little_endian();
        self.run_ordered(state, little)
    }
}
} // verus!
