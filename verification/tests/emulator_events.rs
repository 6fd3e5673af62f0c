use fizzle::errno::Errno;
use fizzle::scheduler::{Outcome, YieldUntil};
use fizzle::sleep::SleepEvent;
use fizzle::spinlock::{
    SpinlockPtr, ThreadSpinDestroyEvent, ThreadSpinInitEvent, ThreadSpinLockEvent,
    ThreadSpinUnlockEvent,
};
use fizzle::state::{
    FizzleState, PThreadRoutine, ReadyInfo, SignalInfo, TimerIdType, TimerPosixInfo, TimerType,
};
use fizzle::thread::{
    index_of_thread, ThreadCancelType, ThreadCleanupPopEvent, ThreadCleanupPushEvent,
    ThreadHasher, Tid,
};
use fizzle::time::{
    GetItimerEvent, GetTimeEvent, ItimerValue, SetItimerEvent, TimerCreateEvent,
    TimerDeleteEvent, TimerGettimeEvent, TimerSettimeEvent, TimerfdCreateEvent,
    TimerfdReadEvent, TimerfdReadState,
};

fn fresh() -> FizzleState {
    FizzleState::new(7, 40000, 40010, 4096, 2)
}

#[test]
fn spinlock_hand_over() {
    let mut st = fresh();
    let lock = SpinlockPtr::from_addr(0x1000);
    assert_eq!(ThreadSpinInitEvent::new(lock, false).run(&mut st), Outcome::Success(()));

    // Thread 1 takes the free lock at once.
    let mut a = ThreadSpinLockEvent::new(lock, false);
    assert_eq!(a.run(&mut st, 1), Outcome::Success(()));

    // A trylock by thread 2 fails; a blocking lock queues it.
    assert_eq!(ThreadSpinLockEvent::new(lock, true).run(&mut st, 2), Outcome::Error(Errno::EBUSY));
    let mut b = ThreadSpinLockEvent::new(lock, false);
    assert_eq!(b.run(&mut st, 2), Outcome::Yield(YieldUntil::Indefinite));

    // Releasing hands the lock to thread 2 and marks it ready.
    assert_eq!(ThreadSpinUnlockEvent::new(lock).run(&mut st, 1), Outcome::Success(()));
    assert_eq!(st.global.ready_threads, vec![2]);
    assert_eq!(b.run(&mut st, 2), Outcome::Success(()));

    assert_eq!(ThreadSpinUnlockEvent::new(lock).run(&mut st, 2), Outcome::Success(()));
    assert_eq!(st.global.ready_threads, vec![2]);
    assert_eq!(ThreadSpinDestroyEvent::new(lock).run(&mut st), Outcome::Success(()));
    assert!(!st.local.spinlocks.contains(0x1000));
}

#[test]
fn sleep_and_interruption() {
    let mut st = fresh();
    st.local.signals.insert(3, SignalInfo { sigsuspend: false, interrupted: false });
    let mut ev = SleepEvent::new(Some(1_500));
    assert_eq!(ev.run(&mut st, 3), Outcome::Yield(YieldUntil::Timeout(1_500)));
    assert_eq!(*st.local.signals.get(3).unwrap(), SignalInfo { sigsuspend: true, interrupted: false });
    assert_eq!(ev.run(&mut st, 3), Outcome::Success(()));
    assert_eq!(*st.local.signals.get(3).unwrap(), SignalInfo { sigsuspend: false, interrupted: false });

    let mut ev = SleepEvent::new(None);
    assert_eq!(ev.run(&mut st, 3), Outcome::Yield(YieldUntil::Indefinite));
    st.local.signals.insert(3, SignalInfo { sigsuspend: true, interrupted: true });
    assert_eq!(ev.run(&mut st, 3), Outcome::Error(Errno::EINTR));
    assert_eq!(*st.local.signals.get(3).unwrap(), SignalInfo { sigsuspend: false, interrupted: true });
}

#[test]
fn itimer_set_then_get() {
    let mut st = fresh();
    st.global.current_time = 1_000;
    let v = ItimerValue { interval: 50, val: 200 };
    let old = SetItimerEvent::new(TimerType::Real, Some(v)).run(&mut st);
    assert_eq!(old, Outcome::Success(ItimerValue { interval: 0, val: 0 }));
    assert_eq!(st.global.ready.len(), 1);
    assert_eq!(st.global.ready[0].timestamp, 1_200);
    assert_eq!(
        st.global.ready[0].info,
        ReadyInfo::Timer(7, TimerType::Real, TimerIdType::Itimer, None)
    );
    st.global.current_time = 1_150;
    assert_eq!(
        GetItimerEvent::new(TimerType::Real).run(&st),
        Outcome::Success(ItimerValue { interval: 50, val: 50 })
    );
    // Another timer type has nothing scheduled.
    assert_eq!(
        GetItimerEvent::new(TimerType::Prof).run(&st),
        Outcome::Success(ItimerValue { interval: 0, val: 0 })
    );
    // Disarming: a zero value and interval schedule nothing.
    let old = SetItimerEvent::new(TimerType::Real, Some(ItimerValue { interval: 0, val: 0 })).run(&mut st);
    assert_eq!(old, Outcome::Success(ItimerValue { interval: 50, val: 50 }));
    assert!(st.global.ready.is_empty());
    assert!(st.local.itimer_real.is_none());
}

#[test]
fn posix_timer_lifecycle() {
    let mut st = fresh();
    st.global.current_time = 10;
    let id = match TimerCreateEvent::new(1, Some(14)).run(&mut st) {
        Outcome::Success(id) => id,
        _ => panic!("timer_create failed"),
    };
    assert_eq!(id, 0);
    assert_eq!(
        TimerGettimeEvent::new(id).run(&st),
        Outcome::Success(ItimerValue { interval: 0, val: 0 })
    );
    let old = TimerSettimeEvent::new(id, false, ItimerValue { interval: 30, val: 100 }).run(&mut st);
    assert_eq!(old, Outcome::Success(ItimerValue { interval: 0, val: 0 }));
    assert_eq!(st.global.ready.len(), 1);
    assert_eq!(st.global.ready[0].timestamp, 110);
    assert_eq!(
        TimerGettimeEvent::new(id).run(&st),
        Outcome::Success(ItimerValue { interval: 30, val: 100 })
    );
    // A second timer's expiry is queued after the first's.
    let other = match TimerCreateEvent::new(1, Some(15)).run(&mut st) {
        Outcome::Success(id) => id,
        _ => panic!("timer_create failed"),
    };
    let _ = TimerSettimeEvent::new(other, false, ItimerValue { interval: 5, val: 20 }).run(&mut st);
    assert_eq!(st.global.ready.len(), 2);
    // An absolute expiry is made relative to the current time; the timer's earlier
    // expiry is replaced, and the other timer's stays.
    let old = TimerSettimeEvent::new(id, true, ItimerValue { interval: 30, val: 60 }).run(&mut st);
    assert_eq!(old, Outcome::Success(ItimerValue { interval: 30, val: 100 }));
    assert_eq!(st.global.ready.len(), 2);
    assert_eq!(st.global.ready[0].timestamp, 30);
    assert_eq!(st.global.ready[1].timestamp, 60);
    assert_eq!(
        TimerGettimeEvent::new(other).run(&st),
        Outcome::Success(ItimerValue { interval: 5, val: 20 })
    );
    assert_eq!(TimerGettimeEvent::new(99).run(&st), Outcome::Error(Errno::EINVAL));
    assert_eq!(
        TimerSettimeEvent::new(99, false, ItimerValue { interval: 1, val: 1 }).run(&mut st),
        Outcome::Error(Errno::EINVAL)
    );
    // Deleting a timer removes its expiry; the other timer's stays.
    assert_eq!(TimerDeleteEvent::new(id).run(&mut st), Outcome::Success(()));
    assert_eq!(st.global.ready.len(), 1);
    assert_eq!(st.global.ready[0].timestamp, 30);
    // A one-shot timer (no interval) expires once, after its value.
    let _ = TimerSettimeEvent::new(id, false, ItimerValue { interval: 0, val: 7 }).run(&mut st);
    assert_eq!(st.global.ready.len(), 2);
    assert_eq!(st.global.ready[1].timestamp, 17);
}

#[test]
fn clock_reads_emulated_time() {
    let mut st = fresh();
    st.global.current_time = 123_456;
    assert_eq!(GetTimeEvent.run(&st), Outcome::Success(123_456));
}

#[test]
fn timerfd_read_gives_expiry_count_in_native_order() {
    let mut st = fresh();
    let id = match TimerfdCreateEvent::new(9, 1).run(&mut st) {
        Outcome::Success(id) => id,
        _ => panic!("timerfd_create failed"),
    };
    st.local.timers_posix.insert(
        id as i128,
        TimerPosixInfo { clockid: 1, interval: 0, signal: None, exptime: 0, overruns: 0x0102 },
    );
    // Nothing raised: a nonblocking read fails, a blocking one waits on a poller.
    let mut nb = TimerfdReadEvent::new(9, true, vec![vec![0u8; 8]]);
    assert_eq!(nb.run(&mut st), Outcome::Error(Errno::EAGAIN));
    let mut ev = TimerfdReadEvent::new(9, false, vec![vec![0u8; 3], vec![0u8; 5]]);
    assert_eq!(ev.run(&mut st), Outcome::Yield(YieldUntil::Indefinite));
    assert!(st.global.pollers.contains(0));
    assert_eq!(ev.run(&mut st), Outcome::Success(8));
    assert!(!st.global.pollers.contains(0));
    let bytes: Vec<u8> = ev.data.concat();
    assert_eq!(bytes, 0x0102u64.to_ne_bytes().to_vec());
}

#[test]
fn timerfd_read_in_a_given_byte_order() {
    let mut st = fresh();
    let id = match TimerfdCreateEvent::new(9, 1).run(&mut st) {
        Outcome::Success(id) => id,
        _ => panic!("timerfd_create failed"),
    };
    st.local.timers_posix.insert(
        id as i128,
        TimerPosixInfo { clockid: 1, interval: 0, signal: None, exptime: 0, overruns: 0x0102 },
    );
    let mut le = TimerfdReadEvent::new(9, false, vec![vec![0u8; 8]]);
    le.state = TimerfdReadState::Finish(None);
    assert_eq!(le.run_ordered(&mut st, true), Outcome::Success(8));
    assert_eq!(le.data[0], vec![2, 1, 0, 0, 0, 0, 0, 0]);
    let mut be = TimerfdReadEvent::new(9, false, vec![vec![0u8; 2], vec![0u8; 6]]);
    be.state = TimerfdReadState::Finish(None);
    assert_eq!(be.run_ordered(&mut st, false), Outcome::Success(8));
    assert_eq!(be.data.concat(), vec![0, 0, 0, 0, 0, 0, 1, 2]);
    // A longer buffer receives the 8 bytes; the rest keeps what it held.
    let mut long = TimerfdReadEvent::new(9, false, vec![vec![9u8; 6], vec![9u8; 6]]);
    long.state = TimerfdReadState::Finish(None);
    assert_eq!(long.run_ordered(&mut st, true), Outcome::Success(8));
    assert_eq!(long.data.concat(), vec![2, 1, 0, 0, 0, 0, 0, 0, 9, 9, 9, 9]);
}

#[test]
fn thread_hasher_reads_identifiers_back() {
    let mut h = ThreadHasher::new();
    h.write_u64(42);
    assert_eq!(h.finish(), 42);
    let mut h = ThreadHasher::new();
    h.write(&[1, 0, 0, 0, 0, 0, 0, 0]);
    assert_eq!(h.finish(), 1);
    // A short tail is read with its bytes reversed.
    let mut h = ThreadHasher::new();
    h.write(&[1, 2]);
    assert_eq!(h.finish(), 258);
    let mut h = ThreadHasher::new();
    h.write_u32(5);
    h.write_u32(6);
    assert_eq!(h.finish(), 11);
    assert_eq!(index_of_thread(77), 77);
}

#[test]
fn thread_ids_and_cancel_names() {
    assert_eq!(Tid::from_raw(1234).as_raw(), 1234);
    assert_eq!(Tid(1234).0, 1234);
    assert_eq!(ThreadCancelType::Deferred.name(), "PTHREAD_CANCEL_DEFERRED");
    assert_eq!(ThreadCancelType::Asynchronous.name(), "PTHREAD_CANCEL_ASYNCHRONOUS");
}

#[test]
fn cleanup_handlers_pop_in_reverse_order() {
    let mut st = fresh();
    st.local.pthread_cleanup.insert(3, vec![]);
    assert_eq!(ThreadCleanupPushEvent::new(10, 11).run(&mut st, 3), Outcome::Success(()));
    assert_eq!(ThreadCleanupPushEvent::new(20, 21).run(&mut st, 3), Outcome::Success(()));
    assert_eq!(
        ThreadCleanupPopEvent::new(true).run(&mut st, 3),
        Outcome::Success(Some(PThreadRoutine { function: 20, arg: Some(21) }))
    );
    assert_eq!(ThreadCleanupPopEvent::new(false).run(&mut st, 3), Outcome::Success(None));
    assert!(st.local.pthread_cleanup.get(3).unwrap().is_empty());
    assert_eq!(ThreadCleanupPopEvent::new(true).run(&mut st, 3), Outcome::Success(None));
}
