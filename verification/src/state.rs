//! The emulator's state as the event handlers see it.
//!
//! Time is kept in nanoseconds; threads, pthreads, keys and routines are
//! identified by the integers the host gives them.
use vstd::prelude::*;

use crate::table::Table;

verus! {

/// The largest span a `std::time::Duration` can hold, in nanoseconds.
pub const MAX_DURATION_NANOS: u128 = 18446744073709551615999999999u128;

/// Signal bookkeeping of one thread.
#[derive(Clone, Copy, Debug, PartialEq, Eq, Structural)]
pub struct SignalInfo {
    /// The thread is suspended waiting for a signal (or a timeout).
    pub sigsuspend: bool,
    /// A signal interrupted the thread while it was suspended.
    pub interrupted: bool,
}

/// Which clock or interval timer a timer runs on.
#[derive(Clone, Copy, Debug, PartialEq, Eq, Structural)]
pub enum TimerType {
    Real,
    Virtual,
    Prof,
    ClockRealtime,
    ClockMonotonic,
}

/// Which timer a scheduled expiry belongs to.
#[derive(Clone, Copy, Debug, PartialEq, Eq, Structural)]
pub enum TimerIdType {
    Itimer,
    Timer(i64),
    Fd(i32),
}

/// What a scheduled item wakes.
#[derive(Clone, Copy, Debug, PartialEq, Eq, Structural)]
pub enum ReadyInfo {
    /// A timer of process `pid` expires, raising the optional signal.
    Timer(i32, TimerType, TimerIdType, Option<i32>),
    /// A thread is woken.
    Thread(u64),
}

/// An item of the scheduler's queue, due at `timestamp` nanoseconds.
#[derive(Clone, Copy, Debug, PartialEq, Eq, Structural)]
pub struct ScheduledItem {
    pub info: ReadyInfo,
    pub timestamp: u128,
}

/// The settings of an interval timer (`setitimer`).
#[derive(Clone, Copy, Debug, PartialEq, Eq, Structural)]
pub struct ItimerInfo {
    pub interval: u128,
}

/// A POSIX timer (`timer_create`) or the timer behind a timer descriptor.
#[derive(Clone, Copy, Debug, PartialEq, Eq, Structural)]
pub struct TimerPosixInfo {
    pub clockid: i32,
    pub interval: u128,
    pub signal: Option<i32>,
    pub exptime: u128,
    /// Number of timer expirations since the last `timer_settime()` call
    pub overruns: i32,
}

/// Allocation of POSIX timer identifiers.
#[derive(Clone, Copy, Debug, PartialEq, Eq, Structural)]
pub struct TimerPosixState {
    /// The next timer ID to assign
    pub next_timer: i64,
}

/// A routine registered by a thread (a cleanup handler or a key destructor):
/// its address and, for a cleanup handler, its argument.
#[derive(Clone, Copy, Debug, PartialEq, Eq, Structural)]
pub struct PThreadRoutine {
    pub function: u64,
    pub arg: Option<u64>,
}

/// Information about the timer file descriptor created by the `timerfd_*()` functions.
#[derive(Clone, Copy, Debug, PartialEq, Eq, Structural)]
pub struct TimerfdInfo {
    /// Whether the descriptor is readable (an expiry has been raised).
    pub polled_raised: bool,
    /// Information about the timer itself
    pub timerid: i64,
}

/// What a file descriptor refers to.
#[derive(Clone, Copy, Debug, PartialEq, Eq, Structural)]
pub enum FdResource {
    Timerfd(TimerfdInfo),
    /// The socket with the given identifier in the socket table.
    Socket(i64),
    Other,
}

/// An open file descriptor.
#[derive(Clone, Copy, Debug, PartialEq, Eq, Structural)]
pub struct DescriptorInfo {
    pub close_on_exec: bool,
    pub nonblocking: bool,
    /// Operations on the descriptor go to the host.
    pub is_passthrough: bool,
    pub is_random: bool,
    pub resource: FdResource,
}

/// An object that a thread can wait on until it is ready.
#[derive(Clone, Copy, Debug, PartialEq, Eq, Structural)]
pub enum Polled {
    /// A timer descriptor becoming readable.
    Timerfd(i32),
    /// Data arriving at a socket.
    SocketRead(i64),
    /// Room to send on a socket.
    SocketWrite(i64),
    /// A connection arriving at a listening socket.
    SocketAccept(i64),
    /// A connection being accepted for a connecting socket.
    SocketConnect(i64),
}

/// State shared by all emulated processes.
pub struct GlobalState {
    /// The emulated time, in nanoseconds.
    pub current_time: u128,
    /// Timer expiries and wake-ups, in the order they were scheduled.
    pub ready: Vec<ScheduledItem>,
    /// Threads marked ready to run, in the order they were marked.
    pub ready_threads: Vec<u64>,
    /// Pollers waiting on a polled object: poller id to the object.
    pub pollers: Table<Polled>,
    /// The next poller id to hand out.
    pub next_poller: i64,
    /// Every socket, by identifier.
    pub sockets: Table<crate::socket::SocketInfo>,
    /// The identifier the next socket gets.
    pub next_socket_id: i64,
    /// The sockets bound at each transport address.
    pub socket_locations: crate::socket::LocationTable,
    /// The connection queue of each listening socket, by socket identifier.
    pub servers: Table<crate::socket::ServerSocket>,
    /// Where the data of each connectionless or connected socket goes and comes from, by
    /// socket identifier; for a waiting connection served by a plugin, the plugin's
    /// connection.
    pub endpoints: Table<crate::sockio::Endpoint>,
    /// The bytes that fuzzing endpoints hand out.
    pub fuzz_input: Vec<u8>,
    /// For each socket that is connecting, whether its connection has been accepted.
    pub connects: Table<bool>,
    /// How many connections a listening socket queues at most.
    pub somaxconn: usize,
    /// The next port handed out to a bind to port 0.
    pub next_ephemeral_port: u16,
    /// The end of the range of ports handed out to binds to port 0.
    pub ephemeral_port_end: u16,
    /// The length of a socket's receive buffer.
    pub buffer_length: usize,
}

/// State of the current process.
pub struct LocalState {
    pub pid: i32,
    pub signals: Table<SignalInfo>,
    pub spinlocks: Table<Vec<u64>>,
    pub pthreads: Table<crate::thread::ThreadInfo>,
    pub pthread_cleanup: Table<Vec<PThreadRoutine>>,
    pub pthread_keys: Table<PThreadRoutine>,
    pub pthread_key_values: Table<Table<u64>>,
    pub terminated_threads: Table<()>,
    pub awaiting_thread_death: Table<Vec<u64>>,
    pub itimer_real: Option<ItimerInfo>,
    pub itimer_virtual: Option<ItimerInfo>,
    pub itimer_prof: Option<ItimerInfo>,
    pub timers_posix: Table<TimerPosixInfo>,
    pub timer_posix_state: TimerPosixState,
    pub fds: Table<DescriptorInfo>,
}

/// The whole emulator state that the handlers act on.
pub struct FizzleState {
    pub global: GlobalState,
    pub local: LocalState,
}

impl LocalState {
    /// Every table is well formed.
    pub open spec fn wf(&self) -> bool {
        &&& self.signals.wf()
        &&& self.spinlocks.wf()
        &&& self.pthreads.wf()
        &&& self.pthread_cleanup.wf()
        &&& self.pthread_keys.wf()
        &&& self.pthread_key_values.wf()
        &&& forall|k: int| #[trigger] self.pthread_key_values@.contains_key(k) ==> self.pthread_key_values@[k].wf()
        &&& self.terminated_threads.wf()
        &&& self.awaiting_thread_death.wf()
        &&& self.timers_posix.wf()
        &&& self.fds.wf()
    }
}

impl FizzleState {
    /// A fresh state for process `pid` at time 0: nothing registered, no descriptors, no
    /// sockets; binds to port 0 get ports from `port_start` up to `port_end`, sockets
    /// receive into buffers of `buffer_length` bytes, and a listening socket queues at most
    /// `somaxconn` connections.
    pub fn new(pid: i32, port_start: u16, port_end: u16, buffer_length: usize, somaxconn: usize) -> (r: Self)
        ensures
            r.wf(),
            r.global.current_time == 0,
            r.global.ready@.len() == 0,
            r.global.ready_threads@.len() == 0,
            r.global.pollers@ == Map::<int, Polled>::empty(),
            r.global.next_poller == 0,
            r.global.sockets@ == Map::<int, crate::socket::SocketInfo>::empty(),
            r.global.next_socket_id == 0,
            r.global.socket_locations@ == Map::<crate::socket::TransportAddress, crate::socket::LocationView>::empty(),
            r.global.servers@ == Map::<int, crate::socket::ServerSocket>::empty(),
            r.global.endpoints@ == Map::<int, crate::sockio::Endpoint>::empty(),
            r.global.fuzz_input@.len() == 0,
            r.global.connects@ == Map::<int, bool>::empty(),
            r.global.somaxconn == somaxconn,
            r.global.next_ephemeral_port == port_start,
            r.global.ephemeral_port_end == port_end,
            r.global.buffer_length == buffer_length,
            r.local.pid == pid,
            r.local.signals@ == Map::<int, SignalInfo>::empty(),
            r.local.spinlocks@ == Map::<int, Vec<u64>>::empty(),
            r.local.pthreads@ == Map::<int, crate::thread::ThreadInfo>::empty(),
            r.local.pthread_cleanup@ == Map::<int, Vec<PThreadRoutine>>::empty(),
            r.local.pthread_keys@ == Map::<int, PThreadRoutine>::empty(),
            r.local.pthread_key_values@ == Map::<int, Table<u64>>::empty(),
            r.local.terminated_threads@ == Map::<int, ()>::empty(),
            r.local.awaiting_thread_death@ == Map::<int, Vec<u64>>::empty(),
            r.local.itimer_real is None,
            r.local.itimer_virtual is None,
            r.local.itimer_prof is None,
            r.local.timers_posix@ == Map::<int, TimerPosixInfo>::empty(),
            r.local.timer_posix_state.next_timer == 0,
            r.local.fds@ == Map::<int, DescriptorInfo>::empty(),
    {
        FizzleState {
            global: GlobalState {
                current_time: 0,
                ready: Vec::new(),
                ready_threads: Vec::new(),
                pollers: Table::new(),
                next_poller: 0,
                sockets: Table::new(),
                next_socket_id: 0,
                socket_locations: crate::socket::LocationTable::new(),
                servers: Table::new(),
                endpoints: Table::new(),
                fuzz_input: Vec::new(),
                connects: Table::new(),
                somaxconn,
                next_ephemeral_port: port_start,
                ephemeral_port_end: port_end,
                buffer_length,
            },
            local: LocalState {
                pid,
                signals: Table::new(),
                spinlocks: Table::new(),
                pthreads: Table::new(),
                pthread_cleanup: Table::new(),
                pthread_keys: Table::new(),
                pthread_key_values: Table::new(),
                terminated_threads: Table::new(),
                awaiting_thread_death: Table::new(),
                itimer_real: None,
                itimer_virtual: None,
                itimer_prof: None,
                timers_posix: Table::new(),
                timer_posix_state: TimerPosixState { next_timer: 0 },
                fds: Table::new(),
            },
        }
    }

    pub open spec fn wf(&self) -> bool {
        &&& self.local.wf()
        &&& self.global.pollers.wf()
        &&& self.global.sockets.wf()
        &&& self.global.socket_locations.wf()
        &&& self.global.servers.wf()
        &&& self.global.endpoints.wf()
        &&& self.global.connects.wf()
    }

    /// Marks a thread ready to run.
    pub fn mark_thread_ready(&mut self, thread: u64)
        ensures
            final(self).global.ready_threads@ == old(self).global.ready_threads@.push(thread),
            final(self).global == (GlobalState { ready_threads: final(self).global.ready_threads, ..old(self).global }),
            final(self).local == old(self).local,
    {
        self.global.ready_threads.push(thread);
    }
}

} // verus!
