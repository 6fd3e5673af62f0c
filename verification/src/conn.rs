//! Connections between emulated sockets: `connect`, `accept` and `socketpair`.
use vstd::prelude::*;

use crate::errno::Errno;
use crate::scheduler::{Outcome, YieldUntil};
use crate::socket::{
    ephemeral_candidates, fd_socket, get_or_assign_local, local_for, local_for_in, rest_pending, ConnectedSocket, ConnectionlessSocket, LocalAddress, LocationView, PendingBackend, ServerBackend, ServerSocket, SockAddr, SocketInfo, SocketOptions,
    SocketState, SocketType, TransportAddress,
};
use crate::sockio::{DatagramQueue, Endpoint, FeedbackStream, PluginEndpoint, StreamQueue};
use crate::state::{DescriptorInfo, FdResource, FizzleState, GlobalState, LocalState, Polled};

verus! {

/// Where a `connect` is.
#[derive(Clone, Copy, Debug, PartialEq, Eq, Structural)]
pub enum SocketConnectState {
    Start,
    /// Waiting on the given poller for the connection to be accepted.
    Finish(i64),
}

/// `connect`.
pub struct SocketConnectEvent {
    pub descriptor_id: i32,
    pub dst_addr: SockAddr,
    pub state: SocketConnectState,
}

/// The socket a connection to `dst` goes to: the first bound at `dst`, or else the first
/// bound at its wildcard address.
pub open spec fn connect_target(locs: Map<TransportAddress, LocationView>, dst: TransportAddress) -> Option<i64> {
    if locs.contains_key(dst) && locs[dst].bound_sockets.len() > 0 {
        Some(locs[dst].bound_sockets[0])
    } else {
        match dst.spec_wildcard() {
            Some(w) => if locs.contains_key(w) && locs[w].bound_sockets.len() > 0 {
                Some(locs[w].bound_sockets[0])
            } else {
                None
            },
            None => None,
        }
    }
}

/// A connection goes to the first socket bound at its destination; when none is, to the
/// first socket bound at the unspecified address of the same port and protocol (`0.0.0.0`,
/// or `::` with no flow information and no scope); when neither is, nowhere. An unnamed
/// Unix-domain destination has no unspecified address.
pub proof fn lemma_connect_target_prefers_exact_then_any(
    locs: Map<TransportAddress, LocationView>,
    dst: TransportAddress,
)
    ensures
        ({
            let exact = locs.contains_key(dst) && locs[dst].bound_sockets.len() > 0;
            let any: Option<TransportAddress> = match dst.sockaddr {
                SockAddr::Ipv4 { port, .. } => Some(
                    TransportAddress { sockaddr: SockAddr::Ipv4 { addr: 0, port }, protocol: dst.protocol },
                ),
                SockAddr::Ipv6 { port, .. } => Some(
                    TransportAddress {
                        sockaddr: SockAddr::Ipv6 { addr: 0, port, flowinfo: 0, scope_id: 0 },
                        protocol: dst.protocol,
                    },
                ),
                SockAddr::UnixUnnamed => None,
            };
            let at_any = any matches Some(w) && locs.contains_key(w) && locs[w].bound_sockets.len() > 0;
            &&& exact ==> connect_target(locs, dst) == Some(locs[dst].bound_sockets[0])
            &&& !exact && at_any ==> connect_target(locs, dst) == Some(locs[any->Some_0].bound_sockets[0])
            &&& !exact && !at_any ==> connect_target(locs, dst) is None
        }),
{
}

/// Whether a first run of `connect` on descriptor `fd`, with ephemeral candidates `cands`,
/// is defined: its socket exists and is not a pending connection, and it has its own
/// address or a candidate it can take (the emulator otherwise keeps drawing new ones); a
/// connecting socket has a connection flag; the listening socket it would connect to has
/// a queue; a poller can be numbered.
pub open spec fn connect_defined(
    fds: Map<int, DescriptorInfo>,
    fd: i32,
    dst: SockAddr,
    cands: Seq<TransportAddress>,
    g: GlobalState,
) -> bool {
    fd_socket(fds, fd) matches Some(id) ==> {
        let sock = g.sockets@[id as int];
        let locs = local_for(g, id, cands).1;
        &&& g.sockets@.contains_key(id as int)
        &&& ephemeral_candidates(sock, cands)
        &&& local_for(g, id, cands).0 is Some
        &&& !(sock.state is PendingConnection)
        &&& g.next_poller < i64::MAX
        &&& (sock.state is Connecting ==> g.connects@.contains_key(id as int))
        &&& (sock.state is Unassociated ==> match connect_target(
            locs,
            TransportAddress { sockaddr: dst, protocol: sock.protocol },
        ) {
            Some(srv) => g.sockets@.contains_key(srv as int) && (g.sockets@[srv as int].state is Server
                ==> g.servers@.contains_key(srv as int)),
            None => true,
        })
    }
}

/// Whether `e` is the endpoint a connection to a listener with the emulated backend `b`
/// gets: a new connection of that kind (a new plugin connection has nothing handed over
/// and nothing written yet, and takes data; a new feedback connection, see
/// `fresh_feedback`). False for a listener whose connections are queued for `accept`.
pub open spec fn served_endpoint(b: ServerBackend, e: Endpoint) -> bool {
    match b {
        ServerBackend::Peered => false,
        ServerBackend::Sink => e is Sink,
        ServerBackend::NullSink => e is NullSink,
        ServerBackend::Fuzz(f) => e == Endpoint::Fuzz(f),
        ServerBackend::Plugin => e matches Endpoint::Plugin(p) && p.read.peer is None && p.read.recv@.len() == 0
            && p.read.read_idx == 0 && !p.read.read_raised && p.read.write_raised && p.write_buf@.len() == 0,
        ServerBackend::Feedback => e == Endpoint::FeedbackStream(fresh_feedback()),
    }
}

/// A new connection fed back to the harness: nothing queued, not readable, writable.
pub open spec fn fresh_feedback() -> FeedbackStream {
    FeedbackStream { queued: 0, read_raised: false, write_raised: true }
}

/// Registering a poller on `polled`: the event waits on poller `g.next_poller`.
pub open spec fn registered(g: GlobalState, polled: Polled, g2: GlobalState) -> bool {
    &&& g2.pollers@ == g.pollers@.insert(g.next_poller as int, polled)
    &&& g2.next_poller == g.next_poller + 1
}

/// The first run of `connect` to `dst` on descriptor `fd`, with ephemeral candidates
/// `cands`.
///
/// `EBADF` for an unknown descriptor, `ENOTSOCK` for one that is no socket. A socket
/// without its own address is first registered at an ephemeral one (see `local_for`). A
/// socket that is not yet connected then asks the socket bound at `dst` (or at its
/// wildcard address): `ECONNREFUSED` when there is none or it is not listening,
/// `ECONNABORTED` when its queue is full. A connection to a listener with an emulated
/// backend succeeds at once: the socket becomes connected to `dst`, with a new endpoint of
/// the backend's kind (see `served_endpoint`), and the listener keeps listening. Otherwise
/// the socket joins the queue, the
/// listener shows ready, and the socket is connecting: a nonblocking one answers
/// `EINPROGRESS`, a blocking one waits on a poller until the connection is accepted. A
/// connecting socket answers `EINPROGRESS` when nonblocking, goes on at once when
/// accepted, or waits. A listening socket fails with `EINVAL`, a connected one with
/// `EISCONN`; a connectionless socket takes `dst` as its destination.
pub open spec fn connect_start(
    fds: Map<int, DescriptorInfo>,
    fd: i32,
    dst: SockAddr,
    cands: Seq<TransportAddress>,
    g: GlobalState,
    st2: SocketConnectState,
    g2: GlobalState,
    r: Outcome<(), Errno>,
) -> bool {
    if !fds.contains_key(fd as int) {
        r == Outcome::<(), Errno>::Error(Errno::EBADF) && g2 == g && st2 == SocketConnectState::Start
    } else if fd_socket(fds, fd) is None {
        r == Outcome::<(), Errno>::Error(Errno::ENOTSOCK) && g2 == g && st2 == SocketConnectState::Start
    } else {
        let id = fd_socket(fds, fd)->Some_0;
        let sock = g.sockets@[id as int];
        let nonblocking = fds[fd as int].nonblocking;
        let t = TransportAddress { sockaddr: dst, protocol: sock.protocol };
        let locs = local_for(g, id, cands).1;
        let same = g2 == (GlobalState { socket_locations: g2.socket_locations, ..g });
        &&& g2.socket_locations@ == locs
        &&& match sock.state {
            SocketState::Unassociated(_) => match connect_target(locs, t) {
                None => r == Outcome::<(), Errno>::Error(Errno::ECONNREFUSED) && same && st2
                    == SocketConnectState::Start,
                Some(srv) => if !(g.sockets@[srv as int].state is Server) {
                    r == Outcome::<(), Errno>::Error(Errno::ECONNREFUSED) && same && st2 == SocketConnectState::Start
                } else if !(g.servers@[srv as int].backend is Peered) {
                    &&& r == Outcome::<(), Errno>::Success(())
                    &&& st2 == SocketConnectState::Start
                    &&& g2.sockets@ == g.sockets@.insert(
                        id as int,
                        crate::socket::SocketInfo {
                            state: SocketState::Connected(ConnectedSocket { rem_addr: t, peer_closed: false }),
                            ..sock
                        },
                    )
                    &&& g2.endpoints@ == g.endpoints@.insert(id as int, g2.endpoints@[id as int])
                    &&& served_endpoint(g.servers@[srv as int].backend, g2.endpoints@[id as int])
                    &&& g2 == (GlobalState {
                        sockets: g2.sockets,
                        endpoints: g2.endpoints,
                        socket_locations: g2.socket_locations,
                        ..g
                    })
                } else if g.servers@[srv as int].connecting@.len() >= g.somaxconn {
                    r == Outcome::<(), Errno>::Error(Errno::ECONNABORTED) && same && st2 == SocketConnectState::Start
                } else {
                    &&& g2.servers@ == g.servers@.insert(srv as int, g2.servers@[srv as int])
                    &&& g2.servers@[srv as int].connecting@ == g.servers@[srv as int].connecting@.push(id)
                    &&& g2.servers@[srv as int].ready
                    &&& g2.servers@[srv as int].backend == g.servers@[srv as int].backend
                    &&& g2.sockets@ == g.sockets@.insert(id as int, crate::socket::SocketInfo { state: SocketState::Connecting, ..sock })
                    &&& g2.connects@ == g.connects@.insert(id as int, false)
                    &&& if nonblocking {
                        &&& r == Outcome::<(), Errno>::Error(Errno::EINPROGRESS)
                        &&& st2 == SocketConnectState::Start
                        &&& g2 == (GlobalState {
                            servers: g2.servers,
                            sockets: g2.sockets,
                            connects: g2.connects,
                            socket_locations: g2.socket_locations,
                            ..g
                        })
                    } else {
                        &&& r == Outcome::<(), Errno>::Yield(YieldUntil::Indefinite)
                        &&& st2 == SocketConnectState::Finish(g.next_poller)
                        &&& registered(g, Polled::SocketConnect(id), g2)
                        &&& g2 == (GlobalState {
                            servers: g2.servers,
                            sockets: g2.sockets,
                            connects: g2.connects,
                            pollers: g2.pollers,
                            next_poller: g2.next_poller,
                            socket_locations: g2.socket_locations,
                            ..g
                        })
                    }
                },
            },
            SocketState::Server => r == Outcome::<(), Errno>::Error(Errno::EINVAL) && same && st2
                == SocketConnectState::Start,
            SocketState::Connecting => if nonblocking {
                r == Outcome::<(), Errno>::Error(Errno::EINPROGRESS) && same && st2 == SocketConnectState::Start
            } else if g.connects@[id as int] {
                r == Outcome::<(), Errno>::Yield(YieldUntil::Immediate) && same && st2 == SocketConnectState::Start
            } else {
                &&& r == Outcome::<(), Errno>::Yield(YieldUntil::Indefinite)
                &&& st2 == SocketConnectState::Finish(g.next_poller)
                &&& registered(g, Polled::SocketConnect(id), g2)
                &&& g2 == (GlobalState {
                    pollers: g2.pollers,
                    next_poller: g2.next_poller,
                    socket_locations: g2.socket_locations,
                    ..g
                })
            },
            SocketState::Connected(_) => r == Outcome::<(), Errno>::Error(Errno::EISCONN) && same && st2
                == SocketConnectState::Start,
            SocketState::Connectionless(c) => {
                &&& r == Outcome::<(), Errno>::Success(())
                &&& st2 == SocketConnectState::Start
                &&& g2.sockets@ == g.sockets@.insert(
                    id as int,
                    crate::socket::SocketInfo {
                        state: SocketState::Connectionless(crate::socket::ConnectionlessSocket { rem_addr: Some(t), ..c }),
                        ..sock
                    },
                )
                &&& g2 == (GlobalState { sockets: g2.sockets, socket_locations: g2.socket_locations, ..g })
            },
            SocketState::PendingConnection(_) => false,
        }
    }
}

impl SocketConnectEvent {
    pub fn new(descriptor_id: i32, dst_addr: SockAddr) -> (r: Self)
        ensures
            r.descriptor_id == descriptor_id,
            r.dst_addr == dst_addr,
            r.state == SocketConnectState::Start,
    {
        SocketConnectEvent { descriptor_id, dst_addr, state: SocketConnectState::Start }
    }

    /// First run: see `connect_start` (`candidates` are the ephemeral addresses handed out
    /// for a socket without its own). Second run (after waiting): drops the poller and
    /// succeeds.
    pub fn run(&mut self, state: &mut FizzleState, candidates: &Vec<TransportAddress>) -> (r: Outcome<(), Errno>)
        requires
            old(state).wf(),
            old(self).state == SocketConnectState::Start ==> connect_defined(
                old(state).local.fds@,
                old(self).descriptor_id,
                old(self).dst_addr,
                candidates@,
                old(state).global,
            ),
        ensures
            final(state).wf(),
            final(state).local == old(state).local,
            final(self).descriptor_id == old(self).descriptor_id,
            final(self).dst_addr == old(self).dst_addr,
            old(self).state == SocketConnectState::Start ==> connect_start(
                old(state).local.fds@,
                old(self).descriptor_id,
                old(self).dst_addr,
                candidates@,
                old(state).global,
                final(self).state,
                final(state).global,
                r,
            ),
            old(self).state matches SocketConnectState::Finish(p) ==> {
                &&& r == Outcome::<(), Errno>::Success(())
                &&& final(self).state == old(self).state
                &&& final(state).global.pollers@ == old(state).global.pollers@.remove(p as int)
                &&& final(state).global == (GlobalState { pollers: final(state).global.pollers, ..old(state).global })
            },
    {
        match self.state {
            SocketConnectState::Finish(p) => {
                state.global.pollers.remove(p as i128);
                return Outcome::Success(());
            },
            SocketConnectState::Start => {},
        }
        let fd_info = match state.local.fds.get(self.descriptor_id as i128) {
            Some(d) => *d,
            None => return Outcome::Error(Errno::EBADF),
        };
        let nonblocking = fd_info.nonblocking;
        let id = match fd_info.resource {
            FdResource::Socket(id) => id,
            _ => return Outcome::Error(Errno::ENOTSOCK),
        };
        let sock = match state.global.sockets.get(id as i128) {
            Some(s) => *s,
            None => {
                assert(false);
                return Outcome::Error(Errno::EBADF);
            },
        };
        let _local = get_or_assign_local(id, &mut state.global, candidates);
        let t = TransportAddress { sockaddr: self.dst_addr, protocol: sock.protocol };
        match sock.state {
            SocketState::Unassociated(_) => {
                let target = match state.global.socket_locations.front_of(&t) {
                    Some(s) => Some(s),
                    None => match t.wildcard() {
                        Some(w) => state.global.socket_locations.front_of(&w),
                        None => None,
                    },
                };
                let srv = match target {
                    Some(s) => s,
                    None => return Outcome::Error(Errno::ECONNREFUSED),
                };
                let srv_sock = match state.global.sockets.get(srv as i128) {
                    Some(s) => *s,
                    None => {
                        assert(false);
                        return Outcome::Error(Errno::ECONNREFUSED);
                    },
                };
                match srv_sock.state {
                    SocketState::Server => {},
                    _ => return Outcome::Error(Errno::ECONNREFUSED),
                }
                let backend = match state.global.servers.get(srv as i128) {
                    Some(q) => q.backend,
                    None => {
                        assert(false);
                        ServerBackend::Peered
                    },
                };
                let made = match backend {
                    ServerBackend::Peered => None,
                    ServerBackend::Sink => Some(Endpoint::Sink),
                    ServerBackend::NullSink => Some(Endpoint::NullSink),
                    ServerBackend::Fuzz(f) => Some(Endpoint::Fuzz(f)),
                    ServerBackend::Plugin => Some(
                        Endpoint::Plugin(
                            PluginEndpoint {
                                read: StreamQueue {
                                    peer: None,
                                    recv: Vec::new(),
                                    read_idx: 0,
                                    read_raised: false,
                                    write_raised: true,
                                },
                                write_buf: Vec::new(),
                            },
                        ),
                    ),
                    ServerBackend::Feedback => Some(
                        Endpoint::FeedbackStream(FeedbackStream { queued: 0, read_raised: false, write_raised: true }),
                    ),
                };
                if let Some(e) = made {
                    state.global.sockets.insert(
                        id as i128,
                        crate::socket::SocketInfo {
                            state: SocketState::Connected(ConnectedSocket { rem_addr: t, peer_closed: false }),
                            ..sock
                        },
                    );
                    let ghost eps0 = state.global.endpoints@;
                    state.global.endpoints.insert(id as i128, e);
                    proof {
                        assert(state.global.endpoints@ =~= eps0.insert(id as int, state.global.endpoints@[id as int]));
                    }
                    return Outcome::Success(());
                }
                let queued = match state.global.servers.get(srv as i128) {
                    Some(q) => q.connecting.len(),
                    None => {
                        assert(false);
                        0
                    },
                };
                if queued >= state.global.somaxconn {
                    return Outcome::Error(Errno::ECONNABORTED);
                }
                let queue = match state.global.servers.remove(srv as i128) {
                    Some(q) => q,
                    None => {
                        assert(false);
                        return Outcome::Error(Errno::ECONNREFUSED);
                    },
                };
                let ServerSocket { mut connecting, ready: _, backend } = queue;
                connecting.push(id);
                state.global.servers.insert(srv as i128, ServerSocket { connecting, ready: true, backend });
                proof {
                    assert(state.global.servers@ =~= old(state).global.servers@.insert(srv as int, state.global.servers@[srv as int]));
                }
                state.global.sockets.insert(id as i128, crate::socket::SocketInfo { state: SocketState::Connecting, ..sock });
                state.global.connects.insert(id as i128, false);
                if nonblocking {
                    Outcome::Error(Errno::EINPROGRESS)
                } else {
                    let p = state.global.next_poller;
                    state.global.next_poller = p + 1;
                    state.global.pollers.insert(p as i128, Polled::SocketConnect(id));
                    self.state = SocketConnectState::Finish(p);
                    Outcome::Yield(YieldUntil::Indefinite)
                }
            },
            SocketState::Server => Outcome::Error(Errno::EINVAL),
            SocketState::Connecting => {
                if nonblocking {
                    return Outcome::Error(Errno::EINPROGRESS);
                }
                let accepted = match state.global.connects.get(id as i128) {
                    Some(b) => *b,
                    None => {
                        assert(false);
                        false
                    },
                };
                if accepted {
                    Outcome::Yield(YieldUntil::Immediate)
                } else {
                    let p = state.global.next_poller;
                    state.global.next_poller = p + 1;
                    state.global.pollers.insert(p as i128, Polled::SocketConnect(id));
                    self.state = SocketConnectState::Finish(p);
                    Outcome::Yield(YieldUntil::Indefinite)
                }
            },
            SocketState::Connected(_) => Outcome::Error(Errno::EISCONN),
            SocketState::Connectionless(c) => {
                state.global.sockets.insert(
                    id as i128,
                    crate::socket::SocketInfo {
                        state: SocketState::Connectionless(crate::socket::ConnectionlessSocket { rem_addr: Some(t), ..c }),
                        ..sock
                    },
                );
                Outcome::Success(())
            },
            SocketState::PendingConnection(_) => {
                assert(false);
                Outcome::Error(Errno::EINVAL)
            },
        }
    }
}

/// Where an `accept` is.
#[derive(Clone, Copy, Debug, PartialEq, Eq, Structural)]
pub enum SocketAcceptState {
    Start,
    /// Waiting on the given poller for a connection.
    Blocked(i64),
    /// Connecting the given client to the listening address.
    Finish(i64, TransportAddress),
}

/// `accept`/`accept4`.
pub struct SocketAcceptEvent {
    pub descriptor_id: i32,
    pub nonblock: bool,
    pub cloexec: bool,
    pub state: SocketAcceptState,
}

/// The client a connection is accepted from is connecting, and has its own address or,
/// among the ephemeral candidates `cands`, one it can take (the emulator otherwise keeps
/// drawing new ones).
pub open spec fn client_ok(g: GlobalState, c: i64, cands: Seq<TransportAddress>) -> bool {
    &&& g.sockets@.contains_key(c as int)
    &&& g.sockets@[c as int].state is Connecting
    &&& ephemeral_candidates(g.sockets@[c as int], cands)
    &&& local_for(g, c, cands).0 is Some
}

/// The first connection waiting at the listening address `t` is a pending connection,
/// and has its own address or, among the ephemeral candidates `cands`, one it can take
/// once it has left the waiting list `locs_p`.
pub open spec fn pending_ok(
    g: GlobalState,
    c: i64,
    locs_p: Map<TransportAddress, LocationView>,
    cands: Seq<TransportAddress>,
) -> bool {
    &&& g.sockets@.contains_key(c as int)
    &&& g.sockets@[c as int].state is PendingConnection
    &&& ephemeral_candidates(g.sockets@[c as int], cands)
    &&& local_for_in(g.sockets@, locs_p, c, cands).0 is Some
}

/// The table of bound addresses once the first connection waiting at `t` has left.
pub open spec fn locs_popped(locs: Map<TransportAddress, LocationView>, t: TransportAddress) -> Map<
    TransportAddress,
    LocationView,
> {
    locs.insert(t, LocationView { pending: rest_pending(locs[t].pending), ..locs[t] })
}

/// Whether a first run of `accept` on descriptor `fd` is defined: a listening socket has
/// its own address, bound, and a queue; the connection it would take is a
/// pending one as `pending_ok` says when one waits at its address, or else a client as
/// `client_ok` says; a poller can be numbered.
pub open spec fn accept_start_defined(
    fds: Map<int, DescriptorInfo>,
    fd: i32,
    cands: Seq<TransportAddress>,
    g: GlobalState,
) -> bool {
    fd_socket(fds, fd) matches Some(id) ==> {
        let sock = g.sockets@[id as int];
        &&& g.sockets@.contains_key(id as int)
        &&& g.next_poller < i64::MAX
        &&& sock.state is Server ==> {
            let t = sock.spec_local_transport()->Some_0;
            &&& sock.local_addr is Assigned
            &&& g.socket_locations@.contains_key(t)
            &&& g.servers@.contains_key(id as int)
            &&& if g.socket_locations@[t].pending.len() > 0 {
                pending_ok(g, g.socket_locations@[t].pending[0], locs_popped(g.socket_locations@, t), cands)
            } else {
                g.servers@[id as int].connecting@.len() > 0 ==> client_ok(g, g.servers@[id as int].connecting@[0], cands)
            }
        }
    }
}

/// The first run of `accept` on descriptor `fd` (whose nonblocking flag is added to the
/// event's). `EBADF` for an unknown descriptor, `ENOTSOCK` for one that is no socket,
/// `EINVAL` for a socket that is not listening. A connection waiting at the listening
/// address is served first: it leaves the waiting list (the listener stops showing ready
/// when nothing waits and nothing is queued), is registered at an ephemeral address from
/// `cands` when it has none of its own (see `local_for_in`), and is connected in the next
/// run. Otherwise the first socket in the listener's queue is taken (the listener stops
/// showing ready when none is left), registered likewise, told that its connection is
/// accepted, and connected in the next run. With neither, a nonblocking descriptor
/// answers `EAGAIN`; a blocking one waits on a poller (the listener stops showing ready).
pub open spec fn accept_start(
    fds: Map<int, DescriptorInfo>,
    fd: i32,
    cands: Seq<TransportAddress>,
    g: GlobalState,
    st2: SocketAcceptState,
    g2: GlobalState,
    r: Outcome<(i32, SockAddr), Errno>,
) -> bool {
    if !fds.contains_key(fd as int) {
        r == Outcome::<(i32, SockAddr), Errno>::Error(Errno::EBADF) && g2 == g && st2 == SocketAcceptState::Start
    } else if fd_socket(fds, fd) is None {
        r == Outcome::<(i32, SockAddr), Errno>::Error(Errno::ENOTSOCK) && g2 == g && st2 == SocketAcceptState::Start
    } else {
        let id = fd_socket(fds, fd)->Some_0;
        let sock = g.sockets@[id as int];
        let t = sock.spec_local_transport()->Some_0;
        if !(sock.state is Server) {
            r == Outcome::<(i32, SockAddr), Errno>::Error(Errno::EINVAL) && g2 == g && st2 == SocketAcceptState::Start
        } else {
            let q = g.servers@[id as int];
            let pend = g.socket_locations@[t].pending;
            if pend.len() > 0 {
                let c = pend[0];
                let locs_p = locs_popped(g.socket_locations@, t);
                &&& r == Outcome::<(i32, SockAddr), Errno>::Yield(YieldUntil::Immediate)
                &&& st2 == SocketAcceptState::Finish(c, t)
                &&& g2.servers@ == g.servers@.insert(id as int, g2.servers@[id as int])
                &&& g2.servers@[id as int].connecting@ == q.connecting@
                &&& g2.servers@[id as int].ready == (q.ready && !(pend.len() == 1 && q.connecting@.len() == 0))
                &&& g2.servers@[id as int].backend == q.backend
                &&& g2.socket_locations@ == local_for_in(g.sockets@, locs_p, c, cands).1
                &&& g2 == (GlobalState { servers: g2.servers, socket_locations: g2.socket_locations, ..g })
            } else if q.connecting@.len() > 0 {
                let c = q.connecting@[0];
                &&& r == Outcome::<(i32, SockAddr), Errno>::Yield(YieldUntil::Immediate)
                &&& st2 == SocketAcceptState::Finish(c, t)
                &&& g2.servers@ == g.servers@.insert(id as int, g2.servers@[id as int])
                &&& g2.servers@[id as int].connecting@ == q.connecting@.drop_first()
                &&& g2.servers@[id as int].ready == (q.ready && q.connecting@.len() > 1)
                &&& g2.servers@[id as int].backend == q.backend
                &&& g2.connects@ == g.connects@.insert(c as int, true)
                &&& g2.socket_locations@ == local_for(g, c, cands).1
                &&& g2 == (GlobalState {
                    servers: g2.servers,
                    connects: g2.connects,
                    socket_locations: g2.socket_locations,
                    ..g
                })
            } else if fds[fd as int].nonblocking {
                r == Outcome::<(i32, SockAddr), Errno>::Error(Errno::EAGAIN) && g2 == g && st2 == SocketAcceptState::Start
            } else {
                &&& r == Outcome::<(i32, SockAddr), Errno>::Yield(YieldUntil::Indefinite)
                &&& st2 == SocketAcceptState::Blocked(g.next_poller)
                &&& registered(g, Polled::SocketAccept(id), g2)
                &&& g2.servers@ == g.servers@.insert(id as int, g2.servers@[id as int])
                &&& g2.servers@[id as int].connecting@ == q.connecting@
                &&& !g2.servers@[id as int].ready
                &&& g2.servers@[id as int].backend == q.backend
                &&& g2 == (GlobalState { servers: g2.servers, pollers: g2.pollers, next_poller: g2.next_poller, ..g })
            }
        }
    }
}

/// Whether the run of `accept` after waiting is defined: a listening socket has its own
/// address and a non-empty queue whose first socket is a client as `client_ok` says.
pub open spec fn accept_blocked_defined(
    fds: Map<int, DescriptorInfo>,
    fd: i32,
    cands: Seq<TransportAddress>,
    g: GlobalState,
) -> bool {
    fd_socket(fds, fd) matches Some(id) ==> {
        let sock = g.sockets@[id as int];
        &&& g.sockets@.contains_key(id as int)
        &&& sock.state is Server ==> {
            &&& sock.local_addr is Assigned
            &&& g.servers@.contains_key(id as int)
            &&& g.servers@[id as int].connecting@.len() > 0
            &&& client_ok(g, g.servers@[id as int].connecting@[0], cands)
        }
    }
}

/// The run of `accept` after waiting on poller `p`: drops the poller, then (`EBADF`,
/// `ENOTSOCK`, `EINVAL` as before) takes the first socket in the listener's queue
/// (registered at an ephemeral address from `cands` when it has none), to be connected in
/// the next run.
pub open spec fn accept_blocked(
    fds: Map<int, DescriptorInfo>,
    fd: i32,
    p: i64,
    cands: Seq<TransportAddress>,
    g: GlobalState,
    st2: SocketAcceptState,
    g2: GlobalState,
    r: Outcome<(i32, SockAddr), Errno>,
) -> bool {
    let g1 = GlobalState { pollers: g2.pollers, ..g };
    &&& g2.pollers@ == g.pollers@.remove(p as int)
    &&& if !fds.contains_key(fd as int) {
        r == Outcome::<(i32, SockAddr), Errno>::Error(Errno::EBADF) && g2 == g1 && st2 == SocketAcceptState::Blocked(p)
    } else if fd_socket(fds, fd) is None {
        r == Outcome::<(i32, SockAddr), Errno>::Error(Errno::ENOTSOCK) && g2 == g1 && st2 == SocketAcceptState::Blocked(p)
    } else {
        let id = fd_socket(fds, fd)->Some_0;
        let sock = g.sockets@[id as int];
        let t = sock.spec_local_transport()->Some_0;
        if !(sock.state is Server) {
            r == Outcome::<(i32, SockAddr), Errno>::Error(Errno::EINVAL) && g2 == g1 && st2 == SocketAcceptState::Blocked(p)
        } else {
            let q = g.servers@[id as int];
            &&& r == Outcome::<(i32, SockAddr), Errno>::Yield(YieldUntil::Immediate)
            &&& st2 == SocketAcceptState::Finish(q.connecting@[0], t)
            &&& g2.servers@ == g.servers@.insert(id as int, g2.servers@[id as int])
            &&& g2.servers@[id as int].connecting@ == q.connecting@.drop_first()
            &&& g2.servers@[id as int].ready == q.ready
            &&& g2.servers@[id as int].backend == q.backend
            &&& g2.socket_locations@ == local_for(g, q.connecting@[0], cands).1
            &&& g2 == (GlobalState {
                servers: g2.servers,
                pollers: g2.pollers,
                socket_locations: g2.socket_locations,
                ..g
            })
        }
    }
}

/// The endpoint that pending connection `c` with an emulated backend takes once accepted
/// (for a plugin, the endpoint recorded for `c`; for feedback to the harness, a new empty
/// connection); `None` for any other socket state.
pub open spec fn pending_emulated(st: SocketState, eps: Map<int, Endpoint>, c: i64) -> Option<Endpoint> {
    match st {
        SocketState::PendingConnection(ps) => match ps.backend {
            PendingBackend::Peered => None,
            PendingBackend::Sink => Some(Endpoint::Sink),
            PendingBackend::NullSink => Some(Endpoint::NullSink),
            PendingBackend::Fuzz(f) => Some(Endpoint::Fuzz(f)),
            PendingBackend::Plugin => Some(eps[c as int]),
            PendingBackend::Feedback => Some(Endpoint::FeedbackStream(fresh_feedback())),
        },
        _ => None,
    }
}

/// Whether the last run of `accept`, connecting client `c`, is defined: the client is
/// connecting or a pending connection, and has its own address or, among the ephemeral
/// candidates `cands`, one it can take; a pending connection served by a plugin has its
/// plugin connection; a socket identifier is left where a new socket is made.
pub open spec fn accept_finish_defined(c: i64, cands: Seq<TransportAddress>, g: GlobalState) -> bool {
    &&& g.sockets@.contains_key(c as int)
    &&& (g.sockets@[c as int].state is Connecting || g.sockets@[c as int].state is PendingConnection)
    &&& ephemeral_candidates(g.sockets@[c as int], cands)
    &&& local_for(g, c, cands).0 is Some
    &&& pending_emulated(g.sockets@[c as int].state, g.endpoints@, c) is None ==> g.next_socket_id < i64::MAX
    &&& (g.sockets@[c as int].state is PendingConnection
        && g.sockets@[c as int].state->PendingConnection_0.backend is Plugin) ==> g.endpoints@.contains_key(c as int)
        && g.endpoints@[c as int] is Plugin
}

/// The last run of `accept`: the client's address is looked up (its own, or an ephemeral
/// one from `cands` at which it is registered, see `local_for`). A pending connection with
/// an emulated backend becomes the accepted socket itself: it takes the listening address
/// `t` as its own, is connected from the client's address, and gets the backend's
/// endpoint (see `pending_emulated`); descriptor `new_fd` refers to it. Otherwise client
/// `c` and a new socket (the next identifier, bound to `t`) are connected to each other,
/// each with an empty stream queue that is not readable and may be sent to; a connecting
/// client is told its connection is accepted; descriptor `new_fd` refers to the new
/// socket. The new descriptor and the client's address are returned.
pub open spec fn accept_finish(
    c: i64,
    t: TransportAddress,
    new_fd: i32,
    nonblock: bool,
    cloexec: bool,
    cands: Seq<TransportAddress>,
    g: GlobalState,
    fds: Map<int, DescriptorInfo>,
    g2: GlobalState,
    fds2: Map<int, DescriptorInfo>,
    r: Outcome<(i32, SockAddr), Errno>,
) -> bool {
    let n = g.next_socket_id;
    let client = g.sockets@[c as int];
    let caddr = local_for(g, c, cands).0->Some_0;
    &&& r == Outcome::<(i32, SockAddr), Errno>::Success((new_fd, caddr.sockaddr))
    &&& g2.socket_locations@ == local_for(g, c, cands).1
    &&& match pending_emulated(client.state, g.endpoints@, c) {
        Some(e) => {
            &&& g2.sockets@ == g.sockets@.insert(
                c as int,
                SocketInfo {
                    local_addr: LocalAddress::Assigned(t.sockaddr),
                    state: SocketState::Connected(ConnectedSocket { rem_addr: caddr, peer_closed: false }),
                    ..client
                },
            )
            &&& g2.endpoints@ == g.endpoints@.insert(c as int, e)
            &&& g2 == (GlobalState {
                sockets: g2.sockets,
                endpoints: g2.endpoints,
                socket_locations: g2.socket_locations,
                ..g
            })
            &&& fds2 == fds.insert(
                new_fd as int,
                DescriptorInfo {
                    close_on_exec: cloexec,
                    nonblocking: nonblock,
                    is_passthrough: false,
                    is_random: false,
                    resource: FdResource::Socket(c),
                },
            )
        },
        None => accept_peered(c, t, new_fd, nonblock, cloexec, caddr, g, fds, g2, fds2),
    }
}

/// The rest of the last run of `accept` when client `c` (with address `caddr`) is
/// connected to a new socket (see `accept_finish`).
pub open spec fn accept_peered(
    c: i64,
    t: TransportAddress,
    new_fd: i32,
    nonblock: bool,
    cloexec: bool,
    caddr: TransportAddress,
    g: GlobalState,
    fds: Map<int, DescriptorInfo>,
    g2: GlobalState,
    fds2: Map<int, DescriptorInfo>,
) -> bool {
    let n = g.next_socket_id;
    let client = g.sockets@[c as int];
    &&& g2.next_socket_id == n + 1
    &&& g2.sockets@ == g.sockets@.insert(
        c as int,
        SocketInfo { state: SocketState::Connected(ConnectedSocket { rem_addr: t, peer_closed: false }), ..client },
    ).insert(
        n as int,
        SocketInfo {
            fd_count: 1,
            socktype: client.socktype,
            protocol: client.protocol,
            local_addr: LocalAddress::Assigned(t.sockaddr),
            options: SocketOptions { tcp_user_timeout: None },
            state: SocketState::Connected(ConnectedSocket { rem_addr: caddr, peer_closed: false }),
        },
    )
    &&& g2.endpoints@ == g.endpoints@.insert(c as int, g2.endpoints@[c as int]).insert(n as int, g2.endpoints@[n as int])
    &&& fresh_stream(g2.endpoints@[c as int], n)
    &&& fresh_stream(g2.endpoints@[n as int], c)
    &&& g2.connects@ == (if client.state is Connecting {
        g.connects@.insert(c as int, true)
    } else {
        g.connects@
    })
    &&& g2 == (GlobalState {
        sockets: g2.sockets,
        endpoints: g2.endpoints,
        connects: g2.connects,
        next_socket_id: g2.next_socket_id,
        socket_locations: g2.socket_locations,
        ..g
    })
    &&& fds2 == fds.insert(
        new_fd as int,
        DescriptorInfo {
            close_on_exec: cloexec,
            nonblocking: nonblock,
            is_passthrough: false,
            is_random: false,
            resource: FdResource::Socket(n),
        },
    )
}

/// A new stream queue to peer `p`: empty, not readable, and open to sending.
pub open spec fn fresh_stream(e: Endpoint, p: i64) -> bool {
    e matches Endpoint::Stream(q) && q.peer == Some(p) && q.recv@.len() == 0 && q.read_idx == 0 && !q.read_raised
        && q.write_raised
}

/// A new stream queue to peer `p`.
fn new_stream(p: Option<i64>) -> (r: Endpoint)
    ensures
        r matches Endpoint::Stream(q) && q.peer == p && q.recv@.len() == 0 && q.read_idx == 0 && !q.read_raised
            && q.write_raised,
{
    Endpoint::Stream(StreamQueue { peer: p, recv: Vec::new(), read_idx: 0, read_raised: false, write_raised: true })
}

impl SocketAcceptEvent {
    pub fn new(descriptor_id: i32, nonblock: bool, cloexec: bool) -> (r: Self)
        ensures
            r.descriptor_id == descriptor_id,
            r.nonblock == nonblock,
            r.cloexec == cloexec,
            r.state == SocketAcceptState::Start,
    {
        SocketAcceptEvent { descriptor_id, nonblock, cloexec, state: SocketAcceptState::Start }
    }

    /// Runs the accept (see `accept_start`, `accept_blocked` and `accept_finish`); the
    /// new socket gets descriptor `new_fd`, which the host handed out, and `candidates`
    /// are the ephemeral addresses handed out for a client without its own.
    pub fn run(&mut self, state: &mut FizzleState, new_fd: i32, candidates: &Vec<TransportAddress>) -> (r: Outcome<
        (i32, SockAddr),
        Errno,
    >)
        requires
            old(state).wf(),
            old(self).state == SocketAcceptState::Start ==> accept_start_defined(
                old(state).local.fds@,
                old(self).descriptor_id,
                candidates@,
                old(state).global,
            ),
            old(self).state is Blocked ==> accept_blocked_defined(
                old(state).local.fds@,
                old(self).descriptor_id,
                candidates@,
                old(state).global,
            ),
            old(self).state matches SocketAcceptState::Finish(c, _) ==> accept_finish_defined(
                c,
                candidates@,
                old(state).global,
            ),
        ensures
            final(state).wf(),
            final(self).descriptor_id == old(self).descriptor_id,
            final(self).cloexec == old(self).cloexec,
            old(self).state == SocketAcceptState::Start ==> {
                &&& final(self).nonblock == (old(self).nonblock || (old(state).local.fds@.contains_key(
                    old(self).descriptor_id as int,
                ) && old(state).local.fds@[old(self).descriptor_id as int].nonblocking))
                &&& final(state).local == old(state).local
                &&& accept_start(
                    old(state).local.fds@,
                    old(self).descriptor_id,
                    candidates@,
                    old(state).global,
                    final(self).state,
                    final(state).global,
                    r,
                )
            },
            old(self).state matches SocketAcceptState::Blocked(p) ==> {
                &&& final(self).nonblock == old(self).nonblock
                &&& final(state).local == old(state).local
                &&& accept_blocked(
                    old(state).local.fds@,
                    old(self).descriptor_id,
                    p,
                    candidates@,
                    old(state).global,
                    final(self).state,
                    final(state).global,
                    r,
                )
            },
            old(self).state matches SocketAcceptState::Finish(c, t) ==> {
                &&& final(self).nonblock == old(self).nonblock
                &&& final(self).state == old(self).state
                &&& final(state).local == (LocalState { fds: final(state).local.fds, ..old(state).local })
                &&& accept_finish(
                    c,
                    t,
                    new_fd,
                    old(self).nonblock,
                    old(self).cloexec,
                    candidates@,
                    old(state).global,
                    old(state).local.fds@,
                    final(state).global,
                    final(state).local.fds@,
                    r,
                )
            },
    {
        match self.state {
            SocketAcceptState::Start => self.run_start(state, candidates),
            SocketAcceptState::Blocked(p) => self.run_blocked(state, p, candidates),
            SocketAcceptState::Finish(c, t) => {
                let client = match state.global.sockets.get(c as i128) {
                    Some(s) => *s,
                    None => {
                        assert(false);
                        return Outcome::Error(Errno::EINVAL);
                    },
                };
                let caddr = match get_or_assign_local(c, &mut state.global, candidates) {
                    Some(a) => a,
                    None => {
                        assert(false);
                        return Outcome::Error(Errno::EINVAL);
                    },
                };
                let (emulated, made) = match client.state {
                    SocketState::PendingConnection(ps) => match ps.backend {
                        PendingBackend::Peered => (false, None),
                        PendingBackend::Sink => (true, Some(Endpoint::Sink)),
                        PendingBackend::NullSink => (true, Some(Endpoint::NullSink)),
                        PendingBackend::Fuzz(f) => (true, Some(Endpoint::Fuzz(f))),
                        PendingBackend::Plugin => (true, None),
                        PendingBackend::Feedback => (
                            true,
                            Some(Endpoint::FeedbackStream(FeedbackStream { queued: 0, read_raised: false, write_raised: true })),
                        ),
                    },
                    _ => (false, None),
                };
                if emulated {
                    state.global.sockets.insert(
                        c as i128,
                        SocketInfo {
                            local_addr: LocalAddress::Assigned(t.sockaddr),
                            state: SocketState::Connected(ConnectedSocket { rem_addr: caddr, peer_closed: false }),
                            ..client
                        },
                    );
                    match made {
                        Some(e) => {
                            state.global.endpoints.insert(c as i128, e);
                        },
                        None => {
                            assert(state.global.endpoints@ =~= state.global.endpoints@.insert(
                                c as int,
                                state.global.endpoints@[c as int],
                            ));
                        },
                    }
                    let nonblock = self.nonblock;
                    let cloexec = self.cloexec;
                    state.local.fds.insert(
                        new_fd as i128,
                        DescriptorInfo {
                            close_on_exec: cloexec,
                            nonblocking: nonblock,
                            is_passthrough: false,
                            is_random: false,
                            resource: FdResource::Socket(c),
                        },
                    );
                    return Outcome::Success((new_fd, caddr.sockaddr));
                }
                let connecting = match client.state {
                    SocketState::Connecting => true,
                    _ => false,
                };
                if connecting {
                    state.global.connects.insert(c as i128, true);
                }
                let n = state.global.next_socket_id;
                state.global.next_socket_id = n + 1;
                let accepting = SocketInfo {
                    fd_count: 1,
                    socktype: client.socktype,
                    protocol: client.protocol,
                    local_addr: LocalAddress::Assigned(t.sockaddr),
                    options: SocketOptions::default(),
                    state: SocketState::Connected(ConnectedSocket { rem_addr: caddr, peer_closed: false }),
                };
                state.global.sockets.insert(
                    c as i128,
                    SocketInfo { state: SocketState::Connected(ConnectedSocket { rem_addr: t, peer_closed: false }), ..client },
                );
                state.global.sockets.insert(n as i128, accepting);
                let ghost eps0 = state.global.endpoints@;
                let ec = new_stream(Some(n));
                let en = new_stream(Some(c));
                state.global.endpoints.insert(c as i128, ec);
                state.global.endpoints.insert(n as i128, en);
                proof {
                    assert(state.global.endpoints@ =~= eps0.insert(c as int, state.global.endpoints@[c as int]).insert(
                        n as int,
                        state.global.endpoints@[n as int],
                    ));
                }
                let nonblock = self.nonblock;
                let cloexec = self.cloexec;
                state.local.fds.insert(
                    new_fd as i128,
                    DescriptorInfo {
                        close_on_exec: cloexec,
                        nonblocking: nonblock,
                        is_passthrough: false,
                        is_random: false,
                        resource: FdResource::Socket(n),
                    },
                );
                Outcome::Success((new_fd, caddr.sockaddr))
            },
        }
    }

    fn run_start(&mut self, state: &mut FizzleState, candidates: &Vec<TransportAddress>) -> (r: Outcome<
        (i32, SockAddr),
        Errno,
    >)
        requires
            old(state).wf(),
            old(self).state == SocketAcceptState::Start,
            accept_start_defined(old(state).local.fds@, old(self).descriptor_id, candidates@, old(state).global),
        ensures
            final(state).wf(),
            final(self).descriptor_id == old(self).descriptor_id,
            final(self).cloexec == old(self).cloexec,
            final(self).nonblock == (old(self).nonblock || (old(state).local.fds@.contains_key(
                old(self).descriptor_id as int,
            ) && old(state).local.fds@[old(self).descriptor_id as int].nonblocking)),
            final(state).local == old(state).local,
            accept_start(
                old(state).local.fds@,
                old(self).descriptor_id,
                candidates@,
                old(state).global,
                final(self).state,
                final(state).global,
                r,
            ),
    {
        let fd_info = match state.local.fds.get(self.descriptor_id as i128) {
            Some(d) => *d,
            None => return Outcome::Error(Errno::EBADF),
        };
        self.nonblock = self.nonblock || fd_info.nonblocking;
        let nonblocking = fd_info.nonblocking;
        let id = match fd_info.resource {
            FdResource::Socket(id) => id,
            _ => return Outcome::Error(Errno::ENOTSOCK),
        };
        let sock = match state.global.sockets.get(id as i128) {
            Some(s) => *s,
            None => {
                assert(false);
                return Outcome::Error(Errno::EBADF);
            },
        };
        match sock.state {
            SocketState::Server => {},
            _ => return Outcome::Error(Errno::EINVAL),
        }
        let t = match sock.local_transport() {
            Some(t) => t,
            None => {
                assert(false);
                return Outcome::Error(Errno::EBADF);
            },
        };
        let queued = match state.global.servers.get(id as i128) {
            Some(q) => q.connecting.len(),
            None => {
                assert(false);
                0
            },
        };
        if state.global.socket_locations.pending_len(&t) > 0 {
            let (waiting, left) = state.global.socket_locations.pop_pending(&t);
            let c = match waiting {
                Some(c) => c,
                None => {
                    assert(false);
                    return Outcome::Error(Errno::EINVAL);
                },
            };
            let q = match state.global.servers.remove(id as i128) {
                Some(q) => q,
                None => {
                    assert(false);
                    return Outcome::Error(Errno::EINVAL);
                },
            };
            let ServerSocket { connecting, ready, backend } = q;
            let ready2 = if left == 0 && connecting.len() == 0 {
                false
            } else {
                ready
            };
            state.global.servers.insert(id as i128, ServerSocket { connecting, ready: ready2, backend });
            proof {
                assert(state.global.servers@ =~= old(state).global.servers@.insert(id as int, state.global.servers@[id as int]));
            }
            let _client_addr = get_or_assign_local(c, &mut state.global, candidates);
            self.state = SocketAcceptState::Finish(c, t);
            return Outcome::Yield(YieldUntil::Immediate);
        }
        if queued > 0 {
            let q = match state.global.servers.remove(id as i128) {
                Some(q) => q,
                None => {
                    assert(false);
                    return Outcome::Error(Errno::EINVAL);
                },
            };
            let ServerSocket { mut connecting, ready, backend } = q;
            let ghost conn0 = connecting@;
            let c = connecting.remove(0);
            let ready2 = ready && connecting.len() > 0;
            state.global.servers.insert(id as i128, ServerSocket { connecting, ready: ready2, backend });
            proof {
                assert(state.global.servers@ =~= old(state).global.servers@.insert(id as int, state.global.servers@[id as int]));
            }
            state.global.connects.insert(c as i128, true);
            let _client_addr = get_or_assign_local(c, &mut state.global, candidates);
            self.state = SocketAcceptState::Finish(c, t);
            Outcome::Yield(YieldUntil::Immediate)
        } else if nonblocking {
            Outcome::Error(Errno::EAGAIN)
        } else {
            let q = match state.global.servers.remove(id as i128) {
                Some(q) => q,
                None => {
                    assert(false);
                    return Outcome::Error(Errno::EINVAL);
                },
            };
            let ServerSocket { connecting, ready: _, backend } = q;
            state.global.servers.insert(id as i128, ServerSocket { connecting, ready: false, backend });
            proof {
                assert(state.global.servers@ =~= old(state).global.servers@.insert(id as int, state.global.servers@[id as int]));
            }
            let p = state.global.next_poller;
            state.global.next_poller = p + 1;
            state.global.pollers.insert(p as i128, Polled::SocketAccept(id));
            self.state = SocketAcceptState::Blocked(p);
            Outcome::Yield(YieldUntil::Indefinite)
        }
    }

    fn run_blocked(&mut self, state: &mut FizzleState, p: i64, candidates: &Vec<TransportAddress>) -> (r: Outcome<
        (i32, SockAddr),
        Errno,
    >)
        requires
            old(state).wf(),
            old(self).state == SocketAcceptState::Blocked(p),
            accept_blocked_defined(old(state).local.fds@, old(self).descriptor_id, candidates@, old(state).global),
        ensures
            final(state).wf(),
            final(self).descriptor_id == old(self).descriptor_id,
            final(self).cloexec == old(self).cloexec,
            final(self).nonblock == old(self).nonblock,
            final(state).local == old(state).local,
            accept_blocked(
                old(state).local.fds@,
                old(self).descriptor_id,
                p,
                candidates@,
                old(state).global,
                final(self).state,
                final(state).global,
                r,
            ),
    {
        state.global.pollers.remove(p as i128);
        let fd_info = match state.local.fds.get(self.descriptor_id as i128) {
            Some(d) => *d,
            None => return Outcome::Error(Errno::EBADF),
        };
        let id = match fd_info.resource {
            FdResource::Socket(id) => id,
            _ => return Outcome::Error(Errno::ENOTSOCK),
        };
        let sock = match state.global.sockets.get(id as i128) {
            Some(s) => *s,
            None => {
                assert(false);
                return Outcome::Error(Errno::EBADF);
            },
        };
        match sock.state {
            SocketState::Server => {},
            _ => return Outcome::Error(Errno::EINVAL),
        }
        let t = match sock.local_transport() {
            Some(t) => t,
            None => {
                assert(false);
                return Outcome::Error(Errno::EBADF);
            },
        };
        let q = match state.global.servers.remove(id as i128) {
            Some(q) => q,
            None => {
                assert(false);
                return Outcome::Error(Errno::EINVAL);
            },
        };
        let ServerSocket { mut connecting, ready, backend } = q;
        let more = connecting.len() > 0;
        let c = connecting.remove(0);
        let ready2 = if !more {
            false
        } else {
            ready
        };
        state.global.servers.insert(id as i128, ServerSocket { connecting, ready: ready2, backend });
        proof {
            assert(state.global.servers@ =~= old(state).global.servers@.insert(id as int, state.global.servers@[id as int]));
        }
        let _client_addr = get_or_assign_local(c, &mut state.global, candidates);
        self.state = SocketAcceptState::Finish(c, t);
        Outcome::Yield(YieldUntil::Immediate)
    }
}

/// `socketpair`.
pub struct SocketCreatePairEvent {
    pub domain: crate::socket::AddressFamily,
    pub socket_type: SocketType,
    pub protocol: crate::socket::TransportProtocol,
    pub nonblocking: bool,
    pub cloexec: bool,
}

/// The state of one socket of a pair, bound at its own address, towards the other's.
pub open spec fn pair_state(t: SocketType, reuse_port: bool, other: TransportAddress) -> SocketState {
    if t == SocketType::Datagram {
        SocketState::Connectionless(ConnectionlessSocket { rem_addr: Some(other), reuse_port })
    } else {
        SocketState::Connected(ConnectedSocket { rem_addr: other, peer_closed: false })
    }
}

/// The endpoint of one socket of a pair: an empty datagram queue, or an empty stream queue
/// to `peer`, as a new connection has (see `fresh_stream`).
pub open spec fn pair_endpoint(t: SocketType, e: Endpoint, peer: i64) -> bool {
    if t == SocketType::Datagram {
        e matches Endpoint::Datagrams(q) && q.recv@.len() == 0 && !q.read_raised && !q.write_raised
    } else {
        fresh_stream(e, peer)
    }
}

impl SocketCreatePairEvent {
    /// Creates two sockets (the next two identifiers) bound at `addr1` and `addr2` (the
    /// addresses and descriptors `fd1`, `fd2` that the host handed out), each towards the
    /// other: connected stream sockets, each the other's peer, or connectionless datagram
    /// sockets; each address holds its socket alone,
    /// sharing the port when the address is an unnamed Unix one. Raw sockets fail with
    /// `EOPNOTSUPP`. Returns the two descriptors.
    pub fn run(
        &mut self,
        state: &mut FizzleState,
        fd1: i32,
        fd2: i32,
        addr1: TransportAddress,
        addr2: TransportAddress,
    ) -> (r: Outcome<(i32, i32), Errno>)
        requires
            old(state).wf(),
            old(state).global.next_socket_id < i64::MAX - 1,
        ensures
            *final(self) == *old(self),
            final(state).wf(),
            old(self).socket_type == SocketType::Raw ==> r == Outcome::<(i32, i32), Errno>::Error(Errno::EOPNOTSUPP)
                && final(state).global == old(state).global && final(state).local == old(state).local,
            old(self).socket_type != SocketType::Raw ==> ({
                let g = old(state).global;
                let g2 = final(state).global;
                let ev = *old(self);
                let n1 = g.next_socket_id;
                let n2 = (n1 + 1) as i64;
                let reuse = addr1.sockaddr == SockAddr::UnixUnnamed;
                let sock = |a: TransportAddress, other: TransportAddress| SocketInfo {
                    fd_count: 1,
                    socktype: ev.socket_type,
                    protocol: ev.protocol,
                    local_addr: LocalAddress::Assigned(a.sockaddr),
                    options: SocketOptions { tcp_user_timeout: None },
                    state: pair_state(ev.socket_type, reuse, other),
                };
                let fdinfo = |n: i64| DescriptorInfo {
                    close_on_exec: ev.cloexec,
                    nonblocking: ev.nonblocking,
                    is_passthrough: false,
                    is_random: false,
                    resource: FdResource::Socket(n),
                };
                let single = |n: i64| LocationView { reuse_port: reuse, bound_sockets: seq![n], pending: Seq::empty() };
                &&& r == Outcome::<(i32, i32), Errno>::Success((fd1, fd2))
                &&& g2.next_socket_id == n1 + 2
                &&& g2.sockets@ == g.sockets@.insert(n1 as int, sock(addr1, addr2)).insert(n2 as int, sock(addr2, addr1))
                &&& g2.endpoints@ == g.endpoints@.insert(n1 as int, g2.endpoints@[n1 as int]).insert(
                    n2 as int,
                    g2.endpoints@[n2 as int],
                )
                &&& pair_endpoint(ev.socket_type, g2.endpoints@[n1 as int], n2)
                &&& pair_endpoint(ev.socket_type, g2.endpoints@[n2 as int], n1)
                &&& g2.socket_locations@ == g.socket_locations@.insert(addr1, single(n1)).insert(addr2, single(n2))
                &&& g2 == (GlobalState {
                    sockets: g2.sockets,
                    endpoints: g2.endpoints,
                    socket_locations: g2.socket_locations,
                    next_socket_id: g2.next_socket_id,
                    ..g
                })
                &&& final(state).local.fds@ == old(state).local.fds@.insert(fd1 as int, fdinfo(n1)).insert(
                    fd2 as int,
                    fdinfo(n2),
                )
                &&& final(state).local == (LocalState { fds: final(state).local.fds, ..old(state).local })
            }),
    {
        if self.socket_type == SocketType::Raw {
            return Outcome::Error(Errno::EOPNOTSUPP);
        }
        let n1 = state.global.next_socket_id;
        let n2 = n1 + 1;
        state.global.next_socket_id = n1 + 2;
        let reuse = addr1.sockaddr == SockAddr::UnixUnnamed;
        let dgram = self.socket_type == SocketType::Datagram;
        let st1 = if dgram {
            SocketState::Connectionless(ConnectionlessSocket { rem_addr: Some(addr2), reuse_port: reuse })
        } else {
            SocketState::Connected(ConnectedSocket { rem_addr: addr2, peer_closed: false })
        };
        let st2 = if dgram {
            SocketState::Connectionless(ConnectionlessSocket { rem_addr: Some(addr1), reuse_port: reuse })
        } else {
            SocketState::Connected(ConnectedSocket { rem_addr: addr1, peer_closed: false })
        };
        state.global.sockets.insert(
            n1 as i128,
            SocketInfo {
                fd_count: 1,
                socktype: self.socket_type,
                protocol: self.protocol,
                local_addr: LocalAddress::Assigned(addr1.sockaddr),
                options: SocketOptions::default(),
                state: st1,
            },
        );
        state.global.sockets.insert(
            n2 as i128,
            SocketInfo {
                fd_count: 1,
                socktype: self.socket_type,
                protocol: self.protocol,
                local_addr: LocalAddress::Assigned(addr2.sockaddr),
                options: SocketOptions::default(),
                state: st2,
            },
        );
        let ghost eps0 = state.global.endpoints@;
        let (e1, e2) = if dgram {
            (Endpoint::Datagrams(DatagramQueue::new()), Endpoint::Datagrams(DatagramQueue::new()))
        } else {
            (
                new_stream(Some(n2)),
                new_stream(Some(n1)),
            )
        };
        state.global.endpoints.insert(n1 as i128, e1);
        state.global.endpoints.insert(n2 as i128, e2);
        proof {
            assert(state.global.endpoints@ =~= eps0.insert(n1 as int, state.global.endpoints@[n1 as int]).insert(
                n2 as int,
                state.global.endpoints@[n2 as int],
            ));
        }
        let nonblocking = self.nonblocking;
        let cloexec = self.cloexec;
        state.local.fds.insert(
            fd1 as i128,
            DescriptorInfo {
                close_on_exec: cloexec,
                nonblocking,
                is_passthrough: false,
                is_random: false,
                resource: FdResource::Socket(n1),
            },
        );
        state.local.fds.insert(
            fd2 as i128,
            DescriptorInfo {
                close_on_exec: cloexec,
                nonblocking,
                is_passthrough: false,
                is_random: false,
                resource: FdResource::Socket(n2),
            },
        );
        state.global.socket_locations.put_single(addr1, n1, reuse);
        state.global.socket_locations.put_single(addr2, n2, reuse);
        Outcome::Success((fd1, fd2))
    }
}

/// Connections are accepted in the order they were asked for: a socket that connects to
/// a listener that queues its connections, with nothing queued and nothing waiting at its
/// address (and room in its queue), is the one the listener's next `accept` takes, and it
/// is told that its connection is accepted.
pub proof fn lemma_connect_then_accept(
    fds: Map<int, DescriptorInfo>,
    fd_c: i32,
    fd_l: i32,
    dst: SockAddr,
    cands: Seq<TransportAddress>,
    g0: GlobalState,
    st1: SocketConnectState,
    g1: GlobalState,
    r1: Outcome<(), Errno>,
    cands2: Seq<TransportAddress>,
    st2: SocketAcceptState,
    g2: GlobalState,
    r2: Outcome<(i32, SockAddr), Errno>,
)
    requires
        fd_socket(fds, fd_c) is Some,
        fd_socket(fds, fd_l) is Some,
        g0.sockets@.contains_key(fd_socket(fds, fd_c)->Some_0 as int),
        g0.sockets@[fd_socket(fds, fd_c)->Some_0 as int].state is Unassociated,
        connect_target(
            local_for(g0, fd_socket(fds, fd_c)->Some_0, cands).1,
            TransportAddress { sockaddr: dst, protocol: g0.sockets@[fd_socket(fds, fd_c)->Some_0 as int].protocol },
        ) == Some(fd_socket(fds, fd_l)->Some_0),
        g0.sockets@[fd_socket(fds, fd_l)->Some_0 as int].state is Server,
        g0.servers@.contains_key(fd_socket(fds, fd_l)->Some_0 as int),
        g0.servers@[fd_socket(fds, fd_l)->Some_0 as int].connecting@.len() == 0,
        g0.servers@[fd_socket(fds, fd_l)->Some_0 as int].backend == ServerBackend::Peered,
        g0.sockets@[fd_socket(fds, fd_l)->Some_0 as int].spec_local_transport() matches Some(t)
            && g0.socket_locations@.contains_key(t) && g0.socket_locations@[t].pending.len() == 0,
        g0.somaxconn > 0,
        connect_start(fds, fd_c, dst, cands, g0, st1, g1, r1),
        accept_start(fds, fd_l, cands2, g1, st2, g2, r2),
    ensures
        r1 == Outcome::<(), Errno>::Error(Errno::EINPROGRESS) || r1 == Outcome::<(), Errno>::Yield(
            YieldUntil::Indefinite,
        ),
        r2 == Outcome::<(i32, SockAddr), Errno>::Yield(YieldUntil::Immediate),
        st2 == SocketAcceptState::Finish(
            fd_socket(fds, fd_c)->Some_0,
            g0.sockets@[fd_socket(fds, fd_l)->Some_0 as int].spec_local_transport()->Some_0,
        ),
        g2.connects@[fd_socket(fds, fd_c)->Some_0 as int],
{
    let c = fd_socket(fds, fd_c)->Some_0;
    let l = fd_socket(fds, fd_l)->Some_0;
    assert(c != l);
    assert(g1.sockets@[l as int] == g0.sockets@[l as int]);
    assert(g1.servers@[l as int].connecting@ =~= seq![c]);
    let t = g0.sockets@[l as int].spec_local_transport()->Some_0;
    assert(g1.socket_locations@.contains_key(t));
    assert(g1.socket_locations@[t].pending.len() == 0);
}

/// A socket not yet connected that connects to an IPv4 address at which nothing is bound
/// reaches a listener bound at `0.0.0.0` with the same port and protocol: when that
/// listener queues its connections and has room, the socket joins its queue and answers
/// `EINPROGRESS` or waits; it is not refused.
pub proof fn lemma_connect_reaches_listener_on_any_address(
    fds: Map<int, DescriptorInfo>,
    fd: i32,
    addr: u32,
    port: u16,
    cands: Seq<TransportAddress>,
    g: GlobalState,
    st2: SocketConnectState,
    g2: GlobalState,
    r: Outcome<(), Errno>,
    srv: i64,
)
    requires
        fd_socket(fds, fd) is Some,
        g.sockets@.contains_key(fd_socket(fds, fd)->Some_0 as int),
        g.sockets@[fd_socket(fds, fd)->Some_0 as int].state is Unassociated,
        !({
            let t = TransportAddress {
                sockaddr: SockAddr::Ipv4 { addr, port },
                protocol: g.sockets@[fd_socket(fds, fd)->Some_0 as int].protocol,
            };
            local_for(g, fd_socket(fds, fd)->Some_0, cands).1.contains_key(t) && local_for(
                g,
                fd_socket(fds, fd)->Some_0,
                cands,
            ).1[t].bound_sockets.len() > 0
        }),
        ({
            let w = TransportAddress {
                sockaddr: SockAddr::Ipv4 { addr: 0, port },
                protocol: g.sockets@[fd_socket(fds, fd)->Some_0 as int].protocol,
            };
            &&& local_for(g, fd_socket(fds, fd)->Some_0, cands).1.contains_key(w)
            &&& local_for(g, fd_socket(fds, fd)->Some_0, cands).1[w].bound_sockets.len() > 0
            &&& local_for(g, fd_socket(fds, fd)->Some_0, cands).1[w].bound_sockets[0] == srv
        }),
        g.sockets@[srv as int].state is Server,
        g.servers@[srv as int].backend == ServerBackend::Peered,
        g.servers@[srv as int].connecting@.len() < g.somaxconn,
        connect_start(fds, fd, SockAddr::Ipv4 { addr, port }, cands, g, st2, g2, r),
    ensures
        r == Outcome::<(), Errno>::Error(Errno::EINPROGRESS) || r == Outcome::<(), Errno>::Yield(
            YieldUntil::Indefinite,
        ),
        g2.servers@[srv as int].connecting@ == g.servers@[srv as int].connecting@.push(fd_socket(fds, fd)->Some_0),
{
}

} // verus!
