use fizzle::conn::{SocketAcceptEvent, SocketAcceptState, SocketConnectEvent, SocketCreatePairEvent};
use fizzle::errno::Errno;
use fizzle::scheduler::{Outcome, YieldUntil};
use fizzle::socket::{
    get_or_assign_local, AddressFamily, ConnectedSocket, ConnectionlessSocket, PendingBackend,
    PendingSocket, ServerBackend, SockAddr, SocketState,
    SocketBindEvent, SocketCreateEvent, SocketListenEvent, SocketType, TransportAddress,
    TransportProtocol,
};
use fizzle::sockio::{DatagramQueue, Endpoint, SocketWriteEvent, StreamQueue, WriteData};
use fizzle::state::{FdResource, FizzleState, Polled};

fn fresh() -> FizzleState {
    FizzleState::new(7, 40000, 40010, 4096, 2)
}

fn tcp(addr: u32, port: u16) -> TransportAddress {
    TransportAddress { sockaddr: SockAddr::Ipv4 { addr, port }, protocol: TransportProtocol::Tcp }
}

fn udp(port: u16) -> TransportAddress {
    TransportAddress { sockaddr: SockAddr::Ipv4 { addr: 0x7f00_0001, port }, protocol: TransportProtocol::Udp }
}

fn socket(st: &mut FizzleState, fd: i32, socket_type: SocketType, protocol: TransportProtocol) {
    let mut ev = SocketCreateEvent {
        domain: AddressFamily::Ipv4,
        socket_type,
        protocol,
        nonblocking: false,
        cloexec: false,
    };
    assert_eq!(ev.run(st, fd), Outcome::Success(fd));
}

#[test]
fn ephemeral_address_is_the_first_candidate_that_fits() {
    let mut st = fresh();
    socket(&mut st, 5, SocketType::Stream, TransportProtocol::Tcp);
    socket(&mut st, 6, SocketType::Stream, TransportProtocol::Tcp);
    let cands = vec![tcp(0x7f00_0001, 41000), tcp(0x7f00_0001, 41001)];

    assert_eq!(get_or_assign_local(0, &mut st.global, &cands), Some(cands[0]));
    assert_eq!(st.global.socket_locations.lookup(&cands[0]), Some((false, false)));
    assert_eq!(st.global.socket_locations.front_of(&cands[0]), Some(0));

    // The first candidate is taken now, so the second socket gets the next one.
    assert_eq!(get_or_assign_local(1, &mut st.global, &cands), Some(cands[1]));
    assert_eq!(st.global.socket_locations.front_of(&cands[1]), Some(1));

    // The socket's own address stays unassigned: it is registered again elsewhere.
    let more = vec![tcp(0x7f00_0001, 41000), tcp(0x7f00_0001, 41002)];
    assert_eq!(get_or_assign_local(0, &mut st.global, &more), Some(more[1]));
}

#[test]
fn ephemeral_candidate_under_a_bound_wildcard_is_skipped() {
    let mut st = fresh();
    socket(&mut st, 5, SocketType::Stream, TransportProtocol::Tcp);
    socket(&mut st, 6, SocketType::Stream, TransportProtocol::Tcp);
    let cands = vec![tcp(0x7f00_0001, 42000), tcp(0x7f00_0001, 42001)];

    // An unregistered candidate is taken whatever its wildcard holds.
    let any = vec![tcp(0, 42000)];
    assert_eq!(get_or_assign_local(0, &mut st.global, &any), Some(any[0]));
    assert_eq!(get_or_assign_local(1, &mut st.global, &cands), Some(cands[0]));

    // A registered but empty candidate is skipped while its wildcard is bound.
    assert_eq!(st.global.socket_locations.swap_bound(&cands[0], vec![]), vec![1]);
    assert_eq!(get_or_assign_local(1, &mut st.global, &cands), Some(cands[1]));
    assert_eq!(st.global.socket_locations.lookup(&cands[0]), Some((false, true)));
}

#[test]
fn ephemeral_assignment_without_a_fitting_candidate() {
    let mut st = fresh();
    socket(&mut st, 5, SocketType::Stream, TransportProtocol::Tcp);
    assert_eq!(get_or_assign_local(0, &mut st.global, &vec![]), None);
    socket(&mut st, 6, SocketType::Stream, TransportProtocol::Tcp);
    let cands = vec![tcp(0x7f00_0001, 43000)];
    assert_eq!(get_or_assign_local(0, &mut st.global, &cands), Some(cands[0]));
    assert_eq!(get_or_assign_local(1, &mut st.global, &cands), None);
}

#[test]
fn assigned_address_is_returned_unchanged() {
    let mut st = fresh();
    socket(&mut st, 5, SocketType::Stream, TransportProtocol::Tcp);
    let mut bind = SocketBindEvent::with_addr(5, Some(SockAddr::Ipv4 { addr: 0x7f00_0001, port: 5000 }));
    assert_eq!(bind.run(&mut st, 0, Errno::SUCCESS), Outcome::Success(()));
    let cands = vec![tcp(0x7f00_0001, 44000)];
    assert_eq!(get_or_assign_local(0, &mut st.global, &cands), Some(tcp(0x7f00_0001, 5000)));
    assert_eq!(st.global.socket_locations.lookup(&cands[0]), None);
}

#[test]
fn connectionless_destination_is_the_first_bound_socket() {
    let mut st = fresh();
    let mut pair = SocketCreatePairEvent {
        domain: AddressFamily::Ipv4,
        socket_type: SocketType::Datagram,
        protocol: TransportProtocol::Udp,
        nonblocking: false,
        cloexec: false,
    };
    assert_eq!(pair.run(&mut st, 3, 4, udp(5000), udp(5001)), Outcome::Success((3, 4)));

    let to_second = ConnectionlessSocket { rem_addr: Some(udp(5001)), reuse_port: false };
    assert_eq!(to_second.dst_socket(&mut st.global), Some(1));
    assert_eq!(to_second.dst_socket(&mut st.global), Some(1));
    let nowhere = ConnectionlessSocket { rem_addr: Some(udp(6000)), reuse_port: false };
    assert_eq!(nowhere.dst_socket(&mut st.global), None);
    let unset = ConnectionlessSocket { rem_addr: None, reuse_port: false };
    assert_eq!(unset.dst_socket(&mut st.global), None);
    assert_eq!(unset.read_polled(3), Some(Polled::SocketRead(3)));
}

#[test]
fn connected_sockets_poll_their_own_reads_and_their_peers_writes() {
    let mut st = fresh();
    let mut pair = SocketCreatePairEvent {
        domain: AddressFamily::Ipv4,
        socket_type: SocketType::Stream,
        protocol: TransportProtocol::Tcp,
        nonblocking: false,
        cloexec: false,
    };
    let a1 = tcp(0x7f00_0001, 5000);
    let a2 = tcp(0x7f00_0001, 5001);
    assert_eq!(pair.run(&mut st, 3, 4, a1, a2), Outcome::Success((3, 4)));
    let c = ConnectedSocket { rem_addr: a2, peer_closed: false };
    // Each socket of the pair polls its peer's write readiness.
    assert_eq!(c.write_polled(0, &st.global), Some(Polled::SocketWrite(1)));
    assert_eq!(c.write_polled(1, &st.global), Some(Polled::SocketWrite(0)));
    st.global.endpoints.insert(
        0,
        Endpoint::Stream(StreamQueue { peer: Some(1), recv: vec![], read_idx: 0, read_raised: false, write_raised: false }),
    );
    assert_eq!(c.write_polled(0, &st.global), Some(Polled::SocketWrite(1)));
    assert_eq!(c.read_polled(0, st.global.endpoints.get(0).unwrap()), Some(Polled::SocketRead(0)));
    assert_eq!(c.read_polled(0, &Endpoint::Sink), None);
    assert_eq!(c.read_polled(0, &Endpoint::NullSink), None);
    assert_eq!(c.read_polled(0, &Endpoint::Datagrams(DatagramQueue::new())), Some(Polled::SocketRead(0)));

    st.global.endpoints.insert(0, Endpoint::NullSink);
    assert_eq!(c.write_polled(0, &st.global), None);
}

#[test]
fn listen_without_an_address_takes_an_ephemeral_one() {
    let mut st = fresh();
    socket(&mut st, 5, SocketType::Stream, TransportProtocol::Tcp);
    let cands = vec![tcp(0x7f00_0001, 45000)];
    assert_eq!(SocketListenEvent::new(5, 4).run(&mut st, &cands), Outcome::Success(()));
    assert_eq!(st.global.sockets.get(0).unwrap().local_transport(), Some(cands[0]));
    assert_eq!(st.global.socket_locations.front_of(&cands[0]), Some(0));
    assert_eq!(SocketListenEvent::new(5, 4).run(&mut st, &vec![]), Outcome::Error(Errno::EINVAL));
    assert_eq!(SocketListenEvent::new(9, 4).run(&mut st, &vec![]), Outcome::Error(Errno::EBADF));
}

#[test]
fn unbound_client_connects_from_ephemeral_addresses() {
    let mut st = fresh();
    socket(&mut st, 5, SocketType::Stream, TransportProtocol::Tcp);
    let mut bind = SocketBindEvent::with_addr(5, Some(SockAddr::Ipv4 { addr: 0x7f00_0001, port: 80 }));
    assert_eq!(bind.run(&mut st, 0, Errno::SUCCESS), Outcome::Success(()));
    assert_eq!(SocketListenEvent::new(5, 4).run(&mut st, &vec![]), Outcome::Success(()));

    // The client never binds: each step that looks up its address registers it anew.
    socket(&mut st, 6, SocketType::Stream, TransportProtocol::Tcp);
    let first = vec![tcp(0x7f00_0001, 46000)];
    let mut c = SocketConnectEvent::new(6, SockAddr::Ipv4 { addr: 0x7f00_0001, port: 80 });
    assert_eq!(c.run(&mut st, &first), Outcome::Yield(YieldUntil::Indefinite));
    assert_eq!(st.global.socket_locations.front_of(&first[0]), Some(1));

    let second = vec![tcp(0x7f00_0001, 46000), tcp(0x7f00_0001, 46001)];
    let mut a = SocketAcceptEvent::new(5, false, false);
    assert_eq!(a.run(&mut st, 7, &second), Outcome::Yield(YieldUntil::Immediate));
    assert_eq!(st.global.socket_locations.front_of(&second[1]), Some(1));

    let third = vec![tcp(0x7f00_0001, 46002)];
    assert_eq!(
        a.run(&mut st, 7, &third),
        Outcome::Success((7, SockAddr::Ipv4 { addr: 0x7f00_0001, port: 46002 }))
    );
    assert_eq!(c.run(&mut st, &vec![]), Outcome::Success(()));
}

fn listener_at_80(st: &mut FizzleState) -> TransportAddress {
    socket(st, 5, SocketType::Stream, TransportProtocol::Tcp);
    let mut bind = SocketBindEvent::with_addr(5, Some(SockAddr::Ipv4 { addr: 0x7f00_0001, port: 80 }));
    assert_eq!(bind.run(st, 0, Errno::SUCCESS), Outcome::Success(()));
    assert_eq!(SocketListenEvent::new(5, 4).run(st, &vec![]), Outcome::Success(()));
    tcp(0x7f00_0001, 80)
}

fn make_pending(st: &mut FizzleState, id: i64, t: TransportAddress, backend: PendingBackend) {
    let mut info = *st.global.sockets.get(id as i128).unwrap();
    info.state = SocketState::PendingConnection(PendingSocket { rem_addr: t, backend });
    st.global.sockets.insert(id as i128, info);
    st.global.socket_locations.push_pending(&t, id);
}

#[test]
fn accept_serves_a_waiting_emulated_connection_first() {
    let mut st = fresh();
    let t = listener_at_80(&mut st);
    socket(&mut st, 6, SocketType::Stream, TransportProtocol::Tcp);
    make_pending(&mut st, 1, t, PendingBackend::Sink);
    // A queued client waits behind the pending connection.
    socket(&mut st, 8, SocketType::Stream, TransportProtocol::Tcp);
    let mut bind = SocketBindEvent::with_addr(8, Some(SockAddr::Ipv4 { addr: 0x7f00_0001, port: 2222 }));
    assert_eq!(bind.run(&mut st, 0, Errno::SUCCESS), Outcome::Success(()));
    let mut c = SocketConnectEvent::new(8, SockAddr::Ipv4 { addr: 0x7f00_0001, port: 80 });
    assert_eq!(c.run(&mut st, &vec![]), Outcome::Yield(YieldUntil::Indefinite));

    let cands = vec![tcp(0x7f00_0001, 47000)];
    let mut a = SocketAcceptEvent::new(5, false, false);
    assert_eq!(a.run(&mut st, 7, &cands), Outcome::Yield(YieldUntil::Immediate));
    assert_eq!(a.state, SocketAcceptState::Finish(1, t));
    assert_eq!(st.global.socket_locations.pending_len(&t), 0);
    // The queued client still makes the listener ready.
    assert!(st.global.servers.get(0).unwrap().ready);
    assert_eq!(st.global.servers.get(0).unwrap().connecting, vec![2]);

    let cands = vec![tcp(0x7f00_0001, 47000), tcp(0x7f00_0001, 47001)];
    assert_eq!(
        a.run(&mut st, 7, &cands),
        Outcome::Success((7, SockAddr::Ipv4 { addr: 0x7f00_0001, port: 47001 }))
    );
    // The emulated connection itself is the accepted socket.
    let s = *st.global.sockets.get(1).unwrap();
    assert_eq!(s.local_transport(), Some(t));
    assert_eq!(s.state, SocketState::Connected(ConnectedSocket { rem_addr: cands[1], peer_closed: false }));
    assert!(matches!(st.global.endpoints.get(1), Some(Endpoint::Sink)));
    assert_eq!(st.local.fds.get(7).unwrap().resource, FdResource::Socket(1));
    assert_eq!(st.global.next_socket_id, 3);
}

#[test]
fn accept_connects_a_waiting_peered_connection_to_a_new_socket() {
    let mut st = fresh();
    let t = listener_at_80(&mut st);
    socket(&mut st, 6, SocketType::Stream, TransportProtocol::Tcp);
    make_pending(&mut st, 1, t, PendingBackend::Peered);
    let cands = vec![tcp(0x7f00_0001, 48000)];
    let mut a = SocketAcceptEvent::new(5, false, false);
    assert_eq!(a.run(&mut st, 7, &cands), Outcome::Yield(YieldUntil::Immediate));
    assert!(!st.global.servers.get(0).unwrap().ready);
    let cands = vec![tcp(0x7f00_0001, 48001)];
    assert_eq!(a.run(&mut st, 7, &cands), Outcome::Success((7, SockAddr::Ipv4 { addr: 0x7f00_0001, port: 48001 })));
    assert_eq!(st.local.fds.get(7).unwrap().resource, FdResource::Socket(2));
    assert!(!st.global.connects.contains(1));
    match st.global.endpoints.get(2).unwrap() {
        Endpoint::Stream(q) => assert_eq!(q.peer, Some(1)),
        _ => panic!("expected a stream"),
    }
}

#[test]
fn unbound_datagram_sender_writes_from_an_ephemeral_address() {
    let mut st = fresh();
    // The receiver is bound; the sender never binds and only names its destination.
    socket(&mut st, 5, SocketType::Datagram, TransportProtocol::Udp);
    let mut bind = SocketBindEvent::with_addr(5, Some(SockAddr::Ipv4 { addr: 0x7f00_0001, port: 53 }));
    assert_eq!(bind.run(&mut st, 0, Errno::SUCCESS), Outcome::Success(()));
    socket(&mut st, 6, SocketType::Datagram, TransportProtocol::Udp);
    let mut c = SocketConnectEvent::new(6, SockAddr::Ipv4 { addr: 0x7f00_0001, port: 53 });
    assert_eq!(c.run(&mut st, &vec![udp(49000)]), Outcome::Success(()));

    let mut w = SocketWriteEvent::new(1, false, WriteData::Slice(b"query".to_vec()));
    assert_eq!(w.run(&mut st, &vec![udp(49000), udp(49001)]), Outcome::Yield(YieldUntil::Immediate));
    assert_eq!(w.run(&mut st, &vec![udp(49000), udp(49001), udp(49002)]), Outcome::Success(5));
    // Each run registered the sender at the next free candidate; it sent from the last.
    assert_eq!(st.global.socket_locations.front_of(&udp(49002)), Some(1));
    match st.global.endpoints.get(0).unwrap() {
        Endpoint::Datagrams(q) => {
            assert_eq!(q.recv.len(), 1);
            assert_eq!(q.recv[0].source, SockAddr::Ipv4 { addr: 0x7f00_0001, port: 49002 });
            assert_eq!(q.recv[0].data, b"query".to_vec());
        }
        _ => panic!("expected datagrams"),
    }
}

#[test]
fn connect_to_an_emulated_listener_hands_it_the_backend() {
    let mut st = fresh();
    let t = listener_at_80(&mut st);
    let mut q = st.global.servers.remove(0).unwrap();
    q.backend = ServerBackend::Sink;
    st.global.servers.insert(0, q);
    socket(&mut st, 6, SocketType::Stream, TransportProtocol::Tcp);
    let mut c = SocketConnectEvent::new(6, SockAddr::Ipv4 { addr: 0x7f00_0001, port: 80 });
    assert_eq!(c.run(&mut st, &vec![tcp(0x7f00_0001, 50000)]), Outcome::Success(()));
    // The client is connected, with a new endpoint of the backend's kind; the listener
    // keeps listening.
    let s = *st.global.sockets.get(1).unwrap();
    assert_eq!(s.state, SocketState::Connected(ConnectedSocket { rem_addr: t, peer_closed: false }));
    assert!(matches!(st.global.endpoints.get(1), Some(Endpoint::Sink)));
    assert!(st.global.servers.contains(0));
    assert_eq!(st.global.sockets.get(0).unwrap().state, SocketState::Server);
}
