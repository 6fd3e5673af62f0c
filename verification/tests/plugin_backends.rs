use fizzle::conn::{SocketAcceptEvent, SocketAcceptState, SocketConnectEvent, SocketCreatePairEvent};
use fizzle::errno::Errno;
use fizzle::scheduler::{Outcome, YieldUntil};
use fizzle::socket::{
    AddressFamily, ConnectedSocket, PendingBackend, PendingSocket, ServerBackend, SockAddr,
    SocketBindEvent, SocketCreateEvent, SocketListenEvent, SocketState, SocketType,
    TransportAddress, TransportProtocol,
};
use fizzle::sockio::{
    Endpoint, FeedbackQueue, FeedbackStream, PluginEndpoint, ReadData, SendMsg, SocketReadEvent,
    SocketWriteEvent, SocketWriteState, StreamQueue, WriteData,
};
use fizzle::state::{FdResource, FizzleState};

fn state_for_backends() -> FizzleState {
    FizzleState::new(7, 40000, 40010, 4096, 2)
}

fn local_v4(port: u16, protocol: TransportProtocol) -> TransportAddress {
    TransportAddress { sockaddr: SockAddr::Ipv4 { addr: 0x7f00_0001, port }, protocol }
}

fn empty_plugin(marker: u8) -> Endpoint {
    Endpoint::Plugin(PluginEndpoint {
        read: StreamQueue { peer: None, recv: vec![vec![marker]], read_idx: 0, read_raised: true, write_raised: true },
        write_buf: vec![],
    })
}

fn plugin_of(st: &FizzleState, id: i128) -> &PluginEndpoint {
    match st.global.endpoints.get(id).unwrap() {
        Endpoint::Plugin(p) => p,
        _ => panic!("expected a plugin connection"),
    }
}

fn udp_pair(st: &mut FizzleState) {
    let mut pair = SocketCreatePairEvent {
        domain: AddressFamily::Ipv4,
        socket_type: SocketType::Datagram,
        protocol: TransportProtocol::Udp,
        nonblocking: false,
        cloexec: false,
    };
    let a = local_v4(5000, TransportProtocol::Udp);
    let b = local_v4(5001, TransportProtocol::Udp);
    assert_eq!(pair.run(st, 3, 4, a, b), Outcome::Success((3, 4)));
}

fn tcp_listener(st: &mut FizzleState, backend: ServerBackend) -> TransportAddress {
    let mut ev = SocketCreateEvent {
        domain: AddressFamily::Ipv4,
        socket_type: SocketType::Stream,
        protocol: TransportProtocol::Tcp,
        nonblocking: false,
        cloexec: false,
    };
    assert_eq!(ev.run(st, 5), Outcome::Success(5));
    let mut bind = SocketBindEvent::with_addr(5, Some(SockAddr::Ipv4 { addr: 0x7f00_0001, port: 80 }));
    assert_eq!(bind.run(st, 0, Errno::SUCCESS), Outcome::Success(()));
    assert_eq!(SocketListenEvent::new(5, 4).run(st, &vec![]), Outcome::Success(()));
    let mut q = st.global.servers.remove(0).unwrap();
    q.backend = backend;
    st.global.servers.insert(0, q);
    local_v4(80, TransportProtocol::Tcp)
}

#[test]
fn datagram_to_a_plugin_served_socket_goes_to_the_plugin() {
    let mut st = state_for_backends();
    udp_pair(&mut st);
    st.global.endpoints.insert(1, empty_plugin(1));
    let mut w = SocketWriteEvent::new(0, false, WriteData::Iovec(vec![b"he".to_vec(), b"llo".to_vec()]));
    assert_eq!(w.run(&mut st, &vec![]), Outcome::Yield(YieldUntil::Immediate));
    assert_eq!(w.run(&mut st, &vec![]), Outcome::Success(5));
    assert_eq!(plugin_of(&st, 1).write_buf, vec![b"hello".to_vec()]);
    // What the plugin hands over to be read is untouched.
    assert_eq!(plugin_of(&st, 1).read.recv, vec![vec![1u8]]);
}

#[test]
fn messages_to_plugin_and_dropping_sockets() {
    let mut st = state_for_backends();
    udp_pair(&mut st);
    let msg = |data: &[u8]| SendMsg { addr_bytes: None, control: vec![], bufs: vec![data.to_vec()], buflen: 0 };

    // A plugin takes each message's data; the byte counts stay as they were.
    st.global.endpoints.insert(1, empty_plugin(2));
    let mut w = SocketWriteEvent::new(0, false, WriteData::Messages(vec![msg(b"ab"), msg(b"cde")]));
    w.state = SocketWriteState::Finish(None);
    assert_eq!(w.run(&mut st, &vec![]), Outcome::Success(2));
    assert_eq!(plugin_of(&st, 1).write_buf, vec![b"ab".to_vec(), b"cde".to_vec()]);
    match &w.data {
        WriteData::Messages(ms) => assert_eq!((ms[0].buflen, ms[1].buflen), (0, 0)),
        _ => panic!("expected messages"),
    }

    // A socket that drops datagrams counts each message's bytes as sent.
    st.global.endpoints.insert(1, Endpoint::Sink);
    let mut w = SocketWriteEvent::new(0, false, WriteData::Messages(vec![msg(b"wxyz")]));
    w.state = SocketWriteState::Finish(None);
    assert_eq!(w.run(&mut st, &vec![]), Outcome::Success(1));
    match &w.data {
        WriteData::Messages(ms) => assert_eq!(ms[0].buflen, 4),
        _ => panic!("expected messages"),
    }
    assert!(matches!(st.global.endpoints.get(1), Some(Endpoint::Sink)));
}

#[test]
fn datagrams_to_a_feedback_socket_are_fed_back_with_their_sender() {
    let mut st = state_for_backends();
    udp_pair(&mut st);
    st.global.endpoints.insert(1, Endpoint::Feedback(FeedbackQueue { sent: vec![] }));
    let mut w = SocketWriteEvent::new(0, false, WriteData::Slice(b"ping".to_vec()));
    assert_eq!(w.run(&mut st, &vec![]), Outcome::Yield(YieldUntil::Immediate));
    assert_eq!(w.run(&mut st, &vec![]), Outcome::Success(4));
    let m = SendMsg { addr_bytes: None, control: vec![5], bufs: vec![b"po".to_vec(), b"ng".to_vec()], buflen: 0 };
    let mut w = SocketWriteEvent::new(0, false, WriteData::Messages(vec![m]));
    w.state = SocketWriteState::Finish(None);
    assert_eq!(w.run(&mut st, &vec![]), Outcome::Success(1));
    match &w.data {
        WriteData::Messages(ms) => assert_eq!(ms[0].buflen, 0),
        _ => panic!("expected messages"),
    }
    match st.global.endpoints.get(1).unwrap() {
        Endpoint::Feedback(f) => {
            assert_eq!(f.sent.len(), 2);
            assert_eq!(f.sent[0].sender, 0);
            assert_eq!(f.sent[0].msg.data, b"ping".to_vec());
            assert_eq!(f.sent[0].msg.source, SockAddr::Ipv4 { addr: 0x7f00_0001, port: 5000 });
            assert_eq!(f.sent[1].msg.data, b"pong".to_vec());
            assert_eq!(f.sent[1].msg.ancillary, vec![5u8]);
        }
        _ => panic!("expected a feedback socket"),
    }
}

#[test]
fn connect_to_a_plugin_listener_gets_a_new_plugin_connection() {
    let mut st = state_for_backends();
    let t = tcp_listener(&mut st, ServerBackend::Plugin);
    let mut ev = SocketCreateEvent {
        domain: AddressFamily::Ipv4,
        socket_type: SocketType::Stream,
        protocol: TransportProtocol::Tcp,
        nonblocking: false,
        cloexec: false,
    };
    assert_eq!(ev.run(&mut st, 6), Outcome::Success(6));
    let mut c = SocketConnectEvent::new(6, SockAddr::Ipv4 { addr: 0x7f00_0001, port: 80 });
    let cands = vec![local_v4(50000, TransportProtocol::Tcp)];
    assert_eq!(c.run(&mut st, &cands), Outcome::Success(()));
    let s = *st.global.sockets.get(1).unwrap();
    assert_eq!(s.state, SocketState::Connected(ConnectedSocket { rem_addr: t, peer_closed: false }));
    assert!(plugin_of(&st, 1).read.recv.is_empty());
    assert!(plugin_of(&st, 1).write_buf.is_empty());
    assert!(st.global.servers.contains(0));
    // What is written goes to the plugin.
    let more = vec![local_v4(50000, TransportProtocol::Tcp), local_v4(50001, TransportProtocol::Tcp)];
    let mut w = SocketWriteEvent::new(1, false, WriteData::Slice(b"hi".to_vec()));
    assert_eq!(w.run(&mut st, &more), Outcome::Yield(YieldUntil::Immediate));
    let more = vec![local_v4(50002, TransportProtocol::Tcp)];
    assert_eq!(w.run(&mut st, &more), Outcome::Success(2));
    assert_eq!(plugin_of(&st, 1).write_buf, vec![b"hi".to_vec()]);
}

#[test]
fn accept_of_a_waiting_plugin_connection_keeps_its_plugin() {
    let mut st = state_for_backends();
    let t = tcp_listener(&mut st, ServerBackend::Peered);
    let mut ev = SocketCreateEvent {
        domain: AddressFamily::Ipv4,
        socket_type: SocketType::Stream,
        protocol: TransportProtocol::Tcp,
        nonblocking: false,
        cloexec: false,
    };
    assert_eq!(ev.run(&mut st, 6), Outcome::Success(6));
    let mut info = *st.global.sockets.get(1).unwrap();
    info.state = SocketState::PendingConnection(PendingSocket { rem_addr: t, backend: PendingBackend::Plugin });
    st.global.sockets.insert(1, info);
    st.global.socket_locations.push_pending(&t, 1);
    st.global.endpoints.insert(1, empty_plugin(4));

    let cands = vec![local_v4(47000, TransportProtocol::Tcp)];
    let mut a = SocketAcceptEvent::new(5, false, false);
    assert_eq!(a.run(&mut st, 7, &cands), Outcome::Yield(YieldUntil::Immediate));
    assert_eq!(a.state, SocketAcceptState::Finish(1, t));
    // Each run registers the waiting socket at the next free candidate.
    let cands = vec![local_v4(47000, TransportProtocol::Tcp), local_v4(47001, TransportProtocol::Tcp)];
    assert_eq!(a.run(&mut st, 7, &cands), Outcome::Success((7, SockAddr::Ipv4 { addr: 0x7f00_0001, port: 47001 })));
    let s = *st.global.sockets.get(1).unwrap();
    assert_eq!(s.local_transport(), Some(t));
    assert_eq!(s.state, SocketState::Connected(ConnectedSocket { rem_addr: cands[1], peer_closed: false }));
    assert_eq!(plugin_of(&st, 1).read.recv, vec![vec![4u8]]);
    assert_eq!(st.local.fds.get(7).unwrap().resource, FdResource::Socket(1));
    assert_eq!(st.global.next_socket_id, 2);
}

#[test]
fn connect_to_a_feedback_listener_makes_an_empty_feedback_connection() {
    let mut st = state_for_backends();
    let t = tcp_listener(&mut st, ServerBackend::Feedback);
    let mut ev = SocketCreateEvent {
        domain: AddressFamily::Ipv4,
        socket_type: SocketType::Stream,
        protocol: TransportProtocol::Tcp,
        nonblocking: false,
        cloexec: false,
    };
    assert_eq!(ev.run(&mut st, 6), Outcome::Success(6));
    let mut c = SocketConnectEvent::new(6, SockAddr::Ipv4 { addr: 0x7f00_0001, port: 80 });
    assert_eq!(c.run(&mut st, &vec![local_v4(50000, TransportProtocol::Tcp)]), Outcome::Success(()));
    let s = *st.global.sockets.get(1).unwrap();
    assert_eq!(s.state, SocketState::Connected(ConnectedSocket { rem_addr: t, peer_closed: false }));
    assert_eq!(st.global.sockets.get(0).unwrap().state, SocketState::Server);
    match st.global.endpoints.get(1).unwrap() {
        Endpoint::FeedbackStream(f) => {
            assert_eq!(*f, FeedbackStream { queued: 0, read_raised: false, write_raised: true })
        }
        _ => panic!("expected a feedback connection"),
    }
    // Nothing is queued to be read; the connection may be written to.
    let mut r = SocketReadEvent::new(1, true, ReadData::Slice(vec![0u8; 4]));
    assert_eq!(r.run(&mut st), Outcome::Error(Errno::EAGAIN));
    let mut w = SocketWriteEvent::new(1, true, WriteData::Slice(b"x".to_vec()));
    assert_eq!(w.run(&mut st, &vec![local_v4(50001, TransportProtocol::Tcp)]), Outcome::Yield(YieldUntil::Immediate));
    assert_eq!(w.state, SocketWriteState::Finish(None));
}

#[test]
fn accept_of_a_waiting_feedback_connection() {
    let mut st = state_for_backends();
    let t = tcp_listener(&mut st, ServerBackend::Peered);
    let mut ev = SocketCreateEvent {
        domain: AddressFamily::Ipv4,
        socket_type: SocketType::Stream,
        protocol: TransportProtocol::Tcp,
        nonblocking: false,
        cloexec: false,
    };
    assert_eq!(ev.run(&mut st, 6), Outcome::Success(6));
    let mut info = *st.global.sockets.get(1).unwrap();
    info.state = SocketState::PendingConnection(PendingSocket { rem_addr: t, backend: PendingBackend::Feedback });
    st.global.sockets.insert(1, info);
    st.global.socket_locations.push_pending(&t, 1);
    let mut a = SocketAcceptEvent::new(5, false, false);
    let cands = vec![local_v4(47000, TransportProtocol::Tcp), local_v4(47001, TransportProtocol::Tcp)];
    assert_eq!(a.run(&mut st, 9, &cands), Outcome::Yield(YieldUntil::Immediate));
    assert_eq!(a.run(&mut st, 9, &cands), Outcome::Success((9, SockAddr::Ipv4 { addr: 0x7f00_0001, port: 47001 })));
    match st.global.endpoints.get(1).unwrap() {
        Endpoint::FeedbackStream(f) => assert_eq!(f.queued, 0),
        _ => panic!("expected a feedback connection"),
    }
    assert_eq!(st.local.fds.get(9).unwrap().resource, FdResource::Socket(1));
}

#[test]
fn a_sender_without_a_datagram_queue_has_no_peer() {
    let mut st = state_for_backends();
    udp_pair(&mut st);
    st.global.endpoints.insert(0, Endpoint::Sink);
    // One buffer goes nowhere.
    let mut w = SocketWriteEvent::new(0, false, WriteData::Slice(b"lost".to_vec()));
    assert_eq!(w.run(&mut st, &vec![]), Outcome::Yield(YieldUntil::Immediate));
    assert_eq!(w.run(&mut st, &vec![]), Outcome::Success(4));
    match st.global.endpoints.get(1).unwrap() {
        Endpoint::Datagrams(q) => assert!(q.recv.is_empty()),
        _ => panic!("expected datagrams"),
    }
    // A message goes to the socket's destination all the same.
    let m = SendMsg { addr_bytes: None, control: vec![], bufs: vec![b"kept".to_vec()], buflen: 0 };
    let mut w = SocketWriteEvent::new(0, false, WriteData::Messages(vec![m]));
    w.state = SocketWriteState::Finish(None);
    assert_eq!(w.run(&mut st, &vec![]), Outcome::Success(1));
    match st.global.endpoints.get(1).unwrap() {
        Endpoint::Datagrams(q) => {
            assert_eq!(q.recv.len(), 1);
            assert_eq!(q.recv[0].data, b"kept".to_vec());
        }
        _ => panic!("expected datagrams"),
    }
}
