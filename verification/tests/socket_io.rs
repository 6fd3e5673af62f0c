use fizzle::conn::{
    SocketAcceptEvent, SocketAcceptState, SocketConnectEvent, SocketConnectState,
    SocketCreatePairEvent,
};
use fizzle::errno::Errno;
use fizzle::scheduler::{Outcome, YieldUntil};
use fizzle::socket::{
    AddressFamily, SockAddr, SocketBindEvent, SocketCreateEvent, SocketListenEvent, SocketType,
    TransportAddress, TransportProtocol,
};
use fizzle::sockio::{
    Endpoint, FuzzEndpoint, ReadData, RecvMsg, SendMsg, SocketReadEvent, SocketReadState,
    SocketWriteEvent, SocketWriteState, StreamQueue, WriteData, MSG_EOR,
};
use fizzle::state::{FizzleState, Polled};

fn fresh() -> FizzleState {
    FizzleState::new(7, 40000, 40010, 4096, 2)
}

fn v4(port: u16) -> SockAddr {
    SockAddr::Ipv4 { addr: 0x7f00_0001, port }
}

fn udp(port: u16) -> TransportAddress {
    TransportAddress { sockaddr: v4(port), protocol: TransportProtocol::Udp }
}

fn socket(st: &mut FizzleState, fd: i32, socket_type: SocketType, protocol: TransportProtocol) {
    let mut ev = SocketCreateEvent {
        domain: AddressFamily::Ipv4,
        socket_type,
        protocol,
        nonblocking: false,
        cloexec: false,
    };
    assert_eq!(ev.run(st, fd), Outcome::Success(fd));
}

fn bind(st: &mut FizzleState, fd: i32, port: u16) {
    let mut ev = SocketBindEvent::with_addr(fd, Some(v4(port)));
    assert_eq!(ev.run(st, 0, Errno::SUCCESS), Outcome::Success(()));
}

fn datagram_pair(st: &mut FizzleState) {
    let mut pair = SocketCreatePairEvent {
        domain: AddressFamily::Ipv4,
        socket_type: SocketType::Datagram,
        protocol: TransportProtocol::Udp,
        nonblocking: false,
        cloexec: false,
    };
    assert_eq!(pair.run(st, 3, 4, udp(5000), udp(5001)), Outcome::Success((3, 4)));
}

#[test]
fn datagram_pair_carries_a_datagram() {
    let mut st = fresh();
    datagram_pair(&mut st);

    let mut w = SocketWriteEvent::new(0, false, WriteData::Slice(b"hello".to_vec()));
    assert_eq!(w.run(&mut st, &vec![]), Outcome::Yield(YieldUntil::Immediate));
    assert_eq!(w.state, SocketWriteState::Finish(None));
    assert_eq!(w.run(&mut st, &vec![]), Outcome::Success(5));

    // A write does not mark the receiver readable: a nonblocking read waits.
    let mut nb = SocketReadEvent::new(1, true, ReadData::Slice(vec![0u8; 5]));
    assert_eq!(nb.run(&mut st), Outcome::Error(Errno::EAGAIN));

    let mut r = SocketReadEvent::new(1, false, ReadData::Slice(vec![0u8; 5]));
    assert_eq!(r.run(&mut st), Outcome::Yield(YieldUntil::Indefinite));
    assert_eq!(r.state, SocketReadState::Finish(Some(0)));
    assert_eq!(*st.global.pollers.get(0).unwrap(), Polled::SocketRead(1));
    assert_eq!(r.run(&mut st), Outcome::Success(5));
    assert!(!st.global.pollers.contains(0));
    match &r.data {
        ReadData::Slice(s) => assert_eq!(s, b"hello"),
        _ => panic!("expected one buffer"),
    }
}

#[test]
fn datagram_messages_in_order() {
    let mut st = fresh();
    datagram_pair(&mut st);

    let msg = |data: &[u8]| SendMsg {
        addr_bytes: None,
        control: vec![9],
        bufs: vec![data[..1].to_vec(), data[1..].to_vec()],
        buflen: 0,
    };
    let mut w = SocketWriteEvent::new(0, false, WriteData::Messages(vec![msg(b"one"), msg(b"two")]));
    w.state = SocketWriteState::Finish(None);
    assert_eq!(w.run(&mut st, &vec![]), Outcome::Success(2));

    let recv = |cap: usize| RecvMsg {
        addr_bytes: vec![0u8; 16],
        addrlen: 0,
        control: vec![0u8; 4],
        control_len: 4,
        bufs: vec![vec![0u8; cap]],
        buflen: 0,
        flags: 0,
    };
    let mut r = SocketReadEvent::new(1, false, ReadData::Messages(vec![recv(8), recv(2), recv(8)]));
    r.state = SocketReadState::Finish(None);
    assert_eq!(r.run(&mut st), Outcome::Success(2));
    let ms = match r.data {
        ReadData::Messages(ms) => ms,
        _ => panic!("expected messages"),
    };
    let mut source = 2u16.to_ne_bytes().to_vec();
    source.extend_from_slice(&5000u16.to_be_bytes());
    source.extend_from_slice(&0x7f00_0001u32.to_be_bytes());
    source.extend_from_slice(&[0u8; 8]);

    assert_eq!(ms[0].addr_bytes, source);
    assert_eq!(ms[0].addrlen, 16);
    assert_eq!(ms[0].bufs[0], b"one\0\0\0\0\0".to_vec());
    assert_eq!(ms[0].buflen, 3);
    assert_eq!(ms[0].control, vec![9, 0, 0, 0]);
    assert_eq!(ms[0].control_len, 1);
    assert_eq!(ms[0].flags, MSG_EOR);
    // The second datagram does not fit its buffer.
    assert_eq!(ms[1].bufs[0], b"tw".to_vec());
    assert_eq!(ms[1].buflen, 2);
    assert_eq!(ms[1].flags, MSG_EOR | 0x20);
    // Nothing was left for the third buffer.
    assert_eq!(ms[2].buflen, 0);
    assert_eq!(ms[2].flags, 0);
}

#[test]
fn sending_without_a_destination() {
    let mut st = fresh();
    socket(&mut st, 3, SocketType::Datagram, TransportProtocol::Udp);
    bind(&mut st, 3, 6000);
    let m = SendMsg { addr_bytes: None, control: vec![], bufs: vec![b"x".to_vec()], buflen: 0 };
    let mut w = SocketWriteEvent::new(0, false, WriteData::Messages(vec![m]));
    w.state = SocketWriteState::Finish(None);
    assert_eq!(w.run(&mut st, &vec![]), Outcome::Error(Errno::ENOTCONN));

    // A datagram to an address nothing is bound at is dropped and counts as sent.
    let mut to = 2u16.to_ne_bytes().to_vec();
    to.extend_from_slice(&7000u16.to_be_bytes());
    to.extend_from_slice(&0x7f00_0001u32.to_be_bytes());
    to.extend_from_slice(&[0u8; 8]);
    let m = SendMsg { addr_bytes: Some(to), control: vec![], bufs: vec![b"abc".to_vec()], buflen: 0 };
    let mut w = SocketWriteEvent::new(0, false, WriteData::Messages(vec![m]));
    w.state = SocketWriteState::Finish(None);
    assert_eq!(w.run(&mut st, &vec![]), Outcome::Success(1));
    match &w.data {
        WriteData::Messages(ms) => assert_eq!(ms[0].buflen, 3),
        _ => panic!("expected messages"),
    }

    // A positioned write is refused.
    let mut w = SocketWriteEvent::new(0, false, WriteData::File);
    w.state = SocketWriteState::Finish(None);
    assert_eq!(w.run(&mut st, &vec![]), Outcome::Error(Errno::ESPIPE));
}

#[test]
fn listen_connect_accept() {
    let mut st = fresh();
    socket(&mut st, 5, SocketType::Stream, TransportProtocol::Tcp);
    bind(&mut st, 5, 80);
    assert_eq!(SocketListenEvent::new(5, 8).run(&mut st, &vec![]), Outcome::Success(()));

    socket(&mut st, 6, SocketType::Stream, TransportProtocol::Tcp);
    bind(&mut st, 6, 1234);
    let mut c = SocketConnectEvent::new(6, v4(80));
    assert_eq!(c.run(&mut st, &vec![]), Outcome::Yield(YieldUntil::Indefinite));
    assert_eq!(c.state, SocketConnectState::Finish(0));
    assert_eq!(st.global.servers.get(0).unwrap().connecting, vec![1]);
    assert!(st.global.servers.get(0).unwrap().ready);

    let mut a = SocketAcceptEvent::new(5, false, true);
    assert_eq!(a.run(&mut st, 7, &vec![]), Outcome::Yield(YieldUntil::Immediate));
    let server_addr = TransportAddress { sockaddr: v4(80), protocol: TransportProtocol::Tcp };
    assert_eq!(a.state, SocketAcceptState::Finish(1, server_addr));
    assert!(!st.global.servers.get(0).unwrap().ready);
    assert_eq!(a.run(&mut st, 7, &vec![]), Outcome::Success((7, v4(1234))));
    assert_eq!(c.run(&mut st, &vec![]), Outcome::Success(()));

    // The client and the new socket are each other's peers.
    match st.global.endpoints.get(1).unwrap() {
        Endpoint::Stream(q) => assert_eq!(q.peer, Some(2)),
        _ => panic!("expected a stream"),
    }
    match st.global.endpoints.get(2).unwrap() {
        Endpoint::Stream(q) => assert_eq!(q.peer, Some(1)),
        _ => panic!("expected a stream"),
    }
    let fd = st.local.fds.get(7).unwrap();
    assert!(fd.close_on_exec);

    // A second connect on the connected socket fails; so does one on the listener.
    assert_eq!(SocketConnectEvent::new(6, v4(80)).run(&mut st, &vec![]), Outcome::Error(Errno::EISCONN));
    assert_eq!(SocketConnectEvent::new(5, v4(80)).run(&mut st, &vec![]), Outcome::Error(Errno::EINVAL));

    // Writing queues the bytes at the peer and marks it readable.
    let mut w = SocketWriteEvent::new(1, false, WriteData::Slice(b"ping".to_vec()));
    assert_eq!(w.run(&mut st, &vec![]), Outcome::Yield(YieldUntil::Immediate));
    assert_eq!(w.run(&mut st, &vec![]), Outcome::Success(4));
    let mut w = SocketWriteEvent::new(1, false, WriteData::Iovec(vec![b"po".to_vec(), b"ng".to_vec()]));
    assert_eq!(w.run(&mut st, &vec![]), Outcome::Yield(YieldUntil::Immediate));
    assert_eq!(w.run(&mut st, &vec![]), Outcome::Success(4));
    match st.global.endpoints.get(2).unwrap() {
        Endpoint::Stream(q) => {
            assert!(q.read_raised);
            assert_eq!(q.recv, vec![b"ping".to_vec(), b"pong".to_vec()]);
        }
        _ => panic!("expected a stream"),
    }

    // The peer reads what was written, in order.
    let mut r = SocketReadEvent::new(2, true, ReadData::Slice(vec![0u8; 4]));
    assert_eq!(r.run(&mut st), Outcome::Yield(YieldUntil::Immediate));
    assert_eq!(r.run(&mut st), Outcome::Success(4));
    match &r.data {
        ReadData::Slice(s) => assert_eq!(s, b"ping"),
        _ => panic!("expected one buffer"),
    }
    let mut r = SocketReadEvent::new(2, true, ReadData::Slice(vec![0u8; 4]));
    assert_eq!(r.run(&mut st), Outcome::Yield(YieldUntil::Immediate));
    assert_eq!(r.run(&mut st), Outcome::Success(4));
    match &r.data {
        ReadData::Slice(s) => assert_eq!(s, b"pong"),
        _ => panic!("expected one buffer"),
    }

    // Nothing is left at the peer, so it stops showing as readable.
    let mut r = SocketReadEvent::new(2, true, ReadData::Slice(vec![0u8; 4]));
    assert_eq!(r.run(&mut st), Outcome::Error(Errno::EAGAIN));
    match st.global.endpoints.get(2).unwrap() {
        Endpoint::Stream(q) => assert!(!q.read_raised),
        _ => panic!("expected a stream"),
    }
}

#[test]
fn accept_waits_when_nothing_is_queued() {
    let mut st = fresh();
    socket(&mut st, 5, SocketType::Stream, TransportProtocol::Tcp);
    bind(&mut st, 5, 80);
    assert_eq!(SocketListenEvent::new(5, 8).run(&mut st, &vec![]), Outcome::Success(()));
    let mut a = SocketAcceptEvent::new(5, false, false);
    assert_eq!(a.run(&mut st, 9, &vec![]), Outcome::Yield(YieldUntil::Indefinite));
    assert_eq!(a.state, SocketAcceptState::Blocked(0));
    assert_eq!(*st.global.pollers.get(0).unwrap(), Polled::SocketAccept(0));
    let mut nb = SocketAcceptEvent::new(5, true, false);
    // The descriptor itself is blocking, so this one waits too.
    assert_eq!(nb.run(&mut st, 9, &vec![]), Outcome::Yield(YieldUntil::Indefinite));
    assert!(nb.nonblock);
}

#[test]
fn connect_errors_and_datagram_destinations() {
    let mut st = fresh();
    socket(&mut st, 5, SocketType::Stream, TransportProtocol::Tcp);
    bind(&mut st, 5, 1234);
    assert_eq!(SocketConnectEvent::new(5, v4(81)).run(&mut st, &vec![]), Outcome::Error(Errno::ECONNREFUSED));
    assert_eq!(SocketConnectEvent::new(8, v4(81)).run(&mut st, &vec![]), Outcome::Error(Errno::EBADF));

    socket(&mut st, 6, SocketType::Datagram, TransportProtocol::Udp);
    bind(&mut st, 6, 53);
    assert_eq!(SocketConnectEvent::new(6, v4(9999)).run(&mut st, &vec![]), Outcome::Success(()));
    match st.global.sockets.get(1).unwrap().state {
        fizzle::socket::SocketState::Connectionless(c) => assert_eq!(c.rem_addr, Some(udp(9999))),
        _ => panic!("expected a connectionless socket"),
    }

    // A full queue aborts the connection.
    socket(&mut st, 7, SocketType::Stream, TransportProtocol::Tcp);
    bind(&mut st, 7, 80);
    assert_eq!(SocketListenEvent::new(7, 8).run(&mut st, &vec![]), Outcome::Success(()));
    for (fd, port) in [(10, 2000u16), (11, 2001), (12, 2002)] {
        socket(&mut st, fd, SocketType::Stream, TransportProtocol::Tcp);
        bind(&mut st, fd, port);
    }
    let mut c1 = SocketConnectEvent::new(10, v4(80));
    assert_eq!(c1.run(&mut st, &vec![]), Outcome::Yield(YieldUntil::Indefinite));
    let mut c2 = SocketConnectEvent::new(11, v4(80));
    assert_eq!(c2.run(&mut st, &vec![]), Outcome::Yield(YieldUntil::Indefinite));
    assert_eq!(SocketConnectEvent::new(12, v4(80)).run(&mut st, &vec![]), Outcome::Error(Errno::ECONNABORTED));
}

#[test]
fn stream_reads_take_chunks_in_order() {
    let mut st = fresh();
    let mut pair = SocketCreatePairEvent {
        domain: AddressFamily::Ipv4,
        socket_type: SocketType::Stream,
        protocol: TransportProtocol::Tcp,
        nonblocking: false,
        cloexec: false,
    };
    let a1 = TransportAddress { sockaddr: v4(5000), protocol: TransportProtocol::Tcp };
    let a2 = TransportAddress { sockaddr: v4(5001), protocol: TransportProtocol::Tcp };
    assert_eq!(pair.run(&mut st, 3, 4, a1, a2), Outcome::Success((3, 4)));
    st.global.endpoints.insert(
        1,
        Endpoint::Stream(StreamQueue {
            peer: Some(0),
            recv: vec![b"abcdef".to_vec(), b"gh".to_vec()],
            read_idx: 0,
            read_raised: true,
            write_raised: true,
        }),
    );
    let mut r = SocketReadEvent::new(1, false, ReadData::Slice(vec![0u8; 4]));
    assert_eq!(r.run(&mut st), Outcome::Yield(YieldUntil::Immediate));
    assert_eq!(r.run(&mut st), Outcome::Success(4));
    match &r.data {
        ReadData::Slice(s) => assert_eq!(s, b"abcd"),
        _ => panic!("expected one buffer"),
    }
    // A read takes from one chunk only.
    let mut r = SocketReadEvent::new(1, false, ReadData::Iovec(vec![vec![0u8; 1], vec![7u8; 3]]));
    r.state = SocketReadState::Finish(None);
    assert_eq!(r.run(&mut st), Outcome::Success(2));
    match &r.data {
        ReadData::Iovec(v) => assert_eq!(v, &vec![b"e".to_vec(), vec![b'f', 7, 7]]),
        _ => panic!("expected buffers"),
    }
    let mut r = SocketReadEvent::new(1, false, ReadData::Slice(vec![1u8; 5]));
    r.state = SocketReadState::Finish(None);
    assert_eq!(r.run(&mut st), Outcome::Success(2));
    match &r.data {
        ReadData::Slice(s) => assert_eq!(s, &vec![b'g', b'h', 1, 1, 1]),
        _ => panic!("expected one buffer"),
    }
    // All read and the peer still open: no longer readable.
    match st.global.endpoints.get(1).unwrap() {
        Endpoint::Stream(q) => {
            assert!(q.recv.is_empty());
            assert!(!q.read_raised);
        }
        _ => panic!("expected a stream"),
    }
}

#[test]
fn zero_and_fuzz_connections() {
    let mut st = fresh();
    let mut pair = SocketCreatePairEvent {
        domain: AddressFamily::Ipv4,
        socket_type: SocketType::Stream,
        protocol: TransportProtocol::Tcp,
        nonblocking: false,
        cloexec: false,
    };
    let a1 = TransportAddress { sockaddr: v4(5000), protocol: TransportProtocol::Tcp };
    let a2 = TransportAddress { sockaddr: v4(5001), protocol: TransportProtocol::Tcp };
    assert_eq!(pair.run(&mut st, 3, 4, a1, a2), Outcome::Success((3, 4)));

    st.global.endpoints.insert(0, Endpoint::NullSink);
    let mut r = SocketReadEvent::new(0, false, ReadData::Iovec(vec![vec![5u8; 2], vec![6u8; 3]]));
    assert_eq!(r.run(&mut st), Outcome::Yield(YieldUntil::Immediate));
    assert_eq!(r.run(&mut st), Outcome::Success(5));
    match &r.data {
        ReadData::Iovec(v) => assert_eq!(v, &vec![vec![0u8; 2], vec![0u8; 3]]),
        _ => panic!("expected buffers"),
    }
    let mut w = SocketWriteEvent::new(0, false, WriteData::Slice(b"dropped".to_vec()));
    assert_eq!(w.run(&mut st, &vec![]), Outcome::Yield(YieldUntil::Immediate));
    assert_eq!(w.run(&mut st, &vec![]), Outcome::Success(7));

    st.global.fuzz_input = b"0123456789".to_vec();
    st.global.endpoints.insert(1, Endpoint::Fuzz(FuzzEndpoint { read_idx: 2, read_raised: true }));
    let mut r = SocketReadEvent::new(1, false, ReadData::Slice(vec![0u8; 3]));
    assert_eq!(r.run(&mut st), Outcome::Yield(YieldUntil::Immediate));
    assert_eq!(r.run(&mut st), Outcome::Success(3));
    match &r.data {
        ReadData::Slice(s) => assert_eq!(s, b"234"),
        _ => panic!("expected one buffer"),
    }
    let mut r = SocketReadEvent::new(1, false, ReadData::Slice(vec![0u8; 5]));
    r.state = SocketReadState::Finish(None);
    assert_eq!(r.run(&mut st), Outcome::Success(5));
    match &r.data {
        ReadData::Slice(s) => assert_eq!(s, b"56789"),
        _ => panic!("expected one buffer"),
    }
    // The input is used up: the connection no longer shows as readable.
    match st.global.endpoints.get(1).unwrap() {
        Endpoint::Fuzz(f) => {
            assert_eq!(f.read_idx, 10);
            assert!(!f.read_raised);
        }
        _ => panic!("expected a fuzzing connection"),
    }
    let mut r = SocketReadEvent::new(1, true, ReadData::Slice(vec![0u8; 1]));
    assert_eq!(r.run(&mut st), Outcome::Error(Errno::EAGAIN));
}

#[test]
fn a_longer_buffer_takes_the_whole_datagram() {
    let mut st = fresh();
    datagram_pair(&mut st);
    let mut w = SocketWriteEvent::new(0, false, WriteData::Slice(b"abc".to_vec()));
    w.state = SocketWriteState::Finish(None);
    assert_eq!(w.run(&mut st, &vec![]), Outcome::Success(3));
    let mut r = SocketReadEvent::new(1, false, ReadData::Slice(vec![7u8; 5]));
    r.state = SocketReadState::Finish(None);
    assert_eq!(r.run(&mut st), Outcome::Success(3));
    match &r.data {
        ReadData::Slice(s) => assert_eq!(s, &vec![b'a', b'b', b'c', 7, 7]),
        _ => panic!("expected one buffer"),
    }
    // A shorter buffer takes the start of the next one; the rest is dropped with it.
    let mut w = SocketWriteEvent::new(0, false, WriteData::Slice(b"defgh".to_vec()));
    w.state = SocketWriteState::Finish(None);
    assert_eq!(w.run(&mut st, &vec![]), Outcome::Success(5));
    let mut r = SocketReadEvent::new(1, false, ReadData::Slice(vec![0u8; 2]));
    r.state = SocketReadState::Finish(None);
    assert_eq!(r.run(&mut st), Outcome::Success(2));
    match st.global.endpoints.get(1).unwrap() {
        Endpoint::Datagrams(q) => assert!(q.recv.is_empty()),
        _ => panic!("expected datagrams"),
    }
}

#[test]
fn accept_on_a_socket_that_is_not_listening() {
    let mut st = fresh();
    socket(&mut st, 5, SocketType::Stream, TransportProtocol::Tcp);
    let mut a = SocketAcceptEvent::new(5, false, false);
    assert_eq!(a.run(&mut st, 9, &vec![]), Outcome::Error(Errno::EINVAL));
}

#[test]
fn stream_pair_carries_bytes_both_ways() {
    let mut st = fresh();
    let mut pair = SocketCreatePairEvent {
        domain: AddressFamily::Ipv4,
        socket_type: SocketType::Stream,
        protocol: TransportProtocol::Tcp,
        nonblocking: false,
        cloexec: false,
    };
    let t = |port: u16| TransportAddress { sockaddr: v4(port), protocol: TransportProtocol::Tcp };
    assert_eq!(pair.run(&mut st, 3, 4, t(5000), t(5001)), Outcome::Success((3, 4)));
    for (from, to) in [(0i64, 1i64), (1, 0)] {
        let mut w = SocketWriteEvent::new(from, true, WriteData::Slice(b"hey".to_vec()));
        assert_eq!(w.run(&mut st, &vec![]), Outcome::Yield(YieldUntil::Immediate));
        assert_eq!(w.run(&mut st, &vec![]), Outcome::Success(3));
        let mut r = SocketReadEvent::new(to, true, ReadData::Slice(vec![0u8; 3]));
        assert_eq!(r.run(&mut st), Outcome::Yield(YieldUntil::Immediate));
        assert_eq!(r.run(&mut st), Outcome::Success(3));
        match &r.data {
            ReadData::Slice(s) => assert_eq!(s, b"hey"),
            _ => panic!("expected one buffer"),
        }
    }
}

#[test]
fn connectionless_destinations_take_turns() {
    let mut st = fresh();
    // Two receivers share port 7000; the sender's destination is that address.
    for fd in [3, 4] {
        socket(&mut st, fd, SocketType::Datagram, TransportProtocol::Udp);
        let mut set = fizzle::socket::SocketSetOptionEvent::new(fd, fizzle::socket::SocketOption::SocketReusePort(true));
        assert_eq!(set.run(&mut st, &vec![]), Outcome::Success(()));
        bind(&mut st, fd, 7000);
    }
    socket(&mut st, 5, SocketType::Datagram, TransportProtocol::Udp);
    bind(&mut st, 5, 7001);
    assert_eq!(SocketConnectEvent::new(5, v4(7000)).run(&mut st, &vec![]), Outcome::Success(()));
    for _ in 0..3 {
        let mut w = SocketWriteEvent::new(2, false, WriteData::Slice(b"x".to_vec()));
        w.state = SocketWriteState::Finish(None);
        assert_eq!(w.run(&mut st, &vec![]), Outcome::Success(1));
    }
    let queued = |st: &FizzleState, id: i128| match st.global.endpoints.get(id).unwrap() {
        Endpoint::Datagrams(q) => q.recv.len(),
        _ => panic!("expected datagrams"),
    };
    assert_eq!((queued(&st, 0), queued(&st, 1)), (2, 1));
    assert_eq!(st.global.socket_locations.lookup(&udp(7000)), Some((true, false)));
}
