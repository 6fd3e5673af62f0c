use fizzle::conn::SocketCreatePairEvent;
use fizzle::errno::Errno;
use fizzle::scheduler::{Outcome, YieldUntil};
use fizzle::socket::{
    AddressFamily, ConnectedSocket, SockAddr, SocketState, SocketType, TransportAddress,
    TransportProtocol,
};
use fizzle::sockio::{
    Endpoint, PluginEndpoint, ReadData, RecvMsg, SocketReadEvent, SocketWriteEvent, StreamQueue,
    WriteData, MSG_NOTIFICATION,
};
use fizzle::state::FizzleState;

fn addr(port: u16, protocol: TransportProtocol) -> TransportAddress {
    TransportAddress { sockaddr: SockAddr::Ipv4 { addr: 0x7f00_0001, port }, protocol }
}

/// A connected pair whose first socket is then served by a plugin holding `chunks`.
fn plugin_socket(chunks: Vec<Vec<u8>>, writable: bool, protocol: TransportProtocol) -> FizzleState {
    let mut st = FizzleState::new(7, 40000, 40010, 4096, 2);
    let mut pair = SocketCreatePairEvent {
        domain: AddressFamily::Ipv4,
        socket_type: SocketType::Stream,
        protocol,
        nonblocking: false,
        cloexec: false,
    };
    assert_eq!(pair.run(&mut st, 3, 4, addr(5000, protocol), addr(5001, protocol)), Outcome::Success((3, 4)));
    let has = !chunks.is_empty();
    st.global.endpoints.insert(
        0,
        Endpoint::Plugin(PluginEndpoint {
            read: StreamQueue { peer: None, recv: chunks, read_idx: 0, read_raised: has, write_raised: writable },
            write_buf: vec![],
        }),
    );
    st
}

fn plugin(st: &FizzleState) -> &PluginEndpoint {
    match st.global.endpoints.get(0).unwrap() {
        Endpoint::Plugin(p) => p,
        _ => panic!("expected a plugin connection"),
    }
}

#[test]
fn plugin_connection_queues_writes_for_the_plugin() {
    let mut st = plugin_socket(vec![], false, TransportProtocol::Tcp);
    // The plugin takes no data yet: a nonblocking write fails.
    let mut nb = SocketWriteEvent::new(0, true, WriteData::Slice(b"ping".to_vec()));
    assert_eq!(nb.run(&mut st, &vec![]), Outcome::Error(Errno::EAGAIN));

    let mut st = plugin_socket(vec![], true, TransportProtocol::Tcp);
    let mut w = SocketWriteEvent::new(0, false, WriteData::Slice(b"ping".to_vec()));
    assert_eq!(w.run(&mut st, &vec![]), Outcome::Yield(YieldUntil::Immediate));
    assert_eq!(w.run(&mut st, &vec![]), Outcome::Success(4));
    let mut w = SocketWriteEvent::new(0, false, WriteData::Iovec(vec![b"a".to_vec(), b"bc".to_vec()]));
    assert_eq!(w.run(&mut st, &vec![]), Outcome::Yield(YieldUntil::Immediate));
    assert_eq!(w.run(&mut st, &vec![]), Outcome::Success(3));
    assert_eq!(plugin(&st).write_buf, vec![b"ping".to_vec(), b"abc".to_vec()]);
}

#[test]
fn plugin_connection_reads_what_the_plugin_handed_over() {
    let mut st = plugin_socket(vec![b"hello".to_vec()], true, TransportProtocol::Tcp);
    let mut r = SocketReadEvent::new(0, false, ReadData::Slice(vec![0u8; 4]));
    assert_eq!(r.run(&mut st), Outcome::Yield(YieldUntil::Immediate));
    assert_eq!(r.run(&mut st), Outcome::Success(4));
    match &r.data {
        ReadData::Slice(s) => assert_eq!(s, b"hell"),
        _ => panic!("expected one buffer"),
    }
    assert_eq!(plugin(&st).read.read_idx, 4);
    let mut r = SocketReadEvent::new(0, false, ReadData::Slice(vec![0u8; 4]));
    assert_eq!(r.run(&mut st), Outcome::Yield(YieldUntil::Immediate));
    assert_eq!(r.run(&mut st), Outcome::Success(1));
    // Nothing is left and the peer is open: the connection stops showing as readable.
    assert!(plugin(&st).read.recv.is_empty());
    assert!(!plugin(&st).read.read_raised);
}

#[test]
fn closed_sctp_plugin_peer_reads_a_shutdown_notice() {
    let mut st = plugin_socket(vec![], true, TransportProtocol::Sctp);
    let mut info = *st.global.sockets.get(0).unwrap();
    info.state = SocketState::Connected(ConnectedSocket { rem_addr: addr(5001, TransportProtocol::Sctp), peer_closed: true });
    st.global.sockets.insert(0, info);
    let m = || RecvMsg {
        addr_bytes: vec![0u8; 16],
        addrlen: 0,
        control: vec![0u8; 4],
        control_len: 4,
        bufs: vec![vec![0u8; 16]],
        buflen: 0,
        flags: 0,
    };
    let mut r = SocketReadEvent::new(0, false, ReadData::Messages(vec![m(), m()]));
    r.state = fizzle::sockio::SocketReadState::Finish(None);
    assert_eq!(r.run(&mut st), Outcome::Success(1));
    match &r.data {
        ReadData::Messages(ms) => {
            assert_eq!(ms[0].flags, MSG_NOTIFICATION);
            assert_eq!(ms[0].buflen, 12);
            assert_eq!(ms[0].control_len, 0);
            assert_eq!(ms[0].addrlen, 16);
            assert_eq!(ms[0].bufs[0][..2], 0x8005u16.to_ne_bytes());
            assert_eq!(ms[0].bufs[0][2..12], [0u8; 10]);
            assert_eq!(ms[1].flags, 0);
        }
        _ => panic!("expected messages"),
    }
}
