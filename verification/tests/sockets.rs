use fizzle::errno::Errno;
use fizzle::scheduler::Outcome;
use fizzle::socket::{
    AddressFamily, NetlinkCreateEvent, OptInput, OptLevel, SockAddr, SocketBindEvent,
    SocketCreateEvent, SocketGetNameEvent, SocketGetOptionEvent, SocketGetPeerNameEvent,
    SocketListenEvent, SocketOption, SocketSetOptionEvent, SocketType, TransportProtocol,
    IPV6_V6ONLY, IP_OPTIONS, SO_ACCEPTCONN, SO_DEBUG, SO_DOMAIN, SO_RCVBUF, SO_REUSEPORT,
    SO_TYPE, TCP_MAXSEG, TCP_USER_TIMEOUT,
};
use fizzle::state::FizzleState;
use fizzle::conn::SocketConnectEvent;
use fizzle::socket::TransportAddress;

fn fresh() -> FizzleState {
    FizzleState::new(7, 40000, 40010, 4096, 2)
}

fn tcp_socket(st: &mut FizzleState, fd: i32) {
    let mut ev = SocketCreateEvent {
        domain: AddressFamily::Ipv4,
        socket_type: SocketType::Stream,
        protocol: TransportProtocol::Tcp,
        nonblocking: false,
        cloexec: false,
    };
    assert_eq!(ev.run(st, fd), Outcome::Success(fd));
}

fn get(st: &mut FizzleState, fd: i32, level: OptLevel, name: i32) -> Outcome<SocketOption, Errno> {
    SocketGetOptionEvent::new(fd, level, name, OptInput::Nothing).run(st, &vec![])
}

/// `sockaddr_in` bytes laid out by hand: family in the machine's order, port and
/// address most significant byte first, eight zero bytes.
fn sockaddr_in(addr: u32, port: u16) -> Vec<u8> {
    let mut v = 2u16.to_ne_bytes().to_vec();
    v.extend_from_slice(&port.to_be_bytes());
    v.extend_from_slice(&addr.to_be_bytes());
    v.extend_from_slice(&[0u8; 8]);
    v
}

#[test]
fn created_socket_answers_options() {
    let mut st = fresh();
    tcp_socket(&mut st, 5);
    assert!(matches!(get(&mut st, 5, OptLevel::Socket, SO_TYPE), Outcome::Success(SocketOption::SocketType(SocketType::Stream))));
    assert!(matches!(
        get(&mut st, 5, OptLevel::Socket, SO_DOMAIN),
        Outcome::Success(SocketOption::SocketDomain(AddressFamily::Ipv4))
    ));
    assert!(matches!(get(&mut st, 5, OptLevel::Socket, SO_RCVBUF), Outcome::Success(SocketOption::SocketRecvBuffer(4096))));
    assert!(matches!(get(&mut st, 5, OptLevel::Socket, SO_ACCEPTCONN), Outcome::Success(SocketOption::SocketIsListening(false))));
    assert!(matches!(get(&mut st, 5, OptLevel::Socket, SO_DEBUG), Outcome::Error(Errno::EINVAL)));
    assert!(matches!(get(&mut st, 5, OptLevel::Tcp, TCP_MAXSEG), Outcome::Success(SocketOption::TcpMss(1220))));
    match get(&mut st, 5, OptLevel::Ip, IP_OPTIONS) {
        Outcome::Success(SocketOption::IpOptions(v)) => assert!(v.is_empty()),
        _ => panic!("expected empty IP options"),
    }
    assert!(matches!(get(&mut st, 5, OptLevel::Ipv6, IPV6_V6ONLY), Outcome::Error(Errno::ENOPROTOOPT)));
    assert!(matches!(get(&mut st, 5, OptLevel::Sctp, 3), Outcome::Error(Errno::ENOPROTOOPT)));
    assert!(matches!(get(&mut st, 6, OptLevel::Socket, SO_TYPE), Outcome::Error(Errno::EBADF)));
}

#[test]
fn options_read_back_what_was_set() {
    let mut st = fresh();
    tcp_socket(&mut st, 5);
    assert!(matches!(get(&mut st, 5, OptLevel::Socket, SO_REUSEPORT), Outcome::Success(SocketOption::SocketReusePort(false))));
    let mut set = SocketSetOptionEvent::new(5, SocketOption::SocketReusePort(true));
    assert_eq!(set.run(&mut st, &vec![]), Outcome::Success(()));
    assert!(matches!(get(&mut st, 5, OptLevel::Socket, SO_REUSEPORT), Outcome::Success(SocketOption::SocketReusePort(true))));

    let mut set = SocketSetOptionEvent::new(5, SocketOption::TcpUserTimeout(5_000_000_000));
    assert_eq!(set.run(&mut st, &vec![]), Outcome::Success(()));
    assert!(matches!(
        get(&mut st, 5, OptLevel::Tcp, TCP_USER_TIMEOUT),
        Outcome::Success(SocketOption::TcpUserTimeout(5_000_000_000))
    ));
    let mut set = SocketSetOptionEvent::new(5, SocketOption::TcpUserTimeout(0));
    assert_eq!(set.run(&mut st, &vec![]), Outcome::Success(()));
    assert!(matches!(get(&mut st, 5, OptLevel::Tcp, TCP_USER_TIMEOUT), Outcome::Success(SocketOption::TcpUserTimeout(0))));

    let mut set = SocketSetOptionEvent::new(5, SocketOption::SocketType(SocketType::Datagram));
    assert_eq!(set.run(&mut st, &vec![]), Outcome::Error(Errno::ENOPROTOOPT));
    let mut set = SocketSetOptionEvent::new(5, SocketOption::TcpNoDelay(true));
    assert_eq!(set.run(&mut st, &vec![]), Outcome::Success(()));
    let mut set = SocketSetOptionEvent::new(9, SocketOption::TcpNoDelay(true));
    assert_eq!(set.run(&mut st, &vec![]), Outcome::Error(Errno::EBADF));
}

#[test]
fn user_timeout_needs_tcp() {
    let mut st = fresh();
    let mut ev = SocketCreateEvent {
        domain: AddressFamily::Ipv4,
        socket_type: SocketType::Datagram,
        protocol: TransportProtocol::Udp,
        nonblocking: true,
        cloexec: true,
    };
    assert_eq!(ev.run(&mut st, 4), Outcome::Success(4));
    let mut set = SocketSetOptionEvent::new(4, SocketOption::TcpUserTimeout(1_000_000));
    assert_eq!(set.run(&mut st, &vec![]), Outcome::Error(Errno::ENOPROTOOPT));
}

#[test]
fn bind_listen_and_names() {
    let mut st = fresh();
    tcp_socket(&mut st, 5);
    tcp_socket(&mut st, 6);

    // An unbound socket reports its family alone, most significant byte first.
    let mut name = SocketGetNameEvent::new(5, vec![0xffu8; 8]);
    assert_eq!(name.run(&st, 0, 0, Errno::SUCCESS), Outcome::Success(2));
    assert_eq!(name.addr_bytes, vec![0, 2, 0, 0, 0, 0, 0, 0]);

    let bytes = sockaddr_in(0x7f00_0001, 8080);
    let mut bind = SocketBindEvent::new(5, &bytes);
    assert_eq!(bind.addr, Some(SockAddr::Ipv4 { addr: 0x7f00_0001, port: 8080 }));
    assert_eq!(bind.run(&mut st, 0, Errno::SUCCESS), Outcome::Success(()));

    // The same address is taken for a second socket that does not share the port.
    let mut bind2 = SocketBindEvent::new(6, &bytes);
    assert_eq!(bind2.run(&mut st, 0, Errno::SUCCESS), Outcome::Error(Errno::EADDRINUSE));
    // A bound socket cannot be bound again.
    let mut again = SocketBindEvent::new(5, &sockaddr_in(0x7f00_0001, 9090));
    assert_eq!(again.run(&mut st, 0, Errno::SUCCESS), Outcome::Error(Errno::EINVAL));
    // Undecodable bytes are refused.
    let mut bad = SocketBindEvent::new(6, &[1u8, 2, 3]);
    assert_eq!(bad.run(&mut st, 0, Errno::SUCCESS), Outcome::Error(Errno::EINVAL));
    // Port 0 takes the next ephemeral port.
    let mut eph = SocketBindEvent::new(6, &sockaddr_in(0x7f00_0001, 0));
    assert_eq!(eph.run(&mut st, 0, Errno::SUCCESS), Outcome::Success(()));
    assert_eq!(st.global.next_ephemeral_port, 40001);
    let mut name6 = SocketGetNameEvent::new(6, vec![0u8; 16]);
    assert_eq!(name6.run(&st, 0, 0, Errno::SUCCESS), Outcome::Success(16));
    assert_eq!(name6.addr_bytes, sockaddr_in(0x7f00_0001, 40000));

    let mut name = SocketGetNameEvent::new(5, vec![0u8; 16]);
    assert_eq!(name.run(&st, 0, 0, Errno::SUCCESS), Outcome::Success(16));
    assert_eq!(name.addr_bytes, bytes);
    // A short buffer takes what fits; the full length is still reported.
    let mut short = SocketGetNameEvent::new(5, vec![0u8; 4]);
    assert_eq!(short.run(&st, 0, 0, Errno::SUCCESS), Outcome::Success(16));
    assert_eq!(short.addr_bytes, bytes[..4].to_vec());

    assert_eq!(SocketListenEvent::new(5, 16).run(&mut st, &vec![]), Outcome::Success(()));
    assert!(matches!(get(&mut st, 5, OptLevel::Socket, SO_ACCEPTCONN), Outcome::Success(SocketOption::SocketIsListening(true))));
    assert_eq!(SocketListenEvent::new(5, 16).run(&mut st, &vec![]), Outcome::Error(Errno::EINVAL));

    assert_eq!(SocketGetPeerNameEvent::new(5).run(&st), Outcome::Error(Errno::ENOTCONN));
    assert_eq!(SocketGetPeerNameEvent::new(11).run(&st), Outcome::Error(Errno::EBADF));
}

#[test]
fn passthrough_descriptors_go_to_the_host() {
    let mut st = fresh();
    let mut nl = NetlinkCreateEvent { fd: 12 };
    assert_eq!(nl.run(&mut st), Outcome::Success(()));
    assert!(st.local.fds.get(12).unwrap().is_passthrough);
    let mut bind = SocketBindEvent::new(12, &[16u8, 0]);
    assert_eq!(bind.run(&mut st, -1, Errno::EPERM), Outcome::Error(Errno::EPERM));
    let mut name = SocketGetNameEvent::new(12, vec![0u8; 12]);
    assert_eq!(name.run(&st, 0, 12, Errno::SUCCESS), Outcome::Success(12));
    // Not a socket of the emulator.
    assert_eq!(SocketGetPeerNameEvent::new(12).run(&st), Outcome::Error(Errno::ENOTSOCK));
}

#[test]
fn option_values_in_c_layout() {
    let mut out = vec![0u8; 4];
    assert_eq!(SocketOption::TcpMss(1220).encode(&mut out), 4);
    assert_eq!(out, 1220u32.to_ne_bytes().to_vec());

    let mut out = vec![0u8; 8];
    assert_eq!(SocketOption::SocketLinger(Some(15)).encode(&mut out), 8);
    let mut want = 1i32.to_ne_bytes().to_vec();
    want.extend_from_slice(&15i32.to_ne_bytes());
    assert_eq!(out, want);

    // A buffer shorter than the value takes its first bytes.
    let mut out = vec![9u8; 2];
    assert_eq!(SocketOption::SocketLinger(None).encode(&mut out), 8);
    assert_eq!(out, vec![0, 0]);

    // A longer buffer keeps its tail.
    let mut out = vec![9u8; 6];
    assert_eq!(SocketOption::SocketReuseAddr(true).encode(&mut out), 4);
    let mut want = 1i32.to_ne_bytes().to_vec();
    want.extend_from_slice(&[9, 9]);
    assert_eq!(out, want);

    let mut out = vec![0u8; 4];
    assert_eq!(SocketOption::TcpUserTimeout(2_500_000_000).encode(&mut out), 4);
    assert_eq!(out, 2500u32.to_ne_bytes().to_vec());

    let mut out = vec![0u8; 2];
    assert_eq!(SocketOption::SocketDomain(AddressFamily::Ipv6).encode(&mut out), 2);
    assert_eq!(out, 10u16.to_ne_bytes().to_vec());

    let mut out = vec![0u8; 4];
    assert_eq!(SocketOption::SocketProtocol(TransportProtocol::Sctp).encode(&mut out), 4);
    assert_eq!(out, 132i32.to_ne_bytes().to_vec());

    let mut out = vec![0u8; 4];
    assert_eq!(SocketOption::SocketError(-3).encode(&mut out), 4);
    assert_eq!(out, (-3i32).to_ne_bytes().to_vec());

    let mut out = Vec::new();
    assert_eq!(SocketOption::IpOptions(vec![1, 2, 3]).encode(&mut out), 3);
    assert!(out.is_empty());

    // Explicit byte orders.
    assert_eq!(SocketOption::SocketPriority(0x0102_0304).to_bytes(true), vec![4, 3, 2, 1]);
    assert_eq!(SocketOption::SocketPriority(0x0102_0304).to_bytes(false), vec![1, 2, 3, 4]);
}

#[test]
fn socket_addresses_round_trip() {
    let v4 = SockAddr::Ipv4 { addr: 0x0a00_0001, port: 53 };
    let b = v4.to_bytes(true);
    assert_eq!(b, vec![2, 0, 0, 53, 10, 0, 0, 1, 0, 0, 0, 0, 0, 0, 0, 0]);
    assert_eq!(SockAddr::decode_ordered(&b, true), Some(v4));

    let v6 = SockAddr::Ipv6 { addr: 0x2001_0db8_0000_0000_0000_0000_0000_0001, port: 443, flowinfo: 7, scope_id: 3 };
    let b = v6.to_bytes(false);
    assert_eq!(b.len(), 28);
    assert_eq!(&b[0..2], &[0, 10]);
    assert_eq!(&b[2..4], &[1, 187]);
    assert_eq!(&b[8..10], &[0x20, 0x01]);
    assert_eq!(b[23], 1);
    assert_eq!(SockAddr::decode_ordered(&b, false), Some(v6));
    let mut out = vec![0u8; 28];
    assert_eq!(v6.encode(&mut out), 28);
    assert_eq!(SockAddr::decode(&out), Some(v6));

    assert_eq!(SockAddr::UnixUnnamed.to_bytes(true), vec![1, 0]);
    assert_eq!(SockAddr::decode_ordered(&[1, 0], true), Some(SockAddr::UnixUnnamed));
    // A family with too few bytes, or an unknown family, is no address.
    assert_eq!(SockAddr::decode_ordered(&[2, 0, 0, 1], true), None);
    assert_eq!(SockAddr::decode_ordered(&[99, 0, 0, 0], true), None);
    assert_eq!(SockAddr::decode_ordered(&[], true), None);
}

#[test]
fn port_sharing_of_a_connecting_socket_without_its_own_address() {
    let at = |port: u16| TransportAddress {
        sockaddr: SockAddr::Ipv4 { addr: 0x7f00_0001, port },
        protocol: TransportProtocol::Tcp,
    };
    let mut st = fresh();
    tcp_socket(&mut st, 5);
    let mut bind = SocketBindEvent::with_addr(5, Some(SockAddr::Ipv4 { addr: 0x7f00_0001, port: 80 }));
    assert_eq!(bind.run(&mut st, 0, Errno::SUCCESS), Outcome::Success(()));
    assert_eq!(SocketListenEvent::new(5, 16).run(&mut st, &vec![]), Outcome::Success(()));
    tcp_socket(&mut st, 6);
    let mut c = SocketConnectEvent::new(6, SockAddr::Ipv4 { addr: 0x7f00_0001, port: 80 });
    let _ = c.run(&mut st, &vec![at(45000)]);

    // The connecting socket has no address of its own: it is registered at the next
    // candidate that fits, whose port sharing is answered.
    let mut get = SocketGetOptionEvent::new(6, OptLevel::Socket, SO_REUSEPORT, OptInput::Nothing);
    let r = get.run(&mut st, &vec![at(45000), at(45001)]);
    assert!(matches!(r, Outcome::Success(SocketOption::SocketReusePort(false))));
    assert_eq!(st.global.socket_locations.front_of(&at(45001)), Some(1));

    // Setting it sets the sharing of the address it is registered at this time.
    let mut set = SocketSetOptionEvent::new(6, SocketOption::SocketReusePort(true));
    assert_eq!(set.run(&mut st, &vec![at(45002)]), Outcome::Success(()));
    assert_eq!(st.global.socket_locations.lookup(&at(45002)), Some((true, false)));
}
