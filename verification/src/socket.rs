//! Emulated sockets: addresses, the table of bound addresses, and the
//! socket-option handlers (`getsockopt`, `setsockopt`) with the encoding of
//! option values.
use vstd::prelude::*;

use crate::errno::Errno;
use crate::scheduler::Outcome;
use crate::state::{DescriptorInfo, FdResource, FizzleState, GlobalState, LocalState};
use crate::table::Table;
use crate::sockio::{DatagramQueue, Endpoint, FuzzEndpoint};
use crate::endian::{
    bytes_to_int, bytes_value, int_bytes, int_to_bytes, lemma_int_bytes_value, lemma_pow256_widths,
    native_little_endian,
};
use crate::thread::pow256;

verus! {

/// Address families.
#[derive(Clone, Copy, Debug, PartialEq, Eq, Structural)]
pub enum AddressFamily {
    Unix,
    Ipv4,
    Ipv6,
    Netlink,
}

impl AddressFamily {
    pub open spec fn spec_raw(self) -> u16 {
        match self {
            AddressFamily::Unix => 1,
            AddressFamily::Ipv4 => 2,
            AddressFamily::Ipv6 => 10,
            AddressFamily::Netlink => 16,
        }
    }

    /// The `AF_*` number of the family.
    pub fn raw(&self) -> (r: u16)
        ensures
            r == self.spec_raw(),
    {
        match self {
            AddressFamily::Unix => 1,
            AddressFamily::Ipv4 => 2,
            AddressFamily::Ipv6 => 10,
            AddressFamily::Netlink => 16,
        }
    }
}

#[derive(Clone, Copy, Debug, PartialEq, Eq, Structural)]
pub enum SocketType {
    Stream,
    Datagram,
    SeqPacket,
    Raw,
}

#[derive(Clone, Copy, Debug, PartialEq, Eq, Structural)]
pub enum TransportProtocol {
    Tcp,
    Udp,
    Sctp,
    Unix,
}

/// A socket address: IPv4 or IPv6 with a port, or an unnamed Unix-domain address.
#[derive(Clone, Copy, Debug, PartialEq, Eq, Structural)]
pub enum SockAddr {
    Ipv4 { addr: u32, port: u16 },
    Ipv6 { addr: u128, port: u16, flowinfo: u32, scope_id: u32 },
    UnixUnnamed,
}

impl SockAddr {
    pub open spec fn spec_family(self) -> AddressFamily {
        match self {
            SockAddr::Ipv4 { .. } => AddressFamily::Ipv4,
            SockAddr::Ipv6 { .. } => AddressFamily::Ipv6,
            SockAddr::UnixUnnamed => AddressFamily::Unix,
        }
    }

    pub fn family(&self) -> (r: AddressFamily)
        ensures
            r == self.spec_family(),
    {
        match self {
            SockAddr::Ipv4 { .. } => AddressFamily::Ipv4,
            SockAddr::Ipv6 { .. } => AddressFamily::Ipv6,
            SockAddr::UnixUnnamed => AddressFamily::Unix,
        }
    }

    /// The unspecified ("any") address of the same family and port, for IP addresses.
    pub open spec fn spec_wildcard(self) -> Option<SockAddr> {
        match self {
            SockAddr::Ipv4 { port, .. } => Some(SockAddr::Ipv4 { addr: 0, port }),
            SockAddr::Ipv6 { port, .. } => Some(SockAddr::Ipv6 { addr: 0, port, flowinfo: 0, scope_id: 0 }),
            SockAddr::UnixUnnamed => None,
        }
    }

    pub fn wildcard(&self) -> (r: Option<SockAddr>)
        ensures
            r == self.spec_wildcard(),
    {
        match self {
            SockAddr::Ipv4 { port, .. } => Some(SockAddr::Ipv4 { addr: 0, port: *port }),
            SockAddr::Ipv6 { port, .. } => Some(SockAddr::Ipv6 { addr: 0, port: *port, flowinfo: 0, scope_id: 0 }),
            SockAddr::UnixUnnamed => None,
        }
    }
}

/// The `sockaddr` layouts: `sockaddr_in` (family, port, IPv4 address, 8 zero bytes),
/// `sockaddr_in6` (family, port, flow information, IPv6 address, scope) and an unnamed
/// `sockaddr_un` (the family alone). The family, flow information and scope are in the
/// given byte order; port and address are most significant byte first.
pub open spec fn sockaddr_bytes(a: SockAddr, little: bool) -> Seq<u8> {
    match a {
        SockAddr::Ipv4 { addr, port } => int_bytes(2, 2, little) + int_bytes(port as nat, 2, false) + int_bytes(
            addr as nat,
            4,
            false,
        ) + Seq::new(8, |i: int| 0u8),
        SockAddr::Ipv6 { addr, port, flowinfo, scope_id } => int_bytes(10, 2, little) + int_bytes(port as nat, 2, false)
            + int_bytes(flowinfo as nat, 4, little) + int_bytes(addr as nat / pow256(8), 8, false) + int_bytes(
            addr as nat % pow256(8),
            8,
            false,
        ) + int_bytes(scope_id as nat, 4, little),
        SockAddr::UnixUnnamed => int_bytes(1, 2, little),
    }
}

/// The address that `sockaddr` bytes hold, read with the given byte order: an
/// `AF_INET` address of at least 16 bytes, an `AF_INET6` address of at least 28 bytes,
/// or an `AF_UNIX` address of the family alone; `None` for anything else.
pub open spec fn sockaddr_from_bytes(b: Seq<u8>, little: bool) -> Option<SockAddr> {
    if b.len() < 2 {
        None
    } else {
        let family = bytes_value(b.subrange(0, 2), little);
        if family == 2 && b.len() >= 16 {
            Some(
                SockAddr::Ipv4 {
                    addr: bytes_value(b.subrange(4, 8), false) as u32,
                    port: bytes_value(b.subrange(2, 4), false) as u16,
                },
            )
        } else if family == 10 && b.len() >= 28 {
            Some(
                SockAddr::Ipv6 {
                    addr: (bytes_value(b.subrange(8, 16), false) * pow256(8) + bytes_value(b.subrange(16, 24), false))
                        as u128,
                    port: bytes_value(b.subrange(2, 4), false) as u16,
                    flowinfo: bytes_value(b.subrange(4, 8), little) as u32,
                    scope_id: bytes_value(b.subrange(24, 28), little) as u32,
                },
            )
        } else if family == 1 && b.len() == 2 {
            Some(SockAddr::UnixUnnamed)
        } else {
            None
        }
    }
}

impl SockAddr {
    /// The address's `sockaddr` bytes in the given byte order.
    pub fn to_bytes(&self, little: bool) -> (r: Vec<u8>)
        ensures
            r@ == sockaddr_bytes(*self, little),
    {
        let mut b: Vec<u8> = Vec::new();
        proof {
            lemma_pow256_widths();
        }
        match self {
            SockAddr::Ipv4 { addr, port } => {
                push_int(&mut b, 2, 2, little);
                push_int(&mut b, *port as u64, 2, false);
                push_int(&mut b, *addr as u64, 4, false);
                let mut i: usize = 0;
                let ghost start = b@;
                while i < 8
                    invariant
                        i <= 8,
                        b@ == start + Seq::new(i as nat, |j: int| 0u8),
                    decreases 8 - i,
                {
                    b.push(0);
                    i += 1;
                    proof {
                        assert(b@ =~= start + Seq::new(i as nat, |j: int| 0u8));
                    }
                }
            },
            SockAddr::Ipv6 { addr, port, flowinfo, scope_id } => {
                push_int(&mut b, 10, 2, little);
                push_int(&mut b, *port as u64, 2, false);
                push_int(&mut b, *flowinfo as u64, 4, little);
                let hi: u64 = (*addr / 0x1_0000_0000_0000_0000u128) as u64;
                let lo: u64 = (*addr % 0x1_0000_0000_0000_0000u128) as u64;
                push_int(&mut b, hi, 8, false);
                push_int(&mut b, lo, 8, false);
                push_int(&mut b, *scope_id as u64, 4, little);
            },
            SockAddr::UnixUnnamed => {
                push_int(&mut b, 1, 2, little);
            },
        }
        proof {
            assert(b@ =~= sockaddr_bytes(*self, little));
        }
        b
    }

    /// Writes the address's `sockaddr` bytes, in the given byte order, over the start of
    /// `out` (as many as fit) and returns the length of the whole address.
    pub fn encode_ordered(&self, out: &mut Vec<u8>, little: bool) -> (r: usize)
        ensures
            r == sockaddr_bytes(*self, little).len(),
            final(out)@ == overwrite_prefix(old(out)@, sockaddr_bytes(*self, little)),
    {
        let b = self.to_bytes(little);
        write_prefix(out, &b);
        b.len()
    }

    /// Writes the address's `sockaddr` bytes, in the machine's byte order, over the start
    /// of `out` (as many as fit) and returns the length of the whole address.
    pub fn encode(&self, out: &mut Vec<u8>) -> (r: usize)
        ensures
            r == sockaddr_bytes(*self, true).len(),
            final(out)@ == overwrite_prefix(old(out)@, sockaddr_bytes(*self, true)) || final(out)@
                == overwrite_prefix(old(out)@, sockaddr_bytes(*self, false)),
    {
        let little = native_little_endian();
        proof {
            lemma_sockaddr_bytes_len(*self);
        }
        self.encode_ordered(out, little)
    }

    /// Reads an address from `sockaddr` bytes in the given byte order.
    pub fn decode_ordered(b: &[u8], little: bool) -> (r: Option<SockAddr>)
        ensures
            r == sockaddr_from_bytes(b@, little),
    {
        if b.len() < 2 {
            return None;
        }
        proof {
            lemma_pow256_widths();
        }
        let family = bytes_to_int(b, 0, 2, little);
        if family == 2 && b.len() >= 16 {
            let addr = bytes_to_int(b, 4, 4, false);
            let port = bytes_to_int(b, 2, 2, false);
            Some(SockAddr::Ipv4 { addr: addr as u32, port: port as u16 })
        } else if family == 10 && b.len() >= 28 {
            let hi = bytes_to_int(b, 8, 8, false);
            let lo = bytes_to_int(b, 16, 8, false);
            let port = bytes_to_int(b, 2, 2, false);
            let flowinfo = bytes_to_int(b, 4, 4, little);
            let scope_id = bytes_to_int(b, 24, 4, little);
            let addr: u128 = hi as u128 * 0x1_0000_0000_0000_0000u128 + lo as u128;
            Some(SockAddr::Ipv6 { addr, port: port as u16, flowinfo: flowinfo as u32, scope_id: scope_id as u32 })
        } else if family == 1 && b.len() == 2 {
            Some(SockAddr::UnixUnnamed)
        } else {
            None
        }
    }

    /// Reads an address from `sockaddr` bytes in the machine's byte order.
    pub fn decode(b: &[u8]) -> (r: Option<SockAddr>)
        ensures
            r == sockaddr_from_bytes(b@, true) || r == sockaddr_from_bytes(b@, false),
    {
        let little = native_little_endian();
        Self::decode_ordered(b, little)
    }
}

/// The length of an address's bytes does not depend on the byte order.
proof fn lemma_sockaddr_bytes_len(a: SockAddr)
    ensures
        sockaddr_bytes(a, true).len() == sockaddr_bytes(a, false).len(),
{
    broadcast use lemma_int_bytes_len_b;
}

proof fn lemma_read_back(v: nat, n: nat, little: bool, b: Seq<u8>, start: int)
    requires
        v < pow256(n),
        0 <= start,
        start + n <= b.len(),
        b.subrange(start, start + n) == int_bytes(v, n, little),
    ensures
        bytes_value(b.subrange(start, start + n), little) == v,
{
    lemma_int_bytes_value(v, n, little);
    vstd::arithmetic::div_mod::lemma_small_mod(v, pow256(n));
}

/// Reading back the bytes of an address gives the address.
pub proof fn lemma_sockaddr_round_trip(a: SockAddr, little: bool)
    ensures
        sockaddr_from_bytes(sockaddr_bytes(a, little), little) == Some(a),
{
    broadcast use lemma_int_bytes_len_b;

    lemma_pow256_widths();
    let b = sockaddr_bytes(a, little);
    match a {
        SockAddr::Ipv4 { addr, port } => {
            assert(b.subrange(0, 2) =~= int_bytes(2, 2, little));
            assert(b.subrange(2, 4) =~= int_bytes(port as nat, 2, false));
            assert(b.subrange(4, 8) =~= int_bytes(addr as nat, 4, false));
            lemma_read_back(2, 2, little, b, 0);
            lemma_read_back(port as nat, 2, false, b, 2);
            lemma_read_back(addr as nat, 4, false, b, 4);
        },
        SockAddr::Ipv6 { addr, port, flowinfo, scope_id } => {
            let hi = addr as nat / pow256(8);
            let lo = addr as nat % pow256(8);
            assert(hi < pow256(8)) by {
                vstd::arithmetic::div_mod::lemma_multiply_divide_lt(addr as int, pow256(8) as int, pow256(8) as int);
                assert(pow256(8) * pow256(8) == 0x1_0000_0000_0000_0000_0000_0000_0000_0000);
            }
            assert(lo < pow256(8)) by {
                vstd::arithmetic::div_mod::lemma_mod_bound(addr as int, pow256(8) as int);
            }
            assert(b.subrange(0, 2) =~= int_bytes(10, 2, little));
            assert(b.subrange(2, 4) =~= int_bytes(port as nat, 2, false));
            assert(b.subrange(4, 8) =~= int_bytes(flowinfo as nat, 4, little));
            assert(b.subrange(8, 16) =~= int_bytes(hi, 8, false));
            assert(b.subrange(16, 24) =~= int_bytes(lo, 8, false));
            assert(b.subrange(24, 28) =~= int_bytes(scope_id as nat, 4, little));
            lemma_read_back(10, 2, little, b, 0);
            lemma_read_back(port as nat, 2, false, b, 2);
            lemma_read_back(flowinfo as nat, 4, little, b, 4);
            lemma_read_back(hi, 8, false, b, 8);
            lemma_read_back(lo, 8, false, b, 16);
            lemma_read_back(scope_id as nat, 4, little, b, 24);
            vstd::arithmetic::div_mod::lemma_fundamental_div_mod(addr as int, pow256(8) as int);
            assert(hi * pow256(8) + lo == addr) by (nonlinear_arith)
                requires
                    addr == pow256(8) * hi + lo,
            ;
        },
        SockAddr::UnixUnnamed => {
            assert(b.subrange(0, 2) =~= int_bytes(1, 2, little));
            lemma_read_back(1, 2, little, b, 0);
        },
    }
}

/// An address together with the transport protocol bound at it.
#[derive(Clone, Copy, Debug, PartialEq, Eq, Structural)]
pub struct TransportAddress {
    pub sockaddr: SockAddr,
    pub protocol: TransportProtocol,
}

impl TransportAddress {
    pub open spec fn spec_wildcard(self) -> Option<TransportAddress> {
        match self.sockaddr.spec_wildcard() {
            Some(w) => Some(TransportAddress { sockaddr: w, protocol: self.protocol }),
            None => None,
        }
    }

    pub fn wildcard(&self) -> (r: Option<TransportAddress>)
        ensures
            r == self.spec_wildcard(),
    {
        match self.sockaddr.wildcard() {
            Some(w) => Some(TransportAddress { sockaddr: w, protocol: self.protocol }),
            None => None,
        }
    }
}

/// The local address of a socket: not yet chosen (to be picked from the family's
/// ephemeral addresses), or assigned.
#[derive(Clone, Copy, Debug, PartialEq, Eq, Structural)]
pub enum LocalAddress {
    Ephemeral(AddressFamily),
    Assigned(SockAddr),
}

impl LocalAddress {
    pub open spec fn spec_family(self) -> AddressFamily {
        match self {
            LocalAddress::Ephemeral(f) => f,
            LocalAddress::Assigned(a) => a.spec_family(),
        }
    }

    pub fn family(&self) -> (r: AddressFamily)
        ensures
            r == self.spec_family(),
    {
        match self {
            LocalAddress::Ephemeral(address_family) => *address_family,
            LocalAddress::Assigned(sock_addr) => sock_addr.family(),
        }
    }
}

/// Options set on a socket; the TCP user timeout is in nanoseconds.
#[derive(Clone, Copy, Debug, PartialEq, Eq, Structural)]
pub struct SocketOptions {
    pub tcp_user_timeout: Option<u128>,
}

impl SocketOptions {
    pub fn default() -> (r: Self)
        ensures
            r.tcp_user_timeout is None,
    {
        Self { tcp_user_timeout: None }
    }
}

#[derive(Clone, Copy, Debug, PartialEq, Eq, Structural)]
pub struct ConnectionlessSocket {
    pub rem_addr: Option<TransportAddress>,
    pub reuse_port: bool,
}

#[derive(Clone, Copy, Debug, PartialEq, Eq, Structural)]
pub struct UnassociatedSocket {
    pub reuse_port: bool,
}

#[derive(Clone, Copy, Debug, PartialEq, Eq, Structural)]
pub struct ConnectedSocket {
    pub rem_addr: TransportAddress,
    pub peer_closed: bool,
}

/// What serves a connection waiting for a listener once it is accepted: a socket of the
/// emulator, or an emulated connection (see `Endpoint`), which becomes the accepted
/// socket itself. A plugin's connection is the endpoint recorded for the waiting socket; a
/// connection fed back to the harness starts empty.
#[derive(Clone, Copy, Debug, PartialEq, Eq, Structural)]
pub enum PendingBackend {
    Peered,
    Sink,
    NullSink,
    Fuzz(FuzzEndpoint),
    Plugin,
    Feedback,
}

/// A socket whose connection waits for a listener at the address it connects to.
#[derive(Clone, Copy, Debug, PartialEq, Eq, Structural)]
pub struct PendingSocket {
    pub rem_addr: TransportAddress,
    pub backend: PendingBackend,
}

/// Where a socket is in its life.
#[derive(Clone, Copy, Debug, PartialEq, Eq, Structural)]
pub enum SocketState {
    Connectionless(ConnectionlessSocket),
    Unassociated(UnassociatedSocket),
    Server,
    PendingConnection(PendingSocket),
    Connecting,
    Connected(ConnectedSocket),
}

/// A socket.
#[derive(Clone, Copy, Debug, PartialEq, Eq, Structural)]
pub struct SocketInfo {
    /// The number of file descriptors currently referencing the socket.
    pub fd_count: usize,
    pub socktype: SocketType,
    pub protocol: TransportProtocol,
    /// The local address the socket is bound to.
    ///
    /// By default, this is an ephemeral address assigned at socket creation.
    pub local_addr: LocalAddress,
    pub options: SocketOptions,
    pub state: SocketState,
}

impl SocketInfo {
    /// A fresh socket, referenced by one descriptor, not bound, connected or listening.
    pub fn new_unassociated(family: AddressFamily, socktype: SocketType, protocol: TransportProtocol) -> (r: Self)
        ensures
            r == (SocketInfo {
                fd_count: 1,
                socktype,
                protocol,
                local_addr: LocalAddress::Ephemeral(family),
                options: SocketOptions { tcp_user_timeout: None },
                state: SocketState::Unassociated(UnassociatedSocket { reuse_port: false }),
            }),
    {
        Self {
            fd_count: 1,
            socktype,
            protocol,
            local_addr: LocalAddress::Ephemeral(family),
            options: SocketOptions::default(),
            state: SocketState::Unassociated(UnassociatedSocket { reuse_port: false }),
        }
    }

    pub open spec fn spec_local_transport(self) -> Option<TransportAddress> {
        match self.local_addr {
            LocalAddress::Assigned(sockaddr) => Some(TransportAddress { sockaddr, protocol: self.protocol }),
            LocalAddress::Ephemeral(_) => None,
        }
    }

    /// The transport address the socket is bound to, once it has one.
    pub fn local_transport(&self) -> (r: Option<TransportAddress>)
        ensures
            r == self.spec_local_transport(),
    {
        match self.local_addr {
            LocalAddress::Assigned(sockaddr) => Some(TransportAddress { sockaddr, protocol: self.protocol }),
            LocalAddress::Ephemeral(_) => None,
        }
    }
}

/// The sockets bound at one transport address.
pub struct TransportLocationInfo {
    pub reuse_port: bool,
    /// Bound sockets, in the order connections are spread over them.
    pub bound_sockets: Vec<i64>,
    /// Sockets whose connections wait for a listener.
    pub pending: Vec<i64>,
}

/// What is bound at a transport address: whether the port may be shared, and the
/// bound and pending sockets.
pub struct LocationView {
    pub reuse_port: bool,
    pub bound_sockets: Seq<i64>,
    pub pending: Seq<i64>,
}

impl TransportLocationInfo {
    pub open spec fn view(&self) -> LocationView {
        LocationView { reuse_port: self.reuse_port, bound_sockets: self.bound_sockets@, pending: self.pending@ }
    }

    /// Takes the next bound socket in turn: the front socket, which moves to the back.
    pub fn next_bound(&mut self) -> (r: Option<i64>)
        ensures
            final(self).reuse_port == old(self).reuse_port,
            final(self).pending == old(self).pending,
            old(self).bound_sockets@.len() == 0 ==> r is None && final(self).bound_sockets@
                == old(self).bound_sockets@,
            old(self).bound_sockets@.len() > 0 ==> r == Some(old(self).bound_sockets@[0])
                && final(self).bound_sockets@ == old(self).bound_sockets@.drop_first().push(
                old(self).bound_sockets@[0],
            ),
    {
        if self.bound_sockets.len() == 0 {
            return None;
        }
        let ghost b = self.bound_sockets@;
        let sock = self.bound_sockets.remove(0);
        self.bound_sockets.push(sock);
        proof {
            assert(self.bound_sockets@ =~= b.drop_first().push(b[0]));
        }
        Some(sock)
    }
}

/// The bound transport addresses, each once.
pub struct LocationTable {
    pub entries: Vec<(TransportAddress, TransportLocationInfo)>,
}

impl LocationTable {
    pub open spec fn wf(&self) -> bool {
        forall|i: int, j: int|
            0 <= i < j < self.entries@.len() ==> #[trigger] self.entries@[i].0 != #[trigger] self.entries@[j].0
    }

    /// What is bound at each address.
    pub open spec fn view(&self) -> Map<TransportAddress, LocationView> {
        Map::new(
            |a: TransportAddress| exists|i: int| 0 <= i < self.entries@.len() && #[trigger] self.entries@[i].0 == a,
            |a: TransportAddress|
                self.entries@[choose|i: int| 0 <= i < self.entries@.len() && #[trigger] self.entries@[i].0 == a].1.view(),
        )
    }

    pub fn new() -> (r: Self)
        ensures
            r.wf(),
            r@ == Map::<TransportAddress, LocationView>::empty(),
    {
        let r = LocationTable { entries: Vec::new() };
        assert(r@ =~= Map::<TransportAddress, LocationView>::empty());
        r
    }

    fn find(&self, a: &TransportAddress) -> (r: Option<usize>)
        requires
            self.wf(),
        ensures
            match r {
                Some(i) => i < self.entries@.len() && self.entries@[i as int].0 == *a && self@.contains_key(*a)
                    && self@[*a] == self.entries@[i as int].1.view(),
                None => !self@.contains_key(*a),
            },
    {
        let mut i: usize = 0;
        while i < self.entries.len()
            invariant
                self.wf(),
                i <= self.entries@.len(),
                forall|j: int| 0 <= j < i ==> #[trigger] self.entries@[j].0 != *a,
            decreases self.entries@.len() - i,
        {
            if self.entries[i].0 == *a {
                proof {
                    let k = choose|k: int| 0 <= k < self.entries@.len() && #[trigger] self.entries@[k].0 == *a;
                    assert(k == i);
                }
                return Some(i);
            }
            i += 1;
        }
        None
    }

    /// Whether anything is bound at `a`, and if so whether the port may be shared and
    /// whether any socket is bound.
    /// How many sockets wait at `a` (which is bound) for a listener.
    pub fn pending_len(&self, a: &TransportAddress) -> (r: usize)
        requires
            self.wf(),
            self@.contains_key(*a),
        ensures
            r == self@[*a].pending.len(),
    {
        match self.find(a) {
            Some(i) => self.entries[i].1.pending.len(),
            None => {
                assert(false);
                0
            },
        }
    }

    pub fn lookup(&self, a: &TransportAddress) -> (r: Option<(bool, bool)>)
        requires
            self.wf(),
        ensures
            match r {
                Some((reuse, empty)) => self@.contains_key(*a) && reuse == self@[*a].reuse_port && empty
                    == (self@[*a].bound_sockets.len() == 0),
                None => !self@.contains_key(*a),
            },
    {
        match self.find(a) {
            Some(i) => Some((self.entries[i].1.reuse_port, self.entries[i].1.bound_sockets.len() == 0)),
            None => None,
        }
    }

    /// Binds socket `sock` at `a`: appends it to the sockets bound there and sets the
    /// address's port sharing.
    pub fn bind(&mut self, a: TransportAddress, sock: i64, reuse_port: bool)
        requires
            old(self).wf(),
        ensures
            final(self).wf(),
            final(self)@ == old(self)@.insert(
                a,
                if old(self)@.contains_key(a) {
                    LocationView {
                        reuse_port,
                        bound_sockets: old(self)@[a].bound_sockets.push(sock),
                        pending: old(self)@[a].pending,
                    }
                } else {
                    LocationView { reuse_port, bound_sockets: seq![sock], pending: Seq::empty() }
                },
            ),
    {
        let ghost old_entries = self.entries@;
        match self.find(&a) {
            Some(i) => {
                let (addr, mut info) = self.entries.remove(i);
                info.bound_sockets.push(sock);
                info.reuse_port = reuse_port;
                self.entries.insert(i, (addr, info));
                proof {
                    assert forall|x: int, y: int|
                        0 <= x < y < self.entries@.len() implies #[trigger] self.entries@[x].0
                        != #[trigger] self.entries@[y].0 by {
                        assert(self.entries@[x].0 == old_entries[x].0);
                        assert(self.entries@[y].0 == old_entries[y].0);
                    }
                    assert forall|x: int| 0 <= x < self.entries@.len() implies #[trigger] self.entries@[x].0
                        == old_entries[x].0 by {}
                    assert forall|b: TransportAddress| #[trigger] old(self)@.contains_key(b) implies self@.contains_key(b) by {
                        let k0 = choose|k: int| 0 <= k < old_entries.len() && #[trigger] old_entries[k].0 == b;
                        assert(self.entries@[k0].0 == b);
                    }
                    assert forall|b: TransportAddress| #[trigger] self@.contains_key(b) implies old(self)@.contains_key(b) by {
                        let k = choose|k: int| 0 <= k < self.entries@.len() && #[trigger] self.entries@[k].0 == b;
                        assert(old_entries[k].0 == b);
                    }
                    assert(self@.dom() =~= old(self)@.dom());
                    assert(self@ =~= old(self)@.insert(
                        a,
                        LocationView {
                            reuse_port,
                            bound_sockets: old(self)@[a].bound_sockets.push(sock),
                            pending: old(self)@[a].pending,
                        },
                    )) by {
                        assert forall|b: TransportAddress| #[trigger] self@.contains_key(b) implies self@[b]
                            == old(self)@.insert(
                            a,
                            LocationView {
                                reuse_port,
                                bound_sockets: old(self)@[a].bound_sockets.push(sock),
                                pending: old(self)@[a].pending,
                            },
                        )[b] by {
                            let k = choose|k: int| 0 <= k < self.entries@.len() && #[trigger] self.entries@[k].0 == b;
                            let k0 = choose|k: int| 0 <= k < old_entries.len() && #[trigger] old_entries[k].0 == b;
                            assert(old_entries[k].0 == b);
                            assert(k == k0);
                            if b == a {
                                assert(k == i);
                            }
                        }
                    }
                }
            },
            None => {
                let mut bound_sockets: Vec<i64> = Vec::new();
                bound_sockets.push(sock);
                self.entries.push((a, TransportLocationInfo { reuse_port, bound_sockets, pending: Vec::new() }));
                proof {
                    let n = old_entries.len();
                    assert forall|x: int, y: int|
                        0 <= x < y < self.entries@.len() implies #[trigger] self.entries@[x].0
                        != #[trigger] self.entries@[y].0 by {
                        if y == n {
                            assert(self.entries@[x] == old_entries[x]);
                        } else {
                            assert(self.entries@[x] == old_entries[x]);
                            assert(self.entries@[y] == old_entries[y]);
                        }
                    }
                    assert(self@ =~= old(self)@.insert(
                        a,
                        LocationView { reuse_port, bound_sockets: seq![sock], pending: Seq::empty() },
                    )) by {
                        assert(self.entries@[n as int].0 == a);
                        assert(self.entries@[n as int].1.bound_sockets@ =~= seq![sock]);
                        assert forall|b: TransportAddress| #[trigger] old(self)@.contains_key(b) implies self@.contains_key(b) by {
                            let k0 = choose|k: int| 0 <= k < old_entries.len() && #[trigger] old_entries[k].0 == b;
                            assert(self.entries@[k0] == old_entries[k0]);
                        }
                        assert forall|b: TransportAddress| #[trigger] self@.contains_key(b) implies self@[b]
                            == old(self)@.insert(
                            a,
                            LocationView { reuse_port, bound_sockets: seq![sock], pending: Seq::empty() },
                        )[b] by {
                            let k = choose|k: int| 0 <= k < self.entries@.len() && #[trigger] self.entries@[k].0 == b;
                            if b == a {
                                assert(k == n);
                            } else {
                                assert(k < n);
                                assert(self.entries@[k] == old_entries[k]);
                                let k0 = choose|k: int| 0 <= k < old_entries.len() && #[trigger] old_entries[k].0 == b;
                                assert(self.entries@[k0] == old_entries[k0]);
                                assert(k == k0);
                            }
                        }
                    }
                }
            },
        }
    }
}


/// The socket that a descriptor refers to, if it refers to one.
pub open spec fn fd_socket(fds: Map<int, DescriptorInfo>, fd: i32) -> Option<i64> {
    if fds.contains_key(fd as int) {
        match fds[fd as int].resource {
            FdResource::Socket(id) => Some(id),
            _ => None,
        }
    } else {
        None
    }
}

/// The port-sharing setting of a socket that is not yet bound or connected.
pub open spec fn unbound_reuse_port(st: SocketState) -> Option<bool> {
    match st {
        SocketState::Unassociated(u) => Some(u.reuse_port),
        SocketState::Connectionless(c) => Some(c.reuse_port),
        _ => None,
    }
}

/// The address with the given port, for IP addresses.
pub open spec fn with_port(a: SockAddr, p: u16) -> SockAddr {
    match a {
        SockAddr::Ipv4 { addr, .. } => SockAddr::Ipv4 { addr, port: p },
        SockAddr::Ipv6 { addr, flowinfo, scope_id, .. } => SockAddr::Ipv6 { addr, port: p, flowinfo, scope_id },
        SockAddr::UnixUnnamed => a,
    }
}

/// Whether a bind to `a` asks for an ephemeral port.
pub open spec fn wants_port(a: SockAddr) -> bool {
    match a {
        SockAddr::Ipv4 { port, .. } => port == 0,
        SockAddr::Ipv6 { port, .. } => port == 0,
        SockAddr::UnixUnnamed => false,
    }
}

/// Whether the wildcard address of `t` blocks a bind with the given port sharing: it is
/// bound, by some socket, without both sides sharing the port.
pub open spec fn wildcard_blocks(locs: Map<TransportAddress, LocationView>, t: TransportAddress, reuse_port: bool) -> bool {
    match t.spec_wildcard() {
        Some(w) => locs.contains_key(w) && !(locs[w].reuse_port && reuse_port) && locs[w].bound_sockets.len() > 0,
        None => false,
    }
}

/// Whether a bind with the given port sharing may join the sockets bound at `t`.
pub open spec fn bind_allowed(locs: Map<TransportAddress, LocationView>, t: TransportAddress, reuse_port: bool) -> bool {
    !locs.contains_key(t) || (reuse_port && locs[t].reuse_port) || (!wildcard_blocks(locs, t, reuse_port)
        && locs[t].bound_sockets.len() == 0)
}

/// Whether the wildcard address of an ephemeral candidate `t` is taken for a socket with
/// the given port sharing: it is registered, and either side does not share the port or
/// some socket is bound there.
pub open spec fn ephemeral_wildcard_taken(
    locs: Map<TransportAddress, LocationView>,
    t: TransportAddress,
    reuse_port: bool,
) -> bool {
    match t.spec_wildcard() {
        Some(w) => locs.contains_key(w) && (!locs[w].reuse_port || !reuse_port || locs[w].bound_sockets.len() > 0),
        None => false,
    }
}

/// Whether a socket with the given port sharing can take the ephemeral candidate `t`.
pub open spec fn ephemeral_fits(locs: Map<TransportAddress, LocationView>, t: TransportAddress, reuse_port: bool) -> bool {
    !locs.contains_key(t) || (reuse_port && locs[t].reuse_port) || (!ephemeral_wildcard_taken(locs, t, reuse_port)
        && locs[t].bound_sockets.len() == 0)
}

/// The table once socket `id` is registered at the ephemeral address `t` with the given
/// port sharing, which joins any sharing already there.
pub open spec fn ephemeral_bind(
    locs: Map<TransportAddress, LocationView>,
    t: TransportAddress,
    id: i64,
    reuse_port: bool,
) -> Map<TransportAddress, LocationView> {
    locs.insert(
        t,
        if locs.contains_key(t) {
            LocationView {
                reuse_port: locs[t].reuse_port || reuse_port,
                bound_sockets: locs[t].bound_sockets.push(id),
                pending: locs[t].pending,
            }
        } else {
            LocationView { reuse_port, bound_sockets: seq![id], pending: Seq::empty() }
        },
    )
}

/// Trying the ephemeral candidates from index `i` on, with the given port sharing (which an
/// unnamed Unix address turns on for it and the candidates after it): the index of the
/// first that fits, with the sharing it is taken with; `None` when none does.
pub open spec fn first_fit(
    locs: Map<TransportAddress, LocationView>,
    cands: Seq<TransportAddress>,
    i: int,
    reuse_port: bool,
) -> Option<(int, bool)>
    decreases cands.len() - i,
{
    if i < 0 || i >= cands.len() {
        None
    } else {
        let reuse = reuse_port || cands[i].sockaddr == SockAddr::UnixUnnamed;
        if ephemeral_fits(locs, cands[i], reuse) {
            Some((i, reuse))
        } else {
            first_fit(locs, cands, i + 1, reuse)
        }
    }
}

/// The candidate `first_fit` picks is one of those from index `i` on.
pub proof fn lemma_first_fit_in_range(
    locs: Map<TransportAddress, LocationView>,
    cands: Seq<TransportAddress>,
    i: int,
    reuse_port: bool,
)
    requires
        0 <= i,
    ensures
        first_fit(locs, cands, i, reuse_port) matches Some((k, _)) ==> i <= k < cands.len(),
    decreases cands.len() - i,
{
    if i < cands.len() {
        let reuse = reuse_port || cands[i].sockaddr == SockAddr::UnixUnnamed;
        lemma_first_fit_in_range(locs, cands, i + 1, reuse);
    }
}

/// The port sharing a socket in the given state brings to an ephemeral address.
pub open spec fn sharing_of(st: SocketState) -> bool {
    match st {
        SocketState::Unassociated(u) => u.reuse_port,
        SocketState::Connectionless(c) => c.reuse_port,
        _ => false,
    }
}

/// Whether `cands` are ephemeral addresses for socket `sock`: of its protocol and, while
/// it has no address of its own, of the family it was created with.
pub open spec fn ephemeral_candidates(sock: SocketInfo, cands: Seq<TransportAddress>) -> bool {
    forall|i: int|
        0 <= i < cands.len() ==> {
            &&& #[trigger] cands[i].protocol == sock.protocol
            &&& (sock.local_addr matches LocalAddress::Ephemeral(f) ==> cands[i].sockaddr.spec_family() == f)
        }
}

/// The address socket `id` communicates from, and the table of bound addresses after it
/// is looked up with the ephemeral candidates `cands`.
///
/// A socket with an address of its own gets it, and the table is unchanged. Otherwise the
/// candidates are tried in turn and the socket is registered at the first it can take
/// (see `first_fit`, `ephemeral_bind`); `None` when no candidate can be taken.
pub open spec fn local_for(g: GlobalState, id: i64, cands: Seq<TransportAddress>) -> (
    Option<TransportAddress>,
    Map<TransportAddress, LocationView>,
) {
    local_for_in(g.sockets@, g.socket_locations@, id, cands)
}

/// `local_for` over the socket table `sockets` and the table of bound addresses `locs`.
pub open spec fn local_for_in(
    sockets: Map<int, SocketInfo>,
    locs: Map<TransportAddress, LocationView>,
    id: i64,
    cands: Seq<TransportAddress>,
) -> (Option<TransportAddress>, Map<TransportAddress, LocationView>) {
    let sock = sockets[id as int];
    match sock.local_addr {
        LocalAddress::Assigned(a) => (Some(TransportAddress { sockaddr: a, protocol: sock.protocol }), locs),
        LocalAddress::Ephemeral(_) => match first_fit(locs, cands, 0, sharing_of(sock.state)) {
            Some((i, reuse)) => (Some(cands[i]), ephemeral_bind(locs, cands[i], id, reuse)),
            None => (None, locs),
        },
    }
}

/// The address socket `id` communicates from (see `local_for`): its own, or the first of
/// the ephemeral addresses `candidates` (in the order they are handed out) that it can
/// take, at which it is then registered while its own address stays unassigned.
pub fn get_or_assign_local(id: i64, g: &mut GlobalState, candidates: &Vec<TransportAddress>) -> (r: Option<
    TransportAddress,
>)
    requires
        old(g).sockets.wf(),
        old(g).socket_locations.wf(),
        old(g).sockets@.contains_key(id as int),
        ephemeral_candidates(old(g).sockets@[id as int], candidates@),
    ensures
        final(g).socket_locations.wf(),
        (r, final(g).socket_locations@) == local_for(*old(g), id, candidates@),
        *final(g) == (GlobalState { socket_locations: final(g).socket_locations, ..*old(g) }),
{
    let sock = match g.sockets.get(id as i128) {
        Some(s) => *s,
        None => {
            assert(false);
            return None;
        },
    };
    match sock.local_addr {
        LocalAddress::Assigned(a) => {
            return Some(TransportAddress { sockaddr: a, protocol: sock.protocol });
        },
        LocalAddress::Ephemeral(_) => {},
    }
    let ghost locs0 = g.socket_locations@;
    let ghost reuse0 = sharing_of(sock.state);
    let mut reuse = match sock.state {
        SocketState::Unassociated(u) => u.reuse_port,
        SocketState::Connectionless(c) => c.reuse_port,
        _ => false,
    };
    let mut i: usize = 0;
    while i < candidates.len()
        invariant
            g.socket_locations.wf(),
            *g == *old(g),
            locs0 == old(g).socket_locations@,
            old(g).sockets@[id as int].local_addr is Ephemeral,
            reuse0 == sharing_of(old(g).sockets@[id as int].state),
            i <= candidates@.len(),
            first_fit(locs0, candidates@, 0, reuse0) == first_fit(locs0, candidates@, i as int, reuse),
        decreases candidates@.len() - i,
    {
        let t = candidates[i];
        let ghost reuse_in = reuse;
        let unnamed = match t.sockaddr {
            SockAddr::UnixUnnamed => true,
            _ => false,
        };
        if unnamed {
            reuse = true;
        }
        let wildcard_taken = match t.wildcard() {
            Some(w) => match g.socket_locations.lookup(&w) {
                Some((w_reuse, w_empty)) => !w_reuse || !reuse || !w_empty,
                None => false,
            },
            None => false,
        };
        match g.socket_locations.lookup(&t) {
            None => {
                g.socket_locations.bind(t, id, reuse);
                assert(g.socket_locations@ =~= ephemeral_bind(locs0, t, id, reuse));
                return Some(t);
            },
            Some((loc_reuse, loc_empty)) => {
                if (reuse && loc_reuse) || (!wildcard_taken && loc_empty) {
                    g.socket_locations.bind(t, id, loc_reuse || reuse);
                    assert(g.socket_locations@ =~= ephemeral_bind(locs0, t, id, reuse));
                    return Some(t);
                }
                assert(first_fit(locs0, candidates@, i as int, reuse_in) == first_fit(locs0, candidates@, i + 1, reuse));
            },
        }
        i = i + 1;
    }
    None
}

impl GlobalState {
    /// Hands out the next ephemeral port.
    pub fn next_ephemeral_port(&mut self) -> (r: u16)
        requires
            old(self).next_ephemeral_port < old(self).ephemeral_port_end,
        ensures
            r == old(self).next_ephemeral_port,
            *final(self) == (GlobalState { next_ephemeral_port: (r + 1) as u16, ..*old(self) }),
    {
        let port = self.next_ephemeral_port;
        self.next_ephemeral_port += 1;
        port
    }
}

/// What `bind` of descriptor `fd` to `addr` returns, and the global state `fg` it leaves
/// (see `SocketBindEvent::run`).
pub open spec fn bind_outcome(
    fds: Map<int, DescriptorInfo>,
    fd: i32,
    addr: Option<SockAddr>,
    g: GlobalState,
    host_ret: i32,
    errno: Errno,
    r: Outcome<(), Errno>,
    fg: GlobalState,
) -> bool {
    if !fds.contains_key(fd as int) {
        r == Outcome::<(), Errno>::Error(Errno::EBADF) && fg == g
    } else if fds[fd as int].is_passthrough {
        r == (if host_ret < 0 {
            Outcome::<(), Errno>::Error(errno)
        } else {
            Outcome::<(), Errno>::Success(())
        }) && fg == g
    } else if fd_socket(fds, fd) is None {
        r == Outcome::<(), Errno>::Error(Errno::ENOTSOCK) && fg == g
    } else if addr is None {
        r == Outcome::<(), Errno>::Error(Errno::EINVAL) && fg == g
    } else {
        let id = fd_socket(fds, fd)->Some_0;
        let sock = g.sockets@[id as int];
        let a0 = addr->Some_0;
        let a = if wants_port(a0) { with_port(a0, g.next_ephemeral_port) } else { a0 };
        let next = if wants_port(a0) { (g.next_ephemeral_port + 1) as u16 } else { g.next_ephemeral_port };
        let t = TransportAddress { sockaddr: a, protocol: sock.protocol };
        let reuse = unbound_reuse_port(sock.state)->Some_0;
        &&& fg.next_ephemeral_port == next
        &&& if !(sock.local_addr is Ephemeral) || sock.state is Server || sock.state is Connecting
            || sock.state is Connected {
            r == Outcome::<(), Errno>::Error(Errno::EINVAL) && fg == (GlobalState {
                next_ephemeral_port: next,
                ..g
            })
        } else if !bind_allowed(g.socket_locations@, t, reuse) {
            r == Outcome::<(), Errno>::Error(Errno::EADDRINUSE) && fg == (GlobalState {
                next_ephemeral_port: next,
                ..g
            })
        } else {
            &&& r == Outcome::<(), Errno>::Success(())
            &&& fg.socket_locations@ == g.socket_locations@.insert(
                t,
                if g.socket_locations@.contains_key(t) {
                    LocationView {
                        reuse_port: reuse,
                        bound_sockets: g.socket_locations@[t].bound_sockets.push(id),
                        pending: g.socket_locations@[t].pending,
                    }
                } else {
                    LocationView { reuse_port: reuse, bound_sockets: seq![id], pending: Seq::empty() }
                },
            )
            &&& fg.sockets@ == g.sockets@.insert(
                id as int,
                SocketInfo { local_addr: LocalAddress::Assigned(a), ..sock },
            )
            &&& fg == (GlobalState {
                next_ephemeral_port: next,
                socket_locations: fg.socket_locations,
                sockets: fg.sockets,
                ..g
            })
        }
    }
}

/// `socket`.
pub struct SocketCreateEvent {
    pub domain: AddressFamily,
    pub socket_type: SocketType,
    pub protocol: TransportProtocol,
    pub nonblocking: bool,
    pub cloexec: bool,
}

impl SocketCreateEvent {
    /// Creates a socket, referenced by descriptor `fd` (which the host handed out): a
    /// stream or sequenced-packet socket starts unassociated, a datagram or netlink raw
    /// socket connectionless; netlink sockets are passed through to the host. The socket
    /// gets the next socket identifier, and `fd` is returned.
    pub fn run(&mut self, state: &mut FizzleState, fd: i32) -> (r: Outcome<i32, ()>)
        requires
            old(state).wf(),
            old(self).socket_type == SocketType::Raw ==> old(self).domain == AddressFamily::Netlink,
            old(state).global.next_socket_id < i64::MAX,
        ensures
            *final(self) == *old(self),
            final(state).wf(),
            r == Outcome::<i32, ()>::Success(fd),
            ({
                let g = old(state).global;
                let id = g.next_socket_id;
                let ev = *old(self);
                &&& final(state).global.sockets@ == g.sockets@.insert(
                    id as int,
                    SocketInfo {
                        fd_count: 1,
                        socktype: ev.socket_type,
                        protocol: ev.protocol,
                        local_addr: LocalAddress::Ephemeral(ev.domain),
                        options: SocketOptions { tcp_user_timeout: None },
                        state: if ev.socket_type == SocketType::Stream || ev.socket_type == SocketType::SeqPacket {
                            SocketState::Unassociated(UnassociatedSocket { reuse_port: false })
                        } else {
                            SocketState::Connectionless(ConnectionlessSocket { rem_addr: None, reuse_port: false })
                        },
                    },
                )
                &&& final(state).global.endpoints@ == if ev.socket_type == SocketType::Datagram {
                    g.endpoints@.insert(id as int, final(state).global.endpoints@[id as int])
                } else {
                    g.endpoints@
                }
                &&& (ev.socket_type == SocketType::Datagram ==> (final(state).global.endpoints@[id as int] matches Endpoint::Datagrams(q)
                    && q.recv@.len() == 0 && !q.read_raised && !q.write_raised))
                &&& final(state).global == (GlobalState {
                    sockets: final(state).global.sockets,
                    endpoints: final(state).global.endpoints,
                    next_socket_id: (id + 1) as i64,
                    ..g
                })
                &&& final(state).local.fds@ == old(state).local.fds@.insert(
                    fd as int,
                    DescriptorInfo {
                        close_on_exec: ev.cloexec,
                        nonblocking: ev.nonblocking,
                        is_passthrough: ev.domain == AddressFamily::Netlink,
                        is_random: false,
                        resource: FdResource::Socket(id),
                    },
                )
                &&& final(state).local == (LocalState { fds: final(state).local.fds, ..old(state).local })
            }),
    {
        let id = state.global.next_socket_id;
        state.global.next_socket_id = id + 1;
        let sock_state = match self.socket_type {
            SocketType::SeqPacket | SocketType::Stream => SocketState::Unassociated(
                UnassociatedSocket { reuse_port: false },
            ),
            _ => SocketState::Connectionless(ConnectionlessSocket { rem_addr: None, reuse_port: false }),
        };
        let info = SocketInfo {
            fd_count: 1,
            socktype: self.socket_type,
            protocol: self.protocol,
            local_addr: LocalAddress::Ephemeral(self.domain),
            options: SocketOptions::default(),
            state: sock_state,
        };
        state.global.sockets.insert(id as i128, info);
        if self.socket_type == SocketType::Datagram {
            state.global.endpoints.insert(id as i128, Endpoint::Datagrams(DatagramQueue::new()));
        }
        state.local.fds.insert(
            fd as i128,
            DescriptorInfo {
                close_on_exec: self.cloexec,
                nonblocking: self.nonblocking,
                is_passthrough: self.domain == AddressFamily::Netlink,
                is_random: false,
                resource: FdResource::Socket(id),
            },
        );
        Outcome::Success(fd)
    }
}

/// A netlink socket opened on the host as descriptor `fd`.
pub struct NetlinkCreateEvent {
    pub fd: i32,
}

impl NetlinkCreateEvent {
    /// Records `fd` as a descriptor passed through to the host.
    pub fn run(&mut self, state: &mut FizzleState) -> (r: Outcome<(), ()>)
        requires
            old(state).wf(),
        ensures
            *final(self) == *old(self),
            final(state).wf(),
            r == Outcome::<(), ()>::Success(()),
            final(state).global == old(state).global,
            final(state).local.fds@ == old(state).local.fds@.insert(
                old(self).fd as int,
                DescriptorInfo {
                    close_on_exec: false,
                    nonblocking: false,
                    is_passthrough: true,
                    is_random: false,
                    resource: FdResource::Other,
                },
            ),
            final(state).local == (LocalState { fds: final(state).local.fds, ..old(state).local }),
    {
        state.local.fds.insert(
            self.fd as i128,
            DescriptorInfo {
                close_on_exec: false,
                nonblocking: false,
                is_passthrough: true,
                is_random: false,
                resource: FdResource::Other,
            },
        );
        Outcome::Success(())
    }
}

/// `bind`.
pub struct SocketBindEvent {
    pub descriptor_id: i32,
    /// The address to bind to; `None` when the caller's bytes do not decode to one.
    pub addr: Option<SockAddr>,
}

impl SocketBindEvent {
    /// A bind to the address that the caller's `sockaddr` bytes hold, read in the machine's
    /// byte order.
    pub fn new(descriptor_id: i32, addr_bytes: &[u8]) -> (r: Self)
        ensures
            r.descriptor_id == descriptor_id,
            r.addr == sockaddr_from_bytes(addr_bytes@, true) || r.addr == sockaddr_from_bytes(addr_bytes@, false),
    {
        Self { descriptor_id, addr: SockAddr::decode(addr_bytes) }
    }

    /// A bind to an address already read.
    pub fn with_addr(descriptor_id: i32, addr: Option<SockAddr>) -> (r: Self)
        ensures
            r.descriptor_id == descriptor_id,
            r.addr == addr,
    {
        Self { descriptor_id, addr }
    }

    /// Binds the socket of the descriptor to the address: an IP address with port 0 gets
    /// the next ephemeral port first. Fails with `EBADF` for an unknown descriptor,
    /// `ENOTSOCK` when it is no socket, `EINVAL` for an undecodable address or a socket
    /// that is already bound, listening or connected, and `EADDRINUSE` when the address is
    /// taken. A passthrough descriptor is bound by the host, which returned `host_ret`
    /// (failure, reported as `errno`, when negative).
    pub fn run(&mut self, state: &mut FizzleState, host_ret: i32, errno: Errno) -> (r: Outcome<(), Errno>)
        requires
            old(state).wf(),
            fd_socket(old(state).local.fds@, old(self).descriptor_id) matches Some(id) ==> {
                &&& !old(state).local.fds@[old(self).descriptor_id as int].is_passthrough ==> {
                    &&& old(state).global.sockets@.contains_key(id as int)
                    &&& (old(self).addr matches Some(a) && wants_port(a) ==> old(state).global.next_ephemeral_port
                        < old(state).global.ephemeral_port_end)
                    &&& !(old(state).global.sockets@[id as int].state is PendingConnection)
                }
            },
        ensures
            final(state).wf(),
            final(state).local == old(state).local,
            *final(self) == *old(self),
            bind_outcome(
                old(state).local.fds@,
                old(self).descriptor_id,
                old(self).addr,
                old(state).global,
                host_ret,
                errno,
                r,
                final(state).global,
            ),
    {
        let fd_info = match state.local.fds.get(self.descriptor_id as i128) {
            Some(d) => *d,
            None => return Outcome::Error(Errno::EBADF),
        };
        if fd_info.is_passthrough {
            return if host_ret < 0 {
                Outcome::Error(errno)
            } else {
                Outcome::Success(())
            };
        }
        let id = match fd_info.resource {
            FdResource::Socket(id) => id,
            _ => return Outcome::Error(Errno::ENOTSOCK),
        };
        let mut sockaddr = match self.addr {
            Some(a) => a,
            None => return Outcome::Error(Errno::EINVAL),
        };
        let sock = match state.global.sockets.get(id as i128) {
            Some(s) => *s,
            None => {
                assert(false);
                return Outcome::Error(Errno::EBADF);
            },
        };
        // If port is 0, bind to an ephemerally-chosen port
        match sockaddr {
            SockAddr::Ipv4 { addr, port } => if port == 0 {
                let p = state.global.next_ephemeral_port();
                sockaddr = SockAddr::Ipv4 { addr, port: p };
            },
            SockAddr::Ipv6 { addr, port, flowinfo, scope_id } => if port == 0 {
                let p = state.global.next_ephemeral_port();
                sockaddr = SockAddr::Ipv6 { addr, port: p, flowinfo, scope_id };
            },
            SockAddr::UnixUnnamed => {},
        }
        let transport_addr = TransportAddress { sockaddr, protocol: sock.protocol };
        match sock.local_addr {
            LocalAddress::Ephemeral(_) => {},
            _ => return Outcome::Error(Errno::EINVAL),
        }
        match sock.state {
            SocketState::Server | SocketState::Connecting | SocketState::Connected(_) => {
                return Outcome::Error(Errno::EINVAL);
            },
            _ => {},
        }
        let reuse_port = match sock.state {
            SocketState::Unassociated(u) => u.reuse_port,
            SocketState::Connectionless(c) => c.reuse_port,
            _ => {
                assert(false);
                false
            },
        };
        let wildcard_bound = match transport_addr.wildcard() {
            Some(wildcard) => match state.global.socket_locations.lookup(&wildcard) {
                Some((w_reuse, w_empty)) => !(w_reuse && reuse_port) && !w_empty,
                None => false,
            },
            None => false,
        };
        match state.global.socket_locations.lookup(&transport_addr) {
            Some((loc_reuse, loc_empty)) => {
                if !((reuse_port && loc_reuse) || (!wildcard_bound && loc_empty)) {
                    return Outcome::Error(Errno::EADDRINUSE);
                }
            },
            None => {},
        }
        state.global.socket_locations.bind(transport_addr, id, reuse_port);
        state.global.sockets.insert(id as i128, SocketInfo { local_addr: LocalAddress::Assigned(sockaddr), ..sock });
        Outcome::Success(())
    }
}


/// Exclusive binding: once a socket is bound to an address with an explicit port, a bind
/// of another unbound socket to the same address fails with `EADDRINUSE` unless both
/// sockets share the port.
pub proof fn lemma_bind_conflict(
    fds: Map<int, DescriptorInfo>,
    fd1: i32,
    fd2: i32,
    a: SockAddr,
    g0: GlobalState,
    r1: Outcome<(), Errno>,
    g1: GlobalState,
    r2: Outcome<(), Errno>,
    g2: GlobalState,
    host_ret: i32,
    errno: Errno,
)
    requires
        !wants_port(a),
        fd_socket(fds, fd1) is Some,
        fd_socket(fds, fd2) is Some,
        fd_socket(fds, fd1) != fd_socket(fds, fd2),
        !fds[fd1 as int].is_passthrough,
        !fds[fd2 as int].is_passthrough,
        g0.sockets@.contains_key(fd_socket(fds, fd2)->Some_0 as int),
        g0.sockets@[fd_socket(fds, fd2)->Some_0 as int].local_addr is Ephemeral,
        !(g0.sockets@[fd_socket(fds, fd1)->Some_0 as int].state is PendingConnection),
        unbound_reuse_port(g0.sockets@[fd_socket(fds, fd2)->Some_0 as int].state) is Some,
        !(unbound_reuse_port(g0.sockets@[fd_socket(fds, fd1)->Some_0 as int].state) == Some(true)
            && unbound_reuse_port(g0.sockets@[fd_socket(fds, fd2)->Some_0 as int].state) == Some(true)),
        g0.sockets@[fd_socket(fds, fd2)->Some_0 as int].protocol == g0.sockets@[fd_socket(
            fds,
            fd1,
        )->Some_0 as int].protocol,
        bind_outcome(fds, fd1, Some(a), g0, host_ret, errno, r1, g1),
        r1 == Outcome::<(), Errno>::Success(()),
        bind_outcome(fds, fd2, Some(a), g1, host_ret, errno, r2, g2),
    ensures
        r2 == Outcome::<(), Errno>::Error(Errno::EADDRINUSE),
{
    let id1 = fd_socket(fds, fd1)->Some_0;
    let id2 = fd_socket(fds, fd2)->Some_0;
    let t = TransportAddress { sockaddr: a, protocol: g0.sockets@[id1 as int].protocol };
    let sock2 = g1.sockets@[id2 as int];
    assert(unbound_reuse_port(g0.sockets@[id1 as int].state) is Some);
    assert(sock2 == g0.sockets@[id2 as int]);
    assert(g1.socket_locations@.contains_key(t));
    assert(g1.socket_locations@[t].bound_sockets.len() > 0);
    assert(g1.socket_locations@[t].reuse_port == unbound_reuse_port(g0.sockets@[id1 as int].state)->Some_0);
    let t2 = TransportAddress { sockaddr: a, protocol: sock2.protocol };
    assert(t2 == t);
    assert(!bind_allowed(g1.socket_locations@, t, unbound_reuse_port(sock2.state)->Some_0));
}

/// Binding with an explicit port binds there: after a successful bind of a socket to an
/// address whose port is not 0, the socket's own address is that address and the socket
/// is the last one bound there.
pub proof fn lemma_bind_assigns(
    fds: Map<int, DescriptorInfo>,
    fd: i32,
    a: SockAddr,
    g: GlobalState,
    host_ret: i32,
    errno: Errno,
    r: Outcome<(), Errno>,
    fg: GlobalState,
)
    requires
        !wants_port(a),
        fd_socket(fds, fd) is Some,
        !fds[fd as int].is_passthrough,
        bind_outcome(fds, fd, Some(a), g, host_ret, errno, r, fg),
        r == Outcome::<(), Errno>::Success(()),
    ensures
        fg.sockets@[fd_socket(fds, fd)->Some_0 as int].local_addr == LocalAddress::Assigned(a),
        ({
            let t = TransportAddress { sockaddr: a, protocol: g.sockets@[fd_socket(fds, fd)->Some_0 as int].protocol };
            &&& fg.socket_locations@.contains_key(t)
            &&& fg.socket_locations@[t].bound_sockets.last() == fd_socket(fds, fd)->Some_0
        }),
{
}

impl LocationTable {
    /// Sets whether the port at `a` (which is bound) may be shared.
    pub fn set_reuse_port(&mut self, a: &TransportAddress, reuse_port: bool)
        requires
            old(self).wf(),
            old(self)@.contains_key(*a),
        ensures
            final(self).wf(),
            final(self)@ == old(self)@.insert(*a, LocationView { reuse_port, ..old(self)@[*a] }),
    {
        let ghost old_entries = self.entries@;
        let i = match self.find(a) {
            Some(i) => i,
            None => {
                assert(false);
                return;
            },
        };
        let (addr, mut info) = self.entries.remove(i);
        info.reuse_port = reuse_port;
        self.entries.insert(i, (addr, info));
        proof {
            assert forall|x: int| 0 <= x < self.entries@.len() implies #[trigger] self.entries@[x].0 == old_entries[x].0 by {}
            assert forall|x: int, y: int|
                0 <= x < y < self.entries@.len() implies #[trigger] self.entries@[x].0 != #[trigger] self.entries@[y].0 by {
                assert(self.entries@[x].0 == old_entries[x].0);
                assert(self.entries@[y].0 == old_entries[y].0);
            }
            assert forall|b: TransportAddress| #[trigger] old(self)@.contains_key(b) implies self@.contains_key(b) by {
                let k0 = choose|k: int| 0 <= k < old_entries.len() && #[trigger] old_entries[k].0 == b;
                assert(self.entries@[k0].0 == b);
            }
            assert forall|b: TransportAddress| #[trigger] self@.contains_key(b) implies old(self)@.contains_key(b) by {
                let k = choose|k: int| 0 <= k < self.entries@.len() && #[trigger] self.entries@[k].0 == b;
                assert(old_entries[k].0 == b);
            }
            assert forall|b: TransportAddress| #[trigger] self@.contains_key(b) implies self@[b]
                == old(self)@.insert(*a, LocationView { reuse_port, ..old(self)@[*a] })[b] by {
                let k = choose|k: int| 0 <= k < self.entries@.len() && #[trigger] self.entries@[k].0 == b;
                let k0 = choose|k: int| 0 <= k < old_entries.len() && #[trigger] old_entries[k].0 == b;
                assert(old_entries[k].0 == b);
                assert(k == k0);
                if b == *a {
                    assert(k == i);
                }
            }
            assert(self@ =~= old(self)@.insert(*a, LocationView { reuse_port, ..old(self)@[*a] }));
        }
    }
}

/// The waiting sockets once the first, if any, is taken.
pub open spec fn rest_pending(p: Seq<i64>) -> Seq<i64> {
    if p.len() > 0 {
        p.drop_first()
    } else {
        p
    }
}

impl LocationTable {
    /// Takes the sockets waiting at `a` (which is bound) for a listener, leaving none.
    pub fn take_pending(&mut self, a: &TransportAddress) -> (r: Vec<i64>)
        requires
            old(self).wf(),
            old(self)@.contains_key(*a),
        ensures
            final(self).wf(),
            r@ == old(self)@[*a].pending,
            final(self)@ == old(self)@.insert(*a, LocationView { pending: Seq::empty(), ..old(self)@[*a] }),
    {
        let ghost old_entries = self.entries@;
        let i = match self.find(a) {
            Some(i) => i,
            None => {
                assert(false);
                return Vec::new();
            },
        };
        let (addr, mut info) = self.entries.remove(i);
        let pending = info.pending;
        info.pending = Vec::new();
        self.entries.insert(i, (addr, info));
        proof {
            assert forall|x: int| 0 <= x < self.entries@.len() implies #[trigger] self.entries@[x].0 == old_entries[x].0 by {}
            assert forall|x: int, y: int|
                0 <= x < y < self.entries@.len() implies #[trigger] self.entries@[x].0 != #[trigger] self.entries@[y].0 by {
                assert(self.entries@[x].0 == old_entries[x].0);
                assert(self.entries@[y].0 == old_entries[y].0);
            }
            assert forall|b: TransportAddress| #[trigger] old(self)@.contains_key(b) implies self@.contains_key(b) by {
                let k0 = choose|k: int| 0 <= k < old_entries.len() && #[trigger] old_entries[k].0 == b;
                assert(self.entries@[k0].0 == b);
            }
            assert forall|b: TransportAddress| #[trigger] self@.contains_key(b) implies old(self)@.contains_key(b) by {
                let k = choose|k: int| 0 <= k < self.entries@.len() && #[trigger] self.entries@[k].0 == b;
                assert(old_entries[k].0 == b);
            }
            assert forall|b: TransportAddress| #[trigger] self@.contains_key(b) implies self@[b]
                == old(self)@.insert(*a, LocationView { pending: Seq::empty(), ..old(self)@[*a] })[b] by {
                let k = choose|k: int| 0 <= k < self.entries@.len() && #[trigger] self.entries@[k].0 == b;
                let k0 = choose|k: int| 0 <= k < old_entries.len() && #[trigger] old_entries[k].0 == b;
                assert(old_entries[k].0 == b);
                assert(k == k0);
                if b == *a {
                    assert(k == i);
                    assert(self.entries@[k].1.pending@ =~= Seq::<i64>::empty());
                }
            }
            assert(self@ =~= old(self)@.insert(*a, LocationView { pending: Seq::empty(), ..old(self)@[*a] }));
        }
        pending
    }

    /// Takes the first socket waiting at `a` (which is bound) for a listener, if any.
    pub fn pop_pending(&mut self, a: &TransportAddress) -> (r: (Option<i64>, usize))
        requires
            old(self).wf(),
            old(self)@.contains_key(*a),
        ensures
            final(self).wf(),
            r.0 == (if old(self)@[*a].pending.len() > 0 { Some(old(self)@[*a].pending[0]) } else { None }),
            r.1 == rest_pending(old(self)@[*a].pending).len(),
            final(self)@ == old(self)@.insert(
                *a,
                LocationView { pending: rest_pending(old(self)@[*a].pending), ..old(self)@[*a] },
            ),
    {
        let ghost old_entries = self.entries@;
        let i = match self.find(a) {
            Some(i) => i,
            None => {
                assert(false);
                return (None, 0);
            },
        };
        let (addr, mut info) = self.entries.remove(i);
        let ghost p0 = info.pending@;
        let first = if info.pending.len() > 0 {
            Some(info.pending.remove(0))
        } else {
            None
        };
        let left = info.pending.len();
        self.entries.insert(i, (addr, info));
        proof {
            assert forall|x: int| 0 <= x < self.entries@.len() implies #[trigger] self.entries@[x].0 == old_entries[x].0 by {}
            assert forall|x: int, y: int|
                0 <= x < y < self.entries@.len() implies #[trigger] self.entries@[x].0 != #[trigger] self.entries@[y].0 by {
                assert(self.entries@[x].0 == old_entries[x].0);
                assert(self.entries@[y].0 == old_entries[y].0);
            }
            assert forall|b: TransportAddress| #[trigger] old(self)@.contains_key(b) implies self@.contains_key(b) by {
                let k0 = choose|k: int| 0 <= k < old_entries.len() && #[trigger] old_entries[k].0 == b;
                assert(self.entries@[k0].0 == b);
            }
            assert forall|b: TransportAddress| #[trigger] self@.contains_key(b) implies old(self)@.contains_key(b) by {
                let k = choose|k: int| 0 <= k < self.entries@.len() && #[trigger] self.entries@[k].0 == b;
                assert(old_entries[k].0 == b);
            }
            assert forall|b: TransportAddress| #[trigger] self@.contains_key(b) implies self@[b]
                == old(self)@.insert(*a, LocationView { pending: rest_pending(p0), ..old(self)@[*a] })[b] by {
                let k = choose|k: int| 0 <= k < self.entries@.len() && #[trigger] self.entries@[k].0 == b;
                let k0 = choose|k: int| 0 <= k < old_entries.len() && #[trigger] old_entries[k].0 == b;
                assert(old_entries[k].0 == b);
                assert(k == k0);
                if b == *a {
                    assert(k == i);
                    assert(self.entries@[k].1.pending@ =~= rest_pending(p0));
                }
            }
            assert(self@ =~= old(self)@.insert(*a, LocationView { pending: rest_pending(p0), ..old(self)@[*a] }));
        }
        (first, left)
    }

    /// Makes socket `sock` wait at `a` (which is bound) for a listener, after those already
    /// waiting.
    pub fn push_pending(&mut self, a: &TransportAddress, sock: i64)
        requires
            old(self).wf(),
            old(self)@.contains_key(*a),
        ensures
            final(self).wf(),
            final(self)@ == old(self)@.insert(
                *a,
                LocationView { pending: old(self)@[*a].pending.push(sock), ..old(self)@[*a] },
            ),
    {
        let ghost old_entries = self.entries@;
        let i = match self.find(a) {
            Some(i) => i,
            None => {
                assert(false);
                return;
            },
        };
        let (addr, mut info) = self.entries.remove(i);
        let ghost p0 = info.pending@;
        info.pending.push(sock);
        self.entries.insert(i, (addr, info));
        proof {
            assert forall|x: int| 0 <= x < self.entries@.len() implies #[trigger] self.entries@[x].0 == old_entries[x].0 by {}
            assert forall|x: int, y: int|
                0 <= x < y < self.entries@.len() implies #[trigger] self.entries@[x].0 != #[trigger] self.entries@[y].0 by {
                assert(self.entries@[x].0 == old_entries[x].0);
                assert(self.entries@[y].0 == old_entries[y].0);
            }
            assert forall|b: TransportAddress| #[trigger] old(self)@.contains_key(b) implies self@.contains_key(b) by {
                let k0 = choose|k: int| 0 <= k < old_entries.len() && #[trigger] old_entries[k].0 == b;
                assert(self.entries@[k0].0 == b);
            }
            assert forall|b: TransportAddress| #[trigger] self@.contains_key(b) implies old(self)@.contains_key(b) by {
                let k = choose|k: int| 0 <= k < self.entries@.len() && #[trigger] self.entries@[k].0 == b;
                assert(old_entries[k].0 == b);
            }
            assert forall|b: TransportAddress| #[trigger] self@.contains_key(b) implies self@[b]
                == old(self)@.insert(*a, LocationView { pending: p0.push(sock), ..old(self)@[*a] })[b] by {
                let k = choose|k: int| 0 <= k < self.entries@.len() && #[trigger] self.entries@[k].0 == b;
                let k0 = choose|k: int| 0 <= k < old_entries.len() && #[trigger] old_entries[k].0 == b;
                assert(old_entries[k].0 == b);
                assert(k == k0);
                if b == *a {
                    assert(k == i);
                    assert(self.entries@[k].1.pending@ =~= p0.push(sock));
                }
            }
            assert(self@ =~= old(self)@.insert(*a, LocationView { pending: p0.push(sock), ..old(self)@[*a] }));
        }
    }
}

impl LocationTable {
    /// Replaces the sockets bound at `a` (which is bound) with `bound`; returns the old ones.
    pub fn swap_bound(&mut self, a: &TransportAddress, bound: Vec<i64>) -> (r: Vec<i64>)
        requires
            old(self).wf(),
            old(self)@.contains_key(*a),
        ensures
            final(self).wf(),
            r@ == old(self)@[*a].bound_sockets,
            final(self)@ == old(self)@.insert(*a, LocationView { bound_sockets: bound@, ..old(self)@[*a] }),
    {
        let ghost old_entries = self.entries@;
        let ghost nb = bound@;
        let i = match self.find(a) {
            Some(i) => i,
            None => {
                assert(false);
                return Vec::new();
            },
        };
        let (addr, mut info) = self.entries.remove(i);
        let prev = info.bound_sockets;
        info.bound_sockets = bound;
        self.entries.insert(i, (addr, info));
        proof {
            assert forall|x: int| 0 <= x < self.entries@.len() implies #[trigger] self.entries@[x].0 == old_entries[x].0 by {}
            assert forall|x: int, y: int|
                0 <= x < y < self.entries@.len() implies #[trigger] self.entries@[x].0 != #[trigger] self.entries@[y].0 by {
                assert(self.entries@[x].0 == old_entries[x].0);
                assert(self.entries@[y].0 == old_entries[y].0);
            }
            assert forall|b: TransportAddress| #[trigger] old(self)@.contains_key(b) implies self@.contains_key(b) by {
                let k0 = choose|k: int| 0 <= k < old_entries.len() && #[trigger] old_entries[k].0 == b;
                assert(self.entries@[k0].0 == b);
            }
            assert forall|b: TransportAddress| #[trigger] self@.contains_key(b) implies old(self)@.contains_key(b) by {
                let k = choose|k: int| 0 <= k < self.entries@.len() && #[trigger] self.entries@[k].0 == b;
                assert(old_entries[k].0 == b);
            }
            assert forall|b: TransportAddress| #[trigger] self@.contains_key(b) implies self@[b]
                == old(self)@.insert(*a, LocationView { bound_sockets: nb, ..old(self)@[*a] })[b] by {
                let k = choose|k: int| 0 <= k < self.entries@.len() && #[trigger] self.entries@[k].0 == b;
                let k0 = choose|k: int| 0 <= k < old_entries.len() && #[trigger] old_entries[k].0 == b;
                assert(old_entries[k].0 == b);
                assert(k == k0);
                if b == *a {
                    assert(k == i);
                }
            }
            assert(self@ =~= old(self)@.insert(*a, LocationView { bound_sockets: nb, ..old(self)@[*a] }));
        }
        prev
    }

    /// Takes the next socket bound at `a` in turn, if any: the front one, which moves to
    /// the back.
    pub fn next_bound_at(&mut self, a: &TransportAddress) -> (r: Option<i64>)
        requires
            old(self).wf(),
        ensures
            final(self).wf(),
            (r, final(self)@) == next_bound_spec(old(self)@, *a),
    {
        match self.find(a) {
            None => None,
            Some(_) => {
                let mut bound = self.swap_bound(a, Vec::new());
                if bound.len() == 0 {
                    self.swap_bound(a, bound);
                    proof {
                        assert(self@ =~= old(self)@);
                    }
                    None
                } else {
                    let ghost b0 = bound@;
                    let front = bound.remove(0);
                    bound.push(front);
                    self.swap_bound(a, bound);
                    proof {
                        assert(self@ =~= old(self)@.insert(
                            *a,
                            LocationView {
                                bound_sockets: b0.drop_first().push(front),
                                ..old(self)@[*a]
                            },
                        ));
                    }
                    Some(front)
                }
            },
        }
    }
}

impl LocationTable {
    /// The first socket bound at `a`, if any.
    pub fn front_of(&self, a: &TransportAddress) -> (r: Option<i64>)
        requires
            self.wf(),
        ensures
            r == (if self@.contains_key(*a) && self@[*a].bound_sockets.len() > 0 {
                Some(self@[*a].bound_sockets[0])
            } else {
                None
            }),
    {
        match self.find(a) {
            Some(i) => if self.entries[i].1.bound_sockets.len() > 0 {
                Some(self.entries[i].1.bound_sockets[0])
            } else {
                None
            },
            None => None,
        }
    }
}

impl LocationTable {
    /// Binds socket `sock` alone at `a`, replacing whatever was bound there.
    pub fn put_single(&mut self, a: TransportAddress, sock: i64, reuse_port: bool)
        requires
            old(self).wf(),
        ensures
            final(self).wf(),
            final(self)@ == old(self)@.insert(
                a,
                LocationView { reuse_port, bound_sockets: seq![sock], pending: Seq::empty() },
            ),
    {
        if self.find(&a).is_some() {
            let mut one: Vec<i64> = Vec::new();
            one.push(sock);
            self.swap_bound(&a, one);
            self.set_reuse_port(&a, reuse_port);
            let _ = self.take_pending(&a);
            proof {
                assert(self@ =~= old(self)@.insert(
                    a,
                    LocationView { reuse_port, bound_sockets: seq![sock], pending: Seq::empty() },
                ));
            }
        } else {
            self.bind(a, sock, reuse_port);
        }
    }
}

/// The next socket bound at `a` in turn, and the table with it moved to the back.
pub open spec fn next_bound_spec(
    locs: Map<TransportAddress, LocationView>,
    a: TransportAddress,
) -> (Option<i64>, Map<TransportAddress, LocationView>) {
    if locs.contains_key(a) && locs[a].bound_sockets.len() > 0 {
        let b = locs[a].bound_sockets;
        (Some(b[0]), locs.insert(a, LocationView { bound_sockets: b.drop_first().push(b[0]), ..locs[a] }))
    } else {
        (None, locs)
    }
}

/// What serves the connections made to a listening socket: the emulator's own sockets
/// (connections are queued for `accept`), or an emulated connection (see `Endpoint`):
/// then each connection gets a new endpoint of the backend's kind (see `served_endpoint`),
/// and the listener keeps listening.
#[derive(Clone, Copy, Debug, PartialEq, Eq, Structural)]
pub enum ServerBackend {
    Peered,
    Sink,
    NullSink,
    Fuzz(FuzzEndpoint),
    Plugin,
    Feedback,
}

/// The connection queue of a listening socket: the sockets that asked to connect, in
/// order, whether the socket shows as ready to accept, and what serves its connections.
pub struct ServerSocket {
    pub connecting: Vec<i64>,
    pub ready: bool,
    pub backend: ServerBackend,
}

/// `listen`.
pub struct SocketListenEvent {
    pub descriptor_id: i32,
    /// The requested backlog, which the emulator does not use.
    pub backlog: i32,
}

impl SocketListenEvent {
    pub fn new(descriptor_id: i32, backlog: i32) -> (r: Self)
        ensures
            r.descriptor_id == descriptor_id,
            r.backlog == backlog,
    {
        Self { descriptor_id, backlog }
    }

    /// Makes the socket of the descriptor a listening socket at its address: its own, or,
    /// for a socket without one, the first of the ephemeral addresses `candidates` that it
    /// can take, which becomes its own. The connection queue takes the sockets waiting at
    /// the address (and shows ready when there are any). Fails with `EBADF` for an unknown
    /// descriptor, `ENOTSOCK` for one that is no socket, and `EINVAL` for a socket that is
    /// connected or already listening (an ephemeral address is registered all the same).
    ///
    /// A socket without an address needs a candidate it can take (the emulator otherwise
    /// keeps drawing new ones), and a bound one an address with an entry in the table.
    pub fn run(&mut self, state: &mut FizzleState, candidates: &Vec<TransportAddress>) -> (r: Outcome<(), Errno>)
        requires
            old(state).wf(),
            fd_socket(old(state).local.fds@, old(self).descriptor_id) matches Some(id) ==> {
                let g = old(state).global;
                let (t, locs1) = local_for(g, id, candidates@);
                &&& g.sockets@.contains_key(id as int)
                &&& ephemeral_candidates(g.sockets@[id as int], candidates@)
                &&& t is Some
                &&& (g.sockets@[id as int].state is Unassociated ==> locs1.contains_key(t->Some_0))
            },
        ensures
            *final(self) == *old(self),
            final(state).wf(),
            final(state).local == old(state).local,
            ({
                let fds = old(state).local.fds@;
                let fd = old(self).descriptor_id;
                let g = old(state).global;
                let fg = final(state).global;
                if !fds.contains_key(fd as int) {
                    r == Outcome::<(), Errno>::Error(Errno::EBADF) && fg == g
                } else if fd_socket(fds, fd) is None {
                    r == Outcome::<(), Errno>::Error(Errno::ENOTSOCK) && fg == g
                } else {
                    let id = fd_socket(fds, fd)->Some_0;
                    let sock = g.sockets@[id as int];
                    let (t0, locs1) = local_for(g, id, candidates@);
                    let t = t0->Some_0;
                    let pending = locs1[t].pending;
                    if !(sock.state is Unassociated) {
                        &&& r == Outcome::<(), Errno>::Error(Errno::EINVAL)
                        &&& fg.socket_locations@ == locs1
                        &&& fg == (GlobalState { socket_locations: fg.socket_locations, ..g })
                    } else {
                        &&& r == Outcome::<(), Errno>::Success(())
                        &&& fg.sockets@ == g.sockets@.insert(
                            id as int,
                            SocketInfo { local_addr: LocalAddress::Assigned(t.sockaddr), state: SocketState::Server, ..sock },
                        )
                        &&& fg.socket_locations@ == locs1.insert(t, LocationView { pending: Seq::empty(), ..locs1[t] })
                        &&& fg.servers@ == g.servers@.insert(id as int, fg.servers@[id as int])
                        &&& fg.servers@[id as int].connecting@ == pending
                        &&& fg.servers@[id as int].ready == (pending.len() > 0)
                        &&& fg.servers@[id as int].backend == ServerBackend::Peered
                        &&& fg == (GlobalState {
                            sockets: fg.sockets,
                            socket_locations: fg.socket_locations,
                            servers: fg.servers,
                            ..g
                        })
                    }
                }
            }),
    {
        let fd_info = match state.local.fds.get(self.descriptor_id as i128) {
            Some(d) => *d,
            None => return Outcome::Error(Errno::EBADF),
        };
        let id = match fd_info.resource {
            FdResource::Socket(id) => id,
            _ => return Outcome::Error(Errno::ENOTSOCK),
        };
        let sock = match state.global.sockets.get(id as i128) {
            Some(s) => *s,
            None => {
                assert(false);
                return Outcome::Error(Errno::EBADF);
            },
        };
        let addr = match get_or_assign_local(id, &mut state.global, candidates) {
            Some(t) => t,
            None => {
                assert(false);
                return Outcome::Error(Errno::EINVAL);
            },
        };
        match sock.state {
            SocketState::Unassociated(_) => {},
            _ => return Outcome::Error(Errno::EINVAL),
        }
        let connecting = state.global.socket_locations.take_pending(&addr);
        let ready = connecting.len() > 0;
        state.global.servers.insert(id as i128, ServerSocket { connecting, ready, backend: ServerBackend::Peered });
        state.global.sockets.insert(
            id as i128,
            SocketInfo { local_addr: LocalAddress::Assigned(addr.sockaddr), state: SocketState::Server, ..sock },
        );
        Outcome::Success(())
    }
}

/// The address of the peer of a socket, when it has one: the destination of a
/// connectionless socket, or the remote end of a connected one.
pub open spec fn peer_address(st: SocketState) -> Option<SockAddr> {
    match st {
        SocketState::Connectionless(c) => match c.rem_addr {
            Some(a) => Some(a.sockaddr),
            None => None,
        },
        SocketState::Connected(c) => Some(c.rem_addr.sockaddr),
        _ => None,
    }
}

/// `getpeername`.
pub struct SocketGetPeerNameEvent {
    pub descriptor_id: i32,
}

impl SocketGetPeerNameEvent {
    pub fn new(descriptor_id: i32) -> (r: Self)
        ensures
            r.descriptor_id == descriptor_id,
    {
        Self { descriptor_id }
    }

    /// The address of the socket's peer: `EBADF` for an unknown descriptor, `ENOTSOCK` for
    /// one that is no socket, `ENOTCONN` for a socket with no peer.
    pub fn run(&mut self, state: &FizzleState) -> (r: Outcome<SockAddr, Errno>)
        requires
            state.wf(),
            fd_socket(state.local.fds@, old(self).descriptor_id) matches Some(id)
                ==> state.global.sockets@.contains_key(id as int),
        ensures
            *final(self) == *old(self),
            ({
                let fds = state.local.fds@;
                let fd = old(self).descriptor_id;
                if !fds.contains_key(fd as int) {
                    r == Outcome::<SockAddr, Errno>::Error(Errno::EBADF)
                } else if fd_socket(fds, fd) is None {
                    r == Outcome::<SockAddr, Errno>::Error(Errno::ENOTSOCK)
                } else {
                    match peer_address(state.global.sockets@[fd_socket(fds, fd)->Some_0 as int].state) {
                        Some(a) => r == Outcome::<SockAddr, Errno>::Success(a),
                        None => r == Outcome::<SockAddr, Errno>::Error(Errno::ENOTCONN),
                    }
                }
            }),
    {
        let fd_info = match state.local.fds.get(self.descriptor_id as i128) {
            Some(d) => *d,
            None => return Outcome::Error(Errno::EBADF),
        };
        let id = match fd_info.resource {
            FdResource::Socket(id) => id,
            _ => return Outcome::Error(Errno::ENOTSOCK),
        };
        let sock = match state.global.sockets.get(id as i128) {
            Some(s) => *s,
            None => {
                assert(false);
                return Outcome::Error(Errno::EBADF);
            },
        };
        let addr = match sock.state {
            SocketState::Connectionless(c) => match c.rem_addr {
                Some(a) => Some(a.sockaddr),
                None => None,
            },
            SocketState::Connected(c) => Some(c.rem_addr.sockaddr),
            _ => None,
        };
        match addr {
            Some(a) => Outcome::Success(a),
            None => Outcome::Error(Errno::ENOTCONN),
        }
    }
}

/// `getsockname`.
pub struct SocketGetNameEvent {
    pub descriptor_id: i32,
    /// The caller's buffer for the address.
    pub addr_bytes: Vec<u8>,
}

impl SocketGetNameEvent {
    pub fn new(descriptor_id: i32, addr_bytes: Vec<u8>) -> (r: Self)
        ensures
            r.descriptor_id == descriptor_id,
            r.addr_bytes@ == addr_bytes@,
    {
        Self { descriptor_id, addr_bytes }
    }

    /// Writes the socket's own address into the buffer and returns its length. A socket
    /// with no address yet gets a zeroed buffer with its family, most significant byte
    /// first, in the first two bytes (length 2). `EBADF` for an unknown descriptor,
    /// `ENOTSOCK` for one that is no socket. A passthrough descriptor is asked of the host,
    /// which filled the buffer and returned `host_ret` and the length `host_len` (failure,
    /// reported as `errno`, when `host_ret` is negative).
    pub fn run(&mut self, state: &FizzleState, host_ret: i32, host_len: u32, errno: Errno) -> (r: Outcome<
        usize,
        Errno,
    >)
        requires
            state.wf(),
            fd_socket(state.local.fds@, old(self).descriptor_id) matches Some(id) ==> {
                &&& state.global.sockets@.contains_key(id as int)
                &&& (!state.local.fds@[old(self).descriptor_id as int].is_passthrough
                    && state.global.sockets@[id as int].local_addr is Ephemeral ==> old(self).addr_bytes@.len() >= 2)
            },
        ensures
            final(self).descriptor_id == old(self).descriptor_id,
            ({
                let fds = state.local.fds@;
                let fd = old(self).descriptor_id;
                let before = old(self).addr_bytes@;
                let after = final(self).addr_bytes@;
                if !fds.contains_key(fd as int) {
                    r == Outcome::<usize, Errno>::Error(Errno::EBADF) && after == before
                } else if fds[fd as int].is_passthrough {
                    &&& r == (if host_ret < 0 {
                        Outcome::<usize, Errno>::Error(errno)
                    } else {
                        Outcome::<usize, Errno>::Success(host_len as usize)
                    })
                    &&& after == before
                } else if fd_socket(fds, fd) is None {
                    r == Outcome::<usize, Errno>::Error(Errno::ENOTSOCK) && after == before
                } else {
                    match state.global.sockets@[fd_socket(fds, fd)->Some_0 as int].local_addr {
                        LocalAddress::Ephemeral(f) => {
                            &&& r == Outcome::<usize, Errno>::Success(2)
                            &&& after == int_bytes(f.spec_raw() as nat, 2, false) + Seq::new(
                                (before.len() - 2) as nat,
                                |i: int| 0u8,
                            )
                        },
                        LocalAddress::Assigned(a) => {
                            &&& r == Outcome::<usize, Errno>::Success(sockaddr_bytes(a, true).len() as usize)
                            &&& (after == overwrite_prefix(before, sockaddr_bytes(a, true)) || after
                                == overwrite_prefix(before, sockaddr_bytes(a, false)))
                        },
                    }
                }
            }),
    {
        let fd_info = match state.local.fds.get(self.descriptor_id as i128) {
            Some(d) => *d,
            None => return Outcome::Error(Errno::EBADF),
        };
        if fd_info.is_passthrough {
            return if host_ret < 0 {
                Outcome::Error(errno)
            } else {
                Outcome::Success(host_len as usize)
            };
        }
        let id = match fd_info.resource {
            FdResource::Socket(id) => id,
            _ => return Outcome::Error(Errno::ENOTSOCK),
        };
        let sock = match state.global.sockets.get(id as i128) {
            Some(s) => *s,
            None => {
                assert(false);
                return Outcome::Error(Errno::EBADF);
            },
        };
        match sock.local_addr {
            LocalAddress::Ephemeral(f) => {
                let n = self.addr_bytes.len();
                let mut filled: Vec<u8> = int_to_bytes(f.raw() as u64, 2, false);
                let mut i: usize = 2;
                while i < n
                    invariant
                        2 <= i <= n,
                        n == self.addr_bytes@.len(),
                        filled@ == int_bytes(f.spec_raw() as nat, 2, false) + Seq::new((i - 2) as nat, |j: int| 0u8),
                    decreases n - i,
                {
                    filled.push(0);
                    i += 1;
                    proof {
                        assert(filled@ =~= int_bytes(f.spec_raw() as nat, 2, false) + Seq::new(
                            (i - 2) as nat,
                            |j: int| 0u8,
                        ));
                    }
                }
                self.addr_bytes = filled;
                Outcome::Success(2)
            },
            LocalAddress::Assigned(a) => {
                let len = a.encode(&mut self.addr_bytes);
                Outcome::Success(len)
            },
        }
    }
}

/// The credentials of a peer process.
#[derive(Clone, Copy, Debug, PartialEq, Eq, Structural)]
pub struct Ucred {
    pub pid: i32,
    pub uid: u32,
    pub gid: u32,
}

#[derive(Clone, Copy, Debug, PartialEq, Eq, Structural)]
pub struct SctpRtoInfo {
    pub srto_assoc_id: i32,
    pub srto_initial: u32,
    pub srto_max: u32,
    pub srto_min: u32,
}

pub struct SctpPeerAddrParams {
    pub spp_assoc_id: i32,
    /// The bytes of a `sockaddr_storage`.
    pub spp_address: Vec<u8>,
    pub spp_hbinterval: u32,
    pub spp_pathmaxrxt: u16,
    pub spp_pathmtu: u32,
    pub spp_sackdelay: u32,
    pub spp_flags: u32,
    pub spp_ipv6_flowlabel: u32,
    pub spp_dscp: u8,
}

#[derive(Clone, Copy, Debug, PartialEq, Eq, Structural)]
pub struct SctpAssocParams {
    pub sasoc_assoc_id: i32,
    pub sasoc_asocmaxrxt: u16,
    pub sasoc_number_peer_destinations: u16,
    pub sasoc_peer_rwnd: u32,
    pub sasoc_local_rwnd: u32,
    pub sasoc_cookie_life: u32,
}

#[derive(Clone, Copy, Debug, PartialEq, Eq, Structural)]
pub struct SctpInitMsg {
    pub sinit_num_ostreams: u16,
    pub sinit_max_instreams: u16,
    pub sinit_max_attempts: u16,
    pub sinit_max_init_timeo: u16,
}

/// The event notifications an SCTP socket subscribes to, one flag byte each.
#[derive(Clone, Copy, Debug, PartialEq, Eq, Structural)]
pub struct SctpEventSubscribe {
    pub sctp_data_io_event: u8,
    pub sctp_association_event: u8,
    pub sctp_address_event: u8,
    pub sctp_send_failure_event: u8,
    pub sctp_peer_error_event: u8,
    pub sctp_shutdown_event: u8,
    pub sctp_partial_delivery_event: u8,
    pub sctp_adaptation_layer_event: u8,
    pub sctp_authentication_event: u8,
    pub sctp_sender_dry_event: u8,
    pub sctp_stream_reset_event: u8,
    pub sctp_assoc_reset_event: u8,
    pub sctp_stream_change_event: u8,
    pub sctp_send_failure_event_event: u8,
}

pub const SOL_SCTP: i32 = 132;
pub const SCTP_SOCKOPT_BINDX_ADD: i32 = 100;
pub const SCTP_SOCKOPT_BINDX_REM: i32 = 101;
pub const SCTP_SOCKOPT_CONNECTX_OLD: i32 = 107;
pub const SCTP_GET_PEER_ADDRS: i32 = 108;
pub const SCTP_GET_LOCAL_ADDRS: i32 = 109;
pub const SCTP_SOCKOPT_CONNECTX: i32 = 110;
pub const SCTP_SOCKOPT_CONNECTX3: i32 = 111;
pub const SCTP_GET_ASSOC_STATS: i32 = 112;
pub const SCTP_PR_SUPPORTED: i32 = 113;

pub const SO_DEBUG: i32 = 1;
pub const SO_REUSEADDR: i32 = 2;
pub const SO_TYPE: i32 = 3;
pub const SO_ERROR: i32 = 4;
pub const SO_DONTROUTE: i32 = 5;
pub const SO_BROADCAST: i32 = 6;
pub const SO_SNDBUF: i32 = 7;
pub const SO_RCVBUF: i32 = 8;
pub const SO_KEEPALIVE: i32 = 9;
pub const SO_OOBINLINE: i32 = 10;
pub const SO_PRIORITY: i32 = 12;
pub const SO_LINGER: i32 = 13;
pub const SO_REUSEPORT: i32 = 15;
pub const SO_PEERCRED: i32 = 17;
pub const SO_RCVLOWAT: i32 = 18;
pub const SO_SNDLOWAT: i32 = 19;
pub const SO_RCVTIMEO: i32 = 20;
pub const SO_SNDTIMEO: i32 = 21;
pub const SO_BINDTODEVICE: i32 = 25;
pub const SO_ATTACH_FILTER: i32 = 26;
pub const SO_DETACH_FILTER: i32 = 27;
pub const SO_ACCEPTCONN: i32 = 30;
pub const SO_PROTOCOL: i32 = 38;
pub const SO_DOMAIN: i32 = 39;
pub const SO_LOCK_FILTER: i32 = 44;
pub const SO_ATTACH_BPF: i32 = 50;
pub const SO_ATTACH_REUSEPORT_CBPF: i32 = 51;
pub const SO_ATTACH_REUSEPORT_EBPF: i32 = 52;
pub const SO_ZEROCOPY: i32 = 60;
pub const IP_OPTIONS: i32 = 4;
pub const IPV6_V6ONLY: i32 = 26;
pub const TCP_NODELAY: i32 = 1;
pub const TCP_MAXSEG: i32 = 2;
pub const TCP_USER_TIMEOUT: i32 = 18;
pub const SCTP_RTOINFO: i32 = 0;
pub const SCTP_ASSOCINFO: i32 = 1;
pub const SCTP_INITMSG: i32 = 2;
pub const SCTP_NODELAY: i32 = 3;
pub const SCTP_AUTOCLOSE: i32 = 4;
pub const SCTP_SET_PEER_PRIMARY_ADDR: i32 = 5;
pub const SCTP_PRIMARY_ADDR: i32 = 6;
pub const SCTP_DISABLE_FRAGMENTS: i32 = 8;
pub const SCTP_PEER_ADDR_PARAMS: i32 = 9;
pub const SCTP_DEFAULT_SEND_PARAM: i32 = 10;
pub const SCTP_EVENTS: i32 = 11;
pub const SCTP_I_WANT_MAPPED_V4_ADDR: i32 = 12;
pub const SCTP_MAXSEG: i32 = 13;
pub const SCTP_STATUS: i32 = 14;
pub const SCTP_GET_PEER_ADDR_INFO: i32 = 15;
pub const SCTP_FRAGMENT_INTERLEAVE: i32 = 18;
pub const SPP_HB_ENABLE: u32 = 1;
pub const SPP_PMTUD_ENABLE: u32 = 8;
pub const SPP_SACKDELAY_ENABLE: u32 = 32;

/// The protocol level a socket option belongs to.
#[derive(Clone, Copy, Debug, PartialEq, Eq, Structural)]
pub enum OptLevel {
    Socket,
    Ip,
    Ipv6,
    Sctp,
    Tcp,
}

/// The value of a socket option.
pub enum SocketOption {
    SocketPeerCred(Ucred),
    SocketIsListening(bool),
    SocketDontRoute(bool),
    SocketDomain(AddressFamily),
    SocketType(SocketType),
    SocketError(i32),
    SocketKeepalive(bool),
    SocketLinger(Option<u32>),
    SocketOobInline(bool),
    SocketZeroCopy(bool),
    SocketPriority(u32),
    SocketProtocol(TransportProtocol),
    SocketRecvBuffer(u32),
    SocketSendBuffer(u32),
    SocketSendLowWatermark(u32),
    SocketRecvLowWatermark(u32),
    SocketReuseAddr(bool),
    SocketReusePort(bool),
    IpOptions(Vec<u8>),
    Ipv6Only(bool),
    SctpRtoInfo(SctpRtoInfo),
    SctpGetLocalAddrs(Vec<u8>),
    SctpInitMsg(SctpInitMsg),
    SctpNoDelay(bool),
    SctpAutoClose(bool),
    SctpDisableFragments(bool),
    SctpPeerAddrParams(SctpPeerAddrParams),
    SctpEvents(SctpEventSubscribe),
    SctpWantMappedV4Addr(bool),
    SctpFragmentInterleave(bool),
    SctpMaxSegment(u32),
    SctpAssocInfo(SctpAssocParams),
    /// In nanoseconds.
    TcpUserTimeout(u128),
    TcpNoDelay(bool),
    TcpMss(u32),
}

/// The extra input some SCTP options are read with.
pub enum OptInput {
    Nothing,
    SctpAssocId(i32),
    /// An association and the bytes of a `sockaddr_storage`.
    SctpPeerAddrParams(i32, Vec<u8>),
}

/// Whether an option level applies to a socket of the given family and protocol.
pub open spec fn level_applies(level: OptLevel, family: AddressFamily, protocol: TransportProtocol) -> bool {
    match level {
        OptLevel::Socket => true,
        OptLevel::Ip => family == AddressFamily::Ipv4,
        OptLevel::Ipv6 => family == AddressFamily::Ipv6,
        OptLevel::Sctp => protocol == TransportProtocol::Sctp,
        OptLevel::Tcp => protocol == TransportProtocol::Tcp,
    }
}

/// The `SO_*` options that `getsockopt` refuses with `EINVAL`.
pub open spec fn socket_level_refused(name: i32) -> bool {
    name == SO_ATTACH_FILTER || name == SO_LOCK_FILTER || name == SO_DETACH_FILTER || name == SO_ATTACH_BPF
        || name == SO_ATTACH_REUSEPORT_CBPF || name == SO_ATTACH_REUSEPORT_EBPF || name == SO_BINDTODEVICE
        || name == SO_BROADCAST || name == SO_DEBUG || name == SO_SNDLOWAT || name == SO_RCVLOWAT
        || name == SO_SNDTIMEO || name == SO_RCVTIMEO
}

/// The `SO_*` options that `getsockopt` answers.
pub open spec fn socket_level_known(name: i32) -> bool {
    socket_level_refused(name) || name == SO_ACCEPTCONN || name == SO_DONTROUTE || name == SO_DOMAIN
        || name == SO_ERROR || name == SO_PEERCRED || name == SO_KEEPALIVE || name == SO_SNDBUF || name
        == SO_LINGER || name == SO_OOBINLINE || name == SO_ZEROCOPY || name == SO_PRIORITY || name
        == SO_PROTOCOL || name == SO_RCVBUF || name == SO_REUSEADDR || name == SO_REUSEPORT || name == SO_TYPE
}

/// The `SCTP_*` options that `getsockopt` refuses with `EINVAL`.
pub open spec fn sctp_level_refused(name: i32) -> bool {
    name == SCTP_SET_PEER_PRIMARY_ADDR || name == SCTP_PRIMARY_ADDR || name == SCTP_DEFAULT_SEND_PARAM || name
        == SCTP_SOCKOPT_CONNECTX || name == SCTP_STATUS || name == SCTP_GET_PEER_ADDR_INFO || name
        == SCTP_GET_ASSOC_STATS
}

/// The `SCTP_*` options that `getsockopt` answers (for `SCTP_RTOINFO`, `SCTP_ASSOCINFO`
/// and `SCTP_PEER_ADDR_PARAMS`, only with the matching input).
pub open spec fn sctp_level_known(name: i32, input: OptInput) -> bool {
    sctp_level_refused(name) || name == SCTP_GET_LOCAL_ADDRS || name == SCTP_INITMSG || name == SCTP_NODELAY
        || name == SCTP_AUTOCLOSE || name == SCTP_DISABLE_FRAGMENTS || name == SCTP_EVENTS || name
        == SCTP_I_WANT_MAPPED_V4_ADDR || name == SCTP_FRAGMENT_INTERLEAVE || name == SCTP_MAXSEG
        || ((name == SCTP_RTOINFO || name == SCTP_ASSOCINFO) && input is SctpAssocId) || (name
        == SCTP_PEER_ADDR_PARAMS && input is SctpPeerAddrParams)
}

/// Whether the port sharing of socket `id` is that of the address it communicates from
/// (see `local_for`, with ephemeral candidates `cands`), as for a socket that is bound,
/// listening or connected: that address can be had and is bound.
pub open spec fn bound_sharing_defined(g: GlobalState, id: i64, cands: Seq<TransportAddress>) -> bool {
    &&& ephemeral_candidates(g.sockets@[id as int], cands)
    &&& local_for(g, id, cands).0 matches Some(t)
    &&& local_for(g, id, cands).1.contains_key(t)
}

/// The port sharing of the address socket `id` communicates from (see `local_for`).
pub open spec fn bound_sharing(g: GlobalState, id: i64, cands: Seq<TransportAddress>) -> bool {
    local_for(g, id, cands).1[local_for(g, id, cands).0->Some_0].reuse_port
}

/// Whether `getsockopt` is defined for this option of socket `id`, with ephemeral
/// candidates `cands`: the option is one it answers, and for `SO_REUSEPORT` on a bound,
/// listening or connected socket, see `bound_sharing_defined`.
pub open spec fn getsockopt_defined(
    g: GlobalState,
    id: i64,
    level: OptLevel,
    name: i32,
    input: OptInput,
    cands: Seq<TransportAddress>,
) -> bool {
    let sock = g.sockets@[id as int];
    !level_applies(level, sock.local_addr.spec_family(), sock.protocol) || match level {
        OptLevel::Socket => socket_level_known(name) && (name == SO_REUSEPORT && unbound_reuse_port(sock.state)
            is None ==> bound_sharing_defined(g, id, cands)),
        OptLevel::Ip => name == IP_OPTIONS,
        OptLevel::Ipv6 => name == IPV6_V6ONLY,
        OptLevel::Sctp => sctp_level_known(name, input),
        OptLevel::Tcp => name == TCP_USER_TIMEOUT || name == TCP_NODELAY || name == TCP_MAXSEG,
    }
}

/// The answer of `getsockopt` for a socket option of the level's protocol, on socket `id`
/// with ephemeral candidates `cands`.
pub open spec fn getsockopt_answer(
    g: GlobalState,
    id: i64,
    cands: Seq<TransportAddress>,
    level: OptLevel,
    name: i32,
    input: OptInput,
    r: Outcome<SocketOption, Errno>,
) -> bool {
    let sock = g.sockets@[id as int];
    let buffer_length = g.buffer_length;
    match level {
        OptLevel::Socket => if socket_level_refused(name) {
            r == Outcome::<SocketOption, Errno>::Error(Errno::EINVAL)
        } else if name == SO_ACCEPTCONN {
            r == Outcome::<SocketOption, Errno>::Success(SocketOption::SocketIsListening(sock.state is Server))
        } else if name == SO_DONTROUTE {
            r == Outcome::<SocketOption, Errno>::Success(SocketOption::SocketDontRoute(true))
        } else if name == SO_DOMAIN {
            r == Outcome::<SocketOption, Errno>::Success(SocketOption::SocketDomain(sock.local_addr.spec_family()))
        } else if name == SO_ERROR {
            r == Outcome::<SocketOption, Errno>::Success(SocketOption::SocketError(0))
        } else if name == SO_PEERCRED {
            r == Outcome::<SocketOption, Errno>::Success(SocketOption::SocketPeerCred(Ucred { pid: 0, uid: 0, gid: 0 }))
        } else if name == SO_KEEPALIVE {
            r == Outcome::<SocketOption, Errno>::Success(SocketOption::SocketKeepalive(false))
        } else if name == SO_SNDBUF {
            r == Outcome::<SocketOption, Errno>::Success(SocketOption::SocketSendBuffer(65536))
        } else if name == SO_LINGER {
            r == Outcome::<SocketOption, Errno>::Success(SocketOption::SocketLinger(Some(15)))
        } else if name == SO_OOBINLINE {
            r == Outcome::<SocketOption, Errno>::Success(SocketOption::SocketOobInline(true))
        } else if name == SO_ZEROCOPY {
            r == Outcome::<SocketOption, Errno>::Success(SocketOption::SocketZeroCopy(true))
        } else if name == SO_PRIORITY {
            r == Outcome::<SocketOption, Errno>::Success(SocketOption::SocketPriority(6))
        } else if name == SO_PROTOCOL {
            r == Outcome::<SocketOption, Errno>::Success(SocketOption::SocketProtocol(sock.protocol))
        } else if name == SO_RCVBUF {
            r == Outcome::<SocketOption, Errno>::Success(SocketOption::SocketRecvBuffer(buffer_length as u32))
        } else if name == SO_REUSEADDR {
            r == Outcome::<SocketOption, Errno>::Success(SocketOption::SocketReuseAddr(true))
        } else if name == SO_REUSEPORT {
            r == Outcome::<SocketOption, Errno>::Success(
                SocketOption::SocketReusePort(
                    match unbound_reuse_port(sock.state) {
                        Some(b) => b,
                        None => bound_sharing(g, id, cands),
                    },
                ),
            )
        } else {
            r == Outcome::<SocketOption, Errno>::Success(SocketOption::SocketType(sock.socktype))
        },
        OptLevel::Ip => r matches Outcome::Success(SocketOption::IpOptions(v)) && v@.len() == 0,
        OptLevel::Ipv6 => r == Outcome::<SocketOption, Errno>::Success(SocketOption::Ipv6Only(true)),
        OptLevel::Sctp => if sctp_level_refused(name) {
            r == Outcome::<SocketOption, Errno>::Error(Errno::EINVAL)
        } else if name == SCTP_RTOINFO {
            r == Outcome::<SocketOption, Errno>::Success(
                SocketOption::SctpRtoInfo(
                    SctpRtoInfo { srto_assoc_id: input->SctpAssocId_0, srto_initial: 3000, srto_max: 60000, srto_min: 1000 },
                ),
            )
        } else if name == SCTP_GET_LOCAL_ADDRS {
            r matches Outcome::Success(SocketOption::SctpGetLocalAddrs(v)) && v@.len() == 0
        } else if name == SCTP_INITMSG {
            r == Outcome::<SocketOption, Errno>::Success(
                SocketOption::SctpInitMsg(
                    SctpInitMsg {
                        sinit_num_ostreams: 10,
                        sinit_max_instreams: 10,
                        sinit_max_attempts: 8,
                        sinit_max_init_timeo: 60000,
                    },
                ),
            )
        } else if name == SCTP_NODELAY {
            r == Outcome::<SocketOption, Errno>::Success(SocketOption::SctpNoDelay(true))
        } else if name == SCTP_AUTOCLOSE {
            r == Outcome::<SocketOption, Errno>::Success(SocketOption::SctpAutoClose(false))
        } else if name == SCTP_DISABLE_FRAGMENTS {
            r == Outcome::<SocketOption, Errno>::Success(SocketOption::SctpDisableFragments(false))
        } else if name == SCTP_PEER_ADDR_PARAMS {
            r matches Outcome::Success(SocketOption::SctpPeerAddrParams(p)) && p.spp_assoc_id
                == input->SctpPeerAddrParams_0 && p.spp_address@ == input->SctpPeerAddrParams_1@
                && p.spp_hbinterval == 30000 && p.spp_pathmaxrxt == 5 && p.spp_pathmtu == 1260
                && p.spp_sackdelay == 200 && p.spp_flags == SPP_HB_ENABLE | SPP_PMTUD_ENABLE | SPP_SACKDELAY_ENABLE && p.spp_ipv6_flowlabel == 0 && p.spp_dscp == 0
        } else if name == SCTP_EVENTS {
            r == Outcome::<SocketOption, Errno>::Success(
                SocketOption::SctpEvents(
                    SctpEventSubscribe {
                        sctp_data_io_event: 0,
                        sctp_association_event: 0,
                        sctp_address_event: 0,
                        sctp_send_failure_event: 0,
                        sctp_peer_error_event: 0,
                        sctp_shutdown_event: 0,
                        sctp_partial_delivery_event: 0,
                        sctp_adaptation_layer_event: 0,
                        sctp_authentication_event: 0,
                        sctp_sender_dry_event: 0,
                        sctp_stream_reset_event: 0,
                        sctp_assoc_reset_event: 0,
                        sctp_stream_change_event: 0,
                        sctp_send_failure_event_event: 0,
                    },
                ),
            )
        } else if name == SCTP_I_WANT_MAPPED_V4_ADDR {
            r == Outcome::<SocketOption, Errno>::Success(SocketOption::SctpWantMappedV4Addr(false))
        } else if name == SCTP_FRAGMENT_INTERLEAVE {
            r == Outcome::<SocketOption, Errno>::Success(SocketOption::SctpFragmentInterleave(false))
        } else if name == SCTP_MAXSEG {
            r == Outcome::<SocketOption, Errno>::Success(SocketOption::SctpMaxSegment(0))
        } else {
            r == Outcome::<SocketOption, Errno>::Success(
                SocketOption::SctpAssocInfo(
                    SctpAssocParams {
                        sasoc_assoc_id: input->SctpAssocId_0,
                        sasoc_asocmaxrxt: 10,
                        sasoc_number_peer_destinations: 1,
                        sasoc_peer_rwnd: 1,
                        sasoc_local_rwnd: 1,
                        sasoc_cookie_life: 60000,
                    },
                ),
            )
        },
        OptLevel::Tcp => if name == TCP_USER_TIMEOUT {
            r == Outcome::<SocketOption, Errno>::Success(
                SocketOption::TcpUserTimeout(
                    match sock.options.tcp_user_timeout {
                        Some(d) => d,
                        None => 0,
                    },
                ),
            )
        } else if name == TCP_NODELAY {
            r == Outcome::<SocketOption, Errno>::Success(SocketOption::TcpNoDelay(true))
        } else {
            r == Outcome::<SocketOption, Errno>::Success(SocketOption::TcpMss(1220))
        },
    }
}

/// What `getsockopt` on descriptor `fd`, with ephemeral candidates `cands`, answers, and
/// the global state `g2` it leaves: `EBADF` for an unknown descriptor, `ENOTSOCK` for one
/// that is no socket, `ENOPROTOOPT` for a level that does not apply to the socket's family
/// or protocol, and otherwise the emulator's answer for the option. Only `SO_REUSEPORT` on
/// a bound, listening or connected socket changes anything: a socket without its own
/// address is first registered at an ephemeral one (see `local_for`).
pub open spec fn getsockopt_outcome(
    fds: Map<int, DescriptorInfo>,
    fd: i32,
    g: GlobalState,
    level: OptLevel,
    name: i32,
    input: OptInput,
    cands: Seq<TransportAddress>,
    r: Outcome<SocketOption, Errno>,
    g2: GlobalState,
) -> bool {
    if !fds.contains_key(fd as int) {
        r == Outcome::<SocketOption, Errno>::Error(Errno::EBADF) && g2 == g
    } else if fd_socket(fds, fd) is None {
        r == Outcome::<SocketOption, Errno>::Error(Errno::ENOTSOCK) && g2 == g
    } else {
        let id = fd_socket(fds, fd)->Some_0;
        let sock = g.sockets@[id as int];
        if !level_applies(level, sock.local_addr.spec_family(), sock.protocol) {
            r == Outcome::<SocketOption, Errno>::Error(Errno::ENOPROTOOPT) && g2 == g
        } else {
            &&& getsockopt_answer(g, id, cands, level, name, input, r)
            &&& if level is Socket && name == SO_REUSEPORT && unbound_reuse_port(sock.state) is None {
                g2.socket_locations@ == local_for(g, id, cands).1 && g2 == (GlobalState {
                    socket_locations: g2.socket_locations,
                    ..g
                })
            } else {
                g2 == g
            }
        }
    }
}

/// `getsockopt`.
pub struct SocketGetOptionEvent {
    pub descriptor_id: i32,
    pub optlevel: OptLevel,
    pub optname: i32,
    pub input: OptInput,
}

impl SocketGetOptionEvent {
    pub fn new(descriptor_id: i32, optlevel: OptLevel, optname: i32, input: OptInput) -> (r: Self)
        ensures
            r.descriptor_id == descriptor_id,
            r.optlevel == optlevel,
            r.optname == optname,
            r.input == input,
    {
        Self { descriptor_id, optlevel, optname, input }
    }

    /// The option's value (see `getsockopt_outcome`); `candidates` are the ephemeral
    /// addresses handed out for a socket without its own.
    pub fn run(&mut self, state: &mut FizzleState, candidates: &Vec<TransportAddress>) -> (r: Outcome<
        SocketOption,
        Errno,
    >)
        requires
            old(state).wf(),
            fd_socket(old(state).local.fds@, old(self).descriptor_id) matches Some(id) ==> {
                &&& old(state).global.sockets@.contains_key(id as int)
                &&& getsockopt_defined(
                    old(state).global,
                    id,
                    old(self).optlevel,
                    old(self).optname,
                    old(self).input,
                    candidates@,
                )
            },
        ensures
            *final(self) == *old(self),
            final(state).wf(),
            final(state).local == old(state).local,
            getsockopt_outcome(
                old(state).local.fds@,
                old(self).descriptor_id,
                old(state).global,
                old(self).optlevel,
                old(self).optname,
                old(self).input,
                candidates@,
                r,
                final(state).global,
            ),
    {
        let fd_info = match state.local.fds.get(self.descriptor_id as i128) {
            Some(d) => *d,
            None => return Outcome::Error(Errno::EBADF),
        };
        let id = match fd_info.resource {
            FdResource::Socket(id) => id,
            _ => return Outcome::Error(Errno::ENOTSOCK),
        };
        let sock = match state.global.sockets.get(id as i128) {
            Some(s) => *s,
            None => {
                assert(false);
                return Outcome::Error(Errno::EBADF);
            },
        };
        let family = sock.local_addr.family();
        let protocol = sock.protocol;
        let applies = match self.optlevel {
            OptLevel::Socket => true,
            OptLevel::Ip => family == AddressFamily::Ipv4,
            OptLevel::Ipv6 => family == AddressFamily::Ipv6,
            OptLevel::Sctp => protocol == TransportProtocol::Sctp,
            OptLevel::Tcp => protocol == TransportProtocol::Tcp,
        };
        if !applies {
            return Outcome::Error(Errno::ENOPROTOOPT);
        }
        let name = self.optname;
        match self.optlevel {
            OptLevel::Socket => {
                if name == SO_ATTACH_FILTER || name == SO_LOCK_FILTER || name == SO_DETACH_FILTER || name
                    == SO_ATTACH_BPF || name == SO_ATTACH_REUSEPORT_CBPF || name == SO_ATTACH_REUSEPORT_EBPF
                    || name == SO_BINDTODEVICE || name == SO_BROADCAST || name == SO_DEBUG || name
                    == SO_SNDLOWAT || name == SO_RCVLOWAT || name == SO_SNDTIMEO || name == SO_RCVTIMEO {
                    Outcome::Error(Errno::EINVAL)
                } else if name == SO_ACCEPTCONN {
                    Outcome::Success(
                        SocketOption::SocketIsListening(
                            match sock.state {
                                SocketState::Server => true,
                                _ => false,
                            },
                        ),
                    )
                } else if name == SO_DONTROUTE {
                    Outcome::Success(SocketOption::SocketDontRoute(true))
                } else if name == SO_DOMAIN {
                    Outcome::Success(SocketOption::SocketDomain(family))
                } else if name == SO_ERROR {
                    Outcome::Success(SocketOption::SocketError(0))
                } else if name == SO_PEERCRED {
                    Outcome::Success(SocketOption::SocketPeerCred(Ucred { pid: 0, uid: 0, gid: 0 }))
                } else if name == SO_KEEPALIVE {
                    Outcome::Success(SocketOption::SocketKeepalive(false))
                } else if name == SO_SNDBUF {
                    Outcome::Success(SocketOption::SocketSendBuffer(65536))
                } else if name == SO_LINGER {
                    Outcome::Success(SocketOption::SocketLinger(Some(15)))
                } else if name == SO_OOBINLINE {
                    Outcome::Success(SocketOption::SocketOobInline(true))
                } else if name == SO_ZEROCOPY {
                    Outcome::Success(SocketOption::SocketZeroCopy(true))
                } else if name == SO_PRIORITY {
                    Outcome::Success(SocketOption::SocketPriority(6))
                } else if name == SO_PROTOCOL {
                    Outcome::Success(SocketOption::SocketProtocol(protocol))
                } else if name == SO_RCVBUF {
                    Outcome::Success(SocketOption::SocketRecvBuffer(state.global.buffer_length as u32))
                } else if name == SO_REUSEADDR {
                    Outcome::Success(SocketOption::SocketReuseAddr(true))
                } else if name == SO_REUSEPORT {
                    let reuse = match sock.state {
                        SocketState::Connectionless(c) => c.reuse_port,
                        SocketState::Unassociated(u) => u.reuse_port,
                        _ => {
                            let t = match get_or_assign_local(id, &mut state.global, candidates) {
                                Some(t) => t,
                                None => {
                                    assert(false);
                                    return Outcome::Error(Errno::EINVAL);
                                },
                            };
                            match state.global.socket_locations.lookup(&t) {
                                Some((reuse, _)) => reuse,
                                None => {
                                    assert(false);
                                    false
                                },
                            }
                        },
                    };
                    Outcome::Success(SocketOption::SocketReusePort(reuse))
                } else {
                    Outcome::Success(SocketOption::SocketType(sock.socktype))
                }
            },
            OptLevel::Ip => Outcome::Success(SocketOption::IpOptions(Vec::new())),
            OptLevel::Ipv6 => Outcome::Success(SocketOption::Ipv6Only(true)),
            OptLevel::Sctp => {
                if name == SCTP_SET_PEER_PRIMARY_ADDR || name == SCTP_PRIMARY_ADDR || name == SCTP_DEFAULT_SEND_PARAM
                    || name == SCTP_SOCKOPT_CONNECTX || name == SCTP_STATUS || name == SCTP_GET_PEER_ADDR_INFO
                    || name == SCTP_GET_ASSOC_STATS {
                    Outcome::Error(Errno::EINVAL)
                } else if name == SCTP_RTOINFO {
                    let assoc_id = match self.input {
                        OptInput::SctpAssocId(a) => a,
                        _ => {
                            assert(false);
                            0
                        },
                    };
                    Outcome::Success(
                        SocketOption::SctpRtoInfo(
                            SctpRtoInfo { srto_assoc_id: assoc_id, srto_initial: 3000, srto_max: 60000, srto_min: 1000 },
                        ),
                    )
                } else if name == SCTP_GET_LOCAL_ADDRS {
                    Outcome::Success(SocketOption::SctpGetLocalAddrs(Vec::new()))
                } else if name == SCTP_INITMSG {
                    Outcome::Success(
                        SocketOption::SctpInitMsg(
                            SctpInitMsg {
                                sinit_num_ostreams: 10,
                                sinit_max_instreams: 10,
                                sinit_max_attempts: 8,
                                sinit_max_init_timeo: 60000,
                            },
                        ),
                    )
                } else if name == SCTP_NODELAY {
                    Outcome::Success(SocketOption::SctpNoDelay(true))
                } else if name == SCTP_AUTOCLOSE {
                    Outcome::Success(SocketOption::SctpAutoClose(false))
                } else if name == SCTP_DISABLE_FRAGMENTS {
                    Outcome::Success(SocketOption::SctpDisableFragments(false))
                } else if name == SCTP_PEER_ADDR_PARAMS {
                    let (assoc_id, addr) = match &self.input {
                        OptInput::SctpPeerAddrParams(a, addr) => (*a, copy_bytes(addr)),
                        _ => {
                            assert(false);
                            (0, Vec::new())
                        },
                    };
                    Outcome::Success(
                        SocketOption::SctpPeerAddrParams(
                            SctpPeerAddrParams {
                                spp_assoc_id: assoc_id,
                                spp_address: addr,
                                spp_hbinterval: 30000,
                                spp_pathmaxrxt: 5,
                                spp_pathmtu: 1260,
                                spp_sackdelay: 200,
                                spp_flags: SPP_HB_ENABLE | SPP_PMTUD_ENABLE | SPP_SACKDELAY_ENABLE,
                                spp_ipv6_flowlabel: 0,
                                spp_dscp: 0,
                            },
                        ),
                    )
                } else if name == SCTP_EVENTS {
                    Outcome::Success(
                        SocketOption::SctpEvents(
                            SctpEventSubscribe {
                                sctp_data_io_event: 0,
                                sctp_association_event: 0,
                                sctp_address_event: 0,
                                sctp_send_failure_event: 0,
                                sctp_peer_error_event: 0,
                                sctp_shutdown_event: 0,
                                sctp_partial_delivery_event: 0,
                                sctp_adaptation_layer_event: 0,
                                sctp_authentication_event: 0,
                                sctp_sender_dry_event: 0,
                                sctp_stream_reset_event: 0,
                                sctp_assoc_reset_event: 0,
                                sctp_stream_change_event: 0,
                                sctp_send_failure_event_event: 0,
                            },
                        ),
                    )
                } else if name == SCTP_I_WANT_MAPPED_V4_ADDR {
                    Outcome::Success(SocketOption::SctpWantMappedV4Addr(false))
                } else if name == SCTP_FRAGMENT_INTERLEAVE {
                    Outcome::Success(SocketOption::SctpFragmentInterleave(false))
                } else if name == SCTP_MAXSEG {
                    Outcome::Success(SocketOption::SctpMaxSegment(0))
                } else {
                    let assoc_id = match self.input {
                        OptInput::SctpAssocId(a) => a,
                        _ => {
                            assert(false);
                            0
                        },
                    };
                    Outcome::Success(
                        SocketOption::SctpAssocInfo(
                            SctpAssocParams {
                                sasoc_assoc_id: assoc_id,
                                sasoc_asocmaxrxt: 10,
                                sasoc_number_peer_destinations: 1,
                                sasoc_peer_rwnd: 1,
                                sasoc_local_rwnd: 1,
                                sasoc_cookie_life: 60000,
                            },
                        ),
                    )
                }
            },
            OptLevel::Tcp => {
                if name == TCP_USER_TIMEOUT {
                    Outcome::Success(
                        SocketOption::TcpUserTimeout(
                            match sock.options.tcp_user_timeout {
                                Some(d) => d,
                                None => 0,
                            },
                        ),
                    )
                } else if name == TCP_NODELAY {
                    Outcome::Success(SocketOption::TcpNoDelay(true))
                } else {
                    Outcome::Success(SocketOption::TcpMss(1220))
                }
            },
        }
    }
}

/// The options that `setsockopt` refuses with `ENOPROTOOPT`: those that can only be read.
pub open spec fn setsockopt_refused(o: SocketOption) -> bool {
    ||| o is SocketSendBuffer
    ||| o is SocketIsListening
    ||| o is SocketDomain
    ||| o is SocketType
    ||| o is SocketError
    ||| o is SocketProtocol
    ||| o is SocketPeerCred
    ||| o is SctpGetLocalAddrs
}

/// The state of a socket that is not yet bound or connected, with the port sharing set.
pub open spec fn with_reuse_port(st: SocketState, reuse_port: bool) -> SocketState {
    match st {
        SocketState::Connectionless(c) => SocketState::Connectionless(ConnectionlessSocket { reuse_port, ..c }),
        SocketState::Unassociated(_) => SocketState::Unassociated(UnassociatedSocket { reuse_port }),
        _ => st,
    }
}

/// Whether `setsockopt` is defined for this option on socket `id`, with ephemeral
/// candidates `cands`: `SO_REUSEPORT` on a bound, listening or connected socket as
/// `bound_sharing_defined` says, and disabling SCTP fragmentation is not provided.
pub open spec fn setsockopt_defined(g: GlobalState, id: i64, o: SocketOption, cands: Seq<TransportAddress>) -> bool {
    &&& !(o is SctpDisableFragments)
    &&& (o is SocketReusePort && unbound_reuse_port(g.sockets@[id as int].state) is None ==> bound_sharing_defined(
        g,
        id,
        cands,
    ))
}

/// What `setsockopt` of option `o` on descriptor `fd`, with ephemeral candidates `cands`,
/// returns, and the global state `fg` it leaves: `EBADF` for an unknown descriptor,
/// `ENOTSOCK` for one that is no socket, `ENOPROTOOPT` for an option that can only be read
/// and for a TCP user timeout on a socket that is not TCP. `SO_REUSEPORT` sets the port
/// sharing of a socket not yet bound or connected, else of the address it communicates
/// from (a socket without its own address is first registered at an ephemeral one, see
/// `local_for`); a TCP user timeout of 0 clears it; every other option is accepted and
/// changes nothing.
pub open spec fn setsockopt_outcome(
    fds: Map<int, DescriptorInfo>,
    fd: i32,
    g: GlobalState,
    o: SocketOption,
    cands: Seq<TransportAddress>,
    r: Outcome<(), Errno>,
    fg: GlobalState,
) -> bool {
    if !fds.contains_key(fd as int) {
        r == Outcome::<(), Errno>::Error(Errno::EBADF) && fg == g
    } else if fd_socket(fds, fd) is None {
        r == Outcome::<(), Errno>::Error(Errno::ENOTSOCK) && fg == g
    } else {
        let id = fd_socket(fds, fd)->Some_0;
        let sock = g.sockets@[id as int];
        if setsockopt_refused(o) {
            r == Outcome::<(), Errno>::Error(Errno::ENOPROTOOPT) && fg == g
        } else {
            match o {
                SocketOption::SocketReusePort(b) => {
                    &&& r == Outcome::<(), Errno>::Success(())
                    &&& match unbound_reuse_port(sock.state) {
                        Some(_) => {
                            &&& fg.sockets@ == g.sockets@.insert(
                                id as int,
                                SocketInfo { state: with_reuse_port(sock.state, b), ..sock },
                            )
                            &&& fg == (GlobalState { sockets: fg.sockets, ..g })
                        },
                        None => {
                            let (t, locs1) = local_for(g, id, cands);
                            &&& fg.socket_locations@ == locs1.insert(
                                t->Some_0,
                                LocationView { reuse_port: b, ..locs1[t->Some_0] },
                            )
                            &&& fg == (GlobalState { socket_locations: fg.socket_locations, ..g })
                        },
                    }
                },
                SocketOption::TcpUserTimeout(d) => if sock.protocol != TransportProtocol::Tcp {
                    r == Outcome::<(), Errno>::Error(Errno::ENOPROTOOPT) && fg == g
                } else {
                    &&& r == Outcome::<(), Errno>::Success(())
                    &&& fg.sockets@ == g.sockets@.insert(
                        id as int,
                        SocketInfo {
                            options: SocketOptions {
                                tcp_user_timeout: if d == 0 { None } else { Some(d) },
                            },
                            ..sock
                        },
                    )
                    &&& fg == (GlobalState { sockets: fg.sockets, ..g })
                },
                _ => r == Outcome::<(), Errno>::Success(()) && fg == g,
            }
        }
    }
}

/// `setsockopt`.
pub struct SocketSetOptionEvent {
    pub descriptor_id: i32,
    pub option: SocketOption,
}

impl SocketSetOptionEvent {
    pub fn new(descriptor_id: i32, option: SocketOption) -> (r: Self)
        ensures
            r.descriptor_id == descriptor_id,
            r.option == option,
    {
        Self { descriptor_id, option }
    }

    /// Sets the option on the socket of the descriptor (see `setsockopt_outcome`);
    /// `candidates` are the ephemeral addresses handed out for a socket without its own.
    pub fn run(&mut self, state: &mut FizzleState, candidates: &Vec<TransportAddress>) -> (r: Outcome<(), Errno>)
        requires
            old(state).wf(),
            fd_socket(old(state).local.fds@, old(self).descriptor_id) matches Some(id) ==> {
                &&& old(state).global.sockets@.contains_key(id as int)
                &&& setsockopt_defined(old(state).global, id, old(self).option, candidates@)
            },
        ensures
            *final(self) == *old(self),
            final(state).wf(),
            final(state).local == old(state).local,
            setsockopt_outcome(
                old(state).local.fds@,
                old(self).descriptor_id,
                old(state).global,
                old(self).option,
                candidates@,
                r,
                final(state).global,
            ),
    {
        let fd_info = match state.local.fds.get(self.descriptor_id as i128) {
            Some(d) => *d,
            None => return Outcome::Error(Errno::EBADF),
        };
        let id = match fd_info.resource {
            FdResource::Socket(id) => id,
            _ => return Outcome::Error(Errno::ENOTSOCK),
        };
        let sock = match state.global.sockets.get(id as i128) {
            Some(s) => *s,
            None => {
                assert(false);
                return Outcome::Error(Errno::EBADF);
            },
        };
        match &self.option {
            SocketOption::SocketSendBuffer(_)
            | SocketOption::SocketIsListening(_)
            | SocketOption::SocketDomain(_)
            | SocketOption::SocketType(_)
            | SocketOption::SocketError(_)
            | SocketOption::SocketProtocol(_)
            | SocketOption::SocketPeerCred(_)
            | SocketOption::SctpGetLocalAddrs(_) => Outcome::Error(Errno::ENOPROTOOPT),
            SocketOption::SocketReusePort(reuse) => {
                let reuse = *reuse;
                match sock.state {
                    SocketState::Connectionless(c) => {
                        let st = SocketState::Connectionless(ConnectionlessSocket { reuse_port: reuse, ..c });
                        state.global.sockets.insert(id as i128, SocketInfo { state: st, ..sock });
                    },
                    SocketState::Unassociated(_) => {
                        let st = SocketState::Unassociated(UnassociatedSocket { reuse_port: reuse });
                        state.global.sockets.insert(id as i128, SocketInfo { state: st, ..sock });
                    },
                    _ => {
                        let t = match get_or_assign_local(id, &mut state.global, candidates) {
                            Some(t) => t,
                            None => {
                                assert(false);
                                return Outcome::Success(());
                            },
                        };
                        state.global.socket_locations.set_reuse_port(&t, reuse);
                    },
                }
                Outcome::Success(())
            },
            SocketOption::SctpDisableFragments(_) => {
                assert(false);
                Outcome::Success(())
            },
            SocketOption::TcpUserTimeout(duration) => {
                if sock.protocol != TransportProtocol::Tcp {
                    return Outcome::Error(Errno::ENOPROTOOPT);
                }
                let timeout = if *duration == 0 {
                    None
                } else {
                    Some(*duration)
                };
                state.global.sockets.insert(
                    id as i128,
                    SocketInfo { options: SocketOptions { tcp_user_timeout: timeout }, ..sock },
                );
                Outcome::Success(())
            },
            _ => Outcome::Success(()),
        }
    }
}

/// `SO_REUSEPORT` read back: after `setsockopt` sets the port sharing of a socket that is
/// not yet bound or connected, or has its own address, to `b`,
/// `getsockopt(SOL_SOCKET, SO_REUSEPORT)` on the same descriptor answers `b`. For a socket
/// not yet bound or connected, both calls are always defined.
pub proof fn lemma_reuse_port_set_then_get(
    fds: Map<int, DescriptorInfo>,
    fd: i32,
    g: GlobalState,
    b: bool,
    cands1: Seq<TransportAddress>,
    set_r: Outcome<(), Errno>,
    fg: GlobalState,
    input: OptInput,
    cands2: Seq<TransportAddress>,
    get_r: Outcome<SocketOption, Errno>,
    g2: GlobalState,
)
    requires
        fd_socket(fds, fd) is Some,
        g.sockets@.contains_key(fd_socket(fds, fd)->Some_0 as int),
        unbound_reuse_port(g.sockets@[fd_socket(fds, fd)->Some_0 as int].state) is Some || (g.sockets@[fd_socket(
            fds,
            fd,
        )->Some_0 as int].local_addr is Assigned && setsockopt_defined(
            g,
            fd_socket(fds, fd)->Some_0,
            SocketOption::SocketReusePort(b),
            cands1,
        )),
        setsockopt_outcome(fds, fd, g, SocketOption::SocketReusePort(b), cands1, set_r, fg),
        getsockopt_outcome(fds, fd, fg, OptLevel::Socket, SO_REUSEPORT, input, cands2, get_r, g2),
    ensures
        setsockopt_defined(g, fd_socket(fds, fd)->Some_0, SocketOption::SocketReusePort(b), cands1),
        unbound_reuse_port(g.sockets@[fd_socket(fds, fd)->Some_0 as int].state) is Some ==> getsockopt_defined(
            fg,
            fd_socket(fds, fd)->Some_0,
            OptLevel::Socket,
            SO_REUSEPORT,
            input,
            cands2,
        ),
        set_r == Outcome::<(), Errno>::Success(()),
        get_r == Outcome::<SocketOption, Errno>::Success(SocketOption::SocketReusePort(b)),
{
}

/// `TCP_USER_TIMEOUT` read back: after `setsockopt` sets the user timeout of a TCP socket
/// to `d` nanoseconds, `getsockopt(SOL_TCP, TCP_USER_TIMEOUT)` on the same descriptor
/// answers `d` (0 when it was cleared); both calls are always defined.
pub proof fn lemma_user_timeout_set_then_get(
    fds: Map<int, DescriptorInfo>,
    fd: i32,
    g: GlobalState,
    d: u128,
    cands1: Seq<TransportAddress>,
    set_r: Outcome<(), Errno>,
    fg: GlobalState,
    input: OptInput,
    cands2: Seq<TransportAddress>,
    get_r: Outcome<SocketOption, Errno>,
    g2: GlobalState,
)
    requires
        fd_socket(fds, fd) is Some,
        g.sockets@.contains_key(fd_socket(fds, fd)->Some_0 as int),
        g.sockets@[fd_socket(fds, fd)->Some_0 as int].protocol == TransportProtocol::Tcp,
        setsockopt_outcome(fds, fd, g, SocketOption::TcpUserTimeout(d), cands1, set_r, fg),
        getsockopt_outcome(fds, fd, fg, OptLevel::Tcp, TCP_USER_TIMEOUT, input, cands2, get_r, g2),
    ensures
        setsockopt_defined(g, fd_socket(fds, fd)->Some_0, SocketOption::TcpUserTimeout(d), cands1),
        getsockopt_defined(fg, fd_socket(fds, fd)->Some_0, OptLevel::Tcp, TCP_USER_TIMEOUT, input, cands2),
        set_r == Outcome::<(), Errno>::Success(()),
        get_r == Outcome::<SocketOption, Errno>::Success(SocketOption::TcpUserTimeout(d)),
{
}

/// `getsockopt` at the socket level reports what the socket was created as, and changes
/// nothing: `SO_PROTOCOL` (38) answers its transport protocol, `SO_TYPE` (3) its type and
/// `SO_DOMAIN` (39) its address family.
pub proof fn lemma_getsockopt_reports_creation(
    fds: Map<int, DescriptorInfo>,
    fd: i32,
    g: GlobalState,
    name: i32,
    input: OptInput,
    cands: Seq<TransportAddress>,
    r: Outcome<SocketOption, Errno>,
    g2: GlobalState,
)
    requires
        fd_socket(fds, fd) is Some,
        g.sockets@.contains_key(fd_socket(fds, fd)->Some_0 as int),
        name == 38 || name == 3 || name == 39,
        getsockopt_outcome(fds, fd, g, OptLevel::Socket, name, input, cands, r, g2),
    ensures
        g2 == g,
        name == 38 ==> r == Outcome::<SocketOption, Errno>::Success(
            SocketOption::SocketProtocol(g.sockets@[fd_socket(fds, fd)->Some_0 as int].protocol),
        ),
        name == 3 ==> r == Outcome::<SocketOption, Errno>::Success(
            SocketOption::SocketType(g.sockets@[fd_socket(fds, fd)->Some_0 as int].socktype),
        ),
        name == 39 ==> r == Outcome::<SocketOption, Errno>::Success(
            SocketOption::SocketDomain(g.sockets@[fd_socket(fds, fd)->Some_0 as int].local_addr.spec_family()),
        ),
{
}

/// The `SOCK_*` number of a socket type.
pub open spec fn socket_type_raw(t: SocketType) -> nat {
    match t {
        SocketType::Stream => 1,
        SocketType::Datagram => 2,
        SocketType::Raw => 3,
        SocketType::SeqPacket => 5,
    }
}

/// The `IPPROTO_*` number of a transport protocol (0 for Unix-domain sockets).
pub open spec fn protocol_raw(p: TransportProtocol) -> nat {
    match p {
        TransportProtocol::Tcp => 6,
        TransportProtocol::Udp => 17,
        TransportProtocol::Sctp => 132,
        TransportProtocol::Unix => 0,
    }
}

/// An `int` flag: 1 for true, 0 for false.
pub open spec fn flag_value(b: bool) -> nat {
    if b { 1 } else { 0 }
}

/// The number of nanoseconds in a millisecond.
pub const NANOS_PER_MILLI: u128 = 1_000_000;

/// The length of a `sockaddr_storage`.
pub const SOCKADDR_STORAGE_LEN: usize = 128;

/// Whether the option's value can be laid out in its C type: a TCP user timeout whose
/// milliseconds fit an `unsigned int`, a linger time that fits an `int`, and peer address
/// parameters that hold a whole `sockaddr_storage`.
pub open spec fn option_encodable(o: SocketOption) -> bool {
    match o {
        SocketOption::TcpUserTimeout(d) => d / NANOS_PER_MILLI <= u32::MAX,
        SocketOption::SocketLinger(Some(t)) => t <= i32::MAX,
        SocketOption::SctpPeerAddrParams(p) => p.spp_address@.len() == SOCKADDR_STORAGE_LEN,
        _ => true,
    }
}

/// The bytes of the option's value as the C type that `getsockopt` hands back, with integers
/// in the given byte order: `int` flags and numbers, the `sa_family_t` of a domain, the
/// milliseconds of a TCP user timeout, `struct linger`, `struct ucred`, and the SCTP structures
/// (`sctp_peer_addr_params` packed, the others with their natural layout).
pub open spec fn option_bytes(o: SocketOption, little: bool) -> Seq<u8> {
    match o {
        SocketOption::SocketPeerCred(c) => int_bytes(c.pid as u32 as nat, 4, little) + int_bytes(c.uid as nat, 4, little)
            + int_bytes(c.gid as nat, 4, little),
        SocketOption::IpOptions(v) => v@,
        SocketOption::SctpGetLocalAddrs(v) => v@,
        SocketOption::TcpUserTimeout(d) => int_bytes((d / NANOS_PER_MILLI) as nat, 4, little),
        SocketOption::TcpNoDelay(b) => int_bytes(flag_value(b), 4, little),
        SocketOption::SocketIsListening(b) => int_bytes(flag_value(b), 4, little),
        SocketOption::SocketDontRoute(b) => int_bytes(flag_value(b), 4, little),
        SocketOption::SocketKeepalive(b) => int_bytes(flag_value(b), 4, little),
        SocketOption::SocketOobInline(b) => int_bytes(flag_value(b), 4, little),
        SocketOption::SocketZeroCopy(b) => int_bytes(flag_value(b), 4, little),
        SocketOption::SocketReuseAddr(b) => int_bytes(flag_value(b), 4, little),
        SocketOption::SocketReusePort(b) => int_bytes(flag_value(b), 4, little),
        SocketOption::SctpNoDelay(b) => int_bytes(flag_value(b), 4, little),
        SocketOption::SctpAutoClose(b) => int_bytes(flag_value(b), 4, little),
        SocketOption::SctpDisableFragments(b) => int_bytes(flag_value(b), 4, little),
        SocketOption::SctpWantMappedV4Addr(b) => int_bytes(flag_value(b), 4, little),
        SocketOption::SctpFragmentInterleave(b) => int_bytes(flag_value(b), 4, little),
        SocketOption::Ipv6Only(b) => int_bytes(flag_value(b), 4, little),
        SocketOption::TcpMss(u) => int_bytes(u as nat, 4, little),
        SocketOption::SocketPriority(u) => int_bytes(u as nat, 4, little),
        SocketOption::SocketRecvBuffer(u) => int_bytes(u as nat, 4, little),
        SocketOption::SocketSendBuffer(u) => int_bytes(u as nat, 4, little),
        SocketOption::SocketSendLowWatermark(u) => int_bytes(u as nat, 4, little),
        SocketOption::SocketRecvLowWatermark(u) => int_bytes(u as nat, 4, little),
        SocketOption::SctpMaxSegment(u) => int_bytes(u as nat, 4, little),
        SocketOption::SocketDomain(f) => int_bytes(f.spec_raw() as nat, 2, little),
        SocketOption::SocketType(t) => int_bytes(socket_type_raw(t), 4, little),
        SocketOption::SocketError(e) => int_bytes(e as u32 as nat, 4, little),
        SocketOption::SocketLinger(l) => match l {
            None => int_bytes(0, 4, little) + int_bytes(0, 4, little),
            Some(t) => int_bytes(1, 4, little) + int_bytes(t as nat, 4, little),
        },
        SocketOption::SocketProtocol(p) => int_bytes(protocol_raw(p), 4, little),
        SocketOption::SctpRtoInfo(i) => int_bytes(i.srto_assoc_id as u32 as nat, 4, little) + int_bytes(
            i.srto_initial as nat,
            4,
            little,
        ) + int_bytes(i.srto_max as nat, 4, little) + int_bytes(i.srto_min as nat, 4, little),
        SocketOption::SctpInitMsg(m) => int_bytes(m.sinit_num_ostreams as nat, 2, little) + int_bytes(
            m.sinit_max_instreams as nat,
            2,
            little,
        ) + int_bytes(m.sinit_max_attempts as nat, 2, little) + int_bytes(m.sinit_max_init_timeo as nat, 2, little),
        SocketOption::SctpPeerAddrParams(p) => int_bytes(p.spp_assoc_id as u32 as nat, 4, little) + p.spp_address@
            + int_bytes(p.spp_hbinterval as nat, 4, little) + int_bytes(p.spp_pathmaxrxt as nat, 2, little)
            + int_bytes(p.spp_pathmtu as nat, 4, little) + int_bytes(p.spp_sackdelay as nat, 4, little) + int_bytes(
            p.spp_flags as nat,
            4,
            little,
        ) + int_bytes(p.spp_ipv6_flowlabel as nat, 4, little) + seq![p.spp_dscp],
        SocketOption::SctpEvents(e) => seq![
            e.sctp_data_io_event,
            e.sctp_association_event,
            e.sctp_address_event,
            e.sctp_send_failure_event,
            e.sctp_peer_error_event,
            e.sctp_shutdown_event,
            e.sctp_partial_delivery_event,
            e.sctp_adaptation_layer_event,
            e.sctp_authentication_event,
            e.sctp_sender_dry_event,
            e.sctp_stream_reset_event,
            e.sctp_assoc_reset_event,
            e.sctp_stream_change_event,
            e.sctp_send_failure_event_event,
        ],
        SocketOption::SctpAssocInfo(a) => int_bytes(a.sasoc_assoc_id as u32 as nat, 4, little) + int_bytes(
            a.sasoc_asocmaxrxt as nat,
            2,
            little,
        ) + int_bytes(a.sasoc_number_peer_destinations as nat, 2, little) + int_bytes(
            a.sasoc_peer_rwnd as nat,
            4,
            little,
        ) + int_bytes(a.sasoc_local_rwnd as nat, 4, little) + int_bytes(a.sasoc_cookie_life as nat, 4, little),
    }
}

/// `out` with its first bytes replaced by those of `src`, as many as both have.
pub open spec fn overwrite_prefix(out: Seq<u8>, src: Seq<u8>) -> Seq<u8> {
    if src.len() < out.len() {
        src + out.skip(src.len() as int)
    } else {
        src.take(out.len() as int)
    }
}

/// Appends the `n` bytes of `v` in the given byte order.
fn push_int(bytes: &mut Vec<u8>, v: u64, n: usize, little: bool)
    requires
        n <= 8,
    ensures
        final(bytes)@ == old(bytes)@ + int_bytes(v as nat, n as nat, little),
{
    let mut b = int_to_bytes(v, n, little);
    bytes.append(&mut b);
}

/// Writes `src` over the start of `out`, as far as `out` reaches.
pub fn write_prefix(out: &mut Vec<u8>, src: &Vec<u8>)
    ensures
        final(out)@ == overwrite_prefix(old(out)@, src@),
{
    let n = if src.len() < out.len() {
        src.len()
    } else {
        out.len()
    };
    let mut i: usize = 0;
    while i < n
        invariant
            n <= src@.len(),
            n <= old(out)@.len(),
            n == src@.len() || n == old(out)@.len(),
            i <= n,
            out@.len() == old(out)@.len(),
            forall|j: int| 0 <= j < i ==> #[trigger] out@[j] == src@[j],
            forall|j: int| i <= j < out@.len() ==> #[trigger] out@[j] == old(out)@[j],
        decreases n - i,
    {
        out.set(i, src[i]);
        i += 1;
    }
    proof {
        assert(out@ =~= overwrite_prefix(old(out)@, src@));
    }
}

impl SocketOption {
    /// The value's bytes in the given byte order (see `option_bytes`).
    pub fn to_bytes(&self, little: bool) -> (r: Vec<u8>)
        requires
            option_encodable(*self),
        ensures
            r@ == option_bytes(*self, little),
    {
        let mut b: Vec<u8> = Vec::new();
        match self {
            SocketOption::SocketPeerCred(c) => {
                push_int(&mut b, c.pid as u32 as u64, 4, little);
                push_int(&mut b, c.uid as u64, 4, little);
                push_int(&mut b, c.gid as u64, 4, little);
            },
            SocketOption::IpOptions(v) | SocketOption::SctpGetLocalAddrs(v) => {
                b = copy_bytes(v);
            },
            SocketOption::TcpUserTimeout(d) => {
                let millis: u64 = (*d / NANOS_PER_MILLI) as u64;
                push_int(&mut b, millis, 4, little);
            },
            SocketOption::TcpNoDelay(f)
            | SocketOption::SocketIsListening(f)
            | SocketOption::SocketDontRoute(f)
            | SocketOption::SocketKeepalive(f)
            | SocketOption::SocketOobInline(f)
            | SocketOption::SocketZeroCopy(f)
            | SocketOption::SocketReuseAddr(f)
            | SocketOption::SocketReusePort(f)
            | SocketOption::SctpNoDelay(f)
            | SocketOption::SctpAutoClose(f)
            | SocketOption::SctpDisableFragments(f)
            | SocketOption::SctpWantMappedV4Addr(f)
            | SocketOption::SctpFragmentInterleave(f)
            | SocketOption::Ipv6Only(f) => {
                let flag: u64 = if *f {
                    1
                } else {
                    0
                };
                push_int(&mut b, flag, 4, little);
            },
            SocketOption::TcpMss(u)
            | SocketOption::SocketPriority(u)
            | SocketOption::SocketRecvBuffer(u)
            | SocketOption::SocketSendBuffer(u)
            | SocketOption::SocketSendLowWatermark(u)
            | SocketOption::SocketRecvLowWatermark(u)
            | SocketOption::SctpMaxSegment(u) => {
                push_int(&mut b, *u as u64, 4, little);
            },
            SocketOption::SocketDomain(f) => {
                push_int(&mut b, f.raw() as u64, 2, little);
            },
            SocketOption::SocketType(t) => {
                let raw: u64 = match t {
                    SocketType::Stream => 1,
                    SocketType::Datagram => 2,
                    SocketType::SeqPacket => 5,
                    SocketType::Raw => 3,
                };
                push_int(&mut b, raw, 4, little);
            },
            SocketOption::SocketError(e) => {
                push_int(&mut b, *e as u32 as u64, 4, little);
            },
            SocketOption::SocketLinger(l) => {
                match l {
                    None => {
                        push_int(&mut b, 0, 4, little);
                        push_int(&mut b, 0, 4, little);
                    },
                    Some(t) => {
                        push_int(&mut b, 1, 4, little);
                        push_int(&mut b, *t as u64, 4, little);
                    },
                }
            },
            SocketOption::SocketProtocol(p) => {
                let raw: u64 = match p {
                    TransportProtocol::Tcp => 6,
                    TransportProtocol::Udp => 17,
                    TransportProtocol::Sctp => 132,
                    TransportProtocol::Unix => 0,
                };
                push_int(&mut b, raw, 4, little);
            },
            SocketOption::SctpRtoInfo(i) => {
                push_int(&mut b, i.srto_assoc_id as u32 as u64, 4, little);
                push_int(&mut b, i.srto_initial as u64, 4, little);
                push_int(&mut b, i.srto_max as u64, 4, little);
                push_int(&mut b, i.srto_min as u64, 4, little);
            },
            SocketOption::SctpInitMsg(m) => {
                push_int(&mut b, m.sinit_num_ostreams as u64, 2, little);
                push_int(&mut b, m.sinit_max_instreams as u64, 2, little);
                push_int(&mut b, m.sinit_max_attempts as u64, 2, little);
                push_int(&mut b, m.sinit_max_init_timeo as u64, 2, little);
            },
            SocketOption::SctpPeerAddrParams(p) => {
                push_int(&mut b, p.spp_assoc_id as u32 as u64, 4, little);
                let mut addr = copy_bytes(&p.spp_address);
                b.append(&mut addr);
                push_int(&mut b, p.spp_hbinterval as u64, 4, little);
                push_int(&mut b, p.spp_pathmaxrxt as u64, 2, little);
                push_int(&mut b, p.spp_pathmtu as u64, 4, little);
                push_int(&mut b, p.spp_sackdelay as u64, 4, little);
                push_int(&mut b, p.spp_flags as u64, 4, little);
                push_int(&mut b, p.spp_ipv6_flowlabel as u64, 4, little);
                b.push(p.spp_dscp);
            },
            SocketOption::SctpEvents(e) => {
                b.push(e.sctp_data_io_event);
                b.push(e.sctp_association_event);
                b.push(e.sctp_address_event);
                b.push(e.sctp_send_failure_event);
                b.push(e.sctp_peer_error_event);
                b.push(e.sctp_shutdown_event);
                b.push(e.sctp_partial_delivery_event);
                b.push(e.sctp_adaptation_layer_event);
                b.push(e.sctp_authentication_event);
                b.push(e.sctp_sender_dry_event);
                b.push(e.sctp_stream_reset_event);
                b.push(e.sctp_assoc_reset_event);
                b.push(e.sctp_stream_change_event);
                b.push(e.sctp_send_failure_event_event);
            },
            SocketOption::SctpAssocInfo(a) => {
                push_int(&mut b, a.sasoc_assoc_id as u32 as u64, 4, little);
                push_int(&mut b, a.sasoc_asocmaxrxt as u64, 2, little);
                push_int(&mut b, a.sasoc_number_peer_destinations as u64, 2, little);
                push_int(&mut b, a.sasoc_peer_rwnd as u64, 4, little);
                push_int(&mut b, a.sasoc_local_rwnd as u64, 4, little);
                push_int(&mut b, a.sasoc_cookie_life as u64, 4, little);
            },
        }
        proof {
            assert(b@ =~= option_bytes(*self, little));
        }
        b
    }

    /// Writes the value's bytes, in the given byte order, over the start of `out` (as many
    /// as fit) and returns the length of the whole value.
    pub fn encode_ordered(&self, out: &mut Vec<u8>, little: bool) -> (r: usize)
        requires
            option_encodable(*self),
        ensures
            r == option_bytes(*self, little).len(),
            final(out)@ == overwrite_prefix(old(out)@, option_bytes(*self, little)),
    {
        let b = self.to_bytes(little);
        write_prefix(out, &b);
        b.len()
    }

    /// Writes the value's bytes, with integers in the machine's byte order, over the start
    /// of `out` (as many as fit) and returns the length of the whole value.
    pub fn encode(&self, out: &mut Vec<u8>) -> (r: usize)
        requires
            option_encodable(*self),
        ensures
            r == option_bytes(*self, true).len(),
            final(out)@ == overwrite_prefix(old(out)@, option_bytes(*self, true)) || final(out)@
                == overwrite_prefix(old(out)@, option_bytes(*self, false)),
    {
        let little = native_little_endian();
        let r = self.encode_ordered(out, little);
        proof {
            lemma_option_bytes_len(*self);
        }
        r
    }
}

/// The length of an option's bytes does not depend on the byte order.
proof fn lemma_option_bytes_len(o: SocketOption)
    ensures
        option_bytes(o, true).len() == option_bytes(o, false).len(),
{
    broadcast use lemma_int_bytes_len_b;
}

pub broadcast proof fn lemma_int_bytes_len_b(v: nat, n: nat, little: bool)
    ensures
        #[trigger] int_bytes(v, n, little).len() == n,
{
}

/// A copy of the bytes.
fn copy_bytes(v: &Vec<u8>) -> (r: Vec<u8>)
    ensures
        r@ == v@,
{
    let mut out: Vec<u8> = Vec::new();
    let mut i: usize = 0;
    while i < v.len()
        invariant
            i <= v@.len(),
            out@ == v@.take(i as int),
        decreases v@.len() - i,
    {
        out.push(v[i]);
        i += 1;
        proof {
            assert(out@ =~= v@.take(i as int));
        }
    }
    proof {
        assert(v@.take(v@.len() as int) =~= v@);
    }
    out
}

} // verus!
