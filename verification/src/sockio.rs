//! Data through emulated sockets: where each socket's data goes and comes from
//! (its endpoint), and the `read`/`recv` and `write`/`send` handlers.
use vstd::prelude::*;

use crate::errno::Errno;
use crate::endian::{int_bytes, int_to_bytes, native_little_endian};
use crate::scheduler::{Outcome, YieldUntil};
use crate::state::{FizzleState, GlobalState, Polled};
use crate::table::Table;
use crate::socket::{
    ephemeral_candidates, first_fit, get_or_assign_local, lemma_first_fit_in_range, local_for, sharing_of, next_bound_spec, overwrite_prefix, sockaddr_bytes, sockaddr_from_bytes, write_prefix, ConnectedSocket, ConnectionlessSocket, LocationView,
    SockAddr, SocketInfo, SocketState, TransportAddress, TransportProtocol,
};
use crate::time::{scatter, scattered, total_len};

verus! {

/// A datagram waiting to be received.
pub struct ConnectionlessMessage {
    /// The sender's address.
    pub source: SockAddr,
    /// Ancillary (control) data sent with it.
    pub ancillary: Vec<u8>,
    pub data: Vec<u8>,
}

/// The receiving side of a connectionless socket of the emulator.
pub struct DatagramQueue {
    /// Received datagrams, oldest first.
    pub recv: Vec<ConnectionlessMessage>,
    /// Whether the socket shows as readable.
    pub read_raised: bool,
    /// Whether the socket shows as writable.
    pub write_raised: bool,
}

/// The receiving side of a connected socket of the emulator.
pub struct StreamQueue {
    /// The socket at the other end, while it exists.
    pub peer: Option<i64>,
    /// Received chunks, oldest first; the first is read from `read_idx` on.
    pub recv: Vec<Vec<u8>>,
    pub read_idx: usize,
    /// Whether the socket shows as readable.
    pub read_raised: bool,
    /// Whether the peer may send to this socket.
    pub write_raised: bool,
}

/// A connection that reads the harness's fuzzing input.
#[derive(Clone, Copy, Debug, PartialEq, Eq, Structural)]
pub struct FuzzEndpoint {
    /// How far into the fuzzing input this connection has read.
    pub read_idx: usize,
    /// Whether the connection shows as readable.
    pub read_raised: bool,
}

/// A connection served by a plugin: the chunks the plugin has handed over to be read (a
/// queue as a connected socket's, whose `peer` is unused and whose `write_raised` says
/// whether the plugin takes data), and the chunks written for the plugin, oldest first.
pub struct PluginEndpoint {
    pub read: StreamQueue,
    pub write_buf: Vec<Vec<u8>>,
}

/// A datagram fed back to the harness, with the socket that sent it.
pub struct FedBack {
    pub msg: ConnectionlessMessage,
    pub sender: i64,
}

/// A connectionless socket whose datagrams are fed back to the harness, which takes them
/// from here; the emulator only appends to it and never reads from it.
pub struct FeedbackQueue {
    pub sent: Vec<FedBack>,
}

/// A connection whose traffic is fed back to the harness: how many items the harness has
/// queued for it, and whether it shows as readable and as writable. The emulator itself
/// neither reads from it nor writes to it.
#[derive(Clone, Copy, Debug, PartialEq, Eq, Structural)]
pub struct FeedbackStream {
    pub queued: usize,
    pub read_raised: bool,
    pub write_raised: bool,
}

/// Where a socket's data goes and comes from.
pub enum Endpoint {
    /// A connectionless socket of the emulator.
    Datagrams(DatagramQueue),
    /// A connected socket of the emulator.
    Stream(StreamQueue),
    /// A connection that drops what is sent and has nothing to read.
    Sink,
    /// A connection that drops what is sent and reads zeros.
    NullSink,
    /// A connection that reads the fuzzing input.
    Fuzz(FuzzEndpoint),
    /// A connection served by a plugin.
    Plugin(PluginEndpoint),
    /// A connectionless socket whose datagrams are fed back to the harness.
    Feedback(FeedbackQueue),
    /// A connection whose traffic is fed back to the harness.
    FeedbackStream(FeedbackStream),
}

impl DatagramQueue {
    pub fn new() -> (r: Self)
        ensures
            r.recv@.len() == 0,
            !r.read_raised,
            !r.write_raised,
    {
        DatagramQueue { recv: Vec::new(), read_raised: false, write_raised: false }
    }
}

/// The bytes of `src` from `off` on, at most `n` of them.
pub open spec fn window(src: Seq<u8>, off: int, n: int) -> Seq<u8> {
    if off >= src.len() {
        Seq::empty()
    } else if off + n <= src.len() {
        src.subrange(off, off + n)
    } else {
        src.subrange(off, src.len() as int)
    }
}

/// The smaller of two numbers.
pub open spec fn min_nat(a: nat, b: nat) -> nat {
    if a <= b {
        a
    } else {
        b
    }
}

/// `out` is `bufs` after reading `src` into them in order: each buffer takes as many of
/// the following bytes as it has room for and keeps the rest of what it held.
pub open spec fn filled_from(bufs: Seq<Vec<u8>>, src: Seq<u8>, out: Seq<Vec<u8>>) -> bool {
    &&& out.len() == bufs.len()
    &&& forall|i: int|
        0 <= i < bufs.len() ==> #[trigger] out[i]@ == overwrite_prefix(
            bufs[i]@,
            window(src, total_len(bufs.take(i)) as int, bufs[i]@.len() as int),
        )
}

proof fn lemma_total_len_step(d: Seq<Vec<u8>>, i: int)
    requires
        0 <= i < d.len(),
    ensures
        total_len(d.take(i + 1)) == total_len(d.take(i)) + d[i]@.len(),
{
    assert(d.take(i + 1).drop_last() =~= d.take(i));
}

/// `b` with its first `k` bytes replaced by `src[from..from + k]`.
fn splice_front(b: &Vec<u8>, src: &[u8], from: usize, k: usize) -> (r: Vec<u8>)
    requires
        k <= b@.len(),
        from + k <= src@.len(),
    ensures
        r@ == src@.subrange(from as int, from + k) + b@.skip(k as int),
{
    let mut out: Vec<u8> = Vec::new();
    let slen = src.len();
    let mut j: usize = 0;
    while j < k
        invariant
            slen == src@.len(),
            j <= k,
            k <= b@.len(),
            from + k <= src@.len(),
            out@ == src@.subrange(from as int, from + j),
        decreases k - j,
    {
        out.push(src[from + j]);
        j += 1;
        proof {
            assert(out@ =~= src@.subrange(from as int, from + j));
        }
    }
    let n = b.len();
    let mut j: usize = k;
    while j < n
        invariant
            k <= j <= n,
            n == b@.len(),
            from + k <= src@.len(),
            out@ == src@.subrange(from as int, from + k) + b@.subrange(k as int, j as int),
        decreases n - j,
    {
        out.push(b[j]);
        j += 1;
        proof {
            assert(out@ =~= src@.subrange(from as int, from + k) + b@.subrange(k as int, j as int));
        }
    }
    proof {
        assert(b@.subrange(k as int, n as int) =~= b@.skip(k as int));
    }
    out
}

/// Reads `src` into the buffers in order (see `filled_from`) and returns the new buffers
/// and the number of bytes read: as many as the buffers hold, or all of `src`.
pub fn fill_from(bufs: &Vec<Vec<u8>>, src: &[u8]) -> (r: (Vec<Vec<u8>>, usize))
    ensures
        filled_from(bufs@, src@, r.0@),
        r.1 == min_nat(total_len(bufs@), src@.len()),
{
    let mut out: Vec<Vec<u8>> = Vec::new();
    let mut taken: usize = 0;
    let mut i: usize = 0;
    let n = src.len();
    while i < bufs.len()
        invariant
            i <= bufs@.len(),
            n == src@.len(),
            taken == min_nat(total_len(bufs@.take(i as int)), src@.len()),
            out@.len() == i,
            forall|j: int|
                0 <= j < i ==> #[trigger] out@[j]@ == overwrite_prefix(
                    bufs@[j]@,
                    window(src@, total_len(bufs@.take(j)) as int, bufs@[j]@.len() as int),
                ),
        decreases bufs@.len() - i,
    {
        let len = bufs[i].len();
        let k = if len <= n - taken {
            len
        } else {
            n - taken
        };
        let b = splice_front(&bufs[i], src, taken, k);
        proof {
            lemma_total_len_step(bufs@, i as int);
            let w = window(src@, total_len(bufs@.take(i as int)) as int, len as int);
            assert(w =~= src@.subrange(taken as int, taken + k));
            assert(overwrite_prefix(bufs@[i as int]@, w) =~= b@);
        }
        out.push(b);
        taken = taken + k;
        i += 1;
    }
    proof {
        assert(bufs@.take(bufs@.len() as int) =~= bufs@);
    }
    (out, taken)
}

/// `recvmsg` flag: the message ended.
pub const MSG_EOR: u32 = 0x80;
/// `recvmsg` flag: the message's data did not fit.
pub const MSG_TRUNC: u32 = 0x20;
/// `recvmsg` flag: the message's control data did not fit.
pub const MSG_CTRUNC: u32 = 0x08;

/// One message buffer of `recvmsg`/`recvmmsg`.
pub struct RecvMsg {
    /// The buffer for the sender's address, and the length of the address.
    pub addr_bytes: Vec<u8>,
    pub addrlen: u32,
    /// The buffer for control data, and on return the length of what it holds.
    pub control: Vec<u8>,
    pub control_len: usize,
    /// The buffers for the data, and on return the number of bytes received.
    pub bufs: Vec<Vec<u8>>,
    pub buflen: u32,
    pub flags: u32,
}

/// The buffers a read fills.
pub enum ReadData {
    /// `read`/`recv` into one buffer.
    Slice(Vec<u8>),
    /// `readv` into several buffers.
    Iovec(Vec<Vec<u8>>),
    /// A positioned read (`pread`), which a socket refuses.
    File,
    /// `recvmsg`/`recvmmsg` into message buffers.
    Messages(Vec<RecvMsg>),
}

/// The flags of a received message.
pub open spec fn recv_flags(ctrunc: bool, trunc: bool) -> u32 {
    MSG_EOR | (if ctrunc { MSG_CTRUNC } else { 0u32 }) | (if trunc { MSG_TRUNC } else { 0u32 })
}

/// `out` is message buffer `m` after receiving datagram `d`: the sender's address (in the
/// given byte order), as much control data and data as fit, their lengths, and the flags.
pub open spec fn datagram_received(m: RecvMsg, d: ConnectionlessMessage, little: bool, out: RecvMsg) -> bool {
    let total = min_nat(total_len(m.bufs@), d.data@.len());
    let clen = min_nat(m.control_len as nat, d.ancillary@.len());
    &&& out.addr_bytes@ == overwrite_prefix(m.addr_bytes@, sockaddr_bytes(d.source, little))
    &&& out.addrlen == sockaddr_bytes(d.source, little).len()
    &&& out.control@ == overwrite_prefix(m.control@, d.ancillary@)
    &&& out.control_len == clen
    &&& filled_from(m.bufs@, d.data@, out.bufs@)
    &&& out.buflen == total as u32
    &&& out.flags == recv_flags(clen < d.ancillary@.len(), total < d.data@.len())
}

/// Fills message buffer `m` with datagram `d` (see `datagram_received`).
fn receive_datagram(m: RecvMsg, d: &ConnectionlessMessage, little: bool) -> (r: RecvMsg)
    ensures
        datagram_received(m, *d, little, r),
{
    let RecvMsg { mut addr_bytes, addrlen: _, mut control, control_len, bufs, buflen: _, flags: _ } = m;
    let addrlen = d.source.encode_ordered(&mut addr_bytes, little);
    proof {
        assert(sockaddr_bytes(d.source, little).len() <= 28) by {
            broadcast use crate::socket::lemma_int_bytes_len_b;
        }
    }
    write_prefix(&mut control, &d.ancillary);
    let anc_len = d.ancillary.len();
    let clen = if control_len < anc_len {
        control_len
    } else {
        anc_len
    };
    let (filled, total) = fill_from(&bufs, d.data.as_slice());
    let flags = MSG_EOR | (if clen < anc_len {
        MSG_CTRUNC
    } else {
        0u32
    }) | (if total < d.data.len() {
        MSG_TRUNC
    } else {
        0u32
    });
    RecvMsg {
        addr_bytes,
        addrlen: addrlen as u32,
        control,
        control_len: clen,
        bufs: filled,
        buflen: total as u32,
        flags,
    }
}

/// The datagram queue after `n` datagrams are taken from its front: it stays readable
/// only while datagrams remain.
pub open spec fn datagrams_popped(q: DatagramQueue, n: nat, q2: DatagramQueue) -> bool {
    &&& q2.recv@ == q.recv@.skip(n as int)
    &&& q2.write_raised == q.write_raised
    &&& q2.read_raised == (q.read_raised && q2.recv@.len() > 0)
}

/// Whether a read of `data` from a connectionless socket with queue `q` is defined: a
/// datagram is waiting (for messages, unless none are asked for), and a single buffer is
/// no longer than the first datagram.
pub open spec fn datagram_read_defined(q: DatagramQueue, data: ReadData) -> bool {
    match data {
        ReadData::Slice(_) => q.recv@.len() > 0,
        ReadData::Iovec(_) => q.recv@.len() > 0,
        ReadData::File => true,
        ReadData::Messages(ms) => ms@.len() > 0 ==> q.recv@.len() > 0,
    }
}

/// A read of `data` from a connectionless socket with queue `q`: the queue `q2`, the
/// buffers `data2` and the answer `r` it leaves. One buffer, or several in order, take the
/// first datagram, as much of it as they hold (the rest of the datagram is dropped; bytes
/// of the buffers beyond it keep what they held), and the number of bytes taken is
/// answered; message buffers each take one datagram; a positioned read fails with
/// `ESPIPE`.
pub open spec fn datagram_read(
    q: DatagramQueue,
    data: ReadData,
    little: bool,
    q2: DatagramQueue,
    data2: ReadData,
    r: Outcome<usize, Errno>,
) -> bool {
    match data {
        ReadData::File => r == Outcome::<usize, Errno>::Error(Errno::ESPIPE) && q2.recv@ == q.recv@
            && q2.read_raised == q.read_raised && q2.write_raised == q.write_raised && data2 is File,
        ReadData::Slice(s) => {
            &&& (data2 matches ReadData::Slice(s2) && s2@ == overwrite_prefix(s@, q.recv@[0].data@))
            &&& r == Outcome::<usize, Errno>::Success(min_nat(s@.len(), q.recv@[0].data@.len()) as usize)
            &&& datagrams_popped(q, 1, q2)
        },
        ReadData::Iovec(v) => {
            &&& (data2 matches ReadData::Iovec(v2) && filled_from(v@, q.recv@[0].data@, v2@))
            &&& r == Outcome::<usize, Errno>::Success(min_nat(total_len(v@), q.recv@[0].data@.len()) as usize)
            &&& datagrams_popped(q, 1, q2)
        },
        ReadData::Messages(ms) => {
            let n = min_nat(ms@.len(), q.recv@.len());
            &&& data2 matches ReadData::Messages(ms2) && ms2@.len() == ms@.len() && (forall|i: int|
                0 <= i < n ==> #[trigger] datagram_received(ms@[i], q.recv@[i], little, ms2@[i])) && (
            forall|i: int| n <= i < ms@.len() ==> #[trigger] ms2@[i] == ms@[i])
            &&& r == Outcome::<usize, Errno>::Success(n as usize)
            &&& datagrams_popped(q, n, q2)
        },
    }
}

/// Reads `data` from a connectionless socket's queue (see `datagram_read`).
pub fn read_datagrams(q: DatagramQueue, data: ReadData, little: bool) -> (r: (
    DatagramQueue,
    ReadData,
    Outcome<usize, Errno>,
))
    requires
        datagram_read_defined(q, data),
    ensures
        datagram_read(q, data, little, r.0, r.1, r.2),
{
    let DatagramQueue { mut recv, read_raised, write_raised } = q;
    match data {
        ReadData::File => {
            (DatagramQueue { recv, read_raised, write_raised }, ReadData::File, Outcome::Error(Errno::ESPIPE))
        },
        ReadData::Slice(s) => {
            let d = recv.remove(0);
            let mut out = s;
            write_prefix(&mut out, &d.data);
            let n = if out.len() < d.data.len() {
                out.len()
            } else {
                d.data.len()
            };
            let raised = read_raised && recv.len() > 0;
            (DatagramQueue { recv, read_raised: raised, write_raised }, ReadData::Slice(out), Outcome::Success(n))
        },
        ReadData::Iovec(v) => {
            let d = recv.remove(0);
            let (filled, total) = fill_from(&v, d.data.as_slice());
            let raised = read_raised && recv.len() > 0;
            (DatagramQueue { recv, read_raised: raised, write_raised }, ReadData::Iovec(filled), Outcome::Success(total))
        },
        ReadData::Messages(ms) => {
            let ghost orig = ms@;
            let ghost queue = recv@;
            let n_msgs = ms.len();
            let mut rest = ms;
            let mut out: Vec<RecvMsg> = Vec::new();
            let mut count: usize = 0;
            while rest.len() > 0 && recv.len() > 0
                invariant
                    count == out@.len(),
                    n_msgs == orig.len(),
                    count <= orig.len(),
                    count <= queue.len(),
                    rest@ == orig.skip(count as int),
                    recv@ == queue.skip(count as int),
                    forall|i: int| 0 <= i < count ==> #[trigger] datagram_received(orig[i], queue[i], little, out@[i]),
                decreases rest@.len(),
            {
                let m = rest.remove(0);
                let d = recv.remove(0);
                let m2 = receive_datagram(m, &d, little);
                out.push(m2);
                count += 1;
                proof {
                    assert(rest@ =~= orig.skip(count as int));
                    assert(recv@ =~= queue.skip(count as int));
                }
            }
            let ghost filled = out@;
            while rest.len() > 0
                invariant
                    out@.len() + rest@.len() == orig.len(),
                    count == filled.len(),
                    out@.subrange(0, count as int) == filled,
                    rest@ == orig.skip(out@.len() as int),
                    count <= out@.len(),
                    forall|i: int| count <= i < out@.len() ==> #[trigger] out@[i] == orig[i],
                decreases rest@.len(),
            {
                let m = rest.remove(0);
                let ghost k = out@.len();
                out.push(m);
                proof {
                    assert(rest@ =~= orig.skip(out@.len() as int));
                    assert(out@.subrange(0, count as int) =~= filled);
                }
            }
            let raised = read_raised && recv.len() > 0;
            proof {
                assert(count == min_nat(orig.len(), queue.len()));
                assert forall|i: int| 0 <= i < count implies #[trigger] datagram_received(orig[i], queue[i], little, out@[i]) by {
                    assert(out@[i] == filled[i]);
                }
            }
            (DatagramQueue { recv, read_raised: raised, write_raised }, ReadData::Messages(out), Outcome::Success(count))
        },
    }
}

/// The first chunk of a connected socket's queue is read from a position inside it.
pub open spec fn stream_wf(q: StreamQueue) -> bool {
    q.recv@.len() > 0 ==> q.read_idx <= q.recv@[0]@.len()
}

/// The queue position after `k` more bytes of the first chunk are read: a chunk read to
/// its end leaves the queue.
pub open spec fn stream_step(recv: Seq<Vec<u8>>, idx: nat, k: nat) -> (Seq<Vec<u8>>, nat) {
    if idx + k == recv[0]@.len() {
        (recv.drop_first(), 0)
    } else {
        (recv, idx + k)
    }
}

/// The queue position after message buffers `ms[..j]` are each filled from the first
/// chunk left, stopping when no chunk is left.
pub open spec fn stream_state(recv: Seq<Vec<u8>>, idx: nat, ms: Seq<RecvMsg>, j: nat) -> (Seq<Vec<u8>>, nat)
    decreases j,
{
    if j == 0 {
        (recv, idx)
    } else {
        let prev = stream_state(recv, idx, ms, (j - 1) as nat);
        if prev.0.len() == 0 {
            prev
        } else {
            let avail = (prev.0[0]@.len() - prev.1) as nat;
            stream_step(prev.0, prev.1, min_nat(total_len(ms[j - 1].bufs@), avail))
        }
    }
}

/// The connected socket's queue after a read left it at `recv2`/`idx2`: it stays
/// readable unless nothing is left and the peer is still open.
pub open spec fn stream_left(q: StreamQueue, recv2: Seq<Vec<u8>>, idx2: nat, peer_closed: bool, q2: StreamQueue) -> bool {
    &&& q2.recv@ == recv2
    &&& q2.read_idx == idx2
    &&& q2.peer == q.peer
    &&& q2.write_raised == q.write_raised
    &&& q2.read_raised == (q.read_raised && !(recv2.len() == 0 && !peer_closed))
}

/// `out` is message buffer `m` after receiving from chunk `c` at `idx`, from peer `peer`:
/// the peer's address (in the given byte order), as much of the chunk as fits, no control
/// data.
pub open spec fn stream_received(m: RecvMsg, c: Seq<u8>, idx: nat, peer: SockAddr, little: bool, out: RecvMsg) -> bool {
    let src = c.skip(idx as int);
    &&& out.addr_bytes@ == overwrite_prefix(m.addr_bytes@, sockaddr_bytes(peer, little))
    &&& out.addrlen == sockaddr_bytes(peer, little).len()
    &&& out.control@ == m.control@
    &&& out.control_len == 0
    &&& filled_from(m.bufs@, src, out.bufs@)
    &&& out.buflen == min_nat(total_len(m.bufs@), src.len()) as u32
    &&& out.flags == MSG_EOR
}

/// Whether a read of `data` from a connected socket with queue `q` is defined: data is
/// waiting, or (for one buffer or several) the peer has closed.
pub open spec fn stream_read_defined(q: StreamQueue, peer_closed: bool, data: ReadData) -> bool {
    &&& stream_wf(q)
    &&& match data {
        ReadData::Slice(_) | ReadData::Iovec(_) => q.recv@.len() > 0 || peer_closed,
        ReadData::File => true,
        ReadData::Messages(ms) => ms@.len() > 0 ==> q.recv@.len() > 0,
    }
}

/// A read of `data` from a connected socket with queue `q` whose peer is `peer` (closed
/// when `peer_closed`): one buffer, or several in order, take what they can of the first
/// chunk from the read position; message buffers each do so in turn, while chunks are
/// left; a closed peer with nothing left reads 0 bytes; a positioned read fails with
/// `ESPIPE`.
pub open spec fn stream_read(
    q: StreamQueue,
    peer_closed: bool,
    peer: SockAddr,
    data: ReadData,
    little: bool,
    q2: StreamQueue,
    data2: ReadData,
    r: Outcome<usize, Errno>,
) -> bool {
    let unchanged = q2.recv@ == q.recv@ && q2.read_idx == q.read_idx && q2.peer == q.peer && q2.read_raised
        == q.read_raised && q2.write_raised == q.write_raised;
    match data {
        ReadData::File => r == Outcome::<usize, Errno>::Error(Errno::ESPIPE) && unchanged && data2 is File,
        ReadData::Slice(s) => if q.recv@.len() == 0 {
            r == Outcome::<usize, Errno>::Success(0) && unchanged && data2 == data
        } else {
            let src = q.recv@[0]@.skip(q.read_idx as int);
            let k = min_nat(s@.len(), src.len());
            let next = stream_step(q.recv@, q.read_idx as nat, k);
            &&& (data2 matches ReadData::Slice(s2) && s2@ == overwrite_prefix(s@, window(src, 0, s@.len() as int)))
            &&& r == Outcome::<usize, Errno>::Success(k as usize)
            &&& stream_left(q, next.0, next.1, peer_closed, q2)
        },
        ReadData::Iovec(v) => if q.recv@.len() == 0 {
            r == Outcome::<usize, Errno>::Success(0) && unchanged && data2 == data
        } else {
            let src = q.recv@[0]@.skip(q.read_idx as int);
            let k = min_nat(total_len(v@), src.len());
            let next = stream_step(q.recv@, q.read_idx as nat, k);
            &&& (data2 matches ReadData::Iovec(v2) && filled_from(v@, src, v2@))
            &&& r == Outcome::<usize, Errno>::Success(k as usize)
            &&& stream_left(q, next.0, next.1, peer_closed, q2)
        },
        ReadData::Messages(ms) => {
            let n = stream_count(q.recv@, q.read_idx as nat, ms@, ms@.len());
            let last = stream_state(q.recv@, q.read_idx as nat, ms@, ms@.len());
            &&& data2 matches ReadData::Messages(ms2) && ms2@.len() == ms@.len() && (forall|i: int|
                0 <= i < n ==> {
                    let st = #[trigger] stream_state(q.recv@, q.read_idx as nat, ms@, i as nat);
                    stream_received(ms@[i], st.0[0]@, st.1, peer, little, ms2@[i])
                }) && (forall|i: int| n <= i < ms@.len() ==> #[trigger] ms2@[i] == ms@[i])
            &&& r == Outcome::<usize, Errno>::Success(n as usize)
            &&& stream_left(q, last.0, last.1, peer_closed, q2)
        },
    }
}

/// How many of the message buffers `ms[..j]` are filled before no chunk is left.
pub open spec fn stream_count(recv: Seq<Vec<u8>>, idx: nat, ms: Seq<RecvMsg>, j: nat) -> nat
    decreases j,
{
    if j == 0 {
        0
    } else if stream_state(recv, idx, ms, (j - 1) as nat).0.len() > 0 {
        stream_count(recv, idx, ms, (j - 1) as nat) + 1
    } else {
        stream_count(recv, idx, ms, (j - 1) as nat)
    }
}

/// Once no chunk is left, filling more message buffers changes nothing.
proof fn lemma_stream_exhausted(recv: Seq<Vec<u8>>, idx: nat, ms: Seq<RecvMsg>, i: nat, j: nat)
    requires
        i <= j,
        stream_state(recv, idx, ms, i).0.len() == 0,
    ensures
        stream_state(recv, idx, ms, j) == stream_state(recv, idx, ms, i),
        stream_count(recv, idx, ms, j) == stream_count(recv, idx, ms, i),
    decreases j - i,
{
    if i < j {
        lemma_stream_exhausted(recv, idx, ms, i, (j - 1) as nat);
    }
}

/// Reads one chunk's bytes from `idx` into the buffers and moves the queue on; returns
/// the new buffers and the number of bytes read.
fn take_from_chunk(recv: &mut Vec<Vec<u8>>, idx: &mut usize, bufs: &Vec<Vec<u8>>) -> (r: (Vec<Vec<u8>>, usize))
    requires
        old(recv)@.len() > 0,
        *old(idx) <= old(recv)@[0]@.len(),
    ensures
        ({
            let src = old(recv)@[0]@.skip(*old(idx) as int);
            let k = min_nat(total_len(bufs@), src.len());
            let next = stream_step(old(recv)@, *old(idx) as nat, k);
            &&& filled_from(bufs@, src, r.0@)
            &&& r.1 == k
            &&& final(recv)@ == next.0
            &&& *final(idx) == next.1
        }),
{
    let start = *idx;
    let chunk = recv.remove(0);
    let ghost c = chunk@;
    let len = chunk.len();
    let tail = slice_from(&chunk, start);
    let (filled, total) = fill_from(bufs, tail.as_slice());
    if start + total == len {
        *idx = 0;
    } else {
        *idx = start + total;
        recv.insert(0, chunk);
        proof {
            assert(recv@ =~= old(recv)@);
        }
    }
    (filled, total)
}

/// The bytes of `v` from `from` on.
fn slice_from(v: &Vec<u8>, from: usize) -> (r: Vec<u8>)
    requires
        from <= v@.len(),
    ensures
        r@ == v@.skip(from as int),
{
    let mut out: Vec<u8> = Vec::new();
    let n = v.len();
    let mut i: usize = from;
    while i < n
        invariant
            from <= i <= n,
            n == v@.len(),
            out@ == v@.subrange(from as int, i as int),
        decreases n - i,
    {
        out.push(v[i]);
        i += 1;
        proof {
            assert(out@ =~= v@.subrange(from as int, i as int));
        }
    }
    proof {
        assert(v@.subrange(from as int, n as int) =~= v@.skip(from as int));
    }
    out
}

/// Reads `data` from a connected socket's queue (see `stream_read`).
pub fn read_stream(q: StreamQueue, peer_closed: bool, peer: SockAddr, data: ReadData, little: bool) -> (r: (
    StreamQueue,
    ReadData,
    Outcome<usize, Errno>,
))
    requires
        stream_read_defined(q, peer_closed, data),
    ensures
        stream_read(q, peer_closed, peer, data, little, r.0, r.1, r.2),
{
    let StreamQueue { peer: peer_id, mut recv, mut read_idx, read_raised, write_raised } = q;
    match data {
        ReadData::File => (StreamQueue { peer: peer_id, recv, read_idx, read_raised, write_raised }, ReadData::File, Outcome::Error(Errno::ESPIPE)),
        ReadData::Slice(s) => {
            if recv.len() == 0 {
                return (StreamQueue { peer: peer_id, recv, read_idx, read_raised, write_raised }, ReadData::Slice(s), Outcome::Success(0));
            }
            let mut one: Vec<Vec<u8>> = Vec::new();
            one.push(s);
            let (filled, total) = take_from_chunk(&mut recv, &mut read_idx, &one);
            let raised = read_raised && !(recv.len() == 0 && !peer_closed);
            let mut filled = filled;
            let s2 = filled.remove(0);
            proof {
                let src = q.recv@[0]@.skip(q.read_idx as int);
                assert(one@.take(0) =~= Seq::<Vec<u8>>::empty());
                assert(total_len(one@.take(0)) == 0);
                assert(one@.drop_last() =~= Seq::<Vec<u8>>::empty());
                assert(total_len(one@) == one@[0]@.len());
            }
            (StreamQueue { peer: peer_id, recv, read_idx, read_raised: raised, write_raised }, ReadData::Slice(s2), Outcome::Success(total))
        },
        ReadData::Iovec(v) => {
            if recv.len() == 0 {
                return (StreamQueue { peer: peer_id, recv, read_idx, read_raised, write_raised }, ReadData::Iovec(v), Outcome::Success(0));
            }
            let (filled, total) = take_from_chunk(&mut recv, &mut read_idx, &v);
            let raised = read_raised && !(recv.len() == 0 && !peer_closed);
            (StreamQueue { peer: peer_id, recv, read_idx, read_raised: raised, write_raised }, ReadData::Iovec(filled), Outcome::Success(total))
        },
        ReadData::Messages(ms) => {
            let ghost orig = ms@;
            let ghost recv0 = recv@;
            let ghost idx0 = read_idx as nat;
            let n_msgs = ms.len();
            let mut rest = ms;
            let mut out: Vec<RecvMsg> = Vec::new();
            let mut count: usize = 0;
            while rest.len() > 0 && recv.len() > 0
                invariant
                    count == out@.len(),
                    n_msgs == orig.len(),
                    count <= orig.len(),
                    rest@ == orig.skip(count as int),
                    (recv@, read_idx as nat) == stream_state(recv0, idx0, orig, count as nat),
                    recv@.len() > 0 ==> read_idx <= recv@[0]@.len(),
                    count == stream_count(recv0, idx0, orig, count as nat),
                    forall|i: int|
                        0 <= i < count ==> {
                            let st = #[trigger] stream_state(recv0, idx0, orig, i as nat);
                            &&& st.0.len() > 0
                            &&& stream_received(orig[i], st.0[0]@, st.1, peer, little, out@[i])
                        },
                decreases rest@.len(),
            {
                let m = rest.remove(0);
                let ghost c = recv@[0]@;
                let ghost i0 = read_idx as nat;
                let RecvMsg { mut addr_bytes, addrlen: _, control, control_len: _, bufs, buflen: _, flags: _ } = m;
                let addrlen = peer.encode_ordered(&mut addr_bytes, little);
                proof {
                    assert(sockaddr_bytes(peer, little).len() <= 28) by {
                        broadcast use crate::socket::lemma_int_bytes_len_b;
                    }
                }
                let (filled, total) = take_from_chunk(&mut recv, &mut read_idx, &bufs);
                let m2 = RecvMsg {
                    addr_bytes,
                    addrlen: addrlen as u32,
                    control,
                    control_len: 0,
                    bufs: filled,
                    buflen: total as u32,
                    flags: MSG_EOR,
                };
                out.push(m2);
                count += 1;
                proof {
                    assert(rest@ =~= orig.skip(count as int));
                    assert(orig[count - 1] == m);
                    if recv@.len() > 0 {
                        assert(read_idx <= recv@[0]@.len());
                    }
                }
            }
            let ghost filled_msgs = out@;
            proof {
                if count < orig.len() {
                    assert(recv@.len() == 0);
                    lemma_stream_exhausted(recv0, idx0, orig, count as nat, orig.len());
                }
            }
            while rest.len() > 0
                invariant
                    out@.len() + rest@.len() == orig.len(),
                    count == filled_msgs.len(),
                    out@.subrange(0, count as int) == filled_msgs,
                    rest@ == orig.skip(out@.len() as int),
                    count <= out@.len(),
                    forall|i: int| count <= i < out@.len() ==> #[trigger] out@[i] == orig[i],
                decreases rest@.len(),
            {
                let m = rest.remove(0);
                out.push(m);
                proof {
                    assert(rest@ =~= orig.skip(out@.len() as int));
                    assert(out@.subrange(0, count as int) =~= filled_msgs);
                }
            }
            let raised = read_raised && !(recv.len() == 0 && !peer_closed);
            proof {
                assert forall|i: int| 0 <= i < count implies {
                    let st = #[trigger] stream_state(recv0, idx0, orig, i as nat);
                    stream_received(orig[i], st.0[0]@, st.1, peer, little, out@[i])
                } by {
                    assert(out@[i] == filled_msgs[i]);
                }
            }
            (StreamQueue { peer: peer_id, recv, read_idx, read_raised: raised, write_raised }, ReadData::Messages(out), Outcome::Success(count))
        },
    }
}

/// The number of bytes the data buffers of messages `ms` hold.
pub open spec fn msgs_total(ms: Seq<RecvMsg>) -> nat
    decreases ms.len(),
{
    if ms.len() == 0 {
        0
    } else {
        msgs_total(ms.drop_last()) + total_len(ms.last().bufs@)
    }
}

/// Whether every buffer of `v`, as `out` holds it, is all zeros of its old length.
pub open spec fn zeroed(v: Seq<Vec<u8>>, out: Seq<Vec<u8>>) -> bool {
    &&& out.len() == v.len()
    &&& forall|i: int| 0 <= i < v.len() ==> #[trigger] out[i]@ == Seq::new(v[i]@.len(), |j: int| 0u8)
}

/// Whether a read of `data` from a connection that reads zeros is defined: the lengths
/// it adds up fit a `usize`.
pub open spec fn null_read_defined(data: ReadData) -> bool {
    match data {
        ReadData::Iovec(v) => total_len(v@) <= usize::MAX,
        _ => true,
    }
}

/// A read of `data` from a connection that reads zeros: every buffer is zeroed and counts
/// as read; message buffers report no address and no control data, and the number of
/// messages is returned.
pub open spec fn null_read(data: ReadData, data2: ReadData, r: Outcome<usize, Errno>) -> bool {
    match data {
        ReadData::File => r == Outcome::<usize, Errno>::Error(Errno::ESPIPE) && data2 is File,
        ReadData::Slice(s) => (data2 matches ReadData::Slice(s2) && s2@ == Seq::new(s@.len(), |j: int| 0u8)) && r
            == Outcome::<usize, Errno>::Success(s@.len() as usize),
        ReadData::Iovec(v) => (data2 matches ReadData::Iovec(v2) && zeroed(v@, v2@)) && r
            == Outcome::<usize, Errno>::Success(total_len(v@) as usize),
        ReadData::Messages(ms) => {
            &&& data2 matches ReadData::Messages(ms2) && ms2@.len() == ms@.len() && forall|i: int|
                0 <= i < ms@.len() ==> {
                    let (m, m2) = (ms@[i], #[trigger] ms2@[i]);
                    &&& m2.addrlen == 0
                    &&& m2.control_len == 0
                    &&& zeroed(m.bufs@, m2.bufs@)
                    &&& m2.addr_bytes@ == m.addr_bytes@
                    &&& m2.control@ == m.control@
                    &&& m2.buflen == m.buflen
                    &&& m2.flags == m.flags
                }
            &&& r == Outcome::<usize, Errno>::Success(ms@.len() as usize)
        },
    }
}

/// Zeros of the given length.
fn zeros(n: usize) -> (r: Vec<u8>)
    ensures
        r@ == Seq::new(n as nat, |j: int| 0u8),
{
    let mut out: Vec<u8> = Vec::new();
    let mut i: usize = 0;
    while i < n
        invariant
            i <= n,
            out@ == Seq::new(i as nat, |j: int| 0u8),
        decreases n - i,
    {
        out.push(0);
        i += 1;
        proof {
            assert(out@ =~= Seq::new(i as nat, |j: int| 0u8));
        }
    }
    out
}

/// Each buffer zeroed.
fn zero_all(v: &Vec<Vec<u8>>) -> (r: Vec<Vec<u8>>)
    ensures
        zeroed(v@, r@),
{
    let mut out: Vec<Vec<u8>> = Vec::new();
    let mut i: usize = 0;
    while i < v.len()
        invariant
            i <= v@.len(),
            out@.len() == i,
            forall|j: int| 0 <= j < i ==> #[trigger] out@[j]@ == Seq::new(v@[j]@.len(), |k: int| 0u8),
        decreases v@.len() - i,
    {
        out.push(zeros(v[i].len()));
        i += 1;
    }
    out
}

/// Reads `data` from a connection that reads zeros (see `null_read`).
pub fn read_null(data: ReadData) -> (r: (ReadData, Outcome<usize, Errno>))
    requires
        null_read_defined(data),
    ensures
        null_read(data, r.0, r.1),
{
    match data {
        ReadData::File => (ReadData::File, Outcome::Error(Errno::ESPIPE)),
        ReadData::Slice(s) => {
            let n = s.len();
            (ReadData::Slice(zeros(n)), Outcome::Success(n))
        },
        ReadData::Iovec(v) => {
            let z = zero_all(&v);
            let mut total: usize = 0;
            let mut i: usize = 0;
            while i < v.len()
                invariant
                    i <= v@.len(),
                    total_len(v@) <= usize::MAX,
                    total == total_len(v@.take(i as int)),
                decreases v@.len() - i,
            {
                proof {
                    lemma_total_len_step(v@, i as int);
                    lemma_total_len_take_le(v@, i + 1);
                }
                total = total + v[i].len();
                i += 1;
            }
            proof {
                assert(v@.take(v@.len() as int) =~= v@);
            }
            (ReadData::Iovec(z), Outcome::Success(total))
        },
        ReadData::Messages(ms) => {
            let ghost orig = ms@;
            let n = ms.len();
            let mut rest = ms;
            let mut out: Vec<RecvMsg> = Vec::new();
            while rest.len() > 0
                invariant
                    out@.len() + rest@.len() == orig.len(),
                    n == orig.len(),
                    rest@ == orig.skip(out@.len() as int),
                    forall|i: int|
                        0 <= i < out@.len() ==> {
                            let (m, m2) = (orig[i], #[trigger] out@[i]);
                            &&& m2.addrlen == 0
                            &&& m2.control_len == 0
                            &&& zeroed(m.bufs@, m2.bufs@)
                            &&& m2.addr_bytes@ == m.addr_bytes@
                            &&& m2.control@ == m.control@
                            &&& m2.buflen == m.buflen
                            &&& m2.flags == m.flags
                        },
                decreases rest@.len(),
            {
                let ghost k = out@.len();
                let m = rest.remove(0);
                proof {
                    assert(m == orig[k as int]);
                }
                let RecvMsg { addr_bytes, addrlen: _, control, control_len: _, bufs, buflen, flags } = m;
                let z = zero_all(&bufs);
                out.push(RecvMsg { addr_bytes, addrlen: 0, control, control_len: 0, bufs: z, buflen, flags });
                proof {
                    assert(rest@ =~= orig.skip(out@.len() as int));
                }
            }
            (ReadData::Messages(out), Outcome::Success(n))
        },
    }
}

proof fn lemma_total_len_take_le(d: Seq<Vec<u8>>, i: int)
    requires
        0 <= i <= d.len(),
    ensures
        total_len(d.take(i)) <= total_len(d),
    decreases d.len() - i,
{
    if i < d.len() {
        lemma_total_len_take_le(d, i + 1);
        lemma_total_len_step(d, i);
    } else {
        assert(d.take(i) =~= d);
    }
}

/// Whether a read of `data` from a connection reading the fuzzing input `input` at `idx`
/// is defined: every buffer can be filled from what is left of the input.
pub open spec fn fuzz_read_defined(input: Seq<u8>, idx: nat, data: ReadData) -> bool {
    &&& idx <= input.len()
    &&& match data {
        ReadData::Slice(s) => idx + s@.len() <= input.len(),
        ReadData::Iovec(v) => idx + total_len(v@) <= input.len(),
        ReadData::File => true,
        ReadData::Messages(ms) => idx + msgs_total(ms@) <= input.len(),
    }
}

/// A read of `data` from a connection reading the fuzzing input `input` at `idx`: the
/// buffers are filled in order with the next bytes of the input (the data buffers of
/// message buffers too, which are otherwise left alone), and the number of bytes read is
/// returned; `idx2` is the new position.
pub open spec fn fuzz_read(input: Seq<u8>, idx: nat, data: ReadData, idx2: nat, data2: ReadData, r: Outcome<
    usize,
    Errno,
>) -> bool {
    let src = input.skip(idx as int);
    match data {
        ReadData::File => r == Outcome::<usize, Errno>::Error(Errno::ESPIPE) && idx2 == idx && data2 is File,
        ReadData::Slice(s) => {
            &&& (data2 matches ReadData::Slice(s2) && s2@ == src.take(s@.len() as int))
            &&& r == Outcome::<usize, Errno>::Success(s@.len() as usize)
            &&& idx2 == idx + s@.len()
        },
        ReadData::Iovec(v) => {
            &&& (data2 matches ReadData::Iovec(v2) && scattered(src, v@, v2@))
            &&& r == Outcome::<usize, Errno>::Success(total_len(v@) as usize)
            &&& idx2 == idx + total_len(v@)
        },
        ReadData::Messages(ms) => {
            &&& data2 matches ReadData::Messages(ms2) && ms2@.len() == ms@.len() && forall|i: int|
                0 <= i < ms@.len() ==> {
                    let (m, m2) = (ms@[i], #[trigger] ms2@[i]);
                    &&& scattered(src.skip(msgs_total(ms@.take(i)) as int), m.bufs@, m2.bufs@)
                    &&& m2.addr_bytes@ == m.addr_bytes@
                    &&& m2.addrlen == m.addrlen
                    &&& m2.control@ == m.control@
                    &&& m2.control_len == m.control_len
                    &&& m2.buflen == m.buflen
                    &&& m2.flags == m.flags
                }
            &&& r == Outcome::<usize, Errno>::Success(msgs_total(ms@) as usize)
            &&& idx2 == idx + msgs_total(ms@)
        },
    }
}

proof fn lemma_msgs_total_step(ms: Seq<RecvMsg>, i: int)
    requires
        0 <= i < ms.len(),
    ensures
        msgs_total(ms.take(i + 1)) == msgs_total(ms.take(i)) + total_len(ms[i].bufs@),
{
    assert(ms.take(i + 1).drop_last() =~= ms.take(i));
}

proof fn lemma_msgs_total_take_le(ms: Seq<RecvMsg>, i: int)
    requires
        0 <= i <= ms.len(),
    ensures
        msgs_total(ms.take(i)) <= msgs_total(ms),
    decreases ms.len() - i,
{
    if i < ms.len() {
        lemma_msgs_total_take_le(ms, i + 1);
        lemma_msgs_total_step(ms, i);
    } else {
        assert(ms.take(i) =~= ms);
    }
}

/// Reads `data` from the fuzzing input at `idx` (see `fuzz_read`); returns the new
/// position, the buffers and the answer.
pub fn read_fuzz(input: &Vec<u8>, idx: usize, data: ReadData) -> (r: (usize, ReadData, Outcome<usize, Errno>))
    requires
        fuzz_read_defined(input@, idx as nat, data),
    ensures
        fuzz_read(input@, idx as nat, data, r.0 as nat, r.1, r.2),
{
    let ilen = input.len();
    let rest_input = slice_from(input, idx);
    match data {
        ReadData::File => (idx, ReadData::File, Outcome::Error(Errno::ESPIPE)),
        ReadData::Slice(s) => {
            let n = s.len();
            let mut one: Vec<Vec<u8>> = Vec::new();
            one.push(s);
            proof {
                assert(one@.drop_last() =~= Seq::<Vec<u8>>::empty());
                assert(total_len(Seq::<Vec<u8>>::empty()) == 0);
                assert(total_len(one@) == n);
                assert(one@.take(0) =~= Seq::<Vec<u8>>::empty());
            }
            let (filled, total) = scatter(rest_input.as_slice(), &one);
            let mut filled = filled;
            let s2 = filled.remove(0);
            proof {
                assert(s2@ =~= rest_input@.take(n as int));
            }
            (idx + n, ReadData::Slice(s2), Outcome::Success(n))
        },
        ReadData::Iovec(v) => {
            let (filled, total) = scatter(rest_input.as_slice(), &v);
            (idx + total, ReadData::Iovec(filled), Outcome::Success(total))
        },
        ReadData::Messages(ms) => {
            let ghost orig = ms@;
            let ghost src = rest_input@;
            let mut rest = ms;
            let mut out: Vec<RecvMsg> = Vec::new();
            let mut offset: usize = 0;
            while rest.len() > 0
                invariant
                    out@.len() + rest@.len() == orig.len(),
                    rest@ == orig.skip(out@.len() as int),
                    src == rest_input@,
                    ilen == input@.len(),
                    src.len() == input@.len() - idx,
                    idx + msgs_total(orig) <= input@.len(),
                    offset == msgs_total(orig.take(out@.len() as int)),
                    forall|i: int|
                        0 <= i < out@.len() ==> {
                            let (m, m2) = (orig[i], #[trigger] out@[i]);
                            &&& scattered(src.skip(msgs_total(orig.take(i)) as int), m.bufs@, m2.bufs@)
                            &&& m2.addr_bytes@ == m.addr_bytes@
                            &&& m2.addrlen == m.addrlen
                            &&& m2.control@ == m.control@
                            &&& m2.control_len == m.control_len
                            &&& m2.buflen == m.buflen
                            &&& m2.flags == m.flags
                        },
                decreases rest@.len(),
            {
                let ghost k = out@.len() as int;
                let m = rest.remove(0);
                proof {
                    assert(m == orig[k]);
                    lemma_msgs_total_step(orig, k);
                    lemma_msgs_total_take_le(orig, k + 1);
                }
                let RecvMsg { addr_bytes, addrlen, control, control_len, bufs, buflen, flags } = m;
                let here = slice_from(&rest_input, offset);
                let (filled, total) = scatter(here.as_slice(), &bufs);
                out.push(RecvMsg { addr_bytes, addrlen, control, control_len, bufs: filled, buflen, flags });
                offset = offset + total;
                proof {
                    assert(rest@ =~= orig.skip(out@.len() as int));
                }
            }
            proof {
                assert(orig.take(orig.len() as int) =~= orig);
            }
            (idx + offset, ReadData::Messages(out), Outcome::Success(offset))
        },
    }
}

/// Where a read is.
#[derive(Clone, Copy, Debug, PartialEq, Eq, Structural)]
pub enum SocketReadState {
    Start,
    /// Ready to take the data, with the poller it waited on, if any.
    Finish(Option<i64>),
}

/// The flag that marks a received message as a notification.
pub const MSG_NOTIFICATION: u32 = 0x8000;

/// The `struct sctp_shutdown_event` that a read reports once the peer of a plugin's SCTP
/// connection has closed: type `SCTP_SHUTDOWN_EVENT` (0x8005), no flags, zero length and
/// association identifier, in the given byte order.
pub open spec fn shutdown_notice(little: bool) -> Seq<u8> {
    int_bytes(0x8005, 2, little) + Seq::new(10, |i: int| 0u8)
}

/// The shutdown notice's bytes (see `shutdown_notice`).
fn shutdown_notice_bytes(little: bool) -> (r: Vec<u8>)
    ensures
        r@ == shutdown_notice(little),
{
    let mut v = int_to_bytes(0x8005u64, 2, little);
    let ghost head = v@;
    let mut i: usize = 0;
    while i < 10
        invariant
            i <= 10,
            v@ == head + Seq::new(i as nat, |k: int| 0u8),
        decreases 10 - i,
    {
        v.push(0u8);
        i += 1;
        proof {
            assert(v@ =~= head + Seq::new(i as nat, |k: int| 0u8));
        }
    }
    v
}

/// Whether a read of `data` from a plugin connection reports the shutdown notice: message
/// buffers are read from an SCTP connection whose peer has closed.
pub open spec fn notice_due(peer_closed: bool, protocol: TransportProtocol, data: ReadData) -> bool {
    peer_closed && protocol == TransportProtocol::Sctp && data is Messages
}

/// Whether a read of `data` from plugin connection `p` is defined: the shutdown notice
/// needs a message buffer; any other read is as from a connected socket's queue.
pub open spec fn plugin_read_defined(
    p: PluginEndpoint,
    peer_closed: bool,
    protocol: TransportProtocol,
    data: ReadData,
) -> bool {
    if notice_due(peer_closed, protocol, data) {
        data->Messages_0@.len() > 0
    } else {
        stream_read_defined(p.read, peer_closed, data)
    }
}

/// `out` is message buffer `m` holding the shutdown notice from peer `peer`: the peer's
/// address, as much of the notice as fits, its full length as the byte count, no control
/// data, and the notification flag.
pub open spec fn notice_received(m: RecvMsg, peer: SockAddr, little: bool, out: RecvMsg) -> bool {
    &&& out.addr_bytes@ == overwrite_prefix(m.addr_bytes@, sockaddr_bytes(peer, little))
    &&& out.addrlen == sockaddr_bytes(peer, little).len()
    &&& out.control@ == m.control@
    &&& out.control_len == 0
    &&& filled_from(m.bufs@, shutdown_notice(little), out.bufs@)
    &&& out.buflen == 12
    &&& out.flags == MSG_NOTIFICATION
}

/// A read of `data` from plugin connection `p` whose peer is `peer` (closed when
/// `peer_closed`), over `protocol`: once the peer of an SCTP connection has closed,
/// message buffers get the shutdown notice in the first buffer, one message is read and
/// nothing is taken from the queue; any other read is as from a connected socket's queue
/// (see `stream_read`). What was written for the plugin stays.
pub open spec fn plugin_read(
    p: PluginEndpoint,
    peer_closed: bool,
    protocol: TransportProtocol,
    peer: SockAddr,
    data: ReadData,
    little: bool,
    p2: PluginEndpoint,
    data2: ReadData,
    r: Outcome<usize, Errno>,
) -> bool {
    &&& p2.write_buf@ == p.write_buf@
    &&& if notice_due(peer_closed, protocol, data) {
        let ms = data->Messages_0;
        &&& data2 matches ReadData::Messages(ms2) && ms2@.len() == ms@.len() && notice_received(
            ms@[0],
            peer,
            little,
            ms2@[0],
        ) && (forall|i: int| 1 <= i < ms@.len() ==> #[trigger] ms2@[i] == ms@[i])
        &&& r == Outcome::<usize, Errno>::Success(1)
        &&& p2.read.recv@ == p.read.recv@
        &&& p2.read.read_idx == p.read.read_idx
        &&& p2.read.peer == p.read.peer
        &&& p2.read.read_raised == p.read.read_raised
        &&& p2.read.write_raised == p.read.write_raised
    } else {
        stream_read(p.read, peer_closed, peer, data, little, p2.read, data2, r)
    }
}

/// Reads `data` from a plugin connection (see `plugin_read`).
pub fn read_plugin(
    p: PluginEndpoint,
    peer_closed: bool,
    protocol: TransportProtocol,
    peer: SockAddr,
    data: ReadData,
    little: bool,
) -> (r: (PluginEndpoint, ReadData, Outcome<usize, Errno>))
    requires
        plugin_read_defined(p, peer_closed, protocol, data),
    ensures
        plugin_read(p, peer_closed, protocol, peer, data, little, r.0, r.1, r.2),
{
    let PluginEndpoint { read, write_buf } = p;
    let sctp = match protocol {
        TransportProtocol::Sctp => true,
        _ => false,
    };
    let messages = match &data {
        ReadData::Messages(_) => true,
        _ => false,
    };
    if peer_closed && sctp && messages {
        match data {
            ReadData::Messages(ms) => {
                let ghost orig = ms@;
                let mut ms = ms;
                let m = ms.remove(0);
                let RecvMsg { mut addr_bytes, addrlen: _, control, control_len: _, bufs, buflen: _, flags: _ } = m;
                let addrlen = peer.encode_ordered(&mut addr_bytes, little);
                proof {
                    assert(sockaddr_bytes(peer, little).len() <= 28) by {
                        broadcast use crate::socket::lemma_int_bytes_len_b;
                    }
                }
                let notice = shutdown_notice_bytes(little);
                let (filled, _) = fill_from(&bufs, notice.as_slice());
                let m2 = RecvMsg {
                    addr_bytes,
                    addrlen: addrlen as u32,
                    control,
                    control_len: 0,
                    bufs: filled,
                    buflen: 12,
                    flags: MSG_NOTIFICATION,
                };
                ms.insert(0, m2);
                proof {
                    assert forall|i: int| 1 <= i < orig.len() implies #[trigger] ms@[i] == orig[i] by {
                        assert(ms@[i] == orig[i]);
                    }
                }
                (PluginEndpoint { read, write_buf }, ReadData::Messages(ms), Outcome::Success(1))
            },
            other => {
                assert(false);
                (PluginEndpoint { read, write_buf }, other, Outcome::Success(0))
            },
        }
    } else {
        let (q2, d2, r) = read_stream(read, peer_closed, peer, data, little);
        (PluginEndpoint { read: q2, write_buf }, d2, r)
    }
}

/// `read`/`recv` and their variants on socket `socket`.
pub struct SocketReadEvent {
    pub socket: i64,
    pub nonblocking: bool,
    pub data: ReadData,
    pub state: SocketReadState,
}

/// The endpoint's readable flag once emptiness is accounted for, and the endpoint with
/// that flag: a connected socket with nothing to read stops showing as readable. `None`
/// for an endpoint that is never waited on.
pub open spec fn read_poll(e: Endpoint, fuzz_len: nat) -> (Option<bool>, Endpoint) {
    match e {
        Endpoint::Datagrams(q) => (Some(q.read_raised), e),
        Endpoint::Stream(q) => {
            let has = q.recv@.len() > 0;
            (Some(q.read_raised && has), Endpoint::Stream(StreamQueue { read_raised: q.read_raised && has, ..q }))
        },
        Endpoint::Fuzz(f) => {
            let has = f.read_idx < fuzz_len;
            (Some(f.read_raised && has), Endpoint::Fuzz(FuzzEndpoint { read_raised: f.read_raised && has, ..f }))
        },
        Endpoint::Plugin(p) => {
            let has = p.read.recv@.len() > 0;
            (
                Some(p.read.read_raised && has),
                Endpoint::Plugin(
                    PluginEndpoint { read: StreamQueue { read_raised: p.read.read_raised && has, ..p.read }, ..p },
                ),
            )
        },
        Endpoint::FeedbackStream(f) => {
            let has = f.queued > 0;
            (Some(f.read_raised && has), Endpoint::FeedbackStream(FeedbackStream { read_raised: f.read_raised && has, ..f }))
        },
        _ => (None, e),
    }
}

/// What a first run that waits on `flag` answers and leaves: with nothing to wait on or a
/// raised flag it goes on at once; otherwise it fails with `EAGAIN` when nonblocking, or
/// registers poller `next_poller` on `polled` and waits.
pub open spec fn poll_outcome(
    flag: Option<bool>,
    nonblocking: bool,
    polled: Polled,
    g: GlobalState,
    st2: SocketReadState,
    g2: GlobalState,
    r: Outcome<usize, Errno>,
) -> bool {
    match flag {
        Some(false) => if nonblocking {
            &&& r == Outcome::<usize, Errno>::Error(Errno::EAGAIN)
            &&& st2 == SocketReadState::Start
            &&& g2.pollers@ == g.pollers@
            &&& g2.next_poller == g.next_poller
        } else {
            &&& r == Outcome::<usize, Errno>::Yield(YieldUntil::Indefinite)
            &&& st2 == SocketReadState::Finish(Some(g.next_poller))
            &&& g2.pollers@ == g.pollers@.insert(g.next_poller as int, polled)
            &&& g2.next_poller == g.next_poller + 1
        },
        _ => {
            &&& r == Outcome::<usize, Errno>::Yield(YieldUntil::Immediate)
            &&& st2 == SocketReadState::Finish(None)
            &&& g2.pollers@ == g.pollers@
            &&& g2.next_poller == g.next_poller
        },
    }
}

/// Whether a first run of a read on socket `id` is defined: the socket exists, a
/// connectionless one has a datagram queue, a connected one an endpoint of a connection
/// (neither a datagram queue nor a feedback socket), and a poller can be numbered.
pub open spec fn read_start_defined(id: i64, g: GlobalState) -> bool {
    &&& g.sockets@.contains_key(id as int)
    &&& g.next_poller < i64::MAX
    &&& match g.sockets@[id as int].state {
        SocketState::Connectionless(_) => g.endpoints@.contains_key(id as int) && g.endpoints@[id as int] is Datagrams,
        SocketState::Connected(_) => g.endpoints@.contains_key(id as int) && !(g.endpoints@[id as int] is Datagrams)
            && !(g.endpoints@[id as int] is Feedback),
        _ => true,
    }
}

/// The first run of a read on socket `id`: `ENOTCONN` unless the socket is connectionless
/// or connected; otherwise it waits until the socket is readable (see `read_poll` and
/// `poll_outcome`).
pub open spec fn read_start(
    id: i64,
    nonblocking: bool,
    g: GlobalState,
    st2: SocketReadState,
    g2: GlobalState,
    r: Outcome<usize, Errno>,
) -> bool {
    let sock = g.sockets@[id as int];
    if sock.state is Connectionless || sock.state is Connected {
        let (flag, e2) = read_poll(g.endpoints@[id as int], g.fuzz_input@.len());
        &&& g2.endpoints@ == g.endpoints@.insert(id as int, e2)
        &&& poll_outcome(flag, nonblocking, Polled::SocketRead(id), g, st2, g2, r)
        &&& g2 == (GlobalState { endpoints: g2.endpoints, pollers: g2.pollers, next_poller: g2.next_poller, ..g })
    } else {
        r == Outcome::<usize, Errno>::Error(Errno::ENOTCONN) && st2 == SocketReadState::Start && g2 == g
    }
}

/// Whether the second run of a read on socket `id` is defined for its endpoint.
pub open spec fn read_finish_defined(id: i64, g: GlobalState, data: ReadData) -> bool {
    &&& g.sockets@.contains_key(id as int)
    &&& (g.sockets@[id as int].state is Connectionless || g.sockets@[id as int].state is Connected)
        ==> g.endpoints@.contains_key(id as int) && match g.endpoints@[id as int] {
        Endpoint::Datagrams(q) => g.sockets@[id as int].state is Connectionless && datagram_read_defined(q, data),
        Endpoint::Stream(q) => g.sockets@[id as int].state is Connected && stream_read_defined(
            q,
            g.sockets@[id as int].state->Connected_0.peer_closed,
            data,
        ),
        Endpoint::Sink => true,
        Endpoint::NullSink => null_read_defined(data),
        Endpoint::Fuzz(f) => fuzz_read_defined(g.fuzz_input@, f.read_idx as nat, data),
        Endpoint::Plugin(p) => g.sockets@[id as int].state is Connected && plugin_read_defined(
            p,
            g.sockets@[id as int].state->Connected_0.peer_closed,
            g.sockets@[id as int].state->Connected_0.rem_addr.protocol,
            data,
        ),
        Endpoint::Feedback(_) | Endpoint::FeedbackStream(_) => false,
    }
}

/// The second run of a read on socket `id`: drops the poller waited on, then reads from
/// the socket's endpoint (`EINVAL` for a socket that is neither connectionless nor
/// connected); a connection that drops everything reads 0 bytes.
pub open spec fn read_finish(
    id: i64,
    poller: Option<i64>,
    data: ReadData,
    little: bool,
    g: GlobalState,
    data2: ReadData,
    g2: GlobalState,
    r: Outcome<usize, Errno>,
) -> bool {
    let sock = g.sockets@[id as int];
    if sock.state is Connectionless || sock.state is Connected {
        let e = g.endpoints@[id as int];
        let e2 = g2.endpoints@[id as int];
        &&& g2.pollers@ == match poller {
            Some(p) => g.pollers@.remove(p as int),
            None => g.pollers@,
        }
        &&& g2.endpoints@ == g.endpoints@.insert(id as int, e2)
        &&& g2 == (GlobalState { endpoints: g2.endpoints, pollers: g2.pollers, ..g })
        &&& match e {
            Endpoint::Datagrams(q) => e2 matches Endpoint::Datagrams(q2) && datagram_read(q, data, little, q2, data2, r),
            Endpoint::Stream(q) => e2 matches Endpoint::Stream(q2) && stream_read(
                q,
                sock.state->Connected_0.peer_closed,
                sock.state->Connected_0.rem_addr.sockaddr,
                data,
                little,
                q2,
                data2,
                r,
            ),
            Endpoint::Sink => e2 is Sink && r == Outcome::<usize, Errno>::Success(0) && data2 == data,
            Endpoint::NullSink => e2 is NullSink && null_read(data, data2, r),
            Endpoint::Fuzz(f) => e2 matches Endpoint::Fuzz(f2) && fuzz_read(
                g.fuzz_input@,
                f.read_idx as nat,
                data,
                f2.read_idx as nat,
                data2,
                r,
            ) && f2.read_raised == (f.read_raised && !(f2.read_idx == g.fuzz_input@.len() && !(data is File))),
            Endpoint::Plugin(p) => e2 matches Endpoint::Plugin(p2) && plugin_read(
                p,
                sock.state->Connected_0.peer_closed,
                sock.state->Connected_0.rem_addr.protocol,
                sock.state->Connected_0.rem_addr.sockaddr,
                data,
                little,
                p2,
                data2,
                r,
            ),
            Endpoint::Feedback(_) | Endpoint::FeedbackStream(_) => false,
        }
    } else {
        r == Outcome::<usize, Errno>::Error(Errno::EINVAL) && g2 == g && data2 == data
    }
}

impl SocketReadEvent {
    pub fn new(socket: i64, nonblocking: bool, data: ReadData) -> (r: Self)
        ensures
            r.socket == socket,
            r.nonblocking == nonblocking,
            r.data == data,
            r.state == SocketReadState::Start,
    {
        SocketReadEvent { socket, nonblocking, data, state: SocketReadState::Start }
    }

    /// Runs the read with addresses written in the given byte order: the first run waits
    /// until the socket is readable (see `read_start`), the second takes the data (see
    /// `read_finish`).
    pub fn run_ordered(&mut self, state: &mut FizzleState, little: bool) -> (r: Outcome<usize, Errno>)
        requires
            old(state).wf(),
            old(self).state == SocketReadState::Start ==> read_start_defined(old(self).socket, old(state).global),
            old(self).state != SocketReadState::Start ==> read_finish_defined(
                old(self).socket,
                old(state).global,
                old(self).data,
            ),
        ensures
            final(state).wf(),
            final(state).local == old(state).local,
            final(self).socket == old(self).socket,
            final(self).nonblocking == old(self).nonblocking,
            old(self).state == SocketReadState::Start ==> final(self).data == old(self).data && read_start(
                old(self).socket,
                old(self).nonblocking,
                old(state).global,
                final(self).state,
                final(state).global,
                r,
            ),
            old(self).state matches SocketReadState::Finish(p) ==> final(self).state == old(self).state && read_finish(
                old(self).socket,
                p,
                old(self).data,
                little,
                old(state).global,
                final(self).data,
                final(state).global,
                r,
            ),
    {
        let id = self.socket;
        let sock = match state.global.sockets.get(id as i128) {
            Some(s) => *s,
            None => {
                assert(false);
                return Outcome::Error(Errno::EBADF);
            },
        };
        let connected = match sock.state {
            SocketState::Connectionless(_) => None,
            SocketState::Connected(c) => Some(c),
            _ => {
                return match self.state {
                    SocketReadState::Start => Outcome::Error(Errno::ENOTCONN),
                    SocketReadState::Finish(_) => Outcome::Error(Errno::EINVAL),
                };
            },
        };
        let e = match state.global.endpoints.remove(id as i128) {
            Some(e) => e,
            None => {
                assert(false);
                return Outcome::Error(Errno::EBADF);
            },
        };
        match self.state {
            SocketReadState::Start => {
                let polled = match sock.state {
                    SocketState::Connectionless(c) => c.read_polled(id),
                    SocketState::Connected(c) => c.read_polled(id, &e),
                    _ => None,
                };
                let fuzz_len = state.global.fuzz_input.len();
                let (flag, e2) = start_poll(e, fuzz_len);
                let ghost ge2 = e2;
                state.global.endpoints.insert(id as i128, e2);
                assert(state.global.endpoints@ =~= old(state).global.endpoints@.insert(id as int, ge2));
                match flag {
                    Some(false) => if self.nonblocking {
                        Outcome::Error(Errno::EAGAIN)
                    } else {
                        let read_polled = match polled {
                            Some(pl) => pl,
                            None => {
                                assert(false);
                                Polled::SocketRead(id)
                            },
                        };
                        let p = state.global.next_poller;
                        state.global.next_poller = p + 1;
                        state.global.pollers.insert(p as i128, read_polled);
                        self.state = SocketReadState::Finish(Some(p));
                        Outcome::Yield(YieldUntil::Indefinite)
                    },
                    _ => {
                        self.state = SocketReadState::Finish(None);
                        Outcome::Yield(YieldUntil::Immediate)
                    },
                }
            },
            SocketReadState::Finish(poller) => {
                if let Some(p) = poller {
                    state.global.pollers.remove(p as i128);
                }
                let mut data = ReadData::File;
                std::mem::swap(&mut data, &mut self.data);
                let (e2, data2, r) = match e {
                    Endpoint::Datagrams(q) => {
                        let (q2, d2, r) = read_datagrams(q, data, little);
                        (Endpoint::Datagrams(q2), d2, r)
                    },
                    Endpoint::Stream(q) => {
                        let c = match connected {
                            Some(c) => c,
                            None => {
                                assert(false);
                                ConnectedSocket { rem_addr: TransportAddress { sockaddr: SockAddr::UnixUnnamed, protocol: TransportProtocol::Unix }, peer_closed: false }
                            },
                        };
                        let (q2, d2, r) = read_stream(q, c.peer_closed, c.rem_addr.sockaddr, data, little);
                        (Endpoint::Stream(q2), d2, r)
                    },
                    Endpoint::Sink => (Endpoint::Sink, data, Outcome::Success(0)),
                    Endpoint::NullSink => {
                        let (d2, r) = read_null(data);
                        (Endpoint::NullSink, d2, r)
                    },
                    Endpoint::Fuzz(f) => {
                        let is_file = match data {
                            ReadData::File => true,
                            _ => false,
                        };
                        let (idx2, d2, r) = read_fuzz(&state.global.fuzz_input, f.read_idx, data);
                        let raised = f.read_raised && !(idx2 == state.global.fuzz_input.len() && !is_file);
                        (Endpoint::Fuzz(FuzzEndpoint { read_idx: idx2, read_raised: raised }), d2, r)
                    },
                    Endpoint::Plugin(pe) => {
                        let c = match connected {
                            Some(c) => c,
                            None => {
                                assert(false);
                                ConnectedSocket { rem_addr: TransportAddress { sockaddr: SockAddr::UnixUnnamed, protocol: TransportProtocol::Unix }, peer_closed: false }
                            },
                        };
                        let (p2, d2, r) = read_plugin(pe, c.peer_closed, c.rem_addr.protocol, c.rem_addr.sockaddr, data, little);
                        (Endpoint::Plugin(p2), d2, r)
                    },
                    Endpoint::Feedback(f) => {
                        assert(false);
                        (Endpoint::Feedback(f), data, Outcome::Error(Errno::EINVAL))
                    },
                    Endpoint::FeedbackStream(f) => {
                        assert(false);
                        (Endpoint::FeedbackStream(f), data, Outcome::Error(Errno::EINVAL))
                    },
                };
                self.data = data2;
                let ghost ge2 = e2;
                state.global.endpoints.insert(id as i128, e2);
                assert(state.global.endpoints@ =~= old(state).global.endpoints@.insert(id as int, ge2));
                r
            },
        }
    }

    /// Runs the read, with addresses written in the machine's byte order (see
    /// `run_ordered`).
    pub fn run(&mut self, state: &mut FizzleState) -> (r: Outcome<usize, Errno>)
        requires
            old(state).wf(),
            old(self).state == SocketReadState::Start ==> read_start_defined(old(self).socket, old(state).global),
            old(self).state != SocketReadState::Start ==> read_finish_defined(
                old(self).socket,
                old(state).global,
                old(self).data,
            ),
        ensures
            final(state).wf(),
            final(state).local == old(state).local,
            final(self).socket == old(self).socket,
            final(self).nonblocking == old(self).nonblocking,
            old(self).state == SocketReadState::Start ==> final(self).data == old(self).data && read_start(
                old(self).socket,
                old(self).nonblocking,
                old(state).global,
                final(self).state,
                final(state).global,
                r,
            ),
            old(self).state matches SocketReadState::Finish(p) ==> final(self).state == old(self).state && (
            read_finish(
                old(self).socket,
                p,
                old(self).data,
                true,
                old(state).global,
                final(self).data,
                final(state).global,
                r,
            ) || read_finish(
                old(self).socket,
                p,
                old(self).data,
                false,
                old(state).global,
                final(self).data,
                final(state).global,
                r,
            )),
    {
        let little = native_little_endian();
        self.run_ordered(state, little)
    }
}

/// The readable flag a first run waits on, and the endpoint with it (see `read_poll`).
fn start_poll(e: Endpoint, fuzz_len: usize) -> (r: (Option<bool>, Endpoint))
    ensures
        r == read_poll(e, fuzz_len as nat),
{
    match e {
        Endpoint::Datagrams(q) => {
            let flag = q.read_raised;
            (Some(flag), Endpoint::Datagrams(q))
        },
        Endpoint::Stream(q) => {
            let raised = q.read_raised && q.recv.len() > 0;
            (Some(raised), Endpoint::Stream(StreamQueue { read_raised: raised, ..q }))
        },
        Endpoint::Fuzz(f) => {
            let raised = f.read_raised && f.read_idx < fuzz_len;
            (Some(raised), Endpoint::Fuzz(FuzzEndpoint { read_raised: raised, ..f }))
        },
        Endpoint::Sink => (None, Endpoint::Sink),
        Endpoint::NullSink => (None, Endpoint::NullSink),
        Endpoint::Plugin(pe) => {
            let raised = pe.read.read_raised && pe.read.recv.len() > 0;
            let PluginEndpoint { read, write_buf } = pe;
            (Some(raised), Endpoint::Plugin(PluginEndpoint { read: StreamQueue { read_raised: raised, ..read }, write_buf }))
        },
        Endpoint::Feedback(f) => (None, Endpoint::Feedback(f)),
        Endpoint::FeedbackStream(f) => {
            let raised = f.read_raised && f.queued > 0;
            (Some(raised), Endpoint::FeedbackStream(FeedbackStream { read_raised: raised, ..f }))
        },
    }
}

/// What signals that connected socket `id`, whose endpoint is `e`, can be read: its own
/// read readiness, except on a connection that drops everything.
pub open spec fn connected_read_polled(id: i64, e: Endpoint) -> Option<Polled> {
    match e {
        Endpoint::Sink | Endpoint::NullSink => None,
        _ => Some(Polled::SocketRead(id)),
    }
}

/// What signals that connected socket `id` can send: the write readiness of its peer
/// while the peer exists; nothing when the peer is gone or the connection is not to
/// another socket of the emulator.
pub open spec fn connected_write_polled(id: i64, g: GlobalState) -> Option<Polled> {
    match g.endpoints@[id as int] {
        Endpoint::Stream(q) => if peer_alive(g, q) {
            Some(Polled::SocketWrite(q.peer->Some_0))
        } else {
            None
        },
        Endpoint::Plugin(_) | Endpoint::FeedbackStream(_) => Some(Polled::SocketWrite(id)),
        _ => None,
    }
}

impl ConnectionlessSocket {
    /// What signals that connectionless socket `id` can be read: its own read readiness.
    pub fn read_polled(&self, id: i64) -> (r: Option<Polled>)
        ensures
            r == Some(Polled::SocketRead(id)),
    {
        Some(Polled::SocketRead(id))
    }

    /// The socket this one sends to: the first bound at its destination, which is also
    /// moved to the back (the sockets bound there take turns); `None` without a destination
    /// or a socket bound there.
    pub fn dst_socket(&self, g: &mut GlobalState) -> (r: Option<i64>)
        requires
            old(g).socket_locations.wf(),
        ensures
            final(g).socket_locations.wf(),
            (r, final(g).socket_locations@) == match self.rem_addr {
                Some(t) => next_bound_spec(old(g).socket_locations@, t),
                None => (None, old(g).socket_locations@),
            },
            *final(g) == (GlobalState { socket_locations: final(g).socket_locations, ..*old(g) }),
    {
        match self.rem_addr {
            Some(t) => g.socket_locations.next_bound_at(&t),
            None => None,
        }
    }
}

impl ConnectedSocket {
    /// What signals that connected socket `id`, whose endpoint is `e`, can be read (see
    /// `connected_read_polled`).
    pub fn read_polled(&self, id: i64, e: &Endpoint) -> (r: Option<Polled>)
        ensures
            r == connected_read_polled(id, *e),
    {
        match e {
            Endpoint::Sink | Endpoint::NullSink => None,
            _ => Some(Polled::SocketRead(id)),
        }
    }

    /// What signals that connected socket `id` can send (see `connected_write_polled`).
    /// Its endpoint is a stream queue or a connection that is not to another socket, and a
    /// live peer has a stream queue too.
    pub fn write_polled(&self, id: i64, g: &GlobalState) -> (r: Option<Polled>)
        requires
            g.endpoints.wf(),
            g.sockets.wf(),
            g.endpoints@.contains_key(id as int),
            !(g.endpoints@[id as int] is Datagrams),
            peer_ok(*g, id),
        ensures
            r == connected_write_polled(id, *g),
    {
        match g.endpoints.get(id as i128) {
            Some(Endpoint::Stream(q)) => match q.peer {
                Some(p) => if g.sockets.contains(p as i128) {
                    Some(Polled::SocketWrite(p))
                } else {
                    None
                },
                None => None,
            },
            Some(Endpoint::Plugin(_)) | Some(Endpoint::FeedbackStream(_)) => Some(Polled::SocketWrite(id)),
            _ => None,
        }
    }
}

/// A datagram as values.
pub struct ConnectionlessMessageView {
    pub source: SockAddr,
    pub ancillary: Seq<u8>,
    pub data: Seq<u8>,
}

impl View for ConnectionlessMessage {
    type V = ConnectionlessMessageView;

    open spec fn view(&self) -> ConnectionlessMessageView {
        ConnectionlessMessageView { source: self.source, ancillary: self.ancillary@, data: self.data@ }
    }
}

/// The datagrams of a queue as values.
pub open spec fn queue_view(recv: Seq<ConnectionlessMessage>) -> Seq<ConnectionlessMessageView> {
    recv.map_values(|d: ConnectionlessMessage| d@)
}

/// The queued datagrams of every connectionless endpoint.
pub open spec fn dgram_queues(eps: Map<int, Endpoint>) -> Map<int, Seq<ConnectionlessMessageView>> {
    Map::new(
        |k: int| eps.contains_key(k) && eps[k] is Datagrams,
        |k: int| queue_view(eps[k]->Datagrams_0.recv@),
    )
}

/// The chunks of a plugin connection's write buffer as values.
pub open spec fn chunk_view(bufs: Seq<Vec<u8>>) -> Seq<Seq<u8>> {
    bufs.map_values(|v: Vec<u8>| v@)
}

/// The datagrams fed back to the harness, with their senders, as values.
pub open spec fn fed_view(sent: Seq<FedBack>) -> Seq<(ConnectionlessMessageView, i64)> {
    sent.map_values(|f: FedBack| (f.msg@, f.sender))
}

/// Where the datagrams sent to connectionless sockets are: the queue of each socket of the
/// emulator, the write buffer of each plugin connection, and what each feedback socket
/// has fed back.
pub struct Inboxes {
    pub queues: Map<int, Seq<ConnectionlessMessageView>>,
    pub bufs: Map<int, Seq<Seq<u8>>>,
    pub fed: Map<int, Seq<(ConnectionlessMessageView, i64)>>,
}

/// The inboxes of the endpoints `eps`.
pub open spec fn inboxes(eps: Map<int, Endpoint>) -> Inboxes {
    Inboxes {
        queues: dgram_queues(eps),
        bufs: Map::new(
            |k: int| eps.contains_key(k) && eps[k] is Plugin,
            |k: int| chunk_view(eps[k]->Plugin_0.write_buf@),
        ),
        fed: Map::new(
            |k: int| eps.contains_key(k) && eps[k] is Feedback,
            |k: int| fed_view(eps[k]->Feedback_0.sent@),
        ),
    }
}

/// Whether socket `d` takes a datagram: it has a queue, a plugin, or feeds back.
pub open spec fn takes(ib: Inboxes, d: int) -> bool {
    ib.queues.contains_key(d) || ib.bufs.contains_key(d) || ib.fed.contains_key(d)
}

/// Datagram `dg` from socket `sender` arriving at socket `d`: it is queued when `d` has a
/// datagram queue, its data is handed to the plugin when a plugin serves `d`, it is fed
/// back with its sender when `d` feeds back, and it is dropped otherwise.
pub open spec fn received(ib: Inboxes, d: int, dg: ConnectionlessMessageView, sender: i64) -> Inboxes {
    if ib.queues.contains_key(d) {
        Inboxes { queues: ib.queues.insert(d, ib.queues[d].push(dg)), ..ib }
    } else if ib.bufs.contains_key(d) {
        Inboxes { bufs: ib.bufs.insert(d, ib.bufs[d].push(dg.data)), ..ib }
    } else if ib.fed.contains_key(d) {
        Inboxes { fed: ib.fed.insert(d, ib.fed[d].push((dg, sender))), ..ib }
    } else {
        ib
    }
}

/// `eps` is `eps0` with the inboxes of its endpoints replaced by `ib` (flags, what a
/// plugin hands over to be read, and every other endpoint unchanged).
pub open spec fn delivered_now(eps0: Map<int, Endpoint>, ib: Inboxes, eps: Map<int, Endpoint>) -> bool {
    &&& eps.dom() == eps0.dom()
    &&& ib.queues.dom() == inboxes(eps0).queues.dom()
    &&& ib.bufs.dom() == inboxes(eps0).bufs.dom()
    &&& ib.fed.dom() == inboxes(eps0).fed.dom()
    &&& forall|k: int|
        #[trigger] eps0.contains_key(k) ==> match eps0[k] {
            Endpoint::Datagrams(q0) => eps[k] matches Endpoint::Datagrams(q) && q.read_raised == q0.read_raised
                && q.write_raised == q0.write_raised && queue_view(q.recv@) == ib.queues[k],
            Endpoint::Plugin(p0) => eps[k] matches Endpoint::Plugin(p) && p.read == p0.read && chunk_view(
                p.write_buf@,
            ) == ib.bufs[k],
            Endpoint::Feedback(_) => eps[k] matches Endpoint::Feedback(f) && fed_view(f.sent@) == ib.fed[k],
            _ => eps[k] == eps0[k],
        }
}

/// Endpoints as `delivered_now` relates them have the inboxes it names, and keep their
/// kinds.
proof fn lemma_delivered_views(eps0: Map<int, Endpoint>, ib: Inboxes, eps: Map<int, Endpoint>)
    requires
        delivered_now(eps0, ib, eps),
    ensures
        inboxes(eps) == ib,
        forall|k: int|
            #[trigger] eps.contains_key(k) ==> (eps[k] is Datagrams <==> eps0[k] is Datagrams) && (eps[k] is Plugin
                <==> eps0[k] is Plugin) && (eps[k] is Feedback <==> eps0[k] is Feedback) && (connectionless_endpoint(
                eps[k],
            ) <==> connectionless_endpoint(eps0[k])),
{
    let ib1 = inboxes(eps);
    let ib0 = inboxes(eps0);
    assert forall|k: int| #[trigger] eps.contains_key(k) implies (eps[k] is Datagrams <==> eps0[k] is Datagrams) && (
    eps[k] is Plugin <==> eps0[k] is Plugin) && (eps[k] is Feedback <==> eps0[k] is Feedback) && (
    connectionless_endpoint(eps[k]) <==> connectionless_endpoint(eps0[k])) by {
        assert(eps0.contains_key(k));
    }
    assert forall|k: int| #[trigger] ib1.queues.contains_key(k) <==> ib.queues.contains_key(k) by {
        if eps.contains_key(k) {
            assert(eps0.contains_key(k));
        }
        if ib.queues.contains_key(k) {
            assert(ib0.queues.contains_key(k));
        }
    }
    assert forall|k: int| #[trigger] ib.queues.contains_key(k) implies ib1.queues[k] == ib.queues[k] by {
        assert(ib0.queues.contains_key(k));
        assert(eps0.contains_key(k));
    }
    assert(ib1.queues =~= ib.queues);
    assert forall|k: int| #[trigger] ib1.bufs.contains_key(k) <==> ib.bufs.contains_key(k) by {
        if eps.contains_key(k) {
            assert(eps0.contains_key(k));
        }
        if ib.bufs.contains_key(k) {
            assert(ib0.bufs.contains_key(k));
        }
    }
    assert forall|k: int| #[trigger] ib.bufs.contains_key(k) implies ib1.bufs[k] == ib.bufs[k] by {
        assert(ib0.bufs.contains_key(k));
        assert(eps0.contains_key(k));
    }
    assert(ib1.bufs =~= ib.bufs);
    assert forall|k: int| #[trigger] ib1.fed.contains_key(k) <==> ib.fed.contains_key(k) by {
        if eps.contains_key(k) {
            assert(eps0.contains_key(k));
        }
        if ib.fed.contains_key(k) {
            assert(ib0.fed.contains_key(k));
        }
    }
    assert forall|k: int| #[trigger] ib.fed.contains_key(k) implies ib1.fed[k] == ib.fed[k] by {
        assert(ib0.fed.contains_key(k));
        assert(eps0.contains_key(k));
    }
    assert(ib1.fed =~= ib.fed);
}

/// Two deliveries one after the other are one delivery.
proof fn lemma_delivered_trans(
    eps0: Map<int, Endpoint>,
    ib1: Inboxes,
    eps1: Map<int, Endpoint>,
    ib2: Inboxes,
    eps2: Map<int, Endpoint>,
)
    requires
        delivered_now(eps0, ib1, eps1),
        delivered_now(eps1, ib2, eps2),
    ensures
        delivered_now(eps0, ib2, eps2),
{
    lemma_delivered_views(eps0, ib1, eps1);
    lemma_delivered_views(eps1, ib2, eps2);
    assert forall|k: int| #[trigger] eps0.contains_key(k) implies match eps0[k] {
        Endpoint::Datagrams(q0) => eps2[k] matches Endpoint::Datagrams(q) && q.read_raised == q0.read_raised
            && q.write_raised == q0.write_raised && queue_view(q.recv@) == ib2.queues[k],
        Endpoint::Plugin(p0) => eps2[k] matches Endpoint::Plugin(p) && p.read == p0.read && chunk_view(p.write_buf@)
            == ib2.bufs[k],
        Endpoint::Feedback(_) => eps2[k] matches Endpoint::Feedback(f) && fed_view(f.sent@) == ib2.fed[k],
        _ => eps2[k] == eps0[k],
    } by {
        assert(eps1.contains_key(k));
    }
}

/// The bytes of the buffers, one after another.
pub open spec fn concat(d: Seq<Vec<u8>>) -> Seq<u8>
    decreases d.len(),
{
    if d.len() == 0 {
        Seq::empty()
    } else {
        concat(d.drop_last()) + d.last()@
    }
}

proof fn lemma_concat_len(d: Seq<Vec<u8>>)
    ensures
        concat(d).len() == total_len(d),
    decreases d.len(),
{
    if d.len() > 0 {
        lemma_concat_len(d.drop_last());
    }
}

/// The bytes of the buffers, one after another.
pub fn concat_bufs(v: &Vec<Vec<u8>>) -> (r: Vec<u8>)
    ensures
        r@ == concat(v@),
{
    let mut out: Vec<u8> = Vec::new();
    let mut i: usize = 0;
    while i < v.len()
        invariant
            i <= v@.len(),
            out@ == concat(v@.take(i as int)),
        decreases v@.len() - i,
    {
        let piece = copy_vec(&v[i]);
        let mut piece = piece;
        out.append(&mut piece);
        proof {
            assert(v@.take(i + 1).drop_last() =~= v@.take(i as int));
        }
        i += 1;
    }
    proof {
        assert(v@.take(v@.len() as int) =~= v@);
    }
    out
}

/// A copy of the bytes.
fn copy_vec(v: &Vec<u8>) -> (r: Vec<u8>)
    ensures
        r@ == v@,
{
    let r = slice_from(v, 0);
    proof {
        assert(v@.skip(0) =~= v@);
    }
    r
}

/// One message buffer of `sendmsg`/`sendmmsg`.
pub struct SendMsg {
    /// The destination address bytes, when given.
    pub addr_bytes: Option<Vec<u8>>,
    pub control: Vec<u8>,
    pub bufs: Vec<Vec<u8>>,
    /// On return, the number of bytes sent (where it is set).
    pub buflen: u32,
}

/// The buffers a write sends.
pub enum WriteData {
    /// `write`/`send` of one buffer.
    Slice(Vec<u8>),
    /// `writev` of several buffers.
    Iovec(Vec<Vec<u8>>),
    /// A positioned write (`pwrite`), which a socket refuses.
    File,
    /// `sendmsg`/`sendmmsg` of message buffers.
    Messages(Vec<SendMsg>),
}

/// Where a write is.
#[derive(Clone, Copy, Debug, PartialEq, Eq, Structural)]
pub enum SocketWriteState {
    Start,
    /// Ready to send, with the poller it waited on, if any.
    Finish(Option<i64>),
}

/// `write`/`send` and their variants on socket `socket`.
pub struct SocketWriteEvent {
    pub socket: i64,
    pub nonblocking: bool,
    pub data: WriteData,
    pub state: SocketWriteState,
}

/// Where the datagrams of messages go and what has been sent so far.
pub struct SendState {
    pub locs: Map<TransportAddress, LocationView>,
    pub inbox: Inboxes,
    pub count: nat,
    pub err: Errno,
}

/// Where a message of a connectionless socket goes: to `conn` when the socket's peer is
/// known (unless the message names an address), else to the address the message names
/// (read in the given byte order) or the socket's destination.
pub open spec fn msg_target(
    m: SendMsg,
    conn: Option<TransportAddress>,
    rem: Option<TransportAddress>,
    protocol: TransportProtocol,
    little: bool,
) -> Result<TransportAddress, Errno> {
    match conn {
        Some(a) => if m.addr_bytes is Some {
            Err(Errno::EISCONN)
        } else {
            Ok(a)
        },
        None => match m.addr_bytes {
            Some(b) => match sockaddr_from_bytes(b@, little) {
                Some(sa) => Ok(TransportAddress { sockaddr: sa, protocol }),
                None => Err(Errno::EINVAL),
            },
            None => match rem {
                Some(t) => Ok(TransportAddress { sockaddr: t.sockaddr, protocol }),
                None => Err(Errno::ENOTCONN),
            },
        },
    }
}

/// Sending one message: an address error is remembered and the message skipped; a
/// message to an address nothing is bound at counts as sent, with its length as the
/// number of bytes sent; otherwise the next socket bound there in turn receives it as
/// a datagram from socket `sender` at `local` (see `received`), and where that socket
/// drops it, its length is the number of bytes sent.
pub open spec fn send_step(
    st: SendState,
    m: SendMsg,
    conn: Option<TransportAddress>,
    rem: Option<TransportAddress>,
    local: TransportAddress,
    sender: i64,
    little: bool,
) -> (SendState, Option<u32>) {
    match msg_target(m, conn, rem, local.protocol, little) {
        Err(e) => (SendState { err: e, ..st }, None),
        Ok(a) => {
            let (dst, locs2) = next_bound_spec(st.locs, a);
            match dst {
                None => (SendState { locs: locs2, count: st.count + 1, ..st }, Some(total_len(m.bufs@) as u32)),
                Some(d) => {
                    let dg = ConnectionlessMessageView { source: local.sockaddr, ancillary: m.control@, data: concat(m.bufs@) };
                    (
                        SendState {
                            locs: locs2,
                            inbox: received(st.inbox, d as int, dg, sender),
                            count: st.count + 1,
                            ..st
                        },
                        if takes(st.inbox, d as int) {
                            None
                        } else {
                            Some(total_len(m.bufs@) as u32)
                        },
                    )
                },
            }
        },
    }
}

/// The state after sending messages `ms[..j]`.
pub open spec fn send_msgs(
    st0: SendState,
    ms: Seq<SendMsg>,
    j: nat,
    conn: Option<TransportAddress>,
    rem: Option<TransportAddress>,
    local: TransportAddress,
    sender: i64,
    little: bool,
) -> SendState
    decreases j,
{
    if j == 0 {
        st0
    } else {
        send_step(send_msgs(st0, ms, (j - 1) as nat, conn, rem, local, sender, little), ms[j - 1], conn, rem, local, sender, little).0
    }
}

/// Every socket bound at an address of `protocol` is a connectionless socket.
pub open spec fn routes_ok(g: GlobalState, protocol: TransportProtocol) -> bool {
    routes_ok_in(g.socket_locations@, g.sockets@, g.endpoints@, protocol)
}

/// Whether `e` can serve a connectionless socket: anything but the endpoint of a connection
/// between two sockets or of one fed back to the harness.
pub open spec fn connectionless_endpoint(e: Endpoint) -> bool {
    !(e is Stream) && !(e is FeedbackStream)
}

/// Every socket bound in `locs` at an address of `protocol` is a connectionless socket of
/// `sockets` with an endpoint in `eps` that can serve one.
pub open spec fn routes_ok_in(
    locs: Map<TransportAddress, LocationView>,
    sockets: Map<int, SocketInfo>,
    eps: Map<int, Endpoint>,
    protocol: TransportProtocol,
) -> bool {
    forall|a: TransportAddress, j: int|
        a.protocol == protocol && #[trigger] locs.contains_key(a) && 0 <= j < locs[a].bound_sockets.len() ==> {
            let d = #[trigger] locs[a].bound_sockets[j];
            &&& sockets.contains_key(d as int)
            &&& sockets[d as int].state is Connectionless
            &&& sockets[d as int].protocol == protocol
            &&& eps.contains_key(d as int)
            &&& connectionless_endpoint(eps[d as int])
        }
}

/// Rotating the sockets bound at an address keeps every route to a connectionless socket.
proof fn lemma_routes_rotate(
    locs: Map<TransportAddress, LocationView>,
    sockets: Map<int, SocketInfo>,
    eps: Map<int, Endpoint>,
    protocol: TransportProtocol,
    a: TransportAddress,
)
    requires
        routes_ok_in(locs, sockets, eps, protocol),
    ensures
        routes_ok_in(next_bound_spec(locs, a).1, sockets, eps, protocol),
{
    let l1 = next_bound_spec(locs, a).1;
    assert forall|b: TransportAddress, j: int|
        b.protocol == protocol && #[trigger] l1.contains_key(b) && 0 <= j < l1[b].bound_sockets.len() implies {
            let d = #[trigger] l1[b].bound_sockets[j];
            &&& sockets.contains_key(d as int)
            &&& sockets[d as int].state is Connectionless
            &&& sockets[d as int].protocol == protocol
            &&& eps.contains_key(d as int)
            &&& connectionless_endpoint(eps[d as int])
        } by {
        if b == a && locs.contains_key(a) && locs[a].bound_sockets.len() > 0 {
            let bs = locs[a].bound_sockets;
            if j < bs.len() - 1 {
                assert(l1[b].bound_sockets[j] == bs[j + 1]);
                assert(locs.contains_key(a) && 0 <= j + 1 < bs.len());
                let d0 = locs[a].bound_sockets[j + 1];
            } else {
                assert(l1[b].bound_sockets[j] == bs[0]);
                let d0 = locs[a].bound_sockets[0];
            }
        } else {
            let d0 = locs[b].bound_sockets[j];
        }
    }
}

/// Datagram `dg` from socket `sender` arrives at socket `d` (see `received`); returns
/// whether `d` took it.
fn deliver(eps: &mut Table<Endpoint>, d: i64, dg: ConnectionlessMessage, sender: i64) -> (taken: bool)
    requires
        old(eps).wf(),
        old(eps)@.contains_key(d as int),
    ensures
        final(eps).wf(),
        taken == takes(inboxes(old(eps)@), d as int),
        delivered_now(old(eps)@, received(inboxes(old(eps)@), d as int, dg@, sender), final(eps)@),
{
    let ghost eps0 = eps@;
    let ghost dv = dg@;
    let ghost ib = inboxes(eps0);
    let e = match eps.remove(d as i128) {
        Some(e) => e,
        None => {
            assert(false);
            return false;
        },
    };
    let (e2, taken) = match e {
        Endpoint::Datagrams(q) => {
            let DatagramQueue { mut recv, read_raised, write_raised } = q;
            let ghost before = recv@;
            recv.push(dg);
            proof {
                assert(queue_view(recv@) =~= queue_view(before).push(dv));
            }
            (Endpoint::Datagrams(DatagramQueue { recv, read_raised, write_raised }), true)
        },
        Endpoint::Plugin(p) => {
            let PluginEndpoint { read, mut write_buf } = p;
            let ghost before = write_buf@;
            let ConnectionlessMessage { source: _, ancillary: _, data } = dg;
            write_buf.push(data);
            proof {
                assert(chunk_view(write_buf@) =~= chunk_view(before).push(dv.data));
            }
            (Endpoint::Plugin(PluginEndpoint { read, write_buf }), true)
        },
        Endpoint::Feedback(f) => {
            let FeedbackQueue { mut sent } = f;
            let ghost before = sent@;
            sent.push(FedBack { msg: dg, sender });
            proof {
                assert(fed_view(sent@) =~= fed_view(before).push((dv, sender)));
            }
            (Endpoint::Feedback(FeedbackQueue { sent }), true)
        },
        other => (other, false),
    };
    let ghost ge2 = e2;
    eps.insert(d as i128, e2);
    proof {
        assert(eps@ =~= eps0.insert(d as int, ge2));
        let ib2 = received(ib, d as int, dv, sender);
        assert(ib2.queues.dom() =~= ib.queues.dom());
        assert(ib2.bufs.dom() =~= ib.bufs.dom());
        assert(ib2.fed.dom() =~= ib.fed.dom());
        assert forall|k: int| #[trigger] eps0.contains_key(k) implies match eps0[k] {
            Endpoint::Datagrams(q0) => eps@[k] matches Endpoint::Datagrams(q) && q.read_raised == q0.read_raised
                && q.write_raised == q0.write_raised && queue_view(q.recv@) == ib2.queues[k],
            Endpoint::Plugin(p0) => eps@[k] matches Endpoint::Plugin(p) && p.read == p0.read && chunk_view(
                p.write_buf@,
            ) == ib2.bufs[k],
            Endpoint::Feedback(_) => eps@[k] matches Endpoint::Feedback(f) && fed_view(f.sent@) == ib2.fed[k],
            _ => eps@[k] == eps0[k],
        } by {
            if k != d {
                assert(eps@[k] == eps0[k]);
            }
            if eps0[k] is Datagrams {
                assert(ib.queues.contains_key(k));
            }
            if eps0[k] is Plugin {
                assert(ib.bufs.contains_key(k));
                assert(!ib.queues.contains_key(k));
            }
            if eps0[k] is Feedback {
                assert(ib.fed.contains_key(k));
                assert(!ib.queues.contains_key(k));
                assert(!ib.bufs.contains_key(k));
            }
        }
    }
    taken
}

/// `m` with its number of bytes sent set where `b` says so.
pub open spec fn sent_msg(m: SendMsg, b: Option<u32>, m2: SendMsg) -> bool {
    &&& m2.addr_bytes == m.addr_bytes
    &&& m2.control@ == m.control@
    &&& m2.bufs@ == m.bufs@
    &&& m2.buflen == match b {
        Some(n) => n,
        None => m.buflen,
    }
}

/// Whether every message's buffers add up to a `usize`.
pub open spec fn msgs_fit(ms: Seq<SendMsg>) -> bool {
    forall|i: int| 0 <= i < ms.len() ==> total_len(#[trigger] ms[i].bufs@) <= usize::MAX
}

/// The sum of the lengths of the buffers.
fn total_of(v: &Vec<Vec<u8>>) -> (r: usize)
    requires
        total_len(v@) <= usize::MAX,
    ensures
        r == total_len(v@),
{
    let mut total: usize = 0;
    let mut i: usize = 0;
    while i < v.len()
        invariant
            i <= v@.len(),
            total_len(v@) <= usize::MAX,
            total == total_len(v@.take(i as int)),
        decreases v@.len() - i,
    {
        proof {
            lemma_total_len_step(v@, i as int);
            lemma_total_len_take_le(v@, i + 1);
        }
        total = total + v[i].len();
        i += 1;
    }
    proof {
        assert(v@.take(v@.len() as int) =~= v@);
    }
    total
}

/// The address a message goes to (see `msg_target`).
fn target_of(
    m: &SendMsg,
    conn: Option<TransportAddress>,
    rem: Option<TransportAddress>,
    protocol: TransportProtocol,
    little: bool,
) -> (r: Result<TransportAddress, Errno>)
    ensures
        r == msg_target(*m, conn, rem, protocol, little),
{
    match conn {
        Some(a) => match &m.addr_bytes {
            Some(_) => Err(Errno::EISCONN),
            None => Ok(a),
        },
        None => match &m.addr_bytes {
            Some(b) => match SockAddr::decode_ordered(b.as_slice(), little) {
                Some(sa) => Ok(TransportAddress { sockaddr: sa, protocol }),
                None => Err(Errno::EINVAL),
            },
            None => match rem {
                Some(t) => Ok(TransportAddress { sockaddr: t.sockaddr, protocol }),
                None => Err(Errno::ENOTCONN),
            },
        },
    }
}

/// Sends messages from a connectionless socket with local address `local` (see
/// `send_step`); returns the messages with their byte counts set, the number sent and the
/// last address error.
fn send_messages(
    g: &mut GlobalState,
    conn: Option<TransportAddress>,
    rem: Option<TransportAddress>,
    local: TransportAddress,
    sender: i64,
    ms: Vec<SendMsg>,
    little: bool,
) -> (r: (Vec<SendMsg>, usize, Errno))
    requires
        old(g).socket_locations.wf(),
        old(g).endpoints.wf(),
        routes_ok(*old(g), local.protocol),
        msgs_fit(ms@),
        conn matches Some(c) ==> c.protocol == local.protocol,
    ensures
        final(g).socket_locations.wf(),
        final(g).endpoints.wf(),
        ({
            let st0 = SendState {
                locs: old(g).socket_locations@,
                inbox: inboxes(old(g).endpoints@),
                count: 0,
                err: Errno::SUCCESS,
            };
            let fin = send_msgs(st0, ms@, ms@.len(), conn, rem, local, sender, little);
            &&& final(g).socket_locations@ == fin.locs
            &&& delivered_now(old(g).endpoints@, fin.inbox, final(g).endpoints@)
            &&& r.1 == fin.count
            &&& r.2 == fin.err
            &&& r.0@.len() == ms@.len()
            &&& forall|i: int|
                0 <= i < ms@.len() ==> #[trigger] sent_msg(
                    ms@[i],
                    send_step(send_msgs(st0, ms@, i as nat, conn, rem, local, sender, little), ms@[i], conn, rem, local, sender, little).1,
                    r.0@[i],
                )
        }),
        *final(g) == (GlobalState { socket_locations: final(g).socket_locations, endpoints: final(g).endpoints, ..*old(g) }),
{
    let ghost st0 = SendState {
        locs: old(g).socket_locations@,
        inbox: inboxes(old(g).endpoints@),
        count: 0,
        err: Errno::SUCCESS,
    };
    let ghost orig = ms@;
    let ghost eps0 = old(g).endpoints@;
    let n_msgs = ms.len();
    let mut rest = ms;
    let mut out: Vec<SendMsg> = Vec::new();
    let mut count: usize = 0;
    let mut err = Errno::SUCCESS;
    proof {
        assert(delivered_now(eps0, inboxes(eps0), g.endpoints@));
    }
    while rest.len() > 0
        invariant
            n_msgs == orig.len(),
            out@.len() + rest@.len() == orig.len(),
            rest@ == orig.skip(out@.len() as int),
            msgs_fit(orig),
            g.socket_locations.wf(),
            g.endpoints.wf(),
            routes_ok(*g, local.protocol),
            conn matches Some(c) ==> c.protocol == local.protocol,
            g.sockets == old(g).sockets,
            *g == (GlobalState { socket_locations: g.socket_locations, endpoints: g.endpoints, ..*old(g) }),
            ({
                let st = send_msgs(st0, orig, out@.len() as nat, conn, rem, local, sender, little);
                &&& g.socket_locations@ == st.locs
                &&& delivered_now(eps0, st.inbox, g.endpoints@)
                &&& count == st.count
                &&& err == st.err
                &&& st.count <= out@.len()
            }),
            forall|i: int|
                0 <= i < out@.len() ==> #[trigger] sent_msg(
                    orig[i],
                    send_step(send_msgs(st0, orig, i as nat, conn, rem, local, sender, little), orig[i], conn, rem, local, sender, little).1,
                    out@[i],
                ),
        decreases rest@.len(),
    {
        let ghost k = out@.len();
        let ghost st = send_msgs(st0, orig, k as nat, conn, rem, local, sender, little);
        let m = rest.remove(0);
        proof {
            assert(m == orig[k as int]);
        }
        let target = target_of(&m, conn, rem, local.protocol, little);
        match target {
            Err(e) => {
                err = e;
                out.push(m);
            },
            Ok(a) => {
                let ghost locs_before = g.socket_locations@;
                let dst = g.socket_locations.next_bound_at(&a);
                proof {
                    lemma_routes_rotate(locs_before, g.sockets@, g.endpoints@, local.protocol, a);
                }
                match dst {
                    None => {
                        let total = total_of(&m.bufs);
                        let SendMsg { addr_bytes, control, bufs, buflen: _ } = m;
                        out.push(SendMsg { addr_bytes, control, bufs, buflen: total as u32 });
                        count = count + 1;
                    },
                    Some(d) => {
                        proof {
                            assert(a.protocol == local.protocol);
                            assert(locs_before.contains_key(a));
                            let d0 = locs_before[a].bound_sockets[0];
                            assert(d0 == d);
                            assert(g.endpoints@.contains_key(d as int));
                        }
                        let data = concat_bufs(&m.bufs);
                        let anc = copy_vec(&m.control);
                        let ghost eps_before = g.endpoints@;
                        let dg = ConnectionlessMessage { source: local.sockaddr, ancillary: anc, data };
                        let ghost dgv = dg@;
                        let taken = deliver(&mut g.endpoints, d, dg, sender);
                        proof {
                            lemma_delivered_views(eps0, st.inbox, eps_before);
                            let ib2 = received(st.inbox, d as int, dgv, sender);
                            lemma_delivered_trans(eps0, st.inbox, eps_before, ib2, g.endpoints@);
                            lemma_delivered_views(eps_before, ib2, g.endpoints@);
                            assert(taken == takes(st.inbox, d as int));
                            assert forall|b: TransportAddress, j: int|
                                b.protocol == local.protocol && #[trigger] g.socket_locations@.contains_key(b) && 0 <= j
                                    < g.socket_locations@[b].bound_sockets.len() implies {
                                    let dd = #[trigger] g.socket_locations@[b].bound_sockets[j];
                                    &&& g.sockets@.contains_key(dd as int)
                                    &&& g.sockets@[dd as int].state is Connectionless
                                    &&& g.sockets@[dd as int].protocol == local.protocol
                                    &&& g.endpoints@.contains_key(dd as int)
                                    &&& connectionless_endpoint(g.endpoints@[dd as int])
                                } by {
                                let dd = g.socket_locations@[b].bound_sockets[j];
                                assert(eps_before.contains_key(dd as int));
                            }
                        }
                        if taken {
                            out.push(m);
                        } else {
                            let total = total_of(&m.bufs);
                            let SendMsg { addr_bytes, control, bufs, buflen: _ } = m;
                            out.push(SendMsg { addr_bytes, control, bufs, buflen: total as u32 });
                        }
                        count = count + 1;
                    },
                }
            },
        }
        proof {
            assert(rest@ =~= orig.skip(out@.len() as int));
        }
    }
    proof {
        assert(orig.skip(out@.len() as int).len() == 0);
    }
    (out, count, err)
}

/// Whether the peer of a connected socket with queue `q` still exists.
pub open spec fn peer_alive(g: GlobalState, q: StreamQueue) -> bool {
    q.peer matches Some(p) && g.sockets@.contains_key(p as int)
}

/// The peer of a connected socket of the emulator has a stream queue too.
pub open spec fn peer_ok(g: GlobalState, id: i64) -> bool {
    match g.endpoints@[id as int] {
        Endpoint::Stream(q) => peer_alive(g, q) ==> {
            &&& g.endpoints@.contains_key(q.peer->Some_0 as int)
            &&& g.endpoints@[q.peer->Some_0 as int] is Stream
        },
        _ => true,
    }
}

/// What a first run of a write that waits on `flag` answers and leaves (as
/// `poll_outcome` does for reads).
pub open spec fn write_poll(
    flag: Option<bool>,
    nonblocking: bool,
    polled: Polled,
    g: GlobalState,
    st2: SocketWriteState,
    g2: GlobalState,
    r: Outcome<usize, Errno>,
) -> bool {
    match flag {
        Some(false) => if nonblocking {
            &&& r == Outcome::<usize, Errno>::Error(Errno::EAGAIN)
            &&& st2 == SocketWriteState::Start
            &&& g2.pollers@ == g.pollers@
            &&& g2.next_poller == g.next_poller
        } else {
            &&& r == Outcome::<usize, Errno>::Yield(YieldUntil::Indefinite)
            &&& st2 == SocketWriteState::Finish(Some(g.next_poller))
            &&& g2.pollers@ == g.pollers@.insert(g.next_poller as int, polled)
            &&& g2.next_poller == g.next_poller + 1
        },
        _ => {
            &&& r == Outcome::<usize, Errno>::Yield(YieldUntil::Immediate)
            &&& st2 == SocketWriteState::Finish(None)
            &&& g2.pollers@ == g.pollers@
            &&& g2.next_poller == g.next_poller
        },
    }
}

/// Whether a first run of a write on socket `id` is defined: the socket exists, a
/// connected one has an endpoint of a connection (neither a datagram queue nor a feedback
/// socket; a peer, if any, has a stream queue), and a poller can be numbered.
pub open spec fn write_start_defined(id: i64, g: GlobalState) -> bool {
    &&& g.sockets@.contains_key(id as int)
    &&& g.next_poller < i64::MAX
    &&& g.sockets@[id as int].state is Connected ==> {
        &&& g.endpoints@.contains_key(id as int)
        &&& !(g.endpoints@[id as int] is Datagrams)
        &&& !(g.endpoints@[id as int] is Feedback)
        &&& peer_ok(g, id)
    }
}

/// The first run of a write on socket `id`: a connectionless socket goes on at once; a
/// connected one waits until its peer takes data (a peer that is gone, or a connection
/// that drops everything, is not waited on); any other socket fails with `EINVAL`.
pub open spec fn write_start(
    id: i64,
    nonblocking: bool,
    g: GlobalState,
    st2: SocketWriteState,
    g2: GlobalState,
    r: Outcome<usize, Errno>,
) -> bool {
    match g.sockets@[id as int].state {
        SocketState::Connectionless(_) => r == Outcome::<usize, Errno>::Yield(YieldUntil::Immediate) && st2
            == SocketWriteState::Finish(None) && g2 == g,
        SocketState::Connected(_) => {
            let (flag, polled): (Option<bool>, Polled) = match g.endpoints@[id as int] {
                Endpoint::Stream(q) => if peer_alive(g, q) {
                    let p = q.peer->Some_0;
                    (Some(g.endpoints@[p as int]->Stream_0.write_raised), Polled::SocketWrite(p))
                } else {
                    (None, Polled::SocketWrite(id))
                },
                Endpoint::Plugin(pe) => (Some(pe.read.write_raised), Polled::SocketWrite(id)),
                Endpoint::FeedbackStream(f) => (Some(f.write_raised), Polled::SocketWrite(id)),
                _ => (None, Polled::SocketWrite(id)),
            };
            &&& write_poll(flag, nonblocking, polled, g, st2, g2, r)
            &&& g2 == (GlobalState { pollers: g2.pollers, next_poller: g2.next_poller, ..g })
        },
        _ => r == Outcome::<usize, Errno>::Error(Errno::EINVAL) && st2 == SocketWriteState::Start && g2 == g,
    }
}

/// The bytes a write of one buffer or several sends.
pub open spec fn payload(data: WriteData) -> Seq<u8> {
    match data {
        WriteData::Slice(s) => s@,
        WriteData::Iovec(v) => concat(v@),
        _ => Seq::empty(),
    }
}

/// Whether the second run of a write on socket `id` is defined, with the bound addresses
/// `locs`: the socket exists; a connectionless one has an endpoint that can serve one,
/// sends only to connectionless sockets of its protocol (see `routes_ok_in`), its
/// messages' buffers add up to a `usize`, and with a datagram queue, the socket its
/// messages go to, when it has a destination, has its own address; a connected one has an endpoint of a connection that the emulator writes
/// to (neither a datagram queue nor one fed back to the harness), whose peer has a stream
/// queue.
pub open spec fn write_finish_defined(
    id: i64,
    g: GlobalState,
    locs: Map<TransportAddress, LocationView>,
    data: WriteData,
) -> bool {
    let sock = g.sockets@[id as int];
    &&& g.sockets@.contains_key(id as int)
    &&& match sock.state {
        SocketState::Connectionless(c) => {
            &&& g.endpoints@.contains_key(id as int)
            &&& connectionless_endpoint(g.endpoints@[id as int])
            &&& routes_ok_in(locs, g.sockets@, g.endpoints@, sock.protocol)
            &&& (c.rem_addr matches Some(t) ==> t.protocol == sock.protocol)
            &&& (data matches WriteData::Messages(ms) ==> {
                &&& msgs_fit(ms@)
                &&& (g.endpoints@[id as int] is Datagrams ==> (c.rem_addr matches Some(t) ==> (next_bound_spec(
                    locs,
                    t,
                ).0 matches Some(p) ==> g.sockets@[p as int].local_addr is Assigned)))
            })
        },
        SocketState::Connected(_) => {
            &&& g.endpoints@.contains_key(id as int)
            &&& !(g.endpoints@[id as int] is Datagrams)
            &&& !(g.endpoints@[id as int] is Feedback)
            &&& !(g.endpoints@[id as int] is FeedbackStream)
            &&& peer_ok(g, id)
        },
        _ => true,
    }
}

/// The second run of a write on socket `id` (after dropping the poller waited on).
///
/// From a connectionless socket, one buffer or several go, as one datagram from the
/// socket's address `local`, to the first socket bound at its destination (which then moves
/// to the back), or nowhere when there is none or the sender has no datagram
/// queue of its own; that socket queues it, hands its data to the plugin serving it, feeds
/// it back with the sender `id`, or drops it (see `received`). Message buffers go one by
/// one (see `send_step`; only a sender with a datagram queue has a peer), and the number
/// sent is returned, or the last address error when none was.
///
/// On a connected socket, the data goes to the peer's queue as chunks (see
/// `written_chunks` and `peer_receives`), and the number of bytes (or of messages, whose
/// byte counts are set) is returned. On a connection served by a plugin the data is
/// queued for the plugin (see `plugin_write`). A
/// peer that is gone takes nothing (0). A connection that drops everything accepts
/// everything. Any other socket fails with `EINVAL`; a positioned write with `ESPIPE`.
pub open spec fn write_finish(
    id: i64,
    poller: Option<i64>,
    data: WriteData,
    little: bool,
    local: TransportAddress,
    g: GlobalState,
    data2: WriteData,
    g2: GlobalState,
    r: Outcome<usize, Errno>,
) -> bool {
    let sock = g.sockets@[id as int];
    let pollers2 = match poller {
        Some(p) => g.pollers@.remove(p as int),
        None => g.pollers@,
    };
    match sock.state {
        SocketState::Connectionless(c) => {
            let (dst, locs1) = match c.rem_addr {
                Some(t) => if g.endpoints@[id as int] is Datagrams {
                    next_bound_spec(g.socket_locations@, t)
                } else {
                    (None, g.socket_locations@)
                },
                None => (None, g.socket_locations@),
            };
            &&& g2.pollers@ == pollers2
            &&& g2 == (GlobalState { pollers: g2.pollers, socket_locations: g2.socket_locations, endpoints: g2.endpoints, ..g })
            &&& match data {
                WriteData::File => r == Outcome::<usize, Errno>::Error(Errno::ESPIPE) && data2 is File
                    && g2.socket_locations@ == g.socket_locations@ && g2.endpoints@ == g.endpoints@,
                WriteData::Messages(ms) => {
                    let conn = match dst {
                        Some(p) => g.sockets@[p as int].spec_local_transport(),
                        None => None,
                    };
                    let st0 = SendState { locs: locs1, inbox: inboxes(g.endpoints@), count: 0, err: Errno::SUCCESS };
                    let fin = send_msgs(st0, ms@, ms@.len(), conn, c.rem_addr, local, id, little);
                    &&& g2.socket_locations@ == fin.locs
                    &&& delivered_now(g.endpoints@, fin.inbox, g2.endpoints@)
                    &&& data2 matches WriteData::Messages(ms2) && ms2@.len() == ms@.len() && forall|i: int|
                        0 <= i < ms@.len() ==> #[trigger] sent_msg(
                            ms@[i],
                            send_step(send_msgs(st0, ms@, i as nat, conn, c.rem_addr, local, id, little), ms@[i], conn, c.rem_addr, local, id, little).1,
                            ms2@[i],
                        )
                    &&& r == if fin.count > 0 {
                        Outcome::<usize, Errno>::Success(fin.count as usize)
                    } else {
                        Outcome::<usize, Errno>::Error(fin.err)
                    }
                },
                _ => {
                    let bytes = payload(data);
                    &&& r == Outcome::<usize, Errno>::Success(bytes.len() as usize)
                    &&& data2 == data
                    &&& g2.socket_locations@ == locs1
                    &&& match dst {
                        None => g2.endpoints@ == g.endpoints@,
                        Some(d) => delivered_now(
                            g.endpoints@,
                            received(
                                inboxes(g.endpoints@),
                                d as int,
                                ConnectionlessMessageView { source: local.sockaddr, ancillary: Seq::empty(), data: bytes },
                                id,
                            ),
                            g2.endpoints@,
                        ),
                    }
                },
            }
        },
        SocketState::Connected(_) => {
            let e = g.endpoints@[id as int];
            let alive = e matches Endpoint::Stream(q) && peer_alive(g, q);
            let p = e->Stream_0.peer->Some_0;
            &&& g2.pollers@ == pollers2
            &&& g2 == (GlobalState { pollers: g2.pollers, endpoints: g2.endpoints, ..g })
            &&& if e is Plugin {
                let e2 = g2.endpoints@[id as int];
                &&& g2.endpoints@ == g.endpoints@.insert(id as int, e2)
                &&& e2 matches Endpoint::Plugin(p2) && plugin_write(e->Plugin_0, data, p2, data2, r)
            } else { match data {
                WriteData::File => r == Outcome::<usize, Errno>::Error(Errno::ESPIPE) && data2 is File && g2.endpoints@
                    == g.endpoints@,
                WriteData::Slice(s) => data2 == data && if e is Stream && !alive {
                    r == Outcome::<usize, Errno>::Success(0) && g2.endpoints@ == g.endpoints@
                } else {
                    r == Outcome::<usize, Errno>::Success(s@.len() as usize) && if alive {
                        peer_receives(g, p, written_chunks(data), g2)
                    } else {
                        g2.endpoints@ == g.endpoints@
                    }
                },
                WriteData::Iovec(v) => data2 == data && if e is Stream && !alive {
                    r == Outcome::<usize, Errno>::Success(0) && g2.endpoints@ == g.endpoints@
                } else {
                    r == Outcome::<usize, Errno>::Success(total_len(v@) as usize) && if alive {
                        peer_receives(g, p, written_chunks(data), g2)
                    } else {
                        g2.endpoints@ == g.endpoints@
                    }
                },
                WriteData::Messages(ms) => if e is Stream && (ms@.len() == 0 || !alive) {
                    r == Outcome::<usize, Errno>::Success(0) && g2.endpoints@ == g.endpoints@ && data2 == data
                } else if alive {
                    &&& r == Outcome::<usize, Errno>::Success(ms@.len() as usize)
                    &&& peer_receives(g, p, written_chunks(data), g2)
                    &&& data2 matches WriteData::Messages(ms2) && ms2@.len() == ms@.len() && forall|i: int|
                        0 <= i < ms@.len() ==> #[trigger] sent_msg(
                            ms@[i],
                            Some(total_len(ms@[i].bufs@) as u32),
                            ms2@[i],
                        )
                } else {
                    r == Outcome::<usize, Errno>::Success(ms@.len() as usize) && g2.endpoints@ == g.endpoints@
                        && data2 == data
                },
            } }
        },
        _ => r == Outcome::<usize, Errno>::Error(Errno::EINVAL) && g2 == g && data2 == data,
    }
}

/// `new` is the chunks `old` followed by the chunks `added`.
pub open spec fn chunks_appended(old: Seq<Vec<u8>>, added: Seq<Seq<u8>>, new: Seq<Vec<u8>>) -> bool {
    &&& new.len() == old.len() + added.len()
    &&& forall|i: int| 0 <= i < old.len() ==> #[trigger] new[i] == old[i]
    &&& forall|j: int| 0 <= j < added.len() ==> #[trigger] new[old.len() + j]@ == added[j]
}

/// The chunks a write of `data` on a connection hands over: one buffer, or several joined,
/// is one chunk; each message's buffers, joined, are one chunk.
pub open spec fn written_chunks(data: WriteData) -> Seq<Seq<u8>> {
    match data {
        WriteData::Slice(s) => seq![s@],
        WriteData::Iovec(v) => seq![concat(v@)],
        WriteData::Messages(ms) => ms@.map_values(|m: SendMsg| concat(m.bufs@)),
        WriteData::File => Seq::empty(),
    }
}

/// `q2` is the stream queue `q` of a peer that has received the chunks `added`: they are
/// appended to what it has to read, and it shows as readable.
pub open spec fn stream_delivered(q: StreamQueue, added: Seq<Seq<u8>>, q2: StreamQueue) -> bool {
    &&& chunks_appended(q.recv@, added, q2.recv@)
    &&& q2.read_idx == q.read_idx
    &&& q2.peer == q.peer
    &&& q2.read_raised
    &&& q2.write_raised == q.write_raised
}

/// The endpoints `g2` are those of `g` once peer `p`, a socket of the emulator, has
/// received the chunks `added` (see `stream_delivered`).
pub open spec fn peer_receives(g: GlobalState, p: i64, added: Seq<Seq<u8>>, g2: GlobalState) -> bool {
    &&& g2.endpoints@ == g.endpoints@.insert(p as int, g2.endpoints@[p as int])
    &&& g2.endpoints@[p as int] matches Endpoint::Stream(q2) && stream_delivered(
        g.endpoints@[p as int]->Stream_0,
        added,
        q2,
    )
}

/// A write of `data` on plugin connection `p`: one buffer, or several joined, is one chunk
/// for the plugin; each message's buffers, joined, are one chunk, and its byte count is
/// set; the number of bytes (or of messages) is returned; a positioned write fails with
/// `ESPIPE`. What is to be read stays.
pub open spec fn plugin_write(
    p: PluginEndpoint,
    data: WriteData,
    p2: PluginEndpoint,
    data2: WriteData,
    r: Outcome<usize, Errno>,
) -> bool {
    &&& p2.read == p.read
    &&& match data {
        WriteData::File => r == Outcome::<usize, Errno>::Error(Errno::ESPIPE) && data2 is File && p2.write_buf@
            == p.write_buf@,
        WriteData::Slice(s) => {
            &&& r == Outcome::<usize, Errno>::Success(s@.len() as usize)
            &&& data2 == data
            &&& chunks_appended(p.write_buf@, seq![s@], p2.write_buf@)
        },
        WriteData::Iovec(v) => {
            &&& r == Outcome::<usize, Errno>::Success(total_len(v@) as usize)
            &&& data2 == data
            &&& chunks_appended(p.write_buf@, seq![concat(v@)], p2.write_buf@)
        },
        WriteData::Messages(ms) => {
            &&& r == Outcome::<usize, Errno>::Success(ms@.len() as usize)
            &&& chunks_appended(p.write_buf@, ms@.map_values(|m: SendMsg| concat(m.bufs@)), p2.write_buf@)
            &&& data2 matches WriteData::Messages(ms2) && ms2@.len() == ms@.len() && forall|i: int|
                0 <= i < ms@.len() ==> #[trigger] sent_msg(ms@[i], Some(total_len(ms@[i].bufs@) as u32), ms2@[i])
        },
    }
}

/// Writes `data` on a plugin connection (see `plugin_write`).
fn write_plugin(p: PluginEndpoint, data: WriteData) -> (r: (PluginEndpoint, WriteData, Outcome<usize, Errno>))
    ensures
        plugin_write(p, data, r.0, r.1, r.2),
{
    let PluginEndpoint { read, mut write_buf } = p;
    let ghost w0 = write_buf@;
    match data {
        WriteData::File => (PluginEndpoint { read, write_buf }, WriteData::File, Outcome::Error(Errno::ESPIPE)),
        WriteData::Slice(s) => {
            let c = copy_vec(&s);
            write_buf.push(c);
            let n = s.len();
            proof {
                assert(chunks_appended(w0, seq![s@], write_buf@));
            }
            (PluginEndpoint { read, write_buf }, WriteData::Slice(s), Outcome::Success(n))
        },
        WriteData::Iovec(v) => {
            let c = concat_bufs(&v);
            proof {
                lemma_concat_len(v@);
            }
            let n = c.len();
            write_buf.push(c);
            proof {
                assert(chunks_appended(w0, seq![concat(v@)], write_buf@));
            }
            (PluginEndpoint { read, write_buf }, WriteData::Iovec(v), Outcome::Success(n))
        },
        WriteData::Messages(ms) => {
            let ghost added = ms@.map_values(|m: SendMsg| concat(m.bufs@));
            let mut i: usize = 0;
            while i < ms.len()
                invariant
                    i <= ms@.len(),
                    added == ms@.map_values(|m: SendMsg| concat(m.bufs@)),
                    chunks_appended(w0, added.take(i as int), write_buf@),
                decreases ms@.len() - i,
            {
                let c = concat_bufs(&ms[i].bufs);
                write_buf.push(c);
                i += 1;
                proof {
                    let a = added.take(i as int);
                    assert(a.len() == i);
                    assert forall|j: int| 0 <= j < a.len() implies #[trigger] write_buf@[w0.len() + j]@ == a[j] by {
                        if j < i - 1 {
                            assert(added.take(i - 1)[j] == a[j]);
                        }
                    }
                }
            }
            proof {
                assert(added.take(ms@.len() as int) =~= added);
            }
            let n = ms.len();
            let ms2 = count_sent(ms);
            (PluginEndpoint { read, write_buf }, WriteData::Messages(ms2), Outcome::Success(n))
        },
    }
}

/// Marks the stream queue of socket `p` readable.
fn deliver_chunks(eps: &mut Table<Endpoint>, p: i64, chunks: &Vec<Vec<u8>>)
    requires
        old(eps).wf(),
        old(eps)@.contains_key(p as int),
        old(eps)@[p as int] is Stream,
    ensures
        final(eps).wf(),
        final(eps)@ == old(eps)@.insert(p as int, final(eps)@[p as int]),
        final(eps)@[p as int] matches Endpoint::Stream(q2) && stream_delivered(
            old(eps)@[p as int]->Stream_0,
            chunk_view(chunks@),
            q2,
        ),
{
    let e = match eps.remove(p as i128) {
        Some(e) => e,
        None => {
            assert(false);
            return;
        },
    };
    let q = match e {
        Endpoint::Stream(q) => q,
        other => {
            assert(false);
            eps.insert(p as i128, other);
            return;
        },
    };
    let StreamQueue { peer, mut recv, read_idx, read_raised: _, write_raised } = q;
    let ghost r0 = recv@;
    let ghost added = chunk_view(chunks@);
    let mut i: usize = 0;
    while i < chunks.len()
        invariant
            i <= chunks@.len(),
            added == chunk_view(chunks@),
            chunks_appended(r0, added.take(i as int), recv@),
        decreases chunks@.len() - i,
    {
        let c = copy_vec(&chunks[i]);
        recv.push(c);
        i += 1;
        proof {
            let a = added.take(i as int);
            assert forall|j: int| 0 <= j < a.len() implies #[trigger] recv@[r0.len() + j]@ == a[j] by {
                if j < i - 1 {
                    assert(added.take(i - 1)[j] == a[j]);
                }
            }
        }
    }
    proof {
        assert(added.take(chunks@.len() as int) =~= added);
    }
    let e2 = Endpoint::Stream(StreamQueue { peer, recv, read_idx, read_raised: true, write_raised });
    let ghost ge2 = e2;
    eps.insert(p as i128, e2);
    assert(eps@ =~= old(eps)@.insert(p as int, ge2));
}

/// The chunks a write of `data` on a connection hands over (see `written_chunks`).
fn chunks_of(data: &WriteData) -> (r: Vec<Vec<u8>>)
    ensures
        chunk_view(r@) == written_chunks(*data),
{
    match data {
        WriteData::File => {
            let r: Vec<Vec<u8>> = Vec::new();
            assert(chunk_view(r@) =~= Seq::<Seq<u8>>::empty());
            r
        },
        WriteData::Slice(s) => {
            let mut r: Vec<Vec<u8>> = Vec::new();
            r.push(copy_vec(s));
            assert(chunk_view(r@) =~= seq![s@]);
            r
        },
        WriteData::Iovec(v) => {
            let mut r: Vec<Vec<u8>> = Vec::new();
            r.push(concat_bufs(v));
            assert(chunk_view(r@) =~= seq![concat(v@)]);
            r
        },
        WriteData::Messages(ms) => {
            let ghost added = ms@.map_values(|m: SendMsg| concat(m.bufs@));
            let mut r: Vec<Vec<u8>> = Vec::new();
            let mut i: usize = 0;
            while i < ms.len()
                invariant
                    i <= ms@.len(),
                    added == ms@.map_values(|m: SendMsg| concat(m.bufs@)),
                    chunk_view(r@) == added.take(i as int),
                decreases ms@.len() - i,
            {
                let ghost before = r@;
                let c = concat_bufs(&ms[i].bufs);
                proof {
                    assert(c@ == added[i as int]);
                }
                r.push(c);
                i += 1;
                proof {
                    assert(chunk_view(r@) =~= chunk_view(before).push(c@));
                    assert(added.take(i as int) =~= added.take(i - 1).push(added[i - 1]));
                }
            }
            proof {
                assert(added.take(ms@.len() as int) =~= added);
            }
            r
        },
    }
}

/// Each message with its byte count set to the length of its data.
fn count_sent(ms: Vec<SendMsg>) -> (r: Vec<SendMsg>)
    ensures
        r@.len() == ms@.len(),
        forall|i: int| 0 <= i < ms@.len() ==> #[trigger] sent_msg(ms@[i], Some(total_len(ms@[i].bufs@) as u32), r@[i]),
{
    let ghost orig = ms@;
    let mut rest = ms;
    let mut out: Vec<SendMsg> = Vec::new();
    while rest.len() > 0
        invariant
            out@.len() + rest@.len() == orig.len(),
            rest@ == orig.skip(out@.len() as int),
            forall|i: int|
                0 <= i < out@.len() ==> #[trigger] sent_msg(orig[i], Some(total_len(orig[i].bufs@) as u32), out@[i]),
        decreases rest@.len(),
    {
        let ghost k = out@.len() as int;
        let m = rest.remove(0);
        proof {
            assert(m == orig[k]);
        }
        let data = concat_bufs(&m.bufs);
        proof {
            lemma_concat_len(m.bufs@);
        }
        let n = data.len();
        let SendMsg { addr_bytes, control, bufs, buflen: _ } = m;
        out.push(SendMsg { addr_bytes, control, bufs, buflen: n as u32 });
        proof {
            assert(rest@ =~= orig.skip(out@.len() as int));
        }
    }
    out
}

/// A run of a write on socket `id` in state `st` with data `data`, with the ephemeral
/// candidates `cands`, from global state `g`: `gm` is `g` once the socket's address is
/// looked up (see `local_for`), and from `gm` the run does what `write_start` says (a
/// first run) or what `write_finish` says with byte order `little` and that address (a
/// second run), ending in state `st2` with data `data2`, global state `g2` and result `r`.
pub open spec fn write_run(
    id: i64,
    nonblocking: bool,
    st: SocketWriteState,
    data: WriteData,
    little: bool,
    cands: Seq<TransportAddress>,
    g: GlobalState,
    gm: GlobalState,
    st2: SocketWriteState,
    data2: WriteData,
    g2: GlobalState,
    r: Outcome<usize, Errno>,
) -> bool {
    &&& gm == (GlobalState { socket_locations: gm.socket_locations, ..g })
    &&& gm.socket_locations@ == local_for(g, id, cands).1
    &&& st == SocketWriteState::Start ==> data2 == data && write_start(id, nonblocking, gm, st2, g2, r)
    &&& st matches SocketWriteState::Finish(p) ==> st2 == st && write_finish(
        id,
        p,
        data,
        little,
        local_for(g, id, cands).0->Some_0,
        gm,
        data2,
        g2,
        r,
    )
}

/// `write_run` in one byte order or the other.
pub open spec fn write_run_either(
    id: i64,
    nonblocking: bool,
    st: SocketWriteState,
    data: WriteData,
    cands: Seq<TransportAddress>,
    g: GlobalState,
    gm: GlobalState,
    st2: SocketWriteState,
    data2: WriteData,
    g2: GlobalState,
    r: Outcome<usize, Errno>,
) -> bool {
    write_run(id, nonblocking, st, data, true, cands, g, gm, st2, data2, g2, r) || write_run(
        id,
        nonblocking,
        st,
        data,
        false,
        cands,
        g,
        gm,
        st2,
        data2,
        g2,
        r,
    )
}

impl SocketWriteEvent {
    pub fn new(socket: i64, nonblocking: bool, data: WriteData) -> (r: Self)
        ensures
            r.socket == socket,
            r.nonblocking == nonblocking,
            r.data == data,
            r.state == SocketWriteState::Start,
    {
        SocketWriteEvent { socket, nonblocking, data, state: SocketWriteState::Start }
    }

    /// Runs the write, reading message addresses in the given byte order. Each run first
    /// looks up the socket's address: its own, or, for a socket without one, the first of
    /// the ephemeral addresses `candidates` that it can take, at which it is registered
    /// while its own address stays unassigned (see `local_for`). Then the first run waits
    /// until the data can go (see `write_start`) and the second sends it from that address
    /// (see `write_finish`), on the state with that registration made.
    ///
    /// A socket without an address needs a candidate it can take (the emulator otherwise
    /// keeps drawing new ones).
    pub fn run_ordered(&mut self, state: &mut FizzleState, little: bool, candidates: &Vec<TransportAddress>) -> (r:
        Outcome<usize, Errno>)
        requires
            old(state).wf(),
            old(state).global.sockets@.contains_key(old(self).socket as int),
            ephemeral_candidates(old(state).global.sockets@[old(self).socket as int], candidates@),
            local_for(old(state).global, old(self).socket, candidates@).0 is Some,
            old(self).state == SocketWriteState::Start ==> write_start_defined(old(self).socket, old(state).global),
            old(self).state != SocketWriteState::Start ==> write_finish_defined(
                old(self).socket,
                old(state).global,
                local_for(old(state).global, old(self).socket, candidates@).1,
                old(self).data,
            ),
        ensures
            final(state).wf(),
            final(state).local == old(state).local,
            final(self).socket == old(self).socket,
            final(self).nonblocking == old(self).nonblocking,
            exists|gm: GlobalState|
                #[trigger] write_run(
                    old(self).socket,
                    old(self).nonblocking,
                    old(self).state,
                    old(self).data,
                    little,
                    candidates@,
                    old(state).global,
                    gm,
                    final(self).state,
                    final(self).data,
                    final(state).global,
                    r,
                ),
    {
        let id = self.socket;
        let local = match get_or_assign_local(id, &mut state.global, candidates) {
            Some(t) => t,
            None => {
                assert(false);
                return Outcome::Error(Errno::EBADF);
            },
        };
        proof {
            let sock = old(state).global.sockets@[id as int];
            lemma_first_fit_in_range(old(state).global.socket_locations@, candidates@, 0, sharing_of(sock.state));
            if sock.local_addr is Ephemeral {
                let k = first_fit(old(state).global.socket_locations@, candidates@, 0, sharing_of(sock.state))->Some_0.0;
                assert(candidates@[k].protocol == sock.protocol);
            }
        }
        let ghost gm = state.global;
        let ghost data0 = self.data;
        let ghost st0 = self.state;
        let r = self.write_step(state, little, local);
        assert(gm == (GlobalState { socket_locations: gm.socket_locations, ..old(state).global }));
        assert(write_run(id, self.nonblocking, st0, data0, little, candidates@, old(state).global, gm, self.state, self.data, state.global, r));
        r
    }

    /// The write once the socket's address `local` is known: the first run waits until
    /// the data can go (see `write_start`), the second sends it (see `write_finish`).
    fn write_step(&mut self, state: &mut FizzleState, little: bool, local: TransportAddress) -> (r: Outcome<usize, Errno>)
        requires
            old(state).wf(),
            old(state).global.sockets@.contains_key(old(self).socket as int),
            local.protocol == old(state).global.sockets@[old(self).socket as int].protocol,
            old(self).state == SocketWriteState::Start ==> write_start_defined(old(self).socket, old(state).global),
            old(self).state != SocketWriteState::Start ==> write_finish_defined(
                old(self).socket,
                old(state).global,
                old(state).global.socket_locations@,
                old(self).data,
            ),
        ensures
            final(state).wf(),
            final(state).local == old(state).local,
            final(self).socket == old(self).socket,
            final(self).nonblocking == old(self).nonblocking,
            old(self).state == SocketWriteState::Start ==> final(self).data == old(self).data && write_start(
                old(self).socket,
                old(self).nonblocking,
                old(state).global,
                final(self).state,
                final(state).global,
                r,
            ),
            old(self).state matches SocketWriteState::Finish(p) ==> final(self).state == old(self).state && write_finish(
                old(self).socket,
                p,
                old(self).data,
                little,
                local,
                old(state).global,
                final(self).data,
                final(state).global,
                r,
            ),
    {
        let id = self.socket;
        let sock = match state.global.sockets.get(id as i128) {
            Some(s) => *s,
            None => {
                assert(false);
                return Outcome::Error(Errno::EBADF);
            },
        };
        match self.state {
            SocketWriteState::Start => match sock.state {
                SocketState::Connectionless(_) => {
                    self.state = SocketWriteState::Finish(None);
                    Outcome::Yield(YieldUntil::Immediate)
                },
                SocketState::Connected(c) => {
                    let (flag, polled) = match c.write_polled(id, &state.global) {
                        Some(Polled::SocketWrite(p)) => match state.global.endpoints.get(p as i128) {
                            Some(Endpoint::Stream(pq)) => (Some(pq.write_raised), Polled::SocketWrite(p)),
                            Some(Endpoint::Plugin(pe)) => (Some(pe.read.write_raised), Polled::SocketWrite(p)),
                            Some(Endpoint::FeedbackStream(f)) => (Some(f.write_raised), Polled::SocketWrite(p)),
                            _ => {
                                assert(false);
                                (None, Polled::SocketWrite(id))
                            },
                        },
                        _ => (None, Polled::SocketWrite(id)),
                    };
                    match flag {
                        Some(false) => if self.nonblocking {
                            Outcome::Error(Errno::EAGAIN)
                        } else {
                            let p = state.global.next_poller;
                            state.global.next_poller = p + 1;
                            state.global.pollers.insert(p as i128, polled);
                            self.state = SocketWriteState::Finish(Some(p));
                            Outcome::Yield(YieldUntil::Indefinite)
                        },
                        _ => {
                            self.state = SocketWriteState::Finish(None);
                            Outcome::Yield(YieldUntil::Immediate)
                        },
                    }
                },
                _ => Outcome::Error(Errno::EINVAL),
            },
            SocketWriteState::Finish(poller) => {
                match sock.state {
                    SocketState::Connectionless(_) | SocketState::Connected(_) => {},
                    _ => return Outcome::Error(Errno::EINVAL),
                }
                if let Some(p) = poller {
                    state.global.pollers.remove(p as i128);
                }
                let mut data = WriteData::File;
                std::mem::swap(&mut data, &mut self.data);
                let peered = match state.global.endpoints.get(id as i128) {
                    Some(Endpoint::Datagrams(_)) => true,
                    _ => false,
                };
                match sock.state {
                    SocketState::Connectionless(c) => match data {
                        WriteData::File => {
                            self.data = WriteData::File;
                            Outcome::Error(Errno::ESPIPE)
                        },
                        WriteData::Messages(ms) => {
                            let ghost locs0 = state.global.socket_locations@;
                            let peer = if peered {
                                c.dst_socket(&mut state.global)
                            } else {
                                None
                            };
                            proof {
                                if c.rem_addr is Some && peered {
                                    lemma_routes_rotate(
                                        locs0,
                                        state.global.sockets@,
                                        state.global.endpoints@,
                                        sock.protocol,
                                        c.rem_addr->Some_0,
                                    );
                                }
                            }
                            let conn = match peer {
                                Some(p) => {
                                    proof {
                                        let t = c.rem_addr->Some_0;
                                        let d0 = locs0[t].bound_sockets[0];
                                    }
                                    match state.global.sockets.get(p as i128) {
                                        Some(ps) => ps.local_transport(),
                                        None => {
                                            assert(false);
                                            None
                                        },
                                    }
                                },
                                None => None,
                            };
                            let (ms2, count, err) = send_messages(&mut state.global, conn, c.rem_addr, local, id, ms, little);
                            self.data = WriteData::Messages(ms2);
                            if count > 0 {
                                Outcome::Success(count)
                            } else {
                                Outcome::Error(err)
                            }
                        },
                        WriteData::Slice(s) => {
                            let bytes = copy_vec(&s);
                            self.data = WriteData::Slice(s);
                            let to = if peered {
                                c
                            } else {
                                ConnectionlessSocket { rem_addr: None, ..c }
                            };
                            send_datagram(&mut state.global, to, local, id, bytes)
                        },
                        WriteData::Iovec(v) => {
                            let bytes = concat_bufs(&v);
                            self.data = WriteData::Iovec(v);
                            let to = if peered {
                                c
                            } else {
                                ConnectionlessSocket { rem_addr: None, ..c }
                            };
                            send_datagram(&mut state.global, to, local, id, bytes)
                        },
                    },
                    _ => {
                        let is_plugin = match state.global.endpoints.get(id as i128) {
                            Some(Endpoint::Plugin(_)) => true,
                            _ => false,
                        };
                        if is_plugin {
                            let e = match state.global.endpoints.remove(id as i128) {
                                Some(e) => e,
                                None => {
                                    assert(false);
                                    self.data = data;
                                    return Outcome::Error(Errno::EINVAL);
                                },
                            };
                            let pe = match e {
                                Endpoint::Plugin(pe) => pe,
                                other => {
                                    assert(false);
                                    state.global.endpoints.insert(id as i128, other);
                                    self.data = data;
                                    return Outcome::Error(Errno::EINVAL);
                                },
                            };
                            let (p2, d2, r) = write_plugin(pe, data);
                            let ghost e2 = Endpoint::Plugin(p2);
                            state.global.endpoints.insert(id as i128, Endpoint::Plugin(p2));
                            proof {
                                assert(state.global.endpoints@ =~= old(state).global.endpoints@.insert(id as int, e2));
                            }
                            self.data = d2;
                            return r;
                        }
                        let (alive, p, is_stream) = match state.global.endpoints.get(id as i128) {
                            Some(Endpoint::Stream(q)) => match q.peer {
                                Some(p) => (state.global.sockets.contains(p as i128), p, true),
                                None => (false, 0, true),
                            },
                            _ => (false, 0, false),
                        };
                        match data {
                            WriteData::File => {
                                self.data = WriteData::File;
                                Outcome::Error(Errno::ESPIPE)
                            },
                            WriteData::Slice(s) => {
                                let n = s.len();
                                self.data = WriteData::Slice(s);
                                if is_stream && !alive {
                                    Outcome::Success(0)
                                } else {
                                    if alive {
                                        let chunks = chunks_of(&self.data);
                                        deliver_chunks(&mut state.global.endpoints, p, &chunks);
                                    }
                                    Outcome::Success(n)
                                }
                            },
                            WriteData::Iovec(v) => {
                                let bytes = concat_bufs(&v);
                                proof {
                                    lemma_concat_len(v@);
                                }
                                let n = bytes.len();
                                self.data = WriteData::Iovec(v);
                                if is_stream && !alive {
                                    Outcome::Success(0)
                                } else {
                                    if alive {
                                        let chunks = chunks_of(&self.data);
                                        deliver_chunks(&mut state.global.endpoints, p, &chunks);
                                    }
                                    Outcome::Success(n)
                                }
                            },
                            WriteData::Messages(ms) => {
                                let n = ms.len();
                                if is_stream && (n == 0 || !alive) {
                                    self.data = WriteData::Messages(ms);
                                    Outcome::Success(0)
                                } else if alive {
                                    let msgs = WriteData::Messages(ms);
                                    let chunks = chunks_of(&msgs);
                                    deliver_chunks(&mut state.global.endpoints, p, &chunks);
                                    let ms = match msgs {
                                        WriteData::Messages(ms) => ms,
                                        _ => {
                                            assert(false);
                                            Vec::new()
                                        },
                                    };
                                    self.data = WriteData::Messages(count_sent(ms));
                                    Outcome::Success(n)
                                } else {
                                    self.data = WriteData::Messages(ms);
                                    Outcome::Success(n)
                                }
                            },
                        }
                    },
                }
            },
        }
    }

    /// Runs the write, reading message addresses in the machine's byte order (see
    /// `run_ordered`).
    pub fn run(&mut self, state: &mut FizzleState, candidates: &Vec<TransportAddress>) -> (r: Outcome<usize, Errno>)
        requires
            old(state).wf(),
            old(state).global.sockets@.contains_key(old(self).socket as int),
            ephemeral_candidates(old(state).global.sockets@[old(self).socket as int], candidates@),
            local_for(old(state).global, old(self).socket, candidates@).0 is Some,
            old(self).state == SocketWriteState::Start ==> write_start_defined(old(self).socket, old(state).global),
            old(self).state != SocketWriteState::Start ==> write_finish_defined(
                old(self).socket,
                old(state).global,
                local_for(old(state).global, old(self).socket, candidates@).1,
                old(self).data,
            ),
        ensures
            final(state).wf(),
            final(state).local == old(state).local,
            final(self).socket == old(self).socket,
            final(self).nonblocking == old(self).nonblocking,
            exists|gm: GlobalState|
                #[trigger] write_run_either(
                    old(self).socket,
                    old(self).nonblocking,
                    old(self).state,
                    old(self).data,
                    candidates@,
                    old(state).global,
                    gm,
                    final(self).state,
                    final(self).data,
                    final(state).global,
                    r,
                ),
    {
        let little = native_little_endian();
        let r = self.run_ordered(state, little, candidates);
        proof {
            let gm = choose|gm: GlobalState|
                #[trigger] write_run(
                    old(self).socket,
                    old(self).nonblocking,
                    old(self).state,
                    old(self).data,
                    little,
                    candidates@,
                    old(state).global,
                    gm,
                    final(self).state,
                    final(self).data,
                    final(state).global,
                    r,
                );
            assert(write_run_either(
                old(self).socket,
                old(self).nonblocking,
                old(self).state,
                old(self).data,
                candidates@,
                old(state).global,
                gm,
                final(self).state,
                final(self).data,
                final(state).global,
                r,
            ));
        }
        r
    }

}

/// Sends `bytes` as one datagram from `local` to the destination of `c` (see
/// `write_finish`).
fn send_datagram(
    g: &mut GlobalState,
    c: ConnectionlessSocket,
    local: TransportAddress,
    sender: i64,
    bytes: Vec<u8>,
) -> (r: Outcome<usize, Errno>)
    requires
        old(g).socket_locations.wf(),
        old(g).endpoints.wf(),
        routes_ok(*old(g), local.protocol),
        c.rem_addr matches Some(t) ==> t.protocol == local.protocol,
    ensures
        final(g).socket_locations.wf(),
        final(g).endpoints.wf(),
        r == Outcome::<usize, Errno>::Success(bytes@.len() as usize),
        ({
            let (dst, locs1) = match c.rem_addr {
                Some(t) => next_bound_spec(old(g).socket_locations@, t),
                None => (None, old(g).socket_locations@),
            };
            &&& final(g).socket_locations@ == locs1
            &&& match dst {
                None => final(g).endpoints@ == old(g).endpoints@,
                Some(d) => delivered_now(
                    old(g).endpoints@,
                    received(
                        inboxes(old(g).endpoints@),
                        d as int,
                        ConnectionlessMessageView { source: local.sockaddr, ancillary: Seq::empty(), data: bytes@ },
                        sender,
                    ),
                    final(g).endpoints@,
                ),
            }
        }),
        *final(g) == (GlobalState { socket_locations: final(g).socket_locations, endpoints: final(g).endpoints, ..*old(g) }),
{
    let n = bytes.len();
    let ghost locs0 = g.socket_locations@;
    let ghost eps0 = g.endpoints@;
    let dst = c.dst_socket(g);
    match dst {
        Some(d) => {
            proof {
                let t = c.rem_addr->Some_0;
                let d0 = locs0[t].bound_sockets[0];
                assert(eps0.contains_key(d as int));
            }
            let dg = ConnectionlessMessage { source: local.sockaddr, ancillary: Vec::new(), data: bytes };
            proof {
                assert(dg@.ancillary =~= Seq::<u8>::empty());
            }
            let _ = deliver(&mut g.endpoints, d, dg, sender);
        },
        None => {},
    }
    Outcome::Success(n)
}

/// A datagram arrives whole: when a connectionless socket `a` of the emulator (one with a
/// datagram queue) whose destination has socket `b` of the emulator bound first (with
/// nothing queued) sends one buffer, a read into a buffer of the same length on `b` gives
/// back exactly those bytes.
pub proof fn lemma_datagram_delivered(
    a: i64,
    b: i64,
    s: Vec<u8>,
    little: bool,
    local: TransportAddress,
    g0: GlobalState,
    d2: WriteData,
    g1: GlobalState,
    r1: Outcome<usize, Errno>,
    buf: Vec<u8>,
    d3: ReadData,
    g2: GlobalState,
    r2: Outcome<usize, Errno>,
)
    requires
        g0.sockets@.contains_key(a as int),
        g0.sockets@[a as int].state is Connectionless,
        g0.sockets@[a as int].state->Connectionless_0.rem_addr is Some,
        g0.socket_locations@.contains_key(g0.sockets@[a as int].state->Connectionless_0.rem_addr->Some_0),
        g0.socket_locations@[g0.sockets@[a as int].state->Connectionless_0.rem_addr->Some_0].bound_sockets.len() > 0,
        g0.socket_locations@[g0.sockets@[a as int].state->Connectionless_0.rem_addr->Some_0].bound_sockets[0] == b,
        write_finish_defined(a, g0, g0.socket_locations@, WriteData::Slice(s)),
        g0.endpoints@[a as int] is Datagrams,
        g0.endpoints@[b as int] is Datagrams,
        g0.endpoints@[b as int]->Datagrams_0.recv@.len() == 0,
        write_finish(a, None, WriteData::Slice(s), little, local, g0, d2, g1, r1),
        buf@.len() == s@.len(),
        read_finish(b, None, ReadData::Slice(buf), little, g1, d3, g2, r2),
    ensures
        r1 == Outcome::<usize, Errno>::Success(s@.len() as usize),
        r2 == Outcome::<usize, Errno>::Success(s@.len() as usize),
        d3 is Slice,
        d3->Slice_0@ == s@,
{
    let t = g0.sockets@[a as int].state->Connectionless_0.rem_addr->Some_0;
    let protocol = g0.sockets@[a as int].protocol;
    let d0 = g0.socket_locations@[t].bound_sockets[0];
    assert(g0.sockets@[b as int].state is Connectionless);
    assert(g0.endpoints@.contains_key(b as int));
    let dq = dgram_queues(g0.endpoints@);
    assert(dq.contains_key(b as int));
    assert(dq[b as int] =~= Seq::<ConnectionlessMessageView>::empty());
    let q1 = g1.endpoints@[b as int]->Datagrams_0;
    assert(g1.endpoints@[b as int] is Datagrams);
    assert(queue_view(q1.recv@).len() == 1);
    assert(queue_view(q1.recv@)[0] == q1.recv@[0]@);
    assert(q1.recv@[0].data@ == s@);
    assert(g1.sockets@[b as int].state is Connectionless);
    assert(q1.recv@[0].data@.take(s@.len() as int) =~= s@);
}

/// A connection carries what is written: when connected socket `a` of the emulator writes
/// one buffer to its live peer `b`, which has nothing left to read, a read on `b` into a
/// buffer of the same length gives back exactly those bytes.
pub proof fn lemma_stream_write_then_read(
    a: i64,
    b: i64,
    s: Vec<u8>,
    little: bool,
    local: TransportAddress,
    g0: GlobalState,
    d2: WriteData,
    g1: GlobalState,
    r1: Outcome<usize, Errno>,
    buf: Vec<u8>,
    d3: ReadData,
    g2: GlobalState,
    r2: Outcome<usize, Errno>,
)
    requires
        g0.sockets@.contains_key(a as int),
        g0.sockets@[a as int].state is Connected,
        g0.endpoints@.contains_key(a as int),
        g0.endpoints@[a as int] matches Endpoint::Stream(q) && q.peer == Some(b),
        g0.sockets@.contains_key(b as int),
        g0.sockets@[b as int].state is Connected,
        g0.endpoints@.contains_key(b as int),
        g0.endpoints@[b as int] matches Endpoint::Stream(q) && q.recv@.len() == 0 && q.read_idx == 0,
        write_finish(a, None, WriteData::Slice(s), little, local, g0, d2, g1, r1),
        buf@.len() == s@.len(),
        read_finish(b, None, ReadData::Slice(buf), little, g1, d3, g2, r2),
    ensures
        r1 == Outcome::<usize, Errno>::Success(s@.len() as usize),
        r2 == Outcome::<usize, Errno>::Success(s@.len() as usize),
        d3 is Slice,
        d3->Slice_0@ == s@,
{
    let q1 = g1.endpoints@[b as int]->Stream_0;
    assert(g1.endpoints@[b as int] is Stream);
    assert(q1.recv@.len() == 1);
    let q0 = g0.endpoints@[b as int]->Stream_0;
    assert(written_chunks(WriteData::Slice(s)) =~= seq![s@]);
    assert(q1.recv@[q0.recv@.len() as int + 0]@ == seq![s@][0]);
    assert(q1.recv@[0]@ == s@);
    assert(q1.read_idx == 0);
    assert(g1.sockets@[b as int].state is Connected);
    let src = q1.recv@[0]@.skip(0);
    assert(src =~= s@);
    assert(window(src, 0, s@.len() as int) =~= s@);
    assert(overwrite_prefix(buf@, s@) =~= s@);
}

/// Consecutive reads from a connection reading the fuzzing input get consecutive parts
/// of the input.
pub proof fn lemma_fuzz_reads_follow(
    input: Seq<u8>,
    idx: nat,
    s1: Vec<u8>,
    idx1: nat,
    d1: ReadData,
    r1: Outcome<usize, Errno>,
    s2: Vec<u8>,
    idx2: nat,
    d2: ReadData,
    r2: Outcome<usize, Errno>,
)
    requires
        fuzz_read(input, idx, ReadData::Slice(s1), idx1, d1, r1),
        fuzz_read(input, idx1, ReadData::Slice(s2), idx2, d2, r2),
        idx + s1@.len() + s2@.len() <= input.len(),
    ensures
        d1->Slice_0@ + d2->Slice_0@ == input.subrange(idx as int, (idx + s1@.len() + s2@.len()) as int),
        idx2 == idx + s1@.len() + s2@.len(),
{
    assert(d1->Slice_0@ + d2->Slice_0@ =~= input.subrange(idx as int, (idx + s1@.len() + s2@.len()) as int));
}

} // verus!
