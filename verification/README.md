# fizzle

The verified core of a deterministic libc-emulation layer for network fuzzing: the
decisions that interposed libc calls make, stated as contracts and proved with Verus.

- `src/` — the library. Every function is verified except one trusted wrapper,
  `u16_from_ne_bytes` in `endian.rs`, which reads two bytes in the machine's byte order
  through `u16::from_ne_bytes`.
  - `scanf_model.rs`, `scanf.rs`, `scan_session.rs`: the incremental `scanf` engine that
    decides how many bytes a format needs, and the loop that feeds it from a stream.
  - `state.rs`, `table.rs`, `scheduler.rs`, `errno.rs`: the emulator's state and the
    outcome of an event.
  - `spinlock.rs`, `sleep.rs`, `thread.rs`, `time.rs`: thread, lock, timer and clock events.
  - `socket.rs`, `sockio.rs`, `conn.rs`, `endian.rs`: sockets, addresses and their byte
    layouts, options, reads and writes, `connect`/`accept`/`socketpair`, and the emulated
    connections (sink, zero, fuzzing input, plugin, feedback to the harness) that stand
    in for a peer, on connections, listeners and connections waiting for a listener;
    datagrams are queued, handed to a plugin, fed back to the harness, or dropped, by
    what serves the socket they are sent to.
  - `fcntl.rs`, `hooks.rs`: request decoding and the guard against nested interception.
- `tests/` — tests run against the compiled library.
- `app/` — the host side: thread-local handler state, host `libc` calls for passthrough
  descriptors, and conversions between host types and the library's plain values.
