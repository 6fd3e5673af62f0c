//! Deterministic emulation core of a libc-interposing fuzzing harness.
//!
//! The library holds the decisions that the interposed libc functions make: the
//! incremental `scanf` format engine and the loop that feeds it from a stream, and the
//! event handlers that act on the emulator's state (spinlocks, sleeping, thread
//! bookkeeping, timers, sockets and their connections and data, `fcntl` requests).
//! Every function here is verified but one trusted wrapper (`endian::u16_from_ne_bytes`);
//! the foreign-function glue lives outside.

pub mod errno;
pub mod scheduler;
pub mod scanf_model;
pub mod scanf;
pub mod scan_session;
pub mod table;
pub mod state;
pub mod thread;
pub mod spinlock;
pub mod sleep;
pub mod time;
pub mod endian;
pub mod socket;
pub mod sockio;
pub mod conn;
pub mod fcntl;
pub mod hooks;
