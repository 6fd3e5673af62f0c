//! The loop that every emulated `scanf`-family call runs: it pulls just enough bytes from
//! the stream for the format to be decided, then hands the buffer to the host's conversion.
//!
//! The session holds the decisions; its caller performs each action (a stream read, the
//! conversion with an optional push-back) and reports what the stream returned.
use vstd::prelude::*;

use crate::errno::Errno;
use crate::scanf::scan_incremental;
use crate::scanf_model::{scan_result, MatchFailure};

verus! {

/// What the caller of a scan session does next.
#[derive(Clone, Copy, Debug, PartialEq, Eq, Structural)]
pub enum ScanAction {
    /// The buffer holds all the input the format needs: convert it with the host's
    /// `vsscanf` and return what that returns; where `unget` holds a byte, push it back
    /// onto the stream first.
    Convert { unget: Option<u8> },
    /// Read up to `len` more bytes from the stream and report them with `on_read`.
    Read { len: usize },
    /// The call is over: it returns `result` (`-1` is `EOF`), after setting `errno` to the
    /// given error where there is one.
    Finish { result: i32, errno: Option<Errno> },
}

/// The state of one emulated `scanf`-family call.
pub struct ScanSession {
    /// The bytes read from the stream so far.
    pub buf: Vec<u8>,
    /// How many bytes of `buf` the part of the format already decided has consumed.
    pub consumed: usize,
    /// Where the part of the format still to decide begins.
    pub format_start: usize,
    /// The assignments made by the part of the format already decided.
    pub total_matched: usize,
    /// How many bytes the last `Read` action asked for.
    pub requested: usize,
}

/// The value `-1` that `scanf` returns for `EOF`.
pub const SCAN_EOF: i32 = -1;

impl ScanSession {
    /// The session's bookkeeping is consistent with the format `format`.
    pub open spec fn wf(self, format: Seq<u8>) -> bool {
        &&& self.consumed <= self.buf@.len()
        &&& self.format_start <= format.len()
        &&& self.total_matched <= self.format_start
    }

    /// The part of the format still to decide.
    pub open spec fn rest_format(self, format: Seq<u8>) -> Seq<u8> {
        format.subrange(self.format_start as int, format.len() as int)
    }

    /// The buffered input not yet consumed.
    pub open spec fn rest_input(self) -> Seq<u8> {
        self.buf@.subrange(self.consumed as int, self.buf@.len() as int)
    }

    /// What the incremental scan reports on the undecided format and input.
    pub open spec fn pending_scan(self, format: Seq<u8>) -> Option<Result<usize, MatchFailure>> {
        scan_result(self.rest_format(format), self.rest_input())
    }

    /// The steps of a session are defined (the scan of its format does not reach an
    /// unimplemented directive or an overflow) and a completed scan leaves at most one
    /// byte unconsumed, which is all that can be pushed back onto a stream.
    pub open spec fn step_defined(self, format: Seq<u8>) -> bool {
        match self.pending_scan(format) {
            None => false,
            Some(Ok(n)) => self.buf@.len() <= self.consumed + n + 1,
            Some(Err(_)) => true,
        }
    }

    /// A session that has read nothing yet.
    pub fn new() -> (s: ScanSession)
        ensures
            s.buf@ == Seq::<u8>::empty(),
            s.consumed == 0,
            s.format_start == 0,
            s.total_matched == 0,
            s.requested == 0,
    {
        ScanSession { buf: Vec::new(), consumed: 0, format_start: 0, total_matched: 0, requested: 0 }
    }

    /// Decides the next action from the buffered input.
    ///
    /// A completed scan consumes its bytes and asks for the conversion, handing back the
    /// byte after them if one was read; a truncated scan records how far it got and asks
    /// for the bytes still needed; a failed one finishes with the number of assignments
    /// made, or with `EOF` and `EILSEQ` when there were none.
    pub fn step(&mut self, format: &[u8]) -> (a: ScanAction)
        requires
            old(self).wf(format@),
            old(self).step_defined(format@),
        ensures
            final(self).wf(format@),
            final(self).buf@ == old(self).buf@,
            match old(self).pending_scan(format@).unwrap() {
                Ok(n) => {
                    &&& final(self).consumed == old(self).consumed + n
                    &&& final(self).format_start == old(self).format_start
                    &&& final(self).total_matched == old(self).total_matched
                    &&& final(self).requested == old(self).requested
                    &&& a == ScanAction::Convert {
                        unget: if final(self).consumed < old(self).buf@.len() {
                            Some(old(self).buf@[final(self).consumed as int])
                        } else {
                            None
                        },
                    }
                },
                Err(MatchFailure::Truncated { matched, input_consumed, format_consumed, min_remainder }) => {
                    &&& final(self).consumed == old(self).consumed + input_consumed
                    &&& final(self).format_start == old(self).format_start + format_consumed
                    &&& final(self).total_matched == old(self).total_matched + matched
                    &&& final(self).requested == min_remainder
                    &&& a == ScanAction::Read { len: min_remainder }
                },
                Err(MatchFailure::BadInput(written)) => {
                    &&& *final(self) == *old(self)
                    &&& a == (if written == 0 {
                        ScanAction::Finish { result: SCAN_EOF, errno: Some(Errno::EILSEQ) }
                    } else {
                        ScanAction::Finish { result: written as i32, errno: None }
                    })
                },
            },
    {
        let blen = self.buf.len();
        let r = scan_incremental(&format[self.format_start..format.len()], &self.buf[self.consumed..blen]);
        match r {
            Ok(n) => {
                self.consumed = self.consumed + n;
                let unget = if self.consumed < self.buf.len() {
                    Some(self.buf[self.consumed])
                } else {
                    None
                };
                ScanAction::Convert { unget }
            },
            Err(MatchFailure::Truncated { matched, input_consumed, format_consumed, min_remainder }) => {
                self.total_matched = self.total_matched + matched;
                self.format_start = self.format_start + format_consumed;
                self.consumed = self.consumed + input_consumed;
                self.requested = min_remainder;
                ScanAction::Read { len: min_remainder }
            },
            Err(MatchFailure::BadInput(written)) => {
                if written == 0 {
                    ScanAction::Finish { result: SCAN_EOF, errno: Some(Errno::EILSEQ) }
                } else {
                    ScanAction::Finish { result: written as i32, errno: None }
                }
            },
        }
    }

    /// Takes the outcome of a `Read` action: the bytes the stream delivered, whether the
    /// read reported failure, and the `errno` it left.
    ///
    /// A failed read finishes the call: with `EOF` when `errno` is set or nothing was read
    /// or matched, with the assignments made so far when nothing was read; otherwise the
    /// bytes (at most as many as were asked for) join the buffer and `None` says to step
    /// again.
    pub fn on_read(&mut self, data: &[u8], failed: bool, errno: Errno) -> (a: Option<ScanAction>)
        ensures
            failed && (errno != Errno::SUCCESS || (data@.len() == 0 && old(self).total_matched == 0)) ==> {
                &&& a == Some(ScanAction::Finish { result: SCAN_EOF, errno: None })
                &&& *final(self) == *old(self)
            },
            failed && errno == Errno::SUCCESS && data@.len() == 0 && old(self).total_matched != 0 ==> {
                &&& a == Some(ScanAction::Finish { result: old(self).total_matched as i32, errno: None })
                &&& *final(self) == *old(self)
            },
            !failed || (errno == Errno::SUCCESS && data@.len() != 0) ==> {
                &&& a is None
                &&& final(self).buf@ == old(self).buf@ + data@.take(
                    if data@.len() <= old(self).requested { data@.len() as int } else { old(self).requested as int },
                )
                &&& final(self).consumed == old(self).consumed
                &&& final(self).format_start == old(self).format_start
                &&& final(self).total_matched == old(self).total_matched
                &&& final(self).requested == old(self).requested
            },
    {
        if failed {
            if errno != Errno::SUCCESS || (data.len() == 0 && self.total_matched == 0) {
                return Some(ScanAction::Finish { result: SCAN_EOF, errno: None });
            }
            if data.len() == 0 {
                return Some(ScanAction::Finish { result: self.total_matched as i32, errno: None });
            }
        }
        let take = if data.len() <= self.requested { data.len() } else { self.requested };
        let ghost start = self.buf@;
        let mut i: usize = 0;
        while i < take
            invariant
                take <= data@.len(),
                i <= take,
                self.buf@ == start + data@.take(i as int),
                self.consumed == old(self).consumed,
                self.format_start == old(self).format_start,
                self.total_matched == old(self).total_matched,
                self.requested == old(self).requested,
            decreases take - i,
        {
            self.buf.push(data[i]);
            assert(data@.take(i + 1) == data@.take(i as int).push(data@[i as int]));
            i = i + 1;
        }
        None
    }
}

} // verus!
