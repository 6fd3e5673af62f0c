use vstd::prelude::*;

verus! {

/// The `errno` values that the emulated functions report.
#[derive(Clone, Copy, Debug, PartialEq, Eq, Structural)]
pub enum Errno {
    SUCCESS,
    EPERM,
    ESRCH,
    EINTR,
    EBADF,
    EAGAIN,
    EBUSY,
    EINVAL,
    EDEADLK,
    ENOMEM,
    EILSEQ,
    ENOTSOCK,
    EADDRINUSE,
    ENOPROTOOPT,
    ENOTCONN,
    ESPIPE,
    EOPNOTSUPP,
    ECONNABORTED,
    EISCONN,
    ECONNREFUSED,
    EINPROGRESS,
    /// Any other raw value, as reported by the host's libc.
    Other(i32),
}

impl Errno {
    /// The raw Linux number of this error.
    pub open spec fn spec_raw(self) -> i32 {
        match self {
            Errno::SUCCESS => 0,
            Errno::EPERM => 1,
            Errno::ESRCH => 3,
            Errno::EINTR => 4,
            Errno::EBADF => 9,
            Errno::EAGAIN => 11,
            Errno::ENOMEM => 12,
            Errno::EBUSY => 16,
            Errno::EINVAL => 22,
            Errno::EDEADLK => 35,
            Errno::EILSEQ => 84,
            Errno::ENOTSOCK => 88,
            Errno::EADDRINUSE => 98,
            Errno::ENOPROTOOPT => 92,
            Errno::ENOTCONN => 107,
            Errno::ESPIPE => 29,
            Errno::EOPNOTSUPP => 95,
            Errno::ECONNABORTED => 103,
            Errno::EISCONN => 106,
            Errno::ECONNREFUSED => 111,
            Errno::EINPROGRESS => 115,
            Errno::Other(v) => v,
        }
    }

    /// Returns the raw Linux number of this error.
    pub fn raw(&self) -> (r: i32)
        ensures
            r == self.spec_raw(),
    {
        match self {
            Errno::SUCCESS => 0,
            Errno::EPERM => 1,
            Errno::ESRCH => 3,
            Errno::EINTR => 4,
            Errno::EBADF => 9,
            Errno::EAGAIN => 11,
            Errno::ENOMEM => 12,
            Errno::EBUSY => 16,
            Errno::EINVAL => 22,
            Errno::EDEADLK => 35,
            Errno::EILSEQ => 84,
            Errno::ENOTSOCK => 88,
            Errno::EADDRINUSE => 98,
            Errno::ENOPROTOOPT => 92,
            Errno::ENOTCONN => 107,
            Errno::ESPIPE => 29,
            Errno::EOPNOTSUPP => 95,
            Errno::ECONNABORTED => 103,
            Errno::EISCONN => 106,
            Errno::ECONNREFUSED => 111,
            Errno::EINPROGRESS => 115,
            Errno::Other(v) => *v,
        }
    }

    /// Whether `v` is the number of one of the named errors.
    pub open spec fn is_named_raw(v: i32) -> bool {
        v == 0 || v == 1 || v == 3 || v == 4 || v == 9 || v == 11 || v == 12 || v == 16 || v == 22 || v == 35
            || v == 84 || v == 88 || v == 98 || v == 92 || v == 107 || v == 29 || v == 95 || v == 103 || v == 106
            || v == 111 || v == 115
    }

    /// The error with the raw Linux number `v`: the named one where there is one.
    pub fn from_raw(v: i32) -> (r: Errno)
        ensures
            r.spec_raw() == v,
            r is Other <==> !Errno::is_named_raw(v),
    {
        match v {
            0 => Errno::SUCCESS,
            1 => Errno::EPERM,
            3 => Errno::ESRCH,
            4 => Errno::EINTR,
            9 => Errno::EBADF,
            11 => Errno::EAGAIN,
            12 => Errno::ENOMEM,
            16 => Errno::EBUSY,
            22 => Errno::EINVAL,
            35 => Errno::EDEADLK,
            84 => Errno::EILSEQ,
            88 => Errno::ENOTSOCK,
            98 => Errno::EADDRINUSE,
            92 => Errno::ENOPROTOOPT,
            107 => Errno::ENOTCONN,
            29 => Errno::ESPIPE,
            95 => Errno::EOPNOTSUPP,
            103 => Errno::ECONNABORTED,
            106 => Errno::EISCONN,
            111 => Errno::ECONNREFUSED,
            115 => Errno::EINPROGRESS,
            _ => Errno::Other(v),
        }
    }
}

/// Reading a named error back from its number gives the error.
pub proof fn lemma_raw_round_trip(e: Errno, r: Errno)
    requires
        !(e is Other),
        r.spec_raw() == e.spec_raw(),
        r is Other <==> !Errno::is_named_raw(e.spec_raw()),
    ensures
        r == e,
{
}

} // verus!
