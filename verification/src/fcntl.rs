//! Decoding `fcntl` requests: which command a number names and how its third argument
//! is read.
use vstd::prelude::*;

verus! {

pub const F_DUPFD: i32 = 0;
pub const F_GETFD: i32 = 1;
pub const F_SETFD: i32 = 2;
pub const F_GETFL: i32 = 3;
pub const F_SETFL: i32 = 4;
pub const F_GETLK: i32 = 5;
pub const F_SETLK: i32 = 6;
pub const F_SETLKW: i32 = 7;
pub const F_SETOWN: i32 = 8;
pub const F_GETOWN: i32 = 9;
pub const F_SETSIG: i32 = 10;
pub const F_GETSIG: i32 = 11;
pub const F_SETOWN_EX: i32 = 15;
pub const F_GETOWN_EX: i32 = 16;
pub const F_OFD_GETLK: i32 = 36;
pub const F_OFD_SETLK: i32 = 37;
pub const F_OFD_SETLKW: i32 = 38;
pub const F_GETLEASE: i32 = 1025;
pub const F_NOTIFY: i32 = 1026;
pub const F_DUPFD_CLOEXEC: i32 = 1030;
pub const F_SETPIPE_SZ: i32 = 1031;
pub const F_ADD_SEALS: i32 = 1033;
pub const F_GET_SEALS: i32 = 1034;
pub const F_GET_RW_HINT: i32 = 1035;
pub const F_SET_RW_HINT: i32 = 1036;
pub const F_GET_FILE_RW_HINT: i32 = 1037;
pub const F_SET_FILE_RW_HINT: i32 = 1038;

/// How `fcntl` reads its third argument.
#[derive(Clone, Copy, Debug, PartialEq, Eq, Structural)]
pub enum FcntlArg {
    /// There is none.
    NoArg,
    /// An `int`.
    Int,
    /// A pointer (to a `struct flock`, a `struct f_owner_ex` or a `uint64_t`).
    Pointer,
}

/// An `fcntl` command that the emulator handles.
#[derive(Clone, Copy, Debug, PartialEq, Eq, Structural)]
pub enum FcntlCommand {
    DupFd,
    DupFdCloexec,
    SetFd,
    SetFl,
    SetOwn,
    SetSig,
    Notify,
    SetPipeSize,
    AddSeals,
    GetFd,
    GetFl,
    GetOwn,
    GetLease,
    GetSeals,
    /// `F_SETLK` and `F_OFD_SETLK`.
    SetLock,
    /// `F_SETLKW` and `F_OFD_SETLKW`.
    SetLockWait,
    /// `F_GETLK` and `F_OFD_GETLK`.
    GetLock,
    GetOwnEx,
    SetOwnEx,
    GetRwHint,
    SetRwHint,
    GetFileRwHint,
    SetFileRwHint,
}

/// The command that request number `cmd` names; `None` for one the emulator refuses with
/// `EINVAL`.
pub open spec fn command_of(cmd: i32) -> Option<FcntlCommand> {
    if cmd == F_DUPFD {
        Some(FcntlCommand::DupFd)
    } else if cmd == F_DUPFD_CLOEXEC {
        Some(FcntlCommand::DupFdCloexec)
    } else if cmd == F_SETFD {
        Some(FcntlCommand::SetFd)
    } else if cmd == F_SETFL {
        Some(FcntlCommand::SetFl)
    } else if cmd == F_SETOWN {
        Some(FcntlCommand::SetOwn)
    } else if cmd == F_SETSIG {
        Some(FcntlCommand::SetSig)
    } else if cmd == F_NOTIFY {
        Some(FcntlCommand::Notify)
    } else if cmd == F_SETPIPE_SZ {
        Some(FcntlCommand::SetPipeSize)
    } else if cmd == F_ADD_SEALS {
        Some(FcntlCommand::AddSeals)
    } else if cmd == F_GETFD {
        Some(FcntlCommand::GetFd)
    } else if cmd == F_GETFL {
        Some(FcntlCommand::GetFl)
    } else if cmd == F_GETOWN {
        Some(FcntlCommand::GetOwn)
    } else if cmd == F_GETLEASE {
        Some(FcntlCommand::GetLease)
    } else if cmd == F_GET_SEALS {
        Some(FcntlCommand::GetSeals)
    } else if cmd == F_SETLK || cmd == F_OFD_SETLK {
        Some(FcntlCommand::SetLock)
    } else if cmd == F_SETLKW || cmd == F_OFD_SETLKW {
        Some(FcntlCommand::SetLockWait)
    } else if cmd == F_GETLK || cmd == F_OFD_GETLK {
        Some(FcntlCommand::GetLock)
    } else if cmd == F_GETOWN_EX {
        Some(FcntlCommand::GetOwnEx)
    } else if cmd == F_SETOWN_EX {
        Some(FcntlCommand::SetOwnEx)
    } else if cmd == F_GET_RW_HINT {
        Some(FcntlCommand::GetRwHint)
    } else if cmd == F_SET_RW_HINT {
        Some(FcntlCommand::SetRwHint)
    } else if cmd == F_GET_FILE_RW_HINT {
        Some(FcntlCommand::GetFileRwHint)
    } else if cmd == F_SET_FILE_RW_HINT {
        Some(FcntlCommand::SetFileRwHint)
    } else {
        None
    }
}

/// The request numbers of Linux name these commands: 0 `DupFd`, 1 `GetFd`, 2 `SetFd`,
/// 3 `GetFl`, 4 `SetFl`, 5 and 36 `GetLock`, 6 and 37 `SetLock`, 7 and 38 `SetLockWait`,
/// 8 `SetOwn`, 9 `GetOwn`, 10 `SetSig`, 15 `SetOwnEx`, 16 `GetOwnEx`, 1025 `GetLease`,
/// 1026 `Notify`, 1030 `DupFdCloexec`, 1031 `SetPipeSize`, 1033 `AddSeals`, 1034
/// `GetSeals`, 1035 to 1038 the read-write hints; every other number is refused.
pub proof fn lemma_fcntl_request_numbers(cmd: i32)
    ensures
        command_of(0) == Some(FcntlCommand::DupFd),
        command_of(1) == Some(FcntlCommand::GetFd),
        command_of(2) == Some(FcntlCommand::SetFd),
        command_of(3) == Some(FcntlCommand::GetFl),
        command_of(4) == Some(FcntlCommand::SetFl),
        command_of(5) == Some(FcntlCommand::GetLock),
        command_of(6) == Some(FcntlCommand::SetLock),
        command_of(7) == Some(FcntlCommand::SetLockWait),
        command_of(8) == Some(FcntlCommand::SetOwn),
        command_of(9) == Some(FcntlCommand::GetOwn),
        command_of(10) == Some(FcntlCommand::SetSig),
        command_of(15) == Some(FcntlCommand::SetOwnEx),
        command_of(16) == Some(FcntlCommand::GetOwnEx),
        command_of(36) == Some(FcntlCommand::GetLock),
        command_of(37) == Some(FcntlCommand::SetLock),
        command_of(38) == Some(FcntlCommand::SetLockWait),
        command_of(1025) == Some(FcntlCommand::GetLease),
        command_of(1026) == Some(FcntlCommand::Notify),
        command_of(1030) == Some(FcntlCommand::DupFdCloexec),
        command_of(1031) == Some(FcntlCommand::SetPipeSize),
        command_of(1033) == Some(FcntlCommand::AddSeals),
        command_of(1034) == Some(FcntlCommand::GetSeals),
        command_of(1035) == Some(FcntlCommand::GetRwHint),
        command_of(1036) == Some(FcntlCommand::SetRwHint),
        command_of(1037) == Some(FcntlCommand::GetFileRwHint),
        command_of(1038) == Some(FcntlCommand::SetFileRwHint),
        command_of(cmd) is Some <==> (0 <= cmd <= 10 || cmd == 15 || cmd == 16 || 36 <= cmd <= 38 || cmd == 1025
            || cmd == 1026 || cmd == 1030 || cmd == 1031 || 1033 <= cmd <= 1038),
{
}

/// Distinct request numbers name distinct commands, but for the open-file-description
/// locks (36, 37, 38), which name the same commands as the classic locks (5, 6, 7).
pub proof fn lemma_fcntl_commands_distinct(a: i32, b: i32)
    requires
        command_of(a) is Some,
        command_of(a) == command_of(b),
        a < b,
    ensures
        (a == 5 && b == 36) || (a == 6 && b == 37) || (a == 7 && b == 38),
{
}

/// How the argument of a command is read.
pub open spec fn arg_of(c: FcntlCommand) -> FcntlArg {
    match c {
        FcntlCommand::DupFd | FcntlCommand::DupFdCloexec | FcntlCommand::SetFd | FcntlCommand::SetFl
        | FcntlCommand::SetOwn | FcntlCommand::SetSig | FcntlCommand::Notify | FcntlCommand::SetPipeSize
        | FcntlCommand::AddSeals => FcntlArg::Int,
        FcntlCommand::GetFd | FcntlCommand::GetFl | FcntlCommand::GetOwn | FcntlCommand::GetLease
        | FcntlCommand::GetSeals => FcntlArg::NoArg,
        _ => FcntlArg::Pointer,
    }
}

/// The command that request number `cmd` names (see `command_of`).
pub fn fcntl_command(cmd: i32) -> (r: Option<FcntlCommand>)
    ensures
        r == command_of(cmd),
{
    if cmd == F_DUPFD {
        Some(FcntlCommand::DupFd)
    } else if cmd == F_DUPFD_CLOEXEC {
        Some(FcntlCommand::DupFdCloexec)
    } else if cmd == F_SETFD {
        Some(FcntlCommand::SetFd)
    } else if cmd == F_SETFL {
        Some(FcntlCommand::SetFl)
    } else if cmd == F_SETOWN {
        Some(FcntlCommand::SetOwn)
    } else if cmd == F_SETSIG {
        Some(FcntlCommand::SetSig)
    } else if cmd == F_NOTIFY {
        Some(FcntlCommand::Notify)
    } else if cmd == F_SETPIPE_SZ {
        Some(FcntlCommand::SetPipeSize)
    } else if cmd == F_ADD_SEALS {
        Some(FcntlCommand::AddSeals)
    } else if cmd == F_GETFD {
        Some(FcntlCommand::GetFd)
    } else if cmd == F_GETFL {
        Some(FcntlCommand::GetFl)
    } else if cmd == F_GETOWN {
        Some(FcntlCommand::GetOwn)
    } else if cmd == F_GETLEASE {
        Some(FcntlCommand::GetLease)
    } else if cmd == F_GET_SEALS {
        Some(FcntlCommand::GetSeals)
    } else if cmd == F_SETLK || cmd == F_OFD_SETLK {
        Some(FcntlCommand::SetLock)
    } else if cmd == F_SETLKW || cmd == F_OFD_SETLKW {
        Some(FcntlCommand::SetLockWait)
    } else if cmd == F_GETLK || cmd == F_OFD_GETLK {
        Some(FcntlCommand::GetLock)
    } else if cmd == F_GETOWN_EX {
        Some(FcntlCommand::GetOwnEx)
    } else if cmd == F_SETOWN_EX {
        Some(FcntlCommand::SetOwnEx)
    } else if cmd == F_GET_RW_HINT {
        Some(FcntlCommand::GetRwHint)
    } else if cmd == F_SET_RW_HINT {
        Some(FcntlCommand::SetRwHint)
    } else if cmd == F_GET_FILE_RW_HINT {
        Some(FcntlCommand::GetFileRwHint)
    } else if cmd == F_SET_FILE_RW_HINT {
        Some(FcntlCommand::SetFileRwHint)
    } else {
        None
    }
}

impl FcntlCommand {
    /// How the command's argument is read (see `arg_of`).
    pub fn arg(&self) -> (r: FcntlArg)
        ensures
            r == arg_of(*self),
    {
        match self {
            FcntlCommand::DupFd | FcntlCommand::DupFdCloexec | FcntlCommand::SetFd | FcntlCommand::SetFl
            | FcntlCommand::SetOwn | FcntlCommand::SetSig | FcntlCommand::Notify | FcntlCommand::SetPipeSize
            | FcntlCommand::AddSeals => FcntlArg::Int,
            FcntlCommand::GetFd | FcntlCommand::GetFl | FcntlCommand::GetOwn | FcntlCommand::GetLease
            | FcntlCommand::GetSeals => FcntlArg::NoArg,
            _ => FcntlArg::Pointer,
        }
    }
}

/// How a request made while the emulator is already handling a call (and so goes to the
/// host) reads its argument: as an emulated command does, and with no argument for
/// `F_GETSIG` too; `None` for a request refused with `EINVAL`.
pub open spec fn host_arg_of(cmd: i32) -> Option<FcntlArg> {
    if cmd == F_GETSIG {
        Some(FcntlArg::NoArg)
    } else {
        match command_of(cmd) {
            Some(c) => Some(arg_of(c)),
            None => None,
        }
    }
}

/// How a request that goes to the host reads its argument (see `host_arg_of`).
pub fn host_fcntl_arg(cmd: i32) -> (r: Option<FcntlArg>)
    ensures
        r == host_arg_of(cmd),
{
    if cmd == F_GETSIG {
        Some(FcntlArg::NoArg)
    } else {
        match fcntl_command(cmd) {
            Some(c) => Some(c.arg()),
            None => None,
        }
    }
}

} // verus!
