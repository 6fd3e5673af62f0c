use fizzle::errno::Errno;
use fizzle::fcntl::{
    fcntl_command, host_fcntl_arg, FcntlArg, FcntlCommand, F_DUPFD, F_GETFL, F_GETSIG, F_OFD_GETLK,
    F_SETFL, F_SETLKW, F_SETSIG, F_SET_FILE_RW_HINT,
};

#[test]
fn fcntl_numbers_name_their_commands() {
    assert_eq!(fcntl_command(F_DUPFD), Some(FcntlCommand::DupFd));
    assert_eq!(fcntl_command(F_SETFL), Some(FcntlCommand::SetFl));
    assert_eq!(fcntl_command(F_GETFL), Some(FcntlCommand::GetFl));
    assert_eq!(fcntl_command(F_SETLKW), Some(FcntlCommand::SetLockWait));
    assert_eq!(fcntl_command(F_OFD_GETLK), Some(FcntlCommand::GetLock));
    assert_eq!(fcntl_command(F_SET_FILE_RW_HINT), Some(FcntlCommand::SetFileRwHint));
    assert_eq!(fcntl_command(F_SETSIG), Some(FcntlCommand::SetSig));
}

#[test]
fn fcntl_unknown_numbers_are_refused() {
    assert_eq!(fcntl_command(F_GETSIG), None);
    assert_eq!(fcntl_command(12345), None);
    assert_eq!(fcntl_command(-1), None);
}

#[test]
fn fcntl_arguments_are_read_by_kind() {
    assert_eq!(FcntlCommand::DupFd.arg(), FcntlArg::Int);
    assert_eq!(FcntlCommand::GetFl.arg(), FcntlArg::NoArg);
    assert_eq!(FcntlCommand::GetLock.arg(), FcntlArg::Pointer);
    assert_eq!(FcntlCommand::SetOwnEx.arg(), FcntlArg::Pointer);
}

#[test]
fn fcntl_host_requests_also_take_getsig() {
    assert_eq!(host_fcntl_arg(F_GETSIG), Some(FcntlArg::NoArg));
    assert_eq!(host_fcntl_arg(F_SETSIG), Some(FcntlArg::Int));
    assert_eq!(host_fcntl_arg(F_SETLKW), Some(FcntlArg::Pointer));
    assert_eq!(host_fcntl_arg(999), None);
}

#[test]
fn errno_numbers_round_trip() {
    for e in [Errno::EPERM, Errno::EAGAIN, Errno::EINVAL, Errno::EADDRINUSE, Errno::EINPROGRESS] {
        assert_eq!(Errno::from_raw(e.raw()), e);
    }
    assert_eq!(Errno::EAGAIN.raw(), 11);
    assert_eq!(Errno::ECONNREFUSED.raw(), 111);
    assert_eq!(Errno::from_raw(2), Errno::Other(2));
    assert_eq!(Errno::from_raw(2).raw(), 2);
}
