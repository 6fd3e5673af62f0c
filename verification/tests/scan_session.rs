use fizzle::errno::Errno;
use fizzle::scan_session::{ScanAction, ScanSession, SCAN_EOF};

/// Runs a session over `stream`, one read at a time, until it asks for the conversion or
/// finishes. Returns the final action, the buffer and the bytes left in the stream.
fn drive(format: &[u8], stream: &[u8]) -> (ScanAction, Vec<u8>, Vec<u8>) {
    let mut session = ScanSession::new();
    let mut pos = 0;
    for _ in 0..100 {
        match session.step(format) {
            ScanAction::Read { len } => {
                let end = (pos + len).min(stream.len());
                let data = &stream[pos..end];
                pos = end;
                let failed = data.len() < len;
                if let Some(done) = session.on_read(data, failed, Errno::SUCCESS) {
                    return (done, session.buf, stream[pos..].to_vec());
                }
            }
            other => return (other, session.buf, stream[pos..].to_vec()),
        }
    }
    panic!("scan session did not settle");
}

#[test]
fn scan_session_reads_a_number_and_hands_back_the_terminator() {
    let (action, buf, rest) = drive(b"%d", b"42\nrest");
    assert_eq!(action, ScanAction::Convert { unget: Some(b'\n') });
    assert_eq!(buf, b"42\n".to_vec());
    assert_eq!(rest, b"rest".to_vec());
}

#[test]
fn scan_session_literal_estimate_counts_the_first_byte_twice() {
    let (action, buf, _) = drive(b"ab", b"abcd");
    assert_eq!(action, ScanAction::Convert { unget: Some(b'c') });
    assert_eq!(buf, b"abc".to_vec());
}

#[test]
fn scan_session_mismatch_before_any_assignment_is_eilseq() {
    let (action, _, _) = drive(b"a", b"bc");
    assert_eq!(action, ScanAction::Finish { result: SCAN_EOF, errno: Some(Errno::EILSEQ) });
}

#[test]
fn scan_session_empty_stream_is_eof() {
    let (action, _, _) = drive(b"%d", b"");
    assert_eq!(action, ScanAction::Finish { result: SCAN_EOF, errno: None });
}

#[test]
fn scan_session_first_step_asks_for_the_least_input() {
    let mut session = ScanSession::new();
    assert_eq!(session.step(b"%d%d"), ScanAction::Read { len: 2 });
    assert_eq!(session.requested, 2);
    assert_eq!(session.consumed, 0);
}

#[test]
fn scan_session_read_keeps_at_most_what_was_asked() {
    let mut session = ScanSession::new();
    assert_eq!(session.step(b"%1c"), ScanAction::Read { len: 1 });
    assert_eq!(session.on_read(b"xyz", false, Errno::SUCCESS), None);
    assert_eq!(session.buf, b"x".to_vec());
    assert_eq!(session.step(b"%1c"), ScanAction::Convert { unget: None });
}

#[test]
fn scan_session_unbounded_char_directive_asks_for_nothing_more() {
    let mut session = ScanSession::new();
    assert_eq!(session.step(b"%c"), ScanAction::Read { len: 1 });
    assert_eq!(session.on_read(b"x", false, Errno::SUCCESS), None);
    assert_eq!(session.step(b"%c"), ScanAction::Read { len: 0 });
}

#[test]
fn scan_session_failed_read_reports_errors_and_partial_matches() {
    let mut session = ScanSession::new();
    session.total_matched = 2;
    assert_eq!(
        session.on_read(b"", true, Errno::SUCCESS),
        Some(ScanAction::Finish { result: 2, errno: None })
    );
    assert_eq!(
        session.on_read(b"", true, Errno::EINTR),
        Some(ScanAction::Finish { result: SCAN_EOF, errno: None })
    );
    session.requested = 4;
    assert_eq!(session.on_read(b"12", true, Errno::SUCCESS), None);
    assert_eq!(session.buf, b"12".to_vec());
}
