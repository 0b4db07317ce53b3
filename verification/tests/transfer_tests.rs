use test_ssh::scp::{recursive_action, single_file_action, RecursiveAction, ScpRequest, SingleFileAction};
use test_ssh::text::{channel_text, output_text};
use test_ssh::transfer::{append_chunk, FileReceive, ReadOutcome};
use test_ssh::BUFFER_SIZE;

#[test]
fn chunks_are_cut_to_the_file_end() {
    let mut t = FileReceive::new(600_000);
    assert_eq!(t.next_read(), Some(BUFFER_SIZE));
    assert_eq!(t.record(262_144), ReadOutcome::Data(262_144));
    assert_eq!(t.next_read(), Some(262_144));
    assert_eq!(t.record(100_000), ReadOutcome::Data(100_000));
    assert_eq!(t.received_bytes(), 362_144);
    assert_eq!(t.next_read(), Some(237_856));
    assert_eq!(t.record(0), ReadOutcome::Empty);
    assert_eq!(t.next_read(), Some(237_856));
    assert_eq!(t.record(237_856), ReadOutcome::Data(237_856));
    assert_eq!(t.received_bytes(), 600_000);
    assert_eq!(t.next_read(), None);
}

#[test]
fn a_failed_read_ends_the_transfer() {
    let mut t = FileReceive::new(10);
    assert_eq!(t.next_read(), Some(10));
    assert_eq!(t.record(-37), ReadOutcome::Failed);
    assert_eq!(t.received_bytes(), 0);
}

#[test]
fn empty_file_needs_no_read() {
    let mut t = FileReceive::new(0);
    assert_eq!(t.next_read(), None);
}

#[test]
fn chunks_are_appended() {
    let mut out = b"ab".to_vec();
    assert!(append_chunk(&mut out, b"cdef", 3));
    assert_eq!(out, b"abcde".to_vec());
    assert!(!append_chunk(&mut out, b"zz", 0));
    assert_eq!(out, b"abcde".to_vec());
}

#[test]
fn single_file_requests() {
    assert_eq!(single_file_action(ScpRequest::NewFile), SingleFileAction::Receive);
    assert_eq!(single_file_action(ScpRequest::Warning), SingleFileAction::DenyAndStop);
    assert_eq!(single_file_action(ScpRequest::NewDir), SingleFileAction::Deny);
    assert_eq!(single_file_action(ScpRequest::EndDir), SingleFileAction::Deny);
    assert_eq!(single_file_action(ScpRequest::Eof), SingleFileAction::Deny);
}

#[test]
fn recursive_requests() {
    match recursive_action(ScpRequest::NewFile, Some(b"index.html")) {
        RecursiveAction::CreateFile(n) => assert_eq!(n, "index.html"),
        _ => panic!("expected a file"),
    }
    match recursive_action(ScpRequest::NewDir, Some(&[b'i', b'm', 0xff])) {
        RecursiveAction::EnterDir(n) => assert_eq!(n, "im\u{FFFD}"),
        _ => panic!("expected a directory"),
    }
    assert!(matches!(recursive_action(ScpRequest::EndDir, None), RecursiveAction::LeaveDir));
    assert!(matches!(recursive_action(ScpRequest::Eof, None), RecursiveAction::Finish));
    assert!(matches!(recursive_action(ScpRequest::Warning, None), RecursiveAction::Ignore));
}

#[test]
fn output_is_read_lossily() {
    assert_eq!(output_text(b"Linux host 5.15\n"), "Linux host 5.15\n");
    assert_eq!(output_text(&[0x66, 0xff, 0x67]), "f\u{FFFD}g");
}

#[test]
fn channel_text_needs_utf8() {
    assert_eq!(channel_text(b"uname"), Some("uname".to_string()));
    assert_eq!(channel_text(&[0xc3]), None);
}
