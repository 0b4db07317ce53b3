use test_ssh::display::decimal_string;
use test_ssh::{ErrorCode, FsEntry, FsEntryType};

#[test]
fn error_code_text() {
    assert_eq!(ErrorCode::Session(-34).to_string(), "Session(-34)");
    assert_eq!(ErrorCode::SFTP(2).to_string(), "SFTP(2)");
    assert_eq!(ErrorCode::Session(0).to_string(), "Session(0)");
    assert_eq!(ErrorCode::SFTP(i32::MIN).to_string(), format!("{:?}", ErrorCode::SFTP(i32::MIN)));
}

#[test]
fn decimal_text_matches_format() {
    for n in [0, 7, 10, 99, 100, -1, -10, 123456789, i32::MAX, i32::MIN] {
        assert_eq!(decimal_string(n), n.to_string());
    }
}

#[test]
fn entry_text() {
    let e = FsEntry { path: "/srv/a.txt".to_string(), file_type: FsEntryType::File, is_link: false };
    assert_eq!(e.to_string(), "(/srv/a.txt, File, false)");
    let d = FsEntry { path: "/srv/lib".to_string(), file_type: FsEntryType::Directory, is_link: true };
    assert_eq!(d.to_string(), "(/srv/lib, Directory, true)");
}
