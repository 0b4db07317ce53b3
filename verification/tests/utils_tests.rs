use std::borrow::Cow;

use test_ssh::utils::{check, last_session_error, make_error_message, path2bytes};
use test_ssh::{Error, ErrorCode};

#[test]
fn error_new_keeps_code_and_message() {
    let e = Error::new(ErrorCode::SFTP(2), "no such file");
    assert_eq!(e.code(), ErrorCode::SFTP(2));
    assert_eq!(e.message(), "no such file");
}

#[test]
fn check_accepts_bytes_without_zero() {
    let b: &[u8] = b"/var/www/html";
    match check(Cow::Borrowed(b)) {
        Ok(Cow::Borrowed(out)) => assert_eq!(out, b),
        _ => panic!("expected the borrowed bytes back"),
    }
    let owned = check(Cow::Owned(b"abc".to_vec())).unwrap();
    assert_eq!(&*owned, b"abc");
}

#[test]
fn check_refuses_zero_byte() {
    let e = check(Cow::Borrowed(&b"a\0b"[..])).unwrap_err();
    assert_eq!(e.code(), ErrorCode::Session(-34));
    assert_eq!(e.message(), "path provided contains a 0 byte");
}

#[test]
fn path2bytes_normalizes_backslashes() {
    match path2bytes(Some("C:\\MyRustProjects\\test_ssh\\download")).unwrap() {
        Cow::Owned(v) => assert_eq!(v, b"C:/MyRustProjects/test_ssh/download".to_vec()),
        Cow::Borrowed(_) => panic!("backslashes must be replaced in a copy"),
    }
}

#[test]
fn path2bytes_borrows_unix_paths() {
    match path2bytes(Some("/var/www/html/portalPmro")).unwrap() {
        Cow::Borrowed(b) => assert_eq!(b, b"/var/www/html/portalPmro"),
        Cow::Owned(_) => panic!("nothing to replace"),
    }
}

#[test]
fn path2bytes_keeps_non_ascii_text() {
    let out = path2bytes(Some("ação\\x")).unwrap();
    assert_eq!(&*out, "ação/x".as_bytes());
}

#[test]
fn path2bytes_refuses_zero_byte() {
    let e = path2bytes(Some("a\\b\0c")).unwrap_err();
    assert_eq!(e.code(), ErrorCode::Session(-34));
    assert_eq!(e.message(), "path provided contains a 0 byte");
}

#[test]
fn path2bytes_refuses_non_unicode_path() {
    let e = path2bytes(None).unwrap_err();
    assert_eq!(e.code(), ErrorCode::Session(-34));
    assert_eq!(e.message(), "only unicode paths on windows may be used");
}

#[test]
fn error_message_is_decoded() {
    let m = make_error_message(Some("Authentication failed é".as_bytes()));
    assert!(matches!(m, Cow::Owned(_)));
    assert_eq!(&*m, "Authentication failed é");
}

#[test]
fn error_message_falls_back() {
    assert_eq!(&*make_error_message(None), "<failed to fetch the error message>");
    let m = make_error_message(Some(&[0x66, 0xff, 0x66]));
    assert!(matches!(m, Cow::Borrowed(_)));
    assert_eq!(&*m, "<failed to fetch the error message>");
}

#[test]
fn session_error_is_absent_on_zero() {
    assert_eq!(last_session_error(0, Some(b"ignored")), None);
}

#[test]
fn session_error_carries_code_and_text() {
    assert_eq!(
        last_session_error(-18, Some(b"Authentication failed (username/password)")),
        Some((-18, "Authentication failed (username/password)".to_string()))
    );
    assert_eq!(
        last_session_error(-9, None),
        Some((-9, "<failed to fetch the error message>".to_string()))
    );
}
