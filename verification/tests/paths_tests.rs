use test_ssh::paths::local_target;

#[test]
fn entry_lands_below_local_root() {
    assert_eq!(
        local_target("/var/www/html/portalPmro/img/logo.png", "/var/www/html/portalPmro", "/tmp/download"),
        Some("/tmp/download/img/logo.png".to_string())
    );
    assert_eq!(
        local_target("/var/www/html/portalPmro", "/var/www/html/portalPmro", "/tmp/download"),
        Some("/tmp/download/".to_string())
    );
}

#[test]
fn entry_outside_root_has_no_target() {
    assert_eq!(local_target("/var/www/other/a", "/var/www/html", "/tmp/d"), None);
    assert_eq!(local_target("/var/www/htmlx/a", "/var/www/html", "/tmp/d"), None);
}

use test_ssh::scp::{file_destination, next_local_dir, ScpRequest};

#[test]
fn local_dir_follows_the_session() {
    let d = next_local_dir("/tmp/download", ScpRequest::NewDir, Some(b"portalPmro")).unwrap();
    assert_eq!(d, "/tmp/download/portalPmro");
    let d2 = next_local_dir(&d, ScpRequest::NewDir, Some(&[b'i', b'm', b'g', 0xff])).unwrap();
    assert_eq!(d2, "/tmp/download/portalPmro/img\u{FFFD}");
    assert_eq!(next_local_dir(&d2, ScpRequest::EndDir, None).unwrap(), d);
    assert_eq!(next_local_dir(&d, ScpRequest::NewFile, Some(b"a.txt")).unwrap(), d);
    assert_eq!(next_local_dir(&d, ScpRequest::Warning, None).unwrap(), d);
    assert_eq!(next_local_dir(&d, ScpRequest::Eof, None).unwrap(), d);
    assert_eq!(next_local_dir("/", ScpRequest::EndDir, None), None);
}

#[test]
fn files_land_in_the_current_dir() {
    assert_eq!(file_destination("/tmp/download/img", b"logo.png"), "/tmp/download/img/logo.png");
}
