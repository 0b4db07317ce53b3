use test_ssh::listing::{
    link_probe, list_dir_command, listing_is_parsable, parse_listing, probe_failed,
};
use test_ssh::text::split_chars;
use test_ssh::FsEntryType;

const SAMPLE: &str = "drwxr-xr-x|||www|||www|||4096|||1700000000.0|||/srv/site|||site|||\n\
-rw-r--r--|||www|||www|||12|||1700000001.0|||/srv/site/index.html|||index.html|||\n\
drwxr-xr-x|||www|||www|||4096|||1700000002.0|||/srv/site/img|||img|||\n\
lrwxrwxrwx|||www|||www|||9|||1700000003.0|||/srv/site/current|||current|||/srv/v2\n";

#[test]
fn listing_skips_first_line_and_reads_entries() {
    assert!(listing_is_parsable(SAMPLE));
    let entries = parse_listing(SAMPLE);
    assert_eq!(entries.len(), 3);
    assert_eq!(entries[0].entry.path, "/srv/site/index.html");
    assert_eq!(entries[0].entry.file_type, FsEntryType::File);
    assert!(!entries[0].entry.is_link);
    assert!(entries[0].link_probe.is_none());
    assert_eq!(entries[1].entry.path, "/srv/site/img");
    assert_eq!(entries[1].entry.file_type, FsEntryType::Directory);
    assert!(!entries[1].entry.is_link);
}

#[test]
fn listing_reports_links_as_files_and_probes_them() {
    let entries = parse_listing(SAMPLE);
    let link = &entries[2];
    assert_eq!(link.entry.path, "/srv/site/current");
    assert_eq!(link.entry.file_type, FsEntryType::File);
    assert!(link.entry.is_link);
    assert_eq!(
        link.link_probe.as_deref(),
        Some("unset LANG; find -L \"$(readlink -f /srv/site/current)\" -printf '%y'")
    );
}

#[test]
fn listing_without_target_column_is_not_probed() {
    let out = "root\nl|||a|||b|||c|||d|||/x/link\n";
    let entries = parse_listing(out);
    assert_eq!(entries.len(), 1);
    assert!(entries[0].entry.is_link);
    assert!(entries[0].link_probe.is_none());
}

#[test]
fn listing_ignores_short_lines() {
    let out = "first|||line\nonly|||five|||columns|||here|||x\n\n";
    assert!(parse_listing(out).is_empty());
    assert!(parse_listing("").is_empty());
    assert!(parse_listing("just one line").is_empty());
}

#[test]
fn listing_with_empty_mode_cannot_be_read() {
    let out = "root\n|||u|||g|||1|||2|||/p|||p|||\n";
    assert!(!listing_is_parsable(out));
    let out = "root\néx|||u|||g|||1|||2|||/p|||p|||\n";
    assert!(!listing_is_parsable(out));
    // the first line is never read
    assert!(listing_is_parsable("|||u|||g|||1|||2|||/p|||p|||\n"));
}

#[test]
fn list_command_text() {
    assert_eq!(
        list_dir_command("/var/www/html/portalPmro"),
        "unset LANG; find \"$(cd '/var/www/html/portalPmro'; pwd)\" -printf '%M|||%u|||%g|||%s|||%Ts|||%p|||%f|||%l\n'"
    );
}

#[test]
fn link_probe_text() {
    assert_eq!(link_probe("/a b"), "unset LANG; find -L \"$(readlink -f /a b)\" -printf '%y'");
}

#[test]
fn probe_failure_is_detected() {
    assert!(probe_failed("find: '/x': No such file or directory"));
    assert!(probe_failed("warning\nfind: loop"));
    assert!(!probe_failed("d"));
    assert!(!probe_failed("fin d:"));
    assert!(!probe_failed(""));
}

fn chars(s: &str) -> Vec<char> {
    s.chars().collect()
}

fn pieces(s: &str, sep: &str) -> Vec<String> {
    split_chars(&chars(s), &chars(sep)).into_iter().map(|p| p.into_iter().collect()).collect()
}

#[test]
fn split_matches_str_split() {
    for (s, sep) in [
        ("a|||b|||c", "|||"),
        ("||||x", "|||"),
        ("a\nb\n", "\n"),
        ("", "\n"),
        ("no separator", "|||"),
        ("|||", "|||"),
    ] {
        let expected: Vec<String> = s.split(sep).map(|p| p.to_string()).collect();
        assert_eq!(pieces(s, sep), expected);
    }
}
