use outpack::git::get_branch_name;
use outpack::location::{location_entry_path, mark_packet_known, LocationEntry};
use outpack::responses::ErrorKind;
use outpack::utils::{is_packet_str, trim, write_idempotent_outcome};

#[test]
fn can_detect_packet_id() {
    assert!(!is_packet_str("1234"));
    assert!(is_packet_str("20170818-164830-33e0ab01"));
    assert!(is_packet_str("20180818-164847-54699abf"));
    assert!(!is_packet_str("20180818-16484a-54699abf"));
    assert!(!is_packet_str("20180818-164847-54699ab"));
    assert!(!is_packet_str("20180818-164847-54699abf0"));
}

#[test]
fn trim_removes_surrounding_whitespace() {
    assert_eq!(trim("  hello \n"), "hello");
    assert_eq!(trim("hello"), "hello");
    assert_eq!(trim(" \t "), "");
    assert_eq!(trim(""), "");
    assert_eq!(trim("a b"), "a b");
}

#[test]
fn can_build_location_entry_path() {
    let p = location_entry_path("root", "local", "20170818-164830-33e0ab01");
    assert_eq!(p, "root/.outpack/location/local/20170818-164830-33e0ab01");
}

#[test]
fn mark_packet_known_writes_fresh_entries() {
    let w = mark_packet_known("root", "20170818-164830-33e0ab01", "local", "sha256:ab12", 17, None)
        .unwrap();
    let (path, entry) = w.unwrap();
    assert_eq!(path, "root/.outpack/location/local/20170818-164830-33e0ab01");
    assert_eq!(entry.packet, "20170818-164830-33e0ab01");
    assert_eq!(entry.hash, "sha256:ab12");
    assert_eq!(entry.time, 17);
}

#[test]
fn mark_packet_known_is_idempotent() {
    let existing = LocationEntry {
        packet: "20170818-164830-33e0ab01".to_string(),
        time: 3,
        hash: "sha256:ab12".to_string(),
    };
    let w = mark_packet_known(
        "root",
        "20170818-164830-33e0ab01",
        "local",
        "sha256:ab12",
        17,
        Some(&existing),
    )
    .unwrap();
    assert!(w.is_none());
}

#[test]
fn mark_packet_known_rejects_conflicting_entries() {
    let existing = LocationEntry {
        packet: "20170818-164830-33e0ab01".to_string(),
        time: 3,
        hash: "sha256:other".to_string(),
    };
    let err = mark_packet_known(
        "root",
        "20170818-164830-33e0ab01",
        "local",
        "sha256:ab12",
        17,
        Some(&existing),
    )
    .unwrap_err();
    assert_eq!(err.kind, Some(ErrorKind::AlreadyExists));
}

#[test]
fn write_file_idempotent_writes_when_absent() {
    let r = write_idempotent_outcome(None, b"Hello").unwrap();
    assert!(r);
}

#[test]
fn write_file_idempotent_succeeds_if_content_is_identical() {
    let existing = b"Hello".to_vec();
    let r = write_idempotent_outcome(Some(&existing), b"Hello").unwrap();
    assert!(!r);
}

#[test]
fn write_file_idempotent_fails_if_content_is_different() {
    let existing = b"Hello".to_vec();
    let err = write_idempotent_outcome(Some(&existing), b"World").unwrap_err();
    assert_eq!(err.kind, Some(ErrorKind::AlreadyExists));
}

#[test]
fn branch_names_lose_the_remote_prefix() {
    assert_eq!(get_branch_name("refs/remotes/origin/main"), "main");
    assert_eq!(get_branch_name("main"), "main");
    assert_eq!(get_branch_name("refs/heads/main"), "refs/heads/main");
}
