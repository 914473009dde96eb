use md5::Md5;
use outpack::hash::{algorithm_from_str, hash_data, parse_hash, validate_hash_data, HashAlgorithm};
use sha2::{Digest, Sha256};

#[test]
fn can_parse_and_format_hash() {
    let h = parse_hash("sha256:e9aa9f2212ab").unwrap();
    assert_eq!(h.algorithm, HashAlgorithm::Sha256);
    assert_eq!(h.value, "e9aa9f2212ab");
    assert_eq!(h.to_string(), "sha256:e9aa9f2212ab");
}

#[test]
fn parse_is_case_insensitive_and_renders_lowercase() {
    let h = parse_hash("SHA256:ABCDEF12").unwrap();
    assert_eq!(h.algorithm, HashAlgorithm::Sha256);
    assert_eq!(h.to_string(), "sha256:abcdef12");

    let h = parse_hash("Md5:098F6bcd4621d373cade4e832627b4f6").unwrap();
    assert_eq!(h.algorithm, HashAlgorithm::Md5);
    assert_eq!(h.to_string(), "md5:098f6bcd4621d373cade4e832627b4f6");
}

#[test]
fn parse_rejects_missing_separator() {
    let e = parse_hash("sha256").unwrap_err();
    assert_eq!(e.explanation, "Invalid hash format 'sha256'");
    let e = parse_hash("badhash").unwrap_err();
    assert_eq!(e.explanation, "Invalid hash format 'badhash'");
}

#[test]
fn parse_rejects_bad_hex_and_empty_parts() {
    let e = parse_hash("sha256:xyz").unwrap_err();
    assert_eq!(e.explanation, "Invalid hash format 'sha256:xyz'");
    let e = parse_hash("sha256:").unwrap_err();
    assert_eq!(e.explanation, "Invalid hash format 'sha256:'");
    let e = parse_hash(":abcd").unwrap_err();
    assert_eq!(e.explanation, "Invalid hash format ':abcd'");
}

#[test]
fn parse_rejects_unknown_algorithm() {
    let e = parse_hash("sha512:abcd").unwrap_err();
    assert_eq!(e.explanation, "Invalid hash algorithm 'sha512'");
}

#[test]
fn algorithm_from_str_accepts_known_names() {
    assert_eq!(algorithm_from_str("md5").unwrap(), HashAlgorithm::Md5);
    assert_eq!(algorithm_from_str("sha1").unwrap(), HashAlgorithm::Sha1);
    assert_eq!(algorithm_from_str("SHA256").unwrap(), HashAlgorithm::Sha256);
    let e = algorithm_from_str("sha512").unwrap_err();
    assert_eq!(e.explanation, "Invalid hash algorithm 'sha512'");
}

#[test]
fn hash_data_matches_reference_digests() {
    let h = hash_data(b"test", HashAlgorithm::Sha256);
    let expected = format!("sha256:{:x}", Sha256::digest(b"test"));
    assert_eq!(h.to_string(), expected);

    let h = hash_data(b"test", HashAlgorithm::Md5);
    assert_eq!(h.to_string(), "md5:098f6bcd4621d373cade4e832627b4f6");

    let h = hash_data(b"Testing 123.", HashAlgorithm::Md5);
    let expected = format!("md5:{:x}", Md5::digest(b"Testing 123."));
    assert_eq!(h.to_string(), expected);
}

#[test]
fn validate_hash_data_accepts_matching_digest() {
    let h = hash_data(b"test", HashAlgorithm::Sha256);
    assert!(validate_hash_data(b"test", &h.to_string()).is_ok());
}

#[test]
fn validate_hash_data_reports_both_sides_on_mismatch() {
    let e = validate_hash_data(b"test", "md5:bad4a54").unwrap_err();
    assert_eq!(
        e.explanation,
        "Expected hash 'md5:bad4a54' but found 'md5:098f6bcd4621d373cade4e832627b4f6'"
    );
}

#[test]
fn validate_hash_data_propagates_format_errors() {
    let e = validate_hash_data(b"test", "badhash").unwrap_err();
    assert_eq!(e.explanation, "Invalid hash format 'badhash'");
}
