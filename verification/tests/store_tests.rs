use outpack::hash::{hash_data, HashAlgorithm};
use outpack::responses::ErrorKind;
use outpack::store::{file_path, get_missing_files, put_file};
use sha2::{Digest, Sha256};

#[test]
fn can_get_path() {
    let hash = "sha256:e9aa9f2212ab";
    let res = file_path("root", hash).unwrap();
    assert_eq!(res, "root/.outpack/files/sha256/e9/aa9f2212ab");
}

#[test]
fn path_propagates_error_on_invalid_hash() {
    let hash = "sha256";
    let res = file_path("root", hash);
    assert!(res.is_err());
    assert_eq!(res.unwrap_err().detail, "Invalid hash format 'sha256'");
}

#[test]
fn path_rejects_hex_shorter_than_the_split() {
    let res = file_path("root", "sha256:a");
    assert_eq!(res.unwrap_err().detail, "Invalid hash format 'sha256:a'");
}

#[test]
fn distinct_hashes_get_distinct_paths() {
    let a = file_path("root", "sha256:e9aa9f2212ab").unwrap();
    let b = file_path("root", "sha256:e9aa9f2212ac").unwrap();
    let c = file_path("root", "md5:e9aa9f2212ab").unwrap();
    assert_ne!(a, b);
    assert_ne!(a, c);
    assert_ne!(b, c);
}

#[test]
fn put_file_is_idempotent() {
    let data = b"Testing 123.";
    let hash = hash_data(data, HashAlgorithm::Sha256);
    let hash_str = hash.to_string();

    let res = put_file("root", data, &hash_str, false);
    let expected = file_path("root", &hash_str).unwrap();
    assert_eq!(res.unwrap(), Some(expected));

    let res = put_file("root", data, &hash_str, true);
    assert_eq!(res.unwrap(), None);
}

#[test]
fn put_file_validates_hash_format() {
    let data = b"Testing 123.";
    let res = put_file("root", data, "badhash", false);
    assert_eq!(res.unwrap_err().detail, "Invalid hash format 'badhash'");
}

#[test]
fn put_file_validates_hash_match() {
    let data = b"Testing 123.";
    let res = put_file("root", data, "md5:abcde", false);
    assert_eq!(
        res.unwrap_err().detail,
        "Expected hash 'md5:abcde' but found 'md5:6df8571d7b178e6fbb982ad0f5cd3bc1'"
    );
}

#[test]
fn put_file_rejects_without_a_destination() {
    // A rejected insertion names no destination, so nothing is ever renamed
    // into the store: the store is unchanged by a failed upload.
    let data = b"test";
    let wrong = format!("sha256:{:x}", Sha256::digest(b"other"));
    let res = put_file("root", data, &wrong, false);
    assert!(res.is_err());
    assert_eq!(res.unwrap_err().kind, Some(ErrorKind::InvalidInput));
}

#[test]
fn can_get_missing_files() {
    let wanted = vec![
        "sha256:aa11".to_string(),
        "sha256:bb22".to_string(),
        "sha256:cc33".to_string(),
    ];
    let present = vec![true, false, false];
    let missing = get_missing_files(&wanted, &present).unwrap();
    assert_eq!(missing, vec!["sha256:bb22".to_string(), "sha256:cc33".to_string()]);
}

#[test]
fn get_missing_files_propagates_parse_errors() {
    let wanted = vec!["sha256:aa11".to_string(), "badhash".to_string()];
    let present = vec![false, false];
    let err = get_missing_files(&wanted, &present).unwrap_err();
    assert_eq!(err.kind, Some(ErrorKind::InvalidInput));
    assert_eq!(err.detail, "Invalid hash format 'badhash'");
}
