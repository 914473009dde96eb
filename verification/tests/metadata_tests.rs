use md5::Md5;
use outpack::hash::{hash_data, HashAlgorithm};
use outpack::location::LocationEntry;
use outpack::metadata::{
    add_metadata, add_packet, check_missing_dependencies, check_missing_files, get_ids_digest,
    get_metadata_file, get_missing_ids, get_path, get_sorted_id_string, get_valid_id, Packet,
    PacketDependency, PacketFile, PacketTime,
};
use outpack::responses::ErrorKind;
use sha2::{Digest, Sha256};

fn example_ids() -> Vec<String> {
    vec![
        "20170818-164830-33e0ab01".to_string(),
        "20170818-164847-7574883b".to_string(),
        "20180220-095832-16a4bbed".to_string(),
        "20180818-164043-7cdcde4b".to_string(),
    ]
}

fn simple_packet(id: &str, files: Vec<PacketFile>, depends: Vec<PacketDependency>) -> Packet {
    Packet {
        id: id.to_string(),
        name: "data".to_string(),
        files,
        depends,
        time: PacketTime { start: 1682608108413, end: 1682608108430 },
    }
}

#[test]
fn ids_are_sorted() {
    let ids = vec![
        String::from("20180818-164847-7574883b"),
        String::from("20170818-164847-7574883b"),
        String::from("20170819-164847-7574883b"),
        String::from("20170819-164847-7574883a"),
    ];
    let id_string = get_sorted_id_string(ids);
    assert_eq!(
        id_string,
        "20170818-164847-7574883b20170819-164847-7574883a\
        20170819-164847-7574883b20180818-164847-7574883b"
    )
}

#[test]
fn metadata_can_get_missing_ids() {
    let known = example_ids();
    let ids = get_missing_ids(
        &vec![
            "20180818-164043-7cdcde4b".to_string(),
            "20170818-164830-33e0ab02".to_string(),
        ],
        &known,
    )
    .unwrap();
    assert_eq!(ids.len(), 1);
    assert!(ids.iter().any(|e| e == "20170818-164830-33e0ab02"));

    // check whitespace insensitivity
    let ids = get_missing_ids(
        &vec![
            " 20180818-164043-7cdcde4b ".to_string(),
            "20170818-164830-33e0ab02".to_string(),
        ],
        &known,
    )
    .unwrap();
    assert_eq!(ids.len(), 1);
    assert!(ids.iter().any(|e| e == "20170818-164830-33e0ab02"));
}

#[test]
fn metadata_can_get_missing_unpacked_ids() {
    let unpacked = vec!["20170818-164847-7574883b".to_string()];
    let ids = get_missing_ids(
        &vec![
            "20170818-164847-7574883b".to_string(),
            "20170818-164830-33e0ab02".to_string(),
        ],
        &unpacked,
    )
    .unwrap();
    assert_eq!(ids.len(), 1);
    assert!(ids.iter().any(|e| e == "20170818-164830-33e0ab02"));
}

#[test]
fn bad_ids_raise_error() {
    let res = get_missing_ids(
        &vec![
            "20180818-164043-7cdcde4b".to_string(),
            "20170818-164830-33e0ab0".to_string(),
        ],
        &example_ids(),
    );
    let err = res.unwrap_err();
    assert_eq!(err.kind, Some(ErrorKind::InvalidInput));
    assert_eq!(err.detail, "Invalid packet id '20170818-164830-33e0ab0'");
}

#[test]
fn missing_ids_are_deduplicated() {
    let ids = get_missing_ids(
        &vec![
            "20170818-164830-33e0ab02".to_string(),
            " 20170818-164830-33e0ab02".to_string(),
        ],
        &example_ids(),
    )
    .unwrap();
    assert_eq!(ids, vec!["20170818-164830-33e0ab02".to_string()]);
}

#[test]
fn can_get_ids_digest_with_config_alg() {
    let digest = get_ids_digest(example_ids(), None, HashAlgorithm::Sha256).unwrap();
    let dat = "20170818-164830-33e0ab0120170818-164847-7574883b20180220-095832-16a4bbed\
        20180818-164043-7cdcde4b";
    let expected = format!("sha256:{:x}", Sha256::digest(dat));
    assert_eq!(digest, expected);
}

#[test]
fn can_get_ids_digest_with_given_alg() {
    let alg = String::from("md5");
    let digest = get_ids_digest(example_ids(), Some(&alg), HashAlgorithm::Sha256).unwrap();
    let dat = "20170818-164830-33e0ab0120170818-164847-7574883b20180220-095832-16a4bbed\
        20180818-164043-7cdcde4b";
    let expected = format!("md5:{:x}", Md5::digest(dat));
    assert_eq!(digest, expected);
}

#[test]
fn ids_digest_ignores_order() {
    let mut ids = example_ids();
    ids.reverse();
    let a = get_ids_digest(ids, None, HashAlgorithm::Sha256).unwrap();
    let b = get_ids_digest(example_ids(), None, HashAlgorithm::Sha256).unwrap();
    assert_eq!(a, b);
}

#[test]
fn ids_digest_rejects_unknown_algorithm() {
    let alg = String::from("sha512");
    let err = get_ids_digest(example_ids(), Some(&alg), HashAlgorithm::Sha256).unwrap_err();
    assert_eq!(err.kind, Some(ErrorKind::InvalidInput));
    assert_eq!(err.detail, "Invalid hash algorithm 'sha512'");
}

#[test]
fn can_get_metadata_path() {
    let p = get_path("root", "20170818-164830-33e0ab01");
    assert_eq!(p, "root/.outpack/metadata/20170818-164830-33e0ab01");
}

#[test]
fn missing_metadata_is_not_found() {
    let err = get_metadata_file("root", "bad-id", false).unwrap_err();
    assert_eq!(err.kind, Some(ErrorKind::NotFound));
    assert_eq!(err.detail, "packet with id 'bad-id' does not exist");
}

#[test]
fn can_validate_ids() {
    let ok = get_valid_id(&" 20170818-164830-33e0ab01\n".to_string()).unwrap();
    assert_eq!(ok, "20170818-164830-33e0ab01");
    let err = get_valid_id(&"20170818-164830-33e0ab0".to_string()).unwrap_err();
    assert_eq!(err.kind, Some(ErrorKind::InvalidInput));
    assert_eq!(err.detail, "Invalid packet id '20170818-164830-33e0ab0'");
}

#[test]
fn cannot_add_packet_with_missing_files() {
    let file_hash = "sha256:c7b512b2d14a7caae8968830760cb95980a98e18ca2c2991b87c71529e223164";
    let packet = simple_packet(
        "20230427-150828-68772cee",
        vec![PacketFile {
            path: "data.csv".to_string(),
            hash: file_hash.to_string(),
            size: 51,
        }],
        vec![],
    );
    let present = vec![false];
    let err = check_missing_files(&packet, &present).unwrap_err();
    assert_eq!(err.kind, Some(ErrorKind::InvalidInput));
    assert_eq!(
        err.detail,
        format!(
            "Can't import metadata for 20230427-150828-68772cee, as files missing: \n {}",
            file_hash
        )
    );
}

#[test]
fn cannot_add_packet_with_missing_dependencies() {
    let packet = simple_packet(
        "20230427-150828-68772cee",
        vec![],
        vec![PacketDependency {
            packet: "20170818-164847-7574883b".to_string(),
            files: vec![],
        }],
    );
    let known: Vec<String> = vec![];
    let err = check_missing_dependencies(&packet, &known).unwrap_err();
    assert_eq!(err.kind, Some(ErrorKind::InvalidInput));
    assert_eq!(
        err.detail,
        "Can't import metadata for 20230427-150828-68772cee, as dependencies missing: \n \
        20170818-164847-7574883b"
    );
}

#[test]
fn can_add_packet() {
    let data = "{\"name\": \"data\", \"id\": \"20230427-150828-68772cee\"}";
    let hash = hash_data(data.as_bytes(), HashAlgorithm::Sha256);
    let hash_str = hash.to_string();
    let packet = simple_packet("20230427-150828-68772cee", vec![], vec![]);
    let known: Vec<String> = vec![];
    let plan = add_packet(
        "root", data, &packet, &hash_str, &vec![], &known, None, None, 1682608108413,
    )
    .unwrap();
    assert_eq!(
        plan.metadata_path.unwrap(),
        "root/.outpack/metadata/20230427-150828-68772cee"
    );
    let (path, entry) = plan.location_write.unwrap();
    assert_eq!(path, "root/.outpack/location/local/20230427-150828-68772cee");
    assert_eq!(entry.packet, "20230427-150828-68772cee");
    assert_eq!(entry.hash, hash_str);
    assert_eq!(entry.time, 1682608108413);
}

#[test]
fn add_packet_is_idempotent() {
    let data = "{\"name\": \"data\", \"id\": \"20230427-150828-68772cee\"}";
    let hash = hash_data(data.as_bytes(), HashAlgorithm::Sha256);
    let hash_str = hash.to_string();
    let packet = simple_packet("20230427-150828-68772cee", vec![], vec![]);
    let known: Vec<String> = vec![];
    let stored = data.as_bytes().to_vec();
    let entry = LocationEntry {
        packet: "20230427-150828-68772cee".to_string(),
        time: 1682608108000,
        hash: hash_str.clone(),
    };
    let plan = add_packet(
        "root",
        data,
        &packet,
        &hash_str,
        &vec![],
        &known,
        Some(&stored),
        Some(&entry),
        1682608109000,
    )
    .unwrap();
    assert!(plan.metadata_path.is_none());
    assert!(plan.location_write.is_none());
}

#[test]
fn add_packet_rejects_conflicting_document() {
    let data = "{\"name\": \"data\", \"id\": \"20230427-150828-68772cee\"}";
    let hash = hash_data(data.as_bytes(), HashAlgorithm::Sha256);
    let hash_str = hash.to_string();
    let packet = simple_packet("20230427-150828-68772cee", vec![], vec![]);
    let known: Vec<String> = vec![];
    let stored = b"{\"name\": \"other\"}".to_vec();
    let err = add_packet(
        "root", data, &packet, &hash_str, &vec![], &known, Some(&stored), None, 0,
    )
    .unwrap_err();
    assert_eq!(err.kind, Some(ErrorKind::AlreadyExists));
}

#[test]
fn add_packet_rejects_hash_mismatch() {
    let data = "{\"name\": \"data\", \"id\": \"20230427-150828-68772cee\"}";
    let wrong = format!("sha256:{:x}", Sha256::digest(b"something else"));
    let packet = simple_packet("20230427-150828-68772cee", vec![], vec![]);
    let known: Vec<String> = vec![];
    let err = add_packet("root", data, &packet, &wrong, &vec![], &known, None, None, 0)
        .unwrap_err();
    assert_eq!(err.kind, Some(ErrorKind::InvalidInput));
    let found = format!("sha256:{:x}", Sha256::digest(data.as_bytes()));
    assert_eq!(
        err.detail,
        format!("Expected hash '{}' but found '{}'", wrong, found)
    );
}

#[test]
fn can_add_metadata_with_missing_files() {
    // The bulk-sync entry does not require the declared files to be present.
    let file_hash = "sha256:c7b512b2d14a7caae8968830760cb95980a98e18ca2c2991b87c71529e223164";
    let data = "{\"name\": \"data\", \"id\": \"20230427-150828-68772cee\"}";
    let hash = hash_data(data.as_bytes(), HashAlgorithm::Sha256);
    let packet = simple_packet(
        "20230427-150828-68772cee",
        vec![PacketFile {
            path: "data.csv".to_string(),
            hash: file_hash.to_string(),
            size: 51,
        }],
        vec![],
    );
    let path = add_metadata("root", data, &packet, &hash.to_string(), None)
        .unwrap()
        .unwrap();
    assert_eq!(path, "root/.outpack/metadata/20230427-150828-68772cee");
}

#[test]
fn imported_metadata_is_added_to_local_location() {
    let data = "{\"name\": \"data\", \"id\": \"20230427-150828-68772cee\"}";
    let hash = hash_data(data.as_bytes(), HashAlgorithm::Sha256);
    let hash_str = hash.to_string();
    let packet = simple_packet("20230427-150828-68772cee", vec![], vec![]);
    let known: Vec<String> = vec![];
    let now: u64 = 1688033668123;
    let plan = add_packet("root", data, &packet, &hash_str, &vec![], &known, None, None, now)
        .unwrap();
    let (_, entry) = plan.location_write.unwrap();
    assert_eq!(entry.packet, "20230427-150828-68772cee");
    assert_eq!(entry.hash, hash_str);
    assert!(entry.time >= now);
}
