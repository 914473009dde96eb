use outpack::api::{check_config, index, internal_error, not_found, preflight};
use outpack::config::{Config, Core, Location};
use outpack::hash::HashAlgorithm;
use outpack::responses::{fail_response, status_code, success_response, ErrorKind};

fn make_config(
    hash_algorithm: HashAlgorithm,
    path_archive: Option<String>,
    use_file_store: bool,
    require_complete_tree: bool,
) -> Config {
    let location: Vec<Location> = Vec::new();
    let core = Core {
        hash_algorithm,
        path_archive,
        use_file_store,
        require_complete_tree,
    };
    Config { location, core }
}

#[test]
fn can_validate_config() {
    let res = check_config(&make_config(HashAlgorithm::Sha1, None, true, true));
    assert_eq!(
        res.unwrap_err(),
        "Outpack must be configured to use hash algorithm 'sha256', but you are using 'sha1'"
    );

    let res = check_config(&make_config(HashAlgorithm::Sha256, None, false, true));
    assert_eq!(res.unwrap_err(), "Outpack must be configured to use a file store");

    let res = check_config(&make_config(HashAlgorithm::Sha256, None, true, false));
    assert_eq!(
        res.unwrap_err(),
        "Outpack must be configured to require a complete tree"
    );

    let res = check_config(&make_config(
        HashAlgorithm::Sha256,
        Some(String::from("archive")),
        true,
        true,
    ));
    assert_eq!(res.unwrap_err(), "Outpack must be configured to *not* use an archive, but your path_archive is 'archive'");

    let res = check_config(&make_config(HashAlgorithm::Sha256, None, true, true));
    assert!(res.is_ok());
}

#[test]
fn need_some_storage() {
    let cfg = Config::new(None, false, false);
    assert!(cfg.is_err());
    assert_eq!(
        cfg.unwrap_err().detail,
        "If 'path_archive' is None, then use_file_store must be true"
    );
}

#[test]
fn can_create_config_with_local_location() {
    let cfg = Config::new(None, true, true).unwrap();
    assert_eq!(cfg.location.len(), 1);
    assert_eq!(cfg.location[0].name, "local");
    assert_eq!(cfg.location[0].loc_type, "local");
    assert_eq!(cfg.core.hash_algorithm, HashAlgorithm::Sha256);
    assert!(cfg.core.use_file_store);
    assert!(cfg.core.require_complete_tree);
    assert!(cfg.core.path_archive.is_none());
}

#[test]
fn error_if_invalid_root() {
    let res = preflight("bad-root", false, None);
    assert_eq!(res.unwrap_err(), "Outpack root not found at 'bad-root'");

    let res = preflight("bad-root", true, None);
    assert_eq!(res.unwrap_err(), "Failed to read outpack config from 'bad-root'");

    let cfg = Config::new(None, true, true).unwrap();
    assert!(preflight("root", true, Some(&cfg)).is_ok());
}

#[test]
fn index_reports_schema_version() {
    let root = index();
    assert_eq!(root.schema_version, "0.1.1");
}

#[test]
fn catches_arbitrary_404() {
    let err = not_found();
    assert_eq!(err.error, "NOT_FOUND");
    assert_eq!(err.detail, "This route does not exist");
    assert_eq!(status_code(&err), 404);
}

#[test]
fn panics_render_as_unknown_error() {
    let err = internal_error();
    assert_eq!(err.error, "UNKNOWN_ERROR");
    assert_eq!(err.detail, "Something went wrong");
    assert_eq!(status_code(&err), 500);
}

#[test]
fn status_codes_follow_error_kinds() {
    let cases = vec![
        (ErrorKind::NotFound, 404u16),
        (ErrorKind::InvalidInput, 400),
        (ErrorKind::UnexpectedEof, 400),
        (ErrorKind::AlreadyExists, 409),
        (ErrorKind::Other, 500),
    ];
    for (kind, code) in cases {
        let err = outpack::responses::OutpackError::new(kind, "x".to_string());
        assert_eq!(status_code(&err), code);
    }
}

#[test]
fn envelopes_have_the_wire_shape() {
    let ok = success_response(42u32);
    assert_eq!(ok.status, "success");
    assert_eq!(ok.data, 42);
    assert!(ok.errors.is_none());

    let err = fail_response(not_found());
    assert_eq!(err.status, "failure");
    assert!(err.data.is_none());
    let errors = err.errors.unwrap();
    assert_eq!(errors.len(), 1);
    assert_eq!(errors[0].error, "NOT_FOUND");
}
