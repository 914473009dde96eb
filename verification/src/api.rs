//! The decisions of the HTTP surface that do not touch the filesystem: the
//! root document, the fallback error, the panic error, and the startup
//! preflight over the configuration.

use vstd::prelude::*;

use crate::config::Config;
use crate::hash::{spec_algorithm_name, algorithm_name, HashAlgorithm};
use crate::responses::{ErrorKind, OutpackError};

verus! {

/// The document served at the root route.
#[derive(Clone, Debug)]
pub struct ApiRoot {
    pub schema_version: String,
}

/// The root document: the schema version this server speaks.
pub fn index() -> (r: ApiRoot)
    ensures
        r.schema_version@ == "0.1.1"@,
{
    ApiRoot { schema_version: "0.1.1".to_owned() }
}

/// The error served when no route matches.
pub fn not_found() -> (r: OutpackError)
    ensures
        r.error@ == "NOT_FOUND"@,
        r.detail@ == "This route does not exist"@,
        r.kind == Some(ErrorKind::NotFound),
{
    OutpackError {
        error: "NOT_FOUND".to_owned(),
        detail: "This route does not exist".to_owned(),
        kind: Some(ErrorKind::NotFound),
    }
}

/// The error served when a handler panics.
pub fn internal_error() -> (r: OutpackError)
    ensures
        r.error@ == "UNKNOWN_ERROR"@,
        r.detail@ == "Something went wrong"@,
        r.kind == Some(ErrorKind::Other),
{
    OutpackError {
        error: "UNKNOWN_ERROR".to_owned(),
        detail: "Something went wrong".to_owned(),
        kind: Some(ErrorKind::Other),
    }
}

/// The four server-mode rules: a file store, a complete tree, SHA-256, and no
/// archive directory.  Each violation names the offending setting.
pub fn check_config(config: &Config) -> (r: Result<(), String>)
    ensures
        match r {
            Ok(()) => {
                &&& config.core.use_file_store
                &&& config.core.require_complete_tree
                &&& config.core.hash_algorithm == HashAlgorithm::Sha256
                &&& config.core.path_archive is None
            },
            Err(msg) => {
                if !config.core.use_file_store {
                    msg@ == "Outpack must be configured to use a file store"@
                } else if !config.core.require_complete_tree {
                    msg@ == "Outpack must be configured to require a complete tree"@
                } else if config.core.hash_algorithm != HashAlgorithm::Sha256 {
                    msg@ == "Outpack must be configured to use hash algorithm 'sha256', but you are using '"@
                        + spec_algorithm_name(config.core.hash_algorithm) + "'"@
                } else {
                    config.core.path_archive matches Some(p) && msg@
                        == "Outpack must be configured to *not* use an archive, but your path_archive is '"@
                        + p@ + "'"@
                }
            },
        },
{
    if !config.core.use_file_store {
        return Err("Outpack must be configured to use a file store".to_owned());
    }
    if !config.core.require_complete_tree {
        return Err("Outpack must be configured to require a complete tree".to_owned());
    }
    if config.core.hash_algorithm != HashAlgorithm::Sha256 {
        let mut msg = String::new();
        msg.append("Outpack must be configured to use hash algorithm 'sha256', but you are using '");
        msg.append(algorithm_name(config.core.hash_algorithm));
        msg.append("'");
        return Err(msg);
    }
    match &config.core.path_archive {
        Some(p) => {
            let mut msg = String::new();
            msg.append("Outpack must be configured to *not* use an archive, but your path_archive is '");
            msg.append(p.as_str());
            msg.append("'");
            Err(msg)
        },
        None => Ok(()),
    }
}

/// The startup preflight: the repository directory must exist, its
/// configuration must have been readable, and the server-mode rules must
/// hold.
pub fn preflight(root: &str, outpack_exists: bool, config: Option<&Config>) -> (r: Result<
    (),
    String,
>)
    ensures
        match r {
            Ok(()) => {
                &&& outpack_exists
                &&& config matches Some(cfg) && {
                    &&& cfg.core.use_file_store
                    &&& cfg.core.require_complete_tree
                    &&& cfg.core.hash_algorithm == HashAlgorithm::Sha256
                    &&& cfg.core.path_archive is None
                }
            },
            Err(msg) => {
                if !outpack_exists {
                    msg@ == "Outpack root not found at '"@ + root@ + "'"@
                } else if config is None {
                    msg@ == "Failed to read outpack config from '"@ + root@ + "'"@
                } else {
                    let cfg = config->Some_0;
                    if !cfg.core.use_file_store {
                        msg@ == "Outpack must be configured to use a file store"@
                    } else if !cfg.core.require_complete_tree {
                        msg@ == "Outpack must be configured to require a complete tree"@
                    } else if cfg.core.hash_algorithm != HashAlgorithm::Sha256 {
                        msg@ == "Outpack must be configured to use hash algorithm 'sha256', but you are using '"@
                            + spec_algorithm_name(cfg.core.hash_algorithm) + "'"@
                    } else {
                        cfg.core.path_archive matches Some(p) && msg@
                            == "Outpack must be configured to *not* use an archive, but your path_archive is '"@
                            + p@ + "'"@
                    }
                }
            },
        },
{
    if !outpack_exists {
        let mut msg = String::new();
        msg.append("Outpack root not found at '");
        msg.append(root);
        msg.append("'");
        return Err(msg);
    }
    match config {
        None => {
            let mut msg = String::new();
            msg.append("Failed to read outpack config from '");
            msg.append(root);
            msg.append("'");
            Err(msg)
        },
        Some(cfg) => check_config(cfg),
    }
}

} // verus!
