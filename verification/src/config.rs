//! The repository configuration and its construction rule.

use vstd::prelude::*;

use crate::hash::HashAlgorithm;
use crate::responses::{ErrorKind, OutpackError};

verus! {

/// A named source of packets.  The reserved name `local` is this repository
/// itself.
#[derive(Clone, Debug)]
pub struct Location {
    pub name: String,
    pub loc_type: String,
}

/// The core settings: the digest algorithm, whether an archive directory or a
/// content-addressed file store holds the blobs, and whether every dependency
/// must be resident.
#[derive(Clone, Debug)]
pub struct Core {
    pub hash_algorithm: HashAlgorithm,
    pub path_archive: Option<String>,
    pub use_file_store: bool,
    pub require_complete_tree: bool,
}

/// The repository configuration: the core settings and the known locations.
#[derive(Clone, Debug)]
pub struct Config {
    pub core: Core,
    pub location: Vec<Location>,
}

impl Config {
    /// A fresh configuration: SHA-256, the requested storage settings, and
    /// the single location `local`.  At least one storage mode must be
    /// selected.
    pub fn new(path_archive: Option<String>, use_file_store: bool, require_complete_tree: bool) -> (r:
        Result<Config, OutpackError>)
        ensures
            match r {
                Ok(cfg) => {
                    &&& use_file_store || path_archive is Some
                    &&& cfg.core.hash_algorithm == HashAlgorithm::Sha256
                    &&& cfg.core.path_archive == path_archive
                    &&& cfg.core.use_file_store == use_file_store
                    &&& cfg.core.require_complete_tree == require_complete_tree
                    &&& cfg.location@.len() == 1
                    &&& cfg.location@[0].name@ == "local"@
                    &&& cfg.location@[0].loc_type@ == "local"@
                },
                Err(e) => {
                    &&& !use_file_store && path_archive is None
                    &&& e.kind == Some(ErrorKind::InvalidInput)
                    &&& e.detail@ == "If 'path_archive' is None, then use_file_store must be true"@
                },
            },
    {
        if !use_file_store && path_archive.is_none() {
            return Err(OutpackError::new(
                ErrorKind::InvalidInput,
                "If 'path_archive' is None, then use_file_store must be true".to_owned(),
            ));
        }
        let core = Core {
            hash_algorithm: HashAlgorithm::Sha256,
            path_archive,
            use_file_store,
            require_complete_tree,
        };
        let local = Location { name: "local".to_owned(), loc_type: "local".to_owned() };
        let mut location: Vec<Location> = Vec::new();
        location.push(local);
        Ok(Config { core, location })
    }
}

} // verus!
