//! The configuration of the streaming-upload extractor: which directory the
//! request bodies are spooled into.  The spooling itself is the HTTP layer's
//! business.

use vstd::prelude::*;

verus! {

/// Where uploads are spooled: a directory on the same filesystem as the
/// store, so that the final rename is atomic.
#[derive(Clone, Debug)]
pub struct UploadConfig {
    pub directory: String,
}

/// The middleware configuration carrying the upload directory.
#[derive(Clone, Debug)]
pub struct UploadLayer {
    pub config: UploadConfig,
}

impl UploadLayer {
    /// Configure uploads to be spooled under `path`.
    pub fn new(path: String) -> (r: UploadLayer)
        ensures
            r.config.directory == path,
    {
        UploadLayer { config: UploadConfig { directory: path } }
    }
}

} // verus!
