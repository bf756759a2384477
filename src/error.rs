//! The ways a request on the library can fail.
use vstd::prelude::*;

verus! {

/// Why a listing or a lookup failed. Every error ends the request.
#[derive(Clone, Copy, Debug, PartialEq, Eq, Structural)]
pub enum LibraryError {
    /// The asset root is missing or cannot be resolved.
    ConfigError,
    /// The requested title does not exist.
    NotFound,
    /// The requested name resolves outside the asset root.
    PathTraversal,
    /// A path handed to the URL encoder lies outside the asset root.
    OutsideRoot,
    /// A sidecar exists but does not describe a valid episode.
    InvalidContent,
    /// Any other failure to read the file system.
    IoError,
}

} // verus!
