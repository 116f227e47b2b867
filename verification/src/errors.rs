//! The error kinds of the launcher core.

use vstd::prelude::*;

verus! {

/// Everything that can go wrong inside the core.
///
/// Per-app update failures are caught at the orchestration boundary and do
/// not abort other apps; process-supervision failures are fatal to the run.
#[derive(Clone, Copy, Debug, PartialEq, Eq, Structural)]
pub enum Error {
    /// A filesystem operation failed.
    IoError,
    /// The persisted state could not be serialized.
    SerializationError,
    /// A network transfer failed.
    NetworkError,
    /// A version tag was not a valid semantic version.
    ParseError,
    /// The provider had no releases, or no asset matched.
    NotFoundError,
    /// A download did not announce its total size up front.
    SizeUnknownError,
    /// `terminate` was called while no child process was running.
    NotRunningError,
    /// The per-user cache location could not be determined.
    DirectoryUnavailableError,
}

impl Error {
    /// A human-readable message for the top-level reporter.
    pub fn describe(&self) -> (r: &'static str)
        ensures
            r@.len() > 0,
    {
        let r = match self {
            Error::IoError => "A filesystem operation failed",
            Error::SerializationError => "The launcher state could not be serialized",
            Error::NetworkError => "A network transfer failed",
            Error::ParseError => "A version tag is not a valid semantic version",
            Error::NotFoundError => "No matching release or asset was found",
            Error::SizeUnknownError => "The size of the assets could not be detected",
            Error::NotRunningError => "The app is not started",
            Error::DirectoryUnavailableError => "The cache directory is not available",
        };
        proof {
            reveal_strlit("A filesystem operation failed");
            reveal_strlit("The launcher state could not be serialized");
            reveal_strlit("A network transfer failed");
            reveal_strlit("A version tag is not a valid semantic version");
            reveal_strlit("No matching release or asset was found");
            reveal_strlit("The size of the assets could not be detected");
            reveal_strlit("The app is not started");
            reveal_strlit("The cache directory is not available");
        }
        r
    }
}

} // verus!
