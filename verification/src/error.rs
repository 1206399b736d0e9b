//! The error type of the library.
use vstd::prelude::*;

verus! {

/// Everything that can go wrong while inspecting or cloning profiles.
///
/// Paths are carried as text; the description of an underlying I/O or JSON
/// failure is carried as its message.
#[derive(Debug)]
pub enum Error {
    /// The platform default user-data directory could not be determined.
    UserDataDirNotFound,
    /// The resolved user-data directory does not exist on disk.
    UserDataDirMissing(String),
    /// A filesystem path was not valid UTF-8 (shown lossily).
    NonUtf8Path(String),
    /// The `Local State` registry file is missing.
    LocalStateMissing(String),
    /// `Local State` did not have the structure we expect.
    MalformedLocalState(String),
    /// The Vivaldi application could not be found to open a profile.
    VivaldiNotFound,
    /// Launching Vivaldi to register the profile failed.
    LaunchFailed {
        /// The message of the underlying spawn error.
        source: String,
    },
    /// No profile matched the user-provided query.
    ProfileNotFound(String),
    /// More than one profile matched the query.
    AmbiguousProfile {
        /// The original query.
        query: String,
        /// The directory names that matched.
        matches: Vec<String>,
    },
    /// The source profile directory is missing on disk.
    SourceProfileMissing(String),
    /// The destination profile directory already exists.
    ProfileDirExists(String),
    /// A JSON file could not be parsed or serialized.
    Json {
        /// The file involved.
        path: String,
        /// The message of the underlying JSON error.
        source: String,
    },
    /// An underlying I/O error, annotated with the path it concerns.
    Io {
        /// The file or directory involved.
        path: String,
        /// The message of the underlying I/O error.
        source: String,
    },
}

} // verus!
