use vstd::prelude::*;

verus! {

/// The failure conditions of a documentation run.
///
/// Discovery and rendering stop at the first error; there is no retry and no
/// partial result.
#[derive(Debug, PartialEq, Eq)]
pub enum Error {
    /// The target binary exited with a non-zero status; carries the rendered
    /// command and its captured standard-error text.
    InvocationFailed { command: String, stderr: String },
    /// The target binary produced output that is not valid text.
    InvalidOutput,
    /// The index file to merge into lacks one of the two sentinel marker
    /// lines; a setup error that needs manual correction.
    MissingIndexMarkers,
    /// A directory or file could not be created or written.
    FilesystemError,
}

} // verus!
