//! Fatal errors of the configuration loader.

use vstd::prelude::*;

verus! {

/// An error that aborts a whole load.
///
/// Operating-system errors are carried as their rendered message, so that the
/// error stays a plain value.
#[derive(Debug, Clone, PartialEq, Eq)]
pub enum ArcellaUtilsError {
    /// An unexpected condition.
    Internal(String),
    /// An I/O failure without a known location.
    Io(String),
    /// An I/O failure at `path`.
    IoWithPath { source: String, path: String },
    /// A path that had to exist and did not.
    PathNotFound { path: String },
    /// The text is not TOML, or holds a value that has no counterpart here.
    TOML(String),
}

impl ArcellaUtilsError {
    /// An I/O failure at `path`, with `source` as the rendered cause.
    pub fn io_with_path(path: String, source: String) -> (e: ArcellaUtilsError)
        ensures
            e == (ArcellaUtilsError::IoWithPath { source, path }),
    {
        ArcellaUtilsError::IoWithPath { source, path }
    }
}

} // verus!
