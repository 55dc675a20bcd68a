//! Errors reported by the library.
use vstd::prelude::*;

verus! {

/// What can go wrong in the library's own logic.
#[derive(Debug, PartialEq, Eq)]
pub enum AppError {
    /// No backend is registered under this name.
    UnknownBackend(String),
    /// A duration was empty.
    EmptyDuration,
    /// A duration such as `"60s"` could not be read.
    InvalidDuration(String),
    /// A backend answered with an error.
    Backend(String),
    /// A configuration value is unusable.
    Config(String),
    /// No model was named, in the configuration or on the command line.
    MissingModel,
}

} // verus!
