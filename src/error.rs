use vstd::prelude::*;

verus! {

/// Why a path could not be canonicalized.
#[derive(Debug, Clone, Copy, PartialEq, Eq, Structural)]
pub enum PathError {
    /// The path starts with `~` and no home directory was given.
    MissingEnvironmentVariable,
    /// The resolved path takes more UTF-16 code units than the native path buffer
    /// holds.
    PathTooLong,
}

} // verus!
