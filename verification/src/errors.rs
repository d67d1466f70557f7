//! The error taxonomy of the tool.

use vstd::prelude::*;

verus! {

/// Everything that can go wrong while managing the store.
///
/// The first four variants are produced by the decision functions of this
/// library. `SubprocessFailure` wraps a nonzero exit of the external `git`
/// binary and carries its captured standard-error text; `ConfigurationMissing`
/// reports an absent root path. Both of those arise only at the I/O edge, but
/// they belong to the same taxonomy and are declared here so that every
/// failure of the tool has one type.
#[derive(Debug, PartialEq, Eq)]
pub enum SpeculoError {
    /// A repository directory with the requested name is already present.
    AlreadyExists,
    /// The named base, or a remote matching the query, does not exist.
    NotFound,
    /// The path exists but is not a (bare) git repository.
    NotARepository,
    /// The matched remote is `origin`, which may never be unlinked.
    ProtectedRemote,
    /// The external `git` process exited nonzero; the field holds its stderr.
    SubprocessFailure(String),
    /// The configured root path does not exist.
    ConfigurationMissing,
}

} // verus!
