use vstd::prelude::*;

verus! {

/// The error taxonomy of the whole operation. Every error is terminal for
/// the invocation that raised it; an existence probe answering "not found"
/// is ordinary control data for the providers and never surfaces as
/// `NotFound` from a commit.
#[derive(Clone, Debug, PartialEq, Eq)]
pub enum Error {
    /// A file is absent at the requested reference.
    NotFound,
    /// A mutation path does not resolve to an existing node.
    PathError,
    /// Content is not valid JSON or YAML where the directive expected it.
    DocumentError,
    /// A non-success remote response or transport failure, carrying the
    /// remote response body when one was available.
    RepositoryError(String),
    /// A malformed provider descriptor or directive list.
    ConfigError,
}

} // verus!
