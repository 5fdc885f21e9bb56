use vstd::prelude::*;

verus! {

/// Why a route could not be resolved to a physical location.
#[derive(Clone, Copy, Debug, PartialEq, Eq, Structural)]
pub enum RouteError {
    /// The route is empty, or its first segment names no registered partition.
    UnknownPartition,
}

/// Every way an operation of the overlay can fail.
#[derive(Clone, Copy, Debug, PartialEq, Eq, Structural)]
pub enum VfsError {
    /// The route did not resolve.
    Route(RouteError),
    /// The underlying entry could not be inspected, listed or read as text.
    Read,
    /// The entry is neither a regular file nor a directory.
    UnsupportedType,
    /// The operation is not provided.
    UnsupportedOperation,
}

impl VfsError {
    /// The error a failed resolution turns into when it leaves a read.
    pub fn from_route(e: RouteError) -> (r: VfsError)
        ensures
            r == VfsError::Route(e),
    {
        VfsError::Route(e)
    }
}

} // verus!
