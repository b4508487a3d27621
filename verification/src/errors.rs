//! The error taxonomy of the deletion engine and its fatality policy.

use vstd::prelude::*;

verus! {

/// The four ways a deletion run can go wrong. The first three abort the
/// whole operation; a failed directory removal is only logged.
#[derive(Clone, Copy, Debug, PartialEq, Eq, Structural)]
pub enum ErrorKind {
    /// A directory entry could not be read during the walk.
    Enumeration,
    /// The read-only bit of an entry could not be cleared.
    PermissionChange,
    /// A file or symbolic link could not be deleted.
    FileRemoval,
    /// A directory could not be deleted.
    DirectoryRemoval,
}

/// The fatality policy: every error kind aborts the run except a failed
/// directory removal, which is contained and only reported as a warning.
pub fn is_fatal(kind: ErrorKind) -> (fatal: bool)
    ensures
        fatal == !(kind is DirectoryRemoval),
{
    match kind {
        ErrorKind::DirectoryRemoval => false,
        _ => true,
    }
}

} // verus!
