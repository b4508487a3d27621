//! The entries seen during the walk and the per-entry decision.

use vstd::prelude::*;

verus! {

/// A filesystem path, opaque to the verifier. The engine never inspects a
/// path; it only records one beside its depth and hands it back when the
/// removal of that object is due.
#[verifier::external_type_specification]
#[verifier::external_body]
pub struct ExPathBuf(std::path::PathBuf);

/// The kind of a filesystem object seen during the walk.
#[derive(Clone, Copy, Debug, PartialEq, Eq, Structural)]
pub enum EntryKind {
    File,
    Symlink,
    Directory,
}

/// One directory discovered during the walk: its path and its depth below
/// the deletion root (the root itself has depth zero).
pub struct DirRec {
    pub path: std::path::PathBuf,
    pub depth: usize,
}

/// What the walking pass must do with one entry, in this order: clear the
/// read-only bit if asked, then either delete the object now or defer it.
#[derive(Clone, Copy, Debug, PartialEq, Eq, Structural)]
pub struct EntryAction {
    /// Clear the read-only bit before any removal; failure is fatal.
    pub clear_readonly: bool,
    /// Delete the object now with a single-object removal; failure is fatal.
    pub remove_now: bool,
    /// Defer the object into the depth bucket of its depth.
    pub defer_dir: bool,
}

/// The per-entry decision of the walking pass: normalize the permission of
/// every read-only entry whatever its kind, remove files and symbolic links
/// immediately, and defer directories to the bucketed phase. In particular
/// a read-only file is both cleared and removed in one visit, so a caller
/// never has to pre-clear anything.
pub fn entry_action(kind: EntryKind, readonly: bool) -> (action: EntryAction)
    ensures
        action.clear_readonly == readonly,
        action.remove_now == (kind is File || kind is Symlink),
        action.defer_dir == (kind is Directory),
        readonly && (kind is File || kind is Symlink) ==> action.clear_readonly && action.remove_now,
{
    EntryAction {
        clear_readonly: readonly,
        remove_now: match kind {
            EntryKind::File | EntryKind::Symlink => true,
            EntryKind::Directory => false,
        },
        defer_dir: match kind {
            EntryKind::Directory => true,
            _ => false,
        },
    }
}

} // verus!
