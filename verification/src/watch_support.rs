//! Decisions of the filesystem watcher support: which walked paths are
//! ignore files, and on which platforms watch-event paths must be
//! canonicalized. The walking and the event plumbing live outside the
//! library; only these rules are its own.

use crate::order::str_eq;
use crate::planner::{has_suffix, str_has_suffix};
use vstd::prelude::*;

verus! {

/// A path whose last component is a git-ignore or nx-ignore file.
pub open spec fn watched_ignore_file(path: Seq<char>) -> bool {
    ||| path == ".gitignore"@
    ||| has_suffix(path, "/.gitignore"@)
    ||| path == ".nxignore"@
    ||| has_suffix(path, "/.nxignore"@)
}

/// Whether a walked path names an ignore file the watcher must honor.
pub fn is_watched_ignore_file(path: &str) -> (r: bool)
    ensures
        r == watched_ignore_file(path@),
{
    if str_eq(path, ".gitignore") {
        return true;
    }
    if str_has_suffix(path, "/.gitignore") {
        return true;
    }
    if str_eq(path, ".nxignore") {
        return true;
    }
    str_has_suffix(path, "/.nxignore")
}

/// The platform family a watch event arrives on.
pub enum OsKind {
    Debian,
    Arch,
    Other,
}

/// Watch events carry symlinked paths on Debian-family and Arch platforms,
/// so their paths are canonicalized before use; elsewhere they are kept.
pub fn needs_path_canonicalization(os: &OsKind) -> (r: bool)
    ensures
        r == (os is Debian || os is Arch),
{
    match os {
        OsKind::Debian => true,
        OsKind::Arch => true,
        OsKind::Other => false,
    }
}

} // verus!
