//! The few points where the library touches the host system.  Each function
//! here is trusted: it makes one outside call, converts the outcome to plain
//! values, and promises only what holds of every outcome, since what the
//! environment and the filesystem hold cannot be known here.

use vstd::prelude::*;

verus! {

/// Relies on dirs::home_dir: the user's home directory, from the platform's
/// standard user-profile lookup.  The result depends on the environment, so
/// nothing is promised of it.  A home directory that is not valid Unicode
/// is treated as absent.
#[verifier::external_body]
pub(crate) fn home_dir() -> (r: Option<String>) {
    dirs::home_dir().and_then(|p| p.to_str().map(|s| s.to_string()))
}

/// Relies on std::path::Path::read_dir: the names of the directory's
/// entries, in the order the operating system lists them.  A directory that
/// cannot be read gives `None`; an entry that cannot be read or whose name
/// is not valid Unicode is passed over.  What comes back depends on the
/// filesystem, so nothing is promised of it.
#[verifier::external_body]
pub(crate) fn read_dir_names(dir: &str) -> (r: Option<Vec<String>>) {
    match std::path::Path::new(dir).read_dir() {
        Ok(entries) => Some(
            entries.filter_map(|e| e.ok().and_then(|e| e.file_name().into_string().ok())).collect(),
        ),
        Err(_) => None,
    }
}

/// Relies on std::path::Path::is_dir: whether the path names a directory
/// (after following symlinks).  The answer depends on the filesystem.
#[verifier::external_body]
pub(crate) fn is_dir(path: &str) -> (r: bool) {
    std::path::Path::new(path).is_dir()
}

/// Relies on std::path::Path::is_symlink: whether the path itself is a
/// symbolic link.  The answer depends on the filesystem.
#[verifier::external_body]
pub(crate) fn is_symlink(path: &str) -> (r: bool) {
    std::path::Path::new(path).is_symlink()
}

/// Relies on std::path::Path::is_file: whether the path names a regular
/// file (after following symlinks).  The answer depends on the filesystem.
#[verifier::external_body]
pub(crate) fn is_file(path: &str) -> (r: bool) {
    std::path::Path::new(path).is_file()
}

/// Relies on std::path::Path::exists: whether the path names anything on
/// disk.  The answer depends on the filesystem.
#[verifier::external_body]
pub(crate) fn path_exists(path: &str) -> (r: bool) {
    std::path::Path::new(path).exists()
}

} // verus!
