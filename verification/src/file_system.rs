//! The plain values that file system operations take and report.
use vstd::prelude::*;
use std::path::PathBuf;
use std::time::SystemTime;

verus! {

/// `std::path::PathBuf`, an owned file system path.
#[verifier::external_type_specification]
#[verifier::external_body]
pub struct ExPathBuf(PathBuf);

/// `PathBuf::clone`: a copy of the path (nothing is stated of it here).
pub assume_specification[ <PathBuf as Clone>::clone ](path: &PathBuf) -> PathBuf;

/// `std::time::SystemTime`, a point in time of the system clock.
#[verifier::external_type_specification]
#[verifier::external_body]
pub struct ExSystemTime(SystemTime);

#[derive(Copy, Clone, PartialEq, Eq, PartialOrd, Ord, Debug, Structural)]
pub enum PathEventKind {
    Removed,
    Created,
    Changed,
    Rescan,
}

#[derive(Clone, PartialEq, Eq, PartialOrd, Ord, Debug)]
pub struct PathEvent {
    pub path: PathBuf,
    pub kind: Option<PathEventKind>,
}

#[derive(Copy, Clone, Default, PartialEq, Eq, Debug, Structural)]
pub struct CreateOptions {
    pub overwrite: bool,
    pub ignore_if_exists: bool,
}

#[derive(Copy, Clone, Default, PartialEq, Eq, Debug, Structural)]
pub struct CopyOptions {
    pub overwrite: bool,
    pub ignore_if_exists: bool,
}

#[derive(Copy, Clone, Default, PartialEq, Eq, Debug, Structural)]
pub struct RenameOptions {
    pub overwrite: bool,
    pub ignore_if_exists: bool,
    pub create_parents: bool,
}

#[derive(Copy, Clone, Default, PartialEq, Eq, Debug, Structural)]
pub struct RemoveOptions {
    pub recursive: bool,
}

/// The modification time of a file.
#[derive(Copy, Clone, Debug, PartialEq, Eq, Hash)]
pub struct MTime(SystemTime);

#[derive(Copy, Clone, Debug)]
pub struct Metadata {
    pub inode: u64,
    pub mtime: MTime,
    pub is_symlink: bool,
    pub is_dir: bool,
    pub len: u64,
    pub is_fifo: bool,
    pub is_executable: bool,
}

} // verus!
