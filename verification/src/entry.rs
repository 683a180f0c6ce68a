//! The entries of a directory as the listing sees them.

use vstd::prelude::*;
use crate::vcs::GitState;

verus! {

/// The type of a file-system object. A symbolic link is a link, whatever it
/// points to.
#[derive(Clone, Copy, Debug, PartialEq, Eq, Structural)]
pub enum FileKind {
    Directory,
    Regular,
    Symlink,
    Pipe,
    Socket,
    BlockDevice,
    CharDevice,
}

/// A point in time: whole seconds since the start of 1970, negative before
/// it, and the nanoseconds past that second.
#[derive(Clone, Copy, Debug)]
pub struct ModTime {
    pub secs: i64,
    pub nanos: u32,
}

/// What the file system records of an entry.
#[derive(Clone, Copy, Debug)]
pub struct Metadata {
    /// The type of the entry.
    pub kind: FileKind,
    /// The size in bytes.
    pub size: u64,
    /// The time of the last modification, where it is known.
    pub modified: Option<ModTime>,
    /// The permission bits, where the platform has them.
    pub mode: Option<u32>,
    /// The number of hard links.
    pub links: u64,
    /// The owner's numeric id.
    pub uid: u32,
    /// The group's numeric id.
    pub gid: u32,
}

/// An entry as a directory read finds it.
pub struct RawEntry {
    /// The entry's name within its directory.
    pub name: String,
    /// The entry's path, relative to the root of the listing.
    pub rel_path: String,
    /// The entry's metadata; `None` where it could not be read.
    pub metadata: Option<Metadata>,
    /// For a symbolic link, the text of its target, where it could be read.
    pub link_target: Option<String>,
    /// For a symbolic link, whether it leads to an existing object.
    pub target_exists: bool,
}

/// An entry that takes part in a listing.
pub struct EntryInfo {
    /// The entry's name within its directory.
    pub name: String,
    /// The entry's path, relative to the root of the listing.
    pub rel_path: String,
    /// What the file system records of the entry.
    pub metadata: Metadata,
    /// The glyph for the entry's type and name.
    pub icon: &'static str,
    /// What version control says of the entry's path.
    pub git_state: GitState,
    /// For a symbolic link, the text of its target, where it could be read.
    pub link_target: Option<String>,
    /// For a symbolic link, whether it leads to an existing object.
    pub target_exists: bool,
}

impl Metadata {
    /// Whether the entry is a directory.
    pub open spec fn is_dir(&self) -> bool {
        self.kind == FileKind::Directory
    }

    /// Whether anyone may execute the entry: one of the three execute bits
    /// is set. Without permission bits nothing is executable.
    pub open spec fn executable(&self) -> bool {
        match self.mode {
            Some(mode) => mode & 0o111 != 0,
            None => false,
        }
    }
}

/// Whether anyone may execute the entry.
pub fn is_executable(metadata: &Metadata) -> (yes: bool)
    ensures
        yes == metadata.executable(),
{
    match metadata.mode {
        Some(mode) => mode & 0o111 != 0,
        None => false,
    }
}

} // verus!
