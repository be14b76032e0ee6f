//! What the library asks of the operating system, and what it takes back.
//!
//! The library makes no system call. Whoever drives it performs each action
//! and hands the outcome back as a reply; a reply that does not answer the
//! pending action is ignored.

use vstd::prelude::*;
use crate::dev::Dev;
use crate::dirent::FileType;

verus! {

/// The descriptor that stands for the current working directory.
pub const CURRENT_DIRECTORY: i32 = -100;

/// One request to the operating system. Where an action is about a name, the
/// machine that asks holds the name.
#[derive(Clone, Copy, Debug, PartialEq, Eq, Structural)]
pub enum Action {
    /// Open the named directory, relative to `dirfd`, for reading only, as a
    /// directory and closed on exec.
    OpenDir { dirfd: i32 },
    /// Open the named file, relative to the current directory, for reading
    /// only and closed on exec.
    OpenFile,
    /// Query the status of the name below `dirfd`, without following a
    /// symbolic link.
    Stat { dirfd: i32 },
    /// Read a batch of directory entries, of at most `capacity` bytes.
    ReadDir { fd: i32, capacity: usize },
    /// Set the position of `fd` to `offset`, counted from the start.
    Seek { fd: i32, offset: u64 },
    /// Read at most `count` bytes.
    Read { fd: i32, count: usize },
    /// Close `fd`; whether that fails is of no interest.
    Close { fd: i32 },
    /// Nothing is left to do.
    Done,
}

/// What a status query tells of a node.
#[derive(Clone, Copy, Debug, PartialEq, Eq, Structural)]
pub struct FileStatus {
    /// The file type of the node.
    pub file_type: FileType,
    /// The device that the node stands for, where it is a device node.
    pub rdev: Dev,
}

/// The outcome of an action.
#[derive(Clone, Copy, Debug)]
pub enum Reply<'a> {
    /// The open succeeded, with this descriptor.
    Opened(i32),
    /// The status query succeeded.
    Status(FileStatus),
    /// The read succeeded, with these bytes; none at the end.
    Data(&'a [u8]),
    /// The seek succeeded.
    Sought,
    /// The descriptor was closed, or the attempt was made.
    Closed,
    /// The action failed with this raw error code.
    Failed(i32),
}

} // verus!
