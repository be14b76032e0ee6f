//! The failure taxonomy and the classification of raw OS error codes.

use vstd::prelude::*;

verus! {

/// The call was interrupted by a signal before it did anything.
pub const EINTR: i32 = 4;

/// No such file or directory.
pub const ENOENT: i32 = 2;

/// The resource is temporarily unavailable.
pub const EAGAIN: i32 = 11;

/// Out of memory.
pub const ENOMEM: i32 = 12;

/// Invalid argument; a batch directory read answers it when the buffer cannot
/// hold one record.
pub const EINVAL: i32 = 22;

/// The one failure that a call of this library can end with.
#[derive(Clone, Copy, Debug, PartialEq, Eq, Structural)]
pub enum Error {
    /// The major number of the device is not one of a terminal.
    NotATerminal,
    /// Every candidate directory was searched and no node has the device number.
    NotFound,
    /// The status record is malformed.
    InvalidData,
    /// A buffer could not grow.
    OutOfMemory,
    /// Any other failure of the operating system, with its raw code.
    Os(i32),
}

/// A code that a retry loop absorbs: the call is simply made again.
pub open spec fn is_transient(code: i32) -> bool {
    code == EINTR || code == EAGAIN
}

/// Tells whether `code` is one that a retry loop absorbs.
pub fn transient(code: i32) -> (r: bool)
    ensures
        r == is_transient(code),
{
    code == EINTR || code == EAGAIN
}

} // verus!
