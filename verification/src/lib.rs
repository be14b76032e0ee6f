//! Resolution of the controlling terminal of a process.
//!
//! The library holds the decisions: how a status record is parsed, how raw
//! directory-entry batches are walked, and how a device number is turned into
//! a path by guessing and then scanning. Everything that touches the operating
//! system is asked of the caller as an action and handed back as a reply.

pub mod bsd;
pub mod buffer;
pub mod dev;
pub mod dir;
pub mod dirent;
pub mod error;
pub mod lookup;
pub mod os;
pub mod pinfo;
pub mod query;
pub mod resolve;
pub mod text;
pub mod tty;
mod trusted;

pub use buffer::{ArrayBuffer, CBuffer, DirentBuf, VecBuffer};
pub use dev::Dev;
pub use dir::{Dir, DirIterator, Next};
pub use dirent::{ByteOrder, DirEntry, DirentFileType, FileType};
pub use error::Error;
pub use lookup::{Lookup, ProcessInfo};
pub use os::{Action, FileStatus, Reply};
pub use pinfo::RawProcessInfo;
pub use query::StatQuery;
pub use resolve::Resolver;
pub use tty::TtyInfo;
