//! The other way to what a process says of itself: a query of the kernel's
//! process table, on systems that have no status records to read.
//!
//! The kernel is asked for the entry of one process by a sequence of integer
//! keys. It fills a buffer that the caller provides; where the buffer is too
//! small the query is made again with a buffer a tenth larger.

use vstd::prelude::*;
use crate::error::{Error, ENOMEM};

verus! {

/// The key of the kernel's own tables.
pub const CTL_KERN: i32 = 1;

/// The key of the process table.
pub const KERN_PROC: i32 = 14;

/// The key of the process table in its second layout.
pub const KERN_PROC2: i32 = 47;

/// The key that selects one process by its id.
pub const KERN_PROC_PID: i32 = 1;

/// The terminal number that stands for no controlling terminal.
pub const NOTTY: u32 = 0xffff_ffff;

/// The 32 bits of `pid` read as a signed number.
pub open spec fn signed_bits(pid: u32) -> i32 {
    if pid <= 0x7fff_ffff {
        pid as i32
    } else {
        (pid - 0x1_0000_0000) as i32
    }
}

/// The keys of the entry of the process `pid`.
pub open spec fn mib_of(pid: u32) -> Seq<i32> {
    seq![CTL_KERN, KERN_PROC, KERN_PROC_PID, signed_bits(pid)]
}

/// The keys of the entry of the process `pid` in the second layout, for one
/// record of `record_size` bytes.
pub open spec fn mib2_of(pid: u32, record_size: i32) -> Seq<i32> {
    seq![CTL_KERN, KERN_PROC2, KERN_PROC_PID, signed_bits(pid), record_size, 1i32]
}

fn pid_key(pid: u32) -> (key: i32)
    ensures
        key == signed_bits(pid),
{
    if pid <= 0x7fff_ffff {
        pid as i32
    } else {
        (pid as i64 - 0x1_0000_0000) as i32
    }
}

/// Builds the keys of the entry of the process `pid`.
pub fn proc_mib(pid: u32) -> (mib: [i32; 4])
    ensures
        mib@ == mib_of(pid),
{
    let mib: [i32; 4] = [CTL_KERN, KERN_PROC, KERN_PROC_PID, pid_key(pid)];
    assert(mib@ =~= mib_of(pid));
    mib
}

/// Builds the keys of the entry of the process `pid` in the second layout,
/// for one record of `record_size` bytes.
pub fn proc2_mib(pid: u32, record_size: i32) -> (mib: [i32; 6])
    ensures
        mib@ == mib2_of(pid, record_size),
{
    let mib: [i32; 6] = [CTL_KERN, KERN_PROC2, KERN_PROC_PID, pid_key(pid), record_size, 1];
    assert(mib@ =~= mib2_of(pid, record_size));
    mib
}

/// The size of the buffer that follows one of `size` bytes: a tenth more.
pub open spec fn grown_by_tenth(size: nat) -> nat {
    size + size / 10
}

/// What a table query waits for.
#[derive(Clone, Copy, Debug, PartialEq, Eq, Structural)]
pub enum TablePhase {
    /// For the kernel to fill a buffer of the current size.
    Asking,
    /// For nothing: the buffer holds the entry.
    Filled,
    /// For nothing: the query failed.
    Failed(Error),
}

/// What came of one attempt to have the buffer filled.
#[derive(Clone, Copy, Debug, PartialEq, Eq, Structural)]
pub enum TableReply {
    /// The kernel filled the buffer.
    Filled,
    /// The buffer of the size asked for could not be had.
    NoBuffer,
    /// The kernel refused with this raw error code.
    Refused(i32),
}

/// A query of the kernel's process table: the size of the buffer to offer, and
/// what the query waits for.
#[derive(Clone, Copy, Debug, PartialEq, Eq, Structural)]
pub struct TableQuery {
    /// The size of the buffer to offer.
    pub size: usize,
    /// What the query waits for.
    pub phase: TablePhase,
}

/// The state in which the query for a record of `record_size` bytes starts:
/// the first buffer offered has the size of the record; it grows only when
/// the kernel has refused it.
pub open spec fn table_start(record_size: usize) -> TableQuery {
    TableQuery { size: record_size, phase: TablePhase::Asking }
}

/// What a reply makes of the query `q`: a buffer too small is answered with a
/// larger one, any other refusal ends the query, and so does a buffer that is
/// not to be had.
pub open spec fn table_next(q: TableQuery, reply: TableReply) -> TableQuery {
    match q.phase {
        TablePhase::Asking => match reply {
            TableReply::Filled => TableQuery { phase: TablePhase::Filled, ..q },
            TableReply::NoBuffer => TableQuery {
                phase: TablePhase::Failed(Error::OutOfMemory),
                ..q
            },
            TableReply::Refused(code) => if code == ENOMEM {
                if grown_by_tenth(q.size as nat) <= usize::MAX {
                    TableQuery { size: grown_by_tenth(q.size as nat) as usize, ..q }
                } else {
                    TableQuery { phase: TablePhase::Failed(Error::OutOfMemory), ..q }
                }
            } else {
                TableQuery { phase: TablePhase::Failed(Error::Os(code)), ..q }
            },
        },
        _ => q,
    }
}

fn grow(size: usize) -> (r: Option<usize>)
    ensures
        r == if grown_by_tenth(size as nat) <= usize::MAX {
            Some(grown_by_tenth(size as nat) as usize)
        } else {
            None
        },
{
    let tenth = size / 10;
    if tenth > usize::MAX - size {
        None
    } else {
        Some(size + tenth)
    }
}

/// Starts the query of the process table for a record of `record_size` bytes.
pub fn proc_info(record_size: usize) -> (q: TableQuery)
    ensures
        q == table_start(record_size),
{
    TableQuery { size: record_size, phase: TablePhase::Asking }
}

impl TableQuery {
    /// Takes what came of the last attempt.
    pub fn step(self, reply: TableReply) -> (q: TableQuery)
        ensures
            q == table_next(self, reply),
    {
        match self.phase {
            TablePhase::Asking => match reply {
                TableReply::Filled => TableQuery { size: self.size, phase: TablePhase::Filled },
                TableReply::NoBuffer => TableQuery {
                    size: self.size,
                    phase: TablePhase::Failed(Error::OutOfMemory),
                },
                TableReply::Refused(code) => {
                    if code == ENOMEM {
                        match grow(self.size) {
                            Some(size) => TableQuery { size, phase: TablePhase::Asking },
                            None => TableQuery {
                                size: self.size,
                                phase: TablePhase::Failed(Error::OutOfMemory),
                            },
                        }
                    } else {
                        TableQuery { size: self.size, phase: TablePhase::Failed(Error::Os(code)) }
                    }
                },
            },
            _ => self,
        }
    }
}

/// The buffers that a query offers only grow: each is at least as large as
/// the one before, and larger where that one held ten bytes or more.
pub proof fn lemma_table_grows(q: TableQuery, reply: TableReply)
    ensures
        table_next(q, reply).size >= q.size,
        q.phase == TablePhase::Asking && reply == TableReply::Refused(ENOMEM) && q.size >= 10
            && table_next(q, reply).phase == TablePhase::Asking ==> table_next(q, reply).size
            > q.size,
{
}

/// What a process says of itself in the kernel's process table. The device
/// number is the kernel's own, taken as it is.
#[derive(Clone, Copy, Debug, PartialEq, Eq, Structural)]
pub struct TableEntry {
    /// The process id.
    pub pid: u32,
    /// The session id.
    pub session: u32,
    /// The device number of the controlling terminal, where the process has one.
    pub tty: Option<u32>,
}

/// The controlling terminal that a terminal number of the process table
/// stands for: none for the number with every bit set.
pub open spec fn table_tty(raw: u32) -> Option<u32> {
    if raw == NOTTY {
        None
    } else {
        Some(raw)
    }
}

/// Puts together what the process table says of the process `pid`.
pub fn table_entry(pid: u32, session: u32, raw_tty: u32) -> (e: TableEntry)
    ensures
        e == (TableEntry { pid, session, tty: table_tty(raw_tty) }),
{
    TableEntry {
        pid,
        session,
        tty: if raw_tty == NOTTY {
            None
        } else {
            Some(raw_tty)
        },
    }
}

/// `/dev/`
pub open spec fn dev_prefix() -> Seq<u8> {
    seq![0x2fu8, 0x64u8, 0x65u8, 0x76u8, 0x2fu8]
}

/// The path of the device node that the system's device database names
/// `name`, with the zero byte that ends it.
pub open spec fn device_path_of(name: Seq<u8>) -> Seq<u8> {
    dev_prefix() + name + seq![0u8]
}

/// Builds the path of a device node from the name that the system's device
/// database gave, or fails with `Error::NotFound` where it gave none.
pub fn device_path(name: Option<&[u8]>) -> (r: Result<Vec<u8>, Error>)
    ensures
        match name {
            Some(n) => r matches Ok(path) && path@ == device_path_of(n@),
            None => r == Err::<Vec<u8>, Error>(Error::NotFound),
        },
{
    match name {
        None => Err(Error::NotFound),
        Some(n) => {
            let mut path: Vec<u8> = Vec::new();
            path.push(0x2f);
            path.push(0x64);
            path.push(0x65);
            path.push(0x76);
            path.push(0x2f);
            path.extend_from_slice(n);
            path.push(0);
            assert(path@ =~= device_path_of(n@));
            Ok(path)
        },
    }
}

/// The path of the controlling terminal of a process, given what the process
/// table says of the process and the name that the device database has for
/// its terminal: none where the process has no controlling terminal, whatever
/// the name; else the path of the node so named.
pub open spec fn terminal_path_of(entry: TableEntry, name: Option<Seq<u8>>) -> Result<
    Option<Seq<u8>>,
    Error,
> {
    match entry.tty {
        None => Ok(None),
        Some(_) => match name {
            Some(n) => Ok(Some(device_path_of(n))),
            None => Err(Error::NotFound),
        },
    }
}

/// Builds the path of the controlling terminal of a process. A process
/// without a controlling terminal is no failure; a terminal that the device
/// database has no name for is `Error::NotFound`.
pub fn terminal_path(entry: &TableEntry, name: Option<&[u8]>) -> (r: Result<
    Option<Vec<u8>>,
    Error,
>)
    ensures
        match terminal_path_of(
            *entry,
            match name {
                Some(n) => Some(n@),
                None => None,
            },
        ) {
            Ok(Some(path)) => r matches Ok(Some(p)) && p@ == path,
            Ok(None) => r matches Ok(None),
            Err(e) => r matches Err(f) && f == e,
        },
{
    match entry.tty {
        None => Ok(None),
        Some(_) => match device_path(name) {
            Ok(path) => Ok(Some(path)),
            Err(e) => Err(e),
        },
    }
}

} // verus!
