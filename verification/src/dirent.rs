//! The raw records that a batch directory read fills a buffer with.
//!
//! A record is a header of 19 bytes and a name that a zero byte ends: eight
//! bytes of inode number, eight bytes of resume cursor, two bytes of record
//! length, one byte of file type. The numbers are in the byte order of the
//! machine that made the batch.

use vstd::prelude::*;
use vstd::slice::slice_to_vec;
use crate::buffer::c_str_bytes;
use crate::text::absent;
use crate::trusted::{find_first, native_u16};

verus! {

/// The length of a record's header: what comes before the name.
pub const HEADER_LEN: usize = 19;

/// Which end of a number comes first in memory.
#[derive(Clone, Copy, Debug, PartialEq, Eq, Structural)]
pub enum ByteOrder {
    /// The low byte first.
    Little,
    /// The high byte first.
    Big,
}

impl ByteOrder {
    /// The byte order of this machine, told from what it makes of a probe.
    pub(crate) fn native() -> ByteOrder {
        let probe: [u8; 2] = [1, 0];
        ByteOrder::from_probe(native_u16(probe))
    }

    /// The byte order of a machine that makes `value` of the bytes 1 and 0, in
    /// that order: the low byte first where it makes 1 of them, else the high
    /// byte first.
    pub fn from_probe(value: u16) -> (order: ByteOrder)
        ensures
            order == probe_order(value),
            value == 1 || value == 0x100 ==> u16_at(seq![1u8, 0u8], 0, order) == value,
    {
        if value == 1 {
            ByteOrder::Little
        } else {
            ByteOrder::Big
        }
    }
}

/// The byte order under which the bytes 1 and 0, in that order, are the number
/// `value`: the low byte first for 1, the high byte first for any other.
pub open spec fn probe_order(value: u16) -> ByteOrder {
    if value == 1 {
        ByteOrder::Little
    } else {
        ByteOrder::Big
    }
}

/// The file type that a directory entry carries as a hint.
#[derive(Clone, Copy, Debug, PartialEq, Eq, Hash, Structural)]
pub enum DirentFileType {
    /// The entry does not say; a status query must.
    Unknown,
    /// FIFO pipe.
    Fifo,
    /// Character device.
    Character,
    /// Directory.
    Directory,
    /// Block device.
    Block,
    /// Regular file.
    Regular,
    /// Symbolic link.
    Link,
    /// Unix socket.
    Socket,
    /// Whiteout.
    Wht,
}

/// The file type of a filesystem node.
#[derive(Clone, Copy, Debug, PartialEq, Eq, Hash, Structural)]
pub enum FileType {
    /// Block device.
    Block,
    /// Character device.
    Character,
    /// Directory.
    Directory,
    /// FIFO pipe.
    Fifo,
    /// Symbolic link.
    Link,
    /// Regular file.
    Regular,
    /// Unix socket.
    Socket,
    /// None of these.
    Unknown,
}

/// The file type that a type byte of a record stands for.
pub open spec fn kind_of(tag: u8) -> DirentFileType {
    if tag == 1 {
        DirentFileType::Fifo
    } else if tag == 2 {
        DirentFileType::Character
    } else if tag == 4 {
        DirentFileType::Directory
    } else if tag == 6 {
        DirentFileType::Block
    } else if tag == 8 {
        DirentFileType::Regular
    } else if tag == 10 {
        DirentFileType::Link
    } else if tag == 12 {
        DirentFileType::Socket
    } else if tag == 14 {
        DirentFileType::Wht
    } else {
        DirentFileType::Unknown
    }
}

/// The file type of a node as far as an entry's hint tells it: a whiteout
/// tells nothing.
pub open spec fn file_type_of(kind: DirentFileType) -> FileType {
    match kind {
        DirentFileType::Character => FileType::Character,
        DirentFileType::Directory => FileType::Directory,
        DirentFileType::Fifo => FileType::Fifo,
        DirentFileType::Block => FileType::Block,
        DirentFileType::Regular => FileType::Regular,
        DirentFileType::Link => FileType::Link,
        DirentFileType::Socket => FileType::Socket,
        DirentFileType::Unknown => FileType::Unknown,
        DirentFileType::Wht => FileType::Unknown,
    }
}

impl DirentFileType {
    /// Reads the type byte of a record.
    pub fn from_tag(tag: u8) -> (kind: DirentFileType)
        ensures
            kind == kind_of(tag),
    {
        if tag == 1 {
            DirentFileType::Fifo
        } else if tag == 2 {
            DirentFileType::Character
        } else if tag == 4 {
            DirentFileType::Directory
        } else if tag == 6 {
            DirentFileType::Block
        } else if tag == 8 {
            DirentFileType::Regular
        } else if tag == 10 {
            DirentFileType::Link
        } else if tag == 12 {
            DirentFileType::Socket
        } else if tag == 14 {
            DirentFileType::Wht
        } else {
            DirentFileType::Unknown
        }
    }
}

impl From<DirentFileType> for FileType {
    fn from(value: DirentFileType) -> (r: FileType) {
        match value {
            DirentFileType::Character => FileType::Character,
            DirentFileType::Directory => FileType::Directory,
            DirentFileType::Fifo => FileType::Fifo,
            DirentFileType::Block => FileType::Block,
            DirentFileType::Regular => FileType::Regular,
            DirentFileType::Link => FileType::Link,
            DirentFileType::Socket => FileType::Socket,
            _ => FileType::Unknown,
        }
    }
}

impl vstd::std_specs::convert::FromSpecImpl<DirentFileType> for FileType {
    open spec fn obeys_from_spec() -> bool {
        true
    }

    open spec fn from_spec(value: DirentFileType) -> FileType {
        file_type_of(value)
    }
}

/// The number that the two bytes of `s` at `at` hold.
pub open spec fn u16_at(s: Seq<u8>, at: int, order: ByteOrder) -> nat {
    match order {
        ByteOrder::Little => (s[at] + 0x100 * s[at + 1]) as nat,
        ByteOrder::Big => (0x100 * s[at] + s[at + 1]) as nat,
    }
}

/// The number that the eight bytes of `s` at `at` hold.
pub open spec fn u64_at(s: Seq<u8>, at: int, order: ByteOrder) -> nat {
    match order {
        ByteOrder::Little => (s[at] + 0x100 * s[at + 1] + 0x1_0000 * s[at + 2] + 0x100_0000 * s[at
            + 3] + 0x1_0000_0000 * s[at + 4] + 0x100_0000_0000 * s[at + 5] + 0x1_0000_0000_0000
            * s[at + 6] + 0x100_0000_0000_0000 * s[at + 7]) as nat,
        ByteOrder::Big => (s[at + 7] + 0x100 * s[at + 6] + 0x1_0000 * s[at + 5] + 0x100_0000 * s[at
            + 4] + 0x1_0000_0000 * s[at + 3] + 0x100_0000_0000 * s[at + 2] + 0x1_0000_0000_0000
            * s[at + 1] + 0x100_0000_0000_0000 * s[at]) as nat,
    }
}

/// Reads the number that the two bytes of `s` at `at` hold.
pub fn read_u16(s: &[u8], at: usize, order: ByteOrder) -> (r: u16)
    requires
        at + 2 <= s@.len(),
    ensures
        r == u16_at(s@, at as int, order),
{
    let a = s[at] as u16;
    let b = s[at + 1] as u16;
    match order {
        ByteOrder::Little => a + 0x100 * b,
        ByteOrder::Big => 0x100 * a + b,
    }
}

/// Reads the number that the eight bytes of `s` at `at` hold.
pub fn read_u64(s: &[u8], at: usize, order: ByteOrder) -> (r: u64)
    requires
        at + 8 <= s@.len(),
    ensures
        r == u64_at(s@, at as int, order),
{
    let b0 = s[at] as u64;
    let b1 = s[at + 1] as u64;
    let b2 = s[at + 2] as u64;
    let b3 = s[at + 3] as u64;
    let b4 = s[at + 4] as u64;
    let b5 = s[at + 5] as u64;
    let b6 = s[at + 6] as u64;
    let b7 = s[at + 7] as u64;
    match order {
        ByteOrder::Little => b0 + 0x100 * b1 + 0x1_0000 * b2 + 0x100_0000 * b3 + 0x1_0000_0000 * b4
            + 0x100_0000_0000 * b5 + 0x1_0000_0000_0000 * b6 + 0x100_0000_0000_0000 * b7,
        ByteOrder::Big => b7 + 0x100 * b6 + 0x1_0000 * b5 + 0x100_0000 * b4 + 0x1_0000_0000 * b3
            + 0x100_0000_0000 * b2 + 0x1_0000_0000_0000 * b1 + 0x100_0000_0000_0000 * b0,
    }
}

/// What a record says.
pub struct EntryView {
    /// The inode number.
    pub ino: u64,
    /// The cursor that resumes the directory behind this record.
    pub off: u64,
    /// The length of the record.
    pub reclen: u16,
    /// The file type that the record gives as a hint.
    pub kind: DirentFileType,
    /// The name, without the zero byte that ends it.
    pub name: Seq<u8>,
}

/// One directory entry, read out of a batch.
#[derive(Clone, Debug)]
pub struct DirEntry {
    ino: u64,
    off: u64,
    reclen: u16,
    kind: DirentFileType,
    name: Vec<u8>,
}

impl View for DirEntry {
    type V = EntryView;

    closed spec fn view(&self) -> EntryView {
        EntryView {
            ino: self.ino,
            off: self.off,
            reclen: self.reclen,
            kind: self.kind,
            name: self.name@,
        }
    }
}

impl DirEntry {
    /// The inode number of the entry.
    pub fn inode(&self) -> (n: u64)
        ensures
            n == self@.ino,
    {
        self.ino
    }

    /// The cursor that resumes the directory behind this entry.
    pub fn offset(&self) -> (n: u64)
        ensures
            n == self@.off,
    {
        self.off
    }

    /// The file type that the entry gives as a hint.
    pub fn file_type(&self) -> (kind: DirentFileType)
        ensures
            kind == self@.kind,
    {
        self.kind
    }

    /// The name of the entry.
    pub fn name(&self) -> (name: &[u8])
        ensures
            name@ == self@.name,
    {
        self.name.as_slice()
    }

    /// Gives the name up and drops the rest.
    pub fn into_name(self) -> (name: Vec<u8>)
        ensures
            name@ == self@.name,
    {
        self.name
    }

    /// The length of the whole record.
    pub fn len(&self) -> (n: usize)
        ensures
            n == self@.reclen,
    {
        self.reclen as usize
    }

    /// Whether the record has no length at all.
    pub fn is_empty(&self) -> (b: bool)
        ensures
            b == (self@.reclen == 0),
    {
        self.reclen == 0
    }
}

/// The length that the record at `at` claims.
pub open spec fn reclen_at(s: Seq<u8>, at: int, order: ByteOrder) -> nat {
    u16_at(s, at + 16, order)
}

/// The bytes of the record at `at` behind its header.
pub open spec fn name_area(s: Seq<u8>, at: int, order: ByteOrder) -> Seq<u8> {
    s.subrange(at + HEADER_LEN, at + reclen_at(s, at, order))
}

/// A whole record stands at `at`: its header and the length it claims lie
/// within `s`, and a zero byte ends its name.
pub open spec fn record_ok(s: Seq<u8>, at: int, order: ByteOrder) -> bool {
    &&& 0 <= at
    &&& at + HEADER_LEN <= s.len()
    &&& HEADER_LEN <= reclen_at(s, at, order)
    &&& at + reclen_at(s, at, order) <= s.len()
    &&& !absent(name_area(s, at, order), 0u8)
}

/// What the record at `at` says.
pub open spec fn record(s: Seq<u8>, at: int, order: ByteOrder) -> EntryView {
    EntryView {
        ino: u64_at(s, at, order) as u64,
        off: u64_at(s, at + 8, order) as u64,
        reclen: reclen_at(s, at, order) as u16,
        kind: kind_of(s[at + 18]),
        name: c_str_bytes(name_area(s, at, order)),
    }
}

/// Reads the record at `at`, or finds that none stands there whole.
pub fn read_record(s: &[u8], at: usize, order: ByteOrder) -> (r: Option<DirEntry>)
    requires
        at + HEADER_LEN <= s@.len(),
    ensures
        match r {
            Some(e) => record_ok(s@, at as int, order) && e@ == record(s@, at as int, order),
            None => !record_ok(s@, at as int, order),
        },
{
    let total = s.len();
    let reclen = read_u16(s, at + 16, order);
    if (reclen as usize) < HEADER_LEN || reclen as usize > total - at {
        return None;
    }
    let area = &s[at + HEADER_LEN..at + reclen as usize];
    match find_first(0, area) {
        Some(end) => {
            proof {
                crate::buffer::lemma_c_str_bytes(area@, Some(end as int));
            }
            let name = slice_to_vec(&area[0..end]);
            Some(
                DirEntry {
                    ino: read_u64(s, at, order),
                    off: read_u64(s, at + 8, order),
                    reclen,
                    kind: DirentFileType::from_tag(s[at + 18]),
                    name,
                },
            )
        },
        None => None,
    }
}

} // verus!
