//! What is known of a terminal once its node is found.

use vstd::prelude::*;
use crate::buffer::{contents, wf, DirentBuf, VecBuffer};
use crate::dev::{guess_name, Dev};
use crate::dirent::ByteOrder;
use crate::error::Error;
use crate::resolve::{bounded, complete, names, started, Resolver, SLASH};
use crate::text::{absent, last_at, last_index, lemma_last_index};
use crate::trusted::find_last;

verus! {

/// What a `TtyInfo` holds.
pub struct TtyView {
    /// The device number.
    pub dev: Dev,
    /// The path of the node, with the zero byte that ends it.
    pub path: Seq<u8>,
    /// Where in the path its final component starts: the name of the node.
    pub offset: nat,
}

/// A terminal: its device number and the path of its node.
pub struct TtyInfo<B: DirentBuf> {
    dev: Dev,
    buf: B,
    offset: usize,
}

impl<B: DirentBuf> View for TtyInfo<B> {
    type V = TtyView;

    closed spec fn view(&self) -> TtyView {
        TtyView { dev: self.dev, path: contents(&self.buf), offset: self.offset as nat }
    }
}

/// The buffers that are used where none are given: both grow as a vector
/// does, and hold no memory before they are first asked to.
pub fn default_buffers() -> (bufs: (VecBuffer, VecBuffer))
    ensures
        wf(&bufs.0),
        wf(&bufs.1),
        contents(&bufs.0) == Seq::<u8>::empty(),
        bufs.0.storage().len() == 0,
        contents(&bufs.1) == Seq::<u8>::empty(),
        bufs.1.storage().len() == 0,
{
    let dirents = VecBuffer::new();
    let path = VecBuffer::new();
    assert(contents(&dirents) =~= Seq::<u8>::empty());
    assert(contents(&path) =~= Seq::<u8>::empty());
    (dirents, path)
}

/// `/dev`, the directory below which device nodes are looked for by default.
pub open spec fn dev_dir() -> Seq<u8> {
    seq![0x2fu8, 0x64u8, 0x65u8, 0x76u8]
}

/// The candidate directories that are searched by default: `/dev` alone.
pub fn default_paths() -> (dirs: Vec<Vec<u8>>)
    ensures
        names(dirs@) == seq![dev_dir()],
{
    let mut dir: Vec<u8> = Vec::new();
    dir.push(0x2f);
    dir.push(0x64);
    dir.push(0x65);
    dir.push(0x76);
    let mut dirs: Vec<Vec<u8>> = Vec::new();
    dirs.push(dir);
    assert(dirs@[0]@ =~= dev_dir());
    assert(names(dirs@) =~= seq![dev_dir()]);
    dirs
}

/// Where the final component of `path` starts: behind its last separator, and
/// at its start where it holds none.
pub open spec fn name_offset(path: Seq<u8>) -> nat {
    match last_index(path, SLASH) {
        Some(i) => (i + 1) as nat,
        None => 0,
    }
}

/// The final component of a whole path starts behind a separator, lies
/// within the path before the zero byte that ends it, and holds no separator.
pub proof fn lemma_name_offset(path: Seq<u8>)
    requires
        complete(path),
    ensures
        1 <= name_offset(path) <= path.len() - 1,
        last_at(path, SLASH, name_offset(path) - 1),
        absent(path.subrange(name_offset(path) as int, path.len() - 1), SLASH),
{
    let i = choose|i: int| 0 <= i < path.len() && path[i] == SLASH;
    lemma_last_slash(path, i);
    let k = choose|k: int| last_at(path, SLASH, k);
    lemma_last_index(path, SLASH, Some(k));
}

/// Where `path` holds a separator at or before `upto`, one of its separators
/// is the last.
proof fn lemma_last_slash(path: Seq<u8>, upto: int)
    requires
        0 <= upto < path.len(),
        path[upto] == SLASH,
    ensures
        exists|k: int| last_at(path, SLASH, k),
    decreases path.len() - upto,
{
    if exists|j: int| upto < j < path.len() && path[j] == SLASH {
        let j = choose|j: int| upto < j < path.len() && path[j] == SLASH;
        lemma_last_slash(path, j);
    } else {
        assert(last_at(path, SLASH, upto));
    }
}

/// The final component of the path of a node is the name of the node: where
/// `name` holds no separator, the path of `name` below `base`, with the zero
/// byte that ends it, is whole, its final component starts behind `base` and
/// the separator, and is `name`.
pub proof fn lemma_name_of_joined(base: Seq<u8>, name: Seq<u8>)
    requires
        absent(name, SLASH),
    ensures
        complete(crate::resolve::joined(base, name)),
        name_offset(crate::resolve::joined(base, name)) == base.len() + 1,
        crate::resolve::joined(base, name).subrange(
            base.len() as int + 1,
            crate::resolve::joined(base, name).len() - 1,
        ) == name,
{
    let path = crate::resolve::joined(base, name);
    let at = base.len() as int;
    assert(path[at] == SLASH);
    assert forall|j: int| at < j < path.len() implies path[j] != SLASH by {
        if j < path.len() - 1 {
            assert(path[j] == name[j - at - 1]);
        }
    }
    assert(last_at(path, SLASH, at));
    lemma_last_index(path, SLASH, Some(at));
    assert(path.subrange(at + 1, path.len() - 1) =~= name);
}

/// Finds where the final component of `path` starts.
pub fn name_start(path: &[u8]) -> (offset: usize)
    ensures
        offset == name_offset(path@),
{
    let len = path.len();
    let found = find_last(SLASH, path);
    proof {
        lemma_last_index(
            path@,
            SLASH,
            match found {
                Some(i) => Some(i as int),
                None => None,
            },
        );
    }
    match found {
        Some(i) => i + 1,
        None => 0,
    }
}

impl<B: DirentBuf> TtyInfo<B> {
    /// The path is whole: it holds a separator and ends in a zero byte, and
    /// the name starts behind the last separator.
    pub closed spec fn wf(&self) -> bool {
        &&& wf(&self.buf)
        &&& complete(contents(&self.buf))
        &&& self.offset == name_offset(contents(&self.buf))
    }

    pub(crate) fn assemble(dev: Dev, buf: B, offset: usize) -> (t: Self)
        requires
            wf(&buf),
            complete(contents(&buf)),
            offset == name_offset(contents(&buf)),
        ensures
            t.wf(),
            t@ == (TtyView { dev, path: contents(&buf), offset: offset as nat }),
    {
        TtyInfo { dev, buf, offset }
    }

    /// The device number.
    pub fn device(&self) -> (dev: Dev)
        ensures
            dev == self@.dev,
    {
        self.dev
    }

    /// The full path of the node, without the zero byte that ends it.
    pub fn path(&self) -> (path: &[u8])
        requires
            self.wf(),
        ensures
            path@ == self@.path.drop_last(),
    {
        let all = self.buf.as_slice();
        let end = all.len() - 1;
        &all[0..end]
    }

    /// The path of the node with the zero byte that ends it, as it is handed
    /// to the operating system.
    pub fn path_with_nul(&self) -> (path: &[u8])
        requires
            self.wf(),
        ensures
            path@ == self@.path,
    {
        self.buf.as_slice()
    }

    /// The name of the node: the final component of its path, without the
    /// zero byte that ends it.
    pub fn name(&self) -> (name: &[u8])
        requires
            self.wf(),
        ensures
            self@.offset == name_offset(self@.path),
            name@ == self@.path.subrange(self@.offset as int, self@.path.len() - 1),
            absent(name@, SLASH),
    {
        proof {
            lemma_name_offset(contents(&self.buf));
        }
        let all = self.buf.as_slice();
        let end = all.len() - 1;
        &all[self.offset..end]
    }

    /// Starts the search for the terminal with the device number `rdev` below
    /// the directories `dirs`, with `dirent_buf` to hold entry batches and
    /// `path_buf` to hold the path.
    ///
    /// Fails with `Error::NotATerminal`, without asking for anything, exactly
    /// where the class of `rdev` is not one of a terminal.
    pub fn by_device_with_buffers_in<B1: DirentBuf>(
        rdev: Dev,
        dirs: Vec<Vec<u8>>,
        dirent_buf: B1,
        path_buf: B,
    ) -> (r: Result<Resolver<B1, B>, Error>)
        requires
            wf(&dirent_buf),
            wf(&path_buf),
        ensures
            match r {
                Ok(m) => m.wf() && bounded(m@) && started(
                    m@,
                    rdev,
                    names(dirs@),
                    contents(&dirent_buf),
                    dirent_buf.storage().len(),
                    contents(&path_buf),
                    path_buf.storage().len(),
                ),
                Err(e) => e == Error::NotATerminal && guess_name(rdev) is None,
            },
    {
        Resolver::new(rdev, dirs, ByteOrder::native(), dirent_buf, path_buf)
    }

    /// As `by_device_with_buffers_in`, below `/dev`.
    pub fn by_device_with_buffers<B1: DirentBuf>(rdev: Dev, buf: B1, path: B) -> (r: Result<
        Resolver<B1, B>,
        Error,
    >)
        requires
            wf(&buf),
            wf(&path),
        ensures
            match r {
                Ok(m) => m.wf() && bounded(m@) && started(
                    m@,
                    rdev,
                    seq![dev_dir()],
                    contents(&buf),
                    buf.storage().len(),
                    contents(&path),
                    path.storage().len(),
                ),
                Err(e) => e == Error::NotATerminal && guess_name(rdev) is None,
            },
    {
        Self::by_device_with_buffers_in(rdev, default_paths(), buf, path)
    }
}

impl TtyInfo<VecBuffer> {
    /// As `by_device_with_buffers_in`, with buffers that grow as needed.
    pub fn by_device_in(rdev: Dev, dirs: Vec<Vec<u8>>) -> (r: Result<
        Resolver<VecBuffer, VecBuffer>,
        Error,
    >)
        ensures
            match r {
                Ok(m) => m.wf() && bounded(m@) && started(
                    m@,
                    rdev,
                    names(dirs@),
                    Seq::empty(),
                    0,
                    Seq::empty(),
                    0,
                ),
                Err(e) => e == Error::NotATerminal && guess_name(rdev) is None,
            },
    {
        let (dirents, path) = default_buffers();
        Self::by_device_with_buffers_in(rdev, dirs, dirents, path)
    }

    /// As `by_device_with_buffers_in`, below `/dev` and with buffers that grow
    /// as needed.
    pub fn by_device(rdev: Dev) -> (r: Result<Resolver<VecBuffer, VecBuffer>, Error>)
        ensures
            match r {
                Ok(m) => m.wf() && bounded(m@) && started(
                    m@,
                    rdev,
                    seq![dev_dir()],
                    Seq::empty(),
                    0,
                    Seq::empty(),
                    0,
                ),
                Err(e) => e == Error::NotATerminal && guess_name(rdev) is None,
            },
    {
        Self::by_device_in(rdev, default_paths())
    }
}

} // verus!
