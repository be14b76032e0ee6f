//! Byte buffers that grow on request. There are three: one of a fixed size
//! held in place, one that grows as a vector does, and one whose memory is
//! sized exactly to what was asked for.
//!
//! A buffer is a run of bytes, its storage, of which the first `len` are in
//! use. Growing keeps what the storage holds; only `put` changes a byte.

use vstd::prelude::*;
use crate::error::Error;
use crate::text::{absent, first_at};
use crate::trusted::{find_first, release_spare};

verus! {

/// `small` is how `large` begins.
pub open spec fn extends(large: Seq<u8>, small: Seq<u8>) -> bool {
    &&& small.len() <= large.len()
    &&& large.take(small.len() as int) == small
}

/// The bytes of `s` before its first zero byte; all of `s` where it holds none.
pub open spec fn c_str_bytes(s: Seq<u8>) -> Seq<u8> {
    if exists|i: int| first_at(s, 0u8, i) {
        s.take(choose|i: int| first_at(s, 0u8, i))
    } else {
        s
    }
}

/// What growing to `size` bytes makes of the storage `before`: it holds at
/// least `size` bytes and still begins as it did.
pub open spec fn grown(after: Seq<u8>, before: Seq<u8>, size: usize) -> bool {
    &&& after.len() >= size
    &&& extends(after, before)
}

/// The first `len` bytes of `storage`: the bytes in use.
pub open spec fn used(storage: Seq<u8>, len: nat) -> Seq<u8> {
    storage.take(len as int)
}

/// A buffer that can hold directory-entry batches and filesystem paths.
pub trait DirentBuf: Sized {
    /// Every byte that the buffer holds memory for: as many as its capacity.
    spec fn storage(&self) -> Seq<u8>;

    /// The number of bytes in use.
    spec fn spec_len(&self) -> nat;

    /// The most bytes that the buffer can ever hold memory for.
    spec fn bound(&self) -> nat;

    /// Empties the buffer and keeps its memory.
    fn reset(&mut self)
        requires
            old(self).spec_len() <= old(self).storage().len() <= old(self).bound(),
        ensures
            final(self).spec_len() <= final(self).storage().len() <= final(self).bound(),
            final(self).bound() == old(self).bound(),
            final(self).spec_len() == 0,
            final(self).storage() == old(self).storage(),
    ;

    /// Makes room for `size` bytes in all. Fails with `Error::OutOfMemory`,
    /// and changes nothing, where the memory cannot be had: always where
    /// `size` is more than the buffer can ever hold, never where the buffer
    /// has the room already.
    fn reserve(&mut self, size: usize) -> (r: Result<(), Error>)
        requires
            old(self).spec_len() <= old(self).storage().len() <= old(self).bound(),
        ensures
            final(self).spec_len() <= final(self).storage().len() <= final(self).bound(),
            final(self).bound() == old(self).bound(),
            match r {
                Ok(_) => {
                    &&& size <= old(self).bound()
                    &&& final(self).spec_len() == old(self).spec_len()
                    &&& grown(final(self).storage(), old(self).storage(), size)
                },
                Err(e) => {
                    &&& e == Error::OutOfMemory
                    &&& size > old(self).storage().len()
                    &&& final(self).spec_len() == old(self).spec_len()
                    &&& final(self).storage() == old(self).storage()
                },
            },
    ;

    /// The number of bytes that the buffer holds memory for.
    fn capacity(&self) -> (n: usize)
        requires
            self.spec_len() <= self.storage().len() <= self.bound(),
        ensures
            n == self.storage().len(),
    ;

    /// The number of bytes in use.
    fn len(&self) -> (n: usize)
        requires
            self.spec_len() <= self.storage().len() <= self.bound(),
        ensures
            n == self.spec_len(),
    ;

    /// Whether no byte is in use.
    fn is_empty(&self) -> (b: bool)
        requires
            self.spec_len() <= self.storage().len() <= self.bound(),
        ensures
            b == (self.spec_len() == 0),
    {
        self.len() == 0
    }

    /// Declares the first `new_len` bytes of the storage to be in use, whatever
    /// they hold.
    fn set_len(&mut self, new_len: usize)
        requires
            old(self).spec_len() <= old(self).storage().len() <= old(self).bound(),
            new_len <= old(self).storage().len(),
        ensures
            final(self).spec_len() <= final(self).storage().len() <= final(self).bound(),
            final(self).bound() == old(self).bound(),
            final(self).spec_len() == new_len,
            final(self).storage() == old(self).storage(),
    ;

    /// Gives back the memory behind the bytes in use, as far as the kind of
    /// buffer can.
    fn shrink_to_fit(&mut self)
        requires
            old(self).spec_len() <= old(self).storage().len() <= old(self).bound(),
        ensures
            final(self).spec_len() <= final(self).storage().len() <= final(self).bound(),
            final(self).bound() == old(self).bound(),
            final(self).spec_len() == old(self).spec_len(),
            extends(old(self).storage(), final(self).storage()),
    ;

    /// The bytes in use.
    fn as_slice(&self) -> (s: &[u8])
        requires
            self.spec_len() <= self.storage().len() <= self.bound(),
        ensures
            s@ == used(self.storage(), self.spec_len()),
    ;

    /// Writes one byte into the storage, in use or not.
    fn put(&mut self, at: usize, byte: u8)
        requires
            old(self).spec_len() <= old(self).storage().len() <= old(self).bound(),
            at < old(self).storage().len(),
        ensures
            final(self).bound() == old(self).bound(),
            final(self).spec_len() == old(self).spec_len(),
            final(self).storage() == old(self).storage().update(at as int, byte),
    ;

    /// Appends `slice` to the bytes in use, growing the buffer as needed.
    /// Fails with `Error::OutOfMemory`, and leaves the buffer as it was, where
    /// the buffer cannot grow that far: always where the bytes would be more
    /// than the buffer can ever hold, never where it has the room already.
    fn push_slice(&mut self, slice: &[u8]) -> (r: Result<(), Error>)
        requires
            old(self).spec_len() <= old(self).storage().len() <= old(self).bound(),
        ensures
            final(self).spec_len() <= final(self).storage().len() <= final(self).bound(),
            final(self).bound() == old(self).bound(),
            match r {
                Ok(_) => {
                    &&& old(self).spec_len() + slice@.len() <= old(self).bound()
                    &&& used(final(self).storage(), final(self).spec_len()) == used(
                        old(self).storage(),
                        old(self).spec_len(),
                    ) + slice@
                    &&& final(self).storage().len() >= old(self).storage().len()
                },
                Err(e) => {
                    &&& e == Error::OutOfMemory
                    &&& old(self).spec_len() + slice@.len() > old(self).storage().len()
                    &&& final(self).spec_len() == old(self).spec_len()
                    &&& final(self).storage() == old(self).storage()
                },
            },
    {
        let start = self.len();
        let count = slice.len();
        let capacity = self.capacity();
        if count > usize::MAX - start {
            // more bytes than can be counted: more than the capacity, too
            assert(start + count > capacity);
            return Err(Error::OutOfMemory);
        }
        let new_len = start + count;
        match self.reserve(new_len) {
            Ok(_) => {},
            Err(e) => {
                return Err(e);
            },
        }
        let mut i: usize = 0;
        while i < count
            invariant
                self.spec_len() <= self.storage().len() <= self.bound(),
                self.bound() == old(self).bound(),
                i <= count,
                count == slice@.len(),
                new_len == start + count,
                self.spec_len() == start,
                self.storage().len() >= new_len,
                self.storage().len() >= old(self).storage().len(),
                self.storage().take(start as int) == used(
                    old(self).storage(),
                    old(self).spec_len(),
                ),
                forall|k: int| 0 <= k < i ==> self.storage()[start + k] == slice@[k],
            decreases count - i,
        {
            let ghost before = self.storage();
            self.put(start + i, slice[i]);
            assert(self.storage().take(start as int) =~= before.take(start as int));
            i += 1;
        }
        self.set_len(new_len);
        assert(used(self.storage(), self.spec_len()) =~= used(
            old(self).storage(),
            old(self).spec_len(),
        ) + slice@);
        Ok(())
    }

    /// Appends the bytes of `s` that come before its first zero byte, all of
    /// `s` where it holds none; fails as `push_slice` does.
    fn push_c_str(&mut self, s: &[u8]) -> (r: Result<(), Error>)
        requires
            old(self).spec_len() <= old(self).storage().len() <= old(self).bound(),
        ensures
            final(self).spec_len() <= final(self).storage().len() <= final(self).bound(),
            final(self).bound() == old(self).bound(),
            match r {
                Ok(_) => {
                    &&& old(self).spec_len() + c_str_bytes(s@).len() <= old(self).bound()
                    &&& used(final(self).storage(), final(self).spec_len()) == used(
                        old(self).storage(),
                        old(self).spec_len(),
                    ) + c_str_bytes(s@)
                    &&& final(self).storage().len() >= old(self).storage().len()
                },
                Err(e) => {
                    &&& e == Error::OutOfMemory
                    &&& old(self).spec_len() + c_str_bytes(s@).len() > old(self).storage().len()
                    &&& final(self).spec_len() == old(self).spec_len()
                    &&& final(self).storage() == old(self).storage()
                },
            },
    {
        match find_first(0, s) {
            Some(end) => {
                proof {
                    lemma_c_str_bytes(s@, Some(end as int));
                }
                self.push_slice(&s[0..end])
            },
            None => {
                proof {
                    lemma_c_str_bytes(s@, None);
                }
                self.push_slice(s)
            },
        }
    }
}

/// The bytes in use are within the storage, and the storage is within what
/// the buffer can ever hold.
pub open spec fn wf<B: DirentBuf>(buf: &B) -> bool {
    buf.spec_len() <= buf.storage().len() <= buf.bound()
}

/// The bytes in use.
pub open spec fn contents<B: DirentBuf>(buf: &B) -> Seq<u8> {
    used(buf.storage(), buf.spec_len())
}

/// A buffer of a fixed size, held in place: it never allocates, and cannot
/// grow beyond `N` bytes.
pub struct ArrayBuffer<const N: usize> {
    mem: [u8; N],
    len: usize,
}

impl<const N: usize> ArrayBuffer<N> {
    /// An empty buffer with room for `N` bytes.
    pub fn new() -> (buf: Self)
        ensures
            wf(&buf),
            buf.spec_len() == 0,
            buf.storage().len() == N,
            buf.bound() == N,
    {
        ArrayBuffer { mem: [0u8; N], len: 0 }
    }
}

impl<const N: usize> DirentBuf for ArrayBuffer<N> {
    closed spec fn storage(&self) -> Seq<u8> {
        self.mem@
    }

    closed spec fn bound(&self) -> nat {
        N as nat
    }

    closed spec fn spec_len(&self) -> nat {
        self.len as nat
    }

    fn reset(&mut self) {
        self.len = 0;
    }

    /// Succeeds exactly where `size` is at most `N`, and changes nothing.
    fn reserve(&mut self, size: usize) -> (r: Result<(), Error>)
        ensures
            r is Ok <==> size <= N,
            final(self).storage() == old(self).storage(),
    {
        if size > N {
            Err(Error::OutOfMemory)
        } else {
            assert(self.storage().take(self.storage().len() as int) =~= self.storage());
            Ok(())
        }
    }

    fn capacity(&self) -> (n: usize)
        ensures
            n == N,
    {
        N
    }

    fn len(&self) -> (n: usize) {
        self.len
    }

    fn set_len(&mut self, new_len: usize) {
        self.len = new_len;
    }

    /// Changes nothing: the memory is part of the buffer.
    fn shrink_to_fit(&mut self)
        ensures
            final(self).storage() == old(self).storage(),
    {
        assert(self.storage().take(self.storage().len() as int) =~= self.storage());
    }

    fn as_slice(&self) -> (s: &[u8]) {
        let whole: &[u8] = self.mem.as_slice();
        let s = &whole[0..self.len];
        assert(s@ =~= used(self.storage(), self.spec_len()));
        s
    }

    fn put(&mut self, at: usize, byte: u8) {
        self.mem[at] = byte;
    }
}

/// A buffer that grows as far as the allocator lets it, as a vector does.
pub struct VecBuffer {
    mem: Vec<u8>,
    len: usize,
}

impl VecBuffer {
    /// An empty buffer that holds no memory yet.
    pub fn new() -> (buf: Self)
        ensures
            wf(&buf),
            buf.spec_len() == 0,
            buf.storage().len() == 0,
            buf.bound() == usize::MAX,
    {
        VecBuffer { mem: Vec::new(), len: 0 }
    }
}

impl DirentBuf for VecBuffer {
    closed spec fn storage(&self) -> Seq<u8> {
        self.mem@
    }

    closed spec fn bound(&self) -> nat {
        usize::MAX as nat
    }

    closed spec fn spec_len(&self) -> nat {
        self.len as nat
    }

    fn reset(&mut self) {
        self.len = 0;
    }

    /// Where `size` is more than the buffer holds, asks the allocator for the
    /// room that lacks; it is the allocator that decides whether that
    /// succeeds. The storage then holds exactly `size` bytes.
    fn reserve(&mut self, size: usize) -> (r: Result<(), Error>)
        ensures
            r is Ok ==> final(self).storage().len() == if size > old(self).storage().len() {
                size as nat
            } else {
                old(self).storage().len()
            },
    {
        let capacity = self.mem.len();
        if size > capacity {
            if self.mem.try_reserve(size - capacity).is_err() {
                return Err(Error::OutOfMemory);
            }
            self.mem.resize(size, 0);
            proof {
                lemma_prefix_extends(self.storage(), old(self).storage());
            }
        } else {
            assert(self.storage().take(self.storage().len() as int) =~= self.storage());
        }
        Ok(())
    }

    fn capacity(&self) -> (n: usize) {
        self.mem.len()
    }

    fn len(&self) -> (n: usize) {
        self.len
    }

    fn set_len(&mut self, new_len: usize) {
        self.len = new_len;
    }

    /// Gives back all the memory behind the bytes in use.
    fn shrink_to_fit(&mut self)
        ensures
            final(self).storage().len() == old(self).spec_len(),
    {
        self.mem.truncate(self.len);
        release_spare(&mut self.mem);
        proof {
            lemma_prefix_extends(old(self).storage(), self.storage());
        }
    }

    fn as_slice(&self) -> (s: &[u8]) {
        let whole: &[u8] = self.mem.as_slice();
        let s = &whole[0..self.len];
        assert(s@ =~= used(self.storage(), self.spec_len()));
        s
    }

    fn put(&mut self, at: usize, byte: u8) {
        self.mem[at] = byte;
    }
}

/// A buffer whose memory is asked for, resized and given back explicitly: it
/// holds exactly as much as the last successful request said, and none before
/// the first.
pub struct CBuffer {
    mem: Vec<u8>,
    len: usize,
}

impl CBuffer {
    /// An empty buffer that holds no memory yet.
    pub fn new() -> (buf: Self)
        ensures
            wf(&buf),
            buf.spec_len() == 0,
            buf.storage().len() == 0,
            buf.bound() == usize::MAX,
    {
        CBuffer { mem: Vec::new(), len: 0 }
    }
}

impl Default for CBuffer {
    fn default() -> (buf: Self)
        ensures
            wf(&buf),
            buf.spec_len() == 0,
            buf.storage().len() == 0,
            buf.bound() == usize::MAX,
    {
        CBuffer::new()
    }
}

impl DirentBuf for CBuffer {
    closed spec fn storage(&self) -> Seq<u8> {
        self.mem@
    }

    closed spec fn bound(&self) -> nat {
        usize::MAX as nat
    }

    closed spec fn spec_len(&self) -> nat {
        self.len as nat
    }

    fn reset(&mut self) {
        self.len = 0;
    }

    /// Where `size` is more than the buffer holds, asks the allocator for
    /// exactly `size` bytes in all; it is the allocator that decides whether
    /// that succeeds.
    fn reserve(&mut self, size: usize) -> (r: Result<(), Error>)
        ensures
            r is Ok ==> final(self).storage().len() == if size > old(self).storage().len() {
                size as nat
            } else {
                old(self).storage().len()
            },
    {
        let capacity = self.mem.len();
        if size > capacity {
            if self.mem.try_reserve(size - capacity).is_err() {
                return Err(Error::OutOfMemory);
            }
            self.mem.resize(size, 0);
            proof {
                lemma_prefix_extends(self.storage(), old(self).storage());
            }
        } else {
            assert(self.storage().take(self.storage().len() as int) =~= self.storage());
        }
        Ok(())
    }

    fn capacity(&self) -> (n: usize) {
        self.mem.len()
    }

    fn len(&self) -> (n: usize) {
        self.len
    }

    fn set_len(&mut self, new_len: usize) {
        self.len = new_len;
    }

    /// Resizes the memory to exactly the bytes in use.
    fn shrink_to_fit(&mut self)
        ensures
            final(self).storage().len() == old(self).spec_len(),
    {
        self.mem.truncate(self.len);
        release_spare(&mut self.mem);
        proof {
            lemma_prefix_extends(old(self).storage(), self.storage());
        }
    }

    fn as_slice(&self) -> (s: &[u8]) {
        let whole: &[u8] = self.mem.as_slice();
        let s = &whole[0..self.len];
        assert(s@ =~= used(self.storage(), self.spec_len()));
        s
    }

    fn put(&mut self, at: usize, byte: u8) {
        self.mem[at] = byte;
    }
}

/// A storage whose first bytes are those of another begins as the other did.
proof fn lemma_prefix_extends(large: Seq<u8>, small: Seq<u8>)
    requires
        small.len() <= large.len(),
        large.subrange(0, small.len() as int) == small,
    ensures
        extends(large, small),
{
    assert(large.take(small.len() as int) =~= large.subrange(0, small.len() as int));
}

/// A storage that begins as another did holds the same bytes in use: growing
/// a buffer keeps them, and so does giving memory back behind them.
pub proof fn lemma_extension_keeps_used(small: Seq<u8>, large: Seq<u8>, len: nat)
    requires
        len <= small.len(),
        extends(large, small),
    ensures
        used(large, len) == used(small, len),
{
    assert forall|i: int| 0 <= i < len implies used(large, len)[i] == used(small, len)[i] by {
        assert(large.take(small.len() as int)[i] == large[i]);
    }
    assert(used(large, len) =~= used(small, len));
}

/// Growing a buffer and then writing into the room that was asked for leaves
/// every other byte that was in use as it was: where a buffer with `len`
/// bytes in use and the storage `before` is grown to `size` bytes, and a byte
/// is then put at `at`, below `size`, each byte in use but the one at `at` is
/// what it was. This holds of every buffer, whatever its form, since each
/// grows and writes as `reserve` and `put` say.
pub proof fn lemma_reserve_then_put_keeps(
    before: Seq<u8>,
    len: nat,
    after: Seq<u8>,
    size: usize,
    at: usize,
    byte: u8,
    kept: int,
)
    requires
        len <= before.len(),
        grown(after, before, size),
        at < size,
        0 <= kept < len,
        kept != at,
    ensures
        used(after.update(at as int, byte), len)[kept] == used(before, len)[kept],
        used(after.update(at as int, byte), len).len() == used(before, len).len(),
{
    lemma_extension_keeps_used(before, after, len);
    assert(used(after, len)[kept] == after[kept]);
}

/// The bytes of a C string end at the first zero byte, however it was found.
pub proof fn lemma_c_str_bytes(s: Seq<u8>, found: Option<int>)
    requires
        match found {
            Some(i) => first_at(s, 0u8, i),
            None => absent(s, 0u8),
        },
    ensures
        c_str_bytes(s) == match found {
            Some(i) => s.take(i),
            None => s,
        },
{
    crate::text::lemma_first_index(s, 0u8, found);
}

} // verus!
