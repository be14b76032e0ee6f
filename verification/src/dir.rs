//! Open directories and the stream of entries read from one.
//!
//! A stream takes its entries from the batch that the buffer holds. When the
//! batch is used up it asks for the next; when the buffer is too small for one
//! record it grows the buffer by half and asks again. The cursor that resumes
//! the directory behind the last entry lives on the handle, so that a new
//! stream over the same handle goes on where the last one stopped.

use vstd::prelude::*;
use crate::buffer::{contents, wf, DirentBuf};
use crate::dirent::{
    read_record, reclen_at, record, record_ok, ByteOrder, DirEntry, EntryView, HEADER_LEN,
};
use crate::error::{is_transient, transient, Error, EINVAL};
use crate::os::{Action, Reply};

verus! {

/// What a directory handle holds.
pub struct DirView {
    /// The descriptor.
    pub fd: i32,
    /// The cursor behind the last entry taken; zero before the first.
    pub tell: u64,
    /// The byte order of the records read through the handle.
    pub order: ByteOrder,
}

/// An open directory. The handle owns its descriptor: whoever holds the handle
/// closes the descriptor, once.
#[derive(Debug)]
pub struct Dir {
    fd: i32,
    tell: u64,
    order: ByteOrder,
}

impl View for Dir {
    type V = DirView;

    closed spec fn view(&self) -> DirView {
        DirView { fd: self.fd, tell: self.tell, order: self.order }
    }
}

/// The state of a stream.
pub struct IterView {
    /// Where in the batch the next record starts.
    pub offset: nat,
    /// Whether the position of the descriptor has yet to be set to the cursor
    /// of the handle.
    pub seek: bool,
    /// Whether the directory has been read to its end.
    pub ended: bool,
}

/// A stream of the entries of one directory.
#[derive(Clone, Copy, Debug)]
pub struct DirIterator {
    offset: usize,
    seek: bool,
    ended: bool,
}

impl View for DirIterator {
    type V = IterView;

    closed spec fn view(&self) -> IterView {
        IterView { offset: self.offset as nat, seek: self.seek, ended: self.ended }
    }
}

/// What a stream hands out when asked for the next entry.
#[derive(Debug)]
pub enum Next {
    /// The next entry.
    Entry(DirEntry),
    /// The stream needs this done before it can go on.
    Ask(Action),
    /// The directory has no more entries.
    End,
    /// The batch holds no whole record where one must start.
    Fail(Error),
}

/// What `Next` says.
pub enum NextView {
    Entry(EntryView),
    Ask(Action),
    End,
    Fail(Error),
}

impl View for Next {
    type V = NextView;

    open spec fn view(&self) -> NextView {
        match self {
            Next::Entry(e) => NextView::Entry(e@),
            Next::Ask(a) => NextView::Ask(*a),
            Next::End => NextView::End,
            Next::Fail(e) => NextView::Fail(*e),
        }
    }
}

/// The batch `data` holds a header's worth of bytes at the offset of `it`.
pub open spec fn has_buffered(it: IterView, data: Seq<u8>) -> bool {
    it.offset + HEADER_LEN <= data.len()
}

/// What a stream in state `it` over `dir` hands out next, with the batch
/// `data` in a buffer of `capacity` bytes, and the states that it leaves.
pub open spec fn next_of(it: IterView, dir: DirView, data: Seq<u8>, capacity: nat) -> (
    NextView,
    IterView,
    DirView,
) {
    if it.ended {
        (NextView::End, it, dir)
    } else if has_buffered(it, data) {
        if record_ok(data, it.offset as int, dir.order) {
            let e = record(data, it.offset as int, dir.order);
            (
                NextView::Entry(e),
                IterView { offset: (it.offset + e.reclen) as nat, ..it },
                DirView { tell: e.off, ..dir },
            )
        } else {
            (NextView::Fail(Error::InvalidData), it, dir)
        }
    } else if it.seek {
        (NextView::Ask(Action::Seek { fd: dir.fd, offset: dir.tell }), it, dir)
    } else {
        (NextView::Ask(Action::ReadDir { fd: dir.fd, capacity: capacity as usize }), it, dir)
    }
}

/// The room that a record of the longest name takes: a buffer of this size
/// holds any one record.
pub const RECORD_ROOM: usize = 280;

/// The capacity that a buffer of `capacity` bytes is grown to when it is too
/// small for one record: half as much again, and at least the room of one
/// record, so that the buffer grows whatever it held.
pub open spec fn grown_capacity(capacity: nat) -> nat {
    if capacity + capacity / 2 < RECORD_ROOM {
        RECORD_ROOM as nat
    } else {
        capacity + capacity / 2
    }
}

/// A buffer that is grown is larger than it was.
pub proof fn lemma_growth_is_strict(capacity: nat)
    ensures
        grown_capacity(capacity) > capacity,
{
}

/// What a reply does to a stream in state `it` with the batch `data`, where
/// memory is to be had: the state and the batch that it leaves, and whether
/// the stream goes on.
pub open spec fn supplied_of(it: IterView, data: Seq<u8>, reply: Reply) -> (
    IterView,
    Seq<u8>,
    Result<(), Error>,
) {
    if it.ended || has_buffered(it, data) {
        (it, data, Ok(()))
    } else if it.seek {
        match reply {
            Reply::Sought => (IterView { seek: false, ..it }, data, Ok(())),
            Reply::Failed(code) => if is_transient(code) {
                (it, data, Ok(()))
            } else {
                (it, data, Err(Error::Os(code)))
            },
            _ => (it, data, Ok(())),
        }
    } else {
        match reply {
            Reply::Data(bytes) => (
                IterView { offset: 0, seek: false, ended: bytes@.len() < HEADER_LEN },
                bytes@,
                Ok(()),
            ),
            Reply::Failed(code) => if is_transient(code) {
                (it, data, Ok(()))
            } else if code == EINVAL {
                (it, Seq::empty(), Ok(()))
            } else {
                (it, data, Err(Error::Os(code)))
            },
            _ => (it, data, Ok(())),
        }
    }
}

/// The stream in state `it` waits for a batch: it has not ended, holds no
/// record to hand out, and needs no seek first.
pub open spec fn reading(it: IterView, data: Seq<u8>) -> bool {
    !it.ended && !has_buffered(it, data) && !it.seek
}

/// The capacity that a reply asks of the buffer of a stream in state `it`.
pub open spec fn capacity_asked(it: IterView, data: Seq<u8>, capacity: nat, reply: Reply) -> nat {
    if it.ended || has_buffered(it, data) || it.seek {
        0
    } else {
        match reply {
            Reply::Data(bytes) => bytes@.len(),
            Reply::Failed(code) => if code == EINVAL {
                grown_capacity(capacity)
            } else {
                0
            },
            _ => 0,
        }
    }
}

/// The entries that a stream hands out of the batch `s` from `at` on, before
/// it asks for more or finds a malformed record.
pub open spec fn entries(s: Seq<u8>, at: int, order: ByteOrder) -> Seq<EntryView>
    decreases s.len() - at,
{
    if record_ok(s, at, order) {
        seq![record(s, at, order)] + entries(s, at + reclen_at(s, at, order), order)
    } else {
        Seq::empty()
    }
}

/// From `at` on, `s` is made of whole records and nothing else.
pub open spec fn whole(s: Seq<u8>, at: int, order: ByteOrder) -> bool
    decreases s.len() - at,
{
    at == s.len() || (record_ok(s, at, order) && whole(
        s,
        at + reclen_at(s, at, order),
        order,
    ))
}

/// A stream hands out the entries of its batch one by one and in order: what
/// `next` gives is the first of `entries`, and what is left is the rest.
pub proof fn lemma_next_takes_first(it: IterView, dir: DirView, data: Seq<u8>, capacity: nat)
    requires
        !it.ended,
    ensures
        match next_of(it, dir, data, capacity) {
            (NextView::Entry(e), after, _) => entries(data, it.offset as int, dir.order) == seq![e]
                + entries(data, after.offset as int, dir.order),
            _ => entries(data, it.offset as int, dir.order) == Seq::<EntryView>::empty(),
        },
{
}

proof fn lemma_record_in_front(a: Seq<u8>, b: Seq<u8>, at: int, order: ByteOrder)
    requires
        record_ok(a, at, order),
    ensures
        record_ok(a + b, at, order),
        record(a + b, at, order) == record(a, at, order),
        reclen_at(a + b, at, order) == reclen_at(a, at, order),
{
    let n = reclen_at(a, at, order);
    assert(crate::dirent::name_area(a + b, at, order) =~= crate::dirent::name_area(a, at, order));
}

proof fn lemma_record_behind(a: Seq<u8>, b: Seq<u8>, at: int, order: ByteOrder)
    requires
        0 <= at,
        at + HEADER_LEN <= b.len(),
    ensures
        record_ok(a + b, a.len() + at, order) == record_ok(b, at, order),
        record_ok(b, at, order) ==> record(a + b, a.len() + at, order) == record(b, at, order),
        reclen_at(a + b, a.len() + at, order) == reclen_at(b, at, order),
{
    let n = reclen_at(b, at, order);
    if HEADER_LEN <= n && at + n <= b.len() {
        assert(crate::dirent::name_area(a + b, a.len() + at, order) =~= crate::dirent::name_area(
            b,
            at,
            order,
        ));
    }
}

proof fn lemma_entries_behind(a: Seq<u8>, b: Seq<u8>, at: int, order: ByteOrder)
    requires
        0 <= at,
    ensures
        entries(a + b, a.len() + at, order) == entries(b, at, order),
    decreases b.len() - at,
{
    if at + HEADER_LEN <= b.len() {
        lemma_record_behind(a, b, at, order);
        if record_ok(b, at, order) {
            lemma_entries_behind(a, b, at + reclen_at(b, at, order), order);
        }
    }
}

proof fn lemma_entries_unfold(s: Seq<u8>, at: int, order: ByteOrder)
    ensures
        record_ok(s, at, order) ==> entries(s, at, order) == seq![record(s, at, order)] + entries(
            s,
            at + reclen_at(s, at, order),
            order,
        ),
        !record_ok(s, at, order) ==> entries(s, at, order) == Seq::<EntryView>::empty(),
{
}

proof fn lemma_whole_unfold(s: Seq<u8>, at: int, order: ByteOrder)
    requires
        whole(s, at, order),
        0 <= at,
    ensures
        at == s.len() ==> !record_ok(s, at, order),
        at != s.len() ==> record_ok(s, at, order) && whole(
            s,
            at + reclen_at(s, at, order),
            order,
        ) && at < at + reclen_at(s, at, order) <= s.len(),
{
}

proof fn lemma_entries_join(a: Seq<u8>, b: Seq<u8>, at: int, order: ByteOrder)
    requires
        0 <= at <= a.len(),
        whole(a, at, order),
    ensures
        entries(a + b, at, order) == entries(a, at, order) + entries(b, 0, order),
    decreases a.len() - at,
{
    lemma_whole_unfold(a, at, order);
    lemma_entries_unfold(a, at, order);
    if at == a.len() {
        lemma_entries_behind(a, b, 0, order);
        assert(Seq::<EntryView>::empty() + entries(b, 0, order) =~= entries(b, 0, order));
    } else {
        lemma_record_in_front(a, b, at, order);
        lemma_entries_unfold(a + b, at, order);
        let next = at + reclen_at(a, at, order);
        lemma_entries_join(a, b, next, order);
        let first = seq![record(a, at, order)];
        let rest = entries(a, next, order);
        let tail = entries(b, 0, order);
        assert(first + (rest + tail) =~= (first + rest) + tail);
    }
}

/// A directory read in several batches yields the entries that one read of
/// all of it would: where the batch `a` is made of whole records, the entries
/// of `a` followed by those of `b` are the entries of both in one batch, none
/// twice and none left out.
pub proof fn lemma_batches_join(a: Seq<u8>, b: Seq<u8>, order: ByteOrder)
    requires
        whole(a, 0, order),
    ensures
        entries(a + b, 0, order) == entries(a, 0, order) + entries(b, 0, order),
{
    lemma_entries_join(a, b, 0, order);
}

/// The bytes that the batches among `answers` hold, one after the other.
pub open spec fn batches_of(answers: Seq<Reply>) -> Seq<u8>
    decreases answers.len(),
{
    if answers.len() == 0 {
        Seq::empty()
    } else {
        match answers[0] {
            Reply::Data(bytes) => bytes@ + batches_of(answers.skip(1)),
            _ => batches_of(answers.skip(1)),
        }
    }
}

/// Each of `answers` is one that a read gives while a directory lasts: a batch
/// of whole records, at least one; the refusal of a buffer too small for one
/// record; or a transient failure.
pub open spec fn lasting(answers: Seq<Reply>, order: ByteOrder) -> bool {
    forall|i: int|
        0 <= i < answers.len() ==> match #[trigger] answers[i] {
            Reply::Data(bytes) => bytes@.len() > 0 && whole(bytes@, 0, order),
            Reply::Failed(code) => code == EINVAL || is_transient(code),
            _ => false,
        }
}

/// The entries that a stream hands out, one `next` after the other, while its
/// requests are answered by `answers` in turn: those of the batch that it
/// holds, then those of each batch that it is given, until the answers are
/// used up or the stream stops for another reason.
pub open spec fn yielded(it: IterView, dir: DirView, data: Seq<u8>, answers: Seq<Reply>) -> Seq<
    EntryView,
>
    decreases answers.len(), data.len() - it.offset,
{
    let (next, after, left) = next_of(it, dir, data, 0);
    match next {
        NextView::Entry(e) => seq![e] + yielded(after, left, data, answers),
        NextView::Ask(_) => if answers.len() == 0 {
            Seq::empty()
        } else {
            let (fed, batch, r) = supplied_of(it, data, answers[0]);
            if r is Ok {
                yielded(fed, dir, batch, answers.skip(1))
            } else {
                Seq::empty()
            }
        },
        _ => Seq::empty(),
    }
}

proof fn lemma_yielded_from(it: IterView, dir: DirView, data: Seq<u8>, answers: Seq<Reply>)
    requires
        !it.ended,
        !it.seek,
        whole(data, it.offset as int, dir.order) || it.offset >= data.len(),
        lasting(answers, dir.order),
    ensures
        yielded(it, dir, data, answers) == entries(data, it.offset as int, dir.order) + entries(
            batches_of(answers),
            0,
            dir.order,
        ),
    decreases answers.len(), data.len() - it.offset,
{
    let order = dir.order;
    let none = Seq::<EntryView>::empty();
    lemma_entries_unfold(data, it.offset as int, order);
    if it.offset >= data.len() {
        assert(!record_ok(data, it.offset as int, order));
        if answers.len() == 0 {
            lemma_entries_unfold(batches_of(answers), 0, order);
            assert(none + none =~= none);
        } else {
            let rest = answers.skip(1);
            assert forall|i: int| 0 <= i < rest.len() implies match #[trigger] rest[i] {
                Reply::Data(bytes) => bytes@.len() > 0 && whole(bytes@, 0, order),
                Reply::Failed(code) => code == EINVAL || is_transient(code),
                _ => false,
            } by {
                assert(rest[i] == answers[i + 1]);
            }
            let first = answers[0];
            let (fed, batch, r) = supplied_of(it, data, first);
            match first {
                Reply::Data(bytes) => {
                    lemma_whole_unfold(bytes@, 0, order);
                    lemma_yielded_from(fed, dir, batch, rest);
                    lemma_batches_join(bytes@, batches_of(rest), order);
                    assert(none + (entries(bytes@, 0, order) + entries(batches_of(rest), 0, order))
                        =~= entries(bytes@, 0, order) + entries(batches_of(rest), 0, order));
                },
                _ => {
                    lemma_yielded_from(fed, dir, batch, rest);
                    lemma_entries_unfold(batch, fed.offset as int, order);
                },
            }
        }
    } else {
        lemma_whole_unfold(data, it.offset as int, order);
        let (next, after, left) = next_of(it, dir, data, 0);
        lemma_yielded_from(after, left, data, answers);
        let first = seq![record(data, it.offset as int, order)];
        let more = entries(data, after.offset as int, order);
        let tail = entries(batches_of(answers), 0, order);
        assert(first + (more + tail) =~= (first + more) + tail);
    }
}

/// A directory that is read in more batches than one, because the buffer is
/// small, yields the entries that one read of all of it would, each once and
/// in their order: where a new stream over a directory that nothing was taken
/// from has its reads answered by batches of whole records, with refusals of
/// a buffer too small and transient failures among them, what it hands out
/// are the entries of all the batches put together.
pub proof fn lemma_stream_yields_directory(dir: DirView, answers: Seq<Reply>)
    requires
        dir.tell == 0,
        lasting(answers, dir.order),
    ensures
        yielded(fresh(dir), dir, Seq::empty(), answers) == entries(
            batches_of(answers),
            0,
            dir.order,
        ),
{
    lemma_yielded_from(fresh(dir), dir, Seq::empty(), answers);
    lemma_entries_unfold(Seq::<u8>::empty(), 0, dir.order);
    let all = entries(batches_of(answers), 0, dir.order);
    assert(Seq::<EntryView>::empty() + all =~= all);
}

/// Growing the buffer costs no entry: a read refused as invalid leaves the
/// stream and the handle where they were, and the stream asks for the same
/// batch again.
pub proof fn lemma_growth_repeats_read(it: IterView, dir: DirView, data: Seq<u8>, capacity: nat)
    requires
        !it.ended,
        !it.seek,
        !has_buffered(it, data),
    ensures
        supplied_of(it, data, Reply::Failed(EINVAL)) == (
            it,
            Seq::<u8>::empty(),
            Ok::<(), Error>(()),
        ),
        next_of(it, dir, Seq::empty(), grown_capacity(capacity)) == (
            NextView::Ask(
                Action::ReadDir { fd: dir.fd, capacity: grown_capacity(capacity) as usize },
            ),
            it,
            dir,
        ),
{
}

/// The state of a new stream over `dir`.
pub open spec fn fresh(dir: DirView) -> IterView {
    IterView { offset: 0, seek: dir.tell != 0, ended: false }
}

/// A stream that takes an entry leaves the cursor of that entry on the handle,
/// and a new stream over the handle first asks for the position to be set to
/// that cursor, and for a batch only when that is done. So the new stream goes
/// on behind the last entry taken, whatever was read through other handles in
/// between.
pub proof fn lemma_resume_behind_last(
    it: IterView,
    dir: DirView,
    data: Seq<u8>,
    capacity: nat,
    later_capacity: nat,
)
    requires
        !it.ended,
        has_buffered(it, data),
        record_ok(data, it.offset as int, dir.order),
        record(data, it.offset as int, dir.order).off != 0,
    ensures
        ({
            let e = record(data, it.offset as int, dir.order);
            let (taken, _, left) = next_of(it, dir, data, capacity);
            let asked = next_of(fresh(left), left, Seq::empty(), later_capacity);
            let sought = supplied_of(fresh(left), Seq::empty(), Reply::Sought);
            &&& taken == NextView::Entry(e)
            &&& left == (DirView { tell: e.off, ..dir })
            &&& asked == (
                NextView::Ask(Action::Seek { fd: dir.fd, offset: e.off }),
                fresh(left),
                left,
            )
            &&& sought == (
                IterView { seek: false, ..fresh(left) },
                Seq::<u8>::empty(),
                Ok::<(), Error>(()),
            )
            &&& next_of(sought.0, left, Seq::empty(), later_capacity).0 == NextView::Ask(
                Action::ReadDir { fd: dir.fd, capacity: later_capacity as usize },
            )
        }),
{
}

/// How many entries of the directory `d` lie before the place that `cursor`
/// stands for: none for the cursor zero, else all up to the first entry that
/// carries the cursor.
pub open spec fn resume_index(d: Seq<EntryView>, cursor: u64) -> int
    decreases d.len(),
{
    if cursor == 0 || d.len() == 0 {
        0
    } else if d[0].off == cursor {
        1
    } else {
        1 + resume_index(d.skip(1), cursor)
    }
}

/// The entries that a directory `d` yields once its position is set to
/// `cursor`.
pub open spec fn resumed(d: Seq<EntryView>, cursor: u64) -> Seq<EntryView> {
    d.skip(resume_index(d, cursor))
}

/// Setting the position to the cursor of the last entry taken yields the
/// entries that were not taken, each once and in their order: where the
/// cursors of a directory are distinct and none is zero, and the first `k`
/// entries were taken, the directory resumed at the cursor of entry `k - 1`
/// yields the entries from `k` on.
pub proof fn lemma_resumed_yields_the_rest(d: Seq<EntryView>, k: int)
    requires
        1 <= k <= d.len(),
        forall|i: int| 0 <= i < d.len() ==> (#[trigger] d[i]).off != 0,
        forall|i: int, j: int|
            0 <= i < j < d.len() ==> (#[trigger] d[i]).off != (#[trigger] d[j]).off,
    ensures
        resume_index(d, d[k - 1].off) == k,
        resumed(d, d[k - 1].off) == d.skip(k),
    decreases k,
{
    if k > 1 {
        let rest = d.skip(1);
        assert(rest[k - 2] == d[k - 1]);
        assert forall|i: int| 0 <= i < rest.len() implies (#[trigger] rest[i]).off != 0 by {
            assert(rest[i] == d[i + 1]);
        }
        assert forall|i: int, j: int| 0 <= i < j < rest.len() implies (#[trigger] rest[i]).off
            != (#[trigger] rest[j]).off by {
            assert(rest[i] == d[i + 1]);
            assert(rest[j] == d[j + 1]);
        }
        lemma_resumed_yields_the_rest(rest, k - 1);
        assert(d[0].off != d[k - 1].off);
    }
}

/// What the reply to a request to open a directory gives: the handle, or
/// nothing yet where the request is to be made again, or the failure.
pub open spec fn opened_of(reply: Reply, order: ByteOrder) -> Result<Option<DirView>, Error> {
    match reply {
        Reply::Opened(fd) => Ok(Some(DirView { fd, tell: 0, order })),
        Reply::Failed(code) => if is_transient(code) {
            Ok(None)
        } else {
            Err(Error::Os(code))
        },
        _ => Ok(None),
    }
}

impl Dir {
    /// Takes the reply to a request to open a directory: the handle of the
    /// directory opened, for records in the given byte order; `None` where the
    /// request is to be made again, after a transient failure or a reply to
    /// something else; the failure otherwise.
    pub fn from_reply(reply: Reply, order: ByteOrder) -> (r: Result<Option<Dir>, Error>)
        ensures
            match opened_of(reply, order) {
                Ok(Some(v)) => r matches Ok(Some(dir)) && dir@ == v,
                Ok(None) => r matches Ok(None),
                Err(e) => r matches Err(f) && f == e,
            },
    {
        match reply {
            Reply::Opened(fd) => Ok(Some(Dir::with_order(fd, order))),
            Reply::Failed(code) => {
                if transient(code) {
                    Ok(None)
                } else {
                    Err(Error::Os(code))
                }
            },
            _ => Ok(None),
        }
    }

    /// The handle of the open directory `fd`, before any entry was taken. The
    /// records read through it are in the byte order of this machine.
    pub fn from_fd(fd: i32) -> (dir: Dir)
        ensures
            dir@.fd == fd,
            dir@.tell == 0,
    {
        Dir { fd, tell: 0, order: ByteOrder::native() }
    }

    /// The handle of the open directory `fd`, before any entry was taken, for
    /// records in the given byte order.
    pub fn with_order(fd: i32, order: ByteOrder) -> (dir: Dir)
        ensures
            dir@ == (DirView { fd, tell: 0, order }),
    {
        Dir { fd, tell: 0, order }
    }

    /// The descriptor.
    pub fn as_raw_fd(&self) -> (fd: i32)
        ensures
            fd == self@.fd,
    {
        self.fd
    }

    /// The cursor behind the last entry taken.
    pub fn tell(&self) -> (tell: u64)
        ensures
            tell == self@.tell,
    {
        self.tell
    }

    /// The request that opens the directory of a name relative to `dir`.
    pub fn open_at(dir: &Dir) -> (action: Action)
        ensures
            action == (Action::OpenDir { dirfd: dir@.fd }),
    {
        Action::OpenDir { dirfd: dir.fd }
    }

    /// The request that opens the directory of a name relative to the current
    /// working directory.
    pub fn open() -> (action: Action)
        ensures
            action == (Action::OpenDir { dirfd: crate::os::CURRENT_DIRECTORY }),
    {
        Action::OpenDir { dirfd: crate::os::CURRENT_DIRECTORY }
    }

    /// A new stream over this directory. The buffer is emptied: the stream
    /// starts without a batch.
    pub fn iter<B: DirentBuf>(&mut self, buf: &mut B) -> (it: DirIterator)
        requires
            wf(old(buf)),
        ensures
            final(self)@ == old(self)@,
            wf(final(buf)),
            final(buf).bound() == old(buf).bound(),
            final(buf).spec_len() == 0,
            final(buf).storage() == old(buf).storage(),
            it@ == fresh(old(self)@),
    {
        DirIterator::new(self, buf)
    }
}

impl DirIterator {
    /// A stream over no directory yet.
    pub fn idle() -> (it: DirIterator)
        ensures
            it@ == (IterView { offset: 0, seek: false, ended: false }),
    {
        DirIterator { offset: 0, seek: false, ended: false }
    }

    /// Whether the stream has yet to have the position of the descriptor set.
    pub fn seeks(&self) -> (b: bool)
        ensures
            b == self@.seek,
    {
        self.seek
    }

    /// A new stream over `dir`. The buffer is emptied: the stream starts
    /// without a batch. Where entries were taken through the handle before,
    /// the stream first asks for the position to be set to the cursor.
    pub fn new<B: DirentBuf>(dir: &Dir, buf: &mut B) -> (it: DirIterator)
        requires
            wf(old(buf)),
        ensures
            wf(final(buf)),
            final(buf).bound() == old(buf).bound(),
            final(buf).spec_len() == 0,
            final(buf).storage() == old(buf).storage(),
            it@ == fresh(dir@),
    {
        buf.reset();
        DirIterator { offset: 0, seek: dir.tell != 0, ended: false }
    }

    /// Hands out the next entry of the batch, and moves the cursor of the
    /// handle behind it; or says what has to be done first; or that the
    /// directory has ended; or that the batch is malformed.
    pub fn next<B: DirentBuf>(&mut self, dir: &mut Dir, buf: &B) -> (next: Next)
        requires
            wf(buf),
        ensures
            (next@, final(self)@, final(dir)@) == next_of(
                old(self)@,
                old(dir)@,
                contents(buf),
                buf.storage().len(),
            ),
    {
        if self.ended {
            return Next::End;
        }
        let len = buf.len();
        if self.offset <= len && len - self.offset >= HEADER_LEN {
            let data = buf.as_slice();
            match read_record(data, self.offset, dir.order) {
                Some(entry) => {
                    self.offset = self.offset + entry.len();
                    dir.tell = entry.offset();
                    Next::Entry(entry)
                },
                None => Next::Fail(Error::InvalidData),
            }
        } else if self.seek {
            Next::Ask(Action::Seek { fd: dir.fd, offset: dir.tell })
        } else {
            Next::Ask(Action::ReadDir { fd: dir.fd, capacity: buf.capacity() })
        }
    }

    /// Takes the reply to what `next` asked for.
    ///
    /// A successful seek lets the stream read. A batch replaces what the
    /// buffer held; one shorter than a header ends the directory. A read
    /// refused as invalid grows the buffer, by half and at least to the room
    /// of one record, so that it is larger than it was. A transient failure
    /// changes nothing, so that `next` asks again; any other failure is
    /// returned. A reply to something that was not asked changes nothing.
    ///
    /// Where the buffer cannot grow as far as the reply asks, nothing changes
    /// and `Error::OutOfMemory` is returned.
    pub fn supply<B: DirentBuf>(&mut self, buf: &mut B, reply: Reply) -> (r: Result<(), Error>)
        requires
            wf(old(buf)),
        ensures
            wf(final(buf)),
            final(buf).bound() == old(buf).bound(),
            final(buf).storage().len() >= old(buf).storage().len(),
            r is Ok && reading(old(self)@, contents(old(buf))) && reply == Reply::Failed(EINVAL)
                ==> final(buf).storage().len() > old(buf).storage().len(),
            ({
                let asked = capacity_asked(
                    old(self)@,
                    contents(old(buf)),
                    old(buf).storage().len(),
                    reply,
                );
                let granted = {
                    &&& (final(self)@, contents(final(buf)), r) == supplied_of(
                        old(self)@,
                        contents(old(buf)),
                        reply,
                    )
                    &&& final(buf).storage().len() >= asked
                };
                let refused = {
                    &&& r == Err::<(), Error>(Error::OutOfMemory)
                    &&& final(self)@ == old(self)@
                    &&& final(buf).spec_len() == old(buf).spec_len()
                    &&& final(buf).storage() == old(buf).storage()
                    &&& asked > old(buf).storage().len()
                };
                granted || refused
            }),
    {
        let len = buf.len();
        if self.ended || (self.offset <= len && len - self.offset >= HEADER_LEN) {
            return Ok(());
        }
        if self.seek {
            match reply {
                Reply::Sought => {
                    self.seek = false;
                    Ok(())
                },
                Reply::Failed(code) => {
                    if transient(code) {
                        Ok(())
                    } else {
                        Err(Error::Os(code))
                    }
                },
                _ => Ok(()),
            }
        } else {
            match reply {
                Reply::Data(bytes) => {
                    match buf.reserve(bytes.len()) {
                        Ok(_) => {},
                        Err(e) => {
                            return Err(e);
                        },
                    }
                    buf.reset();
                    let pushed = buf.push_slice(bytes);
                    assert(pushed is Ok);
                    assert(contents(buf) =~= bytes@);
                    self.offset = 0;
                    self.ended = bytes.len() < HEADER_LEN;
                    Ok(())
                },
                Reply::Failed(code) => {
                    if transient(code) {
                        Ok(())
                    } else if code == EINVAL {
                        let capacity = buf.capacity();
                        let half = capacity / 2;
                        if half > usize::MAX - capacity {
                            return Err(Error::OutOfMemory);
                        }
                        let size = if capacity + half < RECORD_ROOM {
                            RECORD_ROOM
                        } else {
                            capacity + half
                        };
                        match buf.reserve(size) {
                            Ok(_) => {},
                            Err(e) => {
                                return Err(e);
                            },
                        }
                        buf.reset();
                        assert(contents(buf) =~= Seq::<u8>::empty());
                        Ok(())
                    } else {
                        Err(Error::Os(code))
                    }
                },
                _ => Ok(()),
            }
        }
    }
}

} // verus!
