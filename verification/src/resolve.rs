//! From a device number to the path of its node.
//!
//! The search first guesses the name that a device of a well-known class goes
//! by and asks for the status of that name below the candidate directory. Only
//! where the guess fails does it walk the directory tree, depth first, and
//! takes the first character device with the number sought. While it walks,
//! the path buffer holds the path of the directory that it is in: the name of
//! a subdirectory is appended when the search enters it and cut off when the
//! search leaves it.
//!
//! The search is a machine: it says which action it waits for, takes the
//! reply, and moves on. It keeps every directory that it has open on a stack
//! and has each of them closed before it is done, whatever the outcome.

use vstd::prelude::*;
use crate::buffer::{contents, extends, lemma_extension_keeps_used, wf, DirentBuf};
use crate::tty::{lemma_name_offset, name_offset, name_start, TtyInfo, TtyView};
use crate::dev::{guess_name, Dev};
use crate::dir::{
    capacity_asked, fresh, next_of, supplied_of, whole, Dir, DirIterator, DirView, IterView,
    Next, NextView,
};
use crate::dirent::{file_type_of, ByteOrder, FileType};
use crate::error::{is_transient, transient, Error, EINVAL, ENOENT};
use crate::text::absent;
use crate::os::{Action, FileStatus, Reply, CURRENT_DIRECTORY};

verus! {

/// What the search waits for.
#[derive(Clone, Copy, Debug, PartialEq, Eq, Structural)]
pub enum Phase {
    /// For the candidate directory to be opened.
    Rooting,
    /// For the status of the guessed name.
    Guessing,
    /// For what the entry stream asked: a seek or a batch.
    Scanning,
    /// For the status of an entry that does not tell its type.
    TypeProbe,
    /// For the status of an entry that is a character device.
    DevProbe,
    /// For a subdirectory to be opened.
    Descending,
    /// For a directory that held no match to be closed.
    Leaving,
    /// For the directories still open to be closed; the outcome is decided.
    Unwinding,
    /// For nothing.
    Done,
}

/// The state of a search.
pub struct ResolverView {
    /// The device number sought.
    pub target: Dev,
    /// The byte order of the batches.
    pub order: ByteOrder,
    /// The guessed name.
    pub guess: Seq<u8>,
    /// The candidate directories.
    pub roots: Seq<Seq<u8>>,
    /// Which candidate directory is being searched.
    pub root: nat,
    /// The directories that are open, the innermost last.
    pub stack: Seq<DirView>,
    /// The entry stream over the innermost directory.
    pub iter: IterView,
    /// The name of the entry under examination.
    pub entry: Seq<u8>,
    /// The batch that the entry buffer holds.
    pub batch: Seq<u8>,
    /// The capacity of the entry buffer.
    pub capacity: nat,
    /// The most that the entry buffer can ever hold.
    pub bound: nat,
    /// The path built so far.
    pub path: Seq<u8>,
    /// The capacity of the path buffer.
    pub path_capacity: nat,
    /// The most that the path buffer can ever hold.
    pub path_bound: nat,
    /// How long the path of each open directory is, the innermost last.
    pub lens: Seq<nat>,
    /// What the search waits for.
    pub phase: Phase,
    /// How the search ended, once that is decided.
    pub outcome: Result<(), Error>,
}

/// What the allocator answered in one step: whether a buffer that had to grow
/// could, and the capacities that the buffers have afterwards.
pub struct Room {
    /// Whether a buffer that had to grow could.
    pub ok: bool,
    /// The capacity of the entry buffer afterwards.
    pub batch: nat,
    /// The capacity of the path buffer afterwards.
    pub path: nat,
}

/// A request for `asked` bytes in all was met: always where nothing is asked.
pub open spec fn granted(room: Room, asked: nat) -> bool {
    room.ok || asked == 0
}

/// The search ends with `outcome`: it is done where no directory is open, and
/// else has the open ones closed first.
pub open spec fn conclude(v: ResolverView, outcome: Result<(), Error>) -> ResolverView {
    ResolverView {
        phase: if v.stack.len() == 0 {
            Phase::Done
        } else {
            Phase::Unwinding
        },
        outcome,
        ..v
    }
}

/// A failed action: a transient failure changes nothing, so that the action is
/// asked for again; any other ends the search.
pub open spec fn failed(v: ResolverView, code: i32) -> ResolverView {
    if is_transient(code) {
        v
    } else {
        conclude(v, Err(Error::Os(code)))
    }
}

/// The names `.` and `..`.
pub open spec fn is_dot(name: Seq<u8>) -> bool {
    name == seq![0x2eu8] || name == seq![0x2eu8, 0x2eu8]
}

/// The path of the node `name` below the directory whose path is `base`, with
/// the zero byte that ends it.
pub open spec fn joined(base: Seq<u8>, name: Seq<u8>) -> Seq<u8> {
    base + seq![0x2fu8] + name + seq![0u8]
}

/// The node `name` is the one sought: its path is completed and the search
/// ends well, or ends for want of memory.
pub open spec fn accept(v: ResolverView, name: Seq<u8>, room: Room) -> ResolverView {
    if granted(room, v.path.len() + name.len() + 2) {
        conclude(ResolverView { path: joined(v.path, name), ..v }, Ok(()))
    } else {
        conclude(v, Err(Error::OutOfMemory))
    }
}

/// Takes entries from the stream until one needs a closer look: `.` and `..`
/// are passed over, and so is every entry that is neither a character device
/// nor a directory nor of unknown type.
pub open spec fn advance(v: ResolverView) -> ResolverView
    decreases v.batch.len() - v.iter.offset,
{
    let (next, iter, dir) = next_of(v.iter, v.stack.last(), v.batch, v.capacity);
    let w = ResolverView { iter, stack: v.stack.drop_last().push(dir), ..v };
    match next {
        NextView::Entry(e) => {
            if is_dot(e.name) {
                advance(w)
            } else {
                match file_type_of(e.kind) {
                    FileType::Unknown => ResolverView {
                        phase: Phase::TypeProbe,
                        entry: e.name,
                        ..w
                    },
                    FileType::Character => ResolverView {
                        phase: Phase::DevProbe,
                        entry: e.name,
                        ..w
                    },
                    FileType::Directory => ResolverView {
                        phase: Phase::Descending,
                        entry: e.name,
                        ..w
                    },
                    _ => advance(w),
                }
            }
        },
        NextView::Ask(_) => ResolverView { phase: Phase::Scanning, ..w },
        NextView::End => ResolverView { phase: Phase::Leaving, ..w },
        NextView::Fail(e) => conclude(w, Err(e)),
    }
}

/// Starts a new stream over the innermost directory, with an empty buffer, and
/// takes entries from it.
pub open spec fn begin_scan(v: ResolverView) -> ResolverView {
    advance(ResolverView { iter: fresh(v.stack.last()), batch: Seq::empty(), ..v })
}

/// Turns to the candidate directory `i`: the path becomes that of the
/// directory, and the directory is to be opened.
pub open spec fn enter_root(v: ResolverView, i: nat, room: Room) -> ResolverView {
    if granted(room, v.roots[i as int].len()) {
        ResolverView {
            root: i,
            path: v.roots[i as int],
            phase: Phase::Rooting,
            ..v
        }
    } else {
        conclude(ResolverView { root: i, ..v }, Err(Error::OutOfMemory))
    }
}

/// The status `st` of the entry under examination is in: the entry is the node
/// sought where it has the device number sought.
pub open spec fn compare(v: ResolverView, st: FileStatus, room: Room) -> ResolverView {
    if st.rdev == v.target {
        accept(v, v.entry, room)
    } else {
        advance(v)
    }
}

/// The path of the subdirectory `name` of the directory whose path is `base`.
pub open spec fn below(base: Seq<u8>, name: Seq<u8>) -> Seq<u8> {
    base + seq![0x2fu8] + name
}

/// The subdirectory under examination was opened as `fd`: it becomes the
/// innermost directory, its name is appended to the path, and the search goes
/// on in it; or the search ends for want of memory, with the subdirectory to
/// be closed like the others.
pub open spec fn descend(v: ResolverView, fd: i32, room: Room) -> ResolverView {
    if granted(room, v.path.len() + v.entry.len() + 1) {
        begin_scan(descended(v, fd))
    } else {
        conclude(
            ResolverView {
                stack: v.stack.push(DirView { fd, tell: 0, order: v.order }),
                lens: v.lens.push(v.path.len()),
                ..v
            },
            Err(Error::OutOfMemory),
        )
    }
}

/// The innermost directory was closed after it held no match: the path is cut
/// back to that of the directory above and the search goes on there, or it
/// goes on in the next candidate directory, or ends without a match.
pub open spec fn leave(v: ResolverView, room: Room) -> ResolverView {
    let w = left(v);
    if w.stack.len() > 0 {
        begin_scan(w)
    } else if v.root + 1 < v.roots.len() {
        enter_root(w, v.root + 1, room)
    } else {
        conclude(w, Err(Error::NotFound))
    }
}

/// The innermost directory was closed after the outcome was decided: the next
/// is to be closed, or the search is done.
pub open spec fn unwind(v: ResolverView) -> ResolverView {
    conclude(
        ResolverView { stack: v.stack.drop_last(), lens: v.lens.drop_last(), ..v },
        v.outcome,
    )
}

/// What a reply makes of the state `v`, but for the capacities.
pub open spec fn next_core(v: ResolverView, reply: Reply, room: Room) -> ResolverView {
    match v.phase {
        Phase::Rooting => match reply {
            Reply::Opened(fd) => ResolverView {
                stack: seq![DirView { fd, tell: 0, order: v.order }],
                lens: seq![v.path.len()],
                phase: Phase::Guessing,
                ..v
            },
            Reply::Failed(code) => failed(v, code),
            _ => v,
        },
        Phase::Guessing => match reply {
            Reply::Status(st) => if st.file_type == FileType::Character && st.rdev == v.target {
                accept(v, v.guess, room)
            } else {
                begin_scan(v)
            },
            Reply::Failed(code) => if code == ENOENT {
                begin_scan(v)
            } else {
                failed(v, code)
            },
            _ => v,
        },
        Phase::Scanning => {
            if granted(room, capacity_asked(v.iter, v.batch, v.capacity, reply)) {
                let (iter, batch, r) = supplied_of(v.iter, v.batch, reply);
                let w = ResolverView { iter, batch, capacity: room.batch, ..v };
                match r {
                    Ok(_) => advance(w),
                    Err(e) => conclude(w, Err(e)),
                }
            } else {
                conclude(v, Err(Error::OutOfMemory))
            }
        },
        Phase::TypeProbe => match reply {
            Reply::Status(st) => match st.file_type {
                FileType::Character => compare(v, st, room),
                FileType::Directory => ResolverView { phase: Phase::Descending, ..v },
                _ => advance(v),
            },
            Reply::Failed(code) => failed(v, code),
            _ => v,
        },
        Phase::DevProbe => match reply {
            Reply::Status(st) => compare(v, st, room),
            Reply::Failed(code) => failed(v, code),
            _ => v,
        },
        Phase::Descending => match reply {
            Reply::Opened(fd) => descend(v, fd, room),
            Reply::Failed(code) => failed(v, code),
            _ => v,
        },
        Phase::Leaving => match reply {
            Reply::Closed => leave(v, room),
            Reply::Failed(_) => leave(v, room),
            _ => v,
        },
        Phase::Unwinding => match reply {
            Reply::Closed => unwind(v),
            Reply::Failed(_) => unwind(v),
            _ => v,
        },
        Phase::Done => v,
    }
}

/// What a reply makes of the state `v`, where the allocator answers `room`.
pub open spec fn next_state(v: ResolverView, reply: Reply, room: Room) -> ResolverView {
    ResolverView { capacity: room.batch, path_capacity: room.path, ..next_core(v, reply, room) }
}

/// The action that the search in state `v` waits for.
pub open spec fn action_of(v: ResolverView) -> Action {
    match v.phase {
        Phase::Rooting => Action::OpenDir { dirfd: CURRENT_DIRECTORY },
        Phase::Guessing => Action::Stat { dirfd: v.stack.last().fd },
        Phase::Scanning => if v.iter.seek {
            Action::Seek { fd: v.stack.last().fd, offset: v.stack.last().tell }
        } else {
            Action::ReadDir { fd: v.stack.last().fd, capacity: v.capacity as usize }
        },
        Phase::TypeProbe => Action::Stat { dirfd: v.stack.last().fd },
        Phase::DevProbe => Action::Stat { dirfd: v.stack.last().fd },
        Phase::Descending => Action::OpenDir { dirfd: v.stack.last().fd },
        Phase::Leaving => Action::Close { fd: v.stack.last().fd },
        Phase::Unwinding => Action::Close { fd: v.stack.last().fd },
        Phase::Done => Action::Done,
    }
}

/// The name that the pending action is about; empty where it is about none.
pub open spec fn name_of(v: ResolverView) -> Seq<u8> {
    match v.phase {
        Phase::Rooting => v.roots[v.root as int],
        Phase::Guessing => v.guess,
        Phase::TypeProbe => v.entry,
        Phase::DevProbe => v.entry,
        Phase::Descending => v.entry,
        _ => Seq::empty(),
    }
}

/// The separator of the parts of a path.
pub const SLASH: u8 = 0x2f;

/// The path `path` is whole: it holds a separator, and a zero byte ends it.
pub open spec fn complete(path: Seq<u8>) -> bool {
    &&& path.len() >= 2
    &&& path.last() == 0u8
    &&& !absent(path, SLASH)
}

/// What holds of every state that a search reaches.
///
/// A search that is done has no directory open; one that waits for a candidate
/// directory to be opened has none open either; in every other state one is
/// open. Until the outcome is decided the path is that of the innermost
/// directory, which begins with the path of the candidate directory, and the
/// search knows how long the path of every open directory is; once a node is
/// found the path is that of the node.
pub open spec fn inv(v: ResolverView) -> bool {
    &&& guess_name(v.target) == Some(v.guess)
    &&& v.lens.len() == v.stack.len()
    &&& v.phase == Phase::Done ==> v.stack.len() == 0
    &&& v.phase == Phase::Rooting ==> v.stack.len() == 0
    &&& v.phase != Phase::Done && v.phase != Phase::Rooting ==> v.stack.len() > 0
    &&& v.phase != Phase::Done && v.phase != Phase::Unwinding ==> {
        &&& v.root < v.roots.len()
        &&& extends(v.path, v.roots[v.root as int])
        &&& v.phase == Phase::Rooting ==> v.path == v.roots[v.root as int]
        &&& v.stack.len() > 0 ==> v.lens.last() == v.path.len()
        &&& forall|i: int|
            0 <= i < v.lens.len() ==> v.roots[v.root as int].len() <= #[trigger] v.lens[i]
                <= v.path.len()
        &&& forall|i: int, j: int|
            0 <= i < j < v.lens.len() ==> #[trigger] v.lens[i] <= #[trigger] v.lens[j]
        &&& v.outcome is Err
    }
    &&& v.outcome is Ok ==> {
        &&& v.root < v.roots.len()
        &&& extends(v.path, v.roots[v.root as int])
        &&& complete(v.path)
    }
    &&& v.phase == Phase::Scanning ==> !v.iter.ended && v.iter.offset + crate::dirent::HEADER_LEN
        > v.batch.len()
    &&& forall|i: int| 0 <= i < v.stack.len() ==> (#[trigger] v.stack[i]).order == v.order
}

/// The room that a reply asks of the entry buffer in state `v`.
pub open spec fn batch_asked(v: ResolverView, reply: Reply) -> nat {
    if v.phase == Phase::Scanning {
        capacity_asked(v.iter, v.batch, v.capacity, reply)
    } else {
        0
    }
}

/// The room that a reply asks of the path buffer in state `v`.
pub open spec fn path_asked(v: ResolverView, reply: Reply) -> nat {
    match v.phase {
        Phase::Guessing => match reply {
            Reply::Status(st) => if st.file_type == FileType::Character && st.rdev == v.target {
                v.path.len() + v.guess.len() + 2
            } else {
                0
            },
            _ => 0,
        },
        Phase::TypeProbe => match reply {
            Reply::Status(st) => if st.file_type == FileType::Character && st.rdev == v.target {
                v.path.len() + v.entry.len() + 2
            } else {
                0
            },
            _ => 0,
        },
        Phase::DevProbe => match reply {
            Reply::Status(st) => if st.rdev == v.target {
                v.path.len() + v.entry.len() + 2
            } else {
                0
            },
            _ => 0,
        },
        Phase::Descending => match reply {
            Reply::Opened(_) => v.path.len() + v.entry.len() + 1,
            _ => 0,
        },
        Phase::Leaving => match reply {
            Reply::Closed => if v.stack.len() == 1 && v.root + 1 < v.roots.len() {
                v.roots[v.root as int + 1].len()
            } else {
                0
            },
            Reply::Failed(_) => if v.stack.len() == 1 && v.root + 1 < v.roots.len() {
                v.roots[v.root as int + 1].len()
            } else {
                0
            },
            _ => 0,
        },
        _ => 0,
    }
}

/// The reply took the search from `v` to `w`: `w` is what the reply makes of
/// `v`, with the entry buffer grown as far as the reply asks, or, only where a
/// buffer had to grow and could not, what it makes of `v` without the room.
/// No buffer holds less memory than it did.
pub open spec fn moved(v: ResolverView, reply: Reply, w: ResolverView) -> bool {
    &&& w.capacity >= v.capacity
    &&& w.path_capacity >= v.path_capacity
    &&& {
        ||| {
            &&& w == next_state(
                v,
                reply,
                Room { ok: true, batch: w.capacity, path: w.path_capacity },
            )
            &&& w.capacity >= batch_asked(v, reply)
        }
        ||| {
            &&& w == next_state(
                v,
                reply,
                Room { ok: false, batch: w.capacity, path: w.path_capacity },
            )
            &&& (batch_asked(v, reply) > v.capacity || path_asked(v, reply) > v.path_capacity)
        }
    }
}

/// A reply changes neither what is sought nor where, nor what the buffers can
/// ever hold.
pub proof fn lemma_next_state_frame(v: ResolverView, reply: Reply, room: Room)
    requires
        inv(v),
    ensures
        ({
            let w = next_state(v, reply, room);
            &&& w.target == v.target
            &&& w.order == v.order
            &&& w.guess == v.guess
            &&& w.roots == v.roots
            &&& w.bound == v.bound
            &&& w.path_bound == v.path_bound
        }),
{
    match v.phase {
        Phase::Guessing => {
            lemma_begin_scan_frame(v);
        },
        Phase::Scanning => {
            let (iter, batch, r) = supplied_of(v.iter, v.batch, reply);
            lemma_advance_frame(ResolverView { iter, batch, capacity: room.batch, ..v });
        },
        Phase::TypeProbe => {
            lemma_advance_frame(v);
        },
        Phase::DevProbe => {
            lemma_advance_frame(v);
        },
        Phase::Descending => {
            match reply {
                Reply::Opened(fd) => {
                    lemma_begin_scan_frame(descended(v, fd));
                },
                _ => {},
            }
        },
        Phase::Leaving => {
            let u = left(v);
            if u.stack.len() > 0 {
                lemma_begin_scan_frame(u);
            }
        },
        _ => {},
    }
}

/// The state in which the search enters the subdirectory under examination,
/// opened as `fd`, where the path buffer has the room.
pub open spec fn descended(v: ResolverView, fd: i32) -> ResolverView {
    let path = below(v.path, v.entry);
    ResolverView {
        stack: v.stack.push(DirView { fd, tell: 0, order: v.order }),
        lens: v.lens.push(path.len()),
        path,
        ..v
    }
}

/// The state in which the search is back in the directory above the one that
/// it left, where there is one: the path is cut back to that directory's.
pub open spec fn left(v: ResolverView) -> ResolverView {
    let lens = v.lens.drop_last();
    ResolverView {
        stack: v.stack.drop_last(),
        lens,
        path: if lens.len() > 0 {
            v.path.take(lens.last() as int)
        } else {
            v.path
        },
        ..v
    }
}

/// The descriptors of the directories that are open, the innermost last.
pub open spec fn open_fds(v: ResolverView) -> Seq<i32> {
    Seq::new(v.stack.len(), |i: int| v.stack[i].fd)
}

/// The reply is a descriptor for the directory that the search asked to have
/// opened.
pub open spec fn opens(v: ResolverView, reply: Reply) -> bool {
    (v.phase == Phase::Rooting || v.phase == Phase::Descending) && reply is Opened
}

/// The reply answers the request to close the innermost directory.
pub open spec fn closes(v: ResolverView, reply: Reply) -> bool {
    (v.phase == Phase::Leaving || v.phase == Phase::Unwinding) && (reply is Closed
        || reply is Failed)
}

/// The search keeps exact account of what is open: a descriptor joins the
/// open ones when the search is handed it for a directory it asked for, and
/// leaves them when the request to close it is answered, the innermost first;
/// nothing else changes them. With `inv`, by which a search that is done has
/// none open, every directory that was opened is closed once, however the
/// search ends.
pub proof fn lemma_open_and_close_balance(v: ResolverView, reply: Reply, room: Room)
    requires
        inv(v),
    ensures
        ({
            let w = next_state(v, reply, room);
            &&& opens(v, reply) ==> open_fds(w) == open_fds(v).push(reply->Opened_0)
            &&& closes(v, reply) ==> {
                &&& action_of(v) == Action::Close { fd: open_fds(v).last() }
                &&& open_fds(w) == open_fds(v).drop_last()
            }
            &&& !opens(v, reply) && !closes(v, reply) ==> open_fds(w) == open_fds(v)
        }),
{
    let w = next_state(v, reply, room);
    match v.phase {
        Phase::Guessing => {
            lemma_begin_scan_frame(v);
            lemma_same_fds(v, w);
        },
        Phase::Scanning => {
            let (iter, batch, r) = supplied_of(v.iter, v.batch, reply);
            lemma_advance_frame(ResolverView { iter, batch, capacity: room.batch, ..v });
            lemma_same_fds(v, w);
        },
        Phase::TypeProbe => {
            lemma_advance_frame(v);
            lemma_same_fds(v, w);
        },
        Phase::DevProbe => {
            lemma_advance_frame(v);
            lemma_same_fds(v, w);
        },
        Phase::Descending => {
            match reply {
                Reply::Opened(fd) => {
                    let u = descended(v, fd);
                    assert(open_fds(u) =~= open_fds(v).push(fd));
                    if granted(room, v.path.len() + v.entry.len() + 1) {
                        lemma_begin_scan_frame(u);
                        lemma_same_fds(u, w);
                    } else {
                        assert(open_fds(w) =~= open_fds(u));
                    }
                },
                _ => {
                    assert(open_fds(w) =~= open_fds(v));
                },
            }
        },
        Phase::Leaving => {
            let u = left(v);
            assert(open_fds(u) =~= open_fds(v).drop_last());
            if closes(v, reply) {
                if u.stack.len() > 0 {
                    lemma_begin_scan_frame(u);
                    lemma_same_fds(u, w);
                } else {
                    assert(open_fds(w) =~= open_fds(u));
                }
            }
        },
        Phase::Unwinding => {
            assert(closes(v, reply) ==> open_fds(w) =~= open_fds(v).drop_last());
        },
        Phase::Rooting => {
            match reply {
                Reply::Opened(fd) => {
                    assert(open_fds(w) =~= open_fds(v).push(fd));
                },
                _ => {},
            }
        },
        Phase::Done => {},
    }
}

/// Two stacks that differ at most in the cursor of the innermost handle hold
/// the same descriptors.
proof fn lemma_same_fds(v: ResolverView, w: ResolverView)
    requires
        v.stack.len() > 0,
        w.stack.len() == v.stack.len(),
        w.stack.drop_last() == v.stack.drop_last(),
        w.stack.last().fd == v.stack.last().fd,
    ensures
        open_fds(w) == open_fds(v),
{
    assert forall|i: int| 0 <= i < v.stack.len() implies open_fds(w)[i] == open_fds(v)[i] by {
        if i < v.stack.len() - 1 {
            assert(w.stack[i] == w.stack.drop_last()[i]);
            assert(v.stack[i] == v.stack.drop_last()[i]);
        }
    }
    assert(open_fds(w) =~= open_fds(v));
}

/// The buffers of the state `v` are sound: what they hold is within their
/// capacity, and their capacity within what they can ever hold.
pub open spec fn bounded(v: ResolverView) -> bool {
    &&& v.batch.len() <= v.capacity <= v.bound
    &&& v.path.len() <= v.path_capacity <= v.path_bound
}

/// A search that needs more room than a buffer can ever hold ends for want of
/// memory: where the reply asks the path buffer, or the entry buffer, to hold
/// more than its bound, the outcome is `Error::OutOfMemory`, and the search
/// has the directories that are open closed.
pub proof fn lemma_no_room_is_out_of_memory(v: ResolverView, reply: Reply, w: ResolverView)
    requires
        inv(v),
        moved(v, reply, w),
        bounded(w),
        path_asked(v, reply) > v.path_bound || batch_asked(v, reply) > v.bound,
    ensures
        w.outcome == Err::<(), Error>(Error::OutOfMemory),
        w.phase == Phase::Unwinding || w.phase == Phase::Done,
{
    let room = Room { ok: true, batch: w.capacity, path: w.path_capacity };
    lemma_next_state_frame(v, reply, room);
    assert(v.stack.len() == 1 ==> v.stack.drop_last().len() == 0);
    // with the room granted, a buffer of `w` would hold more than it ever can
    assert(!(w == next_state(v, reply, room) && w.capacity >= batch_asked(v, reply))) by {
        assert(joined(v.path, v.guess).len() == v.path.len() + v.guess.len() + 2);
        assert(joined(v.path, v.entry).len() == v.path.len() + v.entry.len() + 2);
        assert(below(v.path, v.entry).len() == v.path.len() + v.entry.len() + 1);
        if v.phase == Phase::Descending && reply is Opened {
            lemma_begin_scan_frame(descended(v, reply->Opened_0));
        }
    }
}

/// The names that a list of byte strings holds.
pub open spec fn names(v: Seq<Vec<u8>>) -> Seq<Seq<u8>> {
    Seq::new(v.len(), |i: int| v[i]@)
}

/// The lengths that a list of lengths holds.
pub open spec fn lengths(v: Seq<usize>) -> Seq<nat> {
    Seq::new(v.len(), |i: int| v[i] as nat)
}

/// What a stack of handles holds.
pub open spec fn dirs(v: Seq<Dir>) -> Seq<DirView> {
    Seq::new(v.len(), |i: int| v[i]@)
}

/// The state before the search has turned to any candidate directory.
pub open spec fn initial(
    target: Dev,
    order: ByteOrder,
    guess: Seq<u8>,
    roots: Seq<Seq<u8>>,
    batch: Seq<u8>,
    bound: nat,
    path: Seq<u8>,
    path_bound: nat,
) -> ResolverView {
    ResolverView {
        target,
        order,
        guess,
        roots,
        root: 0,
        stack: Seq::empty(),
        iter: IterView { offset: 0, seek: false, ended: false },
        entry: Seq::empty(),
        batch,
        capacity: 0,
        bound,
        path,
        path_capacity: 0,
        path_bound,
        lens: Seq::empty(),
        phase: Phase::Done,
        outcome: Err(Error::NotFound),
    }
}

/// The state in which a search starts: it turns to the first candidate
/// directory, and is done without a match where there is none.
pub open spec fn start(v: ResolverView, room: Room) -> ResolverView {
    let w = if v.roots.len() == 0 {
        v
    } else {
        enter_root(v, 0, room)
    };
    ResolverView { capacity: room.batch, path_capacity: room.path, ..w }
}

/// Taking entries touches nothing but the stream, the cursor of the innermost
/// directory and the entry under examination: the path, the batch and every
/// directory above the innermost stay as they are, and the search then waits
/// for something that concerns the innermost directory.
pub proof fn lemma_advance_frame(v: ResolverView)
    requires
        v.stack.len() > 0,
    ensures
        ({
            let w = advance(v);
            &&& w == ResolverView {
                stack: w.stack,
                iter: w.iter,
                entry: w.entry,
                phase: w.phase,
                outcome: w.outcome,
                ..v
            }
            &&& w.stack.len() == v.stack.len()
            &&& w.stack.drop_last() == v.stack.drop_last()
            &&& w.stack.last().fd == v.stack.last().fd
            &&& w.stack.last().order == v.stack.last().order
            &&& w.phase != Phase::Rooting && w.phase != Phase::Guessing && w.phase != Phase::Done
            &&& w.phase == Phase::Unwinding ==> w.outcome is Err
            &&& w.phase != Phase::Unwinding ==> w.outcome == v.outcome
            &&& w.phase == Phase::Scanning ==> !w.iter.ended && w.iter.offset
                + crate::dirent::HEADER_LEN > w.batch.len()
        }),
    decreases v.batch.len() - v.iter.offset,
{
    let (next, iter, dir) = next_of(v.iter, v.stack.last(), v.batch, v.capacity);
    let u = ResolverView { iter, stack: v.stack.drop_last().push(dir), ..v };
    assert(u.stack.drop_last() =~= v.stack.drop_last());
    match next {
        NextView::Entry(e) => {
            if is_dot(e.name) {
                lemma_advance_frame(u);
            } else {
                match file_type_of(e.kind) {
                    FileType::Unknown => {},
                    FileType::Character => {},
                    FileType::Directory => {},
                    _ => {
                        lemma_advance_frame(u);
                    },
                }
            }
        },
        _ => {},
    }
}

/// Starting a stream over the innermost directory touches nothing but the
/// stream, the batch, the cursor of that directory and the entry under
/// examination.
pub proof fn lemma_begin_scan_frame(v: ResolverView)
    requires
        v.stack.len() > 0,
    ensures
        ({
            let w = begin_scan(v);
            &&& w == ResolverView {
                stack: w.stack,
                iter: w.iter,
                entry: w.entry,
                batch: Seq::empty(),
                phase: w.phase,
                outcome: w.outcome,
                ..v
            }
            &&& w.stack.len() == v.stack.len()
            &&& w.stack.drop_last() == v.stack.drop_last()
            &&& w.stack.last().fd == v.stack.last().fd
            &&& w.stack.last().order == v.stack.last().order
            &&& w.phase != Phase::Rooting && w.phase != Phase::Guessing && w.phase != Phase::Done
            &&& w.phase == Phase::Unwinding ==> w.outcome is Err
            &&& w.phase != Phase::Unwinding ==> w.outcome == v.outcome
            &&& w.phase == Phase::Scanning ==> !w.iter.ended && w.iter.offset
                + crate::dirent::HEADER_LEN > w.batch.len()
        }),
{
    lemma_advance_frame(ResolverView { iter: fresh(v.stack.last()), batch: Seq::empty(), ..v });
}

/// The orders of the handles on the stack of `w` are those of `v`, given that
/// the two stacks differ at most in the cursor of the innermost handle.
proof fn lemma_orders_kept(v: ResolverView, w: ResolverView)
    requires
        forall|i: int| 0 <= i < v.stack.len() ==> (#[trigger] v.stack[i]).order == v.order,
        v.stack.len() > 0,
        w.order == v.order,
        w.stack.len() == v.stack.len(),
        w.stack.drop_last() == v.stack.drop_last(),
        w.stack.last().order == v.stack.last().order,
    ensures
        forall|i: int| 0 <= i < w.stack.len() ==> (#[trigger] w.stack[i]).order == w.order,
{
    assert forall|i: int| 0 <= i < w.stack.len() implies (#[trigger] w.stack[i]).order
        == w.order by {
        if i < w.stack.len() - 1 {
            assert(w.stack[i] == w.stack.drop_last()[i]);
            assert(v.stack.drop_last()[i] == v.stack[i]);
        }
    }
}

proof fn lemma_advance_inv(v: ResolverView)
    requires
        inv(ResolverView { phase: Phase::Leaving, ..v }),
    ensures
        inv(advance(v)),
{
    lemma_advance_frame(v);
    lemma_orders_kept(v, advance(v));
}

proof fn lemma_begin_scan_inv(v: ResolverView)
    requires
        inv(ResolverView { phase: Phase::Leaving, ..v }),
    ensures
        inv(begin_scan(v)),
{
    lemma_begin_scan_frame(v);
    lemma_orders_kept(v, begin_scan(v));
}

proof fn lemma_accept_inv(v: ResolverView, name: Seq<u8>, room: Room)
    requires
        inv(ResolverView { phase: Phase::Leaving, ..v }),
    ensures
        inv(accept(v, name, room)),
{
    let path = joined(v.path, name);
    let root = v.roots[v.root as int];
    assert(path[v.path.len() as int] == SLASH);
    assert(path.take(root.len() as int) =~= v.path.take(root.len() as int));
}

proof fn lemma_leave_inv(v: ResolverView, room: Room)
    requires
        inv(v),
        v.phase == Phase::Leaving,
    ensures
        inv(leave(v, room)),
{
    let u = left(v);
    let root = v.roots[v.root as int];
    assert forall|i: int| 0 <= i < u.stack.len() implies (#[trigger] u.stack[i]).order
        == u.order by {
        assert(u.stack[i] == v.stack[i]);
    }
    assert forall|i: int| 0 <= i < u.lens.len() implies #[trigger] u.lens[i] == v.lens[i] by {}
    if u.stack.len() > 0 {
        let cut = u.lens.last();
        assert(cut == v.lens[u.lens.len() - 1]);
        assert(root.len() <= cut <= v.path.len());
        assert(u.path.take(root.len() as int) =~= v.path.take(root.len() as int));
        assert forall|i: int| 0 <= i < u.lens.len() implies root.len() <= #[trigger] u.lens[i]
            <= u.path.len() by {
            assert(u.lens[i] == v.lens[i]);
            if i < u.lens.len() - 1 {
                assert(v.lens[i] <= v.lens[u.lens.len() - 1]);
            }
        }
        lemma_begin_scan_inv(u);
    } else if v.root + 1 < v.roots.len() {
        let next = v.roots[v.root as int + 1];
        assert(next.take(next.len() as int) =~= next);
    }
}

proof fn lemma_unwind_inv(v: ResolverView)
    requires
        inv(v),
        v.phase == Phase::Unwinding,
    ensures
        inv(unwind(v)),
{
    let u = ResolverView { stack: v.stack.drop_last(), lens: v.lens.drop_last(), ..v };
    assert forall|i: int| 0 <= i < u.stack.len() implies (#[trigger] u.stack[i]).order
        == u.order by {
        assert(u.stack[i] == v.stack[i]);
    }
}

proof fn lemma_descend_inv(v: ResolverView, fd: i32, room: Room)
    requires
        inv(v),
        v.phase == Phase::Descending,
    ensures
        inv(descend(v, fd, room)),
{
    let u = descended(v, fd);
    let root = v.roots[v.root as int];
    assert forall|i: int| 0 <= i < u.stack.len() implies (#[trigger] u.stack[i]).order
        == u.order by {
        if i < v.stack.len() {
            assert(u.stack[i] == v.stack[i]);
        }
    }
    if granted(room, v.path.len() + v.entry.len() + 1) {
        assert(u.path.take(root.len() as int) =~= v.path.take(root.len() as int));
        assert forall|i: int| 0 <= i < u.lens.len() implies root.len() <= #[trigger] u.lens[i]
            <= u.path.len() by {
            if i < v.lens.len() {
                assert(u.lens[i] == v.lens[i]);
            }
        }
        assert forall|i: int, j: int| 0 <= i < j < u.lens.len() implies #[trigger] u.lens[i]
            <= #[trigger] u.lens[j] by {
            assert(u.lens[i] == v.lens[i]);
            if j < v.lens.len() {
                assert(u.lens[j] == v.lens[j]);
            }
        }
        lemma_begin_scan_inv(u);
    } else {
        let w = ResolverView { stack: u.stack, lens: v.lens.push(v.path.len()), ..v };
        assert forall|i: int| 0 <= i < w.stack.len() implies (#[trigger] w.stack[i]).order
            == w.order by {
            assert(w.stack[i] == u.stack[i]);
        }
    }
}

proof fn lemma_inv_rooting(v: ResolverView, reply: Reply, room: Room)
    requires
        inv(v),
        v.phase == Phase::Rooting,
    ensures
        inv(next_state(v, reply, room)),
{
    match reply {
        Reply::Opened(fd) => {
            let w = next_core(v, reply, room);
            assert(w.stack[0].order == w.order);
        },
        _ => {},
    }
}

proof fn lemma_inv_guessing(v: ResolverView, reply: Reply, room: Room)
    requires
        inv(v),
        v.phase == Phase::Guessing,
    ensures
        inv(next_state(v, reply, room)),
{
    lemma_begin_scan_inv(v);
    lemma_accept_inv(v, v.guess, room);
}

proof fn lemma_inv_scanning(v: ResolverView, reply: Reply, room: Room)
    requires
        inv(v),
        v.phase == Phase::Scanning,
    ensures
        inv(next_state(v, reply, room)),
{
    let (iter, batch, r) = supplied_of(v.iter, v.batch, reply);
    let w = ResolverView { iter, batch, capacity: room.batch, ..v };
    lemma_advance_inv(w);
}

proof fn lemma_inv_type_probe(v: ResolverView, reply: Reply, room: Room)
    requires
        inv(v),
        v.phase == Phase::TypeProbe,
    ensures
        inv(next_state(v, reply, room)),
{
    lemma_advance_inv(v);
    lemma_accept_inv(v, v.entry, room);
}

proof fn lemma_inv_dev_probe(v: ResolverView, reply: Reply, room: Room)
    requires
        inv(v),
        v.phase == Phase::DevProbe,
    ensures
        inv(next_state(v, reply, room)),
{
    lemma_advance_inv(v);
    lemma_accept_inv(v, v.entry, room);
}

proof fn lemma_inv_descending(v: ResolverView, reply: Reply, room: Room)
    requires
        inv(v),
        v.phase == Phase::Descending,
    ensures
        inv(next_state(v, reply, room)),
{
    match reply {
        Reply::Opened(fd) => {
            lemma_descend_inv(v, fd, room);
        },
        _ => {},
    }
}

proof fn lemma_inv_leaving(v: ResolverView, reply: Reply, room: Room)
    requires
        inv(v),
        v.phase == Phase::Leaving,
    ensures
        inv(next_state(v, reply, room)),
{
    lemma_leave_inv(v, room);
}

proof fn lemma_inv_unwinding(v: ResolverView, reply: Reply, room: Room)
    requires
        inv(v),
        v.phase == Phase::Unwinding,
    ensures
        inv(next_state(v, reply, room)),
{
    lemma_unwind_inv(v);
}

/// Whatever the reply and whatever the allocator answers, a search stays
/// within the states that `inv` describes. In particular a search that is done
/// has no directory open, and one that is not done, and not about to open a
/// candidate directory, has one open to close.
pub proof fn lemma_next_state_inv(v: ResolverView, reply: Reply, room: Room)
    requires
        inv(v),
    ensures
        inv(next_state(v, reply, room)),
{
    match v.phase {
        Phase::Rooting => lemma_inv_rooting(v, reply, room),
        Phase::Guessing => lemma_inv_guessing(v, reply, room),
        Phase::Scanning => lemma_inv_scanning(v, reply, room),
        Phase::TypeProbe => lemma_inv_type_probe(v, reply, room),
        Phase::DevProbe => lemma_inv_dev_probe(v, reply, room),
        Phase::Descending => lemma_inv_descending(v, reply, room),
        Phase::Leaving => lemma_inv_leaving(v, reply, room),
        Phase::Unwinding => lemma_inv_unwinding(v, reply, room),
        Phase::Done => {},
    }
}

/// `m` is the state in which the search for `target` below `roots` starts,
/// with buffers that hold `batch` and `path` and have the given capacities:
/// the state that `start` gives, with room for the first candidate
/// directory's path, or, only where the path buffer could not grow to hold it,
/// without.
pub open spec fn started(
    m: ResolverView,
    target: Dev,
    roots: Seq<Seq<u8>>,
    batch: Seq<u8>,
    capacity: nat,
    path: Seq<u8>,
    path_capacity: nat,
) -> bool {
    let v = initial(
        target,
        m.order,
        guess_name(target).unwrap(),
        roots,
        batch,
        m.bound,
        path,
        m.path_bound,
    );
    &&& guess_name(target) is Some
    &&& m.capacity == capacity
    &&& m.path_capacity >= path_capacity
    &&& {
        ||| m == start(v, Room { ok: true, batch: m.capacity, path: m.path_capacity })
        ||| {
            &&& m == start(v, Room { ok: false, batch: m.capacity, path: m.path_capacity })
            &&& roots.len() > 0
            &&& roots[0].len() > path_capacity
        }
    }
}

/// A search for the node of a device number.
pub struct Resolver<B1: DirentBuf, B2: DirentBuf> {
    target: Dev,
    order: ByteOrder,
    guess: Vec<u8>,
    roots: Vec<Vec<u8>>,
    root: usize,
    stack: Vec<Dir>,
    iter: DirIterator,
    entry: Vec<u8>,
    dirents: B1,
    path: B2,
    lens: Vec<usize>,
    phase: Phase,
    outcome: Result<(), Error>,
}

impl<B1: DirentBuf, B2: DirentBuf> View for Resolver<B1, B2> {
    type V = ResolverView;

    closed spec fn view(&self) -> ResolverView {
        ResolverView {
            target: self.target,
            order: self.order,
            guess: self.guess@,
            roots: names(self.roots@),
            root: self.root as nat,
            stack: dirs(self.stack@),
            iter: self.iter@,
            entry: self.entry@,
            batch: contents(&self.dirents),
            capacity: self.dirents.storage().len(),
            bound: self.dirents.bound(),
            path: contents(&self.path),
            path_capacity: self.path.storage().len(),
            path_bound: self.path.bound(),
            lens: lengths(self.lens@),
            phase: self.phase,
            outcome: self.outcome,
        }
    }
}

fn is_dot_name(name: &Vec<u8>) -> (b: bool)
    ensures
        b == is_dot(name@),
{
    let n = name.len();
    if n == 1 {
        let b = name[0] == 0x2e;
        assert(b == (name@ =~= seq![0x2eu8]));
        assert(!(name@ =~= seq![0x2eu8, 0x2eu8]));
        b
    } else if n == 2 {
        let b = name[0] == 0x2e && name[1] == 0x2e;
        assert(b == (name@ =~= seq![0x2eu8, 0x2eu8]));
        assert(!(name@ =~= seq![0x2eu8]));
        b
    } else {
        assert(!(name@ =~= seq![0x2eu8, 0x2eu8]));
        assert(!(name@ =~= seq![0x2eu8]));
        false
    }
}

impl<B1: DirentBuf, B2: DirentBuf> Resolver<B1, B2> {
    /// The buffers are sound.
    pub closed spec fn sound(&self) -> bool {
        &&& wf(&self.dirents)
        &&& wf(&self.path)
    }

    /// The buffers are sound and the state is one that a search reaches.
    pub closed spec fn wf(&self) -> bool {
        &&& self.sound()
        &&& inv(self@)
    }

    /// Starts the search for `target` below the directories `roots`, tried in
    /// order, with `dirents` to hold entry batches and `path` to hold the
    /// result. The batches are taken to be in the byte order `order`.
    ///
    /// Fails with `Error::NotATerminal`, without asking for anything, exactly
    /// where the class of `target` is not one of a terminal.
    pub fn new(target: Dev, roots: Vec<Vec<u8>>, order: ByteOrder, dirents: B1, path: B2) -> (r:
        Result<Self, Error>)
        requires
            wf(&dirents),
            wf(&path),
        ensures
            match r {
                Ok(m) => {
                    &&& m.wf()
                    &&& bounded(m@)
                    &&& m@.order == order
                    &&& m@.bound == dirents.bound()
                    &&& m@.path_bound == path.bound()
                    &&& started(
                        m@,
                        target,
                        names(roots@),
                        contents(&dirents),
                        dirents.storage().len(),
                        contents(&path),
                        path.storage().len(),
                    )
                },
                Err(e) => e == Error::NotATerminal && guess_name(target) is None,
            },
    {
        let guess = match crate::dev::guess(target) {
            Ok(g) => g,
            Err(e) => {
                return Err(e);
            },
        };
        let mut m = Resolver {
            target,
            order,
            guess,
            roots,
            root: 0,
            stack: Vec::new(),
            iter: DirIterator::idle(),
            entry: Vec::new(),
            dirents,
            path,
            lens: Vec::new(),
            phase: Phase::Done,
            outcome: Err(Error::NotFound),
        };
        assert(dirs(m.stack@) =~= Seq::<DirView>::empty());
        assert(lengths(m.lens@) =~= Seq::<nat>::empty());
        assert(m.entry@ =~= Seq::<u8>::empty());
        if m.roots.len() > 0 {
            m.enter_root(0);
            assert(m.roots@[0]@.take(m.roots@[0]@.len() as int) =~= m.roots@[0]@);
        }
        Ok(m)
    }

    /// The action that the search waits for.
    pub fn action(&self) -> (a: Action)
        requires
            self.wf(),
        ensures
            a == action_of(self@),
    {
        match self.phase {
            Phase::Rooting => Action::OpenDir { dirfd: CURRENT_DIRECTORY },
            Phase::Guessing | Phase::TypeProbe | Phase::DevProbe => Action::Stat {
                dirfd: self.top_fd(),
            },
            Phase::Scanning => if self.iter.seeks() {
                Action::Seek { fd: self.top_fd(), offset: self.stack[self.stack.len() - 1].tell() }
            } else {
                Action::ReadDir { fd: self.top_fd(), capacity: self.dirents.capacity() }
            },
            Phase::Descending => Action::OpenDir { dirfd: self.top_fd() },
            Phase::Leaving | Phase::Unwinding => Action::Close { fd: self.top_fd() },
            Phase::Done => Action::Done,
        }
    }

    /// The name that the pending action is about; empty where it is about none.
    pub fn name(&self) -> (name: &[u8])
        requires
            self.wf(),
        ensures
            name@ == name_of(self@),
    {
        match self.phase {
            Phase::Rooting => self.roots[self.root].as_slice(),
            Phase::Guessing => self.guess.as_slice(),
            Phase::TypeProbe | Phase::DevProbe | Phase::Descending => self.entry.as_slice(),
            _ => {
                let all = self.entry.as_slice();
                let none = &all[0..0];
                assert(none@ =~= Seq::<u8>::empty());
                none
            },
        }
    }

    /// Whether the search is over.
    pub fn is_done(&self) -> (b: bool)
        ensures
            b == (self@.phase == Phase::Done),
    {
        self.phase == Phase::Done
    }

    fn top_fd(&self) -> (fd: i32)
        requires
            self.stack@.len() > 0,
        ensures
            fd == dirs(self.stack@).last().fd,
    {
        self.stack[self.stack.len() - 1].as_raw_fd()
    }

    fn conclude(&mut self, outcome: Result<(), Error>)
        ensures
            final(self)@ == conclude(old(self)@, outcome),
            final(self).dirents == old(self).dirents,
            final(self).path == old(self).path,
            final(self).stack == old(self).stack,
            final(self).lens == old(self).lens,
    {
        self.phase = if self.stack.len() == 0 {
            Phase::Done
        } else {
            Phase::Unwinding
        };
        self.outcome = outcome;
    }

    fn fail(&mut self, code: i32)
        ensures
            final(self)@ == failed(old(self)@, code),
            final(self).dirents == old(self).dirents,
            final(self).path == old(self).path,
            final(self).stack == old(self).stack,
            final(self).lens == old(self).lens,
    {
        if !transient(code) {
            self.conclude(Err(Error::Os(code)));
        }
    }

    fn enter_root(&mut self, i: usize)
        requires
            wf(&old(self).dirents),
            wf(&old(self).path),
            i < old(self).roots@.len(),
            old(self).stack@.len() == 0,
        ensures
            wf(&final(self).path),
            final(self).path.storage().len() >= old(self).path.storage().len(),
            final(self).dirents == old(self).dirents,
            final(self).stack == old(self).stack,
            final(self).lens == old(self).lens,
            ({
                let v = old(self)@;
                let w = final(self)@;
                let ok = ResolverView {
                    path_capacity: w.path_capacity,
                    ..enter_root(v, i as nat, Room { ok: true, batch: 0, path: 0 })
                };
                let no = ResolverView {
                    path_capacity: w.path_capacity,
                    ..enter_root(v, i as nat, Room { ok: false, batch: 0, path: 0 })
                };
                w == ok || (w == no && v.roots[i as int].len() > v.path_capacity)
            }),
    {
        self.root = i;
        let root = self.roots[i].as_slice();
        match self.path.reserve(root.len()) {
            Ok(_) => {},
            Err(e) => {
                assert(dirs(self.stack@) =~= dirs(old(self).stack@));
                self.conclude(Err(e));
                return;
            },
        }
        self.path.reset();
        let pushed = self.path.push_slice(root);
        assert(pushed is Ok);
        assert(contents(&self.path) =~= root@);
        self.phase = Phase::Rooting;
    }

    /// The buffers are sound and a directory is open.
    spec fn scanning(&self) -> bool {
        &&& wf(&self.dirents)
        &&& wf(&self.path)
        &&& self.stack@.len() > 0
    }

    fn advance(&mut self)
        requires
            old(self).scanning(),
        ensures
            final(self).scanning(),
            final(self)@ == advance(old(self)@),
            final(self).dirents.storage() == old(self).dirents.storage(),
            final(self).path.storage() == old(self).path.storage(),
    {
        loop
            invariant
                self.scanning(),
                advance(self@) == advance(old(self)@),
                self.dirents.storage() == old(self).dirents.storage(),
                self.path.storage() == old(self).path.storage(),
            decreases self@.batch.len() - self@.iter.offset,
        {
            let ghost before = self@;
            let mut dir = self.stack.pop().unwrap();
            let next = self.iter.next(&mut dir, &self.dirents);
            self.stack.push(dir);
            assert(dirs(self.stack@) =~= before.stack.drop_last().push(dir@));
            match next {
                Next::Entry(e) => {
                    let kind = FileType::from(e.file_type());
                    let name = e.into_name();
                    if !is_dot_name(&name) {
                        match kind {
                            FileType::Unknown => {
                                self.phase = Phase::TypeProbe;
                                self.entry = name;
                                return;
                            },
                            FileType::Character => {
                                self.phase = Phase::DevProbe;
                                self.entry = name;
                                return;
                            },
                            FileType::Directory => {
                                self.phase = Phase::Descending;
                                self.entry = name;
                                return;
                            },
                            _ => {},
                        }
                    }
                },
                Next::Ask(_) => {
                    self.phase = Phase::Scanning;
                    return;
                },
                Next::End => {
                    self.phase = Phase::Leaving;
                    return;
                },
                Next::Fail(e) => {
                    self.conclude(Err(e));
                    return;
                },
            }
        }
    }

    fn begin_scan(&mut self)
        requires
            old(self).scanning(),
        ensures
            final(self).scanning(),
            final(self)@ == begin_scan(old(self)@),
            final(self).dirents.storage() == old(self).dirents.storage(),
            final(self).path.storage() == old(self).path.storage(),
    {
        let ghost before = self@;
        let mut dir = self.stack.pop().unwrap();
        self.iter = dir.iter(&mut self.dirents);
        self.stack.push(dir);
        assert(dirs(self.stack@) =~= before.stack);
        assert(contents(&self.dirents) =~= Seq::<u8>::empty());
        self.advance();
    }

    fn accept(&mut self, guessed: bool)
        requires
            wf(&old(self).dirents),
            wf(&old(self).path),
        ensures
            wf(&final(self).path),
            final(self).path.storage().len() >= old(self).path.storage().len(),
            final(self).dirents == old(self).dirents,
            final(self).stack == old(self).stack,
            final(self).lens == old(self).lens,
            ({
                let v = old(self)@;
                let w = final(self)@;
                let name = if guessed {
                    v.guess
                } else {
                    v.entry
                };
                let ok = ResolverView {
                    path_capacity: w.path_capacity,
                    ..accept(v, name, Room { ok: true, batch: 0, path: 0 })
                };
                let no = ResolverView {
                    path_capacity: w.path_capacity,
                    ..accept(v, name, Room { ok: false, batch: 0, path: 0 })
                };
                w == ok || (w == no && v.path.len() + name.len() + 2 > v.path_capacity)
            }),
    {
        let name = if guessed {
            self.guess.as_slice()
        } else {
            self.entry.as_slice()
        };
        let len = self.path.len();
        let capacity = self.path.capacity();
        if name.len() > usize::MAX - 2 || len > usize::MAX - 2 - name.len() {
            self.conclude(Err(Error::OutOfMemory));
            return;
        }
        match self.path.reserve(len + name.len() + 2) {
            Ok(_) => {},
            Err(e) => {
                self.conclude(Err(e));
                return;
            },
        }
        let slash: [u8; 1] = [0x2f];
        let zero: [u8; 1] = [0];
        let ghost base = contents(&self.path);
        proof {
            lemma_extension_keeps_used(
                old(self).path.storage(),
                self.path.storage(),
                old(self).path.spec_len(),
            );
        }
        let first = self.path.push_slice(slash.as_slice());
        assert(first is Ok);
        assert(contents(&self.path).len() == self.path.spec_len());
        let second = self.path.push_slice(name);
        assert(second is Ok);
        assert(contents(&self.path).len() == self.path.spec_len());
        let third = self.path.push_slice(zero.as_slice());
        assert(third is Ok);
        assert(contents(&self.path) =~= joined(base, name@));
        self.conclude(Ok(()));
    }

    fn compare(&mut self, st: FileStatus)
        requires
            old(self).scanning(),
        ensures
            final(self).scanning(),
            final(self).path.storage().len() >= old(self).path.storage().len(),
            final(self).dirents.storage() == old(self).dirents.storage(),
            ({
                let v = old(self)@;
                let w = final(self)@;
                let ok = ResolverView {
                    path_capacity: w.path_capacity,
                    ..compare(v, st, Room { ok: true, batch: 0, path: 0 })
                };
                let no = ResolverView {
                    path_capacity: w.path_capacity,
                    ..compare(v, st, Room { ok: false, batch: 0, path: 0 })
                };
                w == ok || (w == no && st.rdev == v.target && v.path.len() + v.entry.len() + 2
                    > v.path_capacity)
            }),
    {
        if st.rdev == self.target {
            self.accept(false);
        } else {
            self.advance();
        }
    }

    fn descend(&mut self, fd: i32)
        requires
            old(self).scanning(),
        ensures
            final(self).scanning(),
            final(self).path.storage().len() >= old(self).path.storage().len(),
            final(self).dirents.storage() == old(self).dirents.storage(),
            ({
                let v = old(self)@;
                let w = final(self)@;
                let ok = ResolverView {
                    path_capacity: w.path_capacity,
                    ..descend(v, fd, Room { ok: true, batch: 0, path: 0 })
                };
                let no = ResolverView {
                    path_capacity: w.path_capacity,
                    ..descend(v, fd, Room { ok: false, batch: 0, path: 0 })
                };
                w == ok || (w == no && v.path.len() + v.entry.len() + 1 > v.path_capacity)
            }),
    {
        let ghost v = self@;
        self.stack.push(Dir::with_order(fd, self.order));
        assert(dirs(self.stack@) =~= v.stack.push(DirView { fd, tell: 0, order: v.order }));
        let len = self.path.len();
        let count = self.entry.len();
        let capacity = self.path.capacity();
        if count > usize::MAX - 1 || len > usize::MAX - 1 - count {
            self.lens.push(len);
            assert(lengths(self.lens@) =~= v.lens.push(v.path.len()));
            self.conclude(Err(Error::OutOfMemory));
            return;
        }
        match self.path.reserve(len + count + 1) {
            Ok(_) => {},
            Err(e) => {
                self.lens.push(len);
                assert(lengths(self.lens@) =~= v.lens.push(v.path.len()));
                self.conclude(Err(e));
                return;
            },
        }
        proof {
            lemma_extension_keeps_used(
                old(self).path.storage(),
                self.path.storage(),
                old(self).path.spec_len(),
            );
        }
        let slash: [u8; 1] = [SLASH];
        let first = self.path.push_slice(slash.as_slice());
        assert(first is Ok);
        assert(contents(&self.path).len() == self.path.spec_len());
        let second = self.path.push_slice(self.entry.as_slice());
        assert(second is Ok);
        assert(contents(&self.path) =~= below(v.path, v.entry));
        self.lens.push(len + count + 1);
        assert(lengths(self.lens@) =~= v.lens.push(below(v.path, v.entry).len()));
        self.begin_scan();
    }

    fn leave(&mut self)
        requires
            old(self).scanning(),
            old(self).lens@.len() == old(self).stack@.len(),
            old(self).lens@.len() >= 2 ==> old(self).lens@[old(self).lens@.len() - 2]
                <= old(self).path.spec_len(),
            old(self).root < old(self).roots@.len(),
        ensures
            final(self).sound(),
            final(self).path.storage().len() >= old(self).path.storage().len(),
            final(self).dirents.storage() == old(self).dirents.storage(),
            ({
                let v = old(self)@;
                let w = final(self)@;
                let ok = ResolverView {
                    path_capacity: w.path_capacity,
                    ..leave(v, Room { ok: true, batch: 0, path: 0 })
                };
                let no = ResolverView {
                    path_capacity: w.path_capacity,
                    ..leave(v, Room { ok: false, batch: 0, path: 0 })
                };
                w == ok || (w == no && v.stack.len() == 1 && v.root + 1 < v.roots.len()
                    && v.roots[v.root as int + 1].len() > v.path_capacity)
            }),
    {
        let ghost before = self@;
        let _ = self.stack.pop();
        let _ = self.lens.pop();
        assert(dirs(self.stack@) =~= before.stack.drop_last());
        assert(lengths(self.lens@) =~= before.lens.drop_last());
        if self.stack.len() > 0 {
            let cut = self.lens[self.lens.len() - 1];
            self.path.set_len(cut);
            assert(contents(&self.path) =~= before.path.take(cut as int));
            assert(self@ == left(before));
            self.begin_scan();
        } else if self.roots.len() - self.root > 1 {
            assert(self@ == left(before));
            self.enter_root(self.root + 1);
        } else {
            assert(self@ == left(before));
            self.conclude(Err(Error::NotFound));
        }
    }

    fn unwind(&mut self)
        requires
            old(self).stack@.len() > 0,
            old(self).lens@.len() == old(self).stack@.len(),
        ensures
            final(self)@ == unwind(old(self)@),
            final(self).dirents == old(self).dirents,
            final(self).path == old(self).path,
    {
        let ghost before = self@;
        let _ = self.stack.pop();
        let _ = self.lens.pop();
        assert(dirs(self.stack@) =~= before.stack.drop_last());
        assert(lengths(self.lens@) =~= before.lens.drop_last());
        let outcome = self.outcome;
        self.conclude(outcome);
    }

    fn on_rooting(&mut self, reply: Reply)
        requires
            old(self).wf(),
            old(self).phase == Phase::Rooting,
        ensures
            final(self).sound(),
            moved(old(self)@, reply, final(self)@),
    {
        let ghost v = self@;
        match reply {
            Reply::Opened(fd) => {
                self.stack.push(Dir::with_order(fd, self.order));
                self.lens.push(self.path.len());
                self.phase = Phase::Guessing;
                assert(dirs(self.stack@) =~= seq![DirView { fd, tell: 0, order: v.order }]);
                assert(lengths(self.lens@) =~= seq![v.path.len()]);
            },
            Reply::Failed(code) => {
                self.fail(code);
            },
            _ => {},
        }
    }

    fn on_guessing(&mut self, reply: Reply)
        requires
            old(self).wf(),
            old(self).phase == Phase::Guessing,
        ensures
            final(self).sound(),
            moved(old(self)@, reply, final(self)@),
    {
        match reply {
            Reply::Status(st) => {
                if st.file_type == FileType::Character && st.rdev == self.target {
                    self.accept(true);
                } else {
                    self.begin_scan();
                }
            },
            Reply::Failed(code) => {
                if code == ENOENT {
                    self.begin_scan();
                } else {
                    self.fail(code);
                }
            },
            _ => {},
        }
    }

    fn on_scanning(&mut self, reply: Reply)
        requires
            old(self).wf(),
            old(self).phase == Phase::Scanning,
        ensures
            final(self).sound(),
            moved(old(self)@, reply, final(self)@),
    {
        match self.iter.supply(&mut self.dirents, reply) {
            Ok(_) => {
                self.advance();
            },
            Err(e) => {
                self.conclude(Err(e));
            },
        }
    }

    fn on_type_probe(&mut self, reply: Reply)
        requires
            old(self).wf(),
            old(self).phase == Phase::TypeProbe,
        ensures
            final(self).sound(),
            moved(old(self)@, reply, final(self)@),
    {
        match reply {
            Reply::Status(st) => match st.file_type {
                FileType::Character => {
                    self.compare(st);
                },
                FileType::Directory => {
                    self.phase = Phase::Descending;
                },
                _ => {
                    self.advance();
                },
            },
            Reply::Failed(code) => {
                self.fail(code);
            },
            _ => {},
        }
    }

    fn on_dev_probe(&mut self, reply: Reply)
        requires
            old(self).wf(),
            old(self).phase == Phase::DevProbe,
        ensures
            final(self).sound(),
            moved(old(self)@, reply, final(self)@),
    {
        match reply {
            Reply::Status(st) => {
                self.compare(st);
            },
            Reply::Failed(code) => {
                self.fail(code);
            },
            _ => {},
        }
    }

    fn on_descending(&mut self, reply: Reply)
        requires
            old(self).wf(),
            old(self).phase == Phase::Descending,
        ensures
            final(self).sound(),
            moved(old(self)@, reply, final(self)@),
    {
        let ghost v = self@;
        match reply {
            Reply::Opened(fd) => {
                self.descend(fd);
            },
            Reply::Failed(code) => {
                self.fail(code);
            },
            _ => {},
        }
    }

    fn on_leaving(&mut self, reply: Reply)
        requires
            old(self).wf(),
            old(self).phase == Phase::Leaving,
        ensures
            final(self).sound(),
            moved(old(self)@, reply, final(self)@),
    {
        match reply {
            Reply::Closed | Reply::Failed(_) => {
                self.leave();
            },
            _ => {},
        }
    }

    fn on_unwinding(&mut self, reply: Reply)
        requires
            old(self).wf(),
            old(self).phase == Phase::Unwinding,
        ensures
            final(self).sound(),
            moved(old(self)@, reply, final(self)@),
    {
        match reply {
            Reply::Closed | Reply::Failed(_) => {
                self.unwind();
            },
            _ => {},
        }
    }

    /// Takes the reply to the pending action and moves on to the next.
    ///
    /// A reply that does not answer the pending action changes nothing.
    pub fn step(&mut self, reply: Reply)
        requires
            old(self).wf(),
        ensures
            final(self).wf(),
            bounded(final(self)@),
            moved(old(self)@, reply, final(self)@),
    {
        match self.phase {
            Phase::Rooting => self.on_rooting(reply),
            Phase::Guessing => self.on_guessing(reply),
            Phase::Scanning => self.on_scanning(reply),
            Phase::TypeProbe => self.on_type_probe(reply),
            Phase::DevProbe => self.on_dev_probe(reply),
            Phase::Descending => self.on_descending(reply),
            Phase::Leaving => self.on_leaving(reply),
            Phase::Unwinding => self.on_unwinding(reply),
            Phase::Done => {},
        }
        proof {
            let w = self@;
            lemma_next_state_inv(
                old(self)@,
                reply,
                Room { ok: true, batch: w.capacity, path: w.path_capacity },
            );
            lemma_next_state_inv(
                old(self)@,
                reply,
                Room { ok: false, batch: w.capacity, path: w.path_capacity },
            );
        }
    }

    /// What the search found, once it is done; `None` before. The memory
    /// behind the path is given back as far as the buffer can.
    pub fn finish(self) -> (r: Option<Result<TtyInfo<B2>, Error>>)
        requires
            self.wf(),
        ensures
            match r {
                None => self@.phase != Phase::Done,
                Some(Err(e)) => self@.phase == Phase::Done && self@.outcome == Err::<(), Error>(e),
                Some(Ok(t)) => {
                    &&& self@.phase == Phase::Done
                    &&& self@.outcome is Ok
                    &&& t.wf()
                    &&& t@ == (TtyView {
                        dev: self@.target,
                        path: self@.path,
                        offset: name_offset(self@.path),
                    })
                },
            },
    {
        if self.phase != Phase::Done {
            return None;
        }
        match self.outcome {
            Err(e) => Some(Err(e)),
            Ok(_) => {
                let ghost before = self.path;
                let Resolver { target, path, .. } = self;
                let mut path = path;
                path.shrink_to_fit();
                proof {
                    lemma_extension_keeps_used(path.storage(), before.storage(), path.spec_len());
                    lemma_name_offset(contents(&path));
                }
                let offset = name_start(path.as_slice());
                Some(Ok(TtyInfo::assemble(target, path, offset)))
            },
        }
    }
}

/// Where the guessed name is a character device with the number sought, the
/// search is over after the status query: it opens the candidate directory,
/// asks for the status of the guessed name, has the directory closed, and is
/// done, with the path of the guessed name below the candidate directory as
/// its result. It never asks for a batch of directory entries.
pub proof fn lemma_guess_hit_reads_no_directory(
    v: ResolverView,
    fd: i32,
    st: FileStatus,
    first: Room,
    second: Room,
    third: Room,
)
    requires
        inv(v),
        v.phase == Phase::Rooting,
        st.file_type == FileType::Character,
        st.rdev == v.target,
    ensures
        ({
            let opened = next_state(v, Reply::Opened(fd), first);
            let found = next_state(opened, Reply::Status(st), second);
            let closed = next_state(found, Reply::Closed, third);
            &&& action_of(v) == Action::OpenDir { dirfd: CURRENT_DIRECTORY }
            &&& name_of(v) == v.roots[v.root as int]
            &&& action_of(opened) == Action::Stat { dirfd: fd }
            &&& name_of(opened) == guess_name(v.target).unwrap()
            &&& action_of(found) == Action::Close { fd }
            &&& action_of(closed) == Action::Done
            &&& closed.outcome == found.outcome
            &&& closed.path == found.path
            &&& if granted(second, v.path.len() + v.guess.len() + 2) {
                &&& found.outcome == Ok::<(), Error>(())
                &&& found.path == joined(v.roots[v.root as int], guess_name(v.target).unwrap())
            } else {
                found.outcome == Err::<(), Error>(Error::OutOfMemory)
            }
        }),
{
    let opened = next_state(v, Reply::Opened(fd), first);
    assert(opened.stack.last() == DirView { fd, tell: 0, order: v.order });
    let found = next_state(opened, Reply::Status(st), second);
    assert(found.stack =~= opened.stack);
    assert(found.stack.drop_last().len() == 0);
}

/// A search that has looked through the last candidate directory without a
/// match ends with `Error::NotFound`, with no directory left open and nothing
/// more to ask for.
pub proof fn lemma_exhausted_is_not_found(v: ResolverView, room: Room)
    requires
        inv(v),
        v.phase == Phase::Leaving,
        v.stack.len() == 1,
        v.root + 1 == v.roots.len(),
    ensures
        ({
            let w = next_state(v, Reply::Closed, room);
            &&& action_of(v) == Action::Close { fd: v.stack.last().fd }
            &&& w.phase == Phase::Done
            &&& w.outcome == Err::<(), Error>(Error::NotFound)
            &&& w.stack.len() == 0
            &&& action_of(w) == Action::Done
        }),
{
}

/// A character device with the number sought ends the search wherever in the
/// tree it is met: the result is the path of its name below the directory
/// that it was met in, ended by a zero byte, and every directory that is open
/// is closed, the innermost first, before the search is done.
pub proof fn lemma_match_completes_path(v: ResolverView, st: FileStatus, room: Room)
    requires
        inv(v),
        v.phase == Phase::DevProbe,
        st.rdev == v.target,
        granted(room, v.path.len() + v.entry.len() + 2),
    ensures
        ({
            let w = next_state(v, Reply::Status(st), room);
            &&& w.outcome == Ok::<(), Error>(())
            &&& w.path == joined(v.path, v.entry)
            &&& extends(w.path, v.roots[v.root as int])
            &&& w.stack == v.stack
            &&& w.phase == Phase::Unwinding
            &&& action_of(w) == Action::Close { fd: v.stack.last().fd }
        }),
{
    lemma_accept_inv(v, v.entry, room);
}

/// Entering a subdirectory appends its name to the path: where the
/// subdirectory under examination is opened and the path buffer has the room,
/// the path is that of the directory that the search was in, a separator, and
/// the name of the subdirectory; the subdirectory is the innermost directory,
/// and the search knows how long its path is.
pub proof fn lemma_descend_extends_path(v: ResolverView, fd: i32, room: Room)
    requires
        inv(v),
        v.phase == Phase::Descending,
        granted(room, v.path.len() + v.entry.len() + 1),
    ensures
        ({
            let w = next_state(v, Reply::Opened(fd), room);
            &&& w.path == below(v.path, v.entry)
            &&& w.stack.len() == v.stack.len() + 1
            &&& w.stack.last().fd == fd
            &&& w.lens == v.lens.push(w.path.len())
        }),
{
    lemma_begin_scan_frame(descended(v, fd));
}

/// The path changes only when the search enters or leaves a directory, turns
/// to another candidate directory, or finds the node: any other reply leaves
/// it as it is.
pub proof fn lemma_path_kept(v: ResolverView, reply: Reply, room: Room)
    requires
        inv(v),
        v.phase != Phase::Leaving,
        path_asked(v, reply) == 0,
    ensures
        next_state(v, reply, room).path == v.path,
{
    match v.phase {
        Phase::Guessing => {
            lemma_begin_scan_frame(v);
        },
        Phase::Scanning => {
            let (iter, batch, r) = supplied_of(v.iter, v.batch, reply);
            lemma_advance_frame(ResolverView { iter, batch, capacity: room.batch, ..v });
        },
        Phase::TypeProbe => {
            lemma_advance_frame(v);
        },
        Phase::DevProbe => {
            lemma_advance_frame(v);
        },
        _ => {},
    }
}

/// Searching a subdirectory leaves the directories above it as they were:
/// when the subdirectory has been closed without a match, the directory above
/// is the innermost again, with the cursor that it had when the subdirectory
/// was entered; the path is cut back to that directory's, and the search goes
/// on in it with a new stream.
pub proof fn lemma_return_to_parent(v: ResolverView, room: Room)
    requires
        inv(v),
        v.phase == Phase::Leaving,
        v.stack.len() > 1,
    ensures
        ({
            let w = next_state(v, Reply::Closed, room);
            let parent = v.stack[v.stack.len() - 2];
            &&& w.stack.len() == v.stack.len() - 1
            &&& w.stack.drop_last() == v.stack.drop_last().drop_last()
            &&& w.stack.last().fd == parent.fd
            &&& w.lens == v.lens.drop_last()
            &&& w.path == v.path.take(v.lens[v.lens.len() - 2] as int)
            &&& w.phase == Phase::Scanning ==> w.iter == fresh(parent) && w.stack.last() == parent
            &&& w.phase == Phase::Scanning && parent.tell != 0 ==> action_of(w) == Action::Seek {
                fd: parent.fd,
                offset: parent.tell,
            }
        }),
{
    let u = left(v);
    lemma_begin_scan_frame(u);
    let start = ResolverView { iter: fresh(u.stack.last()), batch: Seq::empty(), ..u };
    assert(!crate::dir::has_buffered(start.iter, start.batch));
}

/// A node met in a subdirectory is found under the path of the subdirectory:
/// where the search enters the subdirectory under examination and later, in a
/// state `u` in which the path is still that of the subdirectory, meets a
/// character device with the number sought, the result is the path of the
/// directory above, the name of the subdirectory and the name of the node,
/// parted by separators and ended by a zero byte, and it begins with the path
/// of the candidate directory. The path is still that of the subdirectory
/// after every reply that `lemma_path_kept` speaks of.
pub proof fn lemma_nested_match(
    v: ResolverView,
    fd: i32,
    entered: Room,
    u: ResolverView,
    st: FileStatus,
    met: Room,
)
    requires
        inv(v),
        v.phase == Phase::Descending,
        granted(entered, v.path.len() + v.entry.len() + 1),
        inv(u),
        u.phase == Phase::DevProbe,
        u.roots == v.roots,
        u.root == v.root,
        u.path == next_state(v, Reply::Opened(fd), entered).path,
        st.rdev == u.target,
        granted(met, u.path.len() + u.entry.len() + 2),
    ensures
        ({
            let w = next_state(u, Reply::Status(st), met);
            &&& w.outcome == Ok::<(), Error>(())
            &&& w.path == joined(below(v.path, v.entry), u.entry)
            &&& extends(w.path, v.roots[v.root as int])
            &&& complete(w.path)
            &&& absent(u.entry, SLASH) ==> w.path.subrange(
                name_offset(w.path) as int,
                w.path.len() - 1,
            ) == u.entry
        }),
{
    lemma_descend_extends_path(v, fd, entered);
    lemma_match_completes_path(u, st, met);
    lemma_accept_inv(u, u.entry, met);
    if absent(u.entry, SLASH) {
        crate::tty::lemma_name_of_joined(u.path, u.entry);
    }
}

/// The candidate directories are searched in turn: a reply leaves the search
/// with the candidate directory that it was in, or takes it to the next one,
/// and that only when the last directory open below the one before has been
/// closed without a match.
pub proof fn lemma_roots_in_turn(v: ResolverView, reply: Reply, room: Room)
    requires
        inv(v),
    ensures
        ({
            let w = next_state(v, reply, room);
            ||| w.root == v.root
            ||| {
                &&& w.root == v.root + 1
                &&& v.phase == Phase::Leaving
                &&& v.stack.len() == 1
                &&& closes(v, reply)
            }
        }),
{
    match v.phase {
        Phase::Guessing => {
            lemma_begin_scan_frame(v);
        },
        Phase::Scanning => {
            let (iter, batch, r) = supplied_of(v.iter, v.batch, reply);
            lemma_advance_frame(ResolverView { iter, batch, capacity: room.batch, ..v });
        },
        Phase::TypeProbe => {
            lemma_advance_frame(v);
        },
        Phase::DevProbe => {
            lemma_advance_frame(v);
        },
        Phase::Descending => {
            if reply is Opened {
                lemma_begin_scan_frame(descended(v, reply->Opened_0));
            }
        },
        Phase::Leaving => {
            let u = left(v);
            if u.stack.len() > 0 {
                lemma_begin_scan_frame(u);
            }
        },
        _ => {},
    }
}

/// The search gives up only when it has looked everywhere: a reply decides
/// the outcome `Error::NotFound` only when it closes the last directory open
/// below the last candidate directory, after that directory held no match.
pub proof fn lemma_not_found_only_when_exhausted(v: ResolverView, reply: Reply, room: Room)
    requires
        inv(v),
        v.phase != Phase::Done,
        v.phase != Phase::Unwinding,
        ({
            let w = next_state(v, reply, room);
            (w.phase == Phase::Done || w.phase == Phase::Unwinding) && w.outcome == Err::<
                (),
                Error,
            >(Error::NotFound)
        }),
    ensures
        v.phase == Phase::Leaving,
        v.stack.len() == 1,
        v.root + 1 == v.roots.len(),
        closes(v, reply),
{
    match v.phase {
        Phase::Guessing => {
            lemma_begin_scan_outcome(v);
        },
        Phase::Scanning => {
            let (iter, batch, r) = supplied_of(v.iter, v.batch, reply);
            lemma_advance_outcome(ResolverView { iter, batch, capacity: room.batch, ..v });
        },
        Phase::TypeProbe => {
            lemma_advance_outcome(v);
        },
        Phase::DevProbe => {
            lemma_advance_outcome(v);
        },
        Phase::Descending => {
            if reply is Opened {
                lemma_begin_scan_outcome(descended(v, reply->Opened_0));
            }
        },
        Phase::Leaving => {
            let u = left(v);
            if u.stack.len() > 0 {
                lemma_begin_scan_outcome(u);
            }
        },
        _ => {},
    }
}

/// Taking entries decides no outcome but the failure of the stream: a batch
/// that is malformed.
proof fn lemma_advance_outcome(v: ResolverView)
    requires
        v.stack.len() > 0,
    ensures
        ({
            let w = advance(v);
            w.phase == Phase::Unwinding ==> w.outcome == Err::<(), Error>(Error::InvalidData)
        }),
        advance(v).phase != Phase::Done,
    decreases v.batch.len() - v.iter.offset,
{
    let (next, iter, dir) = next_of(v.iter, v.stack.last(), v.batch, v.capacity);
    let u = ResolverView { iter, stack: v.stack.drop_last().push(dir), ..v };
    match next {
        NextView::Entry(e) => {
            if is_dot(e.name) {
                lemma_advance_outcome(u);
            } else {
                match file_type_of(e.kind) {
                    FileType::Unknown => {},
                    FileType::Character => {},
                    FileType::Directory => {},
                    _ => {
                        lemma_advance_outcome(u);
                    },
                }
            }
        },
        _ => {},
    }
}

proof fn lemma_begin_scan_outcome(v: ResolverView)
    requires
        v.stack.len() > 0,
    ensures
        ({
            let w = begin_scan(v);
            w.phase == Phase::Unwinding ==> w.outcome == Err::<(), Error>(Error::InvalidData)
        }),
        begin_scan(v).phase != Phase::Done,
{
    lemma_advance_outcome(ResolverView { iter: fresh(v.stack.last()), batch: Seq::empty(), ..v });
}

/// The state that a search in state `v` is in after the replies `replies`,
/// taken in turn, where the allocator answers `rooms` in turn.
pub open spec fn run(v: ResolverView, replies: Seq<Reply>, rooms: Seq<Room>) -> ResolverView
    decreases replies.len(),
{
    if replies.len() == 0 || rooms.len() == 0 {
        v
    } else {
        run(next_state(v, replies[0], rooms[0]), replies.skip(1), rooms.skip(1))
    }
}

/// The outcome of the search in state `v` is decided.
pub open spec fn decided(v: ResolverView) -> bool {
    v.phase == Phase::Unwinding || v.phase == Phase::Done
}

/// The first match wins: once the outcome is decided, no reply changes it, nor
/// the path; the search only has the directories closed that are still open.
pub proof fn lemma_decided_is_kept(v: ResolverView, replies: Seq<Reply>, rooms: Seq<Room>)
    requires
        inv(v),
        decided(v),
    ensures
        ({
            let w = run(v, replies, rooms);
            &&& inv(w)
            &&& decided(w)
            &&& w.outcome == v.outcome
            &&& w.path == v.path
            &&& w.stack.len() <= v.stack.len()
        }),
    decreases replies.len(),
{
    if replies.len() > 0 && rooms.len() > 0 {
        lemma_next_state_inv(v, replies[0], rooms[0]);
        lemma_decided_is_kept(next_state(v, replies[0], rooms[0]), replies.skip(1), rooms.skip(1));
    }
}

/// The reply is one that neither ends the search in failure nor reports the
/// node sought: an action succeeds or fails in a way that the search
/// absorbs, a status is not that of the node sought, and a batch is made of
/// whole records.
pub open spec fn benign(v: ResolverView, reply: Reply) -> bool {
    match v.phase {
        Phase::Rooting => match reply {
            Reply::Failed(code) => is_transient(code),
            _ => true,
        },
        Phase::Descending => match reply {
            Reply::Failed(code) => is_transient(code),
            _ => true,
        },
        Phase::Guessing => match reply {
            Reply::Status(st) => !(st.file_type == FileType::Character && st.rdev == v.target),
            Reply::Failed(code) => code == ENOENT || is_transient(code),
            _ => true,
        },
        Phase::Scanning => match reply {
            Reply::Data(bytes) => whole(bytes@, 0, v.order),
            Reply::Failed(code) => is_transient(code) || (code == EINVAL && !v.iter.seek),
            _ => true,
        },
        Phase::TypeProbe => match reply {
            Reply::Status(st) => !(st.file_type == FileType::Character && st.rdev == v.target),
            Reply::Failed(code) => is_transient(code),
            _ => true,
        },
        Phase::DevProbe => match reply {
            Reply::Status(st) => st.rdev != v.target,
            Reply::Failed(code) => is_transient(code),
            _ => true,
        },
        _ => true,
    }
}

/// Each of `replies` is benign in the state that it meets, and the allocator
/// grants what the search asks for.
pub open spec fn benign_run(v: ResolverView, replies: Seq<Reply>, rooms: Seq<Room>) -> bool
    decreases replies.len(),
{
    replies.len() == 0 || rooms.len() == 0 || {
        &&& benign(v, replies[0])
        &&& rooms[0].ok
        &&& benign_run(next_state(v, replies[0], rooms[0]), replies.skip(1), rooms.skip(1))
    }
}

/// What is left of the batch is made of whole records.
pub open spec fn clean(v: ResolverView) -> bool {
    whole(v.batch, v.iter.offset as int, v.order) || v.iter.offset >= v.batch.len()
}

proof fn lemma_advance_clean(v: ResolverView)
    requires
        v.stack.len() > 0,
        v.stack.last().order == v.order,
        clean(v),
    ensures
        clean(advance(v)),
        !decided(advance(v)),
    decreases v.batch.len() - v.iter.offset,
{
    let (next, iter, dir) = next_of(v.iter, v.stack.last(), v.batch, v.capacity);
    let u = ResolverView { iter, stack: v.stack.drop_last().push(dir), ..v };
    match next {
        NextView::Entry(e) => {
            if is_dot(e.name) {
                lemma_advance_clean(u);
            } else {
                match file_type_of(e.kind) {
                    FileType::Unknown => {},
                    FileType::Character => {},
                    FileType::Directory => {},
                    _ => {
                        lemma_advance_clean(u);
                    },
                }
            }
        },
        _ => {},
    }
}

proof fn lemma_begin_scan_clean(v: ResolverView)
    requires
        v.stack.len() > 0,
        v.stack.last().order == v.order,
    ensures
        clean(begin_scan(v)),
        !decided(begin_scan(v)),
{
    lemma_advance_clean(ResolverView { iter: fresh(v.stack.last()), batch: Seq::empty(), ..v });
}

proof fn lemma_benign_step(v: ResolverView, reply: Reply, room: Room)
    requires
        inv(v),
        clean(v),
        !decided(v),
        benign(v, reply),
        room.ok,
    ensures
        ({
            let w = next_state(v, reply, room);
            &&& clean(w)
            &&& decided(w) ==> w.outcome == Err::<(), Error>(Error::NotFound)
        }),
{
    match v.phase {
        Phase::Guessing => {
            lemma_begin_scan_clean(v);
        },
        Phase::Scanning => {
            let (iter, batch, r) = supplied_of(v.iter, v.batch, reply);
            let u = ResolverView { iter, batch, capacity: room.batch, ..v };
            assert(r is Ok);
            lemma_advance_clean(u);
        },
        Phase::TypeProbe => {
            lemma_advance_clean(v);
        },
        Phase::DevProbe => {
            lemma_advance_clean(v);
        },
        Phase::Descending => {
            match reply {
                Reply::Opened(fd) => {
                    lemma_begin_scan_clean(descended(v, fd));
                },
                _ => {},
            }
        },
        Phase::Leaving => {
            let u = left(v);
            if u.stack.len() > 0 {
                assert(u.stack.last() == v.stack[u.stack.len() - 1]);
                lemma_begin_scan_clean(u);
            }
        },
        _ => {},
    }
}

/// A search that meets no match gives up, and only then: where no reply
/// reports the node sought, none is a failure that the search does not
/// absorb, every batch is made of whole records and the allocator grants
/// what is asked, the outcome, once it is decided, is `Error::NotFound`. By
/// `lemma_not_found_only_when_exhausted` and `lemma_roots_in_turn` it is
/// decided only when every candidate directory has been searched in turn.
pub proof fn lemma_unmatched_run_is_not_found(
    v: ResolverView,
    replies: Seq<Reply>,
    rooms: Seq<Room>,
)
    requires
        inv(v),
        clean(v),
        decided(v) ==> v.outcome == Err::<(), Error>(Error::NotFound),
        benign_run(v, replies, rooms),
    ensures
        ({
            let w = run(v, replies, rooms);
            &&& inv(w)
            &&& decided(w) ==> w.outcome == Err::<(), Error>(Error::NotFound)
        }),
    decreases replies.len(),
{
    if replies.len() > 0 && rooms.len() > 0 {
        let w = next_state(v, replies[0], rooms[0]);
        lemma_next_state_inv(v, replies[0], rooms[0]);
        if decided(v) {
            lemma_decided_is_kept(v, replies, rooms);
        } else {
            lemma_benign_step(v, replies[0], rooms[0]);
            lemma_unmatched_run_is_not_found(w, replies.skip(1), rooms.skip(1));
        }
    }
}

/// A search that meets the node ends with its path, whatever follows: where
/// a character device with the number sought is met in state `u` and the
/// path buffer has the room, the outcome after any further replies is the
/// path of the node's name below the directory that it was met in.
pub proof fn lemma_first_match_wins(
    u: ResolverView,
    st: FileStatus,
    met: Room,
    replies: Seq<Reply>,
    rooms: Seq<Room>,
)
    requires
        inv(u),
        u.phase == Phase::DevProbe,
        st.rdev == u.target,
        granted(met, u.path.len() + u.entry.len() + 2),
    ensures
        ({
            let w = run(next_state(u, Reply::Status(st), met), replies, rooms);
            &&& decided(w)
            &&& w.outcome == Ok::<(), Error>(())
            &&& w.path == joined(u.path, u.entry)
        }),
{
    lemma_match_completes_path(u, st, met);
    lemma_next_state_inv(u, Reply::Status(st), met);
    lemma_decided_is_kept(next_state(u, Reply::Status(st), met), replies, rooms);
}

/// A guess that hits ends the search well wherever the path buffer has the
/// room: where the candidate directory is opened and the guessed name is a
/// character device with the number sought, and the buffer holds memory for
/// the path of the guessed name and the zero byte behind it, the outcome is
/// the path of the guessed name below the candidate directory, whatever the
/// allocator would have answered.
pub proof fn lemma_guess_hit_ends_well(
    v: ResolverView,
    fd: i32,
    st: FileStatus,
    opened: ResolverView,
    found: ResolverView,
)
    requires
        inv(v),
        v.phase == Phase::Rooting,
        st.file_type == FileType::Character,
        st.rdev == v.target,
        moved(v, Reply::Opened(fd), opened),
        moved(opened, Reply::Status(st), found),
        v.path.len() + v.guess.len() + 2 <= v.path_capacity,
    ensures
        found.outcome == Ok::<(), Error>(()),
        found.path == joined(v.roots[v.root as int], guess_name(v.target).unwrap()),
        action_of(found) == (Action::Close { fd }),
{
    assert(opened.stack.last() == DirView { fd, tell: 0, order: v.order });
    assert(found.stack =~= opened.stack);
}

} // verus!
