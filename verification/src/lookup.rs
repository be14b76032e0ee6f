//! From a process to its controlling terminal: the status record is read, and
//! where it names a terminal the node of that terminal is searched for.
//!
//! A process without a controlling terminal is no failure: the lookup ends
//! well, with no terminal.

use vstd::prelude::*;
use crate::buffer::{contents, wf, DirentBuf, VecBuffer};
use crate::dev::guess_name;
use crate::dirent::ByteOrder;
use crate::error::Error;
use crate::os::{Action, Reply};
use crate::pinfo::RawProcessInfo;
use crate::query::{
    query_action, query_name, query_next, query_start, self_stat_path, stat_path, QueryPhase,
    QueryView, StatQuery,
};
use crate::resolve::{
    action_of, moved, name_of, names, started, Phase, Resolver, ResolverView,
};
use crate::tty::{default_buffers, default_paths, dev_dir, name_offset, TtyInfo, TtyView};

verus! {

/// What a `ProcessInfo` holds.
pub struct ProcessView {
    pub pid: u32,
    pub session: u32,
    pub tty: Option<TtyView>,
}

/// What a process says of itself, with its controlling terminal found.
pub struct ProcessInfo<B: DirentBuf> {
    /// The process id.
    pub pid: u32,
    /// The session id.
    pub session: u32,
    /// The controlling terminal, where the process has one.
    pub tty: Option<TtyInfo<B>>,
}

impl<B: DirentBuf> View for ProcessInfo<B> {
    type V = ProcessView;

    open spec fn view(&self) -> ProcessView {
        ProcessView {
            pid: self.pid,
            session: self.session,
            tty: match self.tty {
                Some(t) => Some(t@),
                None => None,
            },
        }
    }
}

/// What waits for the search to start.
pub struct Pending {
    /// The candidate directories.
    pub roots: Seq<Seq<u8>>,
    /// What the entry buffer holds.
    pub batch: Seq<u8>,
    /// The capacity of the entry buffer.
    pub capacity: nat,
    /// What the path buffer holds.
    pub path: Seq<u8>,
    /// The capacity of the path buffer.
    pub path_capacity: nat,
}

/// The state of a lookup.
pub struct LookupView {
    /// The query for the status record.
    pub query: QueryView,
    /// What waits for the search to start; `None` once the record named a
    /// terminal.
    pub pending: Option<Pending>,
    /// The search for the node, once the record named a terminal of a
    /// well-known class.
    pub search: Option<ResolverView>,
    /// Why no search was started though the record named a device.
    pub refused: Option<Error>,
}

/// The device that the record names as the controlling terminal, once the
/// query is over and where it ended well.
pub open spec fn named_device(q: QueryView) -> Option<crate::dev::Dev> {
    if q.phase == QueryPhase::Done {
        match q.outcome {
            Ok(info) => info.tty,
            Err(_) => None,
        }
    } else {
        None
    }
}

/// The reply took the lookup from `v` to `w`.
///
/// While the search runs, the reply is the search's. Before, it is the
/// query's; and when the query is over and its record names a device, the
/// search for that device starts, or is refused at once where the device is no
/// terminal.
pub open spec fn lookup_moved(v: LookupView, reply: Reply, w: LookupView) -> bool {
    match v.search {
        Some(s) => {
            &&& w.search matches Some(t)
            &&& moved(s, reply, t)
            &&& w.query == v.query
            &&& w.pending == v.pending
            &&& w.refused == v.refused
        },
        None => {
            &&& w.query == query_next(v.query, reply)
            &&& if v.refused is None && v.pending is Some && named_device(w.query) is Some {
                let dev = named_device(w.query).unwrap();
                let p = v.pending.unwrap();
                &&& w.pending is None
                &&& match guess_name(dev) {
                    Some(_) => {
                        &&& w.refused is None
                        &&& w.search matches Some(t)
                        &&& started(t, dev, p.roots, p.batch, p.capacity, p.path, p.path_capacity)
                    },
                    None => w.refused == Some(Error::NotATerminal) && w.search is None,
                }
            } else {
                &&& w.pending == v.pending
                &&& w.search is None
                &&& w.refused == v.refused
            }
        },
    }
}

/// The action that the lookup in state `v` waits for.
pub open spec fn lookup_action(v: LookupView) -> Action {
    match v.search {
        Some(s) => action_of(s),
        None => query_action(v.query),
    }
}

/// The name that the pending action is about; empty where it is about none.
pub open spec fn lookup_name(v: LookupView) -> Seq<u8> {
    match v.search {
        Some(s) => name_of(s),
        None => query_name(v.query),
    }
}

/// Whether the lookup in state `v` is over.
pub open spec fn lookup_done(v: LookupView) -> bool {
    match v.search {
        Some(s) => s.phase == Phase::Done,
        None => v.query.phase == QueryPhase::Done,
    }
}

/// What the lookup in state `v` found, once it is over: the process id, the
/// session id, and whether the path of a terminal is to be had. It failed
/// where the query failed, where the record names a device that is no
/// terminal, and where the search failed.
pub open spec fn lookup_outcome(v: LookupView) -> Option<Result<(u32, u32, bool), Error>> {
    if !lookup_done(v) {
        None
    } else {
        match v.query.outcome {
            Err(e) => Some(Err(e)),
            Ok(info) => match v.search {
                Some(s) => match s.outcome {
                    Ok(_) => Some(Ok((info.pid, info.session, true))),
                    Err(e) => Some(Err(e)),
                },
                None => match v.refused {
                    Some(e) => Some(Err(e)),
                    None => Some(Ok((info.pid, info.session, false))),
                },
            },
        }
    }
}

/// The state in which a lookup starts.
pub open spec fn lookup_start(
    file: Seq<u8>,
    roots: Seq<Seq<u8>>,
    batch: Seq<u8>,
    capacity: nat,
    path: Seq<u8>,
    path_capacity: nat,
) -> LookupView {
    LookupView {
        query: query_start(file),
        pending: Some(Pending { roots, batch, capacity, path, path_capacity }),
        search: None,
        refused: None,
    }
}

/// A process without a controlling terminal is no failure: where the record
/// names none, the lookup is over when the query is, it never asks for a
/// directory, and it ends well with what the record says and no terminal.
pub proof fn lemma_no_terminal_is_no_failure(v: LookupView, reply: Reply, w: LookupView)
    requires
        v.search is None,
        v.refused is None,
        lookup_moved(v, reply, w),
        w.query.phase == QueryPhase::Done,
        w.query.outcome matches Ok(info) && info.tty is None,
    ensures
        lookup_done(w),
        lookup_action(w) == Action::Done,
        lookup_outcome(w) == Some(
            Ok::<(u32, u32, bool), Error>(
                (w.query.outcome->Ok_0.pid, w.query.outcome->Ok_0.session, false),
            ),
        ),
{
}

/// A lookup of the controlling terminal of a process.
pub struct Lookup<B1: DirentBuf, B2: DirentBuf> {
    query: StatQuery,
    order: ByteOrder,
    roots: Option<Vec<Vec<u8>>>,
    dirents: Option<B1>,
    path: Option<B2>,
    search: Option<Resolver<B1, B2>>,
    refused: Option<Error>,
}

impl<B1: DirentBuf, B2: DirentBuf> View for Lookup<B1, B2> {
    type V = LookupView;

    closed spec fn view(&self) -> LookupView {
        LookupView {
            query: self.query@,
            pending: if self.roots is Some && self.dirents is Some && self.path is Some {
                Some(
                    Pending {
                        roots: names(self.roots.unwrap()@),
                        batch: contents(&self.dirents.unwrap()),
                        capacity: self.dirents.unwrap().storage().len(),
                        path: contents(&self.path.unwrap()),
                        path_capacity: self.path.unwrap().storage().len(),
                    },
                )
            } else {
                None
            },
            search: match self.search {
                Some(s) => Some(s@),
                None => None,
            },
            refused: self.refused,
        }
    }
}

impl<B1: DirentBuf, B2: DirentBuf> Lookup<B1, B2> {
    /// The parts are sound, and the search runs exactly where the record named
    /// a terminal of a well-known class.
    pub closed spec fn wf(&self) -> bool {
        &&& self.query.wf()
        &&& match self.search {
            Some(s) => s.wf(),
            None => true,
        }
        &&& if self.search is Some || self.refused is Some {
            &&& self.roots is None
            &&& self.dirents is None
            &&& self.path is None
            &&& named_device(self.query@) is Some
            &&& !(self.search is Some && self.refused is Some)
        } else {
            &&& self.roots is Some
            &&& self.dirents is Some
            &&& self.path is Some
            &&& wf(&self.dirents.unwrap())
            &&& wf(&self.path.unwrap())
            &&& named_device(self.query@) is None
        }
    }

    /// The lookup that starts with `query` and then searches below `dirs`.
    pub fn new(
        query: StatQuery,
        dirs: Vec<Vec<u8>>,
        order: ByteOrder,
        dirent_buf: B1,
        path_buf: B2,
    ) -> (l: Self)
        requires
            query.wf(),
            query@.phase != QueryPhase::Done,
            wf(&dirent_buf),
            wf(&path_buf),
        ensures
            l.wf(),
            l@ == (LookupView {
                query: query@,
                pending: Some(
                    Pending {
                        roots: names(dirs@),
                        batch: contents(&dirent_buf),
                        capacity: dirent_buf.storage().len(),
                        path: contents(&path_buf),
                        path_capacity: path_buf.storage().len(),
                    },
                ),
                search: None,
                refused: None,
            }),
    {
        Lookup {
            query,
            order,
            roots: Some(dirs),
            dirents: Some(dirent_buf),
            path: Some(path_buf),
            search: None,
            refused: None,
        }
    }

    /// The action that the lookup waits for.
    pub fn action(&self) -> (a: Action)
        requires
            self.wf(),
        ensures
            a == lookup_action(self@),
    {
        match &self.search {
            Some(s) => s.action(),
            None => self.query.action(),
        }
    }

    /// The name that the pending action is about; empty where it is about none.
    pub fn name(&self) -> (name: &[u8])
        requires
            self.wf(),
        ensures
            name@ == lookup_name(self@),
    {
        match &self.search {
            Some(s) => s.name(),
            None => self.query.name(),
        }
    }

    /// Whether the lookup is over.
    pub fn is_done(&self) -> (b: bool)
        requires
            self.wf(),
        ensures
            b == lookup_done(self@),
    {
        match &self.search {
            Some(s) => s.is_done(),
            None => self.query.is_done(),
        }
    }

    /// Takes the reply to the pending action and moves on to the next.
    ///
    /// A reply that does not answer the pending action changes nothing.
    pub fn step(&mut self, reply: Reply)
        requires
            old(self).wf(),
        ensures
            final(self).wf(),
            lookup_moved(old(self)@, reply, final(self)@),
    {
        if self.search.is_some() {
            let mut search = self.search.take().unwrap();
            search.step(reply);
            self.search = Some(search);
            return;
        }
        if self.refused.is_some() {
            self.query.step(reply);
            return;
        }
        self.query.step(reply);
        if self.query.is_done() {
            match self.query.outcome() {
                Ok(info) => match info.tty {
                    Some(dev) => {
                        let roots = self.roots.take().unwrap();
                        let dirents = self.dirents.take().unwrap();
                        let path = self.path.take().unwrap();
                        match Resolver::new(dev, roots, self.order, dirents, path) {
                            Ok(m) => {
                                self.search = Some(m);
                            },
                            Err(e) => {
                                self.refused = Some(e);
                            },
                        }
                    },
                    None => {},
                },
                Err(_) => {},
            }
        }
    }

    /// What the lookup found, once it is over; `None` before.
    pub fn into_process_info(self) -> (r: Option<Result<ProcessInfo<B2>, Error>>)
        requires
            self.wf(),
        ensures
            match r {
                None => lookup_outcome(self@) is None,
                Some(Err(e)) => lookup_outcome(self@) == Some(Err::<(u32, u32, bool), Error>(e)),
                Some(Ok(p)) => {
                    &&& lookup_outcome(self@) == Some(
                        Ok::<(u32, u32, bool), Error>((p.pid, p.session, p.tty is Some)),
                    )
                    &&& match p.tty {
                        Some(t) => {
                            &&& t.wf()
                            &&& self@.search matches Some(s)
                            &&& t@ == (TtyView {
                                dev: s.target,
                                path: s.path,
                                offset: name_offset(s.path),
                            })
                        },
                        None => true,
                    }
                },
            },
    {
        let Lookup { query, search, refused, .. } = self;
        match search {
            Some(s) => {
                let info = query.outcome();
                match s.finish() {
                    None => None,
                    Some(Err(e)) => Some(Err(e)),
                    Some(Ok(t)) => match info {
                        Ok(i) => Some(
                            Ok(ProcessInfo { pid: i.pid, session: i.session, tty: Some(t) }),
                        ),
                        Err(e) => Some(Err(e)),
                    },
                }
            },
            None => match query.finish() {
                None => None,
                Some(Err(e)) => Some(Err(e)),
                Some(Ok(i)) => match refused {
                    Some(e) => Some(Err(e)),
                    None => Some(Ok(ProcessInfo { pid: i.pid, session: i.session, tty: None })),
                },
            },
        }
    }

    /// The terminal that the lookup found, once it is over; `None` before, and
    /// `Some(Ok(None))` where the process has no controlling terminal.
    pub fn into_tty(self) -> (r: Option<Result<Option<TtyInfo<B2>>, Error>>)
        requires
            self.wf(),
        ensures
            match r {
                None => lookup_outcome(self@) is None,
                Some(Err(e)) => lookup_outcome(self@) == Some(Err::<(u32, u32, bool), Error>(e)),
                Some(Ok(tty)) => {
                    &&& lookup_outcome(self@) matches Some(Ok(found))
                    &&& found.2 == (tty is Some)
                    &&& match tty {
                        Some(t) => {
                            &&& t.wf()
                            &&& self@.search matches Some(s)
                            &&& t@ == (TtyView {
                                dev: s.target,
                                path: s.path,
                                offset: name_offset(s.path),
                            })
                        },
                        None => true,
                    }
                },
            },
    {
        match self.into_process_info() {
            None => None,
            Some(Err(e)) => Some(Err(e)),
            Some(Ok(p)) => Some(Ok(p.tty)),
        }
    }
}

impl<B: DirentBuf> TtyInfo<B> {
    /// The lookup of the controlling terminal of the calling process, below
    /// `dirs`, with the buffers given.
    pub fn current_with_buffers_in<B1: DirentBuf>(
        dirs: Vec<Vec<u8>>,
        dirent_buf: B1,
        path_buf: B,
    ) -> (l: Lookup<B1, B>)
        requires
            wf(&dirent_buf),
            wf(&path_buf),
        ensures
            l.wf(),
            l@ == lookup_start(
                self_stat_path(),
                names(dirs@),
                contents(&dirent_buf),
                dirent_buf.storage().len(),
                contents(&path_buf),
                path_buf.storage().len(),
            ),
    {
        Lookup::new(
            RawProcessInfo::current(),
            dirs,
            ByteOrder::native(),
            dirent_buf,
            path_buf,
        )
    }

    /// The lookup of the controlling terminal of the process `pid`, below
    /// `dirs`, with the buffers given.
    pub fn for_process_with_buffers_in<B1: DirentBuf>(
        pid: u32,
        dirs: Vec<Vec<u8>>,
        dirent_buf: B1,
        path_buf: B,
    ) -> (l: Lookup<B1, B>)
        requires
            wf(&dirent_buf),
            wf(&path_buf),
        ensures
            l.wf(),
            l@ == lookup_start(
                stat_path(pid),
                names(dirs@),
                contents(&dirent_buf),
                dirent_buf.storage().len(),
                contents(&path_buf),
                path_buf.storage().len(),
            ),
    {
        Lookup::new(
            RawProcessInfo::for_process(pid),
            dirs,
            ByteOrder::native(),
            dirent_buf,
            path_buf,
        )
    }

    /// The lookup of the controlling terminal of the calling process, below
    /// `/dev`, with the buffers given.
    pub fn current_with_buffers<B1: DirentBuf>(
        dirent_buf: B1,
        path_buf: B,
    ) -> (l: Lookup<B1, B>)
        requires
            wf(&dirent_buf),
            wf(&path_buf),
        ensures
            l.wf(),
            l@ == lookup_start(
                self_stat_path(),
                seq![dev_dir()],
                contents(&dirent_buf),
                dirent_buf.storage().len(),
                contents(&path_buf),
                path_buf.storage().len(),
            ),
    {
        Lookup::new(
            RawProcessInfo::current(),
            default_paths(),
            ByteOrder::native(),
            dirent_buf,
            path_buf,
        )
    }

    /// The lookup of the controlling terminal of the process `pid`, below
    /// `/dev`, with the buffers given.
    pub fn for_process_with_buffers<B1: DirentBuf>(
        pid: u32,
        dirent_buf: B1,
        path_buf: B,
    ) -> (l: Lookup<B1, B>)
        requires
            wf(&dirent_buf),
            wf(&path_buf),
        ensures
            l.wf(),
            l@ == lookup_start(
                stat_path(pid),
                seq![dev_dir()],
                contents(&dirent_buf),
                dirent_buf.storage().len(),
                contents(&path_buf),
                path_buf.storage().len(),
            ),
    {
        Lookup::new(
            RawProcessInfo::for_process(pid),
            default_paths(),
            ByteOrder::native(),
            dirent_buf,
            path_buf,
        )
    }
}

impl TtyInfo<VecBuffer> {
    /// The lookup of the controlling terminal of the calling process, below
    /// `dirs`, with buffers that grow as needed.
    pub fn current_in(
        dirs: Vec<Vec<u8>>,
    ) -> (l: Lookup<VecBuffer, VecBuffer>)
        ensures
            l.wf(),
            l@ == lookup_start(
                self_stat_path(),
                names(dirs@),
                Seq::empty(),
                0,
                Seq::empty(),
                0,
            ),
    {
        let (dirents, path) = default_buffers();
        Lookup::new(
            RawProcessInfo::current(),
            dirs,
            ByteOrder::native(),
            dirents,
            path,
        )
    }

    /// The lookup of the controlling terminal of the process `pid`, below
    /// `dirs`, with buffers that grow as needed.
    pub fn for_process_in(
        pid: u32,
        dirs: Vec<Vec<u8>>,
    ) -> (l: Lookup<VecBuffer, VecBuffer>)
        ensures
            l.wf(),
            l@ == lookup_start(
                stat_path(pid),
                names(dirs@),
                Seq::empty(),
                0,
                Seq::empty(),
                0,
            ),
    {
        let (dirents, path) = default_buffers();
        Lookup::new(
            RawProcessInfo::for_process(pid),
            dirs,
            ByteOrder::native(),
            dirents,
            path,
        )
    }

    /// The lookup of the controlling terminal of the calling process, below
    /// `/dev`, with buffers that grow as needed.
    pub fn current() -> (l: Lookup<VecBuffer, VecBuffer>)
        ensures
            l.wf(),
            l@ == lookup_start(
                self_stat_path(),
                seq![dev_dir()],
                Seq::empty(),
                0,
                Seq::empty(),
                0,
            ),
    {
        let (dirents, path) = default_buffers();
        Lookup::new(
            RawProcessInfo::current(),
            default_paths(),
            ByteOrder::native(),
            dirents,
            path,
        )
    }

    /// The lookup of the controlling terminal of the process `pid`, below
    /// `/dev`, with buffers that grow as needed.
    pub fn for_process(
        pid: u32,
    ) -> (l: Lookup<VecBuffer, VecBuffer>)
        ensures
            l.wf(),
            l@ == lookup_start(
                stat_path(pid),
                seq![dev_dir()],
                Seq::empty(),
                0,
                Seq::empty(),
                0,
            ),
    {
        let (dirents, path) = default_buffers();
        Lookup::new(
            RawProcessInfo::for_process(pid),
            default_paths(),
            ByteOrder::native(),
            dirents,
            path,
        )
    }
}

impl<B: DirentBuf> ProcessInfo<B> {
    /// The lookup of the status and the controlling terminal of the calling
    /// process, below `dirs`, with the buffers given.
    pub fn current_with_buffers_in<B1: DirentBuf>(
        dirs: Vec<Vec<u8>>,
        dirent_buf: B1,
        path_buf: B,
    ) -> (l: Lookup<B1, B>)
        requires
            wf(&dirent_buf),
            wf(&path_buf),
        ensures
            l.wf(),
            l@ == lookup_start(
                self_stat_path(),
                names(dirs@),
                contents(&dirent_buf),
                dirent_buf.storage().len(),
                contents(&path_buf),
                path_buf.storage().len(),
            ),
    {
        Lookup::new(
            RawProcessInfo::current(),
            dirs,
            ByteOrder::native(),
            dirent_buf,
            path_buf,
        )
    }

    /// The lookup of the status and the controlling terminal of the process
    /// `pid`, below `dirs`, with the buffers given.
    pub fn for_process_with_buffers_in<B1: DirentBuf>(
        pid: u32,
        dirs: Vec<Vec<u8>>,
        dirent_buf: B1,
        path_buf: B,
    ) -> (l: Lookup<B1, B>)
        requires
            wf(&dirent_buf),
            wf(&path_buf),
        ensures
            l.wf(),
            l@ == lookup_start(
                stat_path(pid),
                names(dirs@),
                contents(&dirent_buf),
                dirent_buf.storage().len(),
                contents(&path_buf),
                path_buf.storage().len(),
            ),
    {
        Lookup::new(
            RawProcessInfo::for_process(pid),
            dirs,
            ByteOrder::native(),
            dirent_buf,
            path_buf,
        )
    }

    /// The lookup of the status and the controlling terminal of the calling
    /// process, below `/dev`, with the buffers given.
    pub fn current_with_buffers<B1: DirentBuf>(
        dirent_buf: B1,
        path_buf: B,
    ) -> (l: Lookup<B1, B>)
        requires
            wf(&dirent_buf),
            wf(&path_buf),
        ensures
            l.wf(),
            l@ == lookup_start(
                self_stat_path(),
                seq![dev_dir()],
                contents(&dirent_buf),
                dirent_buf.storage().len(),
                contents(&path_buf),
                path_buf.storage().len(),
            ),
    {
        Lookup::new(
            RawProcessInfo::current(),
            default_paths(),
            ByteOrder::native(),
            dirent_buf,
            path_buf,
        )
    }

    /// The lookup of the status and the controlling terminal of the process
    /// `pid`, below `/dev`, with the buffers given.
    pub fn for_process_with_buffers<B1: DirentBuf>(
        pid: u32,
        dirent_buf: B1,
        path_buf: B,
    ) -> (l: Lookup<B1, B>)
        requires
            wf(&dirent_buf),
            wf(&path_buf),
        ensures
            l.wf(),
            l@ == lookup_start(
                stat_path(pid),
                seq![dev_dir()],
                contents(&dirent_buf),
                dirent_buf.storage().len(),
                contents(&path_buf),
                path_buf.storage().len(),
            ),
    {
        Lookup::new(
            RawProcessInfo::for_process(pid),
            default_paths(),
            ByteOrder::native(),
            dirent_buf,
            path_buf,
        )
    }
}

impl ProcessInfo<VecBuffer> {
    /// The lookup of the status and the controlling terminal of the calling
    /// process, below `dirs`, with buffers that grow as needed.
    pub fn current_in(
        dirs: Vec<Vec<u8>>,
    ) -> (l: Lookup<VecBuffer, VecBuffer>)
        ensures
            l.wf(),
            l@ == lookup_start(
                self_stat_path(),
                names(dirs@),
                Seq::empty(),
                0,
                Seq::empty(),
                0,
            ),
    {
        let (dirents, path) = default_buffers();
        Lookup::new(
            RawProcessInfo::current(),
            dirs,
            ByteOrder::native(),
            dirents,
            path,
        )
    }

    /// The lookup of the status and the controlling terminal of the process
    /// `pid`, below `dirs`, with buffers that grow as needed.
    pub fn for_process_in(
        pid: u32,
        dirs: Vec<Vec<u8>>,
    ) -> (l: Lookup<VecBuffer, VecBuffer>)
        ensures
            l.wf(),
            l@ == lookup_start(
                stat_path(pid),
                names(dirs@),
                Seq::empty(),
                0,
                Seq::empty(),
                0,
            ),
    {
        let (dirents, path) = default_buffers();
        Lookup::new(
            RawProcessInfo::for_process(pid),
            dirs,
            ByteOrder::native(),
            dirents,
            path,
        )
    }

    /// The lookup of the status and the controlling terminal of the calling
    /// process, below `/dev`, with buffers that grow as needed.
    pub fn current() -> (l: Lookup<VecBuffer, VecBuffer>)
        ensures
            l.wf(),
            l@ == lookup_start(
                self_stat_path(),
                seq![dev_dir()],
                Seq::empty(),
                0,
                Seq::empty(),
                0,
            ),
    {
        let (dirents, path) = default_buffers();
        Lookup::new(
            RawProcessInfo::current(),
            default_paths(),
            ByteOrder::native(),
            dirents,
            path,
        )
    }

    /// The lookup of the status and the controlling terminal of the process
    /// `pid`, below `/dev`, with buffers that grow as needed.
    pub fn for_process(
        pid: u32,
    ) -> (l: Lookup<VecBuffer, VecBuffer>)
        ensures
            l.wf(),
            l@ == lookup_start(
                stat_path(pid),
                seq![dev_dir()],
                Seq::empty(),
                0,
                Seq::empty(),
                0,
            ),
    {
        let (dirents, path) = default_buffers();
        Lookup::new(
            RawProcessInfo::for_process(pid),
            default_paths(),
            ByteOrder::native(),
            dirents,
            path,
        )
    }
}

} // verus!
