//! Reading the status record of a process.
//!
//! The record is read from a file below `/proc` into at most 1024 bytes: the
//! file is opened, read until it ends or the bytes are full, and closed; then
//! the record is parsed. A read that is cut short or interrupted is made
//! again.

use vstd::prelude::*;
use crate::error::{is_transient, transient, Error};
use crate::os::{Action, Reply};
use crate::pinfo::{parse_record, RawProcessInfo};
use crate::text::decimal_digits;
use crate::trusted::push_decimal;

verus! {

/// The most bytes of a status record that are read.
pub const RECORD_MAX: usize = 1024;

/// `/proc/`
pub open spec fn proc_prefix() -> Seq<u8> {
    seq![0x2fu8, 0x70u8, 0x72u8, 0x6fu8, 0x63u8, 0x2fu8]
}

/// `/stat`
pub open spec fn stat_suffix() -> Seq<u8> {
    seq![0x2fu8, 0x73u8, 0x74u8, 0x61u8, 0x74u8]
}

/// `self`
pub open spec fn self_name() -> Seq<u8> {
    seq![0x73u8, 0x65u8, 0x6cu8, 0x66u8]
}

/// The path of the status record of the calling process.
pub open spec fn self_stat_path() -> Seq<u8> {
    proc_prefix() + self_name() + stat_suffix()
}

/// The path of the status record of the process `pid`.
pub open spec fn stat_path(pid: u32) -> Seq<u8> {
    proc_prefix() + decimal_digits(pid as nat) + stat_suffix()
}

/// What a query waits for.
#[derive(Clone, Copy, Debug, PartialEq, Eq, Structural)]
pub enum QueryPhase {
    /// For the file to be opened.
    Opening,
    /// For more of the record.
    Reading,
    /// For the file to be closed; the outcome is decided.
    Closing,
    /// For nothing.
    Done,
}

/// The state of a query.
pub struct QueryView {
    /// The path of the file.
    pub path: Seq<u8>,
    /// What has been read of the record.
    pub data: Seq<u8>,
    /// The descriptor of the file, once it is open.
    pub fd: i32,
    /// What the query waits for.
    pub phase: QueryPhase,
    /// What the record says, once that is decided.
    pub outcome: Result<RawProcessInfo, Error>,
}

/// A query for what a process says of itself.
pub struct StatQuery {
    path: Vec<u8>,
    data: Vec<u8>,
    fd: i32,
    phase: QueryPhase,
    outcome: Result<RawProcessInfo, Error>,
}

impl View for StatQuery {
    type V = QueryView;

    closed spec fn view(&self) -> QueryView {
        QueryView {
            path: self.path@,
            data: self.data@,
            fd: self.fd,
            phase: self.phase,
            outcome: self.outcome,
        }
    }
}

/// The state in which the query of the file `path` starts.
pub open spec fn query_start(path: Seq<u8>) -> QueryView {
    QueryView {
        path,
        data: Seq::empty(),
        fd: -1i32,
        phase: QueryPhase::Opening,
        outcome: Err(Error::InvalidData),
    }
}

/// As much of `bytes` as still fits a record of which `have` bytes are read.
pub open spec fn fitting(bytes: Seq<u8>, have: nat) -> Seq<u8> {
    if have + bytes.len() <= RECORD_MAX {
        bytes
    } else {
        bytes.take(RECORD_MAX - have)
    }
}

/// What a reply makes of the state `v`.
pub open spec fn query_next(v: QueryView, reply: Reply) -> QueryView {
    match v.phase {
        QueryPhase::Opening => match reply {
            Reply::Opened(fd) => QueryView { fd, phase: QueryPhase::Reading, ..v },
            Reply::Failed(code) => if is_transient(code) {
                v
            } else {
                QueryView { phase: QueryPhase::Done, outcome: Err(Error::Os(code)), ..v }
            },
            _ => v,
        },
        QueryPhase::Reading => match reply {
            Reply::Data(bytes) => {
                let data = v.data + fitting(bytes@, v.data.len());
                if bytes@.len() == 0 || data.len() >= RECORD_MAX {
                    QueryView { data, phase: QueryPhase::Closing, outcome: parse_record(data), ..v }
                } else {
                    QueryView { data, ..v }
                }
            },
            Reply::Failed(code) => if is_transient(code) {
                v
            } else {
                QueryView { phase: QueryPhase::Closing, outcome: Err(Error::Os(code)), ..v }
            },
            _ => v,
        },
        QueryPhase::Closing => match reply {
            Reply::Closed => QueryView { phase: QueryPhase::Done, ..v },
            Reply::Failed(_) => QueryView { phase: QueryPhase::Done, ..v },
            _ => v,
        },
        QueryPhase::Done => v,
    }
}

/// The action that the query in state `v` waits for.
pub open spec fn query_action(v: QueryView) -> Action {
    match v.phase {
        QueryPhase::Opening => Action::OpenFile,
        QueryPhase::Reading => Action::Read {
            fd: v.fd,
            count: (RECORD_MAX - v.data.len()) as usize,
        },
        QueryPhase::Closing => Action::Close { fd: v.fd },
        QueryPhase::Done => Action::Done,
    }
}

/// The name that the pending action is about; empty where it is about none.
pub open spec fn query_name(v: QueryView) -> Seq<u8> {
    match v.phase {
        QueryPhase::Opening => v.path,
        _ => Seq::empty(),
    }
}

/// What holds of every state that a query reaches: while it reads, the record
/// is not full; it never holds more than the most that is read.
pub open spec fn query_inv(v: QueryView) -> bool {
    &&& v.data.len() <= RECORD_MAX
    &&& v.phase == QueryPhase::Opening || v.phase == QueryPhase::Reading ==> v.data.len()
        < RECORD_MAX
}

/// Whatever the reply, a query stays within the states that `query_inv`
/// describes.
pub proof fn lemma_query_next_inv(v: QueryView, reply: Reply)
    requires
        query_inv(v),
    ensures
        query_inv(query_next(v, reply)),
{
}

/// A record that comes in pieces is read as the same record: where the pieces
/// `a` and `b` together do not fill the record and the file then ends, what is
/// parsed is `a` followed by `b`.
pub proof fn lemma_pieces_join(v: QueryView, a: &[u8], b: &[u8], end: &[u8])
    requires
        v.phase == QueryPhase::Reading,
        v.data.len() == 0,
        a@.len() > 0,
        b@.len() > 0,
        a@.len() + b@.len() < RECORD_MAX,
        end@.len() == 0,
    ensures
        ({
            let w = query_next(
                query_next(query_next(v, Reply::Data(a)), Reply::Data(b)),
                Reply::Data(end),
            );
            &&& w.phase == QueryPhase::Closing
            &&& w.outcome == parse_record(a@ + b@)
        }),
{
    let one = query_next(v, Reply::Data(a));
    assert(one.data =~= a@);
    let two = query_next(one, Reply::Data(b));
    assert(two.data =~= a@ + b@);
    let three = query_next(two, Reply::Data(end));
    assert(three.data =~= a@ + b@);
}

impl StatQuery {
    /// The state is one that a query reaches.
    pub closed spec fn wf(&self) -> bool {
        query_inv(self@)
    }

    /// The query of the file `path`.
    pub fn new(path: Vec<u8>) -> (q: StatQuery)
        ensures
            q.wf(),
            q@ == query_start(path@),
    {
        StatQuery {
            path,
            data: Vec::new(),
            fd: -1,
            phase: QueryPhase::Opening,
            outcome: Err(Error::InvalidData),
        }
    }

    /// The action that the query waits for.
    pub fn action(&self) -> (a: Action)
        requires
            self.wf(),
        ensures
            a == query_action(self@),
    {
        match self.phase {
            QueryPhase::Opening => Action::OpenFile,
            QueryPhase::Reading => Action::Read {
                fd: self.fd,
                count: RECORD_MAX - self.data.len(),
            },
            QueryPhase::Closing => Action::Close { fd: self.fd },
            QueryPhase::Done => Action::Done,
        }
    }

    /// The name that the pending action is about; empty where it is about none.
    pub fn name(&self) -> (name: &[u8])
        ensures
            name@ == query_name(self@),
    {
        match self.phase {
            QueryPhase::Opening => self.path.as_slice(),
            _ => {
                let all = self.path.as_slice();
                let none = &all[0..0];
                assert(none@ =~= Seq::<u8>::empty());
                none
            },
        }
    }

    /// Whether the query is over.
    pub fn is_done(&self) -> (b: bool)
        ensures
            b == (self@.phase == QueryPhase::Done),
    {
        self.phase == QueryPhase::Done
    }

    /// Takes the reply to the pending action and moves on to the next.
    ///
    /// A reply that does not answer the pending action changes nothing.
    pub fn step(&mut self, reply: Reply)
        requires
            old(self).wf(),
        ensures
            final(self).wf(),
            final(self)@ == query_next(old(self)@, reply),
    {
        match self.phase {
            QueryPhase::Opening => match reply {
                Reply::Opened(fd) => {
                    self.fd = fd;
                    self.phase = QueryPhase::Reading;
                },
                Reply::Failed(code) => {
                    if !transient(code) {
                        self.phase = QueryPhase::Done;
                        self.outcome = Err(Error::Os(code));
                    }
                },
                _ => {},
            },
            QueryPhase::Reading => match reply {
                Reply::Data(bytes) => {
                    let room = RECORD_MAX - self.data.len();
                    if bytes.len() <= room {
                        self.data.extend_from_slice(bytes);
                    } else {
                        self.data.extend_from_slice(&bytes[0..room]);
                    }
                    assert(self.data@ =~= old(self).data@ + fitting(bytes@, old(self).data@.len()));
                    if bytes.len() == 0 || self.data.len() >= RECORD_MAX {
                        self.phase = QueryPhase::Closing;
                        self.outcome = RawProcessInfo::parse(self.data.as_slice());
                    }
                },
                Reply::Failed(code) => {
                    if !transient(code) {
                        self.phase = QueryPhase::Closing;
                        self.outcome = Err(Error::Os(code));
                    }
                },
                _ => {},
            },
            QueryPhase::Closing => match reply {
                Reply::Closed | Reply::Failed(_) => {
                    self.phase = QueryPhase::Done;
                },
                _ => {},
            },
            QueryPhase::Done => {},
        }
    }

    /// What the record says, once that is decided; until then, that the
    /// record is malformed.
    pub fn outcome(&self) -> (r: Result<RawProcessInfo, Error>)
        ensures
            r == self@.outcome,
    {
        self.outcome
    }

    /// What the record says, once the query is over; `None` before.
    pub fn finish(self) -> (r: Option<Result<RawProcessInfo, Error>>)
        ensures
            r == if self@.phase == QueryPhase::Done {
                Some(self@.outcome)
            } else {
                None
            },
    {
        if self.phase == QueryPhase::Done {
            Some(self.outcome)
        } else {
            None
        }
    }
}

impl RawProcessInfo {
    /// The query for what the calling process says of itself.
    pub fn current() -> (q: StatQuery)
        ensures
            q.wf(),
            q@ == query_start(self_stat_path()),
    {
        let mut path: Vec<u8> = Vec::new();
        push_proc(&mut path);
        path.push(0x73);
        path.push(0x65);
        path.push(0x6c);
        path.push(0x66);
        push_stat(&mut path);
        assert(path@ =~= self_stat_path());
        StatQuery::new(path)
    }

    /// The query for what the process `pid` says of itself.
    pub fn for_process(pid: u32) -> (q: StatQuery)
        ensures
            q.wf(),
            q@ == query_start(stat_path(pid)),
    {
        let mut path: Vec<u8> = Vec::new();
        push_proc(&mut path);
        push_decimal(&mut path, pid);
        push_stat(&mut path);
        assert(path@ =~= stat_path(pid));
        StatQuery::new(path)
    }
}

fn push_proc(path: &mut Vec<u8>)
    ensures
        final(path)@ == old(path)@ + proc_prefix(),
{
    path.push(0x2f);
    path.push(0x70);
    path.push(0x72);
    path.push(0x6f);
    path.push(0x63);
    path.push(0x2f);
    assert(path@ =~= old(path)@ + proc_prefix());
}

fn push_stat(path: &mut Vec<u8>)
    ensures
        final(path)@ == old(path)@ + stat_suffix(),
{
    path.push(0x2f);
    path.push(0x73);
    path.push(0x74);
    path.push(0x61);
    path.push(0x74);
    assert(path@ =~= old(path)@ + stat_suffix());
}

} // verus!
