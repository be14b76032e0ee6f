//! What a process says of itself: its id, its session and its controlling
//! terminal, read from the per-process status record.

use vstd::prelude::*;
use crate::dev::Dev;
use crate::error::Error;
use crate::text::{
    first_index, last_index, lemma_first_index, lemma_last_index, lemma_number_len_bound,
    number_len, number_value,
};
use crate::trusted::{find_first, find_last, parse_i32, parse_u32};

verus! {

/// The blank that parts the fields of a status record.
pub const SPACE: u8 = 0x20;

/// The bracket that opens the command name.
pub const OPEN: u8 = 0x28;

/// The bracket that closes the command name.
pub const CLOSE: u8 = 0x29;

/// What a process says of itself.
#[derive(Clone, Copy, Debug, Hash)]
pub struct RawProcessInfo {
    /// The process id.
    pub pid: u32,
    /// The session id.
    pub session: u32,
    /// The device number of the controlling terminal, where the process has one.
    pub tty: Option<Dev>,
}

/// The number at the start of `s`, where there is one and it fits a `u32`, and
/// what follows it.
pub open spec fn take_u32(s: Seq<u8>) -> Option<(u32, Seq<u8>)> {
    if number_len(s) > 0 && 0 <= number_value(s) <= u32::MAX {
        Some((number_value(s) as u32, s.skip(number_len(s) as int)))
    } else {
        None
    }
}

/// The number at the start of `s`, where there is one and it fits an `i32`,
/// and what follows it.
pub open spec fn take_i32(s: Seq<u8>) -> Option<(i32, Seq<u8>)> {
    if number_len(s) > 0 && i32::MIN <= number_value(s) <= i32::MAX {
        Some((number_value(s) as i32, s.skip(number_len(s) as int)))
    } else {
        None
    }
}

/// What follows the byte `b` at the start of `s`.
pub open spec fn take_byte(s: Seq<u8>, b: u8) -> Option<Seq<u8>> {
    if s.len() > 0 && s[0] == b {
        Some(s.skip(1))
    } else {
        None
    }
}

/// What follows the command name: `s` starts behind the opening bracket, and
/// the name runs up to the last closing bracket in `s`, so that it may itself
/// hold brackets and blanks.
pub open spec fn take_command(s: Seq<u8>) -> Option<Seq<u8>> {
    match last_index(s, CLOSE) {
        Some(i) => Some(s.skip(i + 1)),
        None => None,
    }
}

/// The command name may hold anything, closing brackets and blanks too: where
/// the fields behind the name hold no closing bracket, what follows the name
/// is those fields, whatever the name is.
pub proof fn lemma_command_may_hold_anything(command: Seq<u8>, fields: Seq<u8>)
    requires
        forall|j: int| 0 <= j < fields.len() ==> fields[j] != CLOSE,
    ensures
        take_command(command + seq![CLOSE] + fields) == Some(fields),
{
    let s = command + seq![CLOSE] + fields;
    let at = command.len() as int;
    assert(s[at] == CLOSE);
    assert forall|j: int| at < j < s.len() implies s[j] != CLOSE by {
        assert(s[j] == fields[j - at - 1]);
    }
    lemma_last_index(s, CLOSE, Some(at));
    assert(s.skip(at + 1) =~= fields);
}

/// What follows a field of exactly one byte and the blank behind it.
pub open spec fn take_state(s: Seq<u8>) -> Option<Seq<u8>> {
    if first_index(s, SPACE) == Some(1int) {
        Some(s.skip(2))
    } else {
        None
    }
}

/// What follows a field of at least one byte and the blank behind it.
pub open spec fn take_token(s: Seq<u8>) -> Option<Seq<u8>> {
    match first_index(s, SPACE) {
        Some(n) => if n != 0 {
            Some(s.skip(n + 1))
        } else {
            None
        },
        None => None,
    }
}

/// The first, sixth and seventh field of a status record: process id, session
/// id and terminal number. The fields are a number, the command name in
/// brackets, a state of one byte, a number, one more field, and two numbers,
/// each parted from the next by one blank.
pub open spec fn record_fields(s: Seq<u8>) -> Option<(u32, u32, i32)> {
    match take_u32(s) {
        None => None,
        Some((pid, s)) => match take_byte(s, SPACE) {
            None => None,
            Some(s) => match take_byte(s, OPEN) {
                None => None,
                Some(s) => match take_command(s) {
                    None => None,
                    Some(s) => match take_byte(s, SPACE) {
                        None => None,
                        Some(s) => match take_state(s) {
                            None => None,
                            Some(s) => match take_i32(s) {
                                None => None,
                                Some((_, s)) => match take_byte(s, SPACE) {
                                    None => None,
                                    Some(s) => match take_token(s) {
                                        None => None,
                                        Some(s) => match take_u32(s) {
                                            None => None,
                                            Some((session, s)) => match take_byte(s, SPACE) {
                                                None => None,
                                                Some(s) => match take_i32(s) {
                                                    None => None,
                                                    Some((tty, _)) => Some((pid, session, tty)),
                                                },
                                            },
                                        },
                                    },
                                },
                            },
                        },
                    },
                },
            },
        },
    }
}

/// The 32 bits of `v` read as an unsigned number.
pub open spec fn unsigned_bits(v: i32) -> u32 {
    if v >= 0 {
        v as u32
    } else {
        (v + 0x1_0000_0000) as u32
    }
}

/// The controlling terminal that a terminal number stands for: none for -1,
/// else the device whose 32-bit number has the same bits.
pub open spec fn tty_of(number: i32) -> Option<Dev> {
    if number == -1 {
        None
    } else {
        Some(Dev::decode(unsigned_bits(number)))
    }
}

/// What a status record says, or that it is malformed.
pub open spec fn parse_record(s: Seq<u8>) -> Result<RawProcessInfo, Error> {
    match record_fields(s) {
        Some((pid, session, tty)) => Ok(RawProcessInfo { pid, session, tty: tty_of(tty) }),
        None => Err(Error::InvalidData),
    }
}

fn read_u32(s: &[u8]) -> (r: Option<(u32, &[u8])>)
    ensures
        match take_u32(s@) {
            Some((v, rest)) => r matches Some((w, t)) && w == v && t@ == rest,
            None => r is None,
        },
{
    let (value, used) = parse_u32(s);
    proof {
        lemma_number_len_bound(s@);
    }
    match value {
        Some(v) => if used == 0 {
            None
        } else {
            Some((v, &s[used..s.len()]))
        },
        None => None,
    }
}

fn read_i32(s: &[u8]) -> (r: Option<(i32, &[u8])>)
    ensures
        match take_i32(s@) {
            Some((v, rest)) => r matches Some((w, t)) && w == v && t@ == rest,
            None => r is None,
        },
{
    let (value, used) = parse_i32(s);
    proof {
        lemma_number_len_bound(s@);
    }
    match value {
        Some(v) => if used == 0 {
            None
        } else {
            Some((v, &s[used..s.len()]))
        },
        None => None,
    }
}

fn skip_char(s: &[u8], ch: u8) -> (r: Option<&[u8]>)
    ensures
        match take_byte(s@, ch) {
            Some(rest) => r matches Some(t) && t@ == rest,
            None => r is None,
        },
{
    if s.len() > 0 && s[0] == ch {
        Some(&s[1..s.len()])
    } else {
        None
    }
}

fn skip_command(s: &[u8]) -> (r: Option<&[u8]>)
    ensures
        match take_command(s@) {
            Some(rest) => r matches Some(t) && t@ == rest,
            None => r is None,
        },
{
    let found = find_last(CLOSE, s);
    proof {
        lemma_last_index(
            s@,
            CLOSE,
            match found {
                Some(i) => Some(i as int),
                None => None,
            },
        );
    }
    match found {
        Some(i) => {
            let end = s.len();
            Some(&s[i + 1..end])
        },
        None => None,
    }
}

fn skip_state(s: &[u8]) -> (r: Option<&[u8]>)
    ensures
        match take_state(s@) {
            Some(rest) => r matches Some(t) && t@ == rest,
            None => r is None,
        },
{
    let found = find_first(SPACE, s);
    proof {
        lemma_first_index(
            s@,
            SPACE,
            match found {
                Some(i) => Some(i as int),
                None => None,
            },
        );
    }
    match found {
        Some(i) => if i == 1 {
            Some(&s[2..s.len()])
        } else {
            None
        },
        None => None,
    }
}

fn skip_token(s: &[u8]) -> (r: Option<&[u8]>)
    ensures
        match take_token(s@) {
            Some(rest) => r matches Some(t) && t@ == rest,
            None => r is None,
        },
{
    let found = find_first(SPACE, s);
    proof {
        lemma_first_index(
            s@,
            SPACE,
            match found {
                Some(i) => Some(i as int),
                None => None,
            },
        );
    }
    match found {
        Some(n) => if n != 0 {
            let end = s.len();
            Some(&s[n + 1..end])
        } else {
            None
        },
        None => None,
    }
}

fn read_fields(s: &[u8]) -> (r: Option<(u32, u32, i32)>)
    ensures
        r == record_fields(s@),
{
    let (pid, s) = match read_u32(s) {
        Some(x) => x,
        None => return None,
    };
    let s = match skip_char(s, SPACE) {
        Some(x) => x,
        None => return None,
    };
    let s = match skip_char(s, OPEN) {
        Some(x) => x,
        None => return None,
    };
    let s = match skip_command(s) {
        Some(x) => x,
        None => return None,
    };
    let s = match skip_char(s, SPACE) {
        Some(x) => x,
        None => return None,
    };
    let s = match skip_state(s) {
        Some(x) => x,
        None => return None,
    };
    let (_, s) = match read_i32(s) {
        Some(x) => x,
        None => return None,
    };
    let s = match skip_char(s, SPACE) {
        Some(x) => x,
        None => return None,
    };
    let s = match skip_token(s) {
        Some(x) => x,
        None => return None,
    };
    let (session, s) = match read_u32(s) {
        Some(x) => x,
        None => return None,
    };
    let s = match skip_char(s, SPACE) {
        Some(x) => x,
        None => return None,
    };
    let (tty, _) = match read_i32(s) {
        Some(x) => x,
        None => return None,
    };
    Some((pid, session, tty))
}

/// The controlling terminal that a terminal number stands for.
pub fn tty_from_number(number: i32) -> (r: Option<Dev>)
    ensures
        r == tty_of(number),
{
    if number == -1 {
        None
    } else if number >= 0 {
        Some(Dev::from_u32(number as u32))
    } else {
        Some(Dev::from_u32((number as i64 + 0x1_0000_0000) as u32))
    }
}

impl RawProcessInfo {
    /// Reads a status record.
    ///
    /// The record is malformed, and `Error::InvalidData` comes back, where a
    /// blank or bracket is not where it is expected, where no closing bracket
    /// follows the opening one, or where a number is missing or does not fit.
    pub fn parse(record: &[u8]) -> (r: Result<RawProcessInfo, Error>)
        ensures
            r == parse_record(record@),
    {
        match read_fields(record) {
            Some((pid, session, tty)) => Ok(
                RawProcessInfo { pid, session, tty: tty_from_number(tty) },
            ),
            None => Err(Error::InvalidData),
        }
    }
}

} // verus!
