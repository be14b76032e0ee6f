use tty_info::dev::Dev;
use tty_info::error::Error;
use tty_info::os::{Action, Reply};
use tty_info::pinfo::{tty_from_number, RawProcessInfo};
use tty_info::query::{StatQuery, RECORD_MAX};

const RECORD: &[u8] = b"4242 (my (odd) cmd) S 1 4242 4200 34817 4242 4194560 123 0 0 0";

#[test]
fn paths_of_the_status_records() {
    let q = RawProcessInfo::current();
    assert_eq!(q.action(), Action::OpenFile);
    assert_eq!(q.name(), b"/proc/self/stat");
    assert!(!q.is_done());
    assert_eq!(RawProcessInfo::for_process(1).name(), b"/proc/1/stat");
    assert_eq!(RawProcessInfo::for_process(0).name(), b"/proc/0/stat");
    assert_eq!(RawProcessInfo::for_process(4294967295).name(), b"/proc/4294967295/stat");
    assert_eq!(RawProcessInfo::for_process(1000000).name(), b"/proc/1000000/stat");
}

#[test]
fn record_read_in_pieces() {
    let mut q = RawProcessInfo::for_process(4242);
    q.step(Reply::Failed(4));
    assert_eq!(q.action(), Action::OpenFile);
    q.step(Reply::Opened(6));
    assert_eq!(q.action(), Action::Read { fd: 6, count: 1024 });
    assert_eq!(q.name(), b"");
    q.step(Reply::Data(&RECORD[..10]));
    assert_eq!(q.action(), Action::Read { fd: 6, count: 1014 });
    q.step(Reply::Failed(11));
    q.step(Reply::Failed(4));
    q.step(Reply::Sought);
    assert_eq!(q.action(), Action::Read { fd: 6, count: 1014 });
    q.step(Reply::Data(&RECORD[10..]));
    assert_eq!(q.action(), Action::Read { fd: 6, count: 1024 - RECORD.len() });
    assert!(q.outcome().is_err());
    q.step(Reply::Data(b""));
    assert_eq!(q.action(), Action::Close { fd: 6 });
    assert!(!q.is_done());
    q.step(Reply::Closed);
    assert_eq!(q.action(), Action::Done);
    assert!(q.is_done());
    let info = q.finish().unwrap().unwrap();
    assert_eq!(info.pid, 4242);
    assert_eq!(info.session, 4200);
    assert_eq!(info.tty, Some(Dev::new(136, 1)));
}

#[test]
fn record_longer_than_the_buffer() {
    let mut long = RECORD.to_vec();
    long.resize(3000, b' ');
    let mut q = StatQuery::new(b"/somewhere".to_vec());
    assert_eq!(q.name(), b"/somewhere");
    q.step(Reply::Opened(3));
    q.step(Reply::Data(&long[..1000]));
    assert_eq!(q.action(), Action::Read { fd: 3, count: 24 });
    q.step(Reply::Data(&long[1000..]));
    assert_eq!(q.action(), Action::Close { fd: 3 });
    q.step(Reply::Failed(9));
    assert_eq!(q.finish().unwrap().unwrap().session, 4200);
    assert_eq!(RECORD_MAX, 1024);
}

#[test]
fn failures_of_the_query() {
    let mut q = RawProcessInfo::for_process(7);
    q.step(Reply::Failed(2));
    assert_eq!(q.action(), Action::Done);
    assert_eq!(q.finish().unwrap().err(), Some(Error::Os(2)));

    let mut q = RawProcessInfo::for_process(7);
    q.step(Reply::Opened(3));
    q.step(Reply::Data(b"7 (x) S "));
    q.step(Reply::Failed(5));
    assert_eq!(q.action(), Action::Close { fd: 3 });
    q.step(Reply::Closed);
    assert_eq!(q.finish().unwrap().err(), Some(Error::Os(5)));

    let mut q = RawProcessInfo::for_process(7);
    q.step(Reply::Opened(3));
    q.step(Reply::Data(b"7 (x) S "));
    q.step(Reply::Data(b""));
    q.step(Reply::Closed);
    assert_eq!(q.finish().unwrap().err(), Some(Error::InvalidData));

    let q = RawProcessInfo::for_process(7);
    assert!(q.finish().is_none());
}

#[test]
fn terminal_numbers() {
    assert_eq!(tty_from_number(-1), None);
    assert_eq!(tty_from_number(0), Some(Dev::new(0, 0)));
    assert_eq!(tty_from_number(34816), Some(Dev::new(136, 0)));
    assert_eq!(tty_from_number(1025), Some(Dev::new(4, 1)));
    assert_eq!(tty_from_number(-2), Some(Dev::from_u32(0xffff_fffe)));
    assert_eq!(tty_from_number(i32::MIN), Some(Dev::from_u32(0x8000_0000)));
    assert_eq!(tty_from_number(i32::MAX), Some(Dev::from_u32(0x7fff_ffff)));
}

#[test]
fn numbers_in_a_record() {
    let parse = |s: &[u8]| RawProcessInfo::parse(s);
    let info = parse(b"+12 (c) R -5 0 0007 -1").unwrap();
    assert_eq!((info.pid, info.session, info.tty), (12, 7, None));
    let info = parse(b"4294967295 (c) R 2147483647 x 4294967295 2147483647").unwrap();
    assert_eq!((info.pid, info.session), (u32::MAX, u32::MAX));
    assert_eq!(info.tty, Some(Dev::from_u32(0x7fff_ffff)));
    let info = parse(b"1 (c) R -2147483648 x 1 -2147483648 trailing").unwrap();
    assert_eq!(info.tty, Some(Dev::from_u32(0x8000_0000)));
    let info = parse(b"-0 (c) R 1 x + -").unwrap();
    assert_eq!((info.pid, info.session, info.tty), (0, 0, Some(Dev::new(0, 0))));
    assert_eq!(parse(b"4294967296 (c) R 1 x 1 1").err(), Some(Error::InvalidData));
    assert_eq!(parse(b"-1 (c) R 1 x 1 1").err(), Some(Error::InvalidData));
    assert_eq!(parse(b"1 (c) R 2147483648 x 1 1").err(), Some(Error::InvalidData));
    assert_eq!(parse(b"1 (c) R 1 x 1 2147483648").err(), Some(Error::InvalidData));
    assert_eq!(parse(b"1 (c) R 1 x 1 -2147483649").err(), Some(Error::InvalidData));
    assert_eq!(parse(b"1 (c) R 1 x 1 ").err(), Some(Error::InvalidData));
    assert_eq!(parse(b"1 (c) R 1 x 1").err(), Some(Error::InvalidData));
    assert_eq!(parse(b"1 (c) R 1  1 1").err(), Some(Error::InvalidData));
    assert_eq!(parse(b"1 (c)R 1 x 1 1").err(), Some(Error::InvalidData));
    assert_eq!(parse(b"1 (c R 1 x 1 1").err(), Some(Error::InvalidData));
    assert_eq!(parse(b"1(c) R 1 x 1 1").err(), Some(Error::InvalidData));
    assert_eq!(parse(b" 1 (c) R 1 x 1 1").err(), Some(Error::InvalidData));
}

#[test]
fn last_closing_bracket_ends_the_command() {
    let info = RawProcessInfo::parse(b"9 (a) R 1 2 3 4 (b) S 5 6 77 1027 8").unwrap();
    assert_eq!(info.session, 77);
    assert_eq!(info.tty, Some(Dev::new(4, 3)));
    let info = RawProcessInfo::parse(b"9 (evil) S 1 1 1 1) S 5 6 88 -1").unwrap();
    assert_eq!(info.session, 88);
    assert_eq!(info.tty, None);
}
