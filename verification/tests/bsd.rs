use tty_info::bsd::{
    device_path, proc2_mib, proc_info, proc_mib, table_entry, terminal_path, TableEntry,
    TablePhase, TableReply, NOTTY,
};
use tty_info::error::Error;
use tty_info::tty::name_start;

#[test]
fn keys_of_a_process() {
    assert_eq!(proc_mib(1234), [1, 14, 1, 1234]);
    assert_eq!(proc_mib(0), [1, 14, 1, 0]);
    assert_eq!(proc_mib(u32::MAX), [1, 14, 1, -1]);
    assert_eq!(proc_mib(0x8000_0000), [1, 14, 1, i32::MIN]);
    assert_eq!(proc2_mib(77, 720), [1, 47, 1, 77, 720, 1]);
}

#[test]
fn buffer_grows_by_a_tenth() {
    let q = proc_info(1000);
    assert_eq!((q.size, q.phase), (1000, TablePhase::Asking));
    let q = q.step(TableReply::Refused(12));
    assert_eq!((q.size, q.phase), (1100, TablePhase::Asking));
    let q = q.step(TableReply::Refused(12));
    assert_eq!((q.size, q.phase), (1210, TablePhase::Asking));
    let done = q.step(TableReply::Filled);
    assert_eq!((done.size, done.phase), (1210, TablePhase::Filled));
    assert_eq!(done.step(TableReply::Refused(12)), done);
    assert_eq!(done.step(TableReply::NoBuffer), done);

    let at_once = proc_info(720).step(TableReply::Filled);
    assert_eq!((at_once.size, at_once.phase), (720, TablePhase::Filled));
    assert_eq!(proc_info(19).size, 19);
    assert_eq!(proc_info(19).step(TableReply::Refused(12)).size, 20);
    assert_eq!(proc_info(0).size, 0);
}

#[test]
fn table_query_failures() {
    let q = proc_info(1000);
    assert_eq!(q.step(TableReply::Refused(3)).phase, TablePhase::Failed(Error::Os(3)));
    assert_eq!(q.step(TableReply::Refused(1)).phase, TablePhase::Failed(Error::Os(1)));
    assert_eq!(q.step(TableReply::NoBuffer).phase, TablePhase::Failed(Error::OutOfMemory));
    let failed = q.step(TableReply::NoBuffer);
    assert_eq!(failed.step(TableReply::Filled), failed);
    let huge = proc_info(usize::MAX);
    assert_eq!((huge.size, huge.phase), (usize::MAX, TablePhase::Asking));
    assert_eq!(
        huge.step(TableReply::Refused(12)).phase,
        TablePhase::Failed(Error::OutOfMemory)
    );
}

#[test]
fn entries_of_the_table() {
    assert_eq!(
        table_entry(5, 4, 0x0305),
        TableEntry { pid: 5, session: 4, tty: Some(0x0305) }
    );
    assert_eq!(table_entry(5, 4, NOTTY), TableEntry { pid: 5, session: 4, tty: None });
    assert_eq!(table_entry(5, 4, 0).tty, Some(0));
    assert_eq!(NOTTY, u32::MAX);
}

#[test]
fn device_paths() {
    assert_eq!(device_path(Some(b"ttyv0")).unwrap(), b"/dev/ttyv0\0");
    assert_eq!(device_path(Some(b"pts/12")).unwrap(), b"/dev/pts/12\0");
    assert_eq!(device_path(Some(b"")).unwrap(), b"/dev/\0");
    assert_eq!(device_path(None), Err(Error::NotFound));
    let path = device_path(Some(b"ttyv0")).unwrap();
    assert_eq!(&path[name_start(&path)..path.len() - 1], b"ttyv0");
    let nested = device_path(Some(b"pts/12")).unwrap();
    assert_eq!(&nested[name_start(&nested)..nested.len() - 1], b"12");
    assert_eq!(name_start(b"no separator"), 0);
    assert_eq!(name_start(b""), 0);
    assert_eq!(name_start(b"/"), 1);
}

#[test]
fn terminal_paths() {
    let with = table_entry(5, 4, 0x0305);
    let without = table_entry(5, 4, NOTTY);
    assert_eq!(terminal_path(&with, Some(b"ttyv1")).unwrap().unwrap(), b"/dev/ttyv1\0");
    assert_eq!(terminal_path(&with, None), Err(Error::NotFound));
    assert_eq!(terminal_path(&without, Some(b"ttyv1")), Ok(None));
    assert_eq!(terminal_path(&without, None), Ok(None));
}
