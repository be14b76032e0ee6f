use tty_info::buffer::{ArrayBuffer, DirentBuf, VecBuffer};
use tty_info::dir::{Dir, DirIterator, Next};
use tty_info::dirent::{read_record, read_u16, read_u64, ByteOrder, DirentFileType, FileType};
use tty_info::error::Error;
use tty_info::os::{Action, Reply, CURRENT_DIRECTORY};

fn record(ino: u64, off: u64, kind: u8, name: &[u8], big: bool) -> Vec<u8> {
    let reclen = (19 + name.len() + 1 + 7) / 8 * 8;
    let mut out = Vec::new();
    if big {
        out.extend_from_slice(&ino.to_be_bytes());
        out.extend_from_slice(&off.to_be_bytes());
        out.extend_from_slice(&(reclen as u16).to_be_bytes());
    } else {
        out.extend_from_slice(&ino.to_le_bytes());
        out.extend_from_slice(&off.to_le_bytes());
        out.extend_from_slice(&(reclen as u16).to_le_bytes());
    }
    out.push(kind);
    out.extend_from_slice(name);
    while out.len() < reclen {
        out.push(0);
    }
    out
}

#[test]
fn byte_order_of_a_probe() {
    assert_eq!(ByteOrder::from_probe(1), ByteOrder::Little);
    assert_eq!(ByteOrder::from_probe(0x100), ByteOrder::Big);
    assert_eq!(ByteOrder::from_probe(u16::from_le_bytes([1, 0])), ByteOrder::Little);
    assert_eq!(ByteOrder::from_probe(u16::from_be_bytes([1, 0])), ByteOrder::Big);
    let native = ByteOrder::from_probe(u16::from_ne_bytes([1, 0]));
    assert_eq!(read_u16(&[1, 0], 0, native), u16::from_ne_bytes([1, 0]));
    assert_eq!(read_u16(&[0x34, 0x12], 0, native), u16::from_ne_bytes([0x34, 0x12]));
}

#[test]
fn numbers_are_read_in_either_order() {
    let bytes = [0x01u8, 0x02, 0x03, 0x04, 0x05, 0x06, 0x07, 0x08, 0x09];
    assert_eq!(read_u16(&bytes, 0, ByteOrder::Little), 0x0201);
    assert_eq!(read_u16(&bytes, 0, ByteOrder::Big), 0x0102);
    assert_eq!(read_u16(&bytes, 7, ByteOrder::Little), 0x0908);
    assert_eq!(read_u64(&bytes, 0, ByteOrder::Little), 0x0807060504030201);
    assert_eq!(read_u64(&bytes, 0, ByteOrder::Big), 0x0102030405060708);
    assert_eq!(read_u64(&bytes, 1, ByteOrder::Big), 0x0203040506070809);
    assert_eq!(read_u64(&[0xff; 8], 0, ByteOrder::Little), u64::MAX);
    assert_eq!(read_u16(&[0xff; 2], 0, ByteOrder::Big), u16::MAX);
}

#[test]
fn a_record_is_read_whole() {
    for big in [false, true] {
        let order = if big { ByteOrder::Big } else { ByteOrder::Little };
        let mut batch = vec![0xaau8; 3];
        batch.extend_from_slice(&record(0x1122334455667788, 0x99aabbccddeeff00, 2, b"ttyS0", big));
        let e = read_record(&batch, 3, order).unwrap();
        assert_eq!(e.inode(), 0x1122334455667788);
        assert_eq!(e.offset(), 0x99aabbccddeeff00);
        assert_eq!(e.len(), 32);
        assert!(!e.is_empty());
        assert_eq!(e.file_type(), DirentFileType::Character);
        assert_eq!(e.name(), b"ttyS0");
        assert_eq!(e.clone().into_name(), b"ttyS0".to_vec());
    }
}

#[test]
fn a_broken_record_is_refused() {
    let good = record(1, 2, 8, b"name", false);
    assert!(read_record(&good, 0, ByteOrder::Little).is_some());
    // the length it claims runs past the batch
    assert!(read_record(&good[..good.len() - 1], 0, ByteOrder::Little).is_none());
    // the length it claims is shorter than a header
    let mut short = good.clone();
    short[16] = 18;
    assert!(read_record(&short, 0, ByteOrder::Little).is_none());
    // no zero byte ends the name
    let mut open = good.clone();
    for b in open[19..].iter_mut() {
        *b = b'x';
    }
    assert!(read_record(&open, 0, ByteOrder::Little).is_none());
    // a record of a header alone has no room for the zero byte
    let mut bare = good[..19].to_vec();
    bare[16] = 19;
    assert!(read_record(&bare, 0, ByteOrder::Little).is_none());
    // an empty name is a name
    let mut empty = good[..20].to_vec();
    empty[16] = 20;
    empty[19] = 0;
    assert_eq!(read_record(&empty, 0, ByteOrder::Little).unwrap().name(), b"");
}

#[test]
fn type_tags_are_told_apart() {
    let tags = [
        (0u8, DirentFileType::Unknown, FileType::Unknown),
        (1, DirentFileType::Fifo, FileType::Fifo),
        (2, DirentFileType::Character, FileType::Character),
        (4, DirentFileType::Directory, FileType::Directory),
        (6, DirentFileType::Block, FileType::Block),
        (8, DirentFileType::Regular, FileType::Regular),
        (10, DirentFileType::Link, FileType::Link),
        (12, DirentFileType::Socket, FileType::Socket),
        (14, DirentFileType::Wht, FileType::Unknown),
        (3, DirentFileType::Unknown, FileType::Unknown),
        (255, DirentFileType::Unknown, FileType::Unknown),
    ];
    for (tag, kind, file_type) in tags {
        assert_eq!(DirentFileType::from_tag(tag), kind);
        assert_eq!(FileType::from(kind), file_type);
    }
}

#[test]
fn replies_to_an_open() {
    let dir = Dir::from_reply(Reply::Opened(12), ByteOrder::Big).unwrap().unwrap();
    assert_eq!(dir.as_raw_fd(), 12);
    assert_eq!(dir.tell(), 0);
    assert!(Dir::from_reply(Reply::Failed(4), ByteOrder::Big).unwrap().is_none());
    assert!(Dir::from_reply(Reply::Failed(11), ByteOrder::Big).unwrap().is_none());
    assert!(Dir::from_reply(Reply::Closed, ByteOrder::Big).unwrap().is_none());
    assert_eq!(Dir::from_reply(Reply::Failed(2), ByteOrder::Big).err(), Some(Error::Os(2)));
    assert_eq!(Dir::from_reply(Reply::Failed(20), ByteOrder::Little).err(), Some(Error::Os(20)));
}

#[test]
fn handle_accessors() {
    let dir = Dir::with_order(5, ByteOrder::Big);
    assert_eq!(dir.as_raw_fd(), 5);
    assert_eq!(dir.tell(), 0);
    assert_eq!(Dir::from_fd(9).as_raw_fd(), 9);
    assert_eq!(Dir::from_fd(9).tell(), 0);
    assert_eq!(Dir::open_at(&dir), Action::OpenDir { dirfd: 5 });
    assert_eq!(Dir::open(), Action::OpenDir { dirfd: CURRENT_DIRECTORY });
    assert_eq!(CURRENT_DIRECTORY, -100);
}

fn names_in_batches(names: &[Vec<u8>], capacity: usize, grow: bool) -> (Vec<Vec<u8>>, Vec<usize>) {
    // a directory served in batches that fit the capacity asked for
    let records: Vec<Vec<u8>> = names
        .iter()
        .enumerate()
        .map(|(i, n)| record(i as u64, i as u64 + 1, 8, n, false))
        .collect();
    let mut served = 0;
    let mut dir = Dir::with_order(3, ByteOrder::Little);
    let mut buf = VecBuffer::new();
    buf.reserve(capacity).unwrap();
    let mut it = dir.iter(&mut buf);
    let mut seen = Vec::new();
    let mut asked = Vec::new();
    loop {
        match it.next(&mut dir, &buf) {
            Next::Entry(e) => {
                assert_eq!(dir.tell(), e.offset());
                seen.push(e.name().to_vec());
            }
            Next::Ask(Action::ReadDir { fd, capacity }) => {
                assert_eq!(fd, 3);
                asked.push(capacity);
                let mut batch = Vec::new();
                let mut refused = false;
                while served < records.len() {
                    if batch.len() + records[served].len() > capacity {
                        refused = batch.is_empty();
                        break;
                    }
                    batch.extend_from_slice(&records[served]);
                    served += 1;
                }
                if refused {
                    assert!(grow, "the buffer is too small for one record");
                    it.supply(&mut buf, Reply::Failed(22)).unwrap();
                } else {
                    it.supply(&mut buf, Reply::Data(&batch)).unwrap();
                }
            }
            Next::Ask(other) => panic!("unexpected {:?}", other),
            Next::End => break,
            Next::Fail(e) => panic!("unexpected {:?}", e),
        }
    }
    (seen, asked)
}

#[test]
fn many_batches_yield_every_entry_once() {
    let names: Vec<Vec<u8>> = (0..300)
        .map(|i| format!("entry-{}-{}", i, "x".repeat(i % 40)).into_bytes())
        .collect();
    let (all_at_once, asked) = names_in_batches(&names, 1 << 20, false);
    assert_eq!(all_at_once, names);
    assert_eq!(asked.len(), 2);
    for capacity in [24, 64, 100, 1000] {
        let (seen, asked) = names_in_batches(&names, capacity, true);
        assert_eq!(seen, names);
        assert!(asked.len() > 2);
        assert!(asked.windows(2).all(|w| w[0] <= w[1]));
        for w in asked.windows(2) {
            assert!(w[1] == w[0] || w[1] == (w[0] + w[0] / 2).max(280));
        }
    }
}

#[test]
fn a_new_stream_resumes_at_the_cursor() {
    let mut batch = record(10, 111, 8, b"first", false);
    batch.extend_from_slice(&record(11, 222, 4, b"second", false));
    batch.extend_from_slice(&record(12, 333, 8, b"third", false));
    let mut dir = Dir::with_order(4, ByteOrder::Little);
    let mut buf = ArrayBuffer::<256>::new();
    let mut it = DirIterator::new(&dir, &mut buf);
    assert!(!it.seeks());
    assert!(matches!(
        it.next(&mut dir, &buf),
        Next::Ask(Action::ReadDir { fd: 4, capacity: 256 })
    ));
    it.supply(&mut buf, Reply::Data(&batch)).unwrap();
    assert!(matches!(it.next(&mut dir, &buf), Next::Entry(e) if e.name() == b"first"));
    assert_eq!(dir.tell(), 111);
    assert!(matches!(it.next(&mut dir, &buf), Next::Entry(e) if e.name() == b"second"));
    assert_eq!(dir.tell(), 222);

    // another directory is read through the same buffer
    let mut child = Dir::with_order(5, ByteOrder::Little);
    let mut inner = child.iter(&mut buf);
    assert_eq!(buf.len(), 0);
    assert!(matches!(
        inner.next(&mut child, &buf),
        Next::Ask(Action::ReadDir { fd: 5, capacity: 256 })
    ));
    inner.supply(&mut buf, Reply::Data(b"")).unwrap();
    assert!(matches!(inner.next(&mut child, &buf), Next::End));
    assert!(matches!(inner.next(&mut child, &buf), Next::End));

    // the first directory goes on behind its second entry
    let mut again = dir.iter(&mut buf);
    assert!(again.seeks());
    assert!(matches!(
        again.next(&mut dir, &buf),
        Next::Ask(Action::Seek { fd: 4, offset: 222 })
    ));
    again.supply(&mut buf, Reply::Failed(4)).unwrap();
    assert!(matches!(
        again.next(&mut dir, &buf),
        Next::Ask(Action::Seek { fd: 4, offset: 222 })
    ));
    again.supply(&mut buf, Reply::Data(b"not what was asked")).unwrap();
    assert!(matches!(
        again.next(&mut dir, &buf),
        Next::Ask(Action::Seek { fd: 4, offset: 222 })
    ));
    again.supply(&mut buf, Reply::Sought).unwrap();
    assert!(!again.seeks());
    assert!(matches!(
        again.next(&mut dir, &buf),
        Next::Ask(Action::ReadDir { fd: 4, capacity: 256 })
    ));
    again.supply(&mut buf, Reply::Data(&batch[64..])).unwrap();
    assert!(matches!(again.next(&mut dir, &buf), Next::Entry(e) if e.name() == b"third"));
    assert_eq!(dir.tell(), 333);
}

#[test]
fn a_refused_read_grows_the_buffer() {
    for (start, grown) in [(0usize, 280usize), (1, 280), (2, 280), (186, 280), (187, 280), (188, 282), (1000, 1500)] {
        let mut dir = Dir::with_order(4, ByteOrder::Little);
        let mut buf = VecBuffer::new();
        buf.reserve(start).unwrap();
        let mut it = dir.iter(&mut buf);
        assert!(matches!(
            it.next(&mut dir, &buf),
            Next::Ask(Action::ReadDir { fd: 4, capacity }) if capacity == start
        ));
        it.supply(&mut buf, Reply::Failed(22)).unwrap();
        assert_eq!(buf.capacity(), grown);
        assert!(buf.capacity() > start);
        assert!(matches!(
            it.next(&mut dir, &buf),
            Next::Ask(Action::ReadDir { fd: 4, capacity }) if capacity == grown
        ));
    }
}

#[test]
fn stream_failures() {
    let mut dir = Dir::with_order(4, ByteOrder::Little);
    let mut buf = ArrayBuffer::<32>::new();
    let mut it = dir.iter(&mut buf);
    assert_eq!(it.supply(&mut buf, Reply::Failed(5)), Err(Error::Os(5)));
    assert_eq!(it.supply(&mut buf, Reply::Failed(11)), Ok(()));
    assert_eq!(it.supply(&mut buf, Reply::Failed(22)), Err(Error::OutOfMemory));
    assert_eq!(it.supply(&mut buf, Reply::Data(&[0u8; 33])), Err(Error::OutOfMemory));
    assert_eq!(buf.len(), 0);
    let mut junk = record(1, 1, 8, b"fine", false);
    junk.truncate(24);
    junk.extend_from_slice(&[0xffu8; 8]);
    assert_eq!(it.supply(&mut buf, Reply::Data(&junk)), Ok(()));
    assert!(matches!(it.next(&mut dir, &buf), Next::Entry(_)));
    assert!(matches!(it.next(&mut dir, &buf), Next::Ask(Action::ReadDir { .. })));
    let mut bad = vec![0xffu8; 24];
    bad[16] = 200;
    bad[17] = 0;
    assert_eq!(it.supply(&mut buf, Reply::Data(&bad)), Ok(()));
    assert!(matches!(it.next(&mut dir, &buf), Next::Fail(Error::InvalidData)));

    let mut seeking = Dir::with_order(4, ByteOrder::Little);
    let mut buf = VecBuffer::new();
    buf.reserve(64).unwrap();
    let mut it = seeking.iter(&mut buf);
    it.supply(&mut buf, Reply::Data(&record(1, 77, 8, b"fine", false))).unwrap();
    assert!(matches!(it.next(&mut seeking, &buf), Next::Entry(_)));
    let mut it = seeking.iter(&mut buf);
    assert_eq!(it.supply(&mut buf, Reply::Failed(22)), Err(Error::Os(22)));
    assert_eq!(it.supply(&mut buf, Reply::Failed(29)), Err(Error::Os(29)));
    let idle = DirIterator::idle();
    assert!(!idle.seeks());
}
