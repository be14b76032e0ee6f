use tty_info::buffer::{ArrayBuffer, CBuffer, DirentBuf, VecBuffer};
use tty_info::dev::Dev;
use tty_info::dirent::{ByteOrder, FileType};
use tty_info::error::Error;
use tty_info::os::{Action, FileStatus, Reply, CURRENT_DIRECTORY};
use tty_info::resolve::Resolver;
use tty_info::tty::TtyInfo;

const DT_UNKNOWN: u8 = 0;
const DT_CHR: u8 = 2;
const DT_DIR: u8 = 4;
const DT_REG: u8 = 8;

const EINTR: i32 = 4;
const EAGAIN: i32 = 11;
const ENOENT: i32 = 2;
const EACCES: i32 = 13;
const EINVAL: i32 = 22;

#[derive(Clone)]
enum Node {
    Dir(Vec<(&'static str, u8, Node)>),
    Char(Dev),
    File,
}

struct Open {
    path: Vec<String>,
    pos: u64,
}

struct Os {
    root: Node,
    order: ByteOrder,
    fds: Vec<Option<Open>>,
    log: Vec<Action>,
    served: Vec<String>,
    calls: usize,
    interrupt_every: usize,
    closed_twice: bool,
    deny_stat: Option<&'static str>,
}

fn word16(v: u16, order: ByteOrder) -> [u8; 2] {
    match order {
        ByteOrder::Little => v.to_le_bytes(),
        ByteOrder::Big => v.to_be_bytes(),
    }
}

fn word64(v: u64, order: ByteOrder) -> [u8; 8] {
    match order {
        ByteOrder::Little => v.to_le_bytes(),
        ByteOrder::Big => v.to_be_bytes(),
    }
}

fn record(ino: u64, off: u64, kind: u8, name: &str, order: ByteOrder) -> Vec<u8> {
    let raw = 19 + name.len() + 1;
    let reclen = (raw + 7) / 8 * 8;
    let mut out = Vec::new();
    out.extend_from_slice(&word64(ino, order));
    out.extend_from_slice(&word64(off, order));
    out.extend_from_slice(&word16(reclen as u16, order));
    out.push(kind);
    out.extend_from_slice(name.as_bytes());
    while out.len() < reclen {
        out.push(0);
    }
    out
}

impl Os {
    fn new(root: Node, order: ByteOrder) -> Os {
        Os {
            root,
            order,
            fds: Vec::new(),
            log: Vec::new(),
            served: Vec::new(),
            calls: 0,
            interrupt_every: 0,
            closed_twice: false,
            deny_stat: None,
        }
    }

    fn lookup(&self, path: &[String]) -> Option<&Node> {
        let mut node = &self.root;
        for part in path {
            match node {
                Node::Dir(children) => {
                    node = &children.iter().find(|c| c.0 == part)?.2;
                }
                _ => return None,
            }
        }
        Some(node)
    }

    fn resolve(&self, dirfd: i32, name: &[u8]) -> Option<Vec<String>> {
        let text = String::from_utf8(name.to_vec()).unwrap();
        let mut path = if dirfd == CURRENT_DIRECTORY {
            Vec::new()
        } else {
            self.fds.get(dirfd as usize)?.as_ref()?.path.clone()
        };
        for part in text.split('/') {
            if !part.is_empty() {
                path.push(part.to_string());
            }
        }
        Some(path)
    }

    fn interrupted(&mut self) -> Option<i32> {
        self.calls += 1;
        if self.interrupt_every != 0 && self.calls % self.interrupt_every == 0 {
            Some(if self.calls % 2 == 0 { EINTR } else { EAGAIN })
        } else {
            None
        }
    }

    fn open(&mut self, dirfd: i32, name: &[u8]) -> Result<i32, i32> {
        if let Some(code) = self.interrupted() {
            return Err(code);
        }
        let path = self.resolve(dirfd, name).ok_or(ENOENT)?;
        match self.lookup(&path) {
            Some(Node::Dir(_)) => {
                self.fds.push(Some(Open { path, pos: 0 }));
                Ok(self.fds.len() as i32 - 1)
            }
            Some(_) => Err(20),
            None => Err(ENOENT),
        }
    }

    fn stat(&mut self, dirfd: i32, name: &[u8]) -> Result<FileStatus, i32> {
        if let Some(code) = self.interrupted() {
            return Err(code);
        }
        if let Some(denied) = self.deny_stat {
            if denied.as_bytes() == name {
                return Err(EACCES);
            }
        }
        let path = self.resolve(dirfd, name).ok_or(ENOENT)?;
        match self.lookup(&path) {
            Some(Node::Dir(_)) => Ok(FileStatus {
                file_type: FileType::Directory,
                rdev: Dev::new(0, 0),
            }),
            Some(Node::Char(dev)) => Ok(FileStatus {
                file_type: FileType::Character,
                rdev: *dev,
            }),
            Some(Node::File) => Ok(FileStatus {
                file_type: FileType::Regular,
                rdev: Dev::new(0, 0),
            }),
            None => Err(ENOENT),
        }
    }

    fn listing(&self, fd: i32) -> Vec<(String, u8)> {
        let open = self.fds[fd as usize].as_ref().unwrap();
        let mut all = vec![(".".to_string(), DT_DIR), ("..".to_string(), DT_DIR)];
        if let Some(Node::Dir(children)) = self.lookup(&open.path) {
            for c in children {
                all.push((c.0.to_string(), c.1));
            }
        }
        all
    }

    fn getdents(&mut self, fd: i32, capacity: usize) -> Result<Vec<u8>, i32> {
        if let Some(code) = self.interrupted() {
            return Err(code);
        }
        let all = self.listing(fd);
        let mut pos = self.fds[fd as usize].as_ref().unwrap().pos as usize;
        let mut out = Vec::new();
        while pos < all.len() {
            let rec = record(1000 + pos as u64, pos as u64 + 1, all[pos].1, &all[pos].0, self.order);
            if out.len() + rec.len() > capacity {
                if out.is_empty() {
                    return Err(EINVAL);
                }
                break;
            }
            out.extend_from_slice(&rec);
            self.served.push(all[pos].0.clone());
            pos += 1;
        }
        self.fds[fd as usize].as_mut().unwrap().pos = pos as u64;
        Ok(out)
    }

    fn seek(&mut self, fd: i32, offset: u64) -> Result<(), i32> {
        if let Some(code) = self.interrupted() {
            return Err(code);
        }
        self.fds[fd as usize].as_mut().unwrap().pos = offset;
        Ok(())
    }

    fn close(&mut self, fd: i32) {
        if self.fds[fd as usize].take().is_none() {
            self.closed_twice = true;
        }
    }

    fn open_count(&self) -> usize {
        self.fds.iter().filter(|f| f.is_some()).count()
    }
}

fn run<B1: DirentBuf, B2: DirentBuf>(
    mut m: Resolver<B1, B2>,
    os: &mut Os,
) -> Result<TtyInfo<B2>, Error> {
    let mut steps = 0;
    loop {
        steps += 1;
        assert!(steps < 100_000, "the search does not end");
        let action = m.action();
        os.log.push(action);
        let name = m.name().to_vec();
        match action {
            Action::Done => break,
            Action::OpenDir { dirfd } => match os.open(dirfd, &name) {
                Ok(fd) => m.step(Reply::Opened(fd)),
                Err(code) => m.step(Reply::Failed(code)),
            },
            Action::Stat { dirfd } => match os.stat(dirfd, &name) {
                Ok(st) => m.step(Reply::Status(st)),
                Err(code) => m.step(Reply::Failed(code)),
            },
            Action::ReadDir { fd, capacity } => match os.getdents(fd, capacity) {
                Ok(bytes) => m.step(Reply::Data(&bytes)),
                Err(code) => m.step(Reply::Failed(code)),
            },
            Action::Seek { fd, offset } => match os.seek(fd, offset) {
                Ok(()) => m.step(Reply::Sought),
                Err(code) => m.step(Reply::Failed(code)),
            },
            Action::Close { fd } => {
                os.close(fd);
                m.step(Reply::Closed)
            }
            Action::OpenFile | Action::Read { .. } => panic!("a search reads no file"),
        }
    }
    assert!(m.is_done());
    assert_eq!(os.open_count(), 0);
    assert!(!os.closed_twice);
    m.finish().unwrap()
}

fn roots(names: &[&str]) -> Vec<Vec<u8>> {
    names.iter().map(|n| n.as_bytes().to_vec()).collect()
}

fn vec_buffer(capacity: usize) -> VecBuffer {
    let mut b = VecBuffer::new();
    b.reserve(capacity).unwrap();
    b
}

fn reads(os: &Os) -> usize {
    os.log
        .iter()
        .filter(|a| matches!(a, Action::ReadDir { .. }))
        .count()
}

fn dev_tree(children: Vec<(&'static str, u8, Node)>) -> Node {
    Node::Dir(vec![("dev", DT_DIR, Node::Dir(children))])
}

fn search(
    dev: Dev,
    tree: Node,
    order: ByteOrder,
    capacity: usize,
) -> (Result<TtyInfo<VecBuffer>, Error>, Os) {
    let mut os = Os::new(tree, order);
    let m = Resolver::new(dev, roots(&["/dev"]), order, vec_buffer(capacity), VecBuffer::new())
        .unwrap();
    let r = run(m, &mut os);
    (r, os)
}

fn expect_guess(dev: Dev, dir: Option<&'static str>, file: &'static str, path: &str, name: &str) {
    let node = ("x", DT_REG, Node::File);
    let target = (file, DT_CHR, Node::Char(dev));
    let tree = match dir {
        Some(d) => dev_tree(vec![node, (d, DT_DIR, Node::Dir(vec![target]))]),
        None => dev_tree(vec![node, target]),
    };
    let (r, os) = search(dev, tree, ByteOrder::Little, 256);
    let info = r.unwrap();
    assert_eq!(info.path(), path.as_bytes());
    assert_eq!(info.name(), name.as_bytes());
    assert_eq!(info.device(), dev);
    let mut with_nul = path.as_bytes().to_vec();
    with_nul.push(0);
    assert_eq!(info.path_with_nul(), &with_nul[..]);
    assert_eq!(reads(&os), 0);
    assert_eq!(
        os.log,
        vec![
            Action::OpenDir { dirfd: CURRENT_DIRECTORY },
            Action::Stat { dirfd: 0 },
            Action::Close { fd: 0 },
            Action::Done
        ]
    );
}

#[test]
fn guessed_names_need_no_directory_read() {
    expect_guess(Dev::new(4, 1), None, "tty1", "/dev/tty1", "tty1");
    expect_guess(Dev::new(4, 63), None, "tty63", "/dev/tty63", "tty63");
    expect_guess(Dev::new(4, 64), None, "ttyS0", "/dev/ttyS0", "ttyS0");
    expect_guess(Dev::new(4, 70), None, "ttyS6", "/dev/ttyS6", "ttyS6");
    expect_guess(Dev::new(136, 3), Some("pts"), "3", "/dev/pts/3", "3");
    expect_guess(Dev::new(136, 1234567), Some("pts"), "1234567", "/dev/pts/1234567", "1234567");
    expect_guess(Dev::new(166, 0), None, "ttyACM0", "/dev/ttyACM0", "ttyACM0");
    expect_guess(Dev::new(188, 12), None, "ttyUSB12", "/dev/ttyUSB12", "ttyUSB12");
    expect_guess(Dev::new(188, u32::MAX), None, "ttyUSB4294967295", "/dev/ttyUSB4294967295", "ttyUSB4294967295");
}

#[test]
fn nested_device_is_found_by_scanning() {
    let dev = Dev::new(4, 5);
    let tree = dev_tree(vec![
        ("null", DT_CHR, Node::Char(Dev::new(1, 3))),
        ("notes", DT_REG, Node::File),
        (
            "sub",
            DT_DIR,
            Node::Dir(vec![
                ("zero", DT_CHR, Node::Char(Dev::new(1, 5))),
                ("deep", DT_DIR, Node::Dir(vec![("console5", DT_CHR, Node::Char(dev))])),
            ]),
        ),
        ("tail", DT_REG, Node::File),
    ]);
    for order in [ByteOrder::Little, ByteOrder::Big] {
        for capacity in [32, 40, 64, 4096] {
            let (r, os) = search(dev, tree.clone(), order, capacity);
            let info = r.unwrap();
            assert_eq!(info.name(), b"console5");
            assert_eq!(info.path(), b"/dev/sub/deep/console5");
            assert_eq!(info.path_with_nul(), b"/dev/sub/deep/console5\0");
            assert_eq!(info.device(), dev);
            assert!(reads(&os) > 0);
        }
    }
}

#[test]
fn unmapped_major_is_not_a_terminal() {
    for major in [999, 0, 5, 135, 137, 167, 189] {
        let r = Resolver::new(
            Dev::new(major, 0),
            roots(&["/dev"]),
            ByteOrder::Little,
            VecBuffer::new(),
            VecBuffer::new(),
        );
        assert_eq!(r.err(), Some(Error::NotATerminal));
        assert_eq!(TtyInfo::by_device(Dev::new(major, 0)).err(), Some(Error::NotATerminal));
    }
}

#[test]
fn absent_device_is_not_found() {
    let tree = dev_tree(vec![
        ("null", DT_CHR, Node::Char(Dev::new(1, 3))),
        ("sub", DT_DIR, Node::Dir(vec![("zero", DT_CHR, Node::Char(Dev::new(1, 5)))])),
    ]);
    let (r, os) = search(Dev::new(4, 9), tree, ByteOrder::Little, 64);
    assert_eq!(r.err(), Some(Error::NotFound));
    assert_eq!(*os.log.last().unwrap(), Action::Done);
}

#[test]
fn no_candidate_directory_is_not_found() {
    let mut os = Os::new(dev_tree(vec![]), ByteOrder::Little);
    let m = Resolver::new(Dev::new(4, 9), Vec::new(), ByteOrder::Little, vec_buffer(64), VecBuffer::new())
        .unwrap();
    assert_eq!(run(m, &mut os).err(), Some(Error::NotFound));
    assert_eq!(os.log, vec![Action::Done]);
}

#[test]
fn second_candidate_directory_is_searched() {
    let dev = Dev::new(188, 1);
    let tree = Node::Dir(vec![
        ("dev", DT_DIR, Node::Dir(vec![("null", DT_CHR, Node::Char(Dev::new(1, 3)))])),
        ("alt", DT_DIR, Node::Dir(vec![("ttyUSB1", DT_CHR, Node::Char(dev))])),
    ]);
    let mut os = Os::new(tree, ByteOrder::Little);
    let m = Resolver::new(dev, roots(&["/dev", "/alt"]), ByteOrder::Little, vec_buffer(64), VecBuffer::new())
        .unwrap();
    let info = run(m, &mut os).unwrap();
    assert_eq!(info.path(), b"/alt/ttyUSB1");
    assert_eq!(info.name(), b"ttyUSB1");
}

#[test]
fn missing_candidate_directory_is_an_os_error() {
    let mut os = Os::new(dev_tree(vec![]), ByteOrder::Little);
    let m = Resolver::new(Dev::new(4, 9), roots(&["/nowhere"]), ByteOrder::Little, vec_buffer(64), VecBuffer::new())
        .unwrap();
    assert_eq!(run(m, &mut os).err(), Some(Error::Os(ENOENT)));
}

#[test]
fn entries_of_unknown_type_are_queried() {
    let dev = Dev::new(4, 2);
    let tree = dev_tree(vec![
        ("plain", DT_UNKNOWN, Node::File),
        ("dir", DT_UNKNOWN, Node::Dir(vec![("inner", DT_UNKNOWN, Node::Char(dev))])),
    ]);
    let (r, _) = search(dev, tree, ByteOrder::Little, 128);
    let info = r.unwrap();
    assert_eq!(info.path(), b"/dev/dir/inner");
    assert_eq!(info.name(), b"inner");
}

#[test]
fn guess_of_wrong_kind_falls_through_to_scan() {
    let dev = Dev::new(4, 2);
    let tree = dev_tree(vec![
        ("tty2", DT_CHR, Node::Char(Dev::new(4, 3))),
        ("real", DT_CHR, Node::Char(dev)),
    ]);
    let (r, os) = search(dev, tree, ByteOrder::Little, 128);
    assert_eq!(r.unwrap().path(), b"/dev/real");
    assert!(reads(&os) > 0);
}

#[test]
fn transient_failures_are_absorbed() {
    let dev = Dev::new(4, 5);
    let tree = dev_tree(vec![
        ("a", DT_REG, Node::File),
        ("sub", DT_DIR, Node::Dir(vec![("b", DT_CHR, Node::Char(Dev::new(1, 1)))])),
        ("c", DT_CHR, Node::Char(dev)),
    ]);
    for every in [1usize, 2, 3, 5] {
        let mut os = Os::new(tree.clone(), ByteOrder::Little);
        os.interrupt_every = if every == 1 { 2 } else { every };
        let m = Resolver::new(dev, roots(&["/dev"]), ByteOrder::Little, vec_buffer(48), VecBuffer::new())
            .unwrap();
        let info = run(m, &mut os).unwrap();
        assert_eq!(info.path(), b"/dev/c");
    }
}

#[test]
fn failed_guess_query_is_fatal() {
    let dev = Dev::new(4, 5);
    let tree = dev_tree(vec![("tty5", DT_CHR, Node::Char(dev))]);
    let mut os = Os::new(tree, ByteOrder::Little);
    os.deny_stat = Some("tty5");
    let m = Resolver::new(dev, roots(&["/dev"]), ByteOrder::Little, vec_buffer(48), VecBuffer::new())
        .unwrap();
    assert_eq!(run(m, &mut os).err(), Some(Error::Os(EACCES)));
}

#[test]
fn failed_entry_query_is_fatal() {
    let dev = Dev::new(4, 5);
    let tree = dev_tree(vec![
        ("locked", DT_CHR, Node::Char(Dev::new(1, 1))),
        ("c", DT_CHR, Node::Char(dev)),
    ]);
    let mut os = Os::new(tree, ByteOrder::Little);
    os.deny_stat = Some("locked");
    let m = Resolver::new(dev, roots(&["/dev"]), ByteOrder::Little, vec_buffer(48), VecBuffer::new())
        .unwrap();
    assert_eq!(run(m, &mut os).err(), Some(Error::Os(EACCES)));
}

#[test]
fn entry_that_vanished_during_scan_is_fatal() {
    let dev = Dev::new(4, 5);
    let mut os = Os::new(dev_tree(vec![("c", DT_CHR, Node::Char(dev))]), ByteOrder::Little);
    let mut m = Resolver::new(dev, roots(&["/dev"]), ByteOrder::Little, vec_buffer(64), VecBuffer::new())
        .unwrap();
    assert_eq!(m.action(), Action::OpenDir { dirfd: CURRENT_DIRECTORY });
    m.step(Reply::Opened(os.open(CURRENT_DIRECTORY, b"/dev").unwrap()));
    assert_eq!(m.action(), Action::Stat { dirfd: 0 });
    assert_eq!(m.name(), b"tty5");
    m.step(Reply::Failed(ENOENT));
    assert_eq!(m.action(), Action::ReadDir { fd: 0, capacity: 64 });
    let batch = os.getdents(0, 64).unwrap();
    assert_eq!(batch.len(), 48);
    m.step(Reply::Data(&batch));
    assert_eq!(m.action(), Action::ReadDir { fd: 0, capacity: 64 });
    assert_eq!(m.name(), b"");
    let batch = os.getdents(0, 64).unwrap();
    assert_eq!(batch.len(), 24);
    m.step(Reply::Data(&batch));
    assert_eq!(m.action(), Action::Stat { dirfd: 0 });
    assert_eq!(m.name(), b"c");
    m.step(Reply::Failed(ENOENT));
    assert_eq!(m.action(), Action::Close { fd: 0 });
    m.step(Reply::Closed);
    assert_eq!(m.action(), Action::Done);
    assert_eq!(m.finish().unwrap().err(), Some(Error::Os(ENOENT)));
}

#[test]
fn replies_that_answer_nothing_are_ignored() {
    let dev = Dev::new(4, 5);
    let mut m = Resolver::new(dev, roots(&["/dev"]), ByteOrder::Little, vec_buffer(64), VecBuffer::new())
        .unwrap();
    assert!(m.finish().is_none());
    let mut m = Resolver::new(dev, roots(&["/dev"]), ByteOrder::Little, vec_buffer(64), VecBuffer::new())
        .unwrap();
    m.step(Reply::Sought);
    m.step(Reply::Closed);
    m.step(Reply::Data(b"xyz"));
    m.step(Reply::Status(FileStatus { file_type: FileType::Character, rdev: dev }));
    assert_eq!(m.action(), Action::OpenDir { dirfd: CURRENT_DIRECTORY });
    assert_eq!(m.name(), b"/dev");
    m.step(Reply::Opened(7));
    m.step(Reply::Opened(8));
    m.step(Reply::Sought);
    assert_eq!(m.action(), Action::Stat { dirfd: 7 });
    m.step(Reply::Status(FileStatus { file_type: FileType::Character, rdev: dev }));
    assert_eq!(m.action(), Action::Close { fd: 7 });
    m.step(Reply::Opened(9));
    assert_eq!(m.action(), Action::Close { fd: 7 });
    m.step(Reply::Failed(EINTR));
    assert_eq!(m.action(), Action::Done);
    m.step(Reply::Closed);
    assert_eq!(m.action(), Action::Done);
    assert_eq!(m.finish().unwrap().unwrap().path(), b"/dev/tty5");
}

#[test]
fn fixed_path_buffer_too_small_is_out_of_memory() {
    let dev = Dev::new(4, 5);
    let tree = dev_tree(vec![("tty5", DT_CHR, Node::Char(dev))]);
    let mut os = Os::new(tree.clone(), ByteOrder::Little);
    let m = Resolver::new(dev, roots(&["/dev"]), ByteOrder::Little, ArrayBuffer::<64>::new(), ArrayBuffer::<9>::new())
        .unwrap();
    assert_eq!(run(m, &mut os).err(), Some(Error::OutOfMemory));
    let mut os = Os::new(tree.clone(), ByteOrder::Little);
    let m = Resolver::new(dev, roots(&["/dev"]), ByteOrder::Little, ArrayBuffer::<64>::new(), ArrayBuffer::<10>::new())
        .unwrap();
    let info = run(m, &mut os).unwrap();
    assert_eq!(info.path(), b"/dev/tty5");
    let mut os = Os::new(tree, ByteOrder::Little);
    let m = Resolver::new(dev, roots(&["/dev"]), ByteOrder::Little, ArrayBuffer::<64>::new(), ArrayBuffer::<3>::new())
        .unwrap();
    assert_eq!(run(m, &mut os).err(), Some(Error::OutOfMemory));
    assert_eq!(os.log, vec![Action::Done]);
}

#[test]
fn fixed_entry_buffer_too_small_is_out_of_memory() {
    let dev = Dev::new(4, 5);
    let tree = dev_tree(vec![("a-name-that-is-rather-long-for-this", DT_CHR, Node::Char(dev))]);
    let mut os = Os::new(tree, ByteOrder::Little);
    let m = Resolver::new(dev, roots(&["/dev"]), ByteOrder::Little, ArrayBuffer::<32>::new(), CBuffer::new())
        .unwrap();
    assert_eq!(run(m, &mut os).err(), Some(Error::OutOfMemory));
}

#[test]
fn small_entry_buffer_grows_to_hold_a_record() {
    let dev = Dev::new(4, 5);
    let tree = dev_tree(vec![("a-name-that-is-rather-long-for-this", DT_CHR, Node::Char(dev))]);
    let mut os = Os::new(tree, ByteOrder::Little);
    let m = Resolver::new(dev, roots(&["/dev"]), ByteOrder::Little, vec_buffer(16), CBuffer::new())
        .unwrap();
    let info = run(m, &mut os).unwrap();
    assert_eq!(info.name(), b"a-name-that-is-rather-long-for-this");
    let capacities: Vec<usize> = os
        .log
        .iter()
        .filter_map(|a| match a {
            Action::ReadDir { capacity, .. } => Some(*capacity),
            _ => None,
        })
        .collect();
    assert_eq!(capacities, vec![16, 280]);
}

#[test]
fn parent_resumes_behind_the_subdirectory() {
    let dev = Dev::new(4, 5);
    let tree = dev_tree(vec![
        ("a", DT_REG, Node::File),
        ("sub", DT_DIR, Node::Dir(vec![("x", DT_REG, Node::File), ("y", DT_REG, Node::File)])),
        ("b", DT_REG, Node::File),
        ("c", DT_CHR, Node::Char(Dev::new(1, 1))),
        ("d", DT_REG, Node::File),
    ]);
    let (r, os) = search(dev, tree, ByteOrder::Little, 4096);
    assert_eq!(r.err(), Some(Error::NotFound));
    assert!(os.log.contains(&Action::Seek { fd: 0, offset: 4 }));
    let seek_at = os.log.iter().position(|a| *a == Action::Seek { fd: 0, offset: 4 }).unwrap();
    assert_eq!(os.log[seek_at - 1], Action::Close { fd: 1 });
    assert_eq!(os.log[seek_at + 1], Action::ReadDir { fd: 0, capacity: 4096 });
    let names: Vec<&str> = os.served.iter().map(|s| s.as_str()).collect();
    assert_eq!(
        names,
        vec![".", "..", "a", "sub", "b", "c", "d", ".", "..", "x", "y", "b", "c", "d"]
    );
    let stats: Vec<&Action> = os.log.iter().filter(|a| matches!(a, Action::Stat { .. })).collect();
    assert_eq!(stats.len(), 2);
}

#[test]
fn native_order_is_used_by_default() {
    let dev = Dev::new(4, 5);
    let tree = dev_tree(vec![("odd", DT_CHR, Node::Char(dev))]);
    let native = if u16::from_ne_bytes([1, 0]) == 1 { ByteOrder::Little } else { ByteOrder::Big };
    let mut os = Os::new(tree, native);
    let m = TtyInfo::by_device_with_buffers_in(dev, roots(&["/dev"]), vec_buffer(128), VecBuffer::new())
        .unwrap();
    assert_eq!(run(m, &mut os).unwrap().path(), b"/dev/odd");
    let tree = dev_tree(vec![("odd", DT_CHR, Node::Char(dev))]);
    let mut os = Os::new(tree, native);
    let m = TtyInfo::by_device(dev).unwrap();
    assert_eq!(m.action(), Action::OpenDir { dirfd: CURRENT_DIRECTORY });
    assert_eq!(m.name(), b"/dev");
    assert_eq!(run(m, &mut os).unwrap().path(), b"/dev/odd");
    assert!(os.log.contains(&Action::ReadDir { fd: 0, capacity: 0 }));
    assert!(os.log.contains(&Action::ReadDir { fd: 0, capacity: 280 }));
}

#[test]
fn malformed_batch_is_invalid_data() {
    let dev = Dev::new(4, 5);
    let mut m = Resolver::new(dev, roots(&["/dev"]), ByteOrder::Little, vec_buffer(64), VecBuffer::new())
        .unwrap();
    m.step(Reply::Opened(3));
    m.step(Reply::Failed(ENOENT));
    let mut batch = record(1, 1, DT_REG, "ok", ByteOrder::Little);
    batch.extend_from_slice(&[0u8; 24]);
    m.step(Reply::Data(&batch));
    assert_eq!(m.action(), Action::Close { fd: 3 });
    m.step(Reply::Closed);
    assert_eq!(m.finish().unwrap().err(), Some(Error::InvalidData));
}

#[test]
fn path_is_cut_back_when_a_directory_is_left() {
    let dev = Dev::new(4, 5);
    let tree = dev_tree(vec![
        ("first", DT_DIR, Node::Dir(vec![
            ("x", DT_REG, Node::File),
            ("inner", DT_DIR, Node::Dir(vec![("y", DT_CHR, Node::Char(Dev::new(1, 1)))])),
        ])),
        ("second", DT_DIR, Node::Dir(vec![
            ("empty", DT_DIR, Node::Dir(vec![])),
            ("node", DT_CHR, Node::Char(dev)),
        ])),
    ]);
    for capacity in [32, 64, 4096] {
        let (r, _) = search(dev, tree.clone(), ByteOrder::Little, capacity);
        let info = r.unwrap();
        assert_eq!(info.path(), b"/dev/second/node");
        assert_eq!(info.name(), b"node");
    }
}

#[test]
fn second_candidate_directory_is_scanned_in_depth() {
    let dev = Dev::new(188, 1);
    let tree = Node::Dir(vec![
        ("dev", DT_DIR, Node::Dir(vec![
            ("sub", DT_DIR, Node::Dir(vec![("null", DT_CHR, Node::Char(Dev::new(1, 3)))])),
        ])),
        ("alt", DT_DIR, Node::Dir(vec![
            ("usb", DT_DIR, Node::Dir(vec![("serial", DT_CHR, Node::Char(dev))])),
        ])),
    ]);
    let mut os = Os::new(tree, ByteOrder::Little);
    let m = Resolver::new(dev, roots(&["/dev", "/alt"]), ByteOrder::Little, vec_buffer(64), VecBuffer::new())
        .unwrap();
    let info = run(m, &mut os).unwrap();
    assert_eq!(info.path(), b"/alt/usb/serial");
    assert_eq!(info.name(), b"serial");
}

#[test]
fn fixed_path_buffer_too_small_for_a_subdirectory() {
    let dev = Dev::new(4, 5);
    let tree = dev_tree(vec![(
        "a-subdirectory",
        DT_DIR,
        Node::Dir(vec![("node", DT_CHR, Node::Char(dev))]),
    )]);
    let mut os = Os::new(tree.clone(), ByteOrder::Little);
    let m = Resolver::new(dev, roots(&["/dev"]), ByteOrder::Little, ArrayBuffer::<64>::new(), ArrayBuffer::<18>::new())
        .unwrap();
    assert_eq!(run(m, &mut os).err(), Some(Error::OutOfMemory));
    let mut os = Os::new(tree.clone(), ByteOrder::Little);
    let m = Resolver::new(dev, roots(&["/dev"]), ByteOrder::Little, ArrayBuffer::<64>::new(), ArrayBuffer::<24>::new())
        .unwrap();
    assert_eq!(run(m, &mut os).err(), Some(Error::OutOfMemory));
    let mut os = Os::new(tree, ByteOrder::Little);
    let m = Resolver::new(dev, roots(&["/dev"]), ByteOrder::Little, ArrayBuffer::<64>::new(), ArrayBuffer::<25>::new())
        .unwrap();
    assert_eq!(run(m, &mut os).unwrap().path(), b"/dev/a-subdirectory/node");
}

#[test]
fn empty_entry_buffer_grows() {
    let dev = Dev::new(4, 5);
    let tree = dev_tree(vec![("odd", DT_CHR, Node::Char(dev))]);
    let mut os = Os::new(tree, ByteOrder::Little);
    let m = Resolver::new(dev, roots(&["/dev"]), ByteOrder::Little, VecBuffer::new(), VecBuffer::new())
        .unwrap();
    assert_eq!(run(m, &mut os).unwrap().path(), b"/dev/odd");
    let mut os = Os::new(dev_tree(vec![("odd", DT_CHR, Node::Char(dev))]), ByteOrder::Little);
    let m = Resolver::new(dev, roots(&["/dev"]), ByteOrder::Little, vec_buffer(1), CBuffer::new())
        .unwrap();
    assert_eq!(run(m, &mut os).unwrap().path(), b"/dev/odd");
}
