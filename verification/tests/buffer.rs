use tty_info::buffer::{ArrayBuffer, CBuffer, DirentBuf, VecBuffer};
use tty_info::error::Error;

fn exercise<B: DirentBuf>(mut b: B, limit: Option<usize>) {
    assert_eq!(b.len(), 0);
    assert!(b.is_empty());
    b.push_slice(b"hello").unwrap();
    assert_eq!(b.as_slice(), b"hello");
    assert_eq!(b.len(), 5);
    assert!(!b.is_empty());
    assert!(b.capacity() >= 5);

    // growing keeps what was written, and so does writing behind it
    let old_len = b.len();
    b.reserve(12).unwrap();
    assert!(b.capacity() >= 12);
    assert_eq!(b.len(), old_len);
    assert_eq!(b.as_slice(), b"hello");
    for at in old_len..12 {
        b.put(at, b'!');
        assert_eq!(b.as_slice(), b"hello");
    }
    b.set_len(8);
    assert_eq!(b.as_slice(), b"hello!!!");

    // a write within the bytes in use changes that byte alone
    b.put(1, b'a');
    assert_eq!(b.as_slice(), b"hallo!!!");

    b.push_c_str(b"-x\0ignored").unwrap();
    assert_eq!(b.as_slice(), b"hallo!!!-x");
    b.push_c_str(b"yz").unwrap();
    assert_eq!(b.as_slice(), b"hallo!!!-xyz");
    b.push_slice(b"").unwrap();
    assert_eq!(b.len(), 12);

    b.set_len(5);
    assert_eq!(b.as_slice(), b"hallo");
    let capacity = b.capacity();
    b.shrink_to_fit();
    assert_eq!(b.as_slice(), b"hallo");
    assert!(b.capacity() <= capacity);
    assert!(b.capacity() >= 5);

    b.reset();
    assert_eq!(b.len(), 0);
    assert_eq!(b.as_slice(), b"");

    match limit {
        Some(n) => {
            assert_eq!(b.reserve(n), Ok(()));
            assert_eq!(b.reserve(n + 1), Err(Error::OutOfMemory));
            let fill = vec![7u8; n];
            assert_eq!(b.push_slice(&fill), Ok(()));
            assert_eq!(b.push_slice(b"x"), Err(Error::OutOfMemory));
            assert_eq!(b.as_slice(), &fill[..]);
        }
        None => {
            assert_eq!(b.reserve(100_000), Ok(()));
            assert!(b.capacity() >= 100_000);
        }
    }
}

#[test]
fn fixed_buffer_behaves() {
    exercise(ArrayBuffer::<16>::new(), Some(16));
    assert_eq!(ArrayBuffer::<16>::new().capacity(), 16);
    assert_eq!(ArrayBuffer::<0>::new().capacity(), 0);
}

#[test]
fn vector_buffer_behaves() {
    exercise(VecBuffer::new(), None);
    assert_eq!(VecBuffer::new().capacity(), 0);
}

#[test]
fn manual_buffer_behaves() {
    exercise(CBuffer::new(), None);
    exercise(CBuffer::default(), None);
    assert_eq!(CBuffer::new().capacity(), 0);
}

#[test]
fn growth_is_sized_exactly() {
    let mut v = VecBuffer::new();
    v.reserve(10).unwrap();
    assert_eq!(v.capacity(), 10);
    v.reserve(4).unwrap();
    assert_eq!(v.capacity(), 10);
    let mut c = CBuffer::new();
    c.reserve(10).unwrap();
    assert_eq!(c.capacity(), 10);
    c.push_slice(b"abc").unwrap();
    c.shrink_to_fit();
    assert_eq!(c.capacity(), 3);
    assert_eq!(c.as_slice(), b"abc");
    v.push_slice(b"abcd").unwrap();
    v.shrink_to_fit();
    assert_eq!(v.capacity(), 4);
    assert_eq!(v.as_slice(), b"abcd");
    let mut a = ArrayBuffer::<8>::new();
    a.push_slice(b"abc").unwrap();
    a.shrink_to_fit();
    assert_eq!(a.capacity(), 8);
    assert_eq!(a.as_slice(), b"abc");
}

#[test]
fn forced_length_reveals_the_storage() {
    let mut a = ArrayBuffer::<4>::new();
    a.put(0, 1);
    a.put(1, 2);
    a.put(2, 3);
    a.put(3, 4);
    assert_eq!(a.as_slice(), b"");
    a.set_len(4);
    assert_eq!(a.as_slice(), &[1, 2, 3, 4]);
    a.set_len(2);
    assert_eq!(a.as_slice(), &[1, 2]);
    a.reset();
    a.set_len(3);
    assert_eq!(a.as_slice(), &[1, 2, 3]);
}
