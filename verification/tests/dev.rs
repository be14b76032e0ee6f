use tty_info::dev::{guess, Dev};
use tty_info::error::{transient, Error};

#[test]
fn parts_of_a_32_bit_number() {
    let d = Dev::from_u32(0x8800);
    assert_eq!((d.major(), d.minor()), (136, 0));
    let d = Dev::from_u32(0x0403);
    assert_eq!((d.major(), d.minor()), (4, 3));
    let d = Dev::from_u32(0x12345678);
    assert_eq!(d.major(), (0x12345678u32 >> 8) & 0xff);
    assert_eq!(d.minor(), (0x12345678u32 >> 19) | (0x12345678u32 & 0xff));
    assert_eq!(d, Dev::new(0x56, (0x12345678u32 >> 19) | 0x78));
    let d = Dev::from_u32(u32::MAX);
    assert_eq!((d.major(), d.minor()), (255, 0x1fff | 0xff));
    assert_eq!(Dev::from_u32(0), Dev::new(0, 0));
}

#[test]
fn guessed_names() {
    assert_eq!(guess(Dev::new(4, 0)).unwrap(), b"tty0");
    assert_eq!(guess(Dev::new(4, 63)).unwrap(), b"tty63");
    assert_eq!(guess(Dev::new(4, 64)).unwrap(), b"ttyS0");
    assert_eq!(guess(Dev::new(4, 255)).unwrap(), b"ttyS191");
    assert_eq!(guess(Dev::new(4, u32::MAX)).unwrap(), b"ttyS4294967231");
    assert_eq!(guess(Dev::new(136, 0)).unwrap(), b"pts/0");
    assert_eq!(guess(Dev::new(136, 1048575)).unwrap(), b"pts/1048575");
    assert_eq!(guess(Dev::new(166, 7)).unwrap(), b"ttyACM7");
    assert_eq!(guess(Dev::new(188, 10)).unwrap(), b"ttyUSB10");
    assert_eq!(guess(Dev::new(999, 0)), Err(Error::NotATerminal));
    assert_eq!(guess(Dev::new(3, 4)), Err(Error::NotATerminal));
}

#[test]
fn transient_codes() {
    assert!(transient(4));
    assert!(transient(11));
    assert!(!transient(2));
    assert!(!transient(22));
    assert!(!transient(0));
}
