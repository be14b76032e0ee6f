//! Device numbers, and the names that well-known terminal devices go by.

use vstd::prelude::*;
use crate::error::Error;
use crate::text::decimal_digits;
use crate::trusted::{dev32_major, dev32_minor, push_decimal};

verus! {

/// Major number of the virtual consoles and the classic serial lines.
pub const TTY_MAJOR: u32 = 4;

/// Major number of the pseudoterminals.
pub const PTS_MAJOR: u32 = 136;

/// Major number of the USB modems.
pub const TTY_ACM_MAJOR: u32 = 166;

/// Major number of the USB serial adapters.
pub const TTY_USB_MAJOR: u32 = 188;

/// The minors below this one, under `TTY_MAJOR`, are virtual consoles; the
/// serial lines start here.
pub const NR_CONSOLES: u32 = 64;

/// A device number: the class of the device and the instance within it. Two
/// device numbers are the same device exactly when both parts agree.
#[derive(Clone, Copy, Debug, PartialEq, Eq, Hash, Structural)]
pub struct Dev {
    pub major: u32,
    pub minor: u32,
}

impl Dev {
    /// The device number with the given parts.
    pub fn new(major: u32, minor: u32) -> (d: Dev)
        ensures
            d == (Dev { major, minor }),
    {
        Dev { major, minor }
    }

    /// The parts of a device number in its 32-bit form.
    pub open spec fn decode(raw: u32) -> Dev {
        Dev { major: (raw >> 8) & 0xff, minor: (raw >> 19) | (raw & 0xff) }
    }

    /// Takes a device number in its 32-bit form apart.
    pub fn from_u32(raw: u32) -> (d: Dev)
        ensures
            d == Dev::decode(raw),
    {
        Dev { major: dev32_major(raw), minor: dev32_minor(raw) }
    }

    /// The class of the device.
    pub fn major(&self) -> (m: u32)
        ensures
            m == self.major,
    {
        self.major
    }

    /// The instance of the device within its class.
    pub fn minor(&self) -> (m: u32)
        ensures
            m == self.minor,
    {
        self.minor
    }
}

/// `tty`
pub open spec fn console_prefix() -> Seq<u8> {
    seq![0x74u8, 0x74u8, 0x79u8]
}

/// `ttyS`
pub open spec fn serial_prefix() -> Seq<u8> {
    seq![0x74u8, 0x74u8, 0x79u8, 0x53u8]
}

/// `pts/`
pub open spec fn pts_prefix() -> Seq<u8> {
    seq![0x70u8, 0x74u8, 0x73u8, 0x2fu8]
}

/// `ttyACM`
pub open spec fn acm_prefix() -> Seq<u8> {
    seq![0x74u8, 0x74u8, 0x79u8, 0x41u8, 0x43u8, 0x4du8]
}

/// `ttyUSB`
pub open spec fn usb_prefix() -> Seq<u8> {
    seq![0x74u8, 0x74u8, 0x79u8, 0x55u8, 0x53u8, 0x42u8]
}

/// The name, below a device directory, under which a device of a well-known
/// class is expected; `None` for every other class.
pub open spec fn guess_name(dev: Dev) -> Option<Seq<u8>> {
    if dev.major == TTY_MAJOR {
        if dev.minor < NR_CONSOLES {
            Some(console_prefix() + decimal_digits(dev.minor as nat))
        } else {
            Some(serial_prefix() + decimal_digits((dev.minor - NR_CONSOLES) as nat))
        }
    } else if dev.major == PTS_MAJOR {
        Some(pts_prefix() + decimal_digits(dev.minor as nat))
    } else if dev.major == TTY_ACM_MAJOR {
        Some(acm_prefix() + decimal_digits(dev.minor as nat))
    } else if dev.major == TTY_USB_MAJOR {
        Some(usb_prefix() + decimal_digits(dev.minor as nat))
    } else {
        None
    }
}

/// Builds the guessed name of `dev`, or says that `dev` is no terminal.
pub fn guess(dev: Dev) -> (r: Result<Vec<u8>, Error>)
    ensures
        match guess_name(dev) {
            Some(name) => r matches Ok(v) && v@ == name,
            None => r == Err::<Vec<u8>, Error>(Error::NotATerminal),
        },
{
    let mut name: Vec<u8> = Vec::new();
    let number: u32;
    if dev.major == TTY_MAJOR {
        name.push(0x74);
        name.push(0x74);
        name.push(0x79);
        if dev.minor < NR_CONSOLES {
            number = dev.minor;
        } else {
            name.push(0x53);
            number = dev.minor - NR_CONSOLES;
        }
    } else if dev.major == PTS_MAJOR {
        name.push(0x70);
        name.push(0x74);
        name.push(0x73);
        name.push(0x2f);
        number = dev.minor;
    } else if dev.major == TTY_ACM_MAJOR || dev.major == TTY_USB_MAJOR {
        name.push(0x74);
        name.push(0x74);
        name.push(0x79);
        if dev.major == TTY_ACM_MAJOR {
            name.push(0x41);
            name.push(0x43);
            name.push(0x4d);
        } else {
            name.push(0x55);
            name.push(0x53);
            name.push(0x42);
        }
        number = dev.minor;
    } else {
        return Err(Error::NotATerminal);
    }
    let ghost prefix = name@;
    push_decimal(&mut name, number);
    proof {
        assert(name@ == prefix + decimal_digits(number as nat));
        assert(prefix =~= console_prefix() || prefix =~= serial_prefix() || prefix =~= pts_prefix()
            || prefix =~= acm_prefix() || prefix =~= usb_prefix());
    }
    Ok(name)
}

} // verus!
