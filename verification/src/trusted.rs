//! The calls into other crates. Verus takes each contract here on trust: the
//! bodies are not verified.

use vstd::prelude::*;
use crate::text::{absent, decimal_digits, first_at, last_at, number_len, number_value};

verus! {

/// `memchr::memchr`: the index of the first byte of `haystack` equal to
/// `needle`, or `None` where no byte is.
#[verifier::external_body]
pub(crate) fn find_first(needle: u8, haystack: &[u8]) -> (r: Option<usize>)
    ensures
        match r {
            Some(i) => first_at(haystack@, needle, i as int),
            None => absent(haystack@, needle),
        },
{
    memchr::memchr(needle, haystack)
}

/// `memchr::memrchr`: the index of the last byte of `haystack` equal to
/// `needle`, or `None` where no byte is.
#[verifier::external_body]
pub(crate) fn find_last(needle: u8, haystack: &[u8]) -> (r: Option<usize>)
    ensures
        match r {
            Some(i) => last_at(haystack@, needle, i as int),
            None => absent(haystack@, needle),
        },
{
    memchr::memrchr(needle, haystack)
}

/// `atoi::FromRadix10SignedChecked::from_radix_10_signed_checked` for `u32`:
/// reads an optional sign and every digit behind it. The second part of the
/// result is the number of bytes read; the first is the number read, or `None`
/// where it does not fit a `u32`.
#[verifier::external_body]
pub(crate) fn parse_u32(text: &[u8]) -> (r: (Option<u32>, usize))
    ensures
        r.1 == number_len(text@),
        r.0 == if 0 <= number_value(text@) <= u32::MAX {
            Some(number_value(text@) as u32)
        } else {
            None
        },
{
    atoi::FromRadix10SignedChecked::from_radix_10_signed_checked(text)
}

/// `atoi::FromRadix10SignedChecked::from_radix_10_signed_checked` for `i32`:
/// reads an optional sign and every digit behind it. The second part of the
/// result is the number of bytes read; the first is the number read, or `None`
/// where it does not fit an `i32`.
#[verifier::external_body]
pub(crate) fn parse_i32(text: &[u8]) -> (r: (Option<i32>, usize))
    ensures
        r.1 == number_len(text@),
        r.0 == if i32::MIN <= number_value(text@) <= i32::MAX {
            Some(number_value(text@) as i32)
        } else {
            None
        },
{
    atoi::FromRadix10SignedChecked::from_radix_10_signed_checked(text)
}

/// `itoap::write_to_vec` for `u32`: appends the decimal digits of `value`.
#[verifier::external_body]
pub(crate) fn push_decimal(out: &mut Vec<u8>, value: u32)
    ensures
        final(out)@ == old(out)@ + decimal_digits(value as nat),
{
    itoap::write_to_vec(out, value)
}

/// `u16::from_ne_bytes`: the number that `bytes` are the memory of on this
/// machine, which keeps either the low byte first or the high byte first.
#[verifier::external_body]
pub(crate) fn native_u16(bytes: [u8; 2]) -> (r: u16)
    ensures
        r == bytes@[0] + 256 * bytes@[1] || r == 256 * bytes@[0] + bytes@[1],
{
    u16::from_ne_bytes(bytes)
}

/// `Vec::shrink_to_fit`: gives spare memory back to the allocator; the
/// elements stay as they are.
#[verifier::external_body]
pub(crate) fn release_spare(v: &mut Vec<u8>)
    ensures
        final(v)@ == old(v)@,
{
    v.shrink_to_fit()
}

/// `linux_stat::Dev32::major`: the major number of a device number in its
/// 32-bit form, bits 8 to 15.
#[verifier::external_body]
pub(crate) fn dev32_major(raw: u32) -> (r: u32)
    ensures
        r == (raw >> 8) & 0xff,
{
    linux_stat::Dev32::new(raw).major()
}

/// `linux_stat::Dev32::minor`: the minor number of a device number in its
/// 32-bit form, the low eight bits joined with the bits from 19 up.
#[verifier::external_body]
pub(crate) fn dev32_minor(raw: u32) -> (r: u32)
    ensures
        r == (raw >> 19) | (raw & 0xff),
{
    linux_stat::Dev32::new(raw).minor()
}

} // verus!
