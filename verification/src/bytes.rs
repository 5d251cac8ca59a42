//! Fixed-width big-endian fields, read with the `nom` parsers.

use crate::error::MyError;
use vstd::prelude::*;
use vstd::slice::slice_subrange;

verus! {

/// The unsigned 16-bit integer that the first two bytes spell, high byte first.
pub open spec fn spec_be_u16(bytes: Seq<u8>) -> u16 {
    (bytes[0] as int * 0x100 + bytes[1] as int) as u16
}

/// The unsigned 32-bit integer that the first four bytes spell, high byte first.
pub open spec fn spec_be_u32(bytes: Seq<u8>) -> u32 {
    (bytes[0] as int * 0x100_0000 + bytes[1] as int * 0x1_0000 + bytes[2] as int * 0x100
        + bytes[3] as int) as u32
}

/// The first `n` big-endian 16-bit integers of `bytes`.
pub open spec fn spec_be_u16_array(bytes: Seq<u8>, n: nat) -> Seq<u16> {
    Seq::new(n, |i: int| spec_be_u16(bytes.subrange(2 * i, 2 * i + 2)))
}

/// `nom::number::complete::u8`: takes the first byte of the input, and fails
/// exactly when the input is empty.
#[verifier::external_body]
pub(crate) fn byte(input: &[u8]) -> (r: Result<(&[u8], u8), MyError>)
    ensures
        match r {
            Ok((rest, value)) => {
                &&& input@.len() >= 1
                &&& value == input@[0]
                &&& rest@ == input@.subrange(1, input@.len() as int)
            },
            Err(e) => input@.len() < 1 && e == MyError::Truncated,
        },
{
    match nom::number::complete::u8::<&[u8], nom::error::Error<&[u8]>>(input) {
        Ok((rest, value)) => Ok((rest, value)),
        Err(_) => Err(MyError::Truncated),
    }
}

/// `nom::number::complete::be_u16`: takes two bytes off the input and returns
/// them as a big-endian integer; fails exactly when fewer than two are left.
#[verifier::external_body]
pub(crate) fn be_u16(input: &[u8]) -> (r: Result<(&[u8], u16), MyError>)
    ensures
        match r {
            Ok((rest, value)) => {
                &&& input@.len() >= 2
                &&& value == spec_be_u16(input@)
                &&& rest@ == input@.subrange(2, input@.len() as int)
            },
            Err(e) => input@.len() < 2 && e == MyError::Truncated,
        },
{
    match nom::number::complete::be_u16::<&[u8], nom::error::Error<&[u8]>>(input) {
        Ok((rest, value)) => Ok((rest, value)),
        Err(_) => Err(MyError::Truncated),
    }
}

/// `nom::number::complete::be_u32`: takes four bytes off the input and returns
/// them as a big-endian integer; fails exactly when fewer than four are left.
#[verifier::external_body]
pub(crate) fn be_u32(input: &[u8]) -> (r: Result<(&[u8], u32), MyError>)
    ensures
        match r {
            Ok((rest, value)) => {
                &&& input@.len() >= 4
                &&& value == spec_be_u32(input@)
                &&& rest@ == input@.subrange(4, input@.len() as int)
            },
            Err(e) => input@.len() < 4 && e == MyError::Truncated,
        },
{
    match nom::number::complete::be_u32::<&[u8], nom::error::Error<&[u8]>>(input) {
        Ok((rest, value)) => Ok((rest, value)),
        Err(_) => Err(MyError::Truncated),
    }
}

/// `nom::bytes::complete::take`: splits the first `n` bytes off the input and
/// returns the remainder and the bytes taken; fails exactly when fewer than
/// `n` are left.
#[verifier::external_body]
pub(crate) fn take(input: &[u8], n: usize) -> (r: Result<(&[u8], &[u8]), MyError>)
    ensures
        match r {
            Ok((rest, taken)) => {
                &&& input@.len() >= n
                &&& taken@ == input@.subrange(0, n as int)
                &&& rest@ == input@.subrange(n as int, input@.len() as int)
            },
            Err(e) => input@.len() < n && e == MyError::Truncated,
        },
{
    match nom::bytes::complete::take::<usize, &[u8], nom::error::Error<&[u8]>>(n)(input) {
        Ok((rest, taken)) => Ok((rest, taken)),
        Err(_) => Err(MyError::Truncated),
    }
}

/// `nom::multi::count` over `be_u16`: reads `n` big-endian 16-bit integers in
/// a row; fails exactly when fewer than `2 * n` bytes are left.
#[verifier::external_body]
pub(crate) fn count_be_u16(input: &[u8], n: usize) -> (r: Result<(&[u8], Vec<u16>), MyError>)
    ensures
        match r {
            Ok((rest, values)) => {
                &&& input@.len() >= 2 * n
                &&& values@ == spec_be_u16_array(input@, n as nat)
                &&& rest@ == input@.subrange(2 * n, input@.len() as int)
            },
            Err(e) => input@.len() < 2 * n && e == MyError::Truncated,
        },
{
    let one = nom::number::complete::be_u16::<&[u8], nom::error::Error<&[u8]>>;
    match nom::multi::count(one, n)(input) {
        Ok((rest, values)) => Ok((rest, values)),
        Err(_) => Err(MyError::Truncated),
    }
}

/// The byte at index `at`.
pub fn byte_at(input: &[u8], at: usize) -> (r: u8)
    requires
        at < input@.len(),
    ensures
        r == input@[at as int],
{
    match byte(slice_subrange(input, at, input.len())) {
        Ok((_, value)) => value,
        Err(_) => 0,
    }
}

/// The big-endian 16-bit integer in the two bytes from index `at` on.
pub fn u16_at(input: &[u8], at: usize) -> (r: u16)
    requires
        at + 2 <= input@.len(),
    ensures
        r == spec_be_u16(input@.subrange(at as int, at + 2)),
{
    let len = input.len();
    match be_u16(slice_subrange(input, at, at + 2)) {
        Ok((_, value)) => value,
        Err(_) => 0,
    }
}

/// The big-endian 32-bit integer in the four bytes from index `at` on.
pub fn u32_at(input: &[u8], at: usize) -> (r: u32)
    requires
        at + 4 <= input@.len(),
    ensures
        r == spec_be_u32(input@.subrange(at as int, at + 4)),
{
    let len = input.len();
    match be_u32(slice_subrange(input, at, at + 4)) {
        Ok((_, value)) => value,
        Err(_) => 0,
    }
}

/// The `n` bytes from index `at` on.
pub fn bytes_at(input: &[u8], at: usize, n: usize) -> (r: &[u8])
    requires
        at + n <= input@.len(),
    ensures
        r@ == input@.subrange(at as int, at + n),
{
    let tail = slice_subrange(input, at, input.len());
    match take(tail, n) {
        Ok((_, taken)) => {
            assert(taken@ =~= input@.subrange(at as int, at + n));
            taken
        },
        Err(_) => tail,
    }
}

} // verus!
