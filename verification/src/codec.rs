//! The storekey crate, as the key codec sees it: writing fields to the end of a key, and
//! reading them off the front of one.

use vstd::prelude::*;
use vstd::utf8::{decode_utf8, encode_utf8, valid_utf8};
use crate::bytes::{big_endian, escape, from_big_endian, unescape};

verus! {

/// Why storekey could not read a field.
#[derive(Clone, Copy, Debug, PartialEq, Eq, Structural)]
pub enum DecodeFault {
    /// The underlying reader failed.
    Io,
    /// The bytes end before the field does.
    UnexpectedEnd,
    /// Bytes are left after the last field.
    BytesRemaining,
    /// The bytes are not in the form that the field has.
    InvalidFormat,
    /// The bytes of a string are not UTF-8.
    Utf8,
    /// A field's own decoder refused.
    Custom,
}

/// `storekey::EncodeError`, carried through unread.
#[verifier::external_type_specification]
#[verifier::external_body]
pub struct ExEncodeError(storekey::EncodeError);

/// `storekey::BorrowReader`, a cursor over the bytes of a key.
#[verifier::external_type_specification]
#[verifier::external_body]
pub struct ExBorrowReader<'de>(storekey::BorrowReader<'de>);

/// The bytes that the reader has not consumed.
pub uninterp spec fn unread(r: storekey::BorrowReader<'_>) -> Seq<u8>;

/// Whether the reader takes a leading `1` of the next fixed-size field for an escape. Only
/// `read_terminal` and `expect_escaped` of the reader raise this mark.
pub uninterp spec fn expects_escape(r: storekey::BorrowReader<'_>) -> bool;

/// What is read of a string field at the front of `s`, and what is then left.
pub open spec fn string_field(s: Seq<u8>) -> Result<(Seq<char>, Seq<u8>), DecodeFault> {
    match unescape(s) {
        None => Err(DecodeFault::UnexpectedEnd),
        Some((data, rest)) => if valid_utf8(data) {
            Ok((decode_utf8(data), rest))
        } else {
            Err(DecodeFault::Utf8)
        },
    }
}

/// `storekey::encode` of a `u8` into a `Vec<u8>`: appends the byte. Appending to a vector does
/// not fail.
#[verifier::external_body]
pub(crate) fn put_u8(buf: &mut Vec<u8>, v: u8) -> (r: Result<(), storekey::EncodeError>)
    ensures
        r is Ok,
        final(buf)@ == old(buf)@.push(v),
{
    storekey::encode(&mut *buf, &v)
}

/// `storekey::encode` of a `u32` into a `Vec<u8>`: appends its four bytes, most significant
/// first. Appending to a vector does not fail.
#[verifier::external_body]
pub(crate) fn put_u32(buf: &mut Vec<u8>, v: u32) -> (r: Result<(), storekey::EncodeError>)
    ensures
        r is Ok,
        final(buf)@ == old(buf)@ + big_endian(v as nat, 4),
{
    storekey::encode(&mut *buf, &v)
}

/// `storekey::encode` of a `u64` into a `Vec<u8>`: appends its eight bytes, most significant
/// first. Appending to a vector does not fail.
#[verifier::external_body]
pub(crate) fn put_u64(buf: &mut Vec<u8>, v: u64) -> (r: Result<(), storekey::EncodeError>)
    ensures
        r is Ok,
        final(buf)@ == old(buf)@ + big_endian(v as nat, 8),
{
    storekey::encode(&mut *buf, &v)
}

/// `storekey::encode` of a `str` into a `Vec<u8>`: appends its UTF-8 bytes with every `0` and
/// `1` escaped by a `1`, then a `0`. Appending to a vector does not fail.
#[verifier::external_body]
pub(crate) fn put_str(buf: &mut Vec<u8>, v: &str) -> (r: Result<(), storekey::EncodeError>)
    ensures
        r is Ok,
        final(buf)@ == old(buf)@ + escape(encode_utf8(v@)) + seq![0u8],
{
    storekey::encode(&mut *buf, v)
}

/// `storekey::BorrowReader::new`: a reader over all of `slice`, with no escape expected.
pub assume_specification<'de>[ storekey::BorrowReader::<'de>::new ](slice: &'de [u8]) -> (r:
    storekey::BorrowReader<'de>)
    ensures
        unread(r) == slice@,
        !expects_escape(r),
;

/// `storekey::BorrowReader::is_empty`: whether everything has been consumed.
pub assume_specification<'de>[ storekey::BorrowReader::<'de>::is_empty ](
    r: &storekey::BorrowReader<'de>,
) -> (b: bool)
    ensures
        b == (unread(*r).len() == 0),
;

/// `storekey::BorrowReader::read_u8`: takes one byte, or reports `UnexpectedEnd` where none is
/// left.
#[verifier::external_body]
pub(crate) fn take_u8(r: &mut storekey::BorrowReader<'_>) -> (res: Result<u8, DecodeFault>)
    requires
        !expects_escape(*old(r)),
    ensures
        !expects_escape(*final(r)),
        unread(*old(r)).len() < 1 ==> (res matches Err(f) && f is UnexpectedEnd),
        unread(*old(r)).len() >= 1 ==> (res matches Ok(v) && v == unread(*old(r))[0])
            && unread(*final(r)) == unread(*old(r)).skip(1),
{
    match r.read_u8() {
        Ok(v) => Ok(v),
        Err(storekey::DecodeError::Io(_)) => Err(DecodeFault::Io),
        Err(storekey::DecodeError::UnexpectedEnd) => Err(DecodeFault::UnexpectedEnd),
        Err(storekey::DecodeError::BytesRemaining) => Err(DecodeFault::BytesRemaining),
        Err(storekey::DecodeError::InvalidFormat) => Err(DecodeFault::InvalidFormat),
        Err(storekey::DecodeError::Utf8) => Err(DecodeFault::Utf8),
        Err(storekey::DecodeError::Custom(_)) => Err(DecodeFault::Custom),
    }
}

/// `storekey::BorrowReader::read_u32`: takes four bytes, most significant first, or reports
/// `UnexpectedEnd` where fewer are left.
#[verifier::external_body]
pub(crate) fn take_u32(r: &mut storekey::BorrowReader<'_>) -> (res: Result<u32, DecodeFault>)
    requires
        !expects_escape(*old(r)),
    ensures
        !expects_escape(*final(r)),
        unread(*old(r)).len() < 4 ==> (res matches Err(f) && f is UnexpectedEnd),
        unread(*old(r)).len() >= 4 ==> (res matches Ok(v) && v as nat == from_big_endian(
            unread(*old(r)).take(4),
        )) && unread(*final(r)) == unread(*old(r)).skip(4),
{
    match r.read_u32() {
        Ok(v) => Ok(v),
        Err(storekey::DecodeError::Io(_)) => Err(DecodeFault::Io),
        Err(storekey::DecodeError::UnexpectedEnd) => Err(DecodeFault::UnexpectedEnd),
        Err(storekey::DecodeError::BytesRemaining) => Err(DecodeFault::BytesRemaining),
        Err(storekey::DecodeError::InvalidFormat) => Err(DecodeFault::InvalidFormat),
        Err(storekey::DecodeError::Utf8) => Err(DecodeFault::Utf8),
        Err(storekey::DecodeError::Custom(_)) => Err(DecodeFault::Custom),
    }
}

/// `storekey::BorrowReader::read_u64`: takes eight bytes, most significant first, or reports
/// `UnexpectedEnd` where fewer are left.
#[verifier::external_body]
pub(crate) fn take_u64(r: &mut storekey::BorrowReader<'_>) -> (res: Result<u64, DecodeFault>)
    requires
        !expects_escape(*old(r)),
    ensures
        !expects_escape(*final(r)),
        unread(*old(r)).len() < 8 ==> (res matches Err(f) && f is UnexpectedEnd),
        unread(*old(r)).len() >= 8 ==> (res matches Ok(v) && v as nat == from_big_endian(
            unread(*old(r)).take(8),
        )) && unread(*final(r)) == unread(*old(r)).skip(8),
{
    match r.read_u64() {
        Ok(v) => Ok(v),
        Err(storekey::DecodeError::Io(_)) => Err(DecodeFault::Io),
        Err(storekey::DecodeError::UnexpectedEnd) => Err(DecodeFault::UnexpectedEnd),
        Err(storekey::DecodeError::BytesRemaining) => Err(DecodeFault::BytesRemaining),
        Err(storekey::DecodeError::InvalidFormat) => Err(DecodeFault::InvalidFormat),
        Err(storekey::DecodeError::Utf8) => Err(DecodeFault::Utf8),
        Err(storekey::DecodeError::Custom(_)) => Err(DecodeFault::Custom),
    }
}

/// `storekey::BorrowReader::read_string`: takes bytes up to and with the first unescaped `0`
/// and removes the escapes. Reports `UnexpectedEnd` where no such `0` comes, and `Utf8` where
/// the bytes are not UTF-8.
#[verifier::external_body]
pub(crate) fn take_string(r: &mut storekey::BorrowReader<'_>) -> (res: Result<String, DecodeFault>)
    requires
        !expects_escape(*old(r)),
    ensures
        !expects_escape(*final(r)),
        match string_field(unread(*old(r))) {
            Ok((text, rest)) => (res matches Ok(v) && v@ == text) && unread(*final(r)) == rest,
            Err(fault) => res matches Err(f) && f == fault,
        },
{
    match r.read_string() {
        Ok(v) => Ok(v),
        Err(storekey::DecodeError::Io(_)) => Err(DecodeFault::Io),
        Err(storekey::DecodeError::UnexpectedEnd) => Err(DecodeFault::UnexpectedEnd),
        Err(storekey::DecodeError::BytesRemaining) => Err(DecodeFault::BytesRemaining),
        Err(storekey::DecodeError::InvalidFormat) => Err(DecodeFault::InvalidFormat),
        Err(storekey::DecodeError::Utf8) => Err(DecodeFault::Utf8),
        Err(storekey::DecodeError::Custom(_)) => Err(DecodeFault::Custom),
    }
}

} // verus!
