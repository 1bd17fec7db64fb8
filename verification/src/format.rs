//! The layout of names, headers and payloads on the wire.

use crate::error::Error;
use crate::wire::{be16, be32, be64, from_be16, from_be32};
use vstd::prelude::*;
use vstd::utf8::{decode_utf8, encode_utf8, valid_utf8};

verus! {

/// A length-prefixed text: the low sixteen bits of the UTF-8 length, most
/// significant byte first, then the UTF-8 bytes.
pub open spec fn text_bytes(text: Seq<char>) -> Seq<u8> {
    be16((encode_utf8(text).len() % 0x1_0000) as u16) + encode_utf8(text)
}

/// What precedes every named value: its tag, then its name.
pub open spec fn head(tag: u8, name: Seq<char>) -> Seq<u8> {
    seq![tag] + text_bytes(name)
}

/// A length-prefixed byte array: the low thirty-two bits of the count, most
/// significant byte first, then the bytes.
pub open spec fn array_bytes(bytes: Seq<u8>) -> Seq<u8> {
    be32((bytes.len() % 0x1_0000_0000) as u32) + bytes
}

/// The payload of a boolean: one byte, 1 for true and 0 for false.
pub open spec fn bool_bytes(v: bool) -> Seq<u8> {
    seq![if v { 1u8 } else { 0u8 }]
}

/// The payload of a signed byte: its two's complement.
pub open spec fn i8_bytes(v: i8) -> Seq<u8> {
    seq![v as u8]
}

/// The payload of a Short.
pub open spec fn i16_bytes(v: i16) -> Seq<u8> {
    be16(v as u16)
}

/// The payload of an Int.
pub open spec fn i32_bytes(v: i32) -> Seq<u8> {
    be32(v as u32)
}

/// The payload of a Long.
pub open spec fn i64_bytes(v: i64) -> Seq<u8> {
    be64(v as u64)
}

/// The length that the prefix of a length-prefixed text announces.
pub open spec fn text_len(b: Seq<u8>) -> int {
    from_be16(b) as int
}

/// Why no length-prefixed text can be read at the start of `b`: the bytes
/// end before the text does, or the text is not UTF-8. `None` where one can.
pub open spec fn text_error(b: Seq<u8>) -> Option<Error> {
    if b.len() < 2 || b.len() < 2 + text_len(b) {
        Some(Error::IoError)
    } else if !valid_utf8(b.subrange(2, 2 + text_len(b))) {
        Some(Error::Uft8Error)
    } else {
        None
    }
}

/// The length-prefixed text at the start of `b`.
pub open spec fn text_of(b: Seq<u8>) -> Seq<char> {
    decode_utf8(b.subrange(2, 2 + text_len(b)))
}

/// The number of bytes that the length-prefixed text at the start of `b` takes.
pub open spec fn text_size(b: Seq<u8>) -> int {
    2 + text_len(b)
}

/// The count that the prefix of a byte array announces.
pub open spec fn array_len(b: Seq<u8>) -> int {
    (from_be32(b) as i32) as int
}

/// Why no byte array can be read at the start of `b`: the bytes end before
/// the array does, or the count is negative. `None` where one can.
pub open spec fn array_error(b: Seq<u8>) -> Option<Error> {
    if b.len() < 4 {
        Some(Error::IoError)
    } else if array_len(b) < 0 {
        Some(Error::IntError)
    } else if b.len() < 4 + array_len(b) {
        Some(Error::IoError)
    } else {
        None
    }
}

/// The byte array at the start of `b`.
pub open spec fn array_of(b: Seq<u8>) -> Seq<u8> {
    b.subrange(4, 4 + array_len(b))
}

} // verus!
