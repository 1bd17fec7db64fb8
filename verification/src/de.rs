//! The decoder: tag and name lookahead over a byte source, and one value at
//! a time read as the type that the caller asks for.

use crate::error::Error;
use crate::format::{array_error, array_len, array_of, text_error, text_of, text_size};
use crate::nbt::{
    TAG_BYTE, TAG_BYTE_ARRAY, TAG_COMPOUND, TAG_DOUBLE, TAG_END, TAG_FLOAT, TAG_INT, TAG_LONG,
    TAG_SHORT, TAG_STRING,
};
use crate::reader::ByteReader;
use crate::text::string_from_utf8;
use crate::value::{
    body_result, elements_result, elements_view, fields_result, fields_view, find_shape,
    list_body_result, lemma_body_result_shrinks,
    lemma_record_shape_view, lemma_record_view, mismatch_of, payload_result, root_result,
    shape_mismatch, shape_tag, shape_view, tag_of, Field, FieldShape, FieldView, Kind, Scalar,
    ScalarView, Shape, Value,
};
use vstd::slice::slice_to_vec;
use crate::wire::{from_be16, from_be32, from_be64};
use vstd::prelude::*;

verus! {

/// Reads a length-prefixed text from `r`: a big-endian 16-bit length, then
/// that many bytes of UTF-8.
pub fn read_name(r: &mut ByteReader) -> (res: Result<String, Error>)
    ensures
        match text_error(old(r).remaining()) {
            Some(e) => res == Err::<String, Error>(e),
            None => res is Ok && res.unwrap()@ == text_of(old(r).remaining())
                && final(r).remaining() == old(r).remaining().skip(text_size(old(r).remaining())),
        },
{
    let ghost b = r.remaining();
    let len = match r.read_u16() {
        Ok(len) => len,
        Err(e) => {
            return Err(e);
        },
    };
    let buf = match r.read_bytes(len as usize) {
        Ok(buf) => buf,
        Err(e) => {
            return Err(e);
        },
    };
    assert(buf@ =~= b.subrange(2, 2 + len as int));
    assert(r.remaining() =~= b.skip(2 + len as int));
    match string_from_utf8(buf) {
        Some(s) => Ok(s),
        None => Err(Error::Uft8Error),
    }
}

/// A decoder over a byte source, with the tag and the name it has read ahead.
pub struct Deserializer {
    reader: ByteReader,
    last_tag: Option<u8>,
    last_name: Option<String>,
}

impl Deserializer {
    /// The tag read ahead and not yet consumed.
    pub closed spec fn pending_tag(&self) -> Option<u8> {
        self.last_tag
    }

    /// The name read ahead and not yet consumed.
    pub closed spec fn pending_name(&self) -> Option<Seq<char>> {
        match self.last_name {
            Some(s) => Some(s@),
            None => None,
        }
    }

    /// The bytes of the source not yet read.
    pub closed spec fn remaining(&self) -> Seq<u8> {
        self.reader.remaining()
    }

    /// Nothing is read ahead, and `bytes` are left.
    pub open spec fn is_idle_at(&self, bytes: Seq<u8>) -> bool {
        self.pending_tag() is None && self.pending_name() is None && self.remaining() == bytes
    }

    /// Why no tag can be had: none is pending and the source is at its end.
    pub open spec fn tag_error(&self) -> Option<Error> {
        if self.pending_tag() is None && self.remaining().len() == 0 {
            Some(Error::IoError)
        } else {
            None
        }
    }

    /// The tag of the next value: the pending one, else the next byte.
    pub open spec fn next_tag(&self) -> u8 {
        match self.pending_tag() {
            Some(t) => t,
            None => self.remaining()[0],
        }
    }

    /// The bytes that follow the next tag.
    pub open spec fn after_tag(&self) -> Seq<u8> {
        if self.pending_tag() is Some {
            self.remaining()
        } else {
            self.remaining().skip(1)
        }
    }

    /// Why no name can be had behind the next tag.
    pub open spec fn name_error(&self) -> Option<Error> {
        if self.pending_name() is Some {
            None
        } else {
            text_error(self.after_tag())
        }
    }

    /// The name of the next value: the pending one, else the one on the wire.
    pub open spec fn next_name(&self) -> Seq<char> {
        match self.pending_name() {
            Some(n) => n,
            None => text_of(self.after_tag()),
        }
    }

    /// The bytes that follow the next tag and name: the payload and the rest.
    pub open spec fn after_name(&self) -> Seq<u8> {
        if self.pending_name() is Some {
            self.after_tag()
        } else {
            self.after_tag().skip(text_size(self.after_tag()))
        }
    }

    /// Why the head of the next value cannot be taken, whatever its tag: no
    /// tag can be had, or no name. `None` where it can.
    pub open spec fn any_head_error(&self) -> Option<Error> {
        if self.tag_error() is Some {
            self.tag_error()
        } else {
            self.name_error()
        }
    }

    /// Why the head of the next value cannot be taken as one of `tag`: no tag
    /// can be had, the tag is another one (`expected` says so), or no name can
    /// be had. `None` where it can.
    pub open spec fn head_error(&self, tag: u8, expected: Error) -> Option<Error> {
        if self.tag_error() is Some {
            self.tag_error()
        } else if self.next_tag() != tag {
            Some(expected)
        } else {
            self.name_error()
        }
    }

    /// A decoder at the start of `reader`, with nothing read ahead.
    pub fn from_reader(reader: ByteReader) -> (d: Deserializer)
        ensures
            d.is_idle_at(reader.remaining()),
    {
        Deserializer { reader, last_tag: None, last_name: None }
    }

    /// The tag of the next value. The first call reads it from the source;
    /// until it is consumed, later calls return it again and read nothing.
    pub fn get_last_tag(&mut self) -> (r: Result<u8, Error>)
        ensures
            final(self).pending_name() == old(self).pending_name(),
            match old(self).tag_error() {
                Some(e) => r == Err::<u8, Error>(e) && final(self).pending_tag() is None
                    && final(self).remaining() == old(self).remaining(),
                None => r == Ok::<u8, Error>(old(self).next_tag()) && final(self).pending_tag()
                    == Some(old(self).next_tag()) && final(self).remaining() == old(
                    self,
                ).after_tag(),
            },
    {
        match self.last_tag {
            Some(t) => Ok(t),
            None => {
                match self.reader.read_u8() {
                    Ok(t) => {
                        self.last_tag = Some(t);
                        Ok(t)
                    },
                    Err(e) => Err(e),
                }
            },
        }
    }

    /// Consumes the name of the next value without returning it: the pending
    /// one where there is one, else the one at the front of the source.
    pub fn skip_name(&mut self) -> (r: Result<(), Error>)
        ensures
            final(self).pending_tag() == old(self).pending_tag(),
            old(self).pending_name() is Some ==> r is Ok && final(self).pending_name() is None
                && final(self).remaining() == old(self).remaining(),
            old(self).pending_name() is None ==> match text_error(old(self).remaining()) {
                Some(e) => r == Err::<(), Error>(e),
                None => r is Ok && final(self).pending_name() is None && final(self).remaining()
                    == old(self).remaining().skip(text_size(old(self).remaining())),
            },
    {
        if self.last_name.is_none() {
            match read_name(&mut self.reader) {
                Ok(_) => {},
                Err(e) => {
                    return Err(e);
                },
            }
        }
        self.last_name = None;
        Ok(())
    }

    /// The name of the next value. The first call reads it from the source;
    /// until it is consumed, later calls return it again and read nothing.
    pub fn get_last_name(&mut self) -> (r: Result<String, Error>)
        ensures
            final(self).pending_tag() == old(self).pending_tag(),
            match old(self).pending_name() {
                Some(n) => r is Ok && r.unwrap()@ == n && final(self).pending_name() == Some(n)
                    && final(self).remaining() == old(self).remaining(),
                None => match text_error(old(self).remaining()) {
                    Some(e) => r == Err::<String, Error>(e),
                    None => r is Ok && r.unwrap()@ == text_of(old(self).remaining())
                        && final(self).pending_name() == Some(text_of(old(self).remaining()))
                        && final(self).remaining() == old(self).remaining().skip(
                        text_size(old(self).remaining()),
                    ),
                },
            },
    {
        match &self.last_name {
            Some(n) => Ok(n.clone()),
            None => {
                match read_name(&mut self.reader) {
                    Ok(n) => {
                        let copy = n.clone();
                        self.last_name = Some(n);
                        Ok(copy)
                    },
                    Err(e) => Err(e),
                }
            },
        }
    }

    /// Takes the head of the next value, which must be one of `tag`: peeks the
    /// tag, fails with `expected` where it is another one, consumes the name
    /// and then the tag. What is left is the payload.
    pub fn expect_tag(&mut self, tag: u8, expected: Error) -> (r: Result<(), Error>)
        ensures
            match old(self).head_error(tag, expected) {
                Some(e) => r == Err::<(), Error>(e),
                None => r is Ok && final(self).is_idle_at(old(self).after_name()),
            },
    {
        let found = match self.get_last_tag() {
            Ok(t) => t,
            Err(e) => {
                return Err(e);
            },
        };
        if found != tag {
            return Err(expected);
        }
        match self.skip_name() {
            Ok(_) => {},
            Err(e) => {
                return Err(e);
            },
        }
        self.last_tag = None;
        Ok(())
    }

    /// A boolean is read from a Byte: true where the payload is 1.
    pub fn deserialize_bool(&mut self) -> (r: Result<bool, Error>)
        ensures
            match old(self).head_error(TAG_BYTE, Error::ExpectedByte) {
                Some(e) => r == Err::<bool, Error>(e),
                None => if old(self).after_name().len() < 1 {
                    r == Err::<bool, Error>(Error::IoError)
                } else {
                    r == Ok::<bool, Error>(old(self).after_name()[0] == 1) && final(self).is_idle_at(
                        old(self).after_name().skip(1),
                    )
                },
            },
    {
        match self.expect_tag(TAG_BYTE, Error::ExpectedByte) {
            Ok(_) => {},
            Err(e) => {
                return Err(e);
            },
        }
        match self.reader.read_u8() {
            Ok(v) => Ok(v == 1),
            Err(e) => Err(e),
        }
    }

    /// A signed 8-bit integer is read from a Byte.
    pub fn deserialize_i8(&mut self) -> (r: Result<i8, Error>)
        ensures
            match old(self).head_error(TAG_BYTE, Error::ExpectedByte) {
                Some(e) => r == Err::<i8, Error>(e),
                None => if old(self).after_name().len() < 1 {
                    r == Err::<i8, Error>(Error::IoError)
                } else {
                    r == Ok::<i8, Error>(old(self).after_name()[0] as i8) && final(self).is_idle_at(
                        old(self).after_name().skip(1),
                    )
                },
            },
    {
        match self.expect_tag(TAG_BYTE, Error::ExpectedByte) {
            Ok(_) => {},
            Err(e) => {
                return Err(e);
            },
        }
        match self.reader.read_u8() {
            Ok(v) => Ok(v as i8),
            Err(e) => Err(e),
        }
    }

    /// A signed 16-bit integer is read from a Short.
    pub fn deserialize_i16(&mut self) -> (r: Result<i16, Error>)
        ensures
            match old(self).head_error(TAG_SHORT, Error::ExpectedShort) {
                Some(e) => r == Err::<i16, Error>(e),
                None => if old(self).after_name().len() < 2 {
                    r == Err::<i16, Error>(Error::IoError)
                } else {
                    r == Ok::<i16, Error>(from_be16(old(self).after_name()) as i16) && final(self).is_idle_at(
                        old(self).after_name().skip(2),
                    )
                },
            },
    {
        match self.expect_tag(TAG_SHORT, Error::ExpectedShort) {
            Ok(_) => {},
            Err(e) => {
                return Err(e);
            },
        }
        match self.reader.read_u16() {
            Ok(v) => Ok(v as i16),
            Err(e) => Err(e),
        }
    }

    /// A signed 32-bit integer is read from an Int.
    pub fn deserialize_i32(&mut self) -> (r: Result<i32, Error>)
        ensures
            match old(self).head_error(TAG_INT, Error::ExpectedInt) {
                Some(e) => r == Err::<i32, Error>(e),
                None => if old(self).after_name().len() < 4 {
                    r == Err::<i32, Error>(Error::IoError)
                } else {
                    r == Ok::<i32, Error>(from_be32(old(self).after_name()) as i32) && final(self).is_idle_at(
                        old(self).after_name().skip(4),
                    )
                },
            },
    {
        match self.expect_tag(TAG_INT, Error::ExpectedInt) {
            Ok(_) => {},
            Err(e) => {
                return Err(e);
            },
        }
        match self.reader.read_u32() {
            Ok(v) => Ok(v as i32),
            Err(e) => Err(e),
        }
    }

    /// A signed 64-bit integer is read from a Long.
    pub fn deserialize_i64(&mut self) -> (r: Result<i64, Error>)
        ensures
            match old(self).head_error(TAG_LONG, Error::ExpectedLong) {
                Some(e) => r == Err::<i64, Error>(e),
                None => if old(self).after_name().len() < 8 {
                    r == Err::<i64, Error>(Error::IoError)
                } else {
                    r == Ok::<i64, Error>(from_be64(old(self).after_name()) as i64) && final(self).is_idle_at(
                        old(self).after_name().skip(8),
                    )
                },
            },
    {
        match self.expect_tag(TAG_LONG, Error::ExpectedLong) {
            Ok(_) => {},
            Err(e) => {
                return Err(e);
            },
        }
        match self.reader.read_u64() {
            Ok(v) => Ok(v as i64),
            Err(e) => Err(e),
        }
    }

    /// An unsigned 8-bit integer is read from a Byte.
    pub fn deserialize_u8(&mut self) -> (r: Result<u8, Error>)
        ensures
            match old(self).head_error(TAG_BYTE, Error::ExpectedByte) {
                Some(e) => r == Err::<u8, Error>(e),
                None => if old(self).after_name().len() < 1 {
                    r == Err::<u8, Error>(Error::IoError)
                } else {
                    r == Ok::<u8, Error>(old(self).after_name()[0]) && final(self).is_idle_at(
                        old(self).after_name().skip(1),
                    )
                },
            },
    {
        match self.expect_tag(TAG_BYTE, Error::ExpectedByte) {
            Ok(_) => {},
            Err(e) => {
                return Err(e);
            },
        }
        match self.reader.read_u8() {
            Ok(v) => Ok(v),
            Err(e) => Err(e),
        }
    }

    /// A 32-bit float is read from a Float, as its IEEE-754 bits.
    pub fn deserialize_f32(&mut self) -> (r: Result<u32, Error>)
        ensures
            match old(self).head_error(TAG_FLOAT, Error::ExpectedFloat) {
                Some(e) => r == Err::<u32, Error>(e),
                None => if old(self).after_name().len() < 4 {
                    r == Err::<u32, Error>(Error::IoError)
                } else {
                    r == Ok::<u32, Error>(from_be32(old(self).after_name())) && final(self).is_idle_at(
                        old(self).after_name().skip(4),
                    )
                },
            },
    {
        match self.expect_tag(TAG_FLOAT, Error::ExpectedFloat) {
            Ok(_) => {},
            Err(e) => {
                return Err(e);
            },
        }
        match self.reader.read_u32() {
            Ok(v) => Ok(v),
            Err(e) => Err(e),
        }
    }

    /// A 64-bit float is read from a Double, as its IEEE-754 bits.
    pub fn deserialize_f64(&mut self) -> (r: Result<u64, Error>)
        ensures
            match old(self).head_error(TAG_DOUBLE, Error::ExpectedDouble) {
                Some(e) => r == Err::<u64, Error>(e),
                None => if old(self).after_name().len() < 8 {
                    r == Err::<u64, Error>(Error::IoError)
                } else {
                    r == Ok::<u64, Error>(from_be64(old(self).after_name())) && final(self).is_idle_at(
                        old(self).after_name().skip(8),
                    )
                },
            },
    {
        match self.expect_tag(TAG_DOUBLE, Error::ExpectedDouble) {
            Ok(_) => {},
            Err(e) => {
                return Err(e);
            },
        }
        match self.reader.read_u64() {
            Ok(v) => Ok(v),
            Err(e) => Err(e),
        }
    }

    /// An unsigned 16-bit integer is read from an Int, which must hold one.
    pub fn deserialize_u16(&mut self) -> (r: Result<u16, Error>)
        ensures
            match old(self).head_error(TAG_INT, Error::ExpectedInt) {
                Some(e) => r == Err::<u16, Error>(e),
                None => if old(self).after_name().len() < 4 {
                    r == Err::<u16, Error>(Error::IoError)
                } else {
                    let v = from_be32(old(self).after_name()) as i32;
                    &&& final(self).is_idle_at(old(self).after_name().skip(4))
                    &&& if 0 <= v <= u16::MAX {
                        r == Ok::<u16, Error>(v as u16)
                    } else {
                        r == Err::<u16, Error>(Error::IntError)
                    }
                },
            },
    {
        match self.deserialize_i32() {
            Ok(v) => {
                if 0 <= v && v <= 0xffff {
                    Ok(v as u16)
                } else {
                    Err(Error::IntError)
                }
            },
            Err(e) => Err(e),
        }
    }

    /// An unsigned 32-bit integer is read from a Long, which must hold one.
    pub fn deserialize_u32(&mut self) -> (r: Result<u32, Error>)
        ensures
            match old(self).head_error(TAG_LONG, Error::ExpectedLong) {
                Some(e) => r == Err::<u32, Error>(e),
                None => if old(self).after_name().len() < 8 {
                    r == Err::<u32, Error>(Error::IoError)
                } else {
                    let v = from_be64(old(self).after_name()) as i64;
                    &&& final(self).is_idle_at(old(self).after_name().skip(8))
                    &&& if 0 <= v <= u32::MAX {
                        r == Ok::<u32, Error>(v as u32)
                    } else {
                        r == Err::<u32, Error>(Error::IntError)
                    }
                },
            },
    {
        match self.deserialize_i64() {
            Ok(v) => {
                if 0 <= v && v <= 0xffff_ffff {
                    Ok(v as u32)
                } else {
                    Err(Error::IntError)
                }
            },
            Err(e) => Err(e),
        }
    }

    /// An unsigned 64-bit integer is read from a Long, which must not be negative.
    pub fn deserialize_u64(&mut self) -> (r: Result<u64, Error>)
        ensures
            match old(self).head_error(TAG_LONG, Error::ExpectedLong) {
                Some(e) => r == Err::<u64, Error>(e),
                None => if old(self).after_name().len() < 8 {
                    r == Err::<u64, Error>(Error::IoError)
                } else {
                    let v = from_be64(old(self).after_name()) as i64;
                    &&& final(self).is_idle_at(old(self).after_name().skip(8))
                    &&& if 0 <= v {
                        r == Ok::<u64, Error>(v as u64)
                    } else {
                        r == Err::<u64, Error>(Error::IntError)
                    }
                },
            },
    {
        match self.deserialize_i64() {
            Ok(v) => {
                if 0 <= v {
                    Ok(v as u64)
                } else {
                    Err(Error::IntError)
                }
            },
            Err(e) => Err(e),
        }
    }

    /// A text is read from a String: a length-prefixed text like a name.
    pub fn deserialize_str(&mut self) -> (r: Result<String, Error>)
        ensures
            match old(self).head_error(TAG_STRING, Error::ExpectedString) {
                Some(e) => r == Err::<String, Error>(e),
                None => match text_error(old(self).after_name()) {
                    Some(e) => r == Err::<String, Error>(e),
                    None => r is Ok && r.unwrap()@ == text_of(old(self).after_name())
                        && final(self).is_idle_at(
                        old(self).after_name().skip(text_size(old(self).after_name())),
                    ),
                },
            },
    {
        match self.expect_tag(TAG_STRING, Error::ExpectedString) {
            Ok(_) => {},
            Err(e) => {
                return Err(e);
            },
        }
        read_name(&mut self.reader)
    }

    /// Raw bytes are read from a ByteArray: a signed 32-bit count, which must
    /// not be negative, then that many bytes.
    pub fn deserialize_bytes(&mut self) -> (r: Result<Vec<u8>, Error>)
        ensures
            match old(self).head_error(TAG_BYTE_ARRAY, Error::ExpectedByteArray) {
                Some(e) => r == Err::<Vec<u8>, Error>(e),
                None => match array_error(old(self).after_name()) {
                    Some(e) => r == Err::<Vec<u8>, Error>(e),
                    None => r is Ok && r.unwrap()@ == array_of(old(self).after_name())
                        && final(self).is_idle_at(
                        old(self).after_name().skip(4 + array_len(old(self).after_name())),
                    ),
                },
            },
    {
        match self.expect_tag(TAG_BYTE_ARRAY, Error::ExpectedByteArray) {
            Ok(_) => {},
            Err(e) => {
                return Err(e);
            },
        }
        let ghost b = self.reader.remaining();
        let count: i32 = match self.reader.read_u32() {
            Ok(n) => n as i32,
            Err(e) => {
                return Err(e);
            },
        };
        if count < 0 {
            return Err(Error::IntError);
        }
        let r = self.reader.read_bytes(count as usize);
        proof {
            if r is Ok {
                assert(r.unwrap()@ =~= array_of(b));
                assert(self.reader.remaining() =~= b.skip(4 + array_len(b)));
            }
        }
        r
    }

    /// Opens a record: takes the head of a Compound. Its fields follow, one
    /// for each `next_key` that returns a name.
    pub fn deserialize_struct(&mut self) -> (r: Result<(), Error>)
        ensures
            match old(self).head_error(TAG_COMPOUND, Error::ExpectedCompound) {
                Some(e) => r == Err::<(), Error>(e),
                None => r is Ok && final(self).is_idle_at(old(self).after_name()),
            },
    {
        self.expect_tag(TAG_COMPOUND, Error::ExpectedCompound)
    }

    /// The name read ahead, as the identifier of the field that comes next.
    /// Fails with `ExpectedIdentifier` where none is pending. Nothing is consumed.
    pub fn deserialize_identifier(&self) -> (r: Result<String, Error>)
        ensures
            match self.pending_name() {
                Some(n) => r is Ok && r.unwrap()@ == n,
                None => r == Err::<String, Error>(Error::ExpectedIdentifier),
            },
    {
        match &self.last_name {
            Some(n) => Ok(n.clone()),
            None => Err(Error::ExpectedIdentifier),
        }
    }

    /// Inside a record: the name of the next field, read ahead together with
    /// its tag, or `None` at the End tag, which is consumed.
    pub fn next_key(&mut self) -> (r: Result<Option<String>, Error>)
        ensures
            match old(self).tag_error() {
                Some(e) => r == Err::<Option<String>, Error>(e),
                None => if old(self).next_tag() == TAG_END {
                    r == Ok::<Option<String>, Error>(None) && final(self).pending_tag() is None
                        && final(self).pending_name() == old(self).pending_name()
                        && final(self).remaining() == old(self).after_tag()
                } else {
                    match old(self).name_error() {
                        Some(e) => r == Err::<Option<String>, Error>(e),
                        None => r is Ok && r.unwrap() is Some && r.unwrap().unwrap()@ == old(
                            self,
                        ).next_name() && final(self).pending_tag() == Some(old(self).next_tag())
                            && final(self).pending_name() == Some(old(self).next_name())
                            && final(self).remaining() == old(self).after_name(),
                    }
                },
            },
    {
        let tag = match self.get_last_tag() {
            Ok(t) => t,
            Err(e) => {
                return Err(e);
            },
        };
        if tag == TAG_END {
            self.last_tag = None;
            return Ok(None);
        }
        match self.get_last_name() {
            Ok(n) => Ok(Some(n)),
            Err(e) => Err(e),
        }
    }

    /// Reads the next value as one of type `kind`: its tag must be the one
    /// under which that type travels, and the payload is narrowed back.
    pub fn deserialize_scalar(&mut self, kind: Kind) -> (r: Result<Scalar, Error>)
        ensures
            match old(self).head_error(tag_of(kind), mismatch_of(kind)) {
                Some(e) => r == Err::<Scalar, Error>(e),
                None => match payload_result(kind, old(self).after_name()) {
                    Err(e) => r == Err::<Scalar, Error>(e),
                    Ok((v, size)) => r is Ok && r.unwrap()@ == v && final(self).is_idle_at(
                        old(self).after_name().skip(size),
                    ),
                },
            },
    {
        match kind {
            Kind::Bool => match self.deserialize_bool() {
                Ok(v) => Ok(Scalar::Bool(v)),
                Err(e) => Err(e),
            },
            Kind::I8 => match self.deserialize_i8() {
                Ok(v) => Ok(Scalar::I8(v)),
                Err(e) => Err(e),
            },
            Kind::I16 => match self.deserialize_i16() {
                Ok(v) => Ok(Scalar::I16(v)),
                Err(e) => Err(e),
            },
            Kind::I32 => match self.deserialize_i32() {
                Ok(v) => Ok(Scalar::I32(v)),
                Err(e) => Err(e),
            },
            Kind::I64 => match self.deserialize_i64() {
                Ok(v) => Ok(Scalar::I64(v)),
                Err(e) => Err(e),
            },
            Kind::U8 => match self.deserialize_u8() {
                Ok(v) => Ok(Scalar::U8(v)),
                Err(e) => Err(e),
            },
            Kind::U16 => match self.deserialize_u16() {
                Ok(v) => Ok(Scalar::U16(v)),
                Err(e) => Err(e),
            },
            Kind::U32 => match self.deserialize_u32() {
                Ok(v) => Ok(Scalar::U32(v)),
                Err(e) => Err(e),
            },
            Kind::U64 => match self.deserialize_u64() {
                Ok(v) => Ok(Scalar::U64(v)),
                Err(e) => Err(e),
            },
            Kind::F32 => match self.deserialize_f32() {
                Ok(v) => Ok(Scalar::F32(v)),
                Err(e) => Err(e),
            },
            Kind::F64 => match self.deserialize_f64() {
                Ok(v) => Ok(Scalar::F64(v)),
                Err(e) => Err(e),
            },
            Kind::Str => match self.deserialize_str() {
                Ok(v) => Ok(Scalar::Str(v)),
                Err(e) => Err(e),
            },
            Kind::Bytes => match self.deserialize_bytes() {
                Ok(v) => Ok(Scalar::Bytes(v)),
                Err(e) => Err(e),
            },
        }
    }

    /// Opens the root record and returns its name: takes the head of a
    /// Compound, keeping the name that `deserialize_struct` discards.
    pub fn deserialize_root(&mut self) -> (r: Result<String, Error>)
        ensures
            match old(self).head_error(TAG_COMPOUND, Error::ExpectedCompound) {
                Some(e) => r == Err::<String, Error>(e),
                None => r is Ok && r.unwrap()@ == old(self).next_name() && final(self).is_idle_at(
                    old(self).after_name(),
                ),
            },
    {
        let found = match self.get_last_tag() {
            Ok(t) => t,
            Err(e) => {
                return Err(e);
            },
        };
        if found != TAG_COMPOUND {
            return Err(Error::ExpectedCompound);
        }
        let name = match self.get_last_name() {
            Ok(n) => n,
            Err(e) => {
                return Err(e);
            },
        };
        self.last_name = None;
        self.last_tag = None;
        Ok(name)
    }

    /// Opens a list: takes its head, whatever the tag, and its count, which
    /// must not be negative. Returns the element tag and the count; the
    /// payloads follow, each to be read behind `begin_element`.
    pub fn deserialize_seq(&mut self) -> (r: Result<(u8, i32), Error>)
        ensures
            match old(self).any_head_error() {
                Some(e) => r == Err::<(u8, i32), Error>(e),
                None => if old(self).after_name().len() < 4 {
                    r == Err::<(u8, i32), Error>(Error::IoError)
                } else if (from_be32(old(self).after_name()) as i32) < 0 {
                    r == Err::<(u8, i32), Error>(Error::IntError)
                } else {
                    r == Ok::<(u8, i32), Error>(
                        (old(self).next_tag(), from_be32(old(self).after_name()) as i32),
                    ) && final(self).is_idle_at(old(self).after_name().skip(4))
                },
            },
    {
        let tag = match self.get_last_tag() {
            Ok(t) => t,
            Err(e) => {
                return Err(e);
            },
        };
        match self.skip_name() {
            Ok(_) => {},
            Err(e) => {
                return Err(e);
            },
        }
        self.last_tag = None;
        let count: i32 = match self.reader.read_u32() {
            Ok(n) => n as i32,
            Err(e) => {
                return Err(e);
            },
        };
        if count < 0 {
            return Err(Error::IntError);
        }
        Ok((tag, count))
    }

    /// Inside a list: primes the lookahead with the element tag `tag` and the
    /// empty name, so that the next value is read from its payload alone.
    pub fn begin_element(&mut self, tag: u8)
        ensures
            final(self).pending_tag() == Some(tag),
            final(self).pending_name() == Some(Seq::<char>::empty()),
            final(self).remaining() == old(self).remaining(),
    {
        self.last_tag = Some(tag);
        self.last_name = Some(String::new());
    }

    /// Reads the next value as a list of values of type `kind`: the element
    /// tag, which must be the one under which that type travels, the name, a
    /// signed 32-bit count, which must not be negative, and that many
    /// payloads.
    pub fn deserialize_list(&mut self, kind: Kind) -> (r: Result<Vec<Scalar>, Error>)
        ensures
            match list_result(
                kind,
                old(self).head_error(tag_of(kind), mismatch_of(kind)),
                old(self).after_name(),
            ) {
                Err(e) => r == Err::<Vec<Scalar>, Error>(e),
                Ok((vs, rest)) => r is Ok && elements_view(r.unwrap()@) == vs
                    && final(self).is_idle_at(rest),
            },
    {
        match self.expect_tag(kind.tag(), kind.mismatch()) {
            Ok(_) => {},
            Err(e) => {
                return Err(e);
            },
        }
        let ghost b = self.remaining();
        let count: i32 = match self.reader.read_u32() {
            Ok(n) => n as i32,
            Err(e) => {
                return Err(e);
            },
        };
        if count < 0 {
            return Err(Error::IntError);
        }
        let ghost all = elements_result(kind, b.skip(4), count as int);
        let mut acc: Vec<Scalar> = Vec::new();
        let mut left: i32 = count;
        proof {
            assert(elements_view(acc@) =~= Seq::<ScalarView>::empty());
            lemma_after_nothing(all);
        }
        while left > 0
            invariant
                0 <= left,
                all == list_result(
                    kind,
                    old(self).head_error(tag_of(kind), mismatch_of(kind)),
                    old(self).after_name(),
                ),
                self.pending_tag() is None,
                self.pending_name() is None,
                all == after(
                    elements_view(acc@),
                    elements_result(kind, self.remaining(), left as int),
                ),
            decreases left,
        {
            let ghost done = elements_view(acc@);
            let ghost cur = self.remaining();
            self.begin_element(kind.tag());
            let value = match self.deserialize_scalar(kind) {
                Ok(v) => v,
                Err(e) => {
                    return Err(e);
                },
            };
            proof {
                let size = payload_result(kind, cur)->Ok_0.1;
                let then = elements_result(kind, cur.skip(size), left - 1);
                assert(elements_view(acc@.push(value)) =~= done.push(value@));
                if let Ok((vs, rest)) = then {
                    assert(done + (seq![value@] + vs) =~= done.push(value@) + vs);
                }
            }
            acc.push(value);
            left = left - 1;
        }
        proof {
            let done = elements_view(acc@);
            assert(done + Seq::<ScalarView>::empty() =~= done);
        }
        Ok(acc)
    }

    /// Reads the next value as one of shape `shape`: a scalar as
    /// `deserialize_scalar` does, a record as the head of a Compound and then
    /// its fields up to the End tag, each read as the shape that `shape`
    /// gives its name.
    pub fn deserialize_value(&mut self, shape: &Shape) -> (r: Result<Value, Error>)
        ensures
            match old(self).head_error(shape_tag(shape@), shape_mismatch(shape@)) {
                Some(e) => r == Err::<Value, Error>(e),
                None => match body_result(shape@, old(self).after_name()) {
                    Err(e) => r == Err::<Value, Error>(e),
                    Ok((v, rest)) => r is Ok && r.unwrap()@ == v && final(self).is_idle_at(rest),
                },
            },
        decreases old(self).after_name().len(), 1nat,
    {
        match shape {
            Shape::Scalar(kind) => match self.deserialize_scalar(*kind) {
                Ok(v) => Ok(Value::Scalar(v)),
                Err(e) => Err(e),
            },
            Shape::List(kind) => match self.deserialize_list(*kind) {
                Ok(vs) => Ok(Value::List(vs)),
                Err(e) => Err(e),
            },
            Shape::Record(shapes) => {
                proof {
                    lemma_record_shape_view(*shapes);
                }
                match self.expect_tag(TAG_COMPOUND, Error::ExpectedCompound) {
                    Ok(_) => {},
                    Err(e) => {
                        return Err(e);
                    },
                }
                match self.read_fields(shapes) {
                    Ok(fields) => {
                        proof {
                            lemma_record_view(fields);
                        }
                        Ok(Value::Record(fields))
                    },
                    Err(e) => Err(e),
                }
            },
        }
    }

    /// Reads the fields of an open record up to its End tag: for each, the
    /// tag and the name are read ahead, `shapes` gives the shape for the
    /// name, and the value is read as one of that shape.
    fn read_fields(&mut self, shapes: &Vec<FieldShape>) -> (r: Result<Vec<Field>, Error>)
        requires
            old(self).pending_tag() is None,
            old(self).pending_name() is None,
        ensures
            match fields_result(old(self).remaining(), shape_view(shapes@)) {
                Err(e) => r == Err::<Vec<Field>, Error>(e),
                Ok((fs, rest)) => r is Ok && fields_view(r.unwrap()@) == fs
                    && final(self).is_idle_at(rest),
            },
        decreases old(self).remaining().len(), 0nat,
    {
        let ghost all = fields_result(old(self).remaining(), shape_view(shapes@));
        let ghost sv = shape_view(shapes@);
        let mut acc: Vec<Field> = Vec::new();
        assert(fields_view(acc@) =~= Seq::<FieldView>::empty());
        proof {
            lemma_behind_nothing(all);
        }
        loop
            invariant
                sv == shape_view(shapes@),
                self.pending_tag() is None,
                self.pending_name() is None,
                self.remaining().len() <= old(self).remaining().len(),
                all == behind(fields_view(acc@), fields_result(self.remaining(), sv)),
                all == fields_result(old(self).remaining(), shape_view(shapes@)),
            decreases self.remaining().len(),
        {
            let ghost cur = self.remaining();
            let ghost done = fields_view(acc@);
            let key = match self.next_key() {
                Ok(k) => k,
                Err(e) => {
                    return Err(e);
                },
            };
            let name = match key {
                Some(n) => n,
                None => {
                    assert(done + Seq::<FieldView>::empty() =~= done);
                    return Ok(acc);
                },
            };
            let ghost body = self.remaining();
            let shape = match find_shape(shapes, &name) {
                Some(s) => s,
                None => {
                    return Err(Error::ExpectedIdentifier);
                },
            };
            proof {
                lemma_body_result_shrinks(shape@, body);
            }
            let value = match self.deserialize_value(shape) {
                Ok(v) => v,
                Err(e) => {
                    return Err(e);
                },
            };
            let field = Field { name, value };
            proof {
                let then = body_result(shape@, body)->Ok_0.1;
                let more = fields_result(then, sv);
                assert(then.len() < cur.len());
                assert(fields_view(acc@.push(field)) =~= done.push(field@));
                if let Ok((fs, rest)) = more {
                    assert(done + (seq![field@] + fs) =~= done.push(field@) + fs);
                }
            }
            acc.push(field);
        }
    }
}

/// The list of values of type `k` whose head was taken with the outcome
/// `head_error` and whose count and payloads are at the start of `b`, and
/// the bytes that follow it; or why it cannot be read.
pub open spec fn list_result(k: Kind, head_error: Option<Error>, b: Seq<u8>) -> Result<
    (Seq<ScalarView>, Seq<u8>),
    Error,
> {
    match head_error {
        Some(e) => Err(e),
        None => list_body_result(k, b),
    }
}

/// `values` in front of the values that `then` holds.
spec fn after(
    values: Seq<ScalarView>,
    then: Result<(Seq<ScalarView>, Seq<u8>), Error>,
) -> Result<(Seq<ScalarView>, Seq<u8>), Error> {
    match then {
        Err(e) => Err(e),
        Ok((vs, rest)) => Ok((values + vs, rest)),
    }
}

proof fn lemma_after_nothing(then: Result<(Seq<ScalarView>, Seq<u8>), Error>)
    ensures
        after(Seq::<ScalarView>::empty(), then) == then,
{
    if let Ok((vs, rest)) = then {
        assert(Seq::<ScalarView>::empty() + vs =~= vs);
    }
}

/// `fields` in front of the fields that `then` holds.
spec fn behind(
    fields: Seq<FieldView>,
    then: Result<(Seq<FieldView>, Seq<u8>), Error>,
) -> Result<(Seq<FieldView>, Seq<u8>), Error> {
    match then {
        Err(e) => Err(e),
        Ok((fs, rest)) => Ok((fields + fs, rest)),
    }
}

proof fn lemma_behind_nothing(then: Result<(Seq<FieldView>, Seq<u8>), Error>)
    ensures
        behind(Seq::<FieldView>::empty(), then) == then,
{
    if let Ok((fs, rest)) = then {
        assert(Seq::<FieldView>::empty() + fs =~= fs);
    }
}

/// Decodes the value of shape `shape` at the start of `reader` and returns
/// its root name with it. The fields of a record come in the order of the
/// wire.
pub fn from_reader_named(reader: ByteReader, shape: &Shape) -> (r: Result<(String, Value), Error>)
    ensures
        match root_result(reader.remaining(), shape@) {
            Err(e) => r == Err::<(String, Value), Error>(e),
            Ok((name, v)) => r is Ok && r.unwrap().0@ == name && r.unwrap().1@ == v,
        },
{
    let mut de = Deserializer::from_reader(reader);
    let tag = match de.get_last_tag() {
        Ok(t) => t,
        Err(e) => {
            return Err(e);
        },
    };
    if tag != shape.tag() {
        return Err(shape.mismatch());
    }
    let name = match de.get_last_name() {
        Ok(n) => n,
        Err(e) => {
            return Err(e);
        },
    };
    match de.deserialize_value(shape) {
        Ok(value) => Ok((name, value)),
        Err(e) => Err(e),
    }
}

/// Decodes the value of shape `shape` at the start of `reader`. The fields
/// of a record come in the order of the wire.
pub fn from_reader(reader: ByteReader, shape: &Shape) -> (r: Result<Value, Error>)
    ensures
        match root_result(reader.remaining(), shape@) {
            Err(e) => r == Err::<Value, Error>(e),
            Ok((name, v)) => r is Ok && r.unwrap()@ == v,
        },
{
    match from_reader_named(reader, shape) {
        Ok((_, value)) => Ok(value),
        Err(e) => Err(e),
    }
}

/// Decodes the value of shape `shape` at the start of `bytes`, as
/// `from_reader` does.
pub fn from_bytes(bytes: &[u8], shape: &Shape) -> (r: Result<Value, Error>)
    ensures
        match root_result(bytes@, shape@) {
            Err(e) => r == Err::<Value, Error>(e),
            Ok((name, v)) => r is Ok && r.unwrap()@ == v,
        },
{
    from_reader(ByteReader::new(slice_to_vec(bytes)), shape)
}

} // verus!
