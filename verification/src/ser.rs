//! The encoder: one named value at a time, appended to a byte sink.

use crate::error::Error;
use crate::format::{
    array_bytes, bool_bytes, head, i16_bytes, i32_bytes, i64_bytes, i8_bytes, text_bytes,
};
use crate::nbt::{
    is_value_tag, value_tag, TAG_BYTE, TAG_BYTE_ARRAY, TAG_COMPOUND, TAG_DOUBLE, TAG_END,
    TAG_FLOAT, TAG_INT, TAG_LONG, TAG_SHORT, TAG_STRING,
};
use crate::text::append_bytes;
use crate::value::{
    elements_view, fields_error, fields_written, first_misfit, fits, kind_of, list_error,
    list_of_bytes, named_bytes, payload, payloads_bytes, tag_of, value_error, value_written, Scalar,
    ScalarView, Value,
};
use crate::wire::{be32, be64, put_u16, put_u32, put_u64};
use vstd::prelude::*;
use vstd::utf8::encode_utf8;

verus! {

/// Appends `name` to `w` as a length-prefixed text. The prefix holds the low
/// sixteen bits of the length in bytes.
pub fn write_name(w: &mut Vec<u8>, name: &str)
    ensures
        final(w)@ == old(w)@ + text_bytes(name@),
{
    let bytes = name.as_bytes();
    let len: usize = bytes.len();
    put_u16(w, (len % 0x1_0000) as u16);
    append_bytes(w, bytes);
    assert(bytes@ == encode_utf8(name@));
    assert(w@ =~= old(w)@ + text_bytes(name@));
}

/// Encodes `value` under `name` and appends it to `w`: a scalar as the
/// widening rules for its type say; a list as the tag of its elements, the
/// name, the count and the payloads; a record as the Compound tag, the name,
/// each field in order under its own name, and the End tag. The first scalar
/// that the wire cannot carry, or the first list that cannot be one, ends
/// the call with its error, behind what was written until then.
pub fn write_value(w: &mut Vec<u8>, name: &str, value: &Value) -> (r: Result<(), Error>)
    ensures
        final(w)@ == old(w)@ + value_written(name@, value@),
        match value_error(value@) {
            None => r is Ok,
            Some(e) => r == Err::<(), Error>(e),
        },
    decreases value,
{
    match value {
        Value::Scalar(scalar) => {
            let mut sink: Vec<u8> = Vec::new();
            core::mem::swap(w, &mut sink);
            let mut ser = Serializer::new(name.to_owned(), sink);
            let r = ser.serialize_scalar(scalar);
            *w = ser.into_writer();
            r
        },
        Value::List(elements) => {
            let mut sink: Vec<u8> = Vec::new();
            core::mem::swap(w, &mut sink);
            let mut ser = Serializer::new(name.to_owned(), sink);
            let r = ser.serialize_list(elements);
            *w = ser.into_writer();
            r
        },
        Value::Record(fields) => {
            let ghost fv = value@->Record_0;
            w.push(TAG_COMPOUND);
            write_name(w, name);
            let ghost start = w@;
            assert(start =~= old(w)@ + head(TAG_COMPOUND, name@));
            let mut i: usize = 0;
            while i < fields.len()
                invariant
                    i <= fields@.len(),
                    *value == Value::Record(*fields),
                    fv == value@->Record_0,
                    fv.len() == fields@.len(),
                    start == old(w)@ + head(TAG_COMPOUND, name@),
                    w@ + fields_written(fv, i as int) == start + fields_written(fv, 0),
                    fields_error(fv, 0) == fields_error(fv, i as int),
                decreases fields@.len() - i,
            {
                let ghost before = w@;
                let field = &fields[i];
                assert(fv[i as int] == field@);
                let r = write_value(w, field.name.as_str(), &field.value);
                match r {
                    Ok(_) => {},
                    Err(e) => {
                        assert(w@ =~= old(w)@ + value_written(name@, value@));
                        return Err(e);
                    },
                }
                assert(before + fields_written(fv, i as int) =~= w@ + fields_written(fv, i + 1));
                i = i + 1;
            }
            w.push(TAG_END);
            assert(w@ =~= old(w)@ + value_written(name@, value@));
            Ok(())
        },
    }
}

/// Encodes `value` under the root name `name` and appends it to `writer`,
/// as `write_value` does.
pub fn to_writer(writer: &mut Vec<u8>, value: &Value, name: String) -> (r: Result<(), Error>)
    ensures
        final(writer)@ == old(writer)@ + value_written(name@, value@),
        match value_error(value@) {
            None => r is Ok,
            Some(e) => r == Err::<(), Error>(e),
        },
{
    write_value(writer, name.as_str(), value)
}

/// The elements of a list under way: the tag that its first element fixed,
/// how many it holds, and their payloads, one behind the other.
pub struct ListAccumulator {
    element_tag: Option<u8>,
    count: u32,
    payloads: Vec<u8>,
}

/// The encoding of one value on its own: a value tag, the empty name, and
/// the payload.
pub open spec fn is_element(e: Seq<u8>) -> bool {
    e.len() >= 3 && is_value_tag(e[0]) && e[1] == 0 && e[2] == 0
}

impl ListAccumulator {
    /// The tag of the elements; `None` until the first element arrives.
    pub closed spec fn tag(&self) -> Option<u8> {
        self.element_tag
    }

    /// The number of elements.
    pub closed spec fn count(&self) -> u32 {
        self.count
    }

    /// The payloads of the elements, one behind the other.
    pub closed spec fn payloads(&self) -> Seq<u8> {
        self.payloads@
    }

    /// Why `element` cannot join the list: it is no encoding of one value
    /// (`UnknownListType`), its tag is not the tag of the list
    /// (`IncompatibleListType`), or the count of the list cannot grow
    /// (`IntError`). `None` where it can.
    pub open spec fn push_error(&self, element: Seq<u8>) -> Option<Error> {
        if !is_element(element) {
            Some(Error::UnknownListType)
        } else if self.tag() is Some && self.tag() != Some(element[0]) {
            Some(Error::IncompatibleListType)
        } else if self.count() >= i32::MAX {
            Some(Error::IntError)
        } else {
            None
        }
    }

    /// A list without elements and without a tag.
    pub fn new() -> (list: ListAccumulator)
        ensures
            list.tag() is None,
            list.count() == 0,
            list.payloads() == Seq::<u8>::empty(),
    {
        ListAccumulator { element_tag: None, count: 0, payloads: Vec::new() }
    }

    /// Adds one element, given as its encoding under the empty name. The
    /// first element fixes the tag of the list; an element of another tag is
    /// refused, and the list stays as it was.
    pub fn push(&mut self, element: &[u8]) -> (r: Result<(), Error>)
        ensures
            match old(self).push_error(element@) {
                Some(e) => r == Err::<(), Error>(e) && *final(self) == *old(self),
                None => r is Ok && final(self).tag() == Some(element@[0]) && final(self).count()
                    == old(self).count() + 1 && final(self).payloads() == old(self).payloads()
                    + element@.skip(3),
            },
    {
        if element.len() < 3 || !value_tag(element[0]) || element[1] != 0 || element[2] != 0 {
            return Err(Error::UnknownListType);
        }
        match self.element_tag {
            Some(tag) => {
                if tag != element[0] {
                    return Err(Error::IncompatibleListType);
                }
            },
            None => {},
        }
        if self.count >= 0x7fff_ffff {
            return Err(Error::IntError);
        }
        self.element_tag = Some(element[0]);
        self.count = self.count + 1;
        let payload = vstd::slice::slice_subrange(element, 3, element.len());
        append_bytes(&mut self.payloads, payload);
        assert(payload@ =~= element@.skip(3));
        Ok(())
    }
}

/// A list on the wire: the element tag, the name, the count, the payloads.
/// A list without a tag is nothing on the wire.
pub open spec fn list_bytes(name: Seq<char>, list: ListAccumulator) -> Seq<u8> {
    match list.tag() {
        None => Seq::<u8>::empty(),
        Some(tag) => head(tag, name) + be32(list.count()) + list.payloads(),
    }
}

/// A value encoded on its own, under the empty name: its tag, two zero
/// bytes, its payload.
proof fn lemma_detached(v: ScalarView)
    ensures
        is_element(named_bytes(Seq::<char>::empty(), v)),
        named_bytes(Seq::<char>::empty(), v)[0] == tag_of(kind_of(v)),
        named_bytes(Seq::<char>::empty(), v).skip(3) == payload(v),
{
    let e = named_bytes(Seq::<char>::empty(), v);
    assert(encode_utf8(Seq::<char>::empty()) =~= Seq::<u8>::empty());
    assert(0u16 >> 8 == 0 && 0u16 & 0xff == 0) by (bit_vector);
    assert(text_bytes(Seq::<char>::empty()) =~= seq![0u8, 0u8]);
    assert(e =~= seq![tag_of(kind_of(v)), 0u8, 0u8] + payload(v));
    assert(e.skip(3) =~= payload(v));
}

/// Writes values under one name to a byte sink that it owns.
pub struct Serializer {
    name: String,
    writer: Vec<u8>,
}

impl Serializer {
    /// The name under which the next value is written.
    pub closed spec fn name(&self) -> Seq<char> {
        self.name@
    }

    /// All that the sink holds.
    pub closed spec fn written(&self) -> Seq<u8> {
        self.writer@
    }

    /// This encoder is `before` with `bytes` appended to its sink.
    pub open spec fn wrote(&self, before: Serializer, bytes: Seq<u8>) -> bool {
        self.name() == before.name() && self.written() == before.written() + bytes
    }

    /// An encoder that writes under `name` behind what `writer` holds.
    pub fn new(name: String, writer: Vec<u8>) -> (s: Serializer)
        ensures
            s.name() == name@,
            s.written() == writer@,
    {
        Serializer { name, writer }
    }

    /// Sets the name under which the next value is written: inside a record,
    /// the name of the next field.
    pub fn rename(&mut self, name: String)
        ensures
            final(self).name() == name@,
            final(self).written() == old(self).written(),
    {
        self.name = name;
    }

    /// Gives the sink back.
    pub fn into_writer(self) -> (w: Vec<u8>)
        ensures
            w@ == self.written(),
    {
        self.writer
    }

    /// Writes `tag` and the name.
    fn begin(&mut self, tag: u8)
        ensures
            final(self).wrote(*old(self), head(tag, old(self).name())),
    {
        self.writer.push(tag);
        write_name(&mut self.writer, self.name.as_str());
        assert(self.writer@ =~= old(self).writer@ + head(tag, old(self).name()));
    }

    /// A boolean is a Byte: 1 for true, 0 for false.
    pub fn serialize_bool(&mut self, v: bool) -> (r: Result<(), Error>)
        ensures
            r is Ok,
            final(self).wrote(*old(self), head(TAG_BYTE, old(self).name()) + bool_bytes(v)),
    {
        self.begin(TAG_BYTE);
        self.writer.push(if v { 1 } else { 0 });
        assert(self.writer@ =~= old(self).writer@ + (head(TAG_BYTE, old(self).name()) + bool_bytes(v)));
        Ok(())
    }

    /// A signed 8-bit integer is a Byte.
    pub fn serialize_i8(&mut self, v: i8) -> (r: Result<(), Error>)
        ensures
            r is Ok,
            final(self).wrote(*old(self), head(TAG_BYTE, old(self).name()) + i8_bytes(v)),
    {
        self.begin(TAG_BYTE);
        self.writer.push(v as u8);
        assert(self.writer@ =~= old(self).writer@ + (head(TAG_BYTE, old(self).name()) + i8_bytes(v)));
        Ok(())
    }

    /// A signed 16-bit integer is a Short.
    pub fn serialize_i16(&mut self, v: i16) -> (r: Result<(), Error>)
        ensures
            r is Ok,
            final(self).wrote(*old(self), head(TAG_SHORT, old(self).name()) + i16_bytes(v)),
    {
        self.begin(TAG_SHORT);
        put_u16(&mut self.writer, v as u16);
        assert(self.writer@ =~= old(self).writer@ + (head(TAG_SHORT, old(self).name()) + i16_bytes(v)));
        Ok(())
    }

    /// A signed 32-bit integer is an Int.
    pub fn serialize_i32(&mut self, v: i32) -> (r: Result<(), Error>)
        ensures
            r is Ok,
            final(self).wrote(*old(self), head(TAG_INT, old(self).name()) + i32_bytes(v)),
    {
        self.begin(TAG_INT);
        put_u32(&mut self.writer, v as u32);
        assert(self.writer@ =~= old(self).writer@ + (head(TAG_INT, old(self).name()) + i32_bytes(v)));
        Ok(())
    }

    /// A signed 64-bit integer is a Long.
    pub fn serialize_i64(&mut self, v: i64) -> (r: Result<(), Error>)
        ensures
            r is Ok,
            final(self).wrote(*old(self), head(TAG_LONG, old(self).name()) + i64_bytes(v)),
    {
        self.begin(TAG_LONG);
        put_u64(&mut self.writer, v as u64);
        assert(self.writer@ =~= old(self).writer@ + (head(TAG_LONG, old(self).name()) + i64_bytes(v)));
        Ok(())
    }

    /// An unsigned 8-bit integer is a Byte.
    pub fn serialize_u8(&mut self, v: u8) -> (r: Result<(), Error>)
        ensures
            r is Ok,
            final(self).wrote(*old(self), head(TAG_BYTE, old(self).name()) + seq![v]),
    {
        self.begin(TAG_BYTE);
        self.writer.push(v);
        assert(self.writer@ =~= old(self).writer@ + (head(TAG_BYTE, old(self).name()) + seq![v]));
        Ok(())
    }

    /// An unsigned 16-bit integer is widened to an Int.
    pub fn serialize_u16(&mut self, v: u16) -> (r: Result<(), Error>)
        ensures
            r is Ok,
            final(self).wrote(*old(self), head(TAG_INT, old(self).name()) + i32_bytes(v as i32)),
    {
        self.serialize_i32(v as i32)
    }

    /// An unsigned 32-bit integer is widened to a Long.
    pub fn serialize_u32(&mut self, v: u32) -> (r: Result<(), Error>)
        ensures
            r is Ok,
            final(self).wrote(*old(self), head(TAG_LONG, old(self).name()) + i64_bytes(v as i64)),
    {
        self.serialize_i64(v as i64)
    }

    /// An unsigned 64-bit integer is a Long where it fits one. Where it does
    /// not, the tag and the name are written and the call fails with `IntError`.
    pub fn serialize_u64(&mut self, v: u64) -> (r: Result<(), Error>)
        ensures
            v <= i64::MAX ==> r is Ok && final(self).wrote(
                *old(self),
                head(TAG_LONG, old(self).name()) + i64_bytes(v as i64),
            ),
            v > i64::MAX ==> r == Err::<(), Error>(Error::IntError) && final(self).wrote(
                *old(self),
                head(TAG_LONG, old(self).name()),
            ),
    {
        if v <= 0x7fff_ffff_ffff_ffff {
            self.serialize_i64(v as i64)
        } else {
            self.begin(TAG_LONG);
            Err(Error::IntError)
        }
    }

    /// A 32-bit float, given by its IEEE-754 bits, is a Float.
    pub fn serialize_f32(&mut self, bits: u32) -> (r: Result<(), Error>)
        ensures
            r is Ok,
            final(self).wrote(*old(self), head(TAG_FLOAT, old(self).name()) + be32(bits)),
    {
        self.begin(TAG_FLOAT);
        put_u32(&mut self.writer, bits);
        assert(self.writer@ =~= old(self).writer@ + (head(TAG_FLOAT, old(self).name()) + be32(bits)));
        Ok(())
    }

    /// A 64-bit float, given by its IEEE-754 bits, is a Double.
    pub fn serialize_f64(&mut self, bits: u64) -> (r: Result<(), Error>)
        ensures
            r is Ok,
            final(self).wrote(*old(self), head(TAG_DOUBLE, old(self).name()) + be64(bits)),
    {
        self.begin(TAG_DOUBLE);
        put_u64(&mut self.writer, bits);
        assert(self.writer@ =~= old(self).writer@ + (head(TAG_DOUBLE, old(self).name()) + be64(bits)));
        Ok(())
    }

    /// A text is a String: a length-prefixed text like a name.
    pub fn serialize_str(&mut self, v: &str) -> (r: Result<(), Error>)
        ensures
            r is Ok,
            final(self).wrote(*old(self), head(TAG_STRING, old(self).name()) + text_bytes(v@)),
    {
        self.begin(TAG_STRING);
        write_name(&mut self.writer, v);
        assert(self.writer@ =~= old(self).writer@ + (head(TAG_STRING, old(self).name()) + text_bytes(v@)));
        Ok(())
    }

    /// Raw bytes are a ByteArray: a 32-bit count, then the bytes.
    pub fn serialize_bytes(&mut self, v: &[u8]) -> (r: Result<(), Error>)
        ensures
            r is Ok,
            final(self).wrote(*old(self), head(TAG_BYTE_ARRAY, old(self).name()) + array_bytes(v@)),
    {
        self.begin(TAG_BYTE_ARRAY);
        let len: usize = v.len();
        put_u32(&mut self.writer, ((len as u64) % 0x1_0000_0000) as u32);
        append_bytes(&mut self.writer, v);
        assert(self.writer@ =~= old(self).writer@ + (head(TAG_BYTE_ARRAY, old(self).name()) + array_bytes(v@)));
        Ok(())
    }

    /// An absent value leaves no trace on the wire.
    pub fn serialize_none(&mut self) -> (r: Result<(), Error>)
        ensures
            r is Ok,
            *final(self) == *old(self),
    {
        Ok(())
    }

    /// Opens a record: the Compound tag and the name. Its fields follow, each
    /// under its own name, and `end` closes it.
    pub fn serialize_struct(&mut self) -> (r: Result<(), Error>)
        ensures
            r is Ok,
            final(self).wrote(*old(self), head(TAG_COMPOUND, old(self).name())),
    {
        self.begin(TAG_COMPOUND);
        Ok(())
    }

    /// Writes `value` under the name, as the widening rules for its type say.
    /// An unsigned 64-bit integer above the largest Long fails as in
    /// `serialize_u64`.
    pub fn serialize_scalar(&mut self, value: &Scalar) -> (r: Result<(), Error>)
        ensures
            fits(value@) ==> r is Ok && final(self).wrote(
                *old(self),
                named_bytes(old(self).name(), value@),
            ),
            !fits(value@) ==> r == Err::<(), Error>(Error::IntError) && final(self).wrote(
                *old(self),
                head(TAG_LONG, old(self).name()),
            ),
    {
        match value {
            Scalar::Bool(v) => self.serialize_bool(*v),
            Scalar::I8(v) => self.serialize_i8(*v),
            Scalar::I16(v) => self.serialize_i16(*v),
            Scalar::I32(v) => self.serialize_i32(*v),
            Scalar::I64(v) => self.serialize_i64(*v),
            Scalar::U8(v) => self.serialize_u8(*v),
            Scalar::U16(v) => self.serialize_u16(*v),
            Scalar::U32(v) => self.serialize_u32(*v),
            Scalar::U64(v) => self.serialize_u64(*v),
            Scalar::F32(v) => self.serialize_f32(*v),
            Scalar::F64(v) => self.serialize_f64(*v),
            Scalar::Str(v) => self.serialize_str(v.as_str()),
            Scalar::Bytes(v) => self.serialize_bytes(v.as_slice()),
        }
    }

    /// Writes `value` under the name, as `write_value` does.
    pub fn serialize_value(&mut self, value: &Value) -> (r: Result<(), Error>)
        ensures
            final(self).wrote(*old(self), value_written(old(self).name(), value@)),
            match value_error(value@) {
                None => r is Ok,
                Some(e) => r == Err::<(), Error>(e),
            },
    {
        write_value(&mut self.writer, self.name.as_str(), value)
    }

    /// Inside a record: writes `value` under the field's own name `key`,
    /// leaving the name of the record as it is.
    pub fn serialize_field(&mut self, key: &str, value: &Value) -> (r: Result<(), Error>)
        ensures
            final(self).wrote(*old(self), value_written(key@, value@)),
            match value_error(value@) {
                None => r is Ok,
                Some(e) => r == Err::<(), Error>(e),
            },
    {
        write_value(&mut self.writer, key, value)
    }

    /// Writes the list that `list` has gathered: its element tag, the name,
    /// the count, and the elements' payloads. A list that never got an
    /// element has no element tag and leaves no trace on the wire.
    pub fn serialize_seq(&mut self, list: &ListAccumulator) -> (r: Result<(), Error>)
        ensures
            r is Ok,
            final(self).wrote(*old(self), list_bytes(old(self).name(), *list)),
    {
        match list.element_tag {
            None => {
                assert(self.writer@ =~= old(self).writer@ + Seq::<u8>::empty());
            },
            Some(tag) => {
                self.begin(tag);
                put_u32(&mut self.writer, list.count);
                append_bytes(&mut self.writer, list.payloads.as_slice());
                assert(self.writer@ =~= old(self).writer@ + list_bytes(old(self).name(), *list));
            },
        }
        Ok(())
    }

    /// Writes `elements` as a list under the name. Each element is first
    /// encoded on its own, under the empty name, to learn its tag; the first
    /// one fixes the tag of the list. Where an element cannot join, the call
    /// fails with that element's error and nothing is written.
    pub fn serialize_list(&mut self, elements: &Vec<Scalar>) -> (r: Result<(), Error>)
        ensures
            match list_error(elements_view(elements@)) {
                Some(e) => r == Err::<(), Error>(e) && final(self).wrote(
                    *old(self),
                    Seq::<u8>::empty(),
                ),
                None => r is Ok && final(self).wrote(
                    *old(self),
                    list_of_bytes(old(self).name(), elements_view(elements@)),
                ),
            },
    {
        let ghost es = elements_view(elements@);
        let mut list = ListAccumulator::new();
        let mut i: usize = 0;
        assert(es.take(0) =~= Seq::<ScalarView>::empty());
        assert(self.writer@ =~= old(self).writer@ + Seq::<u8>::empty());
        while i < elements.len()
            invariant
                i <= elements@.len(),
                es == elements_view(elements@),
                *self == *old(self),
                first_misfit(es, 0) == first_misfit(es, i as int),
                list.count() == i,
                i <= i32::MAX,
                i == 0 ==> list.tag() is None,
                i > 0 ==> list.tag() == Some(tag_of(kind_of(es[0]))),
                list.payloads() == payloads_bytes(es.take(i as int)),
            decreases elements@.len() - i,
        {
            let element = &elements[i];
            assert(es[i as int] == element@);
            let mut detached = Serializer::new(String::new(), Vec::new());
            match detached.serialize_scalar(element) {
                Ok(_) => {},
                Err(e) => {
                    return Err(e);
                },
            }
            let bytes = detached.into_writer();
            proof {
                lemma_detached(element@);
                assert(bytes@ =~= named_bytes(Seq::<char>::empty(), element@));
            }
            match list.push(bytes.as_slice()) {
                Ok(_) => {},
                Err(e) => {
                    return Err(e);
                },
            }
            proof {
                assert(es.take(i + 1).drop_last() =~= es.take(i as int));
            }
            i = i + 1;
        }
        assert(es.take(i as int) =~= es);
        self.serialize_seq(&list)
    }

    /// Closes a record with the End tag.
    pub fn end(&mut self) -> (r: Result<(), Error>)
        ensures
            r is Ok,
            final(self).wrote(*old(self), seq![TAG_END]),
    {
        self.writer.push(TAG_END);
        assert(self.writer@ =~= old(self).writer@ + seq![TAG_END]);
        Ok(())
    }
}

} // verus!
