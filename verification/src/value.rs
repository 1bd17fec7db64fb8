//! The values that the codec carries: scalars, texts and byte arrays, and
//! records of named fields; and what each is on the wire.

use crate::error::Error;
use crate::format::{
    array_bytes, array_error, array_len, array_of, bool_bytes, head, i16_bytes, i32_bytes,
    i64_bytes, i8_bytes, text_bytes, text_error, text_of, text_size,
};
use crate::nbt::{
    TAG_BYTE, TAG_BYTE_ARRAY, TAG_COMPOUND, TAG_DOUBLE, TAG_END, TAG_FLOAT, TAG_INT, TAG_LONG,
    TAG_SHORT, TAG_STRING,
};
use crate::wire::{be32, be64, from_be16, from_be32, from_be64};
use vstd::prelude::*;

verus! {

/// The type of a field, as the caller's data model has it.
#[derive(Clone, Copy, Debug, PartialEq, Eq)]
pub enum Kind {
    Bool,
    I8,
    I16,
    I32,
    I64,
    U8,
    U16,
    U32,
    U64,
    /// A 32-bit float, held as its IEEE-754 bits.
    F32,
    /// A 64-bit float, held as its IEEE-754 bits.
    F64,
    Str,
    Bytes,
}

/// A value of one field.
#[derive(Clone, Debug, PartialEq, Eq)]
pub enum Scalar {
    Bool(bool),
    I8(i8),
    I16(i16),
    I32(i32),
    I64(i64),
    U8(u8),
    U16(u16),
    U32(u32),
    U64(u64),
    /// A 32-bit float, held as its IEEE-754 bits.
    F32(u32),
    /// A 64-bit float, held as its IEEE-754 bits.
    F64(u64),
    Str(String),
    Bytes(Vec<u8>),
}

/// What a `Scalar` stands for.
pub enum ScalarView {
    Bool(bool),
    I8(i8),
    I16(i16),
    I32(i32),
    I64(i64),
    U8(u8),
    U16(u16),
    U32(u32),
    U64(u64),
    F32(u32),
    F64(u64),
    Str(Seq<char>),
    Bytes(Seq<u8>),
}

impl View for Scalar {
    type V = ScalarView;

    open spec fn view(&self) -> ScalarView {
        match self {
            Scalar::Bool(v) => ScalarView::Bool(*v),
            Scalar::I8(v) => ScalarView::I8(*v),
            Scalar::I16(v) => ScalarView::I16(*v),
            Scalar::I32(v) => ScalarView::I32(*v),
            Scalar::I64(v) => ScalarView::I64(*v),
            Scalar::U8(v) => ScalarView::U8(*v),
            Scalar::U16(v) => ScalarView::U16(*v),
            Scalar::U32(v) => ScalarView::U32(*v),
            Scalar::U64(v) => ScalarView::U64(*v),
            Scalar::F32(v) => ScalarView::F32(*v),
            Scalar::F64(v) => ScalarView::F64(*v),
            Scalar::Str(v) => ScalarView::Str(v@),
            Scalar::Bytes(v) => ScalarView::Bytes(v@),
        }
    }
}

/// A value: a scalar, a list of scalars, or a record of named values.
#[derive(Debug, PartialEq, Eq)]
pub enum Value {
    Scalar(Scalar),
    List(Vec<Scalar>),
    Record(Vec<Field>),
}

/// A named value of a record.
#[derive(Debug, PartialEq, Eq)]
pub struct Field {
    pub name: String,
    pub value: Value,
}

/// What a `Value` stands for.
pub enum ValueView {
    Scalar(ScalarView),
    List(Seq<ScalarView>),
    Record(Seq<FieldView>),
}

/// What a `Field` stands for.
pub struct FieldView {
    pub name: Seq<char>,
    pub value: ValueView,
}

/// The elements of a list, in order.
pub open spec fn elements_view(elements: Seq<Scalar>) -> Seq<ScalarView> {
    elements.map_values(|e: Scalar| e@)
}

/// What `v` stands for.
pub open spec fn value_view(v: Value) -> ValueView
    decreases v,
{
    match v {
        Value::Scalar(s) => ValueView::Scalar(s@),
        Value::List(elements) => ValueView::List(elements_view(elements@)),
        Value::Record(fields) => ValueView::Record(
            Seq::new(
                fields@.len(),
                |i: int|
                    if 0 <= i < fields@.len() {
                        FieldView { name: fields@[i].name@, value: value_view(fields@[i].value) }
                    } else {
                        FieldView {
                            name: Seq::<char>::empty(),
                            value: ValueView::Record(Seq::<FieldView>::empty()),
                        }
                    },
            ),
        ),
    }
}

impl View for Value {
    type V = ValueView;

    open spec fn view(&self) -> ValueView {
        value_view(*self)
    }
}

impl View for Field {
    type V = FieldView;

    open spec fn view(&self) -> FieldView {
        FieldView { name: self.name@, value: self.value@ }
    }
}

/// The shape of a value: the type of a scalar, the type of the elements of
/// a list, or the fields that a record may hold.
#[derive(Debug, PartialEq, Eq)]
pub enum Shape {
    Scalar(Kind),
    List(Kind),
    Record(Vec<FieldShape>),
}

/// A field that a record may hold: its name and the shape of its value.
#[derive(Debug, PartialEq, Eq)]
pub struct FieldShape {
    pub name: String,
    pub shape: Shape,
}

/// What a `Shape` stands for.
pub enum ShapeView {
    Scalar(Kind),
    List(Kind),
    Record(Seq<FieldShapeView>),
}

/// What a `FieldShape` stands for.
pub struct FieldShapeView {
    pub name: Seq<char>,
    pub shape: ShapeView,
}

/// What `s` stands for.
pub open spec fn shape_of(s: Shape) -> ShapeView
    decreases s,
{
    match s {
        Shape::Scalar(k) => ShapeView::Scalar(k),
        Shape::List(k) => ShapeView::List(k),
        Shape::Record(fields) => ShapeView::Record(
            Seq::new(
                fields@.len(),
                |i: int|
                    if 0 <= i < fields@.len() {
                        FieldShapeView { name: fields@[i].name@, shape: shape_of(fields@[i].shape) }
                    } else {
                        FieldShapeView {
                            name: Seq::<char>::empty(),
                            shape: ShapeView::Record(Seq::<FieldShapeView>::empty()),
                        }
                    },
            ),
        ),
    }
}

impl View for Shape {
    type V = ShapeView;

    open spec fn view(&self) -> ShapeView {
        shape_of(*self)
    }
}

impl View for FieldShape {
    type V = FieldShapeView;

    open spec fn view(&self) -> FieldShapeView {
        FieldShapeView { name: self.name@, shape: self.shape@ }
    }
}

/// The fields of a record, in order.
pub open spec fn fields_view(fields: Seq<Field>) -> Seq<FieldView> {
    fields.map_values(|f: Field| f@)
}

/// The fields that a record may hold.
pub open spec fn shape_view(shape: Seq<FieldShape>) -> Seq<FieldShapeView> {
    shape.map_values(|f: FieldShape| f@)
}

/// A record stands for its fields, in order.
pub proof fn lemma_record_view(fields: Vec<Field>)
    ensures
        Value::Record(fields)@ == ValueView::Record(fields_view(fields@)),
{
    assert(Value::Record(fields)@->Record_0 =~= fields_view(fields@));
}

/// The shape of a record stands for the shapes of its fields, in order.
pub proof fn lemma_record_shape_view(fields: Vec<FieldShape>)
    ensures
        Shape::Record(fields)@ == ShapeView::Record(shape_view(fields@)),
{
    assert(Shape::Record(fields)@->Record_0 =~= shape_view(fields@));
}

/// The type of `v`.
pub open spec fn kind_of(v: ScalarView) -> Kind {
    match v {
        ScalarView::Bool(_) => Kind::Bool,
        ScalarView::I8(_) => Kind::I8,
        ScalarView::I16(_) => Kind::I16,
        ScalarView::I32(_) => Kind::I32,
        ScalarView::I64(_) => Kind::I64,
        ScalarView::U8(_) => Kind::U8,
        ScalarView::U16(_) => Kind::U16,
        ScalarView::U32(_) => Kind::U32,
        ScalarView::U64(_) => Kind::U64,
        ScalarView::F32(_) => Kind::F32,
        ScalarView::F64(_) => Kind::F64,
        ScalarView::Str(_) => Kind::Str,
        ScalarView::Bytes(_) => Kind::Bytes,
    }
}

/// The tag under which a value of type `k` travels: integers narrower than
/// the wire offers, and unsigned ones, are widened.
pub open spec fn tag_of(k: Kind) -> u8 {
    match k {
        Kind::Bool | Kind::I8 | Kind::U8 => TAG_BYTE,
        Kind::I16 => TAG_SHORT,
        Kind::I32 | Kind::U16 => TAG_INT,
        Kind::I64 | Kind::U32 | Kind::U64 => TAG_LONG,
        Kind::F32 => TAG_FLOAT,
        Kind::F64 => TAG_DOUBLE,
        Kind::Str => TAG_STRING,
        Kind::Bytes => TAG_BYTE_ARRAY,
    }
}

/// The error that says that a value of type `k` met another tag than its own.
pub open spec fn mismatch_of(k: Kind) -> Error {
    match k {
        Kind::Bool | Kind::I8 | Kind::U8 => Error::ExpectedByte,
        Kind::I16 => Error::ExpectedShort,
        Kind::I32 | Kind::U16 => Error::ExpectedInt,
        Kind::I64 | Kind::U32 | Kind::U64 => Error::ExpectedLong,
        Kind::F32 => Error::ExpectedFloat,
        Kind::F64 => Error::ExpectedDouble,
        Kind::Str => Error::ExpectedString,
        Kind::Bytes => Error::ExpectedByteArray,
    }
}

/// A value that the wire can carry: every one but an unsigned 64-bit integer
/// above the largest Long.
pub open spec fn fits(v: ScalarView) -> bool {
    match v {
        ScalarView::U64(n) => n <= i64::MAX,
        _ => true,
    }
}

/// The payload of `v`.
pub open spec fn payload(v: ScalarView) -> Seq<u8> {
    match v {
        ScalarView::Bool(b) => bool_bytes(b),
        ScalarView::I8(n) => i8_bytes(n),
        ScalarView::I16(n) => i16_bytes(n),
        ScalarView::I32(n) => i32_bytes(n),
        ScalarView::I64(n) => i64_bytes(n),
        ScalarView::U8(n) => seq![n],
        ScalarView::U16(n) => i32_bytes(n as i32),
        ScalarView::U32(n) => i64_bytes(n as i64),
        ScalarView::U64(n) => i64_bytes(n as i64),
        ScalarView::F32(bits) => be32(bits),
        ScalarView::F64(bits) => be64(bits),
        ScalarView::Str(s) => text_bytes(s),
        ScalarView::Bytes(b) => array_bytes(b),
    }
}

/// A value under a name: tag, name, payload.
pub open spec fn named_bytes(name: Seq<char>, v: ScalarView) -> Seq<u8> {
    head(tag_of(kind_of(v)), name) + payload(v)
}

/// The payloads of `elements`, one behind the other.
pub open spec fn payloads_bytes(elements: Seq<ScalarView>) -> Seq<u8>
    decreases elements.len(),
{
    if elements.len() == 0 {
        Seq::<u8>::empty()
    } else {
        payloads_bytes(elements.drop_last()) + payload(elements.last())
    }
}

/// A list of values on the wire: the tag of the first element, the name,
/// the count, the payloads. An empty list is nothing on the wire.
pub open spec fn list_of_bytes(name: Seq<char>, elements: Seq<ScalarView>) -> Seq<u8> {
    if elements.len() == 0 {
        Seq::<u8>::empty()
    } else {
        head(tag_of(kind_of(elements[0])), name) + be32(elements.len() as u32) + payloads_bytes(
            elements,
        )
    }
}

/// The element at `i` can join a list that `first` began: the wire can
/// carry it, its tag is the tag of `first`, and the count can still grow.
pub open spec fn joins(e: ScalarView, first: ScalarView, i: int) -> bool {
    fits(e) && tag_of(kind_of(e)) == tag_of(kind_of(first)) && i < i32::MAX
}

/// Why the element at `i` cannot join a list that `first` began.
pub open spec fn misfit_error(e: ScalarView, first: ScalarView, i: int) -> Error {
    if !fits(e) {
        Error::IntError
    } else if tag_of(kind_of(e)) != tag_of(kind_of(first)) {
        Error::IncompatibleListType
    } else {
        Error::IntError
    }
}

/// The first index from `from` on whose element cannot join the list that
/// the first element began; `None` where all can.
pub open spec fn first_misfit(elements: Seq<ScalarView>, from: int) -> Option<int>
    decreases elements.len() - from,
{
    if from < 0 || from >= elements.len() {
        None
    } else if !joins(elements[from], elements[0], from) {
        Some(from)
    } else {
        first_misfit(elements, from + 1)
    }
}

/// Why a list of `elements` cannot be encoded: the error of the first
/// element that cannot join it. `None` where it can.
pub open spec fn list_error(elements: Seq<ScalarView>) -> Option<Error> {
    match first_misfit(elements, 0) {
        Some(i) => Some(misfit_error(elements[i], elements[0], i)),
        None => None,
    }
}

/// Why `v` cannot be encoded: the error of the first scalar in it that the
/// wire cannot carry, or of the first list in it that cannot be one.
/// `None` where it can.
pub open spec fn value_error(v: ValueView) -> Option<Error>
    decreases v, 0nat,
{
    match v {
        ValueView::Scalar(s) => if fits(s) {
            None
        } else {
            Some(Error::IntError)
        },
        ValueView::List(elements) => list_error(elements),
        ValueView::Record(fields) => fields_error(fields, 0),
    }
}

/// Why the fields from index `from` on cannot be encoded: the error of the
/// first that cannot. `None` where all can.
pub open spec fn fields_error(fields: Seq<FieldView>, from: int) -> Option<Error>
    decreases fields, fields.len() - from,
{
    if from < 0 || from >= fields.len() {
        None
    } else if value_error(fields[from].value) is Some {
        value_error(fields[from].value)
    } else {
        fields_error(fields, from + 1)
    }
}

/// What encoding `v` under `name` writes. Where `v` can be encoded, that is
/// `v` on the wire: a scalar as tag, name and payload; a list as the tag of
/// its elements, the name, the count and the payloads; a record as the
/// Compound tag, the name, its fields in order, and the End tag. Where it
/// cannot, that is all that comes before the payload of the first scalar
/// that does not fit, or before the first list that cannot be one.
pub open spec fn value_written(name: Seq<char>, v: ValueView) -> Seq<u8>
    decreases v, 0nat,
{
    match v {
        ValueView::Scalar(s) => if fits(s) {
            named_bytes(name, s)
        } else {
            head(TAG_LONG, name)
        },
        ValueView::List(elements) => if list_error(elements) is None {
            list_of_bytes(name, elements)
        } else {
            Seq::<u8>::empty()
        },
        ValueView::Record(fields) => head(TAG_COMPOUND, name) + fields_written(fields, 0) + (
        if fields_error(fields, 0) is None {
            seq![TAG_END]
        } else {
            Seq::<u8>::empty()
        }),
    }
}

/// What encoding the fields from index `from` on writes, one behind the
/// other, up to and with the first that cannot be encoded.
pub open spec fn fields_written(fields: Seq<FieldView>, from: int) -> Seq<u8>
    decreases fields, fields.len() - from,
{
    if from < 0 || from >= fields.len() {
        Seq::<u8>::empty()
    } else if value_error(fields[from].value) is None {
        value_written(fields[from].name, fields[from].value) + fields_written(fields, from + 1)
    } else {
        value_written(fields[from].name, fields[from].value)
    }
}

/// The tag under which a value of shape `s` travels.
pub open spec fn shape_tag(s: ShapeView) -> u8 {
    match s {
        ShapeView::Scalar(k) => tag_of(k),
        ShapeView::List(k) => tag_of(k),
        ShapeView::Record(_) => TAG_COMPOUND,
    }
}

/// The error that says that a value of shape `s` met another tag than its own.
pub open spec fn shape_mismatch(s: ShapeView) -> Error {
    match s {
        ShapeView::Scalar(k) => mismatch_of(k),
        ShapeView::List(k) => mismatch_of(k),
        ShapeView::Record(_) => Error::ExpectedCompound,
    }
}

/// The value of type `k` at the start of the payload bytes `b`, and the
/// number of bytes it takes; or why there is none.
pub open spec fn payload_result(k: Kind, b: Seq<u8>) -> Result<(ScalarView, int), Error> {
    match k {
        Kind::Bool => if b.len() < 1 {
            Err(Error::IoError)
        } else {
            Ok((ScalarView::Bool(b[0] == 1), 1))
        },
        Kind::I8 => if b.len() < 1 {
            Err(Error::IoError)
        } else {
            Ok((ScalarView::I8(b[0] as i8), 1))
        },
        Kind::U8 => if b.len() < 1 {
            Err(Error::IoError)
        } else {
            Ok((ScalarView::U8(b[0]), 1))
        },
        Kind::I16 => if b.len() < 2 {
            Err(Error::IoError)
        } else {
            Ok((ScalarView::I16(from_be16(b) as i16), 2))
        },
        Kind::I32 => if b.len() < 4 {
            Err(Error::IoError)
        } else {
            Ok((ScalarView::I32(from_be32(b) as i32), 4))
        },
        Kind::I64 => if b.len() < 8 {
            Err(Error::IoError)
        } else {
            Ok((ScalarView::I64(from_be64(b) as i64), 8))
        },
        Kind::U16 => if b.len() < 4 {
            Err(Error::IoError)
        } else if 0 <= from_be32(b) as i32 <= u16::MAX {
            Ok((ScalarView::U16((from_be32(b) as i32) as u16), 4))
        } else {
            Err(Error::IntError)
        },
        Kind::U32 => if b.len() < 8 {
            Err(Error::IoError)
        } else if 0 <= from_be64(b) as i64 <= u32::MAX {
            Ok((ScalarView::U32((from_be64(b) as i64) as u32), 8))
        } else {
            Err(Error::IntError)
        },
        Kind::U64 => if b.len() < 8 {
            Err(Error::IoError)
        } else if 0 <= from_be64(b) as i64 {
            Ok((ScalarView::U64((from_be64(b) as i64) as u64), 8))
        } else {
            Err(Error::IntError)
        },
        Kind::F32 => if b.len() < 4 {
            Err(Error::IoError)
        } else {
            Ok((ScalarView::F32(from_be32(b)), 4))
        },
        Kind::F64 => if b.len() < 8 {
            Err(Error::IoError)
        } else {
            Ok((ScalarView::F64(from_be64(b)), 8))
        },
        Kind::Str => match text_error(b) {
            Some(e) => Err(e),
            None => Ok((ScalarView::Str(text_of(b)), text_size(b))),
        },
        Kind::Bytes => match array_error(b) {
            Some(e) => Err(e),
            None => Ok((ScalarView::Bytes(array_of(b)), 4 + array_len(b))),
        },
    }
}

/// The shape that `shapes` gives the field called `name`: that of the first
/// entry of that name.
pub open spec fn shape_for(shapes: Seq<FieldShapeView>, name: Seq<char>) -> Option<ShapeView>
    decreases shapes.len(),
{
    if shapes.len() == 0 {
        None
    } else if shapes[0].name == name {
        Some(shapes[0].shape)
    } else {
        shape_for(shapes.drop_first(), name)
    }
}

/// The `n` payloads of type `k` at the start of `b`, and the bytes that
/// follow them; or why they cannot be read.
pub open spec fn elements_result(k: Kind, b: Seq<u8>, n: int) -> Result<
    (Seq<ScalarView>, Seq<u8>),
    Error,
>
    decreases n,
{
    if n <= 0 {
        Ok((Seq::<ScalarView>::empty(), b))
    } else {
        match payload_result(k, b) {
            Err(e) => Err(e),
            Ok((v, size)) => match elements_result(k, b.skip(size), n - 1) {
                Err(e) => Err(e),
                Ok((vs, rest)) => Ok((seq![v] + vs, rest)),
            },
        }
    }
}

/// The list of values of type `k` whose count and payloads are at the
/// start of `b`, and the bytes that follow it; or why it cannot be read:
/// the bytes end too early, or the count is negative.
pub open spec fn list_body_result(k: Kind, b: Seq<u8>) -> Result<
    (Seq<ScalarView>, Seq<u8>),
    Error,
> {
    if b.len() < 4 {
        Err(Error::IoError)
    } else if (from_be32(b) as i32) < 0 {
        Err(Error::IntError)
    } else {
        elements_result(k, b.skip(4), (from_be32(b) as i32) as int)
    }
}

/// The value of shape `s` whose payload is at the start of `b`, and the
/// bytes that follow it; or why there is none.
pub open spec fn body_result(s: ShapeView, b: Seq<u8>) -> Result<(ValueView, Seq<u8>), Error>
    decreases b.len(), 1nat,
{
    match s {
        ShapeView::Scalar(k) => match payload_result(k, b) {
            Err(e) => Err(e),
            Ok((v, size)) => Ok((ValueView::Scalar(v), b.skip(size))),
        },
        ShapeView::List(k) => match list_body_result(k, b) {
            Err(e) => Err(e),
            Ok((vs, rest)) => Ok((ValueView::List(vs), rest)),
        },
        ShapeView::Record(shapes) => match fields_result(b, shapes) {
            Err(e) => Err(e),
            Ok((fields, rest)) => Ok((ValueView::Record(fields), rest)),
        },
    }
}

/// The fields read from `b`, the bytes behind the head of a record, up to its
/// End tag, each as the shape that `shapes` gives its name, and the bytes
/// that follow the End tag; or why they cannot be read. A field whose name
/// `shapes` does not know fails with `ExpectedIdentifier`.
pub open spec fn fields_result(b: Seq<u8>, shapes: Seq<FieldShapeView>) -> Result<
    (Seq<FieldView>, Seq<u8>),
    Error,
>
    decreases b.len(), 0nat,
{
    if b.len() == 0 {
        Err(Error::IoError)
    } else if b[0] == TAG_END {
        Ok((Seq::<FieldView>::empty(), b.skip(1)))
    } else {
        match text_error(b.skip(1)) {
            Some(e) => Err(e),
            None => {
                let name = text_of(b.skip(1));
                let body = b.skip(1).skip(text_size(b.skip(1)));
                match shape_for(shapes, name) {
                    None => Err(Error::ExpectedIdentifier),
                    Some(s) => if b[0] != shape_tag(s) {
                        Err(shape_mismatch(s))
                    } else {
                        match body_result(s, body) {
                            Err(e) => Err(e),
                            Ok((v, then)) => if then.len() < b.len() {
                                match fields_result(then, shapes) {
                                    Err(e) => Err(e),
                                    Ok((fs, rest)) => Ok(
                                        (seq![FieldView { name: name, value: v }] + fs, rest),
                                    ),
                                }
                            } else {
                                Err(Error::IoError)
                            },
                        }
                    },
                }
            },
        }
    }
}

/// The name and the value of shape `s` at the start of `b`; or why there is
/// none.
pub open spec fn root_result(b: Seq<u8>, s: ShapeView) -> Result<(Seq<char>, ValueView), Error> {
    if b.len() == 0 {
        Err(Error::IoError)
    } else if b[0] != shape_tag(s) {
        Err(shape_mismatch(s))
    } else {
        match text_error(b.skip(1)) {
            Some(e) => Err(e),
            None => match body_result(s, b.skip(1).skip(text_size(b.skip(1)))) {
                Err(e) => Err(e),
                Ok((v, rest)) => Ok((text_of(b.skip(1)), v)),
            },
        }
    }
}

/// What is read never leaves more bytes than there were.
pub proof fn lemma_elements_result_shrinks(k: Kind, b: Seq<u8>, n: int)
    ensures
        elements_result(k, b, n) matches Ok((_, rest)) ==> rest.len() <= b.len(),
    decreases n,
{
    if n > 0 {
        if let Ok((v, size)) = payload_result(k, b) {
            lemma_elements_result_shrinks(k, b.skip(size), n - 1);
        }
    }
}

/// What is read never leaves more bytes than there were.
pub proof fn lemma_body_result_shrinks(s: ShapeView, b: Seq<u8>)
    ensures
        body_result(s, b) matches Ok((_, rest)) ==> rest.len() <= b.len(),
    decreases b.len(), 1nat,
{
    match s {
        ShapeView::Scalar(k) => {},
        ShapeView::List(k) => {
            if b.len() >= 4 {
                lemma_elements_result_shrinks(k, b.skip(4), (from_be32(b) as i32) as int);
            }
        },
        ShapeView::Record(shapes) => {
            lemma_fields_result_shrinks(b, shapes);
        },
    }
}

/// What is read never leaves more bytes than there were.
pub proof fn lemma_fields_result_shrinks(b: Seq<u8>, shapes: Seq<FieldShapeView>)
    ensures
        fields_result(b, shapes) matches Ok((_, rest)) ==> rest.len() < b.len(),
    decreases b.len(), 0nat,
{
    if b.len() > 0 && b[0] != TAG_END && text_error(b.skip(1)) is None {
        let name = text_of(b.skip(1));
        let body = b.skip(1).skip(text_size(b.skip(1)));
        if let Some(s) = shape_for(shapes, name) {
            if b[0] == shape_tag(s) {
                lemma_body_result_shrinks(s, body);
                if let Ok((v, then)) = body_result(s, body) {
                    if then.len() < b.len() {
                        lemma_fields_result_shrinks(then, shapes);
                    }
                }
            }
        }
    }
}

impl Kind {
    /// The tag under which a value of this type travels.
    pub fn tag(self) -> (tag: u8)
        ensures
            tag == tag_of(self),
    {
        match self {
            Kind::Bool | Kind::I8 | Kind::U8 => TAG_BYTE,
            Kind::I16 => TAG_SHORT,
            Kind::I32 | Kind::U16 => TAG_INT,
            Kind::I64 | Kind::U32 | Kind::U64 => TAG_LONG,
            Kind::F32 => TAG_FLOAT,
            Kind::F64 => TAG_DOUBLE,
            Kind::Str => TAG_STRING,
            Kind::Bytes => TAG_BYTE_ARRAY,
        }
    }

    /// The error that says that a value of this type met another tag than
    /// its own.
    pub fn mismatch(self) -> (e: Error)
        ensures
            e == mismatch_of(self),
    {
        match self {
            Kind::Bool | Kind::I8 | Kind::U8 => Error::ExpectedByte,
            Kind::I16 => Error::ExpectedShort,
            Kind::I32 | Kind::U16 => Error::ExpectedInt,
            Kind::I64 | Kind::U32 | Kind::U64 => Error::ExpectedLong,
            Kind::F32 => Error::ExpectedFloat,
            Kind::F64 => Error::ExpectedDouble,
            Kind::Str => Error::ExpectedString,
            Kind::Bytes => Error::ExpectedByteArray,
        }
    }
}

impl Shape {
    /// The tag under which a value of this shape travels.
    pub fn tag(&self) -> (tag: u8)
        ensures
            tag == shape_tag(self@),
    {
        match self {
            Shape::Scalar(kind) => kind.tag(),
            Shape::List(kind) => kind.tag(),
            Shape::Record(_) => TAG_COMPOUND,
        }
    }

    /// The error that says that a value of this shape met another tag than
    /// its own.
    pub fn mismatch(&self) -> (e: Error)
        ensures
            e == shape_mismatch(self@),
    {
        match self {
            Shape::Scalar(kind) => kind.mismatch(),
            Shape::List(kind) => kind.mismatch(),
            Shape::Record(_) => Error::ExpectedCompound,
        }
    }
}

impl Scalar {
    /// The type of this value.
    pub fn kind(&self) -> (k: Kind)
        ensures
            k == kind_of(self@),
    {
        match self {
            Scalar::Bool(_) => Kind::Bool,
            Scalar::I8(_) => Kind::I8,
            Scalar::I16(_) => Kind::I16,
            Scalar::I32(_) => Kind::I32,
            Scalar::I64(_) => Kind::I64,
            Scalar::U8(_) => Kind::U8,
            Scalar::U16(_) => Kind::U16,
            Scalar::U32(_) => Kind::U32,
            Scalar::U64(_) => Kind::U64,
            Scalar::F32(_) => Kind::F32,
            Scalar::F64(_) => Kind::F64,
            Scalar::Str(_) => Kind::Str,
            Scalar::Bytes(_) => Kind::Bytes,
        }
    }
}

/// Looks up the shape that `shapes` gives the field called `name`.
pub fn find_shape<'a>(shapes: &'a Vec<FieldShape>, name: &String) -> (r: Option<&'a Shape>)
    ensures
        match shape_for(shape_view(shapes@), name@) {
            Some(s) => r is Some && r.unwrap()@ == s,
            None => r is None,
        },
{
    let ghost all = shape_view(shapes@);
    let mut i: usize = 0;
    assert(all.skip(0) =~= all);
    while i < shapes.len()
        invariant
            i <= shapes@.len(),
            all == shape_view(shapes@),
            shape_for(all, name@) == shape_for(all.skip(i as int), name@),
        decreases shapes@.len() - i,
    {
        assert(all.skip(i as int)[0] == shapes@[i as int]@);
        assert(all.skip(i as int).drop_first() =~= all.skip(i + 1));
        if shapes[i].name == *name {
            return Some(&shapes[i].shape);
        }
        i = i + 1;
    }
    assert(all.skip(i as int).len() == 0);
    None
}

} // verus!
