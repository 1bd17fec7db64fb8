//! What encoding and decoding owe each other.

use crate::de::{list_result, Deserializer};
use crate::error::Error;
use crate::format::{
    array_bytes, array_error, array_len, array_of, text_bytes, text_error, text_of, text_size,
};
use crate::nbt::{TAG_BYTE, TAG_COMPOUND, TAG_END, TAG_INT};
use crate::value::{
    body_result, elements_result, fields_error, fields_result, fields_written, first_misfit,
    fits, kind_of, list_body_result, list_error, list_of_bytes, mismatch_of, named_bytes, payload,
    payload_result, payloads_bytes, root_result, shape_for, shape_tag, tag_of, value_error,
    value_written, FieldShapeView, FieldView, Kind, ScalarView, ShapeView, ValueView,
};
use crate::wire::{
    be16, be32, lemma_be16_round_trip, lemma_be32_round_trip, lemma_be64_round_trip,
};
use vstd::prelude::*;
use vstd::utf8::{encode_utf8, encode_utf8_decode_utf8, encode_utf8_valid_utf8};

verus! {

/// A text whose length its 16-bit prefix can hold.
pub open spec fn short_text(text: Seq<char>) -> bool {
    encode_utf8(text).len() <= u16::MAX
}

/// A value that reaches the wire whole: one that the wire can carry, and
/// whose length, where it has one, its prefix can hold.
pub open spec fn sendable(v: ScalarView) -> bool {
    &&& fits(v)
    &&& v matches ScalarView::Str(s) ==> short_text(s)
    &&& v matches ScalarView::Bytes(b) ==> b.len() <= i32::MAX
}

/// Every element is a sendable value of type `k`.
pub open spec fn sendable_elements(k: Kind, elements: Seq<ScalarView>) -> bool {
    forall|i: int|
        0 <= i < elements.len() ==> sendable(#[trigger] elements[i]) && kind_of(elements[i]) == k
}

/// A list that reaches the wire whole: at least one element and no more
/// than a signed 32-bit count can hold, all sendable and of one type.
pub open spec fn sendable_list(elements: Seq<ScalarView>) -> bool {
    0 < elements.len() <= i32::MAX && sendable_elements(kind_of(elements[0]), elements)
}

/// A value that reaches the wire whole: every scalar in it is sendable,
/// every list in it is, and every field name in it is a short text.
pub open spec fn sendable_value(v: ValueView) -> bool
    decreases v, 0nat,
{
    match v {
        ValueView::Scalar(s) => sendable(s),
        ValueView::List(elements) => sendable_list(elements),
        ValueView::Record(fields) => sendable_fields(fields, 0),
    }
}

/// The fields from index `from` on reach the wire whole.
pub open spec fn sendable_fields(fields: Seq<FieldView>, from: int) -> bool
    decreases fields, fields.len() - from,
{
    from < 0 || from >= fields.len() || (short_text(fields[from].name) && sendable_value(
        fields[from].value,
    ) && sendable_fields(fields, from + 1))
}

/// `v` is a value of shape `s`: a scalar of that type, a list whose first
/// element is of that type, or a record each of whose fields is, by its
/// name, a value of the shape that `s` gives that name.
pub open spec fn conforms(v: ValueView, s: ShapeView) -> bool
    decreases v, 0nat,
{
    match v {
        ValueView::Scalar(x) => s == ShapeView::Scalar(kind_of(x)),
        ValueView::List(elements) => elements.len() > 0 && s == ShapeView::List(
            kind_of(elements[0]),
        ),
        ValueView::Record(fields) => s is Record && fields_conform(fields, 0, s->Record_0),
    }
}

/// The fields from index `from` on are, by their names, values of the
/// shapes that `shapes` gives those names.
pub open spec fn fields_conform(
    fields: Seq<FieldView>,
    from: int,
    shapes: Seq<FieldShapeView>,
) -> bool
    decreases fields, fields.len() - from,
{
    from < 0 || from >= fields.len() || (shape_for(shapes, fields[from].name) is Some && conforms(
        fields[from].value,
        shape_for(shapes, fields[from].name).unwrap(),
    ) && fields_conform(fields, from + 1, shapes))
}

/// The bytes of `v` behind its tag and name: the payload of a scalar; the
/// count and the payloads of a list; the fields of a record and the End tag.
pub open spec fn body_bytes(v: ValueView) -> Seq<u8> {
    match v {
        ValueView::Scalar(s) => payload(s),
        ValueView::List(elements) => be32(elements.len() as u32) + payloads_bytes(elements),
        ValueView::Record(fields) => fields_written(fields, 0) + seq![TAG_END],
    }
}

/// The tag under which `v` travels.
pub open spec fn value_tag_of(v: ValueView) -> u8 {
    match v {
        ValueView::Scalar(s) => tag_of(kind_of(s)),
        ValueView::List(elements) => tag_of(kind_of(elements[0])),
        ValueView::Record(_) => TAG_COMPOUND,
    }
}

/// A short text that was written is read back as it was, whatever follows it.
pub proof fn lemma_text_round_trip(text: Seq<char>, rest: Seq<u8>)
    requires
        short_text(text),
    ensures
        text_error(text_bytes(text) + rest) is None,
        text_of(text_bytes(text) + rest) == text,
        text_size(text_bytes(text) + rest) == text_bytes(text).len(),
        (text_bytes(text) + rest).skip(text_size(text_bytes(text) + rest)) == rest,
{
    let utf8 = encode_utf8(text);
    let len = (utf8.len() % 0x1_0000) as u16;
    let b = text_bytes(text) + rest;
    assert(len == utf8.len());
    lemma_be16_round_trip(len, utf8 + rest);
    assert(b =~= be16(len) + (utf8 + rest));
    assert(b.subrange(2, 2 + len) =~= utf8);
    encode_utf8_valid_utf8(text);
    encode_utf8_decode_utf8(text);
    assert(b.skip(2 + len) =~= rest);
}

/// A byte array whose count a signed 32-bit integer can hold is read back as
/// it was written, whatever follows it.
pub proof fn lemma_array_round_trip(bytes: Seq<u8>, rest: Seq<u8>)
    requires
        bytes.len() <= i32::MAX,
    ensures
        array_error(array_bytes(bytes) + rest) is None,
        array_of(array_bytes(bytes) + rest) == bytes,
        4 + array_len(array_bytes(bytes) + rest) == array_bytes(bytes).len(),
{
    let n = (bytes.len() % 0x1_0000_0000) as u32;
    let b = array_bytes(bytes) + rest;
    assert(n == bytes.len());
    lemma_be32_round_trip(n, bytes + rest);
    assert(b =~= be32(n) + (bytes + rest));
    assert(n <= 0x7fff_ffff ==> (n as i32) as u32 == n && n as i32 >= 0) by (bit_vector);
    assert(b.subrange(4, 4 + n) =~= bytes);
}

/// A sendable value that was written is read back as it was, as a value of
/// its own type, whatever follows it.
pub proof fn lemma_payload_round_trip(v: ScalarView, rest: Seq<u8>)
    requires
        sendable(v),
    ensures
        payload_result(kind_of(v), payload(v) + rest) == Ok::<(ScalarView, int), Error>(
            (v, payload(v).len() as int),
        ),
{
    let b = payload(v) + rest;
    match v {
        ScalarView::Bool(x) => {
            assert(b[0] == payload(v)[0]);
        },
        ScalarView::I8(x) => {
            assert(b[0] == payload(v)[0]);
            assert((x as u8) as i8 == x) by (bit_vector);
        },
        ScalarView::U8(x) => {
            assert(b[0] == payload(v)[0]);
        },
        ScalarView::I16(x) => {
            lemma_be16_round_trip(x as u16, rest);
            assert((x as u16) as i16 == x) by (bit_vector);
        },
        ScalarView::I32(x) => {
            lemma_be32_round_trip(x as u32, rest);
            assert((x as u32) as i32 == x) by (bit_vector);
        },
        ScalarView::I64(x) => {
            lemma_be64_round_trip(x as u64, rest);
            assert((x as u64) as i64 == x) by (bit_vector);
        },
        ScalarView::U16(x) => {
            let w = x as i32;
            lemma_be32_round_trip(w as u32, rest);
            assert((w as u32) as i32 == w) by (bit_vector);
        },
        ScalarView::U32(x) => {
            let w = x as i64;
            lemma_be64_round_trip(w as u64, rest);
            assert((w as u64) as i64 == w) by (bit_vector);
        },
        ScalarView::U64(x) => {
            let w = x as i64;
            lemma_be64_round_trip(w as u64, rest);
            assert((w as u64) as i64 == w) by (bit_vector);
        },
        ScalarView::F32(x) => {
            lemma_be32_round_trip(x, rest);
        },
        ScalarView::F64(x) => {
            lemma_be64_round_trip(x, rest);
        },
        ScalarView::Str(s) => {
            lemma_text_round_trip(s, rest);
        },
        ScalarView::Bytes(a) => {
            lemma_array_round_trip(a, rest);
        },
    }
}

/// One field read at the front of `b`, then the fields behind it.
proof fn lemma_field_unfold(
    b: Seq<u8>,
    shapes: Seq<FieldShapeView>,
    s: ShapeView,
    v: ValueView,
    then: Seq<u8>,
    fs: Seq<FieldView>,
    rest: Seq<u8>,
)
    requires
        b.len() > 0,
        b[0] != TAG_END,
        b[0] == shape_tag(s),
        text_error(b.skip(1)) is None,
        shape_for(shapes, text_of(b.skip(1))) == Some(s),
        body_result(s, b.skip(1).skip(text_size(b.skip(1)))) == Ok::<(ValueView, Seq<u8>), Error>(
            (v, then),
        ),
        then.len() < b.len(),
        fields_result(then, shapes) == Ok::<(Seq<FieldView>, Seq<u8>), Error>((fs, rest)),
    ensures
        fields_result(b, shapes) == Ok::<(Seq<FieldView>, Seq<u8>), Error>(
            (seq![FieldView { name: text_of(b.skip(1)), value: v }] + fs, rest),
        ),
{
}

/// How a value under a name, and what follows it, falls apart.
proof fn lemma_head_split(tag: u8, name: Seq<u8>, pay: Seq<u8>, after: Seq<u8>)
    ensures
        (seq![tag] + name + pay + after).len() > 0,
        (seq![tag] + name + pay + after)[0] == tag,
        (seq![tag] + name + pay + after).skip(1) == name + (pay + after),
{
    let b = seq![tag] + name + pay + after;
    assert(b.skip(1) =~= name + (pay + after));
}

/// Every element of a sendable list can join it.
pub proof fn lemma_sendable_list_joins(elements: Seq<ScalarView>, from: int)
    requires
        sendable_list(elements),
        0 <= from,
    ensures
        first_misfit(elements, from) is None,
    decreases elements.len() - from,
{
    if from < elements.len() {
        lemma_sendable_list_joins(elements, from + 1);
    }
}

/// What encoding a sendable value writes is the value on the wire: its tag,
/// its name, and its bytes behind them. And it can be encoded.
pub proof fn lemma_sendable_written(name: Seq<char>, v: ValueView)
    requires
        sendable_value(v),
    ensures
        value_error(v) is None,
        value_written(name, v) == seq![value_tag_of(v)] + text_bytes(name) + body_bytes(v),
    decreases v, 0nat,
{
    match v {
        ValueView::Scalar(s) => {},
        ValueView::List(elements) => {
            lemma_sendable_list_joins(elements, 0);
            assert(value_written(name, v) =~= seq![value_tag_of(v)] + text_bytes(name)
                + body_bytes(v));
        },
        ValueView::Record(fields) => {
            lemma_sendable_fields_fit(fields, 0);
        },
    }
}

/// Sendable fields can be encoded.
pub proof fn lemma_sendable_fields_fit(fields: Seq<FieldView>, from: int)
    requires
        sendable_fields(fields, from),
    ensures
        fields_error(fields, from) is None,
    decreases fields, fields.len() - from,
{
    if 0 <= from < fields.len() {
        lemma_sendable_written(fields[from].name, fields[from].value);
        lemma_sendable_fields_fit(fields, from + 1);
    }
}

/// A sendable field that was written is read back as it was, in front of
/// the fields that are read behind it.
proof fn lemma_field_round_trip(
    f: FieldView,
    s: ShapeView,
    shapes: Seq<FieldShapeView>,
    after: Seq<u8>,
    fs: Seq<FieldView>,
    rest: Seq<u8>,
)
    requires
        short_text(f.name),
        sendable_value(f.value),
        shape_for(shapes, f.name) == Some(s),
        shape_tag(s) == value_tag_of(f.value),
        body_result(s, body_bytes(f.value) + after) == Ok::<(ValueView, Seq<u8>), Error>(
            (f.value, after),
        ),
        fields_result(after, shapes) == Ok::<(Seq<FieldView>, Seq<u8>), Error>((fs, rest)),
    ensures
        fields_result(value_written(f.name, f.value) + after, shapes) == Ok::<
            (Seq<FieldView>, Seq<u8>),
            Error,
        >((seq![f] + fs, rest)),
{
    let b = value_written(f.name, f.value) + after;
    let body = body_bytes(f.value) + after;
    lemma_sendable_written(f.name, f.value);
    lemma_head_split(value_tag_of(f.value), text_bytes(f.name), body_bytes(f.value), after);
    lemma_text_round_trip(f.name, body);
    assert(b.skip(1).skip(text_size(b.skip(1))) == body);
    assert(after.len() < b.len());
    lemma_field_unfold(b, shapes, s, f.value, after, fs, rest);
}

/// The bytes of a record without fields: the End tag is read, and what
/// follows it is left.
proof fn lemma_no_fields(shapes: Seq<FieldShapeView>, rest: Seq<u8>)
    ensures
        fields_result(seq![TAG_END] + rest, shapes) == Ok::<(Seq<FieldView>, Seq<u8>), Error>(
            (Seq::<FieldView>::empty(), rest),
        ),
{
    let b = seq![TAG_END] + rest;
    assert(b[0] == TAG_END);
    assert(b.skip(1) =~= rest);
}

/// The bytes of a record's fields from `from` on and what follows them,
/// the field at `from` apart.
proof fn lemma_fields_written_split(fields: Seq<FieldView>, from: int, rest: Seq<u8>)
    requires
        0 <= from <= fields.len(),
        fields_error(fields, from) is None,
    ensures
        from == fields.len() ==> fields_written(fields, from) + seq![TAG_END] + rest == seq![
            TAG_END,
        ] + rest,
        from < fields.len() ==> fields_written(fields, from) + seq![TAG_END] + rest
            == value_written(fields[from].name, fields[from].value) + (fields_written(
            fields,
            from + 1,
        ) + seq![TAG_END] + rest),
{
    if from == fields.len() {
        assert(fields_written(fields, from) + seq![TAG_END] + rest =~= seq![TAG_END] + rest);
    } else {
        assert(fields_written(fields, from) + seq![TAG_END] + rest =~= value_written(
            fields[from].name,
            fields[from].value,
        ) + (fields_written(fields, from + 1) + seq![TAG_END] + rest));
    }
}

/// The payloads of a list, first element apart.
proof fn lemma_payloads_split(elements: Seq<ScalarView>)
    requires
        elements.len() > 0,
    ensures
        payloads_bytes(elements) == payload(elements[0]) + payloads_bytes(elements.drop_first()),
    decreases elements.len(),
{
    let front = elements.drop_last();
    let tail = elements.drop_first();
    if elements.len() == 1 {
        assert(payloads_bytes(front) =~= Seq::<u8>::empty());
        assert(payloads_bytes(tail) =~= Seq::<u8>::empty());
        assert(payloads_bytes(elements) =~= payload(elements[0]) + payloads_bytes(tail));
    } else {
        lemma_payloads_split(front);
        assert(front.drop_first() =~= tail.drop_last());
        assert(front[0] == elements[0]);
        assert(tail.last() == elements.last());
        assert(payloads_bytes(elements) =~= payload(elements[0]) + payloads_bytes(tail));
    }
}

/// The payloads of sendable elements of one type are read back as they were.
pub proof fn lemma_elements_round_trip(k: Kind, elements: Seq<ScalarView>, rest: Seq<u8>)
    requires
        sendable_elements(k, elements),
    ensures
        elements_result(k, payloads_bytes(elements) + rest, elements.len() as int) == Ok::<
            (Seq<ScalarView>, Seq<u8>),
            Error,
        >((elements, rest)),
    decreases elements.len(),
{
    let b = payloads_bytes(elements) + rest;
    if elements.len() == 0 {
        assert(b =~= rest);
        assert(elements =~= Seq::<ScalarView>::empty());
    } else {
        let tail = elements.drop_first();
        let after = payloads_bytes(tail) + rest;
        let size = payload(elements[0]).len() as int;
        assert forall|i: int| 0 <= i < tail.len() implies sendable(#[trigger] tail[i]) && kind_of(
            tail[i],
        ) == k by {
            assert(tail[i] == elements[i + 1]);
        }
        lemma_payloads_split(elements);
        lemma_elements_round_trip(k, tail, rest);
        lemma_payload_round_trip(elements[0], after);
        assert(b =~= payload(elements[0]) + after);
        assert(b.skip(size) =~= after);
        assert(seq![elements[0]] + tail =~= elements);
    }
}

/// The count and the payloads of a sendable list are read back as the list
/// that was written, and what follows them is left.
pub proof fn lemma_list_body_round_trip(elements: Seq<ScalarView>, rest: Seq<u8>)
    requires
        sendable_list(elements),
    ensures
        list_body_result(
            kind_of(elements[0]),
            be32(elements.len() as u32) + payloads_bytes(elements) + rest,
        ) == Ok::<(Seq<ScalarView>, Seq<u8>), Error>((elements, rest)),
{
    let k = kind_of(elements[0]);
    let n = elements.len() as u32;
    let body = be32(n) + payloads_bytes(elements) + rest;
    lemma_be32_round_trip(n, payloads_bytes(elements) + rest);
    assert(body =~= be32(n) + (payloads_bytes(elements) + rest));
    assert(n <= 0x7fff_ffff ==> (n as i32) as u32 == n && n as i32 >= 0) by (bit_vector);
    assert(body.skip(4) =~= payloads_bytes(elements) + rest);
    lemma_elements_round_trip(k, elements, rest);
}

/// A sendable value of shape `s`: its bytes behind tag and name are read
/// back, as a value of that shape, as the value that was written, and what
/// follows them is left. And its tag is the tag of the shape.
pub proof fn lemma_body_round_trip(v: ValueView, s: ShapeView, rest: Seq<u8>)
    requires
        sendable_value(v),
        conforms(v, s),
    ensures
        shape_tag(s) == value_tag_of(v),
        body_result(s, body_bytes(v) + rest) == Ok::<(ValueView, Seq<u8>), Error>((v, rest)),
    decreases v, 0nat,
{
    match v {
        ValueView::Scalar(x) => {
            lemma_payload_round_trip(x, rest);
            assert((payload(x) + rest).skip(payload(x).len() as int) =~= rest);
        },
        ValueView::List(elements) => {
            lemma_list_body_round_trip(elements, rest);
        },
        ValueView::Record(fields) => {
            lemma_fields_round_trip(fields, 0, s->Record_0, rest);
            assert(fields.skip(0) =~= fields);
            assert(body_bytes(v) + rest =~= fields_written(fields, 0) + seq![TAG_END] + rest);
        },
    }
}

/// The sendable fields of a record from `from` on, written one behind the
/// other and closed by the End tag, are read back as they were, by the
/// shapes that `shapes` gives their names, and what follows the End tag is
/// left.
pub proof fn lemma_fields_round_trip(
    fields: Seq<FieldView>,
    from: int,
    shapes: Seq<FieldShapeView>,
    rest: Seq<u8>,
)
    requires
        0 <= from <= fields.len(),
        sendable_fields(fields, from),
        fields_conform(fields, from, shapes),
    ensures
        fields_result(fields_written(fields, from) + seq![TAG_END] + rest, shapes) == Ok::<
            (Seq<FieldView>, Seq<u8>),
            Error,
        >((fields.skip(from), rest)),
    decreases fields, fields.len() - from,
{
    lemma_sendable_fields_fit(fields, from);
    lemma_fields_written_split(fields, from, rest);
    if from == fields.len() {
        lemma_no_fields(shapes, rest);
        assert(fields.skip(from) =~= Seq::<FieldView>::empty());
    } else {
        let f = fields[from];
        let s = shape_for(shapes, f.name).unwrap();
        let after = fields_written(fields, from + 1) + seq![TAG_END] + rest;
        lemma_fields_round_trip(fields, from + 1, shapes, rest);
        lemma_body_round_trip(f.value, s, after);
        lemma_field_round_trip(f, s, shapes, after, fields.skip(from + 1), rest);
        assert(seq![f] + fields.skip(from + 1) =~= fields.skip(from));
    }
}

/// A sendable value read back: its root name and the value.
proof fn lemma_root_round_trip(name: Seq<char>, v: ValueView, s: ShapeView, rest: Seq<u8>)
    requires
        short_text(name),
        sendable_value(v),
        conforms(v, s),
    ensures
        root_result(value_written(name, v) + rest, s) == Ok::<(Seq<char>, ValueView), Error>(
            (name, v),
        ),
{
    let body = body_bytes(v) + rest;
    lemma_sendable_written(name, v);
    lemma_head_split(value_tag_of(v), text_bytes(name), body_bytes(v), rest);
    lemma_text_round_trip(name, body);
    lemma_body_round_trip(v, s, rest);
}

/// Round trip: a sendable value, encoded under a root name that is a short
/// text and decoded as the shape it has, comes back as it was, whatever
/// follows it on the wire.
pub proof fn lemma_round_trip(name: Seq<char>, v: ValueView, s: ShapeView, rest: Seq<u8>)
    requires
        short_text(name),
        sendable_value(v),
        conforms(v, s),
    ensures
        root_result(value_written(name, v) + rest, s) matches Ok((_, decoded)) && decoded == v,
{
    lemma_root_round_trip(name, v, s, rest);
}

/// Name fidelity: the root name under which a sendable value was encoded,
/// where it is a short text, is the root name that decoding returns.
pub proof fn lemma_name_fidelity(name: Seq<char>, v: ValueView, s: ShapeView, rest: Seq<u8>)
    requires
        short_text(name),
        sendable_value(v),
        conforms(v, s),
    ensures
        root_result(value_written(name, v) + rest, s) matches Ok((decoded, _)) && decoded == name,
{
    lemma_root_round_trip(name, v, s, rest);
}

/// What the encoder wrote for one sendable value under a short name, a
/// decoder in front of it reads back: the head is taken as one of the
/// value's type, the name is the one written, and the payload gives the
/// value and leaves what follows it.
pub proof fn lemma_scalar_round_trip(d: Deserializer, name: Seq<char>, v: ScalarView, rest: Seq<u8>)
    requires
        short_text(name),
        sendable(v),
        d.is_idle_at(named_bytes(name, v) + rest),
    ensures
        d.head_error(tag_of(kind_of(v)), mismatch_of(kind_of(v))) is None,
        d.next_name() == name,
        payload_result(kind_of(v), d.after_name()) == Ok::<(ScalarView, int), Error>(
            (v, payload(v).len() as int),
        ),
        d.after_name().skip(payload(v).len() as int) == rest,
{
    let body = payload(v) + rest;
    assert(named_bytes(name, v) + rest =~= seq![tag_of(kind_of(v))] + text_bytes(name) + payload(v)
        + rest);
    lemma_head_split(tag_of(kind_of(v)), text_bytes(name), payload(v), rest);
    lemma_text_round_trip(name, body);
    lemma_payload_round_trip(v, rest);
    assert(body.skip(payload(v).len() as int) =~= rest);
}

/// A sendable list under a short name is read back as it was written: a
/// decoder in front of it takes its head as a list of its type, and its
/// count and payloads give the values.
pub proof fn lemma_list_round_trip(
    d: Deserializer,
    name: Seq<char>,
    elements: Seq<ScalarView>,
    rest: Seq<u8>,
)
    requires
        short_text(name),
        sendable_list(elements),
        d.is_idle_at(list_of_bytes(name, elements) + rest),
    ensures
        list_result(
            kind_of(elements[0]),
            d.head_error(tag_of(kind_of(elements[0])), mismatch_of(kind_of(elements[0]))),
            d.after_name(),
        ) == Ok::<(Seq<ScalarView>, Seq<u8>), Error>((elements, rest)),
{
    let k = kind_of(elements[0]);
    let pay = be32(elements.len() as u32) + payloads_bytes(elements);
    let body = pay + rest;
    assert(list_of_bytes(name, elements) + rest =~= seq![tag_of(k)] + text_bytes(name) + pay
        + rest);
    lemma_head_split(tag_of(k), text_bytes(name), pay, rest);
    lemma_text_round_trip(name, body);
    lemma_list_body_round_trip(elements, rest);
}

/// List homogeneity: where the second element of a sequence travels under
/// another tag than the first, the second is the first that cannot join the
/// list, encoding the sequence fails with `IncompatibleListType`, and
/// nothing is written for it.
pub proof fn lemma_list_homogeneity(elements: Seq<ScalarView>)
    requires
        elements.len() >= 2,
        fits(elements[0]),
        fits(elements[1]),
        tag_of(kind_of(elements[1])) != tag_of(kind_of(elements[0])),
    ensures
        first_misfit(elements, 0) == Some(1int),
        list_error(elements) == Some(Error::IncompatibleListType),
        value_error(ValueView::List(elements)) == Some(Error::IncompatibleListType),
        forall|name: Seq<char>|
            value_written(name, ValueView::List(elements)) == Seq::<u8>::empty(),
{
    assert(first_misfit(elements, 1) == Some(1int));
}

/// Tag mismatch: a decoder in front of a Byte refuses to take it for an Int,
/// with `ExpectedInt`.
pub proof fn lemma_byte_is_no_int(d: Deserializer)
    requires
        d.tag_error() is None,
        d.next_tag() == TAG_BYTE,
    ensures
        d.head_error(TAG_INT, Error::ExpectedInt) == Some(Error::ExpectedInt),
{
}

/// Tag mismatch in a record: a field that arrives under the Byte tag, and
/// that `shape` takes for a 32-bit integer, fails with `ExpectedInt`.
pub proof fn lemma_byte_field_is_no_int(b: Seq<u8>, shape: Seq<FieldShapeView>)
    requires
        b.len() > 0,
        b[0] == TAG_BYTE,
        text_error(b.skip(1)) is None,
        shape_for(shape, text_of(b.skip(1))) == Some(ShapeView::Scalar(Kind::I32)),
    ensures
        fields_result(b, shape) == Err::<(Seq<FieldView>, Seq<u8>), Error>(Error::ExpectedInt),
{
}

} // verus!
