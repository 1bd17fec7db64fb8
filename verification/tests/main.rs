use serde_nbt::{
    from_bytes, from_reader_named, to_writer, ByteReader, Error, Field, FieldShape, Kind, Scalar,
    Shape, Value,
};

fn field(name: &str, value: Scalar) -> Field {
    Field { name: name.to_string(), value: Value::Scalar(value) }
}

fn slot(name: &str, kind: Kind) -> FieldShape {
    FieldShape { name: name.to_string(), shape: Shape::Scalar(kind) }
}

fn simple() -> Value {
    Value::Record(vec![field("a", Scalar::I32(1)), field("b", Scalar::Str("hello".to_string()))])
}

fn simple_shape() -> Shape {
    Shape::Record(vec![slot("a", Kind::I32), slot("b", Kind::Str)])
}

fn test_back_and_forth(value: Value, shape: Shape) {
    let mut output = Vec::new();
    to_writer(&mut output, &value, "TestStruct".to_string()).unwrap();
    let expected = from_bytes(&output, &shape).unwrap();

    assert_eq!(expected, value);
}

#[test]
fn try_simple_struct() {
    let simple = simple();
    let mut output = Vec::new();
    to_writer(&mut output, &simple, "TestStruct".to_string()).unwrap();

    println!("{:?}", output);

    let expected = from_bytes(&output, &simple_shape()).unwrap();

    assert_eq!(expected, simple);
}

#[test]
fn simple_struct_bytes_are_exact() {
    let mut output = Vec::new();
    to_writer(&mut output, &simple(), "test".to_string()).unwrap();
    let expected: Vec<u8> = vec![
        10, 0, 4, b't', b'e', b's', b't', 3, 0, 1, b'a', 0, 0, 0, 1, 8, 0, 1, b'b', 0, 5, b'h',
        b'e', b'l', b'l', b'o', 0,
    ];
    assert_eq!(output, expected);
    assert_eq!(from_bytes(&expected, &simple_shape()).unwrap(), simple());
}

#[test]
fn empty_record_is_head_and_end() {
    let mut output = Vec::new();
    to_writer(&mut output, &Value::Record(Vec::new()), "test".to_string()).unwrap();
    assert_eq!(output, vec![10u8, 0, 4, b't', b'e', b's', b't', 0]);
    assert_eq!(output.len(), 1 + 2 + "test".len() + 1);
    assert_eq!(
        from_bytes(&output, &Shape::Record(Vec::new())).unwrap(),
        Value::Record(Vec::new())
    );
}

#[test]
fn root_name_comes_back() {
    let mut output = Vec::new();
    to_writer(&mut output, &simple(), "TestStruct".to_string()).unwrap();
    let (name, value) = from_reader_named(ByteReader::new(output), &simple_shape()).unwrap();
    assert_eq!(name, "TestStruct");
    assert_eq!(value, simple());
}

#[test]
fn a_scalar_can_be_the_root() {
    let mut output = Vec::new();
    to_writer(&mut output, &Value::Scalar(Scalar::I16(-2)), "n".to_string()).unwrap();
    assert_eq!(output, vec![2u8, 0, 1, b'n', 0xff, 0xfe]);
    let (name, value) =
        from_reader_named(ByteReader::new(output), &Shape::Scalar(Kind::I16)).unwrap();
    assert_eq!(name, "n");
    assert_eq!(value, Value::Scalar(Scalar::I16(-2)));
}

#[test]
fn every_kind_goes_back_and_forth() {
    let value = Value::Record(vec![
        field("flag", Scalar::Bool(true)),
        field("off", Scalar::Bool(false)),
        field("i8", Scalar::I8(-3)),
        field("i16", Scalar::I16(-300)),
        field("i32", Scalar::I32(-70000)),
        field("i64", Scalar::I64(i64::MIN)),
        field("u8", Scalar::U8(200)),
        field("u16", Scalar::U16(65535)),
        field("u32", Scalar::U32(u32::MAX)),
        field("u64", Scalar::U64(i64::MAX as u64)),
        field("f32", Scalar::F32(1.5f32.to_bits())),
        field("f64", Scalar::F64((-0.25f64).to_bits())),
        field("text", Scalar::Str("h\u{e9}llo \u{4e16}".to_string())),
        field("raw", Scalar::Bytes(vec![0, 255, 7])),
        field("", Scalar::Str(String::new())),
    ]);
    let shape = Shape::Record(vec![
        slot("flag", Kind::Bool),
        slot("off", Kind::Bool),
        slot("i8", Kind::I8),
        slot("i16", Kind::I16),
        slot("i32", Kind::I32),
        slot("i64", Kind::I64),
        slot("u8", Kind::U8),
        slot("u16", Kind::U16),
        slot("u32", Kind::U32),
        slot("u64", Kind::U64),
        slot("f32", Kind::F32),
        slot("f64", Kind::F64),
        slot("text", Kind::Str),
        slot("raw", Kind::Bytes),
        slot("", Kind::Str),
    ]);
    test_back_and_forth(value, shape);
}

#[test]
fn nested_records_go_back_and_forth() {
    let value = Value::Record(vec![
        field("id", Scalar::I64(7)),
        Field {
            name: "pos".to_string(),
            value: Value::Record(vec![
                field("x", Scalar::I32(1)),
                Field { name: "deep".to_string(), value: Value::Record(Vec::new()) },
                field("y", Scalar::I32(-1)),
            ]),
        },
        field("tail", Scalar::U8(9)),
    ]);
    let shape = Shape::Record(vec![
        slot("id", Kind::I64),
        FieldShape {
            name: "pos".to_string(),
            shape: Shape::Record(vec![
                slot("x", Kind::I32),
                slot("y", Kind::I32),
                FieldShape { name: "deep".to_string(), shape: Shape::Record(Vec::new()) },
            ]),
        },
        slot("tail", Kind::U8),
    ]);
    let mut output = Vec::new();
    to_writer(&mut output, &value, "r".to_string()).unwrap();
    assert_eq!(
        output,
        vec![
            10u8, 0, 1, b'r', 4, 0, 2, b'i', b'd', 0, 0, 0, 0, 0, 0, 0, 7, 10, 0, 3, b'p', b'o',
            b's', 3, 0, 1, b'x', 0, 0, 0, 1, 10, 0, 4, b'd', b'e', b'e', b'p', 0, 3, 0, 1, b'y',
            255, 255, 255, 255, 0, 1, 0, 4, b't', b'a', b'i', b'l', 9, 0
        ]
    );
    assert_eq!(from_bytes(&output, &shape).unwrap(), value);
}

#[test]
fn a_scalar_where_a_record_is_expected_fails() {
    let shape = Shape::Record(vec![FieldShape {
        name: "a".to_string(),
        shape: Shape::Record(Vec::new()),
    }]);
    let mut output = Vec::new();
    to_writer(&mut output, &simple(), "r".to_string()).unwrap();
    assert_eq!(from_bytes(&output, &shape), Err(Error::ExpectedCompound));
}

#[test]
fn fields_come_back_in_wire_order() {
    let shape = Shape::Record(vec![slot("b", Kind::Str), slot("a", Kind::I32)]);
    test_back_and_forth(simple(), shape);
}

#[test]
fn an_absent_field_is_tolerated() {
    let shape =
        Shape::Record(vec![slot("a", Kind::I32), slot("gone", Kind::I64), slot("b", Kind::Str)]);
    test_back_and_forth(simple(), shape);
}

#[test]
fn bytes_behind_the_record_are_ignored() {
    let mut output = Vec::new();
    to_writer(&mut output, &simple(), "r".to_string()).unwrap();
    output.extend_from_slice(&[9, 9, 9]);
    assert_eq!(from_bytes(&output, &simple_shape()).unwrap(), simple());
}

#[test]
fn to_writer_appends_behind_what_is_there() {
    let mut output = vec![42u8];
    to_writer(&mut output, &Value::Record(Vec::new()), "".to_string()).unwrap();
    assert_eq!(output, vec![42u8, 10, 0, 0, 0]);
}

#[test]
fn lists_in_records_go_back_and_forth() {
    let value = Value::Record(vec![
        field("n", Scalar::U8(1)),
        Field {
            name: "xs".to_string(),
            value: Value::List(vec![Scalar::I32(1), Scalar::I32(2), Scalar::I32(-3)]),
        },
        Field {
            name: "names".to_string(),
            value: Value::List(vec![Scalar::Str("a".to_string()), Scalar::Str("bc".to_string())]),
        },
        field("m", Scalar::U8(2)),
    ]);
    let shape = Shape::Record(vec![
        slot("n", Kind::U8),
        FieldShape { name: "xs".to_string(), shape: Shape::List(Kind::I32) },
        FieldShape { name: "names".to_string(), shape: Shape::List(Kind::Str) },
        slot("m", Kind::U8),
    ]);
    let mut output = Vec::new();
    to_writer(&mut output, &value, "r".to_string()).unwrap();
    assert_eq!(
        output,
        vec![
            10u8, 0, 1, b'r', 1, 0, 1, b'n', 1, 3, 0, 2, b'x', b's', 0, 0, 0, 3, 0, 0, 0, 1, 0, 0,
            0, 2, 255, 255, 255, 253, 8, 0, 5, b'n', b'a', b'm', b'e', b's', 0, 0, 0, 2, 0, 1,
            b'a', 0, 2, b'b', b'c', 1, 0, 1, b'm', 2, 0
        ]
    );
    assert_eq!(from_bytes(&output, &shape).unwrap(), value);
}

#[test]
fn a_list_of_two_tags_in_a_record_is_rejected() {
    let value = Value::Record(vec![
        field("n", Scalar::U8(1)),
        Field {
            name: "xs".to_string(),
            value: Value::List(vec![Scalar::I32(1), Scalar::I16(2), Scalar::I32(3)]),
        },
        field("m", Scalar::U8(2)),
    ]);
    let mut output = Vec::new();
    assert_eq!(
        to_writer(&mut output, &value, "r".to_string()),
        Err(Error::IncompatibleListType)
    );
    assert_eq!(output, vec![10u8, 0, 1, b'r', 1, 0, 1, b'n', 1]);
}

#[test]
fn an_empty_list_is_left_out() {
    let value = Value::Record(vec![
        Field { name: "xs".to_string(), value: Value::List(Vec::new()) },
        field("m", Scalar::U8(2)),
    ]);
    let shape = Shape::Record(vec![
        FieldShape { name: "xs".to_string(), shape: Shape::List(Kind::I32) },
        slot("m", Kind::U8),
    ]);
    let mut output = Vec::new();
    to_writer(&mut output, &value, "r".to_string()).unwrap();
    assert_eq!(output, vec![10u8, 0, 1, b'r', 1, 0, 1, b'm', 2, 0]);
    assert_eq!(
        from_bytes(&output, &shape).unwrap(),
        Value::Record(vec![field("m", Scalar::U8(2))])
    );
}
