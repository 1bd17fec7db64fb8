use serde_nbt::{
    from_bytes, from_reader, read_name, ByteReader, Deserializer, Error, Field, FieldShape, Kind,
    Scalar, Serializer, Shape, Value,
};

fn one(name: &str, kind: Kind) -> Shape {
    Shape::Record(vec![FieldShape { name: name.to_string(), shape: Shape::Scalar(kind) }])
}

fn over(bytes: Vec<u8>) -> Deserializer {
    Deserializer::from_reader(ByteReader::new(bytes))
}

#[test]
fn read_name_reads_length_then_text() {
    let mut r = ByteReader::new(vec![0, 2, b'h', b'i', 9]);
    assert_eq!(read_name(&mut r), Ok("hi".to_string()));
    assert_eq!(r.read_u8(), Ok(9));
    assert_eq!(r.read_u8(), Err(Error::IoError));
}

#[test]
fn read_name_reads_more_than_one_byte_per_char() {
    let mut r = ByteReader::new(vec![0, 2, 0xc3, 0xa9]);
    assert_eq!(read_name(&mut r), Ok("\u{e9}".to_string()));
}

#[test]
fn read_name_rejects_bad_utf8() {
    let mut r = ByteReader::new(vec![0, 2, 0xff, 0xfe]);
    assert_eq!(read_name(&mut r), Err(Error::Uft8Error));
}

#[test]
fn read_name_rejects_truncation() {
    let mut r = ByteReader::new(vec![0]);
    assert_eq!(read_name(&mut r), Err(Error::IoError));
    let mut r = ByteReader::new(vec![0, 3, b'a', b'b']);
    assert_eq!(read_name(&mut r), Err(Error::IoError));
}

#[test]
fn reader_reads_big_endian() {
    let mut r = ByteReader::new(vec![1, 2, 1, 2, 3, 4, 1, 2, 3, 4, 5, 6, 7, 8, 5, 6]);
    assert_eq!(r.read_u16(), Ok(0x0102));
    assert_eq!(r.read_u32(), Ok(0x01020304));
    assert_eq!(r.read_u64(), Ok(0x0102030405060708));
    assert_eq!(r.read_u32(), Err(Error::IoError));
    assert_eq!(r.read_bytes(3), Err(Error::IoError));
    assert_eq!(r.read_bytes(2), Ok(vec![5, 6]));
    assert_eq!(r.read_u16(), Err(Error::IoError));
    assert_eq!(r.read_u64(), Err(Error::IoError));
}

#[test]
fn tag_peek_is_idempotent() {
    let mut d = over(vec![3, 0, 1, b'a', 0, 0, 0, 5]);
    assert_eq!(d.get_last_tag(), Ok(3));
    assert_eq!(d.get_last_tag(), Ok(3));
    assert_eq!(d.get_last_name(), Ok("a".to_string()));
    assert_eq!(d.get_last_name(), Ok("a".to_string()));
    assert_eq!(d.deserialize_identifier(), Ok("a".to_string()));
    assert_eq!(d.deserialize_i32(), Ok(5));
    assert_eq!(d.get_last_tag(), Err(Error::IoError));
}

#[test]
fn skip_name_discards_the_pending_name() {
    let mut d = over(vec![0, 1, b'a', 0, 1, b'b']);
    assert_eq!(d.get_last_name(), Ok("a".to_string()));
    assert_eq!(d.skip_name(), Ok(()));
    assert_eq!(d.deserialize_identifier(), Err(Error::ExpectedIdentifier));
    assert_eq!(d.skip_name(), Ok(()));
    assert_eq!(d.skip_name(), Err(Error::IoError));
}

#[test]
fn identifier_needs_a_pending_name() {
    let d = over(vec![3, 0, 1, b'a']);
    assert_eq!(d.deserialize_identifier(), Err(Error::ExpectedIdentifier));
}

#[test]
fn byte_tag_read_as_int_fails() {
    let mut s = Serializer::new("a".to_string(), Vec::new());
    s.serialize_u8(7).unwrap();
    let mut d = over(s.into_writer());
    assert_eq!(d.deserialize_i32(), Err(Error::ExpectedInt));
}

#[test]
fn byte_field_read_as_int_fails() {
    let bytes = vec![10u8, 0, 0, 1, 0, 1, b'a', 7, 0];
    let shape = one("a", Kind::I32);
    assert_eq!(from_bytes(&bytes, &shape), Err(Error::ExpectedInt));
}

#[test]
fn each_type_names_its_own_mismatch() {
    let int = vec![3u8, 0, 0, 0, 0, 0, 1];
    let byte = vec![1u8, 0, 0, 1];
    assert_eq!(over(int.clone()).deserialize_bool(), Err(Error::ExpectedByte));
    assert_eq!(over(int.clone()).deserialize_i8(), Err(Error::ExpectedByte));
    assert_eq!(over(int.clone()).deserialize_u8(), Err(Error::ExpectedByte));
    assert_eq!(over(int.clone()).deserialize_i16(), Err(Error::ExpectedShort));
    assert_eq!(over(byte.clone()).deserialize_i32(), Err(Error::ExpectedInt));
    assert_eq!(over(byte.clone()).deserialize_u16(), Err(Error::ExpectedInt));
    assert_eq!(over(int.clone()).deserialize_i64(), Err(Error::ExpectedLong));
    assert_eq!(over(int.clone()).deserialize_u32(), Err(Error::ExpectedLong));
    assert_eq!(over(int.clone()).deserialize_u64(), Err(Error::ExpectedLong));
    assert_eq!(over(int.clone()).deserialize_f32(), Err(Error::ExpectedFloat));
    assert_eq!(over(int.clone()).deserialize_f64(), Err(Error::ExpectedDouble));
    assert_eq!(over(int.clone()).deserialize_str(), Err(Error::ExpectedString));
    assert_eq!(over(int.clone()).deserialize_bytes(), Err(Error::ExpectedByteArray));
    assert_eq!(over(int.clone()).deserialize_struct(), Err(Error::ExpectedCompound));
    assert_eq!(over(int).deserialize_root(), Err(Error::ExpectedCompound));
}

#[test]
fn scalars_are_read_big_endian() {
    assert_eq!(over(vec![1, 0, 0, 1]).deserialize_bool(), Ok(true));
    assert_eq!(over(vec![1, 0, 0, 0]).deserialize_bool(), Ok(false));
    assert_eq!(over(vec![1, 0, 0, 2]).deserialize_bool(), Ok(false));
    assert_eq!(over(vec![1, 0, 0, 0xfe]).deserialize_i8(), Ok(-2));
    assert_eq!(over(vec![1, 0, 0, 0xfe]).deserialize_u8(), Ok(254));
    assert_eq!(over(vec![2, 0, 0, 0xff, 0xfe]).deserialize_i16(), Ok(-2));
    assert_eq!(over(vec![2, 0, 0, 1, 2]).deserialize_i16(), Ok(0x0102));
    assert_eq!(over(vec![3, 0, 0, 1, 2, 3, 4]).deserialize_i32(), Ok(0x01020304));
    assert_eq!(over(vec![3, 0, 0, 255, 255, 255, 255]).deserialize_i32(), Ok(-1));
    assert_eq!(
        over(vec![4, 0, 0, 1, 2, 3, 4, 5, 6, 7, 8]).deserialize_i64(),
        Ok(0x0102030405060708)
    );
    assert_eq!(over(vec![5, 0, 0, 0x3f, 0x80, 0, 0]).deserialize_f32(), Ok(1.0f32.to_bits()));
    assert_eq!(
        over(vec![6, 0, 0, 0x3f, 0xf0, 0, 0, 0, 0, 0, 0]).deserialize_f64(),
        Ok(1.0f64.to_bits())
    );
    assert_eq!(over(vec![8, 0, 0, 0, 2, b'h', b'i']).deserialize_str(), Ok("hi".to_string()));
    assert_eq!(over(vec![7, 0, 0, 0, 0, 0, 2, 8, 9]).deserialize_bytes(), Ok(vec![8, 9]));
}

#[test]
fn unsigned_integers_are_narrowed() {
    assert_eq!(over(vec![3, 0, 0, 0, 0, 0xff, 0xff]).deserialize_u16(), Ok(65535));
    assert_eq!(over(vec![3, 0, 0, 0, 1, 0, 0]).deserialize_u16(), Err(Error::IntError));
    assert_eq!(over(vec![3, 0, 0, 255, 255, 255, 255]).deserialize_u16(), Err(Error::IntError));
    assert_eq!(
        over(vec![4, 0, 0, 0, 0, 0, 0, 255, 255, 255, 255]).deserialize_u32(),
        Ok(u32::MAX)
    );
    assert_eq!(
        over(vec![4, 0, 0, 0, 0, 0, 1, 0, 0, 0, 0]).deserialize_u32(),
        Err(Error::IntError)
    );
    assert_eq!(
        over(vec![4, 0, 0, 0x7f, 255, 255, 255, 255, 255, 255, 255]).deserialize_u64(),
        Ok(i64::MAX as u64)
    );
    assert_eq!(
        over(vec![4, 0, 0, 0x80, 0, 0, 0, 0, 0, 0, 0]).deserialize_u64(),
        Err(Error::IntError)
    );
}

#[test]
fn truncated_payloads_fail() {
    assert_eq!(over(vec![]).deserialize_i32(), Err(Error::IoError));
    assert_eq!(over(vec![3]).deserialize_i32(), Err(Error::IoError));
    assert_eq!(over(vec![3, 0, 1]).deserialize_i32(), Err(Error::IoError));
    assert_eq!(over(vec![3, 0, 0, 1, 2, 3]).deserialize_i32(), Err(Error::IoError));
    assert_eq!(over(vec![1, 0, 0]).deserialize_bool(), Err(Error::IoError));
    assert_eq!(over(vec![8, 0, 0, 0, 3, b'h', b'i']).deserialize_str(), Err(Error::IoError));
    assert_eq!(over(vec![7, 0, 0, 0, 0, 0, 3, 8, 9]).deserialize_bytes(), Err(Error::IoError));
    assert_eq!(over(vec![7, 0, 0, 0, 0, 0]).deserialize_bytes(), Err(Error::IoError));
}

#[test]
fn bad_utf8_fails() {
    assert_eq!(over(vec![3, 0, 1, 0xff, 0, 0, 0, 1]).deserialize_i32(), Err(Error::Uft8Error));
    assert_eq!(over(vec![8, 0, 0, 0, 1, 0x80]).deserialize_str(), Err(Error::Uft8Error));
}

#[test]
fn negative_byte_count_fails() {
    assert_eq!(
        over(vec![7, 0, 0, 255, 255, 255, 255]).deserialize_bytes(),
        Err(Error::IntError)
    );
}

#[test]
fn next_key_walks_a_record() {
    let mut d = over(vec![10, 0, 1, b'r', 1, 0, 1, b'x', 3, 2, 0, 1, b'y', 0, 4, 0, 9]);
    assert_eq!(d.deserialize_struct(), Ok(()));
    assert_eq!(d.next_key(), Ok(Some("x".to_string())));
    assert_eq!(d.deserialize_identifier(), Ok("x".to_string()));
    assert_eq!(d.deserialize_u8(), Ok(3));
    assert_eq!(d.next_key(), Ok(Some("y".to_string())));
    assert_eq!(d.deserialize_scalar(Kind::I16), Ok(Scalar::I16(4)));
    assert_eq!(d.next_key(), Ok(None));
    assert_eq!(d.get_last_tag(), Ok(9));
}

#[test]
fn root_gives_its_name() {
    let mut d = over(vec![10, 0, 2, b'h', b'i', 0]);
    assert_eq!(d.deserialize_root(), Ok("hi".to_string()));
    assert_eq!(d.next_key(), Ok(None));
}

#[test]
fn record_must_be_a_compound() {
    let empty = Shape::Record(Vec::new());
    assert_eq!(from_bytes(&[3, 0, 0, 0, 0, 0, 1], &empty), Err(Error::ExpectedCompound));
    assert_eq!(from_bytes(&[], &empty), Err(Error::IoError));
    assert_eq!(from_bytes(&[10, 0, 1, 0xff, 0], &empty), Err(Error::Uft8Error));
}

#[test]
fn record_without_end_fails() {
    let shape = one("x", Kind::U8);
    assert_eq!(from_bytes(&[10, 0, 0, 1, 0, 1, b'x', 3], &shape), Err(Error::IoError));
    assert_eq!(from_bytes(&[10, 0, 0], &shape), Err(Error::IoError));
}

#[test]
fn unknown_field_fails() {
    let shape = one("x", Kind::U8);
    assert_eq!(
        from_bytes(&[10, 0, 0, 1, 0, 1, b'y', 3, 0], &shape),
        Err(Error::ExpectedIdentifier)
    );
}

#[test]
fn first_shape_of_a_name_counts() {
    let shape = Shape::Record(vec![
        FieldShape { name: "x".to_string(), shape: Shape::Scalar(Kind::U8) },
        FieldShape { name: "x".to_string(), shape: Shape::Scalar(Kind::I32) },
    ]);
    let got = from_reader(ByteReader::new(vec![10, 0, 0, 1, 0, 1, b'x', 3, 0]), &shape).unwrap();
    assert_eq!(
        got,
        Value::Record(vec![Field { name: "x".to_string(), value: Value::Scalar(Scalar::U8(3)) }])
    );
}

#[test]
fn list_is_read_by_its_count() {
    let mut s = Serializer::new("l".to_string(), Vec::new());
    let list = vec![Scalar::I16(1), Scalar::I16(0), Scalar::I16(-1)];
    s.serialize_list(&list).unwrap();
    let mut bytes = s.into_writer();
    bytes.push(77);
    let mut d = over(bytes);
    assert_eq!(d.deserialize_list(Kind::I16), Ok(list));
    assert_eq!(d.get_last_tag(), Ok(77));
}

#[test]
fn list_of_strings_goes_back_and_forth() {
    let mut s = Serializer::new("l".to_string(), Vec::new());
    let list = vec![Scalar::Str("a".to_string()), Scalar::Str(String::new())];
    s.serialize_list(&list).unwrap();
    assert_eq!(over(s.into_writer()).deserialize_list(Kind::Str), Ok(list));
}

#[test]
fn list_failures() {
    assert_eq!(over(vec![2, 0, 0, 0, 0, 0, 1, 0]).deserialize_list(Kind::I16), Err(Error::IoError));
    assert_eq!(over(vec![2, 0, 0, 0, 0]).deserialize_list(Kind::I16), Err(Error::IoError));
    assert_eq!(
        over(vec![2, 0, 0, 255, 0, 0, 0]).deserialize_list(Kind::I16),
        Err(Error::IntError)
    );
    assert_eq!(
        over(vec![2, 0, 0, 0, 0, 0, 0]).deserialize_list(Kind::I32),
        Err(Error::ExpectedInt)
    );
    assert_eq!(over(vec![2, 0, 0, 0, 0, 0, 0]).deserialize_list(Kind::I16), Ok(Vec::new()));
}

#[test]
fn element_is_read_without_tag_and_name() {
    let mut d = over(vec![0, 7]);
    d.begin_element(2);
    assert_eq!(d.deserialize_i16(), Ok(7));
}

#[test]
fn seq_head_gives_tag_and_count() {
    let mut d = over(vec![2, 0, 1, b'l', 0, 0, 0, 2, 0, 7, 0, 8]);
    assert_eq!(d.deserialize_seq(), Ok((2, 2)));
    d.begin_element(2);
    assert_eq!(d.deserialize_i16(), Ok(7));
    d.begin_element(2);
    assert_eq!(d.deserialize_i16(), Ok(8));
    assert_eq!(over(vec![2, 0, 0, 128, 0, 0, 0]).deserialize_seq(), Err(Error::IntError));
    assert_eq!(over(vec![2, 0, 0, 0]).deserialize_seq(), Err(Error::IoError));
    assert_eq!(over(vec![]).deserialize_seq(), Err(Error::IoError));
}

#[test]
fn nested_records_are_walked() {
    let mut d = over(vec![
        10, 0, 5, b'o', b'u', b't', b'e', b'r', 10, 0, 2, b'i', b'n', 1, 0, 1, b'x', 1, 0, 3, 0, 1,
        b'y', 0, 0, 0, 2, 0,
    ]);
    assert_eq!(d.deserialize_root(), Ok("outer".to_string()));
    assert_eq!(d.next_key(), Ok(Some("in".to_string())));
    assert_eq!(d.deserialize_struct(), Ok(()));
    assert_eq!(d.next_key(), Ok(Some("x".to_string())));
    assert_eq!(d.deserialize_u8(), Ok(1));
    assert_eq!(d.next_key(), Ok(None));
    assert_eq!(d.next_key(), Ok(Some("y".to_string())));
    assert_eq!(d.deserialize_i32(), Ok(2));
    assert_eq!(d.next_key(), Ok(None));
    assert_eq!(d.get_last_tag(), Err(Error::IoError));
}

#[test]
fn value_is_read_by_its_shape() {
    let mut d = over(vec![10, 0, 1, b'r', 2, 0, 1, b'x', 0, 5, 0, 66]);
    assert_eq!(
        d.deserialize_value(&one("x", Kind::I16)),
        Ok(Value::Record(vec![Field {
            name: "x".to_string(),
            value: Value::Scalar(Scalar::I16(5)),
        }]))
    );
    assert_eq!(d.get_last_tag(), Ok(66));
    let mut d = over(vec![2, 0, 0, 0, 5]);
    assert_eq!(d.deserialize_value(&Shape::Scalar(Kind::I16)), Ok(Value::Scalar(Scalar::I16(5))));
    let mut d = over(vec![2, 0, 0, 0, 5]);
    assert_eq!(d.deserialize_value(&one("x", Kind::I16)), Err(Error::ExpectedCompound));
}

#[test]
fn kinds_and_shapes_know_their_tags() {
    assert_eq!(Kind::Bool.tag(), 1);
    assert_eq!(Kind::I8.tag(), 1);
    assert_eq!(Kind::U8.tag(), 1);
    assert_eq!(Kind::I16.tag(), 2);
    assert_eq!(Kind::I32.tag(), 3);
    assert_eq!(Kind::U16.tag(), 3);
    assert_eq!(Kind::I64.tag(), 4);
    assert_eq!(Kind::U32.tag(), 4);
    assert_eq!(Kind::U64.tag(), 4);
    assert_eq!(Kind::F32.tag(), 5);
    assert_eq!(Kind::F64.tag(), 6);
    assert_eq!(Kind::Bytes.tag(), 7);
    assert_eq!(Kind::Str.tag(), 8);
    assert_eq!(Shape::Record(Vec::new()).tag(), 10);
    assert_eq!(Shape::List(Kind::Str).tag(), 8);
    assert_eq!(Shape::Scalar(Kind::U16).mismatch(), Error::ExpectedInt);
    assert_eq!(Shape::Record(Vec::new()).mismatch(), Error::ExpectedCompound);
    assert_eq!(Scalar::U16(1).kind(), Kind::U16);
}
