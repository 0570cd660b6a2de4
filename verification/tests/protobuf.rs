use oicq4r::protocol::protobuf::decode::{DecodeError, Element as DecodedElement, Object as DecodedObject};
use oicq4r::protocol::protobuf::encode::{Element, Object};
use oicq4r::protocol::protobuf::{decode, encode, ProtobufElement, ProtobufError, ProtobufObject};
use oicq4r::protocol::writer::{write_bytes, write_u32};

#[test]
fn protobuf_test() {
    let mut buf = Vec::with_capacity(9);
    write_u32(&mut buf, 324372432);
    write_bytes(&mut buf, &[0x00, 0x00, 0x01, 0x9e, 0x39]);

    println!("{:02x?} {}", buf, buf.len());

    let encoded = encode(&ProtobufObject::from_fields(vec![
        (1, ProtobufElement::Integer(1152)),
        (2, ProtobufElement::Integer(9)),
        (3, ProtobufElement::String("242423424".to_string())),
        (4, ProtobufElement::Bytes(buf)),
        (5, ProtobufElement::Double(213.435f64.to_bits())),
        (
            6,
            ProtobufElement::Object(ProtobufObject::from_fields(vec![
                (1, ProtobufElement::Integer(2)),
                (2, ProtobufElement::String("sdf".to_string())),
            ])),
        ),
        (
            7,
            ProtobufElement::Array(vec![
                ProtobufElement::Integer(123),
                ProtobufElement::String("345".to_string()),
            ]),
        ),
    ]))
    .unwrap();

    println!("{:02x?} {}", encoded, encoded.len());
}

#[test]
fn mod_test() {
    let mut buf = Vec::with_capacity(9);
    write_u32(&mut buf, 324372432);
    write_bytes(&mut buf, &[0x00, 0x00, 0x01, 0x9e, 0x39]);

    println!("{:02x?} {}", buf, buf.len());

    let encoded = Object::from_fields(vec![
        (1, Element::Integer(1152)),
        (2, Element::Integer(9)),
        (3, Element::String("242423424")),
        (4, Element::Bytes(buf.as_slice())),
        (5, Element::Double(213.435f64.to_bits())),
        (
            6,
            Element::Object(Object::from_fields(vec![
                (1, Element::Integer(2)),
                (2, Element::String("sdf")),
            ])),
        ),
        (7, Element::Array(vec![Element::Integer(123), Element::String("345")])),
        (8, Element::Array(vec![Element::Integer(43), Element::String("dfg")])),
    ])
    .encode()
    .unwrap();

    println!("{:02x?} {}", encoded, encoded.len());
}

#[test]
fn protobuf_encoding_of_each_kind() {
    let bytes = encode(&ProtobufObject::from_fields(vec![
        (1, ProtobufElement::Integer(150)),
        (2, ProtobufElement::Integer(-1)),
        (3, ProtobufElement::Bytes(vec![7, 8])),
        (4, ProtobufElement::String("hi".to_string())),
        (5, ProtobufElement::Null),
        (6, ProtobufElement::Double(1.0f64.to_bits())),
    ]))
    .unwrap();
    assert_eq!(
        bytes,
        vec![
            0x08, 0x96, 0x01, // 150 as a varint
            0x10, 0x01, // -1 zigzag
            0x1a, 0x02, 7, 8, // bytes
            0x22, 0x02, b'h', b'i', // string
            0x31, 0, 0, 0, 0, 0, 0, 0xf0, 0x3f, // double 1.0
        ]
    );
}

#[test]
fn protobuf_decode_reads_back_integers_and_bytes() {
    let object = ProtobufObject::from_fields(vec![
        (1, ProtobufElement::Integer(1152)),
        (4, ProtobufElement::Bytes(vec![1, 2, 3])),
        (9, ProtobufElement::Integer(0)),
    ]);
    let bytes = encode(&object).unwrap();
    let mut decoded = decode(bytes.as_slice()).unwrap();
    assert!(matches!(decoded.try_remove(&1), Ok(ProtobufElement::Integer(1152))));
    assert!(matches!(decoded.try_remove(&4), Ok(ProtobufElement::Bytes(b)) if b == vec![1, 2, 3]));
    assert!(matches!(decoded.try_get(&9), Ok(ProtobufElement::Integer(0))));
    assert!(matches!(decoded.try_get(&2), Err(ProtobufError::ItemNotFound(2))));
}

#[test]
fn protobuf_decode_fixed_fields() {
    // field 1 fixed64 = 1, field 2 fixed32 = 0x01020304
    let data = [0x09, 1, 0, 0, 0, 0, 0, 0, 0, 0x15, 4, 3, 2, 1];
    let mut o = decode(&data).unwrap();
    assert!(matches!(o.try_remove(&1), Ok(ProtobufElement::Integer(1))));
    assert!(matches!(o.try_remove(&2), Ok(ProtobufElement::Integer(0x01020304))));
}

#[test]
fn protobuf_repeated_field_keeps_only_the_first_two_as_an_array() {
    // field 1 three times: 1, 2, 3. The second turns the field into an array of the first; the
    // third is added to it.
    let data = [0x08, 1, 0x08, 2, 0x08, 3];
    let mut o = decode(&data).unwrap();
    match o.try_remove(&1).unwrap() {
        ProtobufElement::Array(items) => {
            assert_eq!(items.len(), 2);
            assert!(matches!(items[0], ProtobufElement::Integer(1)));
            assert!(matches!(items[1], ProtobufElement::Integer(3)));
        }
        other => panic!("unexpected {:?}", other),
    }
}

#[test]
fn protobuf_decode_errors() {
    assert!(matches!(decode(&[0x0b]), Err(ProtobufError::InvalidType(3))));
    assert!(matches!(decode(&[0x0a, 0x05, 1]), Err(ProtobufError::UnexpectedEof)));
    assert!(matches!(decode(&[0x08]), Err(ProtobufError::UnexpectedEof)));
    let long = [0x08, 0xff, 0xff, 0xff, 0xff, 0xff, 0xff, 0xff, 0xff, 0xff, 0xff, 0x01];
    assert!(matches!(decode(&long), Err(ProtobufError::IncorrectVarint)));
}

#[test]
fn protobuf_negative_varint_reads_as_signed() {
    let data = [0x08, 0xff, 0xff, 0xff, 0xff, 0xff, 0xff, 0xff, 0xff, 0xff, 0x01];
    let mut o = decode(&data).unwrap();
    assert!(matches!(o.try_remove(&1), Ok(ProtobufElement::Integer(-1))));
}

#[test]
fn protobuf_object_from_bytes() {
    let inner = encode(&ProtobufObject::from_fields(vec![(2, ProtobufElement::Integer(5))])).unwrap();
    let mut o = ProtobufElement::Bytes(inner).try_into_object().unwrap();
    assert!(matches!(o.try_remove(&2), Ok(ProtobufElement::Integer(5))));
    assert!(matches!(ProtobufElement::Integer(1).try_into_object(), Err(ProtobufError::NotObject)));
    assert!(matches!(ProtobufElement::Integer(1).try_into_array(), Err(ProtobufError::NotString)));
    assert!(matches!(ProtobufElement::Integer(7).try_into_integer(), Ok(7)));
}

#[test]
fn protobuf_from_fields_later_value_wins() {
    let o = ProtobufObject::from_fields(vec![
        (3, ProtobufElement::Integer(1)),
        (1, ProtobufElement::Integer(2)),
        (3, ProtobufElement::Integer(4)),
    ]);
    let fields = o.into_inner();
    assert_eq!(fields.len(), 2);
    assert_eq!(fields[0].0, 3);
    assert!(matches!(fields[0].1, ProtobufElement::Integer(4)));
    assert_eq!(fields[1].0, 1);
    let numbered = ProtobufObject::from_elements(vec![ProtobufElement::Integer(9), ProtobufElement::Integer(8)]).into_inner();
    assert_eq!(numbered[0].0, 0);
    assert_eq!(numbered[1].0, 1);
}

#[test]
fn protobuf_error_texts() {
    assert_eq!(ProtobufError::InvalidType(6).describe(), "invalid type: 6.");
    assert_eq!(ProtobufError::NotBytes.describe(), "type of this protobuf element not Bytes");
    assert_eq!(DecodeError::ItemNotFound(3).describe(), "item not found: 3.");
}

#[test]
fn decoded_object_reads_integers_as_i128() {
    let data = [0x08, 0x96, 0x01, 0x12, 0x01, b'x'];
    let mut o = DecodedObject::decode(&data).unwrap();
    assert!(matches!(o.try_remove(&1), Ok(DecodedElement::Integer(150))));
    assert!(matches!(o.try_get(&2), Ok(DecodedElement::Bytes(b)) if b == &vec![b'x']));
    assert!(matches!(o.try_get(&5), Err(DecodeError::ItemNotFound(5))));
    assert!(matches!(DecodedObject::decode(&[0x0b]), Err(DecodeError::InvalidType(3))));
}

#[test]
fn encode_object_writes_each_kind() {
    let bytes = Object::from_fields(vec![
        (1, Element::Integer(150)),
        (2, Element::Integer(-2)),
        (3, Element::String("a")),
        (4, Element::Object(Object::from_fields(vec![(1, Element::Integer(1))]))),
        (5, Element::Array(vec![Element::Integer(1), Element::Integer(2)])),
    ])
    .encode()
    .unwrap();
    assert_eq!(
        bytes,
        vec![0x08, 0x96, 0x01, 0x10, 0x03, 0x1a, 0x01, b'a', 0x22, 0x02, 0x08, 0x01, 0x28, 0x01, 0x28, 0x02]
    );
}

#[test]
fn protobuf_encoding_matches_coded_output_stream() {
    let raw = vec![1u8, 2, 3];
    let ours = encode(&ProtobufObject::from_fields(vec![
        (1, ProtobufElement::Integer(1152)),
        (2, ProtobufElement::Integer(-5)),
        (3, ProtobufElement::String("abc".to_string())),
        (4, ProtobufElement::Bytes(raw.clone())),
        (5, ProtobufElement::Double(213.435f64.to_bits())),
        (6, ProtobufElement::Array(vec![ProtobufElement::Integer(7), ProtobufElement::Integer(8)])),
    ]))
    .unwrap();
    let mut theirs: Vec<u8> = Vec::new();
    {
        let mut stream = protobuf::CodedOutputStream::vec(&mut theirs);
        stream.write_int64(1, 1152).unwrap();
        stream.write_sint64(2, -5).unwrap();
        stream.write_string(3, "abc").unwrap();
        stream.write_bytes(4, &raw).unwrap();
        stream.write_double(5, 213.435).unwrap();
        stream.write_int64(6, 7).unwrap();
        stream.write_int64(6, 8).unwrap();
        stream.flush().unwrap();
    }
    assert_eq!(ours, theirs);
}

#[test]
fn protobuf_borrowed_encoding_matches_coded_output_stream() {
    let ours = Object::from_fields(vec![
        (1, Element::Integer(-300)),
        (2, Element::String("xyz")),
        (3, Element::Object(Object::from_fields(vec![(1, Element::Integer(1))]))),
    ])
    .encode()
    .unwrap();
    let mut theirs: Vec<u8> = Vec::new();
    {
        let mut stream = protobuf::CodedOutputStream::vec(&mut theirs);
        stream.write_sint64(1, -300).unwrap();
        stream.write_string(2, "xyz").unwrap();
        stream.write_bytes(3, &[0x08, 0x01]).unwrap();
        stream.flush().unwrap();
    }
    assert_eq!(ours, theirs);
}

#[test]
fn protobuf_varint_limits_match_coded_input_stream() {
    let too_long = [0xff, 0xff, 0xff, 0xff, 0xff, 0xff, 0xff, 0xff, 0xff, 0x02];
    assert!(protobuf::CodedInputStream::from_bytes(&too_long).read_int64().is_err());
    let mut data = vec![0x08];
    data.extend_from_slice(&too_long);
    assert!(matches!(decode(&data), Err(ProtobufError::IncorrectVarint)));

    let widest = [0xff, 0xff, 0xff, 0xff, 0xff, 0xff, 0xff, 0xff, 0xff, 0x01];
    assert_eq!(protobuf::CodedInputStream::from_bytes(&widest).read_int64().unwrap(), -1);

    let wide_key = [0x88, 0x80, 0x80, 0x80, 0x10, 0x05];
    assert!(protobuf::CodedInputStream::from_bytes(&wide_key).read_uint32().is_err());
    assert!(matches!(decode(&wide_key), Err(ProtobufError::IncorrectVarint)));

    let padded_key = [0x88, 0x80, 0x80, 0x80, 0x00, 0x05];
    assert_eq!(protobuf::CodedInputStream::from_bytes(&padded_key).read_uint32().unwrap(), 8);
    let mut o = decode(&padded_key).unwrap();
    assert!(matches!(o.try_remove(&1), Ok(ProtobufElement::Integer(5))));

    let wide_length = [0x0a, 0xff, 0xff, 0xff, 0xff, 0x1f];
    assert!(matches!(decode(&wide_length), Err(ProtobufError::IncorrectVarint)));
    assert!(matches!(DecodedObject::decode(&wide_length), Err(DecodeError::IncorrectVarint)));
}

#[test]
fn protobuf_eof_text_matches_the_wire_error() {
    assert_eq!(ProtobufError::UnexpectedEof.describe(), "Unexpected EOF");
    assert_eq!(ProtobufError::IncorrectVarint.describe(), "Incorrect varint");
    let err = protobuf::CodedInputStream::from_bytes(&[0x80]).read_int64().unwrap_err();
    assert_eq!(err.to_string(), "Unexpected EOF");
}

#[test]
fn protobuf_insert_then_lookup() {
    let mut o = ProtobufObject::new();
    o.insert(4, ProtobufElement::Integer(1));
    o.insert(2, ProtobufElement::Integer(2));
    o.insert(4, ProtobufElement::Integer(3));
    assert!(matches!(o.try_get(&4), Ok(ProtobufElement::Integer(3))));
    assert!(matches!(o.try_get(&2), Ok(ProtobufElement::Integer(2))));
    let fields = o.into_inner();
    assert_eq!(fields.len(), 2);
    assert_eq!(fields[0].0, 4);
}

#[test]
fn protobuf_fields_are_written_in_ascending_order() {
    let bytes = encode(&ProtobufObject::from_fields(vec![
        (3, ProtobufElement::String("a".to_string())),
        (1, ProtobufElement::Integer(150)),
    ]))
    .unwrap();
    assert_eq!(bytes, vec![0x08, 0x96, 0x01, 0x1a, 0x01, 0x61]);
    let nested = encode(&ProtobufObject::from_fields(vec![(
        5,
        ProtobufElement::Object(ProtobufObject::from_fields(vec![
            (2, ProtobufElement::Integer(1)),
            (1, ProtobufElement::Integer(2)),
        ])),
    )]))
    .unwrap();
    assert_eq!(nested, vec![0x2a, 0x04, 0x08, 0x02, 0x10, 0x01]);
    let borrowed = Object::from_fields(vec![(2, Element::String("a")), (1, Element::Integer(150))])
        .encode()
        .unwrap();
    assert_eq!(borrowed, vec![0x08, 0x96, 0x01, 0x12, 0x01, 0x61]);
}
