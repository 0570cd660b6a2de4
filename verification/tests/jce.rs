use oicq4r::protocol::helper::current_unix_timestamp_as_secs;
use oicq4r::protocol::jce::{decode, decode_wrapper, encode, encode_nested, encode_stream, encode_wrapper, JceElement, JceError, JceObject, Type};
use oicq4r::protocol::protobuf::{self, ProtobufElement, ProtobufObject};

fn jint(v: i64) -> JceElement {
    JceElement::from_i64(v)
}

#[test]
fn test_register() {
    let logout = false;
    let pb_buf = protobuf::encode(&ProtobufObject::from_fields(vec![(
        1,
        ProtobufElement::Array(vec![
            ProtobufElement::Object(ProtobufObject::from_fields(vec![
                (1, ProtobufElement::Integer(46)),
                (2, ProtobufElement::Integer(current_unix_timestamp_as_secs() as isize)),
            ])),
            ProtobufElement::Object(ProtobufObject::from_fields(vec![
                (1, ProtobufElement::Integer(283)),
                (2, ProtobufElement::Integer(0)),
            ])),
        ]),
    )]))
    .unwrap();

    assert_eq!(17, pb_buf.len());

    let svc_req_register = encode_nested(
        JceObject::try_from_options(vec![
            Some(jint(640279992)),
            Some(jint(if logout { 0 } else { 7 })),
            Some(jint(0)),
            Some(JceElement::from_str("")),
            Some(jint(if logout { 21 } else { 11 })),
            Some(jint(0)),
            Some(jint(0)),
            Some(jint(0)),
            Some(jint(0)),
            Some(jint(0)),
            Some(jint(if logout { 44 } else { 0 })),
            Some(jint(29)),
            Some(jint(1)),
            Some(JceElement::from_str("")),
            Some(jint(0)),
            None,
            Some(JceElement::SimpleList(rand::random::<[u8; 16]>().to_vec())),
            Some(jint(2052)),
            Some(jint(0)),
            Some(JceElement::from_str("Konata 2020")),
            Some(JceElement::from_str("Konata 2020")),
            Some(JceElement::from_str("10")),
            Some(jint(1)),
            Some(jint(0)),
            Some(jint(0)),
            None,
            Some(jint(0)),
            Some(jint(0)),
            Some(JceElement::from_str("")),
            Some(jint(0)),
            Some(JceElement::from_str("OICQX")),
            Some(JceElement::from_str("OICQX")),
            Some(JceElement::from_str("")),
            Some(JceElement::SimpleList(pb_buf)),
            Some(jint(0)),
            None,
            Some(jint(0)),
            None,
            Some(jint(1000)),
            Some(jint(98)),
        ])
        .unwrap(),
    )
    .unwrap();

    assert_eq!(155, svc_req_register.len());
}

#[test]
fn jce_test() {
    let object = JceObject::from_pairs(vec![
        (0u8, jint(0)),
        (1u8, jint(i8::MAX as i64)),
        (2u8, jint(i16::MAX as i64)),
        (3u8, jint(i32::MAX as i64)),
        (4u8, jint(i64::MAX)),
        (5u8, JceElement::Float(1.1f32.to_bits())),
        (6u8, JceElement::Double(1.1f64.to_bits())),
        (7u8, JceElement::from_string((0..255).map(|_| "a").collect::<String>())),
        (8u8, JceElement::from_string((0..1000).map(|_| "a").collect::<String>())),
        (9u8, JceElement::SimpleList(vec![0; 128])),
        (10u8, JceElement::List(vec![JceElement::Double(2.2f64.to_bits())])),
        (11u8, JceElement::Mapping(vec![])),
        (12u8, JceElement::Mapping(vec![("111".to_string(), jint(1))])),
        (250u8, JceElement::StructBegin(JceObject::from_pairs(vec![(2, jint(i64::MAX))]))),
        (251u8, JceElement::StructBegin(JceObject::from_pairs(vec![(2, jint(i64::MAX))]))),
    ]);
    let mut encoded = Vec::with_capacity(3000);
    encode_stream(&mut encoded, &object);

    let decoded = decode(encoded.as_slice()).unwrap();
    println!("{:?}", decoded);
}

#[test]
fn test_wrapper() {
    let map = vec![(
        "ccc".to_string(),
        JceElement::Mapping(vec![
            ("ddd".to_string(), jint(1)),
            ("eee".to_string(), JceElement::from_str("aaa")),
        ]),
    )];
    let servant = "c";
    let func = "d";
    let req_id = 32;

    let encoded = encode_wrapper(map, servant, func, Some(req_id)).unwrap();
    let decoded = decode_wrapper(encoded.as_slice()).unwrap();
    println!("{:?}", decoded);
}

#[test]
fn jce_wrapper_gives_back_the_value() {
    let value = JceElement::Mapping(vec![
        ("ddd".to_string(), jint(1)),
        ("eee".to_string(), JceElement::from_str("aaa")),
    ]);
    let encoded = encode_wrapper(vec![("ccc".to_string(), value)], "c", "d", Some(32)).unwrap();
    match decode_wrapper(encoded.as_slice()).unwrap() {
        JceElement::Mapping(entries) => {
            assert_eq!(entries.len(), 2);
            assert_eq!(entries[0].0, "ddd");
            assert!(matches!(entries[0].1, JceElement::Int8(1)));
            assert_eq!(entries[1].0, "eee");
            assert!(matches!(&entries[1].1, JceElement::String1(s) if s == "aaa"));
        }
        other => panic!("unexpected {:?}", other),
    }
}

#[test]
fn jce_decode_gives_back_what_encode_wrote() {
    let object = JceObject::from_pairs(vec![
        (1u8, jint(-5)),
        (3u8, jint(300)),
        (4u8, JceElement::from_str("hello")),
        (6u8, JceElement::SimpleList(vec![1, 2, 3])),
    ]);
    let bytes = encode(&object).unwrap();
    let mut decoded = decode(bytes.as_slice()).unwrap();
    assert!(matches!(decoded.try_remove(1), Ok(JceElement::Int8(-5))));
    assert!(matches!(decoded.try_remove(3), Ok(JceElement::Int16(300))));
    assert!(matches!(decoded.try_remove(4), Ok(JceElement::String1(s)) if s == "hello"));
    assert!(matches!(decoded.try_remove(6), Ok(JceElement::SimpleList(v)) if v == vec![1, 2, 3]));
    assert!(matches!(decoded.try_remove(1), Err(JceError::ItemNotFound(1))));
}

#[test]
fn jce_encoding_of_small_values() {
    let object = JceObject::from_pairs(vec![(0u8, jint(0)), (1u8, jint(1)), (2u8, JceElement::from_str("ab"))]);
    let bytes = encode(&object).unwrap();
    // Zero: head 0x0c; Int8 1 at tag 1: 0x10 0x01; String1 at tag 2: 0x26, length, bytes.
    assert_eq!(bytes, vec![0x0c, 0x10, 0x01, 0x26, 0x02, b'a', b'b']);
}

#[test]
fn jce_from_i64_picks_the_narrowest_type() {
    assert!(matches!(jint(0), JceElement::Zero));
    assert!(matches!(jint(127), JceElement::Int8(127)));
    assert!(matches!(jint(-128), JceElement::Int8(-128)));
    assert!(matches!(jint(128), JceElement::Int16(128)));
    assert!(matches!(jint(40000), JceElement::Int32(40000)));
    assert!(matches!(jint(1 << 40), JceElement::Int64(_)));
}

#[test]
fn jce_try_from_options_refuses_too_many_tags() {
    let many: Vec<Option<JceElement>> = (0..257).map(|_| None).collect();
    assert!(matches!(JceObject::try_from_options(many), Err(JceError::TagOverflowed(256))));
    let o = JceObject::try_from_options(vec![None, Some(jint(3))]).unwrap();
    assert!(o.get(0).is_none());
    assert!(matches!(o.get(1), Some(JceElement::Int8(3))));
}

#[test]
fn jce_later_pair_replaces_earlier() {
    let o = JceObject::from_pairs(vec![(2u8, jint(1)), (1u8, jint(5)), (2u8, jint(9))]);
    let fields = o.raw();
    assert_eq!(fields.len(), 2);
    assert_eq!(fields[0].0, 1);
    assert_eq!(fields[1].0, 2);
    assert!(matches!(fields[1].1, JceElement::Int8(9)));
}

#[test]
fn jce_decode_errors() {
    // Reading stops where the input ends, also inside an element.
    assert!(decode(&[0x10]).unwrap().raw().is_empty());
    assert!(matches!(decode(&[0x0e]), Err(JceError::TypeNotMatched(14))));
    assert!(matches!(decode_wrapper(&[0x0c]), Err(JceError::DecodeError)));
}

#[test]
fn jce_conversions() {
    assert!(matches!(jint(300).try_into_i16(), Ok(300)));
    assert!(matches!(jint(300).try_into_i8(), Err(JceError::NotInt8)));
    assert!(matches!(JceElement::from_str("x").try_into_i64(), Err(JceError::NotInt64)));
    assert_eq!(JceElement::from_str("x").try_into_string().unwrap(), "x");
}

#[test]
fn jce_error_texts() {
    assert_eq!(JceError::TagOverflowed(300).describe(), "jce tag overflowed, max: 255, current: 300");
    assert_eq!(JceError::ItemNotFound(7).describe(), "item not found: 7.");
    assert_eq!(JceError::TypeNotMatched(13).describe(), "type not matched: 13");
}

#[test]
fn jce_type_numbers_round_trip() {
    assert!(matches!(Type::try_from_code(0), Ok(Type::Int8)));
    assert!(matches!(Type::try_from_code(8), Ok(Type::Mapping)));
    assert!(matches!(Type::try_from_code(13), Ok(Type::SimpleList)));
    assert!(matches!(Type::try_from_code(14), Err(JceError::TypeNotMatched(14))));
    for code in 0u8..=13 {
        assert_eq!(Type::try_from_code(code).unwrap().code(), code);
    }
}

#[test]
fn jce_insert_keeps_other_fields() {
    let mut o = JceObject::new();
    o.insert(5, jint(50));
    o.insert(1, jint(10));
    o.insert(5, jint(55));
    assert!(matches!(o.get(5), Some(JceElement::Int8(55))));
    assert!(matches!(o.get(1), Some(JceElement::Int8(10))));
    assert!(o.get(2).is_none());
    let raw = o.raw();
    assert_eq!(raw.len(), 2);
    assert_eq!(raw[0].0, 1);
    assert_eq!(raw[1].0, 5);
}

#[test]
fn jce_float_bits() {
    assert!(matches!(JceElement::Float(1.5f32.to_bits()).try_into_f32_bits(), Ok(b) if f32::from_bits(b) == 1.5));
    assert!(matches!(JceElement::Zero.try_into_f32_bits(), Ok(0)));
    assert!(matches!(jint(3).try_into_f32_bits(), Err(JceError::NotFloat)));
}
