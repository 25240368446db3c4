use someip_codec::de::from_slice;
use someip_codec::length_fields::LengthFieldSize;
use someip_codec::options::{ByteOrder, ExampleOptions, SomeIpOptions, StringEncoding};
use someip_codec::types::{
    SomeIp, SomeIpEnum, SomeIpEnumValue, SomeIpField, SomeIpSequence, SomeIpString, SomeIpStruct,
    SomeIpType,
};
use someip_codec::value::Value;
use someip_codec::Error;
use bytes::BufMut;
use bytes::BytesMut;

fn le_options() -> SomeIpOptions {
    SomeIpOptions { byte_order: ByteOrder::LittleEndian, ..ExampleOptions::options() }
}

fn u8_seq(min: usize, max: usize, lf: Option<LengthFieldSize>) -> SomeIpType {
    SomeIpType::Sequence(SomeIpSequence {
        max_elements: max,
        min_elements: min,
        element_type: Box::new(u8::someip_type()),
        length_field_size: lf,
    })
}

fn string_type(min: usize, max: usize) -> SomeIpType {
    SomeIpType::String(SomeIpString {
        max_size: max,
        min_size: min,
        length_field_size: Some(LengthFieldSize::OneByte),
    })
}

fn test_struct_type(ids: [Option<u16>; 3], tlv: bool, wrapper: bool, lf: Option<LengthFieldSize>) -> SomeIpType {
    SomeIpType::Struct(SomeIpStruct {
        name: "Test".to_string(),
        fields: vec![
            SomeIpField {
                name: "first".to_string(),
                id: ids[0],
                field_type: Box::new(i16::someip_type()),
            },
            SomeIpField {
                name: "second".to_string(),
                id: ids[1],
                field_type: Box::new(u32::someip_type()),
            },
            SomeIpField {
                name: "third".to_string(),
                id: ids[2],
                field_type: Box::new(u8_seq(1, 5, Some(LengthFieldSize::OneByte))),
            },
        ],
        uses_tlv_serialization: tlv,
        is_message_wrapper: wrapper,
        length_field_size: lf,
    })
}

#[test]
fn de_test_bool() {
    let opts = ExampleOptions::options();
    let t = bool::someip_type();
    assert_eq!(Value::Bool(false), from_slice(&opts, &t, &[0]).unwrap());
    assert_eq!(Value::Bool(true), from_slice(&opts, &t, &[1]).unwrap());
}

#[test]
fn test_invalid_bool() {
    let t = bool::someip_type();
    assert_eq!(
        Value::Bool(true),
        from_slice(&ExampleOptions::options(), &t, &[42]).unwrap()
    );

    let opts = SomeIpOptions { deserializer_strict_bool: true, ..ExampleOptions::options() };
    let res = from_slice(&opts, &t, &[42]);
    if let Err(Error::InvalidBool(v)) = res {
        assert_eq!(42, v);
    } else {
        assert!(false, "Strict bool parsing must return an error here");
    }
}

#[test]
fn de_test_u8() {
    let opts = ExampleOptions::options();
    let t = u8::someip_type();
    assert_eq!(Value::U8(42), from_slice(&opts, &t, &[42]).unwrap());
    assert_eq!(Value::U8(0), from_slice(&opts, &t, &[0]).unwrap());
    assert_eq!(Value::U8(255), from_slice(&opts, &t, &[255]).unwrap());
}

#[test]
fn de_test_i8() {
    let opts = ExampleOptions::options();
    let t = i8::someip_type();
    assert_eq!(Value::I8(42), from_slice(&opts, &t, &[42]).unwrap());
    assert_eq!(Value::I8(0), from_slice(&opts, &t, &[0]).unwrap());
    assert_eq!(Value::I8(-1), from_slice(&opts, &t, &[255]).unwrap());
    assert_eq!(Value::I8(127), from_slice(&opts, &t, &[127]).unwrap());
    assert_eq!(Value::I8(-128), from_slice(&opts, &t, &[0x80]).unwrap());
}

#[test]
fn de_test_u16_endianness() {
    let t = u16::someip_type();
    assert_eq!(
        Value::U16(0x1234),
        from_slice(&ExampleOptions::options(), &t, &[0x12, 0x34]).unwrap()
    );
    assert_eq!(Value::U16(0x1234), from_slice(&le_options(), &t, &[0x34, 0x12]).unwrap());
}

#[test]
fn de_test_i64_endianness() {
    let t = i64::someip_type();
    assert_eq!(
        Value::I64(-1),
        from_slice(&ExampleOptions::options(), &t, &[0xFF; 8]).unwrap()
    );
    assert_eq!(
        Value::I64(i64::MIN),
        from_slice(&ExampleOptions::options(), &t, &[0x80, 0, 0, 0, 0, 0, 0, 0]).unwrap()
    );
}

fn test_enum_type() -> SomeIpType {
    SomeIpType::Enum(SomeIpEnum {
        name: "TestEnum".to_string(),
        raw_type: someip_codec::types::SomeIpPrimitive::I16,
        values: vec![
            ("First".to_string(), SomeIpEnumValue::I16(0)),
            ("Second".to_string(), SomeIpEnumValue::I16(42)),
            ("Third".to_string(), SomeIpEnumValue::I16(-1337)),
        ],
    })
}

#[test]
fn de_test_enum() {
    let opts = ExampleOptions::options();
    let t = test_enum_type();
    assert_eq!(
        Value::EnumVariant("First".to_string()),
        from_slice(&opts, &t, &[0, 0]).unwrap()
    );
    assert_eq!(
        Value::EnumVariant("Second".to_string()),
        from_slice(&opts, &t, &[0, 42]).unwrap()
    );
    assert_eq!(
        Value::EnumVariant("Third".to_string()),
        from_slice(&opts, &t, &[0xFA, 0xC7]).unwrap()
    );
}

#[test]
fn de_test_enum_unknown_value() {
    let opts = ExampleOptions::options();
    let t = test_enum_type();
    let err = from_slice(&opts, &t, &[0, 7]).unwrap_err();
    if let Error::InvalidEnumValue { value, name } = err {
        assert_eq!("7", value);
        assert_eq!("TestEnum", name);
    } else {
        assert!(false, "expected an invalid enum value error");
    }
    let err = from_slice(&opts, &t, &[0xFF, 0xFF]).unwrap_err();
    if let Error::InvalidEnumValue { value, .. } = err {
        assert_eq!("-1", value);
    } else {
        assert!(false, "expected an invalid enum value error");
    }
}

#[test]
fn de_test_bytes() {
    let t = u8_seq(0, 32, Some(LengthFieldSize::TwoBytes));
    let mut bytes = BytesMut::with_capacity(32);

    bytes.put_u32(0x12345678);
    assert_eq!(
        Value::Bytes(bytes.to_vec()),
        from_slice(
            &ExampleOptions::options(),
            &t,
            &[0, 4, 0x12, 0x34, 0x56, 0x78]
        )
        .unwrap()
    );

    bytes.put_u32(0x90ABCDEF);
    assert_eq!(
        Value::Bytes(bytes.to_vec()),
        from_slice(
            &ExampleOptions::options(),
            &t,
            &[0, 8, 0x12, 0x34, 0x56, 0x78, 0x90, 0xAB, 0xCD, 0xEF]
        )
        .unwrap()
    );
}

#[test]
fn de_test_bytes_no_length_field() {
    let t = u8_seq(4, 4, Some(LengthFieldSize::TwoBytes));
    let mut bytes = BytesMut::with_capacity(4);
    bytes.put_u32(0x12345678);
    assert_eq!(
        Value::Bytes(bytes.to_vec()),
        from_slice(&ExampleOptions::options(), &t, &[0x12, 0x34, 0x56, 0x78]).unwrap()
    );
}

#[test]
fn de_test_i16_seq() {
    let t = SomeIpType::Sequence(SomeIpSequence {
        max_elements: 4,
        min_elements: 0,
        element_type: Box::new(i16::someip_type()),
        length_field_size: Some(LengthFieldSize::TwoBytes),
    });
    assert_eq!(
        Value::Sequence(vec![Value::I16(42), Value::I16(-5)]),
        from_slice(&ExampleOptions::options(), &t, &[0, 4, 0, 42, 0xFF, 0xFB]).unwrap()
    );
}

#[test]
fn de_test_i16_seq_no_length_field() {
    let t = SomeIpType::Sequence(SomeIpSequence {
        max_elements: 4,
        min_elements: 4,
        element_type: Box::new(i16::someip_type()),
        length_field_size: Some(LengthFieldSize::TwoBytes),
    });
    assert_eq!(
        Value::Sequence(vec![
            Value::I16(42),
            Value::I16(-5),
            Value::I16(1),
            Value::I16(1337)
        ]),
        from_slice(
            &ExampleOptions::options(),
            &t,
            &[0, 42, 0xFF, 0xFB, 0, 1, 0x5, 0x39]
        )
        .unwrap()
    );
}

#[test]
fn de_test_2_dimensional_seq() {
    let t = SomeIpType::Sequence(SomeIpSequence {
        max_elements: 4,
        min_elements: 0,
        element_type: Box::new(SomeIpType::Sequence(SomeIpSequence {
            max_elements: 3,
            min_elements: 0,
            element_type: Box::new(i8::someip_type()),
            length_field_size: Some(LengthFieldSize::OneByte),
        })),
        length_field_size: Some(LengthFieldSize::TwoBytes),
    });
    assert_eq!(
        Value::Sequence(vec![
            Value::Sequence(vec![Value::I8(1), Value::I8(-2), Value::I8(3)]),
            Value::Sequence(vec![Value::I8(42)]),
            Value::Sequence(vec![]),
        ]),
        from_slice(
            &ExampleOptions::options(),
            &t,
            &[0, 7, 3, 1, 0xFE, 3, 1, 42, 0]
        )
        .unwrap()
    );
}

#[test]
fn test_str() {
    let t = string_type(0, 2);
    assert_eq!(
        Value::Str("hi".to_string()),
        from_slice(&ExampleOptions::options(), &t, &[2, 0x68, 0x69]).unwrap()
    );
}

#[test]
fn test_str_ascii() {
    let opts = SomeIpOptions { string_encoding: StringEncoding::Ascii, ..ExampleOptions::options() };
    let t = string_type(0, 2);
    assert_eq!(
        Value::Str("hi".to_string()),
        from_slice(&opts, &t, &[2, 0x68, 0x69]).unwrap()
    );
}

#[test]
fn test_str_bom() {
    let opts = SomeIpOptions { string_with_bom: true, ..ExampleOptions::options() };
    let t = string_type(0, 5);
    assert_eq!(
        Value::Str("hi".to_string()),
        from_slice(&opts, &t, &[5, 0xEF, 0xBB, 0xBF, 0x68, 0x69]).unwrap()
    );
}

#[test]
fn test_str_terminator() {
    let opts = SomeIpOptions { string_with_terminator: true, ..ExampleOptions::options() };
    let t = string_type(0, 3);
    assert_eq!(
        Value::Str("hi".to_string()),
        from_slice(&opts, &t, &[3, 0x68, 0x69, 0]).unwrap()
    );
}

#[test]
fn de_test_string() {
    let t = string_type(0, 2);
    assert_eq!(
        Value::Str("hi".to_string()),
        from_slice(&ExampleOptions::options(), &t, &[2, 0x68, 0x69]).unwrap()
    );
}

#[test]
fn test_string_ascii() {
    let opts = SomeIpOptions { string_encoding: StringEncoding::Ascii, ..ExampleOptions::options() };
    let t = string_type(0, 2);
    assert_eq!(
        Value::Str("hi".to_string()),
        from_slice(&opts, &t, &[2, 0x68, 0x69]).unwrap()
    );
}

#[test]
fn test_string_bom() {
    let opts = SomeIpOptions { string_with_bom: true, ..ExampleOptions::options() };
    let t = string_type(0, 5);
    assert_eq!(
        Value::Str("hi".to_string()),
        from_slice(&opts, &t, &[5, 0xEF, 0xBB, 0xBF, 0x68, 0x69]).unwrap()
    );
}

#[test]
fn test_string_terminator() {
    let opts = SomeIpOptions { string_with_terminator: true, ..ExampleOptions::options() };
    let t = string_type(0, 3);
    assert_eq!(
        Value::Str("hi".to_string()),
        from_slice(&opts, &t, &[3, 0x68, 0x69, 0]).unwrap()
    );
}

#[test]
fn de_test_string_utf16() {
    let t = string_type(0, 4);
    let opts = SomeIpOptions { string_encoding: StringEncoding::Utf16, ..ExampleOptions::options() };
    assert_eq!(
        Value::Str("hi".to_string()),
        from_slice(&opts, &t, &[4, 0, 0x68, 0, 0x69]).unwrap()
    );
}

#[test]
fn de_test_string_utf16_bom() {
    let t = string_type(0, 6);
    let opts = SomeIpOptions {
        string_encoding: StringEncoding::Utf16,
        string_with_bom: true,
        ..ExampleOptions::options()
    };
    assert_eq!(
        Value::Str("hi".to_string()),
        from_slice(&opts, &t, &[6, 0xFE, 0xFF, 0, 0x68, 0, 0x69]).unwrap()
    );
}

#[test]
fn de_test_string_utf16_bom_le() {
    let t = string_type(0, 6);
    let opts = SomeIpOptions {
        byte_order: ByteOrder::LittleEndian,
        string_encoding: StringEncoding::Utf16,
        string_with_bom: true,
        ..ExampleOptions::options()
    };
    assert_eq!(
        Value::Str("hi".to_string()),
        from_slice(&opts, &t, &[6, 0xFF, 0xFE, 0x68, 0, 0x69, 0]).unwrap()
    );
}

#[test]
fn de_test_string_utf16_terminator() {
    let t = string_type(0, 6);
    let opts = SomeIpOptions {
        string_encoding: StringEncoding::Utf16,
        string_with_terminator: true,
        ..ExampleOptions::options()
    };
    assert_eq!(
        Value::Str("hi".to_string()),
        from_slice(&opts, &t, &[6, 0, 0x68, 0, 0x69, 0, 0]).unwrap()
    );
}

#[test]
fn test_string_utf16_bom_detect_swapped_byte_order() {
    let t = string_type(0, 6);
    let opts = SomeIpOptions {
        byte_order: ByteOrder::LittleEndian,
        string_encoding: StringEncoding::Utf16,
        string_with_bom: true,
        ..ExampleOptions::options()
    };
    assert_eq!(
        Value::Str("hi".to_string()),
        from_slice(&opts, &t, &[6, 0xFE, 0xFF, 0, 0x68, 0, 0x69]).unwrap()
    );
}

#[test]
fn test_string_utf16_bom_le_detect_swapped_byte_order() {
    let t = string_type(0, 6);
    let opts = SomeIpOptions {
        string_encoding: StringEncoding::Utf16,
        string_with_bom: true,
        ..ExampleOptions::options()
    };
    assert_eq!(
        Value::Str("hi".to_string()),
        from_slice(&opts, &t, &[6, 0xFF, 0xFE, 0x68, 0, 0x69, 0]).unwrap()
    );
}

#[test]
fn de_test_struct() {
    let t = test_struct_type([None, None, None], false, false, None);
    assert_eq!(
        Value::Struct(vec![
            Some(Value::I16(-1)),
            Some(Value::U32(42)),
            Some(Value::Bytes(vec![1, 2, 3])),
        ]),
        from_slice(
            &ExampleOptions::options(),
            &t,
            &[0xFF, 0xFF, 0, 0, 0, 42, 3, 1, 2, 3]
        )
        .unwrap()
    );
}

#[test]
fn de_test_struct_beginning_length_field() {
    let t = test_struct_type([None, None, None], false, false, Some(LengthFieldSize::TwoBytes));
    // The outer length field cuts the sequence off after two elements.
    assert_eq!(
        Value::Struct(vec![
            Some(Value::I16(-1)),
            Some(Value::U32(42)),
            Some(Value::Bytes(vec![1, 2])),
        ]),
        from_slice(
            &ExampleOptions::options(),
            &t,
            &[0, 9, 0xFF, 0xFF, 0, 0, 0, 42, 2, 1, 2]
        )
        .unwrap()
    );
    // A byte left over after the outer section is reported, with its count.
    let err = from_slice(
        &ExampleOptions::options(),
        &t,
        &[0, 9, 0xFF, 0xFF, 0, 0, 0, 42, 2, 1, 2, 3],
    )
    .unwrap_err();
    assert!(matches!(err, Error::NotAllBytesConsumed(1)));
}

#[test]
fn de_test_struct_tlv() {
    let t = test_struct_type(
        [Some(1), Some(2), Some(3)],
        true,
        false,
        Some(LengthFieldSize::TwoBytes),
    );
    assert_eq!(
        Value::Struct(vec![
            Some(Value::I16(-1)),
            Some(Value::U32(42)),
            Some(Value::Bytes(vec![1, 2, 3])),
        ]),
        from_slice(
            &ExampleOptions::options(),
            &t,
            &[0, 16, 0x10, 0x01, 0xFF, 0xFF, 0x20, 0x02, 0, 0, 0, 42, 0x40, 0x03, 3, 1, 2, 3]
        )
        .unwrap()
    );
}

#[test]
fn de_test_struct_tlv_message_wrapper() {
    let t = test_struct_type(
        [Some(1), Some(2), Some(3)],
        true,
        true,
        Some(LengthFieldSize::TwoBytes),
    );
    assert_eq!(
        Value::Struct(vec![
            Some(Value::I16(-1)),
            Some(Value::U32(42)),
            Some(Value::Bytes(vec![1, 2, 3])),
        ]),
        from_slice(
            &ExampleOptions::options(),
            &t,
            &[0x10, 0x01, 0xFF, 0xFF, 0x20, 0x02, 0, 0, 0, 42, 0x40, 0x03, 3, 1, 2, 3]
        )
        .unwrap()
    );
}

#[test]
fn test_struct_tlv_alternate_length_field_size() {
    let t = test_struct_type(
        [Some(1), Some(2), Some(3)],
        true,
        false,
        Some(LengthFieldSize::TwoBytes),
    );
    assert_eq!(
        Value::Struct(vec![
            Some(Value::I16(-1)),
            Some(Value::U32(42)),
            Some(Value::Bytes(vec![1, 2, 3])),
        ]),
        from_slice(
            &ExampleOptions::options(),
            &t,
            &[0, 17, 0x10, 0x01, 0xFF, 0xFF, 0x20, 0x02, 0, 0, 0, 42, 0x60, 0x03, 0, 3, 1, 2, 3]
        )
        .unwrap()
    );
}

#[test]
fn de_test_optional() {
    let t = SomeIpType::Struct(SomeIpStruct {
        name: "Test".to_string(),
        fields: vec![SomeIpField {
            name: "a".to_string(),
            id: Some(0),
            field_type: Box::new(u32::someip_type()),
        }],
        uses_tlv_serialization: true,
        is_message_wrapper: false,
        length_field_size: Some(LengthFieldSize::OneByte),
    });
    assert_eq!(
        Value::Struct(vec![Some(Value::U32(42))]),
        from_slice(&ExampleOptions::options(), &t, &[6, 0x20, 0x00, 0, 0, 0, 42]).unwrap()
    );
    assert_eq!(
        Value::Struct(vec![None]),
        from_slice(&ExampleOptions::options(), &t, &[0]).unwrap()
    );
}

#[test]
fn de_test_newtype() {
    let t = SomeIpType::String(SomeIpString {
        min_size: 0,
        max_size: 42,
        length_field_size: Some(LengthFieldSize::OneByte),
    });
    assert_eq!(
        Value::Str("hi".to_string()),
        from_slice(&ExampleOptions::options(), &t, &[2, 0x68, 0x69]).unwrap()
    );
}

#[test]
fn test_unkown_ids() {
    let t = SomeIpType::Struct(SomeIpStruct {
        name: "Test".to_string(),
        fields: vec![SomeIpField {
            name: "a".to_string(),
            id: Some(0),
            field_type: Box::new(u32::someip_type()),
        }],
        uses_tlv_serialization: true,
        is_message_wrapper: false,
        length_field_size: Some(LengthFieldSize::OneByte),
    });
    let serialized = vec![
        20, 0x20, 0x01, 1, 2, 3, 4, 0x40, 0x02, 3, 1, 2, 3, 0x60, 0x03, 0, 4, 1, 2, 3, 4,
    ];
    assert_eq!(
        Value::Struct(vec![None]),
        from_slice(&ExampleOptions::options(), &t, &serialized).unwrap()
    );
}

#[test]
fn test_struct_in_struct() {
    let t = SomeIpType::Struct(SomeIpStruct {
        is_message_wrapper: false,
        length_field_size: None,
        name: "Outer".to_string(),
        uses_tlv_serialization: true,
        fields: vec![SomeIpField {
            id: Some(1),
            name: "inner".to_string(),
            field_type: Box::new(SomeIpType::Struct(SomeIpStruct {
                is_message_wrapper: false,
                length_field_size: None,
                name: "Inner".to_string(),
                uses_tlv_serialization: true,
                fields: vec![SomeIpField {
                    id: Some(1),
                    name: "some_field".to_string(),
                    field_type: Box::new(u32::someip_type()),
                }],
            })),
        }],
    });
    assert_eq!(
        Value::Struct(vec![None]),
        from_slice(&ExampleOptions::options(), &t, &[0, 0, 0, 0]).unwrap()
    );
}

#[test]
fn de_test_too_short() {
    let t = u32::someip_type();
    let err = from_slice(&ExampleOptions::options(), &t, &[1, 2]).unwrap_err();
    assert!(matches!(err, Error::TooShort));
}

#[test]
fn de_test_not_all_bytes_consumed() {
    // A sectioned plain struct whose section is one byte longer than its
    // fields.
    let t = SomeIpType::Struct(SomeIpStruct {
        name: "Test".to_string(),
        fields: vec![SomeIpField {
            name: "a".to_string(),
            id: None,
            field_type: Box::new(u8::someip_type()),
        }],
        uses_tlv_serialization: false,
        is_message_wrapper: false,
        length_field_size: Some(LengthFieldSize::OneByte),
    });
    let err = from_slice(&ExampleOptions::options(), &t, &[2, 7, 9]).unwrap_err();
    assert!(matches!(err, Error::NotAllBytesConsumed(1)));
}

#[test]
fn de_test_invalid_wire_type() {
    let t = SomeIpType::Struct(SomeIpStruct {
        name: "Test".to_string(),
        fields: vec![SomeIpField {
            name: "a".to_string(),
            id: Some(0),
            field_type: Box::new(u32::someip_type()),
        }],
        uses_tlv_serialization: true,
        is_message_wrapper: false,
        length_field_size: Some(LengthFieldSize::OneByte),
    });
    // Tag 0x10 0x00: wire type one byte where four bytes are expected.
    let err = from_slice(&ExampleOptions::options(), &t, &[3, 0x10, 0x00, 7]).unwrap_err();
    assert!(matches!(err, Error::InvalidWireType { .. }));
}

#[test]
fn de_test_string_odd_utf16_length() {
    let t = string_type(0, 6);
    let opts = SomeIpOptions { string_encoding: StringEncoding::Utf16, ..ExampleOptions::options() };
    let err = from_slice(&opts, &t, &[3, 0, 0x68, 0]).unwrap_err();
    assert!(matches!(
        err,
        Error::CannotCodeString(someip_codec::error::StringCodeError::OddUtf16Length)
    ));
}

#[test]
fn de_test_string_too_much_data_discard() {
    // Discard keeps the first max_size bytes as the value.
    let t = string_type(0, 2);
    assert_eq!(
        Value::Str("hi".to_string()),
        from_slice(&ExampleOptions::options(), &t, &[4, 0x68, 0x69, 0x21, 0x21]).unwrap()
    );
}

#[test]
fn de_test_string_too_much_data_fail() {
    let t = string_type(0, 2);
    let opts = SomeIpOptions {
        deserializer_action_on_too_much_data: someip_codec::options::ActionOnTooMuchData::Fail,
        ..ExampleOptions::options()
    };
    let err = from_slice(&opts, &t, &[4, 0x68, 0x69, 0x21, 0x21]).unwrap_err();
    assert!(matches!(err, Error::TooMuchData { max: 2, actual: 4 }));
}

#[test]
fn de_test_string_too_much_data_keep() {
    let t = string_type(0, 2);
    let opts = SomeIpOptions {
        deserializer_action_on_too_much_data: someip_codec::options::ActionOnTooMuchData::Keep,
        ..ExampleOptions::options()
    };
    assert_eq!(
        Value::Str("hi!!".to_string()),
        from_slice(&opts, &t, &[4, 0x68, 0x69, 0x21, 0x21]).unwrap()
    );
}

#[test]
fn de_test_sequence_too_many_elements_discard() {
    let t = SomeIpType::Sequence(SomeIpSequence {
        max_elements: 2,
        min_elements: 0,
        element_type: Box::new(i16::someip_type()),
        length_field_size: Some(LengthFieldSize::OneByte),
    });
    assert_eq!(
        Value::Sequence(vec![Value::I16(1), Value::I16(2)]),
        from_slice(&ExampleOptions::options(), &t, &[6, 0, 1, 0, 2, 0, 3]).unwrap()
    );
}

#[test]
fn de_test_sequence_not_enough_elements() {
    let t = SomeIpType::Sequence(SomeIpSequence {
        max_elements: 4,
        min_elements: 2,
        element_type: Box::new(i16::someip_type()),
        length_field_size: Some(LengthFieldSize::OneByte),
    });
    let err = from_slice(&ExampleOptions::options(), &t, &[2, 0, 1]).unwrap_err();
    assert!(matches!(err, Error::NotEnoughData { min: 2, actual: 1 }));
}
