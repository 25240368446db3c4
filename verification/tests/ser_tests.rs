use someip_codec::length_fields::LengthFieldSize;
use someip_codec::options::{ByteOrder, ExampleOptions, SomeIpOptions, StringEncoding};
use someip_codec::ser::to_vec;
use someip_codec::types::{
    SomeIp, SomeIpEnum, SomeIpEnumValue, SomeIpField, SomeIpPrimitive, SomeIpSequence,
    SomeIpString, SomeIpStruct, SomeIpType,
};
use someip_codec::value::Value;
use bytes::BufMut;
use bytes::BytesMut;

fn le_options() -> SomeIpOptions {
    SomeIpOptions { byte_order: ByteOrder::LittleEndian, ..ExampleOptions::options() }
}

fn u8_seq(min: usize, max: usize, lf: Option<LengthFieldSize>) -> SomeIpType {
    SomeIpType::Sequence(SomeIpSequence {
        max_elements: max,
        min_elements: min,
        element_type: Box::new(u8::someip_type()),
        length_field_size: lf,
    })
}

fn test_struct_type(ids: [Option<u16>; 3], tlv: bool, wrapper: bool, lf: Option<LengthFieldSize>) -> SomeIpType {
    SomeIpType::Struct(SomeIpStruct {
        name: "Test".to_string(),
        fields: vec![
            SomeIpField {
                name: "first".to_string(),
                id: ids[0],
                field_type: Box::new(i16::someip_type()),
            },
            SomeIpField {
                name: "second".to_string(),
                id: ids[1],
                field_type: Box::new(u32::someip_type()),
            },
            SomeIpField {
                name: "third".to_string(),
                id: ids[2],
                field_type: Box::new(u8_seq(1, 5, Some(LengthFieldSize::OneByte))),
            },
        ],
        uses_tlv_serialization: tlv,
        is_message_wrapper: wrapper,
        length_field_size: lf,
    })
}

fn test_struct_value() -> Value {
    Value::Struct(vec![
        Some(Value::I16(-1)),
        Some(Value::U32(42)),
        Some(Value::Bytes(vec![1, 2, 3])),
    ])
}

#[test]
fn ser_test_bool() {
    let opts = ExampleOptions::options();
    let t = bool::someip_type();
    assert_eq!(vec![0], to_vec(&opts, &t, &Value::Bool(false)).unwrap());
    assert_eq!(vec![1], to_vec(&opts, &t, &Value::Bool(true)).unwrap());
}

#[test]
fn ser_test_u8() {
    let opts = ExampleOptions::options();
    let t = u8::someip_type();
    assert_eq!(vec![42], to_vec(&opts, &t, &Value::U8(42)).unwrap());
    assert_eq!(vec![0], to_vec(&opts, &t, &Value::U8(0)).unwrap());
    assert_eq!(vec![255], to_vec(&opts, &t, &Value::U8(u8::MAX)).unwrap());
}

#[test]
fn ser_test_i8() {
    let opts = ExampleOptions::options();
    let t = i8::someip_type();
    assert_eq!(vec![42], to_vec(&opts, &t, &Value::I8(42)).unwrap());
    assert_eq!(vec![0], to_vec(&opts, &t, &Value::I8(0)).unwrap());
    assert_eq!(vec![0xFF], to_vec(&opts, &t, &Value::I8(-1)).unwrap());
    assert_eq!(vec![0x7F], to_vec(&opts, &t, &Value::I8(i8::MAX)).unwrap());
    assert_eq!(vec![0x80], to_vec(&opts, &t, &Value::I8(i8::MIN)).unwrap());
}

#[test]
fn ser_test_u16_endianness() {
    let t = u16::someip_type();
    assert_eq!(
        vec![0x12, 0x34],
        to_vec(&ExampleOptions::options(), &t, &Value::U16(0x1234)).unwrap()
    );
    assert_eq!(vec![0x34, 0x12], to_vec(&le_options(), &t, &Value::U16(0x1234)).unwrap());
}

#[test]
fn ser_test_u64_endianness() {
    let t = u64::someip_type();
    assert_eq!(
        vec![0, 0, 0, 0, 0, 0, 0, 42],
        to_vec(&ExampleOptions::options(), &t, &Value::U64(42)).unwrap()
    );
    assert_eq!(
        vec![42, 0, 0, 0, 0, 0, 0, 0],
        to_vec(&le_options(), &t, &Value::U64(42)).unwrap()
    );
}

#[test]
fn ser_test_f32_bits() {
    let t = SomeIpType::Primitive(SomeIpPrimitive::F32);
    assert_eq!(
        vec![0x3F, 0x80, 0, 0],
        to_vec(&ExampleOptions::options(), &t, &Value::F32Bits(1f32.to_bits())).unwrap()
    );
    assert_eq!(
        vec![0xBF, 0x80, 0, 0],
        to_vec(&ExampleOptions::options(), &t, &Value::F32Bits((-1f32).to_bits())).unwrap()
    );
}

#[test]
fn ser_test_f64_bits() {
    let t = SomeIpType::Primitive(SomeIpPrimitive::F64);
    assert_eq!(
        vec![0x3F, 0xF0, 0, 0, 0, 0, 0, 0],
        to_vec(&ExampleOptions::options(), &t, &Value::F64Bits(1f64.to_bits())).unwrap()
    );
}

fn test_enum_type() -> SomeIpType {
    SomeIpType::Enum(SomeIpEnum {
        name: "TestEnum".to_string(),
        raw_type: SomeIpPrimitive::I16,
        values: vec![
            ("First".to_string(), SomeIpEnumValue::I16(0)),
            ("Second".to_string(), SomeIpEnumValue::I16(42)),
            ("Third".to_string(), SomeIpEnumValue::I16(-1337)),
        ],
    })
}

#[test]
fn ser_test_enum() {
    let opts = ExampleOptions::options();
    let t = test_enum_type();
    let result = to_vec(&opts, &t, &Value::EnumVariant("First".to_string())).unwrap();
    assert_eq!(vec![0, 0], result);
    let result = to_vec(&opts, &t, &Value::EnumVariant("Second".to_string())).unwrap();
    assert_eq!(vec![0, 42], result);
    let result = to_vec(&opts, &t, &Value::EnumVariant("Third".to_string())).unwrap();
    assert_eq!(vec![0xFA, 0xC7], result);
}

#[test]
fn ser_test_bytes() {
    let t = u8_seq(0, 32, Some(LengthFieldSize::TwoBytes));
    let mut bytes = BytesMut::with_capacity(32);

    bytes.put_u32(0x12345678);
    assert_eq!(
        vec![0, 4, 0x12, 0x34, 0x56, 0x78],
        to_vec(&ExampleOptions::options(), &t, &Value::Bytes(bytes.to_vec())).unwrap()
    );

    bytes.put_u32(0x90ABCDEF);
    assert_eq!(
        vec![0, 8, 0x12, 0x34, 0x56, 0x78, 0x90, 0xAB, 0xCD, 0xEF],
        to_vec(&ExampleOptions::options(), &t, &Value::Bytes(bytes.to_vec())).unwrap()
    );
}

#[test]
fn ser_test_bytes_no_length_field() {
    let t = u8_seq(4, 4, Some(LengthFieldSize::TwoBytes));
    let mut bytes = BytesMut::with_capacity(4);
    bytes.put_u32(0x12345678);
    assert_eq!(
        vec![0x12, 0x34, 0x56, 0x78],
        to_vec(&ExampleOptions::options(), &t, &Value::Bytes(bytes.to_vec())).unwrap()
    );
}

#[test]
fn ser_test_i16_seq() {
    let t = SomeIpType::Sequence(SomeIpSequence {
        max_elements: 4,
        min_elements: 0,
        element_type: Box::new(i16::someip_type()),
        length_field_size: Some(LengthFieldSize::TwoBytes),
    });
    let values = Value::Sequence(vec![Value::I16(42), Value::I16(-5)]);
    assert_eq!(
        vec![0, 4, 0, 42, 0xFF, 0xFB],
        to_vec(&ExampleOptions::options(), &t, &values).unwrap()
    );
}

#[test]
fn ser_test_i16_seq_no_length_field() {
    let t = SomeIpType::Sequence(SomeIpSequence {
        max_elements: 4,
        min_elements: 4,
        element_type: Box::new(i16::someip_type()),
        length_field_size: Some(LengthFieldSize::TwoBytes),
    });
    let values = Value::Sequence(vec![
        Value::I16(42),
        Value::I16(-5),
        Value::I16(1),
        Value::I16(1337),
    ]);
    assert_eq!(
        vec![0, 42, 0xFF, 0xFB, 0, 1, 0x5, 0x39],
        to_vec(&ExampleOptions::options(), &t, &values).unwrap()
    );
}

#[test]
fn ser_test_2_dimensional_seq() {
    let t = SomeIpType::Sequence(SomeIpSequence {
        max_elements: 4,
        min_elements: 0,
        element_type: Box::new(SomeIpType::Sequence(SomeIpSequence {
            max_elements: 3,
            min_elements: 0,
            element_type: Box::new(i8::someip_type()),
            length_field_size: Some(LengthFieldSize::OneByte),
        })),
        length_field_size: Some(LengthFieldSize::TwoBytes),
    });
    let values = Value::Sequence(vec![
        Value::Sequence(vec![Value::I8(1), Value::I8(-2), Value::I8(3)]),
        Value::Sequence(vec![Value::I8(42)]),
        Value::Sequence(vec![]),
    ]);
    assert_eq!(
        vec![0, 7, 3, 1, 0xFE, 3, 1, 42, 0],
        to_vec(&ExampleOptions::options(), &t, &values).unwrap()
    );
}

fn string_type(min: usize, max: usize) -> SomeIpType {
    SomeIpType::String(SomeIpString {
        max_size: max,
        min_size: min,
        length_field_size: Some(LengthFieldSize::OneByte),
    })
}

#[test]
fn ser_test_string() {
    let t = string_type(0, 4);
    assert_eq!(
        vec![2, 0x68, 0x69],
        to_vec(&ExampleOptions::options(), &t, &Value::Str("hi".to_string())).unwrap()
    );
}

#[test]
fn ser_test_string_no_length_field() {
    let t = string_type(2, 2);
    assert_eq!(
        vec![0x68, 0x69],
        to_vec(&ExampleOptions::options(), &t, &Value::Str("hi".to_string())).unwrap()
    );
}

#[test]
fn ser_test_string_utf8_bom() {
    let t = string_type(0, 5);
    let opts = SomeIpOptions { string_with_bom: true, ..ExampleOptions::options() };
    assert_eq!(
        vec![5, 0xEF, 0xBB, 0xBF, 0x68, 0x69],
        to_vec(&opts, &t, &Value::Str("hi".to_string())).unwrap()
    );
}

#[test]
fn ser_test_string_utf8_terminator() {
    let t = string_type(0, 5);
    let opts = SomeIpOptions { string_with_terminator: true, ..ExampleOptions::options() };
    assert_eq!(
        vec![3, 0x68, 0x69, 0],
        to_vec(&opts, &t, &Value::Str("hi".to_string())).unwrap()
    );
}

#[test]
fn ser_test_string_utf16() {
    let t = string_type(0, 4);
    let opts = SomeIpOptions { string_encoding: StringEncoding::Utf16, ..ExampleOptions::options() };
    assert_eq!(
        vec![4, 0, 0x68, 0, 0x69],
        to_vec(&opts, &t, &Value::Str("hi".to_string())).unwrap()
    );
}

#[test]
fn ser_test_string_utf16_bom() {
    let t = string_type(0, 6);
    let opts = SomeIpOptions {
        string_encoding: StringEncoding::Utf16,
        string_with_bom: true,
        ..ExampleOptions::options()
    };
    assert_eq!(
        vec![6, 0xFE, 0xFF, 0, 0x68, 0, 0x69],
        to_vec(&opts, &t, &Value::Str("hi".to_string())).unwrap()
    );
}

#[test]
fn ser_test_string_utf16_bom_le() {
    let t = string_type(0, 6);
    let opts = SomeIpOptions {
        byte_order: ByteOrder::LittleEndian,
        string_encoding: StringEncoding::Utf16,
        string_with_bom: true,
        ..ExampleOptions::options()
    };
    assert_eq!(
        vec![6, 0xFF, 0xFE, 0x68, 0, 0x69, 0],
        to_vec(&opts, &t, &Value::Str("hi".to_string())).unwrap()
    );
}

#[test]
fn ser_test_string_utf16_terminator() {
    let t = string_type(0, 6);
    let opts = SomeIpOptions {
        string_encoding: StringEncoding::Utf16,
        string_with_terminator: true,
        ..ExampleOptions::options()
    };
    assert_eq!(
        vec![6, 0, 0x68, 0, 0x69, 0, 0],
        to_vec(&opts, &t, &Value::Str("hi".to_string())).unwrap()
    );
}

#[test]
fn ser_test_struct() {
    let t = test_struct_type([None, None, None], false, false, None);
    assert_eq!(
        vec![0xFF, 0xFF, 0, 0, 0, 42, 3, 1, 2, 3],
        to_vec(&ExampleOptions::options(), &t, &test_struct_value()).unwrap()
    );
}

#[test]
fn ser_test_struct_beginning_length_field() {
    let t = test_struct_type([None, None, None], false, false, Some(LengthFieldSize::TwoBytes));
    assert_eq!(
        vec![0, 10, 0xFF, 0xFF, 0, 0, 0, 42, 3, 1, 2, 3],
        to_vec(&ExampleOptions::options(), &t, &test_struct_value()).unwrap()
    );
}

#[test]
fn ser_test_struct_tlv() {
    let t = test_struct_type(
        [Some(1), Some(2), Some(3)],
        true,
        false,
        Some(LengthFieldSize::TwoBytes),
    );
    assert_eq!(
        vec![0, 16, 0x10, 0x01, 0xFF, 0xFF, 0x20, 0x02, 0, 0, 0, 42, 0x50, 0x03, 3, 1, 2, 3],
        to_vec(&ExampleOptions::options(), &t, &test_struct_value()).unwrap()
    );
}

#[test]
fn ser_test_struct_tlv_message_wrapper() {
    let t = test_struct_type(
        [Some(1), Some(2), Some(3)],
        true,
        true,
        Some(LengthFieldSize::TwoBytes),
    );
    assert_eq!(
        vec![0x10, 0x01, 0xFF, 0xFF, 0x20, 0x02, 0, 0, 0, 42, 0x50, 0x03, 3, 1, 2, 3],
        to_vec(&ExampleOptions::options(), &t, &test_struct_value()).unwrap()
    );
}

#[test]
fn ser_test_uses_smallest_length_field_size() {
    let t = SomeIpType::Struct(SomeIpStruct {
        name: "Test".to_string(),
        fields: vec![SomeIpField {
            name: "a".to_string(),
            id: Some(0),
            field_type: Box::new(u8_seq(0, 1 << 24, Some(LengthFieldSize::FourBytes))),
        }],
        uses_tlv_serialization: true,
        is_message_wrapper: false,
        length_field_size: Some(LengthFieldSize::FourBytes),
    });
    let value = Value::Struct(vec![Some(Value::Bytes(vec![1, 2, 3, 4]))]);
    assert_eq!(
        vec![0, 0, 0, 7, 0x50, 0x00, 4, 1, 2, 3, 4],
        to_vec(&ExampleOptions::options(), &t, &value).unwrap()
    );
}

#[test]
fn ser_test_optional() {
    let t = SomeIpType::Struct(SomeIpStruct {
        name: "Test".to_string(),
        fields: vec![SomeIpField {
            name: "a".to_string(),
            id: Some(0),
            field_type: Box::new(u32::someip_type()),
        }],
        uses_tlv_serialization: true,
        is_message_wrapper: false,
        length_field_size: Some(LengthFieldSize::OneByte),
    });
    assert_eq!(
        vec![6, 0x20, 0x00, 0, 0, 0, 42],
        to_vec(
            &ExampleOptions::options(),
            &t,
            &Value::Struct(vec![Some(Value::U32(42))])
        )
        .unwrap()
    );
    assert_eq!(
        vec![0],
        to_vec(&ExampleOptions::options(), &t, &Value::Struct(vec![None])).unwrap()
    );
}

#[test]
fn ser_test_newtype() {
    let t = SomeIpType::String(SomeIpString {
        min_size: 0,
        max_size: 42,
        length_field_size: Some(LengthFieldSize::OneByte),
    });
    assert_eq!(
        vec![2, 0x68, 0x69],
        to_vec(&ExampleOptions::options(), &t, &Value::Str("hi".to_string())).unwrap()
    );
}

#[test]
fn ser_test_too_long_for_length_field() {
    let t = SomeIpType::String(SomeIpString {
        min_size: 0,
        max_size: 400,
        length_field_size: Some(LengthFieldSize::OneByte),
    });
    let long = "x".repeat(300);
    let err = to_vec(&ExampleOptions::options(), &t, &Value::Str(long)).unwrap_err();
    assert!(matches!(
        err,
        someip_codec::Error::TooLong { actual_length: 300, length_field_size: LengthFieldSize::OneByte }
    ));
}

#[test]
fn ser_test_string_too_short() {
    let t = string_type(4, 8);
    let err = to_vec(&ExampleOptions::options(), &t, &Value::Str("hi".to_string())).unwrap_err();
    assert!(matches!(err, someip_codec::Error::NotEnoughData { min: 4, actual: 2 }));
}

#[test]
fn ser_test_sequence_too_long() {
    let t = u8_seq(0, 2, Some(LengthFieldSize::OneByte));
    let err = to_vec(&ExampleOptions::options(), &t, &Value::Bytes(vec![1, 2, 3])).unwrap_err();
    assert!(matches!(err, someip_codec::Error::TooMuchData { max: 2, actual: 3 }));
}

#[test]
fn ser_test_ascii_rejects_non_ascii() {
    let t = string_type(0, 16);
    let opts = SomeIpOptions { string_encoding: StringEncoding::Ascii, ..ExampleOptions::options() };
    let err = to_vec(&opts, &t, &Value::Str("héllo".to_string())).unwrap_err();
    assert!(matches!(
        err,
        someip_codec::Error::CannotCodeString(someip_codec::error::StringCodeError::NonAsciiContent)
    ));
}
