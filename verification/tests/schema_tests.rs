use someip_codec::de::from_slice;
use someip_codec::length_fields::LengthFieldSize;
use someip_codec::options::{
    ByteOrder, ExampleOptions, LengthFieldSizeSelection, SomeIpOptions, StringEncoding,
};
use someip_codec::ser::to_vec;
use someip_codec::types::{
    SomeIp, SomeIpEnum, SomeIpEnumValue, SomeIpField, SomeIpSequence, SomeIpString, SomeIpStruct,
    SomeIpType, VerifySomeIpType,
};
use someip_codec::value::Value;

#[test]
fn test_ord_impl() {
    assert!(LengthFieldSize::OneByte <= LengthFieldSize::OneByte);
    assert!(LengthFieldSize::TwoBytes <= LengthFieldSize::TwoBytes);
    assert!(LengthFieldSize::FourBytes <= LengthFieldSize::FourBytes);
    assert!(LengthFieldSize::OneByte < LengthFieldSize::TwoBytes);
    assert!(LengthFieldSize::OneByte < LengthFieldSize::FourBytes);
    assert!(LengthFieldSize::TwoBytes < LengthFieldSize::FourBytes);

    assert!(LengthFieldSize::TwoBytes > LengthFieldSize::OneByte);
    assert!(LengthFieldSize::FourBytes > LengthFieldSize::OneByte);
    assert!(LengthFieldSize::FourBytes > LengthFieldSize::TwoBytes);
}

#[test]
fn test_minimum_length_for() {
    assert_eq!(Some(LengthFieldSize::OneByte), LengthFieldSize::minimum_length_for(0));
    assert_eq!(Some(LengthFieldSize::OneByte), LengthFieldSize::minimum_length_for(255));
    assert_eq!(Some(LengthFieldSize::TwoBytes), LengthFieldSize::minimum_length_for(256));
    assert_eq!(Some(LengthFieldSize::TwoBytes), LengthFieldSize::minimum_length_for(0xFFFF));
    assert_eq!(Some(LengthFieldSize::FourBytes), LengthFieldSize::minimum_length_for(0x10000));
}

#[test]
fn test_verify_schemas() {
    let good = SomeIpString { min_size: 0, max_size: 42, length_field_size: None };
    assert!(good.verify());
    let bad = SomeIpString { min_size: 43, max_size: 42, length_field_size: None };
    assert!(!bad.verify());

    let bad_enum = SomeIpEnum {
        name: "E".to_string(),
        raw_type: someip_codec::types::SomeIpPrimitive::U8,
        values: vec![
            ("A".to_string(), SomeIpEnumValue::U8(1)),
            ("B".to_string(), SomeIpEnumValue::U8(1)),
        ],
    };
    assert!(!bad_enum.verify());

    let mixed_ids = SomeIpStruct {
        name: "S".to_string(),
        fields: vec![
            SomeIpField { name: "a".to_string(), id: Some(1), field_type: Box::new(u8::someip_type()) },
            SomeIpField { name: "b".to_string(), id: None, field_type: Box::new(u8::someip_type()) },
        ],
        uses_tlv_serialization: true,
        is_message_wrapper: false,
        length_field_size: None,
    };
    assert!(!mixed_ids.verify());
}

#[test]
fn test_field_lookups() {
    let st = SomeIpStruct {
        name: "S".to_string(),
        fields: vec![
            SomeIpField { name: "a".to_string(), id: Some(1), field_type: Box::new(u8::someip_type()) },
            SomeIpField { name: "b".to_string(), id: Some(2), field_type: Box::new(u16::someip_type()) },
        ],
        uses_tlv_serialization: true,
        is_message_wrapper: false,
        length_field_size: None,
    };
    assert_eq!(2, st.field_count());
    assert!(st.uses_tlv());
    assert_eq!("a", st.field_by_name("a").unwrap().name);
    assert!(st.field_by_name("c").is_none());
    assert_eq!("b", st.field_by_id(2).unwrap().name);
    assert!(st.field_by_id(3).is_none());
}

#[test]
fn test_enum_lookups() {
    let e = SomeIpEnum {
        name: "E".to_string(),
        raw_type: someip_codec::types::SomeIpPrimitive::I16,
        values: vec![
            ("First".to_string(), SomeIpEnumValue::I16(0)),
            ("Third".to_string(), SomeIpEnumValue::I16(-1337)),
        ],
    };
    assert_eq!(someip_codec::types::SomeIpPrimitive::I16, *e.get_raw_type());
    assert_eq!(&SomeIpEnumValue::I16(-1337), e.name_to_value("Third").unwrap());
    assert!(e.name_to_value("Missing").is_none());
    assert_eq!("Third", e.value_to_name(&SomeIpEnumValue::I16(-1337)).unwrap());
    assert!(e.value_to_name(&SomeIpEnumValue::I16(5)).is_none());
}

#[test]
fn test_display_value() {
    assert_eq!("0", SomeIpEnumValue::U8(0).display_value());
    assert_eq!("255", SomeIpEnumValue::U8(255).display_value());
    assert_eq!("-1337", SomeIpEnumValue::I16(-1337).display_value());
    assert_eq!("18446744073709551615", SomeIpEnumValue::U64(u64::MAX).display_value());
    assert_eq!("-9223372036854775808", SomeIpEnumValue::I64(i64::MIN).display_value());
    assert_eq!("u16", SomeIpEnumValue::U16(1).display_type());
}

fn scenario_struct(ids: [Option<u16>; 3], tlv: bool, lf: Option<LengthFieldSize>) -> SomeIpType {
    SomeIpType::Struct(SomeIpStruct {
        name: "Scenario".to_string(),
        fields: vec![
            SomeIpField {
                name: "first".to_string(),
                id: ids[0],
                field_type: Box::new(i16::someip_type()),
            },
            SomeIpField {
                name: "second".to_string(),
                id: ids[1],
                field_type: Box::new(u32::someip_type()),
            },
            SomeIpField {
                name: "third".to_string(),
                id: ids[2],
                field_type: Box::new(SomeIpType::Sequence(SomeIpSequence {
                    max_elements: 5,
                    min_elements: 1,
                    element_type: Box::new(u8::someip_type()),
                    length_field_size: Some(LengthFieldSize::OneByte),
                })),
            },
        ],
        uses_tlv_serialization: tlv,
        is_message_wrapper: false,
        length_field_size: lf,
    })
}

fn scenario_value() -> Value {
    Value::Struct(vec![
        Some(Value::I16(-1)),
        Some(Value::U32(42)),
        Some(Value::Bytes(vec![1, 2, 3])),
    ])
}

#[test]
fn scenario_enum_third() {
    let t = SomeIpType::Enum(SomeIpEnum {
        name: "Scenario".to_string(),
        raw_type: someip_codec::types::SomeIpPrimitive::I16,
        values: vec![
            ("First".to_string(), SomeIpEnumValue::I16(0)),
            ("Second".to_string(), SomeIpEnumValue::I16(42)),
            ("Third".to_string(), SomeIpEnumValue::I16(-1337)),
        ],
    });
    let opts = ExampleOptions::options();
    let encoded = to_vec(&opts, &t, &Value::EnumVariant("Third".to_string())).unwrap();
    assert_eq!(vec![0xFA, 0xC7], encoded);
    assert_eq!(
        Value::EnumVariant("Third".to_string()),
        from_slice(&opts, &t, &encoded).unwrap()
    );
}

#[test]
fn scenario_plain_struct() {
    let t = scenario_struct([None, None, None], false, None);
    let encoded = to_vec(&ExampleOptions::options(), &t, &scenario_value()).unwrap();
    assert_eq!(vec![0xFF, 0xFF, 0x00, 0x00, 0x00, 0x2A, 0x03, 0x01, 0x02, 0x03], encoded);
}

#[test]
fn scenario_plain_struct_outer_length() {
    let t = scenario_struct([None, None, None], false, Some(LengthFieldSize::TwoBytes));
    let encoded = to_vec(&ExampleOptions::options(), &t, &scenario_value()).unwrap();
    assert_eq!(
        vec![0x00, 0x0A, 0xFF, 0xFF, 0x00, 0x00, 0x00, 0x2A, 0x03, 0x01, 0x02, 0x03],
        encoded
    );
}

#[test]
fn scenario_tlv_struct_legacy_wire_type() {
    let t = scenario_struct([Some(1), Some(2), Some(3)], true, Some(LengthFieldSize::TwoBytes));
    let opts = SomeIpOptions { serializer_use_legacy_wire_type: true, ..ExampleOptions::options() };
    let encoded = to_vec(&opts, &t, &scenario_value()).unwrap();
    assert_eq!(
        vec![
            0x00, 0x10, 0x10, 0x01, 0xFF, 0xFF, 0x20, 0x02, 0x00, 0x00, 0x00, 0x2A, 0x40, 0x03,
            0x03, 0x01, 0x02, 0x03
        ],
        encoded
    );
    assert_eq!(scenario_value(), from_slice(&opts, &t, &encoded).unwrap());
}

#[test]
fn scenario_tlv_optional() {
    let t = SomeIpType::Struct(SomeIpStruct {
        name: "Scenario".to_string(),
        fields: vec![SomeIpField {
            name: "a".to_string(),
            id: Some(0),
            field_type: Box::new(u32::someip_type()),
        }],
        uses_tlv_serialization: true,
        is_message_wrapper: false,
        length_field_size: Some(LengthFieldSize::OneByte),
    });
    let opts = ExampleOptions::options();
    assert_eq!(
        vec![0x06, 0x20, 0x00, 0x00, 0x00, 0x00, 0x2A],
        to_vec(&opts, &t, &Value::Struct(vec![Some(Value::U32(42))])).unwrap()
    );
    assert_eq!(vec![0x00], to_vec(&opts, &t, &Value::Struct(vec![None])).unwrap());
}

#[test]
fn scenario_utf16_be_no_bom() {
    let t = SomeIpType::String(SomeIpString {
        min_size: 0,
        max_size: 8,
        length_field_size: Some(LengthFieldSize::OneByte),
    });
    let opts = SomeIpOptions {
        string_encoding: StringEncoding::Utf16Be,
        ..ExampleOptions::options()
    };
    let encoded = to_vec(&opts, &t, &Value::Str("hi".to_string())).unwrap();
    assert_eq!(vec![0x04, 0x00, 0x68, 0x00, 0x69], encoded);
    assert_eq!(Value::Str("hi".to_string()), from_slice(&opts, &t, &encoded).unwrap());
}

#[test]
fn scenario_utf16_le_with_bom() {
    let t = SomeIpType::String(SomeIpString {
        min_size: 0,
        max_size: 8,
        length_field_size: Some(LengthFieldSize::OneByte),
    });
    let opts = SomeIpOptions {
        string_encoding: StringEncoding::Utf16Le,
        string_with_bom: true,
        ..ExampleOptions::options()
    };
    let encoded = to_vec(&opts, &t, &Value::Str("hi".to_string())).unwrap();
    assert_eq!(vec![0x06, 0xFF, 0xFE, 0x68, 0x00, 0x69, 0x00], encoded);
    assert_eq!(Value::Str("hi".to_string()), from_slice(&opts, &t, &encoded).unwrap());
}

#[test]
fn scenario_round_trip_tlv() {
    // Encode, decode, and compare: the TLV scenario struct with the default
    // options, which announce the specific length field width in the tag.
    let t = scenario_struct([Some(1), Some(2), Some(3)], true, Some(LengthFieldSize::TwoBytes));
    let opts = ExampleOptions::options();
    let encoded = to_vec(&opts, &t, &scenario_value()).unwrap();
    assert_eq!(scenario_value(), from_slice(&opts, &t, &encoded).unwrap());
}

#[test]
fn scenario_wire_type_compatibility() {
    // Encoding with a one byte width and decoding with a schema that names
    // a four byte width succeeds and yields the same value: the tag
    // announces the actual width.
    let enc_schema = scenario_struct(
        [Some(1), Some(2), Some(3)],
        true,
        Some(LengthFieldSize::TwoBytes),
    );
    let mut dec_fields = vec![
        SomeIpField {
            name: "first".to_string(),
            id: Some(1),
            field_type: Box::new(i16::someip_type()),
        },
        SomeIpField {
            name: "second".to_string(),
            id: Some(2),
            field_type: Box::new(u32::someip_type()),
        },
    ];
    dec_fields.push(SomeIpField {
        name: "third".to_string(),
        id: Some(3),
        field_type: Box::new(SomeIpType::Sequence(SomeIpSequence {
            max_elements: 5,
            min_elements: 1,
            element_type: Box::new(u8::someip_type()),
            length_field_size: Some(LengthFieldSize::FourBytes),
        })),
    });
    let dec_schema = SomeIpType::Struct(SomeIpStruct {
        name: "Scenario".to_string(),
        fields: dec_fields,
        uses_tlv_serialization: true,
        is_message_wrapper: false,
        length_field_size: Some(LengthFieldSize::TwoBytes),
    });
    let opts = ExampleOptions::options();
    let encoded = to_vec(&opts, &enc_schema, &scenario_value()).unwrap();
    assert_eq!(scenario_value(), from_slice(&opts, &dec_schema, &encoded).unwrap());
}

#[test]
fn test_unknown_tag_tolerance() {
    // Appending well-formed unknown tag/value pairs anywhere in a TLV
    // section leaves the decoded value unchanged.
    let t = SomeIpType::Struct(SomeIpStruct {
        name: "Scenario".to_string(),
        fields: vec![SomeIpField {
            name: "a".to_string(),
            id: Some(0),
            field_type: Box::new(u32::someip_type()),
        }],
        uses_tlv_serialization: true,
        is_message_wrapper: false,
        length_field_size: Some(LengthFieldSize::OneByte),
    });
    let opts = ExampleOptions::options();
    let plain = vec![0x06, 0x20, 0x00, 0, 0, 0, 42];
    let with_unknown = vec![
        0x0F, 0x10, 0x01, 0xAB, 0xCD, 0x20, 0x00, 0, 0, 0, 42, 0x50, 0x02, 0x02, 0xEE, 0xFF,
    ];
    assert_eq!(
        from_slice(&opts, &t, &plain).unwrap(),
        from_slice(&opts, &t, &with_unknown).unwrap()
    );
}

#[test]
fn test_deterministic_encoding() {
    let t = scenario_struct([Some(1), Some(2), Some(3)], true, Some(LengthFieldSize::TwoBytes));
    let opts = ExampleOptions::options();
    let a = to_vec(&opts, &t, &scenario_value()).unwrap();
    let b = to_vec(&opts, &t, &scenario_value()).unwrap();
    assert_eq!(a, b);
}

#[test]
fn test_byte_order_symmetry() {
    let be = ExampleOptions::options();
    let le = SomeIpOptions { byte_order: ByteOrder::LittleEndian, ..ExampleOptions::options() };
    let t = u32::someip_type();
    let mut b = to_vec(&be, &t, &Value::U32(0x12345678)).unwrap();
    let l = to_vec(&le, &t, &Value::U32(0x12345678)).unwrap();
    b.reverse();
    assert_eq!(b, l);
}

#[test]
fn test_as_configured_selection() {
    // With the as-configured policy a TLV section keeps the configured
    // width when the data fits it.
    let t = scenario_struct([Some(1), Some(2), Some(3)], true, Some(LengthFieldSize::TwoBytes));
    let opts = SomeIpOptions {
        serializer_length_field_size_selection: LengthFieldSizeSelection::AsConfigured,
        ..ExampleOptions::options()
    };
    let encoded = to_vec(&opts, &t, &scenario_value()).unwrap();
    // The sequence field keeps its configured one byte length field, and the
    // tag announces it.
    assert_eq!(
        vec![0, 16, 0x10, 0x01, 0xFF, 0xFF, 0x20, 0x02, 0, 0, 0, 42, 0x50, 0x03, 3, 1, 2, 3],
        encoded
    );
}
