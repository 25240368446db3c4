//! The schema model: a description of every type the codec can put on the
//! wire, together with its validity conditions and derived properties.

use vstd::prelude::*;

use crate::length_fields::LengthFieldSize;
use crate::options::SomeIpOptions;
use crate::text::str_eq;
use crate::wire_type::WireType;

verus! {

broadcast use vstd::std_specs::vec::axiom_vec_index_decreases;

/// All primitives defined by SOME/IP.
#[derive(Debug, Clone, Copy, PartialEq, Eq, Structural)]
pub enum SomeIpPrimitive {
    /// A bool.
    Bool,
    /// An u8.
    U8,
    /// An u16.
    U16,
    /// An u32.
    U32,
    /// An u64.
    U64,
    /// An i8.
    I8,
    /// An i16.
    I16,
    /// An i32.
    I32,
    /// An i64.
    I64,
    /// An f32, carried on the wire as its bit pattern.
    F32,
    /// An f64, carried on the wire as its bit pattern.
    F64,
}

impl SomeIpPrimitive {
    /// The encoded width of this primitive in bytes.
    pub open spec fn spec_len(self) -> int {
        match self {
            SomeIpPrimitive::Bool | SomeIpPrimitive::U8 | SomeIpPrimitive::I8 => 1,
            SomeIpPrimitive::U16 | SomeIpPrimitive::I16 => 2,
            SomeIpPrimitive::U32 | SomeIpPrimitive::I32 | SomeIpPrimitive::F32 => 4,
            SomeIpPrimitive::U64 | SomeIpPrimitive::I64 | SomeIpPrimitive::F64 => 8,
        }
    }

    /// See [`SomeIpPrimitive::spec_len`].
    pub fn get_len(&self) -> (r: usize)
        ensures
            r == self.spec_len(),
    {
        match self {
            SomeIpPrimitive::Bool | SomeIpPrimitive::U8 | SomeIpPrimitive::I8 => 1,
            SomeIpPrimitive::U16 | SomeIpPrimitive::I16 => 2,
            SomeIpPrimitive::U32 | SomeIpPrimitive::I32 | SomeIpPrimitive::F32 => 4,
            SomeIpPrimitive::U64 | SomeIpPrimitive::I64 | SomeIpPrimitive::F64 => 8,
        }
    }

    /// The wire type a value of this primitive carries in a TLV tag.
    pub open spec fn spec_wire_type(self) -> WireType {
        if self.spec_len() == 1 {
            WireType::OneByte
        } else if self.spec_len() == 2 {
            WireType::TwoBytes
        } else if self.spec_len() == 4 {
            WireType::FourBytes
        } else {
            WireType::EightBytes
        }
    }

    /// See [`SomeIpPrimitive::spec_wire_type`].
    pub fn get_wire_type(&self) -> (r: WireType)
        ensures
            r == self.spec_wire_type(),
    {
        match self.get_len() {
            1 => WireType::OneByte,
            2 => WireType::TwoBytes,
            4 => WireType::FourBytes,
            _ => WireType::EightBytes,
        }
    }

    /// Whether this primitive may serve as the raw type of an enum: any of
    /// the eight integer kinds.
    pub open spec fn spec_is_integer(self) -> bool {
        !(self == SomeIpPrimitive::Bool || self == SomeIpPrimitive::F32 || self
            == SomeIpPrimitive::F64)
    }
}

/// A serialized value of any enum supported by SOME/IP, in the raw type the
/// enum declares.
#[derive(Debug, Clone, Copy, PartialEq, Eq, Structural)]
pub enum SomeIpEnumValue {
    /// For enums with raw type u8.
    U8(u8),
    /// For enums with raw type u16.
    U16(u16),
    /// For enums with raw type u32.
    U32(u32),
    /// For enums with raw type u64.
    U64(u64),
    /// For enums with raw type i8.
    I8(i8),
    /// For enums with raw type i16.
    I16(i16),
    /// For enums with raw type i32.
    I32(i32),
    /// For enums with raw type i64.
    I64(i64),
}

impl SomeIpEnumValue {
    /// Whether this value is of the given raw type.
    pub open spec fn spec_matches(self, other: SomeIpPrimitive) -> bool {
        match self {
            SomeIpEnumValue::U8(_) => other == SomeIpPrimitive::U8,
            SomeIpEnumValue::U16(_) => other == SomeIpPrimitive::U16,
            SomeIpEnumValue::U32(_) => other == SomeIpPrimitive::U32,
            SomeIpEnumValue::U64(_) => other == SomeIpPrimitive::U64,
            SomeIpEnumValue::I8(_) => other == SomeIpPrimitive::I8,
            SomeIpEnumValue::I16(_) => other == SomeIpPrimitive::I16,
            SomeIpEnumValue::I32(_) => other == SomeIpPrimitive::I32,
            SomeIpEnumValue::I64(_) => other == SomeIpPrimitive::I64,
        }
    }

    /// See [`SomeIpEnumValue::spec_matches`].
    pub fn matches(&self, other: &SomeIpPrimitive) -> (r: bool)
        ensures
            r == self.spec_matches(*other),
    {
        match self {
            SomeIpEnumValue::U8(_) => matches!(other, SomeIpPrimitive::U8),
            SomeIpEnumValue::U16(_) => matches!(other, SomeIpPrimitive::U16),
            SomeIpEnumValue::U32(_) => matches!(other, SomeIpPrimitive::U32),
            SomeIpEnumValue::U64(_) => matches!(other, SomeIpPrimitive::U64),
            SomeIpEnumValue::I8(_) => matches!(other, SomeIpPrimitive::I8),
            SomeIpEnumValue::I16(_) => matches!(other, SomeIpPrimitive::I16),
            SomeIpEnumValue::I32(_) => matches!(other, SomeIpPrimitive::I32),
            SomeIpEnumValue::I64(_) => matches!(other, SomeIpPrimitive::I64),
        }
    }

    /// The raw bit pattern of this value, zero extended to 64 bits, and the
    /// width it occupies on the wire.
    pub open spec fn spec_unsigned(self) -> nat {
        match self {
            SomeIpEnumValue::U8(v) => v as nat,
            SomeIpEnumValue::U16(v) => v as nat,
            SomeIpEnumValue::U32(v) => v as nat,
            SomeIpEnumValue::U64(v) => v as nat,
            SomeIpEnumValue::I8(v) => (v as u8) as nat,
            SomeIpEnumValue::I16(v) => (v as u16) as nat,
            SomeIpEnumValue::I32(v) => (v as u32) as nat,
            SomeIpEnumValue::I64(v) => (v as u64) as nat,
        }
    }

    /// The encoded width of this value in bytes.
    pub open spec fn spec_width(self) -> int {
        match self {
            SomeIpEnumValue::U8(_) | SomeIpEnumValue::I8(_) => 1,
            SomeIpEnumValue::U16(_) | SomeIpEnumValue::I16(_) => 2,
            SomeIpEnumValue::U32(_) | SomeIpEnumValue::I32(_) => 4,
            SomeIpEnumValue::U64(_) | SomeIpEnumValue::I64(_) => 8,
        }
    }

    /// See [`SomeIpEnumValue::spec_unsigned`].
    pub fn unsigned_bits(&self) -> (r: u64)
        ensures
            r as nat == self.spec_unsigned(),
    {
        match self {
            SomeIpEnumValue::U8(v) => *v as u64,
            SomeIpEnumValue::U16(v) => *v as u64,
            SomeIpEnumValue::U32(v) => *v as u64,
            SomeIpEnumValue::U64(v) => *v,
            SomeIpEnumValue::I8(v) => (*v as u8) as u64,
            SomeIpEnumValue::I16(v) => (*v as u16) as u64,
            SomeIpEnumValue::I32(v) => (*v as u32) as u64,
            SomeIpEnumValue::I64(v) => (*v as i64) as u64,
        }
    }

    /// The name of the raw type this value belongs to.
    pub open spec fn spec_display_type(self) -> Seq<char> {
        match self {
            SomeIpEnumValue::U8(_) => "u8"@,
            SomeIpEnumValue::U16(_) => "u16"@,
            SomeIpEnumValue::U32(_) => "u32"@,
            SomeIpEnumValue::U64(_) => "u64"@,
            SomeIpEnumValue::I8(_) => "i8"@,
            SomeIpEnumValue::I16(_) => "i16"@,
            SomeIpEnumValue::I32(_) => "i32"@,
            SomeIpEnumValue::I64(_) => "i64"@,
        }
    }

    /// See [`SomeIpEnumValue::spec_display_type`].
    pub fn display_type(&self) -> (r: &'static str)
        ensures
            r@ == self.spec_display_type(),
    {
        match self {
            SomeIpEnumValue::U8(_) => "u8",
            SomeIpEnumValue::U16(_) => "u16",
            SomeIpEnumValue::U32(_) => "u32",
            SomeIpEnumValue::U64(_) => "u64",
            SomeIpEnumValue::I8(_) => "i8",
            SomeIpEnumValue::I16(_) => "i16",
            SomeIpEnumValue::I32(_) => "i32",
            SomeIpEnumValue::I64(_) => "i64",
        }
    }

    /// The decimal rendering of this value.
    pub open spec fn spec_display_value(self) -> Seq<char> {
        match self {
            SomeIpEnumValue::U8(v) => crate::decimal::spec_u64_decimal(v as nat),
            SomeIpEnumValue::U16(v) => crate::decimal::spec_u64_decimal(v as nat),
            SomeIpEnumValue::U32(v) => crate::decimal::spec_u64_decimal(v as nat),
            SomeIpEnumValue::U64(v) => crate::decimal::spec_u64_decimal(v as nat),
            SomeIpEnumValue::I8(v) => crate::decimal::spec_i64_decimal(v as int),
            SomeIpEnumValue::I16(v) => crate::decimal::spec_i64_decimal(v as int),
            SomeIpEnumValue::I32(v) => crate::decimal::spec_i64_decimal(v as int),
            SomeIpEnumValue::I64(v) => crate::decimal::spec_i64_decimal(v as int),
        }
    }

    /// Renders this value in decimal, as used in error reports.
    pub fn display_value(&self) -> (r: String)
        ensures
            r@ == self.spec_display_value(),
    {
        match self {
            SomeIpEnumValue::U8(v) => crate::decimal::u64_to_decimal(*v as u64),
            SomeIpEnumValue::U16(v) => crate::decimal::u64_to_decimal(*v as u64),
            SomeIpEnumValue::U32(v) => crate::decimal::u64_to_decimal(*v as u64),
            SomeIpEnumValue::U64(v) => crate::decimal::u64_to_decimal(*v),
            SomeIpEnumValue::I8(v) => crate::decimal::i64_to_decimal(*v as i64),
            SomeIpEnumValue::I16(v) => crate::decimal::i64_to_decimal(*v as i64),
            SomeIpEnumValue::I32(v) => crate::decimal::i64_to_decimal(*v as i64),
            SomeIpEnumValue::I64(v) => crate::decimal::i64_to_decimal(*v),
        }
    }
}

/// All the data needed to encode and decode an enum.
#[derive(Debug, PartialEq, Eq)]
pub struct SomeIpEnum {
    /// The name of the enum, used in error reports.
    pub name: String,
    /// The variants as pairs of variant name and raw value, all values of
    /// the raw type.
    pub values: Vec<(String, SomeIpEnumValue)>,
    /// The primitive type the enum is carried as.
    pub raw_type: SomeIpPrimitive,
}

/// The raw value of the first listed variant with the given name.
pub open spec fn spec_name_lookup(
    vals: Seq<(String, SomeIpEnumValue)>,
    name: Seq<char>,
) -> Option<SomeIpEnumValue>
    decreases vals.len(),
{
    if vals.len() == 0 {
        None
    } else if vals.first().0@ == name {
        Some(vals.first().1)
    } else {
        spec_name_lookup(vals.drop_first(), name)
    }
}

/// The name of the first listed variant with the given raw value.
pub open spec fn spec_value_lookup(
    vals: Seq<(String, SomeIpEnumValue)>,
    value: SomeIpEnumValue,
) -> Option<Seq<char>>
    decreases vals.len(),
{
    if vals.len() == 0 {
        None
    } else if vals.first().1 == value {
        Some(vals.first().0@)
    } else {
        spec_value_lookup(vals.drop_first(), value)
    }
}

impl SomeIpEnum {
    /// The enum is well formed: the raw type is an integer kind, every
    /// variant's value is of the raw type, and names and values are unique.
    pub open spec fn spec_valid(self) -> bool {
        &&& self.raw_type.spec_is_integer()
        &&& forall|i: int|
            0 <= i < self.values@.len() ==> (#[trigger] self.values@[i].1).spec_matches(
                self.raw_type,
            )
        &&& forall|i: int, j: int|
            0 <= i < j < self.values@.len() ==> self.values@[i].0@ != self.values@[j].0@
        &&& forall|i: int, j: int|
            0 <= i < j < self.values@.len() ==> self.values@[i].1 != self.values@[j].1
    }

    /// The raw primitive type of this enum.
    pub fn get_raw_type(&self) -> (r: &SomeIpPrimitive)
        ensures
            *r == self.raw_type,
    {
        &self.raw_type
    }

    /// The raw value of the variant with the given name, used when
    /// encoding.
    pub fn name_to_value(&self, name: &str) -> (r: Option<&SomeIpEnumValue>)
        ensures
            match r {
                Some(v) => spec_name_lookup(self.values@, name@) == Some(*v),
                None => spec_name_lookup(self.values@, name@) is None,
            },
    {
        let n = self.values.len();
        let mut i: usize = 0;
        proof {
            assert(self.values@.skip(0) =~= self.values@);
        }
        while i < n
            invariant
                i <= n == self.values@.len(),
                spec_name_lookup(self.values@, name@) == spec_name_lookup(
                    self.values@.skip(i as int),
                    name@,
                ),
            decreases n - i,
        {
            let pair = &self.values[i];
            proof {
                assert(self.values@.skip(i as int).first() == self.values@[i as int]);
                assert(self.values@.skip(i as int).drop_first() =~= self.values@.skip(i as int + 1));
            }
            if str_eq(pair.0.as_str(), name) {
                return Some(&self.values[i].1);
            }
            i = i + 1;
        }
        proof {
            assert(self.values@.skip(n as int) =~= Seq::<(String, SomeIpEnumValue)>::empty());
        }
        None
    }

    /// The name of the variant with the given raw value: the inverse of
    /// [`SomeIpEnum::name_to_value`], used when decoding.
    pub fn value_to_name(&self, value: &SomeIpEnumValue) -> (r: Option<&String>)
        ensures
            match r {
                Some(s) => spec_value_lookup(self.values@, *value) == Some(s@),
                None => spec_value_lookup(self.values@, *value) is None,
            },
    {
        let n = self.values.len();
        let mut i: usize = 0;
        proof {
            assert(self.values@.skip(0) =~= self.values@);
        }
        while i < n
            invariant
                i <= n == self.values@.len(),
                spec_value_lookup(self.values@, *value) == spec_value_lookup(
                    self.values@.skip(i as int),
                    *value,
                ),
            decreases n - i,
        {
            proof {
                assert(self.values@.skip(i as int).first() == self.values@[i as int]);
                assert(self.values@.skip(i as int).drop_first() =~= self.values@.skip(i as int + 1));
            }
            if self.values[i].1 == *value {
                return Some(&self.values[i].0);
            }
            i = i + 1;
        }
        proof {
            assert(self.values@.skip(n as int) =~= Seq::<(String, SomeIpEnumValue)>::empty());
        }
        None
    }
}

/// All the data needed to encode and decode a string, except the encoding,
/// which comes from the options.
#[derive(Debug, PartialEq, Eq)]
pub struct SomeIpString {
    /// The maximum size of the string in bytes after encoding.
    pub max_size: usize,
    /// The minimum size of the string in bytes after encoding.
    pub min_size: usize,
    /// The length field size to use for this string.
    pub length_field_size: Option<LengthFieldSize>,
}

impl SomeIpString {
    /// The string schema is well formed: the bounds are ordered and fit a
    /// four byte length field.
    pub open spec fn spec_valid(self) -> bool {
        self.min_size <= self.max_size <= u32::MAX
    }

    /// A string of this schema always occupies the same number of bytes.
    pub open spec fn spec_is_const_size(self) -> bool {
        self.min_size == self.max_size
    }

    /// The length field this string is written and read with: one is
    /// present when the size can vary or the string sits in a TLV struct.
    pub open spec fn spec_wanted_length_field(self, opts: SomeIpOptions, in_tlv: bool) -> Option<
        LengthFieldSize,
    > {
        if !self.spec_is_const_size() || in_tlv {
            opts.spec_apply_defaults(self.length_field_size)
        } else {
            None
        }
    }
}

/// All the data needed to encode and decode a sequence.
#[derive(Debug, PartialEq, Eq)]
pub struct SomeIpSequence {
    /// The maximum number of elements.
    pub max_elements: usize,
    /// The minimum number of elements.
    pub min_elements: usize,
    /// The type of the elements.
    pub element_type: Box<SomeIpType>,
    /// The length field size to use for this sequence.
    pub length_field_size: Option<LengthFieldSize>,
}

/// All the data needed to encode and decode one field of a struct.
#[derive(Debug, PartialEq, Eq)]
pub struct SomeIpField {
    /// The name of the field.
    pub name: String,
    /// The TLV id of the field: present exactly in TLV structs.
    pub id: Option<u16>,
    /// The type of the field.
    pub field_type: Box<SomeIpType>,
}

/// All the data needed to encode and decode a struct.
#[derive(Debug, PartialEq, Eq)]
pub struct SomeIpStruct {
    /// The name of the struct, used in error reports.
    pub name: String,
    /// The fields, in declaration order.
    pub fields: Vec<SomeIpField>,
    /// Whether the struct uses TLV encoding.
    pub uses_tlv_serialization: bool,
    /// Whether the struct wraps a whole message: the parameters or return
    /// values of a call, or the data of an event. Such a struct never
    /// carries a leading length field, since the enclosing header gives the
    /// length.
    pub is_message_wrapper: bool,
    /// The length field size to use for this struct.
    pub length_field_size: Option<LengthFieldSize>,
}

/// The first listed field with the given name.
pub open spec fn spec_field_by_name(fields: Seq<SomeIpField>, name: Seq<char>) -> Option<int>
    decreases fields.len(),
{
    if fields.len() == 0 {
        None
    } else if fields.first().name@ == name {
        Some(0int)
    } else {
        match spec_field_by_name(fields.drop_first(), name) {
            Some(i) => Some(i + 1),
            None => None,
        }
    }
}

/// The first listed field with the given TLV id.
pub open spec fn spec_field_by_id(fields: Seq<SomeIpField>, id: u16) -> Option<int>
    decreases fields.len(),
{
    if fields.len() == 0 {
        None
    } else if fields.first().id == Some(id) {
        Some(0int)
    } else {
        match spec_field_by_id(fields.drop_first(), id) {
            Some(i) => Some(i + 1),
            None => None,
        }
    }
}

impl SomeIpStruct {
    /// The struct wants a length field when it is not a message wrapper and
    /// either needs one — in a TLV context, or because it itself uses TLV —
    /// or names one in the schema.
    pub open spec fn spec_wanted_length_field(self, opts: SomeIpOptions, in_tlv: bool) -> Option<
        LengthFieldSize,
    > {
        if self.is_message_wrapper {
            None
        } else if in_tlv || self.uses_tlv_serialization || self.length_field_size is Some {
            opts.spec_apply_defaults(self.length_field_size)
        } else {
            None
        }
    }

    /// The number of fields.
    pub fn field_count(&self) -> (r: usize)
        ensures
            r == self.fields@.len(),
    {
        self.fields.len()
    }

    /// Whether the struct uses TLV encoding.
    pub fn uses_tlv(&self) -> (r: bool)
        ensures
            r == self.uses_tlv_serialization,
    {
        self.uses_tlv_serialization
    }

    /// The field with the given name, if any.
    pub fn field_by_name(&self, name: &str) -> (r: Option<&SomeIpField>)
        ensures
            match r {
                Some(f) => {
                    &&& spec_field_by_name(self.fields@, name@) is Some
                    &&& *f == self.fields@[spec_field_by_name(self.fields@, name@).unwrap()]
                },
                None => spec_field_by_name(self.fields@, name@) is None,
            },
    {
        match self.field_index_by_name(name) {
            Some(i) => Some(&self.fields[i]),
            None => None,
        }
    }

    /// The index of the field with the given name, if any.
    pub fn field_index_by_name(&self, name: &str) -> (r: Option<usize>)
        ensures
            match r {
                Some(i) => i < self.fields@.len() && spec_field_by_name(self.fields@, name@)
                    == Some(i as int),
                None => spec_field_by_name(self.fields@, name@) is None,
            },
    {
        let n = self.fields.len();
        let mut i: usize = 0;
        proof {
            assert(self.fields@.skip(0) =~= self.fields@);
        }
        while i < n
            invariant
                i <= n == self.fields@.len(),
                match spec_field_by_name(self.fields@.skip(i as int), name@) {
                    Some(k) => spec_field_by_name(self.fields@, name@) == Some(k + i),
                    None => spec_field_by_name(self.fields@, name@) is None,
                },
            decreases n - i,
        {
            proof {
                assert(self.fields@.skip(i as int).first() == self.fields@[i as int]);
                assert(self.fields@.skip(i as int).drop_first() =~= self.fields@.skip(i as int + 1));
            }
            if str_eq(self.fields[i].name.as_str(), name) {
                return Some(i);
            }
            i = i + 1;
        }
        proof {
            assert(self.fields@.skip(n as int) =~= Seq::<SomeIpField>::empty());
        }
        None
    }

    /// The field with the given TLV id, if any.
    pub fn field_by_id(&self, id: u16) -> (r: Option<&SomeIpField>)
        ensures
            match r {
                Some(f) => {
                    &&& spec_field_by_id(self.fields@, id) is Some
                    &&& *f == self.fields@[spec_field_by_id(self.fields@, id).unwrap()]
                },
                None => spec_field_by_id(self.fields@, id) is None,
            },
    {
        match self.field_index_by_id(id) {
            Some(i) => Some(&self.fields[i]),
            None => None,
        }
    }

    /// The index of the field with the given TLV id, if any.
    pub fn field_index_by_id(&self, id: u16) -> (r: Option<usize>)
        ensures
            match r {
                Some(i) => i < self.fields@.len() && spec_field_by_id(self.fields@, id) == Some(
                    i as int,
                ),
                None => spec_field_by_id(self.fields@, id) is None,
            },
    {
        let n = self.fields.len();
        let mut i: usize = 0;
        proof {
            assert(self.fields@.skip(0) =~= self.fields@);
        }
        while i < n
            invariant
                i <= n == self.fields@.len(),
                match spec_field_by_id(self.fields@.skip(i as int), id) {
                    Some(k) => spec_field_by_id(self.fields@, id) == Some(k + i),
                    None => spec_field_by_id(self.fields@, id) is None,
                },
            decreases n - i,
        {
            proof {
                assert(self.fields@.skip(i as int).first() == self.fields@[i as int]);
                assert(self.fields@.skip(i as int).drop_first() =~= self.fields@.skip(i as int + 1));
            }
            let matches_id = match self.fields[i].id {
                Some(fid) => fid == id,
                None => false,
            };
            if matches_id {
                return Some(i);
            }
            i = i + 1;
        }
        proof {
            assert(self.fields@.skip(n as int) =~= Seq::<SomeIpField>::empty());
        }
        None
    }
}

/// All the data needed to encode and decode any type supported by SOME/IP.
#[derive(Debug, PartialEq, Eq)]
pub enum SomeIpType {
    /// A primitive.
    Primitive(SomeIpPrimitive),
    /// An enum.
    Enum(SomeIpEnum),
    /// A string.
    String(SomeIpString),
    /// A sequence.
    Sequence(SomeIpSequence),
    /// A struct.
    Struct(SomeIpStruct),
}

impl SomeIpType {
    /// The wire type a value of this type carries in a TLV tag: the fixed
    /// widths for primitives and enums, length delimited otherwise.
    pub open spec fn spec_wire_type(self) -> WireType {
        match self {
            SomeIpType::Primitive(p) => p.spec_wire_type(),
            SomeIpType::Enum(e) => e.raw_type.spec_wire_type(),
            _ => WireType::LengthDelimitedFromConfig,
        }
    }

    /// See [`SomeIpType::spec_wire_type`].
    pub fn get_wire_type(&self) -> (r: WireType)
        ensures
            r == self.spec_wire_type(),
    {
        match self {
            SomeIpType::Primitive(p) => p.get_wire_type(),
            SomeIpType::Enum(e) => e.raw_type.get_wire_type(),
            _ => WireType::LengthDelimitedFromConfig,
        }
    }

    /// Whether every value of this type occupies the same number of bytes
    /// outside a TLV context.
    pub open spec fn spec_is_const_size(self) -> bool
        decreases self, 1int, 0int,
    {
        match self {
            SomeIpType::Primitive(_) => true,
            SomeIpType::Enum(_) => true,
            SomeIpType::String(s) => s.spec_is_const_size(),
            SomeIpType::Sequence(s) => s.min_elements == s.max_elements
                && s.element_type.spec_is_const_size(),
            SomeIpType::Struct(s) => !s.uses_tlv_serialization && spec_fields_const_size(s, 0),
        }
    }

    /// The schema is well formed, per the invariants of the data model:
    /// ordered bounds, integer enum raw types with matching unique values,
    /// ids exactly on TLV struct fields and unique, all of it recursively.
    pub open spec fn spec_valid(self) -> bool
        decreases self, 1int, 0int,
    {
        match self {
            SomeIpType::Primitive(_) => true,
            SomeIpType::Enum(e) => e.spec_valid(),
            SomeIpType::String(s) => s.spec_valid(),
            SomeIpType::Sequence(s) => {
                &&& s.min_elements <= s.max_elements <= u32::MAX
                &&& s.element_type.spec_valid()
            },
            SomeIpType::Struct(s) => {
                &&& forall|i: int|
                    0 <= i < s.fields@.len() ==> (#[trigger] s.fields@[i].id is Some)
                        == s.uses_tlv_serialization
                &&& forall|i: int|
                    0 <= i < s.fields@.len() ==> (#[trigger] s.fields@[i].id) is Some
                        ==> s.fields@[i].id.unwrap() <= 0xFFF
                &&& forall|i: int, j: int|
                    0 <= i < j < s.fields@.len() && s.fields@[i].id is Some ==> s.fields@[i].id
                        != s.fields@[j].id
                &&& spec_fields_valid(s, 0)
            },
        }
    }

    /// The length field this type is written and read with, in the given
    /// TLV context; `None` when its encoding carries none.
    pub open spec fn spec_wanted_length_field(self, opts: SomeIpOptions, in_tlv: bool) -> Option<
        LengthFieldSize,
    > {
        match self {
            SomeIpType::Primitive(_) => None,
            SomeIpType::Enum(_) => None,
            SomeIpType::String(s) => s.spec_wanted_length_field(opts, in_tlv),
            SomeIpType::Sequence(s) => {
                if !self.spec_is_const_size() || in_tlv {
                    opts.spec_apply_defaults(s.length_field_size)
                } else {
                    None
                }
            },
            SomeIpType::Struct(s) => s.spec_wanted_length_field(opts, in_tlv),
        }
    }

    /// Every node that needs a length field in its context — from the
    /// schema or from the configured default — has one.
    pub open spec fn spec_lf_ok(self, opts: SomeIpOptions, in_tlv: bool) -> bool
        decreases self, 1int, 0int,
    {
        match self {
            SomeIpType::Primitive(_) => true,
            SomeIpType::Enum(_) => true,
            SomeIpType::String(s) => (!s.spec_is_const_size() || in_tlv)
                ==> opts.spec_apply_defaults(s.length_field_size) is Some,
            SomeIpType::Sequence(s) => {
                &&& ((!self.spec_is_const_size() || in_tlv) ==> opts.spec_apply_defaults(
                    s.length_field_size,
                ) is Some)
                &&& s.element_type.spec_lf_ok(opts, false)
            },
            SomeIpType::Struct(s) => {
                &&& ((!s.is_message_wrapper && (in_tlv || s.uses_tlv_serialization))
                    ==> opts.spec_apply_defaults(s.length_field_size) is Some)
                &&& spec_fields_lf_ok(s, opts, 0)
            },
        }
    }

    /// No TLV struct has a message wrapper struct among its fields: such a
    /// field would carry a length-delimited wire type yet no length
    /// section, so no tag could announce it.
    pub open spec fn spec_tlv_clean(self) -> bool
        decreases self, 1int, 0int,
    {
        match self {
            SomeIpType::Primitive(_) => true,
            SomeIpType::Enum(_) => true,
            SomeIpType::String(_) => true,
            SomeIpType::Sequence(s) => s.element_type.spec_tlv_clean(),
            SomeIpType::Struct(s) => spec_fields_tlv_clean(s, 0),
        }
    }
}

/// Helper for [`SomeIpType::spec_is_const_size`] over a struct's fields
/// from index `i` on.
pub open spec fn spec_fields_const_size(s: SomeIpStruct, i: int) -> bool
    decreases s, 0int, s.fields@.len() - i,
{
    if i < 0 || i >= s.fields@.len() {
        true
    } else {
        s.fields@[i].field_type.spec_is_const_size() && spec_fields_const_size(s, i + 1)
    }
}

/// Helper for [`SomeIpType::spec_valid`] over a struct's fields from index
/// `i` on.
pub open spec fn spec_fields_valid(s: SomeIpStruct, i: int) -> bool
    decreases s, 0int, s.fields@.len() - i,
{
    if i < 0 || i >= s.fields@.len() {
        true
    } else {
        s.fields@[i].field_type.spec_valid() && spec_fields_valid(s, i + 1)
    }
}

/// Helper for [`SomeIpType::spec_lf_ok`] over a struct's fields from index
/// `i` on.
pub open spec fn spec_fields_lf_ok(s: SomeIpStruct, opts: SomeIpOptions, i: int) -> bool
    decreases s, 0int, s.fields@.len() - i,
{
    if i < 0 || i >= s.fields@.len() {
        true
    } else {
        s.fields@[i].field_type.spec_lf_ok(opts, s.uses_tlv_serialization) && spec_fields_lf_ok(
            s,
            opts,
            i + 1,
        )
    }
}

/// Helper for [`SomeIpType::spec_tlv_clean`] over a struct's fields from
/// index `i` on.
pub open spec fn spec_fields_tlv_clean(s: SomeIpStruct, i: int) -> bool
    decreases s, 0int, s.fields@.len() - i,
{
    if i < 0 || i >= s.fields@.len() {
        true
    } else {
        let ok = if s.uses_tlv_serialization {
            match *s.fields@[i].field_type {
                SomeIpType::Struct(inner) => !inner.is_message_wrapper,
                _ => true,
            }
        } else {
            true
        };
        ok && s.fields@[i].field_type.spec_tlv_clean() && spec_fields_tlv_clean(s, i + 1)
    }
}

/// A struct's field type is structurally below the struct type, for
/// termination of schema recursion.
pub proof fn lemma_struct_field_decreases(t: SomeIpType, i: int)
    requires
        t is Struct,
        0 <= i < t->Struct_0.fields@.len(),
    ensures
        decreases_to!(t => *t->Struct_0.fields@[i].field_type),
{
    let s = t->Struct_0;
    assert(decreases_to!(t => t->Struct_0));
    assert(decreases_to!(s => s.fields));
    assert(decreases_to!(s.fields => s.fields[i]));
    assert(decreases_to!(s.fields[i] => *s.fields[i].field_type));
}

impl SomeIpType {
    /// See [`SomeIpType::spec_is_const_size`].
    pub fn is_const_size(&self) -> (r: bool)
        ensures
            r == self.spec_is_const_size(),
        decreases *self, 1int, 0int,
    {
        match self {
            SomeIpType::Primitive(_) => true,
            SomeIpType::Enum(_) => true,
            SomeIpType::String(s) => s.min_size == s.max_size,
            SomeIpType::Sequence(s) => s.min_elements == s.max_elements
                && s.element_type.is_const_size(),
            SomeIpType::Struct(s) => {
                if s.uses_tlv_serialization {
                    return false;
                }
                let n = s.fields.len();
                let mut i: usize = 0;
                while i < n
                    invariant
                        i <= n == s.fields@.len(),
                        *self == SomeIpType::Struct(*s),
                        spec_fields_const_size(*s, 0) == spec_fields_const_size(*s, i as int),
                    decreases n - i,
                {
                    proof {
                        lemma_struct_field_decreases(*self, i as int);
                    }
                    if !s.fields[i].field_type.is_const_size() {
                        return false;
                    }
                    i = i + 1;
                }
                true
            },
        }
    }

    /// See [`SomeIpType::spec_wanted_length_field`].
    pub fn wanted_length_field(&self, opts: &SomeIpOptions, in_tlv: bool) -> (r: Option<
        LengthFieldSize,
    >)
        ensures
            r == self.spec_wanted_length_field(*opts, in_tlv),
    {
        match self {
            SomeIpType::Primitive(_) => None,
            SomeIpType::Enum(_) => None,
            SomeIpType::String(s) => {
                if s.min_size != s.max_size || in_tlv {
                    opts.apply_defaults(s.length_field_size)
                } else {
                    None
                }
            },
            SomeIpType::Sequence(s) => {
                if !self.is_const_size() || in_tlv {
                    opts.apply_defaults(s.length_field_size)
                } else {
                    None
                }
            },
            SomeIpType::Struct(s) => {
                if s.is_message_wrapper {
                    None
                } else if in_tlv || s.uses_tlv_serialization || s.length_field_size.is_some() {
                    opts.apply_defaults(s.length_field_size)
                } else {
                    None
                }
            },
        }
    }

    /// The exact number of bytes a value of this type occupies, meaningful
    /// for constant-size types: the primitive width, the declared string
    /// size, the element count times the element size, or the sum of the
    /// field sizes plus a declared length field.
    pub open spec fn spec_const_len(self) -> int
        decreases self, 1int, 0int,
    {
        match self {
            SomeIpType::Primitive(p) => p.spec_len(),
            SomeIpType::Enum(e) => e.raw_type.spec_len(),
            SomeIpType::String(s) => s.max_size as int,
            SomeIpType::Sequence(s) => s.max_elements * s.element_type.spec_const_len(),
            SomeIpType::Struct(s) => spec_fields_const_len(s, 0) + (
            if !s.is_message_wrapper && s.length_field_size is Some {
                s.length_field_size.unwrap().spec_num_bytes()
            } else {
                0
            }),
        }
    }

    /// See [`SomeIpType::spec_const_len`]: `None` when the size does not
    /// fit the machine.
    pub fn const_len(&self) -> (r: Option<usize>)
        ensures
            match r {
                Some(v) => v == self.spec_const_len(),
                None => self.spec_const_len() > usize::MAX,
            },
        decreases *self, 1int, 0int,
    {
        match self {
            SomeIpType::Primitive(p) => Some(p.get_len()),
            SomeIpType::Enum(e) => Some(e.raw_type.get_len()),
            SomeIpType::String(s) => Some(s.max_size),
            SomeIpType::Sequence(s) => {
                match s.element_type.const_len() {
                    Some(elem_len) => s.max_elements.checked_mul(elem_len),
                    None => {
                        proof {
                            if s.max_elements == 0 {
                                vstd::arithmetic::mul::lemma_mul_basics(
                                    s.element_type.spec_const_len(),
                                );
                                assert(s.max_elements * s.element_type.spec_const_len() == 0);
                            }
                        }
                        if s.max_elements == 0 {
                            Some(0)
                        } else {
                            proof {
                                vstd::arithmetic::mul::lemma_mul_inequality(
                                    1,
                                    s.max_elements as int,
                                    s.element_type.spec_const_len(),
                                );
                                vstd::arithmetic::mul::lemma_mul_is_commutative(
                                    s.max_elements as int,
                                    s.element_type.spec_const_len(),
                                );
                            }
                            None
                        }
                    },
                }
            },
            SomeIpType::Struct(s) => {
                let n = s.fields.len();
                let mut i: usize = 0;
                let mut total: usize = 0;
                while i < n
                    invariant
                        i <= n == s.fields@.len(),
                        *self == SomeIpType::Struct(*s),
                        total == spec_fields_const_len_prefix(*s, i as int),
                        spec_fields_const_len(*s, 0) == total + spec_fields_const_len(*s, i as int),
                    decreases n - i,
                {
                    proof {
                        lemma_fields_const_len_nonneg(*s, i as int + 1);
                        lemma_struct_field_decreases(*self, i as int);
                    }
                    match s.fields[i].field_type.const_len() {
                        Some(flen) => {
                            match total.checked_add(flen) {
                                Some(t) => {
                                    total = t;
                                },
                                None => {
                                    proof {
                                        lemma_fields_const_len_nonneg(*s, i as int + 1);
                                    }
                                    return None;
                                },
                            }
                        },
                        None => {
                            proof {
                                lemma_fields_const_len_nonneg(*s, i as int + 1);
                                assert(spec_fields_const_len_prefix(*s, i as int) >= 0)
                                    by {
                                    lemma_fields_const_len_prefix_nonneg(*s, i as int);
                                }
                            }
                            return None;
                        },
                    }
                    i = i + 1;
                }
                let extra: usize = if !s.is_message_wrapper {
                    match s.length_field_size {
                        Some(l) => l.num_bytes(),
                        None => 0,
                    }
                } else {
                    0
                };
                total.checked_add(extra)
            },
        }
    }
}

/// The summed constant sizes of a struct's fields from index `i` on.
pub open spec fn spec_fields_const_len(s: SomeIpStruct, i: int) -> int
    decreases s, 0int, s.fields@.len() - i,
{
    if i < 0 || i >= s.fields@.len() {
        0
    } else {
        s.fields@[i].field_type.spec_const_len() + spec_fields_const_len(s, i + 1)
    }
}

/// The summed constant sizes of a struct's fields before index `i`.
pub open spec fn spec_fields_const_len_prefix(s: SomeIpStruct, i: int) -> int {
    spec_fields_const_len(s, 0) - spec_fields_const_len(s, i)
}

proof fn lemma_fields_const_len_nonneg(s: SomeIpStruct, i: int)
    ensures
        spec_fields_const_len(s, i) >= 0,
    decreases s, 1int, s.fields@.len() - i,
{
    if 0 <= i < s.fields@.len() {
        lemma_fields_const_len_nonneg(s, i + 1);
        lemma_type_const_len_nonneg(*s.fields@[i].field_type);
    }
}

proof fn lemma_type_const_len_nonneg(t: SomeIpType)
    ensures
        t.spec_const_len() >= 0,
    decreases t, 2int, 0int,
{
    match t {
        SomeIpType::Sequence(s) => {
            lemma_type_const_len_nonneg(*s.element_type);
            vstd::arithmetic::mul::lemma_mul_nonnegative(
                s.max_elements as int,
                s.element_type.spec_const_len(),
            );
        },
        SomeIpType::Struct(s) => {
            lemma_fields_const_len_nonneg(s, 0);
        },
        _ => {},
    }
}

proof fn lemma_fields_const_len_prefix_nonneg(s: SomeIpStruct, i: int)
    ensures
        spec_fields_const_len_prefix(s, i) >= 0,
    decreases i,
{
    if i < 0 {
        assert(spec_fields_const_len(s, i) == 0int);
        lemma_fields_const_len_nonneg(s, 0);
    } else if i == 0 {
    } else if i > s.fields@.len() {
        lemma_fields_const_len_prefix_nonneg(s, i - 1);
        assert(spec_fields_const_len(s, i) == spec_fields_const_len(s, i - 1));
    } else {
        lemma_fields_const_len_prefix_nonneg(s, i - 1);
        lemma_type_const_len_nonneg(*s.fields@[i - 1].field_type);
        assert(spec_fields_const_len(s, i - 1) == s.fields@[i - 1].field_type.spec_const_len()
            + spec_fields_const_len(s, i));
    }
}


impl SomeIpType {
    /// Decides [`SomeIpType::spec_lf_ok`]: whether every node that needs a
    /// length field in its context has one, from the schema or the default.
    pub fn has_needed_length_fields(&self, opts: &SomeIpOptions, in_tlv: bool) -> (r: bool)
        ensures
            r == self.spec_lf_ok(*opts, in_tlv),
        decreases *self, 2int, 0int,
    {
        match self {
            SomeIpType::Primitive(_) => true,
            SomeIpType::Enum(_) => true,
            SomeIpType::String(s) => {
                if s.min_size != s.max_size || in_tlv {
                    opts.apply_defaults(s.length_field_size).is_some()
                } else {
                    true
                }
            },
            SomeIpType::Sequence(s) => {
                let own = if !self.is_const_size() || in_tlv {
                    opts.apply_defaults(s.length_field_size).is_some()
                } else {
                    true
                };
                own && s.element_type.has_needed_length_fields(opts, false)
            },
            SomeIpType::Struct(s) => {
                if !s.is_message_wrapper && (in_tlv || s.uses_tlv_serialization)
                    && opts.apply_defaults(s.length_field_size).is_none() {
                    return false;
                }
                let n = s.fields.len();
                let mut i: usize = 0;
                while i < n
                    invariant
                        i <= n == s.fields@.len(),
                        *self == SomeIpType::Struct(*s),
                        spec_fields_lf_ok(*s, *opts, 0) == spec_fields_lf_ok(*s, *opts, i as int),
                    decreases n - i,
                {
                    proof {
                        lemma_struct_field_decreases(*self, i as int);
                    }
                    if !s.fields[i].field_type.has_needed_length_fields(
                        opts,
                        s.uses_tlv_serialization,
                    ) {
                        return false;
                    }
                    i = i + 1;
                }
                true
            },
        }
    }

    /// Decides [`SomeIpType::spec_tlv_clean`]: no TLV struct carries a
    /// message wrapper struct among its fields.
    pub fn is_tlv_clean(&self) -> (r: bool)
        ensures
            r == self.spec_tlv_clean(),
        decreases *self, 2int, 0int,
    {
        match self {
            SomeIpType::Primitive(_) => true,
            SomeIpType::Enum(_) => true,
            SomeIpType::String(_) => true,
            SomeIpType::Sequence(s) => s.element_type.is_tlv_clean(),
            SomeIpType::Struct(s) => {
                let n = s.fields.len();
                let mut i: usize = 0;
                while i < n
                    invariant
                        i <= n == s.fields@.len(),
                        *self == SomeIpType::Struct(*s),
                        spec_fields_tlv_clean(*s, 0) == spec_fields_tlv_clean(*s, i as int),
                    decreases n - i,
                {
                    proof {
                        lemma_struct_field_decreases(*self, i as int);
                    }
                    let field = &s.fields[i];
                    if s.uses_tlv_serialization {
                        let is_wrapper = match &*field.field_type {
                            SomeIpType::Struct(inner) => inner.is_message_wrapper,
                            _ => false,
                        };
                        if is_wrapper {
                            return false;
                        }
                    }
                    if !field.field_type.is_tlv_clean() {
                        return false;
                    }
                    i = i + 1;
                }
                true
            },
        }
    }
}

/// Checks a schema for well-formedness; see each type's `spec_conforms`.
pub trait VerifySomeIpType {
    /// The well-formedness condition that [`VerifySomeIpType::verify`]
    /// decides.
    spec fn spec_conforms(&self) -> bool;

    /// Decides well-formedness.
    fn verify(&self) -> (r: bool)
        ensures
            r == self.spec_conforms(),
    ;
}

impl SomeIpEnum {
    fn check_valid(&self) -> (r: bool)
        ensures
            r == self.spec_valid(),
    {
        let integer_raw = !(matches!(
            self.raw_type,
            SomeIpPrimitive::Bool | SomeIpPrimitive::F32 | SomeIpPrimitive::F64
        ));
        if !integer_raw {
            return false;
        }
        let n = self.values.len();
        let mut i: usize = 0;
        while i < n
            invariant
                i <= n == self.values@.len(),
                self.raw_type.spec_is_integer(),
                forall|k: int|
                    0 <= k < i ==> (#[trigger] self.values@[k].1).spec_matches(self.raw_type),
                forall|a: int, b: int|
                    0 <= a < b < self.values@.len() && a < i ==> self.values@[a].0@
                        != self.values@[b].0@,
                forall|a: int, b: int|
                    0 <= a < b < self.values@.len() && a < i ==> self.values@[a].1
                        != self.values@[b].1,
            decreases n - i,
        {
            if !self.values[i].1.matches(&self.raw_type) {
                return false;
            }
            let mut j: usize = i + 1;
            while j < n
                invariant
                    i < j <= n == self.values@.len(),
                    forall|b: int| i < b < j ==> self.values@[i as int].0@ != self.values@[b].0@,
                    forall|b: int| i < b < j ==> self.values@[i as int].1 != self.values@[b].1,
                decreases n - j,
            {
                if str_eq(self.values[i].0.as_str(), self.values[j].0.as_str()) {
                    return false;
                }
                if self.values[i].1 == self.values[j].1 {
                    return false;
                }
                j = j + 1;
            }
            i = i + 1;
        }
        true
    }
}

impl VerifySomeIpType for SomeIpEnum {
    open spec fn spec_conforms(&self) -> bool {
        self.spec_valid()
    }

    fn verify(&self) -> (r: bool) {
        self.check_valid()
    }
}

impl VerifySomeIpType for SomeIpString {
    open spec fn spec_conforms(&self) -> bool {
        self.spec_valid()
    }

    fn verify(&self) -> (r: bool) {
        self.min_size <= self.max_size && self.max_size <= 0xFFFF_FFFF
    }
}

impl SomeIpType {
    fn check_valid(&self) -> (r: bool)
        ensures
            r == self.spec_valid(),
        decreases *self, 2int, 0int,
    {
        match self {
            SomeIpType::Primitive(_) => true,
            SomeIpType::Enum(e) => e.check_valid(),
            SomeIpType::String(s) => s.min_size <= s.max_size && s.max_size <= 0xFFFF_FFFF,
            SomeIpType::Sequence(s) => s.min_elements <= s.max_elements && s.max_elements
                <= 0xFFFF_FFFF && s.element_type.check_valid(),
            SomeIpType::Struct(s) => {
                let n = s.fields.len();
                let mut i: usize = 0;
                while i < n
                    invariant
                        i <= n == s.fields@.len(),
                        *self == SomeIpType::Struct(*s),
                        forall|k: int|
                            0 <= k < i ==> (#[trigger] s.fields@[k].id is Some)
                                == s.uses_tlv_serialization,
                        forall|k: int|
                            0 <= k < i ==> (#[trigger] s.fields@[k].id) is Some
                                ==> s.fields@[k].id.unwrap() <= 0xFFF,
                        forall|a: int, b: int|
                            0 <= a < b < s.fields@.len() && a < i && s.fields@[a].id is Some
                                ==> s.fields@[a].id != s.fields@[b].id,
                        spec_fields_valid(*s, 0) == spec_fields_valid(*s, i as int),
                    decreases n - i,
                {
                    let field = &s.fields[i];
                    proof {
                        assert(s.fields@[i as int].id == field.id);
                    }
                    match field.id {
                        Some(id) => {
                            proof {
                                assert(s.fields@[i as int].id is Some);
                            }
                            if !s.uses_tlv_serialization {
                                return false;
                            }
                            if id > 0xFFF {
                                return false;
                            }
                            let mut j: usize = i + 1;
                            while j < n
                                invariant
                                    i < j <= n == s.fields@.len(),
                                    *self == SomeIpType::Struct(*s),
                                    s.fields@[i as int].id == Some(id),
                                    forall|b: int|
                                        i < b < j ==> s.fields@[i as int].id != s.fields@[b].id,
                                decreases n - j,
                            {
                                let same = match s.fields[j].id {
                                    Some(other) => other == id,
                                    None => false,
                                };
                                if same {
                                    proof {
                                        assert(s.fields@[i as int].id is Some);
                                        assert(s.fields@[i as int].id == s.fields@[j as int].id);
                                    }
                                    return false;
                                }
                                j = j + 1;
                            }
                        },
                        None => {
                            if s.uses_tlv_serialization {
                                return false;
                            }
                        },
                    }
                    proof {
                        lemma_struct_field_decreases(*self, i as int);
                    }
                    if !field.field_type.check_valid() {
                        return false;
                    }
                    i = i + 1;
                }
                true
            },
        }
    }
}

impl VerifySomeIpType for SomeIpSequence {
    open spec fn spec_conforms(&self) -> bool {
        &&& self.min_elements <= self.max_elements <= u32::MAX
        &&& self.element_type.spec_valid()
    }

    fn verify(&self) -> (r: bool) {
        self.min_elements <= self.max_elements && self.max_elements <= 0xFFFF_FFFF
            && self.element_type.check_valid()
    }
}

impl VerifySomeIpType for SomeIpField {
    open spec fn spec_conforms(&self) -> bool {
        &&& (self.id is Some ==> self.id.unwrap() <= 0xFFF)
        &&& self.field_type.spec_valid()
    }

    fn verify(&self) -> (r: bool) {
        let id_ok = match self.id {
            Some(id) => id <= 0xFFF,
            None => true,
        };
        id_ok && self.field_type.check_valid()
    }
}

impl VerifySomeIpType for SomeIpStruct {
    open spec fn spec_conforms(&self) -> bool {
        SomeIpType::Struct(*self).spec_valid()
    }

    fn verify(&self) -> (r: bool) {
        hold_struct_valid(self)
    }
}

impl VerifySomeIpType for SomeIpType {
    open spec fn spec_conforms(&self) -> bool {
        self.spec_valid()
    }

    fn verify(&self) -> (r: bool) {
        self.check_valid()
    }
}

/// Decides well-formedness of a struct schema by checking it as a type.
fn hold_struct_valid(s: &SomeIpStruct) -> (r: bool)
    ensures
        r == SomeIpType::Struct(*s).spec_valid(),
{
    let n = s.fields.len();
    let mut i: usize = 0;
    while i < n
        invariant
            i <= n == s.fields@.len(),
            forall|k: int|
                0 <= k < i ==> (#[trigger] s.fields@[k].id is Some) == s.uses_tlv_serialization,
            forall|k: int|
                0 <= k < i ==> (#[trigger] s.fields@[k].id) is Some ==> s.fields@[k].id.unwrap()
                    <= 0xFFF,
            forall|a: int, b: int|
                0 <= a < b < s.fields@.len() && a < i && s.fields@[a].id is Some ==> s.fields@[a].id
                    != s.fields@[b].id,
            spec_fields_valid(*s, 0) == spec_fields_valid(*s, i as int),
        decreases n - i,
    {
        let field = &s.fields[i];
        proof {
            assert(s.fields@[i as int].id == field.id);
        }
        match field.id {
            Some(id) => {
                proof {
                    assert(s.fields@[i as int].id is Some);
                }
                if !s.uses_tlv_serialization {
                    return false;
                }
                if id > 0xFFF {
                    return false;
                }
                let mut j: usize = i + 1;
                while j < n
                    invariant
                        i < j <= n == s.fields@.len(),
                        s.fields@[i as int].id == Some(id),
                        forall|b: int| i < b < j ==> s.fields@[i as int].id != s.fields@[b].id,
                    decreases n - j,
                {
                    let same = match s.fields[j].id {
                        Some(other) => other == id,
                        None => false,
                    };
                    if same {
                        return false;
                    }
                    j = j + 1;
                }
            },
            None => {
                if s.uses_tlv_serialization {
                    return false;
                }
            },
        }
        if !field.field_type.check_valid() {
            return false;
        }
        i = i + 1;
    }
    true
}

/// Supplies the schema describing a host type's wire layout.
pub trait SomeIp {
    /// The schema this type's values are laid out by.
    spec fn spec_someip_type() -> SomeIpType;

    /// The schema for values of this type.
    fn someip_type() -> (t: SomeIpType)
        ensures
            t == Self::spec_someip_type(),
    ;
}

impl SomeIp for bool {
    open spec fn spec_someip_type() -> SomeIpType {
        SomeIpType::Primitive(SomeIpPrimitive::Bool)
    }

    fn someip_type() -> (t: SomeIpType) {
        SomeIpType::Primitive(SomeIpPrimitive::Bool)
    }
}

impl SomeIp for u8 {
    open spec fn spec_someip_type() -> SomeIpType {
        SomeIpType::Primitive(SomeIpPrimitive::U8)
    }

    fn someip_type() -> (t: SomeIpType) {
        SomeIpType::Primitive(SomeIpPrimitive::U8)
    }
}

impl SomeIp for u16 {
    open spec fn spec_someip_type() -> SomeIpType {
        SomeIpType::Primitive(SomeIpPrimitive::U16)
    }

    fn someip_type() -> (t: SomeIpType) {
        SomeIpType::Primitive(SomeIpPrimitive::U16)
    }
}

impl SomeIp for u32 {
    open spec fn spec_someip_type() -> SomeIpType {
        SomeIpType::Primitive(SomeIpPrimitive::U32)
    }

    fn someip_type() -> (t: SomeIpType) {
        SomeIpType::Primitive(SomeIpPrimitive::U32)
    }
}

impl SomeIp for u64 {
    open spec fn spec_someip_type() -> SomeIpType {
        SomeIpType::Primitive(SomeIpPrimitive::U64)
    }

    fn someip_type() -> (t: SomeIpType) {
        SomeIpType::Primitive(SomeIpPrimitive::U64)
    }
}

impl SomeIp for i8 {
    open spec fn spec_someip_type() -> SomeIpType {
        SomeIpType::Primitive(SomeIpPrimitive::I8)
    }

    fn someip_type() -> (t: SomeIpType) {
        SomeIpType::Primitive(SomeIpPrimitive::I8)
    }
}

impl SomeIp for i16 {
    open spec fn spec_someip_type() -> SomeIpType {
        SomeIpType::Primitive(SomeIpPrimitive::I16)
    }

    fn someip_type() -> (t: SomeIpType) {
        SomeIpType::Primitive(SomeIpPrimitive::I16)
    }
}

impl SomeIp for i32 {
    open spec fn spec_someip_type() -> SomeIpType {
        SomeIpType::Primitive(SomeIpPrimitive::I32)
    }

    fn someip_type() -> (t: SomeIpType) {
        SomeIpType::Primitive(SomeIpPrimitive::I32)
    }
}

impl SomeIp for i64 {
    open spec fn spec_someip_type() -> SomeIpType {
        SomeIpType::Primitive(SomeIpPrimitive::I64)
    }

    fn someip_type() -> (t: SomeIpType) {
        SomeIpType::Primitive(SomeIpPrimitive::I64)
    }
}

} // verus!
