//! The in-memory values the codec serializes and deserializes, and what it
//! means for a value to match a schema.

use vstd::prelude::*;

use crate::types::{spec_name_lookup, SomeIpPrimitive, SomeIpSequence, SomeIpStruct, SomeIpType};

verus! {

broadcast use vstd::std_specs::vec::axiom_vec_index_decreases;

/// A value of any type the codec can put on the wire.
///
/// Floating point values travel as their IEEE-754 bit patterns, which is
/// exactly what the wire carries. A struct value lists one entry per schema
/// field, in declaration order; `None` marks an absent optional field, which
/// only TLV structs allow. A byte sequence may stand for any sequence of u8.
#[derive(Debug, PartialEq)]
pub enum Value {
    /// A bool.
    Bool(bool),
    /// An u8.
    U8(u8),
    /// An u16.
    U16(u16),
    /// An u32.
    U32(u32),
    /// An u64.
    U64(u64),
    /// An i8.
    I8(i8),
    /// An i16.
    I16(i16),
    /// An i32.
    I32(i32),
    /// An i64.
    I64(i64),
    /// An f32 as its bit pattern.
    F32Bits(u32),
    /// An f64 as its bit pattern.
    F64Bits(u64),
    /// A string.
    Str(String),
    /// A sequence of u8, the fast path for byte data.
    Bytes(Vec<u8>),
    /// A sequence of values of the element type.
    Sequence(Vec<Value>),
    /// A struct: one entry per schema field in declaration order, `None`
    /// for an absent optional field.
    Struct(Vec<Option<Value>>),
    /// An enum variant, by name.
    EnumVariant(String),
}

/// The mathematical image of a [`Value`]: strings become character
/// sequences and containers become sequences, so that equality of images is
/// structural.
pub enum ValueV {
    /// Image of [`Value::Bool`].
    Bool(bool),
    /// Image of [`Value::U8`].
    U8(u8),
    /// Image of [`Value::U16`].
    U16(u16),
    /// Image of [`Value::U32`].
    U32(u32),
    /// Image of [`Value::U64`].
    U64(u64),
    /// Image of [`Value::I8`].
    I8(i8),
    /// Image of [`Value::I16`].
    I16(i16),
    /// Image of [`Value::I32`].
    I32(i32),
    /// Image of [`Value::I64`].
    I64(i64),
    /// Image of [`Value::F32Bits`].
    F32Bits(u32),
    /// Image of [`Value::F64Bits`].
    F64Bits(u64),
    /// Image of [`Value::Str`].
    Str(Seq<char>),
    /// Image of [`Value::Bytes`].
    Bytes(Seq<u8>),
    /// Image of [`Value::Sequence`].
    Sequence(Seq<ValueV>),
    /// Image of [`Value::Struct`].
    Struct(Seq<Option<ValueV>>),
    /// Image of [`Value::EnumVariant`].
    EnumVariant(Seq<char>),
}

/// The image of a value; see [`ValueV`].
pub open spec fn deep_value(v: Value) -> ValueV
    decreases v, 2int, 0int,
{
    match v {
        Value::Bool(b) => ValueV::Bool(b),
        Value::U8(x) => ValueV::U8(x),
        Value::U16(x) => ValueV::U16(x),
        Value::U32(x) => ValueV::U32(x),
        Value::U64(x) => ValueV::U64(x),
        Value::I8(x) => ValueV::I8(x),
        Value::I16(x) => ValueV::I16(x),
        Value::I32(x) => ValueV::I32(x),
        Value::I64(x) => ValueV::I64(x),
        Value::F32Bits(x) => ValueV::F32Bits(x),
        Value::F64Bits(x) => ValueV::F64Bits(x),
        Value::Str(s) => ValueV::Str(s@),
        Value::Bytes(b) => ValueV::Bytes(b@),
        Value::Sequence(vs) => ValueV::Sequence(deep_values(vs, 0)),
        Value::Struct(fs) => ValueV::Struct(deep_fields(fs, 0)),
        Value::EnumVariant(n) => ValueV::EnumVariant(n@),
    }
}

/// The images of the elements of a sequence value, from index `i` on.
pub open spec fn deep_values(vs: Vec<Value>, i: int) -> Seq<ValueV>
    decreases vs, 1int, vs@.len() - i,
{
    if i < 0 || i >= vs@.len() {
        Seq::empty()
    } else {
        seq![deep_value(vs[i])] + deep_values(vs, i + 1)
    }
}

/// The images of the field entries of a struct value, from index `i` on.
pub open spec fn deep_fields(fs: Vec<Option<Value>>, i: int) -> Seq<Option<ValueV>>
    decreases fs, 1int, fs@.len() - i,
{
    if i < 0 || i >= fs@.len() {
        Seq::empty()
    } else {
        seq![deep_opt(fs[i])] + deep_fields(fs, i + 1)
    }
}

/// The image of an optional field entry.
pub open spec fn deep_opt(o: Option<Value>) -> Option<ValueV>
    decreases o, 2int, 0int,
{
    match o {
        Some(inner) => Some(deep_value(inner)),
        None => None,
    }
}

impl DeepView for Value {
    type V = ValueV;

    open spec fn deep_view(&self) -> ValueV {
        deep_value(*self)
    }
}

/// Whether a value fits a schema: the kinds line up, enum variants exist in
/// the schema, sequence elements match the element type, struct values
/// carry one entry per field that matches the field's type, and absent
/// entries appear only in TLV structs.
pub open spec fn spec_value_matches(t: SomeIpType, v: ValueV) -> bool
    decreases t, 1int, 0int,
{
    match t {
        SomeIpType::Primitive(p) => match p {
            SomeIpPrimitive::Bool => v is Bool,
            SomeIpPrimitive::U8 => v is U8,
            SomeIpPrimitive::U16 => v is U16,
            SomeIpPrimitive::U32 => v is U32,
            SomeIpPrimitive::U64 => v is U64,
            SomeIpPrimitive::I8 => v is I8,
            SomeIpPrimitive::I16 => v is I16,
            SomeIpPrimitive::I32 => v is I32,
            SomeIpPrimitive::I64 => v is I64,
            SomeIpPrimitive::F32 => v is F32Bits,
            SomeIpPrimitive::F64 => v is F64Bits,
        },
        SomeIpType::Enum(e) => match v {
            ValueV::EnumVariant(name) => spec_name_lookup(e.values@, name) is Some,
            _ => false,
        },
        SomeIpType::String(_) => v is Str,
        SomeIpType::Sequence(s) => match v {
            ValueV::Sequence(elems) => spec_elems_match(s, elems, 0),
            ValueV::Bytes(_) => *s.element_type == SomeIpType::Primitive(SomeIpPrimitive::U8),
            _ => false,
        },
        SomeIpType::Struct(st) => match v {
            ValueV::Struct(fields) => fields.len() == st.fields@.len() && spec_struct_fields_match(
                st,
                fields,
                0,
            ),
            _ => false,
        },
    }
}

/// Helper for [`spec_value_matches`]: the elements from index `i` on all
/// match the sequence's element type.
pub open spec fn spec_elems_match(s: SomeIpSequence, elems: Seq<ValueV>, i: int) -> bool
    decreases s, 0int, elems.len() - i,
{
    if i < 0 || i >= elems.len() {
        true
    } else {
        spec_value_matches(*s.element_type, elems[i]) && spec_elems_match(s, elems, i + 1)
    }
}

/// Helper for [`spec_value_matches`]: the field values from index `i` on
/// match the struct's fields, with absence allowed only under TLV.
pub open spec fn spec_struct_fields_match(
    st: SomeIpStruct,
    fields: Seq<Option<ValueV>>,
    i: int,
) -> bool
    decreases st, 0int, fields.len() - i,
{
    if i < 0 || i >= fields.len() || i >= st.fields@.len() {
        true
    } else {
        let ok = match fields[i] {
            Some(v) => spec_value_matches(*st.fields@[i].field_type, v),
            None => st.uses_tlv_serialization,
        };
        ok && spec_struct_fields_match(st, fields, i + 1)
    }
}


/// Decides [`spec_value_matches`]: whether `value` fits schema `t`.
#[verifier::loop_isolation(false)]
pub fn value_matches(t: &SomeIpType, value: &Value) -> (r: bool)
    ensures
        r == spec_value_matches(*t, deep_value(*value)),
    decreases *t, 2int,
{
    match t {
        SomeIpType::Primitive(p) => match p {
            SomeIpPrimitive::Bool => matches!(value, Value::Bool(_)),
            SomeIpPrimitive::U8 => matches!(value, Value::U8(_)),
            SomeIpPrimitive::U16 => matches!(value, Value::U16(_)),
            SomeIpPrimitive::U32 => matches!(value, Value::U32(_)),
            SomeIpPrimitive::U64 => matches!(value, Value::U64(_)),
            SomeIpPrimitive::I8 => matches!(value, Value::I8(_)),
            SomeIpPrimitive::I16 => matches!(value, Value::I16(_)),
            SomeIpPrimitive::I32 => matches!(value, Value::I32(_)),
            SomeIpPrimitive::I64 => matches!(value, Value::I64(_)),
            SomeIpPrimitive::F32 => matches!(value, Value::F32Bits(_)),
            SomeIpPrimitive::F64 => matches!(value, Value::F64Bits(_)),
        },
        SomeIpType::Enum(e) => match value {
            Value::EnumVariant(name) => e.name_to_value(name.as_str()).is_some(),
            _ => false,
        },
        SomeIpType::String(_) => matches!(value, Value::Str(_)),
        SomeIpType::Sequence(s) => match value {
            Value::Sequence(elems) => {
                let ghost elemsv = crate::value::deep_values(*elems, 0);
                proof {
                    lemma_deep_values_len(*elems, 0);
                }
                let n = elems.len();
                let mut i: usize = 0;
                while i < n
                    invariant
                        i <= n == elems@.len(),
                        elemsv == deep_values(*elems, 0),
                        elemsv.len() == n,
                        *t == SomeIpType::Sequence(*s),
                        spec_elems_match(*s, elemsv, 0) == spec_elems_match(*s, elemsv, i as int),
                    decreases n - i,
                {
                    proof {
                        lemma_deep_values_index(*elems, 0, i as int);
                        assert(decreases_to!(*elems => elems[i as int]));
                    }
                    if !value_matches(&s.element_type, &elems[i]) {
                        return false;
                    }
                    i = i + 1;
                }
                true
            },
            Value::Bytes(_) => matches!(&*s.element_type, SomeIpType::Primitive(SomeIpPrimitive::U8)),
            _ => false,
        },
        SomeIpType::Struct(st) => match value {
            Value::Struct(fields) => {
                let ghost fieldsv = crate::value::deep_fields(*fields, 0);
                proof {
                    lemma_deep_fields_len(*fields, 0);
                }
                if fields.len() != st.fields.len() {
                    return false;
                }
                let n = fields.len();
                let mut i: usize = 0;
                while i < n
                    invariant
                        i <= n == fields@.len() == st.fields@.len(),
                        fieldsv == deep_fields(*fields, 0),
                        fieldsv.len() == n,
                        *t == SomeIpType::Struct(*st),
                        spec_struct_fields_match(*st, fieldsv, 0) == spec_struct_fields_match(
                            *st,
                            fieldsv,
                            i as int,
                        ),
                    decreases n - i,
                {
                    proof {
                        lemma_deep_fields_index(*fields, 0, i as int);
                        crate::types::lemma_struct_field_decreases(*t, i as int);
                    }
                    match &fields[i] {
                        Some(fv) => {
                            if !value_matches(&st.fields[i].field_type, fv) {
                                return false;
                            }
                        },
                        None => {
                            if !st.uses_tlv_serialization {
                                return false;
                            }
                        },
                    }
                    i = i + 1;
                }
                true
            },
            _ => false,
        },
    }
}

/// The image of a value list has its length.
pub proof fn lemma_deep_values_len(vs: Vec<Value>, i: int)
    requires
        0 <= i <= vs@.len(),
    ensures
        deep_values(vs, i).len() == vs@.len() - i,
    decreases vs@.len() - i,
{
    if i < vs@.len() {
        lemma_deep_values_len(vs, i + 1);
    }
}

/// The image of a value list is pointwise the image of its entries.
pub proof fn lemma_deep_values_index(vs: Vec<Value>, i: int, k: int)
    requires
        0 <= i <= k < vs@.len(),
    ensures
        deep_values(vs, i)[k - i] == deep_value(vs@[k]),
    decreases k - i,
{
    lemma_deep_values_len(vs, i + 1);
    if i < k {
        lemma_deep_values_index(vs, i + 1, k);
    }
}

/// The image of a field list has its length.
pub proof fn lemma_deep_fields_len(fs: Vec<Option<Value>>, i: int)
    requires
        0 <= i <= fs@.len(),
    ensures
        deep_fields(fs, i).len() == fs@.len() - i,
    decreases fs@.len() - i,
{
    if i < fs@.len() {
        lemma_deep_fields_len(fs, i + 1);
    }
}

/// The image of a field list is pointwise the image of its entries.
pub proof fn lemma_deep_fields_index(fs: Vec<Option<Value>>, i: int, k: int)
    requires
        0 <= i <= k < fs@.len(),
    ensures
        deep_fields(fs, i)[k - i] == deep_opt(fs@[k]),
    decreases k - i,
{
    lemma_deep_fields_len(fs, i + 1);
    if i < k {
        lemma_deep_fields_index(fs, i + 1, k);
    }
}

/// Appending a value appends its image.
pub proof fn lemma_deep_values_push(vs: Vec<Value>, vs2: Vec<Value>, v: Value)
    requires
        vs2@ == vs@.push(v),
    ensures
        deep_values(vs2, 0) == deep_values(vs, 0).push(deep_value(v)),
{
    lemma_deep_values_len(vs, 0);
    lemma_deep_values_len(vs2, 0);
    assert forall|k: int| 0 <= k < vs2@.len() implies deep_values(vs2, 0)[k] == deep_values(
        vs,
        0,
    ).push(deep_value(v))[k] by {
        lemma_deep_values_index(vs2, 0, k);
        if k < vs@.len() {
            lemma_deep_values_index(vs, 0, k);
        }
    }
    assert(deep_values(vs2, 0) =~= deep_values(vs, 0).push(deep_value(v)));
}

} // verus!
