//! The deserializer: reconstructs a value from wire bytes against a schema.
//!
//! [`from_slice`] is the entry point. The mathematical meaning of
//! deserialization is [`spec_decode`]; the entry point returns exactly its
//! value, or exactly its error.

use vstd::prelude::*;

use crate::error::{Error, ErrorV, SomeIpResult};
use crate::length_fields::LengthFieldSize;
use crate::options::{ActionOnTooMuchData, SomeIpOptions};
use crate::text::{decode_string_bytes, spec_decode_string};
use crate::types::{
    spec_field_by_id, spec_value_lookup, SomeIpEnumValue, SomeIpPrimitive, SomeIpSequence,
    SomeIpStruct, SomeIpType,
};
use crate::uint_bytes::{read_uint, spec_uint_val};
use crate::value::{deep_value, lemma_deep_fields_len, lemma_deep_values_len, Value, ValueV};
use crate::wire_type::WireType;

verus! {

broadcast use vstd::std_specs::vec::axiom_vec_index_decreases;

/// The message given when a struct's length section runs out before all its
/// fields were read.
pub open spec fn spec_msg_fields_missing() -> Seq<char> {
    "struct section ended before all fields were read"@
}

/// The message given when one TLV field id occurs twice in a section.
pub open spec fn spec_msg_duplicate_field() -> Seq<char> {
    "duplicate field in TLV struct"@
}

/// The message given when an unknown length-delimited TLV field arrives and
/// neither its tag nor the schema nor the options name a length field size.
pub open spec fn spec_msg_no_skip_size() -> Seq<char> {
    "no length field size to skip an unknown field"@
}

/// The message given when a sequence element occupies no bytes while the
/// options keep all data: reading on could never terminate.
pub open spec fn spec_msg_zero_element() -> Seq<char> {
    "sequence element of zero encoded size"@
}

/// The raw value read for an enum of the given raw type.
pub open spec fn spec_enum_value_of(raw: SomeIpPrimitive, val: nat) -> SomeIpEnumValue {
    match raw {
        SomeIpPrimitive::U8 => SomeIpEnumValue::U8(val as u8),
        SomeIpPrimitive::U16 => SomeIpEnumValue::U16(val as u16),
        SomeIpPrimitive::U32 => SomeIpEnumValue::U32(val as u32),
        SomeIpPrimitive::U64 => SomeIpEnumValue::U64(val as u64),
        SomeIpPrimitive::I8 => SomeIpEnumValue::I8((val as u8) as i8),
        SomeIpPrimitive::I16 => SomeIpEnumValue::I16((val as u16) as i16),
        SomeIpPrimitive::I32 => SomeIpEnumValue::I32((val as u32) as i32),
        _ => SomeIpEnumValue::I64((val as u64) as i64),
    }
}

/// The primitive value read from `w` bytes at `pos`.
pub open spec fn spec_prim_value(
    opts: SomeIpOptions,
    p: SomeIpPrimitive,
    data: Seq<u8>,
    pos: int,
) -> Result<ValueV, ErrorV> {
    let w = p.spec_len();
    let val = spec_uint_val(opts.byte_order, data.subrange(pos, pos + w));
    match p {
        SomeIpPrimitive::Bool => {
            if opts.deserializer_strict_bool && val > 1 {
                Err(ErrorV::InvalidBool(val as u8))
            } else {
                Ok(ValueV::Bool(val != 0))
            }
        },
        SomeIpPrimitive::U8 => Ok(ValueV::U8(val as u8)),
        SomeIpPrimitive::U16 => Ok(ValueV::U16(val as u16)),
        SomeIpPrimitive::U32 => Ok(ValueV::U32(val as u32)),
        SomeIpPrimitive::U64 => Ok(ValueV::U64(val as u64)),
        SomeIpPrimitive::I8 => Ok(ValueV::I8((val as u8) as i8)),
        SomeIpPrimitive::I16 => Ok(ValueV::I16((val as u16) as i16)),
        SomeIpPrimitive::I32 => Ok(ValueV::I32((val as u32) as i32)),
        SomeIpPrimitive::I64 => Ok(ValueV::I64((val as u64) as i64)),
        SomeIpPrimitive::F32 => Ok(ValueV::F32Bits(val as u32)),
        SomeIpPrimitive::F64 => Ok(ValueV::F64Bits(val as u64)),
    }
}

/// The length section opened by a node at `pos`: the section's byte length
/// and the bytes the length field itself occupied. The width comes from the
/// one-shot tag override when there is one, else from the schema or default;
/// a node without a length field gets an implicit section of its known size.
pub open spec fn spec_open_section(
    opts: SomeIpOptions,
    t: SomeIpType,
    data: Seq<u8>,
    pos: int,
    limit: int,
    in_tlv: bool,
    ovr: Option<LengthFieldSize>,
    known: int,
) -> Result<(int, int), ErrorV> {
    let wanted = t.spec_wanted_length_field(opts, in_tlv);
    if wanted is Some || ovr is Some {
        let size = if ovr is Some {
            ovr.unwrap()
        } else {
            wanted.unwrap()
        };
        let w = size.spec_num_bytes();
        if limit - pos < w {
            Err(ErrorV::TooShort)
        } else {
            let len = spec_uint_val(opts.byte_order, data.subrange(pos, pos + w)) as int;
            if limit - pos - w < len {
                Err(ErrorV::TooShort)
            } else {
                Ok((len, w))
            }
        }
    } else {
        if known < 0 || limit - pos < known {
            Err(ErrorV::TooShort)
        } else {
            Ok((known, 0))
        }
    }
}

/// The meaning of deserialization: the value a schema node denotes at `pos`
/// of `data`, reading no further than `limit`, and the bytes it consumes —
/// or the error that position holds. The one-shot `ovr` carries a length
/// field width announced by a TLV tag.
pub open spec fn spec_decode(
    opts: SomeIpOptions,
    t: SomeIpType,
    data: Seq<u8>,
    pos: int,
    limit: int,
    in_tlv: bool,
    ovr: Option<LengthFieldSize>,
) -> Result<(ValueV, int), ErrorV>
    decreases limit - pos, t, 3int, 0int,
{
    if !(0 <= pos <= limit <= data.len()) {
        Err(ErrorV::TooShort)
    } else {
        match t {
            SomeIpType::Primitive(p) => {
                if limit - pos < p.spec_len() {
                    Err(ErrorV::TooShort)
                } else {
                    match spec_prim_value(opts, p, data, pos) {
                        Ok(v) => Ok((v, p.spec_len())),
                        Err(e) => Err(e),
                    }
                }
            },
            SomeIpType::Enum(e) => {
                let w = e.raw_type.spec_len();
                if limit - pos < w {
                    Err(ErrorV::TooShort)
                } else {
                    let val = spec_uint_val(opts.byte_order, data.subrange(pos, pos + w));
                    let ev = spec_enum_value_of(e.raw_type, val);
                    match spec_value_lookup(e.values@, ev) {
                        Some(name) => Ok((ValueV::EnumVariant(name), w)),
                        None => Err(
                            ErrorV::InvalidEnumValue {
                                value: ev.spec_display_value(),
                                name: e.name@,
                            },
                        ),
                    }
                }
            },
            SomeIpType::String(st) => {
                match spec_open_section(opts, t, data, pos, limit, in_tlv, ovr, st.max_size as int) {
                    Err(e) => Err(e),
                    Ok((len, w)) => {
                        let body_pos = pos + w;
                        if len < st.min_size {
                            Err(ErrorV::NotEnoughData { min: st.min_size as int, actual: len })
                        } else if len > st.max_size {
                            match opts.deserializer_action_on_too_much_data {
                                ActionOnTooMuchData::Fail => Err(
                                    ErrorV::TooMuchData { max: st.max_size as int, actual: len },
                                ),
                                ActionOnTooMuchData::Discard => {
                                    match spec_decode_string(
                                        opts,
                                        data.subrange(body_pos, body_pos + st.max_size),
                                    ) {
                                        Ok(chars) => Ok((ValueV::Str(chars), w + len)),
                                        Err(e) => Err(e),
                                    }
                                },
                                ActionOnTooMuchData::Keep => {
                                    match spec_decode_string(
                                        opts,
                                        data.subrange(body_pos, body_pos + len),
                                    ) {
                                        Ok(chars) => Ok((ValueV::Str(chars), w + len)),
                                        Err(e) => Err(e),
                                    }
                                },
                            }
                        } else {
                            match spec_decode_string(
                                opts,
                                data.subrange(body_pos, body_pos + len),
                            ) {
                                Ok(chars) => Ok((ValueV::Str(chars), w + len)),
                                Err(e) => Err(e),
                            }
                        }
                    },
                }
            },
            SomeIpType::Sequence(s) => {
                let known = s.max_elements * s.element_type.spec_const_len();
                match spec_open_section(opts, t, data, pos, limit, in_tlv, ovr, known) {
                    Err(e) => Err(e),
                    Ok((len, w)) => {
                        let body_pos = pos + w;
                        if *s.element_type == SomeIpType::Primitive(SomeIpPrimitive::U8) {
                            // The byte fast path: the section bytes are the value.
                            if len < s.min_elements {
                                Err(
                                    ErrorV::NotEnoughData {
                                        min: s.min_elements as int,
                                        actual: len,
                                    },
                                )
                            } else if len > s.max_elements {
                                match opts.deserializer_action_on_too_much_data {
                                    ActionOnTooMuchData::Fail => Err(
                                        ErrorV::TooMuchData {
                                            max: s.max_elements as int,
                                            actual: len,
                                        },
                                    ),
                                    ActionOnTooMuchData::Discard => Ok(
                                        (
                                            ValueV::Bytes(
                                                data.subrange(
                                                    body_pos,
                                                    body_pos + s.max_elements,
                                                ),
                                            ),
                                            w + len,
                                        ),
                                    ),
                                    ActionOnTooMuchData::Keep => Ok(
                                        (
                                            ValueV::Bytes(data.subrange(body_pos, body_pos + len)),
                                            w + len,
                                        ),
                                    ),
                                }
                            } else {
                                Ok(
                                    (
                                        ValueV::Bytes(data.subrange(body_pos, body_pos + len)),
                                        w + len,
                                    ),
                                )
                            }
                        } else {
                            match spec_dec_elems(
                                opts,
                                s,
                                data,
                                body_pos,
                                body_pos + len,
                                Seq::empty(),
                            ) {
                                Ok(elems) => {
                                    if elems.len() < s.min_elements {
                                        Err(
                                            ErrorV::NotEnoughData {
                                                min: s.min_elements as int,
                                                actual: elems.len() as int,
                                            },
                                        )
                                    } else {
                                        Ok((ValueV::Sequence(elems), w + len))
                                    }
                                },
                                Err(e) => Err(e),
                            }
                        }
                    },
                }
            },
            SomeIpType::Struct(st) => {
                let wanted = t.spec_wanted_length_field(opts, in_tlv);
                if wanted is Some || ovr is Some {
                    match spec_open_section(opts, t, data, pos, limit, in_tlv, ovr, 0) {
                        Err(e) => Err(e),
                        Ok((len, w)) => {
                            let body_pos = pos + w;
                            let body = if st.uses_tlv_serialization {
                                spec_dec_tlv(
                                    opts,
                                    st,
                                    data,
                                    body_pos,
                                    body_pos + len,
                                    Seq::new(st.fields@.len(), |k: int| None),
                                )
                            } else {
                                spec_dec_fields(opts, st, data, body_pos, body_pos + len, 0, true)
                            };
                            match body {
                                Ok((fields, consumed)) => {
                                    if consumed == len {
                                        Ok((ValueV::Struct(fields), w + len))
                                    } else {
                                        Err(ErrorV::NotAllBytesConsumed(len - consumed))
                                    }
                                },
                                Err(e) => Err(e),
                            }
                        },
                    }
                } else {
                    // No length section: the struct reads straight from the
                    // surrounding bounds.
                    let body = if st.uses_tlv_serialization {
                        spec_dec_tlv(
                            opts,
                            st,
                            data,
                            pos,
                            limit,
                            Seq::new(st.fields@.len(), |k: int| None),
                        )
                    } else {
                        spec_dec_fields(opts, st, data, pos, limit, 0, false)
                    };
                    match body {
                        Ok((fields, consumed)) => Ok((ValueV::Struct(fields), consumed)),
                        Err(e) => Err(e),
                    }
                }
            },
        }
    }
}

/// The elements of a sequence section from `pos` to `limit`, appended to
/// `acc`: elements are read while bytes remain, counting against the
/// maximum per the configured action.
pub open spec fn spec_dec_elems(
    opts: SomeIpOptions,
    s: SomeIpSequence,
    data: Seq<u8>,
    pos: int,
    limit: int,
    acc: Seq<ValueV>,
) -> Result<Seq<ValueV>, ErrorV>
    decreases
            limit - pos,
            s,
            2int,
            (if opts.deserializer_action_on_too_much_data == ActionOnTooMuchData::Keep {
                0int
            } else {
                s.max_elements + 2 - acc.len()
            }),
{
    if !(0 <= pos <= limit <= data.len()) {
        Err(ErrorV::TooShort)
    } else if pos == limit {
        Ok(acc)
    } else if opts.deserializer_action_on_too_much_data != ActionOnTooMuchData::Keep && acc.len()
        > s.max_elements + 1 {
        // Unreachable: the actions below stop at one element past the
        // maximum; this bound carries the termination argument.
        Err(ErrorV::TooShort)
    } else {
        match spec_decode(opts, *s.element_type, data, pos, limit, false, None) {
            Err(e) => Err(e),
            Ok((v, consumed)) => {
                if consumed < 0 || pos + consumed > limit {
                    Err(ErrorV::TooShort)
                } else {
                    let next = acc.push(v);
                    if next.len() > s.max_elements {
                        match opts.deserializer_action_on_too_much_data {
                            ActionOnTooMuchData::Fail => Err(
                                ErrorV::TooMuchData { max: s.max_elements as int, actual: 0 },
                            ),
                            ActionOnTooMuchData::Discard => Ok(acc),
                            ActionOnTooMuchData::Keep => {
                                if consumed == 0 {
                                    Err(ErrorV::Message(spec_msg_zero_element()))
                                } else {
                                    spec_dec_elems(opts, s, data, pos + consumed, limit, next)
                                }
                            },
                        }
                    } else {
                        if consumed == 0 && opts.deserializer_action_on_too_much_data
                            == ActionOnTooMuchData::Keep {
                            Err(ErrorV::Message(spec_msg_zero_element()))
                        } else {
                            spec_dec_elems(opts, s, data, pos + consumed, limit, next)
                        }
                    }
                }
            },
        }
    }
}

/// The fields of a plain struct, read in declaration order from `pos`,
/// together with the bytes consumed. When the struct sits in a length
/// section, running out of section bytes before the last field is an error.
pub open spec fn spec_dec_fields(
    opts: SomeIpOptions,
    st: SomeIpStruct,
    data: Seq<u8>,
    pos: int,
    limit: int,
    i: int,
    in_section: bool,
) -> Result<(Seq<Option<ValueV>>, int), ErrorV>
    decreases limit - pos, st, 2int, st.fields@.len() - i,
{
    if !(0 <= pos <= limit <= data.len()) {
        Err(ErrorV::TooShort)
    } else if i < 0 || i >= st.fields@.len() {
        Ok((Seq::empty(), 0))
    } else if in_section && pos == limit {
        Err(ErrorV::Message(spec_msg_fields_missing()))
    } else {
        match spec_decode(opts, *st.fields@[i].field_type, data, pos, limit, false, None) {
            Err(e) => Err(e),
            Ok((v, consumed)) => {
                if consumed < 0 || pos + consumed > limit {
                    Err(ErrorV::TooShort)
                } else {
                    match spec_dec_fields(
                        opts,
                        st,
                        data,
                        pos + consumed,
                        limit,
                        i + 1,
                        in_section,
                    ) {
                        Ok((rest, rest_consumed)) => Ok(
                            (seq![Some(v)] + rest, consumed + rest_consumed),
                        ),
                        Err(e) => Err(e),
                    }
                }
            },
        }
    }
}

/// One pass of the TLV field loop: tags are read and dispatched while bytes
/// remain; known ids fill their slot in `fields`, unknown ids are skipped
/// per their wire type.
pub open spec fn spec_dec_tlv(
    opts: SomeIpOptions,
    st: SomeIpStruct,
    data: Seq<u8>,
    pos: int,
    limit: int,
    fields: Seq<Option<ValueV>>,
) -> Result<(Seq<Option<ValueV>>, int), ErrorV>
    decreases limit - pos, st, 2int, 0int,
{
    if !(0 <= pos <= limit <= data.len()) {
        Err(ErrorV::TooShort)
    } else if pos == limit {
        Ok((fields, 0))
    } else if limit - pos < 2 {
        Err(ErrorV::TooShort)
    } else {
        let tag = spec_uint_val(opts.byte_order, data.subrange(pos, pos + 2)) as u16;
        let (wire, id) = WireType::spec_disect_tag(tag);
        match spec_field_by_id(st.fields@, id) {
            Some(idx) => {
                let field = st.fields@[idx];
                if !field.field_type.spec_wire_type().spec_compatible(wire) {
                    Err(
                        ErrorV::InvalidWireType {
                            expected: field.field_type.spec_wire_type(),
                            actual: wire,
                        },
                    )
                } else if fields[idx] is Some {
                    Err(ErrorV::Message(spec_msg_duplicate_field()))
                } else {
                    match spec_decode(
                        opts,
                        *field.field_type,
                        data,
                        pos + 2,
                        limit,
                        true,
                        wire.spec_length_field_size(),
                    ) {
                        Err(e) => Err(e),
                        Ok((v, consumed)) => {
                            if consumed < 0 || pos + 2 + consumed > limit {
                                Err(ErrorV::TooShort)
                            } else {
                                match spec_dec_tlv(
                                    opts,
                                    st,
                                    data,
                                    pos + 2 + consumed,
                                    limit,
                                    fields.update(idx, Some(v)),
                                ) {
                                    Ok((out, rest)) => Ok((out, 2 + consumed + rest)),
                                    Err(e) => Err(e),
                                }
                            }
                        },
                    }
                }
            },
            None => {
                match wire.spec_fixed_size() {
                    Some(k) => {
                        if limit - pos - 2 < k {
                            Err(ErrorV::TooShort)
                        } else {
                            match spec_dec_tlv(opts, st, data, pos + 2 + k, limit, fields) {
                                Ok((out, rest)) => Ok((out, 2 + k + rest)),
                                Err(e) => Err(e),
                            }
                        }
                    },
                    None => {
                        let size = if wire.spec_length_field_size() is Some {
                            wire.spec_length_field_size()
                        } else {
                            opts.spec_apply_defaults(st.length_field_size)
                        };
                        match size {
                            None => Err(ErrorV::Message(spec_msg_no_skip_size())),
                            Some(size) => {
                                let w = size.spec_num_bytes();
                                if limit - pos - 2 < w {
                                    Err(ErrorV::TooShort)
                                } else {
                                    let len = spec_uint_val(
                                        opts.byte_order,
                                        data.subrange(pos + 2, pos + 2 + w),
                                    ) as int;
                                    if limit - pos - 2 - w < len {
                                        Err(ErrorV::TooShort)
                                    } else {
                                        match spec_dec_tlv(
                                            opts,
                                            st,
                                            data,
                                            pos + 2 + w + len,
                                            limit,
                                            fields,
                                        ) {
                                            Ok((out, rest)) => Ok((out, 2 + w + len + rest)),
                                            Err(e) => Err(e),
                                        }
                                    }
                                }
                            },
                        }
                    },
                }
            },
        }
    }
}

/// The value of `data` decoded against schema `t` at the top level: the
/// whole input must be consumed, and input left over after the schema's
/// extent is an error naming the leftover count.
pub open spec fn spec_from_slice(opts: SomeIpOptions, t: SomeIpType, data: Seq<u8>) -> Result<
    ValueV,
    ErrorV,
> {
    match spec_decode(opts, t, data, 0, data.len() as int, false, None) {
        Ok((v, consumed)) => {
            if consumed == data.len() {
                Ok(v)
            } else {
                Err(ErrorV::NotAllBytesConsumed(data.len() - consumed))
            }
        },
        Err(e) => Err(e),
    }
}

/// Reads the length section a node opens at `pos`; `known` is the implicit
/// section size of a node without a length field, `None` when that size
/// does not fit the machine.
fn open_section(
    opts: &SomeIpOptions,
    t: &SomeIpType,
    data: &[u8],
    pos: usize,
    limit: usize,
    in_tlv: bool,
    ovr: Option<LengthFieldSize>,
    known: Option<usize>,
    Ghost(known_spec): Ghost<int>,
) -> (r: SomeIpResult<(usize, usize)>)
    requires
        pos <= limit <= data@.len(),
        match known {
            Some(k) => k == known_spec,
            None => known_spec > usize::MAX,
        },
    ensures
        match r {
            Ok((len, w)) => spec_open_section(
                *opts,
                *t,
                data@,
                pos as int,
                limit as int,
                in_tlv,
                ovr,
                known_spec,
            ) == Ok::<(int, int), ErrorV>((len as int, w as int)) && pos + w + len <= limit,
            Err(e) => spec_open_section(
                *opts,
                *t,
                data@,
                pos as int,
                limit as int,
                in_tlv,
                ovr,
                known_spec,
            ) == Err::<(int, int), ErrorV>(e@),
        },
{
    let wanted = t.wanted_length_field(opts, in_tlv);
    let use_field = wanted.is_some() || ovr.is_some();
    if use_field {
        let size = match ovr {
            Some(s) => s,
            None => match wanted {
                Some(s) => s,
                None => vstd::pervasive::unreached(),
            },
        };
        let w = size.num_bytes();
        if limit - pos < w {
            return Err(Error::TooShort);
        }
        let raw = read_uint(data, pos, w, opts.byte_order);
        proof {
            crate::uint_bytes::lemma_uint_val_bound(
                opts.byte_order,
                data@.subrange(pos as int, pos as int + w as int),
            );
            assert(crate::uint_bytes::pow256(4) == 0x1_0000_0000) by {
                reveal_with_fuel(crate::uint_bytes::pow256, 5);
            }
            crate::uint_bytes::lemma_pow256_le_pub(w as nat, 4);
        }
        let len = raw as usize;
        if limit - pos - w < len {
            return Err(Error::TooShort);
        }
        Ok((len, w))
    } else {
        match known {
            Some(k) => {
                if limit - pos < k {
                    Err(Error::TooShort)
                } else {
                    Ok((k, 0))
                }
            },
            None => Err(Error::TooShort),
        }
    }
}

/// Decodes the value of schema node `t` at `pos`, bounded by `limit`; see
/// [`spec_decode`]. Returns the value and the position after it.
#[verifier::rlimit(100)]
fn decode_value(
    opts: &SomeIpOptions,
    t: &SomeIpType,
    data: &[u8],
    pos: usize,
    limit: usize,
    in_tlv: bool,
    ovr: Option<LengthFieldSize>,
) -> (r: SomeIpResult<(Value, usize)>)
    requires
        pos <= limit <= data@.len(),
    ensures
        match r {
            Ok((v, p)) => pos <= p <= limit && spec_decode(
                *opts,
                *t,
                data@,
                pos as int,
                limit as int,
                in_tlv,
                ovr,
            ) == Ok::<(ValueV, int), ErrorV>((deep_value(v), p - pos)),
            Err(e) => spec_decode(*opts, *t, data@, pos as int, limit as int, in_tlv, ovr)
                == Err::<(ValueV, int), ErrorV>(e@),
        },
    decreases *t, 3int,
{
    match t {
        SomeIpType::Primitive(p) => {
            let w = p.get_len();
            if limit - pos < w {
                return Err(Error::TooShort);
            }
            let val = read_uint(data, pos, w, opts.byte_order);
            proof {
                crate::uint_bytes::lemma_uint_val_bound(
                    opts.byte_order,
                    data@.subrange(pos as int, pos as int + w as int),
                );
                reveal_with_fuel(crate::uint_bytes::pow256, 9);
            }
            let value = match p {
                SomeIpPrimitive::Bool => {
                    if opts.deserializer_strict_bool && val > 1 {
                        return Err(Error::InvalidBool(val as u8));
                    }
                    Value::Bool(val != 0)
                },
                SomeIpPrimitive::U8 => Value::U8(val as u8),
                SomeIpPrimitive::U16 => Value::U16(val as u16),
                SomeIpPrimitive::U32 => Value::U32(val as u32),
                SomeIpPrimitive::U64 => Value::U64(val),
                SomeIpPrimitive::I8 => Value::I8((val as u8) as i8),
                SomeIpPrimitive::I16 => Value::I16((val as u16) as i16),
                SomeIpPrimitive::I32 => Value::I32((val as u32) as i32),
                SomeIpPrimitive::I64 => Value::I64(val as i64),
                SomeIpPrimitive::F32 => Value::F32Bits(val as u32),
                SomeIpPrimitive::F64 => Value::F64Bits(val),
            };
            Ok((value, pos + w))
        },
        SomeIpType::Enum(e) => {
            let w = e.raw_type.get_len();
            if limit - pos < w {
                return Err(Error::TooShort);
            }
            let val = read_uint(data, pos, w, opts.byte_order);
            proof {
                crate::uint_bytes::lemma_uint_val_bound(
                    opts.byte_order,
                    data@.subrange(pos as int, pos as int + w as int),
                );
                reveal_with_fuel(crate::uint_bytes::pow256, 9);
            }
            let ev = match e.raw_type {
                SomeIpPrimitive::U8 => SomeIpEnumValue::U8(val as u8),
                SomeIpPrimitive::U16 => SomeIpEnumValue::U16(val as u16),
                SomeIpPrimitive::U32 => SomeIpEnumValue::U32(val as u32),
                SomeIpPrimitive::U64 => SomeIpEnumValue::U64(val),
                SomeIpPrimitive::I8 => SomeIpEnumValue::I8((val as u8) as i8),
                SomeIpPrimitive::I16 => SomeIpEnumValue::I16((val as u16) as i16),
                SomeIpPrimitive::I32 => SomeIpEnumValue::I32((val as u32) as i32),
                _ => SomeIpEnumValue::I64(val as i64),
            };
            proof {
                assert(ev == spec_enum_value_of(
                    e.raw_type,
                    spec_uint_val(
                        opts.byte_order,
                        data@.subrange(pos as int, pos as int + w as int),
                    ),
                ));
            }
            match e.value_to_name(&ev) {
                Some(name) => Ok((Value::EnumVariant(name.clone()), pos + w)),
                None => Err(
                    Error::InvalidEnumValue { value: ev.display_value(), name: e.name.clone() },
                ),
            }
        },
        SomeIpType::String(_) => decode_string_node(opts, t, data, pos, limit, in_tlv, ovr),
        SomeIpType::Sequence(_) => decode_sequence(opts, t, data, pos, limit, in_tlv, ovr),
        SomeIpType::Struct(_) => decode_struct(opts, t, data, pos, limit, in_tlv, ovr),
    }
}


/// Decodes a string node; see [`decode_value`].
#[verifier::rlimit(100)]
fn decode_string_node(
    opts: &SomeIpOptions,
    t: &SomeIpType,
    data: &[u8],
    pos: usize,
    limit: usize,
    in_tlv: bool,
    ovr: Option<LengthFieldSize>,
) -> (r: SomeIpResult<(Value, usize)>)
    requires
        t is String,
        pos <= limit <= data@.len(),
    ensures
        match r {
            Ok((v, p)) => pos <= p <= limit && spec_decode(
                *opts,
                *t,
                data@,
                pos as int,
                limit as int,
                in_tlv,
                ovr,
            ) == Ok::<(ValueV, int), ErrorV>((deep_value(v), p - pos)),
            Err(e) => spec_decode(*opts, *t, data@, pos as int, limit as int, in_tlv, ovr)
                == Err::<(ValueV, int), ErrorV>(e@),
        },
{
    match t {
        SomeIpType::String(st) => {
            let (len, w) = match open_section(
                opts,
                t,
                data,
                pos,
                limit,
                in_tlv,
                ovr,
                Some(st.max_size),
                Ghost(st.max_size as int),
            ) {
                Ok(pair) => pair,
                Err(e) => {
                    return Err(e);
                },
            };
            let body_pos = pos + w;
            if len < st.min_size {
                return Err(Error::NotEnoughData { min: st.min_size, actual: len });
            }
            let take_len: usize;
            if len > st.max_size {
                match opts.deserializer_action_on_too_much_data {
                    ActionOnTooMuchData::Fail => {
                        return Err(Error::TooMuchData { max: st.max_size, actual: len });
                    },
                    ActionOnTooMuchData::Discard => {
                        take_len = st.max_size;
                    },
                    ActionOnTooMuchData::Keep => {
                        take_len = len;
                    },
                }
            } else {
                take_len = len;
            }
            let body = vstd::slice::slice_to_vec(
                vstd::slice::slice_subrange(data, body_pos, body_pos + take_len),
            );
            match decode_string_bytes(opts, &body) {
                Ok(s) => Ok((Value::Str(s), body_pos + len)),
                Err(e) => Err(e),
            }
        },
        _ => {
            proof {
                assert(false);
            }
            Err(Error::TooShort)
        },
    }
}

/// Decodes a sequence; see [`decode_value`].
#[verifier::loop_isolation(false)]
#[verifier::rlimit(100)]
fn decode_sequence(
    opts: &SomeIpOptions,
    t: &SomeIpType,
    data: &[u8],
    pos: usize,
    limit: usize,
    in_tlv: bool,
    ovr: Option<LengthFieldSize>,
) -> (r: SomeIpResult<(Value, usize)>)
    requires
        t is Sequence,
        pos <= limit <= data@.len(),
    ensures
        match r {
            Ok((v, p)) => pos <= p <= limit && spec_decode(
                *opts,
                *t,
                data@,
                pos as int,
                limit as int,
                in_tlv,
                ovr,
            ) == Ok::<(ValueV, int), ErrorV>((deep_value(v), p - pos)),
            Err(e) => spec_decode(*opts, *t, data@, pos as int, limit as int, in_tlv, ovr)
                == Err::<(ValueV, int), ErrorV>(e@),
        },
    decreases *t, 2int,
{
    match t {
        SomeIpType::Sequence(s) => {
            let ghost known_spec = s.max_elements * s.element_type.spec_const_len();
            let known: Option<usize> = if s.max_elements == 0 {
                proof {
                    assert(known_spec == 0) by {
                        vstd::arithmetic::mul::lemma_mul_basics(s.element_type.spec_const_len());
                    }
                }
                Some(0)
            } else {
                match s.element_type.const_len() {
                    Some(elem_len) => s.max_elements.checked_mul(elem_len),
                    None => {
                        proof {
                            vstd::arithmetic::mul::lemma_mul_inequality(
                                1,
                                s.max_elements as int,
                                s.element_type.spec_const_len(),
                            );
                            vstd::arithmetic::mul::lemma_mul_basics(
                                s.element_type.spec_const_len(),
                            );
                        }
                        None
                    },
                }
            };
            let (len, w) = match open_section(
                opts,
                t,
                data,
                pos,
                limit,
                in_tlv,
                ovr,
                known,
                Ghost(known_spec),
            ) {
                Ok(pair) => pair,
                Err(e) => {
                    return Err(e);
                },
            };
            let body_pos = pos + w;
            let is_u8 = matches!(
                &*s.element_type,
                SomeIpType::Primitive(SomeIpPrimitive::U8)
            );
            if is_u8 {
                if len < s.min_elements {
                    return Err(Error::NotEnoughData { min: s.min_elements, actual: len });
                }
                let take_len: usize;
                if len > s.max_elements {
                    match opts.deserializer_action_on_too_much_data {
                        ActionOnTooMuchData::Fail => {
                            return Err(Error::TooMuchData { max: s.max_elements, actual: len });
                        },
                        ActionOnTooMuchData::Discard => {
                            take_len = s.max_elements;
                        },
                        ActionOnTooMuchData::Keep => {
                            take_len = len;
                        },
                    }
                } else {
                    take_len = len;
                }
                let body = vstd::slice::slice_to_vec(
                    vstd::slice::slice_subrange(data, body_pos, body_pos + take_len),
                );
                Ok((Value::Bytes(body), body_pos + len))
            } else {
                let end = body_pos + len;
                let elems = match decode_elems(opts, t, data, body_pos, end) {
                    Ok(es) => es,
                    Err(e) => {
                        return Err(e);
                    },
                };
                proof {
                    lemma_deep_values_len(elems, 0);
                }
                if elems.len() < s.min_elements {
                    return Err(
                        Error::NotEnoughData { min: s.min_elements, actual: elems.len() },
                    );
                }
                Ok((Value::Sequence(elems), end))
            }
        },
        _ => {
            proof {
                assert(false);
            }
            Err(Error::TooShort)
        },
    }
}

/// The fixed text of [`spec_msg_zero_element`], as an owned string.
fn zero_element_message() -> (r: String)
    ensures
        r@ == spec_msg_zero_element(),
{
    let s: &str = "sequence element of zero encoded size";
    proof {
        assert(s@ == spec_msg_zero_element());
    }
    <String as vstd::string::StringExecFns>::from_str(s)
}

/// The fixed text of [`spec_msg_fields_missing`], as an owned string.
fn fields_missing_message() -> (r: String)
    ensures
        r@ == spec_msg_fields_missing(),
{
    let s: &str = "struct section ended before all fields were read";
    proof {
        assert(s@ == spec_msg_fields_missing());
    }
    <String as vstd::string::StringExecFns>::from_str(s)
}

/// The fixed text of [`spec_msg_duplicate_field`], as an owned string.
fn duplicate_field_message() -> (r: String)
    ensures
        r@ == spec_msg_duplicate_field(),
{
    let s: &str = "duplicate field in TLV struct";
    proof {
        assert(s@ == spec_msg_duplicate_field());
    }
    <String as vstd::string::StringExecFns>::from_str(s)
}

/// The fixed text of [`spec_msg_no_skip_size`], as an owned string.
fn no_skip_size_message() -> (r: String)
    ensures
        r@ == spec_msg_no_skip_size(),
{
    let s: &str = "no length field size to skip an unknown field";
    proof {
        assert(s@ == spec_msg_no_skip_size());
    }
    <String as vstd::string::StringExecFns>::from_str(s)
}


/// Reads the elements of a sequence section; see [`spec_dec_elems`].
#[verifier::loop_isolation(false)]
#[verifier::rlimit(100)]
fn decode_elems(
    opts: &SomeIpOptions,
    t: &SomeIpType,
    data: &[u8],
    body_pos: usize,
    end: usize,
) -> (r: SomeIpResult<Vec<Value>>)
    requires
        t is Sequence,
        body_pos <= end <= data@.len(),
    ensures
        match r {
            Ok(es) => spec_dec_elems(
                *opts,
                t->Sequence_0,
                data@,
                body_pos as int,
                end as int,
                Seq::empty(),
            ) == Ok::<Seq<ValueV>, ErrorV>(crate::value::deep_values(es, 0)),
            Err(e) => spec_dec_elems(
                *opts,
                t->Sequence_0,
                data@,
                body_pos as int,
                end as int,
                Seq::empty(),
            ) == Err::<Seq<ValueV>, ErrorV>(e@),
        },
    decreases *t, 1int,
{
    match t {
        SomeIpType::Sequence(s) => {
            let mut elems: Vec<Value> = Vec::new();
            let mut cur: usize = body_pos;
            proof {
                assert(crate::value::deep_values(elems, 0) =~= Seq::<ValueV>::empty());
            }
            while cur < end
                invariant
                    body_pos <= cur <= end,
                    opts.deserializer_action_on_too_much_data != ActionOnTooMuchData::Keep
                        ==> elems@.len() <= s.max_elements,
                    match spec_dec_elems(
                        *opts,
                        *s,
                        data@,
                        cur as int,
                        end as int,
                        crate::value::deep_values(elems, 0),
                    ) {
                        Ok(out) => spec_dec_elems(
                            *opts,
                            *s,
                            data@,
                            body_pos as int,
                            end as int,
                            Seq::empty(),
                        ) == Ok::<Seq<ValueV>, ErrorV>(out),
                        Err(e) => spec_dec_elems(
                            *opts,
                            *s,
                            data@,
                            body_pos as int,
                            end as int,
                            Seq::empty(),
                        ) == Err::<Seq<ValueV>, ErrorV>(e),
                    },
                decreases
                        end - cur,
                        (if opts.deserializer_action_on_too_much_data == ActionOnTooMuchData::Keep {
                            0int
                        } else {
                            s.max_elements + 2 - elems@.len()
                        }),
            {
                let (v, p) = match decode_value(opts, &s.element_type, data, cur, end, false, None) {
                    Ok(pair) => pair,
                    Err(e) => {
                        proof {
                            assert(t->Sequence_0 == *s);
                            lemma_deep_values_len(elems, 0);
                            assert(spec_dec_elems(
                                *opts,
                                *s,
                                data@,
                                cur as int,
                                end as int,
                                crate::value::deep_values(elems, 0),
                            ) == Err::<Seq<ValueV>, ErrorV>(e@));
                        }
                        return Err(e);
                    },
                };
                proof {
                    lemma_deep_values_len(elems, 0);
                }
                let consumed = p - cur;
                if elems.len() >= s.max_elements {
                    match opts.deserializer_action_on_too_much_data {
                        ActionOnTooMuchData::Fail => {
                            return Err(Error::TooMuchData { max: s.max_elements, actual: 0 });
                        },
                        ActionOnTooMuchData::Discard => {
                            // The element one past the maximum is dropped and the
                            // rest of the section is discarded.
                            proof {
                                let ghost next = crate::value::deep_values(elems, 0).push(
                                    deep_value(v),
                                );
                                assert(spec_dec_elems(
                                    *opts,
                                    *s,
                                    data@,
                                    cur as int,
                                    end as int,
                                    crate::value::deep_values(elems, 0),
                                ) == Ok::<Seq<ValueV>, ErrorV>(
                                    crate::value::deep_values(elems, 0),
                                ));
                            }
                            return Ok(elems);
                        },
                        ActionOnTooMuchData::Keep => {},
                    }
                }
                if consumed == 0 && matches!(
                    opts.deserializer_action_on_too_much_data,
                    ActionOnTooMuchData::Keep
                ) {
                    return Err(Error::Message(zero_element_message()));
                }
                let ghost pre_elems = elems;
                elems.push(v);
                proof {
                    crate::value::lemma_deep_values_push(pre_elems, elems, v);
                }
                cur = p;
            }
            Ok(elems)
        },
        _ => {
            proof {
                assert(false);
            }
            Err(Error::TooShort)
        },
    }
}

/// Decodes a struct; see [`decode_value`]. Plain structs read their fields
/// in declaration order; TLV structs dispatch on tags until their section is
/// exhausted, skipping unknown ids.
fn decode_struct(
    opts: &SomeIpOptions,
    t: &SomeIpType,
    data: &[u8],
    pos: usize,
    limit: usize,
    in_tlv: bool,
    ovr: Option<LengthFieldSize>,
) -> (r: SomeIpResult<(Value, usize)>)
    requires
        t is Struct,
        pos <= limit <= data@.len(),
    ensures
        match r {
            Ok((v, p)) => pos <= p <= limit && spec_decode(
                *opts,
                *t,
                data@,
                pos as int,
                limit as int,
                in_tlv,
                ovr,
            ) == Ok::<(ValueV, int), ErrorV>((deep_value(v), p - pos)),
            Err(e) => spec_decode(*opts, *t, data@, pos as int, limit as int, in_tlv, ovr)
                == Err::<(ValueV, int), ErrorV>(e@),
        },
    decreases *t, 2int,
{
    match t {
        SomeIpType::Struct(st) => {
            if st.uses_tlv_serialization {
                decode_struct_tlv(opts, t, data, pos, limit, in_tlv, ovr)
            } else {
                decode_struct_plain(opts, t, data, pos, limit, in_tlv, ovr)
            }
        },
        _ => {
            proof {
                assert(false);
            }
            Err(Error::TooShort)
        },
    }
}

/// Decodes a TLV struct; see [`decode_struct`].
#[verifier::rlimit(100)]
fn decode_struct_tlv(
    opts: &SomeIpOptions,
    t: &SomeIpType,
    data: &[u8],
    pos: usize,
    limit: usize,
    in_tlv: bool,
    ovr: Option<LengthFieldSize>,
) -> (r: SomeIpResult<(Value, usize)>)
    requires
        t is Struct,
        t->Struct_0.uses_tlv_serialization,
        pos <= limit <= data@.len(),
    ensures
        match r {
            Ok((v, p)) => pos <= p <= limit && spec_decode(
                *opts,
                *t,
                data@,
                pos as int,
                limit as int,
                in_tlv,
                ovr,
            ) == Ok::<(ValueV, int), ErrorV>((deep_value(v), p - pos)),
            Err(e) => spec_decode(*opts, *t, data@, pos as int, limit as int, in_tlv, ovr)
                == Err::<(ValueV, int), ErrorV>(e@),
        },
    decreases *t, 1int,
{
    match t {
        SomeIpType::Struct(st) => {
            let wanted = t.wanted_length_field(opts, in_tlv);
            let has_section = wanted.is_some() || ovr.is_some();
            let body_pos: usize;
            let body_end: usize;
            if has_section {
                let (len, w) = match open_section(
                    opts,
                    t,
                    data,
                    pos,
                    limit,
                    in_tlv,
                    ovr,
                    Some(0),
                    Ghost(0int),
                ) {
                    Ok(pair) => pair,
                    Err(e) => {
                        return Err(e);
                    },
                };
                body_pos = pos + w;
                body_end = body_pos + len;
            } else {
                body_pos = pos;
                body_end = limit;
            }
            let fields = match decode_tlv_fields(opts, t, data, body_pos, body_end) {
                Ok(fs) => fs,
                Err(e) => {
                    return Err(e);
                },
            };
            proof {
                assert(deep_value(Value::Struct(fields)) == ValueV::Struct(
                    crate::value::deep_fields(fields, 0),
                ));
            }
            Ok((Value::Struct(fields), body_end))
        },
        _ => {
            proof {
                assert(false);
            }
            Err(Error::TooShort)
        },
    }
}

/// Decodes a plain struct; see [`decode_struct`].
#[verifier::rlimit(100)]
#[verifier::spinoff_prover]
fn decode_struct_plain(
    opts: &SomeIpOptions,
    t: &SomeIpType,
    data: &[u8],
    pos: usize,
    limit: usize,
    in_tlv: bool,
    ovr: Option<LengthFieldSize>,
) -> (r: SomeIpResult<(Value, usize)>)
    requires
        t is Struct,
        !t->Struct_0.uses_tlv_serialization,
        pos <= limit <= data@.len(),
    ensures
        match r {
            Ok((v, p)) => pos <= p <= limit && spec_decode(
                *opts,
                *t,
                data@,
                pos as int,
                limit as int,
                in_tlv,
                ovr,
            ) == Ok::<(ValueV, int), ErrorV>((deep_value(v), p - pos)),
            Err(e) => spec_decode(*opts, *t, data@, pos as int, limit as int, in_tlv, ovr)
                == Err::<(ValueV, int), ErrorV>(e@),
        },
    decreases *t, 1int,
{
    match t {
        SomeIpType::Struct(st) => {
            let wanted = t.wanted_length_field(opts, in_tlv);
            let has_section = wanted.is_some() || ovr.is_some();
            let body_pos: usize;
            let body_end: usize;
            if has_section {
                let (len, w) = match open_section(
                    opts,
                    t,
                    data,
                    pos,
                    limit,
                    in_tlv,
                    ovr,
                    Some(0),
                    Ghost(0int),
                ) {
                    Ok(pair) => pair,
                    Err(e) => {
                        return Err(e);
                    },
                };
                body_pos = pos + w;
                body_end = body_pos + len;
            } else {
                body_pos = pos;
                body_end = limit;
            }
            let (fields, fields_end) = match decode_plain_fields(
                opts,
                t,
                data,
                body_pos,
                body_end,
                has_section,
            ) {
                Ok(pair) => pair,
                Err(e) => {
                    return Err(e);
                },
            };
            proof {
                assert(deep_value(Value::Struct(fields)) == ValueV::Struct(
                    crate::value::deep_fields(fields, 0),
                ));
            }
            if has_section {
                if fields_end != body_end {
                    return Err(Error::NotAllBytesConsumed(body_end - fields_end));
                }
                Ok((Value::Struct(fields), body_end))
            } else {
                Ok((Value::Struct(fields), fields_end))
            }
        },
        _ => {
            proof {
                assert(false);
            }
            Err(Error::TooShort)
        },
    }
}


/// Reads the tag-value pairs of a TLV struct section, filling field slots
/// by id and skipping unknown ids; see [`spec_dec_tlv`].
#[verifier::loop_isolation(false)]
#[verifier::rlimit(100)]
fn decode_tlv_fields(
    opts: &SomeIpOptions,
    t: &SomeIpType,
    data: &[u8],
    body_pos: usize,
    body_end: usize,
) -> (r: SomeIpResult<Vec<Option<Value>>>)
    requires
        t is Struct,
        body_pos <= body_end <= data@.len(),
    ensures
        match r {
            Ok(fs) => spec_dec_tlv(
                *opts,
                t->Struct_0,
                data@,
                body_pos as int,
                body_end as int,
                Seq::new(t->Struct_0.fields@.len(), |j: int| None),
            ) == Ok::<(Seq<Option<ValueV>>, int), ErrorV>(
                (crate::value::deep_fields(fs, 0), body_end - body_pos),
            ),
            Err(e) => spec_dec_tlv(
                *opts,
                t->Struct_0,
                data@,
                body_pos as int,
                body_end as int,
                Seq::new(t->Struct_0.fields@.len(), |j: int| None),
            ) == Err::<(Seq<Option<ValueV>>, int), ErrorV>(e@),
        },
    decreases *t, 0int,
{
    match t {
        SomeIpType::Struct(st) => {
            let n = st.fields.len();
            let mut fields: Vec<Option<Value>> = Vec::new();
            let mut k: usize = 0;
            while k < n
                invariant
                    k <= n,
                    fields@.len() == k,
                    forall|j: int| 0 <= j < k ==> fields@[j] is None,
                decreases n - k,
            {
                fields.push(None);
                k = k + 1;
            }
            proof {
                lemma_deep_fields_len(fields, 0);
                assert forall|j: int| 0 <= j < fields@.len() implies crate::value::deep_fields(
                    fields,
                    0,
                )[j] is None by {
                    crate::value::lemma_deep_fields_index(fields, 0, j);
                }
                assert(crate::value::deep_fields(fields, 0) =~= Seq::new(
                    st.fields@.len(),
                    |j: int| None::<ValueV>,
                ));
            }
            let mut cur: usize = body_pos;
            while cur < body_end
                invariant
                    body_pos <= cur <= body_end,
                    fields@.len() == n == st.fields@.len(),
                    match spec_dec_tlv(
                        *opts,
                        *st,
                        data@,
                        cur as int,
                        body_end as int,
                        crate::value::deep_fields(fields, 0),
                    ) {
                        Ok((out, c)) => spec_dec_tlv(
                            *opts,
                            *st,
                            data@,
                            body_pos as int,
                            body_end as int,
                            Seq::new(st.fields@.len(), |j: int| None),
                        ) == Ok::<(Seq<Option<ValueV>>, int), ErrorV>(
                            (out, cur - body_pos + c),
                        ),
                        Err(e) => spec_dec_tlv(
                            *opts,
                            *st,
                            data@,
                            body_pos as int,
                            body_end as int,
                            Seq::new(st.fields@.len(), |j: int| None),
                        ) == Err::<(Seq<Option<ValueV>>, int), ErrorV>(e),
                    },
                decreases body_end - cur,
            {
                if body_end - cur < 2 {
                    return Err(Error::TooShort);
                }
                let tag = read_uint(data, cur, 2, opts.byte_order) as u16;
                proof {
                    crate::uint_bytes::lemma_uint_val_bound(
                        opts.byte_order,
                        data@.subrange(cur as int, cur as int + 2),
                    );
                    assert(crate::uint_bytes::pow256(2) == 0x10000) by {
                        reveal_with_fuel(crate::uint_bytes::pow256, 3);
                    }
                }
                let (wire, id) = WireType::disect_tag(tag);
                match st.field_index_by_id(id) {
                    Some(idx) => {
                        let field = &st.fields[idx];
                        match field.field_type.get_wire_type().check(wire) {
                            Ok(()) => {},
                            Err(e) => {
                                return Err(e);
                            },
                        }
                        let already = fields[idx].is_some();
                        proof {
                            crate::value::lemma_deep_fields_index(fields, 0, idx as int);
                        }
                        if already {
                            return Err(Error::Message(duplicate_field_message()));
                        }
                        let (v, p) = match decode_value(
                            opts,
                            &field.field_type,
                            data,
                            cur + 2,
                            body_end,
                            true,
                            wire.get_length_field_size(),
                        ) {
                            Ok(pair) => pair,
                            Err(e) => {
                                return Err(e);
                            },
                        };
                        let ghost pre_fields = fields;
                        fields.set(idx, Some(v));
                        proof {
                            lemma_deep_fields_update(pre_fields, fields, idx as int, v);
                        }
                        cur = p;
                    },
                    None => {
                        match wire.get_fixed_size() {
                            Some(fixed) => {
                                if body_end - cur - 2 < fixed {
                                    return Err(Error::TooShort);
                                }
                                cur = cur + 2 + fixed;
                            },
                            None => {
                                let size = match wire.get_length_field_size() {
                                    Some(sz) => sz,
                                    None => match opts.apply_defaults(st.length_field_size) {
                                        Some(sz) => sz,
                                        None => {
                                            return Err(Error::Message(no_skip_size_message()));
                                        },
                                    },
                                };
                                let w = size.num_bytes();
                                if body_end - cur - 2 < w {
                                    return Err(Error::TooShort);
                                }
                                let raw = read_uint(data, cur + 2, w, opts.byte_order);
                                proof {
                                    crate::uint_bytes::lemma_uint_val_bound(
                                        opts.byte_order,
                                        data@.subrange(cur as int + 2, cur as int + 2 + w as int),
                                    );
                                    assert(crate::uint_bytes::pow256(4) == 0x1_0000_0000) by {
                                        reveal_with_fuel(crate::uint_bytes::pow256, 5);
                                    }
                                    crate::uint_bytes::lemma_pow256_le_pub(w as nat, 4);
                                }
                                let skip_len = raw as usize;
                                if body_end - cur - 2 - w < skip_len {
                                    return Err(Error::TooShort);
                                }
                                cur = cur + 2 + w + skip_len;
                            },
                        }
                    },
                }
            }
            Ok(fields)
        },
        _ => {
            proof {
                assert(false);
            }
            Err(Error::TooShort)
        },
    }
}

/// Reads the fields of a plain struct in declaration order; see
/// [`spec_dec_fields`]. Returns the fields and the position after them.
#[verifier::loop_isolation(false)]
#[verifier::rlimit(100)]
fn decode_plain_fields(
    opts: &SomeIpOptions,
    t: &SomeIpType,
    data: &[u8],
    body_pos: usize,
    body_end: usize,
    in_section: bool,
) -> (r: SomeIpResult<(Vec<Option<Value>>, usize)>)
    requires
        t is Struct,
        body_pos <= body_end <= data@.len(),
    ensures
        match r {
            Ok((fs, p)) => body_pos <= p <= body_end && spec_dec_fields(
                *opts,
                t->Struct_0,
                data@,
                body_pos as int,
                body_end as int,
                0,
                in_section,
            ) == Ok::<(Seq<Option<ValueV>>, int), ErrorV>(
                (crate::value::deep_fields(fs, 0), p - body_pos),
            ),
            Err(e) => spec_dec_fields(
                *opts,
                t->Struct_0,
                data@,
                body_pos as int,
                body_end as int,
                0,
                in_section,
            ) == Err::<(Seq<Option<ValueV>>, int), ErrorV>(e@),
        },
    decreases *t, 0int,
{
    match t {
        SomeIpType::Struct(st) => {
            let n = st.fields.len();
            let mut fields: Vec<Option<Value>> = Vec::new();
            let mut cur: usize = body_pos;
            let mut i: usize = 0;
            proof {
                assert(crate::value::deep_fields(fields, 0) =~= Seq::<Option<ValueV>>::empty());
            }
            while i < n
                invariant
                    i <= n == st.fields@.len(),
                    body_pos <= cur <= body_end,
                    fields@.len() == i,
                    match spec_dec_fields(
                        *opts,
                        *st,
                        data@,
                        cur as int,
                        body_end as int,
                        i as int,
                        in_section,
                    ) {
                        Ok((rest, c)) => spec_dec_fields(
                            *opts,
                            *st,
                            data@,
                            body_pos as int,
                            body_end as int,
                            0,
                            in_section,
                        ) == Ok::<(Seq<Option<ValueV>>, int), ErrorV>(
                            (crate::value::deep_fields(fields, 0) + rest, cur - body_pos + c),
                        ),
                        Err(e) => spec_dec_fields(
                            *opts,
                            *st,
                            data@,
                            body_pos as int,
                            body_end as int,
                            0,
                            in_section,
                        ) == Err::<(Seq<Option<ValueV>>, int), ErrorV>(e),
                    },
                decreases n - i,
            {
                if in_section && cur == body_end {
                    return Err(Error::Message(fields_missing_message()));
                }
                proof {
                    crate::types::lemma_struct_field_decreases(*t, i as int);
                }
                let field = &st.fields[i];
                let (v, p) = match decode_value(
                    opts,
                    &field.field_type,
                    data,
                    cur,
                    body_end,
                    false,
                    None,
                ) {
                    Ok(pair) => pair,
                    Err(e) => {
                        return Err(e);
                    },
                };
                let ghost pre_fields = fields;
                fields.push(Some(v));
                proof {
                    lemma_deep_fields_push(pre_fields, fields, Some(v));
                    lemma_deep_fields_len(fields, 0);
                    match spec_dec_fields(
                        *opts,
                        *st,
                        data@,
                        p as int,
                        body_end as int,
                        i as int + 1,
                        in_section,
                    ) {
                        Ok((rest2, c2)) => {
                            assert(crate::value::deep_fields(pre_fields, 0) + (seq![
                                Some(deep_value(v)),
                            ] + rest2) =~= crate::value::deep_fields(fields, 0) + rest2);
                        },
                        Err(_) => {},
                    }
                }
                cur = p;
                i = i + 1;
            }
            proof {
                assert(crate::value::deep_fields(fields, 0) + Seq::<Option<ValueV>>::empty()
                    =~= crate::value::deep_fields(fields, 0));
            }
            Ok((fields, cur))
        },
        _ => {
            proof {
                assert(false);
            }
            Err(Error::TooShort)
        },
    }
}

proof fn lemma_deep_fields_push(fs: Vec<Option<Value>>, fs2: Vec<Option<Value>>, o: Option<Value>)
    requires
        fs2@ == fs@.push(o),
    ensures
        crate::value::deep_fields(fs2, 0) == crate::value::deep_fields(fs, 0).push(
            crate::value::deep_opt(o),
        ),
{
    lemma_deep_fields_len(fs, 0);
    lemma_deep_fields_len(fs2, 0);
    assert forall|k: int| 0 <= k < fs2@.len() implies crate::value::deep_fields(fs2, 0)[k]
        == crate::value::deep_fields(fs, 0).push(crate::value::deep_opt(o))[k] by {
        crate::value::lemma_deep_fields_index(fs2, 0, k);
        if k < fs@.len() {
            crate::value::lemma_deep_fields_index(fs, 0, k);
        }
    }
    assert(crate::value::deep_fields(fs2, 0) =~= crate::value::deep_fields(fs, 0).push(
        crate::value::deep_opt(o),
    ));
}

proof fn lemma_deep_fields_update(
    fs: Vec<Option<Value>>,
    fs2: Vec<Option<Value>>,
    idx: int,
    v: Value,
)
    requires
        0 <= idx < fs@.len(),
        fs2@ == fs@.update(idx, Some(v)),
    ensures
        crate::value::deep_fields(fs2, 0) == crate::value::deep_fields(fs, 0).update(
            idx,
            Some(deep_value(v)),
        ),
{
    lemma_deep_fields_len(fs, 0);
    lemma_deep_fields_len(fs2, 0);
    assert forall|k: int| 0 <= k < fs2@.len() implies crate::value::deep_fields(fs2, 0)[k]
        == crate::value::deep_fields(fs, 0).update(idx, Some(deep_value(v)))[k] by {
        crate::value::lemma_deep_fields_index(fs2, 0, k);
        crate::value::lemma_deep_fields_index(fs, 0, k);
    }
    assert(crate::value::deep_fields(fs2, 0) =~= crate::value::deep_fields(fs, 0).update(
        idx,
        Some(deep_value(v)),
    ));
}

/// Decodes `data` against schema `t` under the given options: exactly the
/// value of [`spec_from_slice`], or exactly its error. A successful decode
/// consumes the whole input; leftover bytes are an error.
pub fn from_slice(opts: &SomeIpOptions, t: &SomeIpType, data: &[u8]) -> (r: SomeIpResult<Value>)
    requires
        opts.spec_is_valid(),
        t.spec_valid(),
        t.spec_lf_ok(*opts, false),
    ensures
        match r {
            Ok(v) => spec_from_slice(*opts, *t, data@) == Ok::<ValueV, ErrorV>(deep_value(v)),
            Err(e) => spec_from_slice(*opts, *t, data@) == Err::<ValueV, ErrorV>(e@),
        },
{
    let n = data.len();
    match decode_value(opts, t, data, 0, n, false, None) {
        Ok((v, p)) => {
            if p == n {
                Ok(v)
            } else {
                Err(Error::NotAllBytesConsumed(n - p))
            }
        },
        Err(e) => Err(e),
    }
}

} // verus!
