//! The serializer: turns a schema and a value into wire bytes.
//!
//! The functions [`to_vec`] and [`append_to_vec`] are the entry points. The
//! mathematical meaning of serialization is [`spec_encode`]; every entry
//! point returns exactly its bytes, or exactly its error.

use vstd::prelude::*;

use crate::error::{Error, ErrorV, SomeIpResult};
use crate::length_fields::LengthFieldSize;
use crate::options::{SomeIpOptions, StringEncoding};
use crate::text::{push_string_content, spec_string_content};
use crate::types::{
    spec_name_lookup, SomeIpEnumValue, SomeIpPrimitive, SomeIpSequence, SomeIpStruct, SomeIpType,
};
use crate::uint_bytes::{pow256, push_uint, spec_uint_bytes};
use crate::value::{deep_value, lemma_deep_fields_index, lemma_deep_fields_len, lemma_deep_values_index, lemma_deep_values_len, spec_value_matches, Value, ValueV};
use crate::wire_type::WireType;

verus! {

broadcast use vstd::std_specs::vec::axiom_vec_index_decreases;

/// The bytes of a primitive value: one byte for bool, the configured byte
/// order otherwise, floats as their bit patterns.
pub open spec fn spec_prim_bytes(opts: SomeIpOptions, p: SomeIpPrimitive, v: ValueV) -> Seq<u8> {
    let order = opts.byte_order;
    match v {
        ValueV::Bool(b) => seq![if b { 1u8 } else { 0u8 }],
        ValueV::U8(x) => seq![x],
        ValueV::U16(x) => spec_uint_bytes(order, x as nat, 2),
        ValueV::U32(x) => spec_uint_bytes(order, x as nat, 4),
        ValueV::U64(x) => spec_uint_bytes(order, x as nat, 8),
        ValueV::I8(x) => seq![x as u8],
        ValueV::I16(x) => spec_uint_bytes(order, (x as u16) as nat, 2),
        ValueV::I32(x) => spec_uint_bytes(order, (x as u32) as nat, 4),
        ValueV::I64(x) => spec_uint_bytes(order, (x as u64) as nat, 8),
        ValueV::F32Bits(x) => spec_uint_bytes(order, x as nat, 4),
        ValueV::F64Bits(x) => spec_uint_bytes(order, x as nat, 8),
        _ => vstd::pervasive::arbitrary(),
    }
}

/// A closed length section: the measured payload length, written at the
/// selected width in the configured byte order, followed by the payload.
/// Besides the bytes, the selected width and whether it equals the
/// configured one are returned, for the TLV tag rewrite rule.
pub open spec fn spec_close_section(
    opts: SomeIpOptions,
    configured: LengthFieldSize,
    payload: Seq<u8>,
    in_tlv: bool,
) -> Result<(Seq<u8>, (LengthFieldSize, bool)), ErrorV> {
    match opts.spec_select_length_field_size(configured, payload.len() as int, in_tlv) {
        Ok(actual) => Ok(
            (
                spec_uint_bytes(opts.byte_order, payload.len(), actual.spec_num_bytes() as nat)
                    + payload,
                (actual, actual == configured),
            ),
        ),
        Err(e) => Err(e),
    }
}

/// The encoding of one value against one schema node, in the given TLV
/// context: the bytes, and the information about the node's own length
/// section when it opened one. This is the meaning of serialization; the
/// serializer produces exactly these bytes.
pub open spec fn spec_encode(
    opts: SomeIpOptions,
    t: SomeIpType,
    v: ValueV,
    in_tlv: bool,
) -> Result<(Seq<u8>, Option<(LengthFieldSize, bool)>), ErrorV>
    decreases t, 1int, 0int,
{
    match t {
        SomeIpType::Primitive(p) => Ok((spec_prim_bytes(opts, p, v), None)),
        SomeIpType::Enum(e) => match v {
            ValueV::EnumVariant(name) => match spec_name_lookup(e.values@, name) {
                Some(ev) => Ok(
                    (
                        spec_uint_bytes(
                            opts.byte_order,
                            ev.spec_unsigned(),
                            ev.spec_width() as nat,
                        ),
                        None,
                    ),
                ),
                None => vstd::pervasive::arbitrary(),
            },
            _ => vstd::pervasive::arbitrary(),
        },
        SomeIpType::String(st) => match v {
            ValueV::Str(chars) => {
                if opts.string_encoding == StringEncoding::Ascii && !vstd::utf8::is_ascii_chars(
                    chars,
                ) {
                    Err(
                        ErrorV::CannotCodeString(
                            crate::error::StringCodeError::NonAsciiContent,
                        ),
                    )
                } else {
                    let content = spec_string_content(opts, chars);
                    if content.len() < st.min_size {
                        Err(ErrorV::NotEnoughData { min: st.min_size as int, actual: content.len() as int })
                    } else if content.len() > st.max_size {
                        Err(ErrorV::TooMuchData { max: st.max_size as int, actual: content.len() as int })
                    } else {
                        match st.spec_wanted_length_field(opts, in_tlv) {
                            Some(conf) => match spec_close_section(opts, conf, content, in_tlv) {
                                Ok((bytes, info)) => Ok((bytes, Some(info))),
                                Err(e) => Err(e),
                            },
                            None => Ok((content, None)),
                        }
                    }
                }
            },
            _ => vstd::pervasive::arbitrary(),
        },
        SomeIpType::Sequence(s) => match v {
            ValueV::Bytes(bytes) => {
                if bytes.len() < s.min_elements {
                    Err(ErrorV::NotEnoughData { min: s.min_elements as int, actual: bytes.len() as int })
                } else if bytes.len() > s.max_elements {
                    Err(ErrorV::TooMuchData { max: s.max_elements as int, actual: bytes.len() as int })
                } else {
                    match t.spec_wanted_length_field(opts, in_tlv) {
                        Some(conf) => match spec_close_section(opts, conf, bytes, in_tlv) {
                            Ok((out, info)) => Ok((out, Some(info))),
                            Err(e) => Err(e),
                        },
                        None => Ok((bytes, None)),
                    }
                }
            },
            ValueV::Sequence(elems) => {
                if elems.len() < s.min_elements {
                    Err(ErrorV::NotEnoughData { min: s.min_elements as int, actual: elems.len() as int })
                } else if elems.len() > s.max_elements {
                    Err(ErrorV::TooMuchData { max: s.max_elements as int, actual: elems.len() as int })
                } else {
                    match spec_encode_elems(opts, s, elems, 0) {
                        Ok(payload) => match t.spec_wanted_length_field(opts, in_tlv) {
                            Some(conf) => match spec_close_section(opts, conf, payload, in_tlv) {
                                Ok((out, info)) => Ok((out, Some(info))),
                                Err(e) => Err(e),
                            },
                            None => Ok((payload, None)),
                        },
                        Err(e) => Err(e),
                    }
                }
            },
            _ => vstd::pervasive::arbitrary(),
        },
        SomeIpType::Struct(st) => match v {
            ValueV::Struct(fields) => {
                match spec_encode_fields(opts, st, fields, 0) {
                    Ok(payload) => match st.spec_wanted_length_field(opts, in_tlv) {
                        Some(conf) => match spec_close_section(opts, conf, payload, in_tlv) {
                            Ok((out, info)) => Ok((out, Some(info))),
                            Err(e) => Err(e),
                        },
                        None => Ok((payload, None)),
                    },
                    Err(e) => Err(e),
                }
            },
            _ => vstd::pervasive::arbitrary(),
        },
    }
}

/// The concatenated encodings of the sequence elements from index `i` on,
/// each outside any TLV context.
pub open spec fn spec_encode_elems(
    opts: SomeIpOptions,
    s: SomeIpSequence,
    elems: Seq<ValueV>,
    i: int,
) -> Result<Seq<u8>, ErrorV>
    decreases s, 0int, elems.len() - i,
{
    if i < 0 || i >= elems.len() {
        Ok(Seq::empty())
    } else {
        match spec_encode(opts, *s.element_type, elems[i], false) {
            Ok((bytes, _)) => match spec_encode_elems(opts, s, elems, i + 1) {
                Ok(rest) => Ok(bytes + rest),
                Err(e) => Err(e),
            },
            Err(e) => Err(e),
        }
    }
}

/// The tag announcing field `i` of a TLV struct, once the field's value
/// bytes are known: the field type's wire type, except that a
/// length-delimited field announces the actual width chosen for its
/// section, unless the legacy option keeps the from-config wire type when
/// the width equals the configured one.
pub open spec fn spec_field_tag(
    opts: SomeIpOptions,
    field_wire: WireType,
    id: u16,
    info: Option<(LengthFieldSize, bool)>,
) -> u16 {
    if field_wire == WireType::LengthDelimitedFromConfig {
        match info {
            Some((actual, as_configured)) => {
                if !as_configured || !opts.serializer_use_legacy_wire_type {
                    WireType::spec_tag(WireType::spec_for_length_field_size(actual), id)
                } else {
                    WireType::spec_tag(field_wire, id)
                }
            },
            None => vstd::pervasive::arbitrary(),
        }
    } else {
        WireType::spec_tag(field_wire, id)
    }
}

/// The encoding of one struct field: in a TLV struct a tag and the value,
/// and in a plain struct the value alone.
pub open spec fn spec_field_chunk(
    opts: SomeIpOptions,
    field: crate::types::SomeIpField,
    fv: ValueV,
    uses_tlv: bool,
) -> Result<Seq<u8>, ErrorV>
    decreases field, 2int, 0int,
{
    match spec_encode(opts, *field.field_type, fv, uses_tlv) {
        Ok((bytes, info)) => {
            if uses_tlv {
                let wire = field.field_type.spec_wire_type();
                let tag = spec_field_tag(opts, wire, field.id.unwrap(), info);
                Ok(spec_uint_bytes(opts.byte_order, tag as nat, 2) + bytes)
            } else {
                Ok(bytes)
            }
        },
        Err(e) => Err(e),
    }
}

/// The concatenated encodings of the struct fields from index `i` on: an
/// absent field is nothing, a present one is its chunk.
pub open spec fn spec_encode_fields(
    opts: SomeIpOptions,
    st: SomeIpStruct,
    fields: Seq<Option<ValueV>>,
    i: int,
) -> Result<Seq<u8>, ErrorV>
    decreases st, 3int, fields.len() - i,
{
    if i < 0 || i >= fields.len() || i >= st.fields@.len() {
        Ok(Seq::empty())
    } else {
        let rest = spec_encode_fields(opts, st, fields, i + 1);
        match fields[i] {
            None => rest,
            Some(fv) => {
                match spec_field_chunk(opts, st.fields@[i], fv, st.uses_tlv_serialization) {
                    Ok(chunk) => match rest {
                        Ok(rest_bytes) => Ok(chunk + rest_bytes),
                        Err(e) => Err(e),
                    },
                    Err(e) => Err(e),
                }
            },
        }
    }
}

/// The wire bytes of `v` against schema `t` at the top level.
pub open spec fn spec_to_vec(opts: SomeIpOptions, t: SomeIpType, v: ValueV) -> Result<
    Seq<u8>,
    ErrorV,
> {
    match spec_encode(opts, t, v, false) {
        Ok((bytes, _)) => Ok(bytes),
        Err(e) => Err(e),
    }
}

/// When the selection rule picks a width, the measured length fits it.
proof fn lemma_select_fits(opts: SomeIpOptions, conf: LengthFieldSize, len: int, in_tlv: bool)
    ensures
        match opts.spec_select_length_field_size(conf, len, in_tlv) {
            Ok(actual) => 0 <= len ==> len <= actual.spec_max_value(),
            Err(_) => true,
        },
{
}

proof fn lemma_lfs_fits_pow(actual: LengthFieldSize)
    ensures
        actual.spec_max_value() + 1 == pow256(actual.spec_num_bytes() as nat),
        actual.spec_num_bytes() <= 8,
{
    reveal_with_fuel(pow256, 5);
}

/// Closes the length section that was opened at `pos`: measures the payload
/// written since, selects the width, and patches the length field in before
/// the payload. Returns the selected width and whether it equals the
/// configured one.
fn end_section(
    buf: &mut Vec<u8>,
    opts: &SomeIpOptions,
    configured: LengthFieldSize,
    pos: usize,
    in_tlv: bool,
) -> (r: SomeIpResult<(LengthFieldSize, bool)>)
    requires
        pos <= old(buf)@.len(),
    ensures
        match r {
            Ok(info) => match spec_close_section(
                *opts,
                configured,
                old(buf)@.skip(pos as int),
                in_tlv,
            ) {
                Ok((bytes, spec_info)) => final(buf)@ == old(buf)@.take(pos as int) + bytes && info
                    == spec_info,
                Err(_) => false,
            },
            Err(e) => spec_close_section(*opts, configured, old(buf)@.skip(pos as int), in_tlv)
                == Err::<(Seq<u8>, (LengthFieldSize, bool)), ErrorV>(e@) && final(buf)@ == old(
                buf,
            )@,
        },
{
    let end = buf.len();
    let len = end - pos;
    let ghost payload = buf@.skip(pos as int);
    let actual = match opts.select_length_field_size(configured, len, in_tlv) {
        Ok(a) => a,
        Err(e) => {
            return Err(e);
        },
    };
    proof {
        lemma_select_fits(*opts, configured, len as int, in_tlv);
        lemma_lfs_fits_pow(actual);
    }
    let tail = vstd::slice::slice_to_vec(vstd::slice::slice_subrange(buf.as_slice(), pos, end));
    buf.truncate(pos);
    push_uint(buf, opts.byte_order, len as u64, actual.num_bytes());
    buf.extend_from_slice(tail.as_slice());
    proof {
        assert(tail@ =~= payload);
        assert(buf@ =~= old(buf)@.take(pos as int) + (spec_uint_bytes(
            opts.byte_order,
            len as nat,
            actual.spec_num_bytes() as nat,
        ) + payload));
    }
    Ok((actual, actual == configured))
}

/// The width of an enum value on the wire.
fn enum_value_width(v: &SomeIpEnumValue) -> (r: usize)
    ensures
        r == v.spec_width(),
{
    match v {
        SomeIpEnumValue::U8(_) | SomeIpEnumValue::I8(_) => 1,
        SomeIpEnumValue::U16(_) | SomeIpEnumValue::I16(_) => 2,
        SomeIpEnumValue::U32(_) | SomeIpEnumValue::I32(_) => 4,
        SomeIpEnumValue::U64(_) | SomeIpEnumValue::I64(_) => 8,
    }
}

/// Serializes `v` against schema node `t`, appending to `buf`; returns the
/// node's length section information for the TLV tag rewrite. The appended
/// bytes are exactly those of [`spec_encode`].
#[verifier::loop_isolation(false)]
fn serialize_value(
    buf: &mut Vec<u8>,
    opts: &SomeIpOptions,
    t: &SomeIpType,
    v: &Value,
    in_tlv: bool,
) -> (r: SomeIpResult<Option<(LengthFieldSize, bool)>>)
    requires
        t.spec_valid(),
        t.spec_lf_ok(*opts, in_tlv),
        t.spec_tlv_clean(),
        spec_value_matches(*t, deep_value(*v)),
    ensures
        match r {
            Ok(info) => match spec_encode(*opts, *t, deep_value(*v), in_tlv) {
                Ok((bytes, spec_info)) => final(buf)@ == old(buf)@ + bytes && info == spec_info,
                Err(_) => false,
            },
            Err(e) => spec_encode(*opts, *t, deep_value(*v), in_tlv) == Err::<
                (Seq<u8>, Option<(LengthFieldSize, bool)>),
                ErrorV,
            >(e@),
        },
    decreases *t, 2int,
{
    match t {
        SomeIpType::Primitive(p) => {
            proof {
                reveal_with_fuel(pow256, 9);
            }
            match v {
                Value::Bool(b) => buf.push(if *b { 1 } else { 0 }),
                Value::U8(x) => buf.push(*x),
                Value::U16(x) => push_uint(buf, opts.byte_order, *x as u64, 2),
                Value::U32(x) => push_uint(buf, opts.byte_order, *x as u64, 4),
                Value::U64(x) => push_uint(buf, opts.byte_order, *x, 8),
                Value::I8(x) => buf.push(*x as u8),
                Value::I16(x) => push_uint(buf, opts.byte_order, (*x as u16) as u64, 2),
                Value::I32(x) => push_uint(buf, opts.byte_order, (*x as u32) as u64, 4),
                Value::I64(x) => push_uint(buf, opts.byte_order, (*x as i64) as u64, 8),
                Value::F32Bits(x) => push_uint(buf, opts.byte_order, *x as u64, 4),
                Value::F64Bits(x) => push_uint(buf, opts.byte_order, *x as u64, 8),
                _ => {
                    proof {
                        assert(false);
                    }
                    return Err(Error::TooShort);
                },
            }
            proof {
                reveal_with_fuel(pow256, 9);
                assert(buf@ =~= old(buf)@ + spec_prim_bytes(*opts, *p, deep_value(*v)));
            }
            Ok(None)
        },
        SomeIpType::Enum(e) => {
            let name = match v {
                Value::EnumVariant(n) => n,
                _ => {
                    proof {
                        assert(false);
                    }
                    return Err(Error::TooShort);
                },
            };
            let ev = match e.name_to_value(name.as_str()) {
                Some(ev) => ev,
                None => {
                    proof {
                        assert(false);
                    }
                    return Err(Error::TooShort);
                },
            };
            let width = enum_value_width(ev);
            proof {
                reveal_with_fuel(pow256, 9);
            }
            push_uint(buf, opts.byte_order, ev.unsigned_bits(), width);
            Ok(None)
        },
        SomeIpType::String(st) => {
            let s = match v {
                Value::Str(s) => s,
                _ => {
                    proof {
                        assert(false);
                    }
                    return Err(Error::TooShort);
                },
            };
            if matches!(opts.string_encoding, StringEncoding::Ascii) && !s.as_str().is_ascii() {
                return Err(
                    Error::CannotCodeString(crate::error::StringCodeError::NonAsciiContent),
                );
            }
            let pos = buf.len();
            push_string_content(buf, opts, s.as_str());
            let content_len = buf.len() - pos;
            if content_len < st.min_size {
                return Err(Error::NotEnoughData { min: st.min_size, actual: content_len });
            }
            if content_len > st.max_size {
                return Err(Error::TooMuchData { max: st.max_size, actual: content_len });
            }
            let wanted = t.wanted_length_field(opts, in_tlv);
            match wanted {
                Some(conf) => {
                    proof {
                        assert(old(buf)@.is_prefix_of(buf@));
                        assert(buf@.skip(pos as int) =~= spec_string_content(*opts, s@));
                        assert(buf@.take(pos as int) =~= old(buf)@);
                    }
                    match end_section(buf, opts, conf, pos, in_tlv) {
                        Ok(info) => Ok(Some(info)),
                        Err(e) => Err(e),
                    }
                },
                None => Ok(None),
            }
        },
        SomeIpType::Sequence(_) => serialize_sequence(buf, opts, t, v, in_tlv),
        SomeIpType::Struct(_) => serialize_struct(buf, opts, t, v, in_tlv),
    }
}

/// Serializes a sequence value; see [`serialize_value`].
#[verifier::loop_isolation(false)]
fn serialize_sequence(
    buf: &mut Vec<u8>,
    opts: &SomeIpOptions,
    t: &SomeIpType,
    v: &Value,
    in_tlv: bool,
) -> (r: SomeIpResult<Option<(LengthFieldSize, bool)>>)
    requires
        t is Sequence,
        t.spec_valid(),
        t.spec_lf_ok(*opts, in_tlv),
        t.spec_tlv_clean(),
        spec_value_matches(*t, deep_value(*v)),
    ensures
        match r {
            Ok(info) => match spec_encode(*opts, *t, deep_value(*v), in_tlv) {
                Ok((bytes, spec_info)) => final(buf)@ == old(buf)@ + bytes && info == spec_info,
                Err(_) => false,
            },
            Err(e) => spec_encode(*opts, *t, deep_value(*v), in_tlv) == Err::<
                (Seq<u8>, Option<(LengthFieldSize, bool)>),
                ErrorV,
            >(e@),
        },
    decreases *t, 0int,
{
    match t {
        SomeIpType::Sequence(s) => {
            match v {
                Value::Bytes(bytes) => {
                    proof {
                        assert(*s.element_type == SomeIpType::Primitive(SomeIpPrimitive::U8));
                    }
                    if bytes.len() < s.min_elements {
                        return Err(
                            Error::NotEnoughData { min: s.min_elements, actual: bytes.len() },
                        );
                    }
                    if bytes.len() > s.max_elements {
                        return Err(
                            Error::TooMuchData { max: s.max_elements, actual: bytes.len() },
                        );
                    }
                    let pos = buf.len();
                    buf.extend_from_slice(bytes.as_slice());
                    let wanted = t.wanted_length_field(opts, in_tlv);
                    match wanted {
                        Some(conf) => {
                            proof {
                                assert(buf@.skip(pos as int) =~= bytes@);
                                assert(buf@.take(pos as int) =~= old(buf)@);
                            }
                            match end_section(buf, opts, conf, pos, in_tlv) {
                                Ok(info) => Ok(Some(info)),
                                Err(e) => Err(e),
                            }
                        },
                        None => {
                            proof {
                                assert(buf@ =~= old(buf)@ + bytes@);
                            }
                            Ok(None)
                        },
                    }
                },
                Value::Sequence(elems) => {
                    let ghost elemsv = deep_value(*v)->Sequence_0;
                    proof {
                        assert(elemsv =~= crate::value::deep_values(*elems, 0));
                        lemma_deep_values_len(*elems, 0);
                    }
                    if elems.len() < s.min_elements {
                        return Err(
                            Error::NotEnoughData { min: s.min_elements, actual: elems.len() },
                        );
                    }
                    if elems.len() > s.max_elements {
                        return Err(
                            Error::TooMuchData { max: s.max_elements, actual: elems.len() },
                        );
                    }
                    let pos = buf.len();
                    let n = elems.len();
                    let mut i: usize = 0;
                    while i < n
                        invariant
                            i <= n,
                            buf@.len() >= pos,
                            match spec_encode_elems(*opts, *s, elemsv, i as int) {
                                Ok(rest) => spec_encode_elems(*opts, *s, elemsv, 0) == Ok::<
                                    Seq<u8>,
                                    ErrorV,
                                >(buf@.skip(pos as int) + rest),
                                Err(e) => spec_encode_elems(*opts, *s, elemsv, 0) == Err::<
                                    Seq<u8>,
                                    ErrorV,
                                >(e),
                            },
                            buf@.take(pos as int) == old(buf)@,
                        decreases n - i,
                    {
                        proof {
                            lemma_deep_values_index(*elems, 0, i as int);
                            lemma_elems_match_at(*s, elemsv, i as int);
                        }
                        let ghost buf0 = buf@;
                        match serialize_value(buf, opts, &s.element_type, &elems[i], false) {
                            Ok(_) => {},
                            Err(e) => {
                                proof {
                                    assert(spec_encode_elems(*opts, *s, elemsv, i as int)
                                        == Err::<Seq<u8>, ErrorV>(e@));
                                }
                                return Err(e);
                            },
                        }
                        proof {
                            let stepped = spec_encode(
                                *opts,
                                *s.element_type,
                                elemsv[i as int],
                                false,
                            );
                            let bytes = stepped->Ok_0.0;
                            assert(buf@ == buf0 + bytes);
                            assert(buf@.skip(pos as int) =~= buf0.skip(pos as int) + bytes);
                            match spec_encode_elems(*opts, *s, elemsv, i as int + 1) {
                                Ok(rest) => {
                                    assert(spec_encode_elems(*opts, *s, elemsv, i as int) == Ok::<
                                        Seq<u8>,
                                        ErrorV,
                                    >(bytes + rest));
                                    assert(buf0.skip(pos as int) + (bytes + rest) =~= buf@.skip(
                                        pos as int,
                                    ) + rest);
                                },
                                Err(e) => {
                                    assert(spec_encode_elems(*opts, *s, elemsv, i as int) == Err::<
                                        Seq<u8>,
                                        ErrorV,
                                    >(e));
                                },
                            }
                            assert(buf@.take(pos as int) =~= old(buf)@);
                        }
                        i = i + 1;
                    }
                    let wanted = t.wanted_length_field(opts, in_tlv);
                    let ghost payload = buf@.skip(pos as int);
                    proof {
                        assert(spec_encode_elems(*opts, *s, elemsv, n as int) == Ok::<
                            Seq<u8>,
                            ErrorV,
                        >(Seq::empty()));
                        assert(payload + Seq::<u8>::empty() =~= payload);
                    }
                    match wanted {
                        Some(conf) => {
                            match end_section(buf, opts, conf, pos, in_tlv) {
                                Ok(info) => Ok(Some(info)),
                                Err(e) => Err(e),
                            }
                        },
                        None => {
                            proof {
                                assert(buf@ =~= old(buf)@ + payload);
                            }
                            Ok(None)
                        },
                    }
                },
                _ => {
                    proof {
                        assert(false);
                    }
                    return Err(Error::TooShort);
                },
            }
        },
        _ => {
            proof {
                assert(false);
            }
            Err(Error::TooShort)
        },
    }
}

/// Serializes a struct value; see [`serialize_value`].
#[verifier::loop_isolation(false)]
fn serialize_struct(
    buf: &mut Vec<u8>,
    opts: &SomeIpOptions,
    t: &SomeIpType,
    v: &Value,
    in_tlv: bool,
) -> (r: SomeIpResult<Option<(LengthFieldSize, bool)>>)
    requires
        t is Struct,
        t.spec_valid(),
        t.spec_lf_ok(*opts, in_tlv),
        t.spec_tlv_clean(),
        spec_value_matches(*t, deep_value(*v)),
    ensures
        match r {
            Ok(info) => match spec_encode(*opts, *t, deep_value(*v), in_tlv) {
                Ok((bytes, spec_info)) => final(buf)@ == old(buf)@ + bytes && info == spec_info,
                Err(_) => false,
            },
            Err(e) => spec_encode(*opts, *t, deep_value(*v), in_tlv) == Err::<
                (Seq<u8>, Option<(LengthFieldSize, bool)>),
                ErrorV,
            >(e@),
        },
    decreases *t, 1int,
{
    match t {
        SomeIpType::Struct(st) => {
            let fields = match v {
                Value::Struct(fs) => fs,
                _ => {
                    proof {
                        assert(false);
                    }
                    return Err(Error::TooShort);
                },
            };
            let pos = buf.len();
            let ghost fieldsv = deep_value(*v)->Struct_0;
            proof {
                assert(fieldsv =~= crate::value::deep_fields(*fields, 0));
                lemma_deep_fields_len(*fields, 0);
            }
            let n = fields.len();
            let mut i: usize = 0;
            while i < n
                invariant
                    i <= n,
                    buf@.len() >= pos,
                    match spec_encode_fields(*opts, *st, fieldsv, i as int) {
                        Ok(rest) => spec_encode_fields(*opts, *st, fieldsv, 0) == Ok::<
                            Seq<u8>,
                            ErrorV,
                        >(buf@.skip(pos as int) + rest),
                        Err(e) => spec_encode_fields(*opts, *st, fieldsv, 0) == Err::<
                            Seq<u8>,
                            ErrorV,
                        >(e),
                    },
                    buf@.take(pos as int) == old(buf)@,
                decreases n - i,
            {
                proof {
                    lemma_deep_fields_index(*fields, 0, i as int);
                    lemma_struct_fields_match_at(*st, fieldsv, i as int);
                    lemma_fields_valid_at(*st, i as int);
                    lemma_fields_lf_ok_at(*st, *opts, i as int);
                    lemma_fields_tlv_clean_at(*st, i as int);
                    crate::types::lemma_struct_field_decreases(*t, i as int);
                }
                let ghost buf0 = buf@;
                match &fields[i] {
                    None => {
                        // An absent optional field: no tag, no bytes.
                        proof {
                            assert(fieldsv[i as int] is None);
                            assert(spec_encode_fields(*opts, *st, fieldsv, i as int)
                                == spec_encode_fields(*opts, *st, fieldsv, i as int + 1));
                        }
                    },
                    Some(fv) => {
                        proof {
                            assert(fieldsv[i as int] == Some(deep_value(*fv)));
                        }
                        match serialize_field(
                            buf,
                            opts,
                            &st.fields[i],
                            fv,
                            st.uses_tlv_serialization,
                        ) {
                            Ok(()) => {},
                            Err(e) => {
                                proof {
                                    assert(spec_encode_fields(*opts, *st, fieldsv, i as int)
                                        == Err::<Seq<u8>, ErrorV>(e@));
                                }
                                return Err(e);
                            },
                        }
                        proof {
                            let chunk = spec_field_chunk(
                                *opts,
                                st.fields@[i as int],
                                fieldsv[i as int]->0,
                                st.uses_tlv_serialization,
                            )->Ok_0;
                            assert(buf@ == buf0 + chunk);
                            assert(buf@.skip(pos as int) =~= buf0.skip(pos as int) + chunk);
                            match spec_encode_fields(*opts, *st, fieldsv, i as int + 1) {
                                Ok(rest) => {
                                    assert(spec_encode_fields(*opts, *st, fieldsv, i as int)
                                        == Ok::<Seq<u8>, ErrorV>(chunk + rest));
                                    assert(buf0.skip(pos as int) + (chunk + rest) =~= buf@.skip(
                                        pos as int,
                                    ) + rest);
                                },
                                Err(e) => {},
                            }
                        }
                    },
                }
                proof {
                    assert(buf@.take(pos as int) =~= old(buf)@);
                }
                i = i + 1;
            }
            let ghost payload = buf@.skip(pos as int);
            proof {
                assert(spec_encode_fields(*opts, *st, fieldsv, n as int) == Ok::<Seq<u8>, ErrorV>(
                    Seq::empty(),
                ));
                assert(payload + Seq::<u8>::empty() =~= payload);
            }
            let wanted = t.wanted_length_field(opts, in_tlv);
            match wanted {
                Some(conf) => {
                    match end_section(buf, opts, conf, pos, in_tlv) {
                        Ok(info) => Ok(Some(info)),
                        Err(e) => Err(e),
                    }
                },
                None => {
                    proof {
                        assert(buf@ =~= old(buf)@ + payload);
                    }
                    Ok(None)
                },
            }
        },
        _ => {
            proof {
                assert(false);
            }
            Err(Error::TooShort)
        },
    }
}

/// Serializes one present struct field: its tag first under TLV, then the
/// value, with the tag's wire type patched to the actual length field width
/// the value's section chose.
fn serialize_field(
    buf: &mut Vec<u8>,
    opts: &SomeIpOptions,
    field: &crate::types::SomeIpField,
    fv: &Value,
    uses_tlv: bool,
) -> (r: SomeIpResult<()>)
    requires
        field.field_type.spec_valid(),
        field.field_type.spec_lf_ok(*opts, uses_tlv),
        field.field_type.spec_tlv_clean(),
        uses_tlv ==> field.id is Some && field.id.unwrap() <= 0xFFF,
        uses_tlv ==> !(*field.field_type is Struct
            && (*field.field_type)->Struct_0.is_message_wrapper),
        spec_value_matches(*field.field_type, deep_value(*fv)),
    ensures
        match r {
            Ok(()) => match spec_field_chunk(*opts, *field, deep_value(*fv), uses_tlv) {
                Ok(chunk) => final(buf)@ == old(buf)@ + chunk,
                Err(_) => false,
            },
            Err(e) => spec_field_chunk(*opts, *field, deep_value(*fv), uses_tlv) == Err::<
                Seq<u8>,
                ErrorV,
            >(e@),
        },
    decreases *field.field_type, 3int,
{
    let field_start = buf.len();
    let ghost buf0 = buf@;
    let wire = field.field_type.get_wire_type();
    let is_ld_from_config = matches!(wire, WireType::LengthDelimitedFromConfig);
    if uses_tlv {
        let id = match field.id {
            Some(id) => id,
            None => {
                proof {
                    assert(false);
                }
                return Err(Error::TooShort);
            },
        };
        let tag = wire.tag_for(id);
        proof {
            reveal_with_fuel(pow256, 3);
        }
        push_uint(buf, opts.byte_order, tag as u64, 2);
        proof {
            crate::uint_bytes::lemma_uint_bytes_len(opts.byte_order, tag as nat, 2);
        }
    }
    let ghost tagged = buf@;
    let info = match serialize_value(buf, opts, &field.field_type, fv, uses_tlv) {
        Ok(info) => info,
        Err(e) => {
            return Err(e);
        },
    };
    let ghost enc = spec_encode(*opts, *field.field_type, deep_value(*fv), uses_tlv);
    let ghost body_bytes = enc->Ok_0.0;
    proof {
        assert(enc is Ok);
        assert(buf@ == tagged + body_bytes);
        assert(uses_tlv ==> tagged.len() == buf0.len() + 2);
    }
    if uses_tlv && is_ld_from_config {
        let (actual, as_configured) = match info {
            Some(pair) => pair,
            None => {
                proof {
                    lemma_tlv_field_opens_section(*opts, *field.field_type, deep_value(*fv));
                    assert(false);
                }
                return Err(Error::TooShort);
            },
        };
        if !as_configured || !opts.serializer_use_legacy_wire_type {
            let id = match field.id {
                Some(id) => id,
                None => {
                    proof {
                        assert(false);
                    }
                    return Err(Error::TooShort);
                },
            };
            let new_tag = WireType::for_length_field_size(actual).tag_for(id);
            let ghost pre = buf@;
            let b0: u8;
            let b1: u8;
            match opts.byte_order {
                crate::options::ByteOrder::BigEndian => {
                    b0 = (new_tag / 0x100) as u8;
                    b1 = (new_tag % 0x100) as u8;
                },
                crate::options::ByteOrder::LittleEndian => {
                    b0 = (new_tag % 0x100) as u8;
                    b1 = (new_tag / 0x100) as u8;
                },
            }
            let cur_len = buf.len();
            proof {
                reveal_with_fuel(pow256, 3);
                crate::uint_bytes::lemma_uint_bytes_len(opts.byte_order, new_tag as nat, 2);
                assert(cur_len >= field_start + 2);
            }
            buf[field_start] = b0;
            buf[field_start + 1] = b1;
            proof {
                reveal_with_fuel(pow256, 3);
                vstd::arithmetic::div_mod::lemma_div_basics(new_tag as int);
                vstd::arithmetic::div_mod::lemma_multiply_divide_lt(new_tag as int, 0x100, 0x100);
                vstd::arithmetic::div_mod::lemma_small_mod(
                    (new_tag as nat) / 0x100,
                    0x100,
                );
                assert(spec_uint_bytes(opts.byte_order, new_tag as nat, 2) =~= seq![b0, b1]);
                assert(buf@ =~= buf0 + spec_uint_bytes(opts.byte_order, new_tag as nat, 2)
                    + body_bytes);
                assert(new_tag == spec_field_tag(
                    *opts,
                    field.field_type.spec_wire_type(),
                    field.id.unwrap(),
                    info,
                ));
            }
        } else {
            proof {
                reveal_with_fuel(pow256, 3);
            }
        }
    }
    proof {
        if uses_tlv {
            let final_tag = spec_field_tag(
                *opts,
                field.field_type.spec_wire_type(),
                field.id.unwrap(),
                info,
            );
            assert(buf@ =~= buf0 + (spec_uint_bytes(opts.byte_order, final_tag as nat, 2)
                + body_bytes));
        } else {
            assert(buf@ =~= buf0 + body_bytes);
        }
    }
    Ok(())
}

/// A well-formed length-delimited TLV field always opens its own length
/// section, so the tag rewrite always has a width to announce.
pub(crate) proof fn lemma_tlv_field_opens_section(opts: SomeIpOptions, t: SomeIpType, v: ValueV)
    requires
        t.spec_lf_ok(opts, true),
        t.spec_tlv_clean(),
        t.spec_wire_type() == WireType::LengthDelimitedFromConfig,
        !(t is Struct && t->Struct_0.is_message_wrapper),
        spec_value_matches(t, v),
    ensures
        match spec_encode(opts, t, v, true) {
            Ok((_, info)) => info is Some,
            Err(_) => true,
        },
{
}

pub(crate) proof fn lemma_elems_match_at(s: SomeIpSequence, elems: Seq<ValueV>, k: int)
    requires
        crate::value::spec_elems_match(s, elems, 0),
        0 <= k < elems.len(),
    ensures
        spec_value_matches(*s.element_type, elems[k]),
{
    lemma_elems_match_from(s, elems, 0, k);
}

proof fn lemma_elems_match_from(s: SomeIpSequence, elems: Seq<ValueV>, i: int, k: int)
    requires
        crate::value::spec_elems_match(s, elems, i),
        0 <= i <= k < elems.len(),
    ensures
        spec_value_matches(*s.element_type, elems[k]),
    decreases k - i,
{
    if i < k {
        lemma_elems_match_from(s, elems, i + 1, k);
    }
}

pub(crate) proof fn lemma_struct_fields_match_at(st: SomeIpStruct, fields: Seq<Option<ValueV>>, k: int)
    requires
        crate::value::spec_struct_fields_match(st, fields, 0),
        0 <= k < fields.len(),
        fields.len() == st.fields@.len(),
    ensures
        match fields[k] {
            Some(v) => spec_value_matches(*st.fields@[k].field_type, v),
            None => st.uses_tlv_serialization,
        },
{
    lemma_struct_fields_match_from(st, fields, 0, k);
}

proof fn lemma_struct_fields_match_from(
    st: SomeIpStruct,
    fields: Seq<Option<ValueV>>,
    i: int,
    k: int,
)
    requires
        crate::value::spec_struct_fields_match(st, fields, i),
        0 <= i <= k < fields.len(),
        fields.len() == st.fields@.len(),
    ensures
        match fields[k] {
            Some(v) => spec_value_matches(*st.fields@[k].field_type, v),
            None => st.uses_tlv_serialization,
        },
    decreases k - i,
{
    if i < k {
        lemma_struct_fields_match_from(st, fields, i + 1, k);
    }
}

pub(crate) proof fn lemma_fields_valid_at(st: SomeIpStruct, k: int)
    requires
        crate::types::spec_fields_valid(st, 0),
        0 <= k < st.fields@.len(),
    ensures
        st.fields@[k].field_type.spec_valid(),
{
    lemma_fields_valid_from(st, 0, k);
}

proof fn lemma_fields_valid_from(st: SomeIpStruct, i: int, k: int)
    requires
        crate::types::spec_fields_valid(st, i),
        0 <= i <= k < st.fields@.len(),
    ensures
        st.fields@[k].field_type.spec_valid(),
    decreases k - i,
{
    if i < k {
        lemma_fields_valid_from(st, i + 1, k);
    }
}

pub(crate) proof fn lemma_fields_lf_ok_at(st: SomeIpStruct, opts: SomeIpOptions, k: int)
    requires
        crate::types::spec_fields_lf_ok(st, opts, 0),
        0 <= k < st.fields@.len(),
    ensures
        st.fields@[k].field_type.spec_lf_ok(opts, st.uses_tlv_serialization),
{
    lemma_fields_lf_ok_from(st, opts, 0, k);
}

proof fn lemma_fields_lf_ok_from(st: SomeIpStruct, opts: SomeIpOptions, i: int, k: int)
    requires
        crate::types::spec_fields_lf_ok(st, opts, i),
        0 <= i <= k < st.fields@.len(),
    ensures
        st.fields@[k].field_type.spec_lf_ok(opts, st.uses_tlv_serialization),
    decreases k - i,
{
    if i < k {
        lemma_fields_lf_ok_from(st, opts, i + 1, k);
    }
}

pub(crate) proof fn lemma_fields_tlv_clean_at(st: SomeIpStruct, k: int)
    requires
        crate::types::spec_fields_tlv_clean(st, 0),
        0 <= k < st.fields@.len(),
    ensures
        st.fields@[k].field_type.spec_tlv_clean(),
        st.uses_tlv_serialization ==> !(*st.fields@[k].field_type is Struct
            && (*st.fields@[k].field_type)->Struct_0.is_message_wrapper),
{
    lemma_fields_tlv_clean_from(st, 0, k);
}

proof fn lemma_fields_tlv_clean_from(st: SomeIpStruct, i: int, k: int)
    requires
        crate::types::spec_fields_tlv_clean(st, i),
        0 <= i <= k < st.fields@.len(),
    ensures
        st.fields@[k].field_type.spec_tlv_clean(),
        st.uses_tlv_serialization ==> !(*st.fields@[k].field_type is Struct
            && (*st.fields@[k].field_type)->Struct_0.is_message_wrapper),
    decreases k - i,
{
    if i < k {
        lemma_fields_tlv_clean_from(st, i + 1, k);
    }
}

/// Serializes `value` against `t` and appends the wire bytes to `out`; see
/// [`to_vec`] for the contract.
pub fn append_to_vec(
    opts: &SomeIpOptions,
    t: &SomeIpType,
    value: &Value,
    out: &mut Vec<u8>,
) -> (r: SomeIpResult<()>)
    requires
        opts.spec_is_valid(),
        t.spec_valid(),
        t.spec_lf_ok(*opts, false),
        t.spec_tlv_clean(),
        spec_value_matches(*t, deep_value(*value)),
    ensures
        match r {
            Ok(()) => match spec_to_vec(*opts, *t, deep_value(*value)) {
                Ok(bytes) => final(out)@ == old(out)@ + bytes,
                Err(_) => false,
            },
            Err(e) => spec_to_vec(*opts, *t, deep_value(*value)) == Err::<Seq<u8>, ErrorV>(e@),
        },
{
    match serialize_value(out, opts, t, value, false) {
        Ok(_) => Ok(()),
        Err(e) => Err(e),
    }
}

/// Serializes `value` against schema `t` under the given options and
/// returns the wire bytes: exactly [`spec_to_vec`] of the value's image, or
/// exactly its error.
pub fn to_vec(opts: &SomeIpOptions, t: &SomeIpType, value: &Value) -> (r: SomeIpResult<Vec<u8>>)
    requires
        opts.spec_is_valid(),
        t.spec_valid(),
        t.spec_lf_ok(*opts, false),
        t.spec_tlv_clean(),
        spec_value_matches(*t, deep_value(*value)),
    ensures
        match r {
            Ok(bytes) => spec_to_vec(*opts, *t, deep_value(*value)) == Ok::<Seq<u8>, ErrorV>(
                bytes@,
            ),
            Err(e) => spec_to_vec(*opts, *t, deep_value(*value)) == Err::<Seq<u8>, ErrorV>(e@),
        },
{
    let mut out: Vec<u8> = Vec::new();
    match serialize_value(&mut out, opts, t, value, false) {
        Ok(_) => Ok(out),
        Err(e) => Err(e),
    }
}

} // verus!
