//! The laws of the codec: determinism, byte order symmetry, length section
//! consistency, and the round trip from a value through its wire bytes back
//! to the value.

use vstd::prelude::*;

use crate::error::ErrorV;
use crate::length_fields::LengthFieldSize;
use crate::options::{ByteOrder, SomeIpOptions, StringEncoding};
use crate::ser::{spec_close_section, spec_encode, spec_to_vec};
use crate::text::{
    is_high_surrogate, is_low_surrogate, lemma_bytes_units_of_units_bytes,
    lemma_units_bytes_concat, lemma_units_bytes_len, lemma_units_bytes_single,
    lemma_utf16_round_trip, spec_decode_string, spec_string_content, spec_utf16_order,
    spec_utf8_bom, utf16_decode, utf16_encode, valid_utf16,
};
use crate::types::{spec_name_lookup, spec_value_lookup, SomeIpEnumValue, SomeIpType};
use crate::uint_bytes::{
    lemma_uint_bytes_len, lemma_uint_val_of_bytes, pow256, spec_uint_bytes, spec_uint_val,
};
use crate::value::ValueV;

verus! {

/// Encoding is deterministic: one triple of options, schema and value has
/// one byte string. Two successful encodings of the same value are equal.
pub proof fn lemma_deterministic_encoding(
    opts: SomeIpOptions,
    t: crate::types::SomeIpType,
    v: ValueV,
    b1: Seq<u8>,
    b2: Seq<u8>,
)
    requires
        spec_to_vec(opts, t, v) == Ok::<Seq<u8>, ErrorV>(b1),
        spec_to_vec(opts, t, v) == Ok::<Seq<u8>, ErrorV>(b2),
    ensures
        b1 == b2,
{
}

/// Byte order symmetry: at every width, the little-endian encoding of a
/// value is the reversed big-endian encoding of the same value.
pub proof fn lemma_byte_order_symmetry(v: nat, w: nat)
    ensures
        spec_uint_bytes(ByteOrder::LittleEndian, v, w) == spec_uint_bytes(
            ByteOrder::BigEndian,
            v,
            w,
        ).reverse(),
{
    crate::uint_bytes::lemma_byte_order_symmetry(v, w);
}

/// Length section consistency: a successfully closed section consists of a
/// length field followed by the payload, and the length field reads back as
/// exactly the payload's length. A section the deserializer opens is in turn
/// left only when that many bytes were consumed.
pub proof fn lemma_section_length_consistent(
    opts: SomeIpOptions,
    configured: LengthFieldSize,
    payload: Seq<u8>,
    in_tlv: bool,
)
    ensures
        match spec_close_section(opts, configured, payload, in_tlv) {
            Ok((bytes, info)) => {
                let w = info.0.spec_num_bytes();
                &&& bytes.len() == w + payload.len()
                &&& bytes.skip(w) == payload
                &&& spec_uint_val(opts.byte_order, bytes.take(w)) == payload.len()
            },
            Err(_) => true,
        },
{
    match spec_close_section(opts, configured, payload, in_tlv) {
        Ok((bytes, info)) => {
            let actual = info.0;
            let w = actual.spec_num_bytes();
            let field = spec_uint_bytes(opts.byte_order, payload.len(), w as nat);
            lemma_uint_bytes_len(opts.byte_order, payload.len(), w as nat);
            assert(bytes.skip(w) =~= payload);
            assert(bytes.take(w) =~= field);
            lemma_select_max(opts, configured, payload.len() as int, in_tlv);
            lemma_pow_of_width(actual);
            lemma_uint_val_of_bytes(opts.byte_order, payload.len(), w as nat);
        },
        Err(_) => {},
    }
}

proof fn lemma_select_max(opts: SomeIpOptions, conf: LengthFieldSize, len: int, in_tlv: bool)
    ensures
        match opts.spec_select_length_field_size(conf, len, in_tlv) {
            Ok(actual) => 0 <= len ==> len <= actual.spec_max_value(),
            Err(_) => true,
        },
{
}

proof fn lemma_pow_of_width(s: LengthFieldSize)
    ensures
        pow256(s.spec_num_bytes() as nat) == s.spec_max_value() + 1,
{
    reveal_with_fuel(pow256, 5);
}


/// A slice embedded in `data` embeds each of its subranges.
proof fn lemma_embed_slice(data: Seq<u8>, pos: int, whole: Seq<u8>, a: int, b: int)
    requires
        0 <= pos,
        pos + whole.len() <= data.len(),
        data.subrange(pos, pos + whole.len() as int) == whole,
        0 <= a <= b <= whole.len(),
    ensures
        data.subrange(pos + a, pos + b) == whole.subrange(a, b),
{
    assert forall|k: int| 0 <= k < b - a implies data.subrange(pos + a, pos + b)[k]
        == whole.subrange(a, b)[k] by {
        assert(data.subrange(pos, pos + whole.len() as int)[a + k] == whole[a + k]);
    }
    assert(data.subrange(pos + a, pos + b) =~= whole.subrange(a, b));
}

/// A successful name lookup names a pair of the list.
proof fn lemma_name_lookup_member(
    vals: Seq<(String, SomeIpEnumValue)>,
    name: Seq<char>,
    ev: SomeIpEnumValue,
)
    requires
        spec_name_lookup(vals, name) == Some(ev),
    ensures
        exists|i: int|
            0 <= i < vals.len() && #[trigger] vals[i].0@ == name && vals[i].1 == ev,
    decreases vals.len(),
{
    if vals.len() > 0 {
        if vals.first().0@ == name {
            assert(vals[0].0@ == name && vals[0].1 == ev);
        } else {
            lemma_name_lookup_member(vals.drop_first(), name, ev);
            let j = choose|j: int|
                0 <= j < vals.drop_first().len() && #[trigger] vals.drop_first()[j].0@ == name
                    && vals.drop_first()[j].1 == ev;
            assert(vals[j + 1].0@ == name && vals[j + 1].1 == ev);
        }
    }
}

/// With unique raw values, looking a value back up returns the name it was
/// found under: the two enum lookups are inverse.
pub proof fn lemma_enum_lookup_inverse(
    vals: Seq<(String, SomeIpEnumValue)>,
    name: Seq<char>,
    ev: SomeIpEnumValue,
)
    requires
        spec_name_lookup(vals, name) == Some(ev),
        forall|i: int, j: int| 0 <= i < j < vals.len() ==> vals[i].1 != vals[j].1,
    ensures
        spec_value_lookup(vals, ev) == Some(name),
    decreases vals.len(),
{
    if vals.len() > 0 {
        if vals.first().0@ == name && vals.first().1 == ev {
            assert(spec_value_lookup(vals, ev) == Some(vals.first().0@));
        } else if vals.first().0@ == name {
        } else {
            lemma_name_lookup_member(vals.drop_first(), name, ev);
            let j = choose|j: int|
                0 <= j < vals.drop_first().len() && #[trigger] vals.drop_first()[j].0@ == name
                    && vals.drop_first()[j].1 == ev;
            assert(vals[j + 1].1 == ev);
            assert(vals.first().1 != ev) by {
                assert(vals[0].1 != vals[j + 1].1);
            }
            assert(forall|a: int, b: int|
                0 <= a < b < vals.drop_first().len() ==> #[trigger] vals.drop_first()[a].1
                    != #[trigger] vals.drop_first()[b].1) by {
                assert(forall|a: int, b: int|
                    0 <= a < b < vals.drop_first().len() ==> vals.drop_first()[a].1 == vals[a + 1].1
                        && vals.drop_first()[b].1 == vals[b + 1].1);
            }
            lemma_enum_lookup_inverse(vals.drop_first(), name, ev);
        }
    }
}

/// Reading back an enum value's bit pattern at its raw type yields the
/// value, and its width and bound line up with the raw type.
pub proof fn lemma_enum_value_round_trip(raw: crate::types::SomeIpPrimitive, ev: SomeIpEnumValue)
    requires
        ev.spec_matches(raw),
    ensures
        crate::de::spec_enum_value_of(raw, ev.spec_unsigned()) == ev,
        ev.spec_width() == raw.spec_len(),
        ev.spec_unsigned() < pow256(ev.spec_width() as nat),
{
    reveal_with_fuel(pow256, 9);
    match ev {
        SomeIpEnumValue::I8(x) => {
            assert(((x as u8) as i8) == x) by (bit_vector);
            assert((((x as u8) as nat) as u8) == (x as u8));
        },
        SomeIpEnumValue::I16(x) => {
            assert(((x as u16) as i16) == x) by (bit_vector);
            assert((((x as u16) as nat) as u16) == (x as u16));
        },
        SomeIpEnumValue::I32(x) => {
            assert(((x as u32) as i32) == x) by (bit_vector);
            assert((((x as u32) as nat) as u32) == (x as u32));
        },
        SomeIpEnumValue::I64(x) => {
            assert(((x as u64) as i64) == x) by (bit_vector);
            assert((((x as u64) as nat) as u64) == (x as u64));
        },
        _ => {},
    }
}

/// Splitting a packed tag yields the wire type and id it was packed from.
pub proof fn lemma_tag_round_trip(w: crate::wire_type::WireType, id: u16)
    requires
        id <= 0xFFF,
    ensures
        crate::wire_type::WireType::spec_disect_tag(crate::wire_type::WireType::spec_tag(w, id))
            == (w, id),
{
    let code = w.spec_code();
    let tag = crate::wire_type::WireType::spec_tag(w, id);
    assert(tag == code * 0x1000 + id);
    assert(tag / 0x1000 == code && tag % 0x1000 == id) by {
        vstd::arithmetic::div_mod::lemma_fundamental_div_mod_converse(
            tag as int,
            0x1000,
            code as int,
            id as int,
        );
    }
    vstd::arithmetic::div_mod::lemma_small_mod(code as nat, 8);
}

/// Valid UTF-16 sequences concatenate: the whole is valid and decodes to
/// the two decodings, one after the other.
pub proof fn lemma_valid_utf16_concat(a: Seq<u16>, b: Seq<u16>)
    requires
        valid_utf16(a),
        valid_utf16(b),
    ensures
        valid_utf16(a + b),
        utf16_decode(a + b) == utf16_decode(a) + utf16_decode(b),
    decreases a.len(),
{
    if a.len() == 0 {
        assert(a + b =~= b);
        assert(utf16_decode(a) + utf16_decode(b) =~= utf16_decode(b));
    } else if !is_high_surrogate(a.first()) && !is_low_surrogate(a.first()) {
        lemma_valid_utf16_concat(a.drop_first(), b);
        assert((a + b).drop_first() =~= a.drop_first() + b);
        assert(utf16_decode(a + b) =~= utf16_decode(a) + utf16_decode(b));
    } else {
        assert(a.len() >= 2 && is_high_surrogate(a.first()) && is_low_surrogate(a[1]));
        lemma_valid_utf16_concat(a.skip(2), b);
        assert((a + b).skip(2) =~= a.skip(2) + b);
        assert((a + b)[1] == a[1]);
        assert(utf16_decode(a + b) =~= utf16_decode(a) + utf16_decode(b));
    }
}

/// Decoding the encoded content of a string yields the string's characters:
/// the string layer round trips under any consistent options.
pub proof fn lemma_string_round_trip(opts: SomeIpOptions, chars: Seq<char>)
    requires
        opts.spec_is_valid(),
        opts.string_encoding == StringEncoding::Ascii ==> vstd::utf8::is_ascii_chars(chars),
    ensures
        spec_decode_string(opts, spec_string_content(opts, chars)) == Ok::<Seq<char>, ErrorV>(
            chars,
        ),
{
    if opts.string_encoding.spec_is_utf16_variant() {
        lemma_string_round_trip_utf16(opts, chars);
    } else {
        lemma_string_round_trip_utf8(opts, chars);
    }
}

proof fn lemma_string_round_trip_utf16(opts: SomeIpOptions, chars: Seq<char>)
    requires
        opts.spec_is_valid(),
        opts.string_encoding.spec_is_utf16_variant(),
    ensures
        spec_decode_string(opts, spec_string_content(opts, chars)) == Ok::<Seq<char>, ErrorV>(
            chars,
        ),
{
    let content = spec_string_content(opts, chars);
    let order = spec_utf16_order(opts);
    let bom_units: Seq<u16> = if opts.string_with_bom {
        seq![0xFEFFu16]
    } else {
        Seq::empty()
    };
    let term_units: Seq<u16> = if opts.string_with_terminator {
        seq![0u16]
    } else {
        Seq::empty()
    };
    let enc = utf16_encode(chars);
    let units = bom_units + enc + term_units;
    lemma_utf16_round_trip(chars);
    lemma_units_bytes_len(order, units);
    assert(content == crate::text::spec_units_bytes(order, units));
    assert(content.len() % 2 == 0);
    lemma_units_bytes_concat(order, bom_units + enc, term_units);
    lemma_units_bytes_concat(order, bom_units, enc);
    let enc_term_bytes = crate::text::spec_units_bytes(order, enc) + crate::text::spec_units_bytes(
        order,
        term_units,
    );
    if opts.string_with_bom {
        lemma_units_bytes_single(order, 0xFEFF);
        lemma_uint_bytes_len(order, 0xFEFF as nat, 2);
        reveal_with_fuel(pow256, 3);
        let bom_bytes = spec_uint_bytes(order, 0xFEFF as nat, 2);
        assert(content.take(2) =~= bom_bytes);
        assert(content.skip(2) =~= enc_term_bytes);
        match order {
            ByteOrder::BigEndian => {
                assert(bom_bytes =~= seq![0xFEu8, 0xFFu8]) by {
                    assert(bom_bytes[0] == ((0xFEFF as nat / pow256(1)) % 256) as u8);
                    assert(bom_bytes[1] == ((0xFEFF as nat / pow256(0)) % 256) as u8);
                    vstd::arithmetic::div_mod::lemma_div_basics(0xFEFF);
                }
                assert(content[0] == 0xFE && content[1] == 0xFF);
            },
            ByteOrder::LittleEndian => {
                assert(bom_bytes =~= seq![0xFFu8, 0xFEu8]) by {
                    assert(bom_bytes[0] == ((0xFEFF as nat / pow256(0)) % 256) as u8);
                    assert(bom_bytes[1] == ((0xFEFF as nat / pow256(1)) % 256) as u8);
                    vstd::arithmetic::div_mod::lemma_div_basics(0xFEFF);
                }
                assert(content[0] == 0xFF && content[1] == 0xFE);
                assert(!(content[0] == 0xFE && content[1] == 0xFF));
            },
        }
        lemma_decode_utf16_body_round_trip(opts, order, enc, term_units, chars);
        assert(content.skip(2) =~= crate::text::spec_units_bytes(order, enc + term_units)) by {
            lemma_units_bytes_concat(order, enc, term_units);
        }
    } else {
        assert(units =~= enc + term_units);
        assert(content =~= crate::text::spec_units_bytes(order, enc + term_units));
        lemma_decode_utf16_body_round_trip(opts, order, enc, term_units, chars);
    }
}

proof fn lemma_string_round_trip_utf8(opts: SomeIpOptions, chars: Seq<char>)
    requires
        opts.spec_is_valid(),
        !opts.string_encoding.spec_is_utf16_variant(),
        opts.string_encoding == StringEncoding::Ascii ==> vstd::utf8::is_ascii_chars(chars),
    ensures
        spec_decode_string(opts, spec_string_content(opts, chars)) == Ok::<Seq<char>, ErrorV>(
            chars,
        ),
{
    let content = spec_string_content(opts, chars);
    let enc = vstd::utf8::encode_utf8(chars);
    let bom_bytes: Seq<u8> = if opts.string_with_bom {
        spec_utf8_bom()
    } else {
        Seq::empty()
    };
    let term_bytes: Seq<u8> = if opts.string_with_terminator {
        seq![0u8]
    } else {
        Seq::empty()
    };
    assert(content =~= bom_bytes + (enc + term_bytes));
    let body = if opts.string_with_bom {
        content.skip(3)
    } else {
        content
    };
    if opts.string_with_bom {
        assert(content.take(3) =~= spec_utf8_bom());
        assert(content.len() >= 3);
        assert(body =~= enc + term_bytes);
    } else {
        assert(body =~= enc + term_bytes);
    }
    vstd::utf8::encode_utf8_valid_utf8(chars);
    vstd::utf8::encode_utf8_decode_utf8(chars);
    let nul = seq!['\u{0}'];
    if opts.string_with_terminator {
        assert(vstd::utf8::encode_utf8(nul) =~= seq![0u8]) by {
            lemma_encode_utf8_nul();
        }
        assert(body =~= enc + vstd::utf8::encode_utf8(nul));
        assert(enc + vstd::utf8::encode_utf8(nul) =~= vstd::utf8::encode_utf8(chars + nul)) by {
            lemma_encode_utf8_concat(chars, nul);
        }
        vstd::utf8::encode_utf8_valid_utf8(chars + nul);
        assert(vstd::utf8::valid_utf8(body));
        assert(body.len() == enc.len() + 1);
        assert(body.last() == 0);
        assert(body.drop_last() =~= enc);
        assert(vstd::utf8::decode_utf8(body.drop_last()) == chars);
    } else {
        assert(body =~= enc);
        assert(vstd::utf8::valid_utf8(body));
        assert(vstd::utf8::decode_utf8(body) == chars);
    }
}

/// The NUL character encodes as the single zero byte.
proof fn lemma_encode_utf8_nul()
    ensures
        vstd::utf8::encode_utf8(seq!['\u{0}']) == seq![0u8],
{
    let nul = seq!['\u{0}'];
    assert(nul.first() == '\u{0}');
    assert(('\u{0}' as u32) == 0);
    assert(vstd::utf8::has_width_1_encoding(0u32));
    assert(vstd::utf8::leading_byte_width_1(0u32) == 0u8) by {
        assert(0u32 & 0x7F == 0) by (bit_vector);
    }
    assert(vstd::utf8::encode_scalar(0u32) =~= seq![0u8]);
    assert(nul.drop_first() =~= Seq::<char>::empty());
    assert(vstd::utf8::encode_utf8(nul.drop_first()) =~= Seq::<u8>::empty());
    assert(vstd::utf8::encode_utf8(nul) =~= seq![0u8]);
}

/// UTF-8 encoding distributes over concatenation.
proof fn lemma_encode_utf8_concat(a: Seq<char>, b: Seq<char>)
    ensures
        vstd::utf8::encode_utf8(a + b) == vstd::utf8::encode_utf8(a) + vstd::utf8::encode_utf8(b),
    decreases a.len(),
{
    if a.len() == 0 {
        assert(a + b =~= b);
        assert(vstd::utf8::encode_utf8(a) + vstd::utf8::encode_utf8(b) =~= vstd::utf8::encode_utf8(
            b,
        ));
    } else {
        lemma_encode_utf8_concat(a.drop_first(), b);
        assert((a + b).drop_first() =~= a.drop_first() + b);
        assert((a + b).first() == a.first());
        assert(vstd::utf8::encode_utf8(a + b) =~= vstd::utf8::encode_utf8(a)
            + vstd::utf8::encode_utf8(b));
    }
}

/// The code units after the mark decode back to the characters.
proof fn lemma_decode_utf16_body_round_trip(
    opts: SomeIpOptions,
    order: ByteOrder,
    enc: Seq<u16>,
    term_units: Seq<u16>,
    chars: Seq<char>,
)
    requires
        enc == utf16_encode(chars),
        term_units == (if opts.string_with_terminator {
            seq![0u16]
        } else {
            Seq::<u16>::empty()
        }),
    ensures
        crate::text::spec_decode_utf16_body(
            opts,
            order,
            crate::text::spec_units_bytes(order, enc + term_units),
        ) == Ok::<Seq<char>, ErrorV>(chars),
{
    let units = enc + term_units;
    let body = crate::text::spec_units_bytes(order, units);
    lemma_bytes_units_of_units_bytes(order, units);
    lemma_utf16_round_trip(chars);
    if opts.string_with_terminator {
        assert(valid_utf16(seq![0u16])) by {
            assert(seq![0u16].first() == 0u16);
            assert(!is_high_surrogate(0u16) && !is_low_surrogate(0u16));
            assert(seq![0u16].drop_first() =~= Seq::<u16>::empty());
            assert(valid_utf16(Seq::<u16>::empty()));
        }
        lemma_valid_utf16_concat(enc, term_units);
        assert(units.len() == enc.len() + 1);
        assert(units.last() == 0);
        crate::text::lemma_utf16_strip_zero(units);
        assert(units.drop_last() =~= enc);
        assert(utf16_decode(units.drop_last()) == chars);
    } else {
        assert(units =~= enc);
    }
}

/// The bytes a successful encoding yields.
pub open spec fn enc_bytes(opts: SomeIpOptions, t: SomeIpType, v: ValueV, in_tlv: bool) -> Seq<
    u8,
> {
    spec_encode(opts, t, v, in_tlv)->Ok_0.0
}

/// The length section information a successful encoding yields.
pub open spec fn enc_info(opts: SomeIpOptions, t: SomeIpType, v: ValueV, in_tlv: bool) -> Option<
    (LengthFieldSize, bool),
> {
    spec_encode(opts, t, v, in_tlv)->Ok_0.1
}

/// The values the round trip law speaks of: a sequence of bytes travels as
/// a byte value rather than a list of numbers, and every sequence element —
/// and every field of a plain struct written inside a length section —
/// occupies at least one byte on the wire, so that reading the section back
/// finds every entry.
pub open spec fn spec_rt_ok(opts: SomeIpOptions, t: SomeIpType, v: ValueV, in_tlv: bool) -> bool
    decreases t, 1int, 0int,
{
    match t {
        SomeIpType::Primitive(_) => true,
        SomeIpType::Enum(_) => true,
        SomeIpType::String(_) => true,
        SomeIpType::Sequence(s) => match v {
            ValueV::Sequence(elems) => {
                &&& *s.element_type != SomeIpType::Primitive(
                    crate::types::SomeIpPrimitive::U8,
                )
                &&& !spec_is_greedy(opts, *s.element_type, false, None)
                &&& spec_rt_elems_ok(opts, s, elems, 0)
            },
            _ => true,
        },
        SomeIpType::Struct(st) => match v {
            ValueV::Struct(fields) => spec_rt_fields_ok(
                opts,
                st,
                fields,
                0,
                !st.uses_tlv_serialization && st.spec_wanted_length_field(opts, in_tlv) is Some,
            ),
            _ => true,
        },
    }
}

/// Helper for [`spec_rt_ok`] over sequence elements from index `i` on.
pub open spec fn spec_rt_elems_ok(
    opts: SomeIpOptions,
    s: crate::types::SomeIpSequence,
    elems: Seq<ValueV>,
    i: int,
) -> bool
    decreases s, 0int, elems.len() - i,
{
    if i < 0 || i >= elems.len() {
        true
    } else {
        &&& (spec_encode(opts, *s.element_type, elems[i], false) is Ok ==> enc_bytes(
            opts,
            *s.element_type,
            elems[i],
            false,
        ).len() >= 1)
        &&& spec_rt_ok(opts, *s.element_type, elems[i], false)
        &&& spec_rt_elems_ok(opts, s, elems, i + 1)
    }
}

/// Helper for [`spec_rt_ok`] over struct fields from index `i` on.
pub open spec fn spec_rt_fields_ok(
    opts: SomeIpOptions,
    st: crate::types::SomeIpStruct,
    fields: Seq<Option<ValueV>>,
    i: int,
    nonempty: bool,
) -> bool
    decreases st, 0int, fields.len() - i,
{
    if i < 0 || i >= fields.len() || i >= st.fields@.len() {
        true
    } else {
        let ok = match fields[i] {
            None => true,
            Some(fv) => {
                &&& (nonempty && spec_encode(opts, *st.fields@[i].field_type, fv, false) is Ok
                    ==> enc_bytes(opts, *st.fields@[i].field_type, fv, false).len() >= 1)
                &&& (!st.uses_tlv_serialization ==> !spec_is_greedy(
                    opts,
                    *st.fields@[i].field_type,
                    false,
                    None,
                ))
                &&& spec_rt_ok(opts, *st.fields@[i].field_type, fv, st.uses_tlv_serialization)
            },
        };
        ok && spec_rt_fields_ok(opts, st, fields, i + 1, nonempty)
    }
}

/// The width override a decoder is handed for a node, as the round trip
/// produces it: the width of the node's own section when a tag announced
/// it, or nothing when the configured width applies.
pub open spec fn spec_ovr_consistent(
    opts: SomeIpOptions,
    t: SomeIpType,
    v: ValueV,
    in_tlv: bool,
    ovr: Option<LengthFieldSize>,
) -> bool {
    match enc_info(opts, t, v, in_tlv) {
        Some(info) => ovr == Some(info.0) || (ovr is None && t.spec_wanted_length_field(
            opts,
            in_tlv,
        ) == Some(info.0)),
        None => ovr is None,
    }
}

/// Whether decoding this node reads to the surrounding limit rather than an
/// extent of its own: a TLV struct without a length section.
pub open spec fn spec_is_greedy(
    opts: SomeIpOptions,
    t: SomeIpType,
    in_tlv: bool,
    ovr: Option<LengthFieldSize>,
) -> bool {
    &&& t is Struct
    &&& t->Struct_0.uses_tlv_serialization
    &&& t.spec_wanted_length_field(opts, in_tlv) is None
    &&& ovr is None
}

/// The round trip: a value encoded anywhere into a byte string is decoded
/// back from it, consuming exactly its encoding. The hypotheses are the
/// encoder's own: consistent options, a well-formed schema with the length
/// fields it needs and no message wrapper under TLV, a matching value, and
/// the representations of [`spec_rt_ok`]; a node that reads to the
/// surrounding limit must own the rest of that limit.
pub proof fn lemma_decode_encode(
    opts: SomeIpOptions,
    t: SomeIpType,
    v: ValueV,
    in_tlv: bool,
    ovr: Option<LengthFieldSize>,
    data: Seq<u8>,
    pos: int,
    limit: int,
)
    requires
        opts.spec_is_valid(),
        t.spec_valid(),
        t.spec_lf_ok(opts, in_tlv),
        t.spec_tlv_clean(),
        crate::value::spec_value_matches(t, v),
        spec_rt_ok(opts, t, v, in_tlv),
        spec_encode(opts, t, v, in_tlv) is Ok,
        0 <= pos,
        pos + enc_bytes(opts, t, v, in_tlv).len() <= limit <= data.len(),
        data.subrange(pos, pos + enc_bytes(opts, t, v, in_tlv).len() as int) == enc_bytes(
            opts,
            t,
            v,
            in_tlv,
        ),
        spec_ovr_consistent(opts, t, v, in_tlv, ovr),
        spec_is_greedy(opts, t, in_tlv, ovr) ==> pos + enc_bytes(opts, t, v, in_tlv).len()
            == limit,
    ensures
        crate::de::spec_decode(opts, t, data, pos, limit, in_tlv, ovr) == Ok::<
            (ValueV, int),
            ErrorV,
        >((v, enc_bytes(opts, t, v, in_tlv).len() as int)),
    decreases t, 4int, 0int,
{
    let bytes = enc_bytes(opts, t, v, in_tlv);
    match t {
        SomeIpType::Primitive(p) => {
            lemma_de_prim(opts, p, v, data, pos, limit);
        },
        SomeIpType::Enum(e) => {
            let name = v->EnumVariant_0;
            let ev = spec_name_lookup(e.values@, name)->Some_0;
            lemma_enum_value_matches(e, name, ev);
            lemma_enum_value_round_trip(e.raw_type, ev);
            let w = ev.spec_width();
            lemma_uint_bytes_len(opts.byte_order, ev.spec_unsigned(), w as nat);
            assert(data.subrange(pos, pos + w) == spec_uint_bytes(
                opts.byte_order,
                ev.spec_unsigned(),
                w as nat,
            ));
            lemma_uint_val_of_bytes(opts.byte_order, ev.spec_unsigned(), w as nat);
            lemma_enum_lookup_inverse(e.values@, name, ev);
            assert(crate::de::spec_decode(opts, t, data, pos, limit, in_tlv, ovr) == Ok::<
                (ValueV, int),
                ErrorV,
            >((v, bytes.len() as int)));
        },
        SomeIpType::String(st) => {
            lemma_de_string(opts, t, v, in_tlv, ovr, data, pos, limit);
        },
        SomeIpType::Sequence(_) => {
            lemma_de_sequence(opts, t, v, in_tlv, ovr, data, pos, limit);
        },
        SomeIpType::Struct(_) => {
            lemma_de_struct(opts, t, v, in_tlv, ovr, data, pos, limit);
        },
    }
}

/// The name under which an enum value was found matches the raw type.
proof fn lemma_enum_value_matches(
    e: crate::types::SomeIpEnum,
    name: Seq<char>,
    ev: SomeIpEnumValue,
)
    requires
        e.spec_valid(),
        spec_name_lookup(e.values@, name) == Some(ev),
    ensures
        ev.spec_matches(e.raw_type),
{
    lemma_name_lookup_member(e.values@, name, ev);
}

/// The round trip for a primitive node.
#[verifier::rlimit(100)]
proof fn lemma_de_prim(
    opts: SomeIpOptions,
    p: crate::types::SomeIpPrimitive,
    v: ValueV,
    data: Seq<u8>,
    pos: int,
    limit: int,
)
    requires
        crate::value::spec_value_matches(SomeIpType::Primitive(p), v),
        0 <= pos,
        pos + enc_bytes(opts, SomeIpType::Primitive(p), v, false).len() <= limit <= data.len(),
        data.subrange(
            pos,
            pos + enc_bytes(opts, SomeIpType::Primitive(p), v, false).len() as int,
        ) == enc_bytes(opts, SomeIpType::Primitive(p), v, false),
    ensures
        forall|in_tlv: bool, ovr: Option<LengthFieldSize>|
            #[trigger] crate::de::spec_decode(
                opts,
                SomeIpType::Primitive(p),
                data,
                pos,
                limit,
                in_tlv,
                ovr,
            ) == Ok::<(ValueV, int), ErrorV>(
                (v, enc_bytes(opts, SomeIpType::Primitive(p), v, in_tlv).len() as int),
            ),
{
    let t = SomeIpType::Primitive(p);
    let bytes = crate::ser::spec_prim_bytes(opts, p, v);
    reveal_with_fuel(pow256, 9);
    let order = opts.byte_order;
    match v {
        ValueV::Bool(b) => {
            assert(bytes =~= seq![if b { 1u8 } else { 0u8 }]);
            assert(data.subrange(pos, pos + 1)[0] == (if b { 1u8 } else { 0u8 }));
            assert(spec_uint_val(order, data.subrange(pos, pos + 1)) == (if b { 1nat } else { 0nat }))
                by {
                lemma_uint_val_single(order, data.subrange(pos, pos + 1));
            }
        },
        ValueV::U8(x) => {
            assert(bytes =~= seq![x]);
            lemma_uint_val_single(order, data.subrange(pos, pos + 1));
        },
        ValueV::I8(x) => {
            assert(bytes =~= seq![x as u8]);
            lemma_uint_val_single(order, data.subrange(pos, pos + 1));
            assert((((x as u8) as nat) as u8) as i8 == x) by {
                assert(((x as u8) as i8) == x) by (bit_vector);
            }
        },
        ValueV::U16(x) => {
            lemma_prim_multi(opts, x as nat, 2, data, pos, limit);
        },
        ValueV::U32(x) => {
            lemma_prim_multi(opts, x as nat, 4, data, pos, limit);
        },
        ValueV::U64(x) => {
            lemma_prim_multi(opts, x as nat, 8, data, pos, limit);
        },
        ValueV::I16(x) => {
            lemma_prim_multi(opts, (x as u16) as nat, 2, data, pos, limit);
            assert((((x as u16) as nat) as u16) as i16 == x) by {
                assert(((x as u16) as i16) == x) by (bit_vector);
            }
        },
        ValueV::I32(x) => {
            lemma_prim_multi(opts, (x as u32) as nat, 4, data, pos, limit);
            assert((((x as u32) as nat) as u32) as i32 == x) by {
                assert(((x as u32) as i32) == x) by (bit_vector);
            }
        },
        ValueV::I64(x) => {
            lemma_prim_multi(opts, (x as u64) as nat, 8, data, pos, limit);
            assert((((x as u64) as nat) as u64) as i64 == x) by {
                assert(((x as u64) as i64) == x) by (bit_vector);
            }
        },
        ValueV::F32Bits(x) => {
            lemma_prim_multi(opts, x as nat, 4, data, pos, limit);
        },
        ValueV::F64Bits(x) => {
            lemma_prim_multi(opts, x as nat, 8, data, pos, limit);
        },
        _ => {},
    }
}

/// A one byte encoding reads back as its byte.
proof fn lemma_uint_val_single(order: ByteOrder, b: Seq<u8>)
    requires
        b.len() == 1,
    ensures
        spec_uint_val(order, b) == b[0],
{
    assert(b.drop_last() =~= Seq::<u8>::empty());
    assert(b.drop_first() =~= Seq::<u8>::empty());
    assert(b.last() == b[0] && b.first() == b[0]);
    assert(crate::uint_bytes::spec_be_val(Seq::<u8>::empty()) == 0);
    assert(crate::uint_bytes::spec_le_val(Seq::<u8>::empty()) == 0);
    match order {
        ByteOrder::BigEndian => {
            assert(crate::uint_bytes::spec_be_val(b) == b[0]);
        },
        ByteOrder::LittleEndian => {
            assert(crate::uint_bytes::spec_le_val(b) == b[0]);
        },
    }
}

/// A multi-byte value embedded at `pos` reads back as itself.
proof fn lemma_prim_multi(
    opts: SomeIpOptions,
    val: nat,
    w: nat,
    data: Seq<u8>,
    pos: int,
    limit: int,
)
    requires
        val < pow256(w),
        0 <= pos,
        pos + w <= limit <= data.len(),
        data.subrange(pos, pos + w) == spec_uint_bytes(opts.byte_order, val, w),
    ensures
        spec_uint_val(opts.byte_order, data.subrange(pos, pos + w)) == val,
{
    lemma_uint_val_of_bytes(opts.byte_order, val, w);
}

/// Outside a TLV context the configured width is the one chosen, so a
/// decoder without an override reads what the encoder wrote.
proof fn lemma_ovr_none_ok(opts: SomeIpOptions, t: SomeIpType, v: ValueV)
    requires
        crate::value::spec_value_matches(t, v),
        spec_encode(opts, t, v, false) is Ok,
    ensures
        spec_ovr_consistent(opts, t, v, false, None),
{
    match enc_info(opts, t, v, false) {
        Some(info) => {
            let conf = t.spec_wanted_length_field(opts, false)->Some_0;
            assert(t.spec_wanted_length_field(opts, false) is Some && info == spec_close_section(
                opts,
                conf,
                spec_close_payload(opts, t, v),
                false,
            )->Ok_0.1 && info.0 == conf) by {
                lemma_enc_info_close(opts, t, v, false);
            }
        },
        None => {},
    }
}

/// The payload behind a node's own length section, when it opened one.
pub open spec fn spec_close_payload(opts: SomeIpOptions, t: SomeIpType, v: ValueV) -> Seq<u8> {
    spec_close_payload_at(opts, t, v, false)
}

/// The payload behind a node's own length section in the given context.
pub open spec fn spec_close_payload_at(
    opts: SomeIpOptions,
    t: SomeIpType,
    v: ValueV,
    in_tlv: bool,
) -> Seq<u8> {
    match t {
        SomeIpType::String(_) => spec_string_content(opts, v->Str_0),
        SomeIpType::Sequence(s) => match v {
            ValueV::Bytes(b) => b,
            ValueV::Sequence(elems) => crate::ser::spec_encode_elems(opts, s, elems, 0)->Ok_0,
            _ => Seq::empty(),
        },
        SomeIpType::Struct(st) => crate::ser::spec_encode_fields(
            opts,
            st,
            v->Struct_0,
            0,
        )->Ok_0,
        _ => Seq::empty(),
    }
}

/// When an encoding carries section information, it is its own section's:
/// the bytes are the closed section over the node's payload, at the width
/// the configured one selects.
proof fn lemma_enc_info_close(opts: SomeIpOptions, t: SomeIpType, v: ValueV, in_tlv: bool)
    requires
        crate::value::spec_value_matches(t, v),
        spec_encode(opts, t, v, in_tlv) is Ok,
        enc_info(opts, t, v, in_tlv) is Some,
    ensures
        t.spec_wanted_length_field(opts, in_tlv) is Some,
        spec_close_section(
            opts,
            t.spec_wanted_length_field(opts, in_tlv)->Some_0,
            spec_close_payload_at(opts, t, v, in_tlv),
            in_tlv,
        ) is Ok,
        enc_info(opts, t, v, in_tlv) == Some(
            spec_close_section(
                opts,
                t.spec_wanted_length_field(opts, in_tlv)->Some_0,
                spec_close_payload_at(opts, t, v, in_tlv),
                in_tlv,
            )->Ok_0.1,
        ),
        enc_bytes(opts, t, v, in_tlv) == spec_close_section(
            opts,
            t.spec_wanted_length_field(opts, in_tlv)->Some_0,
            spec_close_payload_at(opts, t, v, in_tlv),
            in_tlv,
        )->Ok_0.0,
        !in_tlv ==> enc_info(opts, t, v, in_tlv)->Some_0.0 == t.spec_wanted_length_field(
            opts,
            in_tlv,
        )->Some_0,
{
    lemma_select_as_configured(opts, t, v, in_tlv);
}

/// Outside TLV the selection rule keeps the configured width; this connects
/// a node's section information to its own close.
proof fn lemma_select_as_configured(opts: SomeIpOptions, t: SomeIpType, v: ValueV, in_tlv: bool)
    requires
        crate::value::spec_value_matches(t, v),
        spec_encode(opts, t, v, in_tlv) is Ok,
        enc_info(opts, t, v, in_tlv) is Some,
    ensures
        t.spec_wanted_length_field(opts, in_tlv) is Some,
        spec_close_section(
            opts,
            t.spec_wanted_length_field(opts, in_tlv)->Some_0,
            spec_close_payload_at(opts, t, v, in_tlv),
            in_tlv,
        ) is Ok,
        enc_info(opts, t, v, in_tlv) == Some(
            spec_close_section(
                opts,
                t.spec_wanted_length_field(opts, in_tlv)->Some_0,
                spec_close_payload_at(opts, t, v, in_tlv),
                in_tlv,
            )->Ok_0.1,
        ),
        enc_bytes(opts, t, v, in_tlv) == spec_close_section(
            opts,
            t.spec_wanted_length_field(opts, in_tlv)->Some_0,
            spec_close_payload_at(opts, t, v, in_tlv),
            in_tlv,
        )->Ok_0.0,
        !in_tlv ==> enc_info(opts, t, v, in_tlv)->Some_0.0 == t.spec_wanted_length_field(
            opts,
            in_tlv,
        )->Some_0,
{
    let wanted = t.spec_wanted_length_field(opts, in_tlv);
    match t {
        SomeIpType::Primitive(_) => {},
        SomeIpType::Enum(_) => {},
        SomeIpType::String(_) => {},
        SomeIpType::Sequence(_) => {},
        SomeIpType::Struct(_) => {},
    }
    if !in_tlv && wanted is Some {
        let conf = wanted->Some_0;
        let payload = spec_close_payload_at(opts, t, v, in_tlv);
        if spec_close_section(opts, conf, payload, in_tlv) is Ok {
            assert(opts.spec_select_length_field_size(conf, payload.len() as int, false) is Ok);
        }
    }
}

/// A section the encoder closed is the section a decoder opens: it reads
/// the same width, finds the payload's length, and stands before the
/// payload.
proof fn lemma_open_section_round(
    opts: SomeIpOptions,
    t: SomeIpType,
    conf: LengthFieldSize,
    payload: Seq<u8>,
    in_tlv: bool,
    ovr: Option<LengthFieldSize>,
    data: Seq<u8>,
    pos: int,
    limit: int,
    known: int,
)
    requires
        t.spec_wanted_length_field(opts, in_tlv) == Some(conf),
        spec_close_section(opts, conf, payload, in_tlv) is Ok,
        0 <= pos,
        pos + spec_close_section(opts, conf, payload, in_tlv)->Ok_0.0.len() <= limit
            <= data.len(),
        data.subrange(
            pos,
            pos + spec_close_section(opts, conf, payload, in_tlv)->Ok_0.0.len() as int,
        ) == spec_close_section(opts, conf, payload, in_tlv)->Ok_0.0,
        ovr == Some(spec_close_section(opts, conf, payload, in_tlv)->Ok_0.1.0) || (ovr is None
            && spec_close_section(opts, conf, payload, in_tlv)->Ok_0.1.0 == conf),
    ensures
        ({
            let w = spec_close_section(opts, conf, payload, in_tlv)->Ok_0.1.0.spec_num_bytes();
            &&& crate::de::spec_open_section(opts, t, data, pos, limit, in_tlv, ovr, known)
                == Ok::<(int, int), ErrorV>((payload.len() as int, w))
            &&& data.subrange(pos + w, pos + w + payload.len()) == payload
            &&& pos + w + payload.len() <= limit
        }),
{
    let close = spec_close_section(opts, conf, payload, in_tlv)->Ok_0;
    let bytes = close.0;
    let actual = close.1.0;
    let w = actual.spec_num_bytes();
    lemma_section_length_consistent(opts, conf, payload, in_tlv);
    assert(data.subrange(pos, pos + w) =~= bytes.take(w));
    assert(data.subrange(pos + w, pos + w + payload.len()) =~= bytes.skip(w));
    assert(spec_uint_val(opts.byte_order, data.subrange(pos, pos + w)) == payload.len());
}

/// The round trip for a string node.
#[verifier::rlimit(100)]
proof fn lemma_de_string(
    opts: SomeIpOptions,
    t: SomeIpType,
    v: ValueV,
    in_tlv: bool,
    ovr: Option<LengthFieldSize>,
    data: Seq<u8>,
    pos: int,
    limit: int,
)
    requires
        t is String,
        opts.spec_is_valid(),
        t.spec_valid(),
        t.spec_lf_ok(opts, in_tlv),
        crate::value::spec_value_matches(t, v),
        spec_encode(opts, t, v, in_tlv) is Ok,
        0 <= pos,
        pos + enc_bytes(opts, t, v, in_tlv).len() <= limit <= data.len(),
        data.subrange(pos, pos + enc_bytes(opts, t, v, in_tlv).len() as int) == enc_bytes(
            opts,
            t,
            v,
            in_tlv,
        ),
        spec_ovr_consistent(opts, t, v, in_tlv, ovr),
    ensures
        crate::de::spec_decode(opts, t, data, pos, limit, in_tlv, ovr) == Ok::<
            (ValueV, int),
            ErrorV,
        >((v, enc_bytes(opts, t, v, in_tlv).len() as int)),
{
    let st = t->String_0;
    let chars = v->Str_0;
    let content = spec_string_content(opts, chars);
    let bytes = enc_bytes(opts, t, v, in_tlv);
    assert(st.min_size <= content.len() <= st.max_size);
    assert(opts.string_encoding == StringEncoding::Ascii ==> vstd::utf8::is_ascii_chars(chars));
    lemma_string_round_trip(opts, chars);
    match t.spec_wanted_length_field(opts, in_tlv) {
        Some(conf) => {
            lemma_enc_info_close(opts, t, v, in_tlv);
            lemma_open_section_round(
                opts,
                t,
                conf,
                content,
                in_tlv,
                ovr,
                data,
                pos,
                limit,
                st.max_size as int,
            );
            let w = spec_close_section(opts, conf, content, in_tlv)->Ok_0.1.0.spec_num_bytes();
            assert(data.subrange(pos + w, pos + w + content.len()) == content);
        },
        None => {
            // A constant-size string outside TLV: the implicit section is its
            // size.
            assert(ovr is None);
            assert(st.spec_is_const_size());
            assert(content.len() == st.max_size);
            assert(bytes == content);
            assert(data.subrange(pos, pos + st.max_size) == content);
        },
    }
}

/// The first field with a unique id is found at its own index.
proof fn lemma_field_by_id_unique(fields: Seq<crate::types::SomeIpField>, i: int, id: u16)
    requires
        0 <= i < fields.len(),
        fields[i].id == Some(id),
        forall|a: int, b: int|
            0 <= a < b < fields.len() && fields[a].id is Some ==> fields[a].id != fields[b].id,
    ensures
        crate::types::spec_field_by_id(fields, id) == Some(i),
    decreases fields.len(),
{
    if fields.first().id == Some(id) {
        if i != 0 {
            assert(fields[0].id == fields[i].id && fields[0].id is Some);
            assert(false);
        }
    } else {
        assert(i > 0);
        assert(forall|a: int, b: int|
            0 <= a < b < fields.drop_first().len() && #[trigger] fields.drop_first()[a].id is Some
                ==> fields.drop_first()[a].id != #[trigger] fields.drop_first()[b].id) by {
            assert(forall|a: int|
                0 <= a < fields.drop_first().len() ==> #[trigger] fields.drop_first()[a]
                    == fields[a + 1]);
        }
        assert(fields.drop_first()[i - 1] == fields[i]);
        lemma_field_by_id_unique(fields.drop_first(), i - 1, id);
    }
}

/// The round trip for a sequence node.
#[verifier::rlimit(100)]
proof fn lemma_de_sequence(
    opts: SomeIpOptions,
    t: SomeIpType,
    v: ValueV,
    in_tlv: bool,
    ovr: Option<LengthFieldSize>,
    data: Seq<u8>,
    pos: int,
    limit: int,
)
    requires
        t is Sequence,
        opts.spec_is_valid(),
        t.spec_valid(),
        t.spec_lf_ok(opts, in_tlv),
        t.spec_tlv_clean(),
        crate::value::spec_value_matches(t, v),
        spec_rt_ok(opts, t, v, in_tlv),
        spec_encode(opts, t, v, in_tlv) is Ok,
        0 <= pos,
        pos + enc_bytes(opts, t, v, in_tlv).len() <= limit <= data.len(),
        data.subrange(pos, pos + enc_bytes(opts, t, v, in_tlv).len() as int) == enc_bytes(
            opts,
            t,
            v,
            in_tlv,
        ),
        spec_ovr_consistent(opts, t, v, in_tlv, ovr),
    ensures
        crate::de::spec_decode(opts, t, data, pos, limit, in_tlv, ovr) == Ok::<
            (ValueV, int),
            ErrorV,
        >((v, enc_bytes(opts, t, v, in_tlv).len() as int)),
    decreases t, 3int, 0int,
{
    let s = t->Sequence_0;
    let bytes = enc_bytes(opts, t, v, in_tlv);
    let payload = spec_close_payload_at(opts, t, v, in_tlv);
    let known = s.max_elements * s.element_type.spec_const_len();
    match v {
        ValueV::Bytes(bs) => {
            assert(*s.element_type == SomeIpType::Primitive(crate::types::SomeIpPrimitive::U8));
            assert(s.min_elements <= bs.len() <= s.max_elements);
            assert(payload == bs);
            match t.spec_wanted_length_field(opts, in_tlv) {
                Some(conf) => {
                    lemma_enc_info_close(opts, t, v, in_tlv);
                    lemma_open_section_round(
                        opts,
                        t,
                        conf,
                        bs,
                        in_tlv,
                        ovr,
                        data,
                        pos,
                        limit,
                        known,
                    );
                },
                None => {
                    assert(ovr is None);
                    assert(t.spec_is_const_size());
                    assert(s.min_elements == s.max_elements);
                    assert(bs.len() == s.max_elements);
                    assert(s.element_type.spec_const_len() == 1);
                    assert(known == s.max_elements) by {
                        vstd::arithmetic::mul::lemma_mul_basics(s.max_elements as int);
                    }
                    assert(bytes == bs);
                    assert(data.subrange(pos, pos + known) == bs);
                },
            }
        },
        ValueV::Sequence(elems) => {
            assert(s.min_elements <= elems.len() <= s.max_elements);
            assert(crate::ser::spec_encode_elems(opts, s, elems, 0) is Ok);
            let elem_bytes = crate::ser::spec_encode_elems(opts, s, elems, 0)->Ok_0;
            assert(payload == elem_bytes);
            match t.spec_wanted_length_field(opts, in_tlv) {
                Some(conf) => {
                    lemma_enc_info_close(opts, t, v, in_tlv);
                    lemma_open_section_round(
                        opts,
                        t,
                        conf,
                        elem_bytes,
                        in_tlv,
                        ovr,
                        data,
                        pos,
                        limit,
                        known,
                    );
                    let w = spec_close_section(
                        opts,
                        conf,
                        elem_bytes,
                        in_tlv,
                    )->Ok_0.1.0.spec_num_bytes();
                    assert(elems.take(0) =~= Seq::<ValueV>::empty());
                    lemma_de_elems(
                        opts,
                        t,
                        elems,
                        0,
                        data,
                        pos + w,
                        pos + w + elem_bytes.len(),
                        Seq::empty(),
                    );
                    assert(elems.skip(0) =~= elems);
                },
                None => {
                    assert(ovr is None);
                    assert(t.spec_is_const_size());
                    assert(s.min_elements == s.max_elements);
                    assert(elems.len() == s.max_elements);
                    lemma_elems_enc_len(opts, s, elems, 0);
                    assert(elem_bytes.len() == (elems.len() - 0)
                        * s.element_type.spec_const_len()) by {
                        vstd::arithmetic::mul::lemma_mul_is_commutative(
                            elems.len() - 0,
                            s.element_type.spec_const_len(),
                        );
                    }
                    assert(known == elem_bytes.len()) by {
                        vstd::arithmetic::mul::lemma_mul_is_commutative(
                            s.max_elements as int,
                            s.element_type.spec_const_len(),
                        );
                    }
                    assert(bytes == elem_bytes);
                    assert(data.subrange(pos, pos + known) == elem_bytes);
                    assert(elems.take(0) =~= Seq::<ValueV>::empty());
                    lemma_de_elems(opts, t, elems, 0, data, pos, pos + known, Seq::empty());
                    assert(elems.skip(0) =~= elems);
                },
            }
        },
        _ => {},
    }
}

/// A value of a constant-size type occupies exactly that size outside TLV.
proof fn lemma_const_enc_len(opts: SomeIpOptions, t: SomeIpType, v: ValueV)
    requires
        t.spec_valid(),
        t.spec_is_const_size(),
        crate::value::spec_value_matches(t, v),
        spec_encode(opts, t, v, false) is Ok,
    ensures
        enc_bytes(opts, t, v, false).len() == t.spec_const_len(),
    decreases t, 5int, 0int,
{
    match t {
        SomeIpType::Primitive(p) => {
            reveal_with_fuel(pow256, 9);
            match v {
                ValueV::Bool(_) => {},
                ValueV::U8(_) => {},
                ValueV::I8(_) => {},
                ValueV::U16(x) => lemma_uint_bytes_len(opts.byte_order, x as nat, 2),
                ValueV::U32(x) => lemma_uint_bytes_len(opts.byte_order, x as nat, 4),
                ValueV::U64(x) => lemma_uint_bytes_len(opts.byte_order, x as nat, 8),
                ValueV::I16(x) => lemma_uint_bytes_len(opts.byte_order, (x as u16) as nat, 2),
                ValueV::I32(x) => lemma_uint_bytes_len(opts.byte_order, (x as u32) as nat, 4),
                ValueV::I64(x) => lemma_uint_bytes_len(opts.byte_order, (x as u64) as nat, 8),
                ValueV::F32Bits(x) => lemma_uint_bytes_len(opts.byte_order, x as nat, 4),
                ValueV::F64Bits(x) => lemma_uint_bytes_len(opts.byte_order, x as nat, 8),
                _ => {},
            }
        },
        SomeIpType::Enum(e) => {
            let name = v->EnumVariant_0;
            let ev = spec_name_lookup(e.values@, name)->Some_0;
            lemma_enum_value_matches(e, name, ev);
            lemma_enum_value_round_trip(e.raw_type, ev);
            lemma_uint_bytes_len(opts.byte_order, ev.spec_unsigned(), ev.spec_width() as nat);
        },
        SomeIpType::String(st) => {
            assert(st.min_size == st.max_size);
        },
        SomeIpType::Sequence(s) => {
            match v {
                ValueV::Bytes(bs) => {
                    assert(s.min_elements == s.max_elements);
                    assert(bs.len() == s.max_elements);
                    assert(s.element_type.spec_const_len() == 1);
                    assert(t.spec_const_len() == s.max_elements as int) by {
                        vstd::arithmetic::mul::lemma_mul_basics(s.max_elements as int);
                    }
                },
                ValueV::Sequence(elems) => {
                    assert(s.min_elements == s.max_elements);
                    assert(elems.len() == s.max_elements);
                    lemma_elems_enc_len(opts, s, elems, 0);
                    assert(crate::ser::spec_encode_elems(opts, s, elems, 0)->Ok_0.len() == (
                    elems.len() - 0) * s.element_type.spec_const_len());
                    assert(t.spec_const_len() == s.max_elements
                        * s.element_type.spec_const_len());
                    vstd::arithmetic::mul::lemma_mul_is_commutative(
                        s.max_elements as int,
                        s.element_type.spec_const_len(),
                    );
                },
                _ => {},
            }
        },
        SomeIpType::Struct(st) => {
            let fields = v->Struct_0;
            lemma_struct_fields_enc_len(opts, st, fields, 0);
            let payload = crate::ser::spec_encode_fields(opts, st, fields, 0)->Ok_0;
            assert(payload.len() == crate::types::spec_fields_const_len(st, 0));
            match st.spec_wanted_length_field(opts, false) {
                Some(conf) => {
                    assert(!st.is_message_wrapper && st.length_field_size is Some);
                    assert(conf == st.length_field_size->Some_0);
                    lemma_enc_info_close(opts, t, v, false);
                    lemma_section_length_consistent(opts, conf, payload, false);
                    assert(enc_info(opts, t, v, false)->Some_0.0 == conf);
                },
                None => {
                    assert(st.is_message_wrapper || st.length_field_size is None);
                },
            }
        },
    }
}

/// Constant-size elements lay out one after the other at their size.
proof fn lemma_elems_enc_len(
    opts: SomeIpOptions,
    s: crate::types::SomeIpSequence,
    elems: Seq<ValueV>,
    i: int,
)
    requires
        s.element_type.spec_valid(),
        s.element_type.spec_is_const_size(),
        crate::value::spec_elems_match(s, elems, 0),
        crate::ser::spec_encode_elems(opts, s, elems, i) is Ok,
        0 <= i <= elems.len(),
    ensures
        crate::ser::spec_encode_elems(opts, s, elems, i)->Ok_0.len() == (elems.len() - i)
            * s.element_type.spec_const_len(),
    decreases s, 4int, elems.len() - i,
{
    let c = s.element_type.spec_const_len();
    if i == elems.len() {
        assert((elems.len() - i) * c == 0) by {
            vstd::arithmetic::mul::lemma_mul_basics(c);
        }
    } else {
        crate::ser::lemma_elems_match_at(s, elems, i);
        lemma_const_enc_len(opts, *s.element_type, elems[i]);
        lemma_elems_enc_len(opts, s, elems, i + 1);
        assert((elems.len() - i) * c == c + (elems.len() - i - 1) * c) by {
            vstd::arithmetic::mul::lemma_mul_is_distributive_add_other_way(
                c,
                1,
                elems.len() - i - 1,
            );
        }
    }
}

/// Constant-size struct fields lay out one after the other, summing to the
/// struct's field size.
proof fn lemma_struct_fields_enc_len(
    opts: SomeIpOptions,
    st: crate::types::SomeIpStruct,
    fields: Seq<Option<ValueV>>,
    i: int,
)
    requires
        !st.uses_tlv_serialization,
        crate::types::spec_fields_valid(st, 0),
        crate::types::spec_fields_const_size(st, i),
        crate::value::spec_struct_fields_match(st, fields, 0),
        fields.len() == st.fields@.len(),
        crate::ser::spec_encode_fields(opts, st, fields, i) is Ok,
        0 <= i <= fields.len(),
    ensures
        crate::ser::spec_encode_fields(opts, st, fields, i)->Ok_0.len()
            == crate::types::spec_fields_const_len(st, i),
    decreases st, 4int, fields.len() - i,
{
    if i == fields.len() {
    } else {
        crate::ser::lemma_struct_fields_match_at(st, fields, i);
        crate::ser::lemma_fields_valid_at(st, i);
        assert(fields[i] is Some);
        let fv = fields[i]->Some_0;
        lemma_fields_facts_at(opts, st, fields, i);
        lemma_const_enc_len(opts, *st.fields@[i].field_type, fv);
        lemma_struct_fields_enc_len(opts, st, fields, i + 1);
    }
}

/// The round trip for the elements of a sequence section: decoding from
/// the start of the concatenated element encodings, with the section ending
/// exactly at their end, yields the elements.
proof fn lemma_de_elems(
    opts: SomeIpOptions,
    t: SomeIpType,
    elems: Seq<ValueV>,
    i: int,
    data: Seq<u8>,
    pos: int,
    limit: int,
    acc: Seq<ValueV>,
)
    requires
        t is Sequence,
        opts.spec_is_valid(),
        t.spec_valid(),
        t.spec_lf_ok(opts, false),
        t.spec_tlv_clean(),
        crate::value::spec_elems_match(t->Sequence_0, elems, 0),
        spec_rt_elems_ok(opts, t->Sequence_0, elems, 0),
        !spec_is_greedy(opts, *t->Sequence_0.element_type, false, None),
        elems.len() <= t->Sequence_0.max_elements,
        0 <= i <= elems.len(),
        crate::ser::spec_encode_elems(opts, t->Sequence_0, elems, i) is Ok,
        0 <= pos,
        pos + crate::ser::spec_encode_elems(opts, t->Sequence_0, elems, i)->Ok_0.len() == limit,
        limit <= data.len(),
        data.subrange(pos, limit) == crate::ser::spec_encode_elems(
            opts,
            t->Sequence_0,
            elems,
            i,
        )->Ok_0,
        acc == elems.take(i),
    ensures
        crate::de::spec_dec_elems(opts, t->Sequence_0, data, pos, limit, acc) == Ok::<
            Seq<ValueV>,
            ErrorV,
        >(elems),
    decreases t, 2int, elems.len() - i,
{
    let s = t->Sequence_0;
    let suffix = crate::ser::spec_encode_elems(opts, s, elems, i)->Ok_0;
    if i == elems.len() {
        assert(suffix =~= Seq::<u8>::empty());
        assert(pos == limit);
        assert(acc =~= elems);
    } else {
        lemma_elems_facts_at(opts, s, elems, i);
        let b0 = enc_bytes(opts, *s.element_type, elems[i], false);
        let rest = crate::ser::spec_encode_elems(opts, s, elems, i + 1)->Ok_0;
        assert(suffix == b0 + rest);
        assert(b0.len() >= 1);
        assert(pos < limit);
        lemma_embed_slice(data, pos, suffix, 0, b0.len() as int);
        assert(suffix.subrange(0, b0.len() as int) =~= b0);
        assert(data.subrange(pos, pos + b0.len() as int) == b0);
        crate::ser::lemma_elems_match_at(s, elems, i);
        lemma_ovr_none_ok(opts, *s.element_type, elems[i]);
        lemma_decode_encode(
            opts,
            *s.element_type,
            elems[i],
            false,
            None,
            data,
            pos,
            limit,
        );
        assert(acc.len() == i);
        let next = acc.push(elems[i]);
        assert(next.len() == i + 1 <= s.max_elements);
        assert(next =~= elems.take(i + 1));
        lemma_embed_slice(data, pos, suffix, b0.len() as int, suffix.len() as int);
        assert(suffix.subrange(b0.len() as int, suffix.len() as int) =~= rest);
        assert(data.subrange(pos + b0.len(), limit) == rest);
        lemma_de_elems(opts, t, elems, i + 1, data, pos + b0.len(), limit, next);
    }
}

/// The per-element facts of the round trip hypotheses, at index `i`.
proof fn lemma_elems_facts_at(
    opts: SomeIpOptions,
    s: crate::types::SomeIpSequence,
    elems: Seq<ValueV>,
    i: int,
)
    requires
        spec_rt_elems_ok(opts, s, elems, 0),
        crate::ser::spec_encode_elems(opts, s, elems, i) is Ok,
        0 <= i < elems.len(),
    ensures
        spec_encode(opts, *s.element_type, elems[i], false) is Ok,
        enc_bytes(opts, *s.element_type, elems[i], false).len() >= 1,
        spec_rt_ok(opts, *s.element_type, elems[i], false),
        crate::ser::spec_encode_elems(opts, s, elems, i + 1) is Ok,
        crate::ser::spec_encode_elems(opts, s, elems, i)->Ok_0 == enc_bytes(
            opts,
            *s.element_type,
            elems[i],
            false,
        ) + crate::ser::spec_encode_elems(opts, s, elems, i + 1)->Ok_0,
    decreases i,
{
    lemma_rt_elems_ok_at(opts, s, elems, 0, i);
}

/// The recursive hypotheses of [`spec_rt_elems_ok`] reach every index.
proof fn lemma_rt_elems_ok_at(
    opts: SomeIpOptions,
    s: crate::types::SomeIpSequence,
    elems: Seq<ValueV>,
    j: int,
    i: int,
)
    requires
        spec_rt_elems_ok(opts, s, elems, j),
        0 <= j <= i < elems.len(),
    ensures
        (spec_encode(opts, *s.element_type, elems[i], false) is Ok ==> enc_bytes(
            opts,
            *s.element_type,
            elems[i],
            false,
        ).len() >= 1),
        spec_rt_ok(opts, *s.element_type, elems[i], false),
    decreases i - j,
{
    if j < i {
        lemma_rt_elems_ok_at(opts, s, elems, j + 1, i);
    }
}

/// The recursive hypotheses of [`spec_rt_fields_ok`] reach every index.
proof fn lemma_rt_fields_ok_at(
    opts: SomeIpOptions,
    st: crate::types::SomeIpStruct,
    fields: Seq<Option<ValueV>>,
    j: int,
    i: int,
    nonempty: bool,
)
    requires
        spec_rt_fields_ok(opts, st, fields, j, nonempty),
        0 <= j <= i < fields.len(),
        fields.len() == st.fields@.len(),
    ensures
        match fields[i] {
            None => true,
            Some(fv) => {
                &&& (nonempty && spec_encode(opts, *st.fields@[i].field_type, fv, false) is Ok
                    ==> enc_bytes(opts, *st.fields@[i].field_type, fv, false).len() >= 1)
                &&& (!st.uses_tlv_serialization ==> !spec_is_greedy(
                    opts,
                    *st.fields@[i].field_type,
                    false,
                    None,
                ))
                &&& spec_rt_ok(opts, *st.fields@[i].field_type, fv, st.uses_tlv_serialization)
            },
        },
    decreases i - j,
{
    if j < i {
        lemma_rt_fields_ok_at(opts, st, fields, j + 1, i, nonempty);
    }
}

/// One step of the field encoding: the bytes at index `i` and the rest.
proof fn lemma_fields_facts_at(
    opts: SomeIpOptions,
    st: crate::types::SomeIpStruct,
    fields: Seq<Option<ValueV>>,
    i: int,
)
    requires
        crate::ser::spec_encode_fields(opts, st, fields, i) is Ok,
        0 <= i < fields.len(),
        fields.len() <= st.fields@.len(),
    ensures
        crate::ser::spec_encode_fields(opts, st, fields, i + 1) is Ok,
        match fields[i] {
            None => crate::ser::spec_encode_fields(opts, st, fields, i)
                == crate::ser::spec_encode_fields(opts, st, fields, i + 1),
            Some(fv) => {
                &&& crate::ser::spec_field_chunk(
                    opts,
                    st.fields@[i],
                    fv,
                    st.uses_tlv_serialization,
                ) is Ok
                &&& spec_encode(opts, *st.fields@[i].field_type, fv, st.uses_tlv_serialization)
                    is Ok
                &&& crate::ser::spec_encode_fields(opts, st, fields, i)->Ok_0
                    == crate::ser::spec_field_chunk(
                    opts,
                    st.fields@[i],
                    fv,
                    st.uses_tlv_serialization,
                )->Ok_0 + crate::ser::spec_encode_fields(opts, st, fields, i + 1)->Ok_0
            },
        },
{
}

/// The round trip for a struct node.
#[verifier::rlimit(100)]
proof fn lemma_de_struct(
    opts: SomeIpOptions,
    t: SomeIpType,
    v: ValueV,
    in_tlv: bool,
    ovr: Option<LengthFieldSize>,
    data: Seq<u8>,
    pos: int,
    limit: int,
)
    requires
        t is Struct,
        opts.spec_is_valid(),
        t.spec_valid(),
        t.spec_lf_ok(opts, in_tlv),
        t.spec_tlv_clean(),
        crate::value::spec_value_matches(t, v),
        spec_rt_ok(opts, t, v, in_tlv),
        spec_encode(opts, t, v, in_tlv) is Ok,
        0 <= pos,
        pos + enc_bytes(opts, t, v, in_tlv).len() <= limit <= data.len(),
        data.subrange(pos, pos + enc_bytes(opts, t, v, in_tlv).len() as int) == enc_bytes(
            opts,
            t,
            v,
            in_tlv,
        ),
        spec_ovr_consistent(opts, t, v, in_tlv, ovr),
        spec_is_greedy(opts, t, in_tlv, ovr) ==> pos + enc_bytes(opts, t, v, in_tlv).len()
            == limit,
    ensures
        crate::de::spec_decode(opts, t, data, pos, limit, in_tlv, ovr) == Ok::<
            (ValueV, int),
            ErrorV,
        >((v, enc_bytes(opts, t, v, in_tlv).len() as int)),
    decreases t, 3int, 0int,
{
    let st = t->Struct_0;
    let fields = v->Struct_0;
    let bytes = enc_bytes(opts, t, v, in_tlv);
    assert(crate::ser::spec_encode_fields(opts, st, fields, 0) is Ok);
    let payload = crate::ser::spec_encode_fields(opts, st, fields, 0)->Ok_0;
    assert(spec_close_payload_at(opts, t, v, in_tlv) == payload);
    assert(fields.take(0) =~= Seq::<ValueV>::empty().map_values(|x: ValueV| Some(x)).take(0));
    match st.spec_wanted_length_field(opts, in_tlv) {
        Some(conf) => {
            lemma_enc_info_close(opts, t, v, in_tlv);
            lemma_open_section_round(
                opts,
                t,
                conf,
                payload,
                in_tlv,
                ovr,
                data,
                pos,
                limit,
                0,
            );
            let w = spec_close_section(opts, conf, payload, in_tlv)->Ok_0.1.0.spec_num_bytes();
            let body = pos + w;
            let body_end = body + payload.len();
            lemma_section_length_consistent(opts, conf, payload, in_tlv);
            assert(bytes.len() == w + payload.len());
            assert(v == ValueV::Struct(fields));
            if st.uses_tlv_serialization {
                lemma_de_tlv_fields(
                    opts,
                    t,
                    fields,
                    0,
                    data,
                    body,
                    body_end,
                    Seq::new(st.fields@.len(), |j: int| None),
                );
            } else {
                lemma_de_plain_fields(opts, t, fields, 0, data, body, body_end, true);
                assert(fields.skip(0) =~= fields);
            }
        },
        None => {
            // Either a message wrapper TLV struct, which reads to the outer
            // limit it owns, or a plain struct without a section, which
            // reads its fields by count.
            assert(enc_info(opts, t, v, in_tlv) is None);
            assert(ovr is None);
            assert(bytes == payload);
            assert(v == ValueV::Struct(fields));
            if st.uses_tlv_serialization {
                assert(spec_is_greedy(opts, t, in_tlv, ovr));
                assert(pos + bytes.len() == limit);
                assert(data.subrange(pos, limit) == payload);
                lemma_de_tlv_fields(
                    opts,
                    t,
                    fields,
                    0,
                    data,
                    pos,
                    limit,
                    Seq::new(st.fields@.len(), |j: int| None),
                );
            } else {
                assert(data.subrange(pos, pos + payload.len()) == payload);
                lemma_de_plain_fields(opts, t, fields, 0, data, pos, limit, false);
                assert(fields.skip(0) =~= fields);
            }
        },
    }
}

/// The round trip for the fields of a plain struct: decoding the
/// concatenated field encodings in declaration order yields the fields.
#[verifier::rlimit(100)]
proof fn lemma_de_plain_fields(
    opts: SomeIpOptions,
    t: SomeIpType,
    fields: Seq<Option<ValueV>>,
    i: int,
    data: Seq<u8>,
    pos: int,
    limit: int,
    in_section: bool,
)
    requires
        t is Struct,
        !t->Struct_0.uses_tlv_serialization,
        opts.spec_is_valid(),
        t.spec_valid(),
        crate::types::spec_fields_lf_ok(t->Struct_0, opts, 0),
        crate::types::spec_fields_tlv_clean(t->Struct_0, 0),
        crate::value::spec_struct_fields_match(t->Struct_0, fields, 0),
        fields.len() == t->Struct_0.fields@.len(),
        spec_rt_fields_ok(opts, t->Struct_0, fields, 0, in_section),
        0 <= i <= fields.len(),
        crate::ser::spec_encode_fields(opts, t->Struct_0, fields, i) is Ok,
        0 <= pos,
        pos + crate::ser::spec_encode_fields(opts, t->Struct_0, fields, i)->Ok_0.len() <= limit
            <= data.len(),
        in_section ==> pos + crate::ser::spec_encode_fields(
            opts,
            t->Struct_0,
            fields,
            i,
        )->Ok_0.len() == limit,
        data.subrange(
            pos,
            pos + crate::ser::spec_encode_fields(opts, t->Struct_0, fields, i)->Ok_0.len() as int,
        ) == crate::ser::spec_encode_fields(opts, t->Struct_0, fields, i)->Ok_0,
    ensures
        crate::de::spec_dec_fields(opts, t->Struct_0, data, pos, limit, i, in_section) == Ok::<
            (Seq<Option<ValueV>>, int),
            ErrorV,
        >(
            (
                fields.skip(i),
                crate::ser::spec_encode_fields(opts, t->Struct_0, fields, i)->Ok_0.len() as int,
            ),
        ),
    decreases t, 2int, fields.len() - i,
{
    let st = t->Struct_0;
    let suffix = crate::ser::spec_encode_fields(opts, st, fields, i)->Ok_0;
    if i == fields.len() {
        assert(suffix =~= Seq::<u8>::empty());
        assert(fields.skip(i) =~= Seq::<Option<ValueV>>::empty());
    } else {
        crate::ser::lemma_struct_fields_match_at(st, fields, i);
        assert(fields[i] is Some);
        let fv = fields[i]->Some_0;
        lemma_fields_facts_at(opts, st, fields, i);
        let chunk = crate::ser::spec_field_chunk(opts, st.fields@[i], fv, false)->Ok_0;
        let b0 = enc_bytes(opts, *st.fields@[i].field_type, fv, false);
        assert(chunk == b0);
        let rest = crate::ser::spec_encode_fields(opts, st, fields, i + 1)->Ok_0;
        assert(suffix == b0 + rest);
        lemma_rt_fields_ok_at(opts, st, fields, 0, i, in_section);
        if in_section {
            assert(b0.len() >= 1);
            assert(pos < limit);
        }
        lemma_embed_slice(data, pos, suffix, 0, b0.len() as int);
        assert(suffix.subrange(0, b0.len() as int) =~= b0);
        assert(data.subrange(pos, pos + b0.len() as int) == b0);
        lemma_ovr_none_ok(opts, *st.fields@[i].field_type, fv);
        crate::ser::lemma_fields_valid_at(st, i);
        crate::ser::lemma_fields_lf_ok_at(st, opts, i);
        crate::ser::lemma_fields_tlv_clean_at(st, i);
        lemma_decode_encode(
            opts,
            *st.fields@[i].field_type,
            fv,
            false,
            None,
            data,
            pos,
            limit,
        );
        lemma_embed_slice(data, pos, suffix, b0.len() as int, suffix.len() as int);
        assert(suffix.subrange(b0.len() as int, suffix.len() as int) =~= rest);
        assert(data.subrange(pos + b0.len(), pos + suffix.len()) == rest);
        lemma_de_plain_fields(opts, t, fields, i + 1, data, pos + b0.len(), limit, in_section);
        assert(seq![Some(fv)] + fields.skip(i + 1) =~= fields.skip(i));
    }
}

/// The round trip for the fields of a TLV struct: decoding the tagged field
/// encodings fills exactly the encoded fields and leaves the rest absent.
#[verifier::rlimit(100)]
proof fn lemma_de_tlv_fields(
    opts: SomeIpOptions,
    t: SomeIpType,
    fields: Seq<Option<ValueV>>,
    i: int,
    data: Seq<u8>,
    pos: int,
    limit: int,
    acc: Seq<Option<ValueV>>,
)
    requires
        t is Struct,
        t->Struct_0.uses_tlv_serialization,
        opts.spec_is_valid(),
        t.spec_valid(),
        crate::types::spec_fields_lf_ok(t->Struct_0, opts, 0),
        crate::types::spec_fields_tlv_clean(t->Struct_0, 0),
        crate::value::spec_struct_fields_match(t->Struct_0, fields, 0),
        fields.len() == t->Struct_0.fields@.len(),
        spec_rt_fields_ok(opts, t->Struct_0, fields, 0, false),
        0 <= i <= fields.len(),
        crate::ser::spec_encode_fields(opts, t->Struct_0, fields, i) is Ok,
        0 <= pos,
        pos + crate::ser::spec_encode_fields(opts, t->Struct_0, fields, i)->Ok_0.len() == limit,
        limit <= data.len(),
        data.subrange(pos, limit) == crate::ser::spec_encode_fields(
            opts,
            t->Struct_0,
            fields,
            i,
        )->Ok_0,
        acc.len() == fields.len(),
        forall|j: int| 0 <= j < i ==> acc[j] == fields[j],
        forall|j: int| i <= j < acc.len() ==> acc[j] is None,
    ensures
        crate::de::spec_dec_tlv(opts, t->Struct_0, data, pos, limit, acc) == Ok::<
            (Seq<Option<ValueV>>, int),
            ErrorV,
        >(
            (
                fields,
                crate::ser::spec_encode_fields(opts, t->Struct_0, fields, i)->Ok_0.len() as int,
            ),
        ),
    decreases t, 2int, fields.len() - i,
{
    let st = t->Struct_0;
    let suffix = crate::ser::spec_encode_fields(opts, st, fields, i)->Ok_0;
    if i == fields.len() {
        assert(suffix =~= Seq::<u8>::empty());
        assert(pos == limit);
        assert(acc =~= fields);
    } else {
        lemma_fields_facts_at(opts, st, fields, i);
        match fields[i] {
            None => {
                lemma_de_tlv_fields(opts, t, fields, i + 1, data, pos, limit, acc);
            },
            Some(fv) => {
                let field = st.fields@[i];
                let id = field.id->Some_0;
                assert(field.id is Some && id <= 0xFFF) by {
                    assert(st.fields@[i].id is Some);
                }
                let wire = field.field_type.spec_wire_type();
                let enc = spec_encode(opts, *field.field_type, fv, true);
                let info = enc->Ok_0.1;
                let b0 = enc->Ok_0.0;
                let tag = crate::ser::spec_field_tag(opts, wire, id, info);
                let chunk = crate::ser::spec_field_chunk(opts, field, fv, true)->Ok_0;
                let tag_bytes = spec_uint_bytes(opts.byte_order, tag as nat, 2);
                assert(chunk == tag_bytes + b0);
                let rest = crate::ser::spec_encode_fields(opts, st, fields, i + 1)->Ok_0;
                assert(suffix == chunk + rest);
                lemma_uint_bytes_len(opts.byte_order, tag as nat, 2);
                // The tag reads back and splits into the written wire type
                // and the field id.
                lemma_embed_slice(data, pos, suffix, 0, 2);
                assert(suffix.subrange(0, 2) =~= tag_bytes);
                assert(data.subrange(pos, pos + 2) == tag_bytes);
                assert((tag as nat) < pow256(2)) by {
                    reveal_with_fuel(pow256, 3);
                }
                lemma_uint_val_of_bytes(opts.byte_order, tag as nat, 2);
                crate::ser::lemma_fields_valid_at(st, i);
                crate::ser::lemma_fields_lf_ok_at(st, opts, i);
                crate::ser::lemma_fields_tlv_clean_at(st, i);
                crate::ser::lemma_struct_fields_match_at(st, fields, i);
                lemma_rt_fields_ok_at(opts, st, fields, 0, i, false);
                let wire_written: crate::wire_type::WireType = if wire
                    == crate::wire_type::WireType::LengthDelimitedFromConfig {
                    if !info->Some_0.1 || !opts.serializer_use_legacy_wire_type {
                        crate::wire_type::WireType::spec_for_length_field_size(info->Some_0.0)
                    } else {
                        wire
                    }
                } else {
                    wire
                };
                assert(info is Some ==> true);
                if wire == crate::wire_type::WireType::LengthDelimitedFromConfig {
                    crate::ser::lemma_tlv_field_opens_section(opts, *field.field_type, fv);
                    assert(info is Some);
                }
                assert(tag == crate::wire_type::WireType::spec_tag(wire_written, id));
                lemma_tag_round_trip(wire_written, id);
                lemma_field_by_id_unique(st.fields@, i, id);
                // The written wire type is compatible with the schema's.
                assert(wire.spec_compatible(wire_written));
                // The slot is still empty.
                assert(acc[i] is None);
                // The field value reads back.
                lemma_embed_slice(data, pos, suffix, 2, 2 + b0.len() as int);
                assert(suffix.subrange(2, 2 + b0.len() as int) =~= b0);
                assert(data.subrange(pos + 2, pos + 2 + b0.len() as int) == b0);
                let ovr_field = wire_written.spec_length_field_size();
                assert(spec_ovr_consistent(opts, *field.field_type, fv, true, ovr_field)) by {
                    match info {
                        Some(pair) => {
                            if wire == crate::wire_type::WireType::LengthDelimitedFromConfig {
                                if !pair.1 || !opts.serializer_use_legacy_wire_type {
                                    assert(ovr_field == Some(pair.0));
                                } else {
                                    assert(ovr_field is None);
                                    lemma_enc_info_close(opts, *field.field_type, fv, true);
                                    assert(pair.1 ==> pair.0 == field.field_type
                                        .spec_wanted_length_field(opts, true)->Some_0);
                                }
                            } else {
                                assert(false) by {
                                    lemma_fixed_wire_no_info(opts, *field.field_type, fv);
                                }
                            }
                        },
                        None => {
                            assert(wire != crate::wire_type::WireType::LengthDelimitedFromConfig);
                            assert(ovr_field is None);
                        },
                    }
                }
                assert(!spec_is_greedy(opts, *field.field_type, true, ovr_field)) by {
                    if *field.field_type is Struct
                        && (*field.field_type)->Struct_0.uses_tlv_serialization {
                        assert(!(*field.field_type)->Struct_0.is_message_wrapper);
                    }
                }
                lemma_decode_encode(
                    opts,
                    *field.field_type,
                    fv,
                    true,
                    ovr_field,
                    data,
                    pos + 2,
                    limit,
                );
                lemma_embed_slice(data, pos, suffix, 2 + b0.len() as int, suffix.len() as int);
                assert(suffix.subrange(2 + b0.len() as int, suffix.len() as int) =~= rest);
                assert(data.subrange(pos + 2 + b0.len(), limit) == rest);
                lemma_de_tlv_fields(
                    opts,
                    t,
                    fields,
                    i + 1,
                    data,
                    pos + 2 + b0.len(),
                    limit,
                    acc.update(i, Some(fv)),
                );
            },
        }
    }
}

/// A fixed-width node never carries section information.
proof fn lemma_fixed_wire_no_info(opts: SomeIpOptions, t: SomeIpType, v: ValueV)
    requires
        crate::value::spec_value_matches(t, v),
        spec_encode(opts, t, v, true) is Ok,
        t.spec_wire_type() != crate::wire_type::WireType::LengthDelimitedFromConfig,
    ensures
        enc_info(opts, t, v, true) is None,
{
    match t {
        SomeIpType::Primitive(_) => {},
        SomeIpType::Enum(_) => {},
        _ => {
            assert(t.spec_wire_type()
                == crate::wire_type::WireType::LengthDelimitedFromConfig);
        },
    }
}

/// Size bounds: a successful top-level decode consumes exactly the whole
/// input — whatever the input, not only an encoder's output.
pub proof fn lemma_decode_consumes_all(opts: SomeIpOptions, t: SomeIpType, data: Seq<u8>)
    ensures
        crate::de::spec_from_slice(opts, t, data) is Ok ==> crate::de::spec_decode(
            opts,
            t,
            data,
            0,
            data.len() as int,
            false,
            None,
        )->Ok_0.1 == data.len(),
{
}

/// The round trip at the top level: a value serialized with `spec_to_vec`
/// is deserialized back from its own bytes by `spec_from_slice`, and the
/// decoder consumes exactly the whole encoding.
pub proof fn lemma_round_trip(opts: SomeIpOptions, t: SomeIpType, v: ValueV)
    requires
        opts.spec_is_valid(),
        t.spec_valid(),
        t.spec_lf_ok(opts, false),
        t.spec_tlv_clean(),
        crate::value::spec_value_matches(t, v),
        spec_rt_ok(opts, t, v, false),
        spec_to_vec(opts, t, v) is Ok,
    ensures
        crate::de::spec_from_slice(opts, t, spec_to_vec(opts, t, v)->Ok_0) == Ok::<
            ValueV,
            ErrorV,
        >(v),
        crate::de::spec_decode(
            opts,
            t,
            spec_to_vec(opts, t, v)->Ok_0,
            0,
            spec_to_vec(opts, t, v)->Ok_0.len() as int,
            false,
            None,
        ) == Ok::<(ValueV, int), ErrorV>((v, spec_to_vec(opts, t, v)->Ok_0.len() as int)),
{
    let bytes = spec_to_vec(opts, t, v)->Ok_0;
    assert(bytes == enc_bytes(opts, t, v, false));
    assert(bytes.subrange(0, bytes.len() as int) =~= bytes);
    lemma_ovr_none_ok(opts, t, v);
    lemma_decode_encode(opts, t, v, false, None, bytes, 0, bytes.len() as int);
}

/// Unknown-tag tolerance, one step: when a TLV section holds, at the
/// current position, a well-formed tag whose id no field carries, followed
/// by as many bytes as the tag announces, the decoder skips them and reads
/// on unchanged.
pub proof fn lemma_unknown_tag_skipped(
    opts: SomeIpOptions,
    st: crate::types::SomeIpStruct,
    data: Seq<u8>,
    pos: int,
    limit: int,
    acc: Seq<Option<ValueV>>,
    skipped: int,
)
    requires
        0 <= pos,
        pos + 2 <= limit <= data.len(),
        crate::types::spec_field_by_id(
            st.fields@,
            crate::wire_type::WireType::spec_disect_tag(
                spec_uint_val(opts.byte_order, data.subrange(pos, pos + 2)) as u16,
            ).1,
        ) is None,
        ({
            let wire = crate::wire_type::WireType::spec_disect_tag(
                spec_uint_val(opts.byte_order, data.subrange(pos, pos + 2)) as u16,
            ).0;
            match wire.spec_fixed_size() {
                Some(k) => skipped == 2 + k && pos + skipped <= limit,
                None => {
                    let size = if wire.spec_length_field_size() is Some {
                        wire.spec_length_field_size()
                    } else {
                        opts.spec_apply_defaults(st.length_field_size)
                    };
                    &&& size is Some
                    &&& pos + 2 + size->Some_0.spec_num_bytes() <= limit
                    &&& skipped == 2 + size->Some_0.spec_num_bytes() + spec_uint_val(
                        opts.byte_order,
                        data.subrange(
                            pos + 2,
                            pos + 2 + size->Some_0.spec_num_bytes(),
                        ),
                    )
                    &&& pos + skipped <= limit
                },
            }
        }),
    ensures
        crate::de::spec_dec_tlv(opts, st, data, pos, limit, acc) == (match crate::de::spec_dec_tlv(
            opts,
            st,
            data,
            pos + skipped,
            limit,
            acc,
        ) {
            Ok((out, c)) => Ok::<(Seq<Option<ValueV>>, int), ErrorV>((out, skipped + c)),
            Err(e) => Err::<(Seq<Option<ValueV>>, int), ErrorV>(e),
        }),
{
}

/// Wire-type width independence: once a tag announces a specific length
/// field width, the section is opened with that width, whatever width the
/// schema configures. Two schema nodes decode their sections alike under an
/// announced width.
pub proof fn lemma_announced_width_wins(
    opts: SomeIpOptions,
    t1: SomeIpType,
    t2: SomeIpType,
    data: Seq<u8>,
    pos: int,
    limit: int,
    in_tlv: bool,
    sz: LengthFieldSize,
    known1: int,
    known2: int,
)
    ensures
        crate::de::spec_open_section(opts, t1, data, pos, limit, in_tlv, Some(sz), known1)
            == crate::de::spec_open_section(opts, t2, data, pos, limit, in_tlv, Some(sz), known2),
{
}

} // verus!
