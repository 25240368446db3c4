//! Text encodings: a mathematical model of UTF-16, wrappers around the
//! standard library's string conversions, and the byte-level encoding and
//! decoding of wire strings under the configured options.
//!
//! UTF-8 is modelled by `vstd::utf8`; UTF-16 is modelled here.

use vstd::prelude::*;

use crate::error::{Error, ErrorV, SomeIpResult, StringCodeError};
use crate::options::{ByteOrder, SomeIpOptions, StringEncoding};
use crate::uint_bytes::{push_uint, read_uint, spec_uint_bytes, spec_uint_val};
use vstd::string::StringSliceAdditionalSpecFns;

verus! {

/// Whether `u` is a UTF-16 high (leading) surrogate.
pub open spec fn is_high_surrogate(u: u16) -> bool {
    0xD800 <= u < 0xDC00
}

/// Whether `u` is a UTF-16 low (trailing) surrogate.
pub open spec fn is_low_surrogate(u: u16) -> bool {
    0xDC00 <= u < 0xE000
}

/// The UTF-16 code units of one character: itself for the basic plane, and
/// a surrogate pair above it.
pub open spec fn utf16_units_of_char(c: char) -> Seq<u16> {
    let u = c as u32;
    if u < 0x10000 {
        seq![u as u16]
    } else {
        seq![
            (0xD800 + (u - 0x10000) / 0x400) as u16,
            (0xDC00 + (u - 0x10000) % 0x400) as u16,
        ]
    }
}

/// The UTF-16 encoding of a character sequence.
pub open spec fn utf16_encode(s: Seq<char>) -> Seq<u16>
    decreases s.len(),
{
    if s.len() == 0 {
        Seq::empty()
    } else {
        utf16_units_of_char(s.first()) + utf16_encode(s.drop_first())
    }
}

/// Whether a code unit sequence is valid UTF-16: every high surrogate is
/// followed by a low one, and no low surrogate stands alone.
pub open spec fn valid_utf16(units: Seq<u16>) -> bool
    decreases units.len(),
{
    if units.len() == 0 {
        true
    } else if !is_high_surrogate(units.first()) && !is_low_surrogate(units.first()) {
        valid_utf16(units.drop_first())
    } else if is_high_surrogate(units.first()) && units.len() >= 2 && is_low_surrogate(units[1]) {
        valid_utf16(units.skip(2))
    } else {
        false
    }
}

/// The character sequence a valid UTF-16 code unit sequence denotes.
pub open spec fn utf16_decode(units: Seq<u16>) -> Seq<char>
    decreases units.len(),
{
    if units.len() == 0 {
        Seq::empty()
    } else if !is_high_surrogate(units.first()) && !is_low_surrogate(units.first()) {
        seq![(units.first() as u32) as char] + utf16_decode(units.drop_first())
    } else if is_high_surrogate(units.first()) && units.len() >= 2 && is_low_surrogate(units[1]) {
        let scalar = 0x10000 + (units.first() - 0xD800) * 0x400 + (units[1] - 0xDC00);
        seq![(scalar as u32) as char] + utf16_decode(units.skip(2))
    } else {
        Seq::empty()
    }
}

/// The encoding of a character is valid UTF-16 and decodes back to it; the
/// building block of the round trip.
proof fn lemma_utf16_char_round_trip(c: char, tail: Seq<u16>)
    ensures
        valid_utf16(tail) ==> valid_utf16(utf16_units_of_char(c) + tail),
        utf16_decode(tail) == utf16_decode(tail) && (utf16_decode(utf16_units_of_char(c) + tail)
            == seq![c] + utf16_decode(tail)),
{
    broadcast use vstd::utf8::char_is_scalar;

    let u = c as u32;
    let units = utf16_units_of_char(c) + tail;
    if u < 0x10000 {
        assert(units.first() == u as u16);
        assert(!is_high_surrogate(u as u16) && !is_low_surrogate(u as u16));
        assert(units.drop_first() =~= tail);
        vstd::utf8::char_u32_cast(c, u);
        assert(((u as u16) as u32) as char == c);
    } else {
        let hi = (0xD800 + (u - 0x10000) / 0x400) as u16;
        let lo = (0xDC00 + (u - 0x10000) % 0x400) as u16;
        assert(u <= 0x10FFFF);
        assert((u - 0x10000) / 0x400 < 0x400 && (u - 0x10000) % 0x400 < 0x400) by {
            vstd::arithmetic::div_mod::lemma_multiply_divide_lt((u - 0x10000) as int, 0x400, 0x400);
            vstd::arithmetic::div_mod::lemma_mod_division_less_than_divisor(
                (u - 0x10000) as int,
                0x400,
            );
        }
        assert(is_high_surrogate(hi));
        assert(is_low_surrogate(lo));
        assert(units.first() == hi && units[1] == lo);
        assert(units.skip(2) =~= tail);
        let scalar = 0x10000 + (hi - 0xD800) * 0x400 + (lo - 0xDC00);
        assert(scalar == u) by {
            vstd::arithmetic::div_mod::lemma_fundamental_div_mod((u - 0x10000) as int, 0x400);
        }
        vstd::utf8::char_u32_cast(c, u);
        assert((scalar as u32) as char == c);
    }
}

/// The UTF-16 encoding of any character sequence is valid UTF-16 and
/// decodes back to the same characters.
pub proof fn lemma_utf16_round_trip(s: Seq<char>)
    ensures
        valid_utf16(utf16_encode(s)),
        utf16_decode(utf16_encode(s)) == s,
    decreases s.len(),
{
    if s.len() == 0 {
        assert(utf16_decode(utf16_encode(s)) =~= s);
    } else {
        lemma_utf16_round_trip(s.drop_first());
        lemma_utf16_char_round_trip(s.first(), utf16_encode(s.drop_first()));
        assert(utf16_decode(utf16_encode(s)) =~= s);
    }
}

/// A valid UTF-16 sequence ending in a zero unit decodes to a sequence
/// ending in the NUL character, and dropping that unit drops that character.
pub proof fn lemma_utf16_strip_zero(units: Seq<u16>)
    requires
        valid_utf16(units),
        units.len() > 0,
        units.last() == 0,
    ensures
        valid_utf16(units.drop_last()),
        utf16_decode(units).len() > 0,
        utf16_decode(units).last() == 0 as char,
        utf16_decode(units.drop_last()) == utf16_decode(units).drop_last(),
    decreases units.len(),
{
    if units.len() == 1 {
        assert(units.drop_last() =~= Seq::<u16>::empty());
        assert(units.drop_first() =~= Seq::<u16>::empty());
        assert(utf16_decode(units) =~= seq![(0u32) as char]);
        assert(utf16_decode(units.drop_last()) =~= utf16_decode(units).drop_last());
    } else if !is_high_surrogate(units.first()) && !is_low_surrogate(units.first()) {
        let tail = units.drop_first();
        assert(tail.last() == 0);
        lemma_utf16_strip_zero(tail);
        assert(units.drop_last().first() == units.first());
        assert(units.drop_last().drop_first() =~= tail.drop_last());
        assert(utf16_decode(units.drop_last()) == seq![(units.first() as u32) as char]
            + utf16_decode(tail.drop_last()));
        assert(utf16_decode(units.drop_last()) =~= utf16_decode(units).drop_last());
    } else {
        let tail = units.skip(2);
        assert(units.len() >= 2 && is_high_surrogate(units.first()) && is_low_surrogate(units[1]));
        assert(units.len() > 2) by {
            if units.len() == 2 {
                assert(units[1] == 0);
            }
        }
        assert(tail.last() == 0);
        lemma_utf16_strip_zero(tail);
        assert(units.drop_last().first() == units.first());
        assert(units.drop_last()[1] == units[1]);
        assert(units.drop_last().skip(2) =~= tail.drop_last());
        assert(utf16_decode(units.drop_last()) =~= utf16_decode(units).drop_last());
    }
}

/// Relies on `str::encode_utf16`: the UTF-16 code units of the string's
/// characters, one unit per basic-plane character and a surrogate pair per
/// supplementary character.
#[verifier::external_body]
pub fn encode_utf16_units(s: &str) -> (r: Vec<u16>)
    ensures
        r@ == utf16_encode(s@),
{
    s.encode_utf16().collect()
}

/// Relies on `String::from_utf16`: succeeds exactly on valid UTF-16 and
/// returns the string those units denote.
#[verifier::external_body]
pub fn string_from_utf16(units: &Vec<u16>) -> (r: Option<String>)
    ensures
        match r {
            Some(s) => valid_utf16(units@) && s@ == utf16_decode(units@),
            None => !valid_utf16(units@),
        },
{
    String::from_utf16(units.as_slice()).ok()
}

/// Relies on `String::from_utf8`: succeeds exactly on valid UTF-8 and
/// returns the string encoded by those bytes.
#[verifier::external_body]
pub fn string_from_utf8(bytes: &Vec<u8>) -> (r: Option<String>)
    ensures
        match r {
            Some(s) => vstd::utf8::valid_utf8(bytes@) && s@ == vstd::utf8::decode_utf8(bytes@),
            None => !vstd::utf8::valid_utf8(bytes@),
        },
{
    match String::from_utf8(bytes.clone()) {
        Ok(s) => Some(s),
        Err(_) => None,
    }
}

/// The byte order of UTF-16 strings under the given options: the configured
/// order, unless the encoding forces one.
pub open spec fn spec_utf16_order(opts: SomeIpOptions) -> ByteOrder {
    match opts.string_encoding {
        StringEncoding::Utf16Le => ByteOrder::LittleEndian,
        StringEncoding::Utf16Be => ByteOrder::BigEndian,
        _ => opts.byte_order,
    }
}

/// See [`spec_utf16_order`].
pub fn utf16_order(opts: &SomeIpOptions) -> (r: ByteOrder)
    ensures
        r == spec_utf16_order(*opts),
{
    match opts.string_encoding {
        StringEncoding::Utf16Le => ByteOrder::LittleEndian,
        StringEncoding::Utf16Be => ByteOrder::BigEndian,
        _ => opts.byte_order,
    }
}

/// UTF-16 code units laid out as bytes, two per unit in the given order.
pub open spec fn spec_units_bytes(order: ByteOrder, units: Seq<u16>) -> Seq<u8>
    decreases units.len(),
{
    if units.len() == 0 {
        Seq::empty()
    } else {
        spec_uint_bytes(order, units.first() as nat, 2) + spec_units_bytes(
            order,
            units.drop_first(),
        )
    }
}

/// Bytes read back as UTF-16 code units, two bytes per unit in the given
/// order; a trailing odd byte is ignored.
pub open spec fn spec_bytes_units(order: ByteOrder, b: Seq<u8>) -> Seq<u16>
    decreases b.len(),
{
    if b.len() < 2 {
        Seq::empty()
    } else {
        seq![spec_uint_val(order, b.take(2)) as u16] + spec_bytes_units(order, b.skip(2))
    }
}

/// Laying units out as bytes doubles the length.
pub proof fn lemma_units_bytes_len(order: ByteOrder, units: Seq<u16>)
    ensures
        spec_units_bytes(order, units).len() == 2 * units.len(),
    decreases units.len(),
{
    if units.len() > 0 {
        lemma_units_bytes_len(order, units.drop_first());
    }
}

/// A single unit lays out as its two bytes.
pub proof fn lemma_units_bytes_single(order: ByteOrder, u: u16)
    ensures
        spec_units_bytes(order, seq![u]) == spec_uint_bytes(order, u as nat, 2),
{
    let s = seq![u];
    assert(s.drop_first() =~= Seq::<u16>::empty());
    assert(spec_units_bytes(order, s.drop_first()) == Seq::<u8>::empty());
    assert(spec_units_bytes(order, s) =~= spec_uint_bytes(order, u as nat, 2));
}

/// Unit sequences lay out one after the other.
pub proof fn lemma_units_bytes_concat(order: ByteOrder, a: Seq<u16>, b: Seq<u16>)
    ensures
        spec_units_bytes(order, a + b) == spec_units_bytes(order, a) + spec_units_bytes(order, b),
    decreases a.len(),
{
    if a.len() == 0 {
        assert(a + b =~= b);
        assert(spec_units_bytes(order, a) + spec_units_bytes(order, b) =~= spec_units_bytes(
            order,
            b,
        ));
    } else {
        assert((a + b).drop_first() =~= a.drop_first() + b);
        lemma_units_bytes_concat(order, a.drop_first(), b);
        assert(spec_units_bytes(order, a + b) =~= spec_units_bytes(order, a) + spec_units_bytes(
            order,
            b,
        ));
    }
}

/// Reading bytes back as units recovers the units that were laid out.
pub proof fn lemma_bytes_units_of_units_bytes(order: ByteOrder, units: Seq<u16>)
    ensures
        spec_bytes_units(order, spec_units_bytes(order, units)) == units,
    decreases units.len(),
{
    if units.len() == 0 {
        assert(spec_bytes_units(order, spec_units_bytes(order, units)) =~= units);
    } else {
        let u = units.first();
        let head = spec_uint_bytes(order, u as nat, 2);
        let tail = spec_units_bytes(order, units.drop_first());
        crate::uint_bytes::lemma_uint_bytes_len(order, u as nat, 2);
        lemma_units_bytes_len(order, units.drop_first());
        assert((head + tail).take(2) =~= head);
        assert((head + tail).skip(2) =~= tail);
        assert(crate::uint_bytes::pow256(2) == 0x10000) by {
            reveal_with_fuel(crate::uint_bytes::pow256, 3);
        }
        crate::uint_bytes::lemma_uint_val_of_bytes(order, u as nat, 2);
        lemma_bytes_units_of_units_bytes(order, units.drop_first());
        assert(spec_bytes_units(order, spec_units_bytes(order, units)) =~= units);
    }
}

/// The UTF-8 byte order mark.
pub open spec fn spec_utf8_bom() -> Seq<u8> {
    seq![0xEFu8, 0xBBu8, 0xBFu8]
}

/// The encoded content of a wire string under the given options: an
/// optional byte order mark, the encoded characters, and an optional zero
/// terminator, laid out in the effective byte order for UTF-16.
pub open spec fn spec_string_content(opts: SomeIpOptions, s: Seq<char>) -> Seq<u8> {
    if opts.string_encoding.spec_is_utf16_variant() {
        let units = (if opts.string_with_bom {
            seq![0xFEFFu16]
        } else {
            Seq::empty()
        }) + utf16_encode(s) + (if opts.string_with_terminator {
            seq![0u16]
        } else {
            Seq::empty()
        });
        spec_units_bytes(spec_utf16_order(opts), units)
    } else {
        (if opts.string_with_bom {
            spec_utf8_bom()
        } else {
            Seq::empty()
        }) + vstd::utf8::encode_utf8(s) + (if opts.string_with_terminator {
            seq![0u8]
        } else {
            Seq::empty()
        })
    }
}

/// Appends the encoded content of string `s` under the given options.
pub fn push_string_content(buf: &mut Vec<u8>, opts: &SomeIpOptions, s: &str)
    ensures
        final(buf)@ == old(buf)@ + spec_string_content(*opts, s@),
{
    if opts.string_encoding.is_utf16_variant() {
        let order = utf16_order(opts);
        let ghost bom_units: Seq<u16> = if opts.string_with_bom {
            seq![0xFEFFu16]
        } else {
            Seq::empty()
        };
        let ghost term_units: Seq<u16> = if opts.string_with_terminator {
            seq![0u16]
        } else {
            Seq::empty()
        };
        proof {
            reveal_with_fuel(crate::uint_bytes::pow256, 3);
        }
        if opts.string_with_bom {
            push_uint(buf, order, 0xFEFF, 2);
        }
        proof {
            assert(spec_units_bytes(order, bom_units) == spec_uint_bytes(order, 0xFEFF as nat, 2)
                || !opts.string_with_bom) by {
                if opts.string_with_bom {
                    lemma_units_bytes_single(order, 0xFEFF);
                }
            }
            assert(buf@ == old(buf)@ + spec_units_bytes(order, bom_units)) by {
                if !opts.string_with_bom {
                    assert(spec_units_bytes(order, bom_units) =~= Seq::<u8>::empty());
                    assert(buf@ =~= old(buf)@ + spec_units_bytes(order, bom_units));
                }
            }
        }
        let units = encode_utf16_units(s);
        let ghost after_bom = buf@;
        let n = units.len();
        let mut i: usize = 0;
        while i < n
            invariant
                i <= n == units@.len(),
                units@ == utf16_encode(s@),
                buf@ == after_bom + spec_units_bytes(order, units@.take(i as int)),
            decreases n - i,
        {
            proof {
                reveal_with_fuel(crate::uint_bytes::pow256, 3);
            }
            push_uint(buf, order, units[i] as u64, 2);
            proof {
                let prefix = units@.take(i as int);
                let step = units@.take(i as int + 1);
                assert(step =~= prefix + seq![units@[i as int]]);
                lemma_units_bytes_concat(order, prefix, seq![units@[i as int]]);
                lemma_units_bytes_single(order, units@[i as int]);
            }
            i = i + 1;
        }
        proof {
            assert(units@.take(n as int) =~= units@);
        }
        if opts.string_with_terminator {
            proof {
                reveal_with_fuel(crate::uint_bytes::pow256, 3);
            }
            push_uint(buf, order, 0, 2);
        }
        proof {
            let all = bom_units + utf16_encode(s@) + term_units;
            lemma_units_bytes_concat(order, bom_units + utf16_encode(s@), term_units);
            lemma_units_bytes_concat(order, bom_units, utf16_encode(s@));
            assert(spec_units_bytes(order, term_units) == (if opts.string_with_terminator {
                spec_uint_bytes(order, 0, 2)
            } else {
                Seq::<u8>::empty()
            })) by {
                if opts.string_with_terminator {
                    lemma_units_bytes_single(order, 0);
                    assert(term_units =~= seq![0u16]);
                } else {
                    assert(spec_units_bytes(order, term_units) =~= Seq::<u8>::empty());
                }
            }
            assert(buf@ =~= old(buf)@ + spec_units_bytes(order, all));
        }
    } else {
        if opts.string_with_bom {
            buf.push(0xEF);
            buf.push(0xBB);
            buf.push(0xBF);
        }
        let ghost after_bom = buf@;
        proof {
            assert(after_bom =~= old(buf)@ + (if opts.string_with_bom {
                spec_utf8_bom()
            } else {
                Seq::<u8>::empty()
            }));
        }
        let bytes = s.as_bytes();
        buf.extend_from_slice(bytes);
        if opts.string_with_terminator {
            buf.push(0);
        }
        proof {
            assert(buf@ =~= old(buf)@ + spec_string_content(*opts, s@));
        }
    }
}

/// String slice equality, decided on the UTF-8 bytes.
pub fn str_eq(a: &str, b: &str) -> (r: bool)
    ensures
        r == (a@ == b@),
{
    let ab = a.as_bytes();
    let bb = b.as_bytes();
    proof {
        vstd::utf8::encode_utf8_decode_utf8(a@);
        vstd::utf8::encode_utf8_decode_utf8(b@);
    }
    if ab.len() != bb.len() {
        proof {
            assert(ab@ != bb@);
            if a@ == b@ {
                assert(ab@ == bb@);
            }
        }
        return false;
    }
    let n = ab.len();
    let mut i: usize = 0;
    while i < n
        invariant
            i <= n,
            n == ab@.len() == bb@.len(),
            ab@ == a.spec_bytes(),
            bb@ == b.spec_bytes(),
            forall|j: int| 0 <= j < i ==> ab@[j] == bb@[j],
        decreases n - i,
    {
        if ab[i] != bb[i] {
            proof {
                assert(ab@ != bb@);
                if a@ == b@ {
                    assert(ab@ == bb@);
                }
            }
            return false;
        }
        i = i + 1;
    }
    proof {
        assert(ab@ =~= bb@);
        assert(vstd::utf8::decode_utf8(ab@) == vstd::utf8::decode_utf8(bb@));
        assert(a@ == b@);
    }
    true
}

/// Decoding of UTF-16 wire bytes after the mark, in the given byte order:
/// the units must be valid UTF-16, and when a terminator is demanded the
/// last unit must be zero and is dropped.
pub open spec fn spec_decode_utf16_body(
    opts: SomeIpOptions,
    order: ByteOrder,
    body: Seq<u8>,
) -> Result<Seq<char>, ErrorV> {
    let units = spec_bytes_units(order, body);
    if !valid_utf16(units) {
        Err(ErrorV::CannotCodeString(StringCodeError::InvalidUtf16))
    } else if opts.string_with_terminator {
        if units.len() == 0 || units.last() != 0 {
            Err(ErrorV::CannotCodeString(StringCodeError::MissingTerminator))
        } else {
            Ok(utf16_decode(units.drop_last()))
        }
    } else {
        Ok(utf16_decode(units))
    }
}

/// The characters denoted by the `len` content bytes of a wire string, or
/// the reason they denote none: what the deserializer makes of a string
/// section under the given options.
pub open spec fn spec_decode_string(opts: SomeIpOptions, b: Seq<u8>) -> Result<Seq<char>, ErrorV> {
    if opts.string_encoding.spec_is_utf16_variant() {
        if b.len() % 2 != 0 {
            Err(ErrorV::CannotCodeString(StringCodeError::OddUtf16Length))
        } else if opts.string_with_bom {
            if b.len() < 2 {
                Err(ErrorV::CannotCodeString(StringCodeError::MissingBom))
            } else if b[0] == 0xFE && b[1] == 0xFF {
                spec_decode_utf16_body(opts, ByteOrder::BigEndian, b.skip(2))
            } else if b[0] == 0xFF && b[1] == 0xFE {
                spec_decode_utf16_body(opts, ByteOrder::LittleEndian, b.skip(2))
            } else {
                Err(ErrorV::CannotCodeString(StringCodeError::MissingBom))
            }
        } else {
            spec_decode_utf16_body(opts, spec_utf16_order(opts), b)
        }
    } else {
        let body = if opts.string_with_bom {
            b.skip(3)
        } else {
            b
        };
        if opts.string_with_bom && (b.len() < 3 || b.take(3) != spec_utf8_bom()) {
            Err(ErrorV::CannotCodeString(StringCodeError::MissingBom))
        } else if !vstd::utf8::valid_utf8(body) {
            Err(ErrorV::CannotCodeString(StringCodeError::InvalidUtf8))
        } else {
            let stripped = if opts.string_with_terminator {
                body.drop_last()
            } else {
                body
            };
            if opts.string_with_terminator && (body.len() == 0 || body.last() != 0) {
                Err(ErrorV::CannotCodeString(StringCodeError::MissingTerminator))
            } else if opts.string_encoding == StringEncoding::Ascii && !vstd::utf8::is_ascii_chars(
                vstd::utf8::decode_utf8(stripped),
            ) {
                Err(ErrorV::CannotCodeString(StringCodeError::NonAsciiContent))
            } else {
                Ok(vstd::utf8::decode_utf8(stripped))
            }
        }
    }
}

proof fn lemma_bytes_units_take_step(order: ByteOrder, b: Seq<u8>, k: int)
    requires
        k % 2 == 0,
        0 <= k,
        k + 2 <= b.len(),
    ensures
        spec_bytes_units(order, b.take(k + 2)) == spec_bytes_units(order, b.take(k)) + seq![
            spec_uint_val(order, b.subrange(k, k + 2)) as u16,
        ],
    decreases k,
{
    if k == 0 {
        assert(b.take(0) =~= Seq::<u8>::empty());
        let two = b.take(2);
        assert(two.take(2) =~= b.subrange(0, 2));
        assert(two.skip(2) =~= Seq::<u8>::empty());
        assert(spec_bytes_units(order, b.take(k + 2)) =~= spec_bytes_units(order, b.take(k))
            + seq![spec_uint_val(order, b.subrange(k, k + 2)) as u16]);
    } else {
        let rest = b.skip(2);
        lemma_bytes_units_take_step(order, rest, k - 2);
        assert(b.take(k + 2).take(2) =~= b.take(k).take(2));
        assert(b.take(k + 2).skip(2) =~= rest.take(k));
        assert(b.take(k).skip(2) =~= rest.take(k - 2));
        assert(rest.subrange(k - 2, k) =~= b.subrange(k, k + 2));
        assert(spec_bytes_units(order, b.take(k + 2)) =~= spec_bytes_units(order, b.take(k))
            + seq![spec_uint_val(order, b.subrange(k, k + 2)) as u16]);
    }
}

/// Reads the UTF-16 code units of `b` from `off` on, two bytes per unit in
/// the given byte order.
fn read_units(b: &Vec<u8>, off: usize, order: ByteOrder) -> (r: Vec<u16>)
    requires
        off <= b@.len(),
        (b@.len() - off) % 2 == 0,
    ensures
        r@ == spec_bytes_units(order, b@.skip(off as int)),
{
    let ghost body = b@.skip(off as int);
    let total = b.len();
    let count = (total - off) / 2;
    let mut units: Vec<u16> = Vec::new();
    let mut i: usize = 0;
    while i < count
        invariant
            i <= count,
            off + 2 * count == total == b@.len(),
            body == b@.skip(off as int),
            units@ == spec_bytes_units(order, body.take(2 * i as int)),
        decreases count - i,
    {
        let u = read_uint(b.as_slice(), off + 2 * i, 2, order) as u16;
        proof {
            lemma_bytes_units_take_step(order, body, 2 * i as int);
            assert(body.subrange(2 * i as int, 2 * i as int + 2) =~= b@.subrange(
                off + 2 * i as int,
                off + 2 * i as int + 2,
            ));
            crate::uint_bytes::lemma_uint_val_bound(
                order,
                b@.subrange(off + 2 * i as int, off + 2 * i as int + 2),
            );
            assert(crate::uint_bytes::pow256(2) == 0x10000) by {
                reveal_with_fuel(crate::uint_bytes::pow256, 3);
            }
            assert(units@.push(u) =~= spec_bytes_units(order, body.take(2 * (i + 1) as int)));
        }
        units.push(u);
        i = i + 1;
    }
    proof {
        assert(body.take(2 * count as int) =~= body);
    }
    units
}

/// Decodes the content bytes of a wire string under the given options; see
/// [`spec_decode_string`].
pub fn decode_string_bytes(opts: &SomeIpOptions, b: &Vec<u8>) -> (r: SomeIpResult<String>)
    ensures
        match r {
            Ok(s) => spec_decode_string(*opts, b@) == Ok::<Seq<char>, ErrorV>(s@),
            Err(e) => spec_decode_string(*opts, b@) == Err::<Seq<char>, ErrorV>(e@),
        },
{
    if opts.string_encoding.is_utf16_variant() {
        if b.len() % 2 != 0 {
            return Err(Error::CannotCodeString(StringCodeError::OddUtf16Length));
        }
        let order: ByteOrder;
        let off: usize;
        if opts.string_with_bom {
            if b.len() < 2 {
                return Err(Error::CannotCodeString(StringCodeError::MissingBom));
            }
            if b[0] == 0xFE && b[1] == 0xFF {
                order = ByteOrder::BigEndian;
            } else if b[0] == 0xFF && b[1] == 0xFE {
                order = ByteOrder::LittleEndian;
            } else {
                return Err(Error::CannotCodeString(StringCodeError::MissingBom));
            }
            off = 2;
        } else {
            order = utf16_order(opts);
            off = 0;
        }
        let mut units = read_units(b, off, order);
        let ghost all_units = units@;
        proof {
            if !opts.string_with_bom {
                assert(b@.skip(0) =~= b@);
            }
            assert(spec_decode_string(*opts, b@) == spec_decode_utf16_body(
                *opts,
                order,
                b@.skip(off as int),
            ));
            assert(all_units == spec_bytes_units(order, b@.skip(off as int)));
        }
        match string_from_utf16(&units) {
            None => Err(Error::CannotCodeString(StringCodeError::InvalidUtf16)),
            Some(s) => {
                if opts.string_with_terminator {
                    if units.len() == 0 {
                        return Err(Error::CannotCodeString(StringCodeError::MissingTerminator));
                    }
                    let last = units[units.len() - 1];
                    if last != 0 {
                        return Err(Error::CannotCodeString(StringCodeError::MissingTerminator));
                    }
                    proof {
                        lemma_utf16_strip_zero(all_units);
                    }
                    let _ = units.pop();
                    match string_from_utf16(&units) {
                        Some(stripped) => Ok(stripped),
                        None => {
                            proof {
                                assert(all_units.drop_last() =~= units@);
                            }
                            Err(Error::CannotCodeString(StringCodeError::InvalidUtf16))
                        },
                    }
                } else {
                    Ok(s)
                }
            },
        }
    } else {
        let n = b.len();
        let body: Vec<u8>;
        if opts.string_with_bom {
            if n < 3 || b[0] != 0xEF || b[1] != 0xBB || b[2] != 0xBF {
                proof {
                    if n >= 3 && b@.take(3) == spec_utf8_bom() {
                        assert(b@.take(3)[0] == 0xEF && b@.take(3)[1] == 0xBB && b@.take(3)[2]
                            == 0xBF);
                    }
                }
                return Err(Error::CannotCodeString(StringCodeError::MissingBom));
            }
            proof {
                assert(b@.take(3) =~= spec_utf8_bom());
            }
            body = vstd::slice::slice_to_vec(vstd::slice::slice_subrange(b.as_slice(), 3, n));
            proof {
                assert(body@ =~= b@.skip(3));
            }
        } else {
            body = b.clone();
        }
        match string_from_utf8(&body) {
            None => Err(Error::CannotCodeString(StringCodeError::InvalidUtf8)),
            Some(s) => {
                let m = body.len();
                if opts.string_with_terminator {
                    if m == 0 || body[m - 1] != 0 {
                        return Err(Error::CannotCodeString(StringCodeError::MissingTerminator));
                    }
                    proof {
                        broadcast use
                            vstd::utf8::is_char_boundary_iff_not_is_continuation_byte,
                            vstd::utf8::valid_utf8_split,
                            vstd::utf8::decode_utf8_split,
                        ;

                        assert(!vstd::utf8::is_continuation_byte(body@[m - 1]));
                        assert(vstd::utf8::is_char_boundary(body@, m - 1));
                        assert(vstd::utf8::valid_utf8(body@.subrange(0, m - 1)));
                        assert(body@.subrange(0, m - 1) =~= body@.drop_last());
                    }
                    let stripped = vstd::slice::slice_to_vec(
                        vstd::slice::slice_subrange(body.as_slice(), 0, m - 1),
                    );
                    proof {
                        assert(stripped@ =~= body@.drop_last());
                    }
                    match string_from_utf8(&stripped) {
                        Some(value) => {
                            if matches!(opts.string_encoding, StringEncoding::Ascii)
                                && !value.is_ascii() {
                                Err(Error::CannotCodeString(StringCodeError::NonAsciiContent))
                            } else {
                                Ok(value)
                            }
                        },
                        None => Err(Error::CannotCodeString(StringCodeError::InvalidUtf8)),
                    }
                } else {
                    if matches!(opts.string_encoding, StringEncoding::Ascii) && !s.is_ascii() {
                        Err(Error::CannotCodeString(StringCodeError::NonAsciiContent))
                    } else {
                        Ok(s)
                    }
                }
            },
        }
    }
}

} // verus!
