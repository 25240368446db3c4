//! Byte-level encoding of unsigned integers in both byte orders.
//!
//! Every multi-byte quantity on the wire — primitive values, length fields
//! and TLV tags — is written through these functions.

use vstd::prelude::*;

use crate::options::ByteOrder;

verus! {

/// 256 to the power `w`: the number of values a `w` byte field can hold.
pub open spec fn pow256(w: nat) -> nat
    decreases w,
{
    if w == 0 {
        1
    } else {
        256 * pow256((w - 1) as nat)
    }
}

/// The `w` byte big-endian encoding of `v`, most significant byte first.
pub open spec fn spec_be_bytes(v: nat, w: nat) -> Seq<u8> {
    Seq::new(w, |i: int| ((v / pow256((w - 1 - i) as nat)) % 256) as u8)
}

/// The `w` byte little-endian encoding of `v`, least significant byte first.
pub open spec fn spec_le_bytes(v: nat, w: nat) -> Seq<u8> {
    Seq::new(w, |i: int| ((v / pow256(i as nat)) % 256) as u8)
}

/// The `w` byte encoding of `v` in byte order `order`.
pub open spec fn spec_uint_bytes(order: ByteOrder, v: nat, w: nat) -> Seq<u8> {
    match order {
        ByteOrder::BigEndian => spec_be_bytes(v, w),
        ByteOrder::LittleEndian => spec_le_bytes(v, w),
    }
}

/// The value of a big-endian byte sequence.
pub open spec fn spec_be_val(b: Seq<u8>) -> nat
    decreases b.len(),
{
    if b.len() == 0 {
        0
    } else {
        (spec_be_val(b.drop_last()) * 256 + b.last()) as nat
    }
}

/// The value of a little-endian byte sequence.
pub open spec fn spec_le_val(b: Seq<u8>) -> nat
    decreases b.len(),
{
    if b.len() == 0 {
        0
    } else {
        (b.first() + 256 * spec_le_val(b.drop_first())) as nat
    }
}

/// The value of a byte sequence read in byte order `order`.
pub open spec fn spec_uint_val(order: ByteOrder, b: Seq<u8>) -> nat {
    match order {
        ByteOrder::BigEndian => spec_be_val(b),
        ByteOrder::LittleEndian => spec_le_val(b),
    }
}

/// The two byte orders are mirror images: the little-endian encoding is the
/// reversed big-endian encoding of the same value at the same width.
pub proof fn lemma_byte_order_symmetry(v: nat, w: nat)
    ensures
        spec_le_bytes(v, w) == spec_be_bytes(v, w).reverse(),
{
    assert(spec_le_bytes(v, w) =~= spec_be_bytes(v, w).reverse());
}

proof fn lemma_pow256_pos(w: nat)
    ensures
        pow256(w) >= 1,
    decreases w,
{
    if w > 0 {
        lemma_pow256_pos((w - 1) as nat);
    }
}

proof fn lemma_div_div(v: nat, k: nat)
    ensures
        (v / 256) / pow256(k) == v / pow256(k + 1),
{
    lemma_pow256_pos(k);
    vstd::arithmetic::div_mod::lemma_div_denominator(v as int, 256, pow256(k) as int);
    assert(256 * pow256(k) == pow256(k + 1));
}

proof fn lemma_be_bytes_peel(v: nat, w: nat)
    requires
        w >= 1,
    ensures
        spec_be_bytes(v, w).drop_last() == spec_be_bytes(v / 256, (w - 1) as nat),
        spec_be_bytes(v, w).last() == (v % 256) as u8,
{
    let b = spec_be_bytes(v, w);
    assert forall|i: int| 0 <= i < w - 1 implies b.drop_last()[i] == spec_be_bytes(
        v / 256,
        (w - 1) as nat,
    )[i] by {
        lemma_div_div(v, (w - 2 - i) as nat);
    }
    assert(b.drop_last() =~= spec_be_bytes(v / 256, (w - 1) as nat));
    assert(pow256(0) == 1);
    vstd::arithmetic::div_mod::lemma_div_basics(v as int);
    assert(b.last() == ((v / pow256(0)) % 256) as u8);
}

/// Reading back a big-endian encoding yields the encoded value, when the
/// value fits the width.
pub proof fn lemma_be_val_of_bytes(v: nat, w: nat)
    requires
        v < pow256(w),
    ensures
        spec_be_val(spec_be_bytes(v, w)) == v,
    decreases w,
{
    if w == 0 {
        assert(spec_be_bytes(v, w) =~= Seq::<u8>::empty());
    } else {
        lemma_be_bytes_peel(v, w);
        vstd::arithmetic::div_mod::lemma_fundamental_div_mod(v as int, 256);
        assert(v / 256 < pow256((w - 1) as nat)) by {
            lemma_pow256_pos((w - 1) as nat);
            assert(pow256(w) == 256 * pow256((w - 1) as nat));
        }
        lemma_be_val_of_bytes(v / 256, (w - 1) as nat);
    }
}

proof fn lemma_le_bytes_peel(v: nat, w: nat)
    requires
        w >= 1,
    ensures
        spec_le_bytes(v, w).drop_first() == spec_le_bytes(v / 256, (w - 1) as nat),
        spec_le_bytes(v, w).first() == (v % 256) as u8,
{
    let b = spec_le_bytes(v, w);
    assert forall|i: int| 0 <= i < w - 1 implies b.drop_first()[i] == spec_le_bytes(
        v / 256,
        (w - 1) as nat,
    )[i] by {
        lemma_div_div(v, i as nat);
    }
    assert(b.drop_first() =~= spec_le_bytes(v / 256, (w - 1) as nat));
    assert(pow256(0) == 1);
    vstd::arithmetic::div_mod::lemma_div_basics(v as int);
    assert(b.first() == ((v / pow256(0)) % 256) as u8);
}

/// Reading back a little-endian encoding yields the encoded value, when the
/// value fits the width.
pub proof fn lemma_le_val_of_bytes(v: nat, w: nat)
    requires
        v < pow256(w),
    ensures
        spec_le_val(spec_le_bytes(v, w)) == v,
    decreases w,
{
    if w == 0 {
        assert(spec_le_bytes(v, w) =~= Seq::<u8>::empty());
    } else {
        lemma_le_bytes_peel(v, w);
        vstd::arithmetic::div_mod::lemma_fundamental_div_mod(v as int, 256);
        assert(v / 256 < pow256((w - 1) as nat)) by {
            lemma_pow256_pos((w - 1) as nat);
            assert(pow256(w) == 256 * pow256((w - 1) as nat));
        }
        lemma_le_val_of_bytes(v / 256, (w - 1) as nat);
    }
}

/// Reading back an encoding in either byte order yields the encoded value.
pub proof fn lemma_uint_val_of_bytes(order: ByteOrder, v: nat, w: nat)
    requires
        v < pow256(w),
    ensures
        spec_uint_val(order, spec_uint_bytes(order, v, w)) == v,
{
    match order {
        ByteOrder::BigEndian => lemma_be_val_of_bytes(v, w),
        ByteOrder::LittleEndian => lemma_le_val_of_bytes(v, w),
    }
}

/// The length of an encoding is its width.
pub proof fn lemma_uint_bytes_len(order: ByteOrder, v: nat, w: nat)
    ensures
        spec_uint_bytes(order, v, w).len() == w,
{
}

/// 256 to the power `w`, executable for widths below eight.
fn pow256_exec(w: usize) -> (r: u64)
    requires
        w < 8,
    ensures
        r == pow256(w as nat),
        r >= 1,
{
    let r: u64 = match w {
        0 => 1,
        1 => 0x100,
        2 => 0x1_0000,
        3 => 0x100_0000,
        4 => 0x1_0000_0000,
        5 => 0x100_0000_0000,
        6 => 0x1_0000_0000_0000,
        _ => 0x100_0000_0000_0000,
    };
    proof {
        reveal_with_fuel(pow256, 9);
    }
    r
}

/// Appends the `width` byte encoding of `v` in byte order `order`.
pub fn push_uint(buf: &mut Vec<u8>, order: ByteOrder, v: u64, width: usize)
    requires
        width <= 8,
        width == 8 || (v as nat) < pow256(width as nat),
    ensures
        final(buf)@ == old(buf)@ + spec_uint_bytes(order, v as nat, width as nat),
{
    let ghost complete = spec_uint_bytes(order, v as nat, width as nat);
    proof {
        lemma_uint_bytes_len(order, v as nat, width as nat);
    }
    let mut i: usize = 0;
    while i < width
        invariant
            i <= width <= 8,
            complete == spec_uint_bytes(order, v as nat, width as nat),
            complete.len() == width,
            buf@ == old(buf)@ + complete.take(i as int),
        decreases width - i,
    {
        let shift: usize = match order {
            ByteOrder::BigEndian => width - 1 - i,
            ByteOrder::LittleEndian => i,
        };
        let byte: u8 = ((v / pow256_exec(shift)) % 256) as u8;
        assert(byte == complete[i as int]);
        buf.push(byte);
        proof {
            assert(buf@ =~= old(buf)@ + complete.take(i as int + 1));
        }
        i = i + 1;
    }
    proof {
        assert(complete.take(width as int) =~= complete);
    }
}

/// Reads the `width` byte value starting at `start` in byte order `order`.
pub fn read_uint(data: &[u8], start: usize, width: usize, order: ByteOrder) -> (r: u64)
    requires
        width <= 8,
        start + width <= data@.len(),
    ensures
        r == spec_uint_val(order, data@.subrange(start as int, start as int + width as int)),
{
    let ghost section = data@.subrange(start as int, start as int + width as int);
    let n: usize = data.len();
    match order {
        ByteOrder::BigEndian => {
            let mut acc: u64 = 0;
            let mut i: usize = 0;
            proof {
                lemma_pow256_pos(width as nat);
            }
            while i < width
                invariant
                    i <= width <= 8,
                    start + width <= n == data@.len(),
                    section == data@.subrange(start as int, start as int + width as int),
                    acc == spec_be_val(section.take(i as int)),
                    acc < pow256(i as nat),
                decreases width - i,
            {
                let b = data[start + i];
                proof {
                    assert(section.take(i as int + 1).drop_last() =~= section.take(i as int));
                    assert(section.take(i as int + 1).last() == b);
                    assert(pow256(i as nat + 1) == 256 * pow256(i as nat));
                    lemma_pow256_le_pub(i as nat + 1, 8);
                    assert(pow256(8) == 0x1_0000_0000_0000_0000) by {
                        reveal_with_fuel(pow256, 9);
                    }
                }
                acc = acc * 256 + (b as u64);
                i = i + 1;
            }
            proof {
                assert(section.take(width as int) =~= section);
            }
            acc
        },
        ByteOrder::LittleEndian => {
            let mut acc: u64 = 0;
            let mut i: usize = width;
            while i > 0
                invariant
                    i <= width <= 8,
                    start + width <= n == data@.len(),
                    section == data@.subrange(start as int, start as int + width as int),
                    acc == spec_le_val(section.skip(i as int)),
                    acc < pow256((width - i) as nat),
                decreases i,
            {
                let b = data[start + i - 1];
                proof {
                    assert(section.skip(i as int - 1).drop_first() =~= section.skip(i as int));
                    assert(section.skip(i as int - 1).first() == b);
                    assert(pow256((width - i + 1) as nat) == 256 * pow256((width - i) as nat));
                    lemma_pow256_le_pub((width - i + 1) as nat, 8);
                    assert(pow256(8) == 0x1_0000_0000_0000_0000) by {
                        reveal_with_fuel(pow256, 9);
                    }
                }
                acc = (b as u64) + 256 * acc;
                i = i - 1;
            }
            proof {
                assert(section.skip(0) =~= section);
            }
            acc
        },
    }
}

/// Powers of 256 are monotone.
pub proof fn lemma_pow256_le_pub(a: nat, b: nat)
    requires
        a <= b,
    ensures
        pow256(a) <= pow256(b),
    decreases b,
{
    if a < b {
        lemma_pow256_pos((b - 1) as nat);
        lemma_pow256_le_pub(a, (b - 1) as nat);
    }
}

/// A value read at width `w` always fits the width.
pub proof fn lemma_uint_val_bound(order: ByteOrder, b: Seq<u8>)
    ensures
        spec_uint_val(order, b) < pow256(b.len()),
    decreases b.len(),
{
    match order {
        ByteOrder::BigEndian => {
            if b.len() == 0 {
            } else {
                lemma_uint_val_bound(order, b.drop_last());
                assert(pow256(b.len()) == 256 * pow256((b.len() - 1) as nat));
            }
        },
        ByteOrder::LittleEndian => {
            if b.len() == 0 {
            } else {
                lemma_uint_val_bound(order, b.drop_first());
                assert(pow256(b.len()) == 256 * pow256((b.len() - 1) as nat));
            }
        },
    }
}

} // verus!
