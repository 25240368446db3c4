//! Decimal rendering of integers, used when reporting unknown enum values.

use vstd::prelude::*;
use vstd::string::StringExecFns;

verus! {

/// The digit character for `d`, which must be below ten.
pub open spec fn spec_digit_char(d: nat) -> char {
    (0x30 + d) as char
}

/// The decimal digits of `n`, most significant first, without sign.
pub open spec fn spec_u64_decimal(n: nat) -> Seq<char>
    decreases n,
{
    if n < 10 {
        seq![spec_digit_char(n)]
    } else {
        spec_u64_decimal(n / 10) + seq![spec_digit_char(n % 10)]
    }
}

/// The decimal rendering of a signed value: a minus sign and the digits of
/// the magnitude, or just the digits.
pub open spec fn spec_i64_decimal(n: int) -> Seq<char> {
    if n < 0 {
        seq!['-'] + spec_u64_decimal((-n) as nat)
    } else {
        spec_u64_decimal(n as nat)
    }
}

proof fn lemma_decimal_len(n: nat)
    ensures
        spec_u64_decimal(n).len() >= 1,
    decreases n,
{
    if n >= 10 {
        lemma_decimal_len(n / 10);
    }
}

proof fn lemma_digit_seq_is_ascii(target: Seq<char>)
    requires
        forall|j: int| 0 <= j < target.len() ==> 0x30 <= #[trigger] (target[j] as int) < 0x3A,
    ensures
        forall|k: int| 0 <= k <= target.len() ==> vstd::utf8::is_ascii_chars(#[trigger] target.take(k)),
{
    assert forall|k: int| 0 <= k <= target.len() implies vstd::utf8::is_ascii_chars(
        #[trigger] target.take(k),
    ) by {
        assert forall|j: int| 0 <= j < target.take(k).len() implies '\0' <= #[trigger] target.take(
            k,
        )[j] && target.take(k)[j] <= '\u{7f}' by {
            assert(target.take(k)[j] == target[j]);
            assert(0x30 <= (target[j] as int) < 0x3A);
            assert('\0' as int == 0 && '\u{7f}' as int == 0x7f);
            assert('\0' <= target[j]);
            assert(target[j] <= '\u{7f}');
        }
    }
}

proof fn lemma_decimal_digits_ascii(n: nat)
    ensures
        forall|i: int|
            0 <= i < spec_u64_decimal(n).len() ==> 0x30 <= #[trigger] (spec_u64_decimal(n)[i]
                as int) < 0x3A,
    decreases n,
{
    if n < 10 {
    } else {
        lemma_decimal_digits_ascii(n / 10);
        assert(forall|i: int|
            0 <= i < spec_u64_decimal(n / 10).len() ==> spec_u64_decimal(n)[i] == spec_u64_decimal(
                n / 10,
            )[i]);
    }
}

/// The digit bytes of `n`, least significant first.
fn digits_reversed(n: u64) -> (r: Vec<u8>)
    ensures
        r@.len() == spec_u64_decimal(n as nat).len(),
        forall|i: int|
            0 <= i < r@.len() ==> r@[i] == (spec_u64_decimal(n as nat)[r@.len() - 1 - i] as u8),
{
    let ghost target = spec_u64_decimal(n as nat);
    let mut bytes: Vec<u8> = Vec::new();
    let mut cur: u64 = n;
    proof {
        lemma_decimal_len(n as nat);
    }
    while cur >= 10
        invariant
            spec_u64_decimal(cur as nat).len() + bytes@.len() == target.len(),
            spec_u64_decimal(cur as nat) == target.take(target.len() - bytes@.len()),
            forall|i: int|
                0 <= i < bytes@.len() ==> bytes@[i] == (target[target.len() - 1 - i] as u8),
        decreases cur,
    {
        let ghost m = target.len() - bytes@.len();
        let d = (cur % 10) as u8;
        proof {
            lemma_decimal_digits_ascii(cur as nat);
            let c = cur as nat;
            assert(spec_u64_decimal(c) == spec_u64_decimal(c / 10) + seq![spec_digit_char(c % 10)]);
            lemma_decimal_len(c / 10);
            assert(target.take(m).len() == m);
            assert(target.take(m)[m - 1] == spec_digit_char(c % 10));
            assert(target[m - 1] == spec_digit_char(c % 10));
            assert(spec_u64_decimal(c / 10) =~= target.take(m - 1)) by {
                assert(forall|i: int|
                    0 <= i < m - 1 ==> spec_u64_decimal(c / 10)[i] == target.take(m)[i]);
            }
            assert((0x30 + c % 10) < 0x110000);
            assert(spec_digit_char(c % 10) as u8 == 0x30 + (c % 10));
        }
        bytes.push(0x30 + d);
        cur = cur / 10;
    }
    let ghost m = target.len() - bytes@.len();
    proof {
        lemma_decimal_digits_ascii(cur as nat);
        assert(spec_u64_decimal(cur as nat) =~= seq![spec_digit_char(cur as nat)]);
        assert(m == 1);
        assert(target.take(1)[0] == spec_digit_char(cur as nat));
        assert(target[0] == spec_digit_char(cur as nat));
        assert((0x30 + cur as nat) < 0x110000);
        assert(spec_digit_char(cur as nat) as u8 == 0x30 + cur);
    }
    bytes.push(0x30 + (cur as u8));
    bytes
}

/// Renders `n` in decimal.
pub fn u64_to_decimal(n: u64) -> (r: String)
    ensures
        r@ == spec_u64_decimal(n as nat),
{
    let ghost target = spec_u64_decimal(n as nat);
    let rev = digits_reversed(n);
    let count = rev.len();
    let mut bytes: Vec<u8> = Vec::new();
    let mut i: usize = 0;
    proof {
        lemma_decimal_digits_ascii(n as nat);
    }
    while i < count
        invariant
            i <= count == rev@.len() == target.len(),
            forall|j: int| 0 <= j < rev@.len() ==> rev@[j] == (target[rev@.len() - 1 - j] as u8),
            bytes@ =~= vstd::utf8::encode_utf8(target.take(i as int)),
            forall|j: int|
                0 <= j < target.len() ==> 0x30 <= #[trigger] (target[j] as int) < 0x3A,
        decreases count - i,
    {
        let b = rev[count - 1 - i];
        proof {
            assert(b == target[i as int] as u8);
            lemma_digit_seq_is_ascii(target);
            assert(vstd::utf8::is_ascii_chars(target.take(i as int + 1)));
            vstd::utf8::is_ascii_chars_encode_utf8(target.take(i as int));
            vstd::utf8::is_ascii_chars_encode_utf8(target.take(i as int + 1));
            assert(vstd::utf8::encode_utf8(target.take(i as int + 1)) =~= vstd::utf8::encode_utf8(
                target.take(i as int),
            ).push(target[i as int] as u8));
        }
        bytes.push(b);
        i = i + 1;
    }
    proof {
        assert(target.take(count as int) =~= target);
        vstd::utf8::encode_utf8_valid_utf8(target);
        vstd::utf8::encode_utf8_decode_utf8(target);
    }
    match crate::text::string_from_utf8(&bytes) {
        Some(s) => s,
        None => vstd::pervasive::unreached(),
    }
}

/// Renders `n` in decimal, with a leading minus sign when negative.
pub fn i64_to_decimal(n: i64) -> (r: String)
    ensures
        r@ == spec_i64_decimal(n as int),
{
    if n >= 0 {
        u64_to_decimal(n as u64)
    } else {
        let mag: u64 = ((-(n + 1)) as u64) + 1;
        proof {
            assert(mag == -(n as int));
        }
        let digits = u64_to_decimal(mag);
        let mut s = String::new();
        s.append("-");
        proof {
            reveal_strlit("-");
            assert(s@ =~= seq!['-']);
        }
        s.append(digits.as_str());
        proof {
            assert(s@ =~= spec_i64_decimal(n as int));
        }
        s
    }
}

} // verus!
