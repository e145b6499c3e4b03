//! Fixed-width octal numerals, the textual form of every numeric header field.

use vstd::prelude::*;
use vstd::arithmetic::div_mod::lemma_div_denominator;
use vstd::arithmetic::div_mod::lemma_fundamental_div_mod;

verus! {

/// Eight to the power `n`.
pub open spec fn pow8(n: nat) -> nat
    decreases n,
{
    if n == 0 {
        1
    } else {
        8 * pow8((n - 1) as nat)
    }
}

/// The ASCII digit at position `i` (most significant first) of `v` written
/// with `digits` octal digits.
pub open spec fn octal_digit(v: nat, digits: nat, i: int) -> u8 {
    (48 + (v / pow8((digits - 1 - i) as nat)) % 8) as u8
}

/// `v` as a zero-padded octal numeral of exactly `digits` ASCII digits.
pub open spec fn octal_numeral(v: nat, digits: nat) -> Seq<u8> {
    Seq::new(digits, |i: int| octal_digit(v, digits, i))
}

/// Whether `v` can be written with `digits` octal digits.
pub open spec fn fits_octal(v: nat, digits: nat) -> bool {
    v < pow8(digits)
}

/// Whether every byte of `s` is one of the ASCII digits `'0'` to `'7'`.
pub open spec fn is_octal(s: Seq<u8>) -> bool {
    forall|i: int| 0 <= i < s.len() ==> 48 <= #[trigger] s[i] <= 55
}

/// The number that a string of octal digits denotes, most significant digit
/// first. Each byte counts by its low three bits, which for an ASCII octal
/// digit are the digit's value; the result means something only where
/// `is_octal` holds.
pub open spec fn octal_value(s: Seq<u8>) -> nat
    decreases s.len(),
{
    if s.len() == 0 {
        0
    } else {
        8 * octal_value(s.drop_last()) + (s.last() as nat) % 8
    }
}

/// The powers of eight that bound the header's numeric fields.
pub proof fn lemma_pow8_values()
    ensures
        pow8(0) == 1,
        pow8(1) == 8,
        pow8(6) == 0o1000000,
        pow8(7) == 0o10000000,
        pow8(11) == 0o100000000000,
        pow8(21) == 0o1000000000000000000000,
{
    reveal_with_fuel(pow8, 22);
}

/// Powers of eight are positive and grow with the exponent.
pub proof fn lemma_pow8_monotonic(a: nat, b: nat)
    requires
        a <= b,
    ensures
        0 < pow8(a) <= pow8(b),
    decreases b,
{
    if b == 0 {
    } else if a == b {
        lemma_pow8_monotonic((a - 1) as nat, (b - 1) as nat);
    } else {
        lemma_pow8_monotonic(a, (b - 1) as nat);
    }
}

/// Every byte of a numeral is an ASCII octal digit.
pub proof fn lemma_numeral_is_octal(v: nat, digits: nat)
    ensures
        octal_numeral(v, digits).len() == digits,
        is_octal(octal_numeral(v, digits)),
{
    assert forall|i: int| 0 <= i < digits implies 48 <= #[trigger] octal_numeral(v, digits)[i]
        <= 55 by {
        lemma_pow8_monotonic(0, (digits - 1 - i) as nat);
    }
}

/// Dropping the last digit of a numeral divides the number by eight.
proof fn lemma_numeral_drop_last(v: nat, digits: nat)
    requires
        digits > 0,
    ensures
        octal_numeral(v, digits).drop_last() =~= octal_numeral(v / 8, (digits - 1) as nat),
        octal_numeral(v, digits).last() == 48 + v % 8,
{
    let rest = (digits - 1) as nat;
    assert forall|i: int| 0 <= i < rest implies octal_digit(v, digits, i) == octal_digit(
        v / 8,
        rest,
        i,
    ) by {
        let k = (rest - 1 - i) as nat;
        lemma_pow8_monotonic(0, k);
        assert(pow8((digits - 1 - i) as nat) == 8 * pow8(k));
        lemma_div_denominator(v as int, 8, pow8(k) as int);
    }
    assert(pow8(0) == 1);
    assert(octal_numeral(v, digits).last() == octal_digit(v, digits, digits - 1));
    assert((digits - 1 - (digits - 1)) as nat == 0);
    assert(v / 1 == v);
}

/// Reading a numeral back gives the number that was written, whenever the
/// number fits in the digits.
pub proof fn lemma_octal_round_trip(v: nat, digits: nat)
    requires
        fits_octal(v, digits),
    ensures
        is_octal(octal_numeral(v, digits)),
        octal_value(octal_numeral(v, digits)) == v,
    decreases digits,
{
    lemma_numeral_is_octal(v, digits);
    if digits > 0 {
        lemma_numeral_drop_last(v, digits);
        lemma_octal_round_trip(v / 8, (digits - 1) as nat);
        lemma_fundamental_div_mod(v as int, 8);
        assert((48 + v % 8) % 8 == v % 8);
    }
}

/// A string of octal digits denotes a number that fits in as many digits.
pub proof fn lemma_octal_value_bound(s: Seq<u8>)
    ensures
        fits_octal(octal_value(s), s.len()),
    decreases s.len(),
{
    if s.len() > 0 {
        lemma_octal_value_bound(s.drop_last());
    }
}

/// Writes `v` into `block` as `digits` octal digits that start at `offset`,
/// and leaves every other byte as it was.
pub fn write_octal(block: &mut [u8; 512], offset: usize, digits: usize, v: u64)
    requires
        offset + digits <= 512,
        fits_octal(v as nat, digits as nat),
    ensures
        forall|j: int|
            offset <= j < offset + digits ==> #[trigger] final(block)@[j] == octal_digit(
                v as nat,
                digits as nat,
                j - offset,
            ),
        forall|j: int|
            0 <= j < 512 && !(offset <= j < offset + digits) ==> #[trigger] final(block)@[j]
                == old(block)@[j],
{
    let mut i: usize = digits;
    let mut rest: u64 = v;
    proof {
        assert(pow8(0) == 1);
        assert((digits - i) as nat == 0);
        assert((v as nat) / 1 == v);
    }
    while i > 0
        invariant
            i <= digits,
            offset + digits <= 512,
            rest == (v as nat) / pow8((digits - i) as nat),
            forall|j: int|
                offset + i <= j < offset + digits ==> #[trigger] block@[j] == octal_digit(
                    v as nat,
                    digits as nat,
                    j - offset,
                ),
            forall|j: int|
                0 <= j < 512 && !(offset <= j < offset + digits) ==> #[trigger] block@[j] == old(
                    block,
                )@[j],
        decreases i,
    {
        i = i - 1;
        let digit: u8 = (rest % 8) as u8;
        block[offset + i] = 48 + digit;
        proof {
            let k = (digits - 1 - i) as nat;
            lemma_pow8_monotonic(0, k);
            assert(pow8((digits - i) as nat) == 8 * pow8(k));
            lemma_div_denominator(v as int, pow8(k) as int, 8);
            assert(pow8(k) * 8 == 8 * pow8(k));
        }
        rest = rest / 8;
    }
}

/// Reads the `digits` bytes of `block` that start at `offset` as an octal
/// numeral. `None` if one of them is no octal digit.
pub fn read_octal(block: &[u8; 512], offset: usize, digits: usize) -> (res: Option<u64>)
    requires
        offset + digits <= 512,
        digits <= 21,
    ensures
        res is Some <==> is_octal(block@.subrange(offset as int, offset + digits)),
        res is Some ==> res->0 == octal_value(block@.subrange(offset as int, offset + digits)),
{
    let ghost field = block@.subrange(offset as int, offset + digits);
    let mut value: u64 = 0;
    let mut i: usize = 0;
    while i < digits
        invariant
            i <= digits <= 21,
            offset + digits <= 512,
            field == block@.subrange(offset as int, offset + digits),
            is_octal(field.subrange(0, i as int)),
            value == octal_value(field.subrange(0, i as int)),
        decreases digits - i,
    {
        let b: u8 = block[offset + i];
        if b < 48 || b > 55 {
            proof {
                assert(field[i as int] == b);
            }
            return None;
        }
        proof {
            let head = field.subrange(0, i as int);
            let next = field.subrange(0, i + 1);
            assert(next.drop_last() =~= head);
            assert(next.last() == b);
            lemma_octal_value_bound(head);
            lemma_pow8_monotonic(i as nat, 20);
            lemma_pow8_values();
            reveal_with_fuel(pow8, 21);
        }
        value = value * 8 + (b % 8) as u64;
        i = i + 1;
    }
    proof {
        assert(field.subrange(0, digits as int) =~= field);
    }
    Some(value)
}

} // verus!
