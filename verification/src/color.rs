//! Colors, held as the bit patterns of their channels, and their packing into
//! bytes.
//!
//! A channel is a single-precision number of IEEE 754, kept as its 32 bits.
//! Packing scales it by 255, as single-precision multiplication does, then
//! rounds to the nearest whole number, halves away from zero, and keeps the
//! result within 0 and 255. All of it is worked out on the bits, in whole
//! numbers.

use vstd::arithmetic::div_mod::{
    lemma_basic_div, lemma_div_denominator, lemma_div_is_ordered, lemma_div_multiples_vanish,
    lemma_multiply_divide_lt,
};
use vstd::arithmetic::mul::lemma_mul_inequality;
use vstd::arithmetic::power2::{
    lemma2_to64, lemma_pow2_pos, lemma_pow2_strictly_increases, lemma_pow2_unfold, pow2,
};
use vstd::bits::{lemma_u64_shl_is_mul, lemma_u64_shr_is_div};
use vstd::prelude::*;

verus! {

/// A color of three channels: red, green and blue.
///
/// Each field holds the bit pattern of an IEEE 754 single-precision number,
/// meant to lie in the unit interval. Nothing clamps or normalises it: a channel
/// is kept and handed on bit for bit, whatever it holds. Two colors are equal
/// when their bit patterns are.
#[derive(Debug, Clone, Copy, PartialEq, Eq, Hash, Structural)]
pub struct Color {
    pub red: u32,
    pub green: u32,
    pub blue: u32,
}

/// Whether the sign bit is set: the number is below zero, or is a negative
/// zero, infinity or not-a-number.
pub open spec fn is_negative(bits: u32) -> bool {
    bits >= 0x8000_0000
}

/// The eight bits of the exponent field.
pub open spec fn biased_exponent(bits: u32) -> nat {
    ((bits / 0x80_0000) % 0x100) as nat
}

/// The 23 bits of the fraction field.
pub open spec fn fraction(bits: u32) -> nat {
    (bits % 0x80_0000) as nat
}

/// Whether the bits hold no number.
pub open spec fn is_nan(bits: u32) -> bool {
    biased_exponent(bits) == 255 && fraction(bits) != 0
}

/// Whether the bits hold an infinity.
pub open spec fn is_infinite(bits: u32) -> bool {
    biased_exponent(bits) == 255 && fraction(bits) == 0
}

/// The significand of a finite number: its magnitude is
/// `significand * 2^exponent`.
pub open spec fn significand(bits: u32) -> nat {
    if biased_exponent(bits) == 0 {
        fraction(bits)
    } else {
        0x80_0000 + fraction(bits)
    }
}

/// The exponent of a finite number: its magnitude is
/// `significand * 2^exponent`.
pub open spec fn exponent(bits: u32) -> int {
    if biased_exponent(bits) == 0 {
        -149
    } else {
        biased_exponent(bits) - 150
    }
}

/// By how many bits `n` is longer than the 24 bits that a significand has.
pub open spec fn excess(n: nat) -> nat
    decreases n,
{
    if n < 0x100_0000 {
        0
    } else {
        1 + excess(n / 2)
    }
}

/// `n / 2^s`, rounded to the nearest whole number, a half to the even one.
pub open spec fn round_half_even(n: nat, s: nat) -> nat {
    let quotient = n / pow2(s);
    let rest = n % pow2(s);
    if 2 * rest > pow2(s) || (2 * rest == pow2(s) && quotient % 2 == 1) {
        quotient + 1
    } else {
        quotient
    }
}

/// `q * 2^y`, rounded to the nearest whole number, a half upward.
pub open spec fn round_half_up(q: nat, y: int) -> nat {
    if y >= 0 {
        q * pow2(y as nat)
    } else {
        (2 * q + pow2((-y) as nat)) / (2 * pow2((-y) as nat))
    }
}

/// The byte that a channel packs into.
///
/// A number below zero and what is no number give 0, positive infinity gives
/// 255. For any other number, 255 times its significand is rounded to 24 bits,
/// a half to even: that is the product in single precision. The product is
/// then rounded to a whole number, a half upward, and a result above 255 gives
/// 255.
pub open spec fn unit_to_u8(bits: u32) -> u8 {
    if is_negative(bits) || is_nan(bits) {
        0
    } else if is_infinite(bits) {
        255
    } else {
        let n = 255 * significand(bits);
        let s = excess(n);
        let whole = round_half_up(round_half_even(n, s), exponent(bits) + s);
        if whole >= 255 {
            255
        } else {
            whole as u8
        }
    }
}

/// Powers of two grow with their exponents.
pub proof fn lemma_pow2_grows(a: nat, b: nat)
    requires
        a <= b,
    ensures
        pow2(a) <= pow2(b),
{
    if a < b {
        lemma_pow2_strictly_increases(a, b);
    }
}

/// A number of more than 24 bits lies between the powers of two that its
/// excess names.
pub proof fn lemma_excess(n: nat)
    ensures
        n < 0x100_0000 * pow2(excess(n)),
        excess(n) > 0 ==> 0x80_0000 * pow2(excess(n)) <= n,
    decreases n,
{
    lemma2_to64();
    if n >= 0x100_0000 {
        lemma_excess(n / 2);
        lemma_pow2_unfold(excess(n));
        if excess(n / 2) == 0 {
            assert(pow2(1) == 2);
        }
    }
}

/// The excess of a product of 255 and a significand is at most 8, and what is
/// left after rounding has at most 24 bits, or is `2^24`.
pub proof fn lemma_rounded_fits(n: nat)
    requires
        n < 0x1_0000_0000,
    ensures
        excess(n) <= 8,
        round_half_even(n, excess(n)) <= 0x100_0000,
{
    let s = excess(n);
    lemma_excess(n);
    lemma2_to64();
    if s > 8 {
        lemma_pow2_grows(9, s);
    }
    lemma_pow2_pos(s);
    assert(n < pow2(s) * 0x100_0000);
    lemma_multiply_divide_lt(n as int, pow2(s) as int, 0x100_0000);
    assert(n / pow2(s) < 0x100_0000);
}

/// A number below `2^-10` packs into 0.
pub proof fn lemma_small_is_zero(bits: u32)
    requires
        !is_negative(bits),
        biased_exponent(bits) < 117,
    ensures
        unit_to_u8(bits) == 0,
{
    let n = 255 * significand(bits);
    let s = excess(n);
    let q = round_half_even(n, s);
    lemma_rounded_fits(n);
    let t = (-(exponent(bits) + s)) as nat;
    assert(t >= 26);
    lemma2_to64();
    if t > 26 {
        lemma_pow2_strictly_increases(26, t);
    }
    lemma_basic_div((2 * q + pow2(t)) as int, (2 * pow2(t)) as int);
}

/// A finite number of at least one packs into 255.
pub proof fn lemma_large_is_full(bits: u32)
    requires
        !is_negative(bits),
        127 <= biased_exponent(bits) < 255,
    ensures
        unit_to_u8(bits) == 255,
{
    let n = 255 * significand(bits);
    let s = excess(n);
    let q = round_half_even(n, s);
    let y = exponent(bits) + s;
    lemma_excess(n);
    lemma2_to64();
    lemma_pow2_pos(s);
    if s > 8 {
        lemma_pow2_grows(9, s);
    }
    if s < 7 {
        lemma_pow2_grows(s, 6);
    }
    assert(s == 7 || s == 8);
    let c: nat = (23 - s) as nat;
    assert(q >= 255 * pow2(c)) by {
        if s == 7 {
            assert(n / 128 >= 255 * 0x1_0000);
        } else {
            assert(n / 256 >= 255 * 0x8000);
        }
    }
    if y >= 0 {
        lemma_pow2_pos(y as nat);
        lemma_mul_inequality(1, pow2(y as nat) as int, q as int);
        assert(q * pow2(y as nat) == pow2(y as nat) * q) by (nonlinear_arith);
        assert(round_half_up(q, y) >= 255);
    } else {
        let t = (-y) as nat;
        assert(t <= c);
        if t < c {
            lemma_pow2_strictly_increases(t, c);
        }
        lemma_pow2_pos(t);
        let p = pow2(t);
        assert(2 * p * 255 <= 2 * q + p);
        lemma_div_is_ordered((2 * p * 255) as int, (2 * q + p) as int, (2 * p) as int);
        lemma_div_multiples_vanish(255, (2 * p) as int);
        assert(round_half_up(q, y) >= 255);
    }
}

/// What the shifts of [`unipolar_float_to_u8`] compute for a number between
/// `2^-10` and one.
proof fn lemma_middle(bits: u32, n: u64, s: u64, q: u64, t: u64, whole: u64)
    requires
        !is_negative(bits),
        117 <= biased_exponent(bits) <= 126,
        n == 255 * significand(bits),
        s == (if n < 0x8000_0000 { 7u64 } else { 8u64 }),
        q == round_half_even(n as nat, s as nat),
        t == 150 - biased_exponent(bits) - s,
        whole == ((q + (1u64 << ((t - 1) as u64))) as u64) >> t,
    ensures
        whole == round_half_up(round_half_even(n as nat, excess(n as nat)), exponent(bits) + excess(
            n as nat,
        )),
{
    lemma2_to64();
    lemma_excess(n as nat);
    let e = excess(n as nat);
    lemma_pow2_pos(e);
    if e > s {
        lemma_pow2_grows((s + 1) as nat, e);
    }
    if e < s {
        lemma_pow2_grows(e, (s - 1) as nat);
    }
    assert(e == s);
    lemma_rounded_fits(n as nat);
    assert(16 <= t <= 26);
    let half = pow2((t - 1) as nat);
    let p = pow2(t as nat);
    lemma_pow2_unfold(t as nat);
    lemma_pow2_pos((t - 1) as nat);
    if t < 27 {
        lemma_pow2_strictly_increases((t - 1) as nat, 26);
    }
    assert(half < 0x400_0000);
    lemma_u64_shl_is_mul(1, (t - 1) as u64);
    lemma_u64_shr_is_div((q + (1u64 << ((t - 1) as u64))) as u64, t);
    assert(whole == (q + half) as int / p as int);
    lemma_div_denominator((2 * q + p) as int, 2, p as int);
    assert((2 * q + p) as int / 2 == q + half);
    assert(2 * p == p * 2) by (nonlinear_arith);
}

/// Packs a channel into a byte: scales the number by 255 and rounds it to the
/// nearest whole number between 0 and 255. A half goes upward, so that each
/// byte stands for a range of the same width.
pub fn unipolar_float_to_u8(bits: u32) -> (byte: u8)
    ensures
        byte == unit_to_u8(bits),
{
    let biased: u32 = (bits >> 23) & 0xff;
    let frac: u32 = bits & 0x7f_ffff;
    proof {
        assert((bits >> 23) & 0xff == (bits / 0x80_0000) % 0x100) by (bit_vector);
        assert(bits & 0x7f_ffff == bits % 0x80_0000) by (bit_vector);
    }
    if bits >= 0x8000_0000 {
        return 0;
    }
    if biased == 255 {
        return if frac != 0 {
            0
        } else {
            255
        };
    }
    if biased >= 127 {
        proof {
            lemma_large_is_full(bits);
        }
        return 255;
    }
    if biased < 117 {
        proof {
            lemma_small_is_zero(bits);
        }
        return 0;
    }
    let n: u64 = 255 * (0x80_0000 + frac as u64);
    let s: u64 = if n < 0x8000_0000 {
        7
    } else {
        8
    };
    let (quotient, rest, half): (u64, u64, u64) = if n < 0x8000_0000 {
        (n >> 7, n & 127, 64)
    } else {
        (n >> 8, n & 255, 128)
    };
    proof {
        lemma2_to64();
        assert(n >> 7 == n / 128) by (bit_vector);
        assert(n & 127 == n % 128) by (bit_vector);
        assert(n >> 8 == n / 256) by (bit_vector);
        assert(n & 255 == n % 256) by (bit_vector);
        assert(quotient & 1 == quotient % 2) by (bit_vector);
    }
    let q: u64 = if rest > half || (rest == half && quotient & 1 == 1) {
        quotient + 1
    } else {
        quotient
    };
    let t: u64 = 150 - biased as u64 - s;
    proof {
        assert(q == round_half_even(n as nat, s as nat));
        assert(q <= 0x200_0000);
        assert(16 <= t <= 26);
        assert((1u64 << ((t - 1) as u64)) <= 0x200_0000) by (bit_vector)
            requires
                16 <= t <= 26,
        ;
    }
    let whole: u64 = (q + (1u64 << (t - 1))) >> t;
    proof {
        lemma_middle(bits, n, s, q, t, whole);
    }
    if whole >= 255 {
        255
    } else {
        whole as u8
    }
}

impl Color {
    /// The three channels, each packed into a byte: red, green, blue.
    pub fn as_u8(&self) -> (bytes: (u8, u8, u8))
        ensures
            bytes.0 == unit_to_u8(self.red),
            bytes.1 == unit_to_u8(self.green),
            bytes.2 == unit_to_u8(self.blue),
    {
        (
            unipolar_float_to_u8(self.red),
            unipolar_float_to_u8(self.green),
            unipolar_float_to_u8(self.blue),
        )
    }
}

} // verus!
