//! Single-precision values carried as their IEEE 754 bit patterns.
//!
//! The index stores, compares and orders `binary32` values without computing
//! on them. A value is held as the `u32` that encodes it: the top bit is the
//! sign, the remaining 31 bits are the magnitude, and magnitudes from
//! `0x7f80_0000` on encode infinity and the NaNs.

use vstd::arithmetic::power2::{lemma_pow2_adds, lemma_pow2_pos, pow2};
use vstd::prelude::*;

verus! {

/// Bit pattern of negative infinity.
pub const NEG_INFINITY: u32 = 0xff80_0000;

/// The magnitude bits of a value: the pattern without its sign.
pub open spec fn magnitude(bits: u32) -> int {
    bits as int % 0x8000_0000
}

/// Neither an infinity nor a NaN.
pub open spec fn finite(bits: u32) -> bool {
    magnitude(bits) < 0x7f80_0000
}

/// Not a number.
pub open spec fn nan(bits: u32) -> bool {
    magnitude(bits) > 0x7f80_0000
}

/// An integer that orders values other than NaNs as numbers: it grows with the
/// value, and both zeros map to 0.
pub open spec fn number(bits: u32) -> int {
    if bits < 0x8000_0000 {
        magnitude(bits)
    } else {
        -magnitude(bits)
    }
}

/// Numeric `left >= right`, which is false as soon as one side is a NaN.
pub open spec fn at_least(left: u32, right: u32) -> bool {
    !nan(left) && !nan(right) && number(left) >= number(right)
}

/// Numeric `left > right`, which is false as soon as one side is a NaN.
pub open spec fn greater(left: u32, right: u32) -> bool {
    !nan(left) && !nan(right) && number(left) > number(right)
}

/// The position of a pattern in the IEEE 754 total order, in which negative
/// zero comes directly before positive zero and NaNs stand at both ends.
pub open spec fn total_position(bits: u32) -> int {
    if bits < 0x8000_0000 {
        bits as int
    } else {
        0x7fff_ffff - bits
    }
}

/// Whether a pattern encodes a finite number.
pub fn is_finite(bits: u32) -> (result: bool)
    ensures
        result == finite(bits),
{
    bits % 0x8000_0000 < 0x7f80_0000
}

/// Whether every pattern encodes a finite number.
pub fn all_finite(values: &[u32]) -> (result: bool)
    ensures
        result == (forall|i: int| 0 <= i < values@.len() ==> finite(#[trigger] values@[i])),
{
    let mut i: usize = 0;
    while i < values.len()
        invariant
            i <= values@.len(),
            forall|j: int| 0 <= j < i ==> finite(#[trigger] values@[j]),
        decreases values@.len() - i,
    {
        if !is_finite(values[i]) {
            return false;
        }
        i += 1;
    }
    true
}

/// Executable form of [`number`].
fn to_number(bits: u32) -> (result: i64)
    ensures
        result == number(bits),
{
    if bits < 0x8000_0000 {
        bits as i64
    } else {
        -((bits - 0x8000_0000) as i64)
    }
}

/// Executable form of [`total_position`].
pub fn to_total_position(bits: u32) -> (result: i64)
    ensures
        result == total_position(bits),
        -0x8000_0000 <= result < 0x8000_0000,
{
    if bits < 0x8000_0000 {
        bits as i64
    } else {
        0x7fff_ffff - (bits as i64)
    }
}

fn is_nan(bits: u32) -> (result: bool)
    ensures
        result == nan(bits),
{
    bits % 0x8000_0000 > 0x7f80_0000
}

/// Numeric `left >= right`.
pub fn is_at_least(left: u32, right: u32) -> (result: bool)
    ensures
        result == at_least(left, right),
{
    !is_nan(left) && !is_nan(right) && to_number(left) >= to_number(right)
}

/// Numeric `left > right`.
pub fn is_greater(left: u32, right: u32) -> (result: bool)
    ensures
        result == greater(left, right),
{
    !is_nan(left) && !is_nan(right) && to_number(left) > to_number(right)
}

/// Two patterns at the same position of the total order are the same pattern.
pub proof fn total_position_is_injective(left: u32, right: u32)
    requires
        total_position(left) == total_position(right),
    ensures
        left == right,
{
}

/// The total order refines the numeric order: a numerically smaller value
/// always comes first.
pub proof fn total_order_refines_numbers(left: u32, right: u32)
    requires
        !nan(left),
        !nan(right),
        number(left) < number(right),
    ensures
        total_position(left) < total_position(right),
{
}

/// The size of a finite number, in units of the smallest positive one, from its
/// magnitude bits: eight bits of exponent and 23 bits of fraction.
pub open spec fn encoded_size(magnitude: int) -> int {
    let exponent = magnitude / 0x80_0000;
    let fraction = magnitude % 0x80_0000;
    if exponent == 0 {
        fraction
    } else {
        (0x80_0000 + fraction) * pow2((exponent - 1) as nat)
    }
}

/// The finite number that a pattern encodes, in units of the smallest positive
/// one.
pub open spec fn encoded_number(bits: u32) -> int {
    if bits < 0x8000_0000 {
        encoded_size(bits as int)
    } else {
        -encoded_size(bits - 0x8000_0000)
    }
}

/// Larger magnitudes encode larger sizes.
proof fn sizes_increase(smaller: int, larger: int)
    requires
        0 <= smaller < larger,
    ensures
        0 <= encoded_size(smaller) < encoded_size(larger),
{
    let e = smaller / 0x80_0000;
    let f = smaller % 0x80_0000;
    let g = larger / 0x80_0000;
    let h = larger % 0x80_0000;
    if e > 0 {
        lemma_pow2_pos((e - 1) as nat);
        assert((0x80_0000 + f) * pow2((e - 1) as nat) > 0) by (nonlinear_arith)
            requires
                f >= 0,
                pow2((e - 1) as nat) > 0,
        ;
    }
    if g > 0 {
        lemma_pow2_pos((g - 1) as nat);
        let unit = pow2((g - 1) as nat) as int;
        assert((0x80_0000 + h) * unit >= 0x80_0000 * unit) by (nonlinear_arith)
            requires
                h >= 0,
                unit > 0,
        ;
        if e == g {
            assert((0x80_0000 + f) * unit < (0x80_0000 + h) * unit) by (nonlinear_arith)
                requires
                    f < h,
                    unit > 0,
            ;
        } else if e == 0 {
            assert(f < 0x80_0000 * unit) by (nonlinear_arith)
                requires
                    f < 0x80_0000,
                    unit >= 1,
            ;
        } else {
            let low = pow2((e - 1) as nat) as int;
            lemma_pow2_adds((e - 1) as nat, (g - e) as nat);
            lemma_pow2_pos((g - e - 1) as nat);
            lemma_pow2_adds(1, (g - e - 1) as nat);
            vstd::arithmetic::power2::lemma2_to64();
            let times = pow2((g - e) as nat) as int;
            assert(times >= 2);
            assert((0x80_0000 + f) * low < 0x80_0000 * unit) by (nonlinear_arith)
                requires
                    f < 0x80_0000,
                    low > 0,
                    unit == low * times,
                    times >= 2,
            ;
        }
    }
}

/// A pattern is finite unless its exponent bits are all set, and a NaN if
/// fraction bits are set then.
pub proof fn exponents_tell_finite_numbers(bits: u32)
    ensures
        finite(bits) <==> (bits as int / 0x80_0000) % 256 != 255,
        nan(bits) <==> (bits as int / 0x80_0000) % 256 == 255 && bits as int % 0x80_0000 != 0,
{
}

/// Finite patterns compare as the numbers that they encode.
pub proof fn finite_patterns_compare_as_numbers(left: u32, right: u32)
    requires
        finite(left),
        finite(right),
    ensures
        at_least(left, right) <==> encoded_number(left) >= encoded_number(right),
        greater(left, right) <==> encoded_number(left) > encoded_number(right),
        number(left) < number(right) <==> encoded_number(left) < encoded_number(right),
        encoded_number(left) < encoded_number(right) ==> total_position(left) < total_position(
            right,
        ),
{
    let a = left as int % 0x8000_0000;
    let b = right as int % 0x8000_0000;
    assert(encoded_size(0) == 0);
    if a > 0 {
        sizes_increase(0, a);
    }
    if b > 0 {
        sizes_increase(0, b);
    }
    if a < b {
        sizes_increase(a, b);
    } else if b < a {
        sizes_increase(b, a);
    }
}

/// Infinities lie beyond all finite numbers, and nothing compares with a NaN.
pub proof fn special_patterns_compare(left: u32, right: u32)
    ensures
        finite(left) ==> greater(0x7f80_0000, left) && greater(left, 0xff80_0000),
        (left as int / 0x80_0000) % 256 == 255 && left as int % 0x80_0000 != 0 ==> !at_least(
            left,
            right,
        ) && !at_least(right, left) && !greater(left, right) && !greater(right, left),
{
}

/// In the total order patterns with a set sign bit come first, in descending
/// order, and the others follow in ascending order.
pub proof fn total_order_follows_the_sign(left: u32, right: u32)
    ensures
        total_position(left) < total_position(right) <==> {
            ||| left >= 0x8000_0000 && right < 0x8000_0000
            ||| left < right && right < 0x8000_0000
            ||| left > right && right >= 0x8000_0000
        },
{
}

} // verus!
