//! What conversions between numbers mean.
use vstd::prelude::*;

use crate::numeric::float::{
    byte_to_float, f32_units, fixed_to_float, float_to_fixed, float_to_int, float_to_uint,
    int_to_float, truncated, F32_INFINITY,
};
use crate::trainer::text_laws::{distance, lemma_nearest};
use vstd::arithmetic::power2::pow2;

verus! {

/// Whether a bit pattern is that of a finite float with the sign of a fraction,
/// and no other such float is nearer to the fraction.
pub open spec fn is_closest(bits: u32, num: int, den: int, other: int) -> bool {
    let size = if num < 0 {
        -num
    } else {
        num
    };
    let magnitude = if num < 0 {
        bits - 0x8000_0000
    } else {
        bits as int
    };
    &&& 0 <= magnitude < 0x7f80_0000
    &&& 0 <= other < 0x7f80_0000 ==> distance(size, den, magnitude) <= distance(size, den, other)
}

/// Integers, fixed-point numbers with sixteen bits behind the point, and bytes
/// as fractions of 255 become the nearest floats.
pub proof fn conversions_give_the_nearest_float(
    integer: i32,
    fixed: i32,
    byte: u8,
    a: u32,
    b: u32,
    c: u32,
    other: int,
)
    requires
        call_ensures(int_to_float, (integer,), a),
        call_ensures(fixed_to_float, (fixed,), b),
        call_ensures(byte_to_float, (byte,), c),
    ensures
        is_closest(a, integer as int, 1, other),
        is_closest(b, fixed as int, 65536, other),
        is_closest(c, byte as int, 255, other),
{
    if 0 <= other < F32_INFINITY {
        lemma_closest(a, integer as int, 1, other);
        lemma_closest(b, fixed as int, 65536, other);
        lemma_closest(c, byte as int, 255, other);
    }
}

pub proof fn lemma_closest(bits: u32, num: int, den: nat, other: int)
    requires
        den > 0,
        crate::numeric::float::is_nearest(bits, num, den),
        0 <= other < F32_INFINITY,
    ensures
        is_closest(bits, num, den as int, other),
{
    if num < 0 {
        lemma_nearest((-num) as nat, den, bits - 0x8000_0000, other);
    } else {
        lemma_nearest(num as nat, den, bits as int, other);
    }
}

/// Whether an integer is what is left of a float, times a scale, without what
/// is behind the point.
pub open spec fn is_whole(units: int, scale: int, value: int) -> bool {
    value * pow2(149) <= units * scale < (value + 1) * pow2(149)
}

/// A float becomes an integer, or a fixed-point number, by leaving out what is
/// behind the point, toward zero. What is too large becomes the largest or the
/// smallest one, and what is no number becomes zero.
pub proof fn floats_are_truncated(bits: u32, integer: i32, fixed: i32, unsigned: u32)
    requires
        call_ensures(float_to_int, (bits,), integer),
        call_ensures(float_to_fixed, (bits,), fixed),
        call_ensures(float_to_uint, (bits,), unsigned),
    ensures
        is_truncation(bits, 1, integer as int),
        is_truncation(bits, 65536, fixed as int),
        bits > 0x7f80_0000 ==> unsigned == 0,
        bits == 0x7f80_0000 ==> unsigned == 0xffff_ffff,
        bits < 0x7f80_0000 ==> is_whole(f32_units(bits as int) as int, 1, unsigned as int) || (
        unsigned == 0xffff_ffff && f32_units(bits as int) >= 0x1_0000_0000 * pow2(149)),
{
    vstd::arithmetic::power2::lemma_pow2_pos(149);
    lemma_truncation(bits, 1);
    lemma_truncation(bits, 65536);
    if bits < 0x7f80_0000 {
        let units = f32_units(bits as int) as int;
        let p = pow2(149) as int;
        vstd::arithmetic::div_mod::lemma_fundamental_div_mod(units, p);
        let whole = units / p;
        lemma_bounds(units, p, whole);
        assert(units * 1 == units);
        if whole > 0xffff_ffff {
            assert(0x1_0000_0000 * p <= whole * p) by (nonlinear_arith)
                requires
                    whole > 0xffff_ffff,
                    p > 0,
            ;
        }
    }
}

proof fn lemma_bounds(units: int, p: int, whole: int)
    requires
        p > 0,
        whole == units / p,
        units == p * (units / p) + units % p,
    ensures
        whole * p <= units < (whole + 1) * p,
{
    assert(0 <= units % p < p) by {
        vstd::arithmetic::div_mod::lemma_mod_bound(units, p);
    }
    assert(p * whole == whole * p) by (nonlinear_arith);
    assert((whole + 1) * p == whole * p + p) by (nonlinear_arith);
}

/// Whether an integer is a float times a scale without what is behind the
/// point, in the range of integers of 32 bits.
pub open spec fn is_truncation(bits: u32, scale: int, value: int) -> bool {
    let negative = bits >= 0x8000_0000;
    let magnitude = bits as int % 0x8000_0000;
    let size = if negative {
        -value
    } else {
        value
    };
    let units = f32_units(magnitude) as int;
    let limit = if negative {
        -0x8000_0000int
    } else {
        0x7fff_ffff
    };
    &&& magnitude > 0x7f80_0000 ==> value == 0
    &&& magnitude == 0x7f80_0000 ==> value == limit
    &&& magnitude < 0x7f80_0000 ==> is_whole(units, scale, size) || (value == limit && units * scale
        >= 0x8000_0000 * pow2(149))
}

proof fn lemma_truncation(bits: u32, scale: nat)
    requires
        pow2(149) > 0,
    ensures
        is_truncation(bits, scale as int, truncated(bits, scale)),
{
    let magnitude = bits as int % 0x8000_0000;
    let units = (f32_units(magnitude) * scale) as int;
    let p = pow2(149) as int;
    vstd::arithmetic::div_mod::lemma_fundamental_div_mod(units, p);
    let whole = units / p;
    assert(units >= 0) by (nonlinear_arith)
        requires
            units == f32_units(magnitude) * scale,
    ;
    lemma_bounds(units, p, whole);
    if whole > 0x7fff_ffff {
        assert(0x8000_0000 * p <= whole * p) by (nonlinear_arith)
            requires
                whole > 0x7fff_ffff,
                p > 0,
        ;
    }
}

/// The smallest bit patterns stand for themselves, in units of two to the power
/// of -149. From there on each step of the exponent doubles the number.
pub proof fn exponents_double_the_number(magnitude: int)
    requires
        0 <= magnitude < F32_INFINITY,
    ensures
        magnitude <= 0x80_0000 ==> f32_units(magnitude) == magnitude,
        magnitude >= 0x80_0000 && magnitude + 0x80_0000 < F32_INFINITY ==> f32_units(
            magnitude + 0x80_0000,
        ) == 2 * f32_units(magnitude),
        magnitude < 0x100_0000 ==> f32_units(magnitude) == magnitude,
{
    vstd::arithmetic::power2::lemma2_to64();
    let exponent = magnitude / 0x80_0000;
    let fraction = magnitude % 0x80_0000;
    if magnitude >= 0x80_0000 {
        assert((magnitude + 0x80_0000) / 0x80_0000 == exponent + 1);
        assert((magnitude + 0x80_0000) % 0x80_0000 == fraction);
        vstd::arithmetic::power2::lemma_pow2_adds((exponent - 1) as nat, 1);
        let p = pow2((exponent - 1) as nat) as int;
        if magnitude < 0x100_0000 {
            assert(exponent == 1 && p == 1);
            assert((0x80_0000 + fraction) * 1 == magnitude);
        }
        assert((0x80_0000 + fraction) * (p * 2) == 2 * ((0x80_0000 + fraction) * p))
            by (nonlinear_arith);
        assert((0x80_0000 + fraction) * p >= 0) by (nonlinear_arith)
            requires
                fraction >= 0,
                p >= 0,
        ;
    }
}

} // verus!
