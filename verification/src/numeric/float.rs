//! Reads single-precision floating-point numbers from decimal text.
//!
//! Numbers are handled as bit patterns: sign, exponent and fraction of the
//! IEEE 754 format. The magnitudes of the finite numbers, in units of two to
//! the power of -149, are integers that grow with the bit pattern.
use vstd::prelude::*;

use crate::numeric::big::{Big, Relation};
use crate::numeric::digits::{
    all_decimal, decimal_digit, decimal_digit_value, decimal_int, decimal_nat, is_negative,
    read_decimal, unsigned_part,
};
use vstd::arithmetic::power2::pow2;

verus! {

/// The bit pattern of infinity: those below it are the finite magnitudes.
pub const F32_INFINITY: u32 = 0x7f80_0000;

/// The sign bit.
pub const F32_SIGN: u32 = 0x8000_0000;

/// Ten to the power of `n`.
pub open spec fn ten_to(n: nat) -> nat
    decreases n,
{
    if n == 0 {
        1
    } else {
        10 * ten_to((n - 1) as nat)
    }
}

/// The number with the given bit pattern, without its sign, in units of two to
/// the power of -149.
pub open spec fn f32_units(magnitude: int) -> nat {
    let exponent = magnitude / 0x80_0000;
    let fraction = magnitude % 0x80_0000;
    if exponent <= 0 {
        fraction as nat
    } else {
        ((0x80_0000 + fraction) * pow2((exponent - 1) as nat)) as nat
    }
}

/// The number `digits` times ten to the power of `exponent`, as a fraction.
pub open spec fn numerator(digits: nat, exponent: int) -> nat {
    digits * ten_to(
        if exponent >= 0 {
            exponent as nat
        } else {
            0
        },
    )
}

pub open spec fn denominator(exponent: int) -> nat {
    ten_to(
        if exponent >= 0 {
            0
        } else {
            (-exponent) as nat
        },
    )
}

/// Whether the fraction is nearer to the float with this bit pattern than to
/// any larger one. Of two that are equally near, the one with the even bit
/// pattern counts as nearer.
pub open spec fn rounds_no_higher(num: nat, den: nat, magnitude: int) -> bool {
    let twice = num * pow2(150);
    let boundary = den * (f32_units(magnitude) + f32_units(magnitude + 1));
    twice < boundary || (twice == boundary && magnitude % 2 == 0)
}

/// Whether the float with this bit pattern is the nearest one to the fraction.
pub open spec fn rounds_to(num: nat, den: nat, magnitude: int) -> bool {
    &&& rounds_no_higher(num, den, magnitude)
    &&& magnitude > 0 ==> !rounds_no_higher(num, den, magnitude - 1)
}

/// Whether the fraction is too large for a finite float.
pub open spec fn overflows(num: nat, den: nat) -> bool {
    !rounds_no_higher(num, den, F32_INFINITY - 1)
}

/// Where the exponent part of a number starts.
pub open spec fn exponent_at(text: Seq<char>, from: int) -> int
    decreases text.len() - from,
{
    if from >= text.len() {
        text.len() as int
    } else if text[from] == 'e' || text[from] == 'E' {
        from
    } else {
        exponent_at(text, from + 1)
    }
}

/// Where the decimal point of a number stands.
pub open spec fn point_at(text: Seq<char>, from: int) -> int
    decreases text.len() - from,
{
    if from >= text.len() {
        text.len() as int
    } else if text[from] == '.' {
        from
    } else {
        point_at(text, from + 1)
    }
}

/// The digits of a number in front of and behind the decimal point.
pub open spec fn mantissa_parts(mantissa: Seq<char>) -> (Seq<char>, Seq<char>) {
    let point = point_at(mantissa, 0);
    (
        mantissa.take(point),
        if point < mantissa.len() {
            mantissa.skip(point + 1)
        } else {
            Seq::empty()
        },
    )
}

/// The number that a text denotes, without its sign, as digits and a power of
/// ten: at least one digit, with a decimal point among or around them, then an
/// optional exponent.
pub open spec fn decimal_fraction(text: Seq<char>) -> Option<(nat, int)> {
    let body = unsigned_part(text);
    let split = exponent_at(body, 0);
    let (whole, fraction) = mantissa_parts(body.take(split));
    let digits = whole + fraction;
    let exponent = if split < body.len() {
        decimal_int(body.skip(split + 1))
    } else {
        Some(0)
    };
    if digits.len() == 0 || !all_decimal(digits) || exponent is None {
        None
    } else {
        Some((decimal_nat(digits), exponent.unwrap() - fraction.len()))
    }
}

proof fn lemma_ten_to(a: nat, b: nat)
    ensures
        ten_to(a) > 0,
        ten_to(a + b) == ten_to(a) * ten_to(b),
        ten_to(a) >= pow2(3 * a),
    decreases a,
{
    if a > 0 {
        lemma_ten_to((a - 1) as nat, b);
        assert((10 * ten_to((a - 1) as nat)) * ten_to(b) == 10 * (ten_to((a - 1) as nat) * ten_to(
            b,
        ))) by (nonlinear_arith);
        vstd::arithmetic::power2::lemma_pow2_adds(3, (3 * (a - 1)) as nat);
        vstd::arithmetic::power2::lemma2_to64();
        assert(a + b - 1 == (a - 1) + b);
    } else {
        vstd::arithmetic::power2::lemma2_to64();
    }
}

/// Two neighbouring floats add up to an odd number times a power of two.
proof fn lemma_neighbours(magnitude: int)
    requires
        0 <= magnitude < F32_INFINITY,
    ensures
        ({
            let exponent = magnitude / 0x80_0000;
            let fraction = magnitude % 0x80_0000;
            f32_units(magnitude) + f32_units(magnitude + 1) == if exponent == 0 {
                (2 * fraction + 1) as int
            } else {
                (2 * (0x80_0000 + fraction) + 1) * pow2((exponent - 1) as nat)
            }
        }),
{
    let exponent = magnitude / 0x80_0000;
    let fraction = magnitude % 0x80_0000;
    vstd::arithmetic::power2::lemma2_to64();
    if exponent == 0 {
        if fraction + 1 == 0x80_0000 {
            assert((magnitude + 1) / 0x80_0000 == 1);
            assert((magnitude + 1) % 0x80_0000 == 0);
        } else {
            assert((magnitude + 1) / 0x80_0000 == 0);
        }
    } else {
        let p = pow2((exponent - 1) as nat) as int;
        if fraction + 1 == 0x80_0000 {
            assert((magnitude + 1) / 0x80_0000 == exponent + 1);
            assert((magnitude + 1) % 0x80_0000 == 0);
            vstd::arithmetic::power2::lemma_pow2_adds((exponent - 1) as nat, 1);
            assert(pow2(exponent as nat) == 2 * p);
            assert((0x80_0000 + fraction) * p + 0x80_0000 * (2 * p) == (2 * (0x80_0000 + fraction)
                + 1) * p) by (nonlinear_arith)
                requires
                    fraction + 1 == 0x80_0000,
            ;
        } else {
            assert((magnitude + 1) / 0x80_0000 == exponent);
            assert((magnitude + 1) % 0x80_0000 == fraction + 1);
            assert((0x80_0000 + fraction) * p + (0x80_0000 + fraction + 1) * p == (2 * (0x80_0000
                + fraction) + 1) * p) by (nonlinear_arith);
        }
        assert((0x80_0000 + fraction) * p >= 0) by (nonlinear_arith)
            requires
                fraction >= 0,
                p >= 0,
        ;
    }
}

/// Larger bit patterns stand for larger numbers.
pub proof fn f32_units_grow(small: int, large: int)
    requires
        0 <= small < large <= F32_INFINITY,
    ensures
        f32_units(small) < f32_units(large),
    decreases large - small,
{
    if small + 1 < large {
        f32_units_grow(small, large - 1);
    }
    let exponent = (large - 1) / 0x80_0000;
    let fraction = (large - 1) % 0x80_0000;
    lemma_neighbours(large - 1);
    vstd::arithmetic::power2::lemma2_to64();
    if exponent > 0 {
        vstd::arithmetic::power2::lemma_pow2_pos((exponent - 1) as nat);
        let p = pow2((exponent - 1) as nat) as int;
        assert((2 * (0x80_0000 + fraction) + 1) * p - (0x80_0000 + fraction) * p > (0x80_0000
            + fraction) * p) by (nonlinear_arith)
            requires
                p > 0,
                fraction >= 0,
        ;
        assert((0x80_0000 + fraction) * p >= 0) by (nonlinear_arith)
            requires
                fraction >= 0,
                p >= 0,
        ;
    }
}

/// A number rounds to one float only, and to none if it is too large.
pub proof fn rounding_is_unique(num: nat, den: nat, a: int, b: int)
    requires
        den > 0,
        0 <= a < F32_INFINITY,
        0 <= b < F32_INFINITY,
        rounds_to(num, den, a),
    ensures
        rounds_to(num, den, b) ==> a == b,
        !overflows(num, den),
{
    lemma_no_higher_stays(num, den, a, F32_INFINITY - 1);
    if rounds_to(num, den, b) {
        if a < b {
            lemma_no_higher_stays(num, den, a, b - 1);
        } else if b < a {
            lemma_no_higher_stays(num, den, b, a - 1);
        }
    }
}

proof fn lemma_no_higher_stays(num: nat, den: nat, low: int, high: int)
    requires
        den > 0,
        0 <= low <= high < F32_INFINITY,
        rounds_no_higher(num, den, low),
    ensures
        rounds_no_higher(num, den, high),
{
    if low < high {
        f32_units_grow(low, high);
        f32_units_grow(low + 1, high + 1);
        let x = f32_units(low) + f32_units(low + 1);
        let y = f32_units(high) + f32_units(high + 1);
        assert(den * x < den * y) by (nonlinear_arith)
            requires
                den > 0,
                x < y,
        ;
    }
}

/// A power of ten can be divided by.
pub proof fn denominator_positive(exponent: int)
    ensures
        denominator(exponent) > 0,
{
    lemma_ten_to(
        if exponent >= 0 {
            0
        } else {
            (-exponent) as nat
        },
        0,
    );
}

/// A part of a text.
fn part(chars: &Vec<char>, start: usize, end: usize) -> (part: Vec<char>)
    requires
        start <= end <= chars@.len(),
    ensures
        part@ == chars@.subrange(start as int, end as int),
{
    let mut part: Vec<char> = Vec::new();
    let mut i: usize = start;
    while i < end
        invariant
            start <= i <= end <= chars@.len(),
            part@ == chars@.subrange(start as int, i as int),
        decreases end - i,
    {
        part.push(chars[i]);
        assert(part@ =~= chars@.subrange(start as int, i + 1));
        i = i + 1;
    }
    part
}

fn find_exponent(chars: &Vec<char>) -> (at: usize)
    ensures
        at == exponent_at(chars@, 0),
        at <= chars@.len(),
{
    let mut i: usize = 0;
    while i < chars.len()
        invariant
            i <= chars@.len(),
            exponent_at(chars@, 0) == exponent_at(chars@, i as int),
        decreases chars@.len() - i,
    {
        let c: char = chars[i];
        if c == 'e' || c == 'E' {
            return i;
        }
        i = i + 1;
    }
    i
}

fn find_point(chars: &Vec<char>) -> (at: usize)
    ensures
        at == point_at(chars@, 0),
        at <= chars@.len(),
{
    let mut i: usize = 0;
    while i < chars.len()
        invariant
            i <= chars@.len(),
            point_at(chars@, 0) == point_at(chars@, i as int),
        decreases chars@.len() - i,
    {
        let c: char = chars[i];
        if c == '.' {
            return i;
        }
        i = i + 1;
    }
    i
}

/// The number that a row of digits denotes.
fn read_digits(digits: &Vec<char>) -> (value: Option<Big>)
    ensures
        value is Some <==> all_decimal(digits@),
        value matches Some(big) ==> big.value() == decimal_nat(digits@),
{
    let mut value = Big::zero();
    let mut i: usize = 0;
    while i < digits.len()
        invariant
            i <= digits@.len(),
            all_decimal(digits@.take(i as int)),
            value.value() == decimal_nat(digits@.take(i as int)),
        decreases digits@.len() - i,
    {
        let ghost seen = digits@.take(i as int);
        let ghost longer = digits@.take(i + 1);
        let c: char = digits[i];
        proof {
            assert(longer.drop_last() =~= seen);
            assert(longer.last() == c);
        }
        match decimal_digit_value(c) {
            None => {
                return None;
            },
            Some(digit) => {
                value.multiply_add(10, digit);
                proof {
                    assert forall|k: int| 0 <= k < longer.len() implies (#[trigger] decimal_digit(
                        longer[k],
                    )) is Some by {
                        if k < seen.len() {
                            assert(longer[k] == seen[k]);
                        }
                    }
                }
            },
        }
        i = i + 1;
    }
    assert(digits@.take(i as int) =~= digits@);
    Some(value)
}

/// Beyond this, an exponent decides by itself what becomes of a number.
pub const EXPONENT_LIMIT: u128 = 0x100_0000_0000_0000_0000_0000;

/// The exponent that a text denotes. One beyond the limit comes out as one
/// just beyond it.
fn read_exponent(chars: &Vec<char>) -> (exponent: Option<i128>)
    ensures
        exponent is Some <==> decimal_int(chars@) is Some,
        exponent matches Some(e) ==> {
            let exact = decimal_int(chars@).unwrap();
            e == if exact > EXPONENT_LIMIT {
                EXPONENT_LIMIT + 1
            } else if exact < -EXPONENT_LIMIT {
                -EXPONENT_LIMIT - 1
            } else {
                exact
            }
        },
{
    let signed: bool = chars.len() > 0 && (chars[0] == '+' || chars[0] == '-');
    let negative: bool = chars.len() > 0 && chars[0] == '-';
    let start: usize = if signed {
        1
    } else {
        0
    };
    proof {
        assert(chars@.subrange(start as int, chars@.len() as int) =~= unsigned_part(chars@));
    }
    match read_decimal(chars, start, chars.len(), EXPONENT_LIMIT) {
        None => None,
        Some(value) => {
            if negative {
                Some(-(value as i128))
            } else {
                Some(value as i128)
            }
        },
    }
}

proof fn lemma_decimal_nat_bound(digits: Seq<char>)
    requires
        all_decimal(digits),
    ensures
        decimal_nat(digits) < ten_to(digits.len()),
    decreases digits.len(),
{
    if digits.len() > 0 {
        let fewer = digits.drop_last();
        assert forall|k: int| 0 <= k < fewer.len() implies (#[trigger] decimal_digit(
            fewer[k],
        )) is Some by {
            assert(fewer[k] == digits[k]);
        }
        lemma_decimal_nat_bound(fewer);
        assert(decimal_digit(digits[digits.len() - 1]) is Some);
    }
}

/// Multiplies by ten to the power of `exponent`.
fn scale_by_ten(big: &mut Big, exponent: u128)
    ensures
        final(big).value() == old(big).value() * ten_to(exponent as nat),
{
    let mut left: u128 = exponent;
    while left > 0
        invariant
            left <= exponent,
            big.value() * ten_to(left as nat) == old(big).value() * ten_to(exponent as nat),
        decreases left,
    {
        let ghost v = big.value();
        big.multiply_add(10, 0);
        proof {
            let t = ten_to((left - 1) as nat);
            assert(v * (10 * t) == (v * 10 + 0) * t) by (nonlinear_arith);
        }
        left = left - 1;
    }
    assert(big.value() * 1 == big.value());
}

/// Whether [rounds_no_higher] holds, of a number given by its numerator (twice
/// the number of units) and its denominator.
fn is_no_higher(twice: &Big, den: &Big, magnitude: u32) -> (yes: bool)
    requires
        magnitude < F32_INFINITY,
    ensures
        ({
            let boundary = den.value() * (f32_units(magnitude as int) + f32_units(magnitude + 1));
            yes == (twice.value() < boundary || (twice.value() == boundary && magnitude % 2 == 0))
        }),
{
    let exponent: u32 = magnitude / 0x80_0000;
    let fraction: u32 = magnitude % 0x80_0000;
    let mut boundary = den.copy();
    let sum: u32 = if exponent == 0 {
        2 * fraction + 1
    } else {
        2 * (0x80_0000 + fraction) + 1
    };
    boundary.multiply_add(sum, 0);
    if exponent > 0 {
        boundary.shift_left(exponent - 1);
    }
    proof {
        lemma_neighbours(magnitude as int);
        let d = den.value();
        if exponent > 0 {
            let p = pow2((exponent - 1) as nat);
            assert((d * sum + 0) * p == d * (sum * p)) by (nonlinear_arith);
        }
    }
    match twice.compare(&boundary) {
        Relation::Less => true,
        Relation::Equal => magnitude % 2 == 0,
        Relation::Greater => false,
    }
}

/// Rounds a fraction, given by its numerator times two to the power of 150 and
/// its denominator, to the nearest float. `None` if it is too large.
fn round(twice: &Big, den: &Big, Ghost(num): Ghost<nat>) -> (magnitude: Option<u32>)
    requires
        twice.value() == num * pow2(150),
    ensures
        magnitude is None <==> overflows(num, den.value()),
        magnitude matches Some(m) ==> m < F32_INFINITY && rounds_to(num, den.value(), m as int),
{
    let mut high: u32 = F32_INFINITY - 1;
    if !is_no_higher(twice, den, high) {
        return None;
    }
    let mut low: u32 = 0;
    while low < high
        invariant
            low <= high < F32_INFINITY,
            twice.value() == num * pow2(150),
            rounds_no_higher(num, den.value(), high as int),
            low > 0 ==> !rounds_no_higher(num, den.value(), low - 1),
        decreases high - low,
    {
        let middle: u32 = low + (high - low) / 2;
        if is_no_higher(twice, den, middle) {
            high = middle;
        } else {
            low = middle + 1;
        }
    }
    Some(low)
}

/// A number this large is too large for a float.
proof fn lemma_huge(digits: nat, exponent: int)
    requires
        digits > 0,
        exponent >= 43,
    ensures
        overflows(numerator(digits, exponent), denominator(exponent)),
{
    lemma_ten_to(43, (exponent - 43) as nat);
    lemma_ten_to((exponent - 43) as nat, 0);
    let t = ten_to(exponent as nat);
    let u = ten_to((exponent - 43) as nat);
    assert(ten_to(43) * u >= pow2(129)) by (nonlinear_arith)
        requires
            ten_to(43) >= pow2(129),
            u >= 1,
    ;
    let p = pow2(150);
    assert(digits * t * p >= pow2(129) * p) by (nonlinear_arith)
        requires
            digits >= 1,
            t >= pow2(129),
            p >= 0,
    ;
    vstd::arithmetic::power2::lemma_pow2_adds(129, 150);
    lemma_neighbours(F32_INFINITY - 1);
    assert((F32_INFINITY - 1) / 0x80_0000 == 254);
    assert((F32_INFINITY - 1) % 0x80_0000 == 0x7f_ffff);
    vstd::arithmetic::power2::lemma_pow2_adds(26, 253);
    vstd::arithmetic::power2::lemma_pow2_pos(253);
    vstd::arithmetic::power2::lemma2_to64();
    let q = pow2(253);
    assert((2 * (0x80_0000 + 0x7f_ffffint) + 1) * q < 0x400_0000 * q) by (nonlinear_arith)
        requires
            q > 0,
    ;
    assert(ten_to(0) == 1);
    assert(1 * (f32_units(F32_INFINITY - 1) + f32_units(F32_INFINITY as int)) == f32_units(
        F32_INFINITY - 1,
    ) + f32_units(F32_INFINITY as int));
}

/// A number this small is next to nothing.
proof fn lemma_tiny(digits: nat, count: nat, exponent: int)
    requires
        digits < ten_to(count),
        count + exponent < -50,
    ensures
        rounds_to(numerator(digits, exponent), denominator(exponent), 0),
{
    let rest = (-exponent - count) as nat;
    lemma_ten_to(count, rest);
    lemma_ten_to(rest, 0);
    lemma_ten_to(51, (rest - 51) as nat);
    lemma_ten_to((rest - 51) as nat, 0);
    vstd::arithmetic::power2::lemma_pow2_adds(150, 3);
    vstd::arithmetic::power2::lemma2_to64();
    vstd::arithmetic::power2::lemma_pow2_pos(150);
    let p = pow2(150);
    let t = ten_to(count);
    let u = ten_to(rest);
    assert(u >= p) by {
        assert(ten_to(51) * ten_to((rest - 51) as nat) >= ten_to(51)) by (nonlinear_arith)
            requires
                ten_to((rest - 51) as nat) >= 1,
        ;
    }
    assert(digits * 1 == digits);
    assert(digits * p < t * u) by (nonlinear_arith)
        requires
            digits < t,
            0 < p <= u,
    ;
    assert((-exponent) as nat == count + rest);
    assert(f32_units(0) == 0);
    assert(f32_units(1) == 1);
    assert((t * u) * 1 == t * u);
}

/// A number in text: its digits, the power of ten that they count, and how
/// many digits there are.
struct Parts {
    digits: Big,
    exponent: i128,
    count: usize,
}

/// Where the exponent as it was read stands in for the exact one: where it
/// isn't exact, both are so extreme that they come to the same.
spec fn exponent_serves(read: int, exact: int, count: int) -> bool {
    ||| read == exact
    ||| read >= 43 && exact >= 43
    ||| read + count < -50 && exact + count < -50
}

/// Takes a text apart.
fn split_number(chars: &Vec<char>) -> (parts: Option<Parts>)
    ensures
        parts is Some <==> decimal_fraction(chars@) is Some,
        parts matches Some(parts) ==> {
            let (digits, exponent) = decimal_fraction(chars@).unwrap();
            &&& parts.digits.value() == digits
            &&& digits < ten_to(parts.count as nat)
            &&& exponent_serves(parts.exponent as int, exponent, parts.count as int)
            &&& -0x200_0000_0000_0000_0000_0000 <= parts.exponent
                <= 0x200_0000_0000_0000_0000_0000
        },
{
    let signed: bool = chars.len() > 0 && (chars[0] == '+' || chars[0] == '-');
    let body = part(
        chars,
        if signed {
            1
        } else {
            0
        },
        chars.len(),
    );
    assert(body@ =~= unsigned_part(chars@));
    let split: usize = find_exponent(&body);
    let mantissa = part(&body, 0, split);
    assert(mantissa@ =~= body@.take(split as int));
    let point: usize = find_point(&mantissa);
    let mut digits = part(&mantissa, 0, point);
    assert(digits@ =~= mantissa@.take(point as int));
    let mut fraction: Vec<char> = if point < mantissa.len() {
        part(&mantissa, point + 1, mantissa.len())
    } else {
        Vec::new()
    };
    proof {
        if point < mantissa@.len() {
            assert(fraction@ =~= mantissa@.skip(point + 1));
        } else {
            assert(fraction@ =~= Seq::empty());
        }
        assert(mantissa_parts(body@.take(split as int)) == (digits@, fraction@));
    }
    let fraction_len: usize = fraction.len();
    let exponent: i128 = if split < body.len() {
        let exponent_text = part(&body, split + 1, body.len());
        assert(exponent_text@ =~= body@.skip(split + 1));
        match read_exponent(&exponent_text) {
            None => {
                return None;
            },
            Some(e) => e,
        }
    } else {
        0
    };
    digits.append(&mut fraction);
    let count: usize = digits.len();
    if count == 0 {
        return None;
    }
    match read_digits(&digits) {
        None => None,
        Some(big) => {
            proof {
                lemma_decimal_nat_bound(digits@);
            }
            Some(Parts { digits: big, exponent: exponent - fraction_len as i128, count })
        },
    }
}

/// The float that is nearest to a number, without its sign. `None` if the
/// number is too large.
fn nearest(parts: Parts, Ghost(exact): Ghost<int>) -> (magnitude: Option<u32>)
    requires
        parts.digits.value() < ten_to(parts.count as nat),
        exponent_serves(parts.exponent as int, exact, parts.count as int),
        -0x200_0000_0000_0000_0000_0000 <= parts.exponent <= 0x200_0000_0000_0000_0000_0000,
    ensures
        magnitude is None <==> overflows(
            numerator(parts.digits.value(), exact),
            denominator(exact),
        ),
        magnitude matches Some(m) ==> m < F32_INFINITY && rounds_to(
            numerator(parts.digits.value(), exact),
            denominator(exact),
            m as int,
        ),
{
    let ghost number = parts.digits.value();
    let scale: i128 = parts.exponent;
    if let Relation::Equal = parts.digits.compare(&Big::zero()) {
        proof {
            lemma_zero(exact);
            denominator_positive(exact);
            rounding_is_unique(numerator(number, exact), denominator(exact), 0, 0);
        }
        return Some(0);
    }
    if scale >= 43 {
        proof {
            lemma_huge(number, exact);
        }
        return None;
    }
    if scale + (parts.count as i128) < -50 {
        proof {
            lemma_tiny(number, parts.count as nat, exact);
            denominator_positive(exact);
            rounding_is_unique(numerator(number, exact), denominator(exact), 0, 0);
        }
        return Some(0);
    }
    let mut twice = parts.digits;
    let mut den = Big::zero();
    den.multiply_add(0, 1);
    if scale >= 0 {
        scale_by_ten(&mut twice, scale as u128);
    } else {
        scale_by_ten(&mut den, (-scale) as u128);
    }
    proof {
        assert(number * 1 == number);
        assert(1 * ten_to((-exact) as nat) == ten_to((-exact) as nat));
    }
    twice.shift_left(150);
    round(&twice, &den, Ghost(numerator(number, exact)))
}

/// Zero is zero, whatever the exponent.
proof fn lemma_zero(exponent: int)
    ensures
        rounds_to(numerator(0, exponent), denominator(exponent), 0),
{
    lemma_ten_to(
        if exponent >= 0 {
            0
        } else {
            (-exponent) as nat
        },
        0,
    );
    assert(f32_units(0) == 0);
    assert(f32_units(1) == 1);
    assert(0 * ten_to(
        if exponent >= 0 {
            exponent as nat
        } else {
            0
        },
    ) * pow2(150) == 0) by (nonlinear_arith);
    assert(denominator(exponent) * 1 == denominator(exponent));
}

/// The bit pattern of the float that is nearest to the number a text denotes.
/// `None` if the text is no number, or the number is too large.
pub fn parse_f32(chars: &Vec<char>) -> (bits: Option<u32>)
    ensures
        bits is Some <==> (decimal_fraction(chars@) matches Some((digits, exponent))
            && !overflows(numerator(digits, exponent), denominator(exponent))),
        bits matches Some(b) ==> {
            let (digits, exponent) = decimal_fraction(chars@).unwrap();
            let magnitude = if is_negative(chars@) {
                b - F32_SIGN
            } else {
                b as int
            };
            &&& 0 <= magnitude < F32_INFINITY
            &&& rounds_to(numerator(digits, exponent), denominator(exponent), magnitude)
        },
{
    let negative: bool = chars.len() > 0 && chars[0] == '-';
    let parts = match split_number(chars) {
        None => {
            return None;
        },
        Some(parts) => parts,
    };
    let magnitude: u32 = match nearest(parts, Ghost(decimal_fraction(chars@).unwrap().1)) {
        None => {
            return None;
        },
        Some(m) => m,
    };
    if negative {
        Some(magnitude + F32_SIGN)
    } else {
        Some(magnitude)
    }
}

/// A large number of any size.
fn big_from(n: u128) -> (big: Big)
    ensures
        big.value() == n,
    decreases n,
{
    if n == 0 {
        return Big::zero();
    }
    let mut big = big_from(n / 0x1_0000);
    big.multiply_add(0x1_0000, (n % 0x1_0000) as u32);
    big
}

/// A fraction of this size is not too large.
proof fn lemma_not_huge(num: nat, den: nat)
    requires
        den > 0,
        num <= pow2(32),
    ensures
        !overflows(num, den),
{
    let p = pow2(150);
    vstd::arithmetic::power2::lemma_pow2_pos(150);
    vstd::arithmetic::power2::lemma_pow2_pos(253);
    vstd::arithmetic::power2::lemma_pow2_adds(32, 150);
    vstd::arithmetic::power2::lemma_pow2_strictly_increases(182, 253);
    assert(num * p <= pow2(32) * p) by (nonlinear_arith)
        requires
            num <= pow2(32),
            p > 0,
    ;
    lemma_neighbours(F32_INFINITY - 1);
    assert((F32_INFINITY - 1) / 0x80_0000 == 254);
    assert((F32_INFINITY - 1) % 0x80_0000 == 0x7f_ffff);
    let q = pow2(253);
    let sum = f32_units(F32_INFINITY - 1) + f32_units(F32_INFINITY as int);
    assert((2 * (0x80_0000 + 0x7f_ffffint) + 1) * q >= q) by (nonlinear_arith)
        requires
            q > 0,
    ;
    assert(den * sum >= sum) by (nonlinear_arith)
        requires
            den >= 1,
            sum >= 0,
    ;
}

/// The float that is nearest to a fraction that is at most 2^32.
fn nearest_to_fraction(num: u64, den: u32) -> (magnitude: u32)
    requires
        den > 0,
        num <= 0x1_0000_0000,
    ensures
        magnitude < F32_INFINITY,
        rounds_to(num as nat, den as nat, magnitude as int),
{
    let mut twice = big_from(num as u128);
    twice.shift_left(150);
    let den_big = big_from(den as u128);
    proof {
        vstd::arithmetic::power2::lemma2_to64();
        lemma_not_huge(num as nat, den as nat);
    }
    match round(&twice, &den_big, Ghost(num as nat)) {
        Some(magnitude) => magnitude,
        None => 0,
    }
}

/// Whether a bit pattern is that of the float nearest to a fraction with a
/// sign.
pub open spec fn is_nearest(bits: u32, num: int, den: nat) -> bool {
    if num < 0 {
        bits >= F32_SIGN && bits - F32_SIGN < F32_INFINITY && rounds_to(
            (-num) as nat,
            den,
            bits - F32_SIGN,
        )
    } else {
        bits < F32_INFINITY && rounds_to(num as nat, den, bits as int)
    }
}

fn with_sign(num: i64, den: u32) -> (bits: u32)
    requires
        den > 0,
        -0x1_0000_0000 <= num <= 0x1_0000_0000,
    ensures
        is_nearest(bits, num as int, den as nat),
{
    if num < 0 {
        nearest_to_fraction((-num) as u64, den) + F32_SIGN
    } else {
        nearest_to_fraction(num as u64, den)
    }
}

/// The float that is nearest to an integer.
pub fn int_to_float(value: i32) -> (bits: u32)
    ensures
        is_nearest(bits, value as int, 1),
{
    with_sign(value as i64, 1)
}

/// The float that is nearest to a fixed-point number with 16 bits behind the
/// point.
pub fn fixed_to_float(value: i32) -> (bits: u32)
    ensures
        is_nearest(bits, value as int, 0x1_0000),
{
    with_sign(value as i64, 0x1_0000)
}

/// The integer part of a float times `scale`, brought into the range of the
/// type. What is no number counts as zero.
pub open spec fn truncated(bits: u32, scale: nat) -> int {
    let magnitude = (bits % F32_SIGN) as int;
    let negative = bits >= F32_SIGN;
    let whole = (f32_units(magnitude) * scale) as int / pow2(149) as int;
    if magnitude > F32_INFINITY {
        0
    } else if magnitude == F32_INFINITY || whole > 0x7fff_ffff {
        if negative {
            -0x8000_0000
        } else {
            0x7fff_ffff
        }
    } else if negative {
        -whole
    } else {
        whole
    }
}

/// A small power of two.
fn small_power(exponent: u32) -> (power: u64)
    requires
        exponent <= 32,
    ensures
        power == pow2(exponent as nat),
        power > 0,
{
    proof {
        vstd::arithmetic::power2::lemma2_to64();
    }
    let mut power: u64 = 1;
    let mut i: u32 = 0;
    while i < exponent
        invariant
            i <= exponent <= 32,
            power == pow2(i as nat),
            0 < power <= pow2(32),
            pow2(32) == 0x1_0000_0000,
        decreases exponent - i,
    {
        proof {
            vstd::arithmetic::power2::lemma_pow2_adds(i as nat, 1);
            vstd::arithmetic::power2::lemma2_to64();
            if i + 1 < 32 {
                vstd::arithmetic::power2::lemma_pow2_strictly_increases(i as nat + 1, 32);
            }
        }
        power = power * 2;
        i = i + 1;
    }
    power
}

/// Dividing by a power of two can begin with the powers in common.
proof fn lemma_cancel_powers(m: nat, k: nat, d: nat)
    requires
        k + d == 149,
    ensures
        (m * pow2(k)) as int / pow2(149) as int == m as int / pow2(d) as int,
{
    vstd::arithmetic::power2::lemma_pow2_adds(k, d);
    vstd::arithmetic::power2::lemma_pow2_pos(k);
    vstd::arithmetic::power2::lemma_pow2_pos(d);
    assert(m * pow2(k) == pow2(k) * m) by (nonlinear_arith);
    vstd::arithmetic::div_mod::lemma_div_multiples_vanish_quotient(
        pow2(k) as int,
        m as int,
        pow2(d) as int,
    );
}

proof fn lemma_exact_powers(m: nat, k: nat)
    requires
        k >= 149,
    ensures
        (m * pow2(k)) as int / pow2(149) as int == m * pow2((k - 149) as nat),
{
    let r = (k - 149) as nat;
    vstd::arithmetic::power2::lemma_pow2_adds(149, r);
    vstd::arithmetic::power2::lemma_pow2_pos(149);
    assert(m * (pow2(149) * pow2(r)) == (m * pow2(r)) * pow2(149)) by (nonlinear_arith);
    vstd::arithmetic::div_mod::lemma_div_by_multiple((m * pow2(r)) as int, pow2(149) as int);
}

/// The integer part of a finite float without its sign, times two to the power
/// of `shift`. One that is too large comes out as one that is.
fn whole_part(magnitude: u32, shift: u32) -> (whole: u64)
    requires
        magnitude < F32_INFINITY,
        shift <= 16,
    ensures
        ({
            let exact = (f32_units(magnitude as int) * pow2(shift as nat)) as int / pow2(
                149,
            ) as int;
            whole == exact || (whole > 0xffff_ffff && exact > 0xffff_ffff)
        }),
{
    let exponent: u32 = magnitude / 0x80_0000;
    let fraction: u32 = magnitude % 0x80_0000;
    let ghost scale = pow2(shift as nat);
    proof {
        vstd::arithmetic::power2::lemma2_to64();
        vstd::arithmetic::power2::lemma_pow2_pos(shift as nat);
    }
    if exponent == 0 {
        proof {
            if shift < 16 {
                vstd::arithmetic::power2::lemma_pow2_strictly_increases(shift as nat, 16);
            }
            vstd::arithmetic::power2::lemma_pow2_strictly_increases(40, 149);
            vstd::arithmetic::power2::lemma_pow2_adds(23, 17);
            assert(fraction * scale < 0x80_0000 * 0x2_0000) by (nonlinear_arith)
                requires
                    0 <= fraction < 0x80_0000,
                    0 < scale <= 0x1_0000,
            ;
            assert(fraction * scale >= 0) by (nonlinear_arith)
                requires
                    0 <= fraction,
                    0 < scale,
            ;
            vstd::arithmetic::div_mod::lemma_basic_div(
                (fraction * scale) as int,
                pow2(149) as int,
            );
        }
        return 0;
    }
    let m: u64 = 0x80_0000 + fraction as u64;
    let k: u32 = exponent - 1 + shift;
    proof {
        let p = pow2((exponent - 1) as nat);
        vstd::arithmetic::power2::lemma_pow2_adds((exponent - 1) as nat, shift as nat);
        assert(m * p * scale == m * (p * scale)) by (nonlinear_arith);
        assert(f32_units(magnitude as int) * scale == m * pow2(k as nat));
    }
    if k >= 149 {
        proof {
            lemma_exact_powers(m as nat, k as nat);
        }
        let up: u32 = k - 149;
        if up >= 9 {
            proof {
                let q = pow2(up as nat);
                if up > 9 {
                    vstd::arithmetic::power2::lemma_pow2_strictly_increases(9, up as nat);
                }
                assert(m * q >= 0x80_0000 * 512) by (nonlinear_arith)
                    requires
                        m >= 0x80_0000,
                        q >= 512,
                ;
            }
            return 0x1_0000_0000;
        }
        let power: u64 = small_power(up);
        proof {
            if up < 9 {
                vstd::arithmetic::power2::lemma_pow2_strictly_increases(up as nat, 9);
            }
            assert(m * power < 0x100_0000 * 512) by (nonlinear_arith)
                requires
                    m < 0x100_0000,
                    0 < power < 512,
            ;
        }
        m * power
    } else {
        let down: u32 = 149 - k;
        proof {
            lemma_cancel_powers(m as nat, k as nat, down as nat);
        }
        if down >= 24 {
            proof {
                if down > 24 {
                    vstd::arithmetic::power2::lemma_pow2_strictly_increases(24, down as nat);
                }
                vstd::arithmetic::div_mod::lemma_basic_div(m as int, pow2(down as nat) as int);
            }
            return 0;
        }
        let power: u64 = small_power(down);
        m / power
    }
}

/// The integer part of a float times two to the power of `shift`, brought into
/// the range of the type.
fn truncate(bits: u32, shift: u32) -> (value: i32)
    requires
        shift <= 16,
    ensures
        value == truncated(bits, pow2(shift as nat)),
{
    let magnitude: u32 = bits % F32_SIGN;
    let negative: bool = bits >= F32_SIGN;
    if magnitude > F32_INFINITY {
        return 0;
    }
    let whole: u64 = if magnitude == F32_INFINITY {
        0x1_0000_0000
    } else {
        whole_part(magnitude, shift)
    };
    if whole > 0x7fff_ffff {
        if negative {
            i32::MIN
        } else {
            i32::MAX
        }
    } else if negative {
        -(whole as i32)
    } else {
        whole as i32
    }
}

/// The integer part of a float, brought into the range of unsigned integers.
pub open spec fn truncated_unsigned(bits: u32) -> int {
    let magnitude = (bits % F32_SIGN) as int;
    let whole = f32_units(magnitude) as int / pow2(149) as int;
    if magnitude > F32_INFINITY || bits >= F32_SIGN {
        0
    } else if magnitude == F32_INFINITY || whole > 0xffff_ffff {
        0xffff_ffff
    } else {
        whole
    }
}

/// The integer part of a float, brought into the range of the type.
pub fn float_to_uint(bits: u32) -> (value: u32)
    ensures
        value == truncated_unsigned(bits),
{
    let magnitude: u32 = bits % F32_SIGN;
    if magnitude > F32_INFINITY || bits >= F32_SIGN {
        return 0;
    }
    if magnitude == F32_INFINITY {
        return u32::MAX;
    }
    proof {
        vstd::arithmetic::power2::lemma2_to64();
        assert(f32_units(magnitude as int) * 1 == f32_units(magnitude as int));
    }
    let whole: u64 = whole_part(magnitude, 0);
    if whole > 0xffff_ffff {
        u32::MAX
    } else {
        whole as u32
    }
}

/// The float that is nearest to a byte divided by 255.
pub fn byte_to_float(value: u8) -> (bits: u32)
    ensures
        is_nearest(bits, value as int, 255),
{
    with_sign(value as i64, 255)
}

/// The integer part of a float, brought into the range of the type.
pub fn float_to_int(bits: u32) -> (value: i32)
    ensures
        value == truncated(bits, 1),
{
    proof {
        vstd::arithmetic::power2::lemma2_to64();
    }
    truncate(bits, 0)
}

/// A float as a fixed-point number with 16 bits behind the point.
pub fn float_to_fixed(bits: u32) -> (value: i32)
    ensures
        value == truncated(bits, 0x1_0000),
{
    proof {
        vstd::arithmetic::power2::lemma2_to64();
    }
    truncate(bits, 16)
}

} // verus!
