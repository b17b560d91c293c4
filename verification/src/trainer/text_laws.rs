//! What texts stand for as values.
use vstd::prelude::*;

use crate::mem::encoding::byte_range_of_words;
use crate::mem::Mem;
use crate::numeric::digits::{
    all_decimal, all_hex, decimal_digit, decimal_int, decimal_nat, has_hex_prefix, hex_bits,
    hex_digit, hex_nat, is_negative, unsigned_part,
};
use crate::numeric::float::{
    decimal_fraction, denominator, denominator_positive, exponent_at, f32_units, f32_units_grow,
    mantissa_parts, numerator, point_at, rounds_no_higher, rounds_to, ten_to, F32_INFINITY,
};
use crate::trainer::edit_laws::value_count;
use crate::trainer::laws::{byte_size, is_there, lemma_number_at, number_at};
use crate::trainer::value::{Shown, VType};
use vstd::arithmetic::power2::pow2;

verus! {

/// The number that a row of digits stands for in a base.
pub open spec fn row(digits: Seq<int>, base: int) -> int
    decreases digits.len(),
{
    if digits.len() == 0 {
        0
    } else {
        base * row(digits.drop_last(), base) + digits.last()
    }
}

/// Whether a part of a text is a row of decimal digits.
pub open spec fn is_decimal_row(text: Seq<char>, digits: Seq<int>) -> bool {
    &&& text.len() == digits.len()
    &&& forall|i: int|
        0 <= i < digits.len() ==> {
            &&& 0 <= #[trigger] digits[i] <= 9
            &&& text[i] as u32 == 48 + digits[i]
        }
}

/// Whether a part of a text is a row of hexadecimal digits, in either case.
pub open spec fn is_hex_row(text: Seq<char>, digits: Seq<int>) -> bool {
    &&& text.len() == digits.len()
    &&& forall|i: int|
        0 <= i < digits.len() ==> {
            let code = text[i] as u32;
            &&& 0 <= #[trigger] digits[i] <= 15
            &&& digits[i] <= 9 ==> code == 48 + digits[i]
            &&& digits[i] >= 10 ==> code == 55 + digits[i] || code == 87 + digits[i]
        }
}

/// The smallest and the largest integer of a type.
pub open spec fn extremes(vtype: VType) -> (int, int) {
    match vtype {
        VType::U8 => (0, 255),
        VType::I8 => (-128, 127),
        VType::U16 => (0, 65535),
        VType::I16 => (-32768, 32767),
        VType::U32 => (0, 4294967295),
        VType::I32 => (-2147483648, 2147483647),
        VType::F32 | VType::Auto => (0, -1),
    }
}

proof fn lemma_decimal_row(text: Seq<char>, digits: Seq<int>)
    requires
        is_decimal_row(text, digits),
    ensures
        all_decimal(text),
        decimal_nat(text) == row(digits, 10),
        row(digits, 10) >= 0,
    decreases digits.len(),
{
    assert forall|i: int| 0 <= i < text.len() implies (#[trigger] decimal_digit(
        text[i],
    )) is Some by {
        assert(0 <= digits[i] <= 9);
    }
    if digits.len() > 0 {
        assert forall|i: int| 0 <= i < digits.drop_last().len() implies {
            &&& 0 <= #[trigger] digits.drop_last()[i] <= 9
            &&& text.drop_last()[i] as u32 == 48 + digits.drop_last()[i]
        } by {
            assert(digits[i] == digits.drop_last()[i]);
        }
        lemma_decimal_row(text.drop_last(), digits.drop_last());
        assert(0 <= digits[digits.len() - 1] <= 9);
    }
}

proof fn lemma_hex_row(text: Seq<char>, digits: Seq<int>)
    requires
        is_hex_row(text, digits),
    ensures
        all_hex(text),
        hex_nat(text) == row(digits, 16),
        row(digits, 16) >= 0,
    decreases digits.len(),
{
    assert forall|i: int| 0 <= i < text.len() implies (#[trigger] hex_digit(text[i])) is Some by {
        assert(0 <= digits[i] <= 15);
    }
    if digits.len() > 0 {
        assert forall|i: int| 0 <= i < digits.drop_last().len() implies {
            let code = text.drop_last()[i] as u32;
            &&& 0 <= #[trigger] digits.drop_last()[i] <= 15
            &&& digits.drop_last()[i] <= 9 ==> code == 48 + digits.drop_last()[i]
            &&& digits.drop_last()[i] >= 10 ==> code == 55 + digits.drop_last()[i] || code == 87
                + digits.drop_last()[i]
        } by {
            assert(digits[i] == digits.drop_last()[i]);
        }
        lemma_hex_row(text.drop_last(), digits.drop_last());
        assert(0 <= digits[digits.len() - 1] <= 15);
    }
}

/// A number in decimal, with or without a sign, is read as that very number if
/// the type has it, a negative one in two's complement. Otherwise it is
/// refused: nothing wraps around.
pub proof fn integers_are_read_exactly(
    vtype: VType,
    text: &str,
    sign: Option<char>,
    digits: Seq<int>,
    bits: Option<u64>,
)
    requires
        vtype != VType::F32,
        digits.len() > 0,
        match sign {
            Some(c) => {
                &&& c == '+' || c == '-'
                &&& text@.len() > 0 && text@[0] == c
                &&& is_decimal_row(text@.drop_first(), digits)
            },
            None => is_decimal_row(text@, digits),
        },
        call_ensures(VType::parse, (vtype, text), bits),
    ensures
        ({
            let value = if sign == Some('-') {
                -row(digits, 10)
            } else {
                row(digits, 10)
            };
            let (low, high) = extremes(vtype);
            if low <= value <= high {
                bits == Some(
                    (if value < 0 {
                        value + value_count(vtype)
                    } else {
                        value
                    }) as u64,
                )
            } else {
                bits is None
            }
        }),
{
    byte_range_of_words();
    let number = if sign is Some {
        text@.drop_first()
    } else {
        text@
    };
    lemma_decimal_row(number, digits);
    assert(0 <= digits[0] <= 9);
    if sign is None {
        assert(text@[0] as u32 == 48 + digits[0]);
        assert('+' as u32 == 43 && '-' as u32 == 45);
    }
    assert(unsigned_part(text@) == number);
    if text@.len() >= 2 {
        let k = if sign is Some {
            0int
        } else {
            1int
        };
        assert(0 <= digits[k] <= 9);
        assert('x' as u32 == 120);
        assert(!has_hex_prefix(text@));
    }
    let value = if sign == Some('-') {
        -row(digits, 10)
    } else {
        row(digits, 10)
    };
    assert(decimal_int(text@) == Some(value));
    let (low, high) = extremes(vtype);
    if low <= value <= high {
        let b = (if value < 0 {
            value + value_count(vtype)
        } else {
            value
        }) as u64;
        assert(vtype.denotes(text@, b));
        if let Some(c) = bits {
            vtype.denotes_one(text@, b, c);
        }
    } else if let Some(c) = bits {
        assert(vtype.denotes(text@, c));
    }
}

/// What is no number in decimal, nor one in hexadecimal after `0x`, is not read
/// as an integer.
pub proof fn only_numbers_are_read(vtype: VType, text: &str, bits: u64)
    requires
        vtype != VType::F32,
        call_ensures(VType::parse, (vtype, text), Some(bits)),
    ensures
        vtype != VType::Auto,
        bits < value_count(vtype),
        ({
            let hex = text@.len() > 2 && text@[0] == '0' && text@[1] == 'x';
            let signed = text@.len() > 0 && (text@[0] == '+' || text@[0] == '-');
            let number = if signed {
                text@.drop_first()
            } else {
                text@
            };
            hex || (number.len() > 0 && forall|i: int|
                0 <= i < number.len() ==> 48 <= #[trigger] number[i] as u32 <= 57)
        }),
{
    byte_range_of_words();
    if !has_hex_prefix(text@) {
        let number = unsigned_part(text@);
        assert(decimal_int(text@) is Some);
        assert forall|i: int| 0 <= i < number.len() implies 48 <= #[trigger] number[i] as u32
            <= 57 by {
            assert(decimal_digit(number[i]) is Some);
        }
    }
}

/// After `0x`, digits stand for raw bits, in all types. They have to fit.
pub proof fn hex_stands_for_bits(vtype: VType, text: &str, digits: Seq<int>, bits: Option<u64>)
    requires
        vtype != VType::Auto,
        digits.len() > 0,
        text@.len() > 2,
        text@[0] == '0',
        text@[1] == 'x',
        is_hex_row(text@.skip(2), digits),
        call_ensures(VType::parse, (vtype, text), bits),
    ensures
        bits == if row(digits, 16) < value_count(vtype) {
            Some(row(digits, 16) as u64)
        } else {
            None
        },
{
    byte_range_of_words();
    lemma_hex_row(text@.skip(2), digits);
    assert(hex_bits(text@) == Some(row(digits, 16) as nat));
    if row(digits, 16) < value_count(vtype) {
        assert(vtype.denotes(text@, row(digits, 16) as u64));
        if let Some(c) = bits {
            vtype.denotes_one(text@, row(digits, 16) as u64, c);
        }
    } else if let Some(c) = bits {
        assert(vtype.denotes(text@, c));
    }
}

/// How far a fraction is from the float with a bit pattern, in units of two to
/// the power of -149, times the denominator.
pub open spec fn distance(num: int, den: int, magnitude: int) -> int {
    let off = num * pow2(149) - den * f32_units(magnitude);
    if off < 0 {
        -off
    } else {
        off
    }
}

pub proof fn lemma_nearest(num: nat, den: nat, magnitude: int, other: int)
    requires
        den > 0,
        0 <= magnitude < F32_INFINITY,
        0 <= other < F32_INFINITY,
        rounds_to(num, den, magnitude),
    ensures
        distance(num as int, den as int, magnitude) <= distance(num as int, den as int, other),
        other != magnitude && distance(num as int, den as int, magnitude) == distance(
            num as int,
            den as int,
            other,
        ) ==> magnitude % 2 == 0,
{
    vstd::arithmetic::power2::lemma_pow2_adds(149, 1);
    vstd::arithmetic::power2::lemma2_to64();
    let p = pow2(149) as int;
    let value = num * p;
    assert(num * pow2(150) == 2 * value) by (nonlinear_arith)
        requires
            pow2(150) == p * 2,
            value == num * p,
    ;
    let d = den as int;
    let here = d * f32_units(magnitude);
    let there = d * f32_units(other);
    if other > magnitude {
        let next = f32_units(magnitude + 1) as int;
        if other > magnitude + 1 {
            f32_units_grow(magnitude + 1, other);
        }
        f32_units_grow(magnitude, magnitude + 1);
        let u = f32_units(magnitude) as int;
        let v = f32_units(other) as int;
        assert(d * (u + next) == d * u + d * next) by (nonlinear_arith);
        assert(d * next <= d * v) by (nonlinear_arith)
            requires
                d > 0,
                next <= v,
        ;
        assert(d * u < d * v) by (nonlinear_arith)
            requires
                d > 0,
                u < next,
                next <= v,
        ;
        assert(2 * value <= here + there);
        if other > magnitude + 1 {
            assert(d * next < d * v) by (nonlinear_arith)
                requires
                    d > 0,
                    next < v,
            ;
        }
    } else if other < magnitude {
        let below = f32_units(magnitude - 1) as int;
        if other < magnitude - 1 {
            f32_units_grow(other, magnitude - 1);
        }
        f32_units_grow(magnitude - 1, magnitude);
        let u = f32_units(magnitude) as int;
        let v = f32_units(other) as int;
        assert(d * (below + u) == d * below + d * u) by (nonlinear_arith);
        assert(d * v <= d * below) by (nonlinear_arith)
            requires
                d > 0,
                v <= below,
        ;
        assert(d * v < d * u) by (nonlinear_arith)
            requires
                d > 0,
                v <= below,
                below < u,
        ;
        assert(2 * value >= here + there);
        if other < magnitude - 1 {
            assert(d * v < d * below) by (nonlinear_arith)
                requires
                    d > 0,
                    v < below,
            ;
        }
    }
}

proof fn lemma_no_point(text: Seq<char>, digits: Seq<int>, from: int, end: int)
    requires
        0 <= from <= end <= text.len(),
        is_decimal_row(text.take(end), digits),
        end < text.len() ==> text[end] == '.',
    ensures
        point_at(text, from) == end,
    decreases end - from,
{
    if from < end {
        lemma_no_point(text, digits, from + 1, end);
        assert(0 <= digits[from] <= 9);
        assert(text.take(end)[from] == text[from]);
        assert('.' as u32 == 46);
    }
}

proof fn lemma_no_exponent(text: Seq<char>, from: int)
    requires
        0 <= from <= text.len(),
        forall|i: int|
            0 <= i < text.len() ==> #[trigger] text[i] == '.' || 48 <= text[i] as u32 <= 57,
    ensures
        exponent_at(text, from) == text.len(),
    decreases text.len() - from,
{
    if from < text.len() {
        lemma_no_exponent(text, from + 1);
        assert('e' as u32 == 101 && 'E' as u32 == 69 && '.' as u32 == 46);
        assert(text[from] == '.' || 48 <= text[from] as u32 <= 57);
    }
}

/// A number in decimal, with a point or without, is read as the nearest float,
/// the one with the even bit pattern where two are equally near. It is the
/// number that counts, not the bits of an integer, and the sign is kept.
pub proof fn floats_are_read_as_numbers(
    text: &str,
    sign: Option<char>,
    whole: Seq<int>,
    fraction: Seq<int>,
    bits: Option<u64>,
    other: int,
)
    requires
        whole.len() + fraction.len() > 0,
        0 <= other < F32_INFINITY,
        ({
            let body = if sign is Some {
                text@.drop_first()
            } else {
                text@
            };
            &&& sign matches Some(c) ==> (c == '+' || c == '-') && text@.len() > 0 && text@[0] == c
            &&& is_decimal_row(body.take(whole.len() as int), whole)
            &&& whole.len() <= body.len()
            &&& body.len() == whole.len() ==> fraction.len() == 0
            &&& body.len() > whole.len() ==> body[whole.len() as int] == '.' && is_decimal_row(
                body.skip(whole.len() as int + 1),
                fraction,
            )
        }),
        call_ensures(VType::parse, (VType::F32, text), bits),
    ensures
        ({
            let num = row(whole + fraction, 10);
            let den = ten_to(fraction.len()) as int;
            &&& num >= 0 && den > 0
            &&& num * pow2(149) <= den * f32_units(F32_INFINITY - 1) ==> bits is Some
            &&& bits matches Some(b) ==> {
                let magnitude = if sign == Some('-') {
                    b - 0x8000_0000
                } else {
                    b as int
                };
                &&& 0 <= magnitude < F32_INFINITY
                &&& distance(num, den, magnitude) <= distance(num, den, other)
                &&& other != magnitude && distance(num, den, magnitude) == distance(
                    num,
                    den,
                    other,
                ) ==> magnitude % 2 == 0
            }
        }),
{
    let body = if sign is Some {
        text@.drop_first()
    } else {
        text@
    };
    let at = whole.len() as int;
    assert('+' as u32 == 43 && '-' as u32 == 45 && '.' as u32 == 46 && 'x' as u32 == 120);
    assert forall|i: int| 0 <= i < body.len() implies #[trigger] body[i] == '.' || 48
        <= body[i] as u32 <= 57 by {
        if i < at {
            assert(0 <= whole[i] <= 9);
            assert(body.take(at)[i] == body[i]);
        } else if i > at {
            assert(0 <= fraction[i - at - 1] <= 9);
            assert(body.skip(at + 1)[i - at - 1] == body[i]);
        }
    }
    if sign is None {
        assert(body[0] == text@[0]);
    }
    assert(unsigned_part(text@) =~= body);
    assert(!has_hex_prefix(text@)) by {
        if text@.len() >= 2 {
            if sign is None {
                assert(body[1] == text@[1]);
            }
        }
    }
    lemma_no_exponent(body, 0);
    assert(body.take(body.len() as int) =~= body);
    lemma_no_point(body, whole, 0, at);
    let (front, back) = mantissa_parts(body);
    let all = whole + fraction;
    assert(is_decimal_row(front + back, all)) by {
        assert(back.len() == fraction.len());
        assert forall|i: int| 0 <= i < all.len() implies {
            &&& 0 <= #[trigger] all[i] <= 9
            &&& (front + back)[i] as u32 == 48 + all[i]
        } by {
            if i < at {
                assert(0 <= whole[i] <= 9);
            } else {
                assert(0 <= fraction[i - at] <= 9);
            }
        }
    }
    lemma_decimal_row(front + back, all);
    let exponent = -(fraction.len() as int);
    let digits = decimal_nat(front + back);
    assert(decimal_fraction(text@) == Some((digits, exponent)));
    denominator_positive(exponent);
    assert(ten_to(0) == 1);
    assert(numerator(digits, exponent) == digits) by {
        assert(digits * 1 == digits);
    }
    assert(denominator(exponent) == ten_to(fraction.len()));
    let den = ten_to(fraction.len());
    if let Some(b) = bits {
        assert(VType::F32.denotes(text@, b));
        let magnitude = if sign == Some('-') {
            b - 0x8000_0000
        } else {
            b as int
        };
        lemma_nearest(digits, den, magnitude, other);
    } else if digits * pow2(149) <= den * f32_units(F32_INFINITY - 1) {
        lemma_finite(text@, digits, den, exponent);
    }
}

proof fn lemma_finite(text: Seq<char>, digits: nat, den: nat, exponent: int)
    requires
        !has_hex_prefix(text),
        decimal_fraction(text) == Some((digits, exponent)),
        numerator(digits, exponent) == digits,
        denominator(exponent) == den,
        den > 0,
        digits * pow2(149) <= den * f32_units(F32_INFINITY - 1),
    ensures
        exists|bits: u64| VType::F32.denotes(text, bits),
{
    vstd::arithmetic::power2::lemma_pow2_adds(149, 1);
    vstd::arithmetic::power2::lemma2_to64();
    let p = pow2(149) as int;
    let last = F32_INFINITY - 1;
    f32_units_grow(last, last + 1);
    let u = f32_units(last) as int;
    let v = f32_units(last + 1) as int;
    let d = den as int;
    assert(digits * pow2(150) < d * (u + v)) by (nonlinear_arith)
        requires
            pow2(150) == p * 2,
            digits * p <= d * u,
            u < v,
            d > 0,
    ;
    assert(rounds_no_higher(digits, den, last));
    let m = lemma_some_rounding(digits, den, last);
    let bits = if is_negative(text) {
        (m + 0x8000_0000) as u64
    } else {
        m as u64
    };
    assert(VType::F32.denotes(text, bits));
}

proof fn lemma_some_rounding(num: nat, den: nat, top: int) -> (m: int)
    requires
        0 <= top,
        rounds_no_higher(num, den, top),
    ensures
        0 <= m <= top,
        rounds_to(num, den, m),
    decreases top,
{
    if top == 0 || !rounds_no_higher(num, den, top - 1) {
        top
    } else {
        lemma_some_rounding(num, den, top - 1)
    }
}

/// An integer is shown as the number that was typed.
pub proof fn integers_are_shown_as_typed(
    vtype: VType,
    text: &str,
    sign: Option<char>,
    digits: Seq<int>,
    bits: u64,
    shown: Shown,
)
    requires
        vtype != VType::F32,
        digits.len() > 0,
        match sign {
            Some(c) => {
                &&& c == '+' || c == '-'
                &&& text@.len() > 0 && text@[0] == c
                &&& is_decimal_row(text@.drop_first(), digits)
            },
            None => is_decimal_row(text@, digits),
        },
        call_ensures(VType::parse, (vtype, text), Some(bits)),
        call_ensures(VType::shown, (vtype, bits), shown),
    ensures
        shown == Shown::Integer(
            (if sign == Some('-') {
                -row(digits, 10)
            } else {
                row(digits, 10)
            }) as i64,
        ),
{
    byte_range_of_words();
    integers_are_read_exactly(vtype, text, sign, digits, Some(bits));
    let value = if sign == Some('-') {
        -row(digits, 10)
    } else {
        row(digits, 10)
    };
    let number = if sign is Some {
        text@.drop_first()
    } else {
        text@
    };
    lemma_decimal_row(number, digits);
    let (low, high) = extremes(vtype);
    assert(low <= value <= high);
    let range = value_count(vtype);
    vstd::arithmetic::div_mod::lemma_small_mod(bits as nat, range as nat);
    assert(bits as int % range == bits);
}

/// A value that is written where there is memory is read back, and nothing is
/// written elsewhere.
pub proof fn values_are_written_where_memory_is(
    vtype: VType,
    mem: &mut Mem,
    addr: u32,
    bits: u64,
    done: bool,
    got: Option<u64>,
)
    requires
        old(mem).wf(),
        call_ensures(VType::write_at, (vtype, mem, addr, bits), done),
        call_ensures(VType::read_at, (vtype, final(mem), addr), got),
        final(mem).wf(),
    ensures
        ({
            let size = byte_size(vtype);
            let there = vtype != VType::Auto && is_there(*old(mem), addr as int, size);
            &&& done == there
            &&& got is Some <==> there
            &&& !there ==> *final(mem) == *old(mem)
            &&& there ==> {
                &&& got == Some((bits as int % value_count(vtype)) as u64)
                &&& number_at(*final(mem), addr as int, size) == bits as int % value_count(vtype)
                &&& forall|other: int|
                    0 <= other < 0x1_0000_0000 && !(addr <= other < addr + size) ==> #[trigger]
                        final(mem).contents()[other] == old(mem).contents()[other]
            }
        }),
{
    byte_range_of_words();
    if vtype != VType::Auto && is_there(*old(mem), addr as int, byte_size(vtype)) {
        vtype.written_value_is_read(*old(mem), *final(mem), addr as int, bits, vtype, addr as int);
        lemma_number_at(*final(mem), vtype, addr as int);
        crate::mem::encoding::le_bytes_value(bits as nat, vtype.width());
    }
}

/// Whether a text is a number with a point or without: some digits in front and
/// some behind it.
pub open spec fn is_mantissa(text: Seq<char>, whole: Seq<int>, fraction: Seq<int>) -> bool {
    &&& whole.len() + fraction.len() > 0
    &&& whole.len() <= text.len()
    &&& is_decimal_row(text.take(whole.len() as int), whole)
    &&& text.len() == whole.len() ==> fraction.len() == 0
    &&& text.len() > whole.len() ==> text[whole.len() as int] == '.' && is_decimal_row(
        text.skip(whole.len() as int + 1),
        fraction,
    )
}

/// Whether a text is an integer, with a sign or without.
pub open spec fn is_integer(text: Seq<char>, sign: Option<char>, digits: Seq<int>) -> bool {
    &&& digits.len() > 0
    &&& match sign {
        Some(c) => {
            &&& c == '+' || c == '-'
            &&& text.len() > 0 && text[0] == c
            &&& is_decimal_row(text.drop_first(), digits)
        },
        None => is_decimal_row(text, digits),
    }
}

/// A number and a power of ten, as a fraction.
pub open spec fn scaled(number: int, exponent: int) -> (int, int) {
    if exponent >= 0 {
        (number * ten_to(exponent as nat), 1)
    } else {
        (number, ten_to((-exponent) as nat) as int)
    }
}

proof fn lemma_exponent_at(text: Seq<char>, at: int, from: int)
    requires
        0 <= from <= at < text.len(),
        text[at] == 'e' || text[at] == 'E',
        forall|i: int|
            0 <= i < at ==> #[trigger] text[i] == '.' || 48 <= text[i] as u32 <= 57,
    ensures
        exponent_at(text, from) == at,
    decreases at - from,
{
    if from < at {
        lemma_exponent_at(text, at, from + 1);
        assert('e' as u32 == 101 && 'E' as u32 == 69 && '.' as u32 == 46);
        assert(text[from] == '.' || 48 <= text[from] as u32 <= 57);
    }
}

proof fn lemma_mantissa(text: Seq<char>, whole: Seq<int>, fraction: Seq<int>)
    requires
        is_mantissa(text, whole, fraction),
    ensures
        forall|i: int|
            0 <= i < text.len() ==> #[trigger] text[i] == '.' || 48 <= text[i] as u32 <= 57,
        ({
            let (front, back) = mantissa_parts(text);
            &&& back.len() == fraction.len()
            &&& (front + back).len() > 0
            &&& all_decimal(front + back)
            &&& decimal_nat(front + back) == row(whole + fraction, 10)
        }),
{
    let at = whole.len() as int;
    assert forall|i: int| 0 <= i < text.len() implies #[trigger] text[i] == '.' || 48
        <= text[i] as u32 <= 57 by {
        if i < at {
            assert(0 <= whole[i] <= 9);
            assert(text.take(at)[i] == text[i]);
        } else if i > at {
            assert(0 <= fraction[i - at - 1] <= 9);
            assert(text.skip(at + 1)[i - at - 1] == text[i]);
        }
    }
    lemma_no_point(text, whole, 0, at);
    let (front, back) = mantissa_parts(text);
    let all = whole + fraction;
    assert(back.len() == fraction.len());
    assert forall|i: int| 0 <= i < all.len() implies {
        &&& 0 <= #[trigger] all[i] <= 9
        &&& (front + back)[i] as u32 == 48 + all[i]
    } by {
        if i < at {
            assert(0 <= whole[i] <= 9);
        } else {
            assert(0 <= fraction[i - at] <= 9);
        }
    }
    lemma_decimal_row(front + back, all);
}

proof fn lemma_integer(text: Seq<char>, sign: Option<char>, digits: Seq<int>)
    requires
        is_integer(text, sign, digits),
    ensures
        decimal_int(text) == Some(
            if sign == Some('-') {
                -row(digits, 10)
            } else {
                row(digits, 10)
            },
        ),
{
    let number = if sign is Some {
        text.drop_first()
    } else {
        text
    };
    lemma_decimal_row(number, digits);
    assert(0 <= digits[0] <= 9);
    if sign is None {
        assert(text[0] as u32 == 48 + digits[0]);
        assert('+' as u32 == 43 && '-' as u32 == 45);
    }
    assert(unsigned_part(text) == number);
}

/// An exponent shifts the point: the number in front of it is multiplied by
/// that power of ten, and read as the nearest float.
pub proof fn exponents_shift_the_point(
    text: &str,
    sign: Option<char>,
    whole: Seq<int>,
    fraction: Seq<int>,
    at: int,
    exponent_sign: Option<char>,
    exponent: Seq<int>,
    bits: u64,
    other: int,
)
    requires
        0 <= other < F32_INFINITY,
        ({
            let body = if sign is Some {
                text@.drop_first()
            } else {
                text@
            };
            &&& sign matches Some(c) ==> (c == '+' || c == '-') && text@.len() > 0 && text@[0] == c
            &&& 0 <= at < body.len()
            &&& body[at] == 'e' || body[at] == 'E'
            &&& is_mantissa(body.take(at), whole, fraction)
            &&& is_integer(body.skip(at + 1), exponent_sign, exponent)
        }),
        call_ensures(VType::parse, (VType::F32, text), Some(bits)),
    ensures
        ({
            let power = (if exponent_sign == Some('-') {
                -row(exponent, 10)
            } else {
                row(exponent, 10)
            }) - fraction.len();
            let (num, den) = scaled(row(whole + fraction, 10), power);
            let magnitude = if sign == Some('-') {
                bits - 0x8000_0000
            } else {
                bits as int
            };
            &&& 0 <= magnitude < F32_INFINITY
            &&& distance(num, den, magnitude) <= distance(num, den, other)
            &&& other != magnitude && distance(num, den, magnitude) == distance(num, den, other)
                ==> magnitude % 2 == 0
        }),
{
    let body = if sign is Some {
        text@.drop_first()
    } else {
        text@
    };
    assert('+' as u32 == 43 && '-' as u32 == 45 && '.' as u32 == 46 && 'x' as u32 == 120 && 'e'
        as u32 == 101 && 'E' as u32 == 69);
    let mantissa = body.take(at);
    lemma_mantissa(mantissa, whole, fraction);
    assert forall|i: int| 0 <= i < at implies #[trigger] body[i] == '.' || 48 <= body[i] as u32
        <= 57 by {
        assert(mantissa[i] == body[i]);
    }
    if sign is None {
        assert(mantissa.len() > 0);
        assert(body[0] == text@[0]);
        assert(body[0] == '.' || 48 <= body[0] as u32 <= 57);
    }
    assert(unsigned_part(text@) =~= body);
    assert(!has_hex_prefix(text@)) by {
        if text@.len() >= 2 && sign is None {
            assert(body[1] == text@[1]);
            if at > 1 {
                assert(body[1] == '.' || 48 <= body[1] as u32 <= 57);
            }
        }
    }
    lemma_exponent_at(body, at, 0);
    lemma_integer(body.skip(at + 1), exponent_sign, exponent);
    let power = (if exponent_sign == Some('-') {
        -row(exponent, 10)
    } else {
        row(exponent, 10)
    }) - fraction.len();
    let (front, back) = mantissa_parts(mantissa);
    let digits = decimal_nat(front + back);
    assert(decimal_fraction(text@) == Some((digits, power)));
    denominator_positive(power);
    assert(ten_to(0) == 1);
    let (num, den) = scaled(digits as int, power);
    assert(digits * 1 == digits);
    assert(numerator(digits, power) == num && denominator(power) == den);
    assert(VType::F32.denotes(text@, bits));
    let magnitude = if sign == Some('-') {
        bits - 0x8000_0000
    } else {
        bits as int
    };
    lemma_nearest(numerator(digits, power), denominator(power), magnitude, other);
}

} // verus!
