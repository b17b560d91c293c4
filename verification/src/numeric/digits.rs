//! Reading numbers from text.
use vstd::prelude::*;

verus! {

/// The value of a decimal digit.
pub open spec fn decimal_digit(c: char) -> Option<nat> {
    let code = c as u32;
    if 48 <= code <= 57 {
        Some((code - 48) as nat)
    } else {
        None
    }
}

/// The value of a hexadecimal digit, in either case.
pub open spec fn hex_digit(c: char) -> Option<nat> {
    let code = c as u32;
    if 48 <= code <= 57 {
        Some((code - 48) as nat)
    } else if 65 <= code <= 70 {
        Some((code - 55) as nat)
    } else if 97 <= code <= 102 {
        Some((code - 87) as nat)
    } else {
        None
    }
}

pub open spec fn all_decimal(text: Seq<char>) -> bool {
    forall|i: int| 0 <= i < text.len() ==> (#[trigger] decimal_digit(text[i])) is Some
}

pub open spec fn all_hex(text: Seq<char>) -> bool {
    forall|i: int| 0 <= i < text.len() ==> (#[trigger] hex_digit(text[i])) is Some
}

/// The number that a row of decimal digits denotes.
pub open spec fn decimal_nat(digits: Seq<char>) -> nat
    decreases digits.len(),
{
    if digits.len() == 0 {
        0
    } else {
        10 * decimal_nat(digits.drop_last()) + decimal_digit(digits.last()).unwrap()
    }
}

/// The number that a row of hexadecimal digits denotes.
pub open spec fn hex_nat(digits: Seq<char>) -> nat
    decreases digits.len(),
{
    if digits.len() == 0 {
        0
    } else {
        16 * hex_nat(digits.drop_last()) + hex_digit(digits.last()).unwrap()
    }
}

/// Whether the text starts with a sign.
pub open spec fn has_sign(text: Seq<char>) -> bool {
    text.len() > 0 && (text[0] == '+' || text[0] == '-')
}

/// The text without its sign.
pub open spec fn unsigned_part(text: Seq<char>) -> Seq<char> {
    if has_sign(text) {
        text.drop_first()
    } else {
        text
    }
}

pub open spec fn is_negative(text: Seq<char>) -> bool {
    text.len() > 0 && text[0] == '-'
}

/// The integer that a text denotes in decimal: an optional sign and at least
/// one digit.
pub open spec fn decimal_int(text: Seq<char>) -> Option<int> {
    let digits = unsigned_part(text);
    if digits.len() == 0 || !all_decimal(digits) {
        None
    } else if is_negative(text) {
        Some(-(decimal_nat(digits) as int))
    } else {
        Some(decimal_nat(digits) as int)
    }
}

/// The number that a text denotes in hexadecimal: `0x` and at least one digit.
pub open spec fn hex_bits(text: Seq<char>) -> Option<nat> {
    if has_hex_prefix(text) && text.len() > 2 && all_hex(text.skip(2)) {
        Some(hex_nat(text.skip(2)))
    } else {
        None
    }
}

pub open spec fn has_hex_prefix(text: Seq<char>) -> bool {
    text.len() >= 2 && text[0] == '0' && text[1] == 'x'
}

/// The characters of a text.
pub fn chars_of(text: &str) -> (chars: Vec<char>)
    ensures
        chars@ == text@,
{
    let count: usize = text.unicode_len();
    let mut chars: Vec<char> = Vec::new();
    let mut i: usize = 0;
    while i < count
        invariant
            i <= count,
            count == text@.len(),
            chars@ == text@.take(i as int),
        decreases count - i,
    {
        let c: char = text.get_char(i);
        chars.push(c);
        assert(chars@ =~= text@.take(i + 1));
        i = i + 1;
    }
    assert(text@.take(count as int) =~= text@);
    chars
}

pub fn decimal_digit_value(c: char) -> (digit: Option<u32>)
    ensures
        digit is Some <==> decimal_digit(c) is Some,
        digit matches Some(d) ==> d == decimal_digit(c).unwrap() && d < 10,
{
    let code: u32 = c as u32;
    if code >= 48 && code <= 57 {
        Some(code - 48)
    } else {
        None
    }
}

pub fn hex_digit_value(c: char) -> (digit: Option<u32>)
    ensures
        digit is Some <==> hex_digit(c) is Some,
        digit matches Some(d) ==> d == hex_digit(c).unwrap() && d < 16,
{
    let code: u32 = c as u32;
    if code >= 48 && code <= 57 {
        Some(code - 48)
    } else if code >= 65 && code <= 70 {
        Some(code - 55)
    } else if code >= 97 && code <= 102 {
        Some(code - 87)
    } else {
        None
    }
}

/// Reads the decimal digits in `start..end`. A number above the limit comes
/// out as the limit plus one.
pub fn read_decimal(
    chars: &Vec<char>,
    start: usize,
    end: usize,
    limit: u128,
) -> (value: Option<u128>)
    requires
        start <= end <= chars@.len(),
        limit < 0x1_0000_0000_0000_0000_0000_0000,
    ensures
        value is Some <==> start < end && all_decimal(chars@.subrange(start as int, end as int)),
        value matches Some(v) ==> {
            let exact = decimal_nat(chars@.subrange(start as int, end as int));
            v == if exact <= limit {
                exact
            } else {
                (limit + 1) as nat
            }
        },
{
    if start >= end {
        return None;
    }
    let ghost digits = chars@.subrange(start as int, end as int);
    let mut value: u128 = 0;
    let mut i: usize = start;
    assert(digits.take(0) =~= Seq::empty());
    while i < end
        invariant
            start <= i <= end <= chars@.len(),
            limit < 0x1_0000_0000_0000_0000_0000_0000,
            digits == chars@.subrange(start as int, end as int),
            all_decimal(digits.take(i - start)),
            value == if decimal_nat(digits.take(i - start)) <= limit {
                decimal_nat(digits.take(i - start))
            } else {
                (limit + 1) as nat
            },
        decreases end - i,
    {
        let c: char = chars[i];
        let ghost seen = digits.take(i - start);
        let ghost longer = digits.take(i - start + 1);
        proof {
            assert(longer.drop_last() =~= seen);
            assert(longer.last() == c);
            assert(digits[i - start] == c);
        }
        match decimal_digit_value(c) {
            None => {
                return None;
            },
            Some(digit) => {
                if value > limit {
                    proof {
                        assert(decimal_nat(longer) > limit);
                    }
                } else {
                    value = 10 * value + digit as u128;
                    if value > limit {
                        value = limit + 1;
                    }
                }
                proof {
                    assert forall|k: int| 0 <= k < longer.len() implies (#[trigger] decimal_digit(
                        longer[k],
                    )) is Some by {
                        if k < seen.len() {
                            assert(longer[k] == seen[k]);
                        }
                    }
                }
            },
        }
        i = i + 1;
    }
    assert(digits.take(end - start) =~= digits);
    Some(value)
}

/// Reads the hexadecimal digits from `start` on. A number above the limit
/// comes out as the limit plus one.
pub fn read_hex(chars: &Vec<char>, start: usize, limit: u64) -> (value: Option<u64>)
    requires
        start <= chars@.len(),
        limit < 0x0800_0000_0000_0000,
    ensures
        value is Some <==> start < chars@.len() && all_hex(chars@.skip(start as int)),
        value matches Some(v) ==> {
            let exact = hex_nat(chars@.skip(start as int));
            v == if exact <= limit {
                exact
            } else {
                (limit + 1) as nat
            }
        },
{
    let end: usize = chars.len();
    if start >= end {
        return None;
    }
    let ghost digits = chars@.skip(start as int);
    let mut value: u64 = 0;
    let mut i: usize = start;
    assert(digits.take(0) =~= Seq::empty());
    while i < end
        invariant
            start <= i <= end,
            end == chars@.len(),
            limit < 0x0800_0000_0000_0000,
            digits == chars@.skip(start as int),
            all_hex(digits.take(i - start)),
            value == if hex_nat(digits.take(i - start)) <= limit {
                hex_nat(digits.take(i - start))
            } else {
                (limit + 1) as nat
            },
        decreases end - i,
    {
        let c: char = chars[i];
        let ghost seen = digits.take(i - start);
        let ghost longer = digits.take(i - start + 1);
        proof {
            assert(longer.drop_last() =~= seen);
            assert(longer.last() == c);
            assert(digits[i - start] == c);
        }
        match hex_digit_value(c) {
            None => {
                return None;
            },
            Some(digit) => {
                if value > limit {
                    proof {
                        assert(hex_nat(longer) > limit);
                    }
                } else {
                    value = 16 * value + digit as u64;
                    if value > limit {
                        value = limit + 1;
                    }
                }
                proof {
                    assert forall|k: int| 0 <= k < longer.len() implies (#[trigger] hex_digit(
                        longer[k],
                    )) is Some by {
                        if k < seen.len() {
                            assert(longer[k] == seen[k]);
                        }
                    }
                }
            },
        }
        i = i + 1;
    }
    assert(digits.take(end - start) =~= digits);
    Some(value)
}

} // verus!
