//! What texts are made of.
use vstd::prelude::*;

use crate::text::{
    decimal_text, fixed_hex, is_space, lower_hex, push_decimal, push_fixed_hex, push_lower_hex,
    push_upper_hex, trim, trim_end, trim_start, trimmed, upper_hex, without_prefix,
};
use crate::trainer::text_laws::row;

verus! {

/// Whether a text is a number in a base, with upper-case or lower-case digits.
pub open spec fn is_number(text: Seq<char>, digits: Seq<int>, base: int, upper: bool) -> bool {
    &&& text.len() == digits.len()
    &&& forall|i: int|
        0 <= i < digits.len() ==> {
            &&& 0 <= #[trigger] digits[i] < base
            &&& text[i] as u32 == if digits[i] < 10 {
                48 + digits[i]
            } else if upper {
                65 + digits[i] - 10
            } else {
                97 + digits[i] - 10
            }
        }
}

/// Whether a row of digits has no zero in front, but for zero itself.
pub open spec fn is_short(digits: Seq<int>) -> bool {
    digits.len() == 1 || (digits.len() > 1 && digits[0] != 0)
}

pub proof fn lemma_digits(value: nat, base: int, upper: bool) -> (digits: Seq<int>)
    requires
        base == 10 || base == 16,
    ensures
        row(digits, base) == value,
        is_short(digits),
        base == 16 && upper ==> is_number(upper_hex(value), digits, 16, true),
        base == 16 && !upper ==> is_number(lower_hex(value), digits, 16, false),
        base == 10 ==> is_number(decimal_text(value), digits, 10, true),
    decreases value,
{
    reveal_with_fuel(row, 3);
    if value < base {
        let digits = seq![value as int];
        assert(digits.drop_last() =~= Seq::<int>::empty());
        digits
    } else {
        let rest = lemma_digits((value / base as nat) as nat, base, upper);
        let last = value as int % base;
        let digits = rest.push(last);
        assert(digits.drop_last() =~= rest);
        assert(row(digits, base) == base * row(rest, base) + last);
        assert(value == base * (value as int / base) + last) by (nonlinear_arith)
            requires
                base > 0,
                last == value as int % base,
        ;
        if rest.len() == 1 {
            assert(row(rest, base) == rest[0]) by {
                assert(rest.drop_last() =~= Seq::<int>::empty());
            }
        }
        let shorter = (value / base as nat) as nat;
        let text = if base == 10 {
            decimal_text(value)
        } else if upper {
            upper_hex(value)
        } else {
            lower_hex(value)
        };
        let before = if base == 10 {
            decimal_text(shorter)
        } else if upper {
            upper_hex(shorter)
        } else {
            lower_hex(shorter)
        };
        assert(text.drop_last() =~= before);
        assert forall|i: int| 0 <= i < digits.len() implies {
            &&& 0 <= #[trigger] digits[i] < base
            &&& text[i] as u32 == if digits[i] < 10 {
                48 + digits[i]
            } else if upper || base == 10 {
                65 + digits[i] - 10
            } else {
                97 + digits[i] - 10
            }
        } by {
            if i < rest.len() {
                assert(0 <= rest[i] < base);
                assert(text[i] == before[i]);
            }
        }
        digits
    }
}

/// Numbers are added to a text in the base that is asked for, without zeros in
/// front, and what the text was stays in front of them.
pub proof fn numbers_are_written_in_their_base(
    upper: &mut String,
    lower: &mut String,
    decimal: &mut String,
    value: u32,
    count: usize,
)
    requires
        call_ensures(push_upper_hex, (upper, value), ()),
        call_ensures(push_lower_hex, (lower, value), ()),
        call_ensures(push_decimal, (decimal, count), ()),
    ensures
        exists|text: Seq<char>, digits: Seq<int>| #[trigger]
            is_number(text, digits, 16, true) && is_short(digits) && row(digits, 16) == value
                && final(upper)@ == old(upper)@ + text,
        exists|text: Seq<char>, digits: Seq<int>| #[trigger]
            is_number(text, digits, 16, false) && is_short(digits) && row(digits, 16) == value
                && final(lower)@ == old(lower)@ + text,
        exists|text: Seq<char>, digits: Seq<int>| #[trigger]
            is_number(text, digits, 10, true) && is_short(digits) && row(digits, 10) == count
                && final(decimal)@ == old(decimal)@ + text,
{
    let a = lemma_digits(value as nat, 16, true);
    let b = lemma_digits(value as nat, 16, false);
    let c = lemma_digits(count as nat, 10, true);
    assert(is_number(upper_hex(value as nat), a, 16, true));
    assert(is_number(lower_hex(value as nat), b, 16, false));
    assert(is_number(decimal_text(count as nat), c, 10, true));
}

/// Sixteen to the power of a number.
pub open spec fn sixteen_to(count: nat) -> int
    decreases count,
{
    if count == 0 {
        1
    } else {
        16 * sixteen_to((count - 1) as nat)
    }
}

pub proof fn lemma_fixed(value: nat, count: nat) -> (digits: Seq<int>)
    ensures
        digits.len() == count,
        is_number(fixed_hex(value, count), digits, 16, true),
        row(digits, 16) == value as int % sixteen_to(count),
        sixteen_to(count) > 0,
    decreases count,
{
    if count == 0 {
        assert(value as int % 1 == 0);
        Seq::empty()
    } else {
        let rest = lemma_fixed(value / 16, (count - 1) as nat);
        let last = value as int % 16;
        let digits = rest.push(last);
        let text = fixed_hex(value, count);
        let before = fixed_hex(value / 16, (count - 1) as nat);
        assert(digits.drop_last() =~= rest);
        assert(text.drop_last() =~= before);
        assert forall|i: int| 0 <= i < digits.len() implies {
            &&& 0 <= #[trigger] digits[i] < 16
            &&& text[i] as u32 == if digits[i] < 10 {
                48 + digits[i]
            } else {
                65 + digits[i] - 10
            }
        } by {
            if i < rest.len() {
                assert(0 <= rest[i] < 16);
                assert(text[i] == before[i]);
            }
        }
        let p = sixteen_to((count - 1) as nat);
        assert(value as int % (16 * p) == 16 * ((value as int / 16) % p) + value as int % 16) by {
            vstd::arithmetic::div_mod::lemma_breakdown(value as int, 16, p);
        }
        digits
    }
}

/// A number in a fixed number of digits is the number as far as it fits.
pub proof fn fixed_numbers_have_all_digits(text: &mut String, value: u32, count: u32)
    requires
        call_ensures(push_fixed_hex, (text, value, count), ()),
    ensures
        exists|own: Seq<char>, digits: Seq<int>| #[trigger]
            is_number(own, digits, 16, true) && digits.len() == count && row(digits, 16)
                == value as int % sixteen_to(count as nat) && final(text)@ == old(text)@ + own,
{
    let digits = lemma_fixed(value as nat, count as nat);
    assert(is_number(fixed_hex(value as nat, count as nat), digits, 16, true));
}

/// Whether a text is another one without the whitespace around it.
pub open spec fn is_trimmed(text: Seq<char>, own: Seq<char>) -> bool {
    exists|a: int, b: int| #[trigger] is_core(text, a, b) && own == text.subrange(a, b)
}

/// Whether what is between two places of a text is what remains without the
/// whitespace around it.
pub open spec fn is_core(text: Seq<char>, a: int, b: int) -> bool {
    &&& 0 <= a <= b <= text.len()
    &&& forall|i: int| 0 <= i < a ==> is_space(#[trigger] text[i])
    &&& forall|i: int| b <= i < text.len() ==> is_space(#[trigger] text[i])
    &&& a < b ==> !is_space(text[a]) && !is_space(text[b - 1])
}

proof fn lemma_trim_start(text: Seq<char>) -> (a: int)
    ensures
        0 <= a <= text.len(),
        trim_start(text) == text.skip(a),
        forall|i: int| 0 <= i < a ==> is_space(#[trigger] text[i]),
        a < text.len() ==> !is_space(text[a]),
    decreases text.len(),
{
    if text.len() > 0 && is_space(text[0]) {
        let rest = lemma_trim_start(text.drop_first());
        assert(text.drop_first().skip(rest) =~= text.skip(rest + 1));
        assert forall|i: int| 0 <= i < rest + 1 implies is_space(#[trigger] text[i]) by {
            if i > 0 {
                assert(text.drop_first()[i - 1] == text[i]);
            }
        }
        rest + 1
    } else {
        assert(text.skip(0) =~= text);
        0
    }
}

proof fn lemma_trim_end(text: Seq<char>) -> (b: int)
    ensures
        0 <= b <= text.len(),
        trim_end(text) == text.take(b),
        forall|i: int| b <= i < text.len() ==> is_space(#[trigger] text[i]),
        b > 0 ==> !is_space(text[b - 1]),
    decreases text.len(),
{
    if text.len() > 0 && is_space(text.last()) {
        let b = lemma_trim_end(text.drop_last());
        assert(text.drop_last().take(b) =~= text.take(b));
        assert forall|i: int| b <= i < text.len() implies is_space(#[trigger] text[i]) by {
            if i < text.len() - 1 {
                assert(text.drop_last()[i] == text[i]);
            }
        }
        b
    } else {
        assert(text.take(text.len() as int) =~= text);
        text.len() as int
    }
}

pub proof fn lemma_trimmed(text: Seq<char>)
    ensures
        is_trimmed(text, trim(text)),
{
    let a = lemma_trim_start(text);
    let rest = text.skip(a);
    let b = lemma_trim_end(rest);
    assert(rest.take(b) =~= text.subrange(a, a + b));
    if b > 0 {
        assert(rest[b - 1] == text[a + b - 1]);
        assert(is_core(text, a, a + b)) by {
            assert forall|i: int| a + b <= i < text.len() implies is_space(#[trigger] text[i]) by {
                assert(rest[i - a] == text[i]);
            }
        }
    } else {
        assert(is_core(text, a, a)) by {
            assert forall|i: int| a <= i < text.len() implies is_space(#[trigger] text[i]) by {
                assert(rest[i - a] == text[i]);
            }
        }
        assert(rest.take(0) =~= text.subrange(a, a));
    }
}

/// Trimming takes away just the whitespace at the start and at the end.
pub proof fn trimming_keeps_the_core(text: &str, result: String)
    requires
        call_ensures(trimmed, (text,), result),
    ensures
        is_trimmed(text@, result@),
{
    lemma_trimmed(text@);
}

/// A prefix is taken away exactly if it is there.
pub proof fn prefixes_are_taken_away(text: &str, prefix: &str, rest: Option<&str>)
    requires
        call_ensures(without_prefix, (text, prefix), rest),
    ensures
        match rest {
            Some(rest) => text@ == prefix@ + rest@,
            None => forall|other: Seq<char>| text@ != #[trigger] (prefix@ + other),
        },
{
    if let Some(rest) = rest {
        assert(text@ =~= text@.take(prefix@.len() as int) + text@.skip(prefix@.len() as int));
    } else {
        assert forall|other: Seq<char>| text@ != #[trigger] (prefix@ + other) by {
            if text@ == prefix@ + other {
                assert(text@.take(prefix@.len() as int) =~= prefix@);
            }
        }
    }
}

} // verus!
