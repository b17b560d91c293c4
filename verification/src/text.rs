//! Text: what the library takes from the standard library, and helpers.
use vstd::prelude::*;

use crate::numeric::digits::chars_of;
use vstd::utf8::{decode_utf8, encode_utf8, encode_utf8_decode_utf8, is_scalar, valid_utf8};

verus! {

/// The reason for which bytes are not UTF-8. Nothing looks inside.
#[verifier::external_type_specification]
#[verifier::external_body]
pub struct ExUtf8Error(std::str::Utf8Error);

/// [std::str::from_utf8]: a string of the same bytes where they are valid
/// UTF-8, an error otherwise.
pub assume_specification[ std::str::from_utf8 ](v: &[u8]) -> (text: Result<
    &str,
    std::str::Utf8Error,
>)
    ensures
        text is Ok <==> valid_utf8(v@),
        text matches Ok(s) ==> s@ == decode_utf8(v@),
;

/// [std::char::from_u32]: the character with the given code, where the code is
/// a Unicode scalar value.
pub assume_specification[ std::char::from_u32 ](code: u32) -> (c: Option<char>)
    ensures
        c is Some <==> is_scalar(code),
        c matches Some(c) ==> c as u32 == code,
;

/// [String::push]: one more character at the end.
pub assume_specification[ String::push ](text: &mut String, c: char)
    ensures
        final(text)@ == old(text)@.push(c),
;

/// [String::pop]: the last character, which is taken away.
pub assume_specification[ String::pop ](text: &mut String) -> (c: Option<char>)
    ensures
        old(text)@.len() == 0 ==> c is None && final(text)@ == old(text)@,
        old(text)@.len() > 0 ==> c == Some(old(text)@.last()) && final(text)@
            == old(text)@.drop_last(),
;

/// Whether a character is whitespace, going by the Unicode property
/// `White_Space`.
pub open spec fn is_space(c: char) -> bool {
    let code = c as u32;
    ||| 0x9 <= code <= 0xd
    ||| code == 0x20
    ||| code == 0x85
    ||| code == 0xa0
    ||| code == 0x1680
    ||| 0x2000 <= code <= 0x200a
    ||| code == 0x2028
    ||| code == 0x2029
    ||| code == 0x202f
    ||| code == 0x205f
    ||| code == 0x3000
}

fn is_whitespace(c: char) -> (yes: bool)
    ensures
        yes == is_space(c),
{
    let code: u32 = c as u32;
    (code >= 0x9 && code <= 0xd) || code == 0x20 || code == 0x85 || code == 0xa0 || code == 0x1680
        || (code >= 0x2000 && code <= 0x200a) || code == 0x2028 || code == 0x2029 || code == 0x202f
        || code == 0x205f || code == 0x3000
}

/// The text without the whitespace at its start.
pub open spec fn trim_start(text: Seq<char>) -> Seq<char>
    decreases text.len(),
{
    if text.len() > 0 && is_space(text[0]) {
        trim_start(text.drop_first())
    } else {
        text
    }
}

/// The text without the whitespace at its end.
pub open spec fn trim_end(text: Seq<char>) -> Seq<char>
    decreases text.len(),
{
    if text.len() > 0 && is_space(text.last()) {
        trim_end(text.drop_last())
    } else {
        text
    }
}

/// The text without the whitespace around it.
pub open spec fn trim(text: Seq<char>) -> Seq<char> {
    trim_end(trim_start(text))
}

/// A copy of the text without the whitespace around it.
pub fn trimmed(text: &str) -> (result: String)
    ensures
        result@ == trim(text@),
{
    let chars = chars_of(text);
    let mut start: usize = 0;
    assert(text@.skip(0) =~= text@);
    while start < chars.len() && is_whitespace(chars[start])
        invariant
            chars@ == text@,
            start <= chars@.len(),
            trim_start(text@) == trim_start(text@.skip(start as int)),
        decreases chars@.len() - start,
    {
        assert(text@.skip(start as int).drop_first() =~= text@.skip(start + 1));
        start = start + 1;
    }
    assert(trim_start(text@) == text@.skip(start as int));
    let mut end: usize = chars.len();
    assert(text@.subrange(start as int, end as int) =~= text@.skip(start as int));
    while end > start && is_whitespace(chars[end - 1])
        invariant
            chars@ == text@,
            start <= end <= chars@.len(),
            trim(text@) == trim_end(text@.subrange(start as int, end as int)),
        decreases end,
    {
        assert(text@.subrange(start as int, end as int).drop_last() =~= text@.subrange(
            start as int,
            end - 1,
        ));
        end = end - 1;
    }
    assert(trim(text@) == text@.subrange(start as int, end as int));
    let mut result = String::new();
    let mut i: usize = start;
    while i < end
        invariant
            chars@ == text@,
            start <= i <= end <= chars@.len(),
            result@ == text@.subrange(start as int, i as int),
        decreases end - i,
    {
        result.push(chars[i]);
        assert(result@ =~= text@.subrange(start as int, i + 1));
        i = i + 1;
    }
    result
}

/// The upper-case hexadecimal digit of a value below sixteen.
pub open spec fn upper_digit(value: nat) -> char {
    if value < 10 {
        ((48 + value) as u8) as char
    } else {
        ((55 + value) as u8) as char
    }
}

/// A number in upper-case hexadecimal, without leading zeros.
pub open spec fn upper_hex(value: nat) -> Seq<char>
    decreases value,
{
    if value < 16 {
        seq![upper_digit(value)]
    } else {
        upper_hex(value / 16).push(upper_digit(value % 16))
    }
}

/// Adds a number in upper-case hexadecimal to a text.
pub fn push_upper_hex(text: &mut String, value: u32)
    ensures
        final(text)@ == old(text)@ + upper_hex(value as nat),
    decreases value,
{
    if value >= 16 {
        push_upper_hex(text, value / 16);
    }
    let digit: u32 = value % 16;
    let code: u8 = if digit < 10 {
        (48 + digit) as u8
    } else {
        (55 + digit) as u8
    };
    text.push(code as char);
    assert(text@ =~= old(text)@ + upper_hex(value as nat));
}

/// Whether two texts are the same.
pub fn same_text(a: &str, b: &str) -> (same: bool)
    ensures
        same == (a@ == b@),
{
    let a_bytes = a.as_bytes();
    let b_bytes = b.as_bytes();
    if a_bytes.len() != b_bytes.len() {
        return false;
    }
    let mut i: usize = 0;
    while i < a_bytes.len()
        invariant
            i <= a_bytes@.len(),
            a_bytes@.len() == b_bytes@.len(),
            a_bytes@ == encode_utf8(a@),
            b_bytes@ == encode_utf8(b@),
            forall|k: int| 0 <= k < i ==> a_bytes@[k] == b_bytes@[k],
        decreases a_bytes@.len() - i,
    {
        if a_bytes[i] != b_bytes[i] {
            return false;
        }
        i = i + 1;
    }
    proof {
        assert(a_bytes@ =~= b_bytes@);
        encode_utf8_decode_utf8(a@);
        encode_utf8_decode_utf8(b@);
    }
    true
}

/// What follows a prefix of a text.
pub open spec fn after_prefix(text: Seq<char>, prefix: Seq<char>) -> Option<Seq<char>> {
    if prefix.len() <= text.len() && text.take(prefix.len() as int) == prefix {
        Some(text.skip(prefix.len() as int))
    } else {
        None
    }
}

/// What follows a prefix of a text, if the text has it.
pub fn without_prefix<'a>(text: &'a str, prefix: &str) -> (rest: Option<&'a str>)
    ensures
        match rest {
            Some(rest) => after_prefix(text@, prefix@) == Some(rest@),
            None => after_prefix(text@, prefix@) is None,
        },
{
    let text_len: usize = text.unicode_len();
    let prefix_len: usize = prefix.unicode_len();
    if prefix_len > text_len {
        return None;
    }
    if !same_text(text.substring_char(0, prefix_len), prefix) {
        assert(text@.subrange(0, prefix_len as int) =~= text@.take(prefix_len as int));
        return None;
    }
    assert(text@.subrange(0, prefix_len as int) =~= text@.take(prefix_len as int));
    assert(text@.subrange(prefix_len as int, text_len as int) =~= text@.skip(prefix_len as int));
    Some(text.substring_char(prefix_len, text_len))
}

/// The part of a path after its last slash.
pub open spec fn file_name(path: Seq<char>) -> Seq<char>
    decreases path.len(),
{
    if path.len() == 0 || path.last() == '/' {
        Seq::empty()
    } else {
        file_name(path.drop_last()).push(path.last())
    }
}

/// The part of a path after its last slash.
pub fn last_component(path: &str) -> (name: &str)
    ensures
        name@ == file_name(path@),
{
    let chars = chars_of(path);
    let count: usize = chars.len();
    let mut start: usize = count;
    assert(path@.take(count as int) =~= path@);
    assert(path@.skip(count as int) =~= Seq::empty());
    assert(file_name(path@) =~= file_name(path@.take(count as int)) + path@.skip(count as int));
    while start > 0 && chars[start - 1] != '/'
        invariant
            chars@ == path@,
            count == chars@.len(),
            start <= count,
            file_name(path@) == file_name(path@.take(start as int)) + path@.skip(start as int),
        decreases start,
    {
        proof {
            let seen = path@.take(start as int);
            assert(seen.drop_last() =~= path@.take(start - 1));
            assert(seen.last() == path@[start - 1]);
            assert(file_name(seen) + path@.skip(start as int) =~= file_name(path@.take(start - 1))
                + path@.skip(start - 1));
        }
        start = start - 1;
    }
    proof {
        let seen = path@.take(start as int);
        if start > 0 {
            assert(seen.last() == '/');
        }
        assert(file_name(seen) =~= Seq::empty());
        assert(path@.subrange(start as int, count as int) =~= path@.skip(start as int));
        assert(file_name(path@) =~= path@.skip(start as int));
    }
    path.substring_char(start, count)
}

/// The lower-case hexadecimal digit of a value below sixteen.
pub open spec fn lower_digit(value: nat) -> char {
    if value < 10 {
        ((48 + value) as u8) as char
    } else {
        ((87 + value) as u8) as char
    }
}

/// A number in lower-case hexadecimal, without leading zeros.
pub open spec fn lower_hex(value: nat) -> Seq<char>
    decreases value,
{
    if value < 16 {
        seq![lower_digit(value)]
    } else {
        lower_hex(value / 16).push(lower_digit(value % 16))
    }
}

/// Adds a number in lower-case hexadecimal to a text.
pub fn push_lower_hex(text: &mut String, value: u32)
    ensures
        final(text)@ == old(text)@ + lower_hex(value as nat),
    decreases value,
{
    if value >= 16 {
        push_lower_hex(text, value / 16);
    }
    let digit: u32 = value % 16;
    let code: u8 = if digit < 10 {
        (48 + digit) as u8
    } else {
        (87 + digit) as u8
    };
    text.push(code as char);
    assert(text@ =~= old(text)@ + lower_hex(value as nat));
}

/// The lowest `count` hexadecimal digits of a number, in upper case.
pub open spec fn fixed_hex(value: nat, count: nat) -> Seq<char>
    decreases count,
{
    if count == 0 {
        Seq::empty()
    } else {
        fixed_hex(value / 16, (count - 1) as nat).push(upper_digit(value % 16))
    }
}

/// Adds the lowest `count` hexadecimal digits of a number to a text.
pub fn push_fixed_hex(text: &mut String, value: u32, count: u32)
    ensures
        final(text)@ == old(text)@ + fixed_hex(value as nat, count as nat),
    decreases count,
{
    if count == 0 {
        assert(text@ =~= old(text)@ + fixed_hex(value as nat, 0));
        return ;
    }
    push_fixed_hex(text, value / 16, count - 1);
    let digit: u32 = value % 16;
    let code: u8 = if digit < 10 {
        (48 + digit) as u8
    } else {
        (55 + digit) as u8
    };
    text.push(code as char);
    assert(text@ =~= old(text)@ + fixed_hex(value as nat, count as nat));
}

/// A number in decimal.
pub open spec fn decimal_text(value: nat) -> Seq<char>
    decreases value,
{
    if value < 10 {
        seq![upper_digit(value)]
    } else {
        decimal_text(value / 10).push(upper_digit(value % 10))
    }
}

/// Adds a number in decimal to a text.
pub fn push_decimal(text: &mut String, value: usize)
    ensures
        final(text)@ == old(text)@ + decimal_text(value as nat),
    decreases value,
{
    if value >= 10 {
        push_decimal(text, value / 10);
    }
    let code: u8 = 48 + (value % 10) as u8;
    text.push(code as char);
    assert(text@ =~= old(text)@ + decimal_text(value as nat));
}

} // verus!
