//! Text building blocks: comparison, digits and hexadecimal.
use vstd::prelude::*;

verus! {

/// `String::push`: appends one character at the end.
pub assume_specification[ String::push ](text: &mut String, ch: char)
    ensures
        final(text)@ == old(text)@.push(ch),
;

/// The characters of `text`, in order.
pub fn chars_of(text: &str) -> (chars: Vec<char>)
    ensures
        chars@ == text@,
{
    let mut chars: Vec<char> = Vec::new();
    for ch in it: text.chars()
        invariant
            it.seq() == text@,
            chars@ == text@.take(it.index() as int),
    {
        chars.push(ch);
    }
    assert(text@.take(text@.len() as int) =~= text@);
    chars
}

/// The character at a place.
pub fn char_at(chars: &[char], index: usize) -> (ch: char)
    requires
        index < chars@.len(),
    ensures
        ch == chars@[index as int],
{
    chars[index]
}

/// The text made of `chars`.
pub fn text_of(chars: &[char]) -> (text: String)
    ensures
        text@ == chars@,
{
    text_of_range(chars, 0, chars.len())
}

/// The text made of the characters from `start` up to, not counting, `end`.
pub fn text_of_range(chars: &[char], start: usize, end: usize) -> (text: String)
    requires
        start <= end <= chars@.len(),
    ensures
        text@ == chars@.subrange(start as int, end as int),
{
    let mut text = String::new();
    let mut i: usize = start;
    while i < end
        invariant
            start <= i <= end <= chars@.len(),
            text@ == chars@.subrange(start as int, i as int),
        decreases end - i,
    {
        text.push(chars[i]);
        assert(chars@.subrange(start as int, i + 1) =~= chars@.subrange(
            start as int,
            i as int,
        ).push(chars@[i as int]));
        i += 1;
    }
    text
}

/// Whether two character slices hold the same characters.
pub fn same_chars(left: &[char], right: &[char]) -> (same: bool)
    ensures
        same == (left@ == right@),
{
    if left.len() != right.len() {
        return false;
    }
    let mut i: usize = 0;
    while i < left.len()
        invariant
            i <= left@.len() == right@.len(),
            forall|j: int| 0 <= j < i ==> left@[j] == right@[j],
        decreases left.len() - i,
    {
        if left[i] != right[i] {
            return false;
        }
        i += 1;
    }
    assert(left@ =~= right@);
    true
}

/// Whether two texts are equal.
pub fn same_text(left: &str, right: &str) -> (same: bool)
    ensures
        same == (left@ == right@),
{
    let left_chars = chars_of(left);
    let right_chars = chars_of(right);
    same_chars(&left_chars, &right_chars)
}

/// The lower-case hexadecimal digit of a value below sixteen.
pub open spec fn hex_digit_of(value: int) -> char {
    if value < 10 {
        ('0' as int + value) as char
    } else {
        ('a' as int + value - 10) as char
    }
}

/// The two lower-case hexadecimal digits of a byte.
pub open spec fn hex_byte_text(byte: u8) -> Seq<char> {
    seq![hex_digit_of(byte as int / 16), hex_digit_of(byte as int % 16)]
}

/// The decimal digits of a number, without leading zeros.
pub open spec fn decimal_text(value: nat) -> Seq<char>
    decreases value,
{
    if value < 10 {
        seq![('0' as int + value) as char]
    } else {
        decimal_text(value / 10).push(('0' as int + value % 10) as char)
    }
}

/// The lower-case hexadecimal digit of a value below sixteen.
pub fn hex_digit(value: u8) -> (digit: char)
    requires
        value < 16,
    ensures
        digit == hex_digit_of(value as int),
{
    if value < 10 {
        (48u8 + value) as char
    } else {
        (97u8 + (value - 10)) as char
    }
}

/// Appends the two hexadecimal digits of `byte`.
pub fn push_hex_byte(text: &mut String, byte: u8)
    ensures
        final(text)@ == old(text)@ + hex_byte_text(byte),
{
    text.push(hex_digit(byte / 16));
    text.push(hex_digit(byte % 16));
    assert(text@ =~= old(text)@ + hex_byte_text(byte));
}

/// The decimal digits of `value`.
pub fn decimal(value: u64) -> (text: String)
    ensures
        text@ == decimal_text(value as nat),
    decreases value,
{
    let last: u8 = (value % 10) as u8;
    let digit = (48u8 + last) as char;
    if value < 10 {
        let mut text = String::new();
        text.push(digit);
        assert(text@ =~= decimal_text(value as nat));
        text
    } else {
        let mut text = decimal(value / 10);
        text.push(digit);
        text
    }
}

/// A byte is written as two digits, the upper one first; digits above nine are small letters.
pub proof fn law_bytes_are_two_digits(byte: u8)
    ensures
        hex_byte_text(byte).len() == 2,
        ({
            let upper = hex_byte_text(byte)[0];
            let lower = hex_byte_text(byte)[1];
            &&& ('0' <= upper <= '9' && byte / 16 == upper as int - '0' as int) || ('a' <= upper
                <= 'f' && byte / 16 == upper as int - 'a' as int + 10)
            &&& ('0' <= lower <= '9' && byte % 16 == lower as int - '0' as int) || ('a' <= lower
                <= 'f' && byte % 16 == lower as int - 'a' as int + 10)
        }),
{
}

} // verus!
