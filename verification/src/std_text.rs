//! Text functions of the standard library that are called as they are.
use vstd::prelude::*;

verus! {

/// The text in small letters, by Unicode.
pub uninterp spec fn lowercase_text(text: Seq<char>) -> Seq<char>;

/// `str::to_lowercase`: the text in small letters, by Unicode. Text of ASCII characters alone
/// has its letters from A to Z made small and is otherwise as it was.
#[verifier::external_body]
pub(crate) fn lowercase(text: &str) -> (small: String)
    ensures
        small@ == lowercase_text(text@),
        vstd::utf8::is_ascii_chars(text@) ==> small@ == crate::scan::lowered(text@),
{
    text.to_lowercase()
}

/// The number that decimal digits are.
pub open spec fn decimal_value(digits: Seq<char>) -> nat
    decreases digits.len(),
{
    if digits.len() == 0 {
        0
    } else {
        decimal_value(digits.drop_last()) * 10 + (digits.last() as nat - '0' as nat) as nat
    }
}

/// Whether every character is a decimal digit.
pub open spec fn all_digits(text: Seq<char>) -> bool {
    forall|i: int| 0 <= i < text.len() ==> crate::scan::is_digit(#[trigger] text[i])
}

/// The digits of a number, behind the sign where there is one.
pub open spec fn unsigned_digits(text: Seq<char>) -> Seq<char> {
    if text.len() > 0 && text[0] == '+' {
        text.skip(1)
    } else {
        text
    }
}

/// The number that some text is: digits, with or without a plus sign before them, that make a
/// number that fits.
pub open spec fn u8_of(text: Seq<char>) -> Option<u8> {
    let digits = unsigned_digits(text);
    if digits.len() > 0 && all_digits(digits) && decimal_value(digits) <= u8::MAX {
        Some(decimal_value(digits) as u8)
    } else {
        None
    }
}

/// What is said of text that is no such number.
pub uninterp spec fn parse_u8_failure(text: Seq<char>) -> Seq<char>;

/// `str::parse::<u8>`: the number that the text is, a plus sign or none followed by digits
/// alone, where it fits; else an error, whose text is a function of the text alone.
#[verifier::external_body]
pub(crate) fn parse_u8(text: &str) -> (parsed: Result<u8, String>)
    ensures
        parsed is Ok == (u8_of(text@) is Some),
        parsed is Ok ==> u8_of(text@) == Some(parsed->Ok_0),
        parsed is Err ==> parsed->Err_0@ == parse_u8_failure(text@),
{
    match text.parse::<u8>() {
        Ok(value) => Ok(value),
        Err(error) => Err(error.to_string()),
    }
}

proof fn lemma_decimal_text(value: nat)
    ensures
        decimal_value(crate::text::decimal_text(value)) == value,
        all_digits(crate::text::decimal_text(value)),
        crate::text::decimal_text(value).len() > 0,
        value > 0 ==> crate::text::decimal_text(value)[0] != '0',
    decreases value,
{
    let text = crate::text::decimal_text(value);
    if value < 10 {
        assert(text.drop_last() =~= Seq::<char>::empty());
        assert(decimal_value(text.drop_last()) == 0);
    } else {
        let rest = crate::text::decimal_text(value / 10);
        lemma_decimal_text(value / 10);
        assert(text.drop_last() =~= rest);
        assert forall|i: int| 0 <= i < text.len() implies crate::scan::is_digit(
            #[trigger] text[i],
        ) by {
            if i < rest.len() {
                assert(text[i] == rest[i]);
            }
        }
        assert(text[0] == rest[0]);
    }
}

/// A number that is written in digits is read as it was; it has no zero in front. The numbers
/// that fit are read with and without a plus sign.
pub proof fn law_written_number_is_read(value: nat)
    ensures
        decimal_value(crate::text::decimal_text(value)) == value,
        all_digits(crate::text::decimal_text(value)),
        value > 0 ==> crate::text::decimal_text(value)[0] != '0',
        value <= 255 ==> u8_of(crate::text::decimal_text(value)) == Some(value as u8),
        value <= 255 ==> u8_of(seq!['+'] + crate::text::decimal_text(value)) == Some(value as u8),
        value > 255 ==> u8_of(crate::text::decimal_text(value)) is None,
{
    lemma_decimal_text(value);
    let text = crate::text::decimal_text(value);
    assert(crate::scan::is_digit(text[0]));
    assert((seq!['+'] + text).skip(1) =~= text);
}

/// Only digits, behind at most one sign, are a number.
pub proof fn law_numbers_are_digits(text: Seq<char>)
    ensures
        u8_of(text) is Some ==> unsigned_digits(text).len() > 0 && forall|i: int|
            0 <= i < unsigned_digits(text).len() ==> '0' <= (#[trigger] unsigned_digits(text)[i])
                <= '9',
        text.len() == 0 ==> u8_of(text) is None,
{
    if u8_of(text) is Some {
        assert forall|i: int| 0 <= i < unsigned_digits(text).len() implies '0' <= (
        #[trigger] unsigned_digits(text)[i]) <= '9' by {
            assert(crate::scan::is_digit(unsigned_digits(text)[i]));
        }
    }
}

} // verus!
