//! Identity hashes and other bytes as hexadecimal text.
use crate::identity::IdentityHash;
use crate::scan::hex_digit_value;
use crate::text::{char_at, chars_of, decimal, push_hex_byte, text_of};
use vstd::prelude::*;

verus! {

/// Whether every character is a hexadecimal digit.
pub open spec fn all_hex(text: Seq<char>) -> bool {
    forall|i: int| 0 <= i < text.len() ==> crate::scan::is_hex(#[trigger] text[i])
}

/// Whether some text is that of an identity hash: 32 hexadecimal digits.
pub open spec fn is_hash_text(text: Seq<char>) -> bool {
    text.len() == 32 && all_hex(text)
}

/// The byte that two hexadecimal digits are.
pub open spec fn byte_at(text: Seq<char>, index: int) -> u8 {
    (16 * crate::scan::hex_value(text[2 * index]) + crate::scan::hex_value(
        text[2 * index + 1],
    )) as u8
}

/// The bytes that hexadecimal digits are, two for each byte.
pub open spec fn hex_bytes(text: Seq<char>) -> Seq<u8> {
    Seq::new(text.len() / 2, |i: int| byte_at(text, i))
}

/// Writes the bytes that hexadecimal digits are into `out`, which must be half as long as the
/// text.
pub fn decode_hex_into(text: &[char], out: &mut [u8]) -> (decoded: Result<(), String>)
    requires
        all_hex(text@),
        old(out)@.len() * 2 <= usize::MAX,
    ensures
        final(out)@.len() == old(out)@.len(),
        match decoded {
            Ok(_) => text@.len() == 2 * old(out)@.len() && final(out)@ == hex_bytes(text@),
            Err(error) => {
                &&& text@.len() != 2 * old(out)@.len()
                &&& error@ == "invalid hex length "@ + crate::text::decimal_text(text@.len())
                &&& final(out)@ == old(out)@
            },
        },
{
    if text.len() != out.len() * 2 {
        return Err("invalid hex length ".to_owned().concat(decimal(text.len() as u64).as_str()));
    }
    let mut i: usize = 0;
    while i < out.len()
        invariant
            i <= out@.len(),
            out@.len() == old(out)@.len(),
            text@.len() == 2 * out@.len(),
            2 * out@.len() <= usize::MAX,
            all_hex(text@),
            forall|j: int| 0 <= j < i ==> out@[j] == byte_at(text@, j),
        decreases out.len() - i,
    {
        let high = match hex_digit_value(char_at(text, 2 * i)) {
            Some(value) => value,
            None => 0,
        };
        let low = match hex_digit_value(char_at(text, 2 * i + 1)) {
            Some(value) => value,
            None => 0,
        };
        assert(crate::scan::is_hex(text@[2 * i as int]));
        assert(crate::scan::is_hex(text@[2 * i + 1]));
        out[i] = 16 * high + low;
        i += 1;
    }
    assert(out@ =~= hex_bytes(text@));
    Ok(())
}

/// Whether every character is a hexadecimal digit.
pub fn is_all_hex(text: &[char]) -> (all: bool)
    ensures
        all == all_hex(text@),
{
    let mut i: usize = 0;
    while i < text.len()
        invariant
            i <= text@.len(),
            forall|j: int| 0 <= j < i ==> crate::scan::is_hex(#[trigger] text@[j]),
        decreases text.len() - i,
    {
        if hex_digit_value(char_at(text, i)).is_none() {
            assert(!crate::scan::is_hex(text@[i as int]));
            return false;
        }
        i += 1;
    }
    true
}

/// Reads an identity hash.
pub fn parse_hash_chars(text: &[char]) -> (hash: Result<IdentityHash, String>)
    ensures
        match hash {
            Ok(hash) => is_hash_text(text@) && hash@ == hex_bytes(text@),
            Err(error) => !is_hash_text(text@) && error@ == "invalid identity hash "@ + text@,
        },
{
    if text.len() != 32 || !is_all_hex(text) {
        return Err("invalid identity hash ".to_owned().concat(text_of(text).as_str()));
    }
    let mut bytes: [u8; 16] = [0u8; 16];
    match decode_hex_into(text, &mut bytes) {
        Ok(()) => Ok(bytes),
        Err(error) => Err(error),
    }
}

/// Reads an identity hash.
pub fn parse_hash(value: &str) -> (hash: Result<IdentityHash, String>)
    ensures
        match hash {
            Ok(hash) => is_hash_text(value@) && hash@ == hex_bytes(value@),
            Err(error) => !is_hash_text(value@) && error@ == "invalid identity hash "@ + value@,
        },
{
    let chars = chars_of(value);
    parse_hash_chars(&chars)
}

/// Bytes as hexadecimal text, two small digits for each.
pub open spec fn hex_text(bytes: Seq<u8>) -> Seq<char>
    decreases bytes.len(),
{
    if bytes.len() == 0 {
        Seq::empty()
    } else {
        hex_text(bytes.drop_last()) + crate::text::hex_byte_text(bytes.last())
    }
}

/// Bytes as hexadecimal text.
pub fn hex(bytes: &[u8]) -> (text: String)
    ensures
        text@ == hex_text(bytes@),
{
    let mut text = String::new();
    let mut i: usize = 0;
    assert(text@ =~= hex_text(bytes@.take(0)));
    while i < bytes.len()
        invariant
            i <= bytes@.len(),
            text@ == hex_text(bytes@.take(i as int)),
        decreases bytes.len() - i,
    {
        assert(bytes@.take(i + 1).drop_last() =~= bytes@.take(i as int));
        push_hex_byte(&mut text, bytes[i]);
        i += 1;
    }
    assert(bytes@.take(i as int) =~= bytes@);
    text
}

/// Bytes as hexadecimal text in angle brackets.
pub open spec fn pretty_text(bytes: Seq<u8>) -> Seq<char> {
    "<"@ + hex_text(bytes) + ">"@
}

/// Bytes as hexadecimal text in angle brackets.
pub fn pretty_hash(bytes: &[u8]) -> (text: String)
    ensures
        text@ == pretty_text(bytes@),
{
    "<".to_owned().concat(hex(bytes).as_str()).concat(">")
}

/// What is said of the identity of this telephone.
pub fn identity_status(identity_hash: &[u8]) -> (text: String)
    ensures
        text@ == "Identity hash of this telephone: "@ + pretty_text(identity_hash@) + "\n"@,
{
    "Identity hash of this telephone: ".to_owned().concat(
        pretty_hash(identity_hash).as_str(),
    ).concat("\n")
}

/// What is said of the destination of this telephone.
pub fn destination_status(destination_hash: &[u8]) -> (text: String)
    ensures
        text@ == "Destination hash of this telephone: "@ + pretty_text(destination_hash@) + "\n"@,
{
    "Destination hash of this telephone: ".to_owned().concat(
        pretty_hash(destination_hash).as_str(),
    ).concat("\n")
}

proof fn lemma_hex_text(bytes: Seq<u8>)
    ensures
        hex_text(bytes).len() == 2 * bytes.len(),
        forall|i: int|
            0 <= i < bytes.len() ==> #[trigger] byte_at(hex_text(bytes), i) == bytes[i],
        all_hex(hex_text(bytes)),
    decreases bytes.len(),
{
    let text = hex_text(bytes);
    if bytes.len() > 0 {
        let rest = bytes.drop_last();
        let before = hex_text(rest);
        let last = crate::text::hex_byte_text(bytes.last());
        lemma_hex_text(rest);
        assert(text == before + last);
        assert forall|i: int| 0 <= i < bytes.len() implies #[trigger] byte_at(text, i)
            == bytes[i] by {
            if i < rest.len() {
                assert(byte_at(before, i) == rest[i]);
                assert(text[2 * i] == before[2 * i]);
                assert(text[2 * i + 1] == before[2 * i + 1]);
            } else {
                let byte = bytes.last() as int;
                assert(text[2 * i] == last[0]);
                assert(text[2 * i + 1] == last[1]);
                lemma_hex_digit(byte / 16);
                lemma_hex_digit(byte % 16);
                assert(16 * (byte / 16) + byte % 16 == byte);
            }
        }
        assert forall|i: int| 0 <= i < text.len() implies crate::scan::is_hex(
            #[trigger] text[i],
        ) by {
            if i < before.len() {
                assert(text[i] == before[i]);
            } else {
                let byte = bytes.last() as int;
                lemma_hex_digit(byte / 16);
                lemma_hex_digit(byte % 16);
                assert(text[i] == last[i - before.len()]);
            }
        }
    }
}

proof fn lemma_hex_digit(value: int)
    requires
        0 <= value < 16,
    ensures
        crate::scan::is_hex(crate::text::hex_digit_of(value)),
        crate::scan::hex_value(crate::text::hex_digit_of(value)) == value,
{
}

/// A hash that is written as text is read back as it was.
pub proof fn law_hash_text_round_trip(bytes: Seq<u8>)
    requires
        bytes.len() == 16,
    ensures
        is_hash_text(hex_text(bytes)),
        hex_bytes(hex_text(bytes)) == bytes,
{
    lemma_hex_text(bytes);
    assert(hex_bytes(hex_text(bytes)) =~= bytes);
}

/// Two byte sequences that look the same as text are the same.
pub proof fn law_hex_text_tells_bytes_apart(left: Seq<u8>, right: Seq<u8>)
    requires
        hex_text(left) == hex_text(right),
    ensures
        left == right,
{
    lemma_hex_text(left);
    lemma_hex_text(right);
    assert forall|i: int| 0 <= i < left.len() implies left[i] == right[i] by {
        assert(byte_at(hex_text(left), i) == left[i]);
        assert(byte_at(hex_text(right), i) == right[i]);
    }
    assert(left =~= right);
}

/// Bytes are written one behind another, two digits each; the form for people stands in angle
/// brackets.
pub proof fn law_bytes_are_written_in_order(left: Seq<u8>, right: Seq<u8>)
    ensures
        hex_text(left + right) == hex_text(left) + hex_text(right),
        hex_text(left).len() == 2 * left.len(),
        pretty_text(left).len() == 2 * left.len() + 2,
        pretty_text(left)[0] == '<',
        pretty_text(left).last() == '>',
        pretty_text(left).subrange(1, 2 * left.len() as int + 1) == hex_text(left),
    decreases left.len() + right.len(),
{
    reveal_strlit("<");
    reveal_strlit(">");
    if left.len() > 0 {
        law_bytes_are_written_in_order(left.drop_last(), Seq::empty());
    }
    if right.len() == 0 {
        assert(left + right =~= left);
        assert(hex_text(left) + hex_text(right) =~= hex_text(left));
    } else {
        law_bytes_are_written_in_order(left, right.drop_last());
        assert((left + right).drop_last() =~= left + right.drop_last());
        assert((hex_text(left) + hex_text(right.drop_last())) + crate::text::hex_byte_text(
            right.last(),
        ) =~= hex_text(left) + hex_text(right));
    }
    assert(pretty_text(left).subrange(1, 2 * left.len() as int + 1) =~= hex_text(left));
}

/// Only a text of thirty-two hexadecimal digits names a hash, and two digits each make a byte.
pub proof fn law_hashes_are_thirty_two_digits(text: Seq<char>, place: int)
    requires
        is_hash_text(text),
        0 <= place < 16,
    ensures
        text.len() == 32,
        hex_bytes(text).len() == 16,
        crate::scan::is_hex(text[2 * place]),
        crate::scan::is_hex(text[2 * place + 1]),
        hex_bytes(text)[place] == 16 * crate::scan::hex_value(text[2 * place])
            + crate::scan::hex_value(text[2 * place + 1]),
{
}

} // verus!
