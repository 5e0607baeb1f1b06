//! Taking text apart: white space, pieces, digits and letter case.
use crate::text::char_at;
use vstd::prelude::*;

verus! {

/// Whether a character is white space by Unicode's White_Space property.
pub open spec fn is_space(ch: char) -> bool {
    let code = ch as u32;
    ||| 0x9 <= code <= 0xD
    ||| code == 0x20
    ||| code == 0x85
    ||| code == 0xA0
    ||| code == 0x1680
    ||| 0x2000 <= code <= 0x200A
    ||| code == 0x2028
    ||| code == 0x2029
    ||| code == 0x202F
    ||| code == 0x205F
    ||| code == 0x3000
}

/// Whether a character is white space by Unicode's White_Space property.
pub fn is_white_space(ch: char) -> (space: bool)
    ensures
        space == is_space(ch),
{
    let code: u32 = ch as u32;
    (0x9 <= code && code <= 0xD) || code == 0x20 || code == 0x85 || code == 0xA0 || code == 0x1680
        || (0x2000 <= code && code <= 0x200A) || code == 0x2028 || code == 0x2029 || code == 0x202F
        || code == 0x205F || code == 0x3000
}

/// Text without the white space that it starts with.
pub open spec fn trimmed_start(text: Seq<char>) -> Seq<char>
    decreases text.len(),
{
    if text.len() > 0 && is_space(text[0]) {
        trimmed_start(text.skip(1))
    } else {
        text
    }
}

/// Text without the white space that it ends with.
pub open spec fn trimmed_end(text: Seq<char>) -> Seq<char>
    decreases text.len(),
{
    if text.len() > 0 && is_space(text.last()) {
        trimmed_end(text.drop_last())
    } else {
        text
    }
}

/// Text without the white space around it.
pub open spec fn trimmed(text: Seq<char>) -> Seq<char> {
    trimmed_end(trimmed_start(text))
}

/// A part of some text.
pub fn part_of(text: &[char], start: usize, end: usize) -> (part: Vec<char>)
    requires
        start <= end <= text@.len(),
    ensures
        part@ == text@.subrange(start as int, end as int),
{
    let mut part: Vec<char> = Vec::new();
    let mut i: usize = start;
    while i < end
        invariant
            start <= i <= end <= text@.len(),
            part@ == text@.subrange(start as int, i as int),
        decreases end - i,
    {
        part.push(char_at(text, i));
        assert(text@.subrange(start as int, i + 1) =~= text@.subrange(start as int, i as int).push(
            text@[i as int],
        ));
        i += 1;
    }
    part
}

/// Text without the white space around it.
pub fn trim(text: &[char]) -> (part: Vec<char>)
    ensures
        part@ == trimmed(text@),
{
    let mut start: usize = 0;
    assert(text@.skip(0) =~= text@);
    while start < text.len() && is_white_space(char_at(text, start))
        invariant
            start <= text@.len(),
            trimmed_start(text@) == trimmed_start(text@.skip(start as int)),
        decreases text.len() - start,
    {
        assert(text@.skip(start as int).skip(1) =~= text@.skip(start + 1));
        start += 1;
    }
    let ghost first = trimmed_start(text@);
    assert(first == text@.skip(start as int));
    let mut end: usize = text.len();
    assert(text@.subrange(start as int, end as int) =~= first);
    while end > start && is_white_space(char_at(text, end - 1))
        invariant
            start <= end <= text@.len(),
            trimmed_end(first) == trimmed_end(text@.subrange(start as int, end as int)),
        decreases end,
    {
        assert(text@.subrange(start as int, end as int).drop_last() =~= text@.subrange(
            start as int,
            end - 1,
        ));
        end -= 1;
    }
    let ghost rest = text@.subrange(start as int, end as int);
    assert(end > start ==> rest.last() == text@[end - 1]);
    part_of(text, start, end)
}

/// Where a character first stands in some text, or the length of the text.
pub open spec fn place_of(text: Seq<char>, ch: char) -> nat
    decreases text.len(),
{
    if text.len() == 0 || text[0] == ch {
        0
    } else {
        1 + place_of(text.skip(1), ch)
    }
}

/// Where a character first stands from a place on, or the length of the text.
pub fn find_from(text: &[char], start: usize, ch: char) -> (place: usize)
    requires
        start <= text@.len(),
    ensures
        start <= place <= text@.len(),
        place == start + place_of(text@.skip(start as int), ch),
{
    let mut place: usize = start;
    while place < text.len() && char_at(text, place) != ch
        invariant
            start <= place <= text@.len(),
            place_of(text@.skip(start as int), ch) == (place - start) + place_of(
                text@.skip(place as int),
                ch,
            ),
        decreases text.len() - place,
    {
        assert(text@.skip(place as int).skip(1) =~= text@.skip(place + 1));
        assert(text@.skip(place as int)[0] == text@[place as int]);
        place += 1;
    }
    assert(place < text@.len() ==> text@.skip(place as int)[0] == text@[place as int]);
    place
}

/// The pieces of some text between the places where a character stands.
pub open spec fn pieces(text: Seq<char>, ch: char) -> Seq<Seq<char>>
    decreases text.len(),
{
    let place = place_of(text, ch);
    if place >= text.len() {
        seq![text]
    } else {
        seq![text.take(place as int)] + pieces(text.skip(place as int + 1), ch)
    }
}

/// Texts as mathematical values.
pub open spec fn char_views(texts: Seq<Vec<char>>) -> Seq<Seq<char>> {
    texts.map_values(|text: Vec<char>| text@)
}

/// The pieces of some text between the places where a character stands.
pub fn split_at_each(text: &[char], ch: char) -> (parts: Vec<Vec<char>>)
    ensures
        char_views(parts@) == pieces(text@, ch),
{
    let mut parts: Vec<Vec<char>> = Vec::new();
    let mut start: usize = 0;
    proof {
        assert(text@.skip(0) =~= text@);
        assert(char_views(parts@) + pieces(text@, ch) =~= pieces(text@, ch));
    }
    let mut place: usize = find_from(text, 0, ch);
    while place < text.len()
        invariant
            start <= place <= text@.len(),
            place == start + place_of(text@.skip(start as int), ch),
            char_views(parts@) + pieces(text@.skip(start as int), ch) == pieces(text@, ch),
        decreases text.len() - place,
    {
        let ghost rest = text@.skip(start as int);
        let ghost before = char_views(parts@);
        let part = part_of(text, start, place);
        assert(part@ =~= rest.take(place - start));
        parts.push(part);
        proof {
            assert(char_views(parts@) =~= before.push(part@));
            assert(rest.skip(place - start + 1) =~= text@.skip(place + 1));
            assert(before + (seq![part@] + pieces(text@.skip(place + 1), ch)) =~= before.push(part@)
                + pieces(text@.skip(place + 1), ch));
        }
        start = place + 1;
        place = find_from(text, start, ch);
    }
    let ghost before = char_views(parts@);
    let last = part_of(text, start, text.len());
    assert(last@ =~= text@.skip(start as int));
    parts.push(last);
    assert(char_views(parts@) =~= before + seq![last@]);
    parts
}

/// Whether a character is a decimal digit.
pub open spec fn is_digit(ch: char) -> bool {
    '0' <= ch <= '9'
}

/// Whether a character is a decimal digit.
pub fn is_decimal_digit(ch: char) -> (digit: bool)
    ensures
        digit == is_digit(ch),
{
    '0' <= ch && ch <= '9'
}

/// The digits of some text.
pub open spec fn digits_of(text: Seq<char>) -> Seq<char>
    decreases text.len(),
{
    if text.len() == 0 {
        Seq::empty()
    } else if is_digit(text.last()) {
        digits_of(text.drop_last()).push(text.last())
    } else {
        digits_of(text.drop_last())
    }
}

/// The digits of some text.
pub fn only_digits(text: &[char]) -> (digits: String)
    ensures
        digits@ == digits_of(text@),
{
    let mut digits = String::new();
    let mut i: usize = 0;
    assert(digits@ =~= digits_of(text@.take(0)));
    while i < text.len()
        invariant
            i <= text@.len(),
            digits@ == digits_of(text@.take(i as int)),
        decreases text.len() - i,
    {
        let ch = char_at(text, i);
        assert(text@.take(i + 1).drop_last() =~= text@.take(i as int));
        assert(text@.take(i + 1).last() == ch);
        if is_decimal_digit(ch) {
            digits.push(ch);
        }
        i += 1;
    }
    assert(text@.take(i as int) =~= text@);
    digits
}

/// A letter from A to Z as a small letter, any other character as it is.
pub open spec fn lower(ch: char) -> char {
    if 'A' <= ch <= 'Z' {
        (ch as u32 + 32) as char
    } else {
        ch
    }
}

/// A letter from A to Z as a small letter, any other character as it is.
pub fn lower_char(ch: char) -> (lowered: char)
    ensures
        lowered == lower(ch),
{
    if 'A' <= ch && ch <= 'Z' {
        ((ch as u8) + 32) as char
    } else {
        ch
    }
}

/// Text with its letters from A to Z as small letters.
pub open spec fn lowered(text: Seq<char>) -> Seq<char>
    decreases text.len(),
{
    if text.len() == 0 {
        Seq::empty()
    } else {
        lowered(text.drop_last()).push(lower(text.last()))
    }
}

/// Text with its letters from A to Z as small letters.
pub fn lower_text(text: &[char]) -> (small: String)
    ensures
        small@ == lowered(text@),
{
    let mut small = String::new();
    let mut i: usize = 0;
    assert(small@ =~= lowered(text@.take(0)));
    while i < text.len()
        invariant
            i <= text@.len(),
            small@ == lowered(text@.take(i as int)),
        decreases text.len() - i,
    {
        let ch = char_at(text, i);
        assert(text@.take(i + 1).drop_last() =~= text@.take(i as int));
        assert(text@.take(i + 1).last() == ch);
        small.push(lower_char(ch));
        i += 1;
    }
    assert(text@.take(i as int) =~= text@);
    small
}

/// Whether two texts are the same but for the case of letters from A to Z.
pub open spec fn alike(left: Seq<char>, right: Seq<char>) -> bool {
    &&& left.len() == right.len()
    &&& forall|i: int|
        0 <= i < left.len() ==> lower(#[trigger] left[i]) == lower(#[trigger] right[i])
}

/// Whether two texts are the same but for the case of letters from A to Z.
pub fn same_ignoring_case(left: &[char], right: &[char]) -> (same: bool)
    ensures
        same == alike(left@, right@),
{
    if left.len() != right.len() {
        return false;
    }
    let mut i: usize = 0;
    while i < left.len()
        invariant
            i <= left@.len() == right@.len(),
            forall|j: int|
                0 <= j < i ==> lower(#[trigger] left@[j]) == lower(#[trigger] right@[j]),
        decreases left.len() - i,
    {
        if lower_char(char_at(left, i)) != lower_char(char_at(right, i)) {
            assert(lower(left@[i as int]) != lower(right@[i as int]));
            return false;
        }
        i += 1;
    }
    true
}

/// Whether a character is a hexadecimal digit, in either case.
pub open spec fn is_hex(ch: char) -> bool {
    '0' <= ch <= '9' || 'a' <= ch <= 'f' || 'A' <= ch <= 'F'
}

/// The value of a hexadecimal digit.
pub open spec fn hex_value(ch: char) -> int {
    if '0' <= ch <= '9' {
        ch as int - '0' as int
    } else if 'a' <= ch <= 'f' {
        ch as int - 'a' as int + 10
    } else {
        ch as int - 'A' as int + 10
    }
}

/// The value of a hexadecimal digit, where it is one.
pub fn hex_digit_value(ch: char) -> (value: Option<u8>)
    ensures
        match value {
            Some(value) => is_hex(ch) && value == hex_value(ch) && value < 16,
            None => !is_hex(ch),
        },
{
    if '0' <= ch && ch <= '9' {
        Some((ch as u8) - 48)
    } else if 'a' <= ch && ch <= 'f' {
        Some((ch as u8) - 97 + 10)
    } else if 'A' <= ch && ch <= 'F' {
        Some((ch as u8) - 65 + 10)
    } else {
        None
    }
}

/// The non-empty pieces of some text, each without the white space around it.
pub open spec fn kept_items(parts: Seq<Seq<char>>) -> Seq<Seq<char>>
    decreases parts.len(),
{
    if parts.len() == 0 {
        Seq::empty()
    } else if trimmed(parts.last()).len() == 0 {
        kept_items(parts.drop_last())
    } else {
        kept_items(parts.drop_last()).push(trimmed(parts.last()))
    }
}

/// The items of a list that commas separate.
pub open spec fn list_items(text: Seq<char>) -> Seq<Seq<char>> {
    kept_items(pieces(text, ','))
}

/// The items of a list that commas separate, without white space around them and without
/// those that are empty.
pub fn split_list(text: &[char]) -> (items: Vec<Vec<char>>)
    ensures
        char_views(items@) == list_items(text@),
{
    let parts = split_at_each(text, ',');
    let ghost all = char_views(parts@);
    let mut items: Vec<Vec<char>> = Vec::new();
    let mut i: usize = 0;
    assert(char_views(items@) =~= kept_items(all.take(0)));
    while i < parts.len()
        invariant
            i <= parts@.len(),
            all == char_views(parts@),
            char_views(items@) == kept_items(all.take(i as int)),
        decreases parts.len() - i,
    {
        let ghost before = char_views(items@);
        let item = trim(&parts[i]);
        assert(all.take(i + 1).drop_last() =~= all.take(i as int));
        assert(all.take(i + 1).last() == parts@[i as int]@);
        if item.len() > 0 {
            items.push(item);
            assert(char_views(items@) =~= before.push(item@));
        }
        i += 1;
    }
    assert(all.take(i as int) =~= all);
    items
}

/// Of the characters of ASCII, white space are the space, the tabulators and those that end
/// lines and pages.
pub proof fn law_ascii_white_space(ch: char)
    requires
        (ch as u32) < 0x80,
    ensures
        is_space(ch) <==> ch == ' ' || 9 <= ch as u32 <= 13,
{
}

proof fn lemma_trimmed_start(text: Seq<char>) -> (start: int)
    ensures
        0 <= start <= text.len(),
        trimmed_start(text) == text.skip(start),
        forall|i: int| 0 <= i < start ==> is_space(#[trigger] text[i]),
        start < text.len() ==> !is_space(text[start]),
    decreases text.len(),
{
    if text.len() > 0 && is_space(text[0]) {
        let rest = text.skip(1);
        let inner = lemma_trimmed_start(rest);
        assert(rest.skip(inner) =~= text.skip(inner + 1));
        assert forall|i: int| 0 <= i < inner + 1 implies is_space(#[trigger] text[i]) by {
            if i > 0 {
                assert(rest[i - 1] == text[i]);
            }
        }
        inner + 1
    } else {
        assert(text.skip(0) =~= text);
        0
    }
}

proof fn lemma_trimmed_end(text: Seq<char>) -> (end: int)
    ensures
        0 <= end <= text.len(),
        trimmed_end(text) == text.take(end),
        forall|i: int| end <= i < text.len() ==> is_space(#[trigger] text[i]),
        end > 0 ==> !is_space(text[end - 1]),
    decreases text.len(),
{
    if text.len() > 0 && is_space(text.last()) {
        let rest = text.drop_last();
        let inner = lemma_trimmed_end(rest);
        assert(rest.take(inner) =~= text.take(inner));
        assert forall|i: int| inner <= i < text.len() implies is_space(#[trigger] text[i]) by {
            if i < rest.len() {
                assert(rest[i] == text[i]);
            }
        }
        inner
    } else {
        assert(text.take(text.len() as int) =~= text);
        text.len() as int
    }
}

/// Trimming takes away white space at both ends, all of it, and nothing else.
pub proof fn law_trimming_takes_only_white_space(text: Seq<char>)
    ensures
        exists|start: int, end: int|
            {
                &&& 0 <= start <= end <= text.len()
                &&& trimmed(text) == #[trigger] text.subrange(start, end)
                &&& forall|i: int| 0 <= i < start ==> is_space(#[trigger] text[i])
                &&& forall|i: int| end <= i < text.len() ==> is_space(#[trigger] text[i])
            },
        trimmed(text).len() > 0 ==> !is_space(trimmed(text)[0]) && !is_space(trimmed(text).last()),
        trimmed(trimmed(text)) == trimmed(text),
{
    let start = lemma_trimmed_start(text);
    let front = trimmed_start(text);
    let cut = lemma_trimmed_end(front);
    let end = start + cut;
    assert(trimmed(text) =~= text.subrange(start, end));
    assert forall|i: int| end <= i < text.len() implies is_space(#[trigger] text[i]) by {
        assert(front[i - start] == text[i]);
    }
    assert(exists|start: int, end: int|
        {
            &&& 0 <= start <= end <= text.len()
            &&& trimmed(text) == #[trigger] text.subrange(start, end)
            &&& forall|i: int| 0 <= i < start ==> is_space(#[trigger] text[i])
            &&& forall|i: int| end <= i < text.len() ==> is_space(#[trigger] text[i])
        });
    let inner = trimmed(text);
    if cut > 0 {
        assert(inner[0] == text[start]);
        assert(inner.last() == front[cut - 1]);
    }
    let again = lemma_trimmed_start(inner);
    if again > 0 {
        assert(is_space(inner[0]));
    }
    assert(trimmed_start(inner) =~= inner);
    let last = lemma_trimmed_end(inner);
    if last < inner.len() {
        assert(is_space(inner[inner.len() - 1]));
    }
    assert(trimmed_end(inner) =~= inner);
}

/// The place of a character is the first at which it stands, or the end of the text.
pub proof fn law_place_is_the_first(text: Seq<char>, ch: char)
    ensures
        place_of(text, ch) <= text.len(),
        place_of(text, ch) < text.len() ==> text[place_of(text, ch) as int] == ch,
        forall|i: int| 0 <= i < place_of(text, ch) ==> #[trigger] text[i] != ch,
    decreases text.len(),
{
    if text.len() > 0 && text[0] != ch {
        let rest = text.skip(1);
        law_place_is_the_first(rest, ch);
        assert forall|i: int| 0 <= i < place_of(text, ch) implies #[trigger] text[i] != ch by {
            if i > 0 {
                assert(rest[i - 1] == text[i]);
            }
        }
    }
}

/// Pieces with a character between each two of them.
pub open spec fn joined_by(parts: Seq<Seq<char>>, ch: char) -> Seq<char>
    decreases parts.len(),
{
    if parts.len() == 0 {
        Seq::empty()
    } else if parts.len() == 1 {
        parts[0]
    } else {
        parts[0] + seq![ch] + joined_by(parts.skip(1), ch)
    }
}

/// The pieces of some text are the text again once the character is put between them, and none
/// of them holds the character.
pub proof fn law_pieces_make_up_the_text(text: Seq<char>, ch: char)
    ensures
        pieces(text, ch).len() >= 1,
        joined_by(pieces(text, ch), ch) == text,
        forall|i: int|
            0 <= i < pieces(text, ch).len() ==> !(#[trigger] pieces(text, ch)[i]).contains(ch),
    decreases text.len(),
{
    let place = place_of(text, ch) as int;
    law_place_is_the_first(text, ch);
    let parts = pieces(text, ch);
    if place < text.len() {
        let rest = text.skip(place + 1);
        law_pieces_make_up_the_text(rest, ch);
        assert(parts.skip(1) =~= pieces(rest, ch));
        assert(parts[0] + seq![ch] + rest =~= text);
        assert forall|i: int| 0 <= i < parts.len() implies !(#[trigger] parts[i]).contains(ch) by {
            if i > 0 {
                assert(parts[i] == pieces(rest, ch)[i - 1]);
            }
        }
    }
}

/// The items that are kept are the pieces, trimmed and in their order, but for the empty ones.
pub proof fn law_items_are_the_trimmed_pieces(
    first: Seq<Seq<char>>,
    second: Seq<Seq<char>>,
    part: Seq<char>,
)
    ensures
        kept_items(first + second) == kept_items(first) + kept_items(second),
        kept_items(seq![part]) == (if trimmed(part).len() == 0 {
            Seq::<Seq<char>>::empty()
        } else {
            seq![trimmed(part)]
        }),
        kept_items(Seq::empty()) == Seq::<Seq<char>>::empty(),
    decreases second.len(),
{
    let single = seq![part];
    assert(single.drop_last() =~= Seq::<Seq<char>>::empty());
    assert(kept_items(single.drop_last()) =~= Seq::<Seq<char>>::empty());
    assert(kept_items(single) =~= if trimmed(part).len() == 0 {
        Seq::<Seq<char>>::empty()
    } else {
        seq![trimmed(part)]
    });
    if second.len() == 0 {
        assert(first + second =~= first);
        assert(kept_items(first) + kept_items(second) =~= kept_items(first));
    } else {
        let rest = second.drop_last();
        law_items_are_the_trimmed_pieces(first, rest, part);
        assert((first + second).drop_last() =~= first + rest);
        assert((first + second).last() == second.last());
        assert(kept_items(first + second) =~= kept_items(first) + kept_items(second));
    }
}

/// An item stands in a list exactly if it is a piece of the text between commas, trimmed, and
/// not empty.
pub proof fn law_list_holds_every_item(text: Seq<char>, item: Seq<char>)
    ensures
        list_items(text).contains(item) <==> item.len() > 0 && exists|i: int|
            0 <= i < pieces(text, ',').len() && trimmed(#[trigger] pieces(text, ',')[i]) == item,
{
    lemma_kept_items(pieces(text, ','), item);
}

proof fn lemma_kept_items(parts: Seq<Seq<char>>, item: Seq<char>)
    ensures
        kept_items(parts).contains(item) <==> item.len() > 0 && exists|i: int|
            0 <= i < parts.len() && trimmed(#[trigger] parts[i]) == item,
    decreases parts.len(),
{
    if parts.len() > 0 {
        let rest = parts.drop_last();
        let before = kept_items(rest);
        let after = kept_items(parts);
        lemma_kept_items(rest, item);
        if before.contains(item) {
            let j = choose|j: int| 0 <= j < before.len() && before[j] == item;
            assert(after[j] == item);
            let i = choose|i: int| 0 <= i < rest.len() && trimmed(#[trigger] rest[i]) == item;
            assert(trimmed(parts[i]) == item);
        }
        if item.len() > 0 && trimmed(parts.last()) == item {
            assert(after[after.len() - 1] == item);
            assert(trimmed(parts[parts.len() - 1]) == item);
        }
        if after.contains(item) && !before.contains(item) {
            let j = choose|j: int| 0 <= j < after.len() && after[j] == item;
            if j < before.len() {
                assert(before[j] == item);
            }
            assert(trimmed(parts[parts.len() - 1]) == item);
        }
        if item.len() > 0 && exists|i: int|
            0 <= i < parts.len() && trimmed(#[trigger] parts[i]) == item {
            let i = choose|i: int| 0 <= i < parts.len() && trimmed(#[trigger] parts[i]) == item;
            if i < rest.len() {
                assert(trimmed(rest[i]) == item);
            }
        }
    }
}

/// Small letters stand in the place of the large ones, one for one; nothing else changes.
pub proof fn law_lowering_keeps_all_but_large_letters(text: Seq<char>)
    ensures
        lowered(text).len() == text.len(),
        forall|i: int|
            0 <= i < text.len() ==> (if 'A' <= text[i] <= 'Z' {
                (#[trigger] lowered(text)[i]) as int == text[i] as int + 32
            } else {
                lowered(text)[i] == text[i]
            }),
    decreases text.len(),
{
    if text.len() > 0 {
        let rest = text.drop_last();
        law_lowering_keeps_all_but_large_letters(rest);
        assert forall|i: int| 0 <= i < text.len() implies (if 'A' <= text[i] <= 'Z' {
            (#[trigger] lowered(text)[i]) as int == text[i] as int + 32
        } else {
            lowered(text)[i] == text[i]
        }) by {
            if i < rest.len() {
                assert(lowered(rest)[i] == lowered(text)[i]);
                assert(rest[i] == text[i]);
            }
        }
    }
}

/// Two texts are alike exactly if they are the same in small letters.
pub proof fn law_alike_texts_are_the_same_in_small_letters(left: Seq<char>, right: Seq<char>)
    ensures
        alike(left, right) <==> lowered(left) == lowered(right),
{
    lemma_lowered(left);
    lemma_lowered(right);
    if alike(left, right) {
        assert(lowered(left) =~= lowered(right));
    }
    if lowered(left) == lowered(right) {
        assert forall|i: int| 0 <= i < left.len() implies lower(#[trigger] left[i]) == lower(
            #[trigger] right[i],
        ) by {
            assert(lowered(left)[i] == lowered(right)[i]);
        }
    }
}

proof fn lemma_lowered(text: Seq<char>)
    ensures
        lowered(text).len() == text.len(),
        forall|i: int| 0 <= i < text.len() ==> #[trigger] lowered(text)[i] == lower(text[i]),
    decreases text.len(),
{
    if text.len() > 0 {
        lemma_lowered(text.drop_last());
    }
}

/// The digits of some text are those of its parts, in their order; of a character alone it is
/// the character where it is a digit.
pub proof fn law_digits_are_kept_in_order(first: Seq<char>, second: Seq<char>, ch: char)
    ensures
        digits_of(first + second) == digits_of(first) + digits_of(second),
        digits_of(seq![ch]) == (if '0' <= ch <= '9' {
            seq![ch]
        } else {
            Seq::<char>::empty()
        }),
    decreases second.len(),
{
    let single = seq![ch];
    assert(single.drop_last() =~= Seq::<char>::empty());
    assert(digits_of(single.drop_last()) =~= Seq::<char>::empty());
    assert(digits_of(single) =~= if '0' <= ch <= '9' {
        seq![ch]
    } else {
        Seq::<char>::empty()
    });
    if second.len() == 0 {
        assert(first + second =~= first);
        assert(digits_of(first) + digits_of(second) =~= digits_of(first));
    } else {
        let rest = second.drop_last();
        law_digits_are_kept_in_order(first, rest, ch);
        assert((first + second).drop_last() =~= first + rest);
        assert((first + second).last() == second.last());
        assert(digits_of(first + second) =~= digits_of(first) + digits_of(second));
    }
}

/// A hexadecimal digit has a value below sixteen, the same in both cases; the decimal digits
/// have their own.
pub proof fn law_hexadecimal_digits(ch: char)
    ensures
        is_hex(ch) ==> 0 <= hex_value(ch) < 16,
        is_hex(ch) <==> is_hex(lower(ch)) && (ch as u32) < 0x80,
        is_hex(ch) ==> hex_value(ch) == hex_value(lower(ch)),
        '0' <= ch <= '9' ==> is_hex(ch) && hex_value(ch) == ch as int - 48,
        'a' <= ch <= 'f' ==> is_hex(ch) && hex_value(ch) == ch as int - 87,
        'g' <= ch <= 'z' || 'G' <= ch <= 'Z' ==> !is_hex(ch),
{
}

} // verus!
