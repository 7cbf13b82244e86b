//! Texts: comparison, composition and search.

use vstd::prelude::*;
use vstd::string::*;
use vstd::utf8::{encode_utf8, is_char_boundary, decode_utf8};

use crate::order::{place_text, Place};

verus! {

/// Whether two texts are the same.
pub fn same_text(left: &str, right: &str) -> (equal: bool)
    ensures
        equal == (left@ == right@),
{
    let place = place_text(left, right);
    proof {
        if place != Place::Same && left@ == right@ {
            <String as crate::order::Key>::lemma_irreflexive(left@);
        }
    }
    place == Place::Same
}

/// Whether an optional text is the given text.
pub fn is_text(value: &Option<String>, expected: &str) -> (equal: bool)
    ensures
        equal == (value.deep_view() == Some(expected@)),
{
    match value {
        Some(text) => same_text(text.as_str(), expected),
        None => false,
    }
}

/// The decimal digit of a number below ten.
pub open spec fn digit(value: nat) -> char {
    ((value % 10) + 48) as char
}

/// A number in decimal notation, without leading zeros.
pub open spec fn decimal(value: nat) -> Seq<char>
    decreases value,
{
    if value < 10 {
        seq![digit(value)]
    } else {
        decimal(value / 10).push(digit(value % 10))
    }
}

/// A number has at least one digit, and nothing but digits.
pub proof fn lemma_decimal_digits(value: nat)
    ensures
        decimal(value).len() >= 1,
        forall|i: int| 0 <= i < decimal(value).len() ==> '0' <= #[trigger] decimal(value)[i] <= '9',
    decreases value,
{
    if value >= 10 {
        lemma_decimal_digits(value / 10);
    }
}

/// Different numbers have different digits.
pub proof fn lemma_decimal_injective(left: nat, right: nat)
    requires
        decimal(left) == decimal(right),
    ensures
        left == right,
    decreases left,
{
    assert(decimal(left).last() == decimal(right).last());
    assert(decimal(left).last() as int == left % 10 + 48);
    assert(decimal(right).last() as int == right % 10 + 48);
    if left >= 10 {
        lemma_decimal_digits(left / 10);
    }
    if right >= 10 {
        lemma_decimal_digits(right / 10);
    }
    if left >= 10 && right >= 10 {
        assert(decimal(left).drop_last() =~= decimal(left / 10));
        assert(decimal(right).drop_last() =~= decimal(right / 10));
        lemma_decimal_injective(left / 10, right / 10);
    }
}

fn digit_text(value: u64) -> (text: &'static str)
    requires
        value < 10,
    ensures
        text@ == seq![digit(value as nat)],
{
    proof {
        reveal_strlit("0");
        reveal_strlit("1");
        reveal_strlit("2");
        reveal_strlit("3");
        reveal_strlit("4");
        reveal_strlit("5");
        reveal_strlit("6");
        reveal_strlit("7");
        reveal_strlit("8");
        reveal_strlit("9");
    }
    let text: &'static str = match value {
        0 => "0",
        1 => "1",
        2 => "2",
        3 => "3",
        4 => "4",
        5 => "5",
        6 => "6",
        7 => "7",
        8 => "8",
        _ => "9",
    };
    assert(text@ =~= seq![digit(value as nat)]);
    text
}

/// Writes a number in decimal notation.
pub fn decimal_text(value: u64) -> (text: String)
    ensures
        text@ == decimal(value as nat),
    decreases value,
{
    if value < 10 {
        digit_text(value).to_owned()
    } else {
        let mut text = decimal_text(value / 10);
        text.append(digit_text(value % 10));
        assert(text@ =~= decimal((value / 10) as nat).push(digit((value % 10) as nat)));
        text
    }
}

/// The text of a truth value.
pub open spec fn truth(value: bool) -> Seq<char> {
    if value {
        "true"@
    } else {
        "false"@
    }
}

/// Writes a truth value.
pub fn truth_text(value: bool) -> (text: &'static str)
    ensures
        text@ == truth(value),
{
    if value {
        "true"
    } else {
        "false"
    }
}

/// The texts one behind the other, with a separator between neighbours.
pub open spec fn join(parts: Seq<Seq<char>>, separator: Seq<char>) -> Seq<char>
    decreases parts.len(),
{
    if parts.len() == 0 {
        Seq::empty()
    } else if parts.len() == 1 {
        parts[0]
    } else {
        join(parts.drop_last(), separator) + separator + parts.last()
    }
}

/// Joins texts with a separator.
pub fn join_texts(parts: &Vec<String>, separator: &str) -> (text: String)
    ensures
        text@ == join(parts.deep_view(), separator@),
{
    let ghost all = parts.deep_view();
    let mut text = String::new();
    let mut index: usize = 0;
    assert(all.take(0) =~= Seq::<Seq<char>>::empty());
    while index < parts.len()
        invariant
            index <= parts.len(),
            all == parts.deep_view(),
            text@ == join(all.take(index as int), separator@),
        decreases parts.len() - index,
    {
        proof {
            assert(all.take(index + 1).drop_last() =~= all.take(index as int));
            assert(all.take(index + 1).last() == parts@[index as int]@);
        }
        if index > 0 {
            text.append(separator);
        }
        text.append(parts[index].as_str());
        proof {
            if index == 0 {
                assert(text@ =~= parts@[0]@);
            }
        }
        index += 1;
    }
    assert(all.take(index as int) =~= all);
    text
}

/// Whether a text stands in another at a position.
pub open spec fn stands_at(text: Seq<char>, part: Seq<char>, at: int) -> bool {
    &&& 0 <= at
    &&& at + part.len() <= text.len()
    &&& text.subrange(at, at + part.len()) == part
}

/// What follows the last occurrence of a separator; the whole text where there is none.
pub open spec fn after_last(text: Seq<char>, separator: Seq<char>) -> Seq<char> {
    if exists|at: int| stands_at(text, separator, at) {
        let last = choose|at: int|
            stands_at(text, separator, at) && forall|later: int|
                at < later ==> !stands_at(text, separator, later);
        text.skip(last + separator.len())
    } else {
        text
    }
}

/// The characters of a text.
pub fn characters(text: &str) -> (chars: Vec<char>)
    ensures
        chars@ == text@,
{
    let mut chars: Vec<char> = Vec::new();
    for c in iter: text.chars()
        invariant
            chars@ == text@.take(iter.index()),
            iter.seq() == text@,
    {
        chars.push(c);
        assert(text@.take(iter.index() + 1) =~= text@.take(iter.index()).push(c));
    }
    assert(text@.take(text@.len() as int) =~= text@);
    chars
}

/// Whether a sequence of characters stands in another at a position.
fn stands_here(text: &Vec<char>, part: &Vec<char>, at: usize) -> (found: bool)
    ensures
        found == stands_at(text@, part@, at as int),
{
    if part.len() > text.len() || at > text.len() - part.len() {
        return false;
    }
    let mut index: usize = 0;
    while index < part.len()
        invariant
            index <= part.len(),
            at + part.len() <= text.len(),
            forall|i: int| 0 <= i < index ==> text@[at + i] == part@[i],
        decreases part.len() - index,
    {
        if text[at + index] != part[index] {
            assert(text@.subrange(at as int, at + part.len())[index as int] != part@[index as int]);
            return false;
        }
        index += 1;
    }
    assert(text@.subrange(at as int, at + part.len()) =~= part@);
    true
}

/// Cuts out what follows the last occurrence of a separator.
pub fn after_last_text(text: &str, separator: &str) -> (result: String)
    requires
        separator@.len() > 0,
    ensures
        result@ == after_last(text@, separator@),
{
    let chars = characters(text);
    let part = characters(separator);
    if part.len() > chars.len() {
        assert forall|at: int| !stands_at(text@, separator@, at) by {}
        return text.to_owned();
    }
    let mut at: usize = chars.len() - part.len() + 1;
    while at > 0
        invariant
            chars@ == text@,
            part@ == separator@,
            0 < part@.len() <= chars@.len(),
            at <= chars.len() - part.len() + 1,
            forall|later: int| at <= later ==> !stands_at(text@, separator@, later),
        decreases at,
    {
        at -= 1;
        if stands_here(&chars, &part, at) {
            proof {
                let last = choose|place: int|
                    stands_at(text@, separator@, place) && forall|later: int|
                        place < later ==> !stands_at(text@, separator@, later);
                assert(stands_at(text@, separator@, at as int) && forall|later: int|
                    at < later ==> !stands_at(text@, separator@, later));
                assert(last == at) by {
                    if last < at {
                        assert(!stands_at(text@, separator@, at as int));
                    } else if at < last {
                        assert(!stands_at(text@, separator@, last));
                    }
                }
                assert(text@.subrange(at + part@.len(), text@.len() as int) =~= text@.skip(
                    at + part@.len(),
                ));
            }
            return text.substring_char(at + part.len(), chars.len()).to_owned();
        }
    }
    text.to_owned()
}

/// A path with every backslash turned into a slash.
pub open spec fn normalized(path: Seq<char>) -> Seq<char> {
    path.map_values(
        |c: char|
            if c == '\\' {
                '/'
            } else {
                c
            },
    )
}

/// Turns every backslash of a path into a slash.
pub fn normalize_path(path: &str) -> (result: String)
    ensures
        result@ == normalized(path@),
{
    proof {
        reveal_strlit("/");
    }
    let chars = characters(path);
    let mut result = String::new();
    let mut start: usize = 0;
    let mut index: usize = 0;
    while index < chars.len()
        invariant
            chars@ == path@,
            "/"@ == seq!['/'],
            start <= index <= chars.len(),
            result@ == normalized(path@.take(start as int)),
            forall|i: int| start <= i < index ==> path@[i] != '\\',
        decreases chars.len() - index,
    {
        if chars[index] == '\\' {
            result.append(path.substring_char(start, index));
            result.append("/");
            proof {
                assert(result@ =~= normalized(path@.take(index + 1)));
            }
            start = index + 1;
        }
        index += 1;
    }
    result.append(path.substring_char(start, chars.len()));
    assert(result@ =~= normalized(path@));
    result
}

/// What follows a prefix, where the text has it.
pub open spec fn after_prefix(text: Seq<char>, prefix: Seq<char>) -> Option<Seq<char>> {
    if stands_at(text, prefix, 0) {
        Some(text.skip(prefix.len() as int))
    } else {
        None
    }
}

/// Cuts off a prefix, where the text has it.
pub fn strip_text_prefix(text: &str, prefix: &str) -> (rest: Option<String>)
    ensures
        rest.deep_view() == after_prefix(text@, prefix@),
{
    let chars = characters(text);
    let part = characters(prefix);
    if stands_here(&chars, &part, 0) {
        proof {
            assert(text@.subrange(part@.len() as int, text@.len() as int) =~= text@.skip(
                part@.len() as int,
            ));
        }
        Some(text.substring_char(part.len(), chars.len()).to_owned())
    } else {
        None
    }
}

/// The part of a text between two byte offsets, where both are character boundaries in order.
pub open spec fn byte_slice(text: Seq<char>, start: int, end: int) -> Option<Seq<char>> {
    let bytes = encode_utf8(text);
    if 0 <= start <= end <= bytes.len() && is_char_boundary(bytes, start) && is_char_boundary(
        bytes,
        end,
    ) {
        Some(decode_utf8(bytes.subrange(start, end)))
    } else {
        None
    }
}

/// Cuts out the part of a text between two byte offsets.
pub fn slice_text(text: &str, start: usize, end: usize) -> (part: Option<String>)
    ensures
        part.deep_view() == byte_slice(text@, start as int, end as int),
{
    let ghost bytes = encode_utf8(text@);
    let limit = text.as_bytes().len();
    if start > end || end > limit || !text.is_char_boundary(start) || !text.is_char_boundary(end) {
        return None;
    }
    let (head, _) = text.split_at(end);
    proof {
        vstd::utf8::encode_utf8_valid_utf8(text@);
        vstd::utf8::encode_utf8_valid_utf8(head@);
        assert(head.spec_bytes() == bytes.subrange(0, end as int));
        vstd::utf8::is_char_boundary_start_end_of_seq(head.spec_bytes());
        if start < end {
            vstd::utf8::is_char_boundary_iff_not_is_continuation_byte(bytes, start as int);
            vstd::utf8::is_char_boundary_iff_not_is_continuation_byte(
                head.spec_bytes(),
                start as int,
            );
        }
    }
    let (_, middle) = head.split_at(start);
    proof {
        assert(middle.spec_bytes() =~= bytes.subrange(start as int, end as int));
        vstd::utf8::encode_utf8_decode_utf8(middle@);
    }
    Some(middle.to_owned())
}

} // verus!
