//! Canonical texts read back to the values that they were written for.

use vstd::prelude::*;

use crate::digest::hex_digit;
use crate::json::{
    JsonModel, canonical, canonical_fields, canonical_items, escaped, escaped_text, field_text,
};
use crate::order::Key;
use crate::reading::{is_rest, lemma_join_head};
use crate::sorting::{
    lemma_sorted_unique, lemma_stable_sorted, lemma_stable_sorted_contains, ranks_before,
    stable_sorted,
};
use crate::text::{decimal, digit, join, lemma_decimal_digits};

verus! {

/// Whether a character is a decimal digit.
pub open spec fn is_digit(c: char) -> bool {
    '0' <= c <= '9'
}

/// The digits that a text starts with.
pub open spec fn leading_digits(text: Seq<char>) -> Seq<char>
    decreases text.len(),
{
    if text.len() == 0 || !is_digit(text[0]) {
        Seq::empty()
    } else {
        seq![text[0]] + leading_digits(text.drop_first())
    }
}

/// The number that digits stand for.
pub open spec fn digits_value(digits: Seq<char>) -> nat
    decreases digits.len(),
{
    if digits.len() == 0 {
        0
    } else {
        (digits_value(digits.drop_last()) * 10 + (digits.last() as int - 48)) as nat
    }
}

/// The value of a lower-case hexadecimal digit.
pub open spec fn hex_value(c: char) -> Option<int> {
    if '0' <= c <= '9' {
        Some(c as int - 48)
    } else if 'a' <= c <= 'f' {
        Some(c as int - 87)
    } else {
        None
    }
}

/// The character that an escape stands for, of which the part behind the backslash is given, and the
/// length of that part. Only the escapes that canonical texts use are read.
pub open spec fn unescaped(text: Seq<char>) -> Option<(char, int)> {
    if text.len() == 0 {
        None
    } else if text[0] == '"' || text[0] == '\\' {
        Some((text[0], 1))
    } else if text[0] == 'b' {
        Some((8u8 as char, 1))
    } else if text[0] == 't' {
        Some((9u8 as char, 1))
    } else if text[0] == 'n' {
        Some((10u8 as char, 1))
    } else if text[0] == 'f' {
        Some((12u8 as char, 1))
    } else if text[0] == 'r' {
        Some((13u8 as char, 1))
    } else if text[0] == 'u' && text.len() >= 5 && text[1] == '0' && text[2] == '0' {
        match (hex_value(text[3]), hex_value(text[4])) {
            (Some(high), Some(low)) => Some(((high * 16 + low) as char, 5)),
            _ => None,
        }
    } else {
        None
    }
}

/// Reads a string behind its opening quotation mark. What follows the string is returned with it.
pub open spec fn read_text(text: Seq<char>) -> Option<(Seq<char>, Seq<char>)>
    decreases text.len(),
{
    if text.len() == 0 {
        None
    } else if text[0] == '"' {
        Some((Seq::empty(), text.drop_first()))
    } else if text[0] == '\\' {
        match unescaped(text.drop_first()) {
            Some((c, length)) => if 0 < length < text.len() {
                match read_text(text.skip(1 + length)) {
                    Some((more, rest)) => Some((seq![c] + more, rest)),
                    None => None,
                }
            } else {
                None
            },
            None => None,
        }
    } else {
        match read_text(text.drop_first()) {
            Some((more, rest)) => Some((seq![text[0]] + more, rest)),
            None => None,
        }
    }
}

/// Reads a word that stands for a value.
pub open spec fn read_word(text: Seq<char>, word: Seq<char>, value: JsonModel) -> Option<
    (JsonModel, Seq<char>),
> {
    if text.len() >= word.len() && text.take(word.len() as int) == word {
        Some((value, text.skip(word.len() as int)))
    } else {
        None
    }
}

/// Reads a number.
pub open spec fn read_number(text: Seq<char>) -> Option<(JsonModel, Seq<char>)> {
    let digits = leading_digits(text);
    let number = digits_value(digits);
    if number <= u64::MAX {
        Some((JsonModel::Number(number as u64), text.skip(digits.len() as int)))
    } else {
        None
    }
}

/// Reads a value, nested no deeper than a measure. What follows the value is returned with it.
pub open spec fn read_value(text: Seq<char>, fuel: nat) -> Option<(JsonModel, Seq<char>)>
    decreases fuel,
{
    if fuel == 0 || text.len() == 0 {
        None
    } else if text[0] == 'n' {
        read_word(text, "null"@, JsonModel::Null)
    } else if text[0] == 't' {
        read_word(text, "true"@, JsonModel::Bool(true))
    } else if text[0] == 'f' {
        read_word(text, "false"@, JsonModel::Bool(false))
    } else if is_digit(text[0]) {
        read_number(text)
    } else if text[0] == '"' {
        match read_text(text.drop_first()) {
            Some((value, rest)) => Some((JsonModel::Text(value), rest)),
            None => None,
        }
    } else if text[0] == '[' {
        if text.len() > 1 && text[1] == ']' {
            Some((JsonModel::Array(Seq::empty()), text.skip(2)))
        } else {
            match read_items(text.drop_first(), (fuel - 1) as nat) {
                Some((items, rest)) => Some((JsonModel::Array(items), rest)),
                None => None,
            }
        }
    } else if text[0] == '{' {
        if text.len() > 1 && text[1] == '}' {
            Some((JsonModel::Object(Seq::empty()), text.skip(2)))
        } else {
            match read_fields(text.drop_first(), (fuel - 1) as nat) {
                Some((fields, rest)) => Some((JsonModel::Object(fields), rest)),
                None => None,
            }
        }
    } else {
        None
    }
}

/// Reads the items of an array, of which there is one at least, and its end.
pub open spec fn read_items(text: Seq<char>, fuel: nat) -> Option<(Seq<JsonModel>, Seq<char>)>
    decreases fuel,
{
    if fuel == 0 {
        None
    } else {
        match read_value(text, (fuel - 1) as nat) {
            Some((item, rest)) => if rest.len() > 0 && rest[0] == ']' {
                Some((seq![item], rest.drop_first()))
            } else if rest.len() > 0 && rest[0] == ',' {
                match read_items(rest.drop_first(), (fuel - 1) as nat) {
                    Some((items, end)) => Some((seq![item] + items, end)),
                    None => None,
                }
            } else {
                None
            },
            None => None,
        }
    }
}

/// Reads a field of an object.
pub open spec fn read_field(text: Seq<char>, fuel: nat) -> Option<
    ((Seq<char>, JsonModel), Seq<char>),
>
    decreases fuel,
{
    if fuel == 0 || text.len() == 0 || text[0] != '"' {
        None
    } else {
        match read_text(text.drop_first()) {
            Some((key, after)) => if after.len() > 0 && after[0] == ':' {
                match read_value(after.drop_first(), (fuel - 1) as nat) {
                    Some((value, rest)) => Some(((key, value), rest)),
                    None => None,
                }
            } else {
                None
            },
            None => None,
        }
    }
}

/// Reads the fields of an object, of which there is one at least, and its end.
pub open spec fn read_fields(text: Seq<char>, fuel: nat) -> Option<
    (Seq<(Seq<char>, JsonModel)>, Seq<char>),
>
    decreases fuel,
{
    if fuel == 0 {
        None
    } else {
        match read_field(text, (fuel - 1) as nat) {
            Some((field, rest)) => if rest.len() > 0 && rest[0] == '}' {
                Some((seq![field], rest.drop_first()))
            } else if rest.len() > 0 && rest[0] == ',' {
                match read_fields(rest.drop_first(), (fuel - 1) as nat) {
                    Some((fields, end)) => Some((seq![field] + fields, end)),
                    None => None,
                }
            } else {
                None
            },
            None => None,
        }
    }
}

/// The value that a text is read as, if it is that of one value and nothing else.
pub open spec fn read_back(text: Seq<char>) -> Option<JsonModel> {
    match read_value(text, 3 * text.len() + 1) {
        Some((value, rest)) => if rest.len() == 0 {
            Some(value)
        } else {
            None
        },
        None => None,
    }
}

/// A character reads back from what stands for it inside a string.
proof fn lemma_escaped_read(c: char, rest: Seq<char>)
    ensures
        read_text(escaped(c) + rest) == (match read_text(rest) {
            Some((more, end)) => Some((seq![c] + more, end)),
            None => None,
        }),
{
    let one = escaped(c);
    let text = one + rest;
    if one.len() == 1 {
        assert(text[0] == c);
        assert(text.drop_first() =~= rest);
    } else {
        let after = text.drop_first();
        assert(text[0] == '\\');
        assert(after[0] == one[1]);
        if one.len() == 2 {
            assert(unescaped(after) == Some((c, 1int)));
            assert(text.skip(2) =~= rest);
        } else {
            assert(after[1] == one[2] && after[2] == one[3]);
            assert(after[3] == one[4] && after[4] == one[5]);
            let high = c as int / 16;
            let low = c as int % 16;
            assert(hex_value(hex_digit(high)) == Some(high));
            assert(hex_value(hex_digit(low)) == Some(low));
            assert(high * 16 + low == c as int);
            assert(unescaped(after) == Some((c, 5int)));
            assert(text.skip(6) =~= rest);
        }
    }
}

/// A string reads back to its text.
proof fn lemma_text_read(value: Seq<char>, rest: Seq<char>)
    ensures
        read_text(escaped_text(value) + (seq!['"'] + rest)) == Some((value, rest)),
    decreases value.len(),
{
    let end = seq!['"'] + rest;
    if value.len() == 0 {
        assert(escaped_text(value) + end =~= end);
        assert(end[0] == '"');
        assert(end.drop_first() =~= rest);
    } else {
        let more = escaped_text(value.drop_first()) + end;
        lemma_text_read(value.drop_first(), rest);
        lemma_escaped_read(value[0], more);
        assert(escaped_text(value) + end =~= escaped(value[0]) + more);
        assert(seq![value[0]] + value.drop_first() =~= value);
    }
}

proof fn lemma_leading_digits(digits: Seq<char>, rest: Seq<char>)
    requires
        forall|i: int| 0 <= i < digits.len() ==> is_digit(#[trigger] digits[i]),
        rest.len() == 0 || !is_digit(rest[0]),
    ensures
        leading_digits(digits + rest) == digits,
    decreases digits.len(),
{
    if digits.len() == 0 {
        assert(digits + rest =~= rest);
        assert(digits =~= Seq::empty());
    } else {
        let text = digits + rest;
        assert(text[0] == digits[0]);
        assert(text.drop_first() =~= digits.drop_first() + rest);
        assert forall|i: int| 0 <= i < digits.drop_first().len() implies is_digit(
            #[trigger] digits.drop_first()[i],
        ) by {
            assert(digits.drop_first()[i] == digits[i + 1]);
        }
        lemma_leading_digits(digits.drop_first(), rest);
        assert(seq![digits[0]] + digits.drop_first() =~= digits);
    }
}

proof fn lemma_digits_value(value: nat)
    ensures
        digits_value(decimal(value)) == value,
    decreases value,
{
    let digits = decimal(value);
    if value < 10 {
        assert(digits.drop_last() =~= Seq::empty());
        assert(digits_value(digits.drop_last()) == 0);
        assert(digits.last() == digit(value));
        assert(digits.last() as int - 48 == value);
    } else {
        lemma_digits_value(value / 10);
        assert(digits.drop_last() =~= decimal(value / 10));
        assert(digits.last() == digit(value % 10));
        assert(digits.last() as int - 48 == value % 10);
        assert((value / 10) * 10 + value % 10 == value);
    }
}

proof fn lemma_word_read(word: Seq<char>, value: JsonModel, rest: Seq<char>)
    ensures
        read_word(word + rest, word, value) == Some((value, rest)),
{
    assert((word + rest).take(word.len() as int) =~= word);
    assert((word + rest).skip(word.len() as int) =~= rest);
}

/// Whether a value reads back from its canonical text with something behind it.
spec fn is_read_at(value: JsonModel, rest: Seq<char>, fuel: nat) -> bool {
    read_value(canonical(value) + rest, fuel) == Some((value, rest))
}

/// Whether a value reads back from its canonical text wherever that stands.
spec fn is_read(value: JsonModel) -> bool {
    forall|rest: Seq<char>, fuel: nat|
        is_rest(rest) && fuel >= 3 * canonical(value).len() && fuel > 0 ==> #[trigger] is_read_at(
            value,
            rest,
            fuel,
        )
}

proof fn lemma_items_read(items: Seq<JsonModel>, tail: Seq<char>, fuel: nat)
    requires
        items.len() > 0,
        forall|i: int| 0 <= i < items.len() ==> is_read(#[trigger] items[i]),
        fuel >= 3 * join(canonical_items(items), ","@).len() + 1,
    ensures
        read_items(join(canonical_items(items), ","@) + (seq![']'] + tail), fuel) == Some(
            (items, tail),
        ),
    decreases items.len(),
{
    reveal_strlit(",");
    let texts = canonical_items(items);
    let end = seq![']'] + tail;
    let rest = lemma_join_head(texts);
    let whole = join(texts, ","@) + end;
    let less = (fuel - 1) as nat;
    assert(texts[0] == canonical(items[0]));
    assert(whole =~= texts[0] + (rest + end));
    assert(is_read(items[0]));
    assert(end[0] == ']');
    assert(end.drop_first() =~= tail);
    if items.len() == 1 {
        assert(rest + end =~= end);
        lemma_value_fuel(items[0], less);
        assert(is_read_at(items[0], end, less));
        assert(items =~= seq![items[0]]);
    } else {
        let others = items.drop_first();
        assert(canonical_items(others) =~= texts.drop_first());
        let more = join(canonical_items(others), ","@);
        assert((rest + end)[0] == ',');
        assert((rest + end).drop_first() =~= more + end);
        assert forall|i: int| 0 <= i < others.len() implies is_read(#[trigger] others[i]) by {
            assert(others[i] == items[i + 1]);
        }
        lemma_value_fuel(items[0], less);
        assert(is_read_at(items[0], rest + end, less));
        lemma_items_read(others, tail, less);
        assert(items =~= seq![items[0]] + others);
    }
}

/// There is something to read in every value.
proof fn lemma_value_fuel(value: JsonModel, fuel: nat)
    requires
        fuel >= 3 * canonical(value).len(),
    ensures
        fuel > 0,
{
    lemma_nonempty(value);
}

proof fn lemma_nonempty(value: JsonModel)
    ensures
        canonical(value).len() > 0,
{
    reveal_strlit("null");
    reveal_strlit("true");
    reveal_strlit("false");
    reveal_strlit("[");
    reveal_strlit("{");
    match value {
        JsonModel::Number(number) => {
            lemma_decimal_digits(number as nat);
        },
        _ => {},
    }
}

/// The texts of fields, in the order in which they are given.
pub open spec fn listed_fields(fields: Seq<(Seq<char>, JsonModel)>) -> Seq<Seq<char>> {
    canonical_fields(fields).map_values(|field: (Seq<char>, Seq<char>)| field_text(field))
}

proof fn lemma_field_read(field: (Seq<char>, JsonModel), rest: Seq<char>, fuel: nat)
    requires
        is_read(field.1),
        is_rest(rest),
        fuel >= 3 * field_text((field.0, canonical(field.1))).len(),
    ensures
        read_field(field_text((field.0, canonical(field.1))) + rest, fuel) == Some((field, rest)),
{
    reveal_strlit(":");
    let value = canonical(field.1);
    let text = field_text((field.0, value)) + rest;
    let after = ":"@ + (value + rest);
    assert(text =~= seq!['"'] + (escaped_text(field.0) + (seq!['"'] + after)));
    assert(text[0] == '"');
    assert(text.drop_first() =~= escaped_text(field.0) + (seq!['"'] + after));
    lemma_text_read(field.0, after);
    assert(after[0] == ':');
    assert(after.drop_first() =~= value + rest);
    lemma_nonempty(field.1);
    assert(is_read_at(field.1, rest, (fuel - 1) as nat));
}

proof fn lemma_fields_read(fields: Seq<(Seq<char>, JsonModel)>, tail: Seq<char>, fuel: nat)
    requires
        fields.len() > 0,
        forall|i: int| 0 <= i < fields.len() ==> is_read((#[trigger] fields[i]).1),
        fuel >= 3 * join(listed_fields(fields), ","@).len() + 1,
    ensures
        read_fields(join(listed_fields(fields), ","@) + (seq!['}'] + tail), fuel) == Some(
            (fields, tail),
        ),
    decreases fields.len(),
{
    reveal_strlit(",");
    let texts = listed_fields(fields);
    let end = seq!['}'] + tail;
    let rest = lemma_join_head(texts);
    let whole = join(texts, ","@) + end;
    let less = (fuel - 1) as nat;
    assert(texts[0] == field_text((fields[0].0, canonical(fields[0].1))));
    assert(whole =~= texts[0] + (rest + end));
    assert(is_read(fields[0].1));
    assert(end[0] == '}');
    assert(end.drop_first() =~= tail);
    if fields.len() == 1 {
        assert(rest + end =~= end);
        lemma_field_read(fields[0], end, less);
        assert(fields =~= seq![fields[0]]);
    } else {
        let others = fields.drop_first();
        assert(listed_fields(others) =~= texts.drop_first());
        let more = join(listed_fields(others), ","@);
        assert((rest + end)[0] == ',');
        assert((rest + end).drop_first() =~= more + end);
        assert forall|i: int| 0 <= i < others.len() implies is_read((#[trigger] others[i]).1) by {
            assert(others[i] == fields[i + 1]);
        }
        lemma_field_read(fields[0], rest + end, less);
        lemma_fields_read(others, tail, less);
        assert(fields =~= seq![fields[0]] + others);
    }
}

/// Whether the keys of fields are in strictly increasing order.
pub open spec fn ascend(fields: Seq<(Seq<char>, JsonModel)>) -> bool {
    forall|i: int, j: int|
        0 <= i < j < fields.len() ==> <String as Key>::before(
            (#[trigger] fields[i]).0,
            (#[trigger] fields[j]).0,
        )
}

/// Whether the keys of every object in a value are in strictly increasing order.
pub open spec fn is_ordered(value: JsonModel) -> bool
    decreases value,
{
    match value {
        JsonModel::Array(items) => forall|i: int|
            0 <= i < items.len() ==> is_ordered(#[trigger] items[i]),
        JsonModel::Object(fields) => ascend(fields) && forall|i: int|
            0 <= i < fields.len() ==> is_ordered((#[trigger] fields[i]).1),
        _ => true,
    }
}

/// Fields in strictly increasing key order are written in the order in which they are given.
proof fn lemma_ascending_fields(fields: Seq<(Seq<char>, JsonModel)>)
    requires
        ascend(fields),
    ensures
        stable_sorted::<(String, String)>(canonical_fields(fields)) == canonical_fields(fields),
{
    let pairs = canonical_fields(fields);
    assert forall|i: int, j: int| 0 <= i < j < pairs.len() implies !ranks_before::<
        (String, String),
    >(#[trigger] pairs[j], #[trigger] pairs[i]) by {
        assert(<String as Key>::before(fields[i].0, fields[j].0));
        <String as Key>::lemma_transitive(fields[i].0, fields[j].0, fields[i].0);
        <String as Key>::lemma_irreflexive(fields[i].0);
    }
    lemma_stable_sorted::<(String, String)>(pairs);
    lemma_sorted_unique::<(String, String)>(stable_sorted::<(String, String)>(pairs), pairs);
}

proof fn lemma_array_read(items: Seq<JsonModel>, rest: Seq<char>, fuel: nat)
    requires
        forall|i: int| 0 <= i < items.len() ==> is_read(#[trigger] items[i]),
        fuel >= 3 * canonical(JsonModel::Array(items)).len(),
    ensures
        is_read_at(JsonModel::Array(items), rest, fuel),
{
    reveal_strlit("[");
    reveal_strlit("]");
    let inner = join(canonical_items(items), ","@);
    let text = canonical(JsonModel::Array(items)) + rest;
    let end = seq![']'] + rest;
    assert("]"@ =~= seq![']']);
    assert(text =~= seq!['['] + (inner + end));
    assert(text[0] == '[');
    assert(text.drop_first() =~= inner + end);
    if items.len() == 0 {
        assert(canonical_items(items) =~= Seq::empty());
        assert(inner =~= Seq::empty());
        assert(text =~= seq!['[', ']'] + rest);
        assert(text[1] == ']');
        assert(text.skip(2) =~= rest);
        assert(items =~= Seq::empty());
    } else {
        let texts = canonical_items(items);
        let after = lemma_join_head(texts);
        lemma_nonempty(items[0]);
        lemma_not_closed(items[0]);
        assert(texts[0] == canonical(items[0]));
        assert(text[1] == texts[0][0]) by {
            assert(inner == texts[0] + after);
            assert(text[1] == (inner + end)[0]);
        }
        lemma_items_read(items, rest, (fuel - 1) as nat);
    }
}

/// No value starts with what ends an array.
proof fn lemma_not_closed(value: JsonModel)
    ensures
        canonical(value).len() > 0,
        canonical(value)[0] != ']',
{
    lemma_nonempty(value);
    reveal_strlit("null");
    reveal_strlit("true");
    reveal_strlit("false");
    reveal_strlit("[");
    reveal_strlit("{");
    match value {
        JsonModel::Number(number) => {
            lemma_decimal_digits(number as nat);
        },
        _ => {},
    }
}

proof fn lemma_object_read(fields: Seq<(Seq<char>, JsonModel)>, rest: Seq<char>, fuel: nat)
    requires
        ascend(fields),
        forall|i: int| 0 <= i < fields.len() ==> is_read((#[trigger] fields[i]).1),
        fuel >= 3 * canonical(JsonModel::Object(fields)).len(),
    ensures
        is_read_at(JsonModel::Object(fields), rest, fuel),
{
    reveal_strlit("{");
    reveal_strlit("}");
    lemma_ascending_fields(fields);
    let texts = listed_fields(fields);
    let inner = join(texts, ","@);
    let text = canonical(JsonModel::Object(fields)) + rest;
    let end = seq!['}'] + rest;
    assert("}"@ =~= seq!['}']);
    assert(canonical(JsonModel::Object(fields)) == "{"@ + inner + "}"@);
    assert(text =~= seq!['{'] + (inner + end));
    assert(text[0] == '{');
    assert(text.drop_first() =~= inner + end);
    if fields.len() == 0 {
        assert(texts =~= Seq::empty());
        assert(inner =~= Seq::empty());
        assert(text =~= seq!['{', '}'] + rest);
        assert(text[1] == '}');
        assert(text.skip(2) =~= rest);
        assert(fields =~= Seq::empty());
    } else {
        let after = lemma_join_head(texts);
        assert(texts[0] == field_text((fields[0].0, canonical(fields[0].1))));
        assert(texts[0][0] == '"');
        assert(text[1] == texts[0][0]) by {
            assert(inner == texts[0] + after);
            assert(text[1] == (inner + end)[0]);
        }
        lemma_fields_read(fields, rest, (fuel - 1) as nat);
    }
}

proof fn lemma_leaf_read(value: JsonModel, rest: Seq<char>, fuel: nat)
    requires
        !(value is Array),
        !(value is Object),
        is_rest(rest),
        fuel > 0,
    ensures
        is_read_at(value, rest, fuel),
{
    reveal_strlit("null");
    reveal_strlit("true");
    reveal_strlit("false");
    let text = canonical(value) + rest;
    match value {
        JsonModel::Null => {
            assert(text[0] == 'n');
            lemma_word_read("null"@, value, rest);
        },
        JsonModel::Bool(true) => {
            assert(text[0] == 't');
            lemma_word_read("true"@, value, rest);
        },
        JsonModel::Bool(false) => {
            assert(text[0] == 'f');
            lemma_word_read("false"@, value, rest);
        },
        JsonModel::Number(number) => {
            let digits = decimal(number as nat);
            lemma_decimal_digits(number as nat);
            assert forall|i: int| 0 <= i < digits.len() implies is_digit(#[trigger] digits[i]) by {}
            assert(text[0] == digits[0]);
            assert(is_digit(text[0]));
            lemma_leading_digits(digits, rest);
            lemma_digits_value(number as nat);
            assert(text.skip(digits.len() as int) =~= rest);
        },
        JsonModel::Text(inner) => {
            assert(text =~= seq!['"'] + (escaped_text(inner) + (seq!['"'] + rest)));
            assert(text[0] == '"');
            assert(text.drop_first() =~= escaped_text(inner) + (seq!['"'] + rest));
            lemma_text_read(inner, rest);
        },
        _ => {},
    }
}

proof fn lemma_ordered_read(value: JsonModel)
    requires
        is_ordered(value),
    ensures
        is_read(value),
    decreases value,
{
    match value {
        JsonModel::Array(items) => {
            assert forall|i: int| 0 <= i < items.len() implies is_read(#[trigger] items[i]) by {
                lemma_ordered_read(items[i]);
            }
            assert forall|rest: Seq<char>, fuel: nat|
                is_rest(rest) && fuel >= 3 * canonical(value).len() && fuel
                    > 0 implies #[trigger] is_read_at(value, rest, fuel) by {
                lemma_array_read(items, rest, fuel);
            }
        },
        JsonModel::Object(fields) => {
            assert forall|i: int| 0 <= i < fields.len() implies is_read(
                (#[trigger] fields[i]).1,
            ) by {
                lemma_ordered_read(fields[i].1);
            }
            assert forall|rest: Seq<char>, fuel: nat|
                is_rest(rest) && fuel >= 3 * canonical(value).len() && fuel
                    > 0 implies #[trigger] is_read_at(value, rest, fuel) by {
                lemma_object_read(fields, rest, fuel);
            }
        },
        _ => {
            assert forall|rest: Seq<char>, fuel: nat|
                is_rest(rest) && fuel >= 3 * canonical(value).len() && fuel
                    > 0 implies #[trigger] is_read_at(value, rest, fuel) by {
                lemma_leaf_read(value, rest, fuel);
            }
        },
    }
}

/// A value whose fields are in key order reads back from its canonical text as it is.
pub proof fn law_ordered_values_read_back(value: JsonModel)
    requires
        is_ordered(value),
    ensures
        read_back(canonical(value)) == Some(value),
{
    lemma_ordered_read(value);
    let rest = Seq::<char>::empty();
    let text = canonical(value);
    assert(text + rest =~= text);
    assert(is_read_at(value, rest, 3 * text.len() + 1));
}

/// Whether no object in a value has two fields with one key.
pub open spec fn has_distinct_keys(value: JsonModel) -> bool
    decreases value,
{
    match value {
        JsonModel::Array(items) => forall|i: int|
            0 <= i < items.len() ==> has_distinct_keys(#[trigger] items[i]),
        JsonModel::Object(fields) => {
            &&& are_distinct(fields)
            &&& forall|i: int|
                0 <= i < fields.len() ==> has_distinct_keys((#[trigger] fields[i]).1)
        },
        _ => true,
    }
}

/// Whether no two fields have one key.
pub open spec fn are_distinct(fields: Seq<(Seq<char>, JsonModel)>) -> bool {
    forall|i: int, j: int|
        0 <= i < j < fields.len() ==> (#[trigger] fields[i]).0 != (#[trigger] fields[j]).0
}

/// Whether two values are the same but for the order of fields.
#[verifier::opaque]
pub open spec fn is_same_json(left: JsonModel, right: JsonModel) -> bool
    decreases left,
{
    match (left, right) {
        (JsonModel::Array(left), JsonModel::Array(right)) => {
            &&& left.len() == right.len()
            &&& forall|i: int|
                0 <= i < left.len() ==> is_same_json(#[trigger] left[i], right[i])
        },
        (JsonModel::Object(left), JsonModel::Object(right)) => {
            &&& left.len() == right.len()
            &&& forall|i: int|
                0 <= i < left.len() ==> exists|j: int|
                    0 <= j < right.len() && (#[trigger] left[i]).0 == (#[trigger] right[j]).0
                        && is_same_json(left[i].1, right[j].1)
            &&& forall|j: int|
                0 <= j < right.len() ==> exists|i: int|
                    0 <= i < left.len() && (#[trigger] left[i]).0 == (#[trigger] right[j]).0
                        && is_same_json(left[i].1, right[j].1)
        },
        _ => left == right,
    }
}

/// Whether a value is another one with its fields in order.
pub open spec fn is_counterpart(value: JsonModel, other: JsonModel) -> bool {
    is_ordered(other) && is_same_json(value, other) && canonical(other) == canonical(value)
}

/// Whether there is the value with its fields in order.
spec fn has_counterpart(value: JsonModel) -> bool {
    exists|other: JsonModel| #[trigger] is_counterpart(value, other)
}

/// The fields of an object as they stand in its canonical text.
pub open spec fn written_fields(fields: Seq<(Seq<char>, JsonModel)>) -> Seq<
    (Seq<char>, Seq<char>),
> {
    stable_sorted::<(String, String)>(canonical_fields(fields))
}

/// In the canonical text of an object whose keys are distinct, the fields stand one behind the other
/// with commas between them, each with its key and the canonical text of its value, and their keys
/// are in strictly increasing order.
pub proof fn law_keys_ascend(fields: Seq<(Seq<char>, JsonModel)>)
    requires
        are_distinct(fields),
    ensures
        canonical(JsonModel::Object(fields)) == "{"@ + join(
            written_fields(fields).map_values(
                |field: (Seq<char>, Seq<char>)| field_text(field),
            ),
            ","@,
        ) + "}"@,
        written_fields(fields).len() == fields.len(),
        forall|i: int, j: int|
            0 <= i < j < written_fields(fields).len() ==> <String as Key>::before(
                (#[trigger] written_fields(fields)[i]).0,
                (#[trigger] written_fields(fields)[j]).0,
            ),
        forall|key: Seq<char>, text: Seq<char>| #[trigger]
            written_fields(fields).contains((key, text)) <==> canonical_fields(fields).contains(
                (key, text),
            ),
{
    broadcast use vstd::seq_lib::group_to_multiset_ensures;

    let pairs = canonical_fields(fields);
    let sorted = written_fields(fields);
    lemma_stable_sorted::<(String, String)>(pairs);
    vstd::seq_lib::to_multiset_len(pairs);
    vstd::seq_lib::to_multiset_len(sorted);
    assert forall|key: Seq<char>, text: Seq<char>| #[trigger]
        sorted.contains((key, text)) <==> pairs.contains((key, text)) by {
        lemma_stable_sorted_contains::<(String, String)>(pairs, (key, text));
    }
    assert forall|i: int, j: int| 0 <= i < j < sorted.len() implies <String as Key>::before(
        (#[trigger] sorted[i]).0,
        (#[trigger] sorted[j]).0,
    ) by {
        assert(!ranks_before::<(String, String)>(sorted[j], sorted[i]));
        <String as Key>::lemma_total(sorted[i].0, sorted[j].0);
        lemma_one_key(fields, sorted, i, j);
    }
}

/// Distinct keys stay distinct when fields are sorted.
proof fn lemma_one_key(
    fields: Seq<(Seq<char>, JsonModel)>,
    sorted: Seq<(Seq<char>, Seq<char>)>,
    i: int,
    j: int,
)
    requires
        are_distinct(fields),
        sorted.to_multiset() == canonical_fields(fields).to_multiset(),
        0 <= i < j < sorted.len(),
    ensures
        sorted[i].0 != sorted[j].0,
{
    broadcast use vstd::seq_lib::group_to_multiset_ensures;

    let pairs = canonical_fields(fields);
    lemma_fields_differ(fields);
    pairs.lemma_multiset_has_no_duplicates();
    assert(sorted.contains(sorted[i]) && sorted.contains(sorted[j]));
    assert(pairs.to_multiset().count(sorted[i]) > 0 && pairs.to_multiset().count(sorted[j]) > 0);
    assert(pairs.contains(sorted[i]) && pairs.contains(sorted[j]));
    let k = choose|k: int| 0 <= k < pairs.len() && pairs[k] == sorted[i];
    let l = choose|l: int| 0 <= l < pairs.len() && pairs[l] == sorted[j];
    sorted.lemma_multiset_has_no_duplicates_conv();
    assert(k != l);
    if k < l {
        assert(fields[k].0 != fields[l].0);
    } else {
        assert(fields[l].0 != fields[k].0);
    }
}

/// The value of a field of the ordered counterpart of an object.
spec fn is_field_of(
    fields: Seq<(Seq<char>, JsonModel)>,
    written: (Seq<char>, Seq<char>),
    value: JsonModel,
) -> bool {
    &&& is_ordered(value)
    &&& canonical(value) == written.1
    &&& exists|k: int|
        0 <= k < fields.len() && (#[trigger] fields[k]).0 == written.0 && is_same_json(
            fields[k].1,
            value,
        )
}

proof fn lemma_array_counterpart(items: Seq<JsonModel>)
    requires
        forall|i: int| 0 <= i < items.len() ==> has_counterpart(#[trigger] items[i]),
    ensures
        has_counterpart(JsonModel::Array(items)),
{
    reveal(is_same_json);
    let others = Seq::new(items.len(), |i: int| choose|o: JsonModel| is_counterpart(items[i], o));
    let value = JsonModel::Array(items);
    let other = JsonModel::Array(others);
    assert forall|i: int| 0 <= i < items.len() implies is_counterpart(
        #[trigger] items[i],
        others[i],
    ) by {
        assert(has_counterpart(items[i]));
        let o = choose|o: JsonModel| is_counterpart(items[i], o);
        assert(others[i] == o);
    }
    assert(canonical_items(items) =~= canonical_items(others)) by {
        assert forall|i: int| 0 <= i < items.len() implies canonical_items(items)[i]
            == canonical_items(others)[i] by {
            assert(is_counterpart(items[i], others[i]));
        }
    }
    assert forall|i: int| 0 <= i < others.len() implies is_ordered(#[trigger] others[i]) by {
        assert(is_counterpart(items[i], others[i]));
    }
    assert forall|i: int| 0 <= i < items.len() implies is_same_json(
        #[trigger] items[i],
        others[i],
    ) by {
        assert(is_counterpart(items[i], others[i]));
    }
    assert(is_counterpart(value, other));
}

/// Fields that are those of an object in the order of its canonical text.
spec fn are_fields_of(
    fields: Seq<(Seq<char>, JsonModel)>,
    others: Seq<(Seq<char>, JsonModel)>,
) -> bool {
    &&& others.len() == written_fields(fields).len()
    &&& forall|i: int|
        0 <= i < others.len() ==> (#[trigger] others[i]).0 == written_fields(fields)[i].0
            && is_field_of(fields, written_fields(fields)[i], others[i].1)
}

proof fn lemma_fields_exist(fields: Seq<(Seq<char>, JsonModel)>) -> (others: Seq<
    (Seq<char>, JsonModel),
>)
    requires
        are_distinct(fields),
        forall|i: int| 0 <= i < fields.len() ==> has_counterpart((#[trigger] fields[i]).1),
    ensures
        are_fields_of(fields, others),
{
    law_keys_ascend(fields);
    let pairs = canonical_fields(fields);
    let sorted = written_fields(fields);
    let others = Seq::new(
        sorted.len(),
        |i: int| (sorted[i].0, choose|o: JsonModel| is_field_of(fields, sorted[i], o)),
    );
    assert forall|i: int| 0 <= i < others.len() implies (#[trigger] others[i]).0 == sorted[i].0
        && is_field_of(fields, sorted[i], others[i].1) by {
        assert(sorted.contains(sorted[i]));
        assert(sorted[i] == (sorted[i].0, sorted[i].1));
        assert(pairs.contains((sorted[i].0, sorted[i].1)));
        let k = choose|k: int| 0 <= k < pairs.len() && pairs[k] == sorted[i];
        assert(has_counterpart(fields[k].1));
        let o = choose|o: JsonModel| is_counterpart(fields[k].1, o);
        assert(fields[k].0 == sorted[i].0);
        assert(is_field_of(fields, sorted[i], o));
        let chosen = choose|o: JsonModel| is_field_of(fields, sorted[i], o);
        assert(others[i].1 == chosen);
    }
    others
}

proof fn lemma_fields_ordered(
    fields: Seq<(Seq<char>, JsonModel)>,
    others: Seq<(Seq<char>, JsonModel)>,
)
    requires
        are_distinct(fields),
        are_fields_of(fields, others),
    ensures
        is_ordered(JsonModel::Object(others)),
        canonical(JsonModel::Object(others)) == canonical(JsonModel::Object(fields)),
{
    law_keys_ascend(fields);
    let sorted = written_fields(fields);
    assert forall|i: int, j: int| 0 <= i < j < others.len() implies <String as Key>::before(
        (#[trigger] others[i]).0,
        (#[trigger] others[j]).0,
    ) by {
        assert(<String as Key>::before(sorted[i].0, sorted[j].0));
    }
    lemma_ascending_fields(others);
    assert(canonical_fields(others) =~= sorted) by {
        assert forall|i: int| 0 <= i < sorted.len() implies canonical_fields(others)[i]
            == sorted[i] by {
            assert(is_field_of(fields, sorted[i], others[i].1));
        }
    }
    assert forall|i: int| 0 <= i < others.len() implies is_ordered((#[trigger] others[i]).1) by {
        assert(is_field_of(fields, sorted[i], others[i].1));
    }
}

proof fn lemma_fields_same(
    fields: Seq<(Seq<char>, JsonModel)>,
    others: Seq<(Seq<char>, JsonModel)>,
)
    requires
        are_distinct(fields),
        are_fields_of(fields, others),
    ensures
        is_same_json(JsonModel::Object(fields), JsonModel::Object(others)),
{
    reveal(is_same_json);
    law_keys_ascend(fields);
    let pairs = canonical_fields(fields);
    let sorted = written_fields(fields);
    assert forall|j: int| 0 <= j < others.len() implies exists|i: int|
        0 <= i < fields.len() && (#[trigger] fields[i]).0 == (#[trigger] others[j]).0
            && is_same_json(fields[i].1, others[j].1) by {
        assert(is_field_of(fields, sorted[j], others[j].1));
        let k = choose|k: int|
            0 <= k < fields.len() && (#[trigger] fields[k]).0 == sorted[j].0 && is_same_json(
                fields[k].1,
                others[j].1,
            );
        assert(fields[k].0 == others[j].0);
    }
    assert forall|i: int| 0 <= i < fields.len() implies exists|j: int|
        0 <= j < others.len() && (#[trigger] fields[i]).0 == (#[trigger] others[j]).0
            && is_same_json(fields[i].1, others[j].1) by {
        assert(pairs[i] == (fields[i].0, canonical(fields[i].1)));
        assert(pairs.contains(pairs[i]));
        assert(sorted.contains((fields[i].0, canonical(fields[i].1))));
        let j = choose|j: int| 0 <= j < sorted.len() && sorted[j] == pairs[i];
        assert(others[j].0 == sorted[j].0);
        assert(is_field_of(fields, sorted[j], others[j].1));
        let k = choose|k: int|
            0 <= k < fields.len() && (#[trigger] fields[k]).0 == sorted[j].0 && is_same_json(
                fields[k].1,
                others[j].1,
            );
        if k < i {
            assert(fields[k].0 != fields[i].0);
        } else if i < k {
            assert(fields[i].0 != fields[k].0);
        }
        assert(fields[i].0 == others[j].0 && is_same_json(fields[i].1, others[j].1));
    }
}

proof fn lemma_counterpart(value: JsonModel)
    requires
        has_distinct_keys(value),
    ensures
        has_counterpart(value),
    decreases value,
{
    reveal(is_same_json);
    match value {
        JsonModel::Array(items) => {
            assert forall|i: int| 0 <= i < items.len() implies has_counterpart(
                #[trigger] items[i],
            ) by {
                lemma_counterpart(items[i]);
            }
            lemma_array_counterpart(items);
        },
        JsonModel::Object(fields) => {
            assert forall|i: int| 0 <= i < fields.len() implies has_counterpart(
                (#[trigger] fields[i]).1,
            ) by {
                lemma_counterpart(fields[i].1);
            }
            let others = lemma_fields_exist(fields);
            lemma_fields_ordered(fields, others);
            lemma_fields_same(fields, others);
            assert(is_counterpart(value, JsonModel::Object(others)));
        },
        _ => {
            assert(is_counterpart(value, value));
        },
    }
}

/// The canonical text of every value whose keys are distinct reads back to that value, the order of
/// fields aside: it is read as the same value with the keys of every object in strictly increasing
/// order.
pub proof fn law_canonical_reads_back(value: JsonModel)
    requires
        has_distinct_keys(value),
    ensures
        read_back(canonical(value)) matches Some(other) && is_ordered(other) && is_same_json(
            value,
            other,
        ),
{
    lemma_counterpart(value);
    let other = choose|o: JsonModel| is_counterpart(value, o);
    law_ordered_values_read_back(other);
}

/// Fields under distinct keys do not repeat.
proof fn lemma_fields_differ(fields: Seq<(Seq<char>, JsonModel)>)
    requires
        are_distinct(fields),
    ensures
        canonical_fields(fields).no_duplicates(),
{
    let pairs = canonical_fields(fields);
    assert forall|k: int, l: int|
        0 <= k < pairs.len() && 0 <= l < pairs.len() && k != l implies pairs[k] != pairs[l] by {
        if k < l {
            assert(fields[k].0 != fields[l].0);
        } else {
            assert(fields[l].0 != fields[k].0);
        }
    }
}

/// Whether fields hold one with the key and the canonical text of a given field.
spec fn has_match(field: (Seq<char>, JsonModel), fields: Seq<(Seq<char>, JsonModel)>) -> bool {
    exists|i: int|
        0 <= i < fields.len() && (#[trigger] fields[i]).0 == field.0 && canonical(fields[i].1)
            == canonical(field.1)
}

proof fn lemma_match_written(
    field: (Seq<char>, JsonModel),
    fields: Seq<(Seq<char>, JsonModel)>,
)
    requires
        has_match(field, fields),
    ensures
        canonical_fields(fields).contains((field.0, canonical(field.1))),
{
    let i = choose|i: int|
        0 <= i < fields.len() && (#[trigger] fields[i]).0 == field.0 && canonical(fields[i].1)
            == canonical(field.1);
    assert(canonical_fields(fields)[i] == (field.0, canonical(field.1)));
}

/// Two objects whose fields have the same keys and canonical texts have the same canonical text.
proof fn lemma_same_fields(
    left: Seq<(Seq<char>, JsonModel)>,
    right: Seq<(Seq<char>, JsonModel)>,
)
    requires
        are_distinct(left),
        are_distinct(right),
        forall|i: int| 0 <= i < left.len() ==> has_match(#[trigger] left[i], right),
        forall|i: int| 0 <= i < right.len() ==> has_match(#[trigger] right[i], left),
    ensures
        canonical(JsonModel::Object(left)) == canonical(JsonModel::Object(right)),
{
    broadcast use vstd::seq_lib::group_to_multiset_ensures;

    let l = canonical_fields(left);
    let r = canonical_fields(right);
    lemma_fields_differ(left);
    lemma_fields_differ(right);
    l.lemma_multiset_has_no_duplicates();
    r.lemma_multiset_has_no_duplicates();
    assert forall|pair: (Seq<char>, Seq<char>)| #[trigger]
        l.to_multiset().count(pair) == r.to_multiset().count(pair) by {
        if l.contains(pair) {
            let i = choose|i: int| 0 <= i < l.len() && l[i] == pair;
            lemma_match_written(left[i], right);
        }
        if r.contains(pair) {
            let i = choose|i: int| 0 <= i < r.len() && r[i] == pair;
            lemma_match_written(right[i], left);
        }
        assert(l.contains(pair) == r.contains(pair));
    }
    assert(l.to_multiset() =~= r.to_multiset());
    lemma_stable_sorted::<(String, String)>(l);
    lemma_stable_sorted::<(String, String)>(r);
    lemma_sorted_unique::<(String, String)>(
        stable_sorted::<(String, String)>(l),
        stable_sorted::<(String, String)>(r),
    );
}

proof fn lemma_same_items(left: Seq<JsonModel>, right: Seq<JsonModel>)
    requires
        left.len() == right.len(),
        forall|i: int|
            0 <= i < left.len() ==> canonical(#[trigger] left[i]) == canonical(right[i]),
    ensures
        canonical(JsonModel::Array(left)) == canonical(JsonModel::Array(right)),
{
    assert(canonical_items(left) =~= canonical_items(right));
}

/// Every field of an object has one of its kind in an object that is the same.
proof fn lemma_partner(
    left: Seq<(Seq<char>, JsonModel)>,
    right: Seq<(Seq<char>, JsonModel)>,
    i: int,
) -> (j: int)
    requires
        is_same_json(JsonModel::Object(left), JsonModel::Object(right)),
        0 <= i < left.len(),
    ensures
        0 <= j < right.len(),
        left[i].0 == right[j].0,
        is_same_json(left[i].1, right[j].1),
{
    reveal(is_same_json);
    choose|j: int|
        0 <= j < right.len() && left[i].0 == (#[trigger] right[j]).0 && is_same_json(
            left[i].1,
            right[j].1,
        )
}

/// Every field of an object is one of its kind in an object that is the same.
proof fn lemma_other_partner(
    left: Seq<(Seq<char>, JsonModel)>,
    right: Seq<(Seq<char>, JsonModel)>,
    j: int,
) -> (i: int)
    requires
        is_same_json(JsonModel::Object(left), JsonModel::Object(right)),
        0 <= j < right.len(),
    ensures
        0 <= i < left.len(),
        left[i].0 == right[j].0,
        is_same_json(left[i].1, right[j].1),
{
    reveal(is_same_json);
    choose|i: int|
        0 <= i < left.len() && (#[trigger] left[i]).0 == right[j].0 && is_same_json(
            left[i].1,
            right[j].1,
        )
}

/// The items of an array are those of an array that is the same, and other values are the same where
/// they are equal.
proof fn lemma_same_kind(left: JsonModel, right: JsonModel)
    requires
        is_same_json(left, right),
    ensures
        match (left, right) {
            (JsonModel::Array(l), JsonModel::Array(r)) => {
                &&& l.len() == r.len()
                &&& forall|i: int| 0 <= i < l.len() ==> is_same_json(#[trigger] l[i], r[i])
            },
            (JsonModel::Object(_), JsonModel::Object(_)) => true,
            _ => left == right,
        },
{
    reveal(is_same_json);
}

/// The order in which fields are given does not change the canonical text of a value, at any depth.
pub proof fn law_canonical_ignores_order(left: JsonModel, right: JsonModel)
    requires
        has_distinct_keys(left),
        has_distinct_keys(right),
        is_same_json(left, right),
    ensures
        canonical(left) == canonical(right),
    decreases left,
{
    lemma_same_kind(left, right);
    match (left, right) {
        (JsonModel::Array(l), JsonModel::Array(r)) => {
            assert forall|i: int| 0 <= i < l.len() implies canonical(#[trigger] l[i])
                == canonical(r[i]) by {
                law_canonical_ignores_order(l[i], r[i]);
            }
            lemma_same_items(l, r);
        },
        (JsonModel::Object(l), JsonModel::Object(r)) => {
            assert forall|i: int| 0 <= i < l.len() implies has_match(#[trigger] l[i], r) by {
                let j = lemma_partner(l, r, i);
                law_canonical_ignores_order(l[i].1, r[j].1);
            }
            assert forall|j: int| 0 <= j < r.len() implies has_match(#[trigger] r[j], l) by {
                let i = lemma_other_partner(l, r, j);
                law_canonical_ignores_order(l[i].1, r[j].1);
            }
            lemma_same_fields(l, r);
        },
        _ => {},
    }
}

} // verus!
