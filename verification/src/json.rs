//! JSON documents and their canonical text.

use vstd::prelude::*;
use vstd::string::*;

use crate::digest::{digest_bytes, digest_of};
use crate::digest::hex_digit;
use crate::sorting::{lemma_sorted_unique, lemma_stable_sorted, stable_sort, stable_sorted};
use crate::text::{decimal, join, truth, truth_text};

verus! {

/// A JSON value. Its numbers are non-negative integers, the only ones that snapshots hold.
#[derive(Debug)]
pub enum Json {
    Null,
    Bool(bool),
    Number(u64),
    Text(String),
    Array(Vec<Json>),
    Object(Vec<(String, Json)>),
}

/// The content of a JSON value.
pub enum JsonModel {
    Null,
    Bool(bool),
    Number(u64),
    Text(Seq<char>),
    Array(Seq<JsonModel>),
    Object(Seq<(Seq<char>, JsonModel)>),
}

impl DeepView for Json {
    type V = JsonModel;

    open spec fn deep_view(&self) -> JsonModel {
        json_model(*self)
    }
}

/// The content of a JSON value.
pub open spec fn json_model(value: Json) -> JsonModel
    decreases value,
{
    match value {
        Json::Null => JsonModel::Null,
        Json::Bool(value) => JsonModel::Bool(value),
        Json::Number(value) => JsonModel::Number(value),
        Json::Text(value) => JsonModel::Text(value@),
        Json::Array(items) => JsonModel::Array(
            Seq::new(
                items@.len(),
                |i: int|
                    if 0 <= i < items@.len() {
                        json_model(items@[i])
                    } else {
                        JsonModel::Null
                    },
            ),
        ),
        Json::Object(fields) => JsonModel::Object(
            Seq::new(
                fields@.len(),
                |i: int|
                    if 0 <= i < fields@.len() {
                        (fields@[i].0@, json_model(fields@[i].1))
                    } else {
                        (Seq::empty(), JsonModel::Null)
                    },
            ),
        ),
    }
}

/// A character inside a JSON string.
pub open spec fn escaped(c: char) -> Seq<char> {
    if c == '"' {
        seq!['\\', '"']
    } else if c == '\\' {
        seq!['\\', '\\']
    } else if c as nat == 8 {
        seq!['\\', 'b']
    } else if c as nat == 9 {
        seq!['\\', 't']
    } else if c as nat == 10 {
        seq!['\\', 'n']
    } else if c as nat == 12 {
        seq!['\\', 'f']
    } else if c as nat == 13 {
        seq!['\\', 'r']
    } else if (c as nat) < 32 {
        seq!['\\', 'u', '0', '0', hex_digit(c as int / 16), hex_digit(c as int % 16)]
    } else {
        seq![c]
    }
}

/// The characters of a text as they stand inside a JSON string.
pub open spec fn escaped_text(text: Seq<char>) -> Seq<char>
    decreases text.len(),
{
    if text.len() == 0 {
        Seq::empty()
    } else {
        escaped(text[0]) + escaped_text(text.drop_first())
    }
}

/// A text as a JSON string.
pub open spec fn quoted(text: Seq<char>) -> Seq<char> {
    seq!['"'] + escaped_text(text) + seq!['"']
}

/// Calls `serde_json::to_string` on a text: the text between quotation marks, in which the
/// quotation mark, the backslash and the control characters below the space are escaped and every
/// other character stands for itself. Serialising a text into memory cannot fail.
#[verifier::external_body]
fn json_string(text: &str) -> (quotation: String)
    ensures
        quotation@ == quoted(text@),
{
    serde_json::to_string(text).unwrap()
}

/// Formats a `serde_json::Number` that holds a non-negative integer: its decimal notation.
#[verifier::external_body]
fn json_number(value: u64) -> (digits: String)
    ensures
        digits@ == decimal(value as nat),
{
    serde_json::Number::from(value).to_string()
}

/// A field of an object as it stands in a document: its key and the canonical text of its value.
pub open spec fn field_text(field: (Seq<char>, Seq<char>)) -> Seq<char> {
    quoted(field.0) + ":"@ + field.1
}

/// An object with the given fields, in key order.
pub open spec fn object_text(fields: Seq<(Seq<char>, Seq<char>)>) -> Seq<char> {
    "{"@ + join(
        stable_sorted::<(String, String)>(fields).map_values(
            |field: (Seq<char>, Seq<char>)| field_text(field),
        ),
        ","@,
    ) + "}"@
}

/// The canonical text of a JSON value: no white space, and the fields of each object in key order.
pub open spec fn canonical(value: JsonModel) -> Seq<char>
    decreases value,
{
    match value {
        JsonModel::Null => "null"@,
        JsonModel::Bool(value) => truth(value),
        JsonModel::Number(value) => decimal(value as nat),
        JsonModel::Text(value) => quoted(value),
        JsonModel::Array(items) => "["@ + join(canonical_items(items), ","@) + "]"@,
        JsonModel::Object(fields) => object_text(canonical_fields(fields)),
    }
}

/// The canonical texts of a sequence of values.
pub open spec fn canonical_items(items: Seq<JsonModel>) -> Seq<Seq<char>>
    decreases items,
{
    Seq::new(
        items.len(),
        |i: int|
            if 0 <= i < items.len() {
                canonical(items[i])
            } else {
                Seq::empty()
            },
    )
}

/// The fields of an object with the canonical texts of their values.
pub open spec fn canonical_fields(fields: Seq<(Seq<char>, JsonModel)>) -> Seq<
    (Seq<char>, Seq<char>),
>
    decreases fields,
{
    Seq::new(
        fields.len(),
        |i: int|
            if 0 <= i < fields.len() {
                (fields[i].0, canonical(fields[i].1))
            } else {
                (Seq::empty(), Seq::empty())
            },
    )
}

/// Appends the canonical text of a JSON value.
pub fn write_canonical_json(value: &Json, output: &mut String)
    ensures
        final(output)@ == old(output)@ + canonical(value.deep_view()),
    decreases value,
{
    let ghost start = output@;
    let ghost model = json_model(*value);
    match value {
        Json::Null => output.append("null"),
        Json::Bool(value) => output.append(truth_text(*value)),
        Json::Number(value) => {
            let digits = json_number(*value);
            output.append(digits.as_str());
        },
        Json::Text(value) => {
            let quotation = json_string(value.as_str());
            output.append(quotation.as_str());
        },
        Json::Array(items) => {
            let ghost all = canonical_items(model->Array_0);
            output.append("[");
            let mut index: usize = 0;
            assert(all.take(0) =~= Seq::<Seq<char>>::empty());
            assert(output@ =~= start + "["@ + join(all.take(0), ","@));
            while index < items.len()
                invariant
                    value matches Json::Array(inner) && inner == items,
                    model == json_model(*value),
                    all == canonical_items(model->Array_0),
                    all.len() == items.len(),
                    index <= items.len(),
                    output@ == start + "["@ + join(all.take(index as int), ","@),
                decreases items.len() - index,
            {
                proof {
                    assert(all.take(index + 1).drop_last() =~= all.take(index as int));
                    assert(all.take(index + 1).last() == canonical(json_model(items@[index as int])));
                }
                if index > 0 {
                    output.append(",");
                }
                write_canonical_json(&items[index], output);
                index += 1;
                assert(output@ =~= start + "["@ + join(all.take(index as int), ","@));
            }
            output.append("]");
            assert(all.take(index as int) =~= all);
            assert(output@ =~= start + ("["@ + join(all, ","@) + "]"@));
        },
        Json::Object(fields) => {
            let ghost all = canonical_fields(model->Object_0);
            let mut pairs: Vec<(String, String)> = Vec::new();
            let mut index: usize = 0;
            while index < fields.len()
                invariant
                    value matches Json::Object(inner) && inner == fields,
                    model == json_model(*value),
                    all == canonical_fields(model->Object_0),
                    all.len() == fields.len(),
                    index <= fields.len(),
                    pairs.deep_view() == all.take(index as int),
                decreases fields.len() - index,
            {
                let mut text = String::new();
                write_canonical_json(&fields[index].1, &mut text);
                let ghost before = pairs.deep_view();
                pairs.push((fields[index].0.clone(), text));
                proof {
                    assert(text@ =~= all[index as int].1);
                    assert(pairs.deep_view() =~= before.push((fields@[index as int].0@, text@)));
                    assert(pairs.deep_view() =~= all.take(index + 1));
                }
                index += 1;
            }
            assert(all.take(index as int) =~= all);
            write_object(&mut pairs, output);
        },
    }
}

/// Appends an object with the given fields, in key order.
fn write_object(fields: &mut Vec<(String, String)>, output: &mut String)
    ensures
        final(output)@ == old(output)@ + object_text(old(fields).deep_view()),
{
    let ghost start = output@;
    stable_sort(fields);
    let ghost texts = fields.deep_view().map_values(
        |field: (Seq<char>, Seq<char>)| field_text(field),
    );
    output.append("{");
    let mut index: usize = 0;
    assert(texts.take(0) =~= Seq::<Seq<char>>::empty());
    assert(output@ =~= start + "{"@ + join(texts.take(0), ","@));
    while index < fields.len()
        invariant
            index <= fields.len(),
            texts == fields.deep_view().map_values(
                |field: (Seq<char>, Seq<char>)| field_text(field),
            ),
            output@ == start + "{"@ + join(texts.take(index as int), ","@),
        decreases fields.len() - index,
    {
        proof {
            assert(texts.take(index + 1).drop_last() =~= texts.take(index as int));
            assert(texts.take(index + 1).last() == field_text(
                (fields@[index as int].0@, fields@[index as int].1@),
            ));
        }
        if index > 0 {
            output.append(",");
        }
        let quotation = json_string(fields[index].0.as_str());
        output.append(quotation.as_str());
        output.append(":");
        output.append(fields[index].1.as_str());
        index += 1;
        assert(output@ =~= start + "{"@ + join(texts.take(index as int), ","@));
    }
    output.append("}");
    assert(texts.take(index as int) =~= texts);
    assert(output@ =~= start + ("{"@ + join(texts, ","@) + "}"@));
}

/// The canonical text of a JSON value.
pub fn canonical_json(value: &Json) -> (text: String)
    ensures
        text@ == canonical(value.deep_view()),
{
    let mut output = String::new();
    write_canonical_json(value, &mut output);
    assert(output@ =~= canonical(value.deep_view()));
    output
}

/// The digest of a JSON value: the digest of the bytes of its canonical text.
pub open spec fn json_digest(value: JsonModel) -> Seq<char> {
    digest_of(vstd::utf8::encode_utf8(canonical(value)))
}

/// The digest of a JSON value.
pub fn digest_json(value: &Json) -> (digest: String)
    ensures
        digest@ == json_digest(value.deep_view()),
        crate::digest::is_digest_text(digest@),
{
    let text = canonical_json(value);
    digest_bytes(text.as_str().as_bytes())
}

/// The order in which the fields of an object are given does not change its canonical text.
pub proof fn law_canonical_ignores_field_order(
    left: Seq<(Seq<char>, JsonModel)>,
    right: Seq<(Seq<char>, JsonModel)>,
)
    requires
        left.to_multiset() == right.to_multiset(),
    ensures
        canonical(JsonModel::Object(left)) == canonical(JsonModel::Object(right)),
{
    let l = canonical_fields(left);
    let r = canonical_fields(right);
    lemma_map_multiset(left, right);
    lemma_stable_sorted::<(String, String)>(l);
    lemma_stable_sorted::<(String, String)>(r);
    lemma_sorted_unique::<(String, String)>(
        stable_sorted::<(String, String)>(l),
        stable_sorted::<(String, String)>(r),
    );
}

proof fn lemma_map_multiset(
    left: Seq<(Seq<char>, JsonModel)>,
    right: Seq<(Seq<char>, JsonModel)>,
)
    requires
        left.to_multiset() == right.to_multiset(),
    ensures
        canonical_fields(left).to_multiset() == canonical_fields(right).to_multiset(),
    decreases left.len(),
{
    broadcast use vstd::seq_lib::group_to_multiset_ensures;

    vstd::seq_lib::to_multiset_len(left);
    vstd::seq_lib::to_multiset_len(right);
    assert(left.len() == right.len());
    if left.len() == 0 {
        assert(left =~= right);
    } else {
        let last = left.last();
        assert(left.contains(last)) by {
            assert(left[left.len() - 1] == last);
        }
        assert(right.to_multiset().count(last) > 0);
        assert(right.contains(last));
        let at = choose|i: int| 0 <= i < right.len() && right[i] == last;
        let shorter = right.remove(at);
        assert(left =~= left.drop_last().push(last));
        assert(left.drop_last().to_multiset() =~= left.to_multiset().remove(last));
        assert(shorter.to_multiset() =~= right.to_multiset().remove(last));
        lemma_map_multiset(left.drop_last(), shorter);
        let item = (last.0, canonical(last.1));
        assert(canonical_fields(left) =~= canonical_fields(left.drop_last()).push(item));
        assert(canonical_fields(shorter) =~= canonical_fields(right).remove(at));
        assert(canonical_fields(right)[at] == item);
        assert(canonical_fields(right).to_multiset() =~= canonical_fields(
            shorter,
        ).to_multiset().insert(item));
    }
}

} // verus!
