//! Reading canonical texts back: values with the same canonical text are the same.

use vstd::prelude::*;

use crate::digest::hex_digit;
use crate::json::{
    JsonModel, canonical, canonical_fields, canonical_items, escaped, escaped_text, field_text,
    quoted,
};
use crate::sorting::{lemma_stable_sorted, lemma_stable_sorted_contains, stable_sorted};
use crate::text::{decimal, join, lemma_decimal_digits, lemma_decimal_injective, truth};

verus! {

/// Where a reader of a canonical text is.
pub enum Mode {
    /// Between values.
    Plain,
    /// In a string.
    Inside,
    /// In a string, behind a backslash.
    Escape,
}

/// How deep a reader is in arrays and objects, and where.
pub struct Reader {
    pub depth: int,
    pub mode: Mode,
}

/// A reader between values.
pub open spec fn reader(depth: int) -> Reader {
    Reader { depth, mode: Mode::Plain }
}

/// What a character does to a reader.
pub open spec fn read(reader: Reader, c: char) -> Reader {
    match reader.mode {
        Mode::Escape => Reader { mode: Mode::Inside, ..reader },
        Mode::Inside => if c == '"' {
            Reader { mode: Mode::Plain, ..reader }
        } else if c == '\\' {
            Reader { mode: Mode::Escape, ..reader }
        } else {
            reader
        },
        Mode::Plain => if c == '"' {
            Reader { mode: Mode::Inside, ..reader }
        } else if c == '[' || c == '{' {
            Reader { depth: reader.depth + 1, ..reader }
        } else if c == ']' || c == '}' {
            Reader { depth: reader.depth - 1, ..reader }
        } else {
            reader
        },
    }
}

/// What a text does to a reader.
pub open spec fn run(reader: Reader, text: Seq<char>) -> Reader
    decreases text.len(),
{
    if text.len() == 0 {
        reader
    } else {
        run(read(reader, text[0]), text.drop_first())
    }
}

/// Whether a character ends a value.
pub open spec fn ends(c: char) -> bool {
    c == ',' || c == ']' || c == '}'
}

/// Whether a reader meets no end of a value at a depth.
pub open spec fn stays(depth: int, from: Reader, text: Seq<char>) -> bool
    decreases text.len(),
{
    text.len() == 0 || (!(from == reader(depth) && ends(text[0])) && stays(
        depth,
        read(from, text[0]),
        text.drop_first(),
    ))
}

proof fn lemma_run_parts(from: Reader, first: Seq<char>, second: Seq<char>)
    ensures
        run(from, first + second) == run(run(from, first), second),
    decreases first.len(),
{
    if first.len() == 0 {
        assert(first + second =~= second);
    } else {
        let whole = first + second;
        assert(whole[0] == first[0]);
        assert(whole.drop_first() =~= first.drop_first() + second);
        lemma_run_parts(read(from, first[0]), first.drop_first(), second);
    }
}

proof fn lemma_stays_parts(depth: int, from: Reader, first: Seq<char>, second: Seq<char>)
    ensures
        stays(depth, from, first + second) == (stays(depth, from, first) && stays(
            depth,
            run(from, first),
            second,
        )),
    decreases first.len(),
{
    if first.len() == 0 {
        assert(first + second =~= second);
    } else {
        let whole = first + second;
        assert(whole[0] == first[0]);
        assert(whole.drop_first() =~= first.drop_first() + second);
        lemma_stays_parts(depth, read(from, first[0]), first.drop_first(), second);
    }
}

/// Whether a reader that starts on a text between values is between values behind it, as deep as
/// before, and meets no end of a value at that depth or above it.
pub open spec fn is_whole_at(depth: int, at: int, text: Seq<char>) -> bool {
    run(reader(at), text) == reader(at) && stays(depth, reader(at), text)
}

/// Whether a text is read as a whole wherever it stands.
pub open spec fn is_whole(text: Seq<char>) -> bool {
    forall|depth: int, at: int| depth <= at ==> #[trigger] is_whole_at(depth, at, text)
}

/// Two texts that are read as a whole, one behind the other, are read as a whole.
proof fn lemma_whole_parts(first: Seq<char>, second: Seq<char>)
    requires
        is_whole(first),
        is_whole(second),
    ensures
        is_whole(first + second),
{
    assert forall|depth: int, at: int| depth <= at implies #[trigger] is_whole_at(
        depth,
        at,
        first + second,
    ) by {
        assert(is_whole_at(depth, at, first));
        assert(is_whole_at(depth, at, second));
        lemma_run_parts(reader(at), first, second);
        lemma_stays_parts(depth, reader(at), first, second);
    }
}

/// Whether a character means nothing to a reader between values.
pub open spec fn is_inert(c: char) -> bool {
    !ends(c) && c != '"' && c != '[' && c != '{'
}

/// A text of characters that mean nothing to a reader is read as a whole.
proof fn lemma_inert_whole(text: Seq<char>)
    requires
        forall|i: int| 0 <= i < text.len() ==> is_inert(#[trigger] text[i]),
    ensures
        is_whole(text),
    decreases text.len(),
{
    assert forall|depth: int, at: int| depth <= at implies #[trigger] is_whole_at(
        depth,
        at,
        text,
    ) by {
        if text.len() > 0 {
            assert(is_inert(text[0]));
            assert(read(reader(at), text[0]) == reader(at));
            assert forall|i: int| 0 <= i < text.drop_first().len() implies is_inert(
                #[trigger] text.drop_first()[i],
            ) by {
                assert(text.drop_first()[i] == text[i + 1]);
            }
            lemma_inert_whole(text.drop_first());
            assert(is_whole_at(depth, at, text.drop_first()));
        }
    }
}

/// The characters of a text inside a string leave a reader in the string.
proof fn lemma_escaped_inside(text: Seq<char>, depth: int, at: int)
    ensures
        run(Reader { depth: at, mode: Mode::Inside }, escaped_text(text)) == (Reader {
            depth: at,
            mode: Mode::Inside,
        }),
        stays(depth, Reader { depth: at, mode: Mode::Inside }, escaped_text(text)),
    decreases text.len(),
{
    let inside = Reader { depth: at, mode: Mode::Inside };
    if text.len() > 0 {
        let c = text[0];
        let one = escaped(c);
        assert(run(inside, one) == inside && stays(depth, inside, one)) by {
            lemma_one_escaped(c, depth, at);
        }
        lemma_escaped_inside(text.drop_first(), depth, at);
        lemma_run_parts(inside, one, escaped_text(text.drop_first()));
        lemma_stays_parts(depth, inside, one, escaped_text(text.drop_first()));
    }
}

proof fn lemma_one_escaped(c: char, depth: int, at: int)
    ensures
        run(Reader { depth: at, mode: Mode::Inside }, escaped(c)) == (Reader {
            depth: at,
            mode: Mode::Inside,
        }),
        stays(depth, Reader { depth: at, mode: Mode::Inside }, escaped(c)),
{
    let inside = Reader { depth: at, mode: Mode::Inside };
    let one = escaped(c);
    let rest = one.drop_first();
    if one.len() == 1 {
        assert(rest.len() == 0);
        reveal_with_fuel(run, 2);
        reveal_with_fuel(stays, 2);
    } else if one.len() == 2 {
        assert(rest.len() == 1 && rest[0] == one[1]);
        assert(rest.drop_first().len() == 0);
        reveal_with_fuel(run, 3);
        reveal_with_fuel(stays, 3);
    } else {
        let tail = seq!['0', '0', hex_digit(c as int / 16), hex_digit(c as int % 16)];
        let head = seq!['\\', 'u'];
        assert(one =~= head + tail);
        assert(head.drop_first() =~= seq!['u']);
        assert(head.drop_first().drop_first().len() == 0);
        reveal_with_fuel(run, 3);
        reveal_with_fuel(stays, 3);
        assert(run(inside, head) == inside);
        assert(stays(depth, inside, head));
        lemma_unmarked_inside(tail, depth, at);
        lemma_run_parts(inside, head, tail);
        lemma_stays_parts(depth, inside, head, tail);
    }
}

proof fn lemma_unmarked_inside(text: Seq<char>, depth: int, at: int)
    requires
        forall|i: int| 0 <= i < text.len() ==> #[trigger] text[i] != '"' && text[i] != '\\',
    ensures
        run(Reader { depth: at, mode: Mode::Inside }, text) == (Reader {
            depth: at,
            mode: Mode::Inside,
        }),
        stays(depth, Reader { depth: at, mode: Mode::Inside }, text),
    decreases text.len(),
{
    if text.len() > 0 {
        assert(text[0] != '"');
        assert forall|i: int| 0 <= i < text.drop_first().len() implies #[trigger]
            text.drop_first()[i] != '"' && text.drop_first()[i] != '\\' by {
            assert(text.drop_first()[i] == text[i + 1]);
        }
        lemma_unmarked_inside(text.drop_first(), depth, at);
    }
}

/// A string is read as a whole.
proof fn lemma_quoted_whole(text: Seq<char>)
    ensures
        is_whole(quoted(text)),
{
    let open = seq!['"'];
    let body = escaped_text(text);
    assert forall|depth: int, at: int| depth <= at implies #[trigger] is_whole_at(
        depth,
        at,
        quoted(text),
    ) by {
        let inside = Reader { depth: at, mode: Mode::Inside };
        assert(open.drop_first().len() == 0);
        reveal_with_fuel(run, 2);
        reveal_with_fuel(stays, 2);
        assert(run(reader(at), open) == inside);
        assert(stays(depth, reader(at), open));
        lemma_escaped_inside(text, depth, at);
        lemma_run_parts(reader(at), open, body);
        lemma_stays_parts(depth, reader(at), open, body);
        assert(run(inside, open) == reader(at));
        assert(stays(depth, inside, open));
        lemma_run_parts(reader(at), open + body, open);
        lemma_stays_parts(depth, reader(at), open + body, open);
    }
}

/// Whether a text is read as a whole inside an array or an object: what ends a value there does not
/// end the array or the object.
pub open spec fn is_inner(text: Seq<char>) -> bool {
    forall|depth: int, at: int| depth < at ==> #[trigger] is_whole_at(depth, at, text)
}

/// Texts that are read as a whole, with commas between them, are read as a whole inside an array.
proof fn lemma_join_inner(parts: Seq<Seq<char>>)
    requires
        forall|i: int| 0 <= i < parts.len() ==> is_whole(#[trigger] parts[i]),
    ensures
        is_inner(join(parts, ","@)),
    decreases parts.len(),
{
    reveal_strlit(",");
    let text = join(parts, ","@);
    if parts.len() == 0 {
        assert forall|depth: int, at: int| depth < at implies #[trigger] is_whole_at(
            depth,
            at,
            text,
        ) by {}
    } else if parts.len() == 1 {
        assert(is_whole(parts[0]));
    } else {
        let before = join(parts.drop_last(), ","@);
        let last = parts.last();
        assert(is_whole(last)) by {
            assert(parts[parts.len() - 1] == last);
        }
        assert forall|i: int| 0 <= i < parts.drop_last().len() implies is_whole(
            #[trigger] parts.drop_last()[i],
        ) by {
            assert(parts.drop_last()[i] == parts[i]);
        }
        lemma_join_inner(parts.drop_last());
        assert forall|depth: int, at: int| depth < at implies #[trigger] is_whole_at(
            depth,
            at,
            text,
        ) by {
            assert(is_whole_at(depth, at, before));
            assert(is_whole_at(depth, at, last));
            assert(","@.drop_first().len() == 0);
            assert(","@[0] == ',');
            reveal_with_fuel(run, 2);
            reveal_with_fuel(stays, 2);
            assert(run(reader(at), ","@) == reader(at));
            assert(stays(depth, reader(at), ","@));
            lemma_run_parts(reader(at), before, ","@);
            lemma_stays_parts(depth, reader(at), before, ","@);
            lemma_run_parts(reader(at), before + ","@, last);
            lemma_stays_parts(depth, reader(at), before + ","@, last);
        }
    }
}

/// An array or an object is read as a whole.
proof fn lemma_bracketed_whole(open: Seq<char>, inner: Seq<char>, close: Seq<char>)
    requires
        open.len() == 1,
        close.len() == 1,
        open[0] == '[' || open[0] == '{',
        close[0] == ']' || close[0] == '}',
        is_inner(inner),
    ensures
        is_whole(open + inner + close),
{
    assert forall|depth: int, at: int| depth <= at implies #[trigger] is_whole_at(
        depth,
        at,
        open + inner + close,
    ) by {
        let deeper = reader(at + 1);
        assert(is_whole_at(depth, at + 1, inner));
        assert(open.drop_first().len() == 0);
        assert(close.drop_first().len() == 0);
        reveal_with_fuel(run, 2);
        reveal_with_fuel(stays, 2);
        assert(run(reader(at), open) == deeper);
        assert(stays(depth, reader(at), open));
        lemma_run_parts(reader(at), open, inner);
        lemma_stays_parts(depth, reader(at), open, inner);
        assert(run(deeper, close) == reader(at));
        assert(stays(depth, deeper, close));
        lemma_run_parts(reader(at), open + inner, close);
        lemma_stays_parts(depth, reader(at), open + inner, close);
    }
}

/// A field is read as a whole.
proof fn lemma_field_whole(field: (Seq<char>, Seq<char>))
    requires
        is_whole(field.1),
    ensures
        is_whole(field_text(field)),
{
    reveal_strlit(":");
    lemma_quoted_whole(field.0);
    lemma_inert_whole(":"@);
    lemma_whole_parts(quoted(field.0), ":"@);
    lemma_whole_parts(quoted(field.0) + ":"@, field.1);
}

/// The texts of the fields of an object, in order.
pub open spec fn field_texts(fields: Seq<(Seq<char>, Seq<char>)>) -> Seq<Seq<char>> {
    stable_sorted::<(String, String)>(fields).map_values(
        |field: (Seq<char>, Seq<char>)| field_text(field),
    )
}

proof fn lemma_object_parts(fields: Seq<(Seq<char>, Seq<char>)>)
    requires
        forall|i: int| 0 <= i < fields.len() ==> is_whole((#[trigger] fields[i]).1),
    ensures
        forall|i: int|
            0 <= i < field_texts(fields).len() ==> is_whole(#[trigger] field_texts(fields)[i]),
{
    let sorted = stable_sorted::<(String, String)>(fields);
    assert forall|i: int| 0 <= i < field_texts(fields).len() implies is_whole(
        #[trigger] field_texts(fields)[i],
    ) by {
        assert(sorted.contains(sorted[i]));
        lemma_stable_sorted_contains::<(String, String)>(fields, sorted[i]);
        let j = choose|j: int| 0 <= j < fields.len() && fields[j] == sorted[i];
        assert(is_whole(fields[j].1));
        lemma_field_whole(sorted[i]);
    }
}

/// A canonical text is read as a whole.
pub proof fn lemma_canonical_whole(value: JsonModel)
    ensures
        is_whole(canonical(value)),
    decreases value,
{
    match value {
        JsonModel::Null => {
            reveal_strlit("null");
            lemma_inert_whole("null"@);
        },
        JsonModel::Bool(value) => {
            reveal_strlit("true");
            reveal_strlit("false");
            lemma_inert_whole(truth(value));
        },
        JsonModel::Number(value) => {
            lemma_decimal_digits(value as nat);
            assert forall|i: int| 0 <= i < decimal(value as nat).len() implies is_inert(
                #[trigger] decimal(value as nat)[i],
            ) by {}
            lemma_inert_whole(decimal(value as nat));
        },
        JsonModel::Text(value) => {
            lemma_quoted_whole(value);
        },
        JsonModel::Array(items) => {
            reveal_strlit("[");
            reveal_strlit("]");
            let parts = canonical_items(items);
            assert forall|i: int| 0 <= i < parts.len() implies is_whole(#[trigger] parts[i]) by {
                lemma_canonical_whole(items[i]);
            }
            lemma_join_inner(parts);
            lemma_bracketed_whole("["@, join(parts, ","@), "]"@);
        },
        JsonModel::Object(fields) => {
            reveal_strlit("{");
            reveal_strlit("}");
            let parts = canonical_fields(fields);
            assert forall|i: int| 0 <= i < parts.len() implies is_whole(
                (#[trigger] parts[i]).1,
            ) by {
                lemma_canonical_whole(fields[i].1);
            }
            lemma_object_parts(parts);
            lemma_join_inner(field_texts(parts));
            lemma_bracketed_whole("{"@, join(field_texts(parts), ","@), "}"@);
        },
    }
}

/// Whether a text is empty or starts with what ends a value.
pub open spec fn is_rest(text: Seq<char>) -> bool {
    text.len() == 0 || ends(text[0])
}

proof fn lemma_not_longer(
    first: Seq<char>,
    after_first: Seq<char>,
    second: Seq<char>,
    after_second: Seq<char>,
)
    requires
        is_whole(first),
        is_whole(second),
        is_rest(after_first),
        first + after_first == second + after_second,
    ensures
        second.len() <= first.len(),
{
    if first.len() < second.len() {
        let whole = first + after_first;
        let rest = second.skip(first.len() as int);
        assert(whole.len() == second.len() + after_second.len());
        assert(whole[first.len() as int] == after_first[0]);
        assert((second + after_second)[first.len() as int] == second[first.len() as int]);
        assert(rest[0] == after_first[0]);
        assert(second.take(first.len() as int) =~= first) by {
            assert forall|i: int| 0 <= i < first.len() implies second[i] == first[i] by {
                assert(whole[i] == first[i]);
                assert((second + after_second)[i] == second[i]);
            }
        }
        assert(second =~= first + rest);
        assert(is_whole_at(0, 0, first));
        assert(is_whole_at(0, 0, second));
        lemma_stays_parts(0, reader(0), first, rest);
    }
}

/// A value can be told from what follows it.
proof fn lemma_value_ends(
    first: Seq<char>,
    after_first: Seq<char>,
    second: Seq<char>,
    after_second: Seq<char>,
)
    requires
        is_whole(first),
        is_whole(second),
        is_rest(after_first),
        is_rest(after_second),
        first + after_first == second + after_second,
    ensures
        first == second,
        after_first == after_second,
{
    lemma_not_longer(first, after_first, second, after_second);
    lemma_not_longer(second, after_second, first, after_first);
    let whole = first + after_first;
    assert(whole.take(first.len() as int) =~= first);
    assert((second + after_second).take(first.len() as int) =~= second);
    assert(whole.skip(first.len() as int) =~= after_first);
    assert((second + after_second).skip(first.len() as int) =~= after_second);
}

/// A list starts with its first part.
proof fn lemma_join_first(parts: Seq<Seq<char>>)
    requires
        parts.len() >= 2,
    ensures
        join(parts, ","@) == parts[0] + (","@ + join(parts.drop_first(), ","@)),
    decreases parts.len(),
{
    let last = parts.last();
    let rest = parts.drop_first();
    assert(rest.last() == last);
    if parts.len() == 2 {
        assert(parts.drop_last().len() == 1);
        assert(parts.drop_last()[0] == parts[0]);
        assert(rest.len() == 1 && rest[0] == last);
        assert(join(parts.drop_last(), ","@) == parts[0]);
        assert(join(rest, ","@) == last);
        assert(join(parts, ","@) == parts[0] + ","@ + last);
        assert(join(parts, ","@) =~= parts[0] + (","@ + join(rest, ","@)));
    } else {
        lemma_join_first(parts.drop_last());
        assert(parts.drop_last()[0] == parts[0]);
        assert(parts.drop_last().drop_first() =~= rest.drop_last());
        assert(join(rest, ","@) == join(rest.drop_last(), ","@) + ","@ + last);
        assert(join(parts, ","@) == join(parts.drop_last(), ","@) + ","@ + last);
        assert(join(parts, ","@) =~= parts[0] + (","@ + join(rest, ","@)));
    }
}

/// The parts of a list can be told from each other.
proof fn lemma_parts_unique(left: Seq<Seq<char>>, right: Seq<Seq<char>>)
    requires
        forall|i: int|
            0 <= i < left.len() ==> is_whole(#[trigger] left[i]) && left[i].len() > 0,
        forall|i: int|
            0 <= i < right.len() ==> is_whole(#[trigger] right[i]) && right[i].len() > 0,
        join(left, ","@) == join(right, ","@),
    ensures
        left == right,
    decreases left.len() + right.len(),
{
    reveal_strlit(",");
    if left.len() == 0 || right.len() == 0 {
        if left.len() > 0 {
            lemma_join_nonempty(left);
        }
        if right.len() > 0 {
            lemma_join_nonempty(right);
        }
        assert(left =~= right);
    } else {
        let left_rest = lemma_join_head(left);
        let right_rest = lemma_join_head(right);
        assert(is_whole(left[0]) && is_whole(right[0]));
        lemma_value_ends(left[0], left_rest, right[0], right_rest);
        if left.len() >= 2 && right.len() >= 2 {
            assert(left_rest.skip(1) =~= join(left.drop_first(), ","@));
            assert(right_rest.skip(1) =~= join(right.drop_first(), ","@));
            assert forall|i: int| 0 <= i < left.drop_first().len() implies is_whole(
                #[trigger] left.drop_first()[i],
            ) && left.drop_first()[i].len() > 0 by {
                assert(left.drop_first()[i] == left[i + 1]);
            }
            assert forall|i: int| 0 <= i < right.drop_first().len() implies is_whole(
                #[trigger] right.drop_first()[i],
            ) && right.drop_first()[i].len() > 0 by {
                assert(right.drop_first()[i] == right[i + 1]);
            }
            lemma_parts_unique(left.drop_first(), right.drop_first());
            assert(left =~= seq![left[0]] + left.drop_first());
            assert(right =~= seq![right[0]] + right.drop_first());
        } else {
            assert(left =~= right);
        }
    }
}

/// What follows the first part of a list.
pub proof fn lemma_join_head(parts: Seq<Seq<char>>) -> (rest: Seq<char>)
    requires
        parts.len() > 0,
    ensures
        join(parts, ","@) == parts[0] + rest,
        is_rest(rest),
        parts.len() == 1 ==> rest.len() == 0,
        parts.len() >= 2 ==> rest == ","@ + join(parts.drop_first(), ","@) && rest.len() > 0,
{
    reveal_strlit(",");
    if parts.len() == 1 {
        let rest = Seq::<char>::empty();
        assert(parts[0] + rest =~= parts[0]);
        rest
    } else {
        lemma_join_first(parts);
        let rest = ","@ + join(parts.drop_first(), ","@);
        assert(rest[0] == ',');
        rest
    }
}

proof fn lemma_join_nonempty(parts: Seq<Seq<char>>)
    requires
        parts.len() > 0,
        parts[0].len() > 0,
    ensures
        join(parts, ","@).len() > 0,
{
    let rest = lemma_join_head(parts);
}

/// A character inside a string can be told from what follows it.
proof fn lemma_escaped_unique(
    left: char,
    after_left: Seq<char>,
    right: char,
    after_right: Seq<char>,
)
    requires
        escaped(left) + after_left == escaped(right) + after_right,
    ensures
        left == right,
        after_left == after_right,
{
    let one = escaped(left) + after_left;
    let other = escaped(right) + after_right;
    assert(one[0] == escaped(left)[0]);
    assert(other[0] == escaped(right)[0]);
    if escaped(left).len() > 1 {
        assert(one[1] == escaped(left)[1]);
    }
    if escaped(right).len() > 1 {
        assert(other[1] == escaped(right)[1]);
    }
    if escaped(left).len() > 2 {
        assert(one[4] == escaped(left)[4] && one[5] == escaped(left)[5]);
        assert(left as int == 16 * (left as int / 16) + left as int % 16);
    }
    if escaped(right).len() > 2 {
        assert(other[4] == escaped(right)[4] && other[5] == escaped(right)[5]);
        assert(right as int == 16 * (right as int / 16) + right as int % 16);
    }
    assert(left == right);
    assert(one.skip(escaped(left).len() as int) =~= after_left);
    assert(other.skip(escaped(left).len() as int) =~= after_right);
}

/// A string can be told from what follows it.
proof fn lemma_escaped_text_unique(
    left: Seq<char>,
    after_left: Seq<char>,
    right: Seq<char>,
    after_right: Seq<char>,
)
    requires
        escaped_text(left) + (seq!['"'] + after_left) == escaped_text(right) + (seq!['"']
            + after_right),
    ensures
        left == right,
        after_left == after_right,
    decreases left.len(),
{
    let l = seq!['"'] + after_left;
    let r = seq!['"'] + after_right;
    let one = escaped_text(left) + l;
    let other = escaped_text(right) + r;
    assert(l[0] == '"' && r[0] == '"');
    if left.len() == 0 {
        assert(one[0] == '"');
        if right.len() > 0 {
            assert(other[0] == escaped(right[0])[0]);
        }
        assert(left =~= right);
        assert(one =~= l);
        assert(other =~= r);
        assert(l.skip(1) =~= after_left);
        assert(r.skip(1) =~= after_right);
    } else if right.len() == 0 {
        assert(other[0] == '"');
        assert(one[0] == escaped(left[0])[0]);
    } else {
        let left_rest = escaped_text(left.drop_first()) + l;
        let right_rest = escaped_text(right.drop_first()) + r;
        assert(one =~= escaped(left[0]) + left_rest);
        assert(other =~= escaped(right[0]) + right_rest);
        lemma_escaped_unique(left[0], left_rest, right[0], right_rest);
        lemma_escaped_text_unique(left.drop_first(), after_left, right.drop_first(), after_right);
        assert(left =~= seq![left[0]] + left.drop_first());
        assert(right =~= seq![right[0]] + right.drop_first());
    }
}

/// A string and what follows it can be told from each other.
proof fn lemma_quoted_unique(
    left: Seq<char>,
    after_left: Seq<char>,
    right: Seq<char>,
    after_right: Seq<char>,
)
    requires
        quoted(left) + after_left == quoted(right) + after_right,
    ensures
        left == right,
        after_left == after_right,
{
    let one = quoted(left) + after_left;
    let other = quoted(right) + after_right;
    assert(one.skip(1) =~= escaped_text(left) + (seq!['"'] + after_left));
    assert(other.skip(1) =~= escaped_text(right) + (seq!['"'] + after_right));
    lemma_escaped_text_unique(left, after_left, right, after_right);
}

/// A field can be told from every other one.
proof fn lemma_field_unique(left: (Seq<char>, Seq<char>), right: (Seq<char>, Seq<char>))
    requires
        field_text(left) == field_text(right),
    ensures
        left == right,
{
    assert(field_text(left) =~= quoted(left.0) + (":"@ + left.1));
    assert(field_text(right) =~= quoted(right.0) + (":"@ + right.1));
    lemma_quoted_unique(left.0, ":"@ + left.1, right.0, ":"@ + right.1);
    assert((":"@ + left.1).skip(":"@.len() as int) =~= left.1);
    assert((":"@ + right.1).skip(":"@.len() as int) =~= right.1);
}

/// A canonical text starts with a character that tells the kind of its value.
proof fn lemma_first_character(value: JsonModel)
    ensures
        canonical(value).len() > 0,
        match value {
            JsonModel::Null => canonical(value)[0] == 'n',
            JsonModel::Bool(value) => truth(value)[0] == (if value {
                't'
            } else {
                'f'
            }),
            JsonModel::Number(number) => '0' <= canonical(value)[0] <= '9',
            JsonModel::Text(_) => canonical(value)[0] == '"',
            JsonModel::Array(_) => canonical(value)[0] == '[',
            JsonModel::Object(_) => canonical(value)[0] == '{',
        },
{
    reveal_strlit("null");
    reveal_strlit("true");
    reveal_strlit("false");
    reveal_strlit("[");
    reveal_strlit("{");
    match value {
        JsonModel::Number(number) => {
            lemma_decimal_digits(number as nat);
        },
        _ => {},
    }
}

/// Whether two values are of the same kind and have the same content, where the items of arrays are
/// compared in order, the fields of objects in any order, and both by their canonical texts.
pub open spec fn same_value(left: JsonModel, right: JsonModel) -> bool {
    match (left, right) {
        (JsonModel::Null, JsonModel::Null) => true,
        (JsonModel::Bool(left), JsonModel::Bool(right)) => left == right,
        (JsonModel::Number(left), JsonModel::Number(right)) => left == right,
        (JsonModel::Text(left), JsonModel::Text(right)) => left == right,
        (JsonModel::Array(left), JsonModel::Array(right)) => {
            &&& left.len() == right.len()
            &&& forall|i: int|
                0 <= i < left.len() ==> canonical(#[trigger] left[i]) == canonical(right[i])
        },
        (JsonModel::Object(left), JsonModel::Object(right)) => {
            canonical_fields(left).to_multiset() == canonical_fields(right).to_multiset()
        },
        _ => false,
    }
}

/// Canonical texts are unambiguous: only the same value, the order of fields aside, has the same
/// canonical text. What is said of the parts of arrays and objects can be said of their parts in
/// turn.
pub proof fn law_canonical_is_unambiguous(left: JsonModel, right: JsonModel)
    requires
        canonical(left) == canonical(right),
    ensures
        same_value(left, right),
{
    lemma_first_character(left);
    lemma_first_character(right);
    match (left, right) {
        (JsonModel::Bool(l), JsonModel::Bool(r)) => {},
        (JsonModel::Number(l), JsonModel::Number(r)) => {
            lemma_decimal_injective(l as nat, r as nat);
        },
        (JsonModel::Text(l), JsonModel::Text(r)) => {
            let nothing = Seq::<char>::empty();
            assert(quoted(l) + nothing =~= quoted(l));
            assert(quoted(r) + nothing =~= quoted(r));
            lemma_quoted_unique(l, nothing, r, nothing);
        },
        (JsonModel::Array(l), JsonModel::Array(r)) => {
            let one = canonical_items(l);
            let other = canonical_items(r);
            lemma_brackets_off("["@, join(one, ","@), "]"@, join(other, ","@));
            assert forall|i: int| 0 <= i < one.len() implies is_whole(#[trigger] one[i])
                && one[i].len() > 0 by {
                lemma_canonical_whole(l[i]);
                lemma_first_character(l[i]);
            }
            assert forall|i: int| 0 <= i < other.len() implies is_whole(#[trigger] other[i])
                && other[i].len() > 0 by {
                lemma_canonical_whole(r[i]);
                lemma_first_character(r[i]);
            }
            lemma_parts_unique(one, other);
            assert forall|i: int| 0 <= i < l.len() implies canonical(#[trigger] l[i])
                == canonical(r[i]) by {
                assert(one[i] == other[i]);
            }
        },
        (JsonModel::Object(l), JsonModel::Object(r)) => {
            let one = canonical_fields(l);
            let other = canonical_fields(r);
            lemma_brackets_off(
                "{"@,
                join(field_texts(one), ","@),
                "}"@,
                join(field_texts(other), ","@),
            );
            assert forall|i: int| 0 <= i < one.len() implies is_whole((#[trigger] one[i]).1) by {
                lemma_canonical_whole(l[i].1);
            }
            assert forall|i: int| 0 <= i < other.len() implies is_whole(
                (#[trigger] other[i]).1,
            ) by {
                lemma_canonical_whole(r[i].1);
            }
            lemma_object_parts(one);
            lemma_object_parts(other);
            assert forall|i: int| 0 <= i < field_texts(one).len() implies is_whole(
                #[trigger] field_texts(one)[i],
            ) && field_texts(one)[i].len() > 0 by {}
            assert forall|i: int| 0 <= i < field_texts(other).len() implies is_whole(
                #[trigger] field_texts(other)[i],
            ) && field_texts(other)[i].len() > 0 by {}
            lemma_parts_unique(field_texts(one), field_texts(other));
            let sorted_one = stable_sorted::<(String, String)>(one);
            let sorted_other = stable_sorted::<(String, String)>(other);
            assert(sorted_one =~= sorted_other) by {
                assert(field_texts(one).len() == field_texts(other).len());
                assert forall|i: int| 0 <= i < sorted_one.len() implies sorted_one[i]
                    == sorted_other[i] by {
                    assert(field_texts(one)[i] == field_texts(other)[i]);
                    lemma_field_unique(sorted_one[i], sorted_other[i]);
                }
            }
            lemma_stable_sorted::<(String, String)>(one);
            lemma_stable_sorted::<(String, String)>(other);
        },
        _ => {},
    }
}

proof fn lemma_brackets_off(open: Seq<char>, left: Seq<char>, close: Seq<char>, right: Seq<char>)
    requires
        open + left + close == open + right + close,
    ensures
        left == right,
{
    let one = open + left + close;
    let other = open + right + close;
    assert(one.len() == open.len() + left.len() + close.len());
    assert(other.len() == open.len() + right.len() + close.len());
    assert(one.subrange(open.len() as int, (open.len() + left.len()) as int) =~= left);
    assert(other.subrange(open.len() as int, (open.len() + right.len()) as int) =~= right);
}

/// Objects with the same fields in the same order, each of which they have once, have the same
/// canonical text only if each field has the same canonical text in both.
pub proof fn lemma_fields_unambiguous(
    left: Seq<(Seq<char>, JsonModel)>,
    right: Seq<(Seq<char>, JsonModel)>,
)
    requires
        left.len() == right.len(),
        forall|i: int| 0 <= i < left.len() ==> (#[trigger] left[i]).0 == right[i].0,
        forall|i: int, j: int|
            0 <= i < j < left.len() ==> (#[trigger] left[i]).0 != (#[trigger] left[j]).0,
        canonical(JsonModel::Object(left)) == canonical(JsonModel::Object(right)),
    ensures
        forall|i: int|
            0 <= i < left.len() ==> canonical((#[trigger] left[i]).1) == canonical(right[i].1),
{
    broadcast use vstd::seq_lib::group_to_multiset_ensures;

    law_canonical_is_unambiguous(JsonModel::Object(left), JsonModel::Object(right));
    let one = canonical_fields(left);
    let other = canonical_fields(right);
    assert forall|i: int| 0 <= i < left.len() implies canonical((#[trigger] left[i]).1)
        == canonical(right[i].1) by {
        assert(one.contains(one[i]));
        assert(one.to_multiset().count(one[i]) > 0);
        assert(other.contains(one[i]));
        let j = choose|j: int| 0 <= j < other.len() && other[j] == one[i];
        assert(right[j].0 == left[j].0);
        assert(left[j].0 == left[i].0);
    }
}

/// Whether a character is white space between the tokens of a JSON text.
pub open spec fn is_space(c: char) -> bool {
    c as nat == 32 || c as nat == 9 || c as nat == 10 || c as nat == 13
}

/// Whether a reader meets no white space outside of strings.
pub open spec fn is_dense(from: Reader, text: Seq<char>) -> bool
    decreases text.len(),
{
    text.len() == 0 || (!(from.mode is Plain && is_space(text[0])) && is_dense(
        read(from, text[0]),
        text.drop_first(),
    ))
}

proof fn lemma_dense_parts(from: Reader, first: Seq<char>, second: Seq<char>)
    ensures
        is_dense(from, first + second) == (is_dense(from, first) && is_dense(
            run(from, first),
            second,
        )),
    decreases first.len(),
{
    if first.len() == 0 {
        assert(first + second =~= second);
    } else {
        let whole = first + second;
        assert(whole[0] == first[0]);
        assert(whole.drop_first() =~= first.drop_first() + second);
        lemma_dense_parts(read(from, first[0]), first.drop_first(), second);
    }
}

proof fn lemma_inert_dense(text: Seq<char>, at: int)
    requires
        forall|i: int|
            0 <= i < text.len() ==> is_inert(#[trigger] text[i]) && !is_space(text[i]),
    ensures
        is_dense(reader(at), text),
    decreases text.len(),
{
    if text.len() > 0 {
        assert(is_inert(text[0]));
        assert(read(reader(at), text[0]) == reader(at));
        assert forall|i: int| 0 <= i < text.drop_first().len() implies is_inert(
            #[trigger] text.drop_first()[i],
        ) && !is_space(text.drop_first()[i]) by {
            assert(text.drop_first()[i] == text[i + 1]);
        }
        lemma_inert_dense(text.drop_first(), at);
    }
}

/// A reader that stays in a string meets no white space outside of it.
proof fn lemma_escaped_dense(text: Seq<char>, at: int)
    ensures
        is_dense(Reader { depth: at, mode: Mode::Inside }, escaped_text(text)),
    decreases text.len(),
{
    let inside = Reader { depth: at, mode: Mode::Inside };
    if text.len() > 0 {
        lemma_one_escaped(text[0], at, at);
        lemma_one_dense(text[0], at);
        lemma_escaped_dense(text.drop_first(), at);
        lemma_dense_parts(inside, escaped(text[0]), escaped_text(text.drop_first()));
    }
}

proof fn lemma_one_dense(c: char, at: int)
    ensures
        is_dense(Reader { depth: at, mode: Mode::Inside }, escaped(c)),
{
    let inside = Reader { depth: at, mode: Mode::Inside };
    let one = escaped(c);
    let rest = one.drop_first();
    if one.len() == 1 {
        assert(rest.len() == 0);
        reveal_with_fuel(is_dense, 2);
    } else if one.len() == 2 {
        assert(rest.len() == 1 && rest[0] == one[1]);
        assert(rest.drop_first().len() == 0);
        reveal_with_fuel(is_dense, 3);
    } else {
        let tail = seq!['0', '0', hex_digit(c as int / 16), hex_digit(c as int % 16)];
        let head = seq!['\\', 'u'];
        assert(one =~= head + tail);
        assert(head.drop_first() =~= seq!['u']);
        assert(head.drop_first().drop_first().len() == 0);
        reveal_with_fuel(run, 3);
        reveal_with_fuel(is_dense, 3);
        assert(run(inside, head) == inside);
        assert(is_dense(inside, head));
        lemma_unmarked_dense(tail, at);
        lemma_dense_parts(inside, head, tail);
    }
}

proof fn lemma_unmarked_dense(text: Seq<char>, at: int)
    requires
        forall|i: int| 0 <= i < text.len() ==> #[trigger] text[i] != '"' && text[i] != '\\',
    ensures
        is_dense(Reader { depth: at, mode: Mode::Inside }, text),
    decreases text.len(),
{
    if text.len() > 0 {
        assert(text[0] != '"');
        assert forall|i: int| 0 <= i < text.drop_first().len() implies #[trigger]
            text.drop_first()[i] != '"' && text.drop_first()[i] != '\\' by {
            assert(text.drop_first()[i] == text[i + 1]);
        }
        lemma_unmarked_dense(text.drop_first(), at);
    }
}

proof fn lemma_quoted_dense(text: Seq<char>, at: int)
    ensures
        is_dense(reader(at), quoted(text)),
{
    let open = seq!['"'];
    let body = escaped_text(text);
    let inside = Reader { depth: at, mode: Mode::Inside };
    assert(open.drop_first().len() == 0);
    reveal_with_fuel(run, 2);
    reveal_with_fuel(is_dense, 2);
    assert(run(reader(at), open) == inside);
    lemma_escaped_inside(text, at, at);
    lemma_escaped_dense(text, at);
    lemma_run_parts(reader(at), open, body);
    lemma_dense_parts(reader(at), open, body);
    lemma_dense_parts(reader(at), open + body, open);
}

proof fn lemma_join_dense(parts: Seq<Seq<char>>, at: int)
    requires
        forall|i: int|
            0 <= i < parts.len() ==> is_whole(#[trigger] parts[i]) && is_dense(
                reader(at),
                parts[i],
            ),
    ensures
        is_dense(reader(at), join(parts, ","@)),
    decreases parts.len(),
{
    reveal_strlit(",");
    if parts.len() == 1 {
        assert(is_dense(reader(at), parts[0]));
    } else if parts.len() > 1 {
        let before = join(parts.drop_last(), ","@);
        let last = parts.last();
        assert(parts[parts.len() - 1] == last);
        assert forall|i: int| 0 <= i < parts.drop_last().len() implies is_whole(
            #[trigger] parts.drop_last()[i],
        ) && is_dense(reader(at), parts.drop_last()[i]) by {
            assert(parts.drop_last()[i] == parts[i]);
        }
        lemma_join_dense(parts.drop_last(), at);
        lemma_join_inner(parts.drop_last());
        assert(is_whole_at(at - 1, at, before));
        assert(","@.drop_first().len() == 0);
        assert(","@[0] == ',');
        reveal_with_fuel(run, 2);
        reveal_with_fuel(is_dense, 2);
        assert(run(reader(at), ","@) == reader(at));
        lemma_run_parts(reader(at), before, ","@);
        lemma_dense_parts(reader(at), before, ","@);
        lemma_dense_parts(reader(at), before + ","@, last);
    }
}

proof fn lemma_bracketed_dense(open: Seq<char>, inner: Seq<char>, close: Seq<char>, at: int)
    requires
        open.len() == 1,
        close.len() == 1,
        open[0] == '[' || open[0] == '{',
        close[0] == ']' || close[0] == '}',
        is_inner(inner),
        is_dense(reader(at + 1), inner),
    ensures
        is_dense(reader(at), open + inner + close),
{
    assert(is_whole_at(at, at + 1, inner));
    assert(open.drop_first().len() == 0);
    assert(close.drop_first().len() == 0);
    reveal_with_fuel(run, 2);
    reveal_with_fuel(is_dense, 2);
    assert(run(reader(at), open) == reader(at + 1));
    lemma_run_parts(reader(at), open, inner);
    lemma_dense_parts(reader(at), open, inner);
    lemma_dense_parts(reader(at), open + inner, close);
}

proof fn lemma_field_dense(field: (Seq<char>, Seq<char>), at: int)
    requires
        is_dense(reader(at), field.1),
    ensures
        is_dense(reader(at), field_text(field)),
{
    reveal_strlit(":");
    lemma_quoted_whole(field.0);
    assert(is_whole_at(at, at, quoted(field.0)));
    lemma_quoted_dense(field.0, at);
    lemma_inert_whole(":"@);
    assert(is_whole_at(at, at, ":"@));
    lemma_inert_dense(":"@, at);
    lemma_dense_parts(reader(at), quoted(field.0), ":"@);
    lemma_run_parts(reader(at), quoted(field.0), ":"@);
    lemma_dense_parts(reader(at), quoted(field.0) + ":"@, field.1);
}

proof fn lemma_canonical_dense(value: JsonModel, at: int)
    ensures
        is_dense(reader(at), canonical(value)),
    decreases value,
{
    match value {
        JsonModel::Null => {
            reveal_strlit("null");
            lemma_inert_dense("null"@, at);
        },
        JsonModel::Bool(value) => {
            reveal_strlit("true");
            reveal_strlit("false");
            lemma_inert_dense(truth(value), at);
        },
        JsonModel::Number(value) => {
            let digits = decimal(value as nat);
            lemma_decimal_digits(value as nat);
            assert forall|i: int| 0 <= i < digits.len() implies is_inert(#[trigger] digits[i])
                && !is_space(digits[i]) by {}
            lemma_inert_dense(digits, at);
        },
        JsonModel::Text(value) => {
            lemma_quoted_dense(value, at);
        },
        JsonModel::Array(items) => {
            reveal_strlit("[");
            reveal_strlit("]");
            let parts = canonical_items(items);
            assert forall|i: int| 0 <= i < parts.len() implies is_whole(#[trigger] parts[i])
                && is_dense(reader(at + 1), parts[i]) by {
                lemma_canonical_whole(items[i]);
                lemma_canonical_dense(items[i], at + 1);
            }
            lemma_join_inner(parts);
            lemma_join_dense(parts, at + 1);
            lemma_bracketed_dense("["@, join(parts, ","@), "]"@, at);
        },
        JsonModel::Object(fields) => {
            reveal_strlit("{");
            reveal_strlit("}");
            let pairs = canonical_fields(fields);
            let sorted = stable_sorted::<(String, String)>(pairs);
            let parts = field_texts(pairs);
            assert forall|i: int| 0 <= i < pairs.len() implies is_whole(
                (#[trigger] pairs[i]).1,
            ) && is_dense(reader(at + 1), pairs[i].1) by {
                lemma_canonical_whole(fields[i].1);
                lemma_canonical_dense(fields[i].1, at + 1);
            }
            lemma_object_parts(pairs);
            assert forall|i: int| 0 <= i < parts.len() implies is_whole(#[trigger] parts[i])
                && is_dense(reader(at + 1), parts[i]) by {
                assert(sorted.contains(sorted[i]));
                lemma_stable_sorted_contains::<(String, String)>(pairs, sorted[i]);
                let j = choose|j: int| 0 <= j < pairs.len() && pairs[j] == sorted[i];
                assert(is_dense(reader(at + 1), pairs[j].1));
                lemma_field_dense(sorted[i], at + 1);
            }
            lemma_join_inner(parts);
            lemma_join_dense(parts, at + 1);
            lemma_bracketed_dense("{"@, join(parts, ","@), "}"@, at);
        },
    }
}

/// There is no white space in a canonical text outside of strings.
pub proof fn law_canonical_is_dense(value: JsonModel)
    ensures
        is_dense(reader(0), canonical(value)),
{
    lemma_canonical_dense(value, 0);
}

} // verus!
