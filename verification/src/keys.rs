//! Keys of captured bytes: byte strings behind their lengths, so that no two keys run together.

use vstd::bytes::{lemma_auto_spec_u64_to_from_le_bytes, spec_u64_to_le_bytes, u64_to_le_bytes};
use vstd::prelude::*;
use vstd::utf8::encode_utf8;

use crate::digest::{digest_bytes, digest_of};
use crate::external::{ExternalGraphInput, ExternalGraphInputModel};
use crate::table::{Table, ordered};

verus! {

/// A byte string behind its length, which takes eight bytes in little-endian order.
pub open spec fn framed(part: Seq<u8>) -> Seq<u8> {
    spec_u64_to_le_bytes(part.len() as u64) + part
}

/// Appends a byte string behind its length.
pub fn append_key_part(output: &mut Vec<u8>, part: &[u8])
    ensures
        final(output)@ == old(output)@ + framed(part@),
{
    let ghost start = output@;
    let mut length = u64_to_le_bytes(part.len() as u64);
    output.append(&mut length);
    output.extend_from_slice(part);
    assert(output@ =~= start + framed(part@));
}

/// The key of a file below an external input, of which the path relative to the input is given.
pub open spec fn input_key(input: ExternalGraphInputModel, relative: Seq<u8>) -> Seq<u8> {
    framed(encode_utf8(input.identity)) + framed(input.root_bytes) + framed(relative)
}

/// The key of a file below an external input.
pub fn external_input_key(input: &ExternalGraphInput, relative: &[u8]) -> (key: Vec<u8>)
    ensures
        key@ == input_key(input.deep_view(), relative@),
{
    let mut key: Vec<u8> = Vec::new();
    append_key_part(&mut key, input.identity.as_str().as_bytes());
    append_key_part(&mut key, input.root_bytes.as_slice());
    append_key_part(&mut key, relative);
    proof {
        assert(input.root_bytes.deep_view() =~= input.root_bytes@);
        assert(key@ =~= input_key(input.deep_view(), relative@));
    }
    key
}

/// The key of something that belongs to another key.
pub open spec fn suffixed(key: Seq<u8>, suffix: Seq<u8>) -> Seq<u8> {
    key + framed(suffix)
}

/// The key of something that belongs to another key.
pub fn external_input_key_suffix(key: &[u8], suffix: &[u8]) -> (output: Vec<u8>)
    ensures
        output@ == suffixed(key@, suffix@),
{
    let mut output: Vec<u8> = Vec::new();
    output.extend_from_slice(key);
    assert(output@ =~= key@);
    append_key_part(&mut output, suffix);
    output
}

/// Keys and contents in order, each behind its length.
pub open spec fn frames(listing: Seq<(Seq<u8>, Seq<u8>)>) -> Seq<u8>
    decreases listing.len(),
{
    if listing.len() == 0 {
        Seq::empty()
    } else {
        frames(listing.drop_last()) + framed(listing.last().0) + framed(listing.last().1)
    }
}

/// The digest of captured contents: that of all keys and contents in key order.
pub open spec fn content_digest(content: Map<Seq<u8>, Seq<u8>>) -> Seq<char> {
    digest_of(frames(ordered::<Vec<u8>, Seq<u8>>(content)))
}

/// The digest of captured contents.
pub fn digest_content(content: &Table<Vec<u8>, Vec<u8>>) -> (digest: String)
    ensures
        digest@ == content_digest(content.deep_view()),
{
    let ghost listing = ordered::<Vec<u8>, Seq<u8>>(content.deep_view());
    let count = content.len();
    let mut bytes: Vec<u8> = Vec::new();
    let mut index: usize = 0;
    assert(listing.take(0) =~= Seq::<(Seq<u8>, Seq<u8>)>::empty());
    while index < count
        invariant
            index <= count,
            count == listing.len(),
            listing == ordered::<Vec<u8>, Seq<u8>>(content.deep_view()),
            bytes@ == frames(listing.take(index as int)),
        decreases count - index,
    {
        let key = content.key_at(index);
        let value = content.value_at(index);
        proof {
            assert(key.deep_view() =~= key@);
            assert(value.deep_view() =~= value@);
            assert(listing.take(index + 1).drop_last() =~= listing.take(index as int));
        }
        append_key_part(&mut bytes, key.as_slice());
        append_key_part(&mut bytes, value.as_slice());
        index += 1;
    }
    assert(listing.take(index as int) =~= listing);
    digest_bytes(bytes.as_slice())
}

/// What follows a byte string behind its length can be told from it: two of them with different
/// byte strings, or different ends, differ.
pub proof fn law_frames_are_unambiguous(left: Seq<u8>, right: Seq<u8>, a: Seq<u8>, b: Seq<u8>)
    requires
        left.len() <= u64::MAX,
        right.len() <= u64::MAX,
        framed(left) + a == framed(right) + b,
    ensures
        left == right,
        a == b,
{
    lemma_auto_spec_u64_to_from_le_bytes();
    let l = spec_u64_to_le_bytes(left.len() as u64);
    let r = spec_u64_to_le_bytes(right.len() as u64);
    let whole = framed(left) + a;
    let other = framed(right) + b;
    assert(whole.subrange(0, 8) =~= l);
    assert(other.subrange(0, 8) =~= r);
    assert(l == r);
    assert(left.len() == right.len());
    assert(whole.subrange(8, 8 + left.len() as int) =~= left);
    assert(other.subrange(8, 8 + right.len() as int) =~= right);
    assert(whole.skip(8 + left.len() as int) =~= a);
    assert(other.skip(8 + right.len() as int) =~= b);
}

/// Two files have the same key only if they belong to inputs with the same identity and root, and
/// have the same path relative to them.
pub proof fn law_keys_are_unambiguous(
    left: ExternalGraphInputModel,
    right: ExternalGraphInputModel,
    a: Seq<u8>,
    b: Seq<u8>,
)
    requires
        encode_utf8(left.identity).len() <= u64::MAX,
        encode_utf8(right.identity).len() <= u64::MAX,
        left.root_bytes.len() <= u64::MAX,
        right.root_bytes.len() <= u64::MAX,
        a.len() <= u64::MAX,
        b.len() <= u64::MAX,
        input_key(left, a) == input_key(right, b),
    ensures
        left.identity == right.identity,
        left.root_bytes == right.root_bytes,
        a == b,
{
    let (li, ri) = (encode_utf8(left.identity), encode_utf8(right.identity));
    let l = framed(left.root_bytes) + framed(a);
    let r = framed(right.root_bytes) + framed(b);
    assert(input_key(left, a) =~= framed(li) + l);
    assert(input_key(right, b) =~= framed(ri) + r);
    law_frames_are_unambiguous(li, ri, l, r);
    crate::order::lemma_encoding_injective(left.identity, right.identity);
    law_frames_are_unambiguous(left.root_bytes, right.root_bytes, framed(a), framed(b));
    assert(framed(a) + Seq::<u8>::empty() =~= framed(a));
    assert(framed(b) + Seq::<u8>::empty() =~= framed(b));
    law_frames_are_unambiguous(a, b, Seq::empty(), Seq::empty());
}

/// What is hashed for captured contents determines the contents: a difference in any key or any
/// byte is a difference in what is hashed.
pub proof fn law_content_is_unambiguous(
    left: Seq<(Seq<u8>, Seq<u8>)>,
    right: Seq<(Seq<u8>, Seq<u8>)>,
)
    requires
        forall|i: int|
            0 <= i < left.len() ==> (#[trigger] left[i]).0.len() <= u64::MAX && left[i].1.len()
                <= u64::MAX,
        forall|i: int|
            0 <= i < right.len() ==> (#[trigger] right[i]).0.len() <= u64::MAX && right[i].1.len()
                <= u64::MAX,
        frames(left) == frames(right),
    ensures
        left == right,
    decreases left.len(),
{
    if left.len() == 0 || right.len() == 0 {
        lemma_frames_nonempty(left);
        lemma_frames_nonempty(right);
        assert(left =~= right);
    } else {
        lemma_frames_front(left);
        lemma_frames_front(right);
        let (l, r) = (left[0], right[0]);
        let a = frames(left.drop_first());
        let b = frames(right.drop_first());
        assert(framed(l.0) + (framed(l.1) + a) =~= framed(l.0) + framed(l.1) + a);
        assert(framed(r.0) + (framed(r.1) + b) =~= framed(r.0) + framed(r.1) + b);
        law_frames_are_unambiguous(l.0, r.0, framed(l.1) + a, framed(r.1) + b);
        law_frames_are_unambiguous(l.1, r.1, a, b);
        assert forall|i: int| 0 <= i < left.drop_first().len() implies (
        #[trigger] left.drop_first()[i]).0.len() <= u64::MAX && left.drop_first()[i].1.len()
            <= u64::MAX by {
            assert(left.drop_first()[i] == left[i + 1]);
        }
        assert forall|i: int| 0 <= i < right.drop_first().len() implies (
        #[trigger] right.drop_first()[i]).0.len() <= u64::MAX && right.drop_first()[i].1.len()
            <= u64::MAX by {
            assert(right.drop_first()[i] == right[i + 1]);
        }
        law_content_is_unambiguous(left.drop_first(), right.drop_first());
        assert(left =~= seq![l] + left.drop_first());
        assert(right =~= seq![r] + right.drop_first());
    }
}

proof fn lemma_frames_nonempty(listing: Seq<(Seq<u8>, Seq<u8>)>)
    ensures
        listing.len() > 0 ==> frames(listing).len() > 0,
{
    lemma_auto_spec_u64_to_from_le_bytes();
    if listing.len() > 0 {
        assert(framed(listing.last().0).len() >= 8);
    }
}

/// The first frame stands in front of the others.
proof fn lemma_frames_front(listing: Seq<(Seq<u8>, Seq<u8>)>)
    requires
        listing.len() > 0,
    ensures
        frames(listing) == framed(listing[0].0) + framed(listing[0].1) + frames(
            listing.drop_first(),
        ),
    decreases listing.len(),
{
    if listing.len() == 1 {
        assert(listing.drop_last() =~= Seq::<(Seq<u8>, Seq<u8>)>::empty());
        assert(listing.drop_first() =~= Seq::<(Seq<u8>, Seq<u8>)>::empty());
        assert(frames(listing) =~= framed(listing[0].0) + framed(listing[0].1) + frames(
            listing.drop_first(),
        ));
    } else {
        lemma_frames_front(listing.drop_last());
        assert(listing.drop_first().drop_last() =~= listing.drop_last().drop_first());
        assert(frames(listing) =~= framed(listing[0].0) + framed(listing[0].1) + frames(
            listing.drop_first(),
        ));
    }
}

} // verus!
