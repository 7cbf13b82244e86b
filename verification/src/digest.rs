//! Content digests.

use sha2::{Digest, Sha256};
use vstd::prelude::*;

verus! {

/// The SHA-256 hash of a byte string.
pub uninterp spec fn sha256(data: Seq<u8>) -> Seq<u8>;

/// The lower-case hexadecimal digit of a number below sixteen.
pub open spec fn hex_digit(value: int) -> char {
    if value < 10 {
        (value + 48) as char
    } else {
        (value + 87) as char
    }
}

/// A byte string in lower-case hexadecimal notation, two digits for each byte.
pub open spec fn hex(data: Seq<u8>) -> Seq<char> {
    Seq::new(
        data.len() * 2,
        |i: int|
            hex_digit(
                if i % 2 == 0 {
                    data[i / 2] as int / 16
                } else {
                    data[i / 2] as int % 16
                },
            ),
    )
}

/// The digest of a byte string: its SHA-256 hash in lower-case hexadecimal notation.
pub open spec fn digest_of(data: Seq<u8>) -> Seq<char> {
    hex(sha256(data))
}

/// Calls `sha2::Sha256::digest` and formats the hash as lower-case hexadecimal digits, which
/// `generic_array` writes as two digits for each of the 32 bytes. What the hash of given bytes
/// is, is left to `sha2`.
#[verifier::external_body]
fn sha256_hex(data: &[u8]) -> (digest: String)
    ensures
        digest@ == hex(sha256(data@)),
        digest@.len() == 64,
{
    format!("{:x}", Sha256::digest(data))
}

/// The digest of a byte string.
pub fn digest_bytes(bytes: &[u8]) -> (digest: String)
    ensures
        digest@ == digest_of(bytes@),
        is_digest_text(digest@),
{
    let digest = sha256_hex(bytes);
    proof {
        let hash = sha256(bytes@);
        assert(hash.len() == 32);
        assert forall|i: int| 0 <= i < 64 implies is_digest_char(#[trigger] digest@[i]) by {
            let value = if i % 2 == 0 {
                hash[i / 2] as int / 16
            } else {
                hash[i / 2] as int % 16
            };
            assert(0 <= value < 16);
        }
    }
    digest
}

/// A digit of a digest.
pub open spec fn is_digest_char(c: char) -> bool {
    '0' <= c <= '9' || 'a' <= c <= 'f'
}

/// Whether a text has the form of a digest: 64 lower-case hexadecimal digits.
pub open spec fn is_digest_text(text: Seq<char>) -> bool {
    text.len() == 64 && forall|i: int| 0 <= i < text.len() ==> is_digest_char(#[trigger] text[i])
}

proof fn lemma_digest_bytes(text: Seq<char>)
    ensures
        is_digest_text(text) <==> {
            let bytes = vstd::utf8::encode_utf8(text);
            bytes.len() == 64 && forall|i: int|
                0 <= i < bytes.len() ==> (48 <= #[trigger] bytes[i] <= 57 || 97 <= bytes[i] <= 102)
        },
{
    let bytes = vstd::utf8::encode_utf8(text);
    if is_digest_text(text) {
        assert(vstd::utf8::is_ascii_chars(text)) by {
            assert forall|i: int| 0 <= i < text.len() implies '\0' <= #[trigger] text[i] <= '\u{7f}' by {
                assert(is_digest_char(text[i]));
            }
        }
        vstd::utf8::is_ascii_chars_encode_utf8(text);
        assert forall|i: int| 0 <= i < bytes.len() implies (48 <= #[trigger] bytes[i] <= 57 || 97
            <= bytes[i] <= 102) by {
            assert(is_digest_char(text[i]));
        }
    }
    if bytes.len() == 64 && forall|i: int|
        0 <= i < bytes.len() ==> (48 <= #[trigger] bytes[i] <= 57 || 97 <= bytes[i] <= 102) {
        let chars = Seq::new(64, |i: int| bytes[i] as char);
        assert(vstd::utf8::is_ascii_chars(chars)) by {
            assert forall|i: int| 0 <= i < chars.len() implies '\0' <= #[trigger] chars[i] <= '\u{7f}' by {
                assert(bytes[i] <= 102);
            }
        }
        vstd::utf8::is_ascii_chars_encode_utf8(chars);
        assert(vstd::utf8::encode_utf8(chars) =~= bytes);
        crate::order::lemma_encoding_injective(chars, text);
        assert forall|i: int| 0 <= i < text.len() implies is_digest_char(#[trigger] text[i]) by {
            assert(text[i] == bytes[i] as char);
        }
    }
}

/// Whether a text has the form of a digest.
pub fn is_digest(value: &str) -> (valid: bool)
    ensures
        valid == is_digest_text(value@),
{
    let bytes = value.as_bytes();
    proof {
        lemma_digest_bytes(value@);
    }
    if bytes.len() != 64 {
        return false;
    }
    let mut index: usize = 0;
    while index < bytes.len()
        invariant
            index <= bytes.len(),
            bytes@ == vstd::utf8::encode_utf8(value@),
            is_digest_text(value@) <==> {
                bytes@.len() == 64 && forall|i: int|
                    0 <= i < bytes@.len() ==> (48 <= #[trigger] bytes@[i] <= 57 || 97 <= bytes@[i]
                        <= 102)
            },
            forall|i: int|
                0 <= i < index ==> (48 <= #[trigger] bytes@[i] <= 57 || 97 <= bytes@[i] <= 102),
        decreases bytes.len() - index,
    {
        let byte = bytes[index];
        if !(48 <= byte && byte <= 57 || 97 <= byte && byte <= 102) {
            return false;
        }
        index += 1;
    }
    true
}

} // verus!
