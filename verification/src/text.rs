//! Fixed-width text fields: text that ends at the first NUL byte of the
//! field, followed by padding that is never looked at.

use vstd::prelude::*;
use vstd::string::StringSliceAdditionalSpecFns;
use vstd::utf8::*;
use crate::error::ArchiveError;

verus! {

/// The number of bytes before the first NUL of `field`, or the length of
/// `field` where it holds none.
pub open spec fn text_len(field: Seq<u8>) -> nat
    decreases field.len(),
{
    if field.len() == 0 || field[0] == 0 {
        0
    } else {
        1 + text_len(field.drop_first())
    }
}

/// Whether `field` holds a NUL byte.
pub open spec fn terminated(field: Seq<u8>) -> bool {
    text_len(field) < field.len()
}

/// The bytes of `field` before its first NUL.
pub open spec fn text_bytes(field: Seq<u8>) -> Seq<u8> {
    field.take(text_len(field) as int)
}

/// Whether `field` holds text: a NUL terminator, and valid UTF-8 before it.
pub open spec fn holds_text(field: Seq<u8>) -> bool {
    terminated(field) && valid_utf8(text_bytes(field))
}

/// The text that `field` holds.
pub open spec fn text_of(field: Seq<u8>) -> Seq<char>
    recommends
        holds_text(field),
{
    decode_utf8(text_bytes(field))
}

/// The error of `core::str::from_utf8`; nothing is read from it.
#[verifier::external_type_specification]
#[verifier::external_body]
pub struct ExUtf8Error(core::str::Utf8Error);

/// `core::str::from_utf8` accepts exactly the byte strings that are valid
/// UTF-8, and the string slice it returns is made of the bytes it was given.
/// Nothing is claimed of the error.
pub assume_specification[ core::str::from_utf8 ](v: &[u8]) -> (res: Result<
    &str,
    core::str::Utf8Error,
>)
    ensures
        res is Ok <==> valid_utf8(v@),
        res matches Ok(s) ==> s.spec_bytes() == v@,
;

/// Decodes a fixed-width text field: the text before the first NUL byte.
/// What follows the NUL is ignored. Fails where the field holds no NUL, or
/// where the bytes before it are not valid UTF-8.
pub fn c_string(field: &[u8]) -> (res: Result<&str, ArchiveError>)
    ensures
        res is Ok <==> holds_text(field@),
        res matches Ok(s) ==> s@ == text_of(field@),
        res matches Err(e) ==> e == ArchiveError::Format,
{
    let mut n: usize = 0;
    while n < field.len() && field[n] != 0
        invariant
            n <= field@.len(),
            forall|j: int| 0 <= j < n ==> field@[j] != 0,
        decreases field@.len() - n,
    {
        n += 1;
    }
    proof {
        lemma_text_len_is(field@, n as int);
    }
    if n == field.len() {
        return Err(ArchiveError::Format);
    }
    let text = vstd::slice::slice_subrange(field, 0, n);
    match core::str::from_utf8(text) {
        Ok(s) => {
            proof {
                encode_utf8_decode_utf8(s@);
            }
            Ok(s)
        },
        Err(_) => Err(ArchiveError::Format),
    }
}

/// `text_len` is the position of the first NUL: no byte before it is NUL, and
/// it is either the end of the field or the place of a NUL.
pub proof fn lemma_text_len(field: Seq<u8>)
    ensures
        text_len(field) <= field.len(),
        forall|j: int| 0 <= j < text_len(field) ==> field[j] != 0,
        text_len(field) < field.len() ==> field[text_len(field) as int] == 0,
    decreases field.len(),
{
    if field.len() == 0 || field[0] == 0 {
    } else {
        let rest = field.drop_first();
        lemma_text_len(rest);
        assert forall|j: int| 0 <= j < text_len(field) implies field[j] != 0 by {
            if j > 0 {
                assert(field[j] == rest[j - 1]);
            }
        }
    }
}

/// A position that no NUL precedes, and that is the end of the field or holds
/// a NUL, is `text_len`.
pub proof fn lemma_text_len_is(field: Seq<u8>, n: int)
    requires
        0 <= n <= field.len(),
        forall|j: int| 0 <= j < n ==> field[j] != 0,
        n < field.len() ==> field[n] == 0,
    ensures
        text_len(field) == n,
    decreases field.len(),
{
    if field.len() == 0 || field[0] == 0 {
    } else {
        lemma_text_len_is(field.drop_first(), n - 1);
    }
}

/// What follows the first NUL of a field is ignored: two fields that agree
/// up to and including it hold the same text, or both hold none.
pub proof fn lemma_padding_ignored(field: Seq<u8>, other: Seq<u8>)
    requires
        terminated(field),
        text_len(field) < other.len(),
        forall|j: int| 0 <= j <= text_len(field) ==> field[j] == other[j],
    ensures
        terminated(other),
        text_bytes(other) == text_bytes(field),
        holds_text(other) == holds_text(field),
        text_of(other) == text_of(field),
{
    lemma_text_len(field);
    lemma_text_len_is(other, text_len(field) as int);
}

/// The UTF-8 encoding of a scalar other than 0 holds no NUL byte.
proof fn lemma_scalar_without_nul(c: u32)
    requires
        is_scalar(c),
        c != 0,
    ensures
        forall|j: int| 0 <= j < encode_scalar(c).len() ==> encode_scalar(c)[j] != 0,
{
    assert(has_width_1_encoding(c) ==> leading_byte_width_1(c) != 0) by (bit_vector)
        requires
            c != 0,
    ;
    assert(leading_byte_width_2(c) != 0 && leading_byte_width_3(c) != 0 && leading_byte_width_4(c)
        != 0 && last_continuation_byte(c) != 0 && second_last_continuation_byte(c) != 0
        && third_last_continuation_byte(c) != 0) by (bit_vector);
}

/// The UTF-8 encoding of text without a NUL character holds no NUL byte.
pub proof fn lemma_encoding_without_nul(text: Seq<char>)
    requires
        !text.contains('\0'),
    ensures
        forall|j: int| 0 <= j < encode_utf8(text).len() ==> encode_utf8(text)[j] != 0,
    decreases text.len(),
{
    if text.len() > 0 {
        let c = text[0] as u32;
        let rest = text.drop_first();
        char_is_scalar(text[0]);
        assert(c != 0u32) by {
            char_u32_cast(text[0], c);
            char_u32_cast('\0', 0u32);
        }
        lemma_encoding_without_nul(rest);
        lemma_scalar_without_nul(c);
        let head = encode_scalar(c);
        let tail = encode_utf8(rest);
        assert forall|j: int| 0 <= j < encode_utf8(text).len() implies encode_utf8(text)[j]
            != 0 by {
            if j < head.len() {
                assert(encode_utf8(text)[j] == head[j]);
            } else {
                assert(encode_utf8(text)[j] == tail[j - head.len()]);
            }
        }
    }
}

/// The UTF-8 encoding of text with a NUL character holds a NUL byte.
pub proof fn lemma_encoding_with_nul(text: Seq<char>, k: int)
    requires
        0 <= k < text.len(),
        text[k] == '\0',
    ensures
        encode_utf8(text).contains(0u8),
    decreases k,
{
    let head = encode_scalar(text[0] as u32);
    let tail = encode_utf8(text.drop_first());
    let whole = encode_utf8(text);
    if k == 0 {
        assert(head[0] == 0) by {
            assert(leading_byte_width_1(0u32) == 0) by (bit_vector);
        }
        assert(whole[0] == 0);
    } else {
        lemma_encoding_with_nul(text.drop_first(), k - 1);
        let j = choose|j: int| 0 <= j < tail.len() && tail[j] == 0;
        assert(whole[head.len() + j] == 0);
    }
}

/// Valid UTF-8 without a NUL byte decodes to text without a NUL character.
pub proof fn lemma_decoding_without_nul(bytes: Seq<u8>)
    requires
        valid_utf8(bytes),
        !bytes.contains(0u8),
    ensures
        !decode_utf8(bytes).contains('\0'),
{
    let text = decode_utf8(bytes);
    decode_utf8_encode_utf8(bytes);
    if text.contains('\0') {
        let k = choose|k: int| 0 <= k < text.len() && text[k] == '\0';
        lemma_encoding_with_nul(text, k);
    }
}

} // verus!
