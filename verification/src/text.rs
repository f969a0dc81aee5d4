//! Bytes as text. The grammar of a request is ASCII, where a byte and a
//! character are the same number.

use crate::error::ParseError;
use vstd::prelude::*;
use vstd::utf8::*;

verus! {

/// The characters that the bytes `bytes` spell, each byte taken as the
/// character with its number.
pub open spec fn text_of(bytes: Seq<u8>) -> Seq<char> {
    Seq::new(bytes.len(), |i: int| bytes[i] as char)
}

/// The bytes that spell `text`, each character taken as the byte with its
/// number.
pub open spec fn bytes_of(text: Seq<char>) -> Seq<u8> {
    Seq::new(text.len(), |i: int| text[i] as u8)
}

/// Whether `text` is made of ASCII characters that are all, as bytes, in
/// `class`.
pub open spec fn text_in(text: Seq<char>, class: spec_fn(u8) -> bool) -> bool {
    forall|i: int| 0 <= i < text.len() ==> #[trigger] text[i] <= '\u{7f}' && class(text[i] as u8)
}

/// Whether every byte of `bytes` is an ASCII character.
pub open spec fn is_ascii(bytes: Seq<u8>) -> bool {
    forall|i: int| 0 <= i < bytes.len() ==> #[trigger] bytes[i] < 0x80
}

/// ASCII bytes are UTF-8 as they stand, and decode to the characters they
/// spell.
pub proof fn lemma_ascii_is_utf8(bytes: Seq<u8>)
    requires
        is_ascii(bytes),
    ensures
        valid_utf8(bytes),
        decode_utf8(bytes) == text_of(bytes),
        bytes_of(text_of(bytes)) == bytes,
{
    let text = text_of(bytes);
    assert(is_ascii_chars(text)) by {
        assert forall|i: int| 0 <= i < text.len() implies '\0' <= #[trigger] text[i]
            <= '\u{7f}' by {
            assert(bytes[i] < 0x80);
        }
    }
    is_ascii_chars_encode_utf8(text);
    assert(encode_utf8(text) =~= bytes) by {
        assert forall|i: int| 0 <= i < bytes.len() implies encode_utf8(text)[i] == bytes[i] by {
            assert(bytes[i] < 0x80);
            assert(text[i] as u8 == bytes[i]);
        }
    }
    encode_utf8_valid_utf8(text);
    encode_utf8_decode_utf8(text);
    assert(bytes_of(text) =~= bytes) by {
        assert forall|i: int| 0 <= i < bytes.len() implies bytes_of(text)[i] == bytes[i] by {
            assert(bytes[i] < 0x80);
        }
    }
}

/// The text that ASCII bytes of a class spell is made of characters of that
/// class.
pub proof fn lemma_text_in(bytes: Seq<u8>, class: spec_fn(u8) -> bool)
    requires
        is_ascii(bytes),
        forall|i: int| 0 <= i < bytes.len() ==> class(#[trigger] bytes[i]),
    ensures
        text_in(text_of(bytes), class),
{
    assert forall|i: int| 0 <= i < text_of(bytes).len() implies #[trigger] text_of(bytes)[i]
        <= '\u{7f}' && class(text_of(bytes)[i] as u8) by {
        assert(bytes[i] < 0x80);
        assert(class(bytes[i]));
        assert(text_of(bytes)[i] as u8 == bytes[i]);
    }
}

/// Whether `a` and `b` hold the same bytes.
pub fn same_bytes(a: &[u8], b: &[u8]) -> (r: bool)
    ensures
        r == (a@ == b@),
{
    if a.len() != b.len() {
        return false;
    }
    let mut i: usize = 0;
    while i < a.len()
        invariant
            a.len() == b.len(),
            i <= a.len(),
            forall|j: int| 0 <= j < i ==> a@[j] == b@[j],
        decreases a.len() - i,
    {
        if a[i] != b[i] {
            return false;
        }
        i += 1;
    }
    assert(a@ =~= b@);
    true
}

/// Whether `a` and `b` are the same text.
pub fn same_text(a: &str, b: &str) -> (r: bool)
    ensures
        r == (a@ == b@),
{
    proof {
        encode_utf8_decode_utf8(a@);
        encode_utf8_decode_utf8(b@);
    }
    same_bytes(a.as_bytes(), b.as_bytes())
}

/// Calls `String::from_utf8`, which turns a vector of bytes into a `String`
/// of the same bytes where they are valid UTF-8, and fails where they are
/// not. The failure is given as `None`.
#[verifier::external_body]
fn string_from_utf8(bytes: Vec<u8>) -> (r: Option<String>)
    ensures
        r is Some <==> valid_utf8(bytes@),
        r matches Some(s) ==> encode_utf8(s@) == bytes@,
{
    String::from_utf8(bytes).ok()
}

/// Turns the bytes `bytes` into text. ASCII bytes always make a text, the
/// one they spell. Other bytes make a text only where they are valid UTF-8,
/// and are an illegal character where they are not.
pub fn to_text(bytes: Vec<u8>) -> (r: Result<String, ParseError>)
    ensures
        match r {
            Ok(s) => valid_utf8(bytes@) && s@ == decode_utf8(bytes@),
            Err(e) => !valid_utf8(bytes@) && e == ParseError::IllegalCharacter,
        },
        is_ascii(bytes@) ==> r is Ok && r->Ok_0@ == text_of(bytes@),
{
    proof {
        if is_ascii(bytes@) {
            lemma_ascii_is_utf8(bytes@);
        }
    }
    match string_from_utf8(bytes) {
        Some(s) => {
            proof {
                encode_utf8_decode_utf8(s@);
            }
            Ok(s)
        },
        None => Err(ParseError::IllegalCharacter),
    }
}

} // verus!
