//! From ASCII bytes to text.

use vstd::prelude::*;
use vstd::utf8::{
    encode_utf8, encode_utf8_decode_utf8, encode_utf8_valid_utf8, is_ascii_chars,
    is_ascii_chars_encode_utf8, valid_utf8,
};

verus! {

/// True when every byte is an ASCII code.
pub open spec fn is_ascii_bytes(bytes: Seq<u8>) -> bool {
    forall|i: int| 0 <= i < bytes.len() ==> #[trigger] bytes[i] < 0x80
}

/// The text whose characters have the codes `bytes`, one for one.
pub open spec fn as_text(bytes: Seq<u8>) -> Seq<char> {
    Seq::new(bytes.len(), |i: int| bytes[i] as char)
}

/// ASCII bytes are valid UTF-8, and the only text that they encode is `as_text`
/// of them.
pub proof fn lemma_ascii_bytes_are_text(bytes: Seq<u8>)
    requires
        is_ascii_bytes(bytes),
    ensures
        valid_utf8(bytes),
        is_ascii_chars(as_text(bytes)),
        encode_utf8(as_text(bytes)) == bytes,
        forall|chars: Seq<char>| encode_utf8(chars) == bytes ==> chars == as_text(bytes),
{
    let text = as_text(bytes);
    assert(is_ascii_chars(text)) by {
        assert forall|i: int| 0 <= i < text.len() implies '\0' <= #[trigger] text[i] <= '\u{7f}' by {
            assert(bytes[i] < 0x80);
        }
    }
    is_ascii_chars_encode_utf8(text);
    assert(encode_utf8(text) =~= bytes) by {
        assert forall|i: int| 0 <= i < bytes.len() implies encode_utf8(text)[i] == bytes[i] by {
            assert(text[i] as u8 == encode_utf8(text)[i]);
            assert(bytes[i] < 0x80);
        }
    }
    encode_utf8_valid_utf8(text);
    encode_utf8_decode_utf8(text);
    assert forall|chars: Seq<char>| encode_utf8(chars) == bytes implies chars == text by {
        encode_utf8_decode_utf8(chars);
    }
}

/// `String::from_utf8`: the text that `bytes` encode in UTF-8. It is `None` exactly
/// when `bytes` are not valid UTF-8; otherwise the UTF-8 encoding of the text is
/// `bytes` itself. Trusted: the standard library's code is not verified here.
#[verifier::external_body]
pub(crate) fn string_from_utf8(bytes: Vec<u8>) -> (text: Option<String>)
    ensures
        text is Some <==> valid_utf8(bytes@),
        text matches Some(s) ==> encode_utf8(s@) == bytes@,
{
    String::from_utf8(bytes).ok()
}

} // verus!
