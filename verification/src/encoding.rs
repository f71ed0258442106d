//! Bytes that are read as text.
use vstd::prelude::*;
use vstd::utf8::{decode_utf8, encode_utf8, valid_utf8};

verus! {

/// The text that `String::from_utf8_lossy` of std makes of these bytes.
pub uninterp spec fn lossy_text(bytes: Seq<u8>) -> Seq<char>;

/// `str::from_utf8` of std: there is a text exactly where the bytes are valid UTF-8, and it is
/// the one that they encode.
#[verifier::external_body]
pub(crate) fn utf8_text(bytes: &[u8]) -> (r: Option<&str>)
    ensures
        match r {
            Some(s) => valid_utf8(bytes@) && s@ == decode_utf8(bytes@),
            None => !valid_utf8(bytes@),
        },
{
    std::str::from_utf8(bytes).ok()
}

/// `String::from_utf8_lossy` of std: a text that the bytes alone determine. Valid UTF-8 gives the
/// text that it encodes; where replacement characters stand otherwise is not said.
#[verifier::external_body]
pub(crate) fn utf8_lossy(bytes: &[u8]) -> (s: String)
    ensures
        s@ == lossy_text(bytes@),
        valid_utf8(bytes@) ==> s@ == decode_utf8(bytes@),
{
    String::from_utf8_lossy(bytes).into_owned()
}

/// Whether a byte may stand in a header that is read as text.
pub open spec fn is_visible(b: u8) -> bool {
    32 <= b < 127 || b == 9
}

/// The characters that visible bytes stand for.
pub open spec fn ascii_text(bytes: Seq<u8>) -> Seq<char> {
    Seq::new(bytes.len(), |i: int| bytes[i] as char)
}

/// The text of a header: there is one where every byte is visible.
pub open spec fn header_text(bytes: Seq<u8>) -> Option<Seq<char>> {
    if forall|i: int| 0 <= i < bytes.len() ==> is_visible(#[trigger] bytes[i]) {
        Some(ascii_text(bytes))
    } else {
        None
    }
}

proof fn lemma_ascii_text(bytes: Seq<u8>)
    requires
        forall|i: int| 0 <= i < bytes.len() ==> is_visible(#[trigger] bytes[i]),
    ensures
        valid_utf8(bytes),
        decode_utf8(bytes) == ascii_text(bytes),
{
    let cs = ascii_text(bytes);
    assert forall|i: int| 0 <= i < cs.len() implies '\0' <= #[trigger] cs[i] <= '\u{7f}' by {
        assert(is_visible(bytes[i]));
    }
    vstd::utf8::is_ascii_chars_encode_utf8(cs);
    assert(encode_utf8(cs) =~= bytes);
    vstd::utf8::encode_utf8_valid_utf8(cs);
    vstd::utf8::encode_utf8_decode_utf8(cs);
}

/// Reads a header as text.
pub fn read_header(bytes: &[u8]) -> (r: Option<String>)
    ensures
        match r {
            Some(s) => header_text(bytes@) == Some(s@),
            None => header_text(bytes@) is None,
        },
{
    let mut i: usize = 0;
    while i < bytes.len()
        invariant
            i <= bytes@.len(),
            forall|j: int| 0 <= j < i ==> is_visible(#[trigger] bytes@[j]),
        decreases bytes@.len() - i,
    {
        let b: u8 = bytes[i];
        if !((32 <= b && b < 127) || b == 9) {
            assert(!is_visible(bytes@[i as int]));
            return None;
        }
        i += 1;
    }
    proof {
        lemma_ascii_text(bytes@);
    }
    match utf8_text(bytes) {
        Some(s) => Some(s.to_owned()),
        None => None,
    }
}

/// A header is text exactly where it holds nothing but tabs and what can be seen of ASCII, blanks
/// with it; the text has a character for each byte, with the same number.
pub proof fn a_header_is_its_bytes(bytes: Seq<u8>)
    ensures
        header_text(bytes) is Some <==> forall|i: int|
            0 <= i < bytes.len() ==> (#[trigger] bytes[i]) == 9 || 32 <= bytes[i] <= 126,
        header_text(bytes) matches Some(text) ==> text.len() == bytes.len() && forall|i: int|
            0 <= i < text.len() ==> (#[trigger] text[i]) as int == bytes[i] as int,
{
    if header_text(bytes) is Some {
        assert forall|i: int| 0 <= i < bytes.len() implies (#[trigger] bytes[i]) == 9 || 32
            <= bytes[i] <= 126 by {
            assert(is_visible(bytes[i]));
        }
        let text = ascii_text(bytes);
        assert forall|i: int| 0 <= i < text.len() implies (#[trigger] text[i]) as int
            == bytes[i] as int by {
            assert(is_visible(bytes[i]));
        }
    }
}

} // verus!
