//! Bytes as UTF-8 text.

use vstd::prelude::*;
use vstd::utf8::{char_u32_cast, decode_utf8, encode_scalar, encode_utf8, valid_utf8};

verus! {

/// The text of the error with which `std::str::from_utf8` refuses `bytes`.
pub uninterp spec fn utf8_error_text(bytes: Seq<u8>) -> Seq<char>;

/// The text of the error with which `String::from_utf8` refuses `bytes`.
pub uninterp spec fn owned_utf8_error_text(bytes: Seq<u8>) -> Seq<char>;

/// The text that `String::from_utf8_lossy` makes of `bytes`.
pub uninterp spec fn lossy_text(bytes: Seq<u8>) -> Seq<char>;

/// `std::str::from_utf8`, with the error as its text. UTF-8 is accepted, for the text that it
/// encodes, and nothing else is. The words of the error depend on the bytes alone, and are not
/// spelled out here.
#[verifier::external_body]
pub(crate) fn utf8_str(bytes: &[u8]) -> (r: Result<&str, String>)
    ensures
        match r {
            Ok(s) => valid_utf8(bytes@) && s@ == decode_utf8(bytes@),
            Err(e) => !valid_utf8(bytes@) && e@ == utf8_error_text(bytes@),
        },
{
    match std::str::from_utf8(bytes) {
        Ok(s) => Ok(s),
        Err(e) => Err(e.to_string()),
    }
}

/// `String::from_utf8`, with the error as its text. UTF-8 is accepted, for the text that it
/// encodes, and nothing else is. The words of the error depend on the bytes alone, and are not
/// spelled out here.
#[verifier::external_body]
pub(crate) fn utf8_string(bytes: Vec<u8>) -> (r: Result<String, String>)
    ensures
        match r {
            Ok(s) => valid_utf8(bytes@) && s@ == decode_utf8(bytes@),
            Err(e) => !valid_utf8(bytes@) && e@ == owned_utf8_error_text(bytes@),
        },
{
    match String::from_utf8(bytes) {
        Ok(s) => Ok(s),
        Err(e) => Err(e.to_string()),
    }
}

/// `String::from_utf8_lossy`: UTF-8 gives the text that it encodes. What other bytes give depends on
/// the bytes alone; how their invalid parts are replaced is not spelled out here.
#[verifier::external_body]
pub(crate) fn utf8_lossy(bytes: &[u8]) -> (r: String)
    ensures
        r@ == lossy_text(bytes@),
        valid_utf8(bytes@) ==> r@ == decode_utf8(bytes@),
{
    String::from_utf8_lossy(bytes).into_owned()
}

/// One text after the other is encoded as the encoding of the one after that of the other.
pub proof fn lemma_encode_concat(a: Seq<char>, b: Seq<char>)
    ensures
        encode_utf8(a + b) == encode_utf8(a) + encode_utf8(b),
    decreases a.len(),
{
    if a.len() == 0 {
        assert(a + b =~= b);
        assert(encode_utf8(a) + encode_utf8(b) =~= encode_utf8(b));
    } else {
        assert((a + b).drop_first() =~= a.drop_first() + b);
        lemma_encode_concat(a.drop_first(), b);
        assert(encode_utf8(a + b) =~= encode_utf8(a) + encode_utf8(b));
    }
}

/// A text without a carriage return is encoded without one, and one that is not empty as bytes that
/// are not.
pub proof fn lemma_encode_without_return(s: Seq<char>)
    requires
        !s.contains('\r'),
    ensures
        !encode_utf8(s).contains(13),
        s.len() > 0 ==> encode_utf8(s).len() > 0,
    decreases s.len(),
{
    if s.len() > 0 {
        let rest = s.drop_first();
        assert forall|i: int| 0 <= i < rest.len() implies rest[i] != '\r' by {
            assert(rest[i] == s[i + 1]);
            assert(s.contains(s[i + 1]));
        }
        lemma_encode_without_return(rest);
        assert(s.contains(s[0]));
        assert(s[0] != '\r');
        let c = s[0] as u32;
        let first = encode_scalar(c);
        assert(c != 13) by {
            char_u32_cast(s[0], c);
            assert(13u32 as char == '\r');
        }
        assert(c <= 0x7f ==> (c & 0x7f) as u8 == c) by (bit_vector);
        assert(0xc0u8 | ((c >> 6) & 0x1f) as u8 >= 0x80) by (bit_vector);
        assert(0xe0u8 | ((c >> 12) & 0x0f) as u8 >= 0x80) by (bit_vector);
        assert(0xf0u8 | ((c >> 18) & 0x7) as u8 >= 0x80) by (bit_vector);
        assert(0x80u8 | (c & 0x3f) as u8 >= 0x80) by (bit_vector);
        assert(0x80u8 | ((c >> 6) & 0x3f) as u8 >= 0x80) by (bit_vector);
        assert(0x80u8 | ((c >> 12) & 0x3f) as u8 >= 0x80) by (bit_vector);
        assert(forall|i: int| 0 <= i < first.len() ==> first[i] != 13);
        assert forall|i: int| 0 <= i < encode_utf8(s).len() implies encode_utf8(s)[i] != 13 by {
            if i >= first.len() {
                assert(encode_utf8(s)[i] == encode_utf8(rest)[i - first.len()]);
                assert(encode_utf8(rest).contains(encode_utf8(rest)[i - first.len()]));
            }
        }
    }
}

} // verus!
