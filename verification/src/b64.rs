//! Base64 text, through the `base64` crate.

use vstd::prelude::*;
use base64::Engine;

verus! {

/// The error of the base64 decoders.
#[verifier::external_type_specification]
#[verifier::external_body]
pub struct ExDecodeError(base64::DecodeError);

/// The bytes that a text in standard, padded base64 stands for, or `None`
/// where the decoder of the `base64` crate refuses the text.
pub uninterp spec fn base64_bytes(text: Seq<char>) -> Option<Seq<u8>>;

/// The URL-safe base64 text of some bytes, without padding.
pub uninterp spec fn base64url_text(bytes: Seq<u8>) -> Seq<char>;

/// The bytes that a text in URL-safe base64 without padding stands for, or
/// `None` where the decoder of the `base64` crate refuses the text.
pub uninterp spec fn base64url_bytes(text: Seq<char>) -> Option<Seq<u8>>;

/// Whether `c` belongs to the URL-safe base64 alphabet: a letter, a digit,
/// `-` or `_`.
pub open spec fn is_base64url_char(c: char) -> bool {
    ||| 'A' <= c <= 'Z'
    ||| 'a' <= c <= 'z'
    ||| '0' <= c <= '9'
    ||| c == '-'
    ||| c == '_'
}

/// Whether a text is made of characters of the URL-safe base64 alphabet.
pub open spec fn is_base64url(text: Seq<char>) -> bool {
    forall|i: int| 0 <= i < text.len() ==> is_base64url_char(#[trigger] text[i])
}

/// Calls `base64::decode`, the decoder of the standard alphabet that asks
/// for padding. The contract gives the outcome a name.
#[verifier::external_body]
#[allow(deprecated)]
pub(crate) fn decode_standard(text: &str) -> (res: Result<Vec<u8>, base64::DecodeError>)
    ensures
        match res {
            Ok(bytes) => base64_bytes(text@) == Some(bytes@),
            Err(_) => base64_bytes(text@) is None,
        },
{
    base64::decode(text)
}

/// The length of the base64 text of `n` bytes, without padding: four
/// characters for each three bytes, two for one byte left over and three for
/// two.
pub open spec fn base64_len(n: nat) -> nat {
    (4 * n + 2) / 3
}

/// Calls `Engine::encode` of `URL_SAFE_NO_PAD`. The contract names the text,
/// and says of it what base64 promises: it is made of the URL-safe alphabet,
/// it has the length that the crate computes for an unpadded text, and the
/// decoder of the same engine reads the bytes back from it.
#[verifier::external_body]
pub(crate) fn encode_url(bytes: &[u8]) -> (res: String)
    ensures
        res@ == base64url_text(bytes@),
        is_base64url(res@),
        res@.len() == base64_len(bytes@.len()),
        base64url_bytes(res@) == Some(bytes@),
{
    base64::engine::general_purpose::URL_SAFE_NO_PAD.encode(bytes)
}

/// Calls `Engine::decode` of `URL_SAFE_NO_PAD`. The contract gives the
/// outcome a name.
#[verifier::external_body]
pub(crate) fn decode_url(text: &str) -> (res: Result<Vec<u8>, base64::DecodeError>)
    ensures
        match res {
            Ok(bytes) => base64url_bytes(text@) == Some(bytes@),
            Err(_) => base64url_bytes(text@) is None,
        },
{
    base64::engine::general_purpose::URL_SAFE_NO_PAD.decode(text)
}

} // verus!
