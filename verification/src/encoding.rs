//! Base64.

use base64::Engine;

use vstd::prelude::*;
use vstd::utf8::encode_utf8;

verus! {

/// A base64 alphabet with its rule on padding.
#[derive(Debug, Clone, Copy, PartialEq, Eq, Structural)]
pub enum Alphabet {
    /// The URL-safe alphabet without padding.
    UrlSafeNoPad,
    /// The standard alphabet with padding.
    Standard,
}

/// The bytes that a text, in ASCII, encodes, or the decoder's message where it encodes none.
pub uninterp spec fn base64_bytes(alphabet: Alphabet, text: Seq<u8>) -> Result<
    Seq<u8>,
    Seq<char>,
>;

/// `base64::Engine::decode` of the engines `URL_SAFE_NO_PAD` and `STANDARD`: what it
/// returns depends on the engine and the text alone. The bytes are no more than the text.
#[verifier::external_body]
fn decode_with(alphabet: Alphabet, text: &[u8]) -> (r: Result<Vec<u8>, String>)
    ensures
        match r {
            Ok(bytes) => base64_bytes(alphabet, text@) == Ok::<Seq<u8>, Seq<char>>(bytes@)
                && bytes@.len() <= text@.len(),
            Err(message) => base64_bytes(alphabet, text@) == Err::<Seq<u8>, Seq<char>>(message@),
        },
{
    let decoded = match alphabet {
        Alphabet::UrlSafeNoPad => base64::engine::general_purpose::URL_SAFE_NO_PAD.decode(text),
        Alphabet::Standard => base64::engine::general_purpose::STANDARD.decode(text),
    };
    match decoded {
        Ok(bytes) => Ok(bytes),
        Err(e) => Err(format!("{e}")),
    }
}

/// Decodes a base64 text; the error is the decoder's message.
pub fn decode_base64(alphabet: Alphabet, text: &[u8]) -> (r: Result<Vec<u8>, String>)
    ensures
        match r {
            Ok(bytes) => base64_bytes(alphabet, text@) == Ok::<Seq<u8>, Seq<char>>(bytes@)
                && bytes@.len() <= text@.len(),
            Err(message) => base64_bytes(alphabet, text@) == Err::<Seq<u8>, Seq<char>>(message@),
        },
{
    decode_with(alphabet, text)
}

/// The text that encodes a byte string.
pub uninterp spec fn base64_text(alphabet: Alphabet, bytes: Seq<u8>) -> Seq<char>;

/// `base64::Engine::encode` of the engines `URL_SAFE_NO_PAD` and `STANDARD`: a text that
/// depends on the engine and the bytes alone, and that the same engine decodes to these
/// bytes. It panics where the text is too long for memory.
#[verifier::external_body]
fn encode_with(alphabet: Alphabet, bytes: &[u8]) -> (text: String)
    requires
        bytes@.len() <= MAX_ENCODED_LEN,
    ensures
        text@ == base64_text(alphabet, bytes@),
        base64_bytes(alphabet, encode_utf8(text@)) is Ok,
        base64_bytes(alphabet, encode_utf8(text@))->Ok_0 == bytes@,
{
    match alphabet {
        Alphabet::UrlSafeNoPad => base64::engine::general_purpose::URL_SAFE_NO_PAD.encode(bytes),
        Alphabet::Standard => base64::engine::general_purpose::STANDARD.encode(bytes),
    }
}

/// The longest byte string whose text, a third longer, memory can hold.
pub const MAX_ENCODED_LEN: usize = usize::MAX / 8 * 3;

/// Encodes a byte string; decoding gives it back.
pub fn encode_base64(alphabet: Alphabet, bytes: &[u8]) -> (text: String)
    requires
        bytes@.len() <= MAX_ENCODED_LEN,
    ensures
        text@ == base64_text(alphabet, bytes@),
        base64_bytes(alphabet, encode_utf8(text@)) matches Ok(decoded) && decoded == bytes@,
{
    encode_with(alphabet, bytes)
}

} // verus!
