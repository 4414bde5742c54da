//! Image bytes as text for the wire: standard base64 with padding, done by
//! the `base64` crate.

use vstd::prelude::*;
use vstd::string::*;

verus! {

/// `base64::DecodeError`: why a text is no base64. Opaque; only its display
/// text is read.
#[verifier::external_type_specification]
#[verifier::external_body]
pub struct ExDecodeError(base64::DecodeError);

/// The standard base64 text, padded, of a sequence of bytes.
pub uninterp spec fn base64_text(bytes: Seq<u8>) -> Seq<char>;

/// The bytes that a text stands for in standard padded base64; `None` for a
/// text that is no such encoding.
pub uninterp spec fn base64_bytes(text: Seq<char>) -> Option<Seq<u8>>;

/// The longest input whose base64 text a vector can hold.
pub open spec fn encodable(len: int) -> bool {
    (len / 3) * 4 + 4 <= usize::MAX / 2
}

/// `base64::Engine::encode` on `general_purpose::STANDARD`: the padded
/// base64 text of the bytes. The bound keeps the length of the text, four
/// characters for every three bytes begun, within what a vector can hold.
#[verifier::external_body]
pub(crate) fn encode_standard(bytes: &[u8]) -> (text: String)
    requires
        encodable(bytes@.len() as int),
    ensures
        text@ == base64_text(bytes@),
{
    base64::Engine::encode(&base64::engine::general_purpose::STANDARD, bytes)
}

/// `base64::Engine::decode` on `general_purpose::STANDARD`: the bytes that
/// the text encodes, or the crate's error for a text that encodes none.
#[verifier::external_body]
pub(crate) fn decode_standard(text: &str) -> (r: Result<Vec<u8>, base64::DecodeError>)
    ensures
        match r {
            Ok(bytes) => base64_bytes(text@) == Some(bytes@),
            Err(_) => base64_bytes(text@) is None,
        },
{
    base64::Engine::decode(&base64::engine::general_purpose::STANDARD, text)
}

/// `std::string::ToString::to_string` on a `base64::DecodeError`: the
/// error's display text. Nothing is claimed of it.
#[verifier::external_body]
pub(crate) fn decode_error_text(error: &base64::DecodeError) -> (text: String) {
    error.to_string()
}

/// Encodes bytes for the wire, unless they are too many for the text to fit
/// in memory.
pub fn encode_payload(bytes: &[u8]) -> (r: Option<String>)
    ensures
        r is Some <==> encodable(bytes@.len() as int),
        r matches Some(text) ==> text@ == base64_text(bytes@),
{
    if bytes.len() / 3 <= (usize::MAX / 2 - 4) / 4 {
        Some(encode_standard(bytes))
    } else {
        None
    }
}

/// What introduces the decoder's message when an image to be saved is no
/// base64.
pub const BAD_IMAGE: &'static str = "Failed to decode image: ";

/// Decodes the image that comes over the wire to be saved. A text that is no
/// base64 is refused with a message that opens with `BAD_IMAGE` and goes on
/// with the decoder's own words.
pub fn decode_payload(text: &str) -> (r: Result<Vec<u8>, String>)
    ensures
        match r {
            Ok(bytes) => base64_bytes(text@) == Some(bytes@),
            Err(e) => base64_bytes(text@) is None && BAD_IMAGE@.is_prefix_of(e@),
        },
{
    match decode_standard(text) {
        Ok(bytes) => Ok(bytes),
        Err(e) => {
            let mut message: String = String::from_str(BAD_IMAGE);
            message.append(decode_error_text(&e).as_str());
            assert(message@.subrange(0, BAD_IMAGE@.len() as int) =~= BAD_IMAGE@);
            Err(message)
        },
    }
}

} // verus!
