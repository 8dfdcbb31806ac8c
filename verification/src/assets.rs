//! The fixed bytes that the server hands out: made once at startup, then
//! only read.

use vstd::prelude::*;

verus! {

/// A favicon of one pixel, as base64 text.
pub const PIXEL_FAVICON_BASE64: &'static str =
    "iVBORw0KGgoAAAANSUhEUgAAAAEAAAABCAYAAAAfFcSJAAAADUlEQVR42mPk+89QDwADvgGOSHzRgAAAAABJRU5ErkJggg==";

/// The bytes that a text stands for in standard base64 with padding, or
/// `None` where the text is no such encoding.
pub uninterp spec fn base64_standard(text: Seq<char>) -> Option<Seq<u8>>;

/// Calls `decode` of `base64::prelude::BASE64_STANDARD`. Trusted: the
/// outcome depends on the text alone.
#[verifier::external_body]
fn decode_base64(text: &str) -> (r: Option<Vec<u8>>)
    ensures
        match r {
            Some(bytes) => base64_standard(text@) == Some(bytes@),
            None => base64_standard(text@) is None,
        },
{
    match base64::Engine::decode(&base64::prelude::BASE64_STANDARD, text) {
        Ok(bytes) => Some(bytes),
        Err(_) => None,
    }
}

/// The bytes of the favicon.
pub fn pixel_favicon() -> (r: Option<Vec<u8>>)
    ensures
        match r {
            Some(bytes) => base64_standard(PIXEL_FAVICON_BASE64@) == Some(bytes@),
            None => base64_standard(PIXEL_FAVICON_BASE64@) is None,
        },
{
    decode_base64(PIXEL_FAVICON_BASE64)
}

} // verus!
