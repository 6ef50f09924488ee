//! Byte-to-text decoding: UTF-8 through the standard library, GB18030
//! through `encoding_rs`, and single UTF-16 code units.

use vstd::prelude::*;
use vstd::utf8::{decode_utf8, valid_utf8};

verus! {

/// What `encoding_rs::GB18030.decode(bytes)` returns as text: the bytes
/// decoded as GB18030 (a leading byte-order mark switches to the encoding
/// it marks), malformed sequences becoming U+FFFD.
pub uninterp spec fn gb18030_decode(bytes: Seq<u8>) -> Seq<char>;

/// Decodes `bytes` with `encoding_rs::GB18030.decode`.
#[verifier::external_body]
pub(crate) fn decode_gb18030(bytes: &[u8]) -> (r: String)
    ensures
        r@ == gb18030_decode(bytes@),
{
    encoding_rs::GB18030.decode(bytes).0.into_owned()
}

/// `std::str::from_utf8`: the text when `bytes` is valid UTF-8.
#[verifier::external_body]
pub(crate) fn utf8_text(bytes: &[u8]) -> (r: Option<String>)
    ensures
        r is Some <==> valid_utf8(bytes@),
        r matches Some(s) ==> s@ == decode_utf8(bytes@),
{
    std::str::from_utf8(bytes).ok().map(|s| s.to_owned())
}

/// A Unicode scalar value: not above U+10FFFF and not a surrogate.
pub open spec fn is_scalar(u: u32) -> bool {
    u <= 0x10FFFF && !(0xD800 <= u <= 0xDFFF)
}

/// `char::from_u32`.
#[verifier::external_body]
pub(crate) fn char_from_u32(u: u32) -> (r: Option<char>)
    ensures
        r == (if is_scalar(u) {
            Some(u as char)
        } else {
            None
        }),
{
    char::from_u32(u)
}

} // verus!
