//! Text fields of the format: UTF-8 bytes on the wire, with lossy decoding of
//! loosely-encoded legacy streams as a deliberate policy (invalid sequences
//! are replaced, never a hard failure).

use vstd::prelude::*;
use vstd::utf8::decode_utf8;
use vstd::utf8::valid_utf8;

verus! {

/// What lossy decoding makes of a byte sequence that is not valid UTF-8.
/// The replacement is a function of the bytes alone; nothing further is
/// assumed of it.
pub uninterp spec fn lossy_fallback(b: Seq<u8>) -> Seq<char>;

/// The characters that lossy UTF-8 decoding yields: the exact decoding when
/// the bytes are valid UTF-8, and a replacement-character reading otherwise.
pub open spec fn lossy_decode(b: Seq<u8>) -> Seq<char> {
    if valid_utf8(b) {
        decode_utf8(b)
    } else {
        lossy_fallback(b)
    }
}

/// Relies on String::from_utf8_lossy: on valid UTF-8 it returns exactly the
/// decoded characters, and on invalid input it substitutes U+FFFD for the
/// invalid sequences, a function of the bytes alone.
#[verifier::external_body]
pub(crate) fn utf8_lossy(b: &[u8]) -> (r: String)
    ensures
        r@ == lossy_decode(b@),
        !valid_utf8(b@) ==> r@ == lossy_fallback(b@),
{
    String::from_utf8_lossy(b).into_owned()
}

} // verus!
