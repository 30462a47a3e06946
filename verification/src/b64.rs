//! The one outside computation the readers lean on: base64 encoding of file
//! payloads read back from a payload folder.

use vstd::prelude::*;

verus! {

/// The base64 text of a byte sequence, as the standard padded alphabet
/// writes it.  The encoding is a function of the bytes alone.
pub uninterp spec fn base64_of(bytes: Seq<u8>) -> Seq<char>;

/// Relies on base64's `Engine::encode` with the `STANDARD` engine: the
/// result depends only on the input bytes.  The length bound keeps the
/// encoder's output-size computation from overflowing.
#[verifier::external_body]
pub(crate) fn b64_encode(bytes: &Vec<u8>) -> (r: String)
    requires
        bytes@.len() < 0x1000_0000_0000_0000,
    ensures
        r@ == base64_of(bytes@),
{
    base64::Engine::encode(&base64::engine::general_purpose::STANDARD, bytes.as_slice())
}


} // verus!
