//! Base64 (standard alphabet, padded), as used by SASL and in-band bytestreams.

use vstd::prelude::*;

verus! {

/// The standard base64 text of `data`.
pub uninterp spec fn base64_text(data: Seq<u8>) -> Seq<char>;

/// The bytes that the standard base64 text `text` stands for, if it is valid.
pub uninterp spec fn base64_bytes(text: Seq<char>) -> Option<Seq<u8>>;

/// Relies on `base64::encode`: the padded standard encoding, four characters
/// for each started group of three bytes.
#[verifier::external_body]
pub(crate) fn base64_encode(data: &[u8]) -> (r: String)
    requires
        data@.len() <= usize::MAX / 2,
    ensures
        r@ == base64_text(data@),
        r@.len() == 4 * ((data@.len() + 2) / 3),
{
    base64::encode(data)
}

/// Relies on `base64::decode`: decodes base64 of the standard alphabet (it
/// also takes unpadded or shortly padded text); it inverts `base64::encode`.
#[verifier::external_body]
pub(crate) fn base64_decode(text: &str) -> (r: Option<Vec<u8>>)
    ensures
        r is None ==> forall|b: Seq<u8>| base64_text(b) != text@,
        r matches Some(v) ==> base64_bytes(text@) == Some(v@),
        r matches Some(v) ==> forall|b: Seq<u8>| base64_text(b) == text@ ==> v@ == b,
        r is None ==> base64_bytes(text@) is None,
{
    base64::decode(text).ok()
}

} // verus!
