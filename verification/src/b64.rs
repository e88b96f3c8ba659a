//! The base64 transcoding used for binary payloads, named at the spec level
//! and performed by the `base64` crate.

use vstd::prelude::*;

verus! {

/// The standard-alphabet, padded base64 text of a byte sequence.
pub uninterp spec fn base64_of(b: Seq<u8>) -> Seq<char>;

/// What `base64::decode` yields for a piece of text: the decoded bytes, or
/// nothing where the text is not acceptable base64.
pub uninterp spec fn base64_decode_of(s: Seq<char>) -> Option<Seq<u8>>;

/// Relies on `base64::encode`: standard alphabet with padding, no line
/// wrapping; four characters for every started group of three bytes.
#[verifier::external_body]
pub fn b64_encode(b: &Vec<u8>) -> (r: String)
    ensures
        r@ == base64_of(b@),
        b@.len() == 0 ==> r@.len() == 0,
        b@.len() > 0 ==> r@.len() > 0,
        r@.len() == 4 * ((b@.len() + 2) / 3),
{
    base64::encode(b)
}

/// Relies on `base64::decode` with the standard alphabet: it rejects
/// characters outside the alphabet and impossible lengths, and it inverts
/// `base64::encode`.
#[verifier::external_body]
pub fn b64_decode(s: &str) -> (r: Option<Vec<u8>>)
    ensures
        r is Some <==> base64_decode_of(s@) is Some,
        r is Some ==> r.unwrap()@ == base64_decode_of(s@).unwrap(),
        forall|b: Seq<u8>| s@ == base64_of(b) ==> r is Some && r.unwrap()@ == b,
{
    base64::decode(s).ok()
}

} // verus!
