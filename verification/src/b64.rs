//! Base64 (standard alphabet, padded) through base64ct, behind trusted
//! wrappers: encoding is named, decoding is its exact inverse.

use base64ct::Encoding;
use vstd::prelude::*;

verus! {

/// What base64ct's padded standard-alphabet encoding yields for the given
/// bytes.
pub uninterp spec fn base64_of(b: Seq<u8>) -> Seq<char>;

/// Relies on `base64ct::Base64::encode_string`: standard-alphabet base64
/// with padding; the result depends on the input bytes alone.
#[verifier::external_body]
pub fn b64_encode(b: &Vec<u8>) -> (r: String)
    ensures
        r@ == base64_of(b@),
{
    base64ct::Base64::encode_string(b.as_slice())
}

/// Relies on `base64ct::Base64::decode_vec`: strict decoding that accepts
/// exactly the canonical padded encodings, so it succeeds precisely on the
/// image of the encoder and returns the unique preimage.
#[verifier::external_body]
pub fn b64_decode(s: &str) -> (r: Option<Vec<u8>>)
    ensures
        match r {
            Some(d) => s@ == base64_of(d@) && (forall|b: Seq<u8>|
                base64_of(b) == s@ ==> b == d@),
            None => forall|b: Seq<u8>| base64_of(b) != s@,
        },
{
    match base64ct::Base64::decode_vec(s) {
        Ok(d) => Some(d),
        Err(_) => None,
    }
}

} // verus!
