//! The request authenticator: a SharedKeyLite header binding one request to
//! the timestamp it carries. Pure and deterministic; it must be recomputed
//! for every request because the signature signs the timestamp.

use hmac::KeyInit;
use hmac::Mac;
use vstd::prelude::*;

use crate::b64::{b64_decode, b64_encode, base64_of};
use crate::chars;
use crate::error::{Error, ErrorView};
use crate::text::{chars_of, string_of};

verus! {

/// What HMAC-SHA256 yields for the given key bytes and message text (the
/// message's UTF-8 bytes are signed).
pub uninterp spec fn hmac_sha256_of(key: Seq<u8>, msg: Seq<char>) -> Seq<u8>;

/// Relies on `Hmac::<Sha256>::new_from_slice` (HMAC accepts keys of any
/// length), `Mac::update` and `Mac::finalize` of the hmac and sha2 crates:
/// the digest is a function of key and message alone, 32 bytes long.
#[verifier::external_body]
fn hmac_sha256(key: &Vec<u8>, msg: &str) -> (r: Vec<u8>)
    ensures
        r@ == hmac_sha256_of(key@, msg@),
        r@.len() == 32,
{
    let mut mac = hmac::Hmac::<sha2::Sha256>::new_from_slice(key.as_slice())
        .expect("HMAC accepts keys of any length");
    mac.update(msg.as_bytes());
    mac.finalize().into_bytes().to_vec()
}

/// The string to sign: timestamp, a newline, the canonical resource path.
pub open spec fn string_to_sign(date: Seq<char>, path: Seq<char>) -> Seq<char> {
    date + seq!['\n'] + path
}

/// The signature for a decoded key: base64 of the HMAC digest.
pub open spec fn auth_sig(key: Seq<u8>, date: Seq<char>, path: Seq<char>) -> Seq<char> {
    base64_of(hmac_sha256_of(key, string_to_sign(date, path)))
}

pub open spec fn scheme_prefix() -> Seq<char> {
    seq!['S', 'h', 'a', 'r', 'e', 'd', 'K', 'e', 'y', 'L', 'i', 't', 'e', ' ']
}

/// The whole header value: `SharedKeyLite <account>:<signature>`, for the
/// unique byte string the account key's base64 decodes to; InvalidKey when
/// the key is not valid base64.
pub open spec fn auth_header_sp(
    account: Seq<char>,
    key_text: Seq<char>,
    date: Seq<char>,
    path: Seq<char>,
) -> Result<Seq<char>, ErrorView> {
    if exists|k: Seq<u8>| base64_of(k) == key_text {
        let k = choose|k: Seq<u8>| base64_of(k) == key_text;
        Ok(scheme_prefix() + account + seq![':'] + auth_sig(k, date, path))
    } else {
        Err(ErrorView::InvalidKey)
    }
}

/// Compute the authorization header value for one request.
///
/// Succeeds exactly when the account key is valid base64; the result is a
/// function of the four inputs alone.
pub fn auth_header(
    account_name: &str,
    account_key: &str,
    date_time: &str,
    resource_path: &str,
) -> (r: Result<String, Error>)
    ensures
        match r {
            Ok(s) => auth_header_sp(account_name@, account_key@, date_time@, resource_path@)
                == Ok::<Seq<char>, ErrorView>(s@),
            Err(e) => auth_header_sp(account_name@, account_key@, date_time@, resource_path@)
                == Err::<Seq<char>, ErrorView>(e@),
        },
{
    let key = match b64_decode(account_key) {
        Some(k) => k,
        None => {
            return Err(Error::InvalidKey);
        },
    };
    let mut sts = chars_of(date_time);
    sts.push('\n');
    let path_v = chars_of(resource_path);
    chars::push_all(&mut sts, &path_v);
    assert(sts@ =~= string_to_sign(date_time@, resource_path@));
    let sts_s = string_of(&sts);
    let digest = hmac_sha256(&key, sts_s.as_str());
    let sig = b64_encode(&digest);
    let mut out = vec![
        'S', 'h', 'a', 'r', 'e', 'd', 'K', 'e', 'y', 'L', 'i', 't', 'e', ' ',
    ];
    assert(out@ =~= scheme_prefix());
    let account_v = chars_of(account_name);
    chars::push_all(&mut out, &account_v);
    out.push(':');
    let sig_v = chars_of(sig.as_str());
    chars::push_all(&mut out, &sig_v);
    proof {
        let kc = choose|k: Seq<u8>| base64_of(k) == account_key@;
        assert(kc == key@);
        assert(out@ =~= scheme_prefix() + account_name@ + seq![':'] + auth_sig(
            key@,
            date_time@,
            resource_path@,
        ));
    }
    Ok(string_of(&out))
}

/// The authenticator is deterministic: identical account, key, timestamp and
/// resource path always yield the identical header value.
pub proof fn lemma_auth_header_deterministic(
    a1: Seq<char>,
    k1: Seq<char>,
    d1: Seq<char>,
    p1: Seq<char>,
    a2: Seq<char>,
    k2: Seq<char>,
    d2: Seq<char>,
    p2: Seq<char>,
)
    requires
        a1 == a2,
        k1 == k2,
        d1 == d2,
        p1 == p2,
    ensures
        auth_header_sp(a1, k1, d1, p1) == auth_header_sp(a2, k2, d2, p2),
{
}

} // verus!
