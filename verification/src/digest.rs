//! The proof digest: HMAC-SHA256 keyed by the shared secret, base64
//! encoded. The two outside computations are named rather than
//! restated: `hmac_sha256_of` and `base64_of` stand for what the hmac
//! and base64 crates return, functions of their arguments alone.
use vstd::prelude::*;
use hmac::Mac;
use base64::Engine;

verus! {

/// The HMAC-SHA256 digest of `msg` under `key`.
pub uninterp spec fn hmac_sha256_of(key: Seq<u8>, msg: Seq<u8>) -> Seq<u8>;

/// The padded standard-alphabet base64 encoding of `bytes`.
pub uninterp spec fn base64_of(bytes: Seq<u8>) -> Seq<u8>;

/// A byte of the standard base64 alphabet, or the '=' padding byte.
pub open spec fn is_base64_byte(b: u8) -> bool {
    (65 <= b <= 90) || (97 <= b <= 122) || (48 <= b <= 57) || b == 43 || b == 47 || b == 61
}

/// Relies on hmac's `Hmac<Sha256>` through the `Mac` interface: the
/// digest is HMAC-SHA256 of the data under the key, a 32-byte output
/// determined by key and data alone; a key of any length is accepted.
#[verifier::external_body]
fn hmac_sha256(key: &[u8], msg: &[u8]) -> (r: Vec<u8>)
    ensures
        r@ == hmac_sha256_of(key@, msg@),
        r@.len() == 32,
{
    let mut mac = hmac::Hmac::<sha2::Sha256>::new_from_slice(key)
        .expect("HMAC accepts a key of any length");
    mac.update(msg);
    mac.finalize().into_bytes().to_vec()
}

/// Relies on base64's `STANDARD` engine: a padded encoding over the
/// standard alphabet (A-Z, a-z, 0-9, '+', '/', with '=' padding),
/// determined by the input bytes alone.
#[verifier::external_body]
fn base64_encode(bytes: &[u8]) -> (r: Vec<u8>)
    ensures
        r@ == base64_of(bytes@),
        forall|i: int| 0 <= i < r@.len() ==> is_base64_byte(r@[i]),
{
    base64::engine::general_purpose::STANDARD.encode(bytes).into_bytes()
}

/// The expected proof digest for a caller at `client_ip` and the
/// canonically rendered timestamp `ts`: base64 of HMAC-SHA256 over
/// the bytes of `"<client_ip>:<ts>"` keyed by `secret`.
pub open spec fn spec_digest(client_ip: Seq<u8>, secret: Seq<u8>, ts: Seq<u8>) -> Seq<u8> {
    base64_of(hmac_sha256_of(secret, client_ip + seq![58u8] + ts))
}

/// Computes the expected proof digest over `"<client_ip>:<ts>"`, where
/// `ts` is the canonically rendered timestamp.
pub fn digest_bytes(client_ip: &[u8], secret: &[u8], ts: &[u8]) -> (r: Vec<u8>)
    ensures
        r@ == spec_digest(client_ip@, secret@, ts@),
        forall|i: int| 0 <= i < r@.len() ==> is_base64_byte(r@[i]),
{
    let mut msg: Vec<u8> = Vec::new();
    crate::bytes::push_slice(&mut msg, client_ip);
    msg.push(58); // ':'
    crate::bytes::push_slice(&mut msg, ts);
    proof {
        assert(msg@ =~= client_ip@ + seq![58u8] + ts@);
    }
    let mac = hmac_sha256(secret, msg.as_slice());
    base64_encode(mac.as_slice())
}

} // verus!
