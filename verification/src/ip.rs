//! Client-IP derivation from the two address-bearing request headers.
use vstd::prelude::*;
use crate::bytes::{lemma_split_at_least_one, spec_split, spec_trim, split_bytes, trim_ascii, views};

verus! {

/// The fallback client address, "127.0.0.1".
pub open spec fn spec_loopback() -> Seq<u8> {
    seq![49u8, 50u8, 55u8, 46u8, 48u8, 46u8, 48u8, 46u8, 49u8]
}

/// View of an optional byte string.
pub open spec fn opt_view(o: Option<Vec<u8>>) -> Option<Seq<u8>> {
    match o {
        Some(v) => Some(v@),
        None => None,
    }
}

/// The caller's address: the direct-connection header when present and
/// non-empty; otherwise the first comma-separated entry of the
/// forwarded-for header, trimmed of surrounding whitespace; otherwise
/// the loopback fallback. This derivation feeds byte-for-byte into the
/// HMAC input and must match the issuer's exactly.
pub open spec fn spec_client_ip(direct: Option<Seq<u8>>, forwarded: Option<Seq<u8>>) -> Seq<u8> {
    if direct is Some && direct->Some_0.len() > 0 {
        direct->Some_0
    } else if forwarded is Some {
        spec_trim(spec_split(forwarded->Some_0, seq![44u8])[0])
    } else {
        spec_loopback()
    }
}

/// Derives the caller's address, as `spec_client_ip` describes.
pub fn extract_client_ip(direct: Option<Vec<u8>>, forwarded: Option<Vec<u8>>) -> (r: Vec<u8>)
    ensures
        r@ == spec_client_ip(opt_view(direct), opt_view(forwarded)),
{
    if let Some(v) = direct {
        if v.len() > 0 {
            return v;
        }
    }
    match forwarded {
        Some(x) => {
            let mut comma: Vec<u8> = Vec::new();
            comma.push(44); // ','
            proof {
                assert(comma@ =~= seq![44u8]);
            }
            let parts = split_bytes(x.as_slice(), comma.as_slice());
            proof {
                lemma_split_at_least_one(x@, seq![44u8]);
                assert(views(parts@)[0] == parts@[0]@);
            }
            trim_ascii(parts[0].as_slice())
        },
        None => {
            let mut r: Vec<u8> = Vec::new();
            r.push(49);
            r.push(50);
            r.push(55);
            r.push(46);
            r.push(48);
            r.push(46);
            r.push(48);
            r.push(46);
            r.push(49); // "127.0.0.1"
            proof {
                assert(r@ =~= spec_loopback());
            }
            r
        },
    }
}

} // verus!
