//! Proof-of-possession verification: the proof token is split into
//! timestamp and digest, the timestamp is checked against the validity
//! window, and the digest is recomputed and compared in constant time.
use vstd::prelude::*;
use crate::bytes::{
    first_match_from, lemma_first_match_bounds, lemma_split_at_least_one, lemma_split_prefix,
    lemma_split_two_parts, match_at, spec_split, split_bytes, views,
};
use crate::compare::constant_time_compare;
use crate::digest::{digest_bytes, is_base64_byte, spec_digest};
use crate::token::{
    all_digits, canonical_ts, is_expired, parse_number, spec_canonical_ts, spec_expired,
    spec_number_parts,
};

verus! {

/// A proof token verifies for `client_ip` under `secret` when it is
/// `timestamp "-" digest` — exactly one '-' — with a numeric
/// timestamp that is not expired at `now_ms` under `window_ms`, and
/// the digest equals the one recomputed over the canonical timestamp.
pub open spec fn spec_verify(
    client_ip: Seq<u8>,
    proof_token: Seq<u8>,
    secret: Seq<u8>,
    now_ms: u64,
    window_ms: u64,
) -> bool {
    let parts = spec_split(proof_token, seq![45u8]);
    &&& parts.len() == 2
    &&& spec_number_parts(parts[0]) is Some
    &&& {
        let np = spec_number_parts(parts[0])->Some_0;
        &&& !spec_expired(np.0, np.1, now_ms, window_ms)
        &&& parts[1] == spec_digest(client_ip, secret, spec_canonical_ts(np.0, np.1))
    }
}

/// Decides `spec_verify` for the supplied proof token.
pub fn verify_hmac_token(
    client_ip: &[u8],
    proof_token: &[u8],
    secret: &[u8],
    now_ms: u64,
    window_ms: u64,
) -> (r: bool)
    ensures
        r == spec_verify(client_ip@, proof_token@, secret@, now_ms, window_ms),
{
    let mut dash: Vec<u8> = Vec::new();
    dash.push(45); // '-'
    proof {
        assert(dash@ =~= seq![45u8]);
    }
    let parts = split_bytes(proof_token, dash.as_slice());
    if parts.len() != 2 {
        return false;
    }
    proof {
        assert(views(parts@)[0] == parts@[0]@);
        assert(views(parts@)[1] == parts@[1]@);
    }
    match parse_number(parts[0].as_slice()) {
        None => false,
        Some(np) => {
            proof {
                lemma_number_parts_digits(parts@[0]@);
            }
            if is_expired(np.0.as_slice(), np.1.as_slice(), now_ms, window_ms) {
                return false;
            }
            let canon = canonical_ts(np.0.as_slice(), np.1.as_slice());
            let expected = digest_bytes(client_ip, secret, canon.as_slice());
            constant_time_compare(expected.as_slice(), parts[1].as_slice())
        },
    }
}

/// The issuer-side digest for `client_ip` under `secret` and the
/// numeric timestamp `timestamp`: the proof digest over the
/// canonically rendered timestamp, or None when `timestamp` is not a
/// numeral.
pub fn generate_hash(client_ip: &[u8], secret: &[u8], timestamp: &[u8]) -> (r: Option<Vec<u8>>)
    ensures
        match r {
            Some(d) => {
                &&& spec_number_parts(timestamp@) is Some
                &&& d@ == spec_digest(
                    client_ip@,
                    secret@,
                    spec_canonical_ts(
                        spec_number_parts(timestamp@)->Some_0.0,
                        spec_number_parts(timestamp@)->Some_0.1,
                    ),
                )
                &&& forall|i: int| 0 <= i < d@.len() ==> is_base64_byte(#[trigger] d@[i])
            },
            None => spec_number_parts(timestamp@) is None,
        },
{
    match parse_number(timestamp) {
        None => None,
        Some(np) => {
            let canon = canonical_ts(np.0.as_slice(), np.1.as_slice());
            Some(digest_bytes(client_ip, secret, canon.as_slice()))
        },
    }
}

/// A parsed numeral consists of digit strings.
proof fn lemma_number_parts_digits(s: Seq<u8>)
    requires
        spec_number_parts(s) is Some,
    ensures
        all_digits(spec_number_parts(s)->Some_0.0),
        all_digits(spec_number_parts(s)->Some_0.1),
{
}

/// No byte of a numeral is the '-' separator: its bytes are digits and
/// at most one '.'.
proof fn lemma_number_no_dash(s: Seq<u8>)
    requires
        spec_number_parts(s) is Some,
    ensures
        forall|i: int| 0 <= i < s.len() ==> s[i] != 45,
{
    match first_match_from(s, seq![46u8], 0) {
        None => {
            assert(all_digits(s));
        },
        Some(d) => {
            lemma_first_match_bounds(s, seq![46u8], 0);
            assert(match_at(s, seq![46u8], d));
            assert(s.subrange(d, d + 1)[0] == 46);
            let ipart = s.subrange(0, d);
            let fpart = s.subrange(d + 1, s.len() as int);
            assert(all_digits(ipart) && all_digits(fpart));
            assert forall|i: int| 0 <= i < s.len() implies s[i] != 45 by {
                if i < d {
                    assert(s[i] == ipart[i]);
                } else if i == d {
                    assert(s[i] == 46);
                } else {
                    assert(s[i] == fpart[i - d - 1]);
                }
            }
        },
    }
}

/// A proof token assembled from any timestamp that is not expired at
/// the time of checking — a future timestamp in particular, since the
/// window bounds only the token's age — and the matching digest for
/// the caller's IP and secret always verifies.
pub proof fn lemma_fresh_token_verifies(
    client_ip: Seq<u8>,
    secret: Seq<u8>,
    ts: Seq<u8>,
    dg: Seq<u8>,
    now_ms: u64,
    window_ms: u64,
)
    requires
        spec_number_parts(ts) is Some,
        !spec_expired(
            spec_number_parts(ts)->Some_0.0,
            spec_number_parts(ts)->Some_0.1,
            now_ms,
            window_ms,
        ),
        dg == spec_digest(
            client_ip,
            secret,
            spec_canonical_ts(spec_number_parts(ts)->Some_0.0, spec_number_parts(ts)->Some_0.1),
        ),
        forall|i: int| 0 <= i < dg.len() ==> is_base64_byte(#[trigger] dg[i]),
    ensures
        spec_verify(client_ip, ts + seq![45u8] + dg, secret, now_ms, window_ms),
{
    lemma_number_no_dash(ts);
    assert(forall|i: int| 0 <= i < dg.len() ==> dg[i] != 45);
    lemma_split_two_parts(ts, dg, 45);
    let parts = spec_split(ts + seq![45u8] + dg, seq![45u8]);
    assert(parts[0] == ts);
    assert(parts[1] == dg);
}

/// Whatever stands in place of the digest — matching, mismatched, or
/// itself containing '-' — a proof token whose timestamp is expired
/// at the time of checking is rejected.
pub proof fn lemma_expired_token_rejected(
    client_ip: Seq<u8>,
    secret: Seq<u8>,
    ts: Seq<u8>,
    rest: Seq<u8>,
    now_ms: u64,
    window_ms: u64,
)
    requires
        spec_number_parts(ts) is Some,
        spec_expired(
            spec_number_parts(ts)->Some_0.0,
            spec_number_parts(ts)->Some_0.1,
            now_ms,
            window_ms,
        ),
    ensures
        !spec_verify(client_ip, ts + seq![45u8] + rest, secret, now_ms, window_ms),
{
    lemma_number_no_dash(ts);
    lemma_split_prefix(ts, rest, 45);
    let parts = spec_split(ts + seq![45u8] + rest, seq![45u8]);
    let rsp = spec_split(rest, seq![45u8]);
    lemma_split_at_least_one(rest, seq![45u8]);
    if parts.len() == 2 {
        assert(rsp.len() == 1);
        if first_match_from(rest, seq![45u8], 0) is Some {
            let k = first_match_from(rest, seq![45u8], 0)->Some_0;
            lemma_first_match_bounds(rest, seq![45u8], 0);
            lemma_split_at_least_one(rest.subrange(k + 1, rest.len() as int), seq![45u8]);
            assert(false);
        }
        assert(rsp == seq![rest]);
        assert(parts[0] == ts);
    }
}

} // verus!
