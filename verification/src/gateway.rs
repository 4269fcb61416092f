//! The gatekeeper itself: classifies a request, runs the token pipeline, and
//! decides what the caller-facing layer must do — reject with a fixed
//! status and body, pass the request through untouched, or forward it
//! under the rewritten URL, optionally attaching the access cookie.
use vstd::prelude::*;
use crate::bytes::bytes_eq;
use crate::ip::{extract_client_ip, opt_view, spec_client_ip};
use crate::query::{
    lookup, parse_query, query_of, rewrite_url, spec_lookup, spec_parse_query, spec_query_of,
    spec_rewrite_url,
};
use crate::token::{parse_composite, spec_parse_composite};
use crate::verify::{spec_verify, verify_hmac_token};

verus! {

/// The query parameter naming the logical operation, "function_id".
pub open spec fn spec_function_id_key() -> Seq<u8> {
    seq![102u8, 117u8, 110u8, 99u8, 116u8, 105u8, 111u8, 110u8, 95u8, 105u8, 100u8]
}

/// The function id designating a login request, "APPS_LOGIN_DEFAULT".
pub open spec fn spec_login_designator() -> Seq<u8> {
    seq![65u8, 80u8, 80u8, 83u8, 95u8, 76u8, 79u8, 71u8, 73u8, 78u8, 95u8, 68u8, 69u8, 70u8, 65u8,
        85u8, 76u8, 84u8]
}

/// The query parameter carrying the composite token, "oait".
pub open spec fn spec_token_key() -> Seq<u8> {
    seq![111u8, 97u8, 105u8, 116u8]
}

/// Builds the "function_id" parameter name.
pub fn function_id_key() -> (r: Vec<u8>)
    ensures
        r@ == spec_function_id_key(),
{
    let mut v: Vec<u8> = Vec::new();
    v.push(102);
    v.push(117);
    v.push(110);
    v.push(99);
    v.push(116);
    v.push(105);
    v.push(111);
    v.push(110);
    v.push(95);
    v.push(105);
    v.push(100);
    proof {
        assert(v@ =~= spec_function_id_key());
    }
    v
}

/// Builds the "APPS_LOGIN_DEFAULT" designator.
pub fn login_designator() -> (r: Vec<u8>)
    ensures
        r@ == spec_login_designator(),
{
    let mut v: Vec<u8> = Vec::new();
    v.push(65);
    v.push(80);
    v.push(80);
    v.push(83);
    v.push(95);
    v.push(76);
    v.push(79);
    v.push(71);
    v.push(73);
    v.push(78);
    v.push(95);
    v.push(68);
    v.push(69);
    v.push(70);
    v.push(65);
    v.push(85);
    v.push(76);
    v.push(84);
    proof {
        assert(v@ =~= spec_login_designator());
    }
    v
}

/// Builds the "oait" parameter name.
pub fn token_key() -> (r: Vec<u8>)
    ensures
        r@ == spec_token_key(),
{
    let mut v: Vec<u8> = Vec::new();
    v.push(111);
    v.push(97);
    v.push(105);
    v.push(116);
    proof {
        assert(v@ =~= spec_token_key());
    }
    v
}

/// What the gatekeeper decides of a request, at the model level.
pub enum Outcome {
    /// The configured secret is empty: fail closed, status 400.
    MissingSecret,
    /// Not a login request: pass it through untouched.
    Bypass,
    /// The token parameter is absent or empty: status 400.
    MissingToken,
    /// Fewer than two `++`-separated segments: status 403.
    MalformedToken,
    /// The proof token failed verification: status 403.
    InvalidToken,
    /// Verified: forward under the rewritten URL, with the secondary
    /// access token when one was present.
    Forward { url: Seq<u8>, access_token: Option<Seq<u8>> },
}

/// What the gatekeeper decides of a request.
pub enum Decision {
    /// The configured secret is empty: fail closed, status 400.
    MissingSecret,
    /// Not a login request: pass it through untouched.
    Bypass,
    /// The token parameter is absent or empty: status 400.
    MissingToken,
    /// Fewer than two `++`-separated segments: status 403.
    MalformedToken,
    /// The proof token failed verification: status 403.
    InvalidToken,
    /// Verified: forward under the rewritten URL, with the secondary
    /// access token when one was present.
    Forward { url: Vec<u8>, access_token: Option<Vec<u8>> },
}

impl View for Decision {
    type V = Outcome;

    open spec fn view(&self) -> Outcome {
        match self {
            Decision::MissingSecret => Outcome::MissingSecret,
            Decision::Bypass => Outcome::Bypass,
            Decision::MissingToken => Outcome::MissingToken,
            Decision::MalformedToken => Outcome::MalformedToken,
            Decision::InvalidToken => Outcome::InvalidToken,
            Decision::Forward { url, access_token } => Outcome::Forward {
                url: url@,
                access_token: match access_token {
                    Some(v) => Some(v@),
                    None => None,
                },
            },
        }
    }
}

/// The gatekeeper's decision for a request, start to end: an empty secret
/// fails closed; a request without the login designator under the
/// function-id parameter passes through; then the composite token is
/// required, parsed, and its proof verified against the caller's IP;
/// success forwards under the rewritten URL.
pub open spec fn spec_handle(
    secret: Seq<u8>,
    url: Seq<u8>,
    direct: Option<Seq<u8>>,
    forwarded: Option<Seq<u8>>,
    now_ms: u64,
    window_ms: u64,
) -> Outcome {
    if secret.len() == 0 {
        Outcome::MissingSecret
    } else {
        let pairs = spec_parse_query(spec_query_of(url));
        if spec_lookup(pairs, spec_function_id_key()) != Some(spec_login_designator()) {
            Outcome::Bypass
        } else {
            match spec_lookup(pairs, spec_token_key()) {
                None => Outcome::MissingToken,
                Some(tok) => if tok.len() == 0 {
                    Outcome::MissingToken
                } else {
                    match spec_parse_composite(tok) {
                        None => Outcome::MalformedToken,
                        Some(parts) => if !spec_verify(
                            spec_client_ip(direct, forwarded),
                            parts.0,
                            secret,
                            now_ms,
                            window_ms,
                        ) {
                            Outcome::InvalidToken
                        } else {
                            Outcome::Forward {
                                url: spec_rewrite_url(url, spec_token_key(), parts.1),
                                access_token: parts.2,
                            }
                        },
                    }
                },
            }
        }
    }
}

/// Decides a request, as `spec_handle` describes.
pub fn handle(
    secret: &[u8],
    url: &[u8],
    direct_ip: Option<Vec<u8>>,
    forwarded_for: Option<Vec<u8>>,
    now_ms: u64,
    window_ms: u64,
) -> (d: Decision)
    ensures
        d@ == spec_handle(secret@, url@, opt_view(direct_ip), opt_view(forwarded_for), now_ms,
            window_ms),
{
    if secret.len() == 0 {
        return Decision::MissingSecret;
    }
    let query = query_of(url);
    let pairs = parse_query(query.as_slice());
    let fid_key = function_id_key();
    let login = login_designator();
    match lookup(&pairs, fid_key.as_slice()) {
        Some(v) => {
            if !bytes_eq(v.as_slice(), login.as_slice()) {
                return Decision::Bypass;
            }
        },
        None => {
            return Decision::Bypass;
        },
    }
    let tkey = token_key();
    let tok = match lookup(&pairs, tkey.as_slice()) {
        None => {
            return Decision::MissingToken;
        },
        Some(t) => t,
    };
    if tok.len() == 0 {
        return Decision::MissingToken;
    }
    let comp = match parse_composite(tok.as_slice()) {
        None => {
            return Decision::MalformedToken;
        },
        Some(c) => c,
    };
    let client_ip = extract_client_ip(direct_ip, forwarded_for);
    if !verify_hmac_token(
        client_ip.as_slice(),
        comp.proof_token.as_slice(),
        secret,
        now_ms,
        window_ms,
    ) {
        return Decision::InvalidToken;
    }
    let new_url = rewrite_url(url, tkey.as_slice(), comp.app_token.as_slice());
    Decision::Forward { url: new_url, access_token: comp.access_token }
}

/// The caller-facing status of a rejecting decision: 400 for the
/// configuration and missing-parameter failures, 403 for malformed or
/// failed tokens; none for Bypass and Forward, which relay the origin.
pub open spec fn spec_error_status(o: Outcome) -> Option<u16> {
    match o {
        Outcome::MissingSecret => Some(400u16),
        Outcome::MissingToken => Some(400u16),
        Outcome::MalformedToken => Some(403u16),
        Outcome::InvalidToken => Some(403u16),
        _ => None,
    }
}

/// The status a rejecting decision answers with, as
/// `spec_error_status` describes.
pub fn error_status(d: &Decision) -> (r: Option<u16>)
    ensures
        r == spec_error_status(d@),
{
    match d {
        Decision::MissingSecret => Some(400),
        Decision::MissingToken => Some(400),
        Decision::MalformedToken => Some(403),
        Decision::InvalidToken => Some(403),
        _ => None,
    }
}

/// The fixed body of a rejecting decision.
pub open spec fn spec_error_body(o: Outcome) -> Option<Seq<char>> {
    match o {
        Outcome::MissingSecret => Some("missing secret"@),
        Outcome::MissingToken => Some("Missing oait parameter"@),
        Outcome::MalformedToken => Some("Invalid token format"@),
        Outcome::InvalidToken => Some("Invalid or expired token"@),
        _ => None,
    }
}

/// The fixed body a rejecting decision answers with, as
/// `spec_error_body` describes.
pub fn error_body(d: &Decision) -> (r: Option<&'static str>)
    ensures
        match r {
            Some(s) => spec_error_body(d@) == Some(s@),
            None => spec_error_body(d@) is None,
        },
{
    match d {
        Decision::MissingSecret => Some("missing secret"),
        Decision::MissingToken => Some("Missing oait parameter"),
        Decision::MalformedToken => Some("Invalid token format"),
        Decision::InvalidToken => Some("Invalid or expired token"),
        _ => None,
    }
}

/// The "CF_Authorization=" cookie prefix.
pub open spec fn spec_cookie_prefix() -> Seq<u8> {
    seq![67u8, 70u8, 95u8, 65u8, 117u8, 116u8, 104u8, 111u8, 114u8, 105u8, 122u8, 97u8, 116u8,
        105u8, 111u8, 110u8, 61u8]
}

/// The "; Path=/; HttpOnly; Secure; SameSite=Strict" cookie suffix.
pub open spec fn spec_cookie_suffix() -> Seq<u8> {
    seq![59u8, 32u8, 80u8, 97u8, 116u8, 104u8, 61u8, 47u8, 59u8, 32u8, 72u8, 116u8, 116u8, 112u8,
        79u8, 110u8, 108u8, 121u8, 59u8, 32u8, 83u8, 101u8, 99u8, 117u8, 114u8, 101u8, 59u8, 32u8,
        83u8, 97u8, 109u8, 101u8, 83u8, 105u8, 116u8, 101u8, 61u8, 83u8, 116u8, 114u8, 105u8,
        99u8, 116u8]
}

/// The Set-Cookie value attached to the relayed response when a
/// secondary access token is present and non-empty: the token as the
/// CF_Authorization cookie value, scoped to '/', HTTP-only, secure,
/// same-site strict.
pub open spec fn spec_cookie_header(access: Option<Seq<u8>>) -> Option<Seq<u8>> {
    match access {
        Some(v) => if v.len() > 0 {
            Some(spec_cookie_prefix() + v + spec_cookie_suffix())
        } else {
            None
        },
        None => None,
    }
}

/// Builds the Set-Cookie value for an access token, as
/// `spec_cookie_header` describes.
pub fn cookie_header(access: &Option<Vec<u8>>) -> (r: Option<Vec<u8>>)
    ensures
        match r {
            Some(v) => spec_cookie_header(opt_view(*access)) == Some(v@),
            None => spec_cookie_header(opt_view(*access)) is None,
        },
{
    match access {
        None => None,
        Some(tok) => {
            if tok.len() == 0 {
                return None;
            }
            let mut v: Vec<u8> = Vec::new();
            v.push(67);
            v.push(70);
            v.push(95);
            v.push(65);
            v.push(117);
            v.push(116);
            v.push(104);
            v.push(111);
            v.push(114);
            v.push(105);
            v.push(122);
            v.push(97);
            v.push(116);
            v.push(105);
            v.push(111);
            v.push(110);
            v.push(61);
            proof {
                assert(v@ =~= spec_cookie_prefix());
            }
            crate::bytes::push_slice(&mut v, tok.as_slice());
            let mut suffix: Vec<u8> = Vec::new();
            suffix.push(59);
            suffix.push(32);
            suffix.push(80);
            suffix.push(97);
            suffix.push(116);
            suffix.push(104);
            suffix.push(61);
            suffix.push(47);
            suffix.push(59);
            suffix.push(32);
            suffix.push(72);
            suffix.push(116);
            suffix.push(116);
            suffix.push(112);
            suffix.push(79);
            suffix.push(110);
            suffix.push(108);
            suffix.push(121);
            suffix.push(59);
            suffix.push(32);
            suffix.push(83);
            suffix.push(101);
            suffix.push(99);
            suffix.push(117);
            suffix.push(114);
            suffix.push(101);
            suffix.push(59);
            suffix.push(32);
            suffix.push(83);
            suffix.push(97);
            suffix.push(109);
            suffix.push(101);
            suffix.push(83);
            suffix.push(105);
            suffix.push(116);
            suffix.push(101);
            suffix.push(61);
            suffix.push(83);
            suffix.push(116);
            suffix.push(114);
            suffix.push(105);
            suffix.push(99);
            suffix.push(116);
            proof {
                assert(suffix@ =~= spec_cookie_suffix());
            }
            crate::bytes::push_slice(&mut v, suffix.as_slice());
            Some(v)
        },
    }
}

/// A request that does not carry the login designator under the
/// function-id parameter — whether the parameter is absent or holds
/// any other value — is passed through untouched, the token pipeline
/// skipped entirely.
pub proof fn lemma_non_login_bypassed(
    secret: Seq<u8>,
    url: Seq<u8>,
    direct: Option<Seq<u8>>,
    forwarded: Option<Seq<u8>>,
    now_ms: u64,
    window_ms: u64,
)
    requires
        secret.len() > 0,
        spec_lookup(spec_parse_query(spec_query_of(url)), spec_function_id_key())
            != Some(spec_login_designator()),
    ensures
        spec_handle(secret, url, direct, forwarded, now_ms, window_ms) == Outcome::Bypass,
{
}

/// A login request whose composite token splits into fewer than two
/// `++`-separated segments is rejected as malformed.
pub proof fn lemma_short_token_malformed(
    secret: Seq<u8>,
    url: Seq<u8>,
    direct: Option<Seq<u8>>,
    forwarded: Option<Seq<u8>>,
    now_ms: u64,
    window_ms: u64,
)
    requires
        secret.len() > 0,
        spec_lookup(spec_parse_query(spec_query_of(url)), spec_function_id_key())
            == Some(spec_login_designator()),
        spec_lookup(spec_parse_query(spec_query_of(url)), spec_token_key()) is Some,
        spec_lookup(spec_parse_query(spec_query_of(url)), spec_token_key())->Some_0.len() > 0,
        crate::bytes::spec_split(
            spec_lookup(spec_parse_query(spec_query_of(url)), spec_token_key())->Some_0,
            seq![43u8, 43u8],
        ).len() < 2,
    ensures
        spec_handle(secret, url, direct, forwarded, now_ms, window_ms)
            == Outcome::MalformedToken,
{
}

} // verus!
