//! End-to-end exercises of the gatekeeper: token verification, client-IP
//! derivation, query rewriting and the full decision pipeline, with
//! the real HMAC and base64 crates linked.
use base64::Engine;
use hmac::Mac;
use token_gate::compare::constant_time_compare;
use token_gate::gateway::{cookie_header, error_body, error_status, handle, Decision};
use token_gate::ip::extract_client_ip;
use token_gate::query::rewrite_url;
use token_gate::verify::{generate_hash, verify_hmac_token};

fn bv(s: &str) -> Vec<u8> {
    s.as_bytes().to_vec()
}

/// The digest computed outside the library, straight on the crates.
fn reference_digest(secret: &str, message: &str) -> String {
    let mut mac = hmac::Hmac::<sha2::Sha256>::new_from_slice(secret.as_bytes()).unwrap();
    mac.update(message.as_bytes());
    base64::engine::general_purpose::STANDARD.encode(mac.finalize().into_bytes())
}

#[test]
fn compare_equal_and_mismatched() {
    assert!(constant_time_compare(b"abcdef", b"abcdef"));
    assert!(constant_time_compare(b"", b""));
    // differing lengths are rejected at once
    assert!(!constant_time_compare(b"abc", b"abcd"));
    assert!(!constant_time_compare(b"abc", b""));
    // a flipped byte at any offset is caught
    let a = b"0123456789".to_vec();
    for i in 0..a.len() {
        let mut b = a.clone();
        b[i] ^= 0x20;
        assert!(!constant_time_compare(&a, &b));
    }
}

#[test]
fn client_ip_precedence() {
    // direct header wins when present and non-empty
    let r = extract_client_ip(Some(bv("9.9.9.9")), Some(bv("1.2.3.4, 5.6.7.8")));
    assert_eq!(r, bv("9.9.9.9"));
    // empty direct header falls back to the forwarded-for list
    let r = extract_client_ip(Some(bv("")), Some(bv(" 1.2.3.4 , 5.6.7.8")));
    assert_eq!(r, bv("1.2.3.4"));
    let r = extract_client_ip(None, Some(bv("7.7.7.7")));
    assert_eq!(r, bv("7.7.7.7"));
    // no header at all: the loopback fallback
    let r = extract_client_ip(None, None);
    assert_eq!(r, bv("127.0.0.1"));
}

#[test]
fn digest_matches_the_crates() {
    let d = generate_hash(b"1.2.3.4", b"s", b"1000").unwrap();
    assert_eq!(String::from_utf8(d).unwrap(), reference_digest("s", "1.2.3.4:1000"));
}

#[test]
fn digest_is_over_the_canonical_timestamp() {
    // "1000", "1000.0" and "0001000.00" all denote the same instant
    let a = generate_hash(b"1.2.3.4", b"s", b"1000").unwrap();
    let b = generate_hash(b"1.2.3.4", b"s", b"1000.0").unwrap();
    let c = generate_hash(b"1.2.3.4", b"s", b"0001000.00").unwrap();
    assert_eq!(a, b);
    assert_eq!(a, c);
    let d = generate_hash(b"1.2.3.4", b"s", b"1000.5").unwrap();
    let e = generate_hash(b"1.2.3.4", b"s", b"1000.50").unwrap();
    assert_eq!(d, e);
    assert_ne!(a, d);
    // ".5" renders as "0.5"
    let f = generate_hash(b"1.2.3.4", b"s", b".5").unwrap();
    let g = generate_hash(b"1.2.3.4", b"s", b"0.5").unwrap();
    assert_eq!(f, g);
    assert_eq!(f, bv(&reference_digest("s", "1.2.3.4:0.5")));
}

#[test]
fn non_numeric_timestamps_are_refused() {
    assert!(generate_hash(b"1.2.3.4", b"s", b"").is_none());
    assert!(generate_hash(b"1.2.3.4", b"s", b".").is_none());
    assert!(generate_hash(b"1.2.3.4", b"s", b"12a4").is_none());
    assert!(generate_hash(b"1.2.3.4", b"s", b"1.2.3").is_none());
    assert!(generate_hash(b"1.2.3.4", b"s", b"-5").is_none());
}

fn make_token(ip: &str, secret: &str, ts: &str) -> Vec<u8> {
    let digest = generate_hash(ip.as_bytes(), secret.as_bytes(), ts.as_bytes()).unwrap();
    let mut t = bv(ts);
    t.push(b'-');
    t.extend_from_slice(&digest);
    t
}

#[test]
fn fresh_token_verifies() {
    // issued at t = 1000 s, checked at the same instant
    let tok = make_token("1.2.3.4", "s", "1000");
    assert!(verify_hmac_token(b"1.2.3.4", &tok, b"s", 1_000_000, 300_000_000));
    // at the very edge of the window: now - t == window
    assert!(verify_hmac_token(b"1.2.3.4", &tok, b"s", 1_000_000 + 300_000_000, 300_000_000));
}

#[test]
fn expired_token_is_rejected() {
    let tok = make_token("1.2.3.4", "s", "1000");
    // one millisecond past the window
    assert!(!verify_hmac_token(b"1.2.3.4", &tok, b"s", 1_000_001 + 300_000_000, 300_000_000));
}

#[test]
fn future_timestamp_is_accepted() {
    // issued "later" than the checking time: the window bounds only age
    let tok = make_token("1.2.3.4", "s", "5000");
    assert!(verify_hmac_token(b"1.2.3.4", &tok, b"s", 1_000_000, 300_000_000));
}

#[test]
fn wrong_inputs_fail_verification() {
    let tok = make_token("1.2.3.4", "s", "1000");
    // wrong IP, wrong secret
    assert!(!verify_hmac_token(b"1.2.3.5", &tok, b"s", 1_000_000, 300_000_000));
    assert!(!verify_hmac_token(b"1.2.3.4", &tok, b"t", 1_000_000, 300_000_000));
    // tampered digest
    let mut bad = tok.clone();
    let last = bad.len() - 1;
    bad[last] ^= 1;
    assert!(!verify_hmac_token(b"1.2.3.4", &bad, b"s", 1_000_000, 300_000_000));
}

#[test]
fn malformed_proof_tokens_fail_verification() {
    // no separator, too many separators, non-numeric timestamp
    assert!(!verify_hmac_token(b"1.2.3.4", b"nodigest", b"s", 1_000_000, 300_000_000));
    assert!(!verify_hmac_token(b"1.2.3.4", b"1000-x-y", b"s", 1_000_000, 300_000_000));
    assert!(!verify_hmac_token(b"1.2.3.4", b"abc-digest", b"s", 1_000_000, 300_000_000));
    assert!(!verify_hmac_token(b"1.2.3.4", b"", b"s", 1_000_000, 300_000_000));
}

#[test]
fn digests_do_not_collide_across_inputs() {
    // vary each of ip, secret and timestamp; no two of the digests agree
    let mut digests: Vec<Vec<u8>> = Vec::new();
    for i in 0..34 {
        digests.push(generate_hash(format!("10.0.0.{}", i).as_bytes(), b"s", b"1000").unwrap());
        digests.push(generate_hash(b"1.2.3.4", format!("s{}", i).as_bytes(), b"1000").unwrap());
        digests.push(
            generate_hash(b"1.2.3.4", b"s", format!("{}", 2000 + i).as_bytes()).unwrap(),
        );
    }
    assert!(digests.len() >= 100);
    for i in 0..digests.len() {
        for j in (i + 1)..digests.len() {
            assert_ne!(digests[i], digests[j]);
        }
    }
}

#[test]
fn rewrite_strips_verification_material() {
    let url = b"https://h.example/login?function_id=APPS_LOGIN_DEFAULT&oait=proof++app++access&x=1";
    let out = rewrite_url(url, b"oait", b"app");
    let out = String::from_utf8(out).unwrap();
    assert_eq!(out, "https://h.example/login?function_id=APPS_LOGIN_DEFAULT&x=1&oait=app");
    assert!(out.contains("x=1&oait=app"));
    assert!(!out.contains("proof"));
    assert!(!out.contains("access"));
}

#[test]
fn rewrite_without_app_token_drops_the_parameter() {
    let url = b"https://h.example/login?oait=proof++app&x=1";
    let out = rewrite_url(url, b"oait", b"");
    assert_eq!(String::from_utf8(out).unwrap(), "https://h.example/login?x=1");
}

#[test]
fn rewrite_keeps_the_fragment() {
    let url = b"https://h.example/p?oait=a++b&x=1#frag";
    let out = rewrite_url(url, b"oait", b"app");
    assert_eq!(String::from_utf8(out).unwrap(), "https://h.example/p?x=1&oait=app#frag");
}

#[test]
fn rewrite_preserves_values_with_equals_and_duplicates() {
    // a value may itself contain '='; duplicate keys are all kept, in order
    let url = b"https://h.example/p?x=b=c&y=1&y=2&oait=p++app";
    let out = rewrite_url(url, b"oait", b"app");
    assert_eq!(String::from_utf8(out).unwrap(), "https://h.example/p?x=b=c&y=1&y=2&oait=app");
}

#[test]
fn rewrite_removes_every_token_parameter() {
    let url = b"https://h.example/p?oait=p++a&x=1&oait=zzz";
    let out = rewrite_url(url, b"oait", b"a");
    assert_eq!(String::from_utf8(out).unwrap(), "https://h.example/p?x=1&oait=a");
}

#[test]
fn fractional_timestamp_window_edges() {
    let tok = make_token("1.2.3.4", "s", "999.999");
    // 999.999 s = 999999 ms; the window is 1000 ms
    assert!(verify_hmac_token(b"1.2.3.4", &tok, b"s", 1_000_999, 1000));
    assert!(!verify_hmac_token(b"1.2.3.4", &tok, b"s", 1_001_000, 1000));
}

#[test]
fn other_function_id_bypasses() {
    let d = handle(
        b"s",
        b"https://h.example/p?function_id=OTHER&oait=whatever",
        None,
        None,
        1_000_000,
        300_000_000,
    );
    assert!(matches!(d, Decision::Bypass));
}

#[test]
fn missing_function_id_bypasses() {
    let d = handle(b"s", b"https://h.example/p?x=1", None, None, 1_000_000, 300_000_000);
    assert!(matches!(d, Decision::Bypass));
    let d = handle(b"s", b"https://h.example/p", None, None, 1_000_000, 300_000_000);
    assert!(matches!(d, Decision::Bypass));
}

#[test]
fn empty_secret_fails_closed() {
    let d = handle(
        b"",
        b"https://h.example/p?function_id=APPS_LOGIN_DEFAULT&oait=a++b",
        None,
        None,
        1_000_000,
        300_000_000,
    );
    assert!(matches!(d, Decision::MissingSecret));
    assert_eq!(error_status(&d), Some(400));
    assert_eq!(error_body(&d), Some("missing secret"));
}

#[test]
fn missing_or_empty_token_parameter() {
    let d = handle(
        b"s",
        b"https://h.example/p?function_id=APPS_LOGIN_DEFAULT",
        None,
        None,
        1_000_000,
        300_000_000,
    );
    assert!(matches!(d, Decision::MissingToken));
    assert_eq!(error_status(&d), Some(400));
    assert_eq!(error_body(&d), Some("Missing oait parameter"));
    let d = handle(
        b"s",
        b"https://h.example/p?function_id=APPS_LOGIN_DEFAULT&oait=",
        None,
        None,
        1_000_000,
        300_000_000,
    );
    assert!(matches!(d, Decision::MissingToken));
}

#[test]
fn single_segment_token_is_malformed() {
    let d = handle(
        b"s",
        b"https://h.example/p?function_id=APPS_LOGIN_DEFAULT&oait=onlyonesegment",
        None,
        None,
        1_000_000,
        300_000_000,
    );
    assert!(matches!(d, Decision::MalformedToken));
    assert_eq!(error_status(&d), Some(403));
    assert_eq!(error_body(&d), Some("Invalid token format"));
}

#[test]
fn empty_proof_segment_fails_verification() {
    // "++app" splits into two segments whose proof part is empty, so
    // it passes the format check and is rejected by verification
    let d = handle(
        b"s",
        b"https://h.example/p?function_id=APPS_LOGIN_DEFAULT&oait=++app",
        None,
        None,
        1_000_000,
        300_000_000,
    );
    assert!(matches!(d, Decision::InvalidToken));
    assert_eq!(error_status(&d), Some(403));
    assert_eq!(error_body(&d), Some("Invalid or expired token"));
}

#[test]
fn end_to_end_login_flow() {
    // secret "s", ip 1.2.3.4, timestamp 1000 s, window 300000 s, now 1000 s
    let digest = reference_digest("s", "1.2.3.4:1000");
    let mut url = bv("https://h.example/login?function_id=APPS_LOGIN_DEFAULT&oait=1000-");
    url.extend_from_slice(digest.as_bytes());
    url.extend_from_slice(b"++appTok");
    let d = handle(b"s", &url, Some(bv("1.2.3.4")), None, 1_000_000, 300_000_000);
    match d {
        Decision::Forward { url: out, access_token } => {
            let out = String::from_utf8(out).unwrap();
            assert_eq!(out, "https://h.example/login?function_id=APPS_LOGIN_DEFAULT&oait=appTok");
            assert!(access_token.is_none());
        }
        other => panic!("expected Forward, got {:?}", error_body(&other)),
    }
}

#[test]
fn end_to_end_with_access_token_and_cookie() {
    let digest = reference_digest("s", "1.2.3.4:1000");
    let mut url = bv("https://h.example/login?function_id=APPS_LOGIN_DEFAULT&x=1&oait=1000-");
    url.extend_from_slice(digest.as_bytes());
    url.extend_from_slice(b"++appTok++accTok");
    let d = handle(b"s", &url, Some(bv("1.2.3.4")), None, 1_000_000, 300_000_000);
    match d {
        Decision::Forward { url: out, access_token } => {
            let out = String::from_utf8(out).unwrap();
            assert!(out.contains("x=1&oait=appTok"));
            assert!(!out.contains("1000-"));
            assert_eq!(access_token, Some(bv("accTok")));
            let cookie = cookie_header(&access_token).unwrap();
            assert_eq!(
                String::from_utf8(cookie).unwrap(),
                "CF_Authorization=accTok; Path=/; HttpOnly; Secure; SameSite=Strict"
            );
        }
        other => panic!("expected Forward, got {:?}", error_body(&other)),
    }
}

#[test]
fn proof_segment_is_trimmed_before_verification() {
    let digest = reference_digest("s", "1.2.3.4:1000");
    let mut url = bv("https://h.example/p?function_id=APPS_LOGIN_DEFAULT&oait= 1000-");
    url.extend_from_slice(digest.as_bytes());
    url.extend_from_slice(b" ++appTok");
    let d = handle(b"s", &url, Some(bv("1.2.3.4")), None, 1_000_000, 300_000_000);
    assert!(matches!(d, Decision::Forward { .. }));
}

#[test]
fn cookie_absent_without_access_token() {
    assert!(cookie_header(&None).is_none());
    assert!(cookie_header(&Some(Vec::new())).is_none());
}
