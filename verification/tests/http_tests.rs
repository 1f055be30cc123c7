use astranova::error::AppError;
use astranova::http::{
    build_client_cache_key, is_binary_content_type, HttpMethod, ProxyAuth, ProxyConfig, RedirectPolicy,
    RequestConfig,
};
use astranova::send::{after_attempt, binary_body, body_encoding_for, redirect_decision, wants_digest, AttemptOutcome, RedirectDecision};
use astranova::http::BodyEncoding;

#[test]
fn method_names_and_parsing() {
    assert_eq!(HttpMethod::Patch.to_string(), "PATCH");
    assert_eq!(HttpMethod::parse("options"), Some(HttpMethod::Options));
    assert_eq!(HttpMethod::parse("FETCH"), None);
    assert_eq!(HttpMethod::from_wire_name("get"), None);
}

#[test]
fn binary_content_types() {
    assert!(is_binary_content_type("image/png"));
    assert!(is_binary_content_type("application/pdf"));
    assert!(is_binary_content_type("font/woff2"));
    assert!(!is_binary_content_type("application/json"));
    assert!(!is_binary_content_type("text/html; charset=utf-8"));
    assert_eq!(body_encoding_for("video/mp4"), BodyEncoding::Base64);
    assert_eq!(body_encoding_for("text/plain"), BodyEncoding::Text);
}

#[test]
fn cache_key_default_config() {
    let c = RequestConfig::default();
    assert_eq!(build_client_cache_key(&c), "|true||||30000");
}

#[test]
fn cache_key_with_proxy_and_tls() {
    let mut c = RequestConfig::default();
    c.proxy = Some(ProxyConfig {
        url: "http://proxy:8080".to_string(),
        auth: Some(ProxyAuth { username: "bob".to_string(), password: "pw".to_string() }),
    });
    c.tls.verify_ssl = false;
    c.tls.ca_cert_path = Some("/ca.pem".to_string());
    c.timeout_ms = 5000;
    assert_eq!(build_client_cache_key(&c), "http://proxy:8080:bob|false|/ca.pem|||5000");
    c.proxy_url = Some("http://p2".to_string());
    assert_eq!(build_client_cache_key(&c), "http://p2|false|/ca.pem|||5000");
}

#[test]
fn redirect_decisions() {
    match redirect_decision(RedirectPolicy::Follow, 302, 0, 10, "https://b.test/x", "https://a.test/") {
        RedirectDecision::Follow(u) => assert_eq!(u, "https://b.test/x"),
        other => panic!("unexpected {:?}", other),
    }
    match redirect_decision(RedirectPolicy::Limited(3), 301, 1, 10, "/next?a=1", "https://a.test/dir/page") {
        RedirectDecision::Follow(u) => assert_eq!(u, "https://a.test/next?a=1"),
        other => panic!("unexpected {:?}", other),
    }
    assert!(matches!(
        redirect_decision(RedirectPolicy::NoFollow, 302, 0, 10, "/x", "https://a.test/"),
        RedirectDecision::Finish
    ));
    assert!(matches!(
        redirect_decision(RedirectPolicy::Follow, 302, 10, 10, "/x", "https://a.test/"),
        RedirectDecision::Finish
    ));
    assert!(matches!(
        redirect_decision(RedirectPolicy::Follow, 302, 0, 10, "", "https://a.test/"),
        RedirectDecision::Finish
    ));
    assert!(matches!(
        redirect_decision(RedirectPolicy::Follow, 200, 0, 10, "/x", "https://a.test/"),
        RedirectDecision::Finish
    ));
    assert!(matches!(
        redirect_decision(RedirectPolicy::Follow, 307, 0, 10, "/x", "not a url"),
        RedirectDecision::Invalid(AppError::UrlParse(_))
    ));
}

#[test]
fn digest_challenge_detection() {
    assert!(wants_digest(401, true, Some("Digest realm=\"x\"")));
    assert!(!wants_digest(401, false, Some("Digest realm=\"x\"")));
    assert!(!wants_digest(401, true, Some("Basic realm=\"x\"")));
    assert!(!wants_digest(200, true, Some("Digest realm=\"x\"")));
    assert!(!wants_digest(401, true, None));
}

#[test]
fn attempt_outcomes() {
    assert_eq!(after_attempt(0, 3, 100, false), AttemptOutcome::Success);
    assert_eq!(after_attempt(0, 3, 100, true), AttemptOutcome::Retry { delay_ms: 100 });
    assert_eq!(after_attempt(2, 3, 100, true), AttemptOutcome::Retry { delay_ms: 300 });
    assert_eq!(after_attempt(3, 3, 100, true), AttemptOutcome::GiveUp);
    assert_eq!(after_attempt(0, 0, 100, true), AttemptOutcome::GiveUp);
    // A retry that gets a response succeeds, after earlier failures too.
    assert_eq!(after_attempt(2, 3, 100, false), AttemptOutcome::Success);
    assert_eq!(after_attempt(3, 3, 100, false), AttemptOutcome::Success);
}

#[test]
fn binary_body_is_base64() {
    let (text, enc, size) = binary_body(b"hello");
    assert_eq!(text, "aGVsbG8=");
    assert_eq!(enc, BodyEncoding::Base64);
    assert_eq!(size, 5);
}

#[test]
fn error_texts() {
    assert_eq!(AppError::Validation("x".to_string()).to_string(), "Validation error: x");
    assert_eq!(AppError::Http("down".to_string()).to_string(), "HTTP error: down");
}
