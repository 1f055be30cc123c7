use astranova::digest::{compute_digest_auth, digest_auth_with_cnonce, md5_hex, parse_digest_params};

#[test]
fn parse_digest_params_extracts_realm_and_nonce() {
    let header = r#"Digest realm="test@example.com", nonce="abc123", qop="auth""#;
    let params = parse_digest_params(header);
    assert_eq!(params.get("realm").unwrap(), "test@example.com");
    assert_eq!(params.get("nonce").unwrap(), "abc123");
    assert_eq!(params.get("qop").unwrap(), "auth");
}

#[test]
fn parse_digest_params_extracts_opaque() {
    let header = r#"Digest realm="test", nonce="abc", opaque="xyz""#;
    let params = parse_digest_params(header);
    assert_eq!(params.get("opaque").unwrap(), "xyz");
}

#[test]
fn md5_hex_produces_correct_hash() {
    let hash = md5_hex("hello");
    assert_eq!(hash, "5d41402abc4b2a76b9719d911017c592");
}

#[test]
fn compute_digest_auth_returns_none_without_realm() {
    let result = compute_digest_auth("Bearer token", "user", "pass", "GET", "https://example.com/");
    assert!(result.is_none());
}

#[test]
fn compute_digest_auth_returns_header_with_valid_input() {
    let header = r#"Digest realm="test@example.com", nonce="nonce123", qop="auth""#;
    let result = compute_digest_auth(header, "admin", "secret", "GET", "https://example.com/api");
    assert!(result.is_some());
    let auth_header = result.unwrap();
    assert!(auth_header.starts_with("Digest "));
    assert!(auth_header.contains("username=\"admin\""));
    assert!(auth_header.contains("realm=\"test@example.com\""));
    assert!(auth_header.contains("nonce=\"nonce123\""));
    assert!(auth_header.contains("qop=auth"));
}

// Further cases.

#[test]
fn md5_hex_of_empty_text() {
    assert_eq!(md5_hex(""), "d41d8cd98f00b204e9800998ecf8427e");
}

#[test]
fn digest_params_later_value_wins() {
    let params = parse_digest_params(r#"Digest realm="a", realm="b""#);
    assert_eq!(params.get("realm").unwrap(), "b");
    assert_eq!(params.len(), 1);
}

#[test]
fn digest_params_skip_parts_without_equals() {
    let params = parse_digest_params("Digest junk, nonce=n1");
    assert!(params.get("junk").is_none());
    assert_eq!(params.get("nonce").unwrap(), "n1");
}

#[test]
fn digest_header_with_fixed_cnonce() {
    let header = r#"Digest realm="r", nonce="n", opaque="o""#;
    let h = digest_auth_with_cnonce(header, "u", "p", "GET", "https://example.com/a?b=c", "abc").unwrap();
    let ha1 = md5_hex("u:r:p");
    let ha2 = md5_hex("GET:/a?b=c");
    let resp = md5_hex(&format!("{}:n:00000001:abc:auth:{}", ha1, ha2));
    let expected = format!(
        "Digest username=\"u\", realm=\"r\", nonce=\"n\", uri=\"/a?b=c\", response=\"{}\", qop=auth, nc=00000001, cnonce=\"abc\", opaque=\"o\"",
        resp
    );
    assert_eq!(h, expected);
}

#[test]
fn digest_header_missing_nonce_is_none() {
    assert!(digest_auth_with_cnonce(r#"Digest realm="r""#, "u", "p", "GET", "/", "c").is_none());
}

#[test]
fn digest_uri_is_request_uri() {
    let header = r#"Digest realm="R", nonce="N", qop="auth""#;
    let h = digest_auth_with_cnonce(header, "user", "pw", "GET", "https://example.com/api?x=1", "C").unwrap();
    let ha1 = md5_hex("user:R:pw");
    let ha2 = md5_hex("GET:/api?x=1");
    let resp = md5_hex(&format!("{}:N:00000001:C:auth:{}", ha1, ha2));
    assert!(h.contains("uri=\"/api?x=1\""));
    assert!(h.contains(&format!("response=\"{}\"", resp)));
    let h2 = digest_auth_with_cnonce(header, "user", "pw", "GET", "https://example.com/api", "C").unwrap();
    assert!(h2.contains("uri=\"/api\""));
}
