use astranova::cookie::{count_cookies, Cookie, CookieJar, SameSite};

fn cookie(name: &str, value: &str, domain: &str, path: &str, secure: bool) -> Cookie {
    Cookie {
        name: name.to_string(),
        value: value.to_string(),
        domain: domain.to_string(),
        path: path.to_string(),
        secure,
        http_only: false,
        same_site: SameSite::Lax,
        expires: None,
    }
}

#[test]
fn parse_simple_set_cookie() {
    let mut jar = CookieJar::new();
    jar.insert_from_set_cookie("session=abc123", "https://api.example.com/data");
    assert_eq!(jar.total_count(), 1);
    let cookie = &jar.cookies_for_domain("api.example.com")[0];
    assert_eq!(cookie.name, "session");
    assert_eq!(cookie.value, "abc123");
    assert_eq!(cookie.domain, "api.example.com");
    assert_eq!(cookie.path, "/");
}

#[test]
fn parse_set_cookie_with_attributes() {
    let mut jar = CookieJar::new();
    jar.insert_from_set_cookie(
        "token=xyz; Path=/api; Domain=.example.com; Secure; HttpOnly; SameSite=Strict",
        "https://example.com/test",
    );
    assert_eq!(jar.total_count(), 1);
    let cookie = &jar.cookies_for_domain("example.com")[0];
    assert_eq!(cookie.name, "token");
    assert_eq!(cookie.value, "xyz");
    assert_eq!(cookie.path, "/api");
    assert!(cookie.secure);
    assert!(cookie.http_only);
    assert_eq!(cookie.same_site, SameSite::Strict);
}

#[test]
fn parse_set_cookie_domain_defaults_to_host() {
    let mut jar = CookieJar::new();
    jar.insert_from_set_cookie("id=123; Path=/", "https://myhost.com/page");
    assert_eq!(jar.total_count(), 1);
    let cookie = &jar.cookies_for_domain("myhost.com")[0];
    assert_eq!(cookie.domain, "myhost.com");
}

#[test]
fn get_cookies_for_url_matches_domain() {
    let mut jar = CookieJar::new();
    jar.insert(cookie("a", "1", "example.com", "/", false));
    let cookies = jar.get_cookies_for_url("https://example.com/page");
    assert_eq!(cookies.len(), 1);
}

#[test]
fn get_cookies_for_url_matches_subdomain() {
    let mut jar = CookieJar::new();
    jar.insert(cookie("a", "1", ".example.com", "/", false));
    let cookies = jar.get_cookies_for_url("https://api.example.com/data");
    assert_eq!(cookies.len(), 1);
}

#[test]
fn get_cookies_skips_secure_on_http() {
    let mut jar = CookieJar::new();
    jar.insert(cookie("a", "1", "example.com", "/", true));
    let cookies = jar.get_cookies_for_url("http://example.com/page");
    assert!(cookies.is_empty());
}

#[test]
fn get_cookies_includes_secure_on_https() {
    let mut jar = CookieJar::new();
    jar.insert(cookie("a", "1", "example.com", "/", true));
    let cookies = jar.get_cookies_for_url("https://example.com/page");
    assert_eq!(cookies.len(), 1);
}

#[test]
fn get_cookies_path_match() {
    let mut jar = CookieJar::new();
    jar.insert(cookie("a", "1", "example.com", "/api", false));
    assert_eq!(jar.get_cookies_for_url("https://example.com/api/data").len(), 1);
    assert!(jar.get_cookies_for_url("https://example.com/other").is_empty());
}

#[test]
fn to_cookie_header_format() {
    let mut jar = CookieJar::new();
    jar.insert(cookie("a", "1", "example.com", "/", false));
    jar.insert(cookie("b", "2", "example.com", "/", false));
    let header = jar.to_cookie_header("https://example.com/page").unwrap();
    assert!(header.contains("a=1"));
    assert!(header.contains("b=2"));
    assert!(header.contains("; "));
}

#[test]
fn insert_replaces_same_name_and_path() {
    let mut jar = CookieJar::new();
    jar.insert(cookie("sid", "old", "example.com", "/", false));
    jar.insert(cookie("sid", "new", "example.com", "/", false));
    assert_eq!(jar.total_count(), 1);
    assert_eq!(jar.cookies_for_domain("example.com")[0].value, "new");
}

#[test]
fn clear_removes_all() {
    let mut jar = CookieJar::new();
    jar.insert(cookie("a", "1", "example.com", "/", false));
    jar.clear();
    assert_eq!(jar.total_count(), 0);
}

#[test]
fn clear_domain_removes_only_that_domain() {
    let mut jar = CookieJar::new();
    jar.insert(cookie("a", "1", "a.com", "/", false));
    jar.insert(cookie("b", "2", "b.com", "/", false));
    jar.clear_domain("a.com");
    assert_eq!(jar.total_count(), 1);
    assert!(jar.cookies_for_domain("a.com").is_empty());
}

#[test]
fn domain_count_and_total_count() {
    let mut jar = CookieJar::new();
    jar.insert(cookie("a", "1", "a.com", "/", false));
    jar.insert(cookie("b", "2", "a.com", "/", false));
    jar.insert(cookie("c", "3", "b.com", "/", false));
    assert_eq!(jar.domain_count(), 2);
    assert_eq!(jar.total_count(), 3);
}

#[test]
fn same_site_display() {
    assert_eq!(SameSite::Strict.to_string(), "Strict");
    assert_eq!(SameSite::Lax.to_string(), "Lax");
    assert_eq!(SameSite::NoRestriction.to_string(), "None");
}

#[test]
fn cookie_display() {
    let c = Cookie {
        name: "sid".to_string(),
        value: "abc".to_string(),
        domain: "example.com".to_string(),
        path: "/".to_string(),
        secure: true,
        http_only: true,
        same_site: SameSite::Strict,
        expires: None,
    };
    let s = c.to_string();
    assert!(s.contains("sid=abc"));
    assert!(s.contains("example.com"));
    assert!(s.contains("Secure"));
    assert!(s.contains("HttpOnly"));
}

// Further cases.

#[test]
fn insert_keeps_cookies_with_other_path() {
    let mut jar = CookieJar::new();
    jar.insert(cookie("sid", "root", "example.com", "/", false));
    jar.insert(cookie("sid", "api", "example.com", "/api", false));
    assert_eq!(jar.total_count(), 2);
    let values: Vec<&str> = jar
        .cookies_for_domain("example.com")
        .iter()
        .map(|c| c.value.as_str())
        .collect();
    assert_eq!(values, vec!["root", "api"]);
}

#[test]
fn cookie_header_joins_in_order() {
    let mut jar = CookieJar::new();
    jar.insert(cookie("a", "1", "example.com", "/", false));
    jar.insert(cookie("b", "2", "example.com", "/", false));
    assert_eq!(
        jar.to_cookie_header("https://example.com/").as_deref(),
        Some("a=1; b=2")
    );
}

#[test]
fn cookie_header_absent_without_cookies() {
    let jar = CookieJar::new();
    assert!(jar.to_cookie_header("https://example.com/").is_none());
}

#[test]
fn cookie_header_absent_for_unparsable_url() {
    let mut jar = CookieJar::new();
    jar.insert(cookie("a", "1", "example.com", "/", false));
    assert!(jar.to_cookie_header("not a url").is_none());
    assert!(jar.get_cookies_for_url("not a url").is_empty());
}

#[test]
fn set_cookie_without_equals_has_empty_value() {
    let mut jar = CookieJar::new();
    jar.insert_from_set_cookie("garbage", "https://example.com/");
    assert_eq!(jar.total_count(), 1);
    let c = &jar.cookies_for_domain("example.com")[0];
    assert_eq!(c.name, "garbage");
    assert_eq!(c.value, "");
}

#[test]
fn set_cookie_with_empty_name_is_ignored() {
    let mut jar = CookieJar::new();
    jar.insert_from_set_cookie("=value; Path=/", "https://example.com/");
    jar.insert_from_set_cookie("", "https://example.com/");
    assert_eq!(jar.total_count(), 0);
}

#[test]
fn set_cookie_same_site_none_and_lax_default() {
    let mut jar = CookieJar::new();
    jar.insert_from_set_cookie("a=1; SameSite=None", "https://example.com/");
    jar.insert_from_set_cookie("b=2", "https://example.com/");
    let cs = jar.cookies_for_domain("example.com");
    assert_eq!(cs[0].same_site, SameSite::NoRestriction);
    assert_eq!(cs[1].same_site, SameSite::Lax);
}

#[test]
fn path_matches_prefix_rules() {
    let c = cookie("a", "1", "example.com", "/api", false);
    assert!(c.path_matches("/api"));
    assert!(c.path_matches("/api/users"));
    assert!(!c.path_matches("/other"));
    let root = cookie("a", "1", "example.com", "/", false);
    assert!(root.path_matches("/anything"));
}

#[test]
fn domains_lists_counts() {
    let mut jar = CookieJar::new();
    jar.insert(cookie("a", "1", "a.com", "/", false));
    jar.insert(cookie("b", "2", "a.com", "/", false));
    jar.insert(cookie("c", "3", "b.com", "/", false));
    let d = jar.domains();
    assert_eq!(d.len(), 2);
    assert!(d.contains(&("a.com", 2)));
    assert!(d.contains(&("b.com", 1)));
}

#[test]
fn count_cookies_counts_json_array() {
    assert_eq!(count_cookies(r#"[{"name":"a"},{"name":"b"}]"#), 2);
    assert_eq!(count_cookies("[]"), 0);
    assert_eq!(count_cookies(r#"{"name":"a"}"#), 0);
    assert_eq!(count_cookies("not json"), 0);
}

#[test]
fn domain_listing_adds_up() {
    let mut jar = CookieJar::new();
    jar.insert(cookie("a", "1", "a.test", "/", false));
    jar.insert(cookie("b", "2", "a.test", "/", false));
    jar.insert(cookie("c", "3", "b.test", "/", false));
    jar.insert(cookie("a", "4", "a.test", "/", false));
    let d = jar.domains();
    assert_eq!(d.len(), jar.domain_count());
    assert_ne!(d[0].0, d[1].0);
    let sum: usize = d.iter().map(|(_, n)| *n).sum();
    assert_eq!(sum, jar.total_count());
    for (dom, n) in &d {
        assert!(*n >= 1);
        assert_eq!(*n, jar.cookies_for_domain(dom).len());
        assert!(jar.cookies_for_domain(dom).iter().all(|c| c.domain == *dom));
    }
}
