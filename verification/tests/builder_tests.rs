use astranova::database::Environment;
use astranova::http::{HttpMethod, MultipartField, MultipartValue, RedirectPolicy};
use astranova::request_builder::{ApiKeyLocation, Auth, OAuth2Config, RequestDraft};
use astranova::request_editor::{response_display, EditorMessage};
use astranova::request_view::{BodyType, ContentType, MultipartEntry, MultipartFieldType, TabId};
use astranova::http::{BodyEncoding, HttpResponse};

fn draft(url: &str) -> RequestDraft {
    let mut d = RequestDraft::default();
    d.url_input = url.to_string();
    d.multipart_entries = vec![];
    d
}

fn pairs(v: &[(&str, &str)]) -> Vec<(String, String)> {
    v.iter().map(|(a, b)| (a.to_string(), b.to_string())).collect()
}

#[test]
fn build_appends_encoded_query() {
    let mut d = draft("https://x.test/search");
    d.params = pairs(&[("q", "rust lang"), ("", "ignored"), ("page", "2")]);
    let r = d.build_request();
    assert_eq!(r.url, "https://x.test/search?q=rust%20lang&page=2");
    assert_eq!(r.method, HttpMethod::Get);
    let mut d2 = draft("https://x.test/s?a=1");
    d2.params = pairs(&[("b", "&")]);
    assert_eq!(d2.build_request().url, "https://x.test/s?a=1&b=%26");
}

#[test]
fn build_headers_auth_and_content_type() {
    let mut d = draft("https://x.test");
    d.method = "POST".to_string();
    d.headers = pairs(&[("Accept", "*/*"), ("", "x")]);
    d.auth = Auth::BearerToken("tok".to_string());
    d.body_text = "{\"a\":1}".to_string();
    let r = d.build_request();
    assert_eq!(r.method, HttpMethod::Post);
    assert_eq!(
        r.headers,
        pairs(&[("Accept", "*/*"), ("Authorization", "Bearer tok"), ("Content-Type", "application/json")])
    );
    assert_eq!(r.body.as_deref(), Some("{\"a\":1}"));
}

#[test]
fn build_basic_auth() {
    let mut d = draft("https://x.test");
    d.auth = Auth::Basic { user: "user".to_string(), pass: "pass".to_string() };
    let r = d.build_request();
    assert_eq!(r.headers, pairs(&[("Authorization", "Basic dXNlcjpwYXNz")]));
    assert!(r.body.is_none());
}

#[test]
fn build_api_key_in_query_and_header() {
    let mut d = draft("https://x.test/a");
    d.params = pairs(&[("p", "1")]);
    d.auth = Auth::ApiKey { key: "api key".to_string(), value: "v/1".to_string(), location: ApiKeyLocation::Query };
    assert_eq!(d.build_request().url, "https://x.test/a?p=1&api%20key=v%2F1");
    let mut d2 = draft("https://x.test/a");
    d2.auth = Auth::ApiKey { key: "X-Key".to_string(), value: "k".to_string(), location: ApiKeyLocation::Header };
    let r2 = d2.build_request();
    assert_eq!(r2.url, "https://x.test/a");
    assert_eq!(r2.headers, pairs(&[("X-Key", "k")]));
    let mut d3 = draft("https://x.test/a");
    d3.auth = Auth::ApiKey { key: "k".to_string(), value: "v".to_string(), location: ApiKeyLocation::Query };
    assert_eq!(d3.build_request().url, "https://x.test/a?k=v");
}

#[test]
fn build_blank_body_and_multipart() {
    let mut d = draft("https://x.test");
    d.body_text = "  \n ".to_string();
    d.auth = Auth::Digest { user: "u".to_string(), pass: "p".to_string() };
    let r = d.build_request();
    assert!(r.body.is_none());
    assert!(r.headers.is_empty());
    let mut m = draft("https://x.test");
    m.body_type = BodyType::Multipart;
    m.body_text = "ignored body".to_string();
    m.multipart_entries = vec![
        MultipartEntry { id: 0, name: "a".to_string(), value: "1".to_string(), is_file: false },
        MultipartEntry { id: 1, name: String::new(), value: "x".to_string(), is_file: false },
        MultipartEntry { id: 2, name: "f".to_string(), value: "/tmp/f".to_string(), is_file: true },
    ];
    let r = m.build_request();
    assert_eq!(r.multipart_fields.len(), 2);
    assert!(matches!(&r.multipart_fields[0].value, MultipartValue::Text(t) if t == "1"));
    assert!(matches!(&r.multipart_fields[1].value, MultipartValue::File { path, filename: None } if path == "/tmp/f"));
    assert!(r.headers.is_empty());
    assert_eq!(r.body.as_deref(), Some("ignored body"));
}

#[test]
fn apply_environment_substitutes_everywhere() {
    let env = Environment {
        id: 1,
        name: "dev".to_string(),
        variables: pairs(&[("host", "dev.test"), ("tok", "abc")]),
        secret_keys: vec![],
        default_endpoint: None,
    };
    let mut d = draft("https://{{host}}/v1");
    d.body_text = "{\"t\":\"{{tok}}\"}".to_string();
    d.headers = pairs(&[("{{tok}}", "Bearer {{tok}}")]);
    d.params = pairs(&[("h", "{{host}}")]);
    d.auth = Auth::OAuth2(Box::new(OAuth2Config {
        auth_url: "https://{{host}}/auth".to_string(),
        token_url: String::new(),
        device_auth_url: String::new(),
        client_id: "{{tok}}".to_string(),
        client_secret: String::new(),
        scopes: String::new(),
        redirect_uri: String::new(),
        access_token: String::new(),
        refresh_token: String::new(),
    }));
    d.apply_environment(&env);
    assert_eq!(d.url_input, "https://dev.test/v1");
    assert_eq!(d.body_text, "{\"t\":\"abc\"}");
    assert_eq!(d.headers, pairs(&[("{{tok}}", "Bearer abc")]));
    assert_eq!(d.params, pairs(&[("h", "dev.test")]));
    match &d.auth {
        Auth::OAuth2(c) => {
            assert_eq!(c.auth_url, "https://dev.test/auth");
            assert_eq!(c.client_id, "abc");
        }
        _ => panic!("auth kind changed"),
    }
}

#[test]
fn draft_default_values() {
    let d = RequestDraft::default();
    assert_eq!(d.url_input, "https://jsonplaceholder.typicode.com/todos/1");
    assert_eq!(d.method, "GET");
    assert_eq!(d.multipart_entries.len(), 1);
    assert_eq!(d.multipart_next_id, 1);
    assert_eq!(d.request_content_type, ContentType::Json);
    assert_eq!(d.build_request().url, "https://jsonplaceholder.typicode.com/todos/1");
}

#[test]
fn editor_multipart_rows() {
    let mut d = RequestDraft::default();
    d.update(EditorMessage::AddMultipartEntry);
    assert_eq!(d.multipart_entries.len(), 2);
    assert_eq!(d.multipart_entries[1].id, 1);
    assert_eq!(d.multipart_next_id, 2);
    d.update(EditorMessage::MultipartNameChanged(1, "file".to_string()));
    d.update(EditorMessage::MultipartFieldTypeChanged(1, MultipartFieldType::File));
    d.update(EditorMessage::MultipartFilePicked(1, Some("/tmp/a.txt".to_string())));
    assert_eq!(d.multipart_entries[1].name, "file");
    assert!(d.multipart_entries[1].is_file);
    assert_eq!(d.multipart_entries[1].value, "/tmp/a.txt");
    d.update(EditorMessage::MultipartFieldTypeChanged(1, MultipartFieldType::Text));
    assert!(d.multipart_entries[1].value.is_empty());
    d.update(EditorMessage::MultipartValueChanged(7, "nobody".to_string()));
    d.update(EditorMessage::RemoveMultipartEntry(0));
    assert_eq!(d.multipart_entries.len(), 1);
    assert_eq!(d.multipart_entries[0].id, 1);
}

#[test]
fn editor_settings_messages() {
    let mut d = RequestDraft::default();
    d.update(EditorMessage::TimeoutChanged("5".to_string()));
    assert_eq!(d.request_config.timeout_ms, 5000);
    d.update(EditorMessage::TimeoutChanged("abc".to_string()));
    assert_eq!(d.request_config.timeout_ms, 5000);
    d.update(EditorMessage::FollowRedirectsToggled(false));
    assert_eq!(d.request_config.redirect_policy, RedirectPolicy::NoFollow);
    d.update(EditorMessage::MaxRedirectsChanged("3".to_string()));
    assert_eq!(d.request_config.redirect_policy, RedirectPolicy::Limited(3));
    d.update(EditorMessage::MaxRedirectsChanged("-1".to_string()));
    assert_eq!(d.request_config.redirect_policy, RedirectPolicy::Limited(3));
    d.update(EditorMessage::RetryCountChanged("+2".to_string()));
    assert_eq!(d.request_config.retry.max_retries, 2);
    d.update(EditorMessage::RetryBackoffChanged("250".to_string()));
    assert_eq!(d.request_config.retry.backoff_ms, 250);
    d.update(EditorMessage::ProxyUrlChanged("http://p".to_string()));
    assert_eq!(d.request_config.proxy_url.as_deref(), Some("http://p"));
    d.update(EditorMessage::ProxyUrlChanged(String::new()));
    assert!(d.request_config.proxy_url.is_none());
    d.update(EditorMessage::VerifySslToggled(false));
    assert!(!d.request_config.tls.verify_ssl);
    d.update(EditorMessage::ResetSettings);
    assert_eq!(d.request_config.timeout_ms, 30000);
    assert!(d.request_config.tls.verify_ssl);
    d.update(EditorMessage::TabSelected(TabId::Settings));
    assert_eq!(d.active_tab, TabId::Settings);
    d.update(EditorMessage::MethodSelected("PUT".to_string()));
    assert_eq!(d.build_request().method, HttpMethod::Put);
}

#[test]
fn editor_search_navigation() {
    let mut d = RequestDraft::default();
    d.update(EditorMessage::SearchNext);
    assert_eq!(d.response_search_index, 0);
    d.update(EditorMessage::ToggleResponseSearch);
    assert!(d.show_response_search);
    d.response_search_query = "x".to_string();
    d.response_search_matches = vec![(1, 0), (2, 3), (4, 1)];
    d.update(EditorMessage::SearchPrev);
    assert_eq!(d.response_search_index, 2);
    d.update(EditorMessage::SearchNext);
    assert_eq!(d.response_search_index, 0);
    d.update(EditorMessage::SearchNext);
    assert_eq!(d.response_search_index, 1);
    d.update(EditorMessage::ToggleResponseSearch);
    assert!(!d.show_response_search);
    assert!(d.response_search_query.is_empty());
    assert!(d.response_search_matches.is_empty());
    assert_eq!(d.response_search_index, 0);
}

fn response(ct: Option<&str>, body: &str, enc: BodyEncoding) -> HttpResponse {
    HttpResponse {
        url: String::new(),
        method: HttpMethod::Get,
        status: 200,
        headers: ct.map(|c| vec![("Content-Type".to_string(), c.to_string())]).unwrap_or_default(),
        body: body.to_string(),
        body_encoding: enc,
        duration_ms: 1,
        size: body.len() as u64,
        redirect_chain: vec![],
    }
}

#[test]
fn response_display_formats_json_and_images() {
    let d = response_display(&response(Some("application/json"), "{\"a\":1}", BodyEncoding::Text));
    assert_eq!(d.content_type, "application/json");
    assert_eq!(d.body_text, "{\n  \"a\": 1\n}");
    assert!(d.image.is_none());
    let bad = response_display(&response(Some("application/json"), "not json", BodyEncoding::Text));
    assert_eq!(bad.body_text, "not json");
    let img = response_display(&response(Some("image/png"), "aGVsbG8=", BodyEncoding::Base64));
    assert_eq!(img.image.as_deref(), Some(&b"hello"[..]));
    assert_eq!(img.body_text, "[Image: 8 bytes, base64 decoded for preview]");
    let plain = response_display(&response(None, "hi", BodyEncoding::Text));
    assert_eq!(plain.content_type, "unknown");
    assert_eq!(plain.body_text, "hi");
}

#[test]
fn restore_multipart_numbers_rows_from_zero() {
    let mut d = draft("https://x.test");
    d.multipart_next_id = 7;
    let fields = vec![
        MultipartField { name: "note".to_string(), value: MultipartValue::Text("hi".to_string()) },
        MultipartField {
            name: "upload".to_string(),
            value: MultipartValue::File { path: "/tmp/a.png".to_string(), filename: Some("a.png".to_string()) },
        },
    ];
    d.restore_multipart(&fields);
    assert_eq!(d.multipart_next_id, 2);
    assert_eq!(d.multipart_entries.len(), 2);
    assert_eq!(d.multipart_entries[0].id, 0);
    assert_eq!(d.multipart_entries[0].name, "note");
    assert_eq!(d.multipart_entries[0].value, "hi");
    assert!(!d.multipart_entries[0].is_file);
    assert_eq!(d.multipart_entries[1].id, 1);
    assert_eq!(d.multipart_entries[1].value, "/tmp/a.png");
    assert!(d.multipart_entries[1].is_file);
}

#[test]
fn response_search_finds_every_match_ignoring_case() {
    let mut d = draft("https://x.test");
    d.response_search_index = 3;
    let ok = d.response_search_changed("HELLO".to_string(), "Hello\nsay hello, hellO");
    assert!(ok);
    assert_eq!(d.response_search_query, "HELLO");
    assert_eq!(d.response_search_matches, vec![(0, 0), (2, 4), (2, 11)]);
    assert_eq!(d.response_search_index, 0);
}

#[test]
fn response_search_overlapping_matches() {
    let mut d = draft("https://x.test");
    assert!(d.response_search_changed("aa".to_string(), "aaa"));
    assert_eq!(d.response_search_matches, vec![(0, 0), (1, 1)]);
}

#[test]
fn response_search_empty_query_clears() {
    let mut d = draft("https://x.test");
    assert!(d.response_search_changed("x".to_string(), "x"));
    assert_eq!(d.response_search_matches.len(), 1);
    assert!(d.response_search_changed(String::new(), "x"));
    assert!(d.response_search_matches.is_empty());
}

#[test]
fn response_search_refuses_match_on_multibyte_char() {
    let mut d = draft("https://x.test");
    let ok = d.response_search_changed("é".to_string(), "caf\u{c9}");
    assert!(!ok);
    assert!(d.response_search_matches.is_empty());
    assert_eq!(d.response_search_index, 0);
}

#[test]
fn search_next_then_prev_returns_to_same_match() {
    let mut d = draft("https://x.test");
    d.response_search_matches = vec![(0, 0), (1, 0), (2, 3)];
    for start in 0..3 {
        d.response_search_index = start;
        d.update(EditorMessage::SearchNext);
        assert!(d.response_search_index < 3);
        d.update(EditorMessage::SearchPrev);
        assert_eq!(d.response_search_index, start);
    }
}

#[test]
fn build_request_carries_auth() {
    let mut d = draft("https://x.test/a");
    d.auth = Auth::Digest { user: "u".to_string(), pass: "p".to_string() };
    match d.build_request().auth {
        Some(Auth::Digest { user, pass }) => {
            assert_eq!(user, "u");
            assert_eq!(pass, "p");
        }
        _ => panic!("expected digest credentials"),
    }
    assert!(matches!(draft("https://x.test").build_request().auth, Some(Auth::NoAuth)));
}

#[test]
fn timeout_accepts_any_u64_seconds() {
    let mut d = draft("https://x.test");
    d.update(EditorMessage::TimeoutChanged("18446744073709551615".to_string()));
    assert_eq!(d.request_config.timeout_ms, 18446744073709551615u128 * 1000);
    d.update(EditorMessage::TimeoutChanged("18446744073709551616".to_string()));
    assert_eq!(d.request_config.timeout_ms, 18446744073709551615u128 * 1000);
}

#[test]
fn multipart_ids_stay_distinct_and_below_next() {
    let mut d = draft("https://x.test");
    d.multipart_entries = vec![];
    d.multipart_next_id = 0;
    for _ in 0..4 {
        d.update(EditorMessage::AddMultipartEntry);
    }
    d.update(EditorMessage::RemoveMultipartEntry(1));
    d.update(EditorMessage::AddMultipartEntry);
    let ids: Vec<usize> = d.multipart_entries.iter().map(|e| e.id).collect();
    assert_eq!(ids, vec![0, 2, 3, 4]);
    assert_eq!(d.multipart_next_id, 5);
}

#[test]
fn try_build_request_checks_method() {
    let mut d = draft("https://x.test/a");
    d.method = "post".to_string();
    let r = d.try_build_request().unwrap();
    assert_eq!(r.method, HttpMethod::Post);
    assert_eq!(r.url, "https://x.test/a");
    d.method = "FETCH".to_string();
    assert!(d.try_build_request().is_none());
}
