use astranova::request_editor::ResponsePanel;
use astranova::request_view::RequestStatus;
use astranova::database::Environment;
use astranova::error::AppError;
use astranova::http::{BodyEncoding, HttpMethod, HttpResponse, RequestConfig};
use astranova::request_builder::RequestDraft;
use astranova::request_flow::{
    download_bytes, download_file_name, file_saved_toast, finish_response, needs_custom_client,
    pre_request_toasts, prepare_send, response_toast, unresolved_toast, placeholders_in, ClientCache, ToastKind, CLIENT_CACHE_LIMIT,
};
use astranova::request_view::ContentType;
use astranova::scripts::{Script, ScriptAction};

fn draft(url: &str) -> RequestDraft {
    let mut d = RequestDraft::default();
    d.url_input = url.to_string();
    d
}

fn pairs(v: &[(&str, &str)]) -> Vec<(String, String)> {
    v.iter().map(|(a, b)| (a.to_string(), b.to_string())).collect()
}

fn env(vars: &[(&str, &str)]) -> Environment {
    Environment {
        id: 1,
        name: "dev".to_string(),
        variables: pairs(vars),
        secret_keys: vec![],
        default_endpoint: None,
    }
}

fn response(status: u16, url: &str) -> HttpResponse {
    HttpResponse {
        url: url.to_string(),
        method: HttpMethod::Get,
        status,
        headers: vec![],
        body: String::new(),
        body_encoding: BodyEncoding::Text,
        duration_ms: 15,
        size: 0,
        redirect_chain: vec![],
    }
}

#[test]
fn prepare_send_refuses_blank_url() {
    let e = prepare_send(draft("   "), &[], None).unwrap_err();
    assert_eq!(e.kind, ToastKind::Error);
    assert_eq!(e.text, "URL is required");
}

#[test]
fn prepare_send_refuses_invalid_url() {
    let e = prepare_send(draft("  not a url "), &[], None).unwrap_err();
    assert_eq!(e.kind, ToastKind::Error);
    assert_eq!(e.text, "Invalid URL: not a url");
}

#[test]
fn prepare_send_substitutes_environment() {
    let e = env(&[("base", "https://e.test")]);
    let d = prepare_send(draft("{{base}}/users"), &[], Some(&e)).unwrap();
    assert_eq!(d.url_input, "https://e.test/users");
}

#[test]
fn prepare_send_collection_variables_win() {
    let e = env(&[("base", "https://e.test"), ("v", "1")]);
    let coll = pairs(&[("base", "https://c.test")]);
    let d = prepare_send(draft("{{base}}/{{v}}"), &coll, Some(&e)).unwrap();
    assert_eq!(d.url_input, "https://c.test/1");
    let d2 = prepare_send(draft("{{base}}/x"), &coll, None).unwrap();
    assert_eq!(d2.url_input, "https://c.test/x");
}

#[test]
fn prepare_send_keeps_url_untrimmed() {
    let d = prepare_send(draft(" https://x.test "), &[], None).unwrap();
    assert_eq!(d.url_input, " https://x.test ");
}

#[test]
fn prepare_send_detects_json_body() {
    let mut d = draft("https://x.test");
    d.request_content_type = ContentType::Text;
    d.body_text = "  {\"a\": [1, 2]}\n".to_string();
    assert_eq!(prepare_send(d, &[], None).unwrap().request_content_type, ContentType::Json);

    let mut d2 = draft("https://x.test");
    d2.request_content_type = ContentType::Text;
    d2.body_text = "{not json}".to_string();
    assert_eq!(prepare_send(d2, &[], None).unwrap().request_content_type, ContentType::Text);

    let mut d3 = draft("https://x.test");
    d3.request_content_type = ContentType::Xml;
    d3.body_text = "[1, 2]".to_string();
    assert_eq!(prepare_send(d3, &[], None).unwrap().request_content_type, ContentType::Xml);
}

#[test]
fn custom_client_only_for_proxy_or_certificates() {
    let mut c = RequestConfig::default();
    assert!(!needs_custom_client(&c));
    c.tls.verify_ssl = false;
    assert!(needs_custom_client(&c));
    let mut c2 = RequestConfig::default();
    c2.proxy_url = Some("http://proxy:8080".to_string());
    assert!(needs_custom_client(&c2));
}

#[test]
fn client_cache_drops_least_recently_used() {
    let mut cache: ClientCache<u32> = ClientCache::new();
    for i in 0..CLIENT_CACHE_LIMIT {
        cache.make_room();
        cache.store(format!("k{}", i), i as u32, 10 + i as u64);
    }
    assert_eq!(cache.len(), CLIENT_CACHE_LIMIT);
    assert_eq!(cache.touch("k0", 100), Some(0));
    assert_eq!(cache.touch("missing", 100), None);
    cache.make_room();
    assert_eq!(cache.len(), CLIENT_CACHE_LIMIT - 1);
    assert_eq!(cache.touch("k1", 101), None);
    assert_eq!(cache.touch("k0", 102), Some(0));
    cache.store("new".to_string(), 99, 103);
    assert_eq!(cache.len(), CLIENT_CACHE_LIMIT);
    let i = cache.touch("new", 104).unwrap();
    assert_eq!(*cache.client_at(i), 99);
}

#[test]
fn client_cache_store_replaces_same_key() {
    let mut cache: ClientCache<u32> = ClientCache::new();
    cache.store("a".to_string(), 1, 1);
    cache.store("a".to_string(), 2, 2);
    assert_eq!(cache.len(), 1);
    assert_eq!(*cache.client_at(0), 2);
}

#[test]
fn finish_response_records_request() {
    let resp = response(200, "https://redirected.test/final");
    let out = finish_response(resp, &Script { actions: vec![] }, "https://x.test/a".to_string(), HttpMethod::Post)
        .unwrap();
    assert_eq!(out.url, "https://x.test/a");
    assert_eq!(out.method, HttpMethod::Post);
    assert_eq!(out.status, 200);
}

#[test]
fn finish_response_reports_failed_check() {
    let resp = response(404, "https://x.test/a");
    let script = Script { actions: vec![ScriptAction::AssertStatus { expected: 200 }] };
    match finish_response(resp, &script, "https://x.test/a".to_string(), HttpMethod::Get) {
        Err(AppError::Validation(m)) => assert_eq!(
            m,
            "Post-response script error: Validation error: Assertion failed: expected status 200, got 404"
        ),
        _ => panic!("expected a validation error"),
    }
}

#[test]
fn response_toasts() {
    let w = response_toast(&Ok(response(404, "https://x.test")));
    assert_eq!(w.kind, ToastKind::Warning);
    assert_eq!(w.text, "404 https://x.test");
    let s = response_toast(&Ok(response(201, "https://x.test")));
    assert_eq!(s.kind, ToastKind::Success);
    assert_eq!(s.text, "201 https://x.test - 15ms");
    let e = response_toast(&Err(AppError::Http("boom".to_string())));
    assert_eq!(e.kind, ToastKind::Error);
    assert_eq!(e.text, "Request failed: HTTP error: boom");
}

#[test]
fn download_names_follow_content_type() {
    let mut r = response(200, "https://x.test");
    assert_eq!(download_file_name(&r), "response.bin");
    r.headers = pairs(&[("Content-Type", "image/png")]);
    assert_eq!(download_file_name(&r), "response.png");
    r.headers = pairs(&[("content-type", "application/x-gzip")]);
    assert_eq!(download_file_name(&r), "response.gz");
    r.headers = pairs(&[("CONTENT-TYPE", "text/xml; charset=utf-8")]);
    assert_eq!(download_file_name(&r), "response.xml");
    r.headers = pairs(&[("content-type", "image/jpg")]);
    assert_eq!(download_file_name(&r), "response.jpg");
}

#[test]
fn download_bytes_decode_base64() {
    let mut r = response(200, "https://x.test");
    r.body = "aGk=".to_string();
    r.body_encoding = BodyEncoding::Base64;
    assert_eq!(download_bytes(&r), b"hi".to_vec());
    r.body = "%%%".to_string();
    assert!(download_bytes(&r).is_empty());
    r.body_encoding = BodyEncoding::Text;
    r.body = "héllo".to_string();
    assert_eq!(download_bytes(&r), "héllo".as_bytes().to_vec());
}

#[test]
fn file_saved_toasts() {
    let t = file_saved_toast(&Ok("/tmp/r.json".to_string())).unwrap();
    assert_eq!(t.kind, ToastKind::Success);
    assert_eq!(t.text, "Saved: /tmp/r.json");
    assert!(file_saved_toast(&Err("Cancelled".to_string())).is_none());
    let e = file_saved_toast(&Err("Write error: denied".to_string())).unwrap();
    assert_eq!(e.kind, ToastKind::Error);
    assert_eq!(e.text, "Write error: denied");
}

#[test]
fn pre_request_notices() {
    let ok = pre_request_toasts(&Ok(()), &["one".to_string(), "two".to_string()]).unwrap();
    assert_eq!(ok.len(), 2);
    assert_eq!(ok[0].kind, ToastKind::Info);
    assert_eq!(ok[1].text, "[Pre-request] two");
    let err = pre_request_toasts(&Err(AppError::Validation("bad".to_string())), &[]).unwrap_err();
    assert_eq!(err.kind, ToastKind::Error);
    assert_eq!(err.text, "Pre-request script error: Validation error: bad");
}

#[test]
fn placeholders_found_in_order() {
    assert_eq!(placeholders_in("a{{x}}b{{ y }}{{}}c{{open"), vec!["x".to_string(), " y ".to_string(), String::new()]);
    assert!(placeholders_in("no braces { } }}").is_empty());
}

#[test]
fn unresolved_variables_after_substitution() {
    let e = env(&[("host", "h.test")]);
    let mut d = draft("https://{{host}}/{{ver}}");
    d.params = pairs(&[("q", "{{query}}")]);
    d.headers = pairs(&[("X-Token", "{{token}}")]);
    d.body_text = "{\"a\": \"{{body}}\"}".to_string();
    let d = prepare_send(d, &[], Some(&e)).unwrap();
    let names = d.unresolved_variables();
    assert_eq!(names, vec!["ver", "query", "token", "body"]);
    let t = unresolved_toast(&names).unwrap();
    assert_eq!(t.kind, ToastKind::Warning);
    assert_eq!(t.text, "Unresolved variables: ver, query, token, body");
    assert!(unresolved_toast(&[]).is_none());
}

#[test]
fn response_panel_transitions() {
    let mut p = ResponsePanel::new();
    p.set_loading(std::time::Instant::now());
    assert!(matches!(p.request_status, RequestStatus::Loading { .. }));
    let mut resp = response(200, "https://x.test");
    resp.headers = pairs(&[("Content-Type", "application/json")]);
    resp.body = "{\"a\":1}".to_string();
    resp.size = 7;
    p.response_received(Ok(resp));
    assert!(matches!(p.request_status, RequestStatus::Success));
    assert_eq!(p.status_code, Some(200));
    assert_eq!(p.response_duration_ms, Some(15));
    assert_eq!(p.response_size, Some(7));
    assert_eq!(p.content_type.as_deref(), Some("application/json"));
    assert_eq!(p.body_text, "{\n  \"a\": 1\n}");
    assert!(p.last_response.is_some());
    p.response_received(Err(AppError::Http("boom".to_string())));
    match &p.request_status {
        RequestStatus::Error(m) => assert_eq!(m, "Error: HTTP error: boom"),
        _ => panic!("expected an error status"),
    }
    assert!(p.last_response.is_none() && p.body_text.is_empty() && p.status_code.is_none());
}
