use astranova::har::{har_entry, har_log_at, har_log_now, iso_checked, iso_timestamp, now_iso, status_text};
use astranova::http::{BodyEncoding, HttpMethod, HttpRequest, HttpResponse, RequestConfig};

fn request(method: HttpMethod, url: &str, headers: Vec<(&str, &str)>, body: Option<&str>) -> HttpRequest {
    HttpRequest {
        method,
        url: url.to_string(),
        headers: headers.into_iter().map(|(k, v)| (k.to_string(), v.to_string())).collect(),
        body: body.map(|b| b.to_string()),
        config: RequestConfig::default(),
        multipart_fields: vec![],
        auth: None,
    }
}

fn response(status: u16, headers: Vec<(&str, &str)>, body: &str, ms: u64, size: u64) -> HttpResponse {
    HttpResponse {
        url: String::new(),
        method: HttpMethod::Get,
        status,
        headers: headers.into_iter().map(|(k, v)| (k.to_string(), v.to_string())).collect(),
        body: body.to_string(),
        body_encoding: BodyEncoding::Text,
        duration_ms: ms,
        size,
        redirect_chain: vec![],
    }
}

#[test]
fn status_text_map() {
    assert_eq!(status_text(200), "OK");
    assert_eq!(status_text(404), "Not Found");
    assert_eq!(status_text(500), "Internal Server Error");
    assert_eq!(status_text(999), "Status 999");
}

// Further cases.

#[test]
fn har_single_entry_fields() {
    let req = request(
        HttpMethod::Get,
        "https://api.example.com/users?page=1",
        vec![("Accept", "application/json"), ("Authorization", "Bearer token")],
        None,
    );
    let resp = response(
        200,
        vec![("content-type", "application/json"), ("x-request-id", "abc123")],
        r#"{"users": []}"#,
        150,
        16,
    );
    let log = har_log_now(&[(&req, &resp)]).unwrap();
    assert_eq!(log.version, "1.2");
    assert_eq!(log.creator.name, "AstraNova Client");
    assert_eq!(log.entries.len(), 1);
    let e = &log.entries[0];
    assert_eq!(e.request.method, "GET");
    assert_eq!(e.request.url, "https://api.example.com/users?page=1");
    assert_eq!(e.request.http_version, "HTTP/1.1");
    assert_eq!(e.request.headers.len(), 2);
    assert_eq!(e.request.query_string.len(), 1);
    assert_eq!(e.request.query_string[0].name, "page");
    assert_eq!(e.request.query_string[0].value, "1");
    assert!(e.request.post_data.is_none());
    assert_eq!(e.response.status, 200);
    assert_eq!(e.response.status_text, "OK");
    assert_eq!(e.response.content.text.as_deref(), Some(r#"{"users": []}"#));
    assert_eq!(e.response.content.mime_type, "application/json");
    assert_eq!(e.response.content.size, 16);
    assert_eq!(e.time, 150);
    assert_eq!(e.timings.wait, 150);
    assert_eq!(e.timings.send, 0);
    assert!(e.started_iso.ends_with('Z'));
}

#[test]
fn har_post_body_and_default_types() {
    let req = request(HttpMethod::Post, "https://api.example.com/users", vec![], Some(r#"{"name": "John"}"#));
    let resp = response(201, vec![], r#"{"id": 1}"#, 200, 11);
    let e = har_entry(&req, &resp, "2024-01-01T00:00:00Z".to_string());
    let pd = e.request.post_data.as_ref().unwrap();
    assert_eq!(pd.text.as_deref(), Some(r#"{"name": "John"}"#));
    assert_eq!(pd.mime_type, "application/json");
    assert_eq!(e.response.content.mime_type, "text/plain");
    assert_eq!(e.response.status_text, "Created");
    assert_eq!(e.started_iso, "2024-01-01T00:00:00Z");
}

#[test]
fn har_post_mime_from_request_header() {
    let req = request(HttpMethod::Put, "https://x.test/", vec![("Content-Type", "text/xml")], Some("<a/>"));
    let resp = response(204, vec![("Content-Type", "text/html")], "", 5, 0);
    let e = har_entry(&req, &resp, String::new());
    assert_eq!(e.request.post_data.unwrap().mime_type, "text/xml");
    assert_eq!(e.response.content.mime_type, "text/html");
    assert_eq!(e.response.status_text, "No Content");
}

#[test]
fn har_binary_body_has_no_text() {
    let req = request(HttpMethod::Get, "https://x.test/img", vec![], None);
    let mut resp = response(200, vec![("content-type", "image/png")], "iVBORw0KGgo=", 5, 8);
    resp.body_encoding = BodyEncoding::Base64;
    let e = har_entry(&req, &resp, String::new());
    assert!(e.response.content.text.is_none());
}

#[test]
fn har_multiple_entries_and_query_params() {
    let req1 = request(HttpMethod::Get, "https://api.example.com/search?q=rust&limit=10", vec![], None);
    let resp1 = response(200, vec![], "[]", 100, 2);
    let req2 = request(HttpMethod::Delete, "https://api.example.com/b", vec![], None);
    let resp2 = response(204, vec![], "", 30, 0);
    let log = har_log_now(&[(&req1, &resp1), (&req2, &resp2)]).unwrap();
    assert_eq!(log.entries.len(), 2);
    assert_eq!(log.entries[0].request.query_string.len(), 2);
    assert_eq!(log.entries[1].request.method, "DELETE");
    assert!(log.entries[1].request.query_string.is_empty());
}

#[test]
fn iso_timestamp_layout() {
    assert_eq!(iso_timestamp(0), "1970-01-01T00:00:00Z");
    assert_eq!(iso_timestamp(86400 + 3600 + 61), "1970-01-02T01:01:01Z");
    assert_eq!(iso_timestamp(31536000), "1971-01-06T00:00:00Z");
}

#[test]
fn now_iso_is_a_timestamp() {
    let s = now_iso().unwrap();
    assert_eq!(s.len(), 20);
    assert!(s.ends_with('Z'));
}

#[test]
fn export_single_entry() {
    let req = request(
        HttpMethod::Get,
        "https://api.example.com/users?page=1",
        vec![("Accept", "application/json"), ("Authorization", "Bearer token")],
        None,
    );
    let mut resp = response(
        200,
        vec![("content-type", "application/json"), ("x-request-id", "abc123")],
        r#"{"users": []}"#,
        150,
        16,
    );
    resp.url = "https://api.example.com/users?page=1".to_string();
    let log = har_log_now(&[(&req, &resp)]).unwrap();
    assert_eq!(log.version, "1.2");
    assert_eq!(log.creator.name, "AstraNova Client");
    assert_eq!(log.entries.len(), 1);
    let entry = &log.entries[0];
    assert_eq!(entry.request.method, "GET");
    assert_eq!(entry.request.url, "https://api.example.com/users?page=1");
    assert_eq!(entry.response.status, 200);
    assert_eq!(entry.response.content.text.as_deref(), Some(r#"{"users": []}"#));
    assert_eq!(entry.time, 150);
}

#[test]
fn export_post_with_body() {
    let req = request(
        HttpMethod::Post,
        "https://api.example.com/users",
        vec![("Content-Type", "application/json")],
        Some(r#"{"name": "John"}"#),
    );
    let resp = response(201, vec![], r#"{"id": 1}"#, 200, 11);
    let log = har_log_now(&[(&req, &resp)]).unwrap();
    let entry = &log.entries[0];
    assert_eq!(entry.request.method, "POST");
    assert_eq!(entry.request.post_data.as_ref().unwrap().text.as_deref(), Some(r#"{"name": "John"}"#));
    assert_eq!(entry.response.status, 201);
}

#[test]
fn export_multiple_entries() {
    let req1 = request(HttpMethod::Get, "https://api.example.com/a", vec![], None);
    let resp1 = response(200, vec![], "ok", 50, 2);
    let req2 = request(HttpMethod::Delete, "https://api.example.com/b", vec![], None);
    let resp2 = response(204, vec![], "", 30, 0);
    let log = har_log_now(&[(&req1, &resp1), (&req2, &resp2)]).unwrap();
    assert_eq!(log.entries.len(), 2);
}

#[test]
fn export_includes_query_params() {
    let req = request(HttpMethod::Get, "https://api.example.com/search?q=rust&limit=10", vec![], None);
    let resp = response(200, vec![], "[]", 100, 2);
    let log = har_log_now(&[(&req, &resp)]).unwrap();
    assert_eq!(log.entries[0].request.query_string.len(), 2);
}

#[test]
fn iso_checked_refuses_overflowing_year() {
    assert_eq!(iso_checked(0).unwrap(), "1970-01-01T00:00:00Z");
    assert_eq!(iso_checked(31536000).unwrap(), "1971-01-06T00:00:00Z");
    assert!(iso_checked(4294965326u64 * 31536000).is_none());
    assert!(iso_checked((1u64 << 32) * 31536000).is_some());
}

#[test]
fn har_log_of_no_exchanges() {
    let log = har_log_now(&[]).unwrap();
    assert_eq!(log.version, "1.2");
    assert!(log.entries.is_empty());
}

#[test]
fn har_log_at_stamps_each_entry() {
    let req1 = request(HttpMethod::Get, "https://api.example.com/a", vec![], None);
    let resp1 = response(200, vec![], "ok", 50, 2);
    let req2 = request(HttpMethod::Delete, "https://api.example.com/b", vec![], None);
    let resp2 = response(204, vec![], "", 30, 0);
    let log = har_log_at(&[(&req1, &resp1), (&req2, &resp2)], &[0, 31536000]).unwrap();
    assert_eq!(log.entries[0].started_iso, "1970-01-01T00:00:00Z");
    assert_eq!(log.entries[1].started_iso, "1971-01-06T00:00:00Z");
    assert!(har_log_at(&[(&req1, &resp1)], &[4294965326u64 * 31536000]).is_none());
}
