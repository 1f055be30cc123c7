use astranova::http::{BodyEncoding, HttpMethod, HttpRequest, HttpResponse, RequestConfig};
use astranova::scripts::{Script, ScriptAction, ScriptContext, ScriptEngine};
use astranova::error::AppError;

fn make_request() -> HttpRequest {
    HttpRequest {
        method: HttpMethod::Get,
        url: "https://api.example.com/users".to_string(),
        headers: vec![],
        body: None,
        config: RequestConfig::default(),
        multipart_fields: vec![],
        auth: None,
    }
}

fn make_response(status: u16, body: &str) -> HttpResponse {
    HttpResponse {
        url: "https://api.example.com/users".to_string(),
        method: HttpMethod::Get,
        status,
        headers: vec![("content-type".to_string(), "application/json".to_string())],
        body: body.to_string(),
        body_encoding: BodyEncoding::Text,
        duration_ms: 100,
        size: body.len() as u64,
        redirect_chain: vec![],
    }
}

#[test]
fn set_variable_pre_request() {
    let script = Script {
        actions: vec![ScriptAction::SetVariable { name: "myvar".to_string(), value: "hello".to_string() }],
    };
    let mut request = make_request();
    let mut context = ScriptContext::new();
    ScriptEngine::execute_pre_request(&script, &mut request, &mut context).unwrap();
    assert_eq!(context.variables.get("myvar").unwrap(), "hello");
}

#[test]
fn set_header_pre_request() {
    let script = Script {
        actions: vec![ScriptAction::SetHeader { key: "X-Custom".to_string(), value: "test-value".to_string() }],
    };
    let mut request = make_request();
    let mut context = ScriptContext::new();
    ScriptEngine::execute_pre_request(&script, &mut request, &mut context).unwrap();
    assert!(request.headers.iter().any(|(k, v)| k == "X-Custom" && v == "test-value"));
}

#[test]
fn set_header_with_variable() {
    let script = Script {
        actions: vec![
            ScriptAction::SetVariable { name: "token".to_string(), value: "abc123".to_string() },
            ScriptAction::SetHeader { key: "Authorization".to_string(), value: "Bearer {{token}}".to_string() },
        ],
    };
    let mut request = make_request();
    let mut context = ScriptContext::new();
    ScriptEngine::execute_pre_request(&script, &mut request, &mut context).unwrap();
    assert!(request.headers.iter().any(|(k, v)| k == "Authorization" && v == "Bearer abc123"));
}

#[test]
fn remove_header_pre_request() {
    let script = Script { actions: vec![ScriptAction::RemoveHeader { key: "X-Remove-Me".to_string() }] };
    let mut request = make_request();
    request.headers.push(("X-Remove-Me".to_string(), "value".to_string()));
    let mut context = ScriptContext::new();
    ScriptEngine::execute_pre_request(&script, &mut request, &mut context).unwrap();
    assert!(!request.headers.iter().any(|(k, _)| k == "X-Remove-Me"));
}

#[test]
fn set_body_pre_request() {
    let script = Script { actions: vec![ScriptAction::SetBody { body: r#"{"key":"value"}"#.to_string() }] };
    let mut request = make_request();
    let mut context = ScriptContext::new();
    ScriptEngine::execute_pre_request(&script, &mut request, &mut context).unwrap();
    assert_eq!(request.body.as_deref(), Some(r#"{"key":"value"}"#));
}

#[test]
fn set_url_pre_request() {
    let script = Script { actions: vec![ScriptAction::SetUrl { url: "https://other.api.com/data".to_string() }] };
    let mut request = make_request();
    let mut context = ScriptContext::new();
    ScriptEngine::execute_pre_request(&script, &mut request, &mut context).unwrap();
    assert_eq!(request.url, "https://other.api.com/data");
}

#[test]
fn set_method_pre_request() {
    let script = Script { actions: vec![ScriptAction::SetMethod { method: "POST".to_string() }] };
    let mut request = make_request();
    let mut context = ScriptContext::new();
    ScriptEngine::execute_pre_request(&script, &mut request, &mut context).unwrap();
    assert_eq!(request.method, HttpMethod::Post);
}

#[test]
fn set_method_invalid_returns_error() {
    let script = Script { actions: vec![ScriptAction::SetMethod { method: "NOTVALID".to_string() }] };
    let mut request = make_request();
    let mut context = ScriptContext::new();
    let result = ScriptEngine::execute_pre_request(&script, &mut request, &mut context);
    assert!(result.is_err());
}

#[test]
fn assert_status_ok() {
    let script = Script { actions: vec![ScriptAction::AssertStatus { expected: 200 }] };
    let response = make_response(200, "{}");
    let mut context = ScriptContext::new();
    let result = ScriptEngine::execute_post_response(&script, &response, &mut context);
    assert!(result.is_ok());
    assert!(context.errors.is_empty());
}

#[test]
fn assert_status_fail() {
    let script = Script { actions: vec![ScriptAction::AssertStatus { expected: 200 }] };
    let response = make_response(404, "{}");
    let mut context = ScriptContext::new();
    let result = ScriptEngine::execute_post_response(&script, &response, &mut context);
    assert!(result.is_err());
    assert_eq!(context.errors.len(), 1);
}

#[test]
fn assert_header_contains() {
    let script = Script {
        actions: vec![ScriptAction::AssertHeader {
            key: "content-type".to_string(),
            contains: Some("json".to_string()),
            equals: None,
        }],
    };
    let response = make_response(200, "{}");
    let mut context = ScriptContext::new();
    let result = ScriptEngine::execute_post_response(&script, &response, &mut context);
    assert!(result.is_ok());
}

#[test]
fn assert_header_contains_fail() {
    let script = Script {
        actions: vec![ScriptAction::AssertHeader {
            key: "content-type".to_string(),
            contains: Some("xml".to_string()),
            equals: None,
        }],
    };
    let response = make_response(200, "{}");
    let mut context = ScriptContext::new();
    let result = ScriptEngine::execute_post_response(&script, &response, &mut context);
    assert!(result.is_err());
}

#[test]
fn assert_header_not_found() {
    let script = Script {
        actions: vec![ScriptAction::AssertHeader {
            key: "x-custom".to_string(),
            contains: None,
            equals: Some("value".to_string()),
        }],
    };
    let response = make_response(200, "{}");
    let mut context = ScriptContext::new();
    let result = ScriptEngine::execute_post_response(&script, &response, &mut context);
    assert!(result.is_err());
}

#[test]
fn assert_body_contains() {
    let script = Script { actions: vec![ScriptAction::AssertBody { contains: Some("users".to_string()), equals: None }] };
    let response = make_response(200, r#"{"users": []}"#);
    let mut context = ScriptContext::new();
    let result = ScriptEngine::execute_post_response(&script, &response, &mut context);
    assert!(result.is_ok());
}

#[test]
fn assert_body_contains_fail() {
    let script = Script { actions: vec![ScriptAction::AssertBody { contains: Some("orders".to_string()), equals: None }] };
    let response = make_response(200, r#"{"users": []}"#);
    let mut context = ScriptContext::new();
    let result = ScriptEngine::execute_post_response(&script, &response, &mut context);
    assert!(result.is_err());
}

#[test]
fn extract_json_field() {
    let script = Script {
        actions: vec![ScriptAction::ExtractJson { variable: "user_id".to_string(), path: "data.id".to_string() }],
    };
    let response = make_response(200, r#"{"data": {"id": 42, "name": "John"}}"#);
    let mut context = ScriptContext::new();
    ScriptEngine::execute_post_response(&script, &response, &mut context).unwrap();
    assert_eq!(context.variables.get("user_id").unwrap(), "42");
}

#[test]
fn extract_header_value() {
    let script = Script {
        actions: vec![ScriptAction::ExtractHeader { variable: "content_type".to_string(), header: "content-type".to_string() }],
    };
    let response = make_response(200, "{}");
    let mut context = ScriptContext::new();
    ScriptEngine::execute_post_response(&script, &response, &mut context).unwrap();
    assert_eq!(context.variables.get("content_type").unwrap(), "application/json");
}

#[test]
fn log_message() {
    let script = Script { actions: vec![ScriptAction::Log { message: "Request sent".to_string() }] };
    let mut request = make_request();
    let mut context = ScriptContext::new();
    ScriptEngine::execute_pre_request(&script, &mut request, &mut context).unwrap();
    assert_eq!(context.logs.len(), 1);
    assert_eq!(context.logs[0], "Request sent");
}

#[test]
fn log_with_variable() {
    let script = Script {
        actions: vec![
            ScriptAction::SetVariable { name: "url".to_string(), value: "https://api.example.com".to_string() },
            ScriptAction::Log { message: "Calling {{url}}".to_string() },
        ],
    };
    let mut request = make_request();
    let mut context = ScriptContext::new();
    ScriptEngine::execute_pre_request(&script, &mut request, &mut context).unwrap();
    assert_eq!(context.logs[0], "Calling https://api.example.com");
}

#[test]
fn context_resolve_variables() {
    let mut context = ScriptContext::new();
    context.variables.insert("host".to_string(), "api.example.com".to_string());
    context.variables.insert("version".to_string(), "v2".to_string());
    let resolved = context.resolve_variables("https://{{host}}/{{version}}/users");
    assert_eq!(resolved, "https://api.example.com/v2/users");
}

#[test]
fn multiple_pre_request_actions() {
    let script = Script {
        actions: vec![
            ScriptAction::SetVariable { name: "token".to_string(), value: "abc123".to_string() },
            ScriptAction::SetHeader { key: "Authorization".to_string(), value: "Bearer {{token}}".to_string() },
            ScriptAction::SetHeader { key: "X-Custom".to_string(), value: "fixed-value".to_string() },
            ScriptAction::SetBody { body: r#"{"token":"{{token}}"}"#.to_string() },
        ],
    };
    let mut request = make_request();
    let mut context = ScriptContext::new();
    ScriptEngine::execute_pre_request(&script, &mut request, &mut context).unwrap();
    assert_eq!(context.variables.get("token").unwrap(), "abc123");
    assert!(request.headers.iter().any(|(k, v)| k == "Authorization" && v == "Bearer abc123"));
    assert!(request.headers.iter().any(|(k, v)| k == "X-Custom" && v == "fixed-value"));
    assert_eq!(request.body.as_deref(), Some(r#"{"token":"abc123"}"#));
}

#[test]
fn post_response_chained_extractions() {
    let script = Script {
        actions: vec![
            ScriptAction::ExtractJson { variable: "user_id".to_string(), path: "data.id".to_string() },
            ScriptAction::Log { message: "Extracted user_id={{user_id}}".to_string() },
        ],
    };
    let response = make_response(200, r#"{"data": {"id": 42}}"#);
    let mut context = ScriptContext::new();
    ScriptEngine::execute_post_response(&script, &response, &mut context).unwrap();
    assert_eq!(context.variables.get("user_id").unwrap(), "42");
    assert_eq!(context.logs[0], "Extracted user_id=42");
}

#[test]
fn extract_json_nested_array() {
    let script = Script {
        actions: vec![ScriptAction::ExtractJson { variable: "first_name".to_string(), path: "users.0.name".to_string() }],
    };
    let response = make_response(200, r#"{"users": [{"name": "Alice"}, {"name": "Bob"}]}"#);
    let mut context = ScriptContext::new();
    ScriptEngine::execute_post_response(&script, &response, &mut context).unwrap();
    assert_eq!(context.variables.get("first_name").unwrap(), "Alice");
}

#[test]
fn extract_json_nonexistent_path() {
    let script = Script {
        actions: vec![ScriptAction::ExtractJson { variable: "missing".to_string(), path: "data.nonexistent".to_string() }],
    };
    let response = make_response(200, r#"{"data": {"id": 1}}"#);
    let mut context = ScriptContext::new();
    ScriptEngine::execute_post_response(&script, &response, &mut context).unwrap();
    assert!(context.variables.get("missing").is_none());
    assert_eq!(context.errors.len(), 1);
}

#[test]
fn assert_status_on_error_response() {
    let script = Script { actions: vec![ScriptAction::AssertStatus { expected: 200 }] };
    let response = make_response(500, "Internal Server Error");
    let mut context = ScriptContext::new();
    let result = ScriptEngine::execute_post_response(&script, &response, &mut context);
    assert!(result.is_err());
    assert!(context.errors[0].contains("500"));
}

#[test]
fn script_action_display() {
    assert_eq!(
        ScriptAction::SetVariable { name: "x".to_string(), value: "1".to_string() }.to_string(),
        "set_var(x=1)"
    );
    assert_eq!(
        ScriptAction::SetHeader { key: "Auth".to_string(), value: "Bearer token".to_string() }.to_string(),
        "set_header(Auth: Bearer token)"
    );
    assert_eq!(ScriptAction::RemoveHeader { key: "X-Remove".to_string() }.to_string(), "remove_header(X-Remove)");
    assert_eq!(ScriptAction::AssertStatus { expected: 200 }.to_string(), "assert_status(200)");
    assert_eq!(ScriptAction::Log { message: "hello".to_string() }.to_string(), "log(hello)");
    assert_eq!(ScriptAction::Delay { ms: 100 }.to_string(), "delay(100ms)");
    assert_eq!(
        ScriptAction::ExtractJson { variable: "id".to_string(), path: "data.id".to_string() }.to_string(),
        "extract_json(id from data.id)"
    );
    assert_eq!(
        ScriptAction::ExtractHeader { variable: "ct".to_string(), header: "content-type".to_string() }.to_string(),
        "extract_header(ct from content-type)"
    );
}

// Further cases.

#[test]
fn set_body_display_shows_thirty_characters() {
    let a = ScriptAction::SetBody { body: "abcdefghijklmnopqrstuvwxyz0123456789".to_string() };
    assert_eq!(a.to_string(), "set_body(abcdefghijklmnopqrstuvwxyz0123...)");
    let b = ScriptAction::SetBody { body: "short".to_string() };
    assert_eq!(b.to_string(), "set_body(short...)");
    assert_eq!(ScriptAction::AssertBody { contains: None, equals: None }.to_string(), "assert_body(...)");
}

#[test]
fn set_header_replaces_case_insensitively() {
    let script = Script {
        actions: vec![ScriptAction::SetHeader { key: "x-token".to_string(), value: "new".to_string() }],
    };
    let mut request = make_request();
    request.headers.push(("X-Token".to_string(), "old".to_string()));
    request.headers.push(("Accept".to_string(), "*/*".to_string()));
    let mut context = ScriptContext::new();
    ScriptEngine::execute_pre_request(&script, &mut request, &mut context).unwrap();
    assert_eq!(
        request.headers,
        vec![
            ("Accept".to_string(), "*/*".to_string()),
            ("x-token".to_string(), "new".to_string())
        ]
    );
}

#[test]
fn set_method_lowercase_accepted() {
    let script = Script { actions: vec![ScriptAction::SetMethod { method: "delete".to_string() }] };
    let mut request = make_request();
    let mut context = ScriptContext::new();
    ScriptEngine::execute_pre_request(&script, &mut request, &mut context).unwrap();
    assert_eq!(request.method, HttpMethod::Delete);
}

#[test]
fn invalid_method_stops_script_and_reports() {
    let script = Script {
        actions: vec![
            ScriptAction::SetMethod { method: "FETCH".to_string() },
            ScriptAction::Log { message: "never".to_string() },
        ],
    };
    let mut request = make_request();
    let mut context = ScriptContext::new();
    let result = ScriptEngine::execute_pre_request(&script, &mut request, &mut context);
    match result {
        Err(AppError::Validation(m)) => assert_eq!(m, "Invalid HTTP method: FETCH"),
        other => panic!("unexpected {:?}", other),
    }
    assert!(context.logs.is_empty());
    assert!(context.errors.is_empty());
    assert_eq!(request.method, HttpMethod::Get);
}

#[test]
fn failed_assertion_message_texts() {
    let response = make_response(404, "{}");
    let mut context = ScriptContext::new();
    let script = Script { actions: vec![ScriptAction::AssertStatus { expected: 200 }] };
    let r = ScriptEngine::execute_post_response(&script, &response, &mut context);
    match r {
        Err(AppError::Validation(m)) => assert_eq!(m, "Assertion failed: expected status 200, got 404"),
        other => panic!("unexpected {:?}", other),
    }
    assert_eq!(context.errors, vec!["Assertion failed: expected status 200, got 404".to_string()]);

    let mut c2 = ScriptContext::new();
    let s2 = Script {
        actions: vec![ScriptAction::AssertHeader {
            key: "content-type".to_string(),
            contains: None,
            equals: Some("text/html".to_string()),
        }],
    };
    let r2 = ScriptEngine::execute_post_response(&s2, &response, &mut c2);
    match r2 {
        Err(AppError::Validation(m)) => assert_eq!(
            m,
            "Assertion failed: header 'content-type' expected 'text/html', got 'application/json'"
        ),
        other => panic!("unexpected {:?}", other),
    }

    let mut c3 = ScriptContext::new();
    let s3 = Script { actions: vec![ScriptAction::AssertBody { contains: None, equals: Some("[]".to_string()) }] };
    let r3 = ScriptEngine::execute_post_response(&s3, &response, &mut c3);
    match r3 {
        Err(AppError::Validation(m)) => assert_eq!(m, "Assertion failed: body expected '[]', got '{}'"),
        other => panic!("unexpected {:?}", other),
    }
}

#[test]
fn post_script_stops_at_first_failure() {
    let script = Script {
        actions: vec![
            ScriptAction::AssertStatus { expected: 201 },
            ScriptAction::Log { message: "after".to_string() },
        ],
    };
    let response = make_response(200, "{}");
    let mut context = ScriptContext::new();
    assert!(ScriptEngine::execute_post_response(&script, &response, &mut context).is_err());
    assert!(context.logs.is_empty());
}

#[test]
fn extract_json_from_non_json_body_does_nothing() {
    let script = Script {
        actions: vec![ScriptAction::ExtractJson { variable: "v".to_string(), path: "a".to_string() }],
    };
    let response = make_response(200, "not json");
    let mut context = ScriptContext::new();
    ScriptEngine::execute_post_response(&script, &response, &mut context).unwrap();
    assert!(context.variables.get("v").is_none());
    assert!(context.errors.is_empty());
}

#[test]
fn extract_json_object_value_is_compact_json() {
    let script = Script {
        actions: vec![ScriptAction::ExtractJson { variable: "d".to_string(), path: "data".to_string() }],
    };
    let response = make_response(200, r#"{"data": {"id": 1, "ok": true}}"#);
    let mut context = ScriptContext::new();
    ScriptEngine::execute_post_response(&script, &response, &mut context).unwrap();
    assert_eq!(context.variables.get("d").unwrap(), r#"{"id":1,"ok":true}"#);
}

#[test]
fn resolve_leaves_unknown_placeholders() {
    let mut context = ScriptContext::new();
    context.variables.insert("a".to_string(), "1".to_string());
    assert_eq!(context.resolve_variables("{{a}}-{{b}}"), "1-{{b}}");
}

#[test]
fn set_variable_overwrites_and_keeps_order() {
    let mut context = ScriptContext::new();
    context.variables.insert("a".to_string(), "1".to_string());
    context.variables.insert("b".to_string(), "2".to_string());
    context.variables.insert("a".to_string(), "3".to_string());
    assert_eq!(context.variables.len(), 2);
    assert_eq!(
        context.variables.pairs(),
        &vec![("a".to_string(), "3".to_string()), ("b".to_string(), "2".to_string())]
    );
}

#[test]
fn body_panic_check_reports_multibyte_cut() {
    let body: String = std::iter::repeat("é").take(60).collect();
    let response = make_response(200, &body);
    let script = Script { actions: vec![ScriptAction::AssertBody { contains: None, equals: Some("x".to_string()) }] };
    let context = ScriptContext::new();
    assert!(!ScriptEngine::post_response_panics(&script, &response, &context));
    let odd: String = format!("a{}", body);
    let response2 = make_response(200, &odd);
    assert!(ScriptEngine::post_response_panics(&script, &response2, &context));
}

#[test]
fn pre_request_stops_at_first_failure() {
    let script = Script {
        actions: vec![
            ScriptAction::SetHeader { key: "X-A".to_string(), value: "1".to_string() },
            ScriptAction::SetMethod { method: "FETCH".to_string() },
            ScriptAction::SetHeader { key: "X-B".to_string(), value: "2".to_string() },
            ScriptAction::Log { message: "never".to_string() },
        ],
    };
    let mut request = make_request();
    let mut context = ScriptContext::new();
    let r = ScriptEngine::execute_pre_request(&script, &mut request, &mut context);
    assert!(matches!(r, Err(AppError::Validation(_))));
    assert_eq!(request.headers, vec![("X-A".to_string(), "1".to_string())]);
    assert_eq!(request.method, HttpMethod::Get);
    assert!(context.logs.is_empty());
}

#[test]
fn post_response_failure_records_one_error_and_stops() {
    let script = Script {
        actions: vec![
            ScriptAction::Log { message: "before".to_string() },
            ScriptAction::AssertStatus { expected: 200 },
            ScriptAction::Log { message: "after".to_string() },
            ScriptAction::SetVariable { name: "v".to_string(), value: "x".to_string() },
        ],
    };
    let response = make_response(500, "{}");
    let mut context = ScriptContext::new();
    let r = ScriptEngine::execute_post_response(&script, &response, &mut context);
    assert!(matches!(r, Err(AppError::Validation(_))));
    assert_eq!(context.logs, vec!["before".to_string()]);
    assert_eq!(context.errors.len(), 1);
    assert!(context.variables.get("v").is_none());
}

#[test]
fn delay_changes_nothing() {
    let script = Script { actions: vec![ScriptAction::Delay { ms: 1_000_000 }] };
    let mut request = make_request();
    let mut context = ScriptContext::new();
    let start = std::time::Instant::now();
    ScriptEngine::execute_pre_request(&script, &mut request, &mut context).unwrap();
    ScriptEngine::execute_post_response(&script, &make_response(200, "{}"), &mut context).unwrap();
    assert!(start.elapsed().as_secs() < 5);
    assert!(request.headers.is_empty());
    assert!(context.logs.is_empty() && context.errors.is_empty());
}
