use roc_desk_http::client::{
    check_plan, default_content_type, plan_request, prepare_request, preview_response, resolve_method,
    PlannedBody, RequestPlan, MAX_PREVIEW_BYTES,
};
use roc_desk_http::model::{ApiKeyLocation, AuthConfig, EnvVar, KeyValueItem, RequestBody, RequestDef};
use roc_desk_http::vars::VarContext;
use roc_desk_http::AppError;

fn row(k: &str, v: &str, enabled: bool) -> KeyValueItem {
    KeyValueItem { key: k.into(), value: v.into(), enabled }
}

#[test]
fn default_content_types() {
    assert_eq!(default_content_type(&RequestBody::Json { content: String::new() }), Some("application/json"));
    assert_eq!(
        default_content_type(&RequestBody::FormUrlEncoded { items: vec![] }),
        Some("application/x-www-form-urlencoded")
    );
    assert_eq!(default_content_type(&RequestBody::NoBody), None);
    assert_eq!(default_content_type(&RequestBody::FormData { items: vec![] }), None);
}

#[test]
fn plan_interpolates_every_part() {
    let env = vec![EnvVar { key: "host".into(), value: "api.test".into(), secret: false, enabled: true }];
    let ctx = VarContext { environment: &env, collection: &[], global: &[] };
    let mut req = RequestDef::new("id".into(), "n".into());
    req.method = "post".into();
    req.url = "{{host}}/v1".into();
    req.params = vec![row("q", "{{host}}", true), row("off", "x", false), row("", "empty key", true)];
    req.headers = vec![row("X-Host", "{{host}}", true)];
    req.auth = AuthConfig::Basic { username: "admin".into(), password: "secret".into() };
    req.body = RequestBody::Json { content: "{\"h\":\"{{host}}\"}".into() };
    assert_eq!(resolve_method(&req, &ctx), "POST");
    let plan = plan_request(&req, &ctx).unwrap();
    assert_eq!(plan.url, "https://api.test/v1");
    assert_eq!(plan.query, vec![("q".to_string(), "api.test".to_string())]);
    assert_eq!(
        plan.headers,
        vec![
            ("X-Host".to_string(), "api.test".to_string()),
            ("authorization".to_string(), "Basic YWRtaW46c2VjcmV0".to_string())
        ]
    );
    assert_eq!(plan.content_type, Some("application/json".to_string()));
    match plan.body {
        PlannedBody::Text(t) => assert_eq!(t, "{\"h\":\"api.test\"}"),
        _ => panic!("expected text"),
    }
}

#[test]
fn plan_keeps_explicit_content_type_and_api_keys() {
    let ctx = VarContext { environment: &[], collection: &[], global: &[] };
    let mut req = RequestDef::new(String::new(), String::new());
    req.url = "http://h".into();
    req.headers = vec![row("CONTENT-type", "text/xml", true)];
    req.auth = AuthConfig::ApiKey { key: "k".into(), value: "v".into(), add_to: ApiKeyLocation::Query };
    req.body = RequestBody::Raw { content: "<a/>".into(), content_type: "text/plain".into() };
    let plan = plan_request(&req, &ctx).unwrap();
    assert_eq!(plan.url, "http://h");
    assert_eq!(plan.query, vec![("k".to_string(), "v".to_string())]);
    assert_eq!(plan.content_type, None);
    req.headers.clear();
    let plan2 = plan_request(&req, &ctx).unwrap();
    assert_eq!(plan2.content_type, Some("text/plain".to_string()));
    req.auth = AuthConfig::Bearer { token: "t".into() };
    req.body = RequestBody::FormData { items: vec![row("f", "1", true)] };
    let plan3 = plan_request(&req, &ctx).unwrap();
    assert_eq!(plan3.headers, vec![("authorization".to_string(), "Bearer t".to_string())]);
    assert_eq!(plan3.content_type, None);
    match plan3.body {
        PlannedBody::Multipart(f) => assert_eq!(f, vec![("f".to_string(), "1".to_string())]),
        _ => panic!("expected multipart"),
    }
}

#[test]
fn blank_url_is_refused() {
    let ctx = VarContext { environment: &[], collection: &[], global: &[] };
    let mut req = RequestDef::new(String::new(), String::new());
    req.url = "  ".into();
    match plan_request(&req, &ctx) {
        Err(AppError::Internal(m)) => assert_eq!(m, "请求 URL 不能为空"),
        _ => panic!("expected an error"),
    }
}

#[test]
fn base64_of_all_tail_lengths() {
    let ctx = VarContext { environment: &[], collection: &[], global: &[] };
    let mut req = RequestDef::new(String::new(), String::new());
    req.url = "h".into();
    for (user, expected) in [("", "Og=="), ("a", "YTo="), ("ab", "YWI6"), ("abc", "YWJjOg==")] {
        req.auth = AuthConfig::Basic { username: user.into(), password: String::new() };
        let plan = plan_request(&req, &ctx).unwrap();
        assert_eq!(plan.headers[0].1, format!("Basic {expected}"));
    }
}

#[test]
fn preview_of_text_binary_and_large_bodies() {
    let p = preview_response("héllo".as_bytes());
    assert!(p.body_is_text);
    assert_eq!(p.body, "héllo");
    assert_eq!(p.size_bytes, 6);
    assert!(!p.truncated);
    assert!(p.body_base64.is_none());

    let b = preview_response(&[0xff, 0x00, 0x41]);
    assert!(!b.body_is_text);
    assert_eq!(b.body, "");
    assert_eq!(b.body_base64, Some("/wBB".to_string()));

    let big = vec![b'a'; MAX_PREVIEW_BYTES + 3];
    let l = preview_response(&big);
    assert!(l.truncated);
    assert_eq!(l.size_bytes, (MAX_PREVIEW_BYTES + 3) as u64);
    assert_eq!(l.body.len(), MAX_PREVIEW_BYTES);
}

fn prepare_err(req: &RequestDef) -> String {
    let ctx = VarContext { environment: &[], collection: &[], global: &[] };
    match prepare_request(req, &ctx) {
        Err(AppError::Internal(m)) => m,
        _ => panic!("expected an error"),
    }
}

#[test]
fn prepared_request_has_the_resolved_url() {
    let env = vec![EnvVar { key: "id".into(), value: "7".into(), secret: false, enabled: true }];
    let ctx = VarContext { environment: &env, collection: &[], global: &[] };
    let mut req = RequestDef::new(String::new(), String::new());
    req.method = "delete".into();
    req.url = "api.test/items/{{id}}".into();
    req.params = vec![row("q", "a b&c", true)];
    req.headers = vec![row("Accept", "*/*", true)];
    req.auth = AuthConfig::ApiKey { key: "key".into(), value: "{{id}}".into(), add_to: ApiKeyLocation::Query };
    let p = prepare_request(&req, &ctx).unwrap();
    assert_eq!(p.method, "DELETE");
    assert_eq!(p.url, "https://api.test/items/7?q=a+b%26c&key=7");
    assert_eq!(p.headers, vec![("Accept".to_string(), "*/*".to_string())]);
    assert_eq!(p.content_type, None);
    req.params.clear();
    req.auth = AuthConfig::NoAuth;
    let q = prepare_request(&req, &ctx).unwrap();
    assert_eq!(q.url, "https://api.test/items/7?");
}

#[test]
fn prepare_refuses_in_order() {
    let mut req = RequestDef::new(String::new(), String::new());
    req.method = "GE T".into();
    req.url = " ".into();
    assert_eq!(prepare_err(&req), "非法的 HTTP 方法: GE T");
    req.method = "get".into();
    assert_eq!(prepare_err(&req), "请求 URL 不能为空");
    req.url = "http://[::1".into();
    assert!(prepare_err(&req).starts_with("URL 解析失败: "));
    req.url = "http://h".into();
    req.headers = vec![row("bad name", "v", true)];
    req.auth = AuthConfig::Bearer { token: "x\ny".into() };
    assert_eq!(prepare_err(&req), "非法的请求头名: invalid HTTP header name");
    req.headers = vec![row("X-A", "line\nbreak", true)];
    assert_eq!(prepare_err(&req), "非法的请求头值: failed to parse header value");
    req.headers = vec![row("X-A", "tab\tand é", true)];
    assert_eq!(prepare_err(&req), "failed to parse header value");
    req.auth = AuthConfig::ApiKey { key: "bad key".into(), value: "v".into(), add_to: ApiKeyLocation::Header };
    assert_eq!(prepare_err(&req), "invalid HTTP header name");
}

#[test]
fn checked_plan_drops_an_invalid_content_type() {
    let plan = RequestPlan {
        url: "http://h/p".into(),
        query: vec![],
        headers: vec![],
        content_type: Some("text/\u{1}".into()),
        body: PlannedBody::Empty,
    };
    let p = check_plan("PUT".into(), plan, 0).unwrap();
    assert_eq!(p.url, "http://h/p?");
    assert_eq!(p.content_type, None);
}
