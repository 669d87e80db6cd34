use roc_desk_http::import::{parse_openapi, parse_postman_collection};
use roc_desk_http::model::{ApiKeyLocation, AuthConfig, RequestBody};
use roc_desk_http::AppError;

#[test]
fn postman_bodies_auth_and_string_urls() {
    let json = r#"{
        "info": {"name": "  ", "description": {"content": "  "}},
        "item": [
            {"name": "f", "request": {
                "url": "https://h/p?a=1&&b",
                "auth": {"type": "apikey", "apikey": [
                    {"key": "key", "value": "X-K"}, {"key": "value", "value": "v"}, {"key": "in", "value": "query"}]},
                "body": {"mode": "formdata", "formdata": [
                    {"key": "file", "type": "file", "src": "/tmp/x"},
                    {"key": "t", "value": "1", "disabled": true},
                    {"value": "no key"}]}
            }},
            {"request": {"method": "put", "url": {"raw": "https://h/q"},
                "body": {"mode": "graphql", "graphql": {"query": "{ me }"}},
                "auth": {"type": "oauth2"}}},
            {"name": "ignored, neither folder nor request"}
        ]
    }"#;
    let c = parse_postman_collection(json).unwrap();
    assert_eq!(c.name, "导入的集合");
    assert!(c.description.is_none());
    assert!(c.variables.is_empty());
    assert_eq!(c.requests.len(), 2);
    let r0 = &c.requests[0];
    assert_eq!(r0.method, "GET");
    assert_eq!(r0.url, "https://h/p");
    let keys: Vec<&str> = r0.params.iter().map(|p| p.key.as_str()).collect();
    assert_eq!(keys, vec!["a", "b"]);
    assert_eq!(r0.params[1].value, "");
    match &r0.auth {
        AuthConfig::ApiKey { key, value, add_to } => {
            assert_eq!(key, "X-K");
            assert_eq!(value, "v");
            assert_eq!(*add_to, ApiKeyLocation::Query);
        }
        _ => panic!("expected api key"),
    }
    match &r0.body {
        RequestBody::FormData { items } => {
            assert_eq!(items.len(), 2);
            assert_eq!(items[0].key, "file");
            assert!(!items[0].enabled);
            assert_eq!(items[0].value, "(文件字段，需要重新选择文件)");
            assert!(!items[1].enabled);
        }
        _ => panic!("expected form data"),
    }
    let r1 = &c.requests[1];
    assert_eq!(r1.name, "未命名");
    assert_eq!(r1.method, "PUT");
    assert!(matches!(r1.auth, AuthConfig::NoAuth));
    match &r1.body {
        RequestBody::Raw { content, content_type } => {
            assert_eq!(content, "{ me }");
            assert_eq!(content_type, "application/json");
        }
        _ => panic!("expected raw"),
    }
}

#[test]
fn postman_nested_folders_give_paths() {
    let json = r#"{"item": [{"name": "A", "item": [{"name": "B", "item": [
        {"name": "r", "request": {"url": "u", "body": {"mode": "raw", "raw": "<a/>",
            "options": {"raw": {"language": "xml"}}}}}]}]}]}"#;
    let c = parse_postman_collection(json).unwrap();
    assert_eq!(c.requests[0].folder, vec!["A".to_string(), "B".to_string()]);
    match &c.requests[0].body {
        RequestBody::Raw { content_type, .. } => assert_eq!(content_type, "application/xml"),
        _ => panic!("expected raw"),
    }
}

#[test]
fn postman_refuses_text_that_is_not_json() {
    match parse_postman_collection("{not json") {
        Err(AppError::Internal(m)) => assert!(m.starts_with("Postman 集合 JSON 解析失败：")),
        _ => panic!("expected an error"),
    }
}

#[test]
fn openapi_from_yaml_with_security_and_forms() {
    let yaml = r#"
swagger: "2.0"
info:
  title: Pets
paths:
  /pets:
    parameters:
      - name: X-Trace
        in: header
        example: 7
    post:
      tags: [Pets, Other]
      requestBody:
        content:
          application/x-www-form-urlencoded:
            schema:
              properties:
                name: {type: string}
                age: {type: integer}
      security:
        - key: []
  /pets/{id}/{id}:
    delete:
      parameters:
        - {name: id, in: path}
        - {name: id, in: path}
components:
  securitySchemes:
    key: {type: apiKey, name: X-Api, in: query}
security:
  - basicAuth: []
"#;
    let c = parse_openapi(yaml).unwrap();
    assert_eq!(c.name, "Pets");
    assert_eq!(c.variables[0].key, "base_url");
    assert_eq!(c.variables[0].value, "");
    assert_eq!(c.variables.len(), 2);
    assert_eq!(c.variables[1].key, "id");
    let post = c.requests.iter().find(|r| r.method == "POST").unwrap();
    assert_eq!(post.name, "POST /pets");
    assert_eq!(post.folder, vec!["Pets".to_string()]);
    assert_eq!(post.headers.len(), 1);
    assert_eq!(post.headers[0].key, "X-Trace");
    assert_eq!(post.headers[0].value, "7");
    match &post.auth {
        AuthConfig::ApiKey { key, add_to, .. } => {
            assert_eq!(key, "X-Api");
            assert_eq!(*add_to, ApiKeyLocation::Query);
        }
        _ => panic!("expected api key"),
    }
    match &post.body {
        RequestBody::FormUrlEncoded { items } => {
            let keys: Vec<&str> = items.iter().map(|i| i.key.as_str()).collect();
            assert_eq!(keys, vec!["age", "name"]);
        }
        _ => panic!("expected form"),
    }
    let del = c.requests.iter().find(|r| r.method == "DELETE").unwrap();
    assert_eq!(del.url, "{{base_url}}/pets/{{id}}/{{id}}");
    assert!(matches!(del.auth, AuthConfig::NoAuth));
    assert!(matches!(del.body, RequestBody::NoBody));
}

#[test]
fn openapi_refusals_have_their_messages() {
    match parse_openapi("openapi: 3.0.0\npaths: {}\n") {
        Err(AppError::Internal(m)) => assert_eq!(m, "未从 paths 下解析出任何请求"),
        _ => panic!("expected an error"),
    }
    match parse_openapi("info: {}\n") {
        Err(AppError::Internal(m)) => assert!(m.starts_with("未识别到 openapi/swagger 版本字段")),
        _ => panic!("expected an error"),
    }
    match parse_openapi("a: [1, 2\n") {
        Err(AppError::Internal(m)) => assert!(m.starts_with("解析失败")),
        _ => panic!("expected an error"),
    }
}

#[test]
fn openapi_json_body_without_example_is_an_empty_object() {
    let spec = r#"{"openapi": "3.1.0", "paths": {"/a": {"put": {"summary": "s",
        "requestBody": {"content": {"application/json": {"examples": {"one": {"value": [1]}}}}}},
        "get": {"requestBody": {"content": {"application/json": {}}}}}}}"#;
    let c = parse_openapi(spec).unwrap();
    let get = c.requests.iter().find(|r| r.method == "GET").unwrap();
    match &get.body {
        RequestBody::Json { content } => assert_eq!(content, "{}"),
        _ => panic!("expected json"),
    }
    let put = c.requests.iter().find(|r| r.method == "PUT").unwrap();
    match &put.body {
        RequestBody::Json { content } => assert_eq!(content, "[\n  1\n]"),
        _ => panic!("expected json"),
    }
    assert_eq!(c.name, "导入的 OpenAPI 集合");
}

#[test]
fn openapi_other_media_types_give_an_empty_json_placeholder() {
    let spec = r#"{"openapi": "3.0.0", "paths": {"/t": {"post": {
        "requestBody": {"content": {"text/plain": {"schema": {"type": "string"}}}}},
        "get": {}}}}"#;
    let c = parse_openapi(spec).unwrap();
    let post = c.requests.iter().find(|r| r.method == "POST").unwrap();
    match &post.body {
        RequestBody::Json { content } => assert_eq!(content, "{}"),
        _ => panic!("expected json"),
    }
    let get = c.requests.iter().find(|r| r.method == "GET").unwrap();
    assert!(matches!(get.body, RequestBody::NoBody));
}

#[test]
fn openapi_yaml_without_json_form_is_refused_as_such() {
    match parse_openapi("? [1, 2]\n: x\n") {
        Err(AppError::Internal(m)) => assert!(m.starts_with("转换失败："), "{m}"),
        _ => panic!("expected an error"),
    }
}
