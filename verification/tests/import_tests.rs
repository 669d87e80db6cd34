use roc_desk_http::import::{parse_curl, parse_openapi, parse_postman_collection};
use roc_desk_http::model::{AuthConfig, RequestBody};

#[test]
fn parses_simple_get() {
    let req = parse_curl("curl https://api.example.com/users").unwrap();
    assert_eq!(req.method, "GET");
    assert_eq!(req.url, "https://api.example.com/users");
}

#[test]
fn parses_post_with_json_body_and_headers() {
    let req = parse_curl(
        r#"curl -X POST https://api.example.com/users -H "Content-Type: application/json" -H "Authorization: Bearer abc" -d '{"name":"a"}'"#,
    )
    .unwrap();
    assert_eq!(req.method, "POST");
    assert_eq!(req.headers.len(), 2);
    match req.body {
        RequestBody::Json { content } => assert_eq!(content, r#"{"name":"a"}"#),
        _ => panic!("expected json body"),
    }
}

#[test]
fn parses_basic_auth() {
    let req = parse_curl("curl -u admin:secret https://api.example.com/ping").unwrap();
    match req.auth {
        AuthConfig::Basic { username, password } => {
            assert_eq!(username, "admin");
            assert_eq!(password, "secret");
        }
        _ => panic!("expected basic auth"),
    }
}

#[test]
fn parses_postman_collection_with_folder_and_query() {
    let json = r#"{
        "info": {"name": "示例集合", "description": "desc"},
        "item": [
            {
                "name": "用户模块",
                "item": [
                    {
                        "name": "获取用户",
                        "request": {
                            "method": "GET",
                            "header": [{"key": "X-Token", "value": "abc", "disabled": false}],
                            "url": {
                                "raw": "https://api.example.com/users?page=1",
                                "query": [{"key": "page", "value": "1", "disabled": false}]
                            },
                            "auth": {"type": "bearer", "bearer": [{"key": "token", "value": "{{token}}"}]}
                        }
                    }
                ]
            }
        ],
        "variable": [{"key": "base_url", "value": "https://api.example.com"}]
    }"#;
    let collection = parse_postman_collection(json).unwrap();
    assert_eq!(collection.name, "示例集合");
    assert_eq!(collection.variables.len(), 1);
    assert_eq!(collection.requests.len(), 1);
    let req = &collection.requests[0];
    assert_eq!(req.folder, vec!["用户模块".to_string()]);
    assert_eq!(req.url, "https://api.example.com/users");
    assert_eq!(req.params.len(), 1);
    assert_eq!(req.params[0].key, "page");
    assert_eq!(req.headers.len(), 1);
    match &req.auth {
        AuthConfig::Bearer { token } => assert_eq!(token, "{{token}}"),
        _ => panic!("expected bearer auth"),
    }
}

#[test]
fn parses_postman_json_body() {
    let json = r#"{
        "info": {"name": "c"},
        "item": [{
            "name": "创建",
            "request": {
                "method": "POST",
                "url": "https://api.example.com/users",
                "body": {"mode": "raw", "raw": "{\"name\":\"a\"}", "options": {"raw": {"language": "json"}}}
            }
        }]
    }"#;
    let collection = parse_postman_collection(json).unwrap();
    match &collection.requests[0].body {
        RequestBody::Json { content } => assert_eq!(content, r#"{"name":"a"}"#),
        _ => panic!("expected json body"),
    }
}

#[test]
fn rejects_postman_collection_without_requests() {
    let err = parse_postman_collection(r#"{"info": {"name": "空集合"}, "item": []}"#);
    assert!(err.is_err());
}

#[test]
fn parses_openapi_paths_into_requests() {
    let spec = r#"{
        "openapi": "3.0.0",
        "info": {"title": "示例 API", "description": "desc"},
        "servers": [{"url": "https://api.example.com"}],
        "paths": {
            "/users/{id}": {
                "get": {
                    "summary": "获取用户",
                    "tags": ["Users"],
                    "parameters": [
                        {"name": "id", "in": "path", "required": true},
                        {"name": "limit", "in": "query", "schema": {"default": "10"}}
                    ]
                },
                "post": {
                    "operationId": "createUser",
                    "requestBody": {
                        "content": {
                            "application/json": {"example": {"name": "a"}}
                        }
                    }
                }
            }
        }
    }"#;
    let collection = parse_openapi(spec).unwrap();
    assert_eq!(collection.name, "示例 API");
    assert_eq!(collection.requests.len(), 2);
    let get_req = collection.requests.iter().find(|r| r.method == "GET").unwrap();
    assert_eq!(get_req.url, "{{base_url}}/users/{{id}}");
    assert_eq!(get_req.folder, vec!["Users".to_string()]);
    assert_eq!(get_req.params.len(), 1);
    assert_eq!(get_req.params[0].key, "limit");
    assert!(collection.variables.iter().any(|v| v.key == "base_url"));
    assert!(collection.variables.iter().any(|v| v.key == "id"));
    let post_req = collection.requests.iter().find(|r| r.method == "POST").unwrap();
    match &post_req.body {
        RequestBody::Json { content } => assert!(content.contains("\"name\"")),
        _ => panic!("expected json body"),
    }
}

#[test]
fn rejects_non_openapi_input() {
    let err = parse_openapi(r#"{"foo": "bar"}"#);
    assert!(err.is_err());
}
