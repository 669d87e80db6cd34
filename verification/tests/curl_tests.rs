use roc_desk_http::import::curl::tokenize;
use roc_desk_http::import::parse_curl;
use roc_desk_http::model::{AuthConfig, RequestBody};
use roc_desk_http::AppError;

#[test]
fn tokenizer_handles_quotes_and_escapes() {
    assert_eq!(tokenize("  a  'b c'  \"d\\\"e\" f\\ g "), vec!["a", "b c", "d\"e", "f g"]);
    assert_eq!(tokenize("curl \\\n  -v"), vec!["curl", "-v"]);
    assert_eq!(tokenize("''"), vec![""]);
    assert_eq!(tokenize("\"a\\nb\""), vec!["a\\nb"]);
    assert!(tokenize("   ").is_empty());
}

#[test]
fn multi_line_command_with_data_is_a_post() {
    let req = parse_curl("curl 'https://x.test/a' \\\n  -H 'Accept: */*' \\\n  --data-raw 'a=1' -d b=2").unwrap();
    assert_eq!(req.method, "POST");
    assert_eq!(req.url, "https://x.test/a");
    assert_eq!(req.headers.len(), 1);
    assert_eq!(req.headers[0].key, "Accept");
    assert_eq!(req.headers[0].value, "*/*");
    match req.body {
        RequestBody::Raw { content, content_type } => {
            assert_eq!(content, "a=1&b=2");
            assert_eq!(content_type, "application/x-www-form-urlencoded");
        }
        _ => panic!("expected raw body"),
    }
    assert!(req.id.is_empty());
    assert_eq!(req.name, "导入的请求");
}

#[test]
fn cookies_agents_and_lowercase_methods() {
    let req = parse_curl("curl -X patch -b 'k=v' -A agent/1 --compressed -k http://h/p").unwrap();
    assert_eq!(req.method, "PATCH");
    assert_eq!(req.url, "http://h/p");
    assert_eq!(req.headers[0].key, "Cookie");
    assert_eq!(req.headers[0].value, "k=v");
    assert_eq!(req.headers[1].key, "User-Agent");
    assert!(matches!(req.body, RequestBody::NoBody));
    assert!(matches!(req.auth, AuthConfig::NoAuth));
}

#[test]
fn unknown_flags_swallow_their_value() {
    let req = parse_curl("curl --max-time 5 https://h/ -o out.txt").unwrap();
    assert_eq!(req.url, "https://h/");
    let req2 = parse_curl("curl --http2 -v https://h/").unwrap();
    assert_eq!(req2.url, "https://h/");
}

#[test]
fn json_is_detected_from_data_or_header() {
    let req = parse_curl("curl https://h -d ' [1]'").unwrap();
    assert!(matches!(req.body, RequestBody::Json { .. }));
    let req2 = parse_curl("curl https://h -H 'content-TYPE: text/json' -d 'x'").unwrap();
    assert!(matches!(req2.body, RequestBody::Json { .. }));
    let req3 = parse_curl("curl https://h -H 'X: json' -d 'x'").unwrap();
    assert!(matches!(req3.body, RequestBody::Raw { .. }));
}

#[test]
fn user_without_password_and_header_without_colon() {
    let req = parse_curl("curl -u admin -H nocolon https://h").unwrap();
    match req.auth {
        AuthConfig::Basic { username, password } => {
            assert_eq!(username, "admin");
            assert_eq!(password, "");
        }
        _ => panic!("expected basic auth"),
    }
    assert!(req.headers.is_empty());
}

#[test]
fn command_without_url_is_refused() {
    match parse_curl("curl -X GET") {
        Err(AppError::Internal(m)) => assert_eq!(m, "未能从 curl 命令中解析出 URL"),
        _ => panic!("expected an error"),
    }
    assert!(parse_curl("").is_err());
}

#[test]
fn only_the_first_url_counts() {
    let req = parse_curl("https://a https://b").unwrap();
    assert_eq!(req.url, "https://a");
    assert_eq!(req.method, "GET");
}

#[test]
fn plain_command_lines_split_at_white_space() {
    let line = "  curl\t-X  POST\nhttp://h/a?b=c   -H X:1 ";
    let expected: Vec<String> = line.split_whitespace().map(String::from).collect();
    assert_eq!(tokenize(line), expected);
    assert!(tokenize(" \u{3000} ").is_empty());
}
