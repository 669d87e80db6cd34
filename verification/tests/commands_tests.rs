use roc_desk_http::http_desk_commands::{
    environment_variables, history_record, redact, redact_result, secret_values, tab_to_open, TabChoice,
};
use roc_desk_http::model::{EnvVar, EnvironmentDef, HttpExecuteResult, HttpWorkspaceTab, RequestDef};
use roc_desk_http::AppError;

fn var(key: &str, value: &str, secret: bool) -> EnvVar {
    EnvVar { key: key.into(), value: value.into(), secret, enabled: true }
}

#[test]
fn redact_masks_every_secret() {
    let secrets = vec!["abc123".to_string(), String::new(), "tok".to_string()];
    assert_eq!(redact("x=abc123&y=tok&z=abc123", &secrets), "x=***&y=***&z=***");
    assert_eq!(redact("nothing here", &secrets), "nothing here");
    assert_eq!(redact("abc", &[]), "abc");
}

#[test]
fn secret_values_skip_plain_and_empty() {
    let env = vec![var("a", "1", true), var("b", "2", false)];
    let coll = vec![var("c", "", true)];
    let global = vec![var("d", "4", true)];
    assert_eq!(secret_values(&env, &coll, &global), vec!["1".to_string(), "4".to_string()]);
}

#[test]
fn redacted_result_masks_url_body_and_headers() {
    let result = HttpExecuteResult {
        status: 200,
        status_text: "OK".into(),
        headers: vec![("set-cookie".into(), "sid=s3".into())],
        body: "token s3".into(),
        body_is_text: true,
        body_base64: None,
        duration_ms: 5,
        size_bytes: 8,
        resolved_url: "https://h/?k=s3".into(),
        truncated: false,
    };
    let r = redact_result(&result, &["s3".to_string()]);
    assert_eq!(r.body, "token ***");
    assert_eq!(r.resolved_url, "https://h/?k=***");
    assert_eq!(r.headers[0], ("set-cookie".to_string(), "sid=***".to_string()));
    assert_eq!(r.status, 200);
    assert_eq!(r.size_bytes, 8);
}

fn tab(request_id: &str) -> HttpWorkspaceTab {
    HttpWorkspaceTab {
        id: "t".into(),
        workspace_id: "w".into(),
        collection_slug: "c".into(),
        request_id: request_id.into(),
        title: "x".into(),
        sort_order: 0,
        updated_at: String::new(),
    }
}

#[test]
fn opening_a_request_reuses_its_tab() {
    let tabs = vec![tab("a"), tab("b"), tab("b")];
    assert!(matches!(tab_to_open(&tabs, "b"), TabChoice::Reuse(1)));
    assert!(matches!(tab_to_open(&tabs, "z"), TabChoice::Create { sort_order: 3 }));
    assert!(matches!(tab_to_open(&[].to_vec(), "z"), TabChoice::Create { sort_order: 0 }));
}

fn env(id: &str, value: &str) -> EnvironmentDef {
    let mut e = EnvironmentDef::new(id.into(), id.into());
    e.variables = vec![var("k", value, false)];
    e
}

#[test]
fn chosen_environment_gives_its_variables() {
    let envs = vec![env("dev", "1"), env("prod", "2"), env("prod", "3")];
    let vars = environment_variables(envs.clone(), Some("prod"));
    assert_eq!(vars.len(), 1);
    assert_eq!(vars[0].value, "2");
    assert!(environment_variables(envs.clone(), Some("none")).is_empty());
    assert!(environment_variables(envs.clone(), Some("")).is_empty());
    assert!(environment_variables(envs, None).is_empty());
}

fn sample_result() -> HttpExecuteResult {
    HttpExecuteResult {
        status: 201,
        status_text: "Created".into(),
        headers: vec![],
        body: "k=s3".into(),
        body_is_text: true,
        body_base64: None,
        duration_ms: 12,
        size_bytes: 4,
        resolved_url: "https://h/s3".into(),
        truncated: false,
    }
}

#[test]
fn history_of_a_response_keeps_status_and_masks_secrets() {
    let mut req = RequestDef::new("r1".into(), "n".into());
    req.url = "https://h/{{k}}".into();
    let outcome: Result<HttpExecuteResult, AppError> = Ok(sample_result());
    let (entry, snapshot) = history_record(
        "h1".into(),
        "w1".into(),
        "c".into(),
        &req,
        Some("dev".into()),
        &outcome,
        &["s3".to_string()],
        "2024-01-01T00:00:00Z".into(),
    );
    assert_eq!(entry.id, "h1");
    assert_eq!(entry.request_id, Some("r1".to_string()));
    assert_eq!(entry.environment_id, Some("dev".to_string()));
    assert_eq!(entry.method, "GET");
    assert_eq!(entry.url, "https://h/{{k}}");
    assert_eq!(entry.status_code, Some(201));
    assert_eq!(entry.duration_ms, Some(12));
    assert_eq!(entry.response_size_bytes, Some(4));
    assert_eq!(entry.error_message, None);
    let snap = snapshot.unwrap();
    assert_eq!(snap.body, "k=***");
    assert_eq!(snap.resolved_url, "https://h/***");
}

#[test]
fn history_of_an_error_keeps_the_masked_message() {
    let req = RequestDef::new(String::new(), "n".into());
    let outcome: Result<HttpExecuteResult, AppError> = Err(AppError::Internal("bad s3".into()));
    let (entry, snapshot) = history_record(
        "h2".into(),
        "w1".into(),
        "c".into(),
        &req,
        None,
        &outcome,
        &["s3".to_string()],
        "t".into(),
    );
    assert_eq!(entry.request_id, None);
    assert_eq!(entry.status_code, None);
    assert_eq!(entry.duration_ms, None);
    assert_eq!(entry.error_message, Some("bad ***".to_string()));
    assert!(snapshot.is_none());
}

#[test]
fn error_message_is_its_text() {
    assert_eq!(AppError::NotFound("gone".into()).message(), "gone");
    assert_eq!(AppError::Internal("bad".into()).message(), "bad");
}

#[test]
fn a_created_tab_is_reused_wherever_it_stands() {
    let tabs = vec![tab("a"), tab("b")];
    assert!(matches!(tab_to_open(&tabs, "n"), TabChoice::Create { sort_order: 2 }));
    let after = vec![tab("a"), tab("n"), tab("b")];
    assert!(matches!(tab_to_open(&after, "n"), TabChoice::Reuse(1)));
}
