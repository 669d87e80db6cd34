use roc_desk_http::model::EnvVar;
use roc_desk_http::vars::{dynamic_value, interpolate, random_int_text, VarContext};

#[test]
fn resolves_layered_variables() {
    let env = vec![EnvVar {
        key: "base_url".into(),
        value: "https://dev.example.com".into(),
        secret: false,
        enabled: true,
    }];
    let collection = vec![EnvVar {
        key: "token".into(),
        value: "abc123".into(),
        secret: true,
        enabled: true,
    }];
    let ctx = VarContext {
        environment: &env,
        collection: &collection,
        global: &[],
    };
    let out = interpolate("{{base_url}}/users?token={{token}}", &ctx);
    assert_eq!(out, "https://dev.example.com/users?token=abc123");
}

#[test]
fn leaves_unknown_variables_untouched() {
    let ctx = VarContext {
        environment: &[],
        collection: &[],
        global: &[],
    };
    assert_eq!(interpolate("{{missing}}", &ctx), "{{missing}}");
}

#[test]
fn dynamic_uuid_is_replaced() {
    let ctx = VarContext {
        environment: &[],
        collection: &[],
        global: &[],
    };
    let out = interpolate("{{$uuid}}", &ctx);
    assert!(uuid::Uuid::parse_str(&out).is_ok());
}

fn var(key: &str, value: &str, secret: bool, enabled: bool) -> EnvVar {
    EnvVar { key: key.into(), value: value.into(), secret, enabled }
}

#[test]
fn environment_wins_over_collection_and_global() {
    let env = vec![var("host", "env", false, true)];
    let coll = vec![var("host", "coll", false, true), var("only_coll", "c", false, true)];
    let global = vec![var("host", "global", false, true), var("only_global", "g", false, true)];
    let ctx = VarContext { environment: &env, collection: &coll, global: &global };
    assert_eq!(ctx.resolve("host"), Some("env".to_string()));
    assert_eq!(ctx.resolve("only_coll"), Some("c".to_string()));
    assert_eq!(ctx.resolve("only_global"), Some("g".to_string()));
    assert_eq!(ctx.resolve("nothing"), None);
}

#[test]
fn disabled_variables_are_skipped() {
    let env = vec![var("host", "env", false, false)];
    let coll = vec![var("host", "coll", false, true)];
    let ctx = VarContext { environment: &env, collection: &coll, global: &[] };
    assert_eq!(ctx.resolve("host"), Some("coll".to_string()));
    let off = vec![var("x", "1", false, false)];
    let ctx2 = VarContext { environment: &off, collection: &[], global: &[] };
    assert_eq!(ctx2.resolve("x"), None);
    assert_eq!(interpolate("{{x}}", &ctx2), "{{x}}");
}

#[test]
fn secret_variables_interpolate_their_real_value() {
    let env = vec![var("token", "s3cr3t", true, true)];
    let ctx = VarContext { environment: &env, collection: &[], global: &[] };
    assert_eq!(interpolate("Bearer {{ token }}", &ctx), "Bearer s3cr3t");
}

#[test]
fn secret_keys_lists_each_secret_key_once() {
    let env = vec![var("a", "1", true, true), var("b", "2", false, true)];
    let coll = vec![var("a", "3", true, false), var("c", "4", true, true)];
    let ctx = VarContext { environment: &env, collection: &coll, global: &[] };
    let mut keys = ctx.secret_keys();
    keys.sort();
    assert_eq!(keys, vec!["a", "c"]);
}

#[test]
fn unclosed_and_unknown_placeholders_stay() {
    let ctx = VarContext { environment: &[], collection: &[], global: &[] };
    assert_eq!(interpolate("a {{b", &ctx), "a {{b");
    assert_eq!(interpolate("{{ x }} and {{y}}}", &ctx), "{{ x }} and {{y}}}");
    assert_eq!(interpolate("plain text", &ctx), "plain text");
}

#[test]
fn placeholder_ends_at_first_closing_braces() {
    let env = vec![var("a", "A", false, true)];
    let ctx = VarContext { environment: &env, collection: &[], global: &[] };
    assert_eq!(interpolate("{{a}}}", &ctx), "A}");
    assert_eq!(interpolate("{{{a}}", &ctx), "{{{a}}");
}

#[test]
fn dynamic_values_have_their_shapes() {
    let ctx = VarContext { environment: &[], collection: &[], global: &[] };
    let t = interpolate("{{$timestamp}}", &ctx);
    assert!(t.parse::<i64>().is_ok());
    let n = interpolate("{{$randomInt}}", &ctx);
    assert!(n.parse::<u32>().unwrap() < 100000);
    let g = interpolate("{{$guid}}", &ctx);
    assert_eq!(g.len(), 36);
    let iso = interpolate("{{$isoTimestamp}}", &ctx);
    assert!(iso.contains('T'));
    assert_eq!(interpolate("{{$nope}}", &ctx), "{{$nope}}");
}

#[test]
fn dynamic_value_names() {
    assert!(dynamic_value("$uuid").is_some());
    assert!(dynamic_value("$timestamp").is_some());
    assert!(dynamic_value("uuid").is_none());
}

#[test]
fn dynamic_values_follow_their_formats() {
    let u = dynamic_value("$uuid").unwrap();
    assert_eq!(u.len(), 36);
    assert_eq!(&u[14..15], "4");
    assert!(matches!(&u[19..20], "8" | "9" | "a" | "b"));
    let t = dynamic_value("$isoTimestamp").unwrap();
    assert!(t.ends_with("+00:00"), "{t}");
    assert_eq!(&t[4..5], "-");
    assert_eq!(&t[10..11], "T");
}

#[test]
fn random_int_is_the_clock_reading_modulo_100000() {
    assert_eq!(random_int_text(0), "0");
    assert_eq!(random_int_text(123_456_789), "56789");
    assert_eq!(random_int_text(100_000), "0");
    assert_eq!(random_int_text(99_999), "99999");
}
