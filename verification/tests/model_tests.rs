use roc_desk_http::model::{
    default_method, default_raw_content_type, default_true, AuthConfig, EnvironmentDef, HttpCollectionMeta,
    KeyValueItem, RequestBody, RequestDef,
};

#[test]
fn field_defaults() {
    assert!(default_true());
    assert_eq!(default_method(), "GET");
    assert_eq!(default_raw_content_type(), "text/plain");
}

#[test]
fn default_values() {
    let row = KeyValueItem::default();
    assert!(row.key.is_empty() && row.value.is_empty() && !row.enabled);
    assert!(matches!(AuthConfig::default(), AuthConfig::NoAuth));
    assert!(matches!(RequestBody::default(), RequestBody::NoBody));
    let meta = HttpCollectionMeta::default();
    assert!(meta.name.is_empty() && meta.description.is_none() && meta.variables.is_empty());
    assert!(matches!(meta.auth, AuthConfig::NoAuth));
}

#[test]
fn new_request_and_environment() {
    let r = RequestDef::new("id1".into(), "name".into());
    assert_eq!(r.id, "id1");
    assert_eq!(r.name, "name");
    assert_eq!(r.method, "GET");
    assert!(r.url.is_empty() && r.params.is_empty() && r.headers.is_empty());
    assert!(matches!(r.auth, AuthConfig::NoAuth));
    assert!(matches!(r.body, RequestBody::NoBody));
    let e = EnvironmentDef::new("e".into(), "dev".into());
    assert_eq!(e.id, "e");
    assert_eq!(e.name, "dev");
    assert!(e.variables.is_empty());
}
