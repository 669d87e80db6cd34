//! Importing an OpenAPI 3.x (or Swagger) document, in JSON or YAML.
use vstd::prelude::*;

use super::curl::row;
use super::imported::{
    request_views, ImportedCollection, ImportedCollectionView, ImportedRequest, ImportedRequestView,
};
use super::json::{
    array_of, as_array, as_object, as_str, field, field_of, get, get_of, json_compact_text,
    json_pretty_text, object_of, opt_ref, parse_yaml_json, str_of, str_or_empty, text_or_empty,
    to_compact_text, to_pretty_text, yaml_json_document, yaml_parses, JsonValue, YamlJsonError,
};
use super::postman::{opt_string, value_to_text, value_to_text_spec};
use crate::error::AppError;
use crate::http_desk::model::{
    kv_views, text_views, var_views, ApiKeyLocation, AuthConfig, AuthView, BodyView, EnvVar,
    EnvVarView, KeyValueItem, KeyValueView, RequestBody,
};
use crate::text::{
    concat, replace_char, replace_char_of, text_eq, to_uppercase, trim, trim_of, unicode_uppercase,
};

verus! {

// ---------------------------------------------------------------------
// Specification
// ---------------------------------------------------------------------

/// The HTTP methods looked for under each path, in this order.
pub open spec fn openapi_methods() -> Seq<Seq<char>> {
    seq!["get"@, "post"@, "put"@, "delete"@, "patch"@, "head"@, "options"@]
}

/// The draft value of a parameter: `schema.default`, else `example`; a
/// string as it is, any other value as compact JSON; else empty.
pub open spec fn param_default(p: JsonValue) -> Seq<char> {
    let d = match field_of(field(p, "schema"@), "default"@) {
        Some(v) => Some(v),
        None => field(p, "example"@),
    };
    match d {
        Some(v) => match str_of(Some(v)) {
            Some(s) => s,
            None => json_compact_text(v),
        },
        None => seq![],
    }
}

/// Parameters sorted by `in`: query rows, header rows, and the names of the
/// path parameters (which stay in the URL as `{{name}}`). Parameters without
/// a string name, or in another place, are dropped.
pub open spec fn split_params(ps: Seq<JsonValue>) -> (Seq<KeyValueView>, Seq<KeyValueView>, Seq<Seq<char>>)
    decreases ps.len(),
{
    if ps.len() == 0 {
        (seq![], seq![], seq![])
    } else {
        let prev = split_params(ps.drop_last());
        let p = ps.last();
        match str_of(field(p, "name"@)) {
            None => prev,
            Some(name) => {
                let loc = str_of(field(p, "in"@));
                if loc == Some("query"@) {
                    (prev.0.push(row(name, param_default(p))), prev.1, prev.2)
                } else if loc == Some("header"@) {
                    (prev.0, prev.1.push(row(name, param_default(p))), prev.2)
                } else if loc == Some("path"@) {
                    (prev.0, prev.1, prev.2.push(name))
                } else {
                    prev
                }
            },
        }
    }
}

/// The example of a media type: `example`, else the `value` of the first of
/// `examples`, as indented JSON; else empty.
pub open spec fn example_of(media: JsonValue) -> Seq<char> {
    match field(media, "example"@) {
        Some(ex) => json_pretty_text(ex),
        None => match object_of(field(media, "examples"@)) {
            Some(es) => if es.len() > 0 {
                match field(es[0].1, "value"@) {
                    Some(v) => json_pretty_text(v),
                    None => seq![],
                }
            } else {
                seq![]
            },
            None => seq![],
        },
    }
}

/// Rows named after the members of an object, with empty values.
pub open spec fn property_rows(es: Seq<(String, JsonValue)>) -> Seq<KeyValueView>
    decreases es.len(),
{
    if es.len() == 0 {
        seq![]
    } else {
        property_rows(es.drop_last()).push(row(es.last().0@, seq![]))
    }
}

/// The draft body of a `requestBody`: JSON first (its example, or `{}`),
/// then a urlencoded form with one row per schema property; any other media
/// type gives an empty JSON placeholder `{}`. Without `content`, no body.
pub open spec fn openapi_body(rb: Option<JsonValue>) -> BodyView {
    match field_of(rb, "content"@) {
        None => BodyView::NoBody,
        Some(content) => match field(content, "application/json"@) {
            Some(jm) => {
                let ex = example_of(jm);
                BodyView::Json {
                    content: if ex.len() == 0 {
                        "{}"@
                    } else {
                        ex
                    },
                }
            },
            None => match field(content, "application/x-www-form-urlencoded"@) {
                Some(fm) => BodyView::FormUrlEncoded {
                    items: match object_of(field_of(field(fm, "schema"@), "properties"@)) {
                        Some(es) => property_rows(es),
                        None => seq![],
                    },
                },
                None => BodyView::Json { content: "{}"@ },
            },
        },
    }
}

/// The authentication of an operation: the kind of the scheme that the first
/// `security` requirement names, with every credential left empty.
pub open spec fn openapi_auth_spec(security: Option<JsonValue>, schemes: Option<JsonValue>) -> AuthView {
    match array_of(security) {
        Some(arr) => if arr.len() > 0 {
            match object_of(Some(arr[0])) {
                Some(es) => if es.len() > 0 {
                    match field_of(schemes, es[0].0@) {
                        Some(scheme) => {
                            let t = str_of(field(scheme, "type"@));
                            let sc = str_of(field(scheme, "scheme"@));
                            if t == Some("http"@) && sc == Some("bearer"@) {
                                AuthView::Bearer { token: seq![] }
                            } else if t == Some("http"@) && sc == Some("basic"@) {
                                AuthView::Basic { username: seq![], password: seq![] }
                            } else if t == Some("apiKey"@) {
                                AuthView::ApiKey {
                                    key: text_or_empty(str_of(field(scheme, "name"@))),
                                    value: seq![],
                                    add_to: if str_of(field(scheme, "in"@)) == Some("query"@) {
                                        ApiKeyLocation::Query
                                    } else {
                                        ApiKeyLocation::Header
                                    },
                                }
                            } else {
                                AuthView::NoAuth
                            }
                        },
                        None => AuthView::NoAuth,
                    }
                } else {
                    AuthView::NoAuth
                },
                None => AuthView::NoAuth,
            }
        } else {
            AuthView::NoAuth
        },
        None => AuthView::NoAuth,
    }
}

/// The name of an operation: its summary, else its operationId, else
/// `METHOD path`.
pub open spec fn op_name(op: JsonValue, method: Seq<char>, path: Seq<char>) -> Seq<char> {
    match str_of(field(op, "summary"@)) {
        Some(s) => s,
        None => match str_of(field(op, "operationId"@)) {
            Some(s) => s,
            None => unicode_uppercase(method) + " "@ + path,
        },
    }
}

/// The folder of an operation: its first tag, if that is a string.
pub open spec fn op_folder(op: JsonValue) -> Seq<Seq<char>> {
    match array_of(field(op, "tags"@)) {
        Some(a) => if a.len() > 0 {
            match str_of(Some(a[0])) {
                Some(t) => seq![t],
                None => seq![],
            }
        } else {
            seq![]
        },
        None => seq![],
    }
}

/// A path with its `{name}` parameters written as `{{name}}`.
pub open spec fn templated_path(path: Seq<char>) -> Seq<char> {
    replace_char_of(replace_char_of(path, '{', "{{"@), '}', "}}"@)
}

/// The parameters of an operation: those of its path, then its own.
pub open spec fn op_params(item: JsonValue, op: JsonValue) -> Seq<JsonValue> {
    (match array_of(field(item, "parameters"@)) {
        Some(a) => a,
        None => seq![],
    }) + match array_of(field(op, "parameters"@)) {
        Some(a) => a,
        None => seq![],
    }
}

/// The draft of one operation.
pub open spec fn op_request(
    path: Seq<char>,
    item: JsonValue,
    method: Seq<char>,
    op: JsonValue,
    root_security: Option<JsonValue>,
    schemes: Option<JsonValue>,
) -> ImportedRequestView {
    let sp = split_params(op_params(item, op));
    ImportedRequestView {
        name: op_name(op, method, path),
        method: unicode_uppercase(method),
        url: "{{base_url}}"@ + templated_path(path),
        params: sp.0,
        headers: sp.1,
        auth: openapi_auth_spec(
            match field(op, "security"@) {
                Some(s) => Some(s),
                None => root_security,
            },
            schemes,
        ),
        body: openapi_body(field(op, "requestBody"@)),
        folder: op_folder(op),
    }
}

/// `names` with each of `more` added unless already there.
pub open spec fn add_names(names: Seq<Seq<char>>, more: Seq<Seq<char>>) -> Seq<Seq<char>>
    decreases more.len(),
{
    if more.len() == 0 {
        names
    } else {
        let prev = add_names(names, more.drop_last());
        if prev.contains(more.last()) {
            prev
        } else {
            prev.push(more.last())
        }
    }
}

/// The drafts made so far and the path parameter names met so far.
pub struct OpenApiScan {
    pub requests: Seq<ImportedRequestView>,
    pub names: Seq<Seq<char>>,
}

/// Path parameter names are collected each once: adding names to a list
/// without repeats keeps it without repeats, and every added name is in it.
pub proof fn lemma_add_names_distinct(names: Seq<Seq<char>>, more: Seq<Seq<char>>)
    requires
        names.no_duplicates(),
    ensures
        add_names(names, more).no_duplicates(),
        forall|j: int| 0 <= j < more.len() ==> add_names(names, more).contains(#[trigger] more[j]),
        forall|j: int| 0 <= j < names.len() ==> add_names(names, more).contains(#[trigger] names[j]),
    decreases more.len(),
{
    if more.len() > 0 {
        let init = more.drop_last();
        lemma_add_names_distinct(names, init);
        let prev = add_names(names, init);
        let x = more.last();
        if !prev.contains(x) {
            let next = prev.push(x);
            assert forall|a: int, b: int| 0 <= a < b < next.len() implies next[a] != next[b] by {
                if b == next.len() - 1 {
                    assert(next[a] == prev[a]);
                }
            }
            assert forall|j: int| 0 <= j < next.len() - 1 implies next[j] == prev[j] by {}
            assert(next[next.len() - 1] == x);
        }
        assert forall|j: int| 0 <= j < more.len() implies add_names(names, more).contains(
            #[trigger] more[j],
        ) by {
            let r = add_names(names, more);
            if j < more.len() - 1 {
                assert(more[j] == init[j]);
                assert(prev.contains(init[j]));
                let k = choose|k: int| 0 <= k < prev.len() && prev[k] == init[j];
                if !prev.contains(x) {
                    assert(r[k] == prev[k]);
                }
            } else {
                if !prev.contains(x) {
                    assert(r[prev.len() as int] == x);
                }
            }
        }
        assert forall|j: int| 0 <= j < names.len() implies add_names(names, more).contains(
            #[trigger] names[j],
        ) by {
            let r = add_names(names, more);
            assert(prev.contains(names[j]));
            let k = choose|k: int| 0 <= k < prev.len() && prev[k] == names[j];
            if !prev.contains(x) {
                assert(r[k] == prev[k]);
            }
        }
    }
}

/// The scan after the first `k` methods of one path.
pub open spec fn path_scan(
    st: OpenApiScan,
    path: Seq<char>,
    item: JsonValue,
    k: nat,
    root_security: Option<JsonValue>,
    schemes: Option<JsonValue>,
) -> OpenApiScan
    decreases k,
{
    if k == 0 {
        st
    } else {
        let prev = path_scan(st, path, item, (k - 1) as nat, root_security, schemes);
        let m = openapi_methods()[k - 1];
        match field(item, m) {
            Some(op) => OpenApiScan {
                requests: prev.requests.push(
                    op_request(path, item, m, op, root_security, schemes),
                ),
                names: add_names(prev.names, split_params(op_params(item, op)).2),
            },
            None => prev,
        }
    }
}

/// The scan after the given paths, each with all methods.
pub open spec fn paths_scan(
    paths: Seq<(String, JsonValue)>,
    root_security: Option<JsonValue>,
    schemes: Option<JsonValue>,
) -> OpenApiScan
    decreases paths.len(),
{
    if paths.len() == 0 {
        OpenApiScan { requests: seq![], names: seq![] }
    } else {
        path_scan(
            paths_scan(paths.drop_last(), root_security, schemes),
            paths.last().0@,
            paths.last().1,
            7,
            root_security,
            schemes,
        )
    }
}

/// An enabled, non-secret variable.
pub open spec fn plain_var(key: Seq<char>, value: Seq<char>) -> EnvVarView {
    EnvVarView { key, value, secret: false, enabled: true }
}

/// Variables with empty values, one per name.
pub open spec fn empty_vars(names: Seq<Seq<char>>) -> Seq<EnvVarView>
    decreases names.len(),
{
    if names.len() == 0 {
        seq![]
    } else {
        empty_vars(names.drop_last()).push(plain_var(names.last(), seq![]))
    }
}

proof fn lemma_path_scan_distinct(
    st: OpenApiScan,
    path: Seq<char>,
    item: JsonValue,
    k: nat,
    root_security: Option<JsonValue>,
    schemes: Option<JsonValue>,
)
    requires
        st.names.no_duplicates(),
    ensures
        path_scan(st, path, item, k, root_security, schemes).names.no_duplicates(),
    decreases k,
{
    if k > 0 {
        lemma_path_scan_distinct(st, path, item, (k - 1) as nat, root_security, schemes);
        let prev = path_scan(st, path, item, (k - 1) as nat, root_security, schemes);
        let m = openapi_methods()[k - 1];
        if let Some(op) = field(item, m) {
            lemma_add_names_distinct(prev.names, split_params(op_params(item, op)).2);
        }
    }
}

proof fn lemma_paths_scan_distinct(
    paths: Seq<(String, JsonValue)>,
    root_security: Option<JsonValue>,
    schemes: Option<JsonValue>,
)
    ensures
        paths_scan(paths, root_security, schemes).names.no_duplicates(),
    decreases paths.len(),
{
    if paths.len() > 0 {
        lemma_paths_scan_distinct(paths.drop_last(), root_security, schemes);
        lemma_path_scan_distinct(
            paths_scan(paths.drop_last(), root_security, schemes),
            paths.last().0@,
            paths.last().1,
            7,
            root_security,
            schemes,
        );
    }
}

proof fn lemma_empty_vars(names: Seq<Seq<char>>)
    ensures
        empty_vars(names).len() == names.len(),
        forall|j: int| 0 <= j < names.len() ==> (#[trigger] empty_vars(names)[j]).key == names[j],
    decreases names.len(),
{
    if names.len() > 0 {
        lemma_empty_vars(names.drop_last());
        assert forall|j: int| 0 <= j < names.len() implies (#[trigger] empty_vars(names)[j]).key
            == names[j] by {
            if j < names.len() - 1 {
                assert(empty_vars(names)[j] == empty_vars(names.drop_last())[j]);
            }
        }
    }
}

/// The variables of an imported OpenAPI collection start with `base_url`,
/// and the path parameter variables after it have distinct keys.
pub proof fn lemma_openapi_variables_distinct(root: JsonValue)
    ensures
        openapi_collection(root) matches Ok(c) ==> {
            &&& c.variables.len() >= 1
            &&& c.variables[0].key == "base_url"@
            &&& forall|a: int, b: int|
                1 <= a < b < c.variables.len() ==> (#[trigger] c.variables[a]).key != (
                #[trigger] c.variables[b]).key
        },
{
    let schemes = field_of(field(root, "components"@), "securitySchemes"@);
    let paths = match object_of(field(root, "paths"@)) {
        Some(es) => es,
        None => seq![],
    };
    lemma_paths_scan_distinct(paths, field(root, "security"@), schemes);
    let names = paths_scan(paths, field(root, "security"@), schemes).names;
    lemma_empty_vars(names);
    if let Ok(c) = openapi_collection(root) {
        assert forall|a: int, b: int| 1 <= a < b < c.variables.len() implies (
        #[trigger] c.variables[a]).key != (#[trigger] c.variables[b]).key by {
            assert(c.variables[a] == empty_vars(names)[a - 1]);
            assert(c.variables[b] == empty_vars(names)[b - 1]);
        }
    }
}

/// The `base_url` variable of an imported OpenAPI collection is its first
/// variable, enabled and not secret, and holds the `url` of the document's
/// first server: exactly that text when `servers` is a non-empty array whose
/// first element has a string `url`, and empty otherwise.
pub proof fn lemma_openapi_base_url(root: JsonValue)
    ensures
        openapi_collection(root) matches Ok(c) ==> {
            &&& c.variables.len() >= 1
            &&& c.variables[0].key == "base_url"@
            &&& !c.variables[0].secret
            &&& c.variables[0].enabled
            &&& c.variables[0].value == match array_of(field(root, "servers"@)) {
                Some(a) => if a.len() > 0 {
                    match str_of(field(a[0], "url"@)) {
                        Some(u) => u,
                        None => seq![],
                    }
                } else {
                    seq![]
                },
                None => seq![],
            }
        },
{
}

/// The message for a document without a version field.
pub open spec fn no_version_message() -> Seq<char> {
    "未识别到 openapi/swagger 版本字段，确认这是一份 OpenAPI/Swagger 规范文件"@
}

/// The message for a document without operations.
pub open spec fn no_operations_message() -> Seq<char> {
    "未从 paths 下解析出任何请求"@
}

/// The collection that an OpenAPI document describes, or the message it is
/// refused with. Each operation (path and method) gives one request, under
/// the folder of its first tag; its URL is `{{base_url}}` and the path, with
/// path parameters as `{{name}}`. The variables are `base_url`, from the
/// first server, then one empty variable per path parameter name.
pub open spec fn openapi_collection(root: JsonValue) -> Result<ImportedCollectionView, Seq<char>> {
    if field(root, "openapi"@) is None && field(root, "swagger"@) is None {
        Err(no_version_message())
    } else {
        let info = field(root, "info"@);
        let name = match str_of(field_of(info, "title"@)) {
            Some(t) => if trim_of(t).len() > 0 {
                t
            } else {
                "导入的 OpenAPI 集合"@
            },
            None => "导入的 OpenAPI 集合"@,
        };
        let base_url = text_or_empty(
            str_of(
                field_of(
                    match array_of(field(root, "servers"@)) {
                        Some(a) => if a.len() > 0 {
                            Some(a[0])
                        } else {
                            None
                        },
                        None => None,
                    },
                    "url"@,
                ),
            ),
        );
        let schemes = field_of(field(root, "components"@), "securitySchemes"@);
        let st = paths_scan(
            match object_of(field(root, "paths"@)) {
                Some(es) => es,
                None => seq![],
            },
            field(root, "security"@),
            schemes,
        );
        if st.requests.len() == 0 {
            Err(no_operations_message())
        } else {
            Ok(
                ImportedCollectionView {
                    name,
                    description: match field_of(info, "description"@) {
                        Some(d) => value_to_text_spec(d),
                        None => None,
                    },
                    variables: seq![plain_var("base_url"@, base_url)] + empty_vars(st.names),
                    requests: st.requests,
                },
            )
        }
    }
}

/// The message for text that is not YAML, before the parser's words.
pub open spec fn bad_yaml_prefix() -> Seq<char> {
    "解析失败（不是合法的 JSON/YAML）："@
}

/// The message for YAML without a JSON form, before the converter's words.
pub open spec fn no_json_form_prefix() -> Seq<char> {
    "转换失败："@
}

// ---------------------------------------------------------------------
// Executable
// ---------------------------------------------------------------------

fn openapi_method(k: usize) -> (r: &'static str)
    requires
        k < 7,
    ensures
        r@ == openapi_methods()[k as int],
{
    if k == 0 {
        "get"
    } else if k == 1 {
        "post"
    } else if k == 2 {
        "put"
    } else if k == 3 {
        "delete"
    } else if k == 4 {
        "patch"
    } else if k == 5 {
        "head"
    } else {
        "options"
    }
}

fn param_default_exec(p: &JsonValue) -> (r: String)
    ensures
        r@ == param_default(*p),
{
    let d = match get_of(get(p, "schema"), "default") {
        Some(v) => Some(v),
        None => get(p, "example"),
    };
    match d {
        Some(v) => match as_str(Some(v)) {
            Some(s) => String::from_str(s),
            None => to_compact_text(v),
        },
        None => String::new(),
    }
}

/// Sorts parameters by `in` into query rows, header rows and the names of
/// path parameters. Path parameters are not rows: they stay in the URL as
/// `{{name}}`, and their names become collection variables.
pub fn split_openapi_params(params: &Vec<&JsonValue>) -> (r: (Vec<KeyValueItem>, Vec<KeyValueItem>, Vec<String>))
    ensures
        (kv_views(r.0@), kv_views(r.1@), text_views(r.2@)) == split_params(deref_all(params@)),
{
    let ghost ps = deref_all(params@);
    let mut query: Vec<KeyValueItem> = Vec::new();
    let mut header: Vec<KeyValueItem> = Vec::new();
    let mut path_names: Vec<String> = Vec::new();
    let mut i: usize = 0;
    assert(ps.take(0) == Seq::<JsonValue>::empty());
    while i < params.len()
        invariant
            i <= params@.len(),
            ps == deref_all(params@),
            (kv_views(query@), kv_views(header@), text_views(path_names@)) == split_params(
                ps.take(i as int),
            ),
        decreases params.len() - i,
    {
        let p: &JsonValue = params[i];
        assert(ps.take(i + 1).drop_last() == ps.take(i as int));
        assert(ps.take(i + 1).last() == *p);
        let ghost q0 = kv_views(query@);
        let ghost h0 = kv_views(header@);
        let ghost n0 = text_views(path_names@);
        match as_str(get(p, "name")) {
            Some(name) => {
                let default_value = param_default_exec(p);
                let loc = as_str(get(p, "in"));
                let is_query = match loc {
                    Some(l) => text_eq(l, "query"),
                    None => false,
                };
                let is_header = match loc {
                    Some(l) => text_eq(l, "header"),
                    None => false,
                };
                let is_path = match loc {
                    Some(l) => text_eq(l, "path"),
                    None => false,
                };
                if is_query {
                    let item = KeyValueItem {
                        key: String::from_str(name),
                        value: default_value,
                        enabled: true,
                    };
                    query.push(item);
                    assert(kv_views(query@) == q0.push(item@));
                } else if is_header {
                    let item = KeyValueItem {
                        key: String::from_str(name),
                        value: default_value,
                        enabled: true,
                    };
                    header.push(item);
                    assert(kv_views(header@) == h0.push(item@));
                } else if is_path {
                    let n = String::from_str(name);
                    path_names.push(n);
                    assert(text_views(path_names@) == n0.push(n@));
                }
            },
            None => {},
        }
        i = i + 1;
    }
    assert(ps.take(params@.len() as int) == ps);
    (query, header, path_names)
}

/// The values behind a sequence of references.
pub open spec fn deref_all(v: Seq<&JsonValue>) -> Seq<JsonValue> {
    v.map_values(|x: &JsonValue| *x)
}

/// A value as indented JSON text.
fn pretty_or_empty(ex: &JsonValue) -> (s: String)
    ensures
        s@ == json_pretty_text(*ex),
{
    match to_pretty_text(ex) {
        Ok(s) => s,
        Err(_) => String::new(),
    }
}

/// The example text of a media type, indented JSON, or empty.
fn example_text(media: &JsonValue) -> (r: String)
    ensures
        r@ == example_of(*media),
{
    match get(media, "example") {
        Some(ex) => pretty_or_empty(ex),
        None => match as_object(get(media, "examples")) {
            Some(es) => if es.len() > 0 {
                match get(&es[0].1, "value") {
                    Some(v) => pretty_or_empty(v),
                    None => String::new(),
                }
            } else {
                String::new()
            },
            None => String::new(),
        },
    }
}

/// The draft body of an operation's `requestBody`: a JSON body with the
/// example (or `{}`) when JSON is offered, else a urlencoded form with one
/// empty row per schema property, else an empty JSON placeholder `{}`; no
/// body when there is no `content`.
pub fn openapi_request_body(rb: Option<&JsonValue>) -> (r: RequestBody)
    ensures
        r@ == openapi_body(opt_ref(rb)),
{
    let content = match get_of(rb, "content") {
        Some(c) => c,
        None => return RequestBody::NoBody,
    };
    if let Some(json_media) = get(content, "application/json") {
        let example = example_text(json_media);
        return RequestBody::Json {
            content: if example.as_str().is_empty() {
                String::from_str("{}")
            } else {
                example
            },
        };
    }
    if let Some(form_media) = get(content, "application/x-www-form-urlencoded") {
        let mut items: Vec<KeyValueItem> = Vec::new();
        match as_object(get_of(get(form_media, "schema"), "properties")) {
            Some(es) => {
                let mut i: usize = 0;
                while i < es.len()
                    invariant
                        i <= es@.len(),
                        kv_views(items@) == property_rows(es@.take(i as int)),
                    decreases es.len() - i,
                {
                    let ghost before = kv_views(items@);
                    assert(es@.take(i + 1).drop_last() == es@.take(i as int));
                    assert(es@.take(i + 1).last() == es@[i as int]);
                    let item = KeyValueItem {
                        key: es[i].0.clone(),
                        value: String::new(),
                        enabled: true,
                    };
                    items.push(item);
                    assert(kv_views(items@) == before.push(item@));
                    i = i + 1;
                }
                assert(es@.take(es@.len() as int) == es@);
            },
            None => {
                assert(kv_views(items@) == Seq::<KeyValueView>::empty());
            },
        }
        return RequestBody::FormUrlEncoded { items };
    }
    RequestBody::Json { content: String::from_str("{}") }
}

/// The authentication of an operation from its `security` requirements (or
/// the document's) and the document's security schemes. Only the kind is
/// known; a specification carries no credentials, so they are left empty.
pub fn openapi_auth(security: Option<&JsonValue>, schemes: Option<&JsonValue>) -> (r: AuthConfig)
    ensures
        r@ == openapi_auth_spec(opt_ref(security), opt_ref(schemes)),
{
    let arr = match as_array(security) {
        Some(a) => a,
        None => return AuthConfig::NoAuth,
    };
    if arr.len() == 0 {
        return AuthConfig::NoAuth;
    }
    let es = match as_object(Some(&arr[0])) {
        Some(es) => es,
        None => return AuthConfig::NoAuth,
    };
    if es.len() == 0 {
        return AuthConfig::NoAuth;
    }
    let scheme = match get_of(schemes, es[0].0.as_str()) {
        Some(s) => s,
        None => return AuthConfig::NoAuth,
    };
    let t = as_str(get(scheme, "type"));
    let sc = as_str(get(scheme, "scheme"));
    let t_http = match t {
        Some(x) => text_eq(x, "http"),
        None => false,
    };
    let t_api = match t {
        Some(x) => text_eq(x, "apiKey"),
        None => false,
    };
    let sc_bearer = match sc {
        Some(x) => text_eq(x, "bearer"),
        None => false,
    };
    let sc_basic = match sc {
        Some(x) => text_eq(x, "basic"),
        None => false,
    };
    if t_http && sc_bearer {
        AuthConfig::Bearer { token: String::new() }
    } else if t_http && sc_basic {
        AuthConfig::Basic { username: String::new(), password: String::new() }
    } else if t_api {
        let in_query = match as_str(get(scheme, "in")) {
            Some(x) => text_eq(x, "query"),
            None => false,
        };
        AuthConfig::ApiKey {
            key: str_or_empty(get(scheme, "name")),
            value: String::new(),
            add_to: if in_query {
                ApiKeyLocation::Query
            } else {
                ApiKeyLocation::Header
            },
        }
    } else {
        AuthConfig::NoAuth
    }
}

fn op_name_exec(op: &JsonValue, method: &str, path: &str) -> (r: String)
    ensures
        r@ == op_name(*op, method@, path@),
{
    match as_str(get(op, "summary")) {
        Some(s) => String::from_str(s),
        None => match as_str(get(op, "operationId")) {
            Some(s) => String::from_str(s),
            None => {
                let upper = to_uppercase(method);
                let head = concat(upper.as_str(), " ");
                concat(head.as_str(), path)
            },
        },
    }
}

fn op_folder_exec(op: &JsonValue) -> (r: Vec<String>)
    ensures
        text_views(r@) == op_folder(*op),
{
    let mut r: Vec<String> = Vec::new();
    if let Some(a) = as_array(get(op, "tags")) {
        if a.len() > 0 {
            if let Some(t) = as_str(Some(&a[0])) {
                let s = String::from_str(t);
                r.push(s);
                assert(text_views(r@) == seq![s@]);
                return r;
            }
        }
    }
    assert(text_views(r@) == Seq::<Seq<char>>::empty());
    r
}

fn collect_params<'a>(item: &'a JsonValue, op: &'a JsonValue) -> (r: Vec<&'a JsonValue>)
    ensures
        deref_all(r@) == op_params(*item, *op),
{
    let mut r: Vec<&'a JsonValue> = Vec::new();
    let ghost shared = match array_of(field(*item, "parameters"@)) {
        Some(a) => a,
        None => seq![],
    };
    if let Some(a) = as_array(get(item, "parameters")) {
        let mut i: usize = 0;
        while i < a.len()
            invariant
                i <= a@.len(),
                deref_all(r@) == a@.take(i as int),
            decreases a.len() - i,
        {
            let ghost before = r@;
            r.push(&a[i]);
            assert(deref_all(r@) == deref_all(before).push(a@[i as int]));
            assert(a@.take(i + 1) == a@.take(i as int).push(a@[i as int]));
            i = i + 1;
        }
        assert(a@.take(a@.len() as int) == a@);
    }
    assert(deref_all(r@) == shared);
    if let Some(a) = as_array(get(op, "parameters")) {
        let mut i: usize = 0;
        assert(shared + a@.take(0) == shared);
        while i < a.len()
            invariant
                i <= a@.len(),
                deref_all(r@) == shared + a@.take(i as int),
            decreases a.len() - i,
        {
            let ghost before = r@;
            r.push(&a[i]);
            assert(deref_all(r@) == deref_all(before).push(a@[i as int]));
            assert(a@.take(i + 1) == a@.take(i as int).push(a@[i as int]));
            assert(shared + a@.take(i + 1) == (shared + a@.take(i as int)).push(a@[i as int]));
            i = i + 1;
        }
        assert(a@.take(a@.len() as int) == a@);
    } else {
        assert(shared + Seq::<JsonValue>::empty() == shared);
    }
    r
}

fn add_names_exec(names: &mut Vec<String>, more: &Vec<String>)
    ensures
        text_views(final(names)@) == add_names(text_views(old(names)@), text_views(more@)),
{
    let ghost start = text_views(old(names)@);
    let mut i: usize = 0;
    assert(text_views(more@).take(0) == Seq::<Seq<char>>::empty());
    while i < more.len()
        invariant
            i <= more@.len(),
            text_views(names@) == add_names(start, text_views(more@).take(i as int)),
        decreases more.len() - i,
    {
        let ghost mv = text_views(more@);
        let ghost before = text_views(names@);
        assert(mv.take(i + 1).drop_last() == mv.take(i as int));
        assert(mv.take(i + 1).last() == more@[i as int]@);
        let n = more[i].as_str();
        let mut found = false;
        let mut j: usize = 0;
        while j < names.len()
            invariant
                j <= names@.len(),
                before == text_views(names@),
                !found ==> forall|m: int| 0 <= m < j ==> before[m] != n@,
                found ==> before.contains(n@),
            decreases names.len() - j,
        {
            if text_eq(names[j].as_str(), n) {
                assert(before[j as int] == n@);
                found = true;
            }
            j = j + 1;
        }
        if !found {
            let s = String::from_str(n);
            names.push(s);
            assert(text_views(names@) == before.push(n@));
        }
        i = i + 1;
    }
    assert(text_views(more@).take(more@.len() as int) == text_views(more@));
}

/// The drafts of the operations of one path, added to `requests`, and the
/// names of its path parameters added to `names`.
fn scan_path(
    path: &str,
    item: &JsonValue,
    root_security: Option<&JsonValue>,
    schemes: Option<&JsonValue>,
    requests: &mut Vec<ImportedRequest>,
    names: &mut Vec<String>,
)
    ensures
        (OpenApiScan { requests: request_views(final(requests)@), names: text_views(final(names)@) })
            == path_scan(
            OpenApiScan { requests: request_views(old(requests)@), names: text_views(old(names)@) },
            path@,
            *item,
            7,
            opt_ref(root_security),
            opt_ref(schemes),
        ),
{
    let ghost st0 = OpenApiScan {
        requests: request_views(old(requests)@),
        names: text_views(old(names)@),
    };
    let ghost rs = opt_ref(root_security);
    let ghost sch = opt_ref(schemes);
    let mut k: usize = 0;
    while k < 7
        invariant
            k <= 7,
            (OpenApiScan { requests: request_views(requests@), names: text_views(names@) }) == path_scan(
                st0,
                path@,
                *item,
                k as nat,
                rs,
                sch,
            ),
            rs == opt_ref(root_security),
            sch == opt_ref(schemes),
        decreases 7 - k,
    {
        let method = openapi_method(k);
        let ghost r0 = request_views(requests@);
        if let Some(op) = get(item, method) {
            let name = op_name_exec(op, method, path);
            let folder = op_folder_exec(op);
            let all_params = collect_params(item, op);
            let (params, headers, path_names) = split_openapi_params(&all_params);
            add_names_exec(names, &path_names);
            let step1 = replace_char(path, '{', "{{");
            let url_path = replace_char(step1.as_str(), '}', "}}");
            let url = concat("{{base_url}}", url_path.as_str());
            let security = match get(op, "security") {
                Some(s) => Some(s),
                None => root_security,
            };
            let auth = openapi_auth(security, schemes);
            let body = openapi_request_body(get(op, "requestBody"));
            let req = ImportedRequest {
                name,
                method: to_uppercase(method),
                url,
                params,
                headers,
                auth,
                body,
                folder,
            };
            requests.push(req);
            assert(request_views(requests@) == r0.push(req@));
        }
        k = k + 1;
    }
}

/// The collection that a parsed OpenAPI document describes, or the message
/// it is refused with: a document without an `openapi` or `swagger` field,
/// and one without any operation, are refused.
pub fn openapi_collection_from_json(root: &JsonValue) -> (r: Result<ImportedCollection, AppError>)
    ensures
        match r {
            Ok(c) => openapi_collection(*root) == Ok::<ImportedCollectionView, Seq<char>>(c@),
            Err(e) => e matches AppError::Internal(m) && openapi_collection(*root) == Err::<
                ImportedCollectionView,
                Seq<char>,
            >(m@),
        },
{
    if get(root, "openapi").is_none() && get(root, "swagger").is_none() {
        return Err(
            AppError::Internal(
                String::from_str(
                    "未识别到 openapi/swagger 版本字段，确认这是一份 OpenAPI/Swagger 规范文件",
                ),
            ),
        );
    }
    let info = get(root, "info");
    let name = match as_str(get_of(info, "title")) {
        Some(t) => {
            let tt = trim(t);
            if tt.as_str().is_empty() {
                String::from_str("导入的 OpenAPI 集合")
            } else {
                String::from_str(t)
            }
        },
        None => String::from_str("导入的 OpenAPI 集合"),
    };
    let description = match get_of(info, "description") {
        Some(d) => value_to_text(d),
        None => None,
    };
    let first_server = match as_array(get(root, "servers")) {
        Some(a) => if a.len() > 0 {
            Some(&a[0])
        } else {
            None
        },
        None => None,
    };
    let base_url = str_or_empty(get_of(first_server, "url"));
    assert(opt_ref(first_server) == match array_of(field(*root, "servers"@)) {
        Some(a) => if a.len() > 0 {
            Some(a[0])
        } else {
            None
        },
        None => None,
    });
    let schemes = get_of(get(root, "components"), "securitySchemes");
    let root_security = get(root, "security");
    let mut requests: Vec<ImportedRequest> = Vec::new();
    let mut names: Vec<String> = Vec::new();
    let ghost paths_seq = match object_of(field(*root, "paths"@)) {
        Some(es) => es,
        None => seq![],
    };
    assert(request_views(requests@) == Seq::<ImportedRequestView>::empty());
    assert(text_views(names@) == Seq::<Seq<char>>::empty());
    if let Some(paths) = as_object(get(root, "paths")) {
        let mut i: usize = 0;
        assert(paths@.take(0) == Seq::<(String, JsonValue)>::empty());
        while i < paths.len()
            invariant
                i <= paths@.len(),
                (OpenApiScan { requests: request_views(requests@), names: text_views(names@) })
                    == paths_scan(paths@.take(i as int), opt_ref(root_security), opt_ref(schemes)),
            decreases paths.len() - i,
        {
            assert(paths@.take(i + 1).drop_last() == paths@.take(i as int));
            assert(paths@.take(i + 1).last() == paths@[i as int]);
            let entry = &paths[i];
            scan_path(entry.0.as_str(), &entry.1, root_security, schemes, &mut requests, &mut names);
            i = i + 1;
        }
        assert(paths@.take(paths@.len() as int) == paths@);
    }
    let ghost st = paths_scan(paths_seq, field(*root, "security"@), field_of(field(*root, "components"@), "securitySchemes"@));
    assert((OpenApiScan { requests: request_views(requests@), names: text_views(names@) }) == st);
    if requests.len() == 0 {
        return Err(AppError::Internal(String::from_str("未从 paths 下解析出任何请求")));
    }
    let mut variables: Vec<EnvVar> = Vec::new();
    variables.push(EnvVar { key: String::from_str("base_url"), value: base_url, secret: false, enabled: true });
    let ghost first = var_views(variables@);
    let ghost nv = text_views(names@);
    let mut j: usize = 0;
    assert(nv.take(0) == Seq::<Seq<char>>::empty());
    assert(first + empty_vars(Seq::<Seq<char>>::empty()) == first);
    while j < names.len()
        invariant
            j <= names@.len(),
            nv == text_views(names@),
            var_views(variables@) == first + empty_vars(nv.take(j as int)),
        decreases names.len() - j,
    {
        let ghost before = var_views(variables@);
        assert(nv.take(j + 1).drop_last() == nv.take(j as int));
        assert(nv.take(j + 1).last() == names@[j as int]@);
        let v = EnvVar { key: names[j].clone(), value: String::new(), secret: false, enabled: true };
        variables.push(v);
        assert(var_views(variables@) == before.push(v@));
        j = j + 1;
    }
    assert(nv.take(names@.len() as int) == nv);
    let ghost name_spec = match str_of(field_of(field(*root, "info"@), "title"@)) {
        Some(t) => if trim_of(t).len() > 0 {
            t
        } else {
            "导入的 OpenAPI 集合"@
        },
        None => "导入的 OpenAPI 集合"@,
    };
    assert(name@ == name_spec);
    assert(var_views(variables@) == seq![plain_var("base_url"@, base_url@)] + empty_vars(nv));
    Ok(ImportedCollection { name, description, variables, requests })
}

/// Parses an OpenAPI 3.x (or Swagger) document given as JSON or YAML: one
/// request per path and method, grouped by first tag, with `{{base_url}}`
/// (taken from the first server) in front of each path. Text that is not
/// YAML, or YAML without a JSON form, is refused with the reader's message
/// after a prefix that says which of the two it was.
pub fn parse_openapi(content: &str) -> (r: Result<ImportedCollection, AppError>)
    ensures
        !yaml_parses(content@) ==> (r matches Err(AppError::Internal(m)) && bad_yaml_prefix().is_prefix_of(
            m@,
        )),
        yaml_parses(content@) && yaml_json_document(content@) is None ==> (r matches Err(
            AppError::Internal(m),
        ) && no_json_form_prefix().is_prefix_of(m@)),
        yaml_json_document(content@) matches Some(root) ==> match r {
            Ok(c) => openapi_collection(root) == Ok::<ImportedCollectionView, Seq<char>>(c@),
            Err(e) => e matches AppError::Internal(m) && openapi_collection(root) == Err::<
                ImportedCollectionView,
                Seq<char>,
            >(m@),
        },
{
    match parse_yaml_json(content) {
        Ok(root) => openapi_collection_from_json(&root),
        Err(YamlJsonError::Syntax(msg)) => {
            let m = concat("解析失败（不是合法的 JSON/YAML）：", msg.as_str());
            assert(m@.take(bad_yaml_prefix().len() as int) == bad_yaml_prefix());
            Err(AppError::Internal(m))
        },
        Err(YamlJsonError::Conversion(msg)) => {
            let m = concat("转换失败：", msg.as_str());
            assert(m@.take(no_json_form_prefix().len() as int) == no_json_form_prefix());
            Err(AppError::Internal(m))
        },
    }
}

} // verus!
