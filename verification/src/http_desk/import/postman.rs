//! Importing a Postman Collection (v2.0 / v2.1 export).
use vstd::prelude::*;

use super::imported::{
    request_views, ImportedCollection, ImportedCollectionView, ImportedRequest, ImportedRequestView,
};
use super::json::{
    array_of, as_array, as_bool, as_str, bool_of, field, field_of, get, get_of, json_document,
    object_of, opt_ref, opt_str, parse_json, str_of, str_or_empty, text_or_empty, JsonValue,
};
use crate::error::AppError;
use crate::http_desk::model::{
    kv_views, text_views, var_views, ApiKeyLocation, AuthConfig, AuthView, BodyView, EnvVar,
    EnvVarView, KeyValueItem, KeyValueView, RequestBody,
};
use crate::text::{
    concat, split, split_on, split_once, split_once_of, text_eq, to_uppercase, trim, trim_of,
    unicode_uppercase,
};

verus! {

// ---------------------------------------------------------------------
// Specification
// ---------------------------------------------------------------------

/// A Postman description: a string, or an object with a string `content`.
/// Blank text counts as no description.
pub open spec fn value_to_text_spec(v: JsonValue) -> Option<Seq<char>> {
    let text = match v {
        JsonValue::String(s) => Some(s@),
        JsonValue::Object(_) => str_of(field(v, "content"@)),
        _ => None,
    };
    match text {
        Some(t) => if trim_of(t).len() == 0 {
            None
        } else {
            Some(t)
        },
        None => None,
    }
}

/// The first array item whose `key` is the string `want`.
pub open spec fn first_keyed(arr: Seq<JsonValue>, want: Seq<char>) -> Option<JsonValue>
    decreases arr.len(),
{
    if arr.len() == 0 {
        None
    } else if str_of(field(arr[0], "key"@)) == Some(want) {
        Some(arr[0])
    } else {
        first_keyed(arr.drop_first(), want)
    }
}

/// The string `value` of the first `{"key": want, "value": ..}` item of the
/// array `block[fld]`.
pub open spec fn kv_lookup_spec(block: JsonValue, fld: Seq<char>, want: Seq<char>) -> Option<
    Seq<char>,
> {
    match array_of(field(block, fld)) {
        Some(arr) => match first_keyed(arr, want) {
            Some(e) => str_of(field(e, "value"@)),
            None => None,
        },
        None => None,
    }
}

/// Postman's `auth` object. Kinds other than bearer, basic and apikey become
/// no authentication.
pub open spec fn postman_auth(v: JsonValue) -> AuthView {
    let t = match str_of(field(v, "type"@)) {
        Some(t) => t,
        None => "noauth"@,
    };
    if t == "bearer"@ {
        AuthView::Bearer { token: text_or_empty(kv_lookup_spec(v, "bearer"@, "token"@)) }
    } else if t == "basic"@ {
        AuthView::Basic {
            username: text_or_empty(kv_lookup_spec(v, "basic"@, "username"@)),
            password: text_or_empty(kv_lookup_spec(v, "basic"@, "password"@)),
        }
    } else if t == "apikey"@ {
        AuthView::ApiKey {
            key: text_or_empty(kv_lookup_spec(v, "apikey"@, "key"@)),
            value: text_or_empty(kv_lookup_spec(v, "apikey"@, "value"@)),
            add_to: if kv_lookup_spec(v, "apikey"@, "in"@) == Some("query"@) {
                ApiKeyLocation::Query
            } else {
                ApiKeyLocation::Header
            },
        }
    } else {
        AuthView::NoAuth
    }
}

/// The row of one `key=value` query piece (`key` alone: empty value).
pub open spec fn query_row(pair: Seq<char>) -> KeyValueView {
    match split_once_of(pair, '=') {
        Some(p) => KeyValueView { key: p.0, value: p.1, enabled: true },
        None => KeyValueView { key: pair, value: seq![], enabled: true },
    }
}

/// The rows of the non-empty query pieces.
pub open spec fn query_rows(pieces: Seq<Seq<char>>) -> Seq<KeyValueView>
    decreases pieces.len(),
{
    if pieces.len() == 0 {
        seq![]
    } else {
        query_rows(pieces.drop_last()) + if pieces.last().len() == 0 {
            seq![]
        } else {
            seq![query_row(pieces.last())]
        }
    }
}

/// A URL cut at its first `?`: the part before, and the rows of the query
/// after, when that query is not empty; else the URL whole and no rows.
pub open spec fn split_url_query_spec(raw: Seq<char>) -> (Seq<char>, Seq<KeyValueView>) {
    match split_once_of(raw, '?') {
        Some(p) => if p.1.len() > 0 {
            (p.0, query_rows(split_on(p.1, '&')))
        } else {
            (raw, seq![])
        },
        None => (raw, seq![]),
    }
}

/// Base and query are kept apart: when a query is split off, the base is
/// the URL up to its first `?`, holds no `?`, and the query follows it.
pub proof fn lemma_split_url_query_parts(raw: Seq<char>)
    ensures
        split_url_query_spec(raw).1.len() > 0 ==> exists|q: Seq<char>|
            raw == split_url_query_spec(raw).0 + seq!['?'] + q && q.len() > 0,
        split_url_query_spec(raw).1.len() > 0 ==> !crate::text::contains_seq(
            split_url_query_spec(raw).0,
            seq!['?'],
        ),
{
    crate::text::lemma_first_occurrence(raw, seq!['?'], 0);
    match split_once_of(raw, '?') {
        Some(p) => {
            if p.1.len() > 0 {
                let i = crate::text::index_of_char(raw, '?').unwrap();
                assert(raw == p.0 + seq!['?'] + p.1) by {
                    assert(raw.subrange(i, i + 1) == seq!['?']);
                    assert(raw.subrange(i, i + 1)[0] == raw[i]);
                    assert(raw[i] == '?');
                }
                assert(raw == split_url_query_spec(raw).0 + seq!['?'] + p.1 && p.1.len() > 0);
                assert forall|k: int| !crate::text::occurs_at(p.0, seq!['?'], k) by {
                    if crate::text::occurs_at(p.0, seq!['?'], k) {
                        assert(p.0.subrange(k, k + 1) == raw.subrange(k, k + 1));
                        assert(crate::text::occurs_at(raw, seq!['?'], k));
                    }
                }
            }
        },
        None => {},
    }
}

/// The row of one Postman `{key, value, disabled}` item; items without a
/// string key give none.
pub open spec fn postman_row(q: JsonValue) -> Option<KeyValueView> {
    match str_of(field(q, "key"@)) {
        Some(k) => Some(
            KeyValueView {
                key: k,
                value: text_or_empty(str_of(field(q, "value"@))),
                enabled: !(bool_of(field(q, "disabled"@)) == Some(true)),
            },
        ),
        None => None,
    }
}

/// The rows of an array of Postman items.
pub open spec fn postman_rows(arr: Seq<JsonValue>) -> Seq<KeyValueView>
    decreases arr.len(),
{
    if arr.len() == 0 {
        seq![]
    } else {
        postman_rows(arr.drop_last()) + match postman_row(arr.last()) {
            Some(r) => seq![r],
            None => seq![],
        }
    }
}

/// The rows of an optional array of Postman items.
pub open spec fn postman_kv_array_spec(o: Option<JsonValue>) -> Seq<KeyValueView> {
    match array_of(o) {
        Some(arr) => postman_rows(arr),
        None => seq![],
    }
}

/// The text left in place of a file field.
pub open spec fn file_field_note() -> Seq<char> {
    "(文件字段，需要重新选择文件)"@
}

/// The row of one form-data item: a file field is kept, disabled, with a
/// note as its value.
pub open spec fn formdata_row(item: JsonValue) -> Option<KeyValueView> {
    match str_of(field(item, "key"@)) {
        Some(k) => if str_of(field(item, "type"@)) == Some("file"@) {
            Some(KeyValueView { key: k, value: file_field_note(), enabled: false })
        } else {
            postman_row(item)
        },
        None => None,
    }
}

/// The rows of an array of form-data items.
pub open spec fn formdata_rows(arr: Seq<JsonValue>) -> Seq<KeyValueView>
    decreases arr.len(),
{
    if arr.len() == 0 {
        seq![]
    } else {
        formdata_rows(arr.drop_last()) + match formdata_row(arr.last()) {
            Some(r) => seq![r],
            None => seq![],
        }
    }
}

/// The rows of an optional array of form-data items.
pub open spec fn postman_formdata_spec(o: Option<JsonValue>) -> Seq<KeyValueView> {
    match array_of(o) {
        Some(arr) => formdata_rows(arr),
        None => seq![],
    }
}

/// A Postman `url`: a bare string, or an object whose `query` array (when
/// not empty) gives the rows, else the query of its `raw` string.
pub open spec fn postman_url(v: JsonValue) -> (Seq<char>, Seq<KeyValueView>) {
    match v {
        JsonValue::String(s) => split_url_query_spec(s@),
        JsonValue::Object(_) => {
            let parts = split_url_query_spec(text_or_empty(str_of(field(v, "raw"@))));
            let params = match array_of(field(v, "query"@)) {
                Some(arr) => if arr.len() > 0 {
                    postman_rows(arr)
                } else {
                    parts.1
                },
                None => parts.1,
            };
            (parts.0, params)
        },
        _ => (seq![], seq![]),
    }
}

/// The content type of a raw body in language `lang`.
pub open spec fn raw_content_type(lang: Seq<char>) -> Seq<char> {
    if lang == "xml"@ {
        "application/xml"@
    } else if lang == "html"@ {
        "text/html"@
    } else {
        "text/plain"@
    }
}

/// A Postman `body` by its `mode`; GraphQL becomes its query as raw JSON.
pub open spec fn postman_body(o: Option<JsonValue>) -> BodyView {
    match o {
        None => BodyView::NoBody,
        Some(v) => {
            let mode = text_or_empty(str_of(field(v, "mode"@)));
            if mode == "raw"@ {
                let content = text_or_empty(str_of(field(v, "raw"@)));
                let lang = match str_of(field_of(field_of(field(v, "options"@), "raw"@), "language"@)) {
                    Some(l) => l,
                    None => "text"@,
                };
                if lang == "json"@ {
                    BodyView::Json { content }
                } else {
                    BodyView::Raw { content, content_type: raw_content_type(lang) }
                }
            } else if mode == "urlencoded"@ {
                BodyView::FormUrlEncoded { items: postman_kv_array_spec(field(v, "urlencoded"@)) }
            } else if mode == "formdata"@ {
                BodyView::FormData { items: postman_formdata_spec(field(v, "formdata"@)) }
            } else if mode == "graphql"@ {
                BodyView::Raw {
                    content: text_or_empty(str_of(field_of(field(v, "graphql"@), "query"@))),
                    content_type: "application/json"@,
                }
            } else {
                BodyView::NoBody
            }
        },
    }
}

/// One Postman request item, named `name`, under `folder`.
pub open spec fn postman_request(name: Seq<char>, req: JsonValue, folder: Seq<Seq<char>>) -> ImportedRequestView {
    let url = match field(req, "url"@) {
        Some(u) => postman_url(u),
        None => (seq![], seq![]),
    };
    ImportedRequestView {
        name,
        method: unicode_uppercase(
            match str_of(field(req, "method"@)) {
                Some(m) => m,
                None => "GET"@,
            },
        ),
        url: url.0,
        params: url.1,
        headers: postman_kv_array_spec(field(req, "header"@)),
        auth: match field(req, "auth"@) {
            Some(a) => postman_auth(a),
            None => AuthView::NoAuth,
        },
        body: postman_body(field(req, "body"@)),
        folder,
    }
}

/// The name of an item (`未命名` when it has none).
pub open spec fn item_name(item: JsonValue) -> Seq<char> {
    match str_of(field(item, "name"@)) {
        Some(n) => n,
        None => "未命名"@,
    }
}

/// The sub-items of a folder item.
pub open spec fn folder_children(item: JsonValue) -> Option<Seq<JsonValue>> {
    array_of(field(item, "item"@))
}

/// A folder's sub-items lie inside it.
pub proof fn lemma_children_smaller(item: JsonValue)
    ensures
        folder_children(item) matches Some(ch) ==> decreases_to!(item => ch),
{
    if let JsonValue::Object(es) = item {
        super::json::lemma_entry_index(es@, "item"@);
        if let Some(i) = super::json::entry_index(es@, "item"@) {
            if let JsonValue::Array(a) = es@[i].1 {
                assert(decreases_to!(item => es));
                assert(decreases_to!(es => es@));
                assert(decreases_to!(es@ => es@[i]));
                assert(decreases_to!(es@[i] => es@[i].1));
                assert(decreases_to!(es@[i].1 => a));
                assert(decreases_to!(a => a@));
                assert(decreases_to!(item => a@));
            }
        }
    }
}

/// The requests of Postman items, in order, depth first: an item with an
/// `item` array is a folder whose requests lie under its name; else an item
/// with a `request` is a request; other items give nothing.
pub open spec fn walk_items(items: Seq<JsonValue>, folder: Seq<Seq<char>>) -> Seq<ImportedRequestView>
    decreases items,
{
    if items.len() == 0 {
        seq![]
    } else {
        let item = items.last();
        let here = match folder_children(item) {
            Some(ch) => {
                proof {
                    lemma_children_smaller(item);
                    assert(decreases_to!(items => item));
                }
                walk_items(ch, folder.push(item_name(item)))
            },
            None => match field(item, "request"@) {
                Some(req) => seq![postman_request(item_name(item), req, folder)],
                None => seq![],
            },
        };
        walk_items(items.drop_last(), folder) + here
    }
}

/// A collection variable, when the item has a string key.
pub open spec fn postman_var(item: JsonValue) -> Option<EnvVarView> {
    match str_of(field(item, "key"@)) {
        Some(k) => Some(
            EnvVarView {
                key: k,
                value: text_or_empty(str_of(field(item, "value"@))),
                secret: false,
                enabled: true,
            },
        ),
        None => None,
    }
}

/// The collection variables of an array of items.
pub open spec fn postman_vars(arr: Seq<JsonValue>) -> Seq<EnvVarView>
    decreases arr.len(),
{
    if arr.len() == 0 {
        seq![]
    } else {
        postman_vars(arr.drop_last()) + match postman_var(arr.last()) {
            Some(r) => seq![r],
            None => seq![],
        }
    }
}

/// The collection's name: `info.name` unless blank.
pub open spec fn collection_name(info: Option<JsonValue>) -> Seq<char> {
    match str_of(field_of(info, "name"@)) {
        Some(n) => if trim_of(n).len() > 0 {
            n
        } else {
            "导入的集合"@
        },
        None => "导入的集合"@,
    }
}

/// The message for a collection without requests.
pub open spec fn no_requests_message() -> Seq<char> {
    "未从文件中解析出任何请求，请确认这是一份 Postman Collection v2.x 导出文件（Postman 里 Export → Collection v2.1）"@
}

/// The message for text that is not JSON, before the parser's own words.
pub open spec fn bad_json_prefix() -> Seq<char> {
    "Postman 集合 JSON 解析失败："@
}

proof fn lemma_vars_hold_each_keyed_item(arr: Seq<JsonValue>, i: int)
    requires
        0 <= i < arr.len(),
        str_of(field(arr[i], "key"@)) is Some,
    ensures
        exists|j: int|
            0 <= j < postman_vars(arr).len() && #[trigger] postman_vars(arr)[j] == (EnvVarView {
                key: str_of(field(arr[i], "key"@)).unwrap(),
                value: match str_of(field(arr[i], "value"@)) {
                    Some(v) => v,
                    None => seq![],
                },
                secret: false,
                enabled: true,
            }),
    decreases arr.len(),
{
    let init = arr.drop_last();
    let want = EnvVarView {
        key: str_of(field(arr[i], "key"@)).unwrap(),
        value: match str_of(field(arr[i], "value"@)) {
            Some(v) => v,
            None => seq![],
        },
        secret: false,
        enabled: true,
    };
    if i == arr.len() - 1 {
        let n = postman_vars(init).len() as int;
        assert(postman_vars(arr)[n] == want);
    } else {
        assert(init[i] == arr[i]);
        lemma_vars_hold_each_keyed_item(init, i);
        let j = choose|j: int| 0 <= j < postman_vars(init).len() && #[trigger] postman_vars(init)[j] == want;
        assert(postman_vars(arr)[j] == postman_vars(init)[j]);
    }
}

/// Every collection variable of a Postman document is imported: each item of
/// the document's `variable` array with a string `key` gives a variable with
/// that key and the item's string `value` (empty only when the item has no
/// string value), enabled and not secret. No variable comes from elsewhere:
/// there are at most as many variables as items.
pub proof fn lemma_postman_variables_imported(root: JsonValue)
    ensures
        postman_collection(root) matches Some(c) ==> match array_of(field(root, "variable"@)) {
            Some(a) => c.variables.len() <= a.len() && forall|i: int|
                0 <= i < a.len() && (#[trigger] str_of(field(a[i], "key"@))) is Some ==> exists|j: int|
                    0 <= j < c.variables.len() && c.variables[j] == (EnvVarView {
                        key: str_of(field(a[i], "key"@)).unwrap(),
                        value: match str_of(field(a[i], "value"@)) {
                            Some(v) => v,
                            None => seq![],
                        },
                        secret: false,
                        enabled: true,
                    }),
            None => c.variables.len() == 0,
        },
{
    if let Some(c) = postman_collection(root) {
        if let Some(a) = array_of(field(root, "variable"@)) {
            assert(c.variables == postman_vars(a));
            lemma_vars_len(a);
            assert forall|i: int|
                0 <= i < a.len() && (#[trigger] str_of(field(a[i], "key"@))) is Some implies exists|j: int|
                    0 <= j < c.variables.len() && c.variables[j] == (EnvVarView {
                        key: str_of(field(a[i], "key"@)).unwrap(),
                        value: match str_of(field(a[i], "value"@)) {
                            Some(v) => v,
                            None => seq![],
                        },
                        secret: false,
                        enabled: true,
                    }) by {
                assert(c.variables == postman_vars(a));
                lemma_vars_hold_each_keyed_item(a, i);
            }
        }
    }
}

proof fn lemma_vars_len(arr: Seq<JsonValue>)
    ensures
        postman_vars(arr).len() <= arr.len(),
    decreases arr.len(),
{
    if arr.len() > 0 {
        lemma_vars_len(arr.drop_last());
    }
}

/// The collection that a Postman document describes; `None` when it holds
/// no request.
pub open spec fn postman_collection(root: JsonValue) -> Option<ImportedCollectionView> {
    let info = field(root, "info"@);
    let requests = walk_items(
        match array_of(field(root, "item"@)) {
            Some(a) => a,
            None => seq![],
        },
        seq![],
    );
    if requests.len() == 0 {
        None
    } else {
        Some(
            ImportedCollectionView {
                name: collection_name(info),
                description: match field_of(info, "description"@) {
                    Some(d) => value_to_text_spec(d),
                    None => None,
                },
                variables: match array_of(field(root, "variable"@)) {
                    Some(a) => postman_vars(a),
                    None => seq![],
                },
                requests,
            },
        )
    }
}

// ---------------------------------------------------------------------
// Executable
// ---------------------------------------------------------------------

/// The text of an optional string.
pub open spec fn opt_string(o: Option<String>) -> Option<Seq<char>> {
    match o {
        Some(s) => Some(s@),
        None => None,
    }
}

/// A description as Postman writes it (a string, or `{"content": ..}`),
/// with blank text as no description.
pub fn value_to_text(v: &JsonValue) -> (r: Option<String>)
    ensures
        opt_string(r) == value_to_text_spec(*v),
{
    let text: Option<String> = match v {
        JsonValue::String(s) => Some(s.clone()),
        JsonValue::Object(_) => match as_str(get(v, "content")) {
            Some(s) => Some(String::from_str(s)),
            None => None,
        },
        _ => None,
    };
    match text {
        Some(t) => {
            let tt = trim(t.as_str());
            if tt.as_str().is_empty() {
                None
            } else {
                Some(t)
            }
        },
        None => None,
    }
}

/// The string `value` of the first item keyed `want` in `block[fld]`.
fn postman_kv_lookup(block: &JsonValue, fld: &str, want: &str) -> (r: Option<String>)
    ensures
        opt_string(r) == kv_lookup_spec(*block, fld@, want@),
{
    let arr = match as_array(get(block, fld)) {
        Some(a) => a,
        None => return None,
    };
    let mut i: usize = 0;
    assert(arr@.skip(0) == arr@);
    while i < arr.len()
        invariant
            i <= arr@.len(),
            array_of(field(*block, fld@)) == Some(arr@),
            first_keyed(arr@, want@) == first_keyed(arr@.skip(i as int), want@),
        decreases arr.len() - i,
    {
        let e = &arr[i];
        assert(arr@.skip(i as int)[0] == arr@[i as int]);
        assert(arr@.skip(i as int).drop_first() == arr@.skip(i + 1));
        let k = as_str(get(e, "key"));
        let hit = match k {
            Some(k) => text_eq(k, want),
            None => false,
        };
        if hit {
            return match as_str(get(e, "value")) {
                Some(s) => Some(String::from_str(s)),
                None => None,
            };
        }
        i = i + 1;
    }
    None
}

fn string_or_empty(o: Option<String>) -> (r: String)
    ensures
        r@ == text_or_empty(opt_string(o)),
{
    match o {
        Some(s) => s,
        None => String::new(),
    }
}

/// Postman's `auth` object: bearer, basic and apikey are kept, other kinds
/// become no authentication (the request stays usable; the user fills in
/// the credentials).
pub fn parse_postman_auth(v: &JsonValue) -> (r: AuthConfig)
    ensures
        r@ == postman_auth(*v),
{
    let t = match as_str(get(v, "type")) {
        Some(t) => String::from_str(t),
        None => String::from_str("noauth"),
    };
    if text_eq(t.as_str(), "bearer") {
        AuthConfig::Bearer { token: string_or_empty(postman_kv_lookup(v, "bearer", "token")) }
    } else if text_eq(t.as_str(), "basic") {
        AuthConfig::Basic {
            username: string_or_empty(postman_kv_lookup(v, "basic", "username")),
            password: string_or_empty(postman_kv_lookup(v, "basic", "password")),
        }
    } else if text_eq(t.as_str(), "apikey") {
        let key = string_or_empty(postman_kv_lookup(v, "apikey", "key"));
        let value = string_or_empty(postman_kv_lookup(v, "apikey", "value"));
        let add_to = match postman_kv_lookup(v, "apikey", "in") {
            Some(s) => if text_eq(s.as_str(), "query") {
                ApiKeyLocation::Query
            } else {
                ApiKeyLocation::Header
            },
            None => ApiKeyLocation::Header,
        };
        AuthConfig::ApiKey { key, value, add_to }
    } else {
        AuthConfig::NoAuth
    }
}

fn query_row_exec(pair: &str) -> (r: KeyValueItem)
    ensures
        r@ == query_row(pair@),
{
    match split_once(pair, '=') {
        Some((k, v)) => KeyValueItem { key: k, value: v, enabled: true },
        None => KeyValueItem { key: String::from_str(pair), value: String::new(), enabled: true },
    }
}

/// Cuts a URL at its first `?` into the part before and the rows of the
/// query. The URL is cut by hand, not parsed: it may hold `{{variables}}`
/// that a URL parser would refuse or escape.
pub fn split_url_query(raw: &str) -> (r: (String, Vec<KeyValueItem>))
    ensures
        (r.0@, kv_views(r.1@)) == split_url_query_spec(raw@),
{
    match split_once(raw, '?') {
        Some((base, query)) => {
            if query.as_str().is_empty() {
                let none: Vec<KeyValueItem> = Vec::new();
                assert(kv_views(none@) == Seq::<KeyValueView>::empty());
                return (String::from_str(raw), none);
            }
            let pieces = split(query.as_str(), '&');
            let ghost ps = pieces@.map_values(|x: String| x@);
            let mut params: Vec<KeyValueItem> = Vec::new();
            let mut i: usize = 0;
            while i < pieces.len()
                invariant
                    i <= pieces@.len(),
                    ps == pieces@.map_values(|x: String| x@),
                    kv_views(params@) == query_rows(ps.take(i as int)),
                decreases pieces.len() - i,
            {
                let ghost before = kv_views(params@);
                assert(ps.take(i + 1).drop_last() == ps.take(i as int));
                assert(ps.take(i + 1).last() == pieces@[i as int]@);
                if !pieces[i].as_str().is_empty() {
                    let item = query_row_exec(pieces[i].as_str());
                    params.push(item);
                    assert(kv_views(params@) == before + seq![item@]);
                } else {
                    assert(before + Seq::<KeyValueView>::empty() == before);
                }
                i = i + 1;
            }
            assert(ps.take(pieces@.len() as int) == ps);
            (base, params)
        },
        None => {
            let none: Vec<KeyValueItem> = Vec::new();
            assert(kv_views(none@) == Seq::<KeyValueView>::empty());
            (String::from_str(raw), none)
        },
    }
}

fn postman_row_exec(q: &JsonValue) -> (r: Option<KeyValueItem>)
    ensures
        match r {
            Some(item) => postman_row(*q) == Some(item@),
            None => postman_row(*q) is None,
        },
{
    let key = match as_str(get(q, "key")) {
        Some(k) => String::from_str(k),
        None => return None,
    };
    let value = str_or_empty(get(q, "value"));
    let disabled = as_bool(get(q, "disabled"));
    let enabled = match disabled {
        Some(d) => !d,
        None => true,
    };
    Some(KeyValueItem { key, value, enabled })
}

fn postman_rows_exec(arr: &Vec<JsonValue>) -> (r: Vec<KeyValueItem>)
    ensures
        kv_views(r@) == postman_rows(arr@),
{
    let mut out: Vec<KeyValueItem> = Vec::new();
    let mut i: usize = 0;
    while i < arr.len()
        invariant
            i <= arr@.len(),
            kv_views(out@) == postman_rows(arr@.take(i as int)),
        decreases arr.len() - i,
    {
        let ghost before = kv_views(out@);
        assert(arr@.take(i + 1).drop_last() == arr@.take(i as int));
        assert(arr@.take(i + 1).last() == arr@[i as int]);
        match postman_row_exec(&arr[i]) {
            Some(item) => {
                out.push(item);
                assert(kv_views(out@) == before + seq![item@]);
            },
            None => {
                assert(before + Seq::<KeyValueView>::empty() == before);
            },
        }
        i = i + 1;
    }
    assert(arr@.take(arr@.len() as int) == arr@);
    out
}

/// The rows of an optional array of `{key, value, disabled}` items.
pub fn parse_postman_kv_array(v: Option<&JsonValue>) -> (r: Vec<KeyValueItem>)
    ensures
        kv_views(r@) == postman_kv_array_spec(opt_ref(v)),
{
    match as_array(v) {
        Some(arr) => postman_rows_exec(arr),
        None => {
            let r: Vec<KeyValueItem> = Vec::new();
            assert(kv_views(r@) == Seq::<KeyValueView>::empty());
            r
        },
    }
}

fn formdata_row_exec(item: &JsonValue) -> (r: Option<KeyValueItem>)
    ensures
        match r {
            Some(x) => formdata_row(*item) == Some(x@),
            None => formdata_row(*item) is None,
        },
{
    let key = match as_str(get(item, "key")) {
        Some(k) => String::from_str(k),
        None => return None,
    };
    let is_file = match as_str(get(item, "type")) {
        Some(t) => text_eq(t, "file"),
        None => false,
    };
    if is_file {
        Some(
            KeyValueItem {
                key,
                value: String::from_str("(文件字段，需要重新选择文件)"),
                enabled: false,
            },
        )
    } else {
        postman_row_exec(item)
    }
}

/// The rows of form-data items. A file field cannot be carried over (its
/// path is on the exporting machine), so it is kept disabled with a note
/// as its value, for the user to set again.
pub fn parse_postman_formdata(v: Option<&JsonValue>) -> (r: Vec<KeyValueItem>)
    ensures
        kv_views(r@) == postman_formdata_spec(opt_ref(v)),
{
    let mut out: Vec<KeyValueItem> = Vec::new();
    let arr = match as_array(v) {
        Some(a) => a,
        None => {
            assert(kv_views(out@) == Seq::<KeyValueView>::empty());
            return out;
        },
    };
    let mut i: usize = 0;
    while i < arr.len()
        invariant
            i <= arr@.len(),
            kv_views(out@) == formdata_rows(arr@.take(i as int)),
        decreases arr.len() - i,
    {
        let ghost before = kv_views(out@);
        assert(arr@.take(i + 1).drop_last() == arr@.take(i as int));
        assert(arr@.take(i + 1).last() == arr@[i as int]);
        match formdata_row_exec(&arr[i]) {
            Some(item) => {
                out.push(item);
                assert(kv_views(out@) == before + seq![item@]);
            },
            None => {
                assert(before + Seq::<KeyValueView>::empty() == before);
            },
        }
        i = i + 1;
    }
    assert(arr@.take(arr@.len() as int) == arr@);
    out
}

/// A Postman `url`, as the base URL without its query and the query rows.
/// The structured `query` array is preferred (it carries `disabled`); else
/// the query of `raw` is cut by hand. Base and rows are kept apart so that
/// sending does not repeat the parameters.
pub fn parse_postman_url(v: &JsonValue) -> (r: (String, Vec<KeyValueItem>))
    ensures
        (r.0@, kv_views(r.1@)) == postman_url(*v),
{
    match v {
        JsonValue::String(s) => split_url_query(s.as_str()),
        JsonValue::Object(_) => {
            let raw = str_or_empty(get(v, "raw"));
            let (base, fallback) = split_url_query(raw.as_str());
            let params = match as_array(get(v, "query")) {
                Some(arr) => if arr.len() > 0 {
                    postman_rows_exec(arr)
                } else {
                    fallback
                },
                None => fallback,
            };
            (base, params)
        },
        _ => {
            let r: Vec<KeyValueItem> = Vec::new();
            assert(kv_views(r@) == Seq::<KeyValueView>::empty());
            (String::new(), r)
        },
    }
}

/// A Postman `body` by its `mode`: raw (JSON when its language is json),
/// urlencoded, formdata, and GraphQL taken as its query in a raw JSON body.
pub fn parse_postman_body(v: Option<&JsonValue>) -> (r: RequestBody)
    ensures
        r@ == postman_body(opt_ref(v)),
{
    let v = match v {
        Some(v) => v,
        None => return RequestBody::NoBody,
    };
    let mode = str_or_empty(get(v, "mode"));
    if text_eq(mode.as_str(), "raw") {
        let content = str_or_empty(get(v, "raw"));
        let lang = match as_str(get_of(get_of(get(v, "options"), "raw"), "language")) {
            Some(l) => String::from_str(l),
            None => String::from_str("text"),
        };
        if text_eq(lang.as_str(), "json") {
            RequestBody::Json { content }
        } else {
            let content_type = if text_eq(lang.as_str(), "xml") {
                String::from_str("application/xml")
            } else if text_eq(lang.as_str(), "html") {
                String::from_str("text/html")
            } else {
                String::from_str("text/plain")
            };
            RequestBody::Raw { content, content_type }
        }
    } else if text_eq(mode.as_str(), "urlencoded") {
        RequestBody::FormUrlEncoded { items: parse_postman_kv_array(get(v, "urlencoded")) }
    } else if text_eq(mode.as_str(), "formdata") {
        RequestBody::FormData { items: parse_postman_formdata(get(v, "formdata")) }
    } else if text_eq(mode.as_str(), "graphql") {
        RequestBody::Raw {
            content: str_or_empty(get_of(get(v, "graphql"), "query")),
            content_type: String::from_str("application/json"),
        }
    } else {
        RequestBody::NoBody
    }
}

fn clone_folder(folder: &Vec<String>) -> (r: Vec<String>)
    ensures
        text_views(r@) == text_views(folder@),
{
    let mut r: Vec<String> = Vec::new();
    let mut i: usize = 0;
    while i < folder.len()
        invariant
            i <= folder@.len(),
            text_views(r@) == text_views(folder@.take(i as int)),
        decreases folder.len() - i,
    {
        assert(folder@.take(i + 1) == folder@.take(i as int).push(folder@[i as int]));
        let ghost before = r@;
        let c = folder[i].clone();
        r.push(c);
        assert(r@ == before.push(c));
        assert(text_views(r@) == text_views(before).push(c@));
        assert(text_views(folder@.take(i + 1)) == text_views(folder@.take(i as int)).push(
            folder@[i as int]@,
        ));
        i = i + 1;
    }
    assert(folder@.take(folder@.len() as int) == folder@);
    r
}

/// One Postman request item as a draft named `name` under `folder`.
pub fn parse_postman_request(name: &str, req: &JsonValue, folder: &Vec<String>) -> (r: ImportedRequest)
    ensures
        r@ == postman_request(name@, *req, text_views(folder@)),
{
    let method_text = match as_str(get(req, "method")) {
        Some(m) => String::from_str(m),
        None => String::from_str("GET"),
    };
    let method = to_uppercase(method_text.as_str());
    let (url, params) = match get(req, "url") {
        Some(u) => parse_postman_url(u),
        None => {
            let r: Vec<KeyValueItem> = Vec::new();
            assert(kv_views(r@) == Seq::<KeyValueView>::empty());
            (String::new(), r)
        },
    };
    let headers = parse_postman_kv_array(get(req, "header"));
    let auth = match get(req, "auth") {
        Some(a) => parse_postman_auth(a),
        None => AuthConfig::NoAuth,
    };
    let body = parse_postman_body(get(req, "body"));
    ImportedRequest {
        name: String::from_str(name),
        method,
        url,
        params,
        headers,
        auth,
        body,
        folder: clone_folder(folder),
    }
}

/// Walks Postman's `item` array, where folders and requests are mixed: an
/// item with its own `item` array is a folder (walked with its name added to
/// the path), an item with a `request` is a request.
pub fn walk_postman_items(items: &Vec<JsonValue>, folder: &Vec<String>, out: &mut Vec<ImportedRequest>)
    ensures
        request_views(final(out)@) == request_views(old(out)@) + walk_items(items@, text_views(folder@)),
    decreases items@,
{
    let ghost start = request_views(old(out)@);
    let ghost fv = text_views(folder@);
    let mut i: usize = 0;
    assert(items@.take(0) == Seq::<JsonValue>::empty());
    assert(start + Seq::<ImportedRequestView>::empty() == start);
    while i < items.len()
        invariant
            i <= items@.len(),
            fv == text_views(folder@),
            request_views(out@) == start + walk_items(items@.take(i as int), fv),
        decreases items.len() - i,
    {
        let ghost prefix = items@.take(i + 1);
        assert(prefix.drop_last() == items@.take(i as int));
        assert(prefix.last() == items@[i as int]);
        let item = &items[i];
        let name = match as_str(get(item, "name")) {
            Some(n) => String::from_str(n),
            None => String::from_str("未命名"),
        };
        assert(name@ == item_name(*item));
        let ghost mid = request_views(out@);
        match as_array(get(item, "item")) {
            Some(children) => {
                let mut next = clone_folder(folder);
                next.push(name);
                assert(text_views(next@) == fv.push(item_name(*item)));
                proof {
                    lemma_children_smaller(*item);
                    assert(decreases_to!(items@ => items@[i as int]));
                }
                walk_postman_items(children, &next, out);
            },
            None => {
                match get(item, "request") {
                    Some(req) => {
                        let r = parse_postman_request(name.as_str(), req, folder);
                        out.push(r);
                        assert(request_views(out@) == mid + seq![r@]);
                    },
                    None => {
                        assert(mid + Seq::<ImportedRequestView>::empty() == mid);
                    },
                }
            },
        }
        i = i + 1;
    }
    assert(items@.take(items@.len() as int) == items@);
}

fn postman_var_exec(item: &JsonValue) -> (r: Option<EnvVar>)
    ensures
        match r {
            Some(x) => postman_var(*item) == Some(x@),
            None => postman_var(*item) is None,
        },
{
    let key = match as_str(get(item, "key")) {
        Some(k) => String::from_str(k),
        None => return None,
    };
    Some(EnvVar { key, value: str_or_empty(get(item, "value")), secret: false, enabled: true })
}

fn postman_vars_exec(arr: &Vec<JsonValue>) -> (r: Vec<EnvVar>)
    ensures
        var_views(r@) == postman_vars(arr@),
{
    let mut out: Vec<EnvVar> = Vec::new();
    let mut i: usize = 0;
    while i < arr.len()
        invariant
            i <= arr@.len(),
            var_views(out@) == postman_vars(arr@.take(i as int)),
        decreases arr.len() - i,
    {
        let ghost before = var_views(out@);
        assert(arr@.take(i + 1).drop_last() == arr@.take(i as int));
        assert(arr@.take(i + 1).last() == arr@[i as int]);
        match postman_var_exec(&arr[i]) {
            Some(x) => {
                out.push(x);
                assert(var_views(out@) == before + seq![x@]);
            },
            None => {
                assert(before + Seq::<EnvVarView>::empty() == before);
            },
        }
        i = i + 1;
    }
    assert(arr@.take(arr@.len() as int) == arr@);
    out
}

/// The collection that a parsed Postman document describes. A document
/// without any request is refused.
pub fn postman_collection_from_json(root: &JsonValue) -> (r: Result<ImportedCollection, AppError>)
    ensures
        match r {
            Ok(c) => postman_collection(*root) == Some(c@),
            Err(e) => postman_collection(*root) is None && (e matches AppError::Internal(m) && m@
                == no_requests_message()),
        },
{
    let info = get(root, "info");
    let name_text = as_str(get_of(info, "name"));
    let name = match name_text {
        Some(n) => {
            let t = trim(n);
            if t.as_str().is_empty() {
                String::from_str("导入的集合")
            } else {
                String::from_str(n)
            }
        },
        None => String::from_str("导入的集合"),
    };
    assert(name@ == collection_name(opt_ref(info)));
    let description = match get_of(info, "description") {
        Some(d) => value_to_text(d),
        None => None,
    };
    let variables = match as_array(get(root, "variable")) {
        Some(a) => postman_vars_exec(a),
        None => {
            let r: Vec<EnvVar> = Vec::new();
            assert(var_views(r@) == Seq::<EnvVarView>::empty());
            r
        },
    };
    let mut requests: Vec<ImportedRequest> = Vec::new();
    let no_folder: Vec<String> = Vec::new();
    assert(text_views(no_folder@) == Seq::<Seq<char>>::empty());
    assert(request_views(requests@) == Seq::<ImportedRequestView>::empty());
    match as_array(get(root, "item")) {
        Some(items) => {
            walk_postman_items(items, &no_folder, &mut requests);
        },
        None => {
            let items: Vec<JsonValue> = Vec::new();
            walk_postman_items(&items, &no_folder, &mut requests);
        },
    }
    if requests.len() == 0 {
        return Err(
            AppError::Internal(
                String::from_str(
                    "未从文件中解析出任何请求，请确认这是一份 Postman Collection v2.x 导出文件（Postman 里 Export → Collection v2.1）",
                ),
            ),
        );
    }
    Ok(ImportedCollection { name, description, variables, requests })
}

/// Parses a Postman Collection export (v2.0 and v2.1 share their shape).
/// Text that is not JSON is refused with the parser's message; a document
/// without any request is refused as well.
pub fn parse_postman_collection(content: &str) -> (r: Result<ImportedCollection, AppError>)
    ensures
        json_document(content@) is None ==> (r matches Err(AppError::Internal(m)) && bad_json_prefix().is_prefix_of(m@)),
        json_document(content@) matches Some(root) ==> match r {
            Ok(c) => postman_collection(root) == Some(c@),
            Err(e) => postman_collection(root) is None && (e matches AppError::Internal(m) && m@
                == no_requests_message()),
        },
{
    match parse_json(content) {
        Ok(root) => postman_collection_from_json(&root),
        Err(msg) => {
            let m = concat("Postman 集合 JSON 解析失败：", msg.as_str());
            proof {
                assert(m@.take(bad_json_prefix().len() as int) == bad_json_prefix());
            }
            Err(AppError::Internal(m))
        },
    }
}

} // verus!
