//! What goes into sending a request and what comes out of its response:
//! the interpolated method, URL, query, headers and body, the headers that
//! authentication and the body add, and the preview of the response body.
//! The sending itself is done by the caller with an HTTP client.
use vstd::prelude::*;
use vstd::utf8::{decode_utf8, valid_utf8};

use super::model::{
    kv_views, ApiKeyLocation, AuthConfig, EnvVar, KeyValueItem, KeyValueView, RequestBody, RequestDef,
};
use super::vars::{interp, interpolate, outcomes_ok, placeholder_keys, VarContext};
use crate::error::AppError;
use crate::text::{
    ascii_upper, concat, contains, is_ascii_text, contains_seq, eq_ignore_ascii_case, eq_ignore_ascii_case_of, to_uppercase,
    trim, trim_of, unicode_uppercase,
};

verus! {

/// How much of a response body is kept for display (5 MiB). The whole body
/// is still read; only the preview is cut.
pub const MAX_PREVIEW_BYTES: usize = 5 * 1024 * 1024;

/// The Content-Type that a body implies unless a header sets one.
pub fn default_content_type(body: &RequestBody) -> (r: Option<&'static str>)
    ensures
        match body {
            RequestBody::Json { .. } => r matches Some(t) && t@ == "application/json"@,
            RequestBody::FormUrlEncoded { .. } => r matches Some(t) && t@
                == "application/x-www-form-urlencoded"@,
            _ => r is None,
        },
{
    match body {
        RequestBody::Json { .. } => Some("application/json"),
        RequestBody::FormUrlEncoded { .. } => Some("application/x-www-form-urlencoded"),
        RequestBody::Raw { .. } | RequestBody::NoBody | RequestBody::FormData { .. } => None,
    }
}

// ---------------------------------------------------------------------
// Base64
// ---------------------------------------------------------------------

/// The character of a 6-bit value in the standard Base64 alphabet.
pub open spec fn b64_char(n: int) -> char {
    if n < 26 {
        (65 + n) as char
    } else if n < 52 {
        (97 + n - 26) as char
    } else if n < 62 {
        (48 + n - 52) as char
    } else if n == 62 {
        '+'
    } else {
        '/'
    }
}

/// Standard Base64 (RFC 4648, with `=` padding) of a byte sequence.
pub open spec fn base64_of(b: Seq<u8>) -> Seq<char>
    decreases b.len(),
{
    if b.len() == 0 {
        seq![]
    } else {
        let x = b[0] as int;
        let y = if b.len() > 1 { b[1] as int } else { 0 };
        let z = if b.len() > 2 { b[2] as int } else { 0 };
        if b.len() == 1 {
            seq![b64_char(x / 4), b64_char((x % 4) * 16), '=', '=']
        } else if b.len() == 2 {
            seq![b64_char(x / 4), b64_char((x % 4) * 16 + y / 16), b64_char((y % 16) * 4), '=']
        } else {
            seq![
                b64_char(x / 4),
                b64_char((x % 4) * 16 + y / 16),
                b64_char((y % 16) * 4 + z / 64),
                b64_char(z % 64),
            ] + base64_of(b.skip(3))
        }
    }
}

/// `base64::engine::general_purpose::STANDARD.encode`: the standard
/// alphabet with `=` padding, as RFC 4648 section 4 defines it.
#[verifier::external_body]
fn base64_standard(bytes: &[u8]) -> (r: String)
    ensures
        r@ == base64_of(bytes@),
{
    base64::Engine::encode(&base64::engine::general_purpose::STANDARD, bytes)
}

/// `std::str::from_utf8`: the text when the bytes are UTF-8.
#[verifier::external_body]
fn utf8_text(bytes: &[u8]) -> (r: Option<String>)
    ensures
        r is Some <==> valid_utf8(bytes@),
        r matches Some(s) ==> s@ == decode_utf8(bytes@),
{
    match std::str::from_utf8(bytes) {
        Ok(s) => Some(s.to_string()),
        Err(_) => None,
    }
}

// ---------------------------------------------------------------------
// Planning a request
// ---------------------------------------------------------------------

/// `out` is what interpolating `input` with `vars` can give.
pub open spec fn interps(out: Seq<char>, input: Seq<char>, vars: Seq<EnvVar>) -> bool {
    exists|outs: Seq<Option<Seq<char>>>|
        outcomes_ok(placeholder_keys(input), outs) && out == interp(input, vars, outs)
}

/// The rows that take part in a request: enabled, with a key.
pub open spec fn active_rows(rows: Seq<KeyValueView>) -> Seq<KeyValueView>
    decreases rows.len(),
{
    if rows.len() == 0 {
        seq![]
    } else {
        active_rows(rows.drop_last()) + if rows.last().enabled && rows.last().key.len() > 0 {
            seq![rows.last()]
        } else {
            seq![]
        }
    }
}

/// The texts of string pairs.
pub open spec fn pair_views(v: Seq<(String, String)>) -> Seq<(Seq<char>, Seq<char>)> {
    v.map_values(|p: (String, String)| (p.0@, p.1@))
}

/// Each pair is the interpolated key and value of the row at its place.
pub open spec fn pairs_interpolate(
    pairs: Seq<(Seq<char>, Seq<char>)>,
    rows: Seq<KeyValueView>,
    vars: Seq<EnvVar>,
) -> bool {
    &&& pairs.len() == rows.len()
    &&& forall|i: int|
        0 <= i < rows.len() ==> interps(#[trigger] pairs[i].0, rows[i].key, vars) && interps(
            pairs[i].1,
            rows[i].value,
            vars,
        )
}

/// The body of a planned request.
#[derive(Debug)]
pub enum PlannedBody {
    /// Nothing is sent.
    Empty,
    /// A JSON or raw text body.
    Text(String),
    /// `application/x-www-form-urlencoded` fields.
    Form(Vec<(String, String)>),
    /// `multipart/form-data` text fields.
    Multipart(Vec<(String, String)>),
}

/// A request with every variable resolved, ready for an HTTP client.
#[derive(Debug)]
pub struct RequestPlan {
    /// The URL, with `https://` put in front when it names no scheme.
    pub url: String,
    /// Query pairs to append to the URL, in order.
    pub query: Vec<(String, String)>,
    /// Headers to set, in order; a later one replaces an earlier one of the
    /// same name.
    pub headers: Vec<(String, String)>,
    /// The Content-Type to set when no header sets one.
    pub content_type: Option<String>,
    pub body: PlannedBody,
}

/// Whether some header is named Content-Type, in any ASCII case.
pub open spec fn has_content_type(headers: Seq<(Seq<char>, Seq<char>)>) -> bool {
    exists|i: int| 0 <= i < headers.len() && eq_ignore_ascii_case_of(#[trigger] headers[i].0, "content-type"@)
}

/// What `plan_request` gives for `req`: URL, query, headers, content type
/// and body are the interpolated parts of the request.
pub open spec fn plan_ok(p: RequestPlan, req: RequestDef, vars: Seq<EnvVar>) -> bool {
    let params = active_rows(kv_views(req.params@));
    let hdrs = active_rows(kv_views(req.headers@));
    let q = pair_views(p.query@);
    let h = pair_views(p.headers@);
    &&& exists|raw: Seq<char>|
        #![trigger interps(raw, req.url@, vars)]
        interps(raw, req.url@, vars) && trim_of(raw).len() > 0 && p.url@ == if contains_seq(
            raw,
            "://"@,
        ) {
            raw
        } else {
            "https://"@ + raw
        }
    &&& pairs_interpolate(q.take(params.len() as int), params, vars)
    &&& pairs_interpolate(h.take(hdrs.len() as int), hdrs, vars)
    &&& match req.auth {
        AuthConfig::ApiKey { key, value, add_to: ApiKeyLocation::Query } => {
            &&& q.len() == params.len() + 1
            &&& interps(q.last().0, key@, vars)
            &&& interps(q.last().1, value@, vars)
            &&& h.len() == hdrs.len()
        },
        AuthConfig::ApiKey { key, value, add_to: ApiKeyLocation::Header } => {
            &&& q.len() == params.len()
            &&& h.len() == hdrs.len() + 1
            &&& interps(h.last().0, key@, vars)
            &&& interps(h.last().1, value@, vars)
        },
        AuthConfig::Bearer { token } => {
            &&& q.len() == params.len()
            &&& h.len() == hdrs.len() + 1
            &&& h.last().0 == "authorization"@
            &&& exists|t: Seq<char>|
                #![trigger interps(t, token@, vars)]
                interps(t, token@, vars) && h.last().1 == "Bearer "@ + t
        },
        AuthConfig::Basic { username, password } => {
            &&& q.len() == params.len()
            &&& h.len() == hdrs.len() + 1
            &&& h.last().0 == "authorization"@
            &&& exists|u: Seq<char>, w: Seq<char>|
                #![trigger interps(u, username@, vars), interps(w, password@, vars)]
                interps(u, username@, vars) && interps(w, password@, vars) && h.last().1 == "Basic "@
                    + base64_of(vstd::utf8::encode_utf8(u + ":"@ + w))
        },
        AuthConfig::NoAuth => q.len() == params.len() && h.len() == hdrs.len(),
    }
    &&& p.content_type.is_some() == (!has_content_type(h) && match req.body {
        RequestBody::Json { .. } | RequestBody::FormUrlEncoded { .. } | RequestBody::Raw { .. } => true,
        _ => false,
    })
    &&& match p.content_type {
        Some(ct) => match req.body {
            RequestBody::Json { .. } => ct@ == "application/json"@,
            RequestBody::FormUrlEncoded { .. } => ct@ == "application/x-www-form-urlencoded"@,
            RequestBody::Raw { content_type, .. } => ct@ == content_type@,
            _ => false,
        },
        None => true,
    }
    &&& match req.body {
        RequestBody::NoBody => p.body is Empty,
        RequestBody::Json { content } => p.body matches PlannedBody::Text(t) && interps(
            t@,
            content@,
            vars,
        ),
        RequestBody::Raw { content, .. } => p.body matches PlannedBody::Text(t) && interps(
            t@,
            content@,
            vars,
        ),
        RequestBody::FormUrlEncoded { items } => p.body matches PlannedBody::Form(f) && pairs_interpolate(
            pair_views(f@),
            active_rows(kv_views(items@)),
            vars,
        ),
        RequestBody::FormData { items } => p.body matches PlannedBody::Multipart(f)
            && pairs_interpolate(pair_views(f@), active_rows(kv_views(items@)), vars),
    }
}

/// The method to send: the request's method interpolated, then upper-cased.
pub fn resolve_method(req: &RequestDef, ctx: &VarContext) -> (r: String)
    ensures
        exists|m: Seq<char>|
            #![trigger interps(m, req.method@, ctx.vars())]
            interps(m, req.method@, ctx.vars()) && r@ == unicode_uppercase(m) && (is_ascii_text(m) ==> r@
                == m.map_values(|c: char| ascii_upper(c))),
{
    let m = interpolate(req.method.as_str(), ctx);
    let r = to_uppercase(m.as_str());
    assert(interps(m@, req.method@, ctx.vars()));
    r
}

/// The interpolated keys and values of the active rows, in order.
fn interpolate_rows(rows: &Vec<KeyValueItem>, ctx: &VarContext) -> (r: Vec<(String, String)>)
    ensures
        pairs_interpolate(pair_views(r@), active_rows(kv_views(rows@)), ctx.vars()),
{
    let ghost rv = kv_views(rows@);
    let mut out: Vec<(String, String)> = Vec::new();
    let mut i: usize = 0;
    assert(rv.take(0) == Seq::<KeyValueView>::empty());
    while i < rows.len()
        invariant
            i <= rows@.len(),
            rv == kv_views(rows@),
            pairs_interpolate(pair_views(out@), active_rows(rv.take(i as int)), ctx.vars()),
        decreases rows.len() - i,
    {
        let ghost before = pair_views(out@);
        let ghost act0 = active_rows(rv.take(i as int));
        assert(rv.take(i + 1).drop_last() == rv.take(i as int));
        assert(rv.take(i + 1).last() == rows@[i as int]@);
        let r = &rows[i];
        if r.enabled && !r.key.as_str().is_empty() {
            let k = interpolate(r.key.as_str(), ctx);
            let v = interpolate(r.value.as_str(), ctx);
            assert(interps(k@, r.key@, ctx.vars()));
            assert(interps(v@, r.value@, ctx.vars()));
            let ghost x = (k@, v@);
            out.push((k, v));
            let ghost after = pair_views(out@);
            assert(after == before.push(x));
            let ghost act = active_rows(rv.take(i + 1));
            assert(act == act0.push(r@));
            assert forall|j: int| 0 <= j < act.len() implies interps(
                #[trigger] after[j].0,
                act[j].key,
                ctx.vars(),
            ) && interps(after[j].1, act[j].value, ctx.vars()) by {
                if j < act.len() - 1 {
                    assert(after[j] == before[j]);
                    assert(act[j] == act0[j]);
                }
            }
        } else {
            assert(active_rows(rv.take(i + 1)) == act0 + Seq::<KeyValueView>::empty());
            assert(act0 + Seq::<KeyValueView>::empty() == act0);
        }
        i = i + 1;
    }
    assert(rv.take(rows@.len() as int) == rv);
    out
}

/// Resolves every part of a request against the variables in `ctx`: the
/// URL (refused when blank, given `https://` when it names no scheme), the
/// enabled query rows and headers, the authentication, the default
/// Content-Type and the body. The method is resolved by `resolve_method`.
pub fn plan_request(req: &RequestDef, ctx: &VarContext) -> (r: Result<RequestPlan, AppError>)
    ensures
        match r {
            Ok(p) => plan_ok(p, *req, ctx.vars()),
            Err(e) => e matches AppError::Internal(m) && m@ == "请求 URL 不能为空"@ && exists|raw: Seq<char>|
                #![trigger interps(raw, req.url@, ctx.vars())]
                interps(raw, req.url@, ctx.vars()) && trim_of(raw).len() == 0,
        },
{
    let ghost vars = ctx.vars();
    let raw_url = interpolate(req.url.as_str(), ctx);
    assert(interps(raw_url@, req.url@, vars));
    let trimmed = trim(raw_url.as_str());
    if trimmed.as_str().is_empty() {
        return Err(AppError::Internal(String::from_str("请求 URL 不能为空")));
    }
    let url = if contains(raw_url.as_str(), "://") {
        raw_url
    } else {
        concat("https://", raw_url.as_str())
    };
    let mut query = interpolate_rows(&req.params, ctx);
    let ghost q0 = pair_views(query@);
    let mut headers = interpolate_rows(&req.headers, ctx);
    let ghost h0 = pair_views(headers@);
    match &req.auth {
        AuthConfig::NoAuth => {},
        AuthConfig::Bearer { token } => {
            let t = interpolate(token.as_str(), ctx);
            assert(interps(t@, token@, vars));
            let value = concat("Bearer ", t.as_str());
            headers.push((String::from_str("authorization"), value));
            assert(pair_views(headers@) == h0.push(("authorization"@, "Bearer "@ + t@)));
        },
        AuthConfig::Basic { username, password } => {
            let u = interpolate(username.as_str(), ctx);
            let w = interpolate(password.as_str(), ctx);
            assert(interps(u@, username@, vars));
            assert(interps(w@, password@, vars));
            let u_colon = concat(u.as_str(), ":");
            let raw = concat(u_colon.as_str(), w.as_str());
            let encoded = base64_standard(raw.as_str().as_bytes());
            let value = concat("Basic ", encoded.as_str());
            headers.push((String::from_str("authorization"), value));
            assert(pair_views(headers@) == h0.push(("authorization"@, value@)));
        },
        AuthConfig::ApiKey { key, value, add_to } => {
            let k = interpolate(key.as_str(), ctx);
            let v = interpolate(value.as_str(), ctx);
            assert(interps(k@, key@, vars));
            assert(interps(v@, value@, vars));
            match add_to {
                ApiKeyLocation::Query => {
                    query.push((k, v));
                    assert(pair_views(query@) == q0.push((k@, v@)));
                },
                ApiKeyLocation::Header => {
                    headers.push((k, v));
                    assert(pair_views(headers@) == h0.push((k@, v@)));
                },
            }
        },
    }
    assert(pair_views(query@).take(q0.len() as int) == q0);
    assert(pair_views(headers@).take(h0.len() as int) == h0);
    let ghost hv = pair_views(headers@);
    let mut has_ct = false;
    let mut i: usize = 0;
    while i < headers.len()
        invariant
            i <= headers@.len(),
            hv == pair_views(headers@),
            has_ct == exists|j: int| 0 <= j < i && eq_ignore_ascii_case_of(#[trigger] hv[j].0, "content-type"@),
        decreases headers.len() - i,
    {
        if eq_ignore_ascii_case(headers[i].0.as_str(), "content-type") {
            assert(eq_ignore_ascii_case_of(hv[i as int].0, "content-type"@));
            has_ct = true;
        }
        i = i + 1;
    }
    let content_type = if has_ct {
        None
    } else {
        match &req.body {
            RequestBody::Raw { content_type, .. } => Some(content_type.clone()),
            _ => match default_content_type(&req.body) {
                Some(ct) => Some(String::from_str(ct)),
                None => None,
            },
        }
    };
    let body = match &req.body {
        RequestBody::NoBody => PlannedBody::Empty,
        RequestBody::Json { content } => {
            let t = interpolate(content.as_str(), ctx);
            assert(interps(t@, content@, vars));
            PlannedBody::Text(t)
        },
        RequestBody::Raw { content, .. } => {
            let t = interpolate(content.as_str(), ctx);
            assert(interps(t@, content@, vars));
            PlannedBody::Text(t)
        },
        RequestBody::FormUrlEncoded { items } => {
            PlannedBody::Form(interpolate_rows(items, ctx))
        },
        RequestBody::FormData { items } => {
            PlannedBody::Multipart(interpolate_rows(items, ctx))
        },
    };
    let p = RequestPlan { url, query, headers, content_type, body };
    assert(interps(raw_url@, req.url@, vars));
    Ok(p)
}

// ---------------------------------------------------------------------
// Checking a planned request
// ---------------------------------------------------------------------

/// A token character of HTTP (RFC 9110): a letter, a digit, or one of
/// ``!#$%&'*+-.^_`|~``.
pub open spec fn is_tchar(c: char) -> bool {
    ||| 'a' <= c <= 'z'
    ||| 'A' <= c <= 'Z'
    ||| '0' <= c <= '9'
    ||| c == '!' || c == '#' || c == '$' || c == '%' || c == '&' || c == '\'' || c == '*'
    ||| c == '+' || c == '-' || c == '.' || c == '^' || c == '_' || c == '`' || c == '|' || c == '~'
}

/// A method that `http::Method::from_bytes` accepts: one or more token
/// characters.
pub open spec fn is_token(s: Seq<char>) -> bool {
    s.len() > 0 && forall|i: int| 0 <= i < s.len() ==> is_tchar(#[trigger] s[i])
}

/// A name that `http::HeaderName::from_bytes` accepts: 1 to 65535 token
/// characters.
pub open spec fn is_header_name(s: Seq<char>) -> bool {
    is_token(s) && s.len() <= 65535
}

/// A value that `http::HeaderValue::from_str` accepts: no control
/// character but the tab.
pub open spec fn is_header_value(s: Seq<char>) -> bool {
    forall|i: int| 0 <= i < s.len() ==> (#[trigger] s[i] == '\t' || (s[i] as int >= 32 && s[i] as int != 127))
}

/// The message of `http::header::InvalidHeaderName`.
pub open spec fn header_name_error() -> Seq<char> {
    "invalid HTTP header name"@
}

/// The message of `http::header::InvalidHeaderValue`.
pub open spec fn header_value_error() -> Seq<char> {
    "failed to parse header value"@
}

/// The URL text that `reqwest::Url::parse` of `raw`, followed by appending
/// each query pair with `query_pairs_mut`, gives; `None` when `raw` is not a
/// URL.
pub uninterp spec fn url_with_query(raw: Seq<char>, query: Seq<(Seq<char>, Seq<char>)>) -> Option<Seq<char>>;

/// `reqwest::Method::from_bytes` (`http::Method`): whether `m` is a method.
#[verifier::external_body]
fn method_valid(m: &str) -> (b: bool)
    ensures
        b == is_token(m@),
{
    reqwest::Method::from_bytes(m.as_bytes()).is_ok()
}

/// `reqwest::header::HeaderName::from_bytes`: whether `n` is a header name,
/// and the error's message when it is not.
#[verifier::external_body]
fn check_header_name(n: &str) -> (r: Result<(), String>)
    ensures
        r is Ok <==> is_header_name(n@),
        r matches Err(e) ==> e@ == header_name_error(),
{
    reqwest::header::HeaderName::from_bytes(n.as_bytes()).map(|_| ()).map_err(|e| e.to_string())
}

/// `reqwest::header::HeaderValue::from_str`: whether `v` is a header value,
/// and the error's message when it is not.
#[verifier::external_body]
fn check_header_value(v: &str) -> (r: Result<(), String>)
    ensures
        r is Ok <==> is_header_value(v@),
        r matches Err(e) ==> e@ == header_value_error(),
{
    reqwest::header::HeaderValue::from_str(v).map(|_| ()).map_err(|e| e.to_string())
}

/// `reqwest::Url::parse` of `raw`, then every pair appended to its query
/// with `query_pairs_mut().extend_pairs`, then the URL's text. Which URLs
/// parse, and the text that comes out, is the named `url_with_query`; of the
/// parser's message on failure nothing is stated. With no pair the query is
/// still opened, so the text ends in `?`. The `url` crate panics only when a
/// URL's text passes 4 GiB.
#[verifier::external_body]
fn resolve_url(raw: &str, query: &Vec<(String, String)>) -> (r: Result<String, String>)
    ensures
        r is Ok <==> url_with_query(raw@, pair_views(query@)) is Some,
        r matches Ok(u) ==> url_with_query(raw@, pair_views(query@)) == Some(u@),
{
    let mut url = reqwest::Url::parse(raw).map_err(|e| e.to_string())?;
    url.query_pairs_mut().extend_pairs(query.iter().map(|(k, v)| (k.as_str(), v.as_str())));
    Ok(url.to_string())
}

/// The message for a method that is not one.
pub open spec fn method_error(m: Seq<char>) -> Seq<char> {
    "非法的 HTTP 方法: "@ + m
}

/// The start of the message for a URL that does not parse; the parser's
/// message follows.
pub open spec fn url_error_prefix() -> Seq<char> {
    "URL 解析失败: "@
}

/// The message of the first header that is refused, if any. The first
/// `rows` headers are the request's own rows, whose messages say which part
/// was refused; the rest is the authentication header, refused with the
/// bare message.
pub open spec fn header_check(h: Seq<(Seq<char>, Seq<char>)>, rows: int) -> Option<Seq<char>>
    decreases h.len(),
{
    if h.len() == 0 {
        None
    } else if !is_header_name(h[0].0) {
        Some(
            if rows > 0 {
                "非法的请求头名: "@ + header_name_error()
            } else {
                header_name_error()
            },
        )
    } else if !is_header_value(h[0].1) {
        Some(
            if rows > 0 {
                "非法的请求头值: "@ + header_value_error()
            } else {
                header_value_error()
            },
        )
    } else {
        header_check(h.drop_first(), rows - 1)
    }
}

/// A request ready to be sent: every part checked.
#[derive(Debug)]
pub struct PreparedRequest {
    /// The method, upper-cased; a valid HTTP method.
    pub method: String,
    /// The URL with the query appended, as the URL parser writes it.
    pub url: String,
    /// The headers to set, in order, every name and value valid; a later one
    /// replaces an earlier one of the same name.
    pub headers: Vec<(String, String)>,
    /// The Content-Type to set: the plan's, when it is a valid header value.
    pub content_type: Option<String>,
    pub body: PlannedBody,
}

/// What checking plan `plan` for method `method` gives, `rows` of its
/// headers being the request's own rows: the URL is parsed with the query
/// appended (refused with the parser's message), then each header is
/// checked in order; a Content-Type that is no valid value is left out.
pub open spec fn checked_ok(r: Result<PreparedRequest, AppError>, method: Seq<char>, plan: RequestPlan, rows: int) -> bool {
    match url_with_query(plan.url@, pair_views(plan.query@)) {
        None => r matches Err(AppError::Internal(m)) && url_error_prefix().is_prefix_of(m@),
        Some(u) => match header_check(pair_views(plan.headers@), rows) {
            Some(msg) => r matches Err(AppError::Internal(m)) && m@ == msg,
            None => r matches Ok(p) && {
                &&& p.method@ == method
                &&& p.url@ == u
                &&& pair_views(p.headers@) == pair_views(plan.headers@)
                &&& p.body == plan.body
                &&& match plan.content_type {
                    Some(ct) => if is_header_value(ct@) {
                        p.content_type matches Some(c) && c@ == ct@
                    } else {
                        p.content_type is None
                    },
                    None => p.content_type is None,
                }
            },
        },
    }
}

/// Checks a planned request whose method `method` is valid: resolves the
/// URL with its query, then checks every header in order (the first `rows`
/// are the request's own rows), and keeps the Content-Type when it is a
/// valid value.
pub fn check_plan(method: String, plan: RequestPlan, rows: usize) -> (r: Result<PreparedRequest, AppError>)
    ensures
        checked_ok(r, method@, plan, rows as int),
{
    let ghost gp = plan;
    let url = match resolve_url(plan.url.as_str(), &plan.query) {
        Ok(u) => u,
        Err(e) => {
            let m = concat("URL 解析失败: ", e.as_str());
            assert(m@.take(url_error_prefix().len() as int) == url_error_prefix());
            return Err(AppError::Internal(m));
        },
    };
    let ghost h = pair_views(plan.headers@);
    let mut i: usize = 0;
    assert(h.skip(0) == h);
    while i < plan.headers.len()
        invariant
            i <= h.len(),
            plan == gp,
            h == pair_views(plan.headers@),
            url_with_query(gp.url@, pair_views(gp.query@)) == Some(url@),
            header_check(h, rows as int) == header_check(h.skip(i as int), rows - i),
        decreases plan.headers.len() - i,
    {
        let ghost rest = h.skip(i as int);
        assert(rest[0] == h[i as int]);
        assert(rest.drop_first() == h.skip(i + 1));
        let (k, v) = &plan.headers[i];
        match check_header_name(k.as_str()) {
            Ok(()) => {},
            Err(e) => {
                let m = if i < rows {
                    concat("非法的请求头名: ", e.as_str())
                } else {
                    e
                };
                return Err(AppError::Internal(m));
            },
        }
        match check_header_value(v.as_str()) {
            Ok(()) => {},
            Err(e) => {
                let m = if i < rows {
                    concat("非法的请求头值: ", e.as_str())
                } else {
                    e
                };
                return Err(AppError::Internal(m));
            },
        }
        i = i + 1;
    }
    assert(h.skip(h.len() as int).len() == 0);
    let content_type = match plan.content_type {
        Some(ct) => match check_header_value(ct.as_str()) {
            Ok(()) => Some(ct),
            Err(_) => None,
        },
        None => None,
    };
    Ok(PreparedRequest { method, url, headers: plan.headers, content_type, body: plan.body })
}

/// Resolves and checks a request, in this order: the method (interpolated
/// and upper-cased) must be an HTTP method; the URL must not be blank; the
/// URL with its query must parse; each header row, then the authentication
/// header, must have a valid name and value. The request is then ready to
/// be sent.
pub fn prepare_request(req: &RequestDef, ctx: &VarContext) -> (r: Result<PreparedRequest, AppError>)
    ensures
        exists|m: Seq<char>|
            #![trigger interps(m, req.method@, ctx.vars())]
            interps(m, req.method@, ctx.vars()) && if !is_token(unicode_uppercase(m)) {
                r matches Err(AppError::Internal(e)) && e@ == method_error(unicode_uppercase(m))
            } else {
                ||| (r matches Err(AppError::Internal(e)) && e@ == "请求 URL 不能为空"@ && exists|
                    raw: Seq<char>,
                |
                    #![trigger interps(raw, req.url@, ctx.vars())]
                    interps(raw, req.url@, ctx.vars()) && trim_of(raw).len() == 0)
                ||| exists|p: RequestPlan|
                    #![trigger plan_ok(p, *req, ctx.vars())]
                    plan_ok(p, *req, ctx.vars()) && checked_ok(
                        r,
                        unicode_uppercase(m),
                        p,
                        active_rows(kv_views(req.headers@)).len() as int,
                    )
            },
{
    let method = resolve_method(req, ctx);
    let ghost m = choose|m: Seq<char>|
        interps(m, req.method@, ctx.vars()) && method@ == unicode_uppercase(m);
    assert(interps(m, req.method@, ctx.vars()));
    if !method_valid(method.as_str()) {
        let e = concat("非法的 HTTP 方法: ", method.as_str());
        return Err(AppError::Internal(e));
    }
    let plan = match plan_request(req, ctx) {
        Ok(p) => p,
        Err(e) => {
            return Err(e);
        },
    };
    let ghost gp = plan;
    assert(plan_ok(gp, *req, ctx.vars()));
    let adds = match &req.auth {
        AuthConfig::Bearer { .. } | AuthConfig::Basic { .. } => true,
        AuthConfig::ApiKey { add_to, .. } => match add_to {
            ApiKeyLocation::Header => true,
            ApiKeyLocation::Query => false,
        },
        AuthConfig::NoAuth => false,
    };
    let rows = if adds {
        plan.headers.len() - 1
    } else {
        plan.headers.len()
    };
    assert(rows == active_rows(kv_views(req.headers@)).len());
    let r = check_plan(method, plan, rows);
    assert(checked_ok(r, unicode_uppercase(m), gp, rows as int));
    r
}

// ---------------------------------------------------------------------
// Response preview
// ---------------------------------------------------------------------

/// The part of a response body kept for display.
#[derive(Debug)]
pub struct ResponsePreview {
    /// The kept bytes as text when they are UTF-8; empty otherwise.
    pub body: String,
    pub body_is_text: bool,
    /// The kept bytes in Base64 when they are not UTF-8.
    pub body_base64: Option<String>,
    /// The size of the whole body.
    pub size_bytes: u64,
    /// Whether the body was longer than what is kept.
    pub truncated: bool,
}

/// The bytes kept of a body of bytes `b`: at most `MAX_PREVIEW_BYTES`.
pub open spec fn kept_bytes(b: Seq<u8>) -> Seq<u8> {
    if b.len() > MAX_PREVIEW_BYTES {
        b.take(MAX_PREVIEW_BYTES as int)
    } else {
        b
    }
}

/// Prepares a response body for display: the first `MAX_PREVIEW_BYTES`
/// bytes are kept, shown as text when they are UTF-8 and in Base64
/// otherwise; `size_bytes` is the size of the whole body.
pub fn preview_response(bytes: &[u8]) -> (r: ResponsePreview)
    ensures
        r.size_bytes == bytes@.len(),
        r.truncated == (bytes@.len() > MAX_PREVIEW_BYTES),
        r.body_is_text == valid_utf8(kept_bytes(bytes@)),
        r.body_is_text ==> r.body@ == decode_utf8(kept_bytes(bytes@)) && r.body_base64 is None,
        !r.body_is_text ==> r.body@.len() == 0 && (r.body_base64 matches Some(b) && b@ == base64_of(
            kept_bytes(bytes@),
        )),
{
    let n = bytes.len();
    let truncated = n > MAX_PREVIEW_BYTES;
    let preview: &[u8] = if truncated {
        &bytes[0..MAX_PREVIEW_BYTES]
    } else {
        bytes
    };
    assert(preview@ == kept_bytes(bytes@)) by {
        if !truncated {
            assert(bytes@.subrange(0, n as int) == bytes@);
        }
    }
    let (body, body_is_text, body_base64) = match utf8_text(preview) {
        Some(text) => (text, true, None),
        None => (String::new(), false, Some(base64_standard(preview))),
    };
    ResponsePreview { body, body_is_text, body_base64, size_bytes: n as u64, truncated }
}

} // verus!
