//! The decisions behind the workspace commands: which values are secret and
//! how they are masked before a request and its response are written to the
//! history, and whether opening a request reuses a tab.
use vstd::prelude::*;

use crate::error::AppError;
use crate::http_desk::model::{
    var_views, EnvVar, EnvironmentDef, HttpExecuteResult, HttpRequestHistoryEntry, HttpWorkspaceTab,
    RequestDef,
};
use crate::text::{
    contains_seq, lemma_replace_absent, lemma_replace_with_stars, replace, replace_of, star_free,
    text_eq,
};

verus! {

// ---------------------------------------------------------------------
// Secrets
// ---------------------------------------------------------------------

/// The mask written in place of a secret.
pub open spec fn mask() -> Seq<char> {
    "***"@
}

/// `text` with every non-empty secret replaced by the mask, one secret after
/// the other, in order.
pub open spec fn redact_spec(text: Seq<char>, secrets: Seq<Seq<char>>) -> Seq<char>
    decreases secrets.len(),
{
    if secrets.len() == 0 {
        text
    } else {
        let prev = redact_spec(text, secrets.drop_last());
        if secrets.last().len() == 0 {
            prev
        } else {
            replace_of(prev, secrets.last(), mask())
        }
    }
}

/// The texts of a sequence of strings.
pub open spec fn texts(v: Seq<String>) -> Seq<Seq<char>> {
    v.map_values(|s: String| s@)
}

/// Masks every non-empty secret value in `text` with `***`.
pub fn redact(text: &str, secrets: &[String]) -> (r: String)
    ensures
        r@ == redact_spec(text@, texts(secrets@)),
{
    let ghost sv = texts(secrets@);
    let mut out = String::from_str(text);
    let mut i: usize = 0;
    assert(sv.take(0) == Seq::<Seq<char>>::empty());
    while i < secrets.len()
        invariant
            i <= secrets@.len(),
            sv == texts(secrets@),
            out@ == redact_spec(text@, sv.take(i as int)),
        decreases secrets.len() - i,
    {
        assert(sv.take(i + 1).drop_last() == sv.take(i as int));
        assert(sv.take(i + 1).last() == secrets@[i as int]@);
        let s = &secrets[i];
        if !s.as_str().is_empty() {
            out = replace(out.as_str(), s.as_str(), "***");
        }
        i = i + 1;
    }
    assert(sv.take(secrets@.len() as int) == sv);
    out
}

/// The values of the secret variables that are not empty, in order.
pub open spec fn secret_values_of(vars: Seq<EnvVar>) -> Seq<Seq<char>>
    decreases vars.len(),
{
    if vars.len() == 0 {
        seq![]
    } else {
        secret_values_of(vars.drop_last()) + if vars.last().secret && vars.last().value@.len() > 0 {
            seq![vars.last().value@]
        } else {
            seq![]
        }
    }
}

fn push_secret_values(vars: &[EnvVar], out: &mut Vec<String>)
    ensures
        texts(final(out)@) == texts(old(out)@) + secret_values_of(vars@),
{
    let ghost start = texts(old(out)@);
    let mut i: usize = 0;
    assert(vars@.take(0) == Seq::<EnvVar>::empty());
    assert(start + Seq::<Seq<char>>::empty() == start);
    while i < vars.len()
        invariant
            i <= vars@.len(),
            texts(out@) == start + secret_values_of(vars@.take(i as int)),
        decreases vars.len() - i,
    {
        let ghost before = texts(out@);
        assert(vars@.take(i + 1).drop_last() == vars@.take(i as int));
        assert(vars@.take(i + 1).last() == vars@[i as int]);
        let v = &vars[i];
        if v.secret && !v.value.as_str().is_empty() {
            let c = v.value.clone();
            out.push(c);
            assert(texts(out@) == before.push(c@));
        } else {
            assert(before + Seq::<Seq<char>>::empty() == before);
        }
        i = i + 1;
    }
    assert(vars@.take(vars@.len() as int) == vars@);
}

/// The non-empty values of the secret variables of the three scopes, the
/// environment's first.
pub fn secret_values(environment: &[EnvVar], collection: &[EnvVar], global: &[EnvVar]) -> (r: Vec<String>)
    ensures
        texts(r@) == secret_values_of(environment@) + secret_values_of(collection@) + secret_values_of(
            global@,
        ),
{
    let mut r: Vec<String> = Vec::new();
    assert(texts(r@) == Seq::<Seq<char>>::empty());
    push_secret_values(environment, &mut r);
    assert(Seq::<Seq<char>>::empty() + secret_values_of(environment@) == secret_values_of(environment@));
    push_secret_values(collection, &mut r);
    push_secret_values(global, &mut r);
    r
}

/// `r` is `result` as it is written to the history: the resolved URL, the
/// body and every header value masked; the rest as it is.
pub open spec fn redacted(r: HttpExecuteResult, result: HttpExecuteResult, secrets: Seq<Seq<char>>) -> bool {
    &&& r.status == result.status
    &&& r.status_text@ == result.status_text@
    &&& r.body@ == redact_spec(result.body@, secrets)
    &&& r.body_is_text == result.body_is_text
    &&& r.body_base64 == result.body_base64
    &&& r.duration_ms == result.duration_ms
    &&& r.size_bytes == result.size_bytes
    &&& r.resolved_url@ == redact_spec(result.resolved_url@, secrets)
    &&& r.truncated == result.truncated
    &&& r.headers@.len() == result.headers@.len()
    &&& forall|i: int|
        0 <= i < r.headers@.len() ==> (#[trigger] r.headers@[i]).0@ == result.headers@[i].0@
            && r.headers@[i].1@ == redact_spec(result.headers@[i].1@, secrets)
}

/// A result as it is written to the history: the resolved URL, the body
/// and every header value masked; the rest as it is.
pub fn redact_result(result: &HttpExecuteResult, secrets: &[String]) -> (r: HttpExecuteResult)
    ensures
        redacted(r, *result, texts(secrets@)),
{
    let mut headers: Vec<(String, String)> = Vec::new();
    let mut i: usize = 0;
    while i < result.headers.len()
        invariant
            i <= result.headers@.len(),
            headers@.len() == i,
            forall|j: int|
                0 <= j < i ==> (#[trigger] headers@[j]).0@ == result.headers@[j].0@ && headers@[j].1@
                    == redact_spec(result.headers@[j].1@, texts(secrets@)),
        decreases result.headers.len() - i,
    {
        let (k, v) = &result.headers[i];
        let item = (k.clone(), redact(v.as_str(), secrets));
        headers.push(item);
        i = i + 1;
    }
    let body_base64 = match &result.body_base64 {
        Some(b) => Some(b.clone()),
        None => None,
    };
    HttpExecuteResult {
        status: result.status,
        status_text: result.status_text.clone(),
        headers,
        body: redact(result.body.as_str(), secrets),
        body_is_text: result.body_is_text,
        body_base64,
        duration_ms: result.duration_ms,
        size_bytes: result.size_bytes,
        resolved_url: redact(result.resolved_url.as_str(), secrets),
        truncated: result.truncated,
    }
}

/// Masking hides every secret: when no secret holds a `*`, no non-empty
/// secret occurs in the masked text.
pub proof fn lemma_redact_hides_secrets(text: Seq<char>, secrets: Seq<Seq<char>>)
    requires
        forall|j: int| 0 <= j < secrets.len() ==> star_free(#[trigger] secrets[j]),
    ensures
        forall|j: int|
            0 <= j < secrets.len() && secrets[j].len() > 0 ==> !contains_seq(
                redact_spec(text, secrets),
                #[trigger] secrets[j],
            ),
    decreases secrets.len(),
{
    if secrets.len() > 0 {
        let init = secrets.drop_last();
        assert forall|j: int| 0 <= j < init.len() implies star_free(#[trigger] init[j]) by {
            assert(init[j] == secrets[j]);
        }
        lemma_redact_hides_secrets(text, init);
        let prev = redact_spec(text, init);
        let last = secrets.last();
        assert(star_free(secrets[secrets.len() - 1]));
        assert forall|j: int| 0 <= j < secrets.len() && secrets[j].len() > 0 implies !contains_seq(
            redact_spec(text, secrets),
            #[trigger] secrets[j],
        ) by {
            assert(star_free(secrets[j]));
            if last.len() == 0 {
                assert(j < secrets.len() - 1);
                assert(secrets[j] == init[j]);
            } else {
                let m = mask();
                assert(m.len() == 3 && m[0] == '*' && m[1] == '*' && m[2] == '*') by {
                    reveal_strlit("***");
                }
                if j == secrets.len() - 1 {
                    lemma_replace_with_stars(prev, last, m, last);
                } else {
                    assert(secrets[j] == init[j]);
                    if secrets[j] != last {
                        lemma_replace_with_stars(prev, last, m, secrets[j]);
                    } else {
                        lemma_replace_with_stars(prev, last, m, last);
                    }
                }
            }
        }
    }
}

/// Masking changes nothing in a text where no secret occurs.
pub proof fn lemma_redact_without_secrets(text: Seq<char>, secrets: Seq<Seq<char>>)
    requires
        forall|j: int| 0 <= j < secrets.len() ==> !contains_seq(text, #[trigger] secrets[j]),
    ensures
        redact_spec(text, secrets) == text,
    decreases secrets.len(),
{
    if secrets.len() > 0 {
        let init = secrets.drop_last();
        assert forall|j: int| 0 <= j < init.len() implies !contains_seq(text, #[trigger] init[j]) by {
            assert(init[j] == secrets[j]);
        }
        lemma_redact_without_secrets(text, init);
        assert(!contains_seq(text, secrets[secrets.len() - 1]));
        if secrets.last().len() > 0 {
            lemma_replace_absent(text, secrets.last(), mask());
        }
    }
}

// ---------------------------------------------------------------------
// Variables and history of a sent request
// ---------------------------------------------------------------------

/// The variables of the environment chosen for a request: those of the first
/// environment with the given id; none when no id, or an empty one, is given,
/// or when no environment has it.
pub fn environment_variables(environments: Vec<EnvironmentDef>, environment_id: Option<&str>) -> (r: Vec<
    EnvVar,
>)
    ensures
        match environment_id {
            Some(id) => if id@.len() == 0 {
                r@.len() == 0
            } else {
                ||| exists|i: int|
                    0 <= i < environments@.len() && (#[trigger] environments@[i]).id@ == id@ && (forall|
                        j: int,
                    | 0 <= j < i ==> environments@[j].id@ != id@) && var_views(r@) == var_views(
                        environments@[i].variables@,
                    )
                ||| (forall|j: int| 0 <= j < environments@.len() ==> environments@[j].id@ != id@)
                    && r@.len() == 0
            },
            None => r@.len() == 0,
        },
{
    let id = match environment_id {
        Some(id) => id,
        None => {
            return Vec::new();
        },
    };
    if id.is_empty() {
        return Vec::new();
    }
    let ghost envs = environments@;
    let mut environments = environments;
    let mut i: usize = 0;
    while i < environments.len() && !text_eq(environments[i].id.as_str(), id)
        invariant
            environments@ == envs,
            i <= envs.len(),
            forall|j: int| 0 <= j < i ==> envs[j].id@ != id@,
        decreases environments.len() - i,
    {
        i = i + 1;
    }
    if i < environments.len() {
        let e = environments.swap_remove(i);
        assert(e == envs[i as int]);
        e.variables
    } else {
        Vec::new()
    }
}

/// What the history keeps of a sent request: its entry and, when a response
/// came, the result that its snapshot stores, with every secret masked. The
/// entry names the request only when it has an id; it holds the status, the
/// duration and the size of a response, or the masked message of an error.
pub fn history_record(
    id: String,
    workspace_id: String,
    collection_slug: String,
    request: &RequestDef,
    environment_id: Option<String>,
    outcome: &Result<HttpExecuteResult, AppError>,
    secrets: &[String],
    created_at: String,
) -> (r: (HttpRequestHistoryEntry, Option<HttpExecuteResult>))
    ensures
        r.0.id == id,
        r.0.workspace_id == workspace_id,
        r.0.collection_slug == collection_slug,
        r.0.environment_id == environment_id,
        r.0.created_at == created_at,
        r.0.method@ == request.method@,
        r.0.url@ == request.url@,
        match r.0.request_id {
            Some(x) => request.id@.len() > 0 && x@ == request.id@,
            None => request.id@.len() == 0,
        },
        match outcome {
            Ok(res) => {
                &&& r.0.status_code == Some(res.status as i64)
                &&& r.0.duration_ms == Some(res.duration_ms as i64)
                &&& r.0.response_size_bytes == Some(res.size_bytes as i64)
                &&& r.0.error_message is None
                &&& r.1 matches Some(s) && redacted(s, *res, texts(secrets@))
            },
            Err(e) => {
                &&& r.0.status_code is None
                &&& r.0.duration_ms is None
                &&& r.0.response_size_bytes is None
                &&& r.0.error_message matches Some(m) && m@ == redact_spec(e.text(), texts(secrets@))
                &&& r.1 is None
            },
        },
{
    let request_id = if request.id.as_str().is_empty() {
        None
    } else {
        Some(request.id.clone())
    };
    let (status_code, duration_ms, response_size_bytes, error_message, snapshot) = match outcome {
        Ok(res) => (
            Some(res.status as i64),
            Some(res.duration_ms as i64),
            Some(res.size_bytes as i64),
            None,
            Some(redact_result(res, secrets)),
        ),
        Err(e) => {
            let m = e.message();
            (None, None, None, Some(redact(m.as_str(), secrets)), None)
        },
    };
    let entry = HttpRequestHistoryEntry {
        id,
        workspace_id,
        collection_slug,
        request_id,
        environment_id,
        method: request.method.clone(),
        url: request.url.clone(),
        status_code,
        duration_ms,
        response_size_bytes,
        error_message,
        created_at,
    };
    (entry, snapshot)
}

// ---------------------------------------------------------------------
// Tabs
// ---------------------------------------------------------------------

/// What opening a request in a tab does.
#[derive(Debug)]
pub enum TabChoice {
    /// The tab at this index already shows the request.
    Reuse(usize),
    /// A new tab is made, placed last.
    Create { sort_order: i64 },
}

/// `r` is what opening request `request_id` does among the tabs `existing`:
/// reuse the first tab that shows it, or make a new one after the others.
pub open spec fn tab_choice_ok(existing: Seq<HttpWorkspaceTab>, request_id: Seq<char>, r: TabChoice) -> bool {
    match r {
        TabChoice::Reuse(i) => i < existing.len() && existing[i as int].request_id@ == request_id && forall|
            j: int,
        | 0 <= j < i ==> existing[j].request_id@ != request_id,
        TabChoice::Create { sort_order } => (forall|j: int|
            0 <= j < existing.len() ==> existing[j].request_id@ != request_id) && (existing.len()
            <= i64::MAX ==> sort_order == existing.len()),
    }
}

/// Opening a request reuses the first tab that shows it; otherwise a new tab
/// is made after the existing ones.
pub fn tab_to_open(existing: &Vec<HttpWorkspaceTab>, request_id: &str) -> (r: TabChoice)
    ensures
        tab_choice_ok(existing@, request_id@, r),
{
    let mut i: usize = 0;
    while i < existing.len()
        invariant
            i <= existing@.len(),
            forall|j: int| 0 <= j < i ==> existing@[j].request_id@ != request_id@,
        decreases existing.len() - i,
    {
        if text_eq(existing[i].request_id.as_str(), request_id) {
            return TabChoice::Reuse(i);
        }
        i = i + 1;
    }
    let n = existing.len();
    let sort_order: i64 = n as i64;
    TabChoice::Create { sort_order }
}

/// Opening a request twice among the same tabs gives the same answer.
pub proof fn lemma_tab_choice_unique(
    existing: Seq<HttpWorkspaceTab>,
    request_id: Seq<char>,
    a: TabChoice,
    b: TabChoice,
)
    requires
        existing.len() <= i64::MAX,
        tab_choice_ok(existing, request_id, a),
        tab_choice_ok(existing, request_id, b),
    ensures
        a == b,
{
    match (a, b) {
        (TabChoice::Reuse(i), TabChoice::Reuse(k)) => {
            if i < k {
                assert(existing[i as int].request_id@ == request_id);
            } else if k < i {
                assert(existing[k as int].request_id@ == request_id);
            }
        },
        (TabChoice::Reuse(i), TabChoice::Create { .. }) => {
            assert(existing[i as int].request_id@ == request_id);
        },
        (TabChoice::Create { .. }, TabChoice::Reuse(k)) => {
            assert(existing[k as int].request_id@ == request_id);
        },
        (TabChoice::Create { .. }, TabChoice::Create { .. }) => {},
    }
}

/// Opening a request reuses the tab that shows it: among any tabs where
/// exactly one tab, at `k`, shows the request, opening it answers `Reuse(k)`.
pub proof fn lemma_only_tab_reused(
    tabs: Seq<HttpWorkspaceTab>,
    request_id: Seq<char>,
    k: int,
    next: TabChoice,
)
    requires
        0 <= k < tabs.len(),
        tabs[k].request_id@ == request_id,
        forall|j: int| 0 <= j < tabs.len() && j != k ==> tabs[j].request_id@ != request_id,
        tab_choice_ok(tabs, request_id, next),
    ensures
        next == TabChoice::Reuse(k as usize),
{
    match next {
        TabChoice::Reuse(i) => {
            if i as int != k {
                assert(tabs[i as int].request_id@ != request_id);
            }
        },
        TabChoice::Create { .. } => {
            assert(tabs[k].request_id@ == request_id);
        },
    }
}

/// A tab made for a request is the one that opening it again reuses: when
/// opening made a new tab because no tab showed the request, and the new
/// tab is then placed anywhere among the others, the next opening reuses it.
pub proof fn lemma_created_tab_reused(
    existing: Seq<HttpWorkspaceTab>,
    request_id: Seq<char>,
    sort_order: i64,
    tab: HttpWorkspaceTab,
    at: int,
    next: TabChoice,
)
    requires
        tab_choice_ok(existing, request_id, TabChoice::Create { sort_order }),
        tab.request_id@ == request_id,
        0 <= at <= existing.len(),
        tab_choice_ok(existing.insert(at, tab), request_id, next),
    ensures
        next == TabChoice::Reuse(at as usize),
{
    let after = existing.insert(at, tab);
    assert forall|j: int| 0 <= j < after.len() && j != at implies after[j].request_id@ != request_id by {
        if j < at {
            assert(after[j] == existing[j]);
        } else {
            assert(after[j] == existing[j - 1]);
        }
    }
    lemma_only_tab_reused(after, request_id, at, next);
}

} // verus!
