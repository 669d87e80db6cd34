//! Importing a curl command line: a small shell tokenizer (quotes,
//! backslash escapes, line continuations) and the reading of curl's flags.
use vstd::prelude::*;

use crate::error::AppError;
use crate::http_desk::model::{
    kv_views, text_views, AuthConfig, AuthView, BodyView, KeyValueItem, KeyValueView, RequestBody,
    RequestDef, RequestView,
};
use crate::text::{
    chars_of, contains, lead, lemma_first_occurrence_is, occurs_at, lemma_lead_bound, lemma_trail_bound, trail, contains_seq, eq_ignore_ascii_case, eq_ignore_ascii_case_of, is_whitespace,
    is_ws, push_char, split_once, split_once_of, starts_with_ch, starts_with_char, string_from_chars,
    text_eq, to_uppercase, trim, trim_of, trim_quotes, trim_quotes_of, trim_start, trim_start_of,
    unicode_uppercase,
};

verus! {

// ---------------------------------------------------------------------
// Tokenizer
// ---------------------------------------------------------------------

/// The tokenizer's state between two characters.
pub struct TokState {
    pub tokens: Seq<Seq<char>>,
    pub current: Seq<char>,
    pub started: bool,
    pub in_single: bool,
    pub in_double: bool,
}

/// The state before the first character.
pub open spec fn tok_init() -> TokState {
    TokState {
        tokens: seq![],
        current: seq![],
        started: false,
        in_single: false,
        in_double: false,
    }
}

/// The state with `c` added to the current token.
pub open spec fn tok_push(st: TokState, c: char, started: bool) -> TokState {
    TokState {
        tokens: st.tokens,
        current: st.current.push(c),
        started,
        in_single: st.in_single,
        in_double: st.in_double,
    }
}

/// The state with the quote flags set as given.
pub open spec fn tok_quotes(st: TokState, started: bool, in_single: bool, in_double: bool) -> TokState {
    TokState { tokens: st.tokens, current: st.current, started, in_single, in_double }
}

/// A double-quoted backslash escapes these characters only.
pub open spec fn is_double_escapable(c: char) -> bool {
    c == '"' || c == '\\' || c == '$' || c == '`'
}

/// The tokens of `s` read from state `st`: single quotes keep everything up
/// to the next single quote; double quotes keep everything up to the next
/// double quote, where a backslash escapes `"`, `\`, `$` and backquote; outside
/// quotes a backslash escapes the next character, a backslash before a line
/// break joins the lines, and white space ends a started token.
pub open spec fn tok_run(s: Seq<char>, st: TokState) -> Seq<Seq<char>>
    decreases s.len(),
{
    if s.len() == 0 {
        if st.started {
            st.tokens.push(st.current)
        } else {
            st.tokens
        }
    } else {
        let c = s[0];
        let has_next = s.len() > 1;
        if st.in_single {
            if c == '\'' {
                tok_run(s.drop_first(), tok_quotes(st, st.started, false, false))
            } else {
                tok_run(s.drop_first(), tok_push(st, c, st.started))
            }
        } else if st.in_double {
            if c == '"' {
                tok_run(s.drop_first(), tok_quotes(st, st.started, false, false))
            } else if c == '\\' && has_next && is_double_escapable(s[1]) {
                tok_run(s.skip(2), tok_push(st, s[1], st.started))
            } else {
                tok_run(s.drop_first(), tok_push(st, c, st.started))
            }
        } else if c == '\'' {
            tok_run(s.drop_first(), tok_quotes(st, true, true, false))
        } else if c == '"' {
            tok_run(s.drop_first(), tok_quotes(st, true, false, true))
        } else if c == '\\' {
            if has_next && s[1] == '\n' {
                tok_run(s.skip(2), st)
            } else if has_next {
                tok_run(s.skip(2), tok_push(st, s[1], true))
            } else {
                tok_run(s.drop_first(), st)
            }
        } else if is_ws(c) {
            if st.started {
                tok_run(
                    s.drop_first(),
                    TokState {
                        tokens: st.tokens.push(st.current),
                        current: seq![],
                        started: false,
                        in_single: false,
                        in_double: false,
                    },
                )
            } else {
                tok_run(s.drop_first(), st)
            }
        } else {
            tok_run(s.drop_first(), tok_push(st, c, true))
        }
    }
}

/// The shell words of a command line, after trimming it.
pub open spec fn spec_tokenize(input: Seq<char>) -> Seq<Seq<char>> {
    tok_run(trim_of(input), tok_init())
}

/// The number of leading characters of `s` that are not white space.
pub open spec fn word_len(s: Seq<char>) -> nat
    decreases s.len(),
{
    if s.len() > 0 && !is_ws(s[0]) {
        1 + word_len(s.drop_first())
    } else {
        0
    }
}

pub proof fn lemma_word_len_bound(s: Seq<char>)
    ensures
        word_len(s) <= s.len(),
    decreases s.len(),
{
    if s.len() > 0 && !is_ws(s[0]) {
        lemma_word_len_bound(s.drop_first());
    }
}

/// The words of `s` (`str::split_whitespace`): its longest runs of
/// characters that are not white space, in order.
pub open spec fn words(s: Seq<char>) -> Seq<Seq<char>>
    decreases s.len(),
{
    if s.len() == 0 {
        seq![]
    } else if is_ws(s[0]) {
        words(s.drop_first())
    } else {
        proof {
            lemma_word_len_bound(s);
        }
        seq![s.take(word_len(s) as int)] + words(s.skip(word_len(s) as int))
    }
}

/// No quote and no backslash in `s`.
pub open spec fn plain(s: Seq<char>) -> bool {
    forall|i: int| 0 <= i < s.len() ==> #[trigger] s[i] != '\'' && s[i] != '"' && s[i] != '\\'
}

proof fn lemma_tok_run_plain(s: Seq<char>, st: TokState)
    requires
        plain(s),
        !st.in_single,
        !st.in_double,
        !st.started ==> st.current == Seq::<char>::empty(),
    ensures
        tok_run(s, st) == st.tokens + if st.started {
            seq![st.current + s.take(word_len(s) as int)] + words(s.skip(word_len(s) as int))
        } else {
            words(s)
        },
    decreases s.len(),
{
    lemma_word_len_bound(s);
    if s.len() == 0 {
        assert(st.current + s.take(0) == st.current);
        assert(words(s.skip(0)) == Seq::<Seq<char>>::empty());
        assert(st.tokens + Seq::<Seq<char>>::empty() == st.tokens);
    } else {
        let c = s[0];
        let rest = s.drop_first();
        assert(plain(rest)) by {
            assert forall|i: int| 0 <= i < rest.len() implies #[trigger] rest[i] != '\'' && rest[i] != '"'
                && rest[i] != '\\' by {
                assert(rest[i] == s[i + 1]);
            }
        }
        assert(c != '\'' && c != '"' && c != '\\');
        lemma_word_len_bound(rest);
        if is_ws(c) {
            assert(word_len(s) == 0);
            assert(s.skip(0) == s);
            assert(s.take(0) == Seq::<char>::empty());
            if st.started {
                let st2 = TokState {
                    tokens: st.tokens.push(st.current),
                    current: seq![],
                    started: false,
                    in_single: false,
                    in_double: false,
                };
                lemma_tok_run_plain(rest, st2);
                assert(st.current + s.take(0) == st.current);
                assert(st.tokens.push(st.current) + words(rest) == st.tokens + (seq![st.current] + words(rest)));
            } else {
                lemma_tok_run_plain(rest, st);
            }
        } else {
            let st2 = tok_push(st, c, true);
            lemma_tok_run_plain(rest, st2);
            let k = word_len(rest) as int;
            assert(word_len(s) == 1 + k);
            assert(s.take(1 + k) == seq![c] + rest.take(k));
            assert(s.skip(1 + k) == rest.skip(k));
            assert(st.current.push(c) + rest.take(k) == st.current + (seq![c] + rest.take(k)));
            if !st.started {
                assert(st.current.push(c) == seq![c]);
            }
        }
    }
}

proof fn lemma_word_len_ws_end(a: Seq<char>, w: char)
    requires
        is_ws(w),
    ensures
        word_len(a.push(w)) == word_len(a),
    decreases a.len(),
{
    if a.len() > 0 && !is_ws(a[0]) {
        assert(a.push(w).drop_first() == a.drop_first().push(w));
        lemma_word_len_ws_end(a.drop_first(), w);
    }
}

proof fn lemma_words_ws_end(a: Seq<char>, w: char)
    requires
        is_ws(w),
    ensures
        words(a.push(w)) == words(a),
    decreases a.len(),
{
    let aw = a.push(w);
    if a.len() == 0 {
        assert(aw[0] == w);
        assert(aw.drop_first() == Seq::<char>::empty());
        assert(words(aw) == words(aw.drop_first()));
    } else if is_ws(a[0]) {
        assert(aw[0] == a[0]);
        assert(aw.drop_first() == a.drop_first().push(w));
        lemma_words_ws_end(a.drop_first(), w);
        assert(words(aw) == words(aw.drop_first()));
    } else {
        assert(aw[0] == a[0]);
        lemma_word_len_ws_end(a, w);
        lemma_word_len_bound(a);
        let k = word_len(a) as int;
        assert(aw.take(k) == a.take(k));
        assert(aw.skip(k) == a.skip(k).push(w));
        lemma_words_ws_end(a.skip(k), w);
        assert(words(a) == seq![a.take(k)] + words(a.skip(k)));
        assert(words(aw) == seq![aw.take(k)] + words(aw.skip(k)));
    }
}

proof fn lemma_words_lead(s: Seq<char>)
    ensures
        words(s.skip(lead(s, false) as int)) == words(s),
    decreases s.len(),
{
    if s.len() > 0 && is_ws(s[0]) {
        lemma_lead_bound(s.drop_first(), false);
        assert(s.skip(lead(s, false) as int) == s.drop_first().skip(lead(s.drop_first(), false) as int));
        lemma_words_lead(s.drop_first());
    } else {
        assert(s.skip(0) == s);
    }
}

proof fn lemma_words_trail(t: Seq<char>)
    ensures
        words(t.take(t.len() - trail(t, false))) == words(t),
    decreases t.len(),
{
    if t.len() > 0 && is_ws(t.last()) {
        let d = t.drop_last();
        lemma_trail_bound(d, false);
        assert(t.take(t.len() - trail(t, false)) == d.take(d.len() - trail(d, false)));
        lemma_words_trail(d);
        assert(d.push(t.last()) == t);
        lemma_words_ws_end(d, t.last());
    } else {
        assert(t.take(t.len() as int) == t);
    }
}

/// Without quotes or backslashes, a command line is split into its words at
/// white space, as `str::split_whitespace` splits it.
pub proof fn lemma_tokenize_plain(s: Seq<char>)
    requires
        plain(s),
    ensures
        spec_tokenize(s) == words(s),
{
    lemma_lead_bound(s, false);
    let t = s.skip(lead(s, false) as int);
    lemma_trail_bound(t, false);
    let u = t.take(t.len() - trail(t, false));
    assert(u == trim_of(s));
    assert(plain(u)) by {
        assert forall|i: int| 0 <= i < u.len() implies #[trigger] u[i] != '\'' && u[i] != '"' && u[i]
            != '\\' by {
            assert(u[i] == s[i + lead(s, false)]);
        }
    }
    lemma_tok_run_plain(u, tok_init());
    assert(Seq::<Seq<char>>::empty() + words(u) == words(u));
    lemma_words_trail(t);
    lemma_words_lead(s);
}

/// Splits a command line into words the way a shell does for the commands
/// that browsers and API tools copy: single and double quotes, backslash
/// escapes and backslash line continuations. Not every rule of a POSIX shell
/// is followed.
pub fn tokenize(input: &str) -> (r: Vec<String>)
    ensures
        text_views(r@) == spec_tokenize(input@),
{
    let trimmed = trim(input);
    let v = chars_of(trimmed.as_str());
    let mut tokens: Vec<String> = Vec::new();
    let mut current = String::new();
    let mut started = false;
    let mut in_single = false;
    let mut in_double = false;
    let mut i: usize = 0;
    assert(v@.skip(0) == v@);
    assert(text_views(tokens@) == Seq::<Seq<char>>::empty());
    while i < v.len()
        invariant
            i <= v.len(),
            v@ == trim_of(input@),
            !(in_single && in_double),
            tok_run(
                v@.skip(i as int),
                TokState {
                    tokens: text_views(tokens@),
                    current: current@,
                    started,
                    in_single,
                    in_double,
                },
            ) == spec_tokenize(input@),
        decreases v.len() - i,
    {
        let ghost s = v@.skip(i as int);
        assert(s[0] == v@[i as int]);
        assert(s.drop_first() == v@.skip(i + 1));
        let c = v[i];
        let has_next = i + 1 < v.len();
        if has_next {
            assert(s[1] == v@[i + 1]);
            assert(s.skip(2) == v@.skip(i + 2));
        }
        if in_single {
            if c == '\'' {
                in_single = false;
            } else {
                push_char(&mut current, c);
            }
            i = i + 1;
        } else if in_double {
            if c == '"' {
                in_double = false;
                i = i + 1;
            } else if c == '\\' && has_next && (v[i + 1] == '"' || v[i + 1] == '\\' || v[i + 1] == '$'
                || v[i + 1] == '`') {
                push_char(&mut current, v[i + 1]);
                i = i + 2;
            } else {
                push_char(&mut current, c);
                i = i + 1;
            }
        } else if c == '\'' {
            in_single = true;
            started = true;
            i = i + 1;
        } else if c == '"' {
            in_double = true;
            started = true;
            i = i + 1;
        } else if c == '\\' {
            if has_next && v[i + 1] == '\n' {
                i = i + 2;
            } else if has_next {
                push_char(&mut current, v[i + 1]);
                started = true;
                i = i + 2;
            } else {
                i = i + 1;
            }
        } else if is_whitespace(c) {
            if started {
                let ghost before = text_views(tokens@);
                let tok = current;
                current = String::new();
                tokens.push(tok);
                assert(text_views(tokens@) == before.push(tok@));
                started = false;
            }
            i = i + 1;
        } else {
            push_char(&mut current, c);
            started = true;
            i = i + 1;
        }
    }
    assert(v@.skip(i as int).len() == 0);
    if started {
        let ghost before = text_views(tokens@);
        let tok = current;
        tokens.push(tok);
        assert(text_views(tokens@) == before.push(tok@));
    }
    tokens
}

// ---------------------------------------------------------------------
// Reading curl's flags
// ---------------------------------------------------------------------

/// What the flags of a curl command have given so far.
pub struct CurlScan {
    pub url: Option<Seq<char>>,
    pub method: Option<Seq<char>>,
    pub headers: Seq<KeyValueView>,
    pub data: Option<Seq<char>>,
    pub basic: Option<(Seq<char>, Seq<char>)>,
}

/// Nothing read yet.
pub open spec fn scan_init() -> CurlScan {
    CurlScan { url: None, method: None, headers: seq![], data: None, basic: None }
}

/// An enabled row.
pub open spec fn row(key: Seq<char>, value: Seq<char>) -> KeyValueView {
    KeyValueView { key, value, enabled: true }
}

/// The scan with one more header row.
pub open spec fn with_header(st: CurlScan, h: KeyValueView) -> CurlScan {
    CurlScan { headers: st.headers.push(h), ..st }
}

pub open spec fn is_method_flag(t: Seq<char>) -> bool {
    t == "-X"@ || t == "--request"@
}

pub open spec fn is_header_flag(t: Seq<char>) -> bool {
    t == "-H"@ || t == "--header"@
}

pub open spec fn is_data_flag(t: Seq<char>) -> bool {
    t == "-d"@ || t == "--data"@ || t == "--data-raw"@ || t == "--data-binary"@ || t
        == "--data-urlencode"@
}

pub open spec fn is_user_flag(t: Seq<char>) -> bool {
    t == "-u"@ || t == "--user"@
}

pub open spec fn is_cookie_flag(t: Seq<char>) -> bool {
    t == "-b"@ || t == "--cookie"@
}

pub open spec fn is_agent_flag(t: Seq<char>) -> bool {
    t == "-A"@ || t == "--user-agent"@
}

/// Flags without a value that change nothing of the request.
pub open spec fn is_ignored_flag(t: Seq<char>) -> bool {
    t == "--compressed"@ || t == "-k"@ || t == "--insecure"@ || t == "-s"@ || t == "--silent"@ || t
        == "-v"@ || t == "--verbose"@ || t == "-i"@ || t == "--include"@ || t == "-L"@ || t
        == "--location"@
}

/// The header row that `-H`'s value gives, if it holds a colon.
pub open spec fn header_row(h: Seq<char>) -> Option<KeyValueView> {
    match split_once_of(h, ':') {
        Some(p) => Some(row(trim_of(p.0), trim_of(p.1))),
        None => None,
    }
}

/// The user name and password of `-u`'s value.
pub open spec fn credentials(c: Seq<char>) -> (Seq<char>, Seq<char>) {
    match split_once_of(c, ':') {
        Some(p) => p,
        None => (c, seq![]),
    }
}

/// The data after one more `-d`: joined to earlier data with `&`.
pub open spec fn joined_data(prev: Option<Seq<char>>, d: Seq<char>) -> Seq<char> {
    match prev {
        Some(e) => e + "&"@ + d,
        None => d,
    }
}

/// The words left after the flag at the front and its value, if it has one.
pub open spec fn after_value(toks: Seq<Seq<char>>) -> Seq<Seq<char>> {
    if toks.len() > 1 {
        toks.skip(2)
    } else {
        toks.drop_first()
    }
}

/// The request parts that the words `toks` give, read from state `st`.
/// `-X` takes the method; `-H` a `Name: value` header; `-d` and its kin the
/// body, several joined with `&`; `-u` the basic credentials; `-b` a Cookie
/// and `-A` a User-Agent header. Flags without effect are skipped; an unknown
/// flag also skips a following word that does not start with `-`. The first
/// other word, stripped of quotes, is the URL.
pub open spec fn curl_scan(toks: Seq<Seq<char>>, st: CurlScan) -> CurlScan
    decreases toks.len(),
{
    if toks.len() == 0 {
        st
    } else {
        let t = toks[0];
        let has = toks.len() > 1;
        let nx = toks[1];
        if is_method_flag(t) {
            curl_scan(after_value(toks), CurlScan { method: if has { Some(nx) } else { None }, ..st })
        } else if is_header_flag(t) {
            curl_scan(
                after_value(toks),
                if has && header_row(nx) is Some {
                    with_header(st, header_row(nx).unwrap())
                } else {
                    st
                },
            )
        } else if is_data_flag(t) {
            curl_scan(
                after_value(toks),
                if has {
                    CurlScan { data: Some(joined_data(st.data, nx)), ..st }
                } else {
                    st
                },
            )
        } else if is_user_flag(t) {
            curl_scan(
                after_value(toks),
                if has {
                    CurlScan { basic: Some(credentials(nx)), ..st }
                } else {
                    st
                },
            )
        } else if is_cookie_flag(t) {
            curl_scan(
                after_value(toks),
                if has {
                    with_header(st, row("Cookie"@, nx))
                } else {
                    st
                },
            )
        } else if is_agent_flag(t) {
            curl_scan(
                after_value(toks),
                if has {
                    with_header(st, row("User-Agent"@, nx))
                } else {
                    st
                },
            )
        } else if is_ignored_flag(t) {
            curl_scan(toks.drop_first(), st)
        } else if starts_with_char(t, '-') {
            curl_scan(
                if has && !starts_with_char(nx, '-') {
                    toks.skip(2)
                } else {
                    toks.drop_first()
                },
                st,
            )
        } else {
            curl_scan(
                toks.drop_first(),
                if st.url is None {
                    CurlScan { url: Some(trim_quotes_of(t)), ..st }
                } else {
                    st
                },
            )
        }
    }
}

/// The long flag `--header` acts as `-H`: wherever the words being read
/// start with `--header`, they give the same request parts as with `-H`.
pub proof fn lemma_long_header_flag(rest: Seq<Seq<char>>, st: CurlScan)
    ensures
        curl_scan(seq!["--header"@] + rest, st) == curl_scan(seq!["-H"@] + rest, st),
{
    reveal_strlit("--header");
    reveal_strlit("-H");
    reveal_strlit("-X");
    reveal_strlit("--request");
    let a = seq!["--header"@] + rest;
    let b = seq!["-H"@] + rest;
    assert(a[0] == "--header"@ && b[0] == "-H"@);
    assert(!is_method_flag(a[0]) && !is_method_flag(b[0]));
    assert(is_header_flag(a[0]) && is_header_flag(b[0]));
    assert(a.len() == b.len());
    assert(a.len() > 1 ==> a[1] == b[1]);
    assert(after_value(a) == after_value(b));
}

/// `-H` (or `--header`) with a value `Name: value` adds the row (`Name`,
/// `value`), both trimmed and enabled, and reading goes on after the value.
pub proof fn lemma_header_flag_adds_row(
    flag: Seq<char>,
    name: Seq<char>,
    value: Seq<char>,
    rest: Seq<Seq<char>>,
    st: CurlScan,
)
    requires
        flag == "-H"@ || flag == "--header"@,
        forall|i: int| 0 <= i < name.len() ==> name[i] != ':',
    ensures
        curl_scan(seq![flag, name + seq![':'] + value] + rest, st) == curl_scan(
            rest,
            with_header(st, row(trim_of(name), trim_of(value))),
        ),
{
    reveal_strlit("--header");
    reveal_strlit("-H");
    reveal_strlit("-X");
    reveal_strlit("--request");
    let h = name + seq![':'] + value;
    let toks = seq![flag, h] + rest;
    assert(toks[0] == flag && toks[1] == h);
    assert(!is_method_flag(flag));
    assert(is_header_flag(flag));
    assert(occurs_at(h, seq![':'], name.len() as int)) by {
        assert(h.subrange(name.len() as int, name.len() as int + 1) == seq![':']);
    }
    assert forall|k: int| 0 <= k < name.len() implies !occurs_at(h, seq![':'], k) by {
        assert(h[k] == name[k]);
        if occurs_at(h, seq![':'], k) {
            assert(h.subrange(k, k + 1)[0] == h[k]);
        }
    }
    lemma_first_occurrence_is(h, seq![':'], 0, name.len() as int);
    assert(h.take(name.len() as int) == name);
    assert(h.skip(name.len() as int + 1) == value);
    assert(header_row(h) == Some(row(trim_of(name), trim_of(value))));
    assert(toks.skip(2) == rest);
}

/// The words of the command without a leading `curl`.
pub open spec fn curl_args(toks: Seq<Seq<char>>) -> Seq<Seq<char>> {
    if toks.len() > 0 && toks[0] == "curl"@ {
        toks.drop_first()
    } else {
        toks
    }
}

/// The body is JSON when a Content-Type header mentions `json` or the data
/// starts, after white space, with `{` or `[`.
pub open spec fn looks_json(headers: Seq<KeyValueView>, d: Seq<char>) -> bool {
    ||| exists|i: int|
        0 <= i < headers.len() && eq_ignore_ascii_case_of(#[trigger] headers[i].key, "content-type"@)
            && contains_seq(headers[i].value, "json"@)
    ||| starts_with_char(trim_start_of(d), '{')
    ||| starts_with_char(trim_start_of(d), '[')
}

/// The message when a command names no URL.
pub open spec fn no_url_message() -> Seq<char> {
    "未能从 curl 命令中解析出 URL"@
}

/// The request that a curl command describes, or `None` when it names no
/// URL. The id is left empty and the name is a fixed placeholder for the
/// caller to replace; the method is upper-cased, and is POST when data is
/// given without `-X`, GET otherwise.
pub open spec fn spec_parse_curl(command: Seq<char>) -> Option<RequestView> {
    let st = curl_scan(curl_args(spec_tokenize(command)), scan_init());
    match st.url {
        None => None,
        Some(url) => {
            let method = match st.method {
                Some(m) => m,
                None => if st.data is Some {
                    "POST"@
                } else {
                    "GET"@
                },
            };
            let body = match st.data {
                Some(d) => if looks_json(st.headers, d) {
                    BodyView::Json { content: d }
                } else {
                    BodyView::Raw { content: d, content_type: "application/x-www-form-urlencoded"@ }
                },
                None => BodyView::NoBody,
            };
            let auth = match st.basic {
                Some(p) => AuthView::Basic { username: p.0, password: p.1 },
                None => AuthView::NoAuth,
            };
            Some(
                RequestView {
                    id: seq![],
                    name: "导入的请求"@,
                    method: unicode_uppercase(method),
                    url,
                    params: seq![],
                    headers: st.headers,
                    auth,
                    body,
                },
            )
        },
    }
}

fn enabled_row(key: String, value: String) -> (r: KeyValueItem)
    ensures
        r@ == row(key@, value@),
{
    KeyValueItem { key, value, enabled: true }
}

fn flag_is(t: &str, a: &str, b: &str) -> (r: bool)
    ensures
        r == (t@ == a@ || t@ == b@),
{
    text_eq(t, a) || text_eq(t, b)
}

fn is_data_flag_exec(t: &str) -> (r: bool)
    ensures
        r == is_data_flag(t@),
{
    text_eq(t, "-d") || text_eq(t, "--data") || text_eq(t, "--data-raw") || text_eq(t, "--data-binary")
        || text_eq(t, "--data-urlencode")
}

fn is_ignored_flag_exec(t: &str) -> (r: bool)
    ensures
        r == is_ignored_flag(t@),
{
    text_eq(t, "--compressed") || text_eq(t, "-k") || text_eq(t, "--insecure") || text_eq(t, "-s")
        || text_eq(t, "--silent") || text_eq(t, "-v") || text_eq(t, "--verbose") || text_eq(t, "-i")
        || text_eq(t, "--include") || text_eq(t, "-L") || text_eq(t, "--location")
}

fn looks_json_exec(headers: &Vec<KeyValueItem>, d: &str) -> (r: bool)
    ensures
        r == looks_json(kv_views(headers@), d@),
{
    let ghost hs = kv_views(headers@);
    let mut i: usize = 0;
    while i < headers.len()
        invariant
            i <= headers@.len(),
            hs == kv_views(headers@),
            forall|m: int|
                0 <= m < i ==> !(eq_ignore_ascii_case_of(#[trigger] hs[m].key, "content-type"@)
                    && contains_seq(hs[m].value, "json"@)),
        decreases headers.len() - i,
    {
        let h = &headers[i];
        assert(hs[i as int] == h@);
        if eq_ignore_ascii_case(h.key.as_str(), "content-type") && contains(h.value.as_str(), "json") {
            assert(eq_ignore_ascii_case_of(hs[i as int].key, "content-type"@) && contains_seq(
                hs[i as int].value,
                "json"@,
            ));
            return true;
        }
        i = i + 1;
    }
    let t = trim_start(d);
    starts_with_ch(t.as_str(), '{') || starts_with_ch(t.as_str(), '[')
}

/// Turns a curl command into a request draft. The id is left empty and the
/// name is a placeholder: naming and storing the request is the caller's
/// part. A command that names no URL is refused.
pub fn parse_curl(command: &str) -> (r: Result<RequestDef, AppError>)
    ensures
        match r {
            Ok(req) => spec_parse_curl(command@) == Some(req@),
            Err(e) => spec_parse_curl(command@) is None && (e matches AppError::Internal(m) && m@
                == no_url_message()),
        },
{
    let tokens = tokenize(command);
    let ghost all = text_views(tokens@);
    let mut i: usize = 0;
    if tokens.len() > 0 && text_eq(tokens[0].as_str(), "curl") {
        i = 1;
    }
    assert(all.skip(i as int) == curl_args(all)) by {
        if i == 0 {
            assert(all.skip(0) == all);
        } else {
            assert(all[0] == tokens@[0]@);
        }
    }
    let mut url: Option<String> = None;
    let mut method: Option<String> = None;
    let mut headers: Vec<KeyValueItem> = Vec::new();
    let mut data: Option<String> = None;
    let mut basic: Option<(String, String)> = None;
    assert(kv_views(headers@) == Seq::<KeyValueView>::empty());
    while i < tokens.len()
        invariant
            i <= tokens@.len(),
            all == text_views(tokens@),
            curl_scan(
                all.skip(i as int),
                CurlScan {
                    url: opt_view(url),
                    method: opt_view(method),
                    headers: kv_views(headers@),
                    data: opt_view(data),
                    basic: pair_view(basic),
                },
            ) == curl_scan(curl_args(all), scan_init()),
        decreases tokens.len() - i,
    {
        let ghost toks = all.skip(i as int);
        let ghost hs = kv_views(headers@);
        let tok = tokens[i].as_str();
        assert(toks[0] == tok@);
        let has = i + 1 < tokens.len();
        if has {
            assert(toks[1] == tokens@[i + 1]@);
            assert(toks.skip(2) == all.skip(i + 2));
        }
        assert(toks.drop_first() == all.skip(i + 1));
        if flag_is(tok, "-X", "--request") {
            method = if has {
                Some(tokens[i + 1].clone())
            } else {
                None
            };
            i = if has {
                i + 2
            } else {
                i + 1
            };
        } else if flag_is(tok, "-H", "--header") {
            if has {
                match split_once(tokens[i + 1].as_str(), ':') {
                    Some((k, v)) => {
                        let item = enabled_row(trim(k.as_str()), trim(v.as_str()));
                        headers.push(item);
                        assert(kv_views(headers@) == hs.push(item@));
                    },
                    None => {},
                }
                i = i + 2;
            } else {
                i = i + 1;
            }
        } else if is_data_flag_exec(tok) {
            if has {
                let d = tokens[i + 1].as_str();
                let ghost prev = opt_view(data);
                data = Some(
                    match data {
                        Some(existing) => {
                            let mut joined = existing;
                            joined.append("&");
                            joined.append(d);
                            joined
                        },
                        None => String::from_str(d),
                    },
                );
                assert(opt_view(data) == Some(joined_data(prev, d@)));
                i = i + 2;
            } else {
                i = i + 1;
            }
        } else if flag_is(tok, "-u", "--user") {
            if has {
                let cred = tokens[i + 1].as_str();
                basic = Some(
                    match split_once(cred, ':') {
                        Some((u, p)) => (u, p),
                        None => (String::from_str(cred), String::new()),
                    },
                );
                i = i + 2;
            } else {
                i = i + 1;
            }
        } else if flag_is(tok, "-b", "--cookie") {
            if has {
                let item = enabled_row(String::from_str("Cookie"), tokens[i + 1].clone());
                headers.push(item);
                assert(kv_views(headers@) == hs.push(item@));
                i = i + 2;
            } else {
                i = i + 1;
            }
        } else if flag_is(tok, "-A", "--user-agent") {
            if has {
                let item = enabled_row(String::from_str("User-Agent"), tokens[i + 1].clone());
                headers.push(item);
                assert(kv_views(headers@) == hs.push(item@));
                i = i + 2;
            } else {
                i = i + 1;
            }
        } else if is_ignored_flag_exec(tok) {
            i = i + 1;
        } else if starts_with_ch(tok, '-') {
            if has && !starts_with_ch(tokens[i + 1].as_str(), '-') {
                i = i + 2;
            } else {
                i = i + 1;
            }
        } else {
            if url.is_none() {
                url = Some(trim_quotes(tok));
            }
            i = i + 1;
        }
    }
    assert(all.skip(i as int).len() == 0);
    let url = match url {
        Some(u) => u,
        None => {
            return Err(AppError::Internal(String::from_str("未能从 curl 命令中解析出 URL")));
        },
    };
    let method = match method {
        Some(m) => m,
        None => if data.is_some() {
            String::from_str("POST")
        } else {
            String::from_str("GET")
        },
    };
    let body = match data {
        Some(d) => {
            if looks_json_exec(&headers, d.as_str()) {
                RequestBody::Json { content: d }
            } else {
                RequestBody::Raw {
                    content: d,
                    content_type: String::from_str("application/x-www-form-urlencoded"),
                }
            }
        },
        None => RequestBody::NoBody,
    };
    let auth = match basic {
        Some((username, password)) => AuthConfig::Basic { username, password },
        None => AuthConfig::NoAuth,
    };
    let req = RequestDef {
        id: String::new(),
        name: String::from_str("导入的请求"),
        method: to_uppercase(method.as_str()),
        url,
        params: Vec::new(),
        headers,
        auth,
        body,
    };
    assert(kv_views(req.params@) == Seq::<KeyValueView>::empty());
    Ok(req)
}

/// The text of an optional string.
pub open spec fn opt_view(o: Option<String>) -> Option<Seq<char>> {
    match o {
        Some(s) => Some(s@),
        None => None,
    }
}

/// The texts of an optional pair of strings.
pub open spec fn pair_view(o: Option<(String, String)>) -> Option<(Seq<char>, Seq<char>)> {
    match o {
        Some(p) => Some((p.0@, p.1@)),
        None => None,
    }
}

} // verus!
