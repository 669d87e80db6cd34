//! Layered variable scopes (environment over collection over global) and
//! `{{ key }}` interpolation, including the built-in dynamic values.
use vstd::prelude::*;

use super::model::EnvVar;
use crate::text::{
    chars_of, decimal, find_from, first_occurrence, lemma_first_occurrence_skip, i64_to_decimal, lemma_first_occurrence, lemma_first_occurrence_is, occurs_at,
    push_char, signed_decimal, string_from_range, text_eq, trim, trim_of, u64_to_decimal,
};

verus! {

// ---------------------------------------------------------------------
// Variable lookup
// ---------------------------------------------------------------------

/// The value of the first enabled variable named `key`.
pub open spec fn lookup(vars: Seq<EnvVar>, key: Seq<char>) -> Option<Seq<char>>
    decreases vars.len(),
{
    if vars.len() == 0 {
        None
    } else if vars[0].enabled && vars[0].key@ == key {
        Some(vars[0].value@)
    } else {
        lookup(vars.drop_first(), key)
    }
}

/// The text of an optional string.
pub open spec fn opt_text(o: Option<String>) -> Option<Seq<char>> {
    match o {
        Some(s) => Some(s@),
        None => None,
    }
}

/// Looking up in a concatenation looks in the first part, then the second.
pub proof fn lemma_lookup_concat(a: Seq<EnvVar>, b: Seq<EnvVar>, key: Seq<char>)
    ensures
        lookup(a + b, key) == match lookup(a, key) {
            Some(v) => Some(v),
            None => lookup(b, key),
        },
    decreases a.len(),
{
    if a.len() > 0 {
        assert((a + b).drop_first() == a.drop_first() + b);
        lemma_lookup_concat(a.drop_first(), b, key);
    } else {
        assert(a + b == b);
    }
}

/// The variables of one scope, searched front to back.
pub fn lookup_in(vars: &[EnvVar], key: &str) -> (r: Option<String>)
    ensures
        opt_text(r) == lookup(vars@, key@),
{
    let mut i: usize = 0;
    assert(vars@.skip(0) == vars@);
    while i < vars.len()
        invariant
            i <= vars@.len(),
            lookup(vars@, key@) == lookup(vars@.skip(i as int), key@),
        decreases vars.len() - i,
    {
        let v = &vars[i];
        assert(vars@.skip(i as int)[0] == vars@[i as int]);
        if v.enabled && text_eq(v.key.as_str(), key) {
            return Some(v.value.clone());
        }
        assert(vars@.skip(i as int).drop_first() == vars@.skip(i + 1));
        i = i + 1;
    }
    None
}

/// The three variable scopes in force for one request, most specific first.
pub struct VarContext<'a> {
    pub environment: &'a [EnvVar],
    pub collection: &'a [EnvVar],
    pub global: &'a [EnvVar],
}

impl<'a> VarContext<'a> {
    /// All variables in search order.
    pub open spec fn vars(&self) -> Seq<EnvVar> {
        self.environment@ + self.collection@ + self.global@
    }

    /// The keys of the variables marked secret.
    pub open spec fn secret_key_set(&self) -> Set<Seq<char>> {
        Set::new(
            |k: Seq<char>|
                exists|i: int| 0 <= i < self.vars().len() && self.vars()[i].secret && self.vars()[i].key@ == k,
        )
    }

    /// The value of `key`: the first enabled variable of that name in the
    /// environment, else in the collection, else in the global scope.
    pub fn resolve(&self, key: &str) -> (r: Option<String>)
        ensures
            opt_text(r) == lookup(self.vars(), key@),
    {
        proof {
            lemma_lookup_concat(self.environment@ + self.collection@, self.global@, key@);
            lemma_lookup_concat(self.environment@, self.collection@, key@);
        }
        match lookup_in(self.environment, key) {
            Some(v) => Some(v),
            None => match lookup_in(self.collection, key) {
                Some(v) => Some(v),
                None => lookup_in(self.global, key),
            },
        }
    }

    /// The keys of all variables marked secret, each once. Interpolation
    /// uses the real values; callers mask these before logging.
    pub fn secret_keys(&self) -> (r: Vec<&'a str>)
        ensures
            key_texts(r@).no_duplicates(),
            key_texts(r@).to_set() == self.secret_key_set(),
    {
        let mut r: Vec<&'a str> = Vec::new();
        let ghost all = self.vars();
        collect_secret_keys(self.environment, &mut r);
        let ghost after_env = key_texts(r@).to_set();
        collect_secret_keys(self.collection, &mut r);
        collect_secret_keys(self.global, &mut r);
        proof {
            assert forall|k: Seq<char>| #[trigger] self.secret_key_set().contains(k) <==> key_texts(r@).to_set().contains(k) by {
                if self.secret_key_set().contains(k) {
                    let i = choose|i: int|
                        0 <= i < all.len() && all[i].secret && all[i].key@ == k;
                    let ne = self.environment@.len() as int;
                    let nc = self.collection@.len() as int;
                    if i < ne {
                        assert(all[i] == self.environment@[i]);
                        assert(secret_keys_of(self.environment@).contains(k));
                    } else if i < ne + nc {
                        assert(all[i] == self.collection@[i - ne]);
                        assert(secret_keys_of(self.collection@).contains(k));
                    } else {
                        assert(all[i] == self.global@[i - ne - nc]);
                        assert(secret_keys_of(self.global@).contains(k));
                    }
                }
                if key_texts(r@).to_set().contains(k) {
                    if secret_keys_of(self.environment@).contains(k) {
                        let i = choose|i: int|
                            0 <= i < self.environment@.len() && self.environment@[i].secret
                                && self.environment@[i].key@ == k;
                        assert(all[i] == self.environment@[i]);
                    } else if secret_keys_of(self.collection@).contains(k) {
                        let i = choose|i: int|
                            0 <= i < self.collection@.len() && self.collection@[i].secret
                                && self.collection@[i].key@ == k;
                        assert(all[i + self.environment@.len()] == self.collection@[i]);
                    } else {
                        let i = choose|i: int|
                            0 <= i < self.global@.len() && self.global@[i].secret && self.global@[i].key@
                                == k;
                        assert(all[i + self.environment@.len() + self.collection@.len()]
                            == self.global@[i]);
                    }
                }
            }
            assert(self.secret_key_set() == key_texts(r@).to_set());
        }
        r
    }
}

/// The texts of string slices.
pub open spec fn key_texts(v: Seq<&str>) -> Seq<Seq<char>> {
    v.map_values(|s: &str| s@)
}

/// The keys of the secret variables of one scope.
pub open spec fn secret_keys_of(vars: Seq<EnvVar>) -> Set<Seq<char>> {
    Set::new(|k: Seq<char>| exists|i: int| 0 <= i < vars.len() && vars[i].secret && vars[i].key@ == k)
}

/// Adds the secret keys of `vars` to `out`, skipping keys already there.
fn collect_secret_keys<'a>(vars: &'a [EnvVar], out: &mut Vec<&'a str>)
    requires
        key_texts(old(out)@).no_duplicates(),
    ensures
        key_texts(final(out)@).no_duplicates(),
        key_texts(final(out)@).to_set() == key_texts(old(out)@).to_set().union(
            secret_keys_of(vars@),
        ),
{
    let ghost start = key_texts(old(out)@).to_set();
    let mut i: usize = 0;
    while i < vars.len()
        invariant
            i <= vars@.len(),
            key_texts(out@).no_duplicates(),
            key_texts(out@).to_set() == start.union(
                secret_keys_of(vars@.take(i as int)),
            ),
        decreases vars.len() - i,
    {
        let ghost before = key_texts(out@);
        let v = &vars[i];
        if v.secret {
            let k: &'a str = v.key.as_str();
            let mut seen = false;
            let mut j: usize = 0;
            while j < out.len()
                invariant
                    j <= out@.len(),
                    before == key_texts(out@),
                    !seen ==> forall|m: int| 0 <= m < j ==> before[m] != k@,
                    seen ==> before.contains(k@),
                decreases out.len() - j,
            {
                if text_eq(out[j], k) {
                    assert(before[j as int] == k@);
                    seen = true;
                }
                j = j + 1;
            }
            if !seen {
                out.push(k);
                assert(key_texts(out@) == before.push(k@));
            }
        }
        let ghost t0 = vars@.take(i as int);
        let ghost t1 = vars@.take(i + 1);
        let ghost after = key_texts(out@);
        let ghost vi = vars@[i as int];
        assert(t1 == t0.push(vi));
        assert(after == before || (vi.secret && after == before.push(vi.key@)));
        assert(vi.secret ==> after.contains(vi.key@)) by {
            if vi.secret {
                if after == before.push(vi.key@) {
                    assert(after[before.len() as int] == vi.key@);
                }
            }
        }
        assert forall|key: Seq<char>| #[trigger] after.to_set().contains(key) <==> start.union(
            secret_keys_of(t1),
        ).contains(key) by {
            if after.contains(key) {
                let idx = choose|idx: int| 0 <= idx < after.len() && after[idx] == key;
                if idx < before.len() {
                    assert(before[idx] == key);
                    assert(before.to_set().contains(key));
                    if secret_keys_of(t0).contains(key) {
                        let m = choose|m: int| 0 <= m < t0.len() && (#[trigger] t0[m]).secret && t0[m].key@ == key;
                        assert(t1[m] == t0[m]);
                    }
                } else {
                    assert(key == vi.key@ && vi.secret);
                    assert(t1[i as int] == vi);
                }
            }
            if start.union(secret_keys_of(t1)).contains(key) {
                if start.contains(key) || secret_keys_of(t0).contains(key) {
                    assert(before.to_set().contains(key));
                    let idx = choose|idx: int| 0 <= idx < before.len() && before[idx] == key;
                    assert(after[idx] == key);
                } else {
                    let m = choose|m: int| 0 <= m < t1.len() && (#[trigger] t1[m]).secret && t1[m].key@ == key;
                    if m < i {
                        assert(t0[m] == t1[m]);
                        assert(secret_keys_of(t0).contains(key));
                    } else {
                        assert(t1[m] == vi);
                    }
                }
            }
        }
        assert(after.to_set() == start.union(secret_keys_of(t1)));
        i = i + 1;
    }
    assert(vars@.take(vars@.len() as int) == vars@);
}

// ---------------------------------------------------------------------
// Dynamic values
// ---------------------------------------------------------------------

/// The names of the built-in dynamic values.
pub open spec fn is_dynamic_name(k: Seq<char>) -> bool {
    k == "$uuid"@ || k == "$guid"@ || k == "$timestamp"@ || k == "$isoTimestamp"@ || k
        == "$randomInt"@
}

/// The shape of a hyphenated lower-case UUID text.
pub open spec fn is_uuid_text(s: Seq<char>) -> bool {
    &&& s.len() == 36
    &&& forall|i: int|
        0 <= i < 36 ==> if i == 8 || i == 13 || i == 18 || i == 23 {
            s[i] == '-'
        } else {
            ('0' <= #[trigger] s[i] <= '9') || ('a' <= s[i] <= 'f')
        }
}

/// The shape of a random (version 4) UUID text: a UUID text whose version
/// digit is `4` and whose variant digit is one of `8`, `9`, `a`, `b`.
pub open spec fn is_uuid_v4_text(s: Seq<char>) -> bool {
    &&& is_uuid_text(s)
    &&& s[14] == '4'
    &&& (s[19] == '8' || s[19] == '9' || s[19] == 'a' || s[19] == 'b')
}

/// Every character of `s` is a decimal digit.
pub open spec fn all_digits(s: Seq<char>) -> bool {
    forall|i: int| 0 <= i < s.len() ==> '0' <= #[trigger] s[i] <= '9'
}

/// Two decimal digits at `at` and `at + 1`.
pub open spec fn two_digits(s: Seq<char>, at: int) -> bool {
    '0' <= s[at] <= '9' && '0' <= s[at + 1] <= '9'
}

/// A year as RFC 3339 text gives it: four digits, or a sign and at least
/// four digits for a year outside 0 to 9999.
pub open spec fn rfc3339_year(y: Seq<char>) -> bool {
    ||| y.len() == 4 && all_digits(y)
    ||| y.len() >= 5 && (y[0] == '+' || y[0] == '-') && all_digits(y.drop_first())
}

/// The fraction of a second: none, or a dot and 3, 6 or 9 digits.
pub open spec fn rfc3339_fraction(f: Seq<char>) -> bool {
    ||| f.len() == 0
    ||| (f.len() == 4 || f.len() == 7 || f.len() == 10) && f[0] == '.' && all_digits(f.drop_first())
}

/// The shape of a UTC time in RFC 3339 form: a year, `-MM-DDTHH:MM:SS`, an
/// optional fraction of a second, and the offset `+00:00`.
pub open spec fn is_rfc3339_utc(s: Seq<char>) -> bool {
    exists|k: int|
        #![trigger s.take(k)]
        4 <= k && k + 21 <= s.len() && rfc3339_year(s.take(k)) && {
            let t = s.skip(k);
            &&& t[0] == '-' && two_digits(t, 1) && t[3] == '-' && two_digits(t, 4)
            &&& t[6] == 'T' && two_digits(t, 7) && t[9] == ':' && two_digits(t, 10)
            &&& t[12] == ':' && two_digits(t, 13)
            &&& rfc3339_fraction(t.subrange(15, t.len() - 6))
            &&& t.skip(t.len() - 6) == "+00:00"@
        }
}

/// What a dynamic value can be, for each name.
pub open spec fn dynamic_value_ok(k: Seq<char>, out: Option<Seq<char>>) -> bool {
    if k == "$uuid"@ || k == "$guid"@ {
        out matches Some(v) && is_uuid_v4_text(v)
    } else if k == "$timestamp"@ {
        out matches Some(v) && exists|t: i64| v == signed_decimal(t as int)
    } else if k == "$isoTimestamp"@ {
        out matches Some(v) && is_rfc3339_utc(v)
    } else if k == "$randomInt"@ {
        out matches Some(v) && exists|nanos: u32| #![trigger decimal((nanos % 100000) as nat)] v == decimal((nanos % 100000) as nat)
    } else {
        out is None
    }
}

/// A fresh random (version 4) UUID, as `Uuid::new_v4().to_string()` writes
/// it: 36 characters, lower-case hexadecimal digits in groups of 8, 4, 4, 4
/// and 12 joined by hyphens, with the version digit `4` and the variant digit
/// one of `8`, `9`, `a`, `b`. Which UUID is drawn is not stated.
#[verifier::external_body]
fn new_uuid_text() -> (r: String)
    ensures
        is_uuid_v4_text(r@),
{
    uuid::Uuid::new_v4().to_string()
}

/// The current time as whole seconds since the Unix epoch
/// (`chrono::Utc::now().timestamp()`). Nothing is stated of its value.
#[verifier::external_body]
fn now_timestamp() -> i64 {
    chrono::Utc::now().timestamp()
}

/// The current time in RFC 3339 form (`chrono::Utc::now().to_rfc3339()`):
/// date, `T`, time, the fraction of a second when it is not zero, and the
/// offset `+00:00`. Which time it is, is not stated.
#[verifier::external_body]
fn now_rfc3339() -> (r: String)
    ensures
        is_rfc3339_utc(r@),
{
    chrono::Utc::now().to_rfc3339()
}

/// The nanoseconds past the current second
/// (`chrono::Utc::now().timestamp_subsec_nanos()`). Nothing is stated of
/// its value.
#[verifier::external_body]
fn now_subsec_nanos() -> u32 {
    chrono::Utc::now().timestamp_subsec_nanos()
}

/// The text of `$randomInt` for a clock reading of `nanos` nanoseconds past
/// the second: the reading modulo 100000, in decimal.
pub fn random_int_text(nanos: u32) -> (r: String)
    ensures
        r@ == decimal((nanos % 100000) as nat),
{
    let n: u64 = (nanos % 100000) as u64;
    u64_to_decimal(n)
}

/// The built-in dynamic value called `name`: a fresh UUID for `$uuid` and
/// `$guid`, the Unix time in seconds for `$timestamp`, the RFC 3339 time for
/// `$isoTimestamp`, a number below 100000 taken from the clock for
/// `$randomInt`, and `None` for any other name.
pub fn dynamic_value(name: &str) -> (r: Option<String>)
    ensures
        dynamic_value_ok(name@, opt_text(r)),
        r is Some <==> is_dynamic_name(name@),
{
    if text_eq(name, "$uuid") || text_eq(name, "$guid") {
        Some(new_uuid_text())
    } else if text_eq(name, "$timestamp") {
        let t = now_timestamp();
        let s = i64_to_decimal(t);
        assert(s@ == signed_decimal(t as int));
        Some(s)
    } else if text_eq(name, "$isoTimestamp") {
        Some(now_rfc3339())
    } else if text_eq(name, "$randomInt") {
        let nanos = now_subsec_nanos();
        let s = random_int_text(nanos);
        assert(s@ == decimal((nanos % 100000) as nat));
        Some(s)
    } else {
        None
    }
}

// ---------------------------------------------------------------------
// Interpolation
// ---------------------------------------------------------------------

/// The closing `}}` of a placeholder.
pub open spec fn close_braces() -> Seq<char> {
    seq!['}', '}']
}

/// When `s` starts with `{{` and a later `}}` closes it, the index of that
/// first `}}`.
pub open spec fn placeholder_end(s: Seq<char>) -> Option<int> {
    if s.len() >= 2 && s[0] == '{' && s[1] == '{' {
        first_occurrence(s, close_braces(), 2)
    } else {
        None
    }
}

pub proof fn lemma_placeholder_end(s: Seq<char>)
    ensures
        placeholder_end(s) matches Some(e) ==> 2 <= e && e + 2 <= s.len() && occurs_at(
            s,
            close_braces(),
            e,
        ),
{
    if s.len() >= 2 && s[0] == '{' && s[1] == '{' {
        lemma_first_occurrence(s, close_braces(), 2);
    }
}

/// The trimmed keys of the placeholders of `s`, in order.
pub open spec fn placeholder_keys(s: Seq<char>) -> Seq<Seq<char>>
    decreases s.len(),
{
    if s.len() == 0 {
        seq![]
    } else {
        match placeholder_end(s) {
            Some(e) => {
                proof {
                    lemma_placeholder_end(s);
                }
                seq![trim_of(s.subrange(2, e))] + placeholder_keys(s.skip(e + 2))
            },
            None => placeholder_keys(s.drop_first()),
        }
    }
}

/// The first dynamic outcome, if any.
pub open spec fn first_out(outs: Seq<Option<Seq<char>>>) -> Option<Seq<char>> {
    if outs.len() > 0 {
        outs[0]
    } else {
        None
    }
}

/// The dynamic outcomes after the first.
pub open spec fn rest_outs(outs: Seq<Option<Seq<char>>>) -> Seq<Option<Seq<char>>> {
    if outs.len() > 0 {
        outs.drop_first()
    } else {
        outs
    }
}

/// `s` with each placeholder `{{ key }}` replaced: by the next dynamic
/// outcome in `outs` when that is `Some`, else by the value of `key` in
/// `vars`, else left as written. Characters outside placeholders are kept.
pub open spec fn interp(s: Seq<char>, vars: Seq<EnvVar>, outs: Seq<Option<Seq<char>>>) -> Seq<char>
    decreases s.len(),
{
    if s.len() == 0 {
        seq![]
    } else {
        match placeholder_end(s) {
            Some(e) => {
                proof {
                    lemma_placeholder_end(s);
                }
                let key = trim_of(s.subrange(2, e));
                let piece = match first_out(outs) {
                    Some(v) => v,
                    None => match lookup(vars, key) {
                        Some(v) => v,
                        None => s.take(e + 2),
                    },
                };
                piece + interp(s.skip(e + 2), vars, rest_outs(outs))
            },
            None => seq![s[0]] + interp(s.drop_first(), vars, outs),
        }
    }
}

/// The outcomes are what `dynamic_value` can give for each key.
pub open spec fn outcomes_ok(keys: Seq<Seq<char>>, outs: Seq<Option<Seq<char>>>) -> bool {
    &&& outs.len() == keys.len()
    &&& forall|j: int| 0 <= j < keys.len() ==> dynamic_value_ok(#[trigger] keys[j], outs[j])
}

/// The texts of optional strings.
pub open spec fn opt_texts(v: Seq<Option<String>>) -> Seq<Option<Seq<char>>> {
    v.map_values(|o: Option<String>| opt_text(o))
}

/// The placeholder starting at `i` in `v`, found the way the scan finds it.
fn placeholder_at(v: &Vec<char>, close: &Vec<char>, i: usize) -> (r: Option<usize>)
    requires
        i < v.len(),
        close@ == close_braces(),
    ensures
        r matches Some(e) ==> placeholder_end(v@.skip(i as int)) == Some(e - i) && i + 2 <= e && e
            + 2 <= v.len(),
        r is None ==> placeholder_end(v@.skip(i as int)) is None,
{
    let ghost t = v@.skip(i as int);
    if v[i] == '{' && i + 1 < v.len() && v[i + 1] == '{' {
        assert(t[0] == '{' && t[1] == '{');
        let r = find_from(v, close, i + 2);
        proof {
            lemma_first_occurrence_skip(v@, close@, i as int, 2);
            lemma_first_occurrence(v@, close@, i + 2);
        }
        r
    } else {
        None
    }
}

/// The trimmed keys of the placeholders of `input`, in order.
pub fn template_keys(input: &str) -> (r: Vec<String>)
    ensures
        r@.map_values(|s: String| s@) == placeholder_keys(input@),
{
    let v = chars_of(input);
    let close: Vec<char> = vec!['}', '}'];
    assert(close@ == close_braces());
    let mut r: Vec<String> = Vec::new();
    let mut i: usize = 0;
    assert(v@.skip(0) == v@);
    while i < v.len()
        invariant
            i <= v.len(),
            v@ == input@,
            close@ == close_braces(),
            r@.map_values(|s: String| s@) + placeholder_keys(v@.skip(i as int)) == placeholder_keys(
                input@,
            ),
        decreases v.len() - i,
    {
        let ghost t = v@.skip(i as int);
        let ghost before = r@.map_values(|s: String| s@);
        match placeholder_at(&v, &close, i) {
            Some(e) => {
                let raw = string_from_range(&v, i + 2, e);
                let key = trim(raw.as_str());
                assert(t.subrange(2, e - i) == v@.subrange(i + 2, e as int));
                assert(t.skip(e - i + 2) == v@.skip(e + 2));
                r.push(key);
                assert(r@.map_values(|s: String| s@) == before.push(key@));
                assert(before.push(key@) + placeholder_keys(v@.skip(e + 2)) == before + (seq![key@]
                    + placeholder_keys(v@.skip(e + 2))));
                i = e + 2;
            },
            None => {
                assert(t.drop_first() == v@.skip(i + 1));
                i = i + 1;
            },
        }
    }
    assert(placeholder_keys(v@.skip(i as int)) == Seq::<Seq<char>>::empty());
    assert(r@.map_values(|s: String| s@) + Seq::<Seq<char>>::empty() == r@.map_values(
        |s: String| s@,
    ));
    r
}

/// Interpolates `input` with the dynamic outcomes given: the `k`-th
/// placeholder takes `dynamic[k]` when that is `Some`, else its value in
/// `ctx`, else stays as written.
pub fn interpolate_with(input: &str, ctx: &VarContext, dynamic: &Vec<Option<String>>) -> (r: String)
    ensures
        r@ == interp(input@, ctx.vars(), opt_texts(dynamic@)),
{
    let v = chars_of(input);
    let close: Vec<char> = vec!['}', '}'];
    assert(close@ == close_braces());
    let ghost outs = opt_texts(dynamic@);
    let mut out = String::new();
    let mut i: usize = 0;
    let mut k: usize = 0;
    assert(v@.skip(0) == v@);
    assert(outs.skip(0) == outs);
    while i < v.len()
        invariant
            i <= v.len(),
            k <= dynamic@.len(),
            v@ == input@,
            close@ == close_braces(),
            outs == opt_texts(dynamic@),
            out@ + interp(v@.skip(i as int), ctx.vars(), outs.skip(k as int)) == interp(
                input@,
                ctx.vars(),
                outs,
            ),
        decreases v.len() - i,
    {
        let ghost t = v@.skip(i as int);
        let ghost os = outs.skip(k as int);
        match placeholder_at(&v, &close, i) {
            Some(e) => {
                let raw = string_from_range(&v, i + 2, e);
                let key = trim(raw.as_str());
                assert(t.subrange(2, e - i) == v@.subrange(i + 2, e as int));
                assert(t.skip(e - i + 2) == v@.skip(e + 2));
                let given: Option<String> = if k < dynamic.len() {
                    assert(os[0] == outs[k as int]);
                    match &dynamic[k] {
                        Some(s) => Some(s.clone()),
                        None => None,
                    }
                } else {
                    None
                };
                assert(opt_text(given) == first_out(os));
                let resolved = match given {
                    Some(s) => Some(s),
                    None => ctx.resolve(key.as_str()),
                };
                match resolved {
                    Some(val) => {
                        out.append(val.as_str());
                    },
                    None => {
                        let whole = string_from_range(&v, i, e + 2);
                        assert(t.take(e - i + 2) == v@.subrange(i as int, e + 2));
                        out.append(whole.as_str());
                    },
                }
                if k < dynamic.len() {
                    assert(os.drop_first() == outs.skip(k + 1));
                    k = k + 1;
                } else {
                    assert(os.len() == 0);
                }
                i = e + 2;
            },
            None => {
                assert(t.drop_first() == v@.skip(i + 1));
                push_char(&mut out, v[i]);
                i = i + 1;
            },
        }
    }
    assert(v@.skip(i as int).len() == 0);
    out
}

/// All-`None` outcomes act as no outcomes at all.
pub proof fn lemma_interp_no_dynamic(s: Seq<char>, vars: Seq<EnvVar>, outs: Seq<Option<Seq<char>>>)
    requires
        forall|j: int| 0 <= j < outs.len() ==> outs[j] is None,
    ensures
        interp(s, vars, outs) == interp(s, vars, seq![]),
    decreases s.len(),
{
    if s.len() > 0 {
        lemma_placeholder_end(s);
        match placeholder_end(s) {
            Some(e) => {
                let r = rest_outs(outs);
                assert forall|j: int| 0 <= j < r.len() implies r[j] is None by {
                    assert(r[j] == outs[j + 1]);
                }
                lemma_interp_no_dynamic(s.skip(e + 2), vars, r);
                lemma_interp_no_dynamic(s.skip(e + 2), vars, seq![]);
                assert(rest_outs(seq![]) == Seq::<Option<Seq<char>>>::empty());
            },
            None => {
                lemma_interp_no_dynamic(s.drop_first(), vars, outs);
            },
        }
    }
}

/// Replaces every `{{ key }}` of `input` with its value: a built-in dynamic
/// value for `$uuid`, `$guid`, `$timestamp`, `$isoTimestamp` and `$randomInt`,
/// else the variable of that name in `ctx`. A placeholder whose key has no
/// value is left as written, and so is a `{{` that nothing closes.
pub fn interpolate(input: &str, ctx: &VarContext) -> (r: String)
    ensures
        exists|outs: Seq<Option<Seq<char>>>|
            outcomes_ok(placeholder_keys(input@), outs) && r@ == interp(input@, ctx.vars(), outs),
        (forall|j: int|
            0 <= j < placeholder_keys(input@).len() ==> !is_dynamic_name(
                #[trigger] placeholder_keys(input@)[j],
            )) ==> r@ == interp(input@, ctx.vars(), seq![]),
{
    let keys = template_keys(input);
    let ghost kv = placeholder_keys(input@);
    let mut dynamic: Vec<Option<String>> = Vec::new();
    let mut j: usize = 0;
    while j < keys.len()
        invariant
            j <= keys@.len(),
            keys@.map_values(|s: String| s@) == kv,
            dynamic@.len() == j,
            forall|m: int| 0 <= m < j ==> dynamic_value_ok(kv[m], opt_text(#[trigger] dynamic@[m])),
            forall|m: int| 0 <= m < j ==> (dynamic@[m] is Some <==> is_dynamic_name(kv[m])),
        decreases keys.len() - j,
    {
        let d = dynamic_value(keys[j].as_str());
        assert(keys@[j as int]@ == kv[j as int]);
        dynamic.push(d);
        j = j + 1;
    }
    let r = interpolate_with(input, ctx, &dynamic);
    proof {
        let outs = opt_texts(dynamic@);
        assert forall|m: int| 0 <= m < kv.len() implies dynamic_value_ok(#[trigger] kv[m], outs[m]) by {
            assert(outs[m] == opt_text(dynamic@[m]));
        }
        assert(outcomes_ok(kv, outs));
        if forall|m: int| 0 <= m < kv.len() ==> !is_dynamic_name(#[trigger] kv[m]) {
            assert forall|m: int| 0 <= m < outs.len() implies outs[m] is None by {
                assert(!is_dynamic_name(kv[m]));
                assert(outs[m] == opt_text(dynamic@[m]));
            }
            lemma_interp_no_dynamic(input@, ctx.vars(), outs);
        }
    }
    r
}

// ---------------------------------------------------------------------
// Laws
// ---------------------------------------------------------------------

/// Scopes are searched in order: a variable of the environment hides one of
/// the same key in the collection, which hides one in the global scope.
pub proof fn lemma_resolve_precedence(ctx: VarContext, key: Seq<char>)
    ensures
        lookup(ctx.vars(), key) == match lookup(ctx.environment@, key) {
            Some(v) => Some(v),
            None => match lookup(ctx.collection@, key) {
                Some(v) => Some(v),
                None => lookup(ctx.global@, key),
            },
        },
{
    lemma_lookup_concat(ctx.environment@ + ctx.collection@, ctx.global@, key);
    lemma_lookup_concat(ctx.environment@, ctx.collection@, key);
}

/// A variable that is switched off takes no part: when every variable named
/// `key` is disabled, `key` has no value.
pub proof fn lemma_disabled_ignored(vars: Seq<EnvVar>, key: Seq<char>)
    requires
        forall|i: int| 0 <= i < vars.len() && (#[trigger] vars[i]).key@ == key ==> !vars[i].enabled,
    ensures
        lookup(vars, key) is None,
    decreases vars.len(),
{
    if vars.len() > 0 {
        assert forall|i: int|
            0 <= i < vars.drop_first().len() && (#[trigger] vars.drop_first()[i]).key@ == key implies !vars.drop_first()[i].enabled by {
            assert(vars.drop_first()[i] == vars[i + 1]);
        }
        lemma_disabled_ignored(vars.drop_first(), key);
    }
}

/// Placeholders whose keys have no value are left exactly as written: when
/// no key of `s` resolves and no dynamic outcome is given, interpolation
/// gives `s` back unchanged.
pub proof fn lemma_unresolved_placeholders_kept(s: Seq<char>, vars: Seq<EnvVar>)
    requires
        forall|j: int|
            0 <= j < placeholder_keys(s).len() ==> lookup(vars, #[trigger] placeholder_keys(s)[j])
                is None,
    ensures
        interp(s, vars, seq![]) == s,
    decreases s.len(),
{
    if s.len() > 0 {
        lemma_placeholder_end(s);
        match placeholder_end(s) {
            Some(e) => {
                let rest = s.skip(e + 2);
                assert(placeholder_keys(s) == seq![trim_of(s.subrange(2, e))] + placeholder_keys(
                    rest,
                ));
                assert(lookup(vars, placeholder_keys(s)[0]) is None);
                assert forall|j: int| 0 <= j < placeholder_keys(rest).len() implies lookup(
                    vars,
                    #[trigger] placeholder_keys(rest)[j],
                ) is None by {
                    assert(placeholder_keys(rest)[j] == placeholder_keys(s)[j + 1]);
                }
                lemma_unresolved_placeholders_kept(rest, vars);
                assert(rest_outs(seq![]) == Seq::<Option<Seq<char>>>::empty());
                assert(s.take(e + 2) + rest == s);
            },
            None => {
                let rest = s.drop_first();
                assert(placeholder_keys(s) == placeholder_keys(rest));
                lemma_unresolved_placeholders_kept(rest, vars);
                assert(seq![s[0]] + rest == s);
            },
        }
    }
}

/// The variables with their secret marks replaced by `marks`.
pub open spec fn with_secret_marks(vars: Seq<EnvVar>, marks: Seq<bool>) -> Seq<EnvVar> {
    Seq::new(
        vars.len(),
        |i: int|
            EnvVar { key: vars[i].key, value: vars[i].value, secret: marks[i], enabled: vars[i].enabled },
    )
}

proof fn lemma_lookup_ignores_secret_marks(vars: Seq<EnvVar>, marks: Seq<bool>, key: Seq<char>)
    requires
        marks.len() == vars.len(),
    ensures
        lookup(with_secret_marks(vars, marks), key) == lookup(vars, key),
    decreases vars.len(),
{
    if vars.len() > 0 {
        assert(with_secret_marks(vars, marks).drop_first() == with_secret_marks(
            vars.drop_first(),
            marks.drop_first(),
        ));
        lemma_lookup_ignores_secret_marks(vars.drop_first(), marks.drop_first(), key);
    }
}

/// Interpolation sends the real values of secret variables: marking
/// variables secret or not changes nothing in what interpolation gives.
pub proof fn lemma_secret_marks_ignored(
    s: Seq<char>,
    vars: Seq<EnvVar>,
    marks: Seq<bool>,
    outs: Seq<Option<Seq<char>>>,
)
    requires
        marks.len() == vars.len(),
    ensures
        interp(s, with_secret_marks(vars, marks), outs) == interp(s, vars, outs),
    decreases s.len(),
{
    if s.len() > 0 {
        lemma_placeholder_end(s);
        match placeholder_end(s) {
            Some(e) => {
                lemma_lookup_ignores_secret_marks(vars, marks, trim_of(s.subrange(2, e)));
                lemma_secret_marks_ignored(s.skip(e + 2), vars, marks, rest_outs(outs));
            },
            None => {
                lemma_secret_marks_ignored(s.drop_first(), vars, marks, outs);
            },
        }
    }
}

/// Text outside placeholders is kept as it is: a text `t` without `{` in
/// front of any text `b` comes out unchanged, followed by the interpolation
/// of `b` with the same outcomes.
pub proof fn lemma_plain_text_kept(
    t: Seq<char>,
    b: Seq<char>,
    vars: Seq<EnvVar>,
    outs: Seq<Option<Seq<char>>>,
)
    requires
        forall|i: int| 0 <= i < t.len() ==> t[i] != '{',
    ensures
        interp(t + b, vars, outs) == t + interp(b, vars, outs),
    decreases t.len(),
{
    if t.len() == 0 {
        assert(t + b == b);
        assert(t + interp(b, vars, outs) == interp(b, vars, outs));
    } else {
        let s = t + b;
        assert(s[0] == t[0]);
        assert(placeholder_end(s) is None);
        assert(s.drop_first() == t.drop_first() + b);
        lemma_plain_text_kept(t.drop_first(), b, vars, outs);
        assert(seq![t[0]] + (t.drop_first() + interp(b, vars, outs)) == t + interp(b, vars, outs));
    }
}

/// Each placeholder is replaced on its own and uses exactly one outcome,
/// whatever comes before or after it: `{{k}}` in front of any text `b` gives
/// the placeholder's value (the first outcome when there is one, else the
/// value of the trimmed key, else the placeholder as written), followed by the
/// interpolation of `b` with the remaining outcomes. When the outcomes are
/// what `dynamic_value` gives and the key is a dynamic name, the value put
/// there is one that `dynamic_value` gives for that name.
pub proof fn lemma_placeholder_replaced(
    k: Seq<char>,
    b: Seq<char>,
    vars: Seq<EnvVar>,
    outs: Seq<Option<Seq<char>>>,
)
    requires
        forall|i: int| 0 <= i < k.len() ==> k[i] != '}',
        outs.len() >= 1,
    ensures
        interp(seq!['{', '{'] + k + seq!['}', '}'] + b, vars, outs) == match outs[0] {
            Some(v) => v,
            None => match lookup(vars, trim_of(k)) {
                Some(v) => v,
                None => seq!['{', '{'] + k + seq!['}', '}'],
            },
        } + interp(b, vars, outs.skip(1)),
        placeholder_keys(seq!['{', '{'] + k + seq!['}', '}'] + b) == seq![trim_of(k)]
            + placeholder_keys(b),
        outcomes_ok(placeholder_keys(seq!['{', '{'] + k + seq!['}', '}'] + b), outs)
            && is_dynamic_name(trim_of(k)) ==> (outs[0] matches Some(v) && dynamic_value_ok(
            trim_of(k),
            Some(v),
        )),
{
    let p = seq!['{', '{'] + k + seq!['}', '}'];
    let s = p + b;
    let e: int = k.len() as int + 2;
    assert(s[0] == '{' && s[1] == '{');
    assert(s.subrange(e, e + 2) == close_braces());
    assert forall|j: int| 2 <= j < e implies !occurs_at(s, close_braces(), j) by {
        assert(s[j] == k[j - 2]);
    }
    lemma_first_occurrence_is(s, close_braces(), 2, e);
    assert(placeholder_end(s) == Some(e));
    assert(s.subrange(2, e) == k);
    assert(s.take(e + 2) == p);
    assert(s.skip(e + 2) == b);
    assert(rest_outs(outs) == outs.skip(1));
    if outcomes_ok(placeholder_keys(s), outs) && is_dynamic_name(trim_of(k)) {
        assert(placeholder_keys(s)[0] == trim_of(k));
    }
}

} // verus!
