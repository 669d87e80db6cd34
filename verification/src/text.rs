//! Character-level text operations over `&str` / `String`, each with a
//! specification over the string's `Seq<char>` view.
use vstd::prelude::*;

verus! {

// ---------------------------------------------------------------------
// Specifications
// ---------------------------------------------------------------------

/// Unicode `White_Space`, the property that `char::is_whitespace` tests.
pub open spec fn is_ws(c: char) -> bool {
    ||| '\u{9}' <= c <= '\u{d}'
    ||| c == ' '
    ||| c == '\u{85}'
    ||| c == '\u{a0}'
    ||| c == '\u{1680}'
    ||| '\u{2000}' <= c <= '\u{200a}'
    ||| c == '\u{2028}'
    ||| c == '\u{2029}'
    ||| c == '\u{202f}'
    ||| c == '\u{205f}'
    ||| c == '\u{3000}'
}

/// The two quote characters that a curl URL argument is stripped of.
pub open spec fn is_quote(c: char) -> bool {
    c == '\'' || c == '"'
}

/// The class of characters that a trim removes: quotes, or white space.
pub open spec fn strips(c: char, quotes: bool) -> bool {
    if quotes {
        is_quote(c)
    } else {
        is_ws(c)
    }
}

/// Number of leading characters of `s` in the class.
pub open spec fn lead(s: Seq<char>, quotes: bool) -> nat
    decreases s.len(),
{
    if s.len() > 0 && strips(s[0], quotes) {
        1 + lead(s.drop_first(), quotes)
    } else {
        0
    }
}

/// Number of trailing characters of `s` in the class.
pub open spec fn trail(s: Seq<char>, quotes: bool) -> nat
    decreases s.len(),
{
    if s.len() > 0 && strips(s.last(), quotes) {
        1 + trail(s.drop_last(), quotes)
    } else {
        0
    }
}

/// `s` with leading and then trailing characters of the class removed.
pub open spec fn strip_of(s: Seq<char>, quotes: bool) -> Seq<char> {
    let t = s.skip(lead(s, quotes) as int);
    t.take(t.len() - trail(t, quotes))
}

/// `str::trim`.
pub open spec fn trim_of(s: Seq<char>) -> Seq<char> {
    strip_of(s, false)
}

/// `str::trim_start`.
pub open spec fn trim_start_of(s: Seq<char>) -> Seq<char> {
    s.skip(lead(s, false) as int)
}

/// `str::trim_matches(['\'', '"'])`.
pub open spec fn trim_quotes_of(s: Seq<char>) -> Seq<char> {
    strip_of(s, true)
}

/// `n` occurs in `h` starting at index `i`.
pub open spec fn occurs_at(h: Seq<char>, n: Seq<char>, i: int) -> bool {
    0 <= i && i + n.len() <= h.len() && h.subrange(i, i + n.len()) == n
}

/// The first index at or after `from` where `n` occurs in `h`.
pub open spec fn first_occurrence(h: Seq<char>, n: Seq<char>, from: int) -> Option<int>
    decreases h.len() + 1 - from,
{
    if from < 0 || from + n.len() > h.len() {
        None
    } else if occurs_at(h, n, from) {
        Some(from)
    } else {
        first_occurrence(h, n, from + 1)
    }
}

/// `h` contains `n` (`str::contains`).
pub open spec fn contains_seq(h: Seq<char>, n: Seq<char>) -> bool {
    exists|i: int| occurs_at(h, n, i)
}

/// The first index of character `c` in `s`.
pub open spec fn index_of_char(s: Seq<char>, c: char) -> Option<int> {
    first_occurrence(s, seq![c], 0)
}

/// `str::split_once(c)`: the parts before and after the first `c`.
pub open spec fn split_once_of(s: Seq<char>, c: char) -> Option<(Seq<char>, Seq<char>)> {
    match index_of_char(s, c) {
        Some(i) => Some((s.take(i), s.skip(i + 1))),
        None => None,
    }
}

/// `s` starts with character `c`.
pub open spec fn starts_with_char(s: Seq<char>, c: char) -> bool {
    s.len() > 0 && s[0] == c
}

/// `s` starts with `p`.
pub open spec fn has_prefix(s: Seq<char>, p: Seq<char>) -> bool {
    p.len() <= s.len() && s.take(p.len() as int) == p
}

/// `char::to_ascii_lowercase`.
pub open spec fn ascii_lower(c: char) -> char {
    if 'A' <= c <= 'Z' {
        ((c as u32) + 32) as char
    } else {
        c
    }
}

/// `char::to_ascii_uppercase`.
pub open spec fn ascii_upper(c: char) -> char {
    if 'a' <= c <= 'z' {
        ((c as u32) - 32) as char
    } else {
        c
    }
}

/// Every character of `s` is ASCII.
pub open spec fn is_ascii_text(s: Seq<char>) -> bool {
    forall|i: int| 0 <= i < s.len() ==> (#[trigger] s[i] as u32) < 128
}

/// `str::eq_ignore_ascii_case`.
pub open spec fn eq_ignore_ascii_case_of(a: Seq<char>, b: Seq<char>) -> bool {
    a.len() == b.len() && forall|i: int| 0 <= i < a.len() ==> ascii_lower(a[i]) == ascii_lower(b[i])
}

/// The decimal digit character of `d < 10`.
pub open spec fn digit_char(d: nat) -> char {
    ((48 + d) as u32) as char
}

/// The decimal notation of a natural number, as `Display` writes it.
pub open spec fn decimal(n: nat) -> Seq<char>
    decreases n,
{
    if n < 10 {
        seq![digit_char(n)]
    } else {
        decimal(n / 10).push(digit_char(n % 10))
    }
}

/// The decimal notation of an integer, with `-` before a negative one.
pub open spec fn signed_decimal(n: int) -> Seq<char> {
    if n < 0 {
        seq!['-'] + decimal((-n) as nat)
    } else {
        decimal(n as nat)
    }
}

/// Every non-overlapping occurrence of the non-empty `from`, left to right,
/// replaced by `to` (`str::replace`).
pub open spec fn replace_of(s: Seq<char>, from: Seq<char>, to: Seq<char>) -> Seq<char>
    decreases s.len(),
{
    if from.len() == 0 || s.len() == 0 {
        s
    } else if has_prefix(s, from) {
        to + replace_of(s.skip(from.len() as int), from, to)
    } else {
        seq![s[0]] + replace_of(s.drop_first(), from, to)
    }
}

/// Each `c` in `s` replaced by `to` (`str::replace` with a `char` pattern).
pub open spec fn replace_char_of(s: Seq<char>, c: char, to: Seq<char>) -> Seq<char>
    decreases s.len(),
{
    if s.len() == 0 {
        s
    } else if s[0] == c {
        to + replace_char_of(s.drop_first(), c, to)
    } else {
        seq![s[0]] + replace_char_of(s.drop_first(), c, to)
    }
}

// ---------------------------------------------------------------------
// Lemmas
// ---------------------------------------------------------------------

pub proof fn lemma_lead_bound(s: Seq<char>, quotes: bool)
    ensures
        lead(s, quotes) <= s.len(),
    decreases s.len(),
{
    if s.len() > 0 && strips(s[0], quotes) {
        lemma_lead_bound(s.drop_first(), quotes);
    }
}

pub proof fn lemma_trail_bound(s: Seq<char>, quotes: bool)
    ensures
        trail(s, quotes) <= s.len(),
    decreases s.len(),
{
    if s.len() > 0 && strips(s.last(), quotes) {
        lemma_trail_bound(s.drop_last(), quotes);
    }
}

/// Replacing a pattern that does not occur changes nothing.
pub proof fn lemma_replace_absent(s: Seq<char>, from: Seq<char>, to: Seq<char>)
    requires
        !contains_seq(s, from),
    ensures
        replace_of(s, from, to) == s,
    decreases s.len(),
{
    if from.len() > 0 && s.len() > 0 {
        if has_prefix(s, from) {
            assert(occurs_at(s, from, 0)) by {
                assert(s.subrange(0, from.len() as int) == s.take(from.len() as int));
            }
        }
        assert forall|i: int| !occurs_at(s.drop_first(), from, i) by {
            if occurs_at(s.drop_first(), from, i) {
                assert(s.drop_first().subrange(i, i + from.len()) == s.subrange(i + 1, i + 1 + from.len()));
                assert(occurs_at(s, from, i + 1));
            }
        }
        lemma_replace_absent(s.drop_first(), from, to);
        assert(seq![s[0]] + s.drop_first() == s);
    }
}

/// While no replacement text (which starts with `*`) has been written, the
/// replaced text agrees with the text it came from.
pub proof fn lemma_prefix_unreplaced(t: Seq<char>, from: Seq<char>, to: Seq<char>, k: int)
    requires
        from.len() > 0,
        to.len() > 0,
        to[0] == '*',
        0 <= k <= replace_of(t, from, to).len(),
        forall|j: int| 0 <= j < k ==> replace_of(t, from, to)[j] != '*',
    ensures
        k <= t.len(),
        replace_of(t, from, to).take(k) == t.take(k),
    decreases t.len(),
{
    let r = replace_of(t, from, to);
    if k == 0 {
        assert(r.take(0) == t.take(0));
    } else if t.len() == 0 {
    } else if has_prefix(t, from) {
        assert(r[0] == to[0]);
    } else {
        let rest = replace_of(t.drop_first(), from, to);
        assert(r == seq![t[0]] + rest);
        assert forall|j: int| 0 <= j < k - 1 implies rest[j] != '*' by {
            assert(rest[j] == r[j + 1]);
        }
        lemma_prefix_unreplaced(t.drop_first(), from, to, k - 1);
        assert(r.take(k) == seq![t[0]] + rest.take(k - 1));
        assert(t.take(k) == seq![t[0]] + t.drop_first().take(k - 1));
    }
}

/// A text without `*`.
pub open spec fn star_free(s: Seq<char>) -> bool {
    forall|j: int| 0 <= j < s.len() ==> s[j] != '*'
}

/// Replacing a star-free pattern with stars leaves no occurrence of it, and
/// creates no occurrence of another star-free text that was absent.
pub proof fn lemma_replace_with_stars(s: Seq<char>, from: Seq<char>, to: Seq<char>, other: Seq<char>)
    requires
        from.len() > 0,
        star_free(from),
        to.len() > 0,
        forall|j: int| 0 <= j < to.len() ==> to[j] == '*',
        other.len() > 0,
        star_free(other),
        other == from || !contains_seq(s, other),
    ensures
        !contains_seq(replace_of(s, from, to), other),
    decreases s.len(),
{
    let r = replace_of(s, from, to);
    if s.len() == 0 {
        assert forall|i: int| !occurs_at(r, other, i) by {}
    } else if has_prefix(s, from) {
        let t = s.skip(from.len() as int);
        if other != from {
            assert forall|i: int| !occurs_at(t, other, i) by {
                if occurs_at(t, other, i) {
                    assert(t.subrange(i, i + other.len()) == s.subrange(
                        i + from.len(),
                        i + from.len() + other.len(),
                    ));
                    assert(occurs_at(s, other, i + from.len()));
                }
            }
        }
        lemma_replace_with_stars(t, from, to, other);
        let rest = replace_of(t, from, to);
        assert(r == to + rest);
        assert forall|i: int| !occurs_at(r, other, i) by {
            if occurs_at(r, other, i) {
                if i < to.len() {
                    assert(r.subrange(i, i + other.len())[0] == other[0]);
                    assert(r[i] == '*');
                } else {
                    assert(r.subrange(i, i + other.len()) == rest.subrange(
                        i - to.len(),
                        i - to.len() + other.len(),
                    ));
                    assert(occurs_at(rest, other, i - to.len()));
                }
            }
        }
    } else {
        let t = s.drop_first();
        if other != from {
            assert forall|i: int| !occurs_at(t, other, i) by {
                if occurs_at(t, other, i) {
                    assert(t.subrange(i, i + other.len()) == s.subrange(i + 1, i + 1 + other.len()));
                    assert(occurs_at(s, other, i + 1));
                }
            }
        }
        lemma_replace_with_stars(t, from, to, other);
        let rest = replace_of(t, from, to);
        assert(r == seq![s[0]] + rest);
        assert forall|i: int| !occurs_at(r, other, i) by {
            if occurs_at(r, other, i) {
                if i == 0 {
                    assert forall|j: int| 0 <= j < other.len() implies r[j] != '*' by {
                        assert(r.subrange(0, other.len() as int)[j] == other[j]);
                    }
                    lemma_prefix_unreplaced(s, from, to, other.len() as int);
                    assert(r.take(other.len() as int) == r.subrange(0, other.len() as int));
                    assert(s.take(other.len() as int) == other);
                    if other == from {
                        assert(has_prefix(s, from));
                    } else {
                        assert(s.subrange(0, other.len() as int) == s.take(other.len() as int));
                        assert(occurs_at(s, other, 0));
                    }
                } else {
                    assert(r.subrange(i, i + other.len()) == rest.subrange(i - 1, i - 1 + other.len()));
                    assert(occurs_at(rest, other, i - 1));
                }
            }
        }
    }
}

// ---------------------------------------------------------------------
// Executable operations
// ---------------------------------------------------------------------

/// Appends one character to a string (`String::push`): the string's text
/// gains `c` at its end.
#[verifier::external_body]
pub(crate) fn push_char(s: &mut String, c: char)
    ensures
        final(s)@ == old(s)@.push(c),
{
    s.push(c);
}

/// The characters of a string slice, in order.
pub fn chars_of(s: &str) -> (v: Vec<char>)
    ensures
        v@ == s@,
{
    let mut v: Vec<char> = Vec::new();
    for c in it: s.chars()
        invariant
            v@ == it.seq().take(it.index() as int),
    {
        v.push(c);
    }
    v
}

/// The string made of `v[lo..hi]`.
pub fn string_from_range(v: &Vec<char>, lo: usize, hi: usize) -> (r: String)
    requires
        lo <= hi <= v.len(),
    ensures
        r@ == v@.subrange(lo as int, hi as int),
{
    let mut r = String::new();
    let mut i = lo;
    while i < hi
        invariant
            lo <= i <= hi <= v.len(),
            r@ == v@.subrange(lo as int, i as int),
        decreases hi - i,
    {
        push_char(&mut r, v[i]);
        assert(v@.subrange(lo as int, i + 1) == v@.subrange(lo as int, i as int).push(v@[i as int]));
        i = i + 1;
    }
    r
}

/// The string made of all of `v`.
pub fn string_from_chars(v: &Vec<char>) -> (r: String)
    ensures
        r@ == v@,
{
    let r = string_from_range(v, 0, v.len());
    assert(v@.subrange(0, v@.len() as int) == v@);
    r
}

/// What `str::to_uppercase` makes of a text: the Unicode upper-case mapping,
/// which may change the length.
pub uninterp spec fn unicode_uppercase(s: Seq<char>) -> Seq<char>;

/// `str::to_uppercase`: the string's text under the Unicode upper-case
/// mapping, named by `unicode_uppercase` and not spelled out. For ASCII text
/// the mapping is the ASCII one: in the Unicode character data `a` to `z`
/// map to `A` to `Z`, and no other ASCII character has an upper-case
/// mapping, so it stays as it is.
#[verifier::external_body]
pub(crate) fn to_uppercase(s: &str) -> (r: String)
    ensures
        r@ == unicode_uppercase(s@),
        is_ascii_text(s@) ==> r@ == s@.map_values(|c: char| ascii_upper(c)),
{
    s.to_uppercase()
}

/// `s` followed by `t`, as a new string.
pub fn concat(s: &str, t: &str) -> (r: String)
    ensures
        r@ == s@ + t@,
{
    let mut r = String::from_str(s);
    r.append(t);
    r
}

/// `char::is_whitespace`.
pub fn is_whitespace(c: char) -> (b: bool)
    ensures
        b == is_ws(c),
{
    ('\u{9}' <= c && c <= '\u{d}') || c == ' ' || c == '\u{85}' || c == '\u{a0}' || c == '\u{1680}'
        || ('\u{2000}' <= c && c <= '\u{200a}') || c == '\u{2028}' || c == '\u{2029}' || c
        == '\u{202f}' || c == '\u{205f}' || c == '\u{3000}'
}

fn strips_exec(c: char, quotes: bool) -> (b: bool)
    ensures
        b == strips(c, quotes),
{
    if quotes {
        c == '\'' || c == '"'
    } else {
        is_whitespace(c)
    }
}

/// The bounds of `strip_of(v, quotes)` inside `v`.
pub fn strip_range(v: &Vec<char>, quotes: bool) -> (r: (usize, usize))
    ensures
        r.0 <= r.1 <= v.len(),
        v@.subrange(r.0 as int, r.1 as int) == strip_of(v@, quotes),
        r.0 == lead(v@, quotes),
{
    let n = v.len();
    let mut i: usize = 0;
    assert(v@.skip(0) == v@);
    while i < n && strips_exec(v[i], quotes)
        invariant
            i <= n == v.len(),
            lead(v@, quotes) == i + lead(v@.skip(i as int), quotes),
        decreases n - i,
    {
        assert(v@.skip(i as int).drop_first() == v@.skip(i + 1));
        i = i + 1;
    }
    let ghost t = v@.skip(i as int);
    assert(lead(t, quotes) == 0);
    let mut j: usize = n;
    assert(v@.subrange(i as int, n as int) == t);
    while j > i && strips_exec(v[j - 1], quotes)
        invariant
            i <= j <= n == v.len(),
            t == v@.skip(i as int),
            trail(t, quotes) == (n - j) + trail(v@.subrange(i as int, j as int), quotes),
        decreases j,
    {
        assert(v@.subrange(i as int, j as int).drop_last() == v@.subrange(i as int, j - 1));
        j = j - 1;
    }
    assert(trail(v@.subrange(i as int, j as int), quotes) == 0);
    assert(t.take(t.len() - trail(t, quotes)) == v@.subrange(i as int, j as int));
    (i, j)
}

/// `str::trim`.
pub fn trim(s: &str) -> (r: String)
    ensures
        r@ == trim_of(s@),
{
    let v = chars_of(s);
    let (lo, hi) = strip_range(&v, false);
    string_from_range(&v, lo, hi)
}

/// `str::trim_start`.
pub fn trim_start(s: &str) -> (r: String)
    ensures
        r@ == trim_start_of(s@),
{
    let v = chars_of(s);
    let (lo, _hi) = strip_range(&v, false);
    proof {
        lemma_lead_bound(v@, false);
        assert(v@.subrange(lo as int, v@.len() as int) == v@.skip(lo as int));
    }
    string_from_range(&v, lo, v.len())
}

/// `str::trim_matches(['\'', '"'])`.
pub fn trim_quotes(s: &str) -> (r: String)
    ensures
        r@ == trim_quotes_of(s@),
{
    let v = chars_of(s);
    let (lo, hi) = strip_range(&v, true);
    string_from_range(&v, lo, hi)
}

/// Whether `n` occurs in `h` at index `i`.
pub fn matches_at(h: &Vec<char>, n: &Vec<char>, i: usize) -> (b: bool)
    ensures
        b == occurs_at(h@, n@, i as int),
{
    if i > h.len() || n.len() > h.len() - i {
        return false;
    }
    let mut k: usize = 0;
    while k < n.len()
        invariant
            i + n.len() <= h.len(),
            k <= n.len(),
            forall|m: int| 0 <= m < k ==> h@[i + m] == n@[m],
        decreases n.len() - k,
    {
        if h[i + k] != n[k] {
            assert(h@.subrange(i as int, i + n.len())[k as int] != n@[k as int]);
            return false;
        }
        k = k + 1;
    }
    assert(h@.subrange(i as int, i + n.len()) == n@);
    true
}

/// The first index at or after `from` where `n` occurs in `h`.
pub fn find_from(h: &Vec<char>, n: &Vec<char>, from: usize) -> (r: Option<usize>)
    ensures
        r matches Some(i) ==> first_occurrence(h@, n@, from as int) == Some(i as int),
        r is None ==> first_occurrence(h@, n@, from as int) is None,
{
    if n.len() == 0 {
        if from <= h.len() {
            assert(h@.subrange(from as int, from as int) == n@);
            return Some(from);
        }
        return None;
    }
    let mut k = from;
    while k <= h.len() && n.len() <= h.len() - k
        invariant
            from <= k,
            n.len() > 0,
            first_occurrence(h@, n@, from as int) == first_occurrence(h@, n@, k as int),
        decreases h.len() + 1 - k,
    {
        if matches_at(h, n, k) {
            return Some(k);
        }
        k = k + 1;
    }
    None
}

/// Whether occurrences found by `first_occurrence` are occurrences.
pub proof fn lemma_first_occurrence(h: Seq<char>, n: Seq<char>, from: int)
    requires
        0 <= from,
    ensures
        first_occurrence(h, n, from) matches Some(i) ==> from <= i && occurs_at(h, n, i) && forall|
            k: int,
        | from <= k < i ==> !occurs_at(h, n, k),
        first_occurrence(h, n, from) is None ==> forall|k: int| from <= k ==> !occurs_at(h, n, k),
    decreases h.len() + 1 - from,
{
    if from < 0 || from + n.len() > h.len() {
    } else if occurs_at(h, n, from) {
    } else {
        lemma_first_occurrence(h, n, from + 1);
    }
}

/// Where `first_occurrence` lands in a suffix.
/// The first occurrence at or after `from` is at `e` when `n` occurs at `e`
/// and nowhere between `from` and `e`.
pub proof fn lemma_first_occurrence_is(h: Seq<char>, n: Seq<char>, from: int, e: int)
    requires
        0 <= from <= e,
        occurs_at(h, n, e),
        forall|k: int| from <= k < e ==> !occurs_at(h, n, k),
    ensures
        first_occurrence(h, n, from) == Some(e),
    decreases e - from,
{
    if from < e {
        assert(!occurs_at(h, n, from));
        lemma_first_occurrence_is(h, n, from + 1, e);
    }
}

pub proof fn lemma_first_occurrence_skip(s: Seq<char>, n: Seq<char>, i: int, f: int)
    requires
        0 <= i <= s.len(),
        0 <= f,
    ensures
        first_occurrence(s.skip(i), n, f) == match first_occurrence(s, n, i + f) {
            Some(e) => Some(e - i),
            None => None::<int>,
        },
    decreases s.len() + 1 - (i + f),
{
    let t = s.skip(i);
    if f + n.len() > t.len() {
    } else {
        assert(t.subrange(f, f + n.len()) == s.subrange(i + f, i + f + n.len()));
        if occurs_at(t, n, f) {
        } else {
            lemma_first_occurrence_skip(s, n, i, f + 1);
        }
    }
}

/// `str::split(c)`: the pieces between the occurrences of `c`.
pub open spec fn split_on(s: Seq<char>, c: char) -> Seq<Seq<char>>
    decreases s.len(),
{
    match index_of_char(s, c) {
        Some(i) => {
            proof {
                lemma_first_occurrence(s, seq![c], 0);
            }
            seq![s.take(i)] + split_on(s.skip(i + 1), c)
        },
        None => seq![s],
    }
}

/// `str::split(c)`.
pub fn split(s: &str, c: char) -> (r: Vec<String>)
    ensures
        r@.map_values(|x: String| x@) == split_on(s@, c),
{
    let v = chars_of(s);
    let mut pat: Vec<char> = Vec::new();
    pat.push(c);
    assert(pat@ == seq![c]);
    let mut r: Vec<String> = Vec::new();
    let mut start: usize = 0;
    assert(v@.skip(0) == v@);
    loop
        invariant
            start <= v.len(),
            v@ == s@,
            pat@ == seq![c],
            r@.map_values(|x: String| x@) + split_on(v@.skip(start as int), c) == split_on(s@, c),
        decreases v.len() - start,
    {
        let ghost rest = v@.skip(start as int);
        let ghost before = r@.map_values(|x: String| x@);
        let n = v.len();
        proof {
            lemma_first_occurrence_skip(v@, pat@, start as int, 0);
            lemma_first_occurrence(v@, pat@, start as int);
        }
        match find_from(&v, &pat, start) {
            Some(i) => {
                assert(i + 1 <= v@.len());
                let piece = string_from_range(&v, start, i);
                assert(rest.take(i - start) == v@.subrange(start as int, i as int));
                assert(rest.skip(i - start + 1) == v@.skip(i + 1));
                r.push(piece);
                assert(r@.map_values(|x: String| x@) == before.push(piece@));
                assert(before.push(piece@) + split_on(v@.skip(i + 1), c) == before + (seq![piece@]
                    + split_on(v@.skip(i + 1), c)));
                start = i + 1;
            },
            None => {
                let piece = string_from_range(&v, start, n);
                assert(rest == v@.subrange(start as int, n as int));
                r.push(piece);
                assert(r@.map_values(|x: String| x@) == before.push(piece@));
                assert(before.push(piece@) == before + seq![piece@]);
                return r;
            },
        }
    }
}

/// `str::contains`.
pub fn contains(h: &str, n: &str) -> (b: bool)
    ensures
        b == contains_seq(h@, n@),
{
    let hv = chars_of(h);
    let nv = chars_of(n);
    let r = find_from(&hv, &nv, 0);
    proof {
        lemma_first_occurrence(hv@, nv@, 0);
    }
    r.is_some()
}

/// Whether two strings are equal.
pub fn text_eq(a: &str, b: &str) -> (r: bool)
    ensures
        r == (a@ == b@),
{
    let av = chars_of(a);
    let bv = chars_of(b);
    if av.len() != bv.len() {
        return false;
    }
    let r = matches_at(&av, &bv, 0);
    assert(av@.subrange(0, bv@.len() as int) == av@);
    r
}

/// `str::split_once` on a character.
pub fn split_once(s: &str, c: char) -> (r: Option<(String, String)>)
    ensures
        r matches Some(p) ==> split_once_of(s@, c) == Some((p.0@, p.1@)),
        r is None ==> split_once_of(s@, c) is None,
{
    let v = chars_of(s);
    let mut pat: Vec<char> = Vec::new();
    pat.push(c);
    assert(pat@ == seq![c]);
    match find_from(&v, &pat, 0) {
        Some(i) => {
            proof {
                lemma_first_occurrence(v@, pat@, 0);
                assert(occurs_at(v@, pat@, i as int));
                assert(pat@.len() == 1);
                assert(i + 1 <= v@.len());
            }
            let n = v.len();
            let a = string_from_range(&v, 0, i);
            let b = string_from_range(&v, i + 1, n);
            assert(v@.take(i as int) == v@.subrange(0, i as int));
            assert(v@.skip(i + 1) == v@.subrange(i + 1, v@.len() as int));
            Some((a, b))
        },
        None => None,
    }
}

/// `str::starts_with` on a character.
pub fn starts_with_ch(s: &str, c: char) -> (b: bool)
    ensures
        b == starts_with_char(s@, c),
{
    let v = chars_of(s);
    v.len() > 0 && v[0] == c
}

/// `char::to_ascii_lowercase`.
pub fn to_ascii_lower(c: char) -> (r: char)
    ensures
        r == ascii_lower(c),
{
    if 'A' <= c && c <= 'Z' {
        let u = (c as u32) + 32;
        assert(u == (c as u32) + 32);
        char_from_ascii(u)
    } else {
        c
    }
}

fn char_from_ascii(u: u32) -> (c: char)
    requires
        u < 128,
    ensures
        c == u as char,
{
    (u as u8) as char
}

/// `str::eq_ignore_ascii_case`.
pub fn eq_ignore_ascii_case(a: &str, b: &str) -> (r: bool)
    ensures
        r == eq_ignore_ascii_case_of(a@, b@),
{
    let av = chars_of(a);
    let bv = chars_of(b);
    if av.len() != bv.len() {
        return false;
    }
    let mut i: usize = 0;
    while i < av.len()
        invariant
            av.len() == bv.len(),
            av@ == a@,
            bv@ == b@,
            i <= av.len(),
            forall|k: int| 0 <= k < i ==> ascii_lower(av@[k]) == ascii_lower(bv@[k]),
        decreases av.len() - i,
    {
        if to_ascii_lower(av[i]) != to_ascii_lower(bv[i]) {
            assert(ascii_lower(a@[i as int]) != ascii_lower(b@[i as int]));
            return false;
        }
        i = i + 1;
    }
    true
}

fn digit(d: u64) -> (c: char)
    requires
        d < 10,
    ensures
        c == digit_char(d as nat),
{
    char_from_ascii((48 + d) as u32)
}

/// The decimal notation of `n` (`u64::to_string`).
pub fn u64_to_decimal(n: u64) -> (r: String)
    ensures
        r@ == decimal(n as nat),
    decreases n,
{
    if n < 10 {
        let mut r = String::new();
        push_char(&mut r, digit(n));
        r
    } else {
        let mut r = u64_to_decimal(n / 10);
        push_char(&mut r, digit(n % 10));
        r
    }
}

/// The decimal notation of `n` (`i64::to_string`).
pub fn i64_to_decimal(n: i64) -> (r: String)
    ensures
        r@ == signed_decimal(n as int),
{
    if n < 0 {
        let m: u64 = (0i128 - (n as i128)) as u64;
        let digits = u64_to_decimal(m);
        let r = concat("-", digits.as_str());
        proof {
            reveal_strlit("-");
        }
        r
    } else {
        u64_to_decimal(n as u64)
    }
}

/// `str::replace` with a non-empty pattern.
pub fn replace(s: &str, from: &str, to: &str) -> (r: String)
    ensures
        r@ == replace_of(s@, from@, to@),
{
    let v = chars_of(s);
    let fv = chars_of(from);
    if fv.len() == 0 {
        return String::from_str(s);
    }
    let mut r = String::new();
    let mut i: usize = 0;
    assert(v@.skip(0) == v@);
    while i < v.len()
        invariant
            i <= v.len(),
            fv.len() > 0,
            fv@ == from@,
            v@ == s@,
            r@ + replace_of(v@.skip(i as int), fv@, to@) == replace_of(s@, from@, to@),
        decreases v.len() - i,
    {
        let ghost rest = v@.skip(i as int);
        if matches_at(&v, &fv, i) {
            assert(rest.take(fv@.len() as int) == v@.subrange(i as int, i + fv@.len()));
            assert(rest.skip(fv@.len() as int) == v@.skip(i + fv.len()));
            r.append(to);
            i = i + fv.len();
        } else {
            assert(!has_prefix(rest, fv@)) by {
                if has_prefix(rest, fv@) {
                    assert(rest.take(fv@.len() as int) == v@.subrange(i as int, i + fv@.len()));
                }
            }
            assert(rest.drop_first() == v@.skip(i + 1));
            push_char(&mut r, v[i]);
            assert(r@ + replace_of(v@.skip(i + 1), fv@, to@) == (r@.drop_last() + seq![v@[i as int]])
                + replace_of(rest.drop_first(), fv@, to@));
            i = i + 1;
        }
    }
    assert(v@.skip(i as int).len() == 0);
    r
}

/// `str::replace` with a `char` pattern.
pub fn replace_char(s: &str, c: char, to: &str) -> (r: String)
    ensures
        r@ == replace_char_of(s@, c, to@),
{
    let v = chars_of(s);
    let mut r = String::new();
    let mut i: usize = 0;
    assert(v@.skip(0) == v@);
    while i < v.len()
        invariant
            i <= v.len(),
            v@ == s@,
            r@ + replace_char_of(v@.skip(i as int), c, to@) == replace_char_of(s@, c, to@),
        decreases v.len() - i,
    {
        let ghost rest = v@.skip(i as int);
        assert(rest.drop_first() == v@.skip(i + 1));
        if v[i] == c {
            r.append(to);
        } else {
            push_char(&mut r, v[i]);
        }
        i = i + 1;
    }
    assert(v@.skip(i as int).len() == 0);
    r
}

} // verus!
