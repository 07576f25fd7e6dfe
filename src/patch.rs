//! Surgical edits of JSON and TOML text: one value token is replaced, every
//! other character is kept.
//!
//! An occurrence of a key is the key text followed by optional whitespace,
//! the separator (`:` in JSON, where the key stands in double quotes; `=` in
//! TOML, where only whitespace may precede the key on its line), optional
//! whitespace and a value token: a double-quoted string, `true`, `false`, or
//! a run of digits and dots.

use crate::error::Error;
use crate::text::{
    lemma_split_len, split_by, strip_cr,
    chars_of, first_of, find_char, find_from, is_ws, lines, lines_of, occurs_at, opt_int, same, skip_ws,
    slice, string_of, views,
};
use vstd::prelude::*;

verus! {

/// A value to write into a configuration file.
#[derive(Debug, Clone, PartialEq)]
pub enum ConfigValue {
    Null,
    Bool(bool),
    /// A number, as its literal text; only a `number_literal` is written.
    Number(String),
    Text(String),
    Array,
    Object,
}

/// The two file syntaxes the patcher knows.
#[derive(Debug, Clone, Copy, PartialEq, Eq, Structural)]
pub enum Syntax {
    Json,
    Toml,
}

pub open spec fn true_word() -> Seq<char> {
    seq!['t', 'r', 'u', 'e']
}

pub open spec fn false_word() -> Seq<char> {
    seq!['f', 'a', 'l', 's', 'e']
}

pub open spec fn quote() -> Seq<char> {
    seq!['"']
}

/// End of the run of decimal digits from `i`.
pub open spec fn digits_end(s: Seq<char>, i: int) -> int
    decreases s.len() - i,
{
    if 0 <= i < s.len() && '0' <= s[i] && s[i] <= '9' {
        digits_end(s, i + 1)
    } else {
        i
    }
}

/// End of an optional fraction `.digits` from `b`; `-1` for a dot without
/// digits.
pub open spec fn fraction_end(s: Seq<char>, b: int) -> int {
    if 0 <= b < s.len() && s[b] == '.' {
        let d = digits_end(s, b + 1);
        if d > b + 1 {
            d
        } else {
            -1
        }
    } else {
        b
    }
}

/// End of an optional exponent `e[+-]digits` from `c`; `-1` for an exponent
/// without digits.
pub open spec fn exponent_end(s: Seq<char>, c: int) -> int {
    if 0 <= c < s.len() && (s[c] == 'e' || s[c] == 'E') {
        let c1 = if c + 1 < s.len() && (s[c + 1] == '+' || s[c + 1] == '-') {
            c + 2
        } else {
            c + 1
        };
        let d = digits_end(s, c1);
        if d > c1 {
            d
        } else {
            -1
        }
    } else {
        c
    }
}

/// A number literal: an optional `-`, digits, an optional fraction and an
/// optional exponent, and nothing else.
pub open spec fn number_literal(s: Seq<char>) -> bool {
    let a: int = if s.len() > 0 && s[0] == '-' {
        1
    } else {
        0
    };
    let b = digits_end(s, a);
    b > a && exponent_end(s, fraction_end(s, b)) == s.len()
}

fn digits_end_exec(s: &Vec<char>, i: usize) -> (r: usize)
    requires
        i <= s.len(),
    ensures
        r == digits_end(s@, i as int),
        i <= r <= s.len(),
{
    let mut j = i;
    while j < s.len() && '0' <= s[j] && s[j] <= '9'
        invariant
            i <= j <= s.len(),
            digits_end(s@, i as int) == digits_end(s@, j as int),
        decreases s.len() - j,
    {
        j += 1;
    }
    j
}

pub fn is_number_literal(s: &Vec<char>) -> (r: bool)
    ensures
        r == number_literal(s@),
{
    let n = s.len();
    let a: usize = if n > 0 && s[0] == '-' {
        1
    } else {
        0
    };
    let b = digits_end_exec(s, a);
    if b <= a {
        return false;
    }
    let c: usize = if b < n && s[b] == '.' {
        let d = digits_end_exec(s, b + 1);
        if d > b + 1 {
            d
        } else {
            return false;
        }
    } else {
        b
    };
    assert(fraction_end(s@, b as int) == c as int);
    let e: usize = if c < n && (s[c] == 'e' || s[c] == 'E') {
        let c1 = if c + 1 < n && (s[c + 1] == '+' || s[c + 1] == '-') {
            c + 2
        } else {
            c + 1
        };
        let d = digits_end_exec(s, c1);
        if d > c1 {
            d
        } else {
            return false;
        }
    } else {
        c
    };
    e == n
}

/// The text that replaces a value token, for the values that can be written.
pub open spec fn rendered(v: ConfigValue) -> Option<Seq<char>> {
    match v {
        ConfigValue::Text(s) => Some(quote() + s@ + quote()),
        ConfigValue::Bool(b) => Some(
            if b {
                true_word()
            } else {
                false_word()
            },
        ),
        ConfigValue::Number(n) => if number_literal(n@) {
            Some(n@)
        } else {
            None
        },
        _ => None,
    }
}

pub open spec fn is_num_char(c: char) -> bool {
    ('0' <= c && c <= '9') || c == '.'
}

/// End of the run of digits and dots from `i`.
pub open spec fn num_end(s: Seq<char>, i: int) -> int
    decreases s.len() - i,
{
    if 0 <= i < s.len() && is_num_char(s[i]) {
        num_end(s, i + 1)
    } else {
        i
    }
}

/// End of the value token that starts at `i`, if one does.
pub open spec fn token_end(s: Seq<char>, i: int) -> Option<int> {
    if 0 <= i < s.len() {
        if s[i] == '"' {
            match find_from(s, '"', i + 1) {
                Some(j) => Some(j + 1),
                None => None,
            }
        } else if occurs_at(s, true_word(), i) {
            Some(i + 4)
        } else if occurs_at(s, false_word(), i) {
            Some(i + 5)
        } else if is_num_char(s[i]) {
            Some(num_end(s, i + 1))
        } else {
            None
        }
    } else {
        None
    }
}

/// From `i`: whitespace, `sep`, whitespace, then a value token; the token's
/// span.
pub open spec fn sep_value(s: Seq<char>, i: int, sep: char) -> Option<(int, int)> {
    let a = skip_ws(s, i);
    if 0 <= a < s.len() && s[a] == sep {
        let b = skip_ws(s, a + 1);
        match token_end(s, b) {
            Some(e) => Some((b, e)),
            None => None,
        }
    } else {
        None
    }
}

/// Only whitespace stands between the start of the line and `k`.
pub open spec fn line_lead(s: Seq<char>, k: int) -> bool
    decreases k,
{
    if k <= 0 || k > s.len() {
        true
    } else if s[k - 1] == '\n' {
        true
    } else {
        is_ws(s[k - 1]) && line_lead(s, k - 1)
    }
}

/// The value span of the occurrence of `key` at `k`, if there is one.
pub open spec fn match_at(s: Seq<char>, key: Seq<char>, syntax: Syntax, k: int) -> Option<(int, int)> {
    match syntax {
        Syntax::Json => if occurs_at(s, quote() + key + quote(), k) {
            sep_value(s, k + key.len() + 2, ':')
        } else {
            None
        },
        Syntax::Toml => if occurs_at(s, key, k) && line_lead(s, k) {
            sep_value(s, k + key.len(), '=')
        } else {
            None
        },
    }
}

/// The positions below `i` where an occurrence of `key` starts, in order.
///
/// Every position counts, overlapping occurrences included: a quoted value
/// that spans lines and holds a line `key = 1` makes a second occurrence, so
/// such a text is reported as ambiguous rather than patched.
pub open spec fn occurrences_below(s: Seq<char>, key: Seq<char>, syntax: Syntax, i: int) -> Seq<int>
    decreases i,
{
    if i <= 0 {
        seq![]
    } else {
        let before = occurrences_below(s, key, syntax, i - 1);
        if match_at(s, key, syntax, i - 1) is Some {
            before.push(i - 1)
        } else {
            before
        }
    }
}

pub open spec fn occurrences(s: Seq<char>, key: Seq<char>, syntax: Syntax) -> Seq<int> {
    occurrences_below(s, key, syntax, s.len() as int)
}

/// `s` with the span `b..e` replaced by `t`.
pub open spec fn splice(s: Seq<char>, b: int, e: int, t: Seq<char>) -> Seq<char> {
    s.subrange(0, b) + t + s.subrange(e, s.len() as int)
}

pub proof fn lemma_skip_ws_ge(s: Seq<char>, i: int)
    requires
        0 <= i,
    ensures
        i <= skip_ws(s, i),
        i <= s.len() ==> skip_ws(s, i) <= s.len(),
    decreases s.len() - i,
{
    if i < s.len() && is_ws(s[i]) {
        lemma_skip_ws_ge(s, i + 1);
    }
}

proof fn lemma_num_end(s: Seq<char>, i: int)
    requires
        0 <= i <= s.len(),
    ensures
        i <= num_end(s, i) <= s.len(),
    decreases s.len() - i,
{
    if i < s.len() && is_num_char(s[i]) {
        lemma_num_end(s, i + 1);
    }
}

pub proof fn lemma_token_end(s: Seq<char>, i: int)
    ensures
        token_end(s, i) is Some ==> i < token_end(s, i)->0 <= s.len(),
{
    if 0 <= i < s.len() {
        crate::text::lemma_find_from_range(s, '"', i + 1);
        lemma_num_end(s, i + 1);
    }
}

pub proof fn lemma_sep_value(s: Seq<char>, i: int, sep: char)
    requires
        0 <= i,
    ensures
        match sep_value(s, i, sep) {
            Some((b, e)) => i <= b < e <= s.len(),
            None => true,
        },
{
    lemma_skip_ws_ge(s, i);
    let a = skip_ws(s, i);
    if 0 <= a < s.len() && s[a] == sep {
        lemma_skip_ws_ge(s, a + 1);
        lemma_token_end(s, skip_ws(s, a + 1));
    }
}

fn skip_ws_exec(s: &Vec<char>, i: usize) -> (r: usize)
    requires
        i <= s.len(),
    ensures
        r == skip_ws(s@, i as int),
        i <= r <= s.len(),
{
    let mut j = i;
    while j < s.len() && crate::text::is_whitespace(s[j])
        invariant
            i <= j <= s.len(),
            skip_ws(s@, i as int) == skip_ws(s@, j as int),
        decreases s.len() - j,
    {
        j += 1;
    }
    j
}

fn token_end_exec(s: &Vec<char>, i: usize) -> (r: Option<usize>)
    ensures
        opt_int(r) == token_end(s@, i as int),
{
    let n = s.len();
    if i >= n {
        return None;
    }
    let c = s[i];
    if c == '"' {
        let mut j = i + 1;
        while j < n
            invariant
                i < j <= n == s@.len(),
                s@[i as int] == '"',
                find_from(s@, '"', i + 1) == find_from(s@, '"', j as int),
            decreases n - j,
        {
            if s[j] == '"' {
                return Some(j + 1);
            }
            j += 1;
        }
        return None;
    }
    if n - i >= 4 && s[i] == 't' && s[i + 1] == 'r' && s[i + 2] == 'u' && s[i + 3] == 'e' {
        assert(s@.subrange(i as int, i + 4) =~= true_word());
        return Some(i + 4);
    }
    assert(!occurs_at(s@, true_word(), i as int)) by {
        if occurs_at(s@, true_word(), i as int) {
            assert(s@.subrange(i as int, i + 4)[1] == 'r');
            assert(s@.subrange(i as int, i + 4)[2] == 'u');
            assert(s@.subrange(i as int, i + 4)[3] == 'e');
        }
    }
    if n - i >= 5 && s[i] == 'f' && s[i + 1] == 'a' && s[i + 2] == 'l' && s[i + 3] == 's' && s[i
        + 4] == 'e' {
        assert(s@.subrange(i as int, i + 5) =~= false_word());
        return Some(i + 5);
    }
    assert(!occurs_at(s@, false_word(), i as int)) by {
        if occurs_at(s@, false_word(), i as int) {
            assert(s@.subrange(i as int, i + 5)[1] == 'a');
            assert(s@.subrange(i as int, i + 5)[2] == 'l');
            assert(s@.subrange(i as int, i + 5)[3] == 's');
            assert(s@.subrange(i as int, i + 5)[4] == 'e');
        }
    }
    if ('0' <= c && c <= '9') || c == '.' {
        let mut j = i + 1;
        while j < n && (('0' <= s[j] && s[j] <= '9') || s[j] == '.')
            invariant
                i < j <= n == s@.len(),
                num_end(s@, i + 1) == num_end(s@, j as int),
            decreases n - j,
        {
            j += 1;
        }
        return Some(j);
    }
    None
}

fn sep_value_exec(s: &Vec<char>, i: usize, sep: char) -> (r: Option<(usize, usize)>)
    requires
        i <= s.len(),
    ensures
        match r {
            Some((b, e)) => sep_value(s@, i as int, sep) == Some((b as int, e as int)),
            None => sep_value(s@, i as int, sep) is None,
        },
{
    let a = skip_ws_exec(s, i);
    if a < s.len() && s[a] == sep {
        let b = skip_ws_exec(s, a + 1);
        match token_end_exec(s, b) {
            Some(e) => Some((b, e)),
            None => None,
        }
    } else {
        None
    }
}

fn line_lead_exec(s: &Vec<char>, k: usize) -> (r: bool)
    requires
        k <= s.len(),
    ensures
        r == line_lead(s@, k as int),
{
    let mut j = k;
    while j > 0
        invariant
            j <= k <= s.len(),
            line_lead(s@, k as int) == line_lead(s@, j as int),
        decreases j,
    {
        if s[j - 1] == '\n' {
            return true;
        }
        if !crate::text::is_whitespace(s[j - 1]) {
            return false;
        }
        j -= 1;
    }
    true
}

fn match_at_exec(s: &Vec<char>, key: &Vec<char>, qkey: &Vec<char>, syntax: Syntax, k: usize) -> (r:
    Option<(usize, usize)>)
    requires
        k < s.len(),
        qkey@ == quote() + key@ + quote(),
    ensures
        match r {
            Some((b, e)) => match_at(s@, key@, syntax, k as int) == Some((b as int, e as int)),
            None => match_at(s@, key@, syntax, k as int) is None,
        },
{
    match syntax {
        Syntax::Json => {
            if crate::text::matches_at(s, qkey, k) {
                sep_value_exec(s, k + qkey.len(), ':')
            } else {
                None
            }
        },
        Syntax::Toml => {
            if crate::text::matches_at(s, key, k) && line_lead_exec(s, k) {
                sep_value_exec(s, k + key.len(), '=')
            } else {
                None
            }
        },
    }
}

pub fn quoted(key: &Vec<char>) -> (r: Vec<char>)
    ensures
        r@ == quote() + key@ + quote(),
{
    let mut r: Vec<char> = Vec::new();
    r.push('"');
    let mut i: usize = 0;
    while i < key.len()
        invariant
            i <= key.len(),
            r@ == quote() + key@.subrange(0, i as int),
        decreases key.len() - i,
    {
        r.push(key[i]);
        i += 1;
        assert(r@ =~= quote() + key@.subrange(0, i as int));
    }
    r.push('"');
    assert(key@.subrange(0, key@.len() as int) =~= key@);
    assert(r@ =~= quote() + key@ + quote());
    r
}

/// The positions where `key` occurs, with the first value span seen.
fn scan_occurrences(s: &Vec<char>, key: &Vec<char>, syntax: Syntax) -> (r: (Vec<usize>, usize, usize))
    ensures
        r.0@.map_values(|k: usize| k as int) == occurrences(s@, key@, syntax),
        r.0@.len() > 0 ==> match_at(s@, key@, syntax, r.0@[0] as int) == Some(
            (r.1 as int, r.2 as int),
        ),
{
    let qkey = quoted(key);
    let mut found: Vec<usize> = Vec::new();
    let mut b0: usize = 0;
    let mut e0: usize = 0;
    let mut i: usize = 0;
    while i < s.len()
        invariant
            i <= s.len(),
            qkey@ == quote() + key@ + quote(),
            found@.map_values(|k: usize| k as int) == occurrences_below(s@, key@, syntax, i as int),
            found@.len() > 0 ==> match_at(s@, key@, syntax, found@[0] as int) == Some(
                (b0 as int, e0 as int),
            ),
        decreases s.len() - i,
    {
        let ghost before = found@;
        match match_at_exec(s, key, &qkey, syntax, i) {
            Some((b, e)) => {
                if found.len() == 0 {
                    b0 = b;
                    e0 = e;
                }
                found.push(i);
                assert(found@.map_values(|k: usize| k as int) =~= before.map_values(
                    |k: usize| k as int,
                ).push(i as int));
            },
            None => {},
        }
        i += 1;
    }
    (found, b0, e0)
}

fn render(value: &ConfigValue) -> (r: Option<Vec<char>>)
    ensures
        match r {
            Some(t) => rendered(*value) == Some(t@),
            None => rendered(*value) is None,
        },
{
    match value {
        ConfigValue::Text(s) => {
            let q = quoted(&crate::text::chars_of(s.as_str()));
            Some(q)
        },
        ConfigValue::Bool(b) => {
            if *b {
                let t = crate::text::chars_of("true");
                proof {
                    reveal_strlit("true");
                }
                assert(t@ =~= true_word());
                Some(t)
            } else {
                let t = crate::text::chars_of("false");
                proof {
                    reveal_strlit("false");
                }
                assert(t@ =~= false_word());
                Some(t)
            }
        },
        ConfigValue::Number(n) => {
            let t = crate::text::chars_of(n.as_str());
            if is_number_literal(&t) {
                Some(t)
            } else {
                None
            }
        },
        _ => None,
    }
}

pub fn splice_exec(s: &Vec<char>, b: usize, e: usize, t: &Vec<char>) -> (r: Vec<char>)
    requires
        b <= e <= s.len(),
    ensures
        r@ == splice(s@, b as int, e as int, t@),
{
    let mut r = crate::text::slice(s, 0, b);
    let mut i: usize = 0;
    let ghost pre = r@;
    while i < t.len()
        invariant
            i <= t.len(),
            r@ == pre + t@.subrange(0, i as int),
        decreases t.len() - i,
    {
        r.push(t[i]);
        i += 1;
        assert(r@ =~= pre + t@.subrange(0, i as int));
    }
    assert(t@.subrange(0, t@.len() as int) =~= t@);
    let ghost mid = r@;
    let mut j = e;
    while j < s.len()
        invariant
            e <= j <= s.len(),
            r@ == mid + s@.subrange(e as int, j as int),
        decreases s.len() - j,
    {
        r.push(s[j]);
        j += 1;
        assert(r@ =~= mid + s@.subrange(e as int, j as int));
    }
    r
}

/// The text that patching `key` in `s` gives, when it succeeds: the single
/// occurrence's value token replaced by the written value.
pub open spec fn patch_spec(s: Seq<char>, key: Seq<char>, syntax: Syntax, value: ConfigValue) -> Option<
    Seq<char>,
> {
    let occ = occurrences(s, key, syntax);
    if occ.len() == 1 && rendered(value) is Some {
        let (b, e) = match_at(s, key, syntax, occ[0])->0;
        Some(splice(s, b, e, rendered(value)->0))
    } else {
        None
    }
}

/// The outcome of a patch of `key`, stated over the occurrences of the key:
/// ambiguity first, then absence, then an unsupported value.
pub open spec fn patch_outcome(
    s: Seq<char>,
    key: Seq<char>,
    syntax: Syntax,
    value: ConfigValue,
    r: Result<String, Error>,
) -> bool {
    let occ = occurrences(s, key, syntax);
    if occ.len() > 1 {
        match r {
            Err(Error::AmbiguousKey { key: k, count }) => k@ == key && count == occ.len(),
            _ => false,
        }
    } else if occ.len() == 0 {
        match r {
            Err(Error::KeyNotFound { key: k }) => k@ == key,
            _ => false,
        }
    } else if rendered(value) is None {
        r == Err::<String, Error>(Error::UnsupportedValue)
    } else {
        r is Ok && r->Ok_0@ == patch_spec(s, key, syntax, value)->0
    }
}

/// Replaces the value of the single occurrence of `key` in `content`.
pub fn update_text_mode(content: &str, key: &str, value: &ConfigValue, syntax: Syntax) -> (r: Result<
    String,
    Error,
>)
    ensures
        patch_outcome(content@, key@, syntax, *value, r),
{
    let s = crate::text::chars_of(content);
    let k = crate::text::chars_of(key);
    let (found, b, e) = scan_occurrences(&s, &k, syntax);
    let ghost occ = occurrences(s@, k@, syntax);
    assert(found@.len() == occ.len());
    if found.len() > 1 {
        return Err(Error::AmbiguousKey { key: string_of(&k), count: found.len() });
    }
    if found.len() == 0 {
        return Err(Error::KeyNotFound { key: string_of(&k) });
    }
    let Some(t) = render(value) else { return Err(Error::UnsupportedValue) };
    assert(occ[0] == found@[0] as int);
    proof {
        if syntax == Syntax::Json {
            lemma_sep_value(s@, occ[0] + k@.len() + 2, ':');
        } else {
            lemma_sep_value(s@, occ[0] + k@.len(), '=');
        }
    }
    let out = splice_exec(&s, b, e, &t);
    Ok(string_of(&out))
}


/// Replaces the value of the single TOML line `key = value` whose key is the
/// last segment of `prop_path`.
pub fn update_toml_value_text_mode(content: &str, prop_path: &[&str], value: &ConfigValue) -> (r:
    Result<String, Error>)
    ensures
        prop_path@.len() == 0 ==> r == Err::<String, Error>(Error::EmptyPath),
        prop_path@.len() > 0 ==> patch_outcome(
            content@,
            prop_path@.last()@,
            Syntax::Toml,
            *value,
            r,
        ),
{
    let n = prop_path.len();
    if n == 0 {
        return Err(Error::EmptyPath);
    }
    update_text_mode(content, prop_path[n - 1], value, Syntax::Toml)
}

/// Replaces the value of the single JSON member `"key": value` whose key is
/// the last segment of `prop_path`.
pub fn update_json_value_text_mode(content: &str, prop_path: &[&str], value: &ConfigValue) -> (r:
    Result<String, Error>)
    ensures
        prop_path@.len() == 0 ==> r == Err::<String, Error>(Error::EmptyPath),
        prop_path@.len() > 0 ==> patch_outcome(
            content@,
            prop_path@.last()@,
            Syntax::Json,
            *value,
            r,
        ),
{
    let n = prop_path.len();
    if n == 0 {
        return Err(Error::EmptyPath);
    }
    update_text_mode(content, prop_path[n - 1], value, Syntax::Json)
}

/// A `"name": true` or `"name": false` pair starting at `i`: the index of the
/// quote that closes the name, the end of the pair and the boolean.
pub open spec fn bool_pair_at(s: Seq<char>, i: int) -> Option<(int, int, bool)> {
    if 0 <= i < s.len() && s[i] == '"' {
        match find_from(s, '"', i + 1) {
            Some(q) => if q > i + 1 {
                let a = skip_ws(s, q + 1);
                if 0 <= a < s.len() && s[a] == ':' {
                    let b = skip_ws(s, a + 1);
                    if occurs_at(s, true_word(), b) {
                        Some((q, b + 4, true))
                    } else if occurs_at(s, false_word(), b) {
                        Some((q, b + 5, false))
                    } else {
                        None
                    }
                } else {
                    None
                }
            } else {
                None
            },
            None => None,
        }
    } else {
        None
    }
}

/// The pair written back for `key` once its boolean `b` is flipped.
pub open spec fn flipped_pair(key: Seq<char>, b: bool) -> Seq<char> {
    quote() + key + quote() + seq![':', ' '] + (if b {
        false_word()
    } else {
        true_word()
    })
}

/// The text from `i` on with every pair of `key` flipped, and whether one was.
pub open spec fn toggle_scan(s: Seq<char>, key: Seq<char>, i: int) -> (Seq<char>, bool)
    decreases s.len() - i,
{
    if i < 0 || i >= s.len() {
        (seq![], false)
    } else {
        match bool_pair_at(s, i) {
            Some((q, e, b)) => if i < e {
                let rest = toggle_scan(s, key, e);
                if s.subrange(i + 1, q) == key {
                    (flipped_pair(key, b) + rest.0, true)
                } else {
                    (s.subrange(i, e) + rest.0, rest.1)
                }
            } else {
                // a pair always ends after its start; this arm is never taken
                (seq![], false)
            },
            None => {
                let rest = toggle_scan(s, key, i + 1);
                (seq![s[i]] + rest.0, rest.1)
            },
        }
    }
}

/// First line at or after `i` that holds a `{`.
pub open spec fn brace_line_from(ls: Seq<Seq<char>>, i: int) -> Option<int>
    decreases ls.len() - i,
{
    if i < 0 || i >= ls.len() {
        None
    } else if first_of(ls[i], '{') is Some {
        Some(i)
    } else {
        brace_line_from(ls, i + 1)
    }
}

/// The lines joined with `'\n'` between them.
pub open spec fn join_lines(ls: Seq<Seq<char>>) -> Seq<char>
    decreases ls.len(),
{
    if ls.len() == 0 {
        seq![]
    } else if ls.len() == 1 {
        ls[0]
    } else {
        join_lines(ls.drop_last()) + seq!['\n'] + ls.last()
    }
}

pub open spec fn new_key_line(key: Seq<char>) -> Seq<char> {
    seq![' ', ' '] + quote() + key + quote() + seq![':', ' '] + true_word() + seq![',']
}

pub open spec fn bare_object(key: Seq<char>) -> Seq<char> {
    seq!['{', '\n', ' ', ' '] + quote() + key + quote() + seq![':', ' '] + true_word() + seq![
        '\n',
        '}',
    ]
}

/// `s` with the boolean of `key` flipped wherever it stands; where it stands
/// nowhere, a line `"key": true,` is inserted after the first line that holds
/// a `{` (lines rejoined with `'\n'`), or, without any `{`, an object with
/// only that member replaces the text.
pub open spec fn toggled(s: Seq<char>, key: Seq<char>) -> Seq<char> {
    let (out, found) = toggle_scan(s, key, 0);
    if found {
        out
    } else {
        let ls = lines_of(s);
        match brace_line_from(ls, 0) {
            Some(i) => join_lines(ls.insert(i + 1, new_key_line(key))),
            None => bare_object(key),
        }
    }
}

fn bool_pair_exec(s: &Vec<char>, i: usize) -> (r: Option<(usize, usize, bool)>)
    requires
        i < s.len(),
    ensures
        match r {
            Some((q, e, b)) => bool_pair_at(s@, i as int) == Some((q as int, e as int, b)) && i + 1
                < q < e <= s.len(),
            None => bool_pair_at(s@, i as int) is None,
        },
{
    let n = s.len();
    if s[i] != '"' {
        return None;
    }
    proof {
        lemma_token_end(s@, i as int);
        crate::text::lemma_find_from_range(s@, '"', i + 1);
    }
    let Some(q) = token_end_exec(s, i) else { return None };
    let q = q - 1;
    if q <= i + 1 {
        return None;
    }
    let a = skip_ws_exec(s, q + 1);
    if a >= n || s[a] != ':' {
        return None;
    }
    let b = skip_ws_exec(s, a + 1);
    let t = chars_of("true");
    let f = chars_of("false");
    proof {
        reveal_strlit("true");
        reveal_strlit("false");
        assert(t@ =~= true_word());
        assert(f@ =~= false_word());
    }
    if crate::text::matches_at(s, &t, b) {
        Some((q, b + 4, true))
    } else if crate::text::matches_at(s, &f, b) {
        Some((q, b + 5, false))
    } else {
        None
    }
}

fn toggle_scan_exec(s: &Vec<char>, key: &Vec<char>) -> (r: (Vec<char>, bool))
    ensures
        (r.0@, r.1) == toggle_scan(s@, key@, 0),
{
    let ghost total = toggle_scan(s@, key@, 0);
    let mut out: Vec<char> = Vec::new();
    let mut found = false;
    let mut i: usize = 0;
    let qkey = quoted(key);
    while i < s.len()
        invariant
            i <= s.len(),
            qkey@ == quote() + key@ + quote(),
            total == toggle_scan(s@, key@, 0),
            total.0 == out@ + toggle_scan(s@, key@, i as int).0,
            total.1 == (found || toggle_scan(s@, key@, i as int).1),
        decreases s.len() - i,
    {
        let ghost rest_i = toggle_scan(s@, key@, i as int);
        match bool_pair_exec(s, i) {
            Some((q, e, b)) => {
                let ghost rest_e = toggle_scan(s@, key@, e as int);
                if same(&slice(s, i + 1, q), key) {
                    let ghost pre = out@;
                    crate::text::append(&mut out, &qkey);
                    out.push(':');
                    out.push(' ');
                    let word = if b {
                        chars_of("false")
                    } else {
                        chars_of("true")
                    };
                    proof {
                        reveal_strlit("true");
                        reveal_strlit("false");
                    }
                    crate::text::append(&mut out, &word);
                    assert(out@ =~= pre + flipped_pair(key@, b));
                    found = true;
                } else {
                    crate::text::append(&mut out, &slice(s, i, e));
                }
                i = e;
            },
            None => {
                out.push(s[i]);
                i += 1;
            },
        }
    }
    (out, found)
}

fn join_exec(ls: &Vec<Vec<char>>) -> (r: Vec<char>)
    ensures
        r@ == join_lines(views(ls@)),
{
    let mut r: Vec<char> = Vec::new();
    if ls.len() == 0 {
        return r;
    }
    crate::text::append(&mut r, &ls[0]);
    let mut k: usize = 1;
    assert(views(ls@).subrange(0, 1).len() == 1);
    while k < ls.len()
        invariant
            1 <= k <= ls.len(),
            r@ == join_lines(views(ls@).subrange(0, k as int)),
        decreases ls.len() - k,
    {
        let ghost pre = r@;
        r.push('\n');
        crate::text::append(&mut r, &ls[k]);
        assert(views(ls@).subrange(0, k + 1).drop_last() =~= views(ls@).subrange(0, k as int));
        k += 1;
    }
    assert(views(ls@).subrange(0, ls@.len() as int) =~= views(ls@));
    r
}

fn key_line(key: &Vec<char>) -> (r: Vec<char>)
    ensures
        r@ == new_key_line(key@),
{
    let mut r: Vec<char> = Vec::new();
    r.push(' ');
    r.push(' ');
    crate::text::append(&mut r, &quoted(key));
    r.push(':');
    r.push(' ');
    let t = chars_of("true");
    proof {
        reveal_strlit("true");
    }
    crate::text::append(&mut r, &t);
    r.push(',');
    assert(r@ =~= new_key_line(key@));
    r
}

fn object_with(key: &Vec<char>) -> (r: Vec<char>)
    ensures
        r@ == bare_object(key@),
{
    let mut r: Vec<char> = Vec::new();
    r.push('{');
    r.push('\n');
    r.push(' ');
    r.push(' ');
    crate::text::append(&mut r, &quoted(key));
    r.push(':');
    r.push(' ');
    let t = chars_of("true");
    proof {
        reveal_strlit("true");
    }
    crate::text::append(&mut r, &t);
    r.push('\n');
    r.push('}');
    assert(r@ =~= bare_object(key@));
    r
}

/// Flips the boolean of the key that ends `prop_path`; where the key is
/// absent, inserts it with the value `true`.
pub fn toggle_bool_text_mode(content: &str, prop_path: &[&str]) -> (r: Result<String, Error>)
    ensures
        prop_path@.len() == 0 ==> r == Err::<String, Error>(Error::EmptyPath),
        prop_path@.len() > 0 ==> r is Ok && r->Ok_0@ == toggled(content@, prop_path@.last()@),
{
    let n = prop_path.len();
    if n == 0 {
        return Err(Error::EmptyPath);
    }
    let s = chars_of(content);
    let key = chars_of(prop_path[n - 1]);
    let (out, found) = toggle_scan_exec(&s, &key);
    if found {
        return Ok(string_of(&out));
    }
    let mut ls = lines(&s);
    let ghost lv = views(ls@);
    let mut i: usize = 0;
    while i < ls.len()
        invariant
            i <= ls.len(),
            views(ls@) == lv,
            lv == lines_of(s@),
            s@ == content@,
            n == prop_path@.len() > 0,
            key@ == prop_path@[n - 1]@,
            !toggle_scan(s@, key@, 0).1,
            brace_line_from(lv, 0) == brace_line_from(lv, i as int),
        decreases ls.len() - i,
    {
        if find_char(&ls[i], '{').is_some() {
            let line = key_line(&key);
            ls.insert(i + 1, line);
            assert(views(ls@) =~= lv.insert(i + 1, new_key_line(key@)));
            return Ok(string_of(&join_exec(&ls)));
        }
        i += 1;
    }
    Ok(string_of(&object_with(&key)))
}


/// A key that occurs twice or more is never patched: whichever occurrence
/// looks intended, the patch fails as ambiguous and counts them.
pub proof fn lemma_ambiguous_key_fails(
    s: Seq<char>,
    key: Seq<char>,
    syntax: Syntax,
    value: ConfigValue,
    r: Result<String, Error>,
)
    requires
        occurrences(s, key, syntax).len() >= 2,
        patch_outcome(s, key, syntax, value, r),
    ensures
        match r {
            Err(Error::AmbiguousKey { key: k, count }) => k@ == key && count >= 2,
            _ => false,
        },
{
}

/// Toggling a key that has no boolean pair in a document with a `{` inserts
/// the line `"key": true,` right after the first line holding a `{`, and
/// keeps every other line as it was.
pub proof fn lemma_absent_key_inserted(s: Seq<char>, key: Seq<char>, i: int)
    requires
        !toggle_scan(s, key, 0).1,
        brace_line_from(lines_of(s), 0) == Some(i),
    ensures
        toggled(s, key) == join_lines(lines_of(s).insert(i + 1, new_key_line(key))),
        0 <= i < lines_of(s).len(),
        first_of(lines_of(s)[i], '{') is Some,
        forall|j: int| 0 <= j < i ==> first_of(#[trigger] lines_of(s)[j], '{') is None,
{
    lemma_brace_line(lines_of(s), 0);
}

proof fn lemma_split_append(a: Seq<char>, y: Seq<char>, sep: char)
    requires
        forall|i: int| 0 <= i < y.len() ==> y[i] != sep,
    ensures
        split_by(a + y, sep) == split_by(a, sep).update(
            split_by(a, sep).len() - 1,
            split_by(a, sep).last() + y,
        ),
    decreases y.len(),
{
    lemma_split_len(a, sep);
    if y.len() == 0 {
        assert(a + y =~= a);
        assert(split_by(a, sep).last() + y =~= split_by(a, sep).last());
        assert(split_by(a, sep).update(split_by(a, sep).len() - 1, split_by(a, sep).last())
            =~= split_by(a, sep));
    } else {
        let y0 = y.drop_last();
        lemma_split_append(a, y0, sep);
        assert((a + y).drop_last() =~= a + y0);
        assert((a + y).last() == y.last());
        let p = split_by(a, sep);
        let q = split_by(a + y0, sep);
        assert(y[y.len() - 1] != sep);
        assert(q.len() == p.len());
        assert(q.last() == p.last() + y0);
        assert((p.last() + y0).push(y.last()) =~= p.last() + y);
        assert(split_by(a + y, sep) == q.update(q.len() - 1, q.last().push(y.last())));
        assert(split_by(a + y, sep) =~= p.update(p.len() - 1, p.last() + y));
    }
}

proof fn lemma_split_join(ls: Seq<Seq<char>>)
    requires
        ls.len() >= 1,
        forall|k: int, i: int|
            0 <= k < ls.len() && 0 <= i < ls[k].len() ==> #[trigger] ls[k][i] != '\n',
    ensures
        split_by(join_lines(ls), '\n') == ls,
    decreases ls.len(),
{
    if ls.len() == 1 {
        lemma_split_append(Seq::empty(), ls[0], '\n');
        assert(Seq::<char>::empty() + ls[0] =~= ls[0]);
        assert(Seq::<char>::empty() + ls[0] =~= ls[0]);
        assert(split_by(ls[0], '\n') =~= ls);
    } else {
        let front = ls.drop_last();
        lemma_split_join(front);
        let a = join_lines(front) + seq!['\n'];
        assert(a.drop_last() =~= join_lines(front));
        assert(split_by(a, '\n') == front.push(Seq::empty()));
        lemma_split_append(a, ls.last(), '\n');
        assert(Seq::<char>::empty() + ls.last() =~= ls.last());
        assert(join_lines(ls) == a + ls.last());
        assert(front.push(Seq::empty()).update(front.len() as int, ls.last()) =~= ls);
    }
}

proof fn lemma_split_no_sep(s: Seq<char>, sep: char)
    ensures
        forall|k: int, i: int|
            0 <= k < split_by(s, sep).len() && 0 <= i < split_by(s, sep)[k].len() ==> #[trigger] split_by(
                s,
                sep,
            )[k][i] != sep,
    decreases s.len(),
{
    if s.len() > 0 {
        lemma_split_no_sep(s.drop_last(), sep);
        lemma_split_len(s.drop_last(), sep);
    }
}

/// No line of the text ends with a carriage return, and the last line is not
/// empty: rejoining the lines with `'\n'` gives them back.
pub open spec fn plain_lines(ls: Seq<Seq<char>>) -> bool {
    &&& ls.len() > 0
    &&& ls.last().len() > 0
    &&& forall|k: int| 0 <= k < ls.len() ==> strip_cr(#[trigger] ls[k]) == ls[k]
}

proof fn lemma_lines_of_join(ls: Seq<Seq<char>>)
    requires
        plain_lines(ls),
        forall|k: int, i: int|
            0 <= k < ls.len() && 0 <= i < ls[k].len() ==> #[trigger] ls[k][i] != '\n',
    ensures
        lines_of(join_lines(ls)) == ls,
{
    lemma_split_join(ls);
    let p = split_by(join_lines(ls), '\n');
    assert(p.drop_last().map_values(|l: Seq<char>| strip_cr(l)) =~= ls.drop_last());
    assert(ls.drop_last().push(ls.last()) =~= ls);
}

proof fn lemma_lines_no_newline(s: Seq<char>)
    ensures
        forall|k: int, i: int|
            0 <= k < lines_of(s).len() && 0 <= i < lines_of(s)[k].len() ==> #[trigger] lines_of(
                s,
            )[k][i] != '\n',
{
    lemma_split_no_sep(s, '\n');
    lemma_split_len(s, '\n');
    let p = split_by(s, '\n');
    assert forall|k: int, i: int|
        0 <= k < lines_of(s).len() && 0 <= i < lines_of(s)[k].len() implies #[trigger] lines_of(
        s,
    )[k][i] != '\n' by {
        if k < p.len() - 1 {
            assert(lines_of(s)[k] == strip_cr(p[k]));
            assert(p[k][i] != '\n');
        } else {
            assert(lines_of(s)[k] == p.last());
            assert(p[p.len() - 1][i] != '\n');
        }
    }
}

/// Toggling a key that has no boolean pair, in a text with a `{` whose lines
/// are plain, gives the old lines with `"key": true,` inserted right after
/// the first line holding a `{`: no other line is changed or moved.
pub proof fn lemma_absent_key_lines(s: Seq<char>, key: Seq<char>, i: int)
    requires
        !toggle_scan(s, key, 0).1,
        brace_line_from(lines_of(s), 0) == Some(i),
        plain_lines(lines_of(s)),
        forall|j: int| 0 <= j < key.len() ==> key[j] != '\n',
    ensures
        lines_of(toggled(s, key)) == lines_of(s).insert(i + 1, new_key_line(key)),
{
    lemma_brace_line(lines_of(s), 0);
    lemma_lines_no_newline(s);
    let ls = lines_of(s);
    let nl = new_key_line(key);
    let ins = ls.insert(i + 1, nl);
    assert(nl.len() > 0 && nl.last() == ',');
    assert forall|j: int| 0 <= j < nl.len() implies nl[j] != '\n' by {
        if 3 <= j < 3 + key.len() {
            assert(nl[j] == key[j - 3]);
        }
    }
    assert forall|k: int| 0 <= k < ins.len() implies strip_cr(#[trigger] ins[k]) == ins[k] by {
        if k <= i {
            assert(ins[k] == ls[k]);
        } else if k > i + 1 {
            assert(ins[k] == ls[k - 1]);
        }
    }
    assert forall|k: int, j: int|
        0 <= k < ins.len() && 0 <= j < ins[k].len() implies #[trigger] ins[k][j] != '\n' by {
        if k <= i {
            assert(ins[k] == ls[k]);
        } else if k > i + 1 {
            assert(ins[k] == ls[k - 1]);
        }
    }
    assert(ins.last().len() > 0) by {
        if i + 1 < ls.len() {
            assert(ins.last() == ls.last());
        }
    }
    lemma_lines_of_join(ins);
}

proof fn lemma_brace_line(ls: Seq<Seq<char>>, i: int)
    requires
        0 <= i,
    ensures
        match brace_line_from(ls, i) {
            Some(k) => i <= k < ls.len() && first_of(ls[k], '{') is Some && forall|j: int|
                i <= j < k ==> first_of(#[trigger] ls[j], '{') is None,
            None => forall|j: int| i <= j < ls.len() ==> first_of(#[trigger] ls[j], '{') is None,
        },
    decreases ls.len() - i,
{
    if i < ls.len() && first_of(ls[i], '{') is None {
        lemma_brace_line(ls, i + 1);
    }
}


/// A value whose written form reads back as one whole token: a string without
/// a double quote, a boolean, or a number literal of digits and dots only.
pub open spec fn reads_back(v: ConfigValue) -> bool {
    match v {
        ConfigValue::Text(x) => forall|i: int| 0 <= i < x@.len() ==> x@[i] != '"',
        ConfigValue::Bool(_) => true,
        ConfigValue::Number(n) => number_literal(n@) && n@.len() > 0 && forall|i: int|
            0 <= i < n@.len() ==> is_num_char(#[trigger] n@[i]),
        _ => false,
    }
}

proof fn lemma_skip_ws_facts(s: Seq<char>, i: int)
    requires
        0 <= i <= s.len(),
    ensures
        i <= skip_ws(s, i) <= s.len(),
        forall|m: int| i <= m < skip_ws(s, i) ==> is_ws(#[trigger] s[m]),
        skip_ws(s, i) < s.len() ==> !is_ws(s[skip_ws(s, i)]),
    decreases s.len() - i,
{
    if i < s.len() && is_ws(s[i]) {
        lemma_skip_ws_facts(s, i + 1);
    }
}

proof fn lemma_skip_ws_at(t: Seq<char>, i: int, stop: int)
    requires
        0 <= i <= stop < t.len(),
        forall|m: int| i <= m < stop ==> is_ws(#[trigger] t[m]),
        !is_ws(t[stop]),
    ensures
        skip_ws(t, i) == stop,
    decreases stop - i,
{
    if i < stop {
        lemma_skip_ws_at(t, i + 1, stop);
    }
}

proof fn lemma_find_first(t: Seq<char>, c: char, i: int, j: int)
    requires
        0 <= i <= j < t.len(),
        t[j] == c,
        forall|m: int| i <= m < j ==> #[trigger] t[m] != c,
    ensures
        find_from(t, c, i) == Some(j),
    decreases j - i,
{
    if i < j {
        lemma_find_first(t, c, i + 1, j);
    }
}

proof fn lemma_num_end_at(t: Seq<char>, i: int, stop: int)
    requires
        0 <= i <= stop <= t.len(),
        forall|m: int| i <= m < stop ==> is_num_char(#[trigger] t[m]),
        stop == t.len() || !is_num_char(t[stop]),
    ensures
        num_end(t, i) == stop,
    decreases stop - i,
{
    if i < stop {
        lemma_num_end_at(t, i + 1, stop);
    }
}

proof fn lemma_line_lead_agree(s: Seq<char>, t: Seq<char>, k: int)
    requires
        0 <= k <= s.len(),
        k <= t.len(),
        forall|m: int| 0 <= m < k ==> s[m] == t[m],
    ensures
        line_lead(s, k) == line_lead(t, k),
    decreases k,
{
    if k > 0 {
        lemma_line_lead_agree(s, t, k - 1);
    }
}

proof fn lemma_occurrences_match(s: Seq<char>, key: Seq<char>, syntax: Syntax, i: int)
    ensures
        forall|x: int|
            0 <= x < occurrences_below(s, key, syntax, i).len() ==> 0 <= #[trigger] occurrences_below(
                s,
                key,
                syntax,
                i,
            )[x] < i && match_at(s, key, syntax, occurrences_below(s, key, syntax, i)[x]) is Some,
    decreases i,
{
    if i > 0 {
        lemma_occurrences_match(s, key, syntax, i - 1);
    }
}

/// Where `t` agrees with `s` below `b`, the written token fills `b..b + w`,
/// and the old value token filled `b..e` after separator `sep`, the same
/// occurrence is found in `t` with the new token.
proof fn lemma_sep_value_transfer(
    s: Seq<char>,
    t: Seq<char>,
    i: int,
    sep: char,
    b: int,
    e: int,
    w: int,
)
    requires
        0 <= i,
        sep_value(s, i, sep) == Some((b, e)),
        b < t.len(),
        forall|m: int| 0 <= m < b ==> s[m] == t[m],
        !is_ws(t[b]),
        token_end(t, b) == Some(b + w),
    ensures
        sep_value(t, i, sep) == Some((b, b + w)),
{
    lemma_sep_value(s, i, sep);
    lemma_skip_ws_facts(s, i);
    let a = skip_ws(s, i);
    lemma_skip_ws_facts(s, a + 1);
    assert(a < b);
    assert forall|m: int| i <= m < a implies is_ws(#[trigger] t[m]) by {
        assert(s[m] == t[m]);
    }
    assert(!is_ws(t[a])) by {
        assert(s[a] == t[a]);
    }
    lemma_skip_ws_at(t, i, a);
    lemma_skip_ws_facts(s, a + 1);
    assert forall|m: int| a + 1 <= m < b implies is_ws(#[trigger] t[m]) by {
        assert(s[m] == t[m]);
    }
    lemma_skip_ws_at(t, a + 1, b);
}

/// The written form of `value` at `b` in `t`, not followed by a digit or a
/// dot, is read as one token.
proof fn lemma_token_written(t: Seq<char>, b: int, value: ConfigValue)
    requires
        reads_back(value),
        0 <= b,
        b + rendered(value)->0.len() <= t.len(),
        t.subrange(b, b + rendered(value)->0.len()) == rendered(value)->0,
        value is Number ==> b + rendered(value)->0.len() == t.len() || !is_num_char(
            t[b + rendered(value)->0.len()],
        ),
    ensures
        token_end(t, b) == Some(b + rendered(value)->0.len()),
        !is_ws(t[b]),
{
    let w = rendered(value)->0;
    assert forall|x: int| 0 <= x < w.len() implies t[b + x] == w[x] by {
        assert(t.subrange(b, b + w.len())[x] == w[x]);
    }
    match value {
        ConfigValue::Text(x) => {
            assert(w == quote() + x@ + quote());
            assert(t[b] == '"') by {
                assert(t[b + 0] == w[0]);
            }
            assert forall|m: int| b + 1 <= m < b + 1 + x@.len() implies #[trigger] t[m] != '"' by {
                assert(t[b + (m - b)] == w[m - b]);
                assert(w[m - b] == x@[m - b - 1]);
            }
            assert(t[b + 1 + x@.len()] == '"') by {
                assert(t[b + (1 + x@.len())] == w[1 + x@.len() as int]);
            }
            lemma_find_first(t, '"', b + 1, b + 1 + x@.len());
            assert(token_end(t, b) == Some(b + w.len()));
        },
        ConfigValue::Bool(v) => {
            if v {
                assert(t.subrange(b, b + 4) =~= true_word());
            } else {
                assert(t[b] == 'f') by {
                    assert(t[b + 0] == w[0]);
                }
                assert(!occurs_at(t, true_word(), b)) by {
                    if occurs_at(t, true_word(), b) {
                        assert(t.subrange(b, b + 4)[0] == t[b]);
                    }
                }
                assert(t.subrange(b, b + 5) =~= false_word());
            }
            assert(token_end(t, b) == Some(b + w.len()));
        },
        ConfigValue::Number(n) => {
            assert(w == n@);
            assert forall|m: int| b <= m < b + w.len() implies is_num_char(#[trigger] t[m]) by {
                assert(t[b + (m - b)] == w[m - b]);
                assert(is_num_char(n@[m - b]));
            }
            assert(t[b] == w[0]) by {
                assert(t[b + 0] == w[0]);
            }
            assert(is_num_char(t[b]));
            assert(!occurs_at(t, true_word(), b)) by {
                if occurs_at(t, true_word(), b) {
                    assert(t.subrange(b, b + 4)[0] == t[b]);
                }
            }
            assert(!occurs_at(t, false_word(), b)) by {
                if occurs_at(t, false_word(), b) {
                    assert(t.subrange(b, b + 5)[0] == t[b]);
                }
            }
            lemma_num_end_at(t, b + 1, b + w.len());
            assert(token_end(t, b) == Some(b + w.len()));
        },
        _ => {},
    }
}

/// Patching a key that occurs exactly once writes the new value where the old
/// one stood: the text before the value and after it is unchanged, and the
/// same occurrence read back from the result holds the new value. A number
/// must not be written straight before a digit or a dot, which would extend
/// it.
#[verifier::rlimit(40)]
pub proof fn lemma_patch_round_trip(s: Seq<char>, key: Seq<char>, syntax: Syntax, value: ConfigValue)
    requires
        occurrences(s, key, syntax).len() == 1,
        reads_back(value),
        ({
            let (b, e) = match_at(s, key, syntax, occurrences(s, key, syntax)[0])->0;
            value is Number ==> e == s.len() || !is_num_char(s[e])
        }),
    ensures
        ({
            let k = occurrences(s, key, syntax)[0];
            let (b, e) = match_at(s, key, syntax, k)->0;
            let w = rendered(value)->0;
            let t = patch_spec(s, key, syntax, value)->0;
            &&& patch_spec(s, key, syntax, value) is Some
            &&& t.subrange(0, b) == s.subrange(0, b)
            &&& t.subrange(b + w.len(), t.len() as int) == s.subrange(e, s.len() as int)
            &&& t.subrange(b, b + w.len()) == w
            &&& match_at(t, key, syntax, k) == Some((b, b + w.len()))
        }),
{
    let occ = occurrences(s, key, syntax);
    lemma_occurrences_match(s, key, syntax, s.len() as int);
    let k = occ[0];
    let (b, e) = match_at(s, key, syntax, k)->0;
    let i0 = match syntax {
        Syntax::Json => k + key.len() + 2,
        Syntax::Toml => k + key.len(),
    };
    let sep = match syntax {
        Syntax::Json => ':',
        Syntax::Toml => '=',
    };
    assert(sep_value(s, i0, sep) == Some((b, e)));
    lemma_sep_value(s, i0, sep);
    let w = rendered(value)->0;
    let t = splice(s, b, e, w);
    assert(t.subrange(0, b) =~= s.subrange(0, b));
    assert(t.subrange(b, b + w.len()) =~= w);
    assert(t.subrange(b + w.len(), t.len() as int) =~= s.subrange(e, s.len() as int));
    assert forall|m: int| 0 <= m < b implies s[m] == t[m] by {
        assert(t[m] == t.subrange(0, b)[m]);
    }
    assert forall|x: int| 0 <= x < w.len() implies t[b + x] == w[x] by {
        assert(t.subrange(b, b + w.len())[x] == w[x]);
    }
    let after = b + w.len();
    assert(value is Number ==> after == t.len() || !is_num_char(t[after])) by {
        if after < t.len() {
            assert(t[after] == t.subrange(after, t.len() as int)[0]);
            assert(s.subrange(e, s.len() as int)[0] == s[e]);
        }
    }
    lemma_token_written(t, b, value);
    assert(!is_ws(t[b]));
    lemma_sep_value_transfer(s, t, i0, sep, b, e, w.len() as int);
    match syntax {
        Syntax::Json => {
            let qk = quote() + key + quote();
            assert(t.subrange(k, k + qk.len()) =~= s.subrange(k, k + qk.len()));
        },
        Syntax::Toml => {
            assert(t.subrange(k, k + key.len()) =~= s.subrange(k, k + key.len()));
            lemma_line_lead_agree(s, t, k);
        },
    }
}

} // verus!
