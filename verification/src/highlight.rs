use vstd::prelude::*;
use crate::strutil::{chars_of, string_from_chars};
use crate::chain::{spec_eq_ignore_ascii_case, eq_ignore_ascii_case};

verus! {

/// `char::is_whitespace`: the characters with the Unicode `White_Space`
/// property.
pub open spec fn spec_is_whitespace(c: char) -> bool {
    let v = c as u32;
    ||| 9 <= v <= 13
    ||| v == 32
    ||| v == 0x85
    ||| v == 0xA0
    ||| v == 0x1680
    ||| 0x2000 <= v <= 0x200A
    ||| v == 0x2028
    ||| v == 0x2029
    ||| v == 0x202F
    ||| v == 0x205F
    ||| v == 0x3000
}

fn is_whitespace(c: char) -> (r: bool)
    ensures
        r == spec_is_whitespace(c),
{
    let v = c as u32;
    (9 <= v && v <= 13) || v == 32 || v == 0x85 || v == 0xA0 || v == 0x1680 || (0x2000 <= v && v <= 0x200A)
        || v == 0x2028 || v == 0x2029 || v == 0x202F || v == 0x205F || v == 0x3000
}

/// Number of leading whitespace characters of `s`.
pub open spec fn spec_lead_ws(s: Seq<char>) -> int
    decreases s.len(),
{
    if s.len() == 0 {
        0
    } else if spec_is_whitespace(s[0]) {
        1 + spec_lead_ws(s.subrange(1, s.len() as int))
    } else {
        0
    }
}

/// Number of trailing whitespace characters of `s`.
pub open spec fn spec_trail_ws(s: Seq<char>) -> int
    decreases s.len(),
{
    if s.len() == 0 {
        0
    } else if spec_is_whitespace(s.last()) {
        1 + spec_trail_ws(s.drop_last())
    } else {
        0
    }
}

pub proof fn lemma_lead_ws_bounds(s: Seq<char>)
    ensures
        0 <= spec_lead_ws(s) <= s.len(),
    decreases s.len(),
{
    if s.len() > 0 && spec_is_whitespace(s[0]) {
        lemma_lead_ws_bounds(s.subrange(1, s.len() as int));
    }
}

pub proof fn lemma_trail_ws_bounds(s: Seq<char>)
    ensures
        0 <= spec_trail_ws(s) <= s.len(),
    decreases s.len(),
{
    if s.len() > 0 && spec_is_whitespace(s.last()) {
        lemma_trail_ws_bounds(s.drop_last());
    }
}

/// `s` without leading and trailing whitespace (`str::trim`).
pub open spec fn spec_trim(s: Seq<char>) -> Seq<char> {
    let a = s.subrange(spec_lead_ws(s), s.len() as int);
    a.subrange(0, a.len() - spec_trail_ws(a))
}

/// `s` without trailing commas (`str::trim_end_matches(',')`).
pub open spec fn spec_trim_commas(s: Seq<char>) -> Seq<char>
    decreases s.len(),
{
    if s.len() > 0 && s.last() == ',' {
        spec_trim_commas(s.drop_last())
    } else {
        s
    }
}

fn trim_chars(s: &Vec<char>) -> (r: Vec<char>)
    ensures
        r@ == spec_trim(s@),
{
    let mut i: usize = 0;
    proof {
        lemma_lead_ws_bounds(s@);
        assert(s@.subrange(0, s@.len() as int) =~= s@);
    }
    while i < s.len() && is_whitespace(s[i])
        invariant
            i <= s@.len(),
            i + spec_lead_ws(s@.subrange(i as int, s@.len() as int)) == spec_lead_ws(s@),
        decreases s@.len() - i,
    {
        proof {
            assert(s@.subrange(i as int, s@.len() as int).subrange(1, s@.len() - i) =~= s@.subrange(i + 1, s@.len() as int));
        }
        i = i + 1;
    }
    proof {
        if i < s@.len() {
            assert(s@.subrange(i as int, s@.len() as int)[0] == s@[i as int]);
        }
    }
    let mut j: usize = s.len();
    let ghost a = s@.subrange(i as int, s@.len() as int);
    proof {
        lemma_trail_ws_bounds(a);
        assert(a.subrange(0, j - i) =~= a);
    }
    while j > i && is_whitespace(s[j - 1])
        invariant
            i <= j <= s@.len(),
            a == s@.subrange(i as int, s@.len() as int),
            (s@.len() - j) + spec_trail_ws(a.subrange(0, j - i)) == spec_trail_ws(a),
        decreases j,
    {
        proof {
            assert(a.subrange(0, j - i).drop_last() =~= a.subrange(0, j - i - 1));
            assert(a.subrange(0, j - i).last() == s@[j - 1]);
        }
        j = j - 1;
    }
    proof {
        if j > i {
            assert(a.subrange(0, j - i).last() == s@[j - 1]);
        }
    }
    let mut out: Vec<char> = Vec::new();
    let mut k = i;
    while k < j
        invariant
            i <= k <= j <= s@.len(),
            out@ == s@.subrange(i as int, k as int),
        decreases j - k,
    {
        out.push(s[k]);
        k = k + 1;
    }
    proof {
        assert(out@ =~= spec_trim(s@));
    }
    out
}

fn trim_commas(s: &Vec<char>) -> (r: Vec<char>)
    ensures
        r@ == spec_trim_commas(s@),
{
    let mut j: usize = s.len();
    proof {
        assert(s@.subrange(0, j as int) =~= s@);
    }
    while j > 0 && s[j - 1] == ','
        invariant
            j <= s@.len(),
            spec_trim_commas(s@.subrange(0, j as int)) == spec_trim_commas(s@),
        decreases j,
    {
        proof {
            assert(s@.subrange(0, j as int).drop_last() =~= s@.subrange(0, j - 1));
        }
        j = j - 1;
    }
    let mut out: Vec<char> = Vec::new();
    let mut k: usize = 0;
    while k < j
        invariant
            k <= j <= s@.len(),
            out@ == s@.subrange(0, k as int),
        decreases j - k,
    {
        out.push(s[k]);
        k = k + 1;
    }
    out
}

/// How a JSON value is coloured.
#[derive(Clone, Copy, Debug, PartialEq, Eq, Structural)]
pub enum TokenKind {
    Bool,
    Null,
    Str,
    Number,
    Plain,
}

/// The token a value's colour is read from: trimmed, without trailing commas.
pub open spec fn spec_value_token(v: Seq<char>) -> Seq<char> {
    spec_trim_commas(spec_trim(v))
}

/// The colour class of a value, given whether its token parses as a float.
pub open spec fn spec_token_kind(t: Seq<char>, parses_as_float: bool) -> TokenKind {
    if t == "true"@ || t == "false"@ {
        TokenKind::Bool
    } else if t == "null"@ {
        TokenKind::Null
    } else if t.len() > 0 && t[0] == '"' {
        TokenKind::Str
    } else if parses_as_float {
        TokenKind::Number
    } else {
        TokenKind::Plain
    }
}

/// The token of a value whose colour is wanted (see [`spec_value_token`]).
pub fn value_token(v: &str) -> (r: String)
    ensures
        r@ == spec_value_token(v@),
{
    let cs = chars_of(v);
    let t = trim_chars(&cs);
    let c = trim_commas(&t);
    string_from_chars(c.as_slice())
}

fn seq_is(a: &Vec<char>, lit: &str) -> (r: bool)
    ensures
        r == (a@ == lit@),
{
    let b = chars_of(lit);
    if a.len() != b.len() {
        return false;
    }
    let mut i: usize = 0;
    while i < a.len()
        invariant
            i <= a@.len(),
            a@.len() == b@.len(),
            b@ == lit@,
            forall|k: int| 0 <= k < i ==> a@[k] == b@[k],
        decreases a@.len() - i,
    {
        if a[i] != b[i] {
            return false;
        }
        i = i + 1;
    }
    proof {
        assert(a@ =~= lit@);
    }
    true
}

/// The colour class of a value token; whether it parses as a float is
/// decided by the caller.
pub fn token_kind(token: &str, parses_as_float: bool) -> (r: TokenKind)
    ensures
        r == spec_token_kind(token@, parses_as_float),
{
    let t = chars_of(token);
    if seq_is(&t, "true") || seq_is(&t, "false") {
        TokenKind::Bool
    } else if seq_is(&t, "null") {
        TokenKind::Null
    } else if t.len() > 0 && t[0] == '"' {
        TokenKind::Str
    } else if parses_as_float {
        TokenKind::Number
    } else {
        TokenKind::Plain
    }
}

/// How one line of pretty-printed JSON is drawn.
#[derive(Debug)]
pub enum JsonLine {
    /// `"key": value`: the text before the first colon, and after it.
    KeyValue { key: String, value: String },
    /// An opening or closing bracket line.
    Bracket,
    /// Any other line, coloured as a value.
    Value,
}

/// The index of the first `c` in `s`, or its length.
pub open spec fn spec_first(s: Seq<char>, c: char) -> int
    decreases s.len(),
{
    if s.len() == 0 {
        0
    } else if s[0] == c {
        0
    } else {
        1 + spec_first(s.subrange(1, s.len() as int), c)
    }
}

pub proof fn lemma_first_bounds(s: Seq<char>, c: char)
    ensures
        0 <= spec_first(s, c) <= s.len(),
        spec_first(s, c) < s.len() ==> s[spec_first(s, c)] == c,
        forall|k: int| 0 <= k < spec_first(s, c) ==> s[k] != c,
    decreases s.len(),
{
    if s.len() > 0 && s[0] != c {
        let t = s.subrange(1, s.len() as int);
        lemma_first_bounds(t, c);
        assert forall|k: int| 0 <= k < spec_first(s, c) implies s[k] != c by {
            if k > 0 {
                assert(s[k] == t[k - 1]);
            }
        }
    }
}

/// A line is a key line when its trimmed text starts with a quote and
/// holds a colon; a bracket line when its trimmed text is a lone bracket,
/// an empty pair, or ends with an opening bracket.
pub open spec fn spec_json_line_kind(line: Seq<char>) -> int {
    let t = spec_trim(line);
    if t.len() > 0 && t[0] == '"' && spec_first(t, ':') < t.len() {
        0
    } else if t == "{"@ || t == "}"@ || t == "["@ || t == "]"@ || t == "{}"@ || t == "[]"@
        || (t.len() > 0 && (t.last() == '{' || t.last() == '[')) {
        1
    } else {
        2
    }
}

fn first_index(s: &Vec<char>, c: char) -> (r: usize)
    ensures
        r == spec_first(s@, c),
{
    proof {
        lemma_first_bounds(s@, c);
    }
    let mut i: usize = 0;
    while i < s.len()
        invariant
            i <= s@.len(),
            0 <= spec_first(s@, c) <= s@.len(),
            spec_first(s@, c) < s@.len() ==> s@[spec_first(s@, c)] == c,
            forall|k: int| 0 <= k < spec_first(s@, c) ==> s@[k] != c,
            i <= spec_first(s@, c),
        decreases s@.len() - i,
    {
        if s[i] == c {
            return i;
        }
        i = i + 1;
    }
    i
}

/// How a line of pretty-printed JSON is drawn (see [`spec_json_line_kind`]);
/// a key line is cut at its first colon.
pub fn classify_json_line(line: &str) -> (r: JsonLine)
    ensures
        spec_json_line_kind(line@) == 0 <==> r is KeyValue,
        spec_json_line_kind(line@) == 1 <==> r is Bracket,
        r matches JsonLine::KeyValue { key, value } ==> {
            let c = spec_first(line@, ':');
            &&& key@ == line@.subrange(0, c)
            &&& value@ == line@.subrange(c + 1, line@.len() as int)
        },
{
    let cs = chars_of(line);
    let t = trim_chars(&cs);
    let tc = first_index(&t, ':');
    if t.len() > 0 && t[0] == '"' && tc < t.len() {
        let c = first_index(&cs, ':');
        proof {
            lemma_first_bounds(cs@, ':');
            lemma_first_bounds(t@, ':');
            // the trimmed text's colon is a colon of the line
            lemma_trim_is_slice(cs@);
            let a = spec_lead_ws(cs@);
            assert(t@[tc as int] == cs@[a + tc]);
            if c == cs@.len() {
                assert(cs@[a + tc] != ':');
            }
            assert(c < cs@.len());
        }
        let mut key: Vec<char> = Vec::new();
        let mut k: usize = 0;
        while k < c
            invariant
                k <= c < cs@.len(),
                key@ == cs@.subrange(0, k as int),
            decreases c - k,
        {
            key.push(cs[k]);
            k = k + 1;
        }
        let mut value: Vec<char> = Vec::new();
        let total = cs.len();
        let mut m: usize = c + 1;
        while m < cs.len()
            invariant
                c + 1 <= m <= cs@.len(),
                value@ == cs@.subrange(c + 1, m as int),
            decreases cs@.len() - m,
        {
            value.push(cs[m]);
            m = m + 1;
        }
        return JsonLine::KeyValue {
            key: string_from_chars(key.as_slice()),
            value: string_from_chars(value.as_slice()),
        };
    }
    let n = t.len();
    if seq_is(&t, "{") || seq_is(&t, "}") || seq_is(&t, "[") || seq_is(&t, "]") || seq_is(&t, "{}")
        || seq_is(&t, "[]") || (n > 0 && (t[n - 1] == '{' || t[n - 1] == '[')) {
        JsonLine::Bracket
    } else {
        JsonLine::Value
    }
}

pub proof fn lemma_trim_is_slice(s: Seq<char>)
    ensures
        ({
            let a = spec_lead_ws(s);
            let t = spec_trim(s);
            &&& 0 <= a
            &&& a + t.len() <= s.len()
            &&& forall|k: int| 0 <= k < t.len() ==> t[k] == s[a + k]
        }),
{
    lemma_lead_ws_bounds(s);
    let a = s.subrange(spec_lead_ws(s), s.len() as int);
    lemma_trail_ws_bounds(a);
}

/// Every character of `s[a..b]` is an ASCII digit.
pub open spec fn spec_digits(s: Seq<char>, a: int, b: int) -> bool {
    forall|k: int| a <= k < b ==> '0' <= #[trigger] s[k] <= '9'
}

/// 1 when `s` starts with a sign, else 0.
pub open spec fn spec_sign_len(s: Seq<char>) -> int {
    if s.len() > 0 && (s[0] == '+' || s[0] == '-') { 1 } else { 0 }
}

/// The index of the first `e` or `E` in `s`, or its length.
pub open spec fn spec_first_exp(s: Seq<char>) -> int
    decreases s.len(),
{
    if s.len() == 0 {
        0
    } else if s[0] == 'e' || s[0] == 'E' {
        0
    } else {
        1 + spec_first_exp(s.subrange(1, s.len() as int))
    }
}

/// Digits with at most one `.`, at least one digit.
pub open spec fn spec_mantissa(m: Seq<char>) -> bool {
    let d = spec_first(m, '.');
    &&& spec_digits(m, 0, d)
    &&& (d == m.len() || spec_digits(m, d + 1, m.len() as int))
    &&& (if d < m.len() { m.len() - 1 } else { m.len() as int }) >= 1
}

/// Empty, or `e` (either case), an optional sign, and digits.
pub open spec fn spec_exponent(x: Seq<char>) -> bool {
    x.len() == 0 || {
        let t = x.subrange(1, x.len() as int);
        &&& (x[0] == 'e' || x[0] == 'E')
        &&& t.len() > spec_sign_len(t)
        &&& spec_digits(t, spec_sign_len(t), t.len() as int)
    }
}

/// `f64::from_str` accepts `s`: an optional sign, then `inf`, `infinity`
/// or `nan` in any case, or a decimal number with an optional exponent.
pub open spec fn spec_parses_as_float(s: Seq<char>) -> bool {
    let r = s.subrange(spec_sign_len(s), s.len() as int);
    let e = spec_first_exp(r);
    ||| spec_eq_ignore_ascii_case(r, "inf"@)
    ||| spec_eq_ignore_ascii_case(r, "infinity"@)
    ||| spec_eq_ignore_ascii_case(r, "nan"@)
    ||| (spec_mantissa(r.subrange(0, e)) && spec_exponent(r.subrange(e, r.len() as int)))
}

pub proof fn lemma_first_exp_bounds(s: Seq<char>)
    ensures
        0 <= spec_first_exp(s) <= s.len(),
        spec_first_exp(s) < s.len() ==> (s[spec_first_exp(s)] == 'e' || s[spec_first_exp(s)] == 'E'),
        forall|k: int| 0 <= k < spec_first_exp(s) ==> s[k] != 'e' && s[k] != 'E',
    decreases s.len(),
{
    if s.len() > 0 && s[0] != 'e' && s[0] != 'E' {
        let t = s.subrange(1, s.len() as int);
        lemma_first_exp_bounds(t);
        assert forall|k: int| 0 <= k < spec_first_exp(s) implies s[k] != 'e' && s[k] != 'E' by {
            if k > 0 {
                assert(s[k] == t[k - 1]);
            }
        }
    }
}

fn digits_between(s: &Vec<char>, a: usize, b: usize) -> (r: bool)
    requires
        a <= b <= s@.len(),
    ensures
        r == spec_digits(s@, a as int, b as int),
{
    let mut k = a;
    while k < b
        invariant
            a <= k <= b <= s@.len(),
            spec_digits(s@, a as int, k as int),
        decreases b - k,
    {
        if s[k] < '0' || s[k] > '9' {
            return false;
        }
        k = k + 1;
    }
    true
}

fn slice_chars(s: &Vec<char>, a: usize, b: usize) -> (r: Vec<char>)
    requires
        a <= b <= s@.len(),
    ensures
        r@ == s@.subrange(a as int, b as int),
{
    let mut out: Vec<char> = Vec::new();
    let mut k = a;
    while k < b
        invariant
            a <= k <= b <= s@.len(),
            out@ == s@.subrange(a as int, k as int),
        decreases b - k,
    {
        out.push(s[k]);
        k = k + 1;
    }
    out
}

fn first_exp(s: &Vec<char>) -> (r: usize)
    ensures
        r == spec_first_exp(s@),
{
    proof {
        lemma_first_exp_bounds(s@);
    }
    let mut i: usize = 0;
    while i < s.len()
        invariant
            i <= s@.len(),
            0 <= spec_first_exp(s@) <= s@.len(),
            spec_first_exp(s@) < s@.len() ==> (s@[spec_first_exp(s@)] == 'e' || s@[spec_first_exp(s@)] == 'E'),
            forall|k: int| 0 <= k < spec_first_exp(s@) ==> s@[k] != 'e' && s@[k] != 'E',
            i <= spec_first_exp(s@),
        decreases s@.len() - i,
    {
        if s[i] == 'e' || s[i] == 'E' {
            return i;
        }
        i = i + 1;
    }
    i
}

fn is_mantissa(m: &Vec<char>) -> (r: bool)
    ensures
        r == spec_mantissa(m@),
{
    let d = first_index(m, '.');
    proof {
        lemma_first_bounds(m@, '.');
    }
    if !digits_between(m, 0, d) {
        return false;
    }
    if d < m.len() && !digits_between(m, d + 1, m.len()) {
        return false;
    }
    let count = if d < m.len() { m.len() - 1 } else { m.len() };
    count >= 1
}

fn is_exponent(x: &Vec<char>) -> (r: bool)
    ensures
        r == spec_exponent(x@),
{
    if x.len() == 0 {
        return true;
    }
    if x[0] != 'e' && x[0] != 'E' {
        return false;
    }
    let t = slice_chars(x, 1, x.len());
    let sl: usize = if t.len() > 0 && (t[0] == '+' || t[0] == '-') { 1 } else { 0 };
    t.len() > sl && digits_between(&t, sl, t.len())
}

/// Whether `token` is a number `f64::from_str` would accept (see
/// [`spec_parses_as_float`]).
pub fn parses_as_float(token: &str) -> (r: bool)
    ensures
        r == spec_parses_as_float(token@),
{
    let s = chars_of(token);
    let sl: usize = if s.len() > 0 && (s[0] == '+' || s[0] == '-') { 1 } else { 0 };
    let r = slice_chars(&s, sl, s.len());
    let rs = string_from_chars(r.as_slice());
    if eq_ignore_ascii_case(rs.as_str(), "inf") || eq_ignore_ascii_case(rs.as_str(), "infinity")
        || eq_ignore_ascii_case(rs.as_str(), "nan") {
        return true;
    }
    let e = first_exp(&r);
    proof {
        lemma_first_exp_bounds(r@);
    }
    let m = slice_chars(&r, 0, e);
    let x = slice_chars(&r, e, r.len());
    is_mantissa(&m) && is_exponent(&x)
}

/// The colour class of a JSON value as the response view draws it.
pub fn value_kind(v: &str) -> (r: TokenKind)
    ensures
        r == spec_token_kind(spec_value_token(v@), spec_parses_as_float(spec_value_token(v@))),
{
    let t = value_token(v);
    let f = parses_as_float(t.as_str());
    token_kind(t.as_str(), f)
}

} // verus!
