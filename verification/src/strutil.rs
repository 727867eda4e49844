use vstd::prelude::*;
use vstd::string::{StrSliceExecFns, StringSliceAdditionalSpecFns};

verus! {

/// `parts` joined with `sep` between neighbours.
pub open spec fn spec_join_with<A>(parts: Seq<Seq<A>>, sep: Seq<A>) -> Seq<A>
    decreases parts.len(),
{
    if parts.len() == 0 {
        Seq::empty()
    } else if parts.len() == 1 {
        parts[0]
    } else {
        spec_join_with(parts.drop_last(), sep) + sep + parts.last()
    }
}

/// `s` with every non-overlapping occurrence of the non-empty `pat`,
/// scanning from the left, replaced by `rep` (as `str::replace` does).
pub open spec fn spec_replace(s: Seq<char>, pat: Seq<char>, rep: Seq<char>) -> Seq<char>
    decreases s.len(),
{
    if pat.len() == 0 || s.len() < pat.len() {
        s
    } else if s.subrange(0, pat.len() as int) == pat {
        rep + spec_replace(s.subrange(pat.len() as int, s.len() as int), pat, rep)
    } else {
        seq![s[0]] + spec_replace(s.subrange(1, s.len() as int), pat, rep)
    }
}

/// Views of a vector of strings.
pub open spec fn str_views(v: Seq<String>) -> Seq<Seq<char>> {
    Seq::new(v.len(), |i: int| v[i]@)
}

/// Appends `c`, as `String::push` does.
#[verifier::external_body]
pub(crate) fn push_char(s: &mut String, c: char)
    ensures
        final(s)@ == old(s)@.push(c),
{
    s.push(c);
}

/// A name for what `str::to_lowercase` returns: the Unicode lowercase
/// mapping of each character, some of which map to several.
pub uninterp spec fn spec_to_lowercase(s: Seq<char>) -> Seq<char>;

/// `str::to_lowercase`; its result is named by [`spec_to_lowercase`].
/// Every character lowercases to one or more characters (the `char`
/// documentation), so the result is at least as long as `s`.
#[verifier::external_body]
pub(crate) fn to_lowercase(s: &str) -> (r: String)
    ensures
        r@ == spec_to_lowercase(s@),
        r@.len() >= s@.len(),
{
    s.to_lowercase()
}

/// Whether `p` is a prefix of `s`, character by character.
pub fn starts_with_str(s: &str, p: &str) -> (r: bool)
    ensures
        r == p@.is_prefix_of(s@),
{
    let sc = chars_of(s);
    let pc = chars_of(p);
    if pc.len() > sc.len() {
        return false;
    }
    let mut i: usize = 0;
    while i < pc.len()
        invariant
            i <= pc@.len() <= sc@.len(),
            sc@ == s@,
            pc@ == p@,
            forall|k: int| 0 <= k < i ==> sc@[k] == pc@[k],
        decreases pc@.len() - i,
    {
        if sc[i] != pc[i] {
            return false;
        }
        i = i + 1;
    }
    proof {
        assert(s@.subrange(0, p@.len() as int) =~= p@);
    }
    true
}

/// Whether `a` and `b` hold the same characters.
pub fn str_eq(a: &str, b: &str) -> (r: bool)
    ensures
        r == (a@ == b@),
{
    if a.unicode_len() != b.unicode_len() {
        return false;
    }
    let r = starts_with_str(a, b);
    proof {
        if r {
            assert(a@ =~= b@);
        }
    }
    r
}

/// The UTF-8 bytes of `s`.
pub fn bytes_of(s: &str) -> (r: Vec<u8>)
    ensures
        r@ == s.spec_bytes(),
{
    let b = s.as_bytes();
    let mut out: Vec<u8> = Vec::new();
    let mut i: usize = 0;
    while i < b.len()
        invariant
            i <= b@.len(),
            out@ == b@.subrange(0, i as int),
        decreases b@.len() - i,
    {
        out.push(b[i]);
        i = i + 1;
    }
    proof {
        assert(b@.subrange(0, i as int) =~= b@);
    }
    out
}

/// Removes the last character, as `String::pop` does: `None` and no change
/// on an empty string.
#[verifier::external_body]
pub(crate) fn pop_char(s: &mut String) -> (r: Option<char>)
    ensures
        old(s)@.len() == 0 ==> r.is_none() && final(s)@ == old(s)@,
        old(s)@.len() > 0 ==> r == Some(old(s)@.last()) && final(s)@ == old(s)@.drop_last(),
{
    s.pop()
}

/// The characters of `s`.
pub fn chars_of(s: &str) -> (r: Vec<char>)
    ensures
        r@ == s@,
{
    let n = s.unicode_len();
    let mut out: Vec<char> = Vec::new();
    let mut i: usize = 0;
    while i < n
        invariant
            i <= n,
            n == s@.len(),
            out@ == s@.subrange(0, i as int),
        decreases n - i,
    {
        out.push(s.get_char(i));
        i = i + 1;
        proof {
            assert(s@.subrange(0, i as int) == s@.subrange(0, i - 1).push(s@[i - 1]));
        }
    }
    proof {
        assert(s@.subrange(0, n as int) == s@);
    }
    out
}

/// A string holding `cs`.
pub fn string_from_chars(cs: &[char]) -> (r: String)
    ensures
        r@ == cs@,
{
    let mut out = String::new();
    let mut i: usize = 0;
    while i < cs.len()
        invariant
            i <= cs@.len(),
            out@ == cs@.subrange(0, i as int),
        decreases cs@.len() - i,
    {
        push_char(&mut out, cs[i]);
        i = i + 1;
        proof {
            assert(cs@.subrange(0, i as int) == cs@.subrange(0, i - 1).push(cs@[i - 1]));
        }
    }
    proof {
        assert(cs@.subrange(0, i as int) == cs@);
    }
    out
}

/// Appends all of `t` to `out`.
pub fn append_chars(out: &mut Vec<char>, t: &[char])
    ensures
        final(out)@ == old(out)@ + t@,
{
    let mut i: usize = 0;
    let ghost base = out@;
    while i < t.len()
        invariant
            i <= t@.len(),
            out@ == base + t@.subrange(0, i as int),
        decreases t@.len() - i,
    {
        out.push(t[i]);
        i = i + 1;
        proof {
            assert(t@.subrange(0, i as int) == t@.subrange(0, i - 1).push(t@[i - 1]));
        }
    }
    proof {
        assert(t@.subrange(0, i as int) == t@);
    }
}

/// Whether `pat` occurs in `s` at `i`.
pub fn matches_at(s: &[char], i: usize, pat: &[char]) -> (r: bool)
    requires
        i <= s@.len(),
    ensures
        r == (pat@.len() <= s@.len() - i && s@.subrange(i as int, i + pat@.len()) == pat@),
{
    let n = s.len();
    if pat.len() > n - i {
        return false;
    }
    let mut k: usize = 0;
    while k < pat.len()
        invariant
            k <= pat@.len(),
            n == s@.len(),
            pat@.len() <= s@.len() - i,
            forall|j: int| 0 <= j < k ==> s@[i + j] == pat@[j],
        decreases pat@.len() - k,
    {
        if s[i + k] != pat[k] {
            proof {
                assert(s@.subrange(i as int, i + pat@.len())[k as int] != pat@[k as int]);
            }
            return false;
        }
        k = k + 1;
    }
    proof {
        assert(s@.subrange(i as int, i + pat@.len()) =~= pat@);
    }
    true
}

/// `s` with every occurrence of the non-empty `pat` replaced by `rep`.
pub fn replace_all(s: &[char], pat: &[char], rep: &[char]) -> (r: Vec<char>)
    ensures
        r@ == spec_replace(s@, pat@, rep@),
{
    if pat.len() == 0 {
        let mut all: Vec<char> = Vec::new();
        append_chars(&mut all, s);
        return all;
    }
    let mut out: Vec<char> = Vec::new();
    let mut i: usize = 0;
    proof {
        assert(s@.subrange(0, s@.len() as int) =~= s@);
    }
    while i < s.len()
        invariant
            i <= s@.len(),
            pat@.len() > 0,
            out@ + spec_replace(s@.subrange(i as int, s@.len() as int), pat@, rep@) == spec_replace(s@, pat@, rep@),
        decreases s@.len() - i,
    {
        let ghost rest = s@.subrange(i as int, s@.len() as int);
        if matches_at(s, i, pat) {
            proof {
                assert(rest.subrange(0, pat@.len() as int) =~= s@.subrange(i as int, i + pat@.len()));
                assert(rest.subrange(pat@.len() as int, rest.len() as int) =~= s@.subrange(i + pat@.len(), s@.len() as int));
            }
            append_chars(&mut out, rep);
            i = i + pat.len();
        } else {
            proof {
                if pat@.len() <= rest.len() {
                    assert(rest.subrange(0, pat@.len() as int) =~= s@.subrange(i as int, i + pat@.len()));
                }
                assert(rest.subrange(1, rest.len() as int) =~= s@.subrange(i + 1, s@.len() as int));
                if rest.len() < pat@.len() {
                    // the rest is copied as it is
                    assert(rest.len() >= 1);
                }
            }
            out.push(s[i]);
            i = i + 1;
            proof {
                if rest.len() < pat@.len() {
                    lemma_replace_short(rest, pat@, rep@);
                    lemma_replace_short(rest.subrange(1, rest.len() as int), pat@, rep@);
                    assert(seq![rest[0]] + rest.subrange(1, rest.len() as int) =~= rest);
                }
            }
        }
    }
    proof {
        assert(s@.subrange(i as int, s@.len() as int) =~= Seq::<char>::empty());
    }
    out
}

pub proof fn lemma_replace_short(s: Seq<char>, pat: Seq<char>, rep: Seq<char>)
    requires
        s.len() < pat.len(),
    ensures
        spec_replace(s, pat, rep) == s,
{
}

/// `parts` joined with `sep`.
pub fn join_strings(parts: &Vec<String>, sep: &str) -> (r: String)
    ensures
        r@ == spec_join_with(str_views(parts@), sep@),
{
    let mut out = String::new();
    let mut i: usize = 0;
    while i < parts.len()
        invariant
            i <= parts@.len(),
            out@ == spec_join_with(str_views(parts@).subrange(0, i as int), sep@),
        decreases parts@.len() - i,
    {
        proof {
            assert(str_views(parts@).subrange(0, i + 1).drop_last() =~= str_views(parts@).subrange(0, i as int));
        }
        if i > 0 {
            out.append(sep);
        }
        out.append(parts[i].as_str());
        i = i + 1;
    }
    proof {
        assert(str_views(parts@).subrange(0, i as int) =~= str_views(parts@));
    }
    out
}

/// `pat` occurs in `s` (`str::contains`).
pub open spec fn spec_contains_str(s: Seq<char>, pat: Seq<char>) -> bool {
    exists|i: int| 0 <= i && i + pat.len() <= s.len() && #[trigger] s.subrange(i, i + pat.len()) == pat
}

/// Whether `pat` occurs in `s`.
pub fn contains_str(s: &str, pat: &str) -> (r: bool)
    ensures
        r == spec_contains_str(s@, pat@),
{
    let sc = chars_of(s);
    let pc = chars_of(pat);
    let mut i: usize = 0;
    while i < sc.len()
        invariant
            i <= sc@.len(),
            sc@ == s@,
            pc@ == pat@,
            forall|k: int| 0 <= k < i && k + pat@.len() <= s@.len() ==> #[trigger] s@.subrange(k, k + pat@.len()) != pat@,
        decreases sc@.len() - i,
    {
        if matches_at(sc.as_slice(), i, pc.as_slice()) {
            return true;
        }
        i = i + 1;
    }
    matches_at(sc.as_slice(), i, pc.as_slice())
}

/// `a` followed by `b`.
pub fn concat(a: &str, b: &str) -> (r: String)
    ensures
        r@ == a@ + b@,
{
    let mut cs = chars_of(a);
    let bs = chars_of(b);
    append_chars(&mut cs, bs.as_slice());
    string_from_chars(cs.as_slice())
}

/// The decimal digit for `d` (below ten).
pub open spec fn spec_digit(d: nat) -> char {
    if d == 0 { '0' } else if d == 1 { '1' } else if d == 2 { '2' } else if d == 3 { '3' }
    else if d == 4 { '4' } else if d == 5 { '5' } else if d == 6 { '6' } else if d == 7 { '7' }
    else if d == 8 { '8' } else { '9' }
}

/// `n` in decimal, as `Display` writes an unsigned integer: no leading
/// zeros, `0` for zero.
pub open spec fn spec_decimal(n: nat) -> Seq<char>
    decreases n,
{
    if n < 10 { seq![spec_digit(n)] } else { spec_decimal(n / 10).push(spec_digit(n % 10)) }
}

fn digit_char(d: u64) -> (r: char)
    requires
        d < 10,
    ensures
        r == spec_digit(d as nat),
{
    if d == 0 { '0' } else if d == 1 { '1' } else if d == 2 { '2' } else if d == 3 { '3' }
    else if d == 4 { '4' } else if d == 5 { '5' } else if d == 6 { '6' } else if d == 7 { '7' }
    else if d == 8 { '8' } else { '9' }
}

fn push_decimal(out: &mut Vec<char>, n: u64)
    ensures
        final(out)@ == old(out)@ + spec_decimal(n as nat),
    decreases n,
{
    if n >= 10 {
        push_decimal(out, n / 10);
    }
    out.push(digit_char(n % 10));
    proof {
        if n < 10 {
            assert(old(out)@ + spec_decimal(n as nat) =~= old(out)@.push(spec_digit(n as nat)));
        } else {
            assert(old(out)@ + spec_decimal(n as nat) =~= (old(out)@ + spec_decimal((n / 10) as nat)).push(spec_digit((n % 10) as nat)));
        }
    }
}

/// `n` written in decimal (see [`spec_decimal`]).
pub fn decimal_string(n: u64) -> (r: String)
    ensures
        r@ == spec_decimal(n as nat),
{
    let mut cs: Vec<char> = Vec::new();
    push_decimal(&mut cs, n);
    proof {
        assert(cs@ =~= spec_decimal(n as nat));
    }
    string_from_chars(cs.as_slice())
}

} // verus!
