use vstd::prelude::*;
use crate::strutil::{spec_replace, spec_contains_str, spec_to_lowercase};
use crate::model::PathParam;
use crate::http_client::spec_resolve_path_params;
use crate::vim_buffer::{spec_word_end_forward, spec_is_space, class_of, run_end, lemma_run_end_bounds};
use crate::autocomplete::spec_candidate_matches;
use crate::body_edit::{spec_leading_ws, spec_ws_len, spec_ws_prefix_end, lemma_ws_prefix_bounds, spec_visual_range};

verus! {

/// No element of `s` is `c`.
pub open spec fn spec_lacks<A>(s: Seq<A>, c: A) -> bool {
    forall|k: int| 0 <= k < s.len() ==> s[k] != c
}

/// A text without the first character of `pat` does not contain `pat`.
pub proof fn lemma_lacks_first_not_contained(s: Seq<char>, pat: Seq<char>)
    requires
        pat.len() > 0,
        spec_lacks(s, pat[0]),
    ensures
        !spec_contains_str(s, pat),
{
    if spec_contains_str(s, pat) {
        let i = choose|i: int| 0 <= i && i + pat.len() <= s.len() && #[trigger] s.subrange(i, i + pat.len()) == pat;
        assert(s.subrange(i, i + pat.len())[0] == s[i]);
    }
}

/// Replacing a pattern that does not occur changes nothing.
pub proof fn lemma_replace_absent(s: Seq<char>, pat: Seq<char>, rep: Seq<char>)
    requires
        pat.len() > 0,
        !spec_contains_str(s, pat),
    ensures
        spec_replace(s, pat, rep) == s,
    decreases s.len(),
{
    if s.len() >= pat.len() {
        if s.subrange(0, pat.len() as int) == pat {
            assert(s.subrange(0int, 0int + pat.len()) == pat);
            assert(spec_contains_str(s, pat));
        }
        let t = s.subrange(1, s.len() as int);
        if spec_contains_str(t, pat) {
            let i = choose|i: int| 0 <= i && i + pat.len() <= t.len() && #[trigger] t.subrange(i, i + pat.len()) == pat;
            assert(s.subrange(i + 1, i + 1 + pat.len()) =~= t.subrange(i, i + pat.len()));
        }
        lemma_replace_absent(t, pat, rep);
        assert(seq![s[0]] + t =~= s);
    }
}

/// One occurrence of `pat` between texts that lack its first character is
/// replaced by `rep`, and nothing else changes.
pub proof fn lemma_replace_once(a: Seq<char>, pat: Seq<char>, b: Seq<char>, rep: Seq<char>)
    requires
        pat.len() > 0,
        spec_lacks(a, pat[0]),
        spec_lacks(b, pat[0]),
    ensures
        spec_replace(a + pat + b, pat, rep) == a + rep + b,
    decreases a.len(),
{
    let s = a + pat + b;
    if a.len() == 0 {
        assert(s.subrange(0, pat.len() as int) =~= pat);
        assert(s.subrange(pat.len() as int, s.len() as int) =~= b);
        lemma_lacks_first_not_contained(b, pat);
        lemma_replace_absent(b, pat, rep);
        assert(a + rep + b =~= rep + b);
    } else {
        assert(s.subrange(0, pat.len() as int)[0] == a[0]);
        let a1 = a.subrange(1, a.len() as int);
        assert(s.subrange(1, s.len() as int) =~= a1 + pat + b);
        lemma_replace_once(a1, pat, b, rep);
        assert(seq![a[0]] + (a1 + rep + b) =~= a + rep + b);
    }
}

/// Every occurrence is replaced, scanning from the left: after a text
/// that lacks the pattern's first character, the first occurrence becomes
/// `rep` and the rest of the text is treated the same way.
pub proof fn law_replace_every_occurrence(a: Seq<char>, pat: Seq<char>, b: Seq<char>, rep: Seq<char>)
    requires
        pat.len() > 0,
        spec_lacks(a, pat[0]),
    ensures
        spec_replace(a + pat + b, pat, rep) == a + rep + spec_replace(b, pat, rep),
    decreases a.len(),
{
    let s = a + pat + b;
    if a.len() == 0 {
        assert(s.subrange(0, pat.len() as int) =~= pat);
        assert(s.subrange(pat.len() as int, s.len() as int) =~= b);
        assert(a + rep + spec_replace(b, pat, rep) =~= rep + spec_replace(b, pat, rep));
    } else {
        assert(s.subrange(0, pat.len() as int)[0] == a[0]);
        let a1 = a.subrange(1, a.len() as int);
        assert(s.subrange(1, s.len() as int) =~= a1 + pat + b);
        law_replace_every_occurrence(a1, pat, b, rep);
        assert(seq![a[0]] + (a1 + rep + spec_replace(b, pat, rep)) =~= a + rep + spec_replace(b, pat, rep));
    }
}

/// The placeholders of a path parameter with key `key`: `:key` and
/// `{key}`.
pub open spec fn spec_colon_placeholder(key: Seq<char>) -> Seq<char> {
    seq![':'] + key
}

pub open spec fn spec_brace_placeholder(key: Seq<char>) -> Seq<char> {
    seq!['{'] + key + seq!['}']
}

/// Resolving a list whose parameters' placeholders do not occur leaves the
/// text as it is.
proof fn lemma_resolve_untouched(url: Seq<char>, ps: Seq<PathParam>, m: int)
    requires
        0 <= m <= ps.len(),
        forall|k: int| 0 <= k < m && (#[trigger] ps[k]).enabled && ps[k].key@.len() > 0 ==>
            !spec_contains_str(url, spec_colon_placeholder(ps[k].key@))
            && !spec_contains_str(url, spec_brace_placeholder(ps[k].key@)),
    ensures
        spec_resolve_path_params(url, ps.take(m)) == url,
    decreases m,
{
    if m > 0 {
        lemma_resolve_untouched(url, ps, m - 1);
        assert(ps.take(m).drop_last() =~= ps.take(m - 1));
        let p = ps[m - 1];
        assert(ps.take(m).last() == p);
        if p.enabled && p.key@.len() > 0 {
            assert(seq![':'] + p.key@ == spec_colon_placeholder(p.key@));
            assert(seq!['{'] + p.key@ + seq!['}'] == spec_brace_placeholder(p.key@));
            lemma_replace_absent(url, spec_colon_placeholder(p.key@), p.value@);
            lemma_replace_absent(url, spec_brace_placeholder(p.key@), p.value@);
        }
    }
}

/// A text with neither `:` nor `{` is left as it is by any parameters
/// from `j` on.
proof fn lemma_resolve_plain_tail(url: Seq<char>, ps: Seq<PathParam>, j: int, m: int, t: Seq<char>)
    requires
        0 <= j <= m <= ps.len(),
        spec_resolve_path_params(url, ps.take(j)) == t,
        spec_lacks(t, ':'),
        spec_lacks(t, '{'),
    ensures
        spec_resolve_path_params(url, ps.take(m)) == t,
    decreases m - j,
{
    if m > j {
        lemma_resolve_plain_tail(url, ps, j, m - 1, t);
        assert(ps.take(m).drop_last() =~= ps.take(m - 1));
        let p = ps[m - 1];
        assert(ps.take(m).last() == p);
        if p.enabled && p.key@.len() > 0 {
            let p1 = seq![':'] + p.key@;
            let p2 = seq!['{'] + p.key@ + seq!['}'];
            assert(p1[0] == ':');
            assert(p2[0] == '{');
            lemma_lacks_first_not_contained(t, p1);
            lemma_replace_absent(t, p1, p.value@);
            lemma_lacks_first_not_contained(t, p2);
            lemma_replace_absent(t, p2, p.value@);
        }
    }
}

/// Every enabled path parameter with a key is filled in, wherever it
/// stands in the list: when the URL holds its placeholder (`:key` or
/// `{key}`) once, between texts with no other placeholder, and no earlier
/// parameter's placeholder occurs in the URL, the resolved URL has the
/// parameter's value in place of the placeholder and is otherwise the same.
pub proof fn law_path_param_filled(a: Seq<char>, b: Seq<char>, ps: Seq<PathParam>, j: int, brace: bool)
    requires
        0 <= j < ps.len(),
        ps[j].enabled,
        ps[j].key@.len() > 0,
        spec_lacks(ps[j].key@, ':'),
        spec_lacks(a, ':') && spec_lacks(a, '{'),
        spec_lacks(b, ':') && spec_lacks(b, '{'),
        spec_lacks(ps[j].value@, ':') && spec_lacks(ps[j].value@, '{'),
        forall|k: int| 0 <= k < j && (#[trigger] ps[k]).enabled && ps[k].key@.len() > 0 ==> {
            let url = a + (if brace { spec_brace_placeholder(ps[j].key@) } else { spec_colon_placeholder(ps[j].key@) }) + b;
            &&& !spec_contains_str(url, spec_colon_placeholder(ps[k].key@))
            &&& !spec_contains_str(url, spec_brace_placeholder(ps[k].key@))
        },
    ensures
        spec_resolve_path_params(
            a + (if brace { spec_brace_placeholder(ps[j].key@) } else { spec_colon_placeholder(ps[j].key@) }) + b,
            ps,
        ) == a + ps[j].value@ + b,
{
    let p = ps[j];
    let ph = if brace { spec_brace_placeholder(p.key@) } else { spec_colon_placeholder(p.key@) };
    let url = a + ph + b;
    let v = p.value@;
    let p1 = seq![':'] + p.key@;
    let p2 = seq!['{'] + p.key@ + seq!['}'];
    assert(p1[0] == ':');
    assert(p2[0] == '{');
    lemma_resolve_untouched(url, ps, j);
    assert(ps.take(j + 1).drop_last() =~= ps.take(j));
    assert(ps.take(j + 1).last() == p);
    let t = a + v + b;
    if brace {
        assert(url == a + p2 + b);
        assert(spec_lacks(url, ':')) by {
            assert forall|k: int| 0 <= k < url.len() implies url[k] != ':' by {
                if k < a.len() {
                    assert(url[k] == a[k]);
                } else if k < a.len() + p2.len() {
                    assert(url[k] == p2[k - a.len()]);
                    if k - a.len() >= 1 && k - a.len() < p2.len() - 1 {
                        assert(p2[k - a.len()] == p.key@[k - a.len() - 1]);
                    }
                } else {
                    assert(url[k] == b[k - a.len() - p2.len()]);
                }
            }
        }
        lemma_lacks_first_not_contained(url, p1);
        lemma_replace_absent(url, p1, v);
        lemma_replace_once(a, p2, b, v);
    } else {
        assert(url == a + p1 + b);
        lemma_replace_once(a, p1, b, v);
        assert(spec_lacks(t, '{')) by {
            assert forall|k: int| 0 <= k < t.len() implies t[k] != '{' by {
                if k < a.len() {
                    assert(t[k] == a[k]);
                } else if k < a.len() + v.len() {
                    assert(t[k] == v[k - a.len()]);
                } else {
                    assert(t[k] == b[k - a.len() - v.len()]);
                }
            }
        }
        lemma_lacks_first_not_contained(t, p2);
        lemma_replace_absent(t, p2, v);
    }
    assert(spec_resolve_path_params(url, ps.take(j + 1)) == t);
    assert(spec_lacks(t, ':') && spec_lacks(t, '{')) by {
        assert forall|k: int| 0 <= k < t.len() implies t[k] != ':' && t[k] != '{' by {
            if k < a.len() {
                assert(t[k] == a[k]);
            } else if k < a.len() + v.len() {
                assert(t[k] == v[k - a.len()]);
            } else {
                assert(t[k] == b[k - a.len() - v.len()]);
            }
        }
    }
    lemma_resolve_plain_tail(url, ps, j + 1, ps.len() as int, t);
    assert(ps.take(ps.len() as int) =~= ps);
}

proof fn lemma_disabled_insert_prefix(url: Seq<char>, ps: Seq<PathParam>, j: int, p: PathParam, m: int)
    requires
        0 <= j <= m <= ps.len(),
        !p.enabled || p.key@.len() == 0,
    ensures
        spec_resolve_path_params(url, ps.insert(j, p).take(m + 1)) == spec_resolve_path_params(url, ps.take(m)),
    decreases m - j,
{
    let q = ps.insert(j, p);
    if m == j {
        assert(q.take(m + 1).drop_last() =~= ps.take(m));
        assert(q.take(m + 1).last() == p);
    } else {
        lemma_disabled_insert_prefix(url, ps, j, p, m - 1);
        assert(q.take(m + 1).drop_last() =~= q.take(m));
        assert(ps.take(m).drop_last() =~= ps.take(m - 1));
        assert(q.take(m + 1).last() == ps.take(m).last());
    }
}

/// A disabled path parameter, or one without a key, changes nothing,
/// wherever it stands in the list.
pub proof fn law_disabled_param_ignored(url: Seq<char>, ps: Seq<PathParam>, j: int, p: PathParam)
    requires
        0 <= j <= ps.len(),
        !p.enabled || p.key@.len() == 0,
    ensures
        spec_resolve_path_params(url, ps.insert(j, p)) == spec_resolve_path_params(url, ps),
{
    lemma_disabled_insert_prefix(url, ps, j, p, ps.len() as int);
    assert(ps.insert(j, p).take(ps.len() as int + 1) =~= ps.insert(j, p));
    assert(ps.take(ps.len() as int) =~= ps);
}

/// Vim `w` lands on the start of the next word or punctuation run: it
/// moves forward past the run of the class under the cursor (the whole
/// run, when that class is not whitespace), then past the whitespace that
/// follows, and stops on a non-blank byte or at the end.
pub proof fn law_word_forward_lands_on_non_blank(s: Seq<u8>, col: int)
    requires
        0 <= col < s.len(),
    ensures
        ({
            let r = spec_word_end_forward(s, col);
            &&& col < r <= s.len()
            &&& r < s.len() ==> !spec_is_space(s[r])
            &&& exists|m: int| #![trigger s[m]] col <= m <= r && {
                &&& spec_is_space(s[col]) ==> m == col
                &&& forall|k: int| col <= k < m ==> class_of(#[trigger] s[k]) == class_of(s[col])
                &&& (!spec_is_space(s[col]) && m < s.len()) ==> class_of(s[m]) != class_of(s[col])
                &&& forall|k: int| m <= k < r ==> spec_is_space(#[trigger] s[k])
            }
        }),
{
    let c = class_of(s[col]);
    let e = if c == crate::vim_buffer::ByteClass::Space { col } else { run_end(s, col, c) };
    if c != crate::vim_buffer::ByteClass::Space {
        lemma_run_end_bounds(s, col, c);
    }
    lemma_run_end_bounds(s, e, crate::vim_buffer::ByteClass::Space);
    let r = spec_word_end_forward(s, col);
    assert(r == run_end(s, e, crate::vim_buffer::ByteClass::Space));
    assert(col < r) by {
        if c == crate::vim_buffer::ByteClass::Space {
            assert(run_end(s, col, c) == run_end(s, col + 1, c));
            lemma_run_end_bounds(s, col + 1, c);
        } else {
            assert(run_end(s, col, c) == run_end(s, col + 1, c));
            lemma_run_end_bounds(s, col + 1, c);
        }
    }
    assert forall|k: int| e <= k < r implies spec_is_space(#[trigger] s[k]) by {
        assert(class_of(s[k]) == crate::vim_buffer::ByteClass::Space);
    }
    assert(r < s.len() ==> !spec_is_space(s[r])) by {
        if r < s.len() && spec_is_space(s[r]) {
            assert(class_of(s[r]) == crate::vim_buffer::ByteClass::Space);
        }
    }
    if e < s.len() {
        assert(col <= e <= r && {
            &&& spec_is_space(s[col]) ==> e == col
            &&& forall|k: int| col <= k < e ==> class_of(#[trigger] s[k]) == class_of(s[col])
            &&& (!spec_is_space(s[col]) && e < s.len()) ==> class_of(s[e]) != class_of(s[col])
            &&& forall|k: int| e <= k < r ==> spec_is_space(#[trigger] s[k])
        });
    } else {
        assert(e == s.len() && r == s.len());
        assert(col <= e <= r && {
            &&& spec_is_space(s[col]) ==> e == col
            &&& forall|k: int| col <= k < e ==> class_of(#[trigger] s[k]) == class_of(s[col])
            &&& (!spec_is_space(s[col]) && e < s.len()) ==> class_of(s[e]) != class_of(s[col])
            &&& forall|k: int| e <= k < r ==> spec_is_space(#[trigger] s[k])
        });
    }
}

/// A candidate is offered for a non-empty typed text exactly when its
/// lowercase form begins with the lowercase typed text (everything is
/// offered for an empty one).
pub proof fn law_candidate_is_prefix_match(candidate: Seq<char>, typed: Seq<char>)
    ensures
        spec_candidate_matches(candidate, typed) <==> (typed.len() == 0 || {
            let c = spec_to_lowercase(candidate);
            let t = spec_to_lowercase(typed);
            &&& t.len() <= c.len()
            &&& forall|k: int| 0 <= k < t.len() ==> #[trigger] c[k] == t[k]
        }),
{
    let c = spec_to_lowercase(candidate);
    let t = spec_to_lowercase(typed);
    if typed.len() > 0 {
        if t.len() <= c.len() && forall|k: int| 0 <= k < t.len() ==> #[trigger] c[k] == t[k] {
            assert(c.subrange(0, t.len() as int) =~= t);
        }
        if t.is_prefix_of(c) {
            assert forall|k: int| 0 <= k < t.len() implies #[trigger] c[k] == t[k] by {
                assert(c.subrange(0, t.len() as int)[k] == c[k]);
            }
        }
    }
}

/// `s` from `i` to `e` is a run of whole whitespace characters.
pub open spec fn spec_ws_chars(s: Seq<u8>, i: int, e: int) -> bool
    decreases (if e > i { e - i } else { 0 }),
{
    if i >= e {
        i == e
    } else {
        if spec_ws_len(s, i) > 0 { spec_ws_chars(s, i + spec_ws_len(s, i), e) } else { false }
    }
}

proof fn lemma_ws_prefix_chars(s: Seq<u8>, i: int)
    requires
        0 <= i <= s.len(),
    ensures
        spec_ws_chars(s, i, spec_ws_prefix_end(s, i)),
        forall|k: int| i <= k < spec_ws_prefix_end(s, i) && #[trigger] s[k] < 128 ==> (9 <= s[k] <= 13) || s[k] == 32,
    decreases s.len() - i,
{
    lemma_ws_prefix_bounds(s, i);
    if i < s.len() && spec_ws_len(s, i) > 0 {
        let w = spec_ws_len(s, i);
        lemma_ws_prefix_chars(s, i + w);
        assert forall|k: int| i <= k < spec_ws_prefix_end(s, i) && #[trigger] s[k] < 128 implies (9 <= s[k] <= 13) || s[k] == 32 by {
            if k < i + w && k > i {
                assert(s[k] >= 128);
            }
        }
    }
}

/// Enter copies the whole leading whitespace of the line: the copied text
/// is a prefix of the line made of whole whitespace characters (each of
/// its ASCII bytes is whitespace), and the line does not go on with
/// another whitespace character.
pub proof fn law_leading_ws_is_whole_run(line: Seq<u8>)
    ensures
        ({
            let ws = spec_leading_ws(line);
            &&& ws.len() <= line.len()
            &&& ws == line.subrange(0, ws.len() as int)
            &&& spec_ws_chars(line, 0, ws.len() as int)
            &&& forall|k: int| 0 <= k < ws.len() && #[trigger] line[k] < 128 ==> (9 <= line[k] <= 13) || line[k] == 32
            &&& spec_ws_len(line, ws.len() as int) == 0
        }),
{
    lemma_ws_prefix_bounds(line, 0);
    lemma_ws_prefix_chars(line, 0);
    let e = spec_ws_prefix_end(line, 0);
    lemma_ws_prefix_end_stops(line, 0);
    assert(spec_leading_ws(line).len() == e);
}

proof fn lemma_ws_prefix_end_stops(s: Seq<u8>, i: int)
    requires
        0 <= i <= s.len(),
    ensures
        spec_ws_len(s, spec_ws_prefix_end(s, i)) == 0,
    decreases s.len() - i,
{
    if i < s.len() && spec_ws_len(s, i) > 0 {
        lemma_ws_prefix_end_stops(s, i + spec_ws_len(s, i));
    }
}

/// The visual selection runs from the earlier of anchor and cursor to the
/// later one, in (row, column) order: its ends are the two positions, its
/// start at or before its end.
pub proof fn law_visual_range_ordered(anchor: (usize, usize), cursor: (usize, usize))
    ensures
        ({
            let (sr, sc, er, ec) = spec_visual_range(anchor, cursor);
            &&& sr < er || (sr == er && sc <= ec)
            &&& ((sr, sc) == anchor && (er, ec) == cursor) || ((sr, sc) == cursor && (er, ec) == anchor)
        }),
{
}

} // verus!
