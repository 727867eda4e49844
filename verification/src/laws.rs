use vstd::prelude::*;
use vstd::utf8::{encode_scalar, encode_utf8};
use crate::action::Overlay;
use crate::field_edit::{spec_insert, spec_remove_char, spec_char_end, spec_char_width, spec_strip_newlines, spec_left_steps, spec_right_steps};
use crate::history::{spec_pushed, UNDO_STACK_MAX};
use crate::http_client::{spec_curl_parts, spec_curl_url, spec_enabled_headers, spec_shell_escape, spec_percent_encode, spec_pct_char, spec_pct_bytes, spec_hex_digit, spec_is_ascii_alnum};
use crate::model::{Header, HttpMethod, Request, Response, response_eqv, spec_next_method, spec_any_body};
use crate::overlay::{spec_after_backspace, spec_after_input, spec_insert_var, spec_var_index, spec_vars, lemma_var_index_bounds};
use crate::viewport::{spec_follow, spec_hits, spec_line_hits, spec_positions_below};
use crate::strutil::spec_to_lowercase;
use crate::navigation::{spec_cycle_next, spec_cycle_prev, spec_focus_up, spec_focus_down, RequestFocus, RequestTab};
use crate::autocomplete::{
    CompletionSpec, spec_completion, spec_occurs_at, spec_rfind, spec_rfind_below, spec_contains,
    spec_open_var, spec_open_chain, spec_close_ref, spec_env_case, spec_chain_parts, lemma_rfind_below_bounds,
};
use crate::vim_buffer::{spec_find_from, lemma_find_from_bounds, spec_line_count};
use crate::body_edit::spec_line_steps;
use crate::collections::{TreeCollection, spec_tree_rows, spec_request_rows, spec_listed};
use crate::app_state::{AppState, Effect, spec_completed, spec_recorded, RESPONSE_HISTORY_MAX};
use crate::cache::{CacheEntry, spec_upsert, spec_evict, lemma_upsert_newest, lemma_evict_keeps_newest};
use crate::chain::{spec_cache_key, spec_active_name};

verus! {

/// Undo gives back what was recorded last: after recording `s`, the
/// newest snapshot to undo is `s`, and the history stays within its cap.
pub proof fn law_undo_gives_back_recorded<S>(u: Seq<S>, s: S)
    requires
        u.len() <= UNDO_STACK_MAX,
    ensures
        spec_pushed(u, s).len() > 0,
        spec_pushed(u, s).last() == s,
        spec_pushed(u, s).len() <= UNDO_STACK_MAX,
{
}

/// Redo gives back what undo replaced: the text current at the undo is
/// the newest snapshot to redo.
pub proof fn law_redo_gives_back_undone<S>(redo: Seq<S>, current: S)
    ensures
        redo.push(current).last() == current,
        redo.push(current).drop_last() == redo,
{
    assert(redo.push(current).drop_last() =~= redo);
}

/// Cycling the method seven times comes back to it, and no two methods
/// share a successor.
pub proof fn law_method_cycle(m: HttpMethod, n: HttpMethod)
    ensures
        spec_next_method(spec_next_method(spec_next_method(spec_next_method(
            spec_next_method(spec_next_method(spec_next_method(m))))))) == m,
        spec_next_method(m) == spec_next_method(n) ==> m == n,
{
}

/// The lead byte of a character's encoding says how long the encoding is.
pub proof fn lemma_lead_width(c: char)
    ensures
        spec_char_width(encode_scalar(c as u32)[0]) == encode_scalar(c as u32).len(),
{
    let v = c as u32;
    vstd::utf8::char_is_scalar(c);
    if vstd::utf8::has_width_1_encoding(v) {
        let b = (v & 0x7F) as u8;
        assert(b < 0xc0) by (bit_vector)
            requires
                b == (v & 0x7F) as u8;
    } else if vstd::utf8::has_width_2_encoding(v) {
        let b = 0xC0 | ((v >> 6) & 0x1F) as u8;
        assert(0xc0 <= b < 0xe0) by (bit_vector)
            requires
                b == 0xC0 | ((v >> 6) & 0x1F) as u8;
    } else if vstd::utf8::has_width_3_encoding(v) {
        let b = 0xE0 | ((v >> 12) & 0x0F) as u8;
        assert(0xe0 <= b < 0xf0) by (bit_vector)
            requires
                b == 0xE0 | ((v >> 12) & 0x0F) as u8;
    } else {
        let b = 0xF0 | ((v >> 18) & 0x7) as u8;
        assert(0xf0 <= b) by (bit_vector)
            requires
                b == 0xF0 | ((v >> 18) & 0x7) as u8;
    }
}

/// Typing a character into a field and deleting it again with backspace
/// gives back the text: backspace removes the whole character typed.
pub proof fn law_insert_then_remove(s: Seq<u8>, i: int, c: char)
    requires
        0 <= i <= s.len(),
    ensures
        spec_remove_char(spec_insert(s, i, encode_scalar(c as u32)), i) == s,
{
    let e = encode_scalar(c as u32);
    let t = spec_insert(s, i, e);
    lemma_lead_width(c);
    assert(t[i] == e[0]);
    assert(spec_char_end(t, i) == i + e.len());
    assert(t.subrange(0, i) =~= s.subrange(0, i));
    assert(t.subrange(i + e.len(), t.len() as int) =~= s.subrange(i, s.len() as int));
    assert(spec_remove_char(t, i) =~= s);
}

/// Following the cursor keeps it on screen: after the scroll offset
/// follows a position, the position lies within the visible rows (for
/// positions an offset can hold).
pub proof fn law_follow_keeps_visible(scroll: u16, pos: usize, visible: u16)
    requires
        visible > 0,
        pos <= u16::MAX,
    ensures
        spec_follow(scroll, pos, visible) <= pos < spec_follow(scroll, pos, visible) + visible,
{
}

/// Some enabled header of `hs` has this name and value.
pub open spec fn spec_from_enabled_header(hs: Seq<Header>, h: (Seq<char>, Seq<char>)) -> bool {
    exists|j: int| 0 <= j < hs.len() && (#[trigger] hs[j]).enabled && hs[j].name@ == h.0 && hs[j].value@ == h.1
}

/// Only enabled headers are sent, with their names and values.
pub proof fn law_only_enabled_headers_sent(hs: Seq<Header>)
    ensures
        forall|i: int| 0 <= i < spec_enabled_headers(hs).len()
            ==> spec_from_enabled_header(hs, #[trigger] spec_enabled_headers(hs)[i]),
    decreases hs.len(),
{
    if hs.len() > 0 {
        law_only_enabled_headers_sent(hs.drop_last());
        let rest = spec_enabled_headers(hs.drop_last());
        assert forall|i: int| 0 <= i < spec_enabled_headers(hs).len()
            implies spec_from_enabled_header(hs, #[trigger] spec_enabled_headers(hs)[i]) by {
            if i < rest.len() {
                assert(spec_enabled_headers(hs)[i] == rest[i]);
                assert(spec_from_enabled_header(hs.drop_last(), rest[i]));
                let j = choose|j: int| 0 <= j < hs.drop_last().len() && (#[trigger] hs.drop_last()[j]).enabled
                    && hs.drop_last()[j].name@ == rest[i].0 && hs.drop_last()[j].value@ == rest[i].1;
                assert(hs[j] == hs.drop_last()[j]);
            } else {
                assert(hs[hs.len() - 1] == hs.last());
            }
        }
    }
}

/// Typing a character into a name dialog and deleting it again gives back
/// the name.
pub proof fn law_overlay_type_then_delete(o: Overlay, typed: Overlay, back: Overlay, c: char)
    requires
        o is NewCollection || o is RenameRequest,
        spec_after_input(o, typed, c),
        spec_after_backspace(typed, back),
    ensures
        match o {
            Overlay::NewCollection { name } => back matches Overlay::NewCollection { name: m } && m@ == name@,
            Overlay::RenameRequest { name } => back matches Overlay::RenameRequest { name: m } && m@ == name@,
            _ => true,
        },
{
    match o {
        Overlay::NewCollection { name } => {
            assert(name@.push(c).drop_last() =~= name@);
        },
        Overlay::RenameRequest { name } => {
            assert(name@.push(c).drop_last() =~= name@);
        },
        _ => {},
    }
}

/// Setting a variable in the environment editor: afterwards the variable
/// holds the value (in place when it existed, last when new), and every
/// other variable is as it was.
pub proof fn law_set_variable(vars: Seq<(String, String)>, key: Seq<char>, value: Seq<char>)
    ensures
        ({
            let r = spec_insert_var(vars, key, value);
            let j = spec_var_index(vars, key);
            let at = if j >= 0 { j } else { vars.len() as int };
            &&& r.len() == (if j >= 0 { vars.len() as int } else { vars.len() + 1int })
            &&& r[at] == (key, value)
            &&& forall|k: int| 0 <= k < vars.len() && k != at ==> #[trigger] r[k] == spec_vars(vars)[k]
        }),
{
    lemma_var_index_bounds(vars, key);
}

/// Positions without an occurrence do not change the last occurrence.
pub proof fn lemma_rfind_below_skips(s: Seq<u8>, pat: Seq<u8>, m: int, n: int)
    requires
        0 <= m <= n,
        forall|j: int| m <= j < n ==> !spec_occurs_at(s, pat, j),
    ensures
        spec_rfind_below(s, pat, n) == spec_rfind_below(s, pat, m),
    decreases n - m,
{
    if m < n {
        lemma_rfind_below_skips(s, pat, m, n - 1);
    }
}

/// `s` has none of the bytes `a` and `b`.
pub open spec fn spec_avoids(s: Seq<u8>, a: u8, b: u8) -> bool {
    forall|k: int| 0 <= k < s.len() ==> #[trigger] s[k] != a && s[k] != b
}

/// A pattern that starts with `{` does not occur inside text without one.
pub proof fn lemma_no_brace_pair_in(t: Seq<u8>, mid: Seq<u8>, p: Seq<u8>, pat: Seq<u8>)
    requires
        pat.len() >= 1,
        pat[0] == 123u8,
        spec_avoids(p, 123u8, 125u8),
    ensures
        forall|j: int| t.len() + mid.len() <= j <= (t + mid + p).len() ==> !spec_occurs_at(t + mid + p, pat, j),
{
    let s = t + mid + p;
    assert forall|j: int| t.len() + mid.len() <= j <= s.len() implies !spec_occurs_at(s, pat, j) by {
        if spec_occurs_at(s, pat, j) {
            assert(s.subrange(j, j + pat.len())[0] == pat[0]);
            assert(s[j] == p[j - t.len() - mid.len()]);
        }
    }
}

/// Typing `{{` and then a name opens completion of variables whose names
/// start with the typed part, as long as the part holds no brace and does
/// not start with `@` (which asks for a request instead).
pub proof fn law_variable_completion(t: Seq<u8>, p: Seq<u8>)
    requires
        spec_avoids(p, 123u8, 125u8),
        p.len() == 0 || p[0] != 64u8,
    ensures
        spec_completion(t + spec_open_var() + p) == CompletionSpec::Env(p),
{
    let s = t + spec_open_var() + p;
    let n = t.len() as int;
    lemma_no_brace_pair_in(t, spec_open_var(), p, spec_open_var());
    lemma_no_brace_pair_in(t, spec_open_var(), p, spec_open_chain());
    // "{{" at n, and at n + 1 only if p starts with '{'
    assert(spec_occurs_at(s, spec_open_var(), n)) by {
        assert(s.subrange(n, n + 2) =~= spec_open_var());
    }
    assert(!spec_occurs_at(s, spec_open_var(), n + 1)) by {
        if spec_occurs_at(s, spec_open_var(), n + 1) {
            assert(s.subrange(n + 1, n + 3)[1] == s[n + 2]);
            assert(s[n + 2] == p[0]);
        }
    }
    lemma_rfind_below_skips(s, spec_open_var(), n + 2, s.len() + 1int);
    lemma_rfind_below_skips(s, spec_open_var(), n + 1, n + 2);
    assert(spec_rfind(s, spec_open_var()) == n);
    // "{{@" not at n or n + 1, nor later
    assert(!spec_occurs_at(s, spec_open_chain(), n)) by {
        if spec_occurs_at(s, spec_open_chain(), n) {
            assert(s.subrange(n, n + 3)[2] == s[n + 2]);
            assert(s[n + 2] == p[0]);
        }
    }
    assert(!spec_occurs_at(s, spec_open_chain(), n + 1)) by {
        if spec_occurs_at(s, spec_open_chain(), n + 1) {
            assert(s.subrange(n + 1, n + 4)[1] == s[n + 2]);
            assert(s[n + 2] == p[0]);
        }
    }
    lemma_rfind_below_skips(s, spec_open_chain(), n + 2, s.len() + 1int);
    lemma_rfind_below_skips(s, spec_open_chain(), n, n + 2);
    lemma_rfind_below_bounds(s, spec_open_chain(), n);
    assert(spec_rfind(s, spec_open_chain()) < n);
    // the typed part holds no "}}"
    assert(s.subrange(n + 2, s.len() as int) =~= p);
    assert(!spec_contains(p, spec_close_ref())) by {
        if spec_contains(p, spec_close_ref()) {
            let i = choose|i: int| spec_occurs_at(p, spec_close_ref(), i);
            assert(p.subrange(i, i + 2)[0] == p[i]);
        }
    }
    assert(spec_env_case(s));
}

/// Typing `{{@` and then a name opens completion of request names that
/// start with the typed part, as long as the part holds no brace, `[` or
/// `.` (which start a field path).
pub proof fn law_request_completion(t: Seq<u8>, name: Seq<u8>)
    requires
        spec_avoids(name, 123u8, 125u8),
        spec_avoids(name, 91u8, 46u8),
    ensures
        spec_completion(t + spec_open_chain() + name) == CompletionSpec::RequestName(name),
{
    let s = t + spec_open_chain() + name;
    let n = t.len() as int;
    lemma_no_brace_pair_in(t, spec_open_chain(), name, spec_open_var());
    lemma_no_brace_pair_in(t, spec_open_chain(), name, spec_open_chain());
    assert(spec_occurs_at(s, spec_open_var(), n)) by {
        assert(s.subrange(n, n + 2) =~= spec_open_var());
    }
    assert(spec_occurs_at(s, spec_open_chain(), n)) by {
        assert(s.subrange(n, n + 3) =~= spec_open_chain());
    }
    assert(!spec_occurs_at(s, spec_open_var(), n + 1)) by {
        if spec_occurs_at(s, spec_open_var(), n + 1) {
            assert(s.subrange(n + 1, n + 3)[1] == s[n + 2]);
        }
    }
    assert(!spec_occurs_at(s, spec_open_var(), n + 2)) by {
        if spec_occurs_at(s, spec_open_var(), n + 2) {
            assert(s.subrange(n + 2, n + 4)[0] == s[n + 2]);
        }
    }
    assert(!spec_occurs_at(s, spec_open_chain(), n + 1)) by {
        if spec_occurs_at(s, spec_open_chain(), n + 1) {
            assert(s.subrange(n + 1, n + 4)[1] == s[n + 2]);
        }
    }
    assert(!spec_occurs_at(s, spec_open_chain(), n + 2)) by {
        if spec_occurs_at(s, spec_open_chain(), n + 2) {
            assert(s.subrange(n + 2, n + 5)[0] == s[n + 2]);
        }
    }
    lemma_rfind_below_skips(s, spec_open_var(), n + 3, s.len() + 1int);
    lemma_rfind_below_skips(s, spec_open_var(), n + 1, n + 3);
    lemma_rfind_below_skips(s, spec_open_chain(), n + 3, s.len() + 1int);
    lemma_rfind_below_skips(s, spec_open_chain(), n + 1, n + 3);
    assert(spec_rfind(s, spec_open_var()) == n);
    assert(spec_rfind(s, spec_open_chain()) == n);
    assert(!spec_env_case(s));
    let after = s.subrange(n + 3, s.len() as int);
    assert(after =~= name);
    assert(!spec_contains(name, spec_close_ref())) by {
        if spec_contains(name, spec_close_ref()) {
            let i = choose|i: int| spec_occurs_at(name, spec_close_ref(), i);
            assert(name.subrange(i, i + 2)[0] == name[i]);
        }
    }
    lemma_find_from_bounds(name, 0, 91u8);
    lemma_find_from_bounds(name, 0, 46u8);
    if spec_find_from(name, 0, 91u8) < name.len() {
        assert(name[spec_find_from(name, 0, 91u8)] == 91u8);
    }
    if spec_find_from(name, 0, 46u8) < name.len() {
        assert(name[spec_find_from(name, 0, 46u8)] == 46u8);
    }
    assert(spec_chain_parts(name) == CompletionSpec::RequestName(name));
}

pub proof fn lemma_positions_are_occurrences(s: Seq<u8>, q: Seq<u8>, n: int)
    ensures
        forall|k: int| 0 <= k < spec_positions_below(s, q, n).len() ==>
            spec_occurs_at(s, q, #[trigger] spec_positions_below(s, q, n)[k]) && spec_positions_below(s, q, n)[k] < n,
    decreases n,
{
    if n > 0 {
        lemma_positions_are_occurrences(s, q, n - 1);
        let a = spec_positions_below(s, q, n - 1);
        assert forall|k: int| 0 <= k < spec_positions_below(s, q, n).len() implies
            spec_occurs_at(s, q, #[trigger] spec_positions_below(s, q, n)[k]) && spec_positions_below(s, q, n)[k] < n by {
            if k < a.len() {
                assert(spec_positions_below(s, q, n)[k] == a[k]);
            }
        }
    }
}

/// The lowercase query occurs at byte `col` of the lowercase line `row`.
pub open spec fn spec_is_hit(lines: Seq<String>, query: Seq<char>, h: (int, int)) -> bool {
    &&& 0 <= h.0 < lines.len()
    &&& spec_occurs_at(
        vstd::utf8::encode_utf8(spec_to_lowercase(lines[h.0]@)),
        vstd::utf8::encode_utf8(spec_to_lowercase(query)),
        h.1,
    )
}

/// Search finds only real matches: each hit is a place where the
/// lowercase query occurs in the lowercase line.
pub proof fn law_search_hits_are_matches(lines: Seq<String>, query: Seq<char>, n: int)
    requires
        n <= lines.len(),
    ensures
        forall|i: int| 0 <= i < spec_hits(lines, query, n).len() ==> spec_is_hit(lines, query, #[trigger] spec_hits(lines, query, n)[i]),
    decreases n,
{
    if n > 0 {
        law_search_hits_are_matches(lines, query, n - 1);
        let before = spec_hits(lines, query, n - 1);
        let l = vstd::utf8::encode_utf8(spec_to_lowercase(lines[n - 1]@));
        let q = vstd::utf8::encode_utf8(spec_to_lowercase(query));
        lemma_positions_are_occurrences(l, q, l.len() as int);
        let here = spec_line_hits(lines[n - 1]@, query, n - 1);
        assert forall|i: int| 0 <= i < spec_hits(lines, query, n).len() implies spec_is_hit(lines, query, #[trigger] spec_hits(lines, query, n)[i]) by {
            if i < before.len() {
                assert(spec_hits(lines, query, n)[i] == before[i]);
            } else {
                let k = i - before.len();
                assert(spec_hits(lines, query, n)[i] == here[k]);
                assert(here[k] == (n - 1, spec_positions_below(l, q, l.len() as int)[k]));
            }
        }
    }
}

/// Stepping to the next entry of a wrapping list and back again returns to
/// where one was; so does stepping back and then forward.
pub proof fn law_cycle_round_trip(i: int, len: int)
    requires
        0 <= i < len,
    ensures
        spec_cycle_prev(spec_cycle_next(i, len), len) == i,
        spec_cycle_next(spec_cycle_prev(i, len), len) == i,
        0 <= spec_cycle_next(i, len) < len,
        0 <= spec_cycle_prev(i, len) < len,
{
    if i + 1 < len {
        assert((i + 1) % len == i + 1) by (nonlinear_arith)
            requires
                0 <= i + 1 < len;
    } else {
        assert((i + 1) % len == 0) by (nonlinear_arith)
            requires
                i + 1 == len,
                len > 0;
    }
    if i == 0 {
        assert((len - 1 + 1) % len == 0) by (nonlinear_arith)
            requires
                len > 0;
    } else {
        assert((i - 1 + 1) % len == i) by (nonlinear_arith)
            requires
                0 <= i < len;
    }
}

/// Moving the focus down into a list and back up returns to where it was,
/// unless it was already on the last row.
pub proof fn law_focus_down_then_up(focus: RequestFocus, tab: RequestTab, count: usize)
    requires
        spec_focus_down(focus, tab, count) != focus,
    ensures
        spec_focus_up(spec_focus_down(focus, tab, count)) == focus,
{
}

/// Going to the next search hit and then the previous one returns to the
/// same hit.
pub proof fn law_search_next_then_prev(i: int, len: int)
    requires
        0 <= i < len,
    ensures
        ((i + 1) % len + len - 1) % len == i,
{
    if i + 1 < len {
        assert((i + 1) % len == i + 1) by (nonlinear_arith)
            requires
                0 <= i + 1 < len;
        assert((i + 1 + len - 1) % len == i) by (nonlinear_arith)
            requires
                0 <= i < len;
    } else {
        assert((i + 1) % len == 0) by (nonlinear_arith)
            requires
                i + 1 == len,
                len > 0;
        assert((0 + len - 1) % len == i) by (nonlinear_arith)
            requires
                i == len - 1,
                len > 0;
    }
}

/// `s` holds no line feed and no carriage return.
pub open spec fn spec_single_line(s: Seq<u8>) -> bool {
    forall|k: int| 0 <= k < s.len() ==> #[trigger] s[k] != 10u8 && s[k] != 13u8
}

pub proof fn lemma_strip_newlines_single_line(t: Seq<u8>)
    ensures
        spec_single_line(spec_strip_newlines(t)),
    decreases t.len(),
{
    if t.len() > 0 {
        lemma_strip_newlines_single_line(t.drop_last());
        let rest = spec_strip_newlines(t.drop_last());
        if !(t.last() == 10 || t.last() == 13) {
            assert forall|k: int| 0 <= k < rest.push(t.last()).len() implies #[trigger] rest.push(t.last())[k] != 10u8
                && rest.push(t.last())[k] != 13u8 by {
                if k < rest.len() {
                    assert(rest.push(t.last())[k] == rest[k]);
                }
            }
        }
    }
}

/// Pasting into a single-line field keeps it on one line, whatever the
/// pasted text holds.
pub proof fn law_paste_keeps_single_line(s: Seq<u8>, i: int, t: Seq<u8>)
    requires
        0 <= i <= s.len(),
        spec_single_line(s),
    ensures
        spec_single_line(spec_insert(s, i, spec_strip_newlines(t))),
{
    lemma_strip_newlines_single_line(t);
    let c = spec_strip_newlines(t);
    let r = spec_insert(s, i, c);
    assert forall|k: int| 0 <= k < r.len() implies #[trigger] r[k] != 10u8 && r[k] != 13u8 by {
        if k < i {
            assert(r[k] == s[k]);
        } else if k < i + c.len() {
            assert(r[k] == c[k - i]);
        } else {
            assert(r[k] == s[k - c.len()]);
        }
    }
}

/// How a POSIX shell reads a word made of single-quoted parts and
/// backslash escapes (`quoted`: inside single quotes): inside quotes each
/// character stands for itself up to the closing quote; outside, a quote
/// opens quotes, a backslash takes the next character literally, and any
/// other character stands for itself.
pub open spec fn spec_shell_read(w: Seq<char>, quoted: bool) -> Seq<char>
    decreases w.len(),
{
    if w.len() == 0 {
        Seq::empty()
    } else if quoted {
        if w[0] == '\'' {
            spec_shell_read(w.drop_first(), false)
        } else {
            seq![w[0]] + spec_shell_read(w.drop_first(), true)
        }
    } else if w[0] == '\'' {
        spec_shell_read(w.drop_first(), true)
    } else if w[0] == '\\' && w.len() >= 2 {
        seq![w[1]] + spec_shell_read(w.subrange(2, w.len() as int), false)
    } else {
        seq![w[0]] + spec_shell_read(w.drop_first(), false)
    }
}

/// Inside single quotes, an escaped text reads back as the text, and
/// reading goes on inside quotes after it.
pub proof fn lemma_shell_read_escaped(s: Seq<char>, t: Seq<char>)
    ensures
        spec_shell_read(spec_shell_escape(s) + t, true) == s + spec_shell_read(t, true),
    decreases s.len(),
{
    if s.len() == 0 {
        assert(spec_shell_escape(s) + t =~= t);
        assert(s + spec_shell_read(t, true) =~= spec_shell_read(t, true));
    } else {
        let c = s.last();
        let piece: Seq<char> = if c == '\'' { seq!['\'', '\\', '\'', '\''] } else { seq![c] };
        assert(spec_shell_escape(s) == spec_shell_escape(s.drop_last()) + piece);
        assert(spec_shell_escape(s) + t =~= spec_shell_escape(s.drop_last()) + (piece + t));
        lemma_shell_read_escaped(s.drop_last(), piece + t);
        if c == '\'' {
            let w1 = piece + t;
            assert(w1[0] == '\'');
            let w2 = w1.drop_first();
            assert(w2 =~= seq!['\\', '\'', '\''] + t);
            assert(w2[0] == '\\' && w2.len() >= 2 && w2[1] == '\'');
            let w3 = w2.subrange(2, w2.len() as int);
            assert(w3 =~= seq!['\''] + t);
            assert(w3[0] == '\'');
            assert(w3.drop_first() =~= t);
            assert(spec_shell_read(w3, false) == spec_shell_read(t, true));
            assert(spec_shell_read(w2, false) == seq![w2[1]] + spec_shell_read(w3, false));
            assert(spec_shell_read(w1, true) == spec_shell_read(w2, false));
            assert(spec_shell_read(w1, true) == seq!['\''] + spec_shell_read(t, true));
        } else {
            let w1 = piece + t;
            assert(w1[0] == c);
            assert(w1.drop_first() =~= t);
            assert(spec_shell_read(w1, true) == seq![c] + spec_shell_read(t, true));
        }
        assert(s.drop_last() + (seq![c] + spec_shell_read(t, true)) =~= s + spec_shell_read(t, true));
    }
}

/// A word that `shell_escape` wrote inside single quotes (as `to_curl`
/// writes each value) reads back, in a POSIX shell, as the original text.
pub proof fn law_shell_escape_reads_back(s: Seq<char>)
    ensures
        spec_shell_read(seq!['\''] + spec_shell_escape(s) + seq!['\''], false) == s,
{
    let w = seq!['\''] + spec_shell_escape(s) + seq!['\''];
    assert(w[0] == '\'');
    assert(w.drop_first() =~= spec_shell_escape(s) + seq!['\'']);
    lemma_shell_read_escaped(s, seq!['\'']);
    let q: Seq<char> = seq!['\''];
    assert(q[0] == '\'');
    assert(q.drop_first() =~= Seq::<char>::empty());
    assert(spec_shell_read(q, true) == spec_shell_read(Seq::<char>::empty(), false));
    assert(s + Seq::<char>::empty() =~= s);
}

/// The characters `percent_encode` writes: ASCII letters and digits,
/// `-`, `.`, `_`, `~` and `%`.
pub open spec fn spec_pct_alphabet(c: char) -> bool {
    spec_is_ascii_alnum(c) || c == '-' || c == '.' || c == '_' || c == '~' || c == '%'
}

proof fn lemma_hex_digit_alnum(n: int)
    requires
        0 <= n < 16,
    ensures
        spec_is_ascii_alnum(spec_hex_digit(n)),
{
}

proof fn lemma_pct_bytes_alphabet(bs: Seq<u8>)
    ensures
        forall|i: int| 0 <= i < spec_pct_bytes(bs).len() ==> spec_pct_alphabet(#[trigger] spec_pct_bytes(bs)[i]),
    decreases bs.len(),
{
    if bs.len() > 0 {
        lemma_pct_bytes_alphabet(bs.drop_last());
        let b = bs.last();
        lemma_hex_digit_alnum((b / 16) as int);
        lemma_hex_digit_alnum((b % 16) as int);
        let tail = seq!['%', spec_hex_digit((b / 16) as int), spec_hex_digit((b % 16) as int)];
        let head = spec_pct_bytes(bs.drop_last());
        assert forall|i: int| 0 <= i < spec_pct_bytes(bs).len() implies spec_pct_alphabet(#[trigger] spec_pct_bytes(bs)[i]) by {
            if i < head.len() {
                assert(spec_pct_bytes(bs)[i] == head[i]);
            } else {
                assert(spec_pct_bytes(bs)[i] == tail[i - head.len()]);
            }
        }
    }
}

/// Percent-encoding writes only its alphabet: letters, digits, `-`, `.`,
/// `_`, `~` and the `%` of an escape, so no `&`, `=`, `#`, `+` or space is
/// left to split or end the query string.
pub proof fn law_percent_encode_alphabet(s: Seq<char>)
    ensures
        forall|i: int| 0 <= i < spec_percent_encode(s).len() ==> spec_pct_alphabet(#[trigger] spec_percent_encode(s)[i]),
    decreases s.len(),
{
    if s.len() > 0 {
        law_percent_encode_alphabet(s.drop_last());
        let c = s.last();
        let head = spec_percent_encode(s.drop_last());
        let tail = spec_pct_char(c);
        lemma_pct_bytes_alphabet(encode_scalar(c as u32));
        assert forall|i: int| 0 <= i < tail.len() implies spec_pct_alphabet(#[trigger] tail[i]) by {
            if !(c == ' ' || c == '&' || c == '=' || c == '+' || c == '#' || c == '%'
                || spec_is_ascii_alnum(c) || c == '-' || c == '.' || c == '_' || c == '~') {
                assert(tail == spec_pct_bytes(encode_scalar(c as u32)));
            }
        }
        assert forall|i: int| 0 <= i < spec_percent_encode(s).len() implies spec_pct_alphabet(#[trigger] spec_percent_encode(s)[i]) by {
            if i < head.len() {
                assert(spec_percent_encode(s)[i] == head[i]);
            } else {
                assert(spec_percent_encode(s)[i] == tail[i - head.len()]);
            }
        }
    }
}

/// Row `a` of the collections tree comes before row `b`: an earlier
/// collection, or the same collection with its header before its requests
/// and requests in their order.
pub open spec fn spec_row_before(a: (int, Option<int>), b: (int, Option<int>)) -> bool {
    a.0 < b.0 || (a.0 == b.0 && match (a.1, b.1) {
        (None, Some(_)) => true,
        (Some(x), Some(y)) => x < y,
        _ => false,
    })
}

proof fn lemma_request_rows_sorted(shown: Seq<bool>, has_filter: bool, ci: int, n: int)
    requires
        n <= shown.len(),
    ensures
        forall|i: int| 0 <= i < spec_request_rows(shown, has_filter, ci, n).len() ==> {
            let r = #[trigger] spec_request_rows(shown, has_filter, ci, n)[i];
            r.0 == ci && r.1.is_some() && 0 <= r.1.unwrap() < n
        },
        forall|i: int, j: int| 0 <= i < j < spec_request_rows(shown, has_filter, ci, n).len() ==>
            spec_row_before(#[trigger] spec_request_rows(shown, has_filter, ci, n)[i], #[trigger] spec_request_rows(shown, has_filter, ci, n)[j]),
    decreases n,
{
    if n > 0 {
        lemma_request_rows_sorted(shown, has_filter, ci, n - 1);
    }
}

/// The rows of the collections tree come in order: collection by
/// collection, each header before its requests, requests in their order,
/// so no row appears twice.
pub proof fn law_tree_rows_ordered(tree: Seq<TreeCollection>, has_filter: bool, n: int)
    requires
        n <= tree.len(),
    ensures
        forall|i: int| 0 <= i < spec_tree_rows(tree, has_filter, n).len() ==>
            0 <= (#[trigger] spec_tree_rows(tree, has_filter, n)[i]).0 < n,
        forall|i: int, j: int| 0 <= i < j < spec_tree_rows(tree, has_filter, n).len() ==>
            spec_row_before(#[trigger] spec_tree_rows(tree, has_filter, n)[i], #[trigger] spec_tree_rows(tree, has_filter, n)[j]),
    decreases n,
{
    if n > 0 {
        law_tree_rows_ordered(tree, has_filter, n - 1);
        let c = tree[n - 1];
        let before = spec_tree_rows(tree, has_filter, n - 1);
        if spec_listed(c, has_filter) {
            let wh = before.push((n - 1, None));
            let rq = spec_request_rows(c.shown@, has_filter, n - 1, c.shown@.len() as int);
            lemma_request_rows_sorted(c.shown@, has_filter, n - 1, c.shown@.len() as int);
            let all = spec_tree_rows(tree, has_filter, n);
            let full = if c.expanded { wh + rq } else { wh };
            assert(all == full);
            assert forall|i: int| 0 <= i < all.len() implies 0 <= (#[trigger] all[i]).0 < n by {
                if i < before.len() {
                    assert(all[i] == before[i]);
                } else if i == before.len() {
                    assert(all[i] == (n - 1, Option::<int>::None));
                } else {
                    assert(all[i] == rq[i - wh.len()]);
                }
            }
            assert forall|i: int, j: int| 0 <= i < j < all.len() implies spec_row_before(#[trigger] all[i], #[trigger] all[j]) by {
                if j < before.len() {
                    assert(all[i] == before[i] && all[j] == before[j]);
                } else if j == before.len() {
                    assert(all[i] == before[i]);
                    assert(all[j] == (n - 1, Option::<int>::None));
                } else {
                    assert(all[j] == rq[j - wh.len()]);
                    if i < before.len() {
                        assert(all[i] == before[i]);
                    } else if i == before.len() {
                        assert(all[i] == (n - 1, Option::<int>::None));
                    } else {
                        assert(all[i] == rq[i - wh.len()]);
                    }
                }
            }
        }
    }
}

/// The value of a hexadecimal digit (either case), `-1` for another character.
pub open spec fn spec_hex_value(c: char) -> int {
    let v = c as int;
    if 48 <= v <= 57 { v - 48 } else if 65 <= v <= 70 { v - 55 } else if 97 <= v <= 102 { v - 87 } else { -1 }
}

/// Percent-decoding into bytes: `%` and two hexadecimal digits give one
/// byte; any other character gives its UTF-8 bytes.
pub open spec fn spec_pct_decode(t: Seq<char>) -> Seq<u8>
    decreases t.len(),
{
    if t.len() == 0 {
        Seq::empty()
    } else if t[0] == '%' && t.len() >= 3 && spec_hex_value(t[1]) >= 0 && spec_hex_value(t[2]) >= 0 {
        seq![(spec_hex_value(t[1]) * 16 + spec_hex_value(t[2])) as u8] + spec_pct_decode(t.subrange(3, t.len() as int))
    } else {
        encode_scalar(t[0] as u32) + spec_pct_decode(t.drop_first())
    }
}

proof fn lemma_hex_round_trip(n: int)
    requires
        0 <= n < 16,
    ensures
        spec_hex_value(spec_hex_digit(n)) == n,
{
}

/// One `%XX` escape decodes to its byte.
proof fn lemma_decode_escape(b: u8, t: Seq<char>)
    ensures
        spec_pct_decode(seq!['%', spec_hex_digit((b / 16) as int), spec_hex_digit((b % 16) as int)] + t) == seq![b] + spec_pct_decode(t),
{
    let w = seq!['%', spec_hex_digit((b / 16) as int), spec_hex_digit((b % 16) as int)] + t;
    lemma_hex_round_trip((b / 16) as int);
    lemma_hex_round_trip((b % 16) as int);
    assert(w[0] == '%' && w[1] == spec_hex_digit((b / 16) as int) && w[2] == spec_hex_digit((b % 16) as int));
    assert(w.subrange(3, w.len() as int) =~= t);
    assert((b / 16) * 16 + b % 16 == b);
}

proof fn lemma_decode_pct_bytes(bs: Seq<u8>, t: Seq<char>)
    ensures
        spec_pct_decode(spec_pct_bytes(bs) + t) == bs + spec_pct_decode(t),
    decreases bs.len(),
{
    if bs.len() == 0 {
        assert(spec_pct_bytes(bs) + t =~= t);
        assert(bs + spec_pct_decode(t) =~= spec_pct_decode(t));
    } else {
        let b = bs.last();
        let trip = seq!['%', spec_hex_digit((b / 16) as int), spec_hex_digit((b % 16) as int)];
        assert(spec_pct_bytes(bs) + t =~= spec_pct_bytes(bs.drop_last()) + (trip + t));
        lemma_decode_pct_bytes(bs.drop_last(), trip + t);
        lemma_decode_escape(b, t);
        assert(bs.drop_last() + (seq![b] + spec_pct_decode(t)) =~= bs + spec_pct_decode(t));
    }
}

/// A character that stands for itself decodes to its UTF-8 bytes.
proof fn lemma_decode_plain(c: char, t: Seq<char>)
    requires
        c != '%',
    ensures
        spec_pct_decode(seq![c] + t) == encode_scalar(c as u32) + spec_pct_decode(t),
{
    assert((seq![c] + t)[0] == c);
    assert((seq![c] + t).drop_first() =~= t);
}

proof fn lemma_decode_pct_char(c: char, t: Seq<char>)
    ensures
        spec_pct_decode(spec_pct_char(c) + t) == encode_scalar(c as u32) + spec_pct_decode(t),
{
    if c == ' ' || c == '&' || c == '=' || c == '+' || c == '#' || c == '%' {
        let v = c as u32;
        let b: u8 = v as u8;
        assert(v <= 0x7F);
        assert(encode_scalar(v) == seq![b]) by {
            assert((v & 0x7F) as u8 == v as u8) by (bit_vector)
                requires
                    v <= 0x7F;
        }
        assert(spec_pct_char(c) == seq!['%', spec_hex_digit((b / 16) as int), spec_hex_digit((b % 16) as int)]);
        lemma_decode_escape(b, t);
    } else if spec_is_ascii_alnum(c) || c == '-' || c == '.' || c == '_' || c == '~' {
        lemma_decode_plain(c, t);
    } else {
        lemma_decode_pct_bytes(encode_scalar(c as u32), t);
    }
}

proof fn lemma_encode_utf8_last(s: Seq<char>)
    requires
        s.len() > 0,
    ensures
        encode_utf8(s) == encode_utf8(s.drop_last()) + encode_scalar(s.last() as u32),
    decreases s.len(),
{
    if s.len() == 1 {
        assert(s.drop_last() =~= Seq::<char>::empty());
        assert(s.drop_first() =~= Seq::<char>::empty());
        assert(encode_utf8(s) =~= encode_scalar(s[0] as u32) + encode_utf8(Seq::<char>::empty()));
        assert(encode_utf8(s) =~= encode_utf8(s.drop_last()) + encode_scalar(s.last() as u32));
    } else {
        lemma_encode_utf8_last(s.drop_first());
        assert(s.drop_first().drop_last() =~= s.drop_last().drop_first());
        assert(s.drop_last()[0] == s[0]);
        assert(s.drop_first().last() == s.last());
        assert(encode_utf8(s.drop_last()) == encode_scalar(s[0] as u32) + encode_utf8(s.drop_last().drop_first()));
        assert(encode_utf8(s) =~= encode_utf8(s.drop_last()) + encode_scalar(s.last() as u32));
    }
}

proof fn lemma_decode_encoded(s: Seq<char>, t: Seq<char>)
    ensures
        spec_pct_decode(spec_percent_encode(s) + t) == encode_utf8(s) + spec_pct_decode(t),
    decreases s.len(),
{
    if s.len() == 0 {
        assert(spec_percent_encode(s) + t =~= t);
        assert(encode_utf8(s) + spec_pct_decode(t) =~= spec_pct_decode(t));
    } else {
        let c = s.last();
        assert(spec_percent_encode(s) + t =~= spec_percent_encode(s.drop_last()) + (spec_pct_char(c) + t));
        lemma_decode_encoded(s.drop_last(), spec_pct_char(c) + t);
        lemma_decode_pct_char(c, t);
        lemma_encode_utf8_last(s);
        assert(encode_utf8(s.drop_last()) + (encode_scalar(c as u32) + spec_pct_decode(t)) =~= encode_utf8(s) + spec_pct_decode(t));
    }
}

/// Percent-decoding what `percent_encode` wrote gives back the UTF-8
/// bytes of the original text.
pub proof fn law_percent_encode_decodes_back(s: Seq<char>)
    ensures
        spec_pct_decode(spec_percent_encode(s)) == encode_utf8(s),
{
    lemma_decode_encoded(s, Seq::empty());
    assert(spec_percent_encode(s) + Seq::<char>::empty() =~= spec_percent_encode(s));
    assert(encode_utf8(s) + Seq::<u8>::empty() =~= encode_utf8(s));
}

/// In the command `to_curl` writes, the last word (the URL) reads back, in
/// a POSIX shell, as the URL with its path and query parameters filled in;
/// with a body, the part before it is `-d ` and a word that reads back as
/// the body.
pub proof fn law_curl_words_read_back(r: Request)
    ensures
        ({
            let ps = spec_curl_parts(r);
            &&& ps.len() >= 2
            &&& spec_shell_read(ps.last(), false) == spec_curl_url(r)
            &&& spec_any_body(r).is_some() ==> {
                let d = ps[ps.len() - 2];
                &&& d.subrange(0, 3) == "-d "@
                &&& spec_shell_read(d.subrange(3, d.len() as int), false) == spec_any_body(r).unwrap()
            }
        }),
{
    reveal_strlit("'");
    reveal_strlit("-d '");
    reveal_strlit("-d ");
    let ps = spec_curl_parts(r);
    let url = spec_curl_url(r);
    law_shell_escape_reads_back(url);
    assert("'"@ + spec_shell_escape(url) + "'"@ =~= seq!['\''] + spec_shell_escape(url) + seq!['\'']);
    assert(ps.last() == "'"@ + spec_shell_escape(url) + "'"@);
    if spec_any_body(r).is_some() {
        let b = spec_any_body(r).unwrap();
        law_shell_escape_reads_back(b);
        let d = ps[ps.len() - 2];
        assert(d == "-d '"@ + spec_shell_escape(b) + "'"@);
        assert(d.subrange(0, 3) =~= "-d "@);
        assert(d.subrange(3, d.len() as int) =~= seq!['\''] + spec_shell_escape(b) + seq!['\'']);
    }
}

/// A character `percent_encode` keeps as it is.
pub open spec fn spec_unreserved(c: char) -> bool {
    spec_is_ascii_alnum(c) || c == '-' || c == '.' || c == '_' || c == '~'
}

/// An upper-case hexadecimal digit.
pub open spec fn spec_upper_hex(c: char) -> bool {
    ('0' <= c <= '9') || ('A' <= c <= 'F')
}

/// `t` is a run of unreserved characters and `%XX` escapes with two
/// upper-case hexadecimal digits.
pub open spec fn spec_pct_shaped(t: Seq<char>) -> bool
    decreases t.len(),
{
    if t.len() == 0 {
        true
    } else if t[0] == '%' {
        t.len() >= 3 && spec_upper_hex(t[1]) && spec_upper_hex(t[2]) && spec_pct_shaped(t.subrange(3, t.len() as int))
    } else {
        spec_unreserved(t[0]) && spec_pct_shaped(t.drop_first())
    }
}

proof fn lemma_shaped_escape(a: char, b: char, t: Seq<char>)
    requires
        spec_upper_hex(a),
        spec_upper_hex(b),
        spec_pct_shaped(t),
    ensures
        spec_pct_shaped(seq!['%', a, b] + t),
{
    let w = seq!['%', a, b] + t;
    assert(w[0] == '%' && w[1] == a && w[2] == b);
    assert(w.subrange(3, w.len() as int) =~= t);
}

proof fn lemma_shaped_plain(c: char, t: Seq<char>)
    requires
        spec_unreserved(c),
        spec_pct_shaped(t),
    ensures
        spec_pct_shaped(seq![c] + t),
{
    let w = seq![c] + t;
    assert(w[0] == c);
    assert(w.drop_first() =~= t);
}

proof fn lemma_shaped_pct_bytes(bs: Seq<u8>, t: Seq<char>)
    requires
        spec_pct_shaped(t),
    ensures
        spec_pct_shaped(spec_pct_bytes(bs) + t),
    decreases bs.len(),
{
    if bs.len() == 0 {
        assert(spec_pct_bytes(bs) + t =~= t);
    } else {
        let b = bs.last();
        let trip = seq!['%', spec_hex_digit((b / 16) as int), spec_hex_digit((b % 16) as int)];
        lemma_shaped_escape(spec_hex_digit((b / 16) as int), spec_hex_digit((b % 16) as int), t);
        assert(spec_pct_bytes(bs) + t =~= spec_pct_bytes(bs.drop_last()) + (trip + t));
        lemma_shaped_pct_bytes(bs.drop_last(), trip + t);
    }
}

proof fn lemma_shaped_encoded(s: Seq<char>, t: Seq<char>)
    requires
        spec_pct_shaped(t),
    ensures
        spec_pct_shaped(spec_percent_encode(s) + t),
    decreases s.len(),
{
    if s.len() == 0 {
        assert(spec_percent_encode(s) + t =~= t);
    } else {
        let c = s.last();
        if c == ' ' || c == '&' || c == '=' || c == '+' || c == '#' || c == '%' {
            let p = spec_pct_char(c);
            lemma_shaped_escape(p[1], p[2], t);
            assert(p =~= seq!['%', p[1], p[2]]);
        } else if spec_unreserved(c) {
            lemma_shaped_plain(c, t);
        } else {
            lemma_shaped_pct_bytes(encode_scalar(c as u32), t);
        }
        assert(spec_percent_encode(s) + t =~= spec_percent_encode(s.drop_last()) + (spec_pct_char(c) + t));
        lemma_shaped_encoded(s.drop_last(), spec_pct_char(c) + t);
    }
}

proof fn lemma_pct_bytes_len(bs: Seq<u8>)
    ensures
        spec_pct_bytes(bs).len() == 3 * bs.len(),
    decreases bs.len(),
{
    if bs.len() > 0 {
        lemma_pct_bytes_len(bs.drop_last());
    }
}

proof fn lemma_encode_len(s: Seq<char>)
    ensures
        spec_percent_encode(s).len() >= s.len(),
        (forall|i: int| 0 <= i < s.len() ==> spec_unreserved(#[trigger] s[i])) ==> spec_percent_encode(s) == s,
        (exists|i: int| 0 <= i < s.len() && !spec_unreserved(#[trigger] s[i])) ==> spec_percent_encode(s).len() > s.len(),
    decreases s.len(),
{
    if s.len() > 0 {
        let c = s.last();
        let h = s.drop_last();
        lemma_encode_len(h);
        lemma_pct_bytes_len(encode_scalar(c as u32));
        assert(encode_scalar(c as u32).len() >= 1);
        assert(spec_pct_char(c).len() >= 1);
        if !spec_unreserved(c) {
            assert(spec_pct_char(c).len() >= 3);
        } else {
            assert(spec_pct_char(c) == seq![c]);
        }
        if forall|i: int| 0 <= i < s.len() ==> spec_unreserved(#[trigger] s[i]) {
            assert forall|i: int| 0 <= i < h.len() implies spec_unreserved(#[trigger] h[i]) by {
                assert(h[i] == s[i]);
            }
            assert(spec_unreserved(s[s.len() - 1]));
            assert(spec_percent_encode(s) =~= h + seq![c]);
            assert(h + seq![c] =~= s);
        }
        if exists|i: int| 0 <= i < s.len() && !spec_unreserved(#[trigger] s[i]) {
            let i = choose|i: int| 0 <= i < s.len() && !spec_unreserved(#[trigger] s[i]);
            if i < h.len() {
                assert(h[i] == s[i]);
            }
        }
    }
}

/// The shape of `percent_encode`'s output and when it changes nothing:
/// it is unreserved characters and `%XX` escapes with upper-case
/// hexadecimal digits; percent-decoding it and reading the bytes as UTF-8
/// gives back the text; and it equals the text exactly when the text holds
/// only ASCII letters, digits, `-`, `.`, `_` and `~`.
pub proof fn law_percent_encode_shape(s: Seq<char>)
    ensures
        spec_pct_shaped(spec_percent_encode(s)),
        vstd::utf8::decode_utf8(spec_pct_decode(spec_percent_encode(s))) == s,
        (spec_percent_encode(s) == s) <==> (forall|i: int| 0 <= i < s.len() ==> spec_unreserved(#[trigger] s[i])),
{
    lemma_shaped_encoded(s, Seq::empty());
    assert(spec_percent_encode(s) + Seq::<char>::empty() =~= spec_percent_encode(s));
    law_percent_encode_decodes_back(s);
    vstd::utf8::encode_utf8_decode_utf8(s);
    lemma_encode_len(s);
}

proof fn lemma_offset_rows(s: Seq<u8>, start: int, r1: nat, c1: nat, r2: nat, c2: nat)
    requires
        0 <= start <= s.len(),
        r1 < r2,
    ensures
        crate::vim_buffer::offset_from(s, start, r1, c1) <= crate::vim_buffer::offset_from(s, start, r2, c2),
    decreases r1,
{
    crate::vim_buffer::lemma_next_newline_bounds(s, start);
    let e = crate::vim_buffer::next_newline(s, start);
    if e < s.len() {
        crate::vim_buffer::lemma_offset_from_bounds(s, e + 1, (r2 - 1) as nat, c2);
        if r1 > 0 {
            lemma_offset_rows(s, e + 1, (r1 - 1) as nat, c1, (r2 - 1) as nat, c2);
        }
    }
}

/// The byte offset of a (row, column) position never decreases as the
/// position advances in reading order: a later row, or a later column on
/// the same row.
pub proof fn law_offset_monotone(s: Seq<u8>, r1: nat, c1: nat, r2: nat, c2: nat)
    requires
        r1 < r2 || (r1 == r2 && c1 <= c2),
    ensures
        crate::vim_buffer::spec_row_col_to_offset(s, r1, c1) <= crate::vim_buffer::spec_row_col_to_offset(s, r2, c2),
{
    if r1 < r2 {
        lemma_offset_rows(s, 0, r1, c1, r2, c2);
    } else {
        crate::body_edit::lemma_offset_monotone(s, 0, r1, c1, c2);
    }
}


/// The responses kept under `key`: its list, or none when it has none.
pub open spec fn spec_history_of(h: Seq<(String, Vec<Response>)>, key: Seq<char>) -> Seq<Response> {
    if exists|i: int| 0 <= i < h.len() && (#[trigger] h[i]).0@ == key {
        h[choose|i: int| 0 <= i < h.len() && (#[trigger] h[i]).0@ == key].1@
    } else {
        Seq::empty()
    }
}

/// Recording keeps the newest first: `e` leads, at most
/// [`RESPONSE_HISTORY_MAX`] are kept, and the rest are the older ones in
/// their order, the oldest dropped past the cap.
pub proof fn law_recorded_newest_first<T>(h: Seq<T>, e: T)
    requires
        h.len() <= RESPONSE_HISTORY_MAX,
    ensures
        spec_recorded(h, e)[0] == e,
        spec_recorded(h, e).len() == if h.len() + 1 < RESPONSE_HISTORY_MAX { h.len() + 1 } else { RESPONSE_HISTORY_MAX as nat },
        spec_recorded(h, e).subrange(1, spec_recorded(h, e).len() as int)
            == h.take(if h.len() < RESPONSE_HISTORY_MAX - 1 { h.len() as int } else { RESPONSE_HISTORY_MAX - 1 }),
{
    let r = spec_recorded(h, e);
    let n = seq![e] + h;
    let t: int = if h.len() < RESPONSE_HISTORY_MAX - 1 { h.len() as int } else { RESPONSE_HISTORY_MAX - 1 };
    assert(n[0] == e);
    assert(r.len() == t + 1);
    assert forall|k: int| 0 <= k < t implies #[trigger] r.subrange(1, r.len() as int)[k] == h.take(t)[k] by {
        assert(n[k + 1] == h[k]);
    }
    assert(r.subrange(1, r.len() as int) =~= h.take(t));
}

/// A completed request whose name is known is recorded under its key
/// (`collection/name`, `_` for no active collection): the response leads
/// its history, which keeps at most [`RESPONSE_HISTORY_MAX`] newest first
/// (given a history within that cap);
/// and the cache then holds it under that key, when it may hold anything
/// and it was stored later than every cached response.
pub proof fn law_completed_request_recorded(o: AppState, n: AppState, resp: Response, now: u64, fx: Seq<Effect>)
    requires
        o.well_formed(),
        n.well_formed(),
        spec_completed(o, n, resp, now, fx),
        o.request.name.is_some(),
        spec_history_of(o.response_histories@, spec_cache_key(
            match spec_active_name(o.collections@, o.active_collection as int) { Some(c) => c, None => "_"@ },
            o.request.name.unwrap()@,
        )).len() <= RESPONSE_HISTORY_MAX,
    ensures
        ({
            let key = spec_cache_key(
                match spec_active_name(o.collections@, o.active_collection as int) { Some(c) => c, None => "_"@ },
                o.request.name.unwrap()@,
            );
            let h0 = spec_history_of(o.response_histories@, key);
            let h1 = spec_history_of(n.response_histories@, key);
            &&& h1 == spec_recorded(h0, resp)
            &&& h1[0] == resp
            &&& h1.len() == if h0.len() + 1 < RESPONSE_HISTORY_MAX { h0.len() + 1 } else { RESPONSE_HISTORY_MAX as nat }
            &&& h1.subrange(1, h1.len() as int)
                == h0.take(if h0.len() < RESPONSE_HISTORY_MAX - 1 { h0.len() as int } else { RESPONSE_HISTORY_MAX - 1 })
            &&& (o.cache.max > 0 && forall|k: int| 0 <= k < o.cache.entries@.len() ==> (#[trigger] o.cache.entries@[k]).stored_at < now)
                ==> exists|k: int| 0 <= k < n.cache.entries@.len() && (#[trigger] n.cache.entries@[k]).key@ == key
                    && response_eqv(n.cache.entries@[k].response, resp)
        }),
{
    let key = spec_cache_key(
        match spec_active_name(o.collections@, o.active_collection as int) { Some(c) => c, None => "_"@ },
        o.request.name.unwrap()@,
    );
    let h = o.response_histories@;
    let hn = n.response_histories@;
    let h0 = spec_history_of(h, key);
    if exists|i: int| 0 <= i < h.len() && (#[trigger] h[i]).0@ == key {
        let i = choose|i: int| 0 <= i < h.len() && (#[trigger] h[i]).0@ == key;
        assert(hn[i].0@ == key);
        let c = choose|c: int| 0 <= c < hn.len() && (#[trigger] hn[c]).0@ == key;
        if c != i {
            if c < i {
                assert(hn[c].0@ != hn[i].0@);
            } else {
                assert(hn[i].0@ != hn[c].0@);
            }
        }
    } else {
        let l = h.len() as int;
        assert(hn[l].0@ == key);
        let c = choose|c: int| 0 <= c < hn.len() && (#[trigger] hn[c]).0@ == key;
        if c != l {
            assert(hn[c].0@ != hn[l].0@);
        }
        assert(h0 =~= Seq::<Response>::empty());
        assert(seq![resp] + h0 =~= seq![resp]);
    }
    law_recorded_newest_first(h0, resp);
    if o.cache.max > 0 && forall|k: int| 0 <= k < o.cache.entries@.len() ==> (#[trigger] o.cache.entries@[k]).stored_at < now {
        let e = choose|e: CacheEntry| e.key@ == key && response_eqv(e.response, resp) && e.stored_at == now
            && n.cache.max == o.cache.max
            && n.cache.entries@ == spec_evict(spec_upsert(o.cache.entries@, e), o.cache.max as int);
        lemma_upsert_newest(o.cache.entries@, e);
        lemma_evict_keeps_newest(spec_upsert(o.cache.entries@, e), o.cache.max as int, e);
        let k = choose|k: int| 0 <= k < n.cache.entries@.len() && n.cache.entries@[k] == e;
        assert(n.cache.entries@[k].key@ == key);
    }
}

/// A count repeats a motion: `k` steps left from `c` end at `c - k`, or
/// at 0; `k` steps right end at `c + k`, or at the limit `max` (a cursor
/// past the limit stays).
pub proof fn law_count_repeats_motion(c: int, max: int, k: nat)
    requires
        c >= 0,
    ensures
        spec_left_steps(c, k) == if c > k { c - k } else { 0 },
        spec_right_steps(c, max, k) == if c >= max { c } else if c + k < max { c + k } else { max },
    decreases k,
{
    if k > 0 {
        law_count_repeats_motion(c, max, (k - 1) as nat);
    }
}

/// A count repeats a line motion: `k` lines down from `row` end `k` lines
/// further, or on the last line; `k` lines up end `k` lines higher, or on
/// the first (an empty text counts as one line).
pub proof fn law_count_repeats_lines(t: Seq<u8>, row: int, col: int, insert: bool, k: nat)
    requires
        row >= 0,
    ensures
        ({
            let lc = spec_line_count(t);
            let last = if lc >= 1 { lc - 1 } else { 0 };
            spec_line_steps(t, row, col, insert, true, k).0
                == if row >= last { row } else if row + k < last { row + k } else { last }
        }),
        spec_line_steps(t, row, col, insert, false, k).0 == if row > k { row - k } else { 0 },
    decreases k,
{
    if k > 0 {
        law_count_repeats_lines(t, row, col, insert, (k - 1) as nat);
    }
}

/// Each request row of the tree names a request of the tree's lists: its
/// index is below the length of its collection's list.
pub proof fn law_tree_request_rows_within(tree: Seq<TreeCollection>, has_filter: bool, n: int)
    requires
        n <= tree.len(),
    ensures
        forall|i: int| 0 <= i < spec_tree_rows(tree, has_filter, n).len() ==> {
            let r = #[trigger] spec_tree_rows(tree, has_filter, n)[i];
            r.1 matches Some(ri) ==> 0 <= ri < tree[r.0].shown@.len()
        },
    decreases n,
{
    if n > 0 {
        law_tree_request_rows_within(tree, has_filter, n - 1);
        let c = tree[n - 1];
        let before = spec_tree_rows(tree, has_filter, n - 1);
        if spec_listed(c, has_filter) {
            let wh = before.push((n - 1, None));
            let rq = spec_request_rows(c.shown@, has_filter, n - 1, c.shown@.len() as int);
            lemma_request_rows_sorted(c.shown@, has_filter, n - 1, c.shown@.len() as int);
            let all = spec_tree_rows(tree, has_filter, n);
            let full = if c.expanded { wh + rq } else { wh };
            assert(all == full);
            assert forall|i: int| 0 <= i < all.len() implies {
                let r = #[trigger] all[i];
                r.1 matches Some(ri) ==> 0 <= ri < tree[r.0].shown@.len()
            } by {
                if i < before.len() {
                    assert(all[i] == before[i]);
                } else if i > before.len() {
                    assert(all[i] == rq[i - before.len() - 1]);
                }
            }
        }
    }
}

/// The rows of the collections tree of a well-formed state name real
/// collections and requests: every row's collection exists, and a request
/// row's index is below the length of that collection's request list.
pub proof fn law_tree_rows_name_requests(st: AppState)
    requires
        st.well_formed(),
    ensures
        ({
            let rows = spec_tree_rows(st.tree@, st.collections_filter@.len() > 0, st.tree@.len() as int);
            forall|i: int| 0 <= i < rows.len() ==> {
                let r = #[trigger] rows[i];
                &&& 0 <= r.0 < st.collections@.len()
                &&& r.1 matches Some(ri) ==> 0 <= ri < st.collections@[r.0].requests@.len()
            }
        }),
{
    let hf = st.collections_filter@.len() > 0;
    let n = st.tree@.len() as int;
    law_tree_rows_ordered(st.tree@, hf, n);
    law_tree_request_rows_within(st.tree@, hf, n);
    let rows = spec_tree_rows(st.tree@, hf, n);
    assert forall|i: int| 0 <= i < rows.len() implies {
        let r = #[trigger] rows[i];
        &&& 0 <= r.0 < st.collections@.len()
        &&& r.1 matches Some(ri) ==> 0 <= ri < st.collections@[r.0].requests@.len()
    } by {
        let r = rows[i];
        assert(st.tree@[r.0].shown@.len() == st.collections@[r.0].requests@.len());
    }
}
} // verus!
