use vstd::prelude::*;
use crate::vim_buffer::{spec_find_from, lemma_find_from_bounds, copy_range};
use crate::strutil::{spec_to_lowercase, to_lowercase, starts_with_str, bytes_of, chars_of};
use crate::model::Collection;

verus! {

/// `pat` occurs in `s` starting at `i`.
pub open spec fn spec_occurs_at(s: Seq<u8>, pat: Seq<u8>, i: int) -> bool {
    0 <= i && i + pat.len() <= s.len() && s.subrange(i, i + pat.len()) == pat
}

/// The last position below `n` at which `pat` occurs in `s`, or -1.
pub open spec fn spec_rfind_below(s: Seq<u8>, pat: Seq<u8>, n: int) -> int
    decreases n,
{
    if n <= 0 {
        -1
    } else if spec_occurs_at(s, pat, n - 1) {
        n - 1
    } else {
        spec_rfind_below(s, pat, n - 1)
    }
}

/// The last position at which `pat` occurs in `s`, or -1 (`str::rfind`).
pub open spec fn spec_rfind(s: Seq<u8>, pat: Seq<u8>) -> int {
    spec_rfind_below(s, pat, s.len() + 1int)
}

/// `pat` occurs somewhere in `s` (`str::contains`).
pub open spec fn spec_contains(s: Seq<u8>, pat: Seq<u8>) -> bool {
    exists|i: int| spec_occurs_at(s, pat, i)
}

/// `{{`, which opens a variable reference.
pub open spec fn spec_open_var() -> Seq<u8> {
    seq![123u8, 123u8]
}

/// `{{@`, which opens a reference to another request's response.
pub open spec fn spec_open_chain() -> Seq<u8> {
    seq![123u8, 123u8, 64u8]
}

/// `}}`, which closes a reference.
pub open spec fn spec_close_ref() -> Seq<u8> {
    seq![125u8, 125u8]
}

/// Not the second or later byte of a UTF-8 sequence: a place where a
/// `str` may be cut.
pub open spec fn spec_at_char_start(s: Seq<u8>, i: int) -> bool {
    i <= 0 || i >= s.len() || !(0x80 <= s[i] < 0xC0)
}

/// What the text before the cursor asks to complete.
#[derive(Debug)]
pub enum CompletionContext {
    /// An environment variable whose name starts with `prefix`.
    Env { prefix: Vec<u8> },
    /// The name of a request, starting with `prefix`.
    RequestName { prefix: Vec<u8> },
    /// A field of the response of `request`, along the path typed so far.
    FieldPath { request: Vec<u8>, path: Vec<u8> },
    /// Nothing to complete.
    NoCompletion,
}

/// The mathematical form of a [`CompletionContext`].
pub enum CompletionSpec {
    Env(Seq<u8>),
    RequestName(Seq<u8>),
    FieldPath(Seq<u8>, Seq<u8>),
    NoCompletion,
}

impl View for CompletionContext {
    type V = CompletionSpec;

    open spec fn view(&self) -> CompletionSpec {
        match self {
            CompletionContext::Env { prefix } => CompletionSpec::Env(prefix@),
            CompletionContext::RequestName { prefix } => CompletionSpec::RequestName(prefix@),
            CompletionContext::FieldPath { request, path } => CompletionSpec::FieldPath(request@, path@),
            CompletionContext::NoCompletion => CompletionSpec::NoCompletion,
        }
    }
}

/// A `{{` that is not the start of a `{{@` and is still open: complete a
/// variable name.
pub open spec fn spec_env_case(before: Seq<u8>) -> bool {
    let bp = spec_rfind(before, spec_open_var());
    let ap = spec_rfind(before, spec_open_chain());
    &&& bp >= 0
    &&& ap != bp
    &&& !spec_contains(before.subrange(bp + 2, before.len() as int), spec_close_ref())
}

/// The part of a `{{@` reference typed so far, split into request name and
/// path: at the first `[` (kept in the path), else at the first `.`
/// (dropped), else no path.
pub open spec fn spec_chain_parts(after: Seq<u8>) -> CompletionSpec {
    let bracket = spec_find_from(after, 0, 91u8);
    let dot = spec_find_from(after, 0, 46u8);
    if bracket < after.len() {
        CompletionSpec::FieldPath(after.subrange(0, bracket), after.subrange(bracket, after.len() as int))
    } else if dot < after.len() {
        CompletionSpec::FieldPath(after.subrange(0, dot), after.subrange(dot + 1, after.len() as int))
    } else {
        CompletionSpec::RequestName(after)
    }
}

/// What the bytes `before` the cursor ask to complete.
pub open spec fn spec_completion(before: Seq<u8>) -> CompletionSpec {
    let bp = spec_rfind(before, spec_open_var());
    let ap = spec_rfind(before, spec_open_chain());
    if spec_env_case(before) {
        CompletionSpec::Env(before.subrange(bp + 2, before.len() as int))
    } else if ap < 0 {
        CompletionSpec::NoCompletion
    } else if spec_contains(before.subrange(ap + 3, before.len() as int), spec_close_ref()) {
        CompletionSpec::NoCompletion
    } else {
        spec_chain_parts(before.subrange(ap + 3, before.len() as int))
    }
}

/// The cursor position clamped to the text.
pub open spec fn spec_clamp_cursor(len: int, cursor: int) -> int {
    if cursor < len { cursor } else { len }
}

fn occurs_at(s: &[u8], pat: &[u8], i: usize) -> (r: bool)
    requires
        i <= s@.len(),
    ensures
        r == spec_occurs_at(s@, pat@, i as int),
{
    if pat.len() > s.len() - i {
        return false;
    }
    let mut k: usize = 0;
    while k < pat.len()
        invariant
            i + pat@.len() <= s@.len(),
            k <= pat@.len(),
            forall|m: int| 0 <= m < k ==> s@[i + m] == pat@[m],
            s@.len() == s.len(),
        decreases pat@.len() - k,
    {
        if s[i + k] != pat[k] {
            proof {
                assert(s@.subrange(i as int, i + pat@.len())[k as int] != pat@[k as int]);
            }
            return false;
        }
        k = k + 1;
    }
    proof {
        assert(s@.subrange(i as int, i + pat@.len()) =~= pat@);
    }
    true
}

/// The last position of `pat` in `s[..end]` (`str::rfind`), or `None`.
pub fn rfind(s: &[u8], end: usize, pat: &[u8]) -> (r: Option<usize>)
    requires
        end <= s@.len(),
    ensures
        match r {
            Some(i) => spec_rfind(s@.subrange(0, end as int), pat@) == i as int,
            None => spec_rfind(s@.subrange(0, end as int), pat@) == -1,
        },
{
    let ghost t = s@.subrange(0, end as int);
    if pat.len() == 0 {
        proof {
            assert(spec_occurs_at(t, pat@, end as int)) by {
                assert(t.subrange(end as int, end as int) =~= pat@);
            }
        }
        return Some(end);
    }
    let mut n: usize = end;
    proof {
        assert(!spec_occurs_at(t, pat@, end as int));
        assert(spec_rfind(t, pat@) == spec_rfind_below(t, pat@, n as int));
    }
    while n > 0
        invariant
            n <= end,
            end <= s@.len(),
            t == s@.subrange(0, end as int),
            spec_rfind(t, pat@) == spec_rfind_below(t, pat@, n as int),
        decreases n,
    {
        let i = n - 1;
        let hit = if pat.len() <= end && i <= end - pat.len() {
            occurs_at(s, pat, i)
        } else {
            false
        };
        proof {
            if pat@.len() <= end && i <= end - pat@.len() {
                assert(t.subrange(i as int, i + pat@.len()) =~= s@.subrange(i as int, i + pat@.len()));
            }
        }
        if hit {
            return Some(i);
        }
        n = i;
    }
    None
}

/// Whether `pat` occurs in `s[from..end]`.
pub fn contains_between(s: &[u8], from: usize, end: usize, pat: &[u8]) -> (r: bool)
    requires
        from <= end <= s@.len(),
        pat@.len() > 0,
    ensures
        r == spec_contains(s@.subrange(from as int, end as int), pat@),
{
    let ghost t = s@.subrange(from as int, end as int);
    let mut i: usize = from;
    while i < end
        invariant
            from <= i <= end <= s@.len(),
            t == s@.subrange(from as int, end as int),
            forall|k: int| 0 <= k < i - from ==> !spec_occurs_at(t, pat@, k),
        decreases end - i,
    {
        let hit = if pat.len() <= end - i {
            occurs_at(s, pat, i)
        } else {
            false
        };
        proof {
            let k = i - from;
            if pat@.len() <= end - i {
                assert(t.subrange(k, k + pat@.len()) =~= s@.subrange(i as int, i + pat@.len()));
            }
        }
        if hit {
            proof {
                assert(spec_occurs_at(t, pat@, (i - from) as int));
            }
            return true;
        }
        i = i + 1;
    }
    false
}

pub proof fn lemma_rfind_below_bounds(s: Seq<u8>, pat: Seq<u8>, n: int)
    ensures
        -1 <= spec_rfind_below(s, pat, n),
        spec_rfind_below(s, pat, n) < n || n <= 0,
        spec_rfind_below(s, pat, n) >= 0 ==> spec_occurs_at(s, pat, spec_rfind_below(s, pat, n)),
    decreases n,
{
    if n > 0 && !spec_occurs_at(s, pat, n - 1) {
        lemma_rfind_below_bounds(s, pat, n - 1);
    }
}

/// The first index of `t` in `s`, or the length of `s`.
pub fn first_index(s: &[u8], t: u8) -> (r: usize)
    ensures
        r == spec_find_from(s@, 0, t),
{
    let mut i: usize = 0;
    while i < s.len()
        invariant
            i <= s@.len(),
            spec_find_from(s@, 0, t) == spec_find_from(s@, i as int, t),
        decreases s@.len() - i,
    {
        if s[i] == t {
            return i;
        }
        i = i + 1;
    }
    i
}

/// What the text before the cursor asks to complete: inside an open `{{`
/// a variable name; inside an open `{{@` a request name, or a field path
/// once a `[` or `.` follows the name; else nothing.
pub fn completion_context(text: &[u8], cursor: usize) -> (r: CompletionContext)
    requires
        spec_at_char_start(text@, spec_clamp_cursor(text@.len() as int, cursor as int)),
    ensures
        r@ == spec_completion(text@.subrange(0, spec_clamp_cursor(text@.len() as int, cursor as int))),
{
    let end = if cursor < text.len() { cursor } else { text.len() };
    let ghost before = text@.subrange(0, end as int);
    let open_chain: Vec<u8> = vec![123u8, 123u8, 64u8];
    let open_var: Vec<u8> = vec![123u8, 123u8];
    let close_ref: Vec<u8> = vec![125u8, 125u8];
    proof {
        assert(open_chain@ =~= spec_open_chain());
        assert(open_var@ =~= spec_open_var());
        assert(close_ref@ =~= spec_close_ref());
        lemma_rfind_below_bounds(before, spec_open_var(), before.len() + 1int);
        lemma_rfind_below_bounds(before, spec_open_chain(), before.len() + 1int);
    }
    let ap = rfind(text, end, open_chain.as_slice());
    let bp = rfind(text, end, open_var.as_slice());
    if let Some(b) = bp {
        let is_chain = match ap {
            Some(a) => a == b,
            None => false,
        };
        if !is_chain {
            let closed = contains_between(text, b + 2, end, close_ref.as_slice());
            proof {
                assert(before.subrange(b + 2, before.len() as int) =~= text@.subrange(b + 2, end as int));
            }
            if !closed {
                let prefix = copy_range(text, b + 2, end);
                return CompletionContext::Env { prefix };
            }
        }
    }
    match ap {
        None => CompletionContext::NoCompletion,
        Some(a) => {
            proof {
                assert(before.subrange(a + 3, before.len() as int) =~= text@.subrange(a + 3, end as int));
            }
            if contains_between(text, a + 3, end, close_ref.as_slice()) {
                CompletionContext::NoCompletion
            } else {
                let after = copy_range(text, a + 3, end);
                let bracket = first_index(after.as_slice(), 91u8);
                let dot = first_index(after.as_slice(), 46u8);
                proof {
                    lemma_find_from_bounds(after@, 0, 91u8);
                    lemma_find_from_bounds(after@, 0, 46u8);
                }
                if bracket < after.len() {
                    let request = copy_range(after.as_slice(), 0, bracket);
                    let path = copy_range(after.as_slice(), bracket, after.len());
                    CompletionContext::FieldPath { request, path }
                } else if dot < after.len() {
                    let request = copy_range(after.as_slice(), 0, dot);
                    let path = copy_range(after.as_slice(), dot + 1, after.len());
                    CompletionContext::FieldPath { request, path }
                } else {
                    CompletionContext::RequestName { prefix: after }
                }
            }
        }
    }
}

/// A candidate is offered for what was typed when its lowercase form
/// starts with the lowercase typed text (everything is offered for an
/// empty text).
pub open spec fn spec_candidate_matches(candidate: Seq<char>, typed: Seq<char>) -> bool {
    typed.len() == 0 || spec_to_lowercase(typed).is_prefix_of(spec_to_lowercase(candidate))
}

/// Whether `candidate` is offered for `typed` (see [`spec_candidate_matches`]).
pub fn candidate_matches(candidate: &str, typed: &str) -> (r: bool)
    ensures
        r == spec_candidate_matches(candidate@, typed@),
{
    if chars_of(typed).len() == 0 {
        return true;
    }
    let c = to_lowercase(candidate);
    let t = to_lowercase(typed);
    starts_with_str(c.as_str(), t.as_str())
}

/// The bytes of `…`.
pub open spec fn spec_ellipsis() -> Seq<u8> {
    seq![0xE2u8, 0x80u8, 0xA6u8]
}

/// A value as a suggestion shows it: over 20 bytes, its first 19 bytes and `…`.
pub open spec fn spec_display_value(v: Seq<u8>) -> Seq<u8> {
    if v.len() > 20 {
        v.subrange(0, 19) + spec_ellipsis()
    } else {
        v
    }
}

/// What is inserted for a candidate: the bytes after the first `typed_len`
/// (none when the candidate is shorter).
pub open spec fn spec_insert_suffix(key: Seq<u8>, typed_len: int) -> Seq<u8> {
    key.subrange(if typed_len < key.len() { typed_len } else { key.len() as int }, key.len() as int)
}

/// The bytes of `": "`.
pub open spec fn spec_colon_space() -> Seq<u8> {
    seq![58u8, 32u8]
}

/// The suggestions for the variables `vars` (name, value) offered for
/// `typed`, in order: label `name: value`, and the rest of the name.
pub open spec fn spec_env_items(vars: Seq<(String, String)>, typed: Seq<char>) -> Seq<(Seq<u8>, Seq<u8>)>
    decreases vars.len(),
{
    if vars.len() == 0 {
        Seq::empty()
    } else {
        let rest = spec_env_items(vars.drop_last(), typed);
        let k = vars.last().0@;
        let v = vars.last().1@;
        if spec_candidate_matches(k, typed) {
            rest.push((
                vstd::utf8::encode_utf8(k) + spec_colon_space() + spec_display_value(vstd::utf8::encode_utf8(v)),
                spec_insert_suffix(vstd::utf8::encode_utf8(k), vstd::utf8::encode_utf8(typed).len() as int),
            ))
        } else {
            rest
        }
    }
}

/// The views of a list of (label, insert) suggestions.
pub open spec fn spec_pairs(v: Seq<(Vec<u8>, Vec<u8>)>) -> Seq<(Seq<u8>, Seq<u8>)> {
    Seq::new(v.len(), |i: int| (v[i].0@, v[i].1@))
}

/// The label and insertion of variable `var` can be cut where its
/// suggestion cuts them: after the typed bytes in the name (when it is
/// offered), after 19 bytes in a value over 20 bytes long.
pub open spec fn spec_var_cuttable(var: (String, String), typed: Seq<char>) -> bool {
    let k = vstd::utf8::encode_utf8(var.0@);
    let v = vstd::utf8::encode_utf8(var.1@);
    let t = vstd::utf8::encode_utf8(typed).len() as int;
    &&& (spec_candidate_matches(var.0@, typed) ==> spec_at_char_start(k, if t < k.len() { t } else { k.len() as int }))
    &&& (v.len() > 20 ==> spec_at_char_start(v, 19))
}

/// Every variable can be cut where its suggestion cuts it.
pub open spec fn spec_env_vars_cuttable(vars: Seq<(String, String)>, typed: Seq<char>) -> bool {
    forall|i: int| 0 <= i < vars.len() ==> spec_var_cuttable(#[trigger] vars[i], typed)
}

/// The fallback shown when no variable is offered.
pub open spec fn spec_no_env_label() -> Seq<u8> {
    vstd::utf8::encode_utf8("(no active environment \u{2014} press p to select)"@)
}

pub(crate) fn concat_bytes(a: &[u8], b: &[u8]) -> (r: Vec<u8>)
    ensures
        r@ == a@ + b@,
{
    let mut out = copy_range(a, 0, a.len());
    let mut i: usize = 0;
    while i < b.len()
        invariant
            i <= b@.len(),
            out@ == a@ + b@.subrange(0, i as int),
        decreases b@.len() - i,
    {
        out.push(b[i]);
        i = i + 1;
        proof {
            assert(a@ + b@.subrange(0, i as int) =~= (a@ + b@.subrange(0, i - 1)).push(b@[i - 1]));
        }
    }
    proof {
        assert(a@.subrange(0, a@.len() as int) =~= a@);
        assert(b@.subrange(0, i as int) =~= b@);
    }
    out
}

/// A value shortened for display (see [`spec_display_value`]).
pub fn display_value(v: &[u8]) -> (r: Vec<u8>)
    ensures
        r@ == spec_display_value(v@),
{
    if v.len() > 20 {
        let head = copy_range(v, 0, 19);
        let dots: Vec<u8> = vec![0xE2u8, 0x80u8, 0xA6u8];
        proof {
            assert(dots@ =~= spec_ellipsis());
        }
        concat_bytes(head.as_slice(), dots.as_slice())
    } else {
        copy_range(v, 0, v.len())
    }
}

/// Suggestions for completing a variable name: one for each variable
/// offered for `typed`, or a single line saying that there is none.
pub fn env_suggestions(vars: &Vec<(String, String)>, typed: &str) -> (r: Vec<(Vec<u8>, Vec<u8>)>)
    requires
        spec_env_vars_cuttable(vars@, typed@),
    ensures
        spec_env_items(vars@, typed@).len() > 0 ==> spec_pairs(r@) == spec_env_items(vars@, typed@),
        spec_env_items(vars@, typed@).len() == 0 ==> spec_pairs(r@) == seq![(spec_no_env_label(), Seq::<u8>::empty())],
{
    let typed_bytes = bytes_of(typed);
    let mut out: Vec<(Vec<u8>, Vec<u8>)> = Vec::new();
    let mut i: usize = 0;
    while i < vars.len()
        invariant
            i <= vars@.len(),
            typed_bytes@ == vstd::utf8::encode_utf8(typed@),
            spec_env_vars_cuttable(vars@, typed@),
            spec_pairs(out@) == spec_env_items(vars@.subrange(0, i as int), typed@),
        decreases vars@.len() - i,
    {
        let pair = &vars[i];
        proof {
            assert(vars@.subrange(0, i + 1).drop_last() =~= vars@.subrange(0, i as int));
        }
        if candidate_matches(pair.0.as_str(), typed) {
            let k = bytes_of(pair.0.as_str());
            let v = bytes_of(pair.1.as_str());
            let shown = display_value(v.as_slice());
            let sep: Vec<u8> = vec![58u8, 32u8];
            proof {
                assert(sep@ =~= spec_colon_space());
            }
            let head = concat_bytes(k.as_slice(), sep.as_slice());
            let label = concat_bytes(head.as_slice(), shown.as_slice());
            let cut = if typed_bytes.len() < k.len() { typed_bytes.len() } else { k.len() };
            let insert = copy_range(k.as_slice(), cut, k.len());
            let ghost before = out@;
            out.push((label, insert));
            proof {
                assert(spec_pairs(out@) =~= spec_pairs(before).push((label@, insert@)));
            }
        }
        i = i + 1;
    }
    proof {
        assert(vars@.subrange(0, i as int) =~= vars@);
    }
    if out.len() == 0 {
        let msg = "(no active environment \u{2014} press p to select)";
        let label = bytes_of(msg);
        proof {
            assert(out@.len() == 0);
        }
        let mut fallback: Vec<(Vec<u8>, Vec<u8>)> = Vec::new();
        fallback.push((label, Vec::new()));
        proof {
            assert(spec_pairs(fallback@) =~= seq![(spec_no_env_label(), Seq::<u8>::empty())]);
        }
        return fallback;
    }
    out
}

/// The bytes of `" ("` and `")"`.
pub open spec fn spec_open_paren() -> Seq<u8> {
    seq![32u8, 40u8]
}

pub open spec fn spec_close_paren() -> Seq<u8> {
    seq![41u8]
}

/// The suggestion for request `name` of collection `coll`: label
/// `name (coll)`, and the rest of the name after the typed bytes.
pub open spec fn spec_request_item(coll: Seq<char>, name: Seq<char>, typed: Seq<char>) -> (Seq<u8>, Seq<u8>) {
    let n = vstd::utf8::encode_utf8(name);
    (
        n + spec_open_paren() + vstd::utf8::encode_utf8(coll) + spec_close_paren(),
        n.subrange(vstd::utf8::encode_utf8(typed).len() as int, n.len() as int),
    )
}

/// The suggestions for the named requests of one collection offered for
/// `typed`, in order.
pub open spec fn spec_coll_items(coll: Seq<char>, reqs: Seq<crate::model::Request>, typed: Seq<char>) -> Seq<(Seq<u8>, Seq<u8>)>
    decreases reqs.len(),
{
    if reqs.len() == 0 {
        Seq::empty()
    } else {
        let rest = spec_coll_items(coll, reqs.drop_last(), typed);
        let r = reqs.last();
        if r.name.is_some() && spec_candidate_matches(r.name.unwrap()@, typed) {
            rest.push(spec_request_item(coll, r.name.unwrap()@, typed))
        } else {
            rest
        }
    }
}

/// The suggestions for all named requests offered for `typed`, collection
/// by collection.
pub open spec fn spec_request_items(colls: Seq<Collection>, typed: Seq<char>) -> Seq<(Seq<u8>, Seq<u8>)>
    decreases colls.len(),
{
    if colls.len() == 0 {
        Seq::empty()
    } else {
        spec_request_items(colls.drop_last(), typed) + spec_coll_items(colls.last().name@, colls.last().requests@, typed)
    }
}

/// Every offered name is at least as long as the typed bytes and can be
/// cut after them.
pub open spec fn spec_names_cuttable(colls: Seq<Collection>, typed: Seq<char>) -> bool {
    forall|c: int, q: int|
        0 <= c < colls.len() && 0 <= q < colls[c].requests@.len()
            && (#[trigger] colls[c].requests@[q]).name.is_some()
            && spec_candidate_matches(colls[c].requests@[q].name.unwrap()@, typed) ==> {
            let n = vstd::utf8::encode_utf8(colls[c].requests@[q].name.unwrap()@);
            let t = vstd::utf8::encode_utf8(typed).len() as int;
            t <= n.len() && spec_at_char_start(n, t)
        }
}

/// The line shown when no request is offered.
pub open spec fn spec_no_request_label() -> Seq<u8> {
    vstd::utf8::encode_utf8("(no named requests)"@)
}

/// Suggestions for completing a request name after `{{@`: one for each
/// named request offered for `typed`, or a single line saying there is none.
pub fn request_name_suggestions(colls: &Vec<Collection>, typed: &str) -> (r: Vec<(Vec<u8>, Vec<u8>)>)
    requires
        spec_names_cuttable(colls@, typed@),
    ensures
        spec_request_items(colls@, typed@).len() > 0 ==> spec_pairs(r@) == spec_request_items(colls@, typed@),
        spec_request_items(colls@, typed@).len() == 0 ==> spec_pairs(r@) == seq![(spec_no_request_label(), Seq::<u8>::empty())],
{
    let typed_bytes = bytes_of(typed);
    let open_paren: Vec<u8> = vec![32u8, 40u8];
    let close_paren: Vec<u8> = vec![41u8];
    proof {
        assert(open_paren@ =~= spec_open_paren());
        assert(close_paren@ =~= spec_close_paren());
    }
    let mut out: Vec<(Vec<u8>, Vec<u8>)> = Vec::new();
    let mut c: usize = 0;
    while c < colls.len()
        invariant
            c <= colls@.len(),
            typed_bytes@ == vstd::utf8::encode_utf8(typed@),
            open_paren@ == spec_open_paren(),
            close_paren@ == spec_close_paren(),
            spec_names_cuttable(colls@, typed@),
            spec_pairs(out@) == spec_request_items(colls@.subrange(0, c as int), typed@),
        decreases colls@.len() - c,
    {
        let coll = &colls[c];
        let ghost start = out@;
        let coll_bytes = bytes_of(coll.name.as_str());
        let mut q: usize = 0;
        while q < coll.requests.len()
            invariant
                c < colls@.len(),
                *coll == colls@[c as int],
                q <= coll.requests@.len(),
                typed_bytes@ == vstd::utf8::encode_utf8(typed@),
                coll_bytes@ == vstd::utf8::encode_utf8(coll.name@),
                open_paren@ == spec_open_paren(),
                close_paren@ == spec_close_paren(),
                spec_names_cuttable(colls@, typed@),
                spec_pairs(out@) == spec_pairs(start) + spec_coll_items(coll.name@, coll.requests@.subrange(0, q as int), typed@),
            decreases coll.requests@.len() - q,
        {
            let req = &coll.requests[q];
            proof {
                assert(coll.requests@.subrange(0, q + 1).drop_last() =~= coll.requests@.subrange(0, q as int));
            }
            match &req.name {
                Some(name) => {
                    if candidate_matches(name.as_str(), typed) {
                        let n = bytes_of(name.as_str());
                        proof {
                            assert(colls@[c as int].requests@[q as int] == *req);
                        }
                        let a = concat_bytes(n.as_slice(), open_paren.as_slice());
                        let b = concat_bytes(a.as_slice(), coll_bytes.as_slice());
                        let label = concat_bytes(b.as_slice(), close_paren.as_slice());
                        let insert = copy_range(n.as_slice(), typed_bytes.len(), n.len());
                        let ghost before = out@;
                        out.push((label, insert));
                        proof {
                            assert(spec_pairs(out@) =~= spec_pairs(before).push((label@, insert@)));
                        }
                    }
                },
                None => {},
            }
            q = q + 1;
        }
        proof {
            assert(coll.requests@.subrange(0, q as int) =~= coll.requests@);
            assert(colls@.subrange(0, c + 1).drop_last() =~= colls@.subrange(0, c as int));
        }
        c = c + 1;
    }
    proof {
        assert(colls@.subrange(0, c as int) =~= colls@);
    }
    if out.len() == 0 {
        let label = bytes_of("(no named requests)");
        let mut fallback: Vec<(Vec<u8>, Vec<u8>)> = Vec::new();
        fallback.push((label, Vec::new()));
        proof {
            assert(spec_pairs(fallback@) =~= seq![(spec_no_request_label(), Seq::<u8>::empty())]);
        }
        return fallback;
    }
    out
}

pub(crate) fn at_char_start(s: &[u8], i: usize) -> (r: bool)
    ensures
        r == spec_at_char_start(s@, i as int),
{
    i == 0 || i >= s.len() || !(0x80 <= s[i] && s[i] < 0xC0)
}

/// Variable suggestions where every cut they make falls between
/// characters; `None` when one would fall inside a character.
pub fn env_suggestions_checked(vars: &Vec<(String, String)>, typed: &str) -> (r: Option<Vec<(Vec<u8>, Vec<u8>)>>)
    ensures
        r.is_some() <==> spec_env_vars_cuttable(vars@, typed@),
        r matches Some(items) ==> {
            &&& spec_env_items(vars@, typed@).len() > 0 ==> spec_pairs(items@) == spec_env_items(vars@, typed@)
            &&& spec_env_items(vars@, typed@).len() == 0 ==> spec_pairs(items@) == seq![(spec_no_env_label(), Seq::<u8>::empty())]
        },
{
    let t = bytes_of(typed);
    let mut i: usize = 0;
    while i < vars.len()
        invariant
            i <= vars@.len(),
            t@ == vstd::utf8::encode_utf8(typed@),
            forall|k: int| 0 <= k < i ==> spec_var_cuttable(#[trigger] vars@[k], typed@),
        decreases vars@.len() - i,
    {
        let k = bytes_of(vars[i].0.as_str());
        let v = bytes_of(vars[i].1.as_str());
        if candidate_matches(vars[i].0.as_str(), typed) {
            let cut = if t.len() < k.len() { t.len() } else { k.len() };
            if !at_char_start(k.as_slice(), cut) {
                return None;
            }
        }
        if v.len() > 20 && !at_char_start(v.as_slice(), 19) {
            return None;
        }
        proof {
            let kb = vstd::utf8::encode_utf8(vars@[i as int].0@);
            let vb = vstd::utf8::encode_utf8(vars@[i as int].1@);
            let tl = vstd::utf8::encode_utf8(typed@).len() as int;
            assert(k@ == kb);
            assert(v@ == vb);
            assert(spec_candidate_matches(vars@[i as int].0@, typed@) ==> spec_at_char_start(kb, if tl < kb.len() { tl } else { kb.len() as int }));
            assert(vb.len() > 20 ==> spec_at_char_start(vb, 19));
            assert(spec_var_cuttable(vars@[i as int], typed@));
        }
        i = i + 1;
    }
    Some(env_suggestions(vars, typed))
}

/// Request-name suggestions where every offered name is at least as long
/// as the typed text and can be cut after it; `None` otherwise.
pub fn request_name_suggestions_checked(colls: &Vec<Collection>, typed: &str) -> (r: Option<Vec<(Vec<u8>, Vec<u8>)>>)
    ensures
        r.is_some() <==> spec_names_cuttable(colls@, typed@),
        r matches Some(items) ==> {
            &&& spec_request_items(colls@, typed@).len() > 0 ==> spec_pairs(items@) == spec_request_items(colls@, typed@)
            &&& spec_request_items(colls@, typed@).len() == 0 ==> spec_pairs(items@) == seq![(spec_no_request_label(), Seq::<u8>::empty())]
        },
{
    let t = bytes_of(typed);
    let mut c: usize = 0;
    while c < colls.len()
        invariant
            c <= colls@.len(),
            t@ == vstd::utf8::encode_utf8(typed@),
            forall|ci: int, q: int|
                0 <= ci < c && 0 <= q < colls@[ci].requests@.len()
                    && (#[trigger] colls@[ci].requests@[q]).name.is_some()
                    && spec_candidate_matches(colls@[ci].requests@[q].name.unwrap()@, typed@) ==> {
                    let n = vstd::utf8::encode_utf8(colls@[ci].requests@[q].name.unwrap()@);
                    let tl = vstd::utf8::encode_utf8(typed@).len() as int;
                    tl <= n.len() && spec_at_char_start(n, tl)
                },
        decreases colls@.len() - c,
    {
        let coll = &colls[c];
        let mut q: usize = 0;
        while q < coll.requests.len()
            invariant
                c < colls@.len(),
                *coll == colls@[c as int],
                q <= coll.requests@.len(),
                t@ == vstd::utf8::encode_utf8(typed@),
                forall|ci: int, qq: int|
                    0 <= ci < c && 0 <= qq < colls@[ci].requests@.len()
                        && (#[trigger] colls@[ci].requests@[qq]).name.is_some()
                        && spec_candidate_matches(colls@[ci].requests@[qq].name.unwrap()@, typed@) ==> {
                        let n = vstd::utf8::encode_utf8(colls@[ci].requests@[qq].name.unwrap()@);
                        let tl = vstd::utf8::encode_utf8(typed@).len() as int;
                        tl <= n.len() && spec_at_char_start(n, tl)
                    },
                forall|qq: int|
                    0 <= qq < q && (#[trigger] colls@[c as int].requests@[qq]).name.is_some()
                        && spec_candidate_matches(colls@[c as int].requests@[qq].name.unwrap()@, typed@) ==> {
                        let n = vstd::utf8::encode_utf8(colls@[c as int].requests@[qq].name.unwrap()@);
                        let tl = vstd::utf8::encode_utf8(typed@).len() as int;
                        tl <= n.len() && spec_at_char_start(n, tl)
                    },
            decreases coll.requests@.len() - q,
        {
            match &coll.requests[q].name {
                Some(name) => {
                    if candidate_matches(name.as_str(), typed) {
                        let n = bytes_of(name.as_str());
                        if t.len() > n.len() || !at_char_start(n.as_slice(), t.len()) {
                            proof {
                                assert(colls@[c as int].requests@[q as int] == coll.requests@[q as int]);
                            }
                            return None;
                        }
                    }
                },
                None => {},
            }
            q = q + 1;
        }
        c = c + 1;
    }
    Some(request_name_suggestions(colls, typed))
}

} // verus!
