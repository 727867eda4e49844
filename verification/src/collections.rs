use vstd::prelude::*;
use crate::model::QueryParam;
use crate::strutil::{spec_to_lowercase, to_lowercase, spec_contains_str, contains_str, chars_of, string_from_chars, str_eq};

verus! {

/// What the collections tree shows of one collection: whether it is
/// expanded, and for each of its requests whether it passes the filter.
#[derive(Debug)]
pub struct TreeCollection {
    pub expanded: bool,
    pub shown: Vec<bool>,
}

/// A collection is listed unless a filter is set and none of its requests
/// passes it.
pub open spec fn spec_listed(c: TreeCollection, has_filter: bool) -> bool {
    !has_filter || exists|r: int| 0 <= r < c.shown@.len() && c.shown@[r]
}

/// The rows one request list adds: the requests below `n` that are shown
/// (all of them without a filter), in order.
pub open spec fn spec_request_rows(shown: Seq<bool>, has_filter: bool, ci: int, n: int) -> Seq<(int, Option<int>)>
    decreases n,
{
    if n <= 0 {
        Seq::empty()
    } else if !has_filter || shown[n - 1] {
        spec_request_rows(shown, has_filter, ci, n - 1).push((ci, Some(n - 1)))
    } else {
        spec_request_rows(shown, has_filter, ci, n - 1)
    }
}

/// The rows of the first `n` collections of the tree: for each listed
/// collection its header row, then, when it is expanded, its shown requests.
pub open spec fn spec_tree_rows(tree: Seq<TreeCollection>, has_filter: bool, n: int) -> Seq<(int, Option<int>)>
    decreases n,
{
    if n <= 0 {
        Seq::empty()
    } else {
        let c = tree[n - 1];
        let before = spec_tree_rows(tree, has_filter, n - 1);
        if spec_listed(c, has_filter) {
            let with_header = before.push((n - 1, None));
            if c.expanded {
                with_header + spec_request_rows(c.shown@, has_filter, n - 1, c.shown@.len() as int)
            } else {
                with_header
            }
        } else {
            before
        }
    }
}

fn any_shown(shown: &Vec<bool>) -> (r: bool)
    ensures
        r == exists|k: int| 0 <= k < shown@.len() && shown@[k],
{
    let mut i: usize = 0;
    while i < shown.len()
        invariant
            i <= shown@.len(),
            forall|k: int| 0 <= k < i ==> !shown@[k],
        decreases shown@.len() - i,
    {
        if shown[i] {
            return true;
        }
        i = i + 1;
    }
    false
}

/// Map a row of the collections list to (collection, request): `None` as
/// the request for a collection's header row; `None` past the last row.
pub fn flat_idx_to_coll_req(tree: &Vec<TreeCollection>, has_filter: bool, flat_idx: usize) -> (r: Option<(usize, Option<usize>)>)
    ensures
        ({
            let rows = spec_tree_rows(tree@, has_filter, tree@.len() as int);
            match r {
                Some((ci, ri)) => flat_idx < rows.len() && rows[flat_idx as int] == (ci as int, match ri {
                    Some(x) => Some(x as int),
                    None => None::<int>,
                }),
                None => flat_idx >= rows.len(),
            }
        }),
{
    let mut idx: usize = 0;
    let mut ci: usize = 0;
    while ci < tree.len()
        invariant
            ci <= tree@.len(),
            idx == spec_tree_rows(tree@, has_filter, ci as int).len(),
            idx <= flat_idx,
            forall|c: int| 0 <= c <= ci ==> #[trigger] spec_tree_rows(tree@, has_filter, c).len() <= spec_tree_rows(tree@, has_filter, ci as int).len(),
        decreases tree@.len() - ci,
    {
        let c = &tree[ci];
        let listed = !has_filter || any_shown(&c.shown);
        let ghost before = spec_tree_rows(tree@, has_filter, ci as int);
        if listed {
            if idx == flat_idx {
                proof {
                    lemma_tree_rows_prefix(tree@, has_filter, ci as int + 1, tree@.len() as int);
                }
                return Some((ci, None));
            }
            idx = idx + 1;
            if c.expanded {
                let mut ri: usize = 0;
                while ri < c.shown.len()
                    invariant
                        ci < tree@.len(),
                        *c == tree@[ci as int],
                        c.expanded,
                        spec_listed(*c, has_filter),
                        ri <= c.shown@.len(),
                        before == spec_tree_rows(tree@, has_filter, ci as int),
                        idx == before.len() + 1 + spec_request_rows(c.shown@, has_filter, ci as int, ri as int).len(),
                        idx <= flat_idx,
                    decreases c.shown@.len() - ri,
                {
                    if !has_filter || c.shown[ri] {
                        if idx == flat_idx {
                            proof {
                                lemma_request_rows_prefix(c.shown@, has_filter, ci as int, ri as int + 1, c.shown@.len() as int);
                                lemma_tree_rows_prefix(tree@, has_filter, ci as int + 1, tree@.len() as int);
                                let short = spec_request_rows(c.shown@, has_filter, ci as int, ri as int);
                                let rr = spec_request_rows(c.shown@, has_filter, ci as int, ri as int + 1);
                                assert(rr == short.push((ci as int, Some(ri as int))));
                                let full = spec_request_rows(c.shown@, has_filter, ci as int, c.shown@.len() as int);
                                assert(full[short.len() as int] == (ci as int, Some(ri as int)));
                                assert(spec_listed(*c, has_filter));
                                let t1 = spec_tree_rows(tree@, has_filter, ci as int + 1);
                                assert(t1 == before.push((ci as int, None)) + full);
                                assert(t1[flat_idx as int] == full[short.len() as int]);
                            }
                            return Some((ci, Some(ri)));
                        }
                        idx = idx + 1;
                    }
                    ri = ri + 1;
                }
            }
        }
        ci = ci + 1;
        proof {
            assert forall|k: int| 0 <= k <= ci implies #[trigger] spec_tree_rows(tree@, has_filter, k).len() <= spec_tree_rows(tree@, has_filter, ci as int).len() by {
                if k == ci {
                } else {
                    assert(spec_tree_rows(tree@, has_filter, k).len() <= spec_tree_rows(tree@, has_filter, ci - 1).len());
                }
            }
        }
    }
    None
}

pub proof fn lemma_request_rows_prefix(shown: Seq<bool>, has_filter: bool, ci: int, m: int, n: int)
    requires
        0 <= m <= n,
    ensures
        spec_request_rows(shown, has_filter, ci, m).len() <= spec_request_rows(shown, has_filter, ci, n).len(),
        forall|k: int| 0 <= k < spec_request_rows(shown, has_filter, ci, m).len() ==>
            #[trigger] spec_request_rows(shown, has_filter, ci, n)[k] == spec_request_rows(shown, has_filter, ci, m)[k],
    decreases n - m,
{
    if m < n {
        lemma_request_rows_prefix(shown, has_filter, ci, m, n - 1);
    }
}

pub proof fn lemma_tree_rows_prefix(tree: Seq<TreeCollection>, has_filter: bool, m: int, n: int)
    requires
        0 <= m <= n,
    ensures
        spec_tree_rows(tree, has_filter, m).len() <= spec_tree_rows(tree, has_filter, n).len(),
        forall|k: int| 0 <= k < spec_tree_rows(tree, has_filter, m).len() ==>
            #[trigger] spec_tree_rows(tree, has_filter, n)[k] == spec_tree_rows(tree, has_filter, m)[k],
    decreases n - m,
{
    if m < n {
        lemma_tree_rows_prefix(tree, has_filter, m, n - 1);
    }
}

/// A request passes the filter when its lowercase display name or
/// lowercase URL contains the lowercase filter text.
pub open spec fn spec_passes_filter(display_name: Seq<char>, url: Seq<char>, filter: Seq<char>) -> bool {
    spec_contains_str(spec_to_lowercase(display_name), spec_to_lowercase(filter))
        || spec_contains_str(spec_to_lowercase(url), spec_to_lowercase(filter))
}

/// Whether a request with this display name and URL passes `filter`.
pub fn passes_filter(display_name: &str, url: &str, filter: &str) -> (r: bool)
    ensures
        r == spec_passes_filter(display_name@, url@, filter@),
{
    let f = to_lowercase(filter);
    let n = to_lowercase(display_name);
    let u = to_lowercase(url);
    contains_str(n.as_str(), f.as_str()) || contains_str(u.as_str(), f.as_str())
}

/// The index of the first `c` in `s`, or the length of `s`.
pub open spec fn spec_char_index(s: Seq<char>, c: char) -> int
    decreases s.len(),
{
    if s.len() == 0 {
        0
    } else {
        let r = spec_char_index(s.drop_last(), c);
        if r < s.len() - 1 {
            r
        } else if s.last() == c {
            s.len() - 1
        } else {
            s.len() as int
        }
    }
}

/// `s` cut at every `c` (`str::split`): always at least one piece.
pub open spec fn spec_split(s: Seq<char>, c: char) -> Seq<Seq<char>>
    decreases s.len(),
{
    if s.len() == 0 {
        seq![Seq::empty()]
    } else {
        let rest = spec_split(s.drop_last(), c);
        if s.last() == c {
            rest.push(Seq::empty())
        } else {
            rest.update(rest.len() - 1, rest.last().push(s.last()))
        }
    }
}

/// The key of a `key=value` piece: up to the first `=`.
pub open spec fn spec_piece_key(p: Seq<char>) -> Seq<char> {
    p.subrange(0, spec_char_index(p, '='))
}

/// The value of a `key=value` piece: after the first `=`, empty without one.
pub open spec fn spec_piece_value(p: Seq<char>) -> Seq<char> {
    let i = spec_char_index(p, '=');
    if i < p.len() { p.subrange(i + 1, p.len() as int) } else { Seq::empty() }
}

/// Whether the first parameter with key `key` is enabled; true when there
/// is none.
pub open spec fn spec_enabled_for(existing: Seq<QueryParam>, key: Seq<char>) -> bool
    decreases existing.len(),
{
    if existing.len() == 0 {
        true
    } else if exists|k: int| 0 <= k < existing.len() - 1 && (#[trigger] existing[k]).key@ == key {
        spec_enabled_for(existing.drop_last(), key)
    } else if existing.last().key@ == key {
        existing.last().enabled
    } else {
        true
    }
}

/// The parameters read from the pieces of a query string: one for each
/// piece with a non-empty key, keeping the enabled flag of an existing
/// parameter with that key.
pub open spec fn spec_params_of(pieces: Seq<Seq<char>>, existing: Seq<QueryParam>) -> Seq<(Seq<char>, Seq<char>, bool)>
    decreases pieces.len(),
{
    if pieces.len() == 0 {
        Seq::empty()
    } else {
        let rest = spec_params_of(pieces.drop_last(), existing);
        let k = spec_piece_key(pieces.last());
        if k.len() > 0 {
            rest.push((k, spec_piece_value(pieces.last()), spec_enabled_for(existing, k)))
        } else {
            rest
        }
    }
}

/// Views of query parameters.
pub open spec fn spec_param_views(v: Seq<QueryParam>) -> Seq<(Seq<char>, Seq<char>, bool)> {
    Seq::new(v.len(), |i: int| (v[i].key@, v[i].value@, v[i].enabled))
}

/// The query parameters a URL holds: those of the text after its first
/// `?`, none when it has no `?`.
pub open spec fn spec_params_from_url(url: Seq<char>, existing: Seq<QueryParam>) -> Seq<(Seq<char>, Seq<char>, bool)> {
    let q = spec_char_index(url, '?');
    if q < url.len() {
        spec_params_of(spec_split(url.subrange(q + 1, url.len() as int), '&'), existing)
    } else {
        Seq::empty()
    }
}

pub proof fn lemma_split_nonempty(s: Seq<char>, c: char)
    ensures
        spec_split(s, c).len() >= 1,
    decreases s.len(),
{
    if s.len() > 0 {
        lemma_split_nonempty(s.drop_last(), c);
    }
}

pub proof fn lemma_char_index_bounds(s: Seq<char>, c: char)
    ensures
        0 <= spec_char_index(s, c) <= s.len(),
        spec_char_index(s, c) < s.len() ==> s[spec_char_index(s, c)] == c,
        forall|k: int| 0 <= k < spec_char_index(s, c) ==> #[trigger] s[k] != c,
    decreases s.len(),
{
    if s.len() > 0 {
        lemma_char_index_bounds(s.drop_last(), c);
        assert forall|k: int| 0 <= k < s.len() - 1 implies s.drop_last()[k] == #[trigger] s[k] by {}
    }
}

fn char_index(s: &Vec<char>, c: char) -> (r: usize)
    ensures
        r == spec_char_index(s@, c),
{
    proof {
        lemma_char_index_bounds(s@, c);
    }
    let mut i: usize = 0;
    while i < s.len()
        invariant
            i <= s@.len(),
            0 <= spec_char_index(s@, c) <= s@.len(),
            spec_char_index(s@, c) < s@.len() ==> s@[spec_char_index(s@, c)] == c,
            forall|k: int| 0 <= k < spec_char_index(s@, c) ==> #[trigger] s@[k] != c,
            i <= spec_char_index(s@, c),
        decreases s@.len() - i,
    {
        if s[i] == c {
            return i;
        }
        i = i + 1;
    }
    i
}

fn copy_chars(s: &Vec<char>, start: usize, end: usize) -> (r: Vec<char>)
    requires
        start <= end <= s@.len(),
    ensures
        r@ == s@.subrange(start as int, end as int),
{
    let mut out: Vec<char> = Vec::new();
    let mut i = start;
    while i < end
        invariant
            start <= i <= end <= s@.len(),
            out@ == s@.subrange(start as int, i as int),
        decreases end - i,
    {
        out.push(s[i]);
        i = i + 1;
    }
    out
}

pub(crate) fn split_chars(s: &Vec<char>, c: char) -> (r: Vec<Vec<char>>)
    ensures
        r@.len() == spec_split(s@, c).len(),
        forall|k: int| 0 <= k < r@.len() ==> (#[trigger] r@[k])@ == spec_split(s@, c)[k],
{
    let mut done: Vec<Vec<char>> = Vec::new();
    let mut cur: Vec<char> = Vec::new();
    let mut i: usize = 0;
    while i < s.len()
        invariant
            i <= s@.len(),
            spec_split(s@.subrange(0, i as int), c).len() == done@.len() + 1,
            forall|k: int| 0 <= k < done@.len() ==> (#[trigger] done@[k])@ == spec_split(s@.subrange(0, i as int), c)[k],
            cur@ == spec_split(s@.subrange(0, i as int), c).last(),
        decreases s@.len() - i,
    {
        proof {
            assert(s@.subrange(0, i + 1).drop_last() =~= s@.subrange(0, i as int));
            lemma_split_nonempty(s@.subrange(0, i as int), c);
        }
        if s[i] == c {
            done.push(cur);
            cur = Vec::new();
        } else {
            cur.push(s[i]);
        }
        i = i + 1;
    }
    proof {
        assert(s@.subrange(0, i as int) =~= s@);
    }
    done.push(cur);
    done
}

fn enabled_for(existing: &Vec<QueryParam>, key: &Vec<char>) -> (r: bool)
    ensures
        r == spec_enabled_for(existing@, key@),
{
    let k = string_from_chars(key.as_slice());
    let mut i: usize = 0;
    while i < existing.len()
        invariant
            i <= existing@.len(),
            k@ == key@,
            forall|j: int| 0 <= j < i ==> (#[trigger] existing@[j]).key@ != key@,
        decreases existing@.len() - i,
    {
        if str_eq(existing[i].key.as_str(), k.as_str()) {
            proof {
                lemma_enabled_for_first(existing@, key@, i as int);
            }
            return existing[i].enabled;
        }
        i = i + 1;
    }
    proof {
        lemma_enabled_for_none(existing@, key@);
    }
    true
}

pub proof fn lemma_enabled_for_first(existing: Seq<QueryParam>, key: Seq<char>, i: int)
    requires
        0 <= i < existing.len(),
        existing[i].key@ == key,
        forall|j: int| 0 <= j < i ==> (#[trigger] existing[j]).key@ != key,
    ensures
        spec_enabled_for(existing, key) == existing[i].enabled,
    decreases existing.len(),
{
    if i < existing.len() - 1 {
        assert(existing.drop_last()[i] == existing[i]);
        assert forall|j: int| 0 <= j < i implies (#[trigger] existing.drop_last()[j]).key@ != key by {
            assert(existing.drop_last()[j] == existing[j]);
        }
        lemma_enabled_for_first(existing.drop_last(), key, i);
        assert(existing[i].key@ == key);
    } else {
        assert(!exists|k: int| 0 <= k < existing.len() - 1 && (#[trigger] existing[k]).key@ == key);
    }
}

pub proof fn lemma_enabled_for_none(existing: Seq<QueryParam>, key: Seq<char>)
    requires
        forall|j: int| 0 <= j < existing.len() ==> (#[trigger] existing[j]).key@ != key,
    ensures
        spec_enabled_for(existing, key),
    decreases existing.len(),
{
    if existing.len() > 0 {
        assert forall|j: int| 0 <= j < existing.len() - 1 implies (#[trigger] existing.drop_last()[j]).key@ != key by {
            assert(existing.drop_last()[j] == existing[j]);
        }
        lemma_enabled_for_none(existing.drop_last(), key);
    }
}

/// The query parameters read from `url` (see [`spec_params_from_url`]),
/// for the parameter list to follow what the URL says.
pub fn params_from_url(url: &str, existing: &Vec<QueryParam>) -> (r: Vec<QueryParam>)
    ensures
        spec_param_views(r@) == spec_params_from_url(url@, existing@),
{
    let cs = chars_of(url);
    let q = char_index(&cs, '?');
    let mut out: Vec<QueryParam> = Vec::new();
    if q >= cs.len() {
        proof {
            assert(spec_param_views(out@) =~= Seq::<(Seq<char>, Seq<char>, bool)>::empty());
        }
        return out;
    }
    proof {
        lemma_char_index_bounds(cs@, '?');
    }
    let query = copy_chars(&cs, q + 1, cs.len());
    let pieces = split_chars(&query, '&');
    let ghost sp = spec_split(query@, '&');
    let mut i: usize = 0;
    while i < pieces.len()
        invariant
            i <= pieces@.len(),
            pieces@.len() == sp.len(),
            forall|k: int| 0 <= k < pieces@.len() ==> (#[trigger] pieces@[k])@ == sp[k],
            spec_param_views(out@) == spec_params_of(sp.subrange(0, i as int), existing@),
        decreases pieces@.len() - i,
    {
        let piece = &pieces[i];
        let eq = char_index(piece, '=');
        proof {
            lemma_char_index_bounds(piece@, '=');
            assert(sp.subrange(0, i + 1).drop_last() =~= sp.subrange(0, i as int));
            assert(sp.subrange(0, i + 1).last() == piece@);
        }
        let key = copy_chars(piece, 0, eq);
        if key.len() > 0 {
            let value = if eq < piece.len() { copy_chars(piece, eq + 1, piece.len()) } else { Vec::new() };
            let enabled = enabled_for(existing, &key);
            let ghost before = out@;
            out.push(QueryParam {
                key: string_from_chars(key.as_slice()),
                value: string_from_chars(value.as_slice()),
                enabled,
            });
            proof {
                assert(spec_param_views(out@) =~= spec_param_views(before).push((key@, value@, enabled)));
                assert(value@ == spec_piece_value(piece@));
            }
        }
        i = i + 1;
    }
    proof {
        assert(sp.subrange(0, i as int) =~= sp);
        assert(query@ == cs@.subrange(q + 1, cs@.len() as int));
    }
    out
}

} // verus!
