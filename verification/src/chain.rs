use vstd::prelude::*;
use vstd::string::StringExecFns;
use crate::model::{Collection, Header, Request};
use crate::strutil::{chars_of, string_from_chars, str_eq, concat, decimal_string, spec_decimal};
use crate::vim_buffer::copy_range;

verus! {

/// The first request of `reqs` named `name`, or -1.
pub open spec fn spec_first_named(reqs: Seq<Request>, name: Seq<char>) -> int
    decreases reqs.len(),
{
    if reqs.len() == 0 {
        -1
    } else if spec_first_named(reqs.drop_last(), name) >= 0 {
        spec_first_named(reqs.drop_last(), name)
    } else if reqs.last().name.is_some() && reqs.last().name.unwrap()@ == name {
        reqs.len() - 1
    } else {
        -1
    }
}

pub proof fn lemma_first_named(reqs: Seq<Request>, name: Seq<char>)
    ensures
        -1 <= spec_first_named(reqs, name) < reqs.len(),
        spec_first_named(reqs, name) >= 0 ==> reqs[spec_first_named(reqs, name)].name.is_some()
            && reqs[spec_first_named(reqs, name)].name.unwrap()@ == name,
        forall|k: int| 0 <= k < reqs.len() && (k < spec_first_named(reqs, name) || spec_first_named(reqs, name) < 0)
            ==> !((#[trigger] reqs[k]).name.is_some() && reqs[k].name.unwrap()@ == name),
    decreases reqs.len(),
{
    if reqs.len() > 0 {
        lemma_first_named(reqs.drop_last(), name);
        assert forall|k: int| 0 <= k < reqs.len() - 1 implies reqs.drop_last()[k] == #[trigger] reqs[k] by {}
    }
}

fn first_named(reqs: &Vec<Request>, name: &str) -> (r: Option<usize>)
    ensures
        match r {
            Some(i) => spec_first_named(reqs@, name@) == i as int,
            None => spec_first_named(reqs@, name@) == -1,
        },
{
    proof {
        lemma_first_named(reqs@, name@);
    }
    let mut i: usize = 0;
    while i < reqs.len()
        invariant
            i <= reqs@.len(),
            -1 <= spec_first_named(reqs@, name@) < reqs@.len(),
            spec_first_named(reqs@, name@) >= 0 ==> reqs@[spec_first_named(reqs@, name@)].name.is_some()
                && reqs@[spec_first_named(reqs@, name@)].name.unwrap()@ == name@,
            forall|k: int| 0 <= k < reqs@.len() && (k < spec_first_named(reqs@, name@) || spec_first_named(reqs@, name@) < 0)
                ==> !((#[trigger] reqs@[k]).name.is_some() && reqs@[k].name.unwrap()@ == name@),
            spec_first_named(reqs@, name@) < 0 || i <= spec_first_named(reqs@, name@),
        decreases reqs@.len() - i,
    {
        let hit = match &reqs[i].name {
            Some(n) => str_eq(n.as_str(), name),
            None => false,
        };
        if hit {
            return Some(i);
        }
        i = i + 1;
    }
    None
}

/// The collection `c` holds a request named `name`, and is named `coll`
/// when `coll` is given.
pub open spec fn spec_holds_named(c: Collection, coll: Option<Seq<char>>, name: Seq<char>) -> bool {
    (coll.is_none() || c.name@ == coll.unwrap()) && spec_first_named(c.requests@, name) >= 0
}

/// Where a reference to request `name` (of collection `coll`, if given)
/// leads: the first such request of the first collection with that name;
/// without a collection, the active collection first, then the others in
/// order. `(-1, -1)` when there is none.
pub open spec fn spec_find_request(colls: Seq<Collection>, active: int, name: Seq<char>, coll: Option<Seq<char>>) -> (int, int) {
    if coll.is_some() {
        if exists|ci: int| 0 <= ci < colls.len() && spec_holds_named(#[trigger] colls[ci], coll, name) {
            let ci = choose|ci: int| 0 <= ci < colls.len() && spec_holds_named(#[trigger] colls[ci], coll, name)
                && forall|cj: int| 0 <= cj < ci ==> !spec_holds_named(#[trigger] colls[cj], coll, name);
            (ci, spec_first_named(colls[ci].requests@, name))
        } else {
            (-1, -1)
        }
    } else if 0 <= active < colls.len() && spec_holds_named(colls[active], coll, name) {
        (active, spec_first_named(colls[active].requests@, name))
    } else if exists|ci: int| 0 <= ci < colls.len() && ci != active && spec_holds_named(#[trigger] colls[ci], coll, name) {
        let ci = choose|ci: int| 0 <= ci < colls.len() && ci != active && spec_holds_named(#[trigger] colls[ci], coll, name)
            && forall|cj: int| 0 <= cj < ci && cj != active ==> !spec_holds_named(#[trigger] colls[cj], coll, name);
        (ci, spec_first_named(colls[ci].requests@, name))
    } else {
        (-1, -1)
    }
}

fn holds_named(c: &Collection, coll: Option<&str>, name: &str) -> (r: Option<usize>)
    ensures
        r.is_some() == spec_holds_named(*c, match coll { Some(s) => Some(s@), None => None }, name@),
        r.is_some() ==> r.unwrap() as int == spec_first_named(c.requests@, name@),
{
    let name_ok = match coll {
        Some(s) => str_eq(c.name.as_str(), s),
        None => true,
    };
    if !name_ok {
        return None;
    }
    first_named(&c.requests, name)
}

/// Find a request by name across collections (see [`spec_find_request`]):
/// the indices of its collection and of the request.
pub fn find_request_by_name(colls: &Vec<Collection>, active: usize, name: &str, collection: Option<&str>) -> (r: Option<(usize, usize)>)
    ensures
        ({
            let coll = match collection { Some(s) => Some(s@), None => None };
            let found = spec_find_request(colls@, active as int, name@, coll);
            match r {
                Some((ci, ri)) => found == (ci as int, ri as int),
                None => found == (-1int, -1int),
            }
        }),
        r matches Some((ci, ri)) ==> ci < colls@.len(),
{
    let ghost coll = match collection { Some(s) => Some(s@), None => None::<Seq<char>> };
    if collection.is_some() {
        let mut ci: usize = 0;
        while ci < colls.len()
            invariant
                ci <= colls@.len(),
                coll == (match collection { Some(s) => Some(s@), None => None::<Seq<char>> }),
                coll.is_some(),
                forall|cj: int| 0 <= cj < ci ==> !spec_holds_named(#[trigger] colls@[cj], coll, name@),
            decreases colls@.len() - ci,
        {
            match holds_named(&colls[ci], collection, name) {
                Some(ri) => {
                    proof {
                        let w = choose|k: int| 0 <= k < colls@.len() && spec_holds_named(#[trigger] colls@[k], coll, name@)
                            && forall|cj: int| 0 <= cj < k ==> !spec_holds_named(#[trigger] colls@[cj], coll, name@);
                        assert(spec_holds_named(colls@[ci as int], coll, name@));
                        if w < ci {
                        } else if w > ci {
                            assert(!spec_holds_named(colls@[ci as int], coll, name@));
                        }
                    }
                    return Some((ci, ri));
                },
                None => {},
            }
            ci = ci + 1;
        }
        return None;
    }
    if active < colls.len() {
        match holds_named(&colls[active], None, name) {
            Some(ri) => {
                return Some((active, ri));
            },
            None => {},
        }
    }
    let mut ci: usize = 0;
    while ci < colls.len()
        invariant
            ci <= colls@.len(),
            coll.is_none(),
            coll == (match collection { Some(s) => Some(s@), None => None::<Seq<char>> }),
            !(0 <= active < colls@.len() && spec_holds_named(colls@[active as int], coll, name@)),
            forall|cj: int| 0 <= cj < ci && cj != active ==> !spec_holds_named(#[trigger] colls@[cj], coll, name@),
        decreases colls@.len() - ci,
    {
        if ci != active {
            match holds_named(&colls[ci], None, name) {
                Some(ri) => {
                    proof {
                        let w = choose|k: int| 0 <= k < colls@.len() && k != active && spec_holds_named(#[trigger] colls@[k], coll, name@)
                            && forall|cj: int| 0 <= cj < k && cj != active ==> !spec_holds_named(#[trigger] colls@[cj], coll, name@);
                        assert(spec_holds_named(colls@[ci as int], coll, name@));
                        if w < ci {
                        } else if w > ci {
                            assert(!spec_holds_named(colls@[ci as int], coll, name@));
                        }
                    }
                    return Some((ci, ri));
                },
                None => {},
            }
        }
        ci = ci + 1;
    }
    None
}

/// The key under which a request's response is cached: `collection/name`.
pub open spec fn spec_cache_key(coll: Seq<char>, name: Seq<char>) -> Seq<char> {
    coll + seq!['/'] + name
}

/// The cache key of request `name` of collection `coll`.
pub fn cache_key(coll: &str, name: &str) -> (r: String)
    ensures
        r@ == spec_cache_key(coll@, name@),
{
    let mut cs = chars_of(coll);
    cs.push('/');
    let ns = chars_of(name);
    let mut i: usize = 0;
    let ghost start = cs@;
    while i < ns.len()
        invariant
            i <= ns@.len(),
            cs@ == start + ns@.subrange(0, i as int),
        decreases ns@.len() - i,
    {
        cs.push(ns[i]);
        i = i + 1;
        proof {
            assert(start + ns@.subrange(0, i as int) =~= (start + ns@.subrange(0, i - 1)).push(ns@[i - 1]));
        }
    }
    proof {
        assert(ns@.subrange(0, i as int) =~= name@);
        assert(cs@ =~= spec_cache_key(coll@, name@));
    }
    string_from_chars(cs.as_slice())
}

/// A reference that leads back to a request being resolved is circular:
/// the error carries the chain of keys with `key` added.
pub fn check_not_resolving(resolving: &Vec<String>, key: &String) -> (r: Result<(), Vec<String>>)
    ensures
        match r {
            Ok(()) => forall|i: int| 0 <= i < resolving@.len() ==> (#[trigger] resolving@[i])@ != key@,
            Err(chain) => (exists|i: int| 0 <= i < resolving@.len() && (#[trigger] resolving@[i])@ == key@)
                && chain@.len() == resolving@.len() + 1
                && (forall|i: int| 0 <= i < resolving@.len() ==> (#[trigger] chain@[i])@ == resolving@[i]@)
                && chain@[resolving@.len() as int]@ == key@,
        },
{
    let mut i: usize = 0;
    while i < resolving.len()
        invariant
            i <= resolving@.len(),
            forall|k: int| 0 <= k < i ==> (#[trigger] resolving@[k])@ != key@,
        decreases resolving@.len() - i,
    {
        if resolving[i] == *key {
            let mut chain: Vec<String> = Vec::new();
            let mut j: usize = 0;
            while j < resolving.len()
                invariant
                    j <= resolving@.len(),
                    chain@.len() == j,
                    forall|k: int| 0 <= k < j ==> (#[trigger] chain@[k])@ == resolving@[k]@,
                decreases resolving@.len() - j,
            {
                chain.push(resolving[j].clone());
                j = j + 1;
            }
            chain.push(key.clone());
            proof {
                assert(resolving@[i as int]@ == key@);
            }
            return Err(chain);
        }
        i = i + 1;
    }
    Ok(())
}

/// A cached response is still fresh when fewer whole seconds than the
/// time-to-live have passed since it was stored.
pub fn is_fresh(elapsed_secs: u64, ttl_secs: u64) -> (r: bool)
    ensures
        r == (elapsed_secs < ttl_secs),
{
    elapsed_secs < ttl_secs
}

/// Whether a response stored at `cached_at` is fresh under `ttl_secs`. It
/// reads the clock, so for a positive time-to-live what comes back is not
/// stated; a zero time-to-live is never fresh, whatever the clock says.
pub fn cache_entry_fresh(cached_at: &std::time::Instant, ttl_secs: u64) -> (r: bool)
    ensures
        ttl_secs == 0 ==> !r,
{
    is_fresh(crate::leader_menu::elapsed_secs(cached_at), ttl_secs)
}

/// A status a dependency may answer with: 2xx.
pub fn is_success_status(status: u16) -> (r: bool)
    ensures
        r == (200 <= status < 300),
{
    200 <= status && status < 300
}

/// The code of the ASCII lowercase of one character.
pub open spec fn spec_ascii_lower(c: char) -> u32 {
    if 'A' <= c <= 'Z' { ((c as u32) + 32) as u32 } else { c as u32 }
}

/// Equal up to ASCII case (`str::eq_ignore_ascii_case`).
pub open spec fn spec_eq_ignore_ascii_case(a: Seq<char>, b: Seq<char>) -> bool {
    a.len() == b.len() && forall|i: int| 0 <= i < a.len() ==> spec_ascii_lower(#[trigger] a[i]) == spec_ascii_lower(b[i])
}

fn ascii_lower(c: char) -> (r: u32)
    ensures
        r == spec_ascii_lower(c),
{
    if 'A' <= c && c <= 'Z' {
        (c as u32) + 32
    } else {
        c as u32
    }
}

/// Whether `a` equals `b` up to ASCII case.
pub fn eq_ignore_ascii_case(a: &str, b: &str) -> (r: bool)
    ensures
        r == spec_eq_ignore_ascii_case(a@, b@),
{
    let ac = chars_of(a);
    let bc = chars_of(b);
    if ac.len() != bc.len() {
        return false;
    }
    let mut i: usize = 0;
    while i < ac.len()
        invariant
            i <= ac@.len(),
            ac@ == a@,
            bc@ == b@,
            ac@.len() == bc@.len(),
            forall|k: int| 0 <= k < i ==> spec_ascii_lower(#[trigger] ac@[k]) == spec_ascii_lower(bc@[k]),
        decreases ac@.len() - i,
    {
        if ascii_lower(ac[i]) != ascii_lower(bc[i]) {
            return false;
        }
        i = i + 1;
    }
    true
}

/// Some enabled header is a `Content-Type` header, whatever its case.
pub open spec fn spec_has_content_type(hs: Seq<Header>) -> bool {
    exists|i: int| 0 <= i < hs.len() && (#[trigger] hs[i]).enabled && spec_eq_ignore_ascii_case(hs[i].name@, "content-type"@)
}

/// Add `Content-Type: content_type` unless an enabled header sets it.
pub fn ensure_content_type(headers: &mut Vec<Header>, content_type: &str)
    ensures
        spec_has_content_type(old(headers)@) ==> final(headers)@ == old(headers)@,
        !spec_has_content_type(old(headers)@) ==> {
            &&& final(headers)@.len() == old(headers)@.len() + 1
            &&& final(headers)@.subrange(0, old(headers)@.len() as int) == old(headers)@
            &&& final(headers)@.last().name@ == "Content-Type"@
            &&& final(headers)@.last().value@ == content_type@
            &&& final(headers)@.last().enabled
        },
{
    let mut i: usize = 0;
    while i < headers.len()
        invariant
            i <= headers@.len(),
            headers@ == old(headers)@,
            forall|k: int| 0 <= k < i ==> !((#[trigger] headers@[k]).enabled && spec_eq_ignore_ascii_case(headers@[k].name@, "content-type"@)),
        decreases headers@.len() - i,
    {
        if headers[i].enabled && eq_ignore_ascii_case(headers[i].name.as_str(), "content-type") {
            return;
        }
        i = i + 1;
    }
    let ghost before = headers@;
    headers.push(Header {
        name: String::from_str("Content-Type"),
        value: String::from_str(content_type),
        enabled: true,
    });
    proof {
        assert(headers@.subrange(0, before.len() as int) =~= before);
    }
}

/// Text to put in place of the bytes `start..end` of a value.
#[derive(Debug)]
pub struct Replacement {
    pub start: usize,
    pub end: usize,
    pub text: Vec<u8>,
}

/// The replacements lie in `0..len`, in order and without overlap.
pub open spec fn spec_replacements_ordered(rs: Seq<Replacement>, len: int) -> bool {
    &&& forall|i: int| 0 <= i < rs.len() ==> (#[trigger] rs[i]).start <= rs[i].end <= len
    &&& forall|i: int, j: int| 0 <= i < j < rs.len() ==> (#[trigger] rs[i]).end <= (#[trigger] rs[j]).start
}

/// `v` with each replacement made, the last first (as a reference
/// resolver that walks the references backwards does).
pub open spec fn spec_splice(v: Seq<u8>, rs: Seq<Replacement>) -> Seq<u8>
    decreases rs.len(),
{
    if rs.len() == 0 {
        v
    } else {
        let r = rs.last();
        spec_splice(v.subrange(0, r.start as int), rs.drop_last()) + r.text@ + v.subrange(r.end as int, v.len() as int)
    }
}

pub proof fn lemma_splice_extend(v: Seq<u8>, rs: Seq<Replacement>, m: int, n: int)
    requires
        0 <= m <= n <= v.len(),
        forall|i: int| 0 <= i < rs.len() ==> (#[trigger] rs[i]).start <= rs[i].end <= m,
    ensures
        spec_splice(v.subrange(0, m), rs) + v.subrange(m, n) == spec_splice(v.subrange(0, n), rs),
{
    if rs.len() == 0 {
        assert(v.subrange(0, m) + v.subrange(m, n) =~= v.subrange(0, n));
    } else {
        let r = rs.last();
        assert(rs[rs.len() - 1] == r);
        assert(v.subrange(0, m).subrange(0, r.start as int) =~= v.subrange(0, n).subrange(0, r.start as int));
        assert(v.subrange(0, m).subrange(r.end as int, m) + v.subrange(m, n) =~= v.subrange(0, n).subrange(r.end as int, n));
        let a = spec_splice(v.subrange(0, r.start as int), rs.drop_last()) + r.text@;
        assert(a + v.subrange(0, m).subrange(r.end as int, m) + v.subrange(m, n)
            =~= a + (v.subrange(0, m).subrange(r.end as int, m) + v.subrange(m, n)));
    }
}

/// `value` with the replacements made (see [`spec_splice`]).
pub fn splice(value: &[u8], rs: &Vec<Replacement>) -> (r: Vec<u8>)
    requires
        spec_replacements_ordered(rs@, value@.len() as int),
    ensures
        r@ == spec_splice(value@, rs@),
{
    let mut out: Vec<u8> = Vec::new();
    let mut pos: usize = 0;
    let mut k: usize = 0;
    while k < rs.len()
        invariant
            k <= rs@.len(),
            spec_replacements_ordered(rs@, value@.len() as int),
            pos <= value@.len(),
            k == 0 ==> pos == 0,
            k > 0 ==> pos == rs@[k - 1].end,
            out@ == spec_splice(value@.subrange(0, pos as int), rs@.subrange(0, k as int)),
        decreases rs@.len() - k,
    {
        let r = &rs[k];
        proof {
            if k > 0 {
                assert(rs@[k - 1].end <= rs@[k as int].start);
            }
            lemma_splice_extend(value@, rs@.subrange(0, k as int), pos as int, r.start as int);
            let e = rs@.subrange(0, k + 1);
            assert(e.drop_last() =~= rs@.subrange(0, k as int));
            assert(e.last() == *r);
            assert(value@.subrange(0, r.end as int).subrange(0, r.start as int) =~= value@.subrange(0, r.start as int));
            assert(value@.subrange(0, r.end as int).subrange(r.end as int, r.end as int) =~= Seq::<u8>::empty());
        }
        let gap = copy_range(value, pos, r.start);
        let ghost before = out@;
        let mut i: usize = 0;
        while i < gap.len()
            invariant
                i <= gap@.len(),
                out@ == before + gap@.subrange(0, i as int),
            decreases gap@.len() - i,
        {
            out.push(gap[i]);
            i = i + 1;
            proof {
                assert(before + gap@.subrange(0, i as int) =~= (before + gap@.subrange(0, i - 1)).push(gap@[i - 1]));
            }
        }
        let ghost mid = out@;
        let mut j: usize = 0;
        while j < r.text.len()
            invariant
                j <= r.text@.len(),
                out@ == mid + r.text@.subrange(0, j as int),
            decreases r.text@.len() - j,
        {
            out.push(r.text[j]);
            j = j + 1;
            proof {
                assert(mid + r.text@.subrange(0, j as int) =~= (mid + r.text@.subrange(0, j - 1)).push(r.text@[j - 1]));
            }
        }
        proof {
            assert(gap@.subrange(0, i as int) =~= gap@);
            assert(r.text@.subrange(0, j as int) =~= r.text@);
            assert(out@ =~= spec_splice(value@.subrange(0, r.end as int), rs@.subrange(0, k + 1)));
        }
        pos = r.end;
        k = k + 1;
    }
    proof {
        assert(forall|i: int| 0 <= i < rs@.len() ==> (#[trigger] rs@[i]).end <= pos) by {
            assert forall|i: int| 0 <= i < rs@.len() implies (#[trigger] rs@[i]).end <= pos by {
                if i < rs@.len() - 1 {
                    assert(rs@[i].end <= rs@[rs@.len() - 1].start);
                }
            }
        }
        assert(rs@.subrange(0, k as int) =~= rs@);
        lemma_splice_extend(value@, rs@, pos as int, value@.len() as int);
        assert(value@.subrange(0, value@.len() as int) =~= value@);
    }
    let tail = copy_range(value, pos, value.len());
    let ghost before = out@;
    let mut i: usize = 0;
    while i < tail.len()
        invariant
            i <= tail@.len(),
            out@ == before + tail@.subrange(0, i as int),
        decreases tail@.len() - i,
    {
        out.push(tail[i]);
        i = i + 1;
        proof {
            assert(before + tail@.subrange(0, i as int) =~= (before + tail@.subrange(0, i - 1)).push(tail@[i - 1]));
        }
    }
    proof {
        assert(tail@.subrange(0, i as int) =~= tail@);
    }
    out
}

/// The name of the active collection, if the index is in range.
pub open spec fn spec_active_name(colls: Seq<Collection>, active: int) -> Option<Seq<char>> {
    if 0 <= active < colls.len() { Some(colls[active].name@) } else { None }
}

fn active_name(colls: &Vec<Collection>, active: usize) -> (r: Option<&String>)
    ensures
        match r {
            Some(n) => spec_active_name(colls@, active as int) == Some(n@),
            None => spec_active_name(colls@, active as int).is_none(),
        },
{
    if active < colls.len() { Some(&colls[active].name) } else { None }
}

/// The references being resolved when a request starts executing: its own
/// cache key (under the active collection's name, empty when there is
/// none) when it has a name, else none.
pub fn resolving_start(colls: &Vec<Collection>, active: usize, name: &Option<String>) -> (r: Vec<String>)
    ensures
        name.is_none() ==> r@.len() == 0,
        name.is_some() ==> r@.len() == 1 && r@[0]@ == spec_cache_key(
            match spec_active_name(colls@, active as int) { Some(c) => c, None => ""@ },
            name.unwrap()@,
        ),
{
    let mut out: Vec<String> = Vec::new();
    match name {
        Some(n) => {
            let key = match active_name(colls, active) {
                Some(c) => cache_key(c.as_str(), n.as_str()),
                None => cache_key("", n.as_str()),
            };
            out.push(key);
        },
        None => {},
    }
    out
}

/// The key of the response history of the current request: its cache key
/// under the active collection's name (`_` when there is none); `None`
/// for a request without a name.
pub fn history_key(colls: &Vec<Collection>, active: usize, name: &Option<String>) -> (r: Option<String>)
    ensures
        name.is_none() ==> r.is_none(),
        name.is_some() ==> r.is_some() && r.unwrap()@ == spec_cache_key(
            match spec_active_name(colls@, active as int) { Some(c) => c, None => "_"@ },
            name.unwrap()@,
        ),
{
    match name {
        Some(n) => Some(match active_name(colls, active) {
            Some(c) => cache_key(c.as_str(), n.as_str()),
            None => cache_key("_", n.as_str()),
        }),
        None => None,
    }
}

/// The name a request saved as a copy gets: its name (or `New Request`)
/// followed by ` (copy)`.
pub fn copy_name(name: &Option<String>) -> (r: String)
    ensures
        r@ == (match name { Some(n) => n@, None => "New Request"@ }) + " (copy)"@,
{
    match name {
        Some(n) => crate::strutil::concat(n.as_str(), " (copy)"),
        None => crate::strutil::concat("New Request", " (copy)"),
    }
}

/// What resolving one reference to the request keyed `key` calls for.
#[derive(Debug)]
pub enum ChainDecision {
    /// The request is already being resolved: the chain of keys, `key` last.
    Circular(Vec<String>),
    /// Its cached response is still fresh: take the value from it.
    UseCached,
    /// Forget any cached response and run the request.
    Fetch,
}

/// Decide what a reference to the request keyed `key` calls for: circular
/// when the key is among those being resolved, else the cached response
/// while it is `fresh`, else a fresh run.
pub fn chain_decision(resolving: &Vec<String>, key: &String, fresh: bool) -> (r: ChainDecision)
    ensures
        match r {
            ChainDecision::Circular(chain) => (exists|i: int| 0 <= i < resolving@.len() && (#[trigger] resolving@[i])@ == key@)
                && chain@.len() == resolving@.len() + 1
                && (forall|i: int| 0 <= i < resolving@.len() ==> (#[trigger] chain@[i])@ == resolving@[i]@)
                && chain@[resolving@.len() as int]@ == key@,
            ChainDecision::UseCached => fresh && forall|i: int| 0 <= i < resolving@.len() ==> (#[trigger] resolving@[i])@ != key@,
            ChainDecision::Fetch => !fresh && forall|i: int| 0 <= i < resolving@.len() ==> (#[trigger] resolving@[i])@ != key@,
        },
{
    match check_not_resolving(resolving, key) {
        Err(chain) => ChainDecision::Circular(chain),
        Ok(()) => if fresh { ChainDecision::UseCached } else { ChainDecision::Fetch },
    }
}

/// The error for a reference whose text between `{{@` and `}}` is not
/// one: `Chain error: invalid reference syntax '{{@inner}}'`.
pub open spec fn spec_invalid_reference_message(inner: Seq<char>) -> Seq<char> {
    "Chain error: invalid reference syntax '{{@"@ + inner + "}}'"@
}

/// See [`spec_invalid_reference_message`].
pub fn invalid_reference_message(inner: &str) -> (r: String)
    ensures
        r@ == spec_invalid_reference_message(inner@),
{
    let a = concat("Chain error: invalid reference syntax '{{@", inner);
    let r = concat(a.as_str(), "}}'");
    r
}

/// The error for a dependency that answered outside 2xx:
/// `Chain error: dependency 'name' returned {status} {status_text}`.
pub open spec fn spec_dependency_status_message(name: Seq<char>, status: u16, status_text: Seq<char>) -> Seq<char> {
    "Chain error: dependency '"@ + name + "' returned "@ + spec_decimal(status as nat) + " "@ + status_text
}

/// Check a dependency's answer: a 2xx answer is cached (`Ok`), any other
/// is refused with [`spec_dependency_status_message`] and nothing is cached.
pub fn check_dependency_status(name: &str, status: u16, status_text: &str) -> (r: Result<(), String>)
    ensures
        r.is_ok() == (200 <= status < 300),
        r.is_err() ==> r->Err_0@ == spec_dependency_status_message(name@, status, status_text@),
{
    if is_success_status(status) {
        return Ok(());
    }
    let a = concat("Chain error: dependency '", name);
    let b = concat(a.as_str(), "' returned ");
    let d = decimal_string(status as u64);
    let c = concat(b.as_str(), d.as_str());
    let e = concat(c.as_str(), " ");
    let r = concat(e.as_str(), status_text);
    proof {
        assert(r@ =~= spec_dependency_status_message(name@, status, status_text@));
    }
    Err(r)
}

/// The error for a path the dependency's response does not hold:
/// `Chain error: path 'path' not found in response from 'name'`.
pub open spec fn spec_path_not_found_message(path: Seq<char>, name: Seq<char>) -> Seq<char> {
    "Chain error: path '"@ + path + "' not found in response from '"@ + name + "'"@
}

/// See [`spec_path_not_found_message`].
pub fn path_not_found_message(path: &str, name: &str) -> (r: String)
    ensures
        r@ == spec_path_not_found_message(path@, name@),
{
    let a = concat("Chain error: path '", path);
    let b = concat(a.as_str(), "' not found in response from '");
    let c = concat(b.as_str(), name);
    let r = concat(c.as_str(), "'");
    proof {
        assert(r@ =~= spec_path_not_found_message(path@, name@));
    }
    r
}

/// The status line while a dependency runs: `Resolving: name...`.
pub fn resolving_status(name: &str) -> (r: String)
    ensures
        r@ == "Resolving: "@ + name@ + "..."@,
{
    let a = concat("Resolving: ", name);
    concat(a.as_str(), "...")
}

} // verus!
