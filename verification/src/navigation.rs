use vstd::prelude::*;
use crate::collections::TreeCollection;
use crate::model::{Cookie, Header, PathParam, QueryParam, Request};
use crate::mode::InputMode;

verus! {

/// Which part of the request panel has the focus: the URL, or an item of
/// one of the lists.
#[derive(Clone, Copy, Debug, PartialEq, Eq, Structural)]
pub enum RequestFocus {
    Url,
    Header(usize),
    Param(usize),
    Cookie(usize),
    PathParam(usize),
}

/// The list shown under the URL.
#[derive(Clone, Copy, Debug, PartialEq, Eq, Structural)]
pub enum RequestTab {
    Headers,
    Queries,
    Cookies,
    Params,
}

/// The focus one row down in the list of `tab`, which holds `count` items:
/// from the URL to its first item (if any), then item by item, stopping at
/// the last; a focus on another tab's item stays.
pub open spec fn spec_focus_down(focus: RequestFocus, tab: RequestTab, count: usize) -> RequestFocus {
    match (tab, focus) {
        (RequestTab::Headers, RequestFocus::Url) => if count > 0 { RequestFocus::Header(0) } else { RequestFocus::Url },
        (RequestTab::Headers, RequestFocus::Header(i)) => if i + 1 < count { RequestFocus::Header((i + 1) as usize) } else { focus },
        (RequestTab::Queries, RequestFocus::Url) => if count > 0 { RequestFocus::Param(0) } else { RequestFocus::Url },
        (RequestTab::Queries, RequestFocus::Param(i)) => if i + 1 < count { RequestFocus::Param((i + 1) as usize) } else { focus },
        (RequestTab::Cookies, RequestFocus::Url) => if count > 0 { RequestFocus::Cookie(0) } else { RequestFocus::Url },
        (RequestTab::Cookies, RequestFocus::Cookie(i)) => if i + 1 < count { RequestFocus::Cookie((i + 1) as usize) } else { focus },
        (RequestTab::Params, RequestFocus::Url) => if count > 0 { RequestFocus::PathParam(0) } else { RequestFocus::Url },
        (RequestTab::Params, RequestFocus::PathParam(i)) => if i + 1 < count { RequestFocus::PathParam((i + 1) as usize) } else { focus },
        _ => focus,
    }
}

/// Move the focus one row down (see [`spec_focus_down`]).
pub fn focus_down(focus: RequestFocus, tab: RequestTab, count: usize) -> (r: RequestFocus)
    ensures
        r == spec_focus_down(focus, tab, count),
{
    match (tab, focus) {
        (RequestTab::Headers, RequestFocus::Url) => if count > 0 { RequestFocus::Header(0) } else { RequestFocus::Url },
        (RequestTab::Headers, RequestFocus::Header(i)) => if i < count && i + 1 < count { RequestFocus::Header(i + 1) } else { focus },
        (RequestTab::Queries, RequestFocus::Url) => if count > 0 { RequestFocus::Param(0) } else { RequestFocus::Url },
        (RequestTab::Queries, RequestFocus::Param(i)) => if i < count && i + 1 < count { RequestFocus::Param(i + 1) } else { focus },
        (RequestTab::Cookies, RequestFocus::Url) => if count > 0 { RequestFocus::Cookie(0) } else { RequestFocus::Url },
        (RequestTab::Cookies, RequestFocus::Cookie(i)) => if i < count && i + 1 < count { RequestFocus::Cookie(i + 1) } else { focus },
        (RequestTab::Params, RequestFocus::Url) => if count > 0 { RequestFocus::PathParam(0) } else { RequestFocus::Url },
        (RequestTab::Params, RequestFocus::PathParam(i)) => if i < count && i + 1 < count { RequestFocus::PathParam(i + 1) } else { focus },
        _ => focus,
    }
}

/// The focus one row up: the previous item, or the URL from a first item.
pub open spec fn spec_focus_up(focus: RequestFocus) -> RequestFocus {
    match focus {
        RequestFocus::Url => RequestFocus::Url,
        RequestFocus::Header(i) => if i == 0 { RequestFocus::Url } else { RequestFocus::Header((i - 1) as usize) },
        RequestFocus::Param(i) => if i == 0 { RequestFocus::Url } else { RequestFocus::Param((i - 1) as usize) },
        RequestFocus::Cookie(i) => if i == 0 { RequestFocus::Url } else { RequestFocus::Cookie((i - 1) as usize) },
        RequestFocus::PathParam(i) => if i == 0 { RequestFocus::Url } else { RequestFocus::PathParam((i - 1) as usize) },
    }
}

/// Move the focus one row up (see [`spec_focus_up`]).
pub fn focus_up(focus: RequestFocus) -> (r: RequestFocus)
    ensures
        r == spec_focus_up(focus),
{
    match focus {
        RequestFocus::Url => RequestFocus::Url,
        RequestFocus::Header(i) => if i == 0 { RequestFocus::Url } else { RequestFocus::Header(i - 1) },
        RequestFocus::Param(i) => if i == 0 { RequestFocus::Url } else { RequestFocus::Param(i - 1) },
        RequestFocus::Cookie(i) => if i == 0 { RequestFocus::Url } else { RequestFocus::Cookie(i - 1) },
        RequestFocus::PathParam(i) => if i == 0 { RequestFocus::Url } else { RequestFocus::PathParam(i - 1) },
    }
}

/// Where the focus goes after item `idx` of a list is deleted, leaving
/// `remaining` items: the URL when none is left, else the same row or the
/// last one.
pub open spec fn spec_index_after_delete(idx: usize, remaining: usize) -> Option<usize> {
    if remaining == 0 {
        None
    } else if idx < remaining - 1 {
        Some(idx)
    } else {
        Some((remaining - 1) as usize)
    }
}

/// Remove item `idx` of `items` (nothing happens past the end) and give
/// the index the focus moves to (`None`: back to the URL); `None` too when
/// nothing was removed.
pub fn delete_item<T>(items: &mut Vec<T>, idx: usize) -> (r: Option<Option<usize>>)
    ensures
        idx < old(items)@.len() ==> {
            &&& final(items)@ == old(items)@.remove(idx as int)
            &&& r == Some(spec_index_after_delete(idx, final(items)@.len() as usize))
        },
        idx >= old(items)@.len() ==> *final(items) == *old(items) && r.is_none(),
{
    if idx < items.len() {
        let _ = items.remove(idx);
        let n = items.len();
        let next = if n == 0 {
            None
        } else if idx < n - 1 {
            Some(idx)
        } else {
            Some(n - 1)
        };
        Some(next)
    } else {
        None
    }
}

/// The next of `len` entries after `i`, wrapping to the first.
pub open spec fn spec_cycle_next(i: int, len: int) -> int {
    (i + 1) % len
}

/// The entry before `i` among `len`, wrapping to the last.
pub open spec fn spec_cycle_prev(i: int, len: int) -> int {
    if i == 0 { len - 1 } else { i - 1 }
}

/// Step to the next collection (or search hit), wrapping around; nothing
/// happens in an empty list.
pub fn cycle_next(i: usize, len: usize) -> (r: usize)
    requires
        len > 0 ==> i < usize::MAX,
    ensures
        len == 0 ==> r == i,
        len > 0 ==> r == spec_cycle_next(i as int, len as int),
{
    if len == 0 { i } else { (i + 1) % len }
}

/// Step to the previous collection, wrapping around; nothing happens in an
/// empty list.
pub fn cycle_prev(i: usize, len: usize) -> (r: usize)
    ensures
        len == 0 ==> r == i,
        len > 0 ==> r == spec_cycle_prev(i as int, len as int),
{
    if len == 0 { i } else if i == 0 { len - 1 } else { i - 1 }
}

/// Step to the previous search hit: `(i + len - 1) % len`; nothing
/// happens when there are none.
pub fn search_prev(i: usize, len: usize) -> (r: usize)
    ensures
        len == 0 ==> r == i,
        len > 0 ==> r == (i + len - 1) % (len as int),
{
    if len == 0 {
        i
    } else if i == 0 {
        assert((len - 1) % (len as int) == len - 1) by (nonlinear_arith)
            requires
                len > 0;
        len - 1
    } else {
        assert((i - 1) % (len as int) == (i + len - 1) % (len as int)) by (nonlinear_arith)
            requires
                len > 0,
                i > 0;
        (i - 1) % len
    }
}

/// `]` / `[` between collections: the next (or previous) collection,
/// wrapping around, becomes active and is expanded in the tree; its index
/// comes back for its first request to be loaded. Nothing happens without
/// collections.
pub fn step_collection(active: &mut usize, tree: &mut Vec<TreeCollection>, forward: bool) -> (r: Option<usize>)
    requires
        old(tree)@.len() > 0 ==> *old(active) < old(tree)@.len(),
    ensures
        old(tree)@.len() == 0 ==> r.is_none() && *final(active) == *old(active) && *final(tree) == *old(tree),
        old(tree)@.len() > 0 ==> {
            let n = old(tree)@.len() as int;
            let a = *old(active) as int;
            let next = if forward { spec_cycle_next(a, n) } else { spec_cycle_prev(a, n) };
            &&& r == Some(next as usize)
            &&& *final(active) == next
            &&& final(tree)@.len() == n
            &&& final(tree)@[next].expanded
            &&& final(tree)@[next].shown@ == old(tree)@[next].shown@
            &&& forall|i: int| 0 <= i < n && i != next ==> #[trigger] final(tree)@[i] == old(tree)@[i]
        },
{
    let n = tree.len();
    if n == 0 {
        return None;
    }
    let next = if forward { cycle_next(*active, n) } else { cycle_prev(*active, n) };
    *active = next;
    let mut c = tree.remove(next);
    c.expanded = true;
    tree.insert(next, c);
    Some(next)
}

/// The focus after deleting the focused item of a list that had `len`
/// items, `i` the focused one: the item now at `i` (the new last one when
/// `i` was the last), or the URL when the list is now empty.
pub open spec fn spec_focus_after_delete(i: usize, len: int) -> Option<usize> {
    spec_index_after_delete(i, (len - 1) as usize)
}

/// The focus `mk` builds from an index, or the URL.
pub open spec fn spec_focus_of(tab: RequestTab, i: Option<usize>) -> RequestFocus {
    match i {
        None => RequestFocus::Url,
        Some(j) => match tab {
            RequestTab::Headers => RequestFocus::Header(j),
            RequestTab::Queries => RequestFocus::Param(j),
            RequestTab::Cookies => RequestFocus::Cookie(j),
            RequestTab::Params => RequestFocus::PathParam(j),
        },
    }
}

/// The focused item of `tab`'s list, if the focus is on one of them.
pub open spec fn spec_focused_index(focus: RequestFocus, tab: RequestTab) -> Option<usize> {
    match (tab, focus) {
        (RequestTab::Headers, RequestFocus::Header(i)) => Some(i),
        (RequestTab::Queries, RequestFocus::Param(i)) => Some(i),
        (RequestTab::Cookies, RequestFocus::Cookie(i)) => Some(i),
        (RequestTab::Params, RequestFocus::PathParam(i)) => Some(i),
        _ => None,
    }
}

/// The length of `tab`'s list in `req`.
pub open spec fn spec_list_len(req: Request, tab: RequestTab) -> int {
    match tab {
        RequestTab::Headers => req.headers@.len() as int,
        RequestTab::Queries => req.query_params@.len() as int,
        RequestTab::Cookies => req.cookies@.len() as int,
        RequestTab::Params => req.path_params@.len() as int,
    }
}

/// `n` is `o` with item `i` of `tab`'s list removed and nothing else changed.
pub open spec fn spec_deleted_from(o: Request, n: Request, tab: RequestTab, i: int) -> bool {
    match tab {
        RequestTab::Headers => n == (Request { headers: n.headers, ..o }) && n.headers@ == o.headers@.remove(i),
        RequestTab::Queries => n == (Request { query_params: n.query_params, ..o }) && n.query_params@ == o.query_params@.remove(i),
        RequestTab::Cookies => n == (Request { cookies: n.cookies, ..o }) && n.cookies@ == o.cookies@.remove(i),
        RequestTab::Params => n == (Request { path_params: n.path_params, ..o }) && n.path_params@ == o.path_params@.remove(i),
    }
}

/// `n` is `o` with an empty, enabled item added at the end of `tab`'s list
/// and nothing else changed.
pub open spec fn spec_added_to(o: Request, n: Request, tab: RequestTab) -> bool {
    &&& spec_list_len(n, tab) == spec_list_len(o, tab) + 1
    &&& spec_new_item_at(n, tab, spec_list_len(o, tab))
    &&& match tab {
        RequestTab::Headers => n == (Request { headers: n.headers, ..o }) && n.headers@.drop_last() == o.headers@,
        RequestTab::Queries => n == (Request { query_params: n.query_params, ..o }) && n.query_params@.drop_last() == o.query_params@,
        RequestTab::Cookies => n == (Request { cookies: n.cookies, ..o }) && n.cookies@.drop_last() == o.cookies@,
        RequestTab::Params => n == (Request { path_params: n.path_params, ..o }) && n.path_params@.drop_last() == o.path_params@,
    }
}

/// `d` on a header, query parameter, cookie or path parameter: the pending
/// key is cleared; when the focus is on an existing item of `tab`'s list,
/// that item is removed and the focus moves to the item now in its place
/// (the last one when it was last, the URL when none is left), and `true`
/// comes back for the status line to say so.
pub fn delete_focused(req: &mut Request, focus: &mut RequestFocus, pending_key: &mut Option<char>, tab: RequestTab) -> (r: bool)
    ensures
        final(pending_key).is_none(),
        ({
            let fi = spec_focused_index(*old(focus), tab);
            r == (fi.is_some() && fi.unwrap() < spec_list_len(*old(req), tab))
        }),
        r ==> {
            let i = spec_focused_index(*old(focus), tab).unwrap();
            &&& *final(focus) == spec_focus_of(tab, spec_focus_after_delete(i, spec_list_len(*old(req), tab)))
            &&& spec_deleted_from(*old(req), *final(req), tab, i as int)
        },
        !r ==> *final(req) == *old(req) && *final(focus) == *old(focus),
{
    *pending_key = None;
    let moved = match (tab, *focus) {
        (RequestTab::Headers, RequestFocus::Header(i)) => delete_item(&mut req.headers, i),
        (RequestTab::Queries, RequestFocus::Param(i)) => delete_item(&mut req.query_params, i),
        (RequestTab::Cookies, RequestFocus::Cookie(i)) => delete_item(&mut req.cookies, i),
        (RequestTab::Params, RequestFocus::PathParam(i)) => delete_item(&mut req.path_params, i),
        _ => None,
    };
    match moved {
        Some(next) => {
            *focus = focus_of(tab, next);
            true
        },
        None => false,
    }
}

/// The focus on item `i` of `tab`'s list, or the URL.
fn focus_of(tab: RequestTab, i: Option<usize>) -> (r: RequestFocus)
    ensures
        r == spec_focus_of(tab, i),
{
    match i {
        None => RequestFocus::Url,
        Some(j) => match tab {
            RequestTab::Headers => RequestFocus::Header(j),
            RequestTab::Queries => RequestFocus::Param(j),
            RequestTab::Cookies => RequestFocus::Cookie(j),
            RequestTab::Params => RequestFocus::PathParam(j),
        },
    }
}

/// The item of `tab`'s list at `i` is empty and enabled.
pub open spec fn spec_new_item_at(req: Request, tab: RequestTab, i: int) -> bool {
    match tab {
        RequestTab::Headers => req.headers@[i].name@.len() == 0 && req.headers@[i].value@.len() == 0 && req.headers@[i].enabled,
        RequestTab::Queries => req.query_params@[i].key@.len() == 0 && req.query_params@[i].value@.len() == 0 && req.query_params@[i].enabled,
        RequestTab::Cookies => req.cookies@[i].name@.len() == 0 && req.cookies@[i].value@.len() == 0 && req.cookies@[i].enabled,
        RequestTab::Params => req.path_params@[i].key@.len() == 0 && req.path_params@[i].value@.len() == 0 && req.path_params@[i].enabled,
    }
}

/// Add an empty, enabled item at the end of `tab`'s list and start typing
/// its name: the focus moves to it, the name part is edited from its
/// start, in insert mode.
pub fn add_item(req: &mut Request, focus: &mut RequestFocus, edit_field: &mut u8, cursor: &mut usize, mode: &mut InputMode, tab: RequestTab)
    requires
        spec_list_len(*old(req), tab) < usize::MAX,
    ensures
        ({
            let n = spec_list_len(*old(req), tab);
            &&& spec_list_len(*final(req), tab) == n + 1
            &&& spec_new_item_at(*final(req), tab, n)
            &&& spec_added_to(*old(req), *final(req), tab)
            &&& *final(focus) == spec_focus_of(tab, Some(n as usize))
        }),
        *final(edit_field) == 0,
        *final(cursor) == 0,
        *final(mode) == InputMode::Insert,
{
    let n = match tab {
        RequestTab::Headers => {
            req.headers.push(Header { name: String::new(), value: String::new(), enabled: true });
            proof { assert(req.headers@.drop_last() =~= old(req).headers@); }
            req.headers.len() - 1
        },
        RequestTab::Queries => {
            req.query_params.push(QueryParam { key: String::new(), value: String::new(), enabled: true });
            proof { assert(req.query_params@.drop_last() =~= old(req).query_params@); }
            req.query_params.len() - 1
        },
        RequestTab::Cookies => {
            req.cookies.push(Cookie { name: String::new(), value: String::new(), enabled: true });
            proof { assert(req.cookies@.drop_last() =~= old(req).cookies@); }
            req.cookies.len() - 1
        },
        RequestTab::Params => {
            req.path_params.push(PathParam { key: String::new(), value: String::new(), enabled: true });
            proof { assert(req.path_params@.drop_last() =~= old(req).path_params@); }
            req.path_params.len() - 1
        },
    };
    *focus = focus_of(tab, Some(n));
    *edit_field = 0;
    *cursor = 0;
    *mode = InputMode::Insert;
}

/// Switch the focused item on or off (nothing happens on the URL or past
/// the end of its list).
pub fn toggle_enabled(req: &mut Request, focus: RequestFocus)
    ensures
        match focus {
            RequestFocus::Header(i) => if i < old(req).headers@.len() {
                *final(req) == (Request { headers: final(req).headers, ..*old(req) })
                && final(req).headers@ == old(req).headers@.update(i as int,
                    Header { enabled: !old(req).headers@[i as int].enabled, ..old(req).headers@[i as int] })
            } else { *final(req) == *old(req) },
            RequestFocus::Param(i) => if i < old(req).query_params@.len() {
                *final(req) == (Request { query_params: final(req).query_params, ..*old(req) })
                && final(req).query_params@ == old(req).query_params@.update(i as int,
                    QueryParam { enabled: !old(req).query_params@[i as int].enabled, ..old(req).query_params@[i as int] })
            } else { *final(req) == *old(req) },
            RequestFocus::Cookie(i) => if i < old(req).cookies@.len() {
                *final(req) == (Request { cookies: final(req).cookies, ..*old(req) })
                && final(req).cookies@ == old(req).cookies@.update(i as int,
                    Cookie { enabled: !old(req).cookies@[i as int].enabled, ..old(req).cookies@[i as int] })
            } else { *final(req) == *old(req) },
            RequestFocus::PathParam(i) => if i < old(req).path_params@.len() {
                *final(req) == (Request { path_params: final(req).path_params, ..*old(req) })
                && final(req).path_params@ == old(req).path_params@.update(i as int,
                    PathParam { enabled: !old(req).path_params@[i as int].enabled, ..old(req).path_params@[i as int] })
            } else { *final(req) == *old(req) },
            RequestFocus::Url => *final(req) == *old(req),
        },
{
    match focus {
        RequestFocus::Header(i) => if i < req.headers.len() {
            let mut h = req.headers.remove(i);
            h.enabled = !h.enabled;
            req.headers.insert(i, h);
            proof { assert(req.headers@ =~= old(req).headers@.update(i as int, h)); }
        },
        RequestFocus::Param(i) => if i < req.query_params.len() {
            let mut p = req.query_params.remove(i);
            p.enabled = !p.enabled;
            req.query_params.insert(i, p);
            proof { assert(req.query_params@ =~= old(req).query_params@.update(i as int, p)); }
        },
        RequestFocus::Cookie(i) => if i < req.cookies.len() {
            let mut c = req.cookies.remove(i);
            c.enabled = !c.enabled;
            req.cookies.insert(i, c);
            proof { assert(req.cookies@ =~= old(req).cookies@.update(i as int, c)); }
        },
        RequestFocus::PathParam(i) => if i < req.path_params.len() {
            let mut p = req.path_params.remove(i);
            p.enabled = !p.enabled;
            req.path_params.insert(i, p);
            proof { assert(req.path_params@ =~= old(req).path_params@.update(i as int, p)); }
        },
        RequestFocus::Url => {},
    }
}

} // verus!
