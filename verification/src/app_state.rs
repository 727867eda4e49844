use vstd::prelude::*;
use vstd::string::StringExecFns;
use crate::action::Action;
use crate::cache::{ResponseCache, CacheEntry, spec_evict, spec_upsert};
use crate::chain::{history_key, spec_cache_key, spec_active_name};
use crate::http_client::{SendStatus, trim, spec_trim};
use crate::mode::InputMode;
use crate::model::{Collection, Request, Response, response_eqv, spec_next_method, spec_method_name, spec_is_new_request, new_named_request};
use crate::navigation::{
    RequestFocus, RequestTab, add_item, delete_focused, step_collection, toggle_enabled, focus_down, focus_up,
    cycle_next, search_prev,
    spec_focus_down, spec_focus_up,
    spec_cycle_next, spec_cycle_prev, spec_list_len, spec_focused_index, spec_focus_of,
    spec_focus_after_delete, spec_new_item_at, spec_added_to, spec_deleted_from,
};
use crate::strutil::{concat, spec_decimal, decimal_string};
use crate::viewport::{VimView, jump_to_match, spec_jump_scroll};
use crate::collections::{TreeCollection, flat_idx_to_coll_req, passes_filter, spec_passes_filter, spec_tree_rows};
use crate::laws::{law_tree_rows_ordered, law_tree_rows_name_requests};

verus! {

/// Most responses kept in the history of one request.
pub const RESPONSE_HISTORY_MAX: usize = 5;

/// The state the application-level commands act on.
#[derive(Debug)]
pub struct AppState {
    pub should_quit: bool,
    /// The count typed before a command, if any.
    pub count_prefix: Option<usize>,
    pub pending_key: Option<char>,
    pub verify_ssl: bool,
    pub wrap_enabled: bool,
    /// Sending flags, the last error and the status line.
    pub send: SendStatus,
    pub request: Request,
    pub focus: RequestFocus,
    /// The list shown under the URL.
    pub tab: RequestTab,
    pub edit_field: u8,
    pub edit_cursor: usize,
    pub mode: InputMode,
    pub collections: Vec<Collection>,
    pub active_collection: usize,
    pub tree: Vec<TreeCollection>,
    pub cache: ResponseCache,
    /// Stored responses of each named request, newest first, by cache key.
    pub response_histories: Vec<(String, Vec<Response>)>,
    pub current_response: Option<Response>,
    /// Where the search query occurs, as (row, byte column).
    pub search_hits: Vec<(usize, usize)>,
    /// The search hit the cursor is on.
    pub search_idx: usize,
    /// The view the search moves in: the body's or the response's (none in
    /// the other panels).
    pub search_view: Option<VimView>,
    /// The selected row of the collections tree, if any.
    pub collections_selected: Option<usize>,
    /// The filter text of the collections tree (empty for none).
    pub collections_filter: String,
}

/// What the outside world is to do after an application-level command.
#[derive(Debug)]
pub enum Effect {
    /// Load the first request of this collection into the editor.
    LoadFirstRequest(usize),
    /// Write the response histories to disk.
    SaveResponseHistories,
    /// Write this collection to its file.
    SaveCollection(usize),
    /// Empty the body editor.
    ClearBodyEditor,
    /// Rename this collection's file after the new name (see
    /// [`collection_renamed`]).
    RenameCollectionFile(usize, String),
    /// Add the completed request to the request history (and write it),
    /// and show its status and time.
    RecordHistory,
}

/// What [`update`] made of an action.
#[derive(Debug)]
pub enum Update {
    /// Handled here, with what the outside world is to do.
    Done(Vec<Effect>),
    /// Handled by the editing functions, with the count typed before it.
    Other(Action, usize),
}

impl AppState {
    /// The cache keeps one entry per key; the tree has one row group per
    /// collection, with a row flag per request; the active collection exists when any does; response
    /// histories have one list per key; the current search hit exists when
    /// any does; rows of the searched view fit in a `usize`.
    pub open spec fn well_formed(&self) -> bool {
        &&& self.cache.well_formed()
        &&& self.tree@.len() == self.collections@.len()
        &&& forall|c: int| 0 <= c < self.tree@.len() ==> (#[trigger] self.tree@[c]).shown@.len() == self.collections@[c].requests@.len()
        &&& self.collections@.len() > 0 ==> self.active_collection < self.collections@.len()
        &&& spec_keys_unique(self.response_histories@)
        &&& self.search_hits@.len() > 0 ==> self.search_idx < self.search_hits@.len()
        &&& self.search_view matches Some(v) ==> spec_view_fits(v, self.search_hits@)
    }
}

/// Row numbers up to the bottom of `v`, from where it is and from any hit,
/// fit in a `usize`.
pub open spec fn spec_view_fits(v: VimView, hits: Seq<(usize, usize)>) -> bool {
    &&& v.scroll_offset + v.visible_height <= usize::MAX
    &&& forall|k: int| 0 <= k < hits.len() ==> (#[trigger] hits[k]).0 + v.visible_height <= usize::MAX
}

/// No key of `h` appears twice.
pub open spec fn spec_keys_unique(h: Seq<(String, Vec<Response>)>) -> bool {
    forall|i: int, j: int| 0 <= i < j < h.len() ==> (#[trigger] h[i]).0@ != (#[trigger] h[j]).0@
}

/// The count after typing digit `d`: the digits so far, then `d`.
pub open spec fn spec_count_digit(count: Option<usize>, d: u8) -> int {
    (if count.is_some() { count.unwrap() as int } else { 0 }) * 10 + d
}

/// Type a digit of a count.
pub fn push_count_digit(count: Option<usize>, d: u8) -> (r: Option<usize>)
    requires
        spec_count_digit(count, d) <= usize::MAX,
    ensures
        r == Some(spec_count_digit(count, d) as usize),
{
    let c = match count {
        Some(c) => c,
        None => 0,
    };
    Some(c * 10 + d as usize)
}

/// The count a command runs with: the one typed, else 1; it is used up.
pub fn take_count(count: &mut Option<usize>) -> (r: usize)
    ensures
        final(count).is_none(),
        r == (if old(count).is_some() { old(count).unwrap() } else { 1 }),
{
    let r = match *count {
        Some(c) => c,
        None => 1,
    };
    *count = None;
    r
}

/// A history after recording `e`: newest first, the oldest dropped past
/// [`RESPONSE_HISTORY_MAX`].
pub open spec fn spec_recorded<T>(h: Seq<T>, e: T) -> Seq<T> {
    let n = seq![e] + h;
    if n.len() > RESPONSE_HISTORY_MAX { n.drop_last() } else { n }
}

/// Record `e` as the newest entry of a request's response history.
pub fn record_response<T>(hist: &mut Vec<T>, e: T)
    ensures
        final(hist)@ == spec_recorded(old(hist)@, e),
{
    hist.insert(0, e);
    proof {
        assert(hist@ =~= seq![e] + old(hist)@);
    }
    if hist.len() > RESPONSE_HISTORY_MAX {
        let _ = hist.pop();
    }
}

/// The histories after recording `e` under `key`: in the key's list, or in
/// a new list added last.
pub open spec fn spec_histories_recorded(h: Seq<(String, Vec<Response>)>, n: Seq<(String, Vec<Response>)>, key: Seq<char>, e: Response) -> bool {
    if exists|i: int| 0 <= i < h.len() && (#[trigger] h[i]).0@ == key {
        let i = choose|i: int| 0 <= i < h.len() && (#[trigger] h[i]).0@ == key;
        &&& n.len() == h.len()
        &&& n[i].0@ == key
        &&& n[i].1@ == spec_recorded(h[i].1@, e)
        &&& forall|j: int| 0 <= j < h.len() && j != i ==> #[trigger] n[j] == h[j]
    } else {
        &&& n.len() == h.len() + 1
        &&& n[h.len() as int].0@ == key
        &&& n[h.len() as int].1@ == seq![e]
        &&& forall|j: int| 0 <= j < h.len() ==> #[trigger] n[j] == h[j]
    }
}

/// Record `e` in the response history of `key`.
pub fn record_in_histories(h: &mut Vec<(String, Vec<Response>)>, key: String, e: Response)
    requires
        spec_keys_unique(old(h)@),
    ensures
        spec_keys_unique(final(h)@),
        spec_histories_recorded(old(h)@, final(h)@, key@, e),
{
    let mut i: usize = 0;
    while i < h.len()
        invariant
            i <= h@.len(),
            h@ == old(h)@,
            spec_keys_unique(old(h)@),
            forall|k: int| 0 <= k < i ==> (#[trigger] h@[k]).0@ != key@,
        decreases h@.len() - i,
    {
        if crate::strutil::str_eq(h[i].0.as_str(), key.as_str()) {
            let ghost before = h@;
            proof {
                assert(before[i as int].0@ == key@);
                let c = choose|c: int| 0 <= c < before.len() && (#[trigger] before[c]).0@ == key@;
                if c != i {
                    if c < i {
                        assert(before[c].0@ != key@);
                    } else {
                        assert(before[i as int].0@ != before[c].0@);
                    }
                }
            }
            let (k, mut list) = h.remove(i);
            record_response(&mut list, e);
            h.insert(i, (k, list));
            proof {
                assert(h@ =~= before.update(i as int, (k, list)));
                assert forall|a: int, b: int| 0 <= a < b < h@.len() implies (#[trigger] h@[a]).0@ != (#[trigger] h@[b]).0@ by {
                    assert(h@[a].0@ == before[a].0@);
                    assert(h@[b].0@ == before[b].0@);
                    assert(before[a].0@ != before[b].0@);
                }
            }
            return;
        }
        i = i + 1;
    }
    let mut list: Vec<Response> = Vec::new();
    list.push(e);
    h.push((key, list));
    proof {
        assert(list@ =~= seq![e]);
        assert forall|a: int, b: int| 0 <= a < b < h@.len() implies (#[trigger] h@[a]).0@ != (#[trigger] h@[b]).0@ by {
            if b == old(h)@.len() {
                assert(h@[a] == old(h)@[a]);
            }
        }
    }
}

/// The status line after switching certificate checks.
pub open spec fn spec_ssl_status(verify: bool) -> Seq<char> {
    if verify { "SSL: Strict (certificates verified)"@ } else { "SSL: Insecure (certificates NOT verified)"@ }
}

/// The status line after switching line wrapping.
pub open spec fn spec_wrap_status(wrap: bool) -> Seq<char> {
    if wrap { "Wrap: ON"@ } else { "Wrap: OFF"@ }
}

/// Switch certificate checks on or off, saying which.
pub fn toggle_ssl(verify: &mut bool, status: &mut String)
    ensures
        *final(verify) == !*old(verify),
        final(status)@ == spec_ssl_status(*final(verify)),
{
    *verify = !*verify;
    *status = if *verify {
        String::from_str("SSL: Strict (certificates verified)")
    } else {
        String::from_str("SSL: Insecure (certificates NOT verified)")
    };
}

/// Switch line wrapping on or off, saying which.
pub fn toggle_wrap(wrap: &mut bool, status: &mut String)
    ensures
        *final(wrap) == !*old(wrap),
        final(status)@ == spec_wrap_status(*final(wrap)),
{
    *wrap = !*wrap;
    *status = if *wrap { String::from_str("Wrap: ON") } else { String::from_str("Wrap: OFF") };
}

/// The status line after deleting an item of `tab`'s list.
pub open spec fn spec_deleted_status(tab: RequestTab) -> Seq<char> {
    match tab {
        RequestTab::Headers => "Header deleted"@,
        RequestTab::Queries => "Param deleted"@,
        RequestTab::Cookies => "Cookie deleted"@,
        RequestTab::Params => "Path param deleted"@,
    }
}

fn deleted_status(tab: RequestTab) -> (r: String)
    ensures
        r@ == spec_deleted_status(tab),
{
    match tab {
        RequestTab::Headers => String::from_str("Header deleted"),
        RequestTab::Queries => String::from_str("Param deleted"),
        RequestTab::Cookies => String::from_str("Cookie deleted"),
        RequestTab::Params => String::from_str("Path param deleted"),
    }
}

/// The list an add or delete action works on.
pub open spec fn spec_item_tab(a: Action) -> Option<(RequestTab, bool)> {
    match a {
        Action::AddHeader => Some((RequestTab::Headers, true)),
        Action::AddParam => Some((RequestTab::Queries, true)),
        Action::AddCookie => Some((RequestTab::Cookies, true)),
        Action::AddPathParam => Some((RequestTab::Params, true)),
        Action::DeleteHeader => Some((RequestTab::Headers, false)),
        Action::DeleteParam => Some((RequestTab::Queries, false)),
        Action::DeleteCookie => Some((RequestTab::Cookies, false)),
        Action::DeletePathParam => Some((RequestTab::Params, false)),
        _ => None,
    }
}

/// Whether [`update`] handles the action itself.
pub open spec fn spec_handled(a: Action) -> bool {
    match a {
        Action::Quit | Action::AccumulateCount(_) | Action::ToggleInsecureMode | Action::ToggleWrap
        | Action::NextCollection | Action::PrevCollection | Action::ToggleItemEnabled
        | Action::RequestCompleted(_) | Action::RequestFailed(_)
        | Action::RequestFocusDown | Action::RequestFocusUp | Action::NextMethod | Action::PrevMethod
        | Action::SearchNext | Action::SearchPrev | Action::AddRequestToCollection => true,
        _ => spec_item_tab(a).is_some(),
    }
}

/// The count left after action `a`: a digit extends it, any other action
/// uses it up.
pub open spec fn spec_count_after(count: Option<usize>, a: Action) -> Option<usize> {
    match a {
        Action::AccumulateCount(d) => Some(spec_count_digit(count, d) as usize),
        _ => None,
    }
}

/// What completing a request does (see [`update`]).
pub open spec fn spec_completed(o: AppState, n: AppState, resp: Response, now: u64, fx: Seq<Effect>) -> bool {
    &&& !n.send.in_flight && n.send.started_at.is_none() && n.send.last_error.is_none()
    &&& n.send.status == o.send.status
    &&& n.current_response.is_some() && response_eqv(n.current_response.unwrap(), resp)
    &&& n.request == o.request && n.collections == o.collections && n.tree == o.tree
    &&& n.focus == o.focus && n.mode == o.mode && n.verify_ssl == o.verify_ssl && n.wrap_enabled == o.wrap_enabled
    &&& n.active_collection == o.active_collection && n.should_quit == o.should_quit
    &&& n.pending_key == o.pending_key && n.edit_field == o.edit_field && n.edit_cursor == o.edit_cursor
    &&& n.count_prefix == o.count_prefix
    &&& if o.request.name.is_some() {
        let key = spec_cache_key(
            match spec_active_name(o.collections@, o.active_collection as int) { Some(c) => c, None => "_"@ },
            o.request.name.unwrap()@,
        );
        &&& spec_histories_recorded(o.response_histories@, n.response_histories@, key, resp)
        &&& exists|e: CacheEntry| e.key@ == key && response_eqv(e.response, resp) && e.stored_at == now
            && n.cache.max == o.cache.max
            && n.cache.entries@ == spec_evict(spec_upsert(o.cache.entries@, e), o.cache.max as int)
        &&& fx.len() == 2 && fx[0] is SaveResponseHistories && fx[1] is RecordHistory
    } else {
        &&& n.response_histories == o.response_histories && n.cache == o.cache
        &&& fx.len() == 1 && fx[0] is RecordHistory
    }
}

/// What an application-level command does to the state (see [`update`]);
/// `o` already has its count used up or extended.
pub open spec fn spec_update_done(o: AppState, n: AppState, a: Action, now: u64, fx: Seq<Effect>) -> bool {
    match a {
        Action::Quit => n == (AppState { should_quit: true, ..o }) && fx.len() == 0,
        Action::AccumulateCount(_) => n == o && fx.len() == 0,
        Action::ToggleInsecureMode => n == (AppState { verify_ssl: !o.verify_ssl, send: n.send, ..o })
            && n.send.status@ == spec_ssl_status(!o.verify_ssl)
            && n.send == (SendStatus { status: n.send.status, ..o.send }) && fx.len() == 0,
        Action::ToggleWrap => n == (AppState { wrap_enabled: !o.wrap_enabled, send: n.send, ..o })
            && n.send.status@ == spec_wrap_status(!o.wrap_enabled)
            && n.send == (SendStatus { status: n.send.status, ..o.send }) && fx.len() == 0,
        Action::NextCollection | Action::PrevCollection => {
            let len = o.collections@.len() as int;
            if len == 0 {
                n == o && fx.len() == 0
            } else {
                let next = if a is NextCollection {
                    spec_cycle_next(o.active_collection as int, len)
                } else {
                    spec_cycle_prev(o.active_collection as int, len)
                };
                &&& n == (AppState { active_collection: next as usize, tree: n.tree, send: n.send, ..o })
                &&& n.tree@.len() == len && n.tree@[next].expanded && n.tree@[next].shown@ == o.tree@[next].shown@
                &&& (forall|i: int| 0 <= i < len && i != next ==> #[trigger] n.tree@[i] == o.tree@[i])
                &&& n.send == (SendStatus { status: n.send.status, ..o.send })
                &&& n.send.status@ == "Collection: "@ + o.collections@[next].name@
                &&& fx.len() == 1 && fx[0] == Effect::LoadFirstRequest(next as usize)
            }
        },
        Action::ToggleItemEnabled => n == (AppState { request: n.request, ..o }) && fx.len() == 0
            && spec_toggled(o.request, n.request, o.focus),
        Action::RequestFocusDown => fx.len() == 0
            && n == (AppState { focus: spec_focus_down(o.focus, o.tab, spec_list_len(o.request, o.tab) as usize), ..o }),
        Action::RequestFocusUp => fx.len() == 0 && n == (AppState { focus: spec_focus_up(o.focus), ..o }),
        Action::NextMethod | Action::PrevMethod => {
            &&& fx.len() == 0
            &&& n == (AppState { request: n.request, send: n.send, ..o })
            &&& n.request == (Request { method: n.request.method, ..o.request })
            &&& if a is NextMethod { n.request.method == spec_next_method(o.request.method) } else { spec_next_method(n.request.method) == o.request.method }
            &&& n.send == (SendStatus { status: n.send.status, ..o.send })
            &&& n.send.status@ == "Method: "@ + spec_method_name(n.request.method)
        },
        Action::RequestCompleted(resp) => spec_completed(o, n, *resp, now, fx),
        Action::AddRequestToCollection => match spec_selected_collection(o) {
            Some(ci) => {
                let names = spec_request_names(o.collections@[ci].requests@);
                exists|k: nat| #![trigger spec_new_name(k)] k >= 1 && !names.contains(spec_new_name(k))
                    && (forall|j: nat| 1 <= j < k ==> names.contains(#[trigger] spec_new_name(j)))
                    && spec_request_added(o, n, ci, spec_new_name(k), fx)
            },
            None => {
                &&& n == (AppState { send: n.send, ..o })
                &&& n.send == (SendStatus { status: n.send.status, ..o.send })
                &&& n.send.status@ == "Select a collection first"@
                &&& fx.len() == 0
            },
        },
        Action::SearchNext | Action::SearchPrev => {
            let len = o.search_hits@.len() as int;
            &&& fx.len() == 0
            &&& if len > 0 {
                let i = if a is SearchNext { spec_cycle_next(o.search_idx as int, len) } else { (o.search_idx + len - 1) % len };
                &&& n == (AppState { search_idx: i as usize, search_view: n.search_view, ..o })
                &&& n.search_view == match o.search_view {
                    Some(v) => Some(spec_jumped(v, o.search_hits@[i])),
                    None => None,
                }
            } else {
                n == o
            }
        },
        Action::RequestFailed(err) => {
            &&& n == (AppState { send: n.send, current_response: None, ..o })
            &&& !n.send.in_flight && n.send.started_at.is_none()
            &&& n.send.last_error.is_some() && n.send.last_error.unwrap()@ == err@
            &&& n.send.status@ == "Error: "@ + err@
            &&& fx.len() == 0
        },
        _ => match spec_item_tab(a) {
            Some((tab, true)) => {
                let len = spec_list_len(o.request, tab);
                &&& n == (AppState { request: n.request, focus: n.focus, edit_field: 0, edit_cursor: 0, mode: InputMode::Insert, ..o })
                &&& spec_added_to(o.request, n.request, tab)
                &&& n.focus == spec_focus_of(tab, Some(len as usize))
                &&& fx.len() == 0
            },
            Some((tab, false)) => {
                let fi = spec_focused_index(o.focus, tab);
                &&& fx.len() == 0
                &&& if fi.is_some() && fi.unwrap() < spec_list_len(o.request, tab) {
                    &&& n == (AppState { request: n.request, focus: n.focus, pending_key: None, send: n.send, ..o })
                    &&& spec_deleted_from(o.request, n.request, tab, fi.unwrap() as int)
                    &&& n.focus == spec_focus_of(tab, spec_focus_after_delete(fi.unwrap(), spec_list_len(o.request, tab)))
                    &&& n.send == (SendStatus { status: n.send.status, ..o.send })
                    &&& n.send.status@ == spec_deleted_status(tab)
                } else {
                    n == (AppState { pending_key: None, ..o })
                }
            },
            None => true,
        },
    }
}

/// The collection of the selected row of the tree (a header row or one of
/// its requests), if a row is selected.
pub open spec fn spec_selected_collection(st: AppState) -> Option<int> {
    match st.collections_selected {
        Some(f) => {
            let rows = spec_tree_rows(st.tree@, st.collections_filter@.len() > 0, st.tree@.len() as int);
            if f < rows.len() { Some(rows[f as int].0) } else { None }
        },
        None => None,
    }
}

/// The selected row of the tree as (collection, request), if a row is
/// selected.
pub open spec fn spec_selected_row(st: AppState) -> Option<(int, Option<int>)> {
    match st.collections_selected {
        Some(f) => {
            let rows = spec_tree_rows(st.tree@, st.collections_filter@.len() > 0, st.tree@.len() as int);
            if f < rows.len() { Some(rows[f as int]) } else { None }
        },
        None => None,
    }
}

/// What confirming the rename dialog with `name` does: nothing for a
/// blank name or no selected row; on a request row that request, and the
/// request in the editor, take the trimmed name (its tree row shown as the
/// filter decides) and the collection is to be written; on a collection
/// header row its file is to be renamed.
pub open spec fn spec_rename_done(o: AppState, n: AppState, name: Seq<char>, fx: Seq<Effect>) -> bool {
    let t = spec_trim(name);
    if t.len() == 0 {
        n == o && fx.len() == 0
    } else {
        match spec_selected_row(o) {
            Some((ci, Some(ri))) => {
                let old_req = o.collections@[ci].requests@[ri];
                let new_req = n.collections@[ci].requests@[ri];
                &&& n == (AppState { collections: n.collections, tree: n.tree, request: n.request, send: n.send, ..o })
                &&& n.collections@.len() == o.collections@.len()
                &&& forall|j: int| 0 <= j < o.collections@.len() && j != ci ==> #[trigger] n.collections@[j] == o.collections@[j]
                &&& n.collections@[ci].name == o.collections@[ci].name
                &&& n.collections@[ci].requests@.len() == o.collections@[ci].requests@.len()
                &&& forall|k: int| 0 <= k < o.collections@[ci].requests@.len() && k != ri
                    ==> #[trigger] n.collections@[ci].requests@[k] == o.collections@[ci].requests@[k]
                &&& new_req == (Request { name: new_req.name, ..old_req })
                &&& new_req.name matches Some(s) && s@ == t
                &&& n.request == (Request { name: n.request.name, ..o.request })
                &&& n.request.name matches Some(s) && s@ == t
                &&& n.tree@.len() == o.tree@.len()
                &&& forall|j: int| 0 <= j < o.tree@.len() && j != ci ==> #[trigger] n.tree@[j] == o.tree@[j]
                &&& n.tree@[ci].expanded == o.tree@[ci].expanded
                &&& n.tree@[ci].shown@ == o.tree@[ci].shown@.update(ri, spec_passes_filter(t, old_req.url@, o.collections_filter@))
                &&& n.send == (SendStatus { status: n.send.status, ..o.send })
                &&& n.send.status@ == "Renamed → '"@ + t + "'"@
                &&& fx.len() == 1 && fx[0] == Effect::SaveCollection(ci as usize)
            },
            Some((ci, None)) => n == o && fx.len() == 1
                && (fx[0] matches Effect::RenameCollectionFile(c, s) && c == ci && s@ == t),
            None => n == o && fx.len() == 0,
        }
    }
}

/// Confirm the rename dialog with the name typed in it.
pub fn confirm_rename(st: &mut AppState, name: &str) -> (r: Vec<Effect>)
    requires
        old(st).well_formed(),
    ensures
        final(st).well_formed(),
        spec_rename_done(*old(st), *final(st), name@, r@),
{
    let t = trim(name);
    let mut fx: Vec<Effect> = Vec::new();
    if t.as_str().unicode_len() == 0 {
        return fx;
    }
    let has_filter = st.collections_filter.as_str().unicode_len() > 0;
    let row = match st.collections_selected {
        Some(f) => flat_idx_to_coll_req(&st.tree, has_filter, f),
        None => None,
    };
    proof {
        law_tree_rows_name_requests(*st);
    }
    match row {
        None => fx,
        Some((ci, None)) => {
            fx.push(Effect::RenameCollectionFile(ci, t));
            fx
        },
        Some((ci, Some(ri))) => {
            let ghost o = *st;
            let mut c = st.collections.remove(ci);
            let mut rq = c.requests.remove(ri);
            let ghost old_req = rq;
            let shown = passes_filter(t.as_str(), rq.url.as_str(), st.collections_filter.as_str());
            rq.name = Some(t.clone());
            c.requests.insert(ri, rq);
            st.collections.insert(ci, c);
            let mut tc = st.tree.remove(ci);
            tc.shown.set(ri, shown);
            st.tree.insert(ci, tc);
            st.request.name = Some(t.clone());
            let s1 = concat("Renamed → '", t.as_str());
            st.send.status = concat(s1.as_str(), "'");
            fx.push(Effect::SaveCollection(ci));
            proof {
                assert(st.collections@[ci as int].requests@ =~= o.collections@[ci as int].requests@.update(ri as int, st.collections@[ci as int].requests@[ri as int]));
                assert(st.tree@[ci as int].shown@ =~= o.tree@[ci as int].shown@.update(ri as int, shown));
            }
            fx
        },
    }
}

/// The outcome of renaming collection `ci`'s file after `name`: the
/// collection takes the name when the file was renamed.
pub fn collection_renamed(st: &mut AppState, ci: usize, name: String, renamed: bool)
    requires
        old(st).well_formed(),
        ci < old(st).collections@.len(),
    ensures
        final(st).well_formed(),
        renamed ==> {
            &&& *final(st) == (AppState { collections: final(st).collections, send: final(st).send, ..*old(st) })
            &&& final(st).collections@.len() == old(st).collections@.len()
            &&& forall|j: int| 0 <= j < old(st).collections@.len() && j != ci ==> #[trigger] final(st).collections@[j] == old(st).collections@[j]
            &&& final(st).collections@[ci as int].requests == old(st).collections@[ci as int].requests
            &&& final(st).collections@[ci as int].name@ == name@
            &&& final(st).send.status@ == "Renamed → '"@ + name@ + "'"@
        },
        !renamed ==> *final(st) == (AppState { send: final(st).send, ..*old(st) })
            && final(st).send.status@ == "Failed to rename file"@,
        final(st).send == (SendStatus { status: final(st).send.status, ..old(st).send }),
{
    if renamed {
        let s1 = concat("Renamed → '", name.as_str());
        st.send.status = concat(s1.as_str(), "'");
        let mut c = st.collections.remove(ci);
        c.name = name;
        st.collections.insert(ci, c);
    } else {
        st.send.status = String::from_str("Failed to rename file");
    }
}

/// The names of the named requests of `rs`, in order.
pub open spec fn spec_request_names(rs: Seq<Request>) -> Seq<Seq<char>>
    decreases rs.len(),
{
    if rs.len() == 0 {
        Seq::empty()
    } else {
        let p = spec_request_names(rs.drop_last());
        match rs.last().name {
            Some(nm) => p.push(nm@),
            None => p,
        }
    }
}

/// A new request named `name` was added last to collection `ci`, made
/// the active collection, expanded in the tree (its row shown as the
/// filter decides) and loaded into the editor; the collection is to be
/// written and the body editor emptied.
pub open spec fn spec_request_added(o: AppState, n: AppState, ci: int, name: Seq<char>, fx: Seq<Effect>) -> bool {
    &&& n == (AppState {
        collections: n.collections, tree: n.tree, active_collection: ci as usize, request: n.request,
        current_response: None, focus: RequestFocus::Url, send: n.send, ..o
    })
    &&& spec_is_new_request(n.request, name)
    &&& n.collections@.len() == o.collections@.len()
    &&& forall|j: int| 0 <= j < o.collections@.len() && j != ci ==> #[trigger] n.collections@[j] == o.collections@[j]
    &&& n.collections@[ci].name == o.collections@[ci].name
    &&& n.collections@[ci].requests@.len() == o.collections@[ci].requests@.len() + 1
    &&& n.collections@[ci].requests@.drop_last() == o.collections@[ci].requests@
    &&& spec_is_new_request(n.collections@[ci].requests@.last(), name)
    &&& n.tree@.len() == o.tree@.len()
    &&& forall|j: int| 0 <= j < o.tree@.len() && j != ci ==> #[trigger] n.tree@[j] == o.tree@[j]
    &&& n.tree@[ci].expanded
    &&& n.tree@[ci].shown@ == o.tree@[ci].shown@.push(spec_passes_filter(name, ""@, o.collections_filter@))
    &&& n.send == (SendStatus { last_error: None, status: n.send.status, ..o.send })
    &&& n.send.status@ == "Created: "@ + name + " in "@ + o.collections@[ci].name@
    &&& fx.len() == 2 && fx[0] == Effect::SaveCollection(ci as usize) && fx[1] is ClearBodyEditor
}

/// A view after jumping to a search hit: the cursor on it, scrolled into
/// view.
pub open spec fn spec_jumped(v: VimView, hit: (usize, usize)) -> VimView {
    VimView {
        cursor_row: hit.0,
        cursor_col: hit.1,
        scroll_offset: spec_jump_scroll(v.scroll_offset as int, hit.0 as int, v.visible_height as int) as usize,
        ..v
    }
}

/// Whether the focused item was switched on or off.
pub open spec fn spec_toggled(o: Request, n: Request, focus: RequestFocus) -> bool {
    match focus {
        RequestFocus::Header(i) => if i < o.headers@.len() {
            n.headers@.len() == o.headers@.len() && n.headers@[i as int].enabled == !o.headers@[i as int].enabled
                && n.headers@[i as int].name == o.headers@[i as int].name && n.headers@[i as int].value == o.headers@[i as int].value
                && (forall|j: int| 0 <= j < o.headers@.len() && j != i ==> #[trigger] n.headers@[j] == o.headers@[j])
                && n == (Request { headers: n.headers, ..o })
        } else { n == o },
        RequestFocus::Param(i) => if i < o.query_params@.len() {
            n.query_params@.len() == o.query_params@.len() && n.query_params@[i as int].enabled == !o.query_params@[i as int].enabled
                && n.query_params@[i as int].key == o.query_params@[i as int].key && n.query_params@[i as int].value == o.query_params@[i as int].value
                && (forall|j: int| 0 <= j < o.query_params@.len() && j != i ==> #[trigger] n.query_params@[j] == o.query_params@[j])
                && n == (Request { query_params: n.query_params, ..o })
        } else { n == o },
        RequestFocus::Cookie(i) => if i < o.cookies@.len() {
            n.cookies@.len() == o.cookies@.len() && n.cookies@[i as int].enabled == !o.cookies@[i as int].enabled
                && n.cookies@[i as int].name == o.cookies@[i as int].name && n.cookies@[i as int].value == o.cookies@[i as int].value
                && (forall|j: int| 0 <= j < o.cookies@.len() && j != i ==> #[trigger] n.cookies@[j] == o.cookies@[j])
                && n == (Request { cookies: n.cookies, ..o })
        } else { n == o },
        RequestFocus::PathParam(i) => if i < o.path_params@.len() {
            n.path_params@.len() == o.path_params@.len() && n.path_params@[i as int].enabled == !o.path_params@[i as int].enabled
                && n.path_params@[i as int].key == o.path_params@[i as int].key && n.path_params@[i as int].value == o.path_params@[i as int].value
                && (forall|j: int| 0 <= j < o.path_params@.len() && j != i ==> #[trigger] n.path_params@[j] == o.path_params@[j])
                && n == (Request { path_params: n.path_params, ..o })
        } else { n == o },
        RequestFocus::Url => n == o,
    }
}

/// Whether every list an add action could grow has room for one more.
pub open spec fn spec_add_fits(st: AppState, a: Action) -> bool {
    if a is AddRequestToCollection {
        forall|c: int| 0 <= c < st.collections@.len() ==> (#[trigger] st.collections@[c]).requests@.len() < usize::MAX
    } else {
        spec_add_item_fits(st, a)
    }
}

/// Whether the request list an add action grows has room for one more.
pub open spec fn spec_add_item_fits(st: AppState, a: Action) -> bool {
    match spec_item_tab(a) {
        Some((tab, true)) => spec_list_len(st.request, tab) < usize::MAX,
        _ => true,
    }
}

/// One application-level command: the count typed before it is used up
/// (a digit extends it instead); quitting, the certificate and wrap
/// switches, moving between collections, adding, deleting and switching
/// items of the request, stepping between search hits, and the end of a
/// request (its response cached and recorded under the request's key) are
/// done here, with the outside
/// work they call for; any other action comes back with its count for the
/// editing functions.
#[verifier::spinoff_prover]
#[verifier::rlimit(40)]
pub fn update(st: &mut AppState, action: Action, now: u64) -> (r: Update)
    requires
        old(st).well_formed(),
        spec_add_fits(*old(st), action),
        action matches Action::AccumulateCount(d) ==> spec_count_digit(old(st).count_prefix, d) <= usize::MAX,
    ensures
        final(st).well_formed(),
        final(st).count_prefix == spec_count_after(old(st).count_prefix, action),
        spec_handled(action) ==> (r matches Update::Done(fx) && spec_update_done(
            AppState { count_prefix: final(st).count_prefix, ..*old(st) }, *final(st), action, now, fx@)),
        !spec_handled(action) ==> (r matches Update::Other(a2, c) && a2 == action
            && c == (if old(st).count_prefix.is_some() { old(st).count_prefix.unwrap() } else { 1 })
            && *final(st) == (AppState { count_prefix: None, ..*old(st) })),
{
    let count = match action {
        Action::AccumulateCount(d) => {
            st.count_prefix = push_count_digit(st.count_prefix, d);
            return Update::Done(Vec::new());
        },
        _ => take_count(&mut st.count_prefix),
    };
    let ghost o = *st;
    match action {
        Action::Quit => {
            st.should_quit = true;
            Update::Done(Vec::new())
        },
        Action::ToggleInsecureMode => {
            toggle_ssl(&mut st.verify_ssl, &mut st.send.status);
            Update::Done(Vec::new())
        },
        Action::ToggleWrap => {
            toggle_wrap(&mut st.wrap_enabled, &mut st.send.status);
            Update::Done(Vec::new())
        },
        Action::NextCollection => switch_collection(st, true),
        Action::PrevCollection => switch_collection(st, false),
        Action::ToggleItemEnabled => {
            toggle_enabled(&mut st.request, st.focus);
            Update::Done(Vec::new())
        },
        Action::RequestFocusDown => {
            let n = match st.tab {
                RequestTab::Headers => st.request.headers.len(),
                RequestTab::Queries => st.request.query_params.len(),
                RequestTab::Cookies => st.request.cookies.len(),
                RequestTab::Params => st.request.path_params.len(),
            };
            st.focus = focus_down(st.focus, st.tab, n);
            Update::Done(Vec::new())
        },
        Action::RequestFocusUp => {
            st.focus = focus_up(st.focus);
            Update::Done(Vec::new())
        },
        Action::NextMethod => {
            st.request.method = st.request.method.next();
            st.send.status = concat("Method: ", st.request.method.as_str());
            Update::Done(Vec::new())
        },
        Action::PrevMethod => {
            st.request.method = st.request.method.prev();
            st.send.status = concat("Method: ", st.request.method.as_str());
            Update::Done(Vec::new())
        },
        Action::AddHeader => add_to(st, RequestTab::Headers),
        Action::AddParam => add_to(st, RequestTab::Queries),
        Action::AddCookie => add_to(st, RequestTab::Cookies),
        Action::AddPathParam => add_to(st, RequestTab::Params),
        Action::DeleteHeader => delete_from(st, RequestTab::Headers),
        Action::DeleteParam => delete_from(st, RequestTab::Queries),
        Action::DeleteCookie => delete_from(st, RequestTab::Cookies),
        Action::DeletePathParam => delete_from(st, RequestTab::Params),
        Action::RequestCompleted(resp) => complete(st, *resp, now),
        Action::AddRequestToCollection => add_request(st),
        Action::SearchNext => search_step(st, true),
        Action::SearchPrev => search_step(st, false),
        Action::RequestFailed(err) => {
            st.send.fail(err);
            st.send.started_at = None;
            st.current_response = None;
            Update::Done(Vec::new())
        },
        other => Update::Other(other, count),
    }
}

fn switch_collection(st: &mut AppState, forward: bool) -> (r: Update)
    requires
        old(st).well_formed(),
    ensures
        final(st).well_formed(),
        r matches Update::Done(fx) && spec_update_done(*old(st), *final(st),
            if forward { Action::NextCollection } else { Action::PrevCollection }, 0, fx@),
{
    match step_collection(&mut st.active_collection, &mut st.tree, forward) {
        Some(ci) => {
            st.send.status = concat("Collection: ", st.collections[ci].name.as_str());
            let mut fx: Vec<Effect> = Vec::new();
            fx.push(Effect::LoadFirstRequest(ci));
            Update::Done(fx)
        },
        None => Update::Done(Vec::new()),
    }
}

/// The names of the named requests of `rs`.
fn request_names(rs: &Vec<Request>) -> (r: Vec<String>)
    ensures
        spec_names(r@) == spec_request_names(rs@),
        r@.len() <= rs@.len(),
{
    let mut out: Vec<String> = Vec::new();
    let mut i: usize = 0;
    while i < rs.len()
        invariant
            i <= rs@.len(),
            out@.len() <= i,
            spec_names(out@) == spec_request_names(rs@.subrange(0, i as int)),
        decreases rs@.len() - i,
    {
        let ghost before = out@;
        proof {
            assert(rs@.subrange(0, i + 1).drop_last() =~= rs@.subrange(0, i as int));
        }
        match &rs[i].name {
            Some(nm) => {
                out.push(nm.clone());
                proof {
                    assert(spec_names(out@) =~= spec_names(before).push(nm@));
                }
            },
            None => {},
        }
        i = i + 1;
    }
    proof {
        assert(rs@.subrange(0, rs@.len() as int) =~= rs@);
    }
    out
}

fn add_request(st: &mut AppState) -> (r: Update)
    requires
        old(st).well_formed(),
        spec_add_fits(*old(st), Action::AddRequestToCollection),
    ensures
        final(st).well_formed(),
        r matches Update::Done(fx) && spec_update_done(*old(st), *final(st), Action::AddRequestToCollection, 0, fx@),
{
    let has_filter = st.collections_filter.as_str().unicode_len() > 0;
    let target = match st.collections_selected {
        Some(f) => match flat_idx_to_coll_req(&st.tree, has_filter, f) {
            Some((ci, _)) => Some(ci),
            None => None,
        },
        None => None,
    };
    let ci = match target {
        Some(ci) => ci,
        None => {
            st.send.status = String::from_str("Select a collection first");
            return Update::Done(Vec::new());
        },
    };
    proof {
        law_tree_rows_ordered(st.tree@, has_filter, st.tree@.len() as int);
        let rows = spec_tree_rows(st.tree@, has_filter, st.tree@.len() as int);
        assert(0 <= rows[st.collections_selected.unwrap() as int].0 < st.tree@.len());
    }
    let ghost o = *st;
    let names = request_names(&st.collections[ci].requests);
    let name = new_request_name(&names);
    let shown = passes_filter(name.as_str(), "", st.collections_filter.as_str());
    let mut c = st.collections.remove(ci);
    c.requests.push(new_named_request(name.clone()));
    st.collections.insert(ci, c);
    let mut t = st.tree.remove(ci);
    t.expanded = true;
    t.shown.push(shown);
    st.tree.insert(ci, t);
    st.active_collection = ci;
    st.request = new_named_request(name.clone());
    st.current_response = None;
    st.send.last_error = None;
    st.focus = RequestFocus::Url;
    let s1 = concat("Created: ", name.as_str());
    let s2 = concat(s1.as_str(), " in ");
    st.send.status = concat(s2.as_str(), st.collections[ci].name.as_str());
    let mut fx: Vec<Effect> = Vec::new();
    fx.push(Effect::SaveCollection(ci));
    fx.push(Effect::ClearBodyEditor);
    proof {
        reveal_strlit("");
        let k = choose|k: nat| k >= 1 && name@ == spec_new_name(k)
            && !spec_names(names@).contains(name@)
            && forall|j: nat| 1 <= j < k ==> spec_names(names@).contains(#[trigger] spec_new_name(j));
        let n = *st;
        assert(n == (AppState {
            collections: n.collections, tree: n.tree, active_collection: ci, request: n.request,
            current_response: None, focus: RequestFocus::Url, send: n.send, ..o
        }));
        assert(n.collections@[ci as int].requests@.drop_last() =~= o.collections@[ci as int].requests@);
        assert(spec_request_added(o, *st, ci as int, spec_new_name(k), fx@));
    }
    Update::Done(fx)
}

fn search_step(st: &mut AppState, forward: bool) -> (r: Update)
    requires
        old(st).well_formed(),
    ensures
        final(st).well_formed(),
        r matches Update::Done(fx) && spec_update_done(*old(st), *final(st),
            if forward { Action::SearchNext } else { Action::SearchPrev }, 0, fx@),
{
    let len = st.search_hits.len();
    if len > 0 {
        st.search_idx = if forward { cycle_next(st.search_idx, len) } else { search_prev(st.search_idx, len) };
        if let Some(v0) = st.search_view {
            let mut v = v0;
            jump_to_match(&mut v, &st.search_hits, st.search_idx);
            st.search_view = Some(v);
        }
    }
    Update::Done(Vec::new())
}

fn add_to(st: &mut AppState, tab: RequestTab) -> (r: Update)
    requires
        old(st).well_formed(),
        spec_list_len(old(st).request, tab) < usize::MAX,
    ensures
        final(st).well_formed(),
        r matches Update::Done(fx) && fx@.len() == 0,
        ({
            let (o, n) = (*old(st), *final(st));
            let len = spec_list_len(o.request, tab);
            &&& n == (AppState { request: n.request, focus: n.focus, edit_field: 0, edit_cursor: 0, mode: InputMode::Insert, ..o })
            &&& spec_added_to(o.request, n.request, tab)
            &&& n.focus == spec_focus_of(tab, Some(len as usize))
        }),
{
    add_item(&mut st.request, &mut st.focus, &mut st.edit_field, &mut st.edit_cursor, &mut st.mode, tab);
    Update::Done(Vec::new())
}

fn delete_from(st: &mut AppState, tab: RequestTab) -> (r: Update)
    requires
        old(st).well_formed(),
    ensures
        final(st).well_formed(),
        r matches Update::Done(fx) && fx@.len() == 0,
        ({
            let (o, n) = (*old(st), *final(st));
            let fi = spec_focused_index(o.focus, tab);
            if fi.is_some() && fi.unwrap() < spec_list_len(o.request, tab) {
                &&& n == (AppState { request: n.request, focus: n.focus, pending_key: None, send: n.send, ..o })
                &&& spec_deleted_from(o.request, n.request, tab, fi.unwrap() as int)
                &&& n.focus == spec_focus_of(tab, spec_focus_after_delete(fi.unwrap(), spec_list_len(o.request, tab)))
                &&& n.send == (SendStatus { status: n.send.status, ..o.send })
                &&& n.send.status@ == spec_deleted_status(tab)
            } else {
                n == (AppState { pending_key: None, ..o })
            }
        }),
{
    if delete_focused(&mut st.request, &mut st.focus, &mut st.pending_key, tab) {
        st.send.status = deleted_status(tab);
    }
    Update::Done(Vec::new())
}

fn complete(st: &mut AppState, resp: Response, now: u64) -> (r: Update)
    requires
        old(st).well_formed(),
    ensures
        final(st).well_formed(),
        r matches Update::Done(fx) && spec_completed(*old(st), *final(st), resp, now, fx@),
{
    st.send.in_flight = false;
    st.send.started_at = None;
    st.send.last_error = None;
    let mut fx: Vec<Effect> = Vec::new();
    match history_key(&st.collections, st.active_collection, &st.request.name) {
        Some(key) => {
            let key2 = key.clone();
            let cached = resp.copy();
            let ghost entry = CacheEntry { key: key, response: cached, stored_at: now };
            st.cache.insert(key, cached, now);
            proof {
                assert(entry.key@ == key2@ && response_eqv(entry.response, resp));
            }
            st.current_response = Some(resp.copy());
            record_in_histories(&mut st.response_histories, key2, resp);
            fx.push(Effect::SaveResponseHistories);
        },
        None => {
            st.current_response = Some(resp);
        },
    }
    fx.push(Effect::RecordHistory);
    Update::Done(fx)
}

/// The `k`-th name tried for a new request: `New Request`, then
/// `New Request (2)`, `New Request (3)`, ...
pub open spec fn spec_new_name(k: nat) -> Seq<char> {
    if k <= 1 { "New Request"@ } else { "New Request ("@ + spec_decimal(k) + ")"@ }
}

/// The views of a list of strings.
pub open spec fn spec_names(v: Seq<String>) -> Seq<Seq<char>> {
    Seq::new(v.len(), |i: int| v[i]@)
}

proof fn lemma_decimal_nonempty(n: nat)
    ensures
        spec_decimal(n).len() >= 1,
        n >= 10 ==> spec_decimal(n).len() >= 2,
    decreases n,
{
    if n >= 10 {
        lemma_decimal_nonempty(n / 10);
    }
}

proof fn lemma_decimal_injective(a: nat, b: nat)
    requires
        spec_decimal(a) == spec_decimal(b),
    ensures
        a == b,
    decreases a,
{
    lemma_decimal_nonempty(a);
    lemma_decimal_nonempty(b);
    if a < 10 && b < 10 {
        assert(spec_decimal(a)[0] == crate::strutil::spec_digit(a));
        assert(spec_decimal(b)[0] == crate::strutil::spec_digit(b));
    } else if a >= 10 && b >= 10 {
        let da = spec_decimal(a);
        let db = spec_decimal(b);
        assert(da.last() == crate::strutil::spec_digit(a % 10));
        assert(db.last() == crate::strutil::spec_digit(b % 10));
        assert(a % 10 == b % 10);
        assert(da.drop_last() =~= spec_decimal(a / 10));
        assert(db.drop_last() =~= spec_decimal(b / 10));
        lemma_decimal_injective(a / 10, b / 10);
    } else {
        assert(spec_decimal(a).len() != spec_decimal(b).len());
    }
}

proof fn lemma_new_name_injective(a: nat, b: nat)
    requires
        a >= 1,
        b >= 1,
        spec_new_name(a) == spec_new_name(b),
    ensures
        a == b,
{
    reveal_strlit("New Request");
    reveal_strlit("New Request (");
    reveal_strlit(")");
    lemma_decimal_nonempty(a);
    lemma_decimal_nonempty(b);
    if a >= 2 && b >= 2 {
        let na = spec_new_name(a);
        let nb = spec_new_name(b);
        assert(na.len() == 14 + spec_decimal(a).len());
        assert(spec_decimal(a).len() == spec_decimal(b).len());
        assert(na.subrange(13, 13 + spec_decimal(a).len() as int) =~= spec_decimal(a));
        assert(nb.subrange(13, 13 + spec_decimal(b).len() as int) =~= spec_decimal(b));
        lemma_decimal_injective(a, b);
    } else if a >= 2 || b >= 2 {
        assert("New Request"@.len() == 11);
        assert("New Request ("@.len() == 13);
        let big = if a >= 2 { a } else { b };
        assert(spec_new_name(big).len() >= 15);
        assert(spec_new_name(a).len() != spec_new_name(b).len());
    }
}

/// Taking `m` names in a row shows that at least `m` names exist.
proof fn lemma_names_taken(names: Seq<Seq<char>>, m: nat)
    requires
        forall|j: nat| 1 <= j <= m ==> names.contains(#[trigger] spec_new_name(j)),
    ensures
        m <= names.len(),
{
    let cs = Seq::new(m, |j: int| spec_new_name((j + 1) as nat));
    assert forall|i: int, j: int| 0 <= i < cs.len() && 0 <= j < cs.len() && i != j implies cs[i] != cs[j] by {
        if cs[i] == cs[j] {
            lemma_new_name_injective((i + 1) as nat, (j + 1) as nat);
        }
    }
    assert(cs.no_duplicates());
    cs.unique_seq_to_set();
    assert forall|x: Seq<char>| cs.to_set().contains(x) implies names.to_set().contains(x) by {
        let i = choose|i: int| 0 <= i < cs.len() && cs[i] == x;
        assert(spec_new_name((i + 1) as nat) == x);
        assert(names.contains(spec_new_name((i + 1) as nat)));
    }
    vstd::set_lib::lemma_len_subset(cs.to_set(), names.to_set());
    names.lemma_cardinality_of_set();
}

fn contains_name(names: &Vec<String>, s: &String) -> (r: bool)
    ensures
        r == spec_names(names@).contains(s@),
{
    let mut i: usize = 0;
    while i < names.len()
        invariant
            i <= names@.len(),
            forall|k: int| 0 <= k < i ==> (#[trigger] names@[k])@ != s@,
        decreases names@.len() - i,
    {
        if crate::strutil::str_eq(names[i].as_str(), s.as_str()) {
            proof {
                assert(spec_names(names@)[i as int] == s@);
            }
            return true;
        }
        i = i + 1;
    }
    proof {
        if spec_names(names@).contains(s@) {
            let k = choose|k: int| 0 <= k < spec_names(names@).len() && spec_names(names@)[k] == s@;
            assert(names@[k]@ == s@);
        }
    }
    false
}

fn new_name(k: usize) -> (r: String)
    ensures
        r@ == spec_new_name(k as nat),
{
    if k <= 1 {
        String::from_str("New Request")
    } else {
        let d = decimal_string(k as u64);
        let a = concat("New Request (", d.as_str());
        concat(a.as_str(), ")")
    }
}

/// The name of a new request in a collection whose requests are named
/// `existing`: the first of `New Request`, `New Request (2)`,
/// `New Request (3)`, ... that is not taken.
pub fn new_request_name(existing: &Vec<String>) -> (r: String)
    requires
        existing@.len() < usize::MAX,
    ensures
        exists|k: nat| k >= 1 && r@ == spec_new_name(k)
            && !spec_names(existing@).contains(r@)
            && forall|j: nat| 1 <= j < k ==> spec_names(existing@).contains(#[trigger] spec_new_name(j)),
{
    let mut k: usize = 1;
    let mut name = new_name(1);
    while contains_name(existing, &name)
        invariant
            1 <= k <= existing@.len() + 1,
            existing@.len() < usize::MAX,
            name@ == spec_new_name(k as nat),
            forall|j: nat| 1 <= j < k ==> spec_names(existing@).contains(#[trigger] spec_new_name(j)),
        decreases existing@.len() + 1 - k,
    {
        proof {
            assert forall|j: nat| 1 <= j <= k implies spec_names(existing@).contains(#[trigger] spec_new_name(j)) by {}
            lemma_names_taken(spec_names(existing@), k as nat);
        }
        k = k + 1;
        name = new_name(k);
    }
    name
}

} // verus!
