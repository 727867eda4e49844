use vstd::prelude::*;
use vstd::string::StringExecFns;
use crate::action::{Action, Overlay, Panel, action_eqv};

verus! {

/// An instant of the monotonic clock (`std::time::Instant`).
#[verifier::external_type_specification]
#[verifier::external_body]
pub struct ExInstant(std::time::Instant);

/// The current instant (`Instant::now`); nothing is stated of its value.
#[verifier::external_body]
fn instant_now() -> (r: std::time::Instant) {
    std::time::Instant::now()
}

/// The time elapsed since `t` (`Instant::elapsed`); it depends on the
/// clock, so nothing is stated of it.
#[verifier::external_body]
fn instant_elapsed(t: &std::time::Instant) -> (r: std::time::Duration) {
    t.elapsed()
}

/// The whole seconds of `d` (`Duration::as_secs`); `Duration` is opaque
/// here, so nothing is stated of the number.
#[verifier::external_body]
fn duration_secs(d: &std::time::Duration) -> (r: u64) {
    d.as_secs()
}

/// The nanoseconds of `d` (`Duration::as_nanos`); `Duration` is opaque
/// here, so nothing is stated of the number.
#[verifier::external_body]
fn duration_nanos(d: &std::time::Duration) -> (r: u128) {
    d.as_nanos()
}

/// Nanoseconds elapsed since `t`, as the clock gives them.
fn elapsed_nanos(t: &std::time::Instant) -> (r: u128) {
    let d = instant_elapsed(t);
    duration_nanos(&d)
}

/// Whole seconds elapsed since `t`, as the clock gives them.
pub(crate) fn elapsed_secs(t: &std::time::Instant) -> (r: u64) {
    let d = instant_elapsed(t);
    duration_secs(&d)
}

/// Represents a single entry in the leader menu
#[derive(Debug)]
pub struct LeaderEntry {
    pub key: char,
    pub description: String,
    pub action: Option<Action>,
    pub submenu: Option<Vec<LeaderEntry>>,
}

/// Tracks the state of the leader menu
#[derive(Debug)]
pub struct LeaderContext {
    pub active: bool,
    pub menu_visible: bool,
    pub key_sequence: Vec<char>,
    pub pressed_at: Option<std::time::Instant>,
}

/// The time after which an open menu times out: 5 seconds, in nanoseconds.
pub const LEADER_TIMEOUT_NANOS: u128 = 5_000_000_000;

/// A menu that has timed out: more than 5 seconds since it was opened.
pub open spec fn spec_timed_out_after(elapsed_nanos: u128) -> bool {
    elapsed_nanos > LEADER_TIMEOUT_NANOS
}

/// Whether a menu opened `elapsed_nanos` nanoseconds ago has timed out.
pub fn timed_out_after(elapsed_nanos: u128) -> (r: bool)
    ensures
        r == spec_timed_out_after(elapsed_nanos),
{
    elapsed_nanos > LEADER_TIMEOUT_NANOS
}

impl LeaderContext {
    pub fn new() -> (r: Self)
        ensures
            !r.active,
            !r.menu_visible,
            r.key_sequence@.len() == 0,
            r.pressed_at.is_none(),
    {
        LeaderContext { active: false, menu_visible: false, key_sequence: Vec::new(), pressed_at: None }
    }

    /// Open the menu: active and visible, no keys typed yet, clock started.
    pub fn activate(&mut self)
        ensures
            final(self).active,
            final(self).menu_visible,
            final(self).key_sequence@.len() == 0,
            final(self).pressed_at.is_some(),
    {
        self.active = true;
        self.menu_visible = true;
        self.key_sequence = Vec::new();
        self.pressed_at = Some(instant_now());
    }

    /// Close the menu and forget the typed keys and the clock.
    pub fn deactivate(&mut self)
        ensures
            !final(self).active,
            !final(self).menu_visible,
            final(self).key_sequence@.len() == 0,
            final(self).pressed_at.is_none(),
    {
        self.active = false;
        self.menu_visible = false;
        self.key_sequence = Vec::new();
        self.pressed_at = None;
    }

    /// Check if menu has timed out: more than 5 seconds since it was opened,
    /// never when it was not opened.
    pub fn is_timed_out(&self) -> (r: bool)
        ensures
            self.pressed_at.is_none() ==> !r,
    {
        match &self.pressed_at {
            Some(t) => timed_out_after(elapsed_nanos(t)),
            None => false,
        }
    }
}

impl Default for LeaderContext {
    fn default() -> (r: Self)
        ensures
            !r.active,
            !r.menu_visible,
            r.key_sequence@.len() == 0,
            r.pressed_at.is_none(),
    {
        Self::new()
    }
}

/// Two entries with the same key, description and action, and the same
/// submenus.
pub open spec fn entry_eqv(a: LeaderEntry, b: LeaderEntry) -> bool
    decreases a,
{
    &&& a.key == b.key
    &&& a.description@ == b.description@
    &&& a.action.is_some() == b.action.is_some()
    &&& (a.action.is_some() ==> action_eqv(a.action.unwrap(), b.action.unwrap()))
    &&& a.submenu.is_some() == b.submenu.is_some()
    &&& (a.submenu.is_some() ==> {
        &&& a.submenu.unwrap()@.len() == b.submenu.unwrap()@.len()
        &&& forall|i: int| 0 <= i < a.submenu.unwrap()@.len() ==> entry_eqv(
            #[trigger] a.submenu.unwrap()@[i],
            b.submenu.unwrap()@[i],
        )
    })
}

/// Entry-wise [`entry_eqv`].
pub open spec fn entries_eqv(a: Seq<LeaderEntry>, b: Seq<LeaderEntry>) -> bool {
    a.len() == b.len() && forall|i: int| 0 <= i < a.len() ==> entry_eqv(#[trigger] a[i], b[i])
}

fn copy_action(a: &Option<Action>) -> (r: Option<Action>)
    ensures
        r.is_some() == a.is_some(),
        a.is_some() ==> action_eqv(r.unwrap(), a.unwrap()),
{
    match a {
        Some(x) => Some(x.copy()),
        None => None,
    }
}

impl LeaderEntry {
    /// A deep copy.
    pub fn copy(&self) -> (r: LeaderEntry)
        ensures
            entry_eqv(r, *self),
        decreases self,
    {
        let sub = match &self.submenu {
            Some(v) => Some(copy_entries(v)),
            None => None,
        };
        LeaderEntry {
            key: self.key,
            description: self.description.clone(),
            action: copy_action(&self.action),
            submenu: sub,
        }
    }
}

/// Deep copies of `v`'s entries.
pub fn copy_entries(v: &Vec<LeaderEntry>) -> (r: Vec<LeaderEntry>)
    ensures
        entries_eqv(r@, v@),
    decreases v,
{
    let mut out: Vec<LeaderEntry> = Vec::new();
    let mut i: usize = 0;
    while i < v.len()
        invariant
            i <= v@.len(),
            out@.len() == i,
            forall|k: int| 0 <= k < i ==> entry_eqv(#[trigger] out@[k], v@[k]),
        decreases v@.len() - i,
    {
        out.push(v[i].copy());
        i = i + 1;
    }
    out
}

/// The leader menu system with mappings for all panels
#[derive(Debug)]
pub struct LeaderMenu {
    pub global_entries: Vec<LeaderEntry>,
    pub panel_entries: Vec<(Panel, Vec<LeaderEntry>)>,
}

fn entry(key: char, description: &str, action: Option<Action>) -> (r: LeaderEntry)
    ensures
        r.key == key,
        r.description@ == description@,
        r.action == action,
        r.submenu.is_none(),
{
    LeaderEntry { key, description: String::from_str(description), action, submenu: None }
}

/// Whether `e` is the entry `(key, description, action)` without submenu.
pub open spec fn spec_is_entry(e: LeaderEntry, key: char, description: Seq<char>, action: Option<Action>) -> bool {
    e.key == key && e.description@ == description && e.action == action && e.submenu.is_none()
}

/// The global entries of the menu, in order.
pub open spec fn spec_global_entry(e: LeaderEntry, i: int) -> bool {
    if i == 0 {
        spec_is_entry(e, 'q', "Quit application"@, Some(Action::Quit))
    } else if i == 1 {
        spec_is_entry(e, 't', "Toggle theme selector"@, Some(Action::CycleTheme))
    } else if i == 2 {
        spec_is_entry(e, 'e', "Open environment selector"@, Some(Action::OpenOverlay(Overlay::EnvironmentSelector)))
    } else if i == 3 {
        spec_is_entry(e, 'c', "Open collections manager"@, Some(Action::FocusPanel(Panel::Collections)))
    } else if i == 4 {
        spec_is_entry(e, 'h', "Show help overlay"@, Some(Action::OpenOverlay(Overlay::Help)))
    } else if i == 5 {
        spec_is_entry(e, '?', "Show all keybindings"@, Some(Action::OpenOverlay(Overlay::Help)))
    } else if i == 6 {
        spec_is_entry(e, ':', "Open command palette"@, Some(Action::OpenCommandPalette))
    } else if i == 7 {
        spec_is_entry(e, '1', "Navigate to panel 1 (Collections)"@, Some(Action::FocusPanel(Panel::Collections)))
    } else if i == 8 {
        spec_is_entry(e, '2', "Navigate to panel 2 (Request)"@, Some(Action::FocusPanel(Panel::Request)))
    } else if i == 9 {
        spec_is_entry(e, '3', "Navigate to panel 3 (Body)"@, Some(Action::FocusPanel(Panel::Body)))
    } else if i == 10 {
        spec_is_entry(e, '4', "Navigate to panel 4 (Response)"@, Some(Action::FocusPanel(Panel::Response)))
    } else {
        false
    }
}

/// The entries of the Collections panel, in order.
pub open spec fn spec_collections_entry(e: LeaderEntry, i: int) -> bool {
    if i == 0 {
        spec_is_entry(e, 'n', "New collection"@, None)
    } else if i == 1 {
        spec_is_entry(e, 'd', "Delete selected item"@, None)
    } else if i == 2 {
        spec_is_entry(e, 'r', "Rename selected item"@, None)
    } else if i == 3 {
        spec_is_entry(e, 's', "Save request"@, None)
    } else if i == 4 {
        spec_is_entry(e, 'S', "Save request as new"@, None)
    } else if i == 5 {
        spec_is_entry(e, 'm', "Move request to another collection"@, None)
    } else if i == 6 {
        spec_is_entry(e, 'a', "Add new request to collection"@, None)
    } else {
        false
    }
}

/// The entries of the Request panel, in order.
pub open spec fn spec_request_entry(e: LeaderEntry, i: int) -> bool {
    if i == 0 {
        spec_is_entry(e, 'h', "Add/manage headers"@, Some(Action::AddHeader))
    } else if i == 1 {
        spec_is_entry(e, 'c', "Add/manage cookies"@, Some(Action::AddCookie))
    } else if i == 2 {
        spec_is_entry(e, 'q', "Add/manage query params"@, Some(Action::AddParam))
    } else if i == 3 {
        spec_is_entry(e, 'p', "Add/manage path params"@, Some(Action::AddPathParam))
    } else if i == 4 {
        spec_is_entry(e, 'M', "Change HTTP method"@, Some(Action::NextMethod))
    } else if i == 5 {
        spec_is_entry(e, 's', "Save current request"@, Some(Action::SaveRequest))
    } else if i == 6 {
        spec_is_entry(e, 'b', "Toggle body type"@, Some(Action::CycleBodyType))
    } else {
        false
    }
}

/// The entries of the Body panel, in order.
pub open spec fn spec_body_entry(e: LeaderEntry, i: int) -> bool {
    if i == 0 {
        spec_is_entry(e, 'f', "Format/prettify body"@, None)
    } else if i == 1 {
        spec_is_entry(e, 'c', "Copy body to clipboard"@, None)
    } else if i == 2 {
        spec_is_entry(e, 'b', "Clear body"@, None)
    } else if i == 3 {
        spec_is_entry(e, 't', "Change body type"@, Some(Action::CycleBodyType))
    } else if i == 4 {
        spec_is_entry(e, 'j', "Focus on body editor"@, Some(Action::EnterInsertMode))
    } else if i == 5 {
        spec_is_entry(e, 's', "Save request"@, Some(Action::SaveRequest))
    } else if i == 6 {
        spec_is_entry(e, 'v', "Visual mode"@, Some(Action::EnterVisualMode))
    } else {
        false
    }
}

/// The entries of the Response panel, in order.
pub open spec fn spec_response_entry(e: LeaderEntry, i: int) -> bool {
    if i == 0 {
        spec_is_entry(e, 'h', "Toggle headers expandible"@, Some(Action::ToggleResponseHeaders))
    } else if i == 1 {
        spec_is_entry(e, 'd', "View diff vs previous response"@, None)
    } else if i == 2 {
        spec_is_entry(e, 'H', "Show response history overlay"@, Some(Action::OpenOverlay(Overlay::ResponseHistory { selected: 0 })))
    } else if i == 3 {
        spec_is_entry(e, 'c', "Copy response body"@, Some(Action::CopyResponseBody))
    } else if i == 4 {
        spec_is_entry(e, 'e', "Export response to file"@, Some(Action::ExportResponse))
    } else if i == 5 {
        spec_is_entry(e, 'w', "Toggle wrap text"@, Some(Action::ToggleWrap))
    } else if i == 6 {
        spec_is_entry(e, 'D', "Download response"@, None)
    } else if i == 7 {
        spec_is_entry(e, 't', "Show type tab"@, Some(Action::ResponseNextTab))
    } else if i == 8 {
        spec_is_entry(e, 's', "Search in response"@, Some(Action::StartSearch))
    } else if i == 9 {
        spec_is_entry(e, 'j', "Format JSON"@, None)
    } else {
        false
    }
}

/// The panel-specific entry table of `p`.
pub open spec fn spec_panel_entry(p: Panel, e: LeaderEntry, i: int) -> bool {
    match p {
        Panel::Collections => spec_collections_entry(e, i),
        Panel::Request => spec_request_entry(e, i),
        Panel::Body => spec_body_entry(e, i),
        Panel::Response => spec_response_entry(e, i),
    }
}

/// Number of panel-specific entries of `p`.
pub open spec fn spec_panel_entry_count(p: Panel) -> int {
    match p {
        Panel::Collections => 7,
        Panel::Request => 7,
        Panel::Body => 7,
        Panel::Response => 10,
    }
}

/// The panel order of the panel table.
pub open spec fn spec_panel_at(i: int) -> Panel {
    if i == 0 { Panel::Collections } else if i == 1 { Panel::Request } else if i == 2 { Panel::Body } else { Panel::Response }
}

/// `es[i]` is the first entry of `es` with key `key`.
pub open spec fn spec_first_with_key(es: Seq<LeaderEntry>, key: char, i: int) -> bool {
    &&& 0 <= i < es.len()
    &&& es[i].key == key
    &&& forall|k: int| 0 <= k < i ==> (#[trigger] es[k]).key != key
}

impl LeaderMenu {
    /// The fixed menu: global entries and the entries of each panel.
    pub open spec fn spec_well_formed(&self) -> bool {
        &&& self.panel_entries@.len() == 4
        &&& forall|j: int| 0 <= j < 4 ==> (#[trigger] self.panel_entries@[j]).0 == spec_panel_at(j)
    }

    pub fn new() -> (r: Self)
        ensures
            r.spec_well_formed(),
            r.global_entries@.len() == 11,
            forall|i: int| 0 <= i < 11 ==> spec_global_entry(#[trigger] r.global_entries@[i], i),
            forall|j: int| 0 <= j < 4 ==> {
                let (p, es) = #[trigger] r.panel_entries@[j];
                &&& es@.len() == spec_panel_entry_count(p)
                &&& forall|i: int| 0 <= i < es@.len() ==> spec_panel_entry(p, #[trigger] es@[i], i)
            },
    {
        let mut global_entries: Vec<LeaderEntry> = Vec::new();
        global_entries.push(entry('q', "Quit application", Some(Action::Quit)));
        assert(spec_global_entry(global_entries@[0], 0));
        global_entries.push(entry('t', "Toggle theme selector", Some(Action::CycleTheme)));
        assert(spec_global_entry(global_entries@[1], 1));
        global_entries.push(entry('e', "Open environment selector", Some(Action::OpenOverlay(Overlay::EnvironmentSelector))));
        assert(spec_global_entry(global_entries@[2], 2));
        global_entries.push(entry('c', "Open collections manager", Some(Action::FocusPanel(Panel::Collections))));
        assert(spec_global_entry(global_entries@[3], 3));
        global_entries.push(entry('h', "Show help overlay", Some(Action::OpenOverlay(Overlay::Help))));
        assert(spec_global_entry(global_entries@[4], 4));
        global_entries.push(entry('?', "Show all keybindings", Some(Action::OpenOverlay(Overlay::Help))));
        assert(spec_global_entry(global_entries@[5], 5));
        global_entries.push(entry(':', "Open command palette", Some(Action::OpenCommandPalette)));
        assert(spec_global_entry(global_entries@[6], 6));
        global_entries.push(entry('1', "Navigate to panel 1 (Collections)", Some(Action::FocusPanel(Panel::Collections))));
        assert(spec_global_entry(global_entries@[7], 7));
        global_entries.push(entry('2', "Navigate to panel 2 (Request)", Some(Action::FocusPanel(Panel::Request))));
        assert(spec_global_entry(global_entries@[8], 8));
        global_entries.push(entry('3', "Navigate to panel 3 (Body)", Some(Action::FocusPanel(Panel::Body))));
        assert(spec_global_entry(global_entries@[9], 9));
        global_entries.push(entry('4', "Navigate to panel 4 (Response)", Some(Action::FocusPanel(Panel::Response))));
        assert(spec_global_entry(global_entries@[10], 10));
        let mut collections: Vec<LeaderEntry> = Vec::new();
        collections.push(entry('n', "New collection", None));
        assert(spec_collections_entry(collections@[0], 0));
        collections.push(entry('d', "Delete selected item", None));
        assert(spec_collections_entry(collections@[1], 1));
        collections.push(entry('r', "Rename selected item", None));
        assert(spec_collections_entry(collections@[2], 2));
        collections.push(entry('s', "Save request", None));
        assert(spec_collections_entry(collections@[3], 3));
        collections.push(entry('S', "Save request as new", None));
        assert(spec_collections_entry(collections@[4], 4));
        collections.push(entry('m', "Move request to another collection", None));
        assert(spec_collections_entry(collections@[5], 5));
        collections.push(entry('a', "Add new request to collection", None));
        assert(spec_collections_entry(collections@[6], 6));
        let mut request: Vec<LeaderEntry> = Vec::new();
        request.push(entry('h', "Add/manage headers", Some(Action::AddHeader)));
        assert(spec_request_entry(request@[0], 0));
        request.push(entry('c', "Add/manage cookies", Some(Action::AddCookie)));
        assert(spec_request_entry(request@[1], 1));
        request.push(entry('q', "Add/manage query params", Some(Action::AddParam)));
        assert(spec_request_entry(request@[2], 2));
        request.push(entry('p', "Add/manage path params", Some(Action::AddPathParam)));
        assert(spec_request_entry(request@[3], 3));
        request.push(entry('M', "Change HTTP method", Some(Action::NextMethod)));
        assert(spec_request_entry(request@[4], 4));
        request.push(entry('s', "Save current request", Some(Action::SaveRequest)));
        assert(spec_request_entry(request@[5], 5));
        request.push(entry('b', "Toggle body type", Some(Action::CycleBodyType)));
        assert(spec_request_entry(request@[6], 6));
        let mut body: Vec<LeaderEntry> = Vec::new();
        body.push(entry('f', "Format/prettify body", None));
        assert(spec_body_entry(body@[0], 0));
        body.push(entry('c', "Copy body to clipboard", None));
        assert(spec_body_entry(body@[1], 1));
        body.push(entry('b', "Clear body", None));
        assert(spec_body_entry(body@[2], 2));
        body.push(entry('t', "Change body type", Some(Action::CycleBodyType)));
        assert(spec_body_entry(body@[3], 3));
        body.push(entry('j', "Focus on body editor", Some(Action::EnterInsertMode)));
        assert(spec_body_entry(body@[4], 4));
        body.push(entry('s', "Save request", Some(Action::SaveRequest)));
        assert(spec_body_entry(body@[5], 5));
        body.push(entry('v', "Visual mode", Some(Action::EnterVisualMode)));
        assert(spec_body_entry(body@[6], 6));
        let mut response: Vec<LeaderEntry> = Vec::new();
        response.push(entry('h', "Toggle headers expandible", Some(Action::ToggleResponseHeaders)));
        assert(spec_response_entry(response@[0], 0));
        response.push(entry('d', "View diff vs previous response", None));
        assert(spec_response_entry(response@[1], 1));
        response.push(entry('H', "Show response history overlay", Some(Action::OpenOverlay(Overlay::ResponseHistory { selected: 0 }))));
        assert(spec_response_entry(response@[2], 2));
        response.push(entry('c', "Copy response body", Some(Action::CopyResponseBody)));
        assert(spec_response_entry(response@[3], 3));
        response.push(entry('e', "Export response to file", Some(Action::ExportResponse)));
        assert(spec_response_entry(response@[4], 4));
        response.push(entry('w', "Toggle wrap text", Some(Action::ToggleWrap)));
        assert(spec_response_entry(response@[5], 5));
        response.push(entry('D', "Download response", None));
        assert(spec_response_entry(response@[6], 6));
        response.push(entry('t', "Show type tab", Some(Action::ResponseNextTab)));
        assert(spec_response_entry(response@[7], 7));
        response.push(entry('s', "Search in response", Some(Action::StartSearch)));
        assert(spec_response_entry(response@[8], 8));
        response.push(entry('j', "Format JSON", None));
        assert(spec_response_entry(response@[9], 9));
        let mut panel_entries: Vec<(Panel, Vec<LeaderEntry>)> = Vec::new();
        panel_entries.push((Panel::Collections, collections));
        panel_entries.push((Panel::Request, request));
        panel_entries.push((Panel::Body, body));
        panel_entries.push((Panel::Response, response));
        let r = LeaderMenu { global_entries, panel_entries };
        assert(r.panel_entries@[0].0 == spec_panel_at(0));
        assert(r.panel_entries@[1].0 == spec_panel_at(1));
        assert(r.panel_entries@[2].0 == spec_panel_at(2));
        assert(r.panel_entries@[3].0 == spec_panel_at(3));
        r
    }

    /// The entries shown for `panel` when `panel_entries` has them: the
    /// global entries followed by the first entry list kept for `panel`.
    pub open spec fn spec_panel_list(&self, panel: Panel) -> Seq<LeaderEntry> {
        let idx = choose|j: int| 0 <= j < self.panel_entries@.len() && self.panel_entries@[j].0 == panel
            && forall|k: int| 0 <= k < j ==> self.panel_entries@[k].0 != panel;
        if exists|j: int| 0 <= j < self.panel_entries@.len() && self.panel_entries@[j].0 == panel {
            self.panel_entries@[idx].1@
        } else {
            Seq::empty()
        }
    }

    /// Get all entries for current panel (global + panel-specific)
    pub fn get_entries_for_panel(&self, panel: Panel) -> (r: Vec<LeaderEntry>)
        ensures
            entries_eqv(r@, self.global_entries@ + self.spec_panel_list(panel)),
    {
        let mut entries = copy_entries(&self.global_entries);
        let mut j: usize = 0;
        while j < self.panel_entries.len()
            invariant
                j <= self.panel_entries@.len(),
                forall|k: int| 0 <= k < j ==> (#[trigger] self.panel_entries@[k]).0 != panel,
                entries_eqv(entries@, self.global_entries@),
            decreases self.panel_entries@.len() - j,
        {
            if self.panel_entries[j].0 == panel {
                let extra = copy_entries(&self.panel_entries[j].1);
                let ghost before = entries@;
                let mut m: usize = 0;
                let mut extra_v = extra;
                let mut rest: Vec<LeaderEntry> = Vec::new();
                proof {
                    let jj = j as int;
                    assert(0 <= jj < self.panel_entries@.len() && self.panel_entries@[jj].0 == panel
                        && forall|k: int| 0 <= k < jj ==> self.panel_entries@[k].0 != panel);
                    let idx = choose|q: int| 0 <= q < self.panel_entries@.len() && self.panel_entries@[q].0 == panel
                        && forall|k: int| 0 <= k < q ==> self.panel_entries@[k].0 != panel;
                    if idx < jj {
                        assert(self.panel_entries@[idx].0 != panel);
                    }
                    if idx > jj {
                        assert(self.panel_entries@[jj].0 != panel);
                    }
                    assert(idx == jj);
                }
                entries.append(&mut extra_v);
                proof {
                    assert(entries_eqv(entries@, self.global_entries@ + self.spec_panel_list(panel)));
                }
                return entries;
            }
            j = j + 1;
        }
        proof {
            assert(!exists|q: int| 0 <= q < self.panel_entries@.len() && self.panel_entries@[q].0 == panel);
            assert(self.global_entries@ + self.spec_panel_list(panel) =~= self.global_entries@);
        }
        entries
    }

    /// Find entry by key: a copy of the first entry for `panel` (global
    /// entries first) whose key is `key`.
    pub fn find_entry(&self, panel: Panel, key: char) -> (r: Option<LeaderEntry>)
        ensures
            ({
                let es = self.global_entries@ + self.spec_panel_list(panel);
                match r {
                    Some(e) => exists|i: int| #[trigger] spec_first_with_key(es, key, i) && entry_eqv(e, es[i]),
                    None => forall|k: int| 0 <= k < es.len() ==> (#[trigger] es[k]).key != key,
                }
            }),
    {
        let mut entries = self.get_entries_for_panel(panel);
        let ghost es = self.global_entries@ + self.spec_panel_list(panel);
        let mut i: usize = 0;
        while i < entries.len()
            invariant
                i <= entries@.len(),
                es == self.global_entries@ + self.spec_panel_list(panel),
                entries_eqv(entries@, es),
                forall|k: int| 0 <= k < i ==> (#[trigger] es[k]).key != key,
            decreases entries@.len() - i,
        {
            if entries[i].key == key {
                let ghost found = entries@[i as int];
                let e = entries.remove(i);
                assert(e == found);
                assert(spec_first_with_key(es, key, i as int) && entry_eqv(e, es[i as int]));
                return Some(e);
            }
            i = i + 1;
        }
        None
    }
}

impl LeaderMenu {
    /// The menu built from a keybindings configuration: the configuration is
    /// not consulted yet, so this is the fixed menu of [`LeaderMenu::new`].
    pub fn from_keybindings_config<K>(_kb_config: &K) -> (r: Self)
        ensures
            r.spec_well_formed(),
            r.global_entries@.len() == 11,
            forall|i: int| 0 <= i < 11 ==> spec_global_entry(#[trigger] r.global_entries@[i], i),
            forall|j: int| 0 <= j < 4 ==> {
                let (p, es) = #[trigger] r.panel_entries@[j];
                &&& es@.len() == spec_panel_entry_count(p)
                &&& forall|i: int| 0 <= i < es@.len() ==> spec_panel_entry(p, #[trigger] es@[i], i)
            },
    {
        Self::new()
    }
}

impl Default for LeaderMenu {
    fn default() -> (r: Self)
        ensures
            r.spec_well_formed(),
    {
        Self::new()
    }
}

} // verus!
