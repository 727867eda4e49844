use vstd::prelude::*;
use crate::action::Overlay;
use crate::strutil::{push_char, pop_char, chars_of, concat, decimal_string, spec_decimal};
use crate::cache::ResponseCache;

verus! {

/// `n - 1`, or 0 when `n` is 0 (`usize::saturating_sub(1)`).
pub open spec fn spec_last_index(n: int) -> int {
    if n > 0 { n - 1 } else { 0 }
}

/// One step down a list of `len` items, stopping at the last.
pub open spec fn spec_step_down(selected: int, len: int) -> int {
    if selected + 1 < spec_last_index(len) { selected + 1 } else { spec_last_index(len) }
}

/// The index an overlay's own list points at, if it has one.
pub open spec fn spec_selected_index(o: Overlay) -> Option<usize> {
    match o {
        Overlay::ThemeSelector { selected } => Some(selected),
        Overlay::EnvironmentEditor { selected, .. } => Some(selected),
        Overlay::HeaderAutocomplete { selected, .. } => Some(selected),
        Overlay::MoveRequest { selected } => Some(selected),
        Overlay::History { selected } => Some(selected),
        Overlay::ResponseHistory { selected } => Some(selected),
        Overlay::ResponseDiffSelect { selected } => Some(selected),
        _ => None,
    }
}

/// The lengths of the lists the overlays choose from, as the rest of the
/// application knows them.
#[derive(Clone, Copy, Debug)]
pub struct OverlayLists {
    /// Environments to choose from.
    pub environments: usize,
    /// Collections a request can be moved to.
    pub collections: usize,
    /// Themes.
    pub themes: usize,
    /// Entries of the request history.
    pub history: usize,
    /// Stored responses of the current request.
    pub response_history: usize,
    /// Variables of the active environment, if one is active.
    pub active_env_vars: Option<usize>,
}

/// The open overlay and the selection state kept beside it.
#[derive(Debug)]
pub struct OverlayState {
    pub overlay: Option<Overlay>,
    /// Selected row of the environment selector.
    pub env_selected: Option<usize>,
    /// Scroll position of the help overlay.
    pub help_scroll: usize,
}

fn step_down(selected: usize, len: usize) -> (r: usize)
    requires
        selected < usize::MAX,
    ensures
        r == spec_step_down(selected as int, len as int),
{
    let last = if len > 0 { len - 1 } else { 0 };
    if selected + 1 < last { selected + 1 } else { last }
}

fn step_up(selected: usize) -> (r: usize)
    ensures
        r == spec_last_index(selected as int),
{
    if selected > 0 { selected - 1 } else { 0 }
}

/// The overlay after moving its selection up one row.
pub open spec fn spec_overlay_up(o: Overlay) -> Overlay {
    match o {
        Overlay::ThemeSelector { selected } => Overlay::ThemeSelector { selected: spec_last_index(selected as int) as usize },
        Overlay::HeaderAutocomplete { suggestions, selected } =>
            Overlay::HeaderAutocomplete { suggestions, selected: spec_last_index(selected as int) as usize },
        Overlay::MoveRequest { selected } => Overlay::MoveRequest { selected: spec_last_index(selected as int) as usize },
        Overlay::History { selected } => Overlay::History { selected: spec_last_index(selected as int) as usize },
        Overlay::ResponseHistory { selected } => Overlay::ResponseHistory { selected: spec_last_index(selected as int) as usize },
        Overlay::ResponseDiffSelect { selected } =>
            Overlay::ResponseDiffSelect { selected: spec_last_index(selected as int) as usize },
        Overlay::EnvironmentEditor { selected, editing_key, new_key, new_value, cursor } =>
            if cursor == 0 {
                Overlay::EnvironmentEditor {
                    selected: spec_last_index(selected as int) as usize,
                    editing_key,
                    new_key,
                    new_value,
                    cursor,
                }
            } else {
                Overlay::EnvironmentEditor { selected, editing_key, new_key, new_value, cursor }
            },
        other => other,
    }
}

/// The overlay after moving its selection down one row.
pub open spec fn spec_overlay_down(o: Overlay, lists: OverlayLists) -> Overlay {
    match o {
        Overlay::ThemeSelector { selected } =>
            Overlay::ThemeSelector { selected: spec_step_down(selected as int, lists.themes as int) as usize },
        Overlay::HeaderAutocomplete { suggestions, selected } => Overlay::HeaderAutocomplete {
            suggestions,
            selected: spec_step_down(selected as int, suggestions@.len() as int) as usize,
        },
        Overlay::MoveRequest { selected } =>
            Overlay::MoveRequest { selected: spec_step_down(selected as int, lists.collections as int) as usize },
        Overlay::History { selected } =>
            Overlay::History { selected: spec_step_down(selected as int, lists.history as int) as usize },
        Overlay::ResponseHistory { selected } => Overlay::ResponseHistory {
            selected: spec_step_down(selected as int, lists.response_history as int) as usize,
        },
        Overlay::ResponseDiffSelect { selected } => Overlay::ResponseDiffSelect {
            selected: spec_step_down(selected as int, lists.response_history as int) as usize,
        },
        Overlay::EnvironmentEditor { selected, editing_key, new_key, new_value, cursor } =>
            if cursor == 0 && lists.active_env_vars.is_some() {
                Overlay::EnvironmentEditor {
                    selected: spec_step_down(selected as int, lists.active_env_vars.unwrap() as int) as usize,
                    editing_key,
                    new_key,
                    new_value,
                    cursor,
                }
            } else {
                Overlay::EnvironmentEditor { selected, editing_key, new_key, new_value, cursor }
            },
        other => other,
    }
}

fn overlay_up(o: Overlay) -> (r: Overlay)
    ensures
        r == spec_overlay_up(o),
{
    match o {
        Overlay::ThemeSelector { selected } => Overlay::ThemeSelector { selected: step_up(selected) },
        Overlay::HeaderAutocomplete { suggestions, selected } =>
            Overlay::HeaderAutocomplete { suggestions, selected: step_up(selected) },
        Overlay::MoveRequest { selected } => Overlay::MoveRequest { selected: step_up(selected) },
        Overlay::History { selected } => Overlay::History { selected: step_up(selected) },
        Overlay::ResponseHistory { selected } => Overlay::ResponseHistory { selected: step_up(selected) },
        Overlay::ResponseDiffSelect { selected } => Overlay::ResponseDiffSelect { selected: step_up(selected) },
        Overlay::EnvironmentEditor { selected, editing_key, new_key, new_value, cursor } => {
            let s = if cursor == 0 { step_up(selected) } else { selected };
            Overlay::EnvironmentEditor { selected: s, editing_key, new_key, new_value, cursor }
        },
        other => other,
    }
}

fn overlay_down(o: Overlay, lists: OverlayLists) -> (r: Overlay)
    requires
        spec_selected_index(o).is_some() ==> spec_selected_index(o).unwrap() < usize::MAX,
    ensures
        r == spec_overlay_down(o, lists),
{
    match o {
        Overlay::ThemeSelector { selected } => Overlay::ThemeSelector { selected: step_down(selected, lists.themes) },
        Overlay::HeaderAutocomplete { suggestions, selected } => {
            let n = suggestions.len();
            Overlay::HeaderAutocomplete { suggestions, selected: step_down(selected, n) }
        },
        Overlay::MoveRequest { selected } => Overlay::MoveRequest { selected: step_down(selected, lists.collections) },
        Overlay::History { selected } => Overlay::History { selected: step_down(selected, lists.history) },
        Overlay::ResponseHistory { selected } =>
            Overlay::ResponseHistory { selected: step_down(selected, lists.response_history) },
        Overlay::ResponseDiffSelect { selected } =>
            Overlay::ResponseDiffSelect { selected: step_down(selected, lists.response_history) },
        Overlay::EnvironmentEditor { selected, editing_key, new_key, new_value, cursor } => {
            let s = match lists.active_env_vars {
                Some(n) => if cursor == 0 { step_down(selected, n) } else { selected },
                None => selected,
            };
            Overlay::EnvironmentEditor { selected: s, editing_key, new_key, new_value, cursor }
        },
        other => other,
    }
}

impl OverlayState {
    /// No overlay open.
    pub fn new() -> (r: Self)
        ensures
            r.overlay.is_none(),
            r.env_selected.is_none(),
            r.help_scroll == 0,
    {
        OverlayState { overlay: None, env_selected: None, help_scroll: 0 }
    }

    /// Open `overlay`. The environment selector starts on the active
    /// environment (or the first); help starts at the top.
    pub fn open(&mut self, overlay: Overlay, active_env: Option<usize>)
        ensures
            final(self).overlay == Some(overlay),
            final(self).env_selected == (if overlay is EnvironmentSelector {
                Some(if active_env.is_some() { active_env.unwrap() } else { 0 })
            } else {
                old(self).env_selected
            }),
            final(self).help_scroll == (if overlay is Help { 0 } else { old(self).help_scroll }),
    {
        match &overlay {
            Overlay::EnvironmentSelector => {
                self.env_selected = Some(match active_env {
                    Some(i) => i,
                    None => 0,
                });
            },
            Overlay::Help => {
                self.help_scroll = 0;
            },
            _ => {},
        }
        self.overlay = Some(overlay);
    }

    /// Move the selection of the open overlay up one row.
    pub fn up(&mut self)
        ensures
            final(self).overlay == (match old(self).overlay {
                Some(o) => Some(spec_overlay_up(o)),
                None => None,
            }),
            final(self).env_selected == (if old(self).overlay == Some(Overlay::EnvironmentSelector) {
                Some(spec_last_index(if old(self).env_selected.is_some() { old(self).env_selected.unwrap() as int } else { 0 }) as usize)
            } else {
                old(self).env_selected
            }),
            final(self).help_scroll == (if old(self).overlay == Some(Overlay::Help) {
                spec_last_index(old(self).help_scroll as int) as usize
            } else {
                old(self).help_scroll
            }),
    {
        let ov = self.overlay.take();
        match &ov {
            Some(Overlay::EnvironmentSelector) => {
                let cur = match self.env_selected {
                    Some(i) => i,
                    None => 0,
                };
                self.env_selected = Some(step_up(cur));
            },
            Some(Overlay::Help) => {
                self.help_scroll = step_up(self.help_scroll);
            },
            _ => {},
        }
        self.overlay = match ov {
            Some(o) => Some(overlay_up(o)),
            None => None,
        };
    }

    /// Move the selection of the open overlay down one row, stopping at the
    /// last row of its list; help scrolls without limit.
    pub fn down(&mut self, lists: OverlayLists)
        requires
            old(self).overlay.is_some() ==> {
                let o = old(self).overlay.unwrap();
                spec_selected_index(o).is_some() ==> spec_selected_index(o).unwrap() < usize::MAX
            },
            old(self).overlay == Some(Overlay::EnvironmentSelector) ==> old(self).env_selected != Some(usize::MAX),
            old(self).overlay == Some(Overlay::Help) ==> old(self).help_scroll < usize::MAX,
        ensures
            final(self).overlay == (match old(self).overlay {
                Some(o) => Some(spec_overlay_down(o, lists)),
                None => None,
            }),
            final(self).env_selected == (if old(self).overlay == Some(Overlay::EnvironmentSelector) {
                Some(if old(self).env_selected.is_some() {
                    spec_step_down(old(self).env_selected.unwrap() as int, lists.environments as int) as usize
                } else {
                    0usize
                })
            } else {
                old(self).env_selected
            }),
            final(self).help_scroll == (if old(self).overlay == Some(Overlay::Help) {
                (old(self).help_scroll + 1) as usize
            } else {
                old(self).help_scroll
            }),
    {
        let ov = self.overlay.take();
        match &ov {
            Some(Overlay::EnvironmentSelector) => {
                self.env_selected = Some(match self.env_selected {
                    Some(i) => step_down(i, lists.environments),
                    None => 0,
                });
            },
            Some(Overlay::Help) => {
                self.help_scroll = self.help_scroll + 1;
            },
            _ => {},
        }
        self.overlay = match ov {
            Some(o) => Some(overlay_down(o, lists)),
            None => None,
        };
    }
}

/// What typing `c` does to an overlay's text: collection and request names
/// take any character, the TTL input digits only; the environment editor
/// starts a new variable on `a` when idle, else types into the key or the
/// value being edited.
pub open spec fn spec_after_input(o: Overlay, n: Overlay, c: char) -> bool {
    match o {
        Overlay::NewCollection { name } => n matches Overlay::NewCollection { name: m } && m@ == name@.push(c),
        Overlay::RenameRequest { name } => n matches Overlay::RenameRequest { name: m } && m@ == name@.push(c),
        Overlay::SetCacheTTL { input } => n matches Overlay::SetCacheTTL { input: m }
            && m@ == (if '0' <= c <= '9' { input@.push(c) } else { input@ }),
        Overlay::EnvironmentEditor { selected, editing_key, new_key, new_value, cursor } =>
            n matches Overlay::EnvironmentEditor { selected: s2, editing_key: e2, new_key: k2, new_value: v2, cursor: c2 }
            && s2 == selected
            && if cursor == 0 && !editing_key && c == 'a' {
                e2 && k2@.len() == 0 && v2@.len() == 0 && c2 == 1
            } else if editing_key {
                e2 && k2@ == new_key@.push(c) && v2@ == new_value@ && c2 == cursor
            } else if cursor > 0 {
                !e2 && k2@ == new_key@ && v2@ == new_value@.push(c) && c2 == cursor
            } else {
                !e2 && k2@ == new_key@ && v2@ == new_value@ && c2 == cursor
            },
        other => n == other,
    }
}

/// What backspace does to an overlay's text: the last character of the
/// name, TTL input, or the key or value being edited goes.
pub open spec fn spec_after_backspace(o: Overlay, n: Overlay) -> bool {
    match o {
        Overlay::NewCollection { name } => n matches Overlay::NewCollection { name: m } && m@ == spec_pop(name@),
        Overlay::RenameRequest { name } => n matches Overlay::RenameRequest { name: m } && m@ == spec_pop(name@),
        Overlay::SetCacheTTL { input } => n matches Overlay::SetCacheTTL { input: m } && m@ == spec_pop(input@),
        Overlay::EnvironmentEditor { selected, editing_key, new_key, new_value, cursor } =>
            n matches Overlay::EnvironmentEditor { selected: s2, editing_key: e2, new_key: k2, new_value: v2, cursor: c2 }
            && s2 == selected && e2 == editing_key && c2 == cursor
            && if editing_key {
                k2@ == spec_pop(new_key@) && v2@ == new_value@
            } else if cursor > 0 {
                k2@ == new_key@ && v2@ == spec_pop(new_value@)
            } else {
                k2@ == new_key@ && v2@ == new_value@
            },
        other => n == other,
    }
}

/// `s` without its last character (unchanged when empty).
pub open spec fn spec_pop(s: Seq<char>) -> Seq<char> {
    if s.len() > 0 { s.drop_last() } else { s }
}

fn overlay_input(o: Overlay, c: char) -> (r: Overlay)
    ensures
        spec_after_input(o, r, c),
{
    match o {
        Overlay::NewCollection { name } => {
            let mut name = name;
            push_char(&mut name, c);
            Overlay::NewCollection { name }
        },
        Overlay::RenameRequest { name } => {
            let mut name = name;
            push_char(&mut name, c);
            Overlay::RenameRequest { name }
        },
        Overlay::SetCacheTTL { input } => {
            let mut input = input;
            if '0' <= c && c <= '9' {
                push_char(&mut input, c);
            }
            Overlay::SetCacheTTL { input }
        },
        Overlay::EnvironmentEditor { selected, editing_key, new_key, new_value, cursor } => {
            if cursor == 0 && !editing_key && c == 'a' {
                Overlay::EnvironmentEditor {
                    selected,
                    editing_key: true,
                    new_key: String::new(),
                    new_value: String::new(),
                    cursor: 1,
                }
            } else if editing_key {
                let mut k = new_key;
                push_char(&mut k, c);
                Overlay::EnvironmentEditor { selected, editing_key, new_key: k, new_value, cursor }
            } else if cursor > 0 {
                let mut v = new_value;
                push_char(&mut v, c);
                Overlay::EnvironmentEditor { selected, editing_key, new_key, new_value: v, cursor }
            } else {
                Overlay::EnvironmentEditor { selected, editing_key, new_key, new_value, cursor }
            }
        },
        other => other,
    }
}

fn overlay_backspace(o: Overlay) -> (r: Overlay)
    ensures
        spec_after_backspace(o, r),
{
    match o {
        Overlay::NewCollection { name } => {
            let mut name = name;
            let _ = pop_char(&mut name);
            Overlay::NewCollection { name }
        },
        Overlay::RenameRequest { name } => {
            let mut name = name;
            let _ = pop_char(&mut name);
            Overlay::RenameRequest { name }
        },
        Overlay::SetCacheTTL { input } => {
            let mut input = input;
            let _ = pop_char(&mut input);
            Overlay::SetCacheTTL { input }
        },
        Overlay::EnvironmentEditor { selected, editing_key, new_key, new_value, cursor } => {
            if editing_key {
                let mut k = new_key;
                let _ = pop_char(&mut k);
                Overlay::EnvironmentEditor { selected, editing_key, new_key: k, new_value, cursor }
            } else if cursor > 0 {
                let mut v = new_value;
                let _ = pop_char(&mut v);
                Overlay::EnvironmentEditor { selected, editing_key, new_key, new_value: v, cursor }
            } else {
                Overlay::EnvironmentEditor { selected, editing_key, new_key, new_value, cursor }
            }
        },
        other => other,
    }
}

impl OverlayState {
    /// Type `c` into the open overlay (see [`spec_after_input`]).
    pub fn input(&mut self, c: char)
        ensures
            final(self).env_selected == old(self).env_selected,
            final(self).help_scroll == old(self).help_scroll,
            old(self).overlay.is_none() ==> final(self).overlay.is_none(),
            old(self).overlay.is_some() ==> final(self).overlay.is_some()
                && spec_after_input(old(self).overlay.unwrap(), final(self).overlay.unwrap(), c),
    {
        let ov = self.overlay.take();
        self.overlay = match ov {
            Some(o) => Some(overlay_input(o, c)),
            None => None,
        };
    }

    /// Delete the last character typed into the open overlay (see
    /// [`spec_after_backspace`]).
    pub fn backspace(&mut self)
        ensures
            final(self).env_selected == old(self).env_selected,
            final(self).help_scroll == old(self).help_scroll,
            old(self).overlay.is_none() ==> final(self).overlay.is_none(),
            old(self).overlay.is_some() ==> final(self).overlay.is_some()
                && spec_after_backspace(old(self).overlay.unwrap(), final(self).overlay.unwrap()),
    {
        let ov = self.overlay.take();
        self.overlay = match ov {
            Some(o) => Some(overlay_backspace(o)),
            None => None,
        };
    }

    /// Close the overlay; an environment editor that is adding or editing a
    /// variable only drops that edit and stays open.
    pub fn close(&mut self)
        ensures
            final(self).env_selected == old(self).env_selected,
            final(self).help_scroll == old(self).help_scroll,
            match old(self).overlay {
                Some(Overlay::EnvironmentEditor { selected, editing_key, cursor, .. }) =>
                    if cursor > 0 || editing_key {
                        final(self).overlay matches Some(Overlay::EnvironmentEditor { selected: s2, editing_key: e2, new_key, new_value, cursor: c2 })
                            && s2 == selected && !e2 && new_key@.len() == 0 && new_value@.len() == 0 && c2 == 0
                    } else {
                        final(self).overlay.is_none()
                    },
                _ => final(self).overlay.is_none(),
            },
    {
        let ov = self.overlay.take();
        match ov {
            Some(Overlay::EnvironmentEditor { selected, editing_key, new_key, new_value, cursor }) => {
                if cursor > 0 || editing_key {
                    self.overlay = Some(Overlay::EnvironmentEditor {
                        selected,
                        editing_key: false,
                        new_key: String::new(),
                        new_value: String::new(),
                        cursor: 0,
                    });
                }
            },
            _ => {},
        }
    }
}

/// The decimal value of a string of ASCII digits.
pub open spec fn spec_decimal_value(s: Seq<char>) -> int
    decreases s.len(),
{
    if s.len() == 0 {
        0
    } else {
        spec_decimal_value(s.drop_last()) * 10 + (s.last() as int - '0' as int)
    }
}

/// Every character is an ASCII digit.
pub open spec fn spec_all_digits(s: Seq<char>) -> bool {
    forall|i: int| 0 <= i < s.len() ==> '0' <= #[trigger] s[i] <= '9'
}

/// The digits `u64::from_str` reads: after one optional leading `+`.
pub open spec fn spec_u64_digits(s: Seq<char>) -> Seq<char> {
    if s.len() > 0 && s[0] == '+' {
        s.subrange(1, s.len() as int)
    } else {
        s
    }
}

/// `u64::from_str` accepts `s`: digits after an optional `+`, at least one,
/// with a value that fits.
pub open spec fn spec_parses_u64(s: Seq<char>) -> bool {
    let d = spec_u64_digits(s);
    d.len() > 0 && spec_all_digits(d) && spec_decimal_value(d) <= u64::MAX
}

/// What the cache time-to-live dialog makes of its input.
#[derive(Debug, PartialEq, Eq, Structural, Clone, Copy)]
pub enum TtlInput {
    /// A number of seconds above zero.
    Seconds(u64),
    /// Zero, which is refused.
    Zero,
    /// Not a number.
    Invalid,
}

pub proof fn lemma_decimal_prefix_monotone(d: Seq<char>, i: int, j: int)
    requires
        0 <= i <= j <= d.len(),
        spec_all_digits(d),
    ensures
        spec_decimal_value(d.subrange(0, i)) <= spec_decimal_value(d.subrange(0, j)),
    decreases j - i,
{
    if i < j {
        lemma_decimal_prefix_monotone(d, i, j - 1);
        assert(d.subrange(0, j).drop_last() =~= d.subrange(0, j - 1));
        assert(d.subrange(0, j).last() == d[j - 1]);
        assert(spec_decimal_value(d.subrange(0, j - 1)) >= 0) by {
            lemma_decimal_nonneg(d.subrange(0, j - 1));
        }
    }
}

pub proof fn lemma_decimal_nonneg(d: Seq<char>)
    requires
        spec_all_digits(d),
    ensures
        spec_decimal_value(d) >= 0,
    decreases d.len(),
{
    if d.len() > 0 {
        assert(spec_all_digits(d.drop_last()));
        lemma_decimal_nonneg(d.drop_last());
        assert('0' <= d[d.len() - 1] <= '9');
    }
}

/// The cache time-to-live dialog's reading of `input`.
pub open spec fn spec_ttl_input(input: Seq<char>) -> TtlInput {
    if !spec_parses_u64(input) {
        TtlInput::Invalid
    } else if spec_decimal_value(spec_u64_digits(input)) == 0 {
        TtlInput::Zero
    } else {
        TtlInput::Seconds(spec_decimal_value(spec_u64_digits(input)) as u64)
    }
}

/// Read the cache time-to-live as `u64::from_str` does: a positive
/// number is set, zero is refused, anything else is not a number.
pub fn parse_ttl(input: &str) -> (r: TtlInput)
    ensures
        r == spec_ttl_input(input@),
{
    let cs = chars_of(input);
    let start: usize = if cs.len() > 0 && cs[0] == '+' { 1 } else { 0 };
    let ghost d = spec_u64_digits(input@);
    proof {
        assert(d =~= cs@.subrange(start as int, cs@.len() as int));
    }
    if start == cs.len() {
        return TtlInput::Invalid;
    }
    let mut value: u64 = 0;
    let mut i: usize = start;
    while i < cs.len()
        invariant
            start <= i <= cs@.len(),
            cs@ == input@,
            d == spec_u64_digits(input@),
            d == cs@.subrange(start as int, cs@.len() as int),
            forall|k: int| 0 <= k < i - start ==> '0' <= #[trigger] d[k] <= '9',
            value as int == spec_decimal_value(d.subrange(0, i - start)),
        decreases cs@.len() - i,
    {
        let c = cs[i];
        if c < '0' || c > '9' {
            proof {
                assert(d[i - start] == c);
                assert(!('0' <= d[i - start] <= '9'));
                assert(!spec_all_digits(d));
            }
            return TtlInput::Invalid;
        }
        let digit: u64 = (c as u32 - '0' as u32) as u64;
        proof {
            assert(d.subrange(0, i + 1 - start).drop_last() =~= d.subrange(0, i - start));
            assert(d.subrange(0, i + 1 - start).last() == c);
        }
        let next = match value.checked_mul(10) {
            Some(v) => v.checked_add(digit),
            None => None,
        };
        match next {
            Some(v) => {
                value = v;
            },
            None => {
                proof {
                    assert(spec_decimal_value(d.subrange(0, i + 1 - start)) == value * 10 + digit);
                    assert(spec_decimal_value(d.subrange(0, i + 1 - start)) > u64::MAX);
                    if spec_all_digits(d) {
                        lemma_decimal_prefix_monotone(d, i + 1 - start, d.len() as int);
                        assert(d.subrange(0, d.len() as int) =~= d);
                    }
                }
                return TtlInput::Invalid;
            },
        }
        i = i + 1;
    }
    proof {
        assert(d.subrange(0, d.len() as int) =~= d);
        assert(spec_all_digits(d));
    }
    if value == 0 {
        TtlInput::Zero
    } else {
        TtlInput::Seconds(value)
    }
}

/// What confirming the environment editor did.
#[derive(Debug)]
pub enum EnvEdit {
    /// The key of a new variable was entered; its value comes next.
    KeyEntered,
    /// Editing the selected variable's value began.
    EditStarted,
    /// A variable was added (or, when the key existed, its value replaced).
    Added { key: String, value: String },
    /// The selected variable's value was replaced.
    Updated { key: String },
    /// Nothing changed.
    Unchanged,
}

/// The position of the first variable named `key`, or -1.
pub open spec fn spec_var_index(vars: Seq<(String, String)>, key: Seq<char>) -> int
    decreases vars.len(),
{
    if vars.len() == 0 {
        -1
    } else if spec_var_index(vars.drop_last(), key) >= 0 {
        spec_var_index(vars.drop_last(), key)
    } else if vars.last().0@ == key {
        vars.len() - 1
    } else {
        -1
    }
}

/// The variables as views.
pub open spec fn spec_vars(vars: Seq<(String, String)>) -> Seq<(Seq<char>, Seq<char>)> {
    Seq::new(vars.len(), |i: int| (vars[i].0@, vars[i].1@))
}

/// Setting `key` to `value` in an insertion-ordered map: a key that is
/// there keeps its place and takes the new value, a new one goes last.
pub open spec fn spec_insert_var(vars: Seq<(String, String)>, key: Seq<char>, value: Seq<char>) -> Seq<(Seq<char>, Seq<char>)> {
    let j = spec_var_index(vars, key);
    if j >= 0 {
        spec_vars(vars).update(j, (key, value))
    } else {
        spec_vars(vars).push((key, value))
    }
}

pub proof fn lemma_var_index_bounds(vars: Seq<(String, String)>, key: Seq<char>)
    ensures
        -1 <= spec_var_index(vars, key) < vars.len(),
        spec_var_index(vars, key) >= 0 ==> vars[spec_var_index(vars, key)].0@ == key,
        spec_var_index(vars, key) >= 0 ==> forall|k: int| 0 <= k < spec_var_index(vars, key) ==> (#[trigger] vars[k]).0@ != key,
        spec_var_index(vars, key) < 0 ==> forall|k: int| 0 <= k < vars.len() ==> (#[trigger] vars[k]).0@ != key,
    decreases vars.len(),
{
    if vars.len() > 0 {
        lemma_var_index_bounds(vars.drop_last(), key);
        assert forall|k: int| 0 <= k < vars.len() - 1 implies vars.drop_last()[k] == #[trigger] vars[k] by {}
    }
}

fn find_var(vars: &Vec<(String, String)>, key: &String) -> (r: Option<usize>)
    ensures
        match r {
            Some(j) => spec_var_index(vars@, key@) == j as int,
            None => spec_var_index(vars@, key@) == -1,
        },
{
    proof {
        lemma_var_index_bounds(vars@, key@);
    }
    let mut i: usize = 0;
    while i < vars.len()
        invariant
            i <= vars@.len(),
            forall|k: int| 0 <= k < i ==> (#[trigger] vars@[k]).0@ != key@,
            -1 <= spec_var_index(vars@, key@) < vars@.len(),
            spec_var_index(vars@, key@) >= 0 ==> vars@[spec_var_index(vars@, key@)].0@ == key@,
            spec_var_index(vars@, key@) >= 0 ==> forall|k: int| 0 <= k < spec_var_index(vars@, key@) ==> (#[trigger] vars@[k]).0@ != key@,
            spec_var_index(vars@, key@) < 0 ==> forall|k: int| 0 <= k < vars@.len() ==> (#[trigger] vars@[k]).0@ != key@,
        decreases vars@.len() - i,
    {
        if vars[i].0 == *key {
            return Some(i);
        }
        i = i + 1;
    }
    None
}

impl OverlayState {
    /// Confirm in the environment editor, on the active environment's
    /// variables `vars` (`has_active` says whether one is active): after a
    /// new key, go on to its value; after a new value, add the variable;
    /// after editing a value, store it in the selected variable; when idle,
    /// start editing the selected variable's value. The editor closes
    /// unless it goes on to a value.
    pub fn confirm_env_editor(&mut self, vars: &mut Vec<(String, String)>, has_active: bool) -> (r: EnvEdit)
        requires
            old(self).overlay matches Some(Overlay::EnvironmentEditor { .. }),
            forall|i: int| 0 <= i < old(vars)@.len() ==> vstd::utf8::encode_utf8((#[trigger] old(vars)@[i]).1@).len() < usize::MAX,
        ensures
            final(self).env_selected == old(self).env_selected,
            final(self).help_scroll == old(self).help_scroll,
            match old(self).overlay {
                Some(Overlay::EnvironmentEditor { selected, editing_key, new_key, new_value, cursor }) =>
                    if !has_active {
                        r is Unchanged && final(self).overlay.is_none() && final(vars)@ == old(vars)@
                    } else if editing_key {
                        final(vars)@ == old(vars)@ && if new_key@.len() > 0 {
                            r is KeyEntered && (final(self).overlay matches Some(Overlay::EnvironmentEditor { selected: s2, editing_key: e2, new_key: k2, new_value: v2, cursor: c2 })
                                && s2 == selected && !e2 && k2@ == new_key@ && v2@.len() == 0 && c2 == 1)
                        } else {
                            r is Unchanged && final(self).overlay.is_none()
                        }
                    } else if cursor > 0 && new_key@.len() > 0 {
                        final(self).overlay.is_none()
                            && spec_vars(final(vars)@) == spec_insert_var(old(vars)@, new_key@, new_value@)
                            && (r matches EnvEdit::Added { key, value } && key@ == new_key@ && value@ == new_value@)
                    } else if cursor > 0 {
                        final(self).overlay.is_none() && if selected < old(vars)@.len() {
                            spec_vars(final(vars)@) == spec_vars(old(vars)@).update(selected as int, (old(vars)@[selected as int].0@, new_value@))
                                && (r matches EnvEdit::Updated { key } && key@ == old(vars)@[selected as int].0@)
                        } else {
                            final(vars)@ == old(vars)@ && r is Unchanged
                        }
                    } else {
                        final(vars)@ == old(vars)@ && if selected < old(vars)@.len() {
                            r is EditStarted && (final(self).overlay matches Some(Overlay::EnvironmentEditor { selected: s2, editing_key: e2, new_key: k2, new_value: v2, cursor: c2 })
                                && s2 == selected && !e2 && k2@.len() == 0 && v2@ == old(vars)@[selected as int].1@
                                && c2 == vstd::utf8::encode_utf8(old(vars)@[selected as int].1@).len() + 1)
                        } else {
                            r is Unchanged && final(self).overlay.is_none()
                        }
                    },
                _ => false,
            },
    {
        let ov = self.overlay.take();
        match ov {
            Some(Overlay::EnvironmentEditor { selected, editing_key, new_key, new_value, cursor }) => {
                if !has_active {
                    return EnvEdit::Unchanged;
                }
                if editing_key {
                    if !new_key.as_str().is_empty() {
                        self.overlay = Some(Overlay::EnvironmentEditor {
                            selected,
                            editing_key: false,
                            new_key,
                            new_value: String::new(),
                            cursor: 1,
                        });
                        return EnvEdit::KeyEntered;
                    }
                    return EnvEdit::Unchanged;
                }
                if cursor > 0 && !new_key.as_str().is_empty() {
                    let ghost before = vars@;
                    proof {
                        lemma_var_index_bounds(vars@, new_key@);
                    }
                    match find_var(vars, &new_key) {
                        Some(j) => {
                            let k = vars[j].0.clone();
                            vars.set(j, (k, new_value.clone()));
                            proof {
                                assert(spec_vars(vars@) =~= spec_insert_var(before, new_key@, new_value@));
                            }
                        },
                        None => {
                            vars.push((new_key.clone(), new_value.clone()));
                            proof {
                                assert(spec_vars(vars@) =~= spec_insert_var(before, new_key@, new_value@));
                            }
                        },
                    }
                    return EnvEdit::Added { key: new_key, value: new_value };
                }
                if cursor > 0 {
                    if selected < vars.len() {
                        let ghost before = vars@;
                        let k = vars[selected].0.clone();
                        let k2 = k.clone();
                        vars.set(selected, (k, new_value));
                        proof {
                            assert(spec_vars(vars@) =~= spec_vars(before).update(selected as int, (before[selected as int].0@, new_value@)));
                        }
                        return EnvEdit::Updated { key: k2 };
                    }
                    return EnvEdit::Unchanged;
                }
                if selected < vars.len() {
                    let val = vars[selected].1.clone();
                    let n = val.as_str().len();
                    self.overlay = Some(Overlay::EnvironmentEditor {
                        selected,
                        editing_key: false,
                        new_key: String::new(),
                        new_value: val,
                        cursor: n + 1,
                    });
                    return EnvEdit::EditStarted;
                }
                EnvEdit::Unchanged
            },
            _ => EnvEdit::Unchanged,
        }
    }

    /// Delete the selected variable in the environment editor: the
    /// selection then stays on the same row, or the last row. Gives the
    /// deleted key; `None` (and no change) when no environment is active,
    /// the selection is past the end, or the editor is not open.
    pub fn delete_env_var(&mut self, vars: &mut Vec<(String, String)>, has_active: bool) -> (r: Option<String>)
        ensures
            final(self).env_selected == old(self).env_selected,
            final(self).help_scroll == old(self).help_scroll,
            match old(self).overlay {
                Some(Overlay::EnvironmentEditor { selected, editing_key, new_key, new_value, cursor }) =>
                    if has_active && selected < old(vars)@.len() {
                        final(vars)@ == old(vars)@.remove(selected as int)
                            && r.is_some() && r.unwrap()@ == old(vars)@[selected as int].0@
                            && final(self).overlay == Some(Overlay::EnvironmentEditor {
                                selected: (if selected < spec_last_index(final(vars)@.len() as int) { selected as int } else { spec_last_index(final(vars)@.len() as int) }) as usize,
                                editing_key, new_key, new_value, cursor,
                            })
                    } else {
                        r.is_none() && final(vars)@ == old(vars)@ && final(self).overlay == old(self).overlay
                    },
                _ => r.is_none() && final(vars)@ == old(vars)@ && final(self).overlay == old(self).overlay,
            },
    {
        let ov = self.overlay.take();
        match ov {
            Some(Overlay::EnvironmentEditor { selected, editing_key, new_key, new_value, cursor }) => {
                if has_active && selected < vars.len() {
                    let (k, _v) = vars.remove(selected);
                    let last = if vars.len() > 0 { vars.len() - 1 } else { 0 };
                    let s = if selected < last { selected } else { last };
                    self.overlay = Some(Overlay::EnvironmentEditor { selected: s, editing_key, new_key, new_value, cursor });
                    Some(k)
                } else {
                    self.overlay = Some(Overlay::EnvironmentEditor { selected, editing_key, new_key, new_value, cursor });
                    None
                }
            },
            other => {
                self.overlay = other;
                None
            },
        }
    }
}

impl OverlayState {
    /// Confirm the environment selector: it closes, and the selected
    /// environment becomes active when it is one of the `env_count`.
    pub fn confirm_env_selector(&mut self, env_count: usize) -> (r: Option<usize>)
        ensures
            final(self).overlay.is_none(),
            final(self).env_selected == old(self).env_selected,
            final(self).help_scroll == old(self).help_scroll,
            r == (match old(self).env_selected {
                Some(i) => if i < env_count { Some(i) } else { None },
                None => None,
            }),
    {
        self.overlay = None;
        match self.env_selected {
            Some(i) => if i < env_count { Some(i) } else { None },
            None => None,
        }
    }
}

impl OverlayState {
    /// Confirm the cache time-to-live dialog: it closes; a positive number
    /// becomes the time-to-live and empties the response cache (the status
    /// line then reads "Chain cache TTL: {t}s"); zero ("TTL must be > 0")
    /// and anything that is not a number ("Invalid number") change
    /// nothing else. Any other overlay is left alone (`None`).
    pub fn confirm_ttl(&mut self, ttl: &mut u64, cache: &mut ResponseCache) -> (r: Option<TtlInput>)
        requires
            old(cache).well_formed(),
        ensures
            final(cache).well_formed(),
            final(self).env_selected == old(self).env_selected,
            final(self).help_scroll == old(self).help_scroll,
            match old(self).overlay {
                Some(Overlay::SetCacheTTL { input }) => {
                    &&& r == Some(spec_ttl_input(input@))
                    &&& final(self).overlay.is_none()
                    &&& match spec_ttl_input(input@) {
                        TtlInput::Seconds(t) => *final(ttl) == t && final(cache).entries@.len() == 0
                            && final(cache).max == old(cache).max,
                        _ => *final(ttl) == *old(ttl) && *final(cache) == *old(cache),
                    }
                },
                _ => r.is_none() && *final(self) == *old(self) && *final(ttl) == *old(ttl) && *final(cache) == *old(cache),
            },
    {
        if !matches!(self.overlay, Some(Overlay::SetCacheTTL { .. })) {
            return None;
        }
        let ov = self.overlay.take();
        match ov {
            Some(Overlay::SetCacheTTL { input }) => {
                let p = parse_ttl(input.as_str());
                match p {
                    TtlInput::Seconds(t) => {
                        *ttl = t;
                        cache.clear();
                    },
                    _ => {},
                }
                Some(p)
            },
            _ => None,
        }
    }
}

/// The status line after confirming the time-to-live dialog.
pub open spec fn spec_ttl_status(t: TtlInput) -> Seq<char> {
    match t {
        TtlInput::Seconds(n) => "Chain cache TTL: "@ + spec_decimal(n as nat) + "s"@,
        TtlInput::Zero => "TTL must be > 0"@,
        TtlInput::Invalid => "Invalid number"@,
    }
}

/// See [`spec_ttl_status`].
pub fn ttl_status(t: TtlInput) -> (r: String)
    ensures
        r@ == spec_ttl_status(t),
{
    match t {
        TtlInput::Seconds(n) => {
            let d = decimal_string(n);
            let a = concat("Chain cache TTL: ", d.as_str());
            concat(a.as_str(), "s")
        },
        TtlInput::Zero => String::from_str("TTL must be > 0"),
        TtlInput::Invalid => String::from_str("Invalid number"),
    }
}

} // verus!
