use vstd::prelude::*;
use crate::model::Response;

verus! {

#[derive(Clone, Copy, PartialEq, Eq, Structural, Debug)]
pub enum Direction {
    Left,
    Right,
    Up,
    Down,
}

/// The four panels of the screen.
#[derive(Clone, Copy, PartialEq, Eq, Structural, Debug)]
pub enum Panel {
    Collections,
    Request,
    Body,
    Response,
}

/// Pop-up dialogs drawn over the panels.
#[derive(Debug)]
pub enum Overlay {
    EnvironmentSelector,
    Help,
    ThemeSelector { selected: usize },
    EnvironmentEditor {
        selected: usize,
        editing_key: bool,
        new_key: String,
        new_value: String,
        cursor: usize,
    },
    HeaderAutocomplete { suggestions: Vec<(String, String)>, selected: usize },
    NewCollection { name: String },
    RenameRequest { name: String },
    ConfirmDelete { message: String },
    MoveRequest { selected: usize },
    History { selected: usize },
    ResponseHistory { selected: usize },
    ResponseDiffSelect { selected: usize },
    SetCacheTTL { input: String },
}

/// What the user asked for; the event loop turns key presses into these.
#[derive(Debug)]
pub enum Action {
    NavigatePanel(Direction),
    FocusPanel(Panel),
    EnterInsertMode,
    EnterInsertModeStart,
    EnterAppendMode,
    EnterAppendModeEnd,
    ExitInsertMode,
    EnterRequestFieldEdit,
    ExitRequestFieldEdit,
    EnterVisualMode,
    EnterVisualBlockMode,
    ExitVisualMode,
    OpenLineBelow,
    OpenLineAbove,
    ScrollUp,
    ScrollDown,
    ScrollHalfUp,
    ScrollHalfDown,
    ScrollTop,
    ScrollBottom,
    RequestFocusUp,
    RequestFocusDown,
    AddHeader,
    DeleteHeader,
    ShowHeaderAutocomplete,
    RequestNextTab,
    RequestPrevTab,
    ToggleItemEnabled,
    AddParam,
    DeleteParam,
    AddCookie,
    DeleteCookie,
    AddPathParam,
    DeletePathParam,
    SelectRequest,
    CreateCollection,
    NextCollection,
    PrevCollection,
    SaveRequest,
    SaveRequestAs,
    NewEmptyRequest,
    RenameRequest,
    DeleteSelected,
    MoveRequest,
    ToggleCollapse,
    YankRequest,
    PasteRequest,
    InlineInput(char),
    InlineBackspace,
    InlineDelete,
    InlineNewline,
    InlineCursorLeft,
    InlineCursorRight,
    InlineCursorUp,
    InlineCursorDown,
    InlineTab,
    InlineCursorHome,
    InlineCursorEnd,
    BodyWordForward,
    BodyWordBackward,
    BodyLineHome,
    BodyLineEnd,
    VisualYank,
    VisualDelete,
    Paste,
    PasteFromClipboard,
    ReplaceChar(char),
    DeleteCharUnderCursor,
    DeleteLine,
    Undo,
    Redo,
    AutocompleteNext,
    AutocompletePrev,
    AutocompleteAccept,
    PendingKey(char),
    NextMethod,
    PrevMethod,
    CycleBodyType,
    CycleTheme,
    SetTheme(String),
    SetChainCacheTTL(u64),
    OpenCommandPalette,
    CommandPaletteInput(char),
    CommandPaletteBackspace,
    CommandPaletteUp,
    CommandPaletteDown,
    CommandPaletteConfirm,
    CommandPaletteClose,
    ExecuteRequest,
    RequestCompleted(Box<Response>),
    RequestFailed(String),
    OpenOverlay(Overlay),
    CloseOverlay,
    OverlayUp,
    OverlayDown,
    OverlayConfirm,
    OverlayInput(char),
    OverlayBackspace,
    ToggleInsecureMode,
    ToggleResponseHeaders,
    ToggleWrap,
    ResponseNextTab,
    ExportResponse,
    StartSearch,
    /// Move to the next search hit, wrapping around.
    SearchNext,
    /// Move to the previous search hit, wrapping around.
    SearchPrev,
    /// Add a new request to the collection selected in the tree.
    AddRequestToCollection,
    CopyResponseBody,
    CopyAsCurl,
    YankLine,
    /// A digit of a count typed before a command.
    AccumulateCount(u8),
    Quit,
    Tick,
}

/// Two string pairs with the same views.
pub open spec fn pairs_eqv(a: Seq<(String, String)>, b: Seq<(String, String)>) -> bool {
    a.len() == b.len() && forall|i: int| 0 <= i < a.len() ==> a[i].0@ == b[i].0@ && a[i].1@ == b[i].1@
}

/// Two overlays that hold the same values (strings compared by content).
pub open spec fn overlay_eqv(a: Overlay, b: Overlay) -> bool {
    match a {
        Overlay::EnvironmentEditor { selected, editing_key, new_key, new_value, cursor } => match b {
            Overlay::EnvironmentEditor { selected: s2, editing_key: e2, new_key: k2, new_value: v2, cursor: c2 } =>
                selected == s2 && editing_key == e2 && new_key@ == k2@ && new_value@ == v2@ && cursor == c2,
            _ => false,
        },
        Overlay::HeaderAutocomplete { suggestions, selected } => match b {
            Overlay::HeaderAutocomplete { suggestions: s2, selected: sel2 } =>
                pairs_eqv(suggestions@, s2@) && selected == sel2,
            _ => false,
        },
        Overlay::NewCollection { name } => match b {
            Overlay::NewCollection { name: n2 } => name@ == n2@,
            _ => false,
        },
        Overlay::RenameRequest { name } => match b {
            Overlay::RenameRequest { name: n2 } => name@ == n2@,
            _ => false,
        },
        Overlay::ConfirmDelete { message } => match b {
            Overlay::ConfirmDelete { message: m2 } => message@ == m2@,
            _ => false,
        },
        Overlay::SetCacheTTL { input } => match b {
            Overlay::SetCacheTTL { input: i2 } => input@ == i2@,
            _ => false,
        },
        _ => a == b,
    }
}

/// Two actions that hold the same values (strings compared by content).
pub open spec fn action_eqv(a: Action, b: Action) -> bool {
    match a {
        Action::SetTheme(x) => match b {
            Action::SetTheme(y) => x@ == y@,
            _ => false,
        },
        Action::RequestFailed(x) => match b {
            Action::RequestFailed(y) => x@ == y@,
            _ => false,
        },
        Action::RequestCompleted(x) => match b {
            Action::RequestCompleted(y) => crate::model::response_eqv(*x, *y),
            _ => false,
        },
        Action::OpenOverlay(x) => match b {
            Action::OpenOverlay(y) => overlay_eqv(x, y),
            _ => false,
        },
        _ => a == b,
    }
}

fn copy_pairs(v: &Vec<(String, String)>) -> (r: Vec<(String, String)>)
    ensures
        pairs_eqv(r@, v@),
{
    let mut out: Vec<(String, String)> = Vec::new();
    let mut i: usize = 0;
    while i < v.len()
        invariant
            i <= v@.len(),
            out@.len() == i,
            forall|k: int| 0 <= k < i ==> (#[trigger] out@[k]).0@ == v@[k].0@ && out@[k].1@ == v@[k].1@,
        decreases v@.len() - i,
    {
        let a = v[i].0.clone();
        let b = v[i].1.clone();
        out.push((a, b));
        i = i + 1;
    }
    out
}

impl Overlay {
    /// A copy holding the same values.
    pub fn copy(&self) -> (r: Overlay)
        ensures
            overlay_eqv(r, *self),
    {
        match self {
            Overlay::EnvironmentSelector => Overlay::EnvironmentSelector,
            Overlay::Help => Overlay::Help,
            Overlay::ThemeSelector { selected } => Overlay::ThemeSelector { selected: *selected },
            Overlay::EnvironmentEditor { selected, editing_key, new_key, new_value, cursor } =>
                Overlay::EnvironmentEditor {
                    selected: *selected,
                    editing_key: *editing_key,
                    new_key: new_key.clone(),
                    new_value: new_value.clone(),
                    cursor: *cursor,
                },
            Overlay::HeaderAutocomplete { suggestions, selected } =>
                Overlay::HeaderAutocomplete { suggestions: copy_pairs(suggestions), selected: *selected },
            Overlay::NewCollection { name } => Overlay::NewCollection { name: name.clone() },
            Overlay::RenameRequest { name } => Overlay::RenameRequest { name: name.clone() },
            Overlay::ConfirmDelete { message } => Overlay::ConfirmDelete { message: message.clone() },
            Overlay::MoveRequest { selected } => Overlay::MoveRequest { selected: *selected },
            Overlay::History { selected } => Overlay::History { selected: *selected },
            Overlay::ResponseHistory { selected } => Overlay::ResponseHistory { selected: *selected },
            Overlay::ResponseDiffSelect { selected } => Overlay::ResponseDiffSelect { selected: *selected },
            Overlay::SetCacheTTL { input } => Overlay::SetCacheTTL { input: input.clone() },
        }
    }
}

impl Action {
    /// A copy holding the same values.
    pub fn copy(&self) -> (r: Action)
        ensures
            action_eqv(r, *self),
    {
        match self {
            Action::NavigatePanel(x) => Action::NavigatePanel(*x),
            Action::FocusPanel(x) => Action::FocusPanel(*x),
            Action::EnterInsertMode => Action::EnterInsertMode,
            Action::EnterInsertModeStart => Action::EnterInsertModeStart,
            Action::EnterAppendMode => Action::EnterAppendMode,
            Action::EnterAppendModeEnd => Action::EnterAppendModeEnd,
            Action::ExitInsertMode => Action::ExitInsertMode,
            Action::EnterRequestFieldEdit => Action::EnterRequestFieldEdit,
            Action::ExitRequestFieldEdit => Action::ExitRequestFieldEdit,
            Action::EnterVisualMode => Action::EnterVisualMode,
            Action::EnterVisualBlockMode => Action::EnterVisualBlockMode,
            Action::ExitVisualMode => Action::ExitVisualMode,
            Action::OpenLineBelow => Action::OpenLineBelow,
            Action::OpenLineAbove => Action::OpenLineAbove,
            Action::ScrollUp => Action::ScrollUp,
            Action::ScrollDown => Action::ScrollDown,
            Action::ScrollHalfUp => Action::ScrollHalfUp,
            Action::ScrollHalfDown => Action::ScrollHalfDown,
            Action::ScrollTop => Action::ScrollTop,
            Action::ScrollBottom => Action::ScrollBottom,
            Action::RequestFocusUp => Action::RequestFocusUp,
            Action::RequestFocusDown => Action::RequestFocusDown,
            Action::AddHeader => Action::AddHeader,
            Action::DeleteHeader => Action::DeleteHeader,
            Action::ShowHeaderAutocomplete => Action::ShowHeaderAutocomplete,
            Action::RequestNextTab => Action::RequestNextTab,
            Action::RequestPrevTab => Action::RequestPrevTab,
            Action::ToggleItemEnabled => Action::ToggleItemEnabled,
            Action::AddParam => Action::AddParam,
            Action::DeleteParam => Action::DeleteParam,
            Action::AddCookie => Action::AddCookie,
            Action::DeleteCookie => Action::DeleteCookie,
            Action::AddPathParam => Action::AddPathParam,
            Action::DeletePathParam => Action::DeletePathParam,
            Action::SelectRequest => Action::SelectRequest,
            Action::CreateCollection => Action::CreateCollection,
            Action::NextCollection => Action::NextCollection,
            Action::PrevCollection => Action::PrevCollection,
            Action::SaveRequest => Action::SaveRequest,
            Action::SaveRequestAs => Action::SaveRequestAs,
            Action::NewEmptyRequest => Action::NewEmptyRequest,
            Action::RenameRequest => Action::RenameRequest,
            Action::DeleteSelected => Action::DeleteSelected,
            Action::MoveRequest => Action::MoveRequest,
            Action::ToggleCollapse => Action::ToggleCollapse,
            Action::YankRequest => Action::YankRequest,
            Action::PasteRequest => Action::PasteRequest,
            Action::InlineInput(x) => Action::InlineInput(*x),
            Action::InlineBackspace => Action::InlineBackspace,
            Action::InlineDelete => Action::InlineDelete,
            Action::InlineNewline => Action::InlineNewline,
            Action::InlineCursorLeft => Action::InlineCursorLeft,
            Action::InlineCursorRight => Action::InlineCursorRight,
            Action::InlineCursorUp => Action::InlineCursorUp,
            Action::InlineCursorDown => Action::InlineCursorDown,
            Action::InlineTab => Action::InlineTab,
            Action::InlineCursorHome => Action::InlineCursorHome,
            Action::InlineCursorEnd => Action::InlineCursorEnd,
            Action::BodyWordForward => Action::BodyWordForward,
            Action::BodyWordBackward => Action::BodyWordBackward,
            Action::BodyLineHome => Action::BodyLineHome,
            Action::BodyLineEnd => Action::BodyLineEnd,
            Action::VisualYank => Action::VisualYank,
            Action::VisualDelete => Action::VisualDelete,
            Action::Paste => Action::Paste,
            Action::PasteFromClipboard => Action::PasteFromClipboard,
            Action::ReplaceChar(x) => Action::ReplaceChar(*x),
            Action::DeleteCharUnderCursor => Action::DeleteCharUnderCursor,
            Action::DeleteLine => Action::DeleteLine,
            Action::Undo => Action::Undo,
            Action::Redo => Action::Redo,
            Action::AutocompleteNext => Action::AutocompleteNext,
            Action::AutocompletePrev => Action::AutocompletePrev,
            Action::AutocompleteAccept => Action::AutocompleteAccept,
            Action::PendingKey(x) => Action::PendingKey(*x),
            Action::NextMethod => Action::NextMethod,
            Action::PrevMethod => Action::PrevMethod,
            Action::CycleBodyType => Action::CycleBodyType,
            Action::CycleTheme => Action::CycleTheme,
            Action::SetTheme(x) => Action::SetTheme(x.clone()),
            Action::SetChainCacheTTL(x) => Action::SetChainCacheTTL(*x),
            Action::OpenCommandPalette => Action::OpenCommandPalette,
            Action::CommandPaletteInput(x) => Action::CommandPaletteInput(*x),
            Action::CommandPaletteBackspace => Action::CommandPaletteBackspace,
            Action::CommandPaletteUp => Action::CommandPaletteUp,
            Action::CommandPaletteDown => Action::CommandPaletteDown,
            Action::CommandPaletteConfirm => Action::CommandPaletteConfirm,
            Action::CommandPaletteClose => Action::CommandPaletteClose,
            Action::ExecuteRequest => Action::ExecuteRequest,
            Action::RequestCompleted(x) => Action::RequestCompleted(Box::new(x.copy())),
            Action::RequestFailed(x) => Action::RequestFailed(x.clone()),
            Action::OpenOverlay(x) => Action::OpenOverlay(x.copy()),
            Action::CloseOverlay => Action::CloseOverlay,
            Action::OverlayUp => Action::OverlayUp,
            Action::OverlayDown => Action::OverlayDown,
            Action::OverlayConfirm => Action::OverlayConfirm,
            Action::OverlayInput(x) => Action::OverlayInput(*x),
            Action::OverlayBackspace => Action::OverlayBackspace,
            Action::ToggleInsecureMode => Action::ToggleInsecureMode,
            Action::ToggleResponseHeaders => Action::ToggleResponseHeaders,
            Action::ToggleWrap => Action::ToggleWrap,
            Action::ResponseNextTab => Action::ResponseNextTab,
            Action::ExportResponse => Action::ExportResponse,
            Action::StartSearch => Action::StartSearch,
            Action::SearchNext => Action::SearchNext,
            Action::SearchPrev => Action::SearchPrev,
            Action::AddRequestToCollection => Action::AddRequestToCollection,
            Action::CopyResponseBody => Action::CopyResponseBody,
            Action::CopyAsCurl => Action::CopyAsCurl,
            Action::YankLine => Action::YankLine,
            Action::AccumulateCount(d) => Action::AccumulateCount(*d),
            Action::Quit => Action::Quit,
            Action::Tick => Action::Tick,
        }
    }
}

} // verus!
