use vstd::prelude::*;
use crate::action::{Action, Panel};
use crate::body_edit::TextBuffer;
use crate::collections::{params_from_url, spec_param_views, spec_params_from_url};
use crate::field_edit::LineField;
use crate::history::{UndoHistory, spec_pushed};
use crate::model::QueryParam;
use crate::navigation::RequestFocus;
use crate::vim_buffer::{copy_range, line_len, spec_line_len};


verus! {

/// The editing mode of the application.
#[derive(Clone, Copy, Debug, PartialEq, Eq, Structural)]
pub enum InputMode {
    Normal,
    Insert,
    Visual,
    VisualBlock,
}

/// A body (or type editor) undo snapshot: the text and the cursor.
#[derive(Debug)]
pub struct BodySnapshot {
    pub text: Vec<u8>,
    pub row: usize,
    pub col: usize,
}

/// A request-field undo snapshot: which field, which of its two parts
/// (name or value), its text and its cursor.
#[derive(Debug)]
pub struct FieldSnapshot {
    pub focus: RequestFocus,
    pub edit_field: u8,
    pub text: Vec<u8>,
    pub cursor: usize,
}

/// What the mode keys act on: the body editor, the focused request field
/// (and, for the URL, the query parameters it holds), the response cursor,
/// the response type editor, and the two completion pop-ups.
pub struct EditState {
    pub mode: InputMode,
    pub panel: Panel,
    /// The Response panel shows its Type tab with the editor focused.
    pub type_editor: bool,
    pub body: TextBuffer,
    pub body_undo: UndoHistory<BodySnapshot>,
    pub body_anchor: Option<(usize, usize)>,
    pub type_buf: TextBuffer,
    pub type_undo: UndoHistory<BodySnapshot>,
    pub type_anchor: Option<(usize, usize)>,
    pub resp_cursor: (usize, usize),
    pub resp_anchor: Option<(usize, usize)>,
    pub focus: RequestFocus,
    pub edit_field: u8,
    /// The text of the focused request field and the cursor in it.
    pub field: LineField,
    pub field_editing: bool,
    pub field_anchor: usize,
    pub field_undo: UndoHistory<FieldSnapshot>,
    /// The request URL (the field's text while the URL has the focus).
    pub url: String,
    pub query_params: Vec<QueryParam>,
    pub autocomplete_open: bool,
    pub chain_autocomplete_open: bool,
    /// The text shown in the Response panel.
    pub resp_text: Vec<u8>,
    /// The type editor's text was changed by hand.
    pub type_locked: bool,
    /// The first key of a two-key command, waiting for the second.
    pub pending_key: Option<char>,
    /// The text `p` pastes.
    pub yank_buffer: Vec<u8>,
}

/// The views of body snapshots.
pub open spec fn body_snaps(s: Seq<BodySnapshot>) -> Seq<(Seq<u8>, usize, usize)> {
    Seq::new(s.len(), |i: int| (s[i].text@, s[i].row, s[i].col))
}

/// The views of request-field snapshots.
pub open spec fn field_snaps(s: Seq<FieldSnapshot>) -> Seq<(RequestFocus, u8, Seq<u8>, usize)> {
    Seq::new(s.len(), |i: int| (s[i].focus, s[i].edit_field, s[i].text@, s[i].cursor))
}

/// `n` is `o` after recording the body snapshot `(t, row, col)`.
pub open spec fn spec_body_undo_pushed(o: UndoHistory<BodySnapshot>, n: UndoHistory<BodySnapshot>, t: Seq<u8>, row: usize, col: usize) -> bool {
    &&& body_snaps(n.undo_stack@) == spec_pushed(body_snaps(o.undo_stack@), (t, row, col))
    &&& n.redo_stack@.len() == 0
}

/// `n` is `o` after recording the field snapshot of `s`.
pub open spec fn spec_field_undo_pushed(o: UndoHistory<FieldSnapshot>, n: UndoHistory<FieldSnapshot>, s: EditState) -> bool {
    &&& field_snaps(n.undo_stack@) == spec_pushed(field_snaps(o.undo_stack@), (s.focus, s.edit_field, s.field.text@, s.field.cursor))
    &&& n.redo_stack@.len() == 0
}

/// The body line length at the cursor row.
pub open spec fn spec_cur_line_len(b: TextBuffer) -> int {
    spec_line_len(b.text@, b.row as int)
}

/// `n` is `b` with the column set to `col`.
pub open spec fn spec_moved(b: TextBuffer, n: TextBuffer, col: int) -> bool {
    n.text@ == b.text@ && n.row == b.row && n.col == col
}

/// The column of a normal-mode cursor on a line of `ll` bytes.
pub open spec fn spec_normal_col(col: int, ll: int) -> int {
    if ll > 0 && col > ll - 1 { ll - 1 } else { col }
}

/// Whether the type editor of the Response panel has the keys.
pub open spec fn spec_in_type_editor(s: EditState) -> bool {
    s.panel == Panel::Response && s.type_editor
}

/// The insert-mode entries `i`, `I`, `a`, `A` (`start`: `I`; `append`:
/// `a`; `end`: `A`): the undo snapshot of what is edited is taken, the
/// mode becomes insert, and the cursor moves as each key says. The request
/// field is edited in place from then on; plain `i` outside field editing
/// starts at the end of the field.
pub open spec fn spec_enter_insert(o: EditState, n: EditState, start: bool, append: bool, end: bool) -> bool {
    match o.panel {
        Panel::Body => {
            let ll = spec_cur_line_len(o.body);
            &&& n == (EditState { mode: InputMode::Insert, body: n.body, body_undo: n.body_undo, ..o })
            &&& spec_body_undo_pushed(o.body_undo, n.body_undo, o.body.text@, o.body.row, o.body.col)
            &&& spec_moved(o.body, n.body,
                if start { 0 } else if append { if o.body.col + 1 <= ll { o.body.col + 1 } else { ll } }
                else if end { ll } else { o.body.col as int })
        },
        Panel::Request => {
            let len = o.field.text@.len() as int;
            &&& n == (EditState { mode: InputMode::Insert, field_editing: true, field: n.field, field_undo: n.field_undo, ..o })
            &&& spec_field_undo_pushed(o.field_undo, n.field_undo, o)
            &&& n.field.text@ == o.field.text@
            &&& n.field.cursor == (if start { 0 } else if append {
                if o.field.cursor < len { o.field.cursor + 1 } else { len } }
                else if end { len } else if o.field_editing { o.field.cursor as int } else { len })
        },
        Panel::Response if o.type_editor => {
            let ll = spec_cur_line_len(o.type_buf);
            &&& n == (EditState { mode: InputMode::Insert, type_buf: n.type_buf, type_undo: n.type_undo, ..o })
            &&& spec_body_undo_pushed(o.type_undo, n.type_undo, o.type_buf.text@, o.type_buf.row, o.type_buf.col)
            &&& spec_moved(o.type_buf, n.type_buf,
                if start { 0 } else if append { if o.type_buf.col + 1 < ll { o.type_buf.col + 1 } else { o.type_buf.col as int } }
                else if end { ll } else { o.type_buf.col as int })
        },
        _ => n == o,
    }
}

/// `Esc` from insert mode: back to normal mode with both completion
/// pop-ups closed; the cursor of what was edited moves back onto the last
/// byte of its line; the request field stays in field editing, and leaving
/// the URL rebuilds the query parameters from it.
pub open spec fn spec_exit_insert(o: EditState, n: EditState) -> bool {
    &&& n == (EditState {
        mode: InputMode::Normal,
        autocomplete_open: false,
        chain_autocomplete_open: false,
        field_editing: o.field_editing || o.panel == Panel::Request,
        query_params: n.query_params,
        body: n.body,
        type_buf: n.type_buf,
        field: n.field,
        ..o
    })
    &&& if o.panel == Panel::Request && o.focus == RequestFocus::Url {
        spec_param_views(n.query_params@) == spec_params_from_url(o.url@, o.query_params@)
    } else {
        n.query_params == o.query_params
    }
    &&& spec_moved(o.body, n.body,
        if o.panel == Panel::Body { spec_normal_col(o.body.col as int, spec_cur_line_len(o.body)) } else { o.body.col as int })
    &&& spec_moved(o.type_buf, n.type_buf, if spec_in_type_editor(o) {
        spec_normal_col(o.type_buf.col as int, spec_cur_line_len(o.type_buf)) } else { o.type_buf.col as int })
    &&& n.field.text@ == o.field.text@
    &&& n.field.cursor == (if o.panel == Panel::Request {
        spec_normal_col(o.field.cursor as int, o.field.text@.len() as int)
    } else { o.field.cursor as int })
}

/// What a mode key does to the editing state.
pub open spec fn spec_mode_transition(o: EditState, n: EditState, a: Action) -> bool {
    match a {
        Action::EnterInsertMode => spec_enter_insert(o, n, false, false, false),
        Action::EnterInsertModeStart => spec_enter_insert(o, n, true, false, false),
        Action::EnterAppendMode => spec_enter_insert(o, n, false, true, false),
        Action::EnterAppendModeEnd => spec_enter_insert(o, n, false, false, true),
        Action::ExitInsertMode => spec_exit_insert(o, n),
        Action::EnterRequestFieldEdit => if o.panel == Panel::Request {
            let len = o.field.text@.len() as int;
            &&& n == (EditState { field_editing: true, field: n.field, ..o })
            &&& n.field.text@ == o.field.text@
            &&& n.field.cursor == (if o.mode == InputMode::Insert { len } else if len > 0 { len - 1 } else { 0 })
        } else {
            n == o
        },
        Action::ExitRequestFieldEdit => {
            &&& n == (EditState { field_editing: false, query_params: n.query_params, ..o })
            &&& if o.panel == Panel::Request && o.focus == RequestFocus::Url {
                spec_param_views(n.query_params@) == spec_params_from_url(o.url@, o.query_params@)
            } else {
                n.query_params == o.query_params
            }
        },
        Action::EnterVisualMode => match o.panel {
            Panel::Body => n == (EditState { mode: InputMode::Visual, body_anchor: Some((o.body.row, o.body.col)), ..o }),
            Panel::Response => if o.type_editor {
                n == (EditState { mode: InputMode::Visual, type_anchor: Some((o.type_buf.row, o.type_buf.col)), ..o })
            } else {
                n == (EditState { mode: InputMode::Visual, resp_anchor: Some(o.resp_cursor), ..o })
            },
            Panel::Request => if o.field_editing {
                n == (EditState { mode: InputMode::Visual, field_anchor: o.field.cursor, ..o })
            } else {
                n == o
            },
            _ => n == o,
        },
        Action::EnterVisualBlockMode => match o.panel {
            Panel::Body => n == (EditState { mode: InputMode::VisualBlock, body_anchor: Some((o.body.row, o.body.col)), ..o }),
            Panel::Response => n == (EditState { mode: InputMode::VisualBlock, resp_anchor: Some(o.resp_cursor), ..o }),
            _ => n == o,
        },
        Action::ExitVisualMode => n == (EditState {
            mode: InputMode::Normal,
            field_editing: o.field_editing || o.panel == Panel::Request,
            ..o
        }),
        _ => n == o,
    }
}

/// The undo histories hold at most the allowed number of snapshots.
pub open spec fn spec_edit_wf(s: EditState) -> bool {
    s.body_undo.well_formed() && s.type_undo.well_formed() && s.field_undo.well_formed()
}

proof fn lemma_body_snaps_pushed(u: Seq<BodySnapshot>, s: BodySnapshot)
    ensures
        body_snaps(spec_pushed(u, s)) == spec_pushed(body_snaps(u), (s.text@, s.row, s.col)),
{
    assert(body_snaps(u.push(s)) =~= body_snaps(u).push((s.text@, s.row, s.col)));
    assert(body_snaps(u.push(s).drop_first()) =~= body_snaps(u).push((s.text@, s.row, s.col)).drop_first());
}

proof fn lemma_field_snaps_pushed(u: Seq<FieldSnapshot>, s: FieldSnapshot)
    ensures
        field_snaps(spec_pushed(u, s)) == spec_pushed(field_snaps(u), (s.focus, s.edit_field, s.text@, s.cursor)),
{
    assert(field_snaps(u.push(s)) =~= field_snaps(u).push((s.focus, s.edit_field, s.text@, s.cursor)));
    assert(field_snaps(u.push(s).drop_first()) =~= field_snaps(u).push((s.focus, s.edit_field, s.text@, s.cursor)).drop_first());
}

/// Record the text and cursor of `b` on `h`.
pub(crate) fn push_buffer_undo(h: &mut UndoHistory<BodySnapshot>, b: &TextBuffer)
    requires
        old(h).well_formed(),
    ensures
        final(h).well_formed(),
        spec_body_undo_pushed(*old(h), *final(h), b.text@, b.row, b.col),
{
    let snap = BodySnapshot { text: copy_range(b.text.as_slice(), 0, b.text.len()), row: b.row, col: b.col };
    proof {
        assert(snap.text@ =~= b.text@);
        lemma_body_snaps_pushed(old(h).undo_stack@, snap);
    }
    h.push(snap);
}

/// Record the focused request field on its undo history.
pub(crate) fn push_field_undo(st: &mut EditState)
    requires
        spec_edit_wf(*old(st)),
    ensures
        spec_edit_wf(*final(st)),
        spec_field_undo_pushed(old(st).field_undo, final(st).field_undo, *old(st)),
        final(st).field_undo.undo_stack@.len() > 0,
        ({ let (o, n) = (*old(st), *final(st)); n == EditState { field_undo: n.field_undo, ..o } }),
{
    let snap = FieldSnapshot {
        focus: st.focus,
        edit_field: st.edit_field,
        text: copy_range(st.field.text.as_slice(), 0, st.field.text.len()),
        cursor: st.field.cursor,
    };
    proof {
        assert(snap.text@ =~= st.field.text@);
        lemma_field_snaps_pushed(st.field_undo.undo_stack@, snap);
    }
    st.field_undo.push(snap);
}

/// `i`, `I`, `a` and `A` (see [`spec_enter_insert`]).
fn enter_insert(st: &mut EditState, start: bool, append: bool, end: bool)
    requires
        spec_edit_wf(*old(st)),
    ensures
        spec_edit_wf(*final(st)),
        spec_enter_insert(*old(st), *final(st), start, append, end),
{
    match st.panel {
        Panel::Body => {
            push_buffer_undo(&mut st.body_undo, &st.body);
            st.mode = InputMode::Insert;
            if start {
                st.body.col = 0;
            } else if append {
                st.body.append_after_cursor();
            } else if end {
                let ll = line_len(st.body.text.as_slice(), st.body.row);
                st.body.col = ll;
            }
        },
        Panel::Request => {
            push_field_undo(st);
            st.mode = InputMode::Insert;
            let len = st.field.text.len();
            if start {
                st.field.cursor = 0;
            } else if append {
                st.field.append_after_cursor();
            } else if end || !st.field_editing {
                st.field.cursor = len;
            }
            st.field_editing = true;
        },
        Panel::Response => {
            if st.type_editor {
                push_buffer_undo(&mut st.type_undo, &st.type_buf);
                let ll = line_len(st.type_buf.text.as_slice(), st.type_buf.row);
                if start {
                    st.type_buf.col = 0;
                } else if append {
                    if ll > 0 && st.type_buf.col < ll - 1 {
                        st.type_buf.col = st.type_buf.col + 1;
                    }
                } else if end {
                    st.type_buf.col = ll;
                }
                st.mode = InputMode::Insert;
            }
        },
        _ => {},
    }
}

/// Put a normal-mode cursor back on the last byte of its line.
fn clamp_buffer(b: &mut TextBuffer)
    ensures
        spec_moved(*old(b), *final(b), spec_normal_col(old(b).col as int, spec_cur_line_len(*old(b)))),
{
    b.clamp_for_normal_mode();
}

/// What a mode key does (see [`spec_mode_transition`]): entering and
/// leaving insert, field-editing and visual modes.
pub fn mode_transition(st: &mut EditState, a: &Action)
    requires
        spec_edit_wf(*old(st)),
    ensures
        spec_edit_wf(*final(st)),
        spec_mode_transition(*old(st), *final(st), *a),
{
    match a {
        Action::EnterInsertMode => enter_insert(st, false, false, false),
        Action::EnterInsertModeStart => enter_insert(st, true, false, false),
        Action::EnterAppendMode => enter_insert(st, false, true, false),
        Action::EnterAppendModeEnd => enter_insert(st, false, false, true),
        Action::ExitInsertMode => {
            if st.panel == Panel::Request && st.focus == RequestFocus::Url {
                st.query_params = params_from_url(st.url.as_str(), &st.query_params);
            }
            st.mode = InputMode::Normal;
            st.autocomplete_open = false;
            st.chain_autocomplete_open = false;
            match st.panel {
                Panel::Body => clamp_buffer(&mut st.body),
                Panel::Request => {
                    st.field_editing = true;
                    st.field.clamp_for_normal_mode();
                },
                Panel::Response => {
                    if st.type_editor {
                        clamp_buffer(&mut st.type_buf);
                    }
                },
                _ => {},
            }
        },
        Action::EnterRequestFieldEdit => {
            if st.panel == Panel::Request {
                st.field_editing = true;
                let len = st.field.text.len();
                st.field.cursor = if st.mode == InputMode::Insert { len } else if len > 0 { len - 1 } else { 0 };
            }
        },
        Action::ExitRequestFieldEdit => {
            st.field_editing = false;
            if st.panel == Panel::Request && st.focus == RequestFocus::Url {
                st.query_params = params_from_url(st.url.as_str(), &st.query_params);
            }
        },
        Action::EnterVisualMode => {
            match st.panel {
                Panel::Body => {
                    st.mode = InputMode::Visual;
                    st.body_anchor = Some((st.body.row, st.body.col));
                },
                Panel::Response => {
                    st.mode = InputMode::Visual;
                    if st.type_editor {
                        st.type_anchor = Some((st.type_buf.row, st.type_buf.col));
                    } else {
                        st.resp_anchor = Some(st.resp_cursor);
                    }
                },
                Panel::Request => {
                    if st.field_editing {
                        st.mode = InputMode::Visual;
                        st.field_anchor = st.field.cursor;
                    }
                },
                _ => {},
            }
        },
        Action::EnterVisualBlockMode => {
            match st.panel {
                Panel::Body => {
                    st.mode = InputMode::VisualBlock;
                    st.body_anchor = Some((st.body.row, st.body.col));
                },
                Panel::Response => {
                    st.mode = InputMode::VisualBlock;
                    st.resp_anchor = Some(st.resp_cursor);
                },
                _ => {},
            }
        },
        Action::ExitVisualMode => {
            st.mode = InputMode::Normal;
            if st.panel == Panel::Request {
                st.field_editing = true;
            }
        },
        _ => {},
    }
}

} // verus!
