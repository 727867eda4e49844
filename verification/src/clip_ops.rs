use vstd::prelude::*;
use crate::action::Panel;
use crate::body_edit::{TextBuffer, spec_join, spec_lines};
use crate::mode::{EditState, spec_edit_wf, spec_body_undo_pushed, spec_field_undo_pushed, spec_in_type_editor, push_buffer_undo, push_field_undo};
use crate::vim_buffer::{copy_range, line_count, spec_line_count, spec_line_len};
use crate::strutil::{concat, decimal_string, spec_decimal};
use vstd::string::StringExecFns;

verus! {

/// The line commands with a count: `yy` and `dd`.
#[derive(Clone, Copy, Debug, PartialEq, Eq, Structural)]
pub enum ClipOp {
    YankLine,
    DeleteLine,
}

/// The status line after a line command.
#[derive(Clone, Copy, Debug, PartialEq, Eq, Structural)]
pub enum ClipStatus {
    /// "Yanked field"
    YankedField,
    /// "Yanked line"
    YankedLine,
    /// "Yanked {n} lines"
    YankedLines(usize),
    /// "Line deleted"
    LineDeleted,
    /// "Deleted {n} lines"
    LinesDeleted(usize),
    /// "Field cleared"
    FieldCleared,
}

/// The status line text of a line command.
pub open spec fn spec_clip_status_text(s: ClipStatus) -> Seq<char> {
    match s {
        ClipStatus::YankedField => "Yanked field"@,
        ClipStatus::YankedLine => "Yanked line"@,
        ClipStatus::YankedLines(n) => "Yanked "@ + spec_decimal(n as nat) + " lines"@,
        ClipStatus::LineDeleted => "Line deleted"@,
        ClipStatus::LinesDeleted(n) => "Deleted "@ + spec_decimal(n as nat) + " lines"@,
        ClipStatus::FieldCleared => "Field cleared"@,
    }
}

impl ClipStatus {
    /// See [`spec_clip_status_text`].
    pub fn text(&self) -> (r: String)
        ensures
            r@ == spec_clip_status_text(*self),
    {
        match self {
            ClipStatus::YankedField => String::from_str("Yanked field"),
            ClipStatus::YankedLine => String::from_str("Yanked line"),
            ClipStatus::YankedLines(n) => {
                let d = decimal_string(*n as u64);
                let a = concat("Yanked ", d.as_str());
                concat(a.as_str(), " lines")
            },
            ClipStatus::LineDeleted => String::from_str("Line deleted"),
            ClipStatus::LinesDeleted(n) => {
                let d = decimal_string(*n as u64);
                let a = concat("Deleted ", d.as_str());
                concat(a.as_str(), " lines")
            },
            ClipStatus::FieldCleared => String::from_str("Field cleared"),
        }
    }
}

/// What a line command hands out: the text for the system clipboard, the
/// status line, and whether the type editor's own line deletion is to run
/// (that editor keeps its lines itself).
#[derive(Debug)]
pub struct ClipOutcome {
    pub clipboard: Option<Vec<u8>>,
    pub status: Option<ClipStatus>,
    pub type_editor_delete: bool,
}

/// One `dd` on `(text, row, col)`: line `row` goes (the text is rebuilt
/// from its remaining lines joined by line feeds) and the cursor stays on
/// an existing line and column; nothing happens past the last line.
pub open spec fn spec_delete_line_step(s: (Seq<u8>, int, int)) -> (Seq<u8>, int, int) {
    let (text, row, col) = s;
    if row < 0 || row >= spec_line_count(text) {
        s
    } else {
        let t = spec_join(spec_lines(text).remove(row));
        let lc = spec_line_count(t);
        let max_row = if lc > 0 { lc - 1 } else { 0 };
        let new_row = if row <= max_row { row } else { max_row };
        let ll = spec_line_len(t, new_row);
        (t, new_row, if col <= ll { col } else { ll })
    }
}

/// `k` deletions of the cursor's line, one after another.
pub open spec fn spec_delete_lines(s: (Seq<u8>, int, int), k: nat) -> (Seq<u8>, int, int)
    decreases k,
{
    if k == 0 { s } else { spec_delete_line_step(spec_delete_lines(s, (k - 1) as nat)) }
}

/// The lines `row..row + count` of `text` (fewer at its end) joined by
/// line feeds, or `None` when `row` is past its last line.
pub open spec fn spec_yanked(text: Seq<u8>, row: int, count: int) -> Option<Seq<u8>> {
    let ls = spec_lines(text);
    if 0 <= row < ls.len() {
        let end = if row + count <= ls.len() { row + count } else { ls.len() as int };
        Some(spec_join(ls.subrange(row, end)))
    } else {
        None
    }
}

/// How many lines a count covers from `row` on a text of `n` lines.
pub open spec fn spec_covered(row: int, count: int, n: int) -> int {
    if row + count <= n { count } else { n - row }
}

/// `yy` with a count (see [`clipboard_op`]).
pub open spec fn spec_yank_line(o: EditState, n: EditState, count: usize, r: ClipOutcome) -> bool {
    &&& !r.type_editor_delete
    &&& if o.panel == Panel::Request && o.field_editing {
        &&& n == (EditState { pending_key: None, yank_buffer: n.yank_buffer, ..o })
        &&& n.yank_buffer@ == o.field.text@
        &&& r.clipboard.is_some() && r.clipboard.unwrap()@ == o.field.text@
        &&& r.status == Some(ClipStatus::YankedField)
    } else {
        let (text, row) = if o.panel == Panel::Body {
            (o.body.text@, o.body.row as int)
        } else if spec_in_type_editor(o) {
            (o.type_buf.text@, o.type_buf.row as int)
        } else {
            (o.resp_text@, o.resp_cursor.0 as int)
        };
        let shown = o.panel == Panel::Body || o.panel == Panel::Response;
        match spec_yanked(text, row, count as int) {
            Some(y) if shown => {
                let k = spec_covered(row, count as int, spec_line_count(text));
                &&& n == (EditState { pending_key: None, yank_buffer: n.yank_buffer, ..o })
                &&& n.yank_buffer@ == y.push(10u8)
                &&& r.clipboard.is_some() && r.clipboard.unwrap()@ == y
                &&& r.status == Some(if o.panel == Panel::Body && count > 1 {
                    ClipStatus::YankedLines(k as usize)
                } else {
                    ClipStatus::YankedLine
                })
            },
            _ => n == (EditState { pending_key: None, ..o }) && r.clipboard.is_none() && r.status.is_none(),
        }
    }
}

/// `dd` with a count (see [`clipboard_op`]).
pub open spec fn spec_delete_line(o: EditState, n: EditState, count: usize, r: ClipOutcome) -> bool {
    if o.panel == Panel::Body {
        match spec_yanked(o.body.text@, o.body.row as int, count as int) {
            Some(y) => {
                let k = spec_covered(o.body.row as int, count as int, spec_line_count(o.body.text@));
                let after = spec_delete_lines((o.body.text@, o.body.row as int, o.body.col as int), k as nat);
                &&& n == (EditState { pending_key: None, yank_buffer: n.yank_buffer, body: n.body, body_undo: n.body_undo, ..o })
                &&& n.yank_buffer@ == y.push(10u8)
                &&& r.clipboard.is_some() && r.clipboard.unwrap()@ == y.push(10u8)
                &&& spec_body_undo_pushed(o.body_undo, n.body_undo, o.body.text@, o.body.row, o.body.col)
                &&& (n.body.text@, n.body.row as int, n.body.col as int) == after
                &&& r.status == Some(if count > 1 { ClipStatus::LinesDeleted(k as usize) } else { ClipStatus::LineDeleted })
                &&& !r.type_editor_delete
            },
            None => n == (EditState { pending_key: None, ..o }) && r.clipboard.is_none() && r.status.is_none() && !r.type_editor_delete,
        }
    } else if spec_in_type_editor(o) {
        n == (EditState { pending_key: None, ..o }) && r.clipboard.is_none() && r.status.is_none() && r.type_editor_delete
    } else if o.panel == Panel::Request && o.field_editing {
        &&& n == (EditState { pending_key: None, yank_buffer: n.yank_buffer, field: n.field, field_undo: n.field_undo, ..o })
        &&& spec_field_undo_pushed(o.field_undo, n.field_undo, o)
        &&& n.yank_buffer@ == o.field.text@
        &&& r.clipboard.is_some() && r.clipboard.unwrap()@ == o.field.text@
        &&& n.field.text@.len() == 0 && n.field.cursor == 0
        &&& r.status == Some(ClipStatus::FieldCleared)
        &&& !r.type_editor_delete
    } else {
        n == (EditState { pending_key: None, ..o }) && r.clipboard.is_none() && r.status.is_none() && !r.type_editor_delete
    }
}

/// A copy of `v`.
fn copy_bytes(v: &Vec<u8>) -> (r: Vec<u8>)
    ensures
        r@ == v@,
{
    let r = copy_range(v.as_slice(), 0, v.len());
    proof {
        assert(r@ =~= v@);
    }
    r
}

/// `v` with a line feed after it.
fn with_newline(v: &Vec<u8>) -> (r: Vec<u8>)
    ensures
        r@ == v@.push(10u8),
{
    let mut r = copy_bytes(v);
    r.push(10u8);
    r
}

/// `yy` / `dd` with a count, the pending key cleared first.
///
/// `yy`: in a request field being edited, the whole field is yanked; in
/// the body, the type editor and the response, lines from the cursor's
/// on (fewer at the end) are yanked with a line feed after them, and the
/// clipboard gets them without it; past the last line nothing happens.
///
/// `dd`: in the body, the covered lines are deleted one by one at the
/// cursor, after an undo snapshot; they are yanked with a line feed after
/// them and so copied. In a request field being edited, the field is
/// yanked and cleared. The type editor does its own deletion.
pub fn clipboard_op(st: &mut EditState, op: ClipOp, count: usize) -> (r: ClipOutcome)
    requires
        spec_edit_wf(*old(st)),
    ensures
        spec_edit_wf(*final(st)),
        op == ClipOp::YankLine ==> spec_yank_line(*old(st), *final(st), count, r),
        op == ClipOp::DeleteLine ==> spec_delete_line(*old(st), *final(st), count, r),
{
    st.pending_key = None;
    let none = ClipOutcome { clipboard: None, status: None, type_editor_delete: false };
    match op {
        ClipOp::YankLine => {
            if st.panel == Panel::Request && st.field_editing {
                st.yank_buffer = copy_bytes(&st.field.text);
                return ClipOutcome {
                    clipboard: Some(copy_bytes(&st.field.text)),
                    status: Some(ClipStatus::YankedField),
                    type_editor_delete: false,
                };
            }
            if st.panel != Panel::Body && st.panel != Panel::Response {
                return none;
            }
            let in_type = st.panel == Panel::Response && st.type_editor;
            let tb = if st.panel == Panel::Body {
                TextBuffer::new(copy_bytes(&st.body.text), st.body.row, 0)
            } else if in_type {
                TextBuffer::new(copy_bytes(&st.type_buf.text), st.type_buf.row, 0)
            } else {
                TextBuffer::new(copy_bytes(&st.resp_text), st.resp_cursor.0, 0)
            };
            let n = line_count(tb.text.as_slice());
            match tb.yank_lines(count) {
                Some(y) => {
                    let k = if count <= n - tb.row { count } else { n - tb.row };
                    st.yank_buffer = with_newline(&y);
                    let status = if st.panel == Panel::Body && count > 1 {
                        ClipStatus::YankedLines(k)
                    } else {
                        ClipStatus::YankedLine
                    };
                    ClipOutcome { clipboard: Some(y), status: Some(status), type_editor_delete: false }
                },
                None => none,
            }
        },
        ClipOp::DeleteLine => {
            if st.panel == Panel::Body {
                let n = line_count(st.body.text.as_slice());
                match st.body.yank_lines(count) {
                    Some(y) => {
                        let k = if count <= n - st.body.row { count } else { n - st.body.row };
                        st.yank_buffer = with_newline(&y);
                        let clip = with_newline(&y);
                        push_buffer_undo(&mut st.body_undo, &st.body);
                        let ghost start = (st.body.text@, st.body.row as int, st.body.col as int);
                        let ghost pre = *st;
                        let mut j: usize = 0;
                        while j < k
                            invariant
                                j <= k,
                                *st == (EditState { body: st.body, ..pre }),
                                (st.body.text@, st.body.row as int, st.body.col as int) == spec_delete_lines(start, j as nat),
                            decreases k - j,
                        {
                            let row = st.body.row;
                            st.body.delete_line(row);
                            j = j + 1;
                        }
                        let status = if count > 1 { ClipStatus::LinesDeleted(k) } else { ClipStatus::LineDeleted };
                        ClipOutcome { clipboard: Some(clip), status: Some(status), type_editor_delete: false }
                    },
                    None => none,
                }
            } else if st.panel == Panel::Response && st.type_editor {
                ClipOutcome { clipboard: None, status: None, type_editor_delete: true }
            } else if st.panel == Panel::Request && st.field_editing {
                push_field_undo(st);
                st.yank_buffer = copy_bytes(&st.field.text);
                let clip = copy_bytes(&st.field.text);
                st.field.clear();
                ClipOutcome { clipboard: Some(clip), status: Some(ClipStatus::FieldCleared), type_editor_delete: false }
            } else {
                none
            }
        },
    }
}

} // verus!
