use vstd::prelude::*;
use vstd::utf8::encode_scalar;
use crate::field_edit::{
    char_end, char_utf8, spec_drain, spec_insert, spec_remove_char, splice,
};
use crate::vim_buffer::{
    copy_range, line_at, line_count, line_len, row_col_to_offset, spec_line, spec_line_count,
    spec_line_len, spec_row_col_to_offset,
};

verus! {

/// Byte length of the `char::is_whitespace` character encoded at `i`
/// (0 when there is none there).
pub open spec fn spec_ws_len(s: Seq<u8>, i: int) -> int {
    if i < 0 || i >= s.len() {
        0
    } else if (9 <= s[i] <= 13) || s[i] == 32 {
        1
    } else if i + 1 < s.len() && s[i] == 0xc2 && (s[i + 1] == 0x85 || s[i + 1] == 0xa0) {
        2
    } else if i + 2 < s.len() && ((s[i] == 0xe1 && s[i + 1] == 0x9a && s[i + 2] == 0x80)
        || (s[i] == 0xe2 && s[i + 1] == 0x80 && ((0x80 <= s[i + 2] <= 0x8a) || s[i + 2] == 0xa8
        || s[i + 2] == 0xa9 || s[i + 2] == 0xaf))
        || (s[i] == 0xe2 && s[i + 1] == 0x81 && s[i + 2] == 0x9f)
        || (s[i] == 0xe3 && s[i + 1] == 0x80 && s[i + 2] == 0x80)) {
        3
    } else {
        0
    }
}

/// End of the run of whitespace characters that starts at `i`.
pub open spec fn spec_ws_prefix_end(s: Seq<u8>, i: int) -> int
    decreases s.len() - i,
{
    if 0 <= i < s.len() && spec_ws_len(s, i) > 0 {
        spec_ws_prefix_end(s, i + spec_ws_len(s, i))
    } else {
        i
    }
}

/// The leading whitespace of `line`.
pub open spec fn spec_leading_ws(line: Seq<u8>) -> Seq<u8> {
    line.subrange(0, spec_ws_prefix_end(line, 0))
}

pub proof fn lemma_ws_prefix_bounds(s: Seq<u8>, i: int)
    requires
        0 <= i <= s.len(),
    ensures
        i <= spec_ws_prefix_end(s, i) <= s.len(),
    decreases s.len() - i,
{
    if i < s.len() && spec_ws_len(s, i) > 0 {
        lemma_ws_prefix_bounds(s, i + spec_ws_len(s, i));
    }
}

/// Byte length of the whitespace character at `i` (0 when none).
pub fn ws_len(s: &[u8], i: usize) -> (r: usize)
    ensures
        r == spec_ws_len(s@, i as int),
{
    let n = s.len();
    if i >= n {
        return 0;
    }
    let b = s[i];
    if (b >= 9 && b <= 13) || b == 32 {
        1
    } else if n - i > 1 && b == 0xc2 && (s[i + 1] == 0x85 || s[i + 1] == 0xa0) {
        2
    } else if n - i > 2 && ((b == 0xe1 && s[i + 1] == 0x9a && s[i + 2] == 0x80)
        || (b == 0xe2 && s[i + 1] == 0x80 && ((s[i + 2] >= 0x80 && s[i + 2] <= 0x8a)
        || s[i + 2] == 0xa8 || s[i + 2] == 0xa9 || s[i + 2] == 0xaf))
        || (b == 0xe2 && s[i + 1] == 0x81 && s[i + 2] == 0x9f)
        || (b == 0xe3 && s[i + 1] == 0x80 && s[i + 2] == 0x80)) {
        3
    } else {
        0
    }
}

/// The leading whitespace of `line`.
pub fn leading_ws(line: &[u8]) -> (r: Vec<u8>)
    ensures
        r@ == spec_leading_ws(line@),
{
    proof {
        lemma_ws_prefix_bounds(line@, 0);
    }
    let mut i: usize = 0;
    while i < line.len() && ws_len(line, i) > 0
        invariant
            0 <= i <= line@.len(),
            spec_ws_prefix_end(line@, i as int) == spec_ws_prefix_end(line@, 0),
        decreases line@.len() - i,
    {
        let w = ws_len(line, i);
        i = i + w;
    }
    copy_range(line, 0, i)
}

/// Number of line feeds in `s`.
pub open spec fn spec_count_nl(s: Seq<u8>) -> int
    decreases s.len(),
{
    if s.len() == 0 {
        0
    } else {
        spec_count_nl(s.drop_last()) + if s.last() == 10 { 1int } else { 0int }
    }
}

/// Length of what follows the last line feed of `s` (all of `s` when it
/// has none).
pub open spec fn spec_tail_len(s: Seq<u8>) -> int
    decreases s.len(),
{
    if s.len() == 0 {
        0
    } else if s.last() == 10 {
        0
    } else {
        spec_tail_len(s.drop_last()) + 1
    }
}

/// `lines` joined with single line feeds.
pub open spec fn spec_join(lines: Seq<Seq<u8>>) -> Seq<u8>
    decreases lines.len(),
{
    if lines.len() == 0 {
        Seq::empty()
    } else if lines.len() == 1 {
        lines[0]
    } else {
        spec_join(lines.drop_last()) + seq![10u8] + lines.last()
    }
}

/// The lines of `s` as `str::lines` yields them.
pub open spec fn spec_lines(s: Seq<u8>) -> Seq<Seq<u8>> {
    Seq::new(spec_line_count(s) as nat, |r: int| spec_line(s, r))
}

/// The views of a vector of byte vectors.
pub open spec fn views(v: Seq<Vec<u8>>) -> Seq<Seq<u8>> {
    Seq::new(v.len(), |i: int| v[i]@)
}

/// The lines of `text`.
pub fn split_lines(text: &[u8]) -> (r: Vec<Vec<u8>>)
    ensures
        views(r@) == spec_lines(text@),
        r@.len() == spec_line_count(text@),
        forall|i: int| 0 <= i < r@.len() ==> (#[trigger] r@[i])@ == spec_line(text@, i),
{
    let n = line_count(text);
    let mut out: Vec<Vec<u8>> = Vec::new();
    let mut i: usize = 0;
    while i < n
        invariant
            i <= n,
            n == spec_line_count(text@),
            out@.len() == i,
            forall|k: int| 0 <= k < i ==> (#[trigger] out@[k])@ == spec_line(text@, k),
        decreases n - i,
    {
        let l = line_at(text, i);
        out.push(l);
        i = i + 1;
    }
    proof {
        assert(views(out@) =~= spec_lines(text@));
    }
    out
}

/// `lines` joined with single line feeds.
pub fn join_lines(lines: &Vec<Vec<u8>>) -> (r: Vec<u8>)
    ensures
        r@ == spec_join(views(lines@)),
{
    let mut out: Vec<u8> = Vec::new();
    let mut i: usize = 0;
    while i < lines.len()
        invariant
            i <= lines@.len(),
            out@ == spec_join(views(lines@).subrange(0, i as int)),
        decreases lines@.len() - i,
    {
        proof {
            let vs = views(lines@).subrange(0, i + 1);
            assert(vs.drop_last() =~= views(lines@).subrange(0, i as int));
        }
        if i > 0 {
            out.push(10u8);
        }
        let l = &lines[i];
        let mut j: usize = 0;
        let ghost base = out@;
        while j < l.len()
            invariant
                j <= l@.len(),
                out@ == base + l@.subrange(0, j as int),
            decreases l@.len() - j,
        {
            out.push(l[j]);
            j = j + 1;
            proof {
                assert(l@.subrange(0, j as int) == l@.subrange(0, j - 1).push(l@[j - 1]));
            }
        }
        proof {
            assert(l@.subrange(0, j as int) == l@);
        }
        i = i + 1;
    }
    proof {
        assert(views(lines@).subrange(0, i as int) =~= views(lines@));
    }
    out
}

/// One line down from (`row`, `col`) in `t`: to the next line, the column
/// held within that line's limit; nothing on the last line (an empty text
/// counts as one line).
pub open spec fn spec_down_step(t: Seq<u8>, row: int, col: int, insert: bool) -> (int, int) {
    let lc = spec_line_count(t);
    let lc1 = if lc >= 1 { lc } else { 1 };
    if row + 1 < lc1 {
        let max = TextBuffer::spec_max_col(spec_line_len(t, row + 1), insert);
        (row + 1, if col <= max { col } else { max })
    } else {
        (row, col)
    }
}

/// One line up from (`row`, `col`) in `t`: to the line before, the column
/// held within its limit; nothing on the first line.
pub open spec fn spec_up_step(t: Seq<u8>, row: int, col: int, insert: bool) -> (int, int) {
    if row > 0 {
        let max = TextBuffer::spec_max_col(spec_line_len(t, row - 1), insert);
        (row - 1, if col <= max { col } else { max })
    } else {
        (row, col)
    }
}

/// The cursor after `k` single lines down (`down`) or up.
pub open spec fn spec_line_steps(t: Seq<u8>, row: int, col: int, insert: bool, down: bool, k: nat) -> (int, int)
    decreases k,
{
    if k == 0 {
        (row, col)
    } else {
        let p = spec_line_steps(t, row, col, insert, down, (k - 1) as nat);
        if down { spec_down_step(t, p.0, p.1, insert) } else { spec_up_step(t, p.0, p.1, insert) }
    }
}

/// A multi-line text (request body, response) with a (row, column) cursor,
/// columns counted in bytes.
pub struct TextBuffer {
    pub text: Vec<u8>,
    pub row: usize,
    pub col: usize,
}

impl TextBuffer {
    pub open spec fn spec_pos(&self) -> int {
        spec_row_col_to_offset(self.text@, self.row as nat, self.col as nat)
    }

    pub fn new(text: Vec<u8>, row: usize, col: usize) -> (r: TextBuffer)
        ensures
            r.text@ == text@,
            r.row == row,
            r.col == col,
    {
        TextBuffer { text, row, col }
    }

    /// Byte offset of the cursor.
    pub fn pos(&self) -> (r: usize)
        ensures
            r == self.spec_pos(),
            r <= self.text@.len(),
    {
        row_col_to_offset(&self.text, self.row, self.col)
    }

    /// Insert `c` at the cursor and move one column right.
    pub fn insert_char(&mut self, c: char)
        requires
            old(self).text@.len() + 4 <= usize::MAX,
            old(self).col < usize::MAX,
        ensures
            final(self).text@ == spec_insert(old(self).text@, old(self).spec_pos(), encode_scalar(c as u32)),
            final(self).row == old(self).row,
            final(self).col == old(self).col + 1,
    {
        let p = self.pos();
        let enc = char_utf8(c);
        let t = splice(&self.text, p, p, &enc);
        self.text = t;
        self.col = self.col + 1;
    }

    /// Insert two spaces at the cursor and move two columns right.
    pub fn insert_tab(&mut self)
        requires
            old(self).text@.len() + 2 <= usize::MAX,
            old(self).col + 2 <= usize::MAX,
        ensures
            final(self).text@ == spec_insert(old(self).text@, old(self).spec_pos(), seq![32u8, 32u8]),
            final(self).row == old(self).row,
            final(self).col == old(self).col + 2,
    {
        let p = self.pos();
        let sp: [u8; 2] = [32, 32];
        let t = splice(&self.text, p, p, &sp);
        proof {
            assert(sp@ =~= seq![32u8, 32u8]);
        }
        self.text = t;
        self.col = self.col + 2;
    }

    /// Backspace: remove the character before the cursor; removing a line
    /// feed joins the line to the previous one and puts the cursor at the
    /// end of the joined part.
    pub fn backspace(&mut self)
        ensures
            ({
                let p = old(self).spec_pos();
                if p == 0 {
                    *final(self) == *old(self)
                } else {
                    let t = spec_remove_char(old(self).text@, p - 1);
                    &&& final(self).text@ == t
                    &&& if old(self).text@[p - 1] == 10 {
                        if old(self).row > 0 {
                            &&& final(self).row == old(self).row - 1
                            &&& final(self).col == spec_line_len(t, old(self).row - 1)
                        } else {
                            final(self).row == old(self).row && final(self).col == old(self).col
                        }
                    } else {
                        &&& final(self).row == old(self).row
                        &&& final(self).col == if old(self).col > 0 { old(self).col - 1 } else { 0 }
                    }
                }
            }),
    {
        let p = self.pos();
        if p > 0 {
            let ch = self.text[p - 1];
            let e = char_end(&self.text, p - 1);
            let t = splice(&self.text, p - 1, e, &[]);
            self.text = t;
            if ch == 10 {
                if self.row > 0 {
                    self.row = self.row - 1;
                    self.col = line_len(&self.text, self.row);
                }
            } else if self.col > 0 {
                self.col = self.col - 1;
            }
        }
    }

    /// Delete key: remove the character at the cursor.
    pub fn delete_forward(&mut self)
        ensures
            final(self).row == old(self).row,
            final(self).col == old(self).col,
            old(self).spec_pos() < old(self).text@.len()
                ==> final(self).text@ == spec_remove_char(old(self).text@, old(self).spec_pos()),
            old(self).spec_pos() >= old(self).text@.len() ==> final(self).text@ == old(self).text@,
    {
        let p = self.pos();
        if p < self.text.len() {
            let e = char_end(&self.text, p);
            let t = splice(&self.text, p, e, &[]);
            self.text = t;
        }
    }

    /// Enter: split the line at the cursor; the new line starts with the
    /// current line's leading whitespace, plus two spaces after `{` or `[`.
    pub fn newline(&mut self)
        requires
            old(self).text@.len() + 3 <= usize::MAX,
            old(self).row < usize::MAX,
        ensures
            ({
                let s = old(self).text@;
                let p = old(self).spec_pos();
                let ws = spec_leading_ws(spec_line(s, old(self).row as int));
                let extra: Seq<u8> = if p > 0 && (s[p - 1] == 123 || s[p - 1] == 91) {
                    seq![32u8, 32u8]
                } else {
                    Seq::empty()
                };
                &&& final(self).text@ == spec_insert(s, p, seq![10u8] + ws + extra)
                &&& final(self).row == old(self).row + 1
                &&& final(self).col == ws.len() + extra.len()
            }),
    {
        let p = self.pos();
        let line = line_at(&self.text, self.row);
        let ws = leading_ws(&line);
        let open = p > 0 && (self.text[p - 1] == 123 || self.text[p - 1] == 91);
        let mut ins: Vec<u8> = Vec::new();
        ins.push(10u8);
        let mut i: usize = 0;
        proof {
            assert(ins@ =~= seq![10u8] + ws@.subrange(0, 0));
        }
        while i < ws.len()
            invariant
                i <= ws@.len(),
                ins@ == seq![10u8] + ws@.subrange(0, i as int),
            decreases ws@.len() - i,
        {
            ins.push(ws[i]);
            i = i + 1;
            proof {
                assert(ws@.subrange(0, i as int) == ws@.subrange(0, i - 1).push(ws@[i - 1]));
            }
        }
        proof {
            assert(ws@.subrange(0, i as int) =~= ws@);
        }
        if open {
            ins.push(32u8);
            ins.push(32u8);
        }
        proof {
            let extra: Seq<u8> = if open { seq![32u8, 32u8] } else { Seq::empty() };
            assert(ins@ =~= seq![10u8] + ws@ + extra);
            lemma_ws_prefix_bounds(line@, 0);
            assert(ws@.len() <= line@.len());
            lemma_line_len_bound(old(self).text@, old(self).row as int);
        }
        let n = ws.len() + if open { 2 } else { 0 };
        let t = splice(&self.text, p, p, &ins);
        self.text = t;
        self.row = self.row + 1;
        self.col = n;
    }

    /// Column limit on a line of length `len`: `len` in insert mode, its
    /// last byte otherwise.
    pub open spec fn spec_max_col(len: int, insert: bool) -> int {
        if insert { len } else if len > 0 { len - 1 } else { 0 }
    }

    pub fn cursor_left(&mut self)
        ensures
            final(self).text@ == old(self).text@,
            old(self).col > 0 ==> final(self).row == old(self).row && final(self).col == old(self).col - 1,
            old(self).col == 0 && old(self).row > 0 ==> final(self).row == old(self).row - 1
                && final(self).col == spec_line_len(old(self).text@, old(self).row - 1),
            old(self).col == 0 && old(self).row == 0 ==> final(self).row == 0 && final(self).col == 0,
    {
        if self.col > 0 {
            self.col = self.col - 1;
        } else if self.row > 0 {
            self.row = self.row - 1;
            self.col = line_len(&self.text, self.row);
        }
    }

    pub fn cursor_right(&mut self, insert: bool)
        ensures
            final(self).text@ == old(self).text@,
            ({
                let ll = spec_line_len(old(self).text@, old(self).row as int);
                let max = Self::spec_max_col(ll, insert);
                if old(self).col < max {
                    final(self).row == old(self).row && final(self).col == old(self).col + 1
                } else if insert && old(self).row + 1 < spec_line_count(old(self).text@) {
                    final(self).row == old(self).row + 1 && final(self).col == 0
                } else {
                    final(self).row == old(self).row && final(self).col == old(self).col
                }
            }),
    {
        let ll = line_len(&self.text, self.row);
        let max = if insert { ll } else if ll > 0 { ll - 1 } else { 0 };
        if self.col < max {
            self.col = self.col + 1;
        } else if insert && line_count(&self.text) > 0 && self.row < line_count(&self.text) - 1 {
            self.row = self.row + 1;
            self.col = 0;
        }
    }

    pub fn cursor_up(&mut self, insert: bool)
        ensures
            final(self).text@ == old(self).text@,
            old(self).row == 0 ==> final(self).row == 0 && final(self).col == old(self).col,
            old(self).row > 0 ==> {
                let max = Self::spec_max_col(spec_line_len(old(self).text@, old(self).row - 1), insert);
                &&& final(self).row == old(self).row - 1
                &&& final(self).col == if old(self).col <= max { old(self).col as int } else { max }
            },
    {
        if self.row > 0 {
            self.row = self.row - 1;
            let ll = line_len(&self.text, self.row);
            let max = if insert { ll } else if ll > 0 { ll - 1 } else { 0 };
            if self.col > max {
                self.col = max;
            }
        }
    }

    pub fn cursor_down(&mut self, insert: bool)
        ensures
            final(self).text@ == old(self).text@,
            ({
                let lc = spec_line_count(old(self).text@);
                let lc1 = if lc >= 1 { lc } else { 1 };
                if old(self).row + 1 < lc1 {
                    let max = Self::spec_max_col(spec_line_len(old(self).text@, old(self).row + 1), insert);
                    &&& final(self).row == old(self).row + 1
                    &&& final(self).col == if old(self).col <= max { old(self).col as int } else { max }
                } else {
                    final(self).row == old(self).row && final(self).col == old(self).col
                }
            }),
    {
        let lc = line_count(&self.text);
        let lc1 = if lc >= 1 { lc } else { 1 };
        if self.row < usize::MAX && self.row + 1 < lc1 {
            self.row = self.row + 1;
            let ll = line_len(&self.text, self.row);
            let max = if insert { ll } else if ll > 0 { ll - 1 } else { 0 };
            if self.col > max {
                self.col = max;
            }
        }
    }

    pub fn cursor_home(&mut self)
        ensures
            final(self).text@ == old(self).text@,
            final(self).row == old(self).row,
            final(self).col == 0,
    {
        self.col = 0;
    }

    pub fn cursor_end(&mut self, insert: bool)
        ensures
            final(self).text@ == old(self).text@,
            final(self).row == old(self).row,
            final(self).col == Self::spec_max_col(spec_line_len(old(self).text@, old(self).row as int), insert),
    {
        let ll = line_len(&self.text, self.row);
        self.col = if insert { ll } else if ll > 0 { ll - 1 } else { 0 };
    }

    /// `a`: one column right, at most the end of the line.
    pub fn append_after_cursor(&mut self)
        ensures
            final(self).text@ == old(self).text@,
            final(self).row == old(self).row,
            ({
                let ll = spec_line_len(old(self).text@, old(self).row as int);
                final(self).col == if old(self).col + 1 <= ll { old(self).col + 1 } else { ll }
            }),
    {
        let ll = line_len(&self.text, self.row);
        self.col = if self.col < ll { self.col + 1 } else { ll };
    }

    /// Leaving insert mode: the cursor may not stay past the line's last byte.
    pub fn clamp_for_normal_mode(&mut self)
        ensures
            final(self).text@ == old(self).text@,
            final(self).row == old(self).row,
            ({
                let ll = spec_line_len(old(self).text@, old(self).row as int);
                final(self).col == if ll > 0 && old(self).col > ll - 1 { ll - 1 } else { old(self).col as int }
            }),
    {
        let ll = line_len(&self.text, self.row);
        if ll > 0 && self.col > ll - 1 {
            self.col = ll - 1;
        }
    }

    /// Paste `t` at the cursor; the cursor goes to the end of the pasted text.
    pub fn paste(&mut self, t: &[u8])
        requires
            old(self).text@.len() + t@.len() <= usize::MAX,
            old(self).row + t@.len() <= usize::MAX,
            old(self).col + t@.len() <= usize::MAX,
        ensures
            t@.len() == 0 ==> *final(self) == *old(self),
            t@.len() > 0 ==> {
                &&& final(self).text@ == spec_insert(old(self).text@, old(self).spec_pos(), t@)
                &&& if spec_count_nl(t@) > 0 {
                    &&& final(self).row == old(self).row + spec_count_nl(t@)
                    &&& final(self).col == spec_tail_len(t@)
                } else {
                    &&& final(self).row == old(self).row
                    &&& final(self).col == old(self).col + t@.len()
                }
            },
    {
        if t.len() == 0 {
            return;
        }
        let p = self.pos();
        let nt = splice(&self.text, p, p, t);
        self.text = nt;
        let nl = count_newlines(t);
        if nl > 0 {
            self.row = self.row + nl;
            self.col = tail_len(t);
        } else {
            self.col = self.col + t.len();
        }
    }

    /// Offsets of the visual selection between `anchor` and the cursor:
    /// from its earlier end up to (not including) its later end.
    pub open spec fn spec_selection(&self, anchor: (usize, usize)) -> (int, int) {
        let (sr, sc, er, ec) = spec_visual_range(anchor, (self.row, self.col));
        let st = spec_row_col_to_offset(self.text@, sr as nat, sc as nat);
        let en = spec_row_col_to_offset(self.text@, er as nat, ec as nat);
        (st, en)
    }

    /// Text of the visual selection (empty when its ends are out of order).
    pub fn visual_selection(&self, anchor: (usize, usize)) -> (r: Vec<u8>)
        ensures
            ({
                let (st, en) = self.spec_selection(anchor);
                r@ == if st <= en { self.text@.subrange(st, en) } else { Seq::empty() }
            }),
    {
        let (sr, sc, er, ec) = visual_range(anchor, (self.row, self.col));
        let st = row_col_to_offset(&self.text, sr, sc);
        let en = row_col_to_offset(&self.text, er, ec);
        if st <= en {
            copy_range(&self.text, st, en)
        } else {
            Vec::new()
        }
    }

    /// Delete the visual selection; the cursor goes to its earlier end.
    pub fn delete_visual_selection(&mut self, anchor: (usize, usize))
        ensures
            ({
                let (st, en) = old(self).spec_selection(anchor);
                let (sr, sc, er, ec) = spec_visual_range(anchor, (old(self).row, old(self).col));
                &&& final(self).text@ == if st < en { spec_drain(old(self).text@, st, en) } else { old(self).text@ }
                &&& final(self).row == sr
                &&& final(self).col == sc
            }),
    {
        let (sr, sc, er, ec) = visual_range(anchor, (self.row, self.col));
        let st = row_col_to_offset(&self.text, sr, sc);
        let en = row_col_to_offset(&self.text, er, ec);
        if st < en {
            let t = splice(&self.text, st, en, &[]);
            self.text = t;
        }
        self.row = sr;
        self.col = sc;
    }

    /// Text of the block (rectangle) selection: the columns between anchor
    /// and cursor of each selected line, joined by line feeds.
    pub fn block_selection(&self, anchor: (usize, usize)) -> (r: Vec<u8>)
        ensures
            r@ == spec_join(spec_block(
                self.text@,
                min_usize(anchor.0, self.row),
                max_usize(anchor.0, self.row),
                min_usize(anchor.1, self.col),
                max_usize(anchor.1, self.col),
            )),
    {
        let r0 = if anchor.0 <= self.row { anchor.0 } else { self.row };
        let r1 = if anchor.0 <= self.row { self.row } else { anchor.0 };
        let c0 = if anchor.1 <= self.col { anchor.1 } else { self.col };
        let c1 = if anchor.1 <= self.col { self.col } else { anchor.1 };
        let lines = split_lines(&self.text);
        let n = lines.len();
        let end = if r1 < n { r1 + 1 } else { n };
        let mut parts: Vec<Vec<u8>> = Vec::new();
        if r0 < end {
            let mut r = r0;
            while r < end
                invariant
                    r0 <= r <= end <= n,
                    c0 <= c1,
                    n == spec_line_count(self.text@),
                    lines@.len() == n,
                    forall|i: int| 0 <= i < n ==> (#[trigger] lines@[i])@ == spec_line(self.text@, i),
                    parts@.len() == r - r0,
                    forall|k: int| 0 <= k < r - r0 ==> (#[trigger] parts@[k])@ == spec_clip(spec_line(self.text@, r0 + k), c0, c1),
                decreases end - r,
            {
                let piece = clip(&lines[r], c0, c1);
                parts.push(piece);
                r = r + 1;
            }
        }
        proof {
            let bl = spec_block(self.text@, r0, r1, c0, c1);
            assert(views(parts@) =~= bl);
        }
        join_lines(&parts)
    }

    /// Delete the block selection (the text is rebuilt from its lines joined
    /// by line feeds); the cursor goes to the block's top-left corner.
    pub fn delete_block_selection(&mut self, anchor: (usize, usize))
        ensures
            ({
                let r0 = min_usize(anchor.0, old(self).row);
                let r1 = max_usize(anchor.0, old(self).row);
                let c0 = min_usize(anchor.1, old(self).col);
                let c1 = max_usize(anchor.1, old(self).col);
                &&& final(self).text@ == spec_join(spec_block_removed(old(self).text@, r0, r1, c0, c1))
                &&& final(self).row == r0
                &&& final(self).col == c0
            }),
    {
        let r0 = if anchor.0 <= self.row { anchor.0 } else { self.row };
        let r1 = if anchor.0 <= self.row { self.row } else { anchor.0 };
        let c0 = if anchor.1 <= self.col { anchor.1 } else { self.col };
        let c1 = if anchor.1 <= self.col { self.col } else { anchor.1 };
        let lines = split_lines(&self.text);
        let n = lines.len();
        let mut out: Vec<Vec<u8>> = Vec::new();
        let mut r: usize = 0;
        while r < n
            invariant
                r <= n,
                c0 <= c1,
                n == spec_line_count(self.text@),
                lines@.len() == n,
                forall|i: int| 0 <= i < n ==> (#[trigger] lines@[i])@ == spec_line(self.text@, i),
                out@.len() == r,
                forall|k: int| 0 <= k < r ==> (#[trigger] out@[k])@ == (if r0 <= k <= r1 {
                    spec_unclip(spec_line(self.text@, k), c0, c1)
                } else {
                    spec_line(self.text@, k)
                }),
            decreases n - r,
        {
            let l = &lines[r];
            if r0 <= r && r <= r1 {
                let len = l.len();
                let a = if c0 <= len { c0 } else { len };
                let b = if c1 <= len { c1 } else { len };
                let piece = splice(l, a, b, &[]);
                out.push(piece);
            } else {
                let piece = copy_range(l, 0, l.len());
                proof {
                    assert(l@.subrange(0, l@.len() as int) =~= l@);
                }
                out.push(piece);
            }
            r = r + 1;
        }
        proof {
            assert(views(out@) =~= spec_block_removed(self.text@, r0, r1, c0, c1));
        }
        self.text = join_lines(&out);
        self.row = r0;
        self.col = c0;
    }
}

/// Number of line feeds in `s`.
pub fn count_newlines(s: &[u8]) -> (r: usize)
    ensures
        r == spec_count_nl(s@),
        r <= s@.len(),
{
    let mut n: usize = 0;
    let mut i: usize = 0;
    while i < s.len()
        invariant
            i <= s@.len(),
            n == spec_count_nl(s@.subrange(0, i as int)),
            n <= i,
        decreases s@.len() - i,
    {
        proof {
            assert(s@.subrange(0, i + 1).drop_last() == s@.subrange(0, i as int));
        }
        if s[i] == 10 {
            n = n + 1;
        }
        i = i + 1;
    }
    proof {
        assert(s@.subrange(0, i as int) == s@);
    }
    n
}

/// Length of what follows the last line feed of `s`.
pub fn tail_len(s: &[u8]) -> (r: usize)
    ensures
        r == spec_tail_len(s@),
        r <= s@.len(),
{
    let mut n: usize = 0;
    let mut i: usize = 0;
    while i < s.len()
        invariant
            i <= s@.len(),
            n == spec_tail_len(s@.subrange(0, i as int)),
            n <= i,
        decreases s@.len() - i,
    {
        proof {
            assert(s@.subrange(0, i + 1).drop_last() == s@.subrange(0, i as int));
        }
        if s[i] == 10 {
            n = 0;
        } else {
            n = n + 1;
        }
        i = i + 1;
    }
    proof {
        assert(s@.subrange(0, i as int) == s@);
    }
    n
}

/// `a <= b` for (row, column) pairs in reading order.
pub open spec fn spec_pair_le(a: (usize, usize), b: (usize, usize)) -> bool {
    a.0 < b.0 || (a.0 == b.0 && a.1 <= b.1)
}

/// The visual range between `anchor` and `cursor`, earlier end first.
pub open spec fn spec_visual_range(anchor: (usize, usize), cursor: (usize, usize)) -> (
    usize,
    usize,
    usize,
    usize,
) {
    if spec_pair_le(anchor, cursor) {
        (anchor.0, anchor.1, cursor.0, cursor.1)
    } else {
        (cursor.0, cursor.1, anchor.0, anchor.1)
    }
}

/// The visual range between `anchor` and `cursor`, earlier end first.
pub fn visual_range(anchor: (usize, usize), cursor: (usize, usize)) -> (r: (
    usize,
    usize,
    usize,
    usize,
))
    ensures
        r == spec_visual_range(anchor, cursor),
{
    if anchor.0 < cursor.0 || (anchor.0 == cursor.0 && anchor.1 <= cursor.1) {
        (anchor.0, anchor.1, cursor.0, cursor.1)
    } else {
        (cursor.0, cursor.1, anchor.0, anchor.1)
    }
}

pub open spec fn min_usize(a: usize, b: usize) -> usize {
    if a <= b { a } else { b }
}

pub open spec fn max_usize(a: usize, b: usize) -> usize {
    if a <= b { b } else { a }
}

/// `line[min(c0, len)..min(c1, len)]`.
pub open spec fn spec_clip(line: Seq<u8>, c0: usize, c1: usize) -> Seq<u8> {
    let a = if c0 <= line.len() { c0 as int } else { line.len() as int };
    let b = if c1 <= line.len() { c1 as int } else { line.len() as int };
    line.subrange(a, b)
}

/// `line` without `[min(c0, len), min(c1, len))`.
pub open spec fn spec_unclip(line: Seq<u8>, c0: usize, c1: usize) -> Seq<u8> {
    let a = if c0 <= line.len() { c0 as int } else { line.len() as int };
    let b = if c1 <= line.len() { c1 as int } else { line.len() as int };
    spec_drain(line, a, b)
}

/// The columns `[c0, c1)` of the lines `r0..=r1` that exist.
pub open spec fn spec_block(s: Seq<u8>, r0: usize, r1: usize, c0: usize, c1: usize) -> Seq<Seq<u8>> {
    let end = if r1 + 1 <= spec_line_count(s) { r1 + 1 } else { spec_line_count(s) };
    let n = if end >= r0 { end - r0 } else { 0 };
    Seq::new(n as nat, |k: int| spec_clip(spec_line(s, r0 + k), c0, c1))
}

/// The lines of `s` with the columns `[c0, c1)` of rows `r0..=r1` removed.
pub open spec fn spec_block_removed(s: Seq<u8>, r0: usize, r1: usize, c0: usize, c1: usize) -> Seq<Seq<u8>> {
    Seq::new(
        spec_line_count(s) as nat,
        |r: int| if r0 <= r <= r1 { spec_unclip(spec_line(s, r), c0, c1) } else { spec_line(s, r) },
    )
}

/// `line[min(c0, len)..min(c1, len)]`.
fn clip(line: &[u8], c0: usize, c1: usize) -> (r: Vec<u8>)
    requires
        c0 <= c1,
    ensures
        r@ == spec_clip(line@, c0, c1),
{
    let n = line.len();
    let a = if c0 <= n { c0 } else { n };
    let b = if c1 <= n { c1 } else { n };
    copy_range(line, a, b)
}

/// Vim `e` landing on the next line: the end of its first word (its end
/// when it holds only whitespace).
pub open spec fn spec_first_word_end(line: Seq<u8>) -> int {
    let c0 = crate::vim_buffer::run_end(line, 0, crate::vim_buffer::ByteClass::Space);
    if c0 < line.len() {
        crate::vim_buffer::run_end(line, c0, crate::vim_buffer::class_of(line[c0])) - 1
    } else {
        c0
    }
}

impl TextBuffer {
    /// Remove line `row` (the text is rebuilt from its lines joined by line
    /// feeds) and keep the cursor on an existing line.
    pub fn delete_line(&mut self, row: usize)
        ensures
            row >= spec_line_count(old(self).text@) ==> *final(self) == *old(self),
            row < spec_line_count(old(self).text@) ==> {
                let t = spec_join(spec_lines(old(self).text@).remove(row as int));
                let lc = spec_line_count(t);
                let max_row = if lc > 0 { lc - 1 } else { 0 };
                let new_row = if old(self).row <= max_row { old(self).row as int } else { max_row };
                let ll = spec_line_len(t, new_row);
                &&& final(self).text@ == t
                &&& final(self).row == new_row
                &&& final(self).col == if old(self).col <= ll { old(self).col as int } else { ll }
            },
    {
        let mut lines = split_lines(&self.text);
        if row < lines.len() {
            let ghost before = views(lines@);
            lines.remove(row);
            proof {
                assert(views(lines@) =~= before.remove(row as int));
            }
            self.text = join_lines(&lines);
            let lc = line_count(&self.text);
            let max_row = if lc > 0 { lc - 1 } else { 0 };
            if self.row > max_row {
                self.row = max_row;
            }
            let ll = line_len(&self.text, self.row);
            if self.col > ll {
                self.col = ll;
            }
        }
    }

    /// `x`: delete the character under the cursor unless it is a line feed,
    /// keeping the cursor on the line.
    pub fn delete_char_under_cursor(&mut self)
        ensures
            final(self).row == old(self).row,
            ({
                let p = old(self).spec_pos();
                if p < old(self).text@.len() && old(self).text@[p] != 10 {
                    let t = spec_remove_char(old(self).text@, p);
                    let ll = spec_line_len(t, old(self).row as int);
                    let m = if ll > 0 { ll - 1 } else { 0 };
                    &&& final(self).text@ == t
                    &&& final(self).col == if old(self).col <= m { old(self).col as int } else { m }
                } else {
                    final(self).text@ == old(self).text@ && final(self).col == old(self).col
                }
            }),
    {
        let p = self.pos();
        if p < self.text.len() && self.text[p] != 10 {
            let e = char_end(&self.text, p);
            let t = splice(&self.text, p, e, &[]);
            self.text = t;
            let ll = line_len(&self.text, self.row);
            let m = if ll > 0 { ll - 1 } else { 0 };
            if self.col > m {
                self.col = m;
            }
        }
    }

    /// `r`: replace the character under the cursor unless it is a line feed.
    pub fn replace_char(&mut self, c: char)
        requires
            old(self).text@.len() + 4 <= usize::MAX,
        ensures
            final(self).row == old(self).row,
            final(self).col == old(self).col,
            ({
                let p = old(self).spec_pos();
                final(self).text@ == if p < old(self).text@.len() && old(self).text@[p] != 10 {
                    spec_insert(spec_remove_char(old(self).text@, p), p, encode_scalar(c as u32))
                } else {
                    old(self).text@
                }
            }),
    {
        let p = self.pos();
        if p < self.text.len() && self.text[p] != 10 {
            let e = char_end(&self.text, p);
            let enc = char_utf8(c);
            let removed = splice(&self.text, p, e, &[]);
            let t = splice(&removed, p, p, &enc);
            self.text = t;
        }
    }

    /// `w` over lines: to the next word; past the end of the line, to the
    /// start of the next line.
    pub fn word_forward(&mut self)
        ensures
            final(self).text@ == old(self).text@,
            ({
                let s = old(self).text@;
                let lc = spec_line_count(s);
                if old(self).row < lc {
                    let line = spec_line(s, old(self).row as int);
                    let e = crate::vim_buffer::spec_word_end_forward(line, old(self).col as int);
                    if e >= line.len() && old(self).row + 1 < lc {
                        final(self).row == old(self).row + 1 && final(self).col == 0
                    } else {
                        final(self).row == old(self).row && final(self).col == if e <= line.len() { e } else { line.len() as int }
                    }
                } else {
                    final(self).row == old(self).row && final(self).col == old(self).col
                }
            }),
    {
        let lc = line_count(&self.text);
        if self.row < lc {
            let line = line_at(&self.text, self.row);
            let e = crate::vim_buffer::word_end_forward(&line, self.col);
            if e >= line.len() && self.row < lc - 1 {
                self.row = self.row + 1;
                self.col = 0;
            } else {
                self.col = if e <= line.len() { e } else { line.len() };
            }
        }
    }

    /// `b` over lines: to the previous word; at the start of a line, to the
    /// end of the previous line.
    pub fn word_backward(&mut self)
        requires
            old(self).row < spec_line_count(old(self).text@)
                ==> old(self).col <= spec_line_len(old(self).text@, old(self).row as int),
        ensures
            final(self).text@ == old(self).text@,
            ({
                let s = old(self).text@;
                if old(self).row < spec_line_count(s) {
                    if old(self).col == 0 {
                        if old(self).row > 0 {
                            final(self).row == old(self).row - 1
                                && final(self).col == spec_line_len(s, old(self).row - 1)
                        } else {
                            final(self).row == 0 && final(self).col == 0
                        }
                    } else {
                        final(self).row == old(self).row && final(self).col
                            == crate::vim_buffer::spec_word_start_backward(spec_line(s, old(self).row as int), old(self).col as int)
                    }
                } else {
                    final(self).row == old(self).row && final(self).col == old(self).col
                }
            }),
    {
        let lc = line_count(&self.text);
        if self.row < lc {
            if self.col == 0 {
                if self.row > 0 {
                    self.row = self.row - 1;
                    self.col = line_len(&self.text, self.row);
                }
            } else {
                let line = line_at(&self.text, self.row);
                proof {
                    crate::vim_buffer::lemma_line_bounds(self.text@, self.row as nat);
                }
                self.col = crate::vim_buffer::word_start_backward(&line, self.col);
            }
        }
    }

    /// `e` over lines: to the end of the word; at the end of the line, to
    /// the end of the first word of the next line.
    pub fn word_end(&mut self)
        ensures
            final(self).text@ == old(self).text@,
            ({
                let s = old(self).text@;
                let lc = spec_line_count(s);
                if old(self).row < lc {
                    let line = spec_line(s, old(self).row as int);
                    if old(self).col + 1 >= line.len() {
                        if old(self).row + 1 < lc {
                            final(self).row == old(self).row + 1
                                && final(self).col == spec_first_word_end(spec_line(s, old(self).row + 1))
                        } else {
                            final(self).row == old(self).row && final(self).col == old(self).col
                        }
                    } else {
                        final(self).row == old(self).row && final(self).col
                            == crate::vim_buffer::spec_word_end_inline(line, old(self).col as int)
                    }
                } else {
                    final(self).row == old(self).row && final(self).col == old(self).col
                }
            }),
    {
        let lc = line_count(&self.text);
        if self.row < lc {
            let line = line_at(&self.text, self.row);
            if self.col >= line.len() || self.col + 1 >= line.len() {
                if self.row < lc - 1 {
                    self.row = self.row + 1;
                    let next = line_at(&self.text, self.row);
                    self.col = first_word_end(&next);
                }
            } else {
                self.col = crate::vim_buffer::word_end_inline(&line, self.col);
            }
        }
    }

    /// `cc`: empty the cursor's line (its line feed stays) and return what
    /// it held; the cursor goes to column 0.
    pub fn change_line(&mut self) -> (r: Option<Vec<u8>>)
        ensures
            final(self).row == old(self).row,
            final(self).col == 0,
            ({
                let s = old(self).text@;
                if old(self).row < spec_line_count(s) {
                    let st = spec_row_col_to_offset(s, old(self).row as nat, 0);
                    let line = spec_line(s, old(self).row as int);
                    &&& r.is_some() && r.unwrap()@ == line
                    &&& final(self).text@ == spec_drain(s, st, st + line.len())
                } else {
                    r.is_none() && final(self).text@ == s
                }
            }),
    {
        let lc = line_count(&self.text);
        if self.row < lc {
            let line = line_at(&self.text, self.row);
            let st = row_col_to_offset(&self.text, self.row, 0);
            proof {
                crate::vim_buffer::lemma_line_bounds(self.text@, self.row as nat);
                assert(st == crate::vim_buffer::spec_line_start(self.text@, self.row as nat));
                assert(line@.len() == crate::vim_buffer::spec_line_end(self.text@, self.row as nat) - st);
            }
            let tl = self.text.len();
            assert(st + line@.len() <= tl);
            let en = st + line.len();
            let t = splice(&self.text, st, en, &[]);
            self.text = t;
            self.col = 0;
            Some(line)
        } else {
            self.col = 0;
            None
        }
    }

    /// `C`: cut from the cursor to the end of its line and return it.
    pub fn change_to_end(&mut self) -> (r: Option<Vec<u8>>)
        ensures
            final(self).row == old(self).row,
            final(self).col == old(self).col,
            ({
                let s = old(self).text@;
                let line = spec_line(s, old(self).row as int);
                if old(self).row < spec_line_count(s) && old(self).col < line.len() {
                    let st = spec_row_col_to_offset(s, old(self).row as nat, old(self).col as nat);
                    let en = spec_row_col_to_offset(s, old(self).row as nat, line.len());
                    &&& r.is_some() && r.unwrap()@ == line.subrange(old(self).col as int, line.len() as int)
                    &&& final(self).text@ == spec_drain(s, st, en)
                } else {
                    r.is_none() && final(self).text@ == s
                }
            }),
    {
        let lc = line_count(&self.text);
        if self.row < lc {
            let line = line_at(&self.text, self.row);
            if self.col < line.len() {
                let y = copy_range(&line, self.col, line.len());
                let st = row_col_to_offset(&self.text, self.row, self.col);
                let en = row_col_to_offset(&self.text, self.row, line.len());
                proof {
                    crate::vim_buffer::lemma_offset_from_bounds(self.text@, 0, self.row as nat, self.col as nat);
                    lemma_offset_monotone(self.text@, 0, self.row as nat, self.col as nat, line.len() as nat);
                }
                let t = splice(&self.text, st, en, &[]);
                self.text = t;
                return Some(y);
            }
        }
        None
    }

    /// `yy` with a count: lines `row..row + count` joined by line feeds.
    pub fn yank_lines(&self, count: usize) -> (r: Option<Vec<u8>>)
        ensures
            ({
                let ls = spec_lines(self.text@);
                if self.row < ls.len() {
                    let end = if self.row + count <= ls.len() { self.row + count } else { ls.len() as int };
                    r.is_some() && r.unwrap()@ == spec_join(ls.subrange(self.row as int, end))
                } else {
                    r.is_none()
                }
            }),
    {
        let lines = split_lines(&self.text);
        let n = lines.len();
        if self.row < n {
            let end = if count <= n - self.row { self.row + count } else { n };
            let mut part: Vec<Vec<u8>> = Vec::new();
            let mut r = self.row;
            while r < end
                invariant
                    self.row <= r <= end <= n,
                    lines@.len() == n,
                    views(lines@) == spec_lines(self.text@),
                    part@.len() == r - self.row,
                    forall|k: int| 0 <= k < r - self.row ==> (#[trigger] part@[k])@ == lines@[self.row + k]@,
                decreases end - r,
            {
                let piece = copy_range(&lines[r], 0, lines[r].len());
                proof {
                    assert(lines@[r as int]@.subrange(0, lines@[r as int]@.len() as int) =~= lines@[r as int]@);
                }
                part.push(piece);
                r = r + 1;
            }
            proof {
                assert(views(part@) =~= spec_lines(self.text@).subrange(self.row as int, end as int));
            }
            Some(join_lines(&part))
        } else {
            None
        }
    }
}

impl TextBuffer {
    /// `y$`: the cursor's line from the cursor on, when the cursor is on
    /// one of its characters.
    pub fn yank_to_end(&self) -> (r: Option<Vec<u8>>)
        ensures
            ({
                let line = spec_line(self.text@, self.row as int);
                if self.row < spec_line_count(self.text@) && self.col < line.len() {
                    r.is_some() && r.unwrap()@ == line.subrange(self.col as int, line.len() as int)
                } else {
                    r.is_none()
                }
            }),
    {
        let lc = line_count(&self.text);
        if self.row < lc {
            let line = line_at(&self.text, self.row);
            if self.col < line.len() {
                return Some(copy_range(&line, self.col, line.len()));
            }
        }
        None
    }

    /// `y0`: the cursor's line up to the cursor, when the cursor is past
    /// its first column.
    pub fn yank_to_start(&self) -> (r: Option<Vec<u8>>)
        requires
            self.row < spec_line_count(self.text@) ==> self.col <= spec_line_len(self.text@, self.row as int),
        ensures
            ({
                let line = spec_line(self.text@, self.row as int);
                if self.row < spec_line_count(self.text@) && self.col > 0 {
                    r.is_some() && r.unwrap()@ == line.subrange(0, self.col as int)
                } else {
                    r.is_none()
                }
            }),
    {
        let lc = line_count(&self.text);
        if self.row < lc && self.col > 0 {
            let line = line_at(&self.text, self.row);
            proof {
                crate::vim_buffer::lemma_line_bounds(self.text@, self.row as nat);
            }
            return Some(copy_range(&line, 0, self.col));
        }
        None
    }

    /// `D`: cut from the cursor to the end of its line and return it; the
    /// cursor then stays on the line's last character.
    pub fn delete_to_end(&mut self) -> (r: Option<Vec<u8>>)
        ensures
            final(self).row == old(self).row,
            ({
                let s = old(self).text@;
                let line = spec_line(s, old(self).row as int);
                if old(self).row < spec_line_count(s) && old(self).col < line.len() {
                    let st = spec_row_col_to_offset(s, old(self).row as nat, old(self).col as nat);
                    let en = spec_row_col_to_offset(s, old(self).row as nat, line.len());
                    let t = spec_drain(s, st, en);
                    let ll = spec_line_len(t, old(self).row as int);
                    &&& r.is_some() && r.unwrap()@ == line.subrange(old(self).col as int, line.len() as int)
                    &&& final(self).text@ == t
                    &&& final(self).col == if ll > 0 { if old(self).col <= ll - 1 { old(self).col as int } else { ll - 1 } } else { 0 }
                } else {
                    &&& r.is_none()
                    &&& final(self).text@ == s
                    &&& final(self).col == old(self).col
                }
            }),
    {
        let r = self.change_to_end();
        match &r {
            Some(_) => {
                let ll = line_len(&self.text, self.row);
                self.col = if ll > 0 { if self.col <= ll - 1 { self.col } else { ll - 1 } } else { 0 };
            },
            None => {},
        }
        r
    }

    /// `d0`: cut the cursor's line up to the cursor and return it; the
    /// cursor goes to column 0.
    pub fn delete_to_start(&mut self) -> (r: Option<Vec<u8>>)
        requires
            old(self).row < spec_line_count(old(self).text@) ==> old(self).col <= spec_line_len(old(self).text@, old(self).row as int),
        ensures
            final(self).row == old(self).row,
            ({
                let s = old(self).text@;
                let line = spec_line(s, old(self).row as int);
                if old(self).row < spec_line_count(s) && old(self).col > 0 {
                    let st = spec_row_col_to_offset(s, old(self).row as nat, 0);
                    let en = spec_row_col_to_offset(s, old(self).row as nat, old(self).col as nat);
                    &&& r.is_some() && r.unwrap()@ == line.subrange(0, old(self).col as int)
                    &&& final(self).text@ == spec_drain(s, st, en)
                    &&& final(self).col == 0
                } else {
                    &&& r.is_none()
                    &&& final(self).text@ == s
                    &&& final(self).col == old(self).col
                }
            }),
    {
        let lc = line_count(&self.text);
        if self.row < lc && self.col > 0 {
            let line = line_at(&self.text, self.row);
            proof {
                crate::vim_buffer::lemma_line_bounds(self.text@, self.row as nat);
            }
            let y = copy_range(&line, 0, self.col);
            let st = row_col_to_offset(&self.text, self.row, 0);
            let en = row_col_to_offset(&self.text, self.row, self.col);
            proof {
                crate::vim_buffer::lemma_offset_from_bounds(self.text@, 0, self.row as nat, self.col as nat);
                lemma_offset_monotone(self.text@, 0, self.row as nat, 0, self.col as nat);
            }
            let t = splice(&self.text, st, en, &[]);
            self.text = t;
            self.col = 0;
            return Some(y);
        }
        None
    }

    /// `dw`: cut from the cursor to the start of the next word on its line
    /// and return it; the cursor then stays within the line.
    pub fn delete_word(&mut self) -> (r: Option<Vec<u8>>)
        requires
            old(self).row < spec_line_count(old(self).text@) ==> old(self).col <= spec_line_len(old(self).text@, old(self).row as int),
        ensures
            final(self).row == old(self).row,
            ({
                let s = old(self).text@;
                let line = spec_line(s, old(self).row as int);
                if old(self).row < spec_line_count(s) {
                    let e = crate::vim_buffer::spec_word_end_forward(line, old(self).col as int);
                    let st = spec_row_col_to_offset(s, old(self).row as nat, old(self).col as nat);
                    let en = spec_row_col_to_offset(s, old(self).row as nat, e as nat);
                    let t = spec_drain(s, st, en);
                    let ll = spec_line_len(t, old(self).row as int);
                    let m = if ll > 0 { ll - 1 } else { 0 };
                    &&& r.is_some() && r.unwrap()@ == line.subrange(old(self).col as int, e)
                    &&& final(self).text@ == t
                    &&& final(self).col == if old(self).col <= m { old(self).col as int } else { m }
                } else {
                    &&& r.is_none()
                    &&& final(self).text@ == s
                    &&& final(self).col == old(self).col
                }
            }),
    {
        let lc = line_count(&self.text);
        if self.row < lc {
            let line = line_at(&self.text, self.row);
            proof {
                crate::vim_buffer::lemma_line_bounds(self.text@, self.row as nat);
            }
            let e = crate::vim_buffer::word_end_forward(&line, self.col);
            let y = copy_range(&line, self.col, e);
            let st = row_col_to_offset(&self.text, self.row, self.col);
            let en = row_col_to_offset(&self.text, self.row, e);
            proof {
                crate::vim_buffer::lemma_offset_from_bounds(self.text@, 0, self.row as nat, e as nat);
                lemma_offset_monotone(self.text@, 0, self.row as nat, self.col as nat, e as nat);
            }
            let t = splice(&self.text, st, en, &[]);
            self.text = t;
            let ll = line_len(&self.text, self.row);
            let m = if ll > 0 { ll - 1 } else { 0 };
            if self.col > m {
                self.col = m;
            }
            return Some(y);
        }
        None
    }
}

impl TextBuffer {
    /// `dG`: cut from the start of the cursor's line to the end of the text
    /// (with the line feed before it) and return those lines joined; the
    /// cursor then stays within what is left.
    pub fn delete_to_bottom(&mut self) -> (r: Option<Vec<u8>>)
        ensures
            ({
                let s = old(self).text@;
                let ls = spec_lines(s);
                if old(self).row < ls.len() {
                    let st = spec_row_col_to_offset(s, old(self).row as nat, 0);
                    let ds = if old(self).row > 0 && st > 0 { st - 1 } else { st };
                    let t = s.subrange(0, ds);
                    let lc = spec_line_count(t);
                    let max_row = if lc > 0 { lc - 1 } else { 0 };
                    let row = if old(self).row <= max_row { old(self).row as int } else { max_row };
                    let ll = spec_line_len(t, row);
                    let m = if ll > 0 { ll - 1 } else { 0 };
                    &&& r.is_some() && r.unwrap()@ == spec_join(ls.subrange(old(self).row as int, ls.len() as int))
                    &&& final(self).text@ == t
                    &&& final(self).row == row
                    &&& final(self).col == if old(self).col <= m { old(self).col as int } else { m }
                } else {
                    &&& r.is_none()
                    &&& final(self).text@ == s
                    &&& final(self).row == old(self).row
                    &&& final(self).col == old(self).col
                }
            }),
    {
        let n = line_count(&self.text);
        if self.row < n {
            let y = self.yank_lines(n - self.row);
            let st = row_col_to_offset(&self.text, self.row, 0);
            let ds = if self.row > 0 && st > 0 { st - 1 } else { st };
            let t = copy_range(&self.text, 0, ds);
            self.text = t;
            let lc = line_count(&self.text);
            let max_row = if lc > 0 { lc - 1 } else { 0 };
            if self.row > max_row {
                self.row = max_row;
            }
            let ll = line_len(&self.text, self.row);
            let m = if ll > 0 { ll - 1 } else { 0 };
            if self.col > m {
                self.col = m;
            }
            return y;
        }
        None
    }
}

impl TextBuffer {
    /// A line motion typed with a count (`j`/`k`, scrolling the body):
    /// `count` single lines down, or up.
    pub fn cursor_lines_by(&mut self, count: usize, insert: bool, down: bool)
        ensures
            final(self).text@ == old(self).text@,
            (final(self).row as int, final(self).col as int)
                == spec_line_steps(old(self).text@, old(self).row as int, old(self).col as int, insert, down, count as nat),
    {
        let mut i: usize = 0;
        while i < count
            invariant
                i <= count,
                self.text@ == old(self).text@,
                (self.row as int, self.col as int)
                    == spec_line_steps(old(self).text@, old(self).row as int, old(self).col as int, insert, down, i as nat),
            decreases count - i,
        {
            if down {
                self.cursor_down(insert);
            } else {
                self.cursor_up(insert);
            }
            i = i + 1;
        }
    }
}

impl TextBuffer {
    /// `db`: cut from the start of the word before the cursor to the cursor
    /// and return it; the cursor goes to where the cut began.
    pub fn delete_word_back(&mut self) -> (r: Option<Vec<u8>>)
        requires
            old(self).row < spec_line_count(old(self).text@) ==> old(self).col <= spec_line_len(old(self).text@, old(self).row as int),
        ensures
            final(self).row == old(self).row,
            ({
                let s = old(self).text@;
                let line = spec_line(s, old(self).row as int);
                if old(self).row < spec_line_count(s) {
                    let b = crate::vim_buffer::spec_word_start_backward(line, old(self).col as int);
                    let st = spec_row_col_to_offset(s, old(self).row as nat, b as nat);
                    let en = spec_row_col_to_offset(s, old(self).row as nat, old(self).col as nat);
                    &&& r.is_some() && r.unwrap()@ == line.subrange(b, old(self).col as int)
                    &&& final(self).text@ == spec_drain(s, st, en)
                    &&& final(self).col == b
                } else {
                    &&& r.is_none()
                    &&& final(self).text@ == s
                    &&& final(self).col == old(self).col
                }
            }),
    {
        let lc = line_count(&self.text);
        if self.row < lc {
            let line = line_at(&self.text, self.row);
            proof {
                crate::vim_buffer::lemma_line_bounds(self.text@, self.row as nat);
            }
            let b = crate::vim_buffer::word_start_backward(&line, self.col);
            let y = copy_range(&line, b, self.col);
            let st = row_col_to_offset(&self.text, self.row, b);
            let en = row_col_to_offset(&self.text, self.row, self.col);
            proof {
                crate::vim_buffer::lemma_offset_from_bounds(self.text@, 0, self.row as nat, self.col as nat);
                lemma_offset_monotone(self.text@, 0, self.row as nat, b as nat, self.col as nat);
            }
            let t = splice(&self.text, st, en, &[]);
            self.text = t;
            self.col = b;
            return Some(y);
        }
        None
    }

    /// `de`: cut from the cursor to the end of the word and return it; the
    /// cursor then stays within the line.
    pub fn delete_word_end(&mut self) -> (r: Option<Vec<u8>>)
        requires
            old(self).row < spec_line_count(old(self).text@) ==> old(self).col <= spec_line_len(old(self).text@, old(self).row as int),
        ensures
            final(self).row == old(self).row,
            ({
                let s = old(self).text@;
                let line = spec_line(s, old(self).row as int);
                if old(self).row < spec_line_count(s) {
                    let e = crate::vim_buffer::spec_word_run_end(line, old(self).col as int);
                    let st = spec_row_col_to_offset(s, old(self).row as nat, old(self).col as nat);
                    let en = spec_row_col_to_offset(s, old(self).row as nat, e as nat);
                    let t = spec_drain(s, st, en);
                    let ll = spec_line_len(t, old(self).row as int);
                    let m = if ll > 0 { ll - 1 } else { 0 };
                    &&& r.is_some() && r.unwrap()@ == line.subrange(old(self).col as int, e)
                    &&& final(self).text@ == t
                    &&& final(self).col == if old(self).col <= m { old(self).col as int } else { m }
                } else {
                    &&& r.is_none()
                    &&& final(self).text@ == s
                    &&& final(self).col == old(self).col
                }
            }),
    {
        let lc = line_count(&self.text);
        if self.row < lc {
            let line = line_at(&self.text, self.row);
            proof {
                crate::vim_buffer::lemma_line_bounds(self.text@, self.row as nat);
            }
            let e = crate::vim_buffer::word_run_end(&line, self.col);
            let y = copy_range(&line, self.col, e);
            let st = row_col_to_offset(&self.text, self.row, self.col);
            let en = row_col_to_offset(&self.text, self.row, e);
            proof {
                crate::vim_buffer::lemma_offset_from_bounds(self.text@, 0, self.row as nat, e as nat);
                lemma_offset_monotone(self.text@, 0, self.row as nat, self.col as nat, e as nat);
            }
            let t = splice(&self.text, st, en, &[]);
            self.text = t;
            let ll = line_len(&self.text, self.row);
            let m = if ll > 0 { ll - 1 } else { 0 };
            if self.col > m {
                self.col = m;
            }
            return Some(y);
        }
        None
    }
}

/// End of the first word of `line` (see [`spec_first_word_end`]).
pub fn first_word_end(line: &[u8]) -> (r: usize)
    ensures
        r == spec_first_word_end(line@),
{
    let mut c: usize = 0;
    while c < line.len() && crate::vim_buffer::is_space_byte(line[c])
        invariant
            c <= line@.len(),
            crate::vim_buffer::run_end(line@, c as int, crate::vim_buffer::ByteClass::Space)
                == crate::vim_buffer::run_end(line@, 0, crate::vim_buffer::ByteClass::Space),
        decreases line@.len() - c,
    {
        c = c + 1;
    }
    if c < line.len() {
        let e = crate::vim_buffer::word_run_end(line, c);
        proof {
            crate::vim_buffer::lemma_run_end_bounds(line@, c as int, crate::vim_buffer::class_of(line@[c as int]));
        }
        e - 1
    } else {
        c
    }
}

pub proof fn lemma_offset_monotone(s: Seq<u8>, start: int, row: nat, c1: nat, c2: nat)
    requires
        0 <= start <= s.len(),
        c1 <= c2,
    ensures
        crate::vim_buffer::offset_from(s, start, row, c1) <= crate::vim_buffer::offset_from(s, start, row, c2),
    decreases row,
{
    crate::vim_buffer::lemma_next_newline_bounds(s, start);
    let e = crate::vim_buffer::next_newline(s, start);
    if row != 0 && e < s.len() {
        lemma_offset_monotone(s, e + 1, (row - 1) as nat, c1, c2);
    }
}

pub proof fn lemma_line_len_bound(s: Seq<u8>, row: int)
    ensures
        0 <= spec_line(s, row).len() <= s.len(),
{
    crate::vim_buffer::lemma_line_bounds(s, row as nat);
}

} // verus!