use vstd::prelude::*;
use vstd::utf8::encode_scalar;
use crate::vim_buffer::{
    copy_range, find_char_backward, find_char_forward, spec_find_char_backward,
    spec_find_char_forward, spec_word_end_forward, spec_word_end_inline, spec_word_run_end,
    spec_word_start_backward, word_end_forward, word_end_inline, word_run_end,
    word_start_backward,
};

verus! {

/// Width in bytes of the UTF-8 sequence that `b` leads (1 for ASCII and
/// for bytes that cannot lead one).
pub open spec fn spec_char_width(b: u8) -> int {
    if b < 0xc0 {
        1
    } else if b < 0xe0 {
        2
    } else if b < 0xf0 {
        3
    } else {
        4
    }
}

/// End of the character that starts at `i` (clamped to the text).
pub open spec fn spec_char_end(s: Seq<u8>, i: int) -> int {
    if i + spec_char_width(s[i]) <= s.len() {
        i + spec_char_width(s[i])
    } else {
        s.len() as int
    }
}

/// `s` without the character that starts at `i`.
pub open spec fn spec_remove_char(s: Seq<u8>, i: int) -> Seq<u8> {
    s.subrange(0, i) + s.subrange(spec_char_end(s, i), s.len() as int)
}

/// `s` with `t` inserted at `i`.
pub open spec fn spec_insert(s: Seq<u8>, i: int, t: Seq<u8>) -> Seq<u8> {
    s.subrange(0, i) + t + s.subrange(i, s.len() as int)
}

/// `s` without `[a, b)`.
pub open spec fn spec_drain(s: Seq<u8>, a: int, b: int) -> Seq<u8> {
    s.subrange(0, a) + s.subrange(b, s.len() as int)
}

/// `s` without its line feeds and carriage returns.
pub open spec fn spec_strip_newlines(s: Seq<u8>) -> Seq<u8>
    decreases s.len(),
{
    if s.len() == 0 {
        s
    } else {
        let rest = spec_strip_newlines(s.drop_last());
        if s.last() == 10 || s.last() == 13 {
            rest
        } else {
            rest.push(s.last())
        }
    }
}

/// The UTF-8 encoding of `c`, as `char::encode_utf8` writes it.
pub(crate) fn char_utf8(c: char) -> (r: Vec<u8>)
    ensures
        r@ == encode_scalar(c as u32),
{
    proof {
        vstd::utf8::char_is_scalar(c);
    }
    let v = c as u32;
    let mut out: Vec<u8> = Vec::new();
    if v <= 0x7F {
        out.push((v & 0x7F) as u8);
    } else if v <= 0x7FF {
        out.push(0xC0 | ((v >> 6) & 0x1F) as u8);
        out.push(0x80 | (v & 0x3F) as u8);
    } else if v <= 0xFFFF {
        out.push(0xE0 | ((v >> 12) & 0x0F) as u8);
        out.push(0x80 | ((v >> 6) & 0x3F) as u8);
        out.push(0x80 | (v & 0x3F) as u8);
    } else {
        out.push(0xF0 | ((v >> 18) & 0x7) as u8);
        out.push(0x80 | ((v >> 12) & 0x3F) as u8);
        out.push(0x80 | ((v >> 6) & 0x3F) as u8);
        out.push(0x80 | (v & 0x3F) as u8);
    }
    proof {
        assert(out@ =~= encode_scalar(v));
    }
    out
}

/// Width of the character that starts at `i`.
pub fn char_end(s: &[u8], i: usize) -> (r: usize)
    requires
        i < s@.len(),
    ensures
        r == spec_char_end(s@, i as int),
        i < r <= s@.len(),
{
    let b = s[i];
    let w: usize = if b < 0xc0 {
        1
    } else if b < 0xe0 {
        2
    } else if b < 0xf0 {
        3
    } else {
        4
    };
    if w <= s.len() - i {
        i + w
    } else {
        s.len()
    }
}

/// `s[..a] ++ t ++ s[b..]`.
pub fn splice(s: &[u8], a: usize, b: usize, t: &[u8]) -> (r: Vec<u8>)
    requires
        a <= b <= s@.len(),
    ensures
        r@ == s@.subrange(0, a as int) + t@ + s@.subrange(b as int, s@.len() as int),
{
    let mut out = copy_range(s, 0, a);
    let mut i: usize = 0;
    while i < t.len()
        invariant
            i <= t@.len(),
            out@ == s@.subrange(0, a as int) + t@.subrange(0, i as int),
        decreases t@.len() - i,
    {
        out.push(t[i]);
        i = i + 1;
        proof {
            assert(t@.subrange(0, i as int) == t@.subrange(0, i - 1).push(t@[i - 1]));
        }
    }
    let mut j = b;
    while j < s.len()
        invariant
            b <= j <= s@.len(),
            i == t@.len(),
            out@ == s@.subrange(0, a as int) + t@ + s@.subrange(b as int, j as int),
        decreases s@.len() - j,
    {
        out.push(s[j]);
        j = j + 1;
        proof {
            assert(t@.subrange(0, i as int) == t@);
            assert(s@.subrange(b as int, j as int) == s@.subrange(b as int, j - 1).push(s@[j - 1]));
        }
    }
    proof {
        assert(t@.subrange(0, i as int) == t@);
    }
    out
}

/// `s` without its line feeds and carriage returns.
pub fn strip_newlines(s: &[u8]) -> (r: Vec<u8>)
    ensures
        r@ == spec_strip_newlines(s@),
        r@.len() <= s@.len(),
{
    let mut out: Vec<u8> = Vec::new();
    let mut i: usize = 0;
    while i < s.len()
        invariant
            i <= s@.len(),
            out@ == spec_strip_newlines(s@.subrange(0, i as int)),
            out@.len() <= i,
        decreases s@.len() - i,
    {
        proof {
            assert(s@.subrange(0, i + 1).drop_last() == s@.subrange(0, i as int));
        }
        if s[i] != 10 && s[i] != 13 {
            out.push(s[i]);
        }
        i = i + 1;
    }
    proof {
        assert(s@.subrange(0, i as int) == s@);
    }
    out
}

/// The cursor after `k` single steps left from `c` (each stops at 0).
pub open spec fn spec_left_steps(c: int, k: nat) -> int
    decreases k,
{
    if k == 0 {
        c
    } else {
        let p = spec_left_steps(c, (k - 1) as nat);
        if p > 0 { p - 1 } else { 0 }
    }
}

/// The cursor after `k` single steps right from `c` (each stops at `max`).
pub open spec fn spec_right_steps(c: int, max: int, k: nat) -> int
    decreases k,
{
    if k == 0 {
        c
    } else {
        let p = spec_right_steps(c, max, (k - 1) as nat);
        if p < max { p + 1 } else { p }
    }
}

/// A single-line text field (URL, header name or value, query parameter,
/// cookie, path parameter) with a byte cursor.
pub struct LineField {
    pub text: Vec<u8>,
    pub cursor: usize,
}

impl LineField {
    pub fn new(text: Vec<u8>, cursor: usize) -> (r: LineField)
        ensures
            r.text@ == text@,
            r.cursor == cursor,
    {
        LineField { text, cursor }
    }

    /// Insert `c` at the cursor (clamped to the end) and move past it by one.
    pub fn insert_char(&mut self, c: char)
        requires
            old(self).text@.len() + 4 <= usize::MAX,
        ensures
            ({
                let i = if old(self).cursor <= old(self).text@.len() {
                    old(self).cursor as int
                } else {
                    old(self).text@.len() as int
                };
                &&& final(self).text@ == spec_insert(old(self).text@, i, encode_scalar(c as u32))
                &&& final(self).cursor == i + 1
            }),
    {
        let len = self.text.len();
        let i = if self.cursor <= len { self.cursor } else { len };
        let enc = char_utf8(c);
        let t = splice(&self.text, i, i, &enc);
        self.text = t;
        self.cursor = i + 1;
    }

    /// Backspace: step left and remove the character there.
    pub fn backspace(&mut self)
        ensures
            old(self).cursor == 0 ==> *final(self) == *old(self),
            old(self).cursor > 0 ==> final(self).cursor == old(self).cursor - 1,
            old(self).cursor > 0 && old(self).cursor - 1 < old(self).text@.len()
                ==> final(self).text@ == spec_remove_char(old(self).text@, old(self).cursor - 1),
            old(self).cursor > 0 && old(self).cursor - 1 >= old(self).text@.len()
                ==> final(self).text@ == old(self).text@,
    {
        if self.cursor > 0 {
            self.cursor = self.cursor - 1;
            if self.cursor < self.text.len() {
                let e = char_end(&self.text, self.cursor);
                let t = splice(&self.text, self.cursor, e, &[]);
                self.text = t;
            }
        }
    }

    /// Delete the character under the cursor (insert-mode Delete key).
    pub fn delete_forward(&mut self)
        ensures
            final(self).cursor == old(self).cursor,
            old(self).cursor < old(self).text@.len()
                ==> final(self).text@ == spec_remove_char(old(self).text@, old(self).cursor as int),
            old(self).cursor >= old(self).text@.len() ==> final(self).text@ == old(self).text@,
    {
        if self.cursor < self.text.len() {
            let e = char_end(&self.text, self.cursor);
            let t = splice(&self.text, self.cursor, e, &[]);
            self.text = t;
        }
    }

    pub fn cursor_left(&mut self)
        ensures
            final(self).text@ == old(self).text@,
            final(self).cursor == if old(self).cursor > 0 { old(self).cursor - 1 } else { 0 },
    {
        if self.cursor > 0 {
            self.cursor = self.cursor - 1;
        }
    }

    /// Last cursor position: after the text in insert mode, on the last byte
    /// otherwise.
    pub open spec fn spec_max_cursor(&self, insert: bool) -> int {
        if insert {
            self.text@.len() as int
        } else if self.text@.len() > 0 {
            self.text@.len() - 1
        } else {
            0
        }
    }

    pub fn cursor_right(&mut self, insert: bool)
        ensures
            final(self).text@ == old(self).text@,
            final(self).cursor == if old(self).cursor < old(self).spec_max_cursor(insert) {
                old(self).cursor + 1
            } else {
                old(self).cursor as int
            },
    {
        let len = self.text.len();
        let max = if insert { len } else if len > 0 { len - 1 } else { 0 };
        if self.cursor < max {
            self.cursor = self.cursor + 1;
        }
    }

    pub fn cursor_home(&mut self)
        ensures
            final(self).text@ == old(self).text@,
            final(self).cursor == 0,
    {
        self.cursor = 0;
    }

    /// Cursor to the end: after the text in insert mode, on its last byte
    /// otherwise.
    pub fn cursor_end(&mut self, insert: bool)
        ensures
            final(self).text@ == old(self).text@,
            final(self).cursor == old(self).spec_max_cursor(insert),
    {
        let len = self.text.len();
        self.cursor = if insert { len } else if len > 0 { len - 1 } else { 0 };
    }

    /// `a`: one past the cursor, at most the end of the text.
    pub fn append_after_cursor(&mut self)
        ensures
            final(self).text@ == old(self).text@,
            final(self).cursor == if old(self).cursor < old(self).text@.len() {
                old(self).cursor + 1
            } else {
                old(self).text@.len() as int
            },
    {
        let len = self.text.len();
        self.cursor = if self.cursor < len { self.cursor + 1 } else { len };
    }

    /// Leaving insert mode: the cursor may not stay past the last byte.
    pub fn clamp_for_normal_mode(&mut self)
        ensures
            final(self).text@ == old(self).text@,
            old(self).text@.len() > 0 && old(self).cursor >= old(self).text@.len()
                ==> final(self).cursor == old(self).text@.len() - 1,
            !(old(self).text@.len() > 0 && old(self).cursor >= old(self).text@.len())
                ==> final(self).cursor == old(self).cursor,
    {
        let len = self.text.len();
        if len > 0 && self.cursor >= len {
            self.cursor = len - 1;
        }
    }

    /// `x`: delete the character under the cursor and keep the cursor on the text.
    pub fn delete_char_under_cursor(&mut self)
        ensures
            old(self).cursor >= old(self).text@.len() ==> *final(self) == *old(self),
            old(self).cursor < old(self).text@.len() ==> {
                let t = spec_remove_char(old(self).text@, old(self).cursor as int);
                &&& final(self).text@ == t
                &&& final(self).cursor == if old(self).cursor >= t.len() && t.len() > 0 {
                    t.len() - 1
                } else {
                    old(self).cursor as int
                }
            },
    {
        let len = self.text.len();
        if self.cursor >= len {
            return;
        }
        let e = char_end(&self.text, self.cursor);
        let t = splice(&self.text, self.cursor, e, &[]);
        self.text = t;
        let new_len = self.text.len();
        if self.cursor >= new_len && new_len > 0 {
            self.cursor = new_len - 1;
        }
    }

    /// `r`: replace the character under the cursor with `c`.
    pub fn replace_char(&mut self, c: char)
        requires
            old(self).text@.len() + 4 <= usize::MAX,
        ensures
            final(self).cursor == old(self).cursor,
            old(self).cursor >= old(self).text@.len() ==> final(self).text@ == old(self).text@,
            old(self).cursor < old(self).text@.len() ==> final(self).text@ == spec_insert(
                spec_remove_char(old(self).text@, old(self).cursor as int),
                old(self).cursor as int,
                encode_scalar(c as u32),
            ),
    {
        if self.cursor < self.text.len() {
            let e = char_end(&self.text, self.cursor);
            let enc = char_utf8(c);
            let removed = splice(&self.text, self.cursor, e, &[]);
            let t = splice(&removed, self.cursor, self.cursor, &enc);
            self.text = t;
        }
    }

    /// Paste `text` at the cursor, without its line breaks; the cursor moves
    /// past what was inserted.
    pub fn paste(&mut self, text: &[u8])
        requires
            old(self).cursor <= old(self).text@.len(),
            old(self).text@.len() + text@.len() <= usize::MAX,
        ensures
            final(self).text@ == spec_insert(
                old(self).text@,
                old(self).cursor as int,
                spec_strip_newlines(text@),
            ),
            final(self).cursor == old(self).cursor + spec_strip_newlines(text@).len(),
    {
        let clean = strip_newlines(text);
        let t = splice(&self.text, self.cursor, self.cursor, &clean);
        self.text = t;
        self.cursor = self.cursor + clean.len();
    }

    /// Bounds of the visual selection between the cursor and `anchor`,
    /// both ends included, clamped to the text.
    pub open spec fn spec_selection(&self, anchor: usize) -> (int, int) {
        let lo = if self.cursor <= anchor { self.cursor } else { anchor };
        let hi = if self.cursor <= anchor { anchor } else { self.cursor };
        let end = if hi + 1 <= self.text@.len() { hi + 1 } else { self.text@.len() as int };
        (lo as int, end)
    }

    /// Text of the visual selection (empty when it starts past the end).
    pub fn visual_selection(&self, anchor: usize) -> (r: Vec<u8>)
        ensures
            ({
                let (lo, hi) = self.spec_selection(anchor);
                r@ == if lo <= hi { self.text@.subrange(lo, hi) } else { Seq::empty() }
            }),
    {
        let lo = if self.cursor <= anchor { self.cursor } else { anchor };
        let hi = if self.cursor <= anchor { anchor } else { self.cursor };
        let len = self.text.len();
        let end = if hi < len { hi + 1 } else { len };
        if lo <= end {
            copy_range(&self.text, lo, end)
        } else {
            Vec::new()
        }
    }

    /// Delete the visual selection and put the cursor at its start.
    pub fn delete_visual_selection(&mut self, anchor: usize)
        requires
            old(self).spec_selection(anchor).0 <= old(self).text@.len(),
        ensures
            ({
                let (lo, hi) = old(self).spec_selection(anchor);
                &&& final(self).text@ == spec_drain(old(self).text@, lo, hi)
                &&& final(self).cursor == lo
            }),
    {
        let lo = if self.cursor <= anchor { self.cursor } else { anchor };
        let hi = if self.cursor <= anchor { anchor } else { self.cursor };
        let len = self.text.len();
        let end = if hi < len { hi + 1 } else { len };
        let t = splice(&self.text, lo, end, &[]);
        self.text = t;
        self.cursor = lo;
    }

    /// `dd` / `cc`: empty the field and put the cursor at 0.
    pub fn clear(&mut self)
        ensures
            final(self).text@ == Seq::<u8>::empty(),
            final(self).cursor == 0,
    {
        self.text = Vec::new();
        self.cursor = 0;
    }

    /// `w`: to the start of the next word, at most the end of the text.
    pub fn word_forward(&mut self)
        ensures
            final(self).text@ == old(self).text@,
            final(self).cursor == if spec_word_end_forward(old(self).text@, old(self).cursor as int)
                <= old(self).text@.len() {
                spec_word_end_forward(old(self).text@, old(self).cursor as int)
            } else {
                old(self).text@.len() as int
            },
    {
        let e = word_end_forward(&self.text, self.cursor);
        let len = self.text.len();
        self.cursor = if e <= len { e } else { len };
    }

    /// `b`: to the start of the previous word.
    pub fn word_backward(&mut self)
        requires
            old(self).cursor <= old(self).text@.len(),
        ensures
            final(self).text@ == old(self).text@,
            final(self).cursor == spec_word_start_backward(old(self).text@, old(self).cursor as int),
    {
        let s = word_start_backward(&self.text, self.cursor);
        self.cursor = s;
    }

    /// `e`: to the end of the next word; unchanged at the last byte.
    pub fn word_end(&mut self)
        ensures
            final(self).text@ == old(self).text@,
            final(self).cursor == if old(self).cursor + 1 >= old(self).text@.len() {
                old(self).cursor as int
            } else {
                spec_word_end_inline(old(self).text@, old(self).cursor as int)
            },
    {
        if self.cursor < self.text.len() && self.cursor + 1 < self.text.len() {
            self.cursor = word_end_inline(&self.text, self.cursor);
        }
    }

    /// `f`/`t`: search right for `target` (`before` stops one short).
    pub fn find_forward(&mut self, target: u8, before: bool)
        requires
            old(self).cursor < usize::MAX,
        ensures
            final(self).text@ == old(self).text@,
            final(self).cursor == spec_find_char_forward(old(self).text@, old(self).cursor as int, target, before),
    {
        self.cursor = find_char_forward(&self.text, self.cursor, target, before);
    }

    /// `F`/`T`: search left for `target` (`after` stops one short).
    pub fn find_backward(&mut self, target: u8, after: bool)
        requires
            old(self).cursor <= old(self).text@.len(),
        ensures
            final(self).text@ == old(self).text@,
            final(self).cursor == spec_find_char_backward(old(self).text@, old(self).cursor as int, target, after),
    {
        self.cursor = find_char_backward(&self.text, self.cursor, target, after);
    }

    /// Remove `[a, b)` and hand it back.
    fn cut(&mut self, a: usize, b: usize) -> (r: Vec<u8>)
        requires
            a <= b <= old(self).text@.len(),
        ensures
            r@ == old(self).text@.subrange(a as int, b as int),
            final(self).text@ == spec_drain(old(self).text@, a as int, b as int),
            final(self).cursor == old(self).cursor,
    {
        let y = copy_range(&self.text, a, b);
        let t = splice(&self.text, a, b, &[]);
        self.text = t;
        y
    }

    /// Cursor on `col`, at most on the last byte.
    pub open spec fn spec_clamped(len: int, col: int) -> int {
        if len > 0 && col > len - 1 {
            len - 1
        } else if len == 0 {
            0
        } else {
            col
        }
    }

    /// `dw`: cut to the start of the next word; returns what was cut.
    pub fn delete_word(&mut self) -> (r: Vec<u8>)
        requires
            old(self).cursor <= old(self).text@.len(),
        ensures
            ({
                let c = old(self).cursor as int;
                let e = spec_word_end_forward(old(self).text@, c);
                &&& r@ == old(self).text@.subrange(c, e)
                &&& final(self).text@ == spec_drain(old(self).text@, c, e)
                &&& final(self).cursor == Self::spec_clamped(final(self).text@.len() as int, c)
            }),
    {
        let col = self.cursor;
        let e = word_end_forward(&self.text, col);
        let y = self.cut(col, e);
        let n = self.text.len();
        self.cursor = if n > 0 && col > n - 1 { n - 1 } else if n == 0 { 0 } else { col };
        y
    }

    /// `de`: cut to the end of the word; returns what was cut.
    pub fn delete_word_end(&mut self) -> (r: Vec<u8>)
        requires
            old(self).cursor <= old(self).text@.len(),
        ensures
            ({
                let c = old(self).cursor as int;
                let e = spec_word_run_end(old(self).text@, c);
                &&& r@ == old(self).text@.subrange(c, e)
                &&& final(self).text@ == spec_drain(old(self).text@, c, e)
                &&& final(self).cursor == Self::spec_clamped(final(self).text@.len() as int, c)
            }),
    {
        let col = self.cursor;
        let e = word_run_end(&self.text, col);
        let y = self.cut(col, e);
        let n = self.text.len();
        self.cursor = if n > 0 && col > n - 1 { n - 1 } else if n == 0 { 0 } else { col };
        y
    }

    /// `db` / `cb`: cut back to the start of the word; returns what was cut.
    pub fn delete_word_back(&mut self) -> (r: Vec<u8>)
        requires
            old(self).cursor <= old(self).text@.len(),
        ensures
            ({
                let c = old(self).cursor as int;
                let st = spec_word_start_backward(old(self).text@, c);
                &&& r@ == old(self).text@.subrange(st, c)
                &&& final(self).text@ == spec_drain(old(self).text@, st, c)
                &&& final(self).cursor == st
            }),
    {
        let col = self.cursor;
        let st = word_start_backward(&self.text, col);
        let y = self.cut(st, col);
        self.cursor = st;
        y
    }

    /// `cw`: cut to the start of the next word, cursor stays; returns what was cut.
    pub fn change_word(&mut self) -> (r: Vec<u8>)
        requires
            old(self).cursor <= old(self).text@.len(),
        ensures
            ({
                let c = old(self).cursor as int;
                let e = spec_word_end_forward(old(self).text@, c);
                &&& r@ == old(self).text@.subrange(c, e)
                &&& final(self).text@ == spec_drain(old(self).text@, c, e)
                &&& final(self).cursor == c
            }),
    {
        let col = self.cursor;
        let e = word_end_forward(&self.text, col);
        self.cut(col, e)
    }

    /// `C`: cut from the cursor to the end; returns what was cut.
    pub fn change_to_end(&mut self) -> (r: Vec<u8>)
        ensures
            final(self).cursor == old(self).cursor,
            old(self).cursor < old(self).text@.len() ==> {
                &&& r@ == old(self).text@.subrange(old(self).cursor as int, old(self).text@.len() as int)
                &&& final(self).text@ == old(self).text@.subrange(0, old(self).cursor as int)
            },
            old(self).cursor >= old(self).text@.len() ==> {
                &&& r@ == Seq::<u8>::empty()
                &&& final(self).text@ == old(self).text@
            },
    {
        let n = self.text.len();
        if self.cursor < n {
            let c = self.cursor;
            let y = self.cut(c, n);
            proof {
                assert(self.text@ =~= old(self).text@.subrange(0, c as int));
            }
            y
        } else {
            Vec::new()
        }
    }

    /// `s`: cut the byte under the cursor (as `x` does); returns it.
    pub fn substitute(&mut self) -> (r: Vec<u8>)
        ensures
            old(self).cursor >= old(self).text@.len() ==> *final(self) == *old(self) && r@ == Seq::<u8>::empty(),
            old(self).cursor < old(self).text@.len() ==> {
                let t = spec_remove_char(old(self).text@, old(self).cursor as int);
                &&& r@ == old(self).text@.subrange(old(self).cursor as int, old(self).cursor + 1)
                &&& final(self).text@ == t
                &&& final(self).cursor == if old(self).cursor >= t.len() && t.len() > 0 {
                    t.len() - 1
                } else {
                    old(self).cursor as int
                }
            },
    {
        if self.cursor < self.text.len() {
            let y = copy_range(&self.text, self.cursor, self.cursor + 1);
            self.delete_char_under_cursor();
            y
        } else {
            Vec::new()
        }
    }
}

impl LineField {
    /// A motion left typed with a count: `count` single steps left.
    pub fn cursor_left_by(&mut self, count: usize)
        ensures
            final(self).text@ == old(self).text@,
            final(self).cursor == spec_left_steps(old(self).cursor as int, count as nat),
    {
        let mut i: usize = 0;
        while i < count
            invariant
                i <= count,
                self.text@ == old(self).text@,
                self.cursor == spec_left_steps(old(self).cursor as int, i as nat),
            decreases count - i,
        {
            self.cursor_left();
            i = i + 1;
        }
    }

    /// A motion right typed with a count: `count` single steps right.
    pub fn cursor_right_by(&mut self, count: usize, insert: bool)
        ensures
            final(self).text@ == old(self).text@,
            final(self).cursor == spec_right_steps(old(self).cursor as int, old(self).spec_max_cursor(insert), count as nat),
    {
        let mut i: usize = 0;
        while i < count
            invariant
                i <= count,
                self.text@ == old(self).text@,
                self.cursor == spec_right_steps(old(self).cursor as int, old(self).spec_max_cursor(insert), i as nat),
            decreases count - i,
        {
            self.cursor_right(insert);
            i = i + 1;
        }
    }
}

impl LineField {
    /// `y$`: the text from the cursor on, when the cursor is on a character.
    pub fn yank_to_end(&self) -> (r: Option<Vec<u8>>)
        ensures
            self.cursor < self.text@.len() ==> r.is_some() && r.unwrap()@ == self.text@.subrange(self.cursor as int, self.text@.len() as int),
            self.cursor >= self.text@.len() ==> r.is_none(),
    {
        if self.cursor < self.text.len() {
            Some(copy_range(&self.text, self.cursor, self.text.len()))
        } else {
            None
        }
    }

    /// `y0`: the text before the cursor, when there is any.
    pub fn yank_to_start(&self) -> (r: Option<Vec<u8>>)
        requires
            self.cursor <= self.text@.len(),
        ensures
            self.cursor > 0 ==> r.is_some() && r.unwrap()@ == self.text@.subrange(0, self.cursor as int),
            self.cursor == 0 ==> r.is_none(),
    {
        if self.cursor > 0 {
            Some(copy_range(&self.text, 0, self.cursor))
        } else {
            None
        }
    }

    /// `D`: cut from the cursor to the end and return it; the cursor then
    /// stays on the last character.
    pub fn delete_to_end(&mut self) -> (r: Option<Vec<u8>>)
        ensures
            old(self).cursor < old(self).text@.len() ==> {
                &&& r.is_some() && r.unwrap()@ == old(self).text@.subrange(old(self).cursor as int, old(self).text@.len() as int)
                &&& final(self).text@ == old(self).text@.subrange(0, old(self).cursor as int)
                &&& final(self).cursor == Self::spec_clamped(old(self).cursor as int, old(self).cursor as int)
            },
            old(self).cursor >= old(self).text@.len() ==> r.is_none() && final(self).text@ == old(self).text@
                && final(self).cursor == old(self).cursor,
    {
        let n = self.text.len();
        if self.cursor < n {
            let c = self.cursor;
            let y = self.cut(c, n);
            proof {
                assert(self.text@ =~= old(self).text@.subrange(0, c as int));
            }
            let m = self.text.len();
            self.cursor = if m > 0 && c > m - 1 { m - 1 } else if m == 0 { 0 } else { c };
            Some(y)
        } else {
            None
        }
    }

    /// `d0`: cut the text before the cursor and return it; the cursor goes
    /// to the start.
    pub fn delete_to_start(&mut self) -> (r: Option<Vec<u8>>)
        requires
            old(self).cursor <= old(self).text@.len(),
        ensures
            old(self).cursor > 0 ==> {
                &&& r.is_some() && r.unwrap()@ == old(self).text@.subrange(0, old(self).cursor as int)
                &&& final(self).text@ == old(self).text@.subrange(old(self).cursor as int, old(self).text@.len() as int)
                &&& final(self).cursor == 0
            },
            old(self).cursor == 0 ==> r.is_none() && final(self).text@ == old(self).text@ && final(self).cursor == 0,
    {
        if self.cursor > 0 {
            let c = self.cursor;
            let y = self.cut(0, c);
            proof {
                assert(self.text@ =~= old(self).text@.subrange(c as int, old(self).text@.len() as int));
            }
            self.cursor = 0;
            Some(y)
        } else {
            None
        }
    }
}

} // verus!
