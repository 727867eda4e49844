use vstd::prelude::*;
use crate::autocomplete::spec_occurs_at;
use crate::strutil::{spec_to_lowercase, to_lowercase, bytes_of};

verus! {

/// Rows a half-page motion moves.
pub const HALF_PAGE: usize = 15;

/// A text view: cursor, scroll offsets (rows, columns) and the visible size.
#[derive(Clone, Copy, Debug)]
pub struct ViewBuf {
    pub cursor_row: usize,
    pub cursor_col: usize,
    pub scroll_row: u16,
    pub scroll_col: u16,
    pub visible_height: u16,
    pub visible_width: u16,
}

/// The scroll offset that keeps `pos` on screen: unchanged while `pos` is
/// visible, else moved just far enough (an offset is stored in 16 bits).
pub open spec fn spec_follow(scroll: u16, pos: usize, visible: u16) -> u16 {
    if visible == 0 {
        scroll
    } else if pos < scroll {
        pos as u16
    } else if pos >= scroll + visible {
        (pos - visible + 1) as u16
    } else {
        scroll
    }
}

fn follow(scroll: u16, pos: usize, visible: u16) -> (r: u16)
    ensures
        r == spec_follow(scroll, pos, visible),
{
    let v = visible as usize;
    if v == 0 {
        return scroll;
    }
    let s = scroll as usize;
    if pos < s {
        pos as u16
    } else if pos >= s + v {
        (pos - v + 1) as u16
    } else {
        scroll
    }
}

/// The length of `s` in bytes, as `str::len` gives it.
pub open spec fn spec_byte_len(s: String) -> usize {
    vstd::utf8::encode_utf8(s@).len() as usize
}

/// `n - 1`, or 0.
pub open spec fn spec_last(n: int) -> int {
    if n > 0 { n - 1 } else { 0 }
}

impl ViewBuf {
    /// Scroll vertically so the cursor row is visible.
    pub fn sync_scroll(&mut self)
        ensures
            *final(self) == (ViewBuf { scroll_row: spec_follow(old(self).scroll_row, old(self).cursor_row, old(self).visible_height), ..*old(self) }),
    {
        self.scroll_row = follow(self.scroll_row, self.cursor_row, self.visible_height);
    }

    /// Scroll horizontally so the cursor column is visible.
    pub fn sync_hscroll(&mut self)
        ensures
            *final(self) == (ViewBuf { scroll_col: spec_follow(old(self).scroll_col, old(self).cursor_col, old(self).visible_width), ..*old(self) }),
    {
        self.scroll_col = follow(self.scroll_col, self.cursor_col, self.visible_width);
    }

    /// Move to the top: cursor and scroll at the origin.
    pub fn scroll_top(&mut self)
        ensures
            *final(self) == (ViewBuf { cursor_row: 0, cursor_col: 0, scroll_row: 0, scroll_col: 0, ..*old(self) }),
    {
        self.cursor_row = 0;
        self.cursor_col = 0;
        self.scroll_row = 0;
        self.scroll_col = 0;
    }

    /// Move to the start of the last of `line_count` lines, and follow.
    pub fn scroll_bottom(&mut self, line_count: usize)
        ensures
            final(self).cursor_row == spec_last(line_count as int),
            final(self).cursor_col == 0,
            final(self).scroll_row == spec_follow(old(self).scroll_row, final(self).cursor_row, old(self).visible_height),
            final(self).scroll_col == spec_follow(old(self).scroll_col, 0, old(self).visible_width),
            final(self).visible_height == old(self).visible_height,
            final(self).visible_width == old(self).visible_width,
    {
        self.cursor_row = if line_count > 0 { line_count - 1 } else { 0 };
        self.cursor_col = 0;
        self.sync_scroll();
        self.sync_hscroll();
    }

    /// Move the cursor half a page down, no further than the last of
    /// `line_count` lines, and follow.
    pub fn scroll_half_down(&mut self, line_count: usize)
        requires
            old(self).cursor_row + HALF_PAGE <= usize::MAX,
        ensures
            final(self).cursor_row == (if old(self).cursor_row + HALF_PAGE < spec_last(line_count as int) {
                old(self).cursor_row + HALF_PAGE
            } else {
                spec_last(line_count as int)
            }),
            final(self).cursor_col == old(self).cursor_col,
            final(self).scroll_row == spec_follow(old(self).scroll_row, final(self).cursor_row, old(self).visible_height),
            final(self).scroll_col == spec_follow(old(self).scroll_col, old(self).cursor_col, old(self).visible_width),
            final(self).visible_height == old(self).visible_height,
            final(self).visible_width == old(self).visible_width,
    {
        let max = if line_count > 0 { line_count - 1 } else { 0 };
        let target = self.cursor_row + HALF_PAGE;
        self.cursor_row = if target < max { target } else { max };
        self.sync_scroll();
        self.sync_hscroll();
    }

    /// Move the cursor half a page up, no further than the first line, and
    /// follow.
    pub fn scroll_half_up(&mut self)
        ensures
            final(self).cursor_row == (if old(self).cursor_row >= HALF_PAGE { old(self).cursor_row - HALF_PAGE } else { 0 }),
            final(self).cursor_col == old(self).cursor_col,
            final(self).scroll_row == spec_follow(old(self).scroll_row, final(self).cursor_row, old(self).visible_height),
            final(self).scroll_col == spec_follow(old(self).scroll_col, old(self).cursor_col, old(self).visible_width),
            final(self).visible_height == old(self).visible_height,
            final(self).visible_width == old(self).visible_width,
    {
        self.cursor_row = if self.cursor_row >= HALF_PAGE { self.cursor_row - HALF_PAGE } else { 0 };
        self.sync_scroll();
        self.sync_hscroll();
    }

    /// Move the cursor down a line of `lines` (when there is one below),
    /// keeping the column within the new line's length, and follow.
    pub fn cursor_down(&mut self, lines: &Vec<String>)
        ensures
            ({
                let moved = old(self).cursor_row + 1 < lines@.len();
                let row = if moved { old(self).cursor_row + 1 } else { old(self).cursor_row as int };
                let col = if moved {
                    let n = spec_byte_len(lines@[row]);
                    if old(self).cursor_col < n { old(self).cursor_col as int } else { n as int }
                } else {
                    old(self).cursor_col as int
                };
                &&& final(self).cursor_row == row
                &&& final(self).cursor_col == col
                &&& final(self).scroll_row == spec_follow(old(self).scroll_row, row as usize, old(self).visible_height)
                &&& final(self).scroll_col == spec_follow(old(self).scroll_col, col as usize, old(self).visible_width)
                &&& final(self).visible_height == old(self).visible_height
                &&& final(self).visible_width == old(self).visible_width
            }),
    {
        if self.cursor_row < lines.len() && self.cursor_row + 1 < lines.len() {
            self.cursor_row = self.cursor_row + 1;
            let n = lines[self.cursor_row].as_str().len();
            if n < self.cursor_col {
                self.cursor_col = n;
            }
        }
        self.sync_scroll();
        self.sync_hscroll();
    }

    /// Move the cursor up a line (when not on the first), keeping the
    /// column within the new line's length (0 past the end of `lines`),
    /// and follow.
    pub fn cursor_up(&mut self, lines: &Vec<String>)
        ensures
            ({
                let moved = old(self).cursor_row > 0;
                let row = if moved { old(self).cursor_row - 1 } else { old(self).cursor_row as int };
                let col = if moved {
                    let n = if row < lines@.len() { spec_byte_len(lines@[row]) as int } else { 0 };
                    if old(self).cursor_col < n { old(self).cursor_col as int } else { n }
                } else {
                    old(self).cursor_col as int
                };
                &&& final(self).cursor_row == row
                &&& final(self).cursor_col == col
                &&& final(self).scroll_row == spec_follow(old(self).scroll_row, row as usize, old(self).visible_height)
                &&& final(self).scroll_col == spec_follow(old(self).scroll_col, col as usize, old(self).visible_width)
                &&& final(self).visible_height == old(self).visible_height
                &&& final(self).visible_width == old(self).visible_width
            }),
    {
        if self.cursor_row > 0 {
            self.cursor_row = self.cursor_row - 1;
            let n = if self.cursor_row < lines.len() { lines[self.cursor_row].as_str().len() } else { 0 };
            if n < self.cursor_col {
                self.cursor_col = n;
            }
        }
        self.sync_scroll();
        self.sync_hscroll();
    }
}

/// The positions at which `q` occurs in `s`, below `n`, ascending.
pub open spec fn spec_positions_below(s: Seq<u8>, q: Seq<u8>, n: int) -> Seq<int>
    decreases n,
{
    if n <= 0 {
        Seq::empty()
    } else if spec_occurs_at(s, q, n - 1) {
        spec_positions_below(s, q, n - 1).push(n - 1)
    } else {
        spec_positions_below(s, q, n - 1)
    }
}

/// The search hits of line `row`: where the lowercase query occurs in the
/// lowercase line, as (row, byte column), left to right.
pub open spec fn spec_line_hits(line: Seq<char>, query: Seq<char>, row: int) -> Seq<(int, int)> {
    let l = vstd::utf8::encode_utf8(spec_to_lowercase(line));
    let q = vstd::utf8::encode_utf8(spec_to_lowercase(query));
    spec_positions_below(l, q, l.len() as int).map_values(|p: int| (row, p))
}

/// The search hits of the first `n` lines, line by line.
pub open spec fn spec_hits(lines: Seq<String>, query: Seq<char>, n: int) -> Seq<(int, int)>
    decreases n,
{
    if n <= 0 {
        Seq::empty()
    } else {
        spec_hits(lines, query, n - 1) + spec_line_hits(lines[n - 1]@, query, n - 1)
    }
}

/// The views of a list of hits.
pub open spec fn spec_hit_views(v: Seq<(usize, usize)>) -> Seq<(int, int)> {
    v.map_values(|h: (usize, usize)| (h.0 as int, h.1 as int))
}

/// The lowercase query starts with an ASCII character, so the search can
/// step one byte past a hit.
pub open spec fn spec_query_steppable(query: Seq<char>) -> bool {
    spec_to_lowercase(query).len() == 0 || (spec_to_lowercase(query)[0] as u32) < 128
}

fn line_hits(line: &Vec<u8>, q: &Vec<u8>, row: usize, out: &mut Vec<(usize, usize)>)
    requires
        q@.len() > 0,
    ensures
        spec_hit_views(final(out)@) == spec_hit_views(old(out)@)
            + spec_positions_below(line@, q@, line@.len() as int).map_values(|p: int| (row as int, p)),
{
    let ghost base = old(out)@;
    let mut i: usize = 0;
    while i < line.len()
        invariant
            i <= line@.len(),
            q@.len() > 0,
            spec_hit_views(out@) == spec_hit_views(base)
                + spec_positions_below(line@, q@, i as int).map_values(|p: int| (row as int, p)),
        decreases line@.len() - i,
    {
        let hit = if q.len() <= line.len() - i {
            let mut k: usize = 0;
            let mut same = true;
            while k < q.len()
                invariant
                    i + q@.len() <= line@.len(),
                    line@.len() == line.len(),
                    k <= q@.len(),
                    same == forall|m: int| 0 <= m < k ==> line@[i + m] == q@[m],
                decreases q@.len() - k,
            {
                if line[i + k] != q[k] {
                    same = false;
                }
                k = k + 1;
            }
            proof {
                if same {
                    assert(line@.subrange(i as int, i + q@.len()) =~= q@);
                } else {
                    let m = choose|m: int| 0 <= m < q@.len() && line@[i + m] != q@[m];
                    assert(line@.subrange(i as int, i + q@.len())[m] != q@[m]);
                }
            }
            same
        } else {
            false
        };
        let ghost before = out@;
        if hit {
            out.push((row, i));
            proof {
                assert(spec_hit_views(out@) =~= spec_hit_views(before).push((row as int, i as int)));
            }
        }
        proof {
            assert(hit == spec_occurs_at(line@, q@, i as int));
            let a = spec_positions_below(line@, q@, i as int);
            let b = spec_positions_below(line@, q@, i + 1);
            if hit {
                assert(b == a.push(i as int));
                assert(b.map_values(|p: int| (row as int, p)) =~= a.map_values(|p: int| (row as int, p)).push((row as int, i as int)));
                assert(spec_hit_views(base) + b.map_values(|p: int| (row as int, p))
                    =~= (spec_hit_views(base) + a.map_values(|p: int| (row as int, p))).push((row as int, i as int)));
            } else {
                assert(b == a);
            }
        }
        i = i + 1;
    }
}

/// Every occurrence of the lowercase query in each lowercase line (see
/// [`search_matches`]), whatever its first character.
fn all_matches(lines: &Vec<String>, query: &str) -> (r: Vec<(usize, usize)>)
    ensures
        query@.len() == 0 ==> r@.len() == 0,
        query@.len() > 0 ==> spec_hit_views(r@) == spec_hits(lines@, query@, lines@.len() as int),
{
    let mut out: Vec<(usize, usize)> = Vec::new();
    if query.is_empty() {
        return out;
    }
    let lq = to_lowercase(query);
    let q = bytes_of(lq.as_str());
    proof {
        assert(lq@.len() > 0);
        assert(lq@[0] == lq@[0]);
        assert(vstd::utf8::encode_utf8(lq@) =~= vstd::utf8::encode_scalar(lq@[0] as u32) + vstd::utf8::encode_utf8(lq@.drop_first()));
    }
    let mut row: usize = 0;
    while row < lines.len()
        invariant
            row <= lines@.len(),
            q@ == vstd::utf8::encode_utf8(spec_to_lowercase(query@)),
            q@.len() > 0,
            spec_hit_views(out@) == spec_hits(lines@, query@, row as int),
        decreases lines@.len() - row,
    {
        let ll = to_lowercase(lines[row].as_str());
        let line = bytes_of(ll.as_str());
        line_hits(&line, &q, row, &mut out);
        row = row + 1;
    }
    out
}

/// Where the search query occurs in `lines`: every occurrence of the
/// lowercase query in each lowercase line, overlapping ones included, as
/// (row, byte column) in reading order; none for an empty query. A query
/// whose lowercase form starts with a character of several bytes is only
/// searched where it occurs nowhere (stepping one byte past such a hit
/// would cut the character).
pub fn search_matches(lines: &Vec<String>, query: &str) -> (r: Vec<(usize, usize)>)
    requires
        spec_query_steppable(query@) || spec_hits(lines@, query@, lines@.len() as int).len() == 0,
    ensures
        query@.len() == 0 ==> r@.len() == 0,
        query@.len() > 0 ==> spec_hit_views(r@) == spec_hits(lines@, query@, lines@.len() as int),
{
    all_matches(lines, query)
}

/// A scrolled view over lines, with the cursor position.
#[derive(Clone, Copy, Debug)]
pub struct VimView {
    pub cursor_row: usize,
    pub cursor_col: usize,
    pub scroll_offset: usize,
    pub visible_height: usize,
}

/// The scroll offset after jumping to `row`: up to it when above the view,
/// centring it when below, else unchanged.
pub open spec fn spec_jump_scroll(scroll: int, row: int, visible: int) -> int {
    if row < scroll {
        row
    } else if row >= scroll + visible {
        if row >= visible / 2 { row - visible / 2 } else { 0 }
    } else {
        scroll
    }
}

/// Put the cursor on search hit `idx` of `matches` (nothing happens past
/// the end) and scroll it into view.
pub fn jump_to_match(view: &mut VimView, matches: &Vec<(usize, usize)>, idx: usize)
    requires
        old(view).scroll_offset + old(view).visible_height <= usize::MAX,
    ensures
        idx < matches@.len() ==> {
            let (row, col) = matches@[idx as int];
            &&& final(view).cursor_row == row
            &&& final(view).cursor_col == col
            &&& final(view).scroll_offset == spec_jump_scroll(old(view).scroll_offset as int, row as int, old(view).visible_height as int)
            &&& final(view).visible_height == old(view).visible_height
        },
        idx >= matches@.len() ==> *final(view) == *old(view),
{
    if idx < matches.len() {
        let (row, col) = matches[idx];
        view.cursor_row = row;
        view.cursor_col = col;
        let visible = view.visible_height;
        if row < view.scroll_offset {
            view.scroll_offset = row;
        } else if row >= view.scroll_offset + visible {
            let half = visible / 2;
            view.scroll_offset = if row >= half { row - half } else { 0 };
        }
    }
}

/// Search hits, or `None` when the lowercase query starts with a
/// character of several bytes and occurs somewhere (stepping one byte past
/// that hit would cut the character).
pub fn search_matches_checked(lines: &Vec<String>, query: &str) -> (r: Option<Vec<(usize, usize)>>)
    ensures
        r.is_some() <==> (spec_query_steppable(query@) || query@.len() == 0
            || spec_hits(lines@, query@, lines@.len() as int).len() == 0),
        r matches Some(hits) ==> {
            &&& query@.len() == 0 ==> hits@.len() == 0
            &&& query@.len() > 0 ==> spec_hit_views(hits@) == spec_hits(lines@, query@, lines@.len() as int)
        },
{
    let hits = all_matches(lines, query);
    let lq = to_lowercase(query);
    let cs = crate::strutil::chars_of(lq.as_str());
    if cs.len() > 0 && (cs[0] as u32) >= 128 && hits.len() > 0 && !query.is_empty() {
        return None;
    }
    Some(hits)
}

/// Sizes of the scrolling views for a terminal of a given size.
#[derive(Clone, Copy, Debug, PartialEq, Eq, Structural)]
pub struct ScreenLayout {
    /// Whether the right side is wide enough for body and response side by side.
    pub wide: bool,
    pub body_height: usize,
    pub response_height: usize,
    pub body_width: usize,
    pub response_width: usize,
}

/// `n - k`, or 0.
pub open spec fn spec_sat_sub(n: int, k: int) -> int {
    if n > k { n - k } else { 0 }
}

/// The layout of a `width` x `height` terminal: the right side is 80% of
/// the width and is wide past `wide_threshold`; heights leave out the
/// status bar and each panel's borders and tab bar (the response view takes
/// half when the type tab is open); widths leave out the gutter and borders.
pub open spec fn spec_screen_layout(width: u16, height: u16, wide_threshold: u16, type_tab_open: bool) -> ScreenLayout {
    let right = width * 80 / 100;
    let wide = right > wide_threshold;
    let main_h = spec_sat_sub(height as int, 1);
    let body_h = if wide { main_h * 60 / 100 } else { main_h * 35 / 100 };
    let resp_h = if wide { main_h } else { main_h * 40 / 100 };
    let resp_h2 = spec_sat_sub(resp_h, 6);
    let body_w = if wide { right * 40 / 100 } else { right };
    let resp_w = if wide { right * 50 / 100 } else { right };
    ScreenLayout {
        wide,
        body_height: spec_sat_sub(body_h, 4) as usize,
        response_height: (if type_tab_open { spec_sat_sub(resp_h2 / 2, 1) } else { resp_h2 }) as usize,
        body_width: spec_sat_sub(body_w, 6) as usize,
        response_width: spec_sat_sub(resp_w, 6) as usize,
    }
}

fn sat_sub(n: usize, k: usize) -> (r: usize)
    ensures
        r == spec_sat_sub(n as int, k as int),
{
    if n > k { n - k } else { 0 }
}

/// The view sizes for the terminal size (see [`spec_screen_layout`]).
pub fn screen_layout(width: u16, height: u16, wide_threshold: u16, type_tab_open: bool) -> (r: ScreenLayout)
    ensures
        r == spec_screen_layout(width, height, wide_threshold, type_tab_open),
{
    let right: u32 = (width as u32) * 80 / 100;
    let wide = right > wide_threshold as u32;
    let main_h: u32 = if height > 0 { (height - 1) as u32 } else { 0 };
    let body_h: u32 = if wide { main_h * 60 / 100 } else { main_h * 35 / 100 };
    let resp_h: u32 = if wide { main_h } else { main_h * 40 / 100 };
    let resp_h2 = sat_sub(resp_h as usize, 6);
    let response_height = if type_tab_open { sat_sub(resp_h2 / 2, 1) } else { resp_h2 };
    let body_w: u32 = if wide { right * 40 / 100 } else { right };
    let resp_w: u32 = if wide { right * 50 / 100 } else { right };
    ScreenLayout {
        wide,
        body_height: sat_sub(body_h as usize, 4),
        response_height,
        body_width: sat_sub(body_w as usize, 6),
        response_width: sat_sub(resp_w as usize, 6),
    }
}

} // verus!
