use vstd::prelude::*;

verus! {

/// The classes a byte falls into for vim word motions.
#[derive(Clone, Copy, PartialEq, Eq, Structural)]
pub enum ByteClass {
    Word,
    Punct,
    Space,
}

/// ASCII whitespace as `u8::is_ascii_whitespace` defines it
/// (space, tab, line feed, form feed, carriage return).
pub open spec fn spec_is_space(b: u8) -> bool {
    b == 32 || b == 9 || b == 10 || b == 12 || b == 13
}

/// ASCII letters, digits and the underscore.
pub open spec fn spec_is_word(b: u8) -> bool {
    (48 <= b <= 57) || (65 <= b <= 90) || (97 <= b <= 122) || b == 95
}

/// Neither whitespace nor a word byte.
pub open spec fn spec_is_punct(b: u8) -> bool {
    !spec_is_space(b) && !spec_is_word(b)
}

pub open spec fn class_of(b: u8) -> ByteClass {
    if spec_is_word(b) {
        ByteClass::Word
    } else if spec_is_space(b) {
        ByteClass::Space
    } else {
        ByteClass::Punct
    }
}

/// The first index at or after `i` whose byte is not of class `c`
/// (or the length of `s`).
pub open spec fn run_end(s: Seq<u8>, i: int, c: ByteClass) -> int
    decreases s.len() - i,
{
    if 0 <= i < s.len() && class_of(s[i]) == c {
        run_end(s, i + 1, c)
    } else {
        i
    }
}

/// Walks left from `i` while the byte before the position is of class `c`.
pub open spec fn run_start(s: Seq<u8>, i: int, c: ByteClass) -> int
    decreases i,
{
    if 0 < i <= s.len() && class_of(s[i - 1]) == c {
        run_start(s, i - 1, c)
    } else {
        i
    }
}

/// Walks left from `i` while the byte at `i` is whitespace (stopping at 0).
pub open spec fn space_back(s: Seq<u8>, i: int) -> int
    decreases i,
{
    if 0 < i < s.len() && spec_is_space(s[i]) {
        space_back(s, i - 1)
    } else {
        i
    }
}

/// Vim `w`: skip the run of the class under `col` (when it is a word or
/// punctuation run), then the whitespace after it.
pub open spec fn spec_word_end_forward(s: Seq<u8>, col: int) -> int {
    if 0 <= col < s.len() {
        let c = class_of(s[col]);
        let e = if c == ByteClass::Space { col } else { run_end(s, col, c) };
        run_end(s, e, ByteClass::Space)
    } else {
        col
    }
}

/// Vim `b`: from `col - 1`, skip whitespace leftwards, then go to the start
/// of the word or punctuation run found there.
pub open spec fn spec_word_start_backward(s: Seq<u8>, col: int) -> int {
    if col <= 0 || s.len() == 0 {
        0
    } else {
        let st = space_back(s, col - 1);
        if st > 0 && class_of(s[st]) != ByteClass::Space {
            run_start(s, st, class_of(s[st]))
        } else {
            st
        }
    }
}

pub proof fn lemma_run_end_bounds(s: Seq<u8>, i: int, c: ByteClass)
    requires
        0 <= i <= s.len(),
    ensures
        i <= run_end(s, i, c) <= s.len(),
        forall|k: int| i <= k < run_end(s, i, c) ==> class_of(#[trigger] s[k]) == c,
        run_end(s, i, c) < s.len() ==> class_of(s[run_end(s, i, c)]) != c,
    decreases s.len() - i,
{
    if i < s.len() && class_of(s[i]) == c {
        lemma_run_end_bounds(s, i + 1, c);
    }
}

pub proof fn lemma_run_start_bounds(s: Seq<u8>, i: int, c: ByteClass)
    requires
        0 <= i <= s.len(),
    ensures
        0 <= run_start(s, i, c) <= i,
    decreases i,
{
    if 0 < i && class_of(s[i - 1]) == c {
        lemma_run_start_bounds(s, i - 1, c);
    }
}

pub proof fn lemma_space_back_bounds(s: Seq<u8>, i: int)
    requires
        0 <= i < s.len(),
    ensures
        0 <= space_back(s, i) <= i,
        space_back(s, i) > 0 ==> !spec_is_space(s[space_back(s, i)]),
    decreases i,
{
    if 0 < i && spec_is_space(s[i]) {
        lemma_space_back_bounds(s, i - 1);
    }
}

pub fn is_word_char(b: u8) -> (r: bool)
    ensures
        r == spec_is_word(b),
{
    (b >= 48 && b <= 57) || (b >= 65 && b <= 90) || (b >= 97 && b <= 122) || b == 95
}

pub fn is_space_byte(b: u8) -> (r: bool)
    ensures
        r == spec_is_space(b),
{
    b == 32 || b == 9 || b == 10 || b == 12 || b == 13
}

pub fn is_punct_char(b: u8) -> (r: bool)
    ensures
        r == spec_is_punct(b),
{
    !is_space_byte(b) && !is_word_char(b)
}

fn in_class(b: u8, c: ByteClass) -> (r: bool)
    ensures
        r == (class_of(b) == c),
{
    match c {
        ByteClass::Word => is_word_char(b),
        ByteClass::Punct => is_punct_char(b),
        ByteClass::Space => is_space_byte(b),
    }
}

/// Index of the first byte at or after `i` that is not of class `c`.
fn skip_class(bytes: &[u8], i: usize, c: ByteClass) -> (r: usize)
    requires
        i <= bytes@.len(),
    ensures
        r == run_end(bytes@, i as int, c),
        i <= r <= bytes@.len(),
{
    let mut j = i;
    while j < bytes.len() && in_class(bytes[j], c)
        invariant
            i <= j <= bytes@.len(),
            run_end(bytes@, i as int, c) == run_end(bytes@, j as int, c),
        decreases bytes@.len() - j,
    {
        j = j + 1;
    }
    j
}

/// Find the end of the current word forward from `col` in `line` bytes.
/// Skips current word class + trailing whitespace (like vim `w`/`dw`).
pub fn word_end_forward(bytes: &[u8], col: usize) -> (r: usize)
    ensures
        r == spec_word_end_forward(bytes@, col as int),
        col <= r,
        col <= bytes@.len() ==> r <= bytes@.len(),
{
    let mut end = col;
    if end < bytes.len() {
        if is_word_char(bytes[end]) {
            end = skip_class(bytes, end, ByteClass::Word);
        } else if is_punct_char(bytes[end]) {
            end = skip_class(bytes, end, ByteClass::Punct);
        }
        end = skip_class(bytes, end, ByteClass::Space);
    }
    end
}

/// Find the start of the current word backward from `col` in `line` bytes.
pub fn word_start_backward(bytes: &[u8], col: usize) -> (r: usize)
    requires
        col <= bytes@.len() || (col == 1 && bytes@.len() == 0),
    ensures
        r == spec_word_start_backward(bytes@, col as int),
        r <= col,
        col > 0 ==> r < col,
{
    if col == 0 || bytes.len() == 0 {
        return 0;
    }
    let mut start = col - 1;
    while start > 0 && is_space_byte(bytes[start])
        invariant
            start < col <= bytes@.len(),
            space_back(bytes@, start as int) == space_back(bytes@, col - 1),
        decreases start,
    {
        start = start - 1;
    }
    proof {
        lemma_space_back_bounds(bytes@, col - 1);
    }
    if start > 0 && is_word_char(bytes[start]) {
        while start > 0 && is_word_char(bytes[start - 1])
            invariant
                start < col <= bytes@.len(),
                run_start(bytes@, start as int, ByteClass::Word) == spec_word_start_backward(bytes@, col as int),
            decreases start,
        {
            start = start - 1;
        }
    } else if start > 0 && is_punct_char(bytes[start]) {
        while start > 0 && is_punct_char(bytes[start - 1])
            invariant
                start < col <= bytes@.len(),
                run_start(bytes@, start as int, ByteClass::Punct) == spec_word_start_backward(bytes@, col as int),
            decreases start,
        {
            start = start - 1;
        }
    }
    start
}

/// Vim `e` inside one line, from `col` with `col + 1 < len`: skip one
/// byte and the whitespace after it, then go to the last byte of the run
/// found there (the last byte of the line when only whitespace is left).
pub open spec fn spec_word_end_inline(s: Seq<u8>, col: int) -> int {
    let c2 = run_end(s, col + 1, ByteClass::Space);
    if c2 >= s.len() {
        s.len() - 1
    } else {
        run_end(s, c2, class_of(s[c2])) - 1
    }
}

/// Vim `de` end: the end of the run under `col`; from whitespace, the end
/// of the run that follows it.
pub open spec fn spec_word_run_end(s: Seq<u8>, col: int) -> int {
    if 0 <= col < s.len() {
        if class_of(s[col]) != ByteClass::Space {
            run_end(s, col, class_of(s[col]))
        } else {
            let c2 = run_end(s, col, ByteClass::Space);
            if c2 < s.len() {
                run_end(s, c2, class_of(s[c2]))
            } else {
                c2
            }
        }
    } else {
        col
    }
}

/// First index at or after `i` holding `t`, or the length.
pub open spec fn spec_find_from(s: Seq<u8>, i: int, t: u8) -> int
    decreases s.len() - i,
{
    if i < 0 || i >= s.len() {
        s.len() as int
    } else if s[i] == t {
        i
    } else {
        spec_find_from(s, i + 1, t)
    }
}

/// Last index before `i` holding `t`, or -1.
pub open spec fn spec_rfind_before(s: Seq<u8>, i: int, t: u8) -> int
    decreases i,
{
    if i <= 0 {
        -1
    } else if s[i - 1] == t {
        i - 1
    } else {
        spec_rfind_before(s, i - 1, t)
    }
}

/// `f`/`t` motion: the column after searching right of `col` for `t`
/// (`before` stops one short); `col` when there is none.
pub open spec fn spec_find_char_forward(s: Seq<u8>, col: int, t: u8, before: bool) -> int {
    let i = spec_find_from(s, col + 1, t);
    if col + 1 <= i < s.len() {
        if before { i - 1 } else { i }
    } else {
        col
    }
}

/// `F`/`T` motion: the column after searching left of `col` for `t`
/// (`after` stops one short); `col` when there is none.
pub open spec fn spec_find_char_backward(s: Seq<u8>, col: int, t: u8, after: bool) -> int {
    let i = spec_rfind_before(s, col, t);
    if i >= 0 {
        if after { i + 1 } else { i }
    } else {
        col
    }
}

pub proof fn lemma_find_from_bounds(s: Seq<u8>, i: int, t: u8)
    requires
        0 <= i,
    ensures
        i <= spec_find_from(s, i, t) <= s.len() || (i > s.len() && spec_find_from(s, i, t) == s.len()),
        spec_find_from(s, i, t) < s.len() ==> s[spec_find_from(s, i, t)] == t,
        forall|k: int| i <= k < spec_find_from(s, i, t) ==> #[trigger] s[k] != t,
    decreases s.len() - i,
{
    if i < s.len() && s[i] != t {
        lemma_find_from_bounds(s, i + 1, t);
    }
}

pub proof fn lemma_rfind_bounds(s: Seq<u8>, i: int, t: u8)
    requires
        0 <= i <= s.len(),
    ensures
        -1 <= spec_rfind_before(s, i, t) < i,
        spec_rfind_before(s, i, t) >= 0 ==> s[spec_rfind_before(s, i, t)] == t,
        forall|k: int| spec_rfind_before(s, i, t) < k < i ==> #[trigger] s[k] != t,
    decreases i,
{
    if i > 0 && s[i - 1] != t {
        lemma_rfind_bounds(s, i - 1, t);
    }
}

/// Vim `e` inside one line (see [`spec_word_end_inline`]).
pub fn word_end_inline(bytes: &[u8], col: usize) -> (r: usize)
    requires
        col + 1 < bytes@.len(),
    ensures
        r == spec_word_end_inline(bytes@, col as int),
        col < r < bytes@.len(),
{
    proof {
        lemma_run_end_bounds(bytes@, col + 1, ByteClass::Space);
    }
    let n = bytes.len();
    assert(col + 1 < n);
    let c2 = skip_class(bytes, col + 1, ByteClass::Space);
    if c2 >= bytes.len() {
        return bytes.len() - 1;
    }
    let b = bytes[c2];
    let c = if is_word_char(b) { ByteClass::Word } else if is_space_byte(b) { ByteClass::Space } else { ByteClass::Punct };
    proof {
        lemma_run_end_bounds(bytes@, c2 as int, c);
    }
    let e = skip_class(bytes, c2, c);
    e - 1
}

/// Vim `de` end (see [`spec_word_run_end`]).
pub fn word_run_end(bytes: &[u8], col: usize) -> (r: usize)
    ensures
        r == spec_word_run_end(bytes@, col as int),
        col <= r,
        col <= bytes@.len() ==> r <= bytes@.len(),
{
    if col >= bytes.len() {
        return col;
    }
    let b = bytes[col];
    if is_word_char(b) {
        skip_class(bytes, col, ByteClass::Word)
    } else if is_punct_char(b) {
        skip_class(bytes, col, ByteClass::Punct)
    } else {
        let c2 = skip_class(bytes, col, ByteClass::Space);
        if c2 < bytes.len() {
            let b2 = bytes[c2];
            let c = if is_word_char(b2) { ByteClass::Word } else if is_space_byte(b2) { ByteClass::Space } else { ByteClass::Punct };
            skip_class(bytes, c2, c)
        } else {
            c2
        }
    }
}

/// `f`/`t` motion on one line (see [`spec_find_char_forward`]).
pub fn find_char_forward(bytes: &[u8], col: usize, target: u8, before: bool) -> (r: usize)
    requires
        col < usize::MAX,
    ensures
        r == spec_find_char_forward(bytes@, col as int, target, before),
{
    proof {
        lemma_find_from_bounds(bytes@, col + 1, target);
    }
    let mut i = col + 1;
    while i < bytes.len() && bytes[i] != target
        invariant
            col + 1 <= i,
            spec_find_from(bytes@, i as int, target) == spec_find_from(bytes@, col + 1, target),
        decreases bytes@.len() - i,
    {
        i = i + 1;
    }
    if i < bytes.len() {
        if before { i - 1 } else { i }
    } else {
        col
    }
}

/// `F`/`T` motion on one line (see [`spec_find_char_backward`]).
pub fn find_char_backward(bytes: &[u8], col: usize, target: u8, after: bool) -> (r: usize)
    requires
        col <= bytes@.len(),
    ensures
        r == spec_find_char_backward(bytes@, col as int, target, after),
{
    proof {
        lemma_rfind_bounds(bytes@, col as int, target);
    }
    let mut i = col;
    while i > 0 && bytes[i - 1] != target
        invariant
            i <= col <= bytes@.len(),
            spec_rfind_before(bytes@, i as int, target) == spec_rfind_before(bytes@, col as int, target),
        decreases i,
    {
        i = i - 1;
    }
    if i > 0 {
        if after { i } else { i - 1 }
    } else {
        col
    }
}

/// Index of the first line feed at or after `i`, or the length of `s`.
pub open spec fn next_newline(s: Seq<u8>, i: int) -> int
    decreases s.len() - i,
{
    if i < 0 || i >= s.len() {
        s.len() as int
    } else if s[i] == 10 {
        i
    } else {
        next_newline(s, i + 1)
    }
}

/// Byte offset of (`row`, `col`) where the line starting at `start` is line 0:
/// the column is clamped to the line's length; a row past the last line maps
/// to the end of the text.
pub open spec fn offset_from(s: Seq<u8>, start: int, row: nat, col: nat) -> int
    decreases row,
{
    let e = next_newline(s, start);
    if start < 0 || start > s.len() {
        s.len() as int
    } else if row == 0 {
        start + if col <= e - start { col as int } else { e - start }
    } else if e >= s.len() {
        s.len() as int
    } else {
        offset_from(s, e + 1, (row - 1) as nat, col)
    }
}

pub open spec fn spec_row_col_to_offset(s: Seq<u8>, row: nat, col: nat) -> int {
    offset_from(s, 0, row, col)
}

pub proof fn lemma_next_newline_bounds(s: Seq<u8>, i: int)
    requires
        0 <= i <= s.len(),
    ensures
        i <= next_newline(s, i) <= s.len(),
        next_newline(s, i) < s.len() ==> s[next_newline(s, i)] == 10,
        forall|k: int| i <= k < next_newline(s, i) ==> #[trigger] s[k] != 10,
    decreases s.len() - i,
{
    if i < s.len() && s[i] != 10 {
        lemma_next_newline_bounds(s, i + 1);
    }
}

pub proof fn lemma_offset_from_bounds(s: Seq<u8>, start: int, row: nat, col: nat)
    requires
        0 <= start <= s.len(),
    ensures
        start <= offset_from(s, start, row, col) <= s.len(),
    decreases row,
{
    lemma_next_newline_bounds(s, start);
    let e = next_newline(s, start);
    if row != 0 && e < s.len() {
        lemma_offset_from_bounds(s, e + 1, (row - 1) as nat, col);
    }
}

/// First line feed at or after `i`, or the length.
pub fn find_newline(text: &[u8], i: usize) -> (r: usize)
    requires
        i <= text@.len(),
    ensures
        r == next_newline(text@, i as int),
        i <= r <= text@.len(),
{
    let mut j = i;
    while j < text.len() && text[j] != 10
        invariant
            i <= j <= text@.len(),
            next_newline(text@, j as int) == next_newline(text@, i as int),
        decreases text@.len() - j,
    {
        j = j + 1;
    }
    j
}

/// Byte offset of (`row`, `col`) in `text`, lines split at `\n`; the column
/// is clamped to the line, a row past the last line gives the text's length.
pub fn row_col_to_offset(text: &[u8], row: usize, col: usize) -> (r: usize)
    ensures
        r == spec_row_col_to_offset(text@, row as nat, col as nat),
        r <= text@.len(),
{
    proof {
        lemma_offset_from_bounds(text@, 0, row as nat, col as nat);
    }
    let mut start: usize = 0;
    let mut i: usize = 0;
    while i < row
        invariant
            i <= row,
            start <= text@.len(),
            offset_from(text@, start as int, (row - i) as nat, col as nat)
                == spec_row_col_to_offset(text@, row as nat, col as nat),
        decreases row - i,
    {
        let e = find_newline(text, start);
        if e >= text.len() {
            return text.len();
        }
        start = e + 1;
        i = i + 1;
    }
    let e = find_newline(text, start);
    let len = e - start;
    if col <= len {
        start + col
    } else {
        e
    }
}

/// Number of line feeds in `s` at or after `i`.
pub open spec fn count_nl_from(s: Seq<u8>, i: int) -> int
    decreases s.len() - i,
{
    if i < 0 || i >= s.len() {
        0
    } else {
        (if s[i] == 10 { 1int } else { 0int }) + count_nl_from(s, i + 1)
    }
}

/// Number of lines that `str::lines` yields: a final line feed does not
/// start a new line, and empty text has none.
pub open spec fn spec_line_count(s: Seq<u8>) -> int {
    if s.len() == 0 {
        0
    } else if s[s.len() - 1] == 10 {
        count_nl_from(s, 0)
    } else {
        count_nl_from(s, 0) + 1
    }
}

/// Start of line `row`.
pub open spec fn spec_line_start(s: Seq<u8>, row: nat) -> int {
    spec_row_col_to_offset(s, row, 0)
}

/// End of line `row`, excluding its line feed and, when the line feed
/// follows one, the carriage return before it (as `str::lines` does).
pub open spec fn spec_line_end(s: Seq<u8>, row: nat) -> int {
    let st = spec_line_start(s, row);
    let nl = next_newline(s, st);
    if nl < s.len() && nl > st && s[nl - 1] == 13 {
        nl - 1
    } else {
        nl
    }
}

/// Length of line `row` as `str::lines` yields it, 0 past the last line.
pub open spec fn spec_line_len(s: Seq<u8>, row: int) -> int {
    if 0 <= row < spec_line_count(s) {
        spec_line_end(s, row as nat) - spec_line_start(s, row as nat)
    } else {
        0
    }
}

/// The bytes of line `row` (empty past the last line).
pub open spec fn spec_line(s: Seq<u8>, row: int) -> Seq<u8> {
    if 0 <= row < spec_line_count(s) {
        s.subrange(spec_line_start(s, row as nat), spec_line_end(s, row as nat))
    } else {
        Seq::empty()
    }
}

pub proof fn lemma_count_nl_bound(s: Seq<u8>, i: int)
    requires
        0 <= i <= s.len(),
    ensures
        0 <= count_nl_from(s, i) <= s.len() - i,
    decreases s.len() - i,
{
    if i < s.len() {
        lemma_count_nl_bound(s, i + 1);
    }
}

pub proof fn lemma_line_bounds(s: Seq<u8>, row: nat)
    ensures
        0 <= spec_line_start(s, row) <= spec_line_end(s, row) <= s.len(),
{
    lemma_offset_from_bounds(s, 0, row, 0);
    lemma_next_newline_bounds(s, spec_line_start(s, row));
}

pub proof fn lemma_count_nl_last(s: Seq<u8>, i: int)
    requires
        0 <= i < s.len(),
        s[s.len() - 1] != 10,
    ensures
        count_nl_from(s, i) <= s.len() - 1 - i,
    decreases s.len() - i,
{
    if i < s.len() - 1 {
        lemma_count_nl_last(s, i + 1);
    } else {
        assert(count_nl_from(s, i + 1) == 0);
    }
}

/// Number of lines of `text` (as `str::lines` counts them).
pub fn line_count(text: &[u8]) -> (r: usize)
    ensures
        r == spec_line_count(text@),
        r <= text@.len(),
{
    proof {
        lemma_count_nl_bound(text@, 0);
    }
    let mut n: usize = 0;
    let mut i: usize = 0;
    while i < text.len()
        invariant
            i <= text@.len(),
            n + count_nl_from(text@, i as int) == count_nl_from(text@, 0),
            count_nl_from(text@, 0) <= text@.len(),
        decreases text@.len() - i,
    {
        proof {
            lemma_count_nl_bound(text@, i as int);
            lemma_count_nl_bound(text@, i + 1);
        }
        if text[i] == 10 {
            n = n + 1;
        }
        i = i + 1;
    }
    proof {
        if text@.len() > 0 && text@[text@.len() - 1] != 10 {
            lemma_count_nl_last(text@, 0);
        }
    }
    if text.len() == 0 {
        0
    } else if text[text.len() - 1] == 10 {
        n
    } else {
        n + 1
    }
}

/// Byte range `[start, end)` of line `row` (an empty range at the end of
/// the text past the last line).
pub fn line_range(text: &[u8], row: usize) -> (r: (usize, usize))
    ensures
        r.0 == spec_line_start(text@, row as nat),
        r.1 == spec_line_end(text@, row as nat),
        r.0 <= r.1 <= text@.len(),
{
    proof {
        lemma_line_bounds(text@, row as nat);
    }
    let st = row_col_to_offset(text, row, 0);
    let nl = find_newline(text, st);
    if nl < text.len() && nl > st && text[nl - 1] == 13 {
        (st, nl - 1)
    } else {
        (st, nl)
    }
}

/// Length of line `row`, 0 past the last line.
pub fn line_len(text: &[u8], row: usize) -> (r: usize)
    ensures
        r == spec_line_len(text@, row as int),
{
    let n = line_count(text);
    if row < n {
        let (st, en) = line_range(text, row);
        en - st
    } else {
        0
    }
}

/// A copy of `s[start..end]`.
pub fn copy_range(s: &[u8], start: usize, end: usize) -> (r: Vec<u8>)
    requires
        start <= end <= s@.len(),
    ensures
        r@ == s@.subrange(start as int, end as int),
{
    let mut out: Vec<u8> = Vec::new();
    let mut i = start;
    while i < end
        invariant
            start <= i <= end <= s@.len(),
            out@ == s@.subrange(start as int, i as int),
        decreases end - i,
    {
        out.push(s[i]);
        i = i + 1;
    }
    out
}

/// The bytes of line `row` (empty past the last line).
pub fn line_at(text: &[u8], row: usize) -> (r: Vec<u8>)
    ensures
        r@ == spec_line(text@, row as int),
{
    let n = line_count(text);
    if row < n {
        let (st, en) = line_range(text, row);
        copy_range(text, st, en)
    } else {
        Vec::new()
    }
}

} // verus!
