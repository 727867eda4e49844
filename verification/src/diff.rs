use vstd::prelude::*;
use crate::strutil::{chars_of, string_from_chars};

verus! {

/// What a line of a line diff is.
#[derive(Clone, Copy, Debug, PartialEq, Eq, Structural)]
pub enum ChangeKind {
    Equal,
    Delete,
    Insert,
}

/// A name for the changes that similar's line diff
/// (`TextDiff::from_lines`, default settings) lists for turning `old` into
/// `new`: each line's kind and its text as `to_string_lossy` gives it, in
/// order.
pub uninterp spec fn spec_line_changes(old: Seq<char>, new: Seq<char>) -> Seq<(ChangeKind, Seq<char>)>;

/// The views of a list of changes.
pub open spec fn spec_change_views(v: Seq<(ChangeKind, String)>) -> Seq<(ChangeKind, Seq<char>)> {
    Seq::new(v.len(), |i: int| (v[i].0, v[i].1@))
}

/// The line changes between `old` and `new` (`similar::TextDiff::from_lines`
/// and `iter_all_changes`); the result is named by [`spec_line_changes`],
/// nothing more is stated of it.
#[verifier::external_body]
fn line_changes(old: &str, new: &str) -> (r: Vec<(ChangeKind, String)>)
    ensures
        spec_change_views(r@) == spec_line_changes(old@, new@),
{
    similar::TextDiff::from_lines(old, new)
        .iter_all_changes()
        .map(|c| {
            let kind = match c.tag() {
                similar::ChangeTag::Equal => ChangeKind::Equal,
                similar::ChangeTag::Delete => ChangeKind::Delete,
                similar::ChangeTag::Insert => ChangeKind::Insert,
            };
            (kind, c.to_string_lossy().into_owned())
        })
        .collect()
}

/// `s` without its trailing line feeds.
pub open spec fn spec_trim_newlines_end(s: Seq<char>) -> Seq<char>
    decreases s.len(),
{
    if s.len() > 0 && s.last() == '\n' {
        spec_trim_newlines_end(s.drop_last())
    } else {
        s
    }
}

/// The marker a diff line starts with.
pub open spec fn spec_marker(k: ChangeKind) -> Seq<char> {
    match k {
        ChangeKind::Equal => seq![' ', ' '],
        ChangeKind::Insert => seq!['+', ' '],
        ChangeKind::Delete => seq!['-', ' '],
    }
}

/// The text of a diff: one line per change, its marker, its text without
/// line breaks, and a line feed.
pub open spec fn spec_diff_text(cs: Seq<(ChangeKind, Seq<char>)>) -> Seq<char>
    decreases cs.len(),
{
    if cs.len() == 0 {
        Seq::empty()
    } else {
        spec_diff_text(cs.drop_last()) + spec_marker(cs.last().0) + spec_trim_newlines_end(cs.last().1) + seq!['\n']
    }
}

/// The diff text of a list of changes (see [`spec_diff_text`]).
pub fn diff_text(changes: &Vec<(ChangeKind, String)>) -> (r: String)
    ensures
        r@ == spec_diff_text(spec_change_views(changes@)),
{
    let mut out: Vec<char> = Vec::new();
    let mut i: usize = 0;
    while i < changes.len()
        invariant
            i <= changes@.len(),
            out@ == spec_diff_text(spec_change_views(changes@).subrange(0, i as int)),
        decreases changes@.len() - i,
    {
        let (kind, text) = (&changes[i].0, &changes[i].1);
        let ghost before = out@;
        match kind {
            ChangeKind::Equal => {
                out.push(' ');
                out.push(' ');
            },
            ChangeKind::Insert => {
                out.push('+');
                out.push(' ');
            },
            ChangeKind::Delete => {
                out.push('-');
                out.push(' ');
            },
        }
        let cs = chars_of(text.as_str());
        let mut end: usize = cs.len();
        proof {
            assert(cs@.subrange(0, end as int) =~= cs@);
        }
        while end > 0 && cs[end - 1] == '\n'
            invariant
                end <= cs@.len(),
                spec_trim_newlines_end(cs@.subrange(0, end as int)) == spec_trim_newlines_end(cs@),
            decreases end,
        {
            proof {
                assert(cs@.subrange(0, end as int).drop_last() =~= cs@.subrange(0, end - 1));
            }
            end = end - 1;
        }
        let ghost mid = out@;
        let mut k: usize = 0;
        while k < end
            invariant
                k <= end <= cs@.len(),
                out@ == mid + cs@.subrange(0, k as int),
            decreases end - k,
        {
            out.push(cs[k]);
            k = k + 1;
            proof {
                assert(mid + cs@.subrange(0, k as int) =~= (mid + cs@.subrange(0, k - 1)).push(cs@[k - 1]));
            }
        }
        out.push('\n');
        proof {
            let v = spec_change_views(changes@);
            assert(v.subrange(0, i + 1).drop_last() =~= v.subrange(0, i as int));
            assert(v.subrange(0, i + 1).last() == (*kind, text@));
            assert(spec_trim_newlines_end(cs@) == cs@.subrange(0, end as int));
            assert(out@ =~= spec_diff_text(v.subrange(0, i as int)) + spec_marker(*kind) + spec_trim_newlines_end(text@) + seq!['\n']);
        }
        i = i + 1;
    }
    proof {
        assert(spec_change_views(changes@).subrange(0, i as int) =~= spec_change_views(changes@));
    }
    string_from_chars(out.as_slice())
}

/// The line diff of two response bodies, as the diff view shows it: every
/// line marked as kept (two spaces), added (`+ `) or removed (`- `).
pub fn response_diff(old_body: &str, new_body: &str) -> (r: String)
    ensures
        r@ == spec_diff_text(spec_line_changes(old_body@, new_body@)),
{
    let changes = line_changes(old_body, new_body);
    diff_text(&changes)
}

} // verus!
