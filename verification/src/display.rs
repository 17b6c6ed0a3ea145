//! Terminal display helpers: the provenance badge of a relation view, cutting a window of display columns out of a text whose characters
//! may be zero, one or more columns wide, and the text shown for an open cell editor.
use vstd::prelude::*;
use crate::cell_editor::content_text;
use crate::relation_edit::CellEditorState;
use crate::text::{chars_of, owned};
use unicode_width::UnicodeWidthChar;

verus! {

/// What `UnicodeWidthChar::width` of the `unicode-width` crate gives for a character: its
/// display width in columns, or nothing for a control character.
pub uninterp spec fn unicode_char_width(c: char) -> Option<usize>;

/// `UnicodeWidthChar::width`. Its source gives: nothing for the control characters below
/// U+0020 and from U+007F up to U+00A0, one column for printable ASCII, and never more than
/// three columns (the lookup tables hold two-bit widths and the one special case of width three).
#[verifier::external_body]
fn char_width(c: char) -> (r: Option<usize>)
    ensures
        r == unicode_char_width(c),
        r matches Some(w) ==> w <= 3,
        ('\u{20}' <= c && c < '\u{7F}') ==> r == Some(1usize),
        (c < '\u{20}' || ('\u{7F}' <= c && c < '\u{A0}')) ==> r is None,
{
    c.width()
}

/// The columns a character takes; a control character takes none.
pub open spec fn columns_of(c: char) -> nat {
    match unicode_char_width(c) {
        Some(w) => w as nat,
        None => 0,
    }
}

/// The columns taken by the first `n` characters.
pub open spec fn columns_before(s: Seq<char>, n: int) -> nat
    decreases n,
{
    if n <= 0 {
        0
    } else {
        columns_before(s, n - 1) + columns_of(s[n - 1])
    }
}

/// What character `i` contributes to the window `[start, end)` of columns: itself when it lies
/// wholly inside, a space for each of its columns inside when it is cut by an edge, nothing when
/// it lies outside.
pub open spec fn window_piece(s: Seq<char>, i: int, start: nat, end: nat) -> Seq<char> {
    let begin = columns_before(s, i);
    let after = begin + columns_of(s[i]);
    let visible_start = if begin > start {
        begin
    } else {
        start
    };
    let visible_end = if after < end {
        after
    } else {
        end
    };
    if visible_start >= visible_end {
        Seq::empty()
    } else if begin >= start && after <= end {
        seq![s[i]]
    } else {
        Seq::new((visible_end - visible_start) as nat, |k: int| ' ')
    }
}

/// The window `[start, end)` of display columns of the first `n` characters.
pub open spec fn window_text(s: Seq<char>, n: int, start: nat, end: nat) -> Seq<char>
    decreases n,
{
    if n <= 0 {
        Seq::empty()
    } else {
        window_text(s, n - 1, start, end) + window_piece(s, n - 1, start, end)
    }
}

/// The part of `value` shown between display columns `start` (inclusive) and `end`
/// (exclusive): characters wholly inside are kept, a wide character cut by an edge shows as
/// spaces for its visible columns, so the result keeps the width of the window.
pub fn display_slice(value: &str, start: usize, end: usize) -> (out: String)
    ensures
        out@ == window_text(value@, value@.len() as int, start as nat, end as nat),
{
    let cs = chars_of(value);
    let mut cells: u128 = 0;
    let mut output = String::new();
    let mut i: usize = 0;
    while i < cs.len()
        invariant
            i <= cs.len(),
            cs@ == value@,
            cells == columns_before(cs@, i as int),
            cells <= 3 * i,
            output@ == window_text(cs@, i as int, start as nat, end as nat),
        decreases cs.len() - i,
    {
        let c = cs[i];
        let width: u128 = match char_width(c) {
            Some(w) => w as u128,
            None => 0,
        };
        let begin = cells;
        cells = cells + width;
        let visible_start: u128 = if begin > start as u128 {
            begin
        } else {
            start as u128
        };
        let visible_end: u128 = if cells < end as u128 {
            cells
        } else {
            end as u128
        };
        if visible_start < visible_end {
            if begin >= start as u128 && cells <= end as u128 {
                output.push(c);
            } else {
                let count = visible_end - visible_start;
                let mut k: u128 = 0;
                let ghost before = output@;
                while k < count
                    invariant
                        k <= count,
                        output@ == before + Seq::new(k as nat, |j: int| ' '),
                    decreases count - k,
                {
                    output.push(' ');
                    assert(Seq::new((k + 1) as nat, |j: int| ' ') =~= Seq::new(
                        k as nat,
                        |j: int| ' ',
                    ).push(' '));
                    k += 1;
                }
            }
        }
        assert(output@ =~= window_text(cs@, i + 1, start as nat, end as nat));
        i += 1;
    }
    output
}

/// The text an open cell editor holds, without any decoration.
pub fn cell_editor_value(editor: &CellEditorState) -> (out: String)
    ensures
        out@ == content_text(editor.input@.content),
{
    match editor.input.value() {
        Some(v) => owned(v),
        None => String::new(),
    }
}

/// Where the rows shown for a relation came from.
#[derive(Clone, Copy, Debug, PartialEq, Eq, Structural)]
pub enum RelationSnapshotProvenance {
    Live,
    OfflineSnapshot,
    ProfileDeletedSnapshot,
    OutOfScopeSnapshot,
}

/// The badge shown for each provenance.
pub open spec fn provenance_text(value: RelationSnapshotProvenance) -> Seq<char> {
    match value {
        RelationSnapshotProvenance::Live => "LIVE"@,
        RelationSnapshotProvenance::OfflineSnapshot => "OFFLINE SNAPSHOT"@,
        RelationSnapshotProvenance::ProfileDeletedSnapshot => "PROFILE DELETED SNAPSHOT"@,
        RelationSnapshotProvenance::OutOfScopeSnapshot => "OUT OF SCOPE SNAPSHOT"@,
    }
}

/// The badge of a provenance (see [`provenance_text`]).
pub fn provenance_label(value: RelationSnapshotProvenance) -> (r: &'static str)
    ensures
        r@ == provenance_text(value),
{
    match value {
        RelationSnapshotProvenance::Live => "LIVE",
        RelationSnapshotProvenance::OfflineSnapshot => "OFFLINE SNAPSHOT",
        RelationSnapshotProvenance::ProfileDeletedSnapshot => "PROFILE DELETED SNAPSHOT",
        RelationSnapshotProvenance::OutOfScopeSnapshot => "OUT OF SCOPE SNAPSHOT",
    }
}

} // verus!
