//! The cell editor: presence (default / NULL / value), typed drafts and their undo history.
use vstd::prelude::*;
use crate::json_buffer::{
    fresh_json, json_apply_changed, json_apply_state, json_edit, json_redo, json_undo, serde_json_check,
    JsonBuffer, JsonView,
};
use crate::temporal::{
    default_draft_text, draft_insert, draft_move_segment, draft_shift_month, draft_value,
    insert_fits, new_draft, round_trips, temporal_text, timestamp_draft_text, TemporalDraft,
    TemporalView,
};
use crate::text::{
    chars_of, find_char, find_char_exec, lemma_leading_ws_exact, lemma_trailing_ws_exact,
    lower_chars, lower_seq, nat_digits, owned, push_str, push_u128_digits, slice_vec, str_eq,
    string_of, trim, trim_chars, trim_end,
};
use crate::text_input::{
    fresh_input, input_apply, input_redo, input_undo, is_navigation, TextInput, TextInputEdit,
    TextInputView,
};
use crate::value::{cell_text, date_text, datetime_text, time_text, CellValue, CellView};

verus! {

/// The typed editor used for a column.
#[derive(Clone, Copy, Debug, Eq, PartialEq, Structural)]
pub enum CellEditorKind {
    Boolean,
    Date,
    Time,
    DateTime,
    Timestamp,
    Json,
}

/// The typed editor chosen for a column.
#[derive(Clone, Copy, Debug, Eq, PartialEq, Structural)]
pub struct ColumnEditorDescription {
    pub kind: CellEditorKind,
}

/// The database engine a column belongs to.
#[derive(Clone, Copy, Debug, Eq, PartialEq, Structural)]
pub enum DatabaseKind {
    Postgres,
    SqlServer,
    MySql,
    Sqlite,
}

/// Whether the cell is left to its default, explicitly NULL, or holds a value.
#[derive(Clone, Copy, Debug, Eq, PartialEq, Structural)]
pub enum CellEditorPresence {
    Unprovided,
    Null,
    Value,
}

/// A typed draft.
#[derive(Clone, Debug)]
pub enum TypedDraft {
    Boolean(TextInput),
    Temporal(TemporalDraft),
    Json(JsonBuffer),
}

/// What the editor holds.
#[derive(Clone, Debug)]
pub enum CellEditorContent {
    Text(TextInput),
    Typed { kind: CellEditorKind, draft: TypedDraft },
}

/// Model of a [`TypedDraft`].
pub enum DraftView {
    Boolean(TextInputView),
    Temporal(TemporalView),
    Json(JsonView),
}

/// Model of a [`CellEditorContent`].
pub enum ContentView {
    Text(TextInputView),
    Typed { kind: CellEditorKind, draft: DraftView },
}

impl View for TypedDraft {
    type V = DraftView;

    open spec fn view(&self) -> DraftView {
        match self {
            TypedDraft::Boolean(i) => DraftView::Boolean(i@),
            TypedDraft::Temporal(d) => DraftView::Temporal(d@),
            TypedDraft::Json(b) => DraftView::Json(b@),
        }
    }
}

impl View for CellEditorContent {
    type V = ContentView;

    open spec fn view(&self) -> ContentView {
        match self {
            CellEditorContent::Text(i) => ContentView::Text(i@),
            CellEditorContent::Typed { kind, draft } => ContentView::Typed { kind: *kind, draft: draft@ },
        }
    }
}

/// An input model without undo history.
pub open spec fn strip_input(v: TextInputView) -> TextInputView {
    TextInputView { history: Seq::empty(), redo: Seq::empty(), ..v }
}

/// Content without the undo histories of its inputs: what a snapshot keeps.
pub open spec fn strip_content(c: ContentView) -> ContentView {
    match c {
        ContentView::Text(i) => ContentView::Text(strip_input(i)),
        ContentView::Typed { kind, draft } => ContentView::Typed {
            kind,
            draft: match draft {
                DraftView::Boolean(i) => DraftView::Boolean(strip_input(i)),
                DraftView::Temporal(d) => DraftView::Temporal(
                    TemporalView { input: strip_input(d.input), ..d },
                ),
                DraftView::Json(b) => DraftView::Json(
                    JsonView { history: Seq::empty(), redo: Seq::empty(), ..b },
                ),
            },
        },
    }
}

/// Presence and content saved for undo.
pub struct SnapshotView {
    pub presence: CellEditorPresence,
    pub content: ContentView,
}

/// Presence and content (without inner histories) saved for undo.
#[derive(Clone, Debug)]
pub struct CellEditorSnapshot {
    presence: CellEditorPresence,
    content: CellEditorContent,
}

impl View for CellEditorSnapshot {
    type V = SnapshotView;

    closed spec fn view(&self) -> SnapshotView {
        SnapshotView { presence: self.presence, content: strip_content(self.content@) }
    }
}

/// The models of a stack of snapshots.
pub open spec fn snapshots_view(s: Seq<CellEditorSnapshot>) -> Seq<SnapshotView> {
    s.map_values(|x: CellEditorSnapshot| x@)
}

/// The editor of one cell.
#[derive(Clone, Debug)]
pub struct CellEditorBuffer {
    pub presence: CellEditorPresence,
    pub content: CellEditorContent,
    pub presence_history: Vec<CellEditorSnapshot>,
    pub presence_redo: Vec<CellEditorSnapshot>,
}

/// Model of a [`CellEditorBuffer`].
pub struct BufferView {
    pub presence: CellEditorPresence,
    pub content: ContentView,
    pub presence_history: Seq<SnapshotView>,
    pub presence_redo: Seq<SnapshotView>,
}

impl View for CellEditorBuffer {
    type V = BufferView;

    open spec fn view(&self) -> BufferView {
        BufferView {
            presence: self.presence,
            content: self.content@,
            presence_history: snapshots_view(self.presence_history@),
            presence_redo: snapshots_view(self.presence_redo@),
        }
    }
}

/// The snapshot of a buffer's current presence and content.
pub open spec fn snapshot_of(v: BufferView) -> SnapshotView {
    SnapshotView { presence: v.presence, content: strip_content(v.content) }
}

/// A fresh buffer.
pub open spec fn fresh_buffer(presence: CellEditorPresence, content: ContentView) -> BufferView {
    BufferView { presence, content, presence_history: Seq::empty(), presence_redo: Seq::empty() }
}

/// The presence history after saving `before`: at most 100 entries, the oldest dropped.
pub open spec fn record_transition(history: Seq<SnapshotView>, before: SnapshotView) -> Seq<SnapshotView> {
    (if history.len() == 100 {
        history.drop_first()
    } else {
        history
    }).push(before)
}

/// An edit applied to the content, and whether it changed it.
pub open spec fn content_apply(c: ContentView, e: TextInputEdit) -> (ContentView, bool) {
    match c {
        ContentView::Text(i) => {
            let (j, ch) = input_apply(i, e);
            (ContentView::Text(j), ch)
        },
        ContentView::Typed { kind, draft } => match draft {
            DraftView::Boolean(i) => {
                let (j, ch) = input_apply(i, e);
                (ContentView::Typed { kind, draft: DraftView::Boolean(j) }, ch)
            },
            DraftView::Temporal(d) => match e {
                TextInputEdit::Insert(ch) => {
                    let nd = draft_insert(d, ch);
                    (
                        ContentView::Typed { kind, draft: DraftView::Temporal(nd) },
                        nd.input.value != d.input.value,
                    )
                },
                _ => {
                    let (j, ch) = input_apply(d.input, e);
                    (
                        ContentView::Typed {
                            kind,
                            draft: DraftView::Temporal(TemporalView { input: j, ..d }),
                        },
                        ch,
                    )
                },
            },
            DraftView::Json(b) => (
                ContentView::Typed { kind, draft: DraftView::Json(json_apply_state(b, e)) },
                json_apply_changed(b, e),
            ),
        },
    }
}

/// Undo inside the content, and whether it changed anything (JSON always says so).
pub open spec fn content_undo(c: ContentView) -> (ContentView, bool) {
    match c {
        ContentView::Text(i) => {
            let (j, ch) = input_undo(i);
            (ContentView::Text(j), ch)
        },
        ContentView::Typed { kind, draft } => match draft {
            DraftView::Boolean(i) => {
                let (j, ch) = input_undo(i);
                (ContentView::Typed { kind, draft: DraftView::Boolean(j) }, ch)
            },
            DraftView::Temporal(d) => {
                let (j, ch) = input_undo(d.input);
                (ContentView::Typed { kind, draft: DraftView::Temporal(TemporalView { input: j, ..d }) }, ch)
            },
            DraftView::Json(b) => (ContentView::Typed { kind, draft: DraftView::Json(json_undo(b)) }, true),
        },
    }
}

/// Redo inside the content, and whether it changed anything (JSON always says so).
pub open spec fn content_redo(c: ContentView) -> (ContentView, bool) {
    match c {
        ContentView::Text(i) => {
            let (j, ch) = input_redo(i);
            (ContentView::Text(j), ch)
        },
        ContentView::Typed { kind, draft } => match draft {
            DraftView::Boolean(i) => {
                let (j, ch) = input_redo(i);
                (ContentView::Typed { kind, draft: DraftView::Boolean(j) }, ch)
            },
            DraftView::Temporal(d) => {
                let (j, ch) = input_redo(d.input);
                (ContentView::Typed { kind, draft: DraftView::Temporal(TemporalView { input: j, ..d }) }, ch)
            },
            DraftView::Json(b) => (ContentView::Typed { kind, draft: DraftView::Json(json_redo(b)) }, true),
        },
    }
}

/// Cell-level undo: first a presence transition whose saved content differs from the current
/// one; else an undo inside the content, which also takes back the transition it lands on.
pub open spec fn buffer_undo(v: BufferView) -> (BufferView, bool) {
    if v.presence_history.len() > 0 && strip_content(v.content) != v.presence_history.last().content {
        let s = v.presence_history.last();
        (
            BufferView {
                presence: s.presence,
                content: s.content,
                presence_history: v.presence_history.drop_last(),
                presence_redo: v.presence_redo.push(snapshot_of(v)),
            },
            true,
        )
    } else {
        let (c, changed) = content_undo(v.content);
        if !changed {
            (BufferView { content: c, ..v }, false)
        } else if v.presence_history.len() > 0 && strip_content(c) == v.presence_history.last().content {
            let s = v.presence_history.last();
            (
                BufferView {
                    presence: s.presence,
                    content: s.content,
                    presence_history: v.presence_history.drop_last(),
                    presence_redo: v.presence_redo.push(snapshot_of(v)),
                },
                true,
            )
        } else {
            (BufferView { content: c, ..v }, true)
        }
    }
}

/// Cell-level redo: a redone presence transition first, else a redo inside the content.
pub open spec fn buffer_redo(v: BufferView) -> (BufferView, bool) {
    if v.presence_redo.len() > 0 {
        let s = v.presence_redo.last();
        (
            BufferView {
                presence: s.presence,
                content: s.content,
                presence_redo: v.presence_redo.drop_last(),
                presence_history: v.presence_history.push(snapshot_of(v)),
            },
            true,
        )
    } else {
        let (c, changed) = content_redo(v.content);
        (BufferView { content: c, ..v }, changed)
    }
}

/// `apply_text_edit`: undo and redo act on the cell; other edits act on the content, and a
/// change that is not mere navigation makes the cell a value, saving the previous presence.
pub open spec fn buffer_apply(v: BufferView, e: TextInputEdit) -> (BufferView, bool) {
    match e {
        TextInputEdit::Undo => buffer_undo(v),
        TextInputEdit::Redo => buffer_redo(v),
        _ => {
            let (c, changed) = content_apply(v.content, e);
            if changed && !is_navigation(e) {
                (
                    BufferView {
                        presence: CellEditorPresence::Value,
                        content: c,
                        presence_history: record_transition(v.presence_history, snapshot_of(v)),
                        presence_redo: Seq::empty(),
                    },
                    true,
                )
            } else {
                (BufferView { content: c, ..v }, changed)
            }
        },
    }
}

/// Whether an edit can be applied without leaving the text of a temporal draft.
pub open spec fn edit_fits(c: ContentView, e: TextInputEdit) -> bool {
    match (c, e) {
        (ContentView::Typed { kind, draft: DraftView::Temporal(d) }, TextInputEdit::Insert(ch)) => insert_fits(d, ch),
        _ => true,
    }
}

/// The text the editor shows.
pub open spec fn content_text(c: ContentView) -> Seq<char> {
    match c {
        ContentView::Text(i) => i.value,
        ContentView::Typed { kind, draft } => match draft {
            DraftView::Boolean(i) => i.value,
            DraftView::Temporal(d) => d.input.value,
            DraftView::Json(b) => b.value,
        },
    }
}

/// `true`/`t` and `false`/`f`, ignoring surrounding whitespace and ASCII case.
pub open spec fn boolean_word(text: Seq<char>) -> Option<bool> {
    let w = lower_seq(trim(text));
    if w == "true"@ || w == "t"@ {
        Some(true)
    } else if w == "false"@ || w == "f"@ {
        Some(false)
    } else {
        None
    }
}

/// `"{message} at {line}:{column}"`.
pub open spec fn json_error_text(message: Seq<char>, line: usize, column: usize) -> Seq<char> {
    message + " at "@ + nat_digits(line as nat) + ":"@ + nat_digits(column as nat)
}

/// What a typed draft parses to, without an original cell; `None` for plain text (and for a
/// boolean draft under another kind).
pub open spec fn content_typed_value(c: ContentView) -> Option<Result<CellView, Seq<char>>> {
    match c {
        ContentView::Text(_) => None,
        ContentView::Typed { kind, draft } => match draft {
            DraftView::Boolean(i) => if kind == CellEditorKind::Boolean {
                match boolean_word(i.value) {
                    Some(b) => Some(Ok(CellView::Boolean(b))),
                    None => Some(Err("invalid boolean"@)),
                }
            } else {
                None
            },
            DraftView::Temporal(d) => Some(draft_value(d)),
            DraftView::Json(b) => match serde_json_check(b.value) {
                None => Some(
                    Ok(
                        if b.sql_null {
                            CellView::Null
                        } else {
                            CellView::Text(b.value)
                        },
                    ),
                ),
                Some((m, l, col)) => Some(Err(json_error_text(m, l, col))),
            },
        },
    }
}

/// Whether the content is a temporal draft holding the draft text of `v`, a value of its kind
/// that chrono reads back from that text.
pub open spec fn holds_draft_text_of(c: ContentView, v: CellView) -> bool {
    match c {
        ContentView::Typed { kind, draft: DraftView::Temporal(d) } => round_trips(d.kind, v)
            && d.input.value == temporal_text(v),
        _ => false,
    }
}

/// The value the editor stands for: nothing when unprovided, NULL, or the parsed draft (plain
/// text as text).
pub open spec fn presence_value(v: BufferView) -> Result<Option<CellView>, Seq<char>> {
    match v.presence {
        CellEditorPresence::Unprovided => Ok(None),
        CellEditorPresence::Null => Ok(Some(CellView::Null)),
        CellEditorPresence::Value => match content_typed_value(v.content) {
            Some(Ok(x)) => Ok(Some(x)),
            Some(Err(e)) => Err(e),
            None => Ok(Some(CellView::Text(content_text(v.content)))),
        },
    }
}

/// The draft a typed editor starts from for a text (empty JSON becomes `null`; empty temporal
/// text the kind's default).
pub open spec fn typed_text_draft(presence: CellEditorPresence, kind: CellEditorKind, text: Seq<char>) -> DraftView {
    match kind {
        CellEditorKind::Boolean => DraftView::Boolean(fresh_input(text)),
        CellEditorKind::Json => DraftView::Json(
            fresh_json(
                if text.len() == 0 {
                    "null"@
                } else {
                    text
                },
                presence == CellEditorPresence::Null,
            ),
        ),
        _ => DraftView::Temporal(
            new_draft(
                kind,
                if text.len() == 0 {
                    default_draft_text(kind).unwrap()
                } else {
                    text
                },
            ),
        ),
    }
}

/// The draft a typed editor starts from for a value of the column.
pub open spec fn typed_value_draft(kind: CellEditorKind, v: CellView) -> DraftView {
    match (kind, v) {
        (CellEditorKind::Boolean, _) => DraftView::Boolean(fresh_input(cell_text(v))),
        (CellEditorKind::Json, CellView::Text(t)) => DraftView::Json(fresh_json(t, false)),
        (CellEditorKind::Json, _) => DraftView::Json(fresh_json(cell_text(v), false)),
        (CellEditorKind::Date, CellView::Date(d)) => DraftView::Temporal(
            new_draft(CellEditorKind::Date, date_text(d)),
        ),
        (CellEditorKind::Time, CellView::Time(t)) => DraftView::Temporal(
            new_draft(CellEditorKind::Time, time_text(t)),
        ),
        (CellEditorKind::DateTime, CellView::DateTime(d)) => DraftView::Temporal(
            new_draft(CellEditorKind::DateTime, datetime_text(d)),
        ),
        (CellEditorKind::Timestamp, CellView::Timestamp(t)) => DraftView::Temporal(
            TemporalView {
                fraction_width: nat_digits(t.local.time.nanosecond as nat).len(),
                ..new_draft(CellEditorKind::Timestamp, timestamp_draft_text(t))
            },
        ),
        _ => typed_text_draft(CellEditorPresence::Value, kind, cell_text(v)),
    }
}

/// The editor opened on a cell: NULL shows `null` (or a typed NULL draft); other values their
/// complete text (or a typed draft of them).
pub open spec fn buffer_from_value(v: CellView, description: Option<ColumnEditorDescription>) -> BufferView {
    match (v, description) {
        (CellView::Null, None) => fresh_buffer(CellEditorPresence::Null, ContentView::Text(fresh_input("null"@))),
        (CellView::Null, Some(d)) => fresh_buffer(
            CellEditorPresence::Null,
            ContentView::Typed { kind: d.kind, draft: typed_text_draft(CellEditorPresence::Null, d.kind, Seq::empty()) },
        ),
        (_, None) => fresh_buffer(CellEditorPresence::Value, ContentView::Text(fresh_input(cell_text(v)))),
        (_, Some(d)) => fresh_buffer(
            CellEditorPresence::Value,
            ContentView::Typed { kind: d.kind, draft: typed_value_draft(d.kind, v) },
        ),
    }
}

/// Copy of an input with its state but no history.
fn copy_input_state(i: &TextInput) -> (r: TextInput)
    ensures
        r@ == strip_input(i@),
{
    i.without_history()
}

/// Copy of content without inner histories.
fn strip_copy(c: &CellEditorContent) -> (r: CellEditorContent)
    ensures
        r@ == strip_content(c@),
{
    match c {
        CellEditorContent::Text(i) => CellEditorContent::Text(copy_input_state(i)),
        CellEditorContent::Typed { kind, draft } => {
            let d = match draft {
                TypedDraft::Boolean(i) => TypedDraft::Boolean(copy_input_state(i)),
                TypedDraft::Temporal(t) => TypedDraft::Temporal(t.without_history()),
                TypedDraft::Json(b) => TypedDraft::Json(b.without_history()),
            };
            CellEditorContent::Typed { kind: *kind, draft: d }
        },
    }
}

/// Whether two contents hold the same state (inner histories aside).
fn same_content(a: &CellEditorContent, b: &CellEditorContent) -> (r: bool)
    ensures
        r == (strip_content(a@) == strip_content(b@)),
{
    match (a, b) {
        (CellEditorContent::Text(x), CellEditorContent::Text(y)) => {
            let r = x.same_state(y);
            assert(r ==> strip_content(a@) =~= strip_content(b@));
            r
        },
        (CellEditorContent::Typed { kind: k1, draft: d1 }, CellEditorContent::Typed { kind: k2, draft: d2 }) => {
            if *k1 != *k2 {
                return false;
            }
            match (d1, d2) {
                (TypedDraft::Boolean(x), TypedDraft::Boolean(y)) => {
                    let r = x.same_state(y);
                    assert(r ==> strip_content(a@) =~= strip_content(b@));
                    r
                },
                (TypedDraft::Temporal(x), TypedDraft::Temporal(y)) => {
                    let r = x.same_state(y);
                    assert(r ==> strip_content(a@) =~= strip_content(b@));
                    r
                },
                (TypedDraft::Json(x), TypedDraft::Json(y)) => {
                    let r = x.same_core(y);
                    assert(r ==> strip_content(a@) =~= strip_content(b@));
                    r
                },
                _ => false,
            }
        },
        _ => false,
    }
}

impl CellEditorSnapshot {
    /// A copy of the snapshot.
    fn copy(&self) -> (r: CellEditorSnapshot)
        ensures
            r@ == self@,
    {
        let r = CellEditorSnapshot { presence: self.presence, content: strip_copy(&self.content) };
        assert(strip_content(strip_content(self.content@)) =~= strip_content(self.content@)) by {
            lemma_strip_idempotent(self.content@);
        }
        r
    }
}

proof fn lemma_strip_idempotent(c: ContentView)
    ensures
        strip_content(strip_content(c)) == strip_content(c),
{
    match c {
        ContentView::Text(i) => {
            assert(strip_input(strip_input(i)) =~= strip_input(i));
        },
        ContentView::Typed { kind, draft } => match draft {
            DraftView::Boolean(i) => {
                assert(strip_input(strip_input(i)) =~= strip_input(i));
            },
            DraftView::Temporal(d) => {
                assert(strip_input(strip_input(d.input)) =~= strip_input(d.input));
                assert(TemporalView { input: strip_input(strip_input(d.input)), ..d } =~= TemporalView {
                    input: strip_input(d.input),
                    ..d
                });
            },
            DraftView::Json(b) => {
                assert(JsonView { history: Seq::empty(), redo: Seq::empty(), ..b } =~= JsonView {
                    history: Seq::empty(),
                    redo: Seq::empty(),
                    ..JsonView { history: Seq::empty(), redo: Seq::empty(), ..b }
                });
            },
        },
    }
}

/// Exec [`boolean_word`].
fn boolean_word_exec(text: &str) -> (r: Option<bool>)
    ensures
        r == boolean_word(text@),
{
    let cs = chars_of(text);
    let t = trim_chars(&cs);
    let w = string_of(&lower_chars(&t));
    if str_eq(w.as_str(), "true") || str_eq(w.as_str(), "t") {
        Some(true)
    } else if str_eq(w.as_str(), "false") || str_eq(w.as_str(), "f") {
        Some(false)
    } else {
        None
    }
}

impl CellEditorBuffer {
    fn text(presence: CellEditorPresence, input: TextInput) -> (r: CellEditorBuffer)
        ensures
            r@ == fresh_buffer(presence, ContentView::Text(input@)),
    {
        let r = CellEditorBuffer {
            presence,
            content: CellEditorContent::Text(input),
            presence_history: Vec::new(),
            presence_redo: Vec::new(),
        };
        assert(r@.presence_history =~= Seq::empty());
        assert(r@.presence_redo =~= Seq::empty());
        r
    }

    fn typed(presence: CellEditorPresence, kind: CellEditorKind, draft: TypedDraft) -> (r: CellEditorBuffer)
        ensures
            r@ == fresh_buffer(presence, ContentView::Typed { kind, draft: draft@ }),
    {
        let r = CellEditorBuffer {
            presence,
            content: CellEditorContent::Typed { kind, draft },
            presence_history: Vec::new(),
            presence_redo: Vec::new(),
        };
        assert(r@.presence_history =~= Seq::empty());
        assert(r@.presence_redo =~= Seq::empty());
        r
    }

    /// The editor for a cell (see [`buffer_from_value`]).
    pub fn from_value(value: &CellValue, description: Option<ColumnEditorDescription>) -> (r: CellEditorBuffer)
        ensures
            r@ == buffer_from_value(value@, description),
    {
        match value {
            CellValue::Null => match description {
                None => Self::text(CellEditorPresence::Null, TextInput::from("null")),
                Some(d) => Self::typed_null(d.kind),
            },
            _ => match description {
                None => {
                    let text = value.clipboard_text();
                    Self::text(CellEditorPresence::Value, TextInput::from(text.as_str()))
                },
                Some(d) => Self::typed_from_value(d.kind, value),
            },
        }
    }

    /// A plain-text editor left to the column default.
    pub fn unprovided() -> (r: CellEditorBuffer)
        ensures
            r@ == fresh_buffer(CellEditorPresence::Unprovided, ContentView::Text(fresh_input(Seq::empty()))),
    {
        Self::text(CellEditorPresence::Unprovided, TextInput::new())
    }

    /// A typed editor left to the column default.
    pub fn typed_unprovided(kind: CellEditorKind) -> (r: CellEditorBuffer)
        ensures
            r@ == fresh_buffer(
                CellEditorPresence::Unprovided,
                ContentView::Typed { kind, draft: typed_text_draft(CellEditorPresence::Unprovided, kind, Seq::empty()) },
            ),
    {
        proof {
            reveal_strlit("");
        }
        assert(""@ =~= Seq::<char>::empty());
        Self::typed_from_text(CellEditorPresence::Unprovided, kind, "")
    }

    /// A typed editor holding NULL.
    pub fn typed_null(kind: CellEditorKind) -> (r: CellEditorBuffer)
        ensures
            r@ == fresh_buffer(
                CellEditorPresence::Null,
                ContentView::Typed { kind, draft: typed_text_draft(CellEditorPresence::Null, kind, Seq::empty()) },
            ),
    {
        proof {
            reveal_strlit("");
        }
        assert(""@ =~= Seq::<char>::empty());
        Self::typed_from_text(CellEditorPresence::Null, kind, "")
    }

    fn typed_from_text(presence: CellEditorPresence, kind: CellEditorKind, text: &str) -> (r: CellEditorBuffer)
        ensures
            r@ == fresh_buffer(presence, ContentView::Typed { kind, draft: typed_text_draft(presence, kind, text@) }),
    {
        let empty = crate::text::char_count(text) == 0;
        let draft = match kind {
            CellEditorKind::Boolean => TypedDraft::Boolean(TextInput::from(text)),
            CellEditorKind::Json => {
                let v = if empty {
                    "null"
                } else {
                    text
                };
                TypedDraft::Json(JsonBuffer::with_null_flag(v, presence == CellEditorPresence::Null))
            },
            _ => match TemporalDraft::from_kind_and_text(kind, text) {
                Some(d) => TypedDraft::Temporal(d),
                None => {
                    assert(false);
                    TypedDraft::Boolean(TextInput::new())
                },
            },
        };
        Self::typed(presence, kind, draft)
    }

    fn typed_from_value(kind: CellEditorKind, value: &CellValue) -> (r: CellEditorBuffer)
        requires
            !(value@ is Null),
        ensures
            r@ == fresh_buffer(CellEditorPresence::Value, ContentView::Typed { kind, draft: typed_value_draft(kind, value@) }),
    {
        let draft = match (kind, value) {
            (CellEditorKind::Boolean, _) => {
                let t = value.clipboard_text();
                TypedDraft::Boolean(TextInput::from(t.as_str()))
            },
            (CellEditorKind::Json, CellValue::Text(v)) => TypedDraft::Json(JsonBuffer::new(v.as_str())),
            (CellEditorKind::Json, _) => {
                let t = value.clipboard_text();
                TypedDraft::Json(JsonBuffer::new(t.as_str()))
            },
            (CellEditorKind::Date, CellValue::Date(v)) => TypedDraft::Temporal(TemporalDraft::date(*v)),
            (CellEditorKind::Time, CellValue::Time(v)) => TypedDraft::Temporal(TemporalDraft::from_time(*v)),
            (CellEditorKind::DateTime, CellValue::DateTime(v)) => TypedDraft::Temporal(
                TemporalDraft::from_datetime(*v),
            ),
            (CellEditorKind::Timestamp, CellValue::Timestamp(v)) => TypedDraft::Temporal(
                TemporalDraft::from_timestamp(*v),
            ),
            _ => {
                let t = value.clipboard_text();
                return Self::typed_from_text(CellEditorPresence::Value, kind, t.as_str());
            },
        };
        Self::typed(CellEditorPresence::Value, kind, draft)
    }

    /// The presence.
    pub fn presence(&self) -> (r: CellEditorPresence)
        ensures
            r == self@.presence,
    {
        self.presence
    }

    /// Whether the cell is NULL.
    pub fn is_null(&self) -> (r: bool)
        ensures
            r == (self@.presence == CellEditorPresence::Null),
    {
        self.presence == CellEditorPresence::Null
    }

    /// Whether the cell is left to its default.
    pub fn is_unprovided(&self) -> (r: bool)
        ensures
            r == (self@.presence == CellEditorPresence::Unprovided),
    {
        self.presence == CellEditorPresence::Unprovided
    }

    /// Whether the editor is a boolean editor.
    pub fn is_boolean(&self) -> (r: bool)
        ensures
            r == (self@.content matches ContentView::Typed { kind, .. } && kind == CellEditorKind::Boolean),
    {
        match &self.content {
            CellEditorContent::Typed { kind: CellEditorKind::Boolean, .. } => true,
            _ => false,
        }
    }

    /// The temporal draft, if the editor has one.
    pub fn temporal_draft(&self) -> (r: Option<&TemporalDraft>)
        ensures
            match self@.content {
                ContentView::Typed { kind, draft: DraftView::Temporal(d) } => r matches Some(x) && x@ == d,
                _ => r is None,
            },
    {
        match &self.content {
            CellEditorContent::Typed { draft: TypedDraft::Temporal(d), .. } => Some(d),
            _ => None,
        }
    }

    /// Marks the cell as holding a value.
    pub fn activate_value(&mut self)
        ensures
            final(self)@ == (BufferView { presence: CellEditorPresence::Value, ..old(self)@ }),
    {
        self.presence = CellEditorPresence::Value;
    }

    /// Leaves the cell to its default.
    pub fn set_unprovided(&mut self)
        ensures
            final(self)@ == (BufferView { presence: CellEditorPresence::Unprovided, ..old(self)@ }),
    {
        self.presence = CellEditorPresence::Unprovided;
    }

    /// Marks the cell NULL.
    pub fn set_null(&mut self)
        ensures
            final(self)@ == (BufferView { presence: CellEditorPresence::Null, ..old(self)@ }),
    {
        self.presence = CellEditorPresence::Null;
    }

    fn snapshot(&self) -> (r: CellEditorSnapshot)
        ensures
            r@ == snapshot_of(self@),
    {
        let r = CellEditorSnapshot { presence: self.presence, content: strip_copy(&self.content) };
        proof {
            lemma_strip_idempotent(self.content@);
        }
        r
    }

    fn restore_snapshot(&mut self, snapshot: CellEditorSnapshot)
        ensures
            final(self)@ == (BufferView {
                presence: snapshot@.presence,
                content: snapshot@.content,
                ..old(self)@
            }),
    {
        let c = strip_copy(&snapshot.content);
        self.presence = snapshot.presence;
        self.content = c;
    }

    fn record_presence_transition(&mut self, before: CellEditorSnapshot)
        ensures
            final(self)@ == (BufferView {
                presence_history: record_transition(old(self)@.presence_history, before@),
                presence_redo: Seq::empty(),
                ..old(self)@
            }),
    {
        if self.presence_history.len() == 100 {
            self.presence_history.remove(0);
            assert(snapshots_view(self.presence_history@) =~= old(self)@.presence_history.drop_first());
        }
        let ghost mid = snapshots_view(self.presence_history@);
        self.presence_history.push(before);
        assert(snapshots_view(self.presence_history@) =~= mid.push(before@));
        self.presence_redo.clear();
        assert(snapshots_view(self.presence_redo@) =~= Seq::empty());
    }

    fn last_history(&self) -> (r: Option<CellEditorSnapshot>)
        ensures
            self@.presence_history.len() == 0 ==> r is None,
            self@.presence_history.len() > 0 ==> (r matches Some(s) && s@ == self@.presence_history.last()),
    {
        let n = self.presence_history.len();
        if n == 0 {
            None
        } else {
            Some(self.presence_history[n - 1].copy())
        }
    }

    fn content_undo_step(&mut self) -> (changed: bool)
        ensures
            (final(self)@.content, changed) == content_undo(old(self)@.content),
            final(self)@.presence == old(self)@.presence,
            final(self)@.presence_history == old(self)@.presence_history,
            final(self)@.presence_redo == old(self)@.presence_redo,
    {
        match &mut self.content {
            CellEditorContent::Text(input) => input.undo(),
            CellEditorContent::Typed { draft, .. } => match draft {
                TypedDraft::Boolean(input) => input.undo(),
                TypedDraft::Temporal(d) => d.input_mut().undo(),
                TypedDraft::Json(b) => {
                    b.undo();
                    true
                },
            },
        }
    }

    fn content_redo_step(&mut self) -> (changed: bool)
        ensures
            (final(self)@.content, changed) == content_redo(old(self)@.content),
            final(self)@.presence == old(self)@.presence,
            final(self)@.presence_history == old(self)@.presence_history,
            final(self)@.presence_redo == old(self)@.presence_redo,
    {
        match &mut self.content {
            CellEditorContent::Text(input) => input.redo(),
            CellEditorContent::Typed { draft, .. } => match draft {
                TypedDraft::Boolean(input) => input.redo(),
                TypedDraft::Temporal(d) => d.input_mut().redo(),
                TypedDraft::Json(b) => {
                    b.redo();
                    true
                },
            },
        }
    }

    /// Cell-level undo (see [`buffer_undo`]).
    pub fn undo(&mut self) -> (r: bool)
        ensures
            (final(self)@, r) == buffer_undo(old(self)@),
    {
        match self.last_history() {
            Some(snapshot) => {
                if !same_content(&self.content, &snapshot.content) {
                    proof {
                        lemma_strip_idempotent(snapshot.content@);
                    }
                    let current = self.snapshot();
                    self.presence_history.pop();
                    let ghost mid = snapshots_view(self.presence_redo@);
                    self.presence_redo.push(current);
                    assert(snapshots_view(self.presence_redo@) =~= mid.push(current@));
                    assert(snapshots_view(self.presence_history@) =~= old(self)@.presence_history.drop_last());
                    self.restore_snapshot(snapshot);
                    return true;
                }
            },
            None => {},
        }
        let before = self.snapshot();
        let changed = self.content_undo_step();
        if !changed {
            return false;
        }
        match self.last_history() {
            Some(snapshot) => {
                proof {
                    lemma_strip_idempotent(snapshot.content@);
                }
                if same_content(&self.content, &snapshot.content) {
                    self.presence_history.pop();
                    let ghost mid = snapshots_view(self.presence_redo@);
                    self.presence_redo.push(before);
                    assert(snapshots_view(self.presence_redo@) =~= mid.push(before@));
                    assert(snapshots_view(self.presence_history@) =~= old(self)@.presence_history.drop_last());
                    self.restore_snapshot(snapshot);
                }
            },
            None => {},
        }
        true
    }

    /// Cell-level redo (see [`buffer_redo`]).
    pub fn redo(&mut self) -> (r: bool)
        ensures
            (final(self)@, r) == buffer_redo(old(self)@),
    {
        let n = self.presence_redo.len();
        if n > 0 {
            let snapshot = self.presence_redo[n - 1].copy();
            let current = self.snapshot();
            self.presence_redo.pop();
            let ghost mid = snapshots_view(self.presence_history@);
            self.presence_history.push(current);
            assert(snapshots_view(self.presence_history@) =~= mid.push(current@));
            assert(snapshots_view(self.presence_redo@) =~= old(self)@.presence_redo.drop_last());
            self.restore_snapshot(snapshot);
            return true;
        }
        self.content_redo_step()
    }

    fn content_apply_step(&mut self, edit: TextInputEdit) -> (changed: bool)
        requires
            edit_fits(old(self)@.content, edit),
        ensures
            (final(self)@.content, changed) == content_apply(old(self)@.content, edit),
            final(self)@.presence == old(self)@.presence,
            final(self)@.presence_history == old(self)@.presence_history,
            final(self)@.presence_redo == old(self)@.presence_redo,
    {
        match &mut self.content {
            CellEditorContent::Text(input) => input.apply(edit),
            CellEditorContent::Typed { draft, .. } => match draft {
                TypedDraft::Boolean(input) => input.apply(edit),
                TypedDraft::Temporal(d) => match edit {
                    TextInputEdit::Insert(c) => {
                        let before = owned(d.render());
                        d.insert(c);
                        let after = d.render();
                        !str_eq(after, before.as_str())
                    },
                    _ => d.input_mut().apply(edit),
                },
                TypedDraft::Json(b) => b.apply(edit),
            },
        }
    }

    /// Applies an editing command (see [`buffer_apply`]).
    pub fn apply_text_edit(&mut self, edit: TextInputEdit) -> (changed: bool)
        requires
            edit_fits(old(self)@.content, edit),
        ensures
            (final(self)@, changed) == buffer_apply(old(self)@, edit),
    {
        match edit {
            TextInputEdit::Undo => {
                return self.undo();
            },
            TextInputEdit::Redo => {
                return self.redo();
            },
            _ => {},
        }
        let before = self.snapshot();
        let changed = self.content_apply_step(edit);
        let navigation = match edit {
            TextInputEdit::MoveLeft | TextInputEdit::MoveRight | TextInputEdit::MoveHome
            | TextInputEdit::MoveEnd => true,
            _ => false,
        };
        if changed && !navigation {
            self.record_presence_transition(before);
            self.presence = CellEditorPresence::Value;
        }
        changed
    }

    /// The text input of a text, boolean or temporal editor.
    pub fn input(&self) -> (r: Option<&TextInput>)
        ensures
            match self@.content {
                ContentView::Text(i) => r matches Some(x) && x@ == i,
                ContentView::Typed { kind, draft: DraftView::Boolean(i) } => r matches Some(x) && x@ == i,
                ContentView::Typed { kind, draft: DraftView::Temporal(d) } => r matches Some(x) && x@ == d.input,
                _ => r is None,
            },
    {
        match &self.content {
            CellEditorContent::Text(input) => Some(input),
            CellEditorContent::Typed { draft, .. } => match draft {
                TypedDraft::Boolean(input) => Some(input),
                TypedDraft::Temporal(d) => Some(d.input()),
                TypedDraft::Json(_) => None,
            },
        }
    }

    /// The text input of a text, boolean or temporal editor, for editing it directly.
    pub fn input_mut(&mut self) -> (r: &mut TextInput)
        requires
            !(old(self)@.content matches ContentView::Typed { kind, draft: DraftView::Json(_) }),
        ensures
            r@ == input_of(old(self)@.content),
            final(self)@ == (BufferView { content: with_input(old(self)@.content, final(r)@), ..old(self)@ }),
    {
        match &mut self.content {
            CellEditorContent::Text(input) => input,
            CellEditorContent::Typed { draft, .. } => match draft {
                TypedDraft::Boolean(input) => input,
                TypedDraft::Temporal(d) => d.input_mut(),
                TypedDraft::Json(_) => vstd::pervasive::unreached(),
            },
        }
    }

    /// The JSON buffer of a JSON editor.
    pub fn json_buffer(&self) -> (r: Option<&JsonBuffer>)
        ensures
            match self@.content {
                ContentView::Typed { kind, draft: DraftView::Json(b) } => r matches Some(x) && x@ == b,
                _ => r is None,
            },
    {
        match &self.content {
            CellEditorContent::Typed { draft: TypedDraft::Json(b), .. } => Some(b),
            _ => None,
        }
    }

    /// The text the editor shows.
    pub fn value(&self) -> (r: Option<&str>)
        ensures
            r matches Some(s) && s@ == content_text(self@.content),
    {
        match &self.content {
            CellEditorContent::Text(input) => Some(input.value()),
            CellEditorContent::Typed { draft, .. } => Some(
                match draft {
                    TypedDraft::Boolean(input) => input.value(),
                    TypedDraft::Temporal(d) => d.render(),
                    TypedDraft::Json(b) => b.value(),
                },
            ),
        }
    }

    /// What a typed draft parses to (see [`content_typed_value`]).
    pub fn typed_value(&self) -> (r: Option<Result<CellValue, String>>)
        ensures
            match (r, content_typed_value(self@.content)) {
                (None, None) => true,
                (Some(Ok(v)), Some(Ok(w))) => v@ == w,
                (Some(Err(e)), Some(Err(w))) => e@ == w,
                _ => false,
            },
            forall|v: CellView|
                holds_draft_text_of(self@.content, v) ==> (r matches Some(Ok(x)) && x@ == v),
    {
        match &self.content {
            CellEditorContent::Text(_) => None,
            CellEditorContent::Typed { kind, draft } => match draft {
                TypedDraft::Boolean(input) => {
                    if *kind != CellEditorKind::Boolean {
                        return None;
                    }
                    match boolean_word_exec(input.value()) {
                        Some(b) => Some(Ok(CellValue::Boolean(b))),
                        None => Some(Err(owned("invalid boolean"))),
                    }
                },
                TypedDraft::Temporal(d) => Some(d.parse()),
                TypedDraft::Json(b) => match b.validate() {
                    Ok(_) => {
                        if b.is_sql_null() {
                            Some(Ok(CellValue::Null))
                        } else {
                            Some(Ok(CellValue::Text(owned(b.value()))))
                        }
                    },
                    Err(e) => {
                        let mut m = String::new();
                        push_str(&mut m, e.message.as_str());
                        push_str(&mut m, " at ");
                        push_u128_digits(&mut m, e.line as u128);
                        push_str(&mut m, ":");
                        push_u128_digits(&mut m, e.column as u128);
                        assert(m@ =~= json_error_text(e.message@, e.line, e.column));
                        Some(Err(m))
                    },
                },
            },
        }
    }

    /// The value the editor stands for (see [`presence_value`]).
    pub fn value_for_presence(&self) -> (r: Result<Option<CellValue>, String>)
        ensures
            match (r, presence_value(self@)) {
                (Ok(None), Ok(None)) => true,
                (Ok(Some(v)), Ok(Some(w))) => v@ == w,
                (Err(e), Err(w)) => e@ == w,
                _ => false,
            },
            forall|v: CellView|
                self@.presence == CellEditorPresence::Value && holds_draft_text_of(self@.content, v)
                    ==> (r matches Ok(Some(x)) && x@ == v),
    {
        match self.presence {
            CellEditorPresence::Unprovided => Ok(None),
            CellEditorPresence::Null => Ok(Some(CellValue::Null)),
            CellEditorPresence::Value => match self.typed_value() {
                Some(Ok(v)) => Ok(Some(v)),
                Some(Err(e)) => Err(e),
                None => {
                    let t = match self.value() {
                        Some(s) => owned(s),
                        None => String::new(),
                    };
                    Ok(Some(CellValue::Text(t)))
                },
            },
        }
    }

    /// The boolean a boolean editor shows, if it reads as one.
    pub fn boolean_selection(&self) -> (r: Option<bool>)
        ensures
            r == match self@.content {
                ContentView::Typed { kind: CellEditorKind::Boolean, draft: DraftView::Boolean(i) } => boolean_word(i.value),
                _ => None,
            },
    {
        match &self.content {
            CellEditorContent::Typed { kind: CellEditorKind::Boolean, draft: TypedDraft::Boolean(input) } => {
                boolean_word_exec(input.value())
            },
            _ => None,
        }
    }

    /// Sets a boolean editor to `true`/`false`; a change makes the cell a value and is undoable.
    pub fn set_boolean(&mut self, value: bool)
        ensures
            final(self)@ == match old(self)@.content {
                ContentView::Typed { kind: CellEditorKind::Boolean, draft: DraftView::Boolean(i) } => {
                    let next = if value {
                        "true"@
                    } else {
                        "false"@
                    };
                    if i.value != next {
                        BufferView {
                            presence: CellEditorPresence::Value,
                            content: ContentView::Typed {
                                kind: CellEditorKind::Boolean,
                                draft: DraftView::Boolean(fresh_input(next)),
                            },
                            presence_history: record_transition(
                                old(self)@.presence_history,
                                snapshot_of(old(self)@),
                            ),
                            presence_redo: Seq::empty(),
                        }
                    } else {
                        old(self)@
                    }
                },
                _ => old(self)@,
            },
    {
        let before = self.snapshot();
        let next = if value {
            "true"
        } else {
            "false"
        };
        let differs = match &self.content {
            CellEditorContent::Typed { kind: CellEditorKind::Boolean, draft: TypedDraft::Boolean(input) } => {
                !str_eq(input.value(), next)
            },
            _ => false,
        };
        if differs {
            self.content = CellEditorContent::Typed {
                kind: CellEditorKind::Boolean,
                draft: TypedDraft::Boolean(TextInput::from(next)),
            };
            self.presence = CellEditorPresence::Value;
            self.record_presence_transition(before);
        }
    }

    /// Flips a boolean editor that shows a boolean, for any non-zero direction.
    pub fn move_boolean(&mut self, direction: isize)
        ensures
            direction != 0 ==> match boolean_selection_spec(old(self)@) {
                Some(b) => final(self)@ == set_boolean_spec(old(self)@, !b),
                None => final(self)@ == old(self)@,
            },
            direction == 0 ==> final(self)@ == old(self)@,
    {
        if direction != 0 {
            match self.boolean_selection() {
                Some(current) => self.set_boolean(!current),
                None => {},
            }
        }
    }

    /// Moves a temporal draft by `segment` segments.
    pub fn temporal_move_to(&mut self, segment: isize)
        ensures
            final(self)@ == match old(self)@.content {
                ContentView::Typed { kind, draft: DraftView::Temporal(d) } => BufferView {
                    content: ContentView::Typed {
                        kind,
                        draft: DraftView::Temporal(draft_move_segment(d, segment as int)),
                    },
                    ..old(self)@
                },
                _ => old(self)@,
            },
    {
        match &mut self.content {
            CellEditorContent::Typed { draft: TypedDraft::Temporal(d), .. } => d.move_segment(segment),
            _ => {},
        }
    }

    /// Moves a temporal draft's date by `direction` months; a changed text makes the cell a
    /// value and is undoable.
    pub fn temporal_shift_month(&mut self, direction: isize)
        ensures
            final(self)@ == match old(self)@.content {
                ContentView::Typed { kind, draft: DraftView::Temporal(d) } => {
                    let nd = draft_shift_month(d, direction);
                    let content = ContentView::Typed { kind, draft: DraftView::Temporal(nd) };
                    if nd.input.value != d.input.value {
                        BufferView {
                            presence: CellEditorPresence::Value,
                            content,
                            presence_history: record_transition(
                                old(self)@.presence_history,
                                snapshot_of(old(self)@),
                            ),
                            presence_redo: Seq::empty(),
                        }
                    } else {
                        BufferView { content, ..old(self)@ }
                    }
                },
                _ => old(self)@,
            },
    {
        let before = self.snapshot();
        let changed = match &mut self.content {
            CellEditorContent::Typed { draft: TypedDraft::Temporal(d), .. } => {
                let old_text = owned(d.render());
                d.shift_month(direction);
                !str_eq(d.render(), old_text.as_str())
            },
            _ => false,
        };
        if changed {
            self.presence = CellEditorPresence::Value;
            self.record_presence_transition(before);
        }
    }

    /// Types a character into a temporal draft's segment; a changed text makes the cell a value
    /// and is undoable.
    pub fn temporal_insert(&mut self, character: char)
        requires
            match old(self)@.content {
                ContentView::Typed { kind, draft: DraftView::Temporal(d) } => insert_fits(d, character),
                _ => true,
            },
        ensures
            final(self)@ == match old(self)@.content {
                ContentView::Typed { kind, draft: DraftView::Temporal(d) } => {
                    let nd = draft_insert(d, character);
                    let content = ContentView::Typed { kind, draft: DraftView::Temporal(nd) };
                    if nd.input.value != d.input.value {
                        BufferView {
                            presence: CellEditorPresence::Value,
                            content,
                            presence_history: record_transition(
                                old(self)@.presence_history,
                                snapshot_of(old(self)@),
                            ),
                            presence_redo: Seq::empty(),
                        }
                    } else {
                        BufferView { content, ..old(self)@ }
                    }
                },
                _ => old(self)@,
            },
    {
        let before = self.snapshot();
        let changed = match &mut self.content {
            CellEditorContent::Typed { draft: TypedDraft::Temporal(d), .. } => {
                let old_text = owned(d.render());
                d.insert(character);
                !str_eq(d.render(), old_text.as_str())
            },
            _ => false,
        };
        if changed {
            self.presence = CellEditorPresence::Value;
            self.record_presence_transition(before);
        }
    }

    /// Replaces a JSON editor's text; says whether anything changed. A cell that was not a value
    /// becomes one, undoably.
    pub fn replace_json_value(&mut self, value: String) -> (r: bool)
        ensures
            match old(self)@.content {
                ContentView::Typed { kind, draft: DraftView::Json(b) } => if b.value == value@ {
                    !r && final(self)@ == old(self)@
                } else {
                    let content = ContentView::Typed {
                        kind,
                        draft: DraftView::Json(json_edit(b, value@, value@.len(), None)),
                    };
                    r && final(self)@ == if old(self)@.presence != CellEditorPresence::Value {
                        BufferView {
                            presence: CellEditorPresence::Value,
                            content,
                            presence_history: record_transition(
                                old(self)@.presence_history,
                                snapshot_of(old(self)@),
                            ),
                            presence_redo: Seq::empty(),
                        }
                    } else {
                        BufferView { content, ..old(self)@ }
                    }
                },
                _ => !r && final(self)@ == old(self)@,
            },
    {
        let before = self.snapshot();
        let done = match &mut self.content {
            CellEditorContent::Typed { draft: TypedDraft::Json(b), .. } => {
                if str_eq(b.value(), value.as_str()) {
                    return false;
                }
                b.replace_value(value);
                true
            },
            _ => false,
        };
        if !done {
            return false;
        }
        if self.presence != CellEditorPresence::Value {
            self.presence = CellEditorPresence::Value;
            self.record_presence_transition(before);
        }
        true
    }
}

/// The text input of content that has one.
pub open spec fn input_of(c: ContentView) -> TextInputView {
    match c {
        ContentView::Text(i) => i,
        ContentView::Typed { kind, draft } => match draft {
            DraftView::Boolean(i) => i,
            DraftView::Temporal(d) => d.input,
            DraftView::Json(_) => arbitrary(),
        },
    }
}

/// Content with its text input replaced.
pub open spec fn with_input(c: ContentView, i: TextInputView) -> ContentView {
    match c {
        ContentView::Text(_) => ContentView::Text(i),
        ContentView::Typed { kind, draft } => match draft {
            DraftView::Boolean(_) => ContentView::Typed { kind, draft: DraftView::Boolean(i) },
            DraftView::Temporal(d) => ContentView::Typed {
                kind,
                draft: DraftView::Temporal(TemporalView { input: i, ..d }),
            },
            DraftView::Json(b) => c,
        },
    }
}

/// [`CellEditorBuffer::boolean_selection`] on a model.
pub open spec fn boolean_selection_spec(v: BufferView) -> Option<bool> {
    match v.content {
        ContentView::Typed { kind: CellEditorKind::Boolean, draft: DraftView::Boolean(i) } => boolean_word(i.value),
        _ => None,
    }
}

/// [`CellEditorBuffer::set_boolean`] on a model.
pub open spec fn set_boolean_spec(v: BufferView, value: bool) -> BufferView {
    match v.content {
        ContentView::Typed { kind: CellEditorKind::Boolean, draft: DraftView::Boolean(i) } => {
            let next = if value {
                "true"@
            } else {
                "false"@
            };
            if i.value != next {
                BufferView {
                    presence: CellEditorPresence::Value,
                    content: ContentView::Typed {
                        kind: CellEditorKind::Boolean,
                        draft: DraftView::Boolean(fresh_input(next)),
                    },
                    presence_history: record_transition(v.presence_history, snapshot_of(v)),
                    presence_redo: Seq::empty(),
                }
            } else {
                v
            }
        },
        _ => v,
    }
}

impl Default for CellEditorBuffer {
    fn default() -> (r: CellEditorBuffer)
        ensures
            r@ == fresh_buffer(CellEditorPresence::Value, ContentView::Text(fresh_input(Seq::empty()))),
    {
        CellEditorBuffer::text(CellEditorPresence::Value, TextInput::new())
    }
}

/// Buffers are equal when presence and content state (inner undo histories aside) agree.
pub open spec fn buffer_eq(a: BufferView, b: BufferView) -> bool {
    a.presence == b.presence && strip_content(a.content) == strip_content(b.content)
}

impl PartialEq for CellEditorBuffer {
    fn eq(&self, other: &Self) -> (r: bool) {
        self.presence == other.presence && same_content(&self.content, &other.content)
    }
}

impl vstd::std_specs::cmp::PartialEqSpecImpl for CellEditorBuffer {
    open spec fn obeys_eq_spec() -> bool {
        true
    }

    open spec fn eq_spec(&self, other: &Self) -> bool {
        buffer_eq(self@, other@)
    }
}

/// The type name as the classifier compares it: trimmed, ASCII lower case, cut before `(`,
/// trimmed again.
pub open spec fn base_column_type(column_type: Seq<char>) -> Seq<char> {
    let t = lower_seq(trim(column_type));
    trim(t.take(find_char(t, '(') as int))
}

/// The typed editor of a column type, per database.
pub open spec fn column_kind(db: DatabaseKind, b: Seq<char>) -> Option<CellEditorKind> {
    match db {
        DatabaseKind::Postgres => if b == "bool"@ || b == "boolean"@ {
            Some(CellEditorKind::Boolean)
        } else if b == "date"@ {
            Some(CellEditorKind::Date)
        } else if b == "time"@ || b == "timetz"@ || b == "time without time zone"@ || b
            == "time with time zone"@ {
            Some(CellEditorKind::Time)
        } else if b == "timestamp"@ || b == "timestamp without time zone"@ {
            Some(CellEditorKind::DateTime)
        } else if b == "timestamptz"@ || b == "timestamp with time zone"@ {
            Some(CellEditorKind::Timestamp)
        } else if b == "json"@ || b == "jsonb"@ {
            Some(CellEditorKind::Json)
        } else {
            None
        },
        DatabaseKind::SqlServer => if b == "bit"@ {
            Some(CellEditorKind::Boolean)
        } else if b == "date"@ {
            Some(CellEditorKind::Date)
        } else if b == "time"@ {
            Some(CellEditorKind::Time)
        } else if b == "datetime"@ || b == "datetime2"@ || b == "smalldatetime"@ {
            Some(CellEditorKind::DateTime)
        } else if b == "datetimeoffset"@ {
            Some(CellEditorKind::Timestamp)
        } else {
            None
        },
        DatabaseKind::MySql | DatabaseKind::Sqlite => if b == "bool"@ || b == "boolean"@ {
            Some(CellEditorKind::Boolean)
        } else if b == "date"@ {
            Some(CellEditorKind::Date)
        } else if b == "time"@ {
            Some(CellEditorKind::Time)
        } else if b == "datetime"@ || b == "timestamp"@ {
            Some(CellEditorKind::DateTime)
        } else if b == "json"@ {
            Some(CellEditorKind::Json)
        } else {
            None
        },
    }
}

/// The typed editor for a column of the given type, if any (see [`column_kind`]).
pub fn classify_column_type(database_kind: DatabaseKind, column_type: &str) -> (r: Option<ColumnEditorDescription>)
    ensures
        match column_kind(database_kind, base_column_type(column_type@)) {
            Some(k) => r == Some(ColumnEditorDescription { kind: k }),
            None => r is None,
        },
{
    let cs = chars_of(column_type);
    let t = lower_chars(&trim_chars(&cs));
    let cut = find_char_exec(&t, '(');
    proof {
        crate::text::lemma_find_char(t@, '(');
    }
    let head = slice_vec(&t, 0, cut);
    assert(head@ =~= t@.take(cut as int));
    let base_chars = trim_chars(&head);
    let base = string_of(&base_chars);
    let b = base.as_str();
    let kind = match database_kind {
        DatabaseKind::Postgres => if str_eq(b, "bool") || str_eq(b, "boolean") {
            Some(CellEditorKind::Boolean)
        } else if str_eq(b, "date") {
            Some(CellEditorKind::Date)
        } else if str_eq(b, "time") || str_eq(b, "timetz") || str_eq(b, "time without time zone")
            || str_eq(b, "time with time zone") {
            Some(CellEditorKind::Time)
        } else if str_eq(b, "timestamp") || str_eq(b, "timestamp without time zone") {
            Some(CellEditorKind::DateTime)
        } else if str_eq(b, "timestamptz") || str_eq(b, "timestamp with time zone") {
            Some(CellEditorKind::Timestamp)
        } else if str_eq(b, "json") || str_eq(b, "jsonb") {
            Some(CellEditorKind::Json)
        } else {
            None
        },
        DatabaseKind::SqlServer => if str_eq(b, "bit") {
            Some(CellEditorKind::Boolean)
        } else if str_eq(b, "date") {
            Some(CellEditorKind::Date)
        } else if str_eq(b, "time") {
            Some(CellEditorKind::Time)
        } else if str_eq(b, "datetime") || str_eq(b, "datetime2") || str_eq(b, "smalldatetime") {
            Some(CellEditorKind::DateTime)
        } else if str_eq(b, "datetimeoffset") {
            Some(CellEditorKind::Timestamp)
        } else {
            None
        },
        DatabaseKind::MySql | DatabaseKind::Sqlite => if str_eq(b, "bool") || str_eq(b, "boolean") {
            Some(CellEditorKind::Boolean)
        } else if str_eq(b, "date") {
            Some(CellEditorKind::Date)
        } else if str_eq(b, "time") {
            Some(CellEditorKind::Time)
        } else if str_eq(b, "datetime") || str_eq(b, "timestamp") {
            Some(CellEditorKind::DateTime)
        } else if str_eq(b, "json") {
            Some(CellEditorKind::Json)
        } else {
            None
        },
    };
    match kind {
        Some(k) => Some(ColumnEditorDescription { kind: k }),
        None => None,
    }
}

/// The cursors of the content's text inputs lie within their texts.
pub open spec fn content_valid(c: ContentView) -> bool {
    match c {
        ContentView::Text(i) => crate::text_input::input_valid(i),
        ContentView::Typed { kind, draft } => match draft {
            DraftView::Boolean(i) => crate::text_input::input_valid(i),
            DraftView::Temporal(d) => crate::text_input::input_valid(d.input),
            DraftView::Json(_) => true,
        },
    }
}

proof fn lemma_content_change_visible(c: ContentView, e: TextInputEdit)
    requires
        content_valid(c),
        !is_navigation(e),
        !(e is Undo),
        !(e is Redo),
        content_apply(c, e).1,
    ensures
        strip_content(content_apply(c, e).0) != strip_content(c),
{
    match c {
        ContentView::Text(i) => {
            crate::text_input::lemma_edit_changes_value(i, e);
        },
        ContentView::Typed { kind, draft } => match draft {
            DraftView::Boolean(i) => {
                crate::text_input::lemma_edit_changes_value(i, e);
            },
            DraftView::Temporal(d) => match e {
                TextInputEdit::Insert(ch) => {},
                _ => {
                    crate::text_input::lemma_edit_changes_value(d.input, e);
                },
            },
            DraftView::Json(b) => {},
        },
    }
}

/// Undo right after an edit that changed the cell gives back the presence and the content
/// the cell had before it (as saved, without inner histories).
pub proof fn law_cell_undo_restores_presence_and_content(v: BufferView, e: TextInputEdit)
    requires
        content_valid(v.content),
        !is_navigation(e),
        !(e is Undo),
        !(e is Redo),
        buffer_apply(v, e).1,
    ensures
        ({
            let (w, _) = buffer_apply(v, e);
            let (u, ok) = buffer_undo(w);
            ok && u.presence == v.presence && u.content == strip_content(v.content)
        }),
{
    lemma_content_change_visible(v.content, e);
    let (c, _) = content_apply(v.content, e);
    lemma_strip_idempotent(v.content);
}

/// Redo right after that undo gives back the edited presence and content.
pub proof fn law_cell_redo_after_undo_restores_edit(v: BufferView, e: TextInputEdit)
    requires
        content_valid(v.content),
        !is_navigation(e),
        !(e is Undo),
        !(e is Redo),
        buffer_apply(v, e).1,
    ensures
        ({
            let (w, _) = buffer_apply(v, e);
            let (u, _) = buffer_undo(w);
            let (r, ok) = buffer_redo(u);
            ok && r.presence == w.presence && r.content == strip_content(w.content)
        }),
{
    law_cell_undo_restores_presence_and_content(v, e);
}

/// Navigation never changes the presence of a cell.
pub proof fn law_navigation_keeps_presence(v: BufferView, e: TextInputEdit)
    requires
        is_navigation(e),
    ensures
        buffer_apply(v, e).0.presence == v.presence,
        buffer_apply(v, e).0.presence_history == v.presence_history,
{
}

/// An edit that changes nothing keeps the presence (a NULL or default cell stays so).
pub proof fn law_noop_keeps_presence(v: BufferView, e: TextInputEdit)
    requires
        !(e is Undo),
        !(e is Redo),
        !buffer_apply(v, e).1,
    ensures
        buffer_apply(v, e).0.presence == v.presence,
{
}


/// The words a boolean cell is shown as read back as that boolean.
proof fn lemma_boolean_word_of_cell_text(b: bool)
    ensures
        boolean_word(cell_text(CellView::Boolean(b))) == Some(b),
{
    let t = cell_text(CellView::Boolean(b));
    reveal_strlit("true");
    reveal_strlit("t");
    reveal_strlit("false");
    reveal_strlit("f");
    lemma_trailing_ws_exact(t, 0);
    assert(trim_end(t) =~= t);
    lemma_leading_ws_exact(t, 0);
    assert(trim(t) =~= t);
    assert(lower_seq(t) =~= t);
    if b {
        assert(t =~= "true"@);
    } else {
        assert(t =~= "false"@);
        assert(t != "true"@);
        assert(t != "t"@);
    }
}

/// Opening a cell in an editor and reading the editor back gives the cell again: NULL under any
/// editor, any text in a plain editor, and a boolean in a boolean editor.
pub proof fn law_editor_reads_back_its_cell(v: CellView, description: Option<ColumnEditorDescription>)
    requires
        match (v, description) {
            (CellView::Null, _) => true,
            (CellView::Text(_), None) => true,
            (CellView::Boolean(_), Some(d)) => d.kind == CellEditorKind::Boolean,
            _ => false,
        },
    ensures
        presence_value(buffer_from_value(v, description)) == Ok::<Option<CellView>, Seq<char>>(
            Some(v),
        ),
{
    match v {
        CellView::Boolean(b) => {
            lemma_boolean_word_of_cell_text(b);
        },
        _ => {},
    }
}


/// Opening a temporal cell in an editor of its kind gives a value editor that holds the cell's
/// draft text; by the `value_for_presence` contract, reading that editor back gives the cell again
/// whenever chrono reads the text back (four-digit year, no leap second, whole-minute offset).
pub proof fn law_temporal_editor_holds_its_value_text(
    v: CellView,
    description: Option<ColumnEditorDescription>,
)
    requires
        description matches Some(d) && round_trips(d.kind, v),
    ensures
        buffer_from_value(v, description).presence == CellEditorPresence::Value,
        holds_draft_text_of(buffer_from_value(v, description).content, v),
{
}

} // verus!
