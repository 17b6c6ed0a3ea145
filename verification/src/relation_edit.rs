//! The editable relation grid: rows, their edit states, yank/paste and undo history.
use vstd::prelude::*;
use std::collections::{BTreeSet, VecDeque};
use std::ops::RangeInclusive;
use vstd::std_specs::range::ContainsSpec;
use crate::cell_editor::CellEditorBuffer;
use crate::text::{push_str, nat_digits, push_u128_digits};
use crate::value::{cell_eq, cells_view, copy_cells, CellValue, CellView};

verus! {

broadcast use vstd::laws_cmp::group_laws_cmp;

/// Stable identity of a row within an edit session.
#[derive(Clone, Copy, Debug, PartialEq, Eq, Hash, Structural)]
pub struct EditableRowId(pub u64);

/// Optimistic-concurrency version of a stored row.
#[derive(Clone, Copy, Debug, PartialEq, Eq, Structural)]
pub enum RowVersion {
    PostgresXmin(u64),
    SqlServerRowVersion(u64),
}

/// A typed mutation sent to the database for one row.
#[derive(Clone, Debug, PartialEq)]
pub struct RelationMutationRequest {
    pub row_id: EditableRowId,
    pub statement: String,
}

/// A mutation together with the mutation that undoes it.
#[derive(Clone, Debug, PartialEq)]
pub struct RelationMutationHistory {
    pub forward: RelationMutationRequest,
    pub inverse: RelationMutationRequest,
}

/// Which history stack a pending mutation belongs to.
#[derive(Clone, Copy, Debug, Eq, PartialEq, Structural)]
pub enum PendingMutationHistory {
    Undo,
    Redo,
}

/// The cell editor open on one cell of the grid.
#[derive(Clone, Debug)]
pub struct CellEditorState {
    pub row: usize,
    pub column: usize,
    pub input: CellEditorBuffer,
    pub error: Option<String>,
}

/// Interaction mode of the relation grid.
#[derive(Clone, Debug)]
pub enum RelationGridMode {
    Browse,
    EditCell(Box<CellEditorState>),
    VisualLine { anchor: usize },
    Busy,
}

/// Edit state of a row.
#[derive(Clone, Debug, PartialEq)]
pub enum EditableRowState {
    Clean,
    Updated { changed_columns: BTreeSet<usize> },
    InsertDraft,
    Inserted,
    Deleted,
    Conflict { message: String },
}

/// Model of [`EditableRowState`].
pub enum RowStateView {
    Clean,
    Updated(Set<usize>),
    InsertDraft,
    Inserted,
    Deleted,
    Conflict(Seq<char>),
}

impl View for EditableRowState {
    type V = RowStateView;

    open spec fn view(&self) -> RowStateView {
        match self {
            EditableRowState::Clean => RowStateView::Clean,
            EditableRowState::Updated { changed_columns } => RowStateView::Updated(
                changed_columns@,
            ),
            EditableRowState::InsertDraft => RowStateView::InsertDraft,
            EditableRowState::Inserted => RowStateView::Inserted,
            EditableRowState::Deleted => RowStateView::Deleted,
            EditableRowState::Conflict { message } => RowStateView::Conflict(message@),
        }
    }
}

impl EditableRowState {
    /// A copy with the same model.
    pub fn duplicate(&self) -> (r: EditableRowState)
        ensures
            r@ == self@,
    {
        match self {
            EditableRowState::Clean => EditableRowState::Clean,
            EditableRowState::Updated { changed_columns } => EditableRowState::Updated {
                changed_columns: changed_columns.clone(),
            },
            EditableRowState::InsertDraft => EditableRowState::InsertDraft,
            EditableRowState::Inserted => EditableRowState::Inserted,
            EditableRowState::Deleted => EditableRowState::Deleted,
            EditableRowState::Conflict { message } => EditableRowState::Conflict {
                message: message.clone(),
            },
        }
    }

    /// Whether the row is an uncommitted insert.
    pub fn is_insert_draft(&self) -> (r: bool)
        ensures
            r == (self@ is InsertDraft),
    {
        match self {
            EditableRowState::InsertDraft => true,
            _ => false,
        }
    }

    /// Whether the row is marked deleted.
    pub fn is_deleted(&self) -> (r: bool)
        ensures
            r == (self@ is Deleted),
    {
        match self {
            EditableRowState::Deleted => true,
            _ => false,
        }
    }
}

/// One row of the grid with its original and current values.
#[derive(Clone, Debug, PartialEq)]
pub struct EditableRow {
    pub id: EditableRowId,
    pub original: Vec<CellValue>,
    pub current: Vec<CellValue>,
    pub state: EditableRowState,
    pub supplied_columns: BTreeSet<usize>,
    pub version: Option<RowVersion>,
}

/// Model of an [`EditableRow`].
#[verifier::ext_equal]
pub struct RowView {
    pub id: u64,
    pub original: Seq<CellView>,
    pub current: Seq<CellView>,
    pub state: RowStateView,
    pub supplied: Set<usize>,
    pub version: Option<RowVersion>,
}

impl View for EditableRow {
    type V = RowView;

    open spec fn view(&self) -> RowView {
        RowView {
            id: self.id.0,
            original: cells_view(self.original@),
            current: cells_view(self.current@),
            state: self.state@,
            supplied: self.supplied_columns@,
            version: self.version,
        }
    }
}

/// The models of a sequence of rows.
pub open spec fn rows_view(rows: Seq<EditableRow>) -> Seq<RowView> {
    rows.map_values(|r: EditableRow| r@)
}

/// A fresh clean row.
pub open spec fn new_row(id: u64, values: Seq<CellView>) -> RowView {
    RowView {
        id,
        original: values,
        current: values,
        state: RowStateView::Clean,
        supplied: Set::empty(),
        version: None,
    }
}

/// Columns whose current value is not equal (see [`cell_eq`]) to the original (or has no
/// original).
pub open spec fn changed_set(original: Seq<CellView>, current: Seq<CellView>) -> Set<usize> {
    Set::new(
        |i: usize| (i as int) < current.len() && ((i as int) >= original.len() || !cell_eq(
            original[i as int],
            current[i as int],
        )),
    )
}

/// `EditableRow::update_cell`: refused for deleted rows and missing columns; inserts record the
/// supplied column; other rows become `Updated` with the changed columns, or `Clean` when none.
pub open spec fn row_update_cell(r: RowView, column: usize, v: CellView) -> (RowView, bool) {
    if r.state is Deleted || column >= r.current.len() {
        (r, false)
    } else {
        let current = r.current.update(column as int, v);
        if r.state is InsertDraft || r.state is Inserted {
            (RowView { current, supplied: r.supplied.insert(column), ..r }, true)
        } else {
            let changed = changed_set(r.original, current);
            (
                RowView {
                    current,
                    state: if changed.is_empty() {
                        RowStateView::Clean
                    } else {
                        RowStateView::Updated(changed)
                    },
                    ..r
                },
                true,
            )
        }
    }
}

/// `EditableRow::restore_unprovided`: only for insert drafts and supplied columns; the column
/// becomes NULL and is no longer supplied.
pub open spec fn row_restore_unprovided(r: RowView, column: usize) -> (RowView, bool) {
    if !(r.state is InsertDraft) || column >= r.current.len() || !r.supplied.contains(column) {
        (r, false)
    } else {
        (
            RowView {
                current: r.current.update(column as int, CellView::Null),
                supplied: r.supplied.remove(column),
                ..r
            },
            true,
        )
    }
}

/// `EditableRow::mark_deleted`.
pub open spec fn row_mark_deleted(r: RowView) -> (RowView, bool) {
    if r.state is Deleted {
        (r, false)
    } else {
        (RowView { state: RowStateView::Deleted, ..r }, true)
    }
}

impl EditableRow {
    /// A clean row whose original and current values are `values`.
    pub fn new(id: EditableRowId, values: Vec<CellValue>) -> (r: EditableRow)
        ensures
            r@ == new_row(id.0, cells_view(values@)),
    {
        let original = copy_cells(&values);
        EditableRow {
            id,
            original,
            current: values,
            state: EditableRowState::Clean,
            supplied_columns: BTreeSet::new(),
            version: None,
        }
    }

    /// A copy with the same model.
    pub fn duplicate(&self) -> (r: EditableRow)
        ensures
            r@ == self@,
    {
        EditableRow {
            id: self.id,
            original: copy_cells(&self.original),
            current: copy_cells(&self.current),
            state: self.state.duplicate(),
            supplied_columns: self.supplied_columns.clone(),
            version: self.version,
        }
    }

    /// Sets one cell (see [`row_update_cell`]).
    pub fn update_cell(&mut self, column: usize, value: CellValue) -> (changed: bool)
        ensures
            (final(self)@, changed) == row_update_cell(old(self)@, column, value@),
    {
        if self.state.is_deleted() {
            return false;
        }
        if column >= self.current.len() {
            return false;
        }
        let ghost v = value@;
        self.current.set(column, value);
        assert(cells_view(self.current@) =~= cells_view(old(self).current@).update(column as int, v));
        match self.state {
            EditableRowState::InsertDraft | EditableRowState::Inserted => {
                self.supplied_columns.insert(column);
                return true;
            },
            _ => {},
        }
        let mut changed_columns: BTreeSet<usize> = BTreeSet::new();
        let mut i: usize = 0;
        let ghost orig = cells_view(self.original@);
        let ghost cur = cells_view(self.current@);
        while i < self.current.len()
            invariant
                i <= self.current.len(),
                orig == cells_view(self.original@),
                cur == cells_view(self.current@),
                changed_columns@ == changed_set(orig, cur).filter(|k: usize| k < i),
            decreases self.current.len() - i,
        {
            let differs = if i < self.original.len() {
                !self.original[i].same_as(&self.current[i])
            } else {
                true
            };
            if differs {
                changed_columns.insert(i);
            }
            assert(changed_columns@ =~= changed_set(orig, cur).filter(|k: usize| k < i + 1));
            i += 1;
        }
        assert(changed_columns@ =~= changed_set(orig, cur));
        let empty = changed_columns.is_empty();
        if empty {
            self.state = EditableRowState::Clean;
        } else {
            self.state = EditableRowState::Updated { changed_columns };
        }
        true
    }

    /// Leaves a supplied column of an insert draft unprovided again (see [`row_restore_unprovided`]).
    pub fn restore_unprovided(&mut self, column: usize) -> (changed: bool)
        ensures
            (final(self)@, changed) == row_restore_unprovided(old(self)@, column),
    {
        if !self.state.is_insert_draft() {
            return false;
        }
        if column >= self.current.len() {
            return false;
        }
        if !self.supplied_columns.contains(&column) {
            return false;
        }
        self.supplied_columns.remove(&column);
        self.current.set(column, CellValue::Null);
        assert(cells_view(self.current@) =~= cells_view(old(self).current@).update(
            column as int,
            CellView::Null,
        ));
        true
    }

    /// Marks the row deleted (see [`row_mark_deleted`]).
    pub fn mark_deleted(&mut self) -> (changed: bool)
        ensures
            (final(self)@, changed) == row_mark_deleted(old(self)@),
    {
        if self.state.is_deleted() {
            return false;
        }
        self.state = EditableRowState::Deleted;
        true
    }

    /// Records that the row was inserted with `values` (and `version`).
    pub fn mark_inserted(&mut self, values: Vec<CellValue>, version: Option<RowVersion>)
        ensures
            final(self)@ == (RowView {
                original: cells_view(values@),
                current: cells_view(values@),
                state: RowStateView::Inserted,
                supplied: Set::empty(),
                version,
                ..old(self)@
            }),
    {
        self.current = copy_cells(&values);
        self.original = values;
        self.state = EditableRowState::Inserted;
        self.supplied_columns.clear();
        self.version = version;
    }

    /// Records a write conflict on the row.
    pub fn mark_conflict(&mut self, message: String)
        ensures
            final(self)@ == (RowView { state: RowStateView::Conflict(message@), ..old(self)@ }),
    {
        self.state = EditableRowState::Conflict { message };
    }
}

/// The edit session of a relation grid.
#[derive(Clone, Debug)]
pub struct RelationEditSession {
    pub mode: RelationGridMode,
    pub rows: Vec<EditableRow>,
    pub yank: Option<Vec<Vec<CellValue>>>,
    pub undo_depth: usize,
    pub redo_depth: usize,
    pub next_row_id: u64,
    pub undo: Vec<Vec<EditableRow>>,
    pub redo: Vec<Vec<EditableRow>>,
    pub mutation_undo: Vec<RelationMutationHistory>,
    pub mutation_redo: Vec<RelationMutationHistory>,
    pub pending_mutation_history: Option<PendingMutationHistory>,
    pub pending_save: VecDeque<RelationMutationRequest>,
    pub save_after_metadata_load: bool,
}

/// Model of a [`RelationEditSession`] (the grid mode is kept as is).
#[verifier::ext_equal]
pub struct SessionView {
    pub mode: RelationGridMode,
    pub rows: Seq<RowView>,
    pub yank: Option<Seq<Seq<CellView>>>,
    pub undo_depth: usize,
    pub redo_depth: usize,
    pub next_row_id: u64,
    pub undo: Seq<Seq<RowView>>,
    pub redo: Seq<Seq<RowView>>,
    pub mutation_undo: Seq<RelationMutationHistory>,
    pub mutation_redo: Seq<RelationMutationHistory>,
    pub pending_mutation_history: Option<PendingMutationHistory>,
    pub pending_save: Seq<RelationMutationRequest>,
    pub save_after_metadata_load: bool,
}

/// The models of rows of values.
pub open spec fn value_rows_view(rows: Seq<Vec<CellValue>>) -> Seq<Seq<CellView>> {
    rows.map_values(|r: Vec<CellValue>| cells_view(r@))
}

/// The models of yanked rows.
pub open spec fn yank_view(y: Option<Vec<Vec<CellValue>>>) -> Option<Seq<Seq<CellView>>> {
    match y {
        Some(rows) => Some(value_rows_view(rows@)),
        None => None,
    }
}

/// The models of history snapshots.
pub open spec fn stack_view(s: Seq<Vec<EditableRow>>) -> Seq<Seq<RowView>> {
    s.map_values(|rows: Vec<EditableRow>| rows_view(rows@))
}

impl View for RelationEditSession {
    type V = SessionView;

    open spec fn view(&self) -> SessionView {
        SessionView {
            mode: self.mode,
            rows: rows_view(self.rows@),
            yank: yank_view(self.yank),
            undo_depth: self.undo_depth,
            redo_depth: self.redo_depth,
            next_row_id: self.next_row_id,
            undo: stack_view(self.undo@),
            redo: stack_view(self.redo@),
            mutation_undo: self.mutation_undo@,
            mutation_redo: self.mutation_redo@,
            pending_mutation_history: self.pending_mutation_history,
            pending_save: self.pending_save@,
            save_after_metadata_load: self.save_after_metadata_load,
        }
    }
}

/// Depth counters equal to the stack sizes.
pub open spec fn synced(s: SessionView) -> SessionView {
    SessionView { undo_depth: s.undo.len() as usize, redo_depth: s.redo.len() as usize, ..s }
}

/// Records the current rows as an undo step and clears the redo stack.
pub open spec fn record_change(s: SessionView) -> SessionView {
    synced(SessionView { undo: s.undo.push(s.rows), redo: Seq::empty(), ..s })
}

/// The id following `next` (saturating).
pub open spec fn next_id(next: u64) -> u64 {
    if next == u64::MAX {
        next
    } else {
        (next + 1) as u64
    }
}

/// An empty session.
pub open spec fn empty_session() -> SessionView {
    SessionView {
        mode: RelationGridMode::Browse,
        rows: Seq::empty(),
        yank: None,
        undo_depth: 0,
        redo_depth: 0,
        next_row_id: 0,
        undo: Seq::empty(),
        redo: Seq::empty(),
        mutation_undo: Seq::empty(),
        mutation_redo: Seq::empty(),
        pending_mutation_history: None,
        pending_save: Seq::empty(),
        save_after_metadata_load: false,
    }
}

/// `insert_row`: records a change, then inserts a new insert draft with the next id at
/// `min(position, rows.len())`.
pub open spec fn session_insert_row(s: SessionView, position: usize, values: Seq<CellView>) -> (
    SessionView,
    u64,
) {
    let r = record_change(s);
    let id = next_id(s.next_row_id);
    let pos = if position < s.rows.len() {
        position as int
    } else {
        s.rows.len() as int
    };
    let row = RowView { state: RowStateView::InsertDraft, ..new_row(id, values) };
    (SessionView { rows: s.rows.insert(pos, row), next_row_id: id, ..r }, id)
}

/// `update_cell`: a missing row changes nothing; otherwise a change is recorded and the row
/// updated (see [`row_update_cell`]).
pub open spec fn session_update_cell(s: SessionView, row: usize, column: usize, v: CellView) -> (
    SessionView,
    bool,
) {
    if row >= s.rows.len() {
        (s, false)
    } else {
        let r = record_change(s);
        let (updated, changed) = row_update_cell(s.rows[row as int], column, v);
        (SessionView { rows: s.rows.update(row as int, updated), ..r }, changed)
    }
}

/// `restore_unprovided`: only for a supplied column of an insert draft; records a change.
pub open spec fn session_restore_unprovided(s: SessionView, row: usize, column: usize) -> (
    SessionView,
    bool,
) {
    if row >= s.rows.len() || !row_restore_unprovided(s.rows[row as int], column).1 {
        (s, false)
    } else {
        let r = record_change(s);
        let (restored, _) = row_restore_unprovided(s.rows[row as int], column);
        (SessionView { rows: s.rows.update(row as int, restored), ..r }, true)
    }
}

/// Whether index `i` lies in the range.
pub open spec fn in_range(range: RangeInclusive<usize>, i: usize) -> bool {
    range.contains_spec(&i)
}

/// Rows `from..` after deleting the selected ones: selected insert drafts disappear, other
/// selected rows become `Deleted`.
pub open spec fn deleted_suffix(rows: Seq<RowView>, range: RangeInclusive<usize>, from: int) -> Seq<
    RowView,
>
    decreases rows.len() - from,
{
    if from >= rows.len() || from < 0 {
        Seq::empty()
    } else {
        let r = rows[from];
        let head = if in_range(range, from as usize) {
            if r.state is InsertDraft {
                Seq::empty()
            } else {
                seq![row_mark_deleted(r).0]
            }
        } else {
            seq![r]
        };
        head + deleted_suffix(rows, range, from + 1)
    }
}

/// Whether some row from index `from` on is selected and not yet deleted.
pub open spec fn delete_changes_from(rows: Seq<RowView>, range: RangeInclusive<usize>, from: int) -> bool {
    exists|k: int| from <= k < rows.len() && in_range(range, k as usize) && !(rows[k].state is Deleted)
}

/// When every selected row from `from` on is already deleted, deleting changes nothing.
pub proof fn lemma_deleted_suffix_unchanged(rows: Seq<RowView>, range: RangeInclusive<usize>, from: int)
    requires
        0 <= from <= rows.len(),
        !delete_changes_from(rows, range, from),
    ensures
        deleted_suffix(rows, range, from) == rows.subrange(from, rows.len() as int),
    decreases rows.len() - from,
{
    if from < rows.len() {
        assert(!delete_changes_from(rows, range, from + 1)) by {
            if delete_changes_from(rows, range, from + 1) {
                let k = choose|k: int| from + 1 <= k < rows.len() && in_range(range, k as usize)
                    && !(rows[k].state is Deleted);
                assert(from <= k);
            }
        }
        lemma_deleted_suffix_unchanged(rows, range, from + 1);
        if in_range(range, from as usize) {
            assert(rows[from].state is Deleted);
        }
        assert(deleted_suffix(rows, range, from) =~= rows.subrange(from, rows.len() as int));
    } else {
        assert(deleted_suffix(rows, range, from) =~= rows.subrange(from, rows.len() as int));
    }
}

/// `delete_rows`: a change is recorded (redo cleared); selected insert drafts are removed and
/// other selected rows marked deleted; when nothing changed the undo step is dropped again
/// (the depth counters keep the recorded values).
pub open spec fn session_delete_rows(s: SessionView, range: RangeInclusive<usize>) -> (
    SessionView,
    bool,
) {
    let r = record_change(s);
    if delete_changes_from(s.rows, range, 0) {
        (SessionView { rows: deleted_suffix(s.rows, range, 0), ..r }, true)
    } else {
        (SessionView { undo: s.undo, ..r }, false)
    }
}

/// `undo`: restores the last undo snapshot, pushing the current rows to the redo stack.
pub open spec fn session_undo(s: SessionView) -> (SessionView, bool) {
    if s.undo.len() == 0 {
        (s, false)
    } else {
        (
            synced(
                SessionView {
                    rows: s.undo.last(),
                    undo: s.undo.drop_last(),
                    redo: s.redo.push(s.rows),
                    ..s
                },
            ),
            true,
        )
    }
}

/// `redo`: restores the last redo snapshot, pushing the current rows to the undo stack.
pub open spec fn session_redo(s: SessionView) -> (SessionView, bool) {
    if s.redo.len() == 0 {
        (s, false)
    } else {
        (
            synced(
                SessionView {
                    rows: s.redo.last(),
                    redo: s.redo.drop_last(),
                    undo: s.undo.push(s.rows),
                    ..s
                },
            ),
            true,
        )
    }
}

/// A row reset to its original values.
pub open spec fn reset_row(r: RowView) -> RowView {
    RowView { current: r.original, state: RowStateView::Clean, supplied: Set::empty(), ..r }
}

/// A row whose current values become the original ones.
pub open spec fn committed_row(r: RowView) -> RowView {
    RowView { original: r.current, state: RowStateView::Clean, supplied: Set::empty(), ..r }
}

/// Rows kept by `discard_changes` (insert drafts dropped), reset.
pub open spec fn discarded_rows(rows: Seq<RowView>) -> Seq<RowView>
    decreases rows.len(),
{
    if rows.len() == 0 {
        Seq::empty()
    } else {
        let prefix = discarded_rows(rows.drop_last());
        if rows.last().state is InsertDraft {
            prefix
        } else {
            prefix.push(reset_row(rows.last()))
        }
    }
}

/// Rows kept by `commit_changes` (deleted rows dropped), committed.
pub open spec fn committed_rows(rows: Seq<RowView>) -> Seq<RowView>
    decreases rows.len(),
{
    if rows.len() == 0 {
        Seq::empty()
    } else {
        let prefix = committed_rows(rows.drop_last());
        if rows.last().state is Deleted {
            prefix
        } else {
            prefix.push(committed_row(rows.last()))
        }
    }
}

/// The rows' current values whose indices lie in the range, in order.
pub open spec fn yanked_rows(rows: Seq<RowView>, range: RangeInclusive<usize>) -> Seq<Seq<CellView>>
    decreases rows.len(),
{
    if rows.len() == 0 {
        Seq::empty()
    } else {
        let prefix = yanked_rows(rows.drop_last(), range);
        if in_range(range, (rows.len() - 1) as usize) {
            prefix.push(rows.last().current)
        } else {
            prefix
        }
    }
}

/// Index of the first row with the given id (or `rows.len()`).
pub open spec fn first_with_id(rows: Seq<RowView>, id: u64) -> int
    decreases rows.len(),
{
    if rows.len() == 0 {
        0
    } else if rows[0].id == id {
        0
    } else {
        1 + first_with_id(rows.drop_first(), id)
    }
}

pub proof fn lemma_first_with_id(rows: Seq<RowView>, id: u64, k: int)
    requires
        0 <= k <= rows.len(),
        forall|j: int| 0 <= j < k ==> rows[j].id != id,
        k < rows.len() ==> rows[k].id == id,
    ensures
        first_with_id(rows, id) == k,
    decreases rows.len(),
{
    if k > 0 {
        assert(rows[0].id != id);
        assert forall|j: int| 0 <= j < k - 1 implies rows.drop_first()[j].id != id by {
            assert(rows.drop_first()[j] == rows[j + 1]);
        }
        if k - 1 < rows.drop_first().len() {
            assert(rows.drop_first()[k - 1] == rows[k]);
        }
        lemma_first_with_id(rows.drop_first(), id, k - 1);
    }
}

/// All column indices of a row of `n` values.
pub open spec fn all_columns(n: nat) -> Set<usize> {
    Set::new(|i: usize| (i as int) < n)
}

/// One step of `paste_rows`: insert the values at `position`, then mark every column of the
/// inserted row (found by its id) as supplied.
pub open spec fn paste_step(s: SessionView, position: usize, values: Seq<CellView>) -> SessionView {
    let (t, id) = session_insert_row(s, position, values);
    let k = first_with_id(t.rows, id);
    if 0 <= k < t.rows.len() {
        let r = t.rows[k];
        SessionView {
            rows: t.rows.update(k, RowView { supplied: all_columns(r.current.len()), ..r }),
            ..t
        }
    } else {
        t
    }
}

/// `paste_rows` of the yanked rows `yank[from..]`, the row at offset `i` going to
/// `position + i` (saturating).
pub open spec fn paste_from(s: SessionView, position: usize, yank: Seq<Seq<CellView>>, from: int) -> SessionView
    decreases yank.len() - from,
{
    if from >= yank.len() || from < 0 {
        s
    } else {
        let pos = if position as int + from > usize::MAX {
            usize::MAX
        } else {
            (position + from) as usize
        };
        paste_from(paste_step(s, pos, yank[from]), position, yank, from + 1)
    }
}

/// `pending_mutation`: the request that undoes (inverse of the last undo entry) or redoes
/// (forward of the last redo entry), remembering the direction; nothing when that stack is empty.
pub open spec fn session_pending_mutation(s: SessionView, direction: PendingMutationHistory) -> (
    SessionView,
    Option<RelationMutationRequest>,
) {
    let stack = match direction {
        PendingMutationHistory::Undo => s.mutation_undo,
        PendingMutationHistory::Redo => s.mutation_redo,
    };
    if stack.len() == 0 {
        (s, None)
    } else {
        let req = match direction {
            PendingMutationHistory::Undo => stack.last().inverse,
            PendingMutationHistory::Redo => stack.last().forward,
        };
        (SessionView { pending_mutation_history: Some(direction), ..s }, Some(req))
    }
}

/// `complete_mutation`: clears the pending direction and moves the last entry of that stack to
/// the other one; fails when nothing was pending or the stack is empty.
pub open spec fn session_complete_mutation(s: SessionView) -> (SessionView, bool) {
    match s.pending_mutation_history {
        None => (s, false),
        Some(PendingMutationHistory::Undo) => if s.mutation_undo.len() == 0 {
            (SessionView { pending_mutation_history: None, ..s }, false)
        } else {
            (
                SessionView {
                    pending_mutation_history: None,
                    mutation_undo: s.mutation_undo.drop_last(),
                    mutation_redo: s.mutation_redo.push(s.mutation_undo.last()),
                    ..s
                },
                true,
            )
        },
        Some(PendingMutationHistory::Redo) => if s.mutation_redo.len() == 0 {
            (SessionView { pending_mutation_history: None, ..s }, false)
        } else {
            (
                SessionView {
                    pending_mutation_history: None,
                    mutation_redo: s.mutation_redo.drop_last(),
                    mutation_undo: s.mutation_undo.push(s.mutation_redo.last()),
                    ..s
                },
                true,
            )
        },
    }
}

/// Copy of a row list.
pub fn copy_rows(rows: &Vec<EditableRow>) -> (r: Vec<EditableRow>)
    ensures
        rows_view(r@) == rows_view(rows@),
{
    let mut r: Vec<EditableRow> = Vec::new();
    let mut i: usize = 0;
    while i < rows.len()
        invariant
            i <= rows.len(),
            rows_view(r@) == rows_view(rows@.take(i as int)),
        decreases rows.len() - i,
    {
        r.push(rows[i].duplicate());
        assert(rows_view(rows@.take(i + 1)) =~= rows_view(rows@.take(i as int)).push(
            rows@[i as int]@,
        ));
        assert(rows_view(r@) =~= rows_view(rows@.take(i + 1)));
        i += 1;
    }
    assert(rows@.take(rows.len() as int) == rows@);
    r
}

/// `format!("row version count {} does not match row count {}")`.
pub open spec fn version_mismatch_message(versions: nat, rows: nat) -> Seq<char> {
    "row version count "@ + nat_digits(versions) + " does not match row count "@ + nat_digits(
        rows,
    )
}

/// The model of optional row versions.
pub open spec fn versions_view(v: Option<Vec<RowVersion>>) -> Option<Seq<RowVersion>> {
    match v {
        Some(v) => Some(v@),
        None => None,
    }
}

/// Rows built by `from_rows_with_versions`: ids `1..=n` in order, clean, with the matching version.
pub open spec fn loaded_rows(rows: Seq<Seq<CellView>>, versions: Option<Seq<RowVersion>>) -> Seq<
    RowView,
> {
    Seq::new(
        rows.len(),
        |i: int|
            RowView {
                version: match versions {
                    Some(v) => if i < v.len() {
                        Some(v[i])
                    } else {
                        None
                    },
                    None => None,
                },
                ..new_row((i + 1) as u64, rows[i])
            },
    )
}

impl RelationEditSession {
    /// An empty session in browse mode.
    pub fn new() -> (s: RelationEditSession)
        ensures
            s@ == empty_session(),
    {
        let s = RelationEditSession {
            mode: RelationGridMode::Browse,
            rows: Vec::new(),
            yank: None,
            undo_depth: 0,
            redo_depth: 0,
            next_row_id: 0,
            undo: Vec::new(),
            redo: Vec::new(),
            mutation_undo: Vec::new(),
            mutation_redo: Vec::new(),
            pending_mutation_history: None,
            pending_save: VecDeque::new(),
            save_after_metadata_load: false,
        };
        assert(s@ =~= empty_session());
        s
    }

    /// A session over unversioned rows (ids `1..=n`).
    pub fn from_rows(rows: Vec<Vec<CellValue>>) -> (s: RelationEditSession)
        ensures
            s@ == (SessionView {
                rows: loaded_rows(value_rows_view(rows@), None),
                next_row_id: rows.len() as u64,
                ..empty_session()
            }),
            session_ids_within_counter(s@),
    {
        let ghost input = rows@;
        match Self::from_rows_with_versions(rows, None) {
            Ok(s) => s,
            Err(_) => {
                assert(false);
                Self::new()
            },
        }
    }

    /// A session over rows with optional per-row versions; the version count must match the
    /// row count.
    pub fn from_rows_with_versions(rows: Vec<Vec<CellValue>>, versions: Option<Vec<RowVersion>>) -> (r: Result<
        RelationEditSession,
        String,
    >)
        ensures
            match versions {
                Some(v) if v.len() != rows.len() => r matches Err(e) && e@
                    == version_mismatch_message(v.len() as nat, rows.len() as nat),
                _ => r matches Ok(s) && s@ == (SessionView {
                    rows: loaded_rows(
                        value_rows_view(rows@),
                        versions_view(versions),
                    ),
                    next_row_id: rows.len() as u64,
                    ..empty_session()
                }),
            },
            r matches Ok(s) ==> session_ids_within_counter(s@),
    {
        proof {
            law_loaded_rows_have_distinct_ids(value_rows_view(rows@), versions_view(versions));
        }
        if let Some(v) = &versions {
            if v.len() != rows.len() {
                let mut msg = String::new();
                push_str(&mut msg, "row version count ");
                push_u128_digits(&mut msg, v.len() as u128);
                push_str(&mut msg, " does not match row count ");
                push_u128_digits(&mut msg, rows.len() as u128);
                assert(msg@ =~= version_mismatch_message(v.len() as nat, rows.len() as nat));
                return Err(msg);
            }
        }
        let ghost input = value_rows_view(rows@);
        let ghost vs = versions_view(versions);
        let mut session = Self::new();
        let mut i: usize = 0;
        assert(loaded_rows(input.take(0), vs) =~= Seq::empty());
        assert(session@ =~= (SessionView {
            rows: loaded_rows(input.take(0), vs),
            next_row_id: 0,
            ..empty_session()
        }));
        while i < rows.len()
            invariant
                i <= rows.len(),
                input == value_rows_view(rows@),
                vs == versions_view(versions),
                versions matches Some(v) ==> v.len() == rows.len(),
                session@ == (SessionView {
                    rows: loaded_rows(input.take(i as int), vs),
                    next_row_id: i as u64,
                    ..empty_session()
                }),
            decreases rows.len() - i,
        {
            assert((i as int) < u64::MAX);
            let id = session.allocate_id();
            let values = copy_cells(&rows[i]);
            assert(input[i as int] == cells_view(rows@[i as int]@));
            let mut row = EditableRow::new(id, values);
            row.version = match &versions {
                Some(v) => Some(v[i]),
                None => None,
            };
            let ghost before = rows_view(session.rows@);
            session.rows.push(row);
            assert(rows_view(session.rows@) =~= before.push(row@));
            assert(loaded_rows(input.take(i + 1), vs) =~= loaded_rows(input.take(i as int), vs).push(row@));
            assert(session@ =~= (SessionView {
                rows: loaded_rows(input.take(i + 1), vs),
                next_row_id: (i + 1) as u64,
                ..empty_session()
            }));
            i += 1;
        }
        assert(input.take(rows.len() as int) =~= input);
        Ok(session)
    }

    /// The next row id (saturating increment of the counter).
    pub fn allocate_id(&mut self) -> (id: EditableRowId)
        ensures
            id.0 == next_id(old(self)@.next_row_id),
            final(self)@ == (SessionView { next_row_id: id.0, ..old(self)@ }),
    {
        self.next_row_id = self.next_row_id.saturating_add(1);
        EditableRowId(self.next_row_id)
    }

    /// The inclusive row range of a visual-line selection, ordered.
    pub fn visual_range(&self, cursor: usize) -> (r: Option<(usize, usize)>)
        ensures
            match self.mode {
                RelationGridMode::VisualLine { anchor } => r == Some(
                    (
                        if anchor <= cursor {
                            anchor
                        } else {
                            cursor
                        },
                        if anchor <= cursor {
                            cursor
                        } else {
                            anchor
                        },
                    ),
                ),
                _ => r is None,
            },
    {
        match self.mode {
            RelationGridMode::VisualLine { anchor } => {
                if anchor <= cursor {
                    Some((anchor, cursor))
                } else {
                    Some((cursor, anchor))
                }
            },
            _ => None,
        }
    }

    fn record_change(&mut self)
        ensures
            final(self)@ == record_change(old(self)@),
    {
        let snapshot = copy_rows(&self.rows);
        self.undo.push(snapshot);
        self.redo.clear();
        self.sync_history_depth();
        assert(stack_view(self.undo@) =~= stack_view(old(self).undo@).push(rows_view(old(self).rows@)));
        assert(stack_view(self.redo@) =~= Seq::empty());
    }

    /// Inserts a new insert-draft row (see [`session_insert_row`]).
    pub fn insert_row(&mut self, position: usize, values: Vec<CellValue>) -> (id: EditableRowId)
        ensures
            (final(self)@, id.0) == session_insert_row(old(self)@, position, cells_view(values@)),
            ids_within_counter(old(self)@) && old(self)@.next_row_id < u64::MAX ==> {
                &&& ids_within_counter(final(self)@)
                &&& forall|i: int| 0 <= i < old(self)@.rows.len() ==> #[trigger] old(self)@.rows[i].id != id.0
            },
    {
        proof {
            if ids_within_counter(self@) && self@.next_row_id < u64::MAX {
                law_inserted_row_id_is_fresh(self@, position, cells_view(values@));
            }
        }
        self.record_change();
        let id = self.allocate_id();
        let position = if position < self.rows.len() {
            position
        } else {
            self.rows.len()
        };
        let mut row = EditableRow::new(id, values);
        row.state = EditableRowState::InsertDraft;
        let ghost rv = row@;
        self.rows.insert(position, row);
        assert(rows_view(self.rows@) =~= rows_view(old(self).rows@).insert(position as int, rv));
        id
    }

    /// Yanks the current values of one row.
    pub fn yank_row(&mut self, row: usize) -> (r: bool)
        ensures
            r == (row < old(self)@.rows.len()),
            r ==> final(self)@ == (SessionView {
                yank: Some(seq![old(self)@.rows[row as int].current]),
                ..old(self)@
            }),
            !r ==> final(self)@ == old(self)@,
    {
        if row >= self.rows.len() {
            return false;
        }
        let values = copy_cells(&self.rows[row].current);
        let mut yanked: Vec<Vec<CellValue>> = Vec::new();
        yanked.push(values);
        self.yank = Some(yanked);
        assert(yank_view(self.yank).unwrap() =~= seq![old(self)@.rows[row as int].current]);
        true
    }

    /// Yanks the current values of the existing rows in the range, in order; an empty
    /// selection yanks nothing.
    pub fn yank_rows(&mut self, range: RangeInclusive<usize>) -> (r: bool)
        ensures
            r == (yanked_rows(old(self)@.rows, range).len() > 0),
            r ==> final(self)@ == (SessionView {
                yank: Some(yanked_rows(old(self)@.rows, range)),
                ..old(self)@
            }),
            !r ==> final(self)@ == old(self)@,
    {
        let mut out: Vec<Vec<CellValue>> = Vec::new();
        let mut i: usize = 0;
        let ghost rows = rows_view(self.rows@);
        while i < self.rows.len()
            invariant
                i <= self.rows.len(),
                rows == rows_view(self.rows@),
                value_rows_view(out@) == yanked_rows(
                    rows.take(i as int),
                    range,
                ),
            decreases self.rows.len() - i,
        {
            assert(rows.take(i + 1).drop_last() == rows.take(i as int));
            if range.contains(&i) {
                out.push(copy_cells(&self.rows[i].current));
            }
            assert(value_rows_view(out@) =~= yanked_rows(
                rows.take(i + 1),
                range,
            ));
            i += 1;
        }
        assert(rows.take(self.rows.len() as int) == rows);
        if out.len() == 0 {
            return false;
        }
        self.yank = Some(out);
        true
    }

    /// Updates one cell (see [`session_update_cell`]).
    pub fn update_cell(&mut self, row: usize, column: usize, value: CellValue) -> (r: bool)
        ensures
            (final(self)@, r) == session_update_cell(old(self)@, row, column, value@),
    {
        if row >= self.rows.len() {
            return false;
        }
        self.record_change();
        let ghost mid = self@;
        assert(self.rows@.len() == rows_view(self.rows@).len());
        let mut target = self.rows.remove(row);
        let changed = target.update_cell(column, value);
        let ghost tv = target@;
        self.rows.insert(row, target);
        assert(rows_view(self.rows@) =~= mid.rows.update(row as int, tv));
        changed
    }

    /// Restores a supplied column of an insert draft to unprovided (see
    /// [`session_restore_unprovided`]).
    pub fn restore_unprovided(&mut self, row: usize, column: usize) -> (r: bool)
        ensures
            (final(self)@, r) == session_restore_unprovided(old(self)@, row, column),
    {
        if row >= self.rows.len() {
            return false;
        }
        let ok = self.rows[row].state.is_insert_draft() && column < self.rows[row].current.len()
            && self.rows[row].supplied_columns.contains(&column);
        if !ok {
            return false;
        }
        self.record_change();
        let ghost mid = self@;
        assert(self.rows@.len() == rows_view(self.rows@).len());
        let mut target = self.rows.remove(row);
        let changed = target.restore_unprovided(column);
        let ghost tv = target@;
        self.rows.insert(row, target);
        assert(rows_view(self.rows@) =~= mid.rows.update(row as int, tv));
        changed
    }

    /// Deletes the rows in the range (see [`session_delete_rows`]).
    pub fn delete_rows(&mut self, range: RangeInclusive<usize>) -> (r: bool)
        ensures
            (final(self)@, r) == session_delete_rows(old(self)@, range),
    {
        let ghost orig = rows_view(self.rows@);
        self.record_change();
        let ghost recorded = self@;
        let mut changed = false;
        let mut i: usize = self.rows.len();
        assert(orig.take(i as int) + deleted_suffix(orig, range, i as int) =~= orig);
        while i > 0
            invariant
                i <= orig.len(),
                rows_view(self.rows@) == orig.take(i as int) + deleted_suffix(orig, range, i as int),
                changed == delete_changes_from(orig, range, i as int),
                recorded == record_change(old(self)@),
                self@ == (SessionView { rows: rows_view(self.rows@), ..recorded }),
            decreases i,
        {
            i -= 1;
            let ghost before = rows_view(self.rows@);
            assert(self.rows@.len() == before.len());
            assert(before[i as int] == orig[i as int]);
            let ghost tail = deleted_suffix(orig, range, i as int);
            if range.contains(&i) {
                if self.rows[i].state.is_insert_draft() {
                    self.rows.remove(i);
                    assert(rows_view(self.rows@) =~= before.remove(i as int));
                    assert(tail =~= deleted_suffix(orig, range, i + 1));
                    assert(orig.take(i + 1) =~= orig.take(i as int).push(orig[i as int]));
                    assert(rows_view(self.rows@) =~= orig.take(i as int) + tail);
                    changed = true;
                } else {
                    let mut target = self.rows.remove(i);
                    let c = target.mark_deleted();
                    let ghost tv = target@;
                    self.rows.insert(i, target);
                    assert(rows_view(self.rows@) =~= before.update(i as int, tv));
                    assert(rows_view(self.rows@) =~= orig.take(i as int) + tail);
                    changed = changed || c;
                }
            } else {
                assert(rows_view(self.rows@) =~= orig.take(i as int) + tail);
            }
            assert(self@ =~= (SessionView { rows: rows_view(self.rows@), ..recorded }));
        }
        assert(orig.take(0) + deleted_suffix(orig, range, 0) =~= deleted_suffix(orig, range, 0));
        if !changed {
            proof {
                lemma_deleted_suffix_unchanged(orig, range, 0);
            }
            assert(orig.subrange(0, orig.len() as int) =~= orig);
            let ghost u = self.undo@;
            assert(stack_view(u) == old(self)@.undo.push(old(self)@.rows));
            self.undo.pop();
            assert(self.undo@ =~= u.drop_last());
            assert(stack_view(self.undo@) =~= stack_view(u).drop_last());
            assert(stack_view(self.undo@) =~= old(self)@.undo);
        }
        changed
    }

    /// Pastes the yanked rows as insert drafts starting at `position` (see [`paste_from`]).
    pub fn paste_rows(&mut self, position: usize) -> (r: bool)
        ensures
            r == (old(self)@.yank matches Some(y) && y.len() > 0),
            r ==> final(self)@ == paste_from(old(self)@, position, old(self)@.yank.unwrap(), 0),
            !r ==> final(self)@ == old(self)@,
    {
        let rows = match &self.yank {
            Some(y) => {
                let mut copy: Vec<Vec<CellValue>> = Vec::new();
                let mut k: usize = 0;
                while k < y.len()
                    invariant
                        k <= y.len(),
                        value_rows_view(copy@) == value_rows_view(y@.take(k as int)),
                    decreases y.len() - k,
                {
                    let ghost prev = copy@;
                    let c = copy_cells(&y[k]);
                    let ghost cv = c@;
                    copy.push(c);
                    assert(copy@ =~= prev.push(c));
                    assert(y@.take(k + 1) =~= y@.take(k as int).push(y@[k as int]));
                    assert(value_rows_view(copy@) =~= value_rows_view(prev).push(cells_view(cv)));
                    assert(value_rows_view(copy@) =~= value_rows_view(y@.take(k + 1)));
                    k += 1;
                }
                assert(y@.take(y.len() as int) == y@);
                copy
            },
            None => {
                return false;
            },
        };
        if rows.len() == 0 {
            return false;
        }
        let ghost yank = old(self)@.yank.unwrap();
        assert(value_rows_view(rows@) =~= yank);
        let mut offset: usize = 0;
        while offset < rows.len()
            invariant
                offset <= rows.len(),
                value_rows_view(rows@) == yank,
                paste_from(old(self)@, position, yank, 0) == paste_from(
                    self@,
                    position,
                    yank,
                    offset as int,
                ),
            decreases rows.len() - offset,
        {
            let pos = position.saturating_add(offset);
            let values = copy_cells(&rows[offset]);
            assert(cells_view(values@) == yank[offset as int]);
            let ghost before = self@;
            let id = self.insert_row(pos, values);
            let k = self.find_row(id);
            if k < self.rows.len() {
                let n = self.rows[k].current.len();
                let mut supplied: BTreeSet<usize> = BTreeSet::new();
                let mut j: usize = 0;
                while j < n
                    invariant
                        j <= n,
                        supplied@ == Set::new(|c: usize| (c as int) < j),
                    decreases n - j,
                {
                    supplied.insert(j);
                    assert(supplied@ =~= Set::new(|c: usize| (c as int) < j + 1));
                    j += 1;
                }
                let ghost mid = self@;
                let mut target = self.rows.remove(k);
                target.supplied_columns = supplied;
                let ghost tv = target@;
                self.rows.insert(k, target);
                assert(rows_view(self.rows@) =~= mid.rows.update(k as int, tv));
                assert(tv == (RowView { supplied: all_columns(mid.rows[k as int].current.len()), ..mid.rows[k as int] }));
            }
            assert(self@ == paste_step(before, pos, yank[offset as int]));
            offset += 1;
        }
        true
    }

    /// Index of the first row with the given id (or the row count).
    fn find_row(&self, id: EditableRowId) -> (k: usize)
        ensures
            k == first_with_id(self@.rows, id.0),
    {
        let mut k: usize = 0;
        while k < self.rows.len() && self.rows[k].id.0 != id.0
            invariant
                k <= self.rows.len(),
                forall|j: int| 0 <= j < k ==> self@.rows[j].id != id.0,
            decreases self.rows.len() - k,
        {
            k += 1;
        }
        proof {
            lemma_first_with_id(self@.rows, id.0, k as int);
        }
        k
    }

    /// Restores the rows of the last undo step.
    pub fn undo(&mut self) -> (r: bool)
        ensures
            (final(self)@, r) == session_undo(old(self)@),
    {
        if self.undo.len() == 0 {
            return false;
        }
        let previous = self.undo.pop().unwrap();
        let current = copy_rows(&self.rows);
        self.redo.push(current);
        self.rows = previous;
        self.sync_history_depth();
        assert(stack_view(self.undo@) =~= stack_view(old(self).undo@).drop_last());
        assert(stack_view(self.redo@) =~= stack_view(old(self).redo@).push(rows_view(old(self).rows@)));
        true
    }

    /// Restores the rows of the last redo step.
    pub fn redo(&mut self) -> (r: bool)
        ensures
            (final(self)@, r) == session_redo(old(self)@),
    {
        if self.redo.len() == 0 {
            return false;
        }
        let next = self.redo.pop().unwrap();
        let current = copy_rows(&self.rows);
        self.undo.push(current);
        self.rows = next;
        self.sync_history_depth();
        assert(stack_view(self.redo@) =~= stack_view(old(self).redo@).drop_last());
        assert(stack_view(self.undo@) =~= stack_view(old(self).undo@).push(rows_view(old(self).rows@)));
        true
    }

    /// Drops insert drafts, resets every row to its original values, leaves browse mode and
    /// clears the history and pending saves.
    pub fn discard_changes(&mut self)
        ensures
            final(self)@ == (SessionView {
                mode: RelationGridMode::Browse,
                rows: discarded_rows(old(self)@.rows),
                undo: Seq::empty(),
                redo: Seq::empty(),
                undo_depth: 0,
                redo_depth: 0,
                pending_save: Seq::empty(),
                save_after_metadata_load: false,
                ..old(self)@
            }),
    {
        let ghost orig = rows_view(self.rows@);
        let mut kept: Vec<EditableRow> = Vec::new();
        let mut i: usize = 0;
        while i < self.rows.len()
            invariant
                i <= self.rows.len(),
                orig == rows_view(self.rows@),
                rows_view(kept@) == discarded_rows(orig.take(i as int)),
            decreases self.rows.len() - i,
        {
            assert(orig.take(i + 1).drop_last() == orig.take(i as int));
            if !self.rows[i].state.is_insert_draft() {
                let r = &self.rows[i];
                let row = EditableRow {
                    id: r.id,
                    original: copy_cells(&r.original),
                    current: copy_cells(&r.original),
                    state: EditableRowState::Clean,
                    supplied_columns: BTreeSet::new(),
                    version: r.version,
                };
                kept.push(row);
            }
            assert(rows_view(kept@) =~= discarded_rows(orig.take(i + 1)));
            i += 1;
        }
        assert(orig.take(self.rows.len() as int) == orig);
        self.rows = kept;
        self.mode = RelationGridMode::Browse;
        self.undo.clear();
        self.redo.clear();
        self.pending_save.clear();
        self.save_after_metadata_load = false;
        self.sync_history_depth();
        assert(stack_view(self.undo@) =~= Seq::empty());
        assert(stack_view(self.redo@) =~= Seq::empty());
    }

    /// Drops deleted rows, makes every current value the original one and clears the history
    /// and pending saves.
    pub fn commit_changes(&mut self)
        ensures
            final(self)@ == (SessionView {
                rows: committed_rows(old(self)@.rows),
                undo: Seq::empty(),
                redo: Seq::empty(),
                undo_depth: 0,
                redo_depth: 0,
                pending_save: Seq::empty(),
                save_after_metadata_load: false,
                ..old(self)@
            }),
    {
        let ghost orig = rows_view(self.rows@);
        let mut kept: Vec<EditableRow> = Vec::new();
        let mut i: usize = 0;
        while i < self.rows.len()
            invariant
                i <= self.rows.len(),
                orig == rows_view(self.rows@),
                rows_view(kept@) == committed_rows(orig.take(i as int)),
            decreases self.rows.len() - i,
        {
            assert(orig.take(i + 1).drop_last() == orig.take(i as int));
            if !self.rows[i].state.is_deleted() {
                let r = &self.rows[i];
                let row = EditableRow {
                    id: r.id,
                    original: copy_cells(&r.current),
                    current: copy_cells(&r.current),
                    state: EditableRowState::Clean,
                    supplied_columns: BTreeSet::new(),
                    version: r.version,
                };
                kept.push(row);
            }
            assert(rows_view(kept@) =~= committed_rows(orig.take(i + 1)));
            i += 1;
        }
        assert(orig.take(self.rows.len() as int) == orig);
        self.rows = kept;
        self.pending_save.clear();
        self.save_after_metadata_load = false;
        self.undo.clear();
        self.redo.clear();
        self.sync_history_depth();
        assert(stack_view(self.undo@) =~= Seq::empty());
        assert(stack_view(self.redo@) =~= Seq::empty());
    }

    /// Makes the depth counters match the history stacks.
    pub fn sync_history_depth(&mut self)
        ensures
            final(self)@ == synced(old(self)@),
    {
        self.undo_depth = self.undo.len();
        self.redo_depth = self.redo.len();
    }

    /// Records a completed database mutation; the redo stack is cleared.
    pub fn record_mutation(&mut self, history: RelationMutationHistory)
        ensures
            final(self)@ == (SessionView {
                mutation_undo: old(self)@.mutation_undo.push(history),
                mutation_redo: Seq::empty(),
                ..old(self)@
            }),
    {
        self.mutation_undo.push(history);
        self.mutation_redo.clear();
    }

    /// The request that undoes (or redoes) the last mutation, remembering the direction;
    /// `None`, with nothing changed, when that stack is empty.
    pub fn pending_mutation(&mut self, direction: PendingMutationHistory) -> (r: Option<
        RelationMutationRequest,
    >)
        ensures
            (final(self)@, r) == session_pending_mutation(old(self)@, direction),
    {
        let request = match direction {
            PendingMutationHistory::Undo => {
                let n = self.mutation_undo.len();
                if n == 0 {
                    return None;
                }
                copy_request(&self.mutation_undo[n - 1].inverse)
            },
            PendingMutationHistory::Redo => {
                let n = self.mutation_redo.len();
                if n == 0 {
                    return None;
                }
                copy_request(&self.mutation_redo[n - 1].forward)
            },
        };
        self.pending_mutation_history = Some(direction);
        Some(request)
    }

    /// Moves the pending mutation between the history stacks once it succeeded; the pending
    /// direction is cleared in any case.
    pub fn complete_mutation(&mut self) -> (r: bool)
        ensures
            (final(self)@, r) == session_complete_mutation(old(self)@),
    {
        let direction = match self.pending_mutation_history {
            Some(d) => d,
            None => {
                return false;
            },
        };
        self.pending_mutation_history = None;
        match direction {
            PendingMutationHistory::Undo => {
                match self.mutation_undo.pop() {
                    Some(history) => {
                        self.mutation_redo.push(history);
                    },
                    None => {
                        return false;
                    },
                }
            },
            PendingMutationHistory::Redo => {
                match self.mutation_redo.pop() {
                    Some(history) => {
                        self.mutation_undo.push(history);
                    },
                    None => {
                        return false;
                    },
                }
            },
        }
        true
    }
}

impl Default for RelationEditSession {
    fn default() -> (s: Self)
        ensures
            s@ == empty_session(),
    {
        Self::new()
    }
}

/// A copy of a mutation request.
pub fn copy_request(r: &RelationMutationRequest) -> (c: RelationMutationRequest)
    ensures
        c == *r,
{
    RelationMutationRequest { row_id: r.row_id, statement: r.statement.clone() }
}

} // verus!

verus! {

/// Undoing right after an update of an existing row gives back the rows and the undo stack
/// as they were, with the updated rows on the redo stack.
pub proof fn law_undo_reverts_update(s: SessionView, row: usize, column: usize, v: CellView)
    requires
        row < s.rows.len(),
    ensures
        ({
            let (t, _) = session_update_cell(s, row, column, v);
            let (u, ok) = session_undo(t);
            ok && u.rows == s.rows && u.undo == s.undo && u.redo == seq![t.rows]
        }),
{
    let (t, _) = session_update_cell(s, row, column, v);
    assert(t.undo.drop_last() =~= s.undo);
    assert(Seq::<Seq<RowView>>::empty().push(t.rows) =~= seq![t.rows]);
}

/// Undoing right after an insertion removes the inserted row again.
pub proof fn law_undo_reverts_insert(s: SessionView, position: usize, values: Seq<CellView>)
    ensures
        ({
            let (t, _) = session_insert_row(s, position, values);
            let (u, ok) = session_undo(t);
            ok && u.rows == s.rows && u.undo == s.undo
        }),
{
    let (t, _) = session_insert_row(s, position, values);
    assert(t.undo.drop_last() =~= s.undo);
}

/// Undoing right after a successful restore of an unprovided column gives back the rows.
pub proof fn law_undo_reverts_restore(s: SessionView, row: usize, column: usize)
    requires
        session_restore_unprovided(s, row, column).1,
    ensures
        ({
            let (t, _) = session_restore_unprovided(s, row, column);
            let (u, ok) = session_undo(t);
            ok && u.rows == s.rows && u.undo == s.undo
        }),
{
    let (t, _) = session_restore_unprovided(s, row, column);
    assert(t.undo.drop_last() =~= s.undo);
}

/// Undoing right after a deletion that changed something gives back the rows; a deletion
/// that changed nothing leaves the rows and the undo stack as they were.
pub proof fn law_undo_reverts_delete(s: SessionView, range: RangeInclusive<usize>)
    ensures
        ({
            let (t, changed) = session_delete_rows(s, range);
            let (u, ok) = session_undo(t);
            changed ==> ok && u.rows == s.rows && u.undo == s.undo
        }),
        !session_delete_rows(s, range).1 ==> session_delete_rows(s, range).0.rows == s.rows
            && session_delete_rows(s, range).0.undo == s.undo,
{
    let (t, changed) = session_delete_rows(s, range);
    if changed {
        assert(t.undo.drop_last() =~= s.undo);
    }
}

/// Redo right after undo gives back the rows and both history stacks.
pub proof fn law_redo_after_undo(s: SessionView)
    requires
        s.undo.len() > 0,
    ensures
        ({
            let (u, ok) = session_undo(s);
            let (r, ok2) = session_redo(u);
            ok && ok2 && r.rows == s.rows && r.undo == s.undo && r.redo == s.redo
        }),
{
    let (u, _) = session_undo(s);
    assert(u.redo.drop_last() =~= s.redo);
    assert(u.undo.push(u.rows) =~= s.undo);
}

/// Undo right after redo gives back the rows and both history stacks.
pub proof fn law_undo_after_redo(s: SessionView)
    requires
        s.redo.len() > 0,
    ensures
        ({
            let (r, ok) = session_redo(s);
            let (u, ok2) = session_undo(r);
            ok && ok2 && u.rows == s.rows && u.undo == s.undo && u.redo == s.redo
        }),
{
    let (r, _) = session_redo(s);
    assert(r.undo.drop_last() =~= s.undo);
    assert(r.redo.push(r.rows) =~= s.redo);
}

/// Every row left by `commit_changes` is clean, keeps its current values as the original ones,
/// and no row marked deleted survives.
pub proof fn law_commit_leaves_clean_rows(rows: Seq<RowView>)
    ensures
        forall|i: int| 0 <= i < committed_rows(rows).len() ==> {
            let r = #[trigger] committed_rows(rows)[i];
            r.state is Clean && r.original == r.current && r.supplied.is_empty()
        },
        committed_rows(rows).len() <= rows.len(),
    decreases rows.len(),
{
    if rows.len() > 0 {
        law_commit_leaves_clean_rows(rows.drop_last());
    }
}

/// Every row left by `discard_changes` is clean with its original values, and no insert
/// draft survives.
pub proof fn law_discard_leaves_original_rows(rows: Seq<RowView>)
    ensures
        forall|i: int| 0 <= i < discarded_rows(rows).len() ==> {
            let r = #[trigger] discarded_rows(rows)[i];
            r.state is Clean && r.original == r.current && r.supplied.is_empty()
        },
        discarded_rows(rows).len() <= rows.len(),
    decreases rows.len(),
{
    if rows.len() > 0 {
        law_discard_leaves_original_rows(rows.drop_last());
    }
}

/// A pending undo that completes moves the last mutation from the undo stack to the redo
/// stack, and the request handed out was that mutation's inverse.
pub proof fn law_mutation_undo_moves_after_completion(s: SessionView)
    requires
        s.mutation_undo.len() > 0,
    ensures
        ({
            let (p, req) = session_pending_mutation(s, PendingMutationHistory::Undo);
            let (c, ok) = session_complete_mutation(p);
            &&& req == Some(s.mutation_undo.last().inverse)
            &&& p.mutation_undo == s.mutation_undo
            &&& ok
            &&& c.mutation_undo == s.mutation_undo.drop_last()
            &&& c.mutation_redo == s.mutation_redo.push(s.mutation_undo.last())
            &&& c.pending_mutation_history is None
            &&& c.rows == s.rows
        }),
{
}

/// A pending redo that completes moves the last mutation from the redo stack back to the undo
/// stack, and the request handed out was that mutation's forward request.
pub proof fn law_mutation_redo_moves_after_completion(s: SessionView)
    requires
        s.mutation_redo.len() > 0,
    ensures
        ({
            let (p, req) = session_pending_mutation(s, PendingMutationHistory::Redo);
            let (c, ok) = session_complete_mutation(p);
            &&& req == Some(s.mutation_redo.last().forward)
            &&& ok
            &&& c.mutation_redo == s.mutation_redo.drop_last()
            &&& c.mutation_undo == s.mutation_undo.push(s.mutation_redo.last())
            &&& c.pending_mutation_history is None
        }),
{
}

/// A pasted row: an insert draft with the given id whose every column counts as supplied.
pub open spec fn pasted_row(id: u64, values: Seq<CellView>) -> RowView {
    RowView {
        state: RowStateView::InsertDraft,
        supplied: all_columns(values.len()),
        ..new_row(id, values)
    }
}

/// The rows expected after pasting the first `j` yanked rows at `p`, the new ids following
/// `s.next_row_id`.
pub open spec fn pasted_rows(s: SessionView, p: int, yank: Seq<Seq<CellView>>, j: int) -> Seq<
    RowView,
> {
    Seq::new(
        (s.rows.len() + j) as nat,
        |k: int|
            if k < p {
                s.rows[k]
            } else if k < p + j {
                pasted_row((s.next_row_id + (k - p) + 1) as u64, yank[k - p])
            } else {
                s.rows[k - j]
            },
    )
}

proof fn lemma_paste_from(
    s0: SessionView,
    position: usize,
    yank: Seq<Seq<CellView>>,
    j: int,
    s: SessionView,
)
    requires
        position <= s0.rows.len(),
        position + yank.len() <= usize::MAX,
        s0.next_row_id + yank.len() <= u64::MAX,
        forall|k: int| 0 <= k < s0.rows.len() ==> #[trigger] s0.rows[k].id <= s0.next_row_id,
        0 <= j <= yank.len(),
        s.rows == pasted_rows(s0, position as int, yank, j),
        s.next_row_id == s0.next_row_id + j,
    ensures
        paste_from(s, position, yank, j).rows == pasted_rows(
            s0,
            position as int,
            yank,
            yank.len() as int,
        ),
    decreases yank.len() - j,
{
    if j < yank.len() {
        let p = position as int;
        let pos = (position + j) as usize;
        let (t, id) = session_insert_row(s, pos, yank[j]);
        assert(id == s0.next_row_id + j + 1);
        assert(t.rows[p + j].id == id);
        assert forall|k: int| 0 <= k < p + j implies t.rows[k].id != id by {
            if k < p {
                assert(t.rows[k] == s0.rows[k]);
            } else {
                assert(t.rows[k] == pasted_row((s0.next_row_id + (k - p) + 1) as u64, yank[k - p]));
            }
        }
        lemma_first_with_id(t.rows, id, p + j);
        let next = paste_step(s, pos, yank[j]);
        assert(next.rows =~= pasted_rows(s0, p, yank, j + 1));
        lemma_paste_from(s0, position, yank, j + 1, next);
    }
}

/// Pasting yanked rows at a position within the grid puts every yanked row, in order, at
/// `position + i` as an insert draft with all of its columns supplied, and keeps the other rows
/// in order around them (fresh ids assumed: every existing id is at most the id counter, which
/// does not saturate).
pub proof fn law_paste_restores_yanked_rows(s: SessionView, position: usize, yank: Seq<Seq<CellView>>)
    requires
        position <= s.rows.len(),
        position + yank.len() <= usize::MAX,
        s.next_row_id + yank.len() <= u64::MAX,
        forall|k: int| 0 <= k < s.rows.len() ==> #[trigger] s.rows[k].id <= s.next_row_id,
    ensures
        ({
            let t = paste_from(s, position, yank, 0);
            &&& t.rows.len() == s.rows.len() + yank.len()
            &&& forall|i: int| 0 <= i < yank.len() ==> {
                let r = #[trigger] t.rows[position + i];
                r.current == yank[i] && r.state is InsertDraft && r.supplied == all_columns(
                    yank[i].len(),
                )
            }
            &&& forall|i: int| 0 <= i < position ==> #[trigger] t.rows[i] == s.rows[i]
            &&& forall|i: int| position <= i < s.rows.len() ==> #[trigger] t.rows[i + yank.len()]
                == s.rows[i]
        }),
{
    assert(s.rows =~= pasted_rows(s, position as int, yank, 0));
    lemma_paste_from(s, position, yank, 0, s);
}


/// Every row id of the session is at most its id counter.
pub open spec fn ids_within_counter(s: SessionView) -> bool {
    forall|i: int| 0 <= i < s.rows.len() ==> #[trigger] s.rows[i].id <= s.next_row_id
}

/// A session loaded from rows numbers them `1..=n` and sets its counter to `n`, so every id
/// lies within the counter and no two rows share an id.
pub proof fn law_loaded_rows_have_distinct_ids(rows: Seq<Seq<CellView>>, versions: Option<Seq<RowVersion>>)
    requires
        rows.len() <= u64::MAX,
    ensures
        ids_within_counter(
            SessionView {
                rows: loaded_rows(rows, versions),
                next_row_id: rows.len() as u64,
                ..empty_session()
            },
        ),
        forall|i: int, j: int|
            0 <= i < j < rows.len() ==> #[trigger] loaded_rows(rows, versions)[i].id
                != #[trigger] loaded_rows(rows, versions)[j].id,
{
}

/// A row inserted into a session whose ids lie within its counter gets an id that no earlier
/// row has, and all ids, the new one included, stay within the advanced counter (while the
/// counter is not exhausted).
pub proof fn law_inserted_row_id_is_fresh(s: SessionView, position: usize, values: Seq<CellView>)
    requires
        ids_within_counter(s),
        s.next_row_id < u64::MAX,
    ensures
        ({
            let (t, id) = session_insert_row(s, position, values);
            &&& ids_within_counter(t)
            &&& forall|i: int| 0 <= i < s.rows.len() ==> #[trigger] s.rows[i].id != id
            &&& t.rows.len() == s.rows.len() + 1
            &&& exists|k: int| 0 <= k < t.rows.len() && #[trigger] t.rows[k].id == id
        }),
{
    let (t, id) = session_insert_row(s, position, values);
    let pos = if position < s.rows.len() {
        position as int
    } else {
        s.rows.len() as int
    };
    assert(t.rows[pos].id == id);
    assert forall|i: int| 0 <= i < t.rows.len() implies #[trigger] t.rows[i].id <= t.next_row_id by {
        if i < pos {
            assert(t.rows[i] == s.rows[i]);
        } else if i > pos {
            assert(t.rows[i] == s.rows[i - 1]);
        }
    }
}


/// Every id among the rows is at most `n`.
pub open spec fn rows_within(rows: Seq<RowView>, n: u64) -> bool {
    forall|i: int| 0 <= i < rows.len() ==> #[trigger] rows[i].id <= n
}

/// Every row id of the session, in its rows and in both history stacks, is at most its id
/// counter.
pub open spec fn session_ids_within_counter(s: SessionView) -> bool {
    &&& rows_within(s.rows, s.next_row_id)
    &&& forall|k: int| 0 <= k < s.undo.len() ==> rows_within(#[trigger] s.undo[k], s.next_row_id)
    &&& forall|k: int| 0 <= k < s.redo.len() ==> rows_within(#[trigger] s.redo[k], s.next_row_id)
}

proof fn lemma_rows_within_grow(rows: Seq<RowView>, n: u64, m: u64)
    requires
        rows_within(rows, n),
        n <= m,
    ensures
        rows_within(rows, m),
{
}

proof fn lemma_deleted_within(rows: Seq<RowView>, range: RangeInclusive<usize>, from: int, n: u64)
    requires
        rows_within(rows, n),
    ensures
        rows_within(deleted_suffix(rows, range, from), n),
    decreases rows.len() - from,
{
    if 0 <= from < rows.len() {
        lemma_deleted_within(rows, range, from + 1, n);
        let all = deleted_suffix(rows, range, from);
        let rest = deleted_suffix(rows, range, from + 1);
        assert forall|i: int| 0 <= i < all.len() implies #[trigger] all[i].id <= n by {
            if i >= all.len() - rest.len() {
                assert(all[i] == rest[i - (all.len() - rest.len())]);
            } else {
                assert(all[i].id == rows[from].id);
            }
        }
    }
}

proof fn lemma_discarded_within(rows: Seq<RowView>, n: u64)
    requires
        rows_within(rows, n),
    ensures
        rows_within(discarded_rows(rows), n),
    decreases rows.len(),
{
    if rows.len() > 0 {
        lemma_discarded_within(rows.drop_last(), n);
    }
}

proof fn lemma_committed_within(rows: Seq<RowView>, n: u64)
    requires
        rows_within(rows, n),
    ensures
        rows_within(committed_rows(rows), n),
    decreases rows.len(),
{
    if rows.len() > 0 {
        lemma_committed_within(rows.drop_last(), n);
    }
}

/// Recording a change keeps every id within a counter that does not go down.
proof fn lemma_record_within(s: SessionView, rows: Seq<RowView>, next: u64)
    requires
        session_ids_within_counter(s),
        rows_within(rows, next),
        s.next_row_id <= next,
    ensures
        session_ids_within_counter(SessionView { rows, next_row_id: next, ..record_change(s) }),
{
    let t = SessionView { rows, next_row_id: next, ..record_change(s) };
    assert forall|k: int| 0 <= k < t.undo.len() implies rows_within(#[trigger] t.undo[k], next) by {
        if k < s.undo.len() {
            lemma_rows_within_grow(s.undo[k], s.next_row_id, next);
        } else {
            lemma_rows_within_grow(s.rows, s.next_row_id, next);
        }
    }
}

proof fn lemma_insert_within(s: SessionView, position: usize, values: Seq<CellView>)
    requires
        session_ids_within_counter(s),
    ensures
        session_ids_within_counter(session_insert_row(s, position, values).0),
{
    let (t, id) = session_insert_row(s, position, values);
    let pos = if position < s.rows.len() {
        position as int
    } else {
        s.rows.len() as int
    };
    assert forall|i: int| 0 <= i < t.rows.len() implies #[trigger] t.rows[i].id <= id by {
        if i < pos {
            assert(t.rows[i] == s.rows[i]);
        } else if i > pos {
            assert(t.rows[i] == s.rows[i - 1]);
        }
    }
    lemma_record_within(s, t.rows, id);
}

proof fn lemma_paste_within(s: SessionView, position: usize, yank: Seq<Seq<CellView>>, from: int)
    requires
        session_ids_within_counter(s),
    ensures
        session_ids_within_counter(paste_from(s, position, yank, from)),
    decreases yank.len() - from,
{
    if 0 <= from < yank.len() {
        let pos = if position as int + from > usize::MAX {
            usize::MAX
        } else {
            (position + from) as usize
        };
        let (t, id) = session_insert_row(s, pos, yank[from]);
        lemma_insert_within(s, pos, yank[from]);
        let u = paste_step(s, pos, yank[from]);
        let k = first_with_id(t.rows, id);
        if 0 <= k < t.rows.len() {
            assert forall|i: int| 0 <= i < u.rows.len() implies #[trigger] u.rows[i].id
                <= u.next_row_id by {
                assert(u.rows[i].id == t.rows[i].id);
            }
        }
        lemma_paste_within(u, position, yank, from + 1);
    }
}

/// A session starts with every row id within its counter, and every operation on its rows keeps
/// every id, in the rows and in the undo and redo snapshots, within the (never decreasing)
/// counter; so, while the counter is not exhausted, each inserted or pasted row gets an id no
/// other row and no snapshot holds.
pub proof fn law_session_ids_stay_within_counter(
    s: SessionView,
    row: usize,
    column: usize,
    v: CellView,
    position: usize,
    values: Seq<CellView>,
    range: RangeInclusive<usize>,
)
    requires
        session_ids_within_counter(s),
    ensures
        session_ids_within_counter(empty_session()),
        session_ids_within_counter(session_insert_row(s, position, values).0),
        session_ids_within_counter(session_update_cell(s, row, column, v).0),
        session_ids_within_counter(session_restore_unprovided(s, row, column).0),
        session_ids_within_counter(session_delete_rows(s, range).0),
        session_ids_within_counter(session_undo(s).0),
        session_ids_within_counter(session_redo(s).0),
        s.yank matches Some(y) ==> session_ids_within_counter(paste_from(s, position, y, 0)),
        rows_within(discarded_rows(s.rows), s.next_row_id),
        rows_within(committed_rows(s.rows), s.next_row_id),
{
    lemma_insert_within(s, position, values);
    if row < s.rows.len() {
        let (updated, _) = row_update_cell(s.rows[row as int], column, v);
        let rows = s.rows.update(row as int, updated);
        assert forall|i: int| 0 <= i < rows.len() implies #[trigger] rows[i].id <= s.next_row_id by {
            assert(rows[i].id == s.rows[i].id);
        }
        lemma_record_within(s, rows, s.next_row_id);
        if row_restore_unprovided(s.rows[row as int], column).1 {
            let (restored, _) = row_restore_unprovided(s.rows[row as int], column);
            let rows2 = s.rows.update(row as int, restored);
            assert forall|i: int| 0 <= i < rows2.len() implies #[trigger] rows2[i].id
                <= s.next_row_id by {
                assert(rows2[i].id == s.rows[i].id);
            }
            lemma_record_within(s, rows2, s.next_row_id);
        }
    }
    lemma_deleted_within(s.rows, range, 0, s.next_row_id);
    lemma_record_within(s, deleted_suffix(s.rows, range, 0), s.next_row_id);
    lemma_record_within(s, s.rows, s.next_row_id);
    if s.undo.len() > 0 {
        let u = session_undo(s).0;
        assert(rows_within(s.undo[s.undo.len() - 1], s.next_row_id));
        assert forall|k: int| 0 <= k < u.redo.len() implies rows_within(
            #[trigger] u.redo[k],
            u.next_row_id,
        ) by {
            if k < s.redo.len() {
                assert(u.redo[k] == s.redo[k]);
            }
        }
        assert forall|k: int| 0 <= k < u.undo.len() implies rows_within(
            #[trigger] u.undo[k],
            u.next_row_id,
        ) by {
            assert(u.undo[k] == s.undo[k]);
        }
    }
    if s.redo.len() > 0 {
        let r = session_redo(s).0;
        assert(rows_within(s.redo[s.redo.len() - 1], s.next_row_id));
        assert forall|k: int| 0 <= k < r.undo.len() implies rows_within(
            #[trigger] r.undo[k],
            r.next_row_id,
        ) by {
            if k < s.undo.len() {
                assert(r.undo[k] == s.undo[k]);
            }
        }
        assert forall|k: int| 0 <= k < r.redo.len() implies rows_within(
            #[trigger] r.redo[k],
            r.next_row_id,
        ) by {
            assert(r.redo[k] == s.redo[k]);
        }
    }
    if let Some(y) = s.yank {
        lemma_paste_within(s, position, y, 0);
    }
    lemma_discarded_within(s.rows, s.next_row_id);
    lemma_committed_within(s.rows, s.next_row_id);
}

} // verus!
