use lazydb::cell_editor::{
    CellEditorBuffer, CellEditorContent, CellEditorKind, CellEditorPresence, TypedDraft,
};
use lazydb::relation_edit::{
    CellEditorState, EditableRow, EditableRowId, EditableRowState, PendingMutationHistory,
    RelationEditSession, RelationGridMode, RelationMutationHistory, RelationMutationRequest,
    RowVersion,
};
use lazydb::text_input::TextInput;
use lazydb::value::{CellValue, FloatText};

fn row() -> EditableRow {
    EditableRow::new(EditableRowId(1), vec![CellValue::Integer(1), CellValue::Text("old".into())])
}

#[test]
fn versioned_rows_preserve_order_and_reject_mismatched_versions() {
    let rows = vec![vec![CellValue::Integer(1)], vec![CellValue::Integer(2)]];
    let versions = vec![RowVersion::PostgresXmin(11), RowVersion::PostgresXmin(22)];
    let session = RelationEditSession::from_rows_with_versions(rows, Some(versions)).unwrap();
    assert_eq!(session.rows[0].id, EditableRowId(1));
    assert_eq!(session.rows[1].id, EditableRowId(2));
    assert_eq!(session.rows[0].version, Some(RowVersion::PostgresXmin(11)));
    assert_eq!(session.rows[1].version, Some(RowVersion::PostgresXmin(22)));

    let error = RelationEditSession::from_rows_with_versions(
        vec![vec![CellValue::Integer(1)]],
        Some(Vec::new()),
    )
    .unwrap_err();
    assert!(error.contains("version count 0 does not match row count 1"));
}

#[test]
fn row_versions_survive_history_discard_and_snapshot_clone() {
    let mut session = RelationEditSession::from_rows_with_versions(
        vec![vec![CellValue::Integer(1)]],
        Some(vec![RowVersion::PostgresXmin(7)]),
    )
    .unwrap();
    let snapshot = session.clone();
    session.update_cell(0, 0, CellValue::Integer(2));
    assert!(session.undo());
    assert_eq!(session.rows[0].version, snapshot.rows[0].version);
    assert!(session.redo());
    assert_eq!(session.rows[0].version, snapshot.rows[0].version);
    session.discard_changes();
    assert_eq!(session.rows[0].version, Some(RowVersion::PostgresXmin(7)));
    assert_eq!(snapshot.rows[0].version, Some(RowVersion::PostgresXmin(7)));

    let inserted = session.insert_row(1, vec![CellValue::Integer(3)]);
    let inserted_row = session.rows.iter().find(|row| row.id == inserted).unwrap();
    assert_eq!(inserted_row.version, None);
    assert!(session.yank_row(0));
    assert_eq!(session.yank, Some(vec![vec![CellValue::Integer(1)]]));
}

#[test]
fn changing_a_cell_marks_only_changed_columns() {
    let mut row = row();
    assert!(row.update_cell(1, CellValue::Text("new".into())));
    assert_eq!(row.state, EditableRowState::Updated { changed_columns: [1].into_iter().collect() });
    assert!(row.update_cell(1, CellValue::Text("old".into())));
    assert_eq!(row.state, EditableRowState::Clean);
}

#[test]
fn visual_line_range_is_inclusive_and_direction_independent() {
    let mut session = RelationEditSession::from_rows(vec![vec![CellValue::Integer(1)]; 5]);
    session.mode = RelationGridMode::VisualLine { anchor: 3 };
    assert_eq!(session.visual_range(1), Some((1, 3)));
    assert_eq!(session.visual_range(4), Some((3, 4)));
}

#[test]
fn yank_rows_captures_a_range_and_paste_restores_every_row() {
    let mut session = RelationEditSession::from_rows(vec![
        vec![CellValue::Integer(1)],
        vec![CellValue::Integer(2)],
        vec![CellValue::Integer(3)],
    ]);
    session.mode = RelationGridMode::VisualLine { anchor: 0 };
    assert!(session.yank_rows(0..=2));
    assert_eq!(
        session.yank,
        Some(vec![
            vec![CellValue::Integer(1)],
            vec![CellValue::Integer(2)],
            vec![CellValue::Integer(3)],
        ])
    );
    assert!(session.paste_rows(3));
    assert_eq!(session.rows.len(), 6);
    assert_eq!(session.rows[3].current, vec![CellValue::Integer(1)]);
    assert_eq!(session.rows[4].current, vec![CellValue::Integer(2)]);
    assert_eq!(session.rows[5].current, vec![CellValue::Integer(3)]);
    for row in &session.rows[3..] {
        assert!(matches!(row.state, EditableRowState::InsertDraft));
        assert_eq!(row.supplied_columns, [0].into_iter().collect());
    }

    assert!(!session.yank_rows(9..=12));
    assert!(session.yank_rows(2..=2));
    assert_eq!(session.yank, Some(vec![vec![CellValue::Integer(3)]]));
}

#[test]
fn inserted_rows_receive_stable_ids_and_yank_is_structured() {
    let mut session = RelationEditSession::from_rows(vec![vec![CellValue::Integer(1)]]);
    let first = session.rows[0].id;
    let inserted = session.insert_row(0, vec![CellValue::Integer(2)]);
    assert_ne!(first, inserted);
    assert!(session.yank_row(0));
    assert_eq!(session.yank, Some(vec![vec![CellValue::Integer(2)]]));
    assert_ne!(session.rows[1].id, session.rows[0].id);
}

#[test]
fn deleted_rows_cannot_be_updated_or_deleted_twice() {
    let mut row = row();
    assert!(row.mark_deleted());
    assert!(!row.mark_deleted());
    assert!(!row.update_cell(1, CellValue::Text("no".into())));
}

#[test]
fn delete_marks_existing_rows_but_removes_uncommitted_inserts() {
    let mut session = RelationEditSession::from_rows(vec![vec![CellValue::Integer(1)]]);
    session.insert_row(1, vec![CellValue::Null]);

    assert!(session.delete_rows(0..=0));
    assert_eq!(session.rows[0].state, EditableRowState::Deleted);
    assert!(session.delete_rows(1..=1));
    assert_eq!(session.rows.len(), 1);
}

#[test]
fn insert_draft_tracks_only_explicitly_edited_columns() {
    let mut session = RelationEditSession::default();
    session.insert_row(0, vec![CellValue::Null, CellValue::Null]);

    assert!(session.update_cell(0, 1, CellValue::Integer(7)));
    assert_eq!(session.rows[0].supplied_columns, [1].into_iter().collect());
}

#[test]
fn insert_draft_tracks_explicit_false_and_null() {
    let mut session = RelationEditSession::default();
    session.insert_row(0, vec![CellValue::Null, CellValue::Null]);

    assert!(session.update_cell(0, 0, CellValue::Boolean(false)));
    assert!(session.update_cell(0, 1, CellValue::Null));
    assert_eq!(session.rows[0].supplied_columns, [0, 1].into_iter().collect());
}

#[test]
fn restore_unprovided_omits_only_the_selected_insert_column() {
    let mut session = RelationEditSession::default();
    session.insert_row(
        0,
        vec![CellValue::Integer(1), CellValue::Text("value".into()), CellValue::Null],
    );
    session.update_cell(0, 0, CellValue::Integer(7));
    session.update_cell(0, 1, CellValue::Text("changed".into()));
    let undo_depth = session.undo_depth;

    assert!(session.restore_unprovided(0, 0));
    assert_eq!(session.rows[0].current[0], CellValue::Null);
    assert_eq!(session.rows[0].supplied_columns, [1].into_iter().collect());
    assert_eq!(session.undo_depth, undo_depth + 1);

    assert!(session.undo());
    assert_eq!(session.rows[0].current[0], CellValue::Integer(7));
    assert_eq!(session.rows[0].supplied_columns, [0, 1].into_iter().collect());
    assert!(session.redo());
    assert_eq!(session.rows[0].current[0], CellValue::Null);
    assert_eq!(session.rows[0].supplied_columns, [1].into_iter().collect());
}

#[test]
fn restore_unprovided_rejects_existing_rows_and_invalid_columns_without_history() {
    let mut session = RelationEditSession::from_rows(vec![vec![CellValue::Null]]);
    let undo_depth = session.undo_depth;
    assert!(!session.restore_unprovided(0, 0));
    assert!(!session.restore_unprovided(0, 1));
    assert_eq!(session.undo_depth, undo_depth);

    session.insert_row(1, vec![CellValue::Null]);
    let undo_depth = session.undo_depth;
    assert!(!session.restore_unprovided(1, 0));
    assert_eq!(session.undo_depth, undo_depth);
    assert!(session.rows[1].supplied_columns.is_empty());
}

#[test]
fn typed_mutation_history_moves_only_after_success() {
    let request = RelationMutationRequest {
        row_id: EditableRowId(1),
        statement: "DELETE FROM \"items\" WHERE \"id\" = 1".into(),
    };
    let mut session = RelationEditSession::default();
    session.record_mutation(RelationMutationHistory { forward: request.clone(), inverse: request });
    assert_eq!(session.mutation_undo.len(), 1);
    assert!(session.pending_mutation(PendingMutationHistory::Undo).is_some());
    assert_eq!(session.mutation_undo.len(), 1);
    assert!(session.complete_mutation());
    assert!(session.mutation_undo.is_empty());
    assert_eq!(session.mutation_redo.len(), 1);
}

#[test]
fn cell_editor_state_can_hold_a_typed_boolean_without_changing_relation_mode() {
    let mut session = RelationEditSession::from_rows(vec![vec![CellValue::Boolean(true)]]);
    session.mode = RelationGridMode::EditCell(Box::new(CellEditorState {
        row: 0,
        column: 0,
        input: CellEditorBuffer {
            presence: CellEditorPresence::Value,
            content: CellEditorContent::Typed {
                kind: CellEditorKind::Boolean,
                draft: TypedDraft::Boolean(TextInput::from("true")),
            },
            ..CellEditorBuffer::default()
        },
        error: None,
    }));
    assert!(matches!(session.mode, RelationGridMode::EditCell(_)));
}

#[test]
fn undo_then_redo_returns_to_the_edited_rows() {
    let mut session = RelationEditSession::from_rows(vec![vec![CellValue::Integer(1)]]);
    assert!(session.update_cell(0, 0, CellValue::Integer(2)));
    assert!(session.undo());
    assert_eq!(session.rows[0].current, vec![CellValue::Integer(1)]);
    assert_eq!(session.rows[0].state, EditableRowState::Clean);
    assert!(!session.undo());
    assert!(session.redo());
    assert_eq!(session.rows[0].current, vec![CellValue::Integer(2)]);
    assert!(!session.redo());
}

#[test]
fn commit_makes_every_row_clean_and_discard_restores_originals() {
    let mut session = RelationEditSession::from_rows(vec![
        vec![CellValue::Integer(1)],
        vec![CellValue::Integer(2)],
    ]);
    session.update_cell(0, 0, CellValue::Integer(10));
    session.delete_rows(1..=1);
    session.insert_row(2, vec![CellValue::Integer(3)]);
    let mut discarded = session.clone();
    discarded.discard_changes();
    assert_eq!(discarded.rows.len(), 2);
    assert_eq!(discarded.rows[0].current, vec![CellValue::Integer(1)]);
    assert!(discarded.rows.iter().all(|row| row.state == EditableRowState::Clean));

    session.commit_changes();
    assert_eq!(session.rows.len(), 2);
    assert_eq!(session.rows[0].current, vec![CellValue::Integer(10)]);
    assert_eq!(session.rows[1].current, vec![CellValue::Integer(3)]);
    assert!(session.rows.iter().all(|row| row.state == EditableRowState::Clean));
}

#[test]
fn saved_rows_become_inserted_and_conflicts_keep_their_message() {
    let mut row = row();
    row.mark_inserted(vec![CellValue::Integer(9)], Some(RowVersion::PostgresXmin(3)));
    assert_eq!(row.state, EditableRowState::Inserted);
    assert_eq!(row.original, vec![CellValue::Integer(9)]);
    assert_eq!(row.current, vec![CellValue::Integer(9)]);
    assert_eq!(row.version, Some(RowVersion::PostgresXmin(3)));
    assert!(row.supplied_columns.is_empty());
    row.mark_conflict("row changed elsewhere".to_string());
    assert_eq!(row.state, EditableRowState::Conflict { message: "row changed elsewhere".into() });
}

fn float(value: f64) -> CellValue {
    let json_number = if value.is_finite() {
        Some(serde_json::Number::from_f64(value).unwrap().to_string())
    } else {
        None
    };
    CellValue::Float(FloatText { display: format!("{value}"), json_number })
}

#[test]
fn float_cells_compare_as_floats() {
    let mut nan = EditableRow::new(EditableRowId(1), vec![float(f64::NAN)]);
    assert!(nan.update_cell(0, float(f64::NAN)));
    assert_eq!(nan.state, EditableRowState::Updated { changed_columns: [0].into_iter().collect() });

    let mut zero = EditableRow::new(EditableRowId(2), vec![float(-0.0)]);
    assert!(zero.update_cell(0, float(0.0)));
    assert_eq!(zero.state, EditableRowState::Clean);

    let mut half = EditableRow::new(EditableRowId(3), vec![float(0.5)]);
    assert!(half.update_cell(0, float(0.25)));
    assert!(half.update_cell(0, float(0.5)));
    assert_eq!(half.state, EditableRowState::Clean);
    assert_ne!(float(f64::NAN), float(f64::NAN));
    assert_eq!(float(-0.0), float(0.0));
}

#[test]
fn ids_stay_unique_across_paste_undo_and_insert() {
    let mut session = RelationEditSession::from_rows(vec![vec![CellValue::Integer(1)], vec![CellValue::Integer(2)]]);
    assert!(session.yank_rows(0..=1));
    assert!(session.paste_rows(2));
    assert!(session.undo());
    assert!(session.redo());
    session.insert_row(0, vec![CellValue::Null]);
    let mut ids: Vec<u64> = session.rows.iter().map(|row| row.id.0).collect();
    ids.sort();
    ids.dedup();
    assert_eq!(ids.len(), session.rows.len());
    assert!(session.rows.iter().all(|row| row.id.0 <= session.next_row_id));
}
