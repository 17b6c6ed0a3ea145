use lazydb::relation_edit::{EditableRowState, RelationEditSession};
use lazydb::relation_review::{
    activity_pending_sql, literal, predicate, preview_sql, preview_sql_for_tab,
    quote_identifier, quote_qualified_identifier, relation_has_dirty_edits,
    refresh_transaction_review_sql, summary, RelationDdl, RelationLoad, RelationSnapshot, RelationTab,
    TransactionState, PENDING_LOADING_PRIMARY_KEY,
};
use lazydb::value::CellValue;

fn names(list: &[&str]) -> Vec<String> {
    list.iter().map(|name| name.to_string()).collect()
}

#[test]
fn preview_sql_contains_highlightable_dml_for_local_changes() {
    let mut session = RelationEditSession::from_rows(vec![vec![
        CellValue::Integer(1),
        CellValue::Text("old".into()),
    ]]);
    session.update_cell(0, 1, CellValue::Text("new".into()));
    let sql = preview_sql(&session, "items", &names(&["id", "name"]), &names(&["id"]));
    assert_eq!(sql, "UPDATE \"items\" SET \"name\" = 'new' WHERE \"id\" = 1;");
}

#[test]
fn preview_sql_preserves_null_and_default_insert_semantics() {
    let mut session = RelationEditSession::default();
    session.insert_row(0, vec![CellValue::Null, CellValue::Text("x".into())]);
    let sql = preview_sql(&session, "items", &names(&["id", "name"]), &vec![]);
    assert!(sql.contains("DEFAULT VALUES") || sql.contains("NULL"));
}

#[test]
fn predicates_use_equality_or_is_null_for_original_values() {
    let columns = names(&["id", "name"]);
    let values = vec![CellValue::Integer(12), CellValue::Null];
    assert_eq!(predicate(&values, &columns, &names(&["id"])), "\"id\" = 12");
    assert_eq!(predicate(&values, &columns, &vec![]), "\"id\" = 12 AND \"name\" IS NULL");
    assert_eq!(predicate(&vec![CellValue::Null], &names(&["name"]), &vec![]), "\"name\" IS NULL");
}

#[test]
fn predicates_preserve_composite_key_order_and_escaping() {
    let columns = names(&["id", "tenant\"name", "note"]);
    let values = vec![CellValue::Integer(12), CellValue::Text("O'Reilly".into()), CellValue::Null];
    assert_eq!(
        predicate(&values, &columns, &names(&["tenant\"name", "id"])),
        "\"tenant\"\"name\" = 'O''Reilly' AND \"id\" = 12"
    );
}

#[test]
fn preview_sql_simplifies_deletes_and_locates_updates_by_old_key() {
    let mut session = RelationEditSession::from_rows(vec![
        vec![CellValue::Integer(8)],
        vec![CellValue::Integer(1218)],
        vec![CellValue::Integer(12)],
    ]);
    session.rows[0].state = EditableRowState::Deleted;
    session.rows[1].state = EditableRowState::Deleted;
    session.update_cell(2, 0, CellValue::Integer(13));
    assert_eq!(
        preview_sql(&session, "items", &names(&["id"]), &names(&["id"])),
        "DELETE FROM \"items\" WHERE \"id\" = 8;\n\
         DELETE FROM \"items\" WHERE \"id\" = 1218;\n\
         UPDATE \"items\" SET \"id\" = 13 WHERE \"id\" = 12;"
    );
}

#[test]
fn summary_counts_rows_and_update_statements_separately() {
    let mut session = RelationEditSession::from_rows(vec![vec![
        CellValue::Integer(1),
        CellValue::Text("old".into()),
    ]]);
    session.update_cell(0, 0, CellValue::Integer(2));
    session.update_cell(0, 1, CellValue::Text("new".into()));
    session.insert_row(1, vec![CellValue::Null, CellValue::Null]);
    assert_eq!(summary(&session), (1, 1, 0, 3));
}

#[test]
fn activity_pending_waits_when_ddl_is_missing() {
    let mut tab = RelationTab::new("public.users");
    let mut edit = RelationEditSession::from_rows(vec![vec![
        CellValue::Integer(1),
        CellValue::Text("ada".into()),
    ]]);
    assert!(edit.rows[0].update_cell(1, CellValue::Text("bob".into())));
    tab.edit = Some(edit);
    tab.ddl = RelationLoad::Empty;
    assert_eq!(activity_pending_sql(&tab), PENDING_LOADING_PRIMARY_KEY);
    assert!(preview_sql_for_tab(&tab).is_none());
}

#[test]
fn identifiers_and_literals_are_quoted_for_review() {
    assert_eq!(quote_identifier("a\"b"), "\"a\"\"b\"");
    assert_eq!(quote_qualified_identifier("public.users"), "\"public\".\"users\"");
    assert_eq!(literal(&CellValue::Null), "NULL");
    assert_eq!(literal(&CellValue::Text("it's".into())), "'it''s'");
    assert_eq!(literal(&CellValue::Boolean(true)), "TRUE");
}

#[test]
fn review_sql_for_a_tab_with_loaded_key_uses_the_key() {
    let mut tab = RelationTab::new("items");
    let mut edit = RelationEditSession::from_rows(vec![vec![
        CellValue::Integer(1),
        CellValue::Text("ada".into()),
    ]]);
    assert!(!relation_has_dirty_edits(&tab));
    edit.update_cell(0, 1, CellValue::Text("bob".into()));
    tab.edit = Some(edit);
    tab.ddl = RelationLoad::Ready(RelationDdl { primary_key: names(&["id"]) });
    tab.data = RelationLoad::Ready(RelationSnapshot { result_sets: vec![names(&["id", "name"])] });
    assert!(relation_has_dirty_edits(&tab));
    tab.transaction_state = TransactionState::Active;
    refresh_transaction_review_sql(&mut tab);
    assert_eq!(
        tab.transaction_review_sql.as_deref(),
        Some("UPDATE \"items\" SET \"name\" = 'bob' WHERE \"id\" = 1;")
    );
}
