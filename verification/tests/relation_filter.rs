use lazydb::dialect::SqlDialect;
use lazydb::relation_filter::{
    cell_where_clause, cycle_relation_column_sort, relation_column_sort_projection,
    string_literal, validate_relation_preview_options, RelationColumnSort, RelationPreviewOptions,
    SortDirection,
};
use lazydb::value::{CellValue, Date, DateTime, FloatText, Time, Timestamp};

fn names(list: &[&str]) -> Vec<String> {
    list.iter().map(|name| name.to_string()).collect()
}

fn float(value: f64) -> CellValue {
    let json_number = if value.is_finite() {
        Some(serde_json::Number::from_f64(value).unwrap().to_string())
    } else {
        None
    };
    CellValue::Float(FloatText { display: format!("{value}"), json_number })
}

#[test]
fn accepts_common_filter_and_order_fragments() {
    let options = validate_relation_preview_options(
        "id > 10 and name like 'John%'",
        "name desc, id asc",
        SqlDialect::Postgres,
    )
    .unwrap();
    assert_eq!(options.where_clause.as_deref(), Some("id > 10 and name like 'John%'"));
    assert_eq!(options.order_by_clause.as_deref(), Some("name desc, id asc"));
}

#[test]
fn rejects_multiple_statements_and_query_controls() {
    for (where_clause, order_by) in [
        ("id > 1; delete from users", ""),
        ("id > 1", "name desc limit 1"),
        ("id > 1", "name desc --"),
    ] {
        assert!(validate_relation_preview_options(where_clause, order_by, SqlDialect::Sqlite).is_err());
    }
}

#[test]
fn whitespace_only_clauses_are_absent() {
    assert_eq!(
        validate_relation_preview_options(" ", "\t", SqlDialect::Generic).unwrap(),
        RelationPreviewOptions::default()
    );
}

#[test]
fn header_sort_projection_maps_direction_and_priority() {
    let projection = relation_column_sort_projection(
        "id DESC, name, created_at ASC",
        &names(&["id", "name", "created_at", "other"]),
        SqlDialect::Postgres,
    )
    .unwrap();
    assert_eq!(
        projection,
        vec![
            Some(RelationColumnSort { direction: SortDirection::Desc, priority: 0 }),
            Some(RelationColumnSort { direction: SortDirection::Asc, priority: 1 }),
            Some(RelationColumnSort { direction: SortDirection::Asc, priority: 2 }),
            None,
        ]
    );
}

#[test]
fn header_sort_projection_ignores_complex_terms_and_supports_quoted_names() {
    let projection = relation_column_sort_projection(
        "COALESCE(name, username) DESC, \"display, name\" ASC",
        &names(&["name", "username", "display, name"]),
        SqlDialect::Postgres,
    )
    .unwrap();
    assert_eq!(projection[0], None);
    assert_eq!(projection[1], None);
    assert_eq!(projection[2], Some(RelationColumnSort { direction: SortDirection::Asc, priority: 1 }));
}

#[test]
fn header_sort_cycle_is_desc_asc_none_and_appends() {
    let columns = names(&["id", "name"]);
    assert_eq!(cycle_relation_column_sort("", &columns, 0, SqlDialect::Postgres).unwrap(), "\"id\" DESC");
    assert_eq!(cycle_relation_column_sort("id DESC", &columns, 0, SqlDialect::Postgres).unwrap(), "id ASC");
    assert_eq!(cycle_relation_column_sort("id ASC", &columns, 0, SqlDialect::Postgres).unwrap(), "");
    assert_eq!(
        cycle_relation_column_sort("id DESC", &columns, 1, SqlDialect::Postgres).unwrap(),
        "id DESC, \"name\" DESC"
    );
}

#[test]
fn header_sort_cycle_preserves_other_order_modifiers() {
    assert_eq!(
        cycle_relation_column_sort(
            "created_at DESC NULLS LAST, id ASC",
            &names(&["created_at", "id"]),
            0,
            SqlDialect::Postgres,
        )
        .unwrap(),
        "created_at ASC NULLS LAST, id ASC"
    );
}

#[test]
fn header_sort_cycle_quotes_special_names_for_each_dialect() {
    assert_eq!(
        cycle_relation_column_sort("", &names(&["order"]), 0, SqlDialect::MySql).unwrap(),
        "`order` DESC"
    );
    assert_eq!(
        cycle_relation_column_sort("", &names(&["customer]id"]), 0, SqlDialect::SqlServer).unwrap(),
        "[customer]]id] DESC"
    );
}

#[test]
fn header_sort_cycle_rejects_a_column_outside_the_result() {
    assert!(cycle_relation_column_sort("", &names(&["id"]), 3, SqlDialect::Postgres).is_err());
}

#[test]
fn cell_where_clause_generates_literals_per_dialect() {
    assert_eq!(
        cell_where_clause("status", &CellValue::Null, SqlDialect::Postgres).unwrap(),
        "\"status\" IS NULL"
    );
    assert_eq!(
        cell_where_clause("flag", &CellValue::Boolean(true), SqlDialect::Postgres).unwrap(),
        "\"flag\" = TRUE"
    );
    assert_eq!(cell_where_clause("flag", &CellValue::Boolean(false), SqlDialect::MySql).unwrap(), "`flag` = 0");
    assert_eq!(cell_where_clause("flag", &CellValue::Boolean(true), SqlDialect::Sqlite).unwrap(), "\"flag\" = 1");
    assert_eq!(cell_where_clause("flag", &CellValue::Boolean(true), SqlDialect::SqlServer).unwrap(), "[flag] = 1");
    assert_eq!(cell_where_clause("id", &CellValue::Integer(42), SqlDialect::Postgres).unwrap(), "\"id\" = 42");
    assert_eq!(cell_where_clause("n", &float(3.5), SqlDialect::Postgres).unwrap(), "\"n\" = 3.5");
    assert_eq!(
        cell_where_clause("name", &CellValue::Text("it's".into()), SqlDialect::Postgres).unwrap(),
        "\"name\" = 'it''s'"
    );
    assert_eq!(
        cell_where_clause("name", &CellValue::Text("a\\b".into()), SqlDialect::MySql).unwrap(),
        "`name` = 'a\\\\b'"
    );
    assert_eq!(
        cell_where_clause("name", &CellValue::Text("a\\b".into()), SqlDialect::Postgres).unwrap(),
        "\"name\" = 'a\\b'"
    );
    assert_eq!(
        cell_where_clause("data", &CellValue::Bytes(vec![0xDE, 0xAD]), SqlDialect::MySql).unwrap(),
        "`data` = X'DEAD'"
    );
    assert_eq!(
        cell_where_clause("data", &CellValue::Bytes(vec![0xDE, 0xAD]), SqlDialect::SqlServer).unwrap(),
        "[data] = 0xDEAD"
    );
    assert_eq!(
        cell_where_clause("data", &CellValue::Bytes(vec![0xDE, 0xAD]), SqlDialect::Sqlite).unwrap(),
        "\"data\" = x'DEAD'"
    );
    assert_eq!(
        cell_where_clause("data", &CellValue::Bytes(vec![0xDE, 0xAD]), SqlDialect::Generic).unwrap(),
        "\"data\" = x'DEAD'"
    );
    assert_eq!(
        cell_where_clause("data", &CellValue::Bytes(vec![0xDE, 0xAD]), SqlDialect::Postgres).unwrap(),
        "\"data\" = '\\xDEAD'::bytea"
    );
    assert_eq!(cell_where_clause("data", &CellValue::Bytes(Vec::new()), SqlDialect::MySql).unwrap(), "`data` = X''");
    assert_eq!(cell_where_clause("data", &CellValue::Bytes(Vec::new()), SqlDialect::SqlServer).unwrap(), "[data] = 0x");
    assert_eq!(cell_where_clause("data", &CellValue::Bytes(Vec::new()), SqlDialect::Sqlite).unwrap(), "\"data\" = x''");
    assert_eq!(
        cell_where_clause("data", &CellValue::Bytes(Vec::new()), SqlDialect::Postgres).unwrap(),
        "\"data\" = '\\x'::bytea"
    );
}

#[test]
fn cell_where_clause_quotes_temporal_values_and_rejects_unusable_values() {
    let date = Date { year: 2026, month: 8, day: 28 };
    assert_eq!(
        cell_where_clause("born", &CellValue::Date(date), SqlDialect::Postgres).unwrap(),
        "\"born\" = '2026-08-28'"
    );
    let datetime = DateTime { date, time: Time { hour: 10, minute: 20, second: 31, nanosecond: 0 } };
    assert_eq!(
        cell_where_clause("at", &CellValue::DateTime(datetime), SqlDialect::Postgres).unwrap(),
        "\"at\" = '2026-08-28 10:20:31'"
    );
    let zoned = Timestamp {
        local: DateTime { date, time: Time { hour: 18, minute: 20, second: 31, nanosecond: 0 } },
        offset_seconds: 8 * 60 * 60,
    };
    assert_eq!(
        cell_where_clause("at", &CellValue::Timestamp(zoned), SqlDialect::Postgres).unwrap(),
        "\"at\" = '2026-08-28 18:20:31+08:00'"
    );
    assert!(cell_where_clause("n", &float(f64::NAN), SqlDialect::Postgres).is_err());
    assert!(cell_where_clause(
        "doc",
        &CellValue::Unsupported { type_label: "xml".into(), preview: "<a/>".into() },
        SqlDialect::Postgres
    )
    .is_err());
}

#[test]
fn generated_empty_bytes_clauses_survive_preview_validation() {
    for dialect in [SqlDialect::MySql, SqlDialect::SqlServer, SqlDialect::Sqlite, SqlDialect::Postgres] {
        let clause = cell_where_clause("data", &CellValue::Bytes(Vec::new()), dialect).unwrap();
        assert!(
            validate_relation_preview_options(&clause, "", dialect).is_ok(),
            "validation rejected: {clause} ({dialect:?})",
        );
    }
}

#[test]
fn filter_error_messages_name_the_reason() {
    let error = cell_where_clause(
        "doc",
        &CellValue::Unsupported { type_label: "xml".into(), preview: "<a/>".into() },
        SqlDialect::Postgres,
    )
    .unwrap_err();
    assert_eq!(error.0, "values of type `xml` cannot be filtered");
    let error = validate_relation_preview_options("id > 1; delete from users", "", SqlDialect::Sqlite)
        .unwrap_err();
    assert_eq!(error.0, "comments and multiple statements are not allowed");
}

#[test]
fn string_literals_double_quotes_and_mysql_backslashes() {
    assert_eq!(string_literal("O'Hara", SqlDialect::Postgres), "'O''Hara'");
    assert_eq!(string_literal("a\\'b", SqlDialect::MySql), "'a\\\\''b'");
    assert_eq!(string_literal("a\\b", SqlDialect::Sqlite), "'a\\b'");
}
