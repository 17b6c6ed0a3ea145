use lazydb::clipboard::{
    copy_cell, copy_row_insert_sql, copy_row_json, copy_row_tsv, osc52_sequence,
    ClipboardPayload, ColumnMeta, Osc52Error, QualifiedName,
};
use lazydb::dialect::SqlDialect;
use lazydb::value::{CellValue, FloatText};

fn column(name: &str, type_label: &str) -> ColumnMeta {
    ColumnMeta { name: name.into(), type_label: type_label.into() }
}

fn float(value: f64) -> CellValue {
    let json_number = if value.is_finite() {
        Some(serde_json::Number::from_f64(value).unwrap().to_string())
    } else {
        None
    };
    CellValue::Float(FloatText { display: format!("{value}"), json_number })
}

#[test]
fn cell_copy_uses_complete_values_instead_of_previews() {
    let value = CellValue::Text("alpha-beta".into());
    assert_eq!(
        copy_cell("users.name", &value),
        ClipboardPayload {
            text: "alpha-beta".into(),
            description: "cell users.name".into(),
            sensitive: false,
        }
    );
}

#[test]
fn tsv_quotes_fields_that_would_break_the_grid_shape() {
    let columns = vec![column("id", "INT"), column("note", "TEXT")];
    let row = vec![CellValue::Integer(7), CellValue::Text("a\tb\n\"c\"".into())];
    assert_eq!(copy_row_tsv(&columns, &row, false).unwrap().text, "7\t\"a\tb\n\"\"c\"\"\"");
    assert_eq!(
        copy_row_tsv(&columns, &row, true).unwrap().text,
        "id\tnote\n7\t\"a\tb\n\"\"c\"\"\""
    );
}

#[test]
fn null_and_empty_text_are_valid_but_described_differently() {
    let null = copy_cell("users.note", &CellValue::Null);
    let empty = copy_cell("users.note", &CellValue::Text(String::new()));
    assert_eq!(null.text, "");
    assert_eq!(empty.text, "");
    assert!(null.description.contains("NULL as empty value"));
    assert!(!empty.description.contains("NULL"));
}

#[test]
fn bytes_are_complete_uppercase_hex() {
    assert_eq!(copy_cell("payload", &CellValue::Bytes(vec![0, 1, 2, 255])).text, "0x000102FF");
}

#[test]
fn osc52_encodes_utf8_and_empty_payload() {
    assert_eq!(osc52_sequence("你好", 100).unwrap(), "\x1b]52;c;5L2g5aW9\x07");
    assert_eq!(osc52_sequence("", 0).unwrap(), "\x1b]52;c;\x07");
}

#[test]
fn osc52_rejects_encoded_payload_over_limit_without_truncating() {
    assert_eq!(
        osc52_sequence("hello", 4),
        Err(Osc52Error::PayloadTooLarge { encoded_bytes: 8, max_bytes: 4 })
    );
}

#[test]
fn osc52_error_message_names_both_sizes() {
    let error = Osc52Error::PayloadTooLarge { encoded_bytes: 8, max_bytes: 4 };
    assert_eq!(error.message(), "clipboard payload is too large after encoding (8 bytes; limit 4)");
}

#[test]
fn osc52_payload_is_base64_not_the_raw_text() {
    let sequence = osc52_sequence("hello", 100).unwrap();
    assert_eq!(sequence, "\x1b]52;c;aGVsbG8=\x07");
    assert!(!sequence.contains("hello"));
}

#[test]
fn json_copies_one_object_with_typed_values() {
    let columns =
        vec![column("id", "INT"), column("name", "TEXT"), column("note", "TEXT"), column("flag", "BOOL")];
    let row = vec![
        CellValue::Integer(1),
        CellValue::Text("Ada".into()),
        CellValue::Null,
        CellValue::Boolean(true),
    ];
    let payload = copy_row_json(&columns, &row).unwrap();
    assert_eq!(payload.text, r#"{"id":1,"name":"Ada","note":null,"flag":true}"#);
    assert_eq!(payload.description, "row: 4 columns as JSON");
    assert!(!payload.sensitive);
}

#[test]
fn json_returns_none_for_empty_columns() {
    assert!(copy_row_json(&vec![], &vec![]).is_none());
}

#[test]
fn json_stringifies_non_finite_floats_and_bytes() {
    let columns = vec![column("n", "FLOAT"), column("blob", "BYTEA")];
    let row = vec![float(f64::INFINITY), CellValue::Bytes(vec![0x01, 0xFF])];
    let payload = copy_row_json(&columns, &row).unwrap();
    let value: serde_json::Value = serde_json::from_str(&payload.text).unwrap();
    assert_eq!(value["n"], serde_json::Value::String(float(f64::INFINITY).clipboard_text()));
    assert_eq!(value["blob"], serde_json::Value::String("0x01FF".into()));
}

#[test]
fn json_escapes_text_through_serde() {
    let columns = vec![column("note", "TEXT"), column("ratio", "FLOAT")];
    let row = vec![CellValue::Text("say \"hi\"\n".into()), float(1.5)];
    let payload = copy_row_json(&columns, &row).unwrap();
    assert_eq!(payload.text, r#"{"note":"say \"hi\"\n","ratio":1.5}"#);
}

#[test]
fn insert_sql_quotes_identifiers_and_literals_per_dialect() {
    let columns = vec![column("id", "INT"), column("name", "TEXT"), column("note", "TEXT")];
    let row = vec![CellValue::Integer(1), CellValue::Text("O'Hara".into()), CellValue::Null];
    let name = QualifiedName { database: None, schema: Some("public".into()), object: "users".into() };
    let payload = copy_row_insert_sql(SqlDialect::Postgres, &name, &columns, &row).unwrap();
    assert_eq!(
        payload.text,
        r#"INSERT INTO "public"."users" ("id", "name", "note") VALUES (1, 'O''Hara', NULL);"#
    );
    assert!(payload.description.contains("INSERT INTO"));
    assert!(payload.description.contains("3 columns"));

    let mysql = copy_row_insert_sql(
        SqlDialect::MySql,
        &QualifiedName { database: Some("app".into()), schema: None, object: "users".into() },
        &columns,
        &row,
    )
    .unwrap();
    assert_eq!(mysql.text, "INSERT INTO `app`.`users` (`id`, `name`, `note`) VALUES (1, 'O''Hara', NULL);");
}

#[test]
fn insert_sql_returns_none_for_empty_columns() {
    assert!(copy_row_insert_sql(
        SqlDialect::Sqlite,
        &QualifiedName { database: None, schema: None, object: "t".into() },
        &vec![],
        &vec![]
    )
    .is_none());
}

#[test]
fn insert_literals_match_filter_literals() {
    use_filter_literal_check(CellValue::Text("O'Hara".into()), "'O''Hara'");
    use_filter_literal_check(CellValue::Boolean(true), "1");
    use_filter_literal_check(CellValue::Bytes(vec![0xAB]), "X'AB'");
}

fn use_filter_literal_check(value: CellValue, literal: &str) {
    let columns = vec![column("v", "ANY")];
    let name = QualifiedName { database: None, schema: None, object: "t".into() };
    let insert = copy_row_insert_sql(SqlDialect::MySql, &name, &columns, &vec![value.clone()]).unwrap();
    assert_eq!(insert.text, format!("INSERT INTO `t` (`v`) VALUES ({literal});"));
    let filter = lazydb::relation_filter::cell_where_clause("v", &value, SqlDialect::MySql).unwrap();
    assert_eq!(filter, format!("`v` = {literal}"));
}

#[test]
fn json_escapes_control_characters_in_lower_case_hex() {
    let columns = vec![column("n\"ote", "TEXT")];
    let row = vec![CellValue::Text("a\u{1}\u{1f}\té\\/".into())];
    let payload = copy_row_json(&columns, &row).unwrap();
    assert_eq!(payload.text, "{\"n\\\"ote\":\"a\\u0001\\u001f\\té\\\\/\"}");
}

#[test]
fn osc52_pads_one_and_two_byte_tails() {
    assert_eq!(osc52_sequence("a", 100).unwrap(), "\x1b]52;c;YQ==\x07");
    assert_eq!(osc52_sequence("ab", 100).unwrap(), "\x1b]52;c;YWI=\x07");
    assert_eq!(osc52_sequence("abc", 100).unwrap(), "\x1b]52;c;YWJj\x07");
}
