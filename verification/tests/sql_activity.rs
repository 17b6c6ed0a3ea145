use lazydb::sql_activity::{
    append_pending_sql, clear_pending_sql, push_committed_batch, should_record_pending_sql,
    statement_count_in_pending, CommittedSqlBatch, SqlRisk, MAX_COMMITTED_BATCHES,
};
use std::collections::VecDeque;

#[test]
fn should_record_skips_readonly_and_transaction_control_only() {
    assert!(!should_record_pending_sql(&[SqlRisk::ReadOnly]));
    assert!(!should_record_pending_sql(&[SqlRisk::TransactionControl]));
    assert!(!should_record_pending_sql(&[SqlRisk::ReadOnly, SqlRisk::TransactionControl]));
    assert!(should_record_pending_sql(&[SqlRisk::Dml]));
    assert!(should_record_pending_sql(&[SqlRisk::ReadOnly, SqlRisk::Dml]));
    assert!(should_record_pending_sql(&[SqlRisk::Unknown]));
}

#[test]
fn append_pending_uses_blank_line_separator() {
    let mut pending = String::new();
    append_pending_sql(&mut pending, "UPDATE t SET a=1;");
    append_pending_sql(&mut pending, "DELETE FROM t WHERE id=1;");
    assert_eq!(pending, "UPDATE t SET a=1;\n\nDELETE FROM t WHERE id=1;");
    assert_eq!(statement_count_in_pending(&pending), 2);
}

#[test]
fn push_committed_batch_caps_at_fifty_newest_first() {
    let mut batches = VecDeque::new();
    for i in 0..55 {
        push_committed_batch(
            &mut batches,
            CommittedSqlBatch {
                timestamp_millis: 1_700_000_000_000,
                sql: format!("stmt {i}"),
                statement_count: 1,
                elapsed_millis: Some(1),
            },
        );
    }
    assert_eq!(batches.len(), 50);
    assert_eq!(batches.front().unwrap().sql, "stmt 54");
    assert_eq!(batches.back().unwrap().sql, "stmt 5");
    assert_eq!(MAX_COMMITTED_BATCHES, 50);
}

#[test]
fn append_pending_ignores_blank_sql_and_trims_the_end() {
    let mut pending = String::new();
    append_pending_sql(&mut pending, "   \n");
    assert_eq!(pending, "");
    append_pending_sql(&mut pending, "INSERT INTO t VALUES (1);  \n");
    assert_eq!(pending, "INSERT INTO t VALUES (1);");
    assert_eq!(statement_count_in_pending(&pending), 1);
    assert_eq!(statement_count_in_pending("  "), 0);
    clear_pending_sql(&mut pending);
    assert_eq!(pending, "");
}

#[test]
fn statement_count_ignores_blank_segments() {
    assert_eq!(statement_count_in_pending("a;\n\n\n\nb;"), 2);
    assert_eq!(statement_count_in_pending("\n\na;"), 1);
}

#[test]
fn each_appended_statement_adds_one_to_the_count() {
    let mut pending = String::new();
    let statements = ["UPDATE a SET x = 1;", "  DELETE FROM b;\n", "INSERT INTO c\nVALUES (1);"];
    for (index, sql) in statements.iter().enumerate() {
        assert_eq!(statement_count_in_pending(&pending), index);
        append_pending_sql(&mut pending, sql);
        assert_eq!(statement_count_in_pending(&pending), index + 1);
        assert_eq!(pending.trim_end(), pending);
    }
}

#[test]
fn appended_statements_are_each_counted() {
    let mut pending = String::new();
    for sql in ["UPDATE t SET a = 1;  ", "DELETE FROM t\nWHERE id = 2;\n", "INSERT INTO t VALUES (3);"] {
        append_pending_sql(&mut pending, sql);
    }
    assert_eq!(statement_count_in_pending(&pending), 3);
}
