use chrono::{Datelike, Timelike};
use lazydb::agent_service::{
    affected_rows_total, attempt_error, log_outcome, log_record, log_target, profile_scope_label,
    AgentAttempt, AgentError, AgentErrorCode, AgentProfileScope, AgentRequest,
};
use lazydb::logger::{
    choose_log_dir, format_log_entry, generate_log_filename_with, sanitize_hostname, LogDirChoice,
    SqlLogOutcome, SqlLogRecord,
};
use lazydb::value::{Date, DateTime, Time, Timestamp};

fn plain(value: chrono::DateTime<chrono::Local>) -> Timestamp {
    let local = value.naive_local();
    Timestamp {
        local: DateTime {
            date: Date { year: local.year(), month: local.month(), day: local.day() },
            time: Time {
                hour: local.hour(),
                minute: local.minute(),
                second: local.second(),
                nanosecond: local.nanosecond(),
            },
        },
        offset_seconds: value.offset().local_minus_utc(),
    }
}

#[test]
fn generate_log_filename_matches_pattern() {
    let now = chrono::Local::now();
    let filename = generate_log_filename_with(plain(now), "my-host", 4242);
    let expected_time = now.format("%Y%m%d_%H%M%S").to_string();
    assert_eq!(filename, format!("lazydb_{expected_time}_my-host_4242.log"));

    let host = sanitize_hostname(Some("build box.local".into()));
    let gen_filename = generate_log_filename_with(plain(now), &host, 100);
    assert!(gen_filename.starts_with(&format!("lazydb_{expected_time}_")));
    assert!(gen_filename.ends_with("_100.log"));
}

#[test]
fn format_record_query_success_preserves_multiline_sql() {
    let timestamp = chrono::Local::now();
    let record = SqlLogRecord {
        timestamp: plain(timestamp),
        connection: "prod_db".to_string(),
        target: "users".to_string(),
        elapsed_millis: 15,
        outcome: SqlLogOutcome::QuerySuccess { rows: 25 },
        sql: "SELECT id, name\n  FROM users\n WHERE active = true;".to_string(),
    };
    let formatted = format_log_entry(&record);
    let ts_str = timestamp.format("%Y-%m-%d %H:%M:%S%.3f %:z").to_string();
    let expected_header = format!("[{ts_str}] [prod_db/users] [OK 15ms 25 rows]\n");
    assert!(formatted.starts_with(&expected_header));
    assert!(formatted.contains("SELECT id, name\n  FROM users\n WHERE active = true;"));
    assert!(formatted.ends_with("WHERE active = true;\n\n"));
}

#[test]
fn format_record_mutation_success() {
    let timestamp = chrono::Local::now();
    let record = SqlLogRecord {
        timestamp: plain(timestamp),
        connection: "dev_db".to_string(),
        target: "".to_string(),
        elapsed_millis: 7,
        outcome: SqlLogOutcome::MutationSuccess { affected_rows: 3 },
        sql: "UPDATE users SET active = false;".to_string(),
    };
    let formatted = format_log_entry(&record);
    let ts_str = timestamp.format("%Y-%m-%d %H:%M:%S%.3f %:z").to_string();
    let expected =
        format!("[{ts_str}] [dev_db] [OK 7ms 3 row(s) affected]\nUPDATE users SET active = false;\n\n");
    assert_eq!(formatted, expected);
}

#[test]
fn format_record_failure() {
    let timestamp = chrono::Local::now();
    let record = SqlLogRecord {
        timestamp: plain(timestamp),
        connection: "dev_db".to_string(),
        target: "public".to_string(),
        elapsed_millis: 42,
        outcome: SqlLogOutcome::Failure { message: "syntax error at or near \"SELCT\"".to_string() },
        sql: "SELCT 1;".to_string(),
    };
    let formatted = format_log_entry(&record);
    let ts_str = timestamp.format("%Y-%m-%d %H:%M:%S%.3f %:z").to_string();
    let expected = format!(
        "[{ts_str}] [dev_db/public] [ERROR 42ms: syntax error at or near \"SELCT\"]\nSELCT 1;\n\n"
    );
    assert_eq!(formatted, expected);
}

#[test]
fn format_record_failure_multiline_sanitized_and_sql_trimmed() {
    let timestamp = chrono::Local::now();
    let record = SqlLogRecord {
        timestamp: plain(timestamp),
        connection: "dev_db".to_string(),
        target: "".to_string(),
        elapsed_millis: 5,
        outcome: SqlLogOutcome::Failure { message: "line1\nline2\nline3".to_string() },
        sql: "SELECT 1;\n\n".to_string(),
    };
    let formatted = format_log_entry(&record);
    let ts_str = timestamp.format("%Y-%m-%d %H:%M:%S%.3f %:z").to_string();
    let expected = format!("[{ts_str}] [dev_db] [ERROR 5ms: line1 line2 line3]\nSELECT 1;\n\n");
    assert_eq!(formatted, expected);
}

#[test]
fn log_timestamp_matches_chrono_for_fixed_values() {
    let record = SqlLogRecord {
        timestamp: Timestamp {
            local: DateTime {
                date: Date { year: 2026, month: 9, day: 11 },
                time: Time { hour: 7, minute: 5, second: 9, nanosecond: 45_678_900 },
            },
            offset_seconds: -(3 * 3600 + 30 * 60),
        },
        connection: "c".into(),
        target: "".into(),
        elapsed_millis: 0,
        outcome: SqlLogOutcome::QuerySuccess { rows: 0 },
        sql: "".into(),
    };
    assert_eq!(format_log_entry(&record), "[2026-09-11 07:05:09.045 -03:30] [c] [OK 0ms 0 rows]\n\n\n");
}

#[test]
fn hostnames_are_trimmed_and_made_file_name_safe() {
    assert_eq!(sanitize_hostname(Some("  web.example-01_a \n".into())), "web_example-01_a");
    assert_eq!(sanitize_hostname(Some("   ".into())), "unknown-host");
    assert_eq!(sanitize_hostname(None), "unknown-host");
    assert_eq!(sanitize_hostname(Some("héllo".into())), "h_llo");
}

#[test]
fn log_dir_prefers_explicit_then_home_then_user_profile() {
    assert_eq!(choose_log_dir(true, true, true), LogDirChoice::Explicit);
    assert_eq!(choose_log_dir(false, true, true), LogDirChoice::Home);
    assert_eq!(choose_log_dir(false, false, true), LogDirChoice::UserProfile);
    assert_eq!(choose_log_dir(false, false, false), LogDirChoice::TempDir);
}

#[test]
fn agent_log_target_joins_database_and_schema() {
    let some = |s: &str| Some(s.to_string());
    assert_eq!(log_target(&some("app"), &some("public")), "app.public");
    assert_eq!(log_target(&some("app"), &some("")), "app");
    assert_eq!(log_target(&some("app"), &None), "app");
    assert_eq!(log_target(&None, &some("public")), "public");
    assert_eq!(log_target(&None, &None), "");
}

#[test]
fn agent_log_record_carries_the_statement_and_target() {
    let ts = plain(chrono::Local::now());
    let record = log_record(
        ts,
        "dev-db",
        &Some("app".into()),
        &Some("sales".into()),
        12,
        SqlLogOutcome::MutationSuccess { affected_rows: 2 },
        "DELETE FROM t",
    );
    assert_eq!(record.connection, "dev-db");
    assert_eq!(record.target, "app.sales");
    assert_eq!(record.elapsed_millis, 12);
    assert_eq!(record.sql, "DELETE FROM t");
    assert!(format_log_entry(&record).contains("[dev-db/app.sales] [OK 12ms 2 row(s) affected]"));
}

#[test]
fn agent_scope_labels_and_affected_row_totals() {
    assert_eq!(profile_scope_label(AgentProfileScope::CurrentProject), "current_project");
    assert_eq!(profile_scope_label(AgentProfileScope::Global), "global");
    assert_eq!(affected_rows_total(&vec![2, 0, 5]), 7);
    assert_eq!(affected_rows_total(&vec![]), 0);
}

#[test]
fn only_attempts_that_reached_the_database_are_logged() {
    assert_eq!(log_outcome(AgentAttempt::PolicyDenied { reason: "read-only profile".into() }), None);
    assert_eq!(log_outcome(AgentAttempt::CredentialFailure { message: "no keyring".into() }), None);
    assert_eq!(
        log_outcome(AgentAttempt::ConnectFailed { message: "refused".into() }),
        Some(SqlLogOutcome::Failure { message: "refused".into() })
    );
    assert_eq!(
        log_outcome(AgentAttempt::ExecuteFailed { message: "no table".into() }),
        Some(SqlLogOutcome::Failure { message: "no table".into() })
    );
    assert_eq!(log_outcome(AgentAttempt::QueryDone { rows: 2 }), Some(SqlLogOutcome::QuerySuccess { rows: 2 }));
    assert_eq!(
        log_outcome(AgentAttempt::MutationDone { affected_rows: vec![1, 1] }),
        Some(SqlLogOutcome::MutationSuccess { affected_rows: 2 })
    );
}

#[test]
fn attempts_report_errors_by_stage() {
    let denied = AgentAttempt::PolicyDenied { reason: "DROP is not allowed".into() };
    assert_eq!(
        attempt_error(AgentRequest::Execute, &denied),
        Some(AgentError { code: AgentErrorCode::PolicyDenied, message: "write rejected: DROP is not allowed".into() })
    );
    assert_eq!(
        attempt_error(AgentRequest::Query, &denied),
        Some(AgentError { code: AgentErrorCode::PolicyDenied, message: "query rejected: DROP is not allowed".into() })
    );
    assert_eq!(
        attempt_error(AgentRequest::Query, &AgentAttempt::CredentialFailure { message: "no keyring".into() }),
        Some(AgentError { code: AgentErrorCode::CredentialFailure, message: "no keyring".into() })
    );
    assert_eq!(
        attempt_error(AgentRequest::Execute, &AgentAttempt::ConnectFailed { message: "refused".into() }),
        Some(AgentError { code: AgentErrorCode::DatabaseFailure, message: "refused".into() })
    );
    assert_eq!(
        attempt_error(AgentRequest::Query, &AgentAttempt::ExecuteFailed { message: "no table".into() }),
        Some(AgentError { code: AgentErrorCode::DatabaseFailure, message: "no table".into() })
    );
    assert_eq!(attempt_error(AgentRequest::Query, &AgentAttempt::QueryDone { rows: 1 }), None);
    assert_eq!(attempt_error(AgentRequest::Execute, &AgentAttempt::MutationDone { affected_rows: vec![3] }), None);
}
