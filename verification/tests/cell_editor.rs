use chrono::{Datelike, Timelike};
use lazydb::cell_editor::{
    classify_column_type, CellEditorBuffer, CellEditorContent, CellEditorKind, CellEditorPresence,
    DatabaseKind,
};
use lazydb::json_buffer::{format_json, tokenize_json, validate_json, JsonBuffer, JsonTokenKind};
use lazydb::temporal::TemporalDraft;
use lazydb::text_input::{TextInput, TextInputEdit};
use lazydb::value::{CellValue, Date, DateTime, Time, Timestamp};

fn plain_date(value: chrono::NaiveDate) -> Date {
    Date { year: value.year(), month: value.month(), day: value.day() }
}

fn plain_time(value: chrono::NaiveTime) -> Time {
    Time {
        hour: value.hour(),
        minute: value.minute(),
        second: value.second(),
        nanosecond: value.nanosecond(),
    }
}

fn plain_timestamp(value: chrono::DateTime<chrono::FixedOffset>) -> Timestamp {
    let local = value.naive_local();
    Timestamp {
        local: DateTime { date: plain_date(local.date()), time: plain_time(local.time()) },
        offset_seconds: value.offset().local_minus_utc(),
    }
}

#[test]
fn json_buffer_supports_real_multiline_editing_and_cursor_movement() {
    let mut buffer = JsonBuffer::new("{\"name\": \"Ada\"}");
    buffer.move_home();
    buffer.insert('{');
    buffer.insert('\n');
    buffer.move_down();
    assert_eq!(buffer.line(), 1);
    assert!(buffer.value().contains('\n'));
}

#[test]
fn json_buffer_selects_in_both_directions_and_replaces_atomically() {
    let mut buffer = JsonBuffer::new("one\ntwo\nthree");
    buffer.begin_selection(10);
    buffer.extend_selection(2);
    assert_eq!(buffer.selected_text().as_deref(), Some("e\ntwo\nth"));
    buffer.insert('X');
    assert_eq!(buffer.value(), "onXree");
    buffer.undo();
    assert_eq!(buffer.value(), "one\ntwo\nthree");
    assert_eq!(buffer.selection(), Some((2, 10)));
}

#[test]
fn json_buffer_deletes_multiline_selection_as_one_undo_step() {
    let mut buffer = JsonBuffer::new("a\nb\nc");
    buffer.begin_selection(0);
    buffer.extend_selection(2);
    buffer.backspace();
    assert_eq!(buffer.value(), "b\nc");
    buffer.undo();
    assert_eq!(buffer.value(), "a\nb\nc");
}

#[test]
fn json_validation_preserves_source_semantics_and_reports_line_and_column() {
    assert!(validate_json("{\"n\":90071992547409931234567890,\"x\":true,\"z\":null}").is_ok());
    let error = validate_json("{\n  \"name\": \"unterminated\n}").unwrap_err();
    assert_eq!((error.line, error.column), (2, 23));
}

#[test]
fn json_formatting_does_not_change_invalid_source_and_handles_escaping_unicode_and_duplicates() {
    let source = r#"{"x":"\u263A","x":2,"big":90071992547409931234567890,"ok":false,"nil":null}"#;
    let formatted = format_json(source).unwrap();
    assert!(formatted.contains("90071992547409931234567890"));
    assert!(formatted.contains("\\u263A") || formatted.contains('☺'));
    assert!(format_json("{broken").is_err());
}

#[test]
fn json_tokenizer_highlights_incomplete_strings_and_invalid_fragments() {
    let tokens = JsonBuffer::new("{\"key\": \"unfinished").tokens();
    assert!(tokens.iter().any(|token| token.kind == JsonTokenKind::String));
    assert_eq!(tokens.first().map(|token| token.kind), Some(JsonTokenKind::Punctuation));
}

#[test]
fn temporal_draft_round_trips_fraction_precision_and_fixed_offset() {
    let timestamp = chrono::DateTime::parse_from_rfc3339("2026-08-28T10:20:31.120400+05:30").unwrap();
    let draft = TemporalDraft::from_timestamp(plain_timestamp(timestamp));
    assert_eq!(draft.render(), "2026-08-28 10:20:31.1204 +05:30");
    assert_eq!(draft.parse_timestamp().unwrap(), plain_timestamp(timestamp));

    let time = chrono::NaiveTime::parse_from_str("10:20:31.120400", "%H:%M:%S%.f").unwrap();
    assert_eq!(TemporalDraft::from_time(plain_time(time)).render(), "10:20:31.1204");
}

#[test]
fn temporal_draft_rejects_impossible_segment_values() {
    let mut draft = TemporalDraft::date(plain_date(chrono::NaiveDate::from_ymd_opt(2026, 8, 28).unwrap()));
    draft.set_segment(1, "13");
    assert!(draft.parse_date().is_err());
    assert!(draft.error().is_some());
}

#[test]
fn typed_temporal_buffer_edits_segments_instead_of_appending_to_formatted_text() {
    let value = CellValue::Date(plain_date(chrono::NaiveDate::from_ymd_opt(2026, 8, 28).unwrap()));
    let description = classify_column_type(DatabaseKind::Postgres, "date");
    let mut buffer = CellEditorBuffer::from_value(&value, description);
    buffer.temporal_move_to(1);
    buffer.temporal_insert('9');
    assert_eq!(buffer.value(), Some("2026-98-28"));
    assert!(matches!(buffer.content, CellEditorContent::Typed { .. }));
}

#[test]
fn classifies_supported_postgres_types() {
    let cases = [
        ("bool", CellEditorKind::Boolean),
        ("BOOLEAN", CellEditorKind::Boolean),
        ("date", CellEditorKind::Date),
        ("time(6)", CellEditorKind::Time),
        ("timestamp (3)", CellEditorKind::DateTime),
        ("timestamptz", CellEditorKind::Timestamp),
        ("json", CellEditorKind::Json),
        ("JSONB", CellEditorKind::Json),
    ];
    for (column_type, expected) in cases {
        assert_eq!(
            classify_column_type(DatabaseKind::Postgres, column_type).map(|description| description.kind),
            Some(expected),
            "column_type={column_type}"
        );
    }
}

#[test]
fn classifies_supported_sql_server_types_without_treating_timestamp_as_temporal() {
    let cases = [
        ("bit", CellEditorKind::Boolean),
        ("DATE", CellEditorKind::Date),
        ("time(7)", CellEditorKind::Time),
        ("datetime2 (3)", CellEditorKind::DateTime),
        ("datetimeoffset", CellEditorKind::Timestamp),
    ];
    for (column_type, expected) in cases {
        assert_eq!(
            classify_column_type(DatabaseKind::SqlServer, column_type).map(|description| description.kind),
            Some(expected),
            "column_type={column_type}"
        );
    }
    for column_type in ["timestamp", "rowversion", "TIMESTAMP (8)", "ROWVERSION"] {
        assert_eq!(classify_column_type(DatabaseKind::SqlServer, column_type), None, "column_type={column_type}");
    }
}

#[test]
fn keeps_mysql_and_sqlite_non_temporal_inference_conservative() {
    for column_type in ["tinyint(1)", "TINYINT (1)", "int", "varchar(32)", "text"] {
        assert_eq!(classify_column_type(DatabaseKind::MySql, column_type), None, "mysql column_type={column_type}");
    }
    for column_type in ["1", "true", "2024-01-01", "text", "BLOB"] {
        assert_eq!(classify_column_type(DatabaseKind::Sqlite, column_type), None, "sqlite column_type={column_type}");
    }
}

#[test]
fn editor_buffer_uses_complete_values_and_distinguishes_null_states() {
    let description = classify_column_type(DatabaseKind::Postgres, "text");
    assert_eq!(
        CellEditorBuffer::from_value(&CellValue::Text("NULL".into()), description),
        CellEditorBuffer {
            presence: CellEditorPresence::Value,
            content: CellEditorContent::Text(TextInput::from("NULL")),
            ..CellEditorBuffer::default()
        }
    );
    assert_eq!(
        CellEditorBuffer::from_value(&CellValue::Null, description),
        CellEditorBuffer {
            presence: CellEditorPresence::Null,
            content: CellEditorContent::Text(TextInput::from("null")),
            ..CellEditorBuffer::default()
        }
    );
    assert_eq!(
        CellEditorBuffer::unprovided(),
        CellEditorBuffer {
            presence: CellEditorPresence::Unprovided,
            content: CellEditorContent::Text(TextInput::default()),
            ..CellEditorBuffer::default()
        }
    );
}

#[test]
fn typing_into_null_or_unprovided_buffer_creates_an_empty_text_fallback() {
    let mut unprovided = CellEditorBuffer::unprovided();
    unprovided.input_mut().insert('x');
    assert_eq!(unprovided.value(), Some("x"));
}

#[test]
fn semantic_text_edit_activates_presence_but_navigation_and_noop_do_not() {
    let mut input = CellEditorBuffer::unprovided();
    input.apply_text_edit(TextInputEdit::MoveRight);
    assert_eq!(input.presence(), CellEditorPresence::Unprovided);
    input.apply_text_edit(TextInputEdit::Backspace);
    assert_eq!(input.presence(), CellEditorPresence::Unprovided);
    input.apply_text_edit(TextInputEdit::Insert('x'));
    assert_eq!(input.presence(), CellEditorPresence::Value);
}

#[test]
fn cell_undo_and_redo_restore_presence_and_content() {
    let mut input = CellEditorBuffer::typed_unprovided(CellEditorKind::Boolean);
    input.apply_text_edit(TextInputEdit::Insert('t'));
    assert_eq!(input.presence(), CellEditorPresence::Value);
    assert_eq!(input.value(), Some("t"));
    input.undo();
    assert_eq!(input.presence(), CellEditorPresence::Unprovided);
    assert_eq!(input.value(), Some(""));
    input.redo();
    assert_eq!(input.presence(), CellEditorPresence::Value);
}

#[test]
fn null_stays_null_until_an_actual_mutation() {
    let mut input = CellEditorBuffer::typed_null(CellEditorKind::Date);
    input.temporal_move_to(1);
    input.apply_text_edit(TextInputEdit::MoveRight);
    assert_eq!(input.presence(), CellEditorPresence::Null);
    input.temporal_insert('9');
    assert_eq!(input.presence(), CellEditorPresence::Value);
}

#[test]
fn temporal_month_navigation_only_activates_when_date_changes() {
    let mut input = CellEditorBuffer::typed_unprovided(CellEditorKind::Date);
    input.temporal_move_to(1);
    assert_eq!(input.presence(), CellEditorPresence::Unprovided);
    input.temporal_shift_month(1);
    assert_eq!(input.presence(), CellEditorPresence::Value);
}

#[test]
fn boolean_buffer_exposes_selection_and_preserves_explicit_null_states() {
    let description = classify_column_type(DatabaseKind::Postgres, "boolean");
    let mut value = CellEditorBuffer::from_value(&CellValue::Boolean(true), description);
    assert_eq!(value.boolean_selection(), Some(true));
    value.set_boolean(false);
    assert_eq!(value.boolean_selection(), Some(false));
    assert_eq!(CellEditorBuffer::from_value(&CellValue::Null, description).boolean_selection(), None);
    assert!(CellEditorBuffer::unprovided().is_unprovided());
}

#[test]
fn boolean_selection_cycles_left_and_right() {
    let description = classify_column_type(DatabaseKind::Postgres, "boolean");
    let mut value = CellEditorBuffer::from_value(&CellValue::Boolean(false), description);
    value.move_boolean(1);
    assert_eq!(value.boolean_selection(), Some(true));
    value.move_boolean(-1);
    assert_eq!(value.boolean_selection(), Some(false));
}

#[test]
fn typed_unprovided_and_null_retain_editor_kind_without_becoming_values() {
    for kind in [
        CellEditorKind::Boolean,
        CellEditorKind::Date,
        CellEditorKind::Time,
        CellEditorKind::DateTime,
        CellEditorKind::Timestamp,
        CellEditorKind::Json,
    ] {
        let mut unprovided = CellEditorBuffer::typed_unprovided(kind);
        assert_eq!(unprovided.presence(), CellEditorPresence::Unprovided);
        assert!(!unprovided.is_boolean() || kind == CellEditorKind::Boolean);
        assert!(unprovided.input().is_some() || kind == CellEditorKind::Json);
        assert_eq!(unprovided.presence(), CellEditorPresence::Unprovided);
        if kind != CellEditorKind::Json {
            let _ = unprovided.input_mut();
            assert_eq!(unprovided.presence(), CellEditorPresence::Unprovided);
        }

        let null = CellEditorBuffer::typed_null(kind);
        assert_eq!(null.presence(), CellEditorPresence::Null);
        assert!(
            null.temporal_draft().is_some()
                || !matches!(
                    kind,
                    CellEditorKind::Date
                        | CellEditorKind::Time
                        | CellEditorKind::DateTime
                        | CellEditorKind::Timestamp
                )
        );
    }
}

#[test]
fn populated_typed_values_keep_existing_drafts_and_presence() {
    let value = CellValue::Date(plain_date(chrono::NaiveDate::from_ymd_opt(2026, 8, 28).unwrap()));
    let buffer = CellEditorBuffer::from_value(&value, classify_column_type(DatabaseKind::Postgres, "date"));
    assert_eq!(buffer.presence(), CellEditorPresence::Value);
    assert_eq!(buffer.value(), Some("2026-08-28"));
    assert!(buffer.temporal_draft().is_some());
}

#[test]
fn presence_aware_extraction_parses_typed_values_without_an_old_cell() {
    let mut boolean = CellEditorBuffer::typed_unprovided(CellEditorKind::Boolean);
    boolean.set_boolean(false);
    assert_eq!(boolean.value_for_presence().unwrap(), Some(CellValue::Boolean(false)));

    let null = CellEditorBuffer::typed_null(CellEditorKind::Timestamp);
    assert_eq!(null.value_for_presence().unwrap(), Some(CellValue::Null));

    let json_null = CellEditorBuffer::typed_unprovided(CellEditorKind::Json);
    assert_eq!(json_null.value_for_presence().unwrap(), None);
}

#[test]
fn typed_temporal_and_json_extraction_preserves_precision_and_null_literal() {
    let parsed = chrono::DateTime::parse_from_rfc3339("2026-08-28T10:20:31.120400+05:30").unwrap();
    let timestamp = CellEditorBuffer::from_value(
        &CellValue::Timestamp(plain_timestamp(parsed)),
        classify_column_type(DatabaseKind::Postgres, "timestamptz"),
    );
    assert_eq!(
        timestamp.value_for_presence().unwrap(),
        Some(CellValue::Timestamp(plain_timestamp(parsed)))
    );

    let json = CellEditorBuffer::typed_unprovided(CellEditorKind::Json);
    assert_eq!(json.value_for_presence().unwrap(), None, "unprovided JSON must not become the JSON literal null");
}

#[test]
fn classifies_mysql_sqlite_and_postgres_datetime_aliases() {
    for (db, ty, expected) in [
        (DatabaseKind::Postgres, "timestamp without time zone", Some(CellEditorKind::DateTime)),
        (DatabaseKind::Postgres, "timestamp with time zone", Some(CellEditorKind::Timestamp)),
        (DatabaseKind::MySql, "datetime", Some(CellEditorKind::DateTime)),
        (DatabaseKind::MySql, "timestamp", Some(CellEditorKind::DateTime)),
        (DatabaseKind::MySql, "date", Some(CellEditorKind::Date)),
        (DatabaseKind::MySql, "time", Some(CellEditorKind::Time)),
        (DatabaseKind::Sqlite, "DATETIME", Some(CellEditorKind::DateTime)),
        (DatabaseKind::Sqlite, "DATE", Some(CellEditorKind::Date)),
        (DatabaseKind::Sqlite, "TIME", Some(CellEditorKind::Time)),
    ] {
        assert_eq!(classify_column_type(db, ty).map(|description| description.kind), expected, "{db:?} {ty}");
    }
}

#[test]
fn parse_relation_friendly_datetime_accepts_space_separated_values() {
    let draft = TemporalDraft::from_kind_and_text(CellEditorKind::DateTime, "2023-01-15 11:14:26").unwrap();
    assert_eq!(
        draft.parse_datetime().unwrap(),
        DateTime {
            date: Date { year: 2023, month: 1, day: 15 },
            time: Time { hour: 11, minute: 14, second: 26, nanosecond: 0 },
        }
    );
    // FromStr alone rejects the UI clipboard format.
    assert!("2023-01-15 11:14:26".parse::<chrono::NaiveDateTime>().is_err());
}

#[test]
fn timestamp_segments_are_measured_in_utf8_bytes() {
    // The fraction "é5" is three bytes, so its segment spans both characters and the offset
    // segment starts after them.
    let mut draft =
        TemporalDraft::from_kind_and_text(CellEditorKind::Timestamp, "2024-01-02 03:04:05.é5 +00:00").unwrap();
    draft.set_segment(6, "7");
    assert_eq!(draft.render(), "2024-01-02 03:04:05.007 +00:00");

    let mut draft =
        TemporalDraft::from_kind_and_text(CellEditorKind::Timestamp, "2024-01-02 03:04:05.é5 +00:00").unwrap();
    draft.set_segment(7, "+01:00");
    assert_eq!(draft.render(), "2024-01-02 03:04:05.é5 +01:00");
}

#[test]
fn cell_editor_state_value_for_presence_reports_unprovided_text_as_absent() {
    let text = CellEditorBuffer::unprovided();
    assert_eq!(text.value_for_presence().unwrap(), None);
    let mut null = CellEditorBuffer::from_value(&CellValue::Text("a".into()), None);
    null.set_null();
    assert!(null.is_null());
    assert_eq!(null.value_for_presence().unwrap(), Some(CellValue::Null));
}

#[test]
fn temporal_shift_month_clamps_the_day_to_the_target_month() {
    let mut draft = TemporalDraft::date(Date { year: 2024, month: 1, day: 31 });
    draft.shift_month(1);
    assert_eq!(draft.render(), "2024-02-29");
    draft.shift_month(-13);
    assert_eq!(draft.render(), "2023-01-29");
}

#[test]
fn presence_setters_only_change_presence() {
    let mut buffer = CellEditorBuffer::from_value(&CellValue::Text("a".into()), None);
    buffer.set_unprovided();
    assert!(buffer.is_unprovided());
    assert_eq!(buffer.value(), Some("a"));
    buffer.activate_value();
    assert_eq!(buffer.presence(), CellEditorPresence::Value);
    buffer.set_null();
    assert!(buffer.is_null());
    assert_eq!(buffer.value(), Some("a"));
}

#[test]
fn replacing_a_json_value_activates_the_cell_undoably() {
    let mut buffer = CellEditorBuffer::typed_unprovided(CellEditorKind::Json);
    assert!(buffer.replace_json_value("{\"a\":1}".to_string()));
    assert_eq!(buffer.presence(), CellEditorPresence::Value);
    assert_eq!(buffer.value(), Some("{\"a\":1}"));
    assert!(!buffer.replace_json_value("{\"a\":1}".to_string()));
    assert!(buffer.undo());
    assert_eq!(buffer.presence(), CellEditorPresence::Unprovided);
    let mut text = CellEditorBuffer::unprovided();
    assert!(!text.replace_json_value("1".to_string()));
}

#[test]
fn calendar_label_names_the_month_of_the_draft() {
    let draft = TemporalDraft::date(Date { year: 2026, month: 8, day: 28 });
    assert_eq!(draft.calendar_label().as_deref(), Some("August 2026  [ and ] month"));
    let time = TemporalDraft::from_time(Time { hour: 1, minute: 2, second: 3, nanosecond: 0 });
    assert_eq!(time.calendar_label(), None);
}

#[test]
fn json_selection_can_be_cleared() {
    let mut buffer = JsonBuffer::new("abc");
    buffer.begin_selection(0);
    buffer.extend_selection(2);
    assert_eq!(buffer.selection(), Some((0, 2)));
    buffer.clear_selection();
    assert_eq!(buffer.selection(), None);
    assert_eq!(buffer.selected_text(), None);
}

#[test]
fn editors_read_back_the_cells_they_were_opened_on() {
    let boolean = classify_column_type(DatabaseKind::Postgres, "boolean");
    for flag in [true, false] {
        let buffer = CellEditorBuffer::from_value(&CellValue::Boolean(flag), boolean);
        assert_eq!(buffer.value_for_presence().unwrap(), Some(CellValue::Boolean(flag)));
    }
    let text = CellEditorBuffer::from_value(&CellValue::Text("  spaced  ".into()), None);
    assert_eq!(text.value_for_presence().unwrap(), Some(CellValue::Text("  spaced  ".into())));
    let date = classify_column_type(DatabaseKind::Postgres, "date");
    assert_eq!(CellEditorBuffer::from_value(&CellValue::Null, date).value_for_presence().unwrap(), Some(CellValue::Null));
}

#[test]
fn timestamp_shift_month_keeps_time_and_offset() {
    let start = Timestamp {
        local: DateTime {
            date: Date { year: 2024, month: 1, day: 31 },
            time: Time { hour: 10, minute: 0, second: 5, nanosecond: 0 },
        },
        offset_seconds: 2 * 3600,
    };
    let mut draft = TemporalDraft::from_timestamp(Timestamp {
        local: DateTime { date: Date { year: 2024, month: 1, day: 15 }, ..start.local },
        ..start
    });
    draft.shift_month(1);
    assert_eq!(draft.render(), "2024-02-15 10:00:05 +02:00");
    // The month is replaced before the day, so the 31st cannot move to February and the draft
    // falls back to the clamped date alone.
    let mut end_of_month = TemporalDraft::from_timestamp(start);
    end_of_month.shift_month(1);
    assert_eq!(end_of_month.render(), "2024-02-29");
    let mut datetime = TemporalDraft::from_datetime(start.local);
    datetime.shift_month(-2);
    assert_eq!(datetime.render(), "2023-11-30 10:00:05");
}

#[test]
fn json_tokens_tile_the_text() {
    let source = "{ \"名\": [1.5e3, true, null], \"x\": \"un\\\"fin";
    let tokens = tokenize_json(source);
    assert_eq!(tokens.first().unwrap().start, 0);
    assert_eq!(tokens.last().unwrap().end, source.len());
    for pair in tokens.windows(2) {
        assert!(pair[0].start < pair[0].end);
        assert_eq!(pair[0].end, pair[1].start);
    }
    assert!(tokenize_json("").is_empty());
    assert_eq!(tokens.last().unwrap().kind, JsonTokenKind::String);
}

#[test]
fn segment_edits_overwrite_in_place() {
    let mut draft = TemporalDraft::date(Date { year: 2026, month: 8, day: 28 });
    draft.set_segment(1, "13");
    assert_eq!(draft.render(), "2026-13-28");
    draft.set_segment(2, "7");
    assert_eq!(draft.render(), "2026-13-07");
    draft.insert('5');
    assert_eq!(draft.render().len(), "2026-13-07".len());
    draft.insert('x');
    assert_eq!(draft.render().len(), "2026-13-07".len());
}

#[test]
fn shifting_past_the_calendar_leaves_the_draft_alone() {
    let mut draft = TemporalDraft::date(Date { year: 2026, month: 8, day: 28 });
    draft.shift_month(25_766_658_050);
    assert_eq!(draft.render(), "2026-08-28");
    draft.shift_month(-25_766_658_070);
    assert_eq!(draft.render(), "2026-08-28");
    draft.shift_month(-12 * 2026);
    assert_eq!(draft.render(), "0000-08-28");
}

fn significant_token_texts(text: &str) -> Vec<String> {
    tokenize_json(text)
        .iter()
        .filter(|token| token.kind != JsonTokenKind::Whitespace)
        .map(|token| text[token.start..token.end].to_string())
        .collect()
}

#[test]
fn json_formatting_keeps_token_texts_and_adds_only_layout() {
    let source = r#"{"x":"\u263A", "list":[1,-2.5e3,{}],"ok":false,"nil":null}"#;
    let formatted = format_json(source).unwrap();
    assert_eq!(significant_token_texts(&formatted), significant_token_texts(source));
    let squeezed: String = formatted.chars().filter(|c| *c != ' ' && *c != '\n').collect();
    let source_squeezed: String = source.chars().filter(|c| *c != ' ').collect();
    assert_eq!(squeezed, source_squeezed);
    assert_eq!(format_json(&formatted).unwrap(), formatted);
}

#[test]
fn json_buffer_cursor_stays_in_text_and_line_counts_newlines_before_it() {
    let mut buffer = JsonBuffer::new("héllo\n{\n}");
    let check = |buffer: &JsonBuffer| {
        let chars: Vec<char> = buffer.value().chars().collect();
        assert!(buffer.cursor() <= chars.len());
        let newlines = chars[..buffer.cursor()].iter().filter(|c| **c == '\n').count();
        assert_eq!(buffer.line(), newlines);
    };
    check(&buffer);
    assert_eq!(buffer.cursor(), 9);
    buffer.move_up();
    check(&buffer);
    buffer.begin_selection(100);
    check(&buffer);
    buffer.extend_selection(3);
    buffer.insert('\n');
    check(&buffer);
    buffer.apply(TextInputEdit::DeletePreviousWord);
    check(&buffer);
    buffer.undo();
    buffer.undo();
    check(&buffer);
    buffer.redo();
    check(&buffer);
    buffer.replace_value("x".to_string());
    check(&buffer);
    assert_eq!(buffer.line(), 0);
}
