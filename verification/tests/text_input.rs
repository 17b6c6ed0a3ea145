use lazydb::json_buffer::JsonBuffer;
use lazydb::text_input::{TextInput, TextInputEdit};

#[test]
fn text_input_undo_reverts_an_edit_and_redo_repeats_it() {
    let mut input = TextInput::from("abc");
    assert_eq!(input.cursor(), 3);
    assert!(input.apply(TextInputEdit::Backspace));
    assert_eq!(input.value(), "ab");
    assert!(input.undo());
    assert_eq!(input.value(), "abc");
    assert_eq!(input.cursor(), 3);
    assert!(input.redo());
    assert_eq!(input.value(), "ab");
    assert!(!input.redo());
}

#[test]
fn text_input_navigation_is_not_an_undo_step() {
    let mut input = TextInput::from("hello world");
    input.apply(TextInputEdit::MoveHome);
    assert_eq!(input.cursor(), 0);
    assert!(!input.undo());
    input.apply(TextInputEdit::MoveEnd);
    assert!(input.apply(TextInputEdit::DeletePreviousWord));
    assert_eq!(input.value(), "hello ");
    assert!(input.apply(TextInputEdit::DeleteToStart));
    assert_eq!(input.value(), "");
    assert!(input.apply(TextInputEdit::Undo));
    assert_eq!(input.value(), "hello ");
}

#[test]
fn text_input_insert_places_characters_at_the_cursor() {
    let mut input = TextInput::new();
    input.insert('b');
    input.apply(TextInputEdit::MoveLeft);
    input.insert('a');
    assert_eq!(input.value(), "ab");
    assert_eq!(input.cursor(), 1);
    input.set_cursor(10);
    assert_eq!(input.cursor(), 2);
    input.apply(TextInputEdit::Clear);
    assert_eq!(input.value(), "");
}

#[test]
fn json_undo_then_redo_returns_to_the_edit() {
    let mut buffer = JsonBuffer::new("[1]");
    buffer.move_end();
    buffer.insert(' ');
    assert_eq!(buffer.value(), "[1] ");
    buffer.undo();
    assert_eq!(buffer.value(), "[1]");
    buffer.redo();
    assert_eq!(buffer.value(), "[1] ");
}

#[test]
fn json_buffer_reports_line_and_column_of_the_cursor() {
    let mut buffer = JsonBuffer::new("{\n  \"a\": 1\n}");
    buffer.move_up();
    assert_eq!(buffer.line(), 1);
    buffer.move_home();
    assert_eq!(buffer.column(), 0);
    buffer.move_right();
    buffer.move_right();
    assert_eq!(buffer.column(), 2);
    assert!(buffer.validate().is_ok());
    assert_eq!(buffer.format().unwrap(), "{\n  \"a\": 1\n}");
}
