use lazydb::cell_editor::CellEditorBuffer;
use lazydb::display::{cell_editor_value, display_slice, provenance_label, RelationSnapshotProvenance};
use lazydb::relation_edit::CellEditorState;
use lazydb::value::CellValue;

#[test]
fn json_cell_editor_horizontal_slice_preserves_wide_cell_width() {
    assert_eq!(display_slice("a猫b", 1, 3), "猫");
    assert_eq!(display_slice("a猫b", 2, 5), " b");
    assert_eq!(display_slice("a猫b", 3, 6), "b");
}

#[test]
fn display_slice_pads_both_edges_of_a_cut_wide_character() {
    assert_eq!(display_slice("猫猫", 1, 3), "  ");
    assert_eq!(display_slice("abc", 0, 0), "");
    assert_eq!(display_slice("a\u{7}b", 0, 2), "ab");
}

#[test]
fn cell_editor_value_contains_only_the_cell_content() {
    let editor = CellEditorState {
        row: 5,
        column: 8,
        input: CellEditorBuffer::from_value(&CellValue::Text("failed".into()), None),
        error: None,
    };
    assert_eq!(cell_editor_value(&editor), "failed");
    assert!(!cell_editor_value(&editor).contains("Edit cell"));
    assert!(!cell_editor_value(&editor).contains("[6, 9]"));
}

#[test]
fn provenance_badges_name_each_source() {
    assert_eq!(provenance_label(RelationSnapshotProvenance::Live), "LIVE");
    assert_eq!(provenance_label(RelationSnapshotProvenance::OfflineSnapshot), "OFFLINE SNAPSHOT");
    assert_eq!(provenance_label(RelationSnapshotProvenance::ProfileDeletedSnapshot), "PROFILE DELETED SNAPSHOT");
    assert_eq!(provenance_label(RelationSnapshotProvenance::OutOfScopeSnapshot), "OUT OF SCOPE SNAPSHOT");
}
