use collab_mode::transcript::document::{ApplyError, MockDocument};
use collab_mode::types::{Edit, EditInstruction, EditorLeanOp, EditorOp};

fn edit(pos: u64, content: &str) -> Edit {
    Edit { pos, content: content.to_string() }
}

fn ins(edits: Vec<Edit>) -> EditInstruction {
    EditInstruction::Ins { edits }
}

fn del(edits: Vec<Edit>) -> EditInstruction {
    EditInstruction::Del { edits }
}

#[test]
fn cursor_stays_in_document() {
    let mut doc = MockDocument::new("héllo");
    assert_eq!(doc.get_cursor(), 0);
    doc.move_cursor(3);
    assert_eq!(doc.get_cursor(), 3);
    doc.move_cursor(100);
    assert_eq!(doc.get_cursor(), 5);
    doc.move_cursor(-2);
    assert_eq!(doc.get_cursor(), 3);
    doc.move_cursor(-100);
    assert_eq!(doc.get_cursor(), 0);
    doc.move_cursor(i64::MAX);
    assert_eq!(doc.get_cursor(), 5);
}

#[test]
fn insert_writes_at_cursor() {
    let mut doc = MockDocument::new("ad");
    doc.move_cursor(1);
    let op = doc.insert("bç");
    assert_eq!(doc.get_content(), "abçd");
    assert_eq!(doc.get_cursor(), 3);
    assert_eq!(op.op, EditorOp::Ins { pos: 1, content: "bç".to_string() });
    assert_eq!(op.group_seq, 1);
    assert_eq!(doc.get_ops_applied(), 0);
}

#[test]
fn delete_goes_backward_and_forward() {
    let mut doc = MockDocument::new("abcdef");
    doc.move_cursor(3);
    let op = doc.delete(2).unwrap();
    assert_eq!(op.op, EditorOp::Del { pos: 1, content: "bc".to_string() });
    assert_eq!(doc.get_content(), "adef");
    assert_eq!(doc.get_cursor(), 1);
    let op = doc.delete(-2).unwrap();
    assert_eq!(op.op, EditorOp::Del { pos: 1, content: "de".to_string() });
    assert_eq!(doc.get_content(), "af");
    assert_eq!(doc.get_cursor(), 1);
}

#[test]
fn delete_is_cut_off_at_the_ends() {
    let mut doc = MockDocument::new("abc");
    assert!(doc.delete(0).is_none());
    assert!(doc.delete(5).is_none());
    doc.move_cursor(2);
    assert_eq!(
        doc.delete(9).unwrap().op,
        EditorOp::Del { pos: 0, content: "ab".to_string() }
    );
    assert_eq!(
        doc.delete(-9).unwrap().op,
        EditorOp::Del { pos: 0, content: "c".to_string() }
    );
    assert!(doc.delete(-1).is_none());
    assert_eq!(doc.get_content(), "");
}

#[test]
fn insertions_apply_from_the_back() {
    let mut doc = MockDocument::new("abc");
    doc.apply_edit_instruction(&ins(vec![edit(0, "X"), edit(3, "YZ")])).unwrap();
    assert_eq!(doc.get_content(), "XabcYZ");
    assert_eq!(doc.get_cursor(), 6);
    assert_eq!(doc.get_ops_applied(), 1);
}

#[test]
fn insertions_at_one_place_keep_their_order() {
    let mut doc = MockDocument::new("c");
    doc.apply_edit_instruction(&ins(vec![edit(0, "a"), edit(0, "b")])).unwrap();
    assert_eq!(doc.get_content(), "abc");
    assert_eq!(doc.get_cursor(), 2);
}

#[test]
fn deletions_apply_from_the_back() {
    let mut doc = MockDocument::new("abcdef");
    doc.apply_edit_instruction(&del(vec![edit(1, "b"), edit(4, "ef")])).unwrap();
    assert_eq!(doc.get_content(), "acd");
    assert_eq!(doc.get_cursor(), 1);
}

#[test]
fn empty_instruction_counts_only() {
    let mut doc = MockDocument::new("abc");
    doc.move_cursor(2);
    doc.apply_edit_instruction(&ins(vec![])).unwrap();
    doc.apply_edit_instruction(&del(vec![])).unwrap();
    assert_eq!(doc.get_content(), "abc");
    assert_eq!(doc.get_cursor(), 2);
    assert_eq!(doc.get_ops_applied(), 2);
}

#[test]
fn insert_out_of_bounds() {
    let mut doc = MockDocument::new("abc");
    let e = doc.apply_edit_instruction(&ins(vec![edit(4, "x")])).unwrap_err();
    assert_eq!(
        e,
        ApplyError::InsertOutOfBounds { pos: 4, doc_len: 3, text: "x".to_string() }
    );
    assert_eq!(e.message(), "Insert position 4 out of bounds (doc_len: 3, text: 'x')");
    assert_eq!(doc.get_ops_applied(), 1);
}

#[test]
fn delete_of_other_text() {
    let mut doc = MockDocument::new("abc");
    let e = doc.apply_edit_instruction(&del(vec![edit(1, "x")])).unwrap_err();
    assert_eq!(
        e,
        ApplyError::DeleteMismatch {
            pos: 1,
            expected: "x".to_string(),
            actual: "b".to_string()
        }
    );
    assert_eq!(e.message(), "Delete mismatch at pos 1: expected 'x', got 'b'");
}

#[test]
fn delete_out_of_range_is_refused() {
    let mut doc = MockDocument::new("abc");
    let e = doc.apply_checked(&del(vec![edit(2, "cd")])).unwrap_err();
    assert!(matches!(e, ApplyError::DeleteOutOfRange { pos: 2, doc_len: 3, .. }));
}

#[test]
fn remote_operation_applies_its_instruction() {
    let mut doc = MockDocument::new("abc");
    let op = EditorLeanOp { op: ins(vec![edit(1, "--")]), site_id: 7 };
    doc.apply_remote_op(&op).unwrap();
    assert_eq!(doc.get_content(), "a--bc");
}

#[test]
fn deletion_undoes_insertion() {
    let mut doc = MockDocument::new("wörld");
    doc.move_cursor(2);
    doc.insert("xyz");
    doc.delete(3);
    assert_eq!(doc.get_content(), "wörld");
    assert_eq!(doc.get_cursor(), 2);
}

#[test]
fn insertion_undoes_deletion() {
    let mut doc = MockDocument::new("wörld");
    doc.move_cursor(1);
    doc.delete(-3);
    assert_eq!(doc.get_content(), "wd");
    doc.insert("örl");
    assert_eq!(doc.get_content(), "wörld");
}

#[test]
fn edits_replicate() {
    let mut here = MockDocument::new("shared text");
    let mut there = MockDocument::new("shared text");
    here.move_cursor(6);
    let op = here.insert(" nice");
    if let EditorOp::Ins { pos, content } = op.op {
        there.apply_edit_instruction(&ins(vec![Edit { pos, content }])).unwrap();
    }
    assert_eq!(there.get_content(), "shared nice text");
    assert_eq!(there.get_content(), here.get_content());
    let op = here.delete(4).unwrap();
    if let EditorOp::Del { pos, content } = op.op {
        there.apply_edit_instruction(&del(vec![Edit { pos, content }])).unwrap();
    }
    assert_eq!(there.get_content(), "shared  text");
    assert_eq!(there.get_content(), here.get_content());
}

#[test]
fn segments_are_deleted_at_their_new_places() {
    let mut doc = MockDocument::new("abcd");
    let edits = vec![edit(0, "xx"), edit(2, "y"), edit(2, "zz"), edit(4, "w")];
    doc.apply_edit_instruction(&ins(edits)).unwrap();
    assert_eq!(doc.get_content(), "xxabyzzcdw");
    let dels = vec![edit(0, "xx"), edit(4, "y"), edit(5, "zz"), edit(9, "w")];
    doc.apply_edit_instruction(&del(dels)).unwrap();
    assert_eq!(doc.get_content(), "abcd");
}

#[test]
fn local_operations_replicate() {
    let mut here = MockDocument::new("abcd");
    let mut there = MockDocument::new("abcd");
    here.move_cursor(3);
    there.move_cursor(1);
    match here.insert("xy").op {
        EditorOp::Ins { pos, content } => {
            there.apply_edit_instruction(&ins(vec![Edit { pos, content }])).unwrap()
        }
        other => panic!("{:?}", other),
    }
    assert_eq!(here.get_content(), there.get_content());
    assert_eq!(here.get_cursor(), there.get_cursor());
    match here.delete(3).unwrap().op {
        EditorOp::Del { pos, content } => {
            there.apply_edit_instruction(&del(vec![Edit { pos, content }])).unwrap()
        }
        other => panic!("{:?}", other),
    }
    assert_eq!(there.get_content(), "abd");
    assert_eq!(here.get_content(), there.get_content());
    assert_eq!(here.get_cursor(), there.get_cursor());
}

#[test]
fn only_instructions_count() {
    let mut doc = MockDocument::new("abc");
    doc.move_cursor(2);
    doc.insert("x");
    assert!(doc.apply_edit_instruction(&ins(vec![edit(0, "y")])).is_ok());
    doc.delete(1);
    assert!(doc.apply_edit_instruction(&ins(vec![edit(99, "z")])).is_err());
    doc.move_cursor(-1);
    assert!(doc.apply_edit_instruction(&del(vec![])).is_ok());
    assert_eq!(doc.get_ops_applied(), 3);
}
