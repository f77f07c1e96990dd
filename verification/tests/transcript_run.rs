use collab_mode::transcript::parser::{plan_run, TranscriptCommand};
use collab_mode::transcript::runner::{Action, OpsReply, Reply, Run, RunError, UndoReply};
use collab_mode::types::{Edit, EditInstruction, EditorLeanOp, EditorOp};

fn start(script: &str) -> Run {
    let plan = plan_run(&format!("\n{}", script)).unwrap();
    let contents = vec![String::new(); plan.editors];
    Run::new(plan.commands, &contents)
}

fn reply(doc_len: u64) -> Reply {
    Reply::Ops(OpsReply { ops: vec![], doc_len, last_global_seq: 0, pending_local_ops: 0 })
}

fn lean_ins(pos: u64, content: &str) -> EditorLeanOp {
    EditorLeanOp {
        op: EditInstruction::Ins { edits: vec![Edit { pos, content: content.to_string() }] },
        site_id: 1,
    }
}

fn polled(seq: u32, pending: usize, ops: Vec<EditorLeanOp>) -> Reply {
    Reply::Ops(OpsReply { ops, doc_len: 0, last_global_seq: seq, pending_local_ops: pending })
}

#[test]
fn send_sends_what_was_typed() {
    let mut run = start("E1 INSERT ab\nE1 DELETE 1\nE1 SEND");
    assert!(matches!(run.advance(), Action::Next));
    assert!(matches!(run.advance(), Action::Next));
    match run.advance() {
        Action::SendOps { editor, ops } => {
            assert_eq!(editor, 0);
            assert_eq!(ops.len(), 2);
            assert_eq!(ops[0].op, EditorOp::Ins { pos: 0, content: "ab".to_string() });
            assert_eq!(ops[0].group_seq, 1);
            assert_eq!(ops[1].op, EditorOp::Del { pos: 1, content: "b".to_string() });
            assert_eq!(ops[1].group_seq, 2);
        }
        other => panic!("{:?}", other),
    }
    assert!(matches!(run.answer(reply(1)), Action::OpenFile { editor: 0 }));
    assert!(matches!(run.answer(Reply::File("a".to_string())), Action::Next));
    assert!(matches!(run.advance(), Action::Finish));
    assert_eq!(
        run.results("T"),
        "\n=== Transcript Results for 'T' ===\nEditor 1: 'a'\nops_counts: [0]\n=====================================\n\n"
    );
}

#[test]
fn commands_in_a_group_share_a_number() {
    let mut run = start("E1 BEGIN_GROUP\nE1 INSERT a\nE1 INSERT b\nE1 END_GROUP\nE1 INSERT c\nE1 SEND");
    for _ in 0..5 {
        assert!(matches!(run.advance(), Action::Next));
    }
    match run.advance() {
        Action::SendOps { ops, .. } => {
            let groups: Vec<u32> = ops.iter().map(|o| o.group_seq).collect();
            assert_eq!(groups, vec![1, 1, 2]);
        }
        other => panic!("{:?}", other),
    }
}

#[test]
fn wrong_length_fails_with_a_report() {
    let mut run = start("E1 INSERT é\nE1 SEND");
    run.advance();
    run.advance();
    match run.answer(reply(1)) {
        Action::Fail { error, report } => {
            assert!(report);
            assert!(matches!(error, RunError::Length { editor: 0, mock_len: 2, doc_len: 1 }));
            assert_eq!(
                error.message(),
                "MISMATCH: Editor 1 MockDocument length 2 != server gapbuf length 1"
            );
        }
        other => panic!("{:?}", other),
    }
}

#[test]
fn other_text_on_the_server_fails() {
    let mut run = start("E1 INSERT ab\nE1 SEND");
    run.advance();
    run.advance();
    assert!(matches!(run.answer(reply(2)), Action::OpenFile { editor: 0 }));
    match run.answer(Reply::File("aé".to_string())) {
        Action::Fail { error, report } => {
            assert!(report);
            assert_eq!(
                error.message(),
                "Content sync error for Editor 1: server has 'aé' (3 chars), mock has 'ab' (2 chars)"
            );
        }
        other => panic!("{:?}", other),
    }
}

#[test]
fn failed_request_ends_the_run() {
    let mut run = start("E1 SEND");
    run.advance();
    match run.answer(Reply::Failed("Channel closed".to_string())) {
        Action::Fail { error, report } => {
            assert!(report);
            assert_eq!(error.message(), "Channel closed");
        }
        other => panic!("{:?}", other),
    }
}

#[test]
fn undo_is_applied_and_announced() {
    let mut run = start("E1 INSERT ab\nE1 UNDO");
    run.advance();
    assert!(matches!(run.advance(), Action::SendOps { editor: 0, .. }));
    assert!(matches!(run.answer(reply(2)), Action::SendUndo { editor: 0, redo: false }));
    let undo = UndoReply {
        ops: vec![EditInstruction::Del {
            edits: vec![Edit { pos: 0, content: "ab".to_string() }],
        }],
        context: 9,
    };
    match run.answer(Reply::Undo(undo)) {
        Action::SendOps { editor, ops } => {
            assert_eq!(editor, 0);
            assert_eq!(ops.len(), 1);
            assert_eq!(ops[0].op, EditorOp::Undo { context: 9 });
            assert_eq!(ops[0].group_seq, 2);
        }
        other => panic!("{:?}", other),
    }
    assert_eq!(run.spokes()[0].content(), "");
    assert_eq!(run.spokes()[0].ops_count(), 1);
    assert!(matches!(run.answer(reply(0)), Action::Next));
    assert_eq!(run.spokes()[0].group_seq(), 3);
}

#[test]
fn redo_without_anything_to_redo() {
    let mut run = start("E1 REDO");
    assert!(matches!(run.advance(), Action::SendOps { editor: 0, .. }));
    assert!(matches!(run.answer(reply(0)), Action::SendUndo { editor: 0, redo: true }));
    let nothing = UndoReply { ops: vec![], context: 0 };
    assert!(matches!(run.answer(Reply::Undo(nothing)), Action::Next));
    assert_eq!(run.spokes()[0].group_seq(), 1);
}

#[test]
fn check_gathers_and_polls() {
    let mut run = start("E1 INSERT a\nE2 INSERT b\n===CHECK===");
    run.advance();
    run.advance();
    assert!(matches!(run.advance(), Action::SendOps { editor: 0, .. }));
    assert!(matches!(run.answer(reply(0)), Action::SendOps { editor: 1, .. }));
    assert!(matches!(
        run.answer(Reply::Ops(OpsReply {
            ops: vec![lean_ins(0, "a")],
            doc_len: 0,
            last_global_seq: 0,
            pending_local_ops: 0
        })),
        Action::PollHub
    ));
    match run.answer(Reply::HubPolled) {
        Action::SendOps { editor: 0, ops } => assert!(ops.is_empty()),
        other => panic!("{:?}", other),
    }
    assert!(matches!(
        run.answer(polled(2, 0, vec![lean_ins(1, "b")])),
        Action::SendOps { editor: 1, .. }
    ));
    assert!(!run.is_converged());
    assert!(matches!(run.answer(polled(1, 1, vec![])), Action::PollHub));
    assert!(matches!(run.answer(Reply::HubPolled), Action::SendOps { editor: 0, .. }));
    assert!(matches!(run.answer(polled(2, 0, vec![])), Action::SendOps { editor: 1, .. }));
    assert!(matches!(run.answer(polled(2, 0, vec![])), Action::Next));
    assert!(run.is_converged());
    assert_eq!(run.global_seqs(), vec![2, 2]);
    assert_eq!(run.pending_counts(), vec![0, 0]);
    assert_eq!(run.ops_counts(), vec![1, 1]);
    assert!(matches!(run.advance(), Action::Finish));
}

#[test]
fn check_gives_up_after_twenty_attempts() {
    let mut run = start("E1 MOVE 0\n===CHECK===");
    run.advance();
    run.advance();
    let mut action = run.answer(reply(0));
    let mut attempts = 0;
    while matches!(action, Action::PollHub) {
        attempts += 1;
        assert!(matches!(run.answer(Reply::HubPolled), Action::SendOps { editor: 0, .. }));
        action = run.answer(polled(7, 3, vec![]));
    }
    assert_eq!(attempts, 20);
    match action {
        Action::Fail { error, report } => {
            assert!(!report);
            assert_eq!(
                error.message(),
                "CHECK failed: editors not converged after 20 attempts. global_seqs: [7], pending_counts: [3], ops_counts: [0]"
            );
        }
        other => panic!("{:?}", other),
    }
}

#[test]
fn check_compares_texts() {
    let mut run = start("E1 INSERT a\nE2 MOVE 0\n===CHECK===");
    run.advance();
    run.advance();
    run.advance();
    run.answer(reply(0));
    assert!(matches!(run.answer(reply(0)), Action::PollHub));
    run.answer(Reply::HubPolled);
    run.answer(polled(1, 0, vec![]));
    match run.answer(polled(1, 0, vec![])) {
        Action::Fail { error, report } => {
            assert!(!report);
            assert_eq!(
                error.message(),
                "Content mismatch at CHECK: Editor 2 has '', expected 'a'. ops_counts: [0, 0]"
            );
        }
        other => panic!("{:?}", other),
    }
}

#[test]
fn instruction_that_does_not_fit_fails() {
    let mut run = start("E1 SEND");
    run.advance();
    match run.answer(polled(0, 0, vec![lean_ins(3, "x")])) {
        Action::Fail { error, report } => {
            assert!(report);
            assert_eq!(
                error.message(),
                "Insert position 3 out of bounds (doc_len: 0, text: 'x')"
            );
        }
        other => panic!("{:?}", other),
    }
}

#[test]
fn report_shows_the_state() {
    let mut run = start("E1 INSERT a\nE1 MOVE -1");
    run.advance();
    run.advance();
    let rule = "=".repeat(80);
    let expected = format!(
        "\n{r}\nERROR DIAGNOSTICS\n{r}\nError: boom\n\nCommand History (last 2 commands):\n  [1] Insert {{ editor: 0, text: \"a\" }}\n  [2] Move {{ editor: 0, offset: -1 }}\n\nMock Document States:\n  Editor 1:\n    Content: 'a'\n    Length: 1 chars\n    Cursor: 0\n    Ops applied: 0\n    Pending ops: 1\n    Group seq: 2\n\nPending Operations:\n  Editor 1:\n    [0] {{}}\n{r}\n\n",
        r = rule
    );
    assert_eq!(run.report("boom", &[vec!["{}".to_string()]]), expected);
}

#[test]
fn history_keeps_the_last_ten() {
    let script: Vec<String> = (0..12).map(|i| format!("E1 MOVE {}", i)).collect();
    let mut run = start(&script.join("\n"));
    for _ in 0..12 {
        run.advance();
    }
    let d = run.diagnostics();
    assert_eq!(d.history_len(), 10);
    let (idx, cmd) = d.history_entry(0);
    assert_eq!(idx, 2);
    assert_eq!(*cmd, TranscriptCommand::Move { editor: 0, offset: 2 });
    let (idx, _) = d.history_entry(9);
    assert_eq!(idx, 11);
}
