//! What commands, failures, reports and results say.

use crate::number;
use crate::number::NumberError;
use crate::split;
use crate::text;
use crate::transcript::diagnostics;
use crate::transcript::document::{ApplyError, ApplyErrorView};
use crate::transcript::parser::{CommandView, ErrorView, TranscriptCommand, TranscriptError};
use crate::transcript::report;
use crate::transcript::runner;
use crate::transcript::runner::{Action, ActionView, RunError, RunErrorView, RunView};
use crate::transcript::spoke::SpokeView;
use crate::types;
use crate::types::EditorFatOp;
use vstd::prelude::*;
use vstd::string::*;

verus! {

// *** Commands

/// What the commands of a script stand for.
pub proof fn lemma_commands_mean(editor: usize, n: i64, text: String)
    ensures
        (TranscriptCommand::Move { editor, offset: n })@ == (CommandView::Move {
            editor: editor as nat,
            offset: n as int,
        }),
        (TranscriptCommand::Insert { editor, text })@ == (CommandView::Insert {
            editor: editor as nat,
            text: text@,
        }),
        (TranscriptCommand::Delete { editor, count: n })@ == (CommandView::Delete {
            editor: editor as nat,
            count: n as int,
        }),
        (TranscriptCommand::Undo { editor })@ == (CommandView::Undo { editor: editor as nat }),
        (TranscriptCommand::Redo { editor })@ == (CommandView::Redo { editor: editor as nat }),
        (TranscriptCommand::Send { editor })@ == (CommandView::Send { editor: editor as nat }),
        (TranscriptCommand::BeginGroup { editor })@ == (CommandView::BeginGroup {
            editor: editor as nat,
        }),
        (TranscriptCommand::EndGroup { editor })@ == (CommandView::EndGroup {
            editor: editor as nat,
        }),
        TranscriptCommand::Check@ == CommandView::Check,
{
}

/// Every command but a check is for the editor that it names.
pub proof fn lemma_commands_have_editors(editor: nat, n: int, text: Seq<char>)
    ensures
        (CommandView::Move { editor, offset: n }).editor() == Some(editor),
        (CommandView::Insert { editor, text }).editor() == Some(editor),
        (CommandView::Delete { editor, count: n }).editor() == Some(editor),
        (CommandView::Undo { editor }).editor() == Some(editor),
        (CommandView::Redo { editor }).editor() == Some(editor),
        (CommandView::Send { editor }).editor() == Some(editor),
        (CommandView::BeginGroup { editor }).editor() == Some(editor),
        (CommandView::EndGroup { editor }).editor() == Some(editor),
        CommandView::Check.editor() is None,
{
}

/// How commands are written in a report: the name, and in braces the editor,
/// counted from zero, and the argument.
pub proof fn lemma_commands_written(
    editor: nat,
    n: int,
    text: Seq<char>,
    quote: spec_fn(Seq<char>) -> Seq<char>,
)
    ensures
        (CommandView::Move { editor, offset: n }).text(quote) == "Move { editor: "@ + number::decimal(
            editor,
        ) + ", offset: "@ + number::signed_decimal(n) + " }"@,
        (CommandView::Insert { editor, text }).text(quote) == "Insert { editor: "@ + number::decimal(
            editor,
        ) + ", text: "@ + quote(text) + " }"@,
        (CommandView::Delete { editor, count: n }).text(quote) == "Delete { editor: "@
            + number::decimal(editor) + ", count: "@ + number::signed_decimal(n) + " }"@,
        (CommandView::Undo { editor }).text(quote) == "Undo { editor: "@ + number::decimal(editor)
            + " }"@,
        (CommandView::Redo { editor }).text(quote) == "Redo { editor: "@ + number::decimal(editor)
            + " }"@,
        (CommandView::Send { editor }).text(quote) == "Send { editor: "@ + number::decimal(editor)
            + " }"@,
        (CommandView::BeginGroup { editor }).text(quote) == "BeginGroup { editor: "@
            + number::decimal(editor) + " }"@,
        (CommandView::EndGroup { editor }).text(quote) == "EndGroup { editor: "@ + number::decimal(
            editor,
        ) + " }"@,
        CommandView::Check.text(quote) == "Check"@,
{
    reveal_strlit("");
    reveal_strlit(" { editor: ");
    reveal_strlit(" }");
    reveal_strlit("Move");
    reveal_strlit("Insert");
    reveal_strlit("Delete");
    reveal_strlit("Undo");
    reveal_strlit("Redo");
    reveal_strlit("Send");
    reveal_strlit("BeginGroup");
    reveal_strlit("EndGroup");
    reveal_strlit("Move { editor: ");
    reveal_strlit("Insert { editor: ");
    reveal_strlit("Delete { editor: ");
    reveal_strlit("Undo { editor: ");
    reveal_strlit("Redo { editor: ");
    reveal_strlit("Send { editor: ");
    reveal_strlit("BeginGroup { editor: ");
    reveal_strlit("EndGroup { editor: ");
    assert("Move"@ + " { editor: "@ =~= "Move { editor: "@);
    assert("Insert"@ + " { editor: "@ =~= "Insert { editor: "@);
    assert("Delete"@ + " { editor: "@ =~= "Delete { editor: "@);
    assert("Undo"@ + " { editor: "@ =~= "Undo { editor: "@);
    assert("Redo"@ + " { editor: "@ =~= "Redo { editor: "@);
    assert("Send"@ + " { editor: "@ =~= "Send { editor: "@);
    assert("BeginGroup"@ + " { editor: "@ =~= "BeginGroup { editor: "@);
    assert("EndGroup"@ + " { editor: "@ =~= "EndGroup { editor: "@);
    let d = number::decimal(editor);
    assert("Undo { editor: "@ + d + ""@ =~= "Undo { editor: "@ + d);
    assert("Redo { editor: "@ + d + ""@ =~= "Redo { editor: "@ + d);
    assert("Send { editor: "@ + d + ""@ =~= "Send { editor: "@ + d);
    assert("BeginGroup { editor: "@ + d + ""@ =~= "BeginGroup { editor: "@ + d);
    assert("EndGroup { editor: "@ + d + ""@ =~= "EndGroup { editor: "@ + d);
    let o = number::signed_decimal(n);
    assert("Move { editor: "@ + d + (", offset: "@ + o) =~= "Move { editor: "@ + d + ", offset: "@
        + o);
    assert("Delete { editor: "@ + d + (", count: "@ + o) =~= "Delete { editor: "@ + d + ", count: "@
        + o);
    assert("Insert { editor: "@ + d + (", text: "@ + quote(text)) =~= "Insert { editor: "@ + d
        + ", text: "@ + quote(text));
}

// *** Failures

/// What is said of a script that cannot be read.
pub proof fn lemma_script_errors_say(word: String, e: NumberError)
    ensures
        TranscriptError::MissingOffset@.text() == "MOVE requires offset"@,
        TranscriptError::MissingText@.text() == "INSERT requires text"@,
        TranscriptError::MissingCount@.text() == "DELETE requires count"@,
        TranscriptError::UnknownCommand(word)@.text() == "Unknown command: "@ + word@,
        TranscriptError::EditorZero@.text() == "editors are numbered from one"@,
        TranscriptError::Number(NumberError::Empty)@.text()
            == "cannot parse integer from empty string"@,
        TranscriptError::Number(NumberError::InvalidDigit)@.text()
            == "invalid digit found in string"@,
        TranscriptError::Number(NumberError::TooLarge)@.text()
            == "number too large to fit in target type"@,
        TranscriptError::Number(NumberError::TooSmall)@.text()
            == "number too small to fit in target type"@,
        TranscriptError::MissingOffset@ is MissingOffset,
        TranscriptError::MissingText@ is MissingText,
        TranscriptError::MissingCount@ is MissingCount,
        TranscriptError::UnknownCommand(word)@ == ErrorView::UnknownCommand(word@),
        TranscriptError::Number(e)@ == ErrorView::Number(e),
        TranscriptError::EditorZero@ is EditorZero,
{
}

/// What is said of an instruction that could not be applied.
pub proof fn lemma_apply_errors_say(pos: u64, doc_len: usize, text: String, other: String)
    ensures
        (ApplyError::InsertOutOfBounds { pos, doc_len, text })@ == (
        ApplyErrorView::InsertOutOfBounds {
            pos: pos as nat,
            doc_len: doc_len as nat,
            text: text@,
        }),
        (ApplyError::DeleteOutOfRange { pos, doc_len, text })@ == (
        ApplyErrorView::DeleteOutOfRange { pos: pos as nat, doc_len: doc_len as nat, text: text@ }),
        (ApplyError::DeleteMismatch { pos, expected: text, actual: other })@ == (
        ApplyErrorView::DeleteMismatch { pos: pos as nat, expected: text@, actual: other@ }),
        (ApplyError::InsertOutOfBounds { pos, doc_len, text })@.text() == "Insert position "@
            + number::decimal(pos as nat) + " out of bounds (doc_len: "@ + number::decimal(
            doc_len as nat,
        ) + ", text: '"@ + text@ + "')"@,
        (ApplyError::DeleteOutOfRange { pos, doc_len, text })@.text() == "Delete position "@
            + number::decimal(pos as nat) + " out of range (doc_len: "@ + number::decimal(
            doc_len as nat,
        ) + ", text: '"@ + text@ + "')"@,
        (ApplyError::DeleteMismatch { pos, expected: text, actual: other })@.text()
            == "Delete mismatch at pos "@ + number::decimal(pos as nat) + ": expected '"@ + text@
            + "', got '"@ + other@ + "'"@,
{
}

/// What is said of a run that failed. Editors are counted from one.
pub proof fn lemma_run_errors_say(
    editor: usize,
    len: usize,
    doc_len: u64,
    a: String,
    b: String,
    e: ApplyError,
    x: Vec<u64>,
    y: Vec<u64>,
    z: Vec<u64>,
)
    ensures
        RunError::Request(a)@.text() == a@,
        RunError::Apply(e)@.text() == e@.text(),
        (RunError::Length { editor, mock_len: len, doc_len })@.text() == "MISMATCH: Editor "@
            + number::decimal((editor + 1) as nat) + " MockDocument length "@ + number::decimal(
            len as nat,
        ) + " != server gapbuf length "@ + number::decimal(doc_len as nat),
        (RunError::Sync { editor, server: a, mock: b })@.text() == "Content sync error for Editor "@
            + number::decimal((editor + 1) as nat) + ": server has '"@ + a@ + "' ("@
            + number::decimal(runner::byte_len(a@)) + " chars), mock has '"@ + b@ + "' ("@
            + number::decimal(runner::byte_len(b@)) + " chars)"@,
        (RunError::NotConverged { global_seqs: x, pending_counts: y, ops_counts: z })@.text()
            == "CHECK failed: editors not converged after 20 attempts. global_seqs: "@
            + number::decimal_list(number::nats(x@)) + ", pending_counts: "@ + number::decimal_list(
            number::nats(y@),
        ) + ", ops_counts: "@ + number::decimal_list(number::nats(z@)),
        (RunError::Content { editor, content: a, expected: b, ops_counts: z })@.text()
            == "Content mismatch at CHECK: Editor "@ + number::decimal((editor + 1) as nat)
            + " has '"@ + a@ + "', expected '"@ + b@ + "'. ops_counts: "@ + number::decimal_list(
            number::nats(z@),
        ),
{
}

/// What the failures of a run stand for.
pub proof fn lemma_run_errors_mean(
    editor: usize,
    len: usize,
    doc_len: u64,
    a: String,
    b: String,
    e: ApplyError,
    x: Vec<u64>,
    y: Vec<u64>,
    z: Vec<u64>,
)
    ensures
        RunError::Request(a)@ == RunErrorView::Request(a@),
        RunError::Apply(e)@ == RunErrorView::Apply(e@),
        (RunError::Length { editor, mock_len: len, doc_len })@ == (RunErrorView::Length {
            editor: editor as nat,
            mock_len: len as nat,
            doc_len: doc_len as nat,
        }),
        (RunError::Sync { editor, server: a, mock: b })@ == (RunErrorView::Sync {
            editor: editor as nat,
            server: a@,
            mock: b@,
        }),
        (RunError::NotConverged { global_seqs: x, pending_counts: y, ops_counts: z })@ == (
        RunErrorView::NotConverged {
            global_seqs: number::nats(x@),
            pending_counts: number::nats(y@),
            ops_counts: number::nats(z@),
        }),
        (RunError::Content { editor, content: a, expected: b, ops_counts: z })@ == (
        RunErrorView::Content {
            editor: editor as nat,
            content: a@,
            expected: b@,
            ops_counts: number::nats(z@),
        }),
        number::nats(x@).len() == x@.len(),
        forall|i: int| 0 <= i < x@.len() ==> #[trigger] number::nats(x@)[i] == x@[i],
{
}

/// What a run asks of its driver, and what stands for it.
pub proof fn lemma_actions_mean(editor: usize, ops: Vec<EditorFatOp>, flag: bool, error: RunError)
    ensures
        Action::Next@ is Next,
        (Action::SendOps { editor, ops })@ == (ActionView::SendOps {
            editor: editor as nat,
            ops: types::fat_op_views(ops@),
        }),
        (Action::SendUndo { editor, redo: flag })@ == (ActionView::SendUndo {
            editor: editor as nat,
            redo: flag,
        }),
        (Action::OpenFile { editor })@ == (ActionView::OpenFile { editor: editor as nat }),
        Action::PollHub@ is PollHub,
        Action::Finish@ is Finish,
        (Action::Fail { error, report: flag })@ == (ActionView::Fail {
            error: error@,
            report: flag,
        }),
{
}

// *** Reports

/// The last entries of a list are its end; a short list is kept whole.
pub proof fn lemma_last_entries<T>(head: Seq<T>, tail: Seq<T>, n: nat)
    ensures
        tail.len() == n ==> diagnostics::last_entries(head + tail, n) == tail,
        tail.len() <= n ==> diagnostics::last_entries(tail, n) == tail,
{
    if tail.len() == n {
        assert((head + tail).skip((head + tail).len() - n) =~= tail);
        if head.len() == 0 {
            assert(head + tail =~= tail);
        }
    }
}

/// A history takes every new entry at its end, and lets the oldest go only when
/// it is full.
pub proof fn lemma_recorded<T>(kept: Seq<T>, limit: nat, x: T)
    ensures
        kept.len() < limit ==> diagnostics::recorded(kept, limit, x) == kept + seq![x],
        kept.len() >= limit && kept.len() > 0 ==> diagnostics::recorded(kept, limit, x) == kept.skip(
            1,
        ) + seq![x],
        kept.len() <= limit && limit > 0 ==> diagnostics::recorded(kept, limit, x).len() <= limit,
{
    assert(kept.push(x) =~= kept + seq![x]);
    if kept.len() > 0 {
        assert(kept.push(x).drop_first() =~= kept.skip(1) + seq![x]);
    }
}

/// The history of a report has a line for each command, with its number counted
/// from one.
pub proof fn lemma_history_lines(h: Seq<(nat, CommandView)>, n: nat, c: CommandView)
    ensures
        report::history_lines(Seq::empty()) == Seq::<char>::empty(),
        report::history_lines(h.push((n, c))) == report::history_lines(h) + "  ["@ + number::decimal(
            n + 1,
        ) + "] "@ + c.text(|s: Seq<char>| text::debug_quoted(s)) + "\n"@,
{
    assert(h.push((n, c)).drop_last() =~= h);
}

/// The editors of a report come in their order, counted from one, each with its
/// text, its length in bytes, its cursor and its counters.
pub proof fn lemma_state_lines(spokes: Seq<SpokeView>, s: SpokeView)
    ensures
        report::state_lines(Seq::empty()) == Seq::<char>::empty(),
        report::state_lines(spokes.push(s)) == report::state_lines(spokes) + ("  Editor "@
            + number::decimal(spokes.len() + 1) + ":\n    Content: '"@ + s.doc.content
            + "'\n    Length: "@ + number::decimal(runner::byte_len(s.doc.content))
            + " chars\n    Cursor: "@ + number::decimal(s.doc.cursor) + "\n    Ops applied: "@
            + number::decimal(s.ops_count) + "\n    Pending ops: "@ + number::decimal(
            s.pending.len(),
        ) + "\n    Group seq: "@ + number::decimal(s.group_seq) + "\n"@),
{
    assert(spokes.push(s).drop_last() =~= spokes);
}

/// Each operation that waits has a line, with its number counted from zero. An
/// editor without such operations is left out.
pub proof fn lemma_pending_lines(
    pending: Seq<Seq<Seq<char>>>,
    ops: Seq<Seq<char>>,
    op: Seq<char>,
)
    ensures
        report::op_lines(Seq::empty()) == Seq::<char>::empty(),
        report::op_lines(ops.push(op)) == report::op_lines(ops) + "    ["@ + number::decimal(
            ops.len(),
        ) + "] "@ + op + "\n"@,
        report::pending_lines(Seq::empty()) == Seq::<char>::empty(),
        ops.len() == 0 ==> report::pending_lines(pending.push(ops)) == report::pending_lines(pending),
        ops.len() > 0 ==> report::pending_lines(pending.push(ops)) == report::pending_lines(pending)
            + "  Editor "@ + number::decimal(pending.len() + 1) + ":\n"@ + report::op_lines(ops),
{
    assert(ops.push(op).drop_last() =~= ops);
    assert(pending.push(ops).drop_last() =~= pending);
}

/// A list of lists of texts is read one by one.
pub proof fn lemma_text_lists(v: Seq<Vec<String>>)
    ensures
        report::text_lists(v).len() == v.len(),
        forall|i: int, j: int|
            0 <= i < v.len() && 0 <= j < v[i]@.len() ==> #[trigger] report::text_lists(v)[i][j]
                == v[i]@[j]@,
        forall|i: int|
            0 <= i < v.len() ==> (#[trigger] report::text_lists(v)[i]).len() == v[i]@.len(),
{
    assert forall|i: int| 0 <= i < v.len() implies #[trigger] report::text_lists(v)[i]
        == split::texts(v[i]@) by {
    }
}

/// A report names the error, then the last commands, the editors and what waits,
/// in this order and under these headings.
pub proof fn lemma_report(
    error: Seq<char>,
    history: Seq<(nat, CommandView)>,
    spokes: Seq<SpokeView>,
    pending: Seq<Seq<Seq<char>>>,
)
    ensures
        report::report_text(error, history, spokes, pending) == "\n"@
            + "================================================================================"@
            + "\nERROR DIAGNOSTICS\n"@
            + "================================================================================"@
            + "\nError: "@ + error + "\n\nCommand History (last "@ + number::decimal(history.len())
            + " commands):\n"@ + report::history_lines(history) + "\nMock Document States:\n"@
            + report::state_lines(spokes) + "\nPending Operations:\n"@ + report::pending_lines(
            pending,
        ) + "================================================================================"@
            + "\n\n"@,
{
}

/// The results of a run give the text of each editor, counted from one, and how
/// many instructions each document has seen.
pub proof fn lemma_results(title: Seq<char>, run: RunView, spokes: Seq<SpokeView>, s: SpokeView)
    ensures
        report::results_text(title, run) == "\n=== Transcript Results for '"@ + title + "' ===\n"@
            + report::result_lines(run.spokes) + "ops_counts: "@ + number::decimal_list(
            run.spokes.map_values(|e: SpokeView| e.ops_count),
        ) + "\n=====================================\n\n"@,
        report::result_lines(Seq::empty()) == Seq::<char>::empty(),
        report::result_lines(spokes.push(s)) == report::result_lines(spokes) + "Editor "@
            + number::decimal(spokes.len() + 1) + ": '"@ + s.doc.content + "'\n"@,
{
    assert(spokes.push(s).drop_last() =~= spokes);
    assert(run.ops_counts() =~= run.spokes.map_values(|e: SpokeView| e.ops_count));
}

} // verus!
