//! The run of a script against a set of editors. The run decides what to ask of
//! a server next; whoever drives it does the asking and hands back the reply.

use crate::number;
use crate::text;
use crate::transcript::diagnostics;
use crate::transcript::diagnostics::DiagnosticState;
use crate::transcript::document::{ApplyError, ApplyErrorView};
use crate::transcript::parser;
use crate::transcript::parser::{CommandView, TranscriptCommand};
use crate::transcript::spoke;
use crate::transcript::spoke::{Spoke, SpokeView};
use crate::types;
use crate::types::{
    EditInstruction, EditorFatOp, EditorFatOpView, EditorLeanOp, EditorOp, EditorOpView, GlobalSeq,
};
use vstd::prelude::*;
use vstd::string::*;
use vstd::utf8;

verus! {

/// How many times a check polls the editors before it gives up.
pub const MAX_ATTEMPTS: usize = 20;

/// How many commands a run remembers.
pub const HISTORY_LIMIT: usize = 10;

/// What follows once the pending operations of an editor were sent.
#[derive(Debug, Clone, Copy, PartialEq, Eq, Structural)]
pub enum AfterSync {
    /// Ask for an undo.
    Undo,
    /// Ask for a redo.
    Redo,
    /// Compare the document with the server's.
    Validate,
}

/// What a run waits for.
#[derive(Debug, Clone, Copy, PartialEq, Eq, Structural)]
pub enum Phase {
    /// Nothing: the next command can start.
    Ready,
    /// The reply to the pending operations of an editor.
    Syncing { editor: usize, after: AfterSync },
    /// The instructions that undo or redo.
    Undoing { editor: usize, redo: bool },
    /// The reply to the undo or redo operation.
    Pushing { editor: usize },
    /// The server's text of the document.
    Validating { editor: usize },
    /// A check: the reply to the pending operations of an editor.
    Gathering { editor: usize },
    /// A check: the hub has dealt with its messages.
    Settling { attempt: usize },
    /// A check: what other editors did meanwhile.
    Polling { attempt: usize, editor: usize },
    /// The run is over.
    Over,
}

/// A reply to operations that were sent.
#[derive(Debug, Clone)]
pub struct OpsReply {
    /// The operations of other editors.
    pub ops: Vec<EditorLeanOp>,
    /// The length of the document on the server.
    pub doc_len: u64,
    /// The last sequence number.
    pub last_global_seq: GlobalSeq,
    /// How many operations the server has not yet passed on.
    pub pending_local_ops: usize,
}

/// A reply to a request to undo or redo.
#[derive(Debug, Clone)]
pub struct UndoReply {
    /// What the editor has to do.
    pub ops: Vec<EditInstruction>,
    /// The number by which the operation is known.
    pub context: u64,
}

/// What a driver hands back to a run.
#[derive(Debug, Clone)]
pub enum Reply {
    /// To sent operations.
    Ops(OpsReply),
    /// To a request to undo or redo.
    Undo(UndoReply),
    /// To a request to open the file: its text.
    File(String),
    /// The hub has dealt with its messages.
    HubPolled,
    /// The request failed.
    Failed(String),
}

/// What a run asks of its driver.
#[derive(Debug)]
pub enum Action {
    /// Nothing: start the next command.
    Next,
    /// Send operations of an editor.
    SendOps { editor: usize, ops: Vec<EditorFatOp> },
    /// Ask for an undo or a redo for an editor.
    SendUndo { editor: usize, redo: bool },
    /// Open the file for an editor.
    OpenFile { editor: usize },
    /// Wait, and have the hub deal with its messages.
    PollHub,
    /// The script is done.
    Finish,
    /// The run failed; with or without a report on its state.
    Fail { error: RunError, report: bool },
}

/// What a run asks of its driver.
pub enum ActionView {
    /// Nothing: start the next command.
    Next,
    /// Send operations of an editor.
    SendOps { editor: nat, ops: Seq<EditorFatOpView> },
    /// Ask for an undo or a redo for an editor.
    SendUndo { editor: nat, redo: bool },
    /// Open the file for an editor.
    OpenFile { editor: nat },
    /// Wait, and have the hub deal with its messages.
    PollHub,
    /// The script is done.
    Finish,
    /// The run failed; with or without a report on its state.
    Fail { error: RunErrorView, report: bool },
}

impl View for Action {
    type V = ActionView;

    open spec fn view(&self) -> ActionView {
        match self {
            Action::Next => ActionView::Next,
            Action::SendOps { editor, ops } => ActionView::SendOps {
                editor: *editor as nat,
                ops: types::fat_op_views(ops@),
            },
            Action::SendUndo { editor, redo } => ActionView::SendUndo {
                editor: *editor as nat,
                redo: *redo,
            },
            Action::OpenFile { editor } => ActionView::OpenFile { editor: *editor as nat },
            Action::PollHub => ActionView::PollHub,
            Action::Finish => ActionView::Finish,
            Action::Fail { error, report } => ActionView::Fail { error: error@, report: *report },
        }
    }
}

// *** Failures

/// Why a run failed.
#[derive(Debug)]
pub enum RunError {
    /// A request failed.
    Request(String),
    /// An instruction could not be applied.
    Apply(ApplyError),
    /// The document of an editor is not as long as the server's.
    Length { editor: usize, mock_len: usize, doc_len: u64 },
    /// The document of an editor is not the server's.
    Sync { editor: usize, server: String, mock: String },
    /// The editors did not come to rest.
    NotConverged { global_seqs: Vec<u64>, pending_counts: Vec<u64>, ops_counts: Vec<u64> },
    /// Two editors hold different texts.
    Content { editor: usize, content: String, expected: String, ops_counts: Vec<u64> },
}

/// What a failure says.
pub enum RunErrorView {
    /// A request failed.
    Request(Seq<char>),
    /// An instruction could not be applied.
    Apply(ApplyErrorView),
    /// The document of an editor is not as long as the server's.
    Length { editor: nat, mock_len: nat, doc_len: nat },
    /// The document of an editor is not the server's.
    Sync { editor: nat, server: Seq<char>, mock: Seq<char> },
    /// The editors did not come to rest.
    NotConverged { global_seqs: Seq<nat>, pending_counts: Seq<nat>, ops_counts: Seq<nat> },
    /// Two editors hold different texts.
    Content { editor: nat, content: Seq<char>, expected: Seq<char>, ops_counts: Seq<nat> },
}

impl View for RunError {
    type V = RunErrorView;

    open spec fn view(&self) -> RunErrorView {
        match self {
            RunError::Request(s) => RunErrorView::Request(s@),
            RunError::Apply(e) => RunErrorView::Apply(e@),
            RunError::Length { editor, mock_len, doc_len } => RunErrorView::Length {
                editor: *editor as nat,
                mock_len: *mock_len as nat,
                doc_len: *doc_len as nat,
            },
            RunError::Sync { editor, server, mock } => RunErrorView::Sync {
                editor: *editor as nat,
                server: server@,
                mock: mock@,
            },
            RunError::NotConverged { global_seqs, pending_counts, ops_counts } => {
                RunErrorView::NotConverged {
                    global_seqs: number::nats(global_seqs@),
                    pending_counts: number::nats(pending_counts@),
                    ops_counts: number::nats(ops_counts@),
                }
            },
            RunError::Content { editor, content, expected, ops_counts } => RunErrorView::Content {
                editor: *editor as nat,
                content: content@,
                expected: expected@,
                ops_counts: number::nats(ops_counts@),
            },
        }
    }
}

/// How many bytes a text takes.
pub open spec fn byte_len(s: Seq<char>) -> nat {
    utf8::encode_utf8(s).len()
}

impl RunErrorView {
    /// The message of the failure. Editors are counted from one here, and
    /// lengths in bytes.
    pub open spec fn text(self) -> Seq<char> {
        match self {
            RunErrorView::Request(s) => s,
            RunErrorView::Apply(e) => e.text(),
            RunErrorView::Length { editor, mock_len, doc_len } => "MISMATCH: Editor "@
                + number::decimal(editor + 1) + " MockDocument length "@ + number::decimal(mock_len)
                + " != server gapbuf length "@ + number::decimal(doc_len),
            RunErrorView::Sync { editor, server, mock } => "Content sync error for Editor "@
                + number::decimal(editor + 1) + ": server has '"@ + server + "' ("@
                + number::decimal(byte_len(server)) + " chars), mock has '"@ + mock + "' ("@
                + number::decimal(byte_len(mock)) + " chars)"@,
            RunErrorView::NotConverged { global_seqs, pending_counts, ops_counts } =>
            "CHECK failed: editors not converged after 20 attempts. global_seqs: "@
                + number::decimal_list(global_seqs) + ", pending_counts: "@ + number::decimal_list(
                pending_counts,
            ) + ", ops_counts: "@ + number::decimal_list(ops_counts),
            RunErrorView::Content { editor, content, expected, ops_counts } =>
            "Content mismatch at CHECK: Editor "@ + number::decimal(editor + 1) + " has '"@
                + content + "', expected '"@ + expected + "'. ops_counts: "@
                + number::decimal_list(ops_counts),
        }
    }
}

/// Counts the bytes of a text.
pub fn byte_count(s: &str) -> (r: usize)
    ensures
        r == byte_len(s@),
{
    s.as_bytes().len()
}

impl RunError {
    /// The message of the failure.
    pub fn message(&self) -> (r: String)
        ensures
            r@ == self@.text(),
    {
        match self {
            RunError::Request(s) => s.clone(),
            RunError::Apply(e) => e.message(),
            RunError::Length { editor, mock_len, doc_len } => {
                let mut r = "MISMATCH: Editor ".to_owned();
                r.append(number::wide_decimal_text(*editor as u128 + 1).as_str());
                r.append(" MockDocument length ");
                r.append(number::decimal_text(*mock_len as u64).as_str());
                r.append(" != server gapbuf length ");
                r.append(number::decimal_text(*doc_len).as_str());
                r
            },
            RunError::Sync { editor, server, mock } => {
                let mut r = "Content sync error for Editor ".to_owned();
                r.append(number::wide_decimal_text(*editor as u128 + 1).as_str());
                r.append(": server has '");
                r.append(server.as_str());
                r.append("' (");
                r.append(number::decimal_text(byte_count(server.as_str()) as u64).as_str());
                r.append(" chars), mock has '");
                r.append(mock.as_str());
                r.append("' (");
                r.append(number::decimal_text(byte_count(mock.as_str()) as u64).as_str());
                r.append(" chars)");
                r
            },
            RunError::NotConverged { global_seqs, pending_counts, ops_counts } => {
                let mut r =
                    "CHECK failed: editors not converged after 20 attempts. global_seqs: ".to_owned();
                r.append(number::decimal_list_text(global_seqs).as_str());
                r.append(", pending_counts: ");
                r.append(number::decimal_list_text(pending_counts).as_str());
                r.append(", ops_counts: ");
                r.append(number::decimal_list_text(ops_counts).as_str());
                r
            },
            RunError::Content { editor, content, expected, ops_counts } => {
                let mut r = "Content mismatch at CHECK: Editor ".to_owned();
                r.append(number::wide_decimal_text(*editor as u128 + 1).as_str());
                r.append(" has '");
                r.append(content.as_str());
                r.append("', expected '");
                r.append(expected.as_str());
                r.append("'. ops_counts: ");
                r.append(number::decimal_list_text(ops_counts).as_str());
                r
            },
        }
    }
}

// *** The run

/// The run of a script.
pub struct Run {
    commands: Vec<TranscriptCommand>,
    index: usize,
    spokes: Vec<Spoke>,
    phase: Phase,
    diagnostics: DiagnosticState,
}

/// What the state of a run is.
#[verifier::ext_equal]
pub struct RunView {
    /// The commands of the script.
    pub commands: Seq<CommandView>,
    /// How many commands have started.
    pub index: nat,
    /// The editors.
    pub spokes: Seq<SpokeView>,
    /// What the run waits for.
    pub phase: Phase,
    /// The last commands that started, with their numbers.
    pub history: Seq<(nat, CommandView)>,
}

impl View for Run {
    type V = RunView;

    closed spec fn view(&self) -> RunView {
        RunView {
            commands: parser::command_views(self.commands@),
            index: self.index as nat,
            spokes: spoke::spoke_views(self.spokes@),
            phase: self.phase,
            history: self.diagnostics.history(),
        }
    }
}

impl RunView {
    /// The editor whose reply is awaited.
    pub open spec fn awaited(self) -> Option<usize> {
        match self.phase {
            Phase::Syncing { editor, .. } => Some(editor),
            Phase::Undoing { editor, .. } => Some(editor),
            Phase::Pushing { editor } => Some(editor),
            Phase::Validating { editor } => Some(editor),
            Phase::Gathering { editor } => Some(editor),
            Phase::Polling { editor, .. } => Some(editor),
            _ => None,
        }
    }

    /// Whether the run is in order: commands and replies are for editors that
    /// there are, cursors lie within their documents as long as the run goes
    /// on, and no group number is larger than the commands so far explain.
    pub open spec fn wf(self) -> bool {
        &&& self.spokes.len() > 0
        &&& self.commands.len() < u32::MAX
        &&& self.index <= self.commands.len()
        &&& forall|i: int|
            0 <= i < self.commands.len() ==> match (#[trigger] self.commands[i]).editor() {
                Some(e) => e < self.spokes.len(),
                None => true,
            }
        &&& match self.awaited() {
            Some(e) => e < self.spokes.len(),
            None => true,
        }
        &&& !(self.phase is Over) ==> forall|i: int|
            0 <= i < self.spokes.len() ==> (#[trigger] self.spokes[i]).doc.cursor
                <= self.spokes[i].doc.content.len()
        &&& forall|i: int|
            0 <= i < self.spokes.len() ==> (#[trigger] self.spokes[i]).group_seq <= self.index
                + if self.phase is Ready || self.phase is Over {
                1int
            } else {
                0int
            }
        &&& match self.phase {
            Phase::Settling { attempt } => attempt < MAX_ATTEMPTS,
            Phase::Polling { attempt, .. } => attempt < MAX_ATTEMPTS,
            _ => true,
        }
    }

    /// The run with another state of one editor.
    pub open spec fn with_spoke(self, editor: int, s: SpokeView) -> RunView {
        RunView { spokes: self.spokes.update(editor, s), ..self }
    }

    /// The run waiting for something else.
    pub open spec fn with_phase(self, phase: Phase) -> RunView {
        RunView { phase, ..self }
    }

    /// The run ended by a failure.
    pub open spec fn failed(self, error: RunErrorView, report: bool) -> (RunView, ActionView) {
        (self.with_phase(Phase::Over), ActionView::Fail { error, report })
    }

    /// The run at the end of a command.
    pub open spec fn ready(self) -> (RunView, ActionView) {
        (self.with_phase(Phase::Ready), ActionView::Next)
    }

    /// Sends the pending operations of an editor.
    pub open spec fn syncing(self, editor: nat, phase: Phase) -> (RunView, ActionView) {
        (
            self.with_phase(phase),
            ActionView::SendOps { editor, ops: self.spokes[editor as int].pending },
        )
    }

    /// Asks what other editors did meanwhile.
    pub open spec fn polling(self, attempt: usize, editor: usize) -> (RunView, ActionView) {
        (
            self.with_phase(Phase::Polling { attempt, editor }),
            ActionView::SendOps { editor: editor as nat, ops: Seq::empty() },
        )
    }

    /// Waits for the hub.
    pub open spec fn settling(self, attempt: usize) -> (RunView, ActionView) {
        (self.with_phase(Phase::Settling { attempt }), ActionView::PollHub)
    }

    /// The sequence numbers that the editors last heard of.
    pub open spec fn global_seqs(self) -> Seq<nat> {
        Seq::new(self.spokes.len(), |i: int| self.spokes[i].global_seq)
    }

    /// How many operations are on their way, by editor.
    pub open spec fn pending_counts(self) -> Seq<nat> {
        Seq::new(self.spokes.len(), |i: int| self.spokes[i].pending_count)
    }

    /// How many instructions the documents have seen, by editor.
    pub open spec fn ops_counts(self) -> Seq<nat> {
        Seq::new(self.spokes.len(), |i: int| self.spokes[i].ops_count)
    }

    /// Whether all editors heard of the same operation last, and nothing is on
    /// its way.
    pub open spec fn converged(self) -> bool {
        forall|i: int|
            0 <= i < self.spokes.len() ==> (#[trigger] self.spokes[i]).global_seq
                == self.spokes[0].global_seq && self.spokes[i].pending_count == 0
    }

    /// The first editor from `from` on whose text is not that of editor zero.
    pub open spec fn odd_one(self, from: int) -> Option<int>
        decreases self.spokes.len() - from,
    {
        if from >= self.spokes.len() {
            None
        } else if self.spokes[from].doc.content != self.spokes[0].doc.content {
            Some(from)
        } else {
            self.odd_one(from + 1)
        }
    }

    /// Starts the next command.
    pub open spec fn advanced(self) -> (RunView, ActionView) {
        if self.index >= self.commands.len() {
            (self.with_phase(Phase::Over), ActionView::Finish)
        } else {
            let command = self.commands[self.index as int];
            let next = RunView {
                index: self.index + 1,
                history: diagnostics::recorded(
                    self.history,
                    HISTORY_LIMIT as nat,
                    (self.index, command),
                ),
                ..self
            };
            match command {
                CommandView::Move { editor, offset } => next.with_spoke(
                    editor as int,
                    spoke::moved(self.spokes[editor as int], offset as i64),
                ).ready(),
                CommandView::Insert { editor, text } => next.with_spoke(
                    editor as int,
                    spoke::typed(self.spokes[editor as int], text),
                ).ready(),
                CommandView::Delete { editor, count } => next.with_spoke(
                    editor as int,
                    spoke::erased(self.spokes[editor as int], count as i64),
                ).ready(),
                CommandView::Undo { editor } => next.syncing(
                    editor,
                    Phase::Syncing { editor: editor as usize, after: AfterSync::Undo },
                ),
                CommandView::Redo { editor } => next.syncing(
                    editor,
                    Phase::Syncing { editor: editor as usize, after: AfterSync::Redo },
                ),
                CommandView::Send { editor } => next.syncing(
                    editor,
                    Phase::Syncing { editor: editor as usize, after: AfterSync::Validate },
                ),
                CommandView::BeginGroup { editor } => next.with_spoke(
                    editor as int,
                    SpokeView { in_group: true, ..self.spokes[editor as int] },
                ).ready(),
                CommandView::EndGroup { editor } => next.with_spoke(
                    editor as int,
                    spoke::next_group(
                        SpokeView { in_group: false, ..self.spokes[editor as int] },
                    ),
                ).ready(),
                CommandView::Check => next.syncing(0, Phase::Gathering { editor: 0 }),
            }
        }
    }

    /// Goes on once the pending operations of an editor were sent.
    pub open spec fn synced(self, editor: usize, after: AfterSync, reply: OpsReply) -> (
        RunView,
        ActionView,
    ) {
        let (s, error) = spoke::tried(
            self.spokes[editor as int],
            spoke::instructions(reply.ops@),
        );
        let mock_len = byte_len(s.doc.content);
        match error {
            Some(e) => self.with_spoke(editor as int, s).failed(RunErrorView::Apply(e), true),
            None => {
                let next = self.with_spoke(editor as int, spoke::flushed(s));
                if mock_len != reply.doc_len {
                    next.failed(
                        RunErrorView::Length {
                            editor: editor as nat,
                            mock_len,
                            doc_len: reply.doc_len as nat,
                        },
                        true,
                    )
                } else {
                    match after {
                        AfterSync::Undo => (
                            next.with_phase(Phase::Undoing { editor, redo: false }),
                            ActionView::SendUndo { editor: editor as nat, redo: false },
                        ),
                        AfterSync::Redo => (
                            next.with_phase(Phase::Undoing { editor, redo: true }),
                            ActionView::SendUndo { editor: editor as nat, redo: true },
                        ),
                        AfterSync::Validate => (
                            next.with_phase(Phase::Validating { editor }),
                            ActionView::OpenFile { editor: editor as nat },
                        ),
                    }
                }
            },
        }
    }

    /// Goes on with the instructions that undo or redo. Where there are none
    /// the command is done.
    pub open spec fn undone(self, editor: usize, redo: bool, reply: UndoReply) -> (
        RunView,
        ActionView,
    ) {
        if reply.ops@.len() == 0 {
            self.ready()
        } else {
            let (s, error) = spoke::tried(self.spokes[editor as int], reply.ops@);
            let next = self.with_spoke(editor as int, s);
            let context = reply.context as nat;
            match error {
                Some(e) => next.failed(RunErrorView::Apply(e), true),
                None => (
                    next.with_phase(Phase::Pushing { editor }),
                    ActionView::SendOps {
                        editor: editor as nat,
                        ops: seq![
                            EditorFatOpView {
                                op: if redo {
                                    EditorOpView::Redo { context }
                                } else {
                                    EditorOpView::Undo { context }
                                },
                                group_seq: s.group_seq,
                            },
                        ],
                    },
                ),
            }
        }
    }

    /// Goes on once an undo or redo operation was sent.
    pub open spec fn pushed(self, editor: usize, reply: OpsReply) -> (RunView, ActionView) {
        let (s, error) = spoke::tried(
            self.spokes[editor as int],
            spoke::instructions(reply.ops@),
        );
        match error {
            Some(e) => self.with_spoke(editor as int, s).failed(RunErrorView::Apply(e), true),
            None => self.with_spoke(editor as int, spoke::next_group(s)).ready(),
        }
    }

    /// Goes on with the server's text of the document.
    pub open spec fn validated(self, editor: usize, server: Seq<char>) -> (RunView, ActionView) {
        let mock = self.spokes[editor as int].doc.content;
        if server != mock {
            self.failed(RunErrorView::Sync { editor: editor as nat, server, mock }, true)
        } else {
            self.ready()
        }
    }

    /// A check goes on once the pending operations of an editor were sent.
    pub open spec fn gathered(self, editor: usize, reply: OpsReply) -> (RunView, ActionView) {
        let (s, error) = spoke::tried(
            self.spokes[editor as int],
            spoke::instructions(reply.ops@),
        );
        match error {
            Some(e) => self.with_spoke(editor as int, s).failed(RunErrorView::Apply(e), true),
            None => {
                let next = self.with_spoke(editor as int, spoke::flushed(s));
                if editor + 1 < self.spokes.len() {
                    next.syncing(
                        (editor + 1) as nat,
                        Phase::Gathering { editor: (editor + 1) as usize },
                    )
                } else {
                    next.settling(0)
                }
            },
        }
    }

    /// The end of a check: all texts have to be the same.
    pub open spec fn compared(self) -> (RunView, ActionView) {
        match self.odd_one(0) {
            Some(i) => self.failed(
                RunErrorView::Content {
                    editor: i as nat,
                    content: self.spokes[i].doc.content,
                    expected: self.spokes[0].doc.content,
                    ops_counts: self.ops_counts(),
                },
                false,
            ),
            None => self.ready(),
        }
    }

    /// A check goes on once an editor heard of what others did.
    pub open spec fn polled(self, attempt: usize, editor: usize, reply: OpsReply) -> (
        RunView,
        ActionView,
    ) {
        let (s, error) = spoke::tried(
            self.spokes[editor as int],
            spoke::instructions(reply.ops@),
        );
        match error {
            Some(e) => self.with_spoke(editor as int, s).failed(RunErrorView::Apply(e), true),
            None => {
                let next = self.with_spoke(
                    editor as int,
                    SpokeView {
                        global_seq: reply.last_global_seq as nat,
                        pending_count: reply.pending_local_ops as nat,
                        ..s
                    },
                );
                if editor + 1 < self.spokes.len() {
                    next.polling(attempt, (editor + 1) as usize)
                } else if next.converged() {
                    next.compared()
                } else if attempt + 1 >= MAX_ATTEMPTS {
                    next.failed(
                        RunErrorView::NotConverged {
                            global_seqs: next.global_seqs(),
                            pending_counts: next.pending_counts(),
                            ops_counts: next.ops_counts(),
                        },
                        false,
                    )
                } else {
                    next.settling((attempt + 1) as usize)
                }
            },
        }
    }

    /// Whether a reply is of the sort that the run waits for.
    pub open spec fn expects(self, reply: Reply) -> bool {
        match (self.phase, reply) {
            (Phase::Ready, _) => false,
            (Phase::Over, _) => false,
            (Phase::Settling { .. }, r) => r is HubPolled,
            (_, Reply::Failed(_)) => true,
            (Phase::Undoing { .. }, r) => r is Undo,
            (Phase::Validating { .. }, r) => r is File,
            (_, r) => r is Ops,
        }
    }

    /// How many instructions a reply holds.
    pub open spec fn instruction_count(reply: Reply) -> nat {
        match reply {
            Reply::Ops(r) => r.ops@.len(),
            Reply::Undo(r) => r.ops@.len(),
            _ => 0,
        }
    }

    /// Goes on with a reply.
    pub open spec fn answered(self, reply: Reply) -> (RunView, ActionView) {
        match (self.phase, reply) {
            (Phase::Settling { attempt }, _) => self.polling(attempt, 0),
            (_, Reply::Failed(e)) => self.failed(RunErrorView::Request(e@), true),
            (Phase::Syncing { editor, after }, Reply::Ops(r)) => self.synced(editor, after, r),
            (Phase::Undoing { editor, redo }, Reply::Undo(r)) => self.undone(editor, redo, r),
            (Phase::Pushing { editor }, Reply::Ops(r)) => self.pushed(editor, r),
            (Phase::Validating { editor }, Reply::File(s)) => self.validated(editor, s@),
            (Phase::Gathering { editor }, Reply::Ops(r)) => self.gathered(editor, r),
            (Phase::Polling { attempt, editor }, Reply::Ops(r)) => self.polled(attempt, editor, r),
            _ => self.ready(),
        }
    }
}

impl Run {
    /// Whether the run is in order.
    pub open spec fn wf(&self) -> bool {
        self@.wf() && self.limited()
    }

    /// Whether the history is as long as it should be.
    pub closed spec fn limited(&self) -> bool {
        self.diagnostics.limit() == HISTORY_LIMIT
    }

    /// Starts a run with the text that each editor was given when it opened the
    /// document.
    pub fn new(commands: Vec<TranscriptCommand>, contents: &[String]) -> (r: Run)
        requires
            commands@.len() < u32::MAX,
            contents@.len() == parser::editor_count(parser::command_views(commands@)),
        ensures
            r.wf(),
            r@ == (RunView {
                commands: parser::command_views(commands@),
                index: 0,
                spokes: Seq::new(contents@.len(), |i: int| spoke::opened(contents@[i]@)),
                phase: Phase::Ready,
                history: Seq::empty(),
            }),
    {
        proof {
            parser::lemma_editor_count_covers(parser::command_views(commands@));
        }
        let mut spokes: Vec<Spoke> = Vec::new();
        for i in 0..contents.len()
            invariant
                spokes@.len() == i,
                forall|j: int| 0 <= j < i ==> (#[trigger] spokes@[j])@ == spoke::opened(
                    contents@[j]@,
                ),
        {
            spokes.push(Spoke::new(contents[i].as_str()));
        }
        let r = Run {
            commands,
            index: 0,
            spokes,
            phase: Phase::Ready,
            diagnostics: DiagnosticState::new(HISTORY_LIMIT),
        };
        assert(r@.spokes =~= Seq::new(contents@.len(), |i: int| spoke::opened(contents@[i]@)));
        r
    }

    /// The editors.
    pub fn spokes(&self) -> (r: &[Spoke])
        ensures
            spoke::spoke_views(r@) == self@.spokes,
    {
        self.spokes.as_slice()
    }

    /// The last commands.
    pub fn diagnostics(&self) -> (r: &DiagnosticState)
        ensures
            r.history() == self@.history,
    {
        &self.diagnostics
    }

    fn fail(&mut self, error: RunError, report: bool) -> (r: Action)
        ensures
            (final(self)@, r@) == old(self)@.failed(error@, report),
            final(self).limited() == old(self).limited(),
    {
        self.phase = Phase::Over;
        Action::Fail { error, report }
    }

    fn finish_command(&mut self) -> (r: Action)
        ensures
            (final(self)@, r@) == old(self)@.ready(),
            final(self).limited() == old(self).limited(),
    {
        self.phase = Phase::Ready;
        Action::Next
    }

    fn start_sync(&mut self, editor: usize, phase: Phase) -> (r: Action)
        requires
            editor < old(self)@.spokes.len(),
        ensures
            (final(self)@, r@) == old(self)@.syncing(editor as nat, phase),
            final(self).limited() == old(self).limited(),
    {
        self.phase = phase;
        Action::SendOps { editor, ops: self.spokes[editor].pending_ops() }
    }

    fn start_poll(&mut self, attempt: usize, editor: usize) -> (r: Action)
        ensures
            (final(self)@, r@) == old(self)@.polling(attempt, editor),
            final(self).limited() == old(self).limited(),
    {
        self.phase = Phase::Polling { attempt, editor };
        let ops: Vec<EditorFatOp> = Vec::new();
        assert(types::fat_op_views(ops@) =~= Seq::<EditorFatOpView>::empty());
        Action::SendOps { editor, ops }
    }

    fn start_settling(&mut self, attempt: usize) -> (r: Action)
        ensures
            (final(self)@, r@) == old(self)@.settling(attempt),
            final(self).limited() == old(self).limited(),
    {
        self.phase = Phase::Settling { attempt };
        Action::PollHub
    }

    /// Starts the next command. A command that needs nothing from outside is
    /// done at once.
    pub fn advance(&mut self) -> (r: Action)
        requires
            old(self).wf(),
            old(self)@.phase is Ready,
        ensures
            final(self).wf(),
            (final(self)@, r@) == old(self)@.advanced(),
    {
        if self.index >= self.commands.len() {
            self.phase = Phase::Over;
            return Action::Finish;
        }
        let index: usize = self.index;
        let command = self.commands[index].clone();
        assert(self@.commands[index as int] == command@);
        self.diagnostics.record_command(index, command.clone());
        self.index = index + 1;
        let ghost before = spoke::spoke_views(self.spokes@);
        match command {
            TranscriptCommand::Move { editor, offset } => {
                self.spokes[editor].move_cursor(offset);
                assert(spoke::spoke_views(self.spokes@) =~= before.update(
                    editor as int,
                    spoke::moved(before[editor as int], offset),
                ));
                self.finish_command()
            },
            TranscriptCommand::Insert { editor, text } => {
                assert(before[editor as int] == self.spokes@[editor as int]@);
                self.spokes[editor].insert(text.as_str());
                assert(spoke::spoke_views(self.spokes@) =~= before.update(
                    editor as int,
                    spoke::typed(before[editor as int], text@),
                ));
                self.finish_command()
            },
            TranscriptCommand::Delete { editor, count } => {
                assert(before[editor as int] == self.spokes@[editor as int]@);
                self.spokes[editor].delete(count);
                assert(spoke::spoke_views(self.spokes@) =~= before.update(
                    editor as int,
                    spoke::erased(before[editor as int], count),
                ));
                self.finish_command()
            },
            TranscriptCommand::Undo { editor } => self.start_sync(
                editor,
                Phase::Syncing { editor, after: AfterSync::Undo },
            ),
            TranscriptCommand::Redo { editor } => self.start_sync(
                editor,
                Phase::Syncing { editor, after: AfterSync::Redo },
            ),
            TranscriptCommand::Send { editor } => self.start_sync(
                editor,
                Phase::Syncing { editor, after: AfterSync::Validate },
            ),
            TranscriptCommand::BeginGroup { editor } => {
                self.spokes[editor].begin_group();
                assert(spoke::spoke_views(self.spokes@) =~= before.update(
                    editor as int,
                    SpokeView { in_group: true, ..before[editor as int] },
                ));
                self.finish_command()
            },
            TranscriptCommand::EndGroup { editor } => {
                assert(before[editor as int] == self.spokes@[editor as int]@);
                self.spokes[editor].end_group();
                assert(spoke::spoke_views(self.spokes@) =~= before.update(
                    editor as int,
                    spoke::next_group(SpokeView { in_group: false, ..before[editor as int] }),
                ));
                self.finish_command()
            },
            TranscriptCommand::Check => self.start_sync(0, Phase::Gathering { editor: 0 }),
        }
    }

    fn on_synced(&mut self, editor: usize, after: AfterSync, reply: &OpsReply) -> (r: Action)
        requires
            old(self).wf(),
            old(self)@.phase == (Phase::Syncing { editor, after }),
            old(self)@.spokes[editor as int].doc.ops_applied + reply.ops@.len() <= usize::MAX,
        ensures
            final(self).wf(),
            (final(self)@, r@) == old(self)@.synced(editor, after, *reply),
    {
        let ghost before = spoke::spoke_views(self.spokes@);
        assert(before[editor as int] == self.spokes@[editor as int]@);
        let outcome = self.spokes[editor].apply_remote(&reply.ops);
        let ghost (s, error) = spoke::tried(
            before[editor as int],
            spoke::instructions(reply.ops@),
        );
        assert(spoke::spoke_views(self.spokes@) =~= before.update(editor as int, s));
        match outcome {
            Err(e) => self.fail(RunError::Apply(e), true),
            Ok(_) => {
                self.spokes[editor].flush();
                assert(spoke::spoke_views(self.spokes@) =~= before.update(
                    editor as int,
                    spoke::flushed(s),
                ));
                let mock_len: usize = byte_count(self.spokes[editor].content().as_str());
                if mock_len as u64 != reply.doc_len {
                    return self.fail(
                        RunError::Length { editor, mock_len, doc_len: reply.doc_len },
                        true,
                    );
                }
                match after {
                    AfterSync::Undo => {
                        self.phase = Phase::Undoing { editor, redo: false };
                        Action::SendUndo { editor, redo: false }
                    },
                    AfterSync::Redo => {
                        self.phase = Phase::Undoing { editor, redo: true };
                        Action::SendUndo { editor, redo: true }
                    },
                    AfterSync::Validate => {
                        self.phase = Phase::Validating { editor };
                        Action::OpenFile { editor }
                    },
                }
            },
        }
    }

    fn on_undone(&mut self, editor: usize, redo: bool, reply: &UndoReply) -> (r: Action)
        requires
            old(self).wf(),
            old(self)@.phase == (Phase::Undoing { editor, redo }),
            old(self)@.spokes[editor as int].doc.ops_applied + reply.ops@.len() <= usize::MAX,
        ensures
            final(self).wf(),
            (final(self)@, r@) == old(self)@.undone(editor, redo, *reply),
    {
        if reply.ops.len() == 0 {
            return self.finish_command();
        }
        let ghost before = spoke::spoke_views(self.spokes@);
        assert(before[editor as int] == self.spokes@[editor as int]@);
        let outcome = self.spokes[editor].apply(&reply.ops);
        let ghost (s, error) = spoke::tried(before[editor as int], reply.ops@);
        assert(spoke::spoke_views(self.spokes@) =~= before.update(editor as int, s));
        match outcome {
            Err(e) => self.fail(RunError::Apply(e), true),
            Ok(_) => {
                let op = if redo {
                    EditorOp::Redo { context: reply.context }
                } else {
                    EditorOp::Undo { context: reply.context }
                };
                let mut ops: Vec<EditorFatOp> = Vec::new();
                ops.push(EditorFatOp { op, group_seq: self.spokes[editor].group_seq() });
                self.phase = Phase::Pushing { editor };
                assert(types::fat_op_views(ops@) =~= seq![ops@[0]@]);
                Action::SendOps { editor, ops }
            },
        }
    }

    fn on_pushed(&mut self, editor: usize, reply: &OpsReply) -> (r: Action)
        requires
            old(self).wf(),
            old(self)@.phase == (Phase::Pushing { editor }),
            old(self)@.spokes[editor as int].doc.ops_applied + reply.ops@.len() <= usize::MAX,
        ensures
            final(self).wf(),
            (final(self)@, r@) == old(self)@.pushed(editor, *reply),
    {
        let ghost before = spoke::spoke_views(self.spokes@);
        assert(before[editor as int] == self.spokes@[editor as int]@);
        let outcome = self.spokes[editor].apply_remote(&reply.ops);
        let ghost (s, error) = spoke::tried(
            before[editor as int],
            spoke::instructions(reply.ops@),
        );
        assert(spoke::spoke_views(self.spokes@) =~= before.update(editor as int, s));
        match outcome {
            Err(e) => self.fail(RunError::Apply(e), true),
            Ok(_) => {
                self.spokes[editor].advance_group();
                assert(spoke::spoke_views(self.spokes@) =~= before.update(
                    editor as int,
                    spoke::next_group(s),
                ));
                self.finish_command()
            },
        }
    }

    fn on_gathered(&mut self, editor: usize, reply: &OpsReply) -> (r: Action)
        requires
            old(self).wf(),
            old(self)@.phase == (Phase::Gathering { editor }),
            old(self)@.spokes[editor as int].doc.ops_applied + reply.ops@.len() <= usize::MAX,
        ensures
            final(self).wf(),
            (final(self)@, r@) == old(self)@.gathered(editor, *reply),
    {
        let ghost before = spoke::spoke_views(self.spokes@);
        assert(before[editor as int] == self.spokes@[editor as int]@);
        let outcome = self.spokes[editor].apply_remote(&reply.ops);
        let ghost (s, error) = spoke::tried(
            before[editor as int],
            spoke::instructions(reply.ops@),
        );
        assert(spoke::spoke_views(self.spokes@) =~= before.update(editor as int, s));
        match outcome {
            Err(e) => self.fail(RunError::Apply(e), true),
            Ok(_) => {
                self.spokes[editor].flush();
                assert(spoke::spoke_views(self.spokes@) =~= before.update(
                    editor as int,
                    spoke::flushed(s),
                ));
                let n: usize = self.spokes.len();
                if editor + 1 < n {
                    self.start_sync(editor + 1, Phase::Gathering { editor: editor + 1 })
                } else {
                    self.start_settling(0)
                }
            },
        }
    }

    /// Whether all editors heard of the same operation last, and nothing is on
    /// its way.
    pub fn is_converged(&self) -> (r: bool)
        requires
            self@.spokes.len() > 0,
        ensures
            r == self@.converged(),
    {
        let first = self.spokes[0].global_seq();
        assert(self@.spokes[0] == self.spokes@[0]@);
        for i in 0..self.spokes.len()
            invariant
                first == self@.spokes[0].global_seq,
                self@.spokes == spoke::spoke_views(self.spokes@),
                forall|j: int|
                    0 <= j < i ==> (#[trigger] self@.spokes[j]).global_seq == first
                        && self@.spokes[j].pending_count == 0,
        {
            assert(self@.spokes[i as int] == self.spokes@[i as int]@);
            if self.spokes[i].global_seq() != first || self.spokes[i].pending_count() != 0 {
                return false;
            }
        }
        true
    }

    fn first_odd_one(&self) -> (r: Option<usize>)
        requires
            self@.spokes.len() > 0,
        ensures
            match r {
                Some(i) => self@.odd_one(0) == Some(i as int) && i < self@.spokes.len(),
                None => self@.odd_one(0) is None,
            },
    {
        let expected = self.spokes[0].content();
        assert(self@.spokes[0] == self.spokes@[0]@);
        for i in 0..self.spokes.len()
            invariant
                expected@ == self@.spokes[0].doc.content,
                self@.spokes == spoke::spoke_views(self.spokes@),
                self@.odd_one(0) == self@.odd_one(i as int),
        {
            assert(self@.spokes[i as int] == self.spokes@[i as int]@);
            if self.spokes[i].content() != expected {
                return Some(i);
            }
        }
        None
    }

    /// How many instructions the documents have seen, by editor.
    pub fn ops_counts(&self) -> (r: Vec<u64>)
        ensures
            number::nats(r@) == self@.ops_counts(),
    {
        let mut r: Vec<u64> = Vec::new();
        for i in 0..self.spokes.len()
            invariant
                r@.len() == i,
                forall|j: int| 0 <= j < i ==> r@[j] == self.spokes@[j]@.ops_count,
        {
            r.push(self.spokes[i].ops_count() as u64);
        }
        assert(number::nats(r@) =~= self@.ops_counts());
        r
    }

    /// The sequence numbers that the editors last heard of.
    pub fn global_seqs(&self) -> (r: Vec<u64>)
        ensures
            number::nats(r@) == self@.global_seqs(),
    {
        let mut r: Vec<u64> = Vec::new();
        for i in 0..self.spokes.len()
            invariant
                r@.len() == i,
                forall|j: int| 0 <= j < i ==> r@[j] == self.spokes@[j]@.global_seq,
        {
            r.push(self.spokes[i].global_seq() as u64);
        }
        assert(number::nats(r@) =~= self@.global_seqs());
        r
    }

    /// How many operations are on their way, by editor.
    pub fn pending_counts(&self) -> (r: Vec<u64>)
        ensures
            number::nats(r@) == self@.pending_counts(),
    {
        let mut r: Vec<u64> = Vec::new();
        for i in 0..self.spokes.len()
            invariant
                r@.len() == i,
                forall|j: int| 0 <= j < i ==> r@[j] == self.spokes@[j]@.pending_count,
        {
            r.push(self.spokes[i].pending_count() as u64);
        }
        assert(number::nats(r@) =~= self@.pending_counts());
        r
    }

    fn compare(&mut self) -> (r: Action)
        requires
            old(self)@.spokes.len() > 0,
        ensures
            (final(self)@, r@) == old(self)@.compared(),
            final(self).limited() == old(self).limited(),
    {
        match self.first_odd_one() {
            Some(i) => {
                assert(self@.spokes[i as int] == self.spokes@[i as int]@);
                assert(self@.spokes[0] == self.spokes@[0]@);
                let error = RunError::Content {
                    editor: i,
                    content: self.spokes[i].content(),
                    expected: self.spokes[0].content(),
                    ops_counts: self.ops_counts(),
                };
                self.fail(error, false)
            },
            None => self.finish_command(),
        }
    }

    fn on_polled(&mut self, attempt: usize, editor: usize, reply: &OpsReply) -> (r: Action)
        requires
            old(self).wf(),
            old(self)@.phase == (Phase::Polling { attempt, editor }),
            old(self)@.spokes[editor as int].doc.ops_applied + reply.ops@.len() <= usize::MAX,
        ensures
            final(self).wf(),
            (final(self)@, r@) == old(self)@.polled(attempt, editor, *reply),
    {
        let ghost before = spoke::spoke_views(self.spokes@);
        assert(before[editor as int] == self.spokes@[editor as int]@);
        let outcome = self.spokes[editor].apply_remote(&reply.ops);
        let ghost (s, error) = spoke::tried(
            before[editor as int],
            spoke::instructions(reply.ops@),
        );
        assert(spoke::spoke_views(self.spokes@) =~= before.update(editor as int, s));
        match outcome {
            Err(e) => self.fail(RunError::Apply(e), true),
            Ok(_) => {
                self.spokes[editor].note(reply.last_global_seq, reply.pending_local_ops);
                assert(spoke::spoke_views(self.spokes@) =~= before.update(
                    editor as int,
                    SpokeView {
                        global_seq: reply.last_global_seq as nat,
                        pending_count: reply.pending_local_ops as nat,
                        ..s
                    },
                ));
                let n: usize = self.spokes.len();
                if editor + 1 < n {
                    self.start_poll(attempt, editor + 1)
                } else if self.is_converged() {
                    self.compare()
                } else if attempt + 1 >= MAX_ATTEMPTS {
                    let error = RunError::NotConverged {
                        global_seqs: self.global_seqs(),
                        pending_counts: self.pending_counts(),
                        ops_counts: self.ops_counts(),
                    };
                    self.fail(error, false)
                } else {
                    self.start_settling(attempt + 1)
                }
            },
        }
    }

    fn on_validated(&mut self, editor: usize, server: String) -> (r: Action)
        requires
            old(self).wf(),
            old(self)@.phase == (Phase::Validating { editor }),
        ensures
            final(self).wf(),
            (final(self)@, r@) == old(self)@.validated(editor, server@),
    {
        assert(self@.spokes[editor as int] == self.spokes@[editor as int]@);
        let mock = self.spokes[editor].content();
        if server != mock {
            self.fail(RunError::Sync { editor, server, mock }, true)
        } else {
            self.finish_command()
        }
    }

    /// Goes on with the reply to what was asked last.
    pub fn answer(&mut self, reply: Reply) -> (r: Action)
        requires
            old(self).wf(),
            old(self)@.expects(reply),
            match old(self)@.awaited() {
                Some(e) => old(self)@.spokes[e as int].doc.ops_applied
                    + RunView::instruction_count(reply) <= usize::MAX,
                None => true,
            },
        ensures
            final(self).wf(),
            (final(self)@, r@) == old(self)@.answered(reply),
    {
        match (self.phase, reply) {
            (Phase::Settling { attempt }, _) => self.start_poll(attempt, 0),
            (_, Reply::Failed(e)) => self.fail(RunError::Request(e), true),
            (Phase::Syncing { editor, after }, Reply::Ops(r)) => self.on_synced(editor, after, &r),
            (Phase::Undoing { editor, redo }, Reply::Undo(r)) => self.on_undone(editor, redo, &r),
            (Phase::Pushing { editor }, Reply::Ops(r)) => self.on_pushed(editor, &r),
            (Phase::Validating { editor }, Reply::File(s)) => self.on_validated(editor, s),
            (Phase::Gathering { editor }, Reply::Ops(r)) => self.on_gathered(editor, &r),
            (Phase::Polling { attempt, editor }, Reply::Ops(r)) => self.on_polled(
                attempt,
                editor,
                &r,
            ),
            _ => self.finish_command(),
        }
    }
}

// *** What a run promises

/// A check that passes leaves every editor with the same text, and with nothing
/// on its way.
pub proof fn lemma_check_means_same(s: RunView, attempt: usize, editor: usize, reply: OpsReply)
    requires
        s.wf(),
        s.phase == (Phase::Polling { attempt, editor }),
        s.polled(attempt, editor, reply).1 is Next,
    ensures
        ({
            let after = s.polled(attempt, editor, reply).0;
            &&& after.phase is Ready
            &&& after.converged()
            &&& forall|i: int|
                0 <= i < after.spokes.len() ==> (#[trigger] after.spokes[i]).doc.content
                    == after.spokes[0].doc.content
        }),
{
    let after = s.polled(attempt, editor, reply).0;
    let (t, error) = spoke::tried(s.spokes[editor as int], spoke::instructions(reply.ops@));
    let next = s.with_spoke(
        editor as int,
        SpokeView {
            global_seq: reply.last_global_seq as nat,
            pending_count: reply.pending_local_ops as nat,
            ..t
        },
    );
    lemma_no_odd_one(next, 0);
    assert(after.spokes == next.spokes);
}

proof fn lemma_no_odd_one(s: RunView, from: int)
    requires
        0 <= from,
        s.odd_one(from) is None,
    ensures
        forall|i: int|
            from <= i < s.spokes.len() ==> (#[trigger] s.spokes[i]).doc.content
                == s.spokes[0].doc.content,
    decreases s.spokes.len() - from,
{
    if from < s.spokes.len() {
        lemma_no_odd_one(s, from + 1);
    }
}

/// A check gives up after its last attempt, and not before: while attempts are
/// left and the editors have not come to rest, there is another one.
pub proof fn lemma_check_attempts(s: RunView, attempt: usize, editor: usize, reply: OpsReply)
    requires
        s.wf(),
        s.phase == (Phase::Polling { attempt, editor }),
        editor + 1 == s.spokes.len(),
    ensures
        s.polled(attempt, editor, reply).1 matches ActionView::Fail { error, .. } ==> (
        error is NotConverged ==> attempt == MAX_ATTEMPTS - 1),
        s.polled(attempt, editor, reply).1 is PollHub ==> s.polled(attempt, editor, reply).0.phase
            == (Phase::Settling { attempt: (attempt + 1) as usize }),
{
}

} // verus!
