//! What documents, editors and runs promise, said of their characters, operations
//! and requests.

use crate::transcript::document;
use crate::transcript::document::{ApplyErrorView, DocView};
use crate::transcript::parser::CommandView;
use crate::transcript::runner;
use crate::transcript::runner::{
    ActionView, OpsReply, Phase, Reply, RunErrorView, RunView, UndoReply, MAX_ATTEMPTS,
};
use crate::transcript::spoke;
use crate::transcript::spoke::SpokeView;
use crate::types::{Edit, EditInstruction, EditorFatOpView, EditorOpView};
use vstd::prelude::*;
use vstd::string::*;

verus! {

// *** Documents

/// Whether `after` is `before` with `piece` put in at `pos`, character by
/// character.
pub open spec fn put_in(before: Seq<char>, after: Seq<char>, pos: int, piece: Seq<char>) -> bool {
    &&& after.len() == before.len() + piece.len()
    &&& forall|i: int| 0 <= i < pos ==> #[trigger] after[i] == before[i]
    &&& forall|i: int| 0 <= i < piece.len() ==> after[pos + i] == #[trigger] piece[i]
    &&& forall|i: int| pos <= i < before.len() ==> after[i + piece.len()] == #[trigger] before[i]
}

/// What is typed stands at the cursor, everything else stays in its order, and
/// the cursor ends up behind it. Others are told of the place and the text.
pub proof fn lemma_insert_writes(doc: DocView, text: Seq<char>)
    requires
        doc.cursor <= doc.content.len(),
    ensures
        put_in(doc.content, document::inserted(doc, text).content, doc.cursor as int, text),
        document::inserted(doc, text).cursor == doc.cursor + text.len(),
        document::inserted(doc, text).ops_applied == doc.ops_applied,
        document::insert_op(doc, text) == (EditorOpView::Ins { pos: doc.cursor, content: text }),
{
}

/// A deletion takes out characters before the cursor where the count is
/// positive and behind it where it is negative, as many as asked for or as there
/// are. What is left is what stood around them. Others are told of the place and
/// of the characters that are gone.
pub proof fn lemma_delete_takes_out(doc: DocView, count: i64)
    requires
        doc.cursor <= doc.content.len(),
    ensures
        ({
            let after = document::deleted(doc, count);
            let gone = doc.content.len() - after.content.len();
            let behind = doc.content.len() - doc.cursor;
            &&& count > 0 ==> gone == if count <= doc.cursor {
                count as int
            } else {
                doc.cursor as int
            } && after.cursor == doc.cursor - gone
            &&& count <= 0 ==> gone == if -count <= behind {
                -count
            } else {
                behind
            } && after.cursor == doc.cursor
            &&& put_in(
                after.content,
                doc.content,
                after.cursor as int,
                doc.content.subrange(after.cursor as int, after.cursor + gone),
            )
            &&& after.ops_applied == doc.ops_applied
            &&& document::deletes(doc, count) <==> gone > 0
            &&& gone > 0 ==> document::delete_op(doc, count) == (EditorOpView::Del {
                pos: after.cursor,
                content: doc.content.subrange(after.cursor as int, after.cursor + gone),
            })
        }),
{
}

/// The cursor moves by the offset, and stops at either end. Nothing else
/// changes.
pub proof fn lemma_move_stops_at_ends(doc: DocView, offset: i64)
    ensures
        ({
            let after = document::moved(doc, offset);
            let to = doc.cursor + offset;
            let len = doc.content.len();
            &&& after.content == doc.content
            &&& after.ops_applied == doc.ops_applied
            &&& to < 0 ==> after.cursor == 0
            &&& to > len ==> after.cursor == len
            &&& 0 <= to <= len ==> after.cursor == to
        }),
{
}

/// A document that was just made holds the text, with the cursor at its start.
pub proof fn lemma_fresh(content: Seq<char>)
    ensures
        document::fresh(content).content == content,
        document::fresh(content).cursor == 0,
        document::fresh(content).ops_applied == 0,
{
}

/// The edits of an instruction.
pub open spec fn edits_of(instr: EditInstruction) -> Seq<Edit> {
    match instr {
        EditInstruction::Ins { edits } => edits@,
        EditInstruction::Del { edits } => edits@,
    }
}

/// An instruction counts, whatever comes of it; one without edits does nothing
/// else; one that fails leaves the cursor.
pub proof fn lemma_instruction_counts(doc: DocView, instr: EditInstruction)
    ensures
        ({
            let (after, error) = document::applied(doc, instr);
            &&& after.ops_applied == doc.ops_applied + 1
            &&& edits_of(instr).len() == 0 ==> error is None && after.content == doc.content
                && after.cursor == doc.cursor
            &&& error is Some ==> after.cursor == doc.cursor
        }),
{
}

/// An instruction with one insertion puts the text in at its position and the
/// cursor behind it; a position behind the end is reported and changes nothing.
pub proof fn lemma_one_insertion(doc: DocView, instr: EditInstruction)
    requires
        instr is Ins,
        edits_of(instr).len() == 1,
    ensures
        ({
            let e = edits_of(instr)[0];
            let (after, error) = document::applied(doc, instr);
            &&& e.pos <= doc.content.len() ==> {
                &&& error is None
                &&& put_in(doc.content, after.content, e.pos as int, e.content@)
                &&& after.cursor == e.pos + e.content@.len()
            }
            &&& e.pos > doc.content.len() ==> {
                &&& after.content == doc.content
                &&& error == Some(
                    ApplyErrorView::InsertOutOfBounds {
                        pos: e.pos as nat,
                        doc_len: doc.content.len(),
                        text: e.content@,
                    },
                )
            }
        }),
{
    let edits = edits_of(instr);
    let e = edits[0];
    assert(edits.last() == e);
    assert(edits.drop_last() =~= Seq::<Edit>::empty());
    assert(document::total_len(edits.drop_last()) == 0);
    if e.pos <= doc.content.len() {
        let next = document::spliced(doc.content, e.pos as int, e.content@);
        assert(document::insert_all(next, edits.drop_last()).0 == next);
    }
}

/// An instruction with one deletion takes the text out where it stands, and puts
/// the cursor there; other characters at that place, or too few, are reported and
/// nothing changes.
pub proof fn lemma_one_deletion(doc: DocView, instr: EditInstruction)
    requires
        instr is Del,
        edits_of(instr).len() == 1,
    ensures
        ({
            let e = edits_of(instr)[0];
            let end = e.pos + e.content@.len();
            let (after, error) = document::applied(doc, instr);
            let there = end <= doc.content.len() && forall|i: int|
                0 <= i < e.content@.len() ==> doc.content[e.pos + i] == #[trigger] e.content@[i];
            &&& there ==> {
                &&& error is None
                &&& put_in(after.content, doc.content, e.pos as int, e.content@)
                &&& after.cursor == e.pos
            }
            &&& !there ==> error is Some && after.content == doc.content
            &&& end > doc.content.len() ==> error == Some(
                ApplyErrorView::DeleteOutOfRange {
                    pos: e.pos as nat,
                    doc_len: doc.content.len(),
                    text: e.content@,
                },
            )
            &&& !there && end <= doc.content.len() ==> error == Some(
                ApplyErrorView::DeleteMismatch {
                    pos: e.pos as nat,
                    expected: e.content@,
                    actual: doc.content.subrange(e.pos as int, end),
                },
            )
        }),
{
    let edits = edits_of(instr);
    let e = edits[0];
    assert(edits.last() == e);
    assert(edits.drop_last() =~= Seq::<Edit>::empty());
    let end = e.pos + e.content@.len();
    if end <= doc.content.len() {
        let here = doc.content.subrange(e.pos as int, end);
        let next = document::cut(doc.content, e.pos as int, end);
        assert(document::delete_all(next, edits.drop_last()).0 == next);
        let there = forall|i: int|
            0 <= i < e.content@.len() ==> doc.content[e.pos + i] == #[trigger] e.content@[i];
        if there {
            assert(here =~= e.content@);
        } else if here == e.content@ {
            assert forall|i: int| 0 <= i < e.content@.len() implies doc.content[e.pos + i]
                == #[trigger] e.content@[i] by {
                assert(here[i] == e.content@[i]);
            }
        }
    }
}

proof fn lemma_insert_all_concat(doc: Seq<char>, a: Seq<Edit>, b: Seq<Edit>)
    ensures
        ({
            let (mid, error) = document::insert_all(doc, b);
            document::insert_all(doc, a + b) == if error is Some {
                (mid, error)
            } else {
                document::insert_all(mid, a)
            }
        }),
    decreases b.len(),
{
    if b.len() == 0 {
        assert(a + b =~= a);
    } else {
        let e = b.last();
        assert((a + b).last() == e);
        assert((a + b).drop_last() =~= a + b.drop_last());
        if e.pos <= doc.len() {
            lemma_insert_all_concat(
                document::spliced(doc, e.pos as int, e.content@),
                a,
                b.drop_last(),
            );
        }
    }
}

proof fn lemma_delete_all_concat(doc: Seq<char>, a: Seq<Edit>, b: Seq<Edit>)
    ensures
        ({
            let (mid, error) = document::delete_all(doc, b);
            document::delete_all(doc, a + b) == if error is Some {
                (mid, error)
            } else {
                document::delete_all(mid, a)
            }
        }),
    decreases b.len(),
{
    if b.len() == 0 {
        assert(a + b =~= a);
    } else {
        let e = b.last();
        assert((a + b).last() == e);
        assert((a + b).drop_last() =~= a + b.drop_last());
        lemma_delete_all_concat(
            document::cut(doc, e.pos as int, e.pos + e.content@.len()),
            a,
            b.drop_last(),
        );
    }
}

/// An instruction makes its edits from the last to the first, and stops at the
/// first that fails: it does to the text what an instruction with the edits at
/// its end does, followed by one with the others.
pub proof fn lemma_edits_from_the_end(
    doc: DocView,
    whole: EditInstruction,
    front: EditInstruction,
    back: EditInstruction,
)
    requires
        whole is Ins == front is Ins,
        whole is Ins == back is Ins,
        edits_of(whole) == edits_of(front) + edits_of(back),
    ensures
        ({
            let (mid, first_error) = document::applied(doc, back);
            let (end, second_error) = document::applied(mid, front);
            let (after, error) = document::applied(doc, whole);
            &&& first_error is Some ==> error == first_error && after.content == mid.content
            &&& first_error is None ==> error == second_error && after.content == end.content
        }),
{
    match whole {
        EditInstruction::Ins { .. } => lemma_insert_all_concat(
            doc.content,
            edits_of(front),
            edits_of(back),
        ),
        EditInstruction::Del { .. } => lemma_delete_all_concat(
            doc.content,
            edits_of(front),
            edits_of(back),
        ),
    }
}

proof fn lemma_grown(doc: Seq<char>, edits: Seq<Edit>)
    requires
        document::insert_all(doc, edits).1 is None,
    ensures
        document::insert_all(doc, edits).0.len() == doc.len() + document::total_len(edits),
    decreases edits.len(),
{
    if edits.len() > 0 {
        let e = edits.last();
        lemma_grown(document::spliced(doc, e.pos as int, e.content@), edits.drop_last());
    }
}

proof fn lemma_lowest(edits: Seq<Edit>)
    requires
        edits.len() > 0,
    ensures
        forall|i: int| 0 <= i < edits.len() ==> document::min_pos(edits) <= (#[trigger] edits[i]).pos,
        exists|i: int| 0 <= i < edits.len() && (#[trigger] edits[i]).pos == document::min_pos(edits),
    decreases edits.len(),
{
    if edits.len() == 1 {
        assert(edits[0].pos == document::min_pos(edits));
    } else {
        let short = edits.drop_last();
        lemma_lowest(short);
        assert forall|i: int| 0 <= i < edits.len() implies document::min_pos(edits) <= (
        #[trigger] edits[i]).pos by {
            if i < short.len() {
                assert(short[i] == edits[i]);
            }
        }
        let k = choose|k: int|
            0 <= k < short.len() && (#[trigger] short[k]).pos == document::min_pos(short);
        assert(edits[k] == short[k]);
        assert(edits[edits.len() - 1] == edits.last());
    }
}

/// Insertions never reach out of range, and neither does a list of deletions
/// that can all be done. One deletion does if it names more characters than
/// there are from its place on.
pub proof fn lemma_in_range(doc: DocView, instr: EditInstruction)
    ensures
        instr is Ins ==> document::in_range(doc, instr),
        document::applied(doc, instr).1 is None ==> document::in_range(doc, instr),
        instr is Del && edits_of(instr).len() == 1 ==> (document::in_range(doc, instr) <==> edits_of(
            instr,
        )[0].pos + edits_of(instr)[0].content@.len() <= doc.content.len()),
{
    match instr {
        EditInstruction::Ins { edits } => lemma_insertions_in_range(doc.content, edits@),
        EditInstruction::Del { .. } => {
            if edits_of(instr).len() == 1 {
                lemma_one_deletion(doc, instr);
            }
        },
    }
}

proof fn lemma_insertions_in_range(doc: Seq<char>, edits: Seq<Edit>)
    ensures
        document::insert_all(doc, edits).1 is Some ==> document::insert_all(
            doc,
            edits,
        ).1->0 is InsertOutOfBounds,
    decreases edits.len(),
{
    if edits.len() > 0 {
        let e = edits.last();
        lemma_insertions_in_range(
            document::spliced(doc, e.pos as int, e.content@),
            edits.drop_last(),
        );
    }
}

/// After insertions the cursor stands behind the last one, counted with all that
/// was inserted; after deletions it stands at the first place that any of them
/// names.
pub proof fn lemma_cursor_after_edits(doc: DocView, instr: EditInstruction)
    requires
        edits_of(instr).len() > 0,
        document::applied(doc, instr).1 is None,
    ensures
        ({
            let after = document::applied(doc, instr).0;
            let edits = edits_of(instr);
            &&& instr is Ins ==> after.cursor == edits.last().pos + (after.content.len()
                - doc.content.len())
            &&& instr is Del ==> forall|i: int|
                0 <= i < edits.len() ==> after.cursor <= (#[trigger] edits[i]).pos
            &&& instr is Del ==> exists|i: int|
                0 <= i < edits.len() && (#[trigger] edits[i]).pos == after.cursor
        }),
{
    match instr {
        EditInstruction::Ins { edits } => lemma_grown(doc.content, edits@),
        EditInstruction::Del { edits } => lemma_lowest(edits@),
    }
}

// *** Editors

/// An editor that opened a document has its text, the cursor at the start, and
/// nothing to send. Its first group has the number one.
pub proof fn lemma_opened(content: Seq<char>)
    ensures
        ({
            let s = spoke::opened(content);
            &&& s.doc.content == content
            &&& s.doc.cursor == 0
            &&& s.doc.ops_applied == 0
            &&& s.pending.len() == 0
            &&& s.group_seq == 1
            &&& !s.in_group
            &&& s.ops_count == 0
            &&& s.global_seq == 0
            &&& s.pending_count == 0
        }),
{
}

/// Instructions are applied one after the other, up to the first that fails.
pub proof fn lemma_instructions_in_turn(
    doc: DocView,
    a: Seq<EditInstruction>,
    b: Seq<EditInstruction>,
)
    ensures
        ({
            let (mid, error) = spoke::applied_all(doc, a);
            &&& error is Some ==> spoke::applied_all(doc, a + b) == (mid, error)
            &&& error is None ==> spoke::applied_all(doc, a + b) == spoke::applied_all(mid, b)
        }),
        spoke::applied_all(doc, Seq::empty()) == (doc, None::<ApplyErrorView>),
        a.len() == 1 ==> spoke::applied_all(doc, a) == document::applied(doc, a[0]),
    decreases a.len(),
{
    if a.len() == 0 {
        assert(a + b =~= b);
    } else {
        let (next, error) = document::applied(doc, a[0]);
        assert((a + b)[0] == a[0]);
        assert((a + b).drop_first() =~= a.drop_first() + b);
        lemma_instructions_in_turn(next, a.drop_first(), b);
        if a.len() == 1 {
            assert(a.drop_first() =~= Seq::<EditInstruction>::empty());
            assert(spoke::applied_all(next, a.drop_first()) == (next, None::<ApplyErrorView>));
        }
    }
}

// *** Commands of a run

/// Whether only one editor changed, if any.
pub open spec fn others_stay(before: RunView, after: RunView, e: int) -> bool {
    &&& after.spokes.len() == before.spokes.len()
    &&& forall|i: int|
        0 <= i < before.spokes.len() && i != e ==> #[trigger] after.spokes[i] == before.spokes[i]
}

/// Whether a run is in order, with no more editors than can be numbered.
pub open spec fn sound(s: RunView) -> bool {
    s.wf() && s.spokes.len() <= usize::MAX
}

/// Whether a run can start a command.
pub open spec fn can_start(s: RunView) -> bool {
    sound(s) && s.phase is Ready && s.index < s.commands.len()
}

/// The command that a run starts next.
pub open spec fn next_command(s: RunView) -> CommandView
    recommends
        s.index < s.commands.len(),
{
    s.commands[s.index as int]
}

/// Commands start in the order of the script, one at a time, and each is noted.
/// Behind the last one the run is over.
pub proof fn lemma_commands_in_order(s: RunView)
    requires
        s.wf(),
        s.phase is Ready,
    ensures
        ({
            let (after, action) = s.advanced();
            &&& after.commands == s.commands
            &&& s.index < s.commands.len() ==> {
                &&& after.index == s.index + 1
                &&& after.history.len() > 0
                &&& after.history.last() == (s.index, s.commands[s.index as int])
                &&& !(action is Finish) && !(action is Fail)
            }
            &&& s.index >= s.commands.len() ==> action is Finish && after.phase is Over
                && after.spokes == s.spokes
        }),
{
}

/// The history holds the last ten commands that started.
pub proof fn lemma_history_of_ten(s: RunView)
    requires
        can_start(s),
        s.history.len() <= 10,
    ensures
        ({
            let after = s.advanced().0;
            let n = after.history.len();
            &&& s.history.len() < 10 ==> n == s.history.len() + 1 && forall|i: int|
                0 <= i < s.history.len() ==> #[trigger] after.history[i] == s.history[i]
            &&& s.history.len() == 10 ==> n == 10 && forall|i: int|
                0 <= i < 9 ==> #[trigger] after.history[i] == s.history[i + 1]
        }),
{
}

/// Typing, deleting and moving are done at once in the document of the editor.
/// What was typed or deleted waits to be sent, behind what waits already, with the
/// number of the group; outside of a group the next operation gets the next
/// number. No other editor is touched.
pub proof fn lemma_edits_wait(s: RunView)
    requires
        can_start(s),
        next_command(s) is Insert || next_command(s) is Delete || next_command(s) is Move,
    ensures
        ({
            let (after, action) = s.advanced();
            let e = next_command(s).editor()->0 as int;
            let (old, new) = (s.spokes[e], after.spokes[e]);
            let next_group = if old.in_group {
                old.group_seq
            } else {
                old.group_seq + 1
            };
            &&& action is Next && after.phase is Ready
            &&& others_stay(s, after, e)
            &&& new.in_group == old.in_group && new.ops_count == old.ops_count && new.global_seq
                == old.global_seq && new.pending_count == old.pending_count
            &&& next_command(s) matches CommandView::Move { offset, .. } ==> new.doc
                == document::moved(old.doc, offset as i64) && new.pending == old.pending
                && new.group_seq == old.group_seq
            &&& next_command(s) matches CommandView::Insert { text, .. } ==> {
                &&& new.doc == document::inserted(old.doc, text)
                &&& new.pending == old.pending.push(
                    EditorFatOpView {
                        op: document::insert_op(old.doc, text),
                        group_seq: old.group_seq,
                    },
                )
                &&& new.group_seq == next_group
            }
            &&& next_command(s) matches CommandView::Delete { count, .. } ==> {
                &&& new.doc == document::deleted(old.doc, count as i64)
                &&& document::deletes(old.doc, count as i64) ==> new.pending == old.pending.push(
                    EditorFatOpView {
                        op: document::delete_op(old.doc, count as i64),
                        group_seq: old.group_seq,
                    },
                ) && new.group_seq == next_group
                &&& !document::deletes(old.doc, count as i64) ==> new.pending == old.pending
                    && new.group_seq == old.group_seq
            }
        }),
{
}

/// A group is opened and closed without any other effect, except that the number
/// goes up at its end.
pub proof fn lemma_group_opens_and_closes(s: RunView)
    requires
        can_start(s),
        next_command(s) is BeginGroup || next_command(s) is EndGroup,
    ensures
        ({
            let (after, action) = s.advanced();
            let e = next_command(s).editor()->0 as int;
            let (old, new) = (s.spokes[e], after.spokes[e]);
            &&& action is Next && after.phase is Ready
            &&& others_stay(s, after, e)
            &&& new.doc == old.doc && new.pending == old.pending && new.ops_count == old.ops_count
                && new.global_seq == old.global_seq && new.pending_count == old.pending_count
            &&& new.in_group == next_command(s) is BeginGroup
            &&& next_command(s) is BeginGroup ==> new.group_seq == old.group_seq
            &&& next_command(s) is EndGroup ==> new.group_seq == old.group_seq + 1
        }),
{
}

/// Sending, undoing, redoing and checking all start by sending what waits: that
/// of the editor, or of the first one for a check. Nothing changes yet.
pub proof fn lemma_pending_is_sent(s: RunView)
    requires
        can_start(s),
        next_command(s) is Send || next_command(s) is Undo || next_command(s) is Redo
            || next_command(s) is Check,
    ensures
        ({
            let (after, action) = s.advanced();
            let e = if next_command(s) is Check {
                0
            } else {
                next_command(s).editor()->0
            };
            &&& after.spokes == s.spokes
            &&& action == (ActionView::SendOps { editor: e, ops: s.spokes[e as int].pending })
        }),
{
}

// *** Replies

/// Whether instructions are those of the operations of a reply, in order.
pub open spec fn instructions_in(instrs: Seq<EditInstruction>, reply: OpsReply) -> bool {
    &&& instrs.len() == reply.ops@.len()
    &&& forall|i: int| 0 <= i < instrs.len() ==> #[trigger] instrs[i] == reply.ops@[i].op
}

/// The reply to what an editor sent brings the instructions of others. Where one
/// of them fails the run fails. Otherwise all are in the document, nothing waits
/// to be sent any more, and the server's length is held against the document's in
/// bytes. Then comes what the command was for: the server's text after a send, the
/// request to undo after an undo, the request to redo after a redo.
pub proof fn lemma_sent_operations_are_gone(
    s: RunView,
    reply: OpsReply,
    instrs: Seq<EditInstruction>,
)
    requires
        can_start(s),
        next_command(s) is Send || next_command(s) is Undo || next_command(s) is Redo,
        instructions_in(instrs, reply),
    ensures
        ({
            let e = next_command(s).editor()->0;
            let (after, action) = s.advanced().0.answered(Reply::Ops(reply));
            let (doc, error) = spoke::applied_all(s.spokes[e as int].doc, instrs);
            let (old, new) = (s.spokes[e as int], after.spokes[e as int]);
            let len = vstd::utf8::encode_utf8(doc.content).len();
            &&& others_stay(s, after, e as int)
            &&& new.doc == doc
            &&& new.group_seq == old.group_seq && new.in_group == old.in_group && new.global_seq
                == old.global_seq && new.pending_count == old.pending_count
            &&& error matches Some(x) ==> after.phase is Over && new.pending == old.pending
                && action == (ActionView::Fail { error: RunErrorView::Apply(x), report: true })
            &&& error is None ==> new.pending.len() == 0 && new.ops_count == doc.ops_applied
            &&& error is None && len != reply.doc_len ==> after.phase is Over && action == (
            ActionView::Fail {
                error: RunErrorView::Length { editor: e, mock_len: len, doc_len: reply.doc_len as nat },
                report: true,
            })
            &&& error is None && len == reply.doc_len ==> {
                &&& next_command(s) is Send ==> action == (ActionView::OpenFile { editor: e })
                &&& next_command(s) is Undo ==> action == (ActionView::SendUndo {
                    editor: e,
                    redo: false,
                })
                &&& next_command(s) is Redo ==> action == (ActionView::SendUndo {
                    editor: e,
                    redo: true,
                })
            }
        }),
{
    assert(instrs =~= spoke::instructions(reply.ops@));
}

/// After a send the server's text has to be the document's, else the run fails.
/// Nothing changes in the editors.
pub proof fn lemma_send_compares_texts(s: RunView, sync: OpsReply, server: String)
    requires
        can_start(s),
        next_command(s) is Send,
        s.advanced().0.answered(Reply::Ops(sync)).1 is OpenFile,
    ensures
        ({
            let e = next_command(s).editor()->0;
            let synced = s.advanced().0.answered(Reply::Ops(sync)).0;
            let (after, action) = synced.answered(Reply::File(server));
            let own = synced.spokes[e as int].doc.content;
            &&& after.spokes == synced.spokes
            &&& server@ == own ==> action is Next && after.phase is Ready
            &&& server@ != own ==> after.phase is Over && action == (ActionView::Fail {
                error: RunErrorView::Sync { editor: e, server: server@, mock: own },
                report: true,
            })
        }),
{
}

/// An undo or a redo is done in the document and then announced to the server: as
/// a redo where the command was to redo, as an undo where it was to undo, with the
/// number that the server gave it and the number of the editor's group. Where there
/// is nothing to undo or redo nothing is announced and nothing changes. What others
/// did meanwhile is applied once the announcement is answered, and the next group
/// begins.
pub proof fn lemma_undo_is_announced(
    s: RunView,
    sync: OpsReply,
    reply: UndoReply,
    last: OpsReply,
    instrs: Seq<EditInstruction>,
)
    requires
        can_start(s),
        next_command(s) is Undo || next_command(s) is Redo,
        s.advanced().0.answered(Reply::Ops(sync)).1 is SendUndo,
        instructions_in(instrs, last),
    ensures
        ({
            let e = next_command(s).editor()->0;
            let synced = s.advanced().0.answered(Reply::Ops(sync)).0;
            let (asked, action) = synced.answered(Reply::Undo(reply));
            let context = reply.context as nat;
            let op = if next_command(s) is Redo {
                EditorOpView::Redo { context }
            } else {
                EditorOpView::Undo { context }
            };
            let (doc, error) = spoke::applied_all(synced.spokes[e as int].doc, reply.ops@);
            let group = s.spokes[e as int].group_seq;
            &&& reply.ops@.len() == 0 ==> action is Next && asked.spokes == synced.spokes
                && asked.phase is Ready
            &&& reply.ops@.len() > 0 ==> {
                &&& others_stay(synced, asked, e as int)
                &&& asked.spokes[e as int].doc == doc
                &&& error matches Some(x) ==> asked.phase is Over && action == (ActionView::Fail {
                    error: RunErrorView::Apply(x),
                    report: true,
                })
                &&& error is None ==> {
                    let (done, end) = asked.answered(Reply::Ops(last));
                    let (end_doc, end_error) = spoke::applied_all(doc, instrs);
                    &&& action == (ActionView::SendOps {
                        editor: e,
                        ops: seq![EditorFatOpView { op, group_seq: group }],
                    })
                    &&& asked.spokes[e as int].ops_count == doc.ops_applied
                    &&& asked.spokes[e as int].pending.len() == 0
                    &&& others_stay(synced, done, e as int)
                    &&& done.spokes[e as int].doc == end_doc
                    &&& done.spokes[e as int].pending.len() == 0
                    &&& end_error matches Some(x) ==> end == (ActionView::Fail {
                        error: RunErrorView::Apply(x),
                        report: true,
                    })
                    &&& end_error is None ==> end is Next && done.phase is Ready
                        && done.spokes[e as int].group_seq == group + 1
                        && done.spokes[e as int].ops_count == end_doc.ops_applied
                }
            }
        }),
{
    assert(instrs =~= spoke::instructions(last.ops@));
}

/// What a run waits for is the reply to what it asked for: operations to sent
/// operations, instructions to an undo or redo, the text to an opened file, each
/// of the editor named, or the news that this failed; and the hub once it was
/// prodded. After anything else it waits for nothing.
pub proof fn lemma_reply_fits_request(s: RunView, last: Option<Reply>, reply: Reply)
    requires
        sound(s),
        last is Some ==> s.expects(last->0),
        last is None ==> s.phase is Ready,
    ensures
        ({
            let (after, action) = match last {
                Some(r) => s.answered(r),
                None => s.advanced(),
            };
            match action {
                ActionView::SendOps { editor, .. } => {
                    &&& after.expects(reply) <==> reply is Ops || reply is Failed
                    &&& after.awaited() == Some(editor as usize)
                },
                ActionView::SendUndo { editor, .. } => {
                    &&& after.expects(reply) <==> reply is Undo || reply is Failed
                    &&& after.awaited() == Some(editor as usize)
                },
                ActionView::OpenFile { editor } => {
                    &&& after.expects(reply) <==> reply is File || reply is Failed
                    &&& after.awaited() == Some(editor as usize)
                },
                ActionView::PollHub => {
                    &&& after.expects(reply) <==> reply is HubPolled
                    &&& after.awaited() is None
                },
                ActionView::Next => after.phase is Ready && !after.expects(reply),
                ActionView::Finish => after.phase is Over && !after.expects(reply),
                ActionView::Fail { .. } => after.phase is Over && !after.expects(reply),
            }
        }),
{
}

/// A request that fails ends the run with its message, whatever the run waited
/// for; only the hub, which is merely prodded, cannot fail it. The editors stay as
/// they are.
pub proof fn lemma_failed_request_ends(s: RunView, message: String)
    requires
        s.wf(),
        s.expects(Reply::Failed(message)),
    ensures
        ({
            let (after, action) = s.answered(Reply::Failed(message));
            &&& after.spokes == s.spokes
            &&& after.phase is Over
            &&& action == (ActionView::Fail {
                error: RunErrorView::Request(message@),
                report: true,
            })
        }),
{
}

// *** Checks

/// The first part of a check sends what waits at each editor in turn. Where the
/// reply can be applied nothing waits there any more; behind the last editor the
/// hub is asked to deal with its messages.
pub proof fn lemma_check_gathers(
    s: RunView,
    editor: usize,
    reply: OpsReply,
    instrs: Seq<EditInstruction>,
)
    requires
        sound(s),
        s.phase == (Phase::Gathering { editor }),
        instructions_in(instrs, reply),
    ensures
        ({
            let (after, action) = s.answered(Reply::Ops(reply));
            let e = editor as int;
            let (doc, error) = spoke::applied_all(s.spokes[e].doc, instrs);
            &&& others_stay(s, after, e)
            &&& after.spokes[e].doc == doc
            &&& after.spokes[e].group_seq == s.spokes[e].group_seq
            &&& after.spokes[e].in_group == s.spokes[e].in_group
            &&& error matches Some(x) ==> action == (ActionView::Fail {
                error: RunErrorView::Apply(x),
                report: true,
            })
            &&& error is None ==> {
                &&& after.spokes[e].pending.len() == 0
                &&& after.spokes[e].ops_count == doc.ops_applied
                &&& e + 1 < s.spokes.len() ==> after.phase == (Phase::Gathering {
                    editor: (e + 1) as usize,
                }) && action == (ActionView::SendOps {
                    editor: (e + 1) as nat,
                    ops: s.spokes[e + 1].pending,
                })
                &&& e + 1 == s.spokes.len() ==> action is PollHub && after.phase == (
                Phase::Settling { attempt: 0 })
            }
        }),
{
    assert(instrs =~= spoke::instructions(reply.ops@));
}

/// Whether every editor heard of the same operation last and has nothing on its
/// way.
pub open spec fn at_rest(spokes: Seq<SpokeView>) -> bool {
    &&& forall|i: int| 0 <= i < spokes.len() ==> (#[trigger] spokes[i]).pending_count == 0
    &&& forall|i: int, j: int|
        0 <= i < spokes.len() && 0 <= j < spokes.len() ==> (#[trigger] spokes[i]).global_seq == (
        #[trigger] spokes[j]).global_seq
}

/// Whether every editor holds the same text.
pub open spec fn same_texts(spokes: Seq<SpokeView>) -> bool {
    forall|i: int, j: int|
        0 <= i < spokes.len() && 0 <= j < spokes.len() ==> (#[trigger] spokes[i]).doc.content == (
        #[trigger] spokes[j]).doc.content
}

proof fn lemma_odd_one(s: RunView, from: int)
    requires
        0 <= from <= s.spokes.len(),
    ensures
        match s.odd_one(from) {
            Some(i) => {
                &&& from <= i < s.spokes.len()
                &&& s.spokes[i].doc.content != s.spokes[0].doc.content
                &&& forall|j: int|
                    from <= j < i ==> (#[trigger] s.spokes[j]).doc.content
                        == s.spokes[0].doc.content
            },
            None => forall|j: int|
                from <= j < s.spokes.len() ==> (#[trigger] s.spokes[j]).doc.content
                    == s.spokes[0].doc.content,
        },
    decreases s.spokes.len() - from,
{
    if from < s.spokes.len() {
        lemma_odd_one(s, from + 1);
    }
}

/// In a poll each editor is asked in turn what it missed, and what the server says
/// of its progress is noted. Behind the last one the check looks at all of them: as
/// long as any of them has an operation on its way, or two heard of different
/// operations last, the hub is asked again, until the attempts are used up. Only
/// when all are at rest the texts are compared; the check passes if they are the
/// same, and names the first that differs if not.
pub proof fn lemma_check_waits_for_rest(
    s: RunView,
    attempt: usize,
    editor: usize,
    reply: OpsReply,
    instrs: Seq<EditInstruction>,
)
    requires
        sound(s),
        s.phase == (Phase::Polling { attempt, editor }),
        instructions_in(instrs, reply),
    ensures
        ({
            let (after, action) = s.answered(Reply::Ops(reply));
            let e = editor as int;
            let n = s.spokes.len();
            let (doc, error) = spoke::applied_all(s.spokes[e].doc, instrs);
            &&& others_stay(s, after, e)
            &&& after.spokes[e].doc == doc
            &&& after.spokes[e].pending == s.spokes[e].pending
            &&& after.spokes[e].group_seq == s.spokes[e].group_seq
            &&& error matches Some(x) ==> action == (ActionView::Fail {
                error: RunErrorView::Apply(x),
                report: true,
            })
            &&& error is None ==> {
                &&& after.spokes[e].global_seq == reply.last_global_seq
                &&& after.spokes[e].pending_count == reply.pending_local_ops
                &&& after.spokes[e].ops_count == doc.ops_applied
            }
            &&& error is None && e + 1 < n ==> after.phase == (Phase::Polling {
                attempt,
                editor: (e + 1) as usize,
            }) && action == (ActionView::SendOps { editor: (e + 1) as nat, ops: Seq::empty() })
            &&& error is None && e + 1 == n ==> {
                &&& at_rest(after.spokes) && same_texts(after.spokes) ==> action is Next
                    && after.phase is Ready
                &&& at_rest(after.spokes) && !same_texts(after.spokes) ==> {
                    &&& action matches ActionView::Fail { error: x, report }
                    &&& !report
                    &&& x matches RunErrorView::Content { editor: i, content, expected, ops_counts }
                    &&& 0 < i < n
                    &&& content == after.spokes[i as int].doc.content
                    &&& expected == after.spokes[0].doc.content
                    &&& content != expected
                    &&& forall|j: int|
                        0 <= j < i ==> (#[trigger] after.spokes[j]).doc.content == expected
                    &&& ops_counts.len() == n
                    &&& forall|j: int|
                        0 <= j < n ==> #[trigger] ops_counts[j] == after.spokes[j].ops_count
                }
                &&& !at_rest(after.spokes) && attempt + 1 < MAX_ATTEMPTS ==> action is PollHub
                    && after.phase == (Phase::Settling { attempt: (attempt + 1) as usize })
                &&& !at_rest(after.spokes) && attempt + 1 == MAX_ATTEMPTS ==> {
                    &&& action matches ActionView::Fail { error: x, report }
                    &&& !report
                    &&& x matches RunErrorView::NotConverged {
                        global_seqs,
                        pending_counts,
                        ops_counts,
                    }
                    &&& global_seqs.len() == n && pending_counts.len() == n && ops_counts.len() == n
                    &&& forall|j: int|
                        0 <= j < n ==> #[trigger] global_seqs[j] == after.spokes[j].global_seq
                    &&& forall|j: int|
                        0 <= j < n ==> #[trigger] pending_counts[j] == after.spokes[j].pending_count
                    &&& forall|j: int|
                        0 <= j < n ==> #[trigger] ops_counts[j] == after.spokes[j].ops_count
                }
            }
        }),
{
    assert(instrs =~= spoke::instructions(reply.ops@));
    let (after, action) = s.answered(Reply::Ops(reply));
    let e = editor as int;
    let (t, error) = spoke::tried(s.spokes[e], instrs);
    let next = s.with_spoke(
        e,
        SpokeView {
            global_seq: reply.last_global_seq as nat,
            pending_count: reply.pending_local_ops as nat,
            ..t
        },
    );
    if error is None && e + 1 == s.spokes.len() {
        assert(after.spokes == next.spokes);
        assert(next.converged() == at_rest(next.spokes)) by {
            assert(next.spokes[0].global_seq == next.spokes[0].global_seq);
        }
        lemma_odd_one(next, 0);
        assert(next.odd_one(0) is None == same_texts(next.spokes)) by {
            assert(next.spokes[0].doc.content == next.spokes[0].doc.content);
        }
    }
}

/// A check makes twenty attempts.
pub proof fn lemma_twenty_attempts()
    ensures
        MAX_ATTEMPTS == 20,
{
}

/// Once the hub has dealt with its messages the first editor is asked what it
/// missed.
pub proof fn lemma_poll_starts(s: RunView, attempt: usize)
    requires
        s.phase == (Phase::Settling { attempt }),
    ensures
        ({
            let (after, action) = s.answered(Reply::HubPolled);
            &&& after.spokes == s.spokes
            &&& after.phase == (Phase::Polling { attempt, editor: 0 })
            &&& action == (ActionView::SendOps { editor: 0, ops: Seq::empty() })
        }),
{
}

/// A run after replies to what it sent, with its last request.
pub open spec fn after_replies(s: RunView, replies: Seq<OpsReply>) -> (RunView, ActionView)
    decreases replies.len(),
{
    if replies.len() == 0 {
        (s, ActionView::PollHub)
    } else {
        after_replies(s, replies.drop_last()).0.answered(Reply::Ops(replies.last()))
    }
}

proof fn lemma_poll_notes(s: RunView, attempt: usize, replies: Seq<OpsReply>)
    requires
        sound(s),
        s.phase == (Phase::Polling { attempt, editor: 0 }),
        replies.len() <= s.spokes.len(),
        forall|k: int|
            0 < k <= replies.len() && k < s.spokes.len() ==> #[trigger] after_replies(
                s,
                replies.take(k),
            ).1 is SendOps,
    ensures
        ({
            let after = after_replies(s, replies).0;
            &&& replies.len() < s.spokes.len() ==> after.wf() && after.phase == (Phase::Polling {
                attempt,
                editor: replies.len() as usize,
            })
            &&& after.spokes.len() == s.spokes.len()
            &&& !(after_replies(s, replies).1 matches ActionView::Fail {
                error: RunErrorView::Apply(_),
                ..
            }) || replies.len() == 0 ==> forall|i: int|
                0 <= i < replies.len() ==> (#[trigger] after.spokes[i]).pending_count
                    == replies[i].pending_local_ops && after.spokes[i].global_seq
                    == replies[i].last_global_seq
        }),
    decreases replies.len(),
{
    if replies.len() > 0 {
        let short = replies.drop_last();
        let k = replies.len() - 1;
        assert(replies.take(k) =~= short);
        assert(replies.take(replies.len() as int) =~= replies);
        assert forall|m: int|
            0 < m <= short.len() && m < s.spokes.len() implies #[trigger] after_replies(
            s,
            short.take(m),
        ).1 is SendOps by {
            assert(short.take(m) =~= replies.take(m));
        }
        lemma_poll_notes(s, attempt, short);
        let mid = after_replies(s, short).0;
        let reply = replies.last();
        let instrs = Seq::new(reply.ops@.len(), |i: int| reply.ops@[i].op);
        if k > 0 {
            assert(after_replies(s, replies.take(k)).1 is SendOps);
        }
        lemma_check_waits_for_rest(mid, attempt, k as usize, reply, instrs);
        let (after, action) = mid.answered(Reply::Ops(reply));
        assert(after_replies(s, replies) == (after, action));
        if replies.len() < s.spokes.len() {
            assert(after_replies(s, replies.take(replies.len() as int)).1 is SendOps);
            lemma_wf_kept(mid, Reply::Ops(reply));
        }
    }
}

proof fn lemma_wf_kept(s: RunView, reply: Reply)
    requires
        s.wf(),
        s.phase is Polling,
        s.expects(reply),
        s.answered(reply).1 is SendOps,
    ensures
        s.answered(reply).0.wf(),
{
    if let (Phase::Polling { editor, .. }, Reply::Ops(r)) = (s.phase, reply) {
        lemma_cursor_kept(s.spokes[editor as int].doc, spoke::instructions(r.ops@));
        let after = s.answered(reply).0;
        assert forall|i: int| 0 <= i < after.spokes.len() implies (
        #[trigger] after.spokes[i]).doc.cursor <= after.spokes[i].doc.content.len() by {
            assert(s.spokes[i].doc.cursor <= s.spokes[i].doc.content.len());
        }
        assert forall|i: int| 0 <= i < after.spokes.len() implies (
        #[trigger] after.spokes[i]).group_seq <= after.index by {
            assert(s.spokes[i].group_seq <= s.index);
        }
    }
}

proof fn lemma_cursor_kept(doc: DocView, instrs: Seq<EditInstruction>)
    requires
        doc.cursor <= doc.content.len(),
        spoke::applied_all(doc, instrs).1 is None,
    ensures
        spoke::applied_all(doc, instrs).0.cursor <= spoke::applied_all(doc, instrs).0.content.len(),
    decreases instrs.len(),
{
    if instrs.len() > 0 {
        let call = document::DocCall::Apply(instrs[0]);
        document::lemma_cursor_stays(doc, call);
        lemma_cursor_kept(document::applied(doc, instrs[0]).0, instrs.drop_first());
    }
}

/// A round of a check, in which every editor was asked: the texts are compared only
/// if every one of the replies said that nothing is pending, and all named the same
/// operation. If any reply named a pending operation, or two named different
/// operations, the hub is asked again while attempts are left.
pub proof fn lemma_round_of_a_check(s: RunView, attempt: usize, replies: Seq<OpsReply>)
    requires
        sound(s),
        s.phase == (Phase::Polling { attempt, editor: 0 }),
        replies.len() == s.spokes.len(),
        forall|k: int|
            0 < k < s.spokes.len() ==> #[trigger] after_replies(s, replies.take(k)).1 is SendOps,
        !(after_replies(s, replies).1 matches ActionView::Fail {
            error: RunErrorView::Apply(_),
            ..
        }),
    ensures
        ({
            let action = after_replies(s, replies).1;
            let rest = (forall|i: int|
                0 <= i < replies.len() ==> (#[trigger] replies[i]).pending_local_ops == 0) && (
            forall|i: int, j: int|
                0 <= i < replies.len() && 0 <= j < replies.len() ==> (
                #[trigger] replies[i]).last_global_seq == (#[trigger] replies[j]).last_global_seq);
            &&& action is Next ==> rest
            &&& (action matches ActionView::Fail { error: RunErrorView::Content { .. }, .. }) ==> rest
            &&& !rest && attempt + 1 < MAX_ATTEMPTS ==> action is PollHub
            &&& rest ==> !(action is PollHub)
        }),
{
    let n = s.spokes.len();
    let k = n - 1;
    let short = replies.drop_last();
    assert(replies.take(k) =~= short);
    assert forall|m: int| 0 < m <= short.len() && m < n implies #[trigger] after_replies(
        s,
        short.take(m),
    ).1 is SendOps by {
        assert(short.take(m) =~= replies.take(m));
    }
    lemma_poll_notes(s, attempt, short);
    assert forall|m: int| 0 < m <= replies.len() && m < n implies #[trigger] after_replies(
        s,
        replies.take(m),
    ).1 is SendOps by {}
    lemma_poll_notes(s, attempt, replies);
    let mid = after_replies(s, short).0;
    let reply = replies.last();
    let instrs = Seq::new(reply.ops@.len(), |i: int| reply.ops@[i].op);
    lemma_check_waits_for_rest(mid, attempt, k as usize, reply, instrs);
    let after = after_replies(s, replies).0;
    let rest = (forall|i: int|
        0 <= i < replies.len() ==> (#[trigger] replies[i]).pending_local_ops == 0) && (forall|
        i: int,
        j: int,
    |
        0 <= i < replies.len() && 0 <= j < replies.len() ==> (
        #[trigger] replies[i]).last_global_seq == (#[trigger] replies[j]).last_global_seq);
    if rest {
        assert(at_rest(after.spokes)) by {
            assert forall|i: int| 0 <= i < after.spokes.len() implies (
            #[trigger] after.spokes[i]).pending_count == 0 by {
                assert(replies[i].pending_local_ops == 0);
            }
            assert forall|i: int, j: int|
                0 <= i < after.spokes.len() && 0 <= j < after.spokes.len() implies (
            #[trigger] after.spokes[i]).global_seq == (#[trigger] after.spokes[j]).global_seq by {
                assert(replies[i].last_global_seq == replies[j].last_global_seq);
            }
        }
    }
    if at_rest(after.spokes) {
        assert forall|i: int| 0 <= i < replies.len() implies (
        #[trigger] replies[i]).pending_local_ops == 0 by {
            assert(after.spokes[i].pending_count == 0);
        }
        assert forall|i: int, j: int|
            0 <= i < replies.len() && 0 <= j < replies.len() implies (
        #[trigger] replies[i]).last_global_seq == (#[trigger] replies[j]).last_global_seq by {
            assert(after.spokes[i].global_seq == after.spokes[j].global_seq);
        }
    }
}

// *** Whole runs

/// What happens to a run.
pub enum RunEvent {
    /// The next command starts.
    Start,
    /// The driver hands back a reply.
    Answer(Reply),
}

/// What an event leads to.
pub open spec fn stepped(s: RunView, event: RunEvent) -> (RunView, ActionView) {
    match event {
        RunEvent::Start => s.advanced(),
        RunEvent::Answer(reply) => s.answered(reply),
    }
}

/// Whether the run is ready for an event.
pub open spec fn takes(s: RunView, event: RunEvent) -> bool {
    match event {
        RunEvent::Start => s.phase is Ready,
        RunEvent::Answer(reply) => s.expects(reply),
    }
}

/// The run after events.
pub open spec fn after_events(s: RunView, events: Seq<RunEvent>) -> RunView
    decreases events.len(),
{
    if events.len() == 0 {
        s
    } else {
        stepped(after_events(s, events.drop_last()), events.last()).0
    }
}

/// Whether the run is ready for each event when it comes.
pub open spec fn takes_all(s: RunView, events: Seq<RunEvent>) -> bool
    decreases events.len(),
{
    events.len() == 0 || (takes_all(s, events.drop_last()) && takes(
        after_events(s, events.drop_last()),
        events.last(),
    ))
}

/// The edits of an editor that an action sends.
pub open spec fn edits_sent(action: ActionView, e: int) -> Seq<EditorFatOpView> {
    match action {
        ActionView::SendOps { editor, ops } if editor == e && ops.len() > 0 && (ops[0].op is Ins
            || ops[0].op is Del) => ops,
        _ => Seq::empty(),
    }
}

/// The edits of an editor that were sent over events, in order.
pub open spec fn all_sent(s: RunView, events: Seq<RunEvent>, e: int) -> Seq<EditorFatOpView>
    decreases events.len(),
{
    if events.len() == 0 {
        Seq::empty()
    } else {
        all_sent(s, events.drop_last(), e) + edits_sent(
            stepped(after_events(s, events.drop_last()), events.last()).1,
            e,
        )
    }
}

/// The edit that an event makes at an editor.
pub open spec fn edits_made(s: RunView, event: RunEvent, e: int) -> Seq<EditorFatOpView> {
    let old = s.spokes[e];
    if event is Start && s.index < s.commands.len() && next_command(s).editor() == Some(e as nat) {
        match next_command(s) {
            CommandView::Insert { text, .. } => seq![
                EditorFatOpView {
                    op: EditorOpView::Ins { pos: old.doc.cursor, content: text },
                    group_seq: old.group_seq,
                },
            ],
            CommandView::Delete { count, .. } => if document::deletes(old.doc, count as i64) {
                seq![
                    EditorFatOpView {
                        op: document::delete_op(old.doc, count as i64),
                        group_seq: old.group_seq,
                    },
                ]
            } else {
                Seq::empty()
            },
            _ => Seq::empty(),
        }
    } else {
        Seq::empty()
    }
}

/// The edits of an editor over events, in order.
pub open spec fn all_made(s: RunView, events: Seq<RunEvent>, e: int) -> Seq<EditorFatOpView>
    decreases events.len(),
{
    if events.len() == 0 {
        Seq::empty()
    } else {
        all_made(s, events.drop_last(), e) + edits_made(
            after_events(s, events.drop_last()),
            events.last(),
            e,
        )
    }
}

/// Whether the run waits for the reply to what waited at an editor.
pub open spec fn in_flight(s: RunView, e: int) -> bool {
    match s.phase {
        Phase::Syncing { editor, .. } => editor == e,
        Phase::Gathering { editor } => editor == e,
        _ => false,
    }
}

/// Whether commands and replies are for editors that there are.
pub open spec fn placed(s: RunView) -> bool {
    &&& 0 < s.spokes.len() <= usize::MAX
    &&& forall|i: int|
        0 <= i < s.commands.len() ==> match (#[trigger] s.commands[i]).editor() {
            Some(e) => e < s.spokes.len(),
            None => true,
        }
    &&& match s.awaited() {
        Some(e) => e < s.spokes.len(),
        None => true,
    }
}

/// Whether only edits wait to be sent.
pub open spec fn only_edits_wait(s: RunView, e: int) -> bool {
    forall|i: int|
        0 <= i < s.spokes[e].pending.len() ==> (#[trigger] s.spokes[e].pending[i]).op is Ins
            || s.spokes[e].pending[i].op is Del
}

proof fn lemma_step_sends(s: RunView, event: RunEvent, e: int)
    requires
        placed(s),
        takes(s, event),
        0 <= e < s.spokes.len(),
        only_edits_wait(s, e),
        !(stepped(s, event).0.phase is Over),
    ensures
        ({
            let (after, action) = stepped(s, event);
            let waits = |t: RunView|
                if in_flight(t, e) {
                    Seq::<EditorFatOpView>::empty()
                } else {
                    t.spokes[e].pending
                };
            &&& placed(after)
            &&& after.spokes.len() == s.spokes.len()
            &&& only_edits_wait(after, e)
            &&& edits_sent(action, e) + waits(after) == waits(s) + edits_made(s, event, e)
        }),
{
    let (after, action) = stepped(s, event);
    let old = s.spokes[e].pending;
    let new = after.spokes[e].pending;
    if old.len() > 0 {
        assert(old[0].op is Ins || old[0].op is Del);
    }
    let w = if in_flight(after, e) {
        Seq::<EditorFatOpView>::empty()
    } else {
        new
    };
    let v = if in_flight(s, e) {
        Seq::<EditorFatOpView>::empty()
    } else {
        old
    };
    let made = edits_made(s, event, e);
    match event {
        RunEvent::Start => {
            if s.index < s.commands.len() {
                let command = next_command(s);
                assert(s.commands[s.index as int] == command);
                assert(new =~= old + made || new == old);
            }
        },
        RunEvent::Answer(_) => {},
    }
    assert(edits_sent(action, e) + w =~= v + made);
}

/// Every edit is sent once, in the order in which the edits were made: at every
/// point of a run that goes on, what was sent of an editor's edits, followed by
/// what still waits, is what was made. While a reply is awaited all is sent.
pub proof fn lemma_every_edit_is_sent_once(s: RunView, events: Seq<RunEvent>, e: int)
    requires
        placed(s),
        s.phase is Ready,
        takes_all(s, events),
        0 <= e < s.spokes.len(),
        s.spokes[e].pending.len() == 0,
        !(after_events(s, events).phase is Over),
    ensures
        ({
            let after = after_events(s, events);
            &&& !in_flight(after, e) ==> all_sent(s, events, e) + after.spokes[e].pending
                == all_made(s, events, e)
            &&& in_flight(after, e) ==> all_sent(s, events, e) == all_made(s, events, e)
        }),
{
    lemma_sent_so_far(s, events, e);
    let after = after_events(s, events);
    if in_flight(after, e) {
        assert(all_sent(s, events, e) + Seq::<EditorFatOpView>::empty() =~= all_sent(s, events, e));
    }
}

proof fn lemma_sent_so_far(s: RunView, events: Seq<RunEvent>, e: int)
    requires
        placed(s),
        s.phase is Ready,
        takes_all(s, events),
        0 <= e < s.spokes.len(),
        s.spokes[e].pending.len() == 0,
        !(after_events(s, events).phase is Over),
    ensures
        ({
            let after = after_events(s, events);
            let waits = if in_flight(after, e) {
                Seq::<EditorFatOpView>::empty()
            } else {
                after.spokes[e].pending
            };
            &&& placed(after)
            &&& after.spokes.len() == s.spokes.len()
            &&& only_edits_wait(after, e)
            &&& all_sent(s, events, e) + waits == all_made(s, events, e)
        }),
    decreases events.len(),
{
    if events.len() == 0 {
        assert(all_sent(s, events, e) + s.spokes[e].pending =~= all_made(s, events, e));
    } else {
        let short = events.drop_last();
        let mid = after_events(s, short);
        lemma_sent_so_far(s, short, e);
        lemma_step_sends(mid, events.last(), e);
        let after = after_events(s, events);
        let v = if in_flight(mid, e) {
            Seq::<EditorFatOpView>::empty()
        } else {
            mid.spokes[e].pending
        };
        let w = if in_flight(after, e) {
            Seq::<EditorFatOpView>::empty()
        } else {
            after.spokes[e].pending
        };
        let sent = edits_sent(stepped(mid, events.last()).1, e);
        let made = edits_made(mid, events.last(), e);
        assert(sent + w == v + made);
        assert(all_sent(s, short, e) + sent + w =~= all_sent(s, short, e) + (sent + w));
        assert(all_sent(s, short, e) + (v + made) =~= (all_sent(s, short, e) + v) + made);
    }
}

} // verus!
