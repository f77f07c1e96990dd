//! What a run keeps of one editor: its document, the operations that wait to be
//! sent, the number of the current undo group, and what the server last said.

use crate::transcript::document;
use crate::transcript::document::{ApplyError, ApplyErrorView, DocView, MockDocument};
use crate::types;
use crate::types::{
    EditInstruction, EditorFatOp, EditorFatOpView, EditorLeanOp, EditorOp, EditorOpView, GlobalSeq,
    GroupSeq,
};
use vstd::prelude::*;

verus! {

/// The state of one editor.
pub struct Spoke {
    doc: MockDocument,
    pending: Vec<EditorFatOp>,
    group_seq: GroupSeq,
    in_group: bool,
    ops_count: usize,
    global_seq: GlobalSeq,
    pending_count: usize,
}

/// What the state of an editor is.
#[verifier::ext_equal]
pub struct SpokeView {
    /// The document.
    pub doc: DocView,
    /// The operations that wait to be sent.
    pub pending: Seq<EditorFatOpView>,
    /// The number of the current undo group.
    pub group_seq: nat,
    /// Whether a group is open.
    pub in_group: bool,
    /// How many instructions the document had seen after the last reply.
    pub ops_count: nat,
    /// The last sequence number that the server named.
    pub global_seq: nat,
    /// How many operations the server had not yet passed on.
    pub pending_count: nat,
}

impl View for Spoke {
    type V = SpokeView;

    closed spec fn view(&self) -> SpokeView {
        SpokeView {
            doc: self.doc@,
            pending: types::fat_op_views(self.pending@),
            group_seq: self.group_seq as nat,
            in_group: self.in_group,
            ops_count: self.ops_count as nat,
            global_seq: self.global_seq as nat,
            pending_count: self.pending_count as nat,
        }
    }
}

/// The state of the editors.
pub open spec fn spoke_views(spokes: Seq<Spoke>) -> Seq<SpokeView> {
    Seq::new(spokes.len(), |i: int| spokes[i]@)
}

/// An editor that just opened a document.
pub open spec fn opened(content: Seq<char>) -> SpokeView {
    SpokeView {
        doc: document::fresh(content),
        pending: Seq::empty(),
        group_seq: 1,
        in_group: false,
        ops_count: 0,
        global_seq: 0,
        pending_count: 0,
    }
}

/// An editor once `op` was done and waits to be sent as a part of the current
/// group. Outside of a group every operation is a group of its own.
pub open spec fn queued(s: SpokeView, doc: DocView, op: EditorOpView) -> SpokeView {
    SpokeView {
        doc,
        pending: s.pending.push(EditorFatOpView { op, group_seq: s.group_seq }),
        group_seq: if s.in_group {
            s.group_seq
        } else {
            s.group_seq + 1
        },
        ..s
    }
}

/// An editor after `text` was typed at the cursor.
pub open spec fn typed(s: SpokeView, text: Seq<char>) -> SpokeView {
    queued(
        s,
        document::inserted(s.doc, text),
        document::insert_op(s.doc, text),
    )
}

/// An editor after `count` characters were deleted around the cursor.
pub open spec fn erased(s: SpokeView, count: i64) -> SpokeView {
    if document::deletes(s.doc, count) {
        queued(s, document::deleted(s.doc, count), document::delete_op(s.doc, count))
    } else {
        s
    }
}

/// An editor after its cursor moved.
pub open spec fn moved(s: SpokeView, offset: i64) -> SpokeView {
    SpokeView { doc: document::moved(s.doc, offset), ..s }
}

/// A document after a list of instructions, and the first failure, which stops
/// the work.
pub open spec fn applied_all(doc: DocView, instrs: Seq<EditInstruction>) -> (
    DocView,
    Option<ApplyErrorView>,
)
    decreases instrs.len(),
{
    if instrs.len() == 0 {
        (doc, None)
    } else {
        let (next, error) = document::applied(doc, instrs[0]);
        if error is Some {
            (next, error)
        } else {
            applied_all(next, instrs.drop_first())
        }
    }
}

/// The instructions of operations.
pub open spec fn instructions(ops: Seq<EditorLeanOp>) -> Seq<EditInstruction> {
    Seq::new(ops.len(), |i: int| ops[i].op)
}

/// An editor after it tried the instructions: its count of instructions follows
/// only where all could be applied.
pub open spec fn tried(s: SpokeView, instrs: Seq<EditInstruction>) -> (
    SpokeView,
    Option<ApplyErrorView>,
) {
    let (doc, error) = applied_all(s.doc, instrs);
    if error is Some {
        (SpokeView { doc, ..s }, error)
    } else {
        (SpokeView { doc, ops_count: doc.ops_applied, ..s }, None)
    }
}

/// An editor once what waited has been sent.
pub open spec fn flushed(s: SpokeView) -> SpokeView {
    SpokeView { pending: Seq::empty(), ..s }
}

/// An editor in the next undo group.
pub open spec fn next_group(s: SpokeView) -> SpokeView {
    SpokeView { group_seq: s.group_seq + 1, ..s }
}

impl Spoke {
    /// Whether the cursor lies within the document.
    pub open spec fn wf(&self) -> bool {
        self@.doc.cursor <= self@.doc.content.len()
    }

    /// An editor that just opened a document.
    pub fn new(content: &str) -> (r: Spoke)
        ensures
            r@ == opened(content@),
            r.wf(),
    {
        let pending: Vec<EditorFatOp> = Vec::new();
        assert(types::fat_op_views(pending@) =~= Seq::<EditorFatOpView>::empty());
        Spoke {
            doc: MockDocument::new(content),
            pending,
            group_seq: 1,
            in_group: false,
            ops_count: 0,
            global_seq: 0,
            pending_count: 0,
        }
    }

    /// Moves the cursor.
    pub fn move_cursor(&mut self, offset: i64)
        ensures
            final(self)@ == moved(old(self)@, offset),
            final(self).wf(),
    {
        self.doc.move_cursor(offset);
    }

    fn queue(&mut self, op: EditorOp)
        requires
            !old(self)@.in_group ==> old(self)@.group_seq < u32::MAX,
        ensures
            final(self)@ == queued(old(self)@, old(self)@.doc, op@),
    {
        let ghost before = self.pending@;
        let fat = EditorFatOp { op, group_seq: self.group_seq };
        let ghost seen = fat@;
        self.pending.push(fat);
        assert(types::fat_op_views(self.pending@) =~= types::fat_op_views(before).push(seen));
        if !self.in_group {
            self.group_seq = self.group_seq + 1;
        }
    }

    /// Types a text at the cursor.
    pub fn insert(&mut self, text: &str)
        requires
            old(self).wf(),
            !old(self)@.in_group ==> old(self)@.group_seq < u32::MAX,
        ensures
            final(self)@ == typed(old(self)@, text@),
            final(self).wf(),
    {
        let op = self.doc.insert(text);
        self.queue(op.op);
    }

    /// Deletes characters around the cursor.
    pub fn delete(&mut self, count: i64)
        requires
            old(self).wf(),
            !old(self)@.in_group ==> old(self)@.group_seq < u32::MAX,
        ensures
            final(self)@ == erased(old(self)@, count),
            final(self).wf(),
    {
        match self.doc.delete(count) {
            Some(op) => self.queue(op.op),
            None => {},
        }
    }

    /// Opens a group of operations.
    pub fn begin_group(&mut self)
        ensures
            final(self)@ == (SpokeView { in_group: true, ..old(self)@ }),
    {
        self.in_group = true;
    }

    /// Closes a group of operations.
    pub fn end_group(&mut self)
        requires
            old(self)@.group_seq < u32::MAX,
        ensures
            final(self)@ == next_group(SpokeView { in_group: false, ..old(self)@ }),
    {
        self.in_group = false;
        self.group_seq = self.group_seq + 1;
    }

    /// Goes on to the next undo group.
    pub fn advance_group(&mut self)
        requires
            old(self)@.group_seq < u32::MAX,
        ensures
            final(self)@ == next_group(old(self)@),
    {
        self.group_seq = self.group_seq + 1;
    }

    /// Applies instructions up to the first that fails.
    pub fn apply(&mut self, instrs: &[EditInstruction]) -> (r: Result<(), ApplyError>)
        requires
            old(self)@.doc.ops_applied + instrs@.len() <= usize::MAX,
        ensures
            final(self)@ == tried(old(self)@, instrs@).0,
            match r {
                Ok(_) => tried(old(self)@, instrs@).1 is None,
                Err(e) => tried(old(self)@, instrs@).1 == Some(e@),
            },
            r is Ok && old(self).wf() ==> final(self).wf(),
    {
        let ghost start = self@;
        assert(instrs@.skip(0) =~= instrs@);
        for i in 0..instrs.len()
            invariant
                self@ == (SpokeView { doc: self@.doc, ..start }),
                start == old(self)@,
                self@.doc.ops_applied == start.doc.ops_applied + i,
                start.doc.ops_applied + instrs@.len() <= usize::MAX,
                applied_all(start.doc, instrs@) == applied_all(
                    self@.doc,
                    instrs@.skip(i as int),
                ),
                old(self).wf() ==> self.wf(),
        {
            let ghost rest = instrs@.skip(i as int);
            assert(rest[0] == instrs@[i as int]);
            assert(rest.drop_first() =~= instrs@.skip(i + 1));
            match self.doc.apply_checked(&instrs[i]) {
                Ok(_) => {},
                Err(e) => {
                    return Err(e);
                },
            }
        }
        assert(instrs@.skip(instrs@.len() as int) =~= Seq::<EditInstruction>::empty());
        self.ops_count = self.doc.get_ops_applied();
        Ok(())
    }

    /// Applies the operations of other editors up to the first that fails.
    pub fn apply_remote(&mut self, ops: &[EditorLeanOp]) -> (r: Result<(), ApplyError>)
        requires
            old(self)@.doc.ops_applied + ops@.len() <= usize::MAX,
        ensures
            final(self)@ == tried(old(self)@, instructions(ops@)).0,
            match r {
                Ok(_) => tried(old(self)@, instructions(ops@)).1 is None,
                Err(e) => tried(old(self)@, instructions(ops@)).1 == Some(e@),
            },
            r is Ok && old(self).wf() ==> final(self).wf(),
    {
        let ghost start = self@;
        let ghost instrs = instructions(ops@);
        assert(instrs.skip(0) =~= instrs);
        for i in 0..ops.len()
            invariant
                instrs == instructions(ops@),
                self@ == (SpokeView { doc: self@.doc, ..start }),
                start == old(self)@,
                self@.doc.ops_applied == start.doc.ops_applied + i,
                start.doc.ops_applied + ops@.len() <= usize::MAX,
                applied_all(start.doc, instrs) == applied_all(self@.doc, instrs.skip(i as int)),
                old(self).wf() ==> self.wf(),
        {
            let ghost rest = instrs.skip(i as int);
            assert(rest[0] == ops@[i as int].op);
            assert(rest.drop_first() =~= instrs.skip(i + 1));
            match self.doc.apply_checked(&ops[i].op) {
                Ok(_) => {},
                Err(e) => {
                    return Err(e);
                },
            }
        }
        assert(instrs.skip(ops@.len() as int) =~= Seq::<EditInstruction>::empty());
        self.ops_count = self.doc.get_ops_applied();
        Ok(())
    }

    /// Forgets what waited to be sent.
    pub fn flush(&mut self)
        ensures
            final(self)@ == flushed(old(self)@),
    {
        self.pending = Vec::new();
        assert(types::fat_op_views(self.pending@) =~= Seq::<EditorFatOpView>::empty());
    }

    /// Notes what the server said about its progress.
    pub fn note(&mut self, global_seq: GlobalSeq, pending_count: usize)
        ensures
            final(self)@ == (SpokeView {
                global_seq: global_seq as nat,
                pending_count: pending_count as nat,
                ..old(self)@
            }),
    {
        self.global_seq = global_seq;
        self.pending_count = pending_count;
    }

    /// The operations that wait to be sent.
    pub fn pending_ops(&self) -> (r: Vec<EditorFatOp>)
        ensures
            types::fat_op_views(r@) == self@.pending,
    {
        let mut r: Vec<EditorFatOp> = Vec::new();
        for i in 0..self.pending.len()
            invariant
                r@ == self.pending@.take(i as int),
        {
            r.push(self.pending[i].clone());
        }
        assert(r@ =~= self.pending@);
        r
    }

    /// The text of the document.
    pub fn content(&self) -> (r: String)
        ensures
            r@ == self@.doc.content,
    {
        self.doc.get_content()
    }

    /// The cursor of the document.
    pub fn cursor(&self) -> (r: usize)
        ensures
            r == self@.doc.cursor,
    {
        self.doc.get_cursor()
    }

    /// The number of the current undo group.
    pub fn group_seq(&self) -> (r: GroupSeq)
        ensures
            r == self@.group_seq,
    {
        self.group_seq
    }

    /// How many instructions the document had seen after the last reply.
    pub fn ops_count(&self) -> (r: usize)
        ensures
            r == self@.ops_count,
    {
        self.ops_count
    }

    /// The last sequence number that the server named.
    pub fn global_seq(&self) -> (r: GlobalSeq)
        ensures
            r == self@.global_seq,
    {
        self.global_seq
    }

    /// How many operations the server had not yet passed on.
    pub fn pending_count(&self) -> (r: usize)
        ensures
            r == self@.pending_count,
    {
        self.pending_count
    }
}

/// Operations done within an open group, whatever they are, carry one group
/// number; after the group is closed the number is another.
pub proof fn lemma_group_shared(
    s: SpokeView,
    doc_a: DocView,
    a: EditorOpView,
    doc_b: DocView,
    b: EditorOpView,
)
    requires
        s.in_group,
    ensures
        ({
            let after = queued(queued(s, doc_a, a), doc_b, b);
            let n = s.pending.len() as int;
            &&& after.pending[n].group_seq == after.pending[n + 1].group_seq
            &&& next_group(SpokeView { in_group: false, ..after }).group_seq
                > after.pending[n + 1].group_seq
        }),
{
}

/// Operations done outside of a group, whatever they are, carry different group
/// numbers.
pub proof fn lemma_group_apart(
    s: SpokeView,
    doc_a: DocView,
    a: EditorOpView,
    doc_b: DocView,
    b: EditorOpView,
)
    requires
        !s.in_group,
    ensures
        ({
            let after = queued(queued(s, doc_a, a), doc_b, b);
            let n = s.pending.len() as int;
            after.pending[n].group_seq < after.pending[n + 1].group_seq
        }),
{
}

} // verus!
