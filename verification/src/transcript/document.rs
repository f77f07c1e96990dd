//! A document as an editor keeps it: its characters, a cursor, and a count of
//! the instructions applied to it.

use crate::number;
use crate::text;
use crate::types::{
    Edit, EditInstruction, EditorFatOp, EditorFatOpView, EditorLeanOp, EditorOp, EditorOpView,
};
use vstd::prelude::*;
use vstd::string::*;

verus! {

/// Document that tracks content and cursor.
#[derive(Debug, Clone)]
pub struct MockDocument {
    content: Vec<char>,
    cursor: usize,
    ops_applied: usize,
}

/// What a document holds.
#[verifier::ext_equal]
pub struct DocView {
    /// The characters.
    pub content: Seq<char>,
    /// The position of the cursor.
    pub cursor: nat,
    /// How many instructions were applied.
    pub ops_applied: nat,
}

impl View for MockDocument {
    type V = DocView;

    closed spec fn view(&self) -> DocView {
        DocView {
            content: self.content@,
            cursor: self.cursor as nat,
            ops_applied: self.ops_applied as nat,
        }
    }
}

// *** Changes to a text

/// `doc` with `piece` put in at `pos`.
pub open spec fn spliced(doc: Seq<char>, pos: int, piece: Seq<char>) -> Seq<char> {
    doc.take(pos) + piece + doc.skip(pos)
}

/// `doc` without the characters from `start` to `end`.
pub open spec fn cut(doc: Seq<char>, start: int, end: int) -> Seq<char> {
    doc.take(start) + doc.skip(end)
}

/// `x` held between `low` and `high`.
pub open spec fn clamp(x: int, low: int, high: int) -> int {
    if x < low {
        low
    } else if x > high {
        high
    } else {
        x
    }
}

/// The range that a deletion of `count` characters covers: backward from the
/// cursor where `count` is positive, forward where it is negative.
pub open spec fn delete_range(doc: DocView, count: i64) -> (int, int) {
    if count > 0 {
        (clamp(doc.cursor - count, 0, doc.cursor as int), doc.cursor as int)
    } else {
        (doc.cursor as int, clamp(doc.cursor - count, 0, doc.content.len() as int))
    }
}

/// A document with the given text and the cursor at its start.
pub open spec fn fresh(content: Seq<char>) -> DocView {
    DocView { content, cursor: 0, ops_applied: 0 }
}

/// A document after its cursor moved by `offset` characters, at most to either
/// end.
pub open spec fn moved(doc: DocView, offset: i64) -> DocView {
    DocView { cursor: clamp(doc.cursor + offset, 0, doc.content.len() as int) as nat, ..doc }
}

/// A document after `text` was put in at the cursor, which ends up behind it.
pub open spec fn inserted(doc: DocView, text: Seq<char>) -> DocView {
    DocView {
        content: spliced(doc.content, doc.cursor as int, text),
        cursor: doc.cursor + text.len(),
        ..doc
    }
}

/// Whether a deletion of `count` characters deletes anything.
pub open spec fn deletes(doc: DocView, count: i64) -> bool {
    let (start, end) = delete_range(doc, count);
    count != 0 && start != end
}

/// A document after a deletion of `count` characters around the cursor.
pub open spec fn deleted(doc: DocView, count: i64) -> DocView {
    let (start, end) = delete_range(doc, count);
    if deletes(doc, count) {
        DocView { content: cut(doc.content, start, end), cursor: start as nat, ..doc }
    } else {
        doc
    }
}

/// What an insertion of `text` at the cursor is told to others as.
pub open spec fn insert_op(doc: DocView, text: Seq<char>) -> EditorOpView {
    EditorOpView::Ins { pos: doc.cursor, content: text }
}

/// What a deletion of `count` characters is told to others as.
pub open spec fn delete_op(doc: DocView, count: i64) -> EditorOpView {
    let (start, end) = delete_range(doc, count);
    EditorOpView::Del { pos: start as nat, content: doc.content.subrange(start, end) }
}

fn splice(content: &mut Vec<char>, pos: usize, piece: &[char])
    requires
        pos <= old(content)@.len(),
    ensures
        final(content)@ == spliced(old(content)@, pos as int, piece@),
{
    let ghost before = content@;
    assert(content@ =~= spliced(before, pos as int, piece@.take(0)));
    for i in 0..piece.len()
        invariant
            pos <= before.len(),
            content@ == spliced(before, pos as int, piece@.take(i as int)),
    {
        let n: usize = content.len();
        assert(n == before.len() + i);
        let ghost prev = content@;
        content.insert(pos + i, piece[i]);
        assert(content@ =~= spliced(before, pos as int, piece@.take(i + 1)));
    }
    assert(piece@.take(piece@.len() as int) =~= piece@);
}

fn remove_range(content: &mut Vec<char>, start: usize, end: usize)
    requires
        start <= end <= old(content)@.len(),
    ensures
        final(content)@ == cut(old(content)@, start as int, end as int),
{
    let n: usize = content.len();
    let mut kept = text::chars_between(content, 0, start);
    let ghost head = kept@;
    for i in end..n
        invariant
            end <= i <= n,
            n == content@.len(),
            kept@ == head + content@.subrange(end as int, i as int),
    {
        kept.push(content[i]);
        assert(kept@ =~= head + content@.subrange(end as int, i + 1));
    }
    assert(kept@ =~= cut(content@, start as int, end as int));
    *content = kept;
}

// *** Failures

/// Why an instruction could not be applied.
#[derive(Debug, Clone, PartialEq, Eq)]
pub enum ApplyError {
    /// An insertion lies behind the end of the document.
    InsertOutOfBounds { pos: u64, doc_len: usize, text: String },
    /// A deletion names other characters than those that stand there.
    DeleteMismatch { pos: u64, expected: String, actual: String },
    /// A deletion reaches behind the end of the document.
    DeleteOutOfRange { pos: u64, doc_len: usize, text: String },
}

/// What a failure says.
pub enum ApplyErrorView {
    /// An insertion lies behind the end of the document.
    InsertOutOfBounds { pos: nat, doc_len: nat, text: Seq<char> },
    /// A deletion names other characters than those that stand there.
    DeleteMismatch { pos: nat, expected: Seq<char>, actual: Seq<char> },
    /// A deletion reaches behind the end of the document.
    DeleteOutOfRange { pos: nat, doc_len: nat, text: Seq<char> },
}

impl View for ApplyError {
    type V = ApplyErrorView;

    open spec fn view(&self) -> ApplyErrorView {
        match self {
            ApplyError::InsertOutOfBounds { pos, doc_len, text } => {
                ApplyErrorView::InsertOutOfBounds {
                    pos: *pos as nat,
                    doc_len: *doc_len as nat,
                    text: text@,
                }
            },
            ApplyError::DeleteMismatch { pos, expected, actual } => {
                ApplyErrorView::DeleteMismatch {
                    pos: *pos as nat,
                    expected: expected@,
                    actual: actual@,
                }
            },
            ApplyError::DeleteOutOfRange { pos, doc_len, text } => {
                ApplyErrorView::DeleteOutOfRange {
                    pos: *pos as nat,
                    doc_len: *doc_len as nat,
                    text: text@,
                }
            },
        }
    }
}

impl ApplyErrorView {
    /// The message of the failure.
    pub open spec fn text(self) -> Seq<char> {
        match self {
            ApplyErrorView::InsertOutOfBounds { pos, doc_len, text } => "Insert position "@
                + number::decimal(pos) + " out of bounds (doc_len: "@ + number::decimal(doc_len)
                + ", text: '"@ + text + "')"@,
            ApplyErrorView::DeleteMismatch { pos, expected, actual } => "Delete mismatch at pos "@
                + number::decimal(pos) + ": expected '"@ + expected + "', got '"@ + actual + "'"@,
            ApplyErrorView::DeleteOutOfRange { pos, doc_len, text } => "Delete position "@
                + number::decimal(pos) + " out of range (doc_len: "@ + number::decimal(doc_len)
                + ", text: '"@ + text + "')"@,
        }
    }
}

impl ApplyError {
    /// The message of the failure.
    pub fn message(&self) -> (r: String)
        ensures
            r@ == self@.text(),
    {
        match self {
            ApplyError::InsertOutOfBounds { pos, doc_len, text } => {
                let mut r = "Insert position ".to_owned();
                r.append(number::decimal_text(*pos).as_str());
                r.append(" out of bounds (doc_len: ");
                r.append(number::decimal_text(*doc_len as u64).as_str());
                r.append(", text: '");
                r.append(text.as_str());
                r.append("')");
                r
            },
            ApplyError::DeleteMismatch { pos, expected, actual } => {
                let mut r = "Delete mismatch at pos ".to_owned();
                r.append(number::decimal_text(*pos).as_str());
                r.append(": expected '");
                r.append(expected.as_str());
                r.append("', got '");
                r.append(actual.as_str());
                r.append("'");
                r
            },
            ApplyError::DeleteOutOfRange { pos, doc_len, text } => {
                let mut r = "Delete position ".to_owned();
                r.append(number::decimal_text(*pos).as_str());
                r.append(" out of range (doc_len: ");
                r.append(number::decimal_text(*doc_len as u64).as_str());
                r.append(", text: '");
                r.append(text.as_str());
                r.append("')");
                r
            },
        }
    }
}

// *** Instructions

/// A document's text after the insertions, from the last to the first; the
/// first one that lies behind the end stops the work.
pub open spec fn insert_all(doc: Seq<char>, edits: Seq<Edit>) -> (Seq<char>, Option<ApplyErrorView>)
    decreases edits.len(),
{
    if edits.len() == 0 {
        (doc, None)
    } else {
        let e = edits.last();
        if e.pos > doc.len() {
            (
                doc,
                Some(
                    ApplyErrorView::InsertOutOfBounds {
                        pos: e.pos as nat,
                        doc_len: doc.len(),
                        text: e.content@,
                    },
                ),
            )
        } else {
            insert_all(spliced(doc, e.pos as int, e.content@), edits.drop_last())
        }
    }
}

/// A document's text after the deletions, from the last to the first; the first
/// one that does not find its characters stops the work.
pub open spec fn delete_all(doc: Seq<char>, edits: Seq<Edit>) -> (Seq<char>, Option<ApplyErrorView>)
    decreases edits.len(),
{
    if edits.len() == 0 {
        (doc, None)
    } else {
        let e = edits.last();
        let p = e.pos as int;
        let q = e.pos + e.content@.len();
        if q > doc.len() {
            (
                doc,
                Some(
                    ApplyErrorView::DeleteOutOfRange {
                        pos: e.pos as nat,
                        doc_len: doc.len(),
                        text: e.content@,
                    },
                ),
            )
        } else if doc.subrange(p, q) != e.content@ {
            (
                doc,
                Some(
                    ApplyErrorView::DeleteMismatch {
                        pos: e.pos as nat,
                        expected: e.content@,
                        actual: doc.subrange(p, q),
                    },
                ),
            )
        } else {
            delete_all(cut(doc, p, q), edits.drop_last())
        }
    }
}

/// The number of characters in all edits.
pub open spec fn total_len(edits: Seq<Edit>) -> nat
    decreases edits.len(),
{
    if edits.len() == 0 {
        0
    } else {
        total_len(edits.drop_last()) + edits.last().content@.len()
    }
}

/// The smallest position of the edits.
pub open spec fn min_pos(edits: Seq<Edit>) -> nat
    recommends
        edits.len() > 0,
    decreases edits.len(),
{
    if edits.len() <= 1 {
        edits[0].pos as nat
    } else {
        let m = min_pos(edits.drop_last());
        if edits.last().pos < m {
            edits.last().pos as nat
        } else {
            m
        }
    }
}

/// A document after an instruction, and the failure if there was one. The count
/// of instructions goes up either way. The cursor moves only where all edits
/// were applied: behind the inserted text, or to the first deletion.
pub open spec fn applied(doc: DocView, instr: EditInstruction) -> (DocView, Option<ApplyErrorView>) {
    let ops_applied = doc.ops_applied + 1;
    match instr {
        EditInstruction::Ins { edits } => {
            let (content, error) = insert_all(doc.content, edits@);
            let cursor = if error is None && edits@.len() > 0 {
                edits@.last().pos as nat + total_len(edits@)
            } else {
                doc.cursor
            };
            (DocView { content, cursor, ops_applied }, error)
        },
        EditInstruction::Del { edits } => {
            let (content, error) = delete_all(doc.content, edits@);
            let cursor = if error is None && edits@.len() > 0 {
                min_pos(edits@)
            } else {
                doc.cursor
            };
            (DocView { content, cursor, ops_applied }, error)
        },
    }
}

/// Whether no deletion of the instruction reaches behind the end.
pub open spec fn in_range(doc: DocView, instr: EditInstruction) -> bool {
    !(applied(doc, instr).1 is Some && applied(doc, instr).1->0 is DeleteOutOfRange)
}

impl MockDocument {
    /// Whether the cursor lies within the text.
    pub open spec fn wf(&self) -> bool {
        self@.cursor <= self@.content.len()
    }

    /// A document with the given text and the cursor at its start.
    pub fn new(initial_content: &str) -> (r: Self)
        ensures
            r@ == fresh(initial_content@),
    {
        MockDocument { content: text::to_chars(initial_content), cursor: 0, ops_applied: 0 }
    }

    /// Moves the cursor by `offset` characters, at most to either end.
    pub fn move_cursor(&mut self, offset: i64)
        ensures
            final(self)@ == moved(old(self)@, offset),
    {
        let target: i128 = self.cursor as i128 + offset as i128;
        let len: usize = self.content.len();
        self.cursor = if target < 0 {
            0
        } else if target > len as i128 {
            len
        } else {
            target as usize
        };
    }

    /// Inserts `text` at the cursor and moves the cursor behind it. Returns the
    /// operation that was done.
    pub fn insert(&mut self, text: &str) -> (r: EditorFatOp)
        requires
            old(self).wf(),
        ensures
            final(self)@ == inserted(old(self)@, text@),
            final(self).wf(),
            r@ == (EditorFatOpView { op: insert_op(old(self)@, text@), group_seq: 1 }),
    {
        let chars = text::to_chars(text);
        splice(&mut self.content, self.cursor, &chars);
        let len: usize = self.content.len();
        assert(len == old(self)@.content.len() + text@.len());
        let pos: u64 = self.cursor as u64;
        self.cursor = self.cursor + chars.len();
        EditorFatOp { op: EditorOp::Ins { pos, content: text.to_owned() }, group_seq: 1 }
    }

    /// Deletes `count` characters: backward from the cursor where `count` is
    /// positive, forward where it is negative. Returns the operation that was
    /// done, if there was anything to delete.
    pub fn delete(&mut self, count: i64) -> (r: Option<EditorFatOp>)
        requires
            count != 0 ==> old(self).wf(),
        ensures
            final(self)@ == deleted(old(self)@, count),
            match r {
                Some(f) => deletes(old(self)@, count) && f@ == (EditorFatOpView {
                    op: delete_op(old(self)@, count),
                    group_seq: 1,
                }),
                None => !deletes(old(self)@, count),
            },
            old(self).wf() ==> final(self).wf(),
    {
        if count == 0 {
            return None;
        }
        let len: usize = self.content.len();
        let reach: i128 = self.cursor as i128 - count as i128;
        let (start, end): (usize, usize) = if count > 0 {
            (
                if reach < 0 {
                    0
                } else {
                    reach as usize
                },
                self.cursor,
            )
        } else {
            (
                self.cursor,
                if reach > len as i128 {
                    len
                } else {
                    reach as usize
                },
            )
        };
        if start == end {
            return None;
        }
        let deleted = text::chars_between(&self.content, start, end);
        remove_range(&mut self.content, start, end);
        self.cursor = start;
        Some(
            EditorFatOp {
                op: EditorOp::Del { pos: start as u64, content: text::from_chars(&deleted) },
                group_seq: 1,
            },
        )
    }

    fn apply_inserts(&mut self, edits: &[Edit]) -> (r: Result<(), ApplyError>)
        ensures
            ({
                let (content, error) = insert_all(old(self)@.content, edits@);
                &&& final(self)@.content == content
                &&& final(self)@.ops_applied == old(self)@.ops_applied
                &&& match r {
                    Ok(_) => {
                        &&& error is None
                        &&& final(self)@.cursor == if edits@.len() > 0 {
                            edits@.last().pos as nat + total_len(edits@)
                        } else {
                            old(self)@.cursor
                        }
                        &&& edits@.len() > 0 ==> final(self).wf()
                    },
                    Err(e) => error == Some(e@) && final(self)@.cursor == old(self)@.cursor,
                }
                &&& old(self).wf() ==> final(self).wf()
            }),
    {
        let n: usize = edits.len();
        let mut i: usize = n;
        assert(edits@.take(n as int) =~= edits@);
        let ghost start = self@;
        proof {
            lemma_total_len_step(edits@, n as int);
        }
        while i > 0
            invariant
                i <= n,
                n == edits@.len(),
                start == old(self)@,
                insert_all(start.content, edits@) == insert_all(
                    self@.content,
                    edits@.take(i as int),
                ),
                self@.cursor == start.cursor,
                self@.ops_applied == start.ops_applied,
                self@.content.len() + total_len(edits@.take(i as int)) == start.content.len()
                    + total_len(edits@),
                self@.content.len() >= start.content.len(),
                i < n ==> edits@.last().pos <= start.content.len(),
            decreases i,
        {
            i = i - 1;
            let e = &edits[i];
            let ghost before = edits@.take(i + 1);
            assert(before.last() == *e);
            assert(before.drop_last() =~= edits@.take(i as int));
            let doc_len: usize = self.content.len();
            if e.pos > doc_len as u64 {
                return Err(
                    ApplyError::InsertOutOfBounds { pos: e.pos, doc_len, text: e.content.clone() },
                );
            }
            let chars = text::to_chars(e.content.as_str());
            splice(&mut self.content, e.pos as usize, &chars);
        }
        assert(edits@.take(0) =~= Seq::<Edit>::empty());
        if n > 0 {
            let len: usize = self.content.len();
            assert(len == start.content.len() + total_len(edits@));
            let total = total_chars(edits, len);
            self.cursor = edits[n - 1].pos as usize + total;
        }
        Ok(())
    }

    fn apply_deletes(&mut self, edits: &[Edit]) -> (r: Result<(), ApplyError>)
        ensures
            ({
                let (content, error) = delete_all(old(self)@.content, edits@);
                &&& final(self)@.content == content
                &&& final(self)@.ops_applied == old(self)@.ops_applied
                &&& match r {
                    Ok(_) => {
                        &&& error is None
                        &&& final(self)@.cursor == if edits@.len() > 0 {
                            min_pos(edits@)
                        } else {
                            old(self)@.cursor
                        }
                        &&& edits@.len() > 0 ==> final(self).wf()
                    },
                    Err(e) => error == Some(e@) && final(self)@.cursor == old(self)@.cursor,
                }
            }),
    {
        let n: usize = edits.len();
        let mut i: usize = n;
        assert(edits@.take(n as int) =~= edits@);
        let ghost start = self@;
        let mut lowest: u64 = u64::MAX;
        while i > 0
            invariant
                i <= n,
                n == edits@.len(),
                start == old(self)@,
                delete_all(start.content, edits@) == delete_all(
                    self@.content,
                    edits@.take(i as int),
                ),
                self@.cursor == start.cursor,
                self@.ops_applied == start.ops_applied,
                forall|j: int| i <= j < n ==> lowest <= (#[trigger] edits@[j]).pos,
                i < n ==> exists|j: int| i <= j < n && (#[trigger] edits@[j]).pos == lowest,
                i < n ==> lowest <= self@.content.len(),
            decreases i,
        {
            i = i - 1;
            let e = &edits[i];
            let ghost before = edits@.take(i + 1);
            assert(before.last() == *e);
            assert(before.drop_last() =~= edits@.take(i as int));
            let doc_len: usize = self.content.len();
            let chars = text::to_chars(e.content.as_str());
            if e.pos > doc_len as u64 || chars.len() > doc_len - e.pos as usize {
                return Err(
                    ApplyError::DeleteOutOfRange { pos: e.pos, doc_len, text: e.content.clone() },
                );
            }
            let p: usize = e.pos as usize;
            let q: usize = p + chars.len();
            let actual = text::chars_between(&self.content, p, q);
            if !text::same_chars(&actual, &chars) {
                return Err(
                    ApplyError::DeleteMismatch {
                        pos: e.pos,
                        expected: e.content.clone(),
                        actual: text::from_chars(&actual),
                    },
                );
            }
            remove_range(&mut self.content, p, q);
            if e.pos < lowest || i + 1 == n {
                lowest = e.pos;
            }
            assert(edits@[i as int].pos == e.pos);
        }
        assert(edits@.take(0) =~= Seq::<Edit>::empty());
        if n > 0 {
            proof {
                lemma_min_pos(edits@, lowest as nat);
            }
            let len: usize = self.content.len();
            assert(lowest <= len);
            self.cursor = lowest as usize;
        }
        Ok(())
    }

    /// Applies an instruction and reports a deletion that reaches behind the
    /// end of the document as a failure.
    pub fn apply_checked(&mut self, instr: &EditInstruction) -> (r: Result<(), ApplyError>)
        requires
            old(self)@.ops_applied < usize::MAX,
        ensures
            final(self)@ == applied(old(self)@, *instr).0,
            match r {
                Ok(_) => applied(old(self)@, *instr).1 is None,
                Err(e) => applied(old(self)@, *instr).1 == Some(e@),
            },
            r is Ok && old(self).wf() ==> final(self).wf(),
    {
        self.ops_applied = self.ops_applied + 1;
        match instr {
            EditInstruction::Ins { edits } => self.apply_inserts(edits),
            EditInstruction::Del { edits } => self.apply_deletes(edits),
        }
    }

    /// Applies an instruction to this document.
    pub fn apply_edit_instruction(&mut self, instr: &EditInstruction) -> (r: Result<(), ApplyError>)
        requires
            old(self)@.ops_applied < usize::MAX,
            in_range(old(self)@, *instr),
        ensures
            final(self)@ == applied(old(self)@, *instr).0,
            match r {
                Ok(_) => applied(old(self)@, *instr).1 is None,
                Err(e) => applied(old(self)@, *instr).1 == Some(e@) && !(e is DeleteOutOfRange),
            },
            r is Ok && old(self).wf() ==> final(self).wf(),
    {
        self.apply_checked(instr)
    }

    /// Applies the instruction of an operation that came from another site.
    pub fn apply_remote_op(&mut self, op: &EditorLeanOp) -> (r: Result<(), ApplyError>)
        requires
            old(self)@.ops_applied < usize::MAX,
            in_range(old(self)@, op.op),
        ensures
            final(self)@ == applied(old(self)@, op.op).0,
            match r {
                Ok(_) => applied(old(self)@, op.op).1 is None,
                Err(e) => applied(old(self)@, op.op).1 == Some(e@) && !(e is DeleteOutOfRange),
            },
    {
        self.apply_edit_instruction(&op.op)
    }

    /// The text of the document.
    pub fn get_content(&self) -> (r: String)
        ensures
            r@ == self@.content,
    {
        text::from_chars(&self.content)
    }

    /// How many instructions were applied.
    pub fn get_ops_applied(&self) -> (r: usize)
        ensures
            r == self@.ops_applied,
    {
        self.ops_applied
    }

    /// The position of the cursor.
    pub fn get_cursor(&self) -> (r: usize)
        ensures
            r == self@.cursor,
    {
        self.cursor
    }
}

fn total_chars(edits: &[Edit], limit: usize) -> (r: usize)
    requires
        total_len(edits@) <= limit,
    ensures
        r == total_len(edits@),
{
    let mut r: usize = 0;
    assert(edits@.take(0) =~= Seq::<Edit>::empty());
    for i in 0..edits.len()
        invariant
            total_len(edits@) <= limit,
            r == total_len(edits@.take(i as int)),
    {
        let k: usize = edits[i].content.as_str().unicode_len();
        proof {
            lemma_total_len_step(edits@, i as int);
            lemma_total_len_mono(edits@, i + 1);
        }
        r = r + k;
    }
    assert(edits@.take(edits@.len() as int) =~= edits@);
    r
}

proof fn lemma_total_len_step(edits: Seq<Edit>, i: int)
    requires
        0 <= i <= edits.len(),
    ensures
        i < edits.len() ==> total_len(edits.take(i + 1)) == total_len(edits.take(i))
            + edits[i].content@.len(),
        edits.take(edits.len() as int) == edits,
{
    if i < edits.len() {
        assert(edits.take(i + 1).drop_last() =~= edits.take(i));
    }
    assert(edits.take(edits.len() as int) =~= edits);
}

proof fn lemma_total_len_mono(edits: Seq<Edit>, i: int)
    requires
        0 <= i <= edits.len(),
    ensures
        total_len(edits.take(i)) <= total_len(edits),
    decreases edits.len() - i,
{
    lemma_total_len_step(edits, i);
    if i < edits.len() {
        lemma_total_len_mono(edits, i + 1);
    }
}

proof fn lemma_min_pos(edits: Seq<Edit>, m: nat)
    requires
        edits.len() > 0,
        forall|j: int| 0 <= j < edits.len() ==> m <= (#[trigger] edits[j]).pos,
        exists|j: int| 0 <= j < edits.len() && (#[trigger] edits[j]).pos == m,
    ensures
        min_pos(edits) == m,
    decreases edits.len(),
{
    lemma_min_pos_bound(edits);
    let j = choose|j: int| 0 <= j < edits.len() && (#[trigger] edits[j]).pos == m;
    let k = choose|k: int| 0 <= k < edits.len() && (#[trigger] edits[k]).pos == min_pos(edits);
    assert(edits[j].pos >= min_pos(edits));
    assert(edits[k].pos >= m);
}

proof fn lemma_min_pos_bound(edits: Seq<Edit>)
    requires
        edits.len() > 0,
    ensures
        forall|j: int| 0 <= j < edits.len() ==> min_pos(edits) <= (#[trigger] edits[j]).pos,
        exists|j: int| 0 <= j < edits.len() && (#[trigger] edits[j]).pos == min_pos(edits),
    decreases edits.len(),
{
    if edits.len() == 1 {
        assert(edits[0].pos == min_pos(edits));
    } else {
        let short = edits.drop_last();
        lemma_min_pos_bound(short);
        assert forall|j: int| 0 <= j < edits.len() implies min_pos(edits) <= (
        #[trigger] edits[j]).pos by {
            if j < short.len() {
                assert(short[j] == edits[j]);
            }
        }
        let k = choose|k: int| 0 <= k < short.len() && (#[trigger] short[k]).pos == min_pos(short);
        assert(edits[k] == short[k]);
        assert(edits[edits.len() - 1] == edits.last());
    }
}

// *** What the operations promise together

/// Whether the edits are in order of position and lie within the first `to`
/// characters.
pub open spec fn ordered(edits: Seq<Edit>, to: int) -> bool {
    &&& forall|i: int| 0 <= i < edits.len() ==> (#[trigger] edits[i]).pos <= to
    &&& forall|i: int, j: int|
        0 <= i <= j < edits.len() ==> (#[trigger] edits[i]).pos <= (#[trigger] edits[j]).pos
}

/// Whether the edits are in order, do not overlap and name the characters of
/// the first `to` that stand at their places.
pub open spec fn ordered_apart(doc: Seq<char>, edits: Seq<Edit>, to: int) -> bool
    decreases edits.len(),
{
    edits.len() == 0 || {
        let e = edits.last();
        let q = e.pos + e.content@.len();
        &&& q <= to
        &&& doc.subrange(e.pos as int, q) == e.content@
        &&& ordered_apart(doc, edits.drop_last(), e.pos as int)
    }
}

/// The first `to` characters of a text with all insertions made at once.
pub open spec fn woven(doc: Seq<char>, edits: Seq<Edit>, to: int) -> Seq<char>
    decreases edits.len(),
{
    if edits.len() == 0 {
        doc.take(to)
    } else {
        let e = edits.last();
        woven(doc, edits.drop_last(), e.pos as int) + e.content@ + doc.subrange(e.pos as int, to)
    }
}

/// The first `to` characters of a text with all deletions made at once.
pub open spec fn thinned(doc: Seq<char>, edits: Seq<Edit>, to: int) -> Seq<char>
    decreases edits.len(),
{
    if edits.len() == 0 {
        doc.take(to)
    } else {
        let e = edits.last();
        thinned(doc, edits.drop_last(), e.pos as int) + doc.subrange(
            e.pos + e.content@.len(),
            to,
        )
    }
}

/// All but the last of ordered edits lie before the last one.
proof fn lemma_ordered_short(edits: Seq<Edit>, to: int)
    requires
        edits.len() > 0,
        ordered(edits, to),
    ensures
        ordered(edits.drop_last(), edits.last().pos as int),
        edits.last().pos <= to,
{
    let short = edits.drop_last();
    let n = edits.len() - 1;
    assert(edits[n] == edits.last());
    assert forall|i: int| 0 <= i < short.len() implies (#[trigger] short[i]).pos
        <= edits.last().pos by {
        assert(edits[i].pos <= edits[n].pos);
    }
    assert forall|i: int, j: int| 0 <= i <= j < short.len() implies (#[trigger] short[i]).pos <= (
    #[trigger] short[j]).pos by {
        assert(edits[i].pos <= edits[j].pos);
    }
}

proof fn lemma_woven_prefix(a: Seq<char>, b: Seq<char>, edits: Seq<Edit>, p: int)
    requires
        0 <= p <= a.len(),
        p <= b.len(),
        forall|i: int| 0 <= i < p ==> a[i] == b[i],
        ordered(edits, p),
    ensures
        woven(b, edits, b.len() as int) == woven(a, edits, p) + b.skip(p),
    decreases edits.len(),
{
    if edits.len() == 0 {
        assert(b.take(b.len() as int) =~= a.take(p) + b.skip(p));
    } else {
        let e = edits.last();
        let q = e.pos as int;
        let short = edits.drop_last();
        lemma_ordered_short(edits, p);
        lemma_woven_same(a, b, short, q);
        assert(b.subrange(q, b.len() as int) =~= a.subrange(q, p) + b.skip(p));
        let w = woven(a, short, q);
        assert(w + e.content@ + (a.subrange(q, p) + b.skip(p)) =~= (w + e.content@ + a.subrange(
            q,
            p,
        )) + b.skip(p));
    }
}

proof fn lemma_woven_same(a: Seq<char>, b: Seq<char>, edits: Seq<Edit>, p: int)
    requires
        0 <= p <= a.len(),
        p <= b.len(),
        forall|i: int| 0 <= i < p ==> a[i] == b[i],
        ordered(edits, p),
    ensures
        woven(a, edits, p) == woven(b, edits, p),
    decreases edits.len(),
{
    if edits.len() == 0 {
        assert(a.take(p) =~= b.take(p));
    } else {
        let q = edits.last().pos as int;
        let short = edits.drop_last();
        lemma_ordered_short(edits, p);
        lemma_woven_same(a, b, short, q);
        assert(a.subrange(q, p) =~= b.subrange(q, p));
    }
}

/// Insertions in order of position are made as if all at the same time: every
/// one finds its place in the text as it was before.
pub proof fn lemma_insert_at_once(doc: Seq<char>, edits: Seq<Edit>)
    requires
        ordered(edits, doc.len() as int),
    ensures
        insert_all(doc, edits) == (woven(doc, edits, doc.len() as int), None::<ApplyErrorView>),
    decreases edits.len(),
{
    if edits.len() == 0 {
        assert(doc.take(doc.len() as int) =~= doc);
    } else {
        let e = edits.last();
        let p = e.pos as int;
        let short = edits.drop_last();
        assert(edits[edits.len() - 1] == e);
        let next = spliced(doc, p, e.content@);
        lemma_ordered_short(edits, doc.len() as int);
        lemma_insert_at_once(next, short);
        lemma_woven_prefix(doc, next, short, p);
        assert(next.skip(p) =~= e.content@ + doc.subrange(p, doc.len() as int));
        let w = woven(doc, short, p);
        assert(w + (e.content@ + doc.subrange(p, doc.len() as int)) =~= w + e.content@
            + doc.subrange(p, doc.len() as int));
    }
}

proof fn lemma_apart_same(a: Seq<char>, b: Seq<char>, edits: Seq<Edit>, p: int)
    requires
        0 <= p <= a.len(),
        p <= b.len(),
        forall|i: int| 0 <= i < p ==> a[i] == b[i],
        ordered_apart(a, edits, p),
    ensures
        ordered_apart(b, edits, p),
        thinned(a, edits, p) == thinned(b, edits, p),
    decreases edits.len(),
{
    if edits.len() == 0 {
        assert(a.take(p) =~= b.take(p));
    } else {
        let e = edits.last();
        let q = e.pos as int;
        lemma_apart_same(a, b, edits.drop_last(), q);
        assert(a.subrange(q, q + e.content@.len()) =~= b.subrange(q, q + e.content@.len()));
        assert(a.subrange(q + e.content@.len(), p) =~= b.subrange(q + e.content@.len(), p));
    }
}

proof fn lemma_thinned_more(doc: Seq<char>, edits: Seq<Edit>, p: int)
    requires
        0 <= p <= doc.len(),
        ordered_apart(doc, edits, p),
    ensures
        ordered_apart(doc, edits, doc.len() as int),
        thinned(doc, edits, doc.len() as int) == thinned(doc, edits, p) + doc.skip(p),
{
    if edits.len() == 0 {
        assert(doc.take(doc.len() as int) =~= doc.take(p) + doc.skip(p));
    } else {
        let e = edits.last();
        let q = e.pos + e.content@.len();
        assert(doc.subrange(q, doc.len() as int) =~= doc.subrange(q, p) + doc.skip(p));
        let t = thinned(doc, edits.drop_last(), e.pos as int);
        assert(t + (doc.subrange(q, p) + doc.skip(p)) =~= t + doc.subrange(q, p) + doc.skip(p));
    }
}

/// Deletions in order that do not overlap are made as if all at the same time.
pub proof fn lemma_delete_at_once(doc: Seq<char>, edits: Seq<Edit>)
    requires
        ordered_apart(doc, edits, doc.len() as int),
    ensures
        delete_all(doc, edits) == (thinned(doc, edits, doc.len() as int), None::<ApplyErrorView>),
    decreases edits.len(),
{
    if edits.len() == 0 {
        assert(doc.take(doc.len() as int) =~= doc);
    } else {
        let e = edits.last();
        let p = e.pos as int;
        let q = p + e.content@.len();
        let short = edits.drop_last();
        let next = cut(doc, p, q);
        lemma_apart_same(doc, next, short, p);
        lemma_thinned_more(next, short, p);
        lemma_delete_at_once(next, short);
        assert(next.skip(p) =~= doc.subrange(q, doc.len() as int));
    }
}

/// Deleting what was just inserted gives the text back.
pub proof fn lemma_delete_undoes_insert(doc: Seq<char>, pos: int, piece: Seq<char>)
    requires
        0 <= pos <= doc.len(),
    ensures
        cut(spliced(doc, pos, piece), pos, pos + piece.len()) == doc,
        spliced(doc, pos, piece).subrange(pos, pos + piece.len()) == piece,
{
    assert(cut(spliced(doc, pos, piece), pos, pos + piece.len()) =~= doc);
    assert(spliced(doc, pos, piece).subrange(pos, pos + piece.len()) =~= piece);
}

/// Inserting again what was just deleted gives the text back.
pub proof fn lemma_insert_undoes_delete(doc: Seq<char>, start: int, end: int)
    requires
        0 <= start <= end <= doc.len(),
    ensures
        spliced(cut(doc, start, end), start, doc.subrange(start, end)) == doc,
{
    assert(spliced(cut(doc, start, end), start, doc.subrange(start, end)) =~= doc);
}

/// A text with insertions made in it is longer by what was inserted.
proof fn lemma_woven_len(doc: Seq<char>, edits: Seq<Edit>, to: int)
    requires
        0 <= to <= doc.len(),
        ordered(edits, to),
    ensures
        woven(doc, edits, to).len() == to + total_len(edits),
    decreases edits.len(),
{
    if edits.len() > 0 {
        lemma_ordered_short(edits, to);
        lemma_woven_len(doc, edits.drop_last(), edits.last().pos as int);
    }
}

/// Whether deletions name what insertions put in, each at the place where it
/// stands once all are made.
pub open spec fn segments_of(dels: Seq<Edit>, edits: Seq<Edit>) -> bool {
    &&& dels.len() == edits.len()
    &&& forall|i: int|
        0 <= i < edits.len() ==> {
            &&& (#[trigger] dels[i]).pos == edits[i].pos + total_len(edits.take(i))
            &&& dels[i].content@ == edits[i].content@
        }
}

proof fn lemma_segments_deleted(doc: Seq<char>, edits: Seq<Edit>, dels: Seq<Edit>)
    requires
        ordered(edits, doc.len() as int),
        segments_of(dels, edits),
    ensures
        delete_all(woven(doc, edits, doc.len() as int), dels) == (doc, None::<ApplyErrorView>),
    decreases edits.len(),
{
    let to = doc.len() as int;
    if edits.len() == 0 {
        assert(doc.take(to) =~= doc);
    } else {
        let e = edits.last();
        let d = dels.last();
        let p = e.pos as int;
        let n = edits.len() - 1;
        let short = edits.drop_last();
        lemma_ordered_short(edits, to);
        assert(edits.take(n) =~= short);
        assert(dels[n] == d && edits[n] == e);
        let head = woven(doc, short, p);
        lemma_woven_len(doc, short, p);
        let all = woven(doc, edits, to);
        let q = d.pos as int;
        let r = q + d.content@.len();
        assert(q == head.len());
        assert(all =~= head + e.content@ + doc.subrange(p, to));
        assert(all.subrange(q, r) =~= d.content@);
        lemma_woven_prefix(doc, doc, short, p);
        assert(doc.skip(p) =~= doc.subrange(p, to));
        assert(cut(all, q, r) =~= woven(doc, short, to));
        let dels_short = dels.drop_last();
        assert forall|i: int| 0 <= i < short.len() implies {
            &&& (#[trigger] dels_short[i]).pos == short[i].pos + total_len(short.take(i))
            &&& dels_short[i].content@ == short[i].content@
        } by {
            assert(dels[i] == dels_short[i]);
            assert(short.take(i) =~= edits.take(i));
        }
        assert(ordered(short, to)) by {
            assert forall|i: int| 0 <= i < short.len() implies (#[trigger] short[i]).pos <= to by {
                assert(short[i].pos <= p);
            }
        }
        lemma_segments_deleted(doc, short, dels_short);
    }
}

/// Deleting what an instruction inserted in order, each segment at its new
/// place, gives the text back.
pub proof fn lemma_segments_undo(doc: DocView, ins: EditInstruction, del: EditInstruction)
    requires
        ins is Ins,
        del is Del,
        applied(doc, ins).1 is None,
        forall|i: int, j: int|
            0 <= i <= j < ins->Ins_edits@.len() ==> (#[trigger] ins->Ins_edits@[i]).pos <= (
            #[trigger] ins->Ins_edits@[j]).pos,
        segments_of(del->Del_edits@, ins->Ins_edits@),
    ensures
        ({
            let (after, error) = applied(applied(doc, ins).0, del);
            error is None && after.content == doc.content
        }),
{
    let edits = ins->Ins_edits@;
    let to = doc.content.len() as int;
    if edits.len() > 0 {
        let n = edits.len() - 1;
        assert(edits[n] == edits.last());
        assert forall|i: int| 0 <= i < edits.len() implies (#[trigger] edits[i]).pos <= to by {
            assert(edits[i].pos <= edits[n].pos);
        }
    }
    lemma_insert_at_once(doc.content, edits);
    lemma_segments_deleted(doc.content, edits, del->Del_edits@);
}

proof fn lemma_single(e: Edit)
    ensures
        seq![e].drop_last() == Seq::<Edit>::empty(),
        total_len(seq![e]) == e.content@.len(),
        min_pos(seq![e]) == e.pos,
{
    assert(seq![e].drop_last() =~= Seq::<Edit>::empty());
    assert(total_len(Seq::<Edit>::empty()) == 0);
}

/// A document that gets the operation of a local insertion as an instruction
/// ends up with the text and the cursor of the equal one in which it was made.
pub proof fn lemma_insert_replicates(
    here: DocView,
    there: DocView,
    text: Seq<char>,
    instr: EditInstruction,
)
    requires
        here.content == there.content,
        here.cursor <= here.content.len(),
        instr is Ins,
        instr->Ins_edits@.len() == 1,
        insert_op(here, text) == (EditorOpView::Ins {
            pos: instr->Ins_edits@[0].pos as nat,
            content: instr->Ins_edits@[0].content@,
        }),
    ensures
        ({
            let (after, error) = applied(there, instr);
            let own = inserted(here, text);
            error is None && after.content == own.content && after.cursor == own.cursor
        }),
{
    let edits = instr->Ins_edits@;
    let e = edits[0];
    assert(edits =~= seq![e]);
    lemma_single(e);
    assert(insert_all(spliced(there.content, e.pos as int, e.content@), Seq::<Edit>::empty()) == (
        spliced(there.content, e.pos as int, e.content@),
        None::<ApplyErrorView>,
    ));
}

/// A document that gets the operation of a local deletion as an instruction
/// ends up with the text and the cursor of the equal one in which it was made.
pub proof fn lemma_delete_replicates(
    here: DocView,
    there: DocView,
    count: i64,
    instr: EditInstruction,
)
    requires
        here.content == there.content,
        here.cursor <= here.content.len(),
        deletes(here, count),
        instr is Del,
        instr->Del_edits@.len() == 1,
        delete_op(here, count) == (EditorOpView::Del {
            pos: instr->Del_edits@[0].pos as nat,
            content: instr->Del_edits@[0].content@,
        }),
    ensures
        ({
            let (after, error) = applied(there, instr);
            let own = deleted(here, count);
            error is None && after.content == own.content && after.cursor == own.cursor
        }),
{
    let edits = instr->Del_edits@;
    let e = edits[0];
    assert(edits =~= seq![e]);
    lemma_single(e);
    let next = cut(there.content, e.pos as int, e.pos + e.content@.len());
    assert(delete_all(next, Seq::<Edit>::empty()) == (next, None::<ApplyErrorView>));
}

proof fn lemma_inserted_len(doc: Seq<char>, edits: Seq<Edit>)
    requires
        insert_all(doc, edits).1 is None,
    ensures
        insert_all(doc, edits).0.len() == doc.len() + total_len(edits),
        edits.len() > 0 ==> edits.last().pos <= doc.len(),
    decreases edits.len(),
{
    if edits.len() > 0 {
        let e = edits.last();
        lemma_inserted_len(spliced(doc, e.pos as int, e.content@), edits.drop_last());
    }
}

proof fn lemma_deleted_len(doc: Seq<char>, edits: Seq<Edit>)
    requires
        delete_all(doc, edits).1 is None,
        edits.len() > 0,
    ensures
        min_pos(edits) <= delete_all(doc, edits).0.len(),
    decreases edits.len(),
{
    let e = edits.last();
    let next = cut(doc, e.pos as int, e.pos + e.content@.len());
    let short = edits.drop_last();
    if short.len() == 0 {
        assert(delete_all(next, short).0 == next);
        assert(edits[0] == e);
    } else {
        lemma_deleted_len(next, short);
    }
}

/// A call that changes a document.
pub enum DocCall {
    /// The cursor is moved.
    Move(i64),
    /// A text is put in at the cursor.
    Insert(Seq<char>),
    /// Characters around the cursor are deleted.
    Delete(i64),
    /// An instruction is applied, with success or not.
    Apply(EditInstruction),
}

/// A document after a call.
pub open spec fn after_call(doc: DocView, call: DocCall) -> DocView {
    match call {
        DocCall::Move(offset) => moved(doc, offset),
        DocCall::Insert(text) => inserted(doc, text),
        DocCall::Delete(count) => deleted(doc, count),
        DocCall::Apply(instr) => applied(doc, instr).0,
    }
}

/// A cursor within the text stays within it, whatever is done: it moves, text is
/// put in or deleted at it, or an instruction is applied without failure.
pub proof fn lemma_cursor_stays(doc: DocView, call: DocCall)
    requires
        doc.cursor <= doc.content.len(),
        call is Apply ==> applied(doc, call->Apply_0).1 is None,
    ensures
        after_call(doc, call).cursor <= after_call(doc, call).content.len(),
{
    if let DocCall::Apply(instr) = call {
        match instr {
            EditInstruction::Ins { edits } => lemma_inserted_len(doc.content, edits@),
            EditInstruction::Del { edits } => {
                if edits@.len() > 0 {
                    lemma_deleted_len(doc.content, edits@);
                }
            },
        }
    }
}

/// A document after calls, one after the other.
pub open spec fn after_calls(doc: DocView, calls: Seq<DocCall>) -> DocView
    decreases calls.len(),
{
    if calls.len() == 0 {
        doc
    } else {
        after_call(after_calls(doc, calls.drop_last()), calls.last())
    }
}

/// How many of the calls apply an instruction.
pub open spec fn applications(calls: Seq<DocCall>) -> nat
    decreases calls.len(),
{
    if calls.len() == 0 {
        0
    } else {
        applications(calls.drop_last()) + if calls.last() is Apply {
            1nat
        } else {
            0nat
        }
    }
}

/// The count of a document that was just made is the number of calls since that
/// applied an instruction, with success or not. No other call counts.
pub proof fn lemma_counts_applications(content: Seq<char>, calls: Seq<DocCall>)
    ensures
        after_calls(fresh(content), calls).ops_applied == applications(calls),
    decreases calls.len(),
{
    if calls.len() > 0 {
        lemma_counts_applications(content, calls.drop_last());
    }
}

} // verus!
