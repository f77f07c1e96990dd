//! What holds of ids, addresses, descriptors and the texts for logs.

use crate::number;
use crate::text;
use crate::text::CharClass;
use crate::types::{content_text, describes, fat_op_views, hash_of, id_of, log_text, name_of};
use crate::types::{normalized_addr, opt_view, shown, shown_char};
use crate::types::{Edit, EditorFatOp, EditorFileDesc, EditorOp, EditorOpKind, EditorOpView};
use crate::types::FileDesc;
use vstd::prelude::*;
use vstd::string::*;

verus! {

// *** Signaling addresses

/// An address that has a scheme, that is a text before the first `://`, stays as
/// it is; any other gets `wss://` in front.
pub proof fn lemma_scheme(addr: Seq<char>, k: int)
    requires
        0 <= k <= addr.len(),
    ensures
        "://"@.is_prefix_of(addr) ==> normalized_addr(addr) == "wss://"@ + addr,
        !"://"@.is_prefix_of(addr) && "://"@.is_prefix_of(addr.skip(k)) ==> normalized_addr(addr)
            == addr,
        (forall|j: int| 0 <= j <= addr.len() ==> !"://"@.is_prefix_of(#[trigger] addr.skip(j)))
            ==> normalized_addr(addr) == "wss://"@ + addr,
{
    text::lemma_find(addr, "://"@);
    assert(addr.skip(0) =~= addr);
}

// *** Texts for logs

/// A log line shows the three characters by a backslash and a letter and every
/// other character as it is, one after the other.
pub proof fn lemma_shown(a: Seq<char>, b: Seq<char>, c: char)
    ensures
        shown(seq!['\n']) == seq!['\\', 'n'],
        shown(seq!['\t']) == seq!['\\', 't'],
        shown(seq!['\r']) == seq!['\\', 'r'],
        c != '\n' && c != '\t' && c != '\r' ==> shown(seq![c]) == seq![c],
        shown(a + b) == shown(a) + shown(b),
        shown(Seq::<char>::empty()) == Seq::<char>::empty(),
    decreases b.len(),
{
    reveal_strlit("\\n");
    reveal_strlit("\\t");
    reveal_strlit("\\r");
    let none = Seq::<char>::empty();
    assert(seq!['\n'].drop_last() =~= none);
    assert(seq!['\t'].drop_last() =~= none);
    assert(seq!['\r'].drop_last() =~= none);
    assert(seq![c].drop_last() =~= none);
    assert(shown(none) =~= none);
    assert(shown(seq!['\n']) =~= seq!['\\', 'n']);
    assert(shown(seq!['\t']) =~= seq!['\\', 't']);
    assert(shown(seq!['\r']) =~= seq!['\\', 'r']);
    if c != '\n' && c != '\t' && c != '\r' {
        assert(shown(seq![c]) =~= seq![c]);
    }
    if b.len() == 0 {
        assert(a + b =~= a);
        assert(shown(a) + shown(b) =~= shown(a));
    } else {
        lemma_shown(a, b.drop_last(), c);
        assert((a + b).drop_last() =~= a + b.drop_last());
        assert(shown(a + b) =~= shown(a) + shown(b));
    }
}

/// A log line holds no line feed, tab or carriage return.
pub proof fn lemma_shown_on_one_line(s: Seq<char>)
    ensures
        forall|i: int|
            0 <= i < shown(s).len() ==> #[trigger] shown(s)[i] != '\n' && shown(s)[i] != '\t' && shown(
                s,
            )[i] != '\r',
    decreases s.len(),
{
    reveal_strlit("\\n");
    reveal_strlit("\\t");
    reveal_strlit("\\r");
    if s.len() > 0 {
        let head = shown(s.drop_last());
        lemma_shown_on_one_line(s.drop_last());
        assert forall|i: int| 0 <= i < shown(s).len() implies #[trigger] shown(s)[i] != '\n' && shown(
            s,
        )[i] != '\t' && shown(s)[i] != '\r' by {
            if i < head.len() {
                assert(shown(s)[i] == head[i]);
            } else {
                assert(shown(s)[i] == shown_char(s.last())[i - head.len()]);
            }
        }
    }
}

/// A text up to the limit is shown whole. Of a longer one the first and the last
/// ten characters are shown, and how many it has.
pub proof fn lemma_log_text(s: Seq<char>, max_len: nat)
    ensures
        s.len() <= max_len ==> log_text(s, max_len) == shown(s),
        s.len() > max_len && s.len() >= 10 ==> log_text(s, max_len) == shown(s.subrange(0, 10))
            + "..."@ + shown(s.subrange(s.len() - 10, s.len() as int)) + " ("@ + number::decimal(
            s.len(),
        ) + " chars)"@,
        s.len() > max_len && s.len() < 10 ==> log_text(s, max_len) == shown(s) + "..."@ + shown(s)
            + " ("@ + number::decimal(s.len()) + " chars)"@,
{
    assert(s.take(s.len() as int) =~= s);
    assert(s.skip(0) =~= s);
}

/// A content of up to fifty characters stays whole. Of a longer one the first
/// and the last twenty are given, and how many it has.
pub proof fn lemma_content_text(s: Seq<char>)
    ensures
        s.len() <= 50 ==> content_text(s) == s,
        s.len() > 50 ==> content_text(s) == "'"@ + s.subrange(0, 20) + "'\u{2026}'"@ + s.subrange(
            s.len() - 20,
            s.len() as int,
        ) + "' ("@ + number::decimal(s.len()) + " chars)"@,
{
}

// *** Server ids

/// An id is the name, two colons and the hash; without a name, or with an empty
/// one, it is the hash alone.
pub proof fn lemma_id_form(name: Seq<char>, hash: Seq<char>)
    ensures
        name.len() > 0 ==> id_of(Some(name), hash) == name + "::"@ + hash,
        id_of(Some(Seq::empty()), hash) == hash,
        id_of(None, hash) == hash,
        forall|s: &str| #[trigger] opt_view(Some(s)) == Some(s@),
        opt_view(None) is None,
{
}

/// The first two colons part the name from the hash, and an id without them has
/// no name and is its hash.
pub proof fn lemma_first_colons(id: Seq<char>, k: int)
    requires
        0 <= k <= id.len(),
    ensures
        "::"@.is_prefix_of(id.skip(k)) && (forall|j: int|
            0 <= j < k ==> !"::"@.is_prefix_of(#[trigger] id.skip(j))) ==> name_of(id) == Some(
            id.subrange(0, k),
        ) && hash_of(id) == id.subrange(k + 2, id.len() as int),
        (forall|j: int| 0 <= j <= id.len() ==> !"::"@.is_prefix_of(#[trigger] id.skip(j)))
            ==> name_of(id) is None && hash_of(id) == id,
{
    reveal_strlit("::");
    text::lemma_find(id, "::"@);
    if "::"@.is_prefix_of(id.skip(k)) && (forall|j: int|
        0 <= j < k ==> !"::"@.is_prefix_of(#[trigger] id.skip(j))) {
        assert(text::find(id, "::"@) == Some(k));
        assert(id.take(k) =~= id.subrange(0, k));
        assert(id.skip(k + 2) =~= id.subrange(k + 2, id.len() as int));
    }
}

// *** Editor operations

/// What an operation of an editor stands for, and of what kind it is.
pub proof fn lemma_editor_ops(pos: u64, content: String, context: u64)
    ensures
        (EditorOp::Ins { pos, content })@ == (EditorOpView::Ins {
            pos: pos as nat,
            content: content@,
        }),
        (EditorOp::Del { pos, content })@ == (EditorOpView::Del {
            pos: pos as nat,
            content: content@,
        }),
        (EditorOp::Undo { context })@ == (EditorOpView::Undo { context: context as nat }),
        (EditorOp::Redo { context })@ == (EditorOpView::Redo { context: context as nat }),
        (EditorOp::Ins { pos, content }).kind_of() == EditorOpKind::Original,
        (EditorOp::Del { pos, content }).kind_of() == EditorOpKind::Original,
        (EditorOp::Undo { context }).kind_of() == EditorOpKind::Undo,
        (EditorOp::Redo { context }).kind_of() == EditorOpKind::Redo,
{
}

/// A list of operations is read one by one, each with its group.
pub proof fn lemma_op_lists(ops: Seq<EditorFatOp>)
    ensures
        fat_op_views(ops).len() == ops.len(),
        forall|i: int|
            0 <= i < ops.len() ==> (#[trigger] fat_op_views(ops)[i]).op == ops[i].op@ && fat_op_views(
                ops,
            )[i].group_seq == ops[i].group_seq,
{
}

/// How operations and edits are written: a word, and in brackets the position
/// and the content, or the context.
pub proof fn lemma_ops_written(pos: u64, content: String, context: u64)
    ensures
        (EditorOp::Ins { pos, content }).text() == "ins("@ + number::decimal(pos as nat) + ", "@
            + log_text(content@, 30) + ")"@,
        (EditorOp::Del { pos, content }).text() == "del("@ + number::decimal(pos as nat) + ", "@
            + log_text(content@, 30) + ")"@,
        (Edit { pos, content }).text() == "edit("@ + number::decimal(pos as nat) + ", "@ + log_text(
            content@,
            30,
        ) + ")"@,
        (EditorOp::Undo { context }).text() == "undo("@ + number::decimal(context as nat) + ")"@,
        (EditorOp::Redo { context }).text() == "redo("@ + number::decimal(context as nat) + ")"@,
{
}

// *** File descriptors

/// How descriptors are written: with slashes between the host, the project and
/// the path.
pub proof fn lemma_descs_written(project: String, file: String, host_id: String)
    ensures
        (FileDesc::Project { id: project }).text() == project@,
        (FileDesc::ProjectFile { project, file }).text() == "/"@ + project@ + "/"@ + file@,
        file@.len() == 0 ==> (EditorFileDesc { host_id, project, file }).text() == host_id@ + "/"@
            + project@,
        file@.len() > 0 ==> (EditorFileDesc { host_id, project, file }).text() == host_id@ + "/"@
            + project@ + "/"@ + file@,
{
}

/// A descriptor of an editor without a path is the project. With one it is the
/// file in that project whose path has no slash at its ends.
pub proof fn lemma_slashes_around_paths(
    desc: FileDesc,
    editor: EditorFileDesc,
    before: Seq<char>,
    path: Seq<char>,
    after: Seq<char>,
)
    requires
        describes(desc, editor),
        editor.file@ == before + path + after,
        forall|k: int| 0 <= k < before.len() ==> #[trigger] before[k] == '/',
        forall|k: int| 0 <= k < after.len() ==> #[trigger] after[k] == '/',
        path.len() > 0 ==> path[0] != '/' && path.last() != '/',
    ensures
        editor.file@.len() == 0 ==> desc == (FileDesc::Project { id: editor.project }),
        editor.file@.len() > 0 ==> desc is ProjectFile && desc->project == editor.project && (
        desc->file)@ == path,
{
    text::lemma_trimmed_between(before, path, after, CharClass::Only('/'));
}

} // verus!
