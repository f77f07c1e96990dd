//! Common types: server ids, file descriptors, editor operations and their
//! textual forms.

pub mod promises;

use crate::number;
use crate::text;
use vstd::prelude::*;
use vstd::string::*;

verus! {

/// A server's identity. The format is `<name>::<cert-hash>`, and `<cert-hash>`
/// alone is accepted too. The hash portion is the SHA-256 of the DER
/// certificate in colon-separated upper-case hexadecimal. The name is for
/// convenience.
pub type ServerId = String;

/// A project's id is a descriptive name.
pub type ProjectId = String;

/// Number of a site that edits a document.
pub type SiteId = u32;

/// Number of a document on a server.
pub type DocId = u32;

/// Sequence number of an operation on the server of a document.
pub type GlobalSeq = u32;

/// Sequence number of a group of operations that are undone together.
pub type GroupSeq = u32;

/// Sequence number of an operation on the site that made it.
pub type LocalSeq = u32;

/// A file in a directory that is not yet a document, with its relative path.
pub type FilePath = (DocId, String);

/// Reserved virtual project of in-memory buffers.
pub const RESERVED_BUFFERS_PROJECT: &'static str = "_buffers";

/// Reserved virtual project of standalone files referenced by absolute paths.
pub const RESERVED_FILES_PROJECT: &'static str = "_files";

// *** Signaling addresses

/// `addr` with the scheme `wss://` put in front where it has none.
pub open spec fn normalized_addr(addr: Seq<char>) -> Seq<char> {
    match text::find(addr, "://"@) {
        Some(idx) if idx > 0 => addr,
        _ => "wss://"@ + addr,
    }
}

/// If `addr` has no URL scheme, puts `wss://` in front. Existing schemes
/// (`wss://`, `ws://`, `https://` and so on) are kept.
pub fn normalize_signaling_addr(addr: &str) -> (r: String)
    ensures
        r@ == normalized_addr(addr@),
{
    let chars = text::to_chars(addr);
    let pat = text::to_chars("://");
    match text::find_chars(&chars, &pat) {
        Some(idx) if idx > 0 => addr.to_owned(),
        _ => text::concat("wss://", addr),
    }
}

/// A normalized address is left alone.
pub proof fn lemma_normalize_idempotent(addr: Seq<char>)
    ensures
        normalized_addr(normalized_addr(addr)) == normalized_addr(addr),
{
    reveal_strlit("://");
    reveal_strlit("wss://");
    let n = "wss://"@ + addr;
    let pat = "://"@;
    assert(n.subrange(3, 6) =~= pat);
    assert forall|j: int| 0 <= j < 3 implies !text::occurs_at(n, pat, j) by {
        assert(n.subrange(j, j + 3)[0] == n[j]);
    }
    text::lemma_find_is(n, pat, 3);
}

/// An address that starts with a scheme is kept as it is.
pub proof fn lemma_normalize_keeps_scheme(scheme: Seq<char>, rest: Seq<char>)
    requires
        scheme.len() > 0,
        !scheme.contains(':'),
    ensures
        normalized_addr(scheme + "://"@ + rest) == scheme + "://"@ + rest,
{
    reveal_strlit("://");
    let n = scheme + "://"@ + rest;
    let pat = "://"@;
    let k = scheme.len() as int;
    assert(n.subrange(k, k + 3) =~= pat);
    assert forall|j: int| 0 <= j < k implies !text::occurs_at(n, pat, j) by {
        assert(n.subrange(j, j + 3)[0] == scheme[j]);
        assert(scheme.contains(scheme[j]));
    }
    text::lemma_find_is(n, pat, k);
}

// *** Text for logs

/// What stands for one character in a log line.
pub open spec fn shown_char(c: char) -> Seq<char> {
    if c == '\n' {
        "\\n"@
    } else if c == '\t' {
        "\\t"@
    } else if c == '\r' {
        "\\r"@
    } else {
        seq![c]
    }
}

/// `s` with line feeds, tabs and carriage returns made visible.
pub open spec fn shown(s: Seq<char>) -> Seq<char>
    decreases s.len(),
{
    if s.len() == 0 {
        Seq::empty()
    } else {
        shown(s.drop_last()) + shown_char(s.last())
    }
}

fn shown_chars(s: &[char]) -> (r: String)
    ensures
        r@ == shown(s@),
{
    let mut r = String::new();
    assert(s@.take(0) =~= Seq::<char>::empty());
    for i in 0..s.len()
        invariant
            r@ == shown(s@.take(i as int)),
    {
        let c = s[i];
        assert(s@.take(i + 1).drop_last() =~= s@.take(i as int));
        if c == '\n' {
            r.append("\\n");
        } else if c == '\t' {
            r.append("\\t");
        } else if c == '\r' {
            r.append("\\r");
        } else {
            let ghost before = r@;
            r.push(c);
            assert(r@ =~= before + seq![c]);
        }
    }
    assert(s@.take(s@.len() as int) =~= s@);
    r
}

/// Makes line feeds, tabs and carriage returns visible.
pub fn replace_whitespace_char(s: String) -> (r: String)
    ensures
        r@ == shown(s@),
{
    let chars = text::to_chars(s.as_str());
    shown_chars(&chars)
}

/// The form of `s` in a log: whole up to `max_len` characters, else its first
/// and last ten characters, or all that there are of these, and its length.
pub open spec fn log_text(s: Seq<char>, max_len: nat) -> Seq<char> {
    if s.len() <= max_len {
        shown(s)
    } else {
        let shown_len = if s.len() < 10 {
            s.len() as int
        } else {
            10
        };
        shown(s.take(shown_len)) + "..."@ + shown(s.skip(s.len() - shown_len)) + " ("@
            + number::decimal(s.len()) + " chars)"@
    }
}

/// Truncates a text for a log: shows head, tail and length if it is too long.
pub fn truncate_for_log(s: &str, max_len: usize) -> (r: String)
    ensures
        r@ == log_text(s@, max_len as nat),
{
    let chars = text::to_chars(s);
    let n: usize = chars.len();
    if n <= max_len {
        shown_chars(&chars)
    } else {
        let shown_len: usize = if n < 10 {
            n
        } else {
            10
        };
        let head = text::chars_between(&chars, 0, shown_len);
        let tail = text::chars_between(&chars, n - shown_len, n);
        assert(head@ =~= s@.take(shown_len as int));
        assert(tail@ =~= s@.skip(s@.len() - shown_len));
        let mut r = shown_chars(&head);
        r.append("...");
        r.append(shown_chars(&tail).as_str());
        r.append(" (");
        r.append(number::decimal_text(n as u64).as_str());
        r.append(" chars)");
        r
    }
}

// *** Server ids

/// The certificate-hash portion of an id: what follows the first `::`, or the
/// whole id where there is none.
pub open spec fn hash_of(id: Seq<char>) -> Seq<char> {
    match text::find(id, "::"@) {
        Some(idx) => id.skip(idx + 2),
        None => id,
    }
}

/// The name portion of an id: what precedes the first `::`.
pub open spec fn name_of(id: Seq<char>) -> Option<Seq<char>> {
    match text::find(id, "::"@) {
        Some(idx) => Some(id.take(idx)),
        None => None,
    }
}

/// The id made of an optional name and a hash.
pub open spec fn id_of(name: Option<Seq<char>>, cert_hash: Seq<char>) -> Seq<char> {
    match name {
        Some(name) if name.len() > 0 => name + "::"@ + cert_hash,
        _ => cert_hash,
    }
}

fn find_double_colon(id: &str) -> (r: Option<usize>)
    ensures
        match r {
            Some(i) => text::find(id@, "::"@) == Some(i as int) && i + 2 <= id@.len() <= usize::MAX,
            None => text::find(id@, "::"@) is None,
        },
{
    let chars = text::to_chars(id);
    let pat = text::to_chars("::");
    proof {
        reveal_strlit("::");
    }
    text::find_chars(&chars, &pat)
}

/// Returns the certificate-hash portion of a [`ServerId`]. Splits on the first
/// `::`; if there is none, the whole id is the hash.
pub fn id_hash(id: &str) -> (r: &str)
    ensures
        r@ == hash_of(id@),
{
    match find_double_colon(id) {
        Some(idx) => {
            let r = id.substring_char(idx + 2, id.unicode_len());
            assert(r@ =~= id@.skip(idx + 2));
            r
        },
        None => id,
    }
}

/// Returns the name portion of a [`ServerId`], or `None` if there is none.
pub fn id_name(id: &str) -> (r: Option<&str>)
    ensures
        match r {
            Some(name) => name_of(id@) == Some(name@),
            None => name_of(id@) is None,
        },
{
    match find_double_colon(id) {
        Some(idx) => {
            let r = id.substring_char(0, idx);
            assert(r@ =~= id@.take(idx as int));
            Some(r)
        },
        None => None,
    }
}

/// The content of an optional text.
pub open spec fn opt_view(s: Option<&str>) -> Option<Seq<char>> {
    match s {
        Some(s) => Some(s@),
        None => None,
    }
}

/// Composes a [`ServerId`] from an optional name and a certificate hash.
pub fn make_id(name: Option<&str>, cert_hash: &str) -> (r: ServerId)
    ensures
        r@ == id_of(opt_view(name), cert_hash@),
{
    match name {
        Some(name) if name.unicode_len() > 0 => text::concat3(name, "::", cert_hash),
        _ => cert_hash.to_owned(),
    }
}

/// Taking an id apart gives back the name and the hash it was composed of,
/// where the name holds no `::` and does not end in a colon.
pub proof fn lemma_id_parts(name: Seq<char>, cert_hash: Seq<char>)
    requires
        name.len() > 0,
        text::find(name, "::"@) is None,
        name.last() != ':',
    ensures
        name_of(id_of(Some(name), cert_hash)) == Some(name),
        hash_of(id_of(Some(name), cert_hash)) == cert_hash,
{
    reveal_strlit("::");
    let pat = "::"@;
    let id = id_of(Some(name), cert_hash);
    let k = name.len() as int;
    assert(id.subrange(k, k + 2) =~= pat);
    text::lemma_find_from(name, pat, 0);
    assert forall|j: int| 0 <= j < k implies !text::occurs_at(id, pat, j) by {
        if text::occurs_at(id, pat, j) {
            assert(id.subrange(j, j + 2)[0] == ':');
            if j + 2 <= k {
                assert(name.subrange(j, j + 2) =~= id.subrange(j, j + 2));
                assert(text::occurs_at(name, pat, j));
            }
        }
    }
    text::lemma_find_is(id, pat, k);
    assert(id.take(k) =~= name);
    assert(id.skip(k + 2) =~= cert_hash);
}

/// An id without a name is its hash, where the hash holds no `::`.
pub proof fn lemma_id_hash_only(cert_hash: Seq<char>)
    requires
        text::find(cert_hash, "::"@) is None,
    ensures
        name_of(id_of(None, cert_hash)) is None,
        hash_of(id_of(None, cert_hash)) == cert_hash,
{
}

/// Composing the name and the hash of an id gives the id back, unless the id
/// starts with `::`.
pub proof fn lemma_id_rebuilt(id: Seq<char>)
    requires
        text::find(id, "::"@) != Some(0int),
    ensures
        id_of(name_of(id), hash_of(id)) == id,
{
    reveal_strlit("::");
    text::lemma_find_from(id, "::"@, 0);
    match text::find(id, "::"@) {
        Some(k) => {
            assert(text::occurs_at(id, "::"@, k));
            assert(id.take(k) + "::"@ + id.skip(k + 2) =~= id);
        },
        None => {},
    }
}

// *** Information and editor operations

/// A piece of information that a server sends about a document.
#[derive(Debug, Clone, PartialEq, Eq)]
pub struct Info {
    /// The document.
    pub doc_id: DocId,
    /// Who sent it.
    pub sender: ServerId,
    /// The information.
    pub value: String,
}

/// An operation as the editor makes it.
#[derive(Debug, PartialEq, Eq)]
pub enum EditorOp {
    /// Insert, with the position and content.
    Ins { pos: u64, content: String },
    /// Delete, with the position and content.
    Del { pos: u64, content: String },
    /// Undo, with the context number.
    Undo { context: u64 },
    /// Redo, with the context number.
    Redo { context: u64 },
}

/// What an editor operation does.
pub enum EditorOpView {
    /// Insert.
    Ins { pos: nat, content: Seq<char> },
    /// Delete.
    Del { pos: nat, content: Seq<char> },
    /// Undo.
    Undo { context: nat },
    /// Redo.
    Redo { context: nat },
}

impl View for EditorOp {
    type V = EditorOpView;

    open spec fn view(&self) -> EditorOpView {
        match self {
            EditorOp::Ins { pos, content } => EditorOpView::Ins {
                pos: *pos as nat,
                content: content@,
            },
            EditorOp::Del { pos, content } => EditorOpView::Del {
                pos: *pos as nat,
                content: content@,
            },
            EditorOp::Undo { context } => EditorOpView::Undo { context: *context as nat },
            EditorOp::Redo { context } => EditorOpView::Redo { context: *context as nat },
        }
    }
}

/// What sort of operation an editor operation is.
#[derive(Debug, Clone, Copy, PartialEq, Eq, Structural)]
pub enum EditorOpKind {
    /// An edit.
    Original,
    /// An undo.
    Undo,
    /// A redo.
    Redo,
}

/// `head`, a number, a comma and a text in brackets.
pub open spec fn pos_text(head: Seq<char>, pos: u64, content: Seq<char>) -> Seq<char> {
    head + number::decimal(pos as nat) + ", "@ + log_text(content, 30) + ")"@
}

fn pos_text_of(head: &str, pos: u64, content: &str) -> (r: String)
    ensures
        r@ == pos_text(head@, pos, content@),
{
    let mut r = head.to_owned();
    r.append(number::decimal_text(pos).as_str());
    r.append(", ");
    r.append(truncate_for_log(content, 30).as_str());
    r.append(")");
    r
}

impl Clone for EditorOp {
    fn clone(&self) -> (r: Self)
        ensures
            r == *self,
    {
        match self {
            EditorOp::Ins { pos, content } => EditorOp::Ins { pos: *pos, content: content.clone() },
            EditorOp::Del { pos, content } => EditorOp::Del { pos: *pos, content: content.clone() },
            EditorOp::Undo { context } => EditorOp::Undo { context: *context },
            EditorOp::Redo { context } => EditorOp::Redo { context: *context },
        }
    }
}

impl EditorOp {
    /// Whether the operation is an edit, an undo or a redo.
    pub open spec fn kind_of(self) -> EditorOpKind {
        match self {
            EditorOp::Undo { .. } => EditorOpKind::Undo,
            EditorOp::Redo { .. } => EditorOpKind::Redo,
            _ => EditorOpKind::Original,
        }
    }

    /// Tells edits, undos and redos apart.
    pub fn kind(&self) -> (r: EditorOpKind)
        ensures
            r == self.kind_of(),
    {
        match self {
            EditorOp::Ins { .. } => EditorOpKind::Original,
            EditorOp::Del { .. } => EditorOpKind::Original,
            EditorOp::Undo { .. } => EditorOpKind::Undo,
            EditorOp::Redo { .. } => EditorOpKind::Redo,
        }
    }

    /// The textual form of the operation.
    pub open spec fn text(self) -> Seq<char> {
        match self {
            EditorOp::Undo { context } => "undo("@ + number::decimal(context as nat) + ")"@,
            EditorOp::Redo { context } => "redo("@ + number::decimal(context as nat) + ")"@,
            EditorOp::Ins { pos, content } => pos_text("ins("@, pos, content@),
            EditorOp::Del { pos, content } => pos_text("del("@, pos, content@),
        }
    }

    /// Writes the operation for a log.
    pub fn to_text(&self) -> (r: String)
        ensures
            r@ == self.text(),
    {
        match self {
            EditorOp::Undo { context } => text::concat3(
                "undo(",
                number::decimal_text(*context).as_str(),
                ")",
            ),
            EditorOp::Redo { context } => text::concat3(
                "redo(",
                number::decimal_text(*context).as_str(),
                ")",
            ),
            EditorOp::Ins { pos, content } => pos_text_of("ins(", *pos, content.as_str()),
            EditorOp::Del { pos, content } => pos_text_of("del(", *pos, content.as_str()),
        }
    }
}

// *** File descriptors

/// A project or a file in one.
#[derive(Debug, PartialEq, Eq)]
pub enum FileDesc {
    /// A project.
    Project { id: ProjectId },
    /// A file in a project.
    ProjectFile {
        project: ProjectId,
        /// Relative path to the file in the project.
        file: String,
    },
}

impl Clone for FileDesc {
    fn clone(&self) -> (r: Self)
        ensures
            r == *self,
    {
        match self {
            FileDesc::Project { id } => FileDesc::Project { id: id.clone() },
            FileDesc::ProjectFile { project, file } => FileDesc::ProjectFile {
                project: project.clone(),
                file: file.clone(),
            },
        }
    }
}

impl FileDesc {
    /// The textual form of the descriptor.
    pub open spec fn text(self) -> Seq<char> {
        match self {
            FileDesc::Project { id } => id@,
            FileDesc::ProjectFile { project, file } => "/"@ + project@ + "/"@ + file@,
        }
    }

    /// Writes the descriptor.
    pub fn to_text(&self) -> (r: String)
        ensures
            r@ == self.text(),
    {
        match self {
            FileDesc::Project { id } => id.clone(),
            FileDesc::ProjectFile { project, file } => {
                let mut r = text::concat3("/", project.as_str(), "/");
                r.append(file.as_str());
                r
            },
        }
    }
}

/// A project or a file in one, with the server that holds it.
#[derive(Debug, Clone, PartialEq, Eq, Hash)]
pub struct EditorFileDesc {
    /// The server.
    pub host_id: ServerId,
    /// The project.
    pub project: ProjectId,
    /// Relative path to the file in the project. Empty for the project itself.
    pub file: String,
}

impl EditorFileDesc {
    /// Creates a descriptor from a file descriptor and a host.
    pub fn new(file_desc: FileDesc, host_id: ServerId) -> (r: Self)
        ensures
            r.host_id == host_id,
            match file_desc {
                FileDesc::Project { id } => r.project == id && r.file@ == Seq::<char>::empty(),
                FileDesc::ProjectFile { project, file } => r.project == project && r.file == file,
            },
    {
        match file_desc {
            FileDesc::Project { id } => EditorFileDesc { host_id, project: id, file: String::new() },
            FileDesc::ProjectFile { project, file } => EditorFileDesc { host_id, project, file },
        }
    }

    /// The host.
    pub fn host_id(&self) -> (r: &ServerId)
        ensures
            *r == self.host_id,
    {
        &self.host_id
    }

    /// Whether this describes a project.
    pub fn is_project(&self) -> (r: bool)
        ensures
            r == (self.file@.len() == 0),
    {
        self.file.as_str().unicode_len() == 0
    }

    /// Whether this describes a file.
    pub fn is_file(&self) -> (r: bool)
        ensures
            r == (self.file@.len() > 0),
    {
        self.file.as_str().unicode_len() > 0
    }

    /// The textual form of the descriptor.
    pub open spec fn text(self) -> Seq<char> {
        if self.file@.len() == 0 {
            self.host_id@ + "/"@ + self.project@
        } else {
            self.host_id@ + "/"@ + self.project@ + "/"@ + self.file@
        }
    }

    /// Writes the descriptor.
    pub fn to_text(&self) -> (r: String)
        ensures
            r@ == self.text(),
    {
        let mut r = text::concat3(self.host_id.as_str(), "/", self.project.as_str());
        if !self.is_project() {
            r.append("/");
            r.append(self.file.as_str());
        }
        r
    }
}

/// What an editor descriptor is on its host: the project itself, or the file
/// without the slashes around its path.
pub open spec fn describes(desc: FileDesc, editor_file: EditorFileDesc) -> bool {
    if editor_file.file@.len() == 0 {
        desc == (FileDesc::Project { id: editor_file.project })
    } else {
        match desc {
            FileDesc::ProjectFile { project, file } => {
                &&& project == editor_file.project
                &&& file@ == text::trimmed(editor_file.file@, text::CharClass::Only('/'))
            },
            FileDesc::Project { .. } => false,
        }
    }
}

impl From<EditorFileDesc> for FileDesc {
    fn from(editor_file: EditorFileDesc) -> (r: Self)
        ensures
            describes(r, editor_file),
    {
        if editor_file.is_project() {
            FileDesc::Project { id: editor_file.project }
        } else {
            let chars = text::to_chars(editor_file.file.as_str());
            let path = text::trim_chars(&chars, text::CharClass::Only('/'));
            FileDesc::ProjectFile { project: editor_file.project, file: text::from_chars(&path) }
        }
    }
}

impl vstd::std_specs::convert::FromSpecImpl<EditorFileDesc> for FileDesc {
    open spec fn obeys_from_spec() -> bool {
        false
    }

    open spec fn from_spec(v: EditorFileDesc) -> FileDesc {
        choose|desc: FileDesc| describes(desc, v)
    }
}

/// A project keeps its description on the way to an editor and back, and so
/// does a file whose path is not empty and has no slash at either end.
pub proof fn lemma_desc_round_trip(desc: FileDesc, editor: EditorFileDesc, back: FileDesc)
    requires
        match desc {
            FileDesc::Project { id } => editor.project == id && editor.file@ == Seq::<char>::empty(),
            FileDesc::ProjectFile { project, file } => {
                &&& editor.project == project
                &&& editor.file == file
                &&& file@.len() > 0
                &&& file@[0] != '/'
                &&& file@.last() != '/'
            },
        },
        describes(back, editor),
    ensures
        back.text() == desc.text(),
        back is Project == desc is Project,
{
}

/// The content of a file, or where to find it.
#[derive(Debug, Clone)]
pub enum FileContentOrPath {
    /// File content.
    Content(String),
    /// File path.
    Path(String),
}

// *** Edits

/// One edit at one position.
#[derive(Debug, Clone, PartialEq, Eq)]
pub struct Edit {
    /// The position, in characters.
    pub pos: u64,
    /// What is inserted or deleted.
    pub content: String,
}

impl Edit {
    /// The textual form of the edit.
    pub open spec fn text(self) -> Seq<char> {
        pos_text("edit("@, self.pos, self.content@)
    }

    /// Writes the edit for a log.
    pub fn to_text(&self) -> (r: String)
        ensures
            r@ == self.text(),
    {
        pos_text_of("edit(", self.pos, self.content.as_str())
    }
}

/// The segments inside each instruction are to be applied at the same time, so
/// `Ins[(0, "a"), (0, "b")]` means: insert "ab" at 0. For both insert and
/// delete, apply the segments in reverse order to preserve the positions.
#[derive(Debug, Clone, PartialEq, Eq)]
pub enum EditInstruction {
    /// Insertions.
    Ins { edits: Vec<Edit> },
    /// Deletions.
    Del { edits: Vec<Edit> },
}

/// An editor operation with its undo group.
#[derive(Debug, PartialEq, Eq)]
pub struct EditorFatOp {
    /// The operation.
    pub op: EditorOp,
    /// The group.
    pub group_seq: GroupSeq,
}

/// What an editor operation with its undo group does.
pub struct EditorFatOpView {
    /// The operation.
    pub op: EditorOpView,
    /// The group.
    pub group_seq: nat,
}

impl View for EditorFatOp {
    type V = EditorFatOpView;

    open spec fn view(&self) -> EditorFatOpView {
        EditorFatOpView { op: self.op@, group_seq: self.group_seq as nat }
    }
}

impl Clone for EditorFatOp {
    fn clone(&self) -> (r: Self)
        ensures
            r == *self,
    {
        EditorFatOp { op: self.op.clone(), group_seq: self.group_seq }
    }
}

/// What a list of operations does.
pub open spec fn fat_op_views(ops: Seq<EditorFatOp>) -> Seq<EditorFatOpView> {
    Seq::new(ops.len(), |i: int| ops[i]@)
}

/// An instruction for an editor, with the site it comes from.
#[derive(Debug, Clone, PartialEq, Eq)]
pub struct EditorLeanOp {
    /// The instruction.
    pub op: EditInstruction,
    /// The site.
    pub site_id: SiteId,
}

/// A snapshot of a document, which the server returns when a site requests a
/// file. `D` is the internal document state, tombstones included.
#[derive(Clone)]
pub struct NewSnapshot<D> {
    /// The file content.
    pub content: String,
    /// The internal document state.
    pub internal_doc: D,
    /// File name of the document.
    pub name: String,
    /// Sequence number of the last operation.
    pub seq: GlobalSeq,
    /// Assigned site id for the receiver.
    pub site_id: SiteId,
    /// Descriptor that the request gave.
    pub file_desc: FileDesc,
    /// Document id on the remote server.
    pub doc_id: DocId,
}

/// The short form of a document's content: whole up to fifty characters, else
/// its first and last twenty characters and its length.
pub open spec fn content_text(s: Seq<char>) -> Seq<char> {
    if s.len() <= 50 {
        s
    } else {
        "'"@ + s.take(20) + "'\u{2026}'"@ + s.skip(s.len() - 20) + "' ("@ + number::decimal(s.len())
            + " chars)"@
    }
}

impl<D> NewSnapshot<D> {
    /// The content in short form, for a log.
    pub fn content_summary(&self) -> (r: String)
        ensures
            r@ == content_text(self.content@),
    {
        let chars = text::to_chars(self.content.as_str());
        let n: usize = chars.len();
        if n <= 50 {
            self.content.clone()
        } else {
            let head = text::chars_between(&chars, 0, 20);
            let tail = text::chars_between(&chars, n - 20, n);
            assert(head@ =~= self.content@.take(20));
            assert(tail@ =~= self.content@.skip(self.content@.len() - 20));
            let mut r = "'".to_owned();
            r.append(text::from_chars(&head).as_str());
            r.append("'\u{2026}'");
            r.append(text::from_chars(&tail).as_str());
            r.append("' (");
            r.append(number::decimal_text(n as u64).as_str());
            r.append(" chars)");
            r
        }
    }
}

// *** Projects

/// A map from JSON keys to JSON values.
#[verifier::external_type_specification]
#[verifier::external_body]
#[verifier::reject_recursive_types(K)]
#[verifier::reject_recursive_types(V)]
pub struct ExJsonMap<K, V>(serde_json::Map<K, V>);

/// A JSON value.
#[verifier::external_type_specification]
#[verifier::external_body]
pub struct ExJsonValue(serde_json::Value);

/// A JSON object.
pub type JsonMap = serde_json::Map<String, serde_json::Value>;

/// The keys of a JSON object.
pub uninterp spec fn json_keys(m: serde_json::Map<String, serde_json::Value>) -> Set<Seq<char>>;

/// `serde_json::Map::new` makes a map that holds no entry.
#[verifier::external_body]
fn new_json_map() -> (r: JsonMap)
    ensures
        json_keys(r) == Set::<Seq<char>>::empty(),
{
    serde_json::Map::new()
}

/// A shared directory. Remote users can freely browse and open files under a
/// shared project.
#[derive(Debug)]
pub struct Project {
    /// Name of the project.
    pub name: String,
    /// Absolute filename of the root of the project.
    pub root: String,
    /// Metadata for the project.
    pub meta: JsonMap,
}

/// A JSON object without entries.
pub fn empty_json_map() -> (r: JsonMap)
    ensures
        json_keys(r) == Set::<Seq<char>>::empty(),
{
    new_json_map()
}

} // verus!
