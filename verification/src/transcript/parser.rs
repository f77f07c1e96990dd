//! The script language: headers, an empty line, then one command per line.

use crate::number;
use crate::number::NumberError;
use crate::split;
use crate::text;
use crate::text::CharClass;
use vstd::hash_map::StringHashMap;
use vstd::prelude::*;
use vstd::string::*;

verus! {

/// A command of a script. Editors are numbered from zero.
#[derive(Debug, PartialEq, Eq)]
pub enum TranscriptCommand {
    /// Move the cursor of an editor.
    Move { editor: usize, offset: i64 },
    /// Insert a text at the cursor.
    Insert { editor: usize, text: String },
    /// Delete characters around the cursor.
    Delete { editor: usize, count: i64 },
    /// Undo the last group of operations.
    Undo { editor: usize },
    /// Redo the last group that was undone.
    Redo { editor: usize },
    /// Send what is pending.
    Send { editor: usize },
    /// Start a group of operations.
    BeginGroup { editor: usize },
    /// End a group of operations.
    EndGroup { editor: usize },
    /// Check that all editors hold the same text.
    Check,
}

/// What a command says.
pub enum CommandView {
    /// Move the cursor of an editor.
    Move { editor: nat, offset: int },
    /// Insert a text at the cursor.
    Insert { editor: nat, text: Seq<char> },
    /// Delete characters around the cursor.
    Delete { editor: nat, count: int },
    /// Undo the last group of operations.
    Undo { editor: nat },
    /// Redo the last group that was undone.
    Redo { editor: nat },
    /// Send what is pending.
    Send { editor: nat },
    /// Start a group of operations.
    BeginGroup { editor: nat },
    /// End a group of operations.
    EndGroup { editor: nat },
    /// Check that all editors hold the same text.
    Check,
}

impl View for TranscriptCommand {
    type V = CommandView;

    open spec fn view(&self) -> CommandView {
        match self {
            TranscriptCommand::Move { editor, offset } => CommandView::Move {
                editor: *editor as nat,
                offset: *offset as int,
            },
            TranscriptCommand::Insert { editor, text } => CommandView::Insert {
                editor: *editor as nat,
                text: text@,
            },
            TranscriptCommand::Delete { editor, count } => CommandView::Delete {
                editor: *editor as nat,
                count: *count as int,
            },
            TranscriptCommand::Undo { editor } => CommandView::Undo { editor: *editor as nat },
            TranscriptCommand::Redo { editor } => CommandView::Redo { editor: *editor as nat },
            TranscriptCommand::Send { editor } => CommandView::Send { editor: *editor as nat },
            TranscriptCommand::BeginGroup { editor } => CommandView::BeginGroup {
                editor: *editor as nat,
            },
            TranscriptCommand::EndGroup { editor } => CommandView::EndGroup {
                editor: *editor as nat,
            },
            TranscriptCommand::Check => CommandView::Check,
        }
    }
}

impl Clone for TranscriptCommand {
    fn clone(&self) -> (r: Self)
        ensures
            r == *self,
    {
        match self {
            TranscriptCommand::Move { editor, offset } => TranscriptCommand::Move {
                editor: *editor,
                offset: *offset,
            },
            TranscriptCommand::Insert { editor, text } => TranscriptCommand::Insert {
                editor: *editor,
                text: text.clone(),
            },
            TranscriptCommand::Delete { editor, count } => TranscriptCommand::Delete {
                editor: *editor,
                count: *count,
            },
            TranscriptCommand::Undo { editor } => TranscriptCommand::Undo { editor: *editor },
            TranscriptCommand::Redo { editor } => TranscriptCommand::Redo { editor: *editor },
            TranscriptCommand::Send { editor } => TranscriptCommand::Send { editor: *editor },
            TranscriptCommand::BeginGroup { editor } => TranscriptCommand::BeginGroup {
                editor: *editor,
            },
            TranscriptCommand::EndGroup { editor } => TranscriptCommand::EndGroup {
                editor: *editor,
            },
            TranscriptCommand::Check => TranscriptCommand::Check,
        }
    }
}

impl CommandView {
    /// The editor that the command is for.
    pub open spec fn editor(self) -> Option<nat> {
        match self {
            CommandView::Move { editor, .. } => Some(editor),
            CommandView::Insert { editor, .. } => Some(editor),
            CommandView::Delete { editor, .. } => Some(editor),
            CommandView::Undo { editor } => Some(editor),
            CommandView::Redo { editor } => Some(editor),
            CommandView::Send { editor } => Some(editor),
            CommandView::BeginGroup { editor } => Some(editor),
            CommandView::EndGroup { editor } => Some(editor),
            CommandView::Check => None,
        }
    }
}

impl TranscriptCommand {
    /// The editor that the command is for.
    pub fn editor(&self) -> (r: Option<usize>)
        ensures
            match r {
                Some(e) => self@.editor() == Some(e as nat),
                None => self@.editor() is None,
            },
    {
        match self {
            TranscriptCommand::Move { editor, .. } => Some(*editor),
            TranscriptCommand::Insert { editor, .. } => Some(*editor),
            TranscriptCommand::Delete { editor, .. } => Some(*editor),
            TranscriptCommand::Undo { editor } => Some(*editor),
            TranscriptCommand::Redo { editor } => Some(*editor),
            TranscriptCommand::Send { editor } => Some(*editor),
            TranscriptCommand::BeginGroup { editor } => Some(*editor),
            TranscriptCommand::EndGroup { editor } => Some(*editor),
            TranscriptCommand::Check => None,
        }
    }
}

/// A command written out with its fields, the editor first. `field` is the
/// second field with its name, or empty.
pub open spec fn fields_text(name: Seq<char>, editor: nat, field: Seq<char>) -> Seq<char> {
    name + " { editor: "@ + number::decimal(editor) + field + " }"@
}

impl CommandView {
    /// The command for a report, with the text of an insertion `quote`d.
    pub open spec fn text(self, quote: spec_fn(Seq<char>) -> Seq<char>) -> Seq<char> {
        match self {
            CommandView::Move { editor, offset } => fields_text(
                "Move"@,
                editor,
                ", offset: "@ + number::signed_decimal(offset),
            ),
            CommandView::Insert { editor, text } => fields_text(
                "Insert"@,
                editor,
                ", text: "@ + quote(text),
            ),
            CommandView::Delete { editor, count } => fields_text(
                "Delete"@,
                editor,
                ", count: "@ + number::signed_decimal(count),
            ),
            CommandView::Undo { editor } => fields_text("Undo"@, editor, ""@),
            CommandView::Redo { editor } => fields_text("Redo"@, editor, ""@),
            CommandView::Send { editor } => fields_text("Send"@, editor, ""@),
            CommandView::BeginGroup { editor } => fields_text("BeginGroup"@, editor, ""@),
            CommandView::EndGroup { editor } => fields_text("EndGroup"@, editor, ""@),
            CommandView::Check => "Check"@,
        }
    }
}

fn fields_text_of(name: &str, editor: usize, field: &str) -> (r: String)
    ensures
        r@ == fields_text(name@, editor as nat, field@),
{
    let mut r = name.to_owned();
    r.append(" { editor: ");
    r.append(number::decimal_text(editor as u64).as_str());
    r.append(field);
    r.append(" }");
    r
}

impl TranscriptCommand {
    /// Writes the command for a report.
    pub fn to_text(&self) -> (r: String)
        ensures
            r@ == self@.text(|s: Seq<char>| text::debug_quoted(s)),
    {
        match self {
            TranscriptCommand::Insert { text, .. } => self.to_text_with(
                text::quoted(text.as_str()).as_str(),
            ),
            _ => self.to_text_with(""),
        }
    }

    /// Writes the command for a report, with the quoted form of the text that
    /// it inserts.
    pub fn to_text_with(&self, quoted_text: &str) -> (r: String)
        ensures
            r@ == self@.text(|s: Seq<char>| quoted_text@),
    {
        match self {
            TranscriptCommand::Move { editor, offset } => fields_text_of(
                "Move",
                *editor,
                text::concat(", offset: ", number::signed_decimal_text(*offset).as_str()).as_str(),
            ),
            TranscriptCommand::Insert { editor, .. } => fields_text_of(
                "Insert",
                *editor,
                text::concat(", text: ", quoted_text).as_str(),
            ),
            TranscriptCommand::Delete { editor, count } => fields_text_of(
                "Delete",
                *editor,
                text::concat(", count: ", number::signed_decimal_text(*count).as_str()).as_str(),
            ),
            TranscriptCommand::Undo { editor } => fields_text_of("Undo", *editor, ""),
            TranscriptCommand::Redo { editor } => fields_text_of("Redo", *editor, ""),
            TranscriptCommand::Send { editor } => fields_text_of("Send", *editor, ""),
            TranscriptCommand::BeginGroup { editor } => fields_text_of("BeginGroup", *editor, ""),
            TranscriptCommand::EndGroup { editor } => fields_text_of("EndGroup", *editor, ""),
            TranscriptCommand::Check => "Check".to_owned(),
        }
    }
}

/// Why a script cannot be read.
#[derive(Debug, Clone, PartialEq, Eq)]
pub enum TranscriptError {
    /// A move without an offset.
    MissingOffset,
    /// An insertion without a text.
    MissingText,
    /// A deletion without a count.
    MissingCount,
    /// A word that is no command.
    UnknownCommand(String),
    /// A number that cannot be read.
    Number(NumberError),
    /// Editors are numbered from one.
    EditorZero,
}

/// What an error says.
pub enum ErrorView {
    /// A move without an offset.
    MissingOffset,
    /// An insertion without a text.
    MissingText,
    /// A deletion without a count.
    MissingCount,
    /// A word that is no command.
    UnknownCommand(Seq<char>),
    /// A number that cannot be read.
    Number(NumberError),
    /// Editors are numbered from one.
    EditorZero,
}

impl View for TranscriptError {
    type V = ErrorView;

    open spec fn view(&self) -> ErrorView {
        match self {
            TranscriptError::MissingOffset => ErrorView::MissingOffset,
            TranscriptError::MissingText => ErrorView::MissingText,
            TranscriptError::MissingCount => ErrorView::MissingCount,
            TranscriptError::UnknownCommand(s) => ErrorView::UnknownCommand(s@),
            TranscriptError::Number(e) => ErrorView::Number(*e),
            TranscriptError::EditorZero => ErrorView::EditorZero,
        }
    }
}

impl ErrorView {
    /// The message of the error.
    pub open spec fn text(self) -> Seq<char> {
        match self {
            ErrorView::MissingOffset => "MOVE requires offset"@,
            ErrorView::MissingText => "INSERT requires text"@,
            ErrorView::MissingCount => "DELETE requires count"@,
            ErrorView::UnknownCommand(s) => "Unknown command: "@ + s,
            ErrorView::Number(e) => e.text(),
            ErrorView::EditorZero => "editors are numbered from one"@,
        }
    }
}

impl TranscriptError {
    /// The message of the error.
    pub fn message(&self) -> (r: String)
        ensures
            r@ == self@.text(),
    {
        match self {
            TranscriptError::MissingOffset => "MOVE requires offset".to_owned(),
            TranscriptError::MissingText => "INSERT requires text".to_owned(),
            TranscriptError::MissingCount => "DELETE requires count".to_owned(),
            TranscriptError::UnknownCommand(s) => text::concat("Unknown command: ", s.as_str()),
            TranscriptError::Number(e) => e.message(),
            TranscriptError::EditorZero => "editors are numbered from one".to_owned(),
        }
    }
}

// *** Headers

/// How many lines stand before the first blank one.
pub open spec fn header_end(lines: Seq<Seq<char>>) -> nat
    decreases lines.len(),
{
    if lines.len() == 0 || text::trimmed(lines[0], CharClass::White).len() == 0 {
        0
    } else {
        1 + header_end(lines.drop_first())
    }
}

/// The headers that the lines give: what stands before the first colon of a
/// line, and what stands behind it. A later line replaces an earlier one.
pub open spec fn headers_of(lines: Seq<Seq<char>>) -> Map<Seq<char>, Seq<char>>
    decreases lines.len(),
{
    if lines.len() == 0 {
        Map::empty()
    } else {
        let earlier = headers_of(lines.drop_last());
        match text::split_once(lines.last(), ':') {
            Some((key, value)) => earlier.insert(
                text::trimmed(key, CharClass::White),
                text::trimmed(value, CharClass::White),
            ),
            None => earlier,
        }
    }
}

/// The contents of a map of texts.
pub open spec fn text_map(m: Map<Seq<char>, String>) -> Map<Seq<char>, Seq<char>> {
    m.map_values(|s: String| s@)
}

/// The headers at the start of a script.
pub open spec fn script_headers(content: Seq<char>) -> Map<Seq<char>, Seq<char>> {
    let lines = split::lines(content);
    headers_of(lines.take(header_end(lines) as int))
}

/// Whether nothing but white space stands in the line.
fn is_blank(line: &[char]) -> (r: bool)
    ensures
        r == (text::trimmed(line@, CharClass::White).len() == 0),
{
    text::trim_chars(line, CharClass::White).len() == 0
}

/// Reads the headers of a script. Returns them with the number of lines that
/// they take.
fn read_headers(lines: &[Vec<char>]) -> (r: (StringHashMap<String>, usize))
    ensures
        r.1 == header_end(split::views(lines@)),
        r.1 <= lines@.len(),
        text_map(r.0@) == headers_of(split::views(lines@).take(r.1 as int)),
{
    let mut headers: StringHashMap<String> = StringHashMap::new();
    let mut i: usize = 0;
    let ghost all = split::views(lines@);
    assert(all.skip(0) =~= all);
    assert(all.take(0) =~= Seq::<Seq<char>>::empty());
    assert(text_map(headers@) =~= headers_of(all.take(0)));
    while i < lines.len() && !is_blank(&lines[i])
        invariant
            i <= lines@.len(),
            all == split::views(lines@),
            header_end(all) == i + header_end(all.skip(i as int)),
            text_map(headers@) == headers_of(all.take(i as int)),
        decreases lines@.len() - i,
    {
        let line = &lines[i];
        assert(all[i as int] == line@);
        assert(all.skip(i as int).drop_first() =~= all.skip(i + 1));
        assert(all.take(i + 1).drop_last() =~= all.take(i as int));
        assert(all.take(i + 1).last() == line@);
        match text::split_once_chars(line, ':') {
            Some((key, value)) => {
                let k = text::from_chars(&text::trim_chars(&key, CharClass::White));
                let v = text::from_chars(&text::trim_chars(&value, CharClass::White));
                let ghost before = headers@;
                let ghost (gk, gv) = (k@, v);
                headers.insert(k, v);
                assert(text_map(headers@) =~= text_map(before).insert(gk, gv@));
            },
            None => {},
        }
        i = i + 1;
    }
    assert(header_end(all.skip(i as int)) == 0);
    (headers, i)
}

/// Reads the headers at the start of a script.
pub fn parse_headers(content: &str) -> (r: StringHashMap<String>)
    ensures
        text_map(r@) == script_headers(content@),
{
    let lines = split::lines_of(&text::to_chars(content));
    let (headers, _) = read_headers(&lines);
    headers
}

/// The name that the headers give a script.
pub open spec fn title_of(headers: Map<Seq<char>, Seq<char>>) -> Seq<char> {
    if headers.contains_key("Name"@) {
        headers["Name"@]
    } else {
        "Unnamed Test"@
    }
}

/// The name of a script.
pub fn title(headers: &StringHashMap<String>) -> (r: String)
    ensures
        r@ == title_of(text_map(headers@)),
{
    match headers.get("Name") {
        Some(name) => name.clone(),
        None => "Unnamed Test".to_owned(),
    }
}

// *** Commands

/// What a line of a script means.
pub enum LineView {
    /// Nothing.
    Skip,
    /// A command.
    Command(CommandView),
    /// An error.
    Fail(ErrorView),
}

/// A command for the editor with the number `n`, counted from one.
pub open spec fn for_editor(n: nat, command: CommandView) -> LineView {
    if n == 0 {
        LineView::Fail(ErrorView::EditorZero)
    } else {
        LineView::Command(command)
    }
}

/// `arg` with the escapes `\n` and `\t` replaced by what they stand for.
pub open spec fn unescaped(arg: Seq<char>) -> Seq<char> {
    text::replaced(text::replaced(arg, "\\n"@, "\n"@), "\\t"@, "\t"@)
}

/// What the command `word` means for the editor with the number `n`.
pub open spec fn word_command(n: nat, word: Seq<char>, arg: Option<Seq<char>>) -> LineView {
    let editor = (n - 1) as nat;
    if word == "MOVE"@ {
        match arg {
            None => LineView::Fail(ErrorView::MissingOffset),
            Some(a) => match number::parse_signed(a) {
                Err(e) => LineView::Fail(ErrorView::Number(e)),
                Ok(offset) => for_editor(n, CommandView::Move { editor, offset }),
            },
        }
    } else if word == "INSERT"@ {
        match arg {
            None => LineView::Fail(ErrorView::MissingText),
            Some(a) => for_editor(n, CommandView::Insert { editor, text: unescaped(a) }),
        }
    } else if word == "DELETE"@ {
        match arg {
            None => LineView::Fail(ErrorView::MissingCount),
            Some(a) => match number::parse_signed(a) {
                Err(e) => LineView::Fail(ErrorView::Number(e)),
                Ok(count) => for_editor(n, CommandView::Delete { editor, count }),
            },
        }
    } else if word == "UNDO"@ {
        for_editor(n, CommandView::Undo { editor })
    } else if word == "REDO"@ {
        for_editor(n, CommandView::Redo { editor })
    } else if word == "SEND"@ {
        for_editor(n, CommandView::Send { editor })
    } else if word == "BEGIN_GROUP"@ {
        for_editor(n, CommandView::BeginGroup { editor })
    } else if word == "END_GROUP"@ {
        for_editor(n, CommandView::EndGroup { editor })
    } else {
        LineView::Fail(ErrorView::UnknownCommand(word))
    }
}

/// What a line means: `===CHECK===`, or `E<n> <command>` with an argument for
/// some commands. Other lines mean nothing.
pub open spec fn line_meaning(raw: Seq<char>) -> LineView {
    let line = text::trimmed(raw, CharClass::White);
    if line == "===CHECK==="@ {
        LineView::Command(CommandView::Check)
    } else if line.len() == 0 || line[0] != 'E' {
        LineView::Skip
    } else {
        let parts = split::splitn(line, 3, ' ');
        if parts.len() < 2 {
            LineView::Skip
        } else {
            match number::parse_unsigned(parts[0].skip(1), usize::MAX as nat) {
                Err(e) => LineView::Fail(ErrorView::Number(e)),
                Ok(n) => word_command(
                    n,
                    parts[1],
                    if parts.len() < 3 {
                        None
                    } else {
                        Some(parts[2])
                    },
                ),
            }
        }
    }
}

/// The commands that the lines give; the first error decides.
pub open spec fn commands_of(lines: Seq<Seq<char>>) -> Result<Seq<CommandView>, ErrorView>
    decreases lines.len(),
{
    if lines.len() == 0 {
        Ok(Seq::empty())
    } else {
        match commands_of(lines.drop_last()) {
            Err(e) => Err(e),
            Ok(earlier) => match line_meaning(lines.last()) {
                LineView::Skip => Ok(earlier),
                LineView::Command(c) => Ok(earlier.push(c)),
                LineView::Fail(e) => Err(e),
            },
        }
    }
}

/// The commands of a script: those of the lines behind the first blank one.
pub open spec fn script_commands(content: Seq<char>) -> Result<Seq<CommandView>, ErrorView> {
    let lines = split::lines(content);
    let end = header_end(lines);
    if end < lines.len() {
        commands_of(lines.skip(end as int + 1))
    } else {
        Ok(Seq::empty())
    }
}

/// The commands that values stand for.
pub open spec fn command_views(commands: Seq<TranscriptCommand>) -> Seq<CommandView> {
    Seq::new(commands.len(), |i: int| commands[i]@)
}

fn unescape(arg: &[char]) -> (r: String)
    ensures
        r@ == unescaped(arg@),
{
    proof {
        reveal_strlit("\\n");
        reveal_strlit("\\t");
    }
    let lines = text::replace_chars(arg, &text::to_chars("\\n"), &text::to_chars("\n"));
    let tabs = text::replace_chars(&lines, &text::to_chars("\\t"), &text::to_chars("\t"));
    text::from_chars(&tabs)
}

/// Whether the characters spell the word.
fn spells(chars: &[char], word: &str) -> (r: bool)
    ensures
        r == (chars@ == word@),
{
    text::same_chars(chars, &text::to_chars(word))
}

/// Whether a value is what a line means.
pub open spec fn agrees(r: Result<Option<TranscriptCommand>, TranscriptError>, m: LineView) -> bool {
    match r {
        Ok(None) => m is Skip,
        Ok(Some(c)) => m == LineView::Command(c@),
        Err(e) => m == LineView::Fail(e@),
    }
}

fn read_word(n: usize, word: &[char], arg: Option<&Vec<char>>) -> (r: Result<
    Option<TranscriptCommand>,
    TranscriptError,
>)
    ensures
        agrees(
            r,
            word_command(
                n as nat,
                word@,
                match arg {
                    Some(a) => Some(a@),
                    None => None,
                },
            ),
        ),
{
    if spells(word, "MOVE") {
        match arg {
            None => Err(TranscriptError::MissingOffset),
            Some(a) => match number::read_signed(a) {
                Err(e) => Err(TranscriptError::Number(e)),
                Ok(offset) => if n == 0 {
                    Err(TranscriptError::EditorZero)
                } else {
                    Ok(Some(TranscriptCommand::Move { editor: n - 1, offset }))
                },
            },
        }
    } else if spells(word, "INSERT") {
        match arg {
            None => Err(TranscriptError::MissingText),
            Some(a) => if n == 0 {
                Err(TranscriptError::EditorZero)
            } else {
                Ok(Some(TranscriptCommand::Insert { editor: n - 1, text: unescape(a) }))
            },
        }
    } else if spells(word, "DELETE") {
        match arg {
            None => Err(TranscriptError::MissingCount),
            Some(a) => match number::read_signed(a) {
                Err(e) => Err(TranscriptError::Number(e)),
                Ok(count) => if n == 0 {
                    Err(TranscriptError::EditorZero)
                } else {
                    Ok(Some(TranscriptCommand::Delete { editor: n - 1, count }))
                },
            },
        }
    } else {
        let known = spells(word, "UNDO") || spells(word, "REDO") || spells(word, "SEND") || spells(
            word,
            "BEGIN_GROUP",
        ) || spells(word, "END_GROUP");
        if !known {
            Err(TranscriptError::UnknownCommand(text::from_chars(word)))
        } else if n == 0 {
            Err(TranscriptError::EditorZero)
        } else if spells(word, "UNDO") {
            Ok(Some(TranscriptCommand::Undo { editor: n - 1 }))
        } else if spells(word, "REDO") {
            Ok(Some(TranscriptCommand::Redo { editor: n - 1 }))
        } else if spells(word, "SEND") {
            Ok(Some(TranscriptCommand::Send { editor: n - 1 }))
        } else if spells(word, "BEGIN_GROUP") {
            Ok(Some(TranscriptCommand::BeginGroup { editor: n - 1 }))
        } else {
            Ok(Some(TranscriptCommand::EndGroup { editor: n - 1 }))
        }
    }
}

/// Reads one line of a script behind the headers.
pub fn read_line(raw: &[char]) -> (r: Result<Option<TranscriptCommand>, TranscriptError>)
    ensures
        agrees(r, line_meaning(raw@)),
{
    let line = text::trim_chars(raw, CharClass::White);
    if spells(&line, "===CHECK===") {
        return Ok(Some(TranscriptCommand::Check));
    }
    if line.len() == 0 || line[0] != 'E' {
        return Ok(None);
    }
    let parts = split::splitn_chars(&line, 3, ' ');
    assert(split::views(parts@).len() == parts@.len());
    if parts.len() < 2 {
        return Ok(None);
    }
    proof {
        lemma_first_part(line@);
    }
    assert(split::views(parts@)[0] == parts@[0]@);
    let digits = text::chars_between(&parts[0], 1, parts[0].len());
    assert(digits@ =~= parts@[0]@.skip(1));
    match number::read_unsigned(&digits, usize::MAX as u64) {
        Err(e) => Err(TranscriptError::Number(e)),
        Ok(n) => {
            assert(split::views(parts@)[1] == parts@[1]@);
            let arg = if parts.len() < 3 {
                None
            } else {
                assert(split::views(parts@)[2] == parts@[2]@);
                Some(&parts[2])
            };
            read_word(n as usize, &parts[1], arg)
        },
    }
}

/// The first part of a line that starts with `E` starts with it too.
proof fn lemma_first_part(line: Seq<char>)
    requires
        line.len() > 0,
        line[0] == 'E',
    ensures
        split::splitn(line, 3, ' ').len() > 0,
        split::splitn(line, 3, ' ')[0].len() > 0,
{
    text::lemma_find_char(line, ' ');
}

/// Reads a script: its headers and its commands. A command for an editor with
/// the number zero is reported as an error of its own.
pub fn parse_checked(content: &str) -> (r: Result<
    (StringHashMap<String>, Vec<TranscriptCommand>),
    TranscriptError,
>)
    ensures
        match r {
            Ok((headers, commands)) => {
                &&& text_map(headers@) == script_headers(content@)
                &&& script_commands(content@) == Ok::<Seq<CommandView>, ErrorView>(
                    command_views(commands@),
                )
            },
            Err(e) => script_commands(content@) == Err::<Seq<CommandView>, ErrorView>(e@),
        },
{
    let lines = split::lines_of(&text::to_chars(content));
    let (headers, end) = read_headers(&lines);
    let mut commands: Vec<TranscriptCommand> = Vec::new();
    let ghost all = split::views(lines@);
    if end == lines.len() {
        assert(command_views(commands@) =~= Seq::<CommandView>::empty());
        return Ok((headers, commands));
    }
    let ghost body = all.skip(end + 1);
    assert(body.take(0) =~= Seq::<Seq<char>>::empty());
    assert(command_views(commands@) =~= Seq::<CommandView>::empty());
    for i in end + 1..lines.len()
        invariant
            end < i <= lines@.len(),
            all == split::views(lines@),
            body == all.skip(end + 1),
            all == split::lines(content@),
            end == header_end(all),
            commands_of(body.take(i - end - 1)) == Ok::<Seq<CommandView>, ErrorView>(
                command_views(commands@),
            ),
    {
        let ghost upto = body.take(i - end);
        assert(upto.drop_last() =~= body.take(i - end - 1));
        assert(upto.last() == lines@[i as int]@);
        let ghost before = commands@;
        match read_line(&lines[i]) {
            Err(e) => {
                proof {
                    lemma_commands_error(body, i - end);
                }
                return Err(e);
            },
            Ok(None) => {},
            Ok(Some(c)) => {
                let ghost seen = c@;
                commands.push(c);
                assert(command_views(commands@) =~= command_views(before).push(seen));
            },
        }
    }
    assert(body.take(lines@.len() - end - 1) =~= body);
    Ok((headers, commands))
}

proof fn lemma_commands_error(lines: Seq<Seq<char>>, i: int)
    requires
        0 <= i <= lines.len(),
        commands_of(lines.take(i)) is Err,
    ensures
        commands_of(lines) == commands_of(lines.take(i)),
    decreases lines.len() - i,
{
    if i == lines.len() {
        assert(lines.take(i) =~= lines);
    } else {
        assert(lines.take(i + 1).drop_last() =~= lines.take(i));
        lemma_commands_error(lines, i + 1);
    }
}

/// Reads a script in which no command is for an editor with the number zero.
pub fn parse_transcript(content: &str) -> (r: Result<
    (StringHashMap<String>, Vec<TranscriptCommand>),
    TranscriptError,
>)
    requires
        script_commands(content@) != Err::<Seq<CommandView>, ErrorView>(ErrorView::EditorZero),
    ensures
        match r {
            Ok((headers, commands)) => {
                &&& text_map(headers@) == script_headers(content@)
                &&& script_commands(content@) == Ok::<Seq<CommandView>, ErrorView>(
                    command_views(commands@),
                )
            },
            Err(e) => {
                &&& script_commands(content@) == Err::<Seq<CommandView>, ErrorView>(e@)
                &&& !(e is EditorZero)
            },
        },
{
    parse_checked(content)
}

/// What is needed to run a script.
pub struct Plan {
    /// The name of the script.
    pub title: String,
    /// Its commands.
    pub commands: Vec<TranscriptCommand>,
    /// How many editors it needs.
    pub editors: usize,
}

/// Reads a script and finds out what its run needs.
pub fn plan_run(content: &str) -> (r: Result<Plan, TranscriptError>)
    ensures
        match r {
            Ok(plan) => {
                &&& plan.title@ == title_of(script_headers(content@))
                &&& script_commands(content@) == Ok::<Seq<CommandView>, ErrorView>(
                    command_views(plan.commands@),
                )
                &&& plan.editors == editor_count(command_views(plan.commands@))
                &&& plan.editors > 0
            },
            Err(e) => script_commands(content@) == Err::<Seq<CommandView>, ErrorView>(e@),
        },
{
    match parse_checked(content) {
        Err(e) => Err(e),
        Ok((headers, commands)) => {
            proof {
                let lines = split::lines(content@);
                let all = command_views(commands@);
                lemma_read_editors_fit(lines.skip(header_end(lines) as int + 1));
                lemma_editor_count_covers(all);
                assert forall|i: int| 0 <= i < commands@.len() implies (
                #[trigger] commands@[i])@.editor() != Some(usize::MAX as nat) by {
                    assert(all[i] == commands@[i]@);
                }
            }
            let editors: usize = get_editor_count(&commands);
            Ok(Plan { title: title(&headers), commands, editors })
        },
    }
}

// *** Editors of a script

/// One more than the largest editor that a command is for, and at least one.
pub open spec fn editor_count(commands: Seq<CommandView>) -> nat
    decreases commands.len(),
{
    if commands.len() == 0 {
        1
    } else {
        let m = editor_count(commands.drop_last());
        match commands.last().editor() {
            Some(e) if e + 1 > m => e + 1,
            _ => m,
        }
    }
}

/// How many editors the commands need.
pub fn get_editor_count(commands: &[TranscriptCommand]) -> (r: usize)
    requires
        forall|i: int|
            0 <= i < commands@.len() ==> (#[trigger] commands@[i])@.editor() != Some(
                usize::MAX as nat,
            ),
    ensures
        r == editor_count(command_views(commands@)),
{
    let mut max_editor: usize = 0;
    let ghost all = command_views(commands@);
    assert(all.take(0) =~= Seq::<CommandView>::empty());
    for i in 0..commands.len()
        invariant
            all == command_views(commands@),
            forall|j: int|
                0 <= j < commands@.len() ==> (#[trigger] commands@[j])@.editor() != Some(
                    usize::MAX as nat,
                ),
            max_editor < usize::MAX,
            max_editor + 1 == editor_count(all.take(i as int)),
    {
        assert(all.take(i + 1).drop_last() =~= all.take(i as int));
        assert(all.take(i + 1).last() == commands@[i as int]@);
        match commands[i].editor() {
            Some(e) => {
                if e > max_editor {
                    max_editor = e;
                }
            },
            None => {},
        }
    }
    assert(all.take(all.len() as int) =~= all);
    max_editor + 1
}

/// Every editor that a command is for is below the count.
pub proof fn lemma_editor_count_covers(commands: Seq<CommandView>)
    ensures
        editor_count(commands) >= 1,
        forall|i: int|
            0 <= i < commands.len() ==> match (#[trigger] commands[i]).editor() {
                Some(e) => e < editor_count(commands),
                None => true,
            },
    decreases commands.len(),
{
    if commands.len() > 0 {
        let short = commands.drop_last();
        lemma_editor_count_covers(short);
        assert forall|i: int| 0 <= i < commands.len() implies match (
        #[trigger] commands[i]).editor() {
            Some(e) => e < editor_count(commands),
            None => true,
        } by {
            if i < short.len() {
                assert(short[i] == commands[i]);
            }
        }
    }
}

/// No command that was read is for an editor whose number does not fit, so the
/// editors of a script can be counted.
pub proof fn lemma_read_editors_fit(lines: Seq<Seq<char>>)
    ensures
        commands_of(lines) matches Ok(commands) ==> forall|i: int|
            0 <= i < commands.len() ==> match (#[trigger] commands[i]).editor() {
                Some(e) => e < usize::MAX,
                None => true,
            },
    decreases lines.len(),
{
    if lines.len() > 0 {
        lemma_read_editors_fit(lines.drop_last());
        let line = text::trimmed(lines.last(), CharClass::White);
        let parts = split::splitn(line, 3, ' ');
        lemma_unsigned_bound(parts[0].skip(1), usize::MAX as nat);
    }
}

proof fn lemma_unsigned_bound(s: Seq<char>, max: nat)
    ensures
        number::parse_unsigned(s, max) matches Ok(v) ==> v <= max,
{
    number::lemma_scan_bound(s, max, NumberError::TooLarge);
    if s.len() > 0 {
        number::lemma_scan_bound(s.skip(1), max, NumberError::TooLarge);
    }
}

// *** Lines that mean nothing

/// The headers end at the first blank line, whatever stands behind it.
proof fn lemma_header_end_insert(lines: Seq<Seq<char>>, k: int, line: Seq<char>)
    requires
        header_end(lines) < k <= lines.len(),
    ensures
        header_end(lines.insert(k, line)) == header_end(lines),
    decreases lines.len(),
{
    let more = lines.insert(k, line);
    assert(more[0] == lines[0]);
    if text::trimmed(lines[0], CharClass::White).len() > 0 {
        assert(more.drop_first() =~= lines.drop_first().insert(k - 1, line));
        lemma_header_end_insert(lines.drop_first(), k - 1, line);
    }
}

proof fn lemma_skipped_line(lines: Seq<Seq<char>>, k: int, line: Seq<char>)
    requires
        0 <= k <= lines.len(),
        line_meaning(line) is Skip,
    ensures
        commands_of(lines.insert(k, line)) == commands_of(lines),
    decreases lines.len(),
{
    let more = lines.insert(k, line);
    if k == lines.len() {
        assert(more.drop_last() =~= lines);
        assert(more.last() == line);
    } else {
        let short = lines.drop_last();
        assert(more.drop_last() =~= short.insert(k, line));
        assert(more.last() == lines.last());
        lemma_skipped_line(short, k, line);
    }
}

/// A line that is blank, or neither a command nor a check, changes nothing where
/// it is put in behind the blank line that ends the headers: neither the headers,
/// nor the commands, nor the error.
pub proof fn lemma_ignored_line(
    content: Seq<char>,
    more: Seq<char>,
    k: int,
    line: Seq<char>,
)
    requires
        header_end(split::lines(content)) < k <= split::lines(content).len(),
        split::lines(more) == split::lines(content).insert(k, line),
        line_meaning(line) is Skip,
    ensures
        script_headers(more) == script_headers(content),
        script_commands(more) == script_commands(content),
{
    let (all, longer) = (split::lines(content), split::lines(more));
    let end = header_end(all) as int;
    lemma_header_end_insert(all, k, line);
    assert(longer.take(end) =~= all.take(end));
    assert(longer.skip(end + 1) =~= all.skip(end + 1).insert(k - end - 1, line));
    lemma_skipped_line(all.skip(end + 1), k - end - 1, line);
}

/// A line means nothing if it is blank, or if it neither starts like a command
/// nor is a check.
pub proof fn lemma_means_nothing(line: Seq<char>)
    requires
        ({
            let shown = text::trimmed(line, CharClass::White);
            shown.len() == 0 || (shown[0] != 'E' && shown != "===CHECK==="@)
        }),
    ensures
        line_meaning(line) is Skip,
{
    reveal_strlit("===CHECK===");
}

/// A line that means nothing, put in with its line feed between `before`, which
/// holds the blank line that ends the headers, and `after`, changes nothing.
pub proof fn lemma_ignored_line_between(before: Seq<char>, line: Seq<char>, after: Seq<char>)
    requires
        header_end(split::ended_lines(before)) < split::ended_lines(before).len(),
        !line.contains('\n'),
        line_meaning(split::strip_return(line)) is Skip,
    ensures
        ({
            let content = before.push('\n') + after;
            let more = before.push('\n') + (line.push('\n') + after);
            &&& script_headers(more) == script_headers(content)
            &&& script_commands(more) == script_commands(content)
        }),
{
    let content = before.push('\n') + after;
    let rest = line.push('\n') + after;
    let more = before.push('\n') + rest;
    let top = split::ended_lines(before);
    split::lemma_lines_concat(before, after);
    split::lemma_lines_concat(before, rest);
    split::lemma_lines_concat(line, after);
    split::lemma_split_whole(line, '\n');
    let own = split::strip_return(line);
    assert(split::ended_lines(line) =~= seq![own]);
    let k = top.len() as int;
    assert(split::lines(more) =~= split::lines(content).insert(k, own));
    lemma_header_end_top(top, split::lines(after));
    lemma_ignored_line(content, more, k, own);
}

proof fn lemma_header_end_top(top: Seq<Seq<char>>, rest: Seq<Seq<char>>)
    requires
        header_end(top) < top.len(),
    ensures
        header_end(top + rest) == header_end(top),
    decreases top.len(),
{
    assert((top + rest)[0] == top[0]);
    if text::trimmed(top[0], CharClass::White).len() > 0 {
        assert((top + rest).drop_first() =~= top.drop_first() + rest);
        lemma_header_end_top(top.drop_first(), rest);
    }
}

proof fn lemma_return_skipped(line: Seq<char>)
    ensures
        text::trimmed(split::strip_return(line), CharClass::White) == text::trimmed(
            line,
            CharClass::White,
        ),
        line_meaning(split::strip_return(line)) == line_meaning(line),
{
    if split::strip_return(line) != line {
        text::lemma_trimmed_end(line, CharClass::White);
        assert(split::strip_return(line) =~= line.drop_last());
    }
}

proof fn lemma_header_end_last(lines: Seq<Seq<char>>, last: Seq<char>)
    requires
        lines.len() > 0,
        text::trimmed(last, CharClass::White) == text::trimmed(lines.last(), CharClass::White),
    ensures
        header_end(lines.drop_last().push(last)) == header_end(lines),
    decreases lines.len(),
{
    let other = lines.drop_last().push(last);
    if lines.len() > 1 {
        let short = lines.drop_first();
        assert(other.drop_first() =~= short.drop_last().push(last));
        lemma_header_end_last(short, last);
    } else {
        assert(other.drop_first() =~= lines.drop_first());
    }
}

/// A line that means nothing, put in behind the last line of a script that ends
/// without a line feed, changes nothing where the headers have ended before.
pub proof fn lemma_ignored_line_at_end(content: Seq<char>, line: Seq<char>)
    requires
        header_end(split::lines(content)) < split::lines(content).len(),
        content.last() != '\n',
        !line.contains('\n'),
        line_meaning(line) is Skip,
    ensures
        ({
            let more = content.push('\n') + line;
            &&& script_headers(more) == script_headers(content)
            &&& script_commands(more) == script_commands(content)
        }),
{
    let more = content.push('\n') + line;
    let all = split::lines(content);
    let top = split::ended_lines(content);
    let last = split::strip_return(all.last());
    let end = header_end(all) as int;
    assert(split::split(content, '\n').last().len() > 0);
    assert(top =~= all.drop_last().push(last));
    lemma_return_skipped(all.last());
    lemma_header_end_last(all, last);
    assert(top.take(end) =~= all.take(end));
    let (body, other) = (all.skip(end + 1), top.skip(end + 1));
    if end + 1 < all.len() {
        assert(other.drop_last() =~= body.drop_last());
        assert(other.last() == last);
        assert(body.last() == all.last());
    } else {
        assert(other =~= body);
    }
    assert(commands_of(other) == commands_of(body));
    split::lemma_lines_concat(content, line);
    split::lemma_split_whole(line, '\n');
    let longer = split::lines(more);
    if line.len() == 0 {
        assert(longer =~= top);
    } else {
        assert(split::lines(line) =~= seq![line]);
        assert(longer =~= top.push(line));
        lemma_header_end_top(top, seq![line]);
        assert(top + seq![line] =~= longer);
        assert(longer.take(end) =~= top.take(end));
        assert(longer.skip(end + 1) =~= other.insert(other.len() as int, line));
        lemma_skipped_line(other, other.len() as int, line);
    }
}

} // verus!
