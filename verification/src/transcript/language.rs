//! What the script language promises, said of lines and their characters.

use crate::number;
use crate::number::NumberError;
use crate::split;
use crate::text;
use crate::text::CharClass;
use crate::transcript::parser;
use crate::transcript::parser::{
    CommandView, ErrorView, LineView, TranscriptCommand, TranscriptError,
};
use vstd::prelude::*;
use vstd::string::*;

verus! {

// *** Escapes

/// Whether an argument starts with a backslash and `c`.
pub open spec fn starts_escape(arg: Seq<char>, c: char) -> bool {
    arg.len() >= 2 && arg[0] == '\\' && arg[1] == c
}

proof fn lemma_escape_patterns()
    ensures
        "\\n"@ == seq!['\\', 'n'],
        "\\t"@ == seq!['\\', 't'],
        "\n"@ == seq!['\n'],
        "\t"@ == seq!['\t'],
{
    reveal_strlit("\\n");
    reveal_strlit("\\t");
    reveal_strlit("\n");
    reveal_strlit("\t");
    assert("\\n"@ =~= seq!['\\', 'n']);
    assert("\\t"@ =~= seq!['\\', 't']);
    assert("\n"@ =~= seq!['\n']);
    assert("\t"@ =~= seq!['\t']);
}

proof fn lemma_replace_step(s: Seq<char>, c: char, with: Seq<char>)
    ensures
        starts_escape(s, c) ==> text::replaced(s, seq!['\\', c], with) == with + text::replaced(
            s.skip(2),
            seq!['\\', c],
            with,
        ),
        !starts_escape(s, c) && s.len() > 0 ==> text::replaced(s, seq!['\\', c], with) == seq![s[0]]
            + text::replaced(s.drop_first(), seq!['\\', c], with),
        s.len() == 0 ==> text::replaced(s, seq!['\\', c], with) == s,
{
    let pat = seq!['\\', c];
    if s.len() >= 2 {
        let head = s.subrange(0, 2);
        assert(head =~= seq![s[0], s[1]]);
        assert((head == pat) == starts_escape(s, c)) by {
            if head == pat {
                assert(head[0] == pat[0] && head[1] == pat[1]);
            }
        }
    } else if s.len() == 1 {
        assert(s =~= seq![s[0]] + s.drop_first());
        assert(text::replaced(s.drop_first(), pat, with) == s.drop_first());
    }
}

/// An argument is read from left to right: a backslash with an `n` is a line feed,
/// a backslash with a `t` is a tab, wherever they stand and however often, and every
/// other character stands for itself.
pub proof fn lemma_escapes_read(arg: Seq<char>)
    ensures
        starts_escape(arg, 'n') ==> parser::unescaped(arg) == seq!['\n'] + parser::unescaped(
            arg.skip(2),
        ),
        starts_escape(arg, 't') ==> parser::unescaped(arg) == seq!['\t'] + parser::unescaped(
            arg.skip(2),
        ),
        arg.len() > 0 && !starts_escape(arg, 'n') && !starts_escape(arg, 't')
            ==> parser::unescaped(arg) == seq![arg[0]] + parser::unescaped(arg.drop_first()),
        arg.len() == 0 ==> parser::unescaped(arg).len() == 0,
{
    lemma_escape_patterns();
    let (pn, pt) = (seq!['\\', 'n'], seq!['\\', 't']);
    let (n, t) = (seq!['\n'], seq!['\t']);
    lemma_replace_step(arg, 'n', n);
    let lines = text::replaced(arg, pn, n);
    lemma_replace_step(lines, 't', t);
    if arg.len() == 0 {
    } else if starts_escape(arg, 'n') {
        let rest = text::replaced(arg.skip(2), pn, n);
        assert(lines.drop_first() =~= rest);
    } else if starts_escape(arg, 't') {
        let tail = arg.drop_first();
        lemma_replace_step(tail, 'n', n);
        assert(tail.drop_first() =~= arg.skip(2));
        let rest = text::replaced(arg.skip(2), pn, n);
        assert(lines =~= seq!['\\', 't'] + rest);
        assert(lines.skip(2) =~= rest);
    } else {
        let tail = arg.drop_first();
        lemma_replace_step(tail, 'n', n);
        let rest = text::replaced(tail, pn, n);
        assert(lines.drop_first() =~= rest);
        assert(!starts_escape(lines, 't')) by {
            if tail.len() > 0 && arg[0] == '\\' {
                assert(arg[1] == tail[0]);
            }
        }
    }
}

/// A text as it is written in a script: line feeds and tabs as escapes.
pub open spec fn escaped(s: Seq<char>) -> Seq<char>
    decreases s.len(),
{
    if s.len() == 0 {
        Seq::empty()
    } else if s[0] == '\n' {
        seq!['\\', 'n'] + escaped(s.drop_first())
    } else if s[0] == '\t' {
        seq!['\\', 't'] + escaped(s.drop_first())
    } else {
        seq![s[0]] + escaped(s.drop_first())
    }
}

/// Whether nothing in a text looks like an escape.
pub open spec fn plain(s: Seq<char>) -> bool {
    forall|i: int|
        0 <= i < s.len() - 1 && #[trigger] s[i] == '\\' ==> s[i + 1] != 'n' && s[i + 1] != 't'
}

/// Any text in which nothing looks like an escape can be written with escapes, and
/// is read back.
pub proof fn lemma_escapes_round_trip(s: Seq<char>)
    requires
        plain(s),
    ensures
        parser::unescaped(escaped(s)) == s,
    decreases s.len(),
{
    let e = escaped(s);
    lemma_escapes_read(e);
    if s.len() == 0 {
        assert(parser::unescaped(e) =~= s);
    } else {
        let tail = s.drop_first();
        assert forall|i: int| 0 <= i < tail.len() - 1 && #[trigger] tail[i] == '\\' implies tail[i
            + 1] != 'n' && tail[i + 1] != 't' by {
            assert(s[i + 1] == '\\');
        }
        lemma_escapes_round_trip(tail);
        let rest = escaped(tail);
        if s[0] == '\n' || s[0] == '\t' {
            assert(e.skip(2) =~= rest);
        } else {
            assert(e.drop_first() =~= rest);
            if s[0] == '\\' && tail.len() > 0 {
                assert(s[1] == tail[0]);
                assert(rest[0] == tail[0] || rest[0] == '\\');
            }
        }
        assert(seq![s[0]] + tail =~= s);
    }
}

/// Pieces without a backslash, joined by an escape, are the pieces joined by what
/// the escape stands for, however many there are.
pub proof fn lemma_escape_joins(a: Seq<char>, b: Seq<char>)
    requires
        !a.contains('\\'),
    ensures
        parser::unescaped(a + seq!['\\', 'n'] + b) == a + seq!['\n'] + parser::unescaped(b),
        parser::unescaped(a + seq!['\\', 't'] + b) == a + seq!['\t'] + parser::unescaped(b),
        parser::unescaped(a) == a,
    decreases a.len(),
{
    let (x, y) = (a + seq!['\\', 'n'] + b, a + seq!['\\', 't'] + b);
    lemma_escapes_read(x);
    lemma_escapes_read(y);
    lemma_escapes_read(a);
    if a.len() == 0 {
        assert(x.skip(2) =~= b);
        assert(y.skip(2) =~= b);
        assert(a + seq!['\n'] + parser::unescaped(b) =~= seq!['\n'] + parser::unescaped(b));
        assert(a + seq!['\t'] + parser::unescaped(b) =~= seq!['\t'] + parser::unescaped(b));
        assert(parser::unescaped(a) =~= a);
    } else {
        assert(a.contains(a[0]));
        let tail = a.drop_first();
        assert forall|i: int| 0 <= i < tail.len() implies tail[i] != '\\' by {
            assert(a.contains(a[i + 1]));
        }
        lemma_escape_joins(tail, b);
        assert(x.drop_first() =~= tail + seq!['\\', 'n'] + b);
        assert(y.drop_first() =~= tail + seq!['\\', 't'] + b);
        let u = parser::unescaped(b);
        assert(seq![a[0]] + (tail + seq!['\n'] + u) =~= a + seq!['\n'] + u);
        assert(seq![a[0]] + (tail + seq!['\t'] + u) =~= a + seq!['\t'] + u);
        assert(seq![a[0]] + tail =~= a);
    }
}

// *** Lines

/// Two words, or two words and the rest, with spaces between them.
proof fn lemma_words(a: Seq<char>, b: Seq<char>, c: Seq<char>)
    requires
        !a.contains(' '),
        !b.contains(' '),
    ensures
        split::splitn(a + seq![' '] + b + seq![' '] + c, 3, ' ') == seq![a, b, c],
        split::splitn(a + seq![' '] + b, 3, ' ') == seq![a, b],
        split::splitn(a, 3, ' ') == seq![a],
{
    lemma_cut(a, b + seq![' '] + c);
    lemma_cut(a, b);
    lemma_cut(b, c);
    text::lemma_find_char(a, ' ');
    text::lemma_find_char(b, ' ');
    assert(a + seq![' '] + b + seq![' '] + c =~= a + seq![' '] + (b + seq![' '] + c));
    reveal_with_fuel(split::splitn, 4);
    assert(split::splitn(c, 1, ' ') == seq![c]);
    assert(split::splitn(b, 2, ' ') == seq![b]);
    assert(split::splitn(b + seq![' '] + c, 2, ' ') =~= seq![b, c]);
    assert(seq![a] + seq![b, c] =~= seq![a, b, c]);
    assert(seq![a] + seq![b] =~= seq![a, b]);
}

proof fn lemma_cut(a: Seq<char>, rest: Seq<char>)
    requires
        !a.contains(' '),
    ensures
        text::split_once(a + seq![' '] + rest, ' ') == Some((a, rest)),
{
    let s = a + seq![' '] + rest;
    assert(s =~= a.push(' ') + rest);
    text::lemma_find_char_after(a, ' ', rest);
    assert(s.take(a.len() as int) =~= a);
    assert(s.skip(a.len() as int + 1) =~= rest);
}

/// The name of an editor in a script.
pub open spec fn editor_name(n: nat) -> Seq<char> {
    seq!['E'] + number::decimal(n)
}

proof fn lemma_editor_name(n: nat)
    requires
        n <= usize::MAX,
    ensures
        !editor_name(n).contains(' '),
        editor_name(n)[0] == 'E',
        number::parse_unsigned(editor_name(n).skip(1), usize::MAX as nat) == Ok::<nat, NumberError>(
            n,
        ),
{
    let name = editor_name(n);
    number::lemma_decimal_digits(n);
    assert forall|i: int| 0 <= i < name.len() implies name[i] != ' ' by {
        if i > 0 {
            assert('0' <= number::decimal(n)[i - 1] <= '9');
        }
    }
    assert(name.skip(1) =~= number::decimal(n));
    number::lemma_parse_decimal(n, usize::MAX as nat);
}

/// Whether a line, white space at its ends aside, is a command with an argument.
pub open spec fn is_line(raw: Seq<char>, n: nat, word: Seq<char>, arg: Option<Seq<char>>) -> bool {
    let line = editor_name(n) + seq![' '] + word;
    text::trimmed(raw, CharClass::White) == match arg {
        Some(a) => line + seq![' '] + a,
        None => line,
    }
}

proof fn lemma_line(raw: Seq<char>, n: nat, word: Seq<char>, arg: Option<Seq<char>>)
    requires
        n <= usize::MAX,
        !word.contains(' '),
        is_line(raw, n, word, arg),
    ensures
        parser::line_meaning(raw) == parser::word_command(n, word, arg),
{
    reveal_strlit("===CHECK===");
    let name = editor_name(n);
    let line = text::trimmed(raw, CharClass::White);
    lemma_editor_name(n);
    assert(line[0] == 'E');
    match arg {
        Some(a) => lemma_words(name, word, a),
        None => lemma_words(name, word, word),
    }
}

/// The words of the commands are different.
proof fn lemma_words_differ()
    ensures
        "MOVE"@ == seq!['M', 'O', 'V', 'E'],
        "INSERT"@ == seq!['I', 'N', 'S', 'E', 'R', 'T'],
        "DELETE"@ == seq!['D', 'E', 'L', 'E', 'T', 'E'],
        "UNDO"@ == seq!['U', 'N', 'D', 'O'],
        "REDO"@ == seq!['R', 'E', 'D', 'O'],
        "SEND"@ == seq!['S', 'E', 'N', 'D'],
        "BEGIN_GROUP"@ == seq!['B', 'E', 'G', 'I', 'N', '_', 'G', 'R', 'O', 'U', 'P'],
        "END_GROUP"@ == seq!['E', 'N', 'D', '_', 'G', 'R', 'O', 'U', 'P'],
{
    reveal_strlit("MOVE");
    reveal_strlit("INSERT");
    reveal_strlit("DELETE");
    reveal_strlit("UNDO");
    reveal_strlit("REDO");
    reveal_strlit("SEND");
    reveal_strlit("BEGIN_GROUP");
    reveal_strlit("END_GROUP");
    assert("MOVE"@ =~= seq!['M', 'O', 'V', 'E']);
    assert("INSERT"@ =~= seq!['I', 'N', 'S', 'E', 'R', 'T']);
    assert("DELETE"@ =~= seq!['D', 'E', 'L', 'E', 'T', 'E']);
    assert("UNDO"@ =~= seq!['U', 'N', 'D', 'O']);
    assert("REDO"@ =~= seq!['R', 'E', 'D', 'O']);
    assert("SEND"@ =~= seq!['S', 'E', 'N', 'D']);
    assert("BEGIN_GROUP"@ =~= seq!['B', 'E', 'G', 'I', 'N', '_', 'G', 'R', 'O', 'U', 'P']);
    assert("END_GROUP"@ =~= seq!['E', 'N', 'D', '_', 'G', 'R', 'O', 'U', 'P']);
}

/// The word and the argument with which a command is written, if it is for an
/// editor.
pub open spec fn written(c: CommandView) -> (Seq<char>, Option<Seq<char>>) {
    match c {
        CommandView::Move { offset, .. } => (
            seq!['M', 'O', 'V', 'E'],
            Some(number::signed_decimal(offset)),
        ),
        CommandView::Insert { text, .. } => (
            seq!['I', 'N', 'S', 'E', 'R', 'T'],
            Some(escaped(text)),
        ),
        CommandView::Delete { count, .. } => (
            seq!['D', 'E', 'L', 'E', 'T', 'E'],
            Some(number::signed_decimal(count)),
        ),
        CommandView::Undo { .. } => (seq!['U', 'N', 'D', 'O'], None),
        CommandView::Redo { .. } => (seq!['R', 'E', 'D', 'O'], None),
        CommandView::Send { .. } => (seq!['S', 'E', 'N', 'D'], None),
        CommandView::BeginGroup { .. } => (
            seq!['B', 'E', 'G', 'I', 'N', '_', 'G', 'R', 'O', 'U', 'P'],
            None,
        ),
        CommandView::EndGroup { .. } => (
            seq!['E', 'N', 'D', '_', 'G', 'R', 'O', 'U', 'P'],
            None,
        ),
        CommandView::Check => (Seq::empty(), None),
    }
}

/// Whether the numbers of a command fit and its text can be written.
pub open spec fn writable(c: CommandView) -> bool {
    &&& match c.editor() {
        Some(e) => e < usize::MAX,
        None => false,
    }
    &&& match c {
        CommandView::Move { offset, .. } => i64::MIN <= offset <= i64::MAX,
        CommandView::Delete { count, .. } => i64::MIN <= count <= i64::MAX,
        CommandView::Insert { text, .. } => plain(text),
        _ => true,
    }
}

/// A command that is written into a script is read back: the editor counted from
/// one, the word, and the offset, the count or the text.
pub proof fn lemma_command_round_trip(c: CommandView, raw: Seq<char>)
    requires
        writable(c),
        is_line(raw, c.editor()->0 + 1, written(c).0, written(c).1),
    ensures
        parser::line_meaning(raw) == LineView::Command(c),
{
    let n = c.editor()->0 + 1;
    let (word, arg) = written(c);
    assert(!word.contains(' '));
    lemma_words_differ();
    lemma_line(raw, n, word, arg);
    assert(word.len() > 0 && word[0] == word[0]);
    match c {
        CommandView::Move { offset, .. } => number::lemma_parse_signed_decimal(offset),
        CommandView::Delete { count, .. } => {
            number::lemma_parse_signed_decimal(count);
            assert(word[0] != "MOVE"@[0]);
        },
        CommandView::Insert { text, .. } => {
            lemma_escapes_round_trip(text);
            assert(word[0] != "MOVE"@[0]);
        },
        _ => {
            assert(word[0] != "MOVE"@[0]);
            assert(word[0] != "INSERT"@[0]);
            assert(word[0] != "DELETE"@[0]);
        },
    }
}

/// The argument of an insertion is everything behind the word, spaces included,
/// with its escapes read.
pub proof fn lemma_insertion_takes_the_rest(raw: Seq<char>, n: nat, arg: Seq<char>)
    requires
        0 < n <= usize::MAX,
        is_line(raw, n, seq!['I', 'N', 'S', 'E', 'R', 'T'], Some(arg)),
    ensures
        parser::line_meaning(raw) == LineView::Command(
            CommandView::Insert { editor: (n - 1) as nat, text: parser::unescaped(arg) },
        ),
{
    lemma_words_differ();
    lemma_line(raw, n, seq!['I', 'N', 'S', 'E', 'R', 'T'], Some(arg));
    assert("INSERT"@[0] != "MOVE"@[0]);
}

/// What a command lacks is named: an offset, a text or a count. A number that cannot
/// be read is an error too.
pub proof fn lemma_what_is_missing(raw: Seq<char>, n: nat, arg: Seq<char>)
    requires
        n <= usize::MAX,
    ensures
        is_line(raw, n, seq!['M', 'O', 'V', 'E'], None) ==> parser::line_meaning(raw)
            == LineView::Fail(ErrorView::MissingOffset),
        is_line(raw, n, seq!['I', 'N', 'S', 'E', 'R', 'T'], None) ==> parser::line_meaning(raw)
            == LineView::Fail(ErrorView::MissingText),
        is_line(raw, n, seq!['D', 'E', 'L', 'E', 'T', 'E'], None) ==> parser::line_meaning(raw)
            == LineView::Fail(ErrorView::MissingCount),
        number::parse_signed(arg) matches Err(e) ==> {
            &&& is_line(raw, n, seq!['M', 'O', 'V', 'E'], Some(arg)) ==> parser::line_meaning(raw)
                == LineView::Fail(ErrorView::Number(e))
            &&& is_line(raw, n, seq!['D', 'E', 'L', 'E', 'T', 'E'], Some(arg))
                ==> parser::line_meaning(raw) == LineView::Fail(ErrorView::Number(e))
        },
{
    lemma_words_differ();
    let (m, i, d) = (
        seq!['M', 'O', 'V', 'E'],
        seq!['I', 'N', 'S', 'E', 'R', 'T'],
        seq!['D', 'E', 'L', 'E', 'T', 'E'],
    );
    assert(i[0] != m[0] && d[0] != m[0] && d[0] != i[0]);
    if is_line(raw, n, m, None) {
        lemma_line(raw, n, m, None);
    }
    if is_line(raw, n, i, None) {
        lemma_line(raw, n, i, None);
    }
    if is_line(raw, n, d, None) {
        lemma_line(raw, n, d, None);
    }
    if is_line(raw, n, m, Some(arg)) {
        lemma_line(raw, n, m, Some(arg));
    }
    if is_line(raw, n, d, Some(arg)) {
        lemma_line(raw, n, d, Some(arg));
    }
}

/// A word that is none of the commands is named in the error.
pub proof fn lemma_unknown_word(raw: Seq<char>, n: nat, word: Seq<char>, arg: Option<Seq<char>>)
    requires
        n <= usize::MAX,
        is_line(raw, n, word, arg),
        !word.contains(' '),
        word != seq!['M', 'O', 'V', 'E'],
        word != seq!['I', 'N', 'S', 'E', 'R', 'T'],
        word != seq!['D', 'E', 'L', 'E', 'T', 'E'],
        word != seq!['U', 'N', 'D', 'O'],
        word != seq!['R', 'E', 'D', 'O'],
        word != seq!['S', 'E', 'N', 'D'],
        word != seq!['B', 'E', 'G', 'I', 'N', '_', 'G', 'R', 'O', 'U', 'P'],
        word != seq!['E', 'N', 'D', '_', 'G', 'R', 'O', 'U', 'P'],
    ensures
        parser::line_meaning(raw) == LineView::Fail(ErrorView::UnknownCommand(word)),
{
    lemma_words_differ();
    lemma_line(raw, n, word, arg);
}

/// A line of its own, white space aside, asks for a check; nothing else does.
pub proof fn lemma_check_line(raw: Seq<char>)
    ensures
        parser::line_meaning(raw) == LineView::Command(CommandView::Check) <==> text::trimmed(
            raw,
            CharClass::White,
        ) == "===CHECK==="@,
{
}

// *** Scripts

/// The commands of a script come from the lines behind the first blank one, in
/// order: a line at the end adds its command, unless there was an error before; the
/// first error decides.
pub proof fn lemma_lines_in_order(lines: Seq<Seq<char>>, line: Seq<char>)
    ensures
        parser::commands_of(Seq::<Seq<char>>::empty()) == Ok::<Seq<CommandView>, ErrorView>(
            Seq::empty(),
        ),
        match parser::commands_of(lines) {
            Err(e) => parser::commands_of(lines.push(line)) == Err::<Seq<CommandView>, ErrorView>(
                e,
            ),
            Ok(earlier) => match parser::line_meaning(line) {
                LineView::Skip => parser::commands_of(lines.push(line)) == Ok::<
                    Seq<CommandView>,
                    ErrorView,
                >(earlier),
                LineView::Command(c) => parser::commands_of(lines.push(line)) == Ok::<
                    Seq<CommandView>,
                    ErrorView,
                >(earlier.push(c)),
                LineView::Fail(e) => parser::commands_of(lines.push(line)) == Err::<
                    Seq<CommandView>,
                    ErrorView,
                >(e),
            },
        },
{
    assert(lines.push(line).drop_last() =~= lines);
}

proof fn lemma_first_blank(lines: Seq<Seq<char>>, k: int)
    requires
        0 <= k < lines.len(),
        text::trimmed(lines[k], CharClass::White).len() == 0,
        forall|i: int|
            0 <= i < k ==> text::trimmed(#[trigger] lines[i], CharClass::White).len() > 0,
    ensures
        parser::header_end(lines) == k,
    decreases k,
{
    if k > 0 {
        assert(text::trimmed(lines[0], CharClass::White).len() > 0);
        let short = lines.drop_first();
        assert forall|i: int| 0 <= i < k - 1 implies text::trimmed(
            #[trigger] short[i],
            CharClass::White,
        ).len() > 0 by {
            assert(lines[i + 1] == short[i]);
        }
        lemma_first_blank(short, k - 1);
    }
}

proof fn lemma_no_blank(lines: Seq<Seq<char>>)
    requires
        forall|i: int|
            0 <= i < lines.len() ==> text::trimmed(#[trigger] lines[i], CharClass::White).len() > 0,
    ensures
        parser::header_end(lines) == lines.len(),
    decreases lines.len(),
{
    if lines.len() > 0 {
        assert(text::trimmed(lines[0], CharClass::White).len() > 0);
        let short = lines.drop_first();
        assert forall|i: int| 0 <= i < short.len() implies text::trimmed(
            #[trigger] short[i],
            CharClass::White,
        ).len() > 0 by {
            assert(lines[i + 1] == short[i]);
        }
        lemma_no_blank(short);
    }
}

/// The first blank line parts the headers from the commands. Without one there are
/// no commands.
pub proof fn lemma_blank_line_parts(content: Seq<char>, k: int)
    requires
        ({
            let lines = split::lines(content);
            &&& 0 <= k <= lines.len()
            &&& forall|i: int|
                0 <= i < k ==> text::trimmed(#[trigger] lines[i], CharClass::White).len() > 0
            &&& k < lines.len() ==> text::trimmed(lines[k], CharClass::White).len() == 0
        }),
    ensures
        ({
            let lines = split::lines(content);
            &&& parser::script_headers(content) == parser::headers_of(lines.take(k))
            &&& k < lines.len() ==> parser::script_commands(content) == parser::commands_of(
                lines.skip(k + 1),
            )
            &&& k == lines.len() ==> parser::script_commands(content) == Ok::<
                Seq<CommandView>,
                ErrorView,
            >(Seq::empty())
        }),
{
    let lines = split::lines(content);
    if k < lines.len() {
        lemma_first_blank(lines, k);
    } else {
        lemma_no_blank(lines);
    }
}

/// A header line gives what stands before its first colon the value behind it, white
/// space at the ends aside, in place of an earlier value. A line without a colon gives
/// nothing.
pub proof fn lemma_header_line(lines: Seq<Seq<char>>, key: Seq<char>, value: Seq<char>)
    requires
        !key.contains(':'),
    ensures
        ({
            let before = parser::headers_of(lines);
            let after = parser::headers_of(lines.push(key + seq![':'] + value));
            let k = text::trimmed(key, CharClass::White);
            &&& after.contains_key(k) && after[k] == text::trimmed(value, CharClass::White)
            &&& forall|other: Seq<char>|
                other != k ==> (#[trigger] after.contains_key(other) == before.contains_key(other)
                    && (before.contains_key(other) ==> after[other] == before[other]))
        }),
        parser::headers_of(lines.push(key)) == parser::headers_of(lines),
        parser::headers_of(Seq::<Seq<char>>::empty()) == Map::<Seq<char>, Seq<char>>::empty(),
{
    let line = key + seq![':'] + value;
    assert(lines.push(line).drop_last() =~= lines);
    assert(lines.push(key).drop_last() =~= lines);
    assert(line =~= key.push(':') + value);
    text::lemma_find_char_after(key, ':', value);
    assert(line.take(key.len() as int) =~= key);
    assert(line.skip(key.len() as int + 1) =~= value);
    text::lemma_find_char(key, ':');
}

/// A script is named by its header `Name`.
pub proof fn lemma_title(headers: Map<Seq<char>, Seq<char>>)
    ensures
        headers.contains_key(seq!['N', 'a', 'm', 'e']) ==> parser::title_of(headers) == headers[seq![
            'N',
            'a',
            'm',
            'e',
        ]],
        !headers.contains_key(seq!['N', 'a', 'm', 'e']) ==> parser::title_of(headers)
            == "Unnamed Test"@,
{
    reveal_strlit("Name");
    assert("Name"@ =~= seq!['N', 'a', 'm', 'e']);
}

/// A line that was read gives what it means: nothing, its command or its error.
pub proof fn lemma_line_is_read(c: TranscriptCommand, e: TranscriptError, m: LineView)
    ensures
        parser::agrees(Ok(None), m) <==> m is Skip,
        parser::agrees(Ok(Some(c)), m) <==> m is Command && m->Command_0 == c@,
        parser::agrees(Err(e), m) <==> m is Fail && m->Fail_0 == e@,
{
}

/// Headers and commands that were read are what they hold, each in its place.
pub proof fn lemma_contents(m: Map<Seq<char>, String>, k: Seq<char>, v: Seq<TranscriptCommand>)
    ensures
        parser::text_map(m).contains_key(k) <==> m.contains_key(k),
        m.contains_key(k) ==> parser::text_map(m)[k] == m[k]@,
        parser::command_views(v).len() == v.len(),
        forall|i: int| 0 <= i < v.len() ==> #[trigger] parser::command_views(v)[i] == v[i]@,
{
}

/// The number of editors is one where no command is for an editor, and else one more
/// than the largest number that a command is for.
pub proof fn lemma_editors_needed(commands: Seq<CommandView>)
    ensures
        ({
            let n = parser::editor_count(commands);
            &&& n >= 1
            &&& forall|i: int|
                0 <= i < commands.len() && (#[trigger] commands[i]).editor() is Some
                    ==> commands[i].editor()->0 < n
            &&& n > 1 ==> exists|i: int|
                0 <= i < commands.len() && (#[trigger] commands[i]).editor() == Some((n - 1) as nat)
        }),
    decreases commands.len(),
{
    if commands.len() > 0 {
        let short = commands.drop_last();
        lemma_editors_needed(short);
        let (m, n) = (parser::editor_count(short), parser::editor_count(commands));
        assert forall|i: int|
            0 <= i < commands.len() && (#[trigger] commands[i]).editor() is Some implies
            commands[i].editor()->0 < n by {
            if i < short.len() {
                assert(short[i] == commands[i]);
            }
        }
        if n > 1 {
            if n == m {
                let k = choose|i: int|
                    0 <= i < short.len() && (#[trigger] short[i]).editor() == Some((m - 1) as nat);
                assert(commands[k] == short[k]);
            } else {
                assert(commands[commands.len() - 1].editor() == Some((n - 1) as nat));
            }
        }
    }
}

} // verus!
