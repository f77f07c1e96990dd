//! Finding, naming and showing scripts.

use crate::number;
use crate::split;
use crate::text;
use crate::transcript::parser;
use vstd::prelude::*;
use vstd::string::*;

verus! {

/// Where the scripts lie below the root of the package.
pub const TRANSCRIPTS_PATH: &'static str = "src/server/transcripts";

/// A relative path below a directory.
pub open spec fn joined(dir: Seq<char>, path: Seq<char>) -> Seq<char> {
    if dir.len() == 0 {
        path
    } else if dir.last() == '/' {
        dir + path
    } else {
        dir + "/"@ + path
    }
}

/// Puts a relative path below a directory.
pub fn join_path(dir: &str, path: &str) -> (r: String)
    ensures
        r@ == joined(dir@, path@),
{
    let n: usize = dir.unicode_len();
    if n == 0 {
        path.to_owned()
    } else if dir.get_char(n - 1) == '/' {
        text::concat(dir, path)
    } else {
        text::concat3(dir, "/", path)
    }
}

/// The directory of the scripts of the package with the given root.
pub fn get_transcripts_dir(manifest_dir: &str) -> (r: String)
    ensures
        r@ == joined(manifest_dir@, TRANSCRIPTS_PATH@),
        r@ == joined(manifest_dir@, "src/server/transcripts"@),
{
    join_path(manifest_dir, TRANSCRIPTS_PATH)
}

/// Whether a text ends with another.
pub open spec fn ends_with(s: Seq<char>, tail: Seq<char>) -> bool {
    s.len() >= tail.len() && s.skip(s.len() - tail.len()) == tail
}

/// Tests whether a text ends with another.
pub fn ends_with_text(s: &str, tail: &str) -> (r: bool)
    ensures
        r == ends_with(s@, tail@),
{
    let a = text::to_chars(s);
    let b = text::to_chars(tail);
    if a.len() < b.len() {
        return false;
    }
    let from: usize = a.len() - b.len();
    let end = text::chars_between(&a, from, a.len());
    assert(end@ =~= s@.skip(s@.len() - tail@.len()));
    text::same_chars(&end, &b)
}

/// The file name of a script: `.txt` is added where it is missing.
pub open spec fn filename_of(name: Seq<char>) -> Seq<char> {
    if ends_with(name, ".txt"@) {
        name
    } else {
        name + ".txt"@
    }
}

/// The file name of a script.
pub fn transcript_filename(name: &str) -> (r: String)
    ensures
        r@ == filename_of(name@),
{
    if ends_with_text(name, ".txt") {
        name.to_owned()
    } else {
        text::concat(name, ".txt")
    }
}

/// Adding the extension twice is adding it once.
pub proof fn lemma_filename_idempotent(name: Seq<char>)
    ensures
        filename_of(filename_of(name)) == filename_of(name),
{
    let s = name + ".txt"@;
    assert(s.skip(s.len() - ".txt"@.len()) =~= ".txt"@);
}

/// A path comes behind a directory with one slash between them, and alone where
/// there is no directory.
pub proof fn lemma_joined(dir: Seq<char>, path: Seq<char>)
    ensures
        joined(Seq::empty(), path) == path,
        joined(dir.push('/'), path) == dir.push('/') + path,
        dir.len() > 0 && dir.last() != '/' ==> joined(dir, path) == dir.push('/') + path,
{
    reveal_strlit("/");
    assert(dir + "/"@ =~= dir.push('/'));
}

/// A text ends with what was put behind it, and with nothing else of that
/// length.
pub proof fn lemma_ends_with(head: Seq<char>, tail: Seq<char>, other: Seq<char>)
    ensures
        ends_with(head + tail, tail),
        other.len() == tail.len() && ends_with(head + tail, other) ==> other == tail,
        other.len() > head.len() + tail.len() ==> !ends_with(head + tail, other),
{
    let s = head + tail;
    assert(s.skip(s.len() - tail.len()) =~= tail);
}

/// A script is asked for with or without the extension, and its file has it.
pub proof fn lemma_script_names(name: Seq<char>)
    ensures
        filename_of(name + ".txt"@) == name + ".txt"@,
        !ends_with(name, ".txt"@) ==> filename_of(name) == name + ".txt"@,
        name.len() > 0 ==> is_script(name + ".txt"@),
        !is_script(".txt"@),
        !ends_with(name, ".txt"@) ==> !is_script(name),
        asked_for(name, None),
        asked_for(name, Some(name)),
        asked_for(name + ".txt"@, Some(name)) || ends_with(name, ".txt"@),
        !ends_with(name, ".txt"@) ==> forall|f: Seq<char>| #[trigger]
            asked_for(f, Some(name)) ==> f == name || f == name + ".txt"@,
        ends_with(name, ".txt"@) ==> forall|f: Seq<char>| #[trigger]
            asked_for(f, Some(name)) ==> f == name,
{
    lemma_ends_with(name, ".txt"@, ".txt"@);
}

/// Of two names in a sorted list the one that comes later is the same or comes
/// later in dictionary order.
pub proof fn lemma_sorted(names: Seq<Seq<char>>, i: int, j: int)
    requires
        sorted(names),
        0 <= i < j < names.len(),
    ensures
        names[i] == names[j] || text::lex_less(names[i], names[j]),
{
    text::lemma_lex_total(names[i], names[j]);
}

/// Whether a file name has the extension `txt`. A name that is nothing but the
/// extension has none.
pub open spec fn is_script(name: Seq<char>) -> bool {
    ends_with(name, ".txt"@) && name.len() > ".txt"@.len()
}

/// Tests whether a file name has the extension `txt`.
pub fn is_script_name(name: &str) -> (r: bool)
    ensures
        r == is_script(name@),
{
    ends_with_text(name, ".txt") && name.unicode_len() > ".txt".unicode_len()
}

/// Whether the names are in dictionary order.
pub open spec fn sorted(names: Seq<Seq<char>>) -> bool {
    forall|i: int, j: int|
        0 <= i < j < names.len() ==> !text::lex_less(#[trigger] names[j], #[trigger] names[i])
}

fn insert_sorted(names: &mut Vec<String>, name: String)
    requires
        sorted(split::texts(old(names)@)),
    ensures
        sorted(split::texts(final(names)@)),
        split::texts(final(names)@).to_multiset() == split::texts(old(names)@).to_multiset().insert(
            name@,
        ),
{
    let ghost all = split::texts(names@);
    let mut i: usize = names.len();
    while i > 0 && text::text_less(name.as_str(), names[i - 1].as_str())
        invariant
            i <= names@.len(),
            all == split::texts(names@),
            forall|j: int| i <= j < all.len() ==> text::lex_less(name@, #[trigger] all[j]),
        decreases i,
    {
        assert(all[i - 1] == names@[i - 1]@);
        i = i - 1;
    }
    let ghost new = name@;
    proof {
        assert forall|j: int| 0 <= j < i implies !text::lex_less(new, #[trigger] all[j]) by {
            assert(all[i - 1] == names@[i - 1]@);
            if text::lex_less(new, all[j]) {
                if j < i - 1 {
                    text::lemma_lex_total(all[i - 1], all[j]);
                    text::lemma_lex_total(new, all[i - 1]);
                    if all[j] != all[i - 1] {
                        text::lemma_lex_transitive(new, all[j], all[i - 1]);
                    }
                }
            }
        }
        assert forall|j: int| i <= j < all.len() implies !text::lex_less(#[trigger] all[j], new) by {
            text::lemma_lex_total(all[j], new);
        }
    }
    names.insert(i, name);
    let ghost grown = split::texts(names@);
    proof {
        assert(grown =~= all.insert(i as int, new));
        assert forall|a: int, b: int| 0 <= a < b < grown.len() implies !text::lex_less(
            #[trigger] grown[b],
            #[trigger] grown[a],
        ) by {
            let x = if a < i {
                a
            } else {
                a - 1
            };
            let y = if b < i {
                b
            } else {
                b - 1
            };
            if a == i {
                assert(grown[b] == all[y]);
            } else if b == i {
                assert(grown[a] == all[x]);
            } else {
                assert(grown[a] == all[x] && grown[b] == all[y]);
            }
        }
        broadcast use vstd::seq_lib::group_to_multiset_ensures;
        assert(grown.remove(i as int) =~= all);
        assert(grown.to_multiset().remove(new) == all.to_multiset());
        assert(grown[i as int] == new);
        assert(grown.to_multiset().count(new) > 0);
        assert(grown.to_multiset() =~= all.to_multiset().insert(new));
    }
}

/// The names of scripts among file names, in dictionary order.
pub fn list_transcripts(names: &[String]) -> (r: Vec<String>)
    ensures
        sorted(split::texts(r@)),
        split::texts(r@).to_multiset() == split::texts(names@).filter(
            |s: Seq<char>| is_script(s),
        ).to_multiset(),
{
    let mut r: Vec<String> = Vec::new();
    let ghost all = split::texts(names@);
    let ghost keep = |s: Seq<char>| is_script(s);
    assert(all.take(0).filter(keep) =~= Seq::<Seq<char>>::empty()) by {
        reveal(Seq::filter);
    }
    assert(split::texts(r@) =~= Seq::<Seq<char>>::empty());
    for i in 0..names.len()
        invariant
            all == split::texts(names@),
            keep == (|s: Seq<char>| is_script(s)),
            sorted(split::texts(r@)),
            split::texts(r@).to_multiset() == all.take(i as int).filter(keep).to_multiset(),
    {
        proof {
            assert(all.take(i + 1).drop_last() =~= all.take(i as int));
            reveal(Seq::filter);
            broadcast use vstd::seq_lib::group_to_multiset_ensures;
        }
        if is_script_name(names[i].as_str()) {
            insert_sorted(&mut r, names[i].clone());
        }
    }
    assert(all.take(all.len() as int) =~= all);
    r
}

/// Whether a script is the one asked for, by its name with or without the
/// extension; without a question every script is.
pub open spec fn asked_for(name: Seq<char>, filter: Option<Seq<char>>) -> bool {
    match filter {
        None => true,
        Some(f) => name == f || name == filename_of(f),
    }
}

/// Tests whether a script is the one asked for.
pub fn is_asked_for(name: &str, filter: Option<&str>) -> (r: bool)
    ensures
        r == asked_for(
            name@,
            match filter {
                Some(f) => Some(f@),
                None => None,
            },
        ),
{
    match filter {
        None => true,
        Some(f) => text::same(name, f) || text::same(name, transcript_filename(f).as_str()),
    }
}

/// The message for a script that is not there.
pub fn missing_message(filename: &str) -> (r: String)
    ensures
        r@ == "Transcript file not found: "@ + filename@,
{
    text::concat("Transcript file not found: ", filename)
}

/// One line for each script that failed, with its error.
pub open spec fn failure_lines(failed: Seq<(String, String)>) -> Seq<char>
    decreases failed.len(),
{
    if failed.len() == 0 {
        Seq::empty()
    } else {
        failure_lines(failed.drop_last()) + "\n  - "@ + failed.last().0@ + ": "@ + failed.last().1@
    }
}

/// Each script that failed has a line with its name and its error.
pub proof fn lemma_failure_lines(failed: Seq<(String, String)>, name: String, error: String)
    ensures
        failure_lines(Seq::empty()) == Seq::<char>::empty(),
        failure_lines(failed.push((name, error))) == failure_lines(failed) + "\n  - "@ + name@ + ": "@
            + error@,
{
    assert(failed.push((name, error)).drop_last() =~= failed);
}

/// The summary of the scripts that failed.
pub fn failure_summary(failed: &[(String, String)]) -> (r: String)
    ensures
        r@ == number::decimal(failed@.len()) + " transcript test(s) failed:"@ + failure_lines(
            failed@,
        ),
{
    let mut lines = String::new();
    assert(failed@.take(0) =~= Seq::<(String, String)>::empty());
    for i in 0..failed.len()
        invariant
            lines@ == failure_lines(failed@.take(i as int)),
    {
        assert(failed@.take(i + 1).drop_last() =~= failed@.take(i as int));
        lines.append("\n  - ");
        lines.append(failed[i].0.as_str());
        lines.append(": ");
        lines.append(failed[i].1.as_str());
    }
    assert(failed@.take(failed@.len() as int) =~= failed@);
    text::concat3(
        number::decimal_text(failed.len() as u64).as_str(),
        " transcript test(s) failed:",
        lines.as_str(),
    )
}

/// A rule around the text of a script.
pub const RULE: &'static str = "------------------------------------------------------------";

/// A script with its name, for display.
pub open spec fn display_form(filename: Seq<char>, content: Seq<char>) -> Seq<char> {
    "\nTranscript: "@ + parser::title_of(parser::script_headers(content)) + "\nFile: "@ + filename
        + "\n\n"@ + RULE@ + "\n"@ + content + "\n"@ + RULE@ + "\n"@
}

/// A script is shown whole, below its title and its file, between two rules.
pub proof fn lemma_display(filename: Seq<char>, content: Seq<char>)
    ensures
        display_form(filename, content) == "\nTranscript: "@ + parser::title_of(
            parser::script_headers(content),
        ) + "\nFile: "@ + filename + "\n\n"@
            + "------------------------------------------------------------"@ + "\n"@ + content
            + "\n"@ + "------------------------------------------------------------"@ + "\n"@,
{
}

/// Shows a script with its name and its file.
pub fn display_transcript(filename: &str, content: &str) -> (r: String)
    ensures
        r@ == display_form(filename@, content@),
{
    let headers = parser::parse_headers(content);
    let mut r = "\nTranscript: ".to_owned();
    r.append(parser::title(&headers).as_str());
    r.append("\nFile: ");
    r.append(filename);
    r.append("\n\n");
    r.append(RULE);
    r.append("\n");
    r.append(content);
    r.append("\n");
    r.append(RULE);
    r.append("\n");
    r
}

} // verus!
