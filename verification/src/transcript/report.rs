//! The report on a run that failed, and the results of one that did not.

use crate::number;
use crate::split;
use crate::text;
use crate::transcript::diagnostics::DiagnosticState;
use crate::transcript::parser::CommandView;
use crate::transcript::runner;
use crate::transcript::runner::Run;
use crate::transcript::spoke;
use crate::transcript::spoke::{Spoke, SpokeView};
use vstd::prelude::*;
use vstd::string::*;

verus! {

/// A rule across the report.
pub const RULE: &'static str =
    "================================================================================";

/// One line for each command, with its number counted from one.
pub open spec fn history_lines(h: Seq<(nat, CommandView)>) -> Seq<char>
    decreases h.len(),
{
    if h.len() == 0 {
        Seq::empty()
    } else {
        history_lines(h.drop_last()) + "  ["@ + number::decimal(h.last().0 + 1) + "] "@
            + h.last().1.text(|s: Seq<char>| text::debug_quoted(s)) + "\n"@
    }
}

/// The lines on one editor.
pub open spec fn spoke_lines(i: nat, s: SpokeView) -> Seq<char> {
    "  Editor "@ + number::decimal(i + 1) + ":\n    Content: '"@ + s.doc.content
        + "'\n    Length: "@ + number::decimal(runner::byte_len(s.doc.content))
        + " chars\n    Cursor: "@ + number::decimal(s.doc.cursor) + "\n    Ops applied: "@
        + number::decimal(s.ops_count) + "\n    Pending ops: "@ + number::decimal(s.pending.len())
        + "\n    Group seq: "@ + number::decimal(s.group_seq) + "\n"@
}

/// The lines on the editors.
pub open spec fn state_lines(spokes: Seq<SpokeView>) -> Seq<char>
    decreases spokes.len(),
{
    if spokes.len() == 0 {
        Seq::empty()
    } else {
        state_lines(spokes.drop_last()) + spoke_lines(
            (spokes.len() - 1) as nat,
            spokes.last(),
        )
    }
}

/// One line for each operation, with its number counted from zero.
pub open spec fn op_lines(ops: Seq<Seq<char>>) -> Seq<char>
    decreases ops.len(),
{
    if ops.len() == 0 {
        Seq::empty()
    } else {
        op_lines(ops.drop_last()) + "    ["@ + number::decimal((ops.len() - 1) as nat) + "] "@
            + ops.last() + "\n"@
    }
}

/// The contents of lists of texts.
pub open spec fn text_lists(v: Seq<Vec<String>>) -> Seq<Seq<Seq<char>>> {
    Seq::new(v.len(), |i: int| split::texts(v[i]@))
}

/// The lines on the operations that wait, for the editors that have any.
pub open spec fn pending_lines(pending: Seq<Seq<Seq<char>>>) -> Seq<char>
    decreases pending.len(),
{
    if pending.len() == 0 {
        Seq::empty()
    } else if pending.last().len() == 0 {
        pending_lines(pending.drop_last())
    } else {
        pending_lines(pending.drop_last()) + "  Editor "@ + number::decimal(pending.len()) + ":\n"@
            + op_lines(pending.last())
    }
}

/// The report on a failure: the error, the last commands, the editors and what
/// waits to be sent.
pub open spec fn report_text(
    error: Seq<char>,
    history: Seq<(nat, CommandView)>,
    spokes: Seq<SpokeView>,
    pending: Seq<Seq<Seq<char>>>,
) -> Seq<char> {
    "\n"@ + RULE@ + "\nERROR DIAGNOSTICS\n"@ + RULE@ + "\nError: "@ + error
        + "\n\nCommand History (last "@ + number::decimal(history.len()) + " commands):\n"@
        + history_lines(history) + "\nMock Document States:\n"@ + state_lines(spokes)
        + "\nPending Operations:\n"@ + pending_lines(pending) + RULE@ + "\n\n"@
}

impl DiagnosticState {
    fn history_text(&self) -> (r: String)
        ensures
            r@ == history_lines(self.history()),
    {
        let mut r = String::new();
        let ghost h = self.history();
        assert(h.take(0) =~= Seq::<(nat, CommandView)>::empty());
        let n: usize = self.history_len();
        for i in 0..n
            invariant
                h == self.history(),
                n == h.len(),
                r@ == history_lines(h.take(i as int)),
        {
            assert(h.take(i + 1).drop_last() =~= h.take(i as int));
            let (idx, cmd) = self.history_entry(i);
            r.append("  [");
            r.append(number::wide_decimal_text(idx as u128 + 1).as_str());
            r.append("] ");
            r.append(cmd.to_text().as_str());
            r.append("\n");
        }
        assert(h.take(h.len() as int) =~= h);
        r
    }

    /// Writes the report on a failure. `pending` holds the textual forms of the
    /// operations that wait, by editor.
    pub fn dump_diagnostics(&self, error: &str, spokes: &[Spoke], pending: &[Vec<String>]) -> (r:
        String)
        ensures
            r@ == report_text(
                error@,
                self.history(),
                spoke::spoke_views(spokes@),
                text_lists(pending@),
            ),
    {
        let mut r = "\n".to_owned();
        r.append(RULE);
        r.append("\nERROR DIAGNOSTICS\n");
        r.append(RULE);
        r.append("\nError: ");
        r.append(error);
        r.append("\n\nCommand History (last ");
        r.append(number::decimal_text(self.history_len() as u64).as_str());
        r.append(" commands):\n");
        r.append(self.history_text().as_str());
        r.append("\nMock Document States:\n");
        r.append(state_text(spokes).as_str());
        r.append("\nPending Operations:\n");
        r.append(pending_text(pending).as_str());
        r.append(RULE);
        r.append("\n\n");
        r
    }
}

fn state_text(spokes: &[Spoke]) -> (r: String)
    ensures
        r@ == state_lines(spoke::spoke_views(spokes@)),
{
    let mut r = String::new();
    let ghost all = spoke::spoke_views(spokes@);
    assert(all.take(0) =~= Seq::<SpokeView>::empty());
    for i in 0..spokes.len()
        invariant
            all == spoke::spoke_views(spokes@),
            r@ == state_lines(all.take(i as int)),
    {
        assert(all.take(i + 1).drop_last() =~= all.take(i as int));
        let ghost before = r@;
        let s = &spokes[i];
        let content = s.content();
        let mut line = "  Editor ".to_owned();
        line.append(number::wide_decimal_text(i as u128 + 1).as_str());
        line.append(":\n    Content: '");
        line.append(content.as_str());
        line.append("'\n    Length: ");
        line.append(number::decimal_text(runner::byte_count(content.as_str()) as u64).as_str());
        line.append(" chars\n    Cursor: ");
        line.append(number::decimal_text(s.cursor() as u64).as_str());
        line.append("\n    Ops applied: ");
        line.append(number::decimal_text(s.ops_count() as u64).as_str());
        line.append("\n    Pending ops: ");
        line.append(number::decimal_text(s.pending_ops().len() as u64).as_str());
        line.append("\n    Group seq: ");
        line.append(number::decimal_text(s.group_seq() as u64).as_str());
        line.append("\n");
        assert(line@ == spoke_lines(i as nat, s@));
        r.append(line.as_str());
    }
    assert(all.take(all.len() as int) =~= all);
    r
}

fn op_text(ops: &[String]) -> (r: String)
    ensures
        r@ == op_lines(split::texts(ops@)),
{
    let mut r = String::new();
    let ghost all = split::texts(ops@);
    assert(all.take(0) =~= Seq::<Seq<char>>::empty());
    for i in 0..ops.len()
        invariant
            all == split::texts(ops@),
            r@ == op_lines(all.take(i as int)),
    {
        assert(all.take(i + 1).drop_last() =~= all.take(i as int));
        r.append("    [");
        r.append(number::decimal_text(i as u64).as_str());
        r.append("] ");
        r.append(ops[i].as_str());
        r.append("\n");
    }
    assert(all.take(all.len() as int) =~= all);
    r
}

fn pending_text(pending: &[Vec<String>]) -> (r: String)
    ensures
        r@ == pending_lines(text_lists(pending@)),
{
    let mut r = String::new();
    let ghost all = text_lists(pending@);
    assert(all.take(0) =~= Seq::<Seq<Seq<char>>>::empty());
    for i in 0..pending.len()
        invariant
            all == text_lists(pending@),
            r@ == pending_lines(all.take(i as int)),
    {
        assert(all.take(i + 1).drop_last() =~= all.take(i as int));
        assert(all.take(i + 1).last() == split::texts(pending@[i as int]@));
        if pending[i].len() > 0 {
            r.append("  Editor ");
            r.append(number::wide_decimal_text(i as u128 + 1).as_str());
            r.append(":\n");
            r.append(op_text(&pending[i]).as_str());
        }
    }
    assert(all.take(all.len() as int) =~= all);
    r
}

/// One line for each editor with its text.
pub open spec fn result_lines(spokes: Seq<SpokeView>) -> Seq<char>
    decreases spokes.len(),
{
    if spokes.len() == 0 {
        Seq::empty()
    } else {
        result_lines(spokes.drop_last()) + "Editor "@ + number::decimal(spokes.len()) + ": '"@
            + spokes.last().doc.content + "'\n"@
    }
}

/// The results of a run.
pub open spec fn results_text(title: Seq<char>, s: runner::RunView) -> Seq<char> {
    "\n=== Transcript Results for '"@ + title + "' ===\n"@ + result_lines(s.spokes)
        + "ops_counts: "@ + number::decimal_list(s.ops_counts())
        + "\n=====================================\n\n"@
}

fn result_text(spokes: &[Spoke]) -> (r: String)
    ensures
        r@ == result_lines(spoke::spoke_views(spokes@)),
{
    let mut r = String::new();
    let ghost all = spoke::spoke_views(spokes@);
    assert(all.take(0) =~= Seq::<SpokeView>::empty());
    for i in 0..spokes.len()
        invariant
            all == spoke::spoke_views(spokes@),
            r@ == result_lines(all.take(i as int)),
    {
        assert(all.take(i + 1).drop_last() =~= all.take(i as int));
        r.append("Editor ");
        r.append(number::wide_decimal_text(i as u128 + 1).as_str());
        r.append(": '");
        r.append(spokes[i].content().as_str());
        r.append("'\n");
    }
    assert(all.take(all.len() as int) =~= all);
    r
}

impl Run {
    /// Writes the report on a failure of the run. `pending` holds the textual
    /// forms of the operations that wait, by editor.
    pub fn report(&self, error: &str, pending: &[Vec<String>]) -> (r: String)
        ensures
            r@ == report_text(error@, self@.history, self@.spokes, text_lists(pending@)),
    {
        self.diagnostics().dump_diagnostics(error, self.spokes(), pending)
    }

    /// Writes the results of the run.
    pub fn results(&self, title: &str) -> (r: String)
        ensures
            r@ == results_text(title@, self@),
    {
        let mut r = "\n=== Transcript Results for '".to_owned();
        r.append(title);
        r.append("' ===\n");
        r.append(result_text(self.spokes()).as_str());
        r.append("ops_counts: ");
        r.append(number::decimal_list_text(&self.ops_counts()).as_str());
        r.append("\n=====================================\n\n");
        r
    }
}

} // verus!
