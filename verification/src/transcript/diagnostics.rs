//! What is reported of a run that failed.

use crate::transcript::parser::{CommandView, TranscriptCommand};
use vstd::prelude::*;

verus! {

/// The last commands of a run, with their numbers.
pub struct DiagnosticState {
    command_history: Vec<(usize, TranscriptCommand)>,
    max_history: usize,
}

/// The last `n` entries.
pub open spec fn last_entries<T>(s: Seq<T>, n: nat) -> Seq<T> {
    if s.len() <= n {
        s
    } else {
        s.skip(s.len() - n)
    }
}

/// What numbered commands say.
pub open spec fn entry_views(s: Seq<(usize, TranscriptCommand)>) -> Seq<(nat, CommandView)> {
    Seq::new(s.len(), |i: int| (s[i].0 as nat, s[i].1@))
}

/// A history that keeps up to `limit` entries, after one more.
pub open spec fn recorded<T>(kept: Seq<T>, limit: nat, x: T) -> Seq<T> {
    if kept.len() < limit {
        kept.push(x)
    } else {
        kept.push(x).drop_first()
    }
}

impl DiagnosticState {
    /// The commands that are kept, with their numbers, oldest first.
    pub closed spec fn history(&self) -> Seq<(nat, CommandView)> {
        entry_views(self.command_history@)
    }

    /// How many commands are kept.
    pub closed spec fn limit(&self) -> nat {
        self.max_history as nat
    }

    /// An empty history that keeps up to `max_history` commands.
    pub fn new(max_history: usize) -> (r: Self)
        ensures
            r.history() == Seq::<(nat, CommandView)>::empty(),
            r.limit() == max_history,
    {
        assert(entry_views(Seq::empty()) =~= Seq::<(nat, CommandView)>::empty());
        DiagnosticState { command_history: Vec::new(), max_history }
    }

    /// How many commands are kept at the moment.
    pub fn history_len(&self) -> (r: usize)
        ensures
            r == self.history().len(),
    {
        self.command_history.len()
    }

    /// A command that is kept, with its number.
    pub fn history_entry(&self, i: usize) -> (r: (usize, &TranscriptCommand))
        requires
            i < self.history().len(),
        ensures
            (r.0 as nat, r.1@) == self.history()[i as int],
    {
        let entry = &self.command_history[i];
        (entry.0, &entry.1)
    }

    /// Adds a command; the oldest one goes where there are too many.
    pub fn record_command(&mut self, idx: usize, cmd: TranscriptCommand)
        ensures
            final(self).limit() == old(self).limit(),
            final(self).history() == recorded(
                old(self).history(),
                old(self).limit(),
                (idx as nat, cmd@),
            ),
    {
        self.command_history.push((idx, cmd));
        if self.command_history.len() > self.max_history {
            self.command_history.remove(0);
        }
        assert(entry_views(self.command_history@) =~= recorded(
            old(self).history(),
            old(self).limit(),
            (idx as nat, cmd@),
        ));
    }
}

/// What is kept are always the last commands recorded: a history that holds the
/// last ones of `all` holds, after one more, the last ones of all with it.
pub proof fn lemma_history_is_last<T>(all: Seq<T>, kept: Seq<T>, limit: nat, x: T)
    requires
        kept == last_entries(all, limit),
    ensures
        recorded(kept, limit, x) == last_entries(all.push(x), limit),
{
    assert(recorded(kept, limit, x) =~= last_entries(all.push(x), limit));
}

} // verus!
