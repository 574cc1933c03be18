//! The decisions of the driving loop: the mode it runs in, what it reports
//! after a pass, and what it does with each change the watcher delivers.

use vstd::prelude::*;
use crate::diag::Diagnostics;
use crate::site::str_equal;

verus! {

#[derive(Clone, Copy, Debug, PartialEq, Eq, Structural)]
pub enum Mode {
    /// Build once.
    Run,
    /// Build, then rebuild on every change.
    Watch,
}

/// The mode named on the command line: `run` when none is named.
pub fn parse_mode(arg: Option<&str>) -> (r: Option<Mode>)
    ensures
        r == (match arg {
            None => Some(Mode::Run),
            Some(a) => if a@ == "run"@ {
                Some(Mode::Run)
            } else if a@ == "watch"@ {
                Some(Mode::Watch)
            } else {
                None
            },
        }),
{
    match arg {
        None => Some(Mode::Run),
        Some(a) => {
            if str_equal(a, "run") {
                Some(Mode::Run)
            } else if str_equal(a, "watch") {
                Some(Mode::Watch)
            } else {
                None
            }
        },
    }
}

/// The lines printed after a pass: a success marker when nothing went
/// wrong, otherwise each diagnostic on its own line.
pub open spec fn report_of(messages: Seq<Seq<char>>) -> Seq<Seq<char>> {
    if messages.len() == 0 {
        seq!["compiled"@]
    } else {
        messages
    }
}

pub fn report_lines(log: &Diagnostics) -> (r: Vec<String>)
    ensures
        r@.map_values(|s: String| s@) == report_of(log.messages()),
{
    let mut r: Vec<String> = Vec::new();
    if log.is_empty() {
        r.push(String::from_str("compiled"));
        proof {
            assert(r@.map_values(|s: String| s@) =~= report_of(log.messages()));
        }
        return r;
    }
    let mut i: usize = 0;
    while i < log.len()
        invariant
            i <= log.messages().len(),
            r@.len() == i,
            forall|j: int| 0 <= j < i ==> r@[j]@ == log.messages()[j],
        decreases log.messages().len() - i,
    {
        r.push(log.message(i).clone());
        i = i + 1;
    }
    assert(r@.map_values(|s: String| s@) =~= report_of(log.messages()));
    r
}

/// How an attempt to reach a changed path on disk ended.
#[derive(Clone, Copy, Debug, PartialEq, Eq, Structural)]
pub enum Access {
    Done,
    NotFound,
    Failed,
}

/// What the loop does with a change notification.
#[derive(Clone, Copy, Debug, PartialEq, Eq, Structural)]
pub enum ChangeAction {
    /// Apply the new content to the store.
    Apply,
    /// The path is gone (an editor's save); keep what the store holds.
    Skip,
    /// Any other failure ends the loop.
    Stop,
}

/// Decides from how canonicalizing and then reading the changed path went.
pub fn on_change(canonical: Access, read: Access) -> (r: ChangeAction)
    ensures
        r == (if canonical == Access::Failed || (canonical == Access::Done && read
            == Access::Failed) {
            ChangeAction::Stop
        } else if canonical == Access::NotFound || read == Access::NotFound {
            ChangeAction::Skip
        } else {
            ChangeAction::Apply
        }),
{
    match (canonical, read) {
        (Access::Failed, _) => ChangeAction::Stop,
        (Access::NotFound, _) => ChangeAction::Skip,
        (Access::Done, Access::Failed) => ChangeAction::Stop,
        (Access::Done, Access::NotFound) => ChangeAction::Skip,
        (Access::Done, Access::Done) => ChangeAction::Apply,
    }
}

/// The phases of the watch loop.
#[derive(Clone, Copy, Debug, PartialEq, Eq, Structural)]
pub enum Phase {
    Idle,
    Building,
    Reporting,
    WaitingForChange,
    Invalidating,
    Stopped,
}

/// The phase after `p`; `failed` says that waiting on the change queue, or
/// applying a change, failed fatally.
pub fn next_phase(p: Phase, failed: bool) -> (r: Phase)
    ensures
        r == (match p {
            Phase::Idle => Phase::Building,
            Phase::Building => Phase::Reporting,
            Phase::Reporting => Phase::WaitingForChange,
            Phase::WaitingForChange => if failed {
                Phase::Stopped
            } else {
                Phase::Invalidating
            },
            Phase::Invalidating => if failed {
                Phase::Stopped
            } else {
                Phase::Building
            },
            Phase::Stopped => Phase::Stopped,
        }),
{
    match p {
        Phase::Idle => Phase::Building,
        Phase::Building => Phase::Reporting,
        Phase::Reporting => Phase::WaitingForChange,
        Phase::WaitingForChange => if failed {
            Phase::Stopped
        } else {
            Phase::Invalidating
        },
        Phase::Invalidating => if failed {
            Phase::Stopped
        } else {
            Phase::Building
        },
        Phase::Stopped => Phase::Stopped,
    }
}

} // verus!
