//! Decisions of the published-graph watcher. A worker polls the published
//! graph file; these functions decide, from what the poll saw, whether to
//! load and send an update, report that the graph is not published, or wait.
use vstd::prelude::*;

verus! {

/// The largest published graph file that is read.
pub const MAX_GRAPH_FILE: u64 = 1048576;

/// What identifies a version of the file: its modification time (in
/// nanoseconds from the Unix epoch, where the system reports one) and length.
#[derive(Clone, Copy, Debug, PartialEq, Eq, Structural)]
pub struct Stamp {
    pub modified: Option<i128>,
    pub len: u64,
}

/// What the watcher remembers between polls.
#[derive(Clone, Copy, Debug, PartialEq, Eq, Structural)]
pub struct WatchState {
    /// The version whose update was last delivered.
    pub previous: Option<Stamp>,
    /// Whether "not published" was delivered.
    pub missing_reported: bool,
}

/// What to do after a poll.
#[derive(Clone, Copy, Debug, PartialEq, Eq, Structural)]
pub enum WatchAction {
    /// Read and compile this version of the file and send the result.
    Load(Stamp),
    /// Send the "not published" message.
    ReportMissing,
    /// Nothing to send.
    Wait,
}

/// How sending an update went.
#[derive(Clone, Copy, Debug, PartialEq, Eq, Structural)]
pub enum SendOutcome {
    Sent,
    /// The single update slot is still taken; try again on a later poll.
    Full,
    /// The receiving side is gone.
    Closed,
}

pub open spec fn spec_plan(state: WatchState, file: Option<Stamp>) -> WatchAction {
    match file {
        Some(stamp) => if state.previous == Some(stamp) {
            WatchAction::Wait
        } else {
            WatchAction::Load(stamp)
        },
        None => if state.missing_reported {
            WatchAction::Wait
        } else {
            WatchAction::ReportMissing
        },
    }
}

/// The state after the action's update was offered to the receiver, and
/// whether the worker keeps running.
pub open spec fn spec_after_send(state: WatchState, action: WatchAction, outcome: SendOutcome) -> (
    WatchState,
    bool,
) {
    match action {
        WatchAction::Load(stamp) => match outcome {
            SendOutcome::Sent => (WatchState { previous: Some(stamp), ..state }, true),
            SendOutcome::Full => (state, true),
            SendOutcome::Closed => (state, false),
        },
        WatchAction::ReportMissing => match outcome {
            SendOutcome::Sent => (WatchState { missing_reported: true, ..state }, true),
            _ => (state, true),
        },
        WatchAction::Wait => (state, true),
    }
}

impl WatchState {
    pub fn new() -> (s: Self)
        ensures
            s.previous is None,
            !s.missing_reported,
    {
        WatchState { previous: None, missing_reported: false }
    }

    /// Decides what a poll that saw `file` (`None` when the file is missing)
    /// calls for: a version not yet delivered is loaded, and a missing file
    /// is reported once.
    pub fn plan(&self, file: Option<Stamp>) -> (a: WatchAction)
        ensures
            a == spec_plan(*self, file),
    {
        match file {
            Some(stamp) => if self.previous == Some(stamp) {
                WatchAction::Wait
            } else {
                WatchAction::Load(stamp)
            },
            None => if self.missing_reported {
                WatchAction::Wait
            } else {
                WatchAction::ReportMissing
            },
        }
    }

    /// Records how offering the update of `action` went; returns whether the
    /// worker keeps polling.
    pub fn after_send(&mut self, action: WatchAction, outcome: SendOutcome) -> (keep: bool)
        ensures
            (*final(self), keep) == spec_after_send(*old(self), action, outcome),
    {
        match action {
            WatchAction::Load(stamp) => match outcome {
                SendOutcome::Sent => {
                    self.previous = Some(stamp);
                    true
                },
                SendOutcome::Full => true,
                SendOutcome::Closed => false,
            },
            WatchAction::ReportMissing => {
                if outcome == SendOutcome::Sent {
                    self.missing_reported = true;
                }
                true
            },
            WatchAction::Wait => true,
        }
    }
}

/// Whether a file of `len` bytes is small enough to be read.
pub fn within_limit(len: u64) -> (b: bool)
    ensures
        b == (len <= MAX_GRAPH_FILE),
{
    len <= MAX_GRAPH_FILE
}

/// Once a version's update is delivered, polling the same version again
/// asks for nothing; a changed version is loaded.
pub proof fn lemma_delivered_once(state: WatchState, stamp: Stamp, other: Stamp)
    ensures
        ({
            let (s1, keep) = spec_after_send(state, WatchAction::Load(stamp), SendOutcome::Sent);
            &&& keep
            &&& spec_plan(s1, Some(stamp)) == WatchAction::Wait
            &&& other != stamp ==> spec_plan(s1, Some(other)) == WatchAction::Load(other)
        }),
{
}

/// A missing graph is reported once: after the report is delivered, later
/// polls of a missing file ask for nothing.
pub proof fn lemma_missing_reported_once(state: WatchState)
    ensures
        ({
            let (s1, _) = spec_after_send(state, WatchAction::ReportMissing, SendOutcome::Sent);
            spec_plan(s1, None) == WatchAction::Wait
        }),
{
}

/// An update that could not be delivered is offered again on the next poll.
pub proof fn lemma_full_retried(state: WatchState, file: Option<Stamp>)
    ensures
        ({
            let a = spec_plan(state, file);
            let (s1, keep) = spec_after_send(state, a, SendOutcome::Full);
            keep && spec_plan(s1, file) == a
        }),
{
}

/// Offering an update never changes whether the missing graph was reported,
/// and offering the not-published message never changes the version last
/// delivered; only a delivered update moves that version, and only a
/// delivered message marks the graph as reported.
pub proof fn lemma_send_changes_one_field(state: WatchState, action: WatchAction, outcome: SendOutcome)
    ensures
        action is Load ==> spec_after_send(state, action, outcome).0.missing_reported
            == state.missing_reported,
        action is ReportMissing ==> spec_after_send(state, action, outcome).0.previous
            == state.previous,
        spec_after_send(state, action, outcome).0.missing_reported != state.missing_reported
            ==> action is ReportMissing && outcome == SendOutcome::Sent,
        spec_after_send(state, action, outcome).0.previous != state.previous ==> action is Load
            && outcome == SendOutcome::Sent,
{
}

/// A graph that disappears after a version was delivered is reported as not
/// published: from a fresh watcher, delivering one version and then polling a
/// missing file asks for the report.
pub proof fn lemma_disappearing_graph_reported(stamp: Stamp)
    ensures
        spec_plan(
            spec_after_send(
                WatchState { previous: None, missing_reported: false },
                WatchAction::Load(stamp),
                SendOutcome::Sent,
            ).0,
            None,
        ) == WatchAction::ReportMissing,
{
}

/// A poll of an existing file loads it exactly when that version was not
/// delivered yet and never reports it missing; a poll of a missing file
/// never loads and reports it exactly when that was not delivered yet.
pub proof fn lemma_plan_by_file(state: WatchState, file: Option<Stamp>)
    ensures
        file matches Some(x) ==> (spec_plan(state, file) is Load <==> state.previous != Some(x)),
        file matches Some(x) ==> spec_plan(state, file) !is ReportMissing,
        file matches Some(x) ==> (spec_plan(state, file) is Load ==> spec_plan(state, file)->0 == x),
        file is None ==> spec_plan(state, file) !is Load,
        file is None ==> (spec_plan(state, file) is ReportMissing <==> !state.missing_reported),
{
}

/// The worker stops only when a loaded update finds the receiver gone.
pub proof fn lemma_worker_stops_only_when_closed(
    state: WatchState,
    action: WatchAction,
    outcome: SendOutcome,
)
    ensures
        !spec_after_send(state, action, outcome).1 <==> (action is Load && outcome
            == SendOutcome::Closed),
        outcome != SendOutcome::Sent ==> spec_after_send(state, action, outcome).0 == state,
{
}

} // verus!
