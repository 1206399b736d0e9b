//! The decisions of a clone run after its files are staged, as a state
//! machine. The front end performs each [`FlowAction`] (printing, checking
//! whether Vivaldi runs, launching it, listing profiles, pausing, writing
//! `Local State`) and hands the result back as a [`FlowEvent`].
//!
//! A running Vivaldi keeps `Local State` in memory and rewrites it on exit,
//! so `Local State` is only written once Vivaldi was seen closed. While it
//! runs, the new profile is opened in it so that it registers the profile
//! itself; if that launch fails, the run waits for Vivaldi to quit.
use vstd::prelude::*;

verus! {

/// How many times a live registration is looked for before giving up.
pub const CONFIRM_ATTEMPTS: usize = 24;

/// Pause between two looks for a live registration, in milliseconds.
pub const CONFIRM_INTERVAL_MS: u64 = 500;

/// Pause between two checks whether Vivaldi has quit, in milliseconds.
pub const POLL_INTERVAL_MS: u64 = 750;

/// Where a clone run stands.
#[derive(Clone, Copy, Debug, PartialEq, Eq, Structural)]
pub enum CloneFlow {
    /// Finding out whether Vivaldi runs.
    CheckingRunning,
    /// Opening the new profile in the running Vivaldi.
    Launching,
    /// About to look for the live registration, `attempt` looks done so far.
    Confirming { attempt: usize },
    /// Pausing after `attempt` unsuccessful looks.
    ConfirmPause { attempt: usize },
    /// Waiting for Vivaldi to quit: about to check again.
    Waiting,
    /// Waiting for Vivaldi to quit: pausing between checks.
    WaitPause,
    /// Nothing left to do.
    Finished,
}

/// What the front end observed while performing the last action.
#[derive(Clone, Copy, Debug, PartialEq, Eq, Structural)]
pub enum FlowEvent {
    /// Whether Vivaldi runs.
    Running(bool),
    /// Whether the launch of Vivaldi succeeded.
    Launched(bool),
    /// Whether the new profile is listed in `Local State`.
    Listed(bool),
    /// The requested pause is over.
    Paused,
}

/// What the front end is to do next.
#[derive(Clone, Copy, Debug, PartialEq, Eq, Structural)]
pub enum FlowAction {
    /// Report what a dry run would do; the run is over.
    ReportDryRun,
    /// Check whether Vivaldi runs, then send `Running`.
    CheckRunning,
    /// Register the clone in `Local State` and report it; the run is over.
    CommitAndReport,
    /// Open the new profile in the running Vivaldi, then send `Launched`.
    OpenLive,
    /// Look for the new profile in `Local State`, then send `Listed`.
    PollListed,
    /// Pause for `millis` milliseconds, then send `Paused`.
    Pause { millis: u64 },
    /// Report the live registration (seen in `Local State` or not); the run
    /// is over.
    ReportLive { confirmed: bool },
    /// Say that the launch failed and that the run waits for Vivaldi to
    /// quit, then check whether Vivaldi runs and send `Running`.
    AnnounceWait,
    /// The event does not belong to this state; the run is over.
    Unexpected,
}

/// The first state and action of a run whose clone is staged: a dry run
/// only reports; otherwise the run finds out whether Vivaldi runs.
pub open spec fn flow_start(execute: bool) -> (CloneFlow, FlowAction) {
    if execute {
        (CloneFlow::CheckingRunning, FlowAction::CheckRunning)
    } else {
        (CloneFlow::Finished, FlowAction::ReportDryRun)
    }
}

/// The next state and action after `event` in state `s`.
pub open spec fn flow_step(s: CloneFlow, event: FlowEvent) -> (CloneFlow, FlowAction) {
    match (s, event) {
        (CloneFlow::CheckingRunning, FlowEvent::Running(false)) => (
            CloneFlow::Finished,
            FlowAction::CommitAndReport,
        ),
        (CloneFlow::CheckingRunning, FlowEvent::Running(true)) => (
            CloneFlow::Launching,
            FlowAction::OpenLive,
        ),
        (CloneFlow::Launching, FlowEvent::Launched(true)) => (
            CloneFlow::Confirming { attempt: 0 },
            FlowAction::PollListed,
        ),
        (CloneFlow::Launching, FlowEvent::Launched(false)) => (
            CloneFlow::Waiting,
            FlowAction::AnnounceWait,
        ),
        (CloneFlow::Confirming { attempt }, FlowEvent::Listed(true)) => (
            CloneFlow::Finished,
            FlowAction::ReportLive { confirmed: true },
        ),
        (CloneFlow::Confirming { attempt }, FlowEvent::Listed(false)) => (
            CloneFlow::ConfirmPause { attempt: (attempt + 1) as usize },
            FlowAction::Pause { millis: CONFIRM_INTERVAL_MS },
        ),
        (CloneFlow::ConfirmPause { attempt }, FlowEvent::Paused) => if attempt < CONFIRM_ATTEMPTS {
            (CloneFlow::Confirming { attempt }, FlowAction::PollListed)
        } else {
            (CloneFlow::Finished, FlowAction::ReportLive { confirmed: false })
        },
        (CloneFlow::Waiting, FlowEvent::Running(true)) => (
            CloneFlow::WaitPause,
            FlowAction::Pause { millis: POLL_INTERVAL_MS },
        ),
        (CloneFlow::Waiting, FlowEvent::Running(false)) => (
            CloneFlow::Finished,
            FlowAction::CommitAndReport,
        ),
        (CloneFlow::WaitPause, FlowEvent::Paused) => (CloneFlow::Waiting, FlowAction::CheckRunning),
        _ => (CloneFlow::Finished, FlowAction::Unexpected),
    }
}

/// The states a run can be in: a look for the live registration is only
/// pending while fewer than [`CONFIRM_ATTEMPTS`] looks were made.
pub open spec fn flow_ok(s: CloneFlow) -> bool {
    match s {
        CloneFlow::Confirming { attempt } => attempt < CONFIRM_ATTEMPTS,
        CloneFlow::ConfirmPause { attempt } => 1 <= attempt <= CONFIRM_ATTEMPTS,
        _ => true,
    }
}

impl CloneFlow {
    /// Begin the run of a staged clone; `execute` is false for a dry run.
    pub fn start(execute: bool) -> (r: (CloneFlow, FlowAction))
        ensures
            r == flow_start(execute),
    {
        if execute {
            (CloneFlow::CheckingRunning, FlowAction::CheckRunning)
        } else {
            (CloneFlow::Finished, FlowAction::ReportDryRun)
        }
    }

    /// Take `event` into account: the next state, and what to do next.
    pub fn step(self, event: FlowEvent) -> (r: (CloneFlow, FlowAction))
        requires
            flow_ok(self),
        ensures
            r == flow_step(self, event),
            flow_ok(r.0),
    {
        match (self, event) {
            (CloneFlow::CheckingRunning, FlowEvent::Running(running)) => if running {
                (CloneFlow::Launching, FlowAction::OpenLive)
            } else {
                (CloneFlow::Finished, FlowAction::CommitAndReport)
            },
            (CloneFlow::Launching, FlowEvent::Launched(ok)) => if ok {
                (CloneFlow::Confirming { attempt: 0 }, FlowAction::PollListed)
            } else {
                (CloneFlow::Waiting, FlowAction::AnnounceWait)
            },
            (CloneFlow::Confirming { attempt }, FlowEvent::Listed(listed)) => if listed {
                (CloneFlow::Finished, FlowAction::ReportLive { confirmed: true })
            } else {
                (
                    CloneFlow::ConfirmPause { attempt: attempt + 1 },
                    FlowAction::Pause { millis: CONFIRM_INTERVAL_MS },
                )
            },
            (CloneFlow::ConfirmPause { attempt }, FlowEvent::Paused) => if attempt < CONFIRM_ATTEMPTS {
                (CloneFlow::Confirming { attempt }, FlowAction::PollListed)
            } else {
                (CloneFlow::Finished, FlowAction::ReportLive { confirmed: false })
            },
            (CloneFlow::Waiting, FlowEvent::Running(running)) => if running {
                (CloneFlow::WaitPause, FlowAction::Pause { millis: POLL_INTERVAL_MS })
            } else {
                (CloneFlow::Finished, FlowAction::CommitAndReport)
            },
            (CloneFlow::WaitPause, FlowEvent::Paused) => (CloneFlow::Waiting, FlowAction::CheckRunning),
            _ => (CloneFlow::Finished, FlowAction::Unexpected),
        }
    }
}

/// A run writes `Local State` only right after it saw Vivaldi closed, and a
/// dry run never writes it.
pub proof fn lemma_commit_only_when_closed(s: CloneFlow, event: FlowEvent, execute: bool)
    ensures
        flow_step(s, event).1 == FlowAction::CommitAndReport ==> event == FlowEvent::Running(false),
        flow_start(execute).1 == FlowAction::CommitAndReport ==> false,
        !execute ==> flow_start(execute) == (CloneFlow::Finished, FlowAction::ReportDryRun),
{
}

/// How many more steps the confirmation of a live registration can take.
pub open spec fn confirm_budget(s: CloneFlow) -> int {
    match s {
        CloneFlow::Confirming { attempt } => 2 * (CONFIRM_ATTEMPTS - attempt),
        CloneFlow::ConfirmPause { attempt } => 2 * (CONFIRM_ATTEMPTS - attempt) + 1,
        _ => 0,
    }
}

/// Every step of the confirmation uses up budget, and the budget is
/// bounded, so at most [`CONFIRM_ATTEMPTS`] looks are made before the run
/// reports the launch.
pub proof fn lemma_confirmation_is_bounded(s: CloneFlow, event: FlowEvent)
    requires
        flow_ok(s),
        s is Confirming || s is ConfirmPause,
    ensures
        0 < confirm_budget(s) <= 2 * CONFIRM_ATTEMPTS,
        flow_step(s, event).0 is Confirming || flow_step(s, event).0 is ConfirmPause
            ==> 0 <= confirm_budget(flow_step(s, event).0) < confirm_budget(s),
{
}

/// The state and action after `k` rounds of an unsuccessful look for the
/// live registration followed by the pause it asks for, starting from the
/// first look.
pub open spec fn after_failed_looks(k: nat) -> (CloneFlow, FlowAction)
    decreases k,
{
    if k == 0 {
        flow_step(CloneFlow::Launching, FlowEvent::Launched(true))
    } else {
        let (s, _) = after_failed_looks((k - 1) as nat);
        let (s2, _) = flow_step(s, FlowEvent::Listed(false));
        flow_step(s2, FlowEvent::Paused)
    }
}

/// After a successful launch the run looks for the registration; every
/// unsuccessful look is followed by a pause of [`CONFIRM_INTERVAL_MS`] and
/// another look, until [`CONFIRM_ATTEMPTS`] looks have failed, when the run
/// reports the launch as unconfirmed. A successful look at any point
/// reports it confirmed.
pub proof fn lemma_live_confirmation(k: nat)
    ensures
        k < CONFIRM_ATTEMPTS ==> after_failed_looks(k) == (
            (CloneFlow::Confirming { attempt: k as usize }),
            FlowAction::PollListed,
        ),
        k < CONFIRM_ATTEMPTS ==> flow_step(after_failed_looks(k).0, FlowEvent::Listed(false)).1
            == (FlowAction::Pause { millis: CONFIRM_INTERVAL_MS }),
        k < CONFIRM_ATTEMPTS ==> flow_step(after_failed_looks(k).0, FlowEvent::Listed(true)) == (
            CloneFlow::Finished,
            (FlowAction::ReportLive { confirmed: true }),
        ),
        k == CONFIRM_ATTEMPTS ==> after_failed_looks(k) == (
            CloneFlow::Finished,
            (FlowAction::ReportLive { confirmed: false }),
        ),
    decreases k,
{
    if k > 0 {
        lemma_live_confirmation((k - 1) as nat);
    }
}

} // verus!
