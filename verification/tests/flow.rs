use lucio_core::flow::{CloneFlow, FlowAction, FlowEvent, CONFIRM_ATTEMPTS, CONFIRM_INTERVAL_MS, POLL_INTERVAL_MS};

#[test]
fn dry_run_only_reports() {
    assert_eq!(CloneFlow::start(false), (CloneFlow::Finished, FlowAction::ReportDryRun));
}

#[test]
fn closed_vivaldi_commits_directly() {
    let (s, a) = CloneFlow::start(true);
    assert_eq!(a, FlowAction::CheckRunning);
    assert_eq!(s.step(FlowEvent::Running(false)), (CloneFlow::Finished, FlowAction::CommitAndReport));
}

#[test]
fn running_vivaldi_registers_live_and_confirms() {
    let (s, _) = CloneFlow::start(true);
    let (s, a) = s.step(FlowEvent::Running(true));
    assert_eq!(a, FlowAction::OpenLive);
    let (s, a) = s.step(FlowEvent::Launched(true));
    assert_eq!(a, FlowAction::PollListed);
    let (s, a) = s.step(FlowEvent::Listed(false));
    assert_eq!(a, FlowAction::Pause { millis: CONFIRM_INTERVAL_MS });
    let (s, a) = s.step(FlowEvent::Paused);
    assert_eq!(a, FlowAction::PollListed);
    assert_eq!(s.step(FlowEvent::Listed(true)), (CloneFlow::Finished, FlowAction::ReportLive { confirmed: true }));
}

#[test]
fn confirmation_gives_up_after_the_last_attempt() {
    let mut s = CloneFlow::Confirming { attempt: 0 };
    let mut polls = 0;
    loop {
        let (next, a) = s.step(FlowEvent::Listed(false));
        polls += 1;
        assert_eq!(a, FlowAction::Pause { millis: 500 });
        let (next, a) = next.step(FlowEvent::Paused);
        s = next;
        if a != FlowAction::PollListed {
            assert_eq!(a, FlowAction::ReportLive { confirmed: false });
            assert_eq!(s, CloneFlow::Finished);
            break;
        }
    }
    assert_eq!(polls, CONFIRM_ATTEMPTS);
}

#[test]
fn failed_launch_waits_for_quit_then_commits() {
    let (s, a) = CloneFlow::Launching.step(FlowEvent::Launched(false));
    assert_eq!(a, FlowAction::AnnounceWait);
    let (s, a) = s.step(FlowEvent::Running(true));
    assert_eq!(a, FlowAction::Pause { millis: POLL_INTERVAL_MS });
    let (s, a) = s.step(FlowEvent::Paused);
    assert_eq!(a, FlowAction::CheckRunning);
    assert_eq!(s.step(FlowEvent::Running(false)), (CloneFlow::Finished, FlowAction::CommitAndReport));
}

#[test]
fn out_of_order_events_end_the_run() {
    assert_eq!(CloneFlow::CheckingRunning.step(FlowEvent::Paused), (CloneFlow::Finished, FlowAction::Unexpected));
    assert_eq!(CloneFlow::Finished.step(FlowEvent::Running(false)), (CloneFlow::Finished, FlowAction::Unexpected));
}
