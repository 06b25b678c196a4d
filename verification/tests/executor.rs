use std::time::Duration;

use ui_automata::error::AutomataError;
use ui_automata::executor::{
    step_label, StepCommand, StepOutcome, StepRun, StepStage, Vars, WorkflowState,
};
use ui_automata::recovery::ResumeStrategy;
use ui_automata::step::{OnFailure, OnSuccess, RetryPolicy};

fn run(
    retry: RetryPolicy,
    on_failure: OnFailure,
    on_success: OnSuccess,
    has_fallback: bool,
    max_recoveries: u32,
) -> StepRun {
    StepRun::start(
        step_label(1, 2, "do it"),
        "Always".to_string(),
        retry,
        RetryPolicy::NoRetry,
        on_failure,
        on_success,
        has_fallback,
        max_recoveries,
        0,
    )
}

fn done_err(c: StepCommand) -> String {
    match c {
        StepCommand::Done(Err(AutomataError::Internal(m))) => m,
        other => panic!("expected an internal error, got {other:?}"),
    }
}

#[test]
fn vars_insert_get_replace() {
    let mut v = Vars::new();
    assert_eq!(v.insert("a".into(), "1".into()), None);
    assert_eq!(v.insert("b".into(), "2".into()), None);
    assert_eq!(v.insert("a".into(), "3".into()), Some("1".to_string()));
    assert_eq!(v.get("a").map(|s| s.as_str()), Some("3"));
    assert_eq!(v.get("c"), None);
    assert_eq!(v.len(), 2);
    let c = v.clone();
    assert_eq!(c.entries(), v.entries());
}

#[test]
fn workflow_state_starts_empty() {
    let s = WorkflowState::new(true);
    assert!(s.action_snapshot);
    assert_eq!(s.params.len(), 0);
    assert_eq!(s.locals.len(), 0);
    assert!(s.output.is_empty());
}

#[test]
fn step_label_text() {
    assert_eq!(step_label(3, 10, "click OK"), "step 3/10 'click OK'");
}

#[test]
fn step_succeeds_first_poll() {
    let mut r = run(RetryPolicy::NoRetry, OnFailure::Abort, OnSuccess::Continue, false, 10);
    assert!(matches!(r.stage, StepStage::Polling));
    let c = r.polled(None, true);
    assert!(matches!(c, StepCommand::Done(Ok(StepOutcome::Continue))));
}

#[test]
fn step_success_with_return_phase() {
    let mut r = run(RetryPolicy::NoRetry, OnFailure::Abort, OnSuccess::ReturnPhase, false, 10);
    assert!(matches!(r.polled(None, true), StepCommand::Done(Ok(StepOutcome::ReturnPhase))));
}

#[test]
fn step_action_error_with_abort_is_not_success() {
    let mut r = run(RetryPolicy::NoRetry, OnFailure::Abort, OnSuccess::Continue, false, 10);
    assert!(matches!(r.polled(Some("click failed".into()), true), StepCommand::CheckRecovery));
    let m = done_err(r.recovery_checked(None));
    assert_eq!(
        m,
        "step 1/2 'do it': timed out after 1 attempt(s)\n  action error: click failed\n  expect: Always"
    );
}

#[test]
fn step_action_error_with_continue_counts_as_success() {
    let mut r = run(RetryPolicy::NoRetry, OnFailure::Continue, OnSuccess::Continue, false, 10);
    assert!(matches!(
        r.polled(Some("boom".into()), true),
        StepCommand::Done(Ok(StepOutcome::Continue))
    ));
}

#[test]
fn step_retries_then_times_out_with_attempt_count() {
    let retry = RetryPolicy::Fixed { count: 2, delay: Duration::from_millis(5) };
    let mut r = run(retry, OnFailure::Abort, OnSuccess::Continue, false, 10);
    for _ in 0..2 {
        assert!(matches!(r.polled(None, false), StepCommand::CheckRecovery));
        match r.recovery_checked(None) {
            StepCommand::Wait { delay } => assert_eq!(delay, Duration::from_millis(5)),
            other => panic!("expected a wait, got {other:?}"),
        }
        assert!(matches!(r.waited(), StepCommand::RunAction));
    }
    assert_eq!(r.attempts, 2);
    assert!(matches!(r.polled(None, false), StepCommand::CheckRecovery));
    let m = done_err(r.recovery_checked(None));
    assert_eq!(m, "step 1/2 'do it': timed out after 3 attempt(s)\n  expect: Always");
}

#[test]
fn step_timeout_with_on_failure_continue() {
    let mut r = run(RetryPolicy::NoRetry, OnFailure::Continue, OnSuccess::Continue, false, 10);
    r.polled(None, false);
    assert!(matches!(r.recovery_checked(None), StepCommand::Done(Ok(StepOutcome::Continue))));
}

#[test]
fn step_step_retry_overrides_default() {
    let r = StepRun::start(
        "l".into(),
        "e".into(),
        RetryPolicy::WithRecovery,
        RetryPolicy::Fixed { count: 4, delay: Duration::from_secs(1) },
        OnFailure::Abort,
        OnSuccess::Continue,
        false,
        1,
        0,
    );
    assert!(matches!(r.retry, RetryPolicy::WithRecovery));
    let d = StepRun::start(
        "l".into(),
        "e".into(),
        RetryPolicy::NoRetry,
        RetryPolicy::Fixed { count: 4, delay: Duration::from_secs(1) },
        OnFailure::Abort,
        OnSuccess::Continue,
        false,
        1,
        0,
    );
    assert!(matches!(d.retry, RetryPolicy::Fixed { count: 4, .. }));
}

#[test]
fn recovery_retry_step_reruns_action() {
    let mut r = run(RetryPolicy::NoRetry, OnFailure::Abort, OnSuccess::Continue, false, 3);
    r.polled(None, false);
    match r.recovery_checked(Some((1, "dismiss".into(), ResumeStrategy::RetryStep))) {
        StepCommand::RunRecovery { index } => assert_eq!(index, 1),
        other => panic!("unexpected {other:?}"),
    }
    assert_eq!(r.recovery_count, 1);
    assert!(matches!(r.recovery_ran(), StepCommand::RunAction));
    assert_eq!(r.attempts, 1);
    assert!(matches!(r.polled(None, true), StepCommand::Done(Ok(StepOutcome::Continue))));
}

#[test]
fn recovery_skip_step_continues() {
    let mut r = run(RetryPolicy::NoRetry, OnFailure::Abort, OnSuccess::Continue, false, 3);
    r.polled(None, false);
    r.recovery_checked(Some((0, "h".into(), ResumeStrategy::SkipStep)));
    assert!(matches!(r.recovery_ran(), StepCommand::Done(Ok(StepOutcome::Continue))));
}

#[test]
fn recovery_fail_aborts_with_message() {
    let mut r = run(RetryPolicy::NoRetry, OnFailure::Continue, OnSuccess::Continue, false, 3);
    r.polled(None, false);
    r.recovery_checked(Some((0, "crash".into(), ResumeStrategy::Fail)));
    assert_eq!(
        done_err(r.recovery_ran()),
        "step 1/2 'do it': recovery handler 'crash' instructed Fail"
    );
}

#[test]
fn recovery_retry_phase_restarts_phase() {
    let mut r = run(RetryPolicy::NoRetry, OnFailure::Abort, OnSuccess::Continue, false, 3);
    r.polled(None, false);
    r.recovery_checked(Some((0, "h".into(), ResumeStrategy::RetryPhase)));
    assert!(matches!(r.recovery_ran(), StepCommand::Done(Ok(StepOutcome::RetryPhase))));
}

#[test]
fn recovery_limit_reached_fails_step() {
    let mut r = StepRun::start(
        "step 1/1 'x'".into(),
        "Always".into(),
        RetryPolicy::NoRetry,
        RetryPolicy::NoRetry,
        OnFailure::Abort,
        OnSuccess::Continue,
        false,
        2,
        2,
    );
    r.polled(None, false);
    assert_eq!(
        done_err(r.recovery_checked(Some((0, "popup".into(), ResumeStrategy::RetryStep)))),
        "step 1/1 'x': recovery handler 'popup' would fire but max_recoveries (2) reached"
    );
    assert_eq!(r.recovery_count, 2);
}

#[test]
fn fallback_runs_on_timeout() {
    let mut r = run(RetryPolicy::NoRetry, OnFailure::Abort, OnSuccess::ReturnPhase, true, 3);
    r.polled(None, false);
    assert!(matches!(r.recovery_checked(None), StepCommand::RunFallback));
    assert!(matches!(
        r.fallback_polled(true),
        StepCommand::Done(Ok(StepOutcome::ReturnPhase))
    ));
}

#[test]
fn fallback_unsatisfied_reports_original_failure() {
    let mut r = run(RetryPolicy::NoRetry, OnFailure::Abort, OnSuccess::Continue, true, 3);
    r.polled(None, false);
    r.recovery_checked(None);
    assert_eq!(
        done_err(r.fallback_polled(false)),
        "step 1/2 'do it': timed out after 1 attempt(s)\n  expect: Always"
    );
}
