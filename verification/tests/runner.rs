use ui_automata::runner::{
    cancel_stops, settle_phase, PhaseCommand, PhaseCursor, PhaseKind, PhaseOutcome, PhaseReport, PhaseSettlement, PhaseShape,
};

fn action(name: &str, finally: bool) -> PhaseShape {
    PhaseShape { name: name.into(), kind: PhaseKind::Action { finally } }
}

fn flow(name: &str, go_to: &str) -> PhaseShape {
    PhaseShape { name: name.into(), kind: PhaseKind::FlowControl { go_to: go_to.into() } }
}

fn subflow(name: &str) -> PhaseShape {
    PhaseShape { name: name.into(), kind: PhaseKind::Subflow }
}

#[test]
fn phases_run_in_order_without_failure() {
    let phases = vec![action("a", false), subflow("b"), flow("c", "a"), action("d", true)];
    let mut cur = PhaseCursor::new();
    assert_eq!(cur.next_phase(&phases), PhaseCommand::Action(0));
    assert_eq!(cur.next_phase(&phases), PhaseCommand::Subflow(1));
    assert_eq!(cur.next_phase(&phases), PhaseCommand::FlowControl(2));
    assert_eq!(cur.next_phase(&phases), PhaseCommand::Action(3));
    assert_eq!(cur.next_phase(&phases), PhaseCommand::Finish);
    assert_eq!(cur.next_phase(&phases), PhaseCommand::Finish);
}

#[test]
fn after_failure_only_finally_phases_run() {
    let phases = vec![
        action("a", false),
        action("b", false),
        subflow("s"),
        flow("f", "a"),
        action("cleanup1", true),
        action("c", false),
        action("cleanup2", true),
    ];
    let mut cur = PhaseCursor::new();
    assert_eq!(cur.next_phase(&phases), PhaseCommand::Action(0));
    cur.fail();
    assert!(cur.failed);
    assert_eq!(cur.next_phase(&phases), PhaseCommand::Action(4));
    assert_eq!(cur.next_phase(&phases), PhaseCommand::Action(6));
    assert_eq!(cur.next_phase(&phases), PhaseCommand::Finish);
}

#[test]
fn flow_control_jump_makes_a_loop() {
    let phases = vec![action("body", false), flow("again", "body"), action("end", false)];
    let mut cur = PhaseCursor::new();
    assert_eq!(cur.next_phase(&phases), PhaseCommand::Action(0));
    assert_eq!(cur.next_phase(&phases), PhaseCommand::FlowControl(1));
    assert_eq!(cur.jump(&phases, 1), Ok(()));
    assert_eq!(cur.next, 0);
    assert_eq!(cur.next_phase(&phases), PhaseCommand::Action(0));
    assert_eq!(cur.next_phase(&phases), PhaseCommand::FlowControl(1));
    assert_eq!(cur.next_phase(&phases), PhaseCommand::Action(2));
}

#[test]
fn flow_control_jump_to_first_of_duplicate_names() {
    let phases = vec![action("x", false), action("x", false), flow("go", "x")];
    let mut cur = PhaseCursor::new();
    cur.next = 3;
    assert_eq!(cur.jump(&phases, 2), Ok(()));
    assert_eq!(cur.next, 0);
}

#[test]
fn flow_control_missing_target_is_error() {
    let phases = vec![flow("check", "nowhere"), action("a", false)];
    let mut cur = PhaseCursor::new();
    assert_eq!(cur.next_phase(&phases), PhaseCommand::FlowControl(0));
    assert_eq!(
        cur.jump(&phases, 0),
        Err("phase 'check': go_to target 'nowhere' not found".to_string())
    );
    assert_eq!(cur.next, 1);
}

#[test]
fn empty_workflow_finishes_at_once() {
    let mut cur = PhaseCursor::new();
    assert_eq!(cur.next_phase(&vec![]), PhaseCommand::Finish);
}

#[test]
fn settled_phases_report_and_fail_as_decided() {
    let s = |report, fails_workflow| PhaseSettlement { report, fails_workflow };
    assert_eq!(settle_phase(false, PhaseOutcome::PreconditionFalse), s(Some(PhaseReport::Skipped), false));
    assert_eq!(settle_phase(false, PhaseOutcome::MountFailed), s(None, true));
    assert_eq!(settle_phase(true, PhaseOutcome::MountFailed), s(None, false));
    assert_eq!(settle_phase(false, PhaseOutcome::Cancelled), s(None, true));
    assert_eq!(settle_phase(false, PhaseOutcome::Completed), s(Some(PhaseReport::Completed), false));
    assert_eq!(settle_phase(false, PhaseOutcome::Failed), s(Some(PhaseReport::Failed), true));
    assert_eq!(settle_phase(true, PhaseOutcome::Failed), s(Some(PhaseReport::Failed), false));
}

#[test]
fn cancellation_spares_finally_phases() {
    assert!(cancel_stops(false, true));
    assert!(!cancel_stops(true, true));
    assert!(!cancel_stops(false, false));
}
