//! Which phase of a workflow runs next.
//!
//! Phases run in order. Once a phase has failed, only `finally` action phases
//! still run; flow-control and subflow phases are skipped. A flow-control
//! phase whose condition holds jumps to the first phase with the target name
//! (backwards jumps make loops).
use vstd::prelude::*;

use crate::text::{append, chars_of, first_idx, lemma_first_idx, lemma_first_idx_props, string_of};

verus! {

/// The kind of a phase, as far as scheduling goes.
#[derive(Debug, Clone)]
pub enum PhaseKind {
    /// A decision node: when its condition holds, go to the phase `go_to`.
    FlowControl { go_to: String },
    /// Runs a child workflow.
    Subflow,
    /// Runs steps; a `finally` phase runs even after a failure.
    Action { finally: bool },
}

/// A phase's name and kind.
#[derive(Debug, Clone)]
pub struct PhaseShape {
    pub name: String,
    pub kind: PhaseKind,
}

/// What the workflow runner does next.
#[derive(Debug, Clone, Copy, PartialEq, Eq, Structural)]
pub enum PhaseCommand {
    /// Evaluate the condition of the flow-control phase at this index.
    FlowControl(usize),
    /// Run the subflow phase at this index.
    Subflow(usize),
    /// Run the action phase at this index.
    Action(usize),
    /// No phase is left.
    Finish,
}

/// Whether a phase of this kind runs, given whether a phase has failed.
pub open spec fn runs(kind: PhaseKind, failed: bool) -> bool {
    match kind {
        PhaseKind::Action { finally } => !failed || finally,
        _ => !failed,
    }
}

pub open spec fn runnable_at(phases: Seq<PhaseShape>, failed: bool) -> spec_fn(int) -> bool {
    |i: int| runs(phases[i].kind, failed)
}

/// The first phase at or after `from` that runs, or `phases.len()`.
pub open spec fn next_runnable(phases: Seq<PhaseShape>, from: int, failed: bool) -> int {
    first_idx(from, phases.len() as int, runnable_at(phases, failed))
}

pub open spec fn named_at(phases: Seq<PhaseShape>, name: Seq<char>) -> spec_fn(int) -> bool {
    |i: int| phases[i].name@ == name
}

/// Index of the first phase called `name`, or `phases.len()`.
pub open spec fn phase_index(phases: Seq<PhaseShape>, name: Seq<char>) -> int {
    first_idx(0, phases.len() as int, named_at(phases, name))
}

pub open spec fn command_for(kind: PhaseKind, i: usize) -> PhaseCommand {
    match kind {
        PhaseKind::FlowControl { .. } => PhaseCommand::FlowControl(i),
        PhaseKind::Subflow => PhaseCommand::Subflow(i),
        PhaseKind::Action { .. } => PhaseCommand::Action(i),
    }
}

pub open spec fn missing_target_message(name: Seq<char>, target: Seq<char>) -> Seq<char> {
    "phase '"@ + name + "': go_to target '"@ + target + "' not found"@
}

/// Where a workflow's run stands.
#[derive(Debug, Clone, Copy)]
pub struct PhaseCursor {
    /// Index of the next phase to consider.
    pub next: usize,
    /// Whether a phase has failed.
    pub failed: bool,
}

impl PhaseCursor {
    pub fn new() -> (r: PhaseCursor)
        ensures
            r.next == 0,
            !r.failed,
    {
        PhaseCursor { next: 0, failed: false }
    }

    /// The next phase to run, skipping those that do not run after a failure.
    pub fn next_phase(&mut self, phases: &Vec<PhaseShape>) -> (c: PhaseCommand)
        ensures
            final(self).failed == old(self).failed,
            ({
                let i = next_runnable(phases@, old(self).next as int, old(self).failed);
                if old(self).next < phases@.len() && i < phases@.len() {
                    c == command_for(phases@[i].kind, i as usize) && final(self).next == i + 1
                } else {
                    c == PhaseCommand::Finish && final(self).next == old(self).next
                }
            }),
    {
        if self.next >= phases.len() {
            return PhaseCommand::Finish;
        }
        let start = self.next;
        let mut i = self.next;
        while i < phases.len()
            invariant
                start <= i <= phases@.len(),
                start < phases@.len(),
                start == old(self).next,
                self.next == old(self).next,
                self.failed == old(self).failed,
                forall|j: int| start <= j < i ==> !#[trigger] runnable_at(phases@, self.failed)(j),
            decreases phases@.len() - i,
        {
            let runs_now = match &phases[i].kind {
                PhaseKind::Action { finally } => !self.failed || *finally,
                _ => !self.failed,
            };
            if runs_now {
                proof {
                    lemma_first_idx(start as int, phases@.len() as int, runnable_at(phases@, self.failed), i as int);
                }
                self.next = i + 1;
                return match &phases[i].kind {
                    PhaseKind::FlowControl { .. } => PhaseCommand::FlowControl(i),
                    PhaseKind::Subflow => PhaseCommand::Subflow(i),
                    PhaseKind::Action { .. } => PhaseCommand::Action(i),
                };
            }
            i = i + 1;
        }
        proof {
            lemma_first_idx(start as int, phases@.len() as int, runnable_at(phases@, self.failed), i as int);
        }
        PhaseCommand::Finish
    }

    /// The condition of the flow-control phase at `at` held: continue at the
    /// first phase named by its `go_to`, or fail when there is none.
    pub fn jump(&mut self, phases: &Vec<PhaseShape>, at: usize) -> (r: Result<(), String>)
        requires
            at < phases@.len(),
            phases@[at as int].kind is FlowControl,
        ensures
            final(self).failed == old(self).failed,
            ({
                let target = phases@[at as int].kind->go_to@;
                let k = phase_index(phases@, target);
                if k < phases@.len() {
                    r is Ok && final(self).next == k
                } else {
                    r matches Err(e) && e@ == missing_target_message(phases@[at as int].name@, target)
                        && final(self).next == old(self).next
                }
            }),
    {
        let target = match &phases[at].kind {
            PhaseKind::FlowControl { go_to } => go_to,
            _ => {
                return Ok(());
            },
        };
        let mut i: usize = 0;
        while i < phases.len()
            invariant
                i <= phases@.len(),
                at < phases@.len(),
                phases@[at as int].kind is FlowControl,
                *target == phases@[at as int].kind->go_to,
                self.next == old(self).next,
                self.failed == old(self).failed,
                forall|j: int| 0 <= j < i ==> !#[trigger] named_at(phases@, target@)(j),
            decreases phases@.len() - i,
        {
            if phases[i].name == *target {
                proof {
                    lemma_first_idx(0, phases@.len() as int, named_at(phases@, target@), i as int);
                }
                self.next = i;
                return Ok(());
            }
            i = i + 1;
        }
        proof {
            lemma_first_idx(0, phases@.len() as int, named_at(phases@, target@), i as int);
        }
        let mut v = chars_of("phase '");
        append(&mut v, &chars_of(phases[at].name.as_str()));
        append(&mut v, &chars_of("': go_to target '"));
        append(&mut v, &chars_of(target.as_str()));
        append(&mut v, &chars_of("' not found"));
        Err(string_of(&v))
    }

    /// A phase failed. A failing `finally` phase is only reported, so the
    /// caller records failures of other phases only.
    pub fn fail(&mut self)
        ensures
            final(self).failed,
            final(self).next == old(self).next,
    {
        self.failed = true;
    }
}

// ── Settling a phase ──────────────────────────────────────────────────────────

/// What running a phase came to.
#[derive(Debug, Clone, Copy, PartialEq, Eq, Structural)]
pub enum PhaseOutcome {
    /// Its precondition did not hold, so it did not run.
    PreconditionFalse,
    /// Its anchors could not be mounted.
    MountFailed,
    /// The run was cancelled before the phase started.
    Cancelled,
    /// It ran to the end.
    Completed,
    /// It failed (a step, or loading or running a subflow).
    Failed,
}

/// The event a phase reports when it is settled.
#[derive(Debug, Clone, Copy, PartialEq, Eq, Structural)]
pub enum PhaseReport {
    Skipped,
    Completed,
    Failed,
}

/// What the runner does about a settled phase: the event it reports, if
/// any, and whether the workflow fails here.
#[derive(Debug, Clone, Copy, PartialEq, Eq, Structural)]
pub struct PhaseSettlement {
    pub report: Option<PhaseReport>,
    pub fails_workflow: bool,
}

/// A skipped phase is reported and fails nothing; a phase that could not
/// mount or was cancelled reports nothing; a completed phase is reported;
/// a failed one is reported. Failing to mount, cancellation and failure
/// fail the workflow unless the phase is a `finally` phase.
pub open spec fn settlement(finally: bool, outcome: PhaseOutcome) -> PhaseSettlement {
    match outcome {
        PhaseOutcome::PreconditionFalse => PhaseSettlement { report: Some(PhaseReport::Skipped), fails_workflow: false },
        PhaseOutcome::MountFailed => PhaseSettlement { report: None, fails_workflow: !finally },
        PhaseOutcome::Cancelled => PhaseSettlement { report: None, fails_workflow: !finally },
        PhaseOutcome::Completed => PhaseSettlement { report: Some(PhaseReport::Completed), fails_workflow: false },
        PhaseOutcome::Failed => PhaseSettlement { report: Some(PhaseReport::Failed), fails_workflow: !finally },
    }
}

/// Settles a phase of the given kind (`finally` or not) that came to `outcome`.
pub fn settle_phase(finally: bool, outcome: PhaseOutcome) -> (r: PhaseSettlement)
    ensures
        r == settlement(finally, outcome),
{
    match outcome {
        PhaseOutcome::PreconditionFalse => PhaseSettlement { report: Some(PhaseReport::Skipped), fails_workflow: false },
        PhaseOutcome::MountFailed => PhaseSettlement { report: None, fails_workflow: !finally },
        PhaseOutcome::Cancelled => PhaseSettlement { report: None, fails_workflow: !finally },
        PhaseOutcome::Completed => PhaseSettlement { report: Some(PhaseReport::Completed), fails_workflow: false },
        PhaseOutcome::Failed => PhaseSettlement { report: Some(PhaseReport::Failed), fails_workflow: !finally },
    }
}

/// Whether a cancellation request stops a phase before it starts: only a
/// phase that is not a `finally` phase is stopped.
pub fn cancel_stops(finally: bool, requested: bool) -> (r: bool)
    ensures
        r == (requested && !finally),
{
    requested && !finally
}

// ── Laws ──────────────────────────────────────────────────────────────────────

/// After a failure only `finally` action phases run: every phase that
/// `next_phase` would hand out is one.
pub proof fn law_only_finally_after_failure(phases: Seq<PhaseShape>, from: int)
    requires
        0 <= from <= phases.len(),
    ensures
        ({
            let i = next_runnable(phases, from, true);
            i < phases.len() ==> (phases[i].kind matches PhaseKind::Action { finally } && finally)
        }),
{
    lemma_first_idx_props(from, phases.len() as int, runnable_at(phases, true));
}

/// A phase is never skipped before a failure: without one, the next phase
/// handed out is the very next in order.
pub proof fn law_no_skip_without_failure(phases: Seq<PhaseShape>, from: int)
    requires
        0 <= from < phases.len(),
    ensures
        next_runnable(phases, from, false) == from,
{
    lemma_first_idx(from, phases.len() as int, runnable_at(phases, false), from);
}

/// A `finally` phase never fails the workflow, whatever it came to.
pub proof fn law_finally_never_fails(outcome: PhaseOutcome)
    ensures
        !settlement(true, outcome).fails_workflow,
{
}

/// Any other phase fails the workflow exactly when it did not run to the
/// end and was not skipped by its precondition.
pub proof fn law_failure_fails_workflow(outcome: PhaseOutcome)
    ensures
        settlement(false, outcome).fails_workflow <==> !(outcome == PhaseOutcome::Completed || outcome
            == PhaseOutcome::PreconditionFalse),
{
}

} // verus!
