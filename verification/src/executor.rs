//! Workflow-level state carried through a run: resolved params, workflow
//! locals, the output buffer and per-run flags.
//!
//! Params and locals are string-keyed variable tables. A key maps to one
//! value; writing a key again replaces its value.
use vstd::prelude::*;

use std::time::Duration;

use crate::error::AutomataError;
use crate::output::Output;
use crate::recovery::ResumeStrategy;
use crate::selector::is_internal;
use crate::step::{OnFailure, OnSuccess, RetryPolicy};
use crate::text::{
    append, chars_of, decimal, decimal_string, first_idx, lemma_first_idx, lemma_first_idx_props,
    string_of,
};

verus! {

/// A variable table: keys with their values, in the order keys were first set.
pub type VarsView = Seq<(Seq<char>, Seq<char>)>;

pub open spec fn vars_view(v: Seq<(String, String)>) -> VarsView {
    v.map_values(|p: (String, String)| (p.0@, p.1@))
}

pub open spec fn var_key_at(e: VarsView, k: Seq<char>) -> spec_fn(int) -> bool {
    |i: int| e[i].0 == k
}

/// Index of the entry for `k`, or `e.len()` when there is none.
pub open spec fn var_index(e: VarsView, k: Seq<char>) -> int {
    first_idx(0, e.len() as int, var_key_at(e, k))
}

/// The value stored under `k`, if any.
pub open spec fn var_lookup(e: VarsView, k: Seq<char>) -> Option<Seq<char>> {
    let i = var_index(e, k);
    if 0 <= i < e.len() {
        Some(e[i].1)
    } else {
        None
    }
}

/// `e` with `k` set to `v`: replaced in place when present, appended otherwise.
pub open spec fn var_set(e: VarsView, k: Seq<char>, v: Seq<char>) -> VarsView {
    let i = var_index(e, k);
    if 0 <= i < e.len() {
        e.update(i, (k, v))
    } else {
        e.push((k, v))
    }
}

pub open spec fn vars_distinct(e: VarsView) -> bool {
    forall|i: int, j: int| 0 <= i < j < e.len() ==> #[trigger] e[i].0 != #[trigger] e[j].0
}

pub proof fn lemma_var_index(e: VarsView, k: Seq<char>)
    ensures
        0 <= var_index(e, k) <= e.len(),
        var_index(e, k) < e.len() ==> e[var_index(e, k)].0 == k,
        var_index(e, k) == e.len() ==> forall|j: int| 0 <= j < e.len() ==> #[trigger] e[j].0 != k,
{
    lemma_first_idx_props(0, e.len() as int, var_key_at(e, k));
    if var_index(e, k) == e.len() {
        assert forall|j: int| 0 <= j < e.len() implies #[trigger] e[j].0 != k by {
            assert(!var_key_at(e, k)(j));
        }
    }
}

proof fn lemma_var_set_distinct(e: VarsView, k: Seq<char>, v: Seq<char>)
    requires
        vars_distinct(e),
    ensures
        vars_distinct(var_set(e, k, v)),
{
    lemma_var_index(e, k);
    let r = var_set(e, k, v);
    assert forall|i: int, j: int| 0 <= i < j < r.len() implies #[trigger] r[i].0 != #[trigger] r[j].0 by {
        if var_index(e, k) == e.len() {
            if j == e.len() {
                assert(e[i].0 != k);
            } else {
                assert(e[i].0 != e[j].0);
            }
        } else {
            assert(e[i].0 != e[j].0);
        }
    }
}

/// A string-keyed variable table.
#[derive(Debug)]
pub struct Vars {
    entries: Vec<(String, String)>,
}

impl View for Vars {
    type V = VarsView;

    closed spec fn view(&self) -> VarsView {
        vars_view(self.entries@)
    }
}

impl Vars {
    #[verifier::type_invariant]
    closed spec fn wf(self) -> bool {
        vars_distinct(vars_view(self.entries@))
    }

    fn find(&self, key: &String) -> (r: usize)
        ensures
            r as int == var_index(self@, key@),
    {
        let ghost ev = self@;
        let mut i: usize = 0;
        while i < self.entries.len()
            invariant
                i <= self.entries.len(),
                ev == vars_view(self.entries@),
                forall|j: int| 0 <= j < i ==> #[trigger] ev[j].0 != key@,
            decreases self.entries.len() - i,
        {
            assert(ev[i as int].0 == self.entries@[i as int].0@);
            if self.entries[i].0 == *key {
                proof {
                    lemma_first_idx(0, ev.len() as int, var_key_at(ev, key@), i as int);
                }
                return i;
            }
            i = i + 1;
        }
        proof {
            lemma_first_idx(0, ev.len() as int, var_key_at(ev, key@), i as int);
        }
        i
    }

    pub fn new() -> (r: Vars)
        ensures
            r@ == Seq::<(Seq<char>, Seq<char>)>::empty(),
    {
        let r = Vars { entries: Vec::new() };
        assert(r@ =~= Seq::<(Seq<char>, Seq<char>)>::empty());
        r
    }

    /// Sets `key` to `value`, returning the value it replaced.
    pub fn insert(&mut self, key: String, value: String) -> (r: Option<String>)
        ensures
            final(self)@ == var_set(old(self)@, key@, value@),
            match r {
                Some(prev) => var_lookup(old(self)@, key@) == Some(prev@),
                None => var_lookup(old(self)@, key@) is None,
            },
    {
        proof {
            use_type_invariant(&*self);
        }
        let ghost ev = self@;
        let i = self.find(&key);
        proof {
            lemma_var_index(ev, key@);
            lemma_var_set_distinct(ev, key@, value@);
        }
        let mut entries: Vec<(String, String)> = Vec::new();
        std::mem::swap(&mut entries, &mut self.entries);
        if i < entries.len() {
            let (k, prev) = entries.remove(i);
            entries.insert(i, (key, value));
            assert(vars_view(entries@) =~= var_set(ev, k@, value@));
            self.entries = entries;
            Some(prev)
        } else {
            entries.push((key, value));
            assert(vars_view(entries@) =~= var_set(ev, key@, value@));
            self.entries = entries;
            None
        }
    }

    /// The value stored under `key`, if any.
    pub fn get(&self, key: &str) -> (r: Option<&String>)
        ensures
            match r {
                Some(v) => var_lookup(self@, key@) == Some(v@),
                None => var_lookup(self@, key@) is None,
            },
    {
        let k = key.to_owned();
        let i = self.find(&k);
        proof {
            lemma_var_index(self@, key@);
        }
        if i < self.entries.len() {
            Some(&self.entries[i].1)
        } else {
            None
        }
    }

    /// The stored pairs, keys in the order they were first set.
    pub fn entries(&self) -> (r: &Vec<(String, String)>)
        ensures
            vars_view(r@) == self@,
    {
        &self.entries
    }

    pub fn len(&self) -> (r: usize)
        ensures
            r == self@.len(),
    {
        self.entries.len()
    }
}

impl Clone for Vars {
    fn clone(&self) -> (r: Self)
        ensures
            r@ == self@,
    {
        proof {
            use_type_invariant(self);
        }
        let mut entries: Vec<(String, String)> = Vec::new();
        let mut i: usize = 0;
        while i < self.entries.len()
            invariant
                i <= self.entries.len(),
                vars_view(entries@) == vars_view(self.entries@).take(i as int),
            decreases self.entries.len() - i,
        {
            let ghost before = entries@;
            let k = self.entries[i].0.clone();
            let v = self.entries[i].1.clone();
            entries.push((k, v));
            proof {
                assert(vars_view(entries@) =~= vars_view(before).push((k@, v@)));
                assert((k@, v@) == vars_view(self.entries@)[i as int]);
                assert(vars_view(entries@) =~= vars_view(self.entries@).take(i + 1));
            }
            i = i + 1;
        }
        assert(vars_view(self.entries@).take(i as int) =~= vars_view(self.entries@));
        Vars { entries }
    }
}

/// Workflow-level mutable state: params, locals, output and per-run flags.
/// Kept apart from the executor so it can be created, passed around and
/// returned on its own (across subflow invocations, for instance).
#[derive(Debug)]
pub struct WorkflowState {
    /// Resolved param values for this invocation; read-only while it runs.
    pub params: Vars,
    /// Workflow-local values (`Extract { local: true }`, `Eval`, exit codes).
    pub locals: Vars,
    /// Accumulated output from `Extract` actions.
    pub output: Output,
    /// When `false`, the post-action snapshot is skipped.
    pub action_snapshot: bool,
}

impl WorkflowState {
    pub fn new(action_snapshot: bool) -> (r: WorkflowState)
        ensures
            r.params@.len() == 0,
            r.locals@.len() == 0,
            r.output@.len() == 0,
            r.action_snapshot == action_snapshot,
    {
        WorkflowState {
            locals: Vars::new(),
            output: Output::new(),
            params: Vars::new(),
            action_snapshot,
        }
    }
}


// ── Running one step ──────────────────────────────────────────────────────────
//
// A step runs its action, polls its `expect` condition until it holds or the
// step's timeout passes, and on a timeout consults the recovery handlers, the
// retry policy, the fallback action and the `on_failure` policy, in that
// order. The waiting, polling and UI work are the caller's; `StepRun` takes
// every decision between them.

/// How a step ended when it did not fail.
#[derive(Debug, Clone, Copy, PartialEq, Eq, Structural)]
pub enum StepOutcome {
    /// Go on with the next step.
    Continue,
    /// Stop the current phase (not an error).
    ReturnPhase,
    /// Restart the current phase from its first step.
    RetryPhase,
}

/// What the caller does next for the running step.
#[derive(Debug)]
pub enum StepCommand {
    /// Execute the action, poll `expect` until it holds or the timeout
    /// passes, then report with `polled`.
    RunAction,
    /// Evaluate the recovery handlers' triggers, plan-local ones first, and
    /// report the first that holds with `recovery_checked`.
    CheckRecovery,
    /// Run the actions of the handler at `index`, then report with `recovery_ran`.
    RunRecovery { index: usize },
    /// Sleep for `delay`, then report with `waited`.
    Wait { delay: Duration },
    /// Run the fallback action, poll `expect` again with a fresh timeout,
    /// then report with `fallback_polled`.
    RunFallback,
    /// The step is over.
    Done(Result<StepOutcome, AutomataError>),
}

/// Where a running step stands: which report it waits for.
#[derive(Debug)]
pub enum StepStage {
    Polling,
    CheckingRecovery,
    /// The handler `name` fired and its actions run; `resume` says what follows.
    Recovering { name: String, resume: ResumeStrategy },
    Waiting,
    /// The step failed with `message`; the fallback action runs.
    TryingFallback { message: String },
    Finished,
}

/// The decisions of one step's run.
#[derive(Debug)]
pub struct StepRun {
    /// `step <n>/<total> '<intent>'`, the prefix of every message.
    pub label: String,
    /// Description of the `expect` condition, quoted in timeout messages.
    pub expect_desc: String,
    /// The retry policy in force (the step's own, else the plan default).
    pub retry: RetryPolicy,
    pub on_failure: OnFailure,
    pub on_success: OnSuccess,
    pub has_fallback: bool,
    /// Most recovery firings allowed in the plan.
    pub max_recoveries: u32,
    /// Recovery firings so far in the plan, this step's included.
    pub recovery_count: u32,
    /// Re-executions of the action so far.
    pub attempts: u64,
    /// The error of the latest execution of the action, if it failed.
    pub last_action_error: Option<String>,
    pub stage: StepStage,
}

pub open spec fn retry_allowance(p: RetryPolicy) -> int {
    match p {
        RetryPolicy::Fixed { count, .. } => count as int,
        _ => 0,
    }
}

/// What a succeeding step leads to.
pub open spec fn success_outcome(s: OnSuccess) -> StepOutcome {
    match s {
        OnSuccess::Continue => StepOutcome::Continue,
        OnSuccess::ReturnPhase => StepOutcome::ReturnPhase,
    }
}

/// `step <n>/<total> '<intent>'`.
pub open spec fn step_label_spec(n: nat, total: nat, intent: Seq<char>) -> Seq<char> {
    "step "@ + decimal(n) + "/"@ + decimal(total) + " '"@ + intent + "'"@
}

pub open spec fn timeout_message(label: Seq<char>, attempts: nat, err: Option<Seq<char>>, desc: Seq<char>) -> Seq<char> {
    label + ": timed out after "@ + decimal(attempts + 1) + " attempt(s)"@ + match err {
        Some(e) => "\n  action error: "@ + e,
        None => Seq::empty(),
    } + "\n  expect: "@ + desc
}

pub open spec fn exhausted_message(label: Seq<char>, name: Seq<char>, max: nat) -> Seq<char> {
    label + ": recovery handler '"@ + name + "' would fire but max_recoveries ("@ + decimal(max)
        + ") reached"@
}

pub open spec fn fail_message(label: Seq<char>, name: Seq<char>) -> Seq<char> {
    label + ": recovery handler '"@ + name + "' instructed Fail"@
}

/// `c` ends the step with `r` (an error as an internal error with that message).
pub open spec fn ends_with_result(c: StepCommand, r: Result<StepOutcome, Seq<char>>) -> bool {
    match c {
        StepCommand::Done(Ok(o)) => r == Ok::<StepOutcome, Seq<char>>(o),
        StepCommand::Done(Err(e)) => r is Err && is_internal(e, r->Err_0),
        _ => false,
    }
}

/// What `on_failure` makes of a failure with message `msg`.
pub open spec fn failure_result(p: OnFailure, msg: Seq<char>) -> Result<StepOutcome, Seq<char>> {
    match p {
        OnFailure::Abort => Err(msg),
        OnFailure::Continue => Ok(StepOutcome::Continue),
    }
}

pub open spec fn opt_string(o: Option<String>) -> Option<Seq<char>> {
    match o {
        Some(s) => Some(s@),
        None => None,
    }
}

/// `s` with its decision fields unchanged by a transition.
pub open spec fn same_settings(a: StepRun, b: StepRun) -> bool {
    &&& a.label == b.label
    &&& a.expect_desc == b.expect_desc
    &&& a.retry == b.retry
    &&& a.on_failure == b.on_failure
    &&& a.on_success == b.on_success
    &&& a.has_fallback == b.has_fallback
    &&& a.max_recoveries == b.max_recoveries
}

fn cat3(a: &str, b: &str, c: &str) -> (r: Vec<char>)
    ensures
        r@ == a@ + b@ + c@,
{
    let mut v = chars_of(a);
    append(&mut v, &chars_of(b));
    append(&mut v, &chars_of(c));
    v
}

/// `step <n>/<total> '<intent>'`.
pub fn step_label(n: usize, total: usize, intent: &str) -> (r: String)
    ensures
        r@ == step_label_spec(n as nat, total as nat, intent@),
{
    let mut v = chars_of("step ");
    append(&mut v, &decimal_string(n as u64));
    append(&mut v, &chars_of("/"));
    append(&mut v, &decimal_string(total as u64));
    append(&mut v, &cat3(" '", intent, "'"));
    string_of(&v)
}

impl StepRun {
    /// Each re-execution is paid for by a retry of the policy or a recovery
    /// firing (a firing whose actions still run pays for the next one).
    pub open spec fn wf(&self) -> bool {
        self.attempts + (if self.stage is Recovering {
            1int
        } else {
            0int
        }) <= retry_allowance(self.retry) + self.recovery_count
    }

    /// A step about to run its action for the first time. `step_retry` is
    /// the step's own policy; `NoRetry` there means the plan default applies.
    pub fn start(
        label: String,
        expect_desc: String,
        step_retry: RetryPolicy,
        default_retry: RetryPolicy,
        on_failure: OnFailure,
        on_success: OnSuccess,
        has_fallback: bool,
        max_recoveries: u32,
        recovery_count: u32,
    ) -> (r: StepRun)
        ensures
            r.wf(),
            r.label == label,
            r.expect_desc == expect_desc,
            r.retry == (match step_retry {
                RetryPolicy::NoRetry => default_retry,
                p => p,
            }),
            r.on_failure == on_failure,
            r.on_success == on_success,
            r.has_fallback == has_fallback,
            r.max_recoveries == max_recoveries,
            r.recovery_count == recovery_count,
            r.attempts == 0,
            r.last_action_error is None,
            r.stage is Polling,
    {
        let retry = match step_retry {
            RetryPolicy::NoRetry => default_retry,
            p => p,
        };
        StepRun {
            label,
            expect_desc,
            retry,
            on_failure,
            on_success,
            has_fallback,
            max_recoveries,
            recovery_count,
            attempts: 0,
            last_action_error: None,
            stage: StepStage::Polling,
        }
    }

    /// The step gives up with `msg`: the fallback runs if there is one,
    /// otherwise `on_failure` decides.
    fn give_up(&mut self, msg: String) -> (c: StepCommand)
        ensures
            same_settings(*final(self), *old(self)),
            final(self).attempts == old(self).attempts,
            final(self).recovery_count == old(self).recovery_count,
            final(self).last_action_error == old(self).last_action_error,
            old(self).has_fallback ==> (final(self).stage matches StepStage::TryingFallback { message }
                && message@ == msg@ && c is RunFallback),
            !old(self).has_fallback ==> final(self).stage is Finished && ends_with_result(
                c,
                failure_result(old(self).on_failure, msg@),
            ),
    {
        if self.has_fallback {
            self.stage = StepStage::TryingFallback { message: msg };
            StepCommand::RunFallback
        } else {
            self.stage = StepStage::Finished;
            match self.on_failure {
                OnFailure::Abort => StepCommand::Done(Err(AutomataError::Internal(msg))),
                OnFailure::Continue => StepCommand::Done(Ok(StepOutcome::Continue)),
            }
        }
    }

    /// The action ran (`action_error` is its error, if it failed) and the
    /// poll of `expect` ended: `satisfied` if it held before the timeout.
    /// A failed action with `on_failure: abort` does not count as success.
    pub fn polled(&mut self, action_error: Option<String>, satisfied: bool) -> (c: StepCommand)
        requires
            old(self).stage is Polling,
            old(self).wf(),
        ensures
            final(self).wf(),
            same_settings(*final(self), *old(self)),
            final(self).attempts == old(self).attempts,
            final(self).recovery_count == old(self).recovery_count,
            opt_string(final(self).last_action_error) == opt_string(action_error),
            if satisfied && !(action_error is Some && old(self).on_failure == OnFailure::Abort) {
                final(self).stage is Finished && ends_with_result(
                    c,
                    Ok(success_outcome(old(self).on_success)),
                )
            } else {
                final(self).stage is CheckingRecovery && c is CheckRecovery
            },
    {
        let blocked = action_error.is_some() && self.on_failure == OnFailure::Abort;
        self.last_action_error = action_error;
        if satisfied && !blocked {
            self.stage = StepStage::Finished;
            match self.on_success {
                OnSuccess::Continue => StepCommand::Done(Ok(StepOutcome::Continue)),
                OnSuccess::ReturnPhase => StepCommand::Done(Ok(StepOutcome::ReturnPhase)),
            }
        } else {
            self.stage = StepStage::CheckingRecovery;
            StepCommand::CheckRecovery
        }
    }

    /// The recovery triggers were checked: `fired` is the first handler whose
    /// trigger held (its index, name and resume strategy), if any.
    pub fn recovery_checked(&mut self, fired: Option<(usize, String, ResumeStrategy)>) -> (c: StepCommand)
        requires
            old(self).stage is CheckingRecovery,
            old(self).wf(),
        ensures
            final(self).wf(),
            same_settings(*final(self), *old(self)),
            opt_string(final(self).last_action_error) == opt_string(old(self).last_action_error),
            match fired {
                Some((index, name, resume)) => if old(self).recovery_count < old(self).max_recoveries {
                    &&& final(self).recovery_count == old(self).recovery_count + 1
                    &&& final(self).attempts == old(self).attempts
                    &&& final(self).stage matches StepStage::Recovering { name: n, resume: rs }
                        && n@ == name@ && rs == resume
                    &&& c matches StepCommand::RunRecovery { index: i } && i == index
                } else {
                    let msg = exhausted_message(old(self).label@, name@, old(self).max_recoveries as nat);
                    &&& final(self).recovery_count == old(self).recovery_count
                    &&& final(self).attempts == old(self).attempts
                    &&& old(self).has_fallback ==> (final(self).stage matches StepStage::TryingFallback {
                        message,
                    } && message@ == msg && c is RunFallback)
                    &&& !old(self).has_fallback ==> final(self).stage is Finished && ends_with_result(
                        c,
                        failure_result(old(self).on_failure, msg),
                    )
                },
                None => {
                    &&& final(self).recovery_count == old(self).recovery_count
                    &&& if old(self).attempts < retry_allowance(old(self).retry) {
                        &&& final(self).attempts == old(self).attempts + 1
                        &&& final(self).stage is Waiting
                        &&& c matches StepCommand::Wait { delay } && old(self).retry matches RetryPolicy::Fixed { delay: d, .. } && delay == d
                    } else {
                        let msg = timeout_message(
                            old(self).label@,
                            old(self).attempts as nat,
                            opt_string(old(self).last_action_error),
                            old(self).expect_desc@,
                        );
                        &&& final(self).attempts == old(self).attempts
                        &&& old(self).has_fallback ==> (final(self).stage matches StepStage::TryingFallback {
                            message,
                        } && message@ == msg && c is RunFallback)
                        &&& !old(self).has_fallback ==> final(self).stage is Finished && ends_with_result(
                            c,
                            failure_result(old(self).on_failure, msg),
                        )
                    }
                },
            },
    {
        match fired {
            Some((index, name, resume)) => {
                if self.recovery_count < self.max_recoveries {
                    self.recovery_count = self.recovery_count + 1;
                    self.stage = StepStage::Recovering { name, resume };
                    StepCommand::RunRecovery { index }
                } else {
                    let mut v = cat3(self.label.as_str(), ": recovery handler '", name.as_str());
                    append(&mut v, &chars_of("' would fire but max_recoveries ("));
                    append(&mut v, &decimal_string(self.max_recoveries as u64));
                    append(&mut v, &chars_of(") reached"));
                    self.give_up(string_of(&v))
                }
            },
            None => {
                let retry_delay: Option<Duration> = match self.retry {
                    RetryPolicy::Fixed { count, delay } => if self.attempts < count as u64 {
                        Some(delay)
                    } else {
                        None
                    },
                    _ => None,
                };
                if let Some(delay) = retry_delay {
                    self.attempts = self.attempts + 1;
                    self.stage = StepStage::Waiting;
                    StepCommand::Wait { delay }
                } else {
                    let mut v = chars_of(self.label.as_str());
                    append(&mut v, &chars_of(": timed out after "));
                    append(&mut v, &decimal_string(self.attempts + 1));
                    append(&mut v, &chars_of(" attempt(s)"));
                    match &self.last_action_error {
                        Some(e) => {
                            append(&mut v, &chars_of("\n  action error: "));
                            append(&mut v, &chars_of(e.as_str()));
                        },
                        None => {},
                    }
                    append(&mut v, &chars_of("\n  expect: "));
                    append(&mut v, &chars_of(self.expect_desc.as_str()));
                    proof {
                        let e = opt_string(self.last_action_error);
                        let tail: Seq<char> = match e {
                            Some(x) => "\n  action error: "@ + x,
                            None => Seq::empty(),
                        };
                        assert(v@ =~= timeout_message(self.label@, self.attempts as nat, e, self.expect_desc@));
                    }
                    self.give_up(string_of(&v))
                }
            },
        }
    }

    /// The fired handler's actions ran.
    pub fn recovery_ran(&mut self) -> (c: StepCommand)
        requires
            old(self).stage is Recovering,
            old(self).wf(),
        ensures
            final(self).wf(),
            same_settings(*final(self), *old(self)),
            final(self).recovery_count == old(self).recovery_count,
            opt_string(final(self).last_action_error) == opt_string(old(self).last_action_error),
            old(self).stage matches StepStage::Recovering { name, resume } && match resume {
                ResumeStrategy::RetryStep => final(self).attempts == old(self).attempts + 1
                    && final(self).stage is Polling && c is RunAction,
                ResumeStrategy::SkipStep => final(self).attempts == old(self).attempts
                    && final(self).stage is Finished && ends_with_result(c, Ok(StepOutcome::Continue)),
                ResumeStrategy::Fail => final(self).attempts == old(self).attempts
                    && final(self).stage is Finished && ends_with_result(
                    c,
                    Err(fail_message(old(self).label@, name@)),
                ),
                ResumeStrategy::RetryPhase => final(self).attempts == old(self).attempts
                    && final(self).stage is Finished && ends_with_result(c, Ok(StepOutcome::RetryPhase)),
            },
    {
        let mut stage = StepStage::Finished;
        std::mem::swap(&mut stage, &mut self.stage);
        match stage {
            StepStage::Recovering { name, resume } => match resume {
                ResumeStrategy::RetryStep => {
                    self.attempts = self.attempts + 1;
                    self.stage = StepStage::Polling;
                    StepCommand::RunAction
                },
                ResumeStrategy::SkipStep => StepCommand::Done(Ok(StepOutcome::Continue)),
                ResumeStrategy::Fail => {
                    let mut v = cat3(self.label.as_str(), ": recovery handler '", name.as_str());
                    append(&mut v, &chars_of("' instructed Fail"));
                    StepCommand::Done(Err(AutomataError::Internal(string_of(&v))))
                },
                ResumeStrategy::RetryPhase => StepCommand::Done(Ok(StepOutcome::RetryPhase)),
            },
            _ => StepCommand::Done(Ok(StepOutcome::Continue)),
        }
    }

    /// The retry delay passed; the action runs again.
    pub fn waited(&mut self) -> (c: StepCommand)
        requires
            old(self).stage is Waiting,
            old(self).wf(),
        ensures
            final(self).wf(),
            same_settings(*final(self), *old(self)),
            final(self).attempts == old(self).attempts,
            final(self).recovery_count == old(self).recovery_count,
            opt_string(final(self).last_action_error) == opt_string(old(self).last_action_error),
            final(self).stage is Polling,
            c is RunAction,
    {
        self.stage = StepStage::Polling;
        StepCommand::RunAction
    }

    /// The fallback ran and `expect` was polled again: `satisfied` if it held.
    pub fn fallback_polled(&mut self, satisfied: bool) -> (c: StepCommand)
        requires
            old(self).stage is TryingFallback,
            old(self).wf(),
        ensures
            final(self).wf(),
            same_settings(*final(self), *old(self)),
            final(self).attempts == old(self).attempts,
            final(self).recovery_count == old(self).recovery_count,
            final(self).stage is Finished,
            old(self).stage matches StepStage::TryingFallback { message } && if satisfied {
                ends_with_result(c, Ok(success_outcome(old(self).on_success)))
            } else {
                ends_with_result(c, failure_result(old(self).on_failure, message@))
            },
    {
        let mut stage = StepStage::Finished;
        std::mem::swap(&mut stage, &mut self.stage);
        let message = match stage {
            StepStage::TryingFallback { message } => message,
            _ => String::new(),
        };
        if satisfied {
            match self.on_success {
                OnSuccess::Continue => StepCommand::Done(Ok(StepOutcome::Continue)),
                OnSuccess::ReturnPhase => StepCommand::Done(Ok(StepOutcome::ReturnPhase)),
            }
        } else {
            match self.on_failure {
                OnFailure::Abort => StepCommand::Done(Err(AutomataError::Internal(message))),
                OnFailure::Continue => StepCommand::Done(Ok(StepOutcome::Continue)),
            }
        }
    }
}

} // verus!
