//! The workflow file format: declarations of params, outputs, defaults,
//! launch settings and anchors, and the checks and conversions applied to
//! them when a workflow is loaded.
use vstd::prelude::*;

use std::time::Duration;

use crate::duration::{from_secs, secs_duration};
use crate::executor::{var_lookup, var_set, vars_view, Vars, VarsView};
use crate::registry::{AnchorDef, LaunchWait, Tier};
use crate::selector::{lemma_find_bounds, wildcard_steps, SelectorPath};
use crate::step::RetryPolicy;
use crate::text::{
    append, chars_of, ends_with, ends_with_seq, find_char, find_seq, find_sub, find_sub_seq, first_idx,
    last_idx, lemma_first_idx, lemma_first_idx_props, lemma_last_idx, lowercase,
    occurs_at, replace_all, replace_seq, slice_of, string_of, sub_at, to_lowercase,
};

verus! {

// ── Declarations ──────────────────────────────────────────────────────────────

/// A declared workflow parameter, referenced as `{param.<name>}`.
#[derive(Debug, Clone)]
pub struct ParamDef {
    pub name: String,
    pub description: Option<String>,
    /// Default value; a parameter without one is required.
    pub default: Option<String>,
}

/// A declared output key: the keys a subflow returns to its parent.
#[derive(Debug, Clone)]
pub struct OutputDef {
    pub name: String,
    pub description: Option<String>,
}

/// Workflow-level recovery defaults.
#[derive(Debug, Clone, Copy)]
pub struct DefaultsRecovery {
    /// Most recovery firings per phase (10 when unset).
    pub limit: Option<u32>,
}

impl Default for DefaultsRecovery {
    fn default() -> (r: Self)
        ensures
            r.limit is None,
    {
        DefaultsRecovery { limit: None }
    }
}

/// Defaults for steps that set no timeout or retry policy of their own.
#[derive(Debug, Clone, Copy)]
pub struct Defaults {
    /// How long `expect` may take (10 s when unset).
    pub timeout: Option<Duration>,
    /// Retry policy when a step times out and no recovery handler fires.
    pub retry: RetryPolicy,
    /// Whether to snapshot the tree after each action.
    pub action_snapshot: bool,
    pub recovery: DefaultsRecovery,
}

/// The default retry policy: one more attempt, after one second.
pub fn default_retry() -> (r: RetryPolicy)
    ensures
        r == (RetryPolicy::Fixed { count: 1, delay: secs_duration(1) }),
{
    RetryPolicy::Fixed { count: 1, delay: from_secs(1) }
}

impl Default for Defaults {
    fn default() -> (r: Self)
        ensures
            r.timeout is None,
            r.retry == (RetryPolicy::Fixed { count: 1, delay: secs_duration(1) }),
            !r.action_snapshot,
            r.recovery.limit is None,
    {
        Defaults {
            timeout: None,
            retry: default_retry(),
            action_snapshot: false,
            recovery: DefaultsRecovery::default(),
        }
    }
}

/// An application launched before the phases run; `app` wins over `exe`.
#[derive(Debug, Clone)]
pub struct LaunchConfig {
    /// Executable name or path, e.g. `notepad.exe`.
    pub exe: Option<String>,
    /// Store, URI or UWP application id.
    pub app: Option<String>,
    /// How long to wait for the window (15 s when unset).
    pub timeout: Option<Duration>,
    /// How the launched window is recognised.
    pub wait: LaunchWait,
    /// Anchor whose process to wait for instead.
    pub wait_for: Option<String>,
}

/// What is launched: `app` when set, else `exe`, else an error.
pub open spec fn launch_target(app: Option<Seq<char>>, exe: Option<Seq<char>>) -> Result<Seq<char>, Seq<char>> {
    match app {
        Some(a) => Ok(a),
        None => match exe {
            Some(e) => Ok(e),
            None => Err("launch: requires either `exe` or `app`"@),
        },
    }
}

pub open spec fn opt_view(o: Option<String>) -> Option<Seq<char>> {
    match o {
        Some(s) => Some(s@),
        None => None,
    }
}

impl LaunchConfig {
    /// The launch target (see `launch_target`).
    pub fn target(&self) -> (r: Result<String, String>)
        ensures
            match (r, launch_target(opt_view(self.app), opt_view(self.exe))) {
                (Ok(t), Ok(w)) => t@ == w,
                (Err(e), Err(w)) => e@ == w,
                _ => false,
            },
    {
        match &self.app {
            Some(a) => Ok(a.clone()),
            None => match &self.exe {
                Some(e) => Ok(e.clone()),
                None => Err("launch: requires either `exe` or `app`".to_owned()),
            },
        }
    }
}

// ── Anchors ───────────────────────────────────────────────────────────────────

/// Lifetime tier of a declared anchor.
#[derive(Debug, Clone, Copy, PartialEq, Eq, Structural)]
pub enum AnchorKind {
    /// Resolved against the desktop's windows; staleness is fatal.
    Root,
    /// A top-level window that may come and go.
    Session,
    /// Resolved within its parent; re-queried when stale.
    Stable,
    /// Declared by a phase and released when it exits.
    Ephemeral,
    /// A CDP browser session.
    Browser,
    /// A tab of a `Browser` anchor.
    Tab,
}

/// An anchor as declared in a workflow file.
#[derive(Debug, Clone)]
pub struct YamlAnchor {
    pub kind: AnchorKind,
    /// Path to the element; the wildcard `*` when omitted.
    pub selector: Option<SelectorPath>,
    /// Parent anchor (`Stable`, `Ephemeral`, `Tab`).
    pub parent: Option<String>,
    /// Process name filter (case-insensitive, without `.exe`).
    pub process: Option<String>,
    /// Process id filter.
    pub pid: Option<u32>,
}

/// The tier each declared kind is registered with.
pub open spec fn tier_of(kind: AnchorKind) -> Tier {
    match kind {
        AnchorKind::Root => Tier::Root,
        AnchorKind::Session => Tier::Session,
        AnchorKind::Stable => Tier::Stable,
        AnchorKind::Ephemeral => Tier::Ephemeral,
        AnchorKind::Browser => Tier::Browser,
        AnchorKind::Tab => Tier::Tab,
    }
}

impl YamlAnchor {
    /// The registered definition of this declaration under `name`.
    ///
    /// Browser anchors always take the wildcard selector, no pid, and the
    /// process `msedge` unless one is given; tab anchors drop the pid and
    /// process filters; only stable, ephemeral and tab anchors keep a parent.
    pub fn into_def(self, name: String) -> (r: AnchorDef)
        ensures
            r.name@ == name@,
            r.tier == tier_of(self.kind),
            r.mount_depth == 0,
            r.parent == (match self.kind {
                AnchorKind::Stable | AnchorKind::Ephemeral | AnchorKind::Tab => self.parent,
                _ => None,
            }),
            (self.kind != AnchorKind::Browser && self.selector is Some) ==> r.selector == self.selector->0,
            (self.kind == AnchorKind::Browser || self.selector is None) ==> r.selector@ == wildcard_steps(),
            r.pid == (match self.kind {
                AnchorKind::Browser | AnchorKind::Tab => None,
                _ => self.pid,
            }),
            match self.kind {
                AnchorKind::Browser => r.process_name is Some && r.process_name->0@ == (match self.process {
                    Some(p) => p@,
                    None => "msedge"@,
                }),
                AnchorKind::Tab => r.process_name is None,
                _ => r.process_name == self.process,
            },
    {
        let kind = self.kind;
        let selector = match self.selector {
            Some(s) => s,
            None => SelectorPath::wildcard(),
        };
        match kind {
            AnchorKind::Root => AnchorDef {
                name,
                parent: None,
                selector,
                tier: Tier::Root,
                pid: self.pid,
                process_name: self.process,
                mount_depth: 0,
            },
            AnchorKind::Session => AnchorDef {
                name,
                parent: None,
                selector,
                tier: Tier::Session,
                pid: self.pid,
                process_name: self.process,
                mount_depth: 0,
            },
            AnchorKind::Stable => AnchorDef {
                name,
                parent: self.parent,
                selector,
                tier: Tier::Stable,
                pid: self.pid,
                process_name: self.process,
                mount_depth: 0,
            },
            AnchorKind::Ephemeral => AnchorDef {
                name,
                parent: self.parent,
                selector,
                tier: Tier::Ephemeral,
                pid: self.pid,
                process_name: self.process,
                mount_depth: 0,
            },
            AnchorKind::Browser => {
                let process = match self.process {
                    Some(p) => p,
                    None => "msedge".to_owned(),
                };
                AnchorDef {
                    name,
                    parent: None,
                    selector: SelectorPath::wildcard(),
                    tier: Tier::Browser,
                    pid: None,
                    process_name: Some(process),
                    mount_depth: 0,
                }
            },
            AnchorKind::Tab => AnchorDef {
                name,
                parent: self.parent,
                selector,
                tier: Tier::Tab,
                pid: None,
                process_name: None,
                mount_depth: 0,
            },
        }
    }
}

/// Anchor names starting with `:` are reserved for depth scoping.
pub open spec fn anchor_name_error(name: Seq<char>) -> Option<Seq<char>> {
    if name.len() > 0 && name[0] == ':' {
        Some("anchor name '"@ + name + "' must not start with ':'"@)
    } else {
        None
    }
}

/// Checks one declared anchor name (see `anchor_name_error`).
pub fn check_anchor_name(name: &str) -> (r: Result<(), String>)
    ensures
        match (r, anchor_name_error(name@)) {
            (Ok(()), None) => true,
            (Err(e), Some(w)) => e@ == w,
            _ => false,
        },
{
    let c = chars_of(name);
    if c.len() > 0 && c[0] == ':' {
        let mut msg = chars_of("anchor name '");
        append(&mut msg, &c);
        append(&mut msg, &chars_of("' must not start with ':'"));
        Err(string_of(&msg))
    } else {
        Ok(())
    }
}

// ── Phases and headers ────────────────────────────────────────────────────────

/// Phase-level recovery settings.
#[derive(Debug, Clone)]
pub struct YamlPhaseRecovery {
    /// Names of the workflow's recovery handlers enabled for this phase.
    pub handlers: Vec<String>,
    /// Most recovery firings in this phase; overrides the workflow default.
    pub limit: Option<u32>,
}

impl Default for YamlPhaseRecovery {
    fn default() -> (r: Self)
        ensures
            r.handlers@.len() == 0,
            r.limit is None,
    {
        YamlPhaseRecovery { handlers: Vec::new(), limit: None }
    }
}

/// The recovery limit of a phase: its own, else the workflow's, else 10.
pub fn recovery_limit(phase: Option<&YamlPhaseRecovery>, defaults: &DefaultsRecovery) -> (r: u32)
    ensures
        r == (match phase {
            Some(p) if p.limit is Some => p.limit->0,
            _ => match defaults.limit {
                Some(l) => l,
                None => 10,
            },
        }),
{
    match phase {
        Some(p) => match p.limit {
            Some(l) => {
                return l;
            },
            None => {},
        },
        None => {},
    }
    match defaults.limit {
        Some(l) => l,
        None => 10,
    }
}

/// A phase that runs a child workflow file.
#[derive(Debug, Clone)]
pub struct YamlSubflowPhase {
    pub name: String,
    /// Path of the child workflow, relative to this one.
    pub subflow: String,
    /// Parameter values handed to the child.
    pub params: Vars,
}

/// Just the `name:` of a workflow file.
#[derive(Debug, Clone)]
pub struct WorkflowName {
    pub name: String,
}

/// Workflow metadata read without a full parse.
#[derive(Debug, Clone)]
pub struct WorkflowHeader {
    pub name: String,
    pub description: Option<String>,
    pub params: Vec<ParamDef>,
}

/// Phase-level progress reported while a workflow runs.
#[derive(Debug, Clone)]
pub enum PhaseEvent {
    PhaseStarted(String),
    PhaseCompleted(String),
    /// The phase's precondition was false.
    PhaseSkipped(String),
    PhaseFailed { phase: String, error: String },
    Completed,
    Failed(String),
}

// ── Parameter resolution ──────────────────────────────────────────────────────

/// `s` with each `_` written as `-`, as parameter names appear on a command line.
pub open spec fn dashed(s: Seq<char>) -> Seq<char> {
    s.map_values(|c: char| if c == '_' { '-' } else { c })
}

pub open spec fn declares(defs: Seq<ParamDef>, k: Seq<char>) -> bool {
    exists|i: int| 0 <= i < defs.len() && (#[trigger] defs[i]).name@ == k
}

pub open spec fn undeclared_at(defs: Seq<ParamDef>, cli: VarsView) -> spec_fn(int) -> bool {
    |i: int| !declares(defs, cli[i].0)
}

/// The declared parameters resolved in order against the given values: a
/// given value wins over the default; a parameter with neither is an error.
pub open spec fn merge_params(defs: Seq<ParamDef>, cli: VarsView, n: nat) -> Result<VarsView, Seq<char>>
    decreases n,
{
    if n == 0 {
        Ok(Seq::empty())
    } else {
        match merge_params(defs, cli, (n - 1) as nat) {
            Err(e) => Err(e),
            Ok(m) => {
                let d = defs[n - 1];
                match var_lookup(cli, d.name@) {
                    Some(v) => Ok(var_set(m, d.name@, v)),
                    None => match d.default {
                        Some(dv) => Ok(var_set(m, d.name@, dv@)),
                        None => Err("required parameter '--"@ + dashed(d.name@) + "' not provided"@),
                    },
                }
            },
        }
    }
}

/// The values a workflow runs with, from its declared parameters and the
/// values given by the caller. A given value that no parameter declares is
/// refused first (the first such in `cli`'s order).
pub open spec fn resolve_params_spec(defs: Seq<ParamDef>, cli: VarsView) -> Result<VarsView, Seq<char>> {
    let u = first_idx(0, cli.len() as int, undeclared_at(defs, cli));
    if u < cli.len() {
        Err("unknown parameter '--"@ + dashed(cli[u].0) + "'"@)
    } else {
        merge_params(defs, cli, defs.len())
    }
}

proof fn lemma_merge_err(defs: Seq<ParamDef>, cli: VarsView, n: nat, m: nat)
    requires
        n <= m,
        merge_params(defs, cli, n) is Err,
    ensures
        merge_params(defs, cli, m) == merge_params(defs, cli, n),
    decreases m - n,
{
    if n < m {
        lemma_merge_err(defs, cli, n, (m - 1) as nat);
    }
}

fn dash(s: &str) -> (r: Vec<char>)
    ensures
        r@ == dashed(s@),
{
    let c = chars_of(s);
    let mut out: Vec<char> = Vec::new();
    let mut i: usize = 0;
    while i < c.len()
        invariant
            i <= c@.len(),
            c@ == s@,
            out@ == dashed(c@.take(i as int)),
        decreases c@.len() - i,
    {
        let ch = if c[i] == '_' {
            '-'
        } else {
            c[i]
        };
        out.push(ch);
        i = i + 1;
        assert(out@ =~= dashed(c@.take(i as int)));
    }
    assert(c@.take(i as int) =~= c@);
    out
}

fn is_declared(defs: &Vec<ParamDef>, k: &String) -> (r: bool)
    ensures
        r == declares(defs@, k@),
{
    let mut i: usize = 0;
    while i < defs.len()
        invariant
            i <= defs@.len(),
            forall|j: int| 0 <= j < i ==> (#[trigger] defs@[j]).name@ != k@,
        decreases defs@.len() - i,
    {
        if defs[i].name == *k {
            assert(defs@[i as int].name@ == k@);
            return true;
        }
        i = i + 1;
    }
    false
}

/// Resolves the parameter values a workflow runs with (see `resolve_params_spec`).
pub fn resolve_params(defs: &Vec<ParamDef>, cli: &Vars) -> (r: Result<Vars, String>)
    ensures
        match (r, resolve_params_spec(defs@, cli@)) {
            (Ok(m), Ok(w)) => m@ == w,
            (Err(e), Err(w)) => e@ == w,
            _ => false,
        },
{
    let given = cli.entries();
    let ghost cv = cli@;
    let mut i: usize = 0;
    while i < given.len()
        invariant
            i <= given@.len(),
            cv == vars_view(given@),
            cv == cli@,
            forall|j: int| 0 <= j < i ==> !#[trigger] undeclared_at(defs@, cv)(j),
        decreases given@.len() - i,
    {
        assert(cv[i as int].0 == given@[i as int].0@);
        if !is_declared(defs, &given[i].0) {
            proof {
                lemma_first_idx(0, cv.len() as int, undeclared_at(defs@, cv), i as int);
            }
            let mut msg = chars_of("unknown parameter '--");
            append(&mut msg, &dash(given[i].0.as_str()));
            append(&mut msg, &chars_of("'"));
            return Err(string_of(&msg));
        }
        i = i + 1;
    }
    proof {
        lemma_first_idx(0, cv.len() as int, undeclared_at(defs@, cv), i as int);
    }
    let mut merged = Vars::new();
    let mut n: usize = 0;
    while n < defs.len()
        invariant
            n <= defs@.len(),
            cv == cli@,
            first_idx(0, cv.len() as int, undeclared_at(defs@, cv)) == cv.len(),
            merge_params(defs@, cli@, n as nat) == Ok::<VarsView, Seq<char>>(merged@),
        decreases defs@.len() - n,
    {
        let d = &defs[n];
        match cli.get(d.name.as_str()) {
            Some(v) => {
                merged.insert(d.name.clone(), v.clone());
            },
            None => match &d.default {
                Some(dv) => {
                    merged.insert(d.name.clone(), dv.clone());
                },
                None => {
                    let mut msg = chars_of("required parameter '--");
                    append(&mut msg, &dash(d.name.as_str()));
                    append(&mut msg, &chars_of("' not provided"));
                    proof {
                        lemma_merge_err(defs@, cli@, (n + 1) as nat, defs@.len());
                    }
                    return Err(string_of(&msg));
                },
            },
        }
        n = n + 1;
    }
    Ok(merged)
}


// ── Launch target and process name ────────────────────────────────────────────

/// `s` with every trailing `p` stripped (`str::trim_end_matches`).
pub open spec fn strip_all_suffix(s: Seq<char>, p: Seq<char>) -> Seq<char>
    decreases s.len(),
{
    if p.len() > 0 && ends_with_seq(s, p) {
        strip_all_suffix(s.take(s.len() - p.len()), p)
    } else {
        s
    }
}

pub open spec fn is_path_sep(c: char) -> bool {
    c == '/' || c == '\\'
}

pub open spec fn sep_at(s: Seq<char>) -> spec_fn(int) -> bool {
    |i: int| is_path_sep(s[i])
}

/// The part of `s` after its last `/` or `\\` (all of `s` when it has none).
pub open spec fn after_last_sep(s: Seq<char>) -> Seq<char> {
    s.skip(last_idx(0, s.len() as int, sep_at(s)) + 1)
}

/// The process name a launch target is expected to run as: the file name
/// without its `.exe` suffixes, lowercased.
pub open spec fn launch_process_name_spec(target: Seq<char>) -> Seq<char> {
    lowercase(after_last_sep(strip_all_suffix(target, ".exe"@)))
}

/// The process name of a launch target (see `launch_process_name_spec`).
pub fn launch_process_name(target: &str) -> (r: String)
    ensures
        r@ == launch_process_name_spec(target@),
{
    let exe = chars_of(".exe");
    let mut t = chars_of(target);
    while exe.len() > 0 && ends_with(&t, &exe)
        invariant
            exe@ == ".exe"@,
            strip_all_suffix(t@, exe@) == strip_all_suffix(target@, ".exe"@),
        decreases t@.len(),
    {
        t = slice_of(&t, 0, t.len() - exe.len());
        assert(t@ =~= t@.take(t@.len() as int));
    }
    let mut i: usize = t.len();
    while i > 0 && !(t[i - 1] == '/' || t[i - 1] == '\\')
        invariant
            i <= t@.len(),
            forall|j: int| i <= j < t@.len() ==> !is_path_sep(#[trigger] t@[j]),
        decreases i,
    {
        i -= 1;
    }
    proof {
        lemma_last_idx(0, t@.len() as int, sep_at(t@), i - 1);
    }
    let name = slice_of(&t, i, t.len());
    assert(name@ =~= t@.skip(i as int));
    let ns = string_of(&name);
    to_lowercase(ns.as_str())
}

// ── Substitution into workflow text ───────────────────────────────────────────

/// The placeholder `{param.<k>}`.
pub open spec fn param_pattern(k: Seq<char>) -> Seq<char> {
    seq!['{', 'p', 'a', 'r', 'a', 'm', '.'] + k + seq!['}']
}

/// `s` after substituting each parameter, in order.
pub open spec fn subst_params(s: Seq<char>, params: VarsView) -> Seq<char>
    decreases params.len(),
{
    if params.len() == 0 {
        s
    } else {
        replace_seq(subst_params(s, params.drop_last()), param_pattern(params.last().0), params.last().1)
    }
}

/// A string value of a workflow after substituting its parameters and, when
/// the file's directory is known, `{workflow.dir}`.
pub open spec fn substitute_text_spec(s: Seq<char>, params: VarsView, dir: Option<Seq<char>>) -> Seq<char> {
    let t = subst_params(s, params);
    match dir {
        Some(d) => replace_seq(t, "{workflow.dir}"@, d),
        None => t,
    }
}

/// Substitutes parameters and `{workflow.dir}` into one string value (see
/// `substitute_text_spec`); `{env.<VAR>}` tokens are handled by `env_token`.
pub fn substitute_text(s: &str, params: &Vars, workflow_dir: Option<&str>) -> (r: String)
    ensures
        r@ == substitute_text_spec(
            s@,
            params@,
            match workflow_dir {
                Some(d) => Some(d@),
                None => None,
            },
        ),
{
    let mut out = chars_of(s);
    let pairs = params.entries();
    let ghost pv = vars_view(pairs@);
    let mut j: usize = 0;
    assert(pv.take(0) =~= Seq::<(Seq<char>, Seq<char>)>::empty());
    while j < pairs.len()
        invariant
            j <= pairs.len(),
            pv == vars_view(pairs@),
            out@ == subst_params(s@, pv.take(j as int)),
        decreases pairs.len() - j,
    {
        assert(pv.take(j + 1).drop_last() =~= pv.take(j as int));
        assert(pv.take(j + 1).last() == pv[j as int]);
        let mut pat = chars_of("{param.");
        proof {
            reveal_strlit("{param.");
        }
        append(&mut pat, &chars_of(pairs[j].0.as_str()));
        pat.push('}');
        assert(pat@ =~= param_pattern(pv[j as int].0));
        let rep = chars_of(pairs[j].1.as_str());
        out = replace_all(&out, &pat, &rep);
        j = j + 1;
    }
    assert(pv.take(j as int) =~= pv);
    match workflow_dir {
        Some(d) => {
            let pat = chars_of("{workflow.dir}");
            proof {
                reveal_strlit("{workflow.dir}");
            }
            let rep = chars_of(d);
            out = replace_all(&out, &pat, &rep);
        },
        None => {},
    }
    string_of(&out)
}

/// The first `{env.<VAR>}` token of `s`, split as (text before, `VAR`, text
/// after); `None` when there is no `{env.` or no `}` after it.
pub open spec fn env_token_spec(s: Seq<char>) -> Option<(Seq<char>, Seq<char>, Seq<char>)> {
    match find_sub_seq(s, "{env."@) {
        None => None,
        Some(a) => {
            let rest = s.skip(a + 5);
            match find_seq(rest, '}') {
                None => None,
                Some(b) => Some((s.take(a), rest.take(b), rest.skip(b + 1))),
            }
        },
    }
}

/// Splits off the first `{env.<VAR>}` token (see `env_token_spec`); the
/// caller replaces it with the variable's value and asks again.
pub fn env_token(s: &str) -> (r: Option<(String, String, String)>)
    ensures
        match (r, env_token_spec(s@)) {
            (Some((p, n, q)), Some((p2, n2, q2))) => p@ == p2 && n@ == n2 && q@ == q2 && s@ == p@
                + "{env."@ + n@ + "}"@ + q@,
            (None, None) => true,
            _ => false,
        },
{
    let c = chars_of(s);
    let open = chars_of("{env.");
    proof {
        reveal_strlit("{env.");
        reveal_strlit("}");
    }
    match find_sub(&c, &open) {
        None => None,
        Some(a) => {
            proof {
                lemma_first_idx_props(0, c@.len() + 1int, sub_at(c@, open@));
                assert(occurs_at(c@, open@, a as int));
                assert(open@.len() == 5);
                assert(a + 5 <= c@.len());
            }
            assert(a + 5 <= c.len());
            let rest = slice_of(&c, a + 5, c.len());
            assert(rest@ =~= c@.skip(a + 5));
            match find_char(&rest, '}') {
                None => None,
                Some(b) => {
                    proof {
                        lemma_find_bounds(rest@, '}');
                    }
                    let p = slice_of(&c, 0, a);
                    let n = slice_of(&rest, 0, b);
                    let q = slice_of(&rest, b + 1, rest.len());
                    assert(p@ =~= c@.take(a as int));
                    assert(n@ =~= rest@.take(b as int));
                    assert(q@ =~= rest@.skip(b + 1));
                    assert(c@ =~= p@ + "{env."@ + n@ + "}"@ + q@) by {
                        assert(c@.subrange(a as int, a + 5) == open@);
                        assert(rest@[b as int] == '}');
                    }
                    Some((string_of(&p), string_of(&n), string_of(&q)))
                },
            }
        },
    }
}

} // verus!
