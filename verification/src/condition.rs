//! Text and title matchers, window states, and the decisions that conditions
//! take on what was read of windows, elements and browser tabs.
use vstd::prelude::*;

use crate::error::AutomataError;
use crate::text::{
    append, chars_of, contains, contains_seq, eq_chars, lowercase, starts_with, starts_with_seq,
    string_of, to_lowercase, trim, trim_seq,
};

verus! {

// ── Regular expressions ───────────────────────────────────────────────────────

/// What `fancy_regex::Regex::new(pat)` followed by `Regex::is_match(s)` gives:
/// `None` when the pattern does not compile or the matcher gives up (its
/// backtrack limit), otherwise whether `s` holds a match.
pub uninterp spec fn regex_outcome(pat: Seq<char>, s: Seq<char>) -> Option<bool>;

/// Compiles `pat` with `fancy_regex::Regex::new` and runs `Regex::is_match`
/// on `s`. The contract names the outcome and says nothing more of it: which
/// patterns compile and what they match is left to `fancy_regex`.
#[verifier::external_body]
fn regex_match(pat: &str, s: &str) -> (r: Option<bool>)
    ensures
        r == regex_outcome(pat@, s@),
{
    match fancy_regex::Regex::new(pat) {
        Ok(re) => re.is_match(s).ok(),
        Err(_) => None,
    }
}

// ── TextMatch ─────────────────────────────────────────────────────────────────

/// Matches element text. Exactly one field should be set; the first one set,
/// in declaration order, decides.
#[derive(Debug, Clone)]
pub struct TextMatch {
    pub exact: Option<String>,
    pub contains: Option<String>,
    pub starts_with: Option<String>,
    /// A `fancy_regex` pattern (backreferences, lookaround and the like).
    pub regex: Option<String>,
    pub non_empty: bool,
}

impl TextMatch {
    /// Whether `s` passes, given what the regex matcher reported for it
    /// (`regex_result` is read only when `regex` is the deciding field).
    pub open spec fn accepts(&self, s: Seq<char>, regex_result: Option<bool>) -> bool {
        if self.exact is Some {
            s == self.exact->0@
        } else if self.contains is Some {
            contains_seq(s, self.contains->0@)
        } else if self.starts_with is Some {
            starts_with_seq(s, self.starts_with->0@)
        } else if self.regex is Some {
            regex_result == Some(true)
        } else {
            self.non_empty && s.len() > 0
        }
    }

    /// The regex outcome the matcher gives for `s`, when a regex is set.
    pub open spec fn regex_result(&self, s: Seq<char>) -> Option<bool> {
        match self.regex {
            Some(p) => regex_outcome(p@, s),
            None => None,
        }
    }

    pub fn exact(s: &str) -> (r: TextMatch)
        ensures
            r.exact is Some && r.exact->0@ == s@,
            r.contains is None,
            r.starts_with is None,
            r.regex is None,
            !r.non_empty,
    {
        TextMatch {
            exact: Some(s.to_owned()),
            contains: None,
            starts_with: None,
            regex: None,
            non_empty: false,
        }
    }

    pub fn contains(s: &str) -> (r: TextMatch)
        ensures
            r.exact is None,
            r.contains is Some && r.contains->0@ == s@,
            r.starts_with is None,
            r.regex is None,
            !r.non_empty,
    {
        TextMatch {
            exact: None,
            contains: Some(s.to_owned()),
            starts_with: None,
            regex: None,
            non_empty: false,
        }
    }

    pub fn non_empty() -> (r: TextMatch)
        ensures
            r.exact is None,
            r.contains is None,
            r.starts_with is None,
            r.regex is None,
            r.non_empty,
    {
        TextMatch { exact: None, contains: None, starts_with: None, regex: None, non_empty: true }
    }

    /// The verdict once the regex outcome is known.
    pub fn test_with(&self, s: &str, regex_result: Option<bool>) -> (r: bool)
        ensures
            r == self.accepts(s@, regex_result),
    {
        let sc = chars_of(s);
        if let Some(v) = &self.exact {
            return eq_chars(&sc, &chars_of(v.as_str()));
        }
        if let Some(v) = &self.contains {
            return contains(&sc, &chars_of(v.as_str()));
        }
        if let Some(v) = &self.starts_with {
            return starts_with(&sc, &chars_of(v.as_str()));
        }
        if self.regex.is_some() {
            return match regex_result {
                Some(b) => b,
                None => false,
            };
        }
        self.non_empty && sc.len() > 0
    }

    /// Whether `s` matches. A regex that does not compile, or whose matcher
    /// gives up, matches nothing.
    pub fn test(&self, s: &str) -> (r: bool)
        ensures
            r == self.accepts(s@, self.regex_result(s@)),
    {
        let outcome = if self.exact.is_none() && self.contains.is_none() && self.starts_with.is_none() {
            match &self.regex {
                Some(p) => regex_match(p.as_str(), s),
                None => None,
            }
        } else {
            None
        };
        self.test_with(s, outcome)
    }
}

// ── TitleMatch ────────────────────────────────────────────────────────────────

/// Matches a window title. Exactly one field should be set; the first one set,
/// in declaration order, decides.
#[derive(Debug, Clone)]
pub struct TitleMatch {
    pub exact: Option<String>,
    pub contains: Option<String>,
    pub starts_with: Option<String>,
}

impl TitleMatch {
    pub open spec fn accepts(&self, s: Seq<char>) -> bool {
        if self.exact is Some {
            s == self.exact->0@
        } else if self.contains is Some {
            contains_seq(s, self.contains->0@)
        } else if self.starts_with is Some {
            starts_with_seq(s, self.starts_with->0@)
        } else {
            false
        }
    }

    pub fn exact(s: &str) -> (r: TitleMatch)
        ensures
            r.exact is Some && r.exact->0@ == s@,
            r.contains is None,
            r.starts_with is None,
    {
        TitleMatch { exact: Some(s.to_owned()), contains: None, starts_with: None }
    }

    pub fn contains(s: &str) -> (r: TitleMatch)
        ensures
            r.exact is None,
            r.contains is Some && r.contains->0@ == s@,
            r.starts_with is None,
    {
        TitleMatch { exact: None, contains: Some(s.to_owned()), starts_with: None }
    }

    pub fn starts_with(s: &str) -> (r: TitleMatch)
        ensures
            r.exact is None,
            r.contains is None,
            r.starts_with is Some && r.starts_with->0@ == s@,
    {
        TitleMatch { exact: None, contains: None, starts_with: Some(s.to_owned()) }
    }

    pub fn test(&self, s: &str) -> (r: bool)
        ensures
            r == self.accepts(s@),
    {
        let sc = chars_of(s);
        if let Some(v) = &self.exact {
            return eq_chars(&sc, &chars_of(v.as_str()));
        }
        if let Some(v) = &self.contains {
            return contains(&sc, &chars_of(v.as_str()));
        }
        if let Some(v) = &self.starts_with {
            return starts_with(&sc, &chars_of(v.as_str()));
        }
        false
    }
}

// ── WindowState ───────────────────────────────────────────────────────────────

/// Observable state of a window anchor.
#[derive(Debug, Clone, Copy, PartialEq, Eq, Structural)]
pub enum WindowState {
    /// A window of the anchor's process is the foreground window.
    Active,
    /// The window is on screen: neither minimized nor hidden.
    Visible,
}

// ── Decisions on what was read ───────────────────────────────────────────────

/// What a condition reads of one application window; `None` where the
/// platform could not tell.
#[derive(Debug, Clone)]
pub struct WindowFacts {
    pub name: Option<String>,
    pub automation_id: Option<String>,
    pub process_id: Option<u32>,
    pub process_name: Option<String>,
    pub hwnd: Option<u64>,
}

/// Whether the window belongs to the process named `process`, compared
/// without regard to case.
pub open spec fn process_is(w: WindowFacts, process: Seq<char>) -> bool {
    w.process_name is Some && lowercase(w.process_name->0@) == lowercase(process)
}

/// `WindowWithAttribute` on one window: every filter that is set holds.
pub open spec fn window_attrs_hold(
    w: WindowFacts,
    title: Option<TitleMatch>,
    automation_id: Option<String>,
    pid: Option<u32>,
    process: Option<String>,
) -> bool {
    &&& (process is Some ==> process_is(w, process->0@))
    &&& (title is Some ==> (w.name is Some && title->0.accepts(w.name->0@)))
    &&& (automation_id is Some ==> (w.automation_id is Some && w.automation_id->0@
        == automation_id->0@))
    &&& (pid is Some ==> w.process_id == pid)
}

fn opt_str_eq(a: &Option<String>, b: &String) -> (r: bool)
    ensures
        r == (a is Some && a->0@ == b@),
{
    match a {
        Some(x) => eq_chars(&chars_of(x.as_str()), &chars_of(b.as_str())),
        None => false,
    }
}

/// Whether the window's process name, lower-cased, is `target`.
fn process_lower_is(w: &WindowFacts, target: &String) -> (r: bool)
    ensures
        r == (w.process_name is Some && lowercase(w.process_name->0@) == target@),
{
    match &w.process_name {
        Some(n) => {
            let ln = to_lowercase(n.as_str());
            eq_chars(&chars_of(ln.as_str()), &chars_of(target.as_str()))
        },
        None => false,
    }
}

/// `WindowWithAttribute`: whether some window passes every filter that is set.
pub fn window_with_attribute(
    windows: &Vec<WindowFacts>,
    title: &Option<TitleMatch>,
    automation_id: &Option<String>,
    pid: Option<u32>,
    process: &Option<String>,
) -> (r: bool)
    ensures
        r == exists|i: int|
            0 <= i < windows@.len() && #[trigger] window_attrs_hold(
                windows@[i],
                *title,
                *automation_id,
                pid,
                *process,
            ),
{
    let proc_filter: Option<String> = match process {
        Some(p) => Some(to_lowercase(p.as_str())),
        None => None,
    };
    let mut i: usize = 0;
    while i < windows.len()
        invariant
            i <= windows@.len(),
            proc_filter is Some <==> process is Some,
            process is Some ==> proc_filter->0@ == lowercase(process->0@),
            forall|j: int|
                0 <= j < i ==> !#[trigger] window_attrs_hold(
                    windows@[j],
                    *title,
                    *automation_id,
                    pid,
                    *process,
                ),
        decreases windows@.len() - i,
    {
        let w = &windows[i];
        let proc_ok = match &proc_filter {
            Some(pf) => process_lower_is(w, pf),
            None => true,
        };
        let title_ok = match title {
            Some(t) => match &w.name {
                Some(n) => t.test(n.as_str()),
                None => false,
            },
            None => true,
        };
        let aid_ok = match automation_id {
            Some(aid) => opt_str_eq(&w.automation_id, aid),
            None => true,
        };
        let pid_ok = match pid {
            Some(p) => match w.process_id {
                Some(wp) => wp == p,
                None => false,
            },
            None => true,
        };
        if proc_ok && title_ok && aid_ok && pid_ok {
            assert(window_attrs_hold(windows@[i as int], *title, *automation_id, pid, *process));
            return true;
        }
        i = i + 1;
    }
    false
}

/// `ProcessRunning`: whether some window belongs to `process`.
pub fn process_running(windows: &Vec<WindowFacts>, process: &str) -> (r: bool)
    ensures
        r == exists|i: int| 0 <= i < windows@.len() && #[trigger] process_is(windows@[i], process@),
{
    let target = to_lowercase(process);
    let mut i: usize = 0;
    while i < windows.len()
        invariant
            i <= windows@.len(),
            target@ == lowercase(process@),
            forall|j: int| 0 <= j < i ==> !#[trigger] process_is(windows@[j], process@),
        decreases windows@.len() - i,
    {
        if process_lower_is(&windows[i], &target) {
            assert(process_is(windows@[i as int], process@));
            return true;
        }
        i = i + 1;
    }
    false
}

pub open spec fn has_hwnd(windows: Seq<WindowFacts>, hwnd: u64) -> bool {
    exists|i: int| 0 <= i < windows.len() && #[trigger] windows[i].hwnd == Some(hwnd)
}

pub open spec fn has_pid(windows: Seq<WindowFacts>, pid: u32) -> bool {
    exists|i: int| 0 <= i < windows.len() && #[trigger] windows[i].process_id == Some(pid)
}

/// `WindowClosed` for an anchor pinned to a window handle or a process id: an
/// anchor locked to a window is closed when that window is gone, one locked
/// to a process when no window of that process is left. `None` for an anchor
/// pinned to neither, which is closed when it no longer resolves.
pub fn window_closed(windows: &Vec<WindowFacts>, hwnd: Option<u64>, pid: Option<u32>) -> (r: Option<
    bool,
>)
    ensures
        r == match (hwnd, pid) {
            (Some(h), _) => Some(!has_hwnd(windows@, h)),
            (None, Some(p)) => Some(!has_pid(windows@, p)),
            (None, None) => None::<bool>,
        },
{
    match hwnd {
        Some(h) => {
            let mut i: usize = 0;
            while i < windows.len()
                invariant
                    i <= windows@.len(),
                    hwnd == Some(h),
                    forall|j: int| 0 <= j < i ==> !(#[trigger] windows@[j].hwnd == Some(h)),
                decreases windows@.len() - i,
            {
                if let Some(x) = windows[i].hwnd {
                    if x == h {
                        assert(windows@[i as int].hwnd == Some(h));
                        return Some(false);
                    }
                }
                i = i + 1;
            }
            Some(true)
        },
        None => match pid {
            Some(p) => {
                let mut i: usize = 0;
                while i < windows.len()
                    invariant
                        i <= windows@.len(),
                        hwnd is None,
                        pid == Some(p),
                        forall|j: int|
                            0 <= j < i ==> !(#[trigger] windows@[j].process_id == Some(p)),
                    decreases windows@.len() - i,
                {
                    if let Some(x) = windows[i].process_id {
                        if x == p {
                            assert(windows@[i as int].process_id == Some(p));
                            return Some(false);
                        }
                    }
                    i = i + 1;
                }
                Some(true)
            },
            None => None,
        },
    }
}

/// `WindowWithState { Active }`: the anchor's process has a known, non-zero
/// id and owns the foreground window.
pub fn window_active(el_pid: Option<u32>, fg_pid: Option<u32>) -> (r: bool)
    ensures
        r == (el_pid is Some && el_pid->0 != 0 && fg_pid == el_pid),
{
    match el_pid {
        Some(p) => p != 0 && match fg_pid {
            Some(f) => f == p,
            None => false,
        },
        None => false,
    }
}

/// `ForegroundIsDialog`: the foreground window is a dialog and, when a title
/// filter is set, its title (empty when unknown) passes it.
pub fn foreground_is_dialog(role: &str, name: &str, title: &Option<TitleMatch>) -> (r: bool)
    ensures
        r == (role@ == "dialog"@ && (title is Some ==> title->0.accepts(name@))),
{
    let dialog = chars_of("dialog");
    if !eq_chars(&chars_of(role), &dialog) {
        return false;
    }
    match title {
        Some(tm) => tm.test(name),
        None => true,
    }
}

/// `DialogPresent`: whether one of the children has the role `dialog`.
pub fn any_dialog(roles: &Vec<String>) -> (r: bool)
    ensures
        r == exists|i: int| 0 <= i < roles@.len() && #[trigger] roles@[i]@ == "dialog"@,
{
    let dialog = chars_of("dialog");
    let mut i: usize = 0;
    while i < roles.len()
        invariant
            i <= roles@.len(),
            dialog@ == "dialog"@,
            forall|j: int| 0 <= j < i ==> !(#[trigger] roles@[j]@ == "dialog"@),
        decreases roles@.len() - i,
    {
        if eq_chars(&chars_of(roles[i].as_str()), &dialog) {
            return true;
        }
        i = i + 1;
    }
    false
}

/// `ElementItemSelected` (and any state read as an optional flag): an element
/// that does not report the state fails; with no expected state any reported
/// state passes.
pub fn state_matches(actual: Option<bool>, expected: Option<bool>) -> (r: bool)
    ensures
        r == (actual is Some && (expected is Some ==> actual == expected)),
{
    match (actual, expected) {
        (None, _) => false,
        (Some(_), None) => true,
        (Some(a), Some(e)) => a == e,
    }
}

/// The message an `ExecSucceeded` condition fails with.
pub open spec fn exec_failed_message(code: Seq<char>) -> Seq<char> {
    "exec exited with code "@ + code
}

/// `ExecSucceeded` on the exit code the last `Exec` action recorded: `0`
/// passes, any other code fails with an error, and no code yet is false.
pub fn exec_succeeded(code: &Option<String>) -> (r: Result<bool, AutomataError>)
    ensures
        code is None ==> r == Ok::<bool, AutomataError>(false),
        code is Some && code->0@ == "0"@ ==> r == Ok::<bool, AutomataError>(true),
        code is Some && code->0@ != "0"@ ==> (r matches Err(AutomataError::ConditionFalse(m))
            && m@ == exec_failed_message(code->0@)),
{
    match code {
        None => Ok(false),
        Some(c) => {
            let cc = chars_of(c.as_str());
            if eq_chars(&cc, &chars_of("0")) {
                Ok(true)
            } else {
                let mut m = chars_of("exec exited with code ");
                append(&mut m, &cc);
                Err(AutomataError::ConditionFalse(string_of(&m)))
            }
        },
    }
}

/// `TabWithAttribute`: every filter that is set passes on the tab's title
/// and URL.
pub fn tab_attrs_hold(
    title: &Option<TextMatch>,
    url: &Option<TextMatch>,
    tab_title: &str,
    tab_url: &str,
) -> (r: bool)
    ensures
        r == ((title is Some ==> title->0.accepts(tab_title@, title->0.regex_result(tab_title@)))
            && (url is Some ==> url->0.accepts(tab_url@, url->0.regex_result(tab_url@)))),
{
    let title_ok = match title {
        Some(t) => t.test(tab_title),
        None => true,
    };
    let url_ok = match url {
        Some(u) => u.test(tab_url),
        None => true,
    };
    title_ok && url_ok
}

/// `TabWithState`: the script's result, trimmed, is `true`.
pub fn tab_state_holds(result: &str) -> (r: bool)
    ensures
        r == (trim_seq(result@) == "true"@),
{
    eq_chars(&trim(&chars_of(result)), &chars_of("true"))
}


// ── Compound conditions ───────────────────────────────────────────────────────

/// How a compound condition combines its parts.
#[derive(Debug, Clone, Copy, PartialEq, Eq, Structural)]
pub enum Combine {
    /// Holds when every part holds.
    AllOf,
    /// Holds when some part holds.
    AnyOf,
}

/// What the parts' results make of the compound condition.
pub open spec fn combined(kind: Combine, parts: Seq<bool>) -> bool {
    match kind {
        Combine::AllOf => forall|i: int| 0 <= i < parts.len() ==> #[trigger] parts[i],
        Combine::AnyOf => exists|i: int| 0 <= i < parts.len() && #[trigger] parts[i],
    }
}

/// The verdict one part's result settles, if it settles one.
pub open spec fn part_verdict(kind: Combine, part: bool) -> Option<bool> {
    match kind {
        Combine::AllOf => if part {
            None
        } else {
            Some(false)
        },
        Combine::AnyOf => if part {
            Some(true)
        } else {
            None
        },
    }
}

/// Evaluating the parts in order and stopping at the first that settles the
/// verdict; when none does, all of them held (`AllOf`) or none did (`AnyOf`).
pub open spec fn short_circuit(kind: Combine, parts: Seq<bool>) -> bool
    decreases parts.len(),
{
    if parts.len() == 0 {
        kind == Combine::AllOf
    } else {
        match part_verdict(kind, parts[0]) {
            Some(v) => v,
            None => short_circuit(kind, parts.skip(1)),
        }
    }
}

/// After one more part evaluated to `part`: the verdict when it settles
/// one, or `None` to go on with the next part.
pub fn combine_part(kind: Combine, part: bool) -> (r: Option<bool>)
    ensures
        r == part_verdict(kind, part),
{
    match kind {
        Combine::AllOf => if part {
            None
        } else {
            Some(false)
        },
        Combine::AnyOf => if part {
            Some(true)
        } else {
            None
        },
    }
}

/// The verdict once every part was evaluated without settling it.
pub fn combine_exhausted(kind: Combine) -> (r: bool)
    ensures
        r == (kind == Combine::AllOf),
{
    match kind {
        Combine::AllOf => true,
        Combine::AnyOf => false,
    }
}

/// Stopping at the first part that settles the verdict gives the verdict of
/// all the parts: `AllOf` holds exactly when every part holds, `AnyOf`
/// exactly when some part holds.
pub proof fn law_short_circuit_is_combined(kind: Combine, parts: Seq<bool>)
    ensures
        short_circuit(kind, parts) == combined(kind, parts),
    decreases parts.len(),
{
    if parts.len() > 0 {
        let rest = parts.skip(1);
        law_short_circuit_is_combined(kind, rest);
        assert forall|i: int| 0 < i < parts.len() implies parts[i] == #[trigger] rest[i - 1] by {}
        match kind {
            Combine::AllOf => {
                if parts[0] {
                    if !combined(kind, rest) {
                        let j = choose|j: int| 0 <= j < rest.len() && !rest[j];
                        assert(!parts[j + 1]);
                    }
                    if combined(kind, rest) {
                        assert forall|i: int| 0 <= i < parts.len() implies #[trigger] parts[i] by {
                            if i > 0 {
                                assert(rest[i - 1]);
                            }
                        }
                    }
                }
            },
            Combine::AnyOf => {
                if !parts[0] {
                    if combined(kind, rest) {
                        let j = choose|j: int| 0 <= j < rest.len() && rest[j];
                        assert(parts[j + 1]);
                    }
                    if combined(kind, parts) {
                        let j = choose|j: int| 0 <= j < parts.len() && parts[j];
                        assert(j > 0);
                        assert(rest[j - 1]);
                    }
                } else {
                    assert(parts[0]);
                }
            },
        }
    }
}

} // verus!
