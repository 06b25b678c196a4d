//! Anchor declarations: tiers, definitions, launch-wait strategies, and the
//! filter that picks a root anchor's window on its first resolution.
use vstd::prelude::*;

use std::collections::HashSet;

use crate::selector::SelectorPath;
use crate::text::{chars_of, eq_chars, first_idx, lemma_first_idx, lowercase, to_lowercase};

verus! {

// ── LaunchWait / LaunchContext ────────────────────────────────────────────────

/// How the window of a launched application is recognised after `launch:`.
#[derive(Debug, Clone, Copy, PartialEq, Eq, Structural)]
pub enum LaunchWait {
    /// Any window of the process that the anchor's selector matches (apps that
    /// reuse a running process, such as browsers opening a tab). The default.
    MatchAny,
    /// A window owned by the exact PID the launcher returned.
    NewPid,
    /// A window whose handle did not exist before the launch (single-instance
    /// apps that hand off to a running process and exit).
    NewWindow,
}

impl Default for LaunchWait {
    fn default() -> (r: Self)
        ensures
            r == LaunchWait::MatchAny,
    {
        LaunchWait::MatchAny
    }
}

/// What a successful `launch:` wait leaves behind, used to filter the first
/// resolution of root anchors.
#[derive(Debug)]
pub struct LaunchContext {
    pub wait: LaunchWait,
    /// PID returned by the launcher (`NewPid`).
    pub pid: u32,
    /// Window handles that existed before the launch (`NewWindow`).
    pub pre_hwnds: HashSet<u64>,
    /// Lowercase process name of the launched executable, without `.exe`.
    pub process_name: String,
}

// ── Tier / AnchorDef ─────────────────────────────────────────────────────────

/// Lifetime tier of a registered anchor.
#[derive(Debug, Clone, Copy, PartialEq, Eq, Structural)]
pub enum Tier {
    /// Present for the whole process lifetime; staleness is fatal.
    Root,
    /// Opened and closed during a workflow; dependents go with it.
    Session,
    /// Stable while its parent is open; re-queried when stale.
    Stable,
    /// Plan-scoped captures, released at plan exit.
    Ephemeral,
    /// A browser session driven over CDP.
    Browser,
    /// A tab within a `Browser` anchor.
    Tab,
}

/// Declaration of a named anchor.
#[derive(Debug, Clone)]
pub struct AnchorDef {
    /// Unique name, the key used by plans, conditions and actions.
    pub name: String,
    /// Anchor the selector is resolved under; `None` means the desktop's
    /// application windows.
    pub parent: Option<String>,
    /// Path from the parent to this element.
    pub selector: SelectorPath,
    pub tier: Tier,
    /// Pins resolution to windows of this process id.
    pub pid: Option<u32>,
    /// Pins resolution to windows of this process name (case-insensitive,
    /// without `.exe`).
    pub process_name: Option<String>,
    /// Subflow depth at which the anchor was mounted.
    pub mount_depth: usize,
}

impl AnchorDef {
    pub fn root(name: &str, selector: SelectorPath) -> (r: AnchorDef)
        ensures
            r.name@ == name@,
            r.parent is None,
            r.selector == selector,
            r.tier == Tier::Root,
            r.pid is None,
            r.process_name is None,
            r.mount_depth == 0,
    {
        AnchorDef {
            name: name.to_owned(),
            parent: None,
            selector,
            tier: Tier::Root,
            pid: None,
            process_name: None,
            mount_depth: 0,
        }
    }

    pub fn session(name: &str, selector: SelectorPath) -> (r: AnchorDef)
        ensures
            r.name@ == name@,
            r.parent is None,
            r.selector == selector,
            r.tier == Tier::Session,
            r.pid is None,
            r.process_name is None,
            r.mount_depth == 0,
    {
        AnchorDef {
            name: name.to_owned(),
            parent: None,
            selector,
            tier: Tier::Session,
            pid: None,
            process_name: None,
            mount_depth: 0,
        }
    }

    /// Pins the anchor to one process; chains onto any constructor.
    pub fn with_pid(self, pid: u32) -> (r: AnchorDef)
        ensures
            r == (AnchorDef { pid: Some(pid), ..self }),
    {
        let mut s = self;
        s.pid = Some(pid);
        s
    }

    pub fn stable(name: &str, parent: &str, selector: SelectorPath) -> (r: AnchorDef)
        ensures
            r.name@ == name@,
            r.parent is Some && r.parent->0@ == parent@,
            r.selector == selector,
            r.tier == Tier::Stable,
            r.pid is None,
            r.process_name is None,
            r.mount_depth == 0,
    {
        AnchorDef {
            name: name.to_owned(),
            parent: Some(parent.to_owned()),
            selector,
            tier: Tier::Stable,
            pid: None,
            process_name: None,
            mount_depth: 0,
        }
    }

    pub fn ephemeral(name: &str, parent: &str, selector: SelectorPath) -> (r: AnchorDef)
        ensures
            r.name@ == name@,
            r.parent is Some && r.parent->0@ == parent@,
            r.selector == selector,
            r.tier == Tier::Ephemeral,
            r.pid is None,
            r.process_name is None,
            r.mount_depth == 0,
    {
        AnchorDef {
            name: name.to_owned(),
            parent: Some(parent.to_owned()),
            selector,
            tier: Tier::Ephemeral,
            pid: None,
            process_name: None,
            mount_depth: 0,
        }
    }
}

// ── First resolution of a root anchor ─────────────────────────────────────────

/// Whether a window with the given process id, process name and handle passes
/// the anchor's pid and process filters and the launch filter, on the
/// anchor's first resolution (the selector is matched separately).
///
/// The launch filter applies only when the anchor names no process, or names
/// the launched one; anchors that target another process are unaffected.
pub open spec fn window_admitted(
    pid_filter: Option<u32>,
    process_filter: Option<Seq<char>>,
    launch: Option<(LaunchWait, u32, Set<u64>, Seq<char>)>,
    win_pid: Option<u32>,
    win_process: Option<Seq<char>>,
    win_hwnd: Option<u64>,
) -> bool {
    let pid_ok = match pid_filter {
        Some(p) => win_pid == Some(p),
        None => true,
    };
    let pf = match process_filter {
        Some(f) => Some(lowercase(f)),
        None => None,
    };
    let proc_ok = match pf {
        Some(f) => win_process is Some && lowercase(win_process->0) == f,
        None => true,
    };
    let launch_ok = match launch {
        None => true,
        Some((wait, lpid, pre, lname)) => {
            let applies = match pf {
                Some(f) => f == lname,
                None => true,
            };
            !applies || match wait {
                LaunchWait::NewPid => win_pid == Some(lpid),
                LaunchWait::NewWindow => win_hwnd is Some && !pre.contains(win_hwnd->0),
                LaunchWait::MatchAny => true,
            }
        },
    };
    pid_ok && proc_ok && launch_ok
}

pub open spec fn launch_view(l: Option<&LaunchContext>) -> Option<(LaunchWait, u32, Set<u64>, Seq<char>)> {
    match l {
        Some(c) => Some((c.wait, c.pid, c.pre_hwnds@, c.process_name@)),
        None => None,
    }
}

pub open spec fn opt_str_view(o: Option<&str>) -> Option<Seq<char>> {
    match o {
        Some(s) => Some(s@),
        None => None,
    }
}

pub open spec fn opt_string_view(o: Option<String>) -> Option<Seq<char>> {
    match o {
        Some(s) => Some(s@),
        None => None,
    }
}

fn same_text(a: &String, b: &String) -> (r: bool)
    ensures
        r == (a@ == b@),
{
    eq_chars(&chars_of(a.as_str()), &chars_of(b.as_str()))
}

impl AnchorDef {
    /// Whether a window passes this anchor's filters on first resolution; see
    /// `window_admitted`. `win_pid` is `None` when the window's process id
    /// could not be read.
    pub fn admits_window(
        &self,
        launch: Option<&LaunchContext>,
        win_pid: Option<u32>,
        win_process: Option<&str>,
        win_hwnd: Option<u64>,
    ) -> (r: bool)
        ensures
            r == window_admitted(
                self.pid,
                opt_string_view(self.process_name),
                launch_view(launch),
                win_pid,
                opt_str_view(win_process),
                win_hwnd,
            ),
    {
        if let Some(p) = self.pid {
            match win_pid {
                Some(q) => {
                    if q != p {
                        return false;
                    }
                },
                None => {
                    return false;
                },
            }
        }
        let pf: Option<String> = match &self.process_name {
            Some(f) => Some(to_lowercase(f.as_str())),
            None => None,
        };
        if let Some(f) = &pf {
            match win_process {
                Some(n) => {
                    let ln = to_lowercase(n);
                    if !same_text(&ln, f) {
                        return false;
                    }
                },
                None => {
                    return false;
                },
            }
        }
        match launch {
            None => true,
            Some(ctx) => {
                let applies = match &pf {
                    Some(f) => same_text(f, &ctx.process_name),
                    None => true,
                };
                if !applies {
                    return true;
                }
                match ctx.wait {
                    LaunchWait::NewPid => match win_pid {
                        Some(q) => q == ctx.pid,
                        None => false,
                    },
                    LaunchWait::NewWindow => match win_hwnd {
                        Some(h) => !ctx.pre_hwnds.contains(&h),
                        None => false,
                    },
                    LaunchWait::MatchAny => true,
                }
            },
        }
    }
}

pub open spec fn hwnd_at(z_order: Seq<u64>, h: u64) -> spec_fn(int) -> bool {
    |i: int| z_order[i] == h
}

/// Position of `hwnd` in the Z-order (topmost first); `usize::MAX` when it
/// is absent or unknown.
pub open spec fn z_rank(z_order: Seq<u64>, hwnd: Option<u64>) -> int {
    match hwnd {
        None => usize::MAX as int,
        Some(h) => {
            let i = first_idx(0, z_order.len() as int, hwnd_at(z_order, h));
            if i < z_order.len() {
                i
            } else {
                usize::MAX as int
            }
        },
    }
}

fn rank_of(z_order: &Vec<u64>, hwnd: Option<u64>) -> (r: usize)
    ensures
        r as int == z_rank(z_order@, hwnd),
{
    match hwnd {
        None => usize::MAX,
        Some(h) => {
            let mut i: usize = 0;
            while i < z_order.len()
                invariant
                    hwnd == Some(h),
                    i <= z_order.len(),
                    forall|j: int| 0 <= j < i ==> z_order@[j] != h,
                decreases z_order.len() - i,
            {
                if z_order[i] == h {
                    proof {
                        lemma_first_idx(0, z_order@.len() as int, hwnd_at(z_order@, h), i as int);
                    }
                    return i;
                }
                i = i + 1;
            }
            proof {
                lemma_first_idx(0, z_order@.len() as int, hwnd_at(z_order@, h), i as int);
            }
            usize::MAX
        },
    }
}

/// Among candidate windows (given by their handles, in discovery order), the
/// one whose Z-order rank is lowest, earliest on ties; `None` when there are
/// no candidates. This is the candidate a stable sort by rank puts first.
pub fn topmost_candidate(z_order: &Vec<u64>, hwnds: &Vec<Option<u64>>) -> (r: Option<usize>)
    ensures
        hwnds@.len() == 0 <==> r is None,
        r matches Some(i) ==> {
            &&& i < hwnds@.len()
            &&& forall|j: int| 0 <= j < hwnds@.len() ==> z_rank(z_order@, hwnds@[i as int]) <= z_rank(z_order@, #[trigger] hwnds@[j])
            &&& forall|j: int| 0 <= j < i ==> z_rank(z_order@, hwnds@[i as int]) < z_rank(z_order@, #[trigger] hwnds@[j])
        },
{
    if hwnds.len() == 0 {
        return None;
    }
    let mut best: usize = 0;
    let mut best_rank = rank_of(z_order, hwnds[0]);
    let mut i: usize = 1;
    while i < hwnds.len()
        invariant
            1 <= i <= hwnds@.len(),
            best < i,
            best_rank as int == z_rank(z_order@, hwnds@[best as int]),
            forall|j: int| 0 <= j < i ==> best_rank <= z_rank(z_order@, #[trigger] hwnds@[j]),
            forall|j: int| 0 <= j < best ==> best_rank < z_rank(z_order@, #[trigger] hwnds@[j]),
        decreases hwnds@.len() - i,
    {
        let r = rank_of(z_order, hwnds[i]);
        if r < best_rank {
            best = i;
            best_rank = r;
        }
        i = i + 1;
    }
    Some(best)
}

// ── Waiting for a launched application ───────────────────────────────────────

/// Whether a window (process id, process name, handle) shows that a launch
/// has produced its window: for `NewPid`, a window of the launched process;
/// for `NewWindow`, a window of the expected process (`process_name`,
/// lowercase) whose handle did not exist before; `MatchAny` does not wait.
pub open spec fn launch_window_seen(
    wait: LaunchWait,
    pid: u32,
    pre: Set<u64>,
    process_name: Seq<char>,
    win: (Option<u32>, Option<Seq<char>>, Option<u64>),
) -> bool {
    match wait {
        LaunchWait::NewPid => win.0 == Some(pid),
        LaunchWait::NewWindow => win.1 is Some && lowercase(win.1->0) == process_name && win.2 is Some
            && !pre.contains(win.2->0),
        LaunchWait::MatchAny => true,
    }
}

pub open spec fn window_view(w: (Option<u32>, Option<String>, Option<u64>)) -> (Option<u32>, Option<Seq<char>>, Option<u64>) {
    (w.0, opt_string_view(w.1), w.2)
}

/// Whether any of `windows` shows the launched application's window (see
/// `launch_window_seen`).
pub fn launch_window_found(
    wait: LaunchWait,
    pid: u32,
    pre_hwnds: &HashSet<u64>,
    process_name: &str,
    windows: &Vec<(Option<u32>, Option<String>, Option<u64>)>,
) -> (r: bool)
    ensures
        r == exists|i: int|
            0 <= i < windows@.len() && #[trigger] launch_window_seen(
                wait,
                pid,
                pre_hwnds@,
                process_name@,
                window_view(windows@[i]),
            ),
{
    let expected = process_name.to_string();
    let mut i: usize = 0;
    while i < windows.len()
        invariant
            i <= windows@.len(),
            expected@ == process_name@,
            forall|j: int|
                0 <= j < i ==> !#[trigger] launch_window_seen(
                    wait,
                    pid,
                    pre_hwnds@,
                    process_name@,
                    window_view(windows@[j]),
                ),
        decreases windows@.len() - i,
    {
        let w = &windows[i];
        let seen = match wait {
            LaunchWait::NewPid => match w.0 {
                Some(p) => p == pid,
                None => false,
            },
            LaunchWait::NewWindow => match (&w.1, w.2) {
                (Some(n), Some(h)) => same_text(&to_lowercase(n.as_str()), &expected) && !pre_hwnds.contains(&h),
                _ => false,
            },
            LaunchWait::MatchAny => true,
        };
        if seen {
            assert(launch_window_seen(wait, pid, pre_hwnds@, process_name@, window_view(windows@[i as int])));
            return true;
        }
        i = i + 1;
    }
    false
}

} // verus!
