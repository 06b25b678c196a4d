use std::collections::HashSet;

use ui_automata::registry::{launch_window_found, topmost_candidate, AnchorDef, LaunchContext, LaunchWait, Tier};
use ui_automata::selector::SelectorPath;

fn sel(s: &str) -> SelectorPath {
    SelectorPath::parse(s).unwrap()
}

#[test]
fn anchor_def_constructors() {
    let r = AnchorDef::root("app", sel("[name=App]"));
    assert_eq!(r.name, "app");
    assert_eq!(r.tier, Tier::Root);
    assert!(r.parent.is_none());
    assert_eq!(r.selector.to_string(), "[name=App]");
    let s = AnchorDef::session("dlg", sel("Window"));
    assert_eq!(s.tier, Tier::Session);
    let st = AnchorDef::stable("tb", "app", sel(">> ToolBar"));
    assert_eq!(st.tier, Tier::Stable);
    assert_eq!(st.parent.as_deref(), Some("app"));
    let e = AnchorDef::ephemeral("row", "tb", sel(">> Button"));
    assert_eq!(e.tier, Tier::Ephemeral);
    assert_eq!(e.parent.as_deref(), Some("tb"));
    assert_eq!(e.mount_depth, 0);
}

#[test]
fn anchor_def_with_pid_keeps_the_rest() {
    let r = AnchorDef::root("app", sel("[name=App]")).with_pid(77);
    assert_eq!(r.pid, Some(77));
    assert_eq!(r.name, "app");
    assert_eq!(r.tier, Tier::Root);
}

#[test]
fn launch_wait_default_is_match_any() {
    assert_eq!(LaunchWait::default(), LaunchWait::MatchAny);
}

fn ctx(wait: LaunchWait, pid: u32, pre: &[u64], name: &str) -> LaunchContext {
    LaunchContext {
        wait,
        pid,
        pre_hwnds: pre.iter().copied().collect::<HashSet<u64>>(),
        process_name: name.to_string(),
    }
}

#[test]
fn admits_window_pid_filter() {
    let a = AnchorDef::root("app", sel("*")).with_pid(10);
    assert!(a.admits_window(None, Some(10), None, None));
    assert!(!a.admits_window(None, Some(11), None, None));
    assert!(!a.admits_window(None, None, None, None));
}

#[test]
fn admits_window_process_filter_ignores_case() {
    let mut a = AnchorDef::root("app", sel("*"));
    a.process_name = Some("Notepad".to_string());
    assert!(a.admits_window(None, Some(1), Some("NOTEPAD"), None));
    assert!(!a.admits_window(None, Some(1), Some("calc"), None));
    assert!(!a.admits_window(None, Some(1), None, None));
}

#[test]
fn admits_window_new_pid_launch() {
    let a = AnchorDef::root("app", sel("*"));
    let c = ctx(LaunchWait::NewPid, 42, &[], "notepad");
    assert!(a.admits_window(Some(&c), Some(42), Some("notepad"), Some(1)));
    assert!(!a.admits_window(Some(&c), Some(41), Some("notepad"), Some(1)));
}

#[test]
fn admits_window_new_window_launch() {
    let a = AnchorDef::root("app", sel("*"));
    let c = ctx(LaunchWait::NewWindow, 42, &[100, 200], "notepad");
    assert!(!a.admits_window(Some(&c), Some(1), None, Some(100)));
    assert!(a.admits_window(Some(&c), Some(1), None, Some(300)));
    assert!(!a.admits_window(Some(&c), Some(1), None, None));
}

#[test]
fn admits_window_launch_filter_skips_other_process() {
    let mut a = AnchorDef::root("other", sel("*"));
    a.process_name = Some("explorer".to_string());
    let c = ctx(LaunchWait::NewPid, 42, &[], "notepad");
    assert!(a.admits_window(Some(&c), Some(7), Some("explorer"), None));
    let mut b = AnchorDef::root("same", sel("*"));
    b.process_name = Some("Notepad".to_string());
    assert!(!b.admits_window(Some(&c), Some(7), Some("notepad"), None));
}

#[test]
fn admits_window_match_any_launch() {
    let a = AnchorDef::root("app", sel("*"));
    let c = ctx(LaunchWait::MatchAny, 42, &[1], "notepad");
    assert!(a.admits_window(Some(&c), None, None, None));
}

#[test]
fn topmost_candidate_prefers_lowest_rank() {
    let z = vec![30u64, 10, 20];
    assert_eq!(topmost_candidate(&z, &vec![Some(10), Some(20), Some(30)]), Some(2));
    assert_eq!(topmost_candidate(&z, &vec![Some(20), Some(10)]), Some(1));
    assert_eq!(topmost_candidate(&z, &vec![]), None);
}

#[test]
fn topmost_candidate_unknown_ranks_last_earliest_on_ties() {
    let z = vec![5u64];
    assert_eq!(topmost_candidate(&z, &vec![None, Some(99), Some(5)]), Some(2));
    assert_eq!(topmost_candidate(&z, &vec![None, Some(99)]), Some(0));
}

#[test]
fn launch_window_found_strategies() {
    let pre: HashSet<u64> = [1u64, 2].into_iter().collect();
    let wins = vec![
        (Some(10u32), Some("Notepad".to_string()), Some(1u64)),
        (Some(11u32), Some("NOTEPAD".to_string()), Some(3u64)),
    ];
    assert!(launch_window_found(LaunchWait::NewPid, 11, &pre, "notepad", &wins));
    assert!(!launch_window_found(LaunchWait::NewPid, 12, &pre, "notepad", &wins));
    assert!(launch_window_found(LaunchWait::NewWindow, 0, &pre, "notepad", &wins));
    assert!(!launch_window_found(LaunchWait::NewWindow, 0, &pre, "calc", &wins));
    let only_old = vec![(Some(10u32), Some("notepad".to_string()), Some(2u64))];
    assert!(!launch_window_found(LaunchWait::NewWindow, 0, &pre, "notepad", &only_old));
    assert!(launch_window_found(LaunchWait::MatchAny, 0, &pre, "x", &only_old));
    assert!(!launch_window_found(LaunchWait::MatchAny, 0, &pre, "x", &vec![]));
}
