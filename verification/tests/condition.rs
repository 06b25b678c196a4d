use ui_automata::condition::{
    combine_exhausted, combine_part, Combine, any_dialog, exec_succeeded, foreground_is_dialog, process_running, state_matches, tab_attrs_hold, tab_state_holds,
    window_active, window_closed, window_with_attribute, TextMatch, TitleMatch, WindowFacts,
};
use ui_automata::error::AutomataError;

#[test]
fn text_match_exact() {
    let m = TextMatch::exact("Save");
    assert!(m.test("Save"));
    assert!(!m.test("Save As"));
    assert!(!m.test("save"));
}

#[test]
fn text_match_contains() {
    let m = TextMatch::contains("ell");
    assert!(m.test("hello"));
    assert!(!m.test("help"));
    assert!(TextMatch::contains("").test(""));
}

#[test]
fn text_match_non_empty() {
    let m = TextMatch::non_empty();
    assert!(m.test("x"));
    assert!(!m.test(""));
}

#[test]
fn text_match_starts_with_field() {
    let m = TextMatch {
        exact: None,
        contains: None,
        starts_with: Some("Pro".to_string()),
        regex: None,
        non_empty: false,
    };
    assert!(m.test("Processing"));
    assert!(!m.test("A Processing"));
}

#[test]
fn text_match_first_field_decides() {
    let m = TextMatch {
        exact: Some("a".to_string()),
        contains: Some("b".to_string()),
        starts_with: None,
        regex: None,
        non_empty: true,
    };
    assert!(m.test("a"));
    assert!(!m.test("b"));
}

#[test]
fn text_match_nothing_set_matches_nothing() {
    let m = TextMatch {
        exact: None,
        contains: None,
        starts_with: None,
        regex: None,
        non_empty: false,
    };
    assert!(!m.test("anything"));
    assert!(!m.test(""));
}

#[test]
fn text_match_regex() {
    let m = TextMatch {
        exact: None,
        contains: None,
        starts_with: None,
        regex: Some(r"^\d+ items?$".to_string()),
        non_empty: false,
    };
    assert!(m.test("3 items"));
    assert!(m.test("1 item"));
    assert!(!m.test("three items"));
}

#[test]
fn text_match_regex_backreference() {
    let m = TextMatch {
        exact: None,
        contains: None,
        starts_with: None,
        regex: Some(r"^(\w+) \1$".to_string()),
        non_empty: false,
    };
    assert!(m.test("go go"));
    assert!(!m.test("go stop"));
}

#[test]
fn text_match_invalid_regex_matches_nothing() {
    let m = TextMatch {
        exact: None,
        contains: None,
        starts_with: None,
        regex: Some("(unclosed".to_string()),
        non_empty: false,
    };
    assert!(!m.test("(unclosed"));
    assert!(!m.test(""));
}

#[test]
fn text_match_verdict_from_given_regex_outcome() {
    let m = TextMatch {
        exact: None,
        contains: None,
        starts_with: None,
        regex: Some("x".to_string()),
        non_empty: false,
    };
    assert!(m.test_with("whatever", Some(true)));
    assert!(!m.test_with("whatever", Some(false)));
    assert!(!m.test_with("whatever", None));
    assert!(TextMatch::exact("a").test_with("a", Some(false)));
}

#[test]
fn title_match_variants() {
    assert!(TitleMatch::exact("Notepad").test("Notepad"));
    assert!(!TitleMatch::exact("Notepad").test("*Notepad"));
    assert!(TitleMatch::contains("Mastercam").test("Mastercam 2024 - part"));
    assert!(!TitleMatch::contains("Mastercam").test("Notepad"));
    assert!(TitleMatch::starts_with("Untitled").test("Untitled - Notepad"));
    assert!(!TitleMatch::starts_with("Untitled").test("*Untitled"));
}

#[test]
fn title_match_nothing_set_is_false() {
    let m = TitleMatch {
        exact: None,
        contains: None,
        starts_with: None,
    };
    assert!(!m.test(""));
}

fn win(name: &str, aid: Option<&str>, pid: Option<u32>, process: Option<&str>, hwnd: Option<u64>) -> WindowFacts {
    WindowFacts {
        name: Some(name.to_string()),
        automation_id: aid.map(|s| s.to_string()),
        process_id: pid,
        process_name: process.map(|s| s.to_string()),
        hwnd,
    }
}

fn desktop_windows() -> Vec<WindowFacts> {
    vec![
        win("Untitled - Notepad", None, Some(100), Some("Notepad.exe"), Some(0x10)),
        win("Mastercam 2024", Some("MainFrame"), Some(200), Some("Mastercam.exe"), Some(0x20)),
    ]
}

#[test]
fn window_with_attribute_filters() {
    let ws = desktop_windows();
    let none: Option<TitleMatch> = None;
    assert!(window_with_attribute(&ws, &Some(TitleMatch::contains("Notepad")), &None, None, &None));
    assert!(window_with_attribute(&ws, &none, &None, None, &Some("mastercam.EXE".to_string())));
    assert!(window_with_attribute(&ws, &none, &Some("MainFrame".to_string()), Some(200), &None));
    // every filter must hold on the same window
    assert!(!window_with_attribute(&ws, &Some(TitleMatch::contains("Notepad")), &None, Some(200), &None));
    assert!(!window_with_attribute(&ws, &none, &Some("Other".to_string()), None, &None));
    // no filters: any window passes, none when there are no windows
    assert!(window_with_attribute(&ws, &none, &None, None, &None));
    assert!(!window_with_attribute(&Vec::new(), &none, &None, None, &None));
}

#[test]
fn process_running_ignores_case() {
    let ws = desktop_windows();
    assert!(process_running(&ws, "notepad.exe"));
    assert!(!process_running(&ws, "calc.exe"));
}

#[test]
fn window_closed_by_hwnd_then_pid() {
    let ws = desktop_windows();
    assert_eq!(window_closed(&ws, Some(0x10), None), Some(false));
    assert_eq!(window_closed(&ws, Some(0x30), Some(100)), Some(true));
    assert_eq!(window_closed(&ws, None, Some(100)), Some(false));
    assert_eq!(window_closed(&ws, None, Some(300)), Some(true));
    assert_eq!(window_closed(&ws, None, None), None);
}

#[test]
fn window_active_needs_known_nonzero_pid() {
    assert!(window_active(Some(7), Some(7)));
    assert!(!window_active(Some(7), Some(8)));
    assert!(!window_active(Some(0), Some(0)));
    assert!(!window_active(None, None));
}

#[test]
fn foreground_dialog_and_title() {
    assert!(foreground_is_dialog("dialog", "Save As", &None));
    assert!(foreground_is_dialog("dialog", "Save As", &Some(TitleMatch::starts_with("Save"))));
    assert!(!foreground_is_dialog("dialog", "Open", &Some(TitleMatch::starts_with("Save"))));
    assert!(!foreground_is_dialog("window", "Save As", &None));
}

#[test]
fn dialog_child_and_item_state() {
    assert!(any_dialog(&vec!["pane".to_string(), "dialog".to_string()]));
    assert!(!any_dialog(&vec!["pane".to_string()]));
    assert!(state_matches(Some(true), None));
    assert!(state_matches(Some(false), Some(false)));
    assert!(!state_matches(Some(false), Some(true)));
    assert!(!state_matches(None, None));
}

#[test]
fn exec_succeeded_outcomes() {
    assert!(matches!(exec_succeeded(&None), Ok(false)));
    assert!(matches!(exec_succeeded(&Some("0".to_string())), Ok(true)));
    match exec_succeeded(&Some("3".to_string())) {
        Err(AutomataError::ConditionFalse(m)) => assert_eq!(m, "exec exited with code 3"),
        _ => panic!("expected ConditionFalse"),
    }
}

#[test]
fn tab_conditions() {
    assert!(tab_attrs_hold(&Some(TextMatch::contains("Docs")), &None, "Rust Docs", "https://doc.rust-lang.org"));
    assert!(!tab_attrs_hold(&None, &Some(TextMatch::exact("about:blank")), "Rust Docs", "https://doc.rust-lang.org"));
    assert!(tab_state_holds("  true\n"));
    assert!(!tab_state_holds("false"));
    assert!(!tab_state_holds("True"));
}

#[test]
fn compound_parts_settle_the_verdict() {
    assert_eq!(combine_part(Combine::AllOf, true), None);
    assert_eq!(combine_part(Combine::AllOf, false), Some(false));
    assert_eq!(combine_part(Combine::AnyOf, true), Some(true));
    assert_eq!(combine_part(Combine::AnyOf, false), None);
    assert!(combine_exhausted(Combine::AllOf));
    assert!(!combine_exhausted(Combine::AnyOf));
}
