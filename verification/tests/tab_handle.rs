use ui_automata::error::AutomataError;
use ui_automata::platform::TabInfo;
use ui_automata::selector::SelectorPath;
use ui_automata::tab_handle::TabHandle;

fn tab(id: &str, title: &str, url: &str) -> (String, TabInfo) {
    (id.to_string(), TabInfo { title: title.to_string(), url: url.to_string() })
}

fn handle() -> TabHandle {
    TabHandle {
        tab_id: "T1".into(),
        parent_browser: "browser".into(),
        created: true,
        depth: 0,
    }
}

#[test]
fn blank_tab_finds_new_tab_pages() {
    let tabs = vec![
        tab("a", "Docs", "https://docs.rs"),
        tab("b", "New Tab", "edge://newtab/"),
        tab("c", "", "about:blank"),
    ];
    assert_eq!(TabHandle::blank_tab(&tabs), Some(1));
    assert_eq!(TabHandle::blank_tab(&vec![tab("x", "", "")]), Some(0));
    assert_eq!(TabHandle::blank_tab(&vec![tab("x", "Docs", "https://x")]), None);
}

#[test]
fn matching_tab_by_title_and_url() {
    let tabs = vec![
        tab("a", "Inbox", "https://mail.example.com"),
        tab("b", "Sales Dashboard", "https://app.example.com/dash"),
    ];
    let by_title = SelectorPath::parse("[title~=dashboard]").unwrap();
    assert_eq!(TabHandle::matching_tab(&by_title, &tabs), Some(1));
    let by_url = SelectorPath::parse("[url^=https://MAIL]").unwrap();
    assert_eq!(TabHandle::matching_tab(&by_url, &tabs), Some(0));
    let none = SelectorPath::parse("[name=Nope]").unwrap();
    assert_eq!(TabHandle::matching_tab(&none, &tabs), None);
    let role_only = SelectorPath::parse("[role=document]").unwrap();
    assert_eq!(TabHandle::matching_tab(&role_only, &tabs), Some(0));
}

#[test]
fn scoped_selector_when_visible() {
    let sel = SelectorPath::parse("[role=button][name=Go]").unwrap();
    let (b, p) = handle().scoped_selector_from(Ok("visible".into()), &sel).unwrap();
    assert_eq!(b, "browser");
    assert_eq!(p.to_string(), "[id=RootWebArea] >> [role=button][name=Go]");
}

#[test]
fn scoped_selector_refused_when_hidden() {
    let sel = SelectorPath::parse("[role=button]").unwrap();
    match handle().scoped_selector_from(Ok("hidden".into()), &sel) {
        Err(AutomataError::Internal(m)) => assert_eq!(
            m,
            "tab 'T1' is not the active tab (visibilityState=\"hidden\")"
        ),
        other => panic!("unexpected {other:?}"),
    }
    match handle().scoped_selector_from(Err(AutomataError::Platform("cdp".into())), &sel) {
        Err(AutomataError::Internal(m)) => assert_eq!(
            m,
            "tab 'T1' is not the active tab (visibilityState=\"\")"
        ),
        other => panic!("unexpected {other:?}"),
    }
}
