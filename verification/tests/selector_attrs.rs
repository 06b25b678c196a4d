use ui_automata::selector::SelectorPath;

fn sel(s: &str) -> SelectorPath {
    SelectorPath::parse(s).unwrap()
}

// An element is given by its role, name and automation id (empty when it
// has none); `matches` tests the selector's first step against it.

#[test]
fn matches_exact_role() {
    assert!(sel("Button").matches_attrs("Button", "Open", ""));
    assert!(!sel("Edit").matches_attrs("Button", "Open", ""));
}

#[test]
fn matches_exact_name() {
    assert!(sel("[name=Open]").matches_attrs("Button", "Open", ""));
    assert!(!sel("[name=Close]").matches_attrs("Button", "Open", ""));
}

#[test]
fn matches_role_and_name() {
    assert!(sel("Button[name=Open]").matches_attrs("Button", "Open", ""));
    assert!(!sel("Edit[name=Open]").matches_attrs("Button", "Open", ""));
}

#[test]
fn matches_contains() {
    assert!(sel("Window[name~=Designer]").matches_attrs("Window", "Vector Designer", ""));
    assert!(!sel("Window[name~=Fusion]").matches_attrs("Window", "Vector Designer", ""));
}

#[test]
fn matches_startswith() {
    assert!(sel("Window[name^=Processing]").matches_attrs("Window", "Processing operations...", ""));
    assert!(!sel("Window[name^=Exporting]").matches_attrs("Window", "Processing operations...", ""));
}

#[test]
fn matches_endswith() {
    assert!(sel("[name$=Save]").matches_attrs("Button", "Don\u{2019}t Save", ""));
    assert!(!sel("[name$=Cancel]").matches_attrs("Button", "Don\u{2019}t Save", ""));
}

#[test]
fn matches_startswith_and_endswith_combined() {
    for name in ["Don\u{2019}t Save", "Don't Save"] {
        assert!(sel("[name^=Don][name$=Save]").matches_attrs("Button", name, ""), "should match Don*Save");
    }
    assert!(!sel("[name^=Don][name$=Save]").matches_attrs("Button", "Save", ""));
    assert!(!sel("[name^=Don][name$=Save]").matches_attrs("Button", "Cancel", ""));
}

#[test]
fn or_exact_matches_first_alternative() {
    assert!(sel("[name=Editor|Designer]").matches_attrs("Window", "Editor", ""));
}

#[test]
fn or_exact_matches_second_alternative() {
    assert!(sel("[name=Editor|Designer]").matches_attrs("Window", "Designer", ""));
}

#[test]
fn or_exact_rejects_neither_alternative() {
    assert!(!sel("[name=Editor|Designer]").matches_attrs("Window", "Lathe", ""));
}

#[test]
fn or_contains_matches_any_substring() {
    assert!(sel("[name~=Editor|Designer]").matches_attrs("Window", "Vector Editor", ""));
    assert!(sel("[name~=Editor|Designer]").matches_attrs("Window", "Vector Designer", ""));
    assert!(!sel("[name~=Editor|Designer]").matches_attrs("Window", "Nothing", ""));
}

#[test]
fn or_startswith_any_prefix() {
    assert!(sel("[name^=Processing|Exporting]").matches_attrs("Window", "Processing NCI data", ""));
    assert!(sel("[name^=Processing|Exporting]").matches_attrs("Window", "Exporting toolpaths", ""));
    assert!(!sel("[name^=Processing|Exporting]").matches_attrs("Window", "Something else", ""));
}

#[test]
fn id_exact_matches() {
    assert!(sel("[id=SplashOverlay]").matches_attrs("Window", "", "SplashOverlay"));
    assert!(!sel("[id=OtherOverlay]").matches_attrs("Window", "", "SplashOverlay"));
}

#[test]
fn automation_id_alias_matches() {
    assert!(sel("[automation_id=SplashOverlay]").matches_attrs("Window", "", "SplashOverlay"));
}

#[test]
fn id_missing_does_not_match() {
    assert!(!sel("[id=SplashOverlay]").matches_attrs("Window", "SplashOverlay", ""));
}

#[test]
fn matching_ignores_ascii_case_of_substring_ops_only() {
    assert!(sel("Window[name~=designer]").matches_attrs("Window", "Vector Designer", ""));
    assert!(!sel("[name=open]").matches_attrs("Button", "Open", ""));
}

#[test]
fn display_round_trips() {
    for text in [
        "Window[title~=Mastercam] >> ToolBar[name=Mastercam] > Group:nth(0)",
        ">> [role=button][name=X]:parent",
        "[name=Editor|Designer]",
        "Pane > *:nth(6)",
    ] {
        let shown = sel(text).to_string();
        assert_eq!(sel(&shown).to_string(), shown);
    }
}

#[test]
fn wildcard_selector() {
    assert!(SelectorPath::wildcard().is_wildcard());
    assert!(sel("*").is_wildcard());
    assert!(!sel("Button").is_wildcard());
    assert!(SelectorPath::wildcard().matches_attrs("any", "thing", ""));
}

#[test]
fn pseudo_classes_in_either_order() {
    let a = sel(">> Button:nth(2):parent");
    let b = sel(">> Button:parent:nth(2)");
    assert_eq!(a.steps()[0].nth, Some(2));
    assert_eq!(a.steps()[0].ascend, 1);
    assert_eq!(b.steps()[0].nth, Some(2));
    assert_eq!(b.steps()[0].ascend, 1);
    let c = sel("Group:nth(1):ancestor(3)");
    let d = sel("Group:ancestor(3):nth(1)");
    assert_eq!(c.steps()[0].nth, Some(1));
    assert_eq!(c.steps()[0].ascend, 3);
    assert_eq!(d.steps()[0].nth, Some(1));
    assert_eq!(d.steps()[0].ascend, 3);
}
