use ui_automata::registry::AnchorDef;
use ui_automata::selector::SelectorPath;
use ui_automata::shadow_dom::AnchorRegistry;
use ui_automata::snapshot::{diff_children, SnapNode, SNAP_DEPTH};

fn leaf(role: &str, name: &str) -> SnapNode {
    SnapNode { role: role.into(), name: name.into(), text: None, children: vec![] }
}

fn node(role: &str, name: &str, children: Vec<SnapNode>) -> SnapNode {
    SnapNode { role: role.into(), name: name.into(), text: None, children }
}

#[test]
fn snapshot_depth_constant() {
    assert_eq!(SNAP_DEPTH, 2);
}

#[test]
fn format_tree_indents_children() {
    let t = node(
        "window",
        "Notepad",
        vec![node("menu", "Format", vec![leaf("menu item", "Word Wrap")]), leaf("pane", "")],
    );
    assert_eq!(
        t.format_tree(0),
        "[window \"Notepad\"]\n  [menu \"Format\"]\n    [menu item \"Word Wrap\"]\n  [pane]"
    );
    assert_eq!(leaf("pane", "").format_tree(2), "    [pane]");
}

#[test]
fn format_tree_shows_text_that_differs_from_name() {
    let mut t = leaf("text", "Ln 1");
    t.text = Some("Ln 1, Col 5".into());
    assert_eq!(t.format_tree(0), "[text \"Ln 1\"]: \"Ln 1, Col 5\"");
    t.text = Some("Ln 1".into());
    assert_eq!(t.format_tree(0), "[text \"Ln 1\"]");
    t.text = Some(String::new());
    assert_eq!(t.format_tree(0), "[text \"Ln 1\"]");
}

#[test]
fn diff_stable_tree_reports_nothing() {
    let a = vec![leaf("button", "OK"), leaf("button", "Cancel")];
    let b = vec![leaf("button", "OK"), leaf("button", "Cancel")];
    let mut out = Vec::new();
    diff_children("app", &a, &b, &mut out);
    assert!(out.is_empty());
}

#[test]
fn diff_reports_added_child_with_subtree() {
    let a = vec![leaf("button", "OK")];
    let b = vec![leaf("dialog", "Save"), leaf("button", "OK")];
    let mut out = Vec::new();
    diff_children("app", &a, &b, &mut out);
    assert_eq!(out, vec!["dom: app: ADDED\n[dialog \"Save\"]".to_string()]);
}

#[test]
fn diff_reports_removed_child() {
    let a = vec![leaf("menu", "Format"), leaf("button", "OK")];
    let b = vec![leaf("button", "OK")];
    let mut out = vec!["earlier".to_string()];
    diff_children("notepad", &a, &b, &mut out);
    assert_eq!(
        out,
        vec!["earlier".to_string(), "dom: notepad: REMOVED [menu \"Format\"]".to_string()]
    );
}

#[test]
fn diff_pairs_one_remove_one_add_of_same_role_as_changed() {
    let a = vec![leaf("text", "Ln 1, Col 1")];
    let b = vec![leaf("text", "Ln 1, Col 2")];
    let mut out = Vec::new();
    diff_children("status", &a, &b, &mut out);
    assert_eq!(
        out,
        vec!["dom: status: CHANGED [text \"Ln 1, Col 1\"] → [text \"Ln 1, Col 2\"]".to_string()]
    );
}

#[test]
fn diff_recurses_into_matched_children() {
    let a = vec![node("menu", "Format", vec![])];
    let b = vec![node("menu", "Format", vec![leaf("menu item", "Font...")])];
    let mut out = Vec::new();
    diff_children("notepad", &a, &b, &mut out);
    assert_eq!(
        out,
        vec!["dom: notepad > [menu \"Format\"]: ADDED\n[menu item \"Font...\"]".to_string()]
    );
}

#[test]
fn diff_indexes_repeated_siblings() {
    let a = vec![
        node("row", "", vec![leaf("cell", "a")]),
        node("row", "", vec![leaf("cell", "b")]),
    ];
    let b = vec![
        node("row", "", vec![leaf("cell", "a")]),
        node("row", "", vec![leaf("cell", "b"), leaf("cell", "c")]),
    ];
    let mut out = Vec::new();
    diff_children("grid", &a, &b, &mut out);
    assert_eq!(out, vec!["dom: grid > [row][1]: ADDED\n[cell \"c\"]".to_string()]);
}

#[test]
fn diff_keys_in_sorted_order() {
    let a: Vec<SnapNode> = vec![];
    let b = vec![leaf("zeta", ""), leaf("alpha", "")];
    let mut out = Vec::new();
    diff_children("p", &a, &b, &mut out);
    assert_eq!(
        out,
        vec!["dom: p: ADDED\n[alpha]".to_string(), "dom: p: ADDED\n[zeta]".to_string()]
    );
}

#[test]
fn diff_into_reports_root_name_and_text_changes() {
    let old = leaf("window", "Untitled - Notepad");
    let new = leaf("window", "*Untitled - Notepad");
    let mut out = Vec::new();
    old.diff_into(&new, "notepad", &mut out);
    assert_eq!(
        out,
        vec!["dom: notepad: name \"Untitled - Notepad\" → \"*Untitled - Notepad\"".to_string()]
    );

    let mut t_old = leaf("text", "x");
    t_old.text = Some("one".into());
    let mut t_new = leaf("text", "x");
    t_new.text = Some("two".into());
    let mut out2 = Vec::new();
    t_old.diff_into(&t_new, "s", &mut out2);
    assert_eq!(out2, vec!["dom: s: text Some(\"one\") → Some(\"two\")".to_string()]);

    let mut m_old = leaf("text", "a");
    m_old.text = Some("a".into());
    let mut m_new = leaf("text", "b");
    m_new.text = Some("b".into());
    let mut out3 = Vec::new();
    m_old.diff_into(&m_new, "s", &mut out3);
    assert_eq!(out3, vec!["dom: s: name \"a\" → \"b\"".to_string()]);
}

#[test]
fn diff_changed_pair_recurses_with_role_path() {
    let a = vec![node("group", "old", vec![leaf("x", "1")])];
    let b = vec![node("group", "new", vec![leaf("x", "2")])];
    let mut out = Vec::new();
    diff_children("p", &a, &b, &mut out);
    assert_eq!(
        out,
        vec![
            "dom: p: CHANGED [group \"old\"] → [group \"new\"]".to_string(),
            "dom: p > [group]: CHANGED [x \"1\"] → [x \"2\"]".to_string(),
        ]
    );
}

// ── Anchor syncs: the window `win` captured to the snapshot depth ─────────────

fn text_leaf(name: &str) -> SnapNode {
    SnapNode { role: "text".into(), name: name.into(), text: Some(name.into()), children: vec![] }
}

fn window(children: Vec<SnapNode>) -> SnapNode {
    node("window", "App", children)
}

/// A registry with the root anchor `win` resolved to `tree`.
fn mounted(tree: SnapNode) -> AnchorRegistry<u32> {
    let mut r: AnchorRegistry<u32> = AnchorRegistry::new();
    r.register(vec![AnchorDef::root("win", SelectorPath::parse("[name=App]").unwrap())]);
    let key = r.effective_key("win");
    r.record_resolved(&key, 1, tree, None);
    r
}

fn has_added(changes: &[String], label: &str) -> bool {
    changes.iter().any(|c| c.contains("ADDED") && c.contains(label))
}

fn has_removed(changes: &[String], label: &str) -> bool {
    changes.iter().any(|c| c.contains("REMOVED") && c.contains(label))
}

#[test]
fn no_changes_when_tree_is_stable() {
    let tree = || window(vec![leaf("button", "OK")]);
    let mut r = mounted(tree());
    let changes = r.sync_snapshot("win", tree());
    assert!(changes.is_empty(), "expected no changes, got: {changes:#?}");
    let changes = r.sync_snapshot("win", tree());
    assert!(changes.is_empty(), "expected no changes on second sync, got: {changes:#?}");
}

#[test]
fn detects_child_added() {
    let mut r = mounted(window(vec![]));
    let changes = r.sync_snapshot("win", window(vec![leaf("button", "OK")]));
    assert!(!changes.is_empty(), "expected changes");
    assert!(has_added(&changes, "button"), "expected ADDED button, got: {changes:#?}");
    assert!(has_added(&changes, "OK"), "expected 'OK' in ADDED line, got: {changes:#?}");
}

#[test]
fn detects_child_removed() {
    let mut r = mounted(window(vec![leaf("button", "OK")]));
    let changes = r.sync_snapshot("win", window(vec![]));
    assert!(!changes.is_empty(), "expected changes");
    assert!(has_removed(&changes, "button"), "expected REMOVED button, got: {changes:#?}");
}

#[test]
fn popup_prepended_only_reports_new_element() {
    let edit = || leaf("edit", "Text Editor");
    let mut r = mounted(window(vec![edit()]));
    let popup = node("menu", "Format", vec![leaf("menu item", "Font...")]);
    let changes = r.sync_snapshot("win", window(vec![popup, edit()]));
    assert!(has_added(&changes, "menu"), "expected ADDED menu, got: {changes:#?}");
    assert!(has_added(&changes, "Font"), "expected ADDED menu item, got: {changes:#?}");
    assert!(
        !changes.iter().any(|c| c.contains("edit")),
        "edit should not appear in changes (it was already present): {changes:#?}",
    );
}

#[test]
fn popup_removed_after_dismiss() {
    let edit = || leaf("edit", "Text Editor");
    let popup = node("menu", "Format", vec![leaf("menu item", "Font...")]);
    let mut r = mounted(window(vec![popup, edit()]));
    let changes = r.sync_snapshot("win", window(vec![edit()]));
    assert!(has_removed(&changes, "menu"), "expected REMOVED menu, got: {changes:#?}");
    assert!(!changes.iter().any(|c| c.contains("edit")), "edit should not appear in changes: {changes:#?}");
}

#[test]
fn nth_of_kind_add() {
    let mut r = mounted(window(vec![leaf("button", "Item"), leaf("button", "Item")]));
    let changes =
        r.sync_snapshot("win", window(vec![leaf("button", "Item"), leaf("button", "Item"), leaf("button", "Item")]));
    let added: Vec<_> = changes.iter().filter(|c| c.contains("ADDED")).collect();
    let removed: Vec<_> = changes.iter().filter(|c| c.contains("REMOVED")).collect();
    assert_eq!(added.len(), 1, "expected 1 ADDED, got: {changes:#?}");
    assert!(removed.is_empty(), "expected no REMOVED, got: {changes:#?}");
}

#[test]
fn grandchild_added_detected() {
    let mut r = mounted(window(vec![node("toolbar", "Main", vec![])]));
    let changes = r.sync_snapshot("win", window(vec![node("toolbar", "Main", vec![leaf("button", "Open")])]));
    assert!(has_added(&changes, "button"), "expected ADDED button, got: {changes:#?}");
    assert!(has_added(&changes, "Open"), "expected 'Open' in ADDED, got: {changes:#?}");
}

#[test]
fn child_name_change_collapses_to_changed() {
    let mut r = mounted(window(vec![node("status bar", "Status Bar", vec![text_leaf("  Ln 1, Col 12")])]));
    let changes = r.sync_snapshot("win", window(vec![node("status bar", "Status Bar", vec![text_leaf("  Ln 2, Col 14")])]));
    assert!(!changes.is_empty(), "expected a change event");
    let changed: Vec<_> = changes.iter().filter(|c| c.contains("→")).collect();
    assert_eq!(changed.len(), 1, "expected one name-change event, got: {changes:#?}");
    assert!(changed[0].contains("Ln 1"), "expected old name in change: {changed:#?}");
    assert!(changed[0].contains("Ln 2"), "expected new name in change: {changed:#?}");
    let removed: Vec<_> = changes.iter().filter(|c| c.contains("REMOVED")).collect();
    let added: Vec<_> = changes.iter().filter(|c| c.contains("ADDED")).collect();
    assert!(removed.is_empty(), "expected no REMOVED, got: {changes:#?}");
    assert!(added.is_empty(), "expected no ADDED, got: {changes:#?}");
}

#[test]
fn changes_not_repeated_on_next_sync() {
    let mut r = mounted(window(vec![]));
    let first = r.sync_snapshot("win", window(vec![leaf("button", "OK")]));
    assert!(!first.is_empty(), "expected changes on first sync");
    let second = r.sync_snapshot("win", window(vec![leaf("button", "OK")]));
    assert!(second.is_empty(), "changes should not repeat: {second:#?}");
}

#[test]
fn inserting_a_fresh_sibling_reports_only_it() {
    let old = vec![leaf("button", "A"), leaf("button", "B"), leaf("edit", "C")];
    let new = vec![
        leaf("button", "A"),
        node("menu", "Tools", vec![leaf("menu item", "Options")]),
        leaf("button", "B"),
        leaf("edit", "C"),
    ];
    let mut out = Vec::new();
    diff_children("app", &old, &new, &mut out);
    assert_eq!(out, vec!["dom: app: ADDED\n[menu \"Tools\"]\n  [menu item \"Options\"]".to_string()]);
    let mut back = Vec::new();
    diff_children("app", &new, &old, &mut back);
    assert_eq!(back, vec!["dom: app: REMOVED [menu \"Tools\"]".to_string()]);
}

#[test]
fn renamed_sibling_is_one_change_with_its_inner_changes() {
    let old = vec![leaf("button", "A"), node("pane", "One", vec![leaf("item", "a")]), leaf("edit", "C")];
    let new = vec![
        leaf("button", "A"),
        node("pane", "Two", vec![leaf("item", "a"), leaf("item", "b")]),
        leaf("edit", "C"),
    ];
    let mut out = Vec::new();
    diff_children("app", &old, &new, &mut out);
    assert_eq!(
        out,
        vec![
            "dom: app: CHANGED [pane \"One\"] → [pane \"Two\"]".to_string(),
            "dom: app > [pane]: ADDED\n[item \"b\"]".to_string(),
        ]
    );
}

#[test]
fn equal_copies_report_no_changes() {
    let leaf = |role: &str, name: &str| SnapNode { role: role.to_string(), name: name.to_string(), text: None, children: vec![] };
    let tree = || SnapNode {
        role: "pane".to_string(),
        name: "Root".to_string(),
        text: None,
        children: vec![leaf("button", "OK"), leaf("button", "OK"), leaf("text", "hi")],
    };
    let mut out: Vec<String> = Vec::new();
    tree().diff_into(&tree(), "Root", &mut out);
    assert!(out.is_empty());
}
