use ui_automata::registry::{AnchorDef, Tier};
use ui_automata::selector::SelectorPath;
use ui_automata::shadow_dom::AnchorRegistry;
use ui_automata::snapshot::SnapNode;
use ui_automata::tab_handle::TabHandle;

fn sel(s: &str) -> SelectorPath {
    SelectorPath::parse(s).unwrap()
}

fn snap() -> SnapNode {
    SnapNode { role: "window".into(), name: "App".into(), text: None, children: vec![] }
}

fn registry() -> AnchorRegistry<u32> {
    let mut r: AnchorRegistry<u32> = AnchorRegistry::new();
    let keys = r.register(vec![
        AnchorDef::root("app", sel("[name=App]")),
        AnchorDef::session("dlg", sel("[name=Dialog]")),
        AnchorDef::stable("toolbar", "app", sel(">> ToolBar")),
        AnchorDef::stable("button", "toolbar", sel(">> Button")),
        AnchorDef::stable("field", "dlg", sel(">> Edit")),
    ]);
    assert_eq!(keys.len(), 5);
    r
}

#[test]
fn register_at_depth_zero_uses_names() {
    let r = registry();
    assert!(r.defs.contains("app"));
    assert!(r.defs.contains("toolbar"));
    assert_eq!(r.defs.get("button").unwrap().mount_depth, 0);
    assert_eq!(r.effective_key("toolbar"), "toolbar");
}

#[test]
fn register_deeper_prefixes_scoped_anchors_only() {
    let mut r = registry();
    r.depth = 2;
    let keys = r.register(vec![
        AnchorDef::root("app", sel("[name=Other]")),
        AnchorDef::root("second", sel("[name=Second]")),
        AnchorDef::stable("toolbar", "app", sel(">> ToolBar")),
    ]);
    let shown: Vec<(String, Tier)> = keys.into_iter().collect();
    assert_eq!(
        shown,
        vec![("second".to_string(), Tier::Root), ("::toolbar".to_string(), Tier::Stable)]
    );
    // The parent's root anchor wins.
    assert_eq!(r.defs.get("app").unwrap().selector.to_string(), "[name=App]");
    assert_eq!(r.defs.get("second").unwrap().mount_depth, 2);
    assert_eq!(r.prefixed("x"), "::x");
    assert_eq!(r.effective_key("toolbar"), "::toolbar");
    assert_eq!(r.effective_key("app"), "app");
}

#[test]
fn invalidate_session_drops_dependents() {
    let mut r = registry();
    for (i, k) in ["app", "dlg", "toolbar", "button", "field"].iter().enumerate() {
        r.record_resolved(k, i as u32, snap(), Some((Some(100 + i as u64), 7)));
    }
    r.nodes.set_found("field", "sel".to_string(), 9, None);
    r.invalidate_session("dlg");
    assert!(r.nodes.element("dlg").is_none());
    assert!(r.nodes.element("field").is_none());
    assert!(r.nodes.found("field", "sel").is_none());
    assert!(!r.locks.contains("field"));
    assert!(!r.snapshots.contains("dlg"));
    assert_eq!(r.nodes.element("app"), Some(&0));
    assert_eq!(r.nodes.element("button"), Some(&3));
    assert!(r.defs.contains("field"));
}

#[test]
fn invalidate_root_reaches_grandchildren() {
    let mut r = registry();
    for k in ["app", "toolbar", "button", "field"] {
        r.record_resolved(k, 1, snap(), None);
    }
    r.invalidate_session("app");
    assert!(r.nodes.element("toolbar").is_none());
    assert!(r.nodes.element("button").is_none());
    assert!(r.nodes.element("field").is_some());
}

#[test]
fn unmount_forgets_scoped_anchor_and_keeps_shared() {
    let mut r = registry();
    r.record_resolved("toolbar", 5, snap(), Some((None, 3)));
    r.record_resolved("app", 6, snap(), None);
    let closed = r.unmount(&vec!["toolbar".to_string(), "app".to_string()]);
    assert!(closed.is_empty());
    assert!(!r.defs.contains("toolbar"));
    assert!(r.nodes.element("toolbar").is_none());
    assert!(!r.locks.contains("toolbar"));
    assert!(!r.snapshots.contains("toolbar"));
    assert!(r.defs.contains("app"));
    assert!(r.nodes.element("app").is_some());
}

#[test]
fn unmount_returns_tabs() {
    let mut r: AnchorRegistry<u32> = AnchorRegistry::new();
    r.depth = 1;
    let mut tab = AnchorDef::stable("t", "browser", SelectorPath::wildcard());
    tab.tier = Tier::Tab;
    r.register(vec![tab]);
    let h = TabHandle { tab_id: "CDP1".into(), parent_browser: "browser".into(), created: true, depth: 1 };
    r.tab_handles.insert(":t".to_string(), h);
    assert_eq!(r.tab_handle("t").map(|h| h.tab_id.as_str()), Some("CDP1"));
    assert_eq!(r.tab_parent(":t"), Some("browser".to_string()));
    let closed = r.unmount(&vec!["t".to_string()]);
    assert_eq!(closed.len(), 1);
    assert_eq!(closed[0].0, ":t");
    assert_eq!(closed[0].1.tab_id, "CDP1");
    assert!(r.tab_handle("t").is_none());
}

#[test]
fn cleanup_depth_removes_that_depth_only() {
    let mut r = registry();
    r.depth = 1;
    r.register(vec![
        AnchorDef::stable("child", "app", sel(">> Pane")),
        AnchorDef::root("child_root", sel("[name=Child]")),
    ]);
    r.record_resolved(":child", 1, snap(), None);
    r.insert("capture", 2);
    r.depth = 2;
    r.insert("deeper", 3);
    r.record_resolved("toolbar", 4, snap(), None);
    let h = TabHandle { tab_id: "X".into(), parent_browser: "b".into(), created: false, depth: 1 };
    r.tab_handles.insert(":tab".to_string(), h);
    let closed = r.cleanup_depth(1);
    assert_eq!(closed.len(), 1);
    assert!(!r.defs.contains(":child"));
    assert!(!r.defs.contains("child_root"));
    assert!(r.nodes.element(":child").is_none());
    assert!(r.nodes.element(":capture").is_none());
    assert!(r.nodes.element("::deeper").is_some());
    assert!(r.nodes.element("toolbar").is_some());
    assert!(r.defs.contains("toolbar"));
    assert!(r.tab_handles.get(":tab").is_none());
}

#[test]
fn anchor_pid_prefers_lock() {
    let mut r: AnchorRegistry<u32> = AnchorRegistry::new();
    r.register(vec![AnchorDef::root("app", sel("*")).with_pid(11)]);
    assert_eq!(r.anchor_pid("app"), Some(11));
    assert_eq!(r.anchor_hwnd("app"), None);
    r.record_resolved("app", 0, snap(), Some((Some(0xABC), 42)));
    assert_eq!(r.anchor_pid("app"), Some(42));
    assert_eq!(r.anchor_hwnd("app"), Some(0xABC));
    assert_eq!(r.anchor_pid("nope"), None);
}

#[test]
fn depends_on_follows_parent_chain() {
    let r = registry();
    let button = r.defs.get("button").unwrap();
    assert!(r.depends_on(button, "app"));
    assert!(r.depends_on(button, "toolbar"));
    assert!(!r.depends_on(button, "dlg"));
}

#[test]
fn depends_on_stops_on_cycle() {
    let mut r: AnchorRegistry<u32> = AnchorRegistry::new();
    r.register(vec![
        AnchorDef::stable("a", "b", sel("*")),
        AnchorDef::stable("b", "a", sel("*")),
    ]);
    let a = r.defs.get("a").unwrap();
    assert!(!r.depends_on(a, "zzz"));
    assert!(r.depends_on(a, "a"));
}

#[test]
fn node_cache_found_results_cleared_with_scope() {
    let mut r: AnchorRegistry<u32> = AnchorRegistry::new();
    r.nodes.insert("scope".to_string(), 1);
    r.nodes.set_found("scope", "[name=X]".to_string(), 2, Some(3));
    assert_eq!(r.nodes.found("scope", "[name=X]"), Some(&2));
    assert_eq!(r.nodes.found_parent("scope", "[name=X]"), Some(&3));
    r.nodes.set_found("scope", "[name=X]".to_string(), 4, None);
    assert_eq!(r.nodes.found_parent("scope", "[name=X]"), None);
    r.nodes.remove_found("scope", "[name=X]");
    assert_eq!(r.nodes.found("scope", "[name=X]"), None);
    r.nodes.set_found("scope", "k".to_string(), 5, None);
    let id = r.nodes.insert("scope".to_string(), 6);
    assert!(id > 0);
    assert_eq!(r.nodes.found("scope", "k"), None);
    assert_eq!(r.nodes.element("scope"), Some(&6));
    assert_eq!(r.nodes.node_id("scope"), Some(id));
    assert!(r.nodes.remove("scope").is_some());
    assert!(r.nodes.anchor_names().is_empty());
}
