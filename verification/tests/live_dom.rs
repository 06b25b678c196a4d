use std::cell::{Cell, RefCell};
use std::rc::{Rc, Weak};

use ui_automata::error::AutomataError;
use ui_automata::platform::{Browser, TabInfo, UiDesktop};
use ui_automata::registry::AnchorDef;
use ui_automata::search::UiElement;
use ui_automata::selector::SelectorPath;
use ui_automata::shadow_dom::ShadowDom;

// ── An in-memory desktop ──────────────────────────────────────────────────────

struct Inner {
    role: String,
    name: String,
    alive: Cell<bool>,
    children: RefCell<Vec<El>>,
    parent: RefCell<Weak<Inner>>,
}

#[derive(Clone)]
struct El(Rc<Inner>);

impl El {
    fn leaf(role: &str, name: &str) -> El {
        El(Rc::new(Inner {
            role: role.into(),
            name: name.into(),
            alive: Cell::new(true),
            children: RefCell::new(vec![]),
            parent: RefCell::new(Weak::new()),
        }))
    }

    fn parent(role: &str, name: &str, children: Vec<El>) -> El {
        let p = El::leaf(role, name);
        p.set_children(children);
        p
    }

    fn set_children(&self, children: Vec<El>) {
        for c in &children {
            *c.0.parent.borrow_mut() = Rc::downgrade(&self.0);
        }
        *self.0.children.borrow_mut() = children;
    }

    fn kill(&self) {
        self.0.alive.set(false);
    }

    fn check(&self) -> Result<(), AutomataError> {
        if self.0.alive.get() {
            Ok(())
        } else {
            Err(AutomataError::Platform("stale element handle".into()))
        }
    }
}

impl UiElement for El {
    fn name(&self) -> Option<String> {
        if self.0.alive.get() {
            Some(self.0.name.clone())
        } else {
            None
        }
    }
    fn role(&self) -> String {
        self.0.role.clone()
    }
    fn text(&self) -> Result<String, AutomataError> {
        self.check().map(|_| self.0.name.clone())
    }
    fn children(&self) -> Result<Vec<Self>, AutomataError> {
        self.check().map(|_| self.0.children.borrow().clone())
    }
    fn parent(&self) -> Option<Self> {
        self.0.parent.borrow().upgrade().map(El)
    }
    fn is_visible(&self) -> Result<bool, AutomataError> {
        self.check().map(|_| true)
    }
    fn has_parent(&self) -> bool {
        self.0.alive.get()
    }
    fn process_id(&self) -> Result<u32, AutomataError> {
        self.check().map(|_| 1234)
    }
    fn activate_window(&self) -> Result<(), AutomataError> {
        self.check()
    }
}

struct NoBrowser;

impl Browser for NoBrowser {
    fn ensure(&self) -> Result<(), AutomataError> {
        Ok(())
    }
    fn open_tab(&self, _url: Option<&str>) -> Result<String, AutomataError> {
        Err(AutomataError::Platform("no browser".into()))
    }
    fn close_tab(&self, _tab_id: &str) -> Result<(), AutomataError> {
        Ok(())
    }
    fn activate_tab(&self, _tab_id: &str) -> Result<(), AutomataError> {
        Ok(())
    }
    fn navigate(&self, _tab_id: &str, _url: &str) -> Result<(), AutomataError> {
        Ok(())
    }
    fn eval(&self, _tab_id: &str, _expr: &str) -> Result<String, AutomataError> {
        Ok(String::new())
    }
    fn tab_info(&self, _tab_id: &str) -> Result<TabInfo, AutomataError> {
        Err(AutomataError::Platform("no browser".into()))
    }
    fn tabs(&self) -> Result<Vec<(String, TabInfo)>, AutomataError> {
        Ok(vec![])
    }
}

struct Desk {
    windows: Vec<El>,
    browser: NoBrowser,
}

impl UiDesktop for Desk {
    type Elem = El;
    type Browser = NoBrowser;
    fn browser(&self) -> &NoBrowser {
        &self.browser
    }
    fn application_windows(&self) -> Result<Vec<El>, AutomataError> {
        Ok(self.windows.clone())
    }
}

fn desk(windows: Vec<El>) -> Desk {
    Desk { windows, browser: NoBrowser }
}

fn sel(s: &str) -> SelectorPath {
    SelectorPath::parse(s).unwrap()
}

fn make_desktop() -> (Desk, El, El) {
    let toolbar = El::leaf("ToolBar", "Main");
    let window = El::parent("Window", "App", vec![toolbar.clone()]);
    (desk(vec![window.clone()]), window, toolbar)
}

// ── Basic get ─────────────────────────────────────────────────────────────────

#[test]
fn get_root_anchor() {
    let (desktop, _window, _toolbar) = make_desktop();
    let mut dom = ShadowDom::new();
    dom.mount(vec![AnchorDef::root("main_window", sel("Window[name=App]"))], &desktop).unwrap();
    let el = dom.get("main_window", &desktop).unwrap();
    assert_eq!(el.name(), Some("App".into()));
}

#[test]
fn get_stable_anchor_via_parent() {
    let (desktop, _window, _toolbar) = make_desktop();
    let mut dom = ShadowDom::new();
    dom.mount(
        vec![
            AnchorDef::root("main_window", sel("Window[name=App]")),
            AnchorDef::stable("toolbar", "main_window", sel("Window > ToolBar[name=Main]")),
        ],
        &desktop,
    )
    .unwrap();
    let el = dom.get("toolbar", &desktop).unwrap();
    assert_eq!(el.name(), Some("Main".into()));
}

#[test]
fn get_unregistered_name_returns_err() {
    let desktop = desk(vec![]);
    let mut dom = ShadowDom::<Desk>::new();
    assert!(dom.get("nonexistent", &desktop).is_err());
}

#[test]
fn root_not_found_returns_err() {
    let desktop = desk(vec![]);
    let mut dom = ShadowDom::new();
    let result = dom.mount(vec![AnchorDef::root("main_window", sel("Window[name=App]"))], &desktop);
    assert!(result.is_err());
    // The failed anchor is unregistered again, so a later mount may retry it.
    assert!(!dom.registry.defs.contains("main_window"));
}

// ── Stale handle re-query ─────────────────────────────────────────────────────

#[test]
fn stale_stable_re_queries_from_parent() {
    let toolbar = El::leaf("ToolBar", "Main");
    let window = El::parent("Window", "App", vec![toolbar.clone()]);
    let desktop = desk(vec![window.clone()]);
    let mut dom = ShadowDom::new();
    dom.mount(
        vec![
            AnchorDef::root("main_window", sel("Window[name=App]")),
            AnchorDef::stable("toolbar", "main_window", sel("Window > ToolBar[name=Main]")),
        ],
        &desktop,
    )
    .unwrap();
    dom.get("toolbar", &desktop).unwrap();
    toolbar.kill();
    window.set_children(vec![El::leaf("ToolBar", "Main")]);
    let result = dom.get("toolbar", &desktop);
    assert!(result.is_ok(), "expected re-query to succeed: {:?}", result.err().map(|e| e.to_string()));
    assert_eq!(result.unwrap().name(), Some("Main".into()));
}

#[test]
fn stale_stable_walks_up_to_grandparent() {
    let button = El::leaf("Button", "Open");
    let toolbar = El::parent("ToolBar", "Main", vec![button.clone()]);
    let window = El::parent("Window", "App", vec![toolbar.clone()]);
    let desktop = desk(vec![window.clone()]);
    let mut dom = ShadowDom::new();
    dom.mount(
        vec![
            AnchorDef::root("main_window", sel("Window[name=App]")),
            AnchorDef::stable("toolbar", "main_window", sel("Window > ToolBar[name=Main]")),
            AnchorDef::stable("open_btn", "toolbar", sel("ToolBar > Button[name=Open]")),
        ],
        &desktop,
    )
    .unwrap();
    dom.get("toolbar", &desktop).unwrap();
    dom.get("open_btn", &desktop).unwrap();
    toolbar.kill();
    button.kill();
    window.set_children(vec![El::parent("ToolBar", "Main", vec![El::leaf("Button", "Open")])]);
    let result = dom.get("open_btn", &desktop);
    assert!(result.is_ok(), "walk-up re-query failed: {:?}", result.err().map(|e| e.to_string()));
    assert_eq!(result.unwrap().name(), Some("Open".into()));
}

// ── Session invalidation ──────────────────────────────────────────────────────

#[test]
fn invalidate_session_removes_dependents() {
    let sim_window = El::parent("Window", "Simulator", vec![El::leaf("Tree", "Info")]);
    let main_window = El::parent("Window", "App", vec![]);
    let desktop = desk(vec![main_window, sim_window]);
    let mut dom = ShadowDom::new();
    dom.mount(
        vec![
            AnchorDef::root("main_window", sel("Window[name=App]")),
            AnchorDef::session("simulator", sel("Window[name=Simulator]")),
            AnchorDef::stable("info_grid", "simulator", sel("Window >> Tree[name=Info]")),
        ],
        &desktop,
    )
    .unwrap();
    dom.get("simulator", &desktop).unwrap();
    dom.get("info_grid", &desktop).unwrap();
    assert!(dom.is_live("simulator"));
    assert!(dom.is_live("info_grid"));
    dom.invalidate_session("simulator");
    assert!(!dom.is_live("simulator"));
    assert!(!dom.is_live("info_grid"));
}

// ── Unmount ───────────────────────────────────────────────────────────────────

#[test]
fn unmount_removes_anchor_completely() {
    let dialog = El::leaf("Dialog", "Open File");
    let window = El::parent("Window", "App", vec![dialog.clone()]);
    let desktop = desk(vec![window]);
    let mut dom = ShadowDom::new();
    dom.mount(vec![AnchorDef::root("main_window", sel("Window[name=App]"))], &desktop).unwrap();
    dom.insert("dialog", dialog);
    assert!(dom.is_live("dialog"));
    dom.unmount(&vec!["dialog".to_string()], &desktop);
    assert!(!dom.is_live("dialog"));
}

// ── Direct insert ─────────────────────────────────────────────────────────────

#[test]
fn insert_and_get_returns_element() {
    let el = El::leaf("Dialog", "Confirm");
    let desktop = desk(vec![]);
    let mut dom = ShadowDom::<Desk>::new();
    dom.insert("confirm_dialog", el.clone());
    let got = dom.get("confirm_dialog", &desktop).unwrap();
    assert_eq!(got.name(), Some("Confirm".into()));
}

// ── Finding under a scope ─────────────────────────────────────────────────────

#[test]
fn find_descendant_refuses_unmounted_scope_and_caches_results() {
    let (desktop, window, _toolbar) = make_desktop();
    let mut dom = ShadowDom::new();
    match dom.find_descendant("nowhere", &sel(">> ToolBar"), &desktop) {
        Err(e) => assert_eq!(e.to_string(), "scope 'nowhere' is not mounted"),
        Ok(_) => panic!("expected an error"),
    }
    dom.mount(vec![AnchorDef::root("main_window", sel("Window[name=App]"))], &desktop).unwrap();
    let found = dom.find_descendant("main_window", &sel(">> ToolBar[name=Main]"), &desktop).unwrap();
    assert_eq!(found.and_then(|e| e.name()), Some("Main".into()));
    // The toolbar is replaced: the cached step parent (the window) yields the new one.
    window.set_children(vec![El::leaf("ToolBar", "Main")]);
    let again = dom.find_descendant("main_window", &sel(">> ToolBar[name=Main]"), &desktop).unwrap();
    assert_eq!(again.and_then(|e| e.name()), Some("Main".into()));
    assert!(dom.find_descendant("main_window", &sel(">> Button"), &desktop).unwrap().is_none());
}

#[test]
fn sync_changes_reports_once() {
    let (desktop, window, _toolbar) = make_desktop();
    let mut dom = ShadowDom::new();
    dom.mount(vec![AnchorDef::root("win", sel("[name=App]"))], &desktop).unwrap();
    assert!(dom.sync_changes("win", &desktop).is_empty());
    window.set_children(vec![El::leaf("ToolBar", "Main"), El::leaf("button", "OK")]);
    let first = dom.sync_changes("win", &desktop);
    assert_eq!(first, vec!["dom: win: ADDED\n[button \"OK\"]".to_string()]);
    assert!(dom.sync_changes("win", &desktop).is_empty());
}
