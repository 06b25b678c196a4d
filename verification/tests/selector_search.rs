use std::cell::RefCell;
use std::rc::{Rc, Weak};

use ui_automata::error::AutomataError;
use ui_automata::search::UiElement;
use ui_automata::selector::SelectorPath;
use ui_automata::snapshot::SnapNode;

// ── An in-memory element tree ─────────────────────────────────────────────────

struct Inner {
    role: String,
    name: String,
    automation_id: Option<String>,
    children: RefCell<Vec<El>>,
    parent: RefCell<Weak<Inner>>,
}

#[derive(Clone)]
struct El(Rc<Inner>);

impl El {
    fn leaf(role: &str, name: &str) -> El {
        El(Rc::new(Inner {
            role: role.into(),
            name: name.into(),
            automation_id: None,
            children: RefCell::new(vec![]),
            parent: RefCell::new(Weak::new()),
        }))
    }

    fn parent(role: &str, name: &str, children: Vec<El>) -> El {
        let p = El::leaf(role, name);
        for c in &children {
            *c.0.parent.borrow_mut() = Rc::downgrade(&p.0);
        }
        *p.0.children.borrow_mut() = children;
        p
    }

    fn with_automation_id(self, aid: &str) -> El {
        let children = self.0.children.borrow().clone();
        El(Rc::new(Inner {
            role: self.0.role.clone(),
            name: self.0.name.clone(),
            automation_id: Some(aid.into()),
            children: RefCell::new(children),
            parent: RefCell::new(Weak::new()),
        }))
    }
}

impl UiElement for El {
    fn name(&self) -> Option<String> {
        Some(self.0.name.clone())
    }
    fn role(&self) -> String {
        self.0.role.clone()
    }
    fn text(&self) -> Result<String, AutomataError> {
        Ok(self.0.name.clone())
    }
    fn automation_id(&self) -> Option<String> {
        self.0.automation_id.clone()
    }
    fn children(&self) -> Result<Vec<Self>, AutomataError> {
        Ok(self.0.children.borrow().clone())
    }
    fn parent(&self) -> Option<Self> {
        self.0.parent.borrow().upgrade().map(El)
    }
    fn is_visible(&self) -> Result<bool, AutomataError> {
        Ok(true)
    }
    fn process_id(&self) -> Result<u32, AutomataError> {
        Ok(1)
    }
    fn activate_window(&self) -> Result<(), AutomataError> {
        Ok(())
    }
}

fn sel(s: &str) -> SelectorPath {
    SelectorPath::parse(s).unwrap_or_else(|e| panic!("parse failed for '{s}': {}", e.to_string()))
}

fn name_of(e: Option<El>) -> Option<String> {
    e.and_then(|e| e.name())
}

// ── First step against one element ────────────────────────────────────────────

#[test]
fn matches_reads_role_name_and_id() {
    let el = El::leaf("Button", "Open");
    assert!(sel("Button[name=Open]").matches(&el));
    assert!(!sel("Edit").matches(&el));
    let splash = El::leaf("Window", "").with_automation_id("SplashOverlay");
    assert!(sel("[id=SplashOverlay]").matches(&splash));
    assert!(!sel("[id=SplashOverlay]").matches(&El::leaf("Window", "SplashOverlay")));
}

#[test]
fn multi_predicate_all_must_match() {
    let root = El::parent("Window", "App", vec![El::leaf("Button", "Save"), El::leaf("Button", "Cancel")]);
    let results = sel("Window > Button[name=Save]").find_all(&root);
    assert_eq!(results.len(), 1);
    assert_eq!(results[0].name(), Some("Save".into()));
}

// ── Child combinator > ────────────────────────────────────────────────────────

#[test]
fn child_finds_direct_child() {
    let root = El::parent("Window", "App", vec![El::leaf("ToolBar", "Main"), El::leaf("Button", "Open")]);
    let result = sel("Window > ToolBar[name=Main]").find_one(&root);
    assert!(result.is_some());
    assert_eq!(name_of(result), Some("Main".into()));
}

#[test]
fn child_does_not_find_grandchild() {
    let child = El::parent("Pane", "Container", vec![El::leaf("Button", "Open")]);
    let root = El::parent("Window", "App", vec![child]);
    assert!(sel("Window > Button[name=Open]").find_one(&root).is_none());
}

#[test]
fn child_returns_none_when_no_match() {
    let root = El::parent("Window", "App", vec![El::leaf("Button", "Save")]);
    assert!(sel("Window > Button[name=Open]").find_one(&root).is_none());
}

// ── Descendant combinator >> ──────────────────────────────────────────────────

#[test]
fn descendant_finds_direct_child() {
    let root = El::parent("Window", "App", vec![El::leaf("Button", "Open")]);
    assert!(sel("Window >> Button[name=Open]").find_one(&root).is_some());
}

#[test]
fn descendant_finds_deep_element() {
    let pane = El::parent("Pane", "Inner", vec![El::leaf("Button", "Open")]);
    let toolbar = El::parent("ToolBar", "Main", vec![pane]);
    let root = El::parent("Window", "App", vec![toolbar]);
    assert!(sel("Window >> Button[name=Open]").find_one(&root).is_some());
}

#[test]
fn descendant_returns_none_when_absent() {
    let root = El::parent("Window", "App", vec![El::leaf("Button", "Save")]);
    assert!(sel("Window >> Button[name=Open]").find_one(&root).is_none());
}

// ── :nth ──────────────────────────────────────────────────────────────────────

#[test]
fn nth_selects_correct_sibling() {
    let root =
        El::parent("ToolBar", "Main", vec![El::leaf("Button", "A"), El::leaf("Button", "B"), El::leaf("Button", "C")]);
    let result = sel("ToolBar > Button:nth(1)").find_one(&root);
    assert!(result.is_some());
    assert_eq!(name_of(result), Some("B".into()));
}

#[test]
fn nth_zero_is_first() {
    let root = El::parent("ToolBar", "Main", vec![El::leaf("Button", "First"), El::leaf("Button", "Second")]);
    assert_eq!(name_of(sel("ToolBar > Button:nth(0)").find_one(&root)), Some("First".into()));
}

#[test]
fn nth_out_of_bounds_returns_none() {
    let root = El::parent("ToolBar", "Main", vec![El::leaf("Button", "Only")]);
    assert!(sel("ToolBar > Button:nth(5)").find_one(&root).is_none());
}

#[test]
fn nth_descendant() {
    let root = El::parent(
        "Pane",
        "Root",
        vec![
            El::parent("Group", "G1", vec![El::leaf("Button", "A")]),
            El::parent("Group", "G2", vec![El::leaf("Button", "B")]),
            El::parent("Group", "G3", vec![El::leaf("Button", "C")]),
        ],
    );
    assert_eq!(name_of(sel("Pane >> Button:nth(2)").find_one(&root)), Some("C".into()));
}

#[test]
fn nth_counts_only_matching_role() {
    let root = El::parent(
        "Pane",
        "Root",
        vec![
            El::leaf("Text", "label"),
            El::leaf("Button", "X"),
            El::leaf("Text", "label2"),
            El::leaf("Button", "Y"),
            El::leaf("Button", "Z"),
        ],
    );
    assert_eq!(name_of(sel("Pane > Button:nth(1)").find_one(&root)), Some("Y".into()));
}

#[test]
fn wildcard_nth_counts_all_children() {
    let root = El::parent(
        "Pane",
        "Root",
        vec![
            El::leaf("Button", "A"),
            El::leaf("Button", "B"),
            El::leaf("Button", "C"),
            El::leaf("Button", "D"),
            El::leaf("MenuItem", "sep1"),
            El::leaf("Button", "E"),
            El::leaf("MenuItem", "target"),
            El::leaf("Button", "F"),
        ],
    );
    assert_eq!(name_of(sel("Pane > *:nth(6)").find_one(&root)), Some("target".into()));
}

#[test]
fn nth_in_non_final_step() {
    let root = El::parent(
        "ToolBar",
        "Main",
        vec![
            El::parent("Pane", "row0", vec![El::leaf("Button", "wrong")]),
            El::parent("Pane", "row1", vec![El::leaf("Button", "correct")]),
        ],
    );
    assert_eq!(name_of(sel("ToolBar > Pane:nth(1) > Button").find_one(&root)), Some("correct".into()));
}

// ── Leading >> (scope-relative search) ───────────────────────────────────────

#[test]
fn leading_descendant_searches_within_root() {
    let pane = El::parent("Pane", "", vec![El::leaf("Edit", "File name:")]);
    let dialog = El::parent("Dialog", "Save As", vec![pane]);
    let result = sel(">> [role=Edit][name='File name:']").find_one(&dialog);
    assert!(result.is_some(), "should find edit nested inside pane");
}

#[test]
fn leading_descendant_multi_step() {
    let combo = El::parent("ComboBox", "File name:", vec![El::leaf("Edit", "File name:")]);
    let pane = El::parent("Pane", "", vec![combo]);
    let dialog = El::parent("Dialog", "Save As", vec![pane]);
    let result = sel(">> [role=ComboBox][name='File name:'] >> [role=Edit]").find_one(&dialog);
    assert!(result.is_some(), "should find edit inside combo box inside pane");
}

// ── Multi-step paths ──────────────────────────────────────────────────────────

#[test]
fn multi_step_descendant_then_descendant() {
    let combo = El::parent("ComboBox", "File", vec![El::leaf("Button", "Open")]);
    let pane = El::parent("Pane", "", vec![combo]);
    let dialog = El::parent("Dialog", "Save As", vec![pane]);
    let window = El::parent("Window", "App", vec![dialog]);
    let result = sel("Window >> Dialog >> Button[name=Open]").find_one(&window);
    assert!(result.is_some(), "A >> B >> C should find deeply nested element");
}

#[test]
fn multi_step_child_then_descendant() {
    let inner_pane = El::parent("Pane", "Inner", vec![El::leaf("Button", "Open")]);
    let toolbar = El::parent("ToolBar", "Main", vec![inner_pane]);
    let root = El::parent("Window", "App", vec![toolbar]);
    assert!(sel("Window > ToolBar[name=Main] >> Button[name=Open]").find_one(&root).is_some());
}

// ── OR values and ids over a tree ─────────────────────────────────────────────

#[test]
fn or_finds_multiple_via_find_all() {
    let root = El::parent(
        "Window",
        "App",
        vec![El::leaf("Window", "Vector Designer"), El::leaf("Window", "Designer Studio"), El::leaf("Window", "Nothing")],
    );
    assert_eq!(sel("Window > [name~=Editor|Designer]").find_all(&root).len(), 2);
}

#[test]
fn id_combined_with_process_predicate() {
    let splash = El::leaf("Window", "").with_automation_id("SplashOverlay");
    let main = El::leaf("Window", "Mastercam 2025");
    let desktop = El::parent("Pane", "Desktop", vec![splash, main]);
    let results = sel("Pane > [id=SplashOverlay]").find_all(&desktop);
    assert_eq!(results.len(), 1);
    assert_eq!(results[0].automation_id(), Some("SplashOverlay".into()));
}

#[test]
fn find_all_returns_multiple() {
    let root = El::parent("Window", "App", vec![El::leaf("Button", "A"), El::leaf("Button", "B"), El::leaf("Edit", "C")]);
    assert_eq!(sel("Window > Button").find_all(&root).len(), 2);
}

// ── :parent and :ancestor(n) ──────────────────────────────────────────────────

#[test]
fn parent_returns_container() {
    let container = El::parent("Pane", "Container", vec![El::leaf("Button", "Open")]);
    let root = El::parent("Window", "App", vec![container]);
    let result = sel("Window >> Button[name=Open]:parent").find_one(&root);
    assert!(result.is_some(), "should find the parent of Button");
    assert_eq!(name_of(result), Some("Container".into()));
}

#[test]
fn parent_of_root_step_returns_none() {
    let root = El::leaf("Button", "Open");
    assert!(sel("Button[name=Open]:parent").find_one(&root).is_none(), "root element has no parent");
}

#[test]
fn ancestor_1_equals_parent() {
    let pane = El::parent("Pane", "P", vec![El::leaf("Button", "X")]);
    let root = El::parent("Window", "App", vec![pane]);
    let via_parent = sel("Window >> Button:parent").find_one(&root);
    let via_ancestor = sel("Window >> Button:ancestor(1)").find_one(&root);
    assert_eq!(name_of(via_parent), name_of(via_ancestor), ":ancestor(1) should equal :parent");
}

#[test]
fn ancestor_2_returns_grandparent() {
    let inner = El::parent("Pane", "Inner", vec![El::leaf("Button", "X")]);
    let outer = El::parent("Group", "Outer", vec![inner]);
    let root = El::parent("Window", "App", vec![outer]);
    let result = sel("Window >> Button:ancestor(2)").find_one(&root);
    assert!(result.is_some());
    assert_eq!(name_of(result), Some("Outer".into()));
}

#[test]
fn parent_mid_selector_then_child() {
    let toolbar = El::parent(
        "ToolBar",
        "Bottom",
        vec![
            El::leaf("Button", "Performance"),
            El::leaf("Button", "A"),
            El::leaf("Button", "B"),
            El::leaf("Button", "C"),
            El::leaf("Button", "D"),
            El::leaf("Button", "E"),
            El::leaf("Button", "F"),
            El::leaf("Button", "G"),
            El::leaf("Button", "H"),
            El::leaf("Button", "FastForward"),
        ],
    );
    let root = El::parent("Window", "App", vec![toolbar]);
    let result = sel("Window >> [role=Button][name=Performance]:parent > *:nth(9)").find_one(&root);
    assert!(result.is_some(), "should find FastForward at index 9");
    assert_eq!(name_of(result), Some("FastForward".into()));
}

#[test]
fn parent_mid_selector_descendant_after() {
    let group = El::parent("Group", "G", vec![El::leaf("Edit", "value")]);
    let toolbar = El::parent("ToolBar", "T", vec![El::leaf("Button", "Trigger"), group]);
    let root = El::parent("Window", "App", vec![toolbar]);
    let result = sel("Window >> [name=Trigger]:parent >> Edit").find_one(&root);
    assert!(result.is_some());
    assert_eq!(name_of(result), Some("value".into()));
}

#[test]
fn ancestor_out_of_bounds_returns_none() {
    let pane = El::parent("Pane", "P", vec![El::leaf("Button", "X")]);
    let root = El::parent("Window", "App", vec![pane]);
    assert!(sel("Window >> Button:ancestor(5)").find_one(&root).is_none(), "should return None when ancestors run out");
}

#[test]
fn find_all_with_parent() {
    let pane = El::parent("Pane", "Container", vec![El::leaf("Button", "A"), El::leaf("Button", "B")]);
    let root = El::parent("Window", "App", vec![pane]);
    let results = sel("Window >> Button:parent").find_all(&root);
    assert!(!results.is_empty(), "should find at least one parent");
    for r in &results {
        assert_eq!(r.name(), Some("Container".into()));
    }
}

#[test]
fn nth_then_parent() {
    let toolbar = El::parent("ToolBar", "T", vec![El::leaf("Button", "B0"), El::leaf("Button", "B1")]);
    let root = El::parent("Window", "App", vec![toolbar]);
    let result = sel("Window >> Button:nth(1):parent").find_one(&root);
    assert!(result.is_some());
    assert_eq!(name_of(result), Some("T".into()));
}

// ── Step parents ──────────────────────────────────────────────────────────────

#[test]
fn find_one_with_parent_reports_the_step_parent() {
    let pane = El::parent("Pane", "Inner", vec![El::leaf("Button", "Open")]);
    let root = El::parent("Window", "App", vec![El::parent("ToolBar", "Main", vec![pane])]);
    let (el, parent) = sel("Window >> Button[name=Open]").find_one_with_parent(&root).unwrap();
    assert_eq!(el.name(), Some("Open".into()));
    assert_eq!(parent.and_then(|p| p.name()), Some("Inner".into()));
    // Ascending loses the step parent; so does matching the origin itself.
    let (el, parent) = sel("Window >> Button[name=Open]:parent").find_one_with_parent(&root).unwrap();
    assert_eq!(el.name(), Some("Inner".into()));
    assert!(parent.is_none());
    let (_, parent) = sel("Window").find_one_with_parent(&root).unwrap();
    assert!(parent.is_none());
}

#[test]
fn find_one_from_step_parent_reruns_last_step() {
    let pane = El::parent("Pane", "Inner", vec![El::leaf("Button", "Open"), El::leaf("Button", "Close")]);
    let s = sel("Window >> Pane > Button:nth(1)");
    assert_eq!(name_of(s.find_one_from_step_parent(&pane)), Some("Close".into()));
    let d = sel("Window >> Button[name=Open]");
    assert_eq!(name_of(d.find_one_from_step_parent(&pane)), Some("Open".into()));
}

// ── Snapshots ─────────────────────────────────────────────────────────────────

#[test]
fn capture_reads_down_to_depth() {
    let status = El::parent("status bar", "Status", vec![El::leaf("text", "Ln 1")]);
    let root = El::parent("window", "App", vec![El::parent("pane", "P", vec![El::leaf("button", "deep")]), status]);
    let snap = SnapNode::capture(&root, 1);
    assert_eq!(snap.role, "window");
    assert_eq!(snap.name, "App");
    assert_eq!(snap.text, None);
    assert_eq!(snap.children.len(), 2);
    assert!(snap.children[0].children.is_empty());
    let snap = SnapNode::capture(&root, 2);
    assert_eq!(snap.children[0].children[0].name, "deep");
    assert_eq!(snap.children[1].children[0].text, Some("Ln 1".to_string()));
    assert_eq!(SnapNode::capture(&root, 0).children.len(), 0);
}
