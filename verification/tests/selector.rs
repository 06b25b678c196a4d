use ui_automata::selector::SelectorPath;

// ── Parsing ───────────────────────────────────────────────────────────────────

#[test]
fn parse_single_role() {
    assert!(SelectorPath::parse("Button").is_ok());
}

#[test]
fn parse_bracketed_predicate() {
    assert!(SelectorPath::parse("[role=Button]").is_ok());
    assert!(SelectorPath::parse("[name=Open]").is_ok());
}

#[test]
fn parse_role_with_name() {
    assert!(SelectorPath::parse("Button[name=Open]").is_ok());
}

#[test]
fn parse_contains_op() {
    assert!(SelectorPath::parse("Window[title~=Mastercam]").is_ok());
}

#[test]
fn parse_startswith_op() {
    assert!(SelectorPath::parse("Window[title^=Processing]").is_ok());
}

#[test]
fn parse_endswith_op() {
    assert!(SelectorPath::parse("[name$=Save]").is_ok());
}

#[test]
fn parse_leading_descendant() {
    assert!(SelectorPath::parse(">> [role=Button]").is_ok());
}

#[test]
fn parse_child_combinator() {
    assert!(SelectorPath::parse("Window > ToolBar").is_ok());
}

#[test]
fn parse_descendant_combinator() {
    assert!(SelectorPath::parse("Window >> Button[name=Open]").is_ok());
}

#[test]
fn parse_nth() {
    assert!(SelectorPath::parse("Button:nth(2)").is_ok());
}

#[test]
fn parse_wildcard_nth() {
    assert!(SelectorPath::parse("*:nth(3)").is_ok());
    assert!(SelectorPath::parse("Pane > *:nth(6)").is_ok());
}

#[test]
fn parse_complex_path() {
    assert!(
        SelectorPath::parse("Window[title~=Mastercam] >> ToolBar[name=Mastercam] > Group:nth(0)")
            .is_ok()
    );
}

#[test]
fn parse_empty_fails() {
    assert!(SelectorPath::parse("").is_err());
}

// ── OR values (pipe syntax) ───────────────────────────────────────────────────

#[test]
fn parse_or_value() {
    assert!(SelectorPath::parse("[name=Editor|Designer]").is_ok());
    assert!(SelectorPath::parse("[name~=Editor|Designer]").is_ok());
}

// ── automation_id / id= ───────────────────────────────────────────────────────

#[test]
fn parse_id_predicate() {
    assert!(SelectorPath::parse("[id=SplashOverlay]").is_ok());
    assert!(SelectorPath::parse("[automation_id=SplashOverlay]").is_ok());
}

// ── :parent and :ancestor(n) ──────────────────────────────────────────────────

#[test]
fn parse_parent() {
    assert!(SelectorPath::parse("[role=button]:parent").is_ok());
    assert!(SelectorPath::parse(">> [role=button][name=X]:parent").is_ok());
}

#[test]
fn parse_ancestor() {
    assert!(SelectorPath::parse("[role=button]:ancestor(1)").is_ok());
    assert!(SelectorPath::parse(">> [role=button]:ancestor(3)").is_ok());
}

#[test]
fn parse_nth_and_parent_combined() {
    // :nth then :parent — find 2nd button then go up
    assert!(SelectorPath::parse(">> Button:nth(1):parent").is_ok());
    // :parent then :nth in next step
    assert!(SelectorPath::parse(">> Button:parent > *:nth(9)").is_ok());
}

#[test]
fn display_parent_roundtrip() {
    let s = ">> [role=button][name=Performance]:parent";
    let parsed = SelectorPath::parse(s).unwrap();
    assert!(parsed.to_string().contains(":parent"));
}

#[test]
fn display_ancestor_roundtrip() {
    let s = ">> [role=button][name=Performance]:ancestor(2)";
    let parsed = SelectorPath::parse(s).unwrap();
    assert!(parsed.to_string().contains(":ancestor(2)"));
}

// ── Unbalanced bracket detection ─────────────────────────────────────────────

#[test]
fn unclosed_bracket_simple_fails() {
    // Simple unclosed '[' at segment level.
    assert!(SelectorPath::parse("[name=foo").is_err());
}

#[test]
fn unclosed_bracket_with_combinator_inside_fails() {
    // '>>' inside '[...]' is not a combinator; the bracket never closes.
    assert!(SelectorPath::parse("> [role=pane][name=Toolpaths >> [role=tree]").is_err());
}

#[test]
fn unclosed_bracket_at_last_segment_fails() {
    // Last segment has an unclosed '[' — no combinator involved.
    assert!(SelectorPath::parse("> [role=pane][name=Toolpaths] >> [role=tree").is_err());
}

#[test]
fn balanced_brackets_with_space_in_name_ok() {
    // The intended correct form of the selector above should succeed.
    assert!(SelectorPath::parse("> [role=pane][name=Toolpaths] >> [role=tree]").is_ok());
}
