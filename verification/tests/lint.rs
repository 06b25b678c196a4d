use ui_automata::lint::{lint, LintDiag};

fn diag_messages(raw: &str) -> Vec<String> {
    lint(raw)
        .into_iter()
        .map(|d| format!("{}: {}", d.path, d.message))
        .collect()
}

fn assert_contains(msgs: &[String], needle: &str) {
    assert!(
        msgs.iter().any(|m| m.contains(needle)),
        "expected to find '{needle}' in:\n{:#?}",
        msgs
    );
}

fn assert_has_location(diags: &[LintDiag]) {
    for d in diags {
        assert!(d.line.is_some(), "expected line number in diag: {d:?}");
    }
}

#[test]
fn clean_workflow_has_no_diags() {
    let raw = r#"
name: clean
anchors:
  app: { type: Root, selector: "[name=App]" }
phases:
  - name: main
    mount: [app]
    steps:
      - intent: click a button
        action:
          type: Click
          scope: app
          selector: ">> [role=button][name=OK]"
        expect:
          type: Always
"#;
    assert!(lint(raw).is_empty());
}

#[test]
fn unknown_action_type_reported() {
    let raw = r#"
name: t
anchors:
  app: { type: Root, selector: "[name=App]" }
phases:
  - name: main
    mount: [app]
    steps:
      - intent: x
        action: { type: Clik, scope: app, selector: ">> *" }
        expect: { type: Always }
"#;
    let diags = lint(raw);
    let msgs = diag_messages(raw);
    assert_contains(&msgs, "unknown action type 'Clik'");
    assert_has_location(&diags);
}

#[test]
fn invalid_selector_reported() {
    let raw = r#"
name: t
anchors:
  app: { type: Root, selector: "[name=App]" }
phases:
  - name: main
    mount: [app]
    steps:
      - intent: x
        action: { type: Click, scope: app, selector: ">> [role=button" }
        expect: { type: Always }
"#;
    let diags = lint(raw);
    let msgs = diag_messages(raw);
    assert_contains(&msgs, "unclosed '['");
    assert_has_location(&diags);
}

#[test]
fn unknown_anchor_ref_reported() {
    let raw = r#"
name: t
anchors:
  app: { type: Root, selector: "[name=App]" }
phases:
  - name: main
    mount: [app, missing_anchor]
    steps:
      - intent: x
        action: { type: Click, scope: app, selector: ">> *" }
        expect: { type: Always }
"#;
    let diags = lint(raw);
    let msgs = diag_messages(raw);
    assert_contains(&msgs, "unknown anchor 'missing_anchor'");
    assert_has_location(&diags);
}

#[test]
fn text_match_mutual_exclusion_reported() {
    let raw = r#"
name: t
anchors:
  app: { type: Root, selector: "[name=App]" }
phases:
  - name: main
    mount: [app]
    steps:
      - intent: x
        action: { type: NoOp }
        expect:
          type: ElementHasText
          scope: app
          selector: ">> *"
          pattern:
            contains: hello
            exact: world
"#;
    let msgs = diag_messages(raw);
    assert_contains(&msgs, "TextMatch must specify exactly one of");
}

#[test]
fn undeclared_param_reported() {
    let raw = r#"
name: t
anchors:
  app: { type: Root, selector: "[name=App]" }
params:
  - name: file_path
phases:
  - name: main
    mount: [app]
    steps:
      - intent: set value
        action:
          type: SetValue
          scope: app
          selector: ">> [role=edit]"
          value: "{param.save_di}"
        expect: { type: Always }
"#;
    let msgs = diag_messages(raw);
    assert_contains(&msgs, "unknown param 'save_di'");
    assert_contains(&msgs, "file_path");
}

#[test]
fn declared_param_no_diag() {
    let raw = r#"
name: t
anchors:
  app: { type: Root, selector: "[name=App]" }
params:
  - name: file_path
phases:
  - name: main
    mount: [app]
    steps:
      - intent: set value
        action:
          type: SetValue
          scope: app
          selector: ">> [role=edit]"
          value: "{param.file_path}"
        expect: { type: Always }
"#;
    assert!(lint(raw).is_empty());
}

#[test]
fn unclosed_brace_in_value_reported() {
    let raw = r#"
name: t
anchors:
  app: { type: Root, selector: "[name=App]" }
params:
  - name: file_path
phases:
  - name: main
    mount: [app]
    steps:
      - intent: set value
        action:
          type: SetValue
          scope: app
          selector: ">> [role=edit]"
          value: "{param.file_path"
        expect: { type: Always }
"#;
    let msgs = diag_messages(raw);
    assert_contains(&msgs, "unclosed '{'");
}

#[test]
fn window_with_attribute_needs_at_least_one_field() {
    let raw = r#"
name: t
phases:
  - name: main
    steps:
      - intent: x
        action: { type: NoOp }
        expect: { type: WindowWithAttribute }
"#;
    let msgs = diag_messages(raw);
    assert_contains(&msgs, "WindowWithAttribute requires at least one of");
}

#[test]
fn valid_eval_condition_expr_no_diag() {
    let raw = r#"
name: t
anchors:
  app: { type: Root, selector: "[name=App]" }
phases:
  - name: main
    mount: [app]
    steps:
      - intent: check count
        action: { type: NoOp }
        expect:
          type: EvalCondition
          expr: "output_count('items') > 0"
"#;
    assert!(lint(raw).is_empty());
}

#[test]
fn invalid_eval_condition_expr_reported() {
    let raw = r#"
name: t
anchors:
  app: { type: Root, selector: "[name=App]" }
phases:
  - name: main
    mount: [app]
    steps:
      - intent: broken expr
        action: { type: NoOp }
        expect:
          type: EvalCondition
          expr: "output_count('items' > 0"
"#;
    let msgs = diag_messages(raw);
    assert_contains(&msgs, ".expr");
}

#[test]
fn valid_eval_action_expr_no_diag() {
    let raw = r#"
name: t
anchors:
  app: { type: Root, selector: "[name=App]" }
phases:
  - name: main
    mount: [app]
    steps:
      - intent: compute something
        action:
          type: Eval
          key: result
          expr: "split_lines(output.raw, -1)"
        expect: { type: Always }
"#;
    assert!(lint(raw).is_empty());
}

#[test]
fn invalid_eval_action_expr_reported() {
    let raw = r#"
name: t
anchors:
  app: { type: Root, selector: "[name=App]" }
phases:
  - name: main
    mount: [app]
    steps:
      - intent: broken eval
        action:
          type: Eval
          key: result
          expr: "split_lines(output.raw,"
        expect: { type: Always }
"#;
    let msgs = diag_messages(raw);
    assert_contains(&msgs, ".expr");
}

#[test]
fn tab_anchor_without_parent_reported() {
    let raw = r#"
name: t
anchors:
  my_tab: { type: Tab, selector: "[name~=Dashboard]" }
phases:
  - name: main
    steps:
      - intent: x
        action: { type: NoOp }
        expect: { type: Always }
"#;
    let msgs = diag_messages(raw);
    assert_contains(&msgs, "Tab anchor requires a 'parent' of type Browser");
}

#[test]
fn tab_anchor_with_non_browser_parent_reported() {
    let raw = r#"
name: t
anchors:
  app: { type: Root, selector: "[name=App]" }
  my_tab: { type: Tab, selector: "[name~=Dashboard]", parent: app }
phases:
  - name: main
    steps:
      - intent: x
        action: { type: NoOp }
        expect: { type: Always }
"#;
    let msgs = diag_messages(raw);
    assert_contains(&msgs, "must be of type Browser");
}

#[test]
fn valid_browser_and_tab_anchors_no_diag() {
    let raw = r#"
name: t
anchors:
  browser: { type: Browser, selector: "[name~=Edge]" }
  my_tab: { type: Tab, parent: browser }
phases:
  - name: main
    steps:
      - intent: x
        action: { type: NoOp }
        expect: { type: Always }
"#;
    assert!(lint(raw).is_empty());
}

#[test]
fn browser_navigate_missing_url_reported() {
    let raw = r#"
name: t
anchors:
  browser: { type: Browser, selector: "[name~=Edge]" }
  tab: { type: Tab, parent: browser }
phases:
  - name: main
    steps:
      - intent: navigate
        action: { type: BrowserNavigate, scope: tab }
        expect: { type: Always }
"#;
    let msgs = diag_messages(raw);
    assert_contains(&msgs, "missing required field 'url'");
}

#[test]
fn browser_eval_missing_expr_reported() {
    let raw = r#"
name: t
anchors:
  browser: { type: Browser, selector: "[name~=Edge]" }
  tab: { type: Tab, parent: browser }
phases:
  - name: main
    steps:
      - intent: eval js
        action: { type: BrowserEval, scope: tab }
        expect: { type: Always }
"#;
    let msgs = diag_messages(raw);
    assert_contains(&msgs, "missing required field 'expr'");
}

#[test]
fn browser_eval_without_key_no_diag() {
    let raw = r#"
name: t
anchors:
  browser: { type: Browser, selector: "[name~=Edge]" }
  tab: { type: Tab, parent: browser }
phases:
  - name: main
    mount: [browser, tab]
    steps:
      - intent: click via js
        action:
          type: BrowserEval
          scope: tab
          expr: "document.querySelector('button').click()"
        expect: { type: Always }
"#;
    assert!(lint(raw).is_empty());
}

#[test]
fn tab_with_attribute_missing_title_and_url_reported() {
    let raw = r#"
name: t
anchors:
  browser: { type: Browser, selector: "[name~=Edge]" }
  tab: { type: Tab, parent: browser }
phases:
  - name: main
    steps:
      - intent: wait for tab
        action: { type: NoOp }
        expect: { type: TabWithAttribute, scope: tab }
"#;
    let msgs = diag_messages(raw);
    assert_contains(&msgs, "TabWithAttribute requires at least one of");
}

#[test]
fn tab_with_attribute_plain_string_title_reported() {
    let raw = r#"
name: t
anchors:
  browser: { type: Browser, selector: "[name~=Edge]" }
  tab: { type: Tab, parent: browser }
phases:
  - name: main
    steps:
      - intent: wait for tab
        action: { type: NoOp }
        expect: { type: TabWithAttribute, scope: tab, title: "Git for Windows" }
"#;
    let msgs = diag_messages(raw);
    assert_contains(&msgs, "TextMatch must specify at least one of");
}

#[test]
fn tab_with_attribute_text_match_no_diag() {
    let raw = r#"
name: t
anchors:
  browser: { type: Browser, selector: "[name~=Edge]" }
  tab: { type: Tab, parent: browser }
phases:
  - name: main
    mount: [browser, tab]
    steps:
      - intent: wait for tab
        action: { type: NoOp }
        expect:
          type: TabWithAttribute
          scope: tab
          title:
            contains: "Git for Windows"
"#;
    assert!(lint(raw).is_empty());
}

#[test]
fn window_with_attribute_plain_string_title_reported() {
    let raw = r#"
name: t
anchors:
  app: { type: Root, selector: "[name~=App]" }
phases:
  - name: main
    steps:
      - intent: wait for window
        action: { type: NoOp }
        expect: { type: WindowWithAttribute, title: "My App" }
"#;
    let msgs = diag_messages(raw);
    assert_contains(&msgs, "TitleMatch must specify at least one of");
}

#[test]
fn scope_used_before_mount_reported() {
    let raw = r#"
name: t
anchors:
  app: { type: Root, selector: "[name~=App]" }
phases:
  - name: main
    steps:
      - intent: click something
        action: { type: Click, scope: app, selector: ">> [role=button]" }
        expect: { type: Always }
"#;
    let msgs = diag_messages(raw);
    assert_contains(&msgs, "not mounted in this phase");
}

#[test]
fn scope_mounted_no_diag() {
    let raw = r#"
name: t
anchors:
  app: { type: Root, selector: "[name~=App]" }
phases:
  - name: main
    mount: [app]
    steps:
      - intent: click something
        action: { type: Click, scope: app, selector: ">> [role=button]" }
        expect: { type: Always }
"#;
    assert!(lint(raw).is_empty());
}

#[test]
fn window_closed_unknown_anchor_reported() {
    let raw = r#"
name: t
anchors:
  app: { type: Root, selector: "[name~=App]" }
phases:
  - name: main
    mount: [app]
    steps:
      - intent: wait for close
        action: { type: NoOp }
        expect: { type: WindowClosed, anchor: nonexistent }
"#;
    let msgs = diag_messages(raw);
    assert_contains(&msgs, "unknown anchor 'nonexistent'");
}

#[test]
fn window_with_state_unknown_anchor_reported() {
    let raw = r#"
name: t
anchors:
  app: { type: Root, selector: "[name~=App]" }
phases:
  - name: main
    mount: [app]
    steps:
      - intent: wait for active
        action: { type: NoOp }
        expect: { type: WindowWithState, anchor: ghost, state: active }
"#;
    let msgs = diag_messages(raw);
    assert_contains(&msgs, "unknown anchor 'ghost'");
}

#[test]
fn window_with_state_invalid_state_reported() {
    let raw = r#"
name: t
anchors:
  app: { type: Root, selector: "[name~=App]" }
phases:
  - name: main
    mount: [app]
    steps:
      - intent: wait for state
        action: { type: NoOp }
        expect: { type: WindowWithState, anchor: app, state: focused }
"#;
    let msgs = diag_messages(raw);
    assert_contains(&msgs, "unknown state 'focused'");
}

#[test]
fn precondition_linted() {
    let raw = r#"
name: t
anchors:
  app: { type: Root, selector: "[name~=App]" }
phases:
  - name: main
    mount: [app]
    steps:
      - intent: conditional click
        precondition: { type: ElementFound, scope: app, selector: ">> [role=button]" }
        action: { type: Click, scope: app, selector: ">> [role=button]" }
        expect: { type: Always }
"#;
    assert!(lint(raw).is_empty());
}

#[test]
fn precondition_unknown_condition_type_reported() {
    let raw = r#"
name: t
anchors:
  app: { type: Root, selector: "[name~=App]" }
phases:
  - name: main
    mount: [app]
    steps:
      - intent: conditional click
        precondition: { type: Bogus, scope: app }
        action: { type: Click, scope: app, selector: ">> [role=button]" }
        expect: { type: Always }
"#;
    let msgs = diag_messages(raw);
    assert_contains(&msgs, "unknown condition type 'Bogus'");
}

#[test]
fn on_success_invalid_value_reported() {
    let raw = r#"
name: t
anchors:
  app: { type: Root, selector: "[name~=App]" }
phases:
  - name: main
    mount: [app]
    steps:
      - intent: click
        action: { type: Click, scope: app, selector: ">> [role=button]" }
        expect: { type: Always }
        on_success: break
"#;
    let msgs = diag_messages(raw);
    assert_contains(&msgs, "unknown on_success value 'break'");
}

#[test]
fn on_success_valid_return_phase_no_diag() {
    let raw = r#"
name: t
anchors:
  app: { type: Root, selector: "[name~=App]" }
phases:
  - name: main
    mount: [app]
    steps:
      - intent: click
        action: { type: Click, scope: app, selector: ">> [role=button]" }
        expect: { type: Always }
        on_success: return_phase
"#;
    assert!(lint(raw).is_empty());
}

#[test]
fn foreground_is_dialog_title_validated() {
    let raw = r#"
name: t
phases:
  - name: main
    steps:
      - intent: wait for dialog
        action: { type: NoOp }
        expect:
          type: ForegroundIsDialog
          title: "plain string not a TitleMatch"
"#;
    let msgs = diag_messages(raw);
    assert_contains(&msgs, "TitleMatch must specify at least one of");
}

#[test]
fn click_at_invalid_kind_reported() {
    let raw = r#"
name: t
anchors:
  app: { type: Root, selector: "[name~=App]" }
phases:
  - name: main
    mount: [app]
    steps:
      - intent: click at position
        action:
          type: ClickAt
          scope: app
          selector: ">> [role=button]"
          x_pct: 0.5
          y_pct: 0.5
          kind: center
        expect: { type: Always }
"#;
    let msgs = diag_messages(raw);
    assert_contains(&msgs, "unknown click kind 'center'");
}

#[test]
fn click_at_valid_kind_no_diag() {
    let raw = r#"
name: t
anchors:
  app: { type: Root, selector: "[name~=App]" }
phases:
  - name: main
    mount: [app]
    steps:
      - intent: click at position
        action:
          type: ClickAt
          scope: app
          selector: ">> [role=button]"
          x_pct: 0.5
          y_pct: 0.5
          kind: right
        expect: { type: Always }
"#;
    assert!(lint(raw).is_empty());
}

#[test]
fn extract_invalid_attribute_reported() {
    let raw = r#"
name: t
anchors:
  app: { type: Root, selector: "[name~=App]" }
phases:
  - name: main
    mount: [app]
    steps:
      - intent: extract something
        action:
          type: Extract
          scope: app
          selector: ">> [role=label]"
          key: result
          attribute: label
        expect: { type: Always }
"#;
    let msgs = diag_messages(raw);
    assert_contains(&msgs, "unknown attribute 'label'");
}

#[test]
fn extract_valid_attribute_no_diag() {
    let raw = r#"
name: t
anchors:
  app: { type: Root, selector: "[name~=App]" }
phases:
  - name: main
    mount: [app]
    steps:
      - intent: extract something
        action:
          type: Extract
          scope: app
          selector: ">> [role=label]"
          key: result
          attribute: inner_text
        expect: { type: Always }
"#;
    assert!(lint(raw).is_empty());
}

#[test]
fn scope_mounted_in_prior_phase_no_diag() {
    let raw = r#"
name: t
anchors:
  app: { type: Root, selector: "[name~=App]" }
phases:
  - name: open
    mount: [app]
    steps:
      - intent: activate app
        action: { type: ActivateWindow, scope: app }
        expect: { type: Always }
  - name: interact
    steps:
      - intent: click something
        action: { type: Click, scope: app, selector: ">> [role=button]" }
        expect: { type: Always }
"#;
    assert!(lint(raw).is_empty());
}
