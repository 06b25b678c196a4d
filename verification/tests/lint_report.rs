use ui_automata::lint::{diag_at, lint, lint_error_report, render_diag, LintDiag, Span};
use ui_automata::yaml_tree::{load_first_document, Loaded};

fn diag(line: Option<usize>, col: Option<usize>, path: &str, message: &str) -> LintDiag {
    LintDiag {
        line,
        col,
        end_col: None,
        path: path.to_string(),
        message: message.to_string(),
    }
}

#[test]
fn lint_diag_display_forms() {
    assert_eq!(diag(Some(3), Some(7), "a.b", "bad").to_string(), "3:7 a.b: bad");
    assert_eq!(diag(Some(3), None, "a.b", "bad").to_string(), "3 a.b: bad");
    assert_eq!(diag(None, None, "a.b", "bad").to_string(), "a.b: bad");
}

#[test]
fn lint_report_lists_each_diag() {
    let ds = vec![
        diag(Some(2), Some(5), "phases[0]", "first"),
        diag(None, None, "anchors.app", "second"),
    ];
    assert_eq!(
        lint_error_report(&ds),
        "workflow lint errors:\n  2:5 [phases[0]] first\n  [anchors.app] second"
    );
    assert_eq!(lint_error_report(&vec![]), "workflow lint errors:\n");
}

#[test]
fn diag_at_keeps_single_line_end_column() {
    let d = diag_at(Span { line: 4, col: 2, end_line: 4, end_col: 9 }, "x", "m".to_string());
    assert_eq!((d.line, d.col, d.end_col), (Some(4), Some(2), Some(9)));
    let d2 = diag_at(Span { line: 4, col: 2, end_line: 5, end_col: 1 }, "x", "m".to_string());
    assert_eq!(d2.end_col, None);
    let d3 = diag_at(Span { line: 0, col: 0, end_line: 0, end_col: 0 }, "x", "m".to_string());
    assert_eq!((d3.line, d3.col, d3.end_col), (None, None, None));
}

#[test]
fn lint_reports_yaml_syntax_error() {
    let diags = lint("name: [unclosed\n");
    assert_eq!(diags.len(), 1);
    assert!(diags[0].line.is_some());
    assert!(diags[0].message.starts_with("YAML parse error: "));
    assert_eq!(diags[0].path, "");
}

#[test]
fn lint_empty_input_has_no_diags() {
    assert!(lint("").is_empty());
}

#[test]
fn lint_positions_are_one_based() {
    let raw = "name: t\nphases:\n  - name: main\n    steps:\n      - intent: x\n        action: { type: Clik }\n        expect: { type: Always }\n";
    let diags = lint(raw);
    let d = diags
        .iter()
        .find(|d| d.message.contains("unknown action type 'Clik'"))
        .expect("diag for the action type");
    assert_eq!(d.line, Some(6));
}

#[test]
fn load_first_document_kinds() {
    assert!(matches!(load_first_document("a: 1"), Loaded::Document(_)));
    assert!(matches!(load_first_document(""), Loaded::Empty));
    assert!(matches!(load_first_document("a: [1"), Loaded::ParseError(..)));
}

#[test]
fn yaml_tree_lookup() {
    match load_first_document("name: demo\nlist: [1, 2]\n") {
        Loaded::Document(n) => {
            assert_eq!(n.get_str("name").map(|(s, _)| s.as_str()), Some("demo"));
            assert!(n.get("list").unwrap().value.is_list());
            assert!(n.get("missing").is_none());
            assert!(n.get("list").unwrap().as_str().is_none());
        }
        _ => panic!("expected a document"),
    }
}

#[test]
fn render_diag_with_underline_and_path() {
    let d = LintDiag {
        line: Some(3),
        col: Some(5),
        end_col: Some(9),
        path: "phases[0].name".to_string(),
        message: "bad name".to_string(),
    };
    let lines = vec!["a".to_string(), "b".to_string(), "    name: x".to_string()];
    assert_eq!(
        render_diag(&d, "wf.yml", &lines),
        "error: bad name\n  --> wf.yml:3:5\n   |\n3  |     name: x\n   |     ^^^^ phases[0].name\n\n"
    );
}

#[test]
fn render_diag_without_position() {
    let d = LintDiag {
        line: None,
        col: None,
        end_col: None,
        path: "anchors.app".to_string(),
        message: "m".to_string(),
    };
    assert_eq!(render_diag(&d, "f", &vec![]), "error: m\n  --> f\n      = note: anchors.app\n\n");
    let d2 = LintDiag { line: Some(12), col: None, end_col: None, path: String::new(), message: "m".to_string() };
    assert_eq!(render_diag(&d2, "f", &vec![]), "error: m\n  --> f:12\n    |\n12  | \n\n");
    let d3 = LintDiag { line: Some(1), col: Some(1), end_col: None, path: String::new(), message: "m".to_string() };
    assert_eq!(render_diag(&d3, "f", &vec!["x".to_string()]), "error: m\n  --> f:1:1\n   |\n1  | x\n   | ^\n\n");
}
