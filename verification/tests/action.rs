use ui_automata::action::{
    csv_lines, first_name_role, first_with_role, push_all, record_extracted, record_value, sub_output, ExtractAttribute,
};
use ui_automata::text::split_lines;
use ui_automata::executor::Vars;
use ui_automata::output::Output;

#[test]
fn extract_attribute_defaults_to_text() {
    assert_eq!(ExtractAttribute::default(), ExtractAttribute::Text);
}

#[test]
fn sub_output_uses_first_output_value() {
    let mut out = Output::new();
    out.push("name", "Alice");
    out.push("name", "Bob");
    let locals = Vars::new();
    assert_eq!(sub_output("hi {output.name}!", &locals, &out), "hi Alice!");
    assert_eq!(
        sub_output("{output.name}/{output.name}", &locals, &out),
        "Alice/Alice"
    );
}

#[test]
fn sub_output_falls_back_to_locals() {
    let out = Output::new();
    let mut locals = Vars::new();
    locals.insert("v".to_string(), "42".to_string());
    assert_eq!(sub_output("value={output.v}", &locals, &out), "value=42");
}

#[test]
fn sub_output_output_checked_before_locals() {
    let mut out = Output::new();
    out.push("k", "from_output");
    let mut locals = Vars::new();
    locals.insert("k".to_string(), "from_local".to_string());
    assert_eq!(sub_output("{output.k}", &locals, &out), "from_output");
}

#[test]
fn sub_output_unknown_key_expands_to_nothing() {
    let out = Output::new();
    let locals = Vars::new();
    assert_eq!(sub_output("a{output.nope}b", &locals, &out), "ab");
    assert_eq!(sub_output("{output.unclosed", &locals, &out), "{output.unclosed");
    assert_eq!(sub_output("plain text", &locals, &out), "plain text");
}

fn strings(v: &[&str]) -> Vec<String> {
    v.iter().map(|s| s.to_string()).collect()
}

#[test]
fn extract_to_output_appends_every_value() {
    let mut locals = Vars::new();
    let mut out = Output::new();
    out.push("names", "first");
    record_extracted(&mut locals, &mut out, "names", &strings(&["a", "b"]), false);
    assert_eq!(out.get("names"), &strings(&["first", "a", "b"])[..]);
    assert_eq!(locals.len(), 0);
}

#[test]
fn extract_to_local_keeps_last_value() {
    let mut locals = Vars::new();
    let mut out = Output::new();
    record_extracted(&mut locals, &mut out, "v", &strings(&["a", "b", "c"]), true);
    assert_eq!(locals.get("v").map(String::as_str), Some("c"));
    assert!(out.is_empty());
    record_extracted(&mut locals, &mut out, "v", &Vec::new(), true);
    assert_eq!(locals.get("v").map(String::as_str), Some("c"));
}

#[test]
fn eval_result_goes_to_local_and_output() {
    let mut locals = Vars::new();
    let mut out = Output::new();
    record_value(&mut locals, &mut out, &Some("x".to_string()), "42", &Some("results".to_string()));
    assert_eq!(locals.get("x").map(String::as_str), Some("42"));
    assert_eq!(out.get("results"), &strings(&["42"])[..]);
    record_value(&mut locals, &mut out, &None, "7", &None);
    assert_eq!(locals.len(), 1);
    assert_eq!(out.get("results").len(), 1);
}

#[test]
fn write_output_quotes_and_doubles_quotes() {
    assert_eq!(csv_lines(&strings(&["plain", "say \"hi\"", ""])), "\"plain\"\n\"say \"\"hi\"\"\"\n\"\"\n");
    assert_eq!(csv_lines(&[]), "");
}

#[test]
fn exec_stdout_lines() {
    assert_eq!(split_lines("a\nb\r\nc"), strings(&["a", "b", "c"]));
    assert_eq!(split_lines("a\n\nb\n"), strings(&["a", "", "b"]));
    assert_eq!(split_lines(""), Vec::<String>::new());
    assert_eq!(split_lines("\n"), strings(&[""]));
    assert_eq!(split_lines("x\r"), strings(&["x\r"]));
    assert_eq!(split_lines("x\r\ny"), strings(&["x", "y"]));
    let mut out = Output::new();
    push_all(&mut out, "k", &split_lines("one\ntwo\n"));
    assert_eq!(out.get("k"), &strings(&["one", "two"])[..]);
}

#[test]
fn picking_children() {
    let roles = strings(&["pane", "dialog", "dialog"]);
    assert_eq!(first_with_role(&roles, "dialog"), Some(1));
    assert_eq!(first_with_role(&roles, "button"), None);
    let items = vec![
        (Some("OK".to_string()), "text".to_string()),
        (None, "button".to_string()),
        (Some("OK".to_string()), "button".to_string()),
    ];
    assert_eq!(first_name_role(&items, "OK", ""), Some(0));
    assert_eq!(first_name_role(&items, "OK", "button"), Some(2));
    assert_eq!(first_name_role(&items, "Cancel", ""), None);
}
