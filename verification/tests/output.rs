use ui_automata::output::Output;

fn strings(v: &[&str]) -> Vec<String> {
    v.iter().map(|s| s.to_string()).collect()
}

#[test]
fn output_push_appends_under_key() {
    let mut o = Output::new();
    assert!(o.is_empty());
    o.push("k", "a");
    o.push("j", "c");
    o.push("k", "b");
    assert!(!o.is_empty());
    assert_eq!(o.get("k"), strings(&["a", "b"]).as_slice());
    assert_eq!(o.get("j"), strings(&["c"]).as_slice());
    assert!(o.get("missing").is_empty());
}

#[test]
fn output_keys_keep_first_write_order() {
    let mut o = Output::new();
    o.push("b", "1");
    o.push("a", "2");
    o.push("b", "3");
    let m = o.as_map();
    assert_eq!(m.len(), 2);
    assert_eq!(m[0].0, "b");
    assert_eq!(m[0].1, strings(&["1", "3"]));
    assert_eq!(m[1].0, "a");
    let owned = o.into_map();
    assert_eq!(owned[1].1, strings(&["2"]));
}

#[test]
fn output_get_after_push_sees_only_its_key() {
    let mut o = Output::new();
    o.push("x", "1");
    let before_y = o.get("y").to_vec();
    o.push("z", "2");
    assert_eq!(o.get("y").to_vec(), before_y);
    assert_eq!(o.get("x"), strings(&["1"]).as_slice());
}

#[test]
fn output_merge_appends_other_values() {
    let mut a = Output::new();
    a.push("k", "a1");
    a.push("only_a", "x");
    let mut b = Output::new();
    b.push("k", "b1");
    b.push("k", "b2");
    b.push("only_b", "y");
    a.merge(b);
    assert_eq!(a.get("k"), strings(&["a1", "b1", "b2"]).as_slice());
    assert_eq!(a.get("only_a"), strings(&["x"]).as_slice());
    assert_eq!(a.get("only_b"), strings(&["y"]).as_slice());
    assert_eq!(a.as_map()[2].0, "only_b");
}

#[test]
fn output_clone_is_equal() {
    let mut a = Output::new();
    a.push("k", "v");
    let c = a.clone();
    assert_eq!(c.get("k"), a.get("k"));
}

#[test]
fn output_is_empty_until_a_value_is_written() {
    let mut o = Output::new();
    assert!(o.is_empty());
    assert!(o.get("k").is_empty());
    o.push("k", "v");
    assert!(!o.is_empty());
    assert_eq!(o.get("k"), &strings(&["v"])[..]);
}
