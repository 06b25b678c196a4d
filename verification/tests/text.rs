use ui_automata::text::{
    decimal_string, find_sub, join_chars, less_chars, parse_uint, replace_all,
    sorted_distinct_exec, trim, trim_quotes,
};

fn v(s: &str) -> Vec<char> {
    s.chars().collect()
}

fn s(v: &[char]) -> String {
    v.iter().collect()
}

#[test]
fn text_trim_and_quotes() {
    assert_eq!(s(&trim(&v("  a b \t\n"))), "a b");
    assert_eq!(s(&trim(&v("   "))), "");
    assert_eq!(s(&trim_quotes(&v("'abc'"))), "abc");
    assert_eq!(s(&trim_quotes(&v("\"abc\""))), "abc");
}

#[test]
fn text_find_and_replace() {
    assert_eq!(find_sub(&v("hello world"), &v("o w")), Some(4));
    assert_eq!(find_sub(&v("hello"), &v("")), Some(0));
    assert_eq!(find_sub(&v("hi"), &v("hello")), None);
    assert_eq!(s(&replace_all(&v("aaa"), &v("aa"), &v("b"))), "ba");
    assert_eq!(s(&replace_all(&v("x.y.z"), &v("."), &v("::"))), "x::y::z");
}

#[test]
fn text_numbers() {
    assert_eq!(s(&decimal_string(0)), "0");
    assert_eq!(s(&decimal_string(1234567890)), "1234567890");
    assert_eq!(parse_uint(&v("42"), 100), Some(42));
    assert_eq!(parse_uint(&v("+7"), 100), Some(7));
    assert_eq!(parse_uint(&v("101"), 100), None);
    assert_eq!(parse_uint(&v(""), 100), None);
    assert_eq!(parse_uint(&v("4a"), 100), None);
    assert_eq!(parse_uint(&v("18446744073709551615"), u64::MAX), Some(u64::MAX));
    assert_eq!(parse_uint(&v("18446744073709551616"), u64::MAX), None);
}

#[test]
fn text_sorted_distinct_and_join() {
    let names = vec!["b".to_string(), "a".to_string(), "b".to_string(), "ab".to_string()];
    let sorted = sorted_distinct_exec(&names);
    let shown: Vec<String> = sorted.iter().map(|c| s(c)).collect();
    assert_eq!(shown, vec!["a", "ab", "b"]);
    assert_eq!(s(&join_chars(&sorted, &v(", "))), "a, ab, b");
    assert!(less_chars(&v("a"), &v("ab")));
    assert!(!less_chars(&v("b"), &v("ab")));
    assert!(!less_chars(&v("a"), &v("a")));
}
