use std::time::Duration;

use ui_automata::duration::{from_str, overflows};

#[test]
fn duration_each_unit() {
    assert_eq!(from_str("10ns"), Ok(Duration::from_nanos(10)));
    assert_eq!(from_str("7us"), Ok(Duration::from_micros(7)));
    assert_eq!(from_str("200ms"), Ok(Duration::from_millis(200)));
    assert_eq!(from_str("5s"), Ok(Duration::from_secs(5)));
    assert_eq!(from_str("2m"), Ok(Duration::from_secs(120)));
    assert_eq!(from_str("3h"), Ok(Duration::from_secs(10800)));
    assert_eq!(from_str("1d"), Ok(Duration::from_secs(86400)));
}

#[test]
fn duration_zero_and_plus_sign() {
    assert_eq!(from_str("0s"), Ok(Duration::from_secs(0)));
    assert_eq!(from_str("+4s"), Ok(Duration::from_secs(4)));
}

#[test]
fn duration_wrong_suffix() {
    assert_eq!(
        from_str("5"),
        Err("Wrong duration suffix: try `ms`, `s`, `m`, `h`, `d`")
    );
    assert_eq!(
        from_str(""),
        Err("Wrong duration suffix: try `ms`, `s`, `m`, `h`, `d`")
    );
    assert_eq!(
        from_str("5x"),
        Err("Wrong duration suffix: try `ms`, `s`, `m`, `h`, `d`")
    );
}

#[test]
fn duration_bad_number() {
    assert_eq!(from_str("abcs"), Err("Failed to parse duration"));
    assert_eq!(from_str("ms"), Err("Failed to parse duration"));
    assert_eq!(from_str("-1s"), Err("Failed to parse duration"));
    assert_eq!(from_str("1.5s"), Err("Failed to parse duration"));
}

#[test]
fn duration_written_millis_read_back() {
    for n in [0u64, 1, 9, 10, 250, 1000, 123456789] {
        let text = format!("{n}ms");
        assert_eq!(from_str(&text), Ok(Duration::from_millis(n)));
    }
}

#[test]
fn duration_overflow_detected() {
    assert!(overflows("999999999999999999d"));
    assert!(overflows("18446744073709551615m"));
    assert!(!overflows("18446744073709551615s"));
    assert!(!overflows("5m"));
    assert!(!overflows("nonsense"));
}
