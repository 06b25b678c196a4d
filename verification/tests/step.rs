use std::time::Duration;

use ui_automata::step::{OnFailure, OnSuccess, RetryPolicy};

#[test]
fn step_policy_defaults() {
    assert_eq!(OnFailure::default(), OnFailure::Abort);
    assert_eq!(OnSuccess::default(), OnSuccess::Continue);
    assert!(matches!(RetryPolicy::default(), RetryPolicy::NoRetry));
}

#[test]
fn retry_policy_words() {
    assert!(matches!(RetryPolicy::from_word("none"), Ok(RetryPolicy::NoRetry)));
    assert!(matches!(
        RetryPolicy::from_word("with_recovery"),
        Ok(RetryPolicy::WithRecovery)
    ));
    match RetryPolicy::from_word("always") {
        Err(e) => assert_eq!(e, "unknown RetryPolicy 'always'"),
        Ok(_) => panic!("expected an error"),
    }
}

#[test]
fn retry_policy_fixed_form() {
    match RetryPolicy::from_fixed(Some(3), Some("500ms")) {
        Ok(RetryPolicy::Fixed { count, delay }) => {
            assert_eq!(count, 3);
            assert_eq!(delay, Duration::from_millis(500));
        }
        other => panic!("unexpected {other:?}"),
    }
}

#[test]
fn retry_policy_fixed_errors() {
    match RetryPolicy::from_fixed(None, Some("1s")) {
        Err(e) => assert_eq!(e, "RetryPolicy.fixed missing 'count'"),
        Ok(_) => panic!("expected an error"),
    }
    match RetryPolicy::from_fixed(Some(1), None) {
        Err(e) => assert_eq!(e, "RetryPolicy.fixed missing 'delay'"),
        Ok(_) => panic!("expected an error"),
    }
    match RetryPolicy::from_fixed(Some(1), Some("1.5s")) {
        Err(e) => assert_eq!(e, "Failed to parse duration"),
        Ok(_) => panic!("expected an error"),
    }
}
