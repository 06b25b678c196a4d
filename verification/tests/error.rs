use ui_automata::error::AutomataError;

#[test]
fn error_display_text() {
    assert_eq!(AutomataError::Internal("boom".into()).to_string(), "boom");
    assert_eq!(AutomataError::Platform("uia".into()).to_string(), "uia");
    assert_eq!(AutomataError::Cancelled.to_string(), "cancelled");
    assert_eq!(AutomataError::ConditionFalse("no".into()).to_string(), "no");
}
