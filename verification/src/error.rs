use vstd::prelude::*;

verus! {

/// Errors raised by the automation engine.
#[derive(Debug)]
pub enum AutomataError {
    Internal(String),
    Platform(String),
    Cancelled,
    /// A condition that evaluated to false, with the reason: the
    /// screenshot comparison or the process exit code that decided it.
    ConditionFalse(String),
}

/// The text an error displays: its message, or `cancelled`.
pub open spec fn error_text(e: AutomataError) -> Seq<char> {
    match e {
        AutomataError::Internal(m) => m@,
        AutomataError::Platform(m) => m@,
        AutomataError::Cancelled => "cancelled"@,
        AutomataError::ConditionFalse(m) => m@,
    }
}

impl AutomataError {
    /// The displayed text of the error.
    pub fn to_string(&self) -> (r: String)
        ensures
            r@ == error_text(*self),
    {
        match self {
            AutomataError::Internal(m) => m.clone(),
            AutomataError::Platform(m) => m.clone(),
            AutomataError::Cancelled => "cancelled".to_owned(),
            AutomataError::ConditionFalse(m) => m.clone(),
        }
    }
}

} // verus!
