//! Per-step policies: what happens after a step fails, after it succeeds, and
//! how a timed-out step is retried.
use vstd::prelude::*;

use std::time::Duration;

use crate::duration::{duration_overflows, from_str, spec_duration_from_str};
use crate::text::{append, chars_of, eq_chars, string_of};

verus! {

/// What the executor does when a step's `expect` condition times out (and any
/// `fallback` action did not satisfy it either).
#[derive(Debug, Clone, Copy, PartialEq, Eq, Structural)]
pub enum OnFailure {
    /// Propagate the error and abort the current phase. The default.
    Abort,
    /// Log the failure and go on as if the step had succeeded.
    Continue,
}

impl Default for OnFailure {
    fn default() -> (r: Self)
        ensures
            r == OnFailure::Abort,
    {
        OnFailure::Abort
    }
}

/// What the executor does right after a step succeeds.
#[derive(Debug, Clone, Copy, PartialEq, Eq, Structural)]
pub enum OnSuccess {
    /// Proceed to the next step. The default.
    Continue,
    /// Stop the current phase at once (not an error).
    ReturnPhase,
}

impl Default for OnSuccess {
    fn default() -> (r: Self)
        ensures
            r == OnSuccess::Continue,
    {
        OnSuccess::Continue
    }
}

/// What the executor does when a step's `expect` condition times out.
#[derive(Debug, Clone, Copy)]
pub enum RetryPolicy {
    /// No retries: the workflow default applies, or the step fails.
    NoRetry,
    /// Re-execute the action up to `count` more times, `delay` apart.
    Fixed { count: u32, delay: Duration },
    /// Run the recovery handlers, then retry the step.
    WithRecovery,
}

impl Default for RetryPolicy {
    fn default() -> (r: Self)
        ensures
            r is NoRetry,
    {
        RetryPolicy::NoRetry
    }
}

/// A retry policy written as a plain word: `none` or `with_recovery`.
pub open spec fn retry_policy_from_word(s: Seq<char>) -> Result<RetryPolicy, Seq<char>> {
    if s == "none"@ {
        Ok(RetryPolicy::NoRetry)
    } else if s == "with_recovery"@ {
        Ok(RetryPolicy::WithRecovery)
    } else {
        Err("unknown RetryPolicy '"@ + s + "'"@)
    }
}

/// A retry policy written as `fixed: { count: <n>, delay: <duration> }`, given
/// the count (when it is an unsigned integer) and the delay text (when it is
/// a string). The count keeps its low 32 bits.
pub open spec fn retry_policy_fixed(count: Option<u64>, delay: Option<Seq<char>>) -> Result<
    RetryPolicy,
    Seq<char>,
> {
    match count {
        None => Err("RetryPolicy.fixed missing 'count'"@),
        Some(c) => match delay {
            None => Err("RetryPolicy.fixed missing 'delay'"@),
            Some(d) => match spec_duration_from_str(d) {
                Err(e) => Err(e),
                Ok(dur) => Ok(RetryPolicy::Fixed { count: c as u32, delay: dur }),
            },
        },
    }
}

pub open spec fn result_view(r: Result<RetryPolicy, String>) -> Result<RetryPolicy, Seq<char>> {
    match r {
        Ok(p) => Ok(p),
        Err(e) => Err(e@),
    }
}

impl RetryPolicy {
    /// Reads the word form (`none`, `with_recovery`).
    pub fn from_word(s: &str) -> (r: Result<RetryPolicy, String>)
        ensures
            result_view(r) == retry_policy_from_word(s@),
    {
        let sc = chars_of(s);
        if eq_chars(&sc, &chars_of("none")) {
            return Ok(RetryPolicy::NoRetry);
        }
        if eq_chars(&sc, &chars_of("with_recovery")) {
            return Ok(RetryPolicy::WithRecovery);
        }
        let mut msg = chars_of("unknown RetryPolicy '");
        append(&mut msg, &sc);
        append(&mut msg, &chars_of("'"));
        Err(string_of(&msg))
    }

    /// Reads the `fixed` form from its `count` and `delay` fields.
    pub fn from_fixed(count: Option<u64>, delay: Option<&str>) -> (r: Result<RetryPolicy, String>)
        requires
            delay matches Some(d) ==> !duration_overflows(d@),
        ensures
            result_view(r) == retry_policy_fixed(
                count,
                match delay {
                    Some(d) => Some(d@),
                    None => None,
                },
            ),
    {
        let c = match count {
            None => {
                return Err("RetryPolicy.fixed missing 'count'".to_owned());
            },
            Some(c) => c,
        };
        let d = match delay {
            None => {
                return Err("RetryPolicy.fixed missing 'delay'".to_owned());
            },
            Some(d) => d,
        };
        match from_str(d) {
            Err(e) => Err(e.to_owned()),
            Ok(dur) => Ok(RetryPolicy::Fixed { count: c as u32, delay: dur }),
        }
    }
}

} // verus!
