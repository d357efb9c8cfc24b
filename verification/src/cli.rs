//! Answers typed at the console configuration prompts.
use vstd::prelude::*;
use crate::config::ConfigError;
use crate::text::{
    ascii_lower, chars_of, lower_span_is, number_error, parse_unsigned, parse_unsigned_span,
    spec_number_error,
};

verus! {

broadcast use vstd::string::group_string_axioms;

/// A yes/no answer counts as yes when it is `y`, `yes` or `true`, in any
/// letter case; anything else is no.
pub open spec fn spec_answer_is_yes(answer: Seq<char>) -> bool {
    let a = ascii_lower(answer);
    a == "y"@ || a == "yes"@ || a == "true"@
}

/// A timer answer: empty keeps `default`, otherwise an unsigned decimal number.
pub open spec fn spec_answer_as_timer(answer: Seq<char>, default: u64) -> Result<u64, ConfigError> {
    if answer.len() == 0 {
        Ok(default)
    } else {
        match parse_unsigned(answer, u64::MAX as nat) {
            Some(n) => Ok(n as u64),
            None => Err(ConfigError::InvalidTimer(spec_number_error(answer, u64::MAX as nat))),
        }
    }
}

/// Whether the (trimmed) answer to a yes/no prompt is yes.
pub fn answer_is_yes(answer: &str) -> (b: bool)
    ensures
        b == spec_answer_is_yes(answer@),
{
    let v = chars_of(answer);
    let n = v.len();
    assert(v@.subrange(0, n as int) =~= answer@);
    lower_span_is(&v, 0, n, "y") || lower_span_is(&v, 0, n, "yes") || lower_span_is(&v, 0, n, "true")
}

/// The timer that the (trimmed) answer to a timer prompt gives.
pub fn answer_as_timer(answer: &str, default: u64) -> (r: Result<u64, ConfigError>)
    ensures
        r == spec_answer_as_timer(answer@, default),
{
    let v = chars_of(answer);
    let n = v.len();
    assert(v@.subrange(0, n as int) =~= answer@);
    if n == 0 {
        return Ok(default);
    }
    match parse_unsigned_span(&v, 0, n, u64::MAX) {
        Some(t) => Ok(t),
        None => Err(ConfigError::InvalidTimer(number_error(&v, 0, n, u64::MAX))),
    }
}

} // verus!
