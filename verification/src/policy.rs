//! Action validation and visibility rules.
use crate::action::{quote_cost, Action, ActionType};
use crate::errors::{KernelError, KernelResult};
use crate::text::chars_of;
use vstd::prelude::*;
use vstd::string::*;

verus! {

/// Unicode white space, as `char::is_whitespace` defines it.
pub open spec fn is_white(c: char) -> bool {
    let u = c as u32;
    (0x09 <= u && u <= 0x0d) || u == 0x20 || u == 0x85 || u == 0xa0 || u == 0x1680 || (0x2000 <= u
        && u <= 0x200a) || u == 0x2028 || u == 0x2029 || u == 0x202f || u == 0x205f || u == 0x3000
}

/// Whether a string is empty once white space is trimmed from both ends.
pub open spec fn is_blank(s: Seq<char>) -> bool {
    forall|i: int| 0 <= i < s.len() ==> #[trigger] is_white(s[i])
}

pub(crate) fn is_white_exec(c: char) -> (r: bool)
    ensures
        r == is_white(c),
{
    let u = c as u32;
    (0x09 <= u && u <= 0x0d) || u == 0x20 || u == 0x85 || u == 0xa0 || u == 0x1680 || (0x2000 <= u
        && u <= 0x200a) || u == 0x2028 || u == 0x2029 || u == 0x202f || u == 0x205f || u == 0x3000
}

/// Whether `s.trim().is_empty()`.
pub fn is_blank_str(s: &str) -> (r: bool)
    ensures
        r == is_blank(s@),
{
    let cs = chars_of(s);
    let mut i: usize = 0;
    while i < cs.len()
        invariant
            cs@ == s@,
            i <= cs@.len(),
            forall|j: int| 0 <= j < i ==> #[trigger] is_white(cs@[j]),
        decreases cs@.len() - i,
    {
        if !is_white_exec(cs[i]) {
            return false;
        }
        i = i + 1;
    }
    true
}

/// Validates an action: a non-blank actor id and target.
pub fn validate_action(action: &Action) -> (r: KernelResult<()>)
    ensures
        is_blank(action.actor_id@) ==> (r matches Err(KernelError::PolicyViolation(d)) && d@
            == "actor_id cannot be empty"@),
        !is_blank(action.actor_id@) && is_blank(action.target@) ==> (r matches Err(
            KernelError::PolicyViolation(d),
        ) && d@ == "target cannot be empty"@),
        r is Ok <==> (!is_blank(action.actor_id@) && !is_blank(action.target@)),
{
    if is_blank_str(action.actor_id.as_str()) {
        return Err(KernelError::PolicyViolation(String::from_str("actor_id cannot be empty")));
    }
    if is_blank_str(action.target.as_str()) {
        return Err(KernelError::PolicyViolation(String::from_str("target cannot be empty")));
    }
    if action.action_type.is_state_changing() && quote_cost(action) == 0 {
        return Err(
            KernelError::PolicyViolation(String::from_str("state-changing action must have positive cost")),
        );
    }
    if matches!(action.action_type, ActionType::Observe) {
        check_visibility(action.actor_id.as_str(), action.target.as_str())?;
    }
    Ok(())
}

/// Visibility gate for observe actions: every actor may observe any target.
pub fn check_visibility(_actor_id: &str, _target: &str) -> (r: KernelResult<()>)
    ensures
        r is Ok,
{
    Ok(())
}

/// Read-query gate: any requester may read any data.
pub fn check_read_access(_actor_id: &str, _query_kind: &str) -> (r: KernelResult<()>)
    ensures
        r is Ok,
{
    Ok(())
}

} // verus!
