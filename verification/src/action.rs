//! Action types, cost quoting, and payload hashing.
use crate::digest::{sha256, sha256_digest};
use crate::errors::KernelResult;
use crate::hex::{bytes_to_hex, hex_of};
use crate::json::{to_bytes, value_bytes, JsonValue};
use vstd::prelude::*;

verus! {

/// The four atomic action types.
///
/// Energy cost = action cost + append cost (see [`quote_cost`]).
#[derive(Debug, Clone, Copy, PartialEq, Eq, Structural)]
pub enum ActionType {
    Observe,
    Create,
    Mutate,
    Execute,
}

impl ActionType {
    pub open spec fn spec_is_state_changing(&self) -> bool {
        !(*self is Observe)
    }

    pub open spec fn spec_as_str(&self) -> Seq<char> {
        match self {
            ActionType::Observe => "observe"@,
            ActionType::Create => "create"@,
            ActionType::Mutate => "mutate"@,
            ActionType::Execute => "execute"@,
        }
    }

    /// Returns `true` for all types except `Observe`.
    pub fn is_state_changing(&self) -> (r: bool)
        ensures
            r == self.spec_is_state_changing(),
    {
        !matches!(self, ActionType::Observe)
    }

    /// The lowercase name used in serialization and event logs.
    pub fn as_str(&self) -> (r: &'static str)
        ensures
            r@ == self.spec_as_str(),
    {
        match self {
            ActionType::Observe => "observe",
            ActionType::Create => "create",
            ActionType::Mutate => "mutate",
            ActionType::Execute => "execute",
        }
    }
}

/// An atomic action submitted by an actor.
#[derive(Debug)]
pub struct Action {
    pub actor_id: String,
    pub action_type: ActionType,
    pub target: String,
    pub payload: JsonValue,
    pub timestamp: Option<String>,
}

/// The `output_bytes` field of a payload, or 0 when absent or not an unsigned integer.
pub open spec fn output_bytes_of(payload: JsonValue) -> u64 {
    match payload.spec_get("output_bytes"@) {
        Some(v) => match v.spec_as_u64() {
            Some(n) => n,
            None => 0,
        },
        None => 0,
    }
}

/// Cost of the operation itself.
pub open spec fn action_cost(t: ActionType, payload: JsonValue) -> int {
    match t {
        ActionType::Observe => 0,
        ActionType::Create => 10,
        ActionType::Mutate => 15,
        ActionType::Execute => 25 + output_bytes_of(payload) / 256,
    }
}

/// Cost of recording the action: 1 + payload bytes / 1024.
pub open spec fn append_cost_of(payload: JsonValue) -> int {
    (1 + value_bytes(payload).len() / 1024) as int
}

/// Total energy cost of an action.
pub open spec fn cost_of(a: Action) -> int {
    action_cost(a.action_type, a.payload) + append_cost_of(a.payload)
}

fn output_bytes(payload: &JsonValue) -> (r: u64)
    ensures
        r == output_bytes_of(*payload),
{
    match payload.get("output_bytes") {
        Some(v) => match v.as_u64() {
            Some(n) => n,
            None => 0,
        },
        None => 0,
    }
}

fn append_cost(payload: &JsonValue) -> (r: u64)
    ensures
        r == append_cost_of(*payload),
        r <= 1 + u64::MAX / 1024,
{
    let bytes = to_bytes(payload);
    1 + (bytes.len() as u64) / 1024
}

/// Computes the energy cost for an action: action cost (observe 0, create 10,
/// mutate 15, execute 25 + output_bytes/256) plus append cost
/// (1 + payload_bytes/1024).
pub fn quote_cost(action: &Action) -> (c: u64)
    ensures
        c == cost_of(*action),
        c >= 1,
        c <= i64::MAX,
{
    let ac: u64 = match action.action_type {
        ActionType::Observe => 0,
        ActionType::Create => 10,
        ActionType::Mutate => 15,
        ActionType::Execute => 25 + output_bytes(&action.payload) / 256,
    };
    let app = append_cost(&action.payload);
    assert(ac <= 25 + u64::MAX / 256);
    ac + app
}

/// Hex text of the SHA-256 digest of the payload's compact serialization.
pub open spec fn payload_hash_of(payload: JsonValue) -> Seq<char> {
    hex_of(sha256_digest(value_bytes(payload)))
}

/// Computes the SHA-256 hash of the action's payload as a hex string.
pub fn payload_hash_hex(action: &Action) -> (r: KernelResult<String>)
    ensures
        r matches Ok(h) && h@ == payload_hash_of(action.payload),
{
    let bytes = to_bytes(&action.payload);
    let digest = sha256(bytes.as_slice());
    Ok(bytes_to_hex(digest.as_slice()))
}

} // verus!
