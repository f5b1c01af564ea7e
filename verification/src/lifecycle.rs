//! Actor lifecycle operations: freeze, unfreeze, terminate, energy share.
//!
//! A lifecycle operation is a `mutate` on target `actor/{actor_id}` whose
//! payload names the operation in `op`.
use crate::actor::{ActorRecord, ActorStatus, ActorType, LifecycleOp};
use crate::actor_store::{actor_active, actor_index, descendant_ids, has_actor, with_share, with_status, ActorStore};
use crate::errors::{KernelError, KernelResult};
use crate::json::{JsonNumber, JsonValue};
use crate::text::{contains_str, contains_text, push_str, str_eq};
use vstd::prelude::*;
use vstd::string::*;

verus! {

pub open spec fn reason_of(payload: JsonValue) -> Option<Seq<char>> {
    match payload.spec_get("reason"@) {
        Some(v) => v.spec_as_str(),
        None => None,
    }
}

pub open spec fn opt_string_view(o: Option<String>) -> Option<Seq<char>> {
    match o {
        Some(s) => Some(s@),
        None => None,
    }
}

/// What a lifecycle request names: the target actor id after `actor/`, and
/// the operation, when the target and `op` are well formed.
pub open spec fn lifecycle_request(target: Seq<char>, payload: JsonValue) -> Option<(Seq<char>, Seq<char>)> {
    if target.len() > 6 && target.take(6) == "actor/"@ {
        match payload.spec_get("op"@) {
            Some(v) => match v.spec_as_str() {
                Some(op) => if op == "freeze"@ || op == "unfreeze"@ || op == "terminate"@ {
                    Some((target.skip(6), op))
                } else if op == "update_energy_share"@ {
                    match payload.spec_get("energy_share"@) {
                        Some(JsonValue::Number(_)) => Some((target.skip(6), op)),
                        _ => None,
                    }
                } else {
                    None
                },
                None => None,
            },
            None => None,
        }
    } else {
        None
    }
}

/// The target actor id of a lifecycle request.
pub open spec fn lifecycle_target_of(target: Seq<char>, payload: JsonValue) -> Seq<char> {
    match lifecycle_request(target, payload) {
        Some((id, _)) => id,
        None => Seq::empty(),
    }
}

/// The operation name of a lifecycle request.
pub open spec fn lifecycle_op_of(target: Seq<char>, payload: JsonValue) -> Seq<char> {
    match lifecycle_request(target, payload) {
        Some((_, op)) => op,
        None => Seq::empty(),
    }
}

/// Parses a lifecycle operation from an action's target and payload; `None`
/// when the action is not one.
pub fn parse_lifecycle_op(target: &str, payload: &JsonValue) -> (r: Option<(String, LifecycleOp)>)
    ensures
        r is None <==> lifecycle_request(target@, *payload) is None,
        r matches Some((id, _)) ==> id@ == lifecycle_target_of(target@, *payload),
        lifecycle_op_of(target@, *payload) == "freeze"@ ==> (r matches Some((_, op)) ==> (
        op matches LifecycleOp::Freeze { reason } && opt_string_view(reason) == reason_of(*payload))),
        lifecycle_op_of(target@, *payload) == "unfreeze"@ ==> (r matches Some((_, op)) ==> (
        op is Unfreeze)),
        lifecycle_op_of(target@, *payload) == "terminate"@ ==> (r matches Some((_, op)) ==> (
        op matches LifecycleOp::Terminate { reason } && opt_string_view(reason) == reason_of(
            *payload,
        ))),
        lifecycle_op_of(target@, *payload) == "update_energy_share"@ ==> (r matches Some((_, op))
            ==> (op matches LifecycleOp::UpdateEnergyShare { energy_share }
            && payload.spec_get("energy_share"@) == Some(JsonValue::Number(energy_share)))),
{
    proof {
        reveal_strlit("actor/");
        reveal_strlit("freeze");
        reveal_strlit("unfreeze");
        reveal_strlit("terminate");
        reveal_strlit("update_energy_share");
        assert("unfreeze"@.len() != "freeze"@.len());
        assert("terminate"@.len() != "freeze"@.len() && "terminate"@.len() != "unfreeze"@.len());
        assert("update_energy_share"@.len() != "freeze"@.len());
    }
    if !crate::text::starts_with(target, "actor/") {
        return None;
    }
    let chars = crate::text::chars_of(target);
    if chars.len() <= 6 {
        return None;
    }
    let id_chars = vstd::slice::slice_subrange(chars.as_slice(), 6, chars.len());
    let actor_id = crate::text::string_from_chars(id_chars);
    proof {
        assert(actor_id@ =~= target@.skip(6));
    }
    let op_v = match payload.get("op") {
        Some(v) => v,
        None => {
            return None;
        },
    };
    let op_str = match op_v.as_str() {
        Some(s) => s,
        None => {
            return None;
        },
    };
    let reason = match payload.get("reason") {
        Some(v) => match v.as_str() {
            Some(s) => Some(String::from_str(s)),
            None => None,
        },
        None => None,
    };
    let op = if str_eq(op_str, "freeze") {
        LifecycleOp::Freeze { reason }
    } else if str_eq(op_str, "unfreeze") {
        LifecycleOp::Unfreeze
    } else if str_eq(op_str, "terminate") {
        LifecycleOp::Terminate { reason }
    } else if str_eq(op_str, "update_energy_share") {
        match payload.get("energy_share") {
            Some(JsonValue::Number(n)) => {
                let share = match n {
                    JsonNumber::PosInt(u) => JsonNumber::PosInt(*u),
                    JsonNumber::NegInt(i) => JsonNumber::NegInt(*i),
                    JsonNumber::Float(t) => JsonNumber::Float(t.clone()),
                };
                LifecycleOp::UpdateEnergyShare { energy_share: share }
            },
            _ => {
                return None;
            },
        }
    } else {
        return None;
    };
    Some((actor_id, op))
}

/// Whether the initiator may perform a lifecycle operation on the target:
/// never on a human; `root` on any agent; an agent never; a human on the
/// agents whose lineage lists it.
pub open spec fn lifecycle_allowed(initiator: ActorRecord, target: ActorRecord) -> bool {
    target.actor_type != ActorType::Human && (initiator.actor_id@ == "root"@ || (
    initiator.actor_type == ActorType::Human && contains_text(target.lineage@, initiator.actor_id@)))
}

/// Checks that the initiator may perform a lifecycle operation on the target.
pub fn validate_lifecycle_authorization(initiator: &ActorRecord, target: &ActorRecord, _op: &LifecycleOp) -> (r:
    KernelResult<()>)
    ensures
        r is Ok <==> lifecycle_allowed(*initiator, *target),
        target.actor_type == ActorType::Human ==> (r matches Err(KernelError::PolicyViolation(d))
            && d@ == "cannot perform lifecycle operations on human actors"@),
        target.actor_type != ActorType::Human && initiator.actor_id@ != "root"@
            && initiator.actor_type == ActorType::Agent ==> (r matches Err(
            KernelError::PolicyViolation(d),
        ) && d@ == "agent "@ + initiator.actor_id@
            + " cannot perform lifecycle operations — only humans can manage agents (PIP-001 §5)"@),
        target.actor_type != ActorType::Human && initiator.actor_id@ != "root"@
            && initiator.actor_type == ActorType::Human && !contains_text(
            target.lineage@,
            initiator.actor_id@,
        ) ==> (r matches Err(KernelError::PolicyViolation(d)) && d@ == "human "@
            + initiator.actor_id@ + " cannot manage actor "@ + target.actor_id@
            + " (not in lineage)"@),
{
    if target.actor_type == ActorType::Human {
        return Err(
            KernelError::PolicyViolation(
                String::from_str("cannot perform lifecycle operations on human actors"),
            ),
        );
    }
    if str_eq(initiator.actor_id.as_str(), "root") {
        return Ok(());
    }
    match initiator.actor_type {
        ActorType::Agent => {
            let mut d = String::new();
            push_str(&mut d, "agent ");
            push_str(&mut d, initiator.actor_id.as_str());
            push_str(
                &mut d,
                " cannot perform lifecycle operations — only humans can manage agents (PIP-001 §5)",
            );
            Err(KernelError::PolicyViolation(d))
        },
        ActorType::Human => {
            if contains_str(target.lineage.as_slice(), initiator.actor_id.as_str()) {
                return Ok(());
            }
            let mut d = String::new();
            push_str(&mut d, "human ");
            push_str(&mut d, initiator.actor_id.as_str());
            push_str(&mut d, " cannot manage actor ");
            push_str(&mut d, target.actor_id.as_str());
            push_str(&mut d, " (not in lineage)");
            Err(KernelError::PolicyViolation(d))
        },
    }
}

/// Checks that every ancestor in the lineage exists and is active.
pub fn check_lineage_active(actor_store: &ActorStore, lineage: &[String]) -> (r: KernelResult<()>)
    requires
        actor_store.wf(),
    ensures
        r is Ok <==> forall|k: int| 0 <= k < lineage@.len() ==> actor_active(actor_store@, #[trigger] lineage@[k]@),
        r matches Err(e) ==> exists|k: int|
            0 <= k < lineage@.len() && !actor_active(actor_store@, #[trigger] lineage@[k]@)
                && (forall|j: int| 0 <= j < k ==> actor_active(actor_store@, #[trigger] lineage@[j]@))
                && (e matches KernelError::PolicyViolation(d) && d@ == "lineage ancestor "@
                + lineage@[k]@ + " is not active (PIP-001 §7: delegator absence)"@),
{
    let mut i: usize = 0;
    while i < lineage.len()
        invariant
            i <= lineage@.len(),
            actor_store.wf(),
            forall|j: int| 0 <= j < i ==> actor_active(actor_store@, #[trigger] lineage@[j]@),
        decreases lineage@.len() - i,
    {
        let active = match actor_store.is_active(lineage[i].as_str()) {
            Ok(b) => b,
            Err(e) => {
                return Err(e);
            },
        };
        if !active {
            let mut d = String::new();
            push_str(&mut d, "lineage ancestor ");
            push_str(&mut d, lineage[i].as_str());
            push_str(&mut d, " is not active (PIP-001 §7: delegator absence)");
            return Err(KernelError::PolicyViolation(d));
        }
        i = i + 1;
    }
    Ok(())
}

/// Freezes the target and every active actor whose lineage lists it; returns
/// the frozen ids, the target first.
pub fn execute_freeze(actor_store: &mut ActorStore, target_id: &str) -> (r: KernelResult<Vec<String>>)
    requires
        old(actor_store).wf(),
    ensures
        final(actor_store).wf(),
        !has_actor(old(actor_store)@, target_id@) ==> (r matches Err(KernelError::ActorNotFound(d))
            && d@ == target_id@) && final(actor_store)@ == old(actor_store)@,
        has_actor(old(actor_store)@, target_id@) ==> (r matches Ok(ids) && ids@.len() >= 1 && ids@[0]@
            == target_id@ && final(actor_store)@.len() == old(actor_store)@.len() && (forall|k: int|
            0 <= k < ids@.len() ==> !actor_active(final(actor_store)@, #[trigger] ids@[k]@))),
{
    match actor_store.set_status_in_tx(target_id, ActorStatus::Frozen) {
        Ok(()) => {},
        Err(e) => {
            return Err(e);
        },
    }
    let mut frozen_ids: Vec<String> = Vec::new();
    frozen_ids.push(String::from_str(target_id));
    proof {
        let i = actor_index(old(actor_store)@, target_id@);
        assert(actor_store@[i].actor_id@ == target_id@);
        crate::actor_store::lemma_actor_index(actor_store@, target_id@, i);
    }
    let descendants = match actor_store.list_descendants(target_id) {
        Ok(d) => d,
        Err(e) => {
            return Err(e);
        },
    };
    let ghost ids0 = actor_store@.map_values(|a: ActorRecord| a.actor_id@);
    proof {
        crate::actor_store::lemma_descendant_ids_exist(actor_store@, target_id@);
        assert forall|j: int| 0 <= j < descendants@.len() implies has_actor(
            actor_store@,
            #[trigger] descendants@[j]@,
        ) by {
            assert(descendants@.map_values(|s: String| s@)[j] == descendants@[j]@);
        }
    }
    let mut k: usize = 0;
    while k < descendants.len()
        invariant
            actor_store.wf(),
            actor_store@.len() == ids0.len(),
            forall|j: int| 0 <= j < ids0.len() ==> (#[trigger] actor_store@[j]).actor_id@ == ids0[j],
            forall|j: int| 0 <= j < descendants@.len() ==> has_actor(actor_store@, #[trigger] descendants@[j]@),
            k <= descendants@.len(),
            frozen_ids@.len() == k + 1,
            frozen_ids@[0]@ == target_id@,
            has_actor(actor_store@, target_id@),
            actor_store@.len() == old(actor_store)@.len(),
            forall|j: int| 0 <= j < frozen_ids@.len() ==> has_actor(actor_store@, #[trigger] frozen_ids@[j]@)
                && !actor_active(actor_store@, frozen_ids@[j]@),
        decreases descendants@.len() - k,
    {
        let ghost before = actor_store@;
        let id = descendants[k].clone();
        proof {
            assert(has_actor(actor_store@, id@));
        }
        let res = actor_store.set_status_in_tx(id.as_str(), ActorStatus::Frozen);
        match res {
            Ok(()) => {
                proof {
                    assert forall|j: int| 0 <= j < descendants@.len() implies has_actor(
                        actor_store@,
                        #[trigger] descendants@[j]@,
                    ) by {
                        let did = descendants@[j]@;
                        let p = actor_index(before, did);
                        assert(before[p].actor_id@ == did);
                        assert(actor_store@[p].actor_id == before[p].actor_id);
                    }
                    let i = actor_index(before, id@);
                    assert(actor_store@[i].actor_id@ == id@);
                    crate::actor_store::lemma_actor_index(actor_store@, id@, i);
                    assert forall|j: int| 0 <= j < frozen_ids@.len() implies has_actor(
                        actor_store@,
                        #[trigger] frozen_ids@[j]@,
                    ) && !actor_active(actor_store@, frozen_ids@[j]@) by {
                        let fid = frozen_ids@[j]@;
                        let p = actor_index(before, fid);
                        assert(before[p].actor_id@ == fid);
                        assert(actor_store@[p].actor_id == before[p].actor_id);
                        crate::actor_store::lemma_actor_index(actor_store@, fid, p);
                        crate::actor_store::lemma_actor_index(before, fid, p);
                    }
                }
                frozen_ids.push(id);
            },
            Err(e) => {
                return Err(e);
            },
        }
        k = k + 1;
    }
    Ok(frozen_ids)
}

/// Restores the target to active (no cascade).
pub fn execute_unfreeze(actor_store: &mut ActorStore, target_id: &str) -> (r: KernelResult<()>)
    requires
        old(actor_store).wf(),
    ensures
        final(actor_store).wf(),
        !has_actor(old(actor_store)@, target_id@) ==> (r matches Err(KernelError::ActorNotFound(d))
            && d@ == target_id@) && final(actor_store)@ == old(actor_store)@,
        has_actor(old(actor_store)@, target_id@) ==> r is Ok && ({
            let i = actor_index(old(actor_store)@, target_id@);
            &&& final(actor_store)@.len() == old(actor_store)@.len()
            &&& final(actor_store)@[i] == with_status(
                old(actor_store)@[i],
                ActorStatus::Active,
                final(actor_store)@[i].updated_at,
            )
            &&& forall|j: int|
                0 <= j < old(actor_store)@.len() && j != i ==> #[trigger] final(actor_store)@[j]
                    == old(actor_store)@[j]
        }),
{
    actor_store.set_status_in_tx(target_id, ActorStatus::Active)
}

/// Sets the target's energy share.
pub fn execute_update_energy_share(actor_store: &mut ActorStore, target_id: &str, share: JsonNumber) -> (r:
    KernelResult<()>)
    requires
        old(actor_store).wf(),
    ensures
        final(actor_store).wf(),
        !has_actor(old(actor_store)@, target_id@) ==> (r matches Err(KernelError::ActorNotFound(d))
            && d@ == target_id@) && final(actor_store)@ == old(actor_store)@,
        has_actor(old(actor_store)@, target_id@) ==> r is Ok && ({
            let i = actor_index(old(actor_store)@, target_id@);
            &&& final(actor_store)@.len() == old(actor_store)@.len()
            &&& final(actor_store)@[i] == with_share(
                old(actor_store)@[i],
                share,
                final(actor_store)@[i].updated_at,
            )
            &&& forall|j: int|
                0 <= j < old(actor_store)@.len() && j != i ==> #[trigger] final(actor_store)@[j]
                    == old(actor_store)@[j]
        }),
{
    actor_store.set_energy_share_in_tx(target_id, share)
}

} // verus!
