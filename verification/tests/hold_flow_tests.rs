use punkgo::action::{Action, ActionType};
use punkgo::json::{JsonNumber, JsonValue};
use punkgo::kernel::{Kernel, ReadQuery, Request};
use punkgo::protocol::ResponseEnvelope;

fn obj(entries: Vec<(&str, JsonValue)>) -> JsonValue {
    JsonValue::Object(entries.into_iter().map(|(k, v)| (k.to_string(), v)).collect())
}

fn s(v: &str) -> JsonValue {
    JsonValue::String(v.to_string())
}

fn num(v: i64) -> JsonValue {
    if v < 0 {
        JsonValue::Number(JsonNumber::NegInt(v))
    } else {
        JsonValue::Number(JsonNumber::PosInt(v as u64))
    }
}

fn arr(items: &[&str]) -> JsonValue {
    JsonValue::Array(items.iter().map(|i| s(i)).collect())
}

fn commitment(reserved: i64) -> i64 {
    ((reserved as f64) * 0.2).ceil() as i64
}

fn submit(k: &mut Kernel, actor: &str, action_type: ActionType, target: &str, payload: JsonValue) -> ResponseEnvelope {
    let a = Action { actor_id: actor.to_string(), action_type, target: target.to_string(), payload, timestamp: None };
    k.handle_request("req".to_string(), Request::Submit(a), &commitment)
}

fn energy(k: &mut Kernel, actor: &str) -> (i64, i64) {
    let q = ReadQuery {
        kind: "actor_energy".to_string(),
        actor_id: Some(actor.to_string()),
        hold_id: None,
        limit: None,
        log_index: None,
        tree_size: None,
        old_size: None,
        before_index: None,
        after_index: None,
        requester_id: None,
    };
    let r = k.handle_request("e".to_string(), Request::Read(q), &commitment);
    assert_eq!(r.status, "ok", "{:?}", r.payload);
    let get = |key: &str| match r.payload.get(key) {
        Some(JsonValue::Number(JsonNumber::PosInt(u))) => *u as i64,
        Some(JsonValue::Number(JsonNumber::NegInt(i))) => *i,
        other => panic!("bad {key}: {other:?}"),
    };
    (get("energy_balance"), get("reserved_energy"))
}

fn text(v: &JsonValue, key: &str) -> String {
    match v.get(key) {
        Some(JsonValue::String(t)) => t.clone(),
        other => panic!("missing {key}: {other:?} in {v:?}"),
    }
}

fn create_agent(k: &mut Kernel, agent_id: &str, actions: &[&str]) {
    let payload = obj(vec![
        ("actor_id", s(agent_id)),
        ("actor_type", s("agent")),
        ("energy_balance", num(100_000)),
        ("energy_share", JsonValue::Number(JsonNumber::Float("0.0".to_string()))),
        ("purpose", s("hold-test")),
        ("writable_targets", JsonValue::Array(vec![obj(vec![("actions", arr(actions)), ("target", s("workspace/**"))])])),
    ]);
    let r = submit(k, "root", ActionType::Create, "ledger/actor", payload);
    assert_eq!(r.status, "ok", "create agent should succeed: {:?}", r.payload);
}

fn grant(k: &mut Kernel, agent_id: &str, actions: &[&str], budget: i64, hold_on: Option<JsonValue>) {
    let mut entries = vec![
        ("actions", arr(actions)),
        ("actor_id", s(agent_id)),
        ("budget", num(budget)),
    ];
    if let Some(h) = hold_on {
        entries.push(("hold_on", h));
    }
    entries.push(("targets", arr(&["workspace/**"])));
    let r = submit(k, "root", ActionType::Create, "ledger/envelope", obj(entries));
    assert_eq!(r.status, "ok", "grant envelope should succeed: {:?}", r.payload);
}

fn gated_rule() -> JsonValue {
    JsonValue::Array(vec![obj(vec![("actions", arr(&["mutate"])), ("target", s("workspace/gated/*"))])])
}

#[test]
fn hold_triggered_on_matching_action() {
    let mut k = Kernel::bootstrap();
    create_agent(&mut k, "hold-agent", &["mutate"]);
    let rules = JsonValue::Array(vec![obj(vec![("actions", arr(&["mutate"])), ("target", s("workspace/sensitive/*"))])]);
    grant(&mut k, "hold-agent", &["mutate"], 50_000, Some(rules));
    let r = submit(&mut k, "hold-agent", ActionType::Mutate, "workspace/sensitive/data", obj(vec![("secret", s("value"))]));
    assert_eq!(r.status, "error", "hold should return error: {:?}", r.payload);
    assert_eq!(text(&r.payload, "error_type"), "HoldTriggered");
    assert!(!text(&r.payload, "hold_id").is_empty());
}

#[test]
fn non_matching_action_not_held() {
    let mut k = Kernel::bootstrap();
    create_agent(&mut k, "free-agent", &["mutate"]);
    grant(&mut k, "free-agent", &["mutate"], 50_000, Some(gated_rule()));
    let r = submit(&mut k, "free-agent", ActionType::Mutate, "workspace/open/data", obj(vec![("k", s("v"))]));
    assert_eq!(r.status, "ok", "{:?}", r.payload);
}

#[test]
fn approve_hold_restores_active_and_executes() {
    let mut k = Kernel::bootstrap();
    create_agent(&mut k, "approve-agent", &["mutate"]);
    grant(&mut k, "approve-agent", &["mutate"], 50_000, Some(gated_rule()));
    let t = submit(&mut k, "approve-agent", ActionType::Mutate, "workspace/gated/resource", obj(vec![("value", num(42))]));
    assert_eq!(t.status, "error");
    let hold_id = text(&t.payload, "hold_id");
    let approve = submit(
        &mut k,
        "root",
        ActionType::Mutate,
        &format!("ledger/hold/{hold_id}"),
        obj(vec![("decision", s("approve")), ("instruction", s("proceed with care"))]),
    );
    assert_eq!(approve.status, "ok", "approve should succeed: {:?}", approve.payload);
    let follow = submit(&mut k, "approve-agent", ActionType::Mutate, "workspace/normal/path", obj(vec![("after_approve", JsonValue::Bool(true))]));
    assert_eq!(follow.status, "ok", "after approve, agent should be active again: {:?}", follow.payload);
}

#[test]
fn hold_reject_releases_energy_with_commitment_cost() {
    let mut k = Kernel::bootstrap();
    create_agent(&mut k, "reject-energy-agent", &["mutate"]);
    grant(&mut k, "reject-energy-agent", &["mutate"], 100_000, Some(gated_rule()));
    let (balance_before, _) = energy(&mut k, "reject-energy-agent");
    let t = submit(&mut k, "reject-energy-agent", ActionType::Mutate, "workspace/gated/file", obj(vec![("data", s("test"))]));
    let hold_id = text(&t.payload, "hold_id");
    let (_, reserved_mid) = energy(&mut k, "reject-energy-agent");
    assert!(reserved_mid > 0, "energy should be reserved");
    let reject = submit(&mut k, "root", ActionType::Mutate, &format!("ledger/hold/{hold_id}"), obj(vec![("decision", s("reject"))]));
    assert_eq!(reject.status, "ok", "reject should succeed: {:?}", reject.payload);
    let (balance_after, reserved_after) = energy(&mut k, "reject-energy-agent");
    assert_eq!(reserved_after, 0, "no energy reserved after reject");
    assert!(balance_after < balance_before);
    let commitment_cost = ((reserved_mid as f64) * 0.2).ceil() as i64;
    assert_eq!(balance_after, balance_before - commitment_cost);
}

#[test]
fn hold_approve_does_not_double_charge() {
    let mut k = Kernel::bootstrap();
    create_agent(&mut k, "approve-energy-agent", &["mutate"]);
    grant(&mut k, "approve-energy-agent", &["mutate"], 100_000, Some(gated_rule()));
    let (balance_before, _) = energy(&mut k, "approve-energy-agent");
    let t = submit(&mut k, "approve-energy-agent", ActionType::Mutate, "workspace/gated/file", obj(vec![("data", s("approved-action"))]));
    let hold_id = text(&t.payload, "hold_id");
    let (_, reserved_mid) = energy(&mut k, "approve-energy-agent");
    assert!(reserved_mid > 0);
    let approve = submit(&mut k, "root", ActionType::Mutate, &format!("ledger/hold/{hold_id}"), obj(vec![("decision", s("approve"))]));
    assert_eq!(approve.status, "ok", "approve should succeed: {:?}", approve.payload);
    let (balance_after, reserved_after) = energy(&mut k, "approve-energy-agent");
    assert_eq!(reserved_after, 0, "no reserved energy after approve+settle");
    let total_deducted = balance_before - balance_after;
    assert!(total_deducted > 0);
    assert_eq!(total_deducted, reserved_mid, "deduction should equal the reserved amount, not double");
}

#[test]
fn cannot_resolve_hold_twice() {
    let mut k = Kernel::bootstrap();
    create_agent(&mut k, "twice-agent", &["mutate"]);
    grant(&mut k, "twice-agent", &["mutate"], 50_000, Some(gated_rule()));
    let t = submit(&mut k, "twice-agent", ActionType::Mutate, "workspace/gated/x", obj(vec![]));
    let hold_id = text(&t.payload, "hold_id");
    let target = format!("ledger/hold/{hold_id}");
    let first = submit(&mut k, "root", ActionType::Mutate, &target, obj(vec![("decision", s("reject"))]));
    assert_eq!(first.status, "ok", "{:?}", first.payload);
    let second = submit(&mut k, "root", ActionType::Mutate, &target, obj(vec![("decision", s("approve"))]));
    assert_eq!(second.status, "error", "a resolved hold cannot be resolved again");
}

#[test]
fn agent_cannot_resolve_hold() {
    let mut k = Kernel::bootstrap();
    create_agent(&mut k, "self-agent", &["mutate"]);
    grant(&mut k, "self-agent", &["mutate"], 50_000, Some(gated_rule()));
    let t = submit(&mut k, "self-agent", ActionType::Mutate, "workspace/gated/y", obj(vec![]));
    let hold_id = text(&t.payload, "hold_id");
    let r = submit(&mut k, "self-agent", ActionType::Mutate, &format!("ledger/hold/{hold_id}"), obj(vec![("decision", s("approve"))]));
    assert_eq!(r.status, "error");
}

#[test]
fn freeze_blocks_state_changes() {
    let mut k = Kernel::bootstrap();
    create_agent(&mut k, "test-agent", &["create", "mutate"]);
    grant(&mut k, "test-agent", &["create", "mutate"], 50_000, None);
    let r = submit(&mut k, "test-agent", ActionType::Mutate, "workspace/a", obj(vec![("k", s("v"))]));
    assert_eq!(r.status, "ok", "agent should be able to mutate before freeze: {:?}", r.payload);
    let f = submit(&mut k, "root", ActionType::Mutate, "actor/test-agent", obj(vec![("op", s("freeze")), ("reason", s("testing"))]));
    assert_eq!(f.status, "ok", "freeze should succeed: {:?}", f.payload);
    let r = submit(&mut k, "test-agent", ActionType::Mutate, "workspace/a", obj(vec![("k", s("v2"))]));
    assert_eq!(r.status, "error", "frozen agent should not be able to mutate");
    assert!(text(&r.payload, "message").contains("frozen"));
    let o = submit(&mut k, "test-agent", ActionType::Observe, "workspace/a", obj(vec![]));
    assert_eq!(o.status, "ok", "frozen agent should still observe: {:?}", o.payload);
    let u = submit(&mut k, "root", ActionType::Mutate, "actor/test-agent", obj(vec![("op", s("unfreeze"))]));
    assert_eq!(u.status, "ok", "{:?}", u.payload);
    let r = submit(&mut k, "test-agent", ActionType::Mutate, "workspace/a", obj(vec![("k", s("v3"))]));
    assert_eq!(r.status, "ok", "unfrozen agent acts again: {:?}", r.payload);
}

#[test]
fn envelope_budget_exhaustion_halts() {
    let mut k = Kernel::bootstrap();
    create_agent(&mut k, "budget-agent", &["mutate"]);
    grant(&mut k, "budget-agent", &["mutate"], 16, None);
    let r = submit(&mut k, "budget-agent", ActionType::Mutate, "workspace/a", obj(vec![("k", s("v"))]));
    assert_eq!(r.status, "ok", "first mutate should succeed: {:?}", r.payload);
    let r2 = submit(&mut k, "budget-agent", ActionType::Mutate, "workspace/b", obj(vec![("k", s("v2"))]));
    assert_eq!(r2.status, "error", "second mutate should fail after budget exhaustion");
    let m = text(&r2.payload, "message");
    assert!(m.contains("authorization required") || m.contains("requires an active envelope") || m.contains("not active"), "{m}");
}

#[test]
fn agent_cannot_create_agent() {
    let mut k = Kernel::bootstrap();
    create_agent(&mut k, "parent-agent", &["create", "mutate"]);
    grant(&mut k, "parent-agent", &["create", "mutate"], 50_000, None);
    let payload = obj(vec![
        ("actor_id", s("child-agent")),
        ("actor_type", s("agent")),
        ("energy_balance", num(10)),
        ("purpose", s("child")),
    ]);
    let r = submit(&mut k, "parent-agent", ActionType::Create, "ledger/actor", payload);
    assert_eq!(r.status, "error", "agent must not create an agent: {:?}", r.payload);
}
