use punkgo::action::{Action, ActionType};
use punkgo::json::{JsonNumber, JsonValue};
use punkgo::kernel::{Kernel, ReadQuery, Request};
use punkgo::protocol::ResponseEnvelope;

fn obj(entries: Vec<(&str, JsonValue)>) -> JsonValue {
    JsonValue::Object(entries.into_iter().map(|(k, v)| (k.to_string(), v)).collect())
}

fn s(v: &str) -> JsonValue {
    JsonValue::String(v.to_string())
}

fn num(v: i64) -> JsonValue {
    if v < 0 {
        JsonValue::Number(JsonNumber::NegInt(v))
    } else {
        JsonValue::Number(JsonNumber::PosInt(v as u64))
    }
}

fn field<'a>(v: &'a JsonValue, key: &str) -> &'a JsonValue {
    v.get(key).unwrap_or_else(|| panic!("missing {key} in {v:?}"))
}

fn commitment(reserved: i64) -> i64 {
    ((reserved as f64) * 0.2).ceil() as i64
}

fn action(actor: &str, action_type: ActionType, target: &str, payload: JsonValue) -> Action {
    Action { actor_id: actor.to_string(), action_type, target: target.to_string(), payload, timestamp: None }
}

fn submit(k: &mut Kernel, a: Action) -> ResponseEnvelope {
    k.handle_request("req".to_string(), Request::Submit(a), &commitment)
}

fn read(k: &mut Kernel, kind: &str, actor_id: Option<&str>, limit: Option<i64>) -> ResponseEnvelope {
    let q = ReadQuery {
        kind: kind.to_string(),
        actor_id: actor_id.map(|a| a.to_string()),
        hold_id: None,
        limit,
        log_index: None,
        tree_size: None,
        old_size: None,
        before_index: None,
        after_index: None,
        requester_id: None,
    };
    k.handle_request("req".to_string(), Request::Read(q), &commitment)
}

fn valid_execute_payload() -> Vec<(&'static str, JsonValue)> {
    vec![
        ("artifact_hash", s("sha256:cccccccccccccccccccccccccccccccccccccccccccccccccccccccccccccccc")),
        ("exit_code", num(0)),
        ("input_oid", s("sha256:aaaaaaaaaaaaaaaaaaaaaaaaaaaaaaaaaaaaaaaaaaaaaaaaaaaaaaaaaaaaaaaa")),
        ("output_bytes", num(512)),
        ("output_oid", s("sha256:bbbbbbbbbbbbbbbbbbbbbbbbbbbbbbbbbbbbbbbbbbbbbbbbbbbbbbbbbbbbbbbb")),
    ]
}

fn create_agent(k: &mut Kernel, agent_id: &str, targets: JsonValue) {
    let payload = obj(vec![
        ("actor_id", s(agent_id)),
        ("actor_type", s("agent")),
        ("energy_balance", num(100000)),
        ("energy_share", JsonValue::Number(JsonNumber::Float("0.0".to_string()))),
        ("purpose", s("consent-test")),
        ("writable_targets", targets),
    ]);
    let resp = submit(k, action("root", ActionType::Create, "ledger/actor", payload));
    assert_eq!(resp.status, "ok", "create agent should succeed: {:?}", resp.payload);
}

fn workspace_targets() -> JsonValue {
    JsonValue::Array(vec![obj(vec![
        ("actions", JsonValue::Array(vec![s("create"), s("mutate")])),
        ("target", s("workspace/**")),
    ])])
}

#[test]
fn submit_mutate_charges_energy_and_appends_event() {
    let mut k = Kernel::bootstrap();
    let resp = submit(&mut k, action("root", ActionType::Mutate, "workspace/a", obj(vec![("k", s("v"))])));
    assert_eq!(resp.status, "ok", "submit should be ok: {:?}", resp.payload);
    assert_eq!(resp.request_id, "req");
    assert_eq!(field(&resp.payload, "log_index"), &num(0));
    match field(&resp.payload, "event_hash") {
        JsonValue::String(h) => assert_eq!(h.len(), 64),
        other => panic!("event_hash is not a string: {other:?}"),
    }

    let energy = read(&mut k, "actor_energy", Some("root"), None);
    assert_eq!(energy.status, "ok");
    assert_eq!(field(&energy.payload, "energy_balance"), &num(999984));
    assert_eq!(field(&energy.payload, "reserved_energy"), &num(0));

    let events = read(&mut k, "events", None, Some(1));
    assert_eq!(events.status, "ok");
    match field(&events.payload, "events") {
        JsonValue::Array(items) => {
            assert_eq!(items.len(), 1);
            assert_eq!(field(&items[0], "action_type"), &s("mutate"));
        }
        other => panic!("events is not an array: {other:?}"),
    }
}

#[test]
fn seed_actor_create_action_works() {
    let mut k = Kernel::bootstrap();
    let payload = obj(vec![("actor_id", s("alice")), ("energy_balance", num(5000))]);
    let resp = submit(&mut k, action("root", ActionType::Create, "ledger/actor", payload));
    assert_eq!(resp.status, "ok", "{:?}", resp.payload);
    let alice = read(&mut k, "actor_energy", Some("alice"), None);
    assert_eq!(alice.status, "ok");
    assert_eq!(field(&alice.payload, "energy_balance"), &num(5000));
    assert_eq!(field(&alice.payload, "reserved_energy"), &num(0));
}

#[test]
fn execute_with_valid_payload_succeeds() {
    let mut k = Kernel::bootstrap();
    let resp = submit(&mut k, action("root", ActionType::Execute, "workspace/a", obj(valid_execute_payload())));
    assert_eq!(resp.status, "ok", "valid execute should succeed: {:?}", resp.payload);
    assert_eq!(
        field(&resp.payload, "artifact_hash"),
        &s("sha256:cccccccccccccccccccccccccccccccccccccccccccccccccccccccccccccccc")
    );
}

#[test]
fn execute_missing_input_oid_rejected() {
    let mut k = Kernel::bootstrap();
    let payload: Vec<_> = valid_execute_payload().into_iter().filter(|(key, _)| *key != "input_oid").collect();
    let resp = submit(&mut k, action("root", ActionType::Execute, "workspace/a", obj(payload)));
    assert_eq!(resp.status, "error");
    assert_eq!(field(&resp.payload, "error_type"), &s("ExecutePayloadInvalid"));
}

#[test]
fn agent_without_envelope_rejected() {
    let mut k = Kernel::bootstrap();
    create_agent(&mut k, "no-envelope-agent", workspace_targets());
    let resp = submit(&mut k, action("no-envelope-agent", ActionType::Mutate, "workspace/a", obj(vec![("k", s("v"))])));
    assert_eq!(resp.status, "error", "agent without envelope should be rejected");
    let message = match field(&resp.payload, "message") {
        JsonValue::String(m) => m.clone(),
        other => panic!("message is not a string: {other:?}"),
    };
    assert!(message.contains("authorization required") || message.contains("requires an active envelope"));
}

#[test]
fn envelope_authorizes_agent() {
    let mut k = Kernel::bootstrap();
    create_agent(&mut k, "envelope-agent", workspace_targets());
    let grant = obj(vec![
        ("actions", JsonValue::Array(vec![s("create"), s("mutate")])),
        ("actor_id", s("envelope-agent")),
        ("budget", num(50000)),
        ("targets", JsonValue::Array(vec![s("workspace/**")])),
    ]);
    let resp = submit(&mut k, action("root", ActionType::Create, "ledger/envelope", grant));
    assert_eq!(resp.status, "ok", "grant envelope should succeed: {:?}", resp.payload);
    let resp = submit(&mut k, action("envelope-agent", ActionType::Mutate, "workspace/test", obj(vec![("k", s("v"))])));
    assert_eq!(resp.status, "ok", "agent with envelope should succeed: {:?}", resp.payload);
}

#[test]
fn unknown_actor_is_rejected_and_nothing_changes() {
    let mut k = Kernel::bootstrap();
    let resp = submit(&mut k, action("ghost", ActionType::Mutate, "workspace/a", obj(vec![])));
    assert_eq!(resp.status, "error");
    assert_eq!(field(&resp.payload, "error_type"), &s("ActorNotFound"));
    assert_eq!(k.event_log().count().unwrap(), 0);
    let blank = submit(&mut k, action("", ActionType::Mutate, "workspace/a", obj(vec![])));
    assert_eq!(field(&blank.payload, "message"), &s("policy violation: actor_id cannot be empty"));
}

#[test]
fn quote_prices_without_changing_state() {
    let mut k = Kernel::bootstrap();
    let a = action("root", ActionType::Mutate, "workspace/a", obj(vec![]));
    let resp = k.handle_request("q1".to_string(), Request::Quote(a), &commitment);
    assert_eq!(resp.status, "ok");
    assert_eq!(resp.payload, obj(vec![("cost", num(16))]));
    assert_eq!(k.event_log().count().unwrap(), 0);
    let bad = k.handle_request("q2".to_string(), Request::Quote(action("root", ActionType::Mutate, " ", obj(vec![]))), &commitment);
    assert_eq!(bad.status, "error");
    assert_eq!(field(&bad.payload, "detail"), &s("target cannot be empty"));
}

#[test]
fn unsupported_read_kind() {
    let mut k = Kernel::bootstrap();
    let resp = read(&mut k, "bogus", None, None);
    assert_eq!(resp.status, "error");
    assert_eq!(field(&resp.payload, "error_type"), &s("InvalidRequest"));
    let health = read(&mut k, "health", None, None);
    assert_eq!(health.payload, obj(vec![("status", s("ok"))]));
}

#[test]
fn event_log_only_grows_across_submissions() {
    let mut k = Kernel::bootstrap();
    for i in 0..5 {
        let resp = submit(&mut k, action("root", ActionType::Mutate, "workspace/a", obj(vec![("i", num(i))])));
        assert_eq!(field(&resp.payload, "log_index"), &num(i));
    }
    // A rejected submission appends nothing.
    submit(&mut k, action("nobody", ActionType::Mutate, "workspace/a", obj(vec![])));
    assert_eq!(k.event_log().count().unwrap(), 5);
}

#[test]
fn energy_tick_credits_agents_and_keeps_nothing() {
    let mut k = Kernel::bootstrap();
    create_agent(&mut k, "worker", workspace_targets());
    let before = k.energy_ledger().balance_view("worker").unwrap().0;
    let allocations = vec![("worker".to_string(), 70i64), ("root".to_string(), 30i64)];
    let (total, count) = k.credit_energy_tick(&allocations).unwrap();
    assert_eq!((total, count), (100, 2));
    assert_eq!(k.energy_ledger().balance_view("worker").unwrap().0, before + 70);
    assert!(k.credit_energy_tick(&[("ghost".to_string(), 1)]).is_err());
}

#[test]
fn agent_submission_is_charged_its_cost() {
    let mut k = Kernel::bootstrap();
    create_agent(&mut k, "charged-agent", workspace_targets());
    let grant = obj(vec![
        ("actions", JsonValue::Array(vec![s("mutate")])),
        ("actor_id", s("charged-agent")),
        ("budget", num(50000)),
        ("targets", JsonValue::Array(vec![s("workspace/**")])),
    ]);
    let resp = submit(&mut k, action("root", ActionType::Create, "ledger/envelope", grant));
    assert_eq!(resp.status, "ok", "{:?}", resp.payload);
    let resp = submit(&mut k, action("charged-agent", ActionType::Mutate, "workspace/b", obj(vec![("k", s("v"))])));
    assert_eq!(resp.status, "ok", "{:?}", resp.payload);
    let energy = read(&mut k, "actor_energy", Some("charged-agent"), None);
    assert_eq!(field(&energy.payload, "energy_balance"), &num(99984));
    assert_eq!(field(&energy.payload, "reserved_energy"), &num(0));
}

#[test]
fn lifecycle_operation_on_human_is_refused() {
    let mut k = Kernel::bootstrap();
    let payload = obj(vec![("actor_id", s("alice")), ("actor_type", s("human")), ("energy_balance", num(5000))]);
    let resp = submit(&mut k, action("root", ActionType::Create, "ledger/actor", payload));
    assert_eq!(resp.status, "ok", "{:?}", resp.payload);
    let resp = submit(&mut k, action("root", ActionType::Mutate, "actor/alice", obj(vec![("op", s("freeze"))])));
    assert_eq!(resp.status, "error");
    assert_eq!(field(&resp.payload, "message"), &s("policy violation: cannot perform lifecycle operations on human actors"));
    let alice = read(&mut k, "actor_energy", Some("alice"), None);
    assert_eq!(field(&alice.payload, "energy_balance"), &num(5000));
}
