use punkgo::action::{Action, ActionType};
use punkgo::energy::distribute_remainder;
use punkgo::json::{JsonNumber, JsonValue};
use punkgo::kernel::{Kernel, Request};

fn obj(entries: Vec<(&str, JsonValue)>) -> JsonValue {
    JsonValue::Object(entries.into_iter().map(|(k, v)| (k.to_string(), v)).collect())
}

fn s(v: &str) -> JsonValue {
    JsonValue::String(v.to_string())
}

fn commitment(reserved: i64) -> i64 {
    ((reserved as f64) * 0.2).ceil() as i64
}

fn create_agent(k: &mut Kernel, id: &str, purpose: &str, balance: u64, share: &str) {
    let payload = obj(vec![
        ("actor_id", s(id)),
        ("actor_type", s("agent")),
        ("energy_balance", JsonValue::Number(JsonNumber::PosInt(balance))),
        ("energy_share", JsonValue::Number(JsonNumber::Float(share.to_string()))),
        ("purpose", s(purpose)),
    ]);
    let a = Action {
        actor_id: "root".to_string(),
        action_type: ActionType::Create,
        target: "ledger/actor".to_string(),
        payload,
        timestamp: None,
    };
    let r = k.handle_request("c".to_string(), Request::Submit(a), &commitment);
    assert_eq!(r.status, "ok", "{:?}", r.payload);
}

/// One production tick, as the daemon's producer makes it: proportional
/// floors from the shares, then the library's remainder split and credit.
fn produce_tick(k: &mut Kernel, energy_per_tick: i64) -> (i64, usize) {
    let actors: Vec<(String, f64)> = k
        .actor_store()
        .list_active_with_shares()
        .unwrap()
        .into_iter()
        .map(|(id, share)| {
            let v = match share {
                JsonNumber::PosInt(u) => u as f64,
                JsonNumber::NegInt(i) => i as f64,
                JsonNumber::Float(t) => t.parse::<f64>().unwrap(),
            };
            (id, v)
        })
        .filter(|(_, v)| *v > 0.0)
        .collect();
    if actors.is_empty() {
        return (0, 0);
    }
    let shares: Vec<f64> = actors.iter().map(|(_, v)| *v).collect();
    let total: f64 = shares.iter().sum();
    if total <= 0.0 {
        return (0, 0);
    }
    let floors: Vec<i64> =
        shares.iter().map(|sh| (energy_per_tick as f64 * (sh / total)).floor() as i64).collect();
    let credits = distribute_remainder(&floors, energy_per_tick);
    let allocations: Vec<(String, i64)> =
        actors.iter().map(|(id, _)| id.clone()).zip(credits).collect();
    k.credit_energy_tick(&allocations).unwrap()
}

#[test]
fn energy_distribution_proportional_to_shares() {
    let mut k = Kernel::bootstrap();
    create_agent(&mut k, "agent-alpha", "test-energy-a", 1000, "100.0");
    create_agent(&mut k, "agent-beta", "test-energy-b", 1000, "50.0");
    let alpha_before = k.energy_ledger().balance_view("agent-alpha").unwrap().0;
    let beta_before = k.energy_ledger().balance_view("agent-beta").unwrap().0;
    let (total, count) = produce_tick(&mut k, 150);
    assert_eq!(count, 2);
    assert_eq!(total, 150, "energy neutrality: all energy distributed");
    assert_eq!(k.energy_ledger().balance_view("agent-alpha").unwrap().0 - alpha_before, 100);
    assert_eq!(k.energy_ledger().balance_view("agent-beta").unwrap().0 - beta_before, 50);
}

#[test]
fn energy_neutral_kernel() {
    let mut k = Kernel::bootstrap();
    create_agent(&mut k, "actor-a", "test-neutral-a", 500, "33.3");
    create_agent(&mut k, "actor-b", "test-neutral-b", 500, "33.3");
    let (total, _) = produce_tick(&mut k, 97);
    assert_eq!(total, 97, "kernel must distribute exactly energy_per_tick (no retention)");
}

#[test]
fn humans_excluded_from_energy_distribution() {
    let mut k = Kernel::bootstrap();
    let root_before = k.energy_ledger().balance_view("root").unwrap().0;
    assert!(k.actor_store().list_active_with_shares().unwrap().is_empty());
    let (total, count) = produce_tick(&mut k, 100);
    assert_eq!((total, count), (0, 0));
    assert_eq!(k.energy_ledger().balance_view("root").unwrap().0, root_before);
}

#[test]
fn zero_share_actors_get_no_energy() {
    let mut k = Kernel::bootstrap();
    create_agent(&mut k, "zero-agent", "test-zero", 1000, "0.0");
    create_agent(&mut k, "one-agent", "test-one", 1000, "1.0");
    let (total, count) = produce_tick(&mut k, 101);
    assert_eq!((total, count), (101, 1));
    assert_eq!(k.energy_ledger().balance_view("zero-agent").unwrap().0, 1000);
    assert_eq!(k.energy_ledger().balance_view("one-agent").unwrap().0, 1101);
}

#[test]
fn active_agents_are_listed_with_their_shares() {
    let mut k = Kernel::bootstrap();
    create_agent(&mut k, "a1", "p1", 10, "2.5");
    let listed = k.actor_store().list_active_with_shares().unwrap();
    assert_eq!(listed.len(), 1);
    assert_eq!(listed[0].0, "a1");
    assert_eq!(listed[0].1, JsonNumber::Float("2.5".to_string()));
}

fn lifecycle(k: &mut Kernel, target: &str, payload: JsonValue) -> String {
    let a = Action {
        actor_id: "root".to_string(),
        action_type: ActionType::Mutate,
        target: target.to_string(),
        payload,
        timestamp: None,
    };
    k.handle_request("l".to_string(), Request::Submit(a), &commitment).status
}

#[test]
fn energy_share_update_is_recorded_and_freeze_unlists() {
    let mut k = Kernel::bootstrap();
    create_agent(&mut k, "a2", "p2", 10, "0.0");
    let status = lifecycle(
        &mut k,
        "actor/a2",
        obj(vec![("energy_share", JsonValue::Number(JsonNumber::PosInt(5))), ("op", s("update_energy_share"))]),
    );
    assert_eq!(status, "ok");
    let listed = k.actor_store().list_active_with_shares().unwrap();
    assert_eq!(listed, vec![("a2".to_string(), JsonNumber::PosInt(5))]);
    assert_eq!(lifecycle(&mut k, "actor/a2", obj(vec![("op", s("freeze"))])), "ok");
    assert!(k.actor_store().list_active_with_shares().unwrap().is_empty());
}
