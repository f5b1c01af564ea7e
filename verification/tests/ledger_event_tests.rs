use punkgo::energy::{credit_tick, distribute_remainder};
use punkgo::event_log::{EventLog, EventRecord};
use punkgo::json::JsonValue;
use punkgo::ledger::EnergyLedger;

#[test]
fn reserve_and_settle_updates_balance() {
    let mut ledger = EnergyLedger::new();
    ledger.create_actor_in_tx("alice", 100).expect("seed actor should succeed");
    let reservation = ledger.reserve("alice", 30).expect("reserve should succeed");
    assert_eq!(reservation.reserved, 30);
    ledger.settle("alice", 30, 25).expect("settle should succeed");
    let (balance, reserved) = ledger.balance_view("alice").expect("balance should exist");
    assert_eq!(balance, 75);
    assert_eq!(reserved, 0);
}

#[test]
fn append_and_list_events() {
    let mut log = EventLog::new();
    let mut event = EventRecord {
        id: "e-1".to_string(),
        log_index: 0,
        event_hash: String::new(),
        actor_id: "root".to_string(),
        action_type: "mutate".to_string(),
        target: "test/target".to_string(),
        payload: JsonValue::Object(vec![("test".to_string(), JsonValue::Bool(true))]),
        payload_hash: "abc123".to_string(),
        artifact_hash: None,
        reserved_energy: 15,
        settled_energy: 15,
        timestamp: "1700000000000".to_string(),
    };
    log.append(&mut event).expect("append event should succeed");
    assert_eq!(event.log_index, 0, "first event should get log_index 0");
    assert!(!event.event_hash.is_empty(), "event_hash should be computed");
    assert_eq!(event.event_hash.len(), 64);

    let events = log.list_recent(1).expect("list recent should succeed");
    assert_eq!(events.len(), 1);
    assert_eq!(events[0].action_type, "mutate");
    assert_eq!(events[0].log_index, 0);
    assert!(!events[0].event_hash.is_empty());
    assert_eq!(log.count().unwrap(), 1);
}

#[test]
fn reserve_more_than_available_fails_and_changes_nothing() {
    let mut ledger = EnergyLedger::new();
    ledger.create_actor_in_tx("bob", 10).unwrap();
    let err = ledger.reserve("bob", 11).unwrap_err();
    assert_eq!(err.to_string(), "insufficient energy: actor=bob, required=11, available=10");
    assert_eq!(ledger.balance_view("bob").unwrap(), (10, 0));
    assert!(ledger.reserve("nobody", 1).is_err());
}

#[test]
fn reserve_then_settle_full_cost_returns_reserve() {
    // The law of reserve-then-settle on concrete values: the balance drops by
    // the actual cost and nothing stays reserved.
    let mut ledger = EnergyLedger::new();
    ledger.create_actor_in_tx("c", 500).unwrap();
    ledger.reserve("c", 40).unwrap();
    assert_eq!(ledger.balance_view("c").unwrap(), (500, 40));
    ledger.settle("c", 40, 40).unwrap();
    assert_eq!(ledger.balance_view("c").unwrap(), (460, 0));
}

#[test]
fn credit_energy_rules() {
    let mut ledger = EnergyLedger::new();
    ledger.create_actor_in_tx("a", 0).unwrap();
    assert!(ledger.credit_energy_in_tx("a", 0).is_err());
    assert!(ledger.credit_energy_in_tx("zz", 5).is_err());
    ledger.credit_energy_in_tx("a", 5).unwrap();
    assert_eq!(ledger.balance_view("a").unwrap(), (5, 0));
}

#[test]
fn remainder_is_handed_out_round_robin() {
    // 100 units over floors [33, 33, 33]: one unit left, to the first actor.
    assert_eq!(distribute_remainder(&[33, 33, 33], 100), vec![34, 33, 33]);
    // 10 units over floors [0, 0, 0, 0]: 2 each, plus one for the first two.
    assert_eq!(distribute_remainder(&[0, 0, 0, 0], 10), vec![3, 3, 2, 2]);
    // Nothing left: unchanged.
    assert_eq!(distribute_remainder(&[5, 5], 10), vec![5, 5]);
    // No actors: nothing to hand out.
    assert_eq!(distribute_remainder(&[], 10), Vec::<i64>::new());
}

#[test]
fn energy_neutrality_on_concrete_values() {
    for (floors, ept) in [(vec![1i64, 2, 3], 100i64), (vec![0, 0, 0], 7), (vec![10], 10), (vec![3, 0, 9, 1], 1000)] {
        let credits = distribute_remainder(&floors, ept);
        assert_eq!(credits.iter().sum::<i64>(), ept);
    }
}

#[test]
fn credit_tick_credits_positive_allocations_atomically() {
    let mut ledger = EnergyLedger::new();
    ledger.create_actor_in_tx("a", 10).unwrap();
    ledger.create_actor_in_tx("b", 20).unwrap();
    let allocations = vec![("a".to_string(), 5), ("b".to_string(), 0), ("a".to_string(), 2)];
    assert_eq!(credit_tick(&mut ledger, &allocations).unwrap(), (7, 2));
    assert_eq!(ledger.balance_view("a").unwrap(), (17, 0));
    assert_eq!(ledger.balance_view("b").unwrap(), (20, 0));

    // An unknown actor with a positive credit: nothing is credited.
    let bad = vec![("b".to_string(), 3), ("ghost".to_string(), 1)];
    let err = credit_tick(&mut ledger, &bad).unwrap_err();
    assert_eq!(err.to_string(), "actor not found: ghost");
    assert_eq!(ledger.balance_view("b").unwrap(), (20, 0));
}
