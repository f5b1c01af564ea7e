use punkgo::action::{payload_hash_hex, quote_cost, Action, ActionType};
use punkgo::json::{JsonNumber, JsonValue};
use punkgo::policy::validate_action;

fn obj(entries: Vec<(&str, JsonValue)>) -> JsonValue {
    JsonValue::Object(entries.into_iter().map(|(k, v)| (k.to_string(), v)).collect())
}

fn s(v: &str) -> JsonValue {
    JsonValue::String(v.to_string())
}

fn make_action(action_type: ActionType, payload: JsonValue) -> Action {
    Action {
        actor_id: "root".to_string(),
        action_type,
        target: "workspace/a".to_string(),
        payload,
        timestamp: None,
    }
}

#[test]
fn quote_observe_scales_with_payload() {
    let empty = make_action(ActionType::Observe, obj(vec![]));
    assert_eq!(quote_cost(&empty), 1);

    let small = make_action(ActionType::Observe, obj(vec![("msg", s("hello"))]));
    assert_eq!(quote_cost(&small), 1);

    let big_value = "x".repeat(2048);
    let medium = make_action(ActionType::Observe, obj(vec![("data", s(&big_value))]));
    let cost = quote_cost(&medium);
    assert!(cost >= 3, "2KB payload should cost >= 3, got {cost}");
}

#[test]
fn quote_execute_uses_output_bytes() {
    let no_io = make_action(ActionType::Execute, obj(vec![]));
    assert_eq!(quote_cost(&no_io), 26);

    let small_io = make_action(
        ActionType::Execute,
        obj(vec![("output_bytes", JsonValue::Number(JsonNumber::PosInt(256)))]),
    );
    assert_eq!(quote_cost(&small_io), 27);

    let large_io = make_action(
        ActionType::Execute,
        obj(vec![("output_bytes", JsonValue::Number(JsonNumber::PosInt(2560)))]),
    );
    assert_eq!(quote_cost(&large_io), 36);
}

#[test]
fn payload_hash_is_deterministic() {
    let action = make_action(ActionType::Mutate, obj(vec![("k", s("v"))]));
    let h1 = payload_hash_hex(&action).expect("hash should succeed");
    let h2 = payload_hash_hex(&action).expect("hash should succeed");
    assert_eq!(h1, h2);
}

#[test]
fn payload_hash_is_sha256_of_compact_json() {
    // SHA-256 of the bytes {"k":"v"}.
    let action = make_action(ActionType::Mutate, obj(vec![("k", s("v"))]));
    assert_eq!(
        payload_hash_hex(&action).unwrap(),
        "666c1aa02e8068c6d5cc1d3295009432c16790bec28ec8ce119d0d1a18d61319"
    );
}

#[test]
fn quote_costs_per_action_type() {
    assert_eq!(quote_cost(&make_action(ActionType::Create, obj(vec![]))), 11);
    assert_eq!(quote_cost(&make_action(ActionType::Mutate, obj(vec![]))), 16);
    assert_eq!(quote_cost(&make_action(ActionType::Observe, obj(vec![]))), 1);
}

#[test]
fn action_type_text_and_state_change() {
    assert_eq!(ActionType::Observe.as_str(), "observe");
    assert_eq!(ActionType::Execute.as_str(), "execute");
    assert!(!ActionType::Observe.is_state_changing());
    assert!(ActionType::Create.is_state_changing());
    assert!(ActionType::Mutate.is_state_changing());
    assert!(ActionType::Execute.is_state_changing());
}

#[test]
fn reject_empty_actor() {
    let action = Action {
        actor_id: "".to_string(),
        action_type: ActionType::Mutate,
        target: "t".to_string(),
        payload: obj(vec![]),
        timestamp: None,
    };
    assert!(validate_action(&action).is_err());
}

#[test]
fn reject_empty_target() {
    let action = Action {
        actor_id: "root".to_string(),
        action_type: ActionType::Mutate,
        target: "".to_string(),
        payload: obj(vec![]),
        timestamp: None,
    };
    assert!(validate_action(&action).is_err());
}

#[test]
fn accept_valid_mutate() {
    let action = Action {
        actor_id: "root".to_string(),
        action_type: ActionType::Mutate,
        target: "workspace/a".to_string(),
        payload: obj(vec![("name", s("ok"))]),
        timestamp: None,
    };
    assert!(validate_action(&action).is_ok());
}

#[test]
fn blank_actor_message() {
    let action = Action {
        actor_id: " \t".to_string(),
        action_type: ActionType::Mutate,
        target: "x".to_string(),
        payload: obj(vec![]),
        timestamp: None,
    };
    let err = validate_action(&action).unwrap_err();
    assert_eq!(err.to_string(), "policy violation: actor_id cannot be empty");
}
