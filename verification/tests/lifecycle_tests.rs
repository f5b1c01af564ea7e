use punkgo::actor::LifecycleOp;
use punkgo::json::{JsonNumber, JsonValue};
use punkgo::lifecycle::parse_lifecycle_op;

fn obj(entries: Vec<(&str, JsonValue)>) -> JsonValue {
    JsonValue::Object(entries.into_iter().map(|(k, v)| (k.to_string(), v)).collect())
}

fn s(v: &str) -> JsonValue {
    JsonValue::String(v.to_string())
}

#[test]
fn parse_freeze_op() {
    let (id, op) = parse_lifecycle_op("actor/agent-1", &obj(vec![("op", s("freeze")), ("reason", s("test"))]))
        .expect("should parse");
    assert_eq!(id, "agent-1");
    assert!(matches!(op, LifecycleOp::Freeze { reason: Some(r) } if r == "test"));
}

#[test]
fn parse_unfreeze_op() {
    let (id, op) = parse_lifecycle_op("actor/agent-1", &obj(vec![("op", s("unfreeze"))])).expect("should parse");
    assert_eq!(id, "agent-1");
    assert!(matches!(op, LifecycleOp::Unfreeze));
}

#[test]
fn parse_non_lifecycle_target() {
    let result = parse_lifecycle_op("workspace/a", &obj(vec![("op", s("freeze"))]));
    assert!(result.is_none(), "non-actor target should return None");
}

#[test]
fn parse_unknown_op() {
    let result = parse_lifecycle_op("actor/agent-1", &obj(vec![("op", s("destroy"))]));
    assert!(result.is_none(), "unknown op should return None");
}

#[test]
fn parse_terminate_and_share_ops() {
    let (id, op) = parse_lifecycle_op("actor/root/x/1", &obj(vec![("op", s("terminate"))])).unwrap();
    assert_eq!(id, "root/x/1");
    assert!(matches!(op, LifecycleOp::Terminate { reason: None }));
    let (_, op) = parse_lifecycle_op(
        "actor/a",
        &obj(vec![("energy_share", JsonValue::Number(JsonNumber::PosInt(5))), ("op", s("update_energy_share"))]),
    )
    .unwrap();
    assert!(matches!(op, LifecycleOp::UpdateEnergyShare { energy_share: JsonNumber::PosInt(5) }));
}
