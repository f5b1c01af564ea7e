use punkgo::action::{Action, ActionType};
use punkgo::json::{JsonNumber, JsonValue};
use punkgo::sandbox::{compute_artifact_hash, truncate_output, BackendRegistry, ProcessBackend, SandboxConfig};

fn obj(entries: Vec<(&str, JsonValue)>) -> JsonValue {
    JsonValue::Object(entries.into_iter().map(|(k, v)| (k.to_string(), v)).collect())
}

fn s(v: &str) -> JsonValue {
    JsonValue::String(v.to_string())
}

fn n(v: u64) -> JsonValue {
    JsonValue::Number(JsonNumber::PosInt(v))
}

fn execute(payload: JsonValue) -> Action {
    Action {
        actor_id: "test-actor".to_string(),
        action_type: ActionType::Execute,
        target: "workspace/test".to_string(),
        payload,
        timestamp: None,
    }
}

fn make_execute_action(command: &str, args: &[&str], timeout_ms: u64) -> Action {
    execute(obj(vec![
        ("args", JsonValue::Array(args.iter().map(|a| s(a)).collect())),
        ("command", s(command)),
        ("timeout_ms", n(timeout_ms)),
    ]))
}

#[test]
fn default_config_all_unlimited() {
    let config = SandboxConfig::unlimited();
    assert_eq!(config.output_max_bytes, 0);
    assert!(config.filesystem_allowlist.is_empty());
}

#[test]
fn envelope_from_action_caps_timeout_with_system_limit() {
    let action = make_execute_action("echo", &["hello"], 60_000);
    let envelope = ProcessBackend::envelope_from_action(&action, "/tmp/test", Some(5_000)).unwrap();
    assert_eq!(envelope.timeout_ms, 5_000);
    let envelope = ProcessBackend::envelope_from_action(&action, "/tmp/test", None).unwrap();
    assert_eq!(envelope.timeout_ms, 60_000);
    let action_short = make_execute_action("echo", &["hello"], 2_000);
    let envelope = ProcessBackend::envelope_from_action(&action_short, "/tmp/test", Some(5_000)).unwrap();
    assert_eq!(envelope.timeout_ms, 2_000);
}

#[test]
fn envelope_from_action_rejects_empty_command() {
    let action = execute(obj(vec![("command", s("  ")), ("timeout_ms", n(100))]));
    assert!(ProcessBackend::envelope_from_action(&action, "/tmp/test", None).is_err());
}

#[test]
fn envelope_from_action_default_timeout() {
    let action = execute(obj(vec![("command", s("echo"))]));
    let envelope = ProcessBackend::envelope_from_action(&action, "/tmp/test", None).unwrap();
    assert_eq!(envelope.timeout_ms, 30_000);
}

#[test]
fn process_backend_name() {
    let backend = ProcessBackend::new("/tmp/test");
    assert_eq!(backend.name(), "process");
}

#[test]
fn truncate_output_unlimited() {
    let data = b"hello world";
    let (slice, truncated) = truncate_output(data, 0);
    assert_eq!(slice, data);
    assert!(!truncated);
}

#[test]
fn truncate_output_under_limit() {
    let data = b"hello";
    let (slice, truncated) = truncate_output(data, 100);
    assert_eq!(slice, data);
    assert!(!truncated);
}

#[test]
fn truncate_output_at_limit() {
    let data = b"hello";
    let (slice, truncated) = truncate_output(data, 5);
    assert_eq!(slice, data);
    assert!(!truncated);
}

#[test]
fn truncate_output_over_limit() {
    let data = b"hello world, this is a long message";
    let (slice, truncated) = truncate_output(data, 5);
    assert_eq!(slice, b"hello");
    assert!(truncated);
}

#[test]
fn envelope_from_action_content_mode() {
    let action = execute(obj(vec![("content", s("hello world"))]));
    let envelope = ProcessBackend::envelope_from_action(&action, "/tmp/test", None).unwrap();
    assert!(envelope.command.is_none());
    assert_eq!(envelope.content.as_deref(), Some(b"hello world".as_slice()));
}

#[test]
fn envelope_from_action_rejects_both_command_and_content() {
    let action = execute(obj(vec![("command", s("echo")), ("content", s("hello"))]));
    let result = ProcessBackend::envelope_from_action(&action, "/tmp/test", None);
    assert!(result.is_err());
    let err = result.unwrap_err().to_string();
    assert!(err.contains("mutually exclusive"), "err: {err}");
}

#[test]
fn envelope_from_action_rejects_neither_command_nor_content() {
    let action = execute(obj(vec![("timeout_ms", n(1000))]));
    assert!(ProcessBackend::envelope_from_action(&action, "/tmp/test", None).is_err());
}

#[test]
fn envelope_keeps_only_string_args() {
    let action = execute(obj(vec![
        ("args", JsonValue::Array(vec![s("-n"), n(3), s("x")])),
        ("command", s("echo")),
    ]));
    let envelope = ProcessBackend::envelope_from_action(&action, "/ws", None).unwrap();
    assert_eq!(envelope.command.as_deref(), Some("echo"));
    assert_eq!(envelope.args, vec!["-n".to_string(), "x".to_string()]);
    assert_eq!(envelope.actor_id, "test-actor");
}

#[test]
fn artifact_hash_covers_stdout_then_stderr() {
    // SHA-256 of "hello" (stdout "hel", stderr "lo").
    assert_eq!(
        compute_artifact_hash(b"hel", b"lo"),
        "2cf24dba5fb0a30e26e83b2ac5b9e29e1b161e5c1fa7425e73043362938b9824"
    );
}

#[test]
fn backend_registry_basic_operations() {
    let mut registry = BackendRegistry::new();
    assert!(registry.default_backend().is_none());

    registry.register(ProcessBackend::new("/tmp/test"));

    assert!(registry.default_backend().is_some());
    assert_eq!(registry.default_backend().unwrap().name(), "process");
    assert!(registry.get("process").is_some());
    assert!(registry.get("docker").is_none());
    assert_eq!(registry.list_backends().len(), 1);
}

#[test]
fn registering_again_replaces_and_default_can_move() {
    let mut registry = BackendRegistry::new();
    registry.register(ProcessBackend::new("/a"));
    registry.register(ProcessBackend::new("/b"));
    assert_eq!(registry.list_backends(), vec!["process"]);
    assert_eq!(registry.get("process").unwrap().workspace_root, "/b");
    registry.set_default("docker");
    assert!(registry.default_backend().is_none());
}
