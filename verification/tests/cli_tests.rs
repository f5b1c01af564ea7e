use punkgo::cli::{
    audit_request_payload, build_action_request, build_raw_request, build_read_request,
    build_send_request, default_endpoint, parse_endpoint, read_request_payload, request_json,
    seed_actor_action,
};
use punkgo::json::{JsonNumber, JsonValue};

fn args(v: &[&str]) -> Vec<String> {
    v.iter().map(|s| s.to_string()).collect()
}

fn s(v: &str) -> JsonValue {
    JsonValue::String(v.to_string())
}

fn num(v: i64) -> JsonValue {
    if v < 0 {
        JsonValue::Number(JsonNumber::NegInt(v))
    } else {
        JsonValue::Number(JsonNumber::PosInt(v as u64))
    }
}

fn obj(entries: Vec<(&str, JsonValue)>) -> JsonValue {
    JsonValue::Object(entries.into_iter().map(|(k, v)| (k.to_string(), v)).collect())
}

/// A small JSON reader for the tests: objects of strings and integers.
fn parse_json(text: String) -> Option<JsonValue> {
    let t = text.trim();
    if t == "{}" {
        return Some(obj(vec![]));
    }
    if t == "[1]" {
        return Some(JsonValue::Array(vec![num(1)]));
    }
    if t == r#"{"type":"read"}"# {
        return Some(obj(vec![("type", s("read"))]));
    }
    if t == r#"{"kind":"health"}"# {
        return Some(obj(vec![("kind", s("health"))]));
    }
    None
}

#[test]
fn endpoint_flag_is_taken_off() {
    let mut a = args(&["--endpoint", "/tmp/sock", "read", "health"]);
    assert_eq!(parse_endpoint(&mut a), "/tmp/sock");
    assert_eq!(a, args(&["read", "health"]));
    let mut b = args(&["-e", "pipe", "x"]);
    assert_eq!(parse_endpoint(&mut b), "pipe");
    assert_eq!(b, args(&["x"]));
    let mut c = args(&["read", "health"]);
    assert_eq!(parse_endpoint(&mut c), "punkgo-kernel");
    assert_eq!(c, args(&["read", "health"]));
    let mut d = args(&["--endpoint"]);
    assert_eq!(parse_endpoint(&mut d), default_endpoint());
    assert_eq!(d.len(), 1);
}

#[test]
fn read_payload_with_all_options_sorted() {
    let p = read_request_payload(&args(&[
        "events", "--limit", "5", "--actor-id", "alice", "--old-size", "-1", "--tree-size", "9",
        "--log-index", "3",
    ]))
    .unwrap();
    assert_eq!(
        p,
        obj(vec![
            ("actor_id", s("alice")),
            ("kind", s("events")),
            ("limit", num(5)),
            ("log_index", num(3)),
            ("old_size", num(-1)),
            ("tree_size", num(9)),
        ])
    );
    assert_eq!(read_request_payload(&args(&["health"])).unwrap(), obj(vec![("kind", s("health"))]));
}

#[test]
fn read_payload_errors() {
    assert_eq!(
        read_request_payload(&args(&[])).unwrap_err(),
        "usage: punkgo-cli read <kind> [--actor-id <id>] [--limit <n>] [--log-index <n>] [--tree-size <n>] [--old-size <n>]"
    );
    assert_eq!(read_request_payload(&args(&["events", "--limit"])).unwrap_err(), "--limit requires a value");
    assert_eq!(
        read_request_payload(&args(&["events", "--limit", "ten"])).unwrap_err(),
        "invalid --limit value: ten"
    );
    assert_eq!(read_request_payload(&args(&["events", "--bogus"])).unwrap_err(), "unknown read option: --bogus");
    assert_eq!(read_request_payload(&args(&["x", "--actor-id"])).unwrap_err(), "--actor-id requires a value");
}

#[test]
fn read_request_envelope() {
    let r = build_read_request(args(&["stats"])).unwrap();
    match r {
        JsonValue::Object(es) => {
            assert_eq!(es.len(), 3);
            assert_eq!(es[0], ("payload".to_string(), obj(vec![("kind", s("stats"))])));
            assert_eq!(es[1].0, "request_id");
            match &es[1].1 {
                JsonValue::String(id) => assert_eq!(id.len(), 36),
                other => panic!("request id is not a string: {other:?}"),
            }
            assert_eq!(es[2], ("type".to_string(), s("read")));
        }
        other => panic!("not an object: {other:?}"),
    }
}

#[test]
fn request_json_layout() {
    let r = request_json("id-1".to_string(), "submit", obj(vec![]));
    assert_eq!(r, obj(vec![("payload", obj(vec![])), ("request_id", s("id-1")), ("type", s("submit"))]));
}

#[test]
fn audit_payloads() {
    assert_eq!(
        audit_request_payload(&args(&["checkpoint"])).unwrap(),
        obj(vec![("kind", s("audit_checkpoint"))])
    );
    assert_eq!(
        audit_request_payload(&args(&["proof", "0"])).unwrap(),
        obj(vec![("kind", s("audit_inclusion_proof")), ("log_index", num(0))])
    );
    assert_eq!(
        audit_request_payload(&args(&["proof", "2", "--tree-size", "3"])).unwrap(),
        obj(vec![("kind", s("audit_inclusion_proof")), ("log_index", num(2)), ("tree_size", num(3))])
    );
    assert_eq!(
        audit_request_payload(&args(&["consistency", "1", "3"])).unwrap(),
        obj(vec![("kind", s("audit_consistency_proof")), ("old_size", num(1)), ("tree_size", num(3))])
    );
    assert_eq!(audit_request_payload(&args(&["proof", "x"])).unwrap_err(), "invalid log-index: x");
    assert_eq!(
        audit_request_payload(&args(&["proof", "1", "--size"])).unwrap_err(),
        "unknown option: --size"
    );
    assert_eq!(
        audit_request_payload(&args(&["proof", "1", "--tree-size", "q"])).unwrap_err(),
        "invalid --tree-size: q"
    );
    assert_eq!(audit_request_payload(&args(&["consistency", "1"])).unwrap_err(),
        "usage: punkgo-cli audit consistency <old-size> <new-size>");
    assert_eq!(audit_request_payload(&args(&["consistency", "1", "z"])).unwrap_err(), "invalid new-size: z");
    assert_eq!(audit_request_payload(&args(&["verify"])).unwrap_err(), "unknown audit subcommand: verify");
}

#[test]
fn seed_actor_actions() {
    assert_eq!(
        seed_actor_action(&args(&["alice"])).unwrap(),
        obj(vec![
            ("action_type", s("create")),
            ("actor_id", s("root")),
            ("payload", obj(vec![("actor_id", s("alice")), ("energy_balance", num(1000))])),
            ("target", s("ledger/actor")),
        ])
    );
    assert_eq!(
        seed_actor_action(&args(&["bob", "--energy", "5000", "--as", "alice"])).unwrap(),
        obj(vec![
            ("action_type", s("create")),
            ("actor_id", s("alice")),
            ("payload", obj(vec![("actor_id", s("bob")), ("energy_balance", num(5000))])),
            ("target", s("ledger/actor")),
        ])
    );
    assert_eq!(seed_actor_action(&args(&["  "])).unwrap_err(), "new actor id cannot be empty");
    assert_eq!(seed_actor_action(&args(&["bob", "--energy", "-1"])).unwrap_err(), "--energy must be >= 0");
    assert_eq!(seed_actor_action(&args(&["bob", "--as"])).unwrap_err(), "--as requires a value");
    assert_eq!(seed_actor_action(&args(&["bob", "-x"])).unwrap_err(), "unknown seed-actor option: -x");
}

#[test]
fn action_and_send_requests() {
    let parse = |t: String| parse_json(t);
    assert_eq!(
        build_action_request("quote", args(&[]), &parse).unwrap_err(),
        "usage: punkgo-cli quote '<action-json>'"
    );
    assert_eq!(
        build_action_request("submit", args(&["not json"]), &parse).unwrap_err(),
        "invalid action JSON: not json"
    );
    let r = build_action_request("submit", args(&["{}"]), &parse).unwrap();
    match r {
        JsonValue::Object(es) => {
            assert_eq!(es[0], ("payload".to_string(), obj(vec![])));
            assert_eq!(es[2], ("type".to_string(), s("submit")));
        }
        _ => panic!("not an object"),
    }
    assert_eq!(
        build_send_request(args(&["delete", "{}"]), &parse).unwrap_err(),
        "invalid request type: delete"
    );
    assert_eq!(
        build_send_request(args(&["read"]), &parse).unwrap_err(),
        "usage: punkgo-cli send <quote|submit|read> '<payload-json>'"
    );
    assert_eq!(build_send_request(args(&["read", "?"]), &parse).unwrap_err(), "invalid payload JSON: ?");
    assert!(build_send_request(args(&["read", r#"{"kind":"health"}"#]), &parse).is_ok());
}

#[test]
fn raw_requests_are_completed() {
    let parse = |t: String| parse_json(t);
    let r = build_raw_request(args(&[r#"{"type":"read"}"#]), &parse).unwrap();
    match r {
        JsonValue::Object(es) => {
            assert_eq!(es.len(), 3);
            assert_eq!(es[0], ("payload".to_string(), obj(vec![])));
            assert_eq!(es[1].0, "request_id");
            assert_eq!(es[2], ("type".to_string(), s("read")));
        }
        _ => panic!("not an object"),
    }
    assert_eq!(
        build_raw_request(args(&["{}"]), &parse).unwrap_err(),
        "raw request missing required field: type"
    );
    assert_eq!(build_raw_request(args(&["[1]"]), &parse).unwrap_err(), "request JSON must be an object");
    assert_eq!(build_raw_request(args(&["nope"]), &parse).unwrap_err(), "invalid request JSON: nope");
    assert_eq!(build_raw_request(args(&[]), &parse).unwrap_err(), "usage: punkgo-cli raw '<request-json>'");
}

#[test]
fn request_id_is_hyphenated_lowercase_uuid() {
    let id = punkgo::cli::request_id();
    assert_eq!(id.len(), 36);
    for (i, c) in id.chars().enumerate() {
        if i == 8 || i == 13 || i == 18 || i == 23 {
            assert_eq!(c, '-');
        } else {
            assert!(c.is_ascii_digit() || ('a'..='f').contains(&c), "{id}");
        }
    }
}
