use punkgo::actor::{ActorRecord, ActorStatus, ActorType, WritableTarget};
use punkgo::consent::{
    check_authorization, check_checkpoint, check_envelope_covers, check_hold_trigger,
    determine_authorization_mode, is_envelope_expired, validate_envelope_reduction,
    AuthorizationMode, CheckpointLevel, EnvelopeRecord, EnvelopeSpec, EnvelopeStatus, HoldRule,
};
use punkgo::json::JsonNumber;

fn make_human(id: &str) -> ActorRecord {
    ActorRecord {
        actor_id: id.to_string(),
        actor_type: ActorType::Human,
        creator_id: None,
        lineage: vec![],
        purpose: None,
        status: ActorStatus::Active,
        writable_targets: vec![WritableTarget {
            target: "**".to_string(),
            actions: vec!["create".to_string(), "mutate".to_string(), "execute".to_string()],
        }],
        energy_share: JsonNumber::Float("100.0".to_string()),
        reduction_policy: "none".to_string(),
        created_at: "0".to_string(),
        updated_at: "0".to_string(),
    }
}

fn make_agent(id: &str) -> ActorRecord {
    ActorRecord {
        actor_id: id.to_string(),
        actor_type: ActorType::Agent,
        creator_id: Some("root".to_string()),
        lineage: vec!["root".to_string()],
        purpose: Some("test".to_string()),
        status: ActorStatus::Active,
        writable_targets: vec![WritableTarget {
            target: "workspace/*".to_string(),
            actions: vec!["create".to_string(), "mutate".to_string()],
        }],
        energy_share: JsonNumber::Float("0.0".to_string()),
        reduction_policy: "none".to_string(),
        created_at: "0".to_string(),
        updated_at: "0".to_string(),
    }
}

fn make_envelope(id: &str, actor_id: &str) -> EnvelopeRecord {
    EnvelopeRecord {
        envelope_id: id.to_string(),
        actor_id: actor_id.to_string(),
        grantor_id: "root".to_string(),
        parent_envelope_id: None,
        budget: 10000,
        budget_consumed: 0,
        targets: vec!["workspace/*".to_string()],
        actions: vec!["create".to_string(), "mutate".to_string()],
        duration_secs: None,
        report_every: None,
        hold_on: vec![],
        hold_timeout_secs: None,
        status: EnvelopeStatus::Active,
        last_report_at: 0,
        created_at: "0".to_string(),
        expires_at: None,
        updated_at: "0".to_string(),
    }
}

fn child_spec(budget: i64, targets: &[&str], actions: &[&str]) -> EnvelopeSpec {
    EnvelopeSpec {
        actor_id: "child-agent".to_string(),
        grantor_id: "parent-agent".to_string(),
        budget,
        targets: targets.iter().map(|s| s.to_string()).collect(),
        actions: actions.iter().map(|s| s.to_string()).collect(),
        duration_secs: None,
        report_every: None,
        hold_on: vec![],
        hold_timeout_secs: None,
    }
}

#[test]
fn human_always_man_in_the_loop() {
    assert_eq!(determine_authorization_mode(&make_human("root")), AuthorizationMode::ManInTheLoop);
}

#[test]
fn agent_is_man_on_the_loop() {
    assert_eq!(determine_authorization_mode(&make_agent("agent-1")), AuthorizationMode::ManOnTheLoop);
}

#[test]
fn human_authorized_without_envelope() {
    let result = check_authorization(&make_human("root"), None);
    assert!(result.is_ok());
    assert_eq!(result.unwrap(), AuthorizationMode::ManInTheLoop);
}

#[test]
fn agent_rejected_without_envelope() {
    let result = check_authorization(&make_agent("agent-1"), None);
    assert!(result.is_err());
    let err = result.unwrap_err().to_string();
    assert!(err.contains("requires an active envelope"));
}

#[test]
fn agent_authorized_with_active_envelope() {
    let agent = make_agent("agent-1");
    let envelope = make_envelope("env-1", "agent-1");
    let result = check_authorization(&agent, Some(&envelope));
    assert!(result.is_ok());
    assert_eq!(result.unwrap(), AuthorizationMode::ManOnTheLoop);
}

#[test]
fn envelope_covers_matching_target_and_action() {
    let envelope = make_envelope("env-1", "agent-1");
    assert!(check_envelope_covers(&envelope, "workspace/readme", "create").is_ok());
}

#[test]
fn envelope_rejects_wrong_action() {
    let envelope = make_envelope("env-1", "agent-1");
    let result = check_envelope_covers(&envelope, "workspace/readme", "execute");
    assert!(result.is_err());
    assert!(result.unwrap_err().to_string().contains("does not permit action"));
}

#[test]
fn envelope_rejects_wrong_target() {
    let envelope = make_envelope("env-1", "agent-1");
    let result = check_envelope_covers(&envelope, "data/secret", "create");
    assert!(result.is_err());
    assert!(result.unwrap_err().to_string().contains("does not cover target"));
}

#[test]
fn envelope_rejects_exhausted_budget() {
    let mut envelope = make_envelope("env-1", "agent-1");
    envelope.budget_consumed = envelope.budget;
    let result = check_envelope_covers(&envelope, "workspace/a", "create");
    assert!(result.is_err());
    assert!(result.unwrap_err().to_string().contains("budget exhausted"));
}

#[test]
fn checkpoint_halt_on_budget_exhaustion() {
    let mut envelope = make_envelope("env-1", "agent-1");
    envelope.budget = 100;
    envelope.budget_consumed = 90;
    assert_eq!(check_checkpoint(&envelope, 15), Some(CheckpointLevel::Halt));
}

#[test]
fn checkpoint_report_on_threshold() {
    let mut envelope = make_envelope("env-1", "agent-1");
    envelope.budget = 10000;
    envelope.budget_consumed = 490;
    envelope.report_every = Some(500);
    assert_eq!(check_checkpoint(&envelope, 15), Some(CheckpointLevel::Report));
}

#[test]
fn checkpoint_none_when_no_threshold_crossed() {
    let mut envelope = make_envelope("env-1", "agent-1");
    envelope.budget = 10000;
    envelope.budget_consumed = 100;
    envelope.report_every = Some(500);
    assert_eq!(check_checkpoint(&envelope, 10), None);
}

#[test]
fn envelope_reduction_budget_exceeds_parent() {
    let parent = make_envelope("parent-env", "parent-agent");
    let result = validate_envelope_reduction(&parent, &child_spec(20000, &["workspace/*"], &["create"]));
    assert!(result.is_err());
    assert!(result.unwrap_err().to_string().contains("exceeds parent remaining"));
}

#[test]
fn envelope_reduction_action_not_in_parent() {
    let parent = make_envelope("parent-env", "parent-agent");
    let result = validate_envelope_reduction(&parent, &child_spec(5000, &["workspace/*"], &["execute"]));
    assert!(result.is_err());
    assert!(result.unwrap_err().to_string().contains("not in parent actions"));
}

#[test]
fn envelope_reduction_valid_subset() {
    let parent = make_envelope("parent-env", "parent-agent");
    let result = validate_envelope_reduction(&parent, &child_spec(5000, &["workspace/docs"], &["create"]));
    assert!(result.is_ok());
}

#[test]
fn lazy_expiry_not_expired() {
    let envelope = make_envelope("env-1", "agent-1");
    assert!(!is_envelope_expired(&envelope, 999999));
}

#[test]
fn lazy_expiry_expired() {
    let mut envelope = make_envelope("env-1", "agent-1");
    envelope.expires_at = Some("1000".to_string());
    assert!(is_envelope_expired(&envelope, 2000));
    assert!(!is_envelope_expired(&envelope, 500));
}

fn rule(target: &str, actions: &[&str]) -> HoldRule {
    HoldRule { target: target.to_string(), actions: actions.iter().map(|s| s.to_string()).collect() }
}

#[test]
fn hold_trigger_matches_target_and_action() {
    let rules = vec![rule("external/*", &["execute"])];
    assert!(check_hold_trigger(&rules, "external/api", "execute"));
}

#[test]
fn hold_trigger_no_match_wrong_action() {
    let rules = vec![rule("external/*", &["execute"])];
    assert!(!check_hold_trigger(&rules, "external/api", "mutate"));
}

#[test]
fn hold_trigger_no_match_wrong_target() {
    let rules = vec![rule("external/*", &["execute"])];
    assert!(!check_hold_trigger(&rules, "workspace/api", "execute"));
}

#[test]
fn hold_trigger_empty_rules_never_triggers() {
    assert!(!check_hold_trigger(&[], "external/api", "execute"));
}

#[test]
fn hold_trigger_multiple_rules_first_match() {
    let rules = vec![rule("system/*", &["mutate"]), rule("external/*", &["execute"])];
    assert!(check_hold_trigger(&rules, "external/openai", "execute"));
    assert!(check_hold_trigger(&rules, "system/config", "mutate"));
    assert!(!check_hold_trigger(&rules, "workspace/foo", "execute"));
}

#[test]
fn envelope_status_text_roundtrip() {
    assert_eq!(EnvelopeStatus::parse("active"), Some(EnvelopeStatus::Active));
    assert_eq!(EnvelopeStatus::parse("expired"), Some(EnvelopeStatus::Expired));
    assert_eq!(EnvelopeStatus::parse("revoked"), Some(EnvelopeStatus::Revoked));
    assert_eq!(EnvelopeStatus::parse("paused"), None);
    assert_eq!(EnvelopeStatus::Revoked.as_str(), "revoked");
}

#[test]
fn checkpoint_exact_budget_is_halt() {
    let mut envelope = make_envelope("env-1", "agent-1");
    envelope.budget = 100;
    envelope.budget_consumed = 90;
    assert_eq!(check_checkpoint(&envelope, 10), Some(CheckpointLevel::Halt));
    assert_eq!(check_checkpoint(&envelope, 9), None);
}
