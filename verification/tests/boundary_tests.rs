use punkgo::action::ActionType;
use punkgo::actor::{ActorRecord, ActorStatus, ActorType, WritableTarget};
use punkgo::boundary::{check_writable_boundary, glob_match, is_privileged_target, validate_child_targets};
use punkgo::json::JsonNumber;

fn make_actor(actor_id: &str, targets: Vec<WritableTarget>) -> ActorRecord {
    ActorRecord {
        actor_id: actor_id.to_string(),
        actor_type: ActorType::Agent,
        creator_id: Some("root".to_string()),
        lineage: vec!["root".to_string()],
        purpose: Some("test".to_string()),
        status: ActorStatus::Active,
        writable_targets: targets,
        energy_share: JsonNumber::Float("0.0".to_string()),
        reduction_policy: "none".to_string(),
        created_at: "0".to_string(),
        updated_at: "0".to_string(),
    }
}

fn wt(target: &str, actions: &[&str]) -> WritableTarget {
    WritableTarget {
        target: target.to_string(),
        actions: actions.iter().map(|s| s.to_string()).collect(),
    }
}

#[test]
fn boundary_observe_exempt() {
    let actor = make_actor("agent-1", vec![]);
    let result = check_writable_boundary(&actor, "workspace/secret", &ActionType::Observe);
    assert!(result.is_ok(), "observe should be exempt from boundary check");
}

#[test]
fn boundary_default_deny() {
    let actor = make_actor("agent-1", vec![]);
    let result = check_writable_boundary(&actor, "workspace/a", &ActionType::Mutate);
    assert!(result.is_err(), "empty writable_targets should deny mutate");
    let err = result.unwrap_err().to_string();
    assert!(err.contains("BoundaryViolation") || err.contains("no writable_target"));
}

#[test]
fn boundary_exact_match() {
    let actor = make_actor("agent-1", vec![wt("workspace/a", &["mutate"])]);
    let result = check_writable_boundary(&actor, "workspace/a", &ActionType::Mutate);
    assert!(result.is_ok(), "exact target match should pass");
}

#[test]
fn boundary_glob_star() {
    let actor = make_actor("agent-1", vec![wt("workspace/*", &["create", "mutate"])]);
    assert!(check_writable_boundary(&actor, "workspace/foo", &ActionType::Create).is_ok());
    assert!(check_writable_boundary(&actor, "workspace/foo/bar", &ActionType::Create).is_err());
}

#[test]
fn boundary_glob_doublestar() {
    let actor = make_actor("agent-1", vec![wt("workspace/**", &["create", "mutate"])]);
    assert!(check_writable_boundary(&actor, "workspace/foo", &ActionType::Create).is_ok());
    assert!(check_writable_boundary(&actor, "workspace/foo/bar/baz", &ActionType::Mutate).is_ok());
}

#[test]
fn boundary_action_mismatch() {
    let actor = make_actor("agent-1", vec![wt("workspace/*", &["create"])]);
    let result = check_writable_boundary(&actor, "workspace/a", &ActionType::Mutate);
    assert!(result.is_err(), "should deny mutate when only create is allowed");
}

#[test]
fn boundary_privileged_target_denied() {
    let actor = make_actor("agent-1", vec![wt("workspace/*", &["create"])]);
    let result = check_writable_boundary(&actor, "system/config", &ActionType::Create);
    assert!(result.is_err(), "non-root should be denied system/* access");
}

#[test]
fn boundary_privileged_target_root_allowed() {
    let root = ActorRecord {
        actor_id: "root".to_string(),
        actor_type: ActorType::Human,
        creator_id: None,
        lineage: vec![],
        purpose: None,
        status: ActorStatus::Active,
        writable_targets: vec![wt("**", &["create", "mutate", "execute"])],
        energy_share: JsonNumber::Float("100.0".to_string()),
        reduction_policy: "none".to_string(),
        created_at: "0".to_string(),
        updated_at: "0".to_string(),
    };
    assert!(check_writable_boundary(&root, "system/config", &ActionType::Create).is_ok());
    assert!(check_writable_boundary(&root, "ledger/actor", &ActionType::Create).is_ok());
}

#[test]
fn boundary_boundary_child_subset_enforced() {
    let parent = make_actor("root", vec![wt("workspace/*", &["create", "mutate"])]);
    let child_ok = vec![wt("workspace/a", &["create"])];
    assert!(validate_child_targets(&parent, &child_ok).is_ok(), "child subset should pass");

    let child_bad_target = vec![wt("data/secret", &["create"])];
    assert!(validate_child_targets(&parent, &child_bad_target).is_err());

    let child_bad_action = vec![wt("workspace/a", &["execute"])];
    assert!(validate_child_targets(&parent, &child_bad_action).is_err());
}

#[test]
fn boundary_doublestar_parent_covers_all() {
    let parent = make_actor("root", vec![wt("**", &["create", "mutate", "execute"])]);
    let child = vec![wt("workspace/deep/nested/path", &["create", "mutate"])];
    assert!(validate_child_targets(&parent, &child).is_ok());
}

#[test]
fn is_privileged_target_detection() {
    assert!(is_privileged_target("system/config"));
    assert!(is_privileged_target("system/policy"));
    assert!(is_privileged_target("ledger/actor"));
    assert!(is_privileged_target("ledger/energy"));
    assert!(!is_privileged_target("workspace/a"));
    assert!(!is_privileged_target("data/file"));
}

#[test]
fn glob_match_various_patterns() {
    assert!(glob_match("**", "anything/at/all"));
    assert!(glob_match("workspace/*", "workspace/a"));
    assert!(!glob_match("workspace/*", "workspace/a/b"));
    assert!(glob_match("workspace/**", "workspace/a/b/c"));
    assert!(glob_match("data/*.json", "data/file.json"));
    assert!(!glob_match("data/*.json", "data/file.txt"));
}

#[test]
fn child_pattern_wider_than_parent_is_rejected() {
    let parent = make_actor("parent", vec![wt("workspace/*", &["create"])]);
    let child = vec![wt("workspace/**", &["create"])];
    assert!(validate_child_targets(&parent, &child).is_err());
    let under = make_actor("parent", vec![wt("workspace/**", &["create"])]);
    let nested = vec![wt("workspace/docs/*", &["create"])];
    assert!(validate_child_targets(&under, &nested).is_ok());
    let literal = vec![wt("workspace/a", &["create"])];
    assert!(validate_child_targets(&parent, &literal).is_ok());
}
