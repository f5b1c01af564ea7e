use punkgo::actor::{build_lineage, derive_agent_id, ActorStatus, ActorType};

#[test]
fn derive_agent_id_basic() {
    assert_eq!(derive_agent_id("root", "doc-organizer", 1), "root/doc-organizer/1");
}

#[test]
fn derive_agent_id_second_agent() {
    assert_eq!(derive_agent_id("root", "tiktok-downloader", 1), "root/tiktok-downloader/1");
}

#[test]
fn derive_agent_id_sanitizes_spaces() {
    assert_eq!(derive_agent_id("root", "My Cool Agent", 1), "root/my-cool-agent/1");
}

#[test]
fn build_lineage_human_creator() {
    let lineage = build_lineage(&ActorType::Human, "root", &[]);
    assert_eq!(lineage, vec!["root"]);
}

#[test]
fn build_lineage_agent_creator_fallback() {
    let creator_lineage = vec!["root".to_string()];
    let lineage = build_lineage(&ActorType::Agent, "root/worker/1", &creator_lineage);
    assert_eq!(lineage, vec!["root/worker/1"]);
}

#[test]
fn actor_type_roundtrip() {
    assert_eq!(ActorType::parse("human"), Some(ActorType::Human));
    assert_eq!(ActorType::parse("agent"), Some(ActorType::Agent));
    assert_eq!(ActorType::parse("unknown"), None);
}

#[test]
fn actor_status_roundtrip() {
    assert_eq!(ActorStatus::parse("active"), Some(ActorStatus::Active));
    assert_eq!(ActorStatus::parse("frozen"), Some(ActorStatus::Frozen));
}

#[test]
fn derive_agent_id_collapses_and_trims_hyphens() {
    assert_eq!(derive_agent_id("alice", "  --Data__Sync!!  ", 7), "alice/data-sync/7");
}

#[test]
fn actor_type_and_status_text() {
    assert_eq!(ActorType::Human.as_str(), "human");
    assert_eq!(ActorType::Agent.as_str(), "agent");
    assert_eq!(ActorStatus::Active.as_str(), "active");
    assert_eq!(ActorStatus::Frozen.as_str(), "frozen");
    assert_eq!(ActorStatus::parse("terminated"), None);
}
