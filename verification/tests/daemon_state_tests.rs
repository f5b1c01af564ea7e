use punkgo::daemon::{parse_addr, parse_pid};
use punkgo::kernel::KernelConfig;
use punkgo::state::{
    default_ipc_endpoint, default_state_dir, home_dir, join, SnapshotInfo, StatePaths,
};
use punkgo::testkit::{make_request, TestStateDir};
use punkgo::protocol::RequestType;
use punkgo::json::JsonValue;

#[test]
fn address_file_fields() {
    let content = "pid=4242\naddr=punkgo-kernel";
    assert_eq!(parse_pid(content), Some(4242));
    assert_eq!(parse_addr(content), Some("punkgo-kernel".to_string()));
    assert_eq!(parse_pid("pid= 17 \r\naddr= /tmp/s.sock \r\n"), Some(17));
    assert_eq!(parse_addr("pid= 17 \r\naddr= /tmp/s.sock \r\n"), Some("/tmp/s.sock".to_string()));
    assert_eq!(parse_pid(""), None);
    assert_eq!(parse_pid("addr=x"), None);
    assert_eq!(parse_pid("pid=abc\npid=5"), None);
    assert_eq!(parse_pid("pid=99999999999"), None);
    assert_eq!(parse_pid("x\n\npid=+8"), Some(8));
    assert_eq!(parse_addr("xaddr=1\naddr="), Some(String::new()));
}

#[test]
fn path_joining() {
    assert_eq!(join("/a", "b"), "/a/b");
    assert_eq!(join("/a/", "b"), "/a/b");
    assert_eq!(join("", "b"), "b");
    assert_eq!(join("/a", "/b"), "/b");
    let p = StatePaths::under("/var/punkgo");
    assert_eq!(p.root, "/var/punkgo");
    assert_eq!(p.workspace_root, "/var/punkgo/workspaces");
    assert_eq!(p.quarantine_root, "/var/punkgo/quarantine");
    assert_eq!(p.blobs_root, "/var/punkgo/blobs");
    assert_eq!(p.db_path, "/var/punkgo/punkgo.db");
}

#[test]
fn configuration_defaults() {
    assert_eq!(default_state_dir(Some("/home/u")), "/home/u/.punkgo/state");
    assert_eq!(default_state_dir(None), "state");
    assert_eq!(default_ipc_endpoint(false), "punkgo-kernel");
    assert_eq!(default_ipc_endpoint(true), r"\\.\pipe\punkgo-kernel");
    assert_eq!(home_dir(Some("/h"), Some("/p"), None, None), Some("/h".to_string()));
    assert_eq!(home_dir(None, Some("/p"), None, None), Some("/p".to_string()));
    assert_eq!(home_dir(None, None, Some("C:"), Some("Users")), Some("C:/Users".to_string()));
    assert_eq!(home_dir(None, None, Some("C:"), None), None);
    let c = KernelConfig::from_env(None, None, Some("/home/u"), false);
    assert_eq!(c.state_dir, "/home/u/.punkgo/state");
    assert_eq!(c.ipc_endpoint, "punkgo-kernel");
    let c = KernelConfig::from_env(Some("/s"), Some("ep"), None, true);
    assert_eq!(c.state_dir, "/s");
    assert_eq!(c.ipc_endpoint, "ep");
}

#[test]
fn snapshot_and_test_dirs() {
    let s = SnapshotInfo::empty("123".to_string());
    assert_eq!(s.event_count, 0);
    assert_eq!(s.hash, "");
    assert_eq!(s.generated_at, "123");
    let d = TestStateDir::under("/tmp", "punkgo-x");
    assert!(d.path().starts_with("/tmp/punkgo-x-"));
    assert_eq!(d.path().len(), "/tmp/punkgo-x-".len() + 36);
    assert!(d.ipc_endpoint().starts_with("punkgo-test-"));
    let r = make_request(RequestType::Read, JsonValue::Null);
    assert_eq!(r.request_type, RequestType::Read);
    assert_eq!(r.payload, JsonValue::Null);
    assert_eq!(r.request_id.len(), 36);
}
