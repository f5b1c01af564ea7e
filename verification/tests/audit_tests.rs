use punkgo::audit::{verify_inclusion, AuditCheckpoint, AuditLog};
use punkgo::hex::{bytes_to_hex, encode, hex_decode, hex_encode};

const L0: &str = "4d5a9584d985e8fb44015a8affa9b76f1ff16f65e61df7156d8e8159e1448978";
const L1: &str = "d103cfb5e499c566904787533afbdec56f95492d67fc00e2c0d0161ba99653f1";
const L2: &str = "5038da95330ba16edb486954197e37eb777c3047327ca54df4199c35c5edc17a";
const N01: &str = "78034e309d8da2f785118f27dab404e9417741e4e53a96ac01f96a66597dd690";
const ROOT3: &str = "69161d2b4f4c2abce257bf2c79f7d4309a4b19fd327c40542d65c6db2ab4cc68";

#[test]
fn inclusion_proofs_of_a_three_leaf_tree() {
    assert!(verify_inclusion(L0, 0, 3, ROOT3, &[L1.to_string(), L2.to_string()]));
    assert!(verify_inclusion(L2, 2, 3, ROOT3, &[N01.to_string()]));
    assert!(verify_inclusion(L1, 1, 3, ROOT3, &[L0.to_string(), L2.to_string()]));
    // A wrong sibling or a wrong index fails.
    assert!(!verify_inclusion(L0, 0, 3, ROOT3, &[L2.to_string(), L1.to_string()]));
    assert!(!verify_inclusion(L0, 1, 3, ROOT3, &[L1.to_string(), L2.to_string()]));
    // A one-leaf tree: the leaf is the root.
    assert!(verify_inclusion(L0, 0, 1, L0, &[]));
}

#[test]
fn hex_codecs() {
    assert_eq!(hex_encode(&[0x00, 0xab, 0x10]), "00ab10");
    assert_eq!(encode(&[0xff]), "ff");
    assert_eq!(bytes_to_hex(&[]), "");
    assert_eq!(hex_decode("00AbfF"), vec![0x00, 0xab, 0xff]);
    assert_eq!(hex_decode("+f0a"), vec![0x0f, 0x0a]);
    assert_eq!(hex_encode(&hex_decode(L0)), L0);
}

#[test]
fn audit_log_stores_leaves_and_interior_nodes() {
    let mut log = AuditLog::new("punkgo/kernel");
    assert_eq!(log.origin(), "punkgo/kernel");
    log.append_leaf(0, L0).unwrap();
    log.append_leaf(1, L1).unwrap();
    log.append_leaf(2, L2).unwrap();
    let stored: Vec<(u64, String)> =
        log.stored_hashes().iter().map(|(k, h)| (*k, bytes_to_hex(h))).collect();
    assert!(stored.contains(&(0, L0.to_string())));
    assert!(stored.contains(&(1, L1.to_string())));
    assert!(stored.contains(&(2, N01.to_string())));
    assert!(stored.contains(&(3, L2.to_string())));
    assert_eq!(stored.len(), 4);
}

#[test]
fn audit_log_rejects_bad_leaf_hex() {
    let mut log = AuditLog::new("o");
    assert!(log.append_leaf(0, "zz").is_err());
}

#[test]
fn checkpoints_and_tree_size() {
    let mut log = AuditLog::new("o");
    assert_eq!(log.tree_size().unwrap(), 0);
    assert!(log.latest_checkpoint().is_err());
    log.record_checkpoint(AuditCheckpoint {
        tree_size: 2,
        root_hash: "r2".to_string(),
        checkpoint_text: "t2".to_string(),
        created_at: "1".to_string(),
    });
    log.record_checkpoint(AuditCheckpoint {
        tree_size: 5,
        root_hash: "r5".to_string(),
        checkpoint_text: "t5".to_string(),
        created_at: "2".to_string(),
    });
    assert_eq!(log.tree_size().unwrap(), 5);
    assert_eq!(log.latest_checkpoint().unwrap().root_hash, "r5");
}
