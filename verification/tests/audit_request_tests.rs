use punkgo::audit::{checkpoint_text, AuditError};
use punkgo::errors::KernelError;
use punkgo::hex::{hex_decode, hex_encode};
use punkgo::kernel::{consistency_proof_request, inclusion_proof_request, ReadQuery};

fn query(log_index: Option<i64>, tree_size: Option<i64>, old_size: Option<i64>) -> ReadQuery {
    ReadQuery {
        kind: "audit_inclusion_proof".to_string(),
        actor_id: None,
        hold_id: None,
        limit: None,
        log_index,
        tree_size,
        old_size,
        before_index: None,
        after_index: None,
        requester_id: None,
    }
}

#[test]
fn checkpoint_text_is_the_c2sp_note() {
    let text = checkpoint_text("punkgo/test", 3, &[0u8; 32]).ok().unwrap();
    assert_eq!(text, "punkgo/test\n3\nAAAAAAAAAAAAAAAAAAAAAAAAAAAAAAAAAAAAAAAAAAA=\n");
}

#[test]
fn checkpoint_text_refuses_an_empty_origin() {
    assert!(matches!(checkpoint_text("", 3, &[0u8; 32]), Err(AuditError::Checkpoint)));
}

#[test]
fn inclusion_request_needs_a_log_index() {
    match inclusion_proof_request(&query(None, Some(4), None)) {
        Err(KernelError::InvalidRequest(m)) => assert_eq!(m, "log_index is required for audit_inclusion_proof"),
        _ => panic!("expected an invalid request"),
    }
}

#[test]
fn inclusion_request_reads_index_and_size() {
    assert!(matches!(inclusion_proof_request(&query(Some(2), Some(5), None)), Ok((2, Some(5)))));
    assert!(matches!(inclusion_proof_request(&query(Some(2), None, None)), Ok((2, None))));
}

#[test]
fn consistency_request_needs_both_sizes() {
    match consistency_proof_request(&query(None, None, None)) {
        Err(KernelError::InvalidRequest(m)) => assert_eq!(m, "old_size is required for audit_consistency_proof"),
        _ => panic!("expected an invalid request"),
    }
    match consistency_proof_request(&query(None, None, Some(1))) {
        Err(KernelError::InvalidRequest(m)) => assert_eq!(m, "tree_size is required for audit_consistency_proof"),
        _ => panic!("expected an invalid request"),
    }
    assert!(matches!(consistency_proof_request(&query(None, Some(7), Some(3))), Ok((3, 7))));
}

#[test]
fn decoding_an_encoding_gives_the_bytes_back() {
    let bytes = vec![0u8, 7, 16, 200, 255];
    assert_eq!(hex_encode(&bytes), "000710c8ff");
    assert_eq!(hex_decode(&hex_encode(&bytes)), bytes);
}
