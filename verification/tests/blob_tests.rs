use punkgo::blob::{parse_oid, BlobStore};

#[test]
fn different_content_different_oid() {
    let oid1 = BlobStore::oid_for(b"content A");
    let oid2 = BlobStore::oid_for(b"content B");
    assert_ne!(oid1, oid2);
    assert!(oid1.starts_with("sha256:"));
}

#[test]
fn deduplication() {
    assert_eq!(BlobStore::oid_for(b"same content"), BlobStore::oid_for(b"same content"));
}

#[test]
fn invalid_oid_format() {
    let store = BlobStore::new("/tmp/blobs");
    assert!(store.path_for_oid("md5:abc123").is_err());
    assert!(store.path_for_oid("sha256:tooshort").is_err());
    assert!(store.path_for_oid("bad-oid").is_err());
}

#[test]
fn empty_content_oid() {
    assert_eq!(
        BlobStore::oid_for(b""),
        "sha256:e3b0c44298fc1c149afbf4c8996fb92427ae41e4649b934ca495991b7852b855"
    );
}

#[test]
fn oid_path_layout() {
    let store = BlobStore::new("/data/blobs");
    let hex = "ab".to_string() + &"cd".repeat(31);
    let oid = format!("sha256:{hex}");
    assert_eq!(parse_oid(&oid).unwrap(), hex);
    assert_eq!(store.path_for_oid(&oid).unwrap(), format!("/data/blobs/sha256/ab/cd/{hex}"));
    assert_eq!(store.oid_to_path(&hex), format!("/data/blobs/sha256/ab/cd/{hex}"));
}

#[test]
fn parse_oid_error_messages() {
    let e = parse_oid("md5:abc").unwrap_err().to_string();
    assert_eq!(e, "policy violation: invalid OID format (expected sha256:<hex>): md5:abc");
    let e = parse_oid("sha256:xyz").unwrap_err().to_string();
    assert_eq!(e, "policy violation: invalid OID hex (expected 64 hex chars): sha256:xyz");
}
