use punkgo::hex::bytes_to_hex;
use punkgo::signing::{decode_hex, parse_sig_extension, verify_checkpoint_signature, SigningKey};

fn key(seed: u8) -> SigningKey {
    SigningKey::from_bytes(&[seed; 32])
}

#[test]
fn generate_and_load_roundtrip() {
    let sk1 = key(7);
    let sk2 = SigningKey::from_bytes(sk1.to_bytes());
    assert_eq!(sk1.public_key_bytes(), sk2.public_key_bytes());
}

#[test]
fn sign_and_verify() {
    let sk = key(1);
    let msg = b"punkgo/kernel\n42\nhash=\n";
    let sig = sk.sign(msg);
    assert!(sk.verify(msg, &sig));
}

#[test]
fn wrong_message_fails_verify() {
    let sk = key(2);
    let sig = sk.sign(b"correct");
    assert!(!sk.verify(b"wrong", &sig));
}

#[test]
fn sign_checkpoint_produces_valid_extension() {
    let sk = key(3);
    let body = b"punkgo/kernel\n100\naBcDeFgH=\n";
    let ext = sk.sign_checkpoint(body);

    assert!(ext.starts_with("sig/ed25519:"));
    assert!(ext.ends_with('\n'));

    let (pubkey, sig) = parse_sig_extension(&ext).unwrap();
    assert!(verify_checkpoint_signature(&pubkey, body, &sig));
}

#[test]
fn parse_sig_extension_rejects_garbage() {
    assert!(parse_sig_extension("garbage").is_none());
    assert!(parse_sig_extension("sig/ed25519:short:short").is_none());
    assert!(parse_sig_extension("sig/rsa:abc:def").is_none());
}

#[test]
fn verify_checkpoint_signature_rejects_wrong_key() {
    let sk1 = key(4);
    let sk2 = key(5);
    let msg = b"test message";
    let sig = sk1.sign(msg);
    assert!(!verify_checkpoint_signature(&sk2.public_key_hex(), msg, &bytes_to_hex(&sig)));
}

#[test]
fn rfc8032_test_vector_one() {
    // RFC 8032, section 7.1, TEST 1: empty message.
    let secret = decode_hex("9d61b19deffd5a60ba844af492ec2cc44449c5697b326919703bac031cae7f60").unwrap();
    let sk = SigningKey::from_bytes(&secret);
    assert_eq!(
        sk.public_key_hex(),
        "d75a980182b10ab7d54bfed3c964073a0ee172f3daa62325af021a68f707511a"
    );
    let sig = sk.sign(b"");
    assert_eq!(
        bytes_to_hex(&sig),
        "e5564300c360ac729086e2cc806e828a84877f1eb8e5d974d873e065224901555fb8821590a33bacc61e39701cf9b46bd25bf5f0595bbe24655141438e7a100b"
    );
}

#[test]
fn parse_sig_extension_splits_key_and_signature() {
    let pk = "a".repeat(64);
    let sig = "b".repeat(128);
    let line = format!("sig/ed25519:{pk}:{sig}\n");
    let (p, s) = parse_sig_extension(&line).unwrap();
    assert_eq!(p, pk);
    assert_eq!(s, sig);
    // Without the trailing newline too.
    let line2 = format!("sig/ed25519:{pk}:{sig}");
    assert!(parse_sig_extension(&line2).is_some());
    // A signature one character short is refused.
    let line3 = format!("sig/ed25519:{pk}:{}", "b".repeat(127));
    assert!(parse_sig_extension(&line3).is_none());
}

#[test]
fn decode_hex_reads_both_cases_and_rejects_odd_length() {
    assert_eq!(decode_hex("00ffAB").unwrap(), vec![0x00, 0xff, 0xab]);
    assert!(decode_hex("abc").is_none());
    assert!(decode_hex("zz").is_none());
    assert_eq!(decode_hex("").unwrap(), Vec::<u8>::new());
}

#[test]
fn tampered_signature_is_rejected() {
    let sk = key(9);
    let body = b"checkpoint body";
    let mut sig = sk.sign(body);
    sig[0] ^= 1;
    assert!(!verify_checkpoint_signature(&sk.public_key_hex(), body, &bytes_to_hex(&sig)));
    assert!(!verify_checkpoint_signature("zz", body, &bytes_to_hex(&sig)));
}
