//! Ed25519 signatures on checkpoints.
//!
//! A signed checkpoint carries the extension line
//! `sig/ed25519:<pubkey_hex>:<signature_hex>\n`.
use crate::hex::{bytes_to_hex, hex_of, hex_value};
use crate::text::{chars_of, push_str, starts_with};
use vstd::prelude::*;
use vstd::string::*;

verus! {

/// The Ed25519 public key of a 32-byte secret key (RFC 8032).
pub uninterp spec fn ed25519_public_key(secret: Seq<u8>) -> Seq<u8>;

/// The Ed25519 signature of a message under a 32-byte secret key (RFC 8032;
/// deterministic).
pub uninterp spec fn ed25519_signature(secret: Seq<u8>, msg: Seq<u8>) -> Seq<u8>;

/// Whether a 32-byte public key accepts a 64-byte signature on a message.
pub uninterp spec fn ed25519_accepts(public: Seq<u8>, msg: Seq<u8>, sig: Seq<u8>) -> bool;

/// Calls `ed25519_dalek::SigningKey::from_bytes(..).verifying_key().to_bytes()`.
/// The contract claims that the result is the public key of the secret key
/// (a function of it) and that it is 32 bytes long.
#[verifier::external_body]
fn public_key_of(secret: &[u8]) -> (r: Vec<u8>)
    requires
        secret@.len() == 32,
    ensures
        r@ == ed25519_public_key(secret@),
        r@.len() == 32,
{
    let mut s = [0u8; 32];
    s.copy_from_slice(secret);
    ed25519_dalek::SigningKey::from_bytes(&s).verifying_key().to_bytes().to_vec()
}

/// Calls `ed25519_dalek::Signer::sign` with the key made from `secret`.  The
/// contract claims that the result is the (deterministic) Ed25519 signature,
/// 64 bytes long, and that the key's own public key accepts it, which is what
/// Ed25519 guarantees of every signature it makes.
#[verifier::external_body]
fn sign_with(secret: &[u8], msg: &[u8]) -> (r: Vec<u8>)
    requires
        secret@.len() == 32,
    ensures
        r@ == ed25519_signature(secret@, msg@),
        r@.len() == 64,
        ed25519_accepts(ed25519_public_key(secret@), msg@, r@),
{
    let mut s = [0u8; 32];
    s.copy_from_slice(secret);
    let key = ed25519_dalek::SigningKey::from_bytes(&s);
    ed25519_dalek::Signer::sign(&key, msg).to_bytes().to_vec()
}

/// Calls `ed25519_dalek::VerifyingKey::from_bytes` and then
/// `ed25519_dalek::Verifier::verify` (false when the key bytes are not a
/// valid point).  The contract claims that the answer is a function of the
/// key, message and signature.
#[verifier::external_body]
fn verify_with(public: &[u8], msg: &[u8], sig: &[u8]) -> (r: bool)
    requires
        public@.len() == 32,
        sig@.len() == 64,
    ensures
        r == ed25519_accepts(public@, msg@, sig@),
{
    let mut p = [0u8; 32];
    p.copy_from_slice(public);
    let Ok(vk) = ed25519_dalek::VerifyingKey::from_bytes(&p) else {
        return false;
    };
    let Ok(signature) = ed25519_dalek::Signature::from_slice(sig) else {
        return false;
    };
    ed25519_dalek::Verifier::verify(&vk, msg, &signature).is_ok()
}

/// The bytes that hex text stands for: an even number of ASCII hex digits
/// (either case), two per byte; `None` otherwise.
pub open spec fn hex_decoded(s: Seq<char>) -> Option<Seq<u8>> {
    if s.len() % 2 == 0 && forall|i: int| 0 <= i < s.len() ==> #[trigger] hex_digit_of(s[i]) is Some {
        Some(Seq::new(s.len() / 2, |i: int| (hex_digit_of(s[2 * i])->0 * 16 + hex_digit_of(s[2 * i + 1])->0) as u8))
    } else {
        None
    }
}

/// The value of an ASCII hex digit.
pub open spec fn hex_digit_of(c: char) -> Option<u8> {
    if (c as u32) < 128 {
        hex_value(c as u8)
    } else {
        None
    }
}

fn hex_digit_exec(c: char) -> (r: Option<u8>)
    ensures
        r == hex_digit_of(c),
{
    if (c as u32) < 128 {
        crate::hex::hex_value_exec(c as u8)
    } else {
        None
    }
}

/// Decodes hex text (either case) into bytes.
pub fn decode_hex(s: &str) -> (r: Option<Vec<u8>>)
    ensures
        match hex_decoded(s@) {
            Some(b) => r matches Some(v) && v@ == b,
            None => r is None,
        },
{
    let cs = chars_of(s);
    if cs.len() % 2 != 0 {
        return None;
    }
    let mut out: Vec<u8> = Vec::new();
    let mut i: usize = 0;
    while i < cs.len() / 2
        invariant
            cs@ == s@,
            cs@.len() % 2 == 0,
            i <= cs@.len() / 2,
            out@.len() == i,
            forall|k: int| 0 <= k < 2 * i ==> #[trigger] hex_digit_of(cs@[k]) is Some,
            forall|k: int|
                0 <= k < i ==> #[trigger] out@[k] == (hex_digit_of(cs@[2 * k])->0 * 16
                    + hex_digit_of(cs@[2 * k + 1])->0) as u8,
        decreases cs@.len() / 2 - i,
    {
        let hi = hex_digit_exec(cs[2 * i]);
        let lo = hex_digit_exec(cs[2 * i + 1]);
        match (hi, lo) {
            (Some(h), Some(l)) => {
                proof {
                    assert(h < 16 && l < 16);
                }
                out.push(h * 16 + l);
            },
            _ => {
                return None;
            },
        }
        proof {
            assert forall|k: int| 0 <= k < 2 * (i + 1) implies #[trigger] hex_digit_of(cs@[k]) is Some by {
                if k >= 2 * i {
                    assert(k == 2 * i || k == 2 * i + 1);
                }
            }
        }
        i = i + 1;
    }
    proof {
        assert(out@ =~= hex_decoded(s@)->0);
    }
    Some(out)
}

/// Hex text of some bytes reads back as those bytes.
pub proof fn lemma_hex_roundtrip(bs: Seq<u8>)
    ensures
        hex_decoded(hex_of(bs)) == Some(bs),
{
    let h = hex_of(bs);
    crate::hex::lemma_hex_of_len(bs);
    assert forall|k: int| 0 <= k < h.len() implies #[trigger] hex_digit_of(h[k]) is Some by {
        let i = k / 2;
        crate::hex::lemma_hex_of_index(bs, i);
        crate::hex::lemma_hex_value_of_char((bs[i] / 16) as int);
        crate::hex::lemma_hex_value_of_char((bs[i] % 16) as int);
    }
    assert forall|i: int| 0 <= i < bs.len() implies (hex_digit_of(h[2 * i])->0 * 16 + hex_digit_of(
        h[2 * i + 1],
    )->0) as u8 == bs[i] by {
        crate::hex::lemma_hex_of_index(bs, i);
        crate::hex::lemma_hex_value_of_char((bs[i] / 16) as int);
        crate::hex::lemma_hex_value_of_char((bs[i] % 16) as int);
    }
    assert(hex_decoded(h)->0 =~= bs);
}

/// An Ed25519 key pair for checkpoint signing, kept as its 32-byte secret.
#[derive(Debug, Clone)]
pub struct SigningKey {
    secret: Vec<u8>,
}

impl View for SigningKey {
    type V = Seq<u8>;

    closed spec fn view(&self) -> Seq<u8> {
        self.secret@
    }
}

/// The extension line `sig/ed25519:<pubkey_hex>:<signature_hex>\n`.
pub open spec fn checkpoint_extension(secret: Seq<u8>, body: Seq<u8>) -> Seq<char> {
    "sig/ed25519:"@ + hex_of(ed25519_public_key(secret)) + ":"@ + hex_of(
        ed25519_signature(secret, body),
    ) + "\n"@
}

impl SigningKey {
    pub closed spec fn wf(&self) -> bool {
        self.secret@.len() == 32
    }

    /// The key with the given 32-byte secret.
    pub fn from_bytes(secret: &[u8]) -> (k: Self)
        requires
            secret@.len() == 32,
        ensures
            k.wf(),
            k@ == secret@,
    {
        let mut v: Vec<u8> = Vec::new();
        let mut i: usize = 0;
        while i < secret.len()
            invariant
                i <= secret@.len(),
                v@ == secret@.take(i as int),
            decreases secret@.len() - i,
        {
            v.push(secret[i]);
            proof {
                assert(secret@.take(i + 1) =~= secret@.take(i as int).push(secret@[i as int]));
            }
            i = i + 1;
        }
        proof {
            assert(secret@.take(i as int) =~= secret@);
        }
        SigningKey { secret: v }
    }

    /// The 32-byte secret.
    pub fn to_bytes(&self) -> (r: &[u8])
        ensures
            r@ == self@,
    {
        self.secret.as_slice()
    }

    /// Signs a message; returns the 64-byte signature.
    pub fn sign(&self, msg: &[u8]) -> (r: Vec<u8>)
        requires
            self.wf(),
        ensures
            r@ == ed25519_signature(self@, msg@),
            r@.len() == 64,
    {
        sign_with(self.secret.as_slice(), msg)
    }

    /// Whether this key's public key accepts the signature on the message.
    pub fn verify(&self, msg: &[u8], sig_bytes: &[u8]) -> (r: bool)
        requires
            self.wf(),
            sig_bytes@.len() == 64,
        ensures
            r == ed25519_accepts(ed25519_public_key(self@), msg@, sig_bytes@),
    {
        let pk = public_key_of(self.secret.as_slice());
        verify_with(pk.as_slice(), msg, sig_bytes)
    }

    /// The 32-byte public key.
    pub fn public_key_bytes(&self) -> (r: Vec<u8>)
        requires
            self.wf(),
        ensures
            r@ == ed25519_public_key(self@),
            r@.len() == 32,
    {
        public_key_of(self.secret.as_slice())
    }

    /// The public key as 64 lowercase hex characters.
    pub fn public_key_hex(&self) -> (r: String)
        requires
            self.wf(),
        ensures
            r@ == hex_of(ed25519_public_key(self@)),
            r@.len() == 64,
    {
        let pk = self.public_key_bytes();
        proof {
            crate::hex::lemma_hex_of_len(pk@);
        }
        bytes_to_hex(pk.as_slice())
    }

    /// The checkpoint extension line: `sig/ed25519:<pubkey>:<sig>\n`.
    pub fn sign_checkpoint(&self, checkpoint_body: &[u8]) -> (r: String)
        requires
            self.wf(),
        ensures
            r@ == checkpoint_extension(self@, checkpoint_body@),
    {
        let sig = self.sign(checkpoint_body);
        let pk_hex = self.public_key_hex();
        let sig_hex = bytes_to_hex(sig.as_slice());
        let mut r = String::new();
        push_str(&mut r, "sig/ed25519:");
        push_str(&mut r, pk_hex.as_str());
        push_str(&mut r, ":");
        push_str(&mut r, sig_hex.as_str());
        push_str(&mut r, "\n");
        proof {
            assert(r@ =~= checkpoint_extension(self@, checkpoint_body@));
        }
        r
    }
}

/// Whether hex texts of a public key and a signature verify the message.
pub open spec fn checkpoint_signature_valid(pubkey_hex: Seq<char>, msg: Seq<u8>, sig_hex: Seq<char>) -> bool {
    match (hex_decoded(pubkey_hex), hex_decoded(sig_hex)) {
        (Some(pk), Some(sig)) => pk.len() == 32 && sig.len() == 64 && ed25519_accepts(pk, msg, sig),
        _ => false,
    }
}

/// Verifies a checkpoint signature from the hex texts of the public key and
/// the signature.
pub fn verify_checkpoint_signature(pubkey_hex: &str, msg: &[u8], sig_hex: &str) -> (r: bool)
    ensures
        r == checkpoint_signature_valid(pubkey_hex@, msg@, sig_hex@),
{
    let pk = match decode_hex(pubkey_hex) {
        Some(b) => b,
        None => {
            return false;
        },
    };
    if pk.len() != 32 {
        return false;
    }
    let sig = match decode_hex(sig_hex) {
        Some(b) => b,
        None => {
            return false;
        },
    };
    if sig.len() != 64 {
        return false;
    }
    verify_with(pk.as_slice(), msg, sig.as_slice())
}

/// The public key and signature texts of an extension line
/// `sig/ed25519:<pubkey>:<sig>` (one trailing newline allowed), split at
/// the first `:` after the prefix, when they are 64 and 128 bytes long.
pub open spec fn sig_extension_parts(line: Seq<char>) -> Option<(Seq<char>, Seq<char>)> {
    let prefix = "sig/ed25519:"@;
    if prefix.len() <= line.len() && line.take(prefix.len() as int) == prefix {
        let rest0 = line.skip(prefix.len() as int);
        let rest = if rest0.len() > 0 && rest0.last() == '\n' {
            rest0.drop_last()
        } else {
            rest0
        };
        if rest.contains(':') {
            let k = choose|k: int|
                0 <= k < rest.len() && rest[k] == ':' && forall|j: int| 0 <= j < k ==> rest[j] != ':';
            let pubkey = rest.take(k);
            let sig = rest.skip(k + 1);
            if vstd::utf8::encode_utf8(pubkey).len() == 64 && vstd::utf8::encode_utf8(sig).len()
                == 128 {
                Some((pubkey, sig))
            } else {
                None
            }
        } else {
            None
        }
    } else {
        None
    }
}

/// Splits an extension line into its public key and signature texts.
pub fn parse_sig_extension(line: &str) -> (r: Option<(String, String)>)
    ensures
        match sig_extension_parts(line@) {
            Some((p, s)) => r matches Some((a, b)) && a@ == p && b@ == s,
            None => r is None,
        },
{
    proof {
        reveal_strlit("sig/ed25519:");
    }
    if !starts_with(line, "sig/ed25519:") {
        return None;
    }
    let cs = chars_of(line);
    let mut end = cs.len();
    if end > 12 && cs[end - 1] == '\n' {
        end = end - 1;
    }
    let rest = vstd::slice::slice_subrange(cs.as_slice(), 12, end);
    let ghost rest0 = line@.skip(12);
    let ghost restv = if rest0.len() > 0 && rest0.last() == '\n' {
        rest0.drop_last()
    } else {
        rest0
    };
    proof {
        assert(rest@ =~= restv);
    }
    let mut k: usize = 0;
    while k < rest.len() && rest[k] != ':'
        invariant
            k <= rest@.len(),
            rest@ == restv,
            forall|j: int| 0 <= j < k ==> rest@[j] != ':',
        decreases rest@.len() - k,
    {
        k = k + 1;
    }
    if k == rest.len() {
        proof {
            if restv.contains(':') {
                let j = choose|j: int| 0 <= j < restv.len() && restv[j] == ':';
                assert(rest@[j] != ':');
            }
        }
        return None;
    }
    proof {
        assert(restv.contains(':'));
        let c = choose|c: int|
            0 <= c < restv.len() && restv[c] == ':' && forall|j: int| 0 <= j < c ==> restv[j] != ':';
        if c < k {
            assert(rest@[c] != ':');
        } else if c > k {
            assert(restv[k as int] != ':');
        }
    }
    let pubkey = crate::text::string_from_chars(vstd::slice::slice_subrange(rest, 0, k));
    let sig = crate::text::string_from_chars(vstd::slice::slice_subrange(rest, k + 1, rest.len()));
    proof {
        assert(pubkey@ =~= restv.take(k as int));
        assert(sig@ =~= restv.skip(k + 1));
    }
    if pubkey.as_str().as_bytes().len() == 64 && sig.as_str().as_bytes().len() == 128 {
        Some((pubkey, sig))
    } else {
        None
    }
}

/// A checkpoint extension made with a key verifies under that key: its
/// parts parse, and the public key and signature texts verify the body.
pub proof fn law_signed_checkpoint_verifies(secret: Seq<u8>, body: Seq<u8>)
    requires
        secret.len() == 32,
        ed25519_public_key(secret).len() == 32,
        ed25519_signature(secret, body).len() == 64,
        ed25519_accepts(ed25519_public_key(secret), body, ed25519_signature(secret, body)),
    ensures
        ({
            let pk_hex = hex_of(ed25519_public_key(secret));
            let sig_hex = hex_of(ed25519_signature(secret, body));
            checkpoint_signature_valid(pk_hex, body, sig_hex)
        }),
{
    lemma_hex_roundtrip(ed25519_public_key(secret));
    lemma_hex_roundtrip(ed25519_signature(secret, body));
}

} // verus!
