//! Content addressing for blobs: object ids `sha256:<hex>` and where a blob
//! with a given id lives (`{root}/sha256/{hex[0:2]}/{hex[2:4]}/{hex}`).
use crate::digest::{sha256, sha256_digest};
use crate::errors::{KernelError, KernelResult};
use crate::hex::{bytes_to_hex, hex_of};
use crate::requests::is_hex_char;
use crate::text::{chars_of, push_str, starts_with};
use vstd::prelude::*;
use vstd::string::*;

verus! {

/// A content-addressed blob store rooted at a directory.
#[derive(Debug, Clone)]
pub struct BlobStore {
    pub root: String,
}

/// The hex part of a well-formed object id: `sha256:` then 64 hex digits.
pub open spec fn oid_hex(oid: Seq<char>) -> Option<Seq<char>> {
    let prefix = "sha256:"@;
    if prefix.len() <= oid.len() && oid.take(prefix.len() as int) == prefix {
        let hex = oid.skip(prefix.len() as int);
        if hex.len() == 64 && forall|i: int| 0 <= i < 64 ==> #[trigger] is_hex_char(hex[i]) {
            Some(hex)
        } else {
            None
        }
    } else {
        None
    }
}

/// The object id of some bytes.
pub open spec fn oid_of(data: Seq<u8>) -> Seq<char> {
    "sha256:"@ + hex_of(sha256_digest(data))
}

/// Reads an object id `sha256:<hex>` and returns its 64 hex digits.
pub fn parse_oid(oid: &str) -> (r: KernelResult<String>)
    ensures
        match oid_hex(oid@) {
            Some(h) => r matches Ok(s) && s@ == h,
            None => r is Err,
        },
        !starts_with_spec(oid@, "sha256:"@) ==> (r matches Err(KernelError::PolicyViolation(d))
            && d@ == "invalid OID format (expected sha256:<hex>): "@ + oid@),
        starts_with_spec(oid@, "sha256:"@) && oid_hex(oid@) is None ==> (r matches Err(
            KernelError::PolicyViolation(d),
        ) && d@ == "invalid OID hex (expected 64 hex chars): "@ + oid@),
{
    proof {
        reveal_strlit("sha256:");
    }
    if !starts_with(oid, "sha256:") {
        let mut d = String::new();
        push_str(&mut d, "invalid OID format (expected sha256:<hex>): ");
        push_str(&mut d, oid);
        return Err(KernelError::PolicyViolation(d));
    }
    let cs = chars_of(oid);
    let hex_chars = vstd::slice::slice_subrange(cs.as_slice(), 7, cs.len());
    let ghost hex = oid@.skip(7);
    proof {
        assert(hex_chars@ =~= hex);
    }
    let mut ok = hex_chars.len() == 64;
    let mut i: usize = 0;
    while ok && i < hex_chars.len()
        invariant
            hex_chars@ == hex,
            ok ==> hex.len() == 64,
            i <= hex.len(),
            ok ==> forall|j: int| 0 <= j < i ==> #[trigger] is_hex_char(hex[j]),
            !ok ==> !(hex.len() == 64 && forall|j: int| 0 <= j < 64 ==> #[trigger] is_hex_char(hex[j])),
        decreases hex.len() - i,
    {
        let c = hex_chars[i];
        if !(('0' <= c && c <= '9') || ('a' <= c && c <= 'f') || ('A' <= c && c <= 'F')) {
            proof {
                assert(!is_hex_char(hex[i as int]));
            }
            ok = false;
        }
        i = i + 1;
    }
    if !ok {
        let mut d = String::new();
        push_str(&mut d, "invalid OID hex (expected 64 hex chars): ");
        push_str(&mut d, oid);
        return Err(KernelError::PolicyViolation(d));
    }
    Ok(crate::text::string_from_chars(hex_chars))
}

/// The hex SHA-256 digest of some bytes.
pub fn sha256_hex(data: &[u8]) -> (r: String)
    ensures
        r@ == hex_of(sha256_digest(data@)),
{
    let digest = sha256(data);
    bytes_to_hex(digest.as_slice())
}

/// Whether `s` begins with `prefix`.
pub open spec fn starts_with_spec(s: Seq<char>, prefix: Seq<char>) -> bool {
    prefix.len() <= s.len() && s.take(prefix.len() as int) == prefix
}

/// Where a blob with the given hex digest lives under `root`.
pub open spec fn blob_path_of(root: Seq<char>, hex: Seq<char>) -> Seq<char> {
    root + "/sha256/"@ + hex.take(2) + "/"@ + hex.subrange(2, 4) + "/"@ + hex
}

impl BlobStore {
    /// A store rooted at `root`.
    pub fn new(root: &str) -> (s: Self)
        ensures
            s.root@ == root@,
    {
        BlobStore { root: String::from_str(root) }
    }

    /// The object id of some bytes: `sha256:` and the hex SHA-256 digest.
    pub fn oid_for(data: &[u8]) -> (r: String)
        ensures
            r@ == oid_of(data@),
    {
        let hex = sha256_hex(data);
        let mut r = String::new();
        push_str(&mut r, "sha256:");
        push_str(&mut r, hex.as_str());
        r
    }

    /// Where the blob with the given 64-digit hex digest lives.
    pub fn oid_to_path(&self, hex: &str) -> (r: String)
        requires
            hex@.len() >= 4,
        ensures
            r@ == blob_path_of(self.root@, hex@),
    {
        let cs = chars_of(hex);
        let first = crate::text::string_from_chars(vstd::slice::slice_subrange(cs.as_slice(), 0, 2));
        let second = crate::text::string_from_chars(vstd::slice::slice_subrange(cs.as_slice(), 2, 4));
        let mut r = String::new();
        push_str(&mut r, self.root.as_str());
        push_str(&mut r, "/sha256/");
        push_str(&mut r, first.as_str());
        push_str(&mut r, "/");
        push_str(&mut r, second.as_str());
        push_str(&mut r, "/");
        push_str(&mut r, hex);
        proof {
            assert(first@ =~= hex@.take(2));
            assert(second@ =~= hex@.subrange(2, 4));
            assert(r@ =~= blob_path_of(self.root@, hex@));
        }
        r
    }

    /// Where the blob with the given object id lives, once the id is checked.
    pub fn path_for_oid(&self, oid: &str) -> (r: KernelResult<String>)
        ensures
            match oid_hex(oid@) {
                Some(h) => r matches Ok(p) && p@ == blob_path_of(self.root@, h),
                None => r is Err,
            },
    {
        let hex = match parse_oid(oid) {
            Ok(h) => h,
            Err(e) => {
                return Err(e);
            },
        };
        Ok(self.oid_to_path(hex.as_str()))
    }
}

} // verus!
