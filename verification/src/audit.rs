//! The Merkle tree of event hashes (RFC 6962, in the tlog storage layout).
use crate::digest::sha256_digest;
use crate::hex::{hex_byte_value, hex_byte_value_exec, hex_of};
use crate::text::{push_str, push_u64};
use vstd::prelude::*;
use vstd::string::*;

verus! {

/// Errors of the audit trail.
#[derive(Debug)]
pub enum AuditError {
    /// A storage failure, with its message.
    Db(String),
    /// A failed proof computation, with its message.
    Proof(String),
    Checkpoint,
    HashNotFound(u64),
    InvalidHex(String),
    NoCheckpoint,
}

impl AuditError {
    pub open spec fn spec_message(&self) -> Seq<char> {
        match self {
            AuditError::Db(m) => "database error: "@ + m@,
            AuditError::Proof(m) => "proof error: "@ + m@,
            AuditError::Checkpoint => "malformed checkpoint"@,
            AuditError::HashNotFound(i) => "hash not found at index "@ + crate::text::decimal_chars(
                *i as nat,
            ),
            AuditError::InvalidHex(h) => "invalid hex hash: "@ + h@,
            AuditError::NoCheckpoint => "no checkpoint exists yet"@,
        }
    }

    /// The error's message.
    pub fn to_string(&self) -> (r: String)
        ensures
            r@ == self.spec_message(),
    {
        let mut s = String::new();
        match self {
            AuditError::Db(m) => {
                push_str(&mut s, "database error: ");
                push_str(&mut s, m.as_str());
            },
            AuditError::Proof(m) => {
                push_str(&mut s, "proof error: ");
                push_str(&mut s, m.as_str());
            },
            AuditError::Checkpoint => push_str(&mut s, "malformed checkpoint"),
            AuditError::HashNotFound(i) => {
                push_str(&mut s, "hash not found at index ");
                push_u64(&mut s, *i);
            },
            AuditError::InvalidHex(h) => {
                push_str(&mut s, "invalid hex hash: ");
                push_str(&mut s, h.as_str());
            },
            AuditError::NoCheckpoint => push_str(&mut s, "no checkpoint exists yet"),
        }
        proof {
            assert(s@ =~= self.spec_message());
        }
        s
    }
}

/// A signed tree head (checkpoint) of the audit tree.
#[derive(Debug, Clone)]
pub struct AuditCheckpoint {
    pub tree_size: i64,
    pub root_hash: String,
    /// C2SP tlog-checkpoint text.
    pub checkpoint_text: String,
    pub created_at: String,
}

/// `n` after `level` steps of `n -> 2n + 1`.
pub open spec fn lifted_index(level: nat, n: int) -> int
    decreases level,
{
    if level == 0 {
        n
    } else {
        lifted_index((level - 1) as nat, 2 * n + 1)
    }
}

/// `n + n/2 + n/4 + ...`, until the halving reaches zero.
pub open spec fn halving_sum(n: nat) -> nat
    decreases n,
{
    if n == 0 {
        0
    } else {
        n + halving_sum(n / 2)
    }
}

/// Where tlog stores the `n`th hash of level `level` in its dense linear
/// order: level 0's `n`th hash is at `n + n/2 + n/4 + ...`, level L's `n`th
/// hash comes right after level L+1's `(2n+1)`th, and the level is added back.
#[verifier::opaque]
pub open spec fn tlog_stored_hash_index(level: u8, n: u64) -> u64 {
    (halving_sum(lifted_index(level as nat, n as int) as nat) + level) as u64
}

/// Calls `tlog_tiles::tlog::stored_hash_index`, which computes the order
/// above with `u64` arithmetic: `level` doublings of `n` to `2n + 1`, then the
/// running sum of the halvings, plus `level`.  `requires` keeps those steps
/// inside `u64`, so the result is the order's value.
#[verifier::external_body]
fn stored_hash_index(level: u8, n: u64) -> (r: u64)
    requires
        level <= 62,
        n < (0x4000_0000_0000_0000u64 >> level),
    ensures
        r == tlog_stored_hash_index(level, n),
{
    tlog_tiles::tlog::stored_hash_index(level, n)
}

/// The hash of an interior node: SHA-256(0x01 || left || right) (RFC 6962 §2.1).
pub open spec fn node_hash_of(left: Seq<u8>, right: Seq<u8>) -> Seq<u8> {
    sha256_digest(seq![0x01u8] + left + right)
}

/// Calls `tlog_tiles::tlog::node_hash`, whose source hashes `0x01`, the left
/// hash and the right hash with SHA-256; the contract states exactly that.
#[verifier::external_body]
fn node_hash(left: &[u8], right: &[u8]) -> (r: Vec<u8>)
    requires
        left@.len() == 32,
        right@.len() == 32,
    ensures
        r@ == node_hash_of(left@, right@),
        r@.len() == 32,
{
    let mut l = [0u8; 32];
    l.copy_from_slice(left);
    let mut rr = [0u8; 32];
    rr.copy_from_slice(right);
    tlog_tiles::tlog::node_hash(tlog_tiles::tlog::Hash(l), tlog_tiles::tlog::Hash(rr)).0.to_vec()
}

/// The C2SP tlog-checkpoint note of a tree: its origin line, its size and its
/// root hash, with no extension lines.
pub uninterp spec fn c2sp_checkpoint_note(origin: Seq<char>, tree_size: u64, root: Seq<u8>) -> Seq<char>;

/// Calls `tlog_tiles::checkpoint::Checkpoint::new` with no extension and
/// encodes the checkpoint with `to_bytes`.  Its source refuses exactly an
/// empty origin when the extension is empty; the note text is named, not
/// spelled out.
#[verifier::external_body]
fn c2sp_note(origin: &str, tree_size: u64, root: &[u8]) -> (r: Option<String>)
    requires
        root@.len() == 32,
    ensures
        r is None <==> origin@.len() == 0,
        r matches Some(t) ==> t@ == c2sp_checkpoint_note(origin@, tree_size, root@),
{
    let mut b = [0u8; 32];
    b.copy_from_slice(root);
    match tlog_tiles::checkpoint::Checkpoint::new(origin, tree_size, tlog_tiles::tlog::Hash(b), "") {
        Ok(cp) => Some(String::from_utf8_lossy(&cp.to_bytes()).into_owned()),
        Err(_) => None,
    }
}

/// The checkpoint text of a tree of `tree_size` leaves whose root hash is
/// `root`, under `origin`; an empty origin makes a malformed checkpoint.
pub fn checkpoint_text(origin: &str, tree_size: u64, root: &[u8]) -> (r: Result<String, AuditError>)
    requires
        root@.len() == 32,
    ensures
        r is Err <==> origin@.len() == 0,
        r matches Err(e) ==> e == AuditError::Checkpoint,
        r matches Ok(t) ==> t@ == c2sp_checkpoint_note(origin@, tree_size, root@),
{
    match c2sp_note(origin, tree_size, root) {
        Some(t) => Ok(t),
        None => Err(AuditError::Checkpoint),
    }
}

/// The 32 bytes that 64 characters of hex text stand for, each pair read as a
/// base-16 number; `None` when the text is not 64 bytes or a pair is not a
/// number.
pub open spec fn hash_from_hex(b: Seq<u8>) -> Option<Seq<u8>> {
    if b.len() == 64 && forall|i: int| 0 <= i < 32 ==> #[trigger] hex_byte_value(b[2 * i], b[2 * i + 1]) is Some {
        Some(Seq::new(32, |i: int| hex_byte_value(b[2 * i], b[2 * i + 1])->0))
    } else {
        None
    }
}

/// Reads a 64-character hex hash (ASCII text, so that it splits into pairs).
pub fn hex_to_hash(hex: &str) -> (r: Result<Vec<u8>, AuditError>)
    requires
        vstd::string::is_ascii(hex),
    ensures
        match hash_from_hex(hex.spec_bytes()) {
            Some(h) => r matches Ok(v) && v@ == h,
            None => r matches Err(AuditError::InvalidHex(t)) && t@ == hex@,
        },
{
    let b = hex.as_bytes();
    if b.len() != 64 {
        return Err(AuditError::InvalidHex(String::from_str(hex)));
    }
    let mut out: Vec<u8> = Vec::new();
    let mut i: usize = 0;
    while i < 32
        invariant
            b@ == hex.spec_bytes(),
            b@.len() == 64,
            i <= 32,
            out@.len() == i,
            forall|k: int| 0 <= k < i ==> #[trigger] hex_byte_value(b@[2 * k], b@[2 * k + 1]) is Some
                && out@[k] == hex_byte_value(b@[2 * k], b@[2 * k + 1])->0,
        decreases 32 - i,
    {
        match hex_byte_value_exec(b[2 * i], b[2 * i + 1]) {
            Some(v) => out.push(v),
            None => {
                proof {
                    assert(hex_byte_value(b@[2 * (i as int)], b@[2 * (i as int) + 1]) is None);
                    assert(hash_from_hex(hex.spec_bytes()) is None);
                }
                return Err(AuditError::InvalidHex(String::from_str(hex)));
            },
        }
        i = i + 1;
    }
    proof {
        assert(out@ =~= Seq::new(32, |k: int| hex_byte_value(b@[2 * k], b@[2 * k + 1])->0));
    }
    Ok(out)
}

/// The hex text of a 32-byte hash reads back as that hash.
pub proof fn lemma_hash_hex_roundtrip(bs: Seq<u8>)
    requires
        bs.len() == 32,
    ensures
        vstd::utf8::is_ascii_chars(hex_of(bs)),
        hash_from_hex(vstd::utf8::encode_utf8(hex_of(bs))) == Some(bs),
{
    let h = hex_of(bs);
    crate::hex::lemma_hex_of_ascii(bs);
    crate::hex::lemma_hex_of_len(bs);
    vstd::utf8::is_ascii_chars_encode_utf8(h);
    let b = vstd::utf8::encode_utf8(h);
    assert forall|i: int| 0 <= i < 32 implies #[trigger] hex_byte_value(b[2 * i], b[2 * i + 1])
        == Some(bs[i]) by {
        crate::hex::lemma_hex_of_index(bs, i);
        assert(h[2 * i] as u8 == b[2 * i]);
        assert(h[2 * i + 1] as u8 == b[2 * i + 1]);
        crate::hex::lemma_hex_value_of_char((bs[i] / 16) as int);
        crate::hex::lemma_hex_value_of_char((bs[i] % 16) as int);
        assert((bs[i] / 16) * 16 + bs[i] % 16 == bs[i]);
    }
    assert(Seq::new(32, |i: int| hex_byte_value(b[2 * i], b[2 * i + 1])->0) =~= bs);
}

/// The stored hashes, as (index, hash) pairs.
pub type StoredHashes = Seq<(u64, Seq<u8>)>;

/// Whether a hash is stored at the index.
pub open spec fn has_index(s: StoredHashes, k: u64) -> bool {
    exists|i: int| 0 <= i < s.len() && (#[trigger] s[i]).0 == k
}

/// The hash stored at the index (meaningful when there is one).
pub open spec fn stored_at(s: StoredHashes, k: u64) -> Seq<u8> {
    s[choose|i: int| 0 <= i < s.len() && (#[trigger] s[i]).0 == k].1
}

/// Indices are distinct and every hash is 32 bytes.
pub open spec fn stored_wf(s: StoredHashes) -> bool {
    &&& forall|i: int, j: int|
        0 <= i < s.len() && 0 <= j < s.len() && i != j ==> (#[trigger] s[i]).0 != (#[trigger] s[j]).0
    &&& forall|i: int| 0 <= i < s.len() ==> (#[trigger] s[i]).1.len() == 32
}

/// Stores `h` at index `k`, replacing what was there.
pub open spec fn store_one(s: StoredHashes, k: u64, h: Seq<u8>) -> StoredHashes {
    if has_index(s, k) {
        s.update(choose|i: int| 0 <= i < s.len() && (#[trigger] s[i]).0 == k, (k, h))
    } else {
        s.push((k, h))
    }
}

/// Stores every entry of a plan, in order.
pub open spec fn store_all(s: StoredHashes, plan: Seq<(u64, Seq<u8>)>) -> StoredHashes
    decreases plan.len(),
{
    if plan.len() == 0 {
        s
    } else {
        store_one(store_all(s, plan.drop_last()), plan.last().0, plan.last().1)
    }
}

/// The parent hashes that appending leaf `n` makes computable, from level
/// `level` up, starting from the hash `current` at that level: while `n`'s
/// bit at the level is set, the node is a right child and its parent is the
/// hash of the stored left sibling and `current`.  `Err(k)` when the left
/// sibling at stored index `k` is missing.
pub open spec fn walk_up(s: StoredHashes, n: u64, level: u8, current: Seq<u8>) -> Result<
    Seq<(u64, Seq<u8>)>,
    u64,
>
    decreases 64 - level,
{
    if level < 62 && (n >> level) & 1 == 1 {
        let at = n >> level;
        let left_idx = tlog_stored_hash_index(level, (at - 1) as u64);
        if !has_index(s, left_idx) {
            Err(left_idx)
        } else {
            let parent = node_hash_of(stored_at(s, left_idx), current);
            let parent_idx = tlog_stored_hash_index((level + 1) as u8, at >> 1u64);
            match walk_up(s, n, (level + 1) as u8, parent) {
                Ok(rest) => Ok(seq![(parent_idx, parent)] + rest),
                Err(k) => Err(k),
            }
        }
    } else {
        Ok(Seq::empty())
    }
}

/// Whether the tree holds every hash that appending leaf `n` needs (which
/// hashes are needed depends on `n` alone, not on the leaf).
pub open spec fn tree_has_room(s: StoredHashes, n: u64) -> bool {
    walk_up(s, n, 0, Seq::empty()) is Ok
}

/// Whether walking up succeeds does not depend on the hash walked up.
pub proof fn lemma_walk_up_any_leaf(s: StoredHashes, n: u64, level: u8, a: Seq<u8>, b: Seq<u8>)
    ensures
        walk_up(s, n, level, a) is Ok <==> walk_up(s, n, level, b) is Ok,
    decreases 64 - level,
{
    if level < 62 && (n >> level) & 1 == 1 {
        let at = n >> level;
        let left_idx = tlog_stored_hash_index(level, (at - 1) as u64);
        if has_index(s, left_idx) {
            lemma_walk_up_any_leaf(
                s,
                n,
                (level + 1) as u8,
                node_hash_of(stored_at(s, left_idx), a),
                node_hash_of(stored_at(s, left_idx), b),
            );
        }
    }
}

/// The RFC 6962 hash of the complete subtree of `2^level` leaves whose
/// position at its level is `k`, over the leaf hashes `leaves`.
pub open spec fn subtree_hash(leaves: Seq<Seq<u8>>, level: nat, k: int) -> Seq<u8>
    decreases level,
{
    if level == 0 {
        leaves[k]
    } else {
        node_hash_of(
            subtree_hash(leaves, (level - 1) as nat, 2 * k),
            subtree_hash(leaves, (level - 1) as nat, 2 * k + 1),
        )
    }
}

/// Whether the stored hashes hold every complete subtree of the leaves: the
/// node at level `level`, position `k`, whose last leaf
/// (`lifted_index(level, k)`) is among the leaves, is stored at its tlog
/// index with its RFC 6962 hash.
pub open spec fn tree_complete(s: StoredHashes, leaves: Seq<Seq<u8>>) -> bool {
    forall|level: nat, k: int|
        level <= 62 && 0 <= k && lifted_index(level, k) < leaves.len() ==> #[trigger] node_stored(
            s,
            leaves,
            level,
            k,
        )
}

/// Whether the node at level `level`, position `k`, is stored at its tlog
/// index with the RFC 6962 hash of its leaves.
pub open spec fn node_stored(s: StoredHashes, leaves: Seq<Seq<u8>>, level: nat, k: int) -> bool {
    &&& has_index(s, tlog_stored_hash_index(level as u8, k as u64))
    &&& stored_at(s, tlog_stored_hash_index(level as u8, k as u64)) == subtree_hash(leaves, level, k)
}

/// Whether the lowest `j` bits of `n` are all set.
pub open spec fn ones_below(n: u64, j: u8) -> bool
    decreases j,
{
    j == 0 || (ones_below(n, (j - 1) as u8) && (n >> ((j - 1) as u8)) & 1 == 1)
}

/// Shifting right by one more bit halves; an odd number is twice its half
/// plus one.
proof fn lemma_shift_step(n: u64, j: u8)
    requires
        j < 63,
    ensures
        (n >> j) >> 1u64 == n >> ((j + 1) as u8),
        2 * ((n >> j) >> 1u64) <= n >> j <= 2 * ((n >> j) >> 1u64) + 1,
        (n >> j) & 1 == 1 ==> 2 * ((n >> j) >> 1u64) + 1 == n >> j,
        (n >> j) & 1 != 1 ==> 2 * ((n >> j) >> 1u64) == n >> j,
{
    let a = n >> j;
    assert((n >> j) >> 1u64 == n >> ((j + 1) as u8)) by (bit_vector)
        requires
            j < 63,
    ;
    assert(2 * (a >> 1u64) <= a <= 2 * (a >> 1u64) + 1) by (bit_vector);
    assert(a & 1 == 1 ==> 2 * (a >> 1u64) + 1 == a) by (bit_vector);
    assert(a & 1 != 1 ==> 2 * (a >> 1u64) == a) by (bit_vector);
}

/// A node's last leaf grows with its position, and is at least the
/// position.
proof fn lemma_lifted_monotonic(level: nat, a: int, b: int)
    requires
        0 <= a < b,
    ensures
        lifted_index(level, a) < lifted_index(level, b),
        a <= lifted_index(level, a),
    decreases level,
{
    if level > 0 {
        lemma_lifted_monotonic((level - 1) as nat, 2 * a + 1, 2 * b + 1);
    }
}

/// The node at level `j` that holds leaf `n` is `n >> j`, and its last leaf
/// is at least `n`; it is `n` exactly when the lowest `j` bits of `n` are set.
proof fn lemma_last_leaf(n: u64, j: u8)
    requires
        j <= 62,
    ensures
        lifted_index(j as nat, (n >> j) as int) >= n,
        lifted_index(j as nat, (n >> j) as int) == n <==> ones_below(n, j),
    decreases j,
{
    if j == 0 {
        assert(n >> 0u8 == n) by (bit_vector);
    } else {
        let i = (j - 1) as u8;
        lemma_last_leaf(n, i);
        lemma_shift_step(n, i);
        let y = n >> i;
        let x = n >> j;
        assert(lifted_index(j as nat, x as int) == lifted_index(i as nat, 2 * x + 1));
        if y & 1 == 1 {
            assert(2 * x + 1 == y);
        } else {
            assert(2 * x == y);
            lemma_lifted_monotonic(i as nat, 2 * x, 2 * x + 1);
        }
    }
}

/// A complete subtree that ends before leaf `n` has the same hash once leaf
/// `n` is appended.
proof fn lemma_subtree_extend(leaves: Seq<Seq<u8>>, leaf: Seq<u8>, level: nat, k: int)
    requires
        0 <= k,
        lifted_index(level, k) < leaves.len(),
    ensures
        subtree_hash(leaves.push(leaf), level, k) == subtree_hash(leaves, level, k),
    decreases level,
{
    if level == 0 {
        assert(leaves.push(leaf)[k] == leaves[k]);
    } else {
        let l = (level - 1) as nat;
        lemma_lifted_monotonic(l, 2 * k, 2 * k + 1);
        lemma_subtree_extend(leaves, leaf, l, 2 * k);
        lemma_subtree_extend(leaves, leaf, l, 2 * k + 1);
    }
}

/// Whether no index is stored twice.
pub open spec fn keys_unique(s: StoredHashes) -> bool {
    forall|i: int, j: int| 0 <= i < s.len() && 0 <= j < s.len() && i != j ==> (#[trigger] s[i]).0 != (#[trigger] s[j]).0
}

/// Storing a hash at an index makes it the one read there, and leaves what
/// is read at every other index as it was.
proof fn lemma_store_one(s: StoredHashes, k: u64, h: Seq<u8>)
    requires
        keys_unique(s),
    ensures
        keys_unique(store_one(s, k, h)),
        has_index(store_one(s, k, h), k),
        stored_at(store_one(s, k, h), k) == h,
        forall|k2: u64| k2 != k ==> (#[trigger] has_index(store_one(s, k, h), k2) <==> has_index(s, k2)),
        forall|k2: u64|
            k2 != k && has_index(s, k2) ==> #[trigger] stored_at(store_one(s, k, h), k2) == stored_at(s, k2),
{
    let r = store_one(s, k, h);
    if has_index(s, k) {
        let p = choose|i: int| 0 <= i < s.len() && (#[trigger] s[i]).0 == k;
        assert(r == s.update(p, (k, h)));
        assert(r[p].0 == k);
        assert forall|k2: u64| k2 != k implies (#[trigger] has_index(r, k2) <==> has_index(s, k2)) && (has_index(s, k2)
            ==> stored_at(r, k2) == stored_at(s, k2)) by {
            if has_index(s, k2) {
                let q = choose|i: int| 0 <= i < s.len() && (#[trigger] s[i]).0 == k2;
                assert(r[q] == s[q]);
                let q2 = choose|i: int| 0 <= i < r.len() && (#[trigger] r[i]).0 == k2;
                assert(q2 != p);
                assert(r[q2] == s[q2]);
            }
            if has_index(r, k2) {
                let q2 = choose|i: int| 0 <= i < r.len() && (#[trigger] r[i]).0 == k2;
                assert(r[q2] == s[q2]);
            }
        }
        let c = choose|i: int| 0 <= i < r.len() && (#[trigger] r[i]).0 == k;
        assert(c == p);
    } else {
        assert(r == s.push((k, h)));
        assert(r[s.len() as int].0 == k);
        assert forall|k2: u64| k2 != k implies (#[trigger] has_index(r, k2) <==> has_index(s, k2)) && (has_index(s, k2)
            ==> stored_at(r, k2) == stored_at(s, k2)) by {
            if has_index(s, k2) {
                let q = choose|i: int| 0 <= i < s.len() && (#[trigger] s[i]).0 == k2;
                assert(r[q] == s[q]);
                let q2 = choose|i: int| 0 <= i < r.len() && (#[trigger] r[i]).0 == k2;
                assert(r[q2] == s[q2]);
            }
            if has_index(r, k2) {
                let q2 = choose|i: int| 0 <= i < r.len() && (#[trigger] r[i]).0 == k2;
                assert(r[q2] == s[q2]);
            }
        }
        let c = choose|i: int| 0 <= i < r.len() && (#[trigger] r[i]).0 == k;
        assert(c == s.len());
    }
    assert forall|k2: u64| k2 != k && has_index(s, k2) implies #[trigger] stored_at(r, k2) == stored_at(s, k2) by {
        assert(has_index(r, k2) == has_index(s, k2));
    }
}

/// Storing a plan whose indexes are distinct leaves every planned hash
/// readable at its index.
proof fn lemma_store_all(s: StoredHashes, plan: Seq<(u64, Seq<u8>)>)
    requires
        keys_unique(s),
        keys_unique(plan),
    ensures
        keys_unique(store_all(s, plan)),
        forall|j: int|
            0 <= j < plan.len() ==> has_index(store_all(s, plan), (#[trigger] plan[j]).0) && stored_at(
                store_all(s, plan),
                plan[j].0,
            ) == plan[j].1,
        forall|k2: u64|
            (forall|j: int| 0 <= j < plan.len() ==> plan[j].0 != k2) && has_index(s, k2) ==> #[trigger] has_index(
                store_all(s, plan),
                k2,
            ),
        forall|k2: u64|
            (forall|j: int| 0 <= j < plan.len() ==> plan[j].0 != k2) && has_index(s, k2) ==> #[trigger] stored_at(
                store_all(s, plan),
                k2,
            ) == stored_at(s, k2),
    decreases plan.len(),
{
    if plan.len() > 0 {
        let init = plan.drop_last();
        assert forall|a: int, b: int| 0 <= a < init.len() && 0 <= b < init.len() && a != b implies (#[trigger] init[a]).0
            != (#[trigger] init[b]).0 by {
            assert(init[a] == plan[a] && init[b] == plan[b]);
        }
        lemma_store_all(s, init);
        let t = store_all(s, init);
        lemma_store_one(t, plan.last().0, plan.last().1);
        assert forall|j: int|
            0 <= j < plan.len() implies has_index(store_all(s, plan), (#[trigger] plan[j]).0) && stored_at(
                store_all(s, plan),
                plan[j].0,
            ) == plan[j].1 by {
            if j < plan.len() - 1 {
                assert(init[j] == plan[j]);
                assert(plan[j].0 != plan[plan.len() - 1].0);
            }
        }
        assert forall|k2: u64|
            (forall|j: int| 0 <= j < plan.len() ==> plan[j].0 != k2) && has_index(s, k2) implies has_index(
                store_all(s, plan),
                k2,
            ) && stored_at(store_all(s, plan), k2) == stored_at(s, k2) by {
            assert forall|j: int| 0 <= j < init.len() implies init[j].0 != k2 by {
                assert(init[j] == plan[j]);
            }
            assert(plan[plan.len() - 1].0 != k2);
            assert(has_index(t, k2));
            assert(stored_at(t, k2) == stored_at(s, k2));
            assert(has_index(store_one(t, plan.last().0, plan.last().1), k2));
            assert(stored_at(store_one(t, plan.last().0, plan.last().1), k2) == stored_at(t, k2));
        }
    }
}

/// The running sum of halvings is at most twice the number.
proof fn lemma_halving_sum_bound(n: nat)
    ensures
        halving_sum(n) <= 2 * n,
    decreases n,
{
    if n > 0 {
        lemma_halving_sum_bound(n / 2);
    }
}

/// The stored entry of the node at level `level` that holds leaf `n`: its
/// tlog index and the RFC 6962 hash of its leaves.
pub open spec fn node_entry(full: Seq<Seq<u8>>, n: u64, level: int) -> (u64, Seq<u8>) {
    (
        tlog_stored_hash_index(level as u8, n >> (level as u8)),
        subtree_hash(full, level as nat, (n >> (level as u8)) as int),
    )
}

/// Whether `e` is the entry of a node of level 1 to 62 whose last leaf is
/// leaf `n`.
pub open spec fn completed_node(full: Seq<Seq<u8>>, n: u64, level: int, e: (u64, Seq<u8>)) -> bool {
    &&& 1 <= level <= 62
    &&& lifted_index(level as nat, (n >> (level as u8)) as int) == n
    &&& e == node_entry(full, n, level)
}

/// Whether `e` is the entry of the node at level `level` that holds leaf
/// `n`, with the lowest `level` bits of `n` set.
spec fn ones_entry(full: Seq<Seq<u8>>, n: u64, level: int, e: (u64, Seq<u8>)) -> bool {
    &&& 1 <= level <= 62
    &&& ones_below(n, level as u8)
    &&& e == node_entry(full, n, level)
}

/// Walking up from level `level`, where the node holding leaf `n` ends at
/// leaf `n` and `current` is its hash, gives the parents of every higher
/// level whose node also ends at leaf `n`, each with its RFC 6962 hash and at
/// its tlog index, and stops at the first level whose node does not.
proof fn lemma_walk_up_completed(
    s: StoredHashes,
    leaves: Seq<Seq<u8>>,
    leaf: Seq<u8>,
    level: u8,
    current: Seq<u8>,
)
    requires
        tree_complete(s, leaves),
        leaves.len() < 0x4000_0000_0000_0000,
        level <= 62,
        ones_below(leaves.len() as u64, level),
        current == subtree_hash(leaves.push(leaf), level as nat, ((leaves.len() as u64) >> level) as int),
    ensures
        walk_up(s, leaves.len() as u64, level, current) is Ok,
        ({
            let rest = walk_up(s, leaves.len() as u64, level, current)->Ok_0;
            let n = leaves.len() as u64;
            &&& level + rest.len() <= 62
            &&& forall|i: int|
                0 <= i < rest.len() ==> ones_entry(leaves.push(leaf), n, level + i + 1, #[trigger] rest[i])
            &&& !(level + rest.len() < 62 && (n >> ((level + rest.len()) as u8)) & 1 == 1)
        }),
    decreases 62 - level,
{
    let n = leaves.len() as u64;
    let full = leaves.push(leaf);
    if level < 62 && (n >> level) & 1 == 1 {
        let at = n >> level;
        lemma_shift_step(n, level);
        lemma_last_leaf(n, level);
        assert(at >= 1);
        lemma_lifted_monotonic(level as nat, (at - 1) as int, at as int);
        let left_idx = tlog_stored_hash_index(level, (at - 1) as u64);
        assert(node_stored(s, leaves, level as nat, (at - 1) as int));
        assert(has_index(s, left_idx));
        lemma_subtree_extend(leaves, leaf, level as nat, (at - 1) as int);
        let parent = node_hash_of(stored_at(s, left_idx), current);
        let next = (level + 1) as u8;
        assert(n >> next == at >> 1u64);
        assert(2 * (at >> 1u64) == at - 1);
        assert(parent == subtree_hash(full, next as nat, (n >> next) as int));
        assert(ones_below(n, next));
        lemma_walk_up_completed(s, leaves, leaf, next, parent);
        let rest1 = walk_up(s, n, next, parent)->Ok_0;
        let parent_idx = tlog_stored_hash_index(next, at >> 1u64);
        let rest = seq![(parent_idx, parent)] + rest1;
        assert(walk_up(s, n, level, current) == Ok::<Seq<(u64, Seq<u8>)>, u64>(rest));
        assert forall|i: int| 0 <= i < rest.len() implies ones_entry(full, n, level + i + 1, #[trigger] rest[i]) by {
            if i > 0 {
                assert(rest[i] == rest1[i - 1]);
                assert(next + (i - 1) + 1 == level + i + 1);
            } else {
                assert((level + i + 1) as u8 == next);
            }
        }
        assert(rest.len() == rest1.len() + 1);
        assert(next + rest1.len() == level + rest.len());
        assert(walk_up(s, n, level, current)->Ok_0 == rest);
    } else {
        assert(walk_up(s, n, level, current) == Ok::<Seq<(u64, Seq<u8>)>, u64>(Seq::empty()));
    }
}

/// What appending leaf `n` to a tree that holds every complete subtree of
/// its `n` leaves stores besides the leaf: exactly the nodes that leaf `n`
/// completes (those whose last leaf is leaf `n`), from level 1 up, each at its
/// tlog index with the RFC 6962 hash of its leaves.  After four leaves, for
/// instance, the level-2 root of all four is among them.
pub proof fn law_append_stores_completed_nodes(s: StoredHashes, leaves: Seq<Seq<u8>>, leaf: Seq<u8>)
    requires
        stored_wf(s),
        tree_complete(s, leaves),
        leaves.len() < 0x4000_0000_0000_0000,
    ensures
        walk_up(s, leaves.len() as u64, 0, leaf) is Ok,
        ({
            let parents = walk_up(s, leaves.len() as u64, 0, leaf)->Ok_0;
            let n = leaves.len() as u64;
            let full = leaves.push(leaf);
            &&& forall|i: int| 0 <= i < parents.len() ==> completed_node(full, n, i + 1, #[trigger] parents[i])
            &&& forall|l: u8|
                1 <= l <= 62 && #[trigger] lifted_index(l as nat, (n >> l) as int) == n ==> l <= parents.len()
        }),
        ({
            let n = leaves.len() as u64;
            let parents = walk_up(s, n, 0, leaf)->Ok_0;
            let t = store_all(s, seq![(tlog_stored_hash_index(0, n), leaf)] + parents);
            &&& has_index(t, tlog_stored_hash_index(0, n))
            &&& stored_at(t, tlog_stored_hash_index(0, n)) == leaf
            &&& forall|i: int|
                0 <= i < parents.len() ==> has_index(t, (#[trigger] parents[i]).0) && stored_at(t, parents[i].0)
                    == parents[i].1
        }),
{
    let n = leaves.len() as u64;
    let full = leaves.push(leaf);
    assert(n >> 0u8 == n) by (bit_vector);
    assert(full[n as int] == leaf);
    lemma_walk_up_completed(s, leaves, leaf, 0, leaf);
    let parents = walk_up(s, n, 0, leaf)->Ok_0;
    assert forall|i: int| 0 <= i < parents.len() implies completed_node(full, n, i + 1, #[trigger] parents[i]) by {
        assert(ones_entry(full, n, 0 + i + 1, parents[i]));
        assert(0 + i + 1 == i + 1);
        lemma_last_leaf(n, (i + 1) as u8);
    }
    assert forall|l: u8|
        1 <= l <= 62 && #[trigger] lifted_index(l as nat, (n >> l) as int) == n implies l <= parents.len() by {
        lemma_last_leaf(n, l);
        if l > parents.len() {
            lemma_ones_below_prefix(n, l, parents.len() as u8);
            assert(0 + parents.len() == parents.len());
        }
    }
    let plan = seq![(tlog_stored_hash_index(0, n), leaf)] + parents;
    lemma_halving_sum_bound(n as nat);
    let h = halving_sum(n as nat);
    assert forall|j: int| 0 <= j < plan.len() implies (#[trigger] plan[j]).0 == (h + j) as u64 by {
        reveal(tlog_stored_hash_index);
        if j == 0 {
            assert(lifted_index(0, n as int) == n);
        } else {
            assert(plan[j] == parents[j - 1]);
            assert(completed_node(full, n, j, parents[j - 1]));
        }
    }
    assert(keys_unique(plan)) by {
        assert forall|a: int, b: int| 0 <= a < plan.len() && 0 <= b < plan.len() && a != b implies (#[trigger] plan[a]).0
            != (#[trigger] plan[b]).0 by {
            assert(plan[a].0 == (h + a) as u64);
            assert(plan[b].0 == (h + b) as u64);
        }
    }
    lemma_store_all(s, plan);
    assert(plan[0] == (tlog_stored_hash_index(0, n), leaf));
    assert forall|i: int|
        0 <= i < parents.len() implies has_index(store_all(s, plan), (#[trigger] parents[i]).0) && stored_at(
            store_all(s, plan),
            parents[i].0,
        ) == parents[i].1 by {
        assert(plan[i + 1] == parents[i]);
    }
}

/// If the lowest `j` bits are set, so are the lowest `m` for every `m <= j`:
/// in particular bit `m` is set when `m < j`.
proof fn lemma_ones_below_prefix(n: u64, j: u8, m: u8)
    requires
        ones_below(n, j),
        m < j,
    ensures
        (n >> m) & 1 == 1,
    decreases j,
{
    if m < j - 1 {
        lemma_ones_below_prefix(n, (j - 1) as u8, m);
    }
}

/// The number of trailing one bits of a number.
spec fn trailing_ones(x: nat) -> nat
    decreases x,
{
    if x % 2 == 1 {
        1 + trailing_ones(x / 2)
    } else {
        0
    }
}

/// Leaf `x + 1` is stored right after leaf `x` and the nodes it completes.
proof fn lemma_halving_sum_step(x: nat)
    ensures
        halving_sum(x + 1) == halving_sum(x) + trailing_ones(x) + 1,
    decreases x,
{
    assert(halving_sum(x + 1) == x + 1 + halving_sum(((x + 1) / 2) as nat));
    if x % 2 == 1 {
        assert((x + 1) / 2 == x / 2 + 1);
        lemma_halving_sum_step(x / 2);
    } else {
        assert((x + 1) / 2 == x / 2);
    }
}

/// What leaf `m` and its completed nodes occupy lies below leaf `n`'s
/// position when `m < n`.
proof fn lemma_halving_sum_grows(m: nat, n: nat)
    requires
        m < n,
    ensures
        halving_sum(m) + trailing_ones(m) < halving_sum(n),
    decreases n - m,
{
    lemma_halving_sum_step(m);
    if m + 1 < n {
        lemma_halving_sum_grows(m + 1, n);
    }
}

/// A node's last leaf is twice its left child's last leaf, plus one.
proof fn lemma_lifted_double(level: nat, k: int)
    requires
        level >= 1,
    ensures
        lifted_index(level, k) == 2 * lifted_index((level - 1) as nat, k) + 1,
    decreases level,
{
    let l = (level - 1) as nat;
    assert(lifted_index(level, k) == lifted_index(l, 2 * k + 1));
    if level > 1 {
        let l2 = (l - 1) as nat;
        lemma_lifted_double(l, 2 * k + 1);
        assert(lifted_index(l, k) == lifted_index(l2, 2 * k + 1));
    } else {
        assert(lifted_index(0, 2 * k + 1) == 2 * k + 1);
        assert(lifted_index(0, k) == k);
    }
}

/// The last leaf of a node of level `level` ends in at least `level` one
/// bits.
proof fn lemma_lifted_trailing(level: nat, k: int)
    requires
        k >= 0,
    ensures
        trailing_ones(lifted_index(level, k) as nat) >= level,
    decreases level,
{
    if level > 0 {
        let l = (level - 1) as nat;
        lemma_lifted_double(level, k);
        lemma_lifted_trailing(l, k);
        lemma_lifted_monotonic(l, k, k + 1);
        let y = lifted_index(l, k);
        let x = (2 * y + 1) as nat;
        assert(x % 2 == 1 && x / 2 == y);
    }
}

/// The node before the one holding leaf `n` ends before leaf `n`.
proof fn lemma_previous_node_ends_before(n: u64, j: u8)
    requires
        j <= 62,
        n >> j >= 1,
    ensures
        lifted_index(j as nat, (n >> j) - 1) < n,
    decreases j,
{
    if j == 0 {
        assert(n >> 0u8 == n) by (bit_vector);
    } else {
        let i = (j - 1) as u8;
        lemma_shift_step(n, i);
        let x = n >> j;
        let y = n >> i;
        assert(lifted_index(j as nat, x - 1) == lifted_index(i as nat, 2 * (x - 1) + 1));
        lemma_previous_node_ends_before(n, i);
        if 2 * (x - 1) + 1 < y - 1 {
            lemma_lifted_monotonic(i as nat, 2 * (x - 1) + 1, y - 1);
        }
    }
}

/// An empty tree holds every complete subtree of no leaves.
pub proof fn law_empty_tree_complete()
    ensures
        tree_complete(Seq::<(u64, Seq<u8>)>::empty(), Seq::<Seq<u8>>::empty()),
{
    assert forall|level: nat, k: int|
        level <= 62 && 0 <= k && lifted_index(level, k) < 0 implies #[trigger] node_stored(
            Seq::<(u64, Seq<u8>)>::empty(),
            Seq::<Seq<u8>>::empty(),
            level,
            k,
        ) by {
        lemma_lifted_monotonic(level, k, k + 1);
    }
}

/// Appending a leaf keeps the tree complete: if the stored hashes hold
/// every complete subtree of the first `n` leaves at its tlog index with its
/// RFC 6962 hash, then after storing leaf `n` and the parents it completes
/// they hold every complete subtree of the `n + 1` leaves, the older nodes
/// untouched.  Starting from an empty tree, every complete subtree of the
/// leaves appended so far is therefore stored.
pub proof fn law_append_keeps_tree_complete(s: StoredHashes, leaves: Seq<Seq<u8>>, leaf: Seq<u8>)
    requires
        stored_wf(s),
        tree_complete(s, leaves),
        leaves.len() < 0x4000_0000_0000_0000,
    ensures
        walk_up(s, leaves.len() as u64, 0, leaf) is Ok,
        tree_complete(
            store_all(
                s,
                seq![(tlog_stored_hash_index(0, leaves.len() as u64), leaf)] + walk_up(
                    s,
                    leaves.len() as u64,
                    0,
                    leaf,
                )->Ok_0,
            ),
            leaves.push(leaf),
        ),
{
    let n = leaves.len() as u64;
    let full = leaves.push(leaf);
    law_append_stores_completed_nodes(s, leaves, leaf);
    let parents = walk_up(s, n, 0, leaf)->Ok_0;
    let plan = seq![(tlog_stored_hash_index(0, n), leaf)] + parents;
    let t = store_all(s, plan);
    lemma_halving_sum_bound(n as nat);
    let h = halving_sum(n as nat);
    assert forall|j: int| 0 <= j < plan.len() implies (#[trigger] plan[j]).0 == (h + j) as u64 by {
        reveal(tlog_stored_hash_index);
        if j == 0 {
            assert(lifted_index(0, n as int) == n);
        } else {
            assert(plan[j] == parents[j - 1]);
            assert(completed_node(full, n, j, parents[j - 1]));
        }
    }
    assert(keys_unique(plan)) by {
        assert forall|a: int, b: int| 0 <= a < plan.len() && 0 <= b < plan.len() && a != b implies (#[trigger] plan[a]).0
            != (#[trigger] plan[b]).0 by {
            assert(plan[a].0 == (h + a) as u64);
            assert(plan[b].0 == (h + b) as u64);
        }
    }
    lemma_store_all(s, plan);
    assert forall|level: nat, k: int|
        level <= 62 && 0 <= k && lifted_index(level, k) < full.len() implies #[trigger] node_stored(t, full, level, k) by {
        let m = lifted_index(level, k);
        lemma_lifted_monotonic(level, k, k + 1);
        let key = tlog_stored_hash_index(level as u8, k as u64);
        if m < n {
            assert(node_stored(s, leaves, level, k));
            lemma_subtree_extend(leaves, leaf, level, k);
            lemma_lifted_trailing(level, k);
            lemma_halving_sum_grows(m as nat, n as nat);
            assert(key == (halving_sum(m as nat) + level) as u64) by {
                reveal(tlog_stored_hash_index);
                assert((level as u8) as nat == level);
                assert((k as u64) as int == k);
            }
            assert forall|j: int| 0 <= j < plan.len() implies plan[j].0 != key by {
                assert(plan[j].0 == (h + j) as u64);
            }
            assert(stored_at(t, key) == stored_at(s, key));
            assert(has_index(t, key));
        } else {
            let l = level as u8;
            assert(l as nat == level);
            let x = n >> l;
            lemma_last_leaf(n, l);
            if x >= 1 {
                lemma_previous_node_ends_before(n, l);
                if k < x - 1 {
                    lemma_lifted_monotonic(level, k, x - 1);
                }
            }
            if k > x {
                lemma_lifted_monotonic(level, x as int, k);
            }
            assert(k == x);
            assert(lifted_index(l as nat, (n >> l) as int) == n);
            if level == 0 {
                assert(n >> 0u8 == n) by (bit_vector);
                assert(plan[0] == (tlog_stored_hash_index(0, n), leaf));
                assert(full[n as int] == leaf);
            } else {
                assert(l <= parents.len());
                let e = parents[level - 1];
                assert(completed_node(full, n, (level - 1) + 1, e));
                assert(plan[level as int] == e);
            }
        }
    }
}

/// The audit tree's stored hashes and checkpoints.
#[derive(Debug)]
pub struct AuditLog {
    hashes: Vec<(u64, Vec<u8>)>,
    checkpoints: Vec<AuditCheckpoint>,
    origin: String,
}

impl View for AuditLog {
    type V = StoredHashes;

    closed spec fn view(&self) -> StoredHashes {
        self.hashes@.map_values(|p: (u64, Vec<u8>)| (p.0, p.1@))
    }
}

impl AuditLog {
    pub open spec fn wf(&self) -> bool {
        stored_wf(self@)
    }

    pub closed spec fn spec_origin(&self) -> Seq<char> {
        self.origin@
    }

    /// An empty tree for the given checkpoint origin.
    pub fn new(origin: &str) -> (l: Self)
        ensures
            l.wf(),
            l@ == Seq::<(u64, Seq<u8>)>::empty(),
            l.spec_origin() == origin@,
            l.checkpoints_view().len() == 0,
    {
        let l = AuditLog { hashes: Vec::new(), checkpoints: Vec::new(), origin: String::from_str(origin) };
        assert(l@ =~= Seq::<(u64, Seq<u8>)>::empty());
        l
    }

    /// The checkpoint origin line.
    pub fn origin(&self) -> (r: &str)
        ensures
            r@ == self.spec_origin(),
    {
        self.origin.as_str()
    }

    /// All stored (index, hash) pairs.
    pub fn stored_hashes(&self) -> (r: &Vec<(u64, Vec<u8>)>)
        ensures
            r@.map_values(|p: (u64, Vec<u8>)| (p.0, p.1@)) == self@,
    {
        &self.hashes
    }

    fn position(&self, k: u64) -> (r: Option<usize>)
        requires
            self.wf(),
        ensures
            r is None <==> !has_index(self@, k),
            r matches Some(i) ==> i < self@.len() && self@[i as int].0 == k && (choose|j: int|
                0 <= j < self@.len() && (#[trigger] self@[j]).0 == k) == i,
    {
        let mut i: usize = 0;
        while i < self.hashes.len()
            invariant
                i <= self.hashes.len(),
                self.wf(),
                forall|j: int| 0 <= j < i ==> (#[trigger] self@[j]).0 != k,
            decreases self.hashes.len() - i,
        {
            if self.hashes[i].0 == k {
                proof {
                    assert(self@[i as int].0 == k);
                    assert(has_index(self@, k));
                    let c = choose|j: int| 0 <= j < self@.len() && (#[trigger] self@[j]).0 == k;
                    assert(self@[c].0 == k);
                }
                return Some(i);
            }
            i = i + 1;
        }
        proof {
            if has_index(self@, k) {
                let c = choose|j: int| 0 <= j < self@.len() && (#[trigger] self@[j]).0 == k;
                assert(self@[c].0 == k);
            }
        }
        None
    }

    fn put(&mut self, k: u64, h: Vec<u8>)
        requires
            old(self).wf(),
            h@.len() == 32,
        ensures
            final(self).wf(),
            final(self)@ == store_one(old(self)@, k, h@),
            final(self).spec_origin() == old(self).spec_origin(),
    {
        let ghost before = self@;
        let ghost hv = h@;
        match self.position(k) {
            Some(i) => {
                self.hashes.set(i, (k, h));
                proof {
                    assert(self@ =~= before.update(i as int, (k, hv)));
                }
            },
            None => {
                self.hashes.push((k, h));
                proof {
                    assert(self@ =~= before.push((k, hv)));
                }
            },
        }
        proof {
            assert forall|a: int, b: int|
                0 <= a < self@.len() && 0 <= b < self@.len() && a != b implies (
                #[trigger] self@[a]).0 != (#[trigger] self@[b]).0 by {
                if a < before.len() && b < before.len() {
                } else if a < before.len() {
                    assert(self@[b].0 == k);
                    if before[a].0 == k {
                        assert(has_index(before, k));
                    }
                } else {
                    assert(self@[a].0 == k);
                    if before[b].0 == k {
                        assert(has_index(before, k));
                    }
                }
            }
        }
    }

    fn read_hash(&self, k: u64) -> (r: Result<Vec<u8>, AuditError>)
        requires
            self.wf(),
        ensures
            has_index(self@, k) ==> (r matches Ok(h) && h@ == stored_at(self@, k) && h@.len() == 32),
            !has_index(self@, k) ==> (r matches Err(AuditError::HashNotFound(j)) && j == k),
    {
        match self.position(k) {
            Some(i) => Ok(self.hashes[i].1.clone()),
            None => Err(AuditError::HashNotFound(k)),
        }
    }

    /// Appends the leaf hash of event `log_index` and stores every parent
    /// hash that it completes.
    pub fn append_leaf(&mut self, log_index: u64, leaf_hash_hex: &str) -> (r: Result<(), AuditError>)
        requires
            old(self).wf(),
            log_index < 0x4000_0000_0000_0000,
            vstd::string::is_ascii(leaf_hash_hex),
        ensures
            final(self).wf(),
            final(self).spec_origin() == old(self).spec_origin(),
            match hash_from_hex(leaf_hash_hex.spec_bytes()) {
                None => r matches Err(AuditError::InvalidHex(t)) && t@ == leaf_hash_hex@ && final(self)@ == old(self)@,
                Some(leaf) => match walk_up(old(self)@, log_index, 0, leaf) {
                    Err(k) => r matches Err(AuditError::HashNotFound(j)) && j == k && final(self)@
                        == old(self)@,
                    Ok(parents) => r is Ok && final(self)@ == store_all(
                        old(self)@,
                        seq![(tlog_stored_hash_index(0, log_index), leaf)] + parents,
                    ),
                },
            },
    {
        let leaf = match hex_to_hash(leaf_hash_hex) {
            Ok(h) => h,
            Err(e) => {
                return Err(e);
            },
        };
        let n = log_index;
        let mut to_store: Vec<(u64, Vec<u8>)> = Vec::new();
        proof {
                assert((0x4000_0000_0000_0000u64 >> 0u8) == 0x4000_0000_0000_0000u64) by (bit_vector);
        }
        let first = stored_hash_index(0, n);
        to_store.push((first, leaf.clone()));
        let mut current = leaf;
        let mut level: u8 = 0;
        let ghost s = self@;
        let ghost leaf_v = current@;
        while level < 62 && (n >> level) & 1 == 1
            invariant
                self.wf(),
                self@ == s,
                s == old(self)@,
                self.spec_origin() == old(self).spec_origin(),
                hash_from_hex(leaf_hash_hex.spec_bytes()) == Some(leaf_v),
                n == log_index,
                n < 0x4000_0000_0000_0000,
                level <= 62,
                current@.len() == 32,
                forall|j: int| 0 <= j < to_store@.len() ==> (#[trigger] to_store@[j]).1@.len() == 32,
                walk_up(s, n, 0, leaf_v) == (match walk_up(s, n, level, current@) {
                    Ok(rest) => Ok(
                        to_store@.map_values(|p: (u64, Vec<u8>)| (p.0, p.1@)).drop_first() + rest,
                    ),
                    Err(k) => Err(k),
                }),
                to_store@.len() >= 1,
                to_store@[0].0 == tlog_stored_hash_index(0, log_index),
                to_store@[0].1@ == leaf_v,
            decreases 62 - level,
        {
            let at = n >> level;
            proof {
                assert(n < 0x4000_0000_0000_0000u64 && level < 62 && (n >> level) & 1 == 1 ==> (n
                    >> level) >= 1 && ((n >> level) - 1) < (0x4000_0000_0000_0000u64 >> level))
                    by (bit_vector);
                assert(n < 0x4000_0000_0000_0000u64 && level < 62 ==> ((n >> level) >> 1u64) < (
                0x4000_0000_0000_0000u64 >> ((level + 1) as u8))) by (bit_vector);
            }
            let left_idx = stored_hash_index(level, at - 1);
            let left = match self.read_hash(left_idx) {
                Ok(h) => h,
                Err(e) => {
                    proof {
                        assert(!has_index(s, left_idx));
                        assert(walk_up(s, n, level, current@) == Err::<Seq<(u64, Seq<u8>)>, u64>(
                            left_idx,
                        ));
                    }
                    return Err(e);
                },
            };
            let parent = node_hash(left.as_slice(), current.as_slice());
            let next_level: u8 = level + 1;
            let parent_idx = stored_hash_index(next_level, at >> 1);
            let ghost before_store = to_store@.map_values(|p: (u64, Vec<u8>)| (p.0, p.1@));
            to_store.push((parent_idx, parent.clone()));
            proof {
                let after = to_store@.map_values(|p: (u64, Vec<u8>)| (p.0, p.1@));
                assert(after =~= before_store.push((parent_idx, parent@)));
                assert(after.drop_first() =~= before_store.drop_first().push((parent_idx, parent@)));
                match walk_up(s, n, next_level, parent@) {
                    Ok(rest) => {
                        assert(before_store.drop_first() + (seq![(parent_idx, parent@)] + rest)
                            =~= after.drop_first() + rest);
                    },
                    Err(k) => {},
                }
            }
            current = parent;
            level = next_level;
        }
        proof {
            let plan = to_store@.map_values(|p: (u64, Vec<u8>)| (p.0, p.1@));
            assert(walk_up(s, n, level, current@) == Ok::<Seq<(u64, Seq<u8>)>, u64>(Seq::empty()));
            assert(plan.drop_first() + Seq::<(u64, Seq<u8>)>::empty() =~= plan.drop_first());
            assert(seq![(tlog_stored_hash_index(0, log_index), leaf_v)] + plan.drop_first() =~= plan);
        }
        // Persist all computed hashes.
        let ghost plan = to_store@.map_values(|p: (u64, Vec<u8>)| (p.0, p.1@));
        let mut i: usize = 0;
        while i < to_store.len()
            invariant
                self.wf(),
                i <= to_store@.len(),
                plan == to_store@.map_values(|p: (u64, Vec<u8>)| (p.0, p.1@)),
                forall|j: int| 0 <= j < to_store@.len() ==> (#[trigger] to_store@[j]).1@.len() == 32,
                self@ == store_all(s, plan.take(i as int)),
                self.spec_origin() == old(self).spec_origin(),
            decreases to_store@.len() - i,
        {
            proof {
                assert(plan.take(i + 1).drop_last() =~= plan.take(i as int));
                assert(plan.take(i + 1).last() == plan[i as int]);
            }
            let k = to_store[i].0;
            let h = to_store[i].1.clone();
            self.put(k, h);
            i = i + 1;
        }
        proof {
            assert(plan.take(plan.len() as int) =~= plan);
        }
        Ok(())
    }

    pub closed spec fn checkpoints_view(&self) -> Seq<AuditCheckpoint> {
        self.checkpoints@
    }

    /// Records a checkpoint.
    pub fn record_checkpoint(&mut self, cp: AuditCheckpoint)
        ensures
            final(self)@ == old(self)@,
            final(self).spec_origin() == old(self).spec_origin(),
            final(self).checkpoints_view() == old(self).checkpoints_view().push(cp),
    {
        self.checkpoints.push(cp);
    }

    /// The checkpoint of the largest tree recorded so far (the latest of
    /// those with that size).
    pub fn latest_checkpoint(&self) -> (r: Result<AuditCheckpoint, AuditError>)
        ensures
            self.checkpoints_view().len() == 0 <==> r is Err,
            r is Err ==> r matches Err(AuditError::NoCheckpoint),
            r matches Ok(cp) ==> (exists|i: int|
                0 <= i < self.checkpoints_view().len() && #[trigger] self.checkpoints_view()[i] == cp),
            r matches Ok(cp) ==> (forall|j: int|
                0 <= j < self.checkpoints_view().len() ==> (#[trigger] self.checkpoints_view()[j]).tree_size
                    <= cp.tree_size),
    {
        if self.checkpoints.len() == 0 {
            return Err(AuditError::NoCheckpoint);
        }
        let mut best: usize = 0;
        let mut i: usize = 1;
        while i < self.checkpoints.len()
            invariant
                0 <= best < self.checkpoints@.len(),
                1 <= i <= self.checkpoints@.len(),
                forall|j: int| 0 <= j < i ==> (#[trigger] self.checkpoints@[j]).tree_size
                    <= self.checkpoints@[best as int].tree_size,
            decreases self.checkpoints@.len() - i,
        {
            if self.checkpoints[i].tree_size >= self.checkpoints[best].tree_size {
                best = i;
            }
            i = i + 1;
        }
        let c = &self.checkpoints[best];
        let cp = AuditCheckpoint {
            tree_size: c.tree_size,
            root_hash: c.root_hash.clone(),
            checkpoint_text: c.checkpoint_text.clone(),
            created_at: c.created_at.clone(),
        };
        proof {
            assert(self.checkpoints_view()[best as int] == cp);
        }
        Ok(cp)
    }

    /// The size of the tree of the latest checkpoint (0 when there is none).
    pub fn tree_size(&self) -> (r: Result<u64, AuditError>)
        ensures
            self.checkpoints_view().len() == 0 ==> r == Ok::<u64, AuditError>(0),
            r is Ok,
            self.checkpoints_view().len() > 0 ==> (r matches Ok(n) && exists|i: int|
                0 <= i < self.checkpoints_view().len() && (#[trigger] self.checkpoints_view()[i]).tree_size
                    as u64 == n && forall|j: int|
                    0 <= j < self.checkpoints_view().len() ==> (
                    #[trigger] self.checkpoints_view()[j]).tree_size
                        <= self.checkpoints_view()[i].tree_size),
    {
        match self.latest_checkpoint() {
            Ok(cp) => Ok(cp.tree_size as u64),
            Err(_) => Ok(0),
        }
    }
}

/// The bytes that text stands for, pair by pair (see [`crate::hex::hex_decode`]).
pub open spec fn hex_bytes(s: Seq<char>) -> Seq<u8> {
    Seq::new(s.len() / 2, |i: int| hex_byte_value(s[2 * i] as u8, s[2 * i + 1] as u8)->0)
}

/// The root that an inclusion proof leads to: at each level the sibling goes
/// on the left when the node is a right child or the last node of its level,
/// and on the right otherwise.
pub open spec fn inclusion_root(current: Seq<u8>, idx: u64, last: u64, proof: Seq<Seq<u8>>) -> Seq<
    u8,
>
    decreases proof.len(),
{
    if proof.len() == 0 {
        current
    } else {
        let sibling = proof[0];
        let next = if idx % 2 == 1 {
            node_hash_of(sibling, current)
        } else if idx < last {
            node_hash_of(current, sibling)
        } else {
            node_hash_of(sibling, current)
        };
        inclusion_root(next, idx / 2, last / 2, proof.drop_first())
    }
}

/// Whether the proof leads from the leaf hash to the root (all as hex text).
pub open spec fn inclusion_holds(
    leaf_hash_hex: Seq<char>,
    leaf_index: u64,
    tree_size: u64,
    root_hex: Seq<char>,
    proof: Seq<Seq<char>>,
) -> bool {
    hex_of(
        inclusion_root(
            hex_bytes(leaf_hash_hex),
            leaf_index,
            (tree_size - 1) as u64,
            proof.map_values(|p: Seq<char>| hex_bytes(p)),
        ),
    ) == root_hex
}

/// SHA-256(0x01 || left || right) for hashes of any length.
fn interior_hash(left: &[u8], right: &[u8]) -> (r: Vec<u8>)
    ensures
        r@ == node_hash_of(left@, right@),
{
    let mut input: Vec<u8> = Vec::new();
    input.push(0x01u8);
    let mut i: usize = 0;
    while i < left.len()
        invariant
            i <= left@.len(),
            input@ == seq![0x01u8] + left@.take(i as int),
        decreases left@.len() - i,
    {
        input.push(left[i]);
        proof {
            assert(left@.take(i as int + 1) =~= left@.take(i as int).push(left@[i as int]));
        }
        i = i + 1;
    }
    let mut j: usize = 0;
    while j < right.len()
        invariant
            j <= right@.len(),
            input@ == seq![0x01u8] + left@ + right@.take(j as int),
        decreases right@.len() - j,
    {
        proof {
            assert(left@.take(left@.len() as int) =~= left@);
        }
        input.push(right[j]);
        proof {
            assert(right@.take(j as int + 1) =~= right@.take(j as int).push(right@[j as int]));
        }
        j = j + 1;
    }
    proof {
        assert(left@.take(left@.len() as int) =~= left@);
        assert(right@.take(right@.len() as int) =~= right@);
        assert(input@ =~= seq![0x01u8] + left@ + right@);
    }
    crate::digest::sha256(input.as_slice())
}

/// Checks an inclusion proof: hashes the leaf up with each sibling in turn
/// and compares the result, as hex, with the root.
pub fn verify_inclusion(
    leaf_hash_hex: &str,
    leaf_index: u64,
    tree_size: u64,
    root_hex: &str,
    proof: &[String],
) -> (r: bool)
    requires
        tree_size >= 1,
        crate::hex::hex_pairs_ok(leaf_hash_hex@),
        forall|k: int| 0 <= k < proof@.len() ==> crate::hex::hex_pairs_ok(#[trigger] proof@[k]@),
    ensures
        r == inclusion_holds(
            leaf_hash_hex@,
            leaf_index,
            tree_size,
            root_hex@,
            proof@.map_values(|p: String| p@),
        ),
{
    let ghost pv = proof@.map_values(|p: String| p@);
    let ghost dp = pv.map_values(|p: Seq<char>| hex_bytes(p));
    let mut current = crate::hex::hex_decode(leaf_hash_hex);
    let mut idx = leaf_index;
    let mut last = tree_size - 1;
    proof {
        assert(current@ =~= hex_bytes(leaf_hash_hex@));
        assert(dp.skip(0) =~= dp);
    }
    let ghost target = inclusion_root(current@, idx, last, dp);
    let mut k: usize = 0;
    while k < proof.len()
        invariant
            pv == proof@.map_values(|p: String| p@),
            dp == pv.map_values(|p: Seq<char>| hex_bytes(p)),
            forall|m: int| 0 <= m < proof@.len() ==> crate::hex::hex_pairs_ok(#[trigger] proof@[m]@),
            k <= proof@.len(),
            inclusion_root(current@, idx, last, dp.skip(k as int)) == target,
        decreases proof@.len() - k,
    {
        let sibling = crate::hex::hex_decode(proof[k].as_str());
        proof {
            assert(sibling@ =~= dp[k as int]);
            assert(dp.skip(k as int)[0] == dp[k as int]);
            assert(dp.skip(k as int).drop_first() =~= dp.skip(k as int + 1));
        }
        if idx % 2 == 1 {
            current = interior_hash(sibling.as_slice(), current.as_slice());
        } else if idx < last {
            current = interior_hash(current.as_slice(), sibling.as_slice());
        } else {
            current = interior_hash(sibling.as_slice(), current.as_slice());
        }
        idx = idx / 2;
        last = last / 2;
        k = k + 1;
    }
    proof {
        assert(dp.skip(k as int) =~= Seq::<Seq<u8>>::empty());
    }
    let current_hex = crate::hex::hex_encode(current.as_slice());
    crate::text::str_eq(current_hex.as_str(), root_hex)
}

} // verus!
