//! Append-only event log with canonical hashing of each event.
use crate::digest::{sha256, sha256_digest};
use crate::errors::KernelResult;
use crate::hex::{bytes_to_hex, hex_of};
use crate::json::{
    copy_value, number_bytes, string_bytes, write_number, write_string, JsonNumber, JsonValue,
    JsonView,
};
use crate::text::str_eq;
use vstd::prelude::*;
use vstd::string::*;

verus! {

/// A committed event.
#[derive(Debug)]
pub struct EventRecord {
    pub id: String,
    pub log_index: i64,
    pub event_hash: String,
    pub actor_id: String,
    pub action_type: String,
    pub target: String,
    pub payload: JsonValue,
    pub payload_hash: String,
    /// SHA-256(stdout || stderr) for execute actions; None otherwise.
    pub artifact_hash: Option<String>,
    pub reserved_energy: i64,
    pub settled_energy: i64,
    pub timestamp: String,
}

/// The mathematical form of an event.
pub struct EventView {
    pub id: Seq<char>,
    pub log_index: i64,
    pub event_hash: Seq<char>,
    pub actor_id: Seq<char>,
    pub action_type: Seq<char>,
    pub target: Seq<char>,
    pub payload: JsonView,
    pub payload_hash: Seq<char>,
    pub artifact_hash: Option<Seq<char>>,
    pub reserved_energy: i64,
    pub settled_energy: i64,
    pub timestamp: Seq<char>,
}

pub open spec fn opt_view(o: Option<String>) -> Option<Seq<char>> {
    match o {
        Some(s) => Some(s@),
        None => None,
    }
}

impl View for EventRecord {
    type V = EventView;

    open spec fn view(&self) -> EventView {
        EventView {
            id: self.id@,
            log_index: self.log_index,
            event_hash: self.event_hash@,
            actor_id: self.actor_id@,
            action_type: self.action_type@,
            target: self.target@,
            payload: self.payload@,
            payload_hash: self.payload_hash@,
            artifact_hash: opt_view(self.artifact_hash),
            reserved_energy: self.reserved_energy,
            settled_energy: self.settled_energy,
            timestamp: self.timestamp@,
        }
    }
}

/// One `"key":value` member of the canonical encoding.
pub open spec fn member(key: Seq<char>, value: Seq<u8>) -> Seq<u8> {
    string_bytes(key) + seq![0x3au8] + value
}

/// The compact form of a signed integer.
pub open spec fn int_bytes(n: i64) -> Seq<u8> {
    number_bytes(JsonNumber::NegInt(n))
}

/// The canonical encoding of an event: a compact JSON object with its keys in
/// codepoint order (`action_type`, `actor_id`, `artifact_hash` when present,
/// `event_id`, `log_index`, `payload_hash`, `reserved_energy`,
/// `settled_energy`, `timestamp`, `v`).
pub open spec fn canonical_event_bytes(e: EventView) -> Seq<u8> {
    let comma = seq![0x2cu8];
    let artifact = match e.artifact_hash {
        Some(a) => comma + member("artifact_hash"@, string_bytes(a)),
        None => Seq::empty(),
    };
    seq![0x7bu8] + member("action_type"@, string_bytes(e.action_type)) + comma + member(
        "actor_id"@,
        string_bytes(e.actor_id),
    ) + artifact + comma + member("event_id"@, string_bytes(e.id)) + comma + member(
        "log_index"@,
        int_bytes(e.log_index),
    ) + comma + member("payload_hash"@, string_bytes(e.payload_hash)) + comma + member(
        "reserved_energy"@,
        int_bytes(e.reserved_energy),
    ) + comma + member("settled_energy"@, int_bytes(e.settled_energy)) + comma + member(
        "timestamp"@,
        string_bytes(e.timestamp),
    ) + comma + member("v"@, string_bytes("punkgo-event-v1"@)) + seq![0x7du8]
}

/// The canonical bytes before the `payload_hash` member.
spec fn canonical_head(e: EventView) -> Seq<u8> {
    let comma = seq![0x2cu8];
    let artifact = match e.artifact_hash {
        Some(a) => comma + member("artifact_hash"@, string_bytes(a)),
        None => Seq::empty(),
    };
    seq![0x7bu8] + member("action_type"@, string_bytes(e.action_type)) + comma + member(
        "actor_id"@,
        string_bytes(e.actor_id),
    ) + artifact + comma + member("event_id"@, string_bytes(e.id)) + comma + member(
        "log_index"@,
        int_bytes(e.log_index),
    ) + comma
}

/// The canonical bytes after the `payload_hash` member.
spec fn canonical_tail(e: EventView) -> Seq<u8> {
    let comma = seq![0x2cu8];
    comma + member("reserved_energy"@, int_bytes(e.reserved_energy)) + comma + member(
        "settled_energy"@,
        int_bytes(e.settled_energy),
    ) + comma + member("timestamp"@, string_bytes(e.timestamp)) + comma + member(
        "v"@,
        string_bytes("punkgo-event-v1"@),
    ) + seq![0x7du8]
}

/// Escaping leaves bytes that need no escape as they are.
proof fn lemma_escape_plain(bs: Seq<u8>)
    requires
        forall|i: int| 0 <= i < bs.len() ==> 0x20 <= #[trigger] bs[i] && bs[i] != 0x22 && bs[i] != 0x5c,
    ensures
        crate::json::escape_bytes(bs) == bs,
    decreases bs.len(),
{
    if bs.len() > 0 {
        let d = bs.drop_last();
        assert forall|i: int| 0 <= i < d.len() implies 0x20 <= #[trigger] d[i] && d[i] != 0x22 && d[i]
            != 0x5c by {
            assert(d[i] == bs[i]);
        }
        lemma_escape_plain(d);
        assert(bs[bs.len() - 1] == bs.last());
        assert(d.push(bs.last()) =~= bs);
    }
}

/// The quoted form of lowercase hex text is the text's bytes in quotes.
proof fn lemma_hex_string_bytes(h: Seq<char>)
    requires
        crate::hex::is_lower_hex(h),
    ensures
        string_bytes(h) == seq![0x22u8] + vstd::utf8::encode_utf8(h) + seq![0x22u8],
{
    assert(vstd::utf8::is_ascii_chars(h)) by {
        assert forall|i: int| 0 <= i < h.len() implies '\0' <= #[trigger] h[i] <= '\u{7f}' by {
            assert(('0' <= h[i] <= '9') || ('a' <= h[i] <= 'f'));
        }
    }
    vstd::utf8::is_ascii_chars_encode_utf8(h);
    let b = vstd::utf8::encode_utf8(h);
    assert forall|i: int| 0 <= i < b.len() implies 0x20 <= #[trigger] b[i] && b[i] != 0x22 && b[i] != 0x5c by {
        assert(h[i] as u8 == b[i]);
        assert(('0' <= h[i] <= '9') || ('a' <= h[i] <= 'f'));
    }
    lemma_escape_plain(b);
}

/// The canonical bytes split around the `payload_hash` member.
proof fn lemma_canonical_split(e: EventView)
    ensures
        canonical_event_bytes(e) == canonical_head(e) + member("payload_hash"@, string_bytes(e.payload_hash))
            + canonical_tail(e),
{
    assert(canonical_event_bytes(e) =~= canonical_head(e) + member("payload_hash"@, string_bytes(e.payload_hash))
        + canonical_tail(e));
}

/// Equal sequences with the same ends have the same middle.
proof fn lemma_same_middle(a: Seq<u8>, m1: Seq<u8>, m2: Seq<u8>, b: Seq<u8>)
    requires
        a + m1 + b == a + m2 + b,
    ensures
        m1 == m2,
{
    let c = a + m1 + b;
    assert(c.len() == a.len() + m1.len() + b.len());
    assert((a + m2 + b).len() == a.len() + m2.len() + b.len());
    assert(m1.len() == m2.len());
    assert(m1 =~= c.subrange(a.len() as int, (a.len() + m1.len()) as int));
    assert(m2 =~= (a + m2 + b).subrange(a.len() as int, (a.len() + m2.len()) as int));
}

/// Different lowercase hex texts have different quoted forms.
proof fn lemma_hex_string_bytes_differ(h1: Seq<char>, h2: Seq<char>)
    requires
        crate::hex::is_lower_hex(h1),
        crate::hex::is_lower_hex(h2),
        h1 != h2,
    ensures
        string_bytes(h1) != string_bytes(h2),
{
    lemma_hex_string_bytes(h1);
    lemma_hex_string_bytes(h2);
    let u1 = vstd::utf8::encode_utf8(h1);
    let u2 = vstd::utf8::encode_utf8(h2);
    if string_bytes(h1) == string_bytes(h2) {
        lemma_same_middle(seq![0x22u8], u1, u2, seq![0x22u8]);
        vstd::utf8::encode_utf8_decode_utf8(h1);
        vstd::utf8::encode_utf8_decode_utf8(h2);
    }
}

/// Whether bytes hold the JSON member `key: value` somewhere.
pub open spec fn has_member(bytes: Seq<u8>, key: Seq<char>, value: Seq<u8>) -> bool {
    exists|a: Seq<u8>, b: Seq<u8>| bytes == a + member(key, value) + b
}

/// The pieces of a sequence of byte strings, joined in order.
spec fn joined(ps: Seq<Seq<u8>>) -> Seq<u8>
    decreases ps.len(),
{
    if ps.len() == 0 {
        Seq::empty()
    } else if ps.len() == 1 {
        ps[0]
    } else {
        joined(ps.drop_last()) + ps.last()
    }
}

proof fn lemma_member_right(x: Seq<u8>, y: Seq<u8>, key: Seq<char>, value: Seq<u8>)
    requires
        has_member(x, key, value),
    ensures
        has_member(x + y, key, value),
{
    let (a, b) = choose|a: Seq<u8>, b: Seq<u8>| x == a + member(key, value) + b;
    assert(x + y =~= a + member(key, value) + (b + y));
}

proof fn lemma_member_left(x: Seq<u8>, y: Seq<u8>, key: Seq<char>, value: Seq<u8>)
    requires
        has_member(y, key, value),
    ensures
        has_member(x + y, key, value),
{
    let (a, b) = choose|a: Seq<u8>, b: Seq<u8>| y == a + member(key, value) + b;
    assert(x + y =~= (x + a) + member(key, value) + b);
}

proof fn lemma_member_itself(key: Seq<char>, value: Seq<u8>)
    ensures
        has_member(member(key, value), key, value),
{
    let e = Seq::<u8>::empty();
    assert(member(key, value) =~= e + member(key, value) + e);
}

/// A joined sequence holds every member that one of its pieces holds.
proof fn lemma_joined_member(ps: Seq<Seq<u8>>, i: int, key: Seq<char>, value: Seq<u8>)
    requires
        0 <= i < ps.len(),
        has_member(ps[i], key, value),
    ensures
        has_member(joined(ps), key, value),
    decreases ps.len(),
{
    if ps.len() > 1 {
        let d = ps.drop_last();
        if i < ps.len() - 1 {
            assert(d[i] == ps[i]);
            lemma_joined_member(d, i, key, value);
            lemma_member_right(joined(d), ps.last(), key, value);
        } else {
            lemma_member_left(joined(d), ps.last(), key, value);
        }
    }
}

/// The canonical bytes of an event hold a member for every recorded field:
/// its action type, actor, id, log index, payload hash, reserved and settled
/// energy, timestamp, and the format version (and its artifact hash when it
/// has one), each with the field's own value.
pub proof fn law_canonical_bytes_hold_every_field(e: EventView)
    ensures
        has_member(canonical_event_bytes(e), "action_type"@, string_bytes(e.action_type)),
        has_member(canonical_event_bytes(e), "actor_id"@, string_bytes(e.actor_id)),
        has_member(canonical_event_bytes(e), "event_id"@, string_bytes(e.id)),
        has_member(canonical_event_bytes(e), "log_index"@, int_bytes(e.log_index)),
        has_member(canonical_event_bytes(e), "payload_hash"@, string_bytes(e.payload_hash)),
        has_member(canonical_event_bytes(e), "reserved_energy"@, int_bytes(e.reserved_energy)),
        has_member(canonical_event_bytes(e), "settled_energy"@, int_bytes(e.settled_energy)),
        has_member(canonical_event_bytes(e), "timestamp"@, string_bytes(e.timestamp)),
        has_member(canonical_event_bytes(e), "v"@, string_bytes("punkgo-event-v1"@)),
        e.artifact_hash matches Some(h) ==> has_member(canonical_event_bytes(e), "artifact_hash"@, string_bytes(h)),
{
    let comma = seq![0x2cu8];
    let artifact = match e.artifact_hash {
        Some(a) => comma + member("artifact_hash"@, string_bytes(a)),
        None => Seq::<u8>::empty(),
    };
    let m1 = member("action_type"@, string_bytes(e.action_type));
    let m2 = member("actor_id"@, string_bytes(e.actor_id));
    let m3 = member("event_id"@, string_bytes(e.id));
    let m4 = member("log_index"@, int_bytes(e.log_index));
    let m5 = member("payload_hash"@, string_bytes(e.payload_hash));
    let m6 = member("reserved_energy"@, int_bytes(e.reserved_energy));
    let m7 = member("settled_energy"@, int_bytes(e.settled_energy));
    let m8 = member("timestamp"@, string_bytes(e.timestamp));
    let m9 = member("v"@, string_bytes("punkgo-event-v1"@));
    let ps = seq![
        seq![0x7bu8], m1, comma, m2, artifact, comma, m3, comma, m4, comma, m5, comma, m6, comma, m7,
        comma, m8, comma, m9, seq![0x7du8],
    ];
    assert(joined(ps) == canonical_event_bytes(e)) by {
        reveal_with_fuel(joined, 21);
    }
    lemma_member_itself("action_type"@, string_bytes(e.action_type));
    lemma_joined_member(ps, 1, "action_type"@, string_bytes(e.action_type));
    lemma_member_itself("actor_id"@, string_bytes(e.actor_id));
    lemma_joined_member(ps, 3, "actor_id"@, string_bytes(e.actor_id));
    lemma_member_itself("event_id"@, string_bytes(e.id));
    lemma_joined_member(ps, 6, "event_id"@, string_bytes(e.id));
    lemma_member_itself("log_index"@, int_bytes(e.log_index));
    lemma_joined_member(ps, 8, "log_index"@, int_bytes(e.log_index));
    lemma_member_itself("payload_hash"@, string_bytes(e.payload_hash));
    lemma_joined_member(ps, 10, "payload_hash"@, string_bytes(e.payload_hash));
    lemma_member_itself("reserved_energy"@, int_bytes(e.reserved_energy));
    lemma_joined_member(ps, 12, "reserved_energy"@, int_bytes(e.reserved_energy));
    lemma_member_itself("settled_energy"@, int_bytes(e.settled_energy));
    lemma_joined_member(ps, 14, "settled_energy"@, int_bytes(e.settled_energy));
    lemma_member_itself("timestamp"@, string_bytes(e.timestamp));
    lemma_joined_member(ps, 16, "timestamp"@, string_bytes(e.timestamp));
    lemma_member_itself("v"@, string_bytes("punkgo-event-v1"@));
    lemma_joined_member(ps, 18, "v"@, string_bytes("punkgo-event-v1"@));
    match e.artifact_hash {
        Some(h) => {
            lemma_member_itself("artifact_hash"@, string_bytes(h));
            lemma_member_left(comma, member("artifact_hash"@, string_bytes(h)), "artifact_hash"@, string_bytes(h));
            lemma_joined_member(ps, 4, "artifact_hash"@, string_bytes(h));
        },
        None => {},
    }
}

/// The canonical bytes of an event commit to its payload hash: two events
/// that agree on every other recorded field but carry different payload
/// hashes (lowercase hex, as the kernel computes them) have different
/// canonical bytes, so the hashed leaf of an event depends on its payload.
pub proof fn law_canonical_bytes_commit_to_payload_hash(e1: EventView, e2: EventView)
    requires
        e1.id == e2.id,
        e1.log_index == e2.log_index,
        e1.actor_id == e2.actor_id,
        e1.action_type == e2.action_type,
        e1.artifact_hash == e2.artifact_hash,
        e1.reserved_energy == e2.reserved_energy,
        e1.settled_energy == e2.settled_energy,
        e1.timestamp == e2.timestamp,
        e1.payload_hash != e2.payload_hash,
        crate::hex::is_lower_hex(e1.payload_hash),
        crate::hex::is_lower_hex(e2.payload_hash),
    ensures
        canonical_event_bytes(e1) != canonical_event_bytes(e2),
{
    lemma_canonical_split(e1);
    lemma_canonical_split(e2);
    assert(canonical_head(e2) == canonical_head(e1));
    assert(canonical_tail(e2) == canonical_tail(e1));
    lemma_hex_string_bytes_differ(e1.payload_hash, e2.payload_hash);
    let k = string_bytes("payload_hash"@) + seq![0x3au8];
    if canonical_event_bytes(e1) == canonical_event_bytes(e2) {
        lemma_same_middle(
            canonical_head(e1),
            member("payload_hash"@, string_bytes(e1.payload_hash)),
            member("payload_hash"@, string_bytes(e2.payload_hash)),
            canonical_tail(e1),
        );
        lemma_same_middle(k, string_bytes(e1.payload_hash), string_bytes(e2.payload_hash), Seq::empty());
    }
}

/// `event_hash = hex(SHA-256(0x00 || canonical bytes))`, the leaf form of RFC 6962.
pub open spec fn event_hash_of(e: EventView) -> Seq<char> {
    hex_of(sha256_digest(seq![0x00u8] + canonical_event_bytes(e)))
}

fn write_member_str(out: &mut Vec<u8>, key: &str, value: &str)
    ensures
        final(out)@ == old(out)@ + member(key@, string_bytes(value@)),
{
    write_string(out, key);
    out.push(0x3a);
    write_string(out, value);
    proof {
        assert(final(out)@ =~= old(out)@ + member(key@, string_bytes(value@)));
    }
}

fn write_member_int(out: &mut Vec<u8>, key: &str, value: i64)
    ensures
        final(out)@ == old(out)@ + member(key@, int_bytes(value)),
{
    write_string(out, key);
    out.push(0x3a);
    write_number(out, &JsonNumber::NegInt(value));
    proof {
        assert(final(out)@ =~= old(out)@ + member(key@, int_bytes(value)));
    }
}

/// The canonical bytes of an event.
#[verifier::rlimit(40)]
#[verifier::spinoff_prover]
pub fn canonical_event_json(event: &EventRecord) -> (r: Vec<u8>)
    ensures
        r@ == canonical_event_bytes(event@),
{
    let mut out: Vec<u8> = Vec::new();
    let ghost comma = seq![0x2cu8];
    out.push(0x7b);
    write_member_str(&mut out, "action_type", event.action_type.as_str());
    out.push(0x2c);
    write_member_str(&mut out, "actor_id", event.actor_id.as_str());
    let ghost mid = out@;
    match &event.artifact_hash {
        Some(a) => {
            out.push(0x2c);
            write_member_str(&mut out, "artifact_hash", a.as_str());
        },
        None => {},
    }
    let ghost art = out@.subrange(mid.len() as int, out@.len() as int);
    out.push(0x2c);
    write_member_str(&mut out, "event_id", event.id.as_str());
    out.push(0x2c);
    write_member_int(&mut out, "log_index", event.log_index);
    out.push(0x2c);
    write_member_str(&mut out, "payload_hash", event.payload_hash.as_str());
    out.push(0x2c);
    write_member_int(&mut out, "reserved_energy", event.reserved_energy);
    out.push(0x2c);
    write_member_int(&mut out, "settled_energy", event.settled_energy);
    out.push(0x2c);
    write_member_str(&mut out, "timestamp", event.timestamp.as_str());
    out.push(0x2c);
    write_member_str(&mut out, "v", "punkgo-event-v1");
    out.push(0x7d);
    proof {
        let artifact = match event@.artifact_hash {
            Some(a) => comma + member("artifact_hash"@, string_bytes(a)),
            None => Seq::<u8>::empty(),
        };
        assert(art =~= artifact);
        assert(out@ =~= canonical_event_bytes(event@));
    }
    out
}

/// Computes `event_hash` for an event (its own `event_hash` field is not read).
pub fn compute_event_hash(event: &EventRecord) -> (r: KernelResult<String>)
    ensures
        r matches Ok(h) && h@ == event_hash_of(event@),
        sha256_digest(seq![0x00u8] + canonical_event_bytes(event@)).len() == 32,
{
    let json_bytes = canonical_event_json(event);
    let mut input: Vec<u8> = Vec::new();
    input.push(0x00);
    let mut rest = json_bytes;
    input.append(&mut rest);
    proof {
        assert(input@ =~= seq![0x00u8] + canonical_event_bytes(event@));
    }
    let digest = sha256(input.as_slice());
    Ok(bytes_to_hex(digest.as_slice()))
}

fn copy_opt(o: &Option<String>) -> (r: Option<String>)
    ensures
        opt_view(r) == opt_view(*o),
{
    match o {
        Some(s) => Some(s.clone()),
        None => None,
    }
}

/// A copy of an event, equal to it in every part.
pub fn copy_event(e: &EventRecord) -> (r: EventRecord)
    ensures
        r@ == e@,
{
    EventRecord {
        id: e.id.clone(),
        log_index: e.log_index,
        event_hash: e.event_hash.clone(),
        actor_id: e.actor_id.clone(),
        action_type: e.action_type.clone(),
        target: e.target.clone(),
        payload: copy_value(&e.payload),
        payload_hash: e.payload_hash.clone(),
        artifact_hash: copy_opt(&e.artifact_hash),
        reserved_energy: e.reserved_energy,
        settled_energy: e.settled_energy,
        timestamp: e.timestamp.clone(),
    }
}

/// Whether an event passes a query: of `actor` (any when `None`), with
/// `log_index` below `before` and above `after` (when given).
pub open spec fn query_keeps(e: EventView, actor: Option<Seq<char>>, before: Option<i64>, after: Option<i64>) -> bool {
    &&& match actor {
        Some(a) => e.actor_id == a,
        None => true,
    }
    &&& match before {
        Some(b) => e.log_index < b,
        None => true,
    }
    &&& match after {
        Some(a) => e.log_index > a,
        None => true,
    }
}

/// The events that pass a query, newest first.
pub open spec fn newest_first(
    s: Seq<EventView>,
    actor: Option<Seq<char>>,
    before: Option<i64>,
    after: Option<i64>,
) -> Seq<EventView>
    decreases s.len(),
{
    if s.len() == 0 {
        Seq::empty()
    } else {
        let rest = newest_first(s.drop_first(), actor, before, after);
        let keep = query_keeps(s[0], actor, before, after);
        if keep {
            rest.push(s[0])
        } else {
            rest
        }
    }
}

/// At most `limit` items; a negative limit means no limit.
pub open spec fn take_limit<T>(s: Seq<T>, limit: i64) -> Seq<T> {
    if limit < 0 || limit >= s.len() {
        s
    } else {
        s.take(limit as int)
    }
}

/// The log's invariant: every event sits at its own `log_index` and carries
/// its own hash.
pub open spec fn log_wf(s: Seq<EventView>) -> bool {
    forall|i: int|
        0 <= i < s.len() ==> (#[trigger] s[i]).log_index == i && s[i].event_hash == event_hash_of(
            s[i],
        ) && s[i].event_hash.len() == 64 && crate::hex::is_lower_hex(s[i].event_hash)
}

/// An event with its log position and hash replaced.
pub open spec fn with_index_and_hash(e: EventView, log_index: i64, event_hash: Seq<char>) -> EventView {
    EventView {
        id: e.id,
        log_index,
        event_hash,
        actor_id: e.actor_id,
        action_type: e.action_type,
        target: e.target,
        payload: e.payload,
        payload_hash: e.payload_hash,
        artifact_hash: e.artifact_hash,
        reserved_energy: e.reserved_energy,
        settled_energy: e.settled_energy,
        timestamp: e.timestamp,
    }
}

pub open spec fn actor_filter(actor: Option<&str>) -> Option<Seq<char>> {
    match actor {
        Some(a) => Some(a@),
        None => None,
    }
}

/// The append-only event log.
#[derive(Debug)]
pub struct EventLog {
    events: Vec<EventRecord>,
}

impl View for EventLog {
    type V = Seq<EventView>;

    closed spec fn view(&self) -> Seq<EventView> {
        self.events@.map_values(|e: EventRecord| e@)
    }
}

impl EventLog {
    pub open spec fn wf(&self) -> bool {
        log_wf(self@) && self@.len() < i64::MAX
    }

    /// An empty log.
    pub fn new() -> (l: Self)
        ensures
            l.wf(),
            l@ == Seq::<EventView>::empty(),
    {
        let l = EventLog { events: Vec::new() };
        assert(l@ =~= Seq::<EventView>::empty());
        l
    }

    /// Appends an event: assigns the next `log_index` and computes
    /// `event_hash` in place, then stores a copy.
    pub fn append(&mut self, event: &mut EventRecord) -> (r: KernelResult<()>)
        requires
            old(self).wf(),
            old(self)@.len() + 1 < i64::MAX,
        ensures
            final(self).wf(),
            r is Ok,
            final(event).log_index == old(self)@.len(),
            final(event).event_hash@ == event_hash_of(final(event)@),
            final(event).event_hash@.len() == 64,
            crate::hex::is_lower_hex(final(event).event_hash@),
            final(event)@ == with_index_and_hash(
                old(event)@,
                old(self)@.len() as i64,
                final(event).event_hash@,
            ),
            final(self)@ == old(self)@.push(final(event)@),
    {
        let n = self.events.len();
        event.log_index = n as i64;
        let h = compute_event_hash(event);
        proof {
            crate::hex::lemma_hex_of_lower(
                crate::digest::sha256_digest(seq![0x00u8] + canonical_event_bytes(event@)),
            );
        }
        match h {
            Ok(h) => {
                event.event_hash = h;
            },
            Err(e) => {
                return Err(e);
            },
        }
        let ghost before = self@;
        let c = copy_event(event);
        self.events.push(c);
        proof {
            assert(self@ =~= before.push(event@));
            assert(event@.event_hash == event_hash_of(event@));
        }
        Ok(())
    }

    /// The number of events.
    pub fn count(&self) -> (r: KernelResult<i64>)
        requires
            self.wf(),
        ensures
            r matches Ok(n) && n == self@.len(),
    {
        Ok(self.events.len() as i64)
    }

    /// The events that pass a query, newest first, at most `limit` of them
    /// (all for a negative limit).
    pub fn query(&self, actor: Option<&str>, before: Option<i64>, after: Option<i64>, limit: i64) -> (r:
        Vec<EventRecord>)
        ensures
            r@.map_values(|e: EventRecord| e@) == take_limit(
                newest_first(self@, actor_filter(actor), before, after),
                limit,
            ),
    {
        let ghost s = self@;
        let ghost act = actor_filter(actor);
        let n = self.events.len();
        let mut out: Vec<EventRecord> = Vec::new();
        let mut j: usize = n;
        while j > 0
            invariant
                j <= n,
                n == self.events@.len(),
                s == self@,
                act == actor_filter(actor),
                out@.map_values(|e: EventRecord| e@) == take_limit(
                    newest_first(s.subrange(j as int, n as int), act, before, after),
                    limit,
                ),
            decreases j,
        {
            let ghost prev = newest_first(s.subrange(j as int, n as int), act, before, after);
            j = j - 1;
            proof {
                assert(s.subrange(j as int, n as int).drop_first() =~= s.subrange(
                    j + 1,
                    n as int,
                ));
                assert(s.subrange(j as int, n as int)[0] == s[j as int]);
                assert(s[j as int] == self.events@[j as int]@);
            }
            let e = &self.events[j];
            let keep = (match actor {
                Some(a) => str_eq(e.actor_id.as_str(), a),
                None => true,
            }) && (match before {
                Some(b) => e.log_index < b,
                None => true,
            }) && (match after {
                Some(a) => e.log_index > a,
                None => true,
            });
            let room = limit < 0 || (out.len() as i64) < limit;
            if keep && room {
                let ghost outv = out@.map_values(|e: EventRecord| e@);
                let c = copy_event(&self.events[j]);
                out.push(c);
                proof {
                    assert(out@.map_values(|e: EventRecord| e@) =~= outv.push(s[j as int]));
                    assert(take_limit(newest_first(s.subrange(j as int, n as int), act, before, after), limit)
                        =~= take_limit(prev, limit).push(s[j as int]));
                }
            } else {
                proof {
                    if keep {
                        assert(take_limit(newest_first(s.subrange(j as int, n as int), act, before, after), limit)
                            =~= take_limit(prev, limit));
                    }
                }
            }
        }
        proof {
            assert(s.subrange(0, n as int) =~= s);
        }
        out
    }

    /// The most recent events, newest first; a negative limit means all.
    pub fn list_recent(&self, limit: i64) -> (r: KernelResult<Vec<EventRecord>>)
        ensures
            r matches Ok(v) && v@.map_values(|e: EventRecord| e@) == take_limit(
                newest_first(self@, None, None, None),
                limit,
            ),
    {
        Ok(self.query(None, None, None, limit))
    }

    /// The most recent events of one actor, newest first; a negative limit means all.
    pub fn list_by_actor(&self, actor_id: &str, limit: i64) -> (r: KernelResult<Vec<EventRecord>>)
        ensures
            r matches Ok(v) && v@.map_values(|e: EventRecord| e@) == take_limit(
                newest_first(self@, Some(actor_id@), None, None),
                limit,
            ),
    {
        Ok(self.query(Some(actor_id), None, None, limit))
    }
}

/// Appending keeps every earlier event where it was: the log before the
/// append is a prefix of the log after it.
pub proof fn law_append_only(before: Seq<EventView>, e: EventView)
    ensures
        before.push(e).take(before.len() as int) == before,
        before.push(e).len() == before.len() + 1,
{
    assert(before.push(e).take(before.len() as int) =~= before);
}

/// Every event of a query's answer is an event of the log that passes the
/// query.
proof fn lemma_newest_first_members(
    s: Seq<EventView>,
    actor: Option<Seq<char>>,
    before: Option<i64>,
    after: Option<i64>,
)
    ensures
        forall|i: int|
            0 <= i < newest_first(s, actor, before, after).len() ==> s.contains(
                #[trigger] newest_first(s, actor, before, after)[i],
            ) && query_keeps(newest_first(s, actor, before, after)[i], actor, before, after),
    decreases s.len(),
{
    if s.len() > 0 {
        let t = s.drop_first();
        lemma_newest_first_members(t, actor, before, after);
        let rest = newest_first(t, actor, before, after);
        let r = newest_first(s, actor, before, after);
        assert forall|i: int| 0 <= i < r.len() implies s.contains(#[trigger] r[i]) && query_keeps(
            r[i],
            actor,
            before,
            after,
        ) by {
            if i < rest.len() {
                assert(r[i] == rest[i]);
                assert(t.contains(rest[i]));
                let j = choose|j: int| 0 <= j < t.len() && t[j] == rest[i];
                assert(s[j + 1] == t[j]);
            } else {
                assert(r[i] == s[0]);
            }
        }
    }
}

/// A page of the events query holds only events of the log that pass its
/// filters: strictly before `before` (so the page after a cursor never
/// repeats the cursor's event), strictly after `after`, and of the actor
/// asked for.
pub proof fn law_query_page_within_bounds(
    s: Seq<EventView>,
    actor: Option<Seq<char>>,
    before: Option<i64>,
    after: Option<i64>,
    limit: i64,
)
    ensures
        forall|i: int|
            0 <= i < take_limit(newest_first(s, actor, before, after), limit).len() ==> {
                let e = #[trigger] take_limit(newest_first(s, actor, before, after), limit)[i];
                &&& s.contains(e)
                &&& before matches Some(b) ==> e.log_index < b
                &&& after matches Some(a) ==> e.log_index > a
                &&& actor matches Some(x) ==> e.actor_id == x
            },
{
    lemma_newest_first_members(s, actor, before, after);
    let r = newest_first(s, actor, before, after);
    assert forall|i: int| 0 <= i < take_limit(r, limit).len() implies take_limit(r, limit)[i] == r[i] by {}
}

/// Whether log indexes strictly increase along a sequence of events.
pub open spec fn indexes_increase(s: Seq<EventView>) -> bool {
    forall|i: int, j: int| 0 <= i < j < s.len() ==> (#[trigger] s[i]).log_index < (#[trigger] s[j]).log_index
}

/// In a well-formed log each event sits at its own index, so indexes
/// increase along it.
pub proof fn lemma_log_indexes_increase(s: Seq<EventView>)
    requires
        log_wf(s),
    ensures
        indexes_increase(s),
{
    assert forall|i: int, j: int| 0 <= i < j < s.len() implies (#[trigger] s[i]).log_index < (#[trigger] s[j]).log_index by {
        assert(s[i].log_index == i && s[j].log_index == j);
    }
}

proof fn lemma_newest_first_order(
    s: Seq<EventView>,
    actor: Option<Seq<char>>,
    before: Option<i64>,
    after: Option<i64>,
)
    requires
        indexes_increase(s),
    ensures
        forall|i: int, j: int|
            0 <= i < j < newest_first(s, actor, before, after).len() ==> (#[trigger] newest_first(
                s,
                actor,
                before,
                after,
            )[i]).log_index > (#[trigger] newest_first(s, actor, before, after)[j]).log_index,
    decreases s.len(),
{
    if s.len() > 0 {
        let t = s.drop_first();
        assert forall|i: int, j: int| 0 <= i < j < t.len() implies (#[trigger] t[i]).log_index < (#[trigger] t[j]).log_index by {
            assert(t[i] == s[i + 1] && t[j] == s[j + 1]);
        }
        lemma_newest_first_order(t, actor, before, after);
        lemma_newest_first_members(t, actor, before, after);
        let rest = newest_first(t, actor, before, after);
        let r = newest_first(s, actor, before, after);
        assert forall|i: int, j: int| 0 <= i < j < r.len() implies (#[trigger] r[i]).log_index > (#[trigger] r[j]).log_index by {
            if j < rest.len() {
                assert(r[i] == rest[i] && r[j] == rest[j]);
            } else {
                assert(r[i] == rest[i]);
                assert(t.contains(rest[i]));
                let k = choose|k: int| 0 <= k < t.len() && t[k] == rest[i];
                assert(s[k + 1] == t[k]);
                assert(r[j] == s[0]);
            }
        }
    }
}

proof fn lemma_newest_first_complete(
    s: Seq<EventView>,
    actor: Option<Seq<char>>,
    before: Option<i64>,
    after: Option<i64>,
)
    ensures
        forall|j: int|
            0 <= j < s.len() && (actor matches Some(x) ==> s[j].actor_id == x) && (before matches Some(b) ==> s[j].log_index
                < b) && (after matches Some(a) ==> s[j].log_index > a) ==> newest_first(s, actor, before, after).contains(
                #[trigger] s[j],
            ),
    decreases s.len(),
{
    if s.len() > 0 {
        let t = s.drop_first();
        lemma_newest_first_complete(t, actor, before, after);
        let rest = newest_first(t, actor, before, after);
        let r = newest_first(s, actor, before, after);
        assert forall|j: int|
            0 <= j < s.len() && (actor matches Some(x) ==> s[j].actor_id == x) && (before matches Some(b) ==> s[j].log_index
                < b) && (after matches Some(a) ==> s[j].log_index > a) implies r.contains(#[trigger] s[j]) by {
            if j == 0 {
                assert(r.last() == s[0]);
                assert(r[r.len() - 1] == s[0]);
            } else {
                assert(t[j - 1] == s[j]);
                assert(rest.contains(s[j]));
                let k = choose|k: int| 0 <= k < rest.len() && rest[k] == s[j];
                if query_keeps(s[0], actor, before, after) {
                    assert(r[k] == rest[k]);
                }
            }
        }
    }
}

/// The events query answers newest first, and completely: over a log whose
/// indexes increase, a page lists events with strictly decreasing log
/// indexes, holds at most `limit` events when a limit is given, and with no
/// limit holds every event of the actor asked for that lies strictly between
/// `after` and `before`.
pub proof fn law_query_newest_first_complete(
    s: Seq<EventView>,
    actor: Option<Seq<char>>,
    before: Option<i64>,
    after: Option<i64>,
    limit: i64,
)
    requires
        indexes_increase(s),
    ensures
        forall|i: int, j: int|
            0 <= i < j < take_limit(newest_first(s, actor, before, after), limit).len() ==> (#[trigger] take_limit(
                newest_first(s, actor, before, after),
                limit,
            )[i]).log_index > (#[trigger] take_limit(newest_first(s, actor, before, after), limit)[j]).log_index,
        limit >= 0 ==> take_limit(newest_first(s, actor, before, after), limit).len() <= limit,
        limit < 0 ==> forall|j: int|
            0 <= j < s.len() && (actor matches Some(x) ==> s[j].actor_id == x) && (before matches Some(b) ==> s[j].log_index
                < b) && (after matches Some(a) ==> s[j].log_index > a) ==> take_limit(
                newest_first(s, actor, before, after),
                limit,
            ).contains(#[trigger] s[j]),
{
    lemma_newest_first_order(s, actor, before, after);
    lemma_newest_first_complete(s, actor, before, after);
    let r = newest_first(s, actor, before, after);
    let p = take_limit(r, limit);
    assert forall|i: int, j: int| 0 <= i < j < p.len() implies (#[trigger] p[i]).log_index > (#[trigger] p[j]).log_index by {
        assert(p[i] == r[i] && p[j] == r[j]);
    }
}

/// The JSON form of an event, keys in codepoint order.
pub open spec fn event_json(e: EventView) -> JsonView {
    JsonView::Object(
        seq![
            ("action_type"@, JsonView::String(e.action_type)),
            ("actor_id"@, JsonView::String(e.actor_id)),
            ("artifact_hash"@, match e.artifact_hash {
                Some(a) => JsonView::String(a),
                None => JsonView::Null,
            }),
            ("event_hash"@, JsonView::String(e.event_hash)),
            ("id"@, JsonView::String(e.id)),
            ("log_index"@, JsonView::Number(crate::json::i64_number_view(e.log_index))),
            ("payload"@, e.payload),
            ("payload_hash"@, JsonView::String(e.payload_hash)),
            ("reserved_energy"@, JsonView::Number(crate::json::i64_number_view(e.reserved_energy))),
            ("settled_energy"@, JsonView::Number(crate::json::i64_number_view(e.settled_energy))),
            ("target"@, JsonView::String(e.target)),
            ("timestamp"@, JsonView::String(e.timestamp)),
        ],
    )
}

impl EventRecord {
    /// The JSON form of an event.
    pub open spec fn spec_json(&self) -> JsonView {
        event_json(self@)
    }

    /// The JSON form of an event.
    pub fn to_json(&self) -> (r: JsonValue)
        ensures
            r@ == self.spec_json(),
    {
        let es = vec![
            crate::json::entry("action_type", crate::json::json_str(self.action_type.as_str())),
            crate::json::entry("actor_id", crate::json::json_str(self.actor_id.as_str())),
            crate::json::entry("artifact_hash", crate::json::json_opt_str(&self.artifact_hash)),
            crate::json::entry("event_hash", crate::json::json_str(self.event_hash.as_str())),
            crate::json::entry("id", crate::json::json_str(self.id.as_str())),
            crate::json::entry("log_index", crate::json::json_i64(self.log_index)),
            crate::json::entry("payload", copy_value(&self.payload)),
            crate::json::entry("payload_hash", crate::json::json_str(self.payload_hash.as_str())),
            crate::json::entry("reserved_energy", crate::json::json_i64(self.reserved_energy)),
            crate::json::entry("settled_energy", crate::json::json_i64(self.settled_energy)),
            crate::json::entry("target", crate::json::json_str(self.target.as_str())),
            crate::json::entry("timestamp", crate::json::json_str(self.timestamp.as_str())),
        ];
        let r = crate::json::json_object(es);
        proof {
            assert(Seq::new(es@.len(), |i: int| (es@[i].0@, es@[i].1@)) =~= event_json(self@)->Object_0);
        }
        r
    }
}

} // verus!

