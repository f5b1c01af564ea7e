//! Reading the special requests carried by actions: actor and envelope
//! creation, hold responses, policy versions, and execute payloads.
use crate::action::{Action, ActionType};
use crate::actor::{build_lineage, derive_agent_id, ActorType, CreateActorSpec, WritableTarget};
use crate::actor_store::{actor_index, count_prefixed, has_actor, ActorStore};
use crate::boundary::{child_targets_within, validate_child_targets};
use crate::consent::{validate_envelope_reduction, EnvelopeRecord, EnvelopeSpec, HoldRule};
use crate::errors::{KernelError, KernelResult};
use crate::hex::hex_value;
use crate::json::{JsonNumber, JsonValue};
use crate::text::{contains_text, push_i64, push_str, push_u64, starts_with, str_eq};
use vstd::prelude::*;
use vstd::string::*;

verus! {

/// How a deserializer names a JSON value it found.
pub open spec fn description(v: JsonValue) -> Seq<char> {
    match v {
        JsonValue::Null => "null"@,
        JsonValue::Bool(b) => if b {
            "boolean `true`"@
        } else {
            "boolean `false`"@
        },
        JsonValue::Number(JsonNumber::PosInt(u)) => "integer `"@ + crate::text::decimal_chars(u as nat)
            + "`"@,
        JsonValue::Number(JsonNumber::NegInt(i)) => "integer `"@ + crate::text::int_text(i as int) + "`"@,
        JsonValue::Number(JsonNumber::Float(t)) => "floating point `"@ + t@ + "`"@,
        JsonValue::String(t) => "string \""@ + t@ + "\""@,
        JsonValue::Array(_) => "sequence"@,
        JsonValue::Object(_) => "map"@,
    }
}

/// Describes a JSON value the way a deserializer names what it found.
fn describe(v: &JsonValue) -> (r: String)
    ensures
        r@ == description(*v),
{
    let mut s = String::new();
    match v {
        JsonValue::Null => push_str(&mut s, "null"),
        JsonValue::Bool(b) => {
            push_str(&mut s, if *b {
                "boolean `true`"
            } else {
                "boolean `false`"
            });
        },
        JsonValue::Number(JsonNumber::PosInt(u)) => {
            push_str(&mut s, "integer `");
            push_u64(&mut s, *u);
            push_str(&mut s, "`");
        },
        JsonValue::Number(JsonNumber::NegInt(i)) => {
            push_str(&mut s, "integer `");
            push_i64(&mut s, *i);
            push_str(&mut s, "`");
        },
        JsonValue::Number(JsonNumber::Float(t)) => {
            push_str(&mut s, "floating point `");
            push_str(&mut s, t.as_str());
            push_str(&mut s, "`");
        },
        JsonValue::String(t) => {
            push_str(&mut s, "string \"");
            push_str(&mut s, t.as_str());
            push_str(&mut s, "\"");
        },
        JsonValue::Array(_) => push_str(&mut s, "sequence"),
        JsonValue::Object(_) => push_str(&mut s, "map"),
    }
    s
}

fn invalid_type(v: &JsonValue, expected: &str) -> (r: String)
    ensures
        r@ == "invalid type: "@ + description(*v) + ", expected "@ + expected@,
{
    let mut s = String::new();
    push_str(&mut s, "invalid type: ");
    let d = describe(v);
    push_str(&mut s, d.as_str());
    push_str(&mut s, ", expected ");
    push_str(&mut s, expected);
    s
}

/// The strings of a JSON array of strings; `None` for anything else.
pub open spec fn strings_of(v: JsonValue) -> Option<Seq<Seq<char>>> {
    match v {
        JsonValue::Array(items) => if forall|i: int|
            0 <= i < items@.len() ==> (#[trigger] items@[i]) is String {
            Some(Seq::new(items@.len(), |i: int| items@[i]->String_0@))
        } else {
            None
        },
        _ => None,
    }
}

/// Reads a JSON array of strings.
pub fn strings_from_json(v: &JsonValue) -> (r: Result<Vec<String>, String>)
    ensures
        match strings_of(*v) {
            Some(ss) => r matches Ok(out) && out@.len() == ss.len() && forall|i: int|
                0 <= i < ss.len() ==> (#[trigger] out@[i])@ == ss[i],
            None => r is Err,
        },
{
    match v {
        JsonValue::Array(items) => {
            let mut out: Vec<String> = Vec::new();
            let mut i: usize = 0;
            while i < items.len()
                invariant
                    *v == JsonValue::Array(*items),
                    i <= items@.len(),
                    out@.len() == i,
                    forall|k: int| 0 <= k < i ==> (#[trigger] items@[k]) is String,
                    forall|k: int| 0 <= k < i ==> (#[trigger] out@[k])@ == items@[k]->String_0@,
                decreases items@.len() - i,
            {
                match &items[i] {
                    JsonValue::String(s) => out.push(s.clone()),
                    other => {
                        return Err(invalid_type(other, "a string"));
                    },
                }
                i = i + 1;
            }
            Ok(out)
        },
        other => Err(invalid_type(other, "a sequence")),
    }
}

/// A `{target, actions}` rule read from a JSON object: `target` a string and
/// `actions` an array of strings (other keys ignored).
pub open spec fn rule_of(v: JsonValue) -> Option<(Seq<char>, Seq<Seq<char>>)> {
    match v {
        JsonValue::Object(_) => match (v.spec_get("target"@), v.spec_get("actions"@)) {
            (Some(JsonValue::String(t)), Some(a)) => match strings_of(a) {
                Some(acts) => Some((t@, acts)),
                None => None,
            },
            _ => None,
        },
        _ => None,
    }
}

/// The rules of a JSON array of rule objects; `None` for anything else.
pub open spec fn rules_of(v: JsonValue) -> Option<Seq<(Seq<char>, Seq<Seq<char>>)>> {
    match v {
        JsonValue::Array(items) => if forall|i: int|
            0 <= i < items@.len() ==> rule_of(#[trigger] items@[i]) is Some {
            Some(Seq::new(items@.len(), |i: int| rule_of(items@[i])->0))
        } else {
            None
        },
        _ => None,
    }
}

fn rule_from_json(v: &JsonValue, what: &str) -> (r: Result<(String, Vec<String>), String>)
    ensures
        match rule_of(*v) {
            Some((t, acts)) => r matches Ok((rt, ra)) && rt@ == t && ra@.len() == acts.len()
                && forall|i: int| 0 <= i < acts.len() ==> (#[trigger] ra@[i])@ == acts[i],
            None => r is Err,
        },
{
    match v {
        JsonValue::Object(_) => {
            let target = match v.get("target") {
                Some(JsonValue::String(t)) => t.clone(),
                Some(other) => {
                    return Err(invalid_type(other, "a string"));
                },
                None => {
                    return Err(String::from_str("missing field `target`"));
                },
            };
            let actions = match v.get("actions") {
                Some(a) => strings_from_json(a),
                None => {
                    return Err(String::from_str("missing field `actions`"));
                },
            };
            match actions {
                Ok(acts) => Ok((target, acts)),
                Err(e) => Err(e),
            }
        },
        other => Err(invalid_type(other, what)),
    }
}

/// Reads a JSON array of `{target, actions}` objects.
pub fn rules_from_json(v: &JsonValue, what: &str) -> (r: Result<Vec<(String, Vec<String>)>, String>)
    ensures
        match rules_of(*v) {
            Some(rs) => r matches Ok(out) && out@.len() == rs.len() && forall|i: int|
                0 <= i < rs.len() ==> (#[trigger] out@[i]).0@ == rs[i].0 && out@[i].1@.len()
                    == rs[i].1.len() && forall|k: int|
                    0 <= k < rs[i].1.len() ==> (#[trigger] out@[i].1@[k])@ == rs[i].1[k],
            None => r is Err,
        },
{
    match v {
        JsonValue::Array(items) => {
            let mut out: Vec<(String, Vec<String>)> = Vec::new();
            let mut i: usize = 0;
            while i < items.len()
                invariant
                    *v == JsonValue::Array(*items),
                    i <= items@.len(),
                    out@.len() == i,
                    forall|k: int| 0 <= k < i ==> rule_of(#[trigger] items@[k]) is Some,
                    forall|k: int|
                        0 <= k < i ==> (#[trigger] out@[k]).0@ == (rule_of(items@[k])->0).0
                            && out@[k].1@.len() == (rule_of(items@[k])->0).1.len() && forall|m: int|
                            0 <= m < (rule_of(items@[k])->0).1.len() ==> (#[trigger] out@[k].1@[m])@
                                == (rule_of(items@[k])->0).1[m],
                decreases items@.len() - i,
            {
                match rule_from_json(&items[i], what) {
                    Ok(rule) => out.push(rule),
                    Err(e) => {
                        return Err(e);
                    },
                }
                i = i + 1;
            }
            Ok(out)
        },
        other => Err(invalid_type(other, "a sequence")),
    }
}

/// The policy version carried by a `create` on `system/policy`: its payload's
/// `version` string.
pub open spec fn policy_version_of(action: Action) -> Option<Seq<char>> {
    if action.action_type == ActionType::Create && action.target@ == "system/policy"@ {
        match action.payload.spec_get("version"@) {
            Some(v) => v.spec_as_str(),
            None => None,
        }
    } else {
        None
    }
}

/// Extracts the policy version of a `system/policy` creation.
pub fn parse_policy_version(action: &Action) -> (r: Option<String>)
    ensures
        r is None <==> policy_version_of(*action) is None,
        r matches Some(v) ==> policy_version_of(*action) == Some(v@),
{
    if action.action_type != ActionType::Create || !str_eq(action.target.as_str(), "system/policy") {
        return None;
    }
    match action.payload.get("version") {
        Some(v) => match v.as_str() {
            Some(s) => Some(String::from_str(s)),
            None => None,
        },
        None => None,
    }
}

/// A hold response named by a `ledger/hold/{hold_id}` target: the hold id (a
/// non-empty segment without `/`), the decision (`approve` or `reject`), and
/// the optional instruction.
pub open spec fn hold_response_of(target: Seq<char>, payload: JsonValue) -> Option<
    (Seq<char>, Seq<char>, Option<Seq<char>>),
> {
    let prefix = "ledger/hold/"@;
    if prefix.len() <= target.len() && target.take(prefix.len() as int) == prefix {
        let rest = target.skip(prefix.len() as int);
        if rest.len() == 0 || rest.contains('/') {
            None
        } else {
            match payload.spec_get("decision"@) {
                Some(d) => match d.spec_as_str() {
                    Some(dec) => if dec == "approve"@ || dec == "reject"@ {
                        let instruction = match payload.spec_get("instruction"@) {
                            Some(i) => i.spec_as_str(),
                            None => None,
                        };
                        Some((rest, dec, instruction))
                    } else {
                        None
                    },
                    None => None,
                },
                None => None,
            }
        }
    } else {
        None
    }
}

/// Parses a `ledger/hold/{hold_id}` target with a `decision` payload.
pub fn parse_hold_response(target: &str, payload: &JsonValue) -> (r: Option<(String, String, Option<String>)>)
    ensures
        r is None <==> hold_response_of(target@, *payload) is None,
        r matches Some((h, d, i)) ==> hold_response_of(target@, *payload) == Some(
            (
                h@,
                d@,
                match i {
                    Some(t) => Some(t@),
                    None => None,
                },
            ),
        ),
{
    proof {
        reveal_strlit("ledger/hold/");
    }
    if !starts_with(target, "ledger/hold/") {
        return None;
    }
    let chars = crate::text::chars_of(target);
    let rest_chars = vstd::slice::slice_subrange(chars.as_slice(), 12, chars.len());
    let ghost rest = target@.skip(12);
    proof {
        assert(rest_chars@ =~= rest);
    }
    if rest_chars.len() == 0 {
        return None;
    }
    let mut k: usize = 0;
    while k < rest_chars.len()
        invariant
            k <= rest_chars@.len(),
            rest_chars@ == rest,
            rest.len() > 0,
            "ledger/hold/"@.len() == 12,
            12 <= target@.len(),
            target@.take(12) == "ledger/hold/"@,
            rest == target@.skip(12),
            forall|j: int| 0 <= j < k ==> rest[j] != '/',
        decreases rest_chars@.len() - k,
    {
        if rest_chars[k] == '/' {
            proof {
                assert(rest.contains('/')) by {
                    assert(rest[k as int] == '/');
                }
            }
            return None;
        }
        k = k + 1;
    }
    proof {
        if rest.contains('/') {
            let j = choose|j: int| 0 <= j < rest.len() && rest[j] == '/';
            assert(rest[j] != '/');
        }
    }
    let hold_id = crate::text::string_from_chars(rest_chars);
    let decision = match payload.get("decision") {
        Some(d) => match d.as_str() {
            Some(s) => s,
            None => {
                return None;
            },
        },
        None => {
            return None;
        },
    };
    if !str_eq(decision, "approve") && !str_eq(decision, "reject") {
        return None;
    }
    let instruction = match payload.get("instruction") {
        Some(i) => match i.as_str() {
            Some(s) => Some(String::from_str(s)),
            None => None,
        },
        None => None,
    };
    Some((hold_id, String::from_str(decision), instruction))
}

/// Whether a character is an ASCII hex digit.
pub open spec fn is_hex_char(c: char) -> bool {
    ('0' <= c <= '9') || ('a' <= c <= 'f') || ('A' <= c <= 'F')
}

/// An object id `sha256:` followed by 64 hex digits.
pub open spec fn oid_shape(s: Seq<char>) -> bool {
    s.len() == 71 && s.take(7) == "sha256:"@ && forall|i: int| 7 <= i < 71 ==> #[trigger] is_hex_char(s[i])
}

pub open spec fn str_field(payload: JsonValue, field: Seq<char>) -> Option<Seq<char>> {
    match payload.spec_get(field) {
        Some(v) => v.spec_as_str(),
        None => None,
    }
}

/// Reads `field` of an execute payload and checks that it is an object id
/// `sha256:<64 hex chars>`.
pub fn require_valid_oid(payload: &JsonValue, field: &str) -> (r: KernelResult<String>)
    ensures
        str_field(*payload, field@) is None ==> (r matches Err(KernelError::ExecutePayloadInvalid(d))
            && d@ == "missing "@ + field@),
        str_field(*payload, field@) matches Some(v) ==> (match r {
            Ok(s) => s@ == v && oid_shape(v),
            Err(KernelError::ExecutePayloadInvalid(d)) => !oid_shape(v) && (d@ == field@
                + " must be sha256:<64 hex chars>, got: "@ + v || d@ == field@
                + " contains non-hex characters: "@ + v),
            _ => false,
        }),
        r is Ok <==> (str_field(*payload, field@) matches Some(v) && oid_shape(v)),
{
    proof {
        reveal_strlit("sha256:");
    }
    let val = match payload.get(field) {
        Some(v) => match v.as_str() {
            Some(s) => s,
            None => {
                let mut d = String::new();
                push_str(&mut d, "missing ");
                push_str(&mut d, field);
                return Err(KernelError::ExecutePayloadInvalid(d));
            },
        },
        None => {
            let mut d = String::new();
            push_str(&mut d, "missing ");
            push_str(&mut d, field);
            return Err(KernelError::ExecutePayloadInvalid(d));
        },
    };
    let chars = crate::text::chars_of(val);
    if !starts_with(val, "sha256:") || val.as_bytes().len() != 71 {
        proof {
            if oid_shape(val@) {
                assert forall|i: int| 0 <= i < val@.len() implies '\0' <= #[trigger] val@[i] <= '\u{7f}' by {
                    if i >= 7 {
                        assert(is_hex_char(val@[i]));
                    } else {
                        assert(val@[i] == "sha256:"@[i]);
                    }
                }
                vstd::utf8::is_ascii_chars_encode_utf8(val@);
            }
        }
        let mut d = String::new();
        push_str(&mut d, field);
        push_str(&mut d, " must be sha256:<64 hex chars>, got: ");
        push_str(&mut d, val);
        return Err(KernelError::ExecutePayloadInvalid(d));
    }
    let mut i: usize = 7;
    while i < chars.len()
        invariant
            chars@ == val@,
            7 <= i <= chars@.len(),
            forall|j: int| 7 <= j < i ==> #[trigger] is_hex_char(chars@[j]),
            str_field(*payload, field@) == Some(val@),
            "sha256:"@.len() == 7,
            val@.take(7) == "sha256:"@,
            val.spec_bytes().len() == 71,
        decreases chars@.len() - i,
    {
        let c = chars[i];
        if !(('0' <= c && c <= '9') || ('a' <= c && c <= 'f') || ('A' <= c && c <= 'F')) {
            proof {
                if oid_shape(val@) {
                    assert(is_hex_char(val@[i as int]));
                }
            }
            let mut d = String::new();
            push_str(&mut d, field);
            push_str(&mut d, " contains non-hex characters: ");
            push_str(&mut d, val);
            return Err(KernelError::ExecutePayloadInvalid(d));
        }
        i = i + 1;
    }
    proof {
        // All characters are ASCII, so the byte length is the character length.
        assert forall|j: int| 0 <= j < val@.len() implies '\0' <= #[trigger] val@[j] <= '\u{7f}' by {
            if j >= 7 {
                assert(is_hex_char(chars@[j]));
            } else {
                assert(val@[j] == "sha256:"@[j]);
            }
        }
        vstd::utf8::is_ascii_chars_encode_utf8(val@);
    }
    Ok(String::from_str(val))
}

/// Whether an execute payload is complete: input, output and artifact object
/// ids, and an integer exit code.
pub open spec fn execute_payload_valid(payload: JsonValue) -> bool {
    &&& (str_field(payload, "input_oid"@) matches Some(v) && oid_shape(v))
    &&& (str_field(payload, "output_oid"@) matches Some(v) && oid_shape(v))
    &&& (match payload.spec_get("exit_code"@) {
        Some(c) => c.spec_as_i64() is Some,
        None => false,
    })
    &&& (str_field(payload, "artifact_hash"@) matches Some(v) && oid_shape(v))
}

/// Validates an execute payload (checked in the order input, output, exit
/// code, artifact) and returns its artifact hash.
pub fn validate_execute_payload(payload: &JsonValue) -> (r: KernelResult<String>)
    ensures
        r is Ok <==> execute_payload_valid(*payload),
        r matches Ok(h) ==> str_field(*payload, "artifact_hash"@) == Some(h@),
        r matches Err(e) ==> e is ExecutePayloadInvalid,
        (str_field(*payload, "input_oid"@) matches Some(v) && oid_shape(v)) && (str_field(
            *payload,
            "output_oid"@,
        ) matches Some(v) && oid_shape(v)) && !(match payload.spec_get("exit_code"@) {
            Some(c) => c.spec_as_i64() is Some,
            None => false,
        }) ==> (r matches Err(KernelError::ExecutePayloadInvalid(d))
            && d@ == "missing or invalid exit_code (must be integer)"@),
{
    match require_valid_oid(payload, "input_oid") {
        Ok(_) => {},
        Err(e) => {
            return Err(e);
        },
    }
    match require_valid_oid(payload, "output_oid") {
        Ok(_) => {},
        Err(e) => {
            return Err(e);
        },
    }
    let code_ok = match payload.get("exit_code") {
        Some(c) => c.as_i64().is_some(),
        None => false,
    };
    if !code_ok {
        return Err(
            KernelError::ExecutePayloadInvalid(
                String::from_str("missing or invalid exit_code (must be integer)"),
            ),
        );
    }
    require_valid_oid(payload, "artifact_hash")
}

/// The string under `key`, or `default` when absent or not a string.
pub open spec fn str_or(payload: JsonValue, key: Seq<char>, default: Seq<char>) -> Seq<char> {
    match str_field(payload, key) {
        Some(v) => v,
        None => default,
    }
}

/// The integer under `key`, or `default` when absent or not an integer.
pub open spec fn i64_or(payload: JsonValue, key: Seq<char>, default: i64) -> i64 {
    match payload.spec_get(key) {
        Some(v) => match v.spec_as_i64() {
            Some(n) => n,
            None => default,
        },
        None => default,
    }
}

/// The integer under `key`, if there is one.
pub open spec fn i64_field(payload: JsonValue, key: Seq<char>) -> Option<i64> {
    match payload.spec_get(key) {
        Some(v) => v.spec_as_i64(),
        None => None,
    }
}

fn str_or_exec<'a>(payload: &'a JsonValue, key: &str, default: &'a str) -> (r: &'a str)
    ensures
        r@ == str_or(*payload, key@, default@),
{
    match payload.get(key) {
        Some(v) => match v.as_str() {
            Some(s) => s,
            None => default,
        },
        None => default,
    }
}

fn i64_field_exec(payload: &JsonValue, key: &str) -> (r: Option<i64>)
    ensures
        r == i64_field(*payload, key@),
{
    match payload.get(key) {
        Some(v) => v.as_i64(),
        None => None,
    }
}

/// Whether the action asks to create an actor.
pub open spec fn is_actor_creation(action: Action) -> bool {
    action.action_type == ActionType::Create && action.target@ == "ledger/actor"@
}

/// The creator's type: that of its record, or human for a creator without one.
pub open spec fn creator_type_of(store: Seq<crate::actor::ActorRecord>, creator: Seq<char>) -> ActorType {
    if has_actor(store, creator) {
        store[actor_index(store, creator)].actor_type
    } else {
        ActorType::Human
    }
}

/// The new actor's id: the explicit `actor_id`, or one derived from the
/// creator, the purpose, and the next sequence number.
pub open spec fn new_actor_id(action: Action, store: Seq<crate::actor::ActorRecord>) -> Seq<char> {
    let purpose = str_or(action.payload, "purpose"@, "legacy"@);
    match str_field(action.payload, "actor_id"@) {
        Some(id) => id,
        None => crate::actor::agent_id_of(
            action.actor_id@,
            purpose,
            (count_prefixed(store, action.actor_id@ + "/"@ + purpose + "/"@) + 1) as i64,
        ),
    }
}

fn to_targets(rules: Vec<(String, Vec<String>)>) -> (r: Vec<WritableTarget>)
    ensures
        r@.len() == rules@.len(),
        forall|i: int|
            0 <= i < rules@.len() ==> (#[trigger] r@[i]).target == rules@[i].0 && r@[i].actions
                == rules@[i].1,
{
    let mut out: Vec<WritableTarget> = Vec::new();
    let mut rest = rules;
    let ghost all = rest@;
    while rest.len() > 0
        invariant
            out@.len() + rest@.len() == all.len(),
            rest@ == all.skip(out@.len() as int),
            forall|i: int|
                0 <= i < out@.len() ==> (#[trigger] out@[i]).target == all[i].0 && out@[i].actions
                    == all[i].1,
        decreases rest@.len(),
    {
        let ghost k: int = out@.len() as int;
        let (t, a) = rest.remove(0);
        out.push(WritableTarget { target: t, actions: a });
        proof {
            assert(rest@ =~= all.skip(k + 1 as int));
        }
    }
    out
}

/// Whether a parent target contains a requested rule: its pattern and all
/// its actions.
pub open spec fn target_allows(t: WritableTarget, rule: (Seq<char>, Seq<Seq<char>>)) -> bool {
    &&& crate::boundary::covers(t.target@, rule.0)
    &&& forall|a: int| 0 <= a < rule.1.len() ==> contains_text(t.actions@, #[trigger] rule.1[a])
}

/// Whether some parent target contains a requested rule.
pub open spec fn rule_within(parent: Seq<WritableTarget>, rule: (Seq<char>, Seq<Seq<char>>)) -> bool {
    exists|j: int| 0 <= j < parent.len() && target_allows(#[trigger] parent[j], rule)
}

/// Whether every requested rule lies within the parent's boundary.
pub open spec fn rules_within(parent: Seq<WritableTarget>, rs: Seq<(Seq<char>, Seq<Seq<char>>)>) -> bool {
    forall|i: int| 0 <= i < rs.len() ==> rule_within(parent, #[trigger] rs[i])
}

proof fn lemma_rules_within(parent: Seq<WritableTarget>, ts: Seq<WritableTarget>, rs: Seq<(Seq<char>, Seq<Seq<char>>)>)
    requires
        ts.len() == rs.len(),
        forall|i: int|
            0 <= i < rs.len() ==> (#[trigger] ts[i]).target@ == rs[i].0 && ts[i].actions@.len() == rs[i].1.len()
                && forall|k: int| 0 <= k < rs[i].1.len() ==> (#[trigger] ts[i].actions@[k])@ == rs[i].1[k],
    ensures
        child_targets_within(parent, ts) == rules_within(parent, rs),
{
    if child_targets_within(parent, ts) {
        assert forall|i: int| 0 <= i < rs.len() implies rule_within(parent, #[trigger] rs[i]) by {
            assert(crate::boundary::child_target_covered(parent, ts[i]));
            let j = choose|j: int|
                0 <= j < parent.len() && crate::boundary::covers(#[trigger] parent[j].target@, ts[i].target@)
                    && crate::boundary::all_contained(ts[i].actions@, parent[j].actions@);
            assert forall|a: int| 0 <= a < rs[i].1.len() implies contains_text(parent[j].actions@, #[trigger] rs[i].1[a]) by {
                assert(ts[i].actions@[a]@ == rs[i].1[a]);
            }
            assert(target_allows(parent[j], rs[i]));
        }
    }
    if rules_within(parent, rs) {
        assert forall|i: int| 0 <= i < ts.len() implies crate::boundary::child_target_covered(parent, #[trigger] ts[i]) by {
            assert(rule_within(parent, rs[i]));
            let j = choose|j: int| 0 <= j < parent.len() && target_allows(#[trigger] parent[j], rs[i]);
            assert forall|a: int| 0 <= a < ts[i].actions@.len() implies contains_text(parent[j].actions@, #[trigger] ts[i].actions@[a]@) by {
                assert(ts[i].actions@[a]@ == rs[i].1[a]);
            }
            assert(crate::boundary::all_contained(ts[i].actions@, parent[j].actions@));
        }
    }
}

/// Whether an actor-creation request is well formed apart from its
/// boundary: the payload is an object with a known actor type, it names the
/// actor or its purpose, an agent does not create an agent, and any
/// `writable_targets` are well formed.
pub open spec fn actor_request_ok(action: Action, store: Seq<crate::actor::ActorRecord>) -> bool {
    let t = ActorType::parse_spec(str_or(action.payload, "actor_type"@, "agent"@));
    &&& is_actor_creation(action)
    &&& action.payload is Object
    &&& t is Some
    &&& !(str_field(action.payload, "actor_id"@) is None && str_or(action.payload, "purpose"@, "legacy"@)
        == "legacy"@)
    &&& !(creator_type_of(store, action.actor_id@) == ActorType::Agent && t == Some(ActorType::Agent))
    &&& (action.payload.spec_get("writable_targets"@) matches Some(v) ==> rules_of(v) is Some)
}

/// Whether an envelope-creation request is well formed up to its budget: an
/// object naming the actor and a positive integer budget.
pub open spec fn envelope_head_ok(action: Action) -> bool {
    &&& is_envelope_creation(action)
    &&& action.payload is Object
    &&& str_field(action.payload, "actor_id"@) is Some
    &&& i64_field(action.payload, "budget"@) matches Some(b) && b > 0
}

/// Whether an envelope-creation request is well formed: its head, lists of
/// strings for `targets` and `actions`, and well-formed `hold_on` rules.
pub open spec fn envelope_request_ok(action: Action) -> bool {
    let p = action.payload;
    &&& envelope_head_ok(action)
    &&& p.spec_get("targets"@) matches Some(t) && strings_of(t) is Some
    &&& p.spec_get("actions"@) matches Some(a) && strings_of(a) is Some
    &&& (p.spec_get("hold_on"@) matches Some(h) ==> rules_of(h) is Some)
}

/// Whether the requested envelope narrows the grantor's envelope `g`: no more
/// budget than `g` has left, and only actions and targets that `g` allows.
pub open spec fn request_narrows(g: EnvelopeRecord, action: Action) -> bool {
    let p = action.payload;
    let ts = strings_of(p.spec_get("targets"@)->0)->0;
    let acts = strings_of(p.spec_get("actions"@)->0)->0;
    &&& i64_field(p, "budget"@)->0 <= g.budget - g.budget_consumed
    &&& forall|i: int| 0 <= i < acts.len() ==> contains_text(g.actions@, #[trigger] acts[i])
    &&& forall|i: int| 0 <= i < ts.len() ==> crate::consent::envelope_target_covered(g.targets@, #[trigger] ts[i])
}

/// Reads the actor-creation request of a `create` on `ledger/actor`.
///
/// The payload gives `actor_id` (else one is derived from `purpose`),
/// `actor_type` (default agent), `purpose` (default `legacy`),
/// `energy_balance` (default 1000), `writable_targets` (default none),
/// `energy_share` (default 0.0) and `reduction_policy` (default `none`).
/// Only humans create agents, and a child's targets must lie within its
/// creator's boundary.
pub fn parse_create_actor_spec(action: &Action, actor_store: &ActorStore) -> (r: KernelResult<
    Option<CreateActorSpec>,
>)
    requires
        actor_store.wf(),
        actor_store@.len() < i64::MAX,
    ensures
        !is_actor_creation(*action) ==> r matches Ok(None),
        is_actor_creation(*action) ==> !(r matches Ok(None)),
        is_actor_creation(*action) && !(action.payload is Object) ==> (r matches Err(
            KernelError::InvalidRequest(d),
        ) && d@ == "seed actor payload must be an object"@),
        is_actor_creation(*action) && action.payload is Object && ActorType::parse_spec(
            str_or(action.payload, "actor_type"@, "agent"@),
        ) is None ==> (r matches Err(KernelError::InvalidRequest(d)) && d@ == "invalid actor_type: "@
            + str_or(action.payload, "actor_type"@, "agent"@)),
        is_actor_creation(*action) && action.payload is Object && ActorType::parse_spec(
            str_or(action.payload, "actor_type"@, "agent"@),
        ) is Some && str_field(action.payload, "actor_id"@) is None && str_or(
            action.payload,
            "purpose"@,
            "legacy"@,
        ) == "legacy"@ ==> (r matches Err(KernelError::InvalidRequest(d)) && d@
            == "actor_id or purpose is required to create an actor"@),
        r matches Ok(Some(spec)) ==> ({
            &&& is_actor_creation(*action)
            &&& action.payload is Object
            &&& ActorType::parse_spec(str_or(action.payload, "actor_type"@, "agent"@)) == Some(
                spec.actor_type,
            )
            &&& spec.actor_id@ == new_actor_id(*action, actor_store@)
            &&& !(creator_type_of(actor_store@, action.actor_id@) == ActorType::Agent
                && spec.actor_type == ActorType::Agent)
            &&& spec.creator_id@ == action.actor_id@
            &&& spec.lineage@.len() == 1 && spec.lineage@[0]@ == action.actor_id@
            &&& spec.purpose matches Some(p) && p@ == str_or(action.payload, "purpose"@, "legacy"@)
            &&& spec.energy_balance == i64_or(action.payload, "energy_balance"@, 1000)
            &&& spec.reduction_policy@ == str_or(action.payload, "reduction_policy"@, "none"@)
            &&& (match action.payload.spec_get("energy_share"@) {
                Some(JsonValue::Number(n)) => spec.energy_share == n,
                _ => spec.energy_share matches JsonNumber::Float(t) && t@ == "0.0"@,
            })
            &&& (match action.payload.spec_get("writable_targets"@) {
                Some(v) => rules_of(v) matches Some(rs) && spec.writable_targets@.len() == rs.len()
                    && forall|i: int|
                    0 <= i < rs.len() ==> (#[trigger] spec.writable_targets@[i]).target@ == rs[i].0
                        && spec.writable_targets@[i].actions@.len() == rs[i].1.len(),
                None => spec.writable_targets@.len() == 0,
            })
            &&& (spec.writable_targets@.len() > 0 && has_actor(actor_store@, action.actor_id@)
                ==> child_targets_within(
                actor_store@[actor_index(actor_store@, action.actor_id@)].writable_targets@,
                spec.writable_targets@,
            ))
        }),
        is_actor_creation(*action) && action.payload is Object && ActorType::parse_spec(
            str_or(action.payload, "actor_type"@, "agent"@),
        ) == Some(ActorType::Agent) && creator_type_of(actor_store@, action.actor_id@)
            == ActorType::Agent && !(str_field(action.payload, "actor_id"@) is None && str_or(
            action.payload,
            "purpose"@,
            "legacy"@,
        ) == "legacy"@) ==> (r matches Err(KernelError::PolicyViolation(d)) && d@
            == "agents cannot create agents — creation right belongs to humans (PIP-001 §5)"@),
        actor_request_ok(*action, actor_store@) && (match action.payload.spec_get("writable_targets"@) {
            Some(v) => rules_of(v) matches Some(rs) && rs.len() > 0 && has_actor(actor_store@, action.actor_id@)
                && !rules_within(
                actor_store@[actor_index(actor_store@, action.actor_id@)].writable_targets@,
                rs,
            ),
            None => false,
        }) ==> r matches Err(KernelError::BoundaryViolation(_)),
        actor_request_ok(*action, actor_store@) && (match action.payload.spec_get("writable_targets"@) {
            Some(v) => rules_of(v) matches Some(rs) && (rs.len() > 0 && has_actor(
                actor_store@,
                action.actor_id@,
            ) ==> rules_within(
                actor_store@[actor_index(actor_store@, action.actor_id@)].writable_targets@,
                rs,
            )),
            None => true,
        }) ==> r matches Ok(Some(_)),
{
    if action.action_type != ActionType::Create || !str_eq(action.target.as_str(), "ledger/actor") {
        return Ok(None);
    }
    let payload = &action.payload;
    match payload {
        JsonValue::Object(_) => {},
        _ => {
            return Err(
                KernelError::InvalidRequest(String::from_str("seed actor payload must be an object")),
            );
        },
    }
    let explicit_id: Option<&str> = match payload.get("actor_id") {
        Some(v) => v.as_str(),
        None => None,
    };
    let purpose = str_or_exec(payload, "purpose", "legacy");
    let energy_balance: i64 = match i64_field_exec(payload, "energy_balance") {
        Some(n) => n,
        None => 1000,
    };
    let actor_type_str = str_or_exec(payload, "actor_type", "agent");
    let actor_type = match ActorType::parse(actor_type_str) {
        Some(t) => t,
        None => {
            let mut d = String::new();
            push_str(&mut d, "invalid actor_type: ");
            push_str(&mut d, actor_type_str);
            return Err(KernelError::InvalidRequest(d));
        },
    };
    let actor_id = match explicit_id {
        Some(id) => String::from_str(id),
        None => {
            if str_eq(purpose, "legacy") {
                return Err(
                    KernelError::InvalidRequest(
                        String::from_str("actor_id or purpose is required to create an actor"),
                    ),
                );
            }
            let seq = match actor_store.next_sequence(action.actor_id.as_str(), purpose) {
                Ok(n) => n,
                Err(e) => {
                    return Err(e);
                },
            };
            derive_agent_id(action.actor_id.as_str(), purpose, seq)
        },
    };
    let creator_record = match actor_store.get(action.actor_id.as_str()) {
        Ok(c) => c,
        Err(e) => {
            return Err(e);
        },
    };
    let creator_type = match creator_record {
        Some(rec) => rec.actor_type,
        None => ActorType::Human,
    };
    if creator_type == ActorType::Agent && actor_type == ActorType::Agent {
        return Err(
            KernelError::PolicyViolation(
                String::from_str(
                    "agents cannot create agents — creation right belongs to humans (PIP-001 §5)",
                ),
            ),
        );
    }
    let no_lineage: Vec<String> = Vec::new();
    let lineage = build_lineage(&creator_type, action.actor_id.as_str(), no_lineage.as_slice());
    let writable_targets: Vec<WritableTarget> = match payload.get("writable_targets") {
        Some(v) => match rules_from_json(v, "struct WritableTarget") {
            Ok(rules) => to_targets(rules),
            Err(e) => {
                let mut d = String::new();
                push_str(&mut d, "invalid writable_targets: ");
                push_str(&mut d, e.as_str());
                return Err(KernelError::InvalidRequest(d));
            },
        },
        None => Vec::new(),
    };
    proof {
        match action.payload.spec_get("writable_targets"@) {
            Some(v) => {
                match rules_of(v) {
                    Some(rs) => {
                        match creator_record {
                            Some(creator) => {
                                lemma_rules_within(creator.writable_targets@, writable_targets@, rs);
                            },
                            None => {},
                        }
                    },
                    None => {},
                }
            },
            None => {},
        }
    }
    if writable_targets.len() > 0 {
        match creator_record {
            Some(creator) => match validate_child_targets(creator, writable_targets.as_slice()) {
                Ok(()) => {},
                Err(e) => {
                    return Err(e);
                },
            },
            None => {},
        }
    }
    let energy_share = match payload.get("energy_share") {
        Some(JsonValue::Number(n)) => match n {
            JsonNumber::PosInt(u) => JsonNumber::PosInt(*u),
            JsonNumber::NegInt(i) => JsonNumber::NegInt(*i),
            JsonNumber::Float(t) => JsonNumber::Float(t.clone()),
        },
        _ => JsonNumber::Float(String::from_str("0.0")),
    };
    let reduction_policy = String::from_str(str_or_exec(payload, "reduction_policy", "none"));
    Ok(
        Some(
            CreateActorSpec {
                actor_id,
                actor_type,
                creator_id: action.actor_id.clone(),
                lineage,
                purpose: Some(String::from_str(purpose)),
                writable_targets,
                energy_balance,
                energy_share,
                reduction_policy,
            },
        ),
    )
}

/// Whether the action asks to create an envelope.
pub open spec fn is_envelope_creation(action: Action) -> bool {
    action.action_type == ActionType::Create && action.target@ == "ledger/envelope"@
}

fn to_rules(rules: Vec<(String, Vec<String>)>) -> (r: Vec<HoldRule>)
    ensures
        r@.len() == rules@.len(),
        forall|i: int|
            0 <= i < rules@.len() ==> (#[trigger] r@[i]).target == rules@[i].0 && r@[i].actions
                == rules@[i].1,
{
    let mut out: Vec<HoldRule> = Vec::new();
    let mut rest = rules;
    let ghost all = rest@;
    while rest.len() > 0
        invariant
            out@.len() + rest@.len() == all.len(),
            rest@ == all.skip(out@.len() as int),
            forall|i: int|
                0 <= i < out@.len() ==> (#[trigger] out@[i]).target == all[i].0 && out@[i].actions
                    == all[i].1,
        decreases rest@.len(),
    {
        let ghost k: int = out@.len() as int;
        let (t, a) = rest.remove(0);
        out.push(HoldRule { target: t, actions: a });
        proof {
            assert(rest@ =~= all.skip(k + 1 as int));
        }
    }
    out
}

fn string_list(v: &JsonValue, what: &str) -> (r: KernelResult<Vec<String>>)
    ensures
        match strings_of(*v) {
            Some(ss) => r matches Ok(out) && out@.len() == ss.len() && forall|i: int|
                0 <= i < ss.len() ==> (#[trigger] out@[i])@ == ss[i],
            None => r matches Err(KernelError::InvalidRequest(_)),
        },
{
    match strings_from_json(v) {
        Ok(out) => Ok(out),
        Err(e) => {
            let mut d = String::new();
            push_str(&mut d, "invalid envelope ");
            push_str(&mut d, what);
            push_str(&mut d, ": ");
            push_str(&mut d, e.as_str());
            Err(KernelError::InvalidRequest(d))
        },
    }
}

/// Reads the envelope-creation request of a `create` on `ledger/envelope`:
/// returns a fresh envelope id, the envelope, and the grantor's active
/// envelope (as parent) when it has one, in which case the new envelope must
/// stay within it.
pub fn parse_create_envelope_spec(action: &Action, envelope_store: &crate::envelope_store::EnvelopeStore) -> (r:
    KernelResult<Option<(String, EnvelopeSpec, Option<String>)>>)
    requires
        envelope_store.wf(),
    ensures
        !is_envelope_creation(*action) ==> r matches Ok(None),
        is_envelope_creation(*action) && !(action.payload is Object) ==> (r matches Err(
            KernelError::InvalidRequest(d),
        ) && d@ == "envelope payload must be an object"@),
        is_envelope_creation(*action) && action.payload is Object && str_field(
            action.payload,
            "actor_id"@,
        ) is None ==> (r matches Err(KernelError::InvalidRequest(d)) && d@
            == "actor_id is required to create an envelope"@),
        is_envelope_creation(*action) && action.payload is Object && str_field(
            action.payload,
            "actor_id"@,
        ) is Some && i64_field(action.payload, "budget"@) is None ==> (r matches Err(
            KernelError::InvalidRequest(d),
        ) && d@ == "budget is required to create an envelope"@),
        is_envelope_creation(*action) && action.payload is Object && str_field(
            action.payload,
            "actor_id"@,
        ) is Some && i64_field(action.payload, "budget"@) is Some && i64_field(
            action.payload,
            "budget"@,
        )->0 <= 0 ==> (r matches Err(KernelError::InvalidRequest(d)) && d@
            == "envelope budget must be positive"@),
        envelope_head_ok(*action) && action.payload.spec_get("targets"@) is None ==> (r matches Err(
            KernelError::InvalidRequest(d),
        ) && d@ == "targets are required to create an envelope"@),
        envelope_head_ok(*action) && (action.payload.spec_get("targets"@) matches Some(t) && strings_of(t)
            is None) ==> r matches Err(KernelError::InvalidRequest(_)),
        envelope_head_ok(*action) && (action.payload.spec_get("targets"@) matches Some(t) && strings_of(t)
            is Some) && action.payload.spec_get("actions"@) is None ==> (r matches Err(
            KernelError::InvalidRequest(d),
        ) && d@ == "actions are required to create an envelope"@),
        envelope_head_ok(*action) && (action.payload.spec_get("targets"@) matches Some(t) && strings_of(t)
            is Some) && (action.payload.spec_get("actions"@) matches Some(a) && strings_of(a) is None)
            ==> r matches Err(KernelError::InvalidRequest(_)),
        envelope_head_ok(*action) && (action.payload.spec_get("targets"@) matches Some(t) && strings_of(t)
            is Some) && (action.payload.spec_get("actions"@) matches Some(a) && strings_of(a) is Some)
            && (action.payload.spec_get("hold_on"@) matches Some(h) && rules_of(h) is None) ==> (
        r matches Err(KernelError::InvalidRequest(d)) && d@.len() >= 23 && d@.take(23)
            == "invalid hold_on rules: "@),
        ({
            let rows = envelope_store.envelopes_view();
            let i = crate::envelope_store::active_index_for(rows, action.actor_id@);
            envelope_request_ok(*action) && i >= 0 && !request_narrows(rows[i], *action) ==> r matches Err(
                KernelError::AuthorizationRequired(_),
            )
        }),
        ({
            let rows = envelope_store.envelopes_view();
            let i = crate::envelope_store::active_index_for(rows, action.actor_id@);
            envelope_request_ok(*action) && (i >= 0 ==> request_narrows(rows[i], *action)) ==> r matches Ok(
                Some(_),
            )
        }),
        r matches Ok(Some((_, spec, parent))) ==> ({
            let p = action.payload;
            &&& is_envelope_creation(*action)
            &&& p is Object
            &&& str_field(p, "actor_id"@) == Some(spec.actor_id@)
            &&& spec.grantor_id@ == action.actor_id@
            &&& i64_field(p, "budget"@) == Some(spec.budget)
            &&& spec.budget > 0
            &&& (p.spec_get("targets"@) matches Some(t) && strings_of(t) matches Some(ts)
                && crate::text::views_of(spec.targets@) == ts)
            &&& (p.spec_get("actions"@) matches Some(a) && strings_of(a) matches Some(acts)
                && crate::text::views_of(spec.actions@) == acts)
            &&& spec.duration_secs == i64_field(p, "duration_secs"@)
            &&& spec.report_every == i64_field(p, "report_every"@)
            &&& spec.hold_timeout_secs == i64_field(p, "hold_timeout_secs"@)
            &&& (match p.spec_get("hold_on"@) {
                Some(h) => rules_of(h) matches Some(rs) && spec.hold_on@.len() == rs.len()
                    && forall|i: int|
                    0 <= i < rs.len() ==> (#[trigger] spec.hold_on@[i]).target@ == rs[i].0,
                None => spec.hold_on@.len() == 0,
            })
            &&& (match crate::envelope_store::active_index_for(
                envelope_store.envelopes_view(),
                action.actor_id@,
            ) {
                i => if i >= 0 {
                    let g = envelope_store.envelopes_view()[i];
                    parent matches Some(pid) && pid@ == g.envelope_id@
                        && crate::consent::reduction_valid(g, spec)
                } else {
                    parent is None
                },
            })
        }),
{
    if action.action_type != ActionType::Create || !str_eq(action.target.as_str(), "ledger/envelope") {
        return Ok(None);
    }
    let payload = &action.payload;
    match payload {
        JsonValue::Object(_) => {},
        _ => {
            return Err(
                KernelError::InvalidRequest(String::from_str("envelope payload must be an object")),
            );
        },
    }
    let actor_id = match payload.get("actor_id") {
        Some(v) => match v.as_str() {
            Some(s) => String::from_str(s),
            None => {
                return Err(
                    KernelError::InvalidRequest(
                        String::from_str("actor_id is required to create an envelope"),
                    ),
                );
            },
        },
        None => {
            return Err(
                KernelError::InvalidRequest(
                    String::from_str("actor_id is required to create an envelope"),
                ),
            );
        },
    };
    let budget = match i64_field_exec(payload, "budget") {
        Some(b) => b,
        None => {
            return Err(
                KernelError::InvalidRequest(
                    String::from_str("budget is required to create an envelope"),
                ),
            );
        },
    };
    if budget <= 0 {
        return Err(
            KernelError::InvalidRequest(String::from_str("envelope budget must be positive")),
        );
    }
    let targets = match payload.get("targets") {
        Some(v) => match string_list(v, "targets") {
            Ok(t) => t,
            Err(e) => {
                return Err(e);
            },
        },
        None => {
            return Err(
                KernelError::InvalidRequest(
                    String::from_str("targets are required to create an envelope"),
                ),
            );
        },
    };
    let actions = match payload.get("actions") {
        Some(v) => match string_list(v, "actions") {
            Ok(a) => a,
            Err(e) => {
                return Err(e);
            },
        },
        None => {
            return Err(
                KernelError::InvalidRequest(
                    String::from_str("actions are required to create an envelope"),
                ),
            );
        },
    };
    let duration_secs = i64_field_exec(payload, "duration_secs");
    let report_every = i64_field_exec(payload, "report_every");
    let hold_timeout_secs = i64_field_exec(payload, "hold_timeout_secs");
    let hold_on: Vec<HoldRule> = match payload.get("hold_on") {
        Some(v) => match rules_from_json(v, "struct HoldRule") {
            Ok(rules) => to_rules(rules),
            Err(e) => {
                let mut d = String::new();
                push_str(&mut d, "invalid hold_on rules: ");
                push_str(&mut d, e.as_str());
                proof {
                    reveal_strlit("invalid hold_on rules: ");
                    assert(d@.take(23) =~= "invalid hold_on rules: "@);
                }
                return Err(KernelError::InvalidRequest(d));
            },
        },
        None => Vec::new(),
    };
    let ghost ts = targets@;
    let ghost acts = actions@;
    let spec = EnvelopeSpec {
        actor_id,
        grantor_id: action.actor_id.clone(),
        budget,
        targets,
        actions,
        duration_secs,
        report_every,
        hold_on,
        hold_timeout_secs,
    };
    proof {
        assert(crate::text::views_of(spec.targets@) =~= strings_of(payload.spec_get("targets"@)->0)->0);
        assert(crate::text::views_of(spec.actions@) =~= strings_of(payload.spec_get("actions"@)->0)->0);
    }
    let parent = match envelope_store.get_active_for_actor(action.actor_id.as_str()) {
        Ok(Some(grantor_envelope)) => {
            proof {
                crate::envelope_store::lemma_active_index_range(
                    envelope_store.envelopes_view(),
                    action.actor_id@,
                );
                let i = crate::envelope_store::active_index_for(
                    envelope_store.envelopes_view(),
                    action.actor_id@,
                );
                assert(envelope_store.envelopes_view()[i] == *grantor_envelope);
            }
            match validate_envelope_reduction(grantor_envelope, &spec) {
                Ok(()) => {},
                Err(e) => {
                    return Err(e);
                },
            }
            Some(grantor_envelope.envelope_id.clone())
        },
        Ok(None) => None,
        Err(e) => {
            return Err(e);
        },
    };
    let envelope_id = crate::clock::new_uuid();
    Ok(Some((envelope_id, spec, parent)))
}

} // verus!



