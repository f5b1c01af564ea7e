//! Authorization envelopes: budget, targets, actions, checkpoints, and holds.
use crate::actor::{ActorRecord, ActorType};
use crate::boundary::{glob_match, glob_matches};
use crate::errors::{KernelError, KernelResult};
use crate::text::{
    contains_str, contains_text, debug_strings, debug_text_of_strings, int_text, parse_u64,
    parse_u64_spec, push_i64, push_str, str_eq, views_of,
};
use vstd::prelude::*;
use vstd::string::*;

verus! {

/// Two authorization modes: a human submitting directly (always authorized),
/// or an agent acting within an envelope.
#[derive(Debug, Clone, Copy, PartialEq, Eq, Structural)]
pub enum AuthorizationMode {
    ManInTheLoop,
    ManOnTheLoop,
}

/// Envelope lifecycle status.
#[derive(Debug, Clone, Copy, PartialEq, Eq, Structural)]
pub enum EnvelopeStatus {
    Active,
    Expired,
    Revoked,
}

impl EnvelopeStatus {
    pub open spec fn spec_as_str(&self) -> Seq<char> {
        match self {
            EnvelopeStatus::Active => "active"@,
            EnvelopeStatus::Expired => "expired"@,
            EnvelopeStatus::Revoked => "revoked"@,
        }
    }

    pub fn as_str(&self) -> (r: &'static str)
        ensures
            r@ == self.spec_as_str(),
    {
        match self {
            EnvelopeStatus::Active => "active",
            EnvelopeStatus::Expired => "expired",
            EnvelopeStatus::Revoked => "revoked",
        }
    }

    /// Parses `"active"`, `"expired"`, or `"revoked"`.
    pub fn parse(s: &str) -> (r: Option<EnvelopeStatus>)
        ensures
            r == (if s@ == "active"@ {
                Some(EnvelopeStatus::Active)
            } else if s@ == "expired"@ {
                Some(EnvelopeStatus::Expired)
            } else if s@ == "revoked"@ {
                Some(EnvelopeStatus::Revoked)
            } else {
                None
            }),
    {
        if str_eq(s, "active") {
            Some(EnvelopeStatus::Active)
        } else if str_eq(s, "expired") {
            Some(EnvelopeStatus::Expired)
        } else if str_eq(s, "revoked") {
            Some(EnvelopeStatus::Revoked)
        } else {
            None
        }
    }
}

/// Checkpoint levels: a report (agent continues) or a halt (budget exhausted).
#[derive(Debug, Clone, Copy, PartialEq, Eq, Structural)]
pub enum CheckpointLevel {
    Report,
    Halt,
}

/// A rule of an envelope's `hold_on` list: a glob on the target and the
/// action types that trigger a hold.
#[derive(Debug)]
pub struct HoldRule {
    pub target: String,
    pub actions: Vec<String>,
}

/// Specification for creating a new envelope.
#[derive(Debug)]
pub struct EnvelopeSpec {
    pub actor_id: String,
    pub grantor_id: String,
    pub budget: i64,
    pub targets: Vec<String>,
    pub actions: Vec<String>,
    pub duration_secs: Option<i64>,
    pub report_every: Option<i64>,
    pub hold_on: Vec<HoldRule>,
    pub hold_timeout_secs: Option<i64>,
}

/// Persisted envelope record.
#[derive(Debug)]
pub struct EnvelopeRecord {
    pub envelope_id: String,
    pub actor_id: String,
    pub grantor_id: String,
    pub parent_envelope_id: Option<String>,
    pub budget: i64,
    pub budget_consumed: i64,
    pub targets: Vec<String>,
    pub actions: Vec<String>,
    pub duration_secs: Option<i64>,
    pub report_every: Option<i64>,
    pub hold_on: Vec<HoldRule>,
    pub hold_timeout_secs: Option<i64>,
    pub status: EnvelopeStatus,
    pub last_report_at: i64,
    pub created_at: String,
    pub expires_at: Option<String>,
    pub updated_at: String,
}

/// Whether some hold rule matches the target and lists the action type.
pub open spec fn hold_triggered(rules: Seq<HoldRule>, target: Seq<char>, action_type: Seq<char>) -> bool {
    exists|i: int|
        0 <= i < rules.len() && glob_matches(#[trigger] rules[i].target@, target) && contains_text(
            rules[i].actions@,
            action_type,
        )
}

/// Checks whether an action triggers a hold under the envelope's `hold_on` rules.
pub fn check_hold_trigger(hold_on: &[HoldRule], target: &str, action_type: &str) -> (r: bool)
    ensures
        r == hold_triggered(hold_on@, target@, action_type@),
{
    let mut i: usize = 0;
    while i < hold_on.len()
        invariant
            i <= hold_on@.len(),
            forall|j: int|
                0 <= j < i ==> !(glob_matches(#[trigger] hold_on@[j].target@, target@) && contains_text(
                    hold_on@[j].actions@,
                    action_type@,
                )),
        decreases hold_on@.len() - i,
    {
        let rule = &hold_on[i];
        if glob_match(rule.target.as_str(), target) && contains_str(rule.actions.as_slice(), action_type) {
            return true;
        }
        i = i + 1;
    }
    false
}

pub open spec fn mode_of(t: ActorType) -> AuthorizationMode {
    match t {
        ActorType::Human => AuthorizationMode::ManInTheLoop,
        ActorType::Agent => AuthorizationMode::ManOnTheLoop,
    }
}

/// Humans act in the loop; agents act on the loop.
pub fn determine_authorization_mode(actor: &ActorRecord) -> (r: AuthorizationMode)
    ensures
        r == mode_of(actor.actor_type),
{
    match actor.actor_type {
        ActorType::Human => AuthorizationMode::ManInTheLoop,
        ActorType::Agent => AuthorizationMode::ManOnTheLoop,
    }
}

/// Checks that an actor is authorized: humans always; agents only with an
/// active envelope.
pub fn check_authorization(actor: &ActorRecord, envelope: Option<&EnvelopeRecord>) -> (r: KernelResult<
    AuthorizationMode,
>)
    ensures
        actor.actor_type is Human ==> r == Ok::<AuthorizationMode, KernelError>(
            AuthorizationMode::ManInTheLoop,
        ),
        actor.actor_type is Agent ==> match envelope {
            None => r matches Err(KernelError::AuthorizationRequired(d)) && d@ == "agent "@
                + actor.actor_id@
                + " requires an active envelope to perform state-changing actions (PIP-001 §11)"@,
            Some(env) => if env.status is Active {
                r == Ok::<AuthorizationMode, KernelError>(AuthorizationMode::ManOnTheLoop)
            } else {
                r matches Err(KernelError::AuthorizationRequired(d)) && d@ == "agent "@
                    + actor.actor_id@ + " envelope "@ + env.envelope_id@ + " is "@
                    + env.status.spec_as_str() + " (not active)"@
            },
        },
{
    let mode = determine_authorization_mode(actor);
    match mode {
        AuthorizationMode::ManInTheLoop => Ok(mode),
        AuthorizationMode::ManOnTheLoop => {
            match envelope {
                None => {
                    let mut d = String::new();
                    push_str(&mut d, "agent ");
                    push_str(&mut d, actor.actor_id.as_str());
                    push_str(
                        &mut d,
                        " requires an active envelope to perform state-changing actions (PIP-001 §11)",
                    );
                    Err(KernelError::AuthorizationRequired(d))
                },
                Some(env) => {
                    if env.status != EnvelopeStatus::Active {
                        let mut d = String::new();
                        push_str(&mut d, "agent ");
                        push_str(&mut d, actor.actor_id.as_str());
                        push_str(&mut d, " envelope ");
                        push_str(&mut d, env.envelope_id.as_str());
                        push_str(&mut d, " is ");
                        push_str(&mut d, env.status.as_str());
                        push_str(&mut d, " (not active)");
                        return Err(KernelError::AuthorizationRequired(d));
                    }
                    Ok(mode)
                },
            }
        },
    }
}

/// Whether some envelope target pattern matches the target.
pub open spec fn any_pattern_matches(patterns: Seq<String>, target: Seq<char>) -> bool {
    exists|i: int| 0 <= i < patterns.len() && glob_matches(#[trigger] patterns[i]@, target)
}

fn any_pattern_matches_exec(patterns: &[String], target: &str) -> (r: bool)
    ensures
        r == any_pattern_matches(patterns@, target@),
{
    let mut i: usize = 0;
    while i < patterns.len()
        invariant
            i <= patterns@.len(),
            forall|j: int| 0 <= j < i ==> !glob_matches(#[trigger] patterns@[j]@, target@),
        decreases patterns@.len() - i,
    {
        if glob_match(patterns[i].as_str(), target) {
            return true;
        }
        i = i + 1;
    }
    false
}

/// Checks that an envelope covers an action: the action type is allowed,
/// some target pattern matches, and budget remains.
pub fn check_envelope_covers(envelope: &EnvelopeRecord, target: &str, action: &str) -> (r: KernelResult<
    (),
>)
    requires
        i64::MIN <= envelope.budget - envelope.budget_consumed <= i64::MAX,
    ensures
        !contains_text(envelope.actions@, action@) ==> (r matches Err(
            KernelError::AuthorizationRequired(d),
        ) && d@ == "envelope "@ + envelope.envelope_id@ + " does not permit action '"@ + action@
            + "' (allowed: "@ + debug_text_of_strings(views_of(envelope.actions@)) + ")"@),
        contains_text(envelope.actions@, action@) && !any_pattern_matches(envelope.targets@, target@)
            ==> (r matches Err(KernelError::AuthorizationRequired(d)) && d@ == "envelope "@
            + envelope.envelope_id@ + " does not cover target '"@ + target@
            + "' (allowed patterns: "@ + debug_text_of_strings(views_of(envelope.targets@)) + ")"@),
        contains_text(envelope.actions@, action@) && any_pattern_matches(envelope.targets@, target@)
            && envelope.budget - envelope.budget_consumed <= 0 ==> (r matches Err(
            KernelError::AuthorizationRequired(d),
        ) && d@ == "envelope "@ + envelope.envelope_id@ + " budget exhausted (budget="@ + int_text(
            envelope.budget as int,
        ) + ", consumed="@ + int_text(envelope.budget_consumed as int) + ")"@),
        r is Ok <==> (contains_text(envelope.actions@, action@) && any_pattern_matches(
            envelope.targets@,
            target@,
        ) && envelope.budget - envelope.budget_consumed > 0),
{
    if !contains_str(envelope.actions.as_slice(), action) {
        let mut d = String::new();
        push_str(&mut d, "envelope ");
        push_str(&mut d, envelope.envelope_id.as_str());
        push_str(&mut d, " does not permit action '");
        push_str(&mut d, action);
        push_str(&mut d, "' (allowed: ");
        let listed = debug_strings(envelope.actions.as_slice());
        push_str(&mut d, listed.as_str());
        push_str(&mut d, ")");
        return Err(KernelError::AuthorizationRequired(d));
    }
    if !any_pattern_matches_exec(envelope.targets.as_slice(), target) {
        let mut d = String::new();
        push_str(&mut d, "envelope ");
        push_str(&mut d, envelope.envelope_id.as_str());
        push_str(&mut d, " does not cover target '");
        push_str(&mut d, target);
        push_str(&mut d, "' (allowed patterns: ");
        let listed = debug_strings(envelope.targets.as_slice());
        push_str(&mut d, listed.as_str());
        push_str(&mut d, ")");
        return Err(KernelError::AuthorizationRequired(d));
    }
    let remaining = envelope.budget - envelope.budget_consumed;
    if remaining <= 0 {
        let mut d = String::new();
        push_str(&mut d, "envelope ");
        push_str(&mut d, envelope.envelope_id.as_str());
        push_str(&mut d, " budget exhausted (budget=");
        push_i64(&mut d, envelope.budget);
        push_str(&mut d, ", consumed=");
        push_i64(&mut d, envelope.budget_consumed);
        push_str(&mut d, ")");
        return Err(KernelError::AuthorizationRequired(d));
    }
    Ok(())
}

/// Integer division rounding toward zero (as `/` on machine integers does).
pub open spec fn trunc_div(a: int, b: int) -> int {
    if a >= 0 {
        a / b
    } else {
        -((-a) / b)
    }
}

/// The checkpoint reached after consuming `new_consumed` more energy: halt when
/// the total reaches the budget, otherwise a report when the total crosses a
/// multiple of `report_every` (if positive), otherwise none.
pub open spec fn checkpoint_of(budget: i64, consumed: i64, report_every: Option<i64>, new_consumed: i64) -> Option<
    CheckpointLevel,
> {
    let total = consumed + new_consumed;
    if total >= budget {
        Some(CheckpointLevel::Halt)
    } else {
        match report_every {
            Some(ri) => if ri > 0 && trunc_div(total, ri as int) > trunc_div(consumed as int, ri as int) {
                Some(CheckpointLevel::Report)
            } else {
                None
            },
            None => None,
        }
    }
}

/// Checks whether a checkpoint is due after consuming `new_consumed` energy;
/// returns the highest level reached (halt over report).
pub fn check_checkpoint(envelope: &EnvelopeRecord, new_consumed: i64) -> (r: Option<CheckpointLevel>)
    requires
        i64::MIN <= envelope.budget_consumed + new_consumed <= i64::MAX,
    ensures
        r == checkpoint_of(envelope.budget, envelope.budget_consumed, envelope.report_every, new_consumed),
{
    let total_consumed = envelope.budget_consumed + new_consumed;
    if total_consumed >= envelope.budget {
        return Some(CheckpointLevel::Halt);
    }
    match envelope.report_every {
        Some(report_interval) => {
            if report_interval > 0 {
                let prev_report_count = envelope.budget_consumed / report_interval;
                let new_report_count = total_consumed / report_interval;
                if new_report_count > prev_report_count {
                    return Some(CheckpointLevel::Report);
                }
            }
            None
        },
        None => None,
    }
}

/// Whether a child target is covered by some parent target (a matching glob,
/// the `**` wildcard, or the same pattern).
pub open spec fn envelope_target_covered(parent_targets: Seq<String>, child_target: Seq<char>) -> bool {
    exists|i: int|
        0 <= i < parent_targets.len() && (glob_matches(#[trigger] parent_targets[i]@, child_target)
            || parent_targets[i]@ == "**"@ || parent_targets[i]@ == child_target)
}

/// Whether a child envelope stays within its parent: budget at most the
/// parent's remaining budget, actions a subset, and every target covered.
pub open spec fn reduction_valid(parent: EnvelopeRecord, child: EnvelopeSpec) -> bool {
    &&& child.budget <= parent.budget - parent.budget_consumed
    &&& forall|i: int|
        0 <= i < child.actions@.len() ==> contains_text(parent.actions@, #[trigger] child.actions@[i]@)
    &&& forall|i: int|
        0 <= i < child.targets@.len() ==> envelope_target_covered(
            parent.targets@,
            #[trigger] child.targets@[i]@,
        )
}

fn envelope_target_covered_exec(parent_targets: &[String], child_target: &str) -> (r: bool)
    ensures
        r == envelope_target_covered(parent_targets@, child_target@),
{
    let mut i: usize = 0;
    while i < parent_targets.len()
        invariant
            i <= parent_targets@.len(),
            forall|j: int|
                0 <= j < i ==> !(glob_matches(#[trigger] parent_targets@[j]@, child_target@)
                    || parent_targets@[j]@ == "**"@ || parent_targets@[j]@ == child_target@),
        decreases parent_targets@.len() - i,
    {
        let pt = parent_targets[i].as_str();
        if glob_match(pt, child_target) || str_eq(pt, "**") || str_eq(pt, child_target) {
            return true;
        }
        i = i + 1;
    }
    false
}

/// Validates that a child envelope does not exceed its parent: the budget, the
/// actions, and the targets may only shrink.  Checks budget first, then
/// actions in order, then targets in order.
pub fn validate_envelope_reduction(parent: &EnvelopeRecord, child: &EnvelopeSpec) -> (r: KernelResult<()>)
    requires
        i64::MIN <= parent.budget - parent.budget_consumed <= i64::MAX,
    ensures
        r is Ok <==> reduction_valid(*parent, *child),
        r matches Err(e) ==> e is AuthorizationRequired,
        child.budget > parent.budget - parent.budget_consumed ==> (r matches Err(
            KernelError::AuthorizationRequired(d),
        ) && d@ == "child envelope budget "@ + int_text(child.budget as int) + " exceeds parent remaining "@
            + int_text(parent.budget - parent.budget_consumed) + " (PIP-001 §11)"@),
{
    let parent_remaining = parent.budget - parent.budget_consumed;
    if child.budget > parent_remaining {
        let mut d = String::new();
        push_str(&mut d, "child envelope budget ");
        push_i64(&mut d, child.budget);
        push_str(&mut d, " exceeds parent remaining ");
        push_i64(&mut d, parent_remaining);
        push_str(&mut d, " (PIP-001 §11)");
        assert(d@ =~= "child envelope budget "@ + int_text(child.budget as int)
            + " exceeds parent remaining "@ + int_text(parent.budget - parent.budget_consumed)
            + " (PIP-001 §11)"@);
        return Err(KernelError::AuthorizationRequired(d));
    }
    let mut i: usize = 0;
    while i < child.actions.len()
        invariant
            i <= child.actions@.len(),
            child.budget <= parent.budget - parent.budget_consumed,
            forall|j: int| 0 <= j < i ==> contains_text(parent.actions@, #[trigger] child.actions@[j]@),
        decreases child.actions@.len() - i,
    {
        let child_action = child.actions[i].as_str();
        if !contains_str(parent.actions.as_slice(), child_action) {
            let mut d = String::new();
            push_str(&mut d, "child envelope action '");
            push_str(&mut d, child_action);
            push_str(&mut d, "' not in parent actions ");
            let listed = debug_strings(parent.actions.as_slice());
            push_str(&mut d, listed.as_str());
            push_str(&mut d, " (PIP-001 §11)");
            return Err(KernelError::AuthorizationRequired(d));
        }
        i = i + 1;
    }
    let mut k: usize = 0;
    while k < child.targets.len()
        invariant
            k <= child.targets@.len(),
            child.budget <= parent.budget - parent.budget_consumed,
            forall|j: int|
                0 <= j < child.actions@.len() ==> contains_text(parent.actions@, #[trigger] child.actions@[j]@),
            forall|j: int|
                0 <= j < k ==> envelope_target_covered(parent.targets@, #[trigger] child.targets@[j]@),
        decreases child.targets@.len() - k,
    {
        let child_target = child.targets[k].as_str();
        if !envelope_target_covered_exec(parent.targets.as_slice(), child_target) {
            let mut d = String::new();
            push_str(&mut d, "child envelope target '");
            push_str(&mut d, child_target);
            push_str(&mut d, "' not covered by parent targets ");
            let listed = debug_strings(parent.targets.as_slice());
            push_str(&mut d, listed.as_str());
            push_str(&mut d, " (PIP-001 §11)");
            return Err(KernelError::AuthorizationRequired(d));
        }
        k = k + 1;
    }
    Ok(())
}

/// Whether an envelope's expiry time (milliseconds, as decimal text) has
/// passed; an absent or unreadable expiry never expires.
pub open spec fn expired_at(expires_at: Option<String>, now_millis: u64) -> bool {
    match expires_at {
        Some(s) => match parse_u64_spec(s@) {
            Some(ms) => now_millis >= ms,
            None => false,
        },
        None => false,
    }
}

/// Checks whether an envelope has expired by time (lazy expiry).
pub fn is_envelope_expired(envelope: &EnvelopeRecord, now_millis: u64) -> (r: bool)
    ensures
        r == expired_at(envelope.expires_at, now_millis),
{
    match &envelope.expires_at {
        Some(expires_at) => match parse_u64(expires_at.as_str()) {
            Some(expires_ms) => now_millis >= expires_ms,
            None => false,
        },
        None => false,
    }
}

/// The JSON form of a hold rule: `{actions, target}`.
pub open spec fn rule_view(t: HoldRule) -> crate::json::JsonView {
    crate::json::JsonView::Object(
        seq![
            ("actions"@, crate::json::strings_view(t.actions@)),
            ("target"@, crate::json::JsonView::String(t.target@)),
        ],
    )
}

/// The JSON forms of a list of hold rules.
pub open spec fn rules_view(ts: Seq<HoldRule>) -> crate::json::JsonView {
    crate::json::JsonView::Array(Seq::new(ts.len(), |i: int| rule_view(ts[i])))
}

/// A list of hold rules as JSON.
pub fn rules_json(ts: &[HoldRule]) -> (r: crate::json::JsonValue)
    ensures
        r@ == rules_view(ts@),
{
    let mut items: Vec<crate::json::JsonValue> = Vec::new();
    let mut i: usize = 0;
    while i < ts.len()
        invariant
            i <= ts@.len(),
            items@.len() == i,
            forall|k: int| 0 <= k < i ==> (#[trigger] items@[k])@ == rule_view(ts@[k]),
        decreases ts@.len() - i,
    {
        let t = &ts[i];
        let o = crate::json::json_object2(
            crate::json::entry("actions", crate::json::json_strings(t.actions.as_slice())),
            crate::json::entry("target", crate::json::json_str(t.target.as_str())),
        );
        items.push(o);
        i = i + 1;
    }
    proof {
        crate::json::lemma_items_view_len(items@, items@.len());
        assert(crate::json::items_view(items@, items@.len()) =~= rules_view(ts@)->Array_0);
    }
    crate::json::JsonValue::Array(items)
}

impl EnvelopeRecord {
    /// The JSON form of an envelope record, keys in codepoint order.
    pub open spec fn spec_json(&self) -> crate::json::JsonView {
        crate::json::JsonView::Object(
            seq![
                ("actions"@, crate::json::strings_view(self.actions@)),
                ("actor_id"@, crate::json::JsonView::String(self.actor_id@)),
                ("budget"@, crate::json::JsonView::Number(crate::json::i64_number_view(self.budget))),
                ("budget_consumed"@, crate::json::JsonView::Number(crate::json::i64_number_view(self.budget_consumed))),
                ("created_at"@, crate::json::JsonView::String(self.created_at@)),
                ("duration_secs"@, crate::json::opt_i64_view(self.duration_secs)),
                ("envelope_id"@, crate::json::JsonView::String(self.envelope_id@)),
                ("expires_at"@, crate::json::opt_str_view(self.expires_at)),
                ("grantor_id"@, crate::json::JsonView::String(self.grantor_id@)),
                ("hold_on"@, rules_view(self.hold_on@)),
                ("hold_timeout_secs"@, crate::json::opt_i64_view(self.hold_timeout_secs)),
                ("last_report_at"@, crate::json::JsonView::Number(crate::json::i64_number_view(self.last_report_at))),
                ("parent_envelope_id"@, crate::json::opt_str_view(self.parent_envelope_id)),
                ("report_every"@, crate::json::opt_i64_view(self.report_every)),
                ("status"@, crate::json::JsonView::String(self.status.spec_as_str())),
                ("targets"@, crate::json::strings_view(self.targets@)),
                ("updated_at"@, crate::json::JsonView::String(self.updated_at@)),
            ],
        )
    }

    /// The JSON form of an envelope record.
    pub fn to_json(&self) -> (r: crate::json::JsonValue)
        ensures
            r@ == self.spec_json(),
    {
        let es = vec![
            crate::json::entry("actions", crate::json::json_strings(self.actions.as_slice())),
            crate::json::entry("actor_id", crate::json::json_str(self.actor_id.as_str())),
            crate::json::entry("budget", crate::json::json_i64(self.budget)),
            crate::json::entry("budget_consumed", crate::json::json_i64(self.budget_consumed)),
            crate::json::entry("created_at", crate::json::json_str(self.created_at.as_str())),
            crate::json::entry("duration_secs", crate::json::json_opt_i64(self.duration_secs)),
            crate::json::entry("envelope_id", crate::json::json_str(self.envelope_id.as_str())),
            crate::json::entry("expires_at", crate::json::json_opt_str(&self.expires_at)),
            crate::json::entry("grantor_id", crate::json::json_str(self.grantor_id.as_str())),
            crate::json::entry("hold_on", rules_json(self.hold_on.as_slice())),
            crate::json::entry("hold_timeout_secs", crate::json::json_opt_i64(self.hold_timeout_secs)),
            crate::json::entry("last_report_at", crate::json::json_i64(self.last_report_at)),
            crate::json::entry("parent_envelope_id", crate::json::json_opt_str(&self.parent_envelope_id)),
            crate::json::entry("report_every", crate::json::json_opt_i64(self.report_every)),
            crate::json::entry("status", crate::json::json_str(self.status.as_str())),
            crate::json::entry("targets", crate::json::json_strings(self.targets.as_slice())),
            crate::json::entry("updated_at", crate::json::json_str(self.updated_at.as_str())),
        ];
        let r = crate::json::json_object(es);
        proof {
            assert(Seq::new(es@.len(), |i: int| (es@[i].0@, es@[i].1@)) =~= self.spec_json()->Object_0);
        }
        r
    }
}

} // verus!

