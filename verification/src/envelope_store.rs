//! Authorization envelopes and hold requests: creation, budget, status.
use crate::clock::{now_millis_string, now_millis_u64};
use crate::consent::{expired_at, is_envelope_expired, EnvelopeRecord, EnvelopeSpec, EnvelopeStatus};
use crate::errors::{KernelError, KernelResult};
use crate::json::{entry, json_str, JsonValue, JsonView};
use crate::text::{decimal_chars, int_text, parse_u64, push_i64, push_str, push_u64, str_eq};
use vstd::prelude::*;
use vstd::string::*;

verus! {

/// Where a hold request stands.
#[derive(Debug, Clone, Copy, PartialEq, Eq, Structural)]
pub enum HoldStatus {
    Pending,
    Approved,
    Rejected,
    TimedOut,
}

impl HoldStatus {
    pub open spec fn spec_as_str(&self) -> Seq<char> {
        match self {
            HoldStatus::Pending => "pending"@,
            HoldStatus::Approved => "approved"@,
            HoldStatus::Rejected => "rejected"@,
            HoldStatus::TimedOut => "timed_out"@,
        }
    }

    pub fn as_str(&self) -> (r: &'static str)
        ensures
            r@ == self.spec_as_str(),
    {
        match self {
            HoldStatus::Pending => "pending",
            HoldStatus::Approved => "approved",
            HoldStatus::Rejected => "rejected",
            HoldStatus::TimedOut => "timed_out",
        }
    }
}

/// Parameters of a new hold request.
#[derive(Debug)]
pub struct NewHoldRequest {
    /// Stable identifier for this hold.
    pub hold_id: String,
    /// The envelope that was held.
    pub envelope_id: String,
    /// The agent whose action triggered the hold.
    pub agent_id: String,
    /// The target path of the triggering action.
    pub trigger_target: String,
    /// The action type of the triggering action.
    pub trigger_action: String,
    /// Snapshot of the pending action.
    pub pending_payload: JsonValue,
}

/// A stored hold request.
#[derive(Debug)]
pub struct HoldRequest {
    pub hold_id: String,
    pub envelope_id: String,
    pub agent_id: String,
    pub trigger_target: String,
    pub trigger_action: String,
    pub pending_payload: JsonValue,
    pub status: HoldStatus,
    pub decision: Option<String>,
    pub instruction: Option<String>,
    pub triggered_at: String,
    pub resolved_at: Option<String>,
}

pub open spec fn opt_text_view(o: Option<String>) -> JsonView {
    match o {
        Some(s) => JsonView::String(s@),
        None => JsonView::Null,
    }
}

fn opt_text(o: &Option<String>) -> (r: JsonValue)
    ensures
        r@ == opt_text_view(*o),
{
    match o {
        Some(s) => json_str(s.as_str()),
        None => JsonValue::Null,
    }
}

impl HoldRequest {
    /// The JSON form of a hold request, keys in codepoint order.
    pub open spec fn spec_json(&self) -> JsonView {
        JsonView::Object(
            seq![
                ("agent_id"@, JsonView::String(self.agent_id@)),
                ("decision"@, opt_text_view(self.decision)),
                ("envelope_id"@, JsonView::String(self.envelope_id@)),
                ("hold_id"@, JsonView::String(self.hold_id@)),
                ("instruction"@, opt_text_view(self.instruction)),
                ("pending_payload"@, self.pending_payload@),
                ("resolved_at"@, opt_text_view(self.resolved_at)),
                ("status"@, JsonView::String(self.status.spec_as_str())),
                ("trigger_action"@, JsonView::String(self.trigger_action@)),
                ("trigger_target"@, JsonView::String(self.trigger_target@)),
                ("triggered_at"@, JsonView::String(self.triggered_at@)),
            ],
        )
    }

    /// The JSON form of a hold request.
    pub fn to_json(&self) -> (r: JsonValue)
        ensures
            r@ == self.spec_json(),
    {
        let mut es: Vec<(String, JsonValue)> = Vec::new();
        es.push(entry("agent_id", json_str(self.agent_id.as_str())));
        es.push(entry("decision", opt_text(&self.decision)));
        es.push(entry("envelope_id", json_str(self.envelope_id.as_str())));
        es.push(entry("hold_id", json_str(self.hold_id.as_str())));
        es.push(entry("instruction", opt_text(&self.instruction)));
        es.push(entry("pending_payload", crate::json::copy_value(&self.pending_payload)));
        es.push(entry("resolved_at", opt_text(&self.resolved_at)));
        es.push(entry("status", json_str(self.status.as_str())));
        es.push(entry("trigger_action", json_str(self.trigger_action.as_str())));
        es.push(entry("trigger_target", json_str(self.trigger_target.as_str())));
        es.push(entry("triggered_at", json_str(self.triggered_at.as_str())));
        let r = crate::json::json_object(es);
        proof {
            assert(Seq::new(es@.len(), |i: int| (es@[i].0@, es@[i].1@)) =~= self.spec_json()->Object_0);
        }
        r
    }
}

/// Whether some envelope has the id.
pub open spec fn has_envelope(rows: Seq<EnvelopeRecord>, id: Seq<char>) -> bool {
    exists|i: int| 0 <= i < rows.len() && (#[trigger] rows[i]).envelope_id@ == id
}

/// The position of the envelope with the id (meaningful when it exists).
pub open spec fn envelope_index(rows: Seq<EnvelopeRecord>, id: Seq<char>) -> int {
    choose|i: int| 0 <= i < rows.len() && (#[trigger] rows[i]).envelope_id@ == id
}

/// Whether some hold has the id.
pub open spec fn has_hold(rows: Seq<HoldRequest>, id: Seq<char>) -> bool {
    exists|i: int| 0 <= i < rows.len() && (#[trigger] rows[i]).hold_id@ == id
}

/// The position of the hold with the id (meaningful when it exists).
pub open spec fn hold_index(rows: Seq<HoldRequest>, id: Seq<char>) -> int {
    choose|i: int| 0 <= i < rows.len() && (#[trigger] rows[i]).hold_id@ == id
}

/// Position of the most recently created active envelope of an actor, or -1.
pub open spec fn active_index_for(rows: Seq<EnvelopeRecord>, actor: Seq<char>) -> int
    decreases rows.len(),
{
    if rows.len() == 0 {
        -1
    } else if rows.last().actor_id@ == actor && rows.last().status == EnvelopeStatus::Active {
        rows.len() - 1
    } else {
        active_index_for(rows.drop_last(), actor)
    }
}

pub proof fn lemma_active_index_range(rows: Seq<EnvelopeRecord>, actor: Seq<char>)
    ensures
        -1 <= active_index_for(rows, actor) < rows.len(),
        active_index_for(rows, actor) >= 0 ==> rows[active_index_for(rows, actor)].actor_id@ == actor
            && rows[active_index_for(rows, actor)].status == EnvelopeStatus::Active,
    decreases rows.len(),
{
    if rows.len() > 0 {
        lemma_active_index_range(rows.drop_last(), actor);
    }
}

/// With distinct envelope ids, an envelope is found again by its id.
pub proof fn lemma_envelope_index_of(rows: Seq<EnvelopeRecord>, i: int)
    requires
        0 <= i < rows.len(),
        forall|a: int, b: int|
            0 <= a < rows.len() && 0 <= b < rows.len() && a != b ==> (#[trigger] rows[a]).envelope_id@
                != (#[trigger] rows[b]).envelope_id@,
    ensures
        has_envelope(rows, rows[i].envelope_id@),
        envelope_index(rows, rows[i].envelope_id@) == i,
{
    assert(rows[i].envelope_id@ == rows[i].envelope_id@);
    let j = envelope_index(rows, rows[i].envelope_id@);
    assert(0 <= j < rows.len() && rows[j].envelope_id@ == rows[i].envelope_id@);
}

/// The envelope with changed budget consumption (and update time).
pub open spec fn with_consumed(e: EnvelopeRecord, consumed: i64, now: String) -> EnvelopeRecord {
    EnvelopeRecord { budget_consumed: consumed, updated_at: now, ..e }
}

/// The envelope with another status (and update time).
pub open spec fn with_env_status(e: EnvelopeRecord, status: EnvelopeStatus, now: String) -> EnvelopeRecord {
    EnvelopeRecord { status, updated_at: now, ..e }
}

/// Ids of the pending holds of an envelope, in creation order.
pub open spec fn pending_ids_for(rows: Seq<HoldRequest>, envelope: Seq<char>) -> Seq<Seq<char>>
    decreases rows.len(),
{
    if rows.len() == 0 {
        Seq::empty()
    } else {
        let rest = pending_ids_for(rows.drop_last(), envelope);
        let h = rows.last();
        if h.status == HoldStatus::Pending && h.envelope_id@ == envelope {
            rest.push(h.hold_id@)
        } else {
            rest
        }
    }
}

/// JSON forms of the pending holds (of one agent, when given), in creation order.
pub open spec fn pending_json(rows: Seq<HoldRequest>, agent: Option<Seq<char>>) -> Seq<JsonView>
    decreases rows.len(),
{
    if rows.len() == 0 {
        Seq::empty()
    } else {
        let rest = pending_json(rows.drop_last(), agent);
        let h = rows.last();
        let keep = h.status == HoldStatus::Pending && match agent {
            Some(a) => h.agent_id@ == a,
            None => true,
        };
        if keep {
            rest.push(h.spec_json())
        } else {
            rest
        }
    }
}

/// With no pending hold, no envelope has a pending hold id.
pub proof fn lemma_no_pending_ids(rows: Seq<HoldRequest>, envelope: Seq<char>)
    requires
        pending_count(rows) == 0,
    ensures
        pending_ids_for(rows, envelope).len() == 0,
    decreases rows.len(),
{
    if rows.len() > 0 {
        lemma_no_pending_ids(rows.drop_last(), envelope);
    }
}

/// The pending ids of an envelope are exactly the ids of its pending holds,
/// each listed once when hold ids are distinct.
pub proof fn lemma_pending_ids_members(rows: Seq<HoldRequest>, envelope: Seq<char>)
    requires
        forall|i: int, j: int|
            0 <= i < rows.len() && 0 <= j < rows.len() && i != j ==> (#[trigger] rows[i]).hold_id@
                != (#[trigger] rows[j]).hold_id@,
    ensures
        forall|i: int|
            0 <= i < rows.len() && (#[trigger] rows[i]).status == HoldStatus::Pending
                && rows[i].envelope_id@ == envelope ==> pending_ids_for(rows, envelope).contains(
                rows[i].hold_id@,
            ),
        forall|x: Seq<char>|
            #[trigger] pending_ids_for(rows, envelope).contains(x) ==> exists|i: int|
                0 <= i < rows.len() && (#[trigger] rows[i]).hold_id@ == x && rows[i].status
                    == HoldStatus::Pending && rows[i].envelope_id@ == envelope,
        pending_ids_for(rows, envelope).no_duplicates(),
    decreases rows.len(),
{
    if rows.len() > 0 {
        let init = rows.drop_last();
        lemma_pending_ids_members(init, envelope);
        let rest = pending_ids_for(init, envelope);
        let h = rows.last();
        assert forall|i: int|
            0 <= i < rows.len() && (#[trigger] rows[i]).status == HoldStatus::Pending
                && rows[i].envelope_id@ == envelope implies pending_ids_for(rows, envelope).contains(
            rows[i].hold_id@,
        ) by {
            if i < rows.len() - 1 {
                assert(init[i] == rows[i]);
                assert(rest.contains(rows[i].hold_id@));
                if h.status == HoldStatus::Pending && h.envelope_id@ == envelope {
                    let j = choose|j: int| 0 <= j < rest.len() && rest[j] == rows[i].hold_id@;
                    assert(rest.push(h.hold_id@)[j] == rest[j]);
                }
            } else {
                assert(rest.push(h.hold_id@)[rest.len() as int] == h.hold_id@);
            }
        }
        assert forall|x: Seq<char>|
            #[trigger] pending_ids_for(rows, envelope).contains(x) implies exists|i: int|
                0 <= i < rows.len() && (#[trigger] rows[i]).hold_id@ == x && rows[i].status
                    == HoldStatus::Pending && rows[i].envelope_id@ == envelope by {
            if rest.contains(x) {
                let j = choose|j: int|
                    0 <= j < init.len() && (#[trigger] init[j]).hold_id@ == x && init[j].status
                        == HoldStatus::Pending && init[j].envelope_id@ == envelope;
                assert(rows[j] == init[j]);
            } else {
                assert(h.status == HoldStatus::Pending && h.envelope_id@ == envelope);
                let p = rest.push(h.hold_id@);
                let k = choose|k: int| 0 <= k < p.len() && p[k] == x;
                assert(k == rest.len());
                assert(rows[rows.len() - 1] == h);
            }
        }
        if h.status == HoldStatus::Pending && h.envelope_id@ == envelope {
            assert(!rest.contains(h.hold_id@)) by {
                if rest.contains(h.hold_id@) {
                    let j = choose|j: int|
                        0 <= j < init.len() && (#[trigger] init[j]).hold_id@ == h.hold_id@
                            && init[j].status == HoldStatus::Pending && init[j].envelope_id@ == envelope;
                    assert(rows[j] == init[j]);
                    assert(rows[rows.len() - 1] == h);
                }
            }
            let p = rest.push(h.hold_id@);
            assert forall|a: int, b: int| 0 <= a < p.len() && 0 <= b < p.len() && a != b implies p[a] != p[b] by {
                if a < rest.len() && b < rest.len() {
                    assert(p[a] == rest[a] && p[b] == rest[b]);
                } else if a == rest.len() {
                    assert(p[a] == h.hold_id@);
                    assert(p[b] == rest[b]);
                    assert(rest.contains(rest[b]));
                } else {
                    assert(p[b] == h.hold_id@);
                    assert(p[a] == rest[a]);
                    assert(rest.contains(rest[a]));
                }
            }
        }
    }
}

/// The number of pending holds.
pub open spec fn pending_count(rows: Seq<HoldRequest>) -> nat
    decreases rows.len(),
{
    if rows.len() == 0 {
        0
    } else {
        pending_count(rows.drop_last()) + if rows.last().status == HoldStatus::Pending {
            1nat
        } else {
            0nat
        }
    }
}

/// Resolving one pending hold, and changing nothing else about pendingness,
/// leaves one pending hold fewer.
pub proof fn lemma_pending_count_resolve(a: Seq<HoldRequest>, b: Seq<HoldRequest>, i: int)
    requires
        a.len() == b.len(),
        0 <= i < a.len(),
        a[i].status == HoldStatus::Pending,
        b[i].status != HoldStatus::Pending,
        forall|j: int| 0 <= j < a.len() && j != i ==> (#[trigger] b[j]).status == a[j].status,
    ensures
        pending_count(b) + 1 == pending_count(a),
    decreases a.len(),
{
    if i < a.len() - 1 {
        lemma_pending_count_resolve(a.drop_last(), b.drop_last(), i);
    } else {
        lemma_pending_count_same(a.drop_last(), b.drop_last());
    }
}

/// Sequences with the same statuses have the same number of pending holds.
pub proof fn lemma_pending_count_same(a: Seq<HoldRequest>, b: Seq<HoldRequest>)
    requires
        a.len() == b.len(),
        forall|j: int| 0 <= j < a.len() ==> (#[trigger] b[j]).status == a[j].status,
    ensures
        pending_count(b) == pending_count(a),
    decreases a.len(),
{
    if a.len() > 0 {
        lemma_pending_count_same(a.drop_last(), b.drop_last());
    }
}

/// The number of pending holds is at most the number of holds.
pub proof fn lemma_pending_count_bound(a: Seq<HoldRequest>)
    ensures
        pending_count(a) <= a.len(),
    decreases a.len(),
{
    if a.len() > 0 {
        lemma_pending_count_bound(a.drop_last());
    }
}

/// The status a decision leaves a hold in.
pub open spec fn decision_status(decision: Seq<char>) -> Option<HoldStatus> {
    if decision == "approve"@ {
        Some(HoldStatus::Approved)
    } else if decision == "reject"@ {
        Some(HoldStatus::Rejected)
    } else if decision == "timed_out"@ {
        Some(HoldStatus::TimedOut)
    } else {
        None
    }
}

/// Whether the hold with the id exists and is pending.
pub open spec fn hold_pending(rows: Seq<HoldRequest>, id: Seq<char>) -> bool {
    has_hold(rows, id) && rows[hold_index(rows, id)].status == HoldStatus::Pending
}

/// The envelope table and the hold-request table.
#[derive(Debug)]
pub struct EnvelopeStore {
    envelopes: Vec<EnvelopeRecord>,
    holds: Vec<HoldRequest>,
}

impl EnvelopeStore {
    pub closed spec fn envelopes_view(&self) -> Seq<EnvelopeRecord> {
        self.envelopes@
    }

    pub closed spec fn holds_view(&self) -> Seq<HoldRequest> {
        self.holds@
    }

    /// Envelope ids are distinct, hold ids are distinct, and every envelope's
    /// remaining budget is a machine integer.
    pub open spec fn wf(&self) -> bool {
        &&& forall|i: int|
            0 <= i < self.envelopes_view().len() ==> i64::MIN <= (
            #[trigger] self.envelopes_view()[i]).budget - self.envelopes_view()[i].budget_consumed
                <= i64::MAX
        &&& forall|i: int, j: int|
            0 <= i < self.envelopes_view().len() && 0 <= j < self.envelopes_view().len() && i != j
                ==> (#[trigger] self.envelopes_view()[i]).envelope_id@ != (
            #[trigger] self.envelopes_view()[j]).envelope_id@
        &&& forall|i: int, j: int|
            0 <= i < self.holds_view().len() && 0 <= j < self.holds_view().len() && i != j ==> (
            #[trigger] self.holds_view()[i]).hold_id@ != (#[trigger] self.holds_view()[j]).hold_id@
    }

    /// The number of hold requests.
    pub fn hold_count(&self) -> (r: usize)
        ensures
            r == self.holds_view().len(),
    {
        self.holds.len()
    }

    /// Empty tables.
    pub fn new() -> (s: Self)
        ensures
            s.wf(),
            s.envelopes_view() == Seq::<EnvelopeRecord>::empty(),
            s.holds_view() == Seq::<HoldRequest>::empty(),
    {
        EnvelopeStore { envelopes: Vec::new(), holds: Vec::new() }
    }

    fn find_envelope(&self, envelope_id: &str) -> (r: Option<usize>)
        requires
            self.wf(),
        ensures
            r is None <==> !has_envelope(self.envelopes_view(), envelope_id@),
            r matches Some(i) ==> i < self.envelopes_view().len() && i == envelope_index(
                self.envelopes_view(),
                envelope_id@,
            ) && self.envelopes_view()[i as int].envelope_id@ == envelope_id@,
    {
        let ghost rows = self.envelopes_view();
        let mut i: usize = 0;
        while i < self.envelopes.len()
            invariant
                i <= self.envelopes.len(),
                self.wf(),
                rows == self.envelopes_view(),
                forall|j: int| 0 <= j < i ==> (#[trigger] rows[j]).envelope_id@ != envelope_id@,
            decreases self.envelopes.len() - i,
        {
            if str_eq(self.envelopes[i].envelope_id.as_str(), envelope_id) {
                proof {
                    assert(has_envelope(rows, envelope_id@));
                    let k = envelope_index(rows, envelope_id@);
                    assert(rows[k].envelope_id@ == envelope_id@);
                }
                return Some(i);
            }
            i = i + 1;
        }
        proof {
            if has_envelope(rows, envelope_id@) {
                let k = envelope_index(rows, envelope_id@);
                assert(rows[k].envelope_id@ == envelope_id@);
            }
        }
        None
    }

    fn find_hold(&self, hold_id: &str) -> (r: Option<usize>)
        requires
            self.wf(),
        ensures
            r is None <==> !has_hold(self.holds_view(), hold_id@),
            r matches Some(i) ==> i < self.holds_view().len() && i == hold_index(
                self.holds_view(),
                hold_id@,
            ) && self.holds_view()[i as int].hold_id@ == hold_id@,
    {
        let ghost rows = self.holds_view();
        let mut i: usize = 0;
        while i < self.holds.len()
            invariant
                i <= self.holds.len(),
                self.wf(),
                rows == self.holds_view(),
                forall|j: int| 0 <= j < i ==> (#[trigger] rows[j]).hold_id@ != hold_id@,
            decreases self.holds.len() - i,
        {
            if str_eq(self.holds[i].hold_id.as_str(), hold_id) {
                proof {
                    assert(has_hold(rows, hold_id@));
                    let k = hold_index(rows, hold_id@);
                    assert(rows[k].hold_id@ == hold_id@);
                }
                return Some(i);
            }
            i = i + 1;
        }
        proof {
            if has_hold(rows, hold_id@) {
                let k = hold_index(rows, hold_id@);
                assert(rows[k].hold_id@ == hold_id@);
            }
        }
        None
    }

    /// Stores a new active envelope with nothing consumed; it expires
    /// `duration_secs` after creation when a duration is given.
    pub fn create_in_tx(
        &mut self,
        envelope_id: &str,
        spec: EnvelopeSpec,
        parent_envelope_id: Option<&str>,
    ) -> (r: KernelResult<&EnvelopeRecord>)
        requires
            old(self).wf(),
            !has_envelope(old(self).envelopes_view(), envelope_id@),
        ensures
            final(self).wf(),
            final(self).holds_view() == old(self).holds_view(),
            final(self).envelopes_view().len() == old(self).envelopes_view().len() + 1,
            final(self).envelopes_view().take(old(self).envelopes_view().len() as int) == old(self).envelopes_view(),
            r matches Ok(e) && *e == final(self).envelopes_view().last() && ({
                &&& e.envelope_id@ == envelope_id@
                &&& e.actor_id == spec.actor_id
                &&& e.grantor_id == spec.grantor_id
                &&& e.parent_envelope_id matches Some(p) ==> parent_envelope_id matches Some(q)
                    && p@ == q@
                &&& e.parent_envelope_id is None <==> parent_envelope_id is None
                &&& e.budget == spec.budget
                &&& e.budget_consumed == 0
                &&& e.targets == spec.targets
                &&& e.actions == spec.actions
                &&& e.duration_secs == spec.duration_secs
                &&& e.report_every == spec.report_every
                &&& e.hold_on == spec.hold_on
                &&& e.hold_timeout_secs == spec.hold_timeout_secs
                &&& e.status == EnvelopeStatus::Active
                &&& e.last_report_at == 0
                &&& e.expires_at is Some <==> spec.duration_secs is Some
            }),
    {
        let now = now_millis_string();
        let expires_at = match spec.duration_secs {
            Some(d) => {
                let now_ms: u64 = match parse_u64(now.as_str()) {
                    Some(v) => v,
                    None => 0,
                };
                let expires_ms = now_ms.wrapping_add((d as u64).wrapping_mul(1000));
                let mut t = String::new();
                push_u64(&mut t, expires_ms);
                Some(t)
            },
            None => None,
        };
        let parent = match parent_envelope_id {
            Some(p) => Some(String::from_str(p)),
            None => None,
        };
        let ghost before = self.envelopes_view();
        let created = now.clone();
        let record = EnvelopeRecord {
            envelope_id: String::from_str(envelope_id),
            actor_id: spec.actor_id,
            grantor_id: spec.grantor_id,
            parent_envelope_id: parent,
            budget: spec.budget,
            budget_consumed: 0,
            targets: spec.targets,
            actions: spec.actions,
            duration_secs: spec.duration_secs,
            report_every: spec.report_every,
            hold_on: spec.hold_on,
            hold_timeout_secs: spec.hold_timeout_secs,
            status: EnvelopeStatus::Active,
            last_report_at: 0,
            created_at: created,
            expires_at,
            updated_at: now,
        };
        self.envelopes.push(record);
        proof {
            assert(self.envelopes_view().take(before.len() as int) =~= before);
            let rows = self.envelopes_view();
            assert forall|a: int, b: int|
                0 <= a < rows.len() && 0 <= b < rows.len() && a != b implies (
                #[trigger] rows[a]).envelope_id@ != (#[trigger] rows[b]).envelope_id@ by {
                if a < before.len() && b < before.len() {
                    assert(rows[a] == before[a]);
                    assert(rows[b] == before[b]);
                } else if a < before.len() {
                    assert(rows[a] == before[a]);
                    assert(before[a].envelope_id@ != envelope_id@);
                } else {
                    assert(rows[b] == before[b]);
                    assert(before[b].envelope_id@ != envelope_id@);
                }
            }
        }
        let last = self.envelopes.len() - 1;
        Ok(&self.envelopes[last])
    }

    /// The most recently created active envelope of an actor.
    pub fn get_active_for_actor(&self, actor_id: &str) -> (r: KernelResult<Option<&EnvelopeRecord>>)
        ensures
            r matches Ok(o) && (o is None <==> active_index_for(self.envelopes_view(), actor_id@)
                < 0) && (o matches Some(e) ==> *e == self.envelopes_view()[active_index_for(
                self.envelopes_view(),
                actor_id@,
            )]),
    {
        let ghost rows = self.envelopes_view();
        let mut i: usize = self.envelopes.len();
        proof {
            assert(rows.take(i as int) =~= rows);
        }
        while i > 0
            invariant
                i <= self.envelopes.len(),
                rows == self.envelopes_view(),
                active_index_for(rows, actor_id@) == active_index_for(rows.take(i as int), actor_id@),
            decreases i,
        {
            let e = &self.envelopes[i - 1];
            proof {
                assert(rows.take(i as int).drop_last() =~= rows.take(i - 1));
                assert(rows.take(i as int).last() == rows[i - 1]);
            }
            if e.status == EnvelopeStatus::Active && str_eq(e.actor_id.as_str(), actor_id) {
                return Ok(Some(e));
            }
            i = i - 1;
        }
        Ok(None)
    }

    /// An envelope by id.
    pub fn get(&self, envelope_id: &str) -> (r: KernelResult<Option<&EnvelopeRecord>>)
        requires
            self.wf(),
        ensures
            r matches Ok(o) && (o is None <==> !has_envelope(self.envelopes_view(), envelope_id@))
                && (o matches Some(e) ==> *e == self.envelopes_view()[envelope_index(
                self.envelopes_view(),
                envelope_id@,
            )]),
    {
        match self.find_envelope(envelope_id) {
            None => Ok(None),
            Some(i) => Ok(Some(&self.envelopes[i])),
        }
    }

    /// A hold request by id.
    pub fn get_hold_request(&self, hold_id: &str) -> (r: KernelResult<Option<&HoldRequest>>)
        requires
            self.wf(),
        ensures
            r matches Ok(o) && (o is None <==> !has_hold(self.holds_view(), hold_id@)) && (o matches Some(
                h,
            ) ==> *h == self.holds_view()[hold_index(self.holds_view(), hold_id@)]),
    {
        match self.find_hold(hold_id) {
            None => Ok(None),
            Some(i) => Ok(Some(&self.holds[i])),
        }
    }

    /// JSON forms of the pending holds, of one agent when given, oldest first.
    pub fn list_pending_holds(&self, agent_id: Option<&str>) -> (r: KernelResult<Vec<JsonValue>>)
        ensures
            r matches Ok(v) && v@.map_values(|j: JsonValue| j@) == pending_json(
                self.holds_view(),
                match agent_id {
                    Some(a) => Some(a@),
                    None => None,
                },
            ),
    {
        let ghost rows = self.holds_view();
        let ghost agent = match agent_id {
            Some(a) => Some(a@),
            None => None,
        };
        let mut out: Vec<JsonValue> = Vec::new();
        let mut i: usize = 0;
        while i < self.holds.len()
            invariant
                i <= self.holds.len(),
                rows == self.holds_view(),
                agent == (match agent_id {
                    Some(a) => Some(a@),
                    None => None::<Seq<char>>,
                }),
                out@.map_values(|j: JsonValue| j@) == pending_json(rows.take(i as int), agent),
            decreases self.holds.len() - i,
        {
            proof {
                assert(rows.take(i + 1).drop_last() =~= rows.take(i as int));
            }
            let h = &self.holds[i];
            let keep = h.status == HoldStatus::Pending && match agent_id {
                Some(a) => str_eq(h.agent_id.as_str(), a),
                None => true,
            };
            if keep {
                let ghost before = out@.map_values(|j: JsonValue| j@);
                out.push(h.to_json());
                proof {
                    assert(out@.map_values(|j: JsonValue| j@) =~= before.push(rows[i as int].spec_json()));
                }
            }
            i = i + 1;
        }
        proof {
            assert(rows.take(rows.len() as int) =~= rows);
        }
        Ok(out)
    }

    /// Ids of the pending holds of an envelope, oldest first.
    pub fn list_pending_holds_for_envelope(&self, envelope_id: &str) -> (r: KernelResult<Vec<String>>)
        ensures
            r matches Ok(v) && v@.map_values(|s: String| s@) == pending_ids_for(
                self.holds_view(),
                envelope_id@,
            ),
    {
        let ghost rows = self.holds_view();
        let mut out: Vec<String> = Vec::new();
        let mut i: usize = 0;
        while i < self.holds.len()
            invariant
                i <= self.holds.len(),
                rows == self.holds_view(),
                out@.map_values(|s: String| s@) == pending_ids_for(rows.take(i as int), envelope_id@),
            decreases self.holds.len() - i,
        {
            proof {
                assert(rows.take(i + 1).drop_last() =~= rows.take(i as int));
            }
            let h = &self.holds[i];
            if h.status == HoldStatus::Pending && str_eq(h.envelope_id.as_str(), envelope_id) {
                let ghost before = out@.map_values(|s: String| s@);
                out.push(h.hold_id.clone());
                proof {
                    assert(out@.map_values(|s: String| s@) =~= before.push(rows[i as int].hold_id@));
                }
            }
            i = i + 1;
        }
        proof {
            assert(rows.take(rows.len() as int) =~= rows);
        }
        Ok(out)
    }

    /// Stores a new pending hold request.
    pub fn create_hold_request_in_tx(&mut self, req: NewHoldRequest) -> (r: KernelResult<()>)
        requires
            old(self).wf(),
            !has_hold(old(self).holds_view(), req.hold_id@),
        ensures
            final(self).wf(),
            r is Ok,
            final(self).envelopes_view() == old(self).envelopes_view(),
            final(self).holds_view().len() == old(self).holds_view().len() + 1,
            final(self).holds_view().take(old(self).holds_view().len() as int) == old(self).holds_view(),
            ({
                let h = final(self).holds_view().last();
                &&& h.hold_id == req.hold_id
                &&& h.envelope_id == req.envelope_id
                &&& h.agent_id == req.agent_id
                &&& h.trigger_target == req.trigger_target
                &&& h.trigger_action == req.trigger_action
                &&& h.pending_payload == req.pending_payload
                &&& h.status == HoldStatus::Pending
                &&& h.decision is None
                &&& h.instruction is None
                &&& h.resolved_at is None
            }),
    {
        let ghost before = self.holds_view();
        let ghost id = req.hold_id@;
        let h = HoldRequest {
            hold_id: req.hold_id,
            envelope_id: req.envelope_id,
            agent_id: req.agent_id,
            trigger_target: req.trigger_target,
            trigger_action: req.trigger_action,
            pending_payload: req.pending_payload,
            status: HoldStatus::Pending,
            decision: None,
            instruction: None,
            triggered_at: now_millis_string(),
            resolved_at: None,
        };
        self.holds.push(h);
        proof {
            assert(self.holds_view().take(before.len() as int) =~= before);
            let rows = self.holds_view();
            assert forall|a: int, b: int|
                0 <= a < rows.len() && 0 <= b < rows.len() && a != b implies (
                #[trigger] rows[a]).hold_id@ != (#[trigger] rows[b]).hold_id@ by {
                if a < before.len() && b < before.len() {
                    assert(rows[a] == before[a]);
                    assert(rows[b] == before[b]);
                } else if a < before.len() {
                    assert(rows[a] == before[a]);
                    assert(before[a].hold_id@ != id);
                } else {
                    assert(rows[b] == before[b]);
                    assert(before[b].hold_id@ != id);
                }
            }
        }
        Ok(())
    }

    /// Resolves a pending hold: `approve`, `reject`, or `timed_out` leave it
    /// approved, rejected, or timed out.
    pub fn resolve_hold_request_in_tx(&mut self, hold_id: &str, decision: &str, instruction: Option<
        &str,
    >) -> (r: KernelResult<()>)
        requires
            old(self).wf(),
        ensures
            final(self).wf(),
            final(self).envelopes_view() == old(self).envelopes_view(),
            decision_status(decision@) is None ==> (r matches Err(KernelError::PolicyViolation(d))
                && d@ == "invalid hold decision: "@ + decision@
                + "; must be 'approve', 'reject', or 'timed_out'"@),
            decision_status(decision@) is Some && !hold_pending(old(self).holds_view(), hold_id@)
                ==> (r matches Err(KernelError::PolicyViolation(d)) && d@ == "hold_request "@
                + hold_id@ + " not found or already resolved"@),
            r is Ok <==> (decision_status(decision@) is Some && hold_pending(
                old(self).holds_view(),
                hold_id@,
            )),
            r is Err ==> final(self).holds_view() == old(self).holds_view(),
            r is Ok ==> ({
                let i = hold_index(old(self).holds_view(), hold_id@);
                let h = final(self).holds_view()[i];
                let o = old(self).holds_view()[i];
                &&& final(self).holds_view().len() == old(self).holds_view().len()
                &&& forall|j: int|
                    0 <= j < old(self).holds_view().len() && j != i ==> #[trigger] final(self).holds_view()[j] == old(self).holds_view()[j]
                &&& Some(h.status) == decision_status(decision@)
                &&& h.decision matches Some(d) && d@ == decision@
                &&& (h.instruction matches Some(t) ==> instruction matches Some(u) && t@ == u@)
                &&& (h.instruction is None <==> instruction is None)
                &&& h.resolved_at is Some
                &&& pending_count(final(self).holds_view()) + 1 == pending_count(old(self).holds_view())
                &&& h.hold_id == o.hold_id && h.envelope_id == o.envelope_id && h.agent_id
                    == o.agent_id && h.trigger_target == o.trigger_target && h.trigger_action
                    == o.trigger_action && h.pending_payload == o.pending_payload && h.triggered_at
                    == o.triggered_at
            }),
    {
        let status = if str_eq(decision, "approve") {
            HoldStatus::Approved
        } else if str_eq(decision, "reject") {
            HoldStatus::Rejected
        } else if str_eq(decision, "timed_out") {
            HoldStatus::TimedOut
        } else {
            let mut d = String::new();
            push_str(&mut d, "invalid hold decision: ");
            push_str(&mut d, decision);
            push_str(&mut d, "; must be 'approve', 'reject', or 'timed_out'");
            return Err(KernelError::PolicyViolation(d));
        };
        let i = match self.find_hold(hold_id) {
            Some(i) => {
                if self.holds[i].status != HoldStatus::Pending {
                    let mut d = String::new();
                    push_str(&mut d, "hold_request ");
                    push_str(&mut d, hold_id);
                    push_str(&mut d, " not found or already resolved");
                    return Err(KernelError::PolicyViolation(d));
                }
                i
            },
            None => {
                let mut d = String::new();
                push_str(&mut d, "hold_request ");
                push_str(&mut d, hold_id);
                push_str(&mut d, " not found or already resolved");
                return Err(KernelError::PolicyViolation(d));
            },
        };
        let ghost before = self.holds_view();
        let mut h = self.holds.remove(i);
        h.status = status;
        h.decision = Some(String::from_str(decision));
        h.instruction = match instruction {
            Some(t) => Some(String::from_str(t)),
            None => None,
        };
        h.resolved_at = Some(now_millis_string());
        self.holds.insert(i, h);
        proof {
            lemma_pending_count_resolve(before, self.holds_view(), i as int);
            let rows = self.holds_view();
            assert forall|a: int, b: int|
                0 <= a < rows.len() && 0 <= b < rows.len() && a != b implies (
                #[trigger] rows[a]).hold_id@ != (#[trigger] rows[b]).hold_id@ by {
                assert(rows[a].hold_id == before[a].hold_id);
                assert(rows[b].hold_id == before[b].hold_id);
            }
        }
        Ok(())
    }

    /// Adds `amount` to an envelope's consumed budget; returns the new total.
    pub fn consume_budget_in_tx(&mut self, envelope_id: &str, amount: i64) -> (r: KernelResult<i64>)
        requires
            old(self).wf(),
            has_envelope(old(self).envelopes_view(), envelope_id@) ==> ({
                let e = old(self).envelopes_view()[envelope_index(old(self).envelopes_view(), envelope_id@)];
                &&& i64::MIN <= e.budget_consumed + amount <= i64::MAX
                &&& e.budget - (e.budget_consumed + amount) <= i64::MAX
            }),
        ensures
            final(self).wf(),
            final(self).holds_view() == old(self).holds_view(),
            r is Err ==> final(self).envelopes_view() == old(self).envelopes_view(),
            !has_envelope(old(self).envelopes_view(), envelope_id@) ==> (r matches Err(
                KernelError::PolicyViolation(d),
            ) && d@ == "envelope not found: "@ + envelope_id@),
            has_envelope(old(self).envelopes_view(), envelope_id@) ==> ({
                let i = envelope_index(old(self).envelopes_view(), envelope_id@);
                let e = old(self).envelopes_view()[i];
                let total = e.budget_consumed + amount;
                &&& total > e.budget ==> (r matches Err(KernelError::AuthorizationRequired(d))
                    && d@ == "envelope "@ + envelope_id@ + " budget exceeded: budget="@ + int_text(
                    e.budget as int,
                ) + ", already_consumed="@ + int_text(e.budget_consumed as int) + ", requested="@
                    + int_text(amount as int))
                &&& total <= e.budget ==> (r == Ok::<i64, KernelError>(total as i64)
                    && final(self).envelopes_view() == old(self).envelopes_view().update(
                    i,
                    with_consumed(e, total as i64, final(self).envelopes_view()[i].updated_at),
                ))
            }),
    {
        let i = match self.find_envelope(envelope_id) {
            None => {
                let mut d = String::new();
                push_str(&mut d, "envelope not found: ");
                push_str(&mut d, envelope_id);
                return Err(KernelError::PolicyViolation(d));
            },
            Some(i) => i,
        };
        let budget = self.envelopes[i].budget;
        let consumed = self.envelopes[i].budget_consumed;
        let new_consumed = consumed + amount;
        if new_consumed > budget {
            let mut d = String::new();
            push_str(&mut d, "envelope ");
            push_str(&mut d, envelope_id);
            push_str(&mut d, " budget exceeded: budget=");
            push_i64(&mut d, budget);
            push_str(&mut d, ", already_consumed=");
            push_i64(&mut d, consumed);
            push_str(&mut d, ", requested=");
            push_i64(&mut d, amount);
            return Err(KernelError::AuthorizationRequired(d));
        }
        let ghost before = self.envelopes_view();
        let mut e = self.envelopes.remove(i);
        e.budget_consumed = new_consumed;
        e.updated_at = now_millis_string();
        self.envelopes.insert(i, e);
        proof {
            let rows = self.envelopes_view();
            assert(rows =~= before.update(
                i as int,
                with_consumed(before[i as int], new_consumed, rows[i as int].updated_at),
            ));
            assert forall|a: int, b: int|
                0 <= a < rows.len() && 0 <= b < rows.len() && a != b implies (
                #[trigger] rows[a]).envelope_id@ != (#[trigger] rows[b]).envelope_id@ by {
                assert(rows[a].envelope_id == before[a].envelope_id);
                assert(rows[b].envelope_id == before[b].envelope_id);
            }
        }
        Ok(new_consumed)
    }

    /// Changes an envelope's status.
    pub fn set_status_in_tx(&mut self, envelope_id: &str, status: EnvelopeStatus) -> (r: KernelResult<
        (),
    >)
        requires
            old(self).wf(),
        ensures
            final(self).wf(),
            final(self).holds_view() == old(self).holds_view(),
            !has_envelope(old(self).envelopes_view(), envelope_id@) ==> (r matches Err(
                KernelError::PolicyViolation(d),
            ) && d@ == "envelope not found: "@ + envelope_id@) && final(self).envelopes_view()
                == old(self).envelopes_view(),
            has_envelope(old(self).envelopes_view(), envelope_id@) ==> r is Ok && ({
                let i = envelope_index(old(self).envelopes_view(), envelope_id@);
                final(self).envelopes_view() == old(self).envelopes_view().update(
                    i,
                    with_env_status(
                        old(self).envelopes_view()[i],
                        status,
                        final(self).envelopes_view()[i].updated_at,
                    ),
                )
            }),
    {
        let i = match self.find_envelope(envelope_id) {
            None => {
                let mut d = String::new();
                push_str(&mut d, "envelope not found: ");
                push_str(&mut d, envelope_id);
                return Err(KernelError::PolicyViolation(d));
            },
            Some(i) => i,
        };
        let ghost before = self.envelopes_view();
        let mut e = self.envelopes.remove(i);
        e.status = status;
        e.updated_at = now_millis_string();
        self.envelopes.insert(i, e);
        proof {
            let rows = self.envelopes_view();
            assert(rows =~= before.update(
                i as int,
                with_env_status(before[i as int], status, rows[i as int].updated_at),
            ));
            assert forall|a: int, b: int|
                0 <= a < rows.len() && 0 <= b < rows.len() && a != b implies (
                #[trigger] rows[a]).envelope_id@ != (#[trigger] rows[b]).envelope_id@ by {
                assert(rows[a].envelope_id == before[a].envelope_id);
                assert(rows[b].envelope_id == before[b].envelope_id);
            }
        }
        Ok(())
    }

    /// Changes an envelope's status (on its own).
    pub fn set_status(&mut self, envelope_id: &str, status: EnvelopeStatus) -> (r: KernelResult<()>)
        requires
            old(self).wf(),
        ensures
            final(self).wf(),
            final(self).holds_view() == old(self).holds_view(),
            !has_envelope(old(self).envelopes_view(), envelope_id@) ==> (r matches Err(
                KernelError::PolicyViolation(d),
            ) && d@ == "envelope not found: "@ + envelope_id@) && final(self).envelopes_view()
                == old(self).envelopes_view(),
            has_envelope(old(self).envelopes_view(), envelope_id@) ==> r is Ok && ({
                let i = envelope_index(old(self).envelopes_view(), envelope_id@);
                final(self).envelopes_view() == old(self).envelopes_view().update(
                    i,
                    with_env_status(
                        old(self).envelopes_view()[i],
                        status,
                        final(self).envelopes_view()[i].updated_at,
                    ),
                )
            }),
    {
        self.set_status_in_tx(envelope_id, status)
    }

    /// Lazy expiry: an active envelope whose expiry time has passed at
    /// `now_ms` is marked expired; returns whether that happened.
    pub fn expire_if_due(&mut self, envelope_id: &str, now_ms: u64) -> (r: KernelResult<bool>)
        requires
            old(self).wf(),
        ensures
            final(self).wf(),
            final(self).holds_view() == old(self).holds_view(),
            ({
                let rows = old(self).envelopes_view();
                let due = has_envelope(rows, envelope_id@) && rows[envelope_index(
                    rows,
                    envelope_id@,
                )].status == EnvelopeStatus::Active && expired_at(
                    rows[envelope_index(rows, envelope_id@)].expires_at,
                    now_ms,
                );
                &&& r == Ok::<bool, KernelError>(due)
                &&& !due ==> final(self).envelopes_view() == rows
                &&& due ==> final(self).envelopes_view() == rows.update(
                    envelope_index(rows, envelope_id@),
                    with_env_status(
                        rows[envelope_index(rows, envelope_id@)],
                        EnvelopeStatus::Expired,
                        final(self).envelopes_view()[envelope_index(rows, envelope_id@)].updated_at,
                    ),
                )
            }),
    {
        let i = match self.find_envelope(envelope_id) {
            None => {
                return Ok(false);
            },
            Some(i) => i,
        };
        if self.envelopes[i].status != EnvelopeStatus::Active {
            return Ok(false);
        }
        if is_envelope_expired(&self.envelopes[i], now_ms) {
            let r = self.set_status(envelope_id, EnvelopeStatus::Expired);
            match r {
                Ok(()) => Ok(true),
                Err(e) => Err(e),
            }
        } else {
            Ok(false)
        }
    }

    /// Lazy expiry against the clock: an active envelope whose expiry time has
    /// passed is marked expired; returns whether that happened.
    pub fn check_and_expire(&mut self, envelope_id: &str) -> (r: KernelResult<bool>)
        requires
            old(self).wf(),
        ensures
            final(self).wf(),
            final(self).holds_view() == old(self).holds_view(),
            ({
                let rows = old(self).envelopes_view();
                let i = envelope_index(rows, envelope_id@);
                let live = has_envelope(rows, envelope_id@) && rows[i].status == EnvelopeStatus::Active;
                let timed = match rows[i].expires_at {
                    Some(s) => crate::text::parse_u64_spec(s@) is Some,
                    None => false,
                };
                &&& r matches Ok(b)
                &&& !(live && timed) ==> r == Ok::<bool, KernelError>(false)
                &&& r == Ok::<bool, KernelError>(false) ==> final(self).envelopes_view() == rows
                &&& r == Ok::<bool, KernelError>(true) ==> final(self).envelopes_view() == rows.update(
                    i,
                    crate::envelope_store::with_env_status(
                        rows[i],
                        EnvelopeStatus::Expired,
                        final(self).envelopes_view()[i].updated_at,
                    ),
                )
            }),
    {
        let now = now_millis_u64();
        self.expire_if_due(envelope_id, now)
    }

    /// Records when the last checkpoint report was made; an unknown envelope
    /// is left as it is.
    pub fn update_checkpoint_tracking(&mut self, envelope_id: &str, last_report_at: i64) -> (r:
        KernelResult<()>)
        requires
            old(self).wf(),
        ensures
            final(self).wf(),
            r is Ok,
            final(self).holds_view() == old(self).holds_view(),
            !has_envelope(old(self).envelopes_view(), envelope_id@) ==> final(self).envelopes_view()
                == old(self).envelopes_view(),
            has_envelope(old(self).envelopes_view(), envelope_id@) ==> ({
                let i = envelope_index(old(self).envelopes_view(), envelope_id@);
                let e = old(self).envelopes_view()[i];
                final(self).envelopes_view() == old(self).envelopes_view().update(
                    i,
                    EnvelopeRecord {
                        last_report_at,
                        updated_at: final(self).envelopes_view()[i].updated_at,
                        ..e
                    },
                )
            }),
    {
        let i = match self.find_envelope(envelope_id) {
            None => {
                return Ok(());
            },
            Some(i) => i,
        };
        let ghost before = self.envelopes_view();
        let mut e = self.envelopes.remove(i);
        e.last_report_at = last_report_at;
        e.updated_at = now_millis_string();
        self.envelopes.insert(i, e);
        proof {
            let rows = self.envelopes_view();
            assert(rows =~= before.update(
                i as int,
                EnvelopeRecord {
                    last_report_at,
                    updated_at: rows[i as int].updated_at,
                    ..before[i as int]
                },
            ));
            assert forall|a: int, b: int|
                0 <= a < rows.len() && 0 <= b < rows.len() && a != b implies (
                #[trigger] rows[a]).envelope_id@ != (#[trigger] rows[b]).envelope_id@ by {
                assert(rows[a].envelope_id == before[a].envelope_id);
                assert(rows[b].envelope_id == before[b].envelope_id);
            }
        }
        Ok(())
    }
}

} // verus!
