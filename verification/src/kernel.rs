//! The kernel: a single writer that validates, prices, records and settles
//! actions, with the energy ledger, the event log, the audit tree, the actor
//! table and the envelope table as its state.
use crate::action::{payload_hash_hex, quote_cost, Action, ActionType};
use crate::actor::{ActorRecord, ActorStatus, ActorType, CreateActorSpec, WritableTarget};
use crate::actor_store::{actor_index, has_actor, ActorStore};
use crate::audit::{hash_from_hex, tlog_stored_hash_index, walk_up, AuditError, AuditLog};
use crate::consent::{EnvelopeRecord, EnvelopeSpec, EnvelopeStatus};
use crate::envelope_store::{has_envelope, has_hold, EnvelopeStore, NewHoldRequest};
use crate::errors::{KernelError, KernelResult};
use crate::event_log::{event_hash_of, EventLog, EventRecord, EventView};
use crate::json::{JsonNumber, JsonValue};
use crate::ledger::{after_settle, balance_of, has_account, reserved_of, EnergyLedger, EnergyReservation};
use crate::protocol::ResponseEnvelope;
use crate::text::str_eq;
use vstd::prelude::*;
use vstd::string::*;

verus! {

/// The receipt of a committed action: where its event sits in the log, its
/// hash, and its energy costs.
#[derive(Debug, Clone)]
pub struct SubmitReceipt {
    pub event_id: String,
    pub log_index: i64,
    pub event_hash: String,
    pub reserved_cost: i64,
    pub settled_cost: i64,
    pub artifact_hash: Option<String>,
}

/// Where the kernel keeps its state and how it is reached.
#[derive(Debug, Clone)]
pub struct KernelConfig {
    pub state_dir: String,
    pub ipc_endpoint: String,
}

/// The largest number of events the audit tree can index.
pub const MAX_EVENTS: u64 = 0x4000_0000_0000_0000;

/// The kernel's state.
#[derive(Debug)]
pub struct Kernel {
    energy_ledger: EnergyLedger,
    event_log: EventLog,
    audit_log: AuditLog,
    actor_store: ActorStore,
    envelope_store: EnvelopeStore,
    policy_version: Option<String>,
}

/// Whether the audit tree takes leaf `n` with hash text `h`.
pub open spec fn audit_accepts(stored: crate::audit::StoredHashes, n: u64, h: Seq<char>) -> bool {
    match hash_from_hex(vstd::utf8::encode_utf8(h)) {
        Some(leaf) => walk_up(stored, n, 0, leaf) is Ok,
        None => false,
    }
}

impl Kernel {
    pub closed spec fn ledger(&self) -> Seq<crate::ledger::Account> {
        self.energy_ledger@
    }

    pub closed spec fn events(&self) -> Seq<EventView> {
        self.event_log@
    }

    pub closed spec fn audit(&self) -> crate::audit::StoredHashes {
        self.audit_log@
    }

    /// The audit checkpoints recorded so far, in order.
    pub closed spec fn checkpoints(&self) -> Seq<crate::audit::AuditCheckpoint> {
        self.audit_log.checkpoints_view()
    }

    pub closed spec fn actors(&self) -> Seq<ActorRecord> {
        self.actor_store@
    }

    pub closed spec fn envelopes(&self) -> Seq<crate::consent::EnvelopeRecord> {
        self.envelope_store.envelopes_view()
    }

    pub closed spec fn holds(&self) -> Seq<crate::envelope_store::HoldRequest> {
        self.envelope_store.holds_view()
    }

    pub closed spec fn spec_policy_version(&self) -> Option<String> {
        self.policy_version
    }

    /// The kernel's invariant: every part is well formed and the log has room.
    pub closed spec fn wf(&self) -> bool {
        &&& self.energy_ledger.wf()
        &&& self.event_log.wf()
        &&& self.audit_log.wf()
        &&& self.actor_store.wf()
        &&& self.envelope_store.wf()
        &&& self.actor_store@.len() <= self.event_log@.len() + 1
        &&& self.event_log@.len() < MAX_EVENTS
    }

    /// A kernel with its root actor: a human with 1,000,000 units of energy,
    /// every action on `**`, and an energy share of 100.
    pub fn bootstrap() -> (k: Self)
        ensures
            k.wf(),
            k.events().len() == 0,
            has_account(k.ledger(), "root"@),
            balance_of(k.ledger(), "root"@) == 1_000_000,
            reserved_of(k.ledger(), "root"@) == 0,
            has_actor(k.actors(), "root"@),
            k.actors()[actor_index(k.actors(), "root"@)].actor_type == ActorType::Human,
            k.actors()[actor_index(k.actors(), "root"@)].status == ActorStatus::Active,
            k.actors().len() == 1,
            k.ledger().len() == 1,
            k.envelopes().len() == 0,
            k.holds().len() == 0,
            k.checkpoints().len() == 0,
            ({
                let root = k.actors()[0];
                &&& root.actor_id@ == "root"@
                &&& root.lineage@.len() == 0
                &&& root.purpose is None
                &&& root.reduction_policy@ == "none"@
                &&& root.energy_share matches JsonNumber::Float(t) && t@ == "100.0"@
                &&& root.writable_targets@.len() == 1
                &&& root.writable_targets@[0].target@ == "**"@
                &&& crate::text::views_of(root.writable_targets@[0].actions@) == seq![
                    "create"@,
                    "mutate"@,
                    "execute"@,
                ]
            }),
    {
        proof {
            reveal_strlit("root");
        }
        let mut energy_ledger = EnergyLedger::new();
        let r1 = energy_ledger.create_actor_in_tx("root", 1_000_000);
        proof {
            assert(!crate::policy::is_blank("root"@)) by {
                assert(!crate::policy::is_white("root"@[0]));
            }
            assert(!has_account(Seq::<crate::ledger::Account>::empty(), "root"@));
        }
        let mut actor_store = ActorStore::new();
        let mut actions: Vec<String> = Vec::new();
        actions.push(String::from_str("create"));
        actions.push(String::from_str("mutate"));
        actions.push(String::from_str("execute"));
        let mut targets: Vec<WritableTarget> = Vec::new();
        targets.push(WritableTarget { target: String::from_str("**"), actions });
        let spec = CreateActorSpec {
            actor_id: String::from_str("root"),
            actor_type: ActorType::Human,
            creator_id: String::new(),
            lineage: Vec::new(),
            purpose: None,
            writable_targets: targets,
            energy_balance: 1_000_000,
            energy_share: JsonNumber::Float(String::from_str("100.0")),
            reduction_policy: String::from_str("none"),
        };
        let ghost acts = spec.writable_targets@[0].actions@;
        let r2 = actor_store.create_in_tx(spec);
        proof {
            assert(crate::text::views_of(acts) =~= seq!["create"@, "mutate"@, "execute"@]);
            assert(!has_actor(Seq::<ActorRecord>::empty(), "root"@));
            let rows = actor_store@;
            assert(rows.len() == 1);
            assert(rows[0].actor_id@ == "root"@);
            crate::actor_store::lemma_actor_index(rows, "root"@, 0);
            let lrows = energy_ledger@;
            assert(lrows.len() == 1);
            assert(lrows[0].0 == "root"@);
            crate::ledger::lemma_account_index(lrows, "root"@, 0);
        }
        Kernel {
            energy_ledger,
            event_log: EventLog::new(),
            audit_log: AuditLog::new("punkgo/kernel"),
            actor_store,
            envelope_store: EnvelopeStore::new(),
            policy_version: None,
        }
    }

    /// The energy ledger.
    pub fn energy_ledger(&self) -> (r: &EnergyLedger)
        ensures
            r@ == self.ledger(),
    {
        &self.energy_ledger
    }

    /// The actor table.
    pub fn actor_store(&self) -> (r: &ActorStore)
        ensures
            r@ == self.actors(),
    {
        &self.actor_store
    }

    /// The envelope table.
    pub fn envelope_store(&self) -> (r: &EnvelopeStore)
        ensures
            r.envelopes_view() == self.envelopes(),
            r.holds_view() == self.holds(),
    {
        &self.envelope_store
    }

    /// The event log.
    pub fn event_log(&self) -> (r: &EventLog)
        ensures
            r@ == self.events(),
    {
        &self.event_log
    }

    /// The audit tree.
    pub fn audit_log(&self) -> (r: &AuditLog)
        ensures
            r@ == self.audit(),
    {
        &self.audit_log
    }

    /// The last recorded policy version.
    pub fn policy_version(&self) -> (r: Option<&str>)
        ensures
            r is None <==> self.spec_policy_version() is None,
            r matches Some(v) ==> self.spec_policy_version() matches Some(p) && p@ == v@,
    {
        match &self.policy_version {
            Some(v) => Some(v.as_str()),
            None => None,
        }
    }
}

/// The event as committed at position `n`: its index set and its hash computed.
pub open spec fn sealed(e: EventView, n: int) -> EventView {
    let placed = crate::event_log::with_index_and_hash(e, n as i64, e.event_hash);
    crate::event_log::with_index_and_hash(e, n as i64, event_hash_of(placed))
}

impl Kernel {
    /// Commits an event: its audit leaf, then the event itself.  When the
    /// audit tree refuses the leaf, nothing changes.
    fn commit_event(&mut self, event: &mut EventRecord) -> (r: KernelResult<()>)
        requires
            old(self).wf(),
        ensures
            final(self).wf(),
            final(self).ledger() == old(self).ledger(),
            final(self).actors() == old(self).actors(),
            final(self).envelopes() == old(self).envelopes(),
            final(self).holds() == old(self).holds(),
            final(self).spec_policy_version() == old(self).spec_policy_version(),
            ({
                let n = old(self).events().len();
                let s = sealed(old(event)@, n as int);
                &&& r is Ok <==> (n + 1 < MAX_EVENTS && audit_accepts(old(self).audit(), n as u64, s.event_hash))
                &&& r is Ok <==> (n + 1 < MAX_EVENTS && crate::audit::tree_has_room(old(self).audit(), n as u64))
                &&& r is Ok ==> final(self).events() == old(self).events().push(s) && final(event)@ == s
                &&& r is Err ==> final(self).events() == old(self).events() && final(self).audit()
                    == old(self).audit() && r matches Err(KernelError::Audit(_))
            }),
    {
        let count = match self.event_log.count() {
            Ok(c) => c,
            Err(e) => {
                return Err(e);
            },
        };
        if count as u64 >= MAX_EVENTS - 1 {
            return Err(KernelError::Audit(String::from_str("audit tree is full")));
        }
        let n: u64 = count as u64;
        event.log_index = count;
        let h = match crate::event_log::compute_event_hash(event) {
            Ok(h) => h,
            Err(e) => {
                return Err(e);
            },
        };
        proof {
            let digest = crate::digest::sha256_digest(
                seq![0x00u8] + crate::event_log::canonical_event_bytes(event@),
            );
            crate::audit::lemma_hash_hex_roundtrip(digest);
            crate::audit::lemma_walk_up_any_leaf(old(self).audit(), n, 0, digest, Seq::empty());
            assert(h@ == crate::hex::hex_of(digest));
            assert(vstd::utf8::is_ascii_chars(h@));
            assert(crate::event_log::canonical_event_bytes(event@)
                == crate::event_log::canonical_event_bytes(
                crate::event_log::with_index_and_hash(old(event)@, n as i64, old(event)@.event_hash),
            ));
        }
        match self.audit_log.append_leaf(n, h.as_str()) {
            Ok(()) => {},
            Err(e) => {
                let m = e.to_string();
                return Err(KernelError::Audit(m));
            },
        }
        let appended = self.event_log.append(event);
        proof {
            assert(event@ == sealed(old(event)@, n as int));
        }
        match appended {
            Ok(()) => Ok(()),
            Err(e) => Err(e),
        }
    }
}

/// Whether an actor record is the one created from a creation request: same
/// id, type, lineage, purpose, boundary, share and reduction policy, the
/// requester as its creator, and active.
pub open spec fn created_from(a: ActorRecord, c: CreateActorSpec) -> bool {
    &&& a.actor_id == c.actor_id
    &&& a.actor_type == c.actor_type
    &&& a.creator_id == Some(c.creator_id)
    &&& a.lineage == c.lineage
    &&& a.purpose == c.purpose
    &&& a.status == ActorStatus::Active
    &&& a.writable_targets == c.writable_targets
    &&& a.energy_share == c.energy_share
    &&& a.reduction_policy == c.reduction_policy
}

/// The actor table after an optional creation.
pub open spec fn actors_after(before: Seq<ActorRecord>, after: Seq<ActorRecord>, c: Option<CreateActorSpec>) -> bool {
    match c {
        Some(c) => after.len() == before.len() + 1 && after.take(before.len() as int) == before
            && created_from(after.last(), c),
        None => after == before,
    }
}

/// The ledger after settling an optional reservation at `settled` units.
pub open spec fn settled_ledger(
    l: Seq<crate::ledger::Account>,
    res: Option<EnergyReservation>,
    settled: i64,
) -> Seq<crate::ledger::Account> {
    match res {
        Some(r) => after_settle(l, r.actor_id@, r.reserved as int, settled as int),
        None => l,
    }
}

/// Whether settling the optional reservation at `settled` units succeeds.
pub open spec fn settle_ok(l: Seq<crate::ledger::Account>, res: Option<EnergyReservation>, settled: i64) -> bool {
    match res {
        Some(r) => {
            let bal = balance_of(l, r.actor_id@);
            let rs = reserved_of(l, r.actor_id@);
            let extra = if settled - r.reserved > 0 {
                settled - r.reserved
            } else {
                0
            };
            r.reserved >= 0 && settled >= 0 && has_account(l, r.actor_id@) && rs >= r.reserved && bal
                - rs >= extra
        },
        None => true,
    }
}

/// Whether the optional new actor can be opened in the ledger and the table.
pub open spec fn creation_ok(
    l: Seq<crate::ledger::Account>,
    actors: Seq<ActorRecord>,
    spec: Option<CreateActorSpec>,
) -> bool {
    match spec {
        Some(c) => !crate::policy::is_blank(c.actor_id@) && c.energy_balance >= 0 && !has_account(
            l,
            c.actor_id@,
        ) && !has_actor(actors, c.actor_id@),
        None => true,
    }
}

impl Kernel {
    /// The first error that settling, opening the new actor's account and
    /// record, and storing the new envelope would give, in that order.
    fn check_finalize(
        &self,
        reservation: &Option<EnergyReservation>,
        settled_cost: i64,
        create_actor: &Option<CreateActorSpec>,
        create_envelope: &Option<(String, EnvelopeSpec, Option<String>)>,
    ) -> (r: KernelResult<()>)
        requires
            self.wf(),
        ensures
            r is Ok <==> (settle_ok(self.ledger(), *reservation, settled_cost) && creation_ok(
                settled_ledger(self.ledger(), *reservation, settled_cost),
                self.actors(),
                *create_actor,
            ) && (create_envelope matches Some((id, _, _)) ==> !has_envelope(
                self.envelopes(),
                id@,
            ))),
    {
        match reservation {
            Some(res) => match self.energy_ledger.check_settle(
                res.actor_id.as_str(),
                res.reserved,
                settled_cost,
            ) {
                Ok(()) => {},
                Err(e) => {
                    return Err(e);
                },
            },
            None => {},
        }
        proof {
            // Settling changes no account ids.
            match reservation {
                Some(res) => {
                    let l0 = self.ledger();
                    let l1 = after_settle(l0, res.actor_id@, res.reserved as int, settled_cost as int);
                    match create_actor {
                        Some(c) => {
                            if has_account(l1, c.actor_id@) {
                                let j = crate::ledger::account_index(l1, c.actor_id@);
                                assert(l0[j].0 == l1[j].0);
                            }
                            if has_account(l0, c.actor_id@) {
                                let j = crate::ledger::account_index(l0, c.actor_id@);
                                assert(l0[j].0 == l1[j].0);
                            }
                        },
                        None => {},
                    }
                },
                None => {},
            }
        }
        match create_actor {
            Some(spec) => {
                match self.energy_ledger.check_create_actor(spec.actor_id.as_str(), spec.energy_balance) {
                    Ok(()) => {},
                    Err(e) => {
                        return Err(e);
                    },
                }
                match self.actor_store.check_create(spec.actor_id.as_str()) {
                    Ok(()) => {},
                    Err(e) => {
                        return Err(e);
                    },
                }
            },
            None => {},
        }
        match create_envelope {
            Some((id, _, _)) => match self.envelope_store.get(id.as_str()) {
                Ok(Some(_)) => {
                    return Err(
                        KernelError::Db(
                            String::from_str("UNIQUE constraint failed: envelopes.envelope_id"),
                        ),
                    );
                },
                _ => {},
            },
            None => {},
        }
        Ok(())
    }

    /// Settles, opens the new actor, and stores the new envelope, once
    /// `check_finalize` has passed.
    fn apply_finalize(
        &mut self,
        reservation: Option<EnergyReservation>,
        settled_cost: i64,
        create_actor: Option<CreateActorSpec>,
        create_envelope: Option<(String, EnvelopeSpec, Option<String>)>,
    )
        requires
            old(self).wf(),
            settle_ok(old(self).ledger(), reservation, settled_cost),
            creation_ok(
                settled_ledger(old(self).ledger(), reservation, settled_cost),
                old(self).actors(),
                create_actor,
            ),
            create_envelope matches Some((id, _, _)) ==> !has_envelope(old(self).envelopes(), id@),
            old(self).actors().len() <= old(self).events().len(),
        ensures
            final(self).wf(),
            final(self).holds() == old(self).holds(),
            final(self).events() == old(self).events(),
            final(self).audit() == old(self).audit(),
            final(self).spec_policy_version() == old(self).spec_policy_version(),
            ({
                let l1 = settled_ledger(old(self).ledger(), reservation, settled_cost);
                final(self).ledger() == match create_actor {
                    Some(c) => l1.push((c.actor_id@, c.energy_balance as int, 0int)),
                    None => l1,
                }
            }),
            actors_after(old(self).actors(), final(self).actors(), create_actor),
            match create_envelope {
                Some((id, _, _)) => final(self).envelopes().len() == old(self).envelopes().len() + 1
                    && final(self).envelopes().take(old(self).envelopes().len() as int) == old(self).envelopes() && final(self).envelopes().last().envelope_id@ == id@,
                None => final(self).envelopes() == old(self).envelopes(),
            },
    {
        match &reservation {
            Some(res) => {
                let settled = self.energy_ledger.settle(res.actor_id.as_str(), res.reserved, settled_cost);
                proof {
                    assert(settled is Ok);
                }
            },
            None => {},
        }
        match create_actor {
            Some(spec) => {
                let opened = self.energy_ledger.create_actor_in_tx(spec.actor_id.as_str(), spec.energy_balance);
                proof {
                    assert(opened is Ok);
                }
                let created = self.actor_store.create_in_tx(spec);
                proof {
                    assert(created is Ok);
                }
            },
            None => {},
        }
        match create_envelope {
            Some((id, spec, parent)) => {
                let parent_ref: Option<&str> = match &parent {
                    Some(p) => Some(p.as_str()),
                    None => None,
                };
                let _ = self.envelope_store.create_in_tx(id.as_str(), spec, parent_ref);
            },
            None => {},
        }
    }

    /// Settles the energy, creates the requested actor and envelope, and
    /// commits the event, all or nothing.
    fn finalize_energy_and_event(
        &mut self,
        reservation: Option<EnergyReservation>,
        settled_cost: i64,
        create_actor: Option<CreateActorSpec>,
        create_envelope: Option<(String, EnvelopeSpec, Option<String>)>,
        event: &mut EventRecord,
    ) -> (r: KernelResult<()>)
        requires
            old(self).wf(),
        ensures
            final(self).wf(),
            final(self).holds() == old(self).holds(),
            final(self).spec_policy_version() == old(self).spec_policy_version(),
            r is Err ==> final(self).ledger() == old(self).ledger() && final(self).events() == old(self).events() && final(self).audit() == old(self).audit() && final(self).actors() == old(self).actors() && final(self).envelopes() == old(self).envelopes(),
            r is Ok ==> actors_after(old(self).actors(), final(self).actors(), create_actor),
            r is Ok && create_envelope is None ==> final(self).envelopes() == old(self).envelopes(),
            r is Ok ==> ({
                let n = old(self).events().len();
                let l1 = settled_ledger(old(self).ledger(), reservation, settled_cost);
                &&& final(self).events() == old(self).events().push(sealed(old(event)@, n as int))
                &&& final(event)@ == sealed(old(event)@, n as int)
                &&& final(self).ledger() == match create_actor {
                    Some(c) => l1.push((c.actor_id@, c.energy_balance as int, 0int)),
                    None => l1,
                }
            }),
            ({
                let ok = settle_ok(old(self).ledger(), reservation, settled_cost) && creation_ok(
                    settled_ledger(old(self).ledger(), reservation, settled_cost),
                    old(self).actors(),
                    create_actor,
                ) && (create_envelope matches Some((id, _, _)) ==> !has_envelope(
                    old(self).envelopes(),
                    id@,
                ));
                &&& r is Ok <==> (ok && old(self).events().len() + 1 < MAX_EVENTS && audit_accepts(
                    old(self).audit(),
                    old(self).events().len() as u64,
                    sealed(old(event)@, old(self).events().len() as int).event_hash,
                ))
                &&& r is Ok <==> (ok && old(self).events().len() + 1 < MAX_EVENTS
                    && crate::audit::tree_has_room(old(self).audit(), old(self).events().len() as u64))
            }),
    {
        match self.check_finalize(&reservation, settled_cost, &create_actor, &create_envelope) {
            Ok(()) => {},
            Err(e) => {
                return Err(e);
            },
        }
        match self.commit_event(event) {
            Ok(()) => {},
            Err(e) => {
                return Err(e);
            },
        }
        self.apply_finalize(reservation, settled_cost, create_actor, create_envelope);
        Ok(())
    }
}

/// Whether `b` is `a` followed by more events.
pub open spec fn extends(a: Seq<EventView>, b: Seq<EventView>) -> bool {
    a.len() <= b.len() && forall|i: int| 0 <= i < a.len() ==> #[trigger] b[i] == a[i]
}

/// `ledger/hold/{hold_id}`.
fn hold_target(hold_id: &str) -> (r: String)
    ensures
        r@ == "ledger/hold/"@ + hold_id@,
{
    let mut t = String::new();
    crate::text::push_str(&mut t, "ledger/hold/");
    crate::text::push_str(&mut t, hold_id);
    t
}

/// A `{target, action_type}` object.
fn trigger_json(target: &str, action_type: &str) -> (r: JsonValue)
    ensures
        r@ == crate::json::JsonView::Object(
            seq![("action_type"@, crate::json::JsonView::String(action_type@)), ("target"@, crate::json::JsonView::String(target@))],
        ),
{
    crate::json::json_object2(
        crate::json::entry("action_type", crate::json::json_str(action_type)),
        crate::json::entry("target", crate::json::json_str(target)),
    )
}

impl Kernel {
    /// Puts an action on hold: reserves its cost, records a `hold_request`
    /// event, and stores a pending hold request, all or nothing.  Answers
    /// `HoldTriggered` when that succeeds.
    fn trigger_hold(&mut self, action: &Action, envelope_id: &str) -> (r: KernelResult<SubmitReceipt>)
        requires
            old(self).wf(),
        ensures
            final(self).wf(),
            extends(old(self).events(), final(self).events()),
            final(self).actors() == old(self).actors(),
            final(self).envelopes() == old(self).envelopes(),
            final(self).spec_policy_version() == old(self).spec_policy_version(),
            r is Err,
            hold_can_record(*old(self), *action) ==> hold_outcome(*old(self), *final(self), *action, envelope_id@, r),
            r matches Err(KernelError::HoldTriggered { hold_id, agent_id }) ==> agent_id@
                == action.actor_id@ && has_hold(final(self).holds(), hold_id@)
                && final(self).events().len() == old(self).events().len() + 1
                && final(self).events().last().action_type == "hold_request"@
                && final(self).events().last().target == "ledger/hold/"@ + hold_id@,
            !(r matches Err(KernelError::HoldTriggered { .. })) ==> final(self).events() == old(
                self,
            ).events() && final(self).holds() == old(self).holds() && final(self).ledger() == old(
                self,
            ).ledger(),
    {
        let hold_id = crate::clock::new_uuid();
        let reserved_cost = quote_cost(action) as i64;
        let action_type = action.action_type.as_str();
        let triggered_at = crate::clock::now_millis_string();
        let pending = crate::json::json_object3(
            crate::json::entry("action_type", crate::json::json_str(action_type)),
            crate::json::entry("payload", crate::json::copy_value(&action.payload)),
            crate::json::entry("target", crate::json::json_str(action.target.as_str())),
        );
        let hold_payload = crate::json::json_object(
            vec![
                crate::json::entry("agent_id", crate::json::json_str(action.actor_id.as_str())),
                crate::json::entry("hold_id", crate::json::json_str(hold_id.as_str())),
                crate::json::entry("pending_action", pending),
                crate::json::entry("reserved_cost", crate::json::json_i64(reserved_cost)),
                crate::json::entry("trigger", trigger_json(action.target.as_str(), action_type)),
                crate::json::entry("triggered_at", crate::json::json_str(triggered_at.as_str())),
            ],
        );
        let target = hold_target(hold_id.as_str());
        let hold_action = Action {
            actor_id: action.actor_id.clone(),
            action_type: ActionType::Mutate,
            target: target.clone(),
            payload: crate::json::copy_value(&hold_payload),
            timestamp: None,
        };
        let payload_hash = match payload_hash_hex(&hold_action) {
            Ok(h) => h,
            Err(e) => {
                return Err(e);
            },
        };
        let mut hold_event = EventRecord {
            id: crate::clock::new_uuid(),
            log_index: 0,
            event_hash: String::new(),
            actor_id: action.actor_id.clone(),
            action_type: String::from_str("hold_request"),
            target,
            payload: hold_payload,
            payload_hash,
            artifact_hash: None,
            reserved_energy: reserved_cost,
            settled_energy: 0,
            timestamp: crate::clock::now_millis_string(),
        };
        // Checks first, so that nothing changes when a step would fail.
        if reserved_cost > 0 {
            match self.energy_ledger.check_reserve(action.actor_id.as_str(), reserved_cost) {
                Ok(()) => {},
                Err(e) => {
                    return Err(e);
                },
            }
        }
        match self.envelope_store.get_hold_request(hold_id.as_str()) {
            Ok(Some(_)) => {
                return Err(
                    KernelError::Db(String::from_str("UNIQUE constraint failed: hold_requests.hold_id")),
                );
            },
            _ => {},
        }
        let ghost before = self.events();
        match self.commit_event(&mut hold_event) {
            Ok(()) => {},
            Err(e) => {
                return Err(e);
            },
        }
        if reserved_cost > 0 {
            let reserved = self.energy_ledger.reserve(action.actor_id.as_str(), reserved_cost);
            proof {
                assert(reserved is Ok);
            }
        }
        let pending_payload = crate::json::json_object4(
            crate::json::entry("action_type", crate::json::json_str(action_type)),
            crate::json::entry("payload", crate::json::copy_value(&action.payload)),
            crate::json::entry("reserved_cost", crate::json::json_i64(reserved_cost)),
            crate::json::entry("target", crate::json::json_str(action.target.as_str())),
        );
        let req = NewHoldRequest {
            hold_id: hold_id.clone(),
            envelope_id: String::from_str(envelope_id),
            agent_id: action.actor_id.clone(),
            trigger_target: action.target.clone(),
            trigger_action: String::from_str(action_type),
            pending_payload,
        };
        let _ = self.envelope_store.create_hold_request_in_tx(req);
        proof {
            let hv = self.holds();
            assert(hv.last().hold_id@ == hold_id@);
            assert(has_hold(hv, hold_id@)) by {
                assert(hv[hv.len() - 1].hold_id@ == hold_id@);
            }
        }
        Err(KernelError::HoldTriggered { hold_id, agent_id: action.actor_id.clone() })
    }
}

/// Whether a hold triggered at `triggered_at` (milliseconds) has outlived a
/// timeout of `timeout_secs` seconds at `now`.
pub open spec fn hold_timed_out(now: u64, triggered_at: u64, timeout_secs: i64) -> bool {
    (if now >= triggered_at {
        now - triggered_at
    } else {
        0
    }) > (timeout_secs as u64).wrapping_mul(1000)
}

/// The `hold_timeout` event of a hold that timed out at `now`.
fn timeout_record(
    hold_id: &str,
    agent_id: &str,
    triggered_at: u64,
    reserved_cost: i64,
    commitment_cost: i64,
    now: u64,
) -> (r: KernelResult<EventRecord>)
    ensures
        r matches Ok(e) ==> e@.action_type == "hold_timeout"@ && e@.actor_id == agent_id@,
{
    let timeout_payload = crate::json::json_object(
        vec![
            crate::json::entry("agent_id", crate::json::json_str(agent_id)),
            crate::json::entry("commitment_cost", crate::json::json_i64(commitment_cost)),
            crate::json::entry("decision", crate::json::json_str("timed_out")),
            crate::json::entry(
                "expired_at",
                JsonValue::String(crate::text::u64_to_string(now)),
            ),
            crate::json::entry("hold_id", crate::json::json_str(hold_id)),
            crate::json::entry("reserved_cost", crate::json::json_i64(reserved_cost)),
            crate::json::entry(
                "triggered_at",
                JsonValue::String(crate::text::u64_to_string(triggered_at)),
            ),
        ],
    );
    let target = hold_target(hold_id);
    let timeout_action = Action {
        actor_id: String::from_str(agent_id),
        action_type: ActionType::Mutate,
        target: target.clone(),
        payload: crate::json::copy_value(&timeout_payload),
        timestamp: None,
    };
    let payload_hash = match payload_hash_hex(&timeout_action) {
        Ok(h) => h,
        Err(e) => {
            return Err(e);
        },
    };
    let timeout_event = EventRecord {
        id: crate::clock::new_uuid(),
        log_index: 0,
        event_hash: String::new(),
        actor_id: String::from_str(agent_id),
        action_type: String::from_str("hold_timeout"),
        target,
        payload: timeout_payload,
        payload_hash,
        artifact_hash: None,
        reserved_energy: reserved_cost,
        settled_energy: commitment_cost,
        timestamp: crate::clock::now_millis_string(),
    };
    Ok(timeout_event)
}

/// The first `k + 1` items of a sequence hold what the first `k` hold, and
/// item `k`.
proof fn lemma_take_next_contains(s: Seq<Seq<char>>, k: int)
    requires
        0 <= k < s.len(),
    ensures
        forall|x: Seq<char>| #[trigger] s.take(k + 1).contains(x) <==> (s.take(k).contains(x) || x == s[k]),
{
    assert forall|x: Seq<char>| #[trigger] s.take(k + 1).contains(x) <==> (s.take(k).contains(x) || x == s[k]) by {
        let t1 = s.take(k + 1);
        let t0 = s.take(k);
        if t1.contains(x) {
            let j = choose|j: int| 0 <= j < t1.len() && t1[j] == x;
            if j < k {
                assert(t0[j] == x);
            }
        }
        if t0.contains(x) {
            let j = choose|j: int| 0 <= j < t0.len() && t0[j] == x;
            assert(t1[j] == x);
        }
        if x == s[k] {
            assert(s.take(k + 1)[k] == x);
        }
    }
}

/// When a hold was triggered, in milliseconds; 0 when its text is no number.
pub open spec fn triggered_of(h: crate::envelope_store::HoldRequest) -> u64 {
    match crate::text::parse_u64_spec(h.triggered_at@) {
        Some(t) => t,
        None => 0,
    }
}

/// Whether a hold of the envelope times out at `now`: it is pending and has
/// waited longer than the timeout since it was triggered.
pub open spec fn times_out(
    h: crate::envelope_store::HoldRequest,
    envelope: Seq<char>,
    now: u64,
    timeout_secs: i64,
) -> bool {
    &&& h.status == crate::envelope_store::HoldStatus::Pending
    &&& h.envelope_id@ == envelope
    &&& hold_timed_out(now, triggered_of(h), timeout_secs)
}

/// The hold table after an envelope's time-outs at `now`: the holds that time
/// out are marked timed out, and every other hold is as it was.
pub open spec fn timeouts_marked(
    before: Seq<crate::envelope_store::HoldRequest>,
    after: Seq<crate::envelope_store::HoldRequest>,
    envelope: Seq<char>,
    now: u64,
    timeout_secs: i64,
) -> bool {
    &&& after.len() == before.len()
    &&& forall|i: int|
        0 <= i < before.len() && #[trigger] times_out(before[i], envelope, now, timeout_secs) ==> after[i].status
            == crate::envelope_store::HoldStatus::TimedOut && after[i].hold_id == before[i].hold_id
    &&& forall|i: int|
        0 <= i < before.len() && !#[trigger] times_out(before[i], envelope, now, timeout_secs) ==> after[i]
            == before[i]
}

/// Whether every event after the first `n` records a hold time-out.
pub open spec fn timeout_events_after(events: Seq<EventView>, n: int) -> bool {
    forall|j: int| n <= j < events.len() ==> (#[trigger] events[j]).action_type == "hold_timeout"@
}

fn timed_out(now: u64, triggered_at: u64, timeout_secs: i64) -> (r: bool)
    ensures
        r == hold_timed_out(now, triggered_at, timeout_secs),
{
    let waited: u64 = if now >= triggered_at {
        now - triggered_at
    } else {
        0
    };
    let limit: u64 = (timeout_secs as u64).wrapping_mul(1000);
    waited > limit
}

/// The reserved cost recorded in a hold's pending payload (0 when absent).
pub open spec fn hold_reserved_cost(h: crate::envelope_store::HoldRequest) -> i64 {
    crate::requests::i64_or(h.pending_payload, "reserved_cost"@, 0)
}

impl Kernel {
    /// Auto-rejects the pending holds of an envelope that have outlived the
    /// timeout at `now` (milliseconds): each gets a `hold_timeout` event, is
    /// marked timed out, and its reservation is settled at the commitment cost.
    #[verifier::rlimit(100)]
    #[verifier::spinoff_prover]
    fn expire_timed_out_holds<F: Fn(i64) -> i64>(
        &mut self,
        envelope_id: &str,
        hold_timeout_secs: i64,
        now: u64,
        commitment: &F,
    ) -> (r: KernelResult<()>)
        requires
            old(self).wf(),
            forall|c: i64| c > 0 ==> commitment.requires((c,)),
        ensures
            final(self).wf(),
            r is Ok ==> timeouts_marked(old(self).holds(), final(self).holds(), envelope_id@, now, hold_timeout_secs),
            timeout_events_after(final(self).events(), old(self).events().len() as int),
            (forall|i: int|
                0 <= i < old(self).holds().len() ==> !#[trigger] times_out(
                    old(self).holds()[i],
                    envelope_id@,
                    now,
                    hold_timeout_secs,
                )) ==> (r is Ok && final(self).holds() == old(self).holds() && final(self).ledger() == old(
                self,
            ).ledger() && final(self).events() == old(self).events() && final(self).audit() == old(
                self,
            ).audit()),
            extends(old(self).events(), final(self).events()),
            final(self).actors() == old(self).actors(),
            final(self).envelopes() == old(self).envelopes(),
            final(self).spec_policy_version() == old(self).spec_policy_version(),
            final(self).holds().len() == old(self).holds().len(),
            crate::envelope_store::pending_count(final(self).holds())
                <= crate::envelope_store::pending_count(old(self).holds()),
            crate::envelope_store::pending_count(old(self).holds()) == 0 ==> final(self).ledger()
                == old(self).ledger() && final(self).events() == old(self).events(),
            crate::envelope_store::pending_ids_for(old(self).holds(), envelope_id@).len() == 0 ==> (r is Ok
                && final(self).holds() == old(self).holds() && final(self).ledger() == old(self).ledger()
                && final(self).events() == old(self).events() && final(self).audit() == old(self).audit()),
    {
        let ids = match self.envelope_store.list_pending_holds_for_envelope(envelope_id) {
            Ok(v) => v,
            Err(e) => {
                return Err(e);
            },
        };
        proof {
            assert(ids@.map_values(|s: String| s@).len() == ids@.len());
            if crate::envelope_store::pending_count(self.holds()) == 0 {
                crate::envelope_store::lemma_no_pending_ids(self.holds(), envelope_id@);
                assert(ids@.map_values(|s: String| s@).len() == 0);
            }
        }
        let ghost old_h = old(self).holds();
        let ghost ids_v = ids@.map_values(|s: String| s@);
        proof {
            crate::envelope_store::lemma_pending_ids_members(old_h, envelope_id@);
        }
        if ids.len() == 0 {
            proof {
                assert forall|i: int| 0 <= i < old_h.len() && #[trigger] times_out(old_h[i], envelope_id@, now, hold_timeout_secs) implies false by {
                    assert(ids_v.contains(old_h[i].hold_id@));
                }
            }
            return Ok(());
        }
        let mut k: usize = 0;
        while k < ids.len()
            invariant
                self.wf(),
                0 <= k <= ids@.len(),
                ids_v == ids@.map_values(|s: String| s@),
                ids_v == crate::envelope_store::pending_ids_for(old_h, envelope_id@),
                ids_v.no_duplicates(),
                old_h == old(self).holds(),
                forall|i: int, j: int|
                    0 <= i < old_h.len() && 0 <= j < old_h.len() && i != j ==> (#[trigger] old_h[i]).hold_id@
                        != (#[trigger] old_h[j]).hold_id@,
                forall|i: int|
                    0 <= i < old_h.len() && (#[trigger] old_h[i]).status == crate::envelope_store::HoldStatus::Pending
                        && old_h[i].envelope_id@ == envelope_id@ ==> ids_v.contains(old_h[i].hold_id@),
                forall|x: Seq<char>|
                    #[trigger] ids_v.contains(x) ==> exists|i: int|
                        0 <= i < old_h.len() && (#[trigger] old_h[i]).hold_id@ == x && old_h[i].status
                            == crate::envelope_store::HoldStatus::Pending && old_h[i].envelope_id@ == envelope_id@,
                forall|i: int|
                    0 <= i < old_h.len() && #[trigger] times_out(old_h[i], envelope_id@, now, hold_timeout_secs)
                        && ids_v.take(k as int).contains(old_h[i].hold_id@) ==> self.holds()[i].status
                        == crate::envelope_store::HoldStatus::TimedOut && self.holds()[i].hold_id == old_h[i].hold_id,
                forall|i: int|
                    0 <= i < old_h.len() && !(times_out(old_h[i], envelope_id@, now, hold_timeout_secs)
                        && ids_v.take(k as int).contains(old_h[i].hold_id@)) ==> #[trigger] self.holds()[i] == old_h[i],
                timeout_events_after(self.events(), old(self).events().len() as int),
                (forall|i: int|
                    0 <= i < old_h.len() ==> !#[trigger] times_out(old_h[i], envelope_id@, now, hold_timeout_secs))
                    ==> (self.holds() == old_h && self.ledger() == old(self).ledger() && self.events() == old(
                    self,
                ).events() && self.audit() == old(self).audit()),
                forall|c: i64| c > 0 ==> commitment.requires((c,)),
                extends(old(self).events(), self.events()),
                self.actors() == old(self).actors(),
                self.envelopes() == old(self).envelopes(),
                self.spec_policy_version() == old(self).spec_policy_version(),
                self.holds().len() == old(self).holds().len(),
                crate::envelope_store::pending_count(self.holds())
                    <= crate::envelope_store::pending_count(old(self).holds()),
                crate::envelope_store::pending_count(old(self).holds()) == 0 ==> ids@.len() == 0
                    && self.ledger() == old(self).ledger() && self.events() == old(self).events(),
                crate::envelope_store::pending_ids_for(old(self).holds(), envelope_id@).len() > 0,
            decreases ids@.len() - k,
        {
            let id = ids[k].as_str();
            let ghost idv = ids_v[k as int];
            proof {
                assert(id@ == idv);
                assert(ids_v.contains(idv));
                lemma_take_next_contains(ids_v, k as int);
                assert(!ids_v.take(k as int).contains(idv)) by {
                    if ids_v.take(k as int).contains(idv) {
                        let t0 = ids_v.take(k as int);
                        let j = choose|j: int| 0 <= j < t0.len() && t0[j] == idv;
                        assert(ids_v[j] == ids_v[k as int]);
                    }
                }
            }
            proof {
                assert(exists|i: int|
                    0 <= i < old_h.len() && (#[trigger] old_h[i]).hold_id@ == idv && old_h[i].status
                        == crate::envelope_store::HoldStatus::Pending && old_h[i].envelope_id@ == envelope_id@);
            }
            let ghost i0 = choose|i: int|
                0 <= i < old_h.len() && (#[trigger] old_h[i]).hold_id@ == idv && old_h[i].status
                    == crate::envelope_store::HoldStatus::Pending && old_h[i].envelope_id@ == envelope_id@;
            proof {
                assert(0 <= i0 < old_h.len());
                assert(old_h[i0].hold_id@ == idv);
                assert(!ids_v.take(k as int).contains(old_h[i0].hold_id@));
                assert(!(times_out(old_h[i0], envelope_id@, now, hold_timeout_secs) && ids_v.take(k as int).contains(
                    old_h[i0].hold_id@,
                )));
                assert(self.holds()[i0] == old_h[i0]);
                assert(has_hold(self.holds(), idv));
                let hi = crate::envelope_store::hold_index(self.holds(), idv);
                if hi != i0 {
                    assert(self.holds()[hi].hold_id@ != self.holds()[i0].hold_id@);
                }
                assert(hi == i0);
            }
            let (hold_id, agent_id, pending, triggered_at, reserved_cost) = match self.envelope_store.get_hold_request(id) {
                Ok(Some(h)) => {
                    let triggered_at: u64 = match crate::text::parse_u64(h.triggered_at.as_str()) {
                        Some(t) => t,
                        None => 0,
                    };
                    let reserved_cost: i64 = match h.pending_payload.get("reserved_cost") {
                        Some(v) => match v.as_i64() {
                            Some(c) => c,
                            None => 0,
                        },
                        None => 0,
                    };
                    (h.hold_id.clone(), h.agent_id.clone(), h.status == crate::envelope_store::HoldStatus::Pending, triggered_at, reserved_cost)
                },
                _ => (String::from_str(id), String::new(), false, 0, 0),
            };
            proof {
                assert(triggered_at == triggered_of(old_h[i0]));
                assert(pending);
            }
            if !timed_out(now, triggered_at, hold_timeout_secs) {
                proof {
                    assert(!times_out(old_h[i0], envelope_id@, now, hold_timeout_secs));
                    assert forall|i: int|
                        0 <= i < old_h.len() && #[trigger] times_out(old_h[i], envelope_id@, now, hold_timeout_secs)
                            && ids_v.take(k + 1).contains(old_h[i].hold_id@) implies ids_v.take(k as int).contains(
                        old_h[i].hold_id@,
                    ) by {
                        if old_h[i].hold_id@ == idv && i != i0 {
                            assert(old_h[i].hold_id@ != old_h[i0].hold_id@);
                        }
                    }
                    assert forall|i: int|
                        0 <= i < old_h.len() && !(#[trigger] times_out(old_h[i], envelope_id@, now, hold_timeout_secs)
                            && ids_v.take(k + 1).contains(old_h[i].hold_id@)) implies self.holds()[i] == old_h[i] by {
                        if ids_v.take(k as int).contains(old_h[i].hold_id@) {
                            assert(ids_v.take(k + 1).contains(old_h[i].hold_id@));
                        }
                    }
                }
                k = k + 1;
                continue;
            }
            proof {
                assert(times_out(old_h[i0], envelope_id@, now, hold_timeout_secs));
            }
            if !pending {
                let mut d = String::new();
                crate::text::push_str(&mut d, "hold_request ");
                crate::text::push_str(&mut d, hold_id.as_str());
                crate::text::push_str(&mut d, " not found or already resolved");
                return Err(KernelError::PolicyViolation(d));
            }
            let ghost hs0 = self.holds();
            match self.time_out_hold(hold_id, agent_id, triggered_at, reserved_cost, now, commitment) {
                Ok(()) => {},
                Err(e) => {
                    return Err(e);
                },
            }
            proof {
                assert(crate::envelope_store::hold_index(hs0, idv) == i0);
                assert forall|i: int|
                    0 <= i < old_h.len() && #[trigger] times_out(old_h[i], envelope_id@, now, hold_timeout_secs)
                        && ids_v.take(k + 1).contains(old_h[i].hold_id@) implies self.holds()[i].status
                    == crate::envelope_store::HoldStatus::TimedOut && self.holds()[i].hold_id == old_h[i].hold_id by {
                    if i != i0 {
                        assert(old_h[i].hold_id@ != old_h[i0].hold_id@);
                        assert(ids_v.take(k as int).contains(old_h[i].hold_id@));
                    }
                }
                assert forall|i: int|
                    0 <= i < old_h.len() && !(#[trigger] times_out(old_h[i], envelope_id@, now, hold_timeout_secs)
                        && ids_v.take(k + 1).contains(old_h[i].hold_id@)) implies self.holds()[i] == old_h[i] by {
                    assert(i != i0);
                }
            }
            k = k + 1;
        }
        proof {
            assert(ids_v.take(ids@.len() as int) =~= ids_v);
        }
        Ok(())
    }

    /// Times out one pending hold: records its `hold_timeout` event, marks it
    /// timed out, and settles its reservation at the commitment cost.
    #[verifier::rlimit(100)]
    #[verifier::spinoff_prover]
    fn time_out_hold<F: Fn(i64) -> i64>(
        &mut self,
        hold_id: String,
        agent_id: String,
        triggered_at: u64,
        reserved_cost: i64,
        now: u64,
        commitment: &F,
    ) -> (r: KernelResult<()>)
        requires
            old(self).wf(),
            forall|c: i64| c > 0 ==> commitment.requires((c,)),
            crate::envelope_store::hold_pending(old(self).holds(), hold_id@),
        ensures
            final(self).wf(),
            extends(old(self).events(), final(self).events()),
            final(self).actors() == old(self).actors(),
            final(self).envelopes() == old(self).envelopes(),
            final(self).spec_policy_version() == old(self).spec_policy_version(),
            final(self).holds().len() == old(self).holds().len(),
            crate::envelope_store::pending_count(final(self).holds())
                <= crate::envelope_store::pending_count(old(self).holds()),
            timeout_events_after(final(self).events(), old(self).events().len() as int),
            r is Ok ==> ({
                let i = crate::envelope_store::hold_index(old(self).holds(), hold_id@);
                &&& final(self).holds()[i].status == crate::envelope_store::HoldStatus::TimedOut
                &&& final(self).holds()[i].hold_id == old(self).holds()[i].hold_id
                &&& forall|j: int|
                    0 <= j < old(self).holds().len() && j != i ==> #[trigger] final(self).holds()[j] == old(
                        self,
                    ).holds()[j]
            }),
    {
        let commitment_cost: i64 = if reserved_cost > 0 {
            commitment(reserved_cost)
        } else {
            0
        };
        let mut timeout_event = match timeout_record(
            hold_id.as_str(),
            agent_id.as_str(),
            triggered_at,
            reserved_cost,
            commitment_cost,
            now,
        ) {
            Ok(e) => e,
            Err(e) => {
                return Err(e);
            },
        };
        if reserved_cost > 0 {
            match self.energy_ledger.check_settle(agent_id.as_str(), reserved_cost, commitment_cost) {
                Ok(()) => {},
                Err(e) => {
                    return Err(e);
                },
            }
        }
        let ghost ev0 = timeout_event@;
        match self.commit_event(&mut timeout_event) {
            Ok(()) => {},
            Err(e) => {
                return Err(e);
            },
        }
        proof {
            assert(self.events().last().action_type == ev0.action_type);
            assert(timeout_events_after(self.events(), old(self).events().len() as int));
        }
        let ghost hs_ev = self.holds();
        let resolved = self.envelope_store.resolve_hold_request_in_tx(
            hold_id.as_str(),
            "timed_out",
            None,
        );
        proof {
            reveal_strlit("timed_out");
            reveal_strlit("approve");
            reveal_strlit("reject");
            assert("timed_out"@.len() == 9 && "approve"@.len() == 7 && "reject"@.len() == 6);
            assert(crate::envelope_store::decision_status("timed_out"@) == Some(
                crate::envelope_store::HoldStatus::TimedOut,
            ));
        }
        match resolved {
            Ok(()) => {},
            Err(e) => {
                return Err(e);
            },
        }
        let ghost hs_res = self.holds();
        proof {
            assert(hs_ev == old(self).holds());
            let i = crate::envelope_store::hold_index(hs_ev, hold_id@);
            assert(hs_res[i].status == crate::envelope_store::HoldStatus::TimedOut);
            assert(hs_res[i].hold_id == hs_ev[i].hold_id);
        }
        if reserved_cost > 0 {
            let settled = self.energy_ledger.settle(agent_id.as_str(), reserved_cost, commitment_cost);
            proof {
                assert(settled is Ok);
            }
        }
        proof {
            assert(self.holds() == hs_res);
        }
        Ok(())
    }
}

/// Whether a receipt describes the last event of the log.
pub open spec fn receipt_matches(rc: SubmitReceipt, events: Seq<EventView>) -> bool {
    events.len() > 0 && ({
        let e = events.last();
        &&& e.id == rc.event_id@
        &&& e.log_index == rc.log_index
        &&& e.log_index == events.len() - 1
        &&& e.event_hash == rc.event_hash@
        &&& rc.event_hash@.len() == 64
        &&& crate::hex::is_lower_hex(rc.event_hash@)
        &&& e.reserved_energy == rc.reserved_cost
        &&& e.settled_energy == rc.settled_cost
        &&& e.artifact_hash == crate::event_log::opt_view(rc.artifact_hash)
    })
}

/// The reserved cost an approved held action carries in its payload, if any.
pub open spec fn hold_cost_field(p: JsonValue) -> Option<i64> {
    match p.spec_get("_hold_reserved_cost"@) {
        Some(v) => v.spec_as_i64(),
        None => None,
    }
}

/// Whether authorizing an agent settles nothing first: it has no active
/// envelope, or that envelope has no hold rules, sets no positive hold
/// timeout, or has no pending hold.
pub open spec fn settles_nothing_first(k: Kernel, agent: Seq<char>) -> bool {
    let rows = k.envelopes();
    let i = crate::envelope_store::active_index_for(rows, agent);
    ||| i < 0
    ||| no_timeouts_due(rows[i], k.holds())
}

/// Whether an envelope's holds cannot time out now: it has no hold rules, no
/// positive hold timeout, or no pending hold.
pub open spec fn no_timeouts_due(
    e: crate::consent::EnvelopeRecord,
    holds: Seq<crate::envelope_store::HoldRequest>,
) -> bool {
    ||| e.hold_on@.len() == 0
    ||| (match e.hold_timeout_secs {
        Some(t) => t <= 0,
        None => true,
    })
    ||| crate::envelope_store::pending_ids_for(holds, e.envelope_id@).len() == 0
}

/// Whether a submission goes straight to its own commit: it is made by a
/// human, or by an agent whose authorization settles no timed-out hold
/// first, and it does not answer a hold.
#[verifier::opaque]
pub open spec fn direct_submission(k: Kernel, action: Action) -> bool {
    &&& has_actor(k.actors(), action.actor_id@)
    &&& (k.actors()[actor_index(k.actors(), action.actor_id@)].actor_type == ActorType::Human
        || settles_nothing_first(k, action.actor_id@))
    &&& !(action.action_type == ActionType::Mutate && crate::requests::hold_response_of(
        action.target@,
        action.payload,
    ) is Some)
}

/// Whether a submission takes the plain pipeline (validate, quote, reserve,
/// settle, append): it goes straight to its commit and does not carry the
/// reservation of a held action.
#[verifier::opaque]
pub open spec fn plain_submission(k: Kernel, action: Action) -> bool {
    &&& direct_submission(k, action)
    &&& hold_cost_field(action.payload) is None
}

/// Whether an action carries a human's approval of its hold.
pub open spec fn hold_approved(p: JsonValue) -> bool {
    match p.spec_get("_hold_approved"@) {
        Some(v) => v.spec_as_bool() == Some(true),
        None => false,
    }
}

/// Whether an agent's action matches a hold rule of the agent's most recent
/// active envelope and carries no approval.
pub open spec fn held_by_envelope(k: Kernel, action: Action) -> bool {
    let rows = k.envelopes();
    let i = crate::envelope_store::active_index_for(rows, action.actor_id@);
    &&& has_actor(k.actors(), action.actor_id@)
    &&& k.actors()[actor_index(k.actors(), action.actor_id@)].actor_type == ActorType::Agent
    &&& action.action_type.spec_is_state_changing()
    &&& i >= 0
    &&& crate::consent::hold_triggered(rows[i].hold_on@, action.target@, action.action_type.spec_as_str())
    &&& !hold_approved(action.payload)
}

/// Whether an action asks to create an agent on behalf of an agent.
pub open spec fn agent_creates_agent(k: Kernel, action: Action) -> bool {
    &&& crate::requests::is_actor_creation(action)
    &&& crate::requests::creator_type_of(k.actors(), action.actor_id@) == ActorType::Agent
    &&& ActorType::parse_spec(crate::requests::str_or(action.payload, "actor_type"@, "agent"@))
        == Some(ActorType::Agent)
}

/// Whether an action asks for a lifecycle operation on a human actor.
pub open spec fn lifecycle_on_human(k: Kernel, action: Action) -> bool {
    let t = crate::lifecycle::lifecycle_target_of(action.target@, action.payload);
    &&& action.action_type == ActionType::Mutate
    &&& crate::lifecycle::lifecycle_request(action.target@, action.payload) is Some
    &&& has_actor(k.actors(), t)
    &&& k.actors()[actor_index(k.actors(), t)].actor_type == ActorType::Human
}

/// A lifecycle request is never a hold response: their targets start
/// differently.
proof fn lemma_lifecycle_not_hold_response(target: Seq<char>, payload: JsonValue)
    requires
        crate::lifecycle::lifecycle_request(target, payload) is Some,
    ensures
        crate::requests::hold_response_of(target, payload) is None,
{
    reveal_strlit("actor/");
    reveal_strlit("ledger/hold/");
    assert(target[0] == target.take(6)[0]);
    if "ledger/hold/"@.len() <= target.len() && target.take("ledger/hold/"@.len() as int) == "ledger/hold/"@ {
        assert(target[0] == target.take(12)[0]);
    }
}

/// The energy a hold reserved when it was triggered (0 when not recorded).
pub open spec fn held_reserved_cost(h: crate::envelope_store::HoldRequest) -> i64 {
    match h.pending_payload.spec_get("reserved_cost"@) {
        Some(v) => match v.spec_as_i64() {
            Some(c) => c,
            None => 0,
        },
        None => 0,
    }
}

/// What a successful rejection of hold `id` did: the receipt carries the
/// reserved cost, and when energy was reserved the agent is charged the
/// commitment cost of it (its reservation released in full), otherwise
/// nothing is charged; the hold is rejected and one event is recorded.
pub open spec fn rejection_settled<F: Fn(i64) -> i64>(
    before: Kernel,
    after: Kernel,
    id: Seq<char>,
    rc: SubmitReceipt,
    commitment: F,
) -> bool {
    let h = before.holds()[crate::envelope_store::hold_index(before.holds(), id)];
    let c = held_reserved_cost(h);
    &&& rc.reserved_cost == c
    &&& c > 0 ==> commitment.ensures((c,), rc.settled_cost) && after.ledger()
        == crate::ledger::after_settle(before.ledger(), h.agent_id@, c as int, rc.settled_cost as int)
    &&& c <= 0 ==> rc.settled_cost == 0 && after.ledger() == before.ledger()
    &&& after.events().len() == before.events().len() + 1
    &&& after.holds().len() == before.holds().len()
    &&& after.holds()[crate::envelope_store::hold_index(before.holds(), id)].status
        == crate::envelope_store::HoldStatus::Rejected
}

/// Whether an action is a human's rejection of the hold it names.
pub open spec fn human_rejection(k: Kernel, action: Action) -> bool {
    &&& action.action_type == ActionType::Mutate
    &&& crate::requests::hold_response_of(action.target@, action.payload) matches Some((_, dec, _))
        && dec == "reject"@
    &&& has_actor(k.actors(), action.actor_id@)
    &&& k.actors()[actor_index(k.actors(), action.actor_id@)].actor_type == ActorType::Human
}

/// What a committed approval of a held action did: the re-submitted action's
/// receipt carries the reservation made when it was held as both its reserved
/// and its settled cost, that reservation is released and charged once, and
/// two events (the response and the action) are appended.
pub open spec fn approval_settled(before: Kernel, after: Kernel, id: Seq<char>, rc: SubmitReceipt) -> bool {
    let h = before.holds()[crate::envelope_store::hold_index(before.holds(), id)];
    let c = held_reserved_cost(h);
    &&& rc.reserved_cost == c
    &&& rc.settled_cost == c
    &&& c > 0 ==> released_and_charged(before.ledger(), after.ledger(), h.agent_id@, c as int)
    &&& after.events().len() == before.events().len() + 2
    &&& after.holds().len() == before.holds().len()
    &&& after.holds()[crate::envelope_store::hold_index(before.holds(), id)].status
        == crate::envelope_store::HoldStatus::Approved
}

/// Whether an action is a human's approval of the only pending hold, whose
/// held action is not itself a hold response.
pub open spec fn human_approval(k: Kernel, action: Action) -> bool {
    let id = responded_hold(action);
    &&& action.action_type == ActionType::Mutate
    &&& crate::requests::hold_response_of(action.target@, action.payload) matches Some((_, dec, _))
        && dec == "approve"@
    &&& has_actor(k.actors(), action.actor_id@)
    &&& k.actors()[actor_index(k.actors(), action.actor_id@)].actor_type == ActorType::Human
    &&& crate::envelope_store::pending_count(k.holds()) == 1
    &&& !is_hold_target(held_target(k.holds()[crate::envelope_store::hold_index(k.holds(), id)]))
}

/// The hold a hold response names.
pub open spec fn responded_hold(action: Action) -> Seq<char> {
    match crate::requests::hold_response_of(action.target@, action.payload) {
        Some((id, _, _)) => id,
        None => Seq::empty(),
    }
}

/// Whether the ledger charged `id` exactly `cost`: its balance fell by the
/// cost and its reservation is as it was.
pub open spec fn charged(before: Seq<crate::ledger::Account>, after: Seq<crate::ledger::Account>, id: Seq<char>, cost: int) -> bool {
    &&& has_account(before, id)
    &&& has_account(after, id)
    &&& balance_of(after, id) == balance_of(before, id) - cost
    &&& reserved_of(after, id) == reserved_of(before, id)
}

/// A direct submission's actor is a human, or settles nothing first.
proof fn lemma_direct_settles_nothing(k: Kernel, action: Action)
    requires
        direct_submission(k, action),
    ensures
        has_actor(k.actors(), action.actor_id@),
        k.actors()[actor_index(k.actors(), action.actor_id@)].actor_type == ActorType::Human
            || settles_nothing_first(k, action.actor_id@),
{
    reveal(direct_submission);
}

/// A direct submission does not answer a hold.
proof fn lemma_direct_not_response(k: Kernel, action: Action)
    requires
        direct_submission(k, action),
    ensures
        !(action.action_type == ActionType::Mutate && crate::requests::hold_response_of(
            action.target@,
            action.payload,
        ) is Some),
{
    reveal(direct_submission);
}

/// A plain submission is direct and carries no held reservation.
proof fn lemma_plain_direct(k: Kernel, action: Action)
    requires
        plain_submission(k, action),
    ensures
        direct_submission(k, action),
        hold_cost_field(action.payload) is None,
{
    reveal(plain_submission);
}

/// Whether the ledger settled a reservation of `cost` for `id` at that cost:
/// its balance and its reservation both fell by the cost.
pub open spec fn released_and_charged(
    before: Seq<crate::ledger::Account>,
    after: Seq<crate::ledger::Account>,
    id: Seq<char>,
    cost: int,
) -> bool {
    &&& has_account(before, id)
    &&& has_account(after, id)
    &&& balance_of(after, id) == balance_of(before, id) - cost
    &&& reserved_of(after, id) == reserved_of(before, id) - cost
}

/// Settling a reservation in full releases it and charges its cost,
/// whatever account is added after it.
proof fn lemma_settle_releases(
    l0: Seq<crate::ledger::Account>,
    id: Seq<char>,
    c: int,
    extra: Option<crate::ledger::Account>,
    lf: Seq<crate::ledger::Account>,
)
    requires
        crate::ledger::accounts_wf(l0),
        has_account(l0, id),
        crate::ledger::accounts_wf(lf),
        ({
            let base = after_settle(l0, id, c, c);
            lf == match extra {
                Some(x) => base.push(x),
                None => base,
            }
        }),
    ensures
        released_and_charged(l0, lf, id, c),
{
    let k = crate::ledger::account_index(l0, id);
    let base = after_settle(l0, id, c, c);
    assert(base[k] == (id, l0[k].1 - c, l0[k].2 - c));
    assert(lf[k] == base[k]);
    crate::ledger::lemma_account_index(lf, id, k);
}

/// What committing an approved held action did: the receipt carries the
/// reservation made when it was held, that reservation was released and
/// charged in full, and one event was appended.
pub open spec fn held_commit(before: Kernel, after: Kernel, action: Action, rc: SubmitReceipt) -> bool {
    match hold_cost_field(action.payload) {
        Some(c) => {
            &&& rc.reserved_cost == c
            &&& rc.settled_cost == c
            &&& c > 0 ==> released_and_charged(before.ledger(), after.ledger(), action.actor_id@, c as int)
            &&& after.events().len() == before.events().len() + 1
        },
        None => true,
    }
}

/// Whether committing an action succeeds: its actor can pay (an approved
/// held action was paid for when it was held), an execute action carries a
/// complete result, a requested actor or envelope can be created, and the
/// log and the audit tree have room for its event.
pub open spec fn commit_succeeds(
    k: Kernel,
    action: Action,
    create_actor: Option<CreateActorSpec>,
    create_envelope: Option<(String, EnvelopeSpec, Option<String>)>,
) -> bool {
    let l0 = k.ledger();
    let id = action.actor_id@;
    let bal = balance_of(l0, id);
    let res = reserved_of(l0, id);
    &&& match hold_cost_field(action.payload) {
        Some(h) => {
            &&& h > 0 ==> has_account(l0, id) && res >= h && bal - res >= 0
            &&& creation_ok(
                if h > 0 {
                    after_settle(l0, id, h as int, h as int)
                } else {
                    l0
                },
                k.actors(),
                create_actor,
            )
        },
        None => {
            let c = crate::action::cost_of(action);
            &&& has_account(l0, id) && bal - res >= c
            &&& creation_ok(
                after_settle(crate::ledger::after_reserve(l0, id, c), id, c, c),
                k.actors(),
                create_actor,
            )
        },
    }
    &&& action.action_type == ActionType::Execute ==> crate::requests::execute_payload_valid(action.payload)
    &&& create_envelope matches Some((eid, _, _)) ==> !has_envelope(k.envelopes(), eid@)
    &&& k.events().len() + 1 < MAX_EVENTS
    &&& crate::audit::tree_has_room(k.audit(), k.events().len() as u64)
}

/// A reservation leaves the account's balance and adds to its reservation.
proof fn lemma_after_reserve_account(l0: Seq<crate::ledger::Account>, id: Seq<char>, c: int)
    requires
        crate::ledger::accounts_wf(l0),
        crate::ledger::accounts_wf(crate::ledger::after_reserve(l0, id, c)),
        has_account(l0, id),
    ensures
        has_account(crate::ledger::after_reserve(l0, id, c), id),
        balance_of(crate::ledger::after_reserve(l0, id, c), id) == balance_of(l0, id),
        reserved_of(crate::ledger::after_reserve(l0, id, c), id) == reserved_of(l0, id) + c,
{
    let k = crate::ledger::account_index(l0, id);
    let l1 = crate::ledger::after_reserve(l0, id, c);
    crate::ledger::lemma_account_index(l0, id, k);
    assert(l1[k] == (id, l0[k].1, l0[k].2 + c));
    crate::ledger::lemma_account_index(l1, id, k);
}

/// Whether an action is an ordinary one: it creates no actor or envelope and
/// asks for no lifecycle operation.
pub open spec fn ordinary_action(action: Action) -> bool {
    &&& !crate::requests::is_actor_creation(action)
    &&& !crate::requests::is_envelope_creation(action)
    &&& !(action.action_type == ActionType::Mutate && crate::lifecycle::lifecycle_request(
        action.target@,
        action.payload,
    ) is Some)
}

/// Whether settling a reservation of `reserved` for `id` at `actual` units
/// is allowed: both are non-negative, the reservation is there, and the
/// free balance covers what exceeds it.
pub open spec fn settle_allowed(l: Seq<crate::ledger::Account>, id: Seq<char>, reserved: int, actual: int) -> bool {
    &&& reserved >= 0
    &&& actual >= 0
    &&& has_account(l, id)
    &&& reserved_of(l, id) >= reserved
    &&& balance_of(l, id) - reserved_of(l, id) >= (if actual - reserved > 0 {
        actual - reserved
    } else {
        0
    })
}

/// Whether a human's rejection of hold `id` is owed success once the log and
/// the audit tree have room: the caller is a human, the hold is pending, it
/// has not timed out at `now` under its envelope's timeout, and whatever
/// commitment cost is charged for its reservation can be settled.
pub open spec fn rejection_can_settle<F: Fn(i64) -> i64>(
    k: Kernel,
    caller: Seq<char>,
    id: Seq<char>,
    commitment: F,
    now: u64,
) -> bool {
    let h = k.holds()[crate::envelope_store::hold_index(k.holds(), id)];
    let c = held_reserved_cost(h);
    let envs = k.envelopes();
    &&& has_actor(k.actors(), caller)
    &&& k.actors()[actor_index(k.actors(), caller)].actor_type == ActorType::Human
    &&& crate::envelope_store::hold_pending(k.holds(), id)
    &&& has_envelope(envs, h.envelope_id@) ==> match envs[crate::envelope_store::envelope_index(
        envs,
        h.envelope_id@,
    )].hold_timeout_secs {
        Some(t) => t <= 0 || !hold_timed_out(now, triggered_of(h), t),
        None => true,
    }
    &&& (c <= 0 || forall|v: i64| commitment.ensures((c,), v) ==> settle_allowed(k.ledger(), h.agent_id@, c as int, v as int))
}

/// Whether step 1 of the pipeline admits an action: it is well formed, its
/// actor exists, is not frozen for a state-changing action, may act on the
/// target, and an agent acting on state has an active lineage.
pub open spec fn admitted(k: Kernel, action: Action) -> bool {
    let a = k.actors()[actor_index(k.actors(), action.actor_id@)];
    &&& !crate::policy::is_blank(action.actor_id@)
    &&& !crate::policy::is_blank(action.target@)
    &&& has_actor(k.actors(), action.actor_id@)
    &&& !(a.status == ActorStatus::Frozen && action.action_type.spec_is_state_changing())
    &&& crate::boundary::boundary_permits(a, action.target@, action.action_type)
    &&& (a.actor_type == ActorType::Agent && action.action_type.spec_is_state_changing() ==> forall|j: int|
        0 <= j < a.lineage@.len() ==> crate::actor_store::actor_active(k.actors(), #[trigger] a.lineage@[j]@))
}

/// Whether an envelope lets an action through as it stands: it covers the
/// action (type, target, remaining budget), no timed-out hold of it needs
/// settling first, and the action is approved or matches no hold rule.
pub open spec fn envelope_admits(
    e: crate::consent::EnvelopeRecord,
    action: Action,
    holds: Seq<crate::envelope_store::HoldRequest>,
) -> bool {
    &&& crate::text::contains_text(e.actions@, action.action_type.spec_as_str())
    &&& crate::consent::any_pattern_matches(e.targets@, action.target@)
    &&& e.budget - e.budget_consumed > 0
    &&& e.hold_on@.len() > 0 ==> (match e.hold_timeout_secs {
        Some(t) => t <= 0,
        None => true,
    } || crate::envelope_store::pending_ids_for(holds, e.envelope_id@).len() == 0)
    &&& hold_approved(action.payload) || !crate::consent::hold_triggered(
        e.hold_on@,
        action.target@,
        action.action_type.spec_as_str(),
    )
}

/// Whether an agent's state-changing action passes authorization as things
/// stand: its most recent active envelope never expires and lets it through.
pub open spec fn agent_authorized(k: Kernel, action: Action) -> bool {
    let rows = k.envelopes();
    let i = crate::envelope_store::active_index_for(rows, action.actor_id@);
    &&& i >= 0
    &&& rows[i].expires_at is None
    &&& envelope_admits(rows[i], action, k.holds())
}

/// Whether a submission reaches its commit as things stand: it is admitted,
/// it is ordinary and answers no hold, and an agent's state-changing action
/// passes authorization without settling anything first.  Such a submission
/// succeeds exactly when its commit does.
pub open spec fn reaches_commit(k: Kernel, action: Action) -> bool {
    &&& admitted(k, action)
    &&& ordinary_action(action)
    &&& !(action.action_type == ActionType::Mutate && crate::requests::hold_response_of(
        action.target@,
        action.payload,
    ) is Some)
    &&& (action.action_type.spec_is_state_changing() && k.actors()[actor_index(
        k.actors(),
        action.actor_id@,
    )].actor_type == ActorType::Agent ==> agent_authorized(k, action))
}

/// Whether the actor of an action can pay for it as things stand: an
/// approved held action was paid for when it was held; otherwise the actor's
/// free energy covers the quote.
pub open spec fn can_pay(k: Kernel, action: Action) -> bool {
    hold_cost_field(action.payload) is None ==> has_account(k.ledger(), action.actor_id@) && balance_of(
        k.ledger(),
        action.actor_id@,
    ) - reserved_of(k.ledger(), action.actor_id@) >= crate::action::cost_of(action)
}

/// Whether an execute action carries an incomplete result.
pub open spec fn bad_execute(action: Action) -> bool {
    action.action_type == ActionType::Execute && !crate::requests::execute_payload_valid(action.payload)
}

/// Whether an action is a well-formed request by an agent to create an agent
/// (which only humans may do).
pub open spec fn agent_agent_request(k: Kernel, action: Action) -> bool {
    &&& agent_creates_agent(k, action)
    &&& action.payload is Object
    &&& !(crate::requests::str_field(action.payload, "actor_id"@) is None && crate::requests::str_or(
        action.payload,
        "purpose"@,
        "legacy"@,
    ) == "legacy"@)
}

/// Whether an envelope covers an action's type and target but has no budget
/// left.
pub open spec fn budget_spent(e: crate::consent::EnvelopeRecord, action: Action) -> bool {
    &&& crate::text::contains_text(e.actions@, action.action_type.spec_as_str())
    &&& crate::consent::any_pattern_matches(e.targets@, action.target@)
    &&& e.budget - e.budget_consumed <= 0
}

/// Whether an agent's state-changing action meets its never-expiring active
/// envelope with the budget spent.
pub open spec fn agent_budget_spent(k: Kernel, action: Action) -> bool {
    let rows = k.envelopes();
    let i = crate::envelope_store::active_index_for(rows, action.actor_id@);
    &&& has_actor(k.actors(), action.actor_id@)
    &&& k.actors()[actor_index(k.actors(), action.actor_id@)].actor_type == ActorType::Agent
    &&& action.action_type.spec_is_state_changing()
    &&& i >= 0
    &&& rows[i].expires_at is None
    &&& budget_spent(rows[i], action)
}

/// What a committed actor creation did: the new actor (its id given or
/// derived from the purpose) is appended to the actor table, active, of the
/// requested type and created by the requester, and its account holds the
/// requested energy (1000 by default) with nothing reserved.
pub open spec fn actor_created(before: Kernel, after: Kernel, action: Action) -> bool {
    let id = crate::requests::new_actor_id(action, before.actors());
    let a = after.actors().last();
    &&& after.actors().len() == before.actors().len() + 1
    &&& after.actors().take(before.actors().len() as int) == before.actors()
    &&& a.actor_id@ == id
    &&& Some(a.actor_type) == ActorType::parse_spec(
        crate::requests::str_or(action.payload, "actor_type"@, "agent"@),
    )
    &&& a.creator_id matches Some(c) && c@ == action.actor_id@
    &&& a.status == ActorStatus::Active
    &&& has_account(after.ledger(), id)
    &&& balance_of(after.ledger(), id) == crate::requests::i64_or(action.payload, "energy_balance"@, 1000)
    &&& reserved_of(after.ledger(), id) == 0
}

/// The envelope rows after an agent's committed action of `cost` units: its
/// active envelope has the cost consumed, and expires (a halt checkpoint)
/// when that spends the budget exactly.  The rows stay as they are when there
/// is nothing to consume, no active envelope, or the cost would overrun it.
pub open spec fn budget_consumed(
    rows: Seq<EnvelopeRecord>,
    fin: Seq<EnvelopeRecord>,
    actor: Seq<char>,
    cost: int,
) -> bool {
    let i = crate::envelope_store::active_index_for(rows, actor);
    let e = rows[i];
    let total = e.budget_consumed + cost;
    &&& (cost <= 0 || i < 0 || total > i64::MAX || total > e.budget) ==> fin == rows
    &&& (cost > 0 && i >= 0 && total <= i64::MAX && total <= e.budget) ==> fin == rows.update(
        i,
        (EnvelopeRecord {
            budget_consumed: total as i64,
            status: if total == e.budget {
                EnvelopeStatus::Expired
            } else {
                e.status
            },
            updated_at: fin[i].updated_at,
            ..e
        }),
    )
}

/// What a lifecycle operation on an existing `target` leaves of the actor
/// rows: freeze and terminate leave the target inactive, unfreeze makes it
/// active, and an energy-share update records the new share.
pub open spec fn lifecycle_applied(
    rows: Seq<ActorRecord>,
    fin: Seq<ActorRecord>,
    target: Seq<char>,
    op: crate::actor::LifecycleOp,
) -> bool {
    let i = actor_index(rows, target);
    has_actor(rows, target) ==> match op {
        crate::actor::LifecycleOp::Freeze { .. } => !crate::actor_store::actor_active(fin, target),
        crate::actor::LifecycleOp::Terminate { .. } => !crate::actor_store::actor_active(fin, target),
        crate::actor::LifecycleOp::Unfreeze => fin == rows.update(
            i,
            crate::actor_store::with_status(rows[i], ActorStatus::Active, fin[i].updated_at),
        ),
        crate::actor::LifecycleOp::UpdateEnergyShare { energy_share } => fin == rows.update(
            i,
            crate::actor_store::with_share(rows[i], energy_share, fin[i].updated_at),
        ),
    }
}

/// What a committed action leaves of the actor rows when it is a lifecycle
/// request: the operation it names is applied to the actor it names.
pub open spec fn lifecycle_done(rows: Seq<ActorRecord>, fin: Seq<ActorRecord>, action: Action) -> bool {
    match crate::lifecycle::lifecycle_request(action.target@, action.payload) {
        Some((t, op)) => {
            let i = actor_index(rows, t);
            has_actor(rows, t) ==> if op == "freeze"@ || op == "terminate"@ {
                !crate::actor_store::actor_active(fin, t)
            } else if op == "unfreeze"@ {
                fin == rows.update(
                    i,
                    crate::actor_store::with_status(rows[i], ActorStatus::Active, fin[i].updated_at),
                )
            } else {
                match action.payload.spec_get("energy_share"@) {
                    Some(JsonValue::Number(n)) => fin == rows.update(
                        i,
                        crate::actor_store::with_share(rows[i], n, fin[i].updated_at),
                    ),
                    _ => false,
                }
            }
        },
        None => true,
    }
}

/// Whether putting an action on hold can go through: its actor can reserve
/// the quote, and the log and the audit tree have room for the request.
pub open spec fn hold_can_record(k: Kernel, action: Action) -> bool {
    &&& has_account(k.ledger(), action.actor_id@)
    &&& balance_of(k.ledger(), action.actor_id@) - reserved_of(k.ledger(), action.actor_id@)
        >= crate::action::cost_of(action)
    &&& k.events().len() + 1 < MAX_EVENTS
    &&& crate::audit::tree_has_room(k.audit(), k.events().len() as u64)
}

/// What putting an action on hold answered and did: `HoldTriggered` with the
/// new hold's id and the agent, the quote reserved, a pending hold request of
/// envelope `env` appended and a `hold_request` event recorded; or, when the
/// random hold id was already taken, a storage error with nothing changed.
pub open spec fn hold_outcome(
    before: Kernel,
    after: Kernel,
    action: Action,
    env: Seq<char>,
    r: KernelResult<SubmitReceipt>,
) -> bool {
    match r {
        Err(KernelError::HoldTriggered { hold_id, agent_id }) => {
            let h = after.holds().last();
            &&& agent_id@ == action.actor_id@
            &&& after.ledger() == crate::ledger::after_reserve(
                before.ledger(),
                action.actor_id@,
                crate::action::cost_of(action),
            )
            &&& after.holds().len() == before.holds().len() + 1
            &&& after.holds().take(before.holds().len() as int) == before.holds()
            &&& h.hold_id@ == hold_id@
            &&& h.envelope_id@ == env
            &&& h.agent_id@ == action.actor_id@
            &&& h.status == crate::envelope_store::HoldStatus::Pending
            &&& after.events().len() == before.events().len() + 1
            &&& after.events().last().action_type == "hold_request"@
            &&& after.events().last().target == "ledger/hold/"@ + hold_id@
        },
        Err(KernelError::Db(_)) => {
            &&& after.ledger() == before.ledger()
            &&& after.events() == before.events()
            &&& after.holds() == before.holds()
        },
        _ => false,
    }
}

/// Whether an envelope lets an action through to its hold rules and one of
/// them holds it: the envelope covers the action, no timed-out hold needs
/// settling first, and an unapproved action matches a hold rule.
pub open spec fn envelope_holds(
    e: crate::consent::EnvelopeRecord,
    action: Action,
    holds: Seq<crate::envelope_store::HoldRequest>,
) -> bool {
    &&& crate::text::contains_text(e.actions@, action.action_type.spec_as_str())
    &&& crate::consent::any_pattern_matches(e.targets@, action.target@)
    &&& e.budget - e.budget_consumed > 0
    &&& no_timeouts_due(e, holds)
    &&& !hold_approved(action.payload)
    &&& crate::consent::hold_triggered(e.hold_on@, action.target@, action.action_type.spec_as_str())
}

/// Whether an agent's state-changing action is held by its never-expiring
/// active envelope as things stand.
pub open spec fn agent_held(k: Kernel, action: Action) -> bool {
    let rows = k.envelopes();
    let i = crate::envelope_store::active_index_for(rows, action.actor_id@);
    &&& has_actor(k.actors(), action.actor_id@)
    &&& k.actors()[actor_index(k.actors(), action.actor_id@)].actor_type == ActorType::Agent
    &&& action.action_type.spec_is_state_changing()
    &&& i >= 0
    &&& rows[i].expires_at is None
    &&& envelope_holds(rows[i], action, k.holds())
}

/// Reserving a cost and settling it in full charges the account that cost,
/// whatever account is added after it.
proof fn lemma_reserve_settle_charges(
    l0: Seq<crate::ledger::Account>,
    id: Seq<char>,
    c: int,
    extra: Option<crate::ledger::Account>,
    lf: Seq<crate::ledger::Account>,
)
    requires
        crate::ledger::accounts_wf(l0),
        has_account(l0, id),
        crate::ledger::accounts_wf(lf),
        ({
            let base = after_settle(crate::ledger::after_reserve(l0, id, c), id, c, c);
            lf == match extra {
                Some(x) => base.push(x),
                None => base,
            }
        }),
    ensures
        charged(l0, lf, id, c),
{
    let k = crate::ledger::account_index(l0, id);
    let l1 = crate::ledger::after_reserve(l0, id, c);
    assert(l1[k] == (id, l0[k].1, l0[k].2 + c));
    assert forall|i: int, j: int|
        0 <= i < l1.len() && 0 <= j < l1.len() && i != j implies (#[trigger] l1[i]).0 != (
        #[trigger] l1[j]).0 by {
        assert(l1[i].0 == l0[i].0);
        assert(l1[j].0 == l0[j].0);
    }
    assert(has_account(l1, id));
    let k1 = crate::ledger::account_index(l1, id);
    assert(k1 == k);
    let base = after_settle(l1, id, c, c);
    assert(base[k] == (id, l0[k].1 - c, l0[k].2));
    assert(lf[k] == base[k]);
    crate::ledger::lemma_account_index(lf, id, k);
}

/// Whether every part of the state is as it was.
pub open spec fn unchanged(a: Kernel, b: Kernel) -> bool {
    &&& b.ledger() == a.ledger()
    &&& b.events() == a.events()
    &&& b.audit() == a.audit()
    &&& b.actors() == a.actors()
    &&& b.envelopes() == a.envelopes()
    &&& b.holds() == a.holds()
    &&& b.spec_policy_version() == a.spec_policy_version()
}

/// The text `{:?}` gives for an actor type.
fn actor_type_debug(t: ActorType) -> (r: &'static str)
    ensures
        r@ == (match t {
            ActorType::Human => "Human"@,
            ActorType::Agent => "Agent"@,
        }),
{
    match t {
        ActorType::Human => "Human",
        ActorType::Agent => "Agent",
    }
}

/// The action type named by a stored pending action (`execute` for any other name).
fn action_type_named(s: &str) -> (r: ActionType)
    ensures
        r == (if s@ == "observe"@ {
            ActionType::Observe
        } else if s@ == "create"@ {
            ActionType::Create
        } else if s@ == "mutate"@ {
            ActionType::Mutate
        } else {
            ActionType::Execute
        }),
{
    if str_eq(s, "observe") {
        ActionType::Observe
    } else if str_eq(s, "create") {
        ActionType::Create
    } else if str_eq(s, "mutate") {
        ActionType::Mutate
    } else {
        ActionType::Execute
    }
}

/// The target of a held action: the one recorded in its pending payload, else
/// the trigger target.
pub open spec fn held_target(h: crate::envelope_store::HoldRequest) -> Seq<char> {
    match h.pending_payload.spec_get("target"@) {
        Some(v) => match v.spec_as_str() {
            Some(t) => t,
            None => h.trigger_target@,
        },
        None => h.trigger_target@,
    }
}

fn held_target_of(h: &crate::envelope_store::HoldRequest) -> (r: String)
    ensures
        r@ == held_target(*h),
{
    match h.pending_payload.get("target") {
        Some(v) => match v.as_str() {
            Some(t) => String::from_str(t),
            None => h.trigger_target.clone(),
        },
        None => h.trigger_target.clone(),
    }
}

/// Whether a target names a hold (`ledger/hold/...`).
pub open spec fn is_hold_target(t: Seq<char>) -> bool {
    "ledger/hold/"@.len() <= t.len() && t.take("ledger/hold/"@.len() as int) == "ledger/hold/"@
}

/// Whether two payloads agree on every key but the approval marks
/// (`_hold_approved`, `_hold_reserved_cost`, `_hold_instruction`).
pub open spec fn agrees_off_marks(q: JsonValue, p: JsonValue) -> bool {
    forall|k: Seq<char>|
        k != "_hold_approved"@ && k != "_hold_reserved_cost"@ && k != "_hold_instruction"@
            ==> #[trigger] q.spec_get(k) == p.spec_get(k)
}

/// Two approved actions that differ only in payload keys outside the marks
/// reach their commits alike and commit alike.
proof fn lemma_marked_payloads_alike(k: Kernel, a: Action, b: Action, p0: JsonValue, reserved: i64)
    requires
        a.actor_id == b.actor_id,
        a.action_type == b.action_type,
        a.target == b.target,
        hold_cost_field(a.payload) == Some(reserved),
        hold_cost_field(b.payload) == Some(reserved),
        a.payload.spec_get("_hold_approved"@) == Some(JsonValue::Bool(true)),
        b.payload.spec_get("_hold_approved"@) == Some(JsonValue::Bool(true)),
        agrees_off_marks(a.payload, p0),
        agrees_off_marks(b.payload, p0),
    ensures
        reaches_commit(k, a) == reaches_commit(k, b),
        commit_succeeds(k, a, None, None) == commit_succeeds(k, b, None, None),
{
    reveal_strlit("_hold_approved");
    reveal_strlit("_hold_reserved_cost");
    reveal_strlit("_hold_instruction");
    reveal_strlit("op");
    reveal_strlit("energy_share");
    reveal_strlit("decision");
    reveal_strlit("instruction");
    reveal_strlit("input_oid");
    reveal_strlit("output_oid");
    reveal_strlit("exit_code");
    reveal_strlit("artifact_hash");
    assert("_hold_approved"@.len() == 14 && "_hold_instruction"@.len() == 17
        && "_hold_reserved_cost"@.len() == 19);
    assert("op"@.len() == 2 && "energy_share"@.len() == 12 && "decision"@.len() == 8
        && "instruction"@.len() == 11 && "input_oid"@.len() == 9 && "output_oid"@.len() == 10
        && "exit_code"@.len() == 9 && "artifact_hash"@.len() == 13);
    assert(a.payload.spec_get("op"@) == b.payload.spec_get("op"@));
    assert(a.payload.spec_get("energy_share"@) == b.payload.spec_get("energy_share"@));
    assert(a.payload.spec_get("decision"@) == b.payload.spec_get("decision"@));
    assert(a.payload.spec_get("instruction"@) == b.payload.spec_get("instruction"@));
    assert(a.payload.spec_get("input_oid"@) == b.payload.spec_get("input_oid"@));
    assert(a.payload.spec_get("output_oid"@) == b.payload.spec_get("output_oid"@));
    assert(a.payload.spec_get("exit_code"@) == b.payload.spec_get("exit_code"@));
    assert(a.payload.spec_get("artifact_hash"@) == b.payload.spec_get("artifact_hash"@));
}

/// The payload of an approved action, marked as approved, with its reserved
/// cost and the optional instruction added (a non-object payload is replaced
/// by an object holding only these marks).
fn approved_payload(payload: JsonValue, reserved: i64, instruction: Option<&str>) -> (r: JsonValue)
    ensures
        r is Object,
        r.spec_get("_hold_approved"@) == Some(JsonValue::Bool(true)),
        hold_cost_field(r) == Some(reserved),
        agrees_off_marks(r, payload),
{
    proof {
        reveal_strlit("_hold_approved");
        reveal_strlit("_hold_reserved_cost");
        reveal_strlit("_hold_instruction");
        assert("_hold_approved"@.len() == 14 && "_hold_instruction"@.len() == 17
            && "_hold_reserved_cost"@.len() == 19);
    }
    let ghost original = payload;
    let base = match payload {
        JsonValue::Object(es) => JsonValue::Object(es),
        _ => JsonValue::Object(Vec::new()),
    };
    proof {
        assert forall|k: Seq<char>| #[trigger] base.spec_get(k) == original.spec_get(k) by {
            if !(original is Object) {
                assert(crate::json::first_key_index(Seq::<(String, JsonValue)>::empty(), k, 0) == -1);
            }
        }
    }
    let mut p = crate::json::insert_key(base, "_hold_reserved_cost", crate::json::json_i64(reserved));
    match instruction {
        Some(i) => {
            p = crate::json::insert_key(p, "_hold_instruction", crate::json::json_str(i));
        },
        None => {},
    }
    crate::json::insert_key(p, "_hold_approved", JsonValue::Bool(true))
}

impl Kernel {
    /// Resolves a hold: only a human may; the hold must exist and be pending
    /// and not timed out at `now` (a timed-out hold and the envelope's other
    /// timed-out holds are auto-rejected instead).  Records a `hold_response`
    /// event; a rejection settles the commitment cost of the reservation, an
    /// approval re-submits the pending action on the agent's behalf.
    fn execute_hold_response<F: Fn(i64) -> i64>(
        &mut self,
        human_action: &Action,
        hold_id: &str,
        decision: &str,
        instruction: Option<&str>,
        now: u64,
        commitment: &F,
        fuel: u128,
    ) -> (r: KernelResult<SubmitReceipt>)
        requires
            old(self).wf(),
            forall|c: i64| c > 0 ==> commitment.requires((c,)),
            crate::envelope_store::pending_count(old(self).holds()) < fuel,
        ensures
            ({
                let h = old(self).holds()[crate::envelope_store::hold_index(old(self).holds(), hold_id@)];
                let envs = old(self).envelopes();
                let e = envs[crate::envelope_store::envelope_index(envs, h.envelope_id@)];
                let t = match e.hold_timeout_secs {
                    Some(t) => t,
                    None => 0,
                };
                has_actor(old(self).actors(), human_action.actor_id@) && old(self).actors()[actor_index(
                    old(self).actors(),
                    human_action.actor_id@,
                )].actor_type == ActorType::Human && crate::envelope_store::hold_pending(old(self).holds(), hold_id@)
                    && has_envelope(envs, h.envelope_id@) && t > 0 && hold_timed_out(now, triggered_of(h), t)
                    ==> (r is Err && timeout_events_after(final(self).events(), old(self).events().len() as int))
            }),
            final(self).wf(),
            extends(old(self).events(), final(self).events()),
            r matches Ok(rc) ==> receipt_matches(rc, final(self).events()),
            decision@ == "reject"@ ==> (r matches Ok(rc) ==> rejection_settled(
                *old(self),
                *final(self),
                hold_id@,
                rc,
                *commitment,
            )),
            decision@ == "reject"@ && rejection_can_settle(
                *old(self),
                human_action.actor_id@,
                hold_id@,
                *commitment,
                now,
            ) ==> (r is Ok <==> (old(self).events().len() + 1 < MAX_EVENTS && crate::audit::tree_has_room(
                old(self).audit(),
                old(self).events().len() as u64,
            ))),
            !has_actor(old(self).actors(), human_action.actor_id@) ==> (r matches Err(
                KernelError::ActorNotFound(d),
            ) && d@ == human_action.actor_id@ && unchanged(*old(self), *final(self))),
            has_actor(old(self).actors(), human_action.actor_id@) && old(self).actors()[actor_index(
                old(self).actors(),
                human_action.actor_id@,
            )].actor_type == ActorType::Agent ==> (r matches Err(KernelError::PolicyViolation(d)) && d@
                == "only Human actors can resolve holds; caller "@ + human_action.actor_id@ + " is Agent"@
                && unchanged(*old(self), *final(self))),
            has_actor(old(self).actors(), human_action.actor_id@) && old(self).actors()[actor_index(
                old(self).actors(),
                human_action.actor_id@,
            )].actor_type == ActorType::Human && !has_hold(old(self).holds(), hold_id@) ==> (r matches Err(
                KernelError::PolicyViolation(d),
            ) && d@ == "hold_request not found: "@ + hold_id@ && unchanged(*old(self), *final(self))),
            ({
                let h = old(self).holds()[crate::envelope_store::hold_index(old(self).holds(), hold_id@)];
                has_actor(old(self).actors(), human_action.actor_id@) && old(self).actors()[actor_index(
                    old(self).actors(),
                    human_action.actor_id@,
                )].actor_type == ActorType::Human && has_hold(old(self).holds(), hold_id@) && h.status
                    != crate::envelope_store::HoldStatus::Pending ==> (r matches Err(
                    KernelError::PolicyViolation(d),
                ) && d@ == "hold_request "@ + hold_id@ + " is already resolved (status="@
                    + h.status.spec_as_str() + ")"@ && unchanged(*old(self), *final(self)))
            }),
            ({
                let h = old(self).holds()[crate::envelope_store::hold_index(old(self).holds(), hold_id@)];
                decision@ == "approve"@ && crate::envelope_store::pending_count(old(self).holds()) == 1
                    && !is_hold_target(held_target(h)) ==> (r matches Ok(rc) ==> approval_settled(
                    *old(self),
                    *final(self),
                    hold_id@,
                    rc,
                ))
            }),
        decreases fuel, 1nat,
    {
        // Only a human may resolve a hold.
        let caller_type = match self.actor_store.get(human_action.actor_id.as_str()) {
            Ok(Some(c)) => c.actor_type,
            Ok(None) => {
                return Err(KernelError::ActorNotFound(human_action.actor_id.clone()));
            },
            Err(e) => {
                return Err(e);
            },
        };
        if caller_type != ActorType::Human {
            let mut d = String::new();
            crate::text::push_str(&mut d, "only Human actors can resolve holds; caller ");
            crate::text::push_str(&mut d, human_action.actor_id.as_str());
            crate::text::push_str(&mut d, " is ");
            crate::text::push_str(&mut d, actor_type_debug(caller_type));
            proof {
                reveal_strlit(" is ");
                reveal_strlit("Agent");
                reveal_strlit(" is Agent");
                assert(" is "@ + "Agent"@ =~= " is Agent"@);
                assert(d@ =~= "only Human actors can resolve holds; caller "@ + human_action.actor_id@
                    + " is Agent"@);
            }
            return Err(KernelError::PolicyViolation(d));
        }
        let (envelope_id, agent_id, trigger_target, trigger_action, pending, status_pending, triggered_at, hold_reserved_cost, held_target_text) =
            match self.envelope_store.get_hold_request(hold_id) {
            Ok(Some(h)) => {
                let triggered_at: u64 = match crate::text::parse_u64(h.triggered_at.as_str()) {
                    Some(t) => t,
                    None => 0,
                };
                let reserved: i64 = match h.pending_payload.get("reserved_cost") {
                    Some(v) => match v.as_i64() {
                        Some(c) => c,
                        None => 0,
                    },
                    None => 0,
                };
                (
                    h.envelope_id.clone(),
                    h.agent_id.clone(),
                    h.trigger_target.clone(),
                    h.trigger_action.clone(),
                    crate::json::copy_value(&h.pending_payload),
                    h.status == crate::envelope_store::HoldStatus::Pending,
                    triggered_at,
                    reserved,
                    held_target_of(h),
                )
            },
            Ok(None) => {
                let mut d = String::new();
                crate::text::push_str(&mut d, "hold_request not found: ");
                crate::text::push_str(&mut d, hold_id);
                return Err(KernelError::PolicyViolation(d));
            },
            Err(e) => {
                return Err(e);
            },
        };
        if !status_pending {
            let status = match self.envelope_store.get_hold_request(hold_id) {
                Ok(Some(h)) => h.status.as_str(),
                _ => "",
            };
            let mut d = String::new();
            crate::text::push_str(&mut d, "hold_request ");
            crate::text::push_str(&mut d, hold_id);
            crate::text::push_str(&mut d, " is already resolved (status=");
            crate::text::push_str(&mut d, status);
            crate::text::push_str(&mut d, ")");
            return Err(KernelError::PolicyViolation(d));
        }
        // A hold that has outlived its envelope's timeout is auto-rejected first.
        let ghost h0 = old(self).holds()[crate::envelope_store::hold_index(old(self).holds(), hold_id@)];
        proof {
            assert(triggered_at == triggered_of(h0));
            assert(envelope_id@ == h0.envelope_id@);
        }
        let timeout = match self.envelope_store.get(envelope_id.as_str()) {
            Ok(Some(env)) => env.hold_timeout_secs,
            _ => None,
        };
        proof {
            let envs = old(self).envelopes();
            if has_envelope(envs, h0.envelope_id@) {
                assert(timeout == envs[crate::envelope_store::envelope_index(envs, h0.envelope_id@)].hold_timeout_secs);
            }
        }
        match timeout {
            Some(t) => {
                if t > 0 {
                    if timed_out(now, triggered_at, t) {
                        match self.expire_timed_out_holds(envelope_id.as_str(), t, now, commitment) {
                            Ok(()) => {},
                            Err(e) => {
                                return Err(e);
                            },
                        }
                        let mut d = String::new();
                        crate::text::push_str(&mut d, "hold_request ");
                        crate::text::push_str(&mut d, hold_id);
                        crate::text::push_str(&mut d, " has timed out and was auto-rejected");
                        proof {
                            assert(d@ =~= "hold_request "@ + hold_id@ + " has timed out and was auto-rejected"@);
                        }
                        return Err(KernelError::PolicyViolation(d));
                    }
                }
            },
            None => {},
        }
        self.apply_hold_decision(
            human_action,
            hold_id,
            decision,
            instruction,
            agent_id,
            trigger_target,
            trigger_action,
            pending,
            hold_reserved_cost,
            held_target_text,
            commitment,
            fuel,
        )
    }

    /// Records a hold response and applies its decision: a rejection settles
    /// the commitment cost of the reservation, an approval re-submits the
    /// held action on the agent's behalf.
    #[verifier::rlimit(100)]
    #[verifier::spinoff_prover]
    fn apply_hold_decision<F: Fn(i64) -> i64>(
        &mut self,
        human_action: &Action,
        hold_id: &str,
        decision: &str,
        instruction: Option<&str>,
        agent_id: String,
        trigger_target: String,
        trigger_action: String,
        pending: JsonValue,
        hold_reserved_cost: i64,
        held_target_text: String,
        commitment: &F,
        fuel: u128,
    ) -> (r: KernelResult<SubmitReceipt>)
        requires
            old(self).wf(),
            forall|c: i64| c > 0 ==> commitment.requires((c,)),
            crate::envelope_store::pending_count(old(self).holds()) < fuel,
            crate::envelope_store::hold_pending(old(self).holds(), hold_id@),
            ({
                let h = old(self).holds()[crate::envelope_store::hold_index(old(self).holds(), hold_id@)];
                &&& agent_id@ == h.agent_id@
                &&& hold_reserved_cost == held_reserved_cost(h)
                &&& held_target_text@ == held_target(h)
            }),
        ensures
            final(self).wf(),
            extends(old(self).events(), final(self).events()),
            r matches Ok(rc) ==> receipt_matches(rc, final(self).events()),
            decision@ == "reject"@ ==> (r matches Ok(rc) ==> rejection_settled(
                *old(self),
                *final(self),
                hold_id@,
                rc,
                *commitment,
            )),
            decision@ == "reject"@ && (hold_reserved_cost <= 0 || forall|v: i64|
                commitment.ensures((hold_reserved_cost,), v) ==> settle_allowed(
                    old(self).ledger(),
                    agent_id@,
                    hold_reserved_cost as int,
                    v as int,
                )) ==> (r is Ok <==> (old(self).events().len() + 1 < MAX_EVENTS
                && crate::audit::tree_has_room(old(self).audit(), old(self).events().len() as u64))),
            decision@ == "approve"@ && crate::envelope_store::pending_count(old(self).holds()) == 1
                && !is_hold_target(held_target_text@) ==> (r matches Ok(rc) ==> approval_settled(
                *old(self),
                *final(self),
                hold_id@,
                rc,
            )),
        decreases fuel, 0nat,
    {
        let is_reject = str_eq(decision, "reject");
        let commitment_cost: i64 = if is_reject && hold_reserved_cost > 0 {
            commitment(hold_reserved_cost)
        } else {
            0
        };
        let ghost settle_fits = is_reject && hold_reserved_cost > 0 ==> settle_allowed(
            old(self).ledger(),
            agent_id@,
            hold_reserved_cost as int,
            commitment_cost as int,
        );
        proof {
            reveal_strlit("reject");
            reveal_strlit("approve");
        }
        let instruction_json = match instruction {
            Some(i) => crate::json::json_str(i),
            None => JsonValue::Null,
        };
        let response_payload = crate::json::json_object(
            vec![
                crate::json::entry("agent_id", crate::json::json_str(agent_id.as_str())),
                crate::json::entry("decision", crate::json::json_str(decision)),
                crate::json::entry("hold_id", crate::json::json_str(hold_id)),
                crate::json::entry("instruction", instruction_json),
                crate::json::entry(
                    "resolved_at",
                    JsonValue::String(crate::clock::now_millis_string()),
                ),
                crate::json::entry("resolved_by", crate::json::json_str(human_action.actor_id.as_str())),
                crate::json::entry(
                    "trigger",
                    trigger_json(trigger_target.as_str(), trigger_action.as_str()),
                ),
            ],
        );
        let target = hold_target(hold_id);
        let response_action = Action {
            actor_id: human_action.actor_id.clone(),
            action_type: ActionType::Mutate,
            target: target.clone(),
            payload: crate::json::copy_value(&response_payload),
            timestamp: None,
        };
        let payload_hash = match payload_hash_hex(&response_action) {
            Ok(h) => h,
            Err(e) => {
                return Err(e);
            },
        };
        let mut response_event = EventRecord {
            id: crate::clock::new_uuid(),
            log_index: 0,
            event_hash: String::new(),
            actor_id: human_action.actor_id.clone(),
            action_type: String::from_str("hold_response"),
            target,
            payload: response_payload,
            payload_hash,
            artifact_hash: None,
            reserved_energy: hold_reserved_cost,
            settled_energy: commitment_cost,
            timestamp: crate::clock::now_millis_string(),
        };
        // Checks in the order the steps would fail, then the steps.
        let valid_decision = str_eq(decision, "approve") || is_reject;
        if !valid_decision {
            let mut d = String::new();
            crate::text::push_str(&mut d, "invalid hold decision: ");
            crate::text::push_str(&mut d, decision);
            crate::text::push_str(&mut d, "; must be 'approve', 'reject', or 'timed_out'");
            return Err(KernelError::PolicyViolation(d));
        }
        if is_reject && hold_reserved_cost > 0 {
            match self.energy_ledger.check_settle(agent_id.as_str(), hold_reserved_cost, commitment_cost) {
                Ok(()) => {},
                Err(e) => {
                    return Err(e);
                },
            }
        }
        match self.commit_event(&mut response_event) {
            Ok(()) => {},
            Err(e) => {
                return Err(e);
            },
        }
        let ghost pending_before = crate::envelope_store::pending_count(self.holds());
        let resolved = self.envelope_store.resolve_hold_request_in_tx(hold_id, decision, instruction);
        proof {
            reveal_strlit("approve");
            reveal_strlit("reject");
            assert(crate::envelope_store::decision_status(decision@) is Some);
            assert(crate::envelope_store::hold_pending(old(self).holds(), hold_id@));
        }
        match resolved {
            Ok(()) => {},
            Err(e) => {
                return Err(e);
            },
        }
        let ghost hs_res = self.holds();
        let ghost ev_res = self.events();
        proof {
            if is_reject {
                assert("reject"@.len() == 6 && "approve"@.len() == 7);
                assert(decision@ == "reject"@);
                assert(crate::envelope_store::decision_status(decision@) == Some(
                    crate::envelope_store::HoldStatus::Rejected,
                ));
                assert(hs_res[crate::envelope_store::hold_index(old(self).holds(), hold_id@)].status
                    == crate::envelope_store::HoldStatus::Rejected);
                assert(ev_res.len() == old(self).events().len() + 1);
            }
        }
        if is_reject && hold_reserved_cost > 0 {
            let settled = self.energy_ledger.settle(agent_id.as_str(), hold_reserved_cost, commitment_cost);
            proof {
                assert(settled is Ok);
            }
        }
        if !is_reject {
            // Re-submit the pending action on the agent's behalf.
            proof {
                crate::envelope_store::lemma_pending_count_resolve(
                    old(self).holds(),
                    self.holds(),
                    crate::envelope_store::hold_index(old(self).holds(), hold_id@),
                );
                assert(self.ledger() == old(self).ledger());
                assert(self.events().len() == old(self).events().len() + 1);
                assert("reject"@.len() == 6 && "approve"@.len() == 7);
                if decision@ == "approve"@ {
                    assert(crate::envelope_store::decision_status(decision@) == Some(
                        crate::envelope_store::HoldStatus::Approved,
                    ));
                    assert(hs_res[crate::envelope_store::hold_index(old(self).holds(), hold_id@)].status
                        == crate::envelope_store::HoldStatus::Approved);
                }
            }
            return self.resubmit_held(
                agent_id,
                trigger_action,
                held_target_text,
                pending,
                hold_reserved_cost,
                instruction,
                commitment,
                fuel - 1,
            );
        }
        Ok(
            SubmitReceipt {
                event_id: response_event.id.clone(),
                log_index: response_event.log_index,
                event_hash: response_event.event_hash.clone(),
                reserved_cost: hold_reserved_cost,
                settled_cost: commitment_cost,
                artifact_hash: None,
            },
        )
    }
}

impl Kernel {
    /// Re-submits the action of an approved hold: its type and payload are
    /// read from the hold's pending record.
    fn resubmit_held<F: Fn(i64) -> i64>(
        &mut self,
        agent_id: String,
        trigger_action: String,
        held_target_text: String,
        pending: JsonValue,
        hold_reserved_cost: i64,
        instruction: Option<&str>,
        commitment: &F,
        fuel: u128,
    ) -> (r: KernelResult<SubmitReceipt>)
        requires
            old(self).wf(),
            forall|c: i64| c > 0 ==> commitment.requires((c,)),
            crate::envelope_store::pending_count(old(self).holds()) < fuel,
        ensures
            final(self).wf(),
            extends(old(self).events(), final(self).events()),
            r matches Ok(rc) ==> receipt_matches(rc, final(self).events()),
            crate::envelope_store::pending_count(old(self).holds()) == 0 && !is_hold_target(held_target_text@)
                ==> (r matches Ok(rc) ==> rc.reserved_cost == hold_reserved_cost && rc.settled_cost
                == hold_reserved_cost && (hold_reserved_cost > 0 ==> released_and_charged(
                old(self).ledger(),
                final(self).ledger(),
                agent_id@,
                hold_reserved_cost as int,
            )) && final(self).events().len() == old(self).events().len() + 1 && final(self).holds() == old(
                self,
            ).holds()),
        decreases fuel, 4nat,
    {
        let orig_type = match pending.get("action_type") {
            Some(v) => match v.as_str() {
                Some(t) => action_type_named(t),
                None => action_type_named(trigger_action.as_str()),
            },
            None => action_type_named(trigger_action.as_str()),
        };
        let orig_payload = match pending.get("payload") {
            Some(v) => crate::json::copy_value(v),
            None => JsonValue::Null,
        };
        self.resubmit_approved(
            agent_id,
            orig_type,
            held_target_text,
            orig_payload,
            hold_reserved_cost,
            instruction,
            commitment,
            fuel,
        )
    }
}

impl Kernel {
    /// Re-submits an approved held action on the agent's behalf, marked as
    /// approved and carrying the reservation made when it was held.
    fn resubmit_approved<F: Fn(i64) -> i64>(
        &mut self,
        agent_id: String,
        action_type: ActionType,
        target: String,
        payload: JsonValue,
        reserved: i64,
        instruction: Option<&str>,
        commitment: &F,
        fuel: u128,
    ) -> (r: KernelResult<SubmitReceipt>)
        requires
            old(self).wf(),
            forall|c: i64| c > 0 ==> commitment.requires((c,)),
            crate::envelope_store::pending_count(old(self).holds()) < fuel,
        ensures
            final(self).wf(),
            extends(old(self).events(), final(self).events()),
            r matches Ok(rc) ==> receipt_matches(rc, final(self).events()),
            crate::envelope_store::pending_count(old(self).holds()) == 0 && !is_hold_target(target@)
                ==> (r matches Ok(rc) ==> rc.reserved_cost == reserved && rc.settled_cost == reserved
                && (reserved > 0 ==> released_and_charged(
                old(self).ledger(),
                final(self).ledger(),
                agent_id@,
                reserved as int,
            )) && final(self).events().len() == old(self).events().len() + 1 && final(self).holds() == old(
                self,
            ).holds()),
            forall|q: JsonValue|
                #![trigger agrees_off_marks(q, payload)]
                hold_cost_field(q) == Some(reserved) && q.spec_get("_hold_approved"@) == Some(
                    JsonValue::Bool(true),
                ) && agrees_off_marks(q, payload) && reaches_commit(
                    *old(self),
                    (Action { actor_id: agent_id, action_type, target, payload: q, timestamp: None }),
                ) ==> (r is Ok <==> commit_succeeds(
                    *old(self),
                    (Action { actor_id: agent_id, action_type, target, payload: q, timestamp: None }),
                    None,
                    None,
                )),
        decreases fuel, 3nat,
    {
        let action = Action {
            actor_id: agent_id,
            action_type,
            target,
            payload: approved_payload(payload, reserved, instruction),
            timestamp: None,
        };
        proof {
            if crate::envelope_store::pending_count(self.holds()) == 0 && !is_hold_target(action.target@)
                && has_actor(self.actors(), action.actor_id@) {
                let rows = self.envelopes();
                let i = crate::envelope_store::active_index_for(rows, action.actor_id@);
                if i >= 0 {
                    crate::envelope_store::lemma_no_pending_ids(self.holds(), rows[i].envelope_id@);
                }
                assert(crate::requests::hold_response_of(action.target@, action.payload) is None);
                reveal(direct_submission);
            }
        }
        let ghost k0 = *self;
        let ghost a0 = action;
        let r = self.submit_inner(action, commitment, fuel);
        proof {
            assert forall|q: JsonValue|
                #![trigger agrees_off_marks(q, payload)]
                hold_cost_field(q) == Some(reserved) && q.spec_get("_hold_approved"@) == Some(
                    JsonValue::Bool(true),
                ) && agrees_off_marks(q, payload) implies ({
                    let b = Action { actor_id: a0.actor_id, action_type: a0.action_type, target: a0.target, payload: q, timestamp: None };
                    &&& reaches_commit(k0, b) == reaches_commit(k0, a0)
                    &&& commit_succeeds(k0, b, None, None) == commit_succeeds(k0, a0, None, None)
                }) by {
                let b = Action { actor_id: a0.actor_id, action_type: a0.action_type, target: a0.target, payload: q, timestamp: None };
                lemma_marked_payloads_alike(k0, b, a0, payload, reserved);
            }
        }
        r
    }
}

impl Kernel {
    /// The submit pipeline: validate, authorize, quote and reserve, check an
    /// execute payload, then settle, create and record in one commit, and
    /// finally consume the agent's envelope budget and apply a lifecycle
    /// operation.
    #[verifier::rlimit(100)]
    #[verifier::spinoff_prover]
    fn submit_inner<F: Fn(i64) -> i64>(&mut self, action: Action, commitment: &F, fuel: u128) -> (r:
        KernelResult<SubmitReceipt>)
        requires
            old(self).wf(),
            forall|c: i64| c > 0 ==> commitment.requires((c,)),
            crate::envelope_store::pending_count(old(self).holds()) < fuel,
        ensures
            final(self).wf(),
            extends(old(self).events(), final(self).events()),
            plain_submission(*old(self), action) ==> (r matches Ok(rc) ==> rc.settled_cost
                == crate::action::cost_of(action) && rc.reserved_cost == rc.settled_cost && charged(
                old(self).ledger(),
                final(self).ledger(),
                action.actor_id@,
                rc.settled_cost as int,
            ) && final(self).events().len() == old(self).events().len() + 1),
            r matches Ok(rc) ==> receipt_matches(rc, final(self).events()),
            r is Ok ==> has_actor(old(self).actors(), action.actor_id@),
            r is Ok && crate::requests::is_actor_creation(action) ==> actor_created(*old(self), *final(self), action),
            r is Ok && action.action_type == ActionType::Mutate ==> lifecycle_done(old(self).actors(), final(self).actors(), action),
            admitted(*old(self), action) && agent_authorized(*old(self), action) && old(self).actors()[actor_index(
                old(self).actors(),
                action.actor_id@,
            )].actor_type == ActorType::Agent && action.action_type.spec_is_state_changing()
                && !crate::requests::is_envelope_creation(action) ==> (r matches Ok(rc) ==> budget_consumed(
                old(self).envelopes(),
                final(self).envelopes(),
                action.actor_id@,
                rc.settled_cost as int,
            )),
            reaches_commit(*old(self), action) ==> (r is Ok <==> commit_succeeds(
                *old(self),
                action,
                None,
                None,
            )),
            admitted(*old(self), action) && agent_held(*old(self), action) && hold_can_record(*old(self), action)
                ==> (hold_outcome(
                *old(self),
                *final(self),
                action,
                old(self).envelopes()[crate::envelope_store::active_index_for(
                    old(self).envelopes(),
                    action.actor_id@,
                )].envelope_id@,
                r,
            ) && final(self).envelopes() == old(self).envelopes()),
            admitted(*old(self), action) && agent_budget_spent(*old(self), action) ==> (r matches Err(
                KernelError::AuthorizationRequired(_),
            ) && unchanged(*old(self), *final(self))),
            admitted(*old(self), action) && agent_authorized(*old(self), action) && agent_agent_request(
                *old(self),
                action,
            ) ==> (r matches Err(KernelError::PolicyViolation(d)) && d@
                == "agents cannot create agents — creation right belongs to humans (PIP-001 §5)"@ && unchanged(*old(self), *final(self))),
            reaches_commit(*old(self), action) && bad_execute(action) && can_pay(*old(self), action) ==> (
            r matches Err(KernelError::ExecutePayloadInvalid(_)) && final(self).events() == old(self).events()
                && final(self).audit() == old(self).audit() && balance_of(final(self).ledger(), action.actor_id@)
                == balance_of(old(self).ledger(), action.actor_id@)),
            crate::policy::is_blank(action.actor_id@) ==> (r matches Err(
                KernelError::PolicyViolation(d),
            ) && d@ == "actor_id cannot be empty"@ && unchanged(*old(self), *final(self))),
            !crate::policy::is_blank(action.actor_id@) && crate::policy::is_blank(action.target@)
                ==> (r matches Err(KernelError::PolicyViolation(d)) && d@ == "target cannot be empty"@
                && unchanged(*old(self), *final(self))),
            !crate::policy::is_blank(action.actor_id@) && !crate::policy::is_blank(action.target@)
                && !has_actor(old(self).actors(), action.actor_id@) ==> (r matches Err(
                KernelError::ActorNotFound(d),
            ) && d@ == action.actor_id@ && unchanged(*old(self), *final(self))),
            ({
                let a = old(self).actors()[actor_index(old(self).actors(), action.actor_id@)];
                !crate::policy::is_blank(action.actor_id@) && !crate::policy::is_blank(action.target@)
                    && has_actor(old(self).actors(), action.actor_id@) && a.status
                    == ActorStatus::Frozen && action.action_type.spec_is_state_changing() ==> (
                r matches Err(KernelError::ActorFrozen(d)) && d@ == "actor "@ + action.actor_id@
                    + " is frozen and cannot perform state-changing actions"@ && unchanged(
                    *old(self),
                    *final(self),
                ))
            }),
            ({
                let a = old(self).actors()[actor_index(old(self).actors(), action.actor_id@)];
                !crate::policy::is_blank(action.actor_id@) && !crate::policy::is_blank(action.target@)
                    && has_actor(old(self).actors(), action.actor_id@) && !(a.status
                    == ActorStatus::Frozen && action.action_type.spec_is_state_changing())
                    && !crate::boundary::boundary_permits(a, action.target@, action.action_type)
                    ==> (r matches Err(KernelError::BoundaryViolation(_)) && unchanged(
                    *old(self),
                    *final(self),
                ))
            }),
            has_actor(old(self).actors(), action.actor_id@) && old(self).actors()[actor_index(
                old(self).actors(),
                action.actor_id@,
            )].actor_type == ActorType::Agent && action.action_type.spec_is_state_changing()
                && crate::envelope_store::active_index_for(old(self).envelopes(), action.actor_id@) < 0
                ==> (r is Err && unchanged(*old(self), *final(self))),
            admitted(*old(self), action) && old(self).actors()[actor_index(old(self).actors(), action.actor_id@)].actor_type
                == ActorType::Agent && action.action_type.spec_is_state_changing()
                && crate::envelope_store::active_index_for(old(self).envelopes(), action.actor_id@) < 0
                ==> r matches Err(KernelError::AuthorizationRequired(_)),
            held_by_envelope(*old(self), action) ==> r is Err,
            agent_creates_agent(*old(self), action) ==> r is Err,
            lifecycle_on_human(*old(self), action) ==> r is Err,
            action.action_type == ActionType::Execute && !crate::requests::execute_payload_valid(
                action.payload,
            ) ==> r is Err,
            direct_submission(*old(self), action) ==> (r matches Ok(rc) ==> held_commit(
                *old(self),
                *final(self),
                action,
                rc,
            ) && final(self).holds() == old(self).holds()),
            human_rejection(*old(self), action) ==> (r matches Ok(rc) ==> rejection_settled(
                *old(self),
                *final(self),
                responded_hold(action),
                rc,
                *commitment,
            )),
            human_approval(*old(self), action) ==> (r matches Ok(rc) ==> approval_settled(
                *old(self),
                *final(self),
                responded_hold(action),
                rc,
            )),
        decreases fuel, 2nat,
    {
        let ghost k0 = *self;
        // Step 1: validate the action and its actor.
        let actor_type = match self.admit_action(&action) {
            Ok(t) => t,
            Err(e) => {
                return Err(e);
            },
        };
        // Step 1b: authorization, envelope coverage, holds.
        if action.action_type.is_state_changing() {
            let ghost k_auth = *self;
            match self.authorize_state_change(&action, commitment) {
                Some(r) => {
                    return r;
                },
                None => {
                    assert(k_auth == k0);
                },
            }
        }
        let ghost l1 = self.ledger();
        let ghost e1 = self.events();
        proof {
            if reaches_commit(k0, action) {
                assert(commit_succeeds(*self, action, None, None) == commit_succeeds(k0, action, None, None));
            }
        }
        // A hold response is resolved outside the normal pipeline.
        if action.action_type == ActionType::Mutate {
            match crate::requests::parse_hold_response(action.target.as_str(), &action.payload) {
                Some((hold_id, decision, instruction)) => {
                    let instr: Option<&str> = match &instruction {
                        Some(i) => Some(i.as_str()),
                        None => None,
                    };
                    proof {
                        if plain_submission(k0, action) {
                            lemma_plain_direct(k0, action);
                        }
                        if direct_submission(k0, action) {
                            lemma_direct_not_response(k0, action);
                        }
                        if crate::lifecycle::lifecycle_request(action.target@, action.payload) is Some {
                            lemma_lifecycle_not_hold_response(action.target@, action.payload);
                        }
                    }
                    let now = crate::clock::now_millis_u64();
                    return self.execute_hold_response(
                        &action,
                        hold_id.as_str(),
                        decision.as_str(),
                        instr,
                        now,
                        commitment,
                        fuel,
                    );
                },
                None => {},
            }
        }
        proof {
            if plain_submission(k0, action) {
                lemma_plain_direct(k0, action);
            }
            if direct_submission(k0, action) {
                assert(l1 == k0.ledger());
                assert(e1 == k0.events());
            }
            assert(self.actors() == k0.actors());
        }
        self.finish_submission(action, actor_type)
    }

    /// Step 1 of the pipeline: the action is well formed, its actor exists,
    /// is not frozen for a state-changing action, may act on the target, and
    /// an agent's lineage is active.  Gives the actor's type.
    fn admit_action(&self, action: &Action) -> (r: KernelResult<ActorType>)
        requires
            self.wf(),
        ensures
            r is Ok ==> has_actor(self.actors(), action.actor_id@),
            crate::policy::is_blank(action.actor_id@) ==> (r matches Err(
                KernelError::PolicyViolation(d),
            ) && d@ == "actor_id cannot be empty"@),
            !crate::policy::is_blank(action.actor_id@) && crate::policy::is_blank(action.target@)
                ==> (r matches Err(KernelError::PolicyViolation(d)) && d@ == "target cannot be empty"@),
            !crate::policy::is_blank(action.actor_id@) && !crate::policy::is_blank(action.target@)
                && !has_actor(self.actors(), action.actor_id@) ==> (r matches Err(
                KernelError::ActorNotFound(d),
            ) && d@ == action.actor_id@),
            ({
                let a = self.actors()[actor_index(self.actors(), action.actor_id@)];
                !crate::policy::is_blank(action.actor_id@) && !crate::policy::is_blank(action.target@)
                    && has_actor(self.actors(), action.actor_id@) && a.status
                    == ActorStatus::Frozen && action.action_type.spec_is_state_changing() ==> (
                r matches Err(KernelError::ActorFrozen(d)) && d@ == "actor "@ + action.actor_id@
                    + " is frozen and cannot perform state-changing actions"@)
            }),
            ({
                let a = self.actors()[actor_index(self.actors(), action.actor_id@)];
                !crate::policy::is_blank(action.actor_id@) && !crate::policy::is_blank(action.target@)
                    && has_actor(self.actors(), action.actor_id@) && !(a.status
                    == ActorStatus::Frozen && action.action_type.spec_is_state_changing())
                    && !crate::boundary::boundary_permits(a, action.target@, action.action_type)
                    ==> r matches Err(KernelError::BoundaryViolation(_))
            }),
            r is Ok <==> admitted(*self, *action),
            r matches Ok(t) ==> t == self.actors()[actor_index(self.actors(), action.actor_id@)].actor_type,
    {
        match crate::policy::validate_action(action) {
            Ok(()) => {},
            Err(e) => {
                return Err(e);
            },
        }
        let (actor_type, lineage_ok) = match self.actor_store.get(action.actor_id.as_str()) {
            Ok(Some(actor)) => {
                if actor.status == ActorStatus::Frozen && action.action_type.is_state_changing() {
                    let mut d = String::new();
                    crate::text::push_str(&mut d, "actor ");
                    crate::text::push_str(&mut d, action.actor_id.as_str());
                    crate::text::push_str(&mut d, " is frozen and cannot perform state-changing actions");
                    return Err(KernelError::ActorFrozen(d));
                }
                match crate::boundary::check_writable_boundary(
                    actor,
                    action.target.as_str(),
                    &action.action_type,
                ) {
                    Ok(()) => {},
                    Err(e) => {
                        return Err(e);
                    },
                }
                let lineage_ok = if actor.actor_type == ActorType::Agent
                    && action.action_type.is_state_changing() {
                    crate::lifecycle::check_lineage_active(&self.actor_store, actor.lineage.as_slice())
                } else {
                    Ok(())
                };
                (actor.actor_type, lineage_ok)
            },
            Ok(None) => {
                return Err(KernelError::ActorNotFound(action.actor_id.clone()));
            },
            Err(e) => {
                return Err(e);
            },
        };
        match lineage_ok {
            Ok(()) => Ok(actor_type),
            Err(e) => Err(e),
        }
    }

    /// The rest of the pipeline once the action is authorized: a lifecycle
    /// operation needs the initiator's authority over its target, creation
    /// requests are parsed, and the action is committed.
    #[verifier::rlimit(100)]
    #[verifier::spinoff_prover]
    fn finish_submission(&mut self, action: Action, actor_type: ActorType) -> (r: KernelResult<SubmitReceipt>)
        requires
            old(self).wf(),
        ensures
            final(self).wf(),
            final(self).holds() == old(self).holds(),
            extends(old(self).events(), final(self).events()),
            r matches Ok(rc) ==> receipt_matches(rc, final(self).events()),
            hold_cost_field(action.payload) is None ==> (r matches Ok(
                rc,
            ) ==> rc.settled_cost == crate::action::cost_of(action) && rc.reserved_cost
                == rc.settled_cost && charged(
                old(self).ledger(),
                final(self).ledger(),
                action.actor_id@,
                rc.settled_cost as int,
            ) && final(self).events().len() == old(self).events().len() + 1),
            agent_creates_agent(*old(self), action) ==> r is Err,
            lifecycle_on_human(*old(self), action) ==> r is Err,
            action.action_type == ActionType::Execute && !crate::requests::execute_payload_valid(
                action.payload,
            ) ==> r is Err,
            r matches Ok(rc) ==> held_commit(*old(self), *final(self), action, rc),
            ordinary_action(action) ==> (r is Ok <==> commit_succeeds(*old(self), action, None, None)),
            r is Ok && crate::requests::is_actor_creation(action) ==> actor_created(*old(self), *final(self), action),
            r is Ok && action.action_type == ActionType::Mutate ==> lifecycle_done(old(self).actors(), final(self).actors(), action),
            !crate::requests::is_envelope_creation(action) && action.action_type.spec_is_state_changing()
                && actor_type == ActorType::Agent ==> (r matches Ok(rc) ==> budget_consumed(
                old(self).envelopes(),
                final(self).envelopes(),
                action.actor_id@,
                rc.settled_cost as int,
            )),
            agent_agent_request(*old(self), action) ==> (r matches Err(KernelError::PolicyViolation(d)) && d@
                == "agents cannot create agents — creation right belongs to humans (PIP-001 §5)"@ && unchanged(*old(self), *final(self))),
            ordinary_action(action) && bad_execute(action) && can_pay(*old(self), action) ==> (r matches Err(
                KernelError::ExecutePayloadInvalid(_),
            ) && final(self).events() == old(self).events() && final(self).audit() == old(self).audit()
                && balance_of(final(self).ledger(), action.actor_id@) == balance_of(
                old(self).ledger(),
                action.actor_id@,
            )),
    {
        // Lifecycle operations need the initiator's authority over the target.
        let lifecycle_op = if action.action_type == ActionType::Mutate {
            crate::lifecycle::parse_lifecycle_op(action.target.as_str(), &action.payload)
        } else {
            None
        };
        match &lifecycle_op {
            Some((target_id, op)) => {
                let initiator = match self.actor_store.get(action.actor_id.as_str()) {
                    Ok(Some(a)) => a,
                    _ => {
                        return Err(KernelError::ActorNotFound(action.actor_id.clone()));
                    },
                };
                let target_actor = match self.actor_store.get(target_id.as_str()) {
                    Ok(Some(a)) => a,
                    _ => {
                        return Err(KernelError::ActorNotFound(target_id.clone()));
                    },
                };
                match crate::lifecycle::validate_lifecycle_authorization(initiator, target_actor, op) {
                    Ok(()) => {},
                    Err(e) => {
                        return Err(e);
                    },
                }
            },
            None => {},
        }
        let create_actor_spec = match crate::requests::parse_create_actor_spec(&action, &self.actor_store) {
            Ok(c) => c,
            Err(e) => {
                return Err(e);
            },
        };
        let create_envelope_spec = match crate::requests::parse_create_envelope_spec(
            &action,
            &self.envelope_store,
        ) {
            Ok(c) => c,
            Err(e) => {
                return Err(e);
            },
        };
        let policy_version = crate::requests::parse_policy_version(&action);
        let ghost cas = create_actor_spec;
        let ghost a0 = action;
        let ghost lifecycle_none = lifecycle_op is None;
        let ghost lop = lifecycle_op;
        let r = self.commit_action(
            action,
            actor_type,
            lifecycle_op,
            create_actor_spec,
            create_envelope_spec,
            policy_version,
        );
        proof {
            if r is Ok && crate::requests::is_actor_creation(a0) {
                assert(lifecycle_none);
                assert(cas is Some);
                let c = cas->0;
                assert(actors_after(old(self).actors(), self.actors(), cas));
                assert(created_from(self.actors().last(), c));
            }
            if r is Ok && a0.action_type == ActionType::Mutate {
                assert(!crate::requests::is_actor_creation(a0));
                assert(cas is None);
                reveal_strlit("freeze");
                reveal_strlit("unfreeze");
                reveal_strlit("terminate");
                reveal_strlit("update_energy_share");
                assert("unfreeze"@.len() != "freeze"@.len());
                assert("terminate"@.len() != "unfreeze"@.len());
                assert("update_energy_share"@.len() != "freeze"@.len());
                assert("update_energy_share"@.len() != "terminate"@.len());
                assert("update_energy_share"@.len() != "unfreeze"@.len());
                match lop {
                    Some((t, op)) => {
                        assert(lifecycle_applied(old(self).actors(), self.actors(), t@, op));
                    },
                    None => {},
                }
            }
        }
        r
    }

    /// Authorization of a state-changing action: an agent needs an active
    /// envelope that covers the action; its timed-out holds are settled
    /// first, and an action matching a hold rule is held.  `Some` carries
    /// the answer when the pipeline stops here.
    #[verifier::rlimit(100)]
    #[verifier::spinoff_prover]
    fn authorize_state_change<F: Fn(i64) -> i64>(&mut self, action: &Action, commitment: &F) -> (r:
        Option<KernelResult<SubmitReceipt>>)
        requires
            old(self).wf(),
            forall|c: i64| c > 0 ==> commitment.requires((c,)),
            has_actor(old(self).actors(), action.actor_id@),
        ensures
            agent_held(*old(self), *action) && hold_can_record(*old(self), *action) ==> (r matches Some(res)
                && hold_outcome(
                *old(self),
                *final(self),
                *action,
                old(self).envelopes()[crate::envelope_store::active_index_for(
                    old(self).envelopes(),
                    action.actor_id@,
                )].envelope_id@,
                res,
            ) && final(self).envelopes() == old(self).envelopes()),
            agent_budget_spent(*old(self), *action) ==> (r matches Some(
                Err(KernelError::AuthorizationRequired(_)),
            ) && unchanged(*old(self), *final(self))),
            final(self).wf(),
            extends(old(self).events(), final(self).events()),
            r matches Some(res) ==> res is Err,
            final(self).actors() == old(self).actors(),
            final(self).spec_policy_version() == old(self).spec_policy_version(),
            r is None ==> crate::envelope_store::pending_count(final(self).holds())
                <= crate::envelope_store::pending_count(old(self).holds()),
            r is None && direct_submission(*old(self), *action) ==> final(self).ledger() == old(
                self,
            ).ledger() && final(self).events() == old(self).events() && final(self).holds() == old(
                self,
            ).holds(),
            old(self).actors()[actor_index(old(self).actors(), action.actor_id@)].actor_type
                == ActorType::Agent && crate::envelope_store::active_index_for(
                old(self).envelopes(),
                action.actor_id@,
            ) < 0 ==> (r matches Some(Err(KernelError::AuthorizationRequired(_)))
                && unchanged(*old(self), *final(self))),
            held_by_envelope(*old(self), *action) ==> r matches Some(Err(_)),
            old(self).actors()[actor_index(old(self).actors(), action.actor_id@)].actor_type
                == ActorType::Human ==> r is None && final(self).ledger() == old(self).ledger()
                && final(self).holds() == old(self).holds() && final(self).events() == old(
                self,
            ).events() && final(self).audit() == old(self).audit(),
            old(self).actors()[actor_index(old(self).actors(), action.actor_id@)].actor_type
                == ActorType::Agent && agent_authorized(*old(self), *action) ==> r is None
                && final(self).ledger() == old(self).ledger() && final(self).holds() == old(self).holds()
                && final(self).events() == old(self).events() && final(self).audit() == old(self).audit()
                && final(self).envelopes() == old(self).envelopes(),
    {
        proof {
            if direct_submission(*old(self), *action) {
                lemma_direct_settles_nothing(*old(self), *action);
                let rows = old(self).envelopes();
                let i = crate::envelope_store::active_index_for(rows, action.actor_id@);
                crate::envelope_store::lemma_active_index_range(rows, action.actor_id@);
                if i >= 0 {
                    crate::envelope_store::lemma_envelope_index_of(rows, i);
                }
            }
            if agent_authorized(*old(self), *action) || agent_budget_spent(*old(self), *action) || agent_held(
                *old(self),
                *action,
            ) {
                let rows = old(self).envelopes();
                let i = crate::envelope_store::active_index_for(rows, action.actor_id@);
                crate::envelope_store::lemma_active_index_range(rows, action.actor_id@);
                crate::envelope_store::lemma_envelope_index_of(rows, i);
            }
            if held_by_envelope(*old(self), *action) {
                let rows = old(self).envelopes();
                let i = crate::envelope_store::active_index_for(rows, action.actor_id@);
                crate::envelope_store::lemma_active_index_range(rows, action.actor_id@);
                crate::envelope_store::lemma_envelope_index_of(rows, i);
            }
        }
        let env_id: Option<String> = match self.envelope_store.get_active_for_actor(
            action.actor_id.as_str(),
        ) {
            Ok(Some(env)) => Some(env.envelope_id.clone()),
            Ok(None) => None,
            Err(e) => {
                return Some(Err(e));
            },
        };
        let active_id: Option<String> = match env_id {
            Some(id) => {
                let now = crate::clock::now_millis_u64();
                match self.envelope_store.expire_if_due(id.as_str(), now) {
                    Ok(true) => None,
                    Ok(false) => Some(id),
                    Err(e) => {
                        return Some(Err(e));
                    },
                }
            },
            None => None,
        };
        let mode = {
            let actor = match self.actor_store.get(action.actor_id.as_str()) {
                Ok(Some(a)) => a,
                _ => {
                    return Some(Err(KernelError::ActorNotFound(action.actor_id.clone())));
                },
            };
            let env = match &active_id {
                Some(id) => match self.envelope_store.get(id.as_str()) {
                    Ok(found) => found,
                    Err(e) => {
                        return Some(Err(e));
                    },
                },
                None => None,
            };
            match crate::consent::check_authorization(actor, env) {
                Ok(m) => m,
                Err(e) => {
                    return Some(Err(e));
                },
            }
        };
        if mode == crate::consent::AuthorizationMode::ManOnTheLoop {
            match active_id {
                Some(id) => {
                    return self.supervise(action, id.as_str(), commitment);
                },
                None => {},
            }
        }
        None
    }

    /// Supervision of an agent's action under its active envelope: the
    /// envelope must cover the action, the envelope's timed-out holds are
    /// settled, and an unapproved action that matches a hold rule is held.
    #[verifier::rlimit(60)]
    fn supervise<F: Fn(i64) -> i64>(&mut self, action: &Action, id: &str, commitment: &F) -> (r: Option<
        KernelResult<SubmitReceipt>,
    >)
        requires
            old(self).wf(),
            forall|c: i64| c > 0 ==> commitment.requires((c,)),
        ensures
            ({
                let rows = old(self).envelopes();
                crate::envelope_store::has_envelope(rows, id@) && envelope_holds(
                    rows[crate::envelope_store::envelope_index(rows, id@)],
                    *action,
                    old(self).holds(),
                ) && hold_can_record(*old(self), *action) ==> (r matches Some(res) && hold_outcome(
                    *old(self),
                    *final(self),
                    *action,
                    id@,
                    res,
                ) && final(self).envelopes() == old(self).envelopes())
            }),
            ({
                let rows = old(self).envelopes();
                crate::envelope_store::has_envelope(rows, id@) && budget_spent(
                    rows[crate::envelope_store::envelope_index(rows, id@)],
                    *action,
                ) ==> (r matches Some(Err(KernelError::AuthorizationRequired(_))) && unchanged(
                    *old(self),
                    *final(self),
                ))
            }),
            final(self).wf(),
            extends(old(self).events(), final(self).events()),
            r matches Some(res) ==> res is Err,
            final(self).actors() == old(self).actors(),
            final(self).spec_policy_version() == old(self).spec_policy_version(),
            r is None ==> crate::envelope_store::pending_count(final(self).holds())
                <= crate::envelope_store::pending_count(old(self).holds()),
            ({
                let rows = old(self).envelopes();
                r is None && crate::envelope_store::has_envelope(rows, id@) && no_timeouts_due(
                    rows[crate::envelope_store::envelope_index(rows, id@)],
                    old(self).holds(),
                ) ==> final(self).ledger() == old(self).ledger() && final(self).events() == old(
                    self,
                ).events() && final(self).holds() == old(self).holds()
            }),
            ({
                let rows = old(self).envelopes();
                crate::envelope_store::has_envelope(rows, id@) && crate::consent::hold_triggered(
                    rows[crate::envelope_store::envelope_index(rows, id@)].hold_on@,
                    action.target@,
                    action.action_type.spec_as_str(),
                ) && !hold_approved(action.payload) ==> r matches Some(Err(_))
            }),
            ({
                let rows = old(self).envelopes();
                crate::envelope_store::has_envelope(rows, id@) && envelope_admits(
                    rows[crate::envelope_store::envelope_index(rows, id@)],
                    *action,
                    old(self).holds(),
                ) ==> r is None && final(self).ledger() == old(self).ledger() && final(self).events()
                    == old(self).events() && final(self).audit() == old(self).audit() && final(self).holds()
                    == old(self).holds() && final(self).envelopes() == old(self).envelopes()
            }),
    {
        let (has_rules, timeout) = match self.envelope_store.get(id) {
            Ok(Some(env)) => {
                match crate::consent::check_envelope_covers(
                    env,
                    action.target.as_str(),
                    action.action_type.as_str(),
                ) {
                    Ok(()) => {},
                    Err(e) => {
                        return Some(Err(e));
                    },
                }
                (env.hold_on.len() > 0, env.hold_timeout_secs)
            },
            _ => (false, None),
        };
        if has_rules {
            match timeout {
                Some(t) => {
                    if t > 0 {
                        let now = crate::clock::now_millis_u64();
                        match self.expire_timed_out_holds(id, t, now, commitment) {
                            Ok(()) => {},
                            Err(e) => {
                                return Some(Err(e));
                            },
                        }
                    }
                },
                None => {},
            }
        }
        let approved = match action.payload.get("_hold_approved") {
            Some(v) => match v.as_bool() {
                Some(b) => b,
                None => false,
            },
            None => false,
        };
        if !approved {
            let triggered = match self.envelope_store.get(id) {
                Ok(Some(env)) => crate::consent::check_hold_trigger(
                    env.hold_on.as_slice(),
                    action.target.as_str(),
                    action.action_type.as_str(),
                ),
                _ => false,
            };
            if triggered {
                return Some(self.trigger_hold(action, id));
            }
        }
        None
    }

    /// The commit part of the pipeline: quote and reserve, check an execute
    /// payload, settle, create and record in one commit, then consume the
    /// agent's envelope budget and apply a lifecycle operation.
    #[verifier::rlimit(100)]
    #[verifier::spinoff_prover]
    fn commit_action(
        &mut self,
        action: Action,
        actor_type: ActorType,
        lifecycle_op: Option<(String, crate::actor::LifecycleOp)>,
        create_actor_spec: Option<CreateActorSpec>,
        create_envelope_spec: Option<(String, EnvelopeSpec, Option<String>)>,
        policy_version: Option<String>,
    ) -> (r: KernelResult<SubmitReceipt>)
        requires
            old(self).wf(),
        ensures
            final(self).wf(),
            final(self).holds() == old(self).holds(),
            extends(old(self).events(), final(self).events()),
            r matches Ok(rc) ==> receipt_matches(rc, final(self).events()),
            hold_cost_field(action.payload) is None ==> (r matches Ok(
                rc,
            ) ==> rc.settled_cost == crate::action::cost_of(action) && rc.reserved_cost
                == rc.settled_cost && charged(
                old(self).ledger(),
                final(self).ledger(),
                action.actor_id@,
                rc.settled_cost as int,
            ) && final(self).events().len() == old(self).events().len() + 1),
            action.action_type == ActionType::Execute && !crate::requests::execute_payload_valid(
                action.payload,
            ) ==> r is Err,
            r matches Ok(rc) ==> held_commit(*old(self), *final(self), action, rc),
            r is Ok <==> commit_succeeds(*old(self), action, create_actor_spec, create_envelope_spec),
            r is Ok && lifecycle_op is None ==> actors_after(old(self).actors(), final(self).actors(), create_actor_spec),
            create_envelope_spec is None && action.action_type.spec_is_state_changing() && actor_type
                == ActorType::Agent ==> (r matches Ok(rc) ==> budget_consumed(
                old(self).envelopes(),
                final(self).envelopes(),
                action.actor_id@,
                rc.settled_cost as int,
            )),
            r is Ok && create_envelope_spec is None && !(action.action_type.spec_is_state_changing()
                && actor_type == ActorType::Agent) ==> final(self).envelopes() == old(self).envelopes(),
            r is Ok && create_actor_spec is None ==> match lifecycle_op {
                Some((t, op)) => lifecycle_applied(old(self).actors(), final(self).actors(), t@, op),
                None => true,
            },
            r is Ok ==> match create_actor_spec {
                Some(c) => has_account(final(self).ledger(), c.actor_id@) && balance_of(
                    final(self).ledger(),
                    c.actor_id@,
                ) == c.energy_balance && reserved_of(final(self).ledger(), c.actor_id@) == 0,
                None => true,
            },
            bad_execute(action) && can_pay(*old(self), action) ==> (r matches Err(
                KernelError::ExecutePayloadInvalid(_),
            ) && final(self).events() == old(self).events() && final(self).audit() == old(self).audit()
                && balance_of(final(self).ledger(), action.actor_id@) == balance_of(
                old(self).ledger(),
                action.actor_id@,
            )),
    {
        let ghost l0 = self.ledger();
        // Steps 2 and 3: quote and reserve (an approved hold was reserved when it was held).
        let hold_reserved: Option<i64> = match action.payload.get("_hold_reserved_cost") {
            Some(v) => v.as_i64(),
            None => None,
        };
        let (reserved_cost, reservation) = match hold_reserved {
            Some(h) => {
                let phantom = if h > 0 {
                    Some(EnergyReservation { actor_id: action.actor_id.clone(), reserved: h })
                } else {
                    None
                };
                (h, phantom)
            },
            None => {
                let cost = quote_cost(&action) as i64;
                let res = if cost > 0 {
                    match self.energy_ledger.reserve(action.actor_id.as_str(), cost) {
                        Ok(r) => Some(r),
                        Err(e) => {
                            return Err(e);
                        },
                    }
                } else {
                    None
                };
                (cost, res)
            },
        };
        // Step 4: an execute action must carry a complete result.
        let artifact_hash = if action.action_type == ActionType::Execute {
            match crate::requests::validate_execute_payload(&action.payload) {
                Ok(h) => Some(h),
                Err(e) => {
                    proof {
                        if hold_cost_field(action.payload) is None {
                            lemma_after_reserve_account(l0, action.actor_id@, reserved_cost as int);
                        }
                    }
                    return Err(e);
                },
            }
        } else {
            None
        };
        // Step 5: the settled cost is the reserved cost.
        let settled_cost = reserved_cost;
        // Step 6: record.
        let payload_hash = match payload_hash_hex(&action) {
            Ok(h) => h,
            Err(e) => {
                return Err(e);
            },
        };
        let artifact_copy = match &artifact_hash {
            Some(h) => Some(h.clone()),
            None => None,
        };
        let mut event = EventRecord {
            id: crate::clock::new_uuid(),
            log_index: 0,
            event_hash: String::new(),
            actor_id: action.actor_id.clone(),
            action_type: String::from_str(action.action_type.as_str()),
            target: action.target.clone(),
            payload: crate::json::copy_value(&action.payload),
            payload_hash,
            artifact_hash: artifact_copy,
            reserved_energy: reserved_cost,
            settled_energy: settled_cost,
            timestamp: crate::clock::now_millis_string(),
        };
        let ghost l_res = self.ledger();
        let ghost res_g = reservation;
        let ghost cas = create_actor_spec;
        let ghost extra: Option<crate::ledger::Account> = match cas {
            Some(c) => Some((c.actor_id@, c.energy_balance as int, 0int)),
            None => None,
        };
        proof {
            if hold_cost_field(action.payload) is None {
                assert(l_res == crate::ledger::after_reserve(l0, action.actor_id@, settled_cost as int));
                lemma_after_reserve_account(l0, action.actor_id@, settled_cost as int);
            } else {
                assert(l_res == l0);
            }
        }
        match self.finalize_energy_and_event(
            reservation,
            settled_cost,
            create_actor_spec,
            create_envelope_spec,
            &mut event,
        ) {
            Ok(()) => {},
            Err(e) => {
                return Err(e);
            },
        }
        let ghost l_fin = self.ledger();
        proof {
            match cas {
                Some(c) => {
                    crate::ledger::lemma_account_index(l_fin, c.actor_id@, l_fin.len() - 1);
                },
                None => {},
            }
        }
        proof {
            if hold_cost_field(action.payload) is None {
                assert(res_g matches Some(rr) && rr.actor_id@ == action.actor_id@ && rr.reserved
                    == settled_cost);
                assert(l_res == crate::ledger::after_reserve(l0, action.actor_id@, settled_cost as int));
                assert(has_account(l0, action.actor_id@));
                lemma_reserve_settle_charges(
                    l0,
                    action.actor_id@,
                    settled_cost as int,
                    extra,
                    l_fin,
                );
            }
            match hold_cost_field(action.payload) {
                Some(c) => {
                    if c > 0 {
                        assert(res_g matches Some(rr) && rr.actor_id@ == action.actor_id@ && rr.reserved
                            == c);
                        assert(l_res == l0);
                        lemma_settle_releases(l0, action.actor_id@, c as int, extra, l_fin);
                    }
                },
                None => {},
            }
        }
        let ghost committed = self.events();
        // Step 7: after the commit.
        match policy_version {
            Some(v) => {
                self.policy_version = Some(v);
            },
            None => {},
        }
        let ghost env_mid = self.envelopes();
        if action.action_type.is_state_changing() && settled_cost > 0 && actor_type
            == ActorType::Agent {
            self.consume_envelope_budget(action.actor_id.as_str(), settled_cost);
        }
        proof {
            if create_envelope_spec is None {
                assert(env_mid == old(self).envelopes());
            }
        }
        proof {
            if cas is None {
                assert(self.actors() == old(self).actors());
            }
        }
        match lifecycle_op {
            Some((target_id, op)) => {
                self.apply_lifecycle(target_id.as_str(), op);
            },
            None => {},
        }
        proof {
            assert(self.ledger() == l_fin);
        }
        Ok(
            SubmitReceipt {
                event_id: event.id,
                log_index: event.log_index,
                event_hash: event.event_hash,
                reserved_cost,
                settled_cost,
                artifact_hash,
            },
        )    }

    /// Consumes an agent's envelope budget after a commit; a halt checkpoint
    /// expires the envelope.  A consumption that cannot be made is skipped,
    /// as the event is already committed.
    fn consume_envelope_budget(&mut self, actor_id: &str, settled_cost: i64)
        requires
            old(self).wf(),
            settled_cost > 0,
        ensures
            final(self).wf(),
            final(self).events() == old(self).events(),
            final(self).ledger() == old(self).ledger(),
            final(self).actors() == old(self).actors(),
            final(self).holds() == old(self).holds(),
            final(self).audit() == old(self).audit(),
            final(self).spec_policy_version() == old(self).spec_policy_version(),
            budget_consumed(old(self).envelopes(), final(self).envelopes(), actor_id@, settled_cost as int),
    {
        let ghost rows = self.envelopes();
        let ghost ai = crate::envelope_store::active_index_for(rows, actor_id@);
        proof {
            crate::envelope_store::lemma_active_index_range(rows, actor_id@);
            if ai >= 0 {
                crate::envelope_store::lemma_envelope_index_of(rows, ai);
            }
        }
        let found = match self.envelope_store.get_active_for_actor(actor_id) {
            Ok(Some(env)) => match env.budget_consumed.checked_add(settled_cost) {
                Some(_) => {
                    let checkpoint = crate::consent::check_checkpoint(env, settled_cost);
                    Some((env.envelope_id.clone(), checkpoint))
                },
                None => None,
            },
            _ => None,
        };
        match found {
            Some((envelope_id, checkpoint)) => {
                match self.envelope_store.consume_budget_in_tx(envelope_id.as_str(), settled_cost) {
                    Ok(_) => {
                        let ghost rows1 = self.envelopes();
                        proof {
                            assert forall|a: int, b: int|
                                0 <= a < rows1.len() && 0 <= b < rows1.len() && a != b implies (
                                #[trigger] rows1[a]).envelope_id@ != (#[trigger] rows1[b]).envelope_id@ by {
                                assert(rows1[a].envelope_id == rows[a].envelope_id);
                                assert(rows1[b].envelope_id == rows[b].envelope_id);
                            }
                            crate::envelope_store::lemma_envelope_index_of(rows1, ai);
                        }
                        match checkpoint {
                            Some(crate::consent::CheckpointLevel::Halt) => {
                                let _ = self.envelope_store.set_status_in_tx(
                                    envelope_id.as_str(),
                                    EnvelopeStatus::Expired,
                                );
                            },
                            _ => {},
                        }
                        proof {
                            assert(self.envelopes() =~= rows.update(
                                ai,
                                (EnvelopeRecord {
                                    budget_consumed: (rows[ai].budget_consumed + settled_cost) as i64,
                                    status: if rows[ai].budget_consumed + settled_cost == rows[ai].budget {
                                        EnvelopeStatus::Expired
                                    } else {
                                        rows[ai].status
                                    },
                                    updated_at: self.envelopes()[ai].updated_at,
                                    ..rows[ai]
                                }),
                            ));
                        }
                    },
                    Err(_) => {},
                }
            },
            None => {},
        }
    }

    /// Applies a lifecycle operation after its event is committed; a failure
    /// is skipped, as the event is already committed.
    fn apply_lifecycle(&mut self, target_id: &str, op: crate::actor::LifecycleOp)
        requires
            old(self).wf(),
        ensures
            final(self).wf(),
            final(self).events() == old(self).events(),
            final(self).ledger() == old(self).ledger(),
            final(self).envelopes() == old(self).envelopes(),
            final(self).holds() == old(self).holds(),
            final(self).audit() == old(self).audit(),
            final(self).spec_policy_version() == old(self).spec_policy_version(),
            final(self).actors().len() == old(self).actors().len(),
            !has_actor(old(self).actors(), target_id@) ==> final(self).actors() == old(self).actors(),
            lifecycle_applied(old(self).actors(), final(self).actors(), target_id@, op),
    {
        match op {
            crate::actor::LifecycleOp::Freeze { .. } => {
                let _ = crate::lifecycle::execute_freeze(&mut self.actor_store, target_id);
            },
            crate::actor::LifecycleOp::Unfreeze => {
                let _ = crate::lifecycle::execute_unfreeze(&mut self.actor_store, target_id);
                proof {
                    if has_actor(old(self).actors(), target_id@) {
                        assert(self.actors() =~= old(self).actors().update(
                            actor_index(old(self).actors(), target_id@),
                            crate::actor_store::with_status(
                                old(self).actors()[actor_index(old(self).actors(), target_id@)],
                                ActorStatus::Active,
                                self.actors()[actor_index(old(self).actors(), target_id@)].updated_at,
                            ),
                        ));
                    }
                }
            },
            crate::actor::LifecycleOp::Terminate { .. } => {
                let _ = crate::lifecycle::execute_freeze(&mut self.actor_store, target_id);
            },
            crate::actor::LifecycleOp::UpdateEnergyShare { energy_share } => {
                let _ = crate::lifecycle::execute_update_energy_share(
                    &mut self.actor_store,
                    target_id,
                    energy_share,
                );
                proof {
                    if has_actor(old(self).actors(), target_id@) {
                        assert(self.actors() =~= old(self).actors().update(
                            actor_index(old(self).actors(), target_id@),
                            crate::actor_store::with_share(
                                old(self).actors()[actor_index(old(self).actors(), target_id@)],
                                energy_share,
                                self.actors()[actor_index(old(self).actors(), target_id@)].updated_at,
                            ),
                        ));
                    }
                }
            },
        }
    }

    /// Submits an action through the pipeline.  `commitment` gives the
    /// commitment cost charged when a held action of the given reserved cost
    /// is rejected or times out.
    pub fn submit_action<F: Fn(i64) -> i64>(&mut self, action: Action, commitment: &F) -> (r: KernelResult<
        SubmitReceipt,
    >)
        requires
            old(self).wf(),
            forall|c: i64| c > 0 ==> commitment.requires((c,)),
        ensures
            final(self).wf(),
            extends(old(self).events(), final(self).events()),
            plain_submission(*old(self), action) ==> (r matches Ok(rc) ==> rc.settled_cost
                == crate::action::cost_of(action) && rc.reserved_cost == rc.settled_cost && charged(
                old(self).ledger(),
                final(self).ledger(),
                action.actor_id@,
                rc.settled_cost as int,
            ) && final(self).events().len() == old(self).events().len() + 1),
            r matches Ok(rc) ==> receipt_matches(rc, final(self).events()),
            r is Ok ==> has_actor(old(self).actors(), action.actor_id@),
            r is Ok && crate::requests::is_actor_creation(action) ==> actor_created(*old(self), *final(self), action),
            r is Ok && action.action_type == ActionType::Mutate ==> lifecycle_done(old(self).actors(), final(self).actors(), action),
            admitted(*old(self), action) && agent_authorized(*old(self), action) && old(self).actors()[actor_index(
                old(self).actors(),
                action.actor_id@,
            )].actor_type == ActorType::Agent && action.action_type.spec_is_state_changing()
                && !crate::requests::is_envelope_creation(action) ==> (r matches Ok(rc) ==> budget_consumed(
                old(self).envelopes(),
                final(self).envelopes(),
                action.actor_id@,
                rc.settled_cost as int,
            )),
            reaches_commit(*old(self), action) ==> (r is Ok <==> commit_succeeds(
                *old(self),
                action,
                None,
                None,
            )),
            admitted(*old(self), action) && agent_held(*old(self), action) && hold_can_record(*old(self), action)
                ==> (hold_outcome(
                *old(self),
                *final(self),
                action,
                old(self).envelopes()[crate::envelope_store::active_index_for(
                    old(self).envelopes(),
                    action.actor_id@,
                )].envelope_id@,
                r,
            ) && final(self).envelopes() == old(self).envelopes()),
            admitted(*old(self), action) && agent_budget_spent(*old(self), action) ==> (r matches Err(
                KernelError::AuthorizationRequired(_),
            ) && unchanged(*old(self), *final(self))),
            admitted(*old(self), action) && agent_authorized(*old(self), action) && agent_agent_request(
                *old(self),
                action,
            ) ==> (r matches Err(KernelError::PolicyViolation(d)) && d@
                == "agents cannot create agents — creation right belongs to humans (PIP-001 §5)"@ && unchanged(*old(self), *final(self))),
            reaches_commit(*old(self), action) && bad_execute(action) && can_pay(*old(self), action) ==> (
            r matches Err(KernelError::ExecutePayloadInvalid(_)) && final(self).events() == old(self).events()
                && final(self).audit() == old(self).audit() && balance_of(final(self).ledger(), action.actor_id@)
                == balance_of(old(self).ledger(), action.actor_id@)),
            crate::policy::is_blank(action.actor_id@) ==> (r matches Err(
                KernelError::PolicyViolation(d),
            ) && d@ == "actor_id cannot be empty"@ && unchanged(*old(self), *final(self))),
            !crate::policy::is_blank(action.actor_id@) && crate::policy::is_blank(action.target@)
                ==> (r matches Err(KernelError::PolicyViolation(d)) && d@ == "target cannot be empty"@
                && unchanged(*old(self), *final(self))),
            !crate::policy::is_blank(action.actor_id@) && !crate::policy::is_blank(action.target@)
                && !has_actor(old(self).actors(), action.actor_id@) ==> (r matches Err(
                KernelError::ActorNotFound(d),
            ) && d@ == action.actor_id@ && unchanged(*old(self), *final(self))),
            ({
                let a = old(self).actors()[actor_index(old(self).actors(), action.actor_id@)];
                !crate::policy::is_blank(action.actor_id@) && !crate::policy::is_blank(action.target@)
                    && has_actor(old(self).actors(), action.actor_id@) && a.status
                    == ActorStatus::Frozen && action.action_type.spec_is_state_changing() ==> (
                r matches Err(KernelError::ActorFrozen(d)) && d@ == "actor "@ + action.actor_id@
                    + " is frozen and cannot perform state-changing actions"@ && unchanged(
                    *old(self),
                    *final(self),
                ))
            }),
            ({
                let a = old(self).actors()[actor_index(old(self).actors(), action.actor_id@)];
                !crate::policy::is_blank(action.actor_id@) && !crate::policy::is_blank(action.target@)
                    && has_actor(old(self).actors(), action.actor_id@) && !(a.status
                    == ActorStatus::Frozen && action.action_type.spec_is_state_changing())
                    && !crate::boundary::boundary_permits(a, action.target@, action.action_type)
                    ==> (r matches Err(KernelError::BoundaryViolation(_)) && unchanged(
                    *old(self),
                    *final(self),
                ))
            }),
            has_actor(old(self).actors(), action.actor_id@) && old(self).actors()[actor_index(
                old(self).actors(),
                action.actor_id@,
            )].actor_type == ActorType::Agent && action.action_type.spec_is_state_changing()
                && crate::envelope_store::active_index_for(old(self).envelopes(), action.actor_id@) < 0
                ==> (r is Err && unchanged(*old(self), *final(self))),
            admitted(*old(self), action) && old(self).actors()[actor_index(old(self).actors(), action.actor_id@)].actor_type
                == ActorType::Agent && action.action_type.spec_is_state_changing()
                && crate::envelope_store::active_index_for(old(self).envelopes(), action.actor_id@) < 0
                ==> r matches Err(KernelError::AuthorizationRequired(_)),
            held_by_envelope(*old(self), action) ==> r is Err,
            agent_creates_agent(*old(self), action) ==> r is Err,
            lifecycle_on_human(*old(self), action) ==> r is Err,
            action.action_type == ActionType::Execute && !crate::requests::execute_payload_valid(
                action.payload,
            ) ==> r is Err,
            direct_submission(*old(self), action) ==> (r matches Ok(rc) ==> held_commit(
                *old(self),
                *final(self),
                action,
                rc,
            ) && final(self).holds() == old(self).holds()),
            human_rejection(*old(self), action) ==> (r matches Ok(rc) ==> rejection_settled(
                *old(self),
                *final(self),
                responded_hold(action),
                rc,
                *commitment,
            )),
            human_approval(*old(self), action) ==> (r matches Ok(rc) ==> approval_settled(
                *old(self),
                *final(self),
                responded_hold(action),
                rc,
            )),
    {
        let fuel: u128 = self.envelope_store.hold_count() as u128 + 1;
        proof {
            crate::envelope_store::lemma_pending_count_bound(self.holds());
        }
        self.submit_inner(action, commitment, fuel)
    }
}

impl SubmitReceipt {
    /// The JSON form of a receipt, keys in codepoint order.
    pub open spec fn spec_json(&self) -> crate::json::JsonView {
        crate::json::JsonView::Object(
            seq![
                ("artifact_hash"@, crate::json::opt_str_view(self.artifact_hash)),
                ("event_hash"@, crate::json::JsonView::String(self.event_hash@)),
                ("event_id"@, crate::json::JsonView::String(self.event_id@)),
                ("log_index"@, crate::json::JsonView::Number(crate::json::i64_number_view(self.log_index))),
                ("reserved_cost"@, crate::json::JsonView::Number(crate::json::i64_number_view(self.reserved_cost))),
                ("settled_cost"@, crate::json::JsonView::Number(crate::json::i64_number_view(self.settled_cost))),
            ],
        )
    }

    /// The JSON form of a receipt.
    pub fn to_json(&self) -> (r: JsonValue)
        ensures
            r@ == self.spec_json(),
    {
        let es = vec![
            crate::json::entry("artifact_hash", crate::json::json_opt_str(&self.artifact_hash)),
            crate::json::entry("event_hash", crate::json::json_str(self.event_hash.as_str())),
            crate::json::entry("event_id", crate::json::json_str(self.event_id.as_str())),
            crate::json::entry("log_index", crate::json::json_i64(self.log_index)),
            crate::json::entry("reserved_cost", crate::json::json_i64(self.reserved_cost)),
            crate::json::entry("settled_cost", crate::json::json_i64(self.settled_cost)),
        ];
        let r = crate::json::json_object(es);
        proof {
            assert(Seq::new(es@.len(), |i: int| (es@[i].0@, es@[i].1@)) =~= self.spec_json()->Object_0);
        }
        r
    }
}

/// A read request.
#[derive(Debug, Clone)]
pub struct ReadQuery {
    pub kind: String,
    pub actor_id: Option<String>,
    pub hold_id: Option<String>,
    pub limit: Option<i64>,
    /// For an inclusion proof: the event's log index.
    pub log_index: Option<i64>,
    /// For a proof: the tree size to prove against.
    pub tree_size: Option<i64>,
    /// For a consistency proof: the older tree size.
    pub old_size: Option<i64>,
    /// Only events with a smaller log index.
    pub before_index: Option<i64>,
    /// Only events with a larger log index.
    pub after_index: Option<i64>,
    /// Who asks (all reads are permitted).
    pub requester_id: Option<String>,
}

/// The leaf and the tree size that an `audit_inclusion_proof` query names:
/// the log index is required, and both numbers are read as unsigned.
pub fn inclusion_proof_request(query: &ReadQuery) -> (r: KernelResult<(u64, Option<u64>)>)
    ensures
        query.log_index is None ==> (r matches Err(KernelError::InvalidRequest(d)) && d@
            == "log_index is required for audit_inclusion_proof"@),
        query.log_index matches Some(i) ==> (r matches Ok((li, ts)) && li == i as u64 && (ts is None
            <==> query.tree_size is None) && (query.tree_size matches Some(s) ==> ts == Some(s as u64))),
{
    let log_index = match query.log_index {
        Some(i) => #[verifier::truncate] (i as u64),
        None => {
            return Err(KernelError::InvalidRequest(String::from_str("log_index is required for audit_inclusion_proof")));
        },
    };
    let tree_size = match query.tree_size {
        Some(s) => Some(#[verifier::truncate] (s as u64)),
        None => None,
    };
    Ok((log_index, tree_size))
}

/// The older and newer tree sizes that an `audit_consistency_proof` query
/// names: both are required, the older first, and both are read as unsigned.
pub fn consistency_proof_request(query: &ReadQuery) -> (r: KernelResult<(u64, u64)>)
    ensures
        query.old_size is None ==> (r matches Err(KernelError::InvalidRequest(d)) && d@
            == "old_size is required for audit_consistency_proof"@),
        query.old_size is Some && query.tree_size is None ==> (r matches Err(KernelError::InvalidRequest(d))
            && d@ == "tree_size is required for audit_consistency_proof"@),
        query.old_size matches Some(o) ==> (query.tree_size matches Some(n) ==> (r matches Ok((a, b))
            && a == o as u64 && b == n as u64)),
{
    let old_size = match query.old_size {
        Some(o) => #[verifier::truncate] (o as u64),
        None => {
            return Err(KernelError::InvalidRequest(String::from_str("old_size is required for audit_consistency_proof")));
        },
    };
    let new_size = match query.tree_size {
        Some(n) => #[verifier::truncate] (n as u64),
        None => {
            return Err(KernelError::InvalidRequest(String::from_str("tree_size is required for audit_consistency_proof")));
        },
    };
    Ok((old_size, new_size))
}

/// The page size of an `events` query: the requested limit (20 by default)
/// clamped to 1..=500.
pub open spec fn page_limit(limit: Option<i64>) -> i64 {
    let l = match limit {
        Some(n) => n,
        None => 20,
    };
    if l < 1 {
        1
    } else if l > 500 {
        500
    } else {
        l
    }
}

pub open spec fn opt_text(o: Option<String>) -> Option<Seq<char>> {
    match o {
        Some(s) => Some(s@),
        None => None,
    }
}

/// What a `health` query answers.
#[verifier::opaque]
pub open spec fn answers_health(k: Kernel, q: ReadQuery, r: KernelResult<JsonValue>) -> bool {
    (r matches Ok(v) && v@ == crate::json::JsonView::Object(
                seq![("status"@, crate::json::JsonView::String("ok"@))],
            ))
}

/// What a `actor_energy` query answers.
#[verifier::opaque]
pub open spec fn answers_actor_energy(k: Kernel, q: ReadQuery, r: KernelResult<JsonValue>) -> bool {
    match q.actor_id {
                None => r matches Err(KernelError::InvalidRequest(d)) && d@
                    == "actor_id is required for actor_energy"@,
                Some(id) => if has_account(k.ledger(), id@) {
                    r matches Ok(v) && v@ == crate::json::JsonView::Object(
                        seq![
                            ("actor_id"@, crate::json::JsonView::String(id@)),
                            ("energy_balance"@, crate::json::JsonView::Number(crate::json::i64_number_view(balance_of(k.ledger(), id@) as i64))),
                            ("reserved_energy"@, crate::json::JsonView::Number(crate::json::i64_number_view(reserved_of(k.ledger(), id@) as i64))),
                        ],
                    )
                } else {
                    r matches Err(KernelError::ActorNotFound(d)) && d@ == id@
                },
            }
}

/// What a `events` query answers.
#[verifier::opaque]
pub open spec fn answers_events(k: Kernel, q: ReadQuery, r: KernelResult<JsonValue>) -> bool {
    (r matches Ok(v) && ({
                let page = crate::event_log::take_limit(
                    crate::event_log::newest_first(
                        k.events(),
                        opt_text(q.actor_id),
                        q.before_index,
                        q.after_index,
                    ),
                    page_limit(q.limit),
                );
                v@ == crate::json::JsonView::Object(
                    seq![
                        ("events"@, crate::json::JsonView::Array(page.map_values(|e: EventView| crate::event_log::event_json(e)))),
                        ("has_more"@, crate::json::JsonView::Bool(page.len() == page_limit(q.limit))),
                        ("next_cursor"@, if page.len() == 0 {
                            crate::json::JsonView::Null
                        } else {
                            crate::json::JsonView::Number(crate::json::i64_number_view(page.last().log_index))
                        }),
                    ],
                )
            }))
}

/// What a `stats` query answers.
#[verifier::opaque]
pub open spec fn answers_stats(k: Kernel, q: ReadQuery, r: KernelResult<JsonValue>) -> bool {
    (r matches Ok(v) && v@ == crate::json::JsonView::Object(
                seq![("event_count"@, crate::json::JsonView::Number(crate::json::i64_number_view(k.events().len() as i64)))],
            ))
}

/// What a `envelope_info` query answers.
#[verifier::opaque]
pub open spec fn answers_envelope_info(k: Kernel, q: ReadQuery, r: KernelResult<JsonValue>) -> bool {
    match q.actor_id {
                None => r matches Err(KernelError::InvalidRequest(d)) && d@
                    == "actor_id is required for envelope_info"@,
                Some(id) => {
                    let i = crate::envelope_store::active_index_for(k.envelopes(), id@);
                    if i >= 0 {
                        r matches Ok(v) && v@ == k.envelopes()[i].spec_json()
                    } else {
                        r matches Ok(v) && v@ == crate::json::JsonView::Object(
                            seq![
                                ("actor_id"@, crate::json::JsonView::String(id@)),
                                ("envelope"@, crate::json::JsonView::Null),
                            ],
                        )
                    }
                },
            }
}

/// What a `actor_info` query answers.
#[verifier::opaque]
pub open spec fn answers_actor_info(k: Kernel, q: ReadQuery, r: KernelResult<JsonValue>) -> bool {
    match q.actor_id {
                None => r matches Err(KernelError::InvalidRequest(d)) && d@
                    == "actor_id is required for actor_info"@,
                Some(id) => if has_actor(k.actors(), id@) {
                    r matches Ok(v) && v@ == k.actors()[actor_index(k.actors(), id@)].spec_json()
                } else {
                    r matches Err(KernelError::ActorNotFound(d)) && d@ == id@
                },
            }
}

/// What a `hold_info` query answers.
#[verifier::opaque]
pub open spec fn answers_hold_info(k: Kernel, q: ReadQuery, r: KernelResult<JsonValue>) -> bool {
    match q.hold_id {
                None => r matches Err(KernelError::InvalidRequest(d)) && d@
                    == "hold_id is required for hold_info"@,
                Some(id) => if has_hold(k.holds(), id@) {
                    r matches Ok(v) && v@ == k.holds()[crate::envelope_store::hold_index(
                        k.holds(),
                        id@,
                    )].spec_json()
                } else {
                    r matches Err(KernelError::InvalidRequest(d)) && d@ == "hold_request not found: "@
                        + id@
                },
            }
}

/// What a `holds_pending` query answers.
#[verifier::opaque]
pub open spec fn answers_holds_pending(k: Kernel, q: ReadQuery, r: KernelResult<JsonValue>) -> bool {
    (r matches Ok(v) && v@ == crate::json::JsonView::Object(
                seq![
                    ("holds"@, crate::json::JsonView::Array(crate::envelope_store::pending_json(
                        k.holds(),
                        opt_text(q.actor_id),
                    ))),
                ],
            ))
}

impl Kernel {
    /// Answers a `quote` request: validates the action and prices it.
    pub fn quote(action: &Action) -> (r: KernelResult<JsonValue>)
        ensures
            r is Ok <==> (!crate::policy::is_blank(action.actor_id@) && !crate::policy::is_blank(
                action.target@,
            )),
            r matches Ok(v) ==> v@ == crate::json::JsonView::Object(
                seq![("cost"@, crate::json::JsonView::Number(crate::json::JsonNumberView::PosInt(crate::action::cost_of(*action) as u64)))],
            ),
            crate::policy::is_blank(action.actor_id@) ==> (r matches Err(
                KernelError::PolicyViolation(d),
            ) && d@ == "actor_id cannot be empty"@),
            !crate::policy::is_blank(action.actor_id@) && crate::policy::is_blank(action.target@)
                ==> (r matches Err(KernelError::PolicyViolation(d)) && d@
                == "target cannot be empty"@),
    {
        match crate::policy::validate_action(action) {
            Ok(()) => {},
            Err(e) => {
                return Err(e);
            },
        }
        let cost = quote_cost(action);
        let es = vec![crate::json::entry("cost", crate::json::json_u64(cost))];
        let r = crate::json::json_object(es);
        proof {
            assert(Seq::new(es@.len(), |i: int| (es@[i].0@, es@[i].1@)) =~= seq![
                ("cost"@, crate::json::JsonView::Number(crate::json::JsonNumberView::PosInt(cost))),
            ]);
        }
        Ok(r)
    }

    /// Records a checkpoint of the audit tree.
    pub fn record_checkpoint(&mut self, cp: crate::audit::AuditCheckpoint)
        requires
            old(self).wf(),
        ensures
            final(self).wf(),
            unchanged(*old(self), *final(self)),
            final(self).checkpoints() == old(self).checkpoints().push(cp),
    {
        self.audit_log.record_checkpoint(cp);
    }

    /// Credits one tick of energy production to the ledger, in one
    /// transaction (see [`crate::energy::credit_tick`]); nothing else changes.
    pub fn credit_energy_tick(&mut self, allocations: &[(String, i64)]) -> (r: KernelResult<
        (i64, usize),
    >)
        requires
            old(self).wf(),
            crate::ledger::total_balance(old(self).ledger()) + crate::energy::positive_total(
                crate::energy::alloc_view(allocations@),
            ) <= i64::MAX,
        ensures
            final(self).wf(),
            match crate::energy::first_unknown(
                old(self).ledger(),
                crate::energy::alloc_view(allocations@),
            ) {
                Some(id) => r matches Err(KernelError::ActorNotFound(d)) && d@ == id && final(self).ledger() == old(self).ledger(),
                None => r matches Ok((total, count)) && total == crate::energy::positive_total(
                    crate::energy::alloc_view(allocations@),
                ) && count == crate::energy::positive_count(
                    crate::energy::alloc_view(allocations@),
                ) && final(self).ledger() == crate::energy::credited(
                    old(self).ledger(),
                    crate::energy::alloc_view(allocations@),
                ),
            },
            r is Ok ==> crate::ledger::total_balance(final(self).ledger())
                == crate::ledger::total_balance(old(self).ledger()) + crate::energy::positive_total(
                crate::energy::alloc_view(allocations@),
            ),
            final(self).events() == old(self).events(),
            final(self).audit() == old(self).audit(),
            final(self).actors() == old(self).actors(),
            final(self).envelopes() == old(self).envelopes(),
            final(self).holds() == old(self).holds(),
            final(self).spec_policy_version() == old(self).spec_policy_version(),
    {
        crate::energy::credit_tick(&mut self.energy_ledger, allocations)
    }

    fn read_health(&self, query: &ReadQuery) -> (r: KernelResult<JsonValue>)
        requires
            self.wf(),
        ensures
            answers_health(*self, *query, r),
    {
        proof {
            reveal(answers_health);
        }
        let es = vec![crate::json::entry("status", crate::json::json_str("ok"))];
        let r = crate::json::json_object(es);
        proof {
            assert(Seq::new(es@.len(), |i: int| (es@[i].0@, es@[i].1@)) =~= seq![
                ("status"@, crate::json::JsonView::String("ok"@)),
            ]);
        }
        Ok(r)
    }

    fn read_actor_energy(&self, query: &ReadQuery) -> (r: KernelResult<JsonValue>)
        requires
            self.wf(),
        ensures
            answers_actor_energy(*self, *query, r),
    {
        proof {
            reveal(answers_actor_energy);
        }
        let actor_id = match &query.actor_id {
            Some(a) => a,
            None => {
                return Err(
                    KernelError::InvalidRequest(
                        String::from_str("actor_id is required for actor_energy"),
                    ),
                );
            },
        };
        let (balance, reserved) = match self.energy_ledger.balance_view(actor_id.as_str()) {
            Ok(p) => p,
            Err(e) => {
                return Err(e);
            },
        };
        let es = vec![
            crate::json::entry("actor_id", crate::json::json_str(actor_id.as_str())),
            crate::json::entry("energy_balance", crate::json::json_i64(balance)),
            crate::json::entry("reserved_energy", crate::json::json_i64(reserved)),
        ];
        let r = crate::json::json_object(es);
        proof {
            assert(Seq::new(es@.len(), |i: int| (es@[i].0@, es@[i].1@)) =~= seq![
                ("actor_id"@, crate::json::JsonView::String(actor_id@)),
                ("energy_balance"@, crate::json::JsonView::Number(crate::json::i64_number_view(balance))),
                ("reserved_energy"@, crate::json::JsonView::Number(crate::json::i64_number_view(reserved))),
            ]);
        }
        Ok(r)
    }

    #[verifier::rlimit(40)]
    #[verifier::spinoff_prover]
    fn read_events(&self, query: &ReadQuery) -> (r: KernelResult<JsonValue>)
        requires
            self.wf(),
        ensures
            answers_events(*self, *query, r),
    {
        proof {
            reveal(answers_events);
        }
        let limit: i64 = match query.limit {
            Some(n) => n,
            None => 20,
        };
        let limit: i64 = if limit < 1 {
            1
        } else if limit > 500 {
            500
        } else {
            limit
        };
        let actor: Option<&str> = match &query.actor_id {
            Some(a) => Some(a.as_str()),
            None => None,
        };
        let events = self.event_log.query(actor, query.before_index, query.after_index, limit);
        let ghost page = events@.map_values(|e: EventRecord| e@);
        let mut items: Vec<JsonValue> = Vec::new();
        let mut i: usize = 0;
        while i < events.len()
            invariant
                i <= events@.len(),
                items@.len() == i,
                forall|k: int| 0 <= k < i ==> (#[trigger] items@[k])@ == crate::event_log::event_json(events@[k]@),
            decreases events@.len() - i,
        {
            items.push(events[i].to_json());
            i = i + 1;
        }
        let ghost items_v = items@;
        let next_cursor = if events.len() > 0 {
            crate::json::json_i64(events[events.len() - 1].log_index)
        } else {
            JsonValue::Null
        };
        let has_more = events.len() as i64 == limit;
        let ghost n_items = items@.len();
        let es = vec![
            crate::json::entry("events", JsonValue::Array(items)),
            crate::json::entry("has_more", JsonValue::Bool(has_more)),
            crate::json::entry("next_cursor", next_cursor),
        ];
        let r = crate::json::json_object(es);
        proof {
            crate::json::lemma_items_view_len(items_v, n_items);
            assert(page.len() == events@.len());
            assert(crate::json::items_view(items_v, n_items) =~= page.map_values(
                |e: EventView| crate::event_log::event_json(e),
            ));
            if events@.len() > 0 {
                assert(page.last() == events@[events@.len() - 1]@);
            }
            assert(Seq::new(es@.len(), |i: int| (es@[i].0@, es@[i].1@)) =~= seq![
                ("events"@, crate::json::JsonView::Array(page.map_values(|e: EventView| crate::event_log::event_json(e)))),
                ("has_more"@, crate::json::JsonView::Bool(page.len() == limit)),
                ("next_cursor"@, if page.len() == 0 {
                    crate::json::JsonView::Null
                } else {
                    crate::json::JsonView::Number(crate::json::i64_number_view(page.last().log_index))
                }),
            ]);
        }
        Ok(r)
    }

    fn read_stats(&self, query: &ReadQuery) -> (r: KernelResult<JsonValue>)
        requires
            self.wf(),
        ensures
            answers_stats(*self, *query, r),
    {
        proof {
            reveal(answers_stats);
        }
        let count = match self.event_log.count() {
            Ok(c) => c,
            Err(e) => {
                return Err(e);
            },
        };
        let es = vec![crate::json::entry("event_count", crate::json::json_i64(count))];
        let r = crate::json::json_object(es);
        proof {
            assert(Seq::new(es@.len(), |i: int| (es@[i].0@, es@[i].1@)) =~= seq![
                ("event_count"@, crate::json::JsonView::Number(crate::json::i64_number_view(count))),
            ]);
        }
        Ok(r)
    }

    fn read_envelope_info(&self, query: &ReadQuery) -> (r: KernelResult<JsonValue>)
        requires
            self.wf(),
        ensures
            answers_envelope_info(*self, *query, r),
    {
        proof {
            reveal(answers_envelope_info);
        }
        let actor_id = match &query.actor_id {
            Some(a) => a,
            None => {
                return Err(
                    KernelError::InvalidRequest(
                        String::from_str("actor_id is required for envelope_info"),
                    ),
                );
            },
        };
        match self.envelope_store.get_active_for_actor(actor_id.as_str()) {
            Ok(Some(record)) => Ok(record.to_json()),
            Ok(None) => {
                let es = vec![
                    crate::json::entry("actor_id", crate::json::json_str(actor_id.as_str())),
                    crate::json::entry("envelope", JsonValue::Null),
                ];
                let r = crate::json::json_object(es);
                proof {
                    assert(Seq::new(es@.len(), |i: int| (es@[i].0@, es@[i].1@)) =~= seq![
                        ("actor_id"@, crate::json::JsonView::String(actor_id@)),
                        ("envelope"@, crate::json::JsonView::Null),
                    ]);
                }
                Ok(r)
            },
            Err(e) => Err(e),
        }
    }

    fn read_actor_info(&self, query: &ReadQuery) -> (r: KernelResult<JsonValue>)
        requires
            self.wf(),
        ensures
            answers_actor_info(*self, *query, r),
    {
        proof {
            reveal(answers_actor_info);
        }
        let actor_id = match &query.actor_id {
            Some(a) => a,
            None => {
                return Err(
                    KernelError::InvalidRequest(
                        String::from_str("actor_id is required for actor_info"),
                    ),
                );
            },
        };
        match self.actor_store.get(actor_id.as_str()) {
            Ok(Some(record)) => Ok(record.to_json()),
            Ok(None) => Err(KernelError::ActorNotFound(actor_id.clone())),
            Err(e) => Err(e),
        }
    }

    fn read_hold_info(&self, query: &ReadQuery) -> (r: KernelResult<JsonValue>)
        requires
            self.wf(),
        ensures
            answers_hold_info(*self, *query, r),
    {
        proof {
            reveal(answers_hold_info);
        }
        let hold_id = match &query.hold_id {
            Some(h) => h,
            None => {
                return Err(
                    KernelError::InvalidRequest(String::from_str("hold_id is required for hold_info")),
                );
            },
        };
        match self.envelope_store.get_hold_request(hold_id.as_str()) {
            Ok(Some(record)) => Ok(record.to_json()),
            Ok(None) => {
                let mut d = String::new();
                crate::text::push_str(&mut d, "hold_request not found: ");
                crate::text::push_str(&mut d, hold_id.as_str());
                Err(KernelError::InvalidRequest(d))
            },
            Err(e) => Err(e),
        }
    }

    fn read_holds_pending(&self, query: &ReadQuery) -> (r: KernelResult<JsonValue>)
        requires
            self.wf(),
        ensures
            answers_holds_pending(*self, *query, r),
    {
        proof {
            reveal(answers_holds_pending);
        }
        let agent: Option<&str> = match &query.actor_id {
            Some(a) => Some(a.as_str()),
            None => None,
        };
        let holds = match self.envelope_store.list_pending_holds(agent) {
            Ok(h) => h,
            Err(e) => {
                return Err(e);
            },
        };
        let ghost hv = holds@.map_values(|j: JsonValue| j@);
        let arr = JsonValue::Array(holds);
        proof {
            crate::json::lemma_items_view_len(arr->Array_0@, hv.len());
            assert(crate::json::items_view(arr->Array_0@, hv.len()) =~= hv);
        }
        let es = vec![crate::json::entry("holds", arr)];
        let r = crate::json::json_object(es);
        proof {
            assert(Seq::new(es@.len(), |i: int| (es@[i].0@, es@[i].1@)) =~= seq![
                ("holds"@, crate::json::JsonView::Array(hv)),
            ]);
        }
        Ok(r)
    }

    /// Answers a read query from the kernel's state: `health`,
    /// `actor_energy`, `events`, `stats`, `envelope_info`, `actor_info`,
    /// `hold_info`, `holds_pending`.  The audit-tree, path and stellar
    /// queries are answered by the host, which holds what they read.
    #[verifier::rlimit(40)]
    #[verifier::spinoff_prover]
    pub fn read_query(&self, query: &ReadQuery) -> (r: KernelResult<JsonValue>)
        requires
            self.wf(),
        ensures
            query.kind@ == "health"@ ==> answers_health(*self, *query, r),
            query.kind@ == "actor_energy"@ ==> answers_actor_energy(*self, *query, r),
            query.kind@ == "events"@ ==> answers_events(*self, *query, r),
            query.kind@ == "stats"@ ==> answers_stats(*self, *query, r),
            query.kind@ == "envelope_info"@ ==> answers_envelope_info(*self, *query, r),
            query.kind@ == "actor_info"@ ==> answers_actor_info(*self, *query, r),
            query.kind@ == "hold_info"@ ==> answers_hold_info(*self, *query, r),
            query.kind@ == "holds_pending"@ ==> answers_holds_pending(*self, *query, r),
            !(query.kind@ == "health"@ || query.kind@ == "actor_energy"@ || query.kind@ == "events"@
                || query.kind@ == "stats"@ || query.kind@ == "actor_info"@ || query.kind@
                == "envelope_info"@ || query.kind@ == "hold_info"@ || query.kind@ == "holds_pending"@)
                ==> (r matches Err(KernelError::InvalidRequest(d)) && d@
                == "unsupported read query kind: "@ + query.kind@),
    {
        let requester: &str = match &query.requester_id {
            Some(r) => r.as_str(),
            None => "anonymous",
        };
        match crate::policy::check_read_access(requester, query.kind.as_str()) {
            Ok(()) => {},
            Err(e) => {
                return Err(e);
            },
        }
        let kind = query.kind.as_str();
        proof {
            reveal_strlit("health");
            reveal_strlit("actor_energy");
            reveal_strlit("events");
            reveal_strlit("stats");
            reveal_strlit("actor_info");
            reveal_strlit("envelope_info");
            reveal_strlit("hold_info");
            reveal_strlit("holds_pending");
            assert("health"@.len() == 6 && "events"@.len() == 6 && "stats"@.len() == 5);
            assert("actor_energy"@.len() == 12 && "actor_info"@.len() == 10 && "hold_info"@.len() == 9);
            assert("envelope_info"@.len() == 13 && "holds_pending"@.len() == 13);
            assert("events"@[0] != "health"@[0]);
            assert("holds_pending"@[0] != "envelope_info"@[0]);
        }
        if str_eq(kind, "health") {
            self.read_health(query)
        } else if str_eq(kind, "actor_energy") {
            self.read_actor_energy(query)
        } else if str_eq(kind, "events") {
            self.read_events(query)
        } else if str_eq(kind, "stats") {
            self.read_stats(query)
        } else if str_eq(kind, "envelope_info") {
            self.read_envelope_info(query)
        } else if str_eq(kind, "actor_info") {
            self.read_actor_info(query)
        } else if str_eq(kind, "hold_info") {
            self.read_hold_info(query)
        } else if str_eq(kind, "holds_pending") {
            self.read_holds_pending(query)
        } else {
            let mut d = String::new();
            crate::text::push_str(&mut d, "unsupported read query kind: ");
            crate::text::push_str(&mut d, kind);
            Err(KernelError::InvalidRequest(d))
        }
    }
}

/// A request whose payload has been read into the form its type expects.
#[derive(Debug)]
pub enum Request {
    Quote(Action),
    Submit(Action),
    Read(ReadQuery),
}

/// Whether a response carries a result under the request id: `ok` with the
/// payload, or `error` with the error's structured payload.
pub open spec fn responds(resp: ResponseEnvelope, id: String, r: KernelResult<JsonValue>) -> bool {
    &&& resp.request_id == id
    &&& match r {
        Ok(p) => resp.status@ == "ok"@ && resp.payload@ == p@,
        Err(e) => resp.status@ == "error"@ && resp.payload@ == e.spec_payload(),
    }
}

/// What a quote answers.
pub open spec fn quote_outcome(action: Action, r: KernelResult<JsonValue>) -> bool {
    &&& (r is Ok <==> (!crate::policy::is_blank(action.actor_id@) && !crate::policy::is_blank(
        action.target@,
    )))
    &&& (r matches Ok(v) ==> v@ == crate::json::JsonView::Object(
        seq![("cost"@, crate::json::JsonView::Number(crate::json::JsonNumberView::PosInt(crate::action::cost_of(action) as u64)))],
    ))
    &&& (crate::policy::is_blank(action.actor_id@) ==> (r matches Err(KernelError::PolicyViolation(d))
        && d@ == "actor_id cannot be empty"@))
    &&& (!crate::policy::is_blank(action.actor_id@) && crate::policy::is_blank(action.target@) ==> (
    r matches Err(KernelError::PolicyViolation(d)) && d@ == "target cannot be empty"@))
}

/// What a read query answers (see [`Kernel::read_query`]).
pub open spec fn read_outcome(k: Kernel, query: ReadQuery, r: KernelResult<JsonValue>) -> bool {
    &&& (query.kind@ == "health"@ ==> answers_health(k, query, r))
    &&& (query.kind@ == "actor_energy"@ ==> answers_actor_energy(k, query, r))
    &&& (query.kind@ == "events"@ ==> answers_events(k, query, r))
    &&& (query.kind@ == "stats"@ ==> answers_stats(k, query, r))
    &&& (query.kind@ == "envelope_info"@ ==> answers_envelope_info(k, query, r))
    &&& (query.kind@ == "actor_info"@ ==> answers_actor_info(k, query, r))
    &&& (query.kind@ == "hold_info"@ ==> answers_hold_info(k, query, r))
    &&& (query.kind@ == "holds_pending"@ ==> answers_holds_pending(k, query, r))
    &&& (!(query.kind@ == "health"@ || query.kind@ == "actor_energy"@ || query.kind@ == "events"@
        || query.kind@ == "stats"@ || query.kind@ == "actor_info"@ || query.kind@
        == "envelope_info"@ || query.kind@ == "hold_info"@ || query.kind@ == "holds_pending"@) ==> (
    r matches Err(KernelError::InvalidRequest(d)) && d@ == "unsupported read query kind: "@
        + query.kind@))
}

/// What a submission does (see [`Kernel::submit_action`]): the log only
/// grows, a receipt describes the events it names, a plain submission
/// charges its actor exactly the quoted cost and appends one event, and the
/// early rejections leave everything as it was.
pub open spec fn submit_outcome(
    old_k: Kernel,
    new_k: Kernel,
    action: Action,
    r: KernelResult<SubmitReceipt>,
) -> bool {
    &&& extends(old_k.events(), new_k.events())
    &&& (r matches Ok(rc) ==> receipt_matches(rc, new_k.events()))
    &&& (plain_submission(old_k, action) ==> (r matches Ok(rc) ==> rc.settled_cost
        == crate::action::cost_of(action) && rc.reserved_cost == rc.settled_cost && charged(
        old_k.ledger(),
        new_k.ledger(),
        action.actor_id@,
        rc.settled_cost as int,
    ) && new_k.events().len() == old_k.events().len() + 1))
    &&& (crate::policy::is_blank(action.actor_id@) ==> (r matches Err(
        KernelError::PolicyViolation(d),
    ) && d@ == "actor_id cannot be empty"@ && unchanged(old_k, new_k)))
    &&& (!crate::policy::is_blank(action.actor_id@) && crate::policy::is_blank(action.target@) ==> (
    r matches Err(KernelError::PolicyViolation(d)) && d@ == "target cannot be empty"@ && unchanged(
        old_k,
        new_k,
    )))
    &&& (!crate::policy::is_blank(action.actor_id@) && !crate::policy::is_blank(action.target@)
        && !has_actor(old_k.actors(), action.actor_id@) ==> (r matches Err(
        KernelError::ActorNotFound(d),
    ) && d@ == action.actor_id@ && unchanged(old_k, new_k)))
}

impl Kernel {
    fn dispatch<F: Fn(i64) -> i64>(&mut self, request: Request, commitment: &F) -> (r: KernelResult<
        JsonValue,
    >)
        requires
            old(self).wf(),
            forall|c: i64| c > 0 ==> commitment.requires((c,)),
        ensures
            final(self).wf(),
            match request {
                Request::Quote(a) => unchanged(*old(self), *final(self)) && quote_outcome(a, r),
                Request::Read(q) => unchanged(*old(self), *final(self)) && read_outcome(
                    *old(self),
                    q,
                    r,
                ),
                Request::Submit(a) => exists|rs: KernelResult<SubmitReceipt>|
                    #[trigger] submit_outcome(*old(self), *final(self), a, rs) && match rs {
                        Ok(rc) => r matches Ok(v) && v@ == rc.spec_json(),
                        Err(e) => r == Err::<JsonValue, KernelError>(e),
                    },
            },
    {
        match request {
            Request::Quote(action) => Kernel::quote(&action),
            Request::Submit(action) => {
                let ghost a = action;
                let res = self.submit_action(action, commitment);
                proof {
                    assert(submit_outcome(*old(self), *self, a, res));
                }
                match res {
                    Ok(rc) => Ok(rc.to_json()),
                    Err(e) => Err(e),
                }
            },
            Request::Read(query) => self.read_query(&query),
        }
    }

    /// Handles a request: dispatches it to quote, submit or read and wraps
    /// the result in a response under the request's id.  The audit-tree,
    /// path and stellar reads are answered by the host before it comes here.
    pub fn handle_request<F: Fn(i64) -> i64>(
        &mut self,
        request_id: String,
        request: Request,
        commitment: &F,
    ) -> (resp: ResponseEnvelope)
        requires
            old(self).wf(),
            forall|c: i64| c > 0 ==> commitment.requires((c,)),
        ensures
            final(self).wf(),
            exists|res: KernelResult<JsonValue>|
                #[trigger] responds(resp, request_id, res) && match request {
                    Request::Quote(a) => unchanged(*old(self), *final(self)) && quote_outcome(a, res),
                    Request::Read(q) => unchanged(*old(self), *final(self)) && read_outcome(
                        *old(self),
                        q,
                        res,
                    ),
                    Request::Submit(a) => exists|rs: KernelResult<SubmitReceipt>|
                        #[trigger] submit_outcome(*old(self), *final(self), a, rs) && match rs {
                            Ok(rc) => res matches Ok(v) && v@ == rc.spec_json(),
                            Err(e) => res == Err::<JsonValue, KernelError>(e),
                        },
                },
    {
        let ghost rq = request;
        let res = self.dispatch(request, commitment);
        let ghost rv = res;
        let resp = match res {
            Ok(payload) => ResponseEnvelope::ok(request_id, payload),
            Err(e) => ResponseEnvelope::err_structured(request_id, &e),
        };
        proof {
            assert(responds(resp, request_id, rv));
        }
        resp
    }
}

} // verus!







