//! The actor table: records, status, and lineage queries.
use crate::actor::{ActorRecord, ActorStatus, ActorType, CreateActorSpec};
use crate::clock::now_millis_string;
use crate::errors::{KernelError, KernelResult};
use crate::json::JsonNumber;
use crate::policy::{is_blank, is_blank_str};
use crate::text::{contains_text, push_str, starts_with, str_eq};
use vstd::prelude::*;
use vstd::string::*;

verus! {

/// Whether some record has the id.
pub open spec fn has_actor(rows: Seq<ActorRecord>, id: Seq<char>) -> bool {
    exists|i: int| 0 <= i < rows.len() && (#[trigger] rows[i]).actor_id@ == id
}

/// The position of the record with the id (meaningful when it exists).
pub open spec fn actor_index(rows: Seq<ActorRecord>, id: Seq<char>) -> int {
    choose|i: int| 0 <= i < rows.len() && (#[trigger] rows[i]).actor_id@ == id
}

/// Ids are distinct.
pub open spec fn actors_wf(rows: Seq<ActorRecord>) -> bool {
    forall|i: int, j: int|
        0 <= i < rows.len() && 0 <= j < rows.len() && i != j ==> (#[trigger] rows[i]).actor_id@ != (
        #[trigger] rows[j]).actor_id@
}

/// In a table with distinct ids, the record found for an id is the only one with it.
pub proof fn lemma_actor_index(rows: Seq<ActorRecord>, id: Seq<char>, k: int)
    requires
        actors_wf(rows),
        0 <= k < rows.len(),
        rows[k].actor_id@ == id,
    ensures
        has_actor(rows, id),
        actor_index(rows, id) == k,
{
    assert(has_actor(rows, id));
}

/// Every id listed as a descendant belongs to some record.
pub proof fn lemma_descendant_ids_exist(rows: Seq<ActorRecord>, ancestor: Seq<char>)
    ensures
        forall|k: int|
            0 <= k < descendant_ids(rows, ancestor).len() ==> has_actor(
                rows,
                #[trigger] descendant_ids(rows, ancestor)[k],
            ),
    decreases rows.len(),
{
    if rows.len() > 0 {
        let init = rows.drop_last();
        lemma_descendant_ids_exist(init, ancestor);
        let ids = descendant_ids(rows, ancestor);
        assert forall|k: int| 0 <= k < ids.len() implies has_actor(rows, #[trigger] ids[k]) by {
            let rest = descendant_ids(init, ancestor);
            if k < rest.len() {
                assert(ids[k] == rest[k]);
                let p = choose|p: int| 0 <= p < init.len() && (#[trigger] init[p]).actor_id@ == rest[k];
                assert(rows[p] == init[p]);
            } else {
                assert(ids[k] == rows.last().actor_id@);
                assert(rows[rows.len() - 1].actor_id@ == ids[k]);
            }
        }
    }
}

/// Whether the actor with the id exists and is active.
pub open spec fn actor_active(rows: Seq<ActorRecord>, id: Seq<char>) -> bool {
    has_actor(rows, id) && rows[actor_index(rows, id)].status == ActorStatus::Active
}

/// A record with another status (and update time).
pub open spec fn with_status(a: ActorRecord, status: ActorStatus, now: String) -> ActorRecord {
    ActorRecord {
        actor_id: a.actor_id,
        actor_type: a.actor_type,
        creator_id: a.creator_id,
        lineage: a.lineage,
        purpose: a.purpose,
        status,
        writable_targets: a.writable_targets,
        energy_share: a.energy_share,
        reduction_policy: a.reduction_policy,
        created_at: a.created_at,
        updated_at: now,
    }
}

/// A record with another energy share (and update time).
pub open spec fn with_share(a: ActorRecord, share: JsonNumber, now: String) -> ActorRecord {
    ActorRecord {
        actor_id: a.actor_id,
        actor_type: a.actor_type,
        creator_id: a.creator_id,
        lineage: a.lineage,
        purpose: a.purpose,
        status: a.status,
        writable_targets: a.writable_targets,
        energy_share: share,
        reduction_policy: a.reduction_policy,
        created_at: a.created_at,
        updated_at: now,
    }
}

/// Number of ids in `rows` that begin with `prefix`.
pub open spec fn count_prefixed(rows: Seq<ActorRecord>, prefix: Seq<char>) -> nat
    decreases rows.len(),
{
    if rows.len() == 0 {
        0
    } else {
        let last = rows.last().actor_id@;
        let hit: nat = if prefix.len() <= last.len() && last.take(prefix.len() as int) == prefix {
            1
        } else {
            0
        };
        count_prefixed(rows.drop_last(), prefix) + hit
    }
}

/// Whether the record names `parent` as its creator.
pub open spec fn created_by(a: ActorRecord, parent: Seq<char>) -> bool {
    match a.creator_id {
        Some(c) => c@ == parent,
        None => false,
    }
}

/// Ids and shares of the active agents, in order.
pub open spec fn active_shares(rows: Seq<ActorRecord>) -> Seq<(Seq<char>, JsonNumber)>
    decreases rows.len(),
{
    if rows.len() == 0 {
        Seq::empty()
    } else {
        let rest = active_shares(rows.drop_last());
        let a = rows.last();
        if a.status == ActorStatus::Active && a.actor_type == ActorType::Agent {
            rest.push((a.actor_id@, a.energy_share))
        } else {
            rest
        }
    }
}

/// Ids of the records created by `parent`, in order.
pub open spec fn child_ids(rows: Seq<ActorRecord>, parent: Seq<char>) -> Seq<Seq<char>>
    decreases rows.len(),
{
    if rows.len() == 0 {
        Seq::empty()
    } else {
        let rest = child_ids(rows.drop_last(), parent);
        if created_by(rows.last(), parent) {
            rest.push(rows.last().actor_id@)
        } else {
            rest
        }
    }
}

/// Ids of the active records whose lineage lists `ancestor`, in order.
pub open spec fn descendant_ids(rows: Seq<ActorRecord>, ancestor: Seq<char>) -> Seq<Seq<char>>
    decreases rows.len(),
{
    if rows.len() == 0 {
        Seq::empty()
    } else {
        let rest = descendant_ids(rows.drop_last(), ancestor);
        let a = rows.last();
        if a.status == ActorStatus::Active && contains_text(a.lineage@, ancestor) {
            rest.push(a.actor_id@)
        } else {
            rest
        }
    }
}

/// The actor table.
#[derive(Debug)]
pub struct ActorStore {
    actors: Vec<ActorRecord>,
}

impl View for ActorStore {
    type V = Seq<ActorRecord>;

    closed spec fn view(&self) -> Seq<ActorRecord> {
        self.actors@
    }
}

impl ActorStore {
    pub open spec fn wf(&self) -> bool {
        actors_wf(self@)
    }

    /// An empty table.
    pub fn new() -> (s: Self)
        ensures
            s.wf(),
            s@ == Seq::<ActorRecord>::empty(),
    {
        ActorStore { actors: Vec::new() }
    }

    fn find(&self, actor_id: &str) -> (r: Option<usize>)
        requires
            self.wf(),
        ensures
            r is None <==> !has_actor(self@, actor_id@),
            r matches Some(i) ==> i < self@.len() && i == actor_index(self@, actor_id@)
                && self@[i as int].actor_id@ == actor_id@,
    {
        let mut i: usize = 0;
        while i < self.actors.len()
            invariant
                i <= self.actors.len(),
                self.wf(),
                forall|j: int| 0 <= j < i ==> (#[trigger] self@[j]).actor_id@ != actor_id@,
            decreases self.actors.len() - i,
        {
            if str_eq(self.actors[i].actor_id.as_str(), actor_id) {
                proof {
                    assert(has_actor(self@, actor_id@));
                    let k = actor_index(self@, actor_id@);
                    assert(self@[k].actor_id@ == actor_id@);
                }
                return Some(i);
            }
            i = i + 1;
        }
        proof {
            if has_actor(self@, actor_id@) {
                let k = actor_index(self@, actor_id@);
                assert(self@[k].actor_id@ == actor_id@);
            }
        }
        None
    }

    /// Looks up an actor by id.
    pub fn get(&self, actor_id: &str) -> (r: KernelResult<Option<&ActorRecord>>)
        requires
            self.wf(),
        ensures
            r matches Ok(o) && (o is None <==> !has_actor(self@, actor_id@)) && (o matches Some(a)
                ==> *a == self@[actor_index(self@, actor_id@)] && a.actor_id@ == actor_id@),
    {
        match self.find(actor_id) {
            None => Ok(None),
            Some(i) => Ok(Some(&self.actors[i])),
        }
    }

    /// Whether the actor exists.
    pub fn actor_exists(&self, actor_id: &str) -> (r: KernelResult<bool>)
        requires
            self.wf(),
        ensures
            r == Ok::<bool, KernelError>(has_actor(self@, actor_id@)),
    {
        Ok(self.find(actor_id).is_some())
    }

    /// Whether the actor exists and is active.
    pub fn is_active(&self, actor_id: &str) -> (r: KernelResult<bool>)
        requires
            self.wf(),
        ensures
            r == Ok::<bool, KernelError>(actor_active(self@, actor_id@)),
    {
        match self.find(actor_id) {
            None => Ok(false),
            Some(i) => Ok(self.actors[i].status == ActorStatus::Active),
        }
    }

    /// Checks an insertion without making it: the error `create_in_tx` would give.
    pub fn check_create(&self, actor_id: &str) -> (r: KernelResult<()>)
        requires
            self.wf(),
        ensures
            is_blank(actor_id@) ==> (r matches Err(KernelError::PolicyViolation(d))
                && d@ == "actor_id cannot be empty"@),
            !is_blank(actor_id@) && has_actor(self@, actor_id@) ==> (r matches Err(
                KernelError::PolicyViolation(d),
            ) && d@ == "actor already exists: "@ + actor_id@),
            r is Ok <==> (!is_blank(actor_id@) && !has_actor(self@, actor_id@)),
    {
        if is_blank_str(actor_id) {
            return Err(KernelError::PolicyViolation(String::from_str("actor_id cannot be empty")));
        }
        if self.find(actor_id).is_some() {
            let mut d = String::new();
            push_str(&mut d, "actor already exists: ");
            push_str(&mut d, actor_id);
            return Err(KernelError::PolicyViolation(d));
        }
        Ok(())
    }

    /// Inserts a new, active actor.
    pub fn create_in_tx(&mut self, spec: CreateActorSpec) -> (r: KernelResult<()>)
        requires
            old(self).wf(),
        ensures
            final(self).wf(),
            is_blank(spec.actor_id@) ==> (r matches Err(KernelError::PolicyViolation(d))
                && d@ == "actor_id cannot be empty"@),
            !is_blank(spec.actor_id@) && has_actor(old(self)@, spec.actor_id@) ==> (r matches Err(
                KernelError::PolicyViolation(d),
            ) && d@ == "actor already exists: "@ + spec.actor_id@),
            r is Ok <==> (!is_blank(spec.actor_id@) && !has_actor(old(self)@, spec.actor_id@)),
            r is Err ==> final(self)@ == old(self)@,
            r is Ok ==> final(self)@.len() == old(self)@.len() + 1 && final(self)@.take(
                old(self)@.len() as int,
            ) == old(self)@ && ({
                let a = final(self)@.last();
                &&& a.actor_id == spec.actor_id
                &&& a.actor_type == spec.actor_type
                &&& a.creator_id == Some(spec.creator_id)
                &&& a.lineage == spec.lineage
                &&& a.purpose == spec.purpose
                &&& a.status == ActorStatus::Active
                &&& a.writable_targets == spec.writable_targets
                &&& a.energy_share == spec.energy_share
                &&& a.reduction_policy == spec.reduction_policy
            }),
    {
        match self.check_create(spec.actor_id.as_str()) {
            Ok(()) => {},
            Err(e) => {
                return Err(e);
            },
        }
        let ghost before = self@;
        let now = now_millis_string();
        let created = now.clone();
        let record = ActorRecord {
            actor_id: spec.actor_id,
            actor_type: spec.actor_type,
            creator_id: Some(spec.creator_id),
            lineage: spec.lineage,
            purpose: spec.purpose,
            status: ActorStatus::Active,
            writable_targets: spec.writable_targets,
            energy_share: spec.energy_share,
            reduction_policy: spec.reduction_policy,
            created_at: created,
            updated_at: now,
        };
        self.actors.push(record);
        proof {
            assert(self@.take(before.len() as int) =~= before);
            assert forall|a: int, b: int|
                0 <= a < self@.len() && 0 <= b < self@.len() && a != b implies (
                #[trigger] self@[a]).actor_id@ != (#[trigger] self@[b]).actor_id@ by {
                if a < before.len() && b < before.len() {
                    assert(self@[a] == before[a]);
                    assert(self@[b] == before[b]);
                } else if a < before.len() {
                    assert(self@[a] == before[a]);
                } else {
                    assert(self@[b] == before[b]);
                }
            }
        }
        Ok(())
    }

    /// Changes an actor's status.
    pub fn set_status_in_tx(&mut self, actor_id: &str, status: ActorStatus) -> (r: KernelResult<()>)
        requires
            old(self).wf(),
        ensures
            final(self).wf(),
            !has_actor(old(self)@, actor_id@) ==> (r matches Err(KernelError::ActorNotFound(d))
                && d@ == actor_id@) && final(self)@ == old(self)@,
            has_actor(old(self)@, actor_id@) ==> r is Ok && ({
                let i = actor_index(old(self)@, actor_id@);
                &&& final(self)@.len() == old(self)@.len()
                &&& final(self)@[i] == with_status(old(self)@[i], status, final(self)@[i].updated_at)
                &&& forall|j: int|
                    0 <= j < old(self)@.len() && j != i ==> #[trigger] final(self)@[j] == old(
                        self,
                    )@[j]
            }),
    {
        let i = match self.find(actor_id) {
            None => {
                return Err(KernelError::ActorNotFound(String::from_str(actor_id)));
            },
            Some(i) => i,
        };
        let ghost before = self@;
        let mut a = self.actors.remove(i);
        a.status = status;
        a.updated_at = now_millis_string();
        self.actors.insert(i, a);
        proof {
            assert forall|x: int, y: int|
                0 <= x < self@.len() && 0 <= y < self@.len() && x != y implies (
                #[trigger] self@[x]).actor_id@ != (#[trigger] self@[y]).actor_id@ by {
                assert(self@[x].actor_id == before[x].actor_id);
                assert(self@[y].actor_id == before[y].actor_id);
            }
        }
        Ok(())
    }

    /// Changes an actor's energy share.
    pub fn set_energy_share_in_tx(&mut self, actor_id: &str, share: JsonNumber) -> (r: KernelResult<
        (),
    >)
        requires
            old(self).wf(),
        ensures
            final(self).wf(),
            !has_actor(old(self)@, actor_id@) ==> (r matches Err(KernelError::ActorNotFound(d))
                && d@ == actor_id@) && final(self)@ == old(self)@,
            has_actor(old(self)@, actor_id@) ==> r is Ok && ({
                let i = actor_index(old(self)@, actor_id@);
                &&& final(self)@.len() == old(self)@.len()
                &&& final(self)@[i] == with_share(old(self)@[i], share, final(self)@[i].updated_at)
                &&& forall|j: int|
                    0 <= j < old(self)@.len() && j != i ==> #[trigger] final(self)@[j] == old(
                        self,
                    )@[j]
            }),
    {
        let i = match self.find(actor_id) {
            None => {
                return Err(KernelError::ActorNotFound(String::from_str(actor_id)));
            },
            Some(i) => i,
        };
        let ghost before = self@;
        let mut a = self.actors.remove(i);
        a.energy_share = share;
        a.updated_at = now_millis_string();
        self.actors.insert(i, a);
        proof {
            assert forall|x: int, y: int|
                0 <= x < self@.len() && 0 <= y < self@.len() && x != y implies (
                #[trigger] self@[x]).actor_id@ != (#[trigger] self@[y]).actor_id@ by {
                assert(self@[x].actor_id == before[x].actor_id);
                assert(self@[y].actor_id == before[y].actor_id);
            }
        }
        Ok(())
    }

    /// The next sequence number for agents derived from `creator_id` and
    /// `purpose`: one more than the number of ids under `creator_id/purpose/`.
    pub fn next_sequence(&self, creator_id: &str, purpose: &str) -> (r: KernelResult<i64>)
        requires
            self@.len() < i64::MAX,
        ensures
            r matches Ok(n) && n == count_prefixed(self@, creator_id@ + "/"@ + purpose@ + "/"@) + 1,
    {
        let mut prefix = String::new();
        push_str(&mut prefix, creator_id);
        push_str(&mut prefix, "/");
        push_str(&mut prefix, purpose);
        push_str(&mut prefix, "/");
        let ghost p = prefix@;
        let mut count: i64 = 0;
        let mut i: usize = 0;
        while i < self.actors.len()
            invariant
                i <= self.actors.len(),
                self@.len() < i64::MAX,
                prefix@ == p,
                count == count_prefixed(self@.take(i as int), p),
                count <= i,
            decreases self.actors.len() - i,
        {
            proof {
                assert(self@.take(i + 1).drop_last() =~= self@.take(i as int));
            }
            if starts_with(self.actors[i].actor_id.as_str(), prefix.as_str()) {
                count = count + 1;
            }
            i = i + 1;
        }
        proof {
            assert(self@.take(self@.len() as int) =~= self@);
        }
        Ok(count + 1)
    }

    /// Ids and energy shares of all active agents (humans take no part in
    /// energy production), in table order.  Which shares count as positive is
    /// decided by whoever reads them as numbers.
    pub fn list_active_with_shares(&self) -> (r: KernelResult<Vec<(String, JsonNumber)>>)
        ensures
            r matches Ok(v) && v@.map_values(|p: (String, JsonNumber)| (p.0@, p.1)) == active_shares(
                self@,
            ),
    {
        let mut out: Vec<(String, JsonNumber)> = Vec::new();
        let mut i: usize = 0;
        while i < self.actors.len()
            invariant
                i <= self.actors.len(),
                out@.map_values(|p: (String, JsonNumber)| (p.0@, p.1)) == active_shares(
                    self@.take(i as int),
                ),
            decreases self.actors.len() - i,
        {
            proof {
                assert(self@.take(i + 1).drop_last() =~= self@.take(i as int));
            }
            let a = &self.actors[i];
            if a.status == ActorStatus::Active && a.actor_type == ActorType::Agent {
                let share = match &a.energy_share {
                    JsonNumber::PosInt(u) => JsonNumber::PosInt(*u),
                    JsonNumber::NegInt(n) => JsonNumber::NegInt(*n),
                    JsonNumber::Float(t) => JsonNumber::Float(t.clone()),
                };
                let ghost before = out@.map_values(|p: (String, JsonNumber)| (p.0@, p.1));
                out.push((a.actor_id.clone(), share));
                proof {
                    assert(out@.map_values(|p: (String, JsonNumber)| (p.0@, p.1)) =~= before.push(
                        (self@[i as int].actor_id@, self@[i as int].energy_share),
                    ));
                }
            }
            i = i + 1;
        }
        proof {
            assert(self@.take(self@.len() as int) =~= self@);
        }
        Ok(out)
    }

    /// Ids of the actors created by `parent_id`, in table order.
    pub fn list_children(&self, parent_id: &str) -> (r: KernelResult<Vec<String>>)
        ensures
            r matches Ok(v) && v@.map_values(|s: String| s@) == child_ids(self@, parent_id@),
    {
        let mut out: Vec<String> = Vec::new();
        let mut i: usize = 0;
        while i < self.actors.len()
            invariant
                i <= self.actors.len(),
                out@.map_values(|s: String| s@) == child_ids(self@.take(i as int), parent_id@),
            decreases self.actors.len() - i,
        {
            proof {
                assert(self@.take(i + 1).drop_last() =~= self@.take(i as int));
            }
            let a = &self.actors[i];
            let is_child = match &a.creator_id {
                Some(c) => str_eq(c.as_str(), parent_id),
                None => false,
            };
            if is_child {
                let ghost before = out@.map_values(|s: String| s@);
                out.push(a.actor_id.clone());
                proof {
                    assert(out@.map_values(|s: String| s@) =~= before.push(self@[i as int].actor_id@));
                }
            }
            i = i + 1;
        }
        proof {
            assert(self@.take(self@.len() as int) =~= self@);
        }
        Ok(out)
    }

    /// Ids of the active actors whose lineage lists `ancestor_id`, in table order.
    pub fn list_descendants(&self, ancestor_id: &str) -> (r: KernelResult<Vec<String>>)
        ensures
            r matches Ok(v) && v@.map_values(|s: String| s@) == descendant_ids(self@, ancestor_id@),
    {
        let mut out: Vec<String> = Vec::new();
        let mut i: usize = 0;
        while i < self.actors.len()
            invariant
                i <= self.actors.len(),
                out@.map_values(|s: String| s@) == descendant_ids(
                    self@.take(i as int),
                    ancestor_id@,
                ),
            decreases self.actors.len() - i,
        {
            proof {
                assert(self@.take(i + 1).drop_last() =~= self@.take(i as int));
            }
            let a = &self.actors[i];
            let listed = crate::text::contains_str(a.lineage.as_slice(), ancestor_id);
            if a.status == ActorStatus::Active && listed {
                let ghost before = out@.map_values(|s: String| s@);
                out.push(a.actor_id.clone());
                proof {
                    assert(out@.map_values(|s: String| s@) =~= before.push(self@[i as int].actor_id@));
                }
            }
            i = i + 1;
        }
        proof {
            assert(self@.take(self@.len() as int) =~= self@);
        }
        Ok(out)
    }
}

} // verus!
