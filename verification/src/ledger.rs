//! Energy ledger: per-actor balance and reserved energy, with reserve/settle.
use crate::errors::{KernelError, KernelResult};
use crate::text::{int_text, push_i64, push_str, str_eq};
use vstd::prelude::*;
use vstd::string::*;

verus! {

/// A reservation handed out by [`EnergyLedger::reserve`].
#[derive(Debug, Clone)]
pub struct EnergyReservation {
    pub actor_id: String,
    pub reserved: i64,
}

/// One account of the ledger.
#[derive(Debug, Clone)]
pub struct LedgerEntry {
    pub actor_id: String,
    pub energy_balance: i64,
    pub reserved_energy: i64,
}

/// The abstract form of an account: actor id, balance, reserved energy.
pub type Account = (Seq<char>, int, int);

/// The energy ledger: one account per actor.
#[derive(Debug, Clone)]
pub struct EnergyLedger {
    entries: Vec<LedgerEntry>,
}

/// Whether some account belongs to `id`.
pub open spec fn has_account(rows: Seq<Account>, id: Seq<char>) -> bool {
    exists|i: int| 0 <= i < rows.len() && (#[trigger] rows[i]).0 == id
}

/// The position of the account of `id` (meaningful when it exists).
pub open spec fn account_index(rows: Seq<Account>, id: Seq<char>) -> int {
    choose|i: int| 0 <= i < rows.len() && (#[trigger] rows[i]).0 == id
}

/// Well-formed accounts: ids are distinct and `0 <= reserved <= balance`.
pub open spec fn accounts_wf(rows: Seq<Account>) -> bool {
    &&& forall|i: int, j: int|
        0 <= i < rows.len() && 0 <= j < rows.len() && i != j ==> (#[trigger] rows[i]).0 != (
        #[trigger] rows[j]).0
    &&& forall|i: int|
        0 <= i < rows.len() ==> 0 <= (#[trigger] rows[i]).2 && rows[i].2 <= rows[i].1
}

/// The account of `id` with `cost` more reserved.
pub open spec fn after_reserve(rows: Seq<Account>, id: Seq<char>, cost: int) -> Seq<Account> {
    let i = account_index(rows, id);
    rows.update(i, (id, rows[i].1, rows[i].2 + cost))
}

/// The account of `id` after settling: `actual` leaves the balance and
/// `reserved_cost` leaves the reservation.
pub open spec fn after_settle(rows: Seq<Account>, id: Seq<char>, reserved_cost: int, actual: int) -> Seq<
    Account,
> {
    let i = account_index(rows, id);
    rows.update(i, (id, rows[i].1 - actual, rows[i].2 - reserved_cost))
}

/// The account of `id` with `amount` more energy.
pub open spec fn after_credit(rows: Seq<Account>, id: Seq<char>, amount: int) -> Seq<Account> {
    let i = account_index(rows, id);
    rows.update(i, (id, rows[i].1 + amount, rows[i].2))
}

/// Balance of `id` (0 when it has no account).
pub open spec fn balance_of(rows: Seq<Account>, id: Seq<char>) -> int {
    if has_account(rows, id) {
        rows[account_index(rows, id)].1
    } else {
        0
    }
}

/// Reserved energy of `id` (0 when it has no account).
pub open spec fn reserved_of(rows: Seq<Account>, id: Seq<char>) -> int {
    if has_account(rows, id) {
        rows[account_index(rows, id)].2
    } else {
        0
    }
}

/// Sum of the balances of all accounts.
pub open spec fn total_balance(rows: Seq<Account>) -> int
    decreases rows.len(),
{
    if rows.len() == 0 {
        0
    } else {
        total_balance(rows.drop_last()) + rows.last().1
    }
}

/// Changing one account changes the total by the difference of its balances.
pub proof fn lemma_total_balance_update(rows: Seq<Account>, i: int, x: Account)
    requires
        0 <= i < rows.len(),
    ensures
        total_balance(rows.update(i, x)) == total_balance(rows) - rows[i].1 + x.1,
    decreases rows.len(),
{
    let u = rows.update(i, x);
    if i == rows.len() - 1 {
        assert(u.drop_last() =~= rows.drop_last());
    } else {
        assert(u.drop_last() =~= rows.drop_last().update(i, x));
        lemma_total_balance_update(rows.drop_last(), i, x);
    }
}

/// With no negative balance, each balance is at most the total, and the
/// total is not negative.
pub proof fn lemma_balance_le_total(rows: Seq<Account>, i: int)
    requires
        forall|k: int| 0 <= k < rows.len() ==> 0 <= (#[trigger] rows[k]).1,
        0 <= i <= rows.len(),
    ensures
        0 <= total_balance(rows),
        i < rows.len() ==> rows[i].1 <= total_balance(rows),
    decreases rows.len(),
{
    if rows.len() > 0 {
        let d = rows.drop_last();
        assert forall|k: int| 0 <= k < d.len() implies 0 <= (#[trigger] d[k]).1 by {
            assert(d[k] == rows[k]);
        }
        if i < rows.len() - 1 {
            lemma_balance_le_total(d, i);
        } else {
            lemma_balance_le_total(d, 0);
        }
    }
}

/// With no negative balance, a prefix of the accounts holds at most the total.
pub proof fn lemma_total_balance_prefix(rows: Seq<Account>, k: int)
    requires
        forall|j: int| 0 <= j < rows.len() ==> 0 <= (#[trigger] rows[j]).1,
        0 <= k <= rows.len(),
    ensures
        total_balance(rows.take(k)) <= total_balance(rows),
    decreases rows.len() - k,
{
    if k < rows.len() {
        assert(rows.take(k + 1).drop_last() =~= rows.take(k));
        assert(rows.take(k + 1).last() == rows[k]);
        lemma_total_balance_prefix(rows, k + 1);
    } else {
        assert(rows.take(k) =~= rows);
    }
}

/// In well-formed accounts, the account found for an id is the only one with it.
pub proof fn lemma_account_index(rows: Seq<Account>, id: Seq<char>, k: int)
    requires
        accounts_wf(rows),
        0 <= k < rows.len(),
        rows[k].0 == id,
    ensures
        has_account(rows, id),
        account_index(rows, id) == k,
{
    assert(has_account(rows, id));
}

impl View for EnergyLedger {
    type V = Seq<Account>;

    closed spec fn view(&self) -> Seq<Account> {
        self.entries@.map_values(
            |e: LedgerEntry| (e.actor_id@, e.energy_balance as int, e.reserved_energy as int),
        )
    }
}

impl EnergyLedger {
    /// The ledger's invariant.
    pub open spec fn wf(&self) -> bool {
        accounts_wf(self@)
    }

    /// An empty ledger.
    pub fn new() -> (l: Self)
        ensures
            l.wf(),
            l@ == Seq::<Account>::empty(),
    {
        let l = EnergyLedger { entries: Vec::new() };
        assert(l@ =~= Seq::<Account>::empty());
        l
    }

    /// Position of the account of `actor_id`.
    fn find(&self, actor_id: &str) -> (r: Option<usize>)
        requires
            self.wf(),
        ensures
            r is None <==> !has_account(self@, actor_id@),
            r matches Some(i) ==> i < self@.len() && i == account_index(self@, actor_id@)
                && self@[i as int].0 == actor_id@,
    {
        let mut i: usize = 0;
        while i < self.entries.len()
            invariant
                i <= self.entries.len(),
                self.wf(),
                forall|j: int| 0 <= j < i ==> (#[trigger] self@[j]).0 != actor_id@,
            decreases self.entries.len() - i,
        {
            if str_eq(self.entries[i].actor_id.as_str(), actor_id) {
                proof {
                    assert(self@[i as int].0 == actor_id@);
                    lemma_account_index(self@, actor_id@, i as int);
                }
                return Some(i);
            }
            proof {
                assert(self@[i as int].0 != actor_id@);
            }
            i = i + 1;
        }
        proof {
            if has_account(self@, actor_id@) {
                let k = account_index(self@, actor_id@);
                assert(self@[k].0 == actor_id@);
            }
        }
        None
    }

    /// The sum of all balances, when it fits in an `i64`.
    pub fn total_balance_checked(&self) -> (r: Option<i64>)
        requires
            self.wf(),
        ensures
            r matches Some(t) ==> t == total_balance(self@),
            r is None ==> total_balance(self@) > i64::MAX,
    {
        let ghost rows = self@;
        proof {
            assert forall|k: int| 0 <= k < rows.len() implies 0 <= (#[trigger] rows[k]).1 by {
                assert(0 <= rows[k].2 <= rows[k].1);
            }
            assert(rows.take(0) =~= Seq::<Account>::empty());
        }
        let mut total: i64 = 0;
        let mut i: usize = 0;
        while i < self.entries.len()
            invariant
                rows == self@,
                rows.len() == self.entries@.len(),
                forall|k: int| 0 <= k < rows.len() ==> 0 <= (#[trigger] rows[k]).1,
                i <= rows.len(),
                total == total_balance(rows.take(i as int)),
            decreases rows.len() - i,
        {
            proof {
                assert(rows.take(i as int + 1).drop_last() =~= rows.take(i as int));
                assert(rows[i as int].1 == self.entries@[i as int].energy_balance);
            }
            let b = self.entries[i].energy_balance;
            match total.checked_add(b) {
                Some(t) => {
                    total = t;
                },
                None => {
                    proof {
                        lemma_total_balance_prefix(rows, i as int + 1);
                    }
                    return None;
                },
            }
            i = i + 1;
        }
        proof {
            assert(rows.take(i as int) =~= rows);
        }
        Some(total)
    }

    /// Balance and reserved energy of an actor.
    pub fn balance_view(&self, actor_id: &str) -> (r: KernelResult<(i64, i64)>)
        requires
            self.wf(),
        ensures
            !has_account(self@, actor_id@) ==> (r matches Err(KernelError::ActorNotFound(d))
                && d@ == actor_id@),
            has_account(self@, actor_id@) ==> (r matches Ok((b, v)) && b == balance_of(
                self@,
                actor_id@,
            ) && v == reserved_of(self@, actor_id@)),
    {
        match self.find(actor_id) {
            None => Err(KernelError::ActorNotFound(String::from_str(actor_id))),
            Some(i) => Ok((self.entries[i].energy_balance, self.entries[i].reserved_energy)),
        }
    }

    /// Checks a reservation without making it: the error `reserve` would give.
    pub fn check_reserve(&self, actor_id: &str, cost: i64) -> (r: KernelResult<()>)
        requires
            self.wf(),
        ensures
            cost <= 0 ==> (r matches Err(KernelError::PolicyViolation(d))
                && d@ == "reserve cost must be positive"@),
            cost > 0 && !has_account(self@, actor_id@) ==> (r matches Err(
                KernelError::ActorNotFound(d),
            ) && d@ == actor_id@),
            cost > 0 && has_account(self@, actor_id@) && balance_of(self@, actor_id@) - reserved_of(
                self@,
                actor_id@,
            ) < cost ==> (r matches Err(
                KernelError::InsufficientEnergy { actor_id: a, required, available },
            ) && a@ == actor_id@ && required == cost && available == balance_of(self@, actor_id@)
                - reserved_of(self@, actor_id@)),
            r is Ok <==> (cost > 0 && has_account(self@, actor_id@) && balance_of(self@, actor_id@)
                - reserved_of(self@, actor_id@) >= cost),
    {
        if cost <= 0 {
            return Err(
                KernelError::PolicyViolation(String::from_str("reserve cost must be positive")),
            );
        }
        let i = match self.find(actor_id) {
            None => {
                return Err(KernelError::ActorNotFound(String::from_str(actor_id)));
            },
            Some(i) => i,
        };
        let balance = self.entries[i].energy_balance;
        let reserved = self.entries[i].reserved_energy;
        proof {
            assert(self@[i as int].1 == balance && self@[i as int].2 == reserved);
        }
        let available = balance - reserved;
        if available < cost {
            return Err(
                KernelError::InsufficientEnergy {
                    actor_id: String::from_str(actor_id),
                    required: cost,
                    available,
                },
            );
        }
        Ok(())
    }

    /// Reserves `cost` units for an actor, against its unreserved balance.
    pub fn reserve(&mut self, actor_id: &str, cost: i64) -> (r: KernelResult<EnergyReservation>)
        requires
            old(self).wf(),
        ensures
            final(self).wf(),
            cost <= 0 ==> (r matches Err(KernelError::PolicyViolation(d))
                && d@ == "reserve cost must be positive"@),
            cost > 0 && !has_account(old(self)@, actor_id@) ==> (r matches Err(
                KernelError::ActorNotFound(d),
            ) && d@ == actor_id@),
            cost > 0 && has_account(old(self)@, actor_id@) && balance_of(old(self)@, actor_id@)
                - reserved_of(old(self)@, actor_id@) < cost ==> (r matches Err(
                KernelError::InsufficientEnergy { actor_id: a, required, available },
            ) && a@ == actor_id@ && required == cost && available == balance_of(
                old(self)@,
                actor_id@,
            ) - reserved_of(old(self)@, actor_id@)),
            r is Ok <==> (cost > 0 && has_account(old(self)@, actor_id@) && balance_of(
                old(self)@,
                actor_id@,
            ) - reserved_of(old(self)@, actor_id@) >= cost),
            r matches Ok(res) ==> res.actor_id@ == actor_id@ && res.reserved == cost
                && final(self)@ == after_reserve(old(self)@, actor_id@, cost as int),
            r is Err ==> final(self)@ == old(self)@,
    {
        match self.check_reserve(actor_id, cost) {
            Ok(()) => {},
            Err(e) => {
                return Err(e);
            },
        }
        let i = match self.find(actor_id) {
            None => {
                return Err(KernelError::ActorNotFound(String::from_str(actor_id)));
            },
            Some(i) => i,
        };
        let balance = self.entries[i].energy_balance;
        let reserved = self.entries[i].reserved_energy;
        proof {
            assert(self@[i as int].1 == balance && self@[i as int].2 == reserved);
        }
        let ghost before = self@;
        let e = LedgerEntry {
            actor_id: String::from_str(actor_id),
            energy_balance: balance,
            reserved_energy: reserved + cost,
        };
        self.entries.set(i, e);
        proof {
            assert(self@ =~= after_reserve(before, actor_id@, cost as int));
            assert forall|a: int, b: int|
                0 <= a < self@.len() && 0 <= b < self@.len() && a != b implies (
                #[trigger] self@[a]).0 != (#[trigger] self@[b]).0 by {
                assert(self@[a].0 == before[a].0);
                assert(self@[b].0 == before[b].0);
            }
        }
        Ok(EnergyReservation { actor_id: String::from_str(actor_id), reserved: cost })
    }

    /// Checks a settlement without making it: the error `settle` would give.
    pub fn check_settle(&self, actor_id: &str, reserved_cost: i64, actual_cost: i64) -> (r: KernelResult<
        (),
    >)
        requires
            self.wf(),
        ensures
            (reserved_cost < 0 || actual_cost < 0) ==> (r matches Err(
                KernelError::PolicyViolation(d),
            ) && d@ == "settle values cannot be negative"@),
            reserved_cost >= 0 && actual_cost >= 0 && !has_account(self@, actor_id@) ==> (
            r matches Err(KernelError::ActorNotFound(d)) && d@ == actor_id@),
            ({
                let bal = balance_of(self@, actor_id@);
                let res = reserved_of(self@, actor_id@);
                let extra = if actual_cost - reserved_cost > 0 {
                    actual_cost - reserved_cost
                } else {
                    0
                };
                &&& reserved_cost >= 0 && actual_cost >= 0 && has_account(self@, actor_id@)
                    && res < reserved_cost ==> (r matches Err(KernelError::PolicyViolation(d))
                    && d@ == "reserved mismatch for actor "@ + actor_id@ + ": reserved_in_ledger="@
                    + int_text(res) + ", reserved_cost="@ + int_text(reserved_cost as int)
                    + ", balance="@ + int_text(bal))
                &&& reserved_cost >= 0 && actual_cost >= 0 && has_account(self@, actor_id@)
                    && res >= reserved_cost && bal - res < extra ==> (r matches Err(
                    KernelError::InsufficientEnergy { actor_id: a, required, available },
                ) && a@ == actor_id@ && required == extra && available == bal - res)
                &&& r is Ok <==> (reserved_cost >= 0 && actual_cost >= 0 && has_account(
                    self@,
                    actor_id@,
                ) && res >= reserved_cost && bal - res >= extra)
            }),
    {
        if reserved_cost < 0 || actual_cost < 0 {
            return Err(
                KernelError::PolicyViolation(String::from_str("settle values cannot be negative")),
            );
        }
        let i = match self.find(actor_id) {
            None => {
                return Err(KernelError::ActorNotFound(String::from_str(actor_id)));
            },
            Some(i) => i,
        };
        let balance = self.entries[i].energy_balance;
        let reserved = self.entries[i].reserved_energy;
        proof {
            assert(self@[i as int].1 == balance && self@[i as int].2 == reserved);
        }
        if reserved < reserved_cost {
            let mut d = String::new();
            push_str(&mut d, "reserved mismatch for actor ");
            push_str(&mut d, actor_id);
            push_str(&mut d, ": reserved_in_ledger=");
            push_i64(&mut d, reserved);
            push_str(&mut d, ", reserved_cost=");
            push_i64(&mut d, reserved_cost);
            push_str(&mut d, ", balance=");
            push_i64(&mut d, balance);
            return Err(KernelError::PolicyViolation(d));
        }
        let extra_needed: i64 = if actual_cost - reserved_cost > 0 {
            actual_cost - reserved_cost
        } else {
            0
        };
        let available_unreserved = balance - reserved;
        if available_unreserved < extra_needed {
            return Err(
                KernelError::InsufficientEnergy {
                    actor_id: String::from_str(actor_id),
                    required: extra_needed,
                    available: available_unreserved,
                },
            );
        }
        Ok(())
    }

    /// Settles a reservation: `actual_cost` leaves the balance and
    /// `reserved_cost` is released from the reservation.
    pub fn settle(&mut self, actor_id: &str, reserved_cost: i64, actual_cost: i64) -> (r: KernelResult<
        (),
    >)
        requires
            old(self).wf(),
        ensures
            final(self).wf(),
            r is Err ==> final(self)@ == old(self)@,
            (reserved_cost < 0 || actual_cost < 0) ==> (r matches Err(
                KernelError::PolicyViolation(d),
            ) && d@ == "settle values cannot be negative"@),
            reserved_cost >= 0 && actual_cost >= 0 && !has_account(old(self)@, actor_id@) ==> (
            r matches Err(KernelError::ActorNotFound(d)) && d@ == actor_id@),
            ({
                let bal = balance_of(old(self)@, actor_id@);
                let res = reserved_of(old(self)@, actor_id@);
                let extra = if actual_cost - reserved_cost > 0 {
                    actual_cost - reserved_cost
                } else {
                    0
                };
                &&& reserved_cost >= 0 && actual_cost >= 0 && has_account(old(self)@, actor_id@)
                    && res < reserved_cost ==> (r matches Err(KernelError::PolicyViolation(d))
                    && d@ == "reserved mismatch for actor "@ + actor_id@ + ": reserved_in_ledger="@
                    + int_text(res) + ", reserved_cost="@ + int_text(reserved_cost as int)
                    + ", balance="@ + int_text(bal))
                &&& reserved_cost >= 0 && actual_cost >= 0 && has_account(old(self)@, actor_id@)
                    && res >= reserved_cost && bal - res < extra ==> (r matches Err(
                    KernelError::InsufficientEnergy { actor_id: a, required, available },
                ) && a@ == actor_id@ && required == extra && available == bal - res)
                &&& r is Ok <==> (reserved_cost >= 0 && actual_cost >= 0 && has_account(
                    old(self)@,
                    actor_id@,
                ) && res >= reserved_cost && bal - res >= extra)
            }),
            r is Ok ==> final(self)@ == after_settle(
                old(self)@,
                actor_id@,
                reserved_cost as int,
                actual_cost as int,
            ),
    {
        match self.check_settle(actor_id, reserved_cost, actual_cost) {
            Ok(()) => {},
            Err(e) => {
                return Err(e);
            },
        }
        let i = match self.find(actor_id) {
            None => {
                return Err(KernelError::ActorNotFound(String::from_str(actor_id)));
            },
            Some(i) => i,
        };
        let balance = self.entries[i].energy_balance;
        let reserved = self.entries[i].reserved_energy;
        proof {
            assert(self@[i as int].1 == balance && self@[i as int].2 == reserved);
        }
        // Here balance - actual_cost >= reserved - reserved_cost >= 0.
        let new_balance = balance - actual_cost;
        let new_reserved = reserved - reserved_cost;
        let ghost before = self@;
        let e = LedgerEntry {
            actor_id: String::from_str(actor_id),
            energy_balance: new_balance,
            reserved_energy: new_reserved,
        };
        self.entries.set(i, e);
        proof {
            assert(self@ =~= after_settle(
                before,
                actor_id@,
                reserved_cost as int,
                actual_cost as int,
            ));
            assert forall|a: int, b: int|
                0 <= a < self@.len() && 0 <= b < self@.len() && a != b implies (
                #[trigger] self@[a]).0 != (#[trigger] self@[b]).0 by {
                assert(self@[a].0 == before[a].0);
                assert(self@[b].0 == before[b].0);
            }
        }
        Ok(())
    }

    /// Adds `amount` units to an actor's balance (energy production).
    pub fn credit_energy_in_tx(&mut self, actor_id: &str, amount: i64) -> (r: KernelResult<()>)
        requires
            old(self).wf(),
            balance_of(old(self)@, actor_id@) + amount <= i64::MAX,
        ensures
            final(self).wf(),
            amount <= 0 ==> (r matches Err(KernelError::PolicyViolation(d))
                && d@ == "credit amount must be positive"@),
            amount > 0 && !has_account(old(self)@, actor_id@) ==> (r matches Err(
                KernelError::ActorNotFound(d),
            ) && d@ == actor_id@),
            r is Ok <==> (amount > 0 && has_account(old(self)@, actor_id@)),
            r is Ok ==> final(self)@ == after_credit(old(self)@, actor_id@, amount as int),
            r is Err ==> final(self)@ == old(self)@,
    {
        if amount <= 0 {
            return Err(
                KernelError::PolicyViolation(String::from_str("credit amount must be positive")),
            );
        }
        let i = match self.find(actor_id) {
            None => {
                return Err(KernelError::ActorNotFound(String::from_str(actor_id)));
            },
            Some(i) => i,
        };
        let ghost before = self@;
        let balance = self.entries[i].energy_balance;
        let reserved = self.entries[i].reserved_energy;
        proof {
            assert(self@[i as int].1 == balance && self@[i as int].2 == reserved);
        }
        let e = LedgerEntry {
            actor_id: String::from_str(actor_id),
            energy_balance: balance + amount,
            reserved_energy: reserved,
        };
        self.entries.set(i, e);
        proof {
            assert(self@ =~= after_credit(before, actor_id@, amount as int));
            assert forall|a: int, b: int|
                0 <= a < self@.len() && 0 <= b < self@.len() && a != b implies (
                #[trigger] self@[a]).0 != (#[trigger] self@[b]).0 by {
                assert(self@[a].0 == before[a].0);
                assert(self@[b].0 == before[b].0);
            }
        }
        Ok(())
    }

    /// Checks an account opening without making it: the error
    /// `create_actor_in_tx` would give.
    pub fn check_create_actor(&self, actor_id: &str, energy_balance: i64) -> (r: KernelResult<()>)
        requires
            self.wf(),
        ensures
            crate::policy::is_blank(actor_id@) ==> (r matches Err(KernelError::PolicyViolation(d))
                && d@ == "seed actor_id cannot be empty"@),
            !crate::policy::is_blank(actor_id@) && energy_balance < 0 ==> (r matches Err(
                KernelError::PolicyViolation(d),
            ) && d@ == "seed energy_balance cannot be negative"@),
            !crate::policy::is_blank(actor_id@) && energy_balance >= 0 && has_account(
                self@,
                actor_id@,
            ) ==> (r matches Err(KernelError::PolicyViolation(d)) && d@ == "actor already exists: "@
                + actor_id@),
            r is Ok <==> (!crate::policy::is_blank(actor_id@) && energy_balance >= 0
                && !has_account(self@, actor_id@)),
    {
        if crate::policy::is_blank_str(actor_id) {
            return Err(
                KernelError::PolicyViolation(String::from_str("seed actor_id cannot be empty")),
            );
        }
        if energy_balance < 0 {
            return Err(
                KernelError::PolicyViolation(
                    String::from_str("seed energy_balance cannot be negative"),
                ),
            );
        }
        if self.find(actor_id).is_some() {
            let mut d = String::new();
            push_str(&mut d, "actor already exists: ");
            push_str(&mut d, actor_id);
            return Err(KernelError::PolicyViolation(d));
        }
        Ok(())
    }

    /// Opens an account for a new actor with a starting balance.
    pub fn create_actor_in_tx(&mut self, actor_id: &str, energy_balance: i64) -> (r: KernelResult<()>)
        requires
            old(self).wf(),
        ensures
            final(self).wf(),
            crate::policy::is_blank(actor_id@) ==> (r matches Err(KernelError::PolicyViolation(d))
                && d@ == "seed actor_id cannot be empty"@),
            !crate::policy::is_blank(actor_id@) && energy_balance < 0 ==> (r matches Err(
                KernelError::PolicyViolation(d),
            ) && d@ == "seed energy_balance cannot be negative"@),
            !crate::policy::is_blank(actor_id@) && energy_balance >= 0 && has_account(
                old(self)@,
                actor_id@,
            ) ==> (r matches Err(KernelError::PolicyViolation(d)) && d@ == "actor already exists: "@
                + actor_id@),
            r is Ok <==> (!crate::policy::is_blank(actor_id@) && energy_balance >= 0
                && !has_account(old(self)@, actor_id@)),
            r is Ok ==> final(self)@ == old(self)@.push((actor_id@, energy_balance as int, 0int)),
            r is Err ==> final(self)@ == old(self)@,
    {
        match self.check_create_actor(actor_id, energy_balance) {
            Ok(()) => {},
            Err(e) => {
                return Err(e);
            },
        }
        let ghost before = self@;
        self.entries.push(
            LedgerEntry {
                actor_id: String::from_str(actor_id),
                energy_balance,
                reserved_energy: 0,
            },
        );
        proof {
            assert(self@ =~= before.push((actor_id@, energy_balance as int, 0int)));
            assert forall|a: int, b: int|
                0 <= a < self@.len() && 0 <= b < self@.len() && a != b implies (
                #[trigger] self@[a]).0 != (#[trigger] self@[b]).0 by {
                if a < before.len() && b < before.len() {
                    assert(self@[a] == before[a]);
                    assert(self@[b] == before[b]);
                } else if a < before.len() {
                    assert(self@[a] == before[a]);
                    assert(before[a].0 != actor_id@);
                } else {
                    assert(self@[b] == before[b]);
                    assert(before[b].0 != actor_id@);
                }
            }
        }
        Ok(())
    }
}

/// Reserving and then settling the same amount takes exactly the actual cost
/// from the balance and leaves the reservation as it was.
pub proof fn law_reserve_then_settle(rows: Seq<Account>, id: Seq<char>, cost: int, actual: int)
    requires
        accounts_wf(rows),
        has_account(rows, id),
        cost > 0,
        balance_of(rows, id) - reserved_of(rows, id) >= cost,
    ensures
        ({
            let settled = after_settle(after_reserve(rows, id, cost), id, cost, actual);
            &&& has_account(settled, id)
            &&& balance_of(settled, id) == balance_of(rows, id) - actual
            &&& reserved_of(settled, id) == reserved_of(rows, id)
            &&& settled.len() == rows.len()
            &&& forall|j: int|
                0 <= j < rows.len() && rows[j].0 != id ==> #[trigger] settled[j] == rows[j]
        }),
{
    let k = account_index(rows, id);
    let r1 = after_reserve(rows, id, cost);
    assert(r1[k].0 == id);
    assert(has_account(r1, id));
    assert forall|a: int, b: int|
        0 <= a < r1.len() && 0 <= b < r1.len() && a != b implies (#[trigger] r1[a]).0 != (
        #[trigger] r1[b]).0 by {
        assert(r1[a].0 == rows[a].0);
        assert(r1[b].0 == rows[b].0);
    }
    assert(account_index(r1, id) == k) by {
        let k2 = account_index(r1, id);
        assert(r1[k2].0 == id);
    }
    let r2 = after_settle(r1, id, cost, actual);
    assert(r2[k].0 == id);
    assert(has_account(r2, id));
    assert forall|a: int, b: int|
        0 <= a < r2.len() && 0 <= b < r2.len() && a != b implies (#[trigger] r2[a]).0 != (
        #[trigger] r2[b]).0 by {
        assert(r2[a].0 == rows[a].0);
        assert(r2[b].0 == rows[b].0);
    }
    assert(account_index(r2, id) == k) by {
        let k2 = account_index(r2, id);
        assert(r2[k2].0 == id);
    }
}

} // verus!
