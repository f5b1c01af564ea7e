//! Energy production: how one tick's energy is split among active actors.
//!
//! Each actor first gets the floor of its proportional part (computed by the
//! caller from the shares); what is left of `energy_per_tick` is then handed
//! out one unit at a time, round-robin from the first actor, so that the
//! credits add up to exactly `energy_per_tick` (energy neutrality: the
//! kernel keeps none).
use crate::errors::{KernelError, KernelResult};
use crate::ledger::{
    Account, EnergyLedger, after_credit, has_account, lemma_balance_le_total,
    lemma_total_balance_update, total_balance,
};
use vstd::prelude::*;
use vstd::string::*;

verus! {

/// Sum of a sequence of integers.
pub open spec fn seq_sum(s: Seq<int>) -> int
    decreases s.len(),
{
    if s.len() == 0 {
        0
    } else {
        seq_sum(s.drop_last()) + s.last()
    }
}

/// The values of a sequence of `i64`, as integers.
pub open spec fn ints(s: Seq<i64>) -> Seq<int> {
    s.map_values(|x: i64| x as int)
}

/// What the round-robin hands position `i` of `n` out of a remainder `rem`:
/// `rem / n` each, and one more for the first `rem % n`; nothing when the
/// remainder is not positive.
pub open spec fn remainder_share(i: int, n: int, rem: int) -> int {
    if rem > 0 && n > 0 {
        rem / n + if i < rem % n {
            1int
        } else {
            0int
        }
    } else {
        0
    }
}

/// The credits after the remainder `energy_per_tick - sum(floors)` has been
/// handed out round-robin.
pub open spec fn with_remainder(floors: Seq<int>, energy_per_tick: int) -> Seq<int> {
    let rem = energy_per_tick - seq_sum(floors);
    Seq::new(floors.len(), |i: int| floors[i] + remainder_share(i, floors.len() as int, rem))
}

/// Whether no value is negative.
pub open spec fn all_nonneg(s: Seq<int>) -> bool {
    forall|i: int| 0 <= i < s.len() ==> 0 <= #[trigger] s[i]
}

/// The sum of a prefix one longer adds the next value.
pub proof fn lemma_sum_take(s: Seq<int>, k: int)
    requires
        0 <= k < s.len(),
    ensures
        seq_sum(s.take(k + 1)) == seq_sum(s.take(k)) + s[k],
{
    assert(s.take(k + 1).drop_last() =~= s.take(k));
}

/// For values that are not negative, a prefix sums to at most the whole, and
/// each value is at most the whole sum.
pub proof fn lemma_sum_bounds(s: Seq<int>, k: int)
    requires
        all_nonneg(s),
        0 <= k <= s.len(),
    ensures
        0 <= seq_sum(s.take(k)) <= seq_sum(s),
        k < s.len() ==> s[k] <= seq_sum(s),
    decreases s.len() - k,
{
    if k == s.len() {
        assert(s.take(k) =~= s);
        lemma_sum_bounds_prefix(s, k);
    } else {
        lemma_sum_take(s, k);
        lemma_sum_bounds(s, k + 1);
        lemma_sum_bounds_prefix(s, k);
    }
}

/// The sum of a prefix of values that are not negative is not negative.
proof fn lemma_sum_bounds_prefix(s: Seq<int>, k: int)
    requires
        all_nonneg(s),
        0 <= k <= s.len(),
    ensures
        0 <= seq_sum(s.take(k)),
    decreases k,
{
    if k > 0 {
        lemma_sum_take(s, k - 1);
        lemma_sum_bounds_prefix(s, k - 1);
    }
}

/// Hands out the remainder of a tick round-robin.
///
/// `floors` holds each actor's floored proportional credit, in the order of
/// the actors; the result holds the final credits, in the same order.
pub fn distribute_remainder(floors: &[i64], energy_per_tick: i64) -> (r: Vec<i64>)
    requires
        all_nonneg(ints(floors@)),
        seq_sum(ints(floors@)) <= i64::MAX,
        energy_per_tick - seq_sum(ints(floors@)) >= i64::MIN,
    ensures
        ints(r@) == with_remainder(ints(floors@), energy_per_tick as int),
{
    let ghost fs = ints(floors@);
    let mut allocations: Vec<i64> = Vec::new();
    let mut allocated_total: i64 = 0;
    let mut i: usize = 0;
    while i < floors.len()
        invariant
            fs == ints(floors@),
            all_nonneg(fs),
            seq_sum(fs) <= i64::MAX,
            i <= floors@.len(),
            allocations@ == floors@.take(i as int),
            allocated_total == seq_sum(fs.take(i as int)),
        decreases floors@.len() - i,
    {
        proof {
            lemma_sum_take(fs, i as int);
            lemma_sum_bounds(fs, i as int + 1);
            assert(fs[i as int] == floors@[i as int]);
        }
        allocations.push(floors[i]);
        allocated_total = allocated_total + floors[i];
        proof {
            assert(allocations@ =~= floors@.take(i as int + 1));
        }
        i = i + 1;
    }
    proof {
        assert(fs.take(i as int) =~= fs);
        assert(allocations@ =~= floors@);
        lemma_sum_bounds(fs, 0);
    }
    let n = allocations.len();
    let mut remainder: i64 = energy_per_tick - allocated_total;
    let ghost rem0: int = remainder as int;
    let ghost mut q: int = 0;
    let mut idx: usize = 0;
    while remainder > 0 && n > 0
        invariant
            fs == ints(floors@),
            all_nonneg(fs),
            seq_sum(fs) <= i64::MAX,
            n == floors@.len(),
            allocations@.len() == n,
            rem0 == energy_per_tick - seq_sum(fs),
            rem0 <= 0 ==> (remainder == rem0 && q == 0 && idx == 0),
            rem0 > 0 ==> 0 <= remainder <= rem0,
            rem0 > 0 ==> q >= 0 && rem0 == q * n + idx + remainder,
            n > 0 ==> idx < n,
            n == 0 ==> idx == 0 && q == 0,
            forall|k: int|
                0 <= k < n ==> #[trigger] allocations@[k] == floors@[k] + q + if k < idx {
                    1int
                } else {
                    0int
                },
        decreases remainder,
    {
        proof {
            lemma_sum_bounds(fs, idx as int);
            assert(fs[idx as int] == floors@[idx as int]);
            assert(q <= q * n) by (nonlinear_arith)
                requires
                    q >= 0,
                    n >= 1,
            ;
        }
        let ghost before = allocations@;
        let v = allocations[idx] + 1;
        allocations.set(idx, v);
        remainder = remainder - 1;
        if idx + 1 == n {
            idx = 0;
            proof {
                q = q + 1;
                assert(q * n == (q - 1) * n + n) by (nonlinear_arith);
            }
        } else {
            idx = idx + 1;
        }
        proof {
            assert forall|k: int| 0 <= k < n implies #[trigger] allocations@[k] == floors@[k] + q
                + if k < idx {
                1int
            } else {
                0int
            } by {
                if k != (if idx == 0 {
                    n - 1
                } else {
                    idx - 1
                }) {
                    assert(allocations@[k] == before[k]);
                }
            }
        }
    }
    proof {
        let target = with_remainder(fs, energy_per_tick as int);
        if rem0 > 0 && n > 0 {
            vstd::arithmetic::div_mod::lemma_fundamental_div_mod_converse(rem0, n as int, q, idx as int);
        }
        assert(ints(allocations@) =~= target);
    }
    allocations
}

/// The credits of a tick add up to `energy_per_tick` when there is at least
/// one actor and the floors do not exceed it: the kernel keeps nothing.
pub proof fn law_energy_neutrality(floors: Seq<int>, energy_per_tick: int)
    requires
        floors.len() > 0,
        seq_sum(floors) <= energy_per_tick,
    ensures
        seq_sum(with_remainder(floors, energy_per_tick)) == energy_per_tick,
{
    let n = floors.len() as int;
    let rem = energy_per_tick - seq_sum(floors);
    let w = with_remainder(floors, energy_per_tick);
    if rem == 0 {
        assert(w =~= floors);
    } else {
        let q = rem / n;
        let r = rem % n;
        lemma_prefix_with_remainder(floors, energy_per_tick, n);
        assert(w.take(n) =~= w);
        assert(floors.take(n) =~= floors);
        vstd::arithmetic::div_mod::lemma_fundamental_div_mod(rem, n);
        assert(n * q == q * n) by (nonlinear_arith);
    }
}

/// Prefix sums of the credits: the floors, plus `rem / n` each, plus one for
/// each of the first `rem % n` positions in the prefix.
proof fn lemma_prefix_with_remainder(floors: Seq<int>, energy_per_tick: int, k: int)
    requires
        floors.len() > 0,
        seq_sum(floors) < energy_per_tick,
        0 <= k <= floors.len(),
    ensures
        ({
            let n = floors.len() as int;
            let rem = energy_per_tick - seq_sum(floors);
            let w = with_remainder(floors, energy_per_tick);
            seq_sum(w.take(k)) == seq_sum(floors.take(k)) + k * (rem / n) + if k < rem % n {
                k
            } else {
                rem % n
            }
        }),
    decreases k,
{
    let n = floors.len() as int;
    let rem = energy_per_tick - seq_sum(floors);
    let w = with_remainder(floors, energy_per_tick);
    if k == 0 {
        assert(w.take(0) =~= Seq::<int>::empty());
        assert(floors.take(0) =~= Seq::<int>::empty());
    } else {
        lemma_prefix_with_remainder(floors, energy_per_tick, k - 1);
        lemma_sum_take(w, k - 1);
        lemma_sum_take(floors, k - 1);
        assert(k * (rem / n) == (k - 1) * (rem / n) + rem / n) by (nonlinear_arith);
    }
}

/// Allocations as plain values: actor id and credit.
pub open spec fn alloc_view(a: Seq<(String, i64)>) -> Seq<(Seq<char>, int)> {
    a.map_values(|p: (String, i64)| (p.0@, p.1 as int))
}

/// The sum of the positive credits.
pub open spec fn positive_total(a: Seq<(Seq<char>, int)>) -> int
    decreases a.len(),
{
    if a.len() == 0 {
        0
    } else {
        positive_total(a.drop_last()) + if a.last().1 > 0 {
            a.last().1
        } else {
            0
        }
    }
}

/// How many credits are positive.
pub open spec fn positive_count(a: Seq<(Seq<char>, int)>) -> nat
    decreases a.len(),
{
    if a.len() == 0 {
        0
    } else {
        positive_count(a.drop_last()) + if a.last().1 > 0 {
            1nat
        } else {
            0nat
        }
    }
}

/// The first actor with a positive credit and no account, if any.
pub open spec fn first_unknown(rows: Seq<Account>, a: Seq<(Seq<char>, int)>) -> Option<Seq<char>>
    decreases a.len(),
{
    if a.len() == 0 {
        None
    } else {
        match first_unknown(rows, a.drop_last()) {
            Some(id) => Some(id),
            None => if a.last().1 > 0 && !has_account(rows, a.last().0) {
                Some(a.last().0)
            } else {
                None
            },
        }
    }
}

/// The accounts after each positive credit has been added, in order.
pub open spec fn credited(rows: Seq<Account>, a: Seq<(Seq<char>, int)>) -> Seq<Account>
    decreases a.len(),
{
    if a.len() == 0 {
        rows
    } else {
        let prev = credited(rows, a.drop_last());
        if a.last().1 > 0 {
            after_credit(prev, a.last().0, a.last().1)
        } else {
            prev
        }
    }
}

/// Whether two account lists hold the same ids in the same places.
pub open spec fn same_ids(a: Seq<Account>, b: Seq<Account>) -> bool {
    a.len() == b.len() && forall|k: int| 0 <= k < a.len() ==> (#[trigger] a[k]).0 == b[k].0
}

/// Credits a tick's allocations in one transaction: each positive credit is
/// added to its actor's balance; credits that are not positive are skipped.
/// When an actor with a positive credit has no account, nothing is credited
/// and the error names the first such actor.  Returns the total credited and
/// the number of actors credited.
pub fn credit_tick(ledger: &mut EnergyLedger, allocations: &[(String, i64)]) -> (r: KernelResult<
    (i64, usize),
>)
    requires
        old(ledger).wf(),
        total_balance(old(ledger)@) + positive_total(alloc_view(allocations@)) <= i64::MAX,
    ensures
        final(ledger).wf(),
        match first_unknown(old(ledger)@, alloc_view(allocations@)) {
            Some(id) => r matches Err(KernelError::ActorNotFound(d)) && d@ == id && final(ledger)@
                == old(ledger)@,
            None => r matches Ok((total, count)) && total == positive_total(
                alloc_view(allocations@),
            ) && count == positive_count(alloc_view(allocations@)) && final(ledger)@ == credited(
                old(ledger)@,
                alloc_view(allocations@),
            ),
        },
        r is Ok ==> total_balance(final(ledger)@) == total_balance(old(ledger)@) + positive_total(
            alloc_view(allocations@),
        ),
{
    let ghost av = alloc_view(allocations@);
    let ghost rows0 = ledger@;
    // Every actor with a positive credit must have an account.
    let mut k: usize = 0;
    while k < allocations.len()
        invariant
            av == alloc_view(allocations@),
            ledger.wf(),
            ledger@ == rows0,
            k <= allocations@.len(),
            first_unknown(rows0, av.take(k as int)) is None,
        decreases allocations@.len() - k,
    {
        proof {
            assert(av.take(k as int + 1).drop_last() =~= av.take(k as int));
            assert(av[k as int] == (allocations@[k as int].0@, allocations@[k as int].1 as int));
        }
        if allocations[k].1 > 0 {
            match ledger.balance_view(allocations[k].0.as_str()) {
                Err(e) => {
                    proof {
                        lemma_first_unknown_prefix(rows0, av, k as int + 1);
                    }
                    return Err(KernelError::ActorNotFound(allocations[k].0.clone()));
                },
                Ok(_) => {},
            }
        }
        k = k + 1;
    }
    proof {
        assert(av.take(k as int) =~= av);
        lemma_positive_total_nonneg(av);
        assert forall|kk: int| 0 <= kk < rows0.len() implies 0 <= (#[trigger] rows0[kk]).1 by {
            assert(0 <= rows0[kk].2 <= rows0[kk].1);
        }
        lemma_balance_le_total(rows0, 0);
    }
    let mut total: i64 = 0;
    let mut count: usize = 0;
    let mut j: usize = 0;
    while j < allocations.len()
        invariant
            av == alloc_view(allocations@),
            ledger.wf(),
            first_unknown(rows0, av) is None,
            total_balance(rows0) + positive_total(av) <= i64::MAX,
            0 <= total_balance(rows0),
            forall|i: int| 0 <= i < rows0.len() ==> 0 <= (#[trigger] rows0[i]).1,
            j <= allocations@.len(),
            ledger@ == credited(rows0, av.take(j as int)),
            same_ids(ledger@, rows0),
            total == positive_total(av.take(j as int)),
            count == positive_count(av.take(j as int)),
            total_balance(ledger@) == total_balance(rows0) + total,
            0 <= total <= positive_total(av),
            count <= j,
        decreases allocations@.len() - j,
    {
        let ghost before = ledger@;
        proof {
            assert(av.take(j as int + 1).drop_last() =~= av.take(j as int));
            assert(av[j as int] == (allocations@[j as int].0@, allocations@[j as int].1 as int));
            assert(av.take(j as int + 1).last() == av[j as int]);
            lemma_positive_total_prefix(av, j as int + 1);
        }
        let amount = allocations[j].1;
        if amount > 0 {
            let ghost id = allocations@[j as int].0@;
            proof {
                lemma_first_unknown_none(rows0, av, j as int);
                assert(has_account(rows0, id));
                let i0 = choose|i: int| 0 <= i < rows0.len() && (#[trigger] rows0[i]).0 == id;
                assert(before[i0].0 == id);
                assert(has_account(before, id));
                let bi = crate::ledger::account_index(before, id);
                assert forall|kk: int| 0 <= kk < before.len() implies 0 <= (
                #[trigger] before[kk]).1 by {
                    assert(0 <= before[kk].2 <= before[kk].1);
                }
                lemma_balance_le_total(before, bi);
            }
            let res = ledger.credit_energy_in_tx(allocations[j].0.as_str(), amount);
            proof {
                assert(res is Ok);
                let bi = crate::ledger::account_index(before, id);
                lemma_total_balance_update(before, bi, (id, before[bi].1 + amount, before[bi].2));
                assert forall|kk: int| 0 <= kk < ledger@.len() implies (#[trigger] ledger@[kk]).0
                    == rows0[kk].0 by {
                    assert(before[kk].0 == rows0[kk].0);
                }
            }
            total = total + amount;
            count = count + 1;
        }
        j = j + 1;
    }
    proof {
        assert(av.take(j as int) =~= av);
    }
    Ok((total, count))
}

/// A prefix that has an unknown actor gives the whole list that actor.
proof fn lemma_first_unknown_prefix(rows: Seq<Account>, a: Seq<(Seq<char>, int)>, k: int)
    requires
        0 <= k <= a.len(),
        first_unknown(rows, a.take(k)) is Some,
    ensures
        first_unknown(rows, a) == first_unknown(rows, a.take(k)),
    decreases a.len() - k,
{
    if k < a.len() {
        assert(a.take(k + 1).drop_last() =~= a.take(k));
        lemma_first_unknown_prefix(rows, a, k + 1);
    } else {
        assert(a.take(k) =~= a);
    }
}

/// With no unknown actor, each actor with a positive credit has an account.
proof fn lemma_first_unknown_none(rows: Seq<Account>, a: Seq<(Seq<char>, int)>, j: int)
    requires
        0 <= j < a.len(),
        first_unknown(rows, a) is None,
        a[j].1 > 0,
    ensures
        has_account(rows, a[j].0),
    decreases a.len(),
{
    if j < a.len() - 1 {
        lemma_first_unknown_none(rows, a.drop_last(), j);
    }
}

/// Positive totals grow along prefixes.
proof fn lemma_positive_total_prefix(a: Seq<(Seq<char>, int)>, k: int)
    requires
        0 <= k <= a.len(),
    ensures
        0 <= positive_total(a.take(k)) <= positive_total(a),
    decreases a.len() - k,
{
    if k < a.len() {
        assert(a.take(k + 1).drop_last() =~= a.take(k));
        lemma_positive_total_prefix(a, k + 1);
    } else {
        assert(a.take(k) =~= a);
    }
    lemma_positive_total_nonneg(a.take(k));
}

proof fn lemma_positive_total_nonneg(a: Seq<(Seq<char>, int)>)
    ensures
        0 <= positive_total(a),
    decreases a.len(),
{
    if a.len() > 0 {
        lemma_positive_total_nonneg(a.drop_last());
    }
}

} // verus!
