//! The budget engine: spending limits per (category, period, currency), whose
//! `spent` amounts are recomputed from the expense transactions.
use vstd::prelude::*;
use crate::arith::{clamp_i128, percent, percent_of};
use crate::models::{
    flow_sum, lemma_flows_nonneg, same_budget_key, Budget, Currency, LedgerError, Transaction, UserData, ValidationIssue,
};
use crate::transaction::get_total_expense;

verus! {

/// What a budget has spent: the expense total of its currency in its period.
pub open spec fn budget_spent(txs: Seq<Transaction>, b: Budget) -> int {
    flow_sum(txs, b.currency, Some(b.period@), false)
}

/// `new` is `b` with its spent amount recomputed from `txs` at time `now`.
pub open spec fn refreshed(new: Budget, b: Budget, txs: Seq<Transaction>, now: u64) -> bool {
    &&& new.spent == budget_spent(txs, b)
    &&& new == (Budget { spent: new.spent, updated_at: now, ..b })
}

/// `new` holds the budgets of `old`, each with its spent amount recomputed.
pub open spec fn budgets_recomputed(new: Seq<Budget>, old: Seq<Budget>, txs: Seq<Transaction>, now: u64) -> bool {
    &&& new.len() == old.len()
    &&& forall|i: int| 0 <= i < old.len() ==> refreshed(#[trigger] new[i], old[i], txs, now)
}

/// Everything but the budgets is the same.
pub open spec fn same_but_budgets(a: UserData, b: UserData) -> bool {
    &&& a.transactions == b.transactions
    &&& a.goals == b.goals
    &&& a.notifications == b.notifications
    &&& a.wallet_addresses == b.wallet_addresses
    &&& a.next_tx_id == b.next_tx_id
    &&& a.next_goal_id == b.next_goal_id
    &&& a.next_notification_id == b.next_notification_id
    &&& a.balance_usd == b.balance_usd
    &&& a.balance_idr == b.balance_idr
    &&& a.balance_btc == b.balance_btc
    &&& a.balance_eth == b.balance_eth
    &&& a.balance_sol == b.balance_sol
    &&& a.currency_rates == b.currency_rates
}

/// Some budget of `bs`, other than the one at `skip`, has the key of `b`.
pub open spec fn key_taken(bs: Seq<Budget>, b: Budget, skip: int) -> bool {
    exists|i: int| 0 <= i < bs.len() && i != skip && same_budget_key(#[trigger] bs[i], b)
}

pub open spec fn has_budget(bs: Seq<Budget>, id: u64) -> bool {
    exists|i: int| 0 <= i < bs.len() && (#[trigger] bs[i]).id == id
}

fn key_in_use(bs: &Vec<Budget>, b: &Budget, skip: Option<usize>) -> (r: bool)
    ensures
        r == key_taken(
            bs@,
            *b,
            match skip {
                Some(k) => k as int,
                None => -1,
            },
        ),
{
    let ghost sk: int = match skip {
        Some(k) => k as int,
        None => -1,
    };
    let mut i: usize = 0;
    while i < bs.len()
        invariant
            i <= bs@.len(),
            sk == match skip {
                Some(k) => k as int,
                None => -1,
            },
            forall|k: int| 0 <= k < i && k != sk ==> !same_budget_key(#[trigger] bs@[k], *b),
        decreases bs@.len() - i,
    {
        let is_skip = match skip {
            Some(k) => k == i,
            None => false,
        };
        if !is_skip && bs[i].category == b.category && bs[i].period == b.period
            && bs[i].currency == b.currency {
            return true;
        }
        i = i + 1;
    }
    false
}

fn find_budget(bs: &Vec<Budget>, id: u64) -> (r: Option<usize>)
    ensures
        match r {
            Some(i) => i < bs@.len() && bs@[i as int].id == id,
            None => !has_budget(bs@, id),
        },
{
    let mut i: usize = 0;
    while i < bs.len()
        invariant
            i <= bs@.len(),
            forall|k: int| 0 <= k < i ==> (#[trigger] bs@[k]).id != id,
        decreases bs@.len() - i,
    {
        if bs[i].id == id {
            return Some(i);
        }
        i = i + 1;
    }
    None
}

/// The expense total that budget `b` has spent, computed from the transactions.
fn spent_of(user_data: &UserData, b: &Budget) -> (r: i128)
    requires
        user_data.wf(),
    ensures
        r == budget_spent(user_data.transactions@, *b),
        r >= 0,
{
    let r = get_total_expense(user_data, b.currency, Some(b.period.as_str()));
    proof {
        lemma_flows_nonneg(user_data.transactions@, b.currency, Some(b.period@));
    }
    r
}

/// Adds a budget under the next id, with its spent amount computed from the
/// transactions. Refused when the target is not positive or when a budget
/// with the same category, period and currency exists.
pub fn add_budget(user_data: &mut UserData, budget: Budget, now: u64) -> (r: Result<(), LedgerError>)
    requires
        old(user_data).wf(),
        old(user_data).next_budget_id < u64::MAX,
    ensures
        final(user_data).wf(),
        budget.budget <= 0 ==> r == Err::<(), LedgerError>(
            LedgerError::Validation(ValidationIssue::NonPositiveAmount),
        ) && *final(user_data) == *old(user_data),
        budget.budget > 0 && key_taken(old(user_data).budgets@, budget, -1) ==> r == Err::<
            (),
            LedgerError,
        >(LedgerError::Conflict) && *final(user_data) == *old(user_data),
        budget.budget > 0 && !key_taken(old(user_data).budgets@, budget, -1) ==> {
            &&& r is Ok
            &&& final(user_data).budgets@.len() == old(user_data).budgets@.len() + 1
            &&& final(user_data).budgets@.drop_last() == old(user_data).budgets@
            &&& refreshed(
                final(user_data).budgets@.last(),
                Budget { id: old(user_data).next_budget_id, created_at: now, ..budget },
                old(user_data).transactions@,
                now,
            )
            &&& final(user_data).next_budget_id == old(user_data).next_budget_id + 1
            &&& same_but_budgets(*final(user_data), *old(user_data))
        },
{
    if budget.budget <= 0 {
        return Err(LedgerError::Validation(ValidationIssue::NonPositiveAmount));
    }
    if key_in_use(&user_data.budgets, &budget, None) {
        return Err(LedgerError::Conflict);
    }
    let ghost old_data = *user_data;
    let spent = spent_of(user_data, &budget);
    let id = user_data.next_budget_id;
    let mut stored = budget;
    stored.id = id;
    stored.spent = spent;
    stored.created_at = now;
    stored.updated_at = now;
    user_data.budgets.push(stored);
    user_data.next_budget_id = id + 1;
    proof {
        let bs = user_data.budgets@;
        let olds = old_data.budgets@;
        assert(bs.drop_last() =~= olds);
        assert forall|i: int, j: int| 0 <= i < j < bs.len() implies {
            &&& (#[trigger] bs[i]).id != (#[trigger] bs[j]).id
            &&& !same_budget_key(bs[i], bs[j])
        } by {
            assert(bs[i] == olds[i]);
            if j < olds.len() {
                assert(bs[j] == olds[j]);
            } else {
                assert(!same_budget_key(olds[i], budget));
            }
        }
        assert forall|i: int| 0 <= i < bs.len() implies {
            &&& (#[trigger] bs[i]).budget > 0
            &&& bs[i].spent >= 0
            &&& bs[i].id < user_data.next_budget_id
        } by {
            if i < olds.len() {
                assert(bs[i] == olds[i]);
            }
        }
        old_data.lemma_balances_carry(*user_data);
    }
    Ok(())
}

/// Every budget, in insertion order.
pub fn get_budgets(user_data: &UserData) -> (r: &Vec<Budget>)
    ensures
        r@ == user_data.budgets@,
{
    &user_data.budgets
}

/// The budgets of `period`, in insertion order.
pub open spec fn budgets_in_period(bs: Seq<Budget>, period: Seq<char>) -> Seq<Budget> {
    bs.filter(|b: Budget| b.period@ == period)
}

/// The budgets in `currency`, in insertion order.
pub open spec fn budgets_in_currency(bs: Seq<Budget>, currency: Currency) -> Seq<Budget> {
    bs.filter(|b: Budget| b.currency == currency)
}

/// The budgets of one period.
pub fn get_budgets_by_period(user_data: &UserData, period: &str) -> (r: Vec<Budget>)
    ensures
        r@ == budgets_in_period(user_data.budgets@, period@),
{
    let bs = &user_data.budgets;
    let mut out: Vec<Budget> = Vec::new();
    let mut i: usize = 0;
    while i < bs.len()
        invariant
            i <= bs@.len(),
            out@ == budgets_in_period(bs@.subrange(0, i as int), period@),
        decreases bs@.len() - i,
    {
        proof {
            reveal(Seq::filter);
            assert(bs@.subrange(0, i + 1).drop_last() =~= bs@.subrange(0, i as int));
        }
        if crate::text::str_eq(bs[i].period.as_str(), period) {
            out.push(bs[i].cloned());
        }
        i = i + 1;
    }
    assert(bs@.subrange(0, bs@.len() as int) =~= bs@);
    out
}

/// The budgets in one currency.
pub fn get_budgets_by_currency(user_data: &UserData, currency: Currency) -> (r: Vec<Budget>)
    ensures
        r@ == budgets_in_currency(user_data.budgets@, currency),
{
    let bs = &user_data.budgets;
    let mut out: Vec<Budget> = Vec::new();
    let mut i: usize = 0;
    while i < bs.len()
        invariant
            i <= bs@.len(),
            out@ == budgets_in_currency(bs@.subrange(0, i as int), currency),
        decreases bs@.len() - i,
    {
        proof {
            reveal(Seq::filter);
            assert(bs@.subrange(0, i + 1).drop_last() =~= bs@.subrange(0, i as int));
        }
        if bs[i].currency == currency {
            out.push(bs[i].cloned());
        }
        i = i + 1;
    }
    assert(bs@.subrange(0, bs@.len() as int) =~= bs@);
    out
}

/// Replaces the budget with id `budget_id`, keeping its id and creation time,
/// recomputing its spent amount and stamping `now` as its update time.
pub fn update_budget(user_data: &mut UserData, budget_id: u64, updated_budget: Budget, now: u64) -> (r: Result<(), LedgerError>)
    requires
        old(user_data).wf(),
    ensures
        final(user_data).wf(),
        !has_budget(old(user_data).budgets@, budget_id) ==> r == Err::<(), LedgerError>(
            LedgerError::NotFound,
        ) && *final(user_data) == *old(user_data),
        forall|i: int|
            0 <= i < old(user_data).budgets@.len() && (#[trigger] old(user_data).budgets@[i]).id
                == budget_id ==> if updated_budget.budget <= 0 {
                r == Err::<(), LedgerError>(
                    LedgerError::Validation(ValidationIssue::NonPositiveAmount),
                ) && *final(user_data) == *old(user_data)
            } else if key_taken(old(user_data).budgets@, updated_budget, i) {
                r == Err::<(), LedgerError>(LedgerError::Conflict) && *final(user_data) == *old(user_data)
            } else {
                &&& r is Ok
                &&& final(user_data).budgets@ == old(user_data).budgets@.update(
                    i,
                    final(user_data).budgets@[i],
                )
                &&& refreshed(
                    final(user_data).budgets@[i],
                    Budget {
                        id: budget_id,
                        created_at: old(user_data).budgets@[i].created_at,
                        ..updated_budget
                    },
                    old(user_data).transactions@,
                    now,
                )
                &&& final(user_data).next_budget_id == old(user_data).next_budget_id
                &&& same_but_budgets(*final(user_data), *old(user_data))
            },
{
    let index = match find_budget(&user_data.budgets, budget_id) {
        None => return Err(LedgerError::NotFound),
        Some(i) => i,
    };
    let ghost old_data = *user_data;
    let ghost olds = old_data.budgets@;
    proof {
        assert forall|i: int|
            0 <= i < olds.len() && (#[trigger] olds[i]).id == budget_id implies i == index by {
            if i != index {
                if i < index {
                    assert(olds[i].id != olds[index as int].id);
                } else {
                    assert(olds[index as int].id != olds[i].id);
                }
            }
        }
    }
    if updated_budget.budget <= 0 {
        return Err(LedgerError::Validation(ValidationIssue::NonPositiveAmount));
    }
    if key_in_use(&user_data.budgets, &updated_budget, Some(index)) {
        return Err(LedgerError::Conflict);
    }
    let spent = spent_of(user_data, &updated_budget);
    let created_at = user_data.budgets[index].created_at;
    let mut stored = updated_budget;
    stored.id = budget_id;
    stored.spent = spent;
    stored.created_at = created_at;
    stored.updated_at = now;
    user_data.budgets.set(index, stored);
    proof {
        let bs = user_data.budgets@;
        assert forall|i: int, j: int| 0 <= i < j < bs.len() implies {
            &&& (#[trigger] bs[i]).id != (#[trigger] bs[j]).id
            &&& !same_budget_key(bs[i], bs[j])
        } by {
            if i == index {
                assert(olds[i].id != olds[j].id);
                assert(!same_budget_key(olds[j], updated_budget));
            } else if j == index {
                assert(olds[i].id != olds[j].id);
                assert(!same_budget_key(olds[i], updated_budget));
            } else {
                assert(olds[i].id != olds[j].id);
            }
        }
        assert forall|i: int| 0 <= i < bs.len() implies {
            &&& (#[trigger] bs[i]).budget > 0
            &&& bs[i].spent >= 0
            &&& bs[i].id < user_data.next_budget_id
        } by {
            assert(olds[index as int].id < old_data.next_budget_id);
        }
        old_data.lemma_balances_carry(*user_data);
    }
    Ok(())
}

/// Removes the budget with id `budget_id`.
pub fn delete_budget(user_data: &mut UserData, budget_id: u64) -> (r: Result<(), LedgerError>)
    requires
        old(user_data).wf(),
    ensures
        final(user_data).wf(),
        !has_budget(old(user_data).budgets@, budget_id) ==> r == Err::<(), LedgerError>(
            LedgerError::NotFound,
        ) && *final(user_data) == *old(user_data),
        has_budget(old(user_data).budgets@, budget_id) ==> {
            &&& r is Ok
            &&& forall|i: int|
                0 <= i < old(user_data).budgets@.len() && (#[trigger] old(user_data).budgets@[i]).id == budget_id ==> final(user_data).budgets@ == old(user_data).budgets@.remove(i)
            &&& final(user_data).next_budget_id == old(user_data).next_budget_id
            &&& same_but_budgets(*final(user_data), *old(user_data))
        },
{
    let index = match find_budget(&user_data.budgets, budget_id) {
        None => return Err(LedgerError::NotFound),
        Some(i) => i,
    };
    let ghost old_data = *user_data;
    let ghost olds = old_data.budgets@;
    user_data.budgets.remove(index);
    proof {
        let bs = user_data.budgets@;
        assert forall|i: int|
            0 <= i < olds.len() && (#[trigger] olds[i]).id == budget_id implies i == index by {
            if i != index {
                if i < index {
                    assert(olds[i].id != olds[index as int].id);
                } else {
                    assert(olds[index as int].id != olds[i].id);
                }
            }
        }
        assert forall|i: int, j: int| 0 <= i < j < bs.len() implies {
            &&& (#[trigger] bs[i]).id != (#[trigger] bs[j]).id
            &&& !same_budget_key(bs[i], bs[j])
        } by {
            let oi = if i < index { i } else { i + 1 };
            let oj = if j < index { j } else { j + 1 };
            assert(bs[i] == olds[oi]);
            assert(bs[j] == olds[oj]);
            assert(olds[oi].id != olds[oj].id);
        }
        assert forall|i: int| 0 <= i < bs.len() implies {
            &&& (#[trigger] bs[i]).budget > 0
            &&& bs[i].spent >= 0
            &&& bs[i].id < user_data.next_budget_id
        } by {
            let oi = if i < index { i } else { i + 1 };
            assert(bs[i] == olds[oi]);
        }
        old_data.lemma_balances_carry(*user_data);
    }
    Ok(())
}

/// Recomputes every budget's spent amount from the expense transactions of its
/// currency and period, stamping `now` as its update time. A full
/// recomputation, not an increment.
pub fn update_budget_spent(user_data: &mut UserData, now: u64) -> (r: Result<(), LedgerError>)
    requires
        old(user_data).wf(),
    ensures
        final(user_data).wf(),
        r is Ok,
        budgets_recomputed(
            final(user_data).budgets@,
            old(user_data).budgets@,
            old(user_data).transactions@,
            now,
        ),
        final(user_data).next_budget_id == old(user_data).next_budget_id,
        same_but_budgets(*final(user_data), *old(user_data)),
{
    let ghost old_data = *user_data;
    let ghost olds = old_data.budgets@;
    let mut i: usize = 0;
    while i < user_data.budgets.len()
        invariant
            i <= user_data.budgets@.len(),
            user_data.wf(),
            user_data.budgets@.len() == olds.len(),
            olds == old_data.budgets@,
            user_data.next_budget_id == old_data.next_budget_id,
            same_but_budgets(*user_data, old_data),
            forall|k: int|
                0 <= k < i ==> refreshed(#[trigger] user_data.budgets@[k], olds[k], old_data.transactions@, now),
            forall|k: int| i <= k < olds.len() ==> #[trigger] user_data.budgets@[k] == olds[k],
        decreases olds.len() - i,
    {
        let ghost before = *user_data;
        let spent = spent_of(user_data, &user_data.budgets[i]);
        let mut b = user_data.budgets[i].cloned();
        b.spent = spent;
        b.updated_at = now;
        user_data.budgets.set(i, b);
        proof {
            let bs = user_data.budgets@;
            let prev = before.budgets@;
            assert forall|x: int, y: int| 0 <= x < y < bs.len() implies {
                &&& (#[trigger] bs[x]).id != (#[trigger] bs[y]).id
                &&& !same_budget_key(bs[x], bs[y])
            } by {
                assert(prev[x].id != prev[y].id);
                assert(!same_budget_key(prev[x], prev[y]));
            }
            assert forall|x: int| 0 <= x < bs.len() implies {
                &&& (#[trigger] bs[x]).budget > 0
                &&& bs[x].spent >= 0
                &&& bs[x].id < user_data.next_budget_id
            } by {
                assert(prev[x].budget > 0);
            }
            before.lemma_balances_carry(*user_data);
        }
        i = i + 1;
    }
    Ok(())
}

/// Recomputing spent amounts twice in a row, with no change to the
/// transactions in between, gives the same spent amounts both times.
pub proof fn lemma_recompute_idempotent(
    b0: Seq<Budget>,
    b1: Seq<Budget>,
    b2: Seq<Budget>,
    txs: Seq<Transaction>,
    t1: u64,
    t2: u64,
)
    requires
        budgets_recomputed(b1, b0, txs, t1),
        budgets_recomputed(b2, b1, txs, t2),
    ensures
        b2.len() == b1.len(),
        forall|i: int| 0 <= i < b2.len() ==> (#[trigger] b2[i]).spent == b1[i].spent,
{
    assert forall|i: int| 0 <= i < b2.len() implies (#[trigger] b2[i]).spent == b1[i].spent by {
        assert(refreshed(b1[i], b0[i], txs, t1));
        assert(refreshed(b2[i], b1[i], txs, t2));
    }
}

/// Target, spent amount and spent percentage (at `PERCENT_SCALE`) of the budget
/// with id `budget_id`; `None` when there is none.
pub fn get_budget_progress(user_data: &UserData, budget_id: u64) -> (r: Option<(i64, i128, i128)>)
    requires
        user_data.wf(),
    ensures
        !has_budget(user_data.budgets@, budget_id) ==> r is None,
        forall|i: int|
            0 <= i < user_data.budgets@.len() && (#[trigger] user_data.budgets@[i]).id == budget_id
                ==> r == Some(
                (
                    user_data.budgets@[i].budget,
                    user_data.budgets@[i].spent,
                    percent_of(
                        user_data.budgets@[i].spent as int,
                        user_data.budgets@[i].budget as int,
                    ) as i128,
                ),
            ),
{
    match find_budget(&user_data.budgets, budget_id) {
        None => None,
        Some(index) => {
            let b = &user_data.budgets[index];
            let p = percent(b.spent, b.budget);
            proof {
                let bs = user_data.budgets@;
                assert forall|i: int|
                    0 <= i < bs.len() && (#[trigger] bs[i]).id == budget_id implies i == index by {
                    if i != index {
                        if i < index {
                            assert(bs[i].id != bs[index as int].id);
                        } else {
                            assert(bs[index as int].id != bs[i].id);
                        }
                    }
                }
            }
            Some((b.budget, b.spent, p))
        },
    }
}

/// Whether budget `b` is in `currency` and (when one is given) in `period`.
pub open spec fn budget_selected(b: Budget, currency: Currency, period: Option<Seq<char>>) -> bool {
    b.currency == currency && match period {
        None => true,
        Some(p) => b.period@ == p,
    }
}

/// The sum of the targets of the selected budgets.
pub open spec fn target_total(bs: Seq<Budget>, currency: Currency, period: Option<Seq<char>>) -> int
    decreases bs.len(),
{
    if bs.len() == 0 {
        0
    } else {
        target_total(bs.drop_last(), currency, period) + if budget_selected(bs.last(), currency, period) {
            bs.last().budget as int
        } else {
            0
        }
    }
}

/// The sum of the spent amounts of the selected budgets.
pub open spec fn spent_total(bs: Seq<Budget>, currency: Currency, period: Option<Seq<char>>) -> int
    decreases bs.len(),
{
    if bs.len() == 0 {
        0
    } else {
        spent_total(bs.drop_last(), currency, period) + if budget_selected(bs.last(), currency, period) {
            bs.last().spent as int
        } else {
            0
        }
    }
}

proof fn lemma_target_total_bound(bs: Seq<Budget>, currency: Currency, period: Option<Seq<char>>)
    ensures
        -(bs.len() * crate::models::amount_bound()) <= target_total(bs, currency, period) <= bs.len()
            * crate::models::amount_bound(),
    decreases bs.len(),
{
    if bs.len() > 0 {
        lemma_target_total_bound(bs.drop_last(), currency, period);
    }
}

fn budget_matches(b: &Budget, currency: Currency, period: Option<&str>) -> (r: bool)
    ensures
        r == budget_selected(*b, currency, crate::transaction::opt_text(period)),
{
    if b.currency != currency {
        return false;
    }
    match period {
        None => true,
        Some(p) => crate::text::str_eq(b.period.as_str(), p),
    }
}

/// The sum of the targets of the budgets in `currency` (and `period`, when given).
pub fn get_total_budget(user_data: &UserData, currency: Currency, period: Option<&str>) -> (r: i128)
    ensures
        r == target_total(user_data.budgets@, currency, crate::transaction::opt_text(period)),
{
    let bs = &user_data.budgets;
    let ghost ym = crate::transaction::opt_text(period);
    let n = bs.len();
    let mut acc: i128 = 0;
    let mut i: usize = 0;
    while i < n
        invariant
            n == bs@.len(),
            i <= n,
            ym == crate::transaction::opt_text(period),
            acc == target_total(bs@.subrange(0, i as int), currency, ym),
        decreases n - i,
    {
        proof {
            assert(bs@.subrange(0, i + 1).drop_last() =~= bs@.subrange(0, i as int));
            lemma_target_total_bound(bs@.subrange(0, i + 1), currency, ym);
            crate::transaction::lemma_bound_mono(i + 1, n as int);
            crate::transaction::lemma_bound_fits(n as int);
        }
        if budget_matches(&bs[i], currency, period) {
            acc = acc + bs[i].budget as i128;
        }
        i = i + 1;
    }
    assert(bs@.subrange(0, n as int) =~= bs@);
    acc
}

/// The sum of the spent amounts of the budgets in `currency` (and `period`,
/// when given), capped at `i128::MAX`.
pub fn get_total_spent(user_data: &UserData, currency: Currency, period: Option<&str>) -> (r: i128)
    requires
        user_data.wf(),
    ensures
        r == clamp_i128(spent_total(user_data.budgets@, currency, crate::transaction::opt_text(period))),
{
    let bs = &user_data.budgets;
    let ghost ym = crate::transaction::opt_text(period);
    let n = bs.len();
    let mut acc: i128 = 0;
    let mut i: usize = 0;
    while i < n
        invariant
            n == bs@.len(),
            i <= n,
            ym == crate::transaction::opt_text(period),
            forall|k: int| 0 <= k < n ==> (#[trigger] bs@[k]).spent >= 0,
            0 <= spent_total(bs@.subrange(0, i as int), currency, ym),
            acc == clamp_i128(spent_total(bs@.subrange(0, i as int), currency, ym)),
        decreases n - i,
    {
        proof {
            assert(bs@.subrange(0, i + 1).drop_last() =~= bs@.subrange(0, i as int));
        }
        if budget_matches(&bs[i], currency, period) {
            let s = bs[i].spent;
            if acc > i128::MAX - s {
                acc = i128::MAX;
            } else {
                acc = acc + s;
            }
        }
        i = i + 1;
    }
    assert(bs@.subrange(0, n as int) =~= bs@);
    acc
}

} // verus!
