//! The goal engine: savings goals whose status is derived from the saved
//! amount and the target.
use vstd::prelude::*;
use crate::arith::{clamp_i128, percent, percent_of};
use crate::models::{
    amount_bound, status_for, Currency, Goal, GoalStatus, LedgerError, Priority, UserData,
    ValidationIssue,
};
use crate::transaction::{lemma_bound_fits, lemma_bound_mono};

verus! {

/// Everything but the goals is the same.
pub open spec fn same_but_goals(a: UserData, b: UserData) -> bool {
    &&& a.transactions == b.transactions
    &&& a.budgets == b.budgets
    &&& a.notifications == b.notifications
    &&& a.wallet_addresses == b.wallet_addresses
    &&& a.next_tx_id == b.next_tx_id
    &&& a.next_budget_id == b.next_budget_id
    &&& a.next_notification_id == b.next_notification_id
    &&& a.balance_usd == b.balance_usd
    &&& a.balance_idr == b.balance_idr
    &&& a.balance_btc == b.balance_btc
    &&& a.balance_eth == b.balance_eth
    &&& a.balance_sol == b.balance_sol
    &&& a.currency_rates == b.currency_rates
}

pub open spec fn has_goal(gs: Seq<Goal>, id: u64) -> bool {
    exists|i: int| 0 <= i < gs.len() && (#[trigger] gs[i]).id == id
}

/// The rule, if any, that the amounts of a goal break.
pub open spec fn goal_issue(g: Goal) -> Option<ValidationIssue> {
    if g.target_amount <= 0 {
        Some(ValidationIssue::NonPositiveAmount)
    } else if g.current_amount < 0 {
        Some(ValidationIssue::NegativeAmount)
    } else {
        None
    }
}

/// `g` with its status derived from its amounts.
pub open spec fn with_status(g: Goal) -> Goal {
    Goal { status: status_for(g.current_amount as int, g.target_amount as int), ..g }
}

fn find_goal(gs: &Vec<Goal>, id: u64) -> (r: Option<usize>)
    ensures
        match r {
            Some(i) => i < gs@.len() && gs@[i as int].id == id,
            None => !has_goal(gs@, id),
        },
{
    let mut i: usize = 0;
    while i < gs.len()
        invariant
            i <= gs@.len(),
            forall|k: int| 0 <= k < i ==> (#[trigger] gs@[k]).id != id,
        decreases gs@.len() - i,
    {
        if gs[i].id == id {
            return Some(i);
        }
        i = i + 1;
    }
    None
}

proof fn lemma_goal_index_unique(d: UserData, index: int, id: u64)
    requires
        d.wf(),
        0 <= index < d.goals@.len(),
        d.goals@[index].id == id,
    ensures
        forall|i: int| 0 <= i < d.goals@.len() && (#[trigger] d.goals@[i]).id == id ==> i == index,
{
    let gs = d.goals@;
    assert forall|i: int| 0 <= i < gs.len() && (#[trigger] gs[i]).id == id implies i == index by {
        if i != index {
            if i < index {
                assert(gs[i].id != gs[index].id);
            } else {
                assert(gs[index].id != gs[i].id);
            }
        }
    }
}

fn status_of(current: i64, target: i64) -> (r: GoalStatus)
    ensures
        r == status_for(current as int, target as int),
{
    if current >= target {
        GoalStatus::Completed
    } else {
        GoalStatus::Active
    }
}

/// Adds a goal under the next id with its status derived from its amounts.
/// Refused when the target is not positive or the saved amount is negative.
pub fn add_goal(user_data: &mut UserData, goal: Goal, now: u64) -> (r: Result<(), LedgerError>)
    requires
        old(user_data).wf(),
        old(user_data).next_goal_id < u64::MAX,
    ensures
        final(user_data).wf(),
        match goal_issue(goal) {
            Some(issue) => r == Err::<(), LedgerError>(LedgerError::Validation(issue))
                && *final(user_data) == *old(user_data),
            None => {
                &&& r is Ok
                &&& final(user_data).goals@ == old(user_data).goals@.push(
                    with_status(
                        Goal {
                            id: old(user_data).next_goal_id,
                            created_at: now,
                            updated_at: now,
                            ..goal
                        },
                    ),
                )
                &&& final(user_data).next_goal_id == old(user_data).next_goal_id + 1
                &&& same_but_goals(*final(user_data), *old(user_data))
            },
        },
{
    if goal.target_amount <= 0 {
        return Err(LedgerError::Validation(ValidationIssue::NonPositiveAmount));
    }
    if goal.current_amount < 0 {
        return Err(LedgerError::Validation(ValidationIssue::NegativeAmount));
    }
    let ghost old_data = *user_data;
    let id = user_data.next_goal_id;
    let mut g = goal;
    g.id = id;
    g.status = status_of(g.current_amount, g.target_amount);
    g.created_at = now;
    g.updated_at = now;
    user_data.goals.push(g);
    user_data.next_goal_id = id + 1;
    proof {
        let gs = user_data.goals@;
        let olds = old_data.goals@;
        assert forall|i: int, j: int| 0 <= i < j < gs.len() implies (#[trigger] gs[i]).id
            != (#[trigger] gs[j]).id by {
            assert(gs[i] == olds[i]);
            if j < olds.len() {
                assert(gs[j] == olds[j]);
            }
        }
        assert forall|i: int| 0 <= i < gs.len() implies (#[trigger] gs[i]).status == status_for(
            gs[i].current_amount as int,
            gs[i].target_amount as int,
        ) && gs[i].id < user_data.next_goal_id by {
            if i < olds.len() {
                assert(gs[i] == olds[i]);
            }
        }
        old_data.lemma_balances_carry(*user_data);
    }
    Ok(())
}

/// Every goal, in insertion order.
pub fn get_goals(user_data: &UserData) -> (r: &Vec<Goal>)
    ensures
        r@ == user_data.goals@,
{
    &user_data.goals
}

/// A filter over goals.
pub enum GoalFilter {
    WithStatus(GoalStatus),
    WithPriority(Priority),
    InCurrency(Currency),
}

pub open spec fn goal_matches(f: GoalFilter, g: Goal) -> bool {
    match f {
        GoalFilter::WithStatus(s) => g.status == s,
        GoalFilter::WithPriority(p) => g.priority == p,
        GoalFilter::InCurrency(c) => g.currency == c,
    }
}

/// The goals that `f` keeps, in order.
pub open spec fn goals_selected(gs: Seq<Goal>, f: GoalFilter) -> Seq<Goal> {
    gs.filter(|g: Goal| goal_matches(f, g))
}

fn select_goals(gs: &Vec<Goal>, f: GoalFilter) -> (r: Vec<Goal>)
    ensures
        r@ == goals_selected(gs@, f),
{
    let mut out: Vec<Goal> = Vec::new();
    let mut i: usize = 0;
    while i < gs.len()
        invariant
            i <= gs@.len(),
            out@ == goals_selected(gs@.subrange(0, i as int), f),
        decreases gs@.len() - i,
    {
        proof {
            reveal(Seq::filter);
            assert(gs@.subrange(0, i + 1).drop_last() =~= gs@.subrange(0, i as int));
        }
        let keep = match f {
            GoalFilter::WithStatus(s) => gs[i].status == s,
            GoalFilter::WithPriority(p) => gs[i].priority == p,
            GoalFilter::InCurrency(c) => gs[i].currency == c,
        };
        if keep {
            out.push(gs[i].cloned());
        }
        i = i + 1;
    }
    assert(gs@.subrange(0, gs@.len() as int) =~= gs@);
    out
}

/// The goals with one status.
pub fn get_goals_by_status(user_data: &UserData, status: GoalStatus) -> (r: Vec<Goal>)
    ensures
        r@ == goals_selected(user_data.goals@, GoalFilter::WithStatus(status)),
{
    select_goals(&user_data.goals, GoalFilter::WithStatus(status))
}

/// The goals with one priority.
pub fn get_goals_by_priority(user_data: &UserData, priority: Priority) -> (r: Vec<Goal>)
    ensures
        r@ == goals_selected(user_data.goals@, GoalFilter::WithPriority(priority)),
{
    select_goals(&user_data.goals, GoalFilter::WithPriority(priority))
}

/// The goals in one currency.
pub fn get_goals_by_currency(user_data: &UserData, currency: Currency) -> (r: Vec<Goal>)
    ensures
        r@ == goals_selected(user_data.goals@, GoalFilter::InCurrency(currency)),
{
    select_goals(&user_data.goals, GoalFilter::InCurrency(currency))
}

/// Replaces the goal with id `goal_id`, keeping its id and creation time,
/// deriving its status and stamping `now` as its update time.
pub fn update_goal(user_data: &mut UserData, goal_id: u64, updated_goal: Goal, now: u64) -> (r: Result<(), LedgerError>)
    requires
        old(user_data).wf(),
    ensures
        final(user_data).wf(),
        !has_goal(old(user_data).goals@, goal_id) ==> r == Err::<(), LedgerError>(
            LedgerError::NotFound,
        ) && *final(user_data) == *old(user_data),
        forall|i: int|
            0 <= i < old(user_data).goals@.len() && (#[trigger] old(user_data).goals@[i]).id == goal_id
                ==> {
                &&& r is Ok
                &&& final(user_data).goals@ == old(user_data).goals@.update(
                    i,
                    with_status(
                        Goal {
                            id: goal_id,
                            created_at: old(user_data).goals@[i].created_at,
                            updated_at: now,
                            ..updated_goal
                        },
                    ),
                )
                &&& final(user_data).next_goal_id == old(user_data).next_goal_id
                &&& same_but_goals(*final(user_data), *old(user_data))
            },
{
    let index = match find_goal(&user_data.goals, goal_id) {
        None => return Err(LedgerError::NotFound),
        Some(i) => i,
    };
    let ghost old_data = *user_data;
    proof {
        lemma_goal_index_unique(old_data, index as int, goal_id);
    }
    let created_at = user_data.goals[index].created_at;
    let mut g = updated_goal;
    g.id = goal_id;
    g.status = status_of(g.current_amount, g.target_amount);
    g.created_at = created_at;
    g.updated_at = now;
    user_data.goals.set(index, g);
    proof {
        let gs = user_data.goals@;
        let olds = old_data.goals@;
        assert forall|i: int, j: int| 0 <= i < j < gs.len() implies (#[trigger] gs[i]).id
            != (#[trigger] gs[j]).id by {
            assert(olds[i].id != olds[j].id);
        }
        assert forall|i: int| 0 <= i < gs.len() implies (#[trigger] gs[i]).status == status_for(
            gs[i].current_amount as int,
            gs[i].target_amount as int,
        ) && gs[i].id < user_data.next_goal_id by {
            assert(olds[index as int].id < old_data.next_goal_id);
        }
        old_data.lemma_balances_carry(*user_data);
    }
    Ok(())
}

/// Removes the goal with id `goal_id`.
pub fn delete_goal(user_data: &mut UserData, goal_id: u64) -> (r: Result<(), LedgerError>)
    requires
        old(user_data).wf(),
    ensures
        final(user_data).wf(),
        !has_goal(old(user_data).goals@, goal_id) ==> r == Err::<(), LedgerError>(
            LedgerError::NotFound,
        ) && *final(user_data) == *old(user_data),
        has_goal(old(user_data).goals@, goal_id) ==> {
            &&& r is Ok
            &&& forall|i: int|
                0 <= i < old(user_data).goals@.len() && (#[trigger] old(user_data).goals@[i]).id
                    == goal_id ==> final(user_data).goals@ == old(user_data).goals@.remove(i)
            &&& final(user_data).next_goal_id == old(user_data).next_goal_id
            &&& same_but_goals(*final(user_data), *old(user_data))
        },
{
    let index = match find_goal(&user_data.goals, goal_id) {
        None => return Err(LedgerError::NotFound),
        Some(i) => i,
    };
    let ghost old_data = *user_data;
    let ghost olds = old_data.goals@;
    proof {
        lemma_goal_index_unique(old_data, index as int, goal_id);
    }
    user_data.goals.remove(index);
    proof {
        let gs = user_data.goals@;
        assert forall|i: int, j: int| 0 <= i < j < gs.len() implies (#[trigger] gs[i]).id
            != (#[trigger] gs[j]).id by {
            let oi = if i < index { i } else { i + 1 };
            let oj = if j < index { j } else { j + 1 };
            assert(gs[i] == olds[oi]);
            assert(gs[j] == olds[oj]);
            assert(olds[oi].id != olds[oj].id);
        }
        assert forall|i: int| 0 <= i < gs.len() implies (#[trigger] gs[i]).status == status_for(
            gs[i].current_amount as int,
            gs[i].target_amount as int,
        ) && gs[i].id < user_data.next_goal_id by {
            let oi = if i < index { i } else { i + 1 };
            assert(gs[i] == olds[oi]);
        }
        old_data.lemma_balances_carry(*user_data);
    }
    Ok(())
}

/// Sets the saved amount of the goal with id `goal_id`, re-deriving its status
/// and stamping `now` as its update time.
pub fn update_goal_progress(user_data: &mut UserData, goal_id: u64, new_amount: i64, now: u64) -> (r: Result<(), LedgerError>)
    requires
        old(user_data).wf(),
    ensures
        final(user_data).wf(),
        !has_goal(old(user_data).goals@, goal_id) ==> r == Err::<(), LedgerError>(
            LedgerError::NotFound,
        ) && *final(user_data) == *old(user_data),
        forall|i: int|
            0 <= i < old(user_data).goals@.len() && (#[trigger] old(user_data).goals@[i]).id == goal_id
                ==> {
                &&& r is Ok
                &&& final(user_data).goals@ == old(user_data).goals@.update(
                    i,
                    with_status(
                        Goal {
                            current_amount: new_amount,
                            updated_at: now,
                            ..old(user_data).goals@[i]
                        },
                    ),
                )
                &&& final(user_data).next_goal_id == old(user_data).next_goal_id
                &&& same_but_goals(*final(user_data), *old(user_data))
            },
{
    let index = match find_goal(&user_data.goals, goal_id) {
        None => return Err(LedgerError::NotFound),
        Some(i) => i,
    };
    let ghost old_data = *user_data;
    proof {
        lemma_goal_index_unique(old_data, index as int, goal_id);
    }
    let mut g = user_data.goals[index].cloned();
    g.current_amount = new_amount;
    g.status = status_of(new_amount, g.target_amount);
    g.updated_at = now;
    user_data.goals.set(index, g);
    proof {
        let gs = user_data.goals@;
        let olds = old_data.goals@;
        assert forall|i: int, j: int| 0 <= i < j < gs.len() implies (#[trigger] gs[i]).id
            != (#[trigger] gs[j]).id by {
            assert(olds[i].id != olds[j].id);
        }
        assert forall|i: int| 0 <= i < gs.len() implies (#[trigger] gs[i]).status == status_for(
            gs[i].current_amount as int,
            gs[i].target_amount as int,
        ) && gs[i].id < user_data.next_goal_id by {
            assert(olds[i].id < old_data.next_goal_id);
        }
        old_data.lemma_balances_carry(*user_data);
    }
    Ok(())
}

/// Target, saved amount and saved percentage (at `PERCENT_SCALE`, zero for a
/// zero target) of the goal with id `goal_id`; `None` when there is none.
pub fn get_goal_progress(user_data: &UserData, goal_id: u64) -> (r: Option<(i64, i64, i128)>)
    requires
        user_data.wf(),
    ensures
        !has_goal(user_data.goals@, goal_id) ==> r is None,
        forall|i: int|
            0 <= i < user_data.goals@.len() && (#[trigger] user_data.goals@[i]).id == goal_id ==> r
                == Some(
                (
                    user_data.goals@[i].target_amount,
                    user_data.goals@[i].current_amount,
                    percent_of(
                        user_data.goals@[i].current_amount as int,
                        user_data.goals@[i].target_amount as int,
                    ) as i128,
                ),
            ),
{
    match find_goal(&user_data.goals, goal_id) {
        None => None,
        Some(index) => {
            proof {
                lemma_goal_index_unique(*user_data, index as int, goal_id);
            }
            let g = &user_data.goals[index];
            let p = percent(g.current_amount as i128, g.target_amount);
            Some((g.target_amount, g.current_amount, p))
        },
    }
}

/// Whether goal `g` is in `currency` and (when one is given) has `status`.
pub open spec fn goal_selected(g: Goal, currency: Currency, status: Option<GoalStatus>) -> bool {
    g.currency == currency && match status {
        None => true,
        Some(s) => g.status == s,
    }
}

/// The sum of the targets (or of the saved amounts) of the selected goals.
pub open spec fn goal_total(gs: Seq<Goal>, currency: Currency, status: Option<GoalStatus>, target: bool) -> int
    decreases gs.len(),
{
    if gs.len() == 0 {
        0
    } else {
        goal_total(gs.drop_last(), currency, status, target) + if goal_selected(gs.last(), currency, status) {
            if target {
                gs.last().target_amount as int
            } else {
                gs.last().current_amount as int
            }
        } else {
            0
        }
    }
}

proof fn lemma_goal_total_bound(gs: Seq<Goal>, currency: Currency, status: Option<GoalStatus>, target: bool)
    ensures
        -(gs.len() * amount_bound()) <= goal_total(gs, currency, status, target) <= gs.len() * amount_bound(),
    decreases gs.len(),
{
    if gs.len() > 0 {
        lemma_goal_total_bound(gs.drop_last(), currency, status, target);
    }
}

fn goal_total_of(gs: &Vec<Goal>, currency: Currency, status: Option<GoalStatus>, target: bool) -> (r: i128)
    ensures
        r == goal_total(gs@, currency, status, target),
{
    let n = gs.len();
    let mut acc: i128 = 0;
    let mut i: usize = 0;
    while i < n
        invariant
            n == gs@.len(),
            i <= n,
            acc == goal_total(gs@.subrange(0, i as int), currency, status, target),
        decreases n - i,
    {
        proof {
            assert(gs@.subrange(0, i + 1).drop_last() =~= gs@.subrange(0, i as int));
            lemma_goal_total_bound(gs@.subrange(0, i + 1), currency, status, target);
            lemma_bound_mono(i + 1, n as int);
            lemma_bound_fits(n as int);
        }
        let g = &gs[i];
        let selected = g.currency == currency && match status {
            None => true,
            Some(s) => g.status == s,
        };
        if selected {
            if target {
                acc = acc + g.target_amount as i128;
            } else {
                acc = acc + g.current_amount as i128;
            }
        }
        i = i + 1;
    }
    assert(gs@.subrange(0, n as int) =~= gs@);
    acc
}

/// The sum of the targets of the goals in `currency` (with `status`, when given).
pub fn get_total_target_amount(user_data: &UserData, currency: Currency, status: Option<GoalStatus>) -> (r: i128)
    ensures
        r == goal_total(user_data.goals@, currency, status, true),
{
    goal_total_of(&user_data.goals, currency, status, true)
}

/// The sum of the saved amounts of the goals in `currency` (with `status`, when given).
pub fn get_total_current_amount(user_data: &UserData, currency: Currency, status: Option<GoalStatus>) -> (r: i128)
    ensures
        r == goal_total(user_data.goals@, currency, status, false),
{
    goal_total_of(&user_data.goals, currency, status, false)
}

/// In a well-formed record every goal is completed exactly when its saved
/// amount has reached its target. Every goal operation keeps the record
/// well-formed, so this holds after each of them.
pub proof fn lemma_goal_status_law(user_data: UserData)
    requires
        user_data.wf(),
    ensures
        forall|i: int|
            0 <= i < user_data.goals@.len() ==> ((#[trigger] user_data.goals@[i]).status
                == GoalStatus::Completed <==> user_data.goals@[i].current_amount
                >= user_data.goals@[i].target_amount),
{
    assert forall|i: int| 0 <= i < user_data.goals@.len() implies ((#[trigger] user_data.goals@[i]).status
        == GoalStatus::Completed <==> user_data.goals@[i].current_amount
        >= user_data.goals@[i].target_amount) by {
        assert(user_data.goals@[i].id < user_data.next_goal_id);
    }
}

} // verus!
