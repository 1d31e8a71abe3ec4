//! The transaction engine: appends, removes and replaces ledger entries while
//! keeping the running balances equal to the entries' totals, and answers
//! filtered listings and totals.
use vstd::prelude::*;
use crate::models::{
    effect, flow_sum, lemma_flow_sum_bound, lemma_flow_sum_prefix, lemma_net_sum_bound, lemma_net_sum_push,
    lemma_net_sum_remove, lemma_net_sum_update, lemma_flows_nonneg,
    amount_bound, net_sum, Currency, LedgerError, Source, Transaction, TransactionType, UserData,
    ValidationIssue,
};
use crate::text::str_eq;
use crate::utils::{get_year_month, year_month_text};

verus! {

/// The view of an optional text argument.
pub open spec fn opt_text(o: Option<&str>) -> Option<Seq<char>> {
    match o {
        Some(s) => Some(s@),
        None => None,
    }
}

/// The rule, if any, that a transaction breaks.
pub open spec fn transaction_issue(tx: Transaction) -> Option<ValidationIssue> {
    if tx.amount <= 0 {
        Some(ValidationIssue::NonPositiveAmount)
    } else if tx.source == Some(Source::Manual) && tx.transaction_type is Some
        && tx.transaction_type != Some(TransactionType::Income)
        && tx.transaction_type != Some(TransactionType::Expense) {
        Some(ValidationIssue::InvalidTransactionType)
    } else {
        None
    }
}

/// `tx` as stored under id `id`.
pub open spec fn with_id(tx: Transaction, id: u64) -> Transaction {
    Transaction { id, ..tx }
}

/// Everything but the transactions and the balances is the same.
pub open spec fn same_but_transactions(a: UserData, b: UserData) -> bool {
    &&& a.budgets == b.budgets
    &&& a.goals == b.goals
    &&& a.notifications == b.notifications
    &&& a.wallet_addresses == b.wallet_addresses
    &&& a.next_budget_id == b.next_budget_id
    &&& a.next_goal_id == b.next_goal_id
    &&& a.next_notification_id == b.next_notification_id
    &&& a.currency_rates == b.currency_rates
}

/// `new` is `old` with `tx` appended under the next id, the counter advanced
/// and the balance of its currency moved by its effect.
pub open spec fn added(new: UserData, old: UserData, tx: Transaction) -> bool {
    &&& new.transactions@ == old.transactions@.push(with_id(tx, old.next_tx_id))
    &&& new.next_tx_id == old.next_tx_id + 1
    &&& forall|c: Currency| #[trigger] new.balance_of(c) == old.balance_of(c) + effect(tx, c)
    &&& same_but_transactions(new, old)
}

/// A filter over transactions.
pub enum TxFilter<'a> {
    Period(&'a str),
    Income(bool),
    Category(&'a str),
    InCurrency(Currency),
    FromSource(Source),
}

pub open spec fn tx_matches(f: TxFilter, tx: Transaction) -> bool {
    match f {
        TxFilter::Period(p) => year_month_text(tx.timestamp) == p@,
        TxFilter::Income(b) => tx.is_income == b,
        TxFilter::Category(c) => tx.category@ == c@,
        TxFilter::InCurrency(c) => tx.currency == c,
        TxFilter::FromSource(s) => tx.source == Some(s),
    }
}

/// The transactions of `txs` that `f` keeps, in order.
pub open spec fn selected(txs: Seq<Transaction>, f: TxFilter) -> Seq<Transaction> {
    txs.filter(|tx: Transaction| tx_matches(f, tx))
}

proof fn lemma_selected_prefix(txs: Seq<Transaction>, i: int, f: TxFilter)
    requires
        0 <= i < txs.len(),
    ensures
        selected(txs.subrange(0, i + 1), f) == if tx_matches(f, txs[i]) {
            selected(txs.subrange(0, i), f).push(txs[i])
        } else {
            selected(txs.subrange(0, i), f)
        },
{
    reveal(Seq::filter);
    assert(txs.subrange(0, i + 1).drop_last() =~= txs.subrange(0, i));
}

fn matches_filter(f: &TxFilter, tx: &Transaction) -> (r: bool)
    ensures
        r == tx_matches(*f, *tx),
{
    match f {
        TxFilter::Period(p) => {
            let ym = get_year_month(tx.timestamp);
            str_eq(ym.as_str(), p)
        },
        TxFilter::Income(b) => tx.is_income == *b,
        TxFilter::Category(c) => str_eq(tx.category.as_str(), c),
        TxFilter::InCurrency(c) => tx.currency == *c,
        TxFilter::FromSource(s) => match tx.source {
            Some(t) => t == *s,
            None => false,
        },
    }
}

/// Copies of the transactions that `f` keeps, in ledger order.
pub fn select_transactions(txs: &Vec<Transaction>, f: TxFilter) -> (r: Vec<Transaction>)
    ensures
        r@ == selected(txs@, f),
{
    let mut out: Vec<Transaction> = Vec::new();
    let mut i: usize = 0;
    while i < txs.len()
        invariant
            i <= txs@.len(),
            out@ == selected(txs@.subrange(0, i as int), f),
        decreases txs@.len() - i,
    {
        proof {
            lemma_selected_prefix(txs@, i as int, f);
        }
        if matches_filter(&f, &txs[i]) {
            out.push(txs[i].cloned());
        }
        i = i + 1;
    }
    assert(txs@.subrange(0, txs@.len() as int) =~= txs@);
    out
}

pub(crate) proof fn lemma_bound_fits(k: int)
    requires
        0 <= k <= usize::MAX,
    ensures
        k * amount_bound() <= i128::MAX,
        -(k * amount_bound()) >= i128::MIN,
{
    assert(k * amount_bound() <= 0xffff_ffff_ffff_ffff * amount_bound()) by (nonlinear_arith)
        requires
            0 <= k <= 0xffff_ffff_ffff_ffff,
            amount_bound() > 0,
    ;
}

pub(crate) proof fn lemma_bound_mono(a: int, b: int)
    requires
        0 <= a <= b,
    ensures
        a * amount_bound() <= b * amount_bound(),
{
    assert(a * amount_bound() <= b * amount_bound()) by (nonlinear_arith)
        requires
            0 <= a <= b,
            amount_bound() > 0,
    ;
}

fn flow_total(txs: &Vec<Transaction>, c: Currency, ym: Option<&str>, income: bool) -> (r: i128)
    ensures
        r == flow_sum(txs@, c, opt_text(ym), income),
{
    let n = txs.len();
    let mut acc: i128 = 0;
    let mut i: usize = 0;
    while i < n
        invariant
            n == txs@.len(),
            i <= n,
            acc == flow_sum(txs@.subrange(0, i as int), c, opt_text(ym), income),
        decreases n - i,
    {
        let tx = &txs[i];
        let mut keep = tx.currency == c && tx.is_income == income;
        if keep {
            if let Some(p) = ym {
                let b = get_year_month(tx.timestamp);
                keep = str_eq(b.as_str(), p);
            }
        }
        proof {
            lemma_flow_sum_prefix(txs@, i as int, c, opt_text(ym), income);
            lemma_flow_sum_bound(txs@.subrange(0, i + 1), c, opt_text(ym), income);
            lemma_bound_mono(i + 1, n as int);
            lemma_bound_fits(n as int);
        }
        if keep {
            acc = acc + tx.amount as i128;
        }
        i = i + 1;
    }
    assert(txs@.subrange(0, n as int) =~= txs@);
    acc
}

/// Adds a transaction under the next id and moves the balance of its currency
/// by `+amount` for income and `-amount` for expense.
pub fn add_transaction(user_data: &mut UserData, tx: Transaction) -> (r: Result<(), LedgerError>)
    requires
        old(user_data).wf(),
        old(user_data).next_tx_id < u64::MAX,
    ensures
        final(user_data).wf(),
        match transaction_issue(tx) {
            Some(issue) => r == Err::<(), LedgerError>(LedgerError::Validation(issue))
                && *final(user_data) == *old(user_data),
            None => r is Ok && added(*final(user_data), *old(user_data), tx),
        },
{
    if tx.amount <= 0 {
        return Err(LedgerError::Validation(ValidationIssue::NonPositiveAmount));
    }
    if tx.source == Some(Source::Manual) {
        if let Some(t) = tx.transaction_type {
            if t != TransactionType::Income && t != TransactionType::Expense {
                return Err(LedgerError::Validation(ValidationIssue::InvalidTransactionType));
            }
        }
    }
    let ghost old_data = *user_data;
    let id = user_data.next_tx_id;
    let mut tx = tx;
    tx.id = id;
    let currency = tx.currency;
    let delta: i128 = if tx.is_income {
        tx.amount as i128
    } else {
        -(tx.amount as i128)
    };
    user_data.transactions.push(tx);
    user_data.next_tx_id = id + 1;
    let n = user_data.transactions.len();
    proof {
        let txs = user_data.transactions@;
        assert(txs == old_data.transactions@.push(tx));
        lemma_net_sum_push(old_data.transactions@, tx, currency);
        lemma_net_sum_bound(txs, currency);
        lemma_bound_fits(n as int);
        assert forall|c: Currency| net_sum(txs, c) == net_sum(old_data.transactions@, c) + effect(tx, c) by {
            lemma_net_sum_push(old_data.transactions@, tx, c);
        }
    }
    assert(delta == effect(tx, currency));
    assert(old_data.balance_of(currency) == net_sum(old_data.transactions@, currency));
    user_data.adjust_balance(currency, delta);
    proof {
        let txs = user_data.transactions@;
        assert forall|i: int, j: int| 0 <= i < j < txs.len() implies (#[trigger] txs[i]).id
            != (#[trigger] txs[j]).id by {
            if j == txs.len() - 1 {
                assert(old_data.transactions@[i] == txs[i]);
            } else {
                assert(old_data.transactions@[i] == txs[i]);
                assert(old_data.transactions@[j] == txs[j]);
            }
        }
        assert forall|c: Currency| #[trigger] user_data.balance_of(c) == net_sum(txs, c) by {
            lemma_net_sum_push(old_data.transactions@, tx, c);
            assert(old_data.balance_of(c) == net_sum(old_data.transactions@, c));
        }
    }
    Ok(())
}

/// The position of the transaction with id `id`, if any.
fn find_transaction(txs: &Vec<Transaction>, id: u64) -> (r: Option<usize>)
    ensures
        match r {
            Some(i) => i < txs@.len() && txs@[i as int].id == id,
            None => forall|i: int| 0 <= i < txs@.len() ==> (#[trigger] txs@[i]).id != id,
        },
{
    let mut i: usize = 0;
    while i < txs.len()
        invariant
            i <= txs@.len(),
            forall|k: int| 0 <= k < i ==> (#[trigger] txs@[k]).id != id,
        decreases txs@.len() - i,
    {
        if txs[i].id == id {
            return Some(i);
        }
        i = i + 1;
    }
    None
}

/// The ledger holds a transaction with id `id`.
pub open spec fn has_transaction(txs: Seq<Transaction>, id: u64) -> bool {
    exists|i: int| 0 <= i < txs.len() && (#[trigger] txs[i]).id == id
}

/// Removes the transaction with id `tx_id` and reverses its balance effect.
pub fn delete_transaction(user_data: &mut UserData, tx_id: u64) -> (r: Result<(), LedgerError>)
    requires
        old(user_data).wf(),
    ensures
        final(user_data).wf(),
        !has_transaction(old(user_data).transactions@, tx_id) ==> r == Err::<(), LedgerError>(
            LedgerError::NotFound,
        ) && *final(user_data) == *old(user_data),
        has_transaction(old(user_data).transactions@, tx_id) ==> {
            &&& r is Ok
            &&& forall|i: int|
                0 <= i < old(user_data).transactions@.len() && (#[trigger] old(user_data).transactions@[i]).id == tx_id ==> {
                    &&& final(user_data).transactions@ == old(user_data).transactions@.remove(i)
                    &&& forall|c: Currency| #[trigger] final(user_data).balance_of(c)
                        == old(user_data).balance_of(c) - effect(old(user_data).transactions@[i], c)
                }
            &&& final(user_data).next_tx_id == old(user_data).next_tx_id
            &&& same_but_transactions(*final(user_data), *old(user_data))
        },
{
    match find_transaction(&user_data.transactions, tx_id) {
        None => Err(LedgerError::NotFound),
        Some(index) => {
            let ghost old_data = *user_data;
            let tx = user_data.transactions.remove(index);
            let currency = tx.currency;
            let delta: i128 = if tx.is_income {
                -(tx.amount as i128)
            } else {
                tx.amount as i128
            };
            let n = user_data.transactions.len();
            proof {
                let txs = user_data.transactions@;
                lemma_net_sum_remove(old_data.transactions@, index as int, currency);
                lemma_net_sum_bound(txs, currency);
                lemma_bound_fits(n as int);
                assert(old_data.balance_of(currency) == net_sum(old_data.transactions@, currency));
            }
            user_data.adjust_balance(currency, delta);
            proof {
                let txs = user_data.transactions@;
                let olds = old_data.transactions@;
                assert forall|i: int, j: int| 0 <= i < j < txs.len() implies (#[trigger] txs[i]).id
                    != (#[trigger] txs[j]).id by {
                    if i < index {
                        assert(txs[i] == olds[i]);
                    } else {
                        assert(txs[i] == olds[i + 1]);
                    }
                    if j < index {
                        assert(txs[j] == olds[j]);
                    } else {
                        assert(txs[j] == olds[j + 1]);
                    }
                }
                assert forall|i: int| 0 <= i < txs.len() implies (#[trigger] txs[i]).amount > 0
                    && txs[i].id < user_data.next_tx_id by {
                    if i < index {
                        assert(txs[i] == olds[i]);
                    } else {
                        assert(txs[i] == olds[i + 1]);
                    }
                }
                assert forall|c: Currency| #[trigger] user_data.balance_of(c) == net_sum(txs, c)
                    && user_data.balance_of(c) == old_data.balance_of(c) - effect(olds[index as int], c) by {
                    lemma_net_sum_remove(olds, index as int, c);
                    assert(old_data.balance_of(c) == net_sum(olds, c));
                }
                assert forall|i: int|
                    0 <= i < olds.len() && (#[trigger] olds[i]).id == tx_id implies i == index by {
                    if i != index {
                        if i < index {
                            assert(olds[i].id != olds[index as int].id);
                        } else {
                            assert(olds[index as int].id != olds[i].id);
                        }
                    }
                }
            }
            Ok(())
        },
    }
}

/// Replaces the transaction with id `tx_id` by `updated_tx` (which keeps that id),
/// reversing the old balance effect and applying the new one as one step.
pub fn update_transaction(user_data: &mut UserData, tx_id: u64, updated_tx: Transaction) -> (r: Result<(), LedgerError>)
    requires
        old(user_data).wf(),
    ensures
        final(user_data).wf(),
        !has_transaction(old(user_data).transactions@, tx_id) ==> r == Err::<(), LedgerError>(
            LedgerError::NotFound,
        ) && *final(user_data) == *old(user_data),
        has_transaction(old(user_data).transactions@, tx_id) && transaction_issue(updated_tx) is Some
            ==> r == Err::<(), LedgerError>(
            LedgerError::Validation(transaction_issue(updated_tx)->Some_0),
        ) && *final(user_data) == *old(user_data),
        has_transaction(old(user_data).transactions@, tx_id) && transaction_issue(updated_tx) is None
            ==> {
            &&& r is Ok
            &&& forall|i: int|
                0 <= i < old(user_data).transactions@.len() && (#[trigger] old(user_data).transactions@[i]).id == tx_id ==> {
                    &&& final(user_data).transactions@ == old(user_data).transactions@.update(
                        i,
                        with_id(updated_tx, tx_id),
                    )
                    &&& forall|c: Currency| #[trigger] final(user_data).balance_of(c)
                        == old(user_data).balance_of(c) - effect(old(user_data).transactions@[i], c)
                        + effect(updated_tx, c)
                }
            &&& final(user_data).next_tx_id == old(user_data).next_tx_id
            &&& same_but_transactions(*final(user_data), *old(user_data))
        },
{
    match find_transaction(&user_data.transactions, tx_id) {
        None => Err(LedgerError::NotFound),
        Some(index) => {
            if updated_tx.amount <= 0 {
                return Err(LedgerError::Validation(ValidationIssue::NonPositiveAmount));
            }
            if updated_tx.source == Some(Source::Manual) {
                if let Some(t) = updated_tx.transaction_type {
                    if t != TransactionType::Income && t != TransactionType::Expense {
                        return Err(LedgerError::Validation(ValidationIssue::InvalidTransactionType));
                    }
                }
            }
            let ghost old_data = *user_data;
            let ghost olds = old_data.transactions@;
            let old_currency = user_data.transactions[index].currency;
            let old_delta: i128 = if user_data.transactions[index].is_income {
                -(user_data.transactions[index].amount as i128)
            } else {
                user_data.transactions[index].amount as i128
            };
            let ghost old_tx = olds[index as int];
            let mut new_tx = updated_tx;
            new_tx.id = tx_id;
            let new_currency = new_tx.currency;
            let new_delta: i128 = if new_tx.is_income {
                new_tx.amount as i128
            } else {
                -(new_tx.amount as i128)
            };
            let n = user_data.transactions.len();
            proof {
                lemma_net_sum_remove(olds, index as int, old_currency);
                lemma_net_sum_bound(olds.remove(index as int), old_currency);
                lemma_bound_fits(n as int);
                lemma_bound_mono(n - 1, n as int);
                assert(old_data.balance_of(old_currency) == net_sum(olds, old_currency));
            }
            user_data.adjust_balance(old_currency, old_delta);
            proof {
                lemma_net_sum_update(olds, index as int, new_tx, new_currency);
                lemma_net_sum_bound(olds.update(index as int, new_tx), new_currency);
                assert(old_data.balance_of(new_currency) == net_sum(olds, new_currency));
                assert(new_delta == effect(new_tx, new_currency));
            }
            user_data.adjust_balance(new_currency, new_delta);
            user_data.transactions.set(index, new_tx);
            proof {
                let txs = user_data.transactions@;
                assert(txs == olds.update(index as int, new_tx));
                assert forall|i: int, j: int| 0 <= i < j < txs.len() implies (#[trigger] txs[i]).id
                    != (#[trigger] txs[j]).id by {
                    assert(olds[i].id != olds[j].id);
                }
                assert forall|i: int| 0 <= i < txs.len() implies (#[trigger] txs[i]).amount > 0
                    && txs[i].id < user_data.next_tx_id by {
                    assert(olds[i].id < old_data.next_tx_id);
                }
                assert forall|c: Currency| #[trigger] user_data.balance_of(c) == net_sum(txs, c)
                    && user_data.balance_of(c) == old_data.balance_of(c) - effect(old_tx, c) + effect(new_tx, c) by {
                    lemma_net_sum_update(olds, index as int, new_tx, c);
                    assert(old_data.balance_of(c) == net_sum(olds, c));
                }
                assert forall|i: int|
                    0 <= i < olds.len() && (#[trigger] olds[i]).id == tx_id implies i == index by {
                    if i != index {
                        if i < index {
                            assert(olds[i].id != olds[index as int].id);
                        } else {
                            assert(olds[index as int].id != olds[i].id);
                        }
                    }
                }
                assert forall|c: Currency| effect(new_tx, c) == effect(updated_tx, c) by {}
            }
            Ok(())
        },
    }
}

/// Every transaction, in ledger order.
pub fn get_transactions(user_data: &UserData) -> (r: &Vec<Transaction>)
    ensures
        r@ == user_data.transactions@,
{
    &user_data.transactions
}

/// The transactions whose time stamp falls in the month `year_month` ("YYYY-MM").
pub fn get_transactions_by_period(user_data: &UserData, year_month: &str) -> (r: Vec<Transaction>)
    ensures
        r@ == selected(user_data.transactions@, TxFilter::Period(year_month)),
{
    select_transactions(&user_data.transactions, TxFilter::Period(year_month))
}

/// The income (or the expense) transactions.
pub fn get_transactions_by_type(user_data: &UserData, is_income: bool) -> (r: Vec<Transaction>)
    ensures
        r@ == selected(user_data.transactions@, TxFilter::Income(is_income)),
{
    select_transactions(&user_data.transactions, TxFilter::Income(is_income))
}

/// The transactions of one category.
pub fn get_transactions_by_category(user_data: &UserData, category: &str) -> (r: Vec<Transaction>)
    ensures
        r@ == selected(user_data.transactions@, TxFilter::Category(category)),
{
    select_transactions(&user_data.transactions, TxFilter::Category(category))
}

/// The transactions in one currency.
pub fn get_transactions_by_currency(user_data: &UserData, currency: Currency) -> (r: Vec<Transaction>)
    ensures
        r@ == selected(user_data.transactions@, TxFilter::InCurrency(currency)),
{
    select_transactions(&user_data.transactions, TxFilter::InCurrency(currency))
}

/// The transactions recorded from one source.
pub fn get_transactions_by_source(user_data: &UserData, source: Source) -> (r: Vec<Transaction>)
    ensures
        r@ == selected(user_data.transactions@, TxFilter::FromSource(source)),
{
    select_transactions(&user_data.transactions, TxFilter::FromSource(source))
}

/// The income total of `currency`, over the month `year_month` when one is given.
pub fn get_total_income(user_data: &UserData, currency: Currency, year_month: Option<&str>) -> (r: i128)
    ensures
        r == flow_sum(user_data.transactions@, currency, opt_text(year_month), true),
{
    flow_total(&user_data.transactions, currency, year_month, true)
}

/// The expense total of `currency`, over the month `year_month` when one is given.
pub fn get_total_expense(user_data: &UserData, currency: Currency, year_month: Option<&str>) -> (r: i128)
    ensures
        r == flow_sum(user_data.transactions@, currency, opt_text(year_month), false),
{
    flow_total(&user_data.transactions, currency, year_month, false)
}

/// Income minus expense of `currency`, recomputed from the transactions
/// (restricted to the month `year_month` when one is given).
pub fn get_balance(user_data: &UserData, currency: Currency, year_month: Option<&str>) -> (r: i128)
    requires
        user_data.wf(),
    ensures
        r == flow_sum(user_data.transactions@, currency, opt_text(year_month), true)
            - flow_sum(user_data.transactions@, currency, opt_text(year_month), false),
{
    let income = get_total_income(user_data, currency, year_month);
    let expense = get_total_expense(user_data, currency, year_month);
    let n = user_data.transactions.len();
    proof {
        lemma_flows_nonneg(user_data.transactions@, currency, opt_text(year_month));
        lemma_bound_fits(n as int);
    }
    income - expense
}

/// The balance invariant: in a well-formed record, which every transaction
/// operation leaves well-formed, each running balance equals the income total
/// minus the expense total of its currency over the transactions present.
pub proof fn lemma_balance_invariant(user_data: UserData, c: Currency)
    requires
        user_data.wf(),
    ensures
        user_data.balance_of(c) == flow_sum(user_data.transactions@, c, None, true) - flow_sum(
            user_data.transactions@,
            c,
            None,
            false,
        ),
{
    crate::models::lemma_net_is_income_minus_expense(user_data.transactions@, c);
}

/// Ids increase and are fresh: a successful add raises the next transaction
/// id, and the id it hands out belongs to no transaction present before,
/// whatever was deleted earlier.
pub proof fn lemma_add_issues_fresh_id(old: UserData, new: UserData, tx: Transaction)
    requires
        old.wf(),
        added(new, old, tx),
    ensures
        new.next_tx_id > old.next_tx_id,
        new.transactions@.last().id == old.next_tx_id,
        forall|i: int|
            0 <= i < old.transactions@.len() ==> (#[trigger] old.transactions@[i]).id
                != new.transactions@.last().id,
{
}

/// Ids are never reused: in a well-formed record every present id, of every
/// kind, lies below the next id of its kind, which each add hands out and then
/// increments, and which no operation ever lowers.
pub proof fn lemma_ids_below_next(user_data: UserData)
    requires
        user_data.wf(),
    ensures
        forall|i: int|
            0 <= i < user_data.transactions@.len() ==> (#[trigger] user_data.transactions@[i]).id
                < user_data.next_tx_id,
        forall|i: int|
            0 <= i < user_data.budgets@.len() ==> (#[trigger] user_data.budgets@[i]).id
                < user_data.next_budget_id,
        forall|i: int|
            0 <= i < user_data.goals@.len() ==> (#[trigger] user_data.goals@[i]).id
                < user_data.next_goal_id,
        forall|i: int|
            0 <= i < user_data.notifications@.len() ==> (#[trigger] user_data.notifications@[i]).id
                < user_data.next_notification_id,
{
}

} // verus!
