//! The exposed operations: each takes the caller's identity (its principal
//! bytes) explicitly, refuses the anonymous caller on every mutation, builds
//! the entity from plain arguments and hands it to one engine. The caller loads
//! the record before and stores it back only on success.
use vstd::prelude::*;
use crate::budget::{budgets_recomputed, key_taken, refreshed, same_but_budgets};
use crate::goal::{same_but_goals, with_status};
use crate::models::{
    currency_of_text, effect, empty_rates, priority_of_text, Budget, Currency, CurrencyRate, Goal,
    GoalStatus, LedgerError, Notification, Priority, Source, Transaction, TransactionType,
    UserData, ValidationIssue,
};
use crate::notification::{notes_selected, NoteFilter};
use crate::text::{blank, bytes_eq, is_blank, str_eq};
use crate::transaction::same_but_transactions;

verus! {

/// The principal bytes of the anonymous caller.
pub open spec fn anonymous_caller(caller: Seq<u8>) -> bool {
    caller == seq![4u8]
}

/// Relies on candid's `Principal::anonymous`, whose byte form is the single
/// tag byte 4.
#[verifier::external_body]
fn anonymous_principal_bytes() -> (r: Vec<u8>)
    ensures
        r@ == seq![4u8],
{
    candid::Principal::anonymous().as_slice().to_vec()
}

/// Whether `caller` is the anonymous principal.
pub fn is_anonymous(caller: &[u8]) -> (r: bool)
    ensures
        r == anonymous_caller(caller@),
{
    let anonymous = anonymous_principal_bytes();
    bytes_eq(caller, anonymous.as_slice())
}

/// Refuses the anonymous caller.
pub fn authenticate(caller: &[u8]) -> (r: Result<(), LedgerError>)
    ensures
        anonymous_caller(caller@) ==> r == Err::<(), LedgerError>(LedgerError::AuthenticationRequired),
        !anonymous_caller(caller@) ==> r is Ok,
{
    if is_anonymous(caller) {
        Err(LedgerError::AuthenticationRequired)
    } else {
        Ok(())
    }
}

/// `tx` is the manual USD entry built from the given arguments.
pub open spec fn manual_entry(
    tx: Transaction,
    amount: i64,
    description: Seq<char>,
    is_income: bool,
    category: Seq<char>,
    date: Seq<char>,
    now: u64,
) -> bool {
    &&& tx.amount == amount
    &&& tx.currency == Currency::Usd
    &&& tx.description@ == description
    &&& tx.is_income == is_income
    &&& tx.timestamp == now
    &&& tx.date@ == date
    &&& tx.category@ == category
    &&& tx.converted_amount is None
    &&& tx.converted_currency is None
    &&& tx.conversion_rate is None
    &&& tx.transaction_type == Some(
        if is_income {
            TransactionType::Income
        } else {
            TransactionType::Expense
        },
    )
    &&& tx.source == Some(Source::Manual)
    &&& tx.txid is None
    &&& tx.confirmations is None
    &&& tx.fee is None
}

/// The record gained `tx` under the next id, with the balances following.
pub open spec fn appended(new: UserData, old: UserData) -> bool {
    &&& new.transactions@.len() == old.transactions@.len() + 1
    &&& new.transactions@.drop_last() == old.transactions@
    &&& new.transactions@.last().id == old.next_tx_id
    &&& new.next_tx_id == old.next_tx_id + 1
    &&& forall|c: Currency| #[trigger] new.balance_of(c) == old.balance_of(c) + effect(
        new.transactions@.last(),
        c,
    )
    &&& same_but_transactions(new, old)
}

fn record_manual(
    user_data: &mut UserData,
    amount: i64,
    description: String,
    is_income: bool,
    category: String,
    date: String,
    now: u64,
) -> (r: Result<(), LedgerError>)
    requires
        old(user_data).wf(),
        old(user_data).next_tx_id < u64::MAX,
        amount > 0,
    ensures
        final(user_data).wf(),
        r is Ok,
        appended(*final(user_data), *old(user_data)),
        manual_entry(
            final(user_data).transactions@.last(),
            amount,
            description@,
            is_income,
            category@,
            date@,
            now,
        ),
{
    let tx = Transaction {
        id: user_data.next_tx_id,
        amount,
        currency: Currency::Usd,
        description,
        is_income,
        timestamp: now,
        date,
        category,
        converted_amount: None,
        converted_currency: None,
        conversion_rate: None,
        transaction_type: Some(
            if is_income {
                TransactionType::Income
            } else {
                TransactionType::Expense
            },
        ),
        source: Some(Source::Manual),
        txid: None,
        confirmations: None,
        fee: None,
    };
    let r = crate::transaction::add_transaction(user_data, tx);
    proof {
        assert(user_data.transactions@.drop_last() =~= old(user_data).transactions@);
    }
    r
}

/// Records a manual USD income or expense for the caller.
pub fn add_transaction(
    caller: &[u8],
    user_data: &mut UserData,
    amount: i64,
    description: String,
    is_income: bool,
    category: String,
    date: String,
    now: u64,
) -> (r: Result<(), LedgerError>)
    requires
        old(user_data).wf(),
        old(user_data).next_tx_id < u64::MAX,
    ensures
        final(user_data).wf(),
        anonymous_caller(caller@) ==> r == Err::<(), LedgerError>(LedgerError::AuthenticationRequired)
            && *final(user_data) == *old(user_data),
        !anonymous_caller(caller@) && amount <= 0 ==> r == Err::<(), LedgerError>(
            LedgerError::Validation(ValidationIssue::NonPositiveAmount),
        ) && *final(user_data) == *old(user_data),
        !anonymous_caller(caller@) && amount > 0 ==> {
            &&& r is Ok
            &&& appended(*final(user_data), *old(user_data))
            &&& manual_entry(
                final(user_data).transactions@.last(),
                amount,
                description@,
                is_income,
                category@,
                date@,
                now,
            )
        },
{
    authenticate(caller)?;
    if amount <= 0 {
        return Err(LedgerError::Validation(ValidationIssue::NonPositiveAmount));
    }
    record_manual(user_data, amount, description, is_income, category, date, now)
}

/// The first rule that the arguments of a typed manual entry break, if any.
pub open spec fn manual_issue(
    amount: i64,
    description: Seq<char>,
    transaction_type: Seq<char>,
    category: Seq<char>,
    date: Seq<char>,
) -> Option<ValidationIssue> {
    if amount <= 0 {
        Some(ValidationIssue::NonPositiveAmount)
    } else if blank(description) {
        Some(ValidationIssue::EmptyField)
    } else if transaction_type != "income"@ && transaction_type != "expense"@ {
        Some(ValidationIssue::InvalidTransactionType)
    } else if blank(category) || blank(date) {
        Some(ValidationIssue::EmptyField)
    } else {
        None
    }
}

/// Records a manual USD entry whose type is given as "income" or "expense";
/// description, category and date must not be blank.
pub fn add_manual_transaction(
    caller: &[u8],
    user_data: &mut UserData,
    amount: i64,
    description: String,
    transaction_type: &str,
    category: String,
    date: String,
    now: u64,
) -> (r: Result<(), LedgerError>)
    requires
        old(user_data).wf(),
        old(user_data).next_tx_id < u64::MAX,
    ensures
        final(user_data).wf(),
        anonymous_caller(caller@) ==> r == Err::<(), LedgerError>(LedgerError::AuthenticationRequired)
            && *final(user_data) == *old(user_data),
        !anonymous_caller(caller@) && manual_issue(
            amount,
            description@,
            transaction_type@,
            category@,
            date@,
        ) is Some ==> r == Err::<(), LedgerError>(
            LedgerError::Validation(
                manual_issue(amount, description@, transaction_type@, category@, date@)->Some_0,
            ),
        ) && *final(user_data) == *old(user_data),
        !anonymous_caller(caller@) && manual_issue(
            amount,
            description@,
            transaction_type@,
            category@,
            date@,
        ) is None ==> {
            &&& r is Ok
            &&& appended(*final(user_data), *old(user_data))
            &&& manual_entry(
                final(user_data).transactions@.last(),
                amount,
                description@,
                transaction_type@ == "income"@,
                category@,
                date@,
                now,
            )
        },
{
    authenticate(caller)?;
    if amount <= 0 {
        return Err(LedgerError::Validation(ValidationIssue::NonPositiveAmount));
    }
    if is_blank(description.as_str()) {
        return Err(LedgerError::Validation(ValidationIssue::EmptyField));
    }
    let is_income = str_eq(transaction_type, "income");
    if !is_income && !str_eq(transaction_type, "expense") {
        return Err(LedgerError::Validation(ValidationIssue::InvalidTransactionType));
    }
    if is_blank(category.as_str()) || is_blank(date.as_str()) {
        return Err(LedgerError::Validation(ValidationIssue::EmptyField));
    }
    record_manual(user_data, amount, description, is_income, category, date, now)
}

/// Adds a budget for the caller; `currency` is a currency code.
pub fn add_budget(
    caller: &[u8],
    user_data: &mut UserData,
    category: String,
    budget: i64,
    currency: &str,
    period: String,
    now: u64,
) -> (r: Result<(), LedgerError>)
    requires
        old(user_data).wf(),
        old(user_data).next_budget_id < u64::MAX,
    ensures
        final(user_data).wf(),
        anonymous_caller(caller@) ==> r == Err::<(), LedgerError>(LedgerError::AuthenticationRequired)
            && *final(user_data) == *old(user_data),
        !anonymous_caller(caller@) && currency_of_text(currency@) is None ==> r == Err::<
            (),
            LedgerError,
        >(LedgerError::Validation(ValidationIssue::InvalidCurrency)) && *final(user_data) == *old(user_data),
        !anonymous_caller(caller@) && currency_of_text(currency@) is Some ==> ({
            let b = Budget {
                id: old(user_data).next_budget_id,
                category,
                budget,
                spent: 0,
                currency: currency_of_text(currency@)->Some_0,
                period,
                created_at: now,
                updated_at: now,
            };
            &&& budget <= 0 ==> r == Err::<(), LedgerError>(
                LedgerError::Validation(ValidationIssue::NonPositiveAmount),
            ) && *final(user_data) == *old(user_data)
            &&& budget > 0 && key_taken(old(user_data).budgets@, b, -1) ==> r == Err::<
                (),
                LedgerError,
            >(LedgerError::Conflict) && *final(user_data) == *old(user_data)
            &&& budget > 0 && !key_taken(old(user_data).budgets@, b, -1) ==> {
                &&& r is Ok
                &&& final(user_data).budgets@.drop_last() == old(user_data).budgets@
                &&& final(user_data).budgets@.len() == old(user_data).budgets@.len() + 1
                &&& refreshed(
                    final(user_data).budgets@.last(),
                    b,
                    old(user_data).transactions@,
                    now,
                )
                &&& final(user_data).next_budget_id == old(user_data).next_budget_id + 1
                &&& same_but_budgets(*final(user_data), *old(user_data))
            }
        }),
{
    authenticate(caller)?;
    let c = match Currency::parse(currency) {
        Some(c) => c,
        None => return Err(LedgerError::Validation(ValidationIssue::InvalidCurrency)),
    };
    let b = Budget {
        id: user_data.next_budget_id,
        category,
        budget,
        spent: 0,
        currency: c,
        period,
        created_at: now,
        updated_at: now,
    };
    crate::budget::add_budget(user_data, b, now)
}

/// Recomputes every budget's spent amount for the caller.
pub fn update_budget_spent(caller: &[u8], user_data: &mut UserData, now: u64) -> (r: Result<(), LedgerError>)
    requires
        old(user_data).wf(),
    ensures
        final(user_data).wf(),
        anonymous_caller(caller@) ==> r == Err::<(), LedgerError>(LedgerError::AuthenticationRequired)
            && *final(user_data) == *old(user_data),
        !anonymous_caller(caller@) ==> {
            &&& r is Ok
            &&& budgets_recomputed(
                final(user_data).budgets@,
                old(user_data).budgets@,
                old(user_data).transactions@,
                now,
            )
            &&& final(user_data).next_budget_id == old(user_data).next_budget_id
            &&& same_but_budgets(*final(user_data), *old(user_data))
        },
{
    authenticate(caller)?;
    crate::budget::update_budget_spent(user_data, now)
}

/// The first rule that the arguments of a new goal break, if any.
pub open spec fn goal_args_issue(
    target_amount: i64,
    current_amount: i64,
    currency: Seq<char>,
    priority: Seq<char>,
) -> Option<ValidationIssue> {
    if currency_of_text(currency) is None {
        Some(ValidationIssue::InvalidCurrency)
    } else if target_amount <= 0 {
        Some(ValidationIssue::NonPositiveAmount)
    } else if priority_of_text(priority) is None {
        Some(ValidationIssue::InvalidPriority)
    } else if current_amount < 0 {
        Some(ValidationIssue::NegativeAmount)
    } else {
        None
    }
}

/// Adds a savings goal for the caller; `currency` and `priority` are codes.
pub fn add_goal(
    caller: &[u8],
    user_data: &mut UserData,
    title: String,
    description: String,
    target_amount: i64,
    current_amount: i64,
    currency: &str,
    deadline: String,
    category: String,
    priority: &str,
    now: u64,
) -> (r: Result<(), LedgerError>)
    requires
        old(user_data).wf(),
        old(user_data).next_goal_id < u64::MAX,
    ensures
        final(user_data).wf(),
        anonymous_caller(caller@) ==> r == Err::<(), LedgerError>(LedgerError::AuthenticationRequired)
            && *final(user_data) == *old(user_data),
        !anonymous_caller(caller@) && goal_args_issue(
            target_amount,
            current_amount,
            currency@,
            priority@,
        ) is Some ==> r == Err::<(), LedgerError>(
            LedgerError::Validation(
                goal_args_issue(target_amount, current_amount, currency@, priority@)->Some_0,
            ),
        ) && *final(user_data) == *old(user_data),
        !anonymous_caller(caller@) && goal_args_issue(
            target_amount,
            current_amount,
            currency@,
            priority@,
        ) is None ==> {
            &&& r is Ok
            &&& final(user_data).goals@ == old(user_data).goals@.push(
                with_status(
                    Goal {
                        id: old(user_data).next_goal_id,
                        title,
                        description,
                        target_amount,
                        current_amount,
                        currency: currency_of_text(currency@)->Some_0,
                        deadline,
                        category,
                        priority: priority_of_text(priority@)->Some_0,
                        status: GoalStatus::Active,
                        created_at: now,
                        updated_at: now,
                    },
                ),
            )
            &&& final(user_data).next_goal_id == old(user_data).next_goal_id + 1
            &&& same_but_goals(*final(user_data), *old(user_data))
        },
{
    authenticate(caller)?;
    let c = match Currency::parse(currency) {
        Some(c) => c,
        None => return Err(LedgerError::Validation(ValidationIssue::InvalidCurrency)),
    };
    if target_amount <= 0 {
        return Err(LedgerError::Validation(ValidationIssue::NonPositiveAmount));
    }
    let p = match Priority::parse(priority) {
        Some(p) => p,
        None => return Err(LedgerError::Validation(ValidationIssue::InvalidPriority)),
    };
    let goal = Goal {
        id: user_data.next_goal_id,
        title,
        description,
        target_amount,
        current_amount,
        currency: c,
        deadline,
        category,
        priority: p,
        status: GoalStatus::Active,
        created_at: now,
        updated_at: now,
    };
    crate::goal::add_goal(user_data, goal, now)
}

/// The notifications to show: those of `category` when one is given (none for
/// an unknown category), else all of them or only the unread ones.
pub fn get_notifications(user_data: &UserData, category: Option<&str>, show_read: bool) -> (r: Vec<Notification>)
    ensures
        r@ == match category {
            Some(c) => match crate::models::notification_category_of_text(c@) {
                Some(cat) => notes_selected(user_data.notifications@, NoteFilter::InCategory(cat)),
                None => Seq::empty(),
            },
            None => if show_read {
                user_data.notifications@
            } else {
                notes_selected(user_data.notifications@, NoteFilter::Unread)
            },
        },
{
    match category {
        Some(c) => match crate::models::NotificationCategory::parse(c) {
            Some(cat) => crate::notification::get_notifications_by_category(user_data, cat),
            None => Vec::new(),
        },
        None => if show_read {
            let ns = &user_data.notifications;
            let mut out: Vec<Notification> = Vec::new();
            let mut i: usize = 0;
            while i < ns.len()
                invariant
                    i <= ns@.len(),
                    out@ == ns@.subrange(0, i as int),
                decreases ns@.len() - i,
            {
                out.push(ns[i].cloned());
                proof {
                    assert(out@ =~= ns@.subrange(0, i + 1));
                }
                i = i + 1;
            }
            proof {
                assert(ns@.subrange(0, ns@.len() as int) =~= ns@);
            }
            out
        } else {
            crate::notification::get_unread_notifications(user_data)
        },
    }
}

/// Marks one of the caller's notifications as read.
pub fn mark_notification_read(caller: &[u8], user_data: &mut UserData, notification_id: u64) -> (r: Result<(), LedgerError>)
    requires
        old(user_data).wf(),
    ensures
        final(user_data).wf(),
        anonymous_caller(caller@) ==> r == Err::<(), LedgerError>(LedgerError::AuthenticationRequired)
            && *final(user_data) == *old(user_data),
        !anonymous_caller(caller@) && !crate::notification::has_notification(
            old(user_data).notifications@,
            notification_id,
        ) ==> r == Err::<(), LedgerError>(LedgerError::NotFound) && *final(user_data) == *old(user_data),
        !anonymous_caller(caller@) && crate::notification::has_notification(
            old(user_data).notifications@,
            notification_id,
        ) ==> {
            &&& r is Ok
            &&& forall|i: int|
                0 <= i < old(user_data).notifications@.len() && (#[trigger] old(user_data).notifications@[i]).id == notification_id ==> final(user_data).notifications@
                    == old(user_data).notifications@.update(
                    i,
                    Notification { is_read: true, ..old(user_data).notifications@[i] },
                )
            &&& crate::notification::same_but_notifications(*final(user_data), *old(user_data))
            &&& final(user_data).next_notification_id == old(user_data).next_notification_id
        },
{
    authenticate(caller)?;
    crate::notification::mark_notification_read(user_data, notification_id)
}

/// Registers the caller's address on `chain`.
pub fn set_wallet_address(caller: &[u8], user_data: &mut UserData, chain: String, address: String) -> (r: Result<(), LedgerError>)
    requires
        old(user_data).wf(),
    ensures
        final(user_data).wf(),
        anonymous_caller(caller@) ==> r == Err::<(), LedgerError>(LedgerError::AuthenticationRequired)
            && *final(user_data) == *old(user_data),
        !anonymous_caller(caller@) && (chain@.len() == 0 || address@.len() == 0) ==> r == Err::<
            (),
            LedgerError,
        >(LedgerError::Validation(ValidationIssue::EmptyField)) && *final(user_data) == *old(user_data),
        !anonymous_caller(caller@) && chain@.len() > 0 && address@.len() > 0 ==> {
            &&& r is Ok
            &&& forall|c: Seq<char>| #[trigger] crate::models::address_for(
                final(user_data).wallet_addresses@,
                c,
            ) == if c == chain@ {
                Some(address@)
            } else {
                crate::models::address_for(old(user_data).wallet_addresses@, c)
            }
            &&& crate::user::same_but_wallets(*final(user_data), *old(user_data))
        },
{
    authenticate(caller)?;
    crate::user::set_wallet_address(user_data, chain, address)
}

/// Stores the caller's own snapshot of the tracked rates, stamped `now`.
pub fn update_currency_rates(
    caller: &[u8],
    user_data: &mut UserData,
    usd_to_idr: u64,
    btc_to_usd: u64,
    eth_to_usd: u64,
    sol_to_usd: u64,
    now: u64,
) -> (r: Result<(), LedgerError>)
    requires
        old(user_data).wf(),
    ensures
        final(user_data).wf(),
        anonymous_caller(caller@) ==> r == Err::<(), LedgerError>(LedgerError::AuthenticationRequired)
            && *final(user_data) == *old(user_data),
        !anonymous_caller(caller@) ==> r is Ok && *final(user_data) == (UserData {
            currency_rates: CurrencyRate {
                usd_to_idr,
                btc_to_usd,
                eth_to_usd,
                sol_to_usd,
                last_updated: now,
            },
            ..*old(user_data)
        }),
{
    authenticate(caller)?;
    let ghost old_data = *user_data;
    user_data.currency_rates = CurrencyRate { usd_to_idr, btc_to_usd, eth_to_usd, sol_to_usd, last_updated: now };
    proof {
        old_data.lemma_balances_carry(*user_data);
    }
    Ok(())
}

/// A record read for display gets empty rates stamped `now` while its USD/IDR
/// rate is not loaded.
pub fn initialize_rates(user_data: &mut UserData, now: u64)
    requires
        old(user_data).wf(),
    ensures
        final(user_data).wf(),
        old(user_data).currency_rates.usd_to_idr == 0 ==> *final(user_data) == (UserData {
            currency_rates: empty_rates(now),
            ..*old(user_data)
        }),
        old(user_data).currency_rates.usd_to_idr != 0 ==> *final(user_data) == *old(user_data),
{
    if user_data.currency_rates.usd_to_idr == 0 {
        let ghost old_data = *user_data;
        user_data.currency_rates = crate::currency::get_empty_currency_rates(now);
        proof {
            old_data.lemma_balances_carry(*user_data);
        }
    }
}

/// Sets one rate of the shared table on the caller's behalf.
pub fn set_currency_rate(caller: &[u8], rates: &mut crate::currency::RateTable, from: &str, to: &str, rate: u64) -> (r: Result<(), LedgerError>)
    requires
        old(rates).wf(),
    ensures
        final(rates).wf(),
        anonymous_caller(caller@) ==> r == Err::<(), LedgerError>(LedgerError::AuthenticationRequired)
            && *final(rates) == *old(rates),
        !anonymous_caller(caller@) && (currency_of_text(from@) is None || currency_of_text(to@) is None)
            ==> r == Err::<(), LedgerError>(LedgerError::Validation(ValidationIssue::InvalidCurrency))
            && *final(rates) == *old(rates),
        !anonymous_caller(caller@) && currency_of_text(from@) is Some && currency_of_text(to@) is Some
            ==> {
            &&& r is Ok
            &&& forall|a: Currency, b: Currency| #[trigger] final(rates).rate(a, b) == if a
                == currency_of_text(from@)->Some_0 && b == currency_of_text(to@)->Some_0 {
                Some(rate)
            } else {
                old(rates).rate(a, b)
            }
        },
{
    authenticate(caller)?;
    crate::currency::update_rate(rates, from, to, rate)
}

/// The caller's registered BTC address, which the balance and output queries
/// of the chain source need; `NotFound` when none is registered.
pub fn btc_address(caller: &[u8], user_data: &UserData) -> (r: Result<String, LedgerError>)
    requires
        user_data.wf(),
    ensures
        anonymous_caller(caller@) ==> r == Err::<String, LedgerError>(LedgerError::AuthenticationRequired),
        !anonymous_caller(caller@) ==> match crate::models::address_for(
            user_data.wallet_addresses@,
            "BTC"@,
        ) {
            Some(a) => r is Ok && r->Ok_0@ == a,
            None => r == Err::<String, LedgerError>(LedgerError::NotFound),
        },
{
    authenticate(caller)?;
    match crate::user::get_wallet_address(user_data, "BTC") {
        Some(a) => Ok(a),
        None => Err(LedgerError::NotFound),
    }
}

/// Records the outputs fetched for the caller's BTC address, skipping those
/// already recorded; returns how many were added. `NotFound`, with the record
/// unchanged, when the caller has no BTC address.
pub fn sync_blockchain_transactions(
    caller: &[u8],
    user_data: &mut UserData,
    utxos_response: &crate::bitcoin::GetUtxosResponse,
    now: u64,
) -> (r: Result<u64, LedgerError>)
    requires
        old(user_data).wf(),
        old(user_data).next_tx_id + utxos_response.utxos@.len() <= u64::MAX,
    ensures
        final(user_data).wf(),
        anonymous_caller(caller@) ==> r == Err::<u64, LedgerError>(LedgerError::AuthenticationRequired)
            && *final(user_data) == *old(user_data),
        !anonymous_caller(caller@) && crate::models::address_for(
            old(user_data).wallet_addresses@,
            "BTC"@,
        ) is None ==> r == Err::<u64, LedgerError>(LedgerError::NotFound) && *final(user_data)
            == *old(user_data),
        !anonymous_caller(caller@) && crate::models::address_for(
            old(user_data).wallet_addresses@,
            "BTC"@,
        ) is Some ==> ({
            let fresh = crate::bitcoin::fresh_utxos(old(user_data).transactions@, utxos_response.utxos@);
            let n0 = old(user_data).transactions@.len();
            &&& r == Ok::<u64, LedgerError>(fresh.len() as u64)
            &&& final(user_data).transactions@.len() == n0 + fresh.len()
            &&& final(user_data).transactions@.subrange(0, n0 as int) == old(user_data).transactions@
            &&& forall|k: int|
                0 <= k < fresh.len() ==> crate::bitcoin::synced_tx(
                    #[trigger] final(user_data).transactions@[n0 + k],
                    fresh[k],
                    (old(user_data).next_tx_id + k) as u64,
                    now,
                )
            &&& final(user_data).next_tx_id == old(user_data).next_tx_id + fresh.len()
            &&& same_but_transactions(*final(user_data), *old(user_data))
        }),
{
    if is_anonymous(caller) {
        return Err(LedgerError::AuthenticationRequired);
    }
    if crate::user::get_wallet_address(user_data, "BTC").is_none() {
        return Err(LedgerError::NotFound);
    }
    crate::bitcoin::sync_utxos_to_transactions(user_data, utxos_response, now)
}

/// Installs fetched quotes in the shared table on the caller's behalf.
pub fn fetch_real_time_rates(
    caller: &[u8],
    rates: &mut crate::currency::RateTable,
    usd_to_idr: u64,
    btc_to_usd: u64,
    eth_to_usd: u64,
    sol_to_usd: u64,
    now: u64,
) -> (r: Result<CurrencyRate, LedgerError>)
    requires
        old(rates).wf(),
    ensures
        final(rates).wf(),
        anonymous_caller(caller@) ==> r == Err::<CurrencyRate, LedgerError>(
            LedgerError::AuthenticationRequired,
        ) && *final(rates) == *old(rates),
        !anonymous_caller(caller@) && (usd_to_idr == 0 || btc_to_usd == 0 || eth_to_usd == 0
            || sol_to_usd == 0) ==> r == Err::<CurrencyRate, LedgerError>(
            LedgerError::Validation(ValidationIssue::InvalidRate),
        ) && *final(rates) == *old(rates),
        !anonymous_caller(caller@) && usd_to_idr > 0 && btc_to_usd > 0 && eth_to_usd > 0
            && sol_to_usd > 0 ==> r == Ok::<CurrencyRate, LedgerError>(
            CurrencyRate { usd_to_idr, btc_to_usd, eth_to_usd, sol_to_usd, last_updated: now },
        ) && crate::currency::quotes_installed(
            *final(rates),
            *old(rates),
            usd_to_idr,
            btc_to_usd,
            eth_to_usd,
            sol_to_usd,
        ),
{
    if is_anonymous(caller) {
        return Err(LedgerError::AuthenticationRequired);
    }
    crate::currency::apply_fetched_rates(rates, usd_to_idr, btc_to_usd, eth_to_usd, sol_to_usd, now)
}

} // verus!
