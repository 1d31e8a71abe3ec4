//! The ledger's data model: closed code sets, the record types and the
//! per-user `UserData` aggregate with its well-formedness invariant.
use vstd::prelude::*;
use crate::text::str_eq;
use crate::utils::year_month_text;

verus! {

/// Fixed-point scale of exchange rates: a stored rate `r` means `r / RATE_SCALE`.
pub const RATE_SCALE: u64 = 100_000_000;

/// Money amounts are integers in the smallest unit of their currency
/// (1e-8 of a coin or a dollar; a satoshi for BTC).
pub const AMOUNT_SCALE: u64 = 100_000_000;

/// The closed set of assets the ledger keeps balances and rates for.
#[derive(Clone, Copy, Debug, PartialEq, Eq, Structural)]
pub enum Currency {
    Usd,
    Idr,
    Btc,
    Eth,
    Sol,
}

/// The currency whose code is `s`, if any.
pub open spec fn currency_of_text(s: Seq<char>) -> Option<Currency> {
    if s == "USD"@ {
        Some(Currency::Usd)
    } else if s == "IDR"@ {
        Some(Currency::Idr)
    } else if s == "BTC"@ {
        Some(Currency::Btc)
    } else if s == "ETH"@ {
        Some(Currency::Eth)
    } else if s == "SOL"@ {
        Some(Currency::Sol)
    } else {
        None
    }
}

impl Currency {
    pub open spec fn text(self) -> Seq<char> {
        match self {
            Currency::Usd => "USD"@,
            Currency::Idr => "IDR"@,
            Currency::Btc => "BTC"@,
            Currency::Eth => "ETH"@,
            Currency::Sol => "SOL"@,
        }
    }

    /// The currency code, such as "USD".
    pub fn as_str(&self) -> (r: &'static str)
        ensures
            r@ == self.text(),
    {
        match self {
            Currency::Usd => "USD",
            Currency::Idr => "IDR",
            Currency::Btc => "BTC",
            Currency::Eth => "ETH",
            Currency::Sol => "SOL",
        }
    }

    /// Reads a currency code; `None` for a code outside the supported set.
    pub fn parse(s: &str) -> (r: Option<Currency>)
        ensures
            r == currency_of_text(s@),
    {
        if str_eq(s, "USD") {
            Some(Currency::Usd)
        } else if str_eq(s, "IDR") {
            Some(Currency::Idr)
        } else if str_eq(s, "BTC") {
            Some(Currency::Btc)
        } else if str_eq(s, "ETH") {
            Some(Currency::Eth)
        } else if str_eq(s, "SOL") {
            Some(Currency::Sol)
        } else {
            None
        }
    }
}

/// What kind of movement a transaction records.
#[derive(Clone, Copy, Debug, PartialEq, Eq, Structural)]
pub enum TransactionType {
    Income,
    Expense,
    Received,
    Sent,
}

pub open spec fn transaction_type_of_text(s: Seq<char>) -> Option<TransactionType> {
    if s == "income"@ {
        Some(TransactionType::Income)
    } else if s == "expense"@ {
        Some(TransactionType::Expense)
    } else if s == "received"@ {
        Some(TransactionType::Received)
    } else if s == "sent"@ {
        Some(TransactionType::Sent)
    } else {
        None
    }
}

impl TransactionType {
    pub open spec fn text(self) -> Seq<char> {
        match self {
            TransactionType::Income => "income"@,
            TransactionType::Expense => "expense"@,
            TransactionType::Received => "received"@,
            TransactionType::Sent => "sent"@,
        }
    }

    pub fn as_str(&self) -> (r: &'static str)
        ensures
            r@ == self.text(),
    {
        match self {
            TransactionType::Income => "income",
            TransactionType::Expense => "expense",
            TransactionType::Received => "received",
            TransactionType::Sent => "sent",
        }
    }

    pub fn parse(s: &str) -> (r: Option<TransactionType>)
        ensures
            r == transaction_type_of_text(s@),
    {
        if str_eq(s, "income") {
            Some(TransactionType::Income)
        } else if str_eq(s, "expense") {
            Some(TransactionType::Expense)
        } else if str_eq(s, "received") {
            Some(TransactionType::Received)
        } else if str_eq(s, "sent") {
            Some(TransactionType::Sent)
        } else {
            None
        }
    }
}

/// Where a transaction came from.
#[derive(Clone, Copy, Debug, PartialEq, Eq, Structural)]
pub enum Source {
    Manual,
    Blockchain,
}

pub open spec fn source_of_text(s: Seq<char>) -> Option<Source> {
    if s == "manual"@ {
        Some(Source::Manual)
    } else if s == "blockchain"@ {
        Some(Source::Blockchain)
    } else {
        None
    }
}

impl Source {
    pub open spec fn text(self) -> Seq<char> {
        match self {
            Source::Manual => "manual"@,
            Source::Blockchain => "blockchain"@,
        }
    }

    pub fn as_str(&self) -> (r: &'static str)
        ensures
            r@ == self.text(),
    {
        match self {
            Source::Manual => "manual",
            Source::Blockchain => "blockchain",
        }
    }

    pub fn parse(s: &str) -> (r: Option<Source>)
        ensures
            r == source_of_text(s@),
    {
        if str_eq(s, "manual") {
            Some(Source::Manual)
        } else if str_eq(s, "blockchain") {
            Some(Source::Blockchain)
        } else {
            None
        }
    }
}

/// The priority of a savings goal.
#[derive(Clone, Copy, Debug, PartialEq, Eq, Structural)]
pub enum Priority {
    Low,
    Medium,
    High,
}

pub open spec fn priority_of_text(s: Seq<char>) -> Option<Priority> {
    if s == "low"@ {
        Some(Priority::Low)
    } else if s == "medium"@ {
        Some(Priority::Medium)
    } else if s == "high"@ {
        Some(Priority::High)
    } else {
        None
    }
}

impl Priority {
    pub open spec fn text(self) -> Seq<char> {
        match self {
            Priority::Low => "low"@,
            Priority::Medium => "medium"@,
            Priority::High => "high"@,
        }
    }

    pub fn as_str(&self) -> (r: &'static str)
        ensures
            r@ == self.text(),
    {
        match self {
            Priority::Low => "low",
            Priority::Medium => "medium",
            Priority::High => "high",
        }
    }

    pub fn parse(s: &str) -> (r: Option<Priority>)
        ensures
            r == priority_of_text(s@),
    {
        if str_eq(s, "low") {
            Some(Priority::Low)
        } else if str_eq(s, "medium") {
            Some(Priority::Medium)
        } else if str_eq(s, "high") {
            Some(Priority::High)
        } else {
            None
        }
    }
}

/// The derived status of a savings goal.
#[derive(Clone, Copy, Debug, PartialEq, Eq, Structural)]
pub enum GoalStatus {
    Active,
    Completed,
}

impl GoalStatus {
    pub open spec fn text(self) -> Seq<char> {
        match self {
            GoalStatus::Active => "active"@,
            GoalStatus::Completed => "completed"@,
        }
    }

    pub fn as_str(&self) -> (r: &'static str)
        ensures
            r@ == self.text(),
    {
        match self {
            GoalStatus::Active => "active",
            GoalStatus::Completed => "completed",
        }
    }
}

/// The severity of a notification.
#[derive(Clone, Copy, Debug, PartialEq, Eq, Structural)]
pub enum NotificationType {
    Success,
    Warning,
    Danger,
    Info,
}

pub open spec fn notification_type_of_text(s: Seq<char>) -> Option<NotificationType> {
    if s == "success"@ {
        Some(NotificationType::Success)
    } else if s == "warning"@ {
        Some(NotificationType::Warning)
    } else if s == "danger"@ {
        Some(NotificationType::Danger)
    } else if s == "info"@ {
        Some(NotificationType::Info)
    } else {
        None
    }
}

impl NotificationType {
    pub open spec fn text(self) -> Seq<char> {
        match self {
            NotificationType::Success => "success"@,
            NotificationType::Warning => "warning"@,
            NotificationType::Danger => "danger"@,
            NotificationType::Info => "info"@,
        }
    }

    pub fn as_str(&self) -> (r: &'static str)
        ensures
            r@ == self.text(),
    {
        match self {
            NotificationType::Success => "success",
            NotificationType::Warning => "warning",
            NotificationType::Danger => "danger",
            NotificationType::Info => "info",
        }
    }

    pub fn parse(s: &str) -> (r: Option<NotificationType>)
        ensures
            r == notification_type_of_text(s@),
    {
        if str_eq(s, "success") {
            Some(NotificationType::Success)
        } else if str_eq(s, "warning") {
            Some(NotificationType::Warning)
        } else if str_eq(s, "danger") {
            Some(NotificationType::Danger)
        } else if str_eq(s, "info") {
            Some(NotificationType::Info)
        } else {
            None
        }
    }
}

/// The area of the application a notification concerns.
#[derive(Clone, Copy, Debug, PartialEq, Eq, Structural)]
pub enum NotificationCategory {
    Budget,
    Goal,
    Transaction,
    Market,
    Payment,
    Ai,
}

pub open spec fn notification_category_of_text(s: Seq<char>) -> Option<NotificationCategory> {
    if s == "budget"@ {
        Some(NotificationCategory::Budget)
    } else if s == "goal"@ {
        Some(NotificationCategory::Goal)
    } else if s == "transaction"@ {
        Some(NotificationCategory::Transaction)
    } else if s == "market"@ {
        Some(NotificationCategory::Market)
    } else if s == "payment"@ {
        Some(NotificationCategory::Payment)
    } else if s == "ai"@ {
        Some(NotificationCategory::Ai)
    } else {
        None
    }
}

impl NotificationCategory {
    pub open spec fn text(self) -> Seq<char> {
        match self {
            NotificationCategory::Budget => "budget"@,
            NotificationCategory::Goal => "goal"@,
            NotificationCategory::Transaction => "transaction"@,
            NotificationCategory::Market => "market"@,
            NotificationCategory::Payment => "payment"@,
            NotificationCategory::Ai => "ai"@,
        }
    }

    pub fn as_str(&self) -> (r: &'static str)
        ensures
            r@ == self.text(),
    {
        match self {
            NotificationCategory::Budget => "budget",
            NotificationCategory::Goal => "goal",
            NotificationCategory::Transaction => "transaction",
            NotificationCategory::Market => "market",
            NotificationCategory::Payment => "payment",
            NotificationCategory::Ai => "ai",
        }
    }

    pub fn parse(s: &str) -> (r: Option<NotificationCategory>)
        ensures
            r == notification_category_of_text(s@),
    {
        if str_eq(s, "budget") {
            Some(NotificationCategory::Budget)
        } else if str_eq(s, "goal") {
            Some(NotificationCategory::Goal)
        } else if str_eq(s, "transaction") {
            Some(NotificationCategory::Transaction)
        } else if str_eq(s, "market") {
            Some(NotificationCategory::Market)
        } else if str_eq(s, "payment") {
            Some(NotificationCategory::Payment)
        } else if str_eq(s, "ai") {
            Some(NotificationCategory::Ai)
        } else {
            None
        }
    }
}

/// Why an engine operation was refused.
#[derive(Clone, Debug, PartialEq, Eq)]
pub enum LedgerError {
    /// The anonymous caller attempted a mutating operation.
    AuthenticationRequired,
    /// An input failed validation; the payload names the rule.
    Validation(ValidationIssue),
    /// No entity has the given id, or no wallet address is registered.
    NotFound,
    /// A budget with the same category, period and currency exists.
    Conflict,
    /// An upstream price or blockchain source failed.
    ExternalService { status: u64, message: String },
    /// Rates were requested before any were loaded.
    NotLoaded,
}

/// The validation rule an input broke.
#[derive(Clone, Copy, Debug, PartialEq, Eq, Structural)]
pub enum ValidationIssue {
    InvalidCurrency,
    NonPositiveAmount,
    NegativeAmount,
    InvalidPriority,
    InvalidTransactionType,
    EmptyField,
    InvalidRate,
    InconsistentRecord,
}

/// With positive amounts, the income and expense totals are non-negative.
pub proof fn lemma_flows_nonneg(txs: Seq<Transaction>, c: Currency, ym: Option<Seq<char>>)
    requires
        forall|i: int| 0 <= i < txs.len() ==> (#[trigger] txs[i]).amount > 0,
    ensures
        0 <= flow_sum(txs, c, ym, true),
        0 <= flow_sum(txs, c, ym, false),
        flow_sum(txs, c, ym, true) + flow_sum(txs, c, ym, false) <= txs.len() * amount_bound(),
    decreases txs.len(),
{
    if txs.len() > 0 {
        let init = txs.drop_last();
        assert forall|i: int| 0 <= i < init.len() implies (#[trigger] init[i]).amount > 0 by {
            assert(init[i] == txs[i]);
        }
        lemma_flows_nonneg(init, c, ym);
        assert(txs.last() == txs[txs.len() - 1]);
    }
}

} // verus!

verus! {

/// One ledger entry. `amount` is a positive magnitude; the direction is `is_income`.
#[derive(Clone, Debug)]
pub struct Transaction {
    pub id: u64,
    pub amount: i64,
    pub currency: Currency,
    pub description: String,
    pub is_income: bool,
    pub timestamp: u64,
    pub date: String,
    pub category: String,
    pub converted_amount: Option<i128>,
    pub converted_currency: Option<Currency>,
    pub conversion_rate: Option<u64>,
    pub transaction_type: Option<TransactionType>,
    pub source: Option<Source>,
    pub txid: Option<String>,
    pub confirmations: Option<u32>,
    pub fee: Option<i64>,
}

fn clone_opt_string(o: &Option<String>) -> (r: Option<String>)
    ensures
        r == *o,
{
    match o {
        Some(s) => Some(s.clone()),
        None => None,
    }
}

impl Transaction {
    /// A field-for-field copy.
    pub fn cloned(&self) -> (r: Transaction)
        ensures
            r == *self,
    {
        Transaction {
            id: self.id,
            amount: self.amount,
            currency: self.currency,
            description: self.description.clone(),
            is_income: self.is_income,
            timestamp: self.timestamp,
            date: self.date.clone(),
            category: self.category.clone(),
            converted_amount: self.converted_amount,
            converted_currency: self.converted_currency,
            conversion_rate: self.conversion_rate,
            transaction_type: self.transaction_type,
            source: self.source,
            txid: clone_opt_string(&self.txid),
            confirmations: self.confirmations,
            fee: self.fee,
        }
    }
}

/// Whether a transaction falls in the year-month bucket `ym` (every
/// transaction does when no bucket is given).
pub open spec fn in_period(tx: Transaction, ym: Option<Seq<char>>) -> bool {
    match ym {
        None => true,
        Some(p) => year_month_text(tx.timestamp) == p,
    }
}

/// The amount `tx` contributes to the income (or expense) total of `c` in `ym`.
pub open spec fn flow(tx: Transaction, c: Currency, ym: Option<Seq<char>>, income: bool) -> int {
    if tx.currency == c && tx.is_income == income && in_period(tx, ym) {
        tx.amount as int
    } else {
        0
    }
}

/// The income (or expense) total of `c` in `ym` over `txs`.
pub open spec fn flow_sum(txs: Seq<Transaction>, c: Currency, ym: Option<Seq<char>>, income: bool) -> int
    decreases txs.len(),
{
    if txs.len() == 0 {
        0
    } else {
        flow_sum(txs.drop_last(), c, ym, income) + flow(txs.last(), c, ym, income)
    }
}

/// The signed effect of `tx` on the balance of `c`.
pub open spec fn effect(tx: Transaction, c: Currency) -> int {
    if tx.currency != c {
        0
    } else if tx.is_income {
        tx.amount as int
    } else {
        -tx.amount
    }
}

/// The balance of `c` that `txs` add up to: income minus expense.
pub open spec fn net_sum(txs: Seq<Transaction>, c: Currency) -> int
    decreases txs.len(),
{
    if txs.len() == 0 {
        0
    } else {
        net_sum(txs.drop_last(), c) + effect(txs.last(), c)
    }
}

/// One more than the largest magnitude an `i64` amount can have.
pub open spec fn amount_bound() -> int {
    0x8000_0000_0000_0000
}

pub proof fn lemma_flow_sum_bound(txs: Seq<Transaction>, c: Currency, ym: Option<Seq<char>>, income: bool)
    ensures
        -(txs.len() * amount_bound()) <= flow_sum(txs, c, ym, income) <= txs.len() * amount_bound(),
    decreases txs.len(),
{
    if txs.len() > 0 {
        lemma_flow_sum_bound(txs.drop_last(), c, ym, income);
    }
}

pub proof fn lemma_net_sum_bound(txs: Seq<Transaction>, c: Currency)
    ensures
        -(txs.len() * amount_bound()) <= net_sum(txs, c) <= txs.len() * amount_bound(),
    decreases txs.len(),
{
    if txs.len() > 0 {
        lemma_net_sum_bound(txs.drop_last(), c);
    }
}

/// The balance is the income total minus the expense total.
pub proof fn lemma_net_is_income_minus_expense(txs: Seq<Transaction>, c: Currency)
    ensures
        net_sum(txs, c) == flow_sum(txs, c, None, true) - flow_sum(txs, c, None, false),
    decreases txs.len(),
{
    if txs.len() > 0 {
        lemma_net_is_income_minus_expense(txs.drop_last(), c);
    }
}

pub proof fn lemma_net_sum_push(txs: Seq<Transaction>, tx: Transaction, c: Currency)
    ensures
        net_sum(txs.push(tx), c) == net_sum(txs, c) + effect(tx, c),
{
    assert(txs.push(tx).drop_last() =~= txs);
}

pub proof fn lemma_flow_sum_prefix(txs: Seq<Transaction>, i: int, c: Currency, ym: Option<Seq<char>>, income: bool)
    requires
        0 <= i < txs.len(),
    ensures
        flow_sum(txs.subrange(0, i + 1), c, ym, income)
            == flow_sum(txs.subrange(0, i), c, ym, income) + flow(txs[i], c, ym, income),
{
    assert(txs.subrange(0, i + 1).drop_last() =~= txs.subrange(0, i));
}

pub proof fn lemma_net_sum_remove(txs: Seq<Transaction>, i: int, c: Currency)
    requires
        0 <= i < txs.len(),
    ensures
        net_sum(txs.remove(i), c) == net_sum(txs, c) - effect(txs[i], c),
    decreases txs.len(),
{
    if i == txs.len() - 1 {
        assert(txs.remove(i) =~= txs.drop_last());
    } else {
        let init = txs.drop_last();
        lemma_net_sum_remove(init, i, c);
        assert(txs.remove(i) =~= init.remove(i).push(txs.last()));
        lemma_net_sum_push(init.remove(i), txs.last(), c);
    }
}

pub proof fn lemma_net_sum_update(txs: Seq<Transaction>, i: int, tx: Transaction, c: Currency)
    requires
        0 <= i < txs.len(),
    ensures
        net_sum(txs.update(i, tx), c) == net_sum(txs, c) - effect(txs[i], c) + effect(tx, c),
    decreases txs.len(),
{
    if i == txs.len() - 1 {
        assert(txs.update(i, tx) =~= txs.drop_last().push(tx));
        lemma_net_sum_push(txs.drop_last(), tx, c);
    } else {
        let init = txs.drop_last();
        lemma_net_sum_update(init, i, tx, c);
        assert(txs.update(i, tx) =~= init.update(i, tx).push(txs.last()));
        lemma_net_sum_push(init.update(i, tx), txs.last(), c);
    }
}

} // verus!

verus! {

/// A spending limit for one category, period and currency.
/// `spent` is derived from the transactions and recomputed by the engine.
#[derive(Clone, Debug)]
pub struct Budget {
    pub id: u64,
    pub category: String,
    pub budget: i64,
    pub spent: i128,
    pub currency: Currency,
    pub period: String,
    pub created_at: u64,
    pub updated_at: u64,
}

impl Budget {
    pub fn cloned(&self) -> (r: Budget)
        ensures
            r == *self,
    {
        Budget {
            id: self.id,
            category: self.category.clone(),
            budget: self.budget,
            spent: self.spent,
            currency: self.currency,
            period: self.period.clone(),
            created_at: self.created_at,
            updated_at: self.updated_at,
        }
    }
}

/// Two budgets share their (category, period, currency) key.
pub open spec fn same_budget_key(a: Budget, b: Budget) -> bool {
    a.category@ == b.category@ && a.period@ == b.period@ && a.currency == b.currency
}

/// A savings goal. `status` is derived from the amounts.
#[derive(Clone, Debug)]
pub struct Goal {
    pub id: u64,
    pub title: String,
    pub description: String,
    pub target_amount: i64,
    pub current_amount: i64,
    pub currency: Currency,
    pub deadline: String,
    pub category: String,
    pub priority: Priority,
    pub status: GoalStatus,
    pub created_at: u64,
    pub updated_at: u64,
}

impl Goal {
    pub fn cloned(&self) -> (r: Goal)
        ensures
            r == *self,
    {
        Goal {
            id: self.id,
            title: self.title.clone(),
            description: self.description.clone(),
            target_amount: self.target_amount,
            current_amount: self.current_amount,
            currency: self.currency,
            deadline: self.deadline.clone(),
            category: self.category.clone(),
            priority: self.priority,
            status: self.status,
            created_at: self.created_at,
            updated_at: self.updated_at,
        }
    }
}

/// A goal is completed exactly when the saved amount reaches the target.
pub open spec fn status_for(current: int, target: int) -> GoalStatus {
    if current >= target {
        GoalStatus::Completed
    } else {
        GoalStatus::Active
    }
}

/// An alert shown to the user.
#[derive(Clone, Debug)]
pub struct Notification {
    pub id: u64,
    pub title: String,
    pub message: String,
    pub type_: NotificationType,
    pub category: NotificationCategory,
    pub timestamp: u64,
    pub is_read: bool,
}

impl Notification {
    pub fn cloned(&self) -> (r: Notification)
        ensures
            r == *self,
    {
        Notification {
            id: self.id,
            title: self.title.clone(),
            message: self.message.clone(),
            type_: self.type_,
            category: self.category,
            timestamp: self.timestamp,
            is_read: self.is_read,
        }
    }
}

/// Last-known conversion rates, fixed-point with `RATE_SCALE`; zero until loaded.
#[derive(Clone, Copy, Debug, PartialEq, Eq, Structural)]
pub struct CurrencyRate {
    pub usd_to_idr: u64,
    pub btc_to_usd: u64,
    pub eth_to_usd: u64,
    pub sol_to_usd: u64,
    pub last_updated: u64,
}

/// The address registered for one chain.
#[derive(Clone, Debug)]
pub struct WalletAddress {
    pub chain: String,
    pub address: String,
}

impl WalletAddress {
    pub fn cloned(&self) -> (r: WalletAddress)
        ensures
            r == *self,
    {
        WalletAddress { chain: self.chain.clone(), address: self.address.clone() }
    }
}

/// The complete financial record of one user.
#[derive(Clone, Debug)]
pub struct UserData {
    pub transactions: Vec<Transaction>,
    pub budgets: Vec<Budget>,
    pub goals: Vec<Goal>,
    pub notifications: Vec<Notification>,
    pub next_tx_id: u64,
    pub next_budget_id: u64,
    pub next_goal_id: u64,
    pub next_notification_id: u64,
    pub balance_usd: i128,
    pub balance_idr: i128,
    pub balance_btc: i128,
    pub balance_eth: i128,
    pub balance_sol: i128,
    pub wallet_addresses: Vec<WalletAddress>,
    pub currency_rates: CurrencyRate,
}

impl UserData {
    /// The stored running balance of `c`.
    pub open spec fn balance_of(&self, c: Currency) -> int {
        match c {
            Currency::Usd => self.balance_usd as int,
            Currency::Idr => self.balance_idr as int,
            Currency::Btc => self.balance_btc as int,
            Currency::Eth => self.balance_eth as int,
            Currency::Sol => self.balance_sol as int,
        }
    }

    /// Amounts are positive; ids are unique and below the next id to hand out.
    pub open spec fn transactions_wf(&self) -> bool {
        &&& forall|i: int|
            0 <= i < self.transactions@.len() ==> {
                &&& (#[trigger] self.transactions@[i]).amount > 0
                &&& self.transactions@[i].id < self.next_tx_id
            }
        &&& forall|i: int, j: int|
            0 <= i < j < self.transactions@.len() ==> (#[trigger] self.transactions@[i]).id
                != (#[trigger] self.transactions@[j]).id
    }

    /// Each running balance equals income minus expense of its currency.
    pub open spec fn balances_wf(&self) -> bool {
        forall|c: Currency| #[trigger] self.balance_of(c) == net_sum(self.transactions@, c)
    }

    /// Targets are positive, spent is never negative, ids and keys are unique.
    pub open spec fn budgets_wf(&self) -> bool {
        &&& forall|i: int|
            0 <= i < self.budgets@.len() ==> {
                &&& (#[trigger] self.budgets@[i]).budget > 0
                &&& self.budgets@[i].spent >= 0
                &&& self.budgets@[i].id < self.next_budget_id
            }
        &&& forall|i: int, j: int|
            0 <= i < j < self.budgets@.len() ==> {
                &&& (#[trigger] self.budgets@[i]).id != (#[trigger] self.budgets@[j]).id
                &&& !same_budget_key(self.budgets@[i], self.budgets@[j])
            }
    }

    /// Status follows the amounts; ids are unique and below the next id.
    pub open spec fn goals_wf(&self) -> bool {
        &&& forall|i: int|
            0 <= i < self.goals@.len() ==> {
                &&& (#[trigger] self.goals@[i]).status == status_for(
                    self.goals@[i].current_amount as int,
                    self.goals@[i].target_amount as int,
                )
                &&& self.goals@[i].id < self.next_goal_id
            }
        &&& forall|i: int, j: int|
            0 <= i < j < self.goals@.len() ==> (#[trigger] self.goals@[i]).id
                != (#[trigger] self.goals@[j]).id
    }

    pub open spec fn notifications_wf(&self) -> bool {
        &&& forall|i: int|
            0 <= i < self.notifications@.len() ==> (#[trigger] self.notifications@[i]).id
                < self.next_notification_id
        &&& forall|i: int, j: int|
            0 <= i < j < self.notifications@.len() ==> (#[trigger] self.notifications@[i]).id
                != (#[trigger] self.notifications@[j]).id
    }

    /// Chains and addresses are non-empty; one address per chain.
    pub open spec fn wallets_wf(&self) -> bool {
        &&& forall|i: int|
            0 <= i < self.wallet_addresses@.len() ==> {
                &&& (#[trigger] self.wallet_addresses@[i]).chain@.len() > 0
                &&& self.wallet_addresses@[i].address@.len() > 0
            }
        &&& forall|i: int, j: int|
            0 <= i < j < self.wallet_addresses@.len() ==> (#[trigger] self.wallet_addresses@[i]).chain@
                != (#[trigger] self.wallet_addresses@[j]).chain@
    }

    /// The balance invariant carries over to a record with the same
    /// transactions and balances.
    pub proof fn lemma_balances_carry(self, other: UserData)
        requires
            self.balances_wf(),
            other.transactions == self.transactions,
            other.balance_usd == self.balance_usd,
            other.balance_idr == self.balance_idr,
            other.balance_btc == self.balance_btc,
            other.balance_eth == self.balance_eth,
            other.balance_sol == self.balance_sol,
        ensures
            other.balances_wf(),
    {
        assert forall|c: Currency| #[trigger] other.balance_of(c) == net_sum(other.transactions@, c) by {
            assert(self.balance_of(c) == net_sum(self.transactions@, c));
        }
    }

    /// The record's invariant.
    pub open spec fn wf(&self) -> bool {
        &&& self.transactions_wf()
        &&& self.balances_wf()
        &&& self.budgets_wf()
        &&& self.goals_wf()
        &&& self.notifications_wf()
        &&& self.wallets_wf()
    }

    /// The record has no entries, zero balances and counters, and no loaded rates.
    pub open spec fn is_empty_record(&self) -> bool {
        &&& self.transactions@.len() == 0
        &&& self.budgets@.len() == 0
        &&& self.goals@.len() == 0
        &&& self.notifications@.len() == 0
        &&& self.wallet_addresses@.len() == 0
        &&& self.next_tx_id == 0
        &&& self.next_budget_id == 0
        &&& self.next_goal_id == 0
        &&& self.next_notification_id == 0
        &&& self.balance_usd == 0 && self.balance_idr == 0 && self.balance_btc == 0
        &&& self.balance_eth == 0 && self.balance_sol == 0
        &&& self.currency_rates == empty_rates(0)
    }

    /// An empty record: no entries, zero balances, counters at zero, rates not loaded.
    pub fn new() -> (r: UserData)
        ensures
            r.wf(),
            r.is_empty_record(),
    {
        UserData {
            transactions: Vec::new(),
            budgets: Vec::new(),
            goals: Vec::new(),
            notifications: Vec::new(),
            next_tx_id: 0,
            next_budget_id: 0,
            next_goal_id: 0,
            next_notification_id: 0,
            balance_usd: 0,
            balance_idr: 0,
            balance_btc: 0,
            balance_eth: 0,
            balance_sol: 0,
            wallet_addresses: Vec::new(),
            currency_rates: CurrencyRate {
                usd_to_idr: 0,
                btc_to_usd: 0,
                eth_to_usd: 0,
                sol_to_usd: 0,
                last_updated: 0,
            },
        }
    }

    /// The running balance of `c`.
    pub fn balance(&self, c: Currency) -> (r: i128)
        ensures
            r == self.balance_of(c),
    {
        match c {
            Currency::Usd => self.balance_usd,
            Currency::Idr => self.balance_idr,
            Currency::Btc => self.balance_btc,
            Currency::Eth => self.balance_eth,
            Currency::Sol => self.balance_sol,
        }
    }

    /// Adds `delta` to the running balance of `c`, leaving every other field alone.
    pub(crate) fn adjust_balance(&mut self, c: Currency, delta: i128)
        requires
            i128::MIN <= old(self).balance_of(c) + delta <= i128::MAX,
        ensures
            final(self).balance_of(c) == old(self).balance_of(c) + delta,
            forall|d: Currency| d != c ==> final(self).balance_of(d) == old(self).balance_of(d),
            final(self).transactions == old(self).transactions,
            final(self).budgets == old(self).budgets,
            final(self).goals == old(self).goals,
            final(self).notifications == old(self).notifications,
            final(self).wallet_addresses == old(self).wallet_addresses,
            final(self).next_tx_id == old(self).next_tx_id,
            final(self).next_budget_id == old(self).next_budget_id,
            final(self).next_goal_id == old(self).next_goal_id,
            final(self).next_notification_id == old(self).next_notification_id,
            final(self).currency_rates == old(self).currency_rates,
    {
        match c {
            Currency::Usd => self.balance_usd = self.balance_usd + delta,
            Currency::Idr => self.balance_idr = self.balance_idr + delta,
            Currency::Btc => self.balance_btc = self.balance_btc + delta,
            Currency::Eth => self.balance_eth = self.balance_eth + delta,
            Currency::Sol => self.balance_sol = self.balance_sol + delta,
        }
    }
}

/// Rates that are not loaded yet, stamped `now`.
pub open spec fn empty_rates(now: u64) -> CurrencyRate {
    CurrencyRate { usd_to_idr: 0, btc_to_usd: 0, eth_to_usd: 0, sol_to_usd: 0, last_updated: now }
}

/// The address registered for `chain`, if any.
pub open spec fn address_for(ws: Seq<WalletAddress>, chain: Seq<char>) -> Option<Seq<char>>
    decreases ws.len(),
{
    if ws.len() == 0 {
        None
    } else if ws.last().chain@ == chain {
        Some(ws.last().address@)
    } else {
        address_for(ws.drop_last(), chain)
    }
}

} // verus!
