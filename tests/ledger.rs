use finance_ledger::api;
use finance_ledger::bitcoin::{self, GetUtxosResponse, OutPoint, Utxo};
use finance_ledger::budget;
use finance_ledger::currency::{self, RateTable};
use finance_ledger::goal;
use finance_ledger::models::{
    Budget, Currency, Goal, GoalStatus, LedgerError, Notification, NotificationCategory,
    NotificationType, Priority, Source, Transaction, TransactionType, UserData, ValidationIssue,
    RATE_SCALE,
};
use finance_ledger::notification;
use finance_ledger::transaction;
use finance_ledger::user;
use finance_ledger::utils;

const ALICE: &[u8] = &[1, 2, 3];
const ANON: &[u8] = &[4];

fn tx(amount: i64, currency: Currency, is_income: bool, timestamp: u64) -> Transaction {
    Transaction {
        id: 999,
        amount,
        currency,
        description: "entry".to_string(),
        is_income,
        timestamp,
        date: "2024-01-01".to_string(),
        category: "Food".to_string(),
        converted_amount: None,
        converted_currency: None,
        conversion_rate: None,
        transaction_type: None,
        source: Some(Source::Manual),
        txid: None,
        confirmations: None,
        fee: None,
    }
}

fn budget_of(category: &str, period: &str, currency: Currency, target: i64) -> Budget {
    Budget {
        id: 0,
        category: category.to_string(),
        budget: target,
        spent: 77,
        currency,
        period: period.to_string(),
        created_at: 0,
        updated_at: 0,
    }
}

fn goal_of(target: i64, current: i64) -> Goal {
    Goal {
        id: 0,
        title: "Car".to_string(),
        description: "A car".to_string(),
        target_amount: target,
        current_amount: current,
        currency: Currency::Usd,
        deadline: "2025-12".to_string(),
        category: "Savings".to_string(),
        priority: Priority::High,
        status: GoalStatus::Active,
        created_at: 0,
        updated_at: 0,
    }
}

fn balances_consistent(d: &UserData) -> bool {
    user::validate_user_data(d).is_ok()
}

#[test]
fn income_then_expense_balance() {
    let mut d = UserData::new();
    assert!(api::add_transaction(ALICE, &mut d, 100, "salary".to_string(), true, "Work".to_string(), "2024-01-02".to_string(), 0).is_ok());
    assert!(api::add_transaction(ALICE, &mut d, 40, "food".to_string(), false, "Food".to_string(), "2024-01-03".to_string(), 0).is_ok());
    assert_eq!(transaction::get_balance(&d, Currency::Usd, None), 60);
    assert_eq!(transaction::get_total_income(&d, Currency::Usd, None), 100);
    assert_eq!(transaction::get_total_expense(&d, Currency::Usd, None), 40);
    assert_eq!(d.balance(Currency::Usd), 60);
}

#[test]
fn duplicate_budget_conflicts() {
    let mut d = UserData::new();
    assert!(api::add_budget(ALICE, &mut d, "Food".to_string(), 200, "USD", "2024-01".to_string(), 5).is_ok());
    assert_eq!(
        api::add_budget(ALICE, &mut d, "Food".to_string(), 200, "USD", "2024-01".to_string(), 6),
        Err(LedgerError::Conflict)
    );
    assert_eq!(d.budgets.len(), 1);
    assert_eq!(d.next_budget_id, 1);
}

#[test]
fn goal_reached_on_creation_is_completed() {
    let mut d = UserData::new();
    assert!(api::add_goal(ALICE, &mut d, "Car".to_string(), "".to_string(), 500, 500, "USD", "2025".to_string(), "Savings".to_string(), "high", 1).is_ok());
    assert_eq!(d.goals[0].status, GoalStatus::Completed);
    assert_eq!(d.goals[0].status.as_str(), "completed");
}

#[test]
fn anonymous_caller_is_refused() {
    let mut d = UserData::new();
    let r = api::add_transaction(ANON, &mut d, 100, "x".to_string(), true, "y".to_string(), "z".to_string(), 0);
    assert_eq!(r, Err(LedgerError::AuthenticationRequired));
    assert!(d.transactions.is_empty());
    assert_eq!(d.next_tx_id, 0);
    assert_eq!(d.balance(Currency::Usd), 0);
    assert!(api::is_anonymous(ANON));
    assert!(!api::is_anonymous(ALICE));
}

#[test]
fn usd_idr_rate_converts() {
    let mut rates = RateTable::new();
    assert!(currency::update_rate(&mut rates, "USD", "IDR", 16000 * RATE_SCALE).is_ok());
    assert_eq!(currency::convert(&rates, 10, Currency::Usd, Currency::Idr), Some(160000));
}

#[test]
fn balance_invariant_over_add_update_delete() {
    let mut d = UserData::new();
    transaction::add_transaction(&mut d, tx(500, Currency::Btc, true, 0)).unwrap();
    transaction::add_transaction(&mut d, tx(200, Currency::Btc, false, 0)).unwrap();
    transaction::add_transaction(&mut d, tx(70, Currency::Usd, true, 0)).unwrap();
    assert_eq!(d.balance(Currency::Btc), 300);
    transaction::update_transaction(&mut d, 1, tx(50, Currency::Usd, false, 0)).unwrap();
    assert_eq!(d.balance(Currency::Btc), 500);
    assert_eq!(d.balance(Currency::Usd), 20);
    assert_eq!(d.transactions[1].id, 1);
    transaction::delete_transaction(&mut d, 0).unwrap();
    assert_eq!(d.balance(Currency::Btc), 0);
    assert_eq!(d.balance(Currency::Usd), 20);
    assert!(balances_consistent(&d));
    for c in [Currency::Usd, Currency::Idr, Currency::Btc, Currency::Eth, Currency::Sol] {
        assert_eq!(
            d.balance(c),
            transaction::get_total_income(&d, c, None) - transaction::get_total_expense(&d, c, None)
        );
    }
}

#[test]
fn ids_increase_and_are_not_reused() {
    let mut d = UserData::new();
    transaction::add_transaction(&mut d, tx(1, Currency::Usd, true, 0)).unwrap();
    transaction::add_transaction(&mut d, tx(2, Currency::Usd, true, 0)).unwrap();
    assert_eq!(d.next_tx_id, 2);
    transaction::delete_transaction(&mut d, 1).unwrap();
    assert_eq!(d.next_tx_id, 2);
    transaction::add_transaction(&mut d, tx(3, Currency::Usd, true, 0)).unwrap();
    assert_eq!(d.transactions[1].id, 2);
    assert_eq!(d.next_tx_id, 3);
    budget::add_budget(&mut d, budget_of("A", "2024-01", Currency::Usd, 5), 0).unwrap();
    goal::add_goal(&mut d, goal_of(5, 1), 0).unwrap();
    notification::create_goal_completed_alert(&mut d, "Car", 0).unwrap();
    assert_eq!((d.next_budget_id, d.next_goal_id, d.next_notification_id), (1, 1, 1));
}

#[test]
fn recompute_spent_twice_gives_same_amounts() {
    let mut d = UserData::new();
    // 2024-01-01 is day 19723 after the epoch
    let jan_2024: u64 = 19723 * 86400 * 1_000_000_000;
    assert_eq!(utils::get_year_month(jan_2024), "2024-01");
    transaction::add_transaction(&mut d, tx(30, Currency::Usd, false, jan_2024)).unwrap();
    transaction::add_transaction(&mut d, tx(12, Currency::Usd, false, jan_2024)).unwrap();
    transaction::add_transaction(&mut d, tx(99, Currency::Usd, true, jan_2024)).unwrap();
    transaction::add_transaction(&mut d, tx(5, Currency::Usd, false, 0)).unwrap();
    budget::add_budget(&mut d, budget_of("Food", "2024-01", Currency::Usd, 100), 1).unwrap();
    assert_eq!(d.budgets[0].spent, 42);
    transaction::add_transaction(&mut d, tx(8, Currency::Usd, false, jan_2024)).unwrap();
    budget::update_budget_spent(&mut d, 2).unwrap();
    let first: Vec<i128> = d.budgets.iter().map(|b| b.spent).collect();
    budget::update_budget_spent(&mut d, 3).unwrap();
    let second: Vec<i128> = d.budgets.iter().map(|b| b.spent).collect();
    assert_eq!(first, vec![50]);
    assert_eq!(first, second);
    assert_eq!(budget::get_budget_progress(&d, 0), Some((100, 50, 5000)));
}

#[test]
fn goal_status_follows_progress() {
    let mut d = UserData::new();
    goal::add_goal(&mut d, goal_of(500, 100), 0).unwrap();
    assert_eq!(d.goals[0].status, GoalStatus::Active);
    goal::update_goal_progress(&mut d, 0, 500, 1).unwrap();
    assert_eq!(d.goals[0].status, GoalStatus::Completed);
    goal::update_goal_progress(&mut d, 0, 499, 2).unwrap();
    assert_eq!(d.goals[0].status, GoalStatus::Active);
    goal::update_goal(&mut d, 0, goal_of(10, 10), 3).unwrap();
    assert_eq!(d.goals[0].status, GoalStatus::Completed);
    assert_eq!(goal::get_goal_progress(&d, 0), Some((10, 10, 10000)));
    assert_eq!(goal::update_goal_progress(&mut d, 7, 1, 4), Err(LedgerError::NotFound));
}

#[test]
fn convert_same_currency_is_identity() {
    let rates = RateTable::new();
    for c in [Currency::Usd, Currency::Idr, Currency::Btc, Currency::Eth, Currency::Sol] {
        for a in [i64::MIN, -5, 0, 7, i64::MAX] {
            assert_eq!(currency::convert(&rates, a, c, c), Some(a as i128));
        }
    }
    assert_eq!(currency::convert(&rates, 5, Currency::Usd, Currency::Btc), None);
}

fn utxo(txid: Vec<u8>, vout: u32, value: u64) -> Utxo {
    Utxo { outpoint: OutPoint { txid, vout }, value }
}

#[test]
fn sync_twice_adds_nothing_the_second_time() {
    let mut d = UserData::new();
    let resp = GetUtxosResponse {
        utxos: vec![utxo(vec![0xab, 0x01], 0, 1500), utxo(vec![0xab, 0x01], 1, 700), utxo(vec![0xff], 0, 0)],
    };
    assert_eq!(bitcoin::sync_utxos_to_transactions(&mut d, &resp, 10), Ok(2));
    assert_eq!(d.balance(Currency::Btc), 2200);
    assert_eq!(d.transactions[0].description, "BTC UTXO received (txid: ab01, vout: 0)");
    assert_eq!(d.transactions[0].txid.as_deref(), Some("ab01"));
    assert_eq!(d.transactions[0].source, Some(Source::Blockchain));
    assert_eq!(d.transactions[0].transaction_type, Some(TransactionType::Received));
    assert_eq!(bitcoin::sync_utxos_to_transactions(&mut d, &resp, 20), Ok(0));
    assert_eq!(d.transactions.len(), 2);
    assert!(balances_consistent(&d));
}

#[test]
fn validation_errors() {
    let mut d = UserData::new();
    assert_eq!(
        transaction::add_transaction(&mut d, tx(0, Currency::Usd, true, 0)),
        Err(LedgerError::Validation(ValidationIssue::NonPositiveAmount))
    );
    let mut bad = tx(5, Currency::Usd, true, 0);
    bad.transaction_type = Some(TransactionType::Sent);
    assert_eq!(
        transaction::add_transaction(&mut d, bad),
        Err(LedgerError::Validation(ValidationIssue::InvalidTransactionType))
    );
    assert_eq!(
        api::add_manual_transaction(ALICE, &mut d, 5, "  ".to_string(), "income", "c".to_string(), "d".to_string(), 0),
        Err(LedgerError::Validation(ValidationIssue::EmptyField))
    );
    assert_eq!(
        api::add_manual_transaction(ALICE, &mut d, 5, "a".to_string(), "gift", "c".to_string(), "d".to_string(), 0),
        Err(LedgerError::Validation(ValidationIssue::InvalidTransactionType))
    );
    assert!(api::add_manual_transaction(ALICE, &mut d, 5, "a".to_string(), "expense", "c".to_string(), "d".to_string(), 0).is_ok());
    assert_eq!(d.balance(Currency::Usd), -5);
    assert_eq!(
        api::add_budget(ALICE, &mut d, "Food".to_string(), 1, "EUR", "2024-01".to_string(), 0),
        Err(LedgerError::Validation(ValidationIssue::InvalidCurrency))
    );
    assert_eq!(
        api::add_goal(ALICE, &mut d, "t".to_string(), "".to_string(), 5, 1, "USD", "".to_string(), "".to_string(), "urgent", 0),
        Err(LedgerError::Validation(ValidationIssue::InvalidPriority))
    );
    assert_eq!(
        goal::add_goal(&mut d, goal_of(5, -1), 0),
        Err(LedgerError::Validation(ValidationIssue::NegativeAmount))
    );
    assert_eq!(
        budget::add_budget(&mut d, budget_of("A", "p", Currency::Usd, 0), 0),
        Err(LedgerError::Validation(ValidationIssue::NonPositiveAmount))
    );
    assert_eq!(transaction::delete_transaction(&mut d, 42), Err(LedgerError::NotFound));
    assert_eq!(
        user::set_wallet_address(&mut d, "".to_string(), "x".to_string()),
        Err(LedgerError::Validation(ValidationIssue::EmptyField))
    );
    let mut rates = RateTable::new();
    assert_eq!(
        currency::update_rate(&mut rates, "USD", "XYZ", 1),
        Err(LedgerError::Validation(ValidationIssue::InvalidCurrency))
    );
    assert_eq!(currency::get_currency_rates(&rates, 0), Err(LedgerError::NotLoaded));
    assert_eq!(
        currency::apply_fetched_rates(&mut rates, 0, 1, 1, 1, 0),
        Err(LedgerError::Validation(ValidationIssue::InvalidRate))
    );
    assert!(!currency::has_rates(&rates));
}

#[test]
fn notifications_read_flags_and_counts() {
    let mut d = UserData::new();
    let n = Notification {
        id: 50,
        title: "t".to_string(),
        message: "m".to_string(),
        type_: NotificationType::Info,
        category: NotificationCategory::Market,
        timestamp: 123,
        is_read: true,
    };
    notification::add_notification(&mut d, n, 9).unwrap();
    assert_eq!((d.notifications[0].id, d.notifications[0].timestamp, d.notifications[0].is_read), (0, 9, false));
    notification::create_budget_alert(&mut d, 0, "Food", 85, 10).unwrap();
    assert_eq!(d.notifications[1].message, "Budget Food telah mencapai 85%");
    assert_eq!(notification::get_unread_count(&d), 2);
    notification::mark_notification_read(&mut d, 1).unwrap();
    assert_eq!(notification::get_unread_count(&d), 1);
    assert_eq!(notification::get_notification_count_by_category(&d, NotificationCategory::Budget), 1);
    assert_eq!(api::get_notifications(&d, Some("market"), false).len(), 1);
    assert_eq!(api::get_notifications(&d, Some("nope"), false).len(), 0);
    assert_eq!(api::get_notifications(&d, None, true).len(), 2);
    notification::mark_all_notifications_read(&mut d).unwrap();
    assert_eq!(notification::get_unread_count(&d), 0);
    assert_eq!(notification::delete_notification(&mut d, 5), Err(LedgerError::NotFound));
    notification::delete_notification(&mut d, 0).unwrap();
    assert_eq!(user::get_user_summary(&d), (0, 0, 0, 0));
}

#[test]
fn time_stamps_render() {
    assert_eq!(utils::timestamp_to_date(0), "1970-01-01 00:00:00");
    assert_eq!(utils::timestamp_to_date(3_723_000_000_000), "1970-01-01 01:02:03");
    assert_eq!(utils::get_year_month(0), "1970-01");
    let day: u64 = 86400 * 1_000_000_000;
    assert_eq!(utils::get_year_month(360 * day), "1970-12");
    assert_eq!(utils::timestamp_to_date(360 * day), "1970-12-27 00:00:00");
    assert_eq!(utils::timestamp_to_date(19782 * day), "2024-02-29 00:00:00");
    assert_eq!(utils::get_year_month(19723 * day), "2024-01");
    assert_eq!(utils::timestamp_ns_to_secs(5_500_000_000), 5);
    assert_eq!(utils::timestamp_ns_to_string(1234567890123), "1234567890123");
    assert!(utils::validate_currency("BTC"));
    assert!(!utils::validate_currency("btc"));
    assert!(utils::validate_priority("medium"));
    assert!(!utils::validate_priority("urgent"));
}

#[test]
fn wallet_addresses_and_btc_shape() {
    let mut d = UserData::new();
    user::set_wallet_address(&mut d, "BTC".to_string(), "addr1".to_string()).unwrap();
    user::set_wallet_address(&mut d, "BTC".to_string(), "addr2".to_string()).unwrap();
    assert_eq!(user::get_wallet_address(&d, "BTC"), Some("addr2".to_string()));
    assert_eq!(api::btc_address(ALICE, &d), Ok("addr2".to_string()));
    assert_eq!(d.wallet_addresses.len(), 1);
    user::delete_wallet_address(&mut d, "BTC").unwrap();
    assert_eq!(api::btc_address(ALICE, &d), Err(LedgerError::NotFound));
    assert!(bitcoin::validate_btc_address("bc1qar0srrr7xfkvy5l643lydnw9re59gtzzwf5mdq"[..35].as_ref()));
    assert!(bitcoin::validate_btc_address("1BvBMSEYstWetqTFn5Au4m4GFg7xJaNVN2"));
    assert!(!bitcoin::validate_btc_address("2BvBMSEYstWetqTFn5Au4m4GFg7xJaNVN2"));
    assert!(!bitcoin::validate_btc_address("1short"));
    // 1 + 13 two-byte characters: 27 bytes, though only 14 characters
    assert!(bitcoin::validate_btc_address("1\u{e9}\u{e9}\u{e9}\u{e9}\u{e9}\u{e9}\u{e9}\u{e9}\u{e9}\u{e9}\u{e9}\u{e9}\u{e9}"));
    assert_eq!(bitcoin::format_btc_amount(150_000_000), "\u{20bf} 1.50000000");
    assert_eq!(bitcoin::format_btc_amount(-1), "\u{20bf} -0.00000001");
}

#[test]
fn fetched_rates_set_inverses_and_breakdown() {
    let mut rates = RateTable::new();
    let r = currency::apply_fetched_rates(&mut rates, 16000 * RATE_SCALE, 50000 * RATE_SCALE, 2000 * RATE_SCALE, 100 * RATE_SCALE, 7).unwrap();
    assert_eq!(r.last_updated, 7);
    assert_eq!(currency::get_rate(&rates, Currency::Idr, Currency::Usd), Some(6250));
    assert_eq!(currency::get_rate(&rates, Currency::Usd, Currency::Btc), Some(2000));
    assert_eq!(currency::get_all_rates(&rates).len(), 8);
    assert_eq!(currency::convert_with_fallback(&rates, 3, Currency::Eth, Currency::Sol), 3);

    let mut d = UserData::new();
    transaction::add_transaction(&mut d, tx(100_000_000, Currency::Btc, true, 0)).unwrap();
    transaction::add_transaction(&mut d, tx(10 * 100_000_000, Currency::Usd, false, 0)).unwrap();
    let b = d.get_balance_breakdown();
    assert_eq!(b.btc_usd_value, 0);
    assert_eq!(b.total_usd_value, -1_000_000_000);
    assert!(b.is_negative);
    api::update_currency_rates(ALICE, &mut d, r.usd_to_idr, r.btc_to_usd, r.eth_to_usd, r.sol_to_usd, 8).unwrap();
    let b = d.get_balance_breakdown();
    assert_eq!(b.btc_usd_value, 50000 * 100_000_000);
    assert_eq!(b.total_usd_value, 49990 * 100_000_000);
    assert!(!b.is_negative && b.negative_reason.is_none());
    let p = d.get_portfolio_summary();
    assert_eq!(p.asset_allocation.len(), 5);
    assert_eq!(p.asset_allocation[1], (Currency::Btc, 10002));
    assert_eq!(p.asset_allocation[0], (Currency::Usd, -2));
    assert_eq!(p.diversification_score, 0);
    assert_eq!(p.total_value_idr, 49990 * 16000 * 100_000_000);
}

#[test]
fn filters_and_periods() {
    let mut d = UserData::new();
    let feb_1970: u64 = 31 * 86400 * 1_000_000_000;
    assert_eq!(utils::get_year_month(feb_1970), "1970-02");
    transaction::add_transaction(&mut d, tx(10, Currency::Usd, true, 0)).unwrap();
    transaction::add_transaction(&mut d, tx(4, Currency::Usd, false, feb_1970)).unwrap();
    let mut other = tx(7, Currency::Eth, true, feb_1970);
    other.category = "Travel".to_string();
    transaction::add_transaction(&mut d, other).unwrap();
    assert_eq!(transaction::get_transactions_by_period(&d, "1970-02").len(), 2);
    assert_eq!(transaction::get_transactions_by_type(&d, true).len(), 2);
    assert_eq!(transaction::get_transactions_by_category(&d, "Travel").len(), 1);
    assert_eq!(transaction::get_transactions_by_currency(&d, Currency::Eth).len(), 1);
    assert_eq!(transaction::get_transactions_by_source(&d, Source::Blockchain).len(), 0);
    assert_eq!(transaction::get_balance(&d, Currency::Usd, Some("1970-02")), -4);
    assert_eq!(transaction::get_balance(&d, Currency::Usd, Some("1970-01")), 10);
    assert_eq!(transaction::get_balance(&d, Currency::Usd, None), 6);
    assert_eq!(transaction::get_total_income(&d, Currency::Eth, Some("1999-01")), 0);
    let empty = UserData::new();
    assert_eq!(transaction::get_balance(&empty, Currency::Sol, None), 0);
}

#[test]
fn conversion_rounds_toward_zero() {
    let mut rates = RateTable::new();
    currency::set_rate(&mut rates, Currency::Usd, Currency::Sol, 150_000_000);
    assert_eq!(currency::convert(&rates, 3, Currency::Usd, Currency::Sol), Some(4));
    assert_eq!(currency::convert(&rates, -3, Currency::Usd, Currency::Sol), Some(-4));
    currency::set_rate(&mut rates, Currency::Usd, Currency::Sol, 2 * RATE_SCALE);
    assert_eq!(currency::get_all_rates(&rates), vec![(Currency::Usd, Currency::Sol, 2 * RATE_SCALE)]);
    assert_eq!(currency::convert_with_fallback(&rates, 5, Currency::Usd, Currency::Sol), 10);
    let loaded = currency::get_currency_rates(&rates, 3).unwrap();
    assert_eq!((loaded.usd_to_idr, loaded.last_updated), (0, 3));
}

#[test]
fn budgets_update_delete_and_totals() {
    let mut d = UserData::new();
    budget::add_budget(&mut d, budget_of("Food", "2024-01", Currency::Usd, 100), 0).unwrap();
    budget::add_budget(&mut d, budget_of("Rent", "2024-01", Currency::Usd, 300), 0).unwrap();
    assert_eq!(budget::get_total_budget(&d, Currency::Usd, None), 400);
    assert_eq!(budget::get_total_budget(&d, Currency::Usd, Some("2024-02")), 0);
    assert_eq!(budget::get_total_spent(&d, Currency::Usd, None), 0);
    assert_eq!(
        budget::update_budget(&mut d, 1, budget_of("Food", "2024-01", Currency::Usd, 50), 1),
        Err(LedgerError::Conflict)
    );
    budget::update_budget(&mut d, 1, budget_of("Fun", "2024-01", Currency::Usd, 50), 1).unwrap();
    assert_eq!(d.budgets[1].category, "Fun");
    assert_eq!(d.budgets[1].id, 1);
    assert_eq!(budget::get_budgets_by_period(&d, "2024-01").len(), 2);
    assert_eq!(budget::get_budgets_by_currency(&d, Currency::Btc).len(), 0);
    budget::delete_budget(&mut d, 0).unwrap();
    assert_eq!(budget::delete_budget(&mut d, 0), Err(LedgerError::NotFound));
    assert_eq!(budget::get_budget_progress(&d, 0), None);
    assert!(balances_consistent(&d));
}

#[test]
fn goal_queries_and_totals() {
    let mut d = UserData::new();
    goal::add_goal(&mut d, goal_of(100, 100), 0).unwrap();
    goal::add_goal(&mut d, goal_of(300, 30), 0).unwrap();
    assert_eq!(goal::get_goals_by_status(&d, GoalStatus::Completed).len(), 1);
    assert_eq!(goal::get_goals_by_priority(&d, Priority::High).len(), 2);
    assert_eq!(goal::get_goals_by_currency(&d, Currency::Idr).len(), 0);
    assert_eq!(goal::get_total_target_amount(&d, Currency::Usd, None), 400);
    assert_eq!(goal::get_total_current_amount(&d, Currency::Usd, Some(GoalStatus::Active)), 30);
    assert_eq!(goal::get_goal_progress(&d, 1), Some((300, 30, 1000)));
    goal::delete_goal(&mut d, 0).unwrap();
    assert_eq!(goal::get_goals(&d).len(), 1);
    assert_eq!(goal::delete_goal(&mut d, 0), Err(LedgerError::NotFound));
}

#[test]
fn reset_and_validate() {
    let mut d = UserData::new();
    transaction::add_transaction(&mut d, tx(10, Currency::Usd, true, 0)).unwrap();
    let mut broken = d.clone();
    broken.balance_usd = 11;
    assert_eq!(
        user::validate_user_data(&broken),
        Err(LedgerError::Validation(ValidationIssue::InconsistentRecord))
    );
    user::reset_user_data(&mut d).unwrap();
    assert!(d.transactions.is_empty());
    assert_eq!(user::get_user_balance_summary(&d), (0, 0, 0));
    assert!(user::validate_user_data(&d).is_ok());
    let fresh = user::new_user();
    assert_eq!(fresh.next_tx_id, 0);
}

#[test]
fn goal_updates_accept_any_amounts() {
    let mut d = UserData::new();
    goal::add_goal(&mut d, goal_of(100, 10), 0).unwrap();
    goal::update_goal_progress(&mut d, 0, -5, 1).unwrap();
    assert_eq!(d.goals[0].current_amount, -5);
    assert_eq!(d.goals[0].status, GoalStatus::Active);
    goal::update_goal(&mut d, 0, goal_of(0, 0), 2).unwrap();
    assert_eq!(d.goals[0].status, GoalStatus::Completed);
    assert_eq!(goal::get_goal_progress(&d, 0), Some((0, 0, 0)));
    goal::update_goal(&mut d, 0, goal_of(-200, -50), 3).unwrap();
    assert_eq!(d.goals[0].status, GoalStatus::Completed);
    assert_eq!(goal::get_goal_progress(&d, 0), Some((-200, -50, 2500)));
    assert!(balances_consistent(&d));
}

#[test]
fn sync_without_btc_address_is_not_found() {
    let mut d = UserData::new();
    let resp = GetUtxosResponse { utxos: vec![utxo(vec![1], 0, 10)] };
    assert_eq!(api::sync_blockchain_transactions(ALICE, &mut d, &resp, 0), Err(LedgerError::NotFound));
    assert!(d.transactions.is_empty());
    user::set_wallet_address(&mut d, "BTC".to_string(), "bcrt1qexample".to_string()).unwrap();
    assert_eq!(api::sync_blockchain_transactions(ALICE, &mut d, &resp, 0), Ok(1));
    assert_eq!(api::sync_blockchain_transactions(ANON, &mut d, &resp, 0), Err(LedgerError::AuthenticationRequired));
}

#[test]
fn fetched_rates_replace_all_eight_pairs() {
    let mut rates = RateTable::new();
    currency::set_rate(&mut rates, Currency::Eth, Currency::Sol, 5);
    api::fetch_real_time_rates(ALICE, &mut rates, 4 * RATE_SCALE, 8 * RATE_SCALE, 2 * RATE_SCALE, RATE_SCALE, 1).unwrap();
    assert_eq!(currency::get_rate(&rates, Currency::Btc, Currency::Usd), Some(8 * RATE_SCALE));
    assert_eq!(currency::get_rate(&rates, Currency::Usd, Currency::Btc), Some(RATE_SCALE / 8));
    assert_eq!(currency::get_rate(&rates, Currency::Usd, Currency::Eth), Some(RATE_SCALE / 2));
    assert_eq!(currency::get_rate(&rates, Currency::Usd, Currency::Sol), Some(RATE_SCALE));
    assert_eq!(currency::get_rate(&rates, Currency::Idr, Currency::Usd), Some(RATE_SCALE / 4));
    assert_eq!(currency::get_rate(&rates, Currency::Eth, Currency::Sol), Some(5));
    assert_eq!(currency::get_all_rates(&rates).len(), 9);
}
