//! Whole-record operations: creation, summaries, wallet addresses, the
//! consistency check of a loaded record, and reset.
use vstd::prelude::*;
use crate::models::{
    address_for, lemma_flows_nonneg, lemma_net_is_income_minus_expense, net_sum, same_budget_key,
    status_for, Currency, GoalStatus, LedgerError, UserData, ValidationIssue, WalletAddress,
};
use crate::notification::{notes_counted, NoteFilter};
use crate::transaction::{get_total_expense, get_total_income};

verus! {

/// A fresh, empty record.
pub fn new_user() -> (r: UserData)
    ensures
        r.wf(),
        r.is_empty_record(),
{
    UserData::new()
}

/// Numbers of transactions, budgets and goals, and of unread notifications.
pub fn get_user_summary(user_data: &UserData) -> (r: (u64, u64, u64, u64))
    ensures
        r == (
            user_data.transactions@.len() as u64,
            user_data.budgets@.len() as u64,
            user_data.goals@.len() as u64,
            notes_counted(user_data.notifications@, NoteFilter::Unread) as u64,
        ),
{
    let unread = crate::notification::get_unread_count(user_data);
    (
        user_data.transactions.len() as u64,
        user_data.budgets.len() as u64,
        user_data.goals.len() as u64,
        unread,
    )
}

/// The running IDR, USD and BTC balances.
pub fn get_user_balance_summary(user_data: &UserData) -> (r: (i128, i128, i128))
    ensures
        r == (user_data.balance_idr, user_data.balance_usd, user_data.balance_btc),
{
    (user_data.balance_idr, user_data.balance_usd, user_data.balance_btc)
}

/// Everything but the wallet addresses is the same.
pub open spec fn same_but_wallets(a: UserData, b: UserData) -> bool {
    &&& a.transactions == b.transactions
    &&& a.budgets == b.budgets
    &&& a.goals == b.goals
    &&& a.notifications == b.notifications
    &&& a.next_tx_id == b.next_tx_id
    &&& a.next_budget_id == b.next_budget_id
    &&& a.next_goal_id == b.next_goal_id
    &&& a.next_notification_id == b.next_notification_id
    &&& a.balance_usd == b.balance_usd
    &&& a.balance_idr == b.balance_idr
    &&& a.balance_btc == b.balance_btc
    &&& a.balance_eth == b.balance_eth
    &&& a.balance_sol == b.balance_sol
    &&& a.currency_rates == b.currency_rates
}

fn find_chain(ws: &Vec<WalletAddress>, chain: &str) -> (r: Option<usize>)
    ensures
        match r {
            Some(i) => i < ws@.len() && ws@[i as int].chain@ == chain@,
            None => forall|k: int| 0 <= k < ws@.len() ==> (#[trigger] ws@[k]).chain@ != chain@,
        },
{
    let mut i: usize = 0;
    while i < ws.len()
        invariant
            i <= ws@.len(),
            forall|k: int| 0 <= k < i ==> (#[trigger] ws@[k]).chain@ != chain@,
        decreases ws@.len() - i,
    {
        if crate::text::str_eq(ws[i].chain.as_str(), chain) {
            return Some(i);
        }
        i = i + 1;
    }
    None
}

proof fn lemma_address_absent(ws: Seq<WalletAddress>, chain: Seq<char>)
    requires
        forall|k: int| 0 <= k < ws.len() ==> (#[trigger] ws[k]).chain@ != chain,
    ensures
        address_for(ws, chain) is None,
    decreases ws.len(),
{
    if ws.len() > 0 {
        lemma_address_absent(ws.drop_last(), chain);
    }
}

proof fn lemma_address_found(ws: Seq<WalletAddress>, i: int)
    requires
        0 <= i < ws.len(),
        forall|x: int, y: int|
            0 <= x < y < ws.len() ==> (#[trigger] ws[x]).chain@ != (#[trigger] ws[y]).chain@,
    ensures
        address_for(ws, ws[i].chain@) == Some(ws[i].address@),
    decreases ws.len(),
{
    if i < ws.len() - 1 {
        let init = ws.drop_last();
        assert forall|x: int, y: int| 0 <= x < y < init.len() implies (#[trigger] init[x]).chain@
            != (#[trigger] init[y]).chain@ by {
            assert(init[x] == ws[x] && init[y] == ws[y]);
        }
        assert(ws[i].chain@ != ws.last().chain@);
        lemma_address_found(init, i);
    }
}

proof fn lemma_address_update(ws: Seq<WalletAddress>, i: int, w: WalletAddress, c: Seq<char>)
    requires
        0 <= i < ws.len(),
        ws[i].chain@ == w.chain@,
        forall|x: int, y: int|
            0 <= x < y < ws.len() ==> (#[trigger] ws[x]).chain@ != (#[trigger] ws[y]).chain@,
    ensures
        address_for(ws.update(i, w), c) == if c == w.chain@ {
            Some(w.address@)
        } else {
            address_for(ws, c)
        },
    decreases ws.len(),
{
    let ws2 = ws.update(i, w);
    if i == ws.len() - 1 {
        assert(ws2.drop_last() =~= ws.drop_last());
    } else {
        let init = ws.drop_last();
        assert forall|x: int, y: int| 0 <= x < y < init.len() implies (#[trigger] init[x]).chain@
            != (#[trigger] init[y]).chain@ by {
            assert(init[x] == ws[x] && init[y] == ws[y]);
        }
        assert(ws2.drop_last() =~= init.update(i, w));
        assert(ws[i].chain@ != ws.last().chain@);
        lemma_address_update(init, i, w, c);
    }
}

proof fn lemma_address_remove(ws: Seq<WalletAddress>, i: int, c: Seq<char>)
    requires
        0 <= i < ws.len(),
        forall|x: int, y: int|
            0 <= x < y < ws.len() ==> (#[trigger] ws[x]).chain@ != (#[trigger] ws[y]).chain@,
    ensures
        address_for(ws.remove(i), c) == if c == ws[i].chain@ {
            None
        } else {
            address_for(ws, c)
        },
    decreases ws.len(),
{
    let ws2 = ws.remove(i);
    if i == ws.len() - 1 {
        assert(ws2 =~= ws.drop_last());
        if c == ws[i].chain@ {
            assert forall|k: int| 0 <= k < ws2.len() implies (#[trigger] ws2[k]).chain@ != c by {
                assert(ws2[k] == ws[k]);
            }
            lemma_address_absent(ws2, c);
        }
    } else {
        let init = ws.drop_last();
        assert forall|x: int, y: int| 0 <= x < y < init.len() implies (#[trigger] init[x]).chain@
            != (#[trigger] init[y]).chain@ by {
            assert(init[x] == ws[x] && init[y] == ws[y]);
        }
        assert(ws2 =~= init.remove(i).push(ws.last()));
        assert(ws2.drop_last() =~= init.remove(i));
        assert(ws[i].chain@ != ws.last().chain@);
        lemma_address_remove(init, i, c);
    }
}

/// Registers `address` for `chain`, replacing an earlier address of that
/// chain. Both must be non-empty.
pub fn set_wallet_address(user_data: &mut UserData, chain: String, address: String) -> (r: Result<(), LedgerError>)
    requires
        old(user_data).wf(),
    ensures
        final(user_data).wf(),
        chain@.len() == 0 || address@.len() == 0 ==> r == Err::<(), LedgerError>(
            LedgerError::Validation(ValidationIssue::EmptyField),
        ) && *final(user_data) == *old(user_data),
        chain@.len() > 0 && address@.len() > 0 ==> {
            &&& r is Ok
            &&& forall|c: Seq<char>| #[trigger] address_for(final(user_data).wallet_addresses@, c)
                == if c == chain@ {
                Some(address@)
            } else {
                address_for(old(user_data).wallet_addresses@, c)
            }
            &&& same_but_wallets(*final(user_data), *old(user_data))
        },
{
    if chain.as_str().unicode_len() == 0 || address.as_str().unicode_len() == 0 {
        return Err(LedgerError::Validation(ValidationIssue::EmptyField));
    }
    let ghost old_data = *user_data;
    let ghost ws = old_data.wallet_addresses@;
    let found = find_chain(&user_data.wallet_addresses, chain.as_str());
    let w = WalletAddress { chain, address };
    let ghost gw = w;
    match found {
        Some(i) => {
            user_data.wallet_addresses.set(i, w);
            proof {
                let ws2 = user_data.wallet_addresses@;
                assert(ws2 == ws.update(i as int, gw));
                assert forall|x: int, y: int| 0 <= x < y < ws2.len() implies (#[trigger] ws2[x]).chain@
                    != (#[trigger] ws2[y]).chain@ by {
                    assert(ws[x].chain@ != ws[y].chain@);
                }
                assert forall|c: Seq<char>| #[trigger] address_for(ws2, c) == if c == gw.chain@ {
                    Some(gw.address@)
                } else {
                    address_for(ws, c)
                } by {
                    lemma_address_update(ws, i as int, gw, c);
                }
            }
        },
        None => {
            user_data.wallet_addresses.push(w);
            proof {
                let ws2 = user_data.wallet_addresses@;
                assert(ws2.drop_last() =~= ws);
                assert forall|x: int, y: int| 0 <= x < y < ws2.len() implies (#[trigger] ws2[x]).chain@
                    != (#[trigger] ws2[y]).chain@ by {
                    assert(ws2[x] == ws[x]);
                    if y < ws.len() {
                        assert(ws2[y] == ws[y]);
                    }
                }
                assert forall|c: Seq<char>| #[trigger] address_for(ws2, c) == if c == gw.chain@ {
                    Some(gw.address@)
                } else {
                    address_for(ws, c)
                } by {
                    if c != gw.chain@ {
                        assert(address_for(ws2, c) == address_for(ws2.drop_last(), c));
                    }
                }
            }
        },
    }
    proof {
        old_data.lemma_balances_carry(*user_data);
    }
    Ok(())
}

/// The address registered for `chain`, if any.
pub fn get_wallet_address(user_data: &UserData, chain: &str) -> (r: Option<String>)
    requires
        user_data.wf(),
    ensures
        match r {
            Some(a) => address_for(user_data.wallet_addresses@, chain@) == Some(a@),
            None => address_for(user_data.wallet_addresses@, chain@) is None,
        },
{
    match find_chain(&user_data.wallet_addresses, chain) {
        Some(i) => {
            proof {
                lemma_address_found(user_data.wallet_addresses@, i as int);
            }
            Some(user_data.wallet_addresses[i].address.clone())
        },
        None => {
            proof {
                lemma_address_absent(user_data.wallet_addresses@, chain@);
            }
            None
        },
    }
}

/// Every (chain, address) pair, in registration order.
pub fn get_all_wallet_addresses(user_data: &UserData) -> (r: Vec<(String, String)>)
    ensures
        r@.len() == user_data.wallet_addresses@.len(),
        forall|i: int|
            0 <= i < r@.len() ==> (#[trigger] r@[i]).0@ == user_data.wallet_addresses@[i].chain@
                && r@[i].1@ == user_data.wallet_addresses@[i].address@,
{
    let ws = &user_data.wallet_addresses;
    let mut out: Vec<(String, String)> = Vec::new();
    let mut i: usize = 0;
    while i < ws.len()
        invariant
            i <= ws@.len(),
            out@.len() == i,
            forall|k: int|
                0 <= k < i ==> (#[trigger] out@[k]).0@ == ws@[k].chain@ && out@[k].1@
                    == ws@[k].address@,
        decreases ws@.len() - i,
    {
        out.push((ws[i].chain.clone(), ws[i].address.clone()));
        i = i + 1;
    }
    out
}

/// Removes the address registered for `chain`.
pub fn delete_wallet_address(user_data: &mut UserData, chain: &str) -> (r: Result<(), LedgerError>)
    requires
        old(user_data).wf(),
    ensures
        final(user_data).wf(),
        address_for(old(user_data).wallet_addresses@, chain@) is None ==> r == Err::<
            (),
            LedgerError,
        >(LedgerError::NotFound) && *final(user_data) == *old(user_data),
        address_for(old(user_data).wallet_addresses@, chain@) is Some ==> {
            &&& r is Ok
            &&& forall|c: Seq<char>| #[trigger] address_for(final(user_data).wallet_addresses@, c)
                == if c == chain@ {
                None
            } else {
                address_for(old(user_data).wallet_addresses@, c)
            }
            &&& same_but_wallets(*final(user_data), *old(user_data))
        },
{
    let ghost old_data = *user_data;
    let ghost ws = old_data.wallet_addresses@;
    match find_chain(&user_data.wallet_addresses, chain) {
        None => {
            proof {
                lemma_address_absent(ws, chain@);
            }
            Err(LedgerError::NotFound)
        },
        Some(i) => {
            proof {
                lemma_address_found(ws, i as int);
            }
            user_data.wallet_addresses.remove(i);
            proof {
                let ws2 = user_data.wallet_addresses@;
                assert forall|x: int, y: int| 0 <= x < y < ws2.len() implies (#[trigger] ws2[x]).chain@
                    != (#[trigger] ws2[y]).chain@ by {
                    let ox = if x < i { x } else { x + 1 };
                    let oy = if y < i { y } else { y + 1 };
                    assert(ws2[x] == ws[ox] && ws2[y] == ws[oy]);
                    assert(ws[ox].chain@ != ws[oy].chain@);
                }
                assert forall|x: int| 0 <= x < ws2.len() implies (#[trigger] ws2[x]).chain@.len() > 0
                    && ws2[x].address@.len() > 0 by {
                    let ox = if x < i { x } else { x + 1 };
                    assert(ws2[x] == ws[ox]);
                }
                assert forall|c: Seq<char>| #[trigger] address_for(ws2, c) == if c == chain@ {
                    None
                } else {
                    address_for(ws, c)
                } by {
                    lemma_address_remove(ws, i as int, c);
                }
                old_data.lemma_balances_carry(*user_data);
            }
            Ok(())
        },
    }
}

/// Empties the record: the same as a new user's.
pub fn reset_user_data(user_data: &mut UserData) -> (r: Result<(), LedgerError>)
    ensures
        r is Ok,
        final(user_data).wf(),
        final(user_data).is_empty_record(),
{
    *user_data = UserData::new();
    Ok(())
}

fn distinct_ids(ids: &Vec<u64>) -> (r: bool)
    ensures
        r == forall|a: int, b: int| 0 <= a < b < ids@.len() ==> ids@[a] != ids@[b],
{
    let mut i: usize = 0;
    while i < ids.len()
        invariant
            i <= ids@.len(),
            forall|a: int, b: int| 0 <= a < b < i ==> ids@[a] != ids@[b],
        decreases ids@.len() - i,
    {
        let mut j: usize = 0;
        while j < i
            invariant
                j <= i < ids@.len(),
                forall|a: int| 0 <= a < j ==> ids@[a] != ids@[i as int],
            decreases i - j,
        {
            if ids[j] == ids[i] {
                return false;
            }
            j = j + 1;
        }
        i = i + 1;
    }
    true
}

fn transactions_ok(d: &UserData) -> (r: bool)
    ensures
        r == d.transactions_wf(),
{
    let txs = &d.transactions;
    let mut ids: Vec<u64> = Vec::new();
    let mut i: usize = 0;
    while i < txs.len()
        invariant
            i <= txs@.len(),
            txs@ == d.transactions@,
            ids@.len() == i,
            forall|k: int| 0 <= k < i ==> ids@[k] == (#[trigger] txs@[k]).id,
            forall|k: int| 0 <= k < i ==> (#[trigger] txs@[k]).amount > 0 && txs@[k].id < d.next_tx_id,
        decreases txs@.len() - i,
    {
        if txs[i].amount <= 0 || txs[i].id >= d.next_tx_id {
            assert(!d.transactions_wf()) by {
                let t = d.transactions@[i as int];
            }
            return false;
        }
        ids.push(txs[i].id);
        i = i + 1;
    }
    let r = distinct_ids(&ids);
    proof {
        if !r {
            let (a, b) = choose|a: int, b: int| 0 <= a < b < ids@.len() && ids@[a] == ids@[b];
            assert(txs@[a].id == txs@[b].id);
        }
    }
    r
}

fn budgets_ok(d: &UserData) -> (r: bool)
    ensures
        r == d.budgets_wf(),
{
    let bs = &d.budgets;
    let mut i: usize = 0;
    while i < bs.len()
        invariant
            i <= bs@.len(),
            bs@ == d.budgets@,
            forall|k: int|
                0 <= k < i ==> (#[trigger] bs@[k]).budget > 0 && bs@[k].spent >= 0 && bs@[k].id
                    < d.next_budget_id,
            forall|a: int, b: int|
                0 <= a < b < i ==> (#[trigger] bs@[a]).id != (#[trigger] bs@[b]).id
                    && !same_budget_key(bs@[a], bs@[b]),
        decreases bs@.len() - i,
    {
        if bs[i].budget <= 0 || bs[i].spent < 0 || bs[i].id >= d.next_budget_id {
            assert(!d.budgets_wf()) by {
                let b = d.budgets@[i as int];
            }
            return false;
        }
        let mut j: usize = 0;
        while j < i
            invariant
                j <= i < bs@.len(),
                bs@ == d.budgets@,
                forall|a: int|
                    0 <= a < j ==> (#[trigger] bs@[a]).id != bs@[i as int].id && !same_budget_key(
                        bs@[a],
                        bs@[i as int],
                    ),
            decreases i - j,
        {
            if bs[j].id == bs[i].id || (bs[j].category == bs[i].category && bs[j].period
                == bs[i].period && bs[j].currency == bs[i].currency) {
                assert(!d.budgets_wf()) by {
                    let x = d.budgets@[j as int];
                    let y = d.budgets@[i as int];
                }
                return false;
            }
            j = j + 1;
        }
        i = i + 1;
    }
    true
}

fn goals_ok(d: &UserData) -> (r: bool)
    ensures
        r == d.goals_wf(),
{
    let gs = &d.goals;
    let mut ids: Vec<u64> = Vec::new();
    let mut i: usize = 0;
    while i < gs.len()
        invariant
            i <= gs@.len(),
            gs@ == d.goals@,
            ids@.len() == i,
            forall|k: int| 0 <= k < i ==> ids@[k] == (#[trigger] gs@[k]).id,
            forall|k: int|
                0 <= k < i ==> (#[trigger] gs@[k]).status == status_for(
                    gs@[k].current_amount as int,
                    gs@[k].target_amount as int,
                ) && gs@[k].id < d.next_goal_id,
        decreases gs@.len() - i,
    {
        let g = &gs[i];
        let status_ok = if g.current_amount >= g.target_amount {
            g.status == GoalStatus::Completed
        } else {
            g.status == GoalStatus::Active
        };
        if !status_ok || g.id >= d.next_goal_id {
            assert(!d.goals_wf()) by {
                let x = d.goals@[i as int];
            }
            return false;
        }
        ids.push(g.id);
        i = i + 1;
    }
    let r = distinct_ids(&ids);
    proof {
        if !r {
            let (a, b) = choose|a: int, b: int| 0 <= a < b < ids@.len() && ids@[a] == ids@[b];
            assert(gs@[a].id == gs@[b].id);
        }
    }
    r
}

fn notifications_ok(d: &UserData) -> (r: bool)
    ensures
        r == d.notifications_wf(),
{
    let ns = &d.notifications;
    let mut ids: Vec<u64> = Vec::new();
    let mut i: usize = 0;
    while i < ns.len()
        invariant
            i <= ns@.len(),
            ns@ == d.notifications@,
            ids@.len() == i,
            forall|k: int| 0 <= k < i ==> ids@[k] == (#[trigger] ns@[k]).id,
            forall|k: int| 0 <= k < i ==> (#[trigger] ns@[k]).id < d.next_notification_id,
        decreases ns@.len() - i,
    {
        if ns[i].id >= d.next_notification_id {
            assert(!d.notifications_wf()) by {
                let x = d.notifications@[i as int];
            }
            return false;
        }
        ids.push(ns[i].id);
        i = i + 1;
    }
    let r = distinct_ids(&ids);
    proof {
        if !r {
            let (a, b) = choose|a: int, b: int| 0 <= a < b < ids@.len() && ids@[a] == ids@[b];
            assert(ns@[a].id == ns@[b].id);
        }
    }
    r
}

fn wallets_ok(d: &UserData) -> (r: bool)
    ensures
        r == d.wallets_wf(),
{
    let ws = &d.wallet_addresses;
    let mut i: usize = 0;
    while i < ws.len()
        invariant
            i <= ws@.len(),
            ws@ == d.wallet_addresses@,
            forall|k: int|
                0 <= k < i ==> (#[trigger] ws@[k]).chain@.len() > 0 && ws@[k].address@.len() > 0,
            forall|a: int, b: int|
                0 <= a < b < i ==> (#[trigger] ws@[a]).chain@ != (#[trigger] ws@[b]).chain@,
        decreases ws@.len() - i,
    {
        if ws[i].chain.as_str().unicode_len() == 0 || ws[i].address.as_str().unicode_len() == 0 {
            assert(!d.wallets_wf()) by {
                let x = d.wallet_addresses@[i as int];
            }
            return false;
        }
        let mut j: usize = 0;
        while j < i
            invariant
                j <= i < ws@.len(),
                ws@ == d.wallet_addresses@,
                forall|a: int| 0 <= a < j ==> (#[trigger] ws@[a]).chain@ != ws@[i as int].chain@,
            decreases i - j,
        {
            if ws[j].chain == ws[i].chain {
                assert(!d.wallets_wf()) by {
                    let x = d.wallet_addresses@[j as int];
                    let y = d.wallet_addresses@[i as int];
                }
                return false;
            }
            j = j + 1;
        }
        i = i + 1;
    }
    true
}

fn balance_matches(d: &UserData, c: Currency) -> (r: bool)
    requires
        d.transactions_wf(),
    ensures
        r == (d.balance_of(c) == net_sum(d.transactions@, c)),
{
    let income = get_total_income(d, c, None);
    let expense = get_total_expense(d, c, None);
    let n = d.transactions.len();
    proof {
        lemma_flows_nonneg(d.transactions@, c, None);
        lemma_net_is_income_minus_expense(d.transactions@, c);
        crate::transaction::lemma_bound_fits(n as int);
    }
    d.balance(c) == income - expense
}

fn balances_ok(d: &UserData) -> (r: bool)
    requires
        d.transactions_wf(),
    ensures
        r == d.balances_wf(),
{
    let r = balance_matches(d, Currency::Usd) && balance_matches(d, Currency::Idr)
        && balance_matches(d, Currency::Btc) && balance_matches(d, Currency::Eth)
        && balance_matches(d, Currency::Sol);
    proof {
        if r {
            assert forall|c: Currency| #[trigger] d.balance_of(c) == net_sum(d.transactions@, c) by {
                match c {
                    Currency::Usd => {},
                    Currency::Idr => {},
                    Currency::Btc => {},
                    Currency::Eth => {},
                    Currency::Sol => {},
                }
            }
        }
    }
    r
}

/// Checks the record's invariant, as a record read back from storage must
/// meet it before any engine operation runs on it.
pub fn validate_user_data(user_data: &UserData) -> (r: Result<(), LedgerError>)
    ensures
        r is Ok <==> user_data.wf(),
        r is Err ==> r == Err::<(), LedgerError>(
            LedgerError::Validation(ValidationIssue::InconsistentRecord),
        ),
{
    if transactions_ok(user_data) && balances_ok(user_data) && budgets_ok(user_data) && goals_ok(
        user_data,
    ) && notifications_ok(user_data) && wallets_ok(user_data) {
        Ok(())
    } else {
        Err(LedgerError::Validation(ValidationIssue::InconsistentRecord))
    }
}

} // verus!
