//! The notification engine: alerts with a read flag, addressed by id.
use vstd::prelude::*;
use crate::models::{LedgerError, Notification, NotificationCategory, NotificationType, UserData};
use crate::text::{decimal, push_decimal};

verus! {

/// Everything but the notifications is the same.
pub open spec fn same_but_notifications(a: UserData, b: UserData) -> bool {
    &&& a.transactions == b.transactions
    &&& a.budgets == b.budgets
    &&& a.goals == b.goals
    &&& a.wallet_addresses == b.wallet_addresses
    &&& a.next_tx_id == b.next_tx_id
    &&& a.next_budget_id == b.next_budget_id
    &&& a.next_goal_id == b.next_goal_id
    &&& a.balance_usd == b.balance_usd
    &&& a.balance_idr == b.balance_idr
    &&& a.balance_btc == b.balance_btc
    &&& a.balance_eth == b.balance_eth
    &&& a.balance_sol == b.balance_sol
    &&& a.currency_rates == b.currency_rates
}

pub open spec fn has_notification(ns: Seq<Notification>, id: u64) -> bool {
    exists|i: int| 0 <= i < ns.len() && (#[trigger] ns[i]).id == id
}

proof fn lemma_notification_index_unique(d: UserData, index: int, id: u64)
    requires
        d.wf(),
        0 <= index < d.notifications@.len(),
        d.notifications@[index].id == id,
    ensures
        forall|i: int|
            0 <= i < d.notifications@.len() && (#[trigger] d.notifications@[i]).id == id ==> i == index,
{
    let ns = d.notifications@;
    assert forall|i: int| 0 <= i < ns.len() && (#[trigger] ns[i]).id == id implies i == index by {
        if i != index {
            if i < index {
                assert(ns[i].id != ns[index].id);
            } else {
                assert(ns[index].id != ns[i].id);
            }
        }
    }
}

fn find_notification(ns: &Vec<Notification>, id: u64) -> (r: Option<usize>)
    ensures
        match r {
            Some(i) => i < ns@.len() && ns@[i as int].id == id,
            None => !has_notification(ns@, id),
        },
{
    let mut i: usize = 0;
    while i < ns.len()
        invariant
            i <= ns@.len(),
            forall|k: int| 0 <= k < i ==> (#[trigger] ns@[k]).id != id,
        decreases ns@.len() - i,
    {
        if ns[i].id == id {
            return Some(i);
        }
        i = i + 1;
    }
    None
}

/// Records a notification under the next id, unread and stamped `now`,
/// whatever read flag and time stamp it came with.
pub fn add_notification(user_data: &mut UserData, notification: Notification, now: u64) -> (r: Result<(), LedgerError>)
    requires
        old(user_data).wf(),
        old(user_data).next_notification_id < u64::MAX,
    ensures
        final(user_data).wf(),
        r is Ok,
        final(user_data).notifications@ == old(user_data).notifications@.push(
            Notification {
                id: old(user_data).next_notification_id,
                timestamp: now,
                is_read: false,
                ..notification
            },
        ),
        final(user_data).next_notification_id == old(user_data).next_notification_id + 1,
        same_but_notifications(*final(user_data), *old(user_data)),
{
    let ghost old_data = *user_data;
    let id = user_data.next_notification_id;
    let mut n = notification;
    n.id = id;
    n.timestamp = now;
    n.is_read = false;
    user_data.notifications.push(n);
    user_data.next_notification_id = id + 1;
    proof {
        let ns = user_data.notifications@;
        let olds = old_data.notifications@;
        assert forall|i: int, j: int| 0 <= i < j < ns.len() implies (#[trigger] ns[i]).id
            != (#[trigger] ns[j]).id by {
            assert(ns[i] == olds[i]);
            if j < olds.len() {
                assert(ns[j] == olds[j]);
            }
        }
        assert forall|i: int| 0 <= i < ns.len() implies (#[trigger] ns[i]).id
            < user_data.next_notification_id by {
            if i < olds.len() {
                assert(ns[i] == olds[i]);
            }
        }
        old_data.lemma_balances_carry(*user_data);
    }
    Ok(())
}

/// Every notification, oldest first.
pub fn get_notifications(user_data: &UserData) -> (r: &Vec<Notification>)
    ensures
        r@ == user_data.notifications@,
{
    &user_data.notifications
}

/// A filter over notifications.
pub enum NoteFilter {
    Unread,
    InCategory(NotificationCategory),
    OfType(NotificationType),
}

pub open spec fn note_matches(f: NoteFilter, n: Notification) -> bool {
    match f {
        NoteFilter::Unread => !n.is_read,
        NoteFilter::InCategory(c) => n.category == c,
        NoteFilter::OfType(t) => n.type_ == t,
    }
}

/// The notifications that `f` keeps, in order.
pub open spec fn notes_selected(ns: Seq<Notification>, f: NoteFilter) -> Seq<Notification> {
    ns.filter(|n: Notification| note_matches(f, n))
}

/// How many notifications `f` keeps.
pub open spec fn notes_counted(ns: Seq<Notification>, f: NoteFilter) -> nat
    decreases ns.len(),
{
    if ns.len() == 0 {
        0
    } else {
        notes_counted(ns.drop_last(), f) + if note_matches(f, ns.last()) {
            1nat
        } else {
            0nat
        }
    }
}

fn note_keeps(f: &NoteFilter, n: &Notification) -> (r: bool)
    ensures
        r == note_matches(*f, *n),
{
    match f {
        NoteFilter::Unread => !n.is_read,
        NoteFilter::InCategory(c) => n.category == *c,
        NoteFilter::OfType(t) => n.type_ == *t,
    }
}

fn select_notes(ns: &Vec<Notification>, f: NoteFilter) -> (r: Vec<Notification>)
    ensures
        r@ == notes_selected(ns@, f),
{
    let mut out: Vec<Notification> = Vec::new();
    let mut i: usize = 0;
    while i < ns.len()
        invariant
            i <= ns@.len(),
            out@ == notes_selected(ns@.subrange(0, i as int), f),
        decreases ns@.len() - i,
    {
        proof {
            reveal(Seq::filter);
            assert(ns@.subrange(0, i + 1).drop_last() =~= ns@.subrange(0, i as int));
        }
        if note_keeps(&f, &ns[i]) {
            out.push(ns[i].cloned());
        }
        i = i + 1;
    }
    assert(ns@.subrange(0, ns@.len() as int) =~= ns@);
    out
}

fn count_notes(ns: &Vec<Notification>, f: NoteFilter) -> (r: u64)
    ensures
        r == notes_counted(ns@, f),
{
    let n = ns.len();
    let mut count: u64 = 0;
    let mut i: usize = 0;
    while i < n
        invariant
            n == ns@.len(),
            i <= n,
            count == notes_counted(ns@.subrange(0, i as int), f),
            count <= i,
        decreases n - i,
    {
        proof {
            assert(ns@.subrange(0, i + 1).drop_last() =~= ns@.subrange(0, i as int));
        }
        if note_keeps(&f, &ns[i]) {
            count = count + 1;
        }
        i = i + 1;
    }
    assert(ns@.subrange(0, n as int) =~= ns@);
    count
}

/// The notifications of one category.
pub fn get_notifications_by_category(user_data: &UserData, category: NotificationCategory) -> (r: Vec<Notification>)
    ensures
        r@ == notes_selected(user_data.notifications@, NoteFilter::InCategory(category)),
{
    select_notes(&user_data.notifications, NoteFilter::InCategory(category))
}

/// The notifications of one type.
pub fn get_notifications_by_type(user_data: &UserData, type_: NotificationType) -> (r: Vec<Notification>)
    ensures
        r@ == notes_selected(user_data.notifications@, NoteFilter::OfType(type_)),
{
    select_notes(&user_data.notifications, NoteFilter::OfType(type_))
}

/// The notifications not read yet.
pub fn get_unread_notifications(user_data: &UserData) -> (r: Vec<Notification>)
    ensures
        r@ == notes_selected(user_data.notifications@, NoteFilter::Unread),
{
    select_notes(&user_data.notifications, NoteFilter::Unread)
}

/// Marks the notification with id `notification_id` as read.
pub fn mark_notification_read(user_data: &mut UserData, notification_id: u64) -> (r: Result<(), LedgerError>)
    requires
        old(user_data).wf(),
    ensures
        final(user_data).wf(),
        !has_notification(old(user_data).notifications@, notification_id) ==> r == Err::<
            (),
            LedgerError,
        >(LedgerError::NotFound) && *final(user_data) == *old(user_data),
        has_notification(old(user_data).notifications@, notification_id) ==> {
            &&& r is Ok
            &&& forall|i: int|
                0 <= i < old(user_data).notifications@.len() && (#[trigger] old(user_data).notifications@[i]).id == notification_id ==> final(user_data).notifications@
                    == old(user_data).notifications@.update(
                    i,
                    Notification { is_read: true, ..old(user_data).notifications@[i] },
                )
            &&& final(user_data).next_notification_id == old(user_data).next_notification_id
            &&& same_but_notifications(*final(user_data), *old(user_data))
        },
{
    let index = match find_notification(&user_data.notifications, notification_id) {
        None => return Err(LedgerError::NotFound),
        Some(i) => i,
    };
    let ghost old_data = *user_data;
    proof {
        lemma_notification_index_unique(old_data, index as int, notification_id);
    }
    let mut n = user_data.notifications[index].cloned();
    n.is_read = true;
    user_data.notifications.set(index, n);
    proof {
        let ns = user_data.notifications@;
        let olds = old_data.notifications@;
        assert forall|i: int, j: int| 0 <= i < j < ns.len() implies (#[trigger] ns[i]).id
            != (#[trigger] ns[j]).id by {
            assert(olds[i].id != olds[j].id);
        }
        assert forall|i: int| 0 <= i < ns.len() implies (#[trigger] ns[i]).id
            < user_data.next_notification_id by {
            assert(olds[i].id < old_data.next_notification_id);
        }
        old_data.lemma_balances_carry(*user_data);
    }
    Ok(())
}

/// Marks every notification as read.
pub fn mark_all_notifications_read(user_data: &mut UserData) -> (r: Result<(), LedgerError>)
    requires
        old(user_data).wf(),
    ensures
        final(user_data).wf(),
        r is Ok,
        final(user_data).notifications@.len() == old(user_data).notifications@.len(),
        forall|i: int|
            0 <= i < old(user_data).notifications@.len() ==> #[trigger] final(user_data).notifications@[i] == (Notification {
                is_read: true,
                ..old(user_data).notifications@[i]
            }),
        final(user_data).next_notification_id == old(user_data).next_notification_id,
        same_but_notifications(*final(user_data), *old(user_data)),
{
    let ghost old_data = *user_data;
    let ghost olds = old_data.notifications@;
    let mut i: usize = 0;
    while i < user_data.notifications.len()
        invariant
            i <= user_data.notifications@.len(),
            olds == old_data.notifications@,
            user_data.notifications@.len() == olds.len(),
            user_data.next_notification_id == old_data.next_notification_id,
            same_but_notifications(*user_data, old_data),
            forall|k: int|
                0 <= k < i ==> #[trigger] user_data.notifications@[k] == (Notification {
                    is_read: true,
                    ..olds[k]
                }),
            forall|k: int| i <= k < olds.len() ==> #[trigger] user_data.notifications@[k] == olds[k],
        decreases olds.len() - i,
    {
        let mut n = user_data.notifications[i].cloned();
        n.is_read = true;
        user_data.notifications.set(i, n);
        i = i + 1;
    }
    proof {
        let ns = user_data.notifications@;
        assert forall|x: int, y: int| 0 <= x < y < ns.len() implies (#[trigger] ns[x]).id
            != (#[trigger] ns[y]).id by {
            assert(olds[x].id != olds[y].id);
        }
        assert forall|x: int| 0 <= x < ns.len() implies (#[trigger] ns[x]).id
            < user_data.next_notification_id by {
            assert(olds[x].id < old_data.next_notification_id);
        }
        old_data.lemma_balances_carry(*user_data);
    }
    Ok(())
}

/// Removes the notification with id `notification_id`.
pub fn delete_notification(user_data: &mut UserData, notification_id: u64) -> (r: Result<(), LedgerError>)
    requires
        old(user_data).wf(),
    ensures
        final(user_data).wf(),
        !has_notification(old(user_data).notifications@, notification_id) ==> r == Err::<
            (),
            LedgerError,
        >(LedgerError::NotFound) && *final(user_data) == *old(user_data),
        has_notification(old(user_data).notifications@, notification_id) ==> {
            &&& r is Ok
            &&& forall|i: int|
                0 <= i < old(user_data).notifications@.len() && (#[trigger] old(user_data).notifications@[i]).id == notification_id ==> final(user_data).notifications@
                    == old(user_data).notifications@.remove(i)
            &&& final(user_data).next_notification_id == old(user_data).next_notification_id
            &&& same_but_notifications(*final(user_data), *old(user_data))
        },
{
    let index = match find_notification(&user_data.notifications, notification_id) {
        None => return Err(LedgerError::NotFound),
        Some(i) => i,
    };
    let ghost old_data = *user_data;
    let ghost olds = old_data.notifications@;
    proof {
        lemma_notification_index_unique(old_data, index as int, notification_id);
    }
    user_data.notifications.remove(index);
    proof {
        let ns = user_data.notifications@;
        assert forall|i: int, j: int| 0 <= i < j < ns.len() implies (#[trigger] ns[i]).id
            != (#[trigger] ns[j]).id by {
            let oi = if i < index { i } else { i + 1 };
            let oj = if j < index { j } else { j + 1 };
            assert(ns[i] == olds[oi]);
            assert(ns[j] == olds[oj]);
            assert(olds[oi].id != olds[oj].id);
        }
        assert forall|i: int| 0 <= i < ns.len() implies (#[trigger] ns[i]).id
            < user_data.next_notification_id by {
            let oi = if i < index { i } else { i + 1 };
            assert(ns[i] == olds[oi]);
        }
        old_data.lemma_balances_carry(*user_data);
    }
    Ok(())
}

/// How many notifications are unread.
pub fn get_unread_count(user_data: &UserData) -> (r: u64)
    ensures
        r == notes_counted(user_data.notifications@, NoteFilter::Unread),
{
    count_notes(&user_data.notifications, NoteFilter::Unread)
}

/// How many notifications have one category.
pub fn get_notification_count_by_category(user_data: &UserData, category: NotificationCategory) -> (r: u64)
    ensures
        r == notes_counted(user_data.notifications@, NoteFilter::InCategory(category)),
{
    count_notes(&user_data.notifications, NoteFilter::InCategory(category))
}

/// How many notifications have one type.
pub fn get_notification_count_by_type(user_data: &UserData, type_: NotificationType) -> (r: u64)
    ensures
        r == notes_counted(user_data.notifications@, NoteFilter::OfType(type_)),
{
    count_notes(&user_data.notifications, NoteFilter::OfType(type_))
}

/// The message of a budget alert.
pub open spec fn budget_alert_text(category: Seq<char>, spent_percentage: u64) -> Seq<char> {
    "Budget "@ + category + " telah mencapai "@ + decimal(spent_percentage as nat) + "%"@
}

/// The message of a goal-completed alert.
pub open spec fn goal_completed_text(goal_title: Seq<char>) -> Seq<char> {
    "Selamat! Goal '"@ + goal_title + "' telah selesai!"@
}

/// Records a warning that the budget of `category` has reached `spent_percentage`.
pub fn create_budget_alert(
    user_data: &mut UserData,
    budget_id: u64,
    category: &str,
    spent_percentage: u64,
    now: u64,
) -> (r: Result<(), LedgerError>)
    requires
        old(user_data).wf(),
        old(user_data).next_notification_id < u64::MAX,
    ensures
        final(user_data).wf(),
        r is Ok,
        final(user_data).notifications@.len() == old(user_data).notifications@.len() + 1,
        final(user_data).notifications@.drop_last() == old(user_data).notifications@,
        ({
            let n = final(user_data).notifications@.last();
            &&& n.id == old(user_data).next_notification_id
            &&& n.title@ == "Budget Alert"@
            &&& n.message@ == budget_alert_text(category@, spent_percentage)
            &&& n.type_ == NotificationType::Warning
            &&& n.category == NotificationCategory::Budget
            &&& n.timestamp == now
            &&& !n.is_read
        }),
        final(user_data).next_notification_id == old(user_data).next_notification_id + 1,
        same_but_notifications(*final(user_data), *old(user_data)),
{
    let mut message = String::from_str("Budget ");
    message.append(category);
    message.append(" telah mencapai ");
    push_decimal(&mut message, spent_percentage as u128);
    message.append("%");
    let notification = Notification {
        id: user_data.next_notification_id,
        title: String::from_str("Budget Alert"),
        message,
        type_: NotificationType::Warning,
        category: NotificationCategory::Budget,
        timestamp: now,
        is_read: false,
    };
    let r = add_notification(user_data, notification, now);
    proof {
        assert(user_data.notifications@.drop_last() =~= old(user_data).notifications@);
    }
    r
}

/// Records a success notice that the goal titled `goal_title` is completed.
pub fn create_goal_completed_alert(user_data: &mut UserData, goal_title: &str, now: u64) -> (r: Result<(), LedgerError>)
    requires
        old(user_data).wf(),
        old(user_data).next_notification_id < u64::MAX,
    ensures
        final(user_data).wf(),
        r is Ok,
        final(user_data).notifications@.len() == old(user_data).notifications@.len() + 1,
        final(user_data).notifications@.drop_last() == old(user_data).notifications@,
        ({
            let n = final(user_data).notifications@.last();
            &&& n.id == old(user_data).next_notification_id
            &&& n.title@ == "Goal Achieved!"@
            &&& n.message@ == goal_completed_text(goal_title@)
            &&& n.type_ == NotificationType::Success
            &&& n.category == NotificationCategory::Goal
            &&& n.timestamp == now
            &&& !n.is_read
        }),
        final(user_data).next_notification_id == old(user_data).next_notification_id + 1,
        same_but_notifications(*final(user_data), *old(user_data)),
{
    let mut message = String::from_str("Selamat! Goal '");
    message.append(goal_title);
    message.append("' telah selesai!");
    let notification = Notification {
        id: user_data.next_notification_id,
        title: String::from_str("Goal Achieved!"),
        message,
        type_: NotificationType::Success,
        category: NotificationCategory::Goal,
        timestamp: now,
        is_read: false,
    };
    let r = add_notification(user_data, notification, now);
    proof {
        assert(user_data.notifications@.drop_last() =~= old(user_data).notifications@);
    }
    r
}

} // verus!
