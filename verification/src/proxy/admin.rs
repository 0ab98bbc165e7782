//! What the proxy says of itself and of its accounts.

use crate::models::UsageWindow;
use crate::percent::Percent;
use crate::proxy::scheduler::SchedulerSnapshot;
use vstd::prelude::*;

verus! {

/// Whether the proxy can serve, and with how many accounts.
#[derive(Debug)]
pub struct HealthResponse {
    pub ok: bool,
    pub account_count: usize,
}

/// The health of a proxy with some scheduled accounts, where they are known.
pub fn health(scheduled: Option<usize>) -> (r: HealthResponse)
    ensures
        r.account_count == match scheduled {
            Some(accounts) => accounts,
            None => 0,
        },
        r.ok == (r.account_count > 0),
{
    let account_count: usize = match scheduled {
        Some(accounts) => accounts,
        None => 0,
    };
    HealthResponse { ok: account_count > 0, account_count }
}

/// What the proxy says of an account.
#[derive(Debug)]
pub struct AdminAccountResponse {
    pub id: String,
    pub label: String,
    pub account_id: String,
    pub status: String,
    pub inflight: usize,
    pub cooldown_until: Option<i64>,
    pub current: bool,
    pub five_hour_used_percent: Option<Percent>,
    pub one_week_used_percent: Option<Percent>,
    pub usage_error: Option<String>,
}

/// The use of a window.
pub open spec fn used_percent(window: Option<UsageWindow>) -> Option<Percent> {
    match window {
        Some(window) => Some(window.used_percent),
        None => None,
    }
}

/// Whether an entry says of an account what the scheduler says.
pub open spec fn describes(entry: AdminAccountResponse, snapshot: SchedulerSnapshot) -> bool {
    let summary = snapshot.summary;
    &&& entry.id == summary.id
    &&& entry.label == summary.label
    &&& entry.account_id == summary.account_id
    &&& entry.status@ == summary.status.name()
    &&& entry.inflight == snapshot.inflight
    &&& entry.cooldown_until == snapshot.cooldown_until
    &&& entry.current == summary.is_current
    &&& entry.five_hour_used_percent == match summary.usage {
        Some(usage) => used_percent(usage.five_hour),
        None => None,
    }
    &&& entry.one_week_used_percent == match summary.usage {
        Some(usage) => used_percent(usage.one_week),
        None => None,
    }
    &&& entry.usage_error == summary.usage_error
}

/// What the proxy says of an account.
pub fn admin_account(snapshot: &SchedulerSnapshot) -> (r: AdminAccountResponse)
    ensures
        describes(r, *snapshot),
{
    let summary = &snapshot.summary;
    let (five_hour, one_week) = match &summary.usage {
        Some(usage) => (usage.five_hour, usage.one_week),
        None => (None, None),
    };
    AdminAccountResponse {
        id: summary.id.clone(),
        label: summary.label.clone(),
        account_id: summary.account_id.clone(),
        status: summary.status.to_text(),
        inflight: snapshot.inflight,
        cooldown_until: snapshot.cooldown_until,
        current: summary.is_current,
        five_hour_used_percent: match five_hour {
            Some(window) => Some(window.used_percent),
            None => None,
        },
        one_week_used_percent: match one_week {
            Some(window) => Some(window.used_percent),
            None => None,
        },
        usage_error: summary.usage_error.clone(),
    }
}

/// What the proxy says of its accounts, in the order of the scheduler.
pub fn admin_accounts(snapshots: &Vec<SchedulerSnapshot>) -> (r: Vec<AdminAccountResponse>)
    ensures
        r@.len() == snapshots@.len(),
        forall|i: int|
            0 <= i < r@.len() ==> describes(#[trigger] r@[i], snapshots@[i]),
{
    let mut out: Vec<AdminAccountResponse> = Vec::new();
    let mut i: usize = 0;
    while i < snapshots.len()
        invariant
            0 <= i <= snapshots@.len(),
            out@.len() == i,
            forall|j: int| 0 <= j < i ==> describes(#[trigger] out@[j], snapshots@[j]),
        decreases snapshots@.len() - i,
    {
        out.push(admin_account(&snapshots[i]));
        i = i + 1;
    }
    out
}

/// What the proxy says of an account is what is known of it: each window by its own use.
pub proof fn law_entry_says_what_is_known(entry: AdminAccountResponse, snapshot: SchedulerSnapshot)
    requires
        describes(entry, snapshot),
    ensures
        entry.id@ == snapshot.summary.id@,
        entry.label@ == snapshot.summary.label@,
        entry.account_id@ == snapshot.summary.account_id@,
        entry.status@ == snapshot.summary.status.name(),
        entry.inflight == snapshot.inflight,
        entry.cooldown_until == snapshot.cooldown_until,
        entry.current == snapshot.summary.is_current,
        snapshot.summary.usage is Some && snapshot.summary.usage->0.five_hour is Some
            ==> entry.five_hour_used_percent == Some(
            snapshot.summary.usage->0.five_hour->0.used_percent,
        ),
        snapshot.summary.usage is Some && snapshot.summary.usage->0.one_week is Some
            ==> entry.one_week_used_percent == Some(
            snapshot.summary.usage->0.one_week->0.used_percent,
        ),
        snapshot.summary.usage is None || snapshot.summary.usage->0.five_hour is None
            ==> entry.five_hour_used_percent is None,
        snapshot.summary.usage is None || snapshot.summary.usage->0.one_week is None
            ==> entry.one_week_used_percent is None,
        entry.usage_error is Some <==> snapshot.summary.usage_error is Some,
        entry.usage_error is Some ==> entry.usage_error->0@ == snapshot.summary.usage_error->0@,
{
}

} // verus!
