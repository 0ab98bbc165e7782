//! Which account serves the next request: leases, limits and cooldowns.

use crate::models::{AccountStatus, AccountSummary, AccountsStore, StoredAccount};
use crate::ranking::{
    all_comparable, allowed_comparable, arranged, first_of, is_first, is_stable_order, key_ranks,
    lists_all, places, precedes, rank_key, rank_of, stable_order, switchable, Rank, RankKey,
};
use crate::store::{distinct_accounts, lemma_place_is, lemma_place_of, place_of, AccountRecord};
use crate::text;
use crate::utils::now_unix_seconds;
use vstd::prelude::*;

verus! {

/// How long an account rests when no time is given, in seconds.
pub const DEFAULT_COOLDOWN_SECONDS: i64 = 30;

/// An account as the scheduler keeps it.
#[derive(Debug)]
pub struct ScheduledAccountState {
    pub stored: StoredAccount,
    pub summary: AccountSummary,
    pub inflight: usize,
    pub cooldown_until: Option<i64>,
}

/// What the scheduler says of an account.
#[derive(Debug, Clone)]
pub struct SchedulerSnapshot {
    pub summary: AccountSummary,
    pub inflight: usize,
    pub cooldown_until: Option<i64>,
}

/// The accounts of the pool with their leases, and the limits on them.
#[derive(Debug)]
pub struct Scheduler {
    pub accounts: Vec<ScheduledAccountState>,
    pub max_concurrent_requests: usize,
    pub max_inflight_per_account: usize,
}

/// The right to send one request with an account.
#[derive(Debug)]
pub struct SchedulerLease {
    pub account_id: String,
    pub account: StoredAccount,
    pub summary: AccountSummary,
}

/// Why no lease was given.
#[derive(Debug, Clone, Copy, PartialEq, Eq, Structural)]
pub enum SchedulerError {
    NoAccountAvailable,
}

impl SchedulerError {
    /// The error in words.
    pub fn to_text(&self) -> (r: String)
        ensures
            r@ == "no proxy account available"@,
    {
        "no proxy account available".to_owned()
    }
}

// ---------------------------------------------------------------------------
// What the scheduler keeps
// ---------------------------------------------------------------------------
/// The records of the scheduled accounts.
pub open spec fn slot_records(slots: Seq<ScheduledAccountState>) -> Seq<AccountRecord> {
    slots.map_values(|slot: ScheduledAccountState| slot.stored@)
}

/// The place of the first slot of an account, or the number of slots.
pub open spec fn slot_of(slots: Seq<ScheduledAccountState>, account_id: Seq<char>) -> int {
    place_of(slot_records(slots), account_id)
}

/// The ranks of the scheduled accounts, the number of leases first.
pub open spec fn slot_ranks(slots: Seq<ScheduledAccountState>) -> Seq<Rank> {
    slots.map_values(
        |slot: ScheduledAccountState| rank_of(slot.summary, slot.inflight as nat),
    )
}

/// Whether an account rests.
pub open spec fn rests(slot: ScheduledAccountState, now: i64) -> bool {
    slot.cooldown_until is Some && slot.cooldown_until->0 > now
}

/// Whether an account can serve one more request.
pub open spec fn available(slot: ScheduledAccountState, limit: usize, now: i64) -> bool {
    switchable(slot.summary) && slot.inflight < limit && !rests(slot, now)
}

/// Which accounts can serve one more request.
pub open spec fn availability(
    slots: Seq<ScheduledAccountState>,
    limit: usize,
    now: i64,
) -> Seq<bool> {
    slots.map_values(|slot: ScheduledAccountState| available(slot, limit, now))
}

/// Whether each account is scheduled once and has no more leases than it may.
pub open spec fn within_limits(slots: Seq<ScheduledAccountState>, limit: usize) -> bool {
    &&& distinct_accounts(slot_records(slots))
    &&& forall|i: int| 0 <= i < slots.len() ==> (#[trigger] slots[i]).inflight <= limit
}

/// A slot with another number of leases.
pub open spec fn with_inflight(slot: ScheduledAccountState, inflight: int) -> ScheduledAccountState {
    ScheduledAccountState { inflight: inflight as usize, ..slot }
}

/// The slots with one more lease at a place.
pub open spec fn leased(
    slots: Seq<ScheduledAccountState>,
    place: int,
) -> Seq<ScheduledAccountState> {
    slots.update(place, with_inflight(slots[place], slots[place].inflight + 1))
}

/// The slots with one lease less of an account.
pub open spec fn released(
    slots: Seq<ScheduledAccountState>,
    account_id: Seq<char>,
) -> Seq<ScheduledAccountState> {
    let place = slot_of(slots, account_id);
    if place < slots.len() {
        slots.update(
            place,
            with_inflight(
                slots[place],
                if slots[place].inflight == 0 {
                    0
                } else {
                    slots[place].inflight - 1
                },
            ),
        )
    } else {
        slots
    }
}

/// The slots with an account at rest until a time.
pub open spec fn cooled(
    slots: Seq<ScheduledAccountState>,
    account_id: Seq<char>,
    until: int,
) -> Seq<ScheduledAccountState> {
    let place = slot_of(slots, account_id);
    if place < slots.len() {
        slots.update(
            place,
            ScheduledAccountState { cooldown_until: Some(until as i64), ..slots[place] },
        )
    } else {
        slots
    }
}

/// The seconds for which an account rests.
pub open spec fn rest_of(seconds: Option<i64>) -> i64 {
    match seconds {
        Some(seconds) => seconds,
        None => DEFAULT_COOLDOWN_SECONDS,
    }
}

/// Whether the rest of an account can end at a time: one within the range of
/// timestamps, or any where the account is not scheduled.
pub open spec fn can_rest(
    slots: Seq<ScheduledAccountState>,
    account_id: Seq<char>,
    until: int,
) -> bool {
    slot_of(slots, account_id) >= slots.len() || i64::MIN <= until <= i64::MAX
}

/// The first summary of an account.
pub open spec fn summary_of(
    summaries: Seq<AccountSummary>,
    account_id: Seq<char>,
) -> Option<AccountSummary>
    decreases summaries.len(),
{
    if summaries.len() == 0 {
        None
    } else if summaries[0].account_id@ == account_id {
        Some(summaries[0])
    } else {
        summary_of(summaries.skip(1), account_id)
    }
}

/// The leases and the rest of an account that was scheduled before: those of its
/// last slot, or none.
pub open spec fn previous_state(
    slots: Seq<ScheduledAccountState>,
    account_id: Seq<char>,
) -> (usize, Option<i64>)
    decreases slots.len(),
{
    if slots.len() == 0 {
        (0, None)
    } else if slots.last().stored.account_id@ == account_id {
        (slots.last().inflight, slots.last().cooldown_until)
    } else {
        previous_state(slots.drop_last(), account_id)
    }
}

/// The slots of the accounts that have a summary, with what was known of them.
pub open spec fn built(
    accounts: Seq<StoredAccount>,
    summaries: Seq<AccountSummary>,
    previous: Seq<ScheduledAccountState>,
) -> Seq<ScheduledAccountState>
    decreases accounts.len(),
{
    if accounts.len() == 0 {
        seq![]
    } else {
        let before = built(accounts.drop_last(), summaries, previous);
        let stored = accounts.last();
        match summary_of(summaries, stored.account_id@) {
            Some(summary) => {
                let (inflight, cooldown_until) = previous_state(previous, stored.account_id@);
                before.push(ScheduledAccountState { stored, summary, inflight, cooldown_until })
            },
            None => before,
        }
    }
}

// ---------------------------------------------------------------------------
// Lookups
// ---------------------------------------------------------------------------
/// The first summary of an account.
fn find_summary<'a>(summaries: &'a [AccountSummary], account_id: &str) -> (r: Option<
    &'a AccountSummary,
>)
    ensures
        match r {
            Some(summary) => summary_of(summaries@, account_id@) == Some(*summary),
            None => summary_of(summaries@, account_id@) is None,
        },
{
    let mut i: usize = 0;
    assert(summaries@.skip(0) =~= summaries@);
    while i < summaries.len()
        invariant
            0 <= i <= summaries@.len(),
            summary_of(summaries@, account_id@) == summary_of(
                summaries@.skip(i as int),
                account_id@,
            ),
        decreases summaries@.len() - i,
    {
        assert(summaries@.skip(i as int)[0] == summaries@[i as int]);
        assert(summaries@.skip(i as int).skip(1) =~= summaries@.skip(i + 1));
        if text::same(summaries[i].account_id.as_str(), account_id) {
            return Some(&summaries[i]);
        }
        i = i + 1;
    }
    None
}

/// The leases and the rest of an account that was scheduled before.
fn find_previous(slots: &Vec<ScheduledAccountState>, account_id: &str) -> (r: (usize, Option<i64>))
    ensures
        r == previous_state(slots@, account_id@),
{
    let mut i: usize = slots.len();
    assert(slots@.take(i as int) =~= slots@);
    while i > 0
        invariant
            0 <= i <= slots@.len(),
            previous_state(slots@, account_id@) == previous_state(
                slots@.take(i as int),
                account_id@,
            ),
        decreases i,
    {
        assert(slots@.take(i as int).last() == slots@[i - 1]);
        assert(slots@.take(i as int).drop_last() =~= slots@.take(i - 1));
        if text::same(slots[i - 1].stored.account_id.as_str(), account_id) {
            return (slots[i - 1].inflight, slots[i - 1].cooldown_until);
        }
        i = i - 1;
    }
    (0, None)
}

/// The place of the first slot of an account.
fn find_slot(slots: &Vec<ScheduledAccountState>, account_id: &str) -> (r: usize)
    ensures
        r == slot_of(slots@, account_id@),
        r <= slots@.len(),
{
    let ghost records = slot_records(slots@);
    let mut i: usize = 0;
    while i < slots.len()
        invariant
            0 <= i <= slots@.len(),
            records == slot_records(slots@),
            forall|j: int| 0 <= j < i ==> #[trigger] records[j].account_id != account_id@,
        decreases slots@.len() - i,
    {
        if text::same(slots[i].stored.account_id.as_str(), account_id) {
            proof {
                lemma_place_is(records, account_id@, i as int);
            }
            return i;
        }
        i = i + 1;
    }
    proof {
        lemma_place_is(records, account_id@, i as int);
    }
    i
}

/// The slots of the accounts that have a summary, with what was known of them.
pub fn build_accounts(
    store: &AccountsStore,
    summaries: &[AccountSummary],
    previous: &Vec<ScheduledAccountState>,
) -> (r: Vec<ScheduledAccountState>)
    ensures
        r@ == built(store.accounts@, summaries@, previous@),
{
    let mut out: Vec<ScheduledAccountState> = Vec::new();
    let mut i: usize = 0;
    assert(store.accounts@.take(0) =~= Seq::empty());
    while i < store.accounts.len()
        invariant
            0 <= i <= store.accounts@.len(),
            out@ == built(store.accounts@.take(i as int), summaries@, previous@),
        decreases store.accounts@.len() - i,
    {
        assert(store.accounts@.take(i + 1).last() == store.accounts@[i as int]);
        assert(store.accounts@.take(i + 1).drop_last() =~= store.accounts@.take(i as int));
        let stored = &store.accounts[i];
        if let Some(summary) = find_summary(summaries, stored.account_id.as_str()) {
            let (inflight, cooldown_until) = find_previous(previous, stored.account_id.as_str());
            out.push(
                ScheduledAccountState {
                    stored: stored.clone(),
                    summary: summary.clone(),
                    inflight,
                    cooldown_until,
                },
            );
        }
        i = i + 1;
    }
    assert(store.accounts@.take(i as int) =~= store.accounts@);
    out
}

// ---------------------------------------------------------------------------
// The scheduler
// ---------------------------------------------------------------------------
/// Whether a lease is one of the account at a place.
pub open spec fn is_lease_of(lease: SchedulerLease, slot: ScheduledAccountState) -> bool {
    &&& lease.account_id == slot.stored.account_id
    &&& lease.account == slot.stored
    &&& lease.summary == slot.summary
}

/// Whether a lease was given at a time for the account that the slot `chosen`
/// names: an available one, and the first of those in rank where their ranks
/// can be compared.
pub open spec fn is_acquired(
    before: Scheduler,
    after: Scheduler,
    lease: SchedulerLease,
    now: i64,
    chosen: int,
) -> bool {
    let slots = before.accounts@;
    let limit = before.max_inflight_per_account;
    let place = slot_of(slots, slots[chosen].stored.account_id@);
    &&& 0 <= chosen < slots.len()
    &&& available(slots[chosen], limit, now)
    &&& allowed_comparable(slot_ranks(slots), availability(slots, limit, now)) ==> is_first(
        slot_ranks(slots),
        availability(slots, limit, now),
        chosen,
    )
    &&& 0 <= place <= chosen
    &&& is_lease_of(lease, slots[place])
    &&& after.accounts@ == leased(slots, place)
    &&& after.max_concurrent_requests == before.max_concurrent_requests
    &&& after.max_inflight_per_account == limit
}

/// Whether a result is that of asking for a lease at a time.
pub open spec fn is_acquisition(
    before: Scheduler,
    after: Scheduler,
    r: Result<SchedulerLease, SchedulerError>,
    now: i64,
) -> bool {
    match r {
        Ok(lease) => exists|chosen: int| #[trigger]
            is_acquired(before, after, lease, now, chosen),
        Err(error) => {
            &&& error == SchedulerError::NoAccountAvailable
            &&& after == before
            &&& forall|i: int|
                0 <= i < before.accounts@.len() ==> !available(
                    #[trigger] before.accounts@[i],
                    before.max_inflight_per_account,
                    now,
                )
        },
    }
}

/// Whether a result is that of letting an account rest from a time on.
pub open spec fn is_cooldown(
    before: Scheduler,
    after: Scheduler,
    account_id: Seq<char>,
    seconds: Option<i64>,
    now: i64,
    r: bool,
) -> bool {
    let until = now + rest_of(seconds);
    &&& r == can_rest(before.accounts@, account_id, until)
    &&& after.accounts@ == if r {
        cooled(before.accounts@, account_id, until)
    } else {
        before.accounts@
    }
    &&& after.max_concurrent_requests == before.max_concurrent_requests
    &&& after.max_inflight_per_account == before.max_inflight_per_account
}

/// The seconds for which an account rests.
fn rest_seconds(seconds: Option<i64>) -> (r: i64)
    ensures
        r == rest_of(seconds),
{
    match seconds {
        Some(seconds) => seconds,
        None => DEFAULT_COOLDOWN_SECONDS,
    }
}

/// A number that is not zero.
fn at_least_one(n: usize) -> (r: usize)
    ensures
        r == if n == 0 {
            1
        } else {
            n
        },
{
    if n == 0 {
        1
    } else {
        n
    }
}

impl Scheduler {
    /// Whether every account can be counted one lease more.
    pub open spec fn has_room(self) -> bool {
        forall|i: int|
            0 <= i < self.accounts@.len() ==> (#[trigger] self.accounts@[i]).inflight < usize::MAX
    }

    /// A scheduler over the accounts of a pool that have a summary. Each limit is
    /// one at least.
    pub fn new(
        store: &AccountsStore,
        summaries: &[AccountSummary],
        max_concurrent_requests: usize,
        max_inflight_per_account: usize,
    ) -> (r: Scheduler)
        ensures
            r.accounts@ == built(store.accounts@, summaries@, seq![]),
            r.max_concurrent_requests == if max_concurrent_requests == 0 {
                1
            } else {
                max_concurrent_requests
            },
            r.max_inflight_per_account == if max_inflight_per_account == 0 {
                1
            } else {
                max_inflight_per_account
            },
    {
        let previous: Vec<ScheduledAccountState> = Vec::new();
        assert(previous@ =~= seq![]);
        Scheduler {
            accounts: build_accounts(store, summaries, &previous),
            max_concurrent_requests: at_least_one(max_concurrent_requests),
            max_inflight_per_account: at_least_one(max_inflight_per_account),
        }
    }

    /// Whether every account can be counted one lease more.
    pub fn can_count(&self) -> (r: bool)
        ensures
            r == self.has_room(),
    {
        let mut i: usize = 0;
        while i < self.accounts.len()
            invariant
                0 <= i <= self.accounts@.len(),
                forall|j: int|
                    0 <= j < i ==> (#[trigger] self.accounts@[j]).inflight < usize::MAX,
            decreases self.accounts@.len() - i,
        {
            if self.accounts[i].inflight == usize::MAX {
                return false;
            }
            i = i + 1;
        }
        true
    }

    /// The place of the account that comes first among the available ones.
    fn choose_slot(&self, now: i64) -> (r: Option<usize>)
        ensures
            r is None <==> (forall|i: int|
                0 <= i < self.accounts@.len() ==> !available(
                    #[trigger] self.accounts@[i],
                    self.max_inflight_per_account,
                    now,
                )),
            r is Some ==> r->0 < self.accounts@.len() && available(
                self.accounts@[r->0 as int],
                self.max_inflight_per_account,
                now,
            ),
            r is Some && allowed_comparable(
                slot_ranks(self.accounts@),
                availability(self.accounts@, self.max_inflight_per_account, now),
            ) ==> is_first(
                slot_ranks(self.accounts@),
                availability(self.accounts@, self.max_inflight_per_account, now),
                r->0 as int,
            ),
    {
        let ghost slots = self.accounts@;
        let ghost limit = self.max_inflight_per_account;
        let mut keys: Vec<RankKey> = Vec::new();
        let mut allowed: Vec<bool> = Vec::new();
        let mut i: usize = 0;
        while i < self.accounts.len()
            invariant
                0 <= i <= self.accounts@.len(),
                slots == self.accounts@,
                limit == self.max_inflight_per_account,
                key_ranks(keys@) =~= slot_ranks(slots.take(i as int)),
                allowed@ =~= availability(slots.take(i as int), limit, now),
                keys@.len() == i,
            decreases self.accounts@.len() - i,
        {
            let slot = &self.accounts[i];
            let key = rank_key(&slot.summary, slot.inflight);
            let ghost before = key_ranks(keys@);
            let rested = match slot.cooldown_until {
                Some(until) => until <= now,
                None => true,
            };
            keys.push(key);
            allowed.push(
                slot.summary.status != AccountStatus::Expired && slot.summary.status
                    != AccountStatus::WorkspaceRemoved && slot.inflight
                    < self.max_inflight_per_account && rested,
            );
            assert(key_ranks(keys@) =~= before.push(key@));
            assert(slot_ranks(slots.take(i + 1)) =~= slot_ranks(slots.take(i as int)).push(key@));
            i = i + 1;
        }
        assert(slots.take(i as int) =~= slots);
        let found = first_of(&keys, &allowed);
        proof {
            assert forall|j: int| 0 <= j < slots.len() implies #[trigger] allowed@[j] == available(
                slots[j],
                limit,
                now,
            ) by {}
            if found is None {
                assert forall|j: int| 0 <= j < slots.len() implies !available(
                    #[trigger] slots[j],
                    limit,
                    now,
                ) by {
                    assert(!allowed@[j]);
                }
            } else {
                assert(available(slots[found->0 as int], limit, now));
            }
        }
        found
    }

    /// Leases an account at a time: of those that are signed in, have a lease to
    /// spare and do not rest, the one with the fewest leases, ties by rank.
    pub fn acquire_at(&mut self, now: i64) -> (r: Result<SchedulerLease, SchedulerError>)
        requires
            old(self).has_room(),
        ensures
            is_acquisition(*old(self), *final(self), r, now),
    {
        let chosen: usize = match self.choose_slot(now) {
            Some(chosen) => chosen,
            None => return Err(SchedulerError::NoAccountAvailable),
        };
        let ghost slots = self.accounts@;
        proof {
            let account_id = slots[chosen as int].stored.account_id@;
            lemma_place_of(slot_records(slots), account_id);
            if slot_of(slots, account_id) > chosen {
                assert(slot_records(slots)[chosen as int].account_id != account_id);
            }
        }
        let place: usize = find_slot(
            &self.accounts,
            self.accounts[chosen].stored.account_id.as_str(),
        );
        let slot = &self.accounts[place];
        let lease = SchedulerLease {
            account_id: slot.stored.account_id.clone(),
            account: slot.stored.clone(),
            summary: slot.summary.clone(),
        };
        let inflight: usize = slot.inflight;
        self.set_inflight(place, inflight + 1);
        assert(is_acquired(*old(self), *self, lease, now, chosen as int));
        Ok(lease)
    }

    /// Sets the number of leases at a place.
    fn set_inflight(&mut self, place: usize, inflight: usize)
        requires
            place < old(self).accounts@.len(),
        ensures
            final(self).accounts@ == old(self).accounts@.update(
                place as int,
                with_inflight(old(self).accounts@[place as int], inflight as int),
            ),
            final(self).max_concurrent_requests == old(self).max_concurrent_requests,
            final(self).max_inflight_per_account == old(self).max_inflight_per_account,
    {
        let slot = &mut self.accounts[place];
        slot.inflight = inflight;
    }

    /// Leases an account now.
    pub fn acquire(&mut self) -> (r: Result<SchedulerLease, SchedulerError>)
        requires
            old(self).has_room(),
        ensures
            exists|now: i64| #[trigger] is_acquisition(*old(self), *final(self), r, now),
    {
        let now: i64 = now_unix_seconds();
        self.acquire_at(now)
    }

    /// Gives a lease of an account back.
    pub fn release_account(&mut self, account_id: &str)
        ensures
            final(self).accounts@ == released(old(self).accounts@, account_id@),
            final(self).max_concurrent_requests == old(self).max_concurrent_requests,
            final(self).max_inflight_per_account == old(self).max_inflight_per_account,
    {
        let place: usize = find_slot(&self.accounts, account_id);
        if place < self.accounts.len() {
            let inflight: usize = self.accounts[place].inflight;
            self.set_inflight(
                place,
                if inflight == 0 {
                    0
                } else {
                    inflight - 1
                },
            );
        }
    }

    /// Schedules the accounts of a pool anew. An account that was scheduled keeps
    /// its leases and its rest.
    pub fn replace_accounts(&mut self, store: &AccountsStore, summaries: &[AccountSummary])
        ensures
            final(self).accounts@ == built(store.accounts@, summaries@, old(self).accounts@),
            final(self).max_concurrent_requests == old(self).max_concurrent_requests,
            final(self).max_inflight_per_account == old(self).max_inflight_per_account,
    {
        let accounts = build_accounts(store, summaries, &self.accounts);
        self.accounts = accounts;
    }

    /// Lets an account rest from a time on. One that is not scheduled has no rest.
    pub fn cooldown_account_at(&mut self, account_id: &str, seconds: Option<i64>, now: i64)
        requires
            can_rest(old(self).accounts@, account_id@, now + rest_of(seconds)),
        ensures
            final(self).accounts@ == cooled(
                old(self).accounts@,
                account_id@,
                now + rest_of(seconds),
            ),
            final(self).max_concurrent_requests == old(self).max_concurrent_requests,
            final(self).max_inflight_per_account == old(self).max_inflight_per_account,
    {
        let place: usize = find_slot(&self.accounts, account_id);
        if place < self.accounts.len() {
            let until: i64 = now + rest_seconds(seconds);
            let slot = &mut self.accounts[place];
            slot.cooldown_until = Some(until);
        }
    }

    /// Lets an account rest from a time on. Where the account is scheduled and the
    /// end of its rest is out of the range of timestamps, nothing changes and the
    /// answer is `false`.
    pub fn cooldown_account_from(
        &mut self,
        account_id: &str,
        seconds: Option<i64>,
        now: i64,
    ) -> (r: bool)
        ensures
            r == can_rest(old(self).accounts@, account_id@, now + rest_of(seconds)),
            final(self).accounts@ == if r {
                cooled(old(self).accounts@, account_id@, now + rest_of(seconds))
            } else {
                old(self).accounts@
            },
            final(self).max_concurrent_requests == old(self).max_concurrent_requests,
            final(self).max_inflight_per_account == old(self).max_inflight_per_account,
    {
        let place: usize = find_slot(&self.accounts, account_id);
        if place < self.accounts.len() && now.checked_add(rest_seconds(seconds)).is_none() {
            return false;
        }
        self.cooldown_account_at(account_id, seconds, now);
        true
    }

    /// Lets an account rest from now on. Where the account is scheduled and the end
    /// of its rest is out of the range of timestamps, nothing changes and the answer
    /// is `false`.
    pub fn cooldown_account(&mut self, account_id: &str, seconds: Option<i64>) -> (r: bool)
        ensures
            exists|now: i64| #[trigger]
                is_cooldown(*old(self), *final(self), account_id@, seconds, now, r),
    {
        let now: i64 = now_unix_seconds();
        let r = self.cooldown_account_from(account_id, seconds, now);
        assert(is_cooldown(*old(self), *self, account_id@, seconds, now, r));
        r
    }

    /// What the scheduler says of its accounts, in the order in which they are
    /// leased.
    pub fn snapshots(&self) -> (r: Vec<SchedulerSnapshot>)
        ensures
            exists|order: Seq<int>|
                #![trigger lists_all(order, self.accounts@.len() as int)]
                {
                    &&& lists_all(order, self.accounts@.len() as int)
                    &&& all_comparable(slot_ranks(self.accounts@)) ==> is_stable_order(
                        slot_ranks(self.accounts@),
                        order,
                    )
                    &&& r@ == arranged(snapshots_of(self.accounts@), order)
                },
    {
        let ghost slots = self.accounts@;
        let mut keys: Vec<RankKey> = Vec::new();
        let mut i: usize = 0;
        while i < self.accounts.len()
            invariant
                0 <= i <= self.accounts@.len(),
                slots == self.accounts@,
                key_ranks(keys@) =~= slot_ranks(slots.take(i as int)),
                keys@.len() == i,
            decreases self.accounts@.len() - i,
        {
            let ghost before = key_ranks(keys@);
            let key = rank_key(&self.accounts[i].summary, self.accounts[i].inflight);
            keys.push(key);
            assert(key_ranks(keys@) =~= before.push(key@));
            assert(slot_ranks(slots.take(i + 1)) =~= slot_ranks(slots.take(i as int)).push(key@));
            i = i + 1;
        }
        assert(slots.take(i as int) =~= slots);
        let order = stable_order(&keys);
        let ghost listed = places(order@);
        let ghost expected = arranged(snapshots_of(slots), listed);
        let mut out: Vec<SchedulerSnapshot> = Vec::new();
        let mut k: usize = 0;
        while k < order.len()
            invariant
                0 <= k <= order@.len(),
                slots == self.accounts@,
                listed == places(order@),
                lists_all(listed, slots.len() as int),
                expected == arranged(snapshots_of(slots), listed),
                out@ =~= expected.take(k as int),
            decreases order@.len() - k,
        {
            let at: usize = order[k];
            assert(listed[k as int] == at);
            let slot = &self.accounts[at];
            let snapshot = SchedulerSnapshot {
                summary: slot.summary.clone(),
                inflight: slot.inflight,
                cooldown_until: slot.cooldown_until,
            };
            assert(snapshot == snapshots_of(slots)[at as int]);
            assert(snapshot == expected[k as int]);
            out.push(snapshot);
            k = k + 1;
        }
        assert(out@ =~= expected);
        assert(lists_all(listed, self.accounts@.len() as int));
        out
    }
}

/// What the scheduler says of some slots.
pub open spec fn snapshots_of(slots: Seq<ScheduledAccountState>) -> Seq<SchedulerSnapshot> {
    slots.map_values(
        |slot: ScheduledAccountState|
            SchedulerSnapshot {
                summary: slot.summary,
                inflight: slot.inflight,
                cooldown_until: slot.cooldown_until,
            },
    )
}

// ---------------------------------------------------------------------------
// Laws
// ---------------------------------------------------------------------------
/// The records of the slots are those of the accounts that were built, and each
/// slot has what was known of its account.
proof fn lemma_built(
    accounts: Seq<StoredAccount>,
    summaries: Seq<AccountSummary>,
    previous: Seq<ScheduledAccountState>,
)
    ensures
        forall|i: int|
            0 <= i < built(accounts, summaries, previous).len() ==> accounts.contains(
                (#[trigger] built(accounts, summaries, previous)[i]).stored,
            ) && (built(accounts, summaries, previous)[i].inflight, built(
                accounts,
                summaries,
                previous,
            )[i].cooldown_until) == previous_state(
                previous,
                built(accounts, summaries, previous)[i].stored.account_id@,
            ),
        distinct_accounts(crate::store::records_of(accounts)) ==> distinct_accounts(
            slot_records(built(accounts, summaries, previous)),
        ),
    decreases accounts.len(),
{
    let slots = built(accounts, summaries, previous);
    if accounts.len() > 0 {
        let rest = accounts.drop_last();
        let before = built(rest, summaries, previous);
        lemma_built(rest, summaries, previous);
        assert forall|i: int| 0 <= i < slots.len() implies accounts.contains(
            (#[trigger] slots[i]).stored,
        ) && (slots[i].inflight, slots[i].cooldown_until) == previous_state(
            previous,
            slots[i].stored.account_id@,
        ) by {
            if i < before.len() {
                assert(slots[i] == before[i]);
                let k = rest.index_of(before[i].stored);
                assert(accounts[k] == before[i].stored);
            } else {
                assert(accounts[accounts.len() - 1] == slots[i].stored);
            }
        }
        let records = crate::store::records_of(accounts);
        if distinct_accounts(records) {
            assert forall|i: int, j: int|
                0 <= i < j < rest.len() implies #[trigger] crate::store::records_of(
                rest,
            )[i].account_id != #[trigger] crate::store::records_of(rest)[j].account_id by {
                assert(records[i].account_id != records[j].account_id);
            }
            assert forall|i: int, j: int| 0 <= i < j < slots.len() implies #[trigger] slot_records(
                slots,
            )[i].account_id != #[trigger] slot_records(slots)[j].account_id by {
                assert(slot_records(before)[i] == slot_records(slots)[i]);
                if j < before.len() {
                    assert(slot_records(before)[j] == slot_records(slots)[j]);
                } else {
                    assert(before[i] == slots[i]);
                    let k = rest.index_of(before[i].stored);
                    assert(records[k].account_id == slots[i].stored.account_id@);
                    assert(records[accounts.len() - 1].account_id == slots[j].stored.account_id@);
                }
            }
        }
    }
}

/// What was known of an account is what one of its slots says, or nothing.
proof fn lemma_previous_state(slots: Seq<ScheduledAccountState>, account_id: Seq<char>)
    ensures
        previous_state(slots, account_id) == (0usize, None::<i64>) || exists|i: int|
            0 <= i < slots.len() && (#[trigger] slots[i]).stored.account_id@ == account_id && (
            slots[i].inflight,
            slots[i].cooldown_until,
        ) == previous_state(slots, account_id),
        (exists|i: int|
            0 <= i < slots.len() && (#[trigger] slots[i]).stored.account_id@ == account_id)
            ==> exists|i: int|
            0 <= i < slots.len() && (#[trigger] slots[i]).stored.account_id@ == account_id && (
            slots[i].inflight,
            slots[i].cooldown_until,
        ) == previous_state(slots, account_id),
    decreases slots.len(),
{
    if slots.len() > 0 {
        let rest = slots.drop_last();
        if slots.last().stored.account_id@ == account_id {
            assert(slots[slots.len() - 1] == slots.last());
        } else {
            lemma_previous_state(rest, account_id);
            if exists|i: int|
                0 <= i < slots.len() && (#[trigger] slots[i]).stored.account_id@ == account_id {
                let i = choose|i: int|
                    0 <= i < slots.len() && (#[trigger] slots[i]).stored.account_id@ == account_id;
                assert(rest[i].stored.account_id@ == account_id);
            }
            if exists|i: int|
                0 <= i < rest.len() && (#[trigger] rest[i]).stored.account_id@ == account_id && (
                rest[i].inflight,
                rest[i].cooldown_until,
            ) == previous_state(rest, account_id) {
                let i = choose|i: int|
                    0 <= i < rest.len() && (#[trigger] rest[i]).stored.account_id@ == account_id
                        && (rest[i].inflight, rest[i].cooldown_until) == previous_state(
                        rest,
                        account_id,
                    );
                assert(slots[i] == rest[i]);
            }
        }
    }
}

/// A new scheduler over a pool of distinct accounts keeps its limits, and has given
/// no lease.
pub proof fn law_new_scheduler_is_within_limits(
    store: AccountsStore,
    summaries: Seq<AccountSummary>,
    limit: usize,
)
    requires
        distinct_accounts(crate::store::records_of(store.accounts@)),
    ensures
        within_limits(built(store.accounts@, summaries, seq![]), limit),
        forall|i: int|
            0 <= i < built(store.accounts@, summaries, seq![]).len() ==> (#[trigger] built(
                store.accounts@,
                summaries,
                seq![],
            )[i]).inflight == 0,
{
    lemma_built(store.accounts@, summaries, seq![]);
}

/// A lease keeps the scheduler within its limits, is one of an account that was
/// available, and counts for that account alone.
pub proof fn law_acquiring_keeps_limits(
    before: Scheduler,
    after: Scheduler,
    lease: SchedulerLease,
    now: i64,
)
    requires
        within_limits(before.accounts@, before.max_inflight_per_account),
        is_acquisition(before, after, Ok(lease), now),
    ensures
        within_limits(after.accounts@, after.max_inflight_per_account),
        exists|i: int|
            {
                &&& 0 <= i < before.accounts@.len()
                &&& is_lease_of(lease, #[trigger] before.accounts@[i])
                &&& available(before.accounts@[i], before.max_inflight_per_account, now)
                &&& after.accounts@[i].inflight == before.accounts@[i].inflight + 1
            },
        forall|i: int|
            0 <= i < before.accounts@.len() && before.accounts@[i].stored.account_id@
                != lease.account_id@ ==> #[trigger] after.accounts@[i] == before.accounts@[i],
{
    let chosen = choose|chosen: int| #[trigger] is_acquired(before, after, lease, now, chosen);
    let slots = before.accounts@;
    let records = slot_records(slots);
    let account_id = slots[chosen].stored.account_id@;
    let place = slot_of(slots, account_id);
    lemma_place_of(records, account_id);
    if place < chosen {
        assert(records[place].account_id == account_id);
        assert(records[chosen].account_id == account_id);
    }
    assert(is_lease_of(lease, slots[place]));
    let next = slot_records(after.accounts@);
    assert(next =~= records);
}

/// Giving a lease back undoes it.
pub proof fn law_release_undoes_acquire(
    before: Scheduler,
    after: Scheduler,
    lease: SchedulerLease,
    now: i64,
)
    requires
        within_limits(before.accounts@, before.max_inflight_per_account),
        is_acquisition(before, after, Ok(lease), now),
    ensures
        released(after.accounts@, lease.account_id@) == before.accounts@,
{
    let chosen = choose|chosen: int| #[trigger] is_acquired(before, after, lease, now, chosen);
    let slots = before.accounts@;
    let records = slot_records(slots);
    let account_id = slots[chosen].stored.account_id@;
    let place = slot_of(slots, account_id);
    lemma_place_of(records, account_id);
    assert(slot_records(after.accounts@) =~= records);
    assert(records[place].account_id == account_id);
    if place < chosen {
        assert(records[chosen].account_id == account_id);
    }
    assert(released(after.accounts@, lease.account_id@) =~= slots);
}

/// Giving a lease back, and letting an account rest, keep the scheduler within its
/// limits.
pub proof fn law_release_and_cooldown_keep_limits(
    slots: Seq<ScheduledAccountState>,
    limit: usize,
    account_id: Seq<char>,
    until: int,
)
    requires
        within_limits(slots, limit),
    ensures
        within_limits(released(slots, account_id), limit),
        within_limits(cooled(slots, account_id, until), limit),
{
    lemma_place_of(slot_records(slots), account_id);
    assert(slot_records(released(slots, account_id)) =~= slot_records(slots));
    assert(slot_records(cooled(slots, account_id, until)) =~= slot_records(slots));
}

/// An account that rests gets no lease before the end of its rest.
pub proof fn law_resting_account_is_not_available(
    slots: Seq<ScheduledAccountState>,
    account_id: Seq<char>,
    until: i64,
    limit: usize,
    now: i64,
)
    requires
        slot_of(slots, account_id) < slots.len(),
        now < until,
    ensures
        !available(
            cooled(slots, account_id, until as int)[slot_of(slots, account_id)],
            limit,
            now,
        ),
{
    lemma_place_of(slot_records(slots), account_id);
}

/// Scheduling a pool of distinct accounts anew keeps the limits, and an account
/// that stays keeps its leases and its rest.
pub proof fn law_replacing_keeps_leases(
    slots: Seq<ScheduledAccountState>,
    accounts: Seq<StoredAccount>,
    summaries: Seq<AccountSummary>,
    limit: usize,
)
    requires
        within_limits(slots, limit),
        distinct_accounts(crate::store::records_of(accounts)),
    ensures
        within_limits(built(accounts, summaries, slots), limit),
        forall|i: int, j: int|
            0 <= i < slots.len() && 0 <= j < built(accounts, summaries, slots).len()
                && slots[i].stored.account_id@ == built(
                accounts,
                summaries,
                slots,
            )[j].stored.account_id@ ==> (#[trigger] slots[i]).inflight == (#[trigger] built(
                accounts,
                summaries,
                slots,
            )[j]).inflight && slots[i].cooldown_until == built(
                accounts,
                summaries,
                slots,
            )[j].cooldown_until,
{
    let next = built(accounts, summaries, slots);
    lemma_built(accounts, summaries, slots);
    assert forall|j: int| 0 <= j < next.len() implies (#[trigger] next[j]).inflight <= limit by {
        lemma_previous_state(slots, next[j].stored.account_id@);
    }
    assert forall|i: int, j: int|
        0 <= i < slots.len() && 0 <= j < next.len() && slots[i].stored.account_id@
            == next[j].stored.account_id@ implies (#[trigger] slots[i]).inflight == (
    #[trigger] next[j]).inflight && slots[i].cooldown_until == next[j].cooldown_until by {
        let account_id = next[j].stored.account_id@;
        lemma_previous_state(slots, account_id);
        let k = choose|k: int|
            0 <= k < slots.len() && (#[trigger] slots[k]).stored.account_id@ == account_id && (
            slots[k].inflight,
            slots[k].cooldown_until,
        ) == previous_state(slots, account_id);
        if k != i {
            assert(slot_records(slots)[k].account_id == slot_records(slots)[i].account_id);
        }
    }
}

/// Whether an account can serve one more request, said of what is known of it: it is neither
/// expired nor removed from its workspace, it has fewer leases than it may, and its rest, where
/// it has one, is over.
pub proof fn law_who_is_available(slot: ScheduledAccountState, limit: usize, now: i64)
    ensures
        available(slot, limit, now) <==> {
            &&& slot.summary.status != AccountStatus::Expired
            &&& slot.summary.status != AccountStatus::WorkspaceRemoved
            &&& slot.inflight < limit
            &&& slot.cooldown_until is None || slot.cooldown_until->0 <= now
        },
{
}

/// A lease is given exactly where some account is available, and then for one of those: none of
/// them has fewer leases and, of those that have as few, none comes before it in rank, where
/// their windows can be compared. The lease is of the account as it is scheduled.
pub proof fn law_lease_goes_to_the_least_busy(
    before: Scheduler,
    after: Scheduler,
    r: Result<SchedulerLease, SchedulerError>,
    now: i64,
    i: int,
)
    requires
        within_limits(before.accounts@, before.max_inflight_per_account),
        is_acquisition(before, after, r, now),
        0 <= i < before.accounts@.len(),
        available(before.accounts@[i], before.max_inflight_per_account, now),
    ensures
        r is Ok,
        after.accounts@.len() == before.accounts@.len(),
        exists|chosen: int|
            {
                let slot = #[trigger] before.accounts@[chosen];
                &&& 0 <= chosen < before.accounts@.len()
                &&& available(slot, before.max_inflight_per_account, now)
                &&& r->Ok_0.account_id@ == slot.stored.account_id@
                &&& r->Ok_0.account == slot.stored
                &&& r->Ok_0.summary == slot.summary
                &&& after.accounts@[chosen].inflight == slot.inflight + 1
                &&& allowed_comparable(
                    slot_ranks(before.accounts@),
                    availability(before.accounts@, before.max_inflight_per_account, now),
                ) ==> slot.inflight <= before.accounts@[i].inflight && !precedes(
                    rank_of(before.accounts@[i].summary, before.accounts@[i].inflight as nat),
                    rank_of(slot.summary, slot.inflight as nat),
                )
            },
{
    let slots = before.accounts@;
    let limit = before.max_inflight_per_account;
    let lease = r->Ok_0;
    let chosen = choose|chosen: int| #[trigger] is_acquired(before, after, lease, now, chosen);
    let records = slot_records(slots);
    let account_id = slots[chosen].stored.account_id@;
    let place = slot_of(slots, account_id);
    lemma_place_of(records, account_id);
    if place < chosen {
        assert(records[place].account_id == account_id);
        assert(records[chosen].account_id == account_id);
    }
    assert(place == chosen);
    if allowed_comparable(slot_ranks(slots), availability(slots, limit, now)) {
        assert(availability(slots, limit, now)[i]);
        assert(slot_ranks(slots)[i] == rank_of(slots[i].summary, slots[i].inflight as nat));
        assert(!precedes(slot_ranks(slots)[i], slot_ranks(slots)[chosen]));
    }
    assert(after.accounts@[chosen].inflight == slots[chosen].inflight + 1);
}

/// Where nobody is available, no lease is given and nothing changes.
pub proof fn law_no_lease_without_an_account(
    before: Scheduler,
    after: Scheduler,
    r: Result<SchedulerLease, SchedulerError>,
    now: i64,
)
    requires
        is_acquisition(before, after, r, now),
        forall|i: int|
            0 <= i < before.accounts@.len() ==> !available(
                #[trigger] before.accounts@[i],
                before.max_inflight_per_account,
                now,
            ),
    ensures
        r is Err,
        after == before,
{
    if let Ok(lease) = r {
        let chosen = choose|chosen: int| #[trigger] is_acquired(before, after, lease, now, chosen);
        assert(available(
            before.accounts@[chosen],
            before.max_inflight_per_account,
            now,
        ));
    }
}

/// Giving a lease back takes one from the account, unless it has none, and from no other; a
/// rest stays.
pub proof fn law_release_counts_one_less(
    slots: Seq<ScheduledAccountState>,
    account_id: Seq<char>,
    i: int,
)
    requires
        distinct_accounts(slot_records(slots)),
        0 <= i < slots.len(),
    ensures
        ({
            let after = released(slots, account_id);
            &&& after.len() == slots.len()
            &&& slots[i].stored.account_id@ != account_id ==> after[i] == slots[i]
            &&& slots[i].stored.account_id@ == account_id && slots[i].inflight > 0
                ==> after[i].inflight == slots[i].inflight - 1
            &&& slots[i].inflight == 0 ==> after[i].inflight == 0
            &&& after[i].stored == slots[i].stored
            &&& after[i].summary == slots[i].summary
            &&& after[i].cooldown_until == slots[i].cooldown_until
        }),
{
    let records = slot_records(slots);
    lemma_place_of(records, account_id);
    let place = slot_of(slots, account_id);
    assert(records[i].account_id == slots[i].stored.account_id@);
    if records[i].account_id == account_id {
        assert(crate::store::has_account(records, account_id));
        if place != i {
            assert(records[place].account_id == records[i].account_id);
        }
    }
}

/// An account that is let rest rests from then on for as long as was said, or for half a minute;
/// until then it gets no lease, and from then on it does again as far as its rest goes. Nothing
/// else changes, and no other account rests.
pub proof fn law_rest_lasts_as_long_as_was_said(
    before: Scheduler,
    after: Scheduler,
    account_id: Seq<char>,
    seconds: Option<i64>,
    now: i64,
    r: bool,
    i: int,
    later: i64,
)
    requires
        distinct_accounts(slot_records(before.accounts@)),
        is_cooldown(before, after, account_id, seconds, now, r),
        0 <= i < before.accounts@.len(),
    ensures
        ({
            let rest: int = match seconds {
                Some(seconds) => seconds as int,
                None => 30,
            };
            let slot = before.accounts@[i];
            let rested = after.accounts@[i];
            &&& after.accounts@.len() == before.accounts@.len()
            &&& slot.stored.account_id@ != account_id ==> rested == slot
            &&& slot.stored.account_id@ == account_id ==> (r <==> i64::MIN <= now + rest
                <= i64::MAX)
            &&& slot.stored.account_id@ == account_id && r ==> {
                &&& rested.cooldown_until == Some((now + rest) as i64)
                &&& rested.inflight == slot.inflight
                &&& rested.stored == slot.stored
                &&& rested.summary == slot.summary
                &&& later < now + rest ==> !available(
                    rested,
                    after.max_inflight_per_account,
                    later,
                )
                &&& later >= now + rest && switchable(slot.summary) && slot.inflight
                    < before.max_inflight_per_account ==> available(
                    rested,
                    after.max_inflight_per_account,
                    later,
                )
            }
            &&& !r ==> after.accounts@ == before.accounts@
        }),
{
    let slots = before.accounts@;
    let records = slot_records(slots);
    lemma_place_of(records, account_id);
    let place = slot_of(slots, account_id);
    assert(records[i].account_id == slots[i].stored.account_id@);
    if records[i].account_id == account_id {
        assert(crate::store::has_account(records, account_id));
        if place != i {
            assert(records[place].account_id == records[i].account_id);
        }
    }
}

/// The first summary of an account is of that account, and there is one exactly where some
/// summary is.
proof fn lemma_summary_of(summaries: Seq<AccountSummary>, account_id: Seq<char>)
    ensures
        summary_of(summaries, account_id) is Some <==> exists|i: int|
            0 <= i < summaries.len() && (#[trigger] summaries[i]).account_id@ == account_id,
        summary_of(summaries, account_id) is Some ==> summary_of(
            summaries,
            account_id,
        )->0.account_id@ == account_id && summaries.contains(summary_of(summaries, account_id)->0),
    decreases summaries.len(),
{
    if summaries.len() > 0 {
        let rest = summaries.skip(1);
        if summaries[0].account_id@ != account_id {
            lemma_summary_of(rest, account_id);
            if exists|i: int|
                0 <= i < summaries.len() && (#[trigger] summaries[i]).account_id@ == account_id {
                let i = choose|i: int|
                    0 <= i < summaries.len() && (#[trigger] summaries[i]).account_id@ == account_id;
                assert(rest[i - 1] == summaries[i]);
            }
            if summary_of(rest, account_id) is Some {
                let i = rest.index_of(summary_of(rest, account_id)->0);
                assert(summaries[i + 1] == rest[i]);
                assert(summaries.contains(summary_of(rest, account_id)->0));
            }
        }
    }
}

/// The accounts that are scheduled are those of the pool that have a summary, each with a
/// summary of its own.
pub proof fn law_scheduled_accounts_are_those_with_a_summary(
    accounts: Seq<StoredAccount>,
    summaries: Seq<AccountSummary>,
    previous: Seq<ScheduledAccountState>,
    i: int,
    k: int,
)
    requires
        0 <= i < accounts.len(),
        0 <= k < built(accounts, summaries, previous).len(),
    ensures
        ({
            let slots = built(accounts, summaries, previous);
            &&& accounts.contains(slots[k].stored)
            &&& summaries.contains(slots[k].summary)
            &&& slots[k].summary.account_id@ == slots[k].stored.account_id@
        }),
        ({
            let slots = built(accounts, summaries, previous);
            (exists|s: int|
                0 <= s < summaries.len() && (#[trigger] summaries[s]).account_id@
                    == accounts[i].account_id@) <==> exists|j: int|
                0 <= j < slots.len() && (#[trigger] slots[j]).stored.account_id@
                    == accounts[i].account_id@
        }),
{
    lemma_built(accounts, summaries, previous);
    lemma_built_summaries(accounts, summaries, previous);
    let slots = built(accounts, summaries, previous);
    lemma_summary_of(summaries, accounts[i].account_id@);
    if summary_of(summaries, accounts[i].account_id@) is Some {
        assert(summary_of(summaries, accounts[i].account_id@) is Some);
        lemma_built_has(accounts, summaries, previous, i);
    }
    if exists|j: int|
        0 <= j < slots.len() && (#[trigger] slots[j]).stored.account_id@
            == accounts[i].account_id@ {
        let j = choose|j: int|
            0 <= j < slots.len() && (#[trigger] slots[j]).stored.account_id@
                == accounts[i].account_id@;
        assert(summaries.contains(slots[j].summary));
        let s = summaries.index_of(slots[j].summary);
        assert(summaries[s].account_id@ == accounts[i].account_id@);
    }
}

/// Each scheduled account has a summary of its own.
proof fn lemma_built_summaries(
    accounts: Seq<StoredAccount>,
    summaries: Seq<AccountSummary>,
    previous: Seq<ScheduledAccountState>,
)
    ensures
        forall|k: int|
            0 <= k < built(accounts, summaries, previous).len() ==> {
                let slot = #[trigger] built(accounts, summaries, previous)[k];
                &&& summaries.contains(slot.summary)
                &&& slot.summary.account_id@ == slot.stored.account_id@
            },
    decreases accounts.len(),
{
    if accounts.len() > 0 {
        let rest = accounts.drop_last();
        lemma_built_summaries(rest, summaries, previous);
        lemma_summary_of(summaries, accounts.last().account_id@);
        let before = built(rest, summaries, previous);
        let slots = built(accounts, summaries, previous);
        assert forall|k: int| 0 <= k < slots.len() implies ({
            let slot = #[trigger] slots[k];
            &&& summaries.contains(slot.summary)
            &&& slot.summary.account_id@ == slot.stored.account_id@
        }) by {
            if k < before.len() {
                assert(slots[k] == before[k]);
            }
        }
    }
}

/// An account with a summary is scheduled.
proof fn lemma_built_has(
    accounts: Seq<StoredAccount>,
    summaries: Seq<AccountSummary>,
    previous: Seq<ScheduledAccountState>,
    i: int,
)
    requires
        0 <= i < accounts.len(),
        summary_of(summaries, accounts[i].account_id@) is Some,
    ensures
        exists|j: int|
            0 <= j < built(accounts, summaries, previous).len() && (#[trigger] built(
                accounts,
                summaries,
                previous,
            )[j]).stored.account_id@ == accounts[i].account_id@,
    decreases accounts.len(),
{
    let rest = accounts.drop_last();
    let before = built(rest, summaries, previous);
    let slots = built(accounts, summaries, previous);
    if i < rest.len() {
        lemma_built_has(rest, summaries, previous, i);
        let j = choose|j: int|
            0 <= j < before.len() && (#[trigger] before[j]).stored.account_id@
                == rest[i].account_id@;
        assert(slots[j] == before[j]);
    } else {
        assert(slots[before.len() as int].stored.account_id@ == accounts[i].account_id@);
    }
}

/// What the scheduler says of its accounts is what it keeps of them.
pub proof fn law_snapshots_say_what_is_kept(slots: Seq<ScheduledAccountState>, i: int)
    requires
        0 <= i < slots.len(),
    ensures
        snapshots_of(slots).len() == slots.len(),
        snapshots_of(slots)[i].summary == slots[i].summary,
        snapshots_of(slots)[i].inflight == slots[i].inflight,
        snapshots_of(slots)[i].cooldown_until == slots[i].cooldown_until,
{
}

/// Accounts are scheduled in the order of the pool: a further account of it that has a summary
/// comes last, with the first summary that is of it, and one without changes nothing.
pub proof fn law_accounts_are_scheduled_in_order(
    accounts: Seq<StoredAccount>,
    summaries: Seq<AccountSummary>,
    previous: Seq<ScheduledAccountState>,
    account: StoredAccount,
    k: int,
)
    requires
        0 <= k < summaries.len(),
    ensures
        ({
            let before = built(accounts, summaries, previous);
            let after = built(accounts.push(account), summaries, previous);
            &&& summaries[k].account_id@ == account.account_id@ && (forall|j: int|
                0 <= j < k ==> (#[trigger] summaries[j]).account_id@ != account.account_id@) ==> {
                &&& after.len() == before.len() + 1
                &&& after.take(before.len() as int) == before
                &&& after.last().stored == account
                &&& after.last().summary == summaries[k]
            }
            &&& (forall|j: int|
                0 <= j < summaries.len() ==> (#[trigger] summaries[j]).account_id@
                    != account.account_id@) ==> after == before
            &&& built(Seq::<StoredAccount>::empty(), summaries, previous).len() == 0
        }),
{
    let before = built(accounts, summaries, previous);
    let after = built(accounts.push(account), summaries, previous);
    let account_id = account.account_id@;
    assert(accounts.push(account).drop_last() =~= accounts);
    lemma_summary_of(summaries, account_id);
    if summaries[k].account_id@ == account_id && (forall|j: int|
        0 <= j < k ==> (#[trigger] summaries[j]).account_id@ != account_id) {
        lemma_first_summary(summaries, account_id, k);
        assert(after.take(before.len() as int) =~= before);
    }
}

/// The first summary of an account is the first that is of it.
proof fn lemma_first_summary(summaries: Seq<AccountSummary>, account_id: Seq<char>, k: int)
    requires
        0 <= k < summaries.len(),
        summaries[k].account_id@ == account_id,
        forall|j: int| 0 <= j < k ==> (#[trigger] summaries[j]).account_id@ != account_id,
    ensures
        summary_of(summaries, account_id) == Some(summaries[k]),
    decreases k,
{
    if k > 0 {
        assert(summaries[0].account_id@ != account_id);
        let rest = summaries.skip(1);
        assert forall|j: int| 0 <= j < k - 1 implies (#[trigger] rest[j]).account_id@
            != account_id by {
            assert(rest[j] == summaries[j + 1]);
        }
        lemma_first_summary(rest, account_id, k - 1);
    }
}

} // verus!
