//! Which account comes first.
//!
//! More of the week left comes first, then more of the five hours, then the
//! account that is signed in, then the label.

use crate::models::{AccountStatus, AccountSummary, UsageWindow};
use crate::percent::{law_more_used_leaves_less, law_remaining_is_what_is_left};
use crate::text;
use crate::text::{
    lemma_text_less_irreflexive, lemma_text_less_total, lemma_text_less_transitive, text_less,
};
use std::cmp::Ordering;
use vstd::arithmetic::power2::{lemma_pow2_pos, pow2};
use vstd::prelude::*;

verus! {

// ---------------------------------------------------------------------------
// Ranks
// ---------------------------------------------------------------------------
/// What decides the place of an account. A score of `None` is no number and
/// compares with nothing.
pub struct Rank {
    pub inflight: nat,
    pub week: Option<int>,
    pub five_hour: Option<int>,
    pub current: bool,
    pub label: Seq<char>,
}

/// What remains of a window. A window that is not known has less left than any
/// that is.
pub open spec fn window_score(window: Option<UsageWindow>) -> Option<int> {
    match window {
        None => Some(-1),
        Some(window) => if window.used_percent.is_nan() {
            None
        } else {
            Some(window.used_percent.remaining())
        },
    }
}

/// The rank of an account that serves `inflight` requests.
pub open spec fn rank_of(account: AccountSummary, inflight: nat) -> Rank {
    Rank {
        inflight,
        week: match account.usage {
            Some(usage) => window_score(usage.one_week),
            None => Some(-1),
        },
        five_hour: match account.usage {
            Some(usage) => window_score(usage.five_hour),
            None => Some(-1),
        },
        current: account.is_current,
        label: account.label@,
    }
}

/// Whether a score is known to be greater than another.
pub open spec fn score_above(a: Option<int>, b: Option<int>) -> bool {
    a is Some && b is Some && a->0 > b->0
}

/// Whether the one rank comes strictly before the other.
pub open spec fn precedes(a: Rank, b: Rank) -> bool {
    if a.inflight != b.inflight {
        a.inflight < b.inflight
    } else if score_above(a.week, b.week) || score_above(b.week, a.week) {
        score_above(a.week, b.week)
    } else if score_above(a.five_hour, b.five_hour) || score_above(b.five_hour, a.five_hour) {
        score_above(a.five_hour, b.five_hour)
    } else if a.current != b.current {
        a.current
    } else {
        text_less(a.label, b.label)
    }
}

/// Whether every score of a rank is a number.
pub open spec fn comparable(rank: Rank) -> bool {
    rank.week is Some && rank.five_hour is Some
}

/// Whether all ranks are comparable.
pub open spec fn all_comparable(ranks: Seq<Rank>) -> bool {
    forall|i: int| 0 <= i < ranks.len() ==> comparable(#[trigger] ranks[i])
}

/// Whether the ranks that may be chosen are comparable.
pub open spec fn allowed_comparable(ranks: Seq<Rank>, allowed: Seq<bool>) -> bool {
    forall|i: int| 0 <= i < ranks.len() && allowed[i] ==> comparable(#[trigger] ranks[i])
}

/// The ranks of accounts that serve no requests.
pub open spec fn idle_ranks(accounts: Seq<AccountSummary>) -> Seq<Rank> {
    accounts.map_values(|account: AccountSummary| rank_of(account, 0))
}

/// Nothing comes before itself.
pub proof fn law_precedes_is_irreflexive(a: Rank)
    ensures
        !precedes(a, a),
{
    lemma_text_less_irreflexive(a.label);
}

/// Of two ranks at most one comes before the other.
pub proof fn law_precedes_is_asymmetric(a: Rank, b: Rank)
    requires
        precedes(a, b),
    ensures
        !precedes(b, a),
{
    if text_less(a.label, b.label) && text_less(b.label, a.label) {
        lemma_text_less_transitive(a.label, b.label, a.label);
        lemma_text_less_irreflexive(a.label);
    }
}

/// Comparable ranks are ordered transitively.
pub proof fn law_precedes_is_transitive(a: Rank, b: Rank, c: Rank)
    requires
        comparable(a),
        comparable(b),
        comparable(c),
        precedes(a, b),
        precedes(b, c),
    ensures
        precedes(a, c),
{
    if text_less(a.label, b.label) && text_less(b.label, c.label) {
        lemma_text_less_transitive(a.label, b.label, c.label);
    }
}

/// Among comparable ranks, what is not before another is tied with it or after
/// it: `precedes` orders them but for ties.
pub proof fn law_precedes_is_a_weak_order(a: Rank, b: Rank, c: Rank)
    requires
        comparable(a),
        comparable(b),
        comparable(c),
        !precedes(b, a),
        !precedes(c, b),
    ensures
        !precedes(c, a),
{
    lemma_text_less_total(a.label, b.label);
    lemma_text_less_total(b.label, c.label);
    if precedes(c, a) {
        if text_less(c.label, a.label) && text_less(a.label, b.label) {
            lemma_text_less_transitive(c.label, a.label, b.label);
        }
        if text_less(b.label, c.label) && text_less(c.label, a.label) {
            lemma_text_less_transitive(b.label, c.label, a.label);
        }
    }
}

// ---------------------------------------------------------------------------
// Keys
// ---------------------------------------------------------------------------
/// What decides the place of an account, for comparing.
pub struct RankKey {
    pub inflight: usize,
    pub week: Score,
    pub five_hour: Score,
    pub current: bool,
    pub label: String,
}

/// What remains of a window, for comparing.
#[derive(Clone, Copy)]
pub enum Score {
    /// The window is not known.
    Unknown,
    /// What remains is no number.
    NotANumber,
    /// What remains, in units of 2^-47 percent.
    Units(u64),
}

impl View for Score {
    type V = Option<int>;

    open spec fn view(&self) -> Option<int> {
        match *self {
            Score::Unknown => Some(-1),
            Score::NotANumber => None,
            Score::Units(units) => Some(units * pow2(1027)),
        }
    }
}

impl View for RankKey {
    type V = Rank;

    open spec fn view(&self) -> Rank {
        Rank {
            inflight: self.inflight as nat,
            week: self.week@,
            five_hour: self.five_hour@,
            current: self.current,
            label: self.label@,
        }
    }
}

/// The ranks of keys.
pub open spec fn key_ranks(keys: Seq<RankKey>) -> Seq<Rank> {
    keys.map_values(|key: RankKey| key@)
}

impl Score {
    /// Whether a score is known to be greater than another.
    fn above(&self, other: &Score) -> (r: bool)
        ensures
            r == score_above(self@, other@),
    {
        proof {
            lemma_pow2_pos(1027);
        }
        match (self, other) {
            (Score::Units(a), Score::Units(b)) => {
                proof {
                    let x = *a as int;
                    let y = *b as int;
                    let p = pow2(1027) as int;
                    assert(x > y <==> x * p > y * p) by (nonlinear_arith)
                        requires
                            p > 0,
                    ;
                }
                *a > *b
            },
            (Score::Units(a), Score::Unknown) => {
                proof {
                    let x = *a as int;
                    let p = pow2(1027) as int;
                    assert(x * p >= 0) by (nonlinear_arith)
                        requires
                            p > 0,
                            x >= 0,
                    ;
                }
                true
            },
            (Score::Unknown, Score::Units(b)) => {
                proof {
                    let y = *b as int;
                    let p = pow2(1027) as int;
                    assert(y * p >= 0) by (nonlinear_arith)
                        requires
                            p > 0,
                            y >= 0,
                    ;
                }
                false
            },
            _ => false,
        }
    }
}

/// What remains of a window.
pub fn window_remaining_percent(window: Option<&UsageWindow>) -> (r: Score)
    ensures
        r@ == window_score(
            match window {
                Some(window) => Some(*window),
                None => None,
            },
        ),
{
    match window {
        None => Score::Unknown,
        Some(window) => match window.used_percent.remaining_units() {
            Some(units) => Score::Units(units),
            None => Score::NotANumber,
        },
    }
}

/// The key of an account that serves `inflight` requests.
pub fn rank_key(account: &AccountSummary, inflight: usize) -> (r: RankKey)
    ensures
        r@ == rank_of(*account, inflight as nat),
{
    let (week, five_hour) = match &account.usage {
        Some(usage) => (
            window_remaining_percent(usage.one_week.as_ref()),
            window_remaining_percent(usage.five_hour.as_ref()),
        ),
        None => (Score::Unknown, Score::Unknown),
    };
    RankKey {
        inflight,
        week,
        five_hour,
        current: account.is_current,
        label: account.label.clone(),
    }
}

/// Whether the one key comes strictly before the other.
pub fn key_precedes(a: &RankKey, b: &RankKey) -> (r: bool)
    ensures
        r == precedes(a@, b@),
{
    if a.inflight != b.inflight {
        a.inflight < b.inflight
    } else if a.week.above(&b.week) {
        true
    } else if b.week.above(&a.week) {
        false
    } else if a.five_hour.above(&b.five_hour) {
        true
    } else if b.five_hour.above(&a.five_hour) {
        false
    } else if a.current != b.current {
        a.current
    } else {
        text::less(a.label.as_str(), b.label.as_str())
    }
}

/// Compares two accounts: `Less` where the first comes before the second.
pub fn compare_accounts_by_remaining(a: &AccountSummary, b: &AccountSummary) -> (r: Ordering)
    ensures
        r == Ordering::Less <==> precedes(rank_of(*a, 0), rank_of(*b, 0)),
        r == Ordering::Greater <==> precedes(rank_of(*b, 0), rank_of(*a, 0)),
{
    let left = rank_key(a, 0);
    let right = rank_key(b, 0);
    if key_precedes(&left, &right) {
        proof {
            law_precedes_is_asymmetric(left@, right@);
        }
        Ordering::Less
    } else if key_precedes(&right, &left) {
        Ordering::Greater
    } else {
        Ordering::Equal
    }
}

// ---------------------------------------------------------------------------
// The first
// ---------------------------------------------------------------------------
/// Whether `best` is the place of the first: it may be chosen, nothing that may
/// be chosen comes before it, and nothing at an earlier place is tied with it.
pub open spec fn is_first(ranks: Seq<Rank>, allowed: Seq<bool>, best: int) -> bool {
    &&& 0 <= best < ranks.len()
    &&& allowed[best]
    &&& forall|i: int|
        #![trigger ranks[i]]
        0 <= i < ranks.len() && allowed[i] ==> !precedes(ranks[i], ranks[best]) && (i < best
            ==> precedes(ranks[best], ranks[i]))
}

/// There is only one first.
pub proof fn law_first_is_unique(ranks: Seq<Rank>, allowed: Seq<bool>, a: int, b: int)
    requires
        is_first(ranks, allowed, a),
        is_first(ranks, allowed, b),
    ensures
        a == b,
{
    if a < b {
        assert(precedes(ranks[b], ranks[a]));
    } else if b < a {
        assert(precedes(ranks[a], ranks[b]));
    }
}

/// The place of the first among the keys that may be chosen.
pub fn first_of(keys: &Vec<RankKey>, allowed: &Vec<bool>) -> (r: Option<usize>)
    requires
        keys@.len() == allowed@.len(),
    ensures
        r is None <==> (forall|i: int| 0 <= i < allowed@.len() ==> !#[trigger] allowed@[i]),
        r is Some ==> r->0 < keys@.len() && allowed@[r->0 as int],
        r is Some && allowed_comparable(key_ranks(keys@), allowed@) ==> is_first(
            key_ranks(keys@),
            allowed@,
            r->0 as int,
        ),
{
    let ghost ranks = key_ranks(keys@);
    let mut best: Option<usize> = None;
    let mut i: usize = 0;
    while i < keys.len()
        invariant
            keys@.len() == allowed@.len(),
            ranks == key_ranks(keys@),
            0 <= i <= keys@.len(),
            best is None <==> (forall|j: int| 0 <= j < i ==> !#[trigger] allowed@[j]),
            best is Some ==> best->0 < i && allowed@[best->0 as int],
            best is Some && allowed_comparable(ranks, allowed@) ==> is_first(
                ranks.take(i as int),
                allowed@,
                best->0 as int,
            ),
        decreases keys@.len() - i,
    {
        let ghost before = best;
        if allowed[i] {
            let better = match best {
                None => true,
                Some(at) => key_precedes(&keys[i], &keys[at]),
            };
            if better {
                best = Some(i);
            }
        }
        proof {
            if best is Some && allowed_comparable(ranks, allowed@) {
                let now = best->0 as int;
                let seen = ranks.take(i + 1);
                assert forall|j: int|
                    #![trigger seen[j]]
                    0 <= j < seen.len() && allowed@[j] implies !precedes(seen[j], seen[now]) && (j
                    < now ==> precedes(seen[now], seen[j])) by {
                    law_precedes_is_irreflexive(ranks[now]);
                    if before is Some {
                        let old_best = before->0 as int;
                        assert(ranks.take(i as int)[old_best] == ranks[old_best]);
                        if j < i {
                            assert(ranks.take(i as int)[j] == ranks[j]);
                        }
                        assert(comparable(ranks[old_best]));
                        assert(comparable(ranks[j]));
                        assert(now == i ==> comparable(ranks[i as int]));
                        if now == i && j < i {
                            // ranks[i] comes before the old best, which nothing before it precedes
                            law_precedes_is_asymmetric(ranks[i as int], ranks[old_best]);
                            if precedes(ranks[j], ranks[i as int]) {
                                law_precedes_is_transitive(
                                    ranks[j],
                                    ranks[i as int],
                                    ranks[old_best],
                                );
                            }
                            if !precedes(ranks[i as int], ranks[j]) {
                                law_precedes_is_a_weak_order(
                                    ranks[old_best],
                                    ranks[j],
                                    ranks[i as int],
                                );
                            }
                        }
                    } else if j < i {
                        assert(!allowed@[j]);
                    }
                }
                assert(is_first(seen, allowed@, now));
            }
        }
        i = i + 1;
    }
    assert(ranks.take(i as int) =~= ranks);
    best
}

/// Whether an account may be switched to.
pub open spec fn switchable(account: AccountSummary) -> bool {
    account.status != AccountStatus::Expired && account.status != AccountStatus::WorkspaceRemoved
}

/// Which accounts may be switched to.
pub open spec fn switchable_flags(accounts: Seq<AccountSummary>) -> Seq<bool> {
    accounts.map_values(|account: AccountSummary| switchable(account))
}

/// The key of the next account continues the ranks.
proof fn lemma_push_rank(accounts: Seq<AccountSummary>, i: int, before: Seq<RankKey>, key: RankKey)
    requires
        0 <= i < accounts.len(),
        key_ranks(before) == idle_ranks(accounts.take(i)),
        key@ == rank_of(accounts[i], 0),
    ensures
        key_ranks(before.push(key)) == idle_ranks(accounts.take(i + 1)),
{
    assert(key_ranks(before.push(key)) =~= key_ranks(before).push(key@));
    assert(accounts.take(i + 1) =~= accounts.take(i).push(accounts[i]));
    assert(idle_ranks(accounts.take(i).push(accounts[i])) =~= idle_ranks(accounts.take(i)).push(
        rank_of(accounts[i], 0),
    ));
}

/// The place of the best account that may be switched to.
fn best_index(accounts: &[AccountSummary]) -> (r: Option<usize>)
    ensures
        r is None <==> (forall|i: int|
            0 <= i < accounts@.len() ==> !switchable(#[trigger] accounts@[i])),
        r is Some ==> r->0 < accounts@.len() && switchable(accounts@[r->0 as int]),
        r is Some && allowed_comparable(
            idle_ranks(accounts@),
            switchable_flags(accounts@),
        ) ==> is_first(
            idle_ranks(accounts@),
            switchable_flags(accounts@),
            r->0 as int,
        ),
{
    let mut keys: Vec<RankKey> = Vec::new();
    let mut allowed: Vec<bool> = Vec::new();
    let mut i: usize = 0;
    while i < accounts.len()
        invariant
            0 <= i <= accounts@.len(),
            key_ranks(keys@) == idle_ranks(accounts@.take(i as int)),
            allowed@ == switchable_flags(accounts@.take(i as int)),
            keys@.len() == i,
        decreases accounts@.len() - i,
    {
        let account = &accounts[i];
        let key = rank_key(account, 0);
        proof {
            lemma_push_rank(accounts@, i as int, keys@, key);
        }
        keys.push(key);
        allowed.push(
            account.status != AccountStatus::Expired && account.status
                != AccountStatus::WorkspaceRemoved,
        );
        assert(allowed@ =~= switchable_flags(accounts@.take(i + 1)));
        i = i + 1;
    }
    assert(accounts@.take(i as int) =~= accounts@);
    let found = first_of(&keys, &allowed);
    proof {
        assert forall|j: int| 0 <= j < accounts@.len() implies #[trigger] allowed@[j] == switchable(
            accounts@[j],
        ) by {}
        if found is None {
            assert forall|j: int| 0 <= j < accounts@.len() implies !switchable(
                #[trigger] accounts@[j],
            ) by {
                assert(!allowed@[j]);
            }
        } else {
            assert(switchable(accounts@[found->0 as int]));
        }
    }
    found
}

/// Whether `selected` is the best of some accounts that may be switched to.
pub open spec fn is_best(accounts: Seq<AccountSummary>, selected: AccountSummary) -> bool {
    exists|best: int|
        #![trigger accounts[best]]
        is_first(idle_ranks(accounts), switchable_flags(accounts), best) && accounts[best]
            == selected
}

/// The best account that may be switched to.
pub fn pick_best_account(accounts: &[AccountSummary]) -> (r: Option<AccountSummary>)
    ensures
        r is None <==> (forall|i: int|
            0 <= i < accounts@.len() ==> !switchable(#[trigger] accounts@[i])),
        r is Some ==> accounts@.contains(r->0) && switchable(r->0),
        r is Some && allowed_comparable(
            idle_ranks(accounts@),
            switchable_flags(accounts@),
        ) ==> is_best(accounts@, r->0),
{
    match best_index(accounts) {
        Some(at) => {
            let picked = accounts[at].clone();
            assert(accounts@[at as int] == picked);
            Some(picked)
        },
        None => None,
    }
}

// ---------------------------------------------------------------------------
// All in order
// ---------------------------------------------------------------------------
/// Whether `order` lists every place below `n` once.
pub open spec fn lists_all(order: Seq<int>, n: int) -> bool {
    &&& order.len() == n
    &&& forall|i: int| 0 <= i < n ==> 0 <= #[trigger] order[i] < n
    &&& forall|i: int, j: int|
        #![trigger order[i], order[j]]
        0 <= i < j < n ==> order[i] != order[j]
}

/// Whether `a` is listed before `b`: its rank comes before, or the two are tied
/// and its place does.
pub open spec fn listed_before(ranks: Seq<Rank>, a: int, b: int) -> bool {
    precedes(ranks[a], ranks[b]) || (!precedes(ranks[b], ranks[a]) && a < b)
}

/// Whether `order` lists the places in the order of their ranks, ties in the
/// order of their places.
pub open spec fn is_stable_order(ranks: Seq<Rank>, order: Seq<int>) -> bool {
    &&& lists_all(order, ranks.len() as int)
    &&& forall|i: int, j: int|
        #![trigger order[i], order[j]]
        0 <= i < j < ranks.len() ==> listed_before(ranks, order[i], order[j])
}

/// The items at the places of an order.
pub open spec fn arranged<T>(items: Seq<T>, order: Seq<int>) -> Seq<T> {
    order.map_values(|at: int| items[at])
}

/// The view of an order.
pub open spec fn places(order: Seq<usize>) -> Seq<int> {
    order.map_values(|at: usize| at as int)
}

proof fn lemma_listed_before_transitive(ranks: Seq<Rank>, a: int, b: int, c: int)
    requires
        all_comparable(ranks),
        0 <= a < ranks.len(),
        0 <= b < ranks.len(),
        0 <= c < ranks.len(),
        listed_before(ranks, a, b),
        listed_before(ranks, b, c),
    ensures
        listed_before(ranks, a, c),
{
    assert(comparable(ranks[a]) && comparable(ranks[b]) && comparable(ranks[c]));
    if precedes(ranks[a], ranks[b]) {
        law_precedes_is_asymmetric(ranks[a], ranks[b]);
    }
    if precedes(ranks[b], ranks[c]) {
        law_precedes_is_asymmetric(ranks[b], ranks[c]);
    }
    law_precedes_is_a_weak_order(ranks[a], ranks[b], ranks[c]);
    if !precedes(ranks[a], ranks[c]) {
        if precedes(ranks[a], ranks[b]) {
            law_precedes_is_a_weak_order(ranks[b], ranks[c], ranks[a]);
        }
        if precedes(ranks[b], ranks[c]) {
            law_precedes_is_a_weak_order(ranks[c], ranks[a], ranks[b]);
        }
    }
}

/// Of two places one is listed before the other.
proof fn lemma_listed_before_total(ranks: Seq<Rank>, a: int, b: int)
    requires
        0 <= a < ranks.len(),
        0 <= b < ranks.len(),
        a != b,
    ensures
        listed_before(ranks, a, b) != listed_before(ranks, b, a),
{
    if precedes(ranks[a], ranks[b]) {
        law_precedes_is_asymmetric(ranks[a], ranks[b]);
    }
    if precedes(ranks[b], ranks[a]) {
        law_precedes_is_asymmetric(ranks[b], ranks[a]);
    }
}

/// The places of keys in the order of their ranks.
pub fn stable_order(keys: &Vec<RankKey>) -> (r: Vec<usize>)
    ensures
        lists_all(places(r@), keys@.len() as int),
        all_comparable(key_ranks(keys@)) ==> is_stable_order(key_ranks(keys@), places(r@)),
{
    let ghost ranks = key_ranks(keys@);
    let mut order: Vec<usize> = Vec::new();
    let mut i: usize = 0;
    while i < keys.len()
        invariant
            ranks == key_ranks(keys@),
            0 <= i <= keys@.len(),
            order@.len() == i,
            forall|a: int| 0 <= a < i ==> #[trigger] order@[a] < i,
            forall|a: int, b: int|
                #![trigger order@[a], order@[b]]
                0 <= a < b < i ==> order@[a] != order@[b],
            all_comparable(ranks) ==> forall|a: int, b: int|
                #![trigger order@[a], order@[b]]
                0 <= a < b < i ==> listed_before(ranks, order@[a] as int, order@[b] as int),
        decreases keys@.len() - i,
    {
        // the first place, from the back, that the new key does not come before
        let mut at: usize = i;
        while at > 0 && key_precedes(&keys[i], &keys[order[at - 1]])
            invariant
                ranks == key_ranks(keys@),
                0 <= at <= i < keys@.len(),
                order@.len() == i,
                forall|a: int| 0 <= a < i ==> #[trigger] order@[a] < i,
                forall|a: int|
                    at <= a < i ==> precedes(ranks[i as int], ranks[#[trigger] order@[a] as int]),
            decreases at,
        {
            at = at - 1;
        }
        let ghost before = order@;
        order.insert(at, i);
        proof {
            assert forall|a: int, b: int|
                #![trigger order@[a], order@[b]]
                0 <= a < b < i + 1 implies order@[a] != order@[b] by {
                let pa = if a < at {
                    a
                } else {
                    a - 1
                };
                let pb = if b < at {
                    b
                } else {
                    b - 1
                };
                if a != at {
                    assert(order@[a] == before[pa]);
                }
                if b != at {
                    assert(order@[b] == before[pb]);
                }
            }
            if all_comparable(ranks) {
                assert forall|a: int, b: int|
                    #![trigger order@[a], order@[b]]
                    0 <= a < b < i + 1 implies listed_before(
                    ranks,
                    order@[a] as int,
                    order@[b] as int,
                ) by {
                    if a == at {
                        assert(order@[b] == before[b - 1]);
                        assert(precedes(ranks[i as int], ranks[before[b - 1] as int]));
                    } else if b == at {
                        assert(order@[a] == before[a]);
                        let last = before[at - 1] as int;
                        assert(!precedes(ranks[i as int], ranks[last]));
                        assert(listed_before(ranks, last, i as int));
                        if a < at - 1 {
                            assert(listed_before(ranks, before[a] as int, last));
                            lemma_listed_before_transitive(
                                ranks,
                                before[a] as int,
                                last,
                                i as int,
                            );
                        }
                    } else {
                        let pa = if a < at {
                            a
                        } else {
                            a - 1
                        };
                        let pb = if b < at {
                            b
                        } else {
                            b - 1
                        };
                        assert(order@[a] == before[pa]);
                        assert(order@[b] == before[pb]);
                    }
                }
            }
        }
        i = i + 1;
    }
    proof {
        let view = places(order@);
        assert forall|a: int, b: int|
            #![trigger view[a], view[b]]
            0 <= a < b < keys@.len() implies view[a] != view[b] by {
            assert(order@[a] != order@[b]);
        }
        if all_comparable(ranks) {
            assert forall|a: int, b: int|
                #![trigger view[a], view[b]]
                0 <= a < b < ranks.len() implies listed_before(ranks, view[a], view[b]) by {
                assert(listed_before(ranks, order@[a] as int, order@[b] as int));
            }
        }
    }
    order
}

/// Whether `sorted` holds the accounts in the order of their ranks, ties in the
/// order in which they came.
pub open spec fn is_ranked(accounts: Seq<AccountSummary>, sorted: Seq<AccountSummary>) -> bool {
    exists|order: Seq<int>|
        #![trigger arranged(accounts, order)]
        is_stable_order(idle_ranks(accounts), order) && sorted == arranged(accounts, order)
}

/// Whether `sorted` holds the accounts, each as often as they came.
pub open spec fn is_rearranged<T>(items: Seq<T>, sorted: Seq<T>) -> bool {
    exists|order: Seq<int>|
        #![trigger arranged(items, order)]
        lists_all(order, items.len() as int) && sorted == arranged(items, order)
}

/// The accounts in the order of their ranks.
pub fn sort_accounts_by_remaining(accounts: Vec<AccountSummary>) -> (r: Vec<AccountSummary>)
    ensures
        is_rearranged(accounts@, r@),
        all_comparable(idle_ranks(accounts@)) ==> is_ranked(accounts@, r@),
{
    let mut keys: Vec<RankKey> = Vec::new();
    let mut i: usize = 0;
    while i < accounts.len()
        invariant
            0 <= i <= accounts@.len(),
            key_ranks(keys@) == idle_ranks(accounts@.take(i as int)),
        decreases accounts@.len() - i,
    {
        let key = rank_key(&accounts[i], 0);
        proof {
            lemma_push_rank(accounts@, i as int, keys@, key);
        }
        keys.push(key);
        i = i + 1;
    }
    assert(accounts@.take(i as int) =~= accounts@);
    assert(keys@.len() == key_ranks(keys@).len());
    let order = stable_order(&keys);
    let mut sorted: Vec<AccountSummary> = Vec::new();
    let mut k: usize = 0;
    while k < order.len()
        invariant
            0 <= k <= order@.len(),
            lists_all(places(order@), accounts@.len() as int),
            sorted@ == arranged(accounts@, places(order@).take(k as int)),
        decreases order@.len() - k,
    {
        assert(places(order@)[k as int] == order@[k as int]);
        sorted.push(accounts[order[k]].clone());
        assert(sorted@ =~= arranged(accounts@, places(order@).take(k + 1)));
        k = k + 1;
    }
    assert(places(order@).take(k as int) =~= places(order@));
    assert(sorted@ == arranged(accounts@, places(order@)));
    sorted
}

/// Comparable ranks have one stable order.
pub proof fn law_stable_order_is_unique(ranks: Seq<Rank>, a: Seq<int>, b: Seq<int>)
    requires
        all_comparable(ranks),
        is_stable_order(ranks, a),
        is_stable_order(ranks, b),
    ensures
        a == b,
{
    assert forall|k: int| 0 <= k < ranks.len() implies a[k] == b[k] by {
        lemma_same_prefix(ranks, a, b, k + 1);
    }
    assert(a =~= b);
}

/// Two stable orders agree on their first `n` places.
proof fn lemma_same_prefix(ranks: Seq<Rank>, a: Seq<int>, b: Seq<int>, n: int)
    requires
        all_comparable(ranks),
        is_stable_order(ranks, a),
        is_stable_order(ranks, b),
        0 <= n <= ranks.len(),
    ensures
        forall|i: int| 0 <= i < n ==> a[i] == b[i],
    decreases n,
{
    if n > 0 {
        lemma_same_prefix(ranks, a, b, n - 1);
        let k = n - 1;
        if a[k] != b[k] {
            lemma_contains_place(b, ranks.len() as int, a[k]);
            lemma_contains_place(a, ranks.len() as int, b[k]);
            let j = choose|j: int| 0 <= j < ranks.len() && b[j] == a[k];
            let i = choose|i: int| 0 <= i < ranks.len() && a[i] == b[k];
            assert(j > k) by {
                if j < k {
                    assert(a[j] == b[j]);
                }
            }
            assert(i > k) by {
                if i < k {
                    assert(a[i] == b[i]);
                }
            }
            assert(listed_before(ranks, b[k], b[j]));
            assert(listed_before(ranks, a[k], a[i]));
            lemma_listed_before_total(ranks, a[k], b[k]);
        }
    }
}

/// A list of all places holds each of them.
proof fn lemma_contains_place(order: Seq<int>, n: int, place: int)
    requires
        lists_all(order, n),
        0 <= place < n,
    ensures
        exists|j: int| 0 <= j < n && order[j] == place,
{
    assert(order.no_duplicates()) by {
        assert forall|i: int, j: int|
            0 <= i < order.len() && 0 <= j < order.len() && i != j implies order[i] != order[j] by {
            if i < j {
                assert(order[i] != order[j]);
            } else {
                assert(order[j] != order[i]);
            }
        }
    }
    let all = vstd::set_lib::set_int_range(0, n);
    vstd::set_lib::lemma_int_range(0, n);
    order.unique_seq_to_set();
    assert(order.to_set().subset_of(all)) by {
        assert forall|x: int| order.to_set().contains(x) implies all.contains(x) by {
            let j = order.index_of(x);
        }
    }
    vstd::set_lib::lemma_subset_equality(order.to_set(), all);
    assert(order.to_set().contains(place));
    let j = order.index_of(place);
    assert(order[j] == place);
}

/// What is picked as best is what the accounts that may be switched to begin
/// with, put in order.
pub proof fn law_best_is_first_in_order(
    ranks: Seq<Rank>,
    allowed: Seq<bool>,
    order: Seq<int>,
    best: int,
)
    requires
        ranks.len() == allowed.len(),
        all_comparable(ranks),
        is_stable_order(ranks, order),
        is_first(ranks, allowed, best),
    ensures
        exists|k: int|
            #![trigger order[k]]
            0 <= k < order.len() && order[k] == best && forall|j: int|
                0 <= j < k ==> !allowed[#[trigger] order[j]],
{
    lemma_contains_place(order, ranks.len() as int, best);
    let k = choose|k: int| 0 <= k < ranks.len() && order[k] == best;
    assert forall|j: int| 0 <= j < k implies !allowed[#[trigger] order[j]] by {
        assert(listed_before(ranks, order[j], order[k]));
        let other = ranks[order[j]];
    }
    assert(order[k] == best);
}

/// The best account has the most left of the long window; among those, the most of
/// the short one; among those, it is the current one if that is among them; and among
/// those, its label comes first.
pub proof fn law_best_has_the_most_left(accounts: Seq<AccountSummary>, best: int, i: int)
    requires
        is_first(idle_ranks(accounts), switchable_flags(accounts), best),
        0 <= i < accounts.len(),
        switchable(accounts[i]),
        comparable(rank_of(accounts[i], 0)),
        comparable(rank_of(accounts[best], 0)),
    ensures
        switchable(accounts[best]),
        ({
            let chosen = rank_of(accounts[best], 0);
            let other = rank_of(accounts[i], 0);
            &&& chosen.week->0 >= other.week->0
            &&& chosen.week == other.week ==> chosen.five_hour->0 >= other.five_hour->0
            &&& chosen.week == other.week && chosen.five_hour == other.five_hour && other.current
                ==> chosen.current
            &&& chosen.week == other.week && chosen.five_hour == other.five_hour && chosen.current
                == other.current ==> !text_less(other.label, chosen.label)
        }),
{
    assert(switchable_flags(accounts)[i]);
    assert(idle_ranks(accounts)[i] == rank_of(accounts[i], 0));
    assert(idle_ranks(accounts)[best] == rank_of(accounts[best], 0));
    assert(!precedes(idle_ranks(accounts)[i], idle_ranks(accounts)[best]));
}

// ---------------------------------------------------------------------------
// What the order is for
// ---------------------------------------------------------------------------
/// Two accounts with known windows are in the order of what their usage reports say: fewer
/// requests first; then less used of the week; then less used of the five hours; then the
/// account that is signed in; then the label. What remains is compared in double arithmetic.
pub proof fn law_order_follows_the_windows(
    a: AccountSummary,
    b: AccountSummary,
    serving: nat,
    other: nat,
)
    requires
        a.usage is Some,
        a.usage->0.one_week is Some,
        a.usage->0.five_hour is Some,
        b.usage is Some,
        b.usage->0.one_week is Some,
        b.usage->0.five_hour is Some,
        !a.usage->0.one_week->0.used_percent.is_nan(),
        !a.usage->0.five_hour->0.used_percent.is_nan(),
        !b.usage->0.one_week->0.used_percent.is_nan(),
        !b.usage->0.five_hour->0.used_percent.is_nan(),
    ensures
        ({
            let a_week = a.usage->0.one_week->0.used_percent;
            let b_week = b.usage->0.one_week->0.used_percent;
            let a_hours = a.usage->0.five_hour->0.used_percent;
            let b_hours = b.usage->0.five_hour->0.used_percent;
            let before = precedes(rank_of(a, serving), rank_of(b, other));
            &&& serving < other ==> before
            &&& serving > other ==> !before
            &&& serving == other && a_week.remaining() > b_week.remaining() ==> before
            &&& serving == other && a_week.remaining() < b_week.remaining() ==> !before
            &&& serving == other && a_week.scaled() == b_week.scaled() && a_hours.remaining()
                > b_hours.remaining() ==> before
            &&& serving == other && a_week.scaled() == b_week.scaled() && a_hours.remaining()
                < b_hours.remaining() ==> !before
            &&& serving == other && a_week.scaled() == b_week.scaled() && a_hours.scaled()
                == b_hours.scaled() ==> before == ((a.is_current && !b.is_current) || (a.is_current
                == b.is_current && text_less(a.label@, b.label@)))
        }),
{
    let a_week = a.usage->0.one_week->0.used_percent;
    let b_week = b.usage->0.one_week->0.used_percent;
    let a_hours = a.usage->0.five_hour->0.used_percent;
    let b_hours = b.usage->0.five_hour->0.used_percent;
    if a_week.scaled() == b_week.scaled() {
        law_more_used_leaves_less(a_week, b_week);
        law_more_used_leaves_less(b_week, a_week);
    }
    if a_hours.scaled() == b_hours.scaled() {
        law_more_used_leaves_less(a_hours, b_hours);
        law_more_used_leaves_less(b_hours, a_hours);
    }
}

/// An account whose window is not known comes after every account whose window is, however
/// much of that is used.
pub proof fn law_unknown_windows_come_last(a: AccountSummary, b: AccountSummary, serving: nat)
    requires
        a.usage is Some,
        a.usage->0.one_week is Some,
        !a.usage->0.one_week->0.used_percent.is_nan(),
    ensures
        b.usage is None || b.usage->0.one_week is None ==> precedes(
            rank_of(a, serving),
            rank_of(b, serving),
        ) && !precedes(rank_of(b, serving), rank_of(a, serving)),
        b.usage is Some && b.usage->0.one_week == a.usage->0.one_week && a.usage->0.five_hour
            is Some && !a.usage->0.five_hour->0.used_percent.is_nan() && b.usage->0.five_hour
            is None ==> precedes(rank_of(a, serving), rank_of(b, serving)) && !precedes(
            rank_of(b, serving),
            rank_of(a, serving),
        ),
{
    law_remaining_is_what_is_left(a.usage->0.one_week->0.used_percent);
    if a.usage->0.five_hour is Some {
        law_remaining_is_what_is_left(a.usage->0.five_hour->0.used_percent);
    }
}

/// No account is picked while another one that may be switched to has more left: more of the
/// week or, of two that have used the same of it, more of the five hours. Of two that have
/// used the same of both, the one that is signed in is picked, and else the one whose label
/// comes first. An account that is expired, or was removed from its workspace, never is.
pub proof fn law_picked_account_has_used_least(
    accounts: Seq<AccountSummary>,
    picked: AccountSummary,
    i: int,
)
    requires
        is_best(accounts, picked),
        0 <= i < accounts.len(),
        accounts[i].status != AccountStatus::Expired,
        accounts[i].status != AccountStatus::WorkspaceRemoved,
        picked.usage is Some,
        picked.usage->0.one_week is Some,
        picked.usage->0.five_hour is Some,
        accounts[i].usage is Some,
        accounts[i].usage->0.one_week is Some,
        accounts[i].usage->0.five_hour is Some,
        !picked.usage->0.one_week->0.used_percent.is_nan(),
        !picked.usage->0.five_hour->0.used_percent.is_nan(),
        !accounts[i].usage->0.one_week->0.used_percent.is_nan(),
        !accounts[i].usage->0.five_hour->0.used_percent.is_nan(),
    ensures
        accounts.contains(picked),
        picked.status != AccountStatus::Expired,
        picked.status != AccountStatus::WorkspaceRemoved,
        ({
            let week = picked.usage->0.one_week->0.used_percent;
            let hours = picked.usage->0.five_hour->0.used_percent;
            let other_week = accounts[i].usage->0.one_week->0.used_percent;
            let other_hours = accounts[i].usage->0.five_hour->0.used_percent;
            &&& week.remaining() >= other_week.remaining()
            &&& week.scaled() == other_week.scaled() ==> hours.remaining()
                >= other_hours.remaining()
            &&& week.scaled() == other_week.scaled() && hours.scaled() == other_hours.scaled()
                && accounts[i].is_current ==> picked.is_current
            &&& week.scaled() == other_week.scaled() && hours.scaled() == other_hours.scaled()
                && accounts[i].is_current == picked.is_current ==> !text_less(
                accounts[i].label@,
                picked.label@,
            )
        }),
        ({
            let hundred = 100 * pow2(1074);
            let week = picked.usage->0.one_week->0.used_percent.scaled();
            let hours = picked.usage->0.five_hour->0.used_percent.scaled();
            let other_week = accounts[i].usage->0.one_week->0.used_percent.scaled();
            let other_hours = accounts[i].usage->0.five_hour->0.used_percent.scaled();
            &&& 0 <= week <= hundred && 0 <= other_week <= hundred ==> week < other_week + 2
                * pow2(1028)
            &&& week == other_week && 0 <= hours <= hundred && 0 <= other_hours <= hundred
                ==> hours < other_hours + 2 * pow2(1028)
        }),
{
    let best = choose|best: int|
        #![trigger accounts[best]]
        is_first(idle_ranks(accounts), switchable_flags(accounts), best) && accounts[best]
            == picked;
    assert(switchable_flags(accounts)[i]);
    assert(switchable_flags(accounts)[best]);
    assert(idle_ranks(accounts)[i] == rank_of(accounts[i], 0));
    assert(idle_ranks(accounts)[best] == rank_of(picked, 0));
    assert(!precedes(idle_ranks(accounts)[i], idle_ranks(accounts)[best]));
    law_order_follows_the_windows(accounts[i], picked, 0, 0);
    law_remaining_is_what_is_left(picked.usage->0.one_week->0.used_percent);
    law_remaining_is_what_is_left(picked.usage->0.five_hour->0.used_percent);
    law_remaining_is_what_is_left(accounts[i].usage->0.one_week->0.used_percent);
    law_remaining_is_what_is_left(accounts[i].usage->0.five_hour->0.used_percent);
}

/// Which accounts may be switched to: all but those that are expired or were removed from
/// their workspace.
pub proof fn law_who_may_be_switched_to(account: AccountSummary)
    ensures
        account.status == AccountStatus::Healthy ==> switchable(account),
        account.status == AccountStatus::ReauthRequired ==> switchable(account),
        account.status == AccountStatus::UnknownError ==> switchable(account),
        account.status == AccountStatus::Expired ==> !switchable(account),
        account.status == AccountStatus::WorkspaceRemoved ==> !switchable(account),
{
}

/// In a list put in order nobody stands before an account that comes first, each account is in
/// it, and nobody else is.
pub proof fn law_ordered_list(
    accounts: Seq<AccountSummary>,
    sorted: Seq<AccountSummary>,
    i: int,
    j: int,
)
    requires
        is_ranked(accounts, sorted),
        0 <= i < j < sorted.len(),
    ensures
        sorted.len() == accounts.len(),
        !precedes(rank_of(sorted[j], 0), rank_of(sorted[i], 0)),
        accounts.contains(sorted[i]),
        sorted.contains(accounts[i]),
{
    let order = choose|order: Seq<int>|
        #![trigger arranged(accounts, order)]
        is_stable_order(idle_ranks(accounts), order) && sorted == arranged(accounts, order);
    let ranks = idle_ranks(accounts);
    assert(listed_before(ranks, order[i], order[j]));
    if precedes(ranks[order[i]], ranks[order[j]]) {
        law_precedes_is_asymmetric(ranks[order[i]], ranks[order[j]]);
    }
    assert(sorted[i] == accounts[order[i]]);
    assert(sorted[j] == accounts[order[j]]);
    lemma_contains_place(order, accounts.len() as int, i);
    let k = choose|k: int| 0 <= k < accounts.len() && order[k] == i;
    assert(sorted[k] == accounts[i]);
}

/// What rearranging keeps: the number of items, and each of them.
pub proof fn law_rearranging_keeps_the_items<T>(items: Seq<T>, sorted: Seq<T>, i: int)
    requires
        is_rearranged(items, sorted),
        0 <= i < items.len(),
    ensures
        sorted.len() == items.len(),
        items.contains(sorted[i]),
        sorted.contains(items[i]),
{
    let order = choose|order: Seq<int>|
        #![trigger arranged(items, order)]
        lists_all(order, items.len() as int) && sorted == arranged(items, order);
    assert(sorted[i] == items[order[i]]);
    lemma_contains_place(order, items.len() as int, i);
    let k = choose|k: int| 0 <= k < items.len() && order[k] == i;
    assert(sorted[k] == items[i]);
}

/// Of tied ranks the one at the first place counts, and a list put in order keeps them as they
/// came.
pub proof fn law_ties_keep_their_order(
    ranks: Seq<Rank>,
    allowed: Seq<bool>,
    best: int,
    order: Seq<int>,
    i: int,
    j: int,
)
    requires
        0 <= i < j < ranks.len(),
        !precedes(ranks[i], ranks[j]),
        !precedes(ranks[j], ranks[i]),
    ensures
        is_first(ranks, allowed, best) && allowed[i] ==> best != j,
        is_stable_order(ranks, order) ==> forall|a: int, b: int|
            #![trigger order[a], order[b]]
            0 <= a < ranks.len() && 0 <= b < ranks.len() && order[a] == i && order[b] == j ==> a < b,
{
    if is_stable_order(ranks, order) {
        assert forall|a: int, b: int|
            #![trigger order[a], order[b]]
            0 <= a < ranks.len() && 0 <= b < ranks.len() && order[a] == i && order[b]
                == j implies a < b by {
            if b < a {
                assert(listed_before(ranks, order[b], order[a]));
            }
        }
    }
}

} // verus!
