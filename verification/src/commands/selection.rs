//! Which account a reference means, and which one is the best.

use crate::auth::law_normalize_keeps_the_account;
use crate::models::{summarizes, AccountStatus, AccountSummary, AccountsStore, StoredAccount};
use crate::ranking::{
    all_comparable, allowed_comparable, comparable, idle_ranks, is_best, is_first, is_ranked,
    is_rearranged, law_ordered_list, law_rearranging_keeps_the_items, pick_best_account, precedes,
    rank_of, sort_accounts_by_remaining, switchable, switchable_flags,
};
use crate::store::{
    distinct_accounts, enrolled, find_account, law_enrolling_keeps_accounts_distinct,
    lemma_place_of, place_of, records_of, AccountRecord, Enrollment,
};
use crate::text;
use crate::text::{begins_with, str_view};
use vstd::prelude::*;

verus! {

// ---------------------------------------------------------------------------
// References
// ---------------------------------------------------------------------------
/// What a reference means: the place of an account, nothing, or several places.
pub enum Resolution {
    Found(int),
    NotFound,
    Ambiguous(Seq<int>),
}

/// The place of the first record with an identifier, or the number of records.
pub open spec fn place_of_id(records: Seq<AccountRecord>, id: Seq<char>) -> int
    decreases records.len(),
{
    if records.len() == 0 || records[0].id == id {
        0
    } else {
        1 + place_of_id(records.skip(1), id)
    }
}

/// Whether one of the identifiers of a record begins with a reference.
pub open spec fn matches_prefix(record: AccountRecord, reference: Seq<char>) -> bool {
    begins_with(record.id, reference) || begins_with(record.account_id, reference)
}

/// The places of the records one of whose identifiers begins with a reference.
pub open spec fn prefix_places(records: Seq<AccountRecord>, reference: Seq<char>) -> Seq<int>
    decreases records.len(),
{
    if records.len() == 0 {
        seq![]
    } else {
        let before = prefix_places(records.drop_last(), reference);
        if matches_prefix(records.last(), reference) {
            before.push(records.len() - 1)
        } else {
            before
        }
    }
}

/// What a reference means: the account whose identifier it is; else the one whose
/// account identifier it is; else the only one of which it is a prefix.
pub open spec fn resolution(records: Seq<AccountRecord>, reference: Seq<char>) -> Resolution {
    if place_of_id(records, reference) < records.len() {
        Resolution::Found(place_of_id(records, reference))
    } else if place_of(records, reference) < records.len() {
        Resolution::Found(place_of(records, reference))
    } else {
        let places = prefix_places(records, reference);
        if places.len() == 0 {
            Resolution::NotFound
        } else if places.len() == 1 {
            Resolution::Found(places[0])
        } else {
            Resolution::Ambiguous(places)
        }
    }
}

/// Where the first record with an identifier stands.
proof fn lemma_place_of_id(records: Seq<AccountRecord>, id: Seq<char>)
    ensures
        0 <= place_of_id(records, id) <= records.len(),
        forall|i: int| 0 <= i < place_of_id(records, id) ==> (#[trigger] records[i]).id != id,
        place_of_id(records, id) < records.len() ==> records[place_of_id(records, id)].id == id,
    decreases records.len(),
{
    if records.len() > 0 && records[0].id != id {
        let rest = records.skip(1);
        lemma_place_of_id(rest, id);
        assert forall|i: int| 0 <= i < place_of_id(records, id) implies (
        #[trigger] records[i]).id != id by {
            if i > 0 {
                assert(rest[i - 1] == records[i]);
            }
        }
        if place_of_id(rest, id) < rest.len() {
            assert(rest[place_of_id(rest, id)] == records[place_of_id(records, id)]);
        }
    }
}

/// The places of a prefix are those of the records that it matches, in ascending
/// order.
pub proof fn lemma_prefix_places(records: Seq<AccountRecord>, reference: Seq<char>)
    ensures
        forall|k: int|
            0 <= k < prefix_places(records, reference).len() ==> 0 <= (
            #[trigger] prefix_places(records, reference)[k]) < records.len() && matches_prefix(
                records[prefix_places(records, reference)[k]],
                reference,
            ),
        forall|i: int|
            0 <= i < records.len() && matches_prefix(records[i], reference)
                ==> prefix_places(records, reference).contains(i),
        forall|a: int, b: int|
            #![trigger prefix_places(records, reference)[a], prefix_places(records, reference)[b]]
            0 <= a < b < prefix_places(records, reference).len() ==> prefix_places(
                records,
                reference,
            )[a] < prefix_places(records, reference)[b],
    decreases records.len(),
{
    if records.len() > 0 {
        let rest = records.drop_last();
        let before = prefix_places(rest, reference);
        let after = prefix_places(records, reference);
        lemma_prefix_places(rest, reference);
        assert forall|k: int| 0 <= k < after.len() implies 0 <= (#[trigger] after[k])
            < records.len() && matches_prefix(records[after[k]], reference) by {
            if k < before.len() {
                assert(after[k] == before[k]);
                assert(rest[before[k]] == records[before[k]]);
            }
        }
        assert forall|i: int|
            0 <= i < records.len() && matches_prefix(records[i], reference) implies after.contains(
            i,
        ) by {
            if i < rest.len() {
                assert(matches_prefix(rest[i], reference));
                assert(before.contains(i));
                let k = before.index_of(i);
                assert(after[k] == i);
            } else {
                assert(after[before.len() as int] == i);
            }
        }
        assert forall|a: int, b: int|
            #![trigger after[a], after[b]]
            0 <= a < b < after.len() implies after[a] < after[b] by {
            assert(after[a] == before[a]);
            if b < before.len() {
                assert(after[b] == before[b]);
            }
        }
    }
}

/// What is said of an account that a reference may mean.
#[derive(Debug)]
pub struct Candidate {
    pub id: String,
    pub label: String,
    pub account_id: String,
}

/// Why a reference means no account.
#[derive(Debug)]
pub enum ResolveError {
    NotFound(String),
    Ambiguous { reference: String, candidates: Vec<Candidate> },
}

/// The line of a candidate.
pub open spec fn candidate_line(candidate: Candidate) -> Seq<char> {
    "\n- "@ + candidate.id@ + " | "@ + candidate.label@ + " | "@ + candidate.account_id@
}

/// The lines of some candidates.
pub open spec fn candidate_lines(candidates: Seq<Candidate>) -> Seq<char>
    decreases candidates.len(),
{
    if candidates.len() == 0 {
        Seq::empty()
    } else {
        candidate_lines(candidates.drop_last()) + candidate_line(candidates.last())
    }
}

impl ResolveError {
    /// The error in words.
    pub open spec fn message(self) -> Seq<char> {
        match self {
            ResolveError::NotFound(reference) => "account reference `"@ + reference@
                + "` not found"@,
            ResolveError::Ambiguous { reference, candidates } => "account reference `"@
                + reference@ + "` is ambiguous. Candidates:"@ + candidate_lines(candidates@),
        }
    }

    /// The error in words.
    pub fn to_text(&self) -> (r: String)
        ensures
            r@ == self.message(),
    {
        match self {
            ResolveError::NotFound(reference) => {
                let mut out = "account reference `".to_owned();
                out.append(reference.as_str());
                out.append("` not found");
                out
            },
            ResolveError::Ambiguous { reference, candidates } => {
                let mut out = "account reference `".to_owned();
                out.append(reference.as_str());
                out.append("` is ambiguous. Candidates:");
                let ghost head = out@;
                let mut i: usize = 0;
                assert(candidates@.take(0) =~= Seq::empty());
                assert(head + Seq::<char>::empty() =~= head);
                while i < candidates.len()
                    invariant
                        0 <= i <= candidates@.len(),
                        out@ == head + candidate_lines(candidates@.take(i as int)),
                    decreases candidates@.len() - i,
                {
                    let candidate = &candidates[i];
                    assert(candidates@.take(i + 1).drop_last() =~= candidates@.take(i as int));
                    assert(candidates@.take(i + 1).last() == *candidate);
                    let mut line = "\n- ".to_owned();
                    line.append(candidate.id.as_str());
                    line.append(" | ");
                    line.append(candidate.label.as_str());
                    line.append(" | ");
                    line.append(candidate.account_id.as_str());
                    assert(line@ == candidate_line(*candidate));
                    out.append(line.as_str());
                    assert(out@ =~= head + candidate_lines(candidates@.take(i + 1)));
                    i = i + 1;
                }
                assert(candidates@.take(i as int) =~= candidates@);
                out
            },
        }
    }
}

/// Whether an error is the one that a reference gives.
pub open spec fn is_resolve_error(
    error: ResolveError,
    records: Seq<AccountRecord>,
    reference: Seq<char>,
) -> bool {
    match error {
        ResolveError::NotFound(named) => {
            &&& resolution(records, reference) is NotFound
            &&& named@ == reference
        },
        ResolveError::Ambiguous { reference: named, candidates } => {
            &&& resolution(records, reference) is Ambiguous
            &&& named@ == reference
            &&& candidates@.len() == prefix_places(records, reference).len()
            &&& forall|k: int|
                0 <= k < candidates@.len() ==> {
                    let record = records[prefix_places(records, reference)[k]];
                    &&& (#[trigger] candidates@[k]).id@ == record.id
                    &&& candidates@[k].label@ == record.label
                    &&& candidates@[k].account_id@ == record.account_id
                }
        },
    }
}

/// The place of the first account with an identifier.
fn find_by_id(accounts: &Vec<StoredAccount>, id: &str) -> (r: usize)
    ensures
        r == place_of_id(records_of(accounts@), id@),
        r <= accounts@.len(),
{
    let ghost records = records_of(accounts@);
    let mut i: usize = 0;
    assert(records.skip(0) =~= records);
    while i < accounts.len()
        invariant
            0 <= i <= accounts@.len(),
            records == records_of(accounts@),
            place_of_id(records, id@) == i + place_of_id(records.skip(i as int), id@),
        decreases accounts@.len() - i,
    {
        assert(records.skip(i as int)[0] == accounts@[i as int]@);
        assert(records.skip(i as int).skip(1) =~= records.skip(i + 1));
        if text::same(accounts[i].id.as_str(), id) {
            return i;
        }
        i = i + 1;
    }
    i
}

/// The places of the accounts one of whose identifiers begins with a reference.
fn find_by_prefix(accounts: &Vec<StoredAccount>, reference: &str) -> (r: Vec<usize>)
    ensures
        r@.map_values(|place: usize| place as int) == prefix_places(
            records_of(accounts@),
            reference@,
        ),
        forall|k: int| 0 <= k < r@.len() ==> (#[trigger] r@[k]) < accounts@.len(),
{
    let ghost records = records_of(accounts@);
    let mut places: Vec<usize> = Vec::new();
    let mut i: usize = 0;
    assert(records.take(0) =~= Seq::empty());
    while i < accounts.len()
        invariant
            0 <= i <= accounts@.len(),
            records == records_of(accounts@),
            places@.map_values(|place: usize| place as int) =~= prefix_places(
                records.take(i as int),
                reference@,
            ),
            forall|k: int| 0 <= k < places@.len() ==> (#[trigger] places@[k]) < i,
        decreases accounts@.len() - i,
    {
        assert(records.take(i + 1).last() == accounts@[i as int]@);
        assert(records.take(i + 1).drop_last() =~= records.take(i as int));
        if text::starts_with(accounts[i].id.as_str(), reference) || text::starts_with(
            accounts[i].account_id.as_str(),
            reference,
        ) {
            places.push(i);
        }
        i = i + 1;
    }
    assert(records.take(i as int) =~= records);
    places
}

/// What is said of the accounts at some places.
fn candidates_at(accounts: &Vec<StoredAccount>, places: &Vec<usize>) -> (r: Vec<Candidate>)
    requires
        forall|k: int| 0 <= k < places@.len() ==> (#[trigger] places@[k]) < accounts@.len(),
    ensures
        r@.len() == places@.len(),
        forall|k: int|
            0 <= k < r@.len() ==> {
                let account = accounts@[places@[k] as int];
                &&& (#[trigger] r@[k]).id@ == account.id@
                &&& r@[k].label@ == account.label@
                &&& r@[k].account_id@ == account.account_id@
            },
{
    let mut out: Vec<Candidate> = Vec::new();
    let mut k: usize = 0;
    while k < places.len()
        invariant
            0 <= k <= places@.len(),
            out@.len() == k,
            forall|j: int| 0 <= j < places@.len() ==> (#[trigger] places@[j]) < accounts@.len(),
            forall|j: int|
                0 <= j < k ==> {
                    let account = accounts@[places@[j] as int];
                    &&& (#[trigger] out@[j]).id@ == account.id@
                    &&& out@[j].label@ == account.label@
                    &&& out@[j].account_id@ == account.account_id@
                },
        decreases places@.len() - k,
    {
        let account = &accounts[places[k]];
        out.push(
            Candidate {
                id: account.id.clone(),
                label: account.label.clone(),
                account_id: account.account_id.clone(),
            },
        );
        k = k + 1;
    }
    out
}

/// Finds the account that a reference means.
pub fn resolve_account<'a>(store_value: &'a AccountsStore, account_ref: &str) -> (r: Result<
    &'a StoredAccount,
    ResolveError,
>)
    ensures
        match r {
            Ok(account) => match resolution(records_of(store_value.accounts@), account_ref@) {
                Resolution::Found(place) => 0 <= place < store_value.accounts@.len() && *account
                    == store_value.accounts@[place],
                _ => false,
            },
            Err(error) => is_resolve_error(
                error,
                records_of(store_value.accounts@),
                account_ref@,
            ),
        },
{
    let ghost records = records_of(store_value.accounts@);
    let place: usize = find_by_id(&store_value.accounts, account_ref);
    if place < store_value.accounts.len() {
        return Ok(&store_value.accounts[place]);
    }
    let place: usize = find_account(&store_value.accounts, account_ref);
    if place < store_value.accounts.len() {
        return Ok(&store_value.accounts[place]);
    }
    let places = find_by_prefix(&store_value.accounts, account_ref);
    let ghost listed = prefix_places(records, account_ref@);
    assert(listed.len() == places@.len());
    assert forall|k: int| 0 <= k < places@.len() implies #[trigger] places@[k] as int
        == listed[k] by {
        assert(places@.map_values(|place: usize| place as int)[k] == places@[k] as int);
    }
    if places.len() == 0 {
        return Err(ResolveError::NotFound(account_ref.to_owned()));
    }
    if places.len() == 1 {
        assert(listed[0] == places@[0] as int);
        return Ok(&store_value.accounts[places[0]]);
    }
    let candidates = candidates_at(&store_value.accounts, &places);
    assert forall|k: int| 0 <= k < candidates@.len() implies ({
        let record = records[listed[k]];
        &&& (#[trigger] candidates@[k]).id@ == record.id
        &&& candidates@[k].label@ == record.label
        &&& candidates@[k].account_id@ == record.account_id
    }) by {
        assert(listed[k] == places@[k] as int);
        assert(records[listed[k]] == store_value.accounts@[places@[k] as int]@);
    }
    Err(ResolveError::Ambiguous { reference: account_ref.to_owned(), candidates })
}

/// An identifier means its own account before anything else; an account identifier
/// that is no identifier means its account; and a prefix of either means an account
/// only where it fits no other.
pub proof fn law_reference_precedence(records: Seq<AccountRecord>, reference: Seq<char>, i: int)
    requires
        0 <= i < records.len(),
    ensures
        records[i].id == reference ==> (match resolution(records, reference) {
            Resolution::Found(place) => 0 <= place <= i && records[place].id == reference,
            _ => false,
        }),
        records[i].account_id == reference && (forall|j: int|
            0 <= j < records.len() ==> (#[trigger] records[j]).id != reference) ==> (match resolution(
            records,
            reference,
        ) {
            Resolution::Found(place) => 0 <= place <= i && records[place].account_id == reference,
            _ => false,
        }),
        matches_prefix(records[i], reference) && (forall|j: int|
            0 <= j < records.len() && j != i ==> !matches_prefix(#[trigger] records[j], reference))
            ==> resolution(records, reference) == Resolution::Found(i),
{
    lemma_place_of_id(records, reference);
    lemma_place_of(records, reference);
    lemma_prefix_places(records, reference);
    assert(records[i].account_id == records[i].account_id);
    if matches_prefix(records[i], reference) && (forall|j: int|
        0 <= j < records.len() && j != i ==> !matches_prefix(#[trigger] records[j], reference)) {
        let by_id = place_of_id(records, reference);
        let by_account = place_of(records, reference);
        let places = prefix_places(records, reference);
        if by_id < records.len() {
            assert(records[by_id].id.take(reference.len() as int) =~= reference);
            assert(matches_prefix(records[by_id], reference));
        }
        if by_account < records.len() {
            assert(records[by_account].account_id.take(reference.len() as int) =~= reference);
            assert(matches_prefix(records[by_account], reference));
        }
        assert(places.contains(i));
        assert(matches_prefix(records[places[0]], reference));
        if places.len() > 1 {
            assert(places[0] < places[1]);
            assert(matches_prefix(records[places[1]], reference));
        }
    }
}

/// An account identifier means its account, in a pool of distinct accounts where it
/// is not the identifier of another record.
pub proof fn law_account_identifier_resolves(records: Seq<AccountRecord>, k: int)
    requires
        distinct_accounts(records),
        0 <= k < records.len(),
        forall|i: int|
            0 <= i < records.len() && i != k ==> (#[trigger] records[i]).id
                != records[k].account_id,
    ensures
        resolution(records, records[k].account_id) == Resolution::Found(k),
{
    let reference = records[k].account_id;
    lemma_place_of_id(records, reference);
    lemma_place_of(records, reference);
    let by_id = place_of_id(records, reference);
    let by_account = place_of(records, reference);
    if by_id < records.len() {
        assert(records[by_id].id == reference);
    }
    assert(records[k].account_id == reference);
    assert(by_account < records.len());
    if by_account != k {
        assert(records[by_account].account_id == records[k].account_id);
    }
}

/// An account that was enrolled can be referred to by its account identifier, unless
/// that is the identifier of another record.
pub proof fn law_enrolled_account_resolves(
    records: Seq<AccountRecord>,
    request: Enrollment,
    id: Seq<char>,
    now: i64,
)
    requires
        distinct_accounts(records),
        enrolled(records, request, id, now) is Ok,
        id != enrolled(records, request, id, now)->Ok_0.stored.account_id,
        forall|i: int|
            0 <= i < records.len() ==> (#[trigger] records[i]).id != enrolled(
                records,
                request,
                id,
                now,
            )->Ok_0.stored.account_id,
    ensures
        ({
            let after = enrolled(records, request, id, now)->Ok_0;
            match resolution(after.records, after.stored.account_id) {
                Resolution::Found(place) => after.records[place] == after.stored,
                _ => false,
            }
        }),
{
    law_enrolling_keeps_accounts_distinct(records, request, id, now);
    law_normalize_keeps_the_account(request.auth);
    let after = enrolled(records, request, id, now)->Ok_0;
    let account_id = after.stored.account_id;
    lemma_place_of(records, account_id);
    let place = place_of(records, account_id);
    assert(after.records[place] == after.stored);
    assert forall|i: int| 0 <= i < after.records.len() && i != place implies (
    #[trigger] after.records[i]).id != account_id by {
        if i < records.len() {
            assert(after.records[i].id == records[i].id);
        }
    }
    law_account_identifier_resolves(after.records, place);
}

/// A reference that fits two accounts by prefix, and is neither an identifier nor an
/// account identifier, is refused with all accounts that it fits.
pub proof fn law_ambiguous_reference_is_refused(
    records: Seq<AccountRecord>,
    reference: Seq<char>,
    i: int,
    j: int,
)
    requires
        0 <= i < j < records.len(),
        matches_prefix(records[i], reference),
        matches_prefix(records[j], reference),
        forall|k: int|
            0 <= k < records.len() ==> (#[trigger] records[k]).id != reference
                && records[k].account_id != reference,
    ensures
        match resolution(records, reference) {
            Resolution::Ambiguous(places) => forall|k: int|
                0 <= k < records.len() ==> (places.contains(k) <==> matches_prefix(
                    #[trigger] records[k],
                    reference,
                )),
            _ => false,
        },
{
    lemma_place_of_id(records, reference);
    lemma_place_of(records, reference);
    lemma_prefix_places(records, reference);
    let places = prefix_places(records, reference);
    assert(places.contains(i) && places.contains(j));
    let a = places.index_of(i);
    let b = places.index_of(j);
    assert(a != b);
    assert forall|k: int| 0 <= k < records.len() implies (places.contains(k) <==> matches_prefix(
        #[trigger] records[k],
        reference,
    )) by {
        if places.contains(k) {
            let at = places.index_of(k);
            assert(matches_prefix(records[places[at]], reference));
        }
    }
}

// ---------------------------------------------------------------------------
// Removing
// ---------------------------------------------------------------------------
/// The records without those of an identifier.
pub open spec fn without_id(records: Seq<AccountRecord>, id: Seq<char>) -> Seq<AccountRecord>
    decreases records.len(),
{
    if records.len() == 0 {
        seq![]
    } else {
        let before = without_id(records.drop_last(), id);
        if records.last().id == id {
            before
        } else {
            before.push(records.last())
        }
    }
}

/// The accounts without those of an identifier.
fn retain_others(accounts: &Vec<StoredAccount>, id: &str) -> (r: Vec<StoredAccount>)
    ensures
        records_of(r@) == without_id(records_of(accounts@), id@),
{
    let ghost records = records_of(accounts@);
    let mut out: Vec<StoredAccount> = Vec::new();
    let mut i: usize = 0;
    assert(records.take(0) =~= Seq::empty());
    assert(records_of(out@) =~= Seq::empty());
    while i < accounts.len()
        invariant
            0 <= i <= accounts@.len(),
            records == records_of(accounts@),
            records_of(out@) == without_id(records.take(i as int), id@),
        decreases accounts@.len() - i,
    {
        assert(records.take(i + 1).last() == accounts@[i as int]@);
        assert(records.take(i + 1).drop_last() =~= records.take(i as int));
        if !text::same(accounts[i].id.as_str(), id) {
            let ghost before = records_of(out@);
            out.push(accounts[i].clone());
            assert(records_of(out@) =~= before.push(accounts@[i as int]@));
        }
        i = i + 1;
    }
    assert(records.take(i as int) =~= records);
    out
}

/// Removes the account that a reference means from the pool.
pub fn remove_account(store_value: &mut AccountsStore, account_ref: &str) -> (r: Result<
    StoredAccount,
    ResolveError,
>)
    ensures
        match r {
            Ok(account) => match resolution(records_of(old(store_value).accounts@), account_ref@) {
                Resolution::Found(place) => {
                    &&& 0 <= place < old(store_value).accounts@.len()
                    &&& account == old(store_value).accounts@[place]
                    &&& final(store_value).version == old(store_value).version
                    &&& records_of(final(store_value).accounts@) == without_id(
                        records_of(old(store_value).accounts@),
                        account.id@,
                    )
                },
                _ => false,
            },
            Err(error) => *final(store_value) == *old(store_value) && is_resolve_error(
                error,
                records_of(old(store_value).accounts@),
                account_ref@,
            ),
        },
{
    let account = match resolve_account(&*store_value, account_ref) {
        Ok(account) => account.clone(),
        Err(error) => return Err(error),
    };
    let accounts = retain_others(&store_value.accounts, account.id.as_str());
    store_value.accounts = accounts;
    Ok(account)
}

/// What is removed is gone, and every other record stays.
pub proof fn law_removing_takes_one_identifier(records: Seq<AccountRecord>, id: Seq<char>)
    ensures
        forall|i: int|
            0 <= i < without_id(records, id).len() ==> (#[trigger] without_id(records, id)[i]).id
                != id && records.contains(without_id(records, id)[i]),
        forall|i: int|
            0 <= i < records.len() && (#[trigger] records[i]).id != id ==> without_id(
                records,
                id,
            ).contains(records[i]),
    decreases records.len(),
{
    if records.len() > 0 {
        let rest = records.drop_last();
        let before = without_id(rest, id);
        let after = without_id(records, id);
        law_removing_takes_one_identifier(rest, id);
        assert forall|i: int| 0 <= i < after.len() implies (#[trigger] after[i]).id != id
            && records.contains(after[i]) by {
            if i < before.len() {
                assert(after[i] == before[i]);
                let k = rest.index_of(before[i]);
                assert(records[k] == before[i]);
            } else {
                assert(records[records.len() - 1] == after[i]);
            }
        }
        assert forall|i: int|
            0 <= i < records.len() && (#[trigger] records[i]).id != id implies after.contains(
            records[i],
        ) by {
            if i < rest.len() {
                assert(rest[i] == records[i]);
                let k = before.index_of(rest[i]);
                assert(after[k] == records[i]);
            } else {
                assert(after[before.len() as int] == records[i]);
            }
        }
    }
}

// ---------------------------------------------------------------------------
// Summaries
// ---------------------------------------------------------------------------
/// Whether some summaries are those of some accounts, in the same order, seen while
/// `current` is signed in.
pub open spec fn summarize_all(
    summaries: Seq<AccountSummary>,
    accounts: Seq<StoredAccount>,
    current: Option<Seq<char>>,
) -> bool {
    &&& summaries.len() == accounts.len()
    &&& forall|i: int|
        0 <= i < accounts.len() ==> summarizes(#[trigger] summaries[i], accounts[i], current)
}

/// Whether some summaries are those of some accounts, in the order of their ranks.
pub open spec fn is_summary_list(
    listed: Seq<AccountSummary>,
    accounts: Seq<StoredAccount>,
    current: Option<Seq<char>>,
) -> bool {
    exists|summaries: Seq<AccountSummary>|
        #![trigger idle_ranks(summaries)]
        {
            &&& summarize_all(summaries, accounts, current)
            &&& is_rearranged(summaries, listed)
            &&& all_comparable(idle_ranks(summaries)) ==> is_ranked(summaries, listed)
        }
}

/// The summaries of the accounts of a pool, best first, seen while `current` is
/// signed in.
pub fn summaries_from_store(store_value: &AccountsStore, current: Option<&str>) -> (r: Vec<
    AccountSummary,
>)
    ensures
        is_summary_list(r@, store_value.accounts@, str_view(current)),
{
    let mut summaries: Vec<AccountSummary> = Vec::new();
    let mut i: usize = 0;
    while i < store_value.accounts.len()
        invariant
            0 <= i <= store_value.accounts@.len(),
            summaries@.len() == i,
            forall|j: int|
                0 <= j < i ==> summarizes(
                    #[trigger] summaries@[j],
                    store_value.accounts@[j],
                    str_view(current),
                ),
        decreases store_value.accounts@.len() - i,
    {
        summaries.push(store_value.accounts[i].to_summary(current));
        i = i + 1;
    }
    let ghost unsorted = summaries@;
    let ghost ranks = idle_ranks(unsorted);
    assert(summarize_all(unsorted, store_value.accounts@, str_view(current)));
    sort_accounts_by_remaining(summaries)
}

// ---------------------------------------------------------------------------
// The account of a command
// ---------------------------------------------------------------------------
/// Which account a command is to use.
#[derive(Debug)]
pub enum Selection {
    Best,
    Named(String),
}

/// Why a command has no account to use.
#[derive(Debug)]
pub enum SelectError {
    Both,
    Neither,
    NoSwitchableAccount,
    Unresolved(ResolveError),
}

impl SelectError {
    /// The error in words.
    pub open spec fn message(self) -> Seq<char> {
        match self {
            SelectError::Both => "pass either --best or <account-ref>, not both"@,
            SelectError::Neither => "missing <account-ref> or --best"@,
            SelectError::NoSwitchableAccount => "no switchable account found"@,
            SelectError::Unresolved(error) => error.message(),
        }
    }

    /// The error in words.
    pub fn to_text(&self) -> (r: String)
        ensures
            r@ == self.message(),
    {
        match self {
            SelectError::Both => "pass either --best or <account-ref>, not both".to_owned(),
            SelectError::Neither => "missing <account-ref> or --best".to_owned(),
            SelectError::NoSwitchableAccount => "no switchable account found".to_owned(),
            SelectError::Unresolved(error) => error.to_text(),
        }
    }
}

/// Which account a command is to use: the best one, or the one that is named, and
/// not both.
pub fn choose_selection(account_ref: Option<&str>, best: bool) -> (r: Result<
    Selection,
    SelectError,
>)
    ensures
        match (best, account_ref) {
            (true, Some(_)) => r == Err::<Selection, SelectError>(SelectError::Both),
            (false, None) => r == Err::<Selection, SelectError>(SelectError::Neither),
            (true, None) => r == Ok::<Selection, SelectError>(Selection::Best),
            (false, Some(reference)) => match r {
                Ok(Selection::Named(named)) => named@ == reference@,
                _ => false,
            },
        },
{
    match account_ref {
        Some(reference) => if best {
            Err(SelectError::Both)
        } else {
            Ok(Selection::Named(reference.to_owned()))
        },
        None => if best {
            Ok(Selection::Best)
        } else {
            Err(SelectError::Neither)
        },
    }
}

/// Whether a result is that of resolving a reference.
pub open spec fn is_resolved(
    r: Result<StoredAccount, SelectError>,
    accounts: Seq<StoredAccount>,
    reference: Seq<char>,
) -> bool {
    match r {
        Ok(account) => match resolution(records_of(accounts), reference) {
            Resolution::Found(place) => 0 <= place < accounts.len() && account == accounts[place],
            _ => false,
        },
        Err(SelectError::Unresolved(error)) => is_resolve_error(
            error,
            records_of(accounts),
            reference,
        ),
        Err(_) => false,
    }
}

/// Whether an account identifier is the one of the best of some listed accounts.
pub open spec fn is_best_choice(listed: Seq<AccountSummary>, selected: AccountSummary) -> bool {
    &&& listed.contains(selected)
    &&& switchable(selected)
    &&& allowed_comparable(idle_ranks(listed), switchable_flags(listed)) ==> is_best(
        listed,
        selected,
    )
}

/// The account of the pool that a command is to use, seen while `current` is signed
/// in.
pub fn select_account(store_value: &AccountsStore, current: Option<&str>, selection: &Selection) -> (r:
    Result<StoredAccount, SelectError>)
    ensures
        match selection {
            Selection::Named(reference) => is_resolved(r, store_value.accounts@, reference@),
            Selection::Best => exists|listed: Seq<AccountSummary>|
                #![trigger is_summary_list(listed, store_value.accounts@, str_view(current))]
                {
                    &&& is_summary_list(listed, store_value.accounts@, str_view(current))
                    &&& match r {
                        Err(SelectError::NoSwitchableAccount) => forall|i: int|
                            0 <= i < listed.len() ==> !switchable(#[trigger] listed[i]),
                        _ => exists|selected: AccountSummary| #[trigger]
                            is_best_choice(listed, selected) && is_resolved(
                                r,
                                store_value.accounts@,
                                selected.account_id@,
                            ),
                    }
                },
        },
{
    match selection {
        Selection::Named(reference) => match resolve_account(store_value, reference.as_str()) {
            Ok(account) => Ok(account.clone()),
            Err(error) => Err(SelectError::Unresolved(error)),
        },
        Selection::Best => {
            let listed = summaries_from_store(store_value, current);
            let selected = match pick_best_account(listed.as_slice()) {
                Some(selected) => selected,
                None => {
                    assert(is_summary_list(
                        listed@,
                        store_value.accounts@,
                        str_view(current),
                    ));
                    return Err(SelectError::NoSwitchableAccount);
                },
            };
            assert(is_best_choice(listed@, selected));
            match resolve_account(store_value, selected.account_id.as_str()) {
                Ok(account) => Ok(account.clone()),
                Err(error) => Err(SelectError::Unresolved(error)),
            }
        },
    }
}

// ---------------------------------------------------------------------------
// What a reference and a selection mean
// ---------------------------------------------------------------------------
/// A reference fits a record exactly where something follows it in one of the identifiers of
/// that record, or nothing does.
pub proof fn law_reference_fits_by_its_characters(
    record: AccountRecord,
    reference: Seq<char>,
    rest: Seq<char>,
)
    ensures
        record.id == reference + rest ==> matches_prefix(record, reference),
        record.account_id == reference + rest ==> matches_prefix(record, reference),
        matches_prefix(record, reference) ==> reference.len() <= record.id.len() && record.id
            == reference + record.id.skip(reference.len() as int) || reference.len()
            <= record.account_id.len() && record.account_id == reference + record.account_id.skip(
            reference.len() as int,
        ),
{
    text::law_beginnings_and_ends(record.id, reference, rest);
    text::law_beginnings_and_ends(record.account_id, reference, rest);
}

/// What a reference means is a record that it fits; one that fits none means nothing, and one
/// that fits some means one of them, or is refused with all of them.
pub proof fn law_reference_means_what_it_fits(
    records: Seq<AccountRecord>,
    reference: Seq<char>,
    i: int,
)
    requires
        0 <= i < records.len(),
    ensures
        match resolution(records, reference) {
            Resolution::Found(place) => {
                &&& 0 <= place < records.len()
                &&& matches_prefix(records[place], reference)
                &&& records[place].id == reference || records[i].id != reference
            },
            Resolution::NotFound => !matches_prefix(records[i], reference),
            Resolution::Ambiguous(places) => {
                &&& places.len() > 1
                &&& records[i].id != reference
                &&& records[i].account_id != reference
                &&& places.contains(i) <==> matches_prefix(records[i], reference)
            },
        },
{
    lemma_place_of_id(records, reference);
    lemma_place_of(records, reference);
    lemma_prefix_places(records, reference);
    let by_id = place_of_id(records, reference);
    let by_account = place_of(records, reference);
    let places = prefix_places(records, reference);
    assert(records[i].account_id == records[i].account_id);
    if by_id < records.len() {
        assert(records[by_id].id.take(reference.len() as int) =~= reference);
    } else if by_account < records.len() {
        assert(records[by_account].account_id.take(reference.len() as int) =~= reference);
    } else {
        assert(records[i].id != reference);
        assert(records[i].account_id != reference);
        if matches_prefix(records[i], reference) {
            assert(places.contains(i));
        }
        if places.len() > 0 {
            assert(0 <= places[0] < records.len());
            assert(matches_prefix(records[places[0]], reference));
        }
        if places.contains(i) {
            let k = places.index_of(i);
            assert(matches_prefix(records[places[k]], reference));
        }
    }
}

/// A reference that is refused is named, and with it, where it fits several accounts, exactly
/// those: each by its identifiers and its label.
pub proof fn law_refused_reference_names_the_candidates(
    error: ResolveError,
    records: Seq<AccountRecord>,
    reference: Seq<char>,
    i: int,
)
    requires
        is_resolve_error(error, records, reference),
        0 <= i < records.len(),
    ensures
        match error {
            ResolveError::NotFound(named) => named@ == reference && !matches_prefix(
                records[i],
                reference,
            ),
            ResolveError::Ambiguous { reference: named, candidates } => {
                &&& named@ == reference
                &&& candidates@.len() > 1
                &&& matches_prefix(records[i], reference) ==> exists|k: int|
                    0 <= k < candidates@.len() && (#[trigger] candidates@[k]).id@ == records[i].id
                        && candidates@[k].label@ == records[i].label && candidates@[k].account_id@
                        == records[i].account_id
                &&& forall|k: int|
                    0 <= k < candidates@.len() ==> exists|j: int|
                        0 <= j < records.len() && matches_prefix(#[trigger] records[j], reference)
                            && records[j].id == (#[trigger] candidates@[k]).id@
            },
        },
{
    law_reference_means_what_it_fits(records, reference, i);
    lemma_prefix_places(records, reference);
    let places = prefix_places(records, reference);
    if let ResolveError::Ambiguous { reference: named, candidates } = error {
        if matches_prefix(records[i], reference) {
            let k = places.index_of(i);
            assert(candidates@[k].id@ == records[places[k]].id);
        }
        assert forall|k: int| 0 <= k < candidates@.len() implies exists|j: int|
            0 <= j < records.len() && matches_prefix(#[trigger] records[j], reference)
                && records[j].id == (#[trigger] candidates@[k]).id@ by {
            assert(matches_prefix(records[places[k]], reference));
            assert(records[places[k]].id == candidates@[k].id@);
        }
    }
}

/// Removing an identifier leaves the other records in their order: it is done with one stretch
/// of them after the other, and one record goes exactly where the identifier is its own.
pub proof fn law_removing_keeps_the_order(
    first: Seq<AccountRecord>,
    last: Seq<AccountRecord>,
    record: AccountRecord,
    id: Seq<char>,
)
    ensures
        without_id(first + last, id) == without_id(first, id) + without_id(last, id),
        record.id == id ==> without_id(seq![record], id).len() == 0,
        record.id != id ==> without_id(seq![record], id) == seq![record],
        without_id(first, id).len() <= first.len(),
    decreases last.len(),
{
    reveal_with_fuel(without_id, 2);
    lemma_without_id_is_shorter(first, id);
    assert(seq![record].drop_last() =~= Seq::empty());
    if last.len() == 0 {
        assert(first + last =~= first);
        assert(without_id(first, id) + without_id(last, id) =~= without_id(first, id));
    } else {
        let whole = first + last;
        assert(whole.drop_last() =~= first + last.drop_last());
        assert(whole.last() == last.last());
        law_removing_keeps_the_order(first, last.drop_last(), record, id);
        assert(without_id(whole, id) =~= without_id(first, id) + without_id(last, id));
    }
    if record.id != id {
        assert(without_id(seq![record], id) =~= seq![record]);
    }
}

/// Removing an identifier adds nothing.
proof fn lemma_without_id_is_shorter(records: Seq<AccountRecord>, id: Seq<char>)
    ensures
        without_id(records, id).len() <= records.len(),
    decreases records.len(),
{
    if records.len() > 0 {
        lemma_without_id_is_shorter(records.drop_last(), id);
    }
}

/// The account that is chosen as the best is one of the pool that may be switched to, and no
/// other one that may be switched to comes before it, where all of them can be compared.
pub proof fn law_best_selection_is_the_best_of_the_pool(
    listed: Seq<AccountSummary>,
    accounts: Seq<StoredAccount>,
    current: Option<Seq<char>>,
    selected: AccountSummary,
    i: int,
)
    requires
        is_summary_list(listed, accounts, current),
        is_best_choice(listed, selected),
        0 <= i < accounts.len(),
    ensures
        exists|k: int| 0 <= k < accounts.len() && summarizes(selected, #[trigger] accounts[k], current),
        selected.status != AccountStatus::Expired,
        selected.status != AccountStatus::WorkspaceRemoved,
        exists|other: AccountSummary|
            {
                &&& #[trigger] summarizes(other, accounts[i], current)
                &&& allowed_comparable(idle_ranks(listed), switchable_flags(listed)) && switchable(
                    other,
                ) ==> !precedes(rank_of(other, 0), rank_of(selected, 0))
            },
{
    let summaries = choose|summaries: Seq<AccountSummary>|
        #![trigger idle_ranks(summaries)]
        {
            &&& summarize_all(summaries, accounts, current)
            &&& is_rearranged(summaries, listed)
            &&& all_comparable(idle_ranks(summaries)) ==> is_ranked(summaries, listed)
        };
    law_rearranging_keeps_the_items(summaries, listed, i);
    let at = listed.index_of(selected);
    law_rearranging_keeps_the_items(summaries, listed, at);
    let k = summaries.index_of(selected);
    assert(summarizes(summaries[k], accounts[k], current));
    let other = summaries[i];
    assert(summarizes(other, accounts[i], current));
    let j = listed.index_of(other);
    if allowed_comparable(idle_ranks(listed), switchable_flags(listed)) && switchable(other) {
        let best = choose|best: int|
            #![trigger listed[best]]
            is_first(idle_ranks(listed), switchable_flags(listed), best) && listed[best]
                == selected;
        assert(switchable_flags(listed)[j]);
        assert(idle_ranks(listed)[j] == rank_of(other, 0));
        assert(idle_ranks(listed)[best] == rank_of(selected, 0));
        assert(!precedes(idle_ranks(listed)[j], idle_ranks(listed)[best]));
    }
}

/// The list of the accounts has each of them, and of two that can be compared none that comes
/// after before one that comes first.
pub proof fn law_list_has_the_best_first(
    listed: Seq<AccountSummary>,
    accounts: Seq<StoredAccount>,
    current: Option<Seq<char>>,
    i: int,
    j: int,
)
    requires
        is_summary_list(listed, accounts, current),
        0 <= i < j < listed.len(),
    ensures
        listed.len() == accounts.len(),
        exists|k: int|
            0 <= k < accounts.len() && summarizes(listed[i], #[trigger] accounts[k], current),
        exists|k: int|
            0 <= k < listed.len() && summarizes(#[trigger] listed[k], accounts[i], current),
        all_comparable(idle_ranks(listed)) ==> !precedes(
            rank_of(listed[j], 0),
            rank_of(listed[i], 0),
        ),
{
    let summaries = choose|summaries: Seq<AccountSummary>|
        #![trigger idle_ranks(summaries)]
        {
            &&& summarize_all(summaries, accounts, current)
            &&& is_rearranged(summaries, listed)
            &&& all_comparable(idle_ranks(summaries)) ==> is_ranked(summaries, listed)
        };
    law_rearranging_keeps_the_items(summaries, listed, i);
    let k = summaries.index_of(listed[i]);
    assert(summarizes(summaries[k], accounts[k], current));
    let at = listed.index_of(summaries[i]);
    assert(summarizes(summaries[i], accounts[i], current));
    assert(summarizes(listed[at], accounts[i], current));
    if all_comparable(idle_ranks(listed)) {
        assert forall|s: int| 0 <= s < idle_ranks(summaries).len() implies comparable(
            #[trigger] idle_ranks(summaries)[s],
        ) by {
            law_rearranging_keeps_the_items(summaries, listed, s);
            let t = listed.index_of(summaries[s]);
            assert(comparable(idle_ranks(listed)[t]));
        }
        law_ordered_list(summaries, listed, i, j);
    }
}

/// A refused reference is told with what it was and, where it fits several accounts, with a line
/// for each of them, in order: its identifier, its label and its account identifier.
pub proof fn law_refusal_tells_the_candidates(
    reference: String,
    candidates: Vec<Candidate>,
    more: Seq<Candidate>,
    candidate: Candidate,
)
    ensures
        ResolveError::NotFound(reference).message() == "account reference `"@ + reference@
            + "` not found"@,
        (ResolveError::Ambiguous { reference, candidates }).message() == "account reference `"@
            + reference@ + "` is ambiguous. Candidates:"@ + candidate_lines(candidates@),
        candidate_lines(more.push(candidate)) == candidate_lines(more) + ("\n- "@ + candidate.id@
            + " | "@ + candidate.label@ + " | "@ + candidate.account_id@),
        candidate_lines(Seq::<Candidate>::empty()).len() == 0,
{
    assert(more.push(candidate).drop_last() =~= more);
}

/// A named account is the one that its name means, as the pool has it.
pub proof fn law_named_account_is_the_one_meant(
    r: Result<StoredAccount, SelectError>,
    accounts: Seq<StoredAccount>,
    reference: Seq<char>,
    i: int,
)
    requires
        is_resolved(r, accounts, reference),
        0 <= i < accounts.len(),
    ensures
        r is Ok ==> accounts.contains(r->Ok_0) && matches_prefix(r->Ok_0@, reference),
        r is Ok && accounts[i].id@ == reference ==> r->Ok_0.id@ == reference,
        r is Err ==> r->Err_0 is Unresolved && accounts[i].id@ != reference
            && accounts[i].account_id@ != reference,
{
    let records = records_of(accounts);
    assert(records[i] == accounts[i]@);
    law_reference_means_what_it_fits(records, reference, i);
    if r is Ok {
        let place = resolution(records, reference)->Found_0;
        assert(records[place] == accounts[place]@);
        assert(accounts.contains(accounts[place]));
    } else {
        law_reference_precedence(records, reference, i);
        if records[i].account_id == reference {
            lemma_place_of_id(records, reference);
            lemma_place_of(records, reference);
        }
    }
}

} // verus!
