//! The pool of accounts: enrolling an account, and importing another pool.

use crate::auth::{extract_auth, facts_of, normalize_imported_auth_json, normalized_auth};
use crate::auth::{law_normalize_keeps_the_account, AuthError, AuthFacts};
use crate::json;
use crate::json::{value_tree, JsonTree};
use crate::models::{
    usage_view, AccountsStore, ImportStats, StoredAccount, UsageModel, UsageSnapshot,
};
use crate::text;
use crate::text::{signed_decimal, str_view, text_view, trimmed};
use crate::utils::{grouped_id, is_grouped_id, now_unix_seconds, short_account, short_form};
use serde_json::Value;
use vstd::prelude::*;

verus! {

// ---------------------------------------------------------------------------
// Records
// ---------------------------------------------------------------------------
/// What the pool keeps of an account.
pub struct AccountRecord {
    pub id: Seq<char>,
    pub label: Seq<char>,
    pub email: Option<Seq<char>>,
    pub account_id: Seq<char>,
    pub plan_type: Option<Seq<char>>,
    pub auth: JsonTree,
    pub added_at: i64,
    pub updated_at: i64,
    pub usage: Option<UsageModel>,
    pub usage_error: Option<Seq<char>>,
}

impl View for StoredAccount {
    type V = AccountRecord;

    open spec fn view(&self) -> AccountRecord {
        AccountRecord {
            id: self.id@,
            label: self.label@,
            email: text_view(self.email),
            account_id: self.account_id@,
            plan_type: text_view(self.plan_type),
            auth: value_tree(self.auth_json),
            added_at: self.added_at,
            updated_at: self.updated_at,
            usage: usage_view(self.usage),
            usage_error: text_view(self.usage_error),
        }
    }
}

/// The records of some accounts.
pub open spec fn records_of(accounts: Seq<StoredAccount>) -> Seq<AccountRecord> {
    accounts.map_values(|account: StoredAccount| account@)
}

/// The place of the first record of an account, or the number of records where
/// there is none.
pub open spec fn place_of(records: Seq<AccountRecord>, account_id: Seq<char>) -> int
    decreases records.len(),
{
    if records.len() == 0 {
        0
    } else if records[0].account_id == account_id {
        0
    } else {
        1 + place_of(records.skip(1), account_id)
    }
}

/// Whether the pool has an account.
pub open spec fn has_account(records: Seq<AccountRecord>, account_id: Seq<char>) -> bool {
    exists|i: int| 0 <= i < records.len() && #[trigger] records[i].account_id == account_id
}

/// Whether no account is in the pool twice.
pub open spec fn distinct_accounts(records: Seq<AccountRecord>) -> bool {
    forall|i: int, j: int|
        0 <= i < j < records.len() ==> #[trigger] records[i].account_id
            != #[trigger] records[j].account_id
}

/// Where the first record of an account stands.
pub proof fn lemma_place_of(records: Seq<AccountRecord>, account_id: Seq<char>)
    ensures
        0 <= place_of(records, account_id) <= records.len(),
        forall|i: int|
            0 <= i < place_of(records, account_id) ==> #[trigger] records[i].account_id
                != account_id,
        place_of(records, account_id) < records.len() ==> records[place_of(
            records,
            account_id,
        )].account_id == account_id,
        has_account(records, account_id) <==> place_of(records, account_id) < records.len(),
    decreases records.len(),
{
    if records.len() > 0 && records[0].account_id != account_id {
        let rest = records.skip(1);
        lemma_place_of(rest, account_id);
        assert forall|i: int| 0 <= i < place_of(records, account_id) implies #[trigger] records[i].account_id
            != account_id by {
            if i > 0 {
                assert(rest[i - 1] == records[i]);
            }
        }
        if place_of(rest, account_id) < rest.len() {
            assert(rest[place_of(rest, account_id)] == records[place_of(records, account_id)]);
        }
    }
}

/// The place of the first record that is one of an account.
pub(crate) proof fn lemma_place_is(records: Seq<AccountRecord>, account_id: Seq<char>, i: int)
    requires
        0 <= i <= records.len(),
        i < records.len() ==> records[i].account_id == account_id,
        forall|j: int| 0 <= j < i ==> #[trigger] records[j].account_id != account_id,
    ensures
        place_of(records, account_id) == i,
{
    lemma_place_of(records, account_id);
    let place = place_of(records, account_id);
    if place < i {
        assert(records[place].account_id != account_id);
    } else if i < place {
        assert(records[i].account_id != account_id);
    }
}

/// The place of the first account with an identifier, or the number of accounts.
pub fn find_account(accounts: &Vec<StoredAccount>, account_id: &str) -> (r: usize)
    ensures
        r == place_of(records_of(accounts@), account_id@),
        r <= accounts@.len(),
{
    let ghost records = records_of(accounts@);
    let mut i: usize = 0;
    while i < accounts.len()
        invariant
            0 <= i <= accounts@.len(),
            records == records_of(accounts@),
            forall|j: int| 0 <= j < i ==> #[trigger] records[j].account_id != account_id@,
        decreases accounts@.len() - i,
    {
        if text::same(accounts[i].account_id.as_str(), account_id) {
            proof {
                lemma_place_is(records, account_id@, i as int);
            }
            return i;
        }
        i = i + 1;
    }
    proof {
        lemma_place_is(records, account_id@, i as int);
    }
    i
}

// ---------------------------------------------------------------------------
// Labels
// ---------------------------------------------------------------------------
/// A label of the user's own, where it is not blank.
pub open spec fn custom_label(label: Option<Seq<char>>) -> Option<Seq<char>> {
    match label {
        Some(label) => if trimmed(label).len() == 0 {
            None
        } else {
            Some(trimmed(label))
        },
        None => None,
    }
}

/// A label of the user's own, without the white space around it; none where
/// nothing else is in it.
pub fn normalize_custom_label(label: Option<String>) -> (r: Option<String>)
    ensures
        text_view(r) == custom_label(text_view(label)),
{
    match label {
        Some(label) => {
            let label = text::trim(label.as_str());
            if label.as_str().is_empty() {
                None
            } else {
                Some(label)
            }
        },
        None => None,
    }
}

/// The label of an account that was given none.
pub open spec fn fallback_label(email: Option<Seq<char>>, account_id: Seq<char>) -> Seq<char> {
    match email {
        Some(email) => email,
        None => "Codex "@ + short_form(account_id),
    }
}

/// The label of an account that was given none: its e-mail address or, failing
/// that, the beginning of its identifier.
pub fn fallback_account_label(email: Option<&str>, account_id: &str) -> (r: String)
    ensures
        r@ == fallback_label(str_view(email), account_id@),
{
    match email {
        Some(email) => email.to_owned(),
        None => {
            let mut label = "Codex ".to_owned();
            let short = short_account(account_id);
            label.append(short.as_str());
            label
        },
    }
}

// ---------------------------------------------------------------------------
// Enrolling
// ---------------------------------------------------------------------------
/// What an account is enrolled with.
pub struct Enrollment {
    pub auth: JsonTree,
    pub label: Option<Seq<char>>,
    pub usage: Option<UsageModel>,
    pub usage_error: Option<Seq<char>>,
}

/// The pool after an enrollment, the record that was written, and whether it took
/// the place of one.
pub struct Enrolled {
    pub records: Seq<AccountRecord>,
    pub stored: AccountRecord,
    pub was_updated: bool,
}

/// The plan that a usage report names.
pub open spec fn reported_plan(usage: Option<UsageModel>) -> Option<Seq<char>> {
    match usage {
        Some(usage) => usage.plan_type,
        None => None,
    }
}

/// The first that is there.
pub open spec fn either(a: Option<Seq<char>>, b: Option<Seq<char>>) -> Option<Seq<char>> {
    match a {
        Some(a) => Some(a),
        None => b,
    }
}

/// The label that an enrollment gives.
pub open spec fn enrolled_label(request: Enrollment, facts: AuthFacts) -> Seq<char> {
    match custom_label(request.label) {
        Some(label) => label,
        None => fallback_label(facts.email, facts.account_id),
    }
}

/// The record of a new account.
pub open spec fn new_record(
    request: Enrollment,
    facts: AuthFacts,
    id: Seq<char>,
    now: i64,
) -> AccountRecord {
    AccountRecord {
        id,
        label: enrolled_label(request, facts),
        email: facts.email,
        account_id: facts.account_id,
        plan_type: either(reported_plan(request.usage), facts.plan_type),
        auth: normalized_auth(request.auth),
        added_at: now,
        updated_at: now,
        usage: request.usage,
        usage_error: request.usage_error,
    }
}

/// The record of a known account. It keeps its identifiers and the time at which
/// it was added, and what the enrollment does not bring: its plan and its usage.
pub open spec fn updated_record(
    before: AccountRecord,
    request: Enrollment,
    facts: AuthFacts,
    now: i64,
) -> AccountRecord {
    AccountRecord {
        id: before.id,
        label: enrolled_label(request, facts),
        email: facts.email,
        account_id: before.account_id,
        plan_type: either(
            either(reported_plan(request.usage), facts.plan_type),
            before.plan_type,
        ),
        auth: normalized_auth(request.auth),
        added_at: before.added_at,
        updated_at: now,
        usage: if request.usage is Some {
            request.usage
        } else {
            before.usage
        },
        usage_error: request.usage_error,
    }
}

/// The pool after an enrollment at a time, with an identifier for a new account.
pub open spec fn enrolled(
    records: Seq<AccountRecord>,
    request: Enrollment,
    id: Seq<char>,
    now: i64,
) -> Result<Enrolled, AuthError> {
    match facts_of(normalized_auth(request.auth)) {
        Err(error) => Err(error),
        Ok(facts) => {
            let place = place_of(records, facts.account_id);
            if place < records.len() {
                let stored = updated_record(records[place], request, facts, now);
                Ok(Enrolled { records: records.update(place, stored), stored, was_updated: true })
            } else {
                let stored = new_record(request, facts, id, now);
                Ok(Enrolled { records: records.push(stored), stored, was_updated: false })
            }
        },
    }
}

/// Whether a store and a result are those of an enrollment. A refused document
/// leaves the store as it was.
pub open spec fn is_enrolled(
    before: AccountsStore,
    after: AccountsStore,
    r: Result<(StoredAccount, bool), AuthError>,
    request: Enrollment,
    id: Seq<char>,
    now: i64,
) -> bool {
    match (r, enrolled(records_of(before.accounts@), request, id, now)) {
        (Ok((stored, was_updated)), Ok(expected)) => {
            &&& after.version == before.version
            &&& records_of(after.accounts@) == expected.records
            &&& stored@ == expected.stored
            &&& was_updated == expected.was_updated
        },
        (Err(error), Err(expected)) => error == expected && after == before,
        _ => false,
    }
}

/// Enrolls the account of a sign-in document at a time: brings the record of a
/// known account up to date, or adds a record with the identifier `id`.
pub fn upsert_auth_account_at(
    store: &mut AccountsStore,
    auth_json: Value,
    label: Option<String>,
    usage: Option<UsageSnapshot>,
    usage_error: Option<String>,
    id: String,
    now: i64,
) -> (r: Result<(StoredAccount, bool), AuthError>)
    ensures
        is_enrolled(
            *old(store),
            *final(store),
            r,
            (Enrollment {
                auth: value_tree(auth_json),
                label: text_view(label),
                usage: usage_view(usage),
                usage_error: text_view(usage_error),
            }),
            id@,
            now,
        ),
{
    let ghost before = records_of(store.accounts@);
    let auth_json = normalize_imported_auth_json(auth_json);
    let extracted = match extract_auth(&auth_json) {
        Ok(extracted) => extracted,
        Err(error) => return Err(error),
    };
    let label = match normalize_custom_label(label) {
        Some(label) => label,
        None => match &extracted.email {
            Some(email) => fallback_account_label(
                Some(email.as_str()),
                extracted.account_id.as_str(),
            ),
            None => fallback_account_label(None, extracted.account_id.as_str()),
        },
    };
    let reported = match &usage {
        Some(snapshot) => snapshot.plan_type.clone(),
        None => None,
    };
    let named = match reported {
        Some(plan) => Some(plan),
        None => extracted.plan_type,
    };
    let place: usize = find_account(&store.accounts, extracted.account_id.as_str());
    if place < store.accounts.len() {
        let mut stored = store.accounts[place].clone();
        stored.label = label;
        stored.email = extracted.email;
        if named.is_some() {
            stored.plan_type = named;
        }
        stored.auth_json = auth_json;
        stored.updated_at = now;
        if usage.is_some() {
            stored.usage = usage;
        }
        stored.usage_error = usage_error;
        let copy = stored.clone();
        store.accounts.set(place, stored);
        assert(records_of(store.accounts@) =~= before.update(place as int, copy@));
        return Ok((copy, true));
    }
    let stored = StoredAccount {
        id,
        label,
        email: extracted.email,
        account_id: extracted.account_id,
        plan_type: named,
        auth_json,
        added_at: now,
        updated_at: now,
        usage,
        usage_error,
    };
    let copy = stored.clone();
    store.accounts.push(stored);
    assert(records_of(store.accounts@) =~= before.push(copy@));
    Ok((copy, false))
}

/// Enrolls the account of a sign-in document now, with a fresh identifier for a
/// new account.
pub fn upsert_auth_account(
    store: &mut AccountsStore,
    auth_json: Value,
    label: Option<String>,
    usage: Option<UsageSnapshot>,
    usage_error: Option<String>,
) -> (r: Result<(StoredAccount, bool), AuthError>)
    ensures
        exists|id: Seq<char>, now: i64|
            is_grouped_id(id) && #[trigger] is_enrolled(
                *old(store),
                *final(store),
                r,
                (Enrollment {
                    auth: value_tree(auth_json),
                    label: text_view(label),
                    usage: usage_view(usage),
                    usage_error: text_view(usage_error),
                }),
                id,
                now,
            ),
{
    let id = grouped_id();
    let ghost fresh = id@;
    let now: i64 = now_unix_seconds();
    assert(is_grouped_id(fresh));
    upsert_auth_account_at(store, auth_json, label, usage, usage_error, id, now)
}

/// An enrollment keeps the accounts of the pool distinct, adds one at most, leaves
/// every other record as it was, and leaves the account that the document names in
/// the pool. The record of that account, new or known, is the one that is handed back; it
/// has the enrolled document in the form in which the pool keeps it, and the label, the
/// address and the plan that the enrollment brings.
pub proof fn law_enrolling_keeps_accounts_distinct(
    records: Seq<AccountRecord>,
    request: Enrollment,
    id: Seq<char>,
    now: i64,
)
    requires
        distinct_accounts(records),
        enrolled(records, request, id, now) is Ok,
    ensures
        ({
            let after = enrolled(records, request, id, now)->Ok_0;
            let facts = facts_of(request.auth)->Ok_0;
            &&& distinct_accounts(after.records)
            &&& after.stored.account_id == facts.account_id
            &&& has_account(after.records, facts.account_id)
            &&& after.was_updated == has_account(records, facts.account_id)
            &&& after.records.len() == records.len() + if after.was_updated {
                0int
            } else {
                1int
            }
            &&& forall|i: int|
                0 <= i < records.len() && records[i].account_id != facts.account_id
                    ==> #[trigger] after.records[i] == records[i]
            &&& forall|i: int|
                0 <= i < records.len() ==> (#[trigger] after.records[i]).account_id
                    == records[i].account_id && after.records[i].id == records[i].id
                    && after.records[i].added_at == records[i].added_at
            &&& forall|i: int|
                0 <= i < after.records.len() && (#[trigger] after.records[i]).account_id
                    == facts.account_id ==> after.records[i] == after.stored
            &&& after.stored.auth == normalized_auth(request.auth)
            &&& after.stored.email == facts.email
            &&& after.stored.updated_at == now
            &&& after.stored.usage_error == request.usage_error
            &&& request.label is Some && trimmed(request.label->0).len() > 0 ==> after.stored.label
                == trimmed(request.label->0)
            &&& (request.label is None || trimmed(request.label->0).len() == 0) && facts.email
                is Some ==> after.stored.label == facts.email->0
            &&& request.usage is Some ==> after.stored.usage == request.usage
            &&& request.usage is Some && request.usage->0.plan_type is Some
                ==> after.stored.plan_type == request.usage->0.plan_type
            &&& (request.usage is None || request.usage->0.plan_type is None) && facts.plan_type
                is Some ==> after.stored.plan_type == facts.plan_type
        }),
{
    law_normalize_keeps_the_account(request.auth);
    let facts = facts_of(request.auth)->Ok_0;
    let after = enrolled(records, request, id, now)->Ok_0;
    lemma_place_of(records, facts.account_id);
    let place = place_of(records, facts.account_id);
    assert(after.records[place].account_id == facts.account_id);
    assert forall|i: int|
        0 <= i < after.records.len() && (#[trigger] after.records[i]).account_id
            == facts.account_id implies after.records[i] == after.stored by {
        if i < records.len() && i != place {
            assert(records[i].account_id == facts.account_id);
            if place < records.len() {
                assert(records[place].account_id == facts.account_id);
            }
        }
    }
    assert forall|i: int, j: int| 0 <= i < j < after.records.len() implies #[trigger] after.records[i].account_id
        != #[trigger] after.records[j].account_id by {
        assert(records[i].account_id == after.records[i].account_id);
        if j < records.len() {
            assert(records[j].account_id == after.records[j].account_id);
        }
    }
}

/// Enrolling the same document again brings the record up to date in its place:
/// no second record comes.
pub proof fn law_enrolling_again_updates(
    records: Seq<AccountRecord>,
    request: Enrollment,
    again: Enrollment,
    id: Seq<char>,
    other_id: Seq<char>,
    now: i64,
    later: i64,
)
    requires
        enrolled(records, request, id, now) is Ok,
        again.auth == request.auth,
    ensures
        ({
            let first = enrolled(records, request, id, now)->Ok_0;
            let second = enrolled(first.records, again, other_id, later);
            &&& second is Ok
            &&& second->Ok_0.was_updated
            &&& second->Ok_0.records.len() == first.records.len()
            &&& second->Ok_0.stored.id == first.stored.id
            &&& second->Ok_0.stored.added_at == first.stored.added_at
            &&& second->Ok_0.stored.updated_at == later
        }),
{
    let facts = facts_of(normalized_auth(request.auth))->Ok_0;
    let first = enrolled(records, request, id, now)->Ok_0;
    let place = place_of(records, facts.account_id);
    lemma_place_of(records, facts.account_id);
    assert forall|j: int| 0 <= j < place implies #[trigger] first.records[j].account_id
        != facts.account_id by {
        assert(records[j].account_id != facts.account_id);
    }
    lemma_place_is(first.records, facts.account_id, place);
}

// ---------------------------------------------------------------------------
// Importing a pool
// ---------------------------------------------------------------------------
/// What an account of another pool is enrolled with.
pub open spec fn enrollment_of(source: AccountRecord) -> Enrollment {
    Enrollment {
        auth: source.auth,
        label: Some(source.label),
        usage: source.usage,
        usage_error: source.usage_error,
    }
}

/// An import as far as it has come: the pool, the counts, and the error that
/// stopped it.
pub struct ImportProgress {
    pub records: Seq<AccountRecord>,
    pub imported: nat,
    pub updated: nat,
    pub error: Option<AuthError>,
}

/// The import of the first `n` accounts, each with an identifier and a time. An
/// account that the pool knows counts as updated unless its record in the other
/// pool is from a later time. The first refused document ends the import.
pub open spec fn import_progress(
    records: Seq<AccountRecord>,
    sources: Seq<AccountRecord>,
    stamps: Seq<(Seq<char>, i64)>,
    n: nat,
) -> ImportProgress
    decreases n,
{
    if n == 0 {
        ImportProgress { records, imported: 0, updated: 0, error: None }
    } else {
        let before = import_progress(records, sources, stamps, (n - 1) as nat);
        let source = sources[n - 1];
        let stamp = stamps[n - 1];
        if before.error is Some {
            before
        } else {
            match enrolled(before.records, enrollment_of(source), stamp.0, stamp.1) {
                Err(error) => ImportProgress { error: Some(error), ..before },
                Ok(step) => ImportProgress {
                    records: step.records,
                    imported: if step.was_updated {
                        before.imported
                    } else {
                        before.imported + 1
                    },
                    updated: if step.was_updated && step.stored.updated_at >= source.updated_at {
                        before.updated + 1
                    } else {
                        before.updated
                    },
                    error: None,
                },
            }
        }
    }
}

/// Whether a pool and a result are those of an import.
pub open spec fn is_imported(
    before: AccountsStore,
    after: AccountsStore,
    r: Result<ImportStats, AuthError>,
    source: AccountsStore,
    stamps: Seq<(Seq<char>, i64)>,
) -> bool {
    let end = import_progress(
        records_of(before.accounts@),
        records_of(source.accounts@),
        stamps,
        source.accounts@.len(),
    );
    &&& after.version == before.version
    &&& records_of(after.accounts@) == end.records
    &&& match r {
        Ok(stats) => end.error is None && stats.imported == end.imported && stats.updated
            == end.updated,
        Err(error) => end.error == Some(error),
    }
}

/// The views of some stamps.
pub open spec fn stamps_view(stamps: Seq<(String, i64)>) -> Seq<(Seq<char>, i64)> {
    stamps.map_values(|stamp: (String, i64)| (stamp.0@, stamp.1))
}

/// An import that an error has stopped stays as it is.
proof fn lemma_import_stopped(
    records: Seq<AccountRecord>,
    sources: Seq<AccountRecord>,
    stamps: Seq<(Seq<char>, i64)>,
    m: nat,
    n: nat,
)
    requires
        m <= n,
        import_progress(records, sources, stamps, m).error is Some,
    ensures
        import_progress(records, sources, stamps, n) == import_progress(
            records,
            sources,
            stamps,
            m,
        ),
    decreases n,
{
    if m < n {
        lemma_import_stopped(records, sources, stamps, m, (n - 1) as nat);
    }
}

/// An import counts no more accounts than it has seen.
proof fn lemma_import_counts(
    records: Seq<AccountRecord>,
    sources: Seq<AccountRecord>,
    stamps: Seq<(Seq<char>, i64)>,
    n: nat,
)
    ensures
        import_progress(records, sources, stamps, n).imported + import_progress(
            records,
            sources,
            stamps,
            n,
        ).updated <= n,
    decreases n,
{
    if n > 0 {
        lemma_import_counts(records, sources, stamps, (n - 1) as nat);
    }
}

/// Imports another pool, each of its accounts with an identifier and a time.
pub fn import_store_with_stamps(
    target: &mut AccountsStore,
    source: &AccountsStore,
    stamps: &Vec<(String, i64)>,
) -> (r: Result<ImportStats, AuthError>)
    requires
        stamps@.len() == source.accounts@.len(),
    ensures
        is_imported(*old(target), *final(target), r, *source, stamps_view(stamps@)),
{
    let ghost before = records_of(target.accounts@);
    let ghost sources = records_of(source.accounts@);
    let ghost marks = stamps_view(stamps@);
    let total: usize = source.accounts.len();
    let mut imported: usize = 0;
    let mut updated: usize = 0;
    let mut i: usize = 0;
    while i < total
        invariant
            0 <= i <= total,
            total == source.accounts@.len(),
            stamps@.len() == source.accounts@.len(),
            before == records_of(old(target).accounts@),
            sources == records_of(source.accounts@),
            marks == stamps_view(stamps@),
            target.version == old(target).version,
            ({
                let progress = import_progress(before, sources, marks, i as nat);
                &&& records_of(target.accounts@) == progress.records
                &&& imported == progress.imported
                &&& updated == progress.updated
                &&& progress.error is None
            }),
            imported + updated <= i,
        decreases total - i,
    {
        let account = &source.accounts[i];
        let result = upsert_auth_account_at(
            target,
            json::clone_value(&account.auth_json),
            Some(account.label.clone()),
            account.usage.clone(),
            account.usage_error.clone(),
            stamps[i].0.clone(),
            stamps[i].1,
        );
        proof {
            assert(sources[i as int] == account@);
            assert(marks[i as int] == (stamps@[i as int].0@, stamps@[i as int].1));
            lemma_import_counts(before, sources, marks, (i + 1) as nat);
            if result is Err {
                assert(import_progress(before, sources, marks, (i + 1) as nat).error is Some);
                lemma_import_stopped(before, sources, marks, (i + 1) as nat, total as nat);
            }
        }
        match result {
            Ok((stored, was_updated)) => {
                if was_updated {
                    if stored.updated_at >= account.updated_at {
                        updated = updated + 1;
                    }
                } else {
                    imported = imported + 1;
                }
            },
            Err(error) => return Err(error),
        }
        i = i + 1;
    }
    Ok(ImportStats { imported, updated })
}

/// Whether all identifiers of some stamps are fresh ones.
pub open spec fn fresh_stamps(stamps: Seq<(Seq<char>, i64)>) -> bool {
    forall|i: int| 0 <= i < stamps.len() ==> is_grouped_id((#[trigger] stamps[i]).0)
}

/// Imports another pool.
pub fn import_store_into_store(target: &mut AccountsStore, source: &AccountsStore) -> (r: Result<
    ImportStats,
    AuthError,
>)
    ensures
        exists|stamps: Seq<(Seq<char>, i64)>|
            stamps.len() == source.accounts@.len() && fresh_stamps(stamps)
                && #[trigger] is_imported(*old(target), *final(target), r, *source, stamps),
{
    let total: usize = source.accounts.len();
    let mut stamps: Vec<(String, i64)> = Vec::new();
    let mut i: usize = 0;
    while i < total
        invariant
            0 <= i <= total,
            stamps@.len() == i,
            fresh_stamps(stamps_view(stamps@)),
        decreases total - i,
    {
        let ghost before = stamps_view(stamps@);
        let id = grouped_id();
        let now: i64 = now_unix_seconds();
        let ghost stamp = (id@, now);
        stamps.push((id, now));
        assert(stamps_view(stamps@) =~= before.push(stamp));
        i = i + 1;
    }
    let r = import_store_with_stamps(target, source, &stamps);
    assert(is_imported(*old(target), *target, r, *source, stamps_view(stamps@)));
    r
}

/// An import keeps the accounts of the pool distinct, and keeps every account that
/// was in it in its place.
pub proof fn law_importing_keeps_accounts_distinct(
    records: Seq<AccountRecord>,
    sources: Seq<AccountRecord>,
    stamps: Seq<(Seq<char>, i64)>,
    n: nat,
)
    requires
        distinct_accounts(records),
    ensures
        ({
            let end = import_progress(records, sources, stamps, n);
            &&& distinct_accounts(end.records)
            &&& end.records.len() == records.len() + end.imported
            &&& end.imported + end.updated <= n
            &&& forall|i: int|
                0 <= i < records.len() ==> (#[trigger] end.records[i]).account_id
                    == records[i].account_id && end.records[i].id == records[i].id
        }),
    decreases n,
{
    if n > 0 {
        law_importing_keeps_accounts_distinct(records, sources, stamps, (n - 1) as nat);
        let before = import_progress(records, sources, stamps, (n - 1) as nat);
        let source = sources[n - 1];
        let stamp = stamps[n - 1];
        if before.error is None && enrolled(
            before.records,
            enrollment_of(source),
            stamp.0,
            stamp.1,
        ) is Ok {
            law_enrolling_keeps_accounts_distinct(
                before.records,
                enrollment_of(source),
                stamp.0,
                stamp.1,
            );
        }
    }
}

/// After an import that nothing stopped, every account of the other pool is in
/// this one.
pub proof fn law_importing_brings_every_account(
    records: Seq<AccountRecord>,
    sources: Seq<AccountRecord>,
    stamps: Seq<(Seq<char>, i64)>,
    n: nat,
    k: int,
)
    requires
        distinct_accounts(records),
        0 <= k < n <= sources.len(),
        import_progress(records, sources, stamps, n).error is None,
    ensures
        facts_of(sources[k].auth) is Ok,
        has_account(
            import_progress(records, sources, stamps, n).records,
            facts_of(sources[k].auth)->Ok_0.account_id,
        ),
    decreases n,
{
    let before = import_progress(records, sources, stamps, (n - 1) as nat);
    let source = sources[n - 1];
    let stamp = stamps[n - 1];
    law_importing_keeps_accounts_distinct(records, sources, stamps, (n - 1) as nat);
    law_enrolling_keeps_accounts_distinct(
        before.records,
        enrollment_of(source),
        stamp.0,
        stamp.1,
    );
    law_normalize_keeps_the_account(source.auth);
    let end = import_progress(records, sources, stamps, n);
    if k < n - 1 {
        law_importing_brings_every_account(records, sources, stamps, (n - 1) as nat, k);
        let account_id = facts_of(sources[k].auth)->Ok_0.account_id;
        let i = choose|i: int|
            0 <= i < before.records.len() && #[trigger] before.records[i].account_id == account_id;
        assert(end.records[i].account_id == account_id);
    }
}

// ---------------------------------------------------------------------------
// The file of the pool
// ---------------------------------------------------------------------------
/// Whether a pool that was read has to be written back.
#[derive(Debug, Clone, Copy, PartialEq, Eq, Structural)]
pub enum StoreRepair {
    /// The file was in order.
    NotNeeded,
    /// The file began with a pool: it is written back, and a failure is passed over.
    BestEffort,
    /// Nothing could be read: an empty pool is written, and a failure is an error.
    Required,
}

/// Which pool is used: the one that the whole file holds, else the one that it
/// begins with, else an empty one.
pub fn settle_loaded_store(whole: Option<AccountsStore>, first: Option<AccountsStore>) -> (r: (
    AccountsStore,
    StoreRepair,
))
    ensures
        match (whole, first) {
            (Some(store), _) => r == (store, StoreRepair::NotNeeded),
            (None, Some(store)) => r == (store, StoreRepair::BestEffort),
            (None, None) => r.0.version == 1 && r.0.accounts@.len() == 0 && r.1
                == StoreRepair::Required,
        },
{
    match whole {
        Some(store) => (store, StoreRepair::NotNeeded),
        None => match first {
            Some(store) => (store, StoreRepair::BestEffort),
            None => (AccountsStore::default(), StoreRepair::Required),
        },
    }
}

/// The name of the file that is written before it takes the place of another.
pub open spec fn temporary_name(file_name: Option<Seq<char>>, id: Seq<char>) -> Seq<char> {
    "."@ + (match file_name {
        Some(name) => name,
        None => "accounts.json"@,
    }) + ".tmp-"@ + id
}

/// The name of the file that is written before it takes the place of another, with
/// an identifier.
pub fn temporary_file_name_with(file_name: Option<&str>, id: &str) -> (r: String)
    ensures
        r@ == temporary_name(str_view(file_name), id@),
{
    let name = match file_name {
        Some(name) => name,
        None => "accounts.json",
    };
    let mut out = ".".to_owned();
    out.append(name);
    out.append(".tmp-");
    out.append(id);
    out
}

/// The name of the file that is written before it takes the place of another.
pub fn temporary_file_name(file_name: Option<&str>) -> (r: String)
    ensures
        exists|id: Seq<char>|
            is_grouped_id(id) && r@ == #[trigger] temporary_name(str_view(file_name), id),
{
    let id = grouped_id();
    temporary_file_name_with(file_name, id.as_str())
}

/// The name under which an unreadable pool is set aside.
pub fn corrupted_store_name(now: i64) -> (r: String)
    ensures
        r@ == "accounts.corrupt-"@ + signed_decimal(now as int) + ".json"@,
{
    let seconds = text::signed_decimal_of(now);
    let mut out = "accounts.corrupt-".to_owned();
    out.append(seconds.as_str());
    out.append(".json");
    out
}

// ---------------------------------------------------------------------------
// What an enrollment is for
// ---------------------------------------------------------------------------
/// A record says of an account what the account says of itself, in every part.
pub proof fn law_record_says_what_the_account_says(account: StoredAccount)
    ensures
        account@.id == account.id@,
        account@.label == account.label@,
        account@.email is Some <==> account.email is Some,
        account.email is Some ==> account@.email->0 == account.email->0@,
        account@.account_id == account.account_id@,
        account@.plan_type is Some <==> account.plan_type is Some,
        account.plan_type is Some ==> account@.plan_type->0 == account.plan_type->0@,
        account@.auth == value_tree(account.auth_json),
        account@.added_at == account.added_at,
        account@.updated_at == account.updated_at,
        account@.usage is Some <==> account.usage is Some,
        account.usage is Some ==> account@.usage->0.fetched_at == account.usage->0.fetched_at
            && account@.usage->0.five_hour == account.usage->0.five_hour
            && account@.usage->0.one_week == account.usage->0.one_week,
        account@.usage_error is Some <==> account.usage_error is Some,
        account.usage_error is Some ==> account@.usage_error->0 == account.usage_error->0@,
{
}

/// What a new account gets: the identifier and the time of the enrollment. Without a label and
/// without an address, it is called after the beginning of its account identifier. What the
/// enrollment does not bring, it does not have.
pub proof fn law_new_account(
    records: Seq<AccountRecord>,
    request: Enrollment,
    id: Seq<char>,
    now: i64,
)
    requires
        enrolled(records, request, id, now) is Ok,
        !has_account(records, facts_of(request.auth)->Ok_0.account_id),
    ensures
        ({
            let after = enrolled(records, request, id, now)->Ok_0;
            let facts = facts_of(request.auth)->Ok_0;
            &&& !after.was_updated
            &&& after.records == records.push(after.stored)
            &&& after.stored.id == id
            &&& after.stored.account_id == facts.account_id
            &&& after.stored.added_at == now
            &&& after.stored.updated_at == now
            &&& after.stored.usage == request.usage
            &&& (request.usage is None || request.usage->0.plan_type is None)
                ==> after.stored.plan_type == facts.plan_type
            &&& (request.label is None || trimmed(request.label->0).len() == 0) && facts.email
                is None && facts.account_id.len() >= 8 ==> after.stored.label == "Codex "@
                + facts.account_id.subrange(0, 8)
            &&& (request.label is None || trimmed(request.label->0).len() == 0) && facts.email
                is None && facts.account_id.len() < 8 ==> after.stored.label == "Codex "@
                + facts.account_id
        }),
{
    law_normalize_keeps_the_account(request.auth);
    let facts = facts_of(request.auth)->Ok_0;
    lemma_place_of(records, facts.account_id);
    if facts.account_id.len() >= 8 {
        assert(facts.account_id.take(8) =~= facts.account_id.subrange(0, 8));
        if facts.account_id.len() == 8 {
            assert(facts.account_id.subrange(0, 8) =~= facts.account_id);
        }
    }
}

/// What a known account keeps: its place, its identifiers, the time at which it was added, and
/// the usage and the plan where the enrollment brings none.
pub proof fn law_known_account(
    records: Seq<AccountRecord>,
    request: Enrollment,
    id: Seq<char>,
    now: i64,
    place: int,
)
    requires
        distinct_accounts(records),
        enrolled(records, request, id, now) is Ok,
        0 <= place < records.len(),
        records[place].account_id == facts_of(request.auth)->Ok_0.account_id,
    ensures
        ({
            let after = enrolled(records, request, id, now)->Ok_0;
            let before = records[place];
            let facts = facts_of(request.auth)->Ok_0;
            &&& after.was_updated
            &&& after.records == records.update(place, after.stored)
            &&& after.stored.id == before.id
            &&& after.stored.account_id == before.account_id
            &&& after.stored.added_at == before.added_at
            &&& after.stored.updated_at == now
            &&& after.stored.auth == normalized_auth(request.auth)
            &&& request.usage is None ==> after.stored.usage == before.usage
            &&& (request.usage is None || request.usage->0.plan_type is None) && facts.plan_type
                is None ==> after.stored.plan_type == before.plan_type
        }),
{
    law_normalize_keeps_the_account(request.auth);
    let facts = facts_of(request.auth)->Ok_0;
    lemma_place_of(records, facts.account_id);
    let found = place_of(records, facts.account_id);
    assert(has_account(records, facts.account_id));
    if found != place {
        assert(records[found].account_id == records[place].account_id);
    }
}

/// An enrollment is refused exactly where the document does not say whose it is, and with the
/// reason for that.
pub proof fn law_enrollment_is_refused_for_its_document(
    records: Seq<AccountRecord>,
    request: Enrollment,
    id: Seq<char>,
    now: i64,
)
    ensures
        enrolled(records, request, id, now) is Err <==> facts_of(request.auth) is Err,
        facts_of(request.auth) is Err ==> enrolled(records, request, id, now)->Err_0 == facts_of(
            request.auth,
        )->Err_0,
{
    law_normalize_keeps_the_account(request.auth);
}

/// What is handed back by an enrollment is what the pool then has of the account: with the
/// enrolled document, and with what else the enrollment brings.
pub proof fn law_enrolling_stores_the_document(
    before: AccountsStore,
    after: AccountsStore,
    r: Result<(StoredAccount, bool), AuthError>,
    request: Enrollment,
    id: Seq<char>,
    now: i64,
    i: int,
)
    requires
        distinct_accounts(records_of(before.accounts@)),
        is_enrolled(before, after, r, request, id, now),
        r is Ok,
        0 <= i < after.accounts@.len(),
    ensures
        facts_of(request.auth) is Ok,
        r->Ok_0.0.account_id@ == facts_of(request.auth)->Ok_0.account_id,
        value_tree(r->Ok_0.0.auth_json) == normalized_auth(request.auth),
        after.accounts@[i].account_id@ == facts_of(request.auth)->Ok_0.account_id
            ==> value_tree(after.accounts@[i].auth_json) == normalized_auth(request.auth)
            && after.accounts@[i]@ == r->Ok_0.0@,
        after.accounts@[i].account_id@ != facts_of(request.auth)->Ok_0.account_id ==> i
            < before.accounts@.len() && after.accounts@[i]@ == before.accounts@[i]@,
        after.version == before.version,
{
    let records = records_of(before.accounts@);
    law_normalize_keeps_the_account(request.auth);
    law_enrolling_keeps_accounts_distinct(records, request, id, now);
    let expected = enrolled(records, request, id, now)->Ok_0;
    assert(records_of(after.accounts@)[i] == after.accounts@[i]@);
    assert(expected.records[i] == after.accounts@[i]@);
    if i < before.accounts@.len() {
        assert(records[i] == before.accounts@[i]@);
    } else {
        assert(expected.records[i] == expected.stored);
    }
}

/// After an import that nothing stopped, the record of an account has the document, the label
/// and the usage of the last entry of the other pool that is of this account.
pub proof fn law_importing_brings_the_documents(
    records: Seq<AccountRecord>,
    sources: Seq<AccountRecord>,
    stamps: Seq<(Seq<char>, i64)>,
    n: nat,
    k: int,
    i: int,
)
    requires
        distinct_accounts(records),
        0 <= k < n <= sources.len(),
        import_progress(records, sources, stamps, n).error is None,
        forall|j: int|
            k < j < n ==> facts_of((#[trigger] sources[j]).auth)->Ok_0.account_id != facts_of(
                sources[k].auth,
            )->Ok_0.account_id,
        0 <= i < import_progress(records, sources, stamps, n).records.len(),
        import_progress(records, sources, stamps, n).records[i].account_id == facts_of(
            sources[k].auth,
        )->Ok_0.account_id,
    ensures
        ({
            let record = import_progress(records, sources, stamps, n).records[i];
            &&& record.auth == normalized_auth(sources[k].auth)
            &&& trimmed(sources[k].label).len() > 0 ==> record.label == trimmed(sources[k].label)
            &&& sources[k].usage is Some ==> record.usage == sources[k].usage
            &&& record.usage_error == sources[k].usage_error
            &&& record.updated_at == stamps[k].1
        }),
    decreases n,
{
    let before = import_progress(records, sources, stamps, (n - 1) as nat);
    let end = import_progress(records, sources, stamps, n);
    let source = sources[n - 1];
    let stamp = stamps[n - 1];
    law_importing_keeps_accounts_distinct(records, sources, stamps, (n - 1) as nat);
    law_importing_brings_every_account(records, sources, stamps, n, k);
    law_importing_brings_every_account(records, sources, stamps, n, n - 1);
    law_enrolling_keeps_accounts_distinct(
        before.records,
        enrollment_of(source),
        stamp.0,
        stamp.1,
    );
    if k < n - 1 {
        assert(facts_of(sources[n - 1].auth)->Ok_0.account_id != facts_of(
            sources[k].auth,
        )->Ok_0.account_id);
        let last = facts_of(source.auth)->Ok_0.account_id;
        let account_id = facts_of(sources[k].auth)->Ok_0.account_id;
        if i < before.records.len() {
            assert(end.records[i].account_id == before.records[i].account_id);
            assert(end.records[i] == before.records[i]);
            law_importing_brings_the_documents(
                records,
                sources,
                stamps,
                (n - 1) as nat,
                k,
                i,
            );
        } else {
            lemma_place_of(before.records, last);
            law_normalize_keeps_the_account(source.auth);
            assert(end.records[i].account_id == last);
        }
    }
}

/// An import that nothing stopped counts every entry of the other pool: as imported where its
/// account was new, and else as updated, unless the entry is from a later time than the import.
pub proof fn law_import_counts_every_entry(
    records: Seq<AccountRecord>,
    sources: Seq<AccountRecord>,
    stamps: Seq<(Seq<char>, i64)>,
    n: nat,
)
    requires
        distinct_accounts(records),
        n <= sources.len(),
        import_progress(records, sources, stamps, n).error is None,
        forall|j: int| 0 <= j < n ==> (#[trigger] sources[j]).updated_at <= stamps[j].1,
    ensures
        ({
            let end = import_progress(records, sources, stamps, n);
            &&& end.imported + end.updated == n
            &&& end.imported == end.records.len() - records.len()
        }),
    decreases n,
{
    law_importing_keeps_accounts_distinct(records, sources, stamps, n);
    if n > 0 {
        let before = import_progress(records, sources, stamps, (n - 1) as nat);
        let source = sources[n - 1];
        law_import_counts_every_entry(records, sources, stamps, (n - 1) as nat);
        law_importing_keeps_accounts_distinct(records, sources, stamps, (n - 1) as nat);
        law_enrolling_keeps_accounts_distinct(
            before.records,
            enrollment_of(source),
            stamps[n - 1].0,
            stamps[n - 1].1,
        );
    }
}

/// The first document of another pool that does not say whose it is ends the import with its
/// reason; what came before it stays in the pool.
pub proof fn law_import_ends_at_the_first_bad_document(
    records: Seq<AccountRecord>,
    sources: Seq<AccountRecord>,
    stamps: Seq<(Seq<char>, i64)>,
    n: nat,
    k: int,
)
    requires
        0 <= k < n <= sources.len(),
        facts_of(sources[k].auth) is Err,
        forall|j: int| 0 <= j < k ==> facts_of((#[trigger] sources[j]).auth) is Ok,
    ensures
        ({
            let end = import_progress(records, sources, stamps, n);
            &&& end.error == Some(facts_of(sources[k].auth)->Err_0)
            &&& end.records == import_progress(records, sources, stamps, k as nat).records
        }),
    decreases n,
{
    law_normalize_keeps_the_account(sources[n - 1].auth);
    if n - 1 == k {
        lemma_good_documents_do_not_stop(records, sources, stamps, k as nat);
    } else {
        law_import_ends_at_the_first_bad_document(records, sources, stamps, (n - 1) as nat, k);
    }
}

/// Documents that say whose they are do not stop an import.
proof fn lemma_good_documents_do_not_stop(
    records: Seq<AccountRecord>,
    sources: Seq<AccountRecord>,
    stamps: Seq<(Seq<char>, i64)>,
    n: nat,
)
    requires
        n <= sources.len(),
        forall|j: int| 0 <= j < n ==> facts_of((#[trigger] sources[j]).auth) is Ok,
    ensures
        import_progress(records, sources, stamps, n).error is None,
    decreases n,
{
    if n > 0 {
        lemma_good_documents_do_not_stop(records, sources, stamps, (n - 1) as nat);
        assert(facts_of(sources[n - 1].auth) is Ok);
        law_normalize_keeps_the_account(sources[n - 1].auth);
    }
}

/// The file that is written first is hidden, and called after the file whose place it takes
/// and the identifier.
pub proof fn law_temporary_names(name: Seq<char>, id: Seq<char>, other: Seq<char>)
    ensures
        temporary_name(Some(name), id) == "."@ + name + ".tmp-"@ + id,
        temporary_name(None, id) == temporary_name(Some("accounts.json"@), id),
        temporary_name(Some(name), id) == temporary_name(Some(name), other) ==> id == other,
{
    let head = "."@ + name + ".tmp-"@;
    assert((head + id).skip(head.len() as int) =~= id);
    assert((head + other).skip(head.len() as int) =~= other);
}

/// What one entry of another pool does to the counts: one account more is imported, or one more
/// was updated, or, where the entry of a known account is from a later time, neither.
pub proof fn law_what_an_entry_counts_for(
    records: Seq<AccountRecord>,
    sources: Seq<AccountRecord>,
    stamps: Seq<(Seq<char>, i64)>,
    n: nat,
)
    requires
        distinct_accounts(records),
        n < sources.len(),
        import_progress(records, sources, stamps, n + 1).error is None,
    ensures
        ({
            let before = import_progress(records, sources, stamps, n);
            let after = import_progress(records, sources, stamps, n + 1);
            let known = has_account(
                before.records,
                facts_of(sources[n as int].auth)->Ok_0.account_id,
            );
            let later = sources[n as int].updated_at > stamps[n as int].1;
            &&& after.imported == before.imported + if known {
                0int
            } else {
                1int
            }
            &&& after.updated == before.updated + if known && !later {
                1int
            } else {
                0int
            }
        }),
{
    law_importing_keeps_accounts_distinct(records, sources, stamps, n);
    let before = import_progress(records, sources, stamps, n);
    law_enrolling_keeps_accounts_distinct(
        before.records,
        enrollment_of(sources[n as int]),
        stamps[n as int].0,
        stamps[n as int].1,
    );
}

/// What an import hands back is what became of the pool: the counts where every entry was taken,
/// and else the reason why one was not.
pub proof fn law_import_hands_back_what_it_did(
    before: AccountsStore,
    after: AccountsStore,
    r: Result<ImportStats, AuthError>,
    source: AccountsStore,
    stamps: Seq<(Seq<char>, i64)>,
    k: int,
)
    requires
        is_imported(before, after, r, source, stamps),
        distinct_accounts(records_of(before.accounts@)),
        0 <= k < source.accounts@.len(),
    ensures
        after.version == before.version,
        distinct_accounts(records_of(after.accounts@)),
        r is Ok ==> facts_of(value_tree(source.accounts@[k].auth_json)) is Ok && has_account(
            records_of(after.accounts@),
            facts_of(value_tree(source.accounts@[k].auth_json))->Ok_0.account_id,
        ),
        r is Ok ==> after.accounts@.len() == before.accounts@.len() + r->Ok_0.imported,
        r is Ok ==> r->Ok_0.imported + r->Ok_0.updated <= source.accounts@.len(),
        facts_of(value_tree(source.accounts@[k].auth_json)) is Err && (forall|j: int|
            0 <= j < k ==> facts_of(
                value_tree((#[trigger] source.accounts@[j]).auth_json),
            ) is Ok) ==> r is Err && r->Err_0 == facts_of(
            value_tree(source.accounts@[k].auth_json),
        )->Err_0,
{
    let records = records_of(before.accounts@);
    let sources = records_of(source.accounts@);
    let n = source.accounts@.len();
    law_importing_keeps_accounts_distinct(records, sources, stamps, n);
    assert(sources[k] == source.accounts@[k]@);
    assert(records_of(after.accounts@).len() == after.accounts@.len());
    if r is Ok {
        law_importing_brings_every_account(records, sources, stamps, n, k);
    }
    if facts_of(sources[k].auth) is Err && (forall|j: int|
        0 <= j < k ==> facts_of(value_tree((#[trigger] source.accounts@[j]).auth_json)) is Ok) {
        assert forall|j: int| 0 <= j < k implies facts_of((#[trigger] sources[j]).auth) is Ok by {
            assert(sources[j] == source.accounts@[j]@);
            assert(facts_of(value_tree(source.accounts@[j].auth_json)) is Ok);
        }
        law_import_ends_at_the_first_bad_document(records, sources, stamps, n, k);
    }
}

} // verus!
