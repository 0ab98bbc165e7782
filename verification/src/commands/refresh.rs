//! Refreshing the pool: for each account its usage is fetched, with fresh tokens
//! where the old ones no longer do, and its record is brought up to date.
//!
//! The work with the service is done outside. A refresh says what it needs next, and
//! is told what came of it.

use crate::auth::{
    account_in_use, current_auth_account_id, extract_auth, facts_of, AuthError, AuthFacts,
};
use crate::commands::selection::{
    is_resolve_error, resolution, resolve_account, Resolution, ResolveError,
};
use crate::json;
use crate::json::{tree_view, value_tree, JsonTree};
use crate::models::{AccountsStore, StoredAccount, UsageModel, UsageSnapshot};
use crate::store::{either, records_of, AccountRecord};
use crate::text;
use crate::text::{str_view, text_view};
use crate::usage::{
    fetch_view, kept_error, normalize_usage_error_message, says_unauthorized,
    should_retry_with_token_refresh, wants_token_refresh, FetchModel,
};
use serde_json::Value;
use vstd::prelude::*;

verus! {

// ---------------------------------------------------------------------------
// One account
// ---------------------------------------------------------------------------
/// How far the refresh of an account has come: the document in use, what the last
/// request for usage came to, and what became of its tokens.
#[derive(Debug)]
pub struct AccountRefresh {
    pub auth_json: Value,
    pub fetched: Option<Result<UsageSnapshot, String>>,
    pub tokens_tried: bool,
    pub refresh_error: Option<String>,
}

/// How far the refresh of an account has come.
pub struct RefreshState {
    pub auth: JsonTree,
    pub fetched: Option<FetchModel>,
    pub tokens_tried: bool,
    pub refresh_error: Option<Seq<char>>,
}

impl View for AccountRefresh {
    type V = RefreshState;

    open spec fn view(&self) -> RefreshState {
        RefreshState {
            auth: value_tree(self.auth_json),
            fetched: match self.fetched {
                Some(fetched) => Some(fetch_view(fetched)),
                None => None,
            },
            tokens_tried: self.tokens_tried,
            refresh_error: text_view(self.refresh_error),
        }
    }
}

/// What the refresh of an account needs.
pub enum RefreshNeed {
    Usage { access_token: Seq<char>, account_id: Seq<char> },
    Tokens { auth: JsonTree },
    Nothing,
}

/// What is known of the usage before a request: nothing, or why none can be made.
pub open spec fn unfetched(auth: JsonTree) -> Option<FetchModel> {
    match facts_of(auth) {
        Ok(_) => None,
        Err(error) => Some(Err(error.message())),
    }
}

/// The refresh of an account at its start.
pub open spec fn refresh_begun(auth: JsonTree) -> RefreshState {
    RefreshState { auth, fetched: unfetched(auth), tokens_tried: false, refresh_error: None }
}

/// What the refresh of an account needs: its usage first; then, once, fresh tokens
/// where the usage asks for them.
pub open spec fn refresh_need(state: RefreshState) -> RefreshNeed {
    match state.fetched {
        None => match facts_of(state.auth) {
            Ok(facts) => RefreshNeed::Usage {
                access_token: facts.access_token,
                account_id: facts.account_id,
            },
            Err(_) => RefreshNeed::Nothing,
        },
        Some(fetched) => if !state.tokens_tried && wants_token_refresh(fetched) {
            RefreshNeed::Tokens { auth: state.auth }
        } else {
            RefreshNeed::Nothing
        },
    }
}

/// The refresh of an account after a request for its usage.
pub open spec fn after_fetch(state: RefreshState, fetched: FetchModel) -> RefreshState {
    RefreshState { fetched: Some(fetched), ..state }
}

/// The refresh of an account after its tokens were refreshed, or were not.
pub open spec fn after_tokens(
    state: RefreshState,
    refreshed: Result<JsonTree, Seq<char>>,
) -> RefreshState {
    match refreshed {
        Ok(auth) => RefreshState {
            auth,
            fetched: unfetched(auth),
            tokens_tried: true,
            refresh_error: state.refresh_error,
        },
        Err(error) => RefreshState { tokens_tried: true, refresh_error: Some(error), ..state },
    }
}

/// The error that a record keeps.
pub open spec fn refresh_failure(error: Seq<char>, refresh_error: Option<Seq<char>>) -> Seq<char> {
    match refresh_error {
        Some(refresh_error) => kept_error(
            error + " | token refresh failed: "@ + refresh_error,
        ),
        None => kept_error(error),
    }
}

/// The record of an account with what its document says.
pub open spec fn with_facts(
    record: AccountRecord,
    facts: Result<AuthFacts, AuthError>,
) -> AccountRecord {
    match facts {
        Ok(facts) => AccountRecord {
            email: either(facts.email, record.email),
            plan_type: either(facts.plan_type, record.plan_type),
            ..record
        },
        Err(_) => record,
    }
}

/// The record of an account with what a request for its usage came to.
pub open spec fn with_usage(
    record: AccountRecord,
    fetched: FetchModel,
    refresh_error: Option<Seq<char>>,
) -> AccountRecord {
    match fetched {
        Ok(usage) => {
            let plan_type = either(usage.plan_type, record.plan_type);
            AccountRecord {
                plan_type,
                usage: Some(UsageModel { plan_type, ..usage }),
                usage_error: None,
                ..record
            }
        },
        Err(error) => AccountRecord {
            usage_error: Some(refresh_failure(error, refresh_error)),
            ..record
        },
    }
}

/// The record of an account after its refresh, at a time. It keeps its identifiers,
/// its label and the time at which it was added; what neither its document nor the
/// usage tells stays as it was.
pub open spec fn refreshed_record(
    before: AccountRecord,
    state: RefreshState,
    now: i64,
) -> AccountRecord {
    let told = with_facts(
        AccountRecord { updated_at: now, auth: state.auth, ..before },
        facts_of(state.auth),
    );
    match state.fetched {
        Some(fetched) => with_usage(told, fetched, state.refresh_error),
        None => told,
    }
}

/// What is known of the usage before a request.
fn before_fetch(auth_json: &Value) -> (r: Option<Result<UsageSnapshot, String>>)
    ensures
        (match r {
            Some(fetched) => Some(fetch_view(fetched)),
            None => None,
        }) == unfetched(value_tree(*auth_json)),
{
    match extract_auth(auth_json) {
        Ok(_) => None,
        Err(error) => Some(Err(error.to_text())),
    }
}

/// What is to be done outside.
#[derive(Debug)]
pub enum RefreshAction {
    /// Ask for the usage of an account.
    FetchUsage { access_token: String, account_id: String },
    /// Refresh the tokens of a document.
    RefreshTokens { auth_json: Value },
    /// Nothing: the refresh is over.
    Finish,
}

/// Whether an action is the one that is needed.
pub open spec fn meets(action: RefreshAction, need: RefreshNeed) -> bool {
    match (action, need) {
        (
            RefreshAction::FetchUsage { access_token, account_id },
            RefreshNeed::Usage { access_token: token, account_id: id },
        ) => access_token@ == token && account_id@ == id,
        (RefreshAction::RefreshTokens { auth_json }, RefreshNeed::Tokens { auth }) => value_tree(
            auth_json,
        ) == auth,
        (RefreshAction::Finish, RefreshNeed::Nothing) => true,
        _ => false,
    }
}

impl AccountRefresh {
    /// The refresh of an account at its start, with a document.
    pub fn new(auth_json: Value) -> (r: AccountRefresh)
        ensures
            r@ == refresh_begun(value_tree(auth_json)),
    {
        let fetched = before_fetch(&auth_json);
        AccountRefresh { auth_json, fetched, tokens_tried: false, refresh_error: None }
    }

    /// What the refresh needs.
    pub fn action(&self) -> (r: RefreshAction)
        ensures
            meets(r, refresh_need(self@)),
    {
        match &self.fetched {
            None => match extract_auth(&self.auth_json) {
                Ok(extracted) => RefreshAction::FetchUsage {
                    access_token: extracted.access_token,
                    account_id: extracted.account_id,
                },
                Err(_) => RefreshAction::Finish,
            },
            Some(fetched) => if !self.tokens_tried && should_retry_with_token_refresh(fetched) {
                RefreshAction::RefreshTokens { auth_json: json::clone_value(&self.auth_json) }
            } else {
                RefreshAction::Finish
            },
        }
    }

    /// Takes in what a request for usage came to.
    pub fn on_fetch(&mut self, fetched: Result<UsageSnapshot, String>)
        ensures
            final(self)@ == after_fetch(old(self)@, fetch_view(fetched)),
    {
        self.fetched = Some(fetched);
    }

    /// Takes in the document with fresh tokens, or why there is none.
    pub fn on_tokens(&mut self, refreshed: Result<Value, String>)
        ensures
            final(self)@ == after_tokens(old(self)@, document_view(refreshed)),
    {
        match refreshed {
            Ok(auth_json) => {
                self.fetched = before_fetch(&auth_json);
                self.auth_json = auth_json;
            },
            Err(error) => {
                self.refresh_error = Some(error);
            },
        }
        self.tokens_tried = true;
    }

    /// Brings the record of the account up to date, at a time.
    pub fn apply(self, account: &mut StoredAccount, now: i64)
        ensures
            final(account)@ == refreshed_record(old(account)@, self@, now),
    {
        let extracted = extract_auth(&self.auth_json);
        account.updated_at = now;
        account.auth_json = self.auth_json;
        if let Ok(extracted) = extracted {
            if extracted.email.is_some() {
                account.email = extracted.email;
            }
            if extracted.plan_type.is_some() {
                account.plan_type = extracted.plan_type;
            }
        }
        match self.fetched {
            Some(Ok(snapshot)) => {
                let mut snapshot = snapshot;
                if snapshot.plan_type.is_none() {
                    snapshot.plan_type = account.plan_type.clone();
                }
                account.plan_type = snapshot.plan_type.clone();
                account.usage = Some(snapshot);
                account.usage_error = None;
            },
            Some(Err(error)) => {
                let kept = match &self.refresh_error {
                    Some(refresh_error) => {
                        let mut raw = error;
                        raw.append(" | token refresh failed: ");
                        raw.append(refresh_error.as_str());
                        normalize_usage_error_message(raw.as_str())
                    },
                    None => normalize_usage_error_message(error.as_str()),
                };
                account.usage_error = Some(kept);
            },
            None => {},
        }
    }
}

/// A document, or why there is none.
pub open spec fn document_view(refreshed: Result<Value, String>) -> Result<JsonTree, Seq<char>> {
    match refreshed {
        Ok(auth_json) => Ok(value_tree(auth_json)),
        Err(error) => Err(error@),
    }
}

/// Tokens are refreshed at most once: after that, a refresh needs the usage or
/// nothing.
pub proof fn law_tokens_are_refreshed_once(
    state: RefreshState,
    refreshed: Result<JsonTree, Seq<char>>,
    fetched: FetchModel,
)
    ensures
        !(refresh_need(after_tokens(state, refreshed)) is Tokens),
        refreshed is Err && state.fetched is Some ==> refresh_need(
            after_tokens(state, refreshed),
        ) is Nothing,
        refresh_need(after_fetch(after_tokens(state, refreshed), fetched)) is Nothing,
{
}

/// A refresh keeps whose record it is: its identifiers, its label and the time at
/// which it was added. A failed one keeps the last known usage too.
pub proof fn law_refresh_keeps_identity(before: AccountRecord, state: RefreshState, now: i64)
    ensures
        ({
            let after = refreshed_record(before, state, now);
            &&& after.id == before.id
            &&& after.account_id == before.account_id
            &&& after.label == before.label
            &&& after.added_at == before.added_at
            &&& after.updated_at == now
            &&& after.auth == state.auth
            &&& (state.fetched is Some && state.fetched->0 is Err) ==> after.usage == before.usage
                && after.usage_error is Some
            &&& (state.fetched is Some && state.fetched->0 is Ok) ==> after.usage is Some
                && after.usage_error is None
        }),
{
}

// ---------------------------------------------------------------------------
// The pool
// ---------------------------------------------------------------------------
/// The refresh of a pool: the pool, the account that is meant where not all are, the
/// document in use, and the account whose turn it is.
#[derive(Debug)]
pub struct StoreRefresh {
    store: AccountsStore,
    target_id: Option<String>,
    live_auth: Option<Value>,
    next: usize,
    current: Option<AccountRefresh>,
}

/// How far the refresh of a pool has come.
pub struct RunState {
    pub version: u8,
    pub records: Seq<AccountRecord>,
    pub target: Option<Seq<char>>,
    pub live: Option<JsonTree>,
    pub next: int,
    pub current: Option<RefreshState>,
}

impl View for StoreRefresh {
    type V = RunState;

    closed spec fn view(&self) -> RunState {
        RunState {
            version: self.store.version,
            records: records_of(self.store.accounts@),
            target: text_view(self.target_id),
            live: tree_view(self.live_auth),
            next: self.next as int,
            current: match self.current {
                Some(current) => Some(current@),
                None => None,
            },
        }
    }
}

/// Whether an account is meant.
pub open spec fn is_target(record: AccountRecord, target: Option<Seq<char>>) -> bool {
    match target {
        Some(target) => target == record.account_id,
        None => true,
    }
}

/// The document with which an account is refreshed: the one in use where it is of
/// that account, else its own.
pub open spec fn document_for(record: AccountRecord, live: Option<JsonTree>) -> JsonTree {
    if account_in_use(live) == Some(record.account_id) {
        live->0
    } else {
        record.auth
    }
}

/// The refresh of a pool, taken on at a time until it needs something from outside or
/// is over: accounts that are not meant are passed over, and those that need nothing
/// more are brought up to date.
pub open spec fn settled(state: RunState, now: i64) -> RunState
    decreases state.records.len() - state.next, if state.current is None {
        1int
    } else {
        0int
    },
{
    if !(0 <= state.next < state.records.len()) {
        state
    } else {
        let record = state.records[state.next];
        match state.current {
            None => if is_target(record, state.target) {
                let current = refresh_begun(document_for(record, state.live));
                settled(RunState { current: Some(current), ..state }, now)
            } else {
                settled(RunState { next: state.next + 1, ..state }, now)
            },
            Some(current) => if refresh_need(current) is Nothing {
                settled(
                    RunState {
                        records: state.records.update(
                            state.next,
                            refreshed_record(record, current, now),
                        ),
                        next: state.next + 1,
                        current: None,
                        ..state
                    },
                    now,
                )
            } else {
                state
            },
        }
    }
}

/// What the refresh of a pool needs.
pub open spec fn run_need(state: RunState) -> RefreshNeed {
    match state.current {
        Some(current) => refresh_need(current),
        None => RefreshNeed::Nothing,
    }
}

/// Whether the refresh of a pool is in order: an account has its turn only while one
/// is left.
pub open spec fn in_order(state: RunState) -> bool {
    &&& 0 <= state.next <= state.records.len()
    &&& state.current is Some ==> state.next < state.records.len() && is_target(
        state.records[state.next],
        state.target,
    )
}

/// Whether the refresh of a pool waits for something from outside, or is over.
pub open spec fn is_settled(state: RunState) -> bool {
    if state.next < state.records.len() {
        state.current is Some && !(refresh_need(state.current->0) is Nothing)
    } else {
        state.current is None
    }
}

/// What a settled refresh is, and what it leaves as it was.
pub proof fn lemma_settled(state: RunState, now: i64)
    requires
        in_order(state),
    ensures
        in_order(settled(state, now)),
        is_settled(settled(state, now)),
        settled(state, now).version == state.version,
        settled(state, now).target == state.target,
        settled(state, now).live == state.live,
        settled(state, now).records.len() == state.records.len(),
        settled(state, now).next >= state.next,
        forall|i: int|
            0 <= i < state.records.len() ==> same_identity(
                #[trigger] settled(state, now).records[i],
                state.records[i],
            ),
        forall|i: int|
            0 <= i < state.records.len() && (i < state.next || !is_target(
                state.records[i],
                state.target,
            ) || i >= settled(state, now).next) ==> #[trigger] settled(state, now).records[i]
                == state.records[i],
    decreases
            state.records.len() - state.next,
            if state.current is None {
                1int
            } else {
                0int
            },
{
    if state.next < state.records.len() {
        let record = state.records[state.next];
        match state.current {
            None => if is_target(record, state.target) {
                let current = refresh_begun(document_for(record, state.live));
                lemma_settled(RunState { current: Some(current), ..state }, now);
            } else {
                lemma_settled(RunState { next: state.next + 1, ..state }, now);
            },
            Some(current) => if refresh_need(current) is Nothing {
                let after = RunState {
                    records: state.records.update(
                        state.next,
                        refreshed_record(record, current, now),
                    ),
                    next: state.next + 1,
                    current: None,
                    ..state
                };
                lemma_settled(after, now);
                law_refresh_keeps_identity(record, current, now);
                let end = settled(after, now);
                assert forall|i: int| 0 <= i < state.records.len() implies same_identity(
                    #[trigger] end.records[i],
                    state.records[i],
                ) by {
                    assert(same_identity(end.records[i], after.records[i]));
                }
                assert forall|i: int|
                    0 <= i < state.records.len() && (i < state.next || !is_target(
                        state.records[i],
                        state.target,
                    ) || i >= end.next) implies #[trigger] end.records[i] == state.records[i] by {
                    assert(after.records[i] == state.records[i]);
                }
            },
        }
    }
}

/// Whether two records are of the same account, under the same name.
pub open spec fn same_identity(a: AccountRecord, b: AccountRecord) -> bool {
    &&& a.id == b.id
    &&& a.account_id == b.account_id
    &&& a.label == b.label
    &&& a.added_at == b.added_at
}

/// The refresh of a pool before anything is known.
pub open spec fn run_begun(
    version: u8,
    records: Seq<AccountRecord>,
    target: Option<Seq<char>>,
    live: Option<JsonTree>,
) -> RunState {
    RunState { version, records, target, live, next: 0, current: None }
}

/// The refresh of a pool after its current account changed.
pub open spec fn run_after(state: RunState, current: RefreshState, now: i64) -> RunState {
    settled(RunState { current: Some(current), ..state }, now)
}

/// The account that a reference means, where there is a reference.
pub open spec fn target_of(records: Seq<AccountRecord>, reference: Option<Seq<char>>) -> Option<
    Seq<char>,
> {
    match reference {
        Some(reference) => match resolution(records, reference) {
            Resolution::Found(place) => Some(records[place].account_id),
            _ => None,
        },
        None => None,
    }
}

impl StoreRefresh {
    /// Whether the refresh is in order.
    pub open spec fn wf(self) -> bool {
        in_order(self@)
    }

    /// Begins the refresh of a pool, at a time: of the account that a reference means,
    /// or of all. `live_auth` is the document in use.
    pub fn begin(
        store: AccountsStore,
        live_auth: Option<Value>,
        target_ref: Option<&str>,
        now: i64,
    ) -> (r: Result<StoreRefresh, ResolveError>)
        ensures
            match r {
                Ok(run) => {
                    let records = records_of(store.accounts@);
                    let reference = str_view(target_ref);
                    &&& run.wf()
                    &&& reference is Some ==> resolution(records, reference->0) is Found
                    &&& run@ == settled(
                        run_begun(
                            store.version,
                            records,
                            target_of(records, reference),
                            tree_view(live_auth),
                        ),
                        now,
                    )
                },
                Err(error) => target_ref is Some && is_resolve_error(
                    error,
                    records_of(store.accounts@),
                    target_ref->0@,
                ),
            },
    {
        let target_id = match target_ref {
            Some(reference) => match resolve_account(&store, reference) {
                Ok(account) => Some(account.account_id.clone()),
                Err(error) => return Err(error),
            },
            None => None,
        };
        let mut run = StoreRefresh { store, target_id, live_auth, next: 0, current: None };
        run.settle(now);
        Ok(run)
    }

    /// Takes the refresh on until it needs something from outside or is over.
    fn settle(&mut self, now: i64)
        requires
            old(self).wf(),
        ensures
            final(self).wf(),
            final(self)@ == settled(old(self)@, now),
    {
        let ghost begun = self@;
        proof {
            lemma_settled(begun, now);
        }
        let total: usize = self.store.accounts.len();
        while self.next < total
            invariant
                total == self.store.accounts@.len(),
                self.wf(),
                settled(self@, now) == settled(begun, now),
            ensures
                self.wf(),
                self@ == settled(begun, now),
            decreases
                    total - self.next,
                    if self.current is None {
                        1int
                    } else {
                        0int
                    },
        {
            let ghost before = self@;
            match self.take_current() {
                None => {
                    if self.targets_next() {
                        let auth_json = self.document_of_next();
                        self.current = Some(AccountRefresh::new(auth_json));
                    } else {
                        self.next = self.next + 1;
                    }
                },
                Some(current) => {
                    if let RefreshAction::Finish = current.action() {
                        let mut account = self.store.accounts[self.next].clone();
                        let ghost state = current@;
                        current.apply(&mut account, now);
                        let ghost record = account@;
                        self.store.accounts.set(self.next, account);
                        assert(records_of(self.store.accounts@) =~= before.records.update(
                            before.next,
                            record,
                        ));
                        self.next = self.next + 1;
                    } else {
                        self.current = Some(current);
                        break;
                    }
                },
            }
        }
    }

    /// Takes the current account out.
    fn take_current(&mut self) -> (r: Option<AccountRefresh>)
        ensures
            r == old(self).current,
            final(self).current is None,
            final(self).store == old(self).store,
            final(self).target_id == old(self).target_id,
            final(self).live_auth == old(self).live_auth,
            final(self).next == old(self).next,
    {
        let mut out: Option<AccountRefresh> = None;
        std::mem::swap(&mut out, &mut self.current);
        out
    }

    /// Whether the account whose turn it is is meant.
    fn targets_next(&self) -> (r: bool)
        requires
            self.next < self.store.accounts@.len(),
        ensures
            r == is_target(self@.records[self@.next], self@.target),
    {
        match &self.target_id {
            Some(target) => text::same(
                target.as_str(),
                self.store.accounts[self.next].account_id.as_str(),
            ),
            None => true,
        }
    }

    /// The document with which the account whose turn it is is refreshed.
    fn document_of_next(&self) -> (r: Value)
        requires
            self.next < self.store.accounts@.len(),
        ensures
            value_tree(r) == document_for(self@.records[self@.next], self@.live),
    {
        let account = &self.store.accounts[self.next];
        if let Some(live_auth) = &self.live_auth {
            if let Some(account_id) = current_auth_account_id(Some(live_auth)) {
                if text::same(account_id.as_str(), account.account_id.as_str()) {
                    return json::clone_value(live_auth);
                }
            }
        }
        json::clone_value(&account.auth_json)
    }

    /// What the refresh needs.
    pub fn action(&self) -> (r: RefreshAction)
        ensures
            meets(r, run_need(self@)),
    {
        match &self.current {
            Some(current) => current.action(),
            None => RefreshAction::Finish,
        }
    }

    /// Takes in, at a time, what the request for usage came to.
    pub fn on_fetch(&mut self, fetched: Result<UsageSnapshot, String>, now: i64)
        requires
            old(self).wf(),
            run_need(old(self)@) is Usage,
        ensures
            final(self).wf(),
            final(self)@ == run_after(
                old(self)@,
                after_fetch(old(self)@.current->0, fetch_view(fetched)),
                now,
            ),
    {
        if let Some(current) = self.take_current() {
            let mut current = current;
            current.on_fetch(fetched);
            self.current = Some(current);
            self.settle(now);
        }
    }

    /// Takes in, at a time, the document with fresh tokens, or why there is none.
    pub fn on_tokens(&mut self, refreshed: Result<Value, String>, now: i64)
        requires
            old(self).wf(),
            run_need(old(self)@) is Tokens,
        ensures
            final(self).wf(),
            final(self)@ == run_after(
                old(self)@,
                after_tokens(old(self)@.current->0, document_view(refreshed)),
                now,
            ),
    {
        if let Some(current) = self.take_current() {
            let mut current = current;
            current.on_tokens(refreshed);
            self.current = Some(current);
            self.settle(now);
        }
    }

    /// The pool as it is now.
    pub fn into_store(self) -> (r: AccountsStore)
        ensures
            r.version == self@.version,
            records_of(r.accounts@) == self@.records,
    {
        self.store
    }
}

/// At every point of a refresh the pool has the same accounts under the same names in
/// the same order, and an account that is not meant is as it was.
pub proof fn law_refresh_keeps_the_pool(state: RunState, current: RefreshState, now: i64)
    requires
        in_order(state),
        state.current is Some,
    ensures
        ({
            let after = run_after(state, current, now);
            &&& in_order(after)
            &&& is_settled(after)
            &&& after.records.len() == state.records.len()
            &&& forall|i: int|
                0 <= i < state.records.len() ==> same_identity(
                    #[trigger] after.records[i],
                    state.records[i],
                )
            &&& forall|i: int|
                0 <= i < state.records.len() && !is_target(state.records[i], state.target)
                    ==> #[trigger] after.records[i] == state.records[i]
        }),
{
    lemma_settled(RunState { current: Some(current), ..state }, now);
}

/// What comes from outside during a refresh.
pub enum RefreshEvent {
    Fetched(FetchModel),
    Tokens(Result<JsonTree, Seq<char>>),
}

/// Whether an event is what a refresh waits for.
pub open spec fn is_awaited(state: RunState, event: RefreshEvent) -> bool {
    match event {
        RefreshEvent::Fetched(_) => run_need(state) is Usage,
        RefreshEvent::Tokens(_) => run_need(state) is Tokens,
    }
}

/// The refresh of a pool after an event, at a time.
pub open spec fn run_on(state: RunState, event: RefreshEvent, now: i64) -> RunState {
    match event {
        RefreshEvent::Fetched(fetched) => run_after(
            state,
            after_fetch(state.current->0, fetched),
            now,
        ),
        RefreshEvent::Tokens(refreshed) => run_after(
            state,
            after_tokens(state.current->0, refreshed),
            now,
        ),
    }
}

/// The refresh of a pool after some events, each at its time.
pub open spec fn run_through(state: RunState, events: Seq<(RefreshEvent, i64)>) -> RunState
    decreases events.len(),
{
    if events.len() == 0 {
        state
    } else {
        let before = run_through(state, events.drop_last());
        run_on(before, events.last().0, events.last().1)
    }
}

/// Whether each of some events is what the refresh waits for when it comes.
pub open spec fn are_awaited(state: RunState, events: Seq<(RefreshEvent, i64)>) -> bool
    decreases events.len(),
{
    events.len() == 0 || (are_awaited(state, events.drop_last()) && is_awaited(
        run_through(state, events.drop_last()),
        events.last().0,
    ))
}

/// Whatever comes from outside, a refresh leaves the pool with the same accounts under the
/// same names in the same order, and an account that is not meant as it was.
pub proof fn law_whole_refresh_keeps_the_pool(
    state: RunState,
    events: Seq<(RefreshEvent, i64)>,
)
    requires
        in_order(state),
        is_settled(state),
        are_awaited(state, events),
    ensures
        ({
            let end = run_through(state, events);
            &&& in_order(end)
            &&& is_settled(end)
            &&& end.version == state.version
            &&& end.target == state.target
            &&& end.records.len() == state.records.len()
            &&& forall|i: int|
                0 <= i < state.records.len() ==> same_identity(
                    #[trigger] end.records[i],
                    state.records[i],
                )
            &&& forall|i: int|
                0 <= i < state.records.len() && !is_target(state.records[i], state.target)
                    ==> #[trigger] end.records[i] == state.records[i]
            &&& forall|i: int|
                0 <= i < state.records.len() && state.target is Some && state.target->0
                    != state.records[i].account_id ==> #[trigger] end.records[i]
                    == state.records[i]
        }),
    decreases events.len(),
{
    if events.len() > 0 {
        law_whole_refresh_keeps_the_pool(state, events.drop_last());
        let before = run_through(state, events.drop_last());
        let (event, now) = events.last();
        let current = match event {
            RefreshEvent::Fetched(fetched) => after_fetch(before.current->0, fetched),
            RefreshEvent::Tokens(refreshed) => after_tokens(before.current->0, refreshed),
        };
        let end = run_through(state, events);
        assert(end == run_after(before, current, now));
        lemma_settled(RunState { current: Some(current), ..before }, now);
        assert forall|i: int| 0 <= i < state.records.len() implies same_identity(
            #[trigger] end.records[i],
            state.records[i],
        ) by {
            assert(same_identity(before.records[i], state.records[i]));
        }
        assert forall|i: int|
            0 <= i < state.records.len() && !is_target(
                state.records[i],
                state.target,
            ) implies #[trigger] end.records[i] == state.records[i] by {
            assert(before.records[i] == state.records[i]);
        }
    }
}

/// How many events a refresh can still take: three for each account that is left, less
/// those that the current one has had.
pub open spec fn events_left(state: RunState) -> int {
    3 * (state.records.len() - state.next) - match state.current {
        None => 0int,
        Some(current) => if current.tokens_tried {
            2
        } else if current.fetched is Some {
            1
        } else {
            0
        },
    }
}

/// Every event brings a refresh nearer to its end, which it reaches after no more than
/// three for each account.
pub proof fn law_refresh_ends(state: RunState, event: RefreshEvent, now: i64)
    requires
        in_order(state),
        is_settled(state),
        is_awaited(state, event),
    ensures
        0 <= events_left(run_on(state, event, now)) < events_left(state),
        events_left(state) <= 3 * state.records.len(),
{
    let before = state.current->0;
    let current = match event {
        RefreshEvent::Fetched(fetched) => after_fetch(before, fetched),
        RefreshEvent::Tokens(refreshed) => after_tokens(before, refreshed),
    };
    let middle = RunState { current: Some(current), ..state };
    lemma_settled(middle, now);
    let end = settled(middle, now);
    if refresh_need(current) is Nothing {
        let next = RunState {
            records: state.records.update(
                state.next,
                refreshed_record(state.records[state.next], current, now),
            ),
            next: state.next + 1,
            current: None,
            ..state
        };
        law_refresh_keeps_identity(state.records[state.next], current, now);
        lemma_settled(next, now);
        assert(end == settled(next, now));
    } else {
        assert(end == middle);
    }
}

// ---------------------------------------------------------------------------
// What a refresh is for
// ---------------------------------------------------------------------------
/// What was fetched last is what the record has after a refresh, in every part, whatever
/// usage it had before. Where the report names no plan, the plan is the one that the document
/// names, or else the one that the record had.
pub proof fn law_refresh_stores_what_was_fetched(
    before: AccountRecord,
    state: RefreshState,
    fetched: UsageModel,
    now: i64,
)
    requires
        state.fetched == Some(Ok::<UsageModel, Seq<char>>(fetched)),
    ensures
        ({
            let after = refreshed_record(before, state, now);
            let facts = facts_of(state.auth);
            &&& after.usage is Some
            &&& after.usage->0.fetched_at == fetched.fetched_at
            &&& after.usage->0.five_hour == fetched.five_hour
            &&& after.usage->0.one_week == fetched.one_week
            &&& after.usage->0.credits == fetched.credits
            &&& after.usage->0.plan_type == after.plan_type
            &&& after.usage_error is None
            &&& fetched.plan_type is Some ==> after.plan_type == fetched.plan_type
            &&& fetched.plan_type is None && facts is Ok && facts->Ok_0.plan_type is Some
                ==> after.plan_type == facts->Ok_0.plan_type
            &&& fetched.plan_type is None && (facts is Err || facts->Ok_0.plan_type is None)
                ==> after.plan_type == before.plan_type
        }),
{
}

/// A refresh without a report keeps the usage that the record had, and says why none came:
/// with the error of the request and, where the tokens could not be refreshed, with that too.
pub proof fn law_failed_refresh_says_why(
    before: AccountRecord,
    state: RefreshState,
    error: Seq<char>,
    now: i64,
)
    requires
        state.fetched == Some(Err::<UsageModel, Seq<char>>(error)),
    ensures
        ({
            let after = refreshed_record(before, state, now);
            let facts = facts_of(state.auth);
            &&& after.usage == before.usage
            &&& state.refresh_error is None ==> after.usage_error == Some(kept_error(error))
            &&& state.refresh_error is Some ==> after.usage_error == Some(
                kept_error(error + " | token refresh failed: "@ + state.refresh_error->0),
            )
            &&& facts is Ok && facts->Ok_0.plan_type is Some ==> after.plan_type
                == facts->Ok_0.plan_type
            &&& facts is Err || facts->Ok_0.plan_type is None ==> after.plan_type
                == before.plan_type
        }),
{
}

/// After a refresh the record has the document with which it was done, the address that this
/// names, or else the one that it had, and the time; whose record it is does not change.
pub proof fn law_refreshed_record_has_the_document(
    before: AccountRecord,
    state: RefreshState,
    now: i64,
)
    ensures
        ({
            let after = refreshed_record(before, state, now);
            let facts = facts_of(state.auth);
            &&& after.auth == state.auth
            &&& after.updated_at == now
            &&& after.id == before.id
            &&& after.label == before.label
            &&& after.account_id == before.account_id
            &&& after.added_at == before.added_at
            &&& facts is Ok && facts->Ok_0.email is Some ==> after.email == facts->Ok_0.email
            &&& facts is Err || facts->Ok_0.email is None ==> after.email == before.email
        }),
{
}

/// An account is refreshed with the document in use where that is of this account, and with
/// its own document otherwise.
pub proof fn law_own_document_or_the_one_in_use(record: AccountRecord, live: Option<JsonTree>)
    ensures
        live is None ==> document_for(record, live) == record.auth,
        live is Some && facts_of(live->0) is Err ==> document_for(record, live) == record.auth,
        live is Some && facts_of(live->0) is Ok && facts_of(live->0)->Ok_0.account_id
            == record.account_id ==> document_for(record, live) == live->0,
        live is Some && facts_of(live->0) is Ok && facts_of(live->0)->Ok_0.account_id
            != record.account_id ==> document_for(record, live) == record.auth,
{
}

/// A refresh begins by asking for the usage with the token and the account that the document
/// names; a document that names none is never asked with, and its error is what is kept.
pub proof fn law_refresh_asks_with_its_document(before: AccountRecord, auth: JsonTree, now: i64)
    ensures
        facts_of(auth) is Ok ==> refresh_need(refresh_begun(auth)) == (RefreshNeed::Usage {
            access_token: facts_of(auth)->Ok_0.access_token,
            account_id: facts_of(auth)->Ok_0.account_id,
        }),
        facts_of(auth) is Err ==> {
            let after = refreshed_record(before, refresh_begun(auth), now);
            &&& after.usage == before.usage
            &&& after.usage_error == Some(kept_error(facts_of(auth)->Err_0.message()))
            &&& !(refresh_need(refresh_begun(auth)) is Usage)
        },
{
}

/// What the request of a running refresh comes to. A report that names a plan is stored in
/// the record of the account at once. A report without one, or a failure for want of
/// authority, leads to a refresh of the tokens of the document, unless that was tried; any
/// other failure is kept in the record.
pub proof fn law_fetched_usage_reaches_the_pool(state: RunState, fetched: FetchModel, now: i64)
    requires
        in_order(state),
        run_need(state) is Usage,
    ensures
        ({
            let end = run_on(state, RefreshEvent::Fetched(fetched), now);
            let current = state.current->0;
            let before = state.records[state.next];
            let after = end.records[state.next];
            let again = match fetched {
                Ok(usage) => usage.plan_type is None,
                Err(error) => says_unauthorized(error),
            };
            &&& again && !current.tokens_tried ==> run_need(end) == (RefreshNeed::Tokens {
                auth: current.auth,
            }) && end.records == state.records
            &&& !again || current.tokens_tried ==> end.next > state.next && after.updated_at == now
                && after.auth == current.auth
            &&& fetched is Ok && fetched->Ok_0.plan_type is Some ==> after.usage == Some(
                fetched->Ok_0,
            ) && after.usage_error is None && after.plan_type == fetched->Ok_0.plan_type
            &&& fetched is Err && (!again || current.tokens_tried) ==> after.usage == before.usage
                && after.usage_error is Some
            &&& fetched is Err && !again && current.refresh_error is None ==> after.usage_error
                == Some(kept_error(fetched->Err_0))
        }),
{
    let current = after_fetch(state.current->0, fetched);
    let middle = RunState { current: Some(current), ..state };
    if refresh_need(current) is Nothing {
        let record = refreshed_record(state.records[state.next], current, now);
        let next = RunState {
            records: state.records.update(state.next, record),
            next: state.next + 1,
            current: None,
            ..state
        };
        assert(settled(middle, now) == settled(next, now));
        lemma_settled(next, now);
        assert(next.records[state.next] == record);
        assert(settled(next, now).records[state.next] == record);
    } else {
        assert(settled(middle, now) == middle);
    }
}

/// Fresh tokens lead to another request, with the token of the new document. Where there are
/// none, the account is done with: a report without a plan is stored as it is, and a failure
/// is kept together with why the tokens could not be refreshed.
pub proof fn law_fresh_tokens_are_used(
    state: RunState,
    refreshed: Result<JsonTree, Seq<char>>,
    now: i64,
)
    requires
        in_order(state),
        run_need(state) is Tokens,
    ensures
        ({
            let end = run_on(state, RefreshEvent::Tokens(refreshed), now);
            let current = state.current->0;
            let before = state.records[state.next];
            let after = end.records[state.next];
            &&& refreshed is Ok && facts_of(refreshed->Ok_0) is Ok ==> {
                let facts = facts_of(refreshed->Ok_0)->Ok_0;
                &&& run_need(end) == (RefreshNeed::Usage {
                    access_token: facts.access_token,
                    account_id: facts.account_id,
                })
                &&& end.next == state.next
                &&& end.current is Some
                &&& end.current->0.auth == refreshed->Ok_0
                &&& end.current->0.tokens_tried
            }
            &&& refreshed is Err ==> {
                &&& end.next > state.next
                &&& after.auth == current.auth
                &&& after.updated_at == now
                &&& current.fetched->0 is Ok ==> after.usage is Some
                    && after.usage->0.fetched_at == current.fetched->0->Ok_0.fetched_at
                    && after.usage->0.five_hour == current.fetched->0->Ok_0.five_hour
                    && after.usage->0.one_week == current.fetched->0->Ok_0.one_week
                    && after.usage->0.credits == current.fetched->0->Ok_0.credits
                    && after.usage_error is None
                &&& current.fetched->0 is Err ==> after.usage == before.usage && after.usage_error
                    == Some(
                    kept_error(
                        current.fetched->0->Err_0 + " | token refresh failed: "@
                            + refreshed->Err_0,
                    ),
                )
            }
        }),
{
    let current = after_tokens(state.current->0, refreshed);
    let middle = RunState { current: Some(current), ..state };
    if refresh_need(current) is Nothing {
        let record = refreshed_record(state.records[state.next], current, now);
        let next = RunState {
            records: state.records.update(state.next, record),
            next: state.next + 1,
            current: None,
            ..state
        };
        assert(settled(middle, now) == settled(next, now));
        lemma_settled(next, now);
        assert(next.records[state.next] == record);
        assert(settled(next, now).records[state.next] == record);
    } else {
        assert(settled(middle, now) == middle);
    }
}

/// The accounts that a refresh passes while it settles are brought up to date then, as far as
/// they are meant.
proof fn lemma_settling_refreshes(state: RunState, now: i64)
    requires
        in_order(state),
    ensures
        forall|i: int|
            state.next <= i < settled(state, now).next && is_target(
                state.records[i],
                state.target,
            ) ==> (#[trigger] settled(state, now).records[i]).updated_at == now,
    decreases
            state.records.len() - state.next,
            if state.current is None {
                1int
            } else {
                0int
            },
{
    if state.next < state.records.len() {
        let record = state.records[state.next];
        match state.current {
            None => if is_target(record, state.target) {
                let current = refresh_begun(document_for(record, state.live));
                lemma_settling_refreshes(RunState { current: Some(current), ..state }, now);
            } else {
                lemma_settling_refreshes(RunState { next: state.next + 1, ..state }, now);
            },
            Some(current) => if refresh_need(current) is Nothing {
                let after = RunState {
                    records: state.records.update(
                        state.next,
                        refreshed_record(record, current, now),
                    ),
                    next: state.next + 1,
                    current: None,
                    ..state
                };
                lemma_settled(after, now);
                lemma_settling_refreshes(after, now);
                let end = settled(after, now);
                assert(settled(state, now) == end);
                assert forall|i: int|
                    state.next <= i < end.next && is_target(
                        state.records[i],
                        state.target,
                    ) implies (#[trigger] end.records[i]).updated_at == now by {
                    if i == state.next {
                        assert(after.records[i].updated_at == now);
                    } else {
                        assert(after.records[i] == state.records[i]);
                    }
                }
            },
        }
    }
}

/// A refresh of all accounts that has come to its end has brought every record up to date: at
/// its beginning, or at one of the events. One of a single account has done so with that one.
pub proof fn law_whole_refresh_reaches_every_account(
    begun: RunState,
    start: i64,
    events: Seq<(RefreshEvent, i64)>,
    i: int,
)
    requires
        begun.next == 0,
        begun.current is None,
        are_awaited(settled(begun, start), events),
        0 <= i < run_through(settled(begun, start), events).next,
        begun.target is None || begun.target->0 == begun.records[i].account_id,
    ensures
        ({
            let after = run_through(settled(begun, start), events).records[i];
            after.updated_at == start || exists|k: int|
                0 <= k < events.len() && (#[trigger] events[k]).1 == after.updated_at
        }),
    decreases events.len(),
{
    lemma_settled(begun, start);
    lemma_settling_refreshes(begun, start);
    let first = settled(begun, start);
    if events.len() > 0 {
        let rest = events.drop_last();
        law_whole_refresh_keeps_the_pool(first, rest);
        let before = run_through(first, rest);
        let (event, now) = events.last();
        let current = match event {
            RefreshEvent::Fetched(fetched) => after_fetch(before.current->0, fetched),
            RefreshEvent::Tokens(refreshed) => after_tokens(before.current->0, refreshed),
        };
        let middle = RunState { current: Some(current), ..before };
        let end = run_through(first, events);
        assert(end == settled(middle, now));
        lemma_settled(middle, now);
        lemma_settling_refreshes(middle, now);
        assert(same_identity(before.records[i], first.records[i]));
        assert(same_identity(first.records[i], begun.records[i]));
        if i < before.next {
            law_whole_refresh_reaches_every_account(begun, start, rest, i);
            assert(end.records[i] == before.records[i]);
            if before.records[i].updated_at != start {
                let k = choose|k: int|
                    0 <= k < rest.len() && (#[trigger] rest[k]).1 == before.records[i].updated_at;
                assert(events[k].1 == end.records[i].updated_at);
            }
        } else {
            assert(is_target(middle.records[i], middle.target));
            assert(end.records[i].updated_at == now);
            assert(events[events.len() - 1].1 == end.records[i].updated_at);
        }
    }
}

/// A refresh without a reference means every account; one with a reference means the account
/// that the reference resolves to, and no other.
pub proof fn law_refresh_means_the_referenced_account(
    records: Seq<AccountRecord>,
    reference: Seq<char>,
    place: int,
    record: AccountRecord,
)
    requires
        resolution(records, reference) == Resolution::Found(place),
    ensures
        target_of(records, None) is None,
        is_target(record, target_of(records, None)),
        is_target(record, target_of(records, Some(reference))) <==> record.account_id
            == records[place].account_id,
{
}

/// The record after a refresh has, of a report that was fetched, every part; and the document
/// with which it was done.
pub proof fn law_applied_refresh(
    refresh: AccountRefresh,
    before: StoredAccount,
    after: StoredAccount,
    now: i64,
    snapshot: UsageSnapshot,
)
    requires
        after@ == refreshed_record(before@, refresh@, now),
        refresh.fetched == Some(Ok::<UsageSnapshot, String>(snapshot)),
    ensures
        after.usage is Some,
        after.usage->0.fetched_at == snapshot.fetched_at,
        after.usage->0.five_hour == snapshot.five_hour,
        after.usage->0.one_week == snapshot.one_week,
        after.usage->0.credits is Some <==> snapshot.credits is Some,
        snapshot.credits is Some ==> after.usage->0.credits->0.has_credits
            == snapshot.credits->0.has_credits && after.usage->0.credits->0.unlimited
            == snapshot.credits->0.unlimited && text_view(after.usage->0.credits->0.balance)
            == text_view(snapshot.credits->0.balance),
        snapshot.plan_type is Some ==> after.plan_type is Some && after.plan_type->0@
            == snapshot.plan_type->0@ && after.usage->0.plan_type is Some
            && after.usage->0.plan_type->0@ == snapshot.plan_type->0@,
        after.usage_error is None,
        after.updated_at == now,
        value_tree(after.auth_json) == value_tree(refresh.auth_json),
        after.id@ == before.id@,
        after.label@ == before.label@,
        after.account_id@ == before.account_id@,
        after.added_at == before.added_at,
{
    let told = after@.usage->0;
    assert(after.usage->0@ == told);
    assert(told.credits == snapshot@.credits);
}

/// What is to be done outside is what is needed: the usage of the account with its token, the
/// tokens of the document, or nothing.
pub proof fn law_action_is_what_is_needed(action: RefreshAction, need: RefreshNeed)
    requires
        meets(action, need),
    ensures
        need is Usage ==> action is FetchUsage && action->access_token@ == need->access_token
            && action->account_id@ == need->account_id,
        need is Tokens ==> action is RefreshTokens && value_tree(action->auth_json) == need->auth,
        need is Nothing ==> action is Finish,
{
}

/// The turn of an account begins with its document: the one in use where that is of this
/// account, and else its own. An account of which nothing can be asked is done with at once.
pub proof fn law_turn_begins_with_the_document(state: RunState, now: i64)
    requires
        in_order(state),
        state.current is None,
    ensures
        ({
            let end = settled(state, now);
            &&& end.current is Some ==> end.current->0.auth == document_for(
                state.records[end.next],
                state.live,
            ) && !end.current->0.tokens_tried && end.current->0.refresh_error is None && (facts_of(
                end.current->0.auth,
            ) is Ok ==> end.current->0.fetched is None)
            &&& forall|i: int|
                state.next <= i < end.next && is_target(state.records[i], state.target) ==> {
                    let document = document_for(state.records[i], state.live);
                    &&& facts_of(document) is Err
                    &&& (#[trigger] end.records[i]).auth == document
                    &&& end.records[i].usage == state.records[i].usage
                    &&& end.records[i].usage_error == Some(
                        kept_error(facts_of(document)->Err_0.message()),
                    )
                }
        }),
    decreases state.records.len() - state.next,
{
    if state.next < state.records.len() {
        let record = state.records[state.next];
        if is_target(record, state.target) {
            let document = document_for(record, state.live);
            let current = refresh_begun(document);
            let begun = RunState { current: Some(current), ..state };
            assert(settled(state, now) == settled(begun, now));
            if refresh_need(current) is Nothing {
                let after = RunState {
                    records: state.records.update(
                        state.next,
                        refreshed_record(record, current, now),
                    ),
                    next: state.next + 1,
                    current: None,
                    ..state
                };
                assert(settled(begun, now) == settled(after, now));
                lemma_settled(after, now);
                law_turn_begins_with_the_document(after, now);
                let end = settled(after, now);
                assert(end.records[state.next] == after.records[state.next]);
                if end.current is Some {
                    assert(after.records[end.next] == state.records[end.next]);
                }
                assert forall|i: int|
                    state.next <= i < end.next && is_target(
                        state.records[i],
                        state.target,
                    ) implies ({
                    let document = document_for(state.records[i], state.live);
                    &&& facts_of(document) is Err
                    &&& (#[trigger] end.records[i]).auth == document
                    &&& end.records[i].usage == state.records[i].usage
                    &&& end.records[i].usage_error == Some(
                        kept_error(facts_of(document)->Err_0.message()),
                    )
                }) by {
                    if i > state.next {
                        assert(after.records[i] == state.records[i]);
                    }
                }
            } else {
                assert(settled(begun, now) == begun);
            }
        } else {
            let after = RunState { next: state.next + 1, ..state };
            assert(settled(state, now) == settled(after, now));
            law_turn_begins_with_the_document(after, now);
        }
    }
}

/// What comes from outside is taken in as it came: a failure of the request and a failure to
/// refresh the tokens with their texts, and fresh tokens with their document.
pub proof fn law_events_are_taken_in_as_they_came(
    before: AccountRefresh,
    after: AccountRefresh,
    error: String,
    document: Value,
)
    ensures
        after@ == after_fetch(before@, fetch_view(Err(error))) ==> after.fetched is Some
            && after.fetched->0 is Err && after.fetched->0->Err_0@ == error@ && value_tree(
            after.auth_json,
        ) == value_tree(before.auth_json) && after.tokens_tried == before.tokens_tried,
        after@ == after_tokens(before@, document_view(Err(error))) ==> after.tokens_tried
            && after.refresh_error is Some && after.refresh_error->0@ == error@ && value_tree(
            after.auth_json,
        ) == value_tree(before.auth_json),
        after@ == after_tokens(before@, document_view(Ok(document))) ==> after.tokens_tried
            && value_tree(after.auth_json) == value_tree(document),
{
    if after@ == after_fetch(before@, fetch_view(Err(error))) {
        assert(after@.fetched == Some(Err::<UsageModel, Seq<char>>(error@)));
    }
}

} // verus!
