//! Adding an account by a login: the document in use is set aside, the login is
//! watched until a new document shows, its account is enrolled, and the document that
//! was in use is put back, whatever happened.
//!
//! The work with files, the command and the service is done outside. A login says
//! what is to be done next, and is told what came of it.

use crate::auth::{account_of, auth_has_changed, extract_auth, facts_of};
use crate::json;
use crate::json::{tree_view, value_tree};
use crate::models::{CurrentAuthStatus, StoredAccount, UsageSnapshot};
use crate::text;
use crate::text::text_view;
use crate::usage::{kept_error, normalize_usage_error_message};
use serde_json::Value;
use vstd::prelude::*;

verus! {

/// How often the document in use is looked at after a login.
pub const MAX_POLLS: u32 = 600;

/// Where a login stands.
#[derive(Debug)]
pub enum LoginStage {
    LoggingIn,
    Looking,
    Reading,
    Sleeping,
    Fetching { auth_json: Value },
    Saving,
    Restoring { outcome: Result<StoredAccount, String> },
    Over,
}

/// A login: the label and the account that are wanted, the document that was in use before
/// it, if any, and its fingerprint, how often a new one is still looked for, and the last
/// fingerprint seen.
#[derive(Debug)]
pub struct LoginFlow {
    pub label: Option<String>,
    pub expected_account_id: Option<String>,
    pub backup: Option<Value>,
    pub baseline: Option<String>,
    pub polls_left: u32,
    pub last_seen: Option<String>,
    pub stage: LoginStage,
}

/// What is to be done next.
#[derive(Debug)]
pub enum LoginAction {
    /// Run `codex login`.
    RunLogin,
    /// Look at the status of the document in use.
    ReadStatus,
    /// Read the document in use.
    ReadAuth,
    /// Wait for a second.
    Sleep,
    /// Ask for the usage of an account.
    FetchUsage { access_token: String, account_id: String },
    /// Enroll the account of a document, and save the pool.
    Save {
        auth_json: Value,
        label: Option<String>,
        usage: Option<UsageSnapshot>,
        usage_error: Option<String>,
    },
    /// Put the document back that was in use, or, where there was none, remove the one that
    /// is.
    Restore { document: Option<Value> },
    /// Nothing: the login is over.
    Finish(Result<StoredAccount, String>),
}

/// How `codex login` ended.
#[derive(Debug)]
pub enum LoginExit {
    /// It could not be run: why.
    NotRun(String),
    Exited { success: bool, status: String },
}

/// Whether where a login stands and an action go together: what is put back is what was set
/// aside, and a login is over only after that.
pub open spec fn in_step(flow: LoginFlow, action: LoginAction) -> bool {
    match (flow.stage, action) {
        (LoginStage::LoggingIn, LoginAction::RunLogin) => true,
        (LoginStage::Looking, LoginAction::ReadStatus) => true,
        (LoginStage::Reading, LoginAction::ReadAuth) => true,
        (LoginStage::Sleeping, LoginAction::Sleep) => true,
        (
            LoginStage::Fetching { auth_json },
            LoginAction::FetchUsage { access_token, account_id },
        ) => match facts_of(value_tree(auth_json)) {
            Ok(facts) => access_token@ == facts.access_token && account_id@ == facts.account_id,
            Err(_) => false,
        },
        (LoginStage::Saving, LoginAction::Save { auth_json, label, usage, usage_error }) => true,
        (LoginStage::Restoring { outcome }, LoginAction::Restore { document }) => tree_view(
            document,
        ) == tree_view(flow.backup),
        (LoginStage::Over, LoginAction::Finish(_)) => true,
        _ => false,
    }
}

/// Whether a login has failed with a message, and puts the document back.
pub open spec fn has_failed(stage: LoginStage, message: Seq<char>) -> bool {
    match stage {
        LoginStage::Restoring { outcome: Err(error) } => error@ == message,
        _ => false,
    }
}

/// Whether an account is the one that is wanted.
pub open spec fn is_wanted(account_id: Seq<char>, expected: Option<Seq<char>>) -> bool {
    match expected {
        Some(expected) => account_id == expected,
        None => true,
    }
}

/// The error of a login to another account.
pub open spec fn mismatch_message(actual: Seq<char>, expected: Seq<char>) -> Seq<char> {
    "reauth returned account "@ + actual + " instead of expected "@ + expected
}

/// An optional text as Rust's `Debug` writes it.
pub uninterp spec fn debug_text(value: Option<Seq<char>>) -> Seq<char>;

/// Formats an optional text by its `Debug`. The characters are left to the name
/// [`debug_text`].
#[verifier::external_body]
fn debug_form(value: &Option<String>) -> (r: String)
    ensures
        r@ == debug_text(text_view(*value)),
{
    format!("{:?}", value)
}

/// The error of a login after which no new document showed, given the last fingerprint
/// as it is shown.
pub open spec fn timeout_message(last_seen: Seq<char>) -> Seq<char> {
    "timed out waiting for auth.json to change after login (last fingerprint: "@ + last_seen + ")"@
}

/// The error of a login after which no new document showed.
pub fn timeout_text(last_seen: &str) -> (r: String)
    ensures
        r@ == timeout_message(last_seen@),
{
    let mut out =
        "timed out waiting for auth.json to change after login (last fingerprint: ".to_owned();
    out.append(last_seen);
    out.append(")");
    out
}

/// What a login comes to, given what came of it and of putting the document back.
pub open spec fn is_outcome(
    r: Result<StoredAccount, String>,
    login: Result<StoredAccount, String>,
    restored: Result<(), String>,
) -> bool {
    match (login, restored) {
        (Ok(account), Ok(_)) => r == Ok::<StoredAccount, String>(account),
        (Err(error), Ok(_)) => r == Err::<StoredAccount, String>(error),
        (Ok(_), Err(error)) => r == Err::<StoredAccount, String>(error),
        (Err(error), Err(restore_error)) => match r {
            Err(message) => message@ == error@ + "; restore failed: "@ + restore_error@,
            Ok(_) => false,
        },
    }
}

/// What a login comes to, given what came of it and of putting the document back.
pub fn combine_outcomes(login: Result<StoredAccount, String>, restored: Result<(), String>) -> (r:
    Result<StoredAccount, String>)
    ensures
        is_outcome(r, login, restored),
{
    match (login, restored) {
        (Ok(account), Ok(_)) => Ok(account),
        (Err(error), Ok(_)) => Err(error),
        (Ok(_), Err(error)) => Err(error),
        (Err(error), Err(restore_error)) => {
            let mut message = error;
            message.append("; restore failed: ");
            message.append(restore_error.as_str());
            Err(message)
        },
    }
}

/// What comes from outside during a login.
pub enum LoginEvent {
    Exited(LoginExit),
    Looked(Result<CurrentAuthStatus, String>),
    Read(Result<Option<Value>, String>),
    Slept,
    Fetched(Result<UsageSnapshot, String>),
    Saved(Result<StoredAccount, String>),
    Restored(Result<(), String>),
}

/// Whether an event is what a login waits for.
pub open spec fn is_awaited(stage: LoginStage, event: LoginEvent) -> bool {
    match event {
        LoginEvent::Exited(_) => stage is LoggingIn,
        LoginEvent::Looked(_) => stage is Looking,
        LoginEvent::Read(_) => stage is Reading,
        LoginEvent::Slept => stage is Sleeping,
        LoginEvent::Fetched(_) => stage is Fetching,
        LoginEvent::Saved(_) => stage is Saving,
        LoginEvent::Restored(_) => stage is Restoring,
    }
}

/// Whether a login looked at the document in use, and saw its status.
pub open spec fn seen_status(event: LoginEvent) -> Option<CurrentAuthStatus> {
    match event {
        LoginEvent::Looked(Ok(status)) => Some(status),
        _ => None,
    }
}

/// Whether a login stands where an event leads it, and says what is to be done there. An
/// error leads to putting the document back, and so does an account that is not wanted. A
/// look that shows nothing new leads to another one, as long as one is left.
pub open spec fn leads_to(
    before: LoginFlow,
    event: LoginEvent,
    after: LoginFlow,
    action: LoginAction,
) -> bool {
    match event {
        LoginEvent::Exited(LoginExit::NotRun(error)) => has_failed(after.stage, error@),
        LoginEvent::Exited(LoginExit::Exited { success, status }) => if success {
            after.stage is Looking
        } else {
            has_failed(after.stage, "`codex login` exited with status "@ + status@)
        },
        LoginEvent::Looked(Err(error)) => has_failed(after.stage, error@),
        LoginEvent::Looked(Ok(status)) => if status.available && text_view(status.fingerprint)
            != text_view(before.baseline) {
            after.stage is Reading
        } else {
            after.stage is Sleeping
        },
        LoginEvent::Read(Err(error)) => has_failed(after.stage, error@),
        LoginEvent::Read(Ok(None)) => after.stage is Sleeping,
        LoginEvent::Read(Ok(Some(auth_json))) => match facts_of(value_tree(auth_json)) {
            Err(error) => has_failed(after.stage, error.message()),
            Ok(facts) => if is_wanted(facts.account_id, text_view(before.expected_account_id)) {
                after.stage == (LoginStage::Fetching { auth_json })
            } else {
                has_failed(
                    after.stage,
                    mismatch_message(facts.account_id, before.expected_account_id->0@),
                )
            },
        },
        LoginEvent::Slept => if before.polls_left > 0 {
            after.stage is Looking
        } else {
            has_failed(after.stage, timeout_message(debug_text(text_view(before.last_seen))))
        },
        LoginEvent::Fetched(fetched) => after.stage is Saving && (match (before.stage, action) {
            (
                LoginStage::Fetching { auth_json: read },
                LoginAction::Save { auth_json, label, usage, usage_error },
            ) => {
                &&& auth_json == read
                &&& text_view(label) == text_view(before.label)
                &&& match fetched {
                    Ok(snapshot) => usage == Some(snapshot) && usage_error is None,
                    Err(error) => usage is None && text_view(usage_error) == Some(
                        kept_error(error@),
                    ),
                }
            },
            _ => false,
        }),
        LoginEvent::Saved(saved) => after.stage == (LoginStage::Restoring { outcome: saved }),
        LoginEvent::Restored(restored) => match (before.stage, action) {
            (LoginStage::Restoring { outcome }, LoginAction::Finish(finished)) => is_outcome(
                finished,
                outcome,
                restored,
            ),
            _ => false,
        },
    }
}

/// Whether a login that waits for an event takes it in, and says what is to be done next.
pub open spec fn is_step(
    before: LoginFlow,
    event: LoginEvent,
    after: LoginFlow,
    action: LoginAction,
) -> bool {
    &&& before.wf()
    &&& is_awaited(before.stage, event)
    &&& after.wf()
    &&& after.same_terms(before)
    &&& in_step(after, action)
    &&& match seen_status(event) {
        Some(status) => after.polls_left == before.polls_left - 1 && after.last_seen
            == status.fingerprint,
        None => after.polls_left == before.polls_left && after.last_seen == before.last_seen,
    }
    &&& leads_to(before, event, after, action)
}

impl LoginFlow {
    /// Whether what was fixed at the start of a login is unchanged.
    pub open spec fn same_terms(self, other: LoginFlow) -> bool {
        &&& self.label == other.label
        &&& self.expected_account_id == other.expected_account_id
        &&& self.backup == other.backup
        &&& self.baseline == other.baseline
    }

    /// Whether a look is left where one is called for, and only the wanted account is on
    /// its way into the pool.
    pub open spec fn wf(self) -> bool {
        &&& self.polls_left <= MAX_POLLS
        &&& (self.stage is LoggingIn || self.stage is Looking) ==> self.polls_left > 0
        &&& match self.stage {
            LoginStage::Fetching { auth_json } => match account_of(value_tree(auth_json)) {
                Some(account_id) => is_wanted(account_id, text_view(self.expected_account_id)),
                None => false,
            },
            _ => true,
        }
    }

    /// A login at its start.
    pub fn new(
        label: Option<String>,
        expected_account_id: Option<String>,
        backup: Option<Value>,
        baseline: Option<String>,
    ) -> (r: (LoginFlow, LoginAction))
        ensures
            r.0.wf(),
            in_step(r.0, r.1),
            r.0.stage is LoggingIn,
            r.0.label == label,
            r.0.expected_account_id == expected_account_id,
            r.0.backup == backup,
            r.0.baseline == baseline,
            r.0.polls_left == MAX_POLLS,
            r.0.last_seen is None,
    {
        (
            LoginFlow {
                label,
                expected_account_id,
                backup,
                baseline,
                polls_left: MAX_POLLS,
                last_seen: None,
                stage: LoginStage::LoggingIn,
            },
            LoginAction::RunLogin,
        )
    }

    /// What is done to put the document back.
    fn restore(&self) -> (r: LoginAction)
        ensures
            match r {
                LoginAction::Restore { document } => tree_view(document) == tree_view(self.backup),
                _ => false,
            },
    {
        let document = match &self.backup {
            Some(document) => Some(json::clone_value(document)),
            None => None,
        };
        LoginAction::Restore { document }
    }

    /// Gives the login up.
    fn fail(&mut self, message: String) -> (r: LoginAction)
        requires
            old(self).wf(),
        ensures
            final(self).wf(),
            final(self).same_terms(*old(self)),
            final(self).polls_left == old(self).polls_left,
            final(self).last_seen == old(self).last_seen,
            in_step(*final(self), r),
            has_failed(final(self).stage, message@),
    {
        self.stage = LoginStage::Restoring { outcome: Err(message) };
        self.restore()
    }

    /// Takes in how `codex login` ended.
    pub fn on_login(&mut self, exit: LoginExit) -> (r: LoginAction)
        requires
            old(self).wf(),
            old(self).stage is LoggingIn,
        ensures
            is_step(*old(self), LoginEvent::Exited(exit), *final(self), r),
    {
        match exit {
            LoginExit::NotRun(error) => self.fail(error),
            LoginExit::Exited { success, status } => {
                if success {
                    self.stage = LoginStage::Looking;
                    return LoginAction::ReadStatus;
                }
                let mut message = "`codex login` exited with status ".to_owned();
                message.append(status.as_str());
                self.fail(message)
            },
        }
    }

    /// Takes in the status of the document in use.
    pub fn on_status(&mut self, status: Result<CurrentAuthStatus, String>) -> (r: LoginAction)
        requires
            old(self).wf(),
            old(self).stage is Looking,
        ensures
            is_step(*old(self), LoginEvent::Looked(status), *final(self), r),
    {
        match status {
            Err(error) => self.fail(error),
            Ok(status) => {
                let changed = auth_has_changed(&status, &self.baseline);
                self.polls_left = self.polls_left - 1;
                self.last_seen = status.fingerprint;
                if changed {
                    self.stage = LoginStage::Reading;
                    LoginAction::ReadAuth
                } else {
                    self.stage = LoginStage::Sleeping;
                    LoginAction::Sleep
                }
            },
        }
    }

    /// Takes in the document in use: its account has to be the one that is wanted.
    pub fn on_auth(&mut self, read: Result<Option<Value>, String>) -> (r: LoginAction)
        requires
            old(self).wf(),
            old(self).stage is Reading,
        ensures
            is_step(*old(self), LoginEvent::Read(read), *final(self), r),
    {
        let auth_json = match read {
            Err(error) => return self.fail(error),
            Ok(None) => {
                self.stage = LoginStage::Sleeping;
                return LoginAction::Sleep;
            },
            Ok(Some(auth_json)) => auth_json,
        };
        let extracted = match extract_auth(&auth_json) {
            Err(error) => {
                let message = error.to_text();
                return self.fail(message);
            },
            Ok(extracted) => extracted,
        };
        if let Some(expected) = &self.expected_account_id {
            if !text::same(extracted.account_id.as_str(), expected.as_str()) {
                let mut message = "reauth returned account ".to_owned();
                message.append(extracted.account_id.as_str());
                message.append(" instead of expected ");
                message.append(expected.as_str());
                return self.fail(message);
            }
        }
        self.stage = LoginStage::Fetching { auth_json };
        LoginAction::FetchUsage {
            access_token: extracted.access_token,
            account_id: extracted.account_id,
        }
    }

    /// Goes on after a second: with another look, as long as one is left.
    pub fn on_slept(&mut self) -> (r: LoginAction)
        requires
            old(self).wf(),
            old(self).stage is Sleeping,
        ensures
            is_step(*old(self), LoginEvent::Slept, *final(self), r),
    {
        if self.polls_left > 0 {
            self.stage = LoginStage::Looking;
            return LoginAction::ReadStatus;
        }
        let last_seen = debug_form(&self.last_seen);
        let message = timeout_text(last_seen.as_str());
        self.fail(message)
    }

    /// Takes in what the request for usage came to: the account is saved either way,
    /// with its usage or with the error.
    pub fn on_fetched(&mut self, fetched: Result<UsageSnapshot, String>) -> (r: LoginAction)
        requires
            old(self).wf(),
            old(self).stage is Fetching,
        ensures
            is_step(*old(self), LoginEvent::Fetched(fetched), *final(self), r),
    {
        let mut stage = LoginStage::Saving;
        std::mem::swap(&mut stage, &mut self.stage);
        let auth_json = match stage {
            LoginStage::Fetching { auth_json } => auth_json,
            _ => {
                return LoginAction::Sleep;
            },
        };
        let (usage, usage_error) = match fetched {
            Ok(snapshot) => (Some(snapshot), None),
            Err(error) => (None, Some(normalize_usage_error_message(error.as_str()))),
        };
        LoginAction::Save { auth_json, label: self.label.clone(), usage, usage_error }
    }

    /// Takes in whether the account was saved.
    pub fn on_saved(&mut self, saved: Result<StoredAccount, String>) -> (r: LoginAction)
        requires
            old(self).wf(),
            old(self).stage is Saving,
        ensures
            is_step(*old(self), LoginEvent::Saved(saved), *final(self), r),
    {
        self.stage = LoginStage::Restoring { outcome: saved };
        self.restore()
    }

    /// Takes in whether the document was put back.
    pub fn on_restored(&mut self, restored: Result<(), String>) -> (r: LoginAction)
        requires
            old(self).wf(),
            old(self).stage is Restoring,
        ensures
            is_step(*old(self), LoginEvent::Restored(restored), *final(self), r),
    {
        let mut stage = LoginStage::Over;
        std::mem::swap(&mut stage, &mut self.stage);
        match stage {
            LoginStage::Restoring { outcome } => LoginAction::Finish(
                combine_outcomes(outcome, restored),
            ),
            _ => LoginAction::Sleep,
        }
    }
}

/// Whether some stations, with the action at each, are those of a login from its start, one
/// event leading from each to the next.
pub open spec fn is_run(
    flows: Seq<LoginFlow>,
    events: Seq<LoginEvent>,
    actions: Seq<LoginAction>,
) -> bool {
    &&& flows.len() == events.len() + 1
    &&& actions.len() == flows.len()
    &&& flows[0].wf()
    &&& flows[0].stage is LoggingIn
    &&& flows[0].polls_left == MAX_POLLS
    &&& in_step(flows[0], actions[0])
    &&& forall|i: int|
        0 <= i < events.len() ==> is_step(
            flows[i],
            #[trigger] events[i],
            flows[i + 1],
            actions[i + 1],
        )
}

/// A login keeps at every station what was fixed at its start.
proof fn lemma_run_keeps_terms(
    flows: Seq<LoginFlow>,
    events: Seq<LoginEvent>,
    actions: Seq<LoginAction>,
    k: int,
)
    requires
        is_run(flows, events, actions),
        0 <= k < flows.len(),
    ensures
        flows[k].wf(),
        flows[k].same_terms(flows[0]),
        in_step(flows[k], actions[k]),
        k > 0 ==> is_step(flows[k - 1], events[k - 1], flows[k], actions[k]),
    decreases k,
{
    if k > 0 {
        lemma_run_keeps_terms(flows, events, actions, k - 1);
        assert(is_step(flows[k - 1], events[k - 1], flows[k], actions[k]));
    }
}

/// Of a whole login: it is over only after the document that was in use at its start was put
/// back, or, where there was none, the new one removed; that is the last thing that it does.
/// Nothing else is ever put back. Only the account that is wanted is asked about and saved,
/// and a login that succeeds has saved it.
pub proof fn law_whole_login_restores_and_keeps_to_the_account(
    flows: Seq<LoginFlow>,
    events: Seq<LoginEvent>,
    actions: Seq<LoginAction>,
    k: int,
)
    requires
        is_run(flows, events, actions),
        0 <= k < actions.len(),
    ensures
        actions[k] is Restore ==> tree_view(actions[k]->Restore_document) == tree_view(
            flows[0].backup,
        ),
        actions[k] is Finish ==> {
            &&& k == events.len()
            &&& k > 0
            &&& actions[k - 1] is Restore
            &&& tree_view(actions[k - 1]->Restore_document) == tree_view(flows[0].backup)
            &&& events[k - 1] is Restored
        },
        actions[k] is Finish && actions[k]->Finish_0 is Ok ==> {
            &&& k > 1
            &&& actions[k - 2] is Save
            &&& events[k - 1]->Restored_0 is Ok
            &&& events[k - 2] == LoginEvent::Saved(actions[k]->Finish_0)
        },
        actions[k] is FetchUsage ==> is_wanted(
            actions[k]->FetchUsage_account_id@,
            text_view(flows[0].expected_account_id),
        ),
        actions[k] is Save ==> (match account_of(value_tree(actions[k]->Save_auth_json)) {
            Some(account_id) => is_wanted(account_id, text_view(flows[0].expected_account_id)),
            None => false,
        }),
{
    lemma_run_keeps_terms(flows, events, actions, k);
    if k > 0 {
        lemma_run_keeps_terms(flows, events, actions, k - 1);
    }
    if actions[k] is Finish {
        if k < events.len() {
            assert(is_step(flows[k], events[k], flows[k + 1], actions[k + 1]));
        }
        if actions[k]->Finish_0 is Ok {
            let before = flows[k - 1];
            assert(before.stage is Restoring);
            assert(before.stage->Restoring_outcome == actions[k]->Finish_0);
            assert(k > 1);
            lemma_run_keeps_terms(flows, events, actions, k - 2);
            assert(events[k - 2] is Saved);
        }
    }
}

/// How often a login looked at the document in use.
pub open spec fn looks(events: Seq<LoginEvent>) -> nat
    decreases events.len(),
{
    if events.len() == 0 {
        0
    } else {
        looks(events.drop_last()) + if events.last() is Looked {
            1nat
        } else {
            0nat
        }
    }
}

/// A login looks for a new document a bounded number of times.
pub proof fn law_login_looks_are_bounded(
    flows: Seq<LoginFlow>,
    events: Seq<LoginEvent>,
    actions: Seq<LoginAction>,
)
    requires
        is_run(flows, events, actions),
    ensures
        looks(events) <= MAX_POLLS,
        !(flows.last().stage is Restoring || flows.last().stage is Over) ==> looks(events)
            + flows.last().polls_left == MAX_POLLS,
    decreases events.len(),
{
    let n = events.len() as int;
    lemma_run_keeps_terms(flows, events, actions, n);
    if n > 0 {
        let rest = events.drop_last();
        assert forall|i: int| 0 <= i < rest.len() implies is_step(
            flows.drop_last()[i],
            #[trigger] rest[i],
            flows.drop_last()[i + 1],
            actions.drop_last()[i + 1],
        ) by {
            assert(is_step(flows[i], events[i], flows[i + 1], actions[i + 1]));
        }
        law_login_looks_are_bounded(flows.drop_last(), rest, actions.drop_last());
        assert(flows.drop_last().last() == flows[n - 1]);
        lemma_run_keeps_terms(flows, events, actions, n - 1);
    }
}

/// What a login saves is the document that it read last, under the label that was wanted, with
/// the usage that was fetched for it or, where none came, with the error.
pub proof fn law_login_saves_what_it_read(
    flows: Seq<LoginFlow>,
    events: Seq<LoginEvent>,
    actions: Seq<LoginAction>,
    k: int,
)
    requires
        is_run(flows, events, actions),
        0 <= k < actions.len(),
        actions[k] is Save,
    ensures
        k >= 2,
        events[k - 2] == LoginEvent::Read(Ok(Some(actions[k]->Save_auth_json))),
        events[k - 1] is Fetched,
        text_view(actions[k]->Save_label) == text_view(flows[0].label),
        events[k - 1]->Fetched_0 is Ok ==> actions[k]->Save_usage == Some(
            events[k - 1]->Fetched_0->Ok_0,
        ) && actions[k]->Save_usage_error is None,
        events[k - 1]->Fetched_0 is Err ==> actions[k]->Save_usage is None
            && actions[k]->Save_usage_error is Some && actions[k]->Save_usage_error->0@
            == kept_error(events[k - 1]->Fetched_0->Err_0@),
        actions[k - 1] is FetchUsage,
        facts_of(value_tree(actions[k]->Save_auth_json)) is Ok,
        actions[k - 1]->FetchUsage_access_token@ == facts_of(
            value_tree(actions[k]->Save_auth_json),
        )->Ok_0.access_token,
        actions[k - 1]->FetchUsage_account_id@ == facts_of(
            value_tree(actions[k]->Save_auth_json),
        )->Ok_0.account_id,
{
    lemma_run_keeps_terms(flows, events, actions, k);
    assert(flows[k].stage is Saving);
    assert(k > 0);
    lemma_run_keeps_terms(flows, events, actions, k - 1);
    assert(flows[k - 1].stage is Fetching);
    assert(k > 1);
    lemma_run_keeps_terms(flows, events, actions, k - 2);
    assert(events[k - 2] is Read);
}

/// How a login goes on. After a login that succeeded it looks at the document; one that shows
/// another fingerprint than the one before is read, and until then it waits and looks again. A
/// document of another account than the one that is wanted is never asked with.
pub proof fn law_login_waits_for_a_new_document(
    before: LoginFlow,
    event: LoginEvent,
    after: LoginFlow,
    action: LoginAction,
    status: CurrentAuthStatus,
    auth_json: Value,
)
    requires
        is_step(before, event, after, action),
    ensures
        event is Exited && event->Exited_0 is Exited && event->Exited_0->success ==> action
            is ReadStatus,
        event is Exited && (event->Exited_0 is NotRun || !event->Exited_0->success) ==> action
            is Restore,
        event == LoginEvent::Looked(Ok(status)) && status.available && text_view(
            status.fingerprint,
        ) != text_view(before.baseline) ==> action is ReadAuth,
        event == LoginEvent::Looked(Ok(status)) && (!status.available || text_view(
            status.fingerprint,
        ) == text_view(before.baseline)) ==> action is Sleep,
        event is Slept && before.polls_left > 0 ==> action is ReadStatus,
        event is Slept && before.polls_left == 0 ==> action is Restore,
        event == LoginEvent::Read(Ok(Some(auth_json))) ==> {
            let facts = facts_of(value_tree(auth_json));
            let wanted = facts is Ok && (before.expected_account_id is None
                || before.expected_account_id->0@ == facts->Ok_0.account_id);
            &&& wanted ==> action is FetchUsage && action->FetchUsage_access_token@
                == facts->Ok_0.access_token && action->FetchUsage_account_id@
                == facts->Ok_0.account_id
            &&& !wanted ==> action is Restore
        },
        event is Fetched ==> action is Save,
        event is Saved ==> action is Restore,
{
}

/// A login that failed says why: by the first error that came, or by what was wrong. Where the
/// document could not be put back either, it says both; and a login that was saved fails where
/// only that went wrong.
pub proof fn law_failed_login_says_why(
    before: LoginFlow,
    event: LoginEvent,
    after: LoginFlow,
    action: LoginAction,
    restored: Result<(), String>,
    finished: Result<StoredAccount, String>,
)
    requires
        is_step(before, event, after, action),
    ensures
        event is Looked && event->Looked_0 is Err ==> after.stage is Restoring
            && after.stage->outcome is Err && after.stage->outcome->Err_0@
            == event->Looked_0->Err_0@,
        event is Read && event->Read_0 is Err ==> after.stage is Restoring && after.stage->outcome
            is Err && after.stage->outcome->Err_0@ == event->Read_0->Err_0@,
        event is Exited && event->Exited_0 is NotRun ==> after.stage is Restoring
            && after.stage->outcome is Err && after.stage->outcome->Err_0@
            == event->Exited_0->NotRun_0@,
        event is Exited && event->Exited_0 is Exited && !event->Exited_0->success ==> after.stage
            is Restoring && after.stage->outcome is Err && after.stage->outcome->Err_0@
            == "`codex login` exited with status "@ + event->Exited_0->status@,
        event is Read && event->Read_0 is Ok && event->Read_0->Ok_0 is Some && facts_of(
            value_tree(event->Read_0->Ok_0->0),
        ) is Ok && before.expected_account_id is Some && before.expected_account_id->0@ != facts_of(
            value_tree(event->Read_0->Ok_0->0),
        )->Ok_0.account_id ==> after.stage is Restoring && after.stage->outcome is Err
            && after.stage->outcome->Err_0@ == "reauth returned account "@ + facts_of(
            value_tree(event->Read_0->Ok_0->0),
        )->Ok_0.account_id + " instead of expected "@ + before.expected_account_id->0@,
        event is Slept && before.polls_left == 0 ==> after.stage is Restoring
            && after.stage->outcome is Err,
        event is Saved ==> after.stage is Restoring && after.stage->outcome == event->Saved_0,
        event == LoginEvent::Restored(restored) && action == LoginAction::Finish(finished) ==> {
            let outcome = before.stage->outcome;
            &&& before.stage is Restoring
            &&& outcome is Ok && restored is Ok ==> finished == outcome
            &&& outcome is Err && restored is Ok ==> finished is Err && finished->Err_0@
                == outcome->Err_0@
            &&& outcome is Ok && restored is Err ==> finished is Err && finished->Err_0@
                == restored->Err_0@
            &&& outcome is Err && restored is Err ==> finished is Err && finished->Err_0@
                == outcome->Err_0@ + "; restore failed: "@ + restored->Err_0@
        },
{
}

/// A login gives up waiting for a new document only after it has looked for one six hundred
/// times.
pub proof fn law_login_does_not_give_up_early(
    flows: Seq<LoginFlow>,
    events: Seq<LoginEvent>,
    actions: Seq<LoginAction>,
)
    requires
        is_run(flows, events, actions),
        events.len() > 0,
        events.last() is Slept,
        actions.last() is Restore,
    ensures
        looks(events) == 600,
{
    let n = events.len() as int;
    let rest = events.drop_last();
    assert forall|i: int| 0 <= i < rest.len() implies is_step(
        flows.drop_last()[i],
        #[trigger] rest[i],
        flows.drop_last()[i + 1],
        actions.drop_last()[i + 1],
    ) by {
        assert(is_step(flows[i], events[i], flows[i + 1], actions[i + 1]));
    }
    law_login_looks_are_bounded(flows.drop_last(), rest, actions.drop_last());
    lemma_run_keeps_terms(flows, events, actions, n);
    assert(flows.drop_last().last() == flows[n - 1]);
    assert(flows[n - 1].stage is Sleeping);
}

} // verus!
