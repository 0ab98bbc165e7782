//! Accounts, their usage and status, and the configuration.

use crate::aliases::ModelAliases;
use crate::json;
use crate::percent::Percent;
use crate::text;
use crate::text::{contains_text, lowered, text_view, trimmed};
use serde_json::Value;
use vstd::prelude::*;

verus! {

// ---------------------------------------------------------------------------
// Accounts
// ---------------------------------------------------------------------------
/// The pool of accounts.
#[derive(Debug, Clone)]
pub struct AccountsStore {
    pub version: u8,
    pub accounts: Vec<StoredAccount>,
}

/// The version of the store's layout.
pub fn default_store_version() -> (r: u8)
    ensures
        r == 1,
{
    1
}

impl Default for AccountsStore {
    fn default() -> (r: AccountsStore)
        ensures
            r.version == 1,
            r.accounts@ == Seq::<StoredAccount>::empty(),
    {
        AccountsStore { version: default_store_version(), accounts: Vec::new() }
    }
}

/// An account of the pool, with its sign-in document and its last known usage.
#[derive(Debug)]
pub struct StoredAccount {
    pub id: String,
    pub label: String,
    pub email: Option<String>,
    pub account_id: String,
    pub plan_type: Option<String>,
    pub auth_json: Value,
    pub added_at: i64,
    pub updated_at: i64,
    pub usage: Option<UsageSnapshot>,
    pub usage_error: Option<String>,
}

impl Clone for StoredAccount {
    fn clone(&self) -> (r: StoredAccount)
        ensures
            r == *self,
    {
        StoredAccount {
            id: self.id.clone(),
            label: self.label.clone(),
            email: self.email.clone(),
            account_id: self.account_id.clone(),
            plan_type: self.plan_type.clone(),
            auth_json: json::clone_value(&self.auth_json),
            added_at: self.added_at,
            updated_at: self.updated_at,
            usage: self.usage.clone(),
            usage_error: self.usage_error.clone(),
        }
    }
}

/// What a usage report said of an account.
#[derive(Debug)]
pub struct UsageSnapshot {
    pub fetched_at: i64,
    pub plan_type: Option<String>,
    pub five_hour: Option<UsageWindow>,
    pub one_week: Option<UsageWindow>,
    pub credits: Option<CreditSnapshot>,
}

impl Clone for UsageSnapshot {
    fn clone(&self) -> (r: UsageSnapshot)
        ensures
            r == *self,
    {
        UsageSnapshot {
            fetched_at: self.fetched_at,
            plan_type: self.plan_type.clone(),
            five_hour: self.five_hour,
            one_week: self.one_week,
            credits: self.credits.clone(),
        }
    }
}

/// What a usage report says.
pub struct UsageModel {
    pub fetched_at: i64,
    pub plan_type: Option<Seq<char>>,
    pub five_hour: Option<UsageWindow>,
    pub one_week: Option<UsageWindow>,
    pub credits: Option<CreditModel>,
}

impl View for UsageSnapshot {
    type V = UsageModel;

    open spec fn view(&self) -> UsageModel {
        UsageModel {
            fetched_at: self.fetched_at,
            plan_type: text_view(self.plan_type),
            five_hour: self.five_hour,
            one_week: self.one_week,
            credits: match self.credits {
                Some(credits) => Some(credits@),
                None => None,
            },
        }
    }
}

/// What an optional usage report says.
pub open spec fn usage_view(usage: Option<UsageSnapshot>) -> Option<UsageModel> {
    match usage {
        Some(usage) => Some(usage@),
        None => None,
    }
}

/// The use of one rate-limit window.
#[derive(Debug, Clone, Copy)]
pub struct UsageWindow {
    pub used_percent: Percent,
    pub window_seconds: i64,
    pub reset_at: Option<i64>,
}

/// The credits of an account.
#[derive(Debug)]
pub struct CreditSnapshot {
    pub has_credits: bool,
    pub unlimited: bool,
    pub balance: Option<String>,
}

impl Clone for CreditSnapshot {
    fn clone(&self) -> (r: CreditSnapshot)
        ensures
            r == *self,
    {
        CreditSnapshot {
            has_credits: self.has_credits,
            unlimited: self.unlimited,
            balance: self.balance.clone(),
        }
    }
}

/// What is said of the credits of an account.
pub struct CreditModel {
    pub has_credits: bool,
    pub unlimited: bool,
    pub balance: Option<Seq<char>>,
}

impl View for CreditSnapshot {
    type V = CreditModel;

    open spec fn view(&self) -> CreditModel {
        CreditModel {
            has_credits: self.has_credits,
            unlimited: self.unlimited,
            balance: text_view(self.balance),
        }
    }
}

/// Whether an account can be used, and if not, why.
#[derive(Debug, Clone, Copy, PartialEq, Eq, Structural)]
pub enum AccountStatus {
    Healthy,
    Expired,
    ReauthRequired,
    WorkspaceRemoved,
    UnknownError,
}

/// An account as it is listed and ranked.
#[derive(Debug)]
pub struct AccountSummary {
    pub id: String,
    pub label: String,
    pub email: Option<String>,
    pub account_id: String,
    pub plan_type: Option<String>,
    pub added_at: i64,
    pub updated_at: i64,
    pub usage: Option<UsageSnapshot>,
    pub usage_error: Option<String>,
    pub is_current: bool,
    pub status: AccountStatus,
}

impl Clone for AccountSummary {
    fn clone(&self) -> (r: AccountSummary)
        ensures
            r == *self,
    {
        AccountSummary {
            id: self.id.clone(),
            label: self.label.clone(),
            email: self.email.clone(),
            account_id: self.account_id.clone(),
            plan_type: self.plan_type.clone(),
            added_at: self.added_at,
            updated_at: self.updated_at,
            usage: self.usage.clone(),
            usage_error: self.usage_error.clone(),
            is_current: self.is_current,
            status: self.status,
        }
    }
}

/// Whether a lowered error says that the account left its workspace.
pub open spec fn says_workspace_removed(error: Seq<char>) -> bool {
    contains_text(error, "deactivated_workspace"@)
}

/// Whether a lowered error from the service says that a token has expired.
pub open spec fn says_token_expired(error: Seq<char>) -> bool {
    ||| contains_text(error, "provided authentication token is expired"@)
    ||| contains_text(error, "your refresh token has already been used"@)
    ||| contains_text(error, "please try signing in again"@)
    ||| contains_text(error, "token is expired"@)
}

/// Whether a lowered error says that the account has to sign in.
pub open spec fn says_sign_in(error: Seq<char>) -> bool {
    ||| contains_text(error, "run codex login first"@)
    ||| contains_text(error, "auth.json 缺少"@)
    ||| contains_text(error, "无法从 auth.json 识别"@)
    ||| contains_text(error, "not using chatgpt sign-in"@)
}

/// Whether a lowered error says that the account left its workspace.
pub fn reports_workspace_removed(error: &str) -> (r: bool)
    ensures
        r == says_workspace_removed(error@),
{
    text::contains(error, "deactivated_workspace")
}

/// Whether a lowered error from the service says that a token has expired.
pub fn reports_token_expired(error: &str) -> (r: bool)
    ensures
        r == says_token_expired(error@),
{
    text::contains(error, "provided authentication token is expired") || text::contains(
        error,
        "your refresh token has already been used",
    ) || text::contains(error, "please try signing in again") || text::contains(
        error,
        "token is expired",
    )
}

/// The status of an account with or without usage, after the error that its
/// last refresh left.
pub open spec fn status_of(has_usage: bool, usage_error: Option<Seq<char>>) -> AccountStatus {
    match usage_error {
        None => if has_usage {
            AccountStatus::Healthy
        } else {
            AccountStatus::UnknownError
        },
        Some(raw) => {
            let error = lowered(raw);
            if says_workspace_removed(error) {
                AccountStatus::WorkspaceRemoved
            } else if says_token_expired(error) || contains_text(error, "authorization expired"@) {
                AccountStatus::Expired
            } else if says_sign_in(error) {
                AccountStatus::ReauthRequired
            } else {
                AccountStatus::UnknownError
            }
        },
    }
}

impl AccountStatus {
    /// The name of the status.
    pub open spec fn name(self) -> Seq<char> {
        match self {
            AccountStatus::Healthy => "healthy"@,
            AccountStatus::Expired => "expired"@,
            AccountStatus::ReauthRequired => "reauth_required"@,
            AccountStatus::WorkspaceRemoved => "workspace_removed"@,
            AccountStatus::UnknownError => "unknown_error"@,
        }
    }

    /// The name of the status.
    pub fn to_text(&self) -> (r: String)
        ensures
            r@ == self.name(),
    {
        let name = match self {
            AccountStatus::Healthy => "healthy",
            AccountStatus::Expired => "expired",
            AccountStatus::ReauthRequired => "reauth_required",
            AccountStatus::WorkspaceRemoved => "workspace_removed",
            AccountStatus::UnknownError => "unknown_error",
        };
        name.to_owned()
    }

    /// Derives the status from the last usage and the last error.
    pub fn classify(usage: Option<&UsageSnapshot>, usage_error: Option<&str>) -> (r: AccountStatus)
        ensures
            r == status_of(usage is Some, text::str_view(usage_error)),
    {
        let raw = match usage_error {
            Some(raw) => raw,
            None => {
                return if usage.is_some() {
                    AccountStatus::Healthy
                } else {
                    AccountStatus::UnknownError
                };
            },
        };
        let error = text::lower(raw);
        if reports_workspace_removed(error.as_str()) {
            return AccountStatus::WorkspaceRemoved;
        }
        if reports_token_expired(error.as_str()) || text::contains(
            error.as_str(),
            "authorization expired",
        ) {
            return AccountStatus::Expired;
        }
        if text::contains(error.as_str(), "run codex login first") || text::contains(
            error.as_str(),
            "auth.json 缺少",
        ) || text::contains(error.as_str(), "无法从 auth.json 识别") || text::contains(
            error.as_str(),
            "not using chatgpt sign-in",
        ) {
            return AccountStatus::ReauthRequired;
        }
        AccountStatus::UnknownError
    }
}

/// Whether a summary is that of an account, seen while `current` is signed in.
pub open spec fn summarizes(
    summary: AccountSummary,
    account: StoredAccount,
    current: Option<Seq<char>>,
) -> bool {
    &&& summary.id == account.id
    &&& summary.label == account.label
    &&& summary.email == account.email
    &&& summary.account_id == account.account_id
    &&& summary.plan_type == account.plan_type
    &&& summary.added_at == account.added_at
    &&& summary.updated_at == account.updated_at
    &&& summary.usage == account.usage
    &&& summary.usage_error == account.usage_error
    &&& summary.is_current == (current == Some(account.account_id@))
    &&& summary.status == status_of(account.usage is Some, text_view(account.usage_error))
}

impl StoredAccount {
    /// The summary of the account, seen while `current_account_id` is signed in.
    pub fn to_summary(&self, current_account_id: Option<&str>) -> (r: AccountSummary)
        ensures
            summarizes(r, *self, text::str_view(current_account_id)),
    {
        let is_current = match current_account_id {
            Some(current) => text::same(current, self.account_id.as_str()),
            None => false,
        };
        let status = match &self.usage_error {
            Some(error) => AccountStatus::classify(self.usage.as_ref(), Some(error.as_str())),
            None => AccountStatus::classify(self.usage.as_ref(), None),
        };
        AccountSummary {
            id: self.id.clone(),
            label: self.label.clone(),
            email: self.email.clone(),
            account_id: self.account_id.clone(),
            plan_type: self.plan_type.clone(),
            added_at: self.added_at,
            updated_at: self.updated_at,
            usage: self.usage.clone(),
            usage_error: self.usage_error.clone(),
            is_current,
            status,
        }
    }
}

/// What is known of the sign-in document in use.
#[derive(Debug, Clone)]
pub struct CurrentAuthStatus {
    pub available: bool,
    pub account_id: Option<String>,
    pub email: Option<String>,
    pub plan_type: Option<String>,
    pub auth_mode: Option<String>,
    pub last_refresh: Option<String>,
    pub file_modified_at: Option<i64>,
    pub fingerprint: Option<String>,
}

/// What a sign-in document says of its account.
#[derive(Debug, Clone)]
pub struct ExtractedAuth {
    pub account_id: String,
    pub access_token: String,
    pub email: Option<String>,
    pub plan_type: Option<String>,
}

/// How many accounts an import added, and how many it brought up to date.
#[derive(Debug, Clone, Copy)]
pub struct ImportStats {
    pub imported: usize,
    pub updated: usize,
}

impl ImportStats {
    /// How many accounts an import touched.
    pub fn total_changed(&self) -> (r: usize)
        requires
            self.imported + self.updated <= usize::MAX,
        ensures
            r == self.imported + self.updated,
    {
        self.imported + self.updated
    }
}

// ---------------------------------------------------------------------------
// Configuration
// ---------------------------------------------------------------------------
/// The configuration of the tool.
#[derive(Debug, Clone)]
pub struct AppConfig {
    pub version: u8,
    pub default_watch_interval_seconds: u64,
    pub proxy: ProxyConfig,
}

/// The seconds between two looks of `watch`.
pub fn default_watch_interval_seconds() -> (r: u64)
    ensures
        r == 60,
{
    60
}

impl Default for AppConfig {
    fn default() -> (r: AppConfig)
        ensures
            r.version == 1,
            r.default_watch_interval_seconds == 60,
            r.proxy@ == default_settings(),
    {
        AppConfig {
            version: default_store_version(),
            default_watch_interval_seconds: default_watch_interval_seconds(),
            proxy: ProxyConfig::default(),
        }
    }
}

/// The configuration of the proxy.
#[derive(Debug, Clone)]
pub struct ProxyConfig {
    pub listen: String,
    pub api_key: String,
    pub default_cwd: String,
    pub default_model: String,
    pub sandbox: String,
    pub approval_policy: String,
    pub usage_refresh_interval_seconds: u64,
    pub max_concurrent_requests: usize,
    pub max_inflight_per_account: usize,
    pub model_aliases: ModelAliases,
}

/// What a proxy configuration says.
pub struct ProxySettings {
    pub listen: Seq<char>,
    pub api_key: Seq<char>,
    pub default_cwd: Seq<char>,
    pub default_model: Seq<char>,
    pub sandbox: Seq<char>,
    pub approval_policy: Seq<char>,
    pub usage_refresh_interval_seconds: nat,
    pub max_concurrent_requests: nat,
    pub max_inflight_per_account: nat,
    pub model_aliases: Map<Seq<char>, Seq<char>>,
}

impl View for ProxyConfig {
    type V = ProxySettings;

    open spec fn view(&self) -> ProxySettings {
        ProxySettings {
            listen: self.listen@,
            api_key: self.api_key@,
            default_cwd: self.default_cwd@,
            default_model: self.default_model@,
            sandbox: self.sandbox@,
            approval_policy: self.approval_policy@,
            usage_refresh_interval_seconds: self.usage_refresh_interval_seconds as nat,
            max_concurrent_requests: self.max_concurrent_requests as nat,
            max_inflight_per_account: self.max_inflight_per_account as nat,
            model_aliases: self.model_aliases@,
        }
    }
}

/// The settings of a proxy that was configured nowhere.
pub open spec fn default_settings() -> ProxySettings {
    ProxySettings {
        listen: "127.0.0.1:4141"@,
        api_key: "codex-pool-local"@,
        default_cwd: "."@,
        default_model: "gpt-5.4"@,
        sandbox: "workspace-write"@,
        approval_policy: "never"@,
        usage_refresh_interval_seconds: 60,
        max_concurrent_requests: 8,
        max_inflight_per_account: 1,
        model_aliases: Map::<Seq<char>, Seq<char>>::empty().insert("codex"@, "gpt-5.4"@),
    }
}

/// A text, or its default where it is blank.
pub open spec fn or_default(value: Seq<char>, default: Seq<char>) -> Seq<char> {
    if trimmed(value).len() == 0 {
        default
    } else {
        value
    }
}

/// A number, or its default where it is zero.
pub open spec fn nonzero_or(value: nat, default: nat) -> nat {
    if value == 0 {
        default
    } else {
        value
    }
}

/// Settings with their gaps filled: a blank text and a zero number by the
/// default, an unset or `.` working directory by `cwd`, a missing alias `codex`
/// by the default model.
pub open spec fn normalized_settings(settings: ProxySettings, cwd: Seq<char>) -> ProxySettings {
    let model = or_default(settings.default_model, default_settings().default_model);
    ProxySettings {
        listen: or_default(settings.listen, default_settings().listen),
        api_key: or_default(settings.api_key, default_settings().api_key),
        default_cwd: if settings.default_cwd == "."@ {
            cwd
        } else {
            or_default(settings.default_cwd, cwd)
        },
        default_model: model,
        sandbox: or_default(settings.sandbox, default_settings().sandbox),
        approval_policy: or_default(settings.approval_policy, default_settings().approval_policy),
        usage_refresh_interval_seconds: nonzero_or(settings.usage_refresh_interval_seconds, 60),
        max_concurrent_requests: nonzero_or(settings.max_concurrent_requests, 8),
        max_inflight_per_account: nonzero_or(settings.max_inflight_per_account, 1),
        model_aliases: if settings.model_aliases.contains_key("codex"@) {
            settings.model_aliases
        } else {
            settings.model_aliases.insert("codex"@, model)
        },
    }
}

/// Filling the gaps of settings once is enough.
pub proof fn law_normalize_is_idempotent(settings: ProxySettings, cwd: Seq<char>)
    ensures
        normalized_settings(normalized_settings(settings, cwd), cwd) == normalized_settings(
            settings,
            cwd,
        ),
{
}

/// Settings whose gaps are filled have an alias `codex` and no number that is
/// zero.
pub proof fn law_normalized_is_complete(settings: ProxySettings, cwd: Seq<char>)
    ensures
        ({
            let filled = normalized_settings(settings, cwd);
            &&& filled.model_aliases.contains_key("codex"@)
            &&& filled.usage_refresh_interval_seconds > 0
            &&& filled.max_concurrent_requests > 0
            &&& filled.max_inflight_per_account > 0
        }),
{
}

/// Settings that leave no gap stay as they are.
pub proof fn law_normalize_keeps_complete_settings(settings: ProxySettings, cwd: Seq<char>)
    requires
        trimmed(settings.listen).len() > 0,
        trimmed(settings.api_key).len() > 0,
        trimmed(settings.default_cwd).len() > 0,
        settings.default_cwd != "."@,
        trimmed(settings.default_model).len() > 0,
        trimmed(settings.sandbox).len() > 0,
        trimmed(settings.approval_policy).len() > 0,
        settings.usage_refresh_interval_seconds > 0,
        settings.max_concurrent_requests > 0,
        settings.max_inflight_per_account > 0,
        settings.model_aliases.contains_key("codex"@),
    ensures
        normalized_settings(settings, cwd) == settings,
{
}

/// The address that the proxy listens on.
pub fn default_proxy_listen() -> (r: String)
    ensures
        r@ == "127.0.0.1:4141"@,
{
    "127.0.0.1:4141".to_owned()
}

/// The key that clients of the proxy present.
pub fn default_proxy_api_key() -> (r: String)
    ensures
        r@ == "codex-pool-local"@,
{
    "codex-pool-local".to_owned()
}

/// The working directory of a turn.
pub fn default_proxy_default_cwd() -> (r: String)
    ensures
        r@ == "."@,
{
    ".".to_owned()
}

/// The model behind the alias `codex`.
pub fn default_proxy_default_model() -> (r: String)
    ensures
        r@ == "gpt-5.4"@,
{
    "gpt-5.4".to_owned()
}

/// The sandbox of a turn.
pub fn default_proxy_sandbox() -> (r: String)
    ensures
        r@ == "workspace-write"@,
{
    "workspace-write".to_owned()
}

/// The approval policy of a turn.
pub fn default_proxy_approval_policy() -> (r: String)
    ensures
        r@ == "never"@,
{
    "never".to_owned()
}

/// The seconds between two refreshes of usage.
pub fn default_proxy_usage_refresh_interval_seconds() -> (r: u64)
    ensures
        r == 60,
{
    60
}

/// How many requests the proxy serves at a time.
pub fn default_proxy_max_concurrent_requests() -> (r: usize)
    ensures
        r == 8,
{
    8
}

/// How many requests one account serves at a time.
pub fn default_proxy_max_inflight_per_account() -> (r: usize)
    ensures
        r == 1,
{
    1
}

impl Default for ProxyConfig {
    fn default() -> (r: ProxyConfig)
        ensures
            r@ == default_settings(),
    {
        let default_model = default_proxy_default_model();
        let mut model_aliases = ModelAliases::new();
        model_aliases.insert("codex".to_owned(), default_model.clone());
        ProxyConfig {
            listen: default_proxy_listen(),
            api_key: default_proxy_api_key(),
            default_cwd: default_proxy_default_cwd(),
            default_model,
            sandbox: default_proxy_sandbox(),
            approval_policy: default_proxy_approval_policy(),
            usage_refresh_interval_seconds: default_proxy_usage_refresh_interval_seconds(),
            max_concurrent_requests: default_proxy_max_concurrent_requests(),
            max_inflight_per_account: default_proxy_max_inflight_per_account(),
            model_aliases,
        }
    }
}

impl ProxyConfig {
    /// Fills the gaps of a configuration; `cwd` is the working directory.
    pub fn normalize(&mut self, cwd: &str)
        ensures
            final(self)@ == normalized_settings(old(self)@, cwd@),
    {
        if text::is_blank(self.default_cwd.as_str()) || text::same(self.default_cwd.as_str(), ".") {
            self.default_cwd = cwd.to_owned();
        }
        if text::is_blank(self.default_model.as_str()) {
            self.default_model = default_proxy_default_model();
        }
        if text::is_blank(self.listen.as_str()) {
            self.listen = default_proxy_listen();
        }
        if text::is_blank(self.api_key.as_str()) {
            self.api_key = default_proxy_api_key();
        }
        if text::is_blank(self.sandbox.as_str()) {
            self.sandbox = default_proxy_sandbox();
        }
        if text::is_blank(self.approval_policy.as_str()) {
            self.approval_policy = default_proxy_approval_policy();
        }
        if self.usage_refresh_interval_seconds == 0 {
            self.usage_refresh_interval_seconds = default_proxy_usage_refresh_interval_seconds();
        }
        if self.max_concurrent_requests == 0 {
            self.max_concurrent_requests = default_proxy_max_concurrent_requests();
        }
        if self.max_inflight_per_account == 0 {
            self.max_inflight_per_account = default_proxy_max_inflight_per_account();
        }
        let model = self.default_model.clone();
        self.model_aliases.insert_if_absent("codex", model.as_str());
    }
}

// ---------------------------------------------------------------------------
// Laws
// ---------------------------------------------------------------------------
/// A summary says of an account what the account says, and whether it is the one that is
/// signed in.
pub proof fn law_summary_says_what_the_account_says(
    summary: AccountSummary,
    account: StoredAccount,
    current: Option<Seq<char>>,
)
    requires
        summarizes(summary, account, current),
    ensures
        summary.id@ == account.id@,
        summary.label@ == account.label@,
        text_view(summary.email) == text_view(account.email),
        summary.account_id@ == account.account_id@,
        text_view(summary.plan_type) == text_view(account.plan_type),
        summary.added_at == account.added_at,
        summary.updated_at == account.updated_at,
        summary.usage is Some <==> account.usage is Some,
        account.usage is Some ==> summary.usage->0.one_week == account.usage->0.one_week
            && summary.usage->0.five_hour == account.usage->0.five_hour
            && summary.usage->0.fetched_at == account.usage->0.fetched_at,
        text_view(summary.usage_error) == text_view(account.usage_error),
        summary.is_current <==> current is Some && current->0 == account.account_id@,
        account.usage is Some && account.usage_error is None ==> summary.status
            == AccountStatus::Healthy,
        account.usage is None && account.usage_error is None ==> summary.status
            == AccountStatus::UnknownError,
        account.usage_error is Some ==> summary.status == status_of(
            account.usage is Some,
            Some(account.usage_error->0@),
        ),
{
}

/// Only an account with usage and without an error is healthy. An error that speaks, in whatever
/// letters, of a deactivated workspace means that the account was removed from it; else one
/// that speaks of an expired token or authorization that it is expired; else one that asks for
/// a login that it has to sign in; and any other is unknown.
pub proof fn law_status_follows_the_error(
    before: Seq<char>,
    shown: Seq<char>,
    after: Seq<char>,
    has_usage: bool,
)
    ensures
        status_of(has_usage, None) == AccountStatus::Healthy <==> has_usage,
        !has_usage ==> status_of(has_usage, None) == AccountStatus::UnknownError,
        status_of(has_usage, Some(before)) != AccountStatus::Healthy,
        ({
            let error = before + shown + after;
            let status = status_of(has_usage, Some(error));
            let removed = contains_text(lowered(error), "deactivated_workspace"@);
            let phrase = lowered(shown);
            let expiry = phrase == "provided authentication token is expired"@ || phrase
                == "your refresh token has already been used"@ || phrase
                == "please try signing in again"@ || phrase == "token is expired"@ || phrase
                == "authorization expired"@;
            let sign_in = phrase == "run codex login first"@ || phrase == "auth.json 缺少"@
                || phrase == "无法从 auth.json 识别"@ || phrase == "not using chatgpt sign-in"@;
            &&& phrase == "deactivated_workspace"@ ==> status == AccountStatus::WorkspaceRemoved
            &&& removed <==> status == AccountStatus::WorkspaceRemoved
            &&& expiry && !removed ==> status == AccountStatus::Expired
            &&& sign_in ==> status == AccountStatus::WorkspaceRemoved || status
                == AccountStatus::Expired || status == AccountStatus::ReauthRequired
            &&& status == AccountStatus::Expired ==> contains_text(
                lowered(error),
                "token is expired"@,
            ) || contains_text(lowered(error), "provided authentication token is expired"@)
                || contains_text(lowered(error), "your refresh token has already been used"@)
                || contains_text(lowered(error), "please try signing in again"@) || contains_text(
                lowered(error),
                "authorization expired"@,
            )
            &&& status == AccountStatus::ReauthRequired ==> contains_text(
                lowered(error),
                "run codex login first"@,
            ) || contains_text(lowered(error), "auth.json 缺少"@) || contains_text(
                lowered(error),
                "无法从 auth.json 识别"@,
            ) || contains_text(lowered(error), "not using chatgpt sign-in"@)
        }),
{
    text::law_phrase_in_any_letters(before, shown, after);
}

/// Every status has a name of its own: what it says, in small letters.
pub proof fn law_statuses_have_different_names(a: AccountStatus, b: AccountStatus)
    ensures
        a.name() == b.name() ==> a == b,
        a == AccountStatus::Healthy <==> a.name() == "healthy"@,
        a == AccountStatus::Expired <==> a.name() == "expired"@,
        a == AccountStatus::ReauthRequired <==> a.name() == "reauth_required"@,
        a == AccountStatus::WorkspaceRemoved <==> a.name() == "workspace_removed"@,
        a == AccountStatus::UnknownError <==> a.name() == "unknown_error"@,
{
    reveal_strlit("healthy");
    reveal_strlit("expired");
    reveal_strlit("reauth_required");
    reveal_strlit("workspace_removed");
    reveal_strlit("unknown_error");
    assert("healthy"@.len() == 7 && "healthy"@[0] == 'h');
    assert("expired"@.len() == 7 && "expired"@[0] == 'e');
    assert("reauth_required"@.len() == 15);
    assert("workspace_removed"@.len() == 17);
    assert("unknown_error"@.len() == 13);
}

/// Each gap of some settings is filled by its own default, and what is no gap stays as it is.
pub proof fn law_each_gap_is_filled(settings: ProxySettings, cwd: Seq<char>)
    ensures
        ({
            let filled = normalized_settings(settings, cwd);
            let blank = |text: Seq<char>| trimmed(text).len() == 0;
            &&& filled.listen == if blank(settings.listen) {
                "127.0.0.1:4141"@
            } else {
                settings.listen
            }
            &&& filled.api_key == if blank(settings.api_key) {
                "codex-pool-local"@
            } else {
                settings.api_key
            }
            &&& filled.default_cwd == if blank(settings.default_cwd) || settings.default_cwd
                == "."@ {
                cwd
            } else {
                settings.default_cwd
            }
            &&& filled.default_model == if blank(settings.default_model) {
                "gpt-5.4"@
            } else {
                settings.default_model
            }
            &&& filled.sandbox == if blank(settings.sandbox) {
                "workspace-write"@
            } else {
                settings.sandbox
            }
            &&& filled.approval_policy == if blank(settings.approval_policy) {
                "never"@
            } else {
                settings.approval_policy
            }
            &&& settings.usage_refresh_interval_seconds > 0
                ==> filled.usage_refresh_interval_seconds
                == settings.usage_refresh_interval_seconds
            &&& settings.max_concurrent_requests > 0 ==> filled.max_concurrent_requests
                == settings.max_concurrent_requests
            &&& settings.max_inflight_per_account > 0 ==> filled.max_inflight_per_account
                == settings.max_inflight_per_account
            &&& settings.usage_refresh_interval_seconds == 0
                ==> filled.usage_refresh_interval_seconds == 60
            &&& settings.max_concurrent_requests == 0 ==> filled.max_concurrent_requests == 8
            &&& settings.max_inflight_per_account == 0 ==> filled.max_inflight_per_account == 1
            &&& forall|alias: Seq<char>|
                settings.model_aliases.contains_key(alias)
                    ==> filled.model_aliases.contains_key(alias)
                    && #[trigger] filled.model_aliases[alias] == settings.model_aliases[alias]
            &&& !settings.model_aliases.contains_key("codex"@) ==> filled.model_aliases["codex"@]
                == filled.default_model
        }),
{
}

/// A proxy that was configured nowhere has what the gaps are filled with: filling its gaps sets
/// the working directory and nothing else, and its one alias leads to its model.
pub proof fn law_defaults_are_what_gaps_are_filled_with(cwd: Seq<char>, alias: Seq<char>)
    ensures
        ({
            let settings = default_settings();
            let filled = normalized_settings(settings, cwd);
            &&& filled.listen == settings.listen
            &&& filled.api_key == settings.api_key
            &&& filled.default_cwd == cwd
            &&& filled.default_model == settings.default_model
            &&& filled.sandbox == settings.sandbox
            &&& filled.approval_policy == settings.approval_policy
            &&& filled.usage_refresh_interval_seconds == settings.usage_refresh_interval_seconds
            &&& filled.max_concurrent_requests == settings.max_concurrent_requests
            &&& filled.max_inflight_per_account == settings.max_inflight_per_account
            &&& filled.model_aliases == settings.model_aliases
            &&& settings.model_aliases.contains_key(alias) <==> alias == "codex"@
            &&& settings.model_aliases["codex"@] == settings.default_model
            &&& settings.usage_refresh_interval_seconds == nonzero_or(0, 60)
            &&& settings.listen == normalized_settings(
                (ProxySettings { listen: Seq::empty(), ..settings }),
                cwd,
            ).listen
        }),
{
    reveal_strlit("127.0.0.1:4141");
    reveal_strlit("codex-pool-local");
    reveal_strlit("gpt-5.4");
    reveal_strlit("workspace-write");
    reveal_strlit("never");
    let settings = default_settings();
    text::lemma_nothing_to_trim(settings.listen);
    text::lemma_nothing_to_trim(settings.api_key);
    text::lemma_nothing_to_trim(settings.default_model);
    text::lemma_nothing_to_trim(settings.sandbox);
    text::lemma_nothing_to_trim(settings.approval_policy);
}

/// What a usage report is taken to say is what it says, in every part.
pub proof fn law_report_is_taken_as_it_is(usage: UsageSnapshot)
    ensures
        usage@.fetched_at == usage.fetched_at,
        usage@.five_hour == usage.five_hour,
        usage@.one_week == usage.one_week,
        usage@.plan_type is Some <==> usage.plan_type is Some,
        usage.plan_type is Some ==> usage@.plan_type->0 == usage.plan_type->0@,
        usage@.credits is Some <==> usage.credits is Some,
        usage.credits is Some ==> usage@.credits->0.has_credits == usage.credits->0.has_credits
            && usage@.credits->0.unlimited == usage.credits->0.unlimited && (
        usage@.credits->0.balance is Some <==> usage.credits->0.balance is Some),
        usage.credits is Some && usage.credits->0.balance is Some
            ==> usage@.credits->0.balance->0 == usage.credits->0.balance->0@,
{
}

} // verus!
