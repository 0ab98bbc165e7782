//! Usage reports: where they are asked for, how they are read, and what is said
//! when none comes.

use crate::models::{
    reports_token_expired, reports_workspace_removed, says_token_expired, says_workspace_removed,
    status_of, CreditSnapshot, UsageModel, UsageSnapshot, UsageWindow,
};
use crate::percent::Percent;
use crate::text;
use crate::text::{
    begins_with, contains_text, cuts_cleanly, decimal, deduplicated, ends_with, joined,
    lemma_deduplicated, lines_of, lowered, position, stands_at, str_view, text_view, texts,
    trim_back, trim_both, trimmed, CharClass,
};
use crate::utils::{now_unix_seconds, truncate_for_error, truncated};
use vstd::prelude::*;

verus! {

// ---------------------------------------------------------------------------
// Where reports are asked for
// ---------------------------------------------------------------------------
/// The base address that the first line which sets it gives. A line that sets it
/// without an equals sign ends the search; one that sets it to nothing is passed
/// over.
pub open spec fn configured_base(lines: Seq<Seq<char>>) -> Option<Seq<char>>
    decreases lines.len(),
{
    if lines.len() == 0 {
        None
    } else {
        let line = trimmed(lines[0]);
        if !begins_with(line, "chatgpt_base_url"@) {
            configured_base(lines.skip(1))
        } else {
            let equals = position(line, '=', 0);
            if equals == line.len() {
                None
            } else {
                let value = unquoted(line.subrange(equals + 1, line.len() as int));
                if value.len() == 0 {
                    configured_base(lines.skip(1))
                } else {
                    Some(value)
                }
            }
        }
    }
}

/// A value without the white space around it and the quotes around that.
pub open spec fn unquoted(value: Seq<char>) -> Seq<char> {
    trim_both(trim_both(trimmed(value), CharClass::Only('"')), CharClass::Only('\''))
}

/// The base address that a configuration sets.
pub fn read_chatgpt_base_url(config: &str) -> (r: Option<String>)
    ensures
        text_view(r) == configured_base(lines_of(config@)),
{
    let lines = text::lines(config);
    let ghost views = texts(lines@);
    let mut i: usize = 0;
    assert(views.skip(0) =~= views);
    while i < lines.len()
        invariant
            0 <= i <= lines@.len(),
            views == texts(lines@),
            configured_base(lines_of(config@)) == configured_base(views.skip(i as int)),
        decreases lines@.len() - i,
    {
        assert(views.skip(i as int)[0] == lines@[i as int]@);
        assert(views.skip(i as int).skip(1) =~= views.skip(i + 1));
        let line = text::trim(lines[i].as_str());
        if text::starts_with(line.as_str(), "chatgpt_base_url") {
            let chars = text::chars_of(line.as_str());
            let equals: usize = text::find_char(&chars, '=', 0);
            if equals == chars.len() {
                return None;
            }
            let value = text::substring(&chars, equals + 1, chars.len());
            let value = text::trim(value.as_str());
            let value = text::trim_of(value.as_str(), CharClass::Only('"'));
            let value = text::trim_of(value.as_str(), CharClass::Only('\''));
            if !value.as_str().is_empty() {
                return Some(value);
            }
        }
        i = i + 1;
    }
    None
}

/// The base address, without slashes at its end.
pub open spec fn base_origin(config: Option<Seq<char>>) -> Seq<char> {
    let base = match config {
        Some(config) => match configured_base(lines_of(config)) {
            Some(base) => base,
            None => "https://chatgpt.com"@,
        },
        None => "https://chatgpt.com"@,
    };
    trim_back(base, CharClass::Only('/'))
}

/// The base address that a configuration sets, or the usual one.
fn resolve_chatgpt_base_origin(config: Option<&str>) -> (r: String)
    ensures
        r@ == base_origin(str_view(config)),
{
    let configured = match config {
        Some(config) => read_chatgpt_base_url(config),
        None => None,
    };
    match configured {
        Some(base) => text::trim_end_of(base.as_str(), CharClass::Only('/')),
        None => text::trim_end_of("https://chatgpt.com", CharClass::Only('/')),
    }
}

/// The addresses to be tried for a base address, in order, some of them twice.
pub open spec fn candidate_urls(origin: Seq<char>) -> Seq<Seq<char>> {
    let own = if ends_with(origin, "/backend-api"@) {
        let host = origin.take(origin.len() - "/backend-api"@.len());
        seq![
            origin + "/wham/usage"@,
            host + "/backend-api"@ + "/wham/usage"@,
            host + "/api/codex/usage"@,
        ]
    } else {
        seq![
            origin + "/backend-api"@ + "/wham/usage"@,
            origin + "/wham/usage"@,
            origin + "/api/codex/usage"@,
        ]
    };
    own.push("https://chatgpt.com/backend-api/wham/usage"@).push(
        "https://chatgpt.com"@ + "/api/codex/usage"@,
    )
}

/// The addresses to be tried, in order, for what the configuration of the tool
/// holds where there is one.
pub fn resolve_usage_urls(config: Option<&str>) -> (r: Vec<String>)
    ensures
        texts(r@) == deduplicated(candidate_urls(base_origin(str_view(config)))),
{
    let origin = resolve_chatgpt_base_origin(config);
    let mut candidates: Vec<String> = Vec::new();
    match text::before_suffix(origin.as_str(), "/backend-api") {
        Some(host) => {
            let backend = text::glued(host.as_str(), "/backend-api");
            candidates.push(text::glued(origin.as_str(), "/wham/usage"));
            candidates.push(text::glued(backend.as_str(), "/wham/usage"));
            candidates.push(text::glued(host.as_str(), "/api/codex/usage"));
        },
        None => {
            let backend = text::glued(origin.as_str(), "/backend-api");
            candidates.push(text::glued(backend.as_str(), "/wham/usage"));
            candidates.push(text::glued(origin.as_str(), "/wham/usage"));
            candidates.push(text::glued(origin.as_str(), "/api/codex/usage"));
        },
    }
    candidates.push("https://chatgpt.com/backend-api/wham/usage".to_owned());
    candidates.push(text::glued("https://chatgpt.com", "/api/codex/usage"));
    assert(texts(candidates@) =~= candidate_urls(base_origin(str_view(config))));
    text::dedupe(candidates)
}

/// No address is tried twice, the address under the configured base is tried
/// first, and the usual one is tried too.
pub proof fn law_usage_urls(config: Option<Seq<char>>)
    ensures
        ({
            let urls = deduplicated(candidate_urls(base_origin(config)));
            let origin = base_origin(config);
            &&& urls.no_duplicates()
            &&& urls.len() > 0
            &&& ends_with(origin, "/backend-api"@) ==> urls[0] == origin + "/wham/usage"@
            &&& !ends_with(origin, "/backend-api"@) ==> urls[0] == origin + "/backend-api"@
                + "/wham/usage"@
            &&& urls.contains("https://chatgpt.com/backend-api/wham/usage"@)
        }),
{
    let candidates = candidate_urls(base_origin(config));
    lemma_deduplicated(candidates);
    assert(candidates[3] == "https://chatgpt.com/backend-api/wham/usage"@);
    assert(candidates.contains("https://chatgpt.com/backend-api/wham/usage"@));
}

// ---------------------------------------------------------------------------
// Reading a report
// ---------------------------------------------------------------------------
/// A usage report as the service sends it.
#[derive(Debug)]
pub struct UsageApiResponse {
    pub plan_type: Option<String>,
    pub rate_limit: Option<RateLimitDetails>,
    pub additional_rate_limits: Option<Vec<AdditionalRateLimitDetails>>,
    pub credits: Option<CreditDetails>,
}

/// The windows of a rate limit.
#[derive(Debug, Clone, Copy)]
pub struct RateLimitDetails {
    pub primary_window: Option<UsageWindowRaw>,
    pub secondary_window: Option<UsageWindowRaw>,
}

/// A further rate limit.
#[derive(Debug, Clone, Copy)]
pub struct AdditionalRateLimitDetails {
    pub rate_limit: Option<RateLimitDetails>,
}

/// A window as the service sends it.
#[derive(Debug, Clone, Copy)]
pub struct UsageWindowRaw {
    pub used_percent: Percent,
    pub limit_window_seconds: i64,
    pub reset_at: i64,
}

/// Credits as the service sends them.
#[derive(Debug)]
pub struct CreditDetails {
    pub has_credits: bool,
    pub unlimited: bool,
    pub balance: Option<String>,
}

/// The windows of a limit, the primary one first.
pub open spec fn limit_windows(limit: Option<RateLimitDetails>) -> Seq<UsageWindowRaw> {
    match limit {
        Some(limit) => {
            let primary = match limit.primary_window {
                Some(window) => seq![window],
                None => seq![],
            };
            match limit.secondary_window {
                Some(window) => primary.push(window),
                None => primary,
            }
        },
        None => seq![],
    }
}

/// The windows of further limits.
pub open spec fn additional_windows(limits: Seq<AdditionalRateLimitDetails>) -> Seq<UsageWindowRaw>
    decreases limits.len(),
{
    if limits.len() == 0 {
        seq![]
    } else {
        additional_windows(limits.drop_last()) + limit_windows(limits.last().rate_limit)
    }
}

/// All windows of a report, in order.
pub open spec fn report_windows(report: UsageApiResponse) -> Seq<UsageWindowRaw> {
    limit_windows(report.rate_limit) + match report.additional_rate_limits {
        Some(limits) => additional_windows(limits@),
        None => seq![],
    }
}

/// Appends the windows of a limit.
fn push_windows(windows: &mut Vec<UsageWindowRaw>, limit: &Option<RateLimitDetails>)
    ensures
        final(windows)@ == old(windows)@ + limit_windows(*limit),
{
    let ghost before = windows@;
    if let Some(limit) = limit {
        if let Some(window) = limit.primary_window {
            windows.push(window);
        }
        if let Some(window) = limit.secondary_window {
            windows.push(window);
        }
    }
    assert(windows@ =~= before + limit_windows(*limit));
}

/// All windows of a report, in order.
pub fn collect_windows(report: &UsageApiResponse) -> (r: Vec<UsageWindowRaw>)
    ensures
        r@ == report_windows(*report),
{
    let mut windows: Vec<UsageWindowRaw> = Vec::new();
    push_windows(&mut windows, &report.rate_limit);
    assert(windows@ =~= limit_windows(report.rate_limit));
    if let Some(limits) = &report.additional_rate_limits {
        let mut i: usize = 0;
        assert(limits@.take(0) =~= Seq::empty());
        assert(windows@ =~= limit_windows(report.rate_limit) + additional_windows(limits@.take(0)));
        while i < limits.len()
            invariant
                0 <= i <= limits@.len(),
                windows@ == limit_windows(report.rate_limit) + additional_windows(
                    limits@.take(i as int),
                ),
            decreases limits@.len() - i,
        {
            push_windows(&mut windows, &limits[i].rate_limit);
            assert(limits@.take(i + 1).drop_last() =~= limits@.take(i as int));
            assert(windows@ =~= limit_windows(report.rate_limit) + additional_windows(
                limits@.take(i + 1),
            ));
            i = i + 1;
        }
        assert(limits@.take(i as int) =~= limits@);
    }
    assert(windows@ =~= report_windows(*report));
    windows
}

/// How far a window is from a length.
pub open spec fn distance(window: UsageWindowRaw, target: int) -> int {
    let difference = window.limit_window_seconds - target;
    if difference < 0 {
        -difference
    } else {
        difference
    }
}

/// Whether the window at a place is the first of those nearest to a length.
pub open spec fn is_nearest(windows: Seq<UsageWindowRaw>, target: int, i: int) -> bool {
    &&& 0 <= i < windows.len()
    &&& forall|j: int|
        0 <= j < windows.len() ==> distance(windows[i], target) <= #[trigger] distance(
            windows[j],
            target,
        )
    &&& forall|j: int|
        0 <= j < i ==> distance(windows[i], target) < #[trigger] distance(windows[j], target)
}

/// Whether the distance of every window from a length can be computed.
pub open spec fn measurable(windows: Seq<UsageWindowRaw>, target: int) -> bool {
    forall|i: int|
        0 <= i < windows.len() ==> i64::MIN < (#[trigger] windows[i]).limit_window_seconds - target
            <= i64::MAX
}

/// At most one place is that of the first nearest window.
pub proof fn law_nearest_is_unique(windows: Seq<UsageWindowRaw>, target: int, i: int, j: int)
    requires
        is_nearest(windows, target, i),
        is_nearest(windows, target, j),
    ensures
        i == j,
{
    if i < j {
        assert(distance(windows[j], target) < distance(windows[i], target));
    } else if j < i {
        assert(distance(windows[i], target) < distance(windows[j], target));
    }
}

/// The first of the windows that are nearest to a length.
pub fn pick_nearest_window(windows: &Vec<UsageWindowRaw>, target_seconds: i64) -> (r: Option<
    UsageWindowRaw,
>)
    requires
        measurable(windows@, target_seconds as int),
    ensures
        r is None <==> windows@.len() == 0,
        r is Some ==> exists|i: int| #[trigger]
            is_nearest(windows@, target_seconds as int, i) && r == Some(windows@[i]),
{
    if windows.len() == 0 {
        return None;
    }
    let mut best: usize = 0;
    let mut i: usize = 1;
    while i < windows.len()
        invariant
            0 <= best < i <= windows@.len(),
            measurable(windows@, target_seconds as int),
            forall|j: int|
                0 <= j < i ==> distance(windows@[best as int], target_seconds as int)
                    <= #[trigger] distance(windows@[j], target_seconds as int),
            forall|j: int|
                0 <= j < best ==> distance(windows@[best as int], target_seconds as int)
                    < #[trigger] distance(windows@[j], target_seconds as int),
        decreases windows@.len() - i,
    {
        if window_distance(&windows[i], target_seconds) < window_distance(
            &windows[best],
            target_seconds,
        ) {
            best = i;
        }
        i = i + 1;
    }
    assert(is_nearest(windows@, target_seconds as int, best as int));
    Some(windows[best])
}

/// How far a window is from a length.
fn window_distance(window: &UsageWindowRaw, target_seconds: i64) -> (r: i64)
    requires
        i64::MIN < window.limit_window_seconds - target_seconds <= i64::MAX,
    ensures
        r == distance(*window, target_seconds as int),
{
    let difference: i64 = window.limit_window_seconds - target_seconds;
    if difference < 0 {
        -difference
    } else {
        difference
    }
}

/// A window as the pool keeps it.
pub fn to_usage_window(window: UsageWindowRaw) -> (r: UsageWindow)
    ensures
        r == kept_window(window),
{
    UsageWindow {
        used_percent: window.used_percent,
        window_seconds: window.limit_window_seconds,
        reset_at: Some(window.reset_at),
    }
}

/// A window as the pool keeps it.
pub open spec fn kept_window(window: UsageWindowRaw) -> UsageWindow {
    UsageWindow {
        used_percent: window.used_percent,
        window_seconds: window.limit_window_seconds,
        reset_at: Some(window.reset_at),
    }
}

/// The length of the short window in seconds.
pub const FIVE_HOURS: i64 = 18_000;

/// The length of the long window in seconds.
pub const ONE_WEEK: i64 = 604_800;

/// Whether a window is the one of a report that stands for a length.
pub open spec fn stands_for(
    window: Option<UsageWindow>,
    windows: Seq<UsageWindowRaw>,
    target: int,
) -> bool {
    match window {
        None => windows.len() == 0,
        Some(window) => exists|i: int| #[trigger]
            is_nearest(windows, target, i) && window == kept_window(windows[i]),
    }
}

/// Whether a snapshot is what a report says, read at a time.
pub open spec fn is_snapshot_of(
    snapshot: UsageSnapshot,
    report: UsageApiResponse,
    now: i64,
) -> bool {
    &&& snapshot.fetched_at == now
    &&& snapshot.plan_type == report.plan_type
    &&& stands_for(snapshot.five_hour, report_windows(report), FIVE_HOURS as int)
    &&& stands_for(snapshot.one_week, report_windows(report), ONE_WEEK as int)
    &&& match (snapshot.credits, report.credits) {
        (Some(kept), Some(sent)) => kept.has_credits == sent.has_credits && kept.unlimited
            == sent.unlimited && kept.balance == sent.balance,
        (None, None) => true,
        _ => false,
    }
}

/// Whether the windows of a report can be held against both lengths.
pub open spec fn is_readable(report: UsageApiResponse) -> bool {
    measurable(report_windows(report), ONE_WEEK as int) && measurable(
        report_windows(report),
        FIVE_HOURS as int,
    )
}

/// Whether the windows of a report can be held against both lengths.
pub fn is_readable_report(report: &UsageApiResponse) -> (r: bool)
    ensures
        r == is_readable(*report),
{
    let windows = collect_windows(report);
    let mut i: usize = 0;
    while i < windows.len()
        invariant
            0 <= i <= windows@.len(),
            windows@ == report_windows(*report),
            forall|j: int|
                0 <= j < i ==> i64::MIN + ONE_WEEK < (
                #[trigger] windows@[j]).limit_window_seconds,
        decreases windows@.len() - i,
    {
        if windows[i].limit_window_seconds <= i64::MIN + ONE_WEEK {
            assert(!(i64::MIN < report_windows(*report)[i as int].limit_window_seconds - ONE_WEEK));
            return false;
        }
        i = i + 1;
    }
    true
}

/// What a report says, read at a time.
pub fn map_usage_payload_at(payload: UsageApiResponse, now: i64) -> (r: UsageSnapshot)
    requires
        is_readable(payload),
    ensures
        is_snapshot_of(r, payload, now),
{
    let windows = collect_windows(&payload);
    let five_hour = match pick_nearest_window(&windows, FIVE_HOURS) {
        Some(window) => Some(to_usage_window(window)),
        None => None,
    };
    let one_week = match pick_nearest_window(&windows, ONE_WEEK) {
        Some(window) => Some(to_usage_window(window)),
        None => None,
    };
    let credits = match payload.credits {
        Some(credit) => Some(
            CreditSnapshot {
                has_credits: credit.has_credits,
                unlimited: credit.unlimited,
                balance: credit.balance,
            },
        ),
        None => None,
    };
    UsageSnapshot { fetched_at: now, plan_type: payload.plan_type, five_hour, one_week, credits }
}

/// What a report says, read now.
pub fn map_usage_payload(payload: UsageApiResponse) -> (r: UsageSnapshot)
    requires
        is_readable(payload),
    ensures
        is_snapshot_of(r, payload, r.fetched_at),
{
    let now: i64 = now_unix_seconds();
    map_usage_payload_at(payload, now)
}

// ---------------------------------------------------------------------------
// Asking
// ---------------------------------------------------------------------------
/// A request for a report.
#[derive(Debug)]
pub struct UsageRequest {
    pub url: String,
    pub headers: Vec<(String, String)>,
}

/// What came of a request.
#[derive(Debug)]
pub enum UsageReply {
    /// Nothing came back: the error, and what caused it, in order.
    Unreachable(Vec<String>),
    /// A status that is no success, and the text that came with it.
    Refused { status: String, body: String },
    /// A success that could not be read.
    Unreadable,
    /// A report.
    Report(UsageApiResponse),
}

/// What is to be done next.
#[derive(Debug)]
pub enum UsageAction {
    Request(UsageRequest),
    Finish(Result<UsageSnapshot, String>),
}

/// A search for a report: the addresses, how many were tried, and why each failed.
#[derive(Debug)]
pub struct UsageFetch {
    urls: Vec<String>,
    access_token: String,
    account_id: String,
    errors: Vec<String>,
}

/// What a search for a report has come to.
pub struct FetchState {
    pub urls: Seq<Seq<char>>,
    pub access_token: Seq<char>,
    pub account_id: Seq<char>,
    pub errors: Seq<Seq<char>>,
}

impl View for UsageFetch {
    type V = FetchState;

    closed spec fn view(&self) -> FetchState {
        FetchState {
            urls: texts(self.urls@),
            access_token: self.access_token@,
            account_id: self.account_id@,
            errors: texts(self.errors@),
        }
    }
}

/// The error of an address from which nothing came back.
pub open spec fn unreachable_error(url: Seq<char>, causes: Seq<Seq<char>>) -> Seq<char> {
    url + " -> "@ + joined(deduplicated(causes), " -> "@)
}

/// An error and its causes in one line, each text once.
pub fn format_error_chain(causes: Vec<String>) -> (r: String)
    ensures
        r@ == joined(deduplicated(texts(causes@)), " -> "@),
{
    let parts = text::dedupe(causes);
    text::join(&parts, " -> ")
}

/// The error of an address that refused.
pub open spec fn refused_error(url: Seq<char>, status: Seq<char>, body: Seq<char>) -> Seq<char> {
    url + " -> "@ + status + ": "@ + truncated(body, 140)
}

/// What is said when no address gave a report: the first two errors, and how many
/// more there were.
pub open spec fn fetch_failure(errors: Seq<Seq<char>>) -> Seq<char> {
    if errors.len() == 0 {
        "failed to query usage endpoint: no candidate URL succeeded"@
    } else if errors.len() > 2 {
        "failed to query usage endpoint: "@ + joined(errors.take(2), " | "@) + " | and "@ + decimal(
            (errors.len() - 2) as nat,
        ) + " more failures"@
    } else {
        "failed to query usage endpoint: "@ + joined(errors, " | "@)
    }
}

/// What is said when no address gave a report.
pub fn fetch_failure_message(errors: &Vec<String>) -> (r: String)
    ensures
        r@ == fetch_failure(texts(errors@)),
{
    let total: usize = errors.len();
    if total == 0 {
        return "failed to query usage endpoint: no candidate URL succeeded".to_owned();
    }
    let mut out = "failed to query usage endpoint: ".to_owned();
    if total > 2 {
        let mut shown: Vec<String> = Vec::new();
        shown.push(errors[0].clone());
        shown.push(errors[1].clone());
        assert(texts(shown@) =~= texts(errors@).take(2));
        let preview = text::join(&shown, " | ");
        let more = text::decimal_of((total - 2) as u64);
        out.append(preview.as_str());
        out.append(" | and ");
        out.append(more.as_str());
        out.append(" more failures");
    } else {
        let preview = text::join(errors, " | ");
        out.append(preview.as_str());
    }
    out
}

/// Whether a request is the one for an address, made for an account.
pub open spec fn is_request_for(request: UsageRequest, url: Seq<char>, state: FetchState) -> bool {
    &&& request.url@ == url
    &&& request.headers@.len() == 3
    &&& request.headers@[0].0@ == "Authorization"@
    &&& request.headers@[0].1@ == "Bearer "@ + state.access_token
    &&& request.headers@[1].0@ == "ChatGPT-Account-Id"@
    &&& request.headers@[1].1@ == state.account_id
    &&& request.headers@[2].0@ == "Accept"@
    &&& request.headers@[2].1@ == "application/json"@
}

/// Whether an action is the one that a state calls for: the next address, or the
/// end where none is left.
pub open spec fn is_next_action(action: UsageAction, state: FetchState) -> bool {
    match action {
        UsageAction::Request(request) => state.errors.len() < state.urls.len() && is_request_for(
            request,
            state.urls[state.errors.len() as int],
            state,
        ),
        UsageAction::Finish(Err(error)) => state.errors.len() == state.urls.len() && error@
            == fetch_failure(state.errors),
        UsageAction::Finish(Ok(_)) => false,
    }
}

/// A search in which one more address has failed.
pub open spec fn failed_with(state: FetchState, error: Seq<char>) -> FetchState {
    FetchState { errors: state.errors.push(error), ..state }
}

/// Whether what came of a request can be taken in: its text can be cut for an
/// error, its windows can be measured.
pub open spec fn can_take(reply: UsageReply) -> bool {
    match reply {
        UsageReply::Refused { status, body } => cuts_cleanly(body@, 140),
        UsageReply::Report(report) => is_readable(report),
        _ => true,
    }
}

/// The error of an address that failed.
pub open spec fn reply_error(url: Seq<char>, reply: UsageReply) -> Seq<char> {
    match reply {
        UsageReply::Unreachable(causes) => unreachable_error(url, texts(causes@)),
        UsageReply::Refused { status, body } => refused_error(url, status@, body@),
        _ => Seq::empty(),
    }
}

impl UsageFetch {
    /// A search over some addresses for an account.
    pub fn new(urls: Vec<String>, access_token: &str, account_id: &str) -> (r: UsageFetch)
        ensures
            r@.urls == texts(urls@),
            r@.access_token == access_token@,
            r@.account_id == account_id@,
            r@.errors.len() == 0,
    {
        UsageFetch {
            urls,
            access_token: access_token.to_owned(),
            account_id: account_id.to_owned(),
            errors: Vec::new(),
        }
    }

    /// What a search calls for: a request to the next address, or the end.
    pub fn action(&self) -> (r: UsageAction)
        requires
            self@.errors.len() <= self@.urls.len(),
        ensures
            is_next_action(r, self@),
    {
        let tried: usize = self.errors.len();
        if tried == self.urls.len() {
            return UsageAction::Finish(Err(fetch_failure_message(&self.errors)));
        }
        let mut headers: Vec<(String, String)> = Vec::new();
        headers.push(("Authorization".to_owned(), text::glued("Bearer ", self.access_token.as_str())));
        headers.push(("ChatGPT-Account-Id".to_owned(), self.account_id.clone()));
        headers.push(("Accept".to_owned(), "application/json".to_owned()));
        UsageAction::Request(UsageRequest { url: self.urls[tried].clone(), headers })
    }

    /// Takes in what came of the request to the next address, read at a time. A
    /// report ends the search, and so does a success that cannot be read; any other
    /// failure leads to the next address.
    pub fn on_reply(&mut self, reply: UsageReply, now: i64) -> (r: UsageAction)
        requires
            old(self)@.errors.len() < old(self)@.urls.len(),
            can_take(reply),
        ensures
            ({
                let url = old(self)@.urls[old(self)@.errors.len() as int];
                match reply {
                    UsageReply::Report(report) => final(self)@ == old(self)@ && (match r {
                        UsageAction::Finish(Ok(snapshot)) => is_snapshot_of(snapshot, report, now),
                        _ => false,
                    }),
                    UsageReply::Unreadable => final(self)@ == old(self)@ && (match r {
                        UsageAction::Finish(Err(error)) => error@
                            == "failed to parse response from "@ + url,
                        _ => false,
                    }),
                    _ => final(self)@ == failed_with(old(self)@, reply_error(url, reply))
                        && is_next_action(r, final(self)@),
                }
            }),
    {
        let ghost before = self@;
        let place: usize = self.errors.len();
        let url = self.urls[place].clone();
        assert(url@ == before.urls[place as int]);
        let mut line = url.clone();
        match reply {
            UsageReply::Report(report) => {
                return UsageAction::Finish(Ok(map_usage_payload_at(report, now)));
            },
            UsageReply::Unreadable => {
                return UsageAction::Finish(
                    Err(text::glued("failed to parse response from ", url.as_str())),
                );
            },
            UsageReply::Unreachable(causes) => {
                let chain = format_error_chain(causes);
                line.append(" -> ");
                line.append(chain.as_str());
            },
            UsageReply::Refused { status, body } => {
                let excerpt = truncate_for_error(body.as_str(), 140);
                line.append(" -> ");
                line.append(status.as_str());
                line.append(": ");
                line.append(excerpt.as_str());
            },
        }
        let ghost error = line@;
        self.errors.push(line);
        assert(texts(self.errors@) =~= before.errors.push(error));
        assert(self@ == failed_with(before, error));
        self.action()
    }
}

/// A search after some replies, none of which ended it.
pub open spec fn failed_through(state: FetchState, replies: Seq<UsageReply>) -> FetchState
    decreases replies.len(),
{
    if replies.len() == 0 {
        state
    } else {
        let before = failed_through(state, replies.drop_last());
        failed_with(
            before,
            reply_error(before.urls[before.errors.len() as int], replies.last()),
        )
    }
}

/// A search that nothing ended has tried one address for each reply, in order, and keeps
/// why each of them failed.
pub proof fn law_search_keeps_every_failure(state: FetchState, replies: Seq<UsageReply>)
    requires
        state.errors.len() == 0,
    ensures
        ({
            let after = failed_through(state, replies);
            &&& after.urls == state.urls
            &&& after.errors.len() == replies.len()
            &&& forall|i: int|
                0 <= i < replies.len() ==> #[trigger] after.errors[i] == reply_error(
                    state.urls[i],
                    replies[i],
                )
        }),
    decreases replies.len(),
{
    if replies.len() > 0 {
        law_search_keeps_every_failure(state, replies.drop_last());
    }
}

// ---------------------------------------------------------------------------
// Errors
// ---------------------------------------------------------------------------
/// Whether a failure may go away with fresh tokens.
pub open spec fn says_unauthorized(error: Seq<char>) -> bool {
    let lower = lowered(error);
    ||| contains_text(lower, "401"@)
    ||| contains_text(lower, "unauthorized"@)
    ||| contains_text(lower, "invalid_token"@)
    ||| contains_text(lower, "deactivated_workspace"@)
}

/// What a request for usage came to.
pub type FetchModel = Result<UsageModel, Seq<char>>;

/// What a request for usage came to.
pub open spec fn fetch_view(fetched: Result<UsageSnapshot, String>) -> FetchModel {
    match fetched {
        Ok(snapshot) => Ok(snapshot@),
        Err(error) => Err(error@),
    }
}

/// Whether a report is asked for again with fresh tokens: when it names no plan, or
/// when it failed for want of authority.
pub open spec fn wants_token_refresh(fetched: FetchModel) -> bool {
    match fetched {
        Ok(usage) => usage.plan_type is None,
        Err(error) => says_unauthorized(error),
    }
}

/// Whether a report is asked for again with fresh tokens.
pub fn should_retry_with_token_refresh(fetch_result: &Result<UsageSnapshot, String>) -> (r: bool)
    ensures
        r == wants_token_refresh(fetch_view(*fetch_result)),
{
    match fetch_result {
        Ok(snapshot) => snapshot.plan_type.is_none(),
        Err(error) => {
            let lower = text::lower(error.as_str());
            text::contains(lower.as_str(), "401") || text::contains(
                lower.as_str(),
                "unauthorized",
            ) || text::contains(lower.as_str(), "invalid_token") || text::contains(
                lower.as_str(),
                "deactivated_workspace",
            )
        },
    }
}

/// An error as the pool keeps it.
pub open spec fn kept_error(raw: Seq<char>) -> Seq<char> {
    if says_workspace_removed(lowered(raw)) {
        "deactivated_workspace: account was removed from the team workspace"@
    } else if says_token_expired(lowered(raw)) {
        "authorization expired, please re-auth this account"@
    } else {
        raw
    }
}

/// An error as the pool keeps it: the two that the user can act on in plain words,
/// any other as it came.
pub fn normalize_usage_error_message(raw_error: &str) -> (r: String)
    ensures
        r@ == kept_error(raw_error@),
{
    let lower = text::lower(raw_error);
    if reports_workspace_removed(lower.as_str()) {
        return "deactivated_workspace: account was removed from the team workspace".to_owned();
    }
    if reports_token_expired(lower.as_str()) {
        return "authorization expired, please re-auth this account".to_owned();
    }
    raw_error.to_owned()
}

/// What the kept errors say of themselves.
proof fn lemma_kept_errors()
    ensures
        says_workspace_removed(
            lowered("deactivated_workspace: account was removed from the team workspace"@),
        ),
        !says_workspace_removed(lowered("authorization expired, please re-auth this account"@)),
        contains_text(
            lowered("authorization expired, please re-auth this account"@),
            "authorization expired"@,
        ),
{
    reveal_strlit("deactivated_workspace: account was removed from the team workspace");
    reveal_strlit("authorization expired, please re-auth this account");
    reveal_strlit("deactivated_workspace");
    reveal_strlit("authorization expired");
    let removed = lowered("deactivated_workspace: account was removed from the team workspace"@);
    let expired = lowered("authorization expired, please re-auth this account"@);
    assert(removed.subrange(0, 21) =~= "deactivated_workspace"@);
    assert(stands_at(removed, "deactivated_workspace"@, 0));
    assert(expired.subrange(0, 21) =~= "authorization expired"@);
    assert(stands_at(expired, "authorization expired"@, 0));
    assert forall|at: int| !stands_at(expired, "deactivated_workspace"@, at) by {
        if stands_at(expired, "deactivated_workspace"@, at) {
            let part = expired.subrange(at, at + 21);
            assert(part[0] == 'd' && part[1] == 'e');
            assert(expired[at] == 'd' && expired[at + 1] == 'e');
        }
    }
}

/// An error as the pool keeps it says the same of the account's status as the error
/// that came, and keeping it again changes nothing.
pub proof fn law_kept_error_keeps_the_status(raw: Seq<char>, has_usage: bool)
    ensures
        status_of(has_usage, Some(kept_error(raw))) == status_of(has_usage, Some(raw)),
        kept_error(kept_error(raw)) == kept_error(raw),
{
    lemma_kept_errors();
}

// ---------------------------------------------------------------------------
// What a report is asked for and says
// ---------------------------------------------------------------------------
/// The base address is what the first line that sets it has behind its equals sign.
pub proof fn law_first_setting_of_the_base_counts(
    lines: Seq<Seq<char>>,
    k: int,
    between: Seq<char>,
    value: Seq<char>,
)
    requires
        0 <= k < lines.len(),
        forall|j: int|
            0 <= j < k ==> !begins_with(trimmed(#[trigger] lines[j]), "chatgpt_base_url"@),
        trimmed(lines[k]) == "chatgpt_base_url"@ + between + seq!['='] + value,
        forall|i: int| 0 <= i < between.len() ==> between[i] != '=',
        unquoted(value).len() > 0,
    ensures
        configured_base(lines) == Some(unquoted(value)),
    decreases k,
{
    if k > 0 {
        assert(!begins_with(trimmed(lines[0]), "chatgpt_base_url"@));
        let rest = lines.skip(1);
        assert forall|j: int| 0 <= j < k - 1 implies !begins_with(
            trimmed(#[trigger] rest[j]),
            "chatgpt_base_url"@,
        ) by {
            assert(rest[j] == lines[j + 1]);
        }
        law_first_setting_of_the_base_counts(rest, k - 1, between, value);
    } else {
        reveal_strlit("chatgpt_base_url");
        let front = "chatgpt_base_url"@ + between;
        let line = trimmed(lines[0]);
        assert forall|i: int| 0 <= i < front.len() implies front[i] != '=' by {
            if i >= "chatgpt_base_url"@.len() {
                assert(front[i] == between[i - "chatgpt_base_url"@.len()]);
            }
        }
        text::law_first_place(front, '=', value, 0);
        assert(line =~= front + seq!['='] + value);
        assert(line.subrange(front.len() as int + 1, line.len() as int) =~= value);
        text::law_beginnings_and_ends(line, "chatgpt_base_url"@, between + seq!['='] + value);
        assert(line =~= "chatgpt_base_url"@ + (between + seq!['='] + value));
    }
}

/// A value stands between quotes of either kind, or between none, and between blanks.
pub proof fn law_value_between_quotes(value: Seq<char>)
    requires
        value.len() > 0,
        !text::is_white_space(value[0]),
        !text::is_white_space(value.last()),
        value[0] != '"' && value[0] != '\'',
        value.last() != '"' && value.last() != '\'',
    ensures
        unquoted(value) == value,
        unquoted(seq![' '] + value) == value,
        unquoted(seq![' ', '"'] + value + seq!['"']) == value,
        unquoted(seq![' ', '\''] + value + seq!['\'']) == value,
        unquoted(seq!['"'] + value + seq!['"', ' ']) == value,
{
    let none = Seq::<char>::empty();
    let blank = seq![' '];
    let space = CharClass::Space;
    let double = CharClass::Only('"');
    let single = CharClass::Only('\'');
    assert(none + value + none =~= value);
    text::law_trimming_takes_the_edges(none, value, none, space);
    text::law_trimming_takes_the_edges(none, value, none, double);
    text::law_trimming_takes_the_edges(none, value, none, single);
    assert(blank + value + none =~= blank + value);
    text::law_trimming_takes_the_edges(blank, value, none, space);
    let quoted = seq!['"'] + value + seq!['"'];
    text::law_trimming_takes_the_edges(seq!['"'], value, seq!['"'], double);
    text::law_trimming_takes_the_edges(blank, quoted, none, space);
    assert(blank + quoted + none =~= seq![' ', '"'] + value + seq!['"']);
    text::law_trimming_takes_the_edges(none, quoted, blank, space);
    assert(none + quoted + blank =~= seq!['"'] + value + seq!['"', ' ']);
    let other = seq!['\''] + value + seq!['\''];
    text::law_trimming_takes_the_edges(seq!['\''], value, seq!['\''], single);
    text::law_trimming_takes_the_edges(blank, other, none, space);
    assert(blank + other + none =~= seq![' ', '\''] + value + seq!['\'']);
    text::law_trimming_takes_the_edges(none, other, none, double);
    assert(none + other + none =~= other);
}

/// Reports are asked for under the base address that is set, without the slashes at its end, or
/// else under that of the service.
pub proof fn law_where_reports_are_asked_for(config: Seq<char>, base: Seq<char>, slashes: Seq<char>)
    requires
        base.len() > 0,
        base.last() != '/',
        forall|i: int| 0 <= i < slashes.len() ==> slashes[i] == '/',
    ensures
        base_origin(None) == "https://chatgpt.com"@,
        configured_base(lines_of(config)) is None ==> base_origin(Some(config))
            == "https://chatgpt.com"@,
        configured_base(lines_of(config)) == Some(base + slashes) ==> base_origin(Some(config))
            == base,
{
    reveal_strlit("https://chatgpt.com");
    assert("https://chatgpt.com"@.last() == 'm');
    let class = CharClass::Only('/');
    text::lemma_trim_back_to(base + slashes, class);
    let kept = trim_back(base + slashes, class);
    if kept.len() < base.len() {
        assert(class.holds((base + slashes)[base.len() - 1]));
    }
    if kept.len() > base.len() {
        assert((base + slashes)[kept.len() - 1] == '/');
    }
    assert((base + slashes).take(base.len() as int) =~= base);
}

/// The addresses that are tried are those of the two ways in which the service gives reports,
/// under the base address first, and then under that of the service.
pub proof fn law_addresses_that_are_tried(origin: Seq<char>, host: Seq<char>)
    ensures
        ({
            let tried = candidate_urls(host + "/backend-api"@);
            &&& tried[0] == host + "/backend-api"@ + "/wham/usage"@
            &&& tried.contains(host + "/api/codex/usage"@)
            &&& tried.contains("https://chatgpt.com/backend-api/wham/usage"@)
        }),
        !ends_with(origin, "/backend-api"@) ==> {
            let tried = candidate_urls(origin);
            &&& tried[0] == origin + "/backend-api"@ + "/wham/usage"@
            &&& tried[1] == origin + "/wham/usage"@
            &&& tried[2] == origin + "/api/codex/usage"@
            &&& tried[3] == "https://chatgpt.com/backend-api/wham/usage"@
            &&& tried[4] == "https://chatgpt.com"@ + "/api/codex/usage"@
            &&& tried.len() == 5
        },
{
    let suffix = "/backend-api"@;
    let whole = host + suffix;
    text::law_beginnings_and_ends(whole, suffix, host);
    assert(whole.take(whole.len() - suffix.len()) =~= host);
    let tried = candidate_urls(whole);
    assert(tried[2] == host + "/api/codex/usage"@);
    assert(tried[3] == "https://chatgpt.com/backend-api/wham/usage"@);
}

/// Whether a window was sent with a report: as one of its own limit, or of a further one.
pub open spec fn was_sent(report: UsageApiResponse, window: UsageWindowRaw) -> bool {
    ||| report.rate_limit is Some && report.rate_limit->0.primary_window == Some(window)
    ||| report.rate_limit is Some && report.rate_limit->0.secondary_window == Some(window)
    ||| report.additional_rate_limits is Some && exists|i: int|
        {
            let further = (#[trigger] report.additional_rate_limits->0@[i]).rate_limit;
            &&& 0 <= i < report.additional_rate_limits->0@.len()
            &&& further is Some
            &&& further->0.primary_window == Some(window) || further->0.secondary_window == Some(
                window,
            )
        }
}

/// The windows of further limits are those that were sent with one of them.
proof fn lemma_additional_windows(limits: Seq<AdditionalRateLimitDetails>, window: UsageWindowRaw)
    ensures
        additional_windows(limits).contains(window) <==> exists|i: int|
            {
                let further = (#[trigger] limits[i]).rate_limit;
                &&& 0 <= i < limits.len()
                &&& further is Some
                &&& further->0.primary_window == Some(window) || further->0.secondary_window
                    == Some(window)
            },
    decreases limits.len(),
{
    if limits.len() > 0 {
        let rest = limits.drop_last();
        let last = limits.last().rate_limit;
        let before = additional_windows(rest);
        let own = limit_windows(last);
        let all = additional_windows(limits);
        lemma_additional_windows(rest, window);
        lemma_limit_windows(last, window);
        assert(all =~= before + own);
        if all.contains(window) {
            let k = all.index_of(window);
            if k < before.len() {
                assert(before[k] == window);
                let i = choose|i: int|
                    {
                        let further = (#[trigger] rest[i]).rate_limit;
                        &&& 0 <= i < rest.len()
                        &&& further is Some
                        &&& further->0.primary_window == Some(window)
                            || further->0.secondary_window == Some(window)
                    };
                assert(limits[i] == rest[i]);
            } else {
                assert(own[k - before.len()] == window);
                assert(limits[limits.len() - 1].rate_limit == last);
            }
        }
        if exists|i: int|
            {
                let further = (#[trigger] limits[i]).rate_limit;
                &&& 0 <= i < limits.len()
                &&& further is Some
                &&& further->0.primary_window == Some(window) || further->0.secondary_window
                    == Some(window)
            } {
            let i = choose|i: int|
                {
                    let further = (#[trigger] limits[i]).rate_limit;
                    &&& 0 <= i < limits.len()
                    &&& further is Some
                    &&& further->0.primary_window == Some(window) || further->0.secondary_window
                        == Some(window)
                };
            if i < rest.len() {
                assert(rest[i] == limits[i]);
                let k = before.index_of(window);
                assert(all[k] == window);
            } else {
                let k = own.index_of(window);
                assert(all[before.len() + k] == window);
            }
        }
    }
}

/// The windows of a limit are its two.
proof fn lemma_limit_windows(limit: Option<RateLimitDetails>, window: UsageWindowRaw)
    ensures
        limit_windows(limit).contains(window) <==> limit is Some && (limit->0.primary_window
            == Some(window) || limit->0.secondary_window == Some(window)),
{
    if let Some(limit) = limit {
        let windows = limit_windows(Some(limit));
        if limit.primary_window == Some(window) {
            assert(windows[0] == window);
        }
        if limit.secondary_window == Some(window) {
            assert(windows.last() == window);
            assert(windows[windows.len() - 1] == window);
        }
    }
}

/// The windows of a report are those that were sent with it.
proof fn lemma_report_windows(report: UsageApiResponse, window: UsageWindowRaw)
    ensures
        report_windows(report).contains(window) <==> was_sent(report, window),
{
    let own = limit_windows(report.rate_limit);
    let further = match report.additional_rate_limits {
        Some(limits) => additional_windows(limits@),
        None => seq![],
    };
    let all = report_windows(report);
    assert(all =~= own + further);
    lemma_limit_windows(report.rate_limit, window);
    if let Some(limits) = report.additional_rate_limits {
        lemma_additional_windows(limits@, window);
    }
    if all.contains(window) {
        let k = all.index_of(window);
        if k < own.len() {
            assert(own[k] == window);
        } else {
            assert(further[k - own.len()] == window);
        }
    }
    if own.contains(window) {
        let k = own.index_of(window);
        assert(all[k] == window);
    }
    if further.contains(window) {
        let k = further.index_of(window);
        assert(all[own.len() + k] == window);
    }
}

/// How far two lengths are apart.
pub open spec fn apart(a: int, b: int) -> int {
    if a < b {
        b - a
    } else {
        a - b
    }
}

/// What a snapshot says is what the report said: its short window is one that was sent, with its
/// use, its length and its reset, and none that was sent is nearer to five hours; its long window
/// is one that was sent, and none is nearer to a week. Where any window was sent, neither is
/// missing. Plan and credits are those of the report, and the time is that of reading it.
pub proof fn law_snapshot_says_what_was_sent(
    snapshot: UsageSnapshot,
    report: UsageApiResponse,
    now: i64,
    window: UsageWindowRaw,
)
    requires
        is_snapshot_of(snapshot, report, now),
    ensures
        snapshot.fetched_at == now,
        text_view(snapshot.plan_type) == text_view(report.plan_type),
        was_sent(report, window) ==> {
            &&& snapshot.five_hour is Some
            &&& snapshot.one_week is Some
            &&& apart(snapshot.five_hour->0.window_seconds as int, 18_000) <= apart(
                window.limit_window_seconds as int,
                18_000,
            )
            &&& apart(snapshot.one_week->0.window_seconds as int, 604_800) <= apart(
                window.limit_window_seconds as int,
                604_800,
            )
        },
        snapshot.five_hour is Some ==> exists|sent: UsageWindowRaw|
            {
                &&& #[trigger] was_sent(report, sent)
                &&& snapshot.five_hour->0.used_percent == sent.used_percent
                &&& snapshot.five_hour->0.window_seconds == sent.limit_window_seconds
                &&& snapshot.five_hour->0.reset_at == Some(sent.reset_at)
            },
        snapshot.one_week is Some ==> exists|sent: UsageWindowRaw|
            {
                &&& #[trigger] was_sent(report, sent)
                &&& snapshot.one_week->0.used_percent == sent.used_percent
                &&& snapshot.one_week->0.window_seconds == sent.limit_window_seconds
                &&& snapshot.one_week->0.reset_at == Some(sent.reset_at)
            },
        snapshot.credits is Some <==> report.credits is Some,
        report.credits is Some ==> snapshot.credits->0.has_credits == report.credits->0.has_credits
            && snapshot.credits->0.unlimited == report.credits->0.unlimited && text_view(
            snapshot.credits->0.balance,
        ) == text_view(report.credits->0.balance),
{
    let windows = report_windows(report);
    lemma_report_windows(report, window);
    if was_sent(report, window) {
        let j = windows.index_of(window);
        let i = choose|i: int| #[trigger]
            is_nearest(windows, FIVE_HOURS as int, i) && snapshot.five_hour->0 == kept_window(
                windows[i],
            );
        assert(distance(windows[i], FIVE_HOURS as int) <= distance(
            windows[j],
            FIVE_HOURS as int,
        ));
        let k = choose|k: int| #[trigger]
            is_nearest(windows, ONE_WEEK as int, k) && snapshot.one_week->0 == kept_window(
                windows[k],
            );
        assert(distance(windows[k], ONE_WEEK as int) <= distance(windows[j], ONE_WEEK as int));
    }
    if snapshot.five_hour is Some {
        let i = choose|i: int| #[trigger]
            is_nearest(windows, FIVE_HOURS as int, i) && snapshot.five_hour->0 == kept_window(
                windows[i],
            );
        lemma_report_windows(report, windows[i]);
        assert(windows.contains(windows[i]));
        assert(was_sent(report, windows[i]));
    }
    if snapshot.one_week is Some {
        let i = choose|i: int| #[trigger]
            is_nearest(windows, ONE_WEEK as int, i) && snapshot.one_week->0 == kept_window(
                windows[i],
            );
        lemma_report_windows(report, windows[i]);
        assert(windows.contains(windows[i]));
        assert(was_sent(report, windows[i]));
    }
}

/// Of two windows that are equally near, the one of the report's own limit counts, and of its
/// two the primary one.
pub proof fn law_first_of_equally_near_windows(
    snapshot: UsageSnapshot,
    report: UsageApiResponse,
    now: i64,
    primary: UsageWindowRaw,
)
    requires
        is_snapshot_of(snapshot, report, now),
        report.rate_limit is Some,
        report.rate_limit->0.primary_window == Some(primary),
    ensures
        (forall|sent: UsageWindowRaw| #[trigger]
            was_sent(report, sent) ==> apart(primary.limit_window_seconds as int, 18_000) <= apart(
                sent.limit_window_seconds as int,
                18_000,
            )) ==> snapshot.five_hour is Some && snapshot.five_hour->0.used_percent
            == primary.used_percent && snapshot.five_hour->0.reset_at == Some(primary.reset_at),
        (forall|sent: UsageWindowRaw| #[trigger]
            was_sent(report, sent) ==> apart(primary.limit_window_seconds as int, 604_800) <= apart(
                sent.limit_window_seconds as int,
                604_800,
            )) ==> snapshot.one_week is Some && snapshot.one_week->0.used_percent
            == primary.used_percent && snapshot.one_week->0.reset_at == Some(primary.reset_at),
{
    let windows = report_windows(report);
    assert(windows[0] == primary);
    let i = choose|i: int| #[trigger]
        is_nearest(windows, FIVE_HOURS as int, i) && snapshot.five_hour->0 == kept_window(
            windows[i],
        );
    lemma_report_windows(report, windows[i]);
    assert(windows.contains(windows[i]));
    if i > 0 {
        assert(distance(windows[i], FIVE_HOURS as int) < distance(windows[0], FIVE_HOURS as int));
    }
    let k = choose|k: int| #[trigger]
        is_nearest(windows, ONE_WEEK as int, k) && snapshot.one_week->0 == kept_window(windows[k]);
    lemma_report_windows(report, windows[k]);
    assert(windows.contains(windows[k]));
    if k > 0 {
        assert(distance(windows[k], ONE_WEEK as int) < distance(windows[0], ONE_WEEK as int));
    }
}

/// Each address is asked once, in order, with the token and for the account; once all have
/// failed, that is said.
pub proof fn law_addresses_are_asked_in_order(action: UsageAction, state: FetchState)
    requires
        is_next_action(action, state),
        state.errors.len() <= state.urls.len(),
    ensures
        state.errors.len() < state.urls.len() ==> {
            &&& action is Request
            &&& action->Request_0.url@ == state.urls[state.errors.len() as int]
            &&& exists|i: int|
                0 <= i < action->Request_0.headers@.len() && (
                #[trigger] action->Request_0.headers@[i]).0@ == "Authorization"@
                    && action->Request_0.headers@[i].1@ == "Bearer "@ + state.access_token
            &&& exists|i: int|
                0 <= i < action->Request_0.headers@.len() && (
                #[trigger] action->Request_0.headers@[i]).0@ == "ChatGPT-Account-Id"@
                    && action->Request_0.headers@[i].1@ == state.account_id
            &&& exists|i: int|
                0 <= i < action->Request_0.headers@.len() && (
                #[trigger] action->Request_0.headers@[i]).0@ == "Accept"@
                    && action->Request_0.headers@[i].1@ == "application/json"@
        },
        state.errors.len() == state.urls.len() ==> action is Finish && action->Finish_0 is Err
            && action->Finish_0->Err_0@ == fetch_failure(state.errors),
{
    if let UsageAction::Request(request) = action {
        assert(request.headers@[0].0@ == "Authorization"@);
        assert(request.headers@[1].0@ == "ChatGPT-Account-Id"@);
        assert(request.headers@[2].0@ == "Accept"@);
    }
}

/// What is said when no address gave a report has the first two failures in it, whole, and how
/// many more there were.
pub proof fn law_failures_are_said(errors: Seq<Seq<char>>)
    ensures
        errors.len() > 0 ==> contains_text(fetch_failure(errors), errors[0]),
        errors.len() > 1 ==> contains_text(fetch_failure(errors), errors[1]),
        errors.len() == 1 ==> fetch_failure(errors) == "failed to query usage endpoint: "@
            + errors[0],
        errors.len() == 2 ==> fetch_failure(errors) == "failed to query usage endpoint: "@
            + errors[0] + " | "@ + errors[1],
        errors.len() > 2 ==> fetch_failure(errors) == "failed to query usage endpoint: "@
            + errors[0] + " | "@ + errors[1] + " | and "@ + decimal((errors.len() - 2) as nat)
            + " more failures"@,
{
    reveal_with_fuel(joined, 3);
    let head = "failed to query usage endpoint: "@;
    let said = fetch_failure(errors);
    if errors.len() == 1 {
        assert(said =~= head + errors[0] + Seq::<char>::empty());
        text::law_containing(said, errors[0], head, Seq::empty());
    } else if errors.len() > 1 {
        let two = errors.take(2);
        if errors.len() == 2 {
            assert(two =~= errors);
        }
        assert(two.drop_last().len() == 1);
        assert(two.drop_last()[0] == errors[0]);
        assert(two.last() == errors[1]);
        assert(joined(two, " | "@) == errors[0] + " | "@ + errors[1]);
        let tail = if errors.len() > 2 {
            " | and "@ + decimal((errors.len() - 2) as nat) + " more failures"@
        } else {
            Seq::empty()
        };
        assert(said =~= head + errors[0] + (" | "@ + errors[1] + tail));
        text::law_containing(said, errors[0], head, " | "@ + errors[1] + tail);
        assert(said =~= head + errors[0] + " | "@ + errors[1] + tail);
        text::law_containing(said, errors[1], head + errors[0] + " | "@, tail);
        if errors.len() > 2 {
            assert(said =~= head + errors[0] + " | "@ + errors[1] + " | and "@ + decimal(
                (errors.len() - 2) as nat,
            ) + " more failures"@);
        } else {
            assert(said =~= head + errors[0] + " | "@ + errors[1]);
        }
    }
}

/// The failure of an address names it, and says what was answered or what went wrong.
pub proof fn law_failure_names_the_address(
    url: Seq<char>,
    status: String,
    body: String,
    causes: Vec<String>,
)
    ensures
        text::byte_length(body@) <= 140 ==> reply_error(url, UsageReply::Refused { status, body })
            == url + " -> "@ + status@ + ": "@ + body@,
        causes@.len() == 1 ==> reply_error(url, UsageReply::Unreachable(causes)) == url + " -> "@
            + causes@[0]@,
{
    reveal_with_fuel(joined, 2);
    if causes@.len() == 1 {
        let views = texts(causes@);
        lemma_deduplicated(views);
        let kept = deduplicated(views);
        assert(views.drop_last() =~= Seq::empty());
        assert(kept =~= seq![causes@[0]@]) by {
            reveal_with_fuel(deduplicated, 2);
            assert(views.last() == causes@[0]@);
        }
    }
}

/// Fresh tokens are tried where a report names no plan, and where a failure speaks, in whatever
/// letters, of authority or of a deactivated workspace; and nowhere else.
pub proof fn law_when_fresh_tokens_are_tried(
    usage: UsageModel,
    before: Seq<char>,
    shown: Seq<char>,
    after: Seq<char>,
    error: Seq<char>,
)
    ensures
        wants_token_refresh(Ok(usage)) <==> usage.plan_type is None,
        lowered(shown) == "401"@ || lowered(shown) == "unauthorized"@ || lowered(shown)
            == "invalid_token"@ || lowered(shown) == "deactivated_workspace"@
            ==> wants_token_refresh(Err(before + shown + after)) && says_unauthorized(
            before + shown + after,
        ),
        wants_token_refresh(Err(error)) ==> contains_text(lowered(error), "401"@) || contains_text(
            lowered(error),
            "unauthorized"@,
        ) || contains_text(lowered(error), "invalid_token"@) || contains_text(
            lowered(error),
            "deactivated_workspace"@,
        ),
{
    text::law_phrase_in_any_letters(before, shown, after);
}

/// An error is kept as it came, unless it speaks of a deactivated workspace or of an expired
/// token: these are kept in plain words.
pub proof fn law_which_errors_are_put_in_plain_words(
    before: Seq<char>,
    shown: Seq<char>,
    after: Seq<char>,
)
    ensures
        ({
            let raw = before + shown + after;
            let removed = contains_text(lowered(raw), "deactivated_workspace"@);
            let expired = contains_text(lowered(raw), "provided authentication token is expired"@)
                || contains_text(lowered(raw), "your refresh token has already been used"@)
                || contains_text(lowered(raw), "please try signing in again"@) || contains_text(
                lowered(raw),
                "token is expired"@,
            );
            &&& lowered(shown) == "deactivated_workspace"@ ==> kept_error(raw)
                == "deactivated_workspace: account was removed from the team workspace"@
            &&& (lowered(shown) == "token is expired"@ || lowered(shown)
                == "your refresh token has already been used"@ || lowered(shown)
                == "please try signing in again"@ || lowered(shown)
                == "provided authentication token is expired"@) && !removed ==> kept_error(raw)
                == "authorization expired, please re-auth this account"@
            &&& !removed && !expired ==> kept_error(raw) == raw
        }),
{
    text::law_phrase_in_any_letters(before, shown, after);
}

/// A line that names the base address without an equals sign ends the search for it, one that
/// sets it to nothing is passed over, and so is every line that does not name it.
pub proof fn law_settings_that_set_no_base(lines: Seq<Seq<char>>, line: Seq<char>)
    ensures
        configured_base(Seq::<Seq<char>>::empty()) is None,
        !begins_with(trimmed(line), "chatgpt_base_url"@) ==> configured_base(seq![line] + lines)
            == configured_base(lines),
        begins_with(trimmed(line), "chatgpt_base_url"@) && (forall|i: int|
            0 <= i < trimmed(line).len() ==> trimmed(line)[i] != '=') ==> configured_base(
            seq![line] + lines,
        ) is None,
        begins_with(trimmed(line), "chatgpt_base_url"@) && position(trimmed(line), '=', 0)
            < trimmed(line).len() && unquoted(
            trimmed(line).skip(position(trimmed(line), '=', 0) + 1),
        ).len() == 0 ==> configured_base(seq![line] + lines) == configured_base(lines),
{
    let all = seq![line] + lines;
    let t = trimmed(line);
    assert(all.skip(1) =~= lines);
    assert(all[0] == line);
    if forall|i: int| 0 <= i < t.len() ==> t[i] != '=' {
        text::law_first_place(t, '=', Seq::empty(), 0);
    }
    text::lemma_position_bounds(t, '=', 0);
    let equals = position(t, '=', 0);
    if equals < t.len() {
        assert(t.subrange(equals + 1, t.len() as int) =~= t.skip(equals + 1));
    }
}

} // verus!
