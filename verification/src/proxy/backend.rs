//! Turns by `codex app-server`: the requests that start a turn, the replies to
//! them, and the notifications that carry its text.

use crate::json;
use crate::json::{
    compact_text, is_one_line, no_members, parsed_text, raw_value_key, reads_back, value_tree, value_trees,
    JsonNumber, JsonTree, READABLE_LEVELS,
};
use crate::proxy::runtime::{
    blames_the_account, build_prompt, can_report, combined_output, failure_excerpt, number_or,
    prompt_lines, read_failure, RuntimeUsage,
};
use crate::proxy::{ProxyTurnRequest, ResolvedProxyConfig, TurnModel};
use crate::models::ProxySettings;
use crate::text;
use crate::text::{begins_with, joined, texts, trimmed};
use crate::utils::truncate_for_error;
use serde_json::Value;
use vstd::prelude::*;

verus! {

/// Whether a failed turn may be tried with another account.
#[derive(Debug, Clone, Copy, PartialEq, Eq, Structural)]
pub enum BackendErrorKind {
    Retriable,
    Fatal,
}

/// A failed turn.
#[derive(Debug, Clone)]
pub struct BackendError {
    pub message: String,
    pub kind: BackendErrorKind,
}

impl BackendError {
    /// A failure that no other account would mend.
    pub fn fatal(message: &str) -> (r: BackendError)
        ensures
            r.message@ == message@,
            r.kind == BackendErrorKind::Fatal,
    {
        BackendError { message: message.to_owned(), kind: BackendErrorKind::Fatal }
    }
}

/// A finished turn.
#[derive(Debug, Clone)]
pub struct BackendSuccess {
    pub text: String,
    pub usage: RuntimeUsage,
}

/// What a turn brings while it runs.
#[derive(Debug, Clone)]
pub enum BackendEvent {
    TextDelta(String),
    Completed(BackendSuccess),
}

/// The failure of a worker that said `stdout` and `stderr`.
pub fn classify_backend_error(stdout: &str, stderr: &str) -> (r: BackendError)
    requires
        can_report(stdout@, stderr@),
    ensures
        r.message@ == failure_excerpt(stdout@, stderr@),
        r.kind == if blames_the_account(combined_output(stdout@, stderr@)) {
            BackendErrorKind::Retriable
        } else {
            BackendErrorKind::Fatal
        },
{
    let (combined, retriable) = read_failure(stdout, stderr);
    BackendError {
        message: truncate_for_error(combined.as_str(), 400),
        kind: if retriable {
            BackendErrorKind::Retriable
        } else {
            BackendErrorKind::Fatal
        },
    }
}

// ---------------------------------------------------------------------------
// Workers
// ---------------------------------------------------------------------------
/// How many workers an account has: one for each lease, and one at least.
pub fn worker_count(max_inflight_per_account: usize) -> (r: usize)
    ensures
        r == if max_inflight_per_account == 0 {
            1
        } else {
            max_inflight_per_account
        },
{
    if max_inflight_per_account == 0 {
        1
    } else {
        max_inflight_per_account
    }
}

/// The worker that takes a turn: each in its turn.
pub fn worker_index(turns_before: usize, workers: usize) -> (r: usize)
    requires
        workers > 0,
    ensures
        r == turns_before % workers,
        r < workers,
{
    turns_before % workers
}

/// Whether a worker has to be started: where there is none, or it has exited.
pub fn needs_process(has_process: bool, has_exited: bool) -> (r: bool)
    ensures
        r == (!has_process || has_exited),
{
    !has_process || has_exited
}

/// The arguments with which a worker is started.
pub fn worker_arguments() -> (r: Vec<String>)
    ensures
        texts(r@) == seq!["app-server"@, "--listen"@, "stdio://"@],
{
    let mut arguments: Vec<String> = Vec::new();
    arguments.push("app-server".to_owned());
    arguments.push("--listen".to_owned());
    arguments.push("stdio://".to_owned());
    assert(texts(arguments@) =~= seq!["app-server"@, "--listen"@, "stdio://"@]);
    arguments
}

/// A line that a worker wrote.
#[derive(Debug)]
pub enum BackendLine {
    Stdout(String),
    Stderr(String),
}

// ---------------------------------------------------------------------------
// Requests to a worker
// ---------------------------------------------------------------------------
/// A method of a worker, and what it is called with.
#[derive(Debug)]
pub struct BackendCall {
    pub method: String,
    pub params: Value,
}

/// A request as it is sent.
pub open spec fn request_tree(id: u64, method: Seq<char>, params: JsonTree) -> JsonTree {
    JsonTree::Object(
        no_members().insert("jsonrpc"@, JsonTree::Text("2.0"@)).insert(
            "id"@,
            JsonTree::Number(JsonNumber::Unsigned(id)),
        ).insert("method"@, JsonTree::Text(method)).insert("params"@, params),
    )
}

/// The line of a request: nothing in it but its end breaks it, and it reads as the request
/// where its parameters read back.
pub fn request_line(id: u64, call: BackendCall) -> (r: String)
    ensures
        r@ == compact_text(request_tree(id, call.method@, value_tree(call.params))) + "\n"@,
        is_one_line(r@.drop_last()),
        reads_back(value_tree(call.params), (READABLE_LEVELS - 1) as nat) ==> parsed_text(
            r@.drop_last(),
        ) == Some(request_tree(id, call.method@, value_tree(call.params))),
{
    let mut members = json::new_object();
    json::insert(&mut members, "jsonrpc", json::string("2.0"));
    json::insert(&mut members, "id", json::unsigned(id));
    json::insert(&mut members, "method", json::string(call.method.as_str()));
    json::insert(&mut members, "params", call.params);
    let request = json::object(members);
    let mut line = json::write(&request);
    let ghost written = line@;
    line.append("\n");
    proof {
        reveal_strlit("\n");
        reveal_strlit("$serde_json::private::RawValue");
        reveal_strlit("jsonrpc");
        reveal_strlit("id");
        reveal_strlit("method");
        reveal_strlit("params");
        assert("jsonrpc"@.len() < raw_value_key().len());
        assert("id"@.len() < raw_value_key().len());
        assert("method"@.len() < raw_value_key().len());
        assert("params"@.len() < raw_value_key().len());
        reveal_with_fuel(reads_back, 2);
        assert(line@.drop_last() =~= written);
    }
    line
}

/// A request that waits for its reply.
#[derive(Debug)]
pub struct PendingRequest {
    pub id: u64,
    pub stderr_lines: Vec<String>,
}

/// What comes of a line while a request waits.
#[derive(Debug)]
pub enum RequestStep {
    /// The reply has not come yet.
    Wait,
    /// The result that the reply brings.
    Done(Value),
    /// A failure that is read from what the worker said.
    Said { stderr: String },
}

/// What comes of a line while a request waits.
pub enum RequestStepModel {
    Wait,
    Done(JsonTree),
    Said(Seq<char>),
}

impl View for RequestStep {
    type V = RequestStepModel;

    open spec fn view(&self) -> RequestStepModel {
        match self {
            RequestStep::Wait => RequestStepModel::Wait,
            RequestStep::Done(result) => RequestStepModel::Done(value_tree(*result)),
            RequestStep::Said { stderr } => RequestStepModel::Said(stderr@),
        }
    }
}

/// The message of a reply without a result.
pub open spec fn error_message(reply: JsonTree) -> Seq<char> {
    match reply.member("error"@) {
        Some(error) => match error.text_member("message"@) {
            Some(message) => message,
            None => "backend request failed"@,
        },
        None => "backend request failed"@,
    }
}

/// What comes of a document while a request waits: the reply to the request ends
/// the wait, a notification is kept for later, and anything else is passed over.
pub open spec fn after_reply(
    id: u64,
    stderr_lines: Seq<Seq<char>>,
    kept: Seq<JsonTree>,
    document: JsonTree,
) -> (Seq<JsonTree>, RequestStepModel) {
    if document.unsigned_member("id"@) == Some(id) {
        match document.member("result"@) {
            Some(result) => (kept, RequestStepModel::Done(result)),
            None => (
                kept,
                RequestStepModel::Said(
                    joined(stderr_lines, "\n"@) + "\n"@ + error_message(document),
                ),
            ),
        }
    } else if document.text_member("method"@) is Some {
        (kept.push(document), RequestStepModel::Wait)
    } else {
        (kept, RequestStepModel::Wait)
    }
}

impl PendingRequest {
    /// A request that was sent under a number.
    pub fn new(id: u64) -> (r: PendingRequest)
        ensures
            r.id == id,
            r.stderr_lines@.len() == 0,
    {
        PendingRequest { id, stderr_lines: Vec::new() }
    }

    /// Takes in a document that the worker wrote.
    pub fn on_document(&self, document: Value, notifications: &mut Vec<Value>) -> (r: RequestStep)
        ensures
            (value_trees(final(notifications)@), r@) == after_reply(
                self.id,
                texts(self.stderr_lines@),
                value_trees(old(notifications)@),
                value_tree(document),
            ),
    {
        let answers = match json::get_u64(&document, "id") {
            Some(id) => id == self.id,
            None => false,
        };
        if answers {
            if let Some(result) = json::get(&document, "result") {
                return RequestStep::Done(json::clone_value(result));
            }
            let message = match json::get(&document, "error") {
                Some(error) => match json::get_str(error, "message") {
                    Some(message) => message,
                    None => "backend request failed",
                },
                None => "backend request failed",
            };
            let mut stderr = text::join(&self.stderr_lines, "\n");
            stderr.append("\n");
            stderr.append(message);
            return RequestStep::Said { stderr };
        }
        if json::get_str(&document, "method").is_some() {
            let ghost before = value_trees(notifications@);
            let ghost tree = value_tree(document);
            notifications.push(document);
            assert(value_trees(notifications@) =~= before.push(tree));
        }
        RequestStep::Wait
    }

    /// Takes in a line that the worker wrote.
    pub fn on_line(&mut self, line: BackendLine, notifications: &mut Vec<Value>) -> (r: RequestStep)
        ensures
            final(self).id == old(self).id,
            match line {
                BackendLine::Stderr(line) => r@ == RequestStepModel::Wait && *final(notifications)
                    == *old(notifications) && texts(final(self).stderr_lines@) == texts(
                    old(self).stderr_lines@,
                ).push(line@),
                BackendLine::Stdout(line) => final(self).stderr_lines@ == old(self).stderr_lines@
                    && (match parsed_text(line@) {
                    Some(document) => (value_trees(final(notifications)@), r@) == after_reply(
                        old(self).id,
                        texts(old(self).stderr_lines@),
                        value_trees(old(notifications)@),
                        document,
                    ),
                    None => r@ == RequestStepModel::Wait && *final(notifications) == *old(
                        notifications,
                    ),
                }),
            },
    {
        match line {
            BackendLine::Stderr(line) => {
                let ghost before = texts(self.stderr_lines@);
                let ghost last = line@;
                self.stderr_lines.push(line);
                assert(texts(self.stderr_lines@) =~= before.push(last));
                RequestStep::Wait
            },
            BackendLine::Stdout(line) => match json::parse(line.as_str()) {
                Some(document) => self.on_document(document, notifications),
                None => RequestStep::Wait,
            },
        }
    }

    /// The end of the worker's output: no reply will come.
    pub fn on_end(&self) -> (r: RequestStep)
        ensures
            r@ == RequestStepModel::Said(joined(texts(self.stderr_lines@), "\n"@)),
    {
        RequestStep::Said { stderr: text::join(&self.stderr_lines, "\n") }
    }
}

/// A notification is never taken for a reply, and none is lost: the notifications
/// that were kept stay in front, and a document that is neither is passed over.
pub proof fn law_notifications_are_kept(
    id: u64,
    stderr_lines: Seq<Seq<char>>,
    kept: Seq<JsonTree>,
    document: JsonTree,
)
    ensures
        ({
            let (after, step) = after_reply(id, stderr_lines, kept, document);
            &&& after.len() >= kept.len()
            &&& after.take(kept.len() as int) == kept
            &&& document.text_member("method"@) is Some && document.unsigned_member("id"@) is None
                ==> after == kept.push(document) && step is Wait
            &&& step is Done ==> document.unsigned_member("id"@) == Some(id)
        }),
{
    let (after, step) = after_reply(id, stderr_lines, kept, document);
    assert(after.take(kept.len() as int) =~= kept);
}

// ---------------------------------------------------------------------------
// Starting a turn
// ---------------------------------------------------------------------------
/// What a worker is told of its client.
pub open spec fn initialize_tree(version: Seq<char>) -> JsonTree {
    JsonTree::Object(
        no_members().insert(
            "clientInfo"@,
            JsonTree::Object(
                no_members().insert("name"@, JsonTree::Text("codex-pool"@)).insert(
                    "version"@,
                    JsonTree::Text(version),
                ),
            ),
        ),
    )
}

/// The first call to a worker.
pub fn initialize_call(version: &str) -> (r: BackendCall)
    ensures
        r.method@ == "initialize"@,
        value_tree(r.params) == initialize_tree(version@),
{
    let mut client = json::new_object();
    json::insert(&mut client, "name", json::string("codex-pool"));
    json::insert(&mut client, "version", json::string(version));
    let mut params = json::new_object();
    json::insert(&mut params, "clientInfo", json::object(client));
    BackendCall { method: "initialize".to_owned(), params: json::object(params) }
}

/// What a thread is started with.
pub open spec fn thread_start_tree(turn: TurnModel, settings: ProxySettings) -> JsonTree {
    JsonTree::Object(
        no_members().insert("approvalPolicy"@, JsonTree::Text(settings.approval_policy)).insert(
            "sandbox"@,
            JsonTree::Text(settings.sandbox),
        ).insert("cwd"@, JsonTree::Text(turn.cwd)).insert(
            "model"@,
            JsonTree::Text(turn.resolved_model),
        ).insert("ephemeral"@, JsonTree::Bool(true)).insert(
            "personality"@,
            JsonTree::Text("pragmatic"@),
        ),
    )
}

/// What a turn is started with.
pub open spec fn turn_start_tree(thread_id: Seq<char>, turn: TurnModel) -> JsonTree {
    let prompt = JsonTree::Object(
        no_members().insert("type"@, JsonTree::Text("text"@)).insert(
            "text"@,
            JsonTree::Text(joined(prompt_lines(turn), "\n"@)),
        ),
    );
    JsonTree::Object(
        no_members().insert("threadId"@, JsonTree::Text(thread_id)).insert(
            "input"@,
            JsonTree::Array(seq![prompt]),
        ),
    )
}

/// The call that starts a thread for a turn.
pub fn thread_start_call(request: &ProxyTurnRequest, config: &ResolvedProxyConfig) -> (r:
    BackendCall)
    ensures
        r.method@ == "thread/start"@,
        value_tree(r.params) == thread_start_tree(request@, config@),
{
    let mut params = json::new_object();
    json::insert(&mut params, "approvalPolicy", json::string(config.approval_policy.as_str()));
    json::insert(&mut params, "sandbox", json::string(config.sandbox.as_str()));
    json::insert(&mut params, "cwd", json::string(request.cwd.as_str()));
    json::insert(&mut params, "model", json::string(request.resolved_model.as_str()));
    json::insert(&mut params, "ephemeral", json::boolean(true));
    json::insert(&mut params, "personality", json::string("pragmatic"));
    BackendCall { method: "thread/start".to_owned(), params: json::object(params) }
}

/// The call that starts a turn in a thread.
pub fn turn_start_call(thread_id: &str, request: &ProxyTurnRequest) -> (r: BackendCall)
    ensures
        r.method@ == "turn/start"@,
        value_tree(r.params) == turn_start_tree(thread_id@, request@),
{
    let prompt = build_prompt(request);
    let mut part = json::new_object();
    json::insert(&mut part, "type", json::string("text"));
    json::insert(&mut part, "text", json::string(prompt.as_str()));
    let mut input: Vec<Value> = Vec::new();
    let part = json::object(part);
    let ghost tree = value_tree(part);
    input.push(part);
    assert(value_trees(input@) =~= seq![tree]);
    let mut params = json::new_object();
    json::insert(&mut params, "threadId", json::string(thread_id));
    json::insert(&mut params, "input", json::array(input));
    BackendCall { method: "turn/start".to_owned(), params: json::object(params) }
}

/// The call that ends a thread.
pub fn unsubscribe_call(thread_id: &str) -> (r: BackendCall)
    ensures
        r.method@ == "thread/unsubscribe"@,
        value_tree(r.params) == JsonTree::Object(
            no_members().insert("threadId"@, JsonTree::Text(thread_id@)),
        ),
{
    let mut params = json::new_object();
    json::insert(&mut params, "threadId", json::string(thread_id));
    BackendCall { method: "thread/unsubscribe".to_owned(), params: json::object(params) }
}

/// The identifier in a member of a reply.
pub open spec fn reply_id(reply: JsonTree, name: Seq<char>) -> Option<Seq<char>> {
    match reply.member(name) {
        Some(found) => found.text_member("id"@),
        None => None,
    }
}

/// The identifier in a member of a reply.
fn find_reply_id(reply: &Value, name: &str) -> (r: Option<String>)
    ensures
        text::text_view(r) == reply_id(value_tree(*reply), name@),
{
    match json::get(reply, name) {
        Some(found) => match json::get_str(found, "id") {
            Some(id) => Some(id.to_owned()),
            None => None,
        },
        None => None,
    }
}

/// How far the start of a turn has come: whether its thread is known.
#[derive(Debug)]
pub struct TurnStart {
    pub thread_id: Option<String>,
}

/// What the start of a turn calls for.
#[derive(Debug)]
pub enum TurnStartStep {
    Send(BackendCall),
    Started(BackendTurn),
    Failed(BackendError),
}

impl TurnStart {
    /// The start of a turn, and the call that comes first.
    pub fn begin(request: &ProxyTurnRequest, config: &ResolvedProxyConfig) -> (r: (
        TurnStart,
        BackendCall,
    ))
        ensures
            r.0.thread_id is None,
            r.1.method@ == "thread/start"@,
            value_tree(r.1.params) == thread_start_tree(request@, config@),
    {
        (TurnStart { thread_id: None }, thread_start_call(request, config))
    }

    /// Takes in the result of the last call: the thread, then the turn.
    pub fn on_result(&mut self, request: &ProxyTurnRequest, result: &Value) -> (r: TurnStartStep)
        ensures
            match old(self).thread_id {
                None => match (reply_id(value_tree(*result), "thread"@), r) {
                    (Some(thread_id), TurnStartStep::Send(call)) => {
                        &&& text::text_view(final(self).thread_id) == Some(thread_id)
                        &&& call.method@ == "turn/start"@
                        &&& value_tree(call.params) == turn_start_tree(thread_id, request@)
                    },
                    (None, TurnStartStep::Failed(error)) => {
                        &&& *final(self) == *old(self)
                        &&& error.kind == BackendErrorKind::Fatal
                        &&& error.message@ == "thread/start did not return thread id"@
                    },
                    _ => false,
                },
                Some(thread_id) => *final(self) == *old(self) && (match (
                    reply_id(value_tree(*result), "turn"@),
                    r,
                ) {
                    (Some(turn_id), TurnStartStep::Started(turn)) => turn@ == new_turn(
                        thread_id@,
                        turn_id,
                    ),
                    (None, TurnStartStep::Failed(error)) => {
                        &&& error.kind == BackendErrorKind::Fatal
                        &&& error.message@ == "turn/start did not return turn id"@
                    },
                    _ => false,
                }),
            },
    {
        match &self.thread_id {
            None => match find_reply_id(result, "thread") {
                Some(thread_id) => {
                    let call = turn_start_call(thread_id.as_str(), request);
                    self.thread_id = Some(thread_id);
                    TurnStartStep::Send(call)
                },
                None => TurnStartStep::Failed(
                    BackendError::fatal("thread/start did not return thread id"),
                ),
            },
            Some(thread_id) => match find_reply_id(result, "turn") {
                Some(turn_id) => TurnStartStep::Started(
                    BackendTurn::new(thread_id.as_str(), turn_id.as_str()),
                ),
                None => TurnStartStep::Failed(
                    BackendError::fatal("turn/start did not return turn id"),
                ),
            },
        }
    }
}

// ---------------------------------------------------------------------------
// A running turn
// ---------------------------------------------------------------------------
/// A turn that runs, and what was read of it.
#[derive(Debug)]
pub struct BackendTurn {
    pub thread_id: String,
    pub turn_id: String,
    pub text: String,
    pub usage: RuntimeUsage,
    pub finished: bool,
    pub recent_stderr: Vec<String>,
}

/// What was read of a turn.
pub struct TurnProgress {
    pub thread_id: Seq<char>,
    pub turn_id: Seq<char>,
    pub text: Seq<char>,
    pub usage: RuntimeUsage,
    pub finished: bool,
    pub recent_stderr: Seq<Seq<char>>,
}

impl View for BackendTurn {
    type V = TurnProgress;

    open spec fn view(&self) -> TurnProgress {
        TurnProgress {
            thread_id: self.thread_id@,
            turn_id: self.turn_id@,
            text: self.text@,
            usage: self.usage,
            finished: self.finished,
            recent_stderr: texts(self.recent_stderr@),
        }
    }
}

/// A turn of which nothing was read.
pub open spec fn new_turn(thread_id: Seq<char>, turn_id: Seq<char>) -> TurnProgress {
    TurnProgress {
        thread_id,
        turn_id,
        text: Seq::empty(),
        usage: RuntimeUsage { input_tokens: 0, output_tokens: 0 },
        finished: false,
        recent_stderr: Seq::empty(),
    }
}

/// What a running turn calls for.
#[derive(Debug)]
pub enum BackendStep {
    /// Nothing reaches the reader.
    Quiet,
    /// The next line of the worker.
    Read,
    /// The turn is over, and all was said.
    Ended,
    /// A piece of text for the reader.
    Delta(String),
    /// The end of the turn: its thread is to be ended too.
    Completed(BackendSuccess),
    /// A failure that is read from what the worker said; the worker is given up.
    Said { stdout: String, stderr: String },
    /// A failure that is known; the worker is given up.
    Failed(BackendError),
}

/// What a running turn calls for.
pub enum BackendStepModel {
    Quiet,
    Read,
    Ended,
    Delta(Seq<char>),
    Completed { text: Seq<char>, usage: RuntimeUsage },
    Said { stdout: Seq<char>, stderr: Seq<char> },
    Failed { message: Seq<char>, kind: BackendErrorKind },
}

impl View for BackendStep {
    type V = BackendStepModel;

    open spec fn view(&self) -> BackendStepModel {
        match self {
            BackendStep::Quiet => BackendStepModel::Quiet,
            BackendStep::Read => BackendStepModel::Read,
            BackendStep::Ended => BackendStepModel::Ended,
            BackendStep::Delta(delta) => BackendStepModel::Delta(delta@),
            BackendStep::Completed(success) => BackendStepModel::Completed {
                text: success.text@,
                usage: success.usage,
            },
            BackendStep::Said { stdout, stderr } => BackendStepModel::Said {
                stdout: stdout@,
                stderr: stderr@,
            },
            BackendStep::Failed(error) => BackendStepModel::Failed {
                message: error.message@,
                kind: error.kind,
            },
        }
    }
}

/// A member of a document, or null.
pub open spec fn member_or_null(tree: JsonTree, name: Seq<char>) -> JsonTree {
    match tree.member(name) {
        Some(found) => found,
        None => JsonTree::Null,
    }
}

/// Whether a notification is of another thread or another turn: one that names
/// neither is of this one.
pub open spec fn is_foreign(turn: TurnProgress, params: JsonTree) -> bool {
    let thread = params.text_member("threadId"@);
    let named = params.text_member("turnId"@);
    (thread is Some && thread->0 != turn.thread_id) || (named is Some && named->0 != turn.turn_id)
}

/// What a piece of text does to a turn.
pub open spec fn after_delta(turn: TurnProgress, params: JsonTree) -> (
    TurnProgress,
    BackendStepModel,
) {
    match params.text_member("delta"@) {
        Some(delta) if delta.len() > 0 => (
            TurnProgress { text: turn.text + delta, ..turn },
            BackendStepModel::Delta(delta),
        ),
        _ => (turn, BackendStepModel::Quiet),
    }
}

/// What a finished item does to a turn: a message that continues the text brings
/// the rest of it.
pub open spec fn after_item(turn: TurnProgress, params: JsonTree) -> (
    TurnProgress,
    BackendStepModel,
) {
    let item = member_or_null(params, "item"@);
    let whole = item.text_member("text"@);
    if item.text_member("type"@) == Some("agentMessage"@) && whole is Some && begins_with(
        whole->0,
        turn.text,
    ) && whole->0.len() > turn.text.len() {
        (
            TurnProgress { text: whole->0, ..turn },
            BackendStepModel::Delta(whole->0.skip(turn.text.len() as int)),
        )
    } else {
        (turn, BackendStepModel::Quiet)
    }
}

/// What a report on tokens does to a turn.
pub open spec fn after_token_usage(turn: TurnProgress, params: JsonTree) -> (
    TurnProgress,
    BackendStepModel,
) {
    let last = match params.member("tokenUsage"@) {
        Some(usage) => usage.member("last"@),
        None => None,
    };
    match last {
        Some(last) => (
            TurnProgress {
                usage: RuntimeUsage {
                    input_tokens: number_or(
                        last.unsigned_member("inputTokens"@),
                        turn.usage.input_tokens,
                    ),
                    output_tokens: number_or(
                        last.unsigned_member("outputTokens"@),
                        turn.usage.output_tokens,
                    ),
                },
                ..turn
            },
            BackendStepModel::Quiet,
        ),
        None => (turn, BackendStepModel::Quiet),
    }
}

/// What a notification does to a turn.
pub open spec fn after_notification(turn: TurnProgress, document: JsonTree) -> (
    TurnProgress,
    BackendStepModel,
) {
    let params = member_or_null(document, "params"@);
    match document.text_member("method"@) {
        None => (turn, BackendStepModel::Quiet),
        Some(method) => if is_foreign(turn, params) {
            (turn, BackendStepModel::Quiet)
        } else if method == "item/agentMessage/delta"@ {
            after_delta(turn, params)
        } else if method == "item/completed"@ {
            after_item(turn, params)
        } else if method == "thread/tokenUsage/updated"@ {
            after_token_usage(turn, params)
        } else if method == "turn/completed"@ {
            (
                TurnProgress { finished: true, ..turn },
                BackendStepModel::Completed { text: turn.text, usage: turn.usage },
            )
        } else if method == "error"@ {
            (
                TurnProgress { finished: true, ..turn },
                BackendStepModel::Said {
                    stdout: turn.text,
                    stderr: joined(turn.recent_stderr, "\n"@) + "\n"@ + compact_text(document),
                },
            )
        } else {
            (turn, BackendStepModel::Quiet)
        },
    }
}

/// What a line of the worker does to a turn.
pub open spec fn after_worker_line(turn: TurnProgress, line: BackendLine) -> (
    TurnProgress,
    BackendStepModel,
) {
    match line {
        BackendLine::Stderr(line) => if trimmed(line@).len() == 0 {
            (turn, BackendStepModel::Quiet)
        } else {
            (
                TurnProgress { recent_stderr: turn.recent_stderr.push(line@), ..turn },
                BackendStepModel::Quiet,
            )
        },
        BackendLine::Stdout(line) => match parsed_text(line@) {
            Some(document) => after_notification(turn, document),
            None => (turn, BackendStepModel::Quiet),
        },
    }
}

impl BackendTurn {
    /// A turn of which nothing was read.
    pub fn new(thread_id: &str, turn_id: &str) -> (r: BackendTurn)
        ensures
            r@ == new_turn(thread_id@, turn_id@),
    {
        let recent_stderr: Vec<String> = Vec::new();
        let text = String::new();
        assert(texts(recent_stderr@) =~= Seq::empty());
        assert(text@ =~= Seq::empty());
        BackendTurn {
            thread_id: thread_id.to_owned(),
            turn_id: turn_id.to_owned(),
            text,
            usage: RuntimeUsage::default(),
            finished: false,
            recent_stderr,
        }
    }

    /// Whether a notification is of another thread or another turn.
    fn is_of_another(&self, params: &Value) -> (r: bool)
        ensures
            r == is_foreign(self@, value_tree(*params)),
    {
        if let Some(thread) = json::get_str(params, "threadId") {
            if !text::same(thread, self.thread_id.as_str()) {
                return true;
            }
        }
        if let Some(turn) = json::get_str(params, "turnId") {
            if !text::same(turn, self.turn_id.as_str()) {
                return true;
            }
        }
        false
    }

    /// Takes in a piece of text.
    fn on_delta(&mut self, params: &Value) -> (r: BackendStep)
        ensures
            (final(self)@, r@) == after_delta(old(self)@, value_tree(*params)),
    {
        match json::get_str(params, "delta") {
            Some(delta) => if delta.is_empty() {
                BackendStep::Quiet
            } else {
                self.text.append(delta);
                BackendStep::Delta(delta.to_owned())
            },
            None => BackendStep::Quiet,
        }
    }

    /// Takes in a finished item.
    fn on_item(&mut self, params: &Value) -> (r: BackendStep)
        ensures
            (final(self)@, r@) == after_item(old(self)@, value_tree(*params)),
    {
        let item = match json::get(params, "item") {
            Some(item) => item,
            None => return BackendStep::Quiet,
        };
        let is_message = match json::get_str(item, "type") {
            Some(name) => text::same(name, "agentMessage"),
            None => false,
        };
        if !is_message {
            return BackendStep::Quiet;
        }
        let whole = match json::get_str(item, "text") {
            Some(whole) => whole,
            None => return BackendStep::Quiet,
        };
        match text::after_prefix(whole, self.text.as_str()) {
            Some(delta) => if delta.as_str().is_empty() {
                BackendStep::Quiet
            } else {
                self.text = whole.to_owned();
                BackendStep::Delta(delta)
            },
            None => BackendStep::Quiet,
        }
    }

    /// Takes in a report on tokens.
    fn on_token_usage(&mut self, params: &Value) -> (r: BackendStep)
        ensures
            (final(self)@, r@) == after_token_usage(old(self)@, value_tree(*params)),
    {
        let usage = match json::get(params, "tokenUsage") {
            Some(usage) => usage,
            None => return BackendStep::Quiet,
        };
        if let Some(last) = json::get(usage, "last") {
            let input_tokens: u64 = match json::get_u64(last, "inputTokens") {
                Some(tokens) => tokens,
                None => self.usage.input_tokens,
            };
            let output_tokens: u64 = match json::get_u64(last, "outputTokens") {
                Some(tokens) => tokens,
                None => self.usage.output_tokens,
            };
            self.usage = RuntimeUsage { input_tokens, output_tokens };
        }
        BackendStep::Quiet
    }

    /// Takes in a notification.
    pub fn handle_notification(&mut self, value: &Value) -> (r: BackendStep)
        ensures
            (final(self)@, r@) == after_notification(old(self)@, value_tree(*value)),
    {
        let method = match json::get_str(value, "method") {
            Some(method) => method,
            None => return BackendStep::Quiet,
        };
        let null = json::null();
        let params = match json::get(value, "params") {
            Some(params) => params,
            None => &null,
        };
        if self.is_of_another(params) {
            return BackendStep::Quiet;
        }
        if text::same(method, "item/agentMessage/delta") {
            return self.on_delta(params);
        }
        if text::same(method, "item/completed") {
            return self.on_item(params);
        }
        if text::same(method, "thread/tokenUsage/updated") {
            return self.on_token_usage(params);
        }
        if text::same(method, "turn/completed") {
            self.finished = true;
            return BackendStep::Completed(
                BackendSuccess { text: self.text.clone(), usage: self.usage },
            );
        }
        if text::same(method, "error") {
            let document = json::write(value);
            let mut stderr = text::join(&self.recent_stderr, "\n");
            stderr.append("\n");
            stderr.append(document.as_str());
            self.finished = true;
            return BackendStep::Said { stdout: self.text.clone(), stderr };
        }
        BackendStep::Quiet
    }

    /// What the turn calls for before a line is read: nothing once it is over, the
    /// first notification that was kept, or else a line. A worker that is gone ends
    /// the turn.
    pub fn next_step(&mut self, has_process: bool, notifications: &mut Vec<Value>) -> (r:
        BackendStep)
        ensures
            if old(self)@.finished {
                &&& final(self)@ == old(self)@
                &&& *final(notifications) == *old(notifications)
                &&& r@ == BackendStepModel::Ended
            } else if !has_process {
                &&& final(self)@ == (TurnProgress { finished: true, ..old(self)@ })
                &&& *final(notifications) == *old(notifications)
                &&& r@ == (BackendStepModel::Failed {
                    message: "backend worker became unavailable"@,
                    kind: BackendErrorKind::Fatal,
                })
            } else if old(notifications)@.len() > 0 {
                &&& (final(self)@, r@) == after_notification(
                    old(self)@,
                    value_tree(old(notifications)@[0]),
                )
                &&& final(notifications)@ == old(notifications)@.skip(1)
            } else {
                &&& final(self)@ == old(self)@
                &&& *final(notifications) == *old(notifications)
                &&& r@ == BackendStepModel::Read
            },
    {
        if self.finished {
            return BackendStep::Ended;
        }
        if !has_process {
            self.finished = true;
            return BackendStep::Failed(BackendError::fatal("backend worker became unavailable"));
        }
        if notifications.len() > 0 {
            let ghost before = notifications@;
            let value = notifications.remove(0);
            assert(notifications@ =~= before.skip(1));
            return self.handle_notification(&value);
        }
        BackendStep::Read
    }

    /// Takes in a line that the worker wrote.
    pub fn on_line(&mut self, line: BackendLine) -> (r: BackendStep)
        ensures
            (final(self)@, r@) == after_worker_line(old(self)@, line),
    {
        match line {
            BackendLine::Stderr(line) => {
                if !text::is_blank(line.as_str()) {
                    let ghost before = texts(self.recent_stderr@);
                    let ghost last = line@;
                    self.recent_stderr.push(line);
                    assert(texts(self.recent_stderr@) =~= before.push(last));
                }
                BackendStep::Quiet
            },
            BackendLine::Stdout(line) => match json::parse(line.as_str()) {
                Some(value) => self.handle_notification(&value),
                None => BackendStep::Quiet,
            },
        }
    }

    /// The end of the worker's output.
    pub fn on_end(&mut self) -> (r: BackendStep)
        ensures
            final(self)@ == (TurnProgress { finished: true, ..old(self)@ }),
            r@ == (BackendStepModel::Said {
                stdout: old(self)@.text,
                stderr: joined(old(self)@.recent_stderr, "\n"@),
            }),
    {
        self.finished = true;
        BackendStep::Said {
            stdout: self.text.clone(),
            stderr: text::join(&self.recent_stderr, "\n"),
        }
    }

    /// An error in reading the worker's output.
    pub fn on_read_error(&mut self, error: BackendError) -> (r: BackendStep)
        ensures
            final(self)@ == (TurnProgress { finished: true, ..old(self)@ }),
            r == BackendStep::Failed(error),
    {
        self.finished = true;
        BackendStep::Failed(error)
    }
}

/// The text that a step brings to the reader.
pub open spec fn step_text(step: BackendStepModel) -> Seq<char> {
    match step {
        BackendStepModel::Delta(delta) => delta,
        _ => Seq::empty(),
    }
}

/// What reaches the reader is what was read: the text before, followed by what the
/// line brings, is the text after. A finished turn brings the whole of its text.
pub proof fn law_turn_deltas_add_up(turn: TurnProgress, line: BackendLine)
    ensures
        ({
            let (after, step) = after_worker_line(turn, line);
            &&& after.text == turn.text + step_text(step)
            &&& step is Delta ==> step_text(step).len() > 0
            &&& step is Completed ==> step->Completed_text == turn.text && step->Completed_usage
                == turn.usage
        }),
{
    let (after, step) = after_worker_line(turn, line);
    assert(turn.text + Seq::<char>::empty() =~= turn.text);
    if let BackendLine::Stdout(stdout) = line {
        if let Some(document) = parsed_text(stdout@) {
            let params = member_or_null(document, "params"@);
            let item = member_or_null(params, "item"@);
            let whole = item.text_member("text"@);
            if whole is Some && begins_with(whole->0, turn.text) {
                assert(whole->0 =~= whole->0.take(turn.text.len() as int) + whole->0.skip(
                    turn.text.len() as int,
                ));
            }
        }
    }
}

/// A notification of another thread or turn leaves a turn as it was.
pub proof fn law_foreign_notifications_do_nothing(turn: TurnProgress, document: JsonTree)
    requires
        is_foreign(turn, member_or_null(document, "params"@)),
    ensures
        after_notification(turn, document) == (turn, BackendStepModel::Quiet),
{
}

/// A turn keeps its thread and its identifier, and it is over exactly when its end,
/// or a failure, was reported.
pub proof fn law_turn_ends_when_reported(turn: TurnProgress, line: BackendLine)
    requires
        !turn.finished,
    ensures
        ({
            let (after, step) = after_worker_line(turn, line);
            &&& after.thread_id == turn.thread_id
            &&& after.turn_id == turn.turn_id
            &&& after.finished <==> (step is Completed || step is Said)
        }),
{
}

// ---------------------------------------------------------------------------
// What a turn is for
// ---------------------------------------------------------------------------
/// The methods of the notifications that are read are all different.
proof fn lemma_methods_differ()
    ensures
        "item/agentMessage/delta"@ != "item/completed"@,
        "item/agentMessage/delta"@ != "thread/tokenUsage/updated"@,
        "item/agentMessage/delta"@ != "turn/completed"@,
        "item/agentMessage/delta"@ != "error"@,
        "item/completed"@ != "thread/tokenUsage/updated"@,
        "item/completed"@ != "turn/completed"@,
        "item/completed"@ != "error"@,
        "thread/tokenUsage/updated"@ != "turn/completed"@,
        "thread/tokenUsage/updated"@ != "error"@,
        "turn/completed"@ != "error"@,
{
    reveal_strlit("item/agentMessage/delta");
    reveal_strlit("item/completed");
    reveal_strlit("thread/tokenUsage/updated");
    reveal_strlit("turn/completed");
    reveal_strlit("error");
    assert("item/agentMessage/delta"@.len() == 23);
    assert("item/completed"@.len() == 14);
    assert("thread/tokenUsage/updated"@.len() == 25);
    assert("turn/completed"@.len() == 14);
    assert("error"@.len() == 5);
    assert("item/completed"@[0] == 'i');
    assert("turn/completed"@[0] == 't');
}

/// Whether a document is a notification with a method and parameters that name no thread and no
/// turn but those of a turn.
pub open spec fn is_notification_of(
    turn: TurnProgress,
    document: JsonTree,
    method: Seq<char>,
    params: Map<Seq<char>, JsonTree>,
) -> bool {
    &&& document is Object
    &&& document->Object_0.contains_key("method"@)
    &&& document->Object_0["method"@] == JsonTree::Text(method)
    &&& document->Object_0.contains_key("params"@)
    &&& document->Object_0["params"@] == JsonTree::Object(params)
    &&& params.contains_key("threadId"@) ==> params["threadId"@] == JsonTree::Text(turn.thread_id)
    &&& params.contains_key("turnId"@) ==> params["turnId"@] == JsonTree::Text(turn.turn_id)
}

/// A piece of text reaches the reader as the worker sent it, to the last blank, and is appended
/// to the text of the turn; nothing else changes. An empty piece does nothing.
pub proof fn law_delta_is_passed_on_as_it_came(
    turn: TurnProgress,
    document: JsonTree,
    params: Map<Seq<char>, JsonTree>,
    delta: Seq<char>,
)
    requires
        is_notification_of(turn, document, "item/agentMessage/delta"@, params),
        params.contains_key("delta"@),
        params["delta"@] == JsonTree::Text(delta),
    ensures
        ({
            let (after, step) = after_notification(turn, document);
            &&& delta.len() > 0 ==> step == BackendStepModel::Delta(delta)
            &&& delta.len() == 0 ==> step is Quiet
            &&& after.text == turn.text + delta
            &&& after.usage == turn.usage
            &&& after.finished == turn.finished
            &&& after.thread_id == turn.thread_id
            &&& after.turn_id == turn.turn_id
            &&& after.recent_stderr == turn.recent_stderr
        }),
{
    lemma_methods_differ();
    assert(turn.text + Seq::<char>::empty() =~= turn.text);
    if delta.len() == 0 {
        assert(delta =~= Seq::<char>::empty());
    }
}

/// A turn after some notifications.
pub open spec fn after_notifications(turn: TurnProgress, documents: Seq<JsonTree>) -> TurnProgress
    decreases documents.len(),
{
    if documents.len() == 0 {
        turn
    } else {
        after_notification(after_notifications(turn, documents.drop_last()), documents.last()).0
    }
}

/// The text of a turn after some pieces of text is the text before them, followed by all of
/// them, in the order in which the worker sent them.
pub proof fn law_text_is_what_the_worker_sent(
    turn: TurnProgress,
    documents: Seq<JsonTree>,
    deltas: Seq<Seq<char>>,
)
    requires
        documents.len() == deltas.len(),
        forall|i: int|
            0 <= i < documents.len() ==> {
                let document = #[trigger] documents[i];
                let params = document->Object_0["params"@]->Object_0;
                &&& is_notification_of(turn, document, "item/agentMessage/delta"@, params)
                &&& params.contains_key("delta"@)
                &&& params["delta"@] == JsonTree::Text(deltas[i])
            },
    ensures
        after_notifications(turn, documents).text == turn.text + deltas.fold_left(
            Seq::<char>::empty(),
            |text: Seq<char>, delta: Seq<char>| text + delta,
        ),
        after_notifications(turn, documents).thread_id == turn.thread_id,
        after_notifications(turn, documents).turn_id == turn.turn_id,
    decreases documents.len(),
{
    let glue = |text: Seq<char>, delta: Seq<char>| text + delta;
    if documents.len() == 0 {
        assert(turn.text + Seq::<char>::empty() =~= turn.text);
    } else {
        let rest = documents.drop_last();
        let before = after_notifications(turn, rest);
        assert forall|i: int| 0 <= i < rest.len() implies ({
            let document = #[trigger] rest[i];
            let params = document->Object_0["params"@]->Object_0;
            &&& is_notification_of(turn, document, "item/agentMessage/delta"@, params)
            &&& params.contains_key("delta"@)
            &&& params["delta"@] == JsonTree::Text(deltas.drop_last()[i])
        }) by {
            assert(rest[i] == documents[i]);
        }
        law_text_is_what_the_worker_sent(turn, rest, deltas.drop_last());
        let document = documents[documents.len() - 1];
        let params = document->Object_0["params"@]->Object_0;
        law_delta_is_passed_on_as_it_came(before, document, params, deltas.last());
        assert(turn.text + deltas.drop_last().fold_left(Seq::<char>::empty(), glue)
            + deltas.last() =~= turn.text + deltas.fold_left(Seq::<char>::empty(), glue));
    }
}

/// A finished message that goes on where the text of the turn ends brings what is missing: the
/// reader gets exactly that, and the text of the turn is the message. One that does not go on
/// from there changes nothing.
pub proof fn law_finished_message_brings_the_rest(
    turn: TurnProgress,
    document: JsonTree,
    params: Map<Seq<char>, JsonTree>,
    item: Map<Seq<char>, JsonTree>,
    whole: Seq<char>,
    rest: Seq<char>,
)
    requires
        is_notification_of(turn, document, "item/completed"@, params),
        params.contains_key("item"@),
        params["item"@] == JsonTree::Object(item),
        item.contains_key("type"@),
        item["type"@] == JsonTree::Text("agentMessage"@),
        item.contains_key("text"@),
        item["text"@] == JsonTree::Text(whole),
    ensures
        ({
            let (after, step) = after_notification(turn, document);
            &&& whole == turn.text + rest && rest.len() > 0 ==> step == BackendStepModel::Delta(
                rest,
            ) && after.text == whole
            &&& whole == turn.text || !(exists|missing: Seq<char>| whole == #[trigger] (turn.text
                + missing)) ==> step is Quiet && after == turn
            &&& after.usage == turn.usage
            &&& after.finished == turn.finished
        }),
{
    lemma_methods_differ();
    text::law_beginnings_and_ends(whole, turn.text, rest);
    assert((turn.text + rest).skip(turn.text.len() as int) =~= rest);
}

/// A report on tokens sets what it names, and leaves the text.
pub proof fn law_token_report_sets_the_usage(
    turn: TurnProgress,
    document: JsonTree,
    params: Map<Seq<char>, JsonTree>,
    usage: Map<Seq<char>, JsonTree>,
    last: Map<Seq<char>, JsonTree>,
    input: u64,
    output: u64,
)
    requires
        is_notification_of(turn, document, "thread/tokenUsage/updated"@, params),
        params.contains_key("tokenUsage"@),
        params["tokenUsage"@] == JsonTree::Object(usage),
        usage.contains_key("last"@),
        usage["last"@] == JsonTree::Object(last),
        last.contains_key("inputTokens"@),
        last["inputTokens"@] == JsonTree::Number(JsonNumber::Unsigned(input)),
        last.contains_key("outputTokens"@),
        last["outputTokens"@] == JsonTree::Number(JsonNumber::Unsigned(output)),
    ensures
        ({
            let (after, step) = after_notification(turn, document);
            &&& step is Quiet
            &&& after.usage.input_tokens == input
            &&& after.usage.output_tokens == output
            &&& after.text == turn.text
            &&& after.finished == turn.finished
        }),
{
    lemma_methods_differ();
}

/// The end of a turn brings its whole text and its usage; an error ends it with what was said,
/// the error among it.
pub proof fn law_end_of_a_turn(
    turn: TurnProgress,
    document: JsonTree,
    params: Map<Seq<char>, JsonTree>,
)
    ensures
        is_notification_of(turn, document, "turn/completed"@, params) ==> {
            let (after, step) = after_notification(turn, document);
            &&& after.finished
            &&& after.text == turn.text
            &&& step == (BackendStepModel::Completed { text: turn.text, usage: turn.usage })
        },
        is_notification_of(turn, document, "error"@, params) ==> {
            let (after, step) = after_notification(turn, document);
            &&& after.finished
            &&& step is Said
            &&& step->Said_stdout == turn.text
            &&& step->Said_stderr == joined(turn.recent_stderr, "\n"@) + "\n"@ + compact_text(
                document,
            )
        },
{
    lemma_methods_differ();
}

/// A notification that names another thread, or another turn, leaves a turn as it was.
pub proof fn law_other_turns_are_left_alone(
    turn: TurnProgress,
    document: JsonTree,
    params: Map<Seq<char>, JsonTree>,
    name: Seq<char>,
)
    requires
        document is Object,
        document->Object_0.contains_key("params"@),
        document->Object_0["params"@] == JsonTree::Object(params),
        (name != turn.thread_id && params.contains_key("threadId"@) && params["threadId"@]
            == JsonTree::Text(name)) || (name != turn.turn_id && params.contains_key("turnId"@)
            && params["turnId"@] == JsonTree::Text(name)),
    ensures
        after_notification(turn, document) == (turn, BackendStepModel::Quiet),
{
}

/// The reply to a request is the one with its number: its result is handed on, or its error,
/// behind what the worker wrote to its error output.
pub proof fn law_reply_to_a_request(
    id: u64,
    stderr_lines: Seq<Seq<char>>,
    kept: Seq<JsonTree>,
    reply: Map<Seq<char>, JsonTree>,
    error: Map<Seq<char>, JsonTree>,
    message: Seq<char>,
)
    requires
        reply.contains_key("id"@),
        reply["id"@] == JsonTree::Number(JsonNumber::Unsigned(id)),
    ensures
        ({
            let (after, step) = after_reply(id, stderr_lines, kept, JsonTree::Object(reply));
            &&& after == kept
            &&& reply.contains_key("result"@) ==> step == RequestStepModel::Done(reply["result"@])
            &&& !reply.contains_key("result"@) && reply.contains_key("error"@) && reply["error"@]
                == JsonTree::Object(error) && error.contains_key("message"@) && error["message"@]
                == JsonTree::Text(message) ==> step == RequestStepModel::Said(
                joined(stderr_lines, "\n"@) + "\n"@ + message,
            )
        }),
{
}

/// A document with another number is no reply to a request.
pub proof fn law_other_replies_are_passed_over(
    id: u64,
    stderr_lines: Seq<Seq<char>>,
    kept: Seq<JsonTree>,
    document: JsonTree,
)
    requires
        document.unsigned_member("id"@) != Some(id),
    ensures
        ({
            let (after, step) = after_reply(id, stderr_lines, kept, document);
            &&& step is Wait
            &&& document.text_member("method"@) is Some ==> after == kept.push(document)
            &&& document.text_member("method"@) is None ==> after == kept
        }),
{
}

/// What a request says: its number, its method and its parameters.
pub proof fn law_request_says_what_is_called(id: u64, method: Seq<char>, params: JsonTree)
    ensures
        request_tree(id, method, params).unsigned_member("id"@) == Some(id),
        request_tree(id, method, params).text_member("method"@) == Some(method),
        request_tree(id, method, params).member("params"@) == Some(params),
        request_tree(id, method, params).text_member("jsonrpc"@) == Some("2.0"@),
{
    reveal_strlit("jsonrpc");
    reveal_strlit("id");
    reveal_strlit("method");
    reveal_strlit("params");
    assert("jsonrpc"@.len() == 7);
    assert("id"@.len() == 2);
    assert("method"@.len() == 6);
    assert("params"@.len() == 6);
    assert("method"@[0] == 'm');
    assert("params"@[0] == 'p');
}

/// A thread is started with the working directory and the model of the turn, and with the
/// sandbox and the approval policy of the proxy; the turn in it with the thread and the prompt.
pub proof fn law_turn_is_started_as_it_was_asked_for(
    turn: TurnModel,
    settings: ProxySettings,
    thread_id: Seq<char>,
)
    ensures
        ({
            let thread = thread_start_tree(turn, settings);
            &&& thread.text_member("cwd"@) == Some(turn.cwd)
            &&& thread.text_member("model"@) == Some(turn.resolved_model)
            &&& thread.text_member("sandbox"@) == Some(settings.sandbox)
            &&& thread.text_member("approvalPolicy"@) == Some(settings.approval_policy)
            &&& thread.text_member("personality"@) == Some("pragmatic"@)
            &&& thread.member("ephemeral"@) == Some(JsonTree::Bool(true))
        }),
        ({
            let started = turn_start_tree(thread_id, turn);
            let input = started.member("input"@);
            &&& started.text_member("threadId"@) == Some(thread_id)
            &&& input is Some
            &&& input->0 is Array
            &&& input->0->Array_0.len() == 1
            &&& input->0->Array_0[0].text_member("type"@) == Some("text"@)
            &&& input->0->Array_0[0].text_member("text"@) == Some(
                joined(prompt_lines(turn), "\n"@),
            )
        }),
{
    reveal_strlit("cwd");
    reveal_strlit("model");
    reveal_strlit("sandbox");
    reveal_strlit("approvalPolicy");
    reveal_strlit("personality");
    reveal_strlit("ephemeral");
    reveal_strlit("input");
    reveal_strlit("threadId");
    reveal_strlit("type");
    reveal_strlit("text");
    assert("cwd"@.len() == 3);
    assert("model"@.len() == 5);
    assert("sandbox"@.len() == 7);
    assert("approvalPolicy"@.len() == 14);
    assert("personality"@.len() == 11);
    assert("ephemeral"@.len() == 9);
    assert("input"@.len() == 5);
    assert("threadId"@.len() == 8);
    assert("type"@[1] == 'y');
    assert("text"@[1] == 'e');
}

/// The identifier that a reply brings is the one in the named member.
pub proof fn law_identifier_of_a_reply(
    reply: Map<Seq<char>, JsonTree>,
    name: Seq<char>,
    found: Map<Seq<char>, JsonTree>,
    id: Seq<char>,
)
    requires
        reply.contains_key(name),
        reply[name] == JsonTree::Object(found),
    ensures
        reply_id(JsonTree::Object(reply), name) == Some(id) <==> found.contains_key("id"@)
            && found["id"@] == JsonTree::Text(id),
{
}

/// A turn of which nothing was read has no text, no usage and no end, and is the one that was
/// started.
pub proof fn law_new_turn_is_empty(thread_id: Seq<char>, turn_id: Seq<char>)
    ensures
        new_turn(thread_id, turn_id).text.len() == 0,
        new_turn(thread_id, turn_id).usage.input_tokens == 0,
        new_turn(thread_id, turn_id).usage.output_tokens == 0,
        !new_turn(thread_id, turn_id).finished,
        new_turn(thread_id, turn_id).recent_stderr.len() == 0,
        new_turn(thread_id, turn_id).thread_id == thread_id,
        new_turn(thread_id, turn_id).turn_id == turn_id,
{
}

/// What the worker writes to its error output is kept, unless it is blank, and never read as a
/// notification.
pub proof fn law_error_output_is_kept(turn: TurnProgress, line: String)
    ensures
        ({
            let (after, step) = after_worker_line(turn, BackendLine::Stderr(line));
            &&& step is Quiet
            &&& after.text == turn.text
            &&& after.usage == turn.usage
            &&& trimmed(line@).len() > 0 ==> after.recent_stderr == turn.recent_stderr.push(line@)
            &&& trimmed(line@).len() == 0 ==> after.recent_stderr == turn.recent_stderr
        }),
        parsed_text(line@) is Some ==> after_worker_line(turn, BackendLine::Stdout(line))
            == after_notification(turn, parsed_text(line@)->0),
        parsed_text(line@) is None ==> after_worker_line(turn, BackendLine::Stdout(line)) == (
            turn,
            BackendStepModel::Quiet,
        ),
{
}

/// A worker is told the name and the version of its client.
pub proof fn law_worker_is_told_its_client(version: Seq<char>)
    ensures
        initialize_tree(version).member("clientInfo"@) is Some,
        initialize_tree(version).member("clientInfo"@)->0.text_member("name"@) == Some(
            "codex-pool"@,
        ),
        initialize_tree(version).member("clientInfo"@)->0.text_member("version"@) == Some(version),
{
    reveal_strlit("name");
    reveal_strlit("version");
    assert("name"@.len() == 4);
    assert("version"@.len() == 7);
}

/// What is read of a turn, and what it calls for, is what it holds.
pub proof fn law_turn_is_read_as_it_is(turn: BackendTurn, step: BackendStep)
    ensures
        turn@.thread_id == turn.thread_id@,
        turn@.turn_id == turn.turn_id@,
        turn@.text == turn.text@,
        turn@.usage == turn.usage,
        turn@.finished == turn.finished,
        turn@.recent_stderr.len() == turn.recent_stderr@.len(),
        forall|i: int|
            0 <= i < turn.recent_stderr@.len() ==> #[trigger] turn@.recent_stderr[i]
                == turn.recent_stderr@[i]@,
        step@ is Delta <==> step is Delta,
        step is Delta ==> step@->Delta_0 == step->Delta_0@,
        step@ is Completed <==> step is Completed,
        step is Completed ==> step@->text == step->Completed_0.text@ && step@->usage
            == step->Completed_0.usage,
        step@ is Said <==> step is Said,
        step is Said ==> step@->stdout == step->stdout@ && step@->stderr == step->stderr@,
        step@ is Failed <==> step is Failed,
        step is Failed ==> step@->message == step->Failed_0.message@ && step@->kind
            == step->Failed_0.kind,
        step@ is Quiet <==> step is Quiet,
        step@ is Read <==> step is Read,
        step@ is Ended <==> step is Ended,
{
}

/// A notification without parameters is of this turn: the end of the turn ends it all the same,
/// and a piece of text that is not there brings nothing.
pub proof fn law_notification_without_parameters(
    turn: TurnProgress,
    document: Map<Seq<char>, JsonTree>,
    method: Seq<char>,
)
    requires
        document.contains_key("method"@),
        document["method"@] == JsonTree::Text(method),
        !document.contains_key("params"@),
    ensures
        ({
            let (after, step) = after_notification(turn, JsonTree::Object(document));
            &&& method == "turn/completed"@ ==> after.finished && step
                == (BackendStepModel::Completed { text: turn.text, usage: turn.usage })
            &&& method == "error"@ ==> after.finished && step is Said
            &&& method != "turn/completed"@ && method != "error"@ ==> after == turn && step
                is Quiet
            &&& after.text == turn.text
        }),
{
    lemma_methods_differ();
}

/// What a document does that is no notification, or one of a method that is not read: nothing.
pub proof fn law_other_notifications_do_nothing(turn: TurnProgress, document: JsonTree)
    ensures
        ({
            let method = document.text_member("method"@);
            method is None || (method->0 != "item/agentMessage/delta"@ && method->0
                != "item/completed"@ && method->0 != "thread/tokenUsage/updated"@ && method->0
                != "turn/completed"@ && method->0 != "error"@) ==> after_notification(
                turn,
                document,
            ) == (turn, BackendStepModel::Quiet)
        }),
{
}

/// A report on tokens that names but one of the two numbers leaves the other as it was.
pub proof fn law_token_report_keeps_what_it_does_not_name(
    turn: TurnProgress,
    document: JsonTree,
    params: Map<Seq<char>, JsonTree>,
    usage: Map<Seq<char>, JsonTree>,
    last: Map<Seq<char>, JsonTree>,
)
    requires
        is_notification_of(turn, document, "thread/tokenUsage/updated"@, params),
        params.contains_key("tokenUsage"@),
        params["tokenUsage"@] == JsonTree::Object(usage),
        usage.contains_key("last"@),
        usage["last"@] == JsonTree::Object(last),
    ensures
        ({
            let (after, step) = after_notification(turn, document);
            &&& !last.contains_key("inputTokens"@) ==> after.usage.input_tokens
                == turn.usage.input_tokens
            &&& !last.contains_key("outputTokens"@) ==> after.usage.output_tokens
                == turn.usage.output_tokens
            &&& last.contains_key("inputTokens"@) && last["inputTokens"@] is Number
                && last["inputTokens"@]->Number_0 is Unsigned ==> after.usage.input_tokens
                == last["inputTokens"@]->Number_0->Unsigned_0
            &&& last.contains_key("outputTokens"@) && last["outputTokens"@] is Number
                && last["outputTokens"@]->Number_0 is Unsigned ==> after.usage.output_tokens
                == last["outputTokens"@]->Number_0->Unsigned_0
        }),
{
    lemma_methods_differ();
}

} // verus!
