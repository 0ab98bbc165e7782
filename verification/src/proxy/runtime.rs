//! One turn by `codex exec`: the prompt, the command line, and what is read from
//! the output of the command.

use crate::json;
use crate::json::{parsed_text, value_tree, JsonTree};
use crate::proxy::{
    MessageModel, ProxyRole, ProxyTurnMessage, ProxyTurnRequest, ResolvedProxyConfig, TurnModel,
};
use crate::text;
use crate::text::{
    begins_with, contains_text, cuts_cleanly, joined, lowered, text_view, texts, trimmed,
};
use crate::utils::{truncate_for_error, truncated};
use serde_json::Value;
use vstd::prelude::*;

verus! {

/// The tokens of a turn.
#[derive(Debug, Clone, Copy, PartialEq, Eq, Structural)]
pub struct RuntimeUsage {
    pub input_tokens: u64,
    pub output_tokens: u64,
}

impl Default for RuntimeUsage {
    fn default() -> (r: RuntimeUsage)
        ensures
            r.input_tokens == 0,
            r.output_tokens == 0,
    {
        RuntimeUsage { input_tokens: 0, output_tokens: 0 }
    }
}

/// A finished turn.
#[derive(Debug, Clone)]
pub struct RuntimeSuccess {
    pub text: String,
    pub usage: RuntimeUsage,
}

/// Whether a failed turn may be tried with another account.
#[derive(Debug, Clone, Copy, PartialEq, Eq, Structural)]
pub enum RuntimeErrorKind {
    Retriable,
    Fatal,
}

/// A failed turn.
#[derive(Debug, Clone)]
pub struct RuntimeError {
    pub message: String,
    pub kind: RuntimeErrorKind,
}

impl RuntimeError {
    /// A failure that no other account would mend.
    pub fn fatal(message: &str) -> (r: RuntimeError)
        ensures
            r.message@ == message@,
            r.kind == RuntimeErrorKind::Fatal,
    {
        RuntimeError { message: message.to_owned(), kind: RuntimeErrorKind::Fatal }
    }
}

/// What a turn brings while it runs.
#[derive(Debug, Clone)]
pub enum RuntimeEvent {
    TextDelta(String),
    Completed(RuntimeSuccess),
}

// ---------------------------------------------------------------------------
// The prompt
// ---------------------------------------------------------------------------
/// The name of a role in a prompt.
pub open spec fn role_name(role: ProxyRole) -> Seq<char> {
    match role {
        ProxyRole::System => "system"@,
        ProxyRole::User => "user"@,
        ProxyRole::Assistant => "assistant"@,
    }
}

/// A message in a prompt.
pub open spec fn message_text(message: MessageModel) -> Seq<char> {
    "["@ + role_name(message.role) + "]\n"@ + message.content
}

/// A message in a prompt: who said it, and below that what was said.
pub fn format_message(message: &ProxyTurnMessage) -> (r: String)
    ensures
        r@ == message_text(message@),
{
    let role = match message.role {
        ProxyRole::System => "system",
        ProxyRole::User => "user",
        ProxyRole::Assistant => "assistant",
    };
    let mut out = "[".to_owned();
    out.append(role);
    out.append("]\n");
    out.append(message.content.as_str());
    out
}

/// The lines of a prompt before the conversation.
pub open spec fn prompt_head(turn: TurnModel) -> Seq<Seq<char>> {
    let opening = seq![
        "You are serving a local API compatibility request through Codex CLI."@,
        "Answer the conversation directly as the assistant."@,
        "Return only the assistant response text."@,
    ];
    let instructed = match turn.system_prompt {
        Some(system_prompt) => opening.push(Seq::empty()).push("System prompt:"@).push(
            system_prompt,
        ),
        None => opening,
    };
    instructed.push(Seq::empty()).push("Conversation:"@)
}

/// The lines of a prompt: what is expected, the system prompt where there is one,
/// and the conversation.
pub open spec fn prompt_lines(turn: TurnModel) -> Seq<Seq<char>> {
    prompt_head(turn) + turn.messages.map_values(|message: MessageModel| message_text(message))
}

/// The prompt of a turn.
pub fn build_prompt(request: &ProxyTurnRequest) -> (r: String)
    ensures
        r@ == joined(prompt_lines(request@), "\n"@),
{
    let mut lines: Vec<String> = Vec::new();
    lines.push("You are serving a local API compatibility request through Codex CLI.".to_owned());
    lines.push("Answer the conversation directly as the assistant.".to_owned());
    lines.push("Return only the assistant response text.".to_owned());
    if let Some(system_prompt) = &request.system_prompt {
        lines.push(String::new());
        lines.push("System prompt:".to_owned());
        lines.push(system_prompt.clone());
    }
    lines.push(String::new());
    lines.push("Conversation:".to_owned());
    let ghost head = prompt_head(request@);
    let ghost told = request@.messages.map_values(|message: MessageModel| message_text(message));
    assert(texts(lines@) =~= head);
    let mut i: usize = 0;
    assert(head + told.take(0) =~= head);
    while i < request.messages.len()
        invariant
            0 <= i <= request.messages@.len(),
            head == prompt_head(request@),
            told == request@.messages.map_values(|message: MessageModel| message_text(message)),
            texts(lines@) == head + told.take(i as int),
        decreases request.messages@.len() - i,
    {
        let ghost before = texts(lines@);
        let line = format_message(&request.messages[i]);
        assert(line@ == told[i as int]);
        lines.push(line);
        assert(texts(lines@) =~= before.push(told[i as int]));
        assert(texts(lines@) =~= head + told.take(i + 1));
        i = i + 1;
    }
    assert(told.take(i as int) =~= told);
    text::join(&lines, "\n")
}

/// The arguments of `codex exec`, on either side of the working directory.
#[derive(Debug)]
pub struct ExecArguments {
    pub before_cwd: Vec<String>,
    pub after_cwd: Vec<String>,
}

/// The arguments of `codex exec` for a turn: the working directory of the turn goes
/// between the two parts.
pub fn exec_arguments(request: &ProxyTurnRequest, config: &ResolvedProxyConfig) -> (r:
    ExecArguments)
    ensures
        texts(r.before_cwd@) == seq![
            "-a"@,
            config@.approval_policy,
            "-s"@,
            config@.sandbox,
            "exec"@,
            "--json"@,
            "--skip-git-repo-check"@,
            "-C"@,
        ],
        texts(r.after_cwd@) == seq![
            "--model"@,
            request@.resolved_model,
            joined(prompt_lines(request@), "\n"@),
        ],
{
    let mut before_cwd: Vec<String> = Vec::new();
    before_cwd.push("-a".to_owned());
    before_cwd.push(config.approval_policy.clone());
    before_cwd.push("-s".to_owned());
    before_cwd.push(config.sandbox.clone());
    before_cwd.push("exec".to_owned());
    before_cwd.push("--json".to_owned());
    before_cwd.push("--skip-git-repo-check".to_owned());
    before_cwd.push("-C".to_owned());
    let mut after_cwd: Vec<String> = Vec::new();
    after_cwd.push("--model".to_owned());
    after_cwd.push(request.resolved_model.clone());
    after_cwd.push(build_prompt(request));
    assert(texts(before_cwd@) =~= seq![
        "-a"@,
        config@.approval_policy,
        "-s"@,
        config@.sandbox,
        "exec"@,
        "--json"@,
        "--skip-git-repo-check"@,
        "-C"@,
    ]);
    assert(texts(after_cwd@) =~= seq![
        "--model"@,
        request@.resolved_model,
        joined(prompt_lines(request@), "\n"@),
    ]);
    ExecArguments { before_cwd, after_cwd }
}

// ---------------------------------------------------------------------------
// Failures
// ---------------------------------------------------------------------------
/// What a command said, on both channels.
pub open spec fn combined_output(stdout: Seq<char>, stderr: Seq<char>) -> Seq<char> {
    stdout + "\n"@ + stderr
}

/// Whether what a command said speaks of its account: another one may do better.
pub open spec fn blames_the_account(output: Seq<char>) -> bool {
    let lower = lowered(output);
    ||| contains_text(lower, "401"@)
    ||| contains_text(lower, "429"@)
    ||| contains_text(lower, "unauthorized"@)
    ||| contains_text(lower, "rate limit"@)
    ||| contains_text(lower, "usage_limit_exceeded"@)
    ||| contains_text(lower, "authorization expired"@)
    ||| contains_text(lower, "invalid refresh token"@)
    ||| contains_text(lower, "invalid_grant"@)
    ||| contains_text(lower, "token is expired"@)
    ||| contains_text(lower, "provided authentication token is expired"@)
    ||| contains_text(lower, "reauth_required"@)
    ||| contains_text(lower, "run codex login first"@)
}

/// What a command said, on both channels, and whether it speaks of its account.
pub(crate) fn read_failure(stdout: &str, stderr: &str) -> (r: (String, bool))
    ensures
        r.0@ == trimmed(combined_output(stdout@, stderr@)),
        r.1 == blames_the_account(combined_output(stdout@, stderr@)),
{
    let mut combined = stdout.to_owned();
    combined.append("\n");
    combined.append(stderr);
    let lower = text::lower(combined.as_str());
    let s = lower.as_str();
    let retriable = text::contains(s, "401") || text::contains(s, "429") || text::contains(
        s,
        "unauthorized",
    ) || text::contains(s, "rate limit") || text::contains(s, "usage_limit_exceeded")
        || text::contains(s, "authorization expired") || text::contains(s, "invalid refresh token")
        || text::contains(s, "invalid_grant") || text::contains(s, "token is expired")
        || text::contains(s, "provided authentication token is expired") || text::contains(
        s,
        "reauth_required",
    ) || text::contains(s, "run codex login first");
    (text::trim(combined.as_str()), retriable)
}

/// Whether the excerpt of what a command said ends between two characters.
pub open spec fn can_report(stdout: Seq<char>, stderr: Seq<char>) -> bool {
    cuts_cleanly(trimmed(combined_output(stdout, stderr)), 400)
}

/// Whether the excerpt of what a command said ends between two characters.
pub fn can_report_failure(stdout: &str, stderr: &str) -> (r: bool)
    ensures
        r == can_report(stdout@, stderr@),
{
    let (combined, _retriable) = read_failure(stdout, stderr);
    text::clean_cut(combined.as_str(), 400)
}

/// The excerpt of what a command said.
pub open spec fn failure_excerpt(stdout: Seq<char>, stderr: Seq<char>) -> Seq<char> {
    truncated(trimmed(combined_output(stdout, stderr)), 400)
}

/// The failure of a command that said `stdout` and `stderr`.
pub fn classify_runtime_error(stdout: &str, stderr: &str) -> (r: RuntimeError)
    requires
        can_report(stdout@, stderr@),
    ensures
        r.message@ == failure_excerpt(stdout@, stderr@),
        r.kind == if blames_the_account(combined_output(stdout@, stderr@)) {
            RuntimeErrorKind::Retriable
        } else {
            RuntimeErrorKind::Fatal
        },
{
    let (combined, retriable) = read_failure(stdout, stderr);
    RuntimeError {
        message: truncate_for_error(combined.as_str(), 400),
        kind: if retriable {
            RuntimeErrorKind::Retriable
        } else {
            RuntimeErrorKind::Fatal
        },
    }
}

// ---------------------------------------------------------------------------
// The output of the command
// ---------------------------------------------------------------------------
/// A line that the command wrote.
#[derive(Debug)]
pub enum RuntimeLine {
    Stdout(String),
    Stderr(String),
}

/// What was read of the output so far.
#[derive(Debug)]
pub struct ParseState {
    pub text: String,
    pub usage: RuntimeUsage,
    pub stderr_lines: Vec<String>,
}

/// What was read of the output so far.
pub struct ParseModel {
    pub text: Seq<char>,
    pub usage: RuntimeUsage,
    pub stderr_lines: Seq<Seq<char>>,
}

impl View for ParseState {
    type V = ParseModel;

    open spec fn view(&self) -> ParseModel {
        ParseModel {
            text: self.text@,
            usage: self.usage,
            stderr_lines: texts(self.stderr_lines@),
        }
    }
}

impl Default for ParseState {
    fn default() -> (r: ParseState)
        ensures
            r@.text.len() == 0,
            r.usage.input_tokens == 0,
            r.usage.output_tokens == 0,
            r@.stderr_lines.len() == 0,
    {
        ParseState {
            text: String::new(),
            usage: RuntimeUsage::default(),
            stderr_lines: Vec::new(),
        }
    }
}

/// The first that is there.
pub open spec fn first_found(a: Option<Seq<char>>, b: Option<Seq<char>>) -> Option<Seq<char>> {
    match a {
        Some(found) => Some(found),
        None => b,
    }
}

/// The text of a document: its member `text`, or its member `content`, or the
/// `text` of that.
pub open spec fn textish(tree: JsonTree) -> Option<Seq<char>> {
    first_found(
        tree.text_member("text"@),
        match tree.member("content"@) {
            Some(content) => first_found(content.text(), content.text_member("text"@)),
            None => None,
        },
    )
}

/// Whether the type of a document says that it is a delta.
pub open spec fn is_delta(tree: JsonTree) -> bool {
    match tree.text_member("type"@) {
        Some(name) => contains_text(name, "delta"@),
        None => false,
    }
}

/// The text of an optional document.
pub open spec fn optional_textish(tree: Option<JsonTree>) -> Option<Seq<char>> {
    match tree {
        Some(tree) => textish(tree),
        None => None,
    }
}

/// The text that a delta brings: that of its member `delta`, of the `delta` of its
/// item, of its item where that is a delta, or its own.
pub open spec fn text_delta(tree: JsonTree) -> Option<Seq<char>> {
    if !is_delta(tree) {
        None
    } else {
        let own = optional_textish(tree.member("delta"@));
        let of_item = match tree.member("item"@) {
            Some(item) => first_found(
                optional_textish(item.member("delta"@)),
                if is_delta(item) {
                    textish(item)
                } else {
                    None
                },
            ),
            None => None,
        };
        first_found(first_found(own, of_item), textish(tree))
    }
}

/// The whole text that a finished message brings.
pub open spec fn completed_text(tree: JsonTree) -> Option<Seq<char>> {
    if tree.text_member("type"@) != Some("item.completed"@) {
        None
    } else {
        match tree.member("item"@) {
            Some(item) => if item.text_member("type"@) == Some("agent_message"@) {
                item.text_member("text"@)
            } else {
                None
            },
            None => None,
        }
    }
}

/// A number, or zero.
pub open spec fn number_or(value: Option<u64>, default: u64) -> u64 {
    match value {
        Some(value) => value,
        None => default,
    }
}

/// The usage after a document: that of a finished turn where it names one.
pub open spec fn usage_after(usage: RuntimeUsage, tree: JsonTree) -> RuntimeUsage {
    if tree.text_member("type"@) == Some("turn.completed"@) && tree.member("usage"@) is Some {
        let told = tree.member("usage"@)->0;
        RuntimeUsage {
            input_tokens: number_or(told.unsigned_member("input_tokens"@), 0),
            output_tokens: number_or(told.unsigned_member("output_tokens"@), 0),
        }
    } else {
        usage
    }
}

/// What is read after a document, and the text that it brings to the reader. A
/// delta is appended. A finished message that continues what was read brings the
/// rest of it; one that does not brings nothing.
pub open spec fn after_document(state: ParseModel, tree: JsonTree) -> (
    ParseModel,
    Option<Seq<char>>,
) {
    let delta = text_delta(tree);
    let whole = completed_text(tree);
    if delta is Some && delta->0.len() > 0 {
        (ParseModel { text: state.text + delta->0, ..state }, delta)
    } else if whole is Some && begins_with(whole->0, state.text) && whole->0.len()
        > state.text.len() {
        (
            ParseModel { text: whole->0, ..state },
            Some(whole->0.skip(state.text.len() as int)),
        )
    } else {
        (ParseModel { usage: usage_after(state.usage, tree), ..state }, None)
    }
}

/// The document that a line holds, if it holds one.
pub open spec fn line_document(line: Seq<char>) -> Option<JsonTree> {
    if begins_with(trimmed(line), "{"@) {
        parsed_text(trimmed(line))
    } else {
        None
    }
}

/// What is read after a line, and the text that it brings to the reader.
pub open spec fn after_line(state: ParseModel, line: Seq<char>) -> (ParseModel, Option<Seq<char>>) {
    match line_document(line) {
        Some(tree) => after_document(state, tree),
        None => (state, None),
    }
}

/// The text that an event brings, where it is a delta.
pub open spec fn event_delta(event: Option<Result<RuntimeEvent, RuntimeError>>) -> Option<
    Seq<char>,
> {
    match event {
        Some(Ok(RuntimeEvent::TextDelta(delta))) => Some(delta@),
        _ => None,
    }
}

/// Whether an event is a delta, if there is one.
pub open spec fn is_delta_event(event: Option<Result<RuntimeEvent, RuntimeError>>) -> bool {
    match event {
        Some(Ok(RuntimeEvent::TextDelta(_))) => true,
        None => true,
        _ => false,
    }
}

/// What reaches the reader is what was read: the text before, followed by what the
/// line brings, is the text after. Nothing empty is brought.
pub proof fn law_deltas_add_up(state: ParseModel, line: Seq<char>)
    ensures
        ({
            let (after, delta) = after_line(state, line);
            &&& after.text == state.text + match delta {
                Some(delta) => delta,
                None => Seq::empty(),
            }
            &&& delta is Some ==> delta->0.len() > 0
            &&& after.stderr_lines == state.stderr_lines
        }),
{
    let (after, delta) = after_line(state, line);
    assert(state.text + Seq::<char>::empty() =~= state.text);
    if let Some(tree) = line_document(line) {
        let whole = completed_text(tree);
        if whole is Some && begins_with(whole->0, state.text) {
            assert(whole->0 =~= whole->0.take(state.text.len() as int) + whole->0.skip(
                state.text.len() as int,
            ));
        }
    }
}

/// The text of a document.
pub fn extract_textish(value: &Value) -> (r: Option<String>)
    ensures
        text_view(r) == textish(value_tree(*value)),
{
    if let Some(text) = json::get_str(value, "text") {
        return Some(text.to_owned());
    }
    match json::get(value, "content") {
        Some(content) => match json::as_str(content) {
            Some(text) => Some(text.to_owned()),
            None => text::owned(json::get_str(content, "text")),
        },
        None => None,
    }
}

/// Whether the type of a document says that it is a delta.
fn has_delta_type(value: &Value) -> (r: bool)
    ensures
        r == is_delta(value_tree(*value)),
{
    match json::get_str(value, "type") {
        Some(name) => text::contains(name, "delta"),
        None => false,
    }
}

/// The text that a delta brings.
pub fn extract_text_delta(value: &Value) -> (r: Option<String>)
    ensures
        text_view(r) == text_delta(value_tree(*value)),
{
    if !has_delta_type(value) {
        return None;
    }
    if let Some(delta) = json::get(value, "delta") {
        if let Some(text) = extract_textish(delta) {
            return Some(text);
        }
    }
    if let Some(item) = json::get(value, "item") {
        if let Some(delta) = json::get(item, "delta") {
            if let Some(text) = extract_textish(delta) {
                return Some(text);
            }
        }
        if has_delta_type(item) {
            if let Some(text) = extract_textish(item) {
                return Some(text);
            }
        }
    }
    extract_textish(value)
}

/// Whether the type of a document is `name`.
fn has_type(value: &Value, name: &str) -> (r: bool)
    ensures
        r == (value_tree(*value).text_member("type"@) == Some(name@)),
{
    match json::get_str(value, "type") {
        Some(found) => text::same(found, name),
        None => false,
    }
}

/// The whole text that a finished message brings.
pub fn extract_completed_text(value: &Value) -> (r: Option<String>)
    ensures
        text_view(r) == completed_text(value_tree(*value)),
{
    if !has_type(value, "item.completed") {
        return None;
    }
    match json::get(value, "item") {
        Some(item) => if has_type(item, "agent_message") {
            text::owned(json::get_str(item, "text"))
        } else {
            None
        },
        None => None,
    }
}

/// A number, or zero.
fn number_or_zero(value: Option<u64>) -> (r: u64)
    ensures
        r == number_or(value, 0),
{
    match value {
        Some(value) => value,
        None => 0,
    }
}

/// Takes in a document that the command wrote.
pub fn process_document(value: &Value, state: &mut ParseState) -> (r: Option<
    Result<RuntimeEvent, RuntimeError>,
>)
    ensures
        (final(state)@, event_delta(r)) == after_document(old(state)@, value_tree(*value)),
        is_delta_event(r),
{
    if let Some(delta) = extract_text_delta(value) {
        if !delta.as_str().is_empty() {
            state.text.append(delta.as_str());
            return Some(Ok(RuntimeEvent::TextDelta(delta)));
        }
    }
    if let Some(whole) = extract_completed_text(value) {
        if let Some(delta) = text::after_prefix(whole.as_str(), state.text.as_str()) {
            if !delta.as_str().is_empty() {
                state.text = whole;
                return Some(Ok(RuntimeEvent::TextDelta(delta)));
            }
        }
    }
    if has_type(value, "turn.completed") {
        if let Some(usage) = json::get(value, "usage") {
            state.usage = RuntimeUsage {
                input_tokens: number_or_zero(json::get_u64(usage, "input_tokens")),
                output_tokens: number_or_zero(json::get_u64(usage, "output_tokens")),
            };
        }
    }
    None
}

/// Takes in a line that the command wrote to its output.
pub fn process_stdout_line(line: &str, state: &mut ParseState) -> (r: Option<
    Result<RuntimeEvent, RuntimeError>,
>)
    ensures
        (final(state)@, event_delta(r)) == after_line(old(state)@, line@),
        is_delta_event(r),
{
    let line = text::trim(line);
    if !text::starts_with(line.as_str(), "{") {
        return None;
    }
    match json::parse(line.as_str()) {
        Some(value) => process_document(&value, state),
        None => None,
    }
}

/// Takes in a line that the command wrote.
pub fn process_line(line: RuntimeLine, state: &mut ParseState) -> (r: Option<
    Result<RuntimeEvent, RuntimeError>,
>)
    ensures
        match line {
            RuntimeLine::Stdout(line) => (final(state)@, event_delta(r)) == after_line(
                old(state)@,
                line@,
            ) && is_delta_event(r),
            RuntimeLine::Stderr(line) => r is None && final(state)@ == (ParseModel {
                stderr_lines: old(state)@.stderr_lines.push(line@),
                ..old(state)@
            }),
        },
{
    match line {
        RuntimeLine::Stdout(line) => process_stdout_line(line.as_str(), state),
        RuntimeLine::Stderr(line) => {
            let ghost before = texts(state.stderr_lines@);
            let ghost last = line@;
            state.stderr_lines.push(line);
            assert(texts(state.stderr_lines@) =~= before.push(last));
            None
        },
    }
}

// ---------------------------------------------------------------------------
// The end of the command
// ---------------------------------------------------------------------------
/// How the command ended.
#[derive(Debug)]
pub enum RuntimeExit {
    /// It could not be waited for: the error.
    Lost(String),
    Failed,
    Succeeded,
}

/// How a turn ends.
#[derive(Debug)]
pub enum RuntimeEnd {
    Completed(RuntimeSuccess),
    /// A failure that is known.
    Failed(RuntimeError),
    /// A failure that is read from what the command said.
    Said { stdout: String, stderr: String },
}

/// How a turn ends, with what was read of the output: with its text where the
/// command succeeded and wrote one, else with what it said.
pub fn finish_turn(state: ParseState, exit: RuntimeExit) -> (r: RuntimeEnd)
    ensures
        match exit {
            RuntimeExit::Lost(error) => match r {
                RuntimeEnd::Failed(failure) => failure.kind == RuntimeErrorKind::Fatal
                    && failure.message@ == "failed waiting for codex exec: "@ + error@,
                _ => false,
            },
            RuntimeExit::Failed => match r {
                RuntimeEnd::Said { stdout, stderr } => stdout@ == state@.text && stderr@ == joined(
                    state@.stderr_lines,
                    "\n"@,
                ),
                _ => false,
            },
            RuntimeExit::Succeeded => if trimmed(state@.text).len() == 0 {
                match r {
                    RuntimeEnd::Said { stdout, stderr } => stdout@.len() == 0 && stderr@ == joined(
                        state@.stderr_lines,
                        "\n"@,
                    ) + "\ncodex exec returned no assistant text"@,
                    _ => false,
                }
            } else {
                match r {
                    RuntimeEnd::Completed(success) => success.text@ == state@.text && success.usage
                        == state.usage,
                    _ => false,
                }
            },
        },
{
    match exit {
        RuntimeExit::Lost(error) => {
            let mut message = "failed waiting for codex exec: ".to_owned();
            message.append(error.as_str());
            RuntimeEnd::Failed(RuntimeError::fatal(message.as_str()))
        },
        RuntimeExit::Failed => {
            let stderr = text::join(&state.stderr_lines, "\n");
            RuntimeEnd::Said { stdout: state.text, stderr }
        },
        RuntimeExit::Succeeded => {
            if text::is_blank(state.text.as_str()) {
                let mut stderr = text::join(&state.stderr_lines, "\n");
                stderr.append("\ncodex exec returned no assistant text");
                return RuntimeEnd::Said { stdout: String::new(), stderr };
            }
            RuntimeEnd::Completed(RuntimeSuccess { text: state.text, usage: state.usage })
        },
    }
}

/// What a turn comes to, as its events are taken in one after the other.
#[derive(Debug)]
pub struct ExecutionResult {
    pub success: Option<RuntimeSuccess>,
}

impl ExecutionResult {
    /// The result before any event.
    pub fn new() -> (r: ExecutionResult)
        ensures
            r.success is None,
    {
        ExecutionResult { success: None }
    }

    /// Takes in an event. The first error ends the turn, and is handed back.
    pub fn take_in(&mut self, event: Result<RuntimeEvent, RuntimeError>) -> (r: Option<
        RuntimeError,
    >)
        ensures
            match event {
                Ok(RuntimeEvent::TextDelta(_)) => r is None && *final(self) == *old(self),
                Ok(RuntimeEvent::Completed(success)) => r is None && final(self).success == Some(
                    success,
                ),
                Err(error) => r == Some(error) && *final(self) == *old(self),
            },
    {
        match event {
            Ok(RuntimeEvent::TextDelta(_)) => None,
            Ok(RuntimeEvent::Completed(success)) => {
                self.success = Some(success);
                None
            },
            Err(error) => Some(error),
        }
    }

    /// The result after the last event.
    pub fn finish(self) -> (r: Result<RuntimeSuccess, RuntimeError>)
        ensures
            match (self.success, r) {
                (Some(success), Ok(finished)) => finished == success,
                (None, Err(error)) => error.kind == RuntimeErrorKind::Fatal && error.message@
                    == "codex exec finished without completion event"@,
                _ => false,
            },
    {
        match self.success {
            Some(success) => Ok(success),
            None => Err(RuntimeError::fatal("codex exec finished without completion event")),
        }
    }
}

// ---------------------------------------------------------------------------
// Laws
// ---------------------------------------------------------------------------
/// The prompt tells the conversation in its order, each message under the name of who said it,
/// as it was said. The system prompt, where there is one, stands before the conversation, and
/// what is expected before both.
pub proof fn law_prompt_tells_the_conversation(turn: TurnModel, k: int)
    requires
        0 <= k < turn.messages.len(),
    ensures
        ({
            let lines = prompt_lines(turn);
            let first = lines.len() - turn.messages.len();
            let name = match turn.messages[k].role {
                ProxyRole::System => "system"@,
                ProxyRole::User => "user"@,
                ProxyRole::Assistant => "assistant"@,
            };
            &&& first == if turn.system_prompt is Some {
                8int
            } else {
                5int
            }
            &&& lines[first + k] == "["@ + name + "]\n"@ + turn.messages[k].content
            &&& lines[first - 1] == "Conversation:"@
            &&& lines[first - 2].len() == 0
            &&& turn.system_prompt is Some ==> lines[5] == turn.system_prompt->0 && lines[4]
                == "System prompt:"@ && lines[3].len() == 0
            &&& lines[0] == "You are serving a local API compatibility request through Codex CLI."@
            &&& lines[1] == "Answer the conversation directly as the assistant."@
            &&& lines[2] == "Return only the assistant response text."@
        }),
{
}

/// The prompt ends with the last message.
pub proof fn law_prompt_ends_with_the_last_message(turn: TurnModel)
    requires
        turn.messages.len() > 0,
    ensures
        exists|front: Seq<char>|
            joined(prompt_lines(turn), "\n"@) == #[trigger] (front + "\n"@ + ("["@ + role_name(
                turn.messages.last().role,
            ) + "]\n"@ + turn.messages.last().content)),
{
    let lines = prompt_lines(turn);
    assert(lines.last() == message_text(turn.messages.last()));
    let front = joined(lines.drop_last(), "\n"@);
    assert(joined(lines, "\n"@) == front + "\n"@ + lines.last());
}

/// A failure is another account's chance exactly where what was said, on either channel and in
/// whatever letters, speaks of authority, of tokens or of limits.
pub proof fn law_failures_of_the_account(
    before: Seq<char>,
    shown: Seq<char>,
    after: Seq<char>,
    output: Seq<char>,
)
    ensures
        lowered(shown) == "401"@ || lowered(shown) == "429"@ || lowered(shown) == "unauthorized"@
            || lowered(shown) == "rate limit"@ || lowered(shown) == "usage_limit_exceeded"@
            || lowered(shown) == "authorization expired"@ || lowered(shown)
            == "invalid refresh token"@ || lowered(shown) == "invalid_grant"@ || lowered(shown)
            == "token is expired"@ || lowered(shown) == "provided authentication token is expired"@
            || lowered(shown) == "reauth_required"@ || lowered(shown) == "run codex login first"@
            ==> blames_the_account(before + shown + after),
        blames_the_account(output) ==> contains_text(lowered(output), "401"@) || contains_text(
            lowered(output),
            "429"@,
        ) || contains_text(lowered(output), "unauthorized"@) || contains_text(
            lowered(output),
            "rate limit"@,
        ) || contains_text(lowered(output), "usage_limit_exceeded"@) || contains_text(
            lowered(output),
            "authorization expired"@,
        ) || contains_text(lowered(output), "invalid refresh token"@) || contains_text(
            lowered(output),
            "invalid_grant"@,
        ) || contains_text(lowered(output), "token is expired"@) || contains_text(
            lowered(output),
            "reauth_required"@,
        ) || contains_text(lowered(output), "run codex login first"@) || contains_text(
            lowered(output),
            "provided authentication token is expired"@,
        ),
{
    text::law_phrase_in_any_letters(before, shown, after);
}

/// What a command said is all of it, first its output and then its errors.
pub proof fn law_both_channels_are_read(stdout: Seq<char>, stderr: Seq<char>, part: Seq<char>)
    ensures
        combined_output(stdout, stderr) == stdout + "\n"@ + stderr,
        contains_text(stdout, part) || contains_text(stderr, part) ==> contains_text(
            combined_output(stdout, stderr),
            part,
        ),
{
    let whole = combined_output(stdout, stderr);
    if contains_text(stdout, part) {
        let at = choose|at: int| text::stands_at(stdout, part, at);
        assert(whole.subrange(at, at + part.len()) =~= stdout.subrange(at, at + part.len()));
        assert(text::stands_at(whole, part, at));
    }
    if contains_text(stderr, part) {
        let at = choose|at: int| text::stands_at(stderr, part, at);
        let shift = stdout.len() + "\n"@.len();
        assert(whole.subrange(shift + at, shift + at + part.len()) =~= stderr.subrange(
            at,
            at + part.len(),
        ));
        assert(text::stands_at(whole, part, shift + at));
    }
}

/// A text that a document brings as a delta is appended as it came, and brought to the reader
/// as it came. It stands in the member `delta`; failing that, in the `delta` of the item; and
/// failing that, in the document itself.
pub proof fn law_delta_is_read_as_it_came(
    state: ParseModel,
    document: Map<Seq<char>, JsonTree>,
    kind: Seq<char>,
    holder: Map<Seq<char>, JsonTree>,
    item: Map<Seq<char>, JsonTree>,
    delta: Seq<char>,
)
    requires
        document.contains_key("type"@),
        document["type"@] == JsonTree::Text(kind),
        contains_text(kind, "delta"@),
        delta.len() > 0,
        holder.contains_key("text"@),
        holder["text"@] == JsonTree::Text(delta),
        ({
            ||| document.contains_key("delta"@) && document["delta"@] == JsonTree::Object(holder)
            ||| !document.contains_key("delta"@) && document.contains_key("item"@)
                && document["item"@] == JsonTree::Object(item) && item.contains_key("delta"@)
                && item["delta"@] == JsonTree::Object(holder)
            ||| !document.contains_key("delta"@) && !document.contains_key("item"@) && holder
                == document
        }),
    ensures
        ({
            let (after, brought) = after_document(state, JsonTree::Object(document));
            &&& brought == Some(delta)
            &&& after.text == state.text + delta
            &&& after.usage == state.usage
            &&& after.stderr_lines == state.stderr_lines
        }),
{
}

/// The types of documents that are no deltas.
proof fn lemma_no_delta_types()
    ensures
        !contains_text("item.completed"@, "delta"@),
        !contains_text("turn.completed"@, "delta"@),
        "item.completed"@ != "turn.completed"@,
{
    reveal_strlit("item.completed");
    reveal_strlit("turn.completed");
    reveal_strlit("delta");
    let wanted = "delta"@;
    assert forall|at: int| !text::stands_at("item.completed"@, wanted, at) by {
        if text::stands_at("item.completed"@, wanted, at) {
            assert("item.completed"@.subrange(at, at + 5)[0] == wanted[0]);
            assert("item.completed"@[at] == 'd');
        }
    }
    assert forall|at: int| !text::stands_at("turn.completed"@, wanted, at) by {
        if text::stands_at("turn.completed"@, wanted, at) {
            assert("turn.completed"@.subrange(at, at + 5)[0] == wanted[0]);
            assert("turn.completed"@[at] == 'd');
        }
    }
    assert("item.completed"@[0] != "turn.completed"@[0]);
}

/// A finished message that goes on where the text read so far ends brings what is missing,
/// exactly; any other finished message brings nothing.
pub proof fn law_finished_message_brings_what_is_missing(
    state: ParseModel,
    document: Map<Seq<char>, JsonTree>,
    item: Map<Seq<char>, JsonTree>,
    whole: Seq<char>,
    rest: Seq<char>,
)
    requires
        document.contains_key("type"@),
        document["type"@] == JsonTree::Text("item.completed"@),
        document.contains_key("item"@),
        document["item"@] == JsonTree::Object(item),
        item.contains_key("type"@),
        item["type"@] == JsonTree::Text("agent_message"@),
        item.contains_key("text"@),
        item["text"@] == JsonTree::Text(whole),
    ensures
        ({
            let (after, brought) = after_document(state, JsonTree::Object(document));
            &&& whole == state.text + rest && rest.len() > 0 ==> brought == Some(rest)
                && after.text == whole
            &&& whole == state.text || !(exists|missing: Seq<char>| whole == #[trigger] (
            state.text + missing)) ==> brought is None && after.text == state.text
            &&& after.usage == state.usage
        }),
{
    lemma_no_delta_types();
    text::law_beginnings_and_ends(whole, state.text, rest);
    assert((state.text + rest).skip(state.text.len() as int) =~= rest);
}

/// The end of a turn tells its tokens.
pub proof fn law_finished_turn_tells_its_tokens(
    state: ParseModel,
    document: Map<Seq<char>, JsonTree>,
    usage: Map<Seq<char>, JsonTree>,
    input: u64,
    output: u64,
)
    requires
        document.contains_key("type"@),
        document["type"@] == JsonTree::Text("turn.completed"@),
        document.contains_key("usage"@),
        document["usage"@] == JsonTree::Object(usage),
        usage.contains_key("input_tokens"@),
        usage["input_tokens"@] == JsonTree::Number(json::JsonNumber::Unsigned(input)),
        usage.contains_key("output_tokens"@),
        usage["output_tokens"@] == JsonTree::Number(json::JsonNumber::Unsigned(output)),
    ensures
        ({
            let (after, brought) = after_document(state, JsonTree::Object(document));
            &&& brought is None
            &&& after.text == state.text
            &&& after.usage.input_tokens == input
            &&& after.usage.output_tokens == output
        }),
{
    lemma_no_delta_types();
}

/// A line that does not begin with a brace, but for white space, brings nothing; any other is
/// read as the document that it holds.
pub proof fn law_lines_without_documents(state: ParseModel, line: Seq<char>)
    ensures
        trimmed(line).len() == 0 || trimmed(line)[0] != '{' ==> after_line(state, line) == (
            state,
            None::<Seq<char>>,
        ),
        trimmed(line).len() > 0 && trimmed(line)[0] == '{' && parsed_text(trimmed(line)) is Some
            ==> after_line(state, line) == after_document(state, parsed_text(trimmed(line))->0),
{
    reveal_strlit("{");
    if trimmed(line).len() > 0 {
        if trimmed(line)[0] == '{' {
            assert(trimmed(line).take(1) =~= "{"@);
        } else {
            assert(trimmed(line).take(1)[0] != "{"@[0]);
        }
    }
}

/// The text of a document stands in its member `text`; failing that, in `content`, as a text or
/// as the `text` of an object there.
pub proof fn law_where_a_text_stands(
    document: Map<Seq<char>, JsonTree>,
    content: Map<Seq<char>, JsonTree>,
    text: Seq<char>,
)
    ensures
        document.contains_key("text"@) && document["text"@] == JsonTree::Text(text) ==> textish(
            JsonTree::Object(document),
        ) == Some(text),
        !document.contains_key("text"@) && document.contains_key("content"@)
            && document["content"@] == JsonTree::Text(text) ==> textish(JsonTree::Object(document))
            == Some(text),
        !document.contains_key("text"@) && document.contains_key("content"@)
            && document["content"@] == JsonTree::Object(content) && content.contains_key("text"@)
            && content["text"@] == JsonTree::Text(text) ==> textish(JsonTree::Object(document))
            == Some(text),
        !document.contains_key("text"@) && !document.contains_key("content"@) ==> textish(
            JsonTree::Object(document),
        ) is None,
{
}

/// The item of a delta that is one itself brings its own text, where neither the document nor
/// the item has a delta with a text.
pub proof fn law_item_that_is_a_delta(
    state: ParseModel,
    document: Map<Seq<char>, JsonTree>,
    item: Map<Seq<char>, JsonTree>,
    kind: Seq<char>,
    item_kind: Seq<char>,
    delta: Seq<char>,
)
    requires
        document.contains_key("type"@),
        document["type"@] == JsonTree::Text(kind),
        contains_text(kind, "delta"@),
        !document.contains_key("delta"@),
        document.contains_key("item"@),
        document["item"@] == JsonTree::Object(item),
        !item.contains_key("delta"@),
        item.contains_key("type"@),
        item["type"@] == JsonTree::Text(item_kind),
        contains_text(item_kind, "delta"@),
        item.contains_key("text"@),
        item["text"@] == JsonTree::Text(delta),
        delta.len() > 0,
    ensures
        after_document(state, JsonTree::Object(document)) == (
            ParseModel { text: state.text + delta, ..state },
            Some(delta),
        ),
{
}

/// A document that is neither a delta nor a finished item brings no text; one that is not the
/// end of a turn changes nothing.
pub proof fn law_other_documents_bring_nothing(
    state: ParseModel,
    document: Map<Seq<char>, JsonTree>,
    kind: Seq<char>,
)
    requires
        document.contains_key("type"@),
        document["type"@] == JsonTree::Text(kind),
        !contains_text(kind, "delta"@),
        kind != "item.completed"@,
    ensures
        ({
            let (after, brought) = after_document(state, JsonTree::Object(document));
            &&& brought is None
            &&& after.text == state.text
            &&& kind != "turn.completed"@ ==> after == state
        }),
{
}

/// A failure is said as it was said: all of it, without the blanks around it, as far as it fits.
pub proof fn law_failure_is_said_as_it_was_said(stdout: Seq<char>, stderr: Seq<char>)
    ensures
        ({
            let all = trimmed(stdout + "\n"@ + stderr);
            &&& text::byte_length(all) <= 400 ==> failure_excerpt(stdout, stderr) == all
            &&& text::byte_length(all) > 400 ==> failure_excerpt(stdout, stderr)
                == text::byte_prefix(all, 400) + "..."@
        }),
{
}

/// The end of a turn that does not name a number of tokens tells none; one without usage tells
/// nothing.
pub proof fn law_finished_turn_without_tokens(
    state: ParseModel,
    document: Map<Seq<char>, JsonTree>,
    usage: Map<Seq<char>, JsonTree>,
)
    requires
        document.contains_key("type"@),
        document["type"@] == JsonTree::Text("turn.completed"@),
    ensures
        ({
            let (after, brought) = after_document(state, JsonTree::Object(document));
            &&& brought is None
            &&& after.text == state.text
            &&& !document.contains_key("usage"@) ==> after.usage == state.usage
            &&& document.contains_key("usage"@) && document["usage"@] == JsonTree::Object(usage)
                && !usage.contains_key("input_tokens"@) ==> after.usage.input_tokens == 0
            &&& document.contains_key("usage"@) && document["usage"@] == JsonTree::Object(usage)
                && !usage.contains_key("output_tokens"@) ==> after.usage.output_tokens == 0
        }),
{
    lemma_no_delta_types();
}

} // verus!
