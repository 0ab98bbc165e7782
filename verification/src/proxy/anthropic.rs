//! The Anthropic protocol: messages, in one piece or as a stream of named events.

use crate::json;
use crate::json::{
    compact_text, is_one_line, no_members, parsed_text, raw_value_key, reads_back, value_tree, value_trees,
    JsonNumber, JsonTree, READABLE_LEVELS,
};
use crate::models::ProxySettings;
use crate::proxy::openai::requested_model;
use crate::proxy::runtime::{law_prompt_tells_the_conversation, prompt_lines, RuntimeUsage};
use crate::proxy::{
    anthropic_refusal, authorize_anthropic, messages_view, resolve_model_alias, resolved_alias,
    text_result, turn_result, EnvelopeModel, HeaderText, MessageModel, ProtocolError, ProtocolKind,
    ProxyExecutionEnvelope, ProxyRole, ProxyTurnMessage, ProxyTurnRequest, Refusal,
    ResolvedProxyConfig, TurnModel, BAD_REQUEST,
};
use crate::text;
use crate::text::{text_view, trimmed};
use crate::utils::{is_plain_id, now_unix_seconds, plain_id, timestamp_of};
use serde_json::Value;
use vstd::prelude::*;

verus! {

/// The version of the protocol that clients have to name.
pub const REQUIRED_VERSION: &'static str = "2023-06-01";

/// A request for a message.
#[derive(Debug)]
pub struct MessagesRequest {
    pub model: Option<String>,
    pub system: Option<String>,
    pub messages: Vec<Message>,
    pub max_tokens: Option<u32>,
    pub stream: bool,
    pub tools: Option<Value>,
    pub thinking: Option<Value>,
    pub container: Option<Value>,
}

/// A message of a conversation.
#[derive(Debug)]
pub struct Message {
    pub role: String,
    pub content: MessageContent,
}

/// What a message says: a text, or blocks of one.
#[derive(Debug)]
pub enum MessageContent {
    Text(String),
    Blocks(Vec<ContentBlock>),
}

/// A block of what a message says.
#[derive(Debug)]
pub struct ContentBlock {
    pub block_type: String,
    pub text: Option<String>,
}

/// An error as it is sent.
#[derive(Debug)]
pub struct ErrorEnvelope {
    pub envelope_type: &'static str,
    pub error: ErrorBody,
}

/// What an error says.
#[derive(Debug)]
pub struct ErrorBody {
    pub error_type: &'static str,
    pub message: String,
}

// ---------------------------------------------------------------------------
// Requests
// ---------------------------------------------------------------------------
/// The texts of blocks one after the other, or why they are refused.
pub open spec fn blocks_text(blocks: Seq<ContentBlock>) -> Result<Seq<char>, Refusal>
    decreases blocks.len(),
{
    if blocks.len() == 0 {
        Ok(Seq::empty())
    } else {
        match blocks_text(blocks.drop_last()) {
            Err(refusal) => Err(refusal),
            Ok(before) => if blocks.last().block_type@ != "text"@ {
                Err((BAD_REQUEST, "Anthropic content blocks only support text"@))
            } else {
                match blocks.last().text {
                    None => Err((BAD_REQUEST, "Anthropic text block is missing text"@)),
                    Some(text) => Ok(before + text@),
                }
            },
        }
    }
}

/// A text that is not blank, or its refusal.
pub open spec fn not_blank(text: Seq<char>) -> Result<Seq<char>, Refusal> {
    if trimmed(text).len() == 0 {
        Err((BAD_REQUEST, "Anthropic message content must not be empty"@))
    } else {
        Ok(text)
    }
}

/// The text of a message, or why it is refused.
pub open spec fn flattened(content: MessageContent) -> Result<Seq<char>, Refusal> {
    match content {
        MessageContent::Text(text) => not_blank(text@),
        MessageContent::Blocks(blocks) => match blocks_text(blocks@) {
            Ok(text) => not_blank(text),
            Err(refusal) => Err(refusal),
        },
    }
}

/// The first block that is refused decides.
proof fn lemma_blocks_error(blocks: Seq<ContentBlock>, m: int, n: int)
    requires
        0 <= m <= n <= blocks.len(),
        blocks_text(blocks.take(m)) is Err,
    ensures
        blocks_text(blocks.take(n)) == blocks_text(blocks.take(m)),
    decreases n - m,
{
    if m < n {
        assert(blocks.take(n).drop_last() =~= blocks.take(n - 1));
        lemma_blocks_error(blocks, m, n - 1);
    }
}

/// The text of blocks one after the other.
fn join_blocks(blocks: &Vec<ContentBlock>) -> (r: Result<String, ProtocolError>)
    ensures
        text_result(r) == blocks_text(blocks@),
{
    let mut out = String::new();
    let mut i: usize = 0;
    assert(blocks@.take(0) =~= Seq::empty());
    assert(out@ =~= Seq::empty());
    while i < blocks.len()
        invariant
            0 <= i <= blocks@.len(),
            blocks_text(blocks@.take(i as int)) == Ok::<Seq<char>, Refusal>(out@),
        decreases blocks@.len() - i,
    {
        let block = &blocks[i];
        proof {
            assert(blocks@.take(i + 1).drop_last() =~= blocks@.take(i as int));
            assert(blocks@.take(i + 1).last() == *block);
            if blocks_text(blocks@.take(i + 1)) is Err {
                lemma_blocks_error(blocks@, i + 1, blocks@.len() as int);
                assert(blocks@.take(blocks@.len() as int) =~= blocks@);
            }
        }
        if !text::same(block.block_type.as_str(), "text") {
            return Err(ProtocolError::bad_request("Anthropic content blocks only support text"));
        }
        match &block.text {
            Some(text) => {
                out.append(text.as_str());
            },
            None => {
                return Err(ProtocolError::bad_request("Anthropic text block is missing text"));
            },
        }
        i = i + 1;
    }
    assert(blocks@.take(i as int) =~= blocks@);
    Ok(out)
}

/// The text of a message.
pub fn flatten_content(content: &MessageContent) -> (r: Result<String, ProtocolError>)
    ensures
        text_result(r) == flattened(*content),
{
    let text = match content {
        MessageContent::Text(text) => text.clone(),
        MessageContent::Blocks(blocks) => match join_blocks(blocks) {
            Ok(text) => text,
            Err(error) => return Err(error),
        },
    };
    if text::is_blank(text.as_str()) {
        Err(ProtocolError::bad_request("Anthropic message content must not be empty"))
    } else {
        Ok(text)
    }
}

/// The role that a name stands for.
pub open spec fn role_of(name: Seq<char>) -> Option<ProxyRole> {
    if name == "user"@ {
        Some(ProxyRole::User)
    } else if name == "assistant"@ {
        Some(ProxyRole::Assistant)
    } else {
        None
    }
}

/// The role that a name stands for.
fn read_role(name: &str) -> (r: Result<ProxyRole, ProtocolError>)
    ensures
        match (r, role_of(name@)) {
            (Ok(role), Some(expected)) => role == expected,
            (Err(error), None) => error.says(
                BAD_REQUEST,
                "unsupported Anthropic role: "@ + name@,
            ),
            _ => false,
        },
{
    if text::same(name, "user") {
        return Ok(ProxyRole::User);
    }
    if text::same(name, "assistant") {
        return Ok(ProxyRole::Assistant);
    }
    let mut message = "unsupported Anthropic role: ".to_owned();
    message.append(name);
    Err(ProtocolError::bad_request(message.as_str()))
}

/// What some messages say, or why the first bad one is refused.
pub open spec fn conversation(messages: Seq<Message>) -> Result<Seq<MessageModel>, Refusal>
    decreases messages.len(),
{
    if messages.len() == 0 {
        Ok(Seq::empty())
    } else {
        let last = messages.last();
        match conversation(messages.drop_last()) {
            Err(refusal) => Err(refusal),
            Ok(before) => match role_of(last.role@) {
                None => Err((BAD_REQUEST, "unsupported Anthropic role: "@ + last.role@)),
                Some(role) => match flattened(last.content) {
                    Err(refusal) => Err(refusal),
                    Ok(content) => Ok(before.push(MessageModel { role, content })),
                },
            },
        }
    }
}

/// The first message that is refused decides.
proof fn lemma_conversation_error(messages: Seq<Message>, m: int, n: int)
    requires
        0 <= m <= n <= messages.len(),
        conversation(messages.take(m)) is Err,
    ensures
        conversation(messages.take(n)) == conversation(messages.take(m)),
    decreases n - m,
{
    if m < n {
        assert(messages.take(n).drop_last() =~= messages.take(n - 1));
        lemma_conversation_error(messages, m, n - 1);
    }
}

/// Why a request is refused for what it asks, before its messages are read.
pub open spec fn unsupported(request: MessagesRequest) -> Option<Refusal> {
    if request.tools is Some {
        Some((BAD_REQUEST, "Anthropic tools are not supported"@))
    } else if request.thinking is Some {
        Some((BAD_REQUEST, "Anthropic thinking is not supported"@))
    } else if request.container is Some {
        Some((BAD_REQUEST, "Anthropic container is not supported"@))
    } else if request.messages@.len() == 0 {
        Some((BAD_REQUEST, "Anthropic messages must not be empty"@))
    } else if request.max_tokens == Some(0u32) {
        Some((BAD_REQUEST, "Anthropic max_tokens must be greater than zero"@))
    } else {
        None
    }
}

/// The turn that a request asks for, or why it is refused.
pub open spec fn requested_turn(request: MessagesRequest, settings: ProxySettings) -> Result<
    TurnModel,
    Refusal,
> {
    match unsupported(request) {
        Some(refusal) => Err(refusal),
        None => match resolved_alias(requested_model(request.model), settings.model_aliases) {
            Err(refusal) => Err(refusal),
            Ok((model_alias, resolved_model)) => match conversation(request.messages@) {
                Err(refusal) => Err(refusal),
                Ok(messages) => Ok(
                    TurnModel {
                        protocol: ProtocolKind::Anthropic,
                        model_alias,
                        resolved_model,
                        system_prompt: text_view(request.system),
                        messages,
                        stream: request.stream,
                        cwd: settings.default_cwd,
                    },
                ),
            },
        },
    }
}

/// Refuses a request for what it asks, before its messages are read.
fn check_supported(request: &MessagesRequest) -> (r: Result<(), ProtocolError>)
    ensures
        crate::proxy::refusal(r) == unsupported(*request),
{
    if request.tools.is_some() {
        return Err(ProtocolError::bad_request("Anthropic tools are not supported"));
    }
    if request.thinking.is_some() {
        return Err(ProtocolError::bad_request("Anthropic thinking is not supported"));
    }
    if request.container.is_some() {
        return Err(ProtocolError::bad_request("Anthropic container is not supported"));
    }
    if request.messages.len() == 0 {
        return Err(ProtocolError::bad_request("Anthropic messages must not be empty"));
    }
    if let Some(max_tokens) = request.max_tokens {
        if max_tokens == 0 {
            return Err(
                ProtocolError::bad_request("Anthropic max_tokens must be greater than zero"),
            );
        }
    }
    Ok(())
}

/// Reads the messages of a request.
fn read_messages(messages: &Vec<Message>) -> (r: Result<Vec<ProxyTurnMessage>, ProtocolError>)
    ensures
        match (r, conversation(messages@)) {
            (Ok(said), Ok(expected)) => messages_view(said@) == expected,
            (Err(error), Err(expected)) => error.says(expected.0, expected.1),
            _ => false,
        },
{
    let mut said: Vec<ProxyTurnMessage> = Vec::new();
    let mut i: usize = 0;
    assert(messages@.take(0) =~= Seq::empty());
    assert(messages_view(said@) =~= Seq::empty());
    while i < messages.len()
        invariant
            0 <= i <= messages@.len(),
            conversation(messages@.take(i as int)) == Ok::<Seq<MessageModel>, Refusal>(
                messages_view(said@),
            ),
        decreases messages@.len() - i,
    {
        let message = &messages[i];
        proof {
            assert(messages@.take(i + 1).drop_last() =~= messages@.take(i as int));
            assert(messages@.take(i + 1).last() == *message);
            if conversation(messages@.take(i + 1)) is Err {
                lemma_conversation_error(messages@, i + 1, messages@.len() as int);
                assert(messages@.take(messages@.len() as int) =~= messages@);
            }
        }
        let role = match read_role(message.role.as_str()) {
            Ok(role) => role,
            Err(error) => return Err(error),
        };
        let content = match flatten_content(&message.content) {
            Ok(content) => content,
            Err(error) => return Err(error),
        };
        let ghost before = messages_view(said@);
        let ghost told = MessageModel { role, content: content@ };
        said.push(ProxyTurnMessage { role, content });
        assert(messages_view(said@) =~= before.push(told));
        i = i + 1;
    }
    assert(messages@.take(i as int) =~= messages@);
    Ok(said)
}

/// Reads the turn that a request asks for.
pub fn into_turn_request(request: MessagesRequest, config: &ResolvedProxyConfig) -> (r: Result<
    ProxyTurnRequest,
    ProtocolError,
>)
    ensures
        turn_result(r) == requested_turn(request, config@),
{
    if let Err(error) = check_supported(&request) {
        return Err(error);
    }
    let requested = match &request.model {
        Some(model) => model.as_str(),
        None => "codex",
    };
    let (model_alias, resolved_model) = match resolve_model_alias(
        requested,
        &config.model_aliases,
    ) {
        Ok(resolved) => resolved,
        Err(error) => return Err(error),
    };
    let messages = match read_messages(&request.messages) {
        Ok(messages) => messages,
        Err(error) => return Err(error),
    };
    Ok(
        ProxyTurnRequest {
            protocol: ProtocolKind::Anthropic,
            model_alias,
            resolved_model,
            system_prompt: request.system,
            messages,
            stream: request.stream,
            cwd: config.default_cwd.clone(),
        },
    )
}

/// The turn that a client may ask for, or why it is refused: for its version and its
/// key, and only then for what it asks.
pub open spec fn accepted_turn(
    version: HeaderText,
    api_key: HeaderText,
    request: MessagesRequest,
    settings: ProxySettings,
) -> Result<TurnModel, Refusal> {
    match anthropic_refusal(version, api_key, settings.api_key) {
        Some(refusal) => Err(refusal),
        None => requested_turn(request, settings),
    }
}

/// Reads the turn that a client asks for, given its headers `anthropic-version` and
/// `x-api-key`.
pub fn accept_request(
    version: &HeaderText,
    api_key: &HeaderText,
    request: MessagesRequest,
    config: &ResolvedProxyConfig,
) -> (r: Result<ProxyTurnRequest, ProtocolError>)
    ensures
        turn_result(r) == accepted_turn(*version, *api_key, request, config@),
{
    match authorize_anthropic(version, api_key, config.api_key.as_str()) {
        Ok(()) => into_turn_request(request, config),
        Err(error) => Err(error),
    }
}

/// Every refusal of a request says that it is a bad one.
pub proof fn law_refused_requests_are_bad(request: MessagesRequest, settings: ProxySettings)
    ensures
        requested_turn(request, settings) is Err ==> requested_turn(request, settings)->Err_0.0
            == BAD_REQUEST,
{
    lemma_conversation_refusals(request.messages@);
}

/// Every refusal of messages says that the request is a bad one.
proof fn lemma_conversation_refusals(messages: Seq<Message>)
    ensures
        conversation(messages) is Err ==> conversation(messages)->Err_0.0 == BAD_REQUEST,
    decreases messages.len(),
{
    if messages.len() > 0 {
        lemma_conversation_refusals(messages.drop_last());
        if let MessageContent::Blocks(blocks) = messages.last().content {
            lemma_blocks_refusals(blocks@);
        }
    }
}

/// Every refusal of blocks says that the request is a bad one.
proof fn lemma_blocks_refusals(blocks: Seq<ContentBlock>)
    ensures
        blocks_text(blocks) is Err ==> blocks_text(blocks)->Err_0.0 == BAD_REQUEST,
    decreases blocks.len(),
{
    if blocks.len() > 0 {
        lemma_blocks_refusals(blocks.drop_last());
    }
}

// ---------------------------------------------------------------------------
// Answers
// ---------------------------------------------------------------------------
/// A number that counts something.
pub open spec fn count_tree(tokens: u64) -> JsonTree {
    JsonTree::Number(JsonNumber::Unsigned(tokens))
}

/// A block of text.
pub open spec fn text_block(text: Seq<char>) -> JsonTree {
    JsonTree::Object(
        no_members().insert("type"@, JsonTree::Text("text"@)).insert("text"@, JsonTree::Text(text)),
    )
}

/// A message in one piece.
pub open spec fn message_tree(
    envelope: EnvelopeModel,
    content: Seq<JsonTree>,
    stop_reason: JsonTree,
    output_tokens: u64,
) -> JsonTree {
    let usage = JsonTree::Object(
        no_members().insert("input_tokens"@, count_tree(envelope.usage.input_tokens)).insert(
            "output_tokens"@,
            count_tree(output_tokens),
        ),
    );
    JsonTree::Object(
        no_members().insert("id"@, JsonTree::Text(envelope.response_id)).insert(
            "type"@,
            JsonTree::Text("message"@),
        ).insert("role"@, JsonTree::Text("assistant"@)).insert(
            "model"@,
            JsonTree::Text(envelope.model_alias),
        ).insert("content"@, JsonTree::Array(content)).insert("stop_reason"@, stop_reason).insert(
            "stop_sequence"@,
            JsonTree::Null,
        ).insert("usage"@, usage),
    )
}

/// A block of text.
fn build_text_block(text: &str) -> (r: Value)
    ensures
        value_tree(r) == text_block(text@),
{
    let mut block = json::new_object();
    json::insert(&mut block, "type", json::string("text"));
    json::insert(&mut block, "text", json::string(text));
    json::object(block)
}

/// A message with some content.
fn build_message(
    envelope: &ProxyExecutionEnvelope,
    content: Vec<Value>,
    stop_reason: Value,
    output_tokens: u64,
) -> (r: Value)
    ensures
        value_tree(r) == message_tree(
            envelope@,
            value_trees(content@),
            value_tree(stop_reason),
            output_tokens,
        ),
{
    let mut usage = json::new_object();
    json::insert(&mut usage, "input_tokens", json::unsigned(envelope.usage.input_tokens));
    json::insert(&mut usage, "output_tokens", json::unsigned(output_tokens));
    let mut message = json::new_object();
    json::insert(&mut message, "id", json::string(envelope.response_id.as_str()));
    json::insert(&mut message, "type", json::string("message"));
    json::insert(&mut message, "role", json::string("assistant"));
    json::insert(&mut message, "model", json::string(envelope.model_alias.as_str()));
    json::insert(&mut message, "content", json::array(content));
    json::insert(&mut message, "stop_reason", stop_reason);
    json::insert(&mut message, "stop_sequence", json::null());
    json::insert(&mut message, "usage", json::object(usage));
    json::object(message)
}

/// The answer in one piece.
pub fn message_response(envelope: &ProxyExecutionEnvelope) -> (r: Value)
    ensures
        value_tree(r) == message_tree(
            envelope@,
            seq![text_block(envelope@.text)],
            JsonTree::Text("end_turn"@),
            envelope@.usage.output_tokens,
        ),
{
    let mut content: Vec<Value> = Vec::new();
    content.push(build_text_block(envelope.text.as_str()));
    assert(value_trees(content@) =~= seq![text_block(envelope@.text)]);
    build_message(envelope, content, json::string("end_turn"), envelope.usage.output_tokens)
}

/// An event of a stream: its name, and its data.
pub type EventModel = (Option<Seq<char>>, Seq<char>);

/// What an event says.
pub open spec fn event_view(event: (Option<&'static str>, String)) -> EventModel {
    (
        match event.0 {
            Some(name) => Some(name@),
            None => None,
        },
        event.1@,
    )
}

/// What some events say.
pub open spec fn events_view(events: Seq<(Option<&'static str>, String)>) -> Seq<EventModel> {
    events.map_values(|event: (Option<&'static str>, String)| event_view(event))
}

/// An event with a name and a document as its data.
pub open spec fn event_of(name: Seq<char>, document: JsonTree) -> EventModel {
    (Some(name), compact_text(document))
}

/// Whether the data of an event are one line, and read as a document.
pub open spec fn reads_as(event: (Option<&'static str>, String), document: JsonTree) -> bool {
    is_one_line(event.1@) && parsed_text(event.1@) == Some(document)
}

/// An event with a name, whose data are some members and, as the type, the name.
fn write_event(name: &'static str, members: serde_json::Map<String, Value>) -> (r: (
    Option<&'static str>,
    String,
))
    ensures
        ({
            let document = JsonTree::Object(
                json::object_members(members).insert("type"@, JsonTree::Text(name@)),
            );
            &&& event_view(r) == event_of(name@, document)
            &&& reads_back(document, READABLE_LEVELS as nat) ==> reads_as(r, document)
        }),
{
    let mut members = members;
    json::insert(&mut members, "type", json::string(name));
    let data = json::object(members);
    (Some(name), json::write(&data))
}

/// What opens a message.
pub open spec fn message_start_tree(envelope: EnvelopeModel) -> JsonTree {
    JsonTree::Object(
        no_members().insert(
            "message"@,
            message_tree(envelope, Seq::empty(), JsonTree::Null, 0),
        ).insert("type"@, JsonTree::Text("message_start"@)),
    )
}

/// What opens the text of a message.
pub open spec fn block_start_tree() -> JsonTree {
    JsonTree::Object(
        no_members().insert("index"@, count_tree(0)).insert(
            "content_block"@,
            text_block(Seq::empty()),
        ).insert("type"@, JsonTree::Text("content_block_start"@)),
    )
}

/// What brings a piece of text.
pub open spec fn text_delta_tree(text: Seq<char>) -> JsonTree {
    let delta = JsonTree::Object(
        no_members().insert("type"@, JsonTree::Text("text_delta"@)).insert(
            "text"@,
            JsonTree::Text(text),
        ),
    );
    JsonTree::Object(
        no_members().insert("index"@, count_tree(0)).insert("delta"@, delta).insert(
            "type"@,
            JsonTree::Text("content_block_delta"@),
        ),
    )
}

/// What closes the text of a message.
pub open spec fn block_stop_tree() -> JsonTree {
    JsonTree::Object(
        no_members().insert("index"@, count_tree(0)).insert(
            "type"@,
            JsonTree::Text("content_block_stop"@),
        ),
    )
}

/// What tells the end and the tokens of a message.
pub open spec fn message_delta_tree(envelope: EnvelopeModel) -> JsonTree {
    let delta = JsonTree::Object(
        no_members().insert("stop_reason"@, JsonTree::Text("end_turn"@)).insert(
            "stop_sequence"@,
            JsonTree::Null,
        ),
    );
    let usage = JsonTree::Object(
        no_members().insert("output_tokens"@, count_tree(envelope.usage.output_tokens)),
    );
    JsonTree::Object(
        no_members().insert("delta"@, delta).insert("usage"@, usage).insert(
            "type"@,
            JsonTree::Text("message_delta"@),
        ),
    )
}

/// What closes a message.
pub open spec fn message_stop_tree() -> JsonTree {
    JsonTree::Object(no_members().insert("type"@, JsonTree::Text("message_stop"@)))
}

/// The events that open a stream.
pub open spec fn start_events(envelope: EnvelopeModel) -> Seq<EventModel> {
    seq![
        event_of("message_start"@, message_start_tree(envelope)),
        event_of("content_block_start"@, block_start_tree()),
    ]
}

/// The event that brings a piece of text.
pub open spec fn text_event(text: Seq<char>) -> EventModel {
    event_of("content_block_delta"@, text_delta_tree(text))
}

/// The events that close a stream.
pub open spec fn stop_events(envelope: EnvelopeModel) -> Seq<EventModel> {
    seq![
        event_of("content_block_stop"@, block_stop_tree()),
        event_of("message_delta"@, message_delta_tree(envelope)),
        event_of("message_stop"@, message_stop_tree()),
    ]
}

/// The names of members in an event are none that `serde_json` keeps for itself.
proof fn lemma_event_keys()
    ensures
        raw_value_key() != "message"@,
        raw_value_key() != "type"@,
        raw_value_key() != "index"@,
        raw_value_key() != "content_block"@,
        raw_value_key() != "text"@,
        raw_value_key() != "delta"@,
        raw_value_key() != "stop_reason"@,
        raw_value_key() != "stop_sequence"@,
        raw_value_key() != "usage"@,
        raw_value_key() != "output_tokens"@,
        raw_value_key() != "input_tokens"@,
        raw_value_key() != "id"@,
        raw_value_key() != "role"@,
        raw_value_key() != "model"@,
        raw_value_key() != "content"@,
{
    reveal_strlit("$serde_json::private::RawValue");
    reveal_strlit("message");
    reveal_strlit("type");
    reveal_strlit("index");
    reveal_strlit("content_block");
    reveal_strlit("text");
    reveal_strlit("delta");
    reveal_strlit("stop_reason");
    reveal_strlit("stop_sequence");
    reveal_strlit("usage");
    reveal_strlit("output_tokens");
    reveal_strlit("input_tokens");
    reveal_strlit("id");
    reveal_strlit("role");
    reveal_strlit("model");
    reveal_strlit("content");
    let reserved = raw_value_key().len();
    assert(reserved == 30);
    assert("message"@.len() < reserved);
    assert("type"@.len() < reserved);
    assert("index"@.len() < reserved);
    assert("content_block"@.len() < reserved);
    assert("text"@.len() < reserved);
    assert("delta"@.len() < reserved);
    assert("stop_reason"@.len() < reserved);
    assert("stop_sequence"@.len() < reserved);
    assert("usage"@.len() < reserved);
    assert("output_tokens"@.len() < reserved);
    assert("input_tokens"@.len() < reserved);
    assert("id"@.len() < reserved);
    assert("role"@.len() < reserved);
    assert("model"@.len() < reserved);
    assert("content"@.len() < reserved);
}

/// The data of the events that open and close a stream read back as they were written.
proof fn lemma_events_read_back(envelope: EnvelopeModel)
    ensures
        reads_back(message_start_tree(envelope), READABLE_LEVELS as nat),
        reads_back(block_start_tree(), READABLE_LEVELS as nat),
        reads_back(block_stop_tree(), READABLE_LEVELS as nat),
        reads_back(message_delta_tree(envelope), READABLE_LEVELS as nat),
        reads_back(message_stop_tree(), READABLE_LEVELS as nat),
{
    lemma_event_keys();
    reveal_with_fuel(reads_back, 3);
    let usage = JsonTree::Object(
        no_members().insert("input_tokens"@, count_tree(envelope.usage.input_tokens)).insert(
            "output_tokens"@,
            count_tree(0),
        ),
    );
    assert(reads_back(usage, 125));
    assert(reads_back(JsonTree::Array(Seq::empty()), 125));
    assert(reads_back(message_tree(envelope, Seq::empty(), JsonTree::Null, 0), 126));
}

/// The events that open a stream.
pub fn stream_start_events(envelope: &ProxyExecutionEnvelope) -> (r: Vec<
    (Option<&'static str>, String),
>)
    ensures
        events_view(r@) == start_events(envelope@),
        r@.len() == 2,
        reads_as(r@[0], message_start_tree(envelope@)),
        reads_as(r@[1], block_start_tree()),
{
    let content: Vec<Value> = Vec::new();
    assert(value_trees(content@) =~= Seq::empty());
    let mut message = json::new_object();
    json::insert(&mut message, "message", build_message(envelope, content, json::null(), 0));
    proof {
        reveal_strlit("");
        assert(""@ =~= Seq::<char>::empty());
        lemma_events_read_back(envelope@);
    }
    let mut block = json::new_object();
    json::insert(&mut block, "index", json::unsigned(0));
    json::insert(&mut block, "content_block", build_text_block(""));
    let mut events: Vec<(Option<&'static str>, String)> = Vec::new();
    events.push(write_event("message_start", message));
    events.push(write_event("content_block_start", block));
    assert(events_view(events@) =~= start_events(envelope@));
    events
}

/// The event that brings a piece of text.
pub fn stream_text_event(text: &str) -> (r: (Option<&'static str>, String))
    ensures
        event_view(r) == text_event(text@),
        reads_as(r, text_delta_tree(text@)),
{
    let mut delta = json::new_object();
    json::insert(&mut delta, "type", json::string("text_delta"));
    json::insert(&mut delta, "text", json::string(text));
    let mut members = json::new_object();
    json::insert(&mut members, "index", json::unsigned(0));
    json::insert(&mut members, "delta", json::object(delta));
    proof {
        lemma_event_keys();
        reveal_with_fuel(reads_back, 3);
        assert(reads_back(text_delta_tree(text@), READABLE_LEVELS as nat));
    }
    write_event("content_block_delta", members)
}

/// The events that close a stream.
pub fn stream_stop_events(envelope: &ProxyExecutionEnvelope) -> (r: Vec<
    (Option<&'static str>, String),
>)
    ensures
        events_view(r@) == stop_events(envelope@),
        r@.len() == 3,
        reads_as(r@[0], block_stop_tree()),
        reads_as(r@[1], message_delta_tree(envelope@)),
        reads_as(r@[2], message_stop_tree()),
{
    proof {
        lemma_events_read_back(envelope@);
    }
    let mut block = json::new_object();
    json::insert(&mut block, "index", json::unsigned(0));
    let mut delta = json::new_object();
    json::insert(&mut delta, "stop_reason", json::string("end_turn"));
    json::insert(&mut delta, "stop_sequence", json::null());
    let mut usage = json::new_object();
    json::insert(&mut usage, "output_tokens", json::unsigned(envelope.usage.output_tokens));
    let mut message = json::new_object();
    json::insert(&mut message, "delta", json::object(delta));
    json::insert(&mut message, "usage", json::object(usage));
    let mut events: Vec<(Option<&'static str>, String)> = Vec::new();
    events.push(write_event("content_block_stop", block));
    events.push(write_event("message_delta", message));
    events.push(write_event("message_stop", json::new_object()));
    assert(events_view(events@) =~= stop_events(envelope@));
    events
}

/// An error as it is sent.
pub fn error_response(message: String) -> (r: ErrorEnvelope)
    ensures
        r.envelope_type@ == "error"@,
        r.error.error_type@ == "invalid_request_error"@,
        r.error.message == message,
{
    ErrorEnvelope {
        envelope_type: "error",
        error: ErrorBody { error_type: "invalid_request_error", message },
    }
}

/// The identifier of an answer.
pub open spec fn message_id(id: Seq<char>) -> Seq<char> {
    "msg_"@ + id
}

/// An answer with an identifier, made at a time.
pub fn execution_envelope_at(
    model_alias: &str,
    text: &str,
    usage: RuntimeUsage,
    id: &str,
    created: i64,
) -> (r: ProxyExecutionEnvelope)
    ensures
        r@ == (EnvelopeModel {
            response_id: message_id(id@),
            created,
            model_alias: model_alias@,
            text: text@,
            usage,
        }),
{
    let mut response_id = "msg_".to_owned();
    response_id.append(id);
    ProxyExecutionEnvelope {
        response_id,
        created,
        model_alias: model_alias.to_owned(),
        text: text.to_owned(),
        usage,
    }
}

/// An answer with a fresh identifier, made now.
pub fn new_execution_envelope(model_alias: &str, text: &str, usage: RuntimeUsage) -> (r:
    ProxyExecutionEnvelope)
    ensures
        exists|id: Seq<char>| is_plain_id(id) && r@.response_id == #[trigger] message_id(id),
        exists|reading: Option<u64>| r@.created == #[trigger] timestamp_of(reading),
        r@.model_alias == model_alias@,
        r@.text == text@,
        r@.usage == usage,
{
    let id = plain_id();
    let created: i64 = now_unix_seconds();
    execution_envelope_at(model_alias, text, usage, id.as_str(), created)
}

// ---------------------------------------------------------------------------
// What a request and an answer say
// ---------------------------------------------------------------------------
/// What a client wrote: its text, or the texts of its blocks one after the other.
pub open spec fn written(content: MessageContent) -> Seq<char> {
    match content {
        MessageContent::Text(text) => text@,
        MessageContent::Blocks(blocks) => blocks@.fold_left(
            Seq::<char>::empty(),
            |before: Seq<char>, block: ContentBlock| before + block.text->0@,
        ),
    }
}

/// Whether a message can be told: it is the user's or the assistant's, every block of it is a
/// text, and together they are not blank.
pub open spec fn can_be_told(message: Message) -> bool {
    &&& message.role@ == "user"@ || message.role@ == "assistant"@
    &&& match message.content {
        MessageContent::Text(_) => true,
        MessageContent::Blocks(blocks) => forall|i: int|
            0 <= i < blocks@.len() ==> (#[trigger] blocks@[i]).block_type@ == "text"@
                && blocks@[i].text is Some,
    }
    &&& trimmed(written(message.content)).len() > 0
}

/// The names of the two roles differ.
proof fn lemma_roles_differ()
    ensures
        "user"@ != "assistant"@,
{
    reveal_strlit("user");
    reveal_strlit("assistant");
    assert("user"@.len() == 4);
    assert("assistant"@.len() == 9);
}

/// Blocks are taken exactly where all of them are texts, and read one after the other.
proof fn lemma_blocks(blocks: Seq<ContentBlock>)
    ensures
        blocks_text(blocks) is Ok <==> forall|i: int|
            0 <= i < blocks.len() ==> (#[trigger] blocks[i]).block_type@ == "text"@
                && blocks[i].text is Some,
        blocks_text(blocks) is Ok ==> blocks_text(blocks)->Ok_0 == blocks.fold_left(
            Seq::<char>::empty(),
            |before: Seq<char>, block: ContentBlock| before + block.text->0@,
        ),
    decreases blocks.len(),
{
    if blocks.len() > 0 {
        let rest = blocks.drop_last();
        lemma_blocks(rest);
        if forall|i: int|
            0 <= i < rest.len() ==> (#[trigger] rest[i]).block_type@ == "text"@ && rest[i].text
                is Some {
            assert forall|i: int| 0 <= i < blocks.len() - 1 implies (
            #[trigger] blocks[i]).block_type@ == "text"@ && blocks[i].text is Some by {
                assert(rest[i] == blocks[i]);
            }
        } else {
            let i = choose|i: int|
                0 <= i < rest.len() && !((#[trigger] rest[i]).block_type@ == "text"@
                    && rest[i].text is Some);
            assert(blocks[i] == rest[i]);
        }
        assert(blocks[blocks.len() - 1] == blocks.last());
    }
}

/// Messages are taken exactly where all of them can be told, each as it was sent.
proof fn lemma_conversation(messages: Seq<Message>)
    ensures
        conversation(messages) is Ok <==> forall|i: int|
            0 <= i < messages.len() ==> can_be_told(#[trigger] messages[i]),
        conversation(messages) is Ok ==> {
            let said = conversation(messages)->Ok_0;
            &&& said.len() == messages.len()
            &&& forall|k: int|
                0 <= k < said.len() ==> {
                    &&& (#[trigger] said[k]).role == ProxyRole::User <==> messages[k].role@
                        == "user"@
                    &&& said[k].role == ProxyRole::Assistant <==> messages[k].role@ == "assistant"@
                    &&& said[k].role != ProxyRole::System
                    &&& said[k].content == written(messages[k].content)
                }
        },
    decreases messages.len(),
{
    lemma_roles_differ();
    if messages.len() > 0 {
        let rest = messages.drop_last();
        let last = messages.last();
        lemma_conversation(rest);
        if let MessageContent::Blocks(blocks) = last.content {
            lemma_blocks(blocks@);
        }
        assert(flattened(last.content) is Ok && role_of(last.role@) is Some <==> can_be_told(last));
        assert(flattened(last.content) is Ok ==> flattened(last.content)->Ok_0 == written(
            last.content,
        ));
        if forall|i: int| 0 <= i < rest.len() ==> can_be_told(#[trigger] rest[i]) {
            assert forall|i: int| 0 <= i < messages.len() - 1 implies can_be_told(
                #[trigger] messages[i],
            ) by {
                assert(rest[i] == messages[i]);
            }
        } else {
            let i = choose|i: int| 0 <= i < rest.len() && !can_be_told(#[trigger] rest[i]);
            assert(messages[i] == rest[i]);
        }
        assert(messages[messages.len() - 1] == last);
    }
}

/// The turn of an accepted request has, in order, exactly one message for each message of the
/// request: of the role that the client named, and with what the client wrote. Its system
/// prompt is that of the request. Its model is the one behind the alias that the request names,
/// or behind `codex`, and whether it is streamed is what the request says.
pub proof fn law_turn_has_what_the_client_sent(
    request: MessagesRequest,
    settings: ProxySettings,
    r: Result<ProxyTurnRequest, ProtocolError>,
)
    requires
        turn_result(r) == requested_turn(request, settings),
        r is Ok,
    ensures
        ({
            let turn = r->Ok_0;
            let sent = request.messages@;
            let alias = trimmed(
                match request.model {
                    Some(model) => model@,
                    None => "codex"@,
                },
            );
            &&& turn.messages@.len() == sent.len()
            &&& sent.len() > 0
            &&& forall|k: int|
                0 <= k < sent.len() ==> {
                    &&& (#[trigger] turn.messages@[k]).role == ProxyRole::User <==> sent[k].role@
                        == "user"@
                    &&& turn.messages@[k].role == ProxyRole::Assistant <==> sent[k].role@
                        == "assistant"@
                    &&& turn.messages@[k].role != ProxyRole::System
                    &&& turn.messages@[k].content@ == written(sent[k].content)
                }
            &&& turn.system_prompt is Some <==> request.system is Some
            &&& request.system is Some ==> turn.system_prompt->0@ == request.system->0@
            &&& turn.protocol == ProtocolKind::Anthropic
            &&& turn.stream == request.stream
            &&& turn.cwd@ == settings.default_cwd
            &&& turn.model_alias@ == alias
            &&& settings.model_aliases.contains_key(alias)
            &&& turn.resolved_model@ == settings.model_aliases[alias]
        }),
{
    lemma_conversation(request.messages@);
    let turn = r->Ok_0;
    let said = conversation(request.messages@)->Ok_0;
    assert(turn@.messages == said);
    assert(text_view(turn.system_prompt) == text_view(request.system));
    assert forall|k: int| 0 <= k < turn.messages@.len() implies (
    #[trigger] turn.messages@[k]).role == said[k].role && turn.messages@[k].content@
        == said[k].content by {
        assert(turn@.messages[k] == turn.messages@[k]@);
    }
}

/// A request is accepted exactly where it asks for nothing that is not supported, allows some
/// tokens, names a model that is known, and has messages that can all be told.
pub proof fn law_which_requests_are_accepted(request: MessagesRequest, settings: ProxySettings)
    ensures
        requested_turn(request, settings) is Ok <==> {
            let alias = trimmed(
                match request.model {
                    Some(model) => model@,
                    None => "codex"@,
                },
            );
            &&& request.tools is None
            &&& request.thinking is None
            &&& request.container is None
            &&& request.max_tokens is None || request.max_tokens->0 > 0
            &&& alias.len() > 0
            &&& settings.model_aliases.contains_key(alias)
            &&& request.messages@.len() > 0
            &&& forall|i: int|
                0 <= i < request.messages@.len() ==> can_be_told(#[trigger] request.messages@[i])
        },
{
    lemma_conversation(request.messages@);
}

/// The prompt of an accepted request shows each message under the role that the client named,
/// as the client wrote it.
pub proof fn law_prompt_shows_what_the_client_sent(
    request: MessagesRequest,
    settings: ProxySettings,
    k: int,
)
    requires
        requested_turn(request, settings) is Ok,
        0 <= k < request.messages@.len(),
    ensures
        ({
            let sent = request.messages@;
            let lines = prompt_lines(requested_turn(request, settings)->Ok_0);
            &&& lines.len() >= sent.len()
            &&& lines[lines.len() - sent.len() + k] == "["@ + sent[k].role@ + "]\n"@ + written(
                sent[k].content,
            )
        }),
{
    lemma_conversation(request.messages@);
    let turn = requested_turn(request, settings)->Ok_0;
    law_prompt_tells_the_conversation(turn, k);
    assert(can_be_told(request.messages@[k]));
    assert(turn.messages[k].content == written(request.messages@[k].content));
}

/// A request with another version is refused as a bad one, and one without the key as not
/// authorized, whatever it asks; with both it is read.
pub proof fn law_version_and_key_are_asked_for_first(
    request: MessagesRequest,
    settings: ProxySettings,
    version: String,
    key: String,
)
    ensures
        ({
            let r = accepted_turn(
                HeaderText::Text(version),
                HeaderText::Text(key),
                request,
                settings,
            );
            &&& version@ == "2023-06-01"@ && key@ == settings.api_key ==> r == requested_turn(
                request,
                settings,
            )
            &&& version@ != "2023-06-01"@ ==> r is Err && r->Err_0.0 == 400
            &&& version@ == "2023-06-01"@ && key@ != settings.api_key ==> r is Err && r->Err_0.0
                == 401
        }),
        accepted_turn(HeaderText::Missing, HeaderText::Text(key), request, settings) is Err,
        version@ == "2023-06-01"@ ==> {
            let r = accepted_turn(
                HeaderText::Text(version),
                HeaderText::Missing,
                request,
                settings,
            );
            r is Err && r->Err_0.0 == 401
        },
{
}

/// The names of members in an answer are all different where they stand side by side.
proof fn lemma_answer_names()
    ensures
        "id"@.len() == 2,
        "type"@.len() == 4,
        "role"@.len() == 4,
        "text"@.len() == 4,
        "model"@.len() == 5,
        "content"@.len() == 7,
        "stop_reason"@.len() == 11,
        "stop_sequence"@.len() == 13,
        "usage"@.len() == 5,
        "input_tokens"@.len() == 12,
        "output_tokens"@.len() == 13,
        "message"@.len() == 7,
        "index"@.len() == 5,
        "delta"@.len() == 5,
        "content_block"@.len() == 13,
        "type"@[1] == 'y',
        "text"@[1] == 'e',
        "role"@[1] == 'o',
        "model"@[0] == 'm',
        "usage"@[0] == 'u',
        "index"@[0] == 'i',
        "delta"@[0] == 'd',
{
    reveal_strlit("id");
    reveal_strlit("type");
    reveal_strlit("role");
    reveal_strlit("text");
    reveal_strlit("model");
    reveal_strlit("content");
    reveal_strlit("stop_reason");
    reveal_strlit("stop_sequence");
    reveal_strlit("usage");
    reveal_strlit("input_tokens");
    reveal_strlit("output_tokens");
    reveal_strlit("message");
    reveal_strlit("index");
    reveal_strlit("delta");
    reveal_strlit("content_block");
}

/// What an answer in one piece says: the text of the turn as the assistant's, its tokens, and
/// the identifier and the alias of the answer.
pub proof fn law_answer_says_what_the_turn_brought(
    envelope: EnvelopeModel,
    r: Value,
)
    requires
        value_tree(r) == message_tree(
            envelope,
            seq![text_block(envelope.text)],
            JsonTree::Text("end_turn"@),
            envelope.usage.output_tokens,
        ),
    ensures
        ({
            let answer = value_tree(r);
            let content = answer.member("content"@);
            let usage = answer.member("usage"@);
            &&& answer.text_member("id"@) == Some(envelope.response_id)
            &&& answer.text_member("type"@) == Some("message"@)
            &&& answer.text_member("role"@) == Some("assistant"@)
            &&& answer.text_member("model"@) == Some(envelope.model_alias)
            &&& answer.text_member("stop_reason"@) == Some("end_turn"@)
            &&& answer.member("stop_sequence"@) == Some(JsonTree::Null)
            &&& content is Some && content->0 is Array && content->0->Array_0.len() == 1
            &&& content->0->Array_0[0].text_member("type"@) == Some("text"@)
            &&& content->0->Array_0[0].text_member("text"@) == Some(envelope.text)
            &&& usage is Some
            &&& usage->0.unsigned_member("input_tokens"@) == Some(envelope.usage.input_tokens)
            &&& usage->0.unsigned_member("output_tokens"@) == Some(envelope.usage.output_tokens)
        }),
{
    lemma_answer_names();
}

/// What opens a stream: the message, as yet without text, of the identifier and the alias of
/// the answer, and an empty block of text.
pub proof fn law_opening_of_a_stream(envelope: EnvelopeModel)
    ensures
        ({
            let opening = start_events(envelope);
            let start = message_start_tree(envelope);
            let message = start.member("message"@);
            let block = block_start_tree();
            &&& opening.len() == 2
            &&& opening[0] == (Some("message_start"@), compact_text(start))
            &&& opening[1] == (Some("content_block_start"@), compact_text(block))
            &&& start.text_member("type"@) == Some("message_start"@)
            &&& message is Some
            &&& message->0.text_member("id"@) == Some(envelope.response_id)
            &&& message->0.text_member("role"@) == Some("assistant"@)
            &&& message->0.text_member("model"@) == Some(envelope.model_alias)
            &&& message->0.member("content"@) == Some(JsonTree::Array(Seq::empty()))
            &&& message->0.member("stop_reason"@) == Some(JsonTree::Null)
            &&& block.text_member("type"@) == Some("content_block_start"@)
            &&& block.unsigned_member("index"@) == Some(0u64)
            &&& block.member("content_block"@) is Some
            &&& block.member("content_block"@)->0.text_member("type"@) == Some("text"@)
            &&& block.member("content_block"@)->0.text_member("text"@) == Some(Seq::<char>::empty())
        }),
{
    lemma_answer_names();
}

/// A piece of text is streamed as it is.
pub proof fn law_streamed_text_is_the_text(text: Seq<char>)
    ensures
        ({
            let document = text_delta_tree(text);
            let delta = document.member("delta"@);
            &&& text_event(text) == (Some("content_block_delta"@), compact_text(document))
            &&& document.text_member("type"@) == Some("content_block_delta"@)
            &&& document.unsigned_member("index"@) == Some(0u64)
            &&& delta is Some
            &&& delta->0.text_member("type"@) == Some("text_delta"@)
            &&& delta->0.text_member("text"@) == Some(text)
        }),
{
    lemma_answer_names();
}

/// What closes a stream: the end of the block, the reason and the tokens, and the end of the
/// message.
pub proof fn law_closing_of_a_stream(envelope: EnvelopeModel)
    ensures
        ({
            let closing = stop_events(envelope);
            let ending = message_delta_tree(envelope);
            let delta = ending.member("delta"@);
            let usage = ending.member("usage"@);
            &&& closing.len() == 3
            &&& closing[0] == (Some("content_block_stop"@), compact_text(block_stop_tree()))
            &&& closing[1] == (Some("message_delta"@), compact_text(ending))
            &&& closing[2] == (Some("message_stop"@), compact_text(message_stop_tree()))
            &&& block_stop_tree().text_member("type"@) == Some("content_block_stop"@)
            &&& block_stop_tree().unsigned_member("index"@) == Some(0u64)
            &&& message_stop_tree().text_member("type"@) == Some("message_stop"@)
            &&& ending.text_member("type"@) == Some("message_delta"@)
            &&& delta is Some
            &&& delta->0.text_member("stop_reason"@) == Some("end_turn"@)
            &&& usage is Some
            &&& usage->0.unsigned_member("output_tokens"@) == Some(envelope.usage.output_tokens)
        }),
{
    lemma_answer_names();
}

/// The identifier of an answer tells the protocol, and different answers apart.
pub proof fn law_answers_are_told_apart(id: Seq<char>, other: Seq<char>)
    ensures
        message_id(id) == "msg_"@ + id,
        message_id(id) == message_id(other) ==> id == other,
{
    let head = "msg_"@;
    assert((head + id).skip(head.len() as int) =~= id);
    assert((head + other).skip(head.len() as int) =~= other);
}

} // verus!
