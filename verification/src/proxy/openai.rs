//! The OpenAI protocol: chat completions, in one piece or as a stream, and the list
//! of models.

use crate::aliases::strictly_ascending;
use crate::json;
use crate::json::{
    compact_text, integer_tree, is_one_line, no_members, parsed_text, raw_value_key, reads_back, value_tree,
    value_trees, JsonNumber, JsonTree, READABLE_LEVELS,
};
use crate::models::ProxySettings;
use crate::proxy::runtime::{law_prompt_tells_the_conversation, prompt_lines, RuntimeUsage};
use crate::proxy::{
    authorize_openai, messages_view, openai_refusal, resolve_model_alias, resolved_alias,
    text_result, turn_result, EnvelopeModel, HeaderText, MessageModel, ProtocolError, ProtocolKind,
    ProxyExecutionEnvelope, ProxyRole, ProxyTurnMessage, ProxyTurnRequest, Refusal,
    ResolvedProxyConfig, TurnModel, BAD_REQUEST,
};
use crate::text;
use crate::text::{text_view, texts, trimmed};
use crate::utils::{is_plain_id, now_unix_seconds, plain_id, timestamp_of};
use serde_json::Value;
use vstd::prelude::*;

verus! {

/// A request for a chat completion.
#[derive(Debug)]
pub struct ChatCompletionsRequest {
    pub model: Option<String>,
    pub messages: Vec<ChatMessage>,
    pub stream: bool,
    pub tools: Option<Value>,
    pub tool_choice: Option<Value>,
    pub response_format: Option<Value>,
    pub n: Option<u32>,
}

/// A message of a chat.
#[derive(Debug)]
pub struct ChatMessage {
    pub role: String,
    pub content: ChatContent,
}

/// What a message of a chat says: a text, or parts of one.
#[derive(Debug)]
pub enum ChatContent {
    Text(String),
    Parts(Vec<ContentPart>),
}

/// A part of what a message says.
#[derive(Debug)]
pub struct ContentPart {
    pub part_type: String,
    pub text: Option<String>,
}

/// The list of models.
#[derive(Debug)]
pub struct ModelsResponse {
    pub object: &'static str,
    pub data: Vec<ModelDescriptor>,
}

/// A model of the list.
#[derive(Debug)]
pub struct ModelDescriptor {
    pub id: String,
    pub object: &'static str,
    pub owned_by: &'static str,
}

// ---------------------------------------------------------------------------
// Requests
// ---------------------------------------------------------------------------
/// The texts of parts one after the other, or why they are refused.
pub open spec fn parts_text(parts: Seq<ContentPart>) -> Result<Seq<char>, Refusal>
    decreases parts.len(),
{
    if parts.len() == 0 {
        Ok(Seq::empty())
    } else {
        match parts_text(parts.drop_last()) {
            Err(refusal) => Err(refusal),
            Ok(before) => if parts.last().part_type@ != "text"@ {
                Err((BAD_REQUEST, "OpenAI content parts only support text"@))
            } else {
                match parts.last().text {
                    None => Err((BAD_REQUEST, "OpenAI text content part is missing text"@)),
                    Some(text) => Ok(before + text@),
                }
            },
        }
    }
}

/// A text that is not blank, or its refusal.
pub open spec fn not_blank(text: Seq<char>) -> Result<Seq<char>, Refusal> {
    if trimmed(text).len() == 0 {
        Err((BAD_REQUEST, "OpenAI message content must not be empty"@))
    } else {
        Ok(text)
    }
}

/// The text of a message, or why it is refused.
pub open spec fn flattened(content: ChatContent) -> Result<Seq<char>, Refusal> {
    match content {
        ChatContent::Text(text) => not_blank(text@),
        ChatContent::Parts(parts) => match parts_text(parts@) {
            Ok(text) => not_blank(text),
            Err(refusal) => Err(refusal),
        },
    }
}

/// The text of parts one after the other.
fn join_parts(parts: &Vec<ContentPart>) -> (r: Result<String, ProtocolError>)
    ensures
        text_result(r) == parts_text(parts@),
{
    let mut out = String::new();
    let mut i: usize = 0;
    assert(parts@.take(0) =~= Seq::empty());
    assert(out@ =~= Seq::empty());
    while i < parts.len()
        invariant
            0 <= i <= parts@.len(),
            parts_text(parts@.take(i as int)) == Ok::<Seq<char>, Refusal>(out@),
        decreases parts@.len() - i,
    {
        let part = &parts[i];
        proof {
            assert(parts@.take(i + 1).drop_last() =~= parts@.take(i as int));
            assert(parts@.take(i + 1).last() == *part);
            if parts_text(parts@.take(i + 1)) is Err {
                lemma_parts_error(parts@, i + 1, parts@.len() as int);
                assert(parts@.take(parts@.len() as int) =~= parts@);
            }
        }
        if !text::same(part.part_type.as_str(), "text") {
            return Err(ProtocolError::bad_request("OpenAI content parts only support text"));
        }
        match &part.text {
            Some(text) => {
                out.append(text.as_str());
            },
            None => {
                return Err(ProtocolError::bad_request("OpenAI text content part is missing text"));
            },
        }
        i = i + 1;
    }
    assert(parts@.take(i as int) =~= parts@);
    Ok(out)
}

/// The first part that is refused decides.
proof fn lemma_parts_error(parts: Seq<ContentPart>, m: int, n: int)
    requires
        0 <= m <= n <= parts.len(),
        parts_text(parts.take(m)) is Err,
    ensures
        parts_text(parts.take(n)) == parts_text(parts.take(m)),
    decreases n - m,
{
    if m < n {
        assert(parts.take(n).drop_last() =~= parts.take(n - 1));
        lemma_parts_error(parts, m, n - 1);
    }
}

/// The text of a message.
pub fn flatten_content(content: &ChatContent) -> (r: Result<String, ProtocolError>)
    ensures
        text_result(r) == flattened(*content),
{
    let text = match content {
        ChatContent::Text(text) => text.clone(),
        ChatContent::Parts(parts) => match join_parts(parts) {
            Ok(text) => text,
            Err(error) => return Err(error),
        },
    };
    if text::is_blank(text.as_str()) {
        Err(ProtocolError::bad_request("OpenAI message content must not be empty"))
    } else {
        Ok(text)
    }
}

/// The role that a name stands for.
pub open spec fn role_of(name: Seq<char>) -> Option<ProxyRole> {
    if name == "system"@ {
        Some(ProxyRole::System)
    } else if name == "user"@ {
        Some(ProxyRole::User)
    } else if name == "assistant"@ {
        Some(ProxyRole::Assistant)
    } else {
        None
    }
}

/// The role that a name stands for.
fn read_role(name: &str) -> (r: Result<ProxyRole, ProtocolError>)
    ensures
        match (r, role_of(name@)) {
            (Ok(role), Some(expected)) => role == expected,
            (Err(error), None) => error.says(
                BAD_REQUEST,
                "unsupported OpenAI role: "@ + name@,
            ),
            _ => false,
        },
{
    if text::same(name, "system") {
        return Ok(ProxyRole::System);
    }
    if text::same(name, "user") {
        return Ok(ProxyRole::User);
    }
    if text::same(name, "assistant") {
        return Ok(ProxyRole::Assistant);
    }
    let mut message = "unsupported OpenAI role: ".to_owned();
    message.append(name);
    Err(ProtocolError::bad_request(message.as_str()))
}

/// What a chat says: the system messages, in one, and the others.
pub struct Conversation {
    pub system_prompt: Option<Seq<char>>,
    pub messages: Seq<MessageModel>,
}

/// A conversation with one message more. System messages are put together, with a
/// blank line between each two.
pub open spec fn with_message(
    before: Conversation,
    role: ProxyRole,
    content: Seq<char>,
) -> Conversation {
    if role == ProxyRole::System {
        Conversation {
            system_prompt: Some(
                match before.system_prompt {
                    Some(existing) => existing + "\n\n"@ + content,
                    None => content,
                },
            ),
            ..before
        }
    } else {
        Conversation { messages: before.messages.push(MessageModel { role, content }), ..before }
    }
}

/// What some messages say, or why the first bad one is refused.
pub open spec fn conversation(messages: Seq<ChatMessage>) -> Result<Conversation, Refusal>
    decreases messages.len(),
{
    if messages.len() == 0 {
        Ok(Conversation { system_prompt: None, messages: Seq::empty() })
    } else {
        let last = messages.last();
        match conversation(messages.drop_last()) {
            Err(refusal) => Err(refusal),
            Ok(before) => match role_of(last.role@) {
                None => Err((BAD_REQUEST, "unsupported OpenAI role: "@ + last.role@)),
                Some(role) => match flattened(last.content) {
                    Err(refusal) => Err(refusal),
                    Ok(content) => Ok(with_message(before, role, content)),
                },
            },
        }
    }
}

/// The first message that is refused decides.
proof fn lemma_conversation_error(messages: Seq<ChatMessage>, m: int, n: int)
    requires
        0 <= m <= n <= messages.len(),
        conversation(messages.take(m)) is Err,
    ensures
        conversation(messages.take(n)) == conversation(messages.take(m)),
    decreases n - m,
{
    if m < n {
        assert(messages.take(n).drop_last() =~= messages.take(n - 1));
        lemma_conversation_error(messages, m, n - 1);
    }
}

/// Why a request is refused for what it asks, before its messages are read.
pub open spec fn unsupported(request: ChatCompletionsRequest) -> Option<Refusal> {
    if request.tools is Some {
        Some((BAD_REQUEST, "OpenAI tools are not supported"@))
    } else if request.tool_choice is Some {
        Some((BAD_REQUEST, "OpenAI tool_choice is not supported"@))
    } else if request.response_format is Some {
        Some((BAD_REQUEST, "OpenAI response_format is not supported"@))
    } else if request.n is Some && request.n->0 != 1 {
        Some((BAD_REQUEST, "OpenAI n must be 1"@))
    } else if request.messages@.len() == 0 {
        Some((BAD_REQUEST, "OpenAI messages must not be empty"@))
    } else {
        None
    }
}

/// The model that a request names, or the usual alias.
pub open spec fn requested_model(model: Option<String>) -> Seq<char> {
    match model {
        Some(model) => model@,
        None => "codex"@,
    }
}

/// The turn that a request asks for, or why it is refused.
pub open spec fn requested_turn(
    request: ChatCompletionsRequest,
    settings: ProxySettings,
) -> Result<TurnModel, Refusal> {
    match unsupported(request) {
        Some(refusal) => Err(refusal),
        None => match resolved_alias(requested_model(request.model), settings.model_aliases) {
            Err(refusal) => Err(refusal),
            Ok((model_alias, resolved_model)) => match conversation(request.messages@) {
                Err(refusal) => Err(refusal),
                Ok(said) => if said.messages.len() == 0 {
                    Err(
                        (
                            BAD_REQUEST,
                            "OpenAI messages must include at least one non-system message"@,
                        ),
                    )
                } else {
                    Ok(
                        TurnModel {
                            protocol: ProtocolKind::OpenAi,
                            model_alias,
                            resolved_model,
                            system_prompt: said.system_prompt,
                            messages: said.messages,
                            stream: request.stream,
                            cwd: settings.default_cwd,
                        },
                    )
                },
            },
        },
    }
}

/// Refuses a request for what it asks, before its messages are read.
fn check_supported(request: &ChatCompletionsRequest) -> (r: Result<(), ProtocolError>)
    ensures
        crate::proxy::refusal(r) == unsupported(*request),
{
    if request.tools.is_some() {
        return Err(ProtocolError::bad_request("OpenAI tools are not supported"));
    }
    if request.tool_choice.is_some() {
        return Err(ProtocolError::bad_request("OpenAI tool_choice is not supported"));
    }
    if request.response_format.is_some() {
        return Err(ProtocolError::bad_request("OpenAI response_format is not supported"));
    }
    if let Some(n) = request.n {
        if n != 1 {
            return Err(ProtocolError::bad_request("OpenAI n must be 1"));
        }
    }
    if request.messages.len() == 0 {
        return Err(ProtocolError::bad_request("OpenAI messages must not be empty"));
    }
    Ok(())
}

/// Reads the messages of a request.
fn read_messages(messages: &Vec<ChatMessage>) -> (r: Result<
    (Option<String>, Vec<ProxyTurnMessage>),
    ProtocolError,
>)
    ensures
        match (r, conversation(messages@)) {
            (Ok((system_prompt, said)), Ok(expected)) => text_view(system_prompt)
                == expected.system_prompt && messages_view(said@) == expected.messages,
            (Err(error), Err(expected)) => error.says(expected.0, expected.1),
            _ => false,
        },
{
    let mut system_prompt: Option<String> = None;
    let mut said: Vec<ProxyTurnMessage> = Vec::new();
    let mut i: usize = 0;
    assert(messages@.take(0) =~= Seq::empty());
    assert(messages_view(said@) =~= Seq::empty());
    while i < messages.len()
        invariant
            0 <= i <= messages@.len(),
            conversation(messages@.take(i as int)) == Ok::<Conversation, Refusal>(
                Conversation {
                    system_prompt: text_view(system_prompt),
                    messages: messages_view(said@),
                },
            ),
        decreases messages@.len() - i,
    {
        let message = &messages[i];
        proof {
            assert(messages@.take(i + 1).drop_last() =~= messages@.take(i as int));
            assert(messages@.take(i + 1).last() == *message);
            if conversation(messages@.take(i + 1)) is Err {
                lemma_conversation_error(messages@, i + 1, messages@.len() as int);
                assert(messages@.take(messages@.len() as int) =~= messages@);
            }
        }
        let role = match read_role(message.role.as_str()) {
            Ok(role) => role,
            Err(error) => return Err(error),
        };
        let content = match flatten_content(&message.content) {
            Ok(content) => content,
            Err(error) => return Err(error),
        };
        if role == ProxyRole::System {
            system_prompt = match system_prompt {
                Some(existing) => {
                    let mut longer = existing;
                    longer.append("\n\n");
                    longer.append(content.as_str());
                    Some(longer)
                },
                None => Some(content),
            };
        } else {
            let ghost before = messages_view(said@);
            let ghost told = MessageModel { role, content: content@ };
            said.push(ProxyTurnMessage { role, content });
            assert(messages_view(said@) =~= before.push(told));
        }
        i = i + 1;
    }
    assert(messages@.take(i as int) =~= messages@);
    Ok((system_prompt, said))
}

/// Reads the turn that a request asks for.
pub fn into_turn_request(request: ChatCompletionsRequest, config: &ResolvedProxyConfig) -> (r:
    Result<ProxyTurnRequest, ProtocolError>)
    ensures
        turn_result(r) == requested_turn(request, config@),
{
    if let Err(error) = check_supported(&request) {
        return Err(error);
    }
    let requested = match &request.model {
        Some(model) => model.as_str(),
        None => "codex",
    };
    let (model_alias, resolved_model) = match resolve_model_alias(
        requested,
        &config.model_aliases,
    ) {
        Ok(resolved) => resolved,
        Err(error) => return Err(error),
    };
    let (system_prompt, messages) = match read_messages(&request.messages) {
        Ok(read) => read,
        Err(error) => return Err(error),
    };
    if messages.len() == 0 {
        return Err(
            ProtocolError::bad_request(
                "OpenAI messages must include at least one non-system message",
            ),
        );
    }
    Ok(
        ProxyTurnRequest {
            protocol: ProtocolKind::OpenAi,
            model_alias,
            resolved_model,
            system_prompt,
            messages,
            stream: request.stream,
            cwd: config.default_cwd.clone(),
        },
    )
}

/// The turn that a client may ask for, or why it is refused: for its key, and only then
/// for what it asks.
pub open spec fn accepted_turn(
    authorization: HeaderText,
    request: ChatCompletionsRequest,
    settings: ProxySettings,
) -> Result<TurnModel, Refusal> {
    match openai_refusal(authorization, settings.api_key) {
        Some(refusal) => Err(refusal),
        None => requested_turn(request, settings),
    }
}

/// Reads the turn that a client asks for, given its header `Authorization`.
pub fn accept_request(
    authorization: &HeaderText,
    request: ChatCompletionsRequest,
    config: &ResolvedProxyConfig,
) -> (r: Result<ProxyTurnRequest, ProtocolError>)
    ensures
        turn_result(r) == accepted_turn(*authorization, request, config@),
{
    match authorize_openai(authorization, config.api_key.as_str()) {
        Ok(()) => into_turn_request(request, config),
        Err(error) => Err(error),
    }
}

/// Every refusal of a request says that it is a bad one.
pub proof fn law_refused_requests_are_bad(
    request: ChatCompletionsRequest,
    settings: ProxySettings,
)
    ensures
        requested_turn(request, settings) is Err ==> requested_turn(request, settings)->Err_0.0
            == BAD_REQUEST,
{
    lemma_conversation_refusals(request.messages@);
}

/// Every refusal of messages says that the request is a bad one.
proof fn lemma_conversation_refusals(messages: Seq<ChatMessage>)
    ensures
        conversation(messages) is Err ==> conversation(messages)->Err_0.0 == BAD_REQUEST,
    decreases messages.len(),
{
    if messages.len() > 0 {
        lemma_conversation_refusals(messages.drop_last());
        if let ChatContent::Parts(parts) = messages.last().content {
            lemma_parts_refusals(parts@);
        }
    }
}

/// Every refusal of parts says that the request is a bad one.
proof fn lemma_parts_refusals(parts: Seq<ContentPart>)
    ensures
        parts_text(parts) is Err ==> parts_text(parts)->Err_0.0 == BAD_REQUEST,
    decreases parts.len(),
{
    if parts.len() > 0 {
        lemma_parts_refusals(parts.drop_last());
    }
}

// ---------------------------------------------------------------------------
// Answers
// ---------------------------------------------------------------------------
/// The identifiers of some models.
pub open spec fn model_ids(models: Seq<ModelDescriptor>) -> Seq<Seq<char>> {
    models.map_values(|model: ModelDescriptor| model.id@)
}

/// The list of models: the aliases, in ascending order.
pub fn models_response(config: &ResolvedProxyConfig) -> (r: ModelsResponse)
    ensures
        r.object@ == "list"@,
        strictly_ascending(model_ids(r.data@)),
        forall|alias: Seq<char>| #[trigger]
            model_ids(r.data@).contains(alias) <==> config@.model_aliases.contains_key(alias),
        forall|i: int|
            0 <= i < r.data@.len() ==> (#[trigger] r.data@[i]).object@ == "model"@
                && r.data@[i].owned_by@ == "codex-pool"@,
{
    let aliases = config.model_aliases.keys();
    let mut data: Vec<ModelDescriptor> = Vec::new();
    let mut i: usize = 0;
    while i < aliases.len()
        invariant
            0 <= i <= aliases@.len(),
            model_ids(data@) =~= texts(aliases@).take(i as int),
            data@.len() == i,
            forall|j: int|
                0 <= j < data@.len() ==> (#[trigger] data@[j]).object@ == "model"@
                    && data@[j].owned_by@ == "codex-pool"@,
        decreases aliases@.len() - i,
    {
        let ghost before = model_ids(data@);
        data.push(
            ModelDescriptor { id: aliases[i].clone(), object: "model", owned_by: "codex-pool" },
        );
        assert(model_ids(data@) =~= before.push(aliases@[i as int]@));
        i = i + 1;
    }
    assert(model_ids(data@) =~= texts(aliases@));
    ModelsResponse { object: "list", data }
}

/// A number that counts something.
pub open spec fn count_tree(tokens: int) -> JsonTree {
    JsonTree::Number(JsonNumber::Unsigned(tokens as u64))
}

/// An answer in one piece.
pub open spec fn completion_tree(envelope: EnvelopeModel) -> JsonTree {
    let message = JsonTree::Object(
        no_members().insert("role"@, JsonTree::Text("assistant"@)).insert(
            "content"@,
            JsonTree::Text(envelope.text),
        ),
    );
    let choice = JsonTree::Object(
        no_members().insert("index"@, count_tree(0)).insert("message"@, message).insert(
            "finish_reason"@,
            JsonTree::Text("stop"@),
        ),
    );
    let usage = JsonTree::Object(
        no_members().insert("prompt_tokens"@, count_tree(envelope.usage.input_tokens as int)).insert(
            "completion_tokens"@,
            count_tree(envelope.usage.output_tokens as int),
        ).insert(
            "total_tokens"@,
            count_tree(envelope.usage.input_tokens + envelope.usage.output_tokens),
        ),
    );
    JsonTree::Object(
        no_members().insert("id"@, JsonTree::Text(envelope.response_id)).insert(
            "object"@,
            JsonTree::Text("chat.completion"@),
        ).insert("created"@, integer_tree(envelope.created)).insert(
            "model"@,
            JsonTree::Text(envelope.model_alias),
        ).insert("choices"@, JsonTree::Array(seq![choice])).insert("usage"@, usage),
    )
}

/// An array of one value.
fn array_of_one(value: Value) -> (r: Value)
    ensures
        value_tree(r) == JsonTree::Array(seq![value_tree(value)]),
{
    let ghost tree = value_tree(value);
    let mut items: Vec<Value> = Vec::new();
    items.push(value);
    assert(value_trees(items@) =~= seq![tree]);
    json::array(items)
}

/// The answer in one piece.
pub fn completion_response(envelope: &ProxyExecutionEnvelope) -> (r: Value)
    requires
        envelope.usage.input_tokens + envelope.usage.output_tokens <= u64::MAX,
    ensures
        value_tree(r) == completion_tree(envelope@),
{
    let mut message = json::new_object();
    json::insert(&mut message, "role", json::string("assistant"));
    json::insert(&mut message, "content", json::string(envelope.text.as_str()));
    let mut choice = json::new_object();
    json::insert(&mut choice, "index", json::unsigned(0));
    json::insert(&mut choice, "message", json::object(message));
    json::insert(&mut choice, "finish_reason", json::string("stop"));
    let mut usage = json::new_object();
    json::insert(&mut usage, "prompt_tokens", json::unsigned(envelope.usage.input_tokens));
    json::insert(&mut usage, "completion_tokens", json::unsigned(envelope.usage.output_tokens));
    json::insert(
        &mut usage,
        "total_tokens",
        json::unsigned(envelope.usage.input_tokens + envelope.usage.output_tokens),
    );
    let mut answer = json::new_object();
    json::insert(&mut answer, "id", json::string(envelope.response_id.as_str()));
    json::insert(&mut answer, "object", json::string("chat.completion"));
    json::insert(&mut answer, "created", json::integer(envelope.created));
    json::insert(&mut answer, "model", json::string(envelope.model_alias.as_str()));
    json::insert(&mut answer, "choices", array_of_one(json::object(choice)));
    json::insert(&mut answer, "usage", json::object(usage));
    json::object(answer)
}

/// A chunk of a stream.
pub open spec fn chunk_tree(
    envelope: EnvelopeModel,
    delta: Map<Seq<char>, JsonTree>,
    finish_reason: JsonTree,
) -> JsonTree {
    let choice = JsonTree::Object(
        no_members().insert("index"@, count_tree(0)).insert("delta"@, JsonTree::Object(delta)).insert(
            "finish_reason"@,
            finish_reason,
        ),
    );
    JsonTree::Object(
        no_members().insert("id"@, JsonTree::Text(envelope.response_id)).insert(
            "object"@,
            JsonTree::Text("chat.completion.chunk"@),
        ).insert("created"@, integer_tree(envelope.created)).insert(
            "model"@,
            JsonTree::Text(envelope.model_alias),
        ).insert("choices"@, JsonTree::Array(seq![choice])),
    )
}

/// Whether a text is one line, and reads as a document.
pub open spec fn reads_as(text: Seq<char>, document: JsonTree) -> bool {
    is_one_line(text) && parsed_text(text) == Some(document)
}

/// A chunk of a stream.
fn write_chunk(
    envelope: &ProxyExecutionEnvelope,
    delta: serde_json::Map<String, Value>,
    finish_reason: Value,
) -> (r: String)
    requires
        !json::object_members(delta).contains_key(raw_value_key()),
        forall|key: Seq<char>|
            json::object_members(delta).contains_key(key) ==> #[trigger] json::object_members(
                delta,
            )[key] is Text,
        value_tree(finish_reason) is Text || value_tree(finish_reason) is Null,
    ensures
        r@ == compact_text(
            chunk_tree(envelope@, json::object_members(delta), value_tree(finish_reason)),
        ),
        reads_as(
            r@,
            chunk_tree(envelope@, json::object_members(delta), value_tree(finish_reason)),
        ),
{
    proof {
        lemma_chunk_reads_back(
            envelope@,
            json::object_members(delta),
            value_tree(finish_reason),
        );
    }
    let mut choice = json::new_object();
    json::insert(&mut choice, "index", json::unsigned(0));
    json::insert(&mut choice, "delta", json::object(delta));
    json::insert(&mut choice, "finish_reason", finish_reason);
    let mut chunk = json::new_object();
    json::insert(&mut chunk, "id", json::string(envelope.response_id.as_str()));
    json::insert(&mut chunk, "object", json::string("chat.completion.chunk"));
    json::insert(&mut chunk, "created", json::integer(envelope.created));
    json::insert(&mut chunk, "model", json::string(envelope.model_alias.as_str()));
    json::insert(&mut chunk, "choices", array_of_one(json::object(choice)));
    let chunk = json::object(chunk);
    json::write(&chunk)
}

/// The names of members in a chunk are none that `serde_json` keeps for itself.
proof fn lemma_chunk_keys()
    ensures
        raw_value_key() != "id"@,
        raw_value_key() != "object"@,
        raw_value_key() != "created"@,
        raw_value_key() != "model"@,
        raw_value_key() != "choices"@,
        raw_value_key() != "index"@,
        raw_value_key() != "delta"@,
        raw_value_key() != "finish_reason"@,
        raw_value_key() != "role"@,
        raw_value_key() != "content"@,
{
    reveal_strlit("$serde_json::private::RawValue");
    reveal_strlit("id");
    reveal_strlit("object");
    reveal_strlit("created");
    reveal_strlit("model");
    reveal_strlit("choices");
    reveal_strlit("index");
    reveal_strlit("delta");
    reveal_strlit("finish_reason");
    reveal_strlit("role");
    reveal_strlit("content");
    let reserved = raw_value_key().len();
    assert(reserved == 30);
    assert("id"@.len() < reserved);
    assert("object"@.len() < reserved);
    assert("created"@.len() < reserved);
    assert("model"@.len() < reserved);
    assert("choices"@.len() < reserved);
    assert("index"@.len() < reserved);
    assert("delta"@.len() < reserved);
    assert("finish_reason"@.len() < reserved);
    assert("role"@.len() < reserved);
    assert("content"@.len() < reserved);
}

/// A chunk reads back as it was written.
proof fn lemma_chunk_reads_back(
    envelope: EnvelopeModel,
    delta: Map<Seq<char>, JsonTree>,
    finish_reason: JsonTree,
)
    requires
        !delta.contains_key(raw_value_key()),
        forall|key: Seq<char>| delta.contains_key(key) ==> #[trigger] delta[key] is Text,
        finish_reason is Text || finish_reason is Null,
    ensures
        reads_back(chunk_tree(envelope, delta, finish_reason), READABLE_LEVELS as nat),
{
    let choice = JsonTree::Object(
        no_members().insert("index"@, count_tree(0)).insert("delta"@, JsonTree::Object(delta)).insert(
            "finish_reason"@,
            finish_reason,
        ),
    );
    lemma_chunk_keys();
    reveal_with_fuel(reads_back, 2);
    assert forall|key: Seq<char>| delta.contains_key(key) implies #[trigger] reads_back(
        delta[key],
        123,
    ) by {
        assert(delta[key] is Text);
    }
    assert(reads_back(JsonTree::Object(delta), 124));
    assert(reads_back(choice, 125));
    assert(reads_back(JsonTree::Array(seq![choice]), 126));
}

/// The first chunk of a stream.
pub open spec fn role_chunk(envelope: EnvelopeModel) -> Seq<char> {
    compact_text(
        chunk_tree(
            envelope,
            no_members().insert("role"@, JsonTree::Text("assistant"@)),
            JsonTree::Null,
        ),
    )
}

/// A chunk of a stream that brings text.
pub open spec fn text_chunk(envelope: EnvelopeModel, text: Seq<char>) -> Seq<char> {
    compact_text(
        chunk_tree(
            envelope,
            no_members().insert("content"@, JsonTree::Text(text)),
            JsonTree::Null,
        ),
    )
}

/// The last chunk of a stream.
pub open spec fn stop_chunk(envelope: EnvelopeModel) -> Seq<char> {
    compact_text(chunk_tree(envelope, no_members(), JsonTree::Text("stop"@)))
}

/// The first chunk of a stream.
pub fn stream_role_chunk(envelope: &ProxyExecutionEnvelope) -> (r: String)
    ensures
        r@ == role_chunk(envelope@),
        reads_as(
            r@,
            chunk_tree(
                envelope@,
                no_members().insert("role"@, JsonTree::Text("assistant"@)),
                JsonTree::Null,
            ),
        ),
{
    proof {
        lemma_chunk_keys();
    }
    let mut delta = json::new_object();
    json::insert(&mut delta, "role", json::string("assistant"));
    write_chunk(envelope, delta, json::null())
}

/// A chunk of a stream that brings text.
pub fn stream_text_chunk(envelope: &ProxyExecutionEnvelope, text: &str) -> (r: String)
    ensures
        r@ == text_chunk(envelope@, text@),
        reads_as(
            r@,
            chunk_tree(
                envelope@,
                no_members().insert("content"@, JsonTree::Text(text@)),
                JsonTree::Null,
            ),
        ),
{
    proof {
        lemma_chunk_keys();
    }
    let mut delta = json::new_object();
    json::insert(&mut delta, "content", json::string(text));
    write_chunk(envelope, delta, json::null())
}

/// The last chunk of a stream.
pub fn stream_stop_chunk(envelope: &ProxyExecutionEnvelope) -> (r: String)
    ensures
        r@ == stop_chunk(envelope@),
        reads_as(r@, chunk_tree(envelope@, no_members(), JsonTree::Text("stop"@))),
{
    write_chunk(envelope, json::new_object(), json::string("stop"))
}

/// An error as it is sent.
pub open spec fn error_tree(message: Seq<char>) -> JsonTree {
    let error = JsonTree::Object(
        no_members().insert("message"@, JsonTree::Text(message)).insert(
            "type"@,
            JsonTree::Text("invalid_request_error"@),
        ),
    );
    JsonTree::Object(no_members().insert("error"@, error))
}

/// An error as it is sent.
pub fn error_payload(message: &str) -> (r: Value)
    ensures
        value_tree(r) == error_tree(message@),
{
    let mut error = json::new_object();
    json::insert(&mut error, "message", json::string(message));
    json::insert(&mut error, "type", json::string("invalid_request_error"));
    let mut payload = json::new_object();
    json::insert(&mut payload, "error", json::object(error));
    json::object(payload)
}

/// An answer under the alias that a turn was asked for.
pub fn build_envelope(turn: &ProxyTurnRequest, result: &ProxyExecutionEnvelope) -> (r:
    ProxyExecutionEnvelope)
    ensures
        r@ == (EnvelopeModel { model_alias: turn@.model_alias, ..result@ }),
{
    ProxyExecutionEnvelope {
        response_id: result.response_id.clone(),
        created: result.created,
        model_alias: turn.model_alias.clone(),
        text: result.text.clone(),
        usage: result.usage,
    }
}

/// The identifier of an answer.
pub open spec fn completion_id(id: Seq<char>) -> Seq<char> {
    "chatcmpl_"@ + id
}

/// An answer with an identifier, made at a time.
pub fn execution_envelope_at(
    model_alias: &str,
    text: &str,
    usage: RuntimeUsage,
    id: &str,
    created: i64,
) -> (r: ProxyExecutionEnvelope)
    ensures
        r@ == (EnvelopeModel {
            response_id: completion_id(id@),
            created,
            model_alias: model_alias@,
            text: text@,
            usage,
        }),
{
    let mut response_id = "chatcmpl_".to_owned();
    response_id.append(id);
    ProxyExecutionEnvelope {
        response_id,
        created,
        model_alias: model_alias.to_owned(),
        text: text.to_owned(),
        usage,
    }
}

/// An answer with a fresh identifier, made now.
pub fn new_execution_envelope(model_alias: &str, text: &str, usage: RuntimeUsage) -> (r:
    ProxyExecutionEnvelope)
    ensures
        exists|id: Seq<char>|
            is_plain_id(id) && r@.response_id == #[trigger] completion_id(id),
        exists|reading: Option<u64>| r@.created == #[trigger] timestamp_of(reading),
        r@.model_alias == model_alias@,
        r@.text == text@,
        r@.usage == usage,
{
    let id = plain_id();
    let created: i64 = now_unix_seconds();
    execution_envelope_at(model_alias, text, usage, id.as_str(), created)
}

// ---------------------------------------------------------------------------
// What a request and an answer say
// ---------------------------------------------------------------------------
/// What a client wrote: its text, or the texts of its parts one after the other.
pub open spec fn written(content: ChatContent) -> Seq<char> {
    match content {
        ChatContent::Text(text) => text@,
        ChatContent::Parts(parts) => parts@.fold_left(
            Seq::<char>::empty(),
            |before: Seq<char>, part: ContentPart| before + part.text->0@,
        ),
    }
}

/// Whether a message can be told: it has a role that is known, every part of it is a text, and
/// together they are not blank.
pub open spec fn can_be_told(message: ChatMessage) -> bool {
    &&& message.role@ == "system"@ || message.role@ == "user"@ || message.role@ == "assistant"@
    &&& match message.content {
        ChatContent::Text(_) => true,
        ChatContent::Parts(parts) => forall|i: int|
            0 <= i < parts@.len() ==> (#[trigger] parts@[i]).part_type@ == "text"@
                && parts@[i].text is Some,
    }
    &&& trimmed(written(message.content)).len() > 0
}

/// Messages that are instructions, in order.
pub open spec fn instructions(messages: Seq<ChatMessage>) -> Seq<ChatMessage> {
    messages.filter(|message: ChatMessage| message.role@ == "system"@)
}

/// Messages that are part of the conversation, in order.
pub open spec fn utterances(messages: Seq<ChatMessage>) -> Seq<ChatMessage> {
    messages.filter(|message: ChatMessage| message.role@ != "system"@)
}

/// The texts of some messages.
pub open spec fn written_texts(messages: Seq<ChatMessage>) -> Seq<Seq<char>> {
    messages.map_values(|message: ChatMessage| written(message.content))
}

/// The names of roles are all different.
proof fn lemma_roles_differ()
    ensures
        "system"@ != "user"@,
        "system"@ != "assistant"@,
        "user"@ != "assistant"@,
{
    reveal_strlit("system");
    reveal_strlit("user");
    reveal_strlit("assistant");
    assert("system"@.len() == 6);
    assert("user"@.len() == 4);
    assert("assistant"@.len() == 9);
}

/// Parts are taken exactly where all of them are texts, and read one after the other.
proof fn lemma_parts(parts: Seq<ContentPart>)
    ensures
        parts_text(parts) is Ok <==> forall|i: int|
            0 <= i < parts.len() ==> (#[trigger] parts[i]).part_type@ == "text"@
                && parts[i].text is Some,
        parts_text(parts) is Ok ==> parts_text(parts)->Ok_0 == parts.fold_left(
            Seq::<char>::empty(),
            |before: Seq<char>, part: ContentPart| before + part.text->0@,
        ),
    decreases parts.len(),
{
    if parts.len() > 0 {
        let rest = parts.drop_last();
        lemma_parts(rest);
        if forall|i: int|
            0 <= i < rest.len() ==> (#[trigger] rest[i]).part_type@ == "text"@ && rest[i].text
                is Some {
            assert forall|i: int| 0 <= i < parts.len() - 1 implies (
            #[trigger] parts[i]).part_type@ == "text"@ && parts[i].text is Some by {
                assert(rest[i] == parts[i]);
            }
        } else {
            let i = choose|i: int|
                0 <= i < rest.len() && !((#[trigger] rest[i]).part_type@ == "text"@ && rest[i].text
                    is Some);
            assert(parts[i] == rest[i]);
        }
        assert(parts[parts.len() - 1] == parts.last());
    }
}

/// Messages are taken exactly where all of them can be told. The conversation then has those
/// that are no instructions, and the instructions stand together, with a blank line between
/// each two.
proof fn lemma_conversation(messages: Seq<ChatMessage>)
    ensures
        conversation(messages) is Ok <==> forall|i: int|
            0 <= i < messages.len() ==> can_be_told(#[trigger] messages[i]),
        conversation(messages) is Ok ==> {
            let said = conversation(messages)->Ok_0;
            &&& said.messages.len() == utterances(messages).len()
            &&& forall|k: int|
                0 <= k < said.messages.len() ==> {
                    let sent = utterances(messages)[k];
                    &&& (#[trigger] said.messages[k]).role == ProxyRole::User <==> sent.role@
                        == "user"@
                    &&& said.messages[k].role == ProxyRole::Assistant <==> sent.role@
                        == "assistant"@
                    &&& said.messages[k].role != ProxyRole::System
                    &&& said.messages[k].content == written(sent.content)
                }
            &&& instructions(messages).len() == 0 ==> said.system_prompt is None
            &&& instructions(messages).len() > 0 ==> said.system_prompt == Some(
                text::joined(written_texts(instructions(messages)), "\n\n"@),
            )
        },
    decreases messages.len(),
{
    reveal(Seq::filter);
    lemma_roles_differ();
    if messages.len() > 0 {
        let rest = messages.drop_last();
        let last = messages.last();
        lemma_conversation(rest);
        if let ChatContent::Parts(parts) = last.content {
            lemma_parts(parts@);
        }
        assert(flattened(last.content) is Ok && role_of(last.role@) is Some <==> can_be_told(last));
        assert(flattened(last.content) is Ok ==> flattened(last.content)->Ok_0 == written(
            last.content,
        ));
        if forall|i: int| 0 <= i < rest.len() ==> can_be_told(#[trigger] rest[i]) {
            assert forall|i: int| 0 <= i < messages.len() - 1 implies can_be_told(
                #[trigger] messages[i],
            ) by {
                assert(rest[i] == messages[i]);
            }
        } else {
            let i = choose|i: int| 0 <= i < rest.len() && !can_be_told(#[trigger] rest[i]);
            assert(messages[i] == rest[i]);
        }
        assert(messages[messages.len() - 1] == last);
        if conversation(messages) is Ok {
            if last.role@ == "system"@ {
                assert(utterances(messages) == utterances(rest));
                assert(instructions(messages) == instructions(rest).push(last));
                let before = written_texts(instructions(rest));
                let all = written_texts(instructions(messages));
                assert(all =~= before.push(written(last.content)));
                assert(all.drop_last() =~= before);
            } else {
                assert(utterances(messages) == utterances(rest).push(last));
                assert(instructions(messages) == instructions(rest));
            }
        }
    }
}

/// The turn of an accepted request has, in order, exactly one message for each message of the
/// request that is no instruction: of the role that the client named, and with what the client
/// wrote. The instructions are its system prompt. Its model is the one behind the alias that
/// the request names, or behind `codex`, and whether it is streamed is what the request says.
pub proof fn law_turn_has_what_the_client_sent(
    request: ChatCompletionsRequest,
    settings: ProxySettings,
    r: Result<ProxyTurnRequest, ProtocolError>,
)
    requires
        turn_result(r) == requested_turn(request, settings),
        r is Ok,
    ensures
        ({
            let turn = r->Ok_0;
            let sent = utterances(request.messages@);
            let told = instructions(request.messages@);
            let alias = trimmed(
                match request.model {
                    Some(model) => model@,
                    None => "codex"@,
                },
            );
            &&& turn.messages@.len() == sent.len()
            &&& sent.len() > 0
            &&& forall|k: int|
                0 <= k < sent.len() ==> {
                    &&& (#[trigger] turn.messages@[k]).role == ProxyRole::User <==> sent[k].role@
                        == "user"@
                    &&& turn.messages@[k].role == ProxyRole::Assistant <==> sent[k].role@
                        == "assistant"@
                    &&& turn.messages@[k].role != ProxyRole::System
                    &&& turn.messages@[k].content@ == written(sent[k].content)
                }
            &&& told.len() == 0 ==> turn.system_prompt is None
            &&& told.len() > 0 ==> turn.system_prompt is Some && turn.system_prompt->0@
                == text::joined(written_texts(told), "\n\n"@)
            &&& turn.protocol == ProtocolKind::OpenAi
            &&& turn.stream == request.stream
            &&& turn.cwd@ == settings.default_cwd
            &&& turn.model_alias@ == alias
            &&& settings.model_aliases.contains_key(alias)
            &&& turn.resolved_model@ == settings.model_aliases[alias]
        }),
{
    lemma_conversation(request.messages@);
    let turn = r->Ok_0;
    let said = conversation(request.messages@)->Ok_0;
    assert(turn@.messages == said.messages);
    assert(text_view(turn.system_prompt) == said.system_prompt);
    assert forall|k: int| 0 <= k < turn.messages@.len() implies (
    #[trigger] turn.messages@[k]).role == said.messages[k].role && turn.messages@[k].content@
        == said.messages[k].content by {
        assert(turn@.messages[k] == turn.messages@[k]@);
    }
}

/// A request is accepted exactly where it asks for nothing that is not supported, names a model
/// that is known, and has messages that can all be told, one of them no instruction.
pub proof fn law_which_requests_are_accepted(
    request: ChatCompletionsRequest,
    settings: ProxySettings,
)
    ensures
        requested_turn(request, settings) is Ok <==> {
            let alias = trimmed(
                match request.model {
                    Some(model) => model@,
                    None => "codex"@,
                },
            );
            &&& request.tools is None
            &&& request.tool_choice is None
            &&& request.response_format is None
            &&& request.n is None || request.n->0 == 1
            &&& alias.len() > 0
            &&& settings.model_aliases.contains_key(alias)
            &&& forall|i: int|
                0 <= i < request.messages@.len() ==> can_be_told(#[trigger] request.messages@[i])
            &&& utterances(request.messages@).len() > 0
        },
{
    reveal(Seq::filter);
    lemma_conversation(request.messages@);
}

/// The prompt of an accepted request shows each message under the role that the client named,
/// as the client wrote it.
pub proof fn law_prompt_shows_what_the_client_sent(
    request: ChatCompletionsRequest,
    settings: ProxySettings,
    k: int,
)
    requires
        requested_turn(request, settings) is Ok,
        0 <= k < utterances(request.messages@).len(),
    ensures
        ({
            let sent = utterances(request.messages@);
            let lines = prompt_lines(requested_turn(request, settings)->Ok_0);
            &&& lines.len() >= sent.len()
            &&& lines[lines.len() - sent.len() + k] == "["@ + sent[k].role@ + "]\n"@ + written(
                sent[k].content,
            )
        }),
{
    lemma_conversation(request.messages@);
    lemma_roles_of_utterances(request.messages@, k);
    let turn = requested_turn(request, settings)->Ok_0;
    law_prompt_tells_the_conversation(turn, k);
    assert(turn.messages[k].content == written(utterances(request.messages@)[k].content));
}

/// Who says something in a conversation that can be told is the user or the assistant.
proof fn lemma_roles_of_utterances(messages: Seq<ChatMessage>, k: int)
    requires
        conversation(messages) is Ok,
        0 <= k < utterances(messages).len(),
    ensures
        utterances(messages)[k].role@ == "user"@ || utterances(messages)[k].role@ == "assistant"@,
    decreases messages.len(),
{
    reveal(Seq::filter);
    lemma_roles_differ();
    if messages.len() > 0 {
        let rest = messages.drop_last();
        if k < utterances(rest).len() {
            lemma_roles_of_utterances(rest, k);
        }
    }
}

/// A request without the key is refused, whatever it asks; with the key it is read.
pub proof fn law_key_is_asked_for_first(
    authorization: HeaderText,
    request: ChatCompletionsRequest,
    settings: ProxySettings,
    key: String,
)
    ensures
        authorization == HeaderText::Text(key) && key@ == "Bearer "@ + settings.api_key
            ==> accepted_turn(authorization, request, settings) == requested_turn(
            request,
            settings,
        ),
        authorization == HeaderText::Text(key) && key@ != "Bearer "@ + settings.api_key
            || authorization is Missing || authorization is Unreadable ==> accepted_turn(
            authorization,
            request,
            settings,
        ) is Err && accepted_turn(authorization, request, settings)->Err_0.0 == 401,
{
}

/// The names of members in an answer are all different where they stand side by side.
proof fn lemma_answer_names()
    ensures
        "id"@.len() == 2,
        "object"@.len() == 6,
        "created"@.len() == 7,
        "model"@.len() == 5,
        "choices"@.len() == 7,
        "usage"@.len() == 5,
        "index"@.len() == 5,
        "message"@.len() == 7,
        "delta"@.len() == 5,
        "finish_reason"@.len() == 13,
        "role"@.len() == 4,
        "content"@.len() == 7,
        "prompt_tokens"@.len() == 13,
        "completion_tokens"@.len() == 17,
        "total_tokens"@.len() == 12,
        "error"@.len() == 5,
        "type"@.len() == 4,
        "created"@[1] == 'r',
        "choices"@[1] == 'h',
        "model"@[0] == 'm',
        "usage"@[0] == 'u',
        "index"@[0] == 'i',
        "delta"@[0] == 'd',
{
    reveal_strlit("id");
    reveal_strlit("object");
    reveal_strlit("created");
    reveal_strlit("model");
    reveal_strlit("choices");
    reveal_strlit("usage");
    reveal_strlit("index");
    reveal_strlit("message");
    reveal_strlit("delta");
    reveal_strlit("finish_reason");
    reveal_strlit("role");
    reveal_strlit("content");
    reveal_strlit("prompt_tokens");
    reveal_strlit("completion_tokens");
    reveal_strlit("total_tokens");
    reveal_strlit("error");
    reveal_strlit("type");
}

/// What an answer in one piece says: the text of the turn as the assistant's, its tokens and
/// their sum, and the identifier, the time and the alias of the answer.
pub proof fn law_answer_says_what_the_turn_brought(envelope: EnvelopeModel)
    requires
        envelope.usage.input_tokens + envelope.usage.output_tokens <= u64::MAX,
    ensures
        ({
            let answer = completion_tree(envelope);
            let choices = answer.member("choices"@);
            let choice = choices->0->Array_0[0];
            let message = choice.member("message"@);
            let usage = answer.member("usage"@);
            &&& answer.text_member("id"@) == Some(envelope.response_id)
            &&& answer.text_member("object"@) == Some("chat.completion"@)
            &&& answer.member("created"@) == Some(integer_tree(envelope.created))
            &&& answer.text_member("model"@) == Some(envelope.model_alias)
            &&& choices is Some && choices->0 is Array && choices->0->Array_0.len() == 1
            &&& choice.unsigned_member("index"@) == Some(0u64)
            &&& choice.text_member("finish_reason"@) == Some("stop"@)
            &&& message is Some
            &&& message->0.text_member("role"@) == Some("assistant"@)
            &&& message->0.text_member("content"@) == Some(envelope.text)
            &&& usage is Some
            &&& usage->0.unsigned_member("prompt_tokens"@) == Some(envelope.usage.input_tokens)
            &&& usage->0.unsigned_member("completion_tokens"@) == Some(
                envelope.usage.output_tokens,
            )
            &&& usage->0.unsigned_member("total_tokens"@) is Some
            &&& usage->0.unsigned_member("total_tokens"@)->0 == envelope.usage.input_tokens
                + envelope.usage.output_tokens
        }),
{
    lemma_answer_names();
}

/// Whether a text is that of a chunk of an answer whose one choice has a delta and a reason to
/// end.
pub open spec fn is_chunk_of(
    text: Seq<char>,
    envelope: EnvelopeModel,
    delta: JsonTree,
    finish_reason: JsonTree,
) -> bool {
    exists|document: JsonTree|
        #![trigger compact_text(document)]
        {
            let choices = document.member("choices"@);
            let choice = choices->0->Array_0[0];
            &&& text == compact_text(document)
            &&& document.text_member("id"@) == Some(envelope.response_id)
            &&& document.text_member("object"@) == Some("chat.completion.chunk"@)
            &&& document.member("created"@) == Some(integer_tree(envelope.created))
            &&& document.text_member("model"@) == Some(envelope.model_alias)
            &&& choices is Some && choices->0 is Array && choices->0->Array_0.len() == 1
            &&& choice.unsigned_member("index"@) == Some(0u64)
            &&& choice.member("delta"@) == Some(delta)
            &&& choice.member("finish_reason"@) == Some(finish_reason)
        }
}

/// What the chunks of a stream say: the first one that the assistant speaks, each of the
/// following ones its piece of text, and the last one that this was all.
pub proof fn law_chunks_say_what_is_streamed(envelope: EnvelopeModel, text: Seq<char>)
    ensures
        exists|delta: JsonTree|
            {
                &&& #[trigger] is_chunk_of(
                    role_chunk(envelope),
                    envelope,
                    delta,
                    JsonTree::Null,
                )
                &&& delta.text_member("role"@) == Some("assistant"@)
                &&& delta.member("content"@) is None
            },
        exists|delta: JsonTree|
            {
                &&& #[trigger] is_chunk_of(
                    text_chunk(envelope, text),
                    envelope,
                    delta,
                    JsonTree::Null,
                )
                &&& delta.text_member("content"@) == Some(text)
            },
        exists|delta: JsonTree|
            {
                &&& #[trigger] is_chunk_of(
                    stop_chunk(envelope),
                    envelope,
                    delta,
                    JsonTree::Text("stop"@),
                )
                &&& delta.member("content"@) is None
            },
{
    lemma_answer_names();
    let role = no_members().insert("role"@, JsonTree::Text("assistant"@));
    let content = no_members().insert("content"@, JsonTree::Text(text));
    let document = chunk_tree(envelope, role, JsonTree::Null);
    assert(role_chunk(envelope) == compact_text(document));
    assert(is_chunk_of(role_chunk(envelope), envelope, JsonTree::Object(role), JsonTree::Null));
    let document = chunk_tree(envelope, content, JsonTree::Null);
    assert(text_chunk(envelope, text) == compact_text(document));
    assert(is_chunk_of(
        text_chunk(envelope, text),
        envelope,
        JsonTree::Object(content),
        JsonTree::Null,
    ));
    let document = chunk_tree(envelope, no_members(), JsonTree::Text("stop"@));
    assert(stop_chunk(envelope) == compact_text(document));
    assert(is_chunk_of(
        stop_chunk(envelope),
        envelope,
        JsonTree::Object(no_members()),
        JsonTree::Text("stop"@),
    ));
}

/// An error is sent with its message.
pub proof fn law_error_is_sent_with_its_message(message: Seq<char>)
    ensures
        error_tree(message).member("error"@) is Some,
        error_tree(message).member("error"@)->0.text_member("message"@) == Some(message),
        error_tree(message).member("error"@)->0.text_member("type"@) == Some(
            "invalid_request_error"@,
        ),
{
    lemma_answer_names();
}

/// The identifier of an answer tells the protocol, and different answers apart.
pub proof fn law_answers_are_told_apart(id: Seq<char>, other: Seq<char>)
    ensures
        completion_id(id) == "chatcmpl_"@ + id,
        completion_id(id) == completion_id(other) ==> id == other,
{
    let head = "chatcmpl_"@;
    assert((head + id).skip(head.len() as int) =~= id);
    assert((head + other).skip(head.len() as int) =~= other);
}

} // verus!
