//! The local proxy: which account serves a request, and how requests and answers
//! are read and written.

use crate::aliases::ModelAliases;
use crate::models::{normalized_settings, ProxyConfig, ProxySettings};
use crate::text;
use crate::text::{lemma_nothing_to_trim, text_view, trimmed};
use vstd::prelude::*;

pub mod admin;
pub mod anthropic;
pub mod attempts;
pub mod backend;
pub mod openai;
pub mod runtime;
pub mod scheduler;
pub mod stream;

verus! {

// ---------------------------------------------------------------------------
// Turns
// ---------------------------------------------------------------------------
/// What the command line sets over the configuration of the proxy.
#[derive(Debug, Clone)]
pub struct ServeOptions {
    pub listen: Option<String>,
    pub cwd: Option<String>,
    pub api_key: Option<String>,
    pub default_model: Option<String>,
    pub sandbox: Option<String>,
    pub approval_policy: Option<String>,
    pub usage_refresh_interval: Option<u64>,
    pub max_concurrent_requests: Option<usize>,
    pub max_inflight_per_account: Option<usize>,
}

impl Default for ServeOptions {
    fn default() -> (r: ServeOptions)
        ensures
            r == no_options(),
    {
        ServeOptions {
            listen: None,
            cwd: None,
            api_key: None,
            default_model: None,
            sandbox: None,
            approval_policy: None,
            usage_refresh_interval: None,
            max_concurrent_requests: None,
            max_inflight_per_account: None,
        }
    }
}

/// Options that set nothing.
pub open spec fn no_options() -> ServeOptions {
    ServeOptions {
        listen: None,
        cwd: None,
        api_key: None,
        default_model: None,
        sandbox: None,
        approval_policy: None,
        usage_refresh_interval: None,
        max_concurrent_requests: None,
        max_inflight_per_account: None,
    }
}

/// The protocol that a client speaks.
#[derive(Debug, Clone, Copy, PartialEq, Eq, Structural)]
pub enum ProtocolKind {
    OpenAi,
    Anthropic,
}

/// Who said a message.
#[derive(Debug, Clone, Copy, PartialEq, Eq, Structural)]
pub enum ProxyRole {
    System,
    User,
    Assistant,
}

/// A message of a conversation.
#[derive(Debug, Clone)]
pub struct ProxyTurnMessage {
    pub role: ProxyRole,
    pub content: String,
}

/// What a message says, and who said it.
pub struct MessageModel {
    pub role: ProxyRole,
    pub content: Seq<char>,
}

impl View for ProxyTurnMessage {
    type V = MessageModel;

    open spec fn view(&self) -> MessageModel {
        MessageModel { role: self.role, content: self.content@ }
    }
}

/// The views of some messages.
pub open spec fn messages_view(messages: Seq<ProxyTurnMessage>) -> Seq<MessageModel> {
    messages.map_values(|message: ProxyTurnMessage| message@)
}

/// A request of a client, whatever its protocol: one turn of the assistant.
#[derive(Debug, Clone)]
pub struct ProxyTurnRequest {
    pub protocol: ProtocolKind,
    pub model_alias: String,
    pub resolved_model: String,
    pub system_prompt: Option<String>,
    pub messages: Vec<ProxyTurnMessage>,
    pub stream: bool,
    pub cwd: String,
}

/// What a turn asks for.
pub struct TurnModel {
    pub protocol: ProtocolKind,
    pub model_alias: Seq<char>,
    pub resolved_model: Seq<char>,
    pub system_prompt: Option<Seq<char>>,
    pub messages: Seq<MessageModel>,
    pub stream: bool,
    pub cwd: Seq<char>,
}

impl View for ProxyTurnRequest {
    type V = TurnModel;

    open spec fn view(&self) -> TurnModel {
        TurnModel {
            protocol: self.protocol,
            model_alias: self.model_alias@,
            resolved_model: self.resolved_model@,
            system_prompt: text_view(self.system_prompt),
            messages: messages_view(self.messages@),
            stream: self.stream,
            cwd: self.cwd@,
        }
    }
}

/// A finished turn, or one that is on its way, as it is answered.
#[derive(Debug, Clone)]
pub struct ProxyExecutionEnvelope {
    pub response_id: String,
    pub created: i64,
    pub model_alias: String,
    pub text: String,
    pub usage: runtime::RuntimeUsage,
}

/// What an answer says.
pub struct EnvelopeModel {
    pub response_id: Seq<char>,
    pub created: i64,
    pub model_alias: Seq<char>,
    pub text: Seq<char>,
    pub usage: runtime::RuntimeUsage,
}

impl View for ProxyExecutionEnvelope {
    type V = EnvelopeModel;

    open spec fn view(&self) -> EnvelopeModel {
        EnvelopeModel {
            response_id: self.response_id@,
            created: self.created,
            model_alias: self.model_alias@,
            text: self.text@,
            usage: self.usage,
        }
    }
}

// ---------------------------------------------------------------------------
// Errors
// ---------------------------------------------------------------------------
/// The status of a request that cannot be understood.
pub const BAD_REQUEST: u16 = 400;

/// The status of a request without the right key.
pub const UNAUTHORIZED: u16 = 401;

/// The status of a request that no account could serve.
pub const BAD_GATEWAY: u16 = 502;

/// The status of a request for which no account is free.
pub const SERVICE_UNAVAILABLE: u16 = 503;

/// Why a request is refused: an HTTP status and a message.
#[derive(Debug, Clone)]
pub struct ProtocolError {
    pub status: u16,
    pub message: String,
}

impl ProtocolError {
    /// Whether the error has a status and a message.
    pub open spec fn says(self, status: u16, message: Seq<char>) -> bool {
        self.status == status && self.message@ == message
    }

    /// An error with a status and a message.
    pub fn new(status: u16, message: &str) -> (r: ProtocolError)
        ensures
            r.says(status, message@),
    {
        ProtocolError { status, message: message.to_owned() }
    }

    /// The error of a request that cannot be understood.
    pub fn bad_request(message: &str) -> (r: ProtocolError)
        ensures
            r.says(BAD_REQUEST, message@),
    {
        ProtocolError::new(BAD_REQUEST, message)
    }
}

/// A status and a message.
pub type Refusal = (u16, Seq<char>);

/// The refusal of a result.
pub open spec fn refusal<T>(r: Result<T, ProtocolError>) -> Option<Refusal> {
    match r {
        Ok(_) => None,
        Err(error) => Some((error.status, error.message@)),
    }
}

/// What a request asks for, or its refusal.
pub open spec fn turn_result(r: Result<ProxyTurnRequest, ProtocolError>) -> Result<
    TurnModel,
    Refusal,
> {
    match r {
        Ok(turn) => Ok(turn@),
        Err(error) => Err((error.status, error.message@)),
    }
}

/// A text, or a refusal.
pub open spec fn text_result(r: Result<String, ProtocolError>) -> Result<Seq<char>, Refusal> {
    match r {
        Ok(text) => Ok(text@),
        Err(error) => Err((error.status, error.message@)),
    }
}

// ---------------------------------------------------------------------------
// Configuration
// ---------------------------------------------------------------------------
/// The configuration of a running proxy.
#[derive(Debug, Clone)]
pub struct ResolvedProxyConfig {
    pub listen: String,
    pub api_key: String,
    pub default_cwd: String,
    pub default_model: String,
    pub sandbox: String,
    pub approval_policy: String,
    pub usage_refresh_interval_seconds: u64,
    pub max_concurrent_requests: usize,
    pub max_inflight_per_account: usize,
    pub model_aliases: ModelAliases,
}

impl View for ResolvedProxyConfig {
    type V = ProxySettings;

    open spec fn view(&self) -> ProxySettings {
        ProxySettings {
            listen: self.listen@,
            api_key: self.api_key@,
            default_cwd: self.default_cwd@,
            default_model: self.default_model@,
            sandbox: self.sandbox@,
            approval_policy: self.approval_policy@,
            usage_refresh_interval_seconds: self.usage_refresh_interval_seconds as nat,
            max_concurrent_requests: self.max_concurrent_requests as nat,
            max_inflight_per_account: self.max_inflight_per_account as nat,
            model_aliases: self.model_aliases@,
        }
    }
}

/// A text that is set, or the one that was there.
pub open spec fn set_text(option: Option<String>, before: Seq<char>) -> Seq<char> {
    match option {
        Some(value) => value@,
        None => before,
    }
}

/// Settings with what the command line sets.
pub open spec fn overlaid(settings: ProxySettings, options: ServeOptions) -> ProxySettings {
    ProxySettings {
        listen: set_text(options.listen, settings.listen),
        api_key: set_text(options.api_key, settings.api_key),
        default_cwd: set_text(options.cwd, settings.default_cwd),
        default_model: set_text(options.default_model, settings.default_model),
        sandbox: set_text(options.sandbox, settings.sandbox),
        approval_policy: set_text(options.approval_policy, settings.approval_policy),
        usage_refresh_interval_seconds: match options.usage_refresh_interval {
            Some(seconds) => seconds as nat,
            None => settings.usage_refresh_interval_seconds,
        },
        max_concurrent_requests: match options.max_concurrent_requests {
            Some(limit) => limit as nat,
            None => settings.max_concurrent_requests,
        },
        max_inflight_per_account: match options.max_inflight_per_account {
            Some(limit) => limit as nat,
            None => settings.max_inflight_per_account,
        },
        model_aliases: settings.model_aliases,
    }
}

/// The configuration of a proxy: what the command line sets, over what the file
/// says, with the gaps filled. `cwd` is the directory that the proxy was started in.
pub fn resolve_proxy_config(proxy: ProxyConfig, options: ServeOptions, cwd: &str) -> (r:
    ResolvedProxyConfig)
    ensures
        r@ == normalized_settings(overlaid(proxy@, options), cwd@),
{
    let mut proxy = proxy;
    if let Some(listen) = options.listen {
        proxy.listen = listen;
    }
    if let Some(cwd) = options.cwd {
        proxy.default_cwd = cwd;
    }
    if let Some(api_key) = options.api_key {
        proxy.api_key = api_key;
    }
    if let Some(default_model) = options.default_model {
        proxy.default_model = default_model;
    }
    if let Some(sandbox) = options.sandbox {
        proxy.sandbox = sandbox;
    }
    if let Some(approval_policy) = options.approval_policy {
        proxy.approval_policy = approval_policy;
    }
    if let Some(interval) = options.usage_refresh_interval {
        proxy.usage_refresh_interval_seconds = interval;
    }
    if let Some(limit) = options.max_concurrent_requests {
        proxy.max_concurrent_requests = limit;
    }
    if let Some(limit) = options.max_inflight_per_account {
        proxy.max_inflight_per_account = limit;
    }
    proxy.normalize(cwd);
    ResolvedProxyConfig {
        listen: proxy.listen,
        api_key: proxy.api_key,
        default_cwd: proxy.default_cwd,
        default_model: proxy.default_model,
        sandbox: proxy.sandbox,
        approval_policy: proxy.approval_policy,
        usage_refresh_interval_seconds: proxy.usage_refresh_interval_seconds,
        max_concurrent_requests: proxy.max_concurrent_requests,
        max_inflight_per_account: proxy.max_inflight_per_account,
        model_aliases: proxy.model_aliases,
    }
}

/// The alias that a request names and the model behind it, or why there is none.
pub open spec fn resolved_alias(
    requested: Seq<char>,
    aliases: Map<Seq<char>, Seq<char>>,
) -> Result<(Seq<char>, Seq<char>), Refusal> {
    let alias = trimmed(requested);
    if alias.len() == 0 {
        Err((BAD_REQUEST, "model must not be empty"@))
    } else if aliases.contains_key(alias) {
        Ok((alias, aliases[alias]))
    } else {
        Err((BAD_REQUEST, "unknown model alias: "@ + alias))
    }
}

/// Finds the model behind an alias.
pub fn resolve_model_alias(requested: &str, aliases: &ModelAliases) -> (r: Result<
    (String, String),
    ProtocolError,
>)
    ensures
        match (r, resolved_alias(requested@, aliases@)) {
            (Ok((alias, model)), Ok(expected)) => alias@ == expected.0 && model@ == expected.1,
            (Err(error), Err(expected)) => error.says(expected.0, expected.1),
            _ => false,
        },
{
    let alias = text::trim(requested);
    if alias.as_str().is_empty() {
        return Err(ProtocolError::bad_request("model must not be empty"));
    }
    match aliases.get(alias.as_str()) {
        Some(model) => Ok((alias, model)),
        None => {
            let mut message = "unknown model alias: ".to_owned();
            message.append(alias.as_str());
            Err(ProtocolError::bad_request(message.as_str()))
        },
    }
}

/// A running proxy always has a model behind the alias that a request without one
/// means.
pub proof fn law_usual_alias_resolves(settings: ProxySettings, cwd: Seq<char>)
    ensures
        resolved_alias("codex"@, normalized_settings(settings, cwd).model_aliases) is Ok,
{
    reveal_strlit("codex");
    lemma_nothing_to_trim("codex"@);
}

// ---------------------------------------------------------------------------
// Authorization
// ---------------------------------------------------------------------------
/// A header of a request.
#[derive(Debug)]
pub enum HeaderText {
    Missing,
    /// The header is there, and is not a text.
    Unreadable,
    Text(String),
}

/// Why a request of an OpenAI client is refused, if it is.
pub open spec fn openai_refusal(header: HeaderText, key: Seq<char>) -> Option<Refusal> {
    match header {
        HeaderText::Missing => Some((UNAUTHORIZED, "missing Authorization header"@)),
        HeaderText::Unreadable => Some((UNAUTHORIZED, "invalid Authorization header"@)),
        HeaderText::Text(value) => if value@ == "Bearer "@ + key {
            None
        } else {
            Some((UNAUTHORIZED, "invalid API key"@))
        },
    }
}

/// Whether a request of an OpenAI client has the right key, given its header
/// `Authorization`.
pub fn authorize_openai(authorization: &HeaderText, expected_api_key: &str) -> (r: Result<
    (),
    ProtocolError,
>)
    ensures
        refusal(r) == openai_refusal(*authorization, expected_api_key@),
{
    match authorization {
        HeaderText::Missing => Err(
            ProtocolError::new(UNAUTHORIZED, "missing Authorization header"),
        ),
        HeaderText::Unreadable => Err(
            ProtocolError::new(UNAUTHORIZED, "invalid Authorization header"),
        ),
        HeaderText::Text(value) => {
            let mut expected = "Bearer ".to_owned();
            expected.append(expected_api_key);
            if text::same(value.as_str(), expected.as_str()) {
                Ok(())
            } else {
                Err(ProtocolError::new(UNAUTHORIZED, "invalid API key"))
            }
        },
    }
}

/// The text of a header, where it has one.
pub open spec fn header_text(header: HeaderText) -> Option<Seq<char>> {
    match header {
        HeaderText::Text(value) => Some(value@),
        _ => None,
    }
}

/// Why a request of an Anthropic client is refused, if it is.
pub open spec fn anthropic_refusal(
    version: HeaderText,
    api_key: HeaderText,
    key: Seq<char>,
) -> Option<Refusal> {
    match header_text(version) {
        None => Some((BAD_REQUEST, "missing anthropic-version header"@)),
        Some(version) => if version != anthropic::REQUIRED_VERSION@ {
            Some((BAD_REQUEST, "unsupported anthropic-version: "@ + version))
        } else {
            match header_text(api_key) {
                None => Some((UNAUTHORIZED, "missing x-api-key header"@)),
                Some(presented) => if presented == key {
                    None
                } else {
                    Some((UNAUTHORIZED, "invalid API key"@))
                },
            }
        },
    }
}

/// Whether a request of an Anthropic client has the right version and the right
/// key, given its headers `anthropic-version` and `x-api-key`.
pub fn authorize_anthropic(
    version: &HeaderText,
    api_key: &HeaderText,
    expected_api_key: &str,
) -> (r: Result<(), ProtocolError>)
    ensures
        refusal(r) == anthropic_refusal(*version, *api_key, expected_api_key@),
{
    let version = match version {
        HeaderText::Text(version) => version,
        _ => return Err(ProtocolError::bad_request("missing anthropic-version header")),
    };
    if !text::same(version.as_str(), anthropic::REQUIRED_VERSION) {
        let mut message = "unsupported anthropic-version: ".to_owned();
        message.append(version.as_str());
        return Err(ProtocolError::bad_request(message.as_str()));
    }
    let presented = match api_key {
        HeaderText::Text(presented) => presented,
        _ => return Err(ProtocolError::new(UNAUTHORIZED, "missing x-api-key header")),
    };
    if !text::same(presented.as_str(), expected_api_key) {
        return Err(ProtocolError::new(UNAUTHORIZED, "invalid API key"));
    }
    Ok(())
}

/// A request is let in only with the key: an OpenAI client by its bearer token, an
/// Anthropic client by its key and the one supported version.
pub proof fn law_only_the_key_opens(
    authorization: HeaderText,
    version: HeaderText,
    api_key: HeaderText,
    key: Seq<char>,
)
    ensures
        openai_refusal(authorization, key) is None <==> header_text(authorization) == Some(
            "Bearer "@ + key,
        ),
        anthropic_refusal(version, api_key, key) is None <==> header_text(version) == Some(
            anthropic::REQUIRED_VERSION@,
        ) && header_text(api_key) == Some(key),
{
}

// ---------------------------------------------------------------------------
// What the configuration says
// ---------------------------------------------------------------------------
/// Of two values the one that the command line sets counts, else the one of the file, and a
/// blank or a zero is filled by the default. The aliases of the file all stay, and the usual
/// one leads to the default model unless the file says where.
pub proof fn law_command_line_comes_first(
    proxy: ProxyConfig,
    options: ServeOptions,
    cwd: Seq<char>,
    r: ResolvedProxyConfig,
    alias: Seq<char>,
)
    requires
        r@ == normalized_settings(overlaid(proxy@, options), cwd),
    ensures
        ({
            let listen = if options.listen is Some {
                options.listen->0@
            } else {
                proxy.listen@
            };
            &&& trimmed(listen).len() > 0 ==> r.listen@ == listen
            &&& trimmed(listen).len() == 0 ==> r.listen@ == "127.0.0.1:4141"@
        }),
        ({
            let key = if options.api_key is Some {
                options.api_key->0@
            } else {
                proxy.api_key@
            };
            &&& trimmed(key).len() > 0 ==> r.api_key@ == key
            &&& trimmed(key).len() == 0 ==> r.api_key@ == "codex-pool-local"@
        }),
        ({
            let dir = if options.cwd is Some {
                options.cwd->0@
            } else {
                proxy.default_cwd@
            };
            &&& trimmed(dir).len() > 0 && dir != "."@ ==> r.default_cwd@ == dir
            &&& trimmed(dir).len() == 0 || dir == "."@ ==> r.default_cwd@ == cwd
        }),
        ({
            let model = if options.default_model is Some {
                options.default_model->0@
            } else {
                proxy.default_model@
            };
            &&& trimmed(model).len() > 0 ==> r.default_model@ == model
            &&& trimmed(model).len() == 0 ==> r.default_model@ == "gpt-5.4"@
        }),
        ({
            let sandbox = if options.sandbox is Some {
                options.sandbox->0@
            } else {
                proxy.sandbox@
            };
            &&& trimmed(sandbox).len() > 0 ==> r.sandbox@ == sandbox
            &&& trimmed(sandbox).len() == 0 ==> r.sandbox@ == "workspace-write"@
        }),
        ({
            let policy = if options.approval_policy is Some {
                options.approval_policy->0@
            } else {
                proxy.approval_policy@
            };
            &&& trimmed(policy).len() > 0 ==> r.approval_policy@ == policy
            &&& trimmed(policy).len() == 0 ==> r.approval_policy@ == "never"@
        }),
        ({
            let seconds = if options.usage_refresh_interval is Some {
                options.usage_refresh_interval->0
            } else {
                proxy.usage_refresh_interval_seconds
            };
            &&& seconds > 0 ==> r.usage_refresh_interval_seconds == seconds
            &&& seconds == 0 ==> r.usage_refresh_interval_seconds == 60
        }),
        ({
            let limit = if options.max_concurrent_requests is Some {
                options.max_concurrent_requests->0
            } else {
                proxy.max_concurrent_requests
            };
            &&& limit > 0 ==> r.max_concurrent_requests == limit
            &&& limit == 0 ==> r.max_concurrent_requests == 8
        }),
        ({
            let limit = if options.max_inflight_per_account is Some {
                options.max_inflight_per_account->0
            } else {
                proxy.max_inflight_per_account
            };
            &&& limit > 0 ==> r.max_inflight_per_account == limit
            &&& limit == 0 ==> r.max_inflight_per_account == 1
        }),
        proxy.model_aliases@.contains_key(alias) ==> r.model_aliases@.contains_key(alias)
            && r.model_aliases@[alias] == proxy.model_aliases@[alias],
        r.model_aliases@.contains_key(alias) ==> alias == "codex"@
            || proxy.model_aliases@.contains_key(alias),
        r.model_aliases@.contains_key("codex"@),
        !proxy.model_aliases@.contains_key("codex"@) ==> r.model_aliases@["codex"@]
            == r.default_model@,
{
    let s = overlaid(proxy@, options);
    let n = normalized_settings(s, cwd);
    assert(r@.listen == n.listen);
    assert(r@.usage_refresh_interval_seconds == n.usage_refresh_interval_seconds);
    assert(r@.max_concurrent_requests == n.max_concurrent_requests);
    assert(r@.max_inflight_per_account == n.max_inflight_per_account);
}

/// An alias is found without the white space around it, and with it the model that the
/// configuration gives; an alias that is blank or not there is refused as a bad request.
pub proof fn law_alias_leads_to_its_model(
    requested: Seq<char>,
    aliases: Map<Seq<char>, Seq<char>>,
)
    ensures
        ({
            let alias = trimmed(requested);
            let r = resolved_alias(requested, aliases);
            &&& alias.len() > 0 && aliases.contains_key(alias) ==> r == Ok::<
                (Seq<char>, Seq<char>),
                Refusal,
            >((alias, aliases[alias]))
            &&& alias.len() == 0 ==> r is Err && r->Err_0.0 == 400 && r->Err_0.1
                == "model must not be empty"@
            &&& alias.len() > 0 && !aliases.contains_key(alias) ==> r is Err && r->Err_0.0 == 400
                && r->Err_0.1 == "unknown model alias: "@ + alias
        }),
{
}

/// What is refused for want of the key is refused as not authorized; an Anthropic client
/// without the supported version is refused as a bad request.
pub proof fn law_how_strangers_are_refused(
    authorization: HeaderText,
    version: HeaderText,
    api_key: HeaderText,
    key: Seq<char>,
)
    ensures
        authorization is Missing ==> openai_refusal(authorization, key) == Some(
            (401u16, "missing Authorization header"@),
        ),
        authorization is Unreadable ==> openai_refusal(authorization, key) == Some(
            (401u16, "invalid Authorization header"@),
        ),
        authorization is Text && authorization->Text_0@ != "Bearer "@ + key ==> openai_refusal(
            authorization,
            key,
        ) == Some((401u16, "invalid API key"@)),
        !(version is Text) ==> anthropic_refusal(version, api_key, key) == Some(
            (400u16, "missing anthropic-version header"@),
        ),
        version is Text && version->Text_0@ != "2023-06-01"@ ==> anthropic_refusal(
            version,
            api_key,
            key,
        ) == Some((400u16, "unsupported anthropic-version: "@ + version->Text_0@)),
        version is Text && version->Text_0@ == "2023-06-01"@ && !(api_key is Text)
            ==> anthropic_refusal(version, api_key, key) == Some(
            (401u16, "missing x-api-key header"@),
        ),
        version is Text && version->Text_0@ == "2023-06-01"@ && api_key is Text
            && api_key->Text_0@ != key ==> anthropic_refusal(version, api_key, key) == Some(
            (401u16, "invalid API key"@),
        ),
        version is Text && version->Text_0@ == "2023-06-01"@ && api_key is Text
            && api_key->Text_0@ == key ==> anthropic_refusal(version, api_key, key) is None,
        authorization is Text && authorization->Text_0@ == "Bearer "@ + key ==> openai_refusal(
            authorization,
            key,
        ) is None,
{
}

/// What a turn asks for, and what an answer says, is what they hold.
pub proof fn law_turns_and_answers_are_read_as_they_are(
    turn: ProxyTurnRequest,
    answer: ProxyExecutionEnvelope,
    k: int,
)
    ensures
        turn@.protocol == turn.protocol,
        turn@.model_alias == turn.model_alias@,
        turn@.resolved_model == turn.resolved_model@,
        turn@.system_prompt is Some <==> turn.system_prompt is Some,
        turn.system_prompt is Some ==> turn@.system_prompt->0 == turn.system_prompt->0@,
        turn@.messages.len() == turn.messages@.len(),
        0 <= k < turn.messages@.len() ==> turn@.messages[k].role == turn.messages@[k].role
            && turn@.messages[k].content == turn.messages@[k].content@,
        turn@.stream == turn.stream,
        turn@.cwd == turn.cwd@,
        answer@.response_id == answer.response_id@,
        answer@.created == answer.created,
        answer@.model_alias == answer.model_alias@,
        answer@.text == answer.text@,
        answer@.usage == answer.usage,
{
}

/// A command line that sets nothing leaves the file as it is.
pub proof fn law_setting_nothing_changes_nothing(settings: ProxySettings)
    ensures
        overlaid(settings, no_options()) == settings,
{
}

} // verus!
