//! The proxy: scheduling, turns, both protocols, streams and what is said of accounts.

use codex_pool::aliases::ModelAliases;
use codex_pool::models::{
    AccountStatus, AccountSummary, AccountsStore, ProxyConfig, UsageSnapshot, UsageWindow,
};
use codex_pool::percent::Percent;
use codex_pool::proxy::admin::{admin_accounts, health};
use codex_pool::proxy::anthropic;
use codex_pool::proxy::attempts::{AttemptAction, AttemptEvent, TurnAnswer, TurnAttempts};
use codex_pool::proxy::backend::{
    classify_backend_error, initialize_call, needs_process, request_line, unsubscribe_call,
    worker_arguments, worker_count, worker_index, BackendCall, BackendError, BackendErrorKind,
    BackendEvent, BackendLine, BackendStep, BackendSuccess, BackendTurn, PendingRequest,
    RequestStep, TurnStart, TurnStartStep,
};
use codex_pool::proxy::openai;
use codex_pool::proxy::runtime::{
    build_prompt, can_report_failure, classify_runtime_error, exec_arguments, finish_turn,
    process_line, process_stdout_line, ExecutionResult, ParseState, RuntimeEnd, RuntimeError,
    RuntimeErrorKind, RuntimeEvent, RuntimeExit, RuntimeLine, RuntimeSuccess, RuntimeUsage,
};
use codex_pool::proxy::scheduler::{Scheduler, SchedulerError};
use codex_pool::proxy::stream::{new_envelope, AnswerStream};
use codex_pool::proxy::{
    authorize_anthropic, authorize_openai, resolve_model_alias, resolve_proxy_config, HeaderText,
    ProtocolError, ProtocolKind, ProxyExecutionEnvelope, ProxyRole, ProxyTurnMessage,
    ProxyTurnRequest, ResolvedProxyConfig, ServeOptions, BAD_REQUEST,
};
use codex_pool::store;
use serde_json::Value;

fn parse(text: &str) -> Value {
    serde_json::from_str(text).expect("test document")
}

fn percent(value: f64) -> Percent {
    Percent { bits: value.to_bits() }
}

fn summary(
    account_id: &str,
    label: &str,
    one_week_used: f64,
    five_hour_used: f64,
    status: AccountStatus,
) -> AccountSummary {
    AccountSummary {
        id: label.to_string(),
        label: label.to_string(),
        email: None,
        account_id: account_id.to_string(),
        plan_type: Some("pro".to_string()),
        added_at: 0,
        updated_at: 0,
        usage: Some(UsageSnapshot {
            fetched_at: 0,
            plan_type: Some("pro".to_string()),
            five_hour: Some(UsageWindow {
                used_percent: percent(five_hour_used),
                window_seconds: 18_000,
                reset_at: Some(10),
            }),
            one_week: Some(UsageWindow {
                used_percent: percent(one_week_used),
                window_seconds: 604_800,
                reset_at: Some(20),
            }),
            credits: None,
        }),
        usage_error: None,
        is_current: false,
        status,
    }
}

fn build_store(account_ids: &[(&str, &str)]) -> AccountsStore {
    let mut store_value = AccountsStore::default();
    for (account_id, label) in account_ids {
        let auth = parse(&format!(
            "{{\"auth_mode\":\"chatgpt\",\"tokens\":{{\"access_token\":\"access-{account_id}\",\"refresh_token\":\"refresh-{account_id}\",\"account_id\":\"{account_id}\",\"id_token\":\"header.eyJlbWFpbCI6ImRlbW9AZXhhbXBsZS5jb20iLCJodHRwczovL2FwaS5vcGVuYWkuY29tL2F1dGgiOnsiY2hhdGdwdF9hY2NvdW50X2lkIjoiYWNjLTEiLCJjaGF0Z3B0X3BsYW5fdHlwZSI6InBybyJ9fQ.sig\"}}}}"
        ));
        let _ = store::upsert_auth_account(
            &mut store_value,
            auth,
            Some((*label).to_string()),
            None,
            None,
        )
        .expect("account should upsert");
    }
    store_value
}

fn config() -> ResolvedProxyConfig {
    let mut model_aliases = ModelAliases::new();
    model_aliases.insert("codex".to_string(), "gpt-5.4".to_string());
    ResolvedProxyConfig {
        listen: "127.0.0.1:4141".to_string(),
        api_key: "secret".to_string(),
        default_cwd: "/tmp".to_string(),
        default_model: "gpt-5.4".to_string(),
        sandbox: "workspace-write".to_string(),
        approval_policy: "never".to_string(),
        usage_refresh_interval_seconds: 60,
        max_concurrent_requests: 8,
        max_inflight_per_account: 1,
        model_aliases,
    }
}

fn chat(messages: Vec<(&str, &str)>) -> openai::ChatCompletionsRequest {
    openai::ChatCompletionsRequest {
        model: None,
        messages: messages
            .into_iter()
            .map(|(role, content)| openai::ChatMessage {
                role: role.to_string(),
                content: openai::ChatContent::Text(content.to_string()),
            })
            .collect(),
        stream: false,
        tools: None,
        tool_choice: None,
        response_format: None,
        n: None,
    }
}

fn talk(messages: Vec<(&str, &str)>) -> anthropic::MessagesRequest {
    anthropic::MessagesRequest {
        model: None,
        system: None,
        messages: messages
            .into_iter()
            .map(|(role, content)| anthropic::Message {
                role: role.to_string(),
                content: anthropic::MessageContent::Text(content.to_string()),
            })
            .collect(),
        max_tokens: None,
        stream: false,
        tools: None,
        thinking: None,
        container: None,
    }
}

fn turn() -> ProxyTurnRequest {
    ProxyTurnRequest {
        protocol: ProtocolKind::OpenAi,
        model_alias: "codex".to_string(),
        resolved_model: "gpt-5.4".to_string(),
        system_prompt: Some("be concise".to_string()),
        messages: vec![
            ProxyTurnMessage { role: ProxyRole::User, content: "hello".to_string() },
            ProxyTurnMessage { role: ProxyRole::Assistant, content: "hi".to_string() },
        ],
        stream: false,
        cwd: "/tmp".to_string(),
    }
}

// ---------------------------------------------------------------------------
// Scheduling
// ---------------------------------------------------------------------------
#[test]
fn prefers_lower_inflight_then_remaining() {
    let store = build_store(&[("acc-a", "A"), ("acc-b", "B")]);
    let summaries = vec![
        summary("acc-a", "A", 10.0, 10.0, AccountStatus::Healthy),
        summary("acc-b", "B", 20.0, 20.0, AccountStatus::Healthy),
    ];
    let mut scheduler = Scheduler::new(&store, &summaries, 4, 2);
    let _first = scheduler.acquire().expect("first lease should work");
    let second = scheduler.acquire().expect("second lease should work");
    assert_eq!(second.account.account_id, "acc-b");
}

#[test]
fn skips_cooldown_and_excluded_accounts() {
    let store = build_store(&[("acc-a", "A"), ("acc-b", "B"), ("acc-c", "C")]);
    let summaries = vec![
        summary("acc-a", "A", 10.0, 10.0, AccountStatus::Expired),
        summary("acc-b", "B", 15.0, 15.0, AccountStatus::Healthy),
        summary("acc-c", "C", 20.0, 20.0, AccountStatus::Healthy),
    ];
    let mut scheduler = Scheduler::new(&store, &summaries, 4, 1);
    assert!(scheduler.cooldown_account("acc-c", Some(60)), "cooldown should work");
    let lease = scheduler.acquire().expect("lease should work");
    assert_eq!(lease.account.account_id, "acc-b");
}

#[test]
fn leases_are_counted_rest_and_come_back() {
    let store = build_store(&[("acc-a", "A"), ("acc-b", "B"), ("acc-c", "C")]);
    let summaries = vec![
        summary("acc-b", "B", 15.0, 15.0, AccountStatus::Healthy),
        summary("acc-a", "A", 10.0, 10.0, AccountStatus::Healthy),
    ];
    let mut scheduler = Scheduler::new(&store, &summaries, 0, 0);
    assert_eq!(scheduler.max_concurrent_requests, 1);
    assert_eq!(scheduler.max_inflight_per_account, 1);
    assert_eq!(scheduler.accounts.len(), 2);
    assert!(scheduler.can_count());
    let first = scheduler.acquire_at(100).unwrap();
    assert_eq!(first.account_id, "acc-a");
    assert_eq!(first.summary.label, "A");
    let second = scheduler.acquire_at(100).unwrap();
    assert_eq!(second.account_id, "acc-b");
    let error = scheduler.acquire_at(100).unwrap_err();
    assert_eq!(error, SchedulerError::NoAccountAvailable);
    assert_eq!(error.to_text(), "no proxy account available");
    scheduler.release_account("acc-b");
    scheduler.release_account("acc-b");
    scheduler.cooldown_account_at("acc-b", None, 100);
    assert!(scheduler.acquire_at(129).is_err());
    let listed = scheduler.snapshots();
    assert_eq!(listed[0].summary.account_id, "acc-b");
    assert_eq!((listed[0].inflight, listed[0].cooldown_until), (0, Some(130)));
    assert_eq!((listed[1].inflight, listed[1].cooldown_until), (1, None));
    assert_eq!(scheduler.acquire_at(130).unwrap().account_id, "acc-b");
    // what stays keeps its leases
    let store = build_store(&[("acc-c", "C"), ("acc-b", "B")]);
    let summaries = vec![
        summary("acc-b", "B", 15.0, 15.0, AccountStatus::Healthy),
        summary("acc-c", "C", 95.0, 95.0, AccountStatus::WorkspaceRemoved),
    ];
    scheduler.replace_accounts(&store, &summaries);
    assert_eq!(scheduler.accounts.len(), 2);
    assert_eq!(scheduler.accounts[0].inflight, 0);
    assert_eq!(scheduler.accounts[1].inflight, 1);
    assert!(scheduler.acquire_at(500).is_err());
    scheduler.release_account("acc-b");
    assert_eq!(scheduler.acquire_at(500).unwrap().account_id, "acc-b");
    assert!(!scheduler.cooldown_account("acc-b", Some(i64::MAX)));
}

#[test]
fn a_rest_ends_within_the_range_of_timestamps() {
    let store = build_store(&[("acc-a", "A")]);
    let summaries = vec![summary("acc-a", "A", 10.0, 10.0, AccountStatus::Healthy)];
    let mut scheduler = Scheduler::new(&store, &summaries, 1, 1);
    assert!(scheduler.cooldown_account_from("acc-a", None, 100));
    assert_eq!(scheduler.accounts[0].cooldown_until, Some(130));
    assert!(scheduler.acquire_at(129).is_err());
    // a rest that would end too late or too early changes nothing
    assert!(!scheduler.cooldown_account_from("acc-a", Some(1), i64::MAX));
    assert!(!scheduler.cooldown_account_from("acc-a", Some(-1), i64::MIN));
    assert!(!scheduler.cooldown_account_from("acc-a", None, i64::MAX - 29));
    assert_eq!(scheduler.accounts[0].cooldown_until, Some(130));
    assert!(scheduler.cooldown_account_from("acc-a", None, i64::MAX - 30));
    assert_eq!(scheduler.accounts[0].cooldown_until, Some(i64::MAX));
    assert!(scheduler.cooldown_account_from("acc-a", Some(0), 7));
    assert_eq!(scheduler.accounts[0].cooldown_until, Some(7));
    // an account that is not scheduled has no rest
    assert!(scheduler.cooldown_account_from("acc-z", Some(1), i64::MAX));
    assert!(scheduler.cooldown_account("acc-z", Some(i64::MAX)));
    scheduler.cooldown_account_at("acc-z", Some(1), i64::MAX);
    assert_eq!(scheduler.accounts.len(), 1);
    assert_eq!(scheduler.accounts[0].cooldown_until, Some(7));
}

#[test]
fn accounts_are_described() {
    let store = build_store(&[("acc-a", "A")]);
    let mut first = summary("acc-a", "A", 10.0, 20.0, AccountStatus::Expired);
    first.usage_error = Some("e".to_string());
    let scheduler = Scheduler::new(&store, &[first], 1, 1);
    let listed = admin_accounts(&scheduler.snapshots());
    assert_eq!(listed.len(), 1);
    assert_eq!(listed[0].status, "expired");
    assert_eq!(listed[0].five_hour_used_percent.unwrap().bits, 20.0f64.to_bits());
    assert_eq!(listed[0].one_week_used_percent.unwrap().bits, 10.0f64.to_bits());
    assert_eq!(listed[0].usage_error.as_deref(), Some("e"));
    assert_eq!((listed[0].inflight, listed[0].cooldown_until), (0, None));
    assert!(health(Some(1)).ok);
    assert!(!health(Some(0)).ok);
    assert_eq!(health(None).account_count, 0);
}

// ---------------------------------------------------------------------------
// Configuration and authorization
// ---------------------------------------------------------------------------
#[test]
fn options_override_the_configuration() {
    let mut file = ProxyConfig::default();
    file.listen = "file".to_string();
    file.sandbox = "box".to_string();
    let options = ServeOptions {
        listen: Some("option".to_string()),
        api_key: Some(" ".to_string()),
        usage_refresh_interval: Some(0),
        max_concurrent_requests: Some(3),
        ..ServeOptions::default()
    };
    let resolved = resolve_proxy_config(file, options, "/started");
    assert_eq!(resolved.listen, "option");
    assert_eq!(resolved.sandbox, "box");
    assert_eq!(resolved.api_key, "codex-pool-local");
    assert_eq!(resolved.default_cwd, "/started");
    assert_eq!(resolved.usage_refresh_interval_seconds, 60);
    assert_eq!(resolved.max_concurrent_requests, 3);
    assert_eq!(resolved.model_aliases.get("codex").as_deref(), Some("gpt-5.4"));
    // the usual alias is there, whatever the configuration leaves out
    let mut bare = ProxyConfig::default();
    bare.model_aliases = ModelAliases::new();
    bare.default_model = "m".to_string();
    let resolved = resolve_proxy_config(bare, ServeOptions::default(), "/");
    let (_, model) = resolve_model_alias("codex", &resolved.model_aliases).unwrap();
    assert_eq!(model, "m");
}

fn header(text: &str) -> HeaderText {
    HeaderText::Text(text.to_string())
}

fn refused(result: Result<(), ProtocolError>) -> (u16, String) {
    let error = result.expect_err("request should be refused");
    (error.status, error.message)
}

#[test]
fn clients_need_the_key() {
    assert!(authorize_openai(&header("Bearer k"), "k").is_ok());
    assert_eq!(
        refused(authorize_openai(&header("k"), "k")),
        (401, "invalid API key".to_string())
    );
    assert_eq!(
        refused(authorize_openai(&HeaderText::Missing, "k")),
        (401, "missing Authorization header".to_string())
    );
    assert_eq!(
        refused(authorize_openai(&HeaderText::Unreadable, "k")),
        (401, "invalid Authorization header".to_string())
    );
    let version = header(anthropic::REQUIRED_VERSION);
    assert_eq!(anthropic::REQUIRED_VERSION, "2023-06-01");
    assert!(authorize_anthropic(&version, &header("k"), "k").is_ok());
    assert_eq!(
        refused(authorize_anthropic(&HeaderText::Unreadable, &header("k"), "k")),
        (400, "missing anthropic-version header".to_string())
    );
    assert_eq!(
        refused(authorize_anthropic(&header("1"), &header("k"), "k")),
        (400, "unsupported anthropic-version: 1".to_string())
    );
    assert_eq!(
        refused(authorize_anthropic(&version, &HeaderText::Missing, "k")),
        (401, "missing x-api-key header".to_string())
    );
    assert_eq!(
        refused(authorize_anthropic(&version, &header("x"), "k")),
        (401, "invalid API key".to_string())
    );
}

#[test]
fn the_key_is_asked_for_before_the_request_is_read() {
    let refused = openai::accept_request(&HeaderText::Missing, chat(vec![]), &config()).unwrap_err();
    assert_eq!(refused.status, 401);
    let refused = openai::accept_request(&header("Bearer secret"), chat(vec![]), &config()).unwrap_err();
    assert_eq!((refused.status, refused.message.as_str()), (400, "OpenAI messages must not be empty"));
    assert!(openai::accept_request(&header("Bearer secret"), chat(vec![("user", "x")]), &config()).is_ok());
    let version = header("2023-06-01");
    let refused = anthropic::accept_request(&version, &header("no"), talk(vec![]), &config()).unwrap_err();
    assert_eq!(refused.status, 401);
    let refused = anthropic::accept_request(&version, &header("secret"), talk(vec![]), &config()).unwrap_err();
    assert_eq!(refused.status, 400);
    assert!(anthropic::accept_request(&version, &header("secret"), talk(vec![("user", "x")]), &config()).is_ok());
}

#[test]
fn aliases_resolve_to_models() {
    let config = config();
    let (alias, model) = resolve_model_alias(" codex ", &config.model_aliases).unwrap();
    assert_eq!((alias.as_str(), model.as_str()), ("codex", "gpt-5.4"));
    let empty = resolve_model_alias("  ", &config.model_aliases).unwrap_err();
    assert_eq!((empty.status, empty.message.as_str()), (400, "model must not be empty"));
    let unknown = resolve_model_alias("x", &config.model_aliases).unwrap_err();
    assert_eq!(unknown.message, "unknown model alias: x");
    let mut aliases = ModelAliases::new();
    aliases.insert("b".to_string(), "1".to_string());
    aliases.insert("a".to_string(), "2".to_string());
    aliases.insert("b".to_string(), "3".to_string());
    aliases.insert_if_absent("a", "4");
    assert_eq!(aliases.keys(), vec!["a", "b"]);
    assert_eq!(aliases.get("a").as_deref(), Some("2"));
    assert_eq!(aliases.get("b").as_deref(), Some("3"));
    assert_eq!(aliases.get("c"), None);
}

// ---------------------------------------------------------------------------
// Requests
// ---------------------------------------------------------------------------
#[test]
fn rejects_unsupported_openai_fields() {
    let request = openai::ChatCompletionsRequest {
        model: None,
        messages: vec![openai::ChatMessage {
            role: "user".to_string(),
            content: openai::ChatContent::Text("hi".to_string()),
        }],
        stream: false,
        tools: Some(Value::Array(vec![])),
        tool_choice: None,
        response_format: None,
        n: None,
    };
    let error = openai::into_turn_request(request, &config()).expect_err("request should fail");
    assert_eq!(error.status, BAD_REQUEST);
}

#[test]
fn rejects_empty_max_tokens() {
    let request = anthropic::MessagesRequest {
        model: None,
        system: None,
        messages: vec![anthropic::Message {
            role: "user".to_string(),
            content: anthropic::MessageContent::Text("hello".to_string()),
        }],
        max_tokens: Some(0),
        stream: false,
        tools: None,
        thinking: None,
        container: None,
    };
    let error = anthropic::into_turn_request(request, &config()).expect_err("request should fail");
    assert_eq!(error.status, BAD_REQUEST);
}

#[test]
fn openai_requests_become_turns() {
    let turn = openai::into_turn_request(
        chat(vec![("system", "one"), ("user", "hi"), ("system", "two"), ("assistant", "yo")]),
        &config(),
    )
    .unwrap();
    assert_eq!(turn.protocol, ProtocolKind::OpenAi);
    assert_eq!(turn.system_prompt.as_deref(), Some("one\n\ntwo"));
    assert_eq!(turn.messages.len(), 2);
    assert_eq!(turn.messages[1].role, ProxyRole::Assistant);
    assert_eq!(turn.resolved_model, "gpt-5.4");
    assert_eq!(turn.cwd, "/tmp");
    let refuse = |request| openai::into_turn_request(request, &config()).unwrap_err().message;
    assert_eq!(refuse(chat(vec![])), "OpenAI messages must not be empty");
    assert_eq!(
        refuse(chat(vec![("system", "x")])),
        "OpenAI messages must include at least one non-system message"
    );
    assert_eq!(refuse(chat(vec![("tool", "x")])), "unsupported OpenAI role: tool");
    assert_eq!(
        refuse(chat(vec![("user", " ")])),
        "OpenAI message content must not be empty"
    );
    let mut request = chat(vec![("user", "x")]);
    request.tool_choice = Some(Value::Null);
    assert_eq!(refuse(request), "OpenAI tool_choice is not supported");
    let mut request = chat(vec![("user", "x")]);
    request.response_format = Some(Value::Null);
    assert_eq!(refuse(request), "OpenAI response_format is not supported");
    let mut request = chat(vec![("user", "x")]);
    request.n = Some(2);
    assert_eq!(refuse(request), "OpenAI n must be 1");
    let mut request = chat(vec![("user", "x")]);
    request.model = Some("nope".to_string());
    assert_eq!(refuse(request), "unknown model alias: nope");
}

#[test]
fn openai_parts_are_joined() {
    let part = |kind: &str, text: Option<&str>| openai::ContentPart {
        part_type: kind.to_string(),
        text: text.map(|text| text.to_string()),
    };
    let parts = openai::ChatContent::Parts(vec![part("text", Some("a")), part("text", Some("b"))]);
    assert_eq!(openai::flatten_content(&parts).unwrap(), "ab");
    let parts = openai::ChatContent::Parts(vec![part("image", None), part("text", None)]);
    assert_eq!(
        openai::flatten_content(&parts).unwrap_err().message,
        "OpenAI content parts only support text"
    );
    let parts = openai::ChatContent::Parts(vec![part("text", None), part("image", None)]);
    assert_eq!(
        openai::flatten_content(&parts).unwrap_err().message,
        "OpenAI text content part is missing text"
    );
    let parts = openai::ChatContent::Parts(vec![]);
    assert_eq!(
        openai::flatten_content(&parts).unwrap_err().message,
        "OpenAI message content must not be empty"
    );
}

#[test]
fn anthropic_requests_become_turns() {
    let mut request = talk(vec![("user", "hi"), ("assistant", "yo")]);
    request.system = Some("sys".to_string());
    request.stream = true;
    let turn = anthropic::into_turn_request(request, &config()).unwrap();
    assert_eq!(turn.protocol, ProtocolKind::Anthropic);
    assert_eq!(turn.system_prompt.as_deref(), Some("sys"));
    assert!(turn.stream);
    assert_eq!(turn.messages.len(), 2);
    let refuse = |request| anthropic::into_turn_request(request, &config()).unwrap_err().message;
    assert_eq!(refuse(talk(vec![])), "Anthropic messages must not be empty");
    assert_eq!(refuse(talk(vec![("system", "x")])), "unsupported Anthropic role: system");
    assert_eq!(
        refuse(talk(vec![("user", "")])),
        "Anthropic message content must not be empty"
    );
    let mut request = talk(vec![("user", "x")]);
    request.tools = Some(Value::Null);
    assert_eq!(refuse(request), "Anthropic tools are not supported");
    let mut request = talk(vec![("user", "x")]);
    request.thinking = Some(Value::Null);
    assert_eq!(refuse(request), "Anthropic thinking is not supported");
    let mut request = talk(vec![("user", "x")]);
    request.container = Some(Value::Null);
    assert_eq!(refuse(request), "Anthropic container is not supported");
    let block = |kind: &str, text: Option<&str>| anthropic::ContentBlock {
        block_type: kind.to_string(),
        text: text.map(|text| text.to_string()),
    };
    let blocks = anthropic::MessageContent::Blocks(vec![block("text", Some("a")), block("text", Some("b"))]);
    assert_eq!(anthropic::flatten_content(&blocks).unwrap(), "ab");
    let blocks = anthropic::MessageContent::Blocks(vec![block("image", None)]);
    assert_eq!(
        anthropic::flatten_content(&blocks).unwrap_err().message,
        "Anthropic content blocks only support text"
    );
    let blocks = anthropic::MessageContent::Blocks(vec![block("text", None)]);
    assert_eq!(
        anthropic::flatten_content(&blocks).unwrap_err().message,
        "Anthropic text block is missing text"
    );
}

// ---------------------------------------------------------------------------
// Answers
// ---------------------------------------------------------------------------
fn envelope() -> ProxyExecutionEnvelope {
    ProxyExecutionEnvelope {
        response_id: "r".to_string(),
        created: 5,
        model_alias: "codex".to_string(),
        text: "hi".to_string(),
        usage: RuntimeUsage { input_tokens: 3, output_tokens: 4 },
    }
}

#[test]
fn openai_answers_have_their_shape() {
    assert_eq!(
        openai::completion_response(&envelope()),
        parse(
            r#"{"id":"r","object":"chat.completion","created":5,"model":"codex","choices":[{"index":0,"message":{"role":"assistant","content":"hi"},"finish_reason":"stop"}],"usage":{"prompt_tokens":3,"completion_tokens":4,"total_tokens":7}}"#
        )
    );
    assert_eq!(
        parse(&openai::stream_role_chunk(&envelope())),
        parse(
            r#"{"id":"r","object":"chat.completion.chunk","created":5,"model":"codex","choices":[{"index":0,"delta":{"role":"assistant"},"finish_reason":null}]}"#
        )
    );
    assert_eq!(
        openai::stream_text_chunk(&envelope(), "x\"y"),
        r#"{"choices":[{"delta":{"content":"x\"y"},"finish_reason":null,"index":0}],"created":5,"id":"r","model":"codex","object":"chat.completion.chunk"}"#
    );
    assert_eq!(
        parse(&openai::stream_stop_chunk(&envelope()))["choices"],
        parse(r#"[{"index":0,"delta":{},"finish_reason":"stop"}]"#)
    );
    assert_eq!(
        openai::error_payload("bad"),
        parse(r#"{"error":{"message":"bad","type":"invalid_request_error"}}"#)
    );
    let models = openai::models_response(&config());
    assert_eq!((models.object, models.data.len()), ("list", 1));
    assert_eq!(models.data[0].id, "codex");
    assert_eq!((models.data[0].object, models.data[0].owned_by), ("model", "codex-pool"));
    let fresh = openai::new_execution_envelope("m", "t", RuntimeUsage::default());
    assert!(fresh.response_id.starts_with("chatcmpl_"));
    assert_eq!(fresh.response_id.len(), 9 + 32);
    assert!(fresh.created > 1_600_000_000);
    let renamed = openai::build_envelope(&turn(), &openai::execution_envelope_at("m", "t", RuntimeUsage::default(), "7", -1));
    assert_eq!((renamed.model_alias.as_str(), renamed.response_id.as_str()), ("codex", "chatcmpl_7"));
    let mut early = envelope();
    early.created = -1;
    assert_eq!(openai::completion_response(&early)["created"], -1);
}

#[test]
fn anthropic_answers_have_their_shape() {
    assert_eq!(
        anthropic::message_response(&envelope()),
        parse(
            r#"{"id":"r","type":"message","role":"assistant","model":"codex","content":[{"type":"text","text":"hi"}],"stop_reason":"end_turn","stop_sequence":null,"usage":{"input_tokens":3,"output_tokens":4}}"#
        )
    );
    let start = anthropic::stream_start_events(&envelope());
    assert_eq!(start[0].0, Some("message_start"));
    assert_eq!(
        parse(&start[0].1),
        parse(
            r#"{"type":"message_start","message":{"id":"r","type":"message","role":"assistant","model":"codex","content":[],"stop_reason":null,"stop_sequence":null,"usage":{"input_tokens":3,"output_tokens":0}}}"#
        )
    );
    assert_eq!(
        parse(&start[1].1),
        parse(r#"{"type":"content_block_start","index":0,"content_block":{"type":"text","text":""}}"#)
    );
    let (name, data) = anthropic::stream_text_event("x");
    assert_eq!(name, Some("content_block_delta"));
    assert_eq!(
        parse(&data),
        parse(r#"{"type":"content_block_delta","index":0,"delta":{"type":"text_delta","text":"x"}}"#)
    );
    let stop = anthropic::stream_stop_events(&envelope());
    let names: Vec<_> = stop.iter().map(|event| event.0.unwrap()).collect();
    assert_eq!(names, vec!["content_block_stop", "message_delta", "message_stop"]);
    assert_eq!(
        parse(&stop[1].1),
        parse(
            r#"{"type":"message_delta","delta":{"stop_reason":"end_turn","stop_sequence":null},"usage":{"output_tokens":4}}"#
        )
    );
    assert_eq!(stop[2].1, r#"{"type":"message_stop"}"#);
    let error = anthropic::error_response("bad".to_string());
    assert_eq!((error.envelope_type, error.error.error_type), ("error", "invalid_request_error"));
    assert_eq!(error.error.message, "bad");
    let fresh = anthropic::new_execution_envelope("m", "t", RuntimeUsage::default());
    assert!(fresh.response_id.starts_with("msg_"));
    assert_eq!(fresh.response_id.len(), 4 + 32);
    assert_eq!(
        anthropic::execution_envelope_at("m", "t", RuntimeUsage::default(), "7", 1).response_id,
        "msg_7"
    );
}

// ---------------------------------------------------------------------------
// One turn by `codex exec`
// ---------------------------------------------------------------------------
#[test]
fn prompt_builder_includes_messages_and_system() {
    let request = ProxyTurnRequest {
        protocol: ProtocolKind::OpenAi,
        model_alias: "codex".to_string(),
        resolved_model: "gpt-5.4".to_string(),
        system_prompt: Some("be concise".to_string()),
        messages: vec![
            ProxyTurnMessage { role: ProxyRole::User, content: "hello".to_string() },
            ProxyTurnMessage { role: ProxyRole::Assistant, content: "hi".to_string() },
        ],
        stream: false,
        cwd: "/tmp".to_string(),
    };
    let prompt = build_prompt(&request);
    assert!(prompt.contains("System prompt:"));
    assert!(prompt.contains("[user]"));
    assert!(prompt.contains("[assistant]"));
}

#[test]
fn prompts_and_arguments_are_exact() {
    let prompt = "You are serving a local API compatibility request through Codex CLI.\nAnswer the conversation directly as the assistant.\nReturn only the assistant response text.\n\nSystem prompt:\nbe concise\n\nConversation:\n[user]\nhello\n[assistant]\nhi";
    assert_eq!(build_prompt(&turn()), prompt);
    let arguments = exec_arguments(&turn(), &config());
    assert_eq!(
        arguments.before_cwd,
        vec!["-a", "never", "-s", "workspace-write", "exec", "--json", "--skip-git-repo-check", "-C"]
    );
    assert_eq!(arguments.after_cwd, vec!["--model", "gpt-5.4", prompt]);
    let mut plain = turn();
    plain.system_prompt = None;
    plain.messages.clear();
    assert!(build_prompt(&plain).ends_with("text.\n\nConversation:"));
}

#[test]
fn delta_parser_accumulates_incrementally() {
    let mut state = ParseState::default();
    let first = process_stdout_line(
        r#"{"type":"item.delta","delta":{"text":"hello "}}"#,
        &mut state,
    )
    .expect("delta should be emitted")
    .expect("delta should succeed");
    let second = process_stdout_line(
        r#"{"type":"item.delta","delta":{"text":"world"}}"#,
        &mut state,
    )
    .expect("delta should be emitted")
    .expect("delta should succeed");

    match first {
        RuntimeEvent::TextDelta(value) => assert_eq!(value, "hello "),
        _ => panic!("unexpected event"),
    }
    match second {
        RuntimeEvent::TextDelta(value) => assert_eq!(value, "world"),
        _ => panic!("unexpected event"),
    }
    assert_eq!(state.text, "hello world");
}

fn delta(line: &str, state: &mut ParseState) -> Option<String> {
    match process_stdout_line(line, state) {
        Some(Ok(RuntimeEvent::TextDelta(delta))) => Some(delta),
        None => None,
        other => panic!("unexpected event {other:?}"),
    }
}

#[test]
fn output_lines_bring_text_and_usage() {
    let mut state = ParseState::default();
    assert_eq!(delta("  ", &mut state), None);
    assert_eq!(delta("[1]", &mut state), None);
    assert_eq!(delta("{broken", &mut state), None);
    assert_eq!(
        delta(r#"{"type":"x.delta","item":{"delta":{"content":"a"}}}"#, &mut state).as_deref(),
        Some("a")
    );
    assert_eq!(
        delta(r#"{"type":"x.delta","item":{"type":"text_delta","content":{"text":"b"}}}"#, &mut state).as_deref(),
        Some("b")
    );
    assert_eq!(delta(r#"{"type":"x.delta","text":"c"}"#, &mut state).as_deref(), Some("c"));
    assert_eq!(delta(r#"{"type":"x.delta","item":{"text":"no"}}"#, &mut state), None);
    let done = r#"{"type":"item.completed","item":{"type":"agent_message","text":"abcd"}}"#;
    assert_eq!(delta(done, &mut state).as_deref(), Some("d"));
    assert_eq!(delta(done, &mut state), None);
    let other = r#"{"type":"item.completed","item":{"type":"agent_message","text":"zzz"}}"#;
    assert_eq!(delta(other, &mut state), None);
    assert_eq!(state.text, "abcd");
    assert_eq!(
        delta(r#"{"type":"turn.completed","usage":{"input_tokens":5}}"#, &mut state),
        None
    );
    assert_eq!(state.usage, RuntimeUsage { input_tokens: 5, output_tokens: 0 });
    assert!(process_line(RuntimeLine::Stderr("warn".to_string()), &mut state).is_none());
    assert_eq!(state.stderr_lines, vec!["warn"]);
    match finish_turn(state, RuntimeExit::Succeeded) {
        RuntimeEnd::Completed(success) => {
            assert_eq!((success.text.as_str(), success.usage.input_tokens), ("abcd", 5));
        }
        other => panic!("unexpected end {other:?}"),
    }
}

#[test]
fn the_end_of_a_command_is_read() {
    let said = |end| match end {
        RuntimeEnd::Said { stdout, stderr } => (stdout, stderr),
        other => panic!("unexpected end {other:?}"),
    };
    let state = |text: &str| ParseState {
        text: text.to_string(),
        usage: RuntimeUsage::default(),
        stderr_lines: vec!["a".to_string(), "b".to_string()],
    };
    assert_eq!(
        said(finish_turn(state("t"), RuntimeExit::Failed)),
        ("t".to_string(), "a\nb".to_string())
    );
    assert_eq!(
        said(finish_turn(state(" "), RuntimeExit::Succeeded)),
        (String::new(), "a\nb\ncodex exec returned no assistant text".to_string())
    );
    match finish_turn(state("t"), RuntimeExit::Lost("gone".to_string())) {
        RuntimeEnd::Failed(error) => {
            assert_eq!(error.message, "failed waiting for codex exec: gone");
            assert_eq!(error.kind, RuntimeErrorKind::Fatal);
        }
        other => panic!("unexpected end {other:?}"),
    }
    let mut result = ExecutionResult::new();
    assert!(result.take_in(Ok(RuntimeEvent::TextDelta("x".to_string()))).is_none());
    let success = RuntimeSuccess { text: "x".to_string(), usage: RuntimeUsage::default() };
    assert!(result.take_in(Ok(RuntimeEvent::Completed(success))).is_none());
    assert_eq!(result.take_in(Err(RuntimeError::fatal("e"))).unwrap().message, "e");
    assert_eq!(result.finish().unwrap().text, "x");
    assert_eq!(
        ExecutionResult::new().finish().unwrap_err().message,
        "codex exec finished without completion event"
    );
}

#[test]
fn failures_are_blamed_on_the_account_or_not() {
    for words in ["Rate Limit", "HTTP 429", "invalid_grant", "run codex login first"] {
        assert_eq!(classify_runtime_error("", words).kind, RuntimeErrorKind::Retriable);
        assert_eq!(classify_backend_error(words, "").kind, BackendErrorKind::Retriable);
    }
    let fatal = classify_backend_error("out", "err ");
    assert_eq!(fatal.kind, BackendErrorKind::Fatal);
    assert_eq!(fatal.message, "out\nerr");
    let long = "x".repeat(500);
    assert_eq!(
        classify_runtime_error(&long, "").message,
        format!("{}...", "x".repeat(400))
    );
    assert!(can_report_failure(&long, ""));
    assert!(!can_report_failure(&format!("{}é", "x".repeat(399)), "y"));
}

// ---------------------------------------------------------------------------
// Turns by `codex app-server`
// ---------------------------------------------------------------------------
#[test]
fn workers_take_turns() {
    assert_eq!(worker_count(0), 1);
    assert_eq!(worker_count(3), 3);
    assert_eq!(worker_index(7, 3), 1);
    assert!(needs_process(false, false));
    assert!(needs_process(true, true));
    assert!(!needs_process(true, false));
    assert_eq!(worker_arguments(), vec!["app-server", "--listen", "stdio://"]);
}

#[test]
fn requests_wait_for_their_reply() {
    let line = request_line(
        9,
        BackendCall { method: "m".to_string(), params: parse(r#"{"a":1}"#) },
    );
    assert_eq!(line, "{\"id\":9,\"jsonrpc\":\"2.0\",\"method\":\"m\",\"params\":{\"a\":1}}\n");
    let stdout = |text: &str| BackendLine::Stdout(text.to_string());
    let mut notifications = vec![];
    let mut pending = PendingRequest::new(9);
    for text in ["noise", r#"{"id":8,"result":1}"#, r#"{"method":"n","params":1}"#] {
        assert!(matches!(pending.on_line(stdout(text), &mut notifications), RequestStep::Wait));
    }
    let _ = pending.on_line(BackendLine::Stderr("careful".to_string()), &mut notifications);
    assert_eq!(notifications, vec![parse(r#"{"method":"n","params":1}"#)]);
    match pending.on_line(stdout(r#"{"id":9,"result":{"x":2}}"#), &mut notifications) {
        RequestStep::Done(result) => assert_eq!(result, parse(r#"{"x":2}"#)),
        other => panic!("unexpected step {other:?}"),
    }
    match pending.on_line(stdout(r#"{"id":9,"error":{"message":"bad"}}"#), &mut notifications) {
        RequestStep::Said { stderr } => assert_eq!(stderr, "careful\nbad"),
        other => panic!("unexpected step {other:?}"),
    }
    match pending.on_line(stdout(r#"{"id":9}"#), &mut notifications) {
        RequestStep::Said { stderr } => assert_eq!(stderr, "careful\nbackend request failed"),
        other => panic!("unexpected step {other:?}"),
    }
    match pending.on_end() {
        RequestStep::Said { stderr } => assert_eq!(stderr, "careful"),
        other => panic!("unexpected step {other:?}"),
    }
    assert_eq!(notifications.len(), 1);
}

#[test]
fn a_turn_is_started_in_a_thread() {
    let first = initialize_call("9.9");
    assert_eq!(first.method, "initialize");
    assert_eq!(
        first.params,
        parse(r#"{"clientInfo":{"name":"codex-pool","version":"9.9"}}"#)
    );
    let (mut start, call) = TurnStart::begin(&turn(), &config());
    assert_eq!(call.method, "thread/start");
    assert_eq!(
        call.params,
        parse(
            r#"{"approvalPolicy":"never","sandbox":"workspace-write","cwd":"/tmp","model":"gpt-5.4","ephemeral":true,"personality":"pragmatic"}"#
        )
    );
    match start.on_result(&turn(), &parse(r#"{"thread":{}}"#)) {
        TurnStartStep::Failed(error) => {
            assert_eq!(error.message, "thread/start did not return thread id");
        }
        other => panic!("unexpected step {other:?}"),
    }
    match start.on_result(&turn(), &parse(r#"{"thread":{"id":"th"}}"#)) {
        TurnStartStep::Send(call) => {
            assert_eq!(call.method, "turn/start");
            assert_eq!(call.params["threadId"], "th");
            assert_eq!(call.params["input"][0]["type"], "text");
            assert_eq!(call.params["input"][0]["text"], build_prompt(&turn()).as_str());
        }
        other => panic!("unexpected step {other:?}"),
    }
    match start.on_result(&turn(), &parse("{}")) {
        TurnStartStep::Failed(error) => {
            assert_eq!(error.message, "turn/start did not return turn id");
        }
        other => panic!("unexpected step {other:?}"),
    }
    match start.on_result(&turn(), &parse(r#"{"turn":{"id":"tu"}}"#)) {
        TurnStartStep::Started(turn) => {
            assert_eq!((turn.thread_id.as_str(), turn.turn_id.as_str()), ("th", "tu"));
        }
        other => panic!("unexpected step {other:?}"),
    }
    let last = unsubscribe_call("th");
    assert_eq!(last.method, "thread/unsubscribe");
    assert_eq!(last.params, parse(r#"{"threadId":"th"}"#));
}

#[test]
fn notifications_carry_the_text_of_a_turn() {
    let mut turn = BackendTurn::new("th", "tu");
    let note = |method: &str, params: &str| {
        BackendLine::Stdout(format!("{{\"method\":\"{method}\",\"params\":{params}}}"))
    };
    let mut text = String::new();
    let lines = vec![
        note("item/agentMessage/delta", r#"{"threadId":"th","turnId":"tu","delta":"response "}"#),
        note("item/agentMessage/delta", r#"{"threadId":"other","delta":"x"}"#),
        note("item/agentMessage/delta", r#"{"turnId":"other","delta":"x"}"#),
        note("item/agentMessage/delta", r#"{"delta":""}"#),
        BackendLine::Stdout("garbage".to_string()),
        BackendLine::Stderr("  ".to_string()),
        BackendLine::Stderr("note".to_string()),
        note("item/completed", r#"{"item":{"type":"reasoning","text":"response no"}}"#),
        note("item/completed", r#"{"item":{"type":"agentMessage","text":"response from good-1"}}"#),
        note("thread/tokenUsage/updated", r#"{"tokenUsage":{"last":{"inputTokens":12,"outputTokens":4}}}"#),
        note("thread/tokenUsage/updated", r#"{"tokenUsage":{"last":{"outputTokens":5}}}"#),
    ];
    for line in lines {
        match turn.on_line(line) {
            BackendStep::Delta(delta) => text.push_str(&delta),
            BackendStep::Quiet => {}
            other => panic!("unexpected step {other:?}"),
        }
    }
    assert_eq!(text, "response from good-1");
    assert_eq!(turn.text, text);
    assert_eq!(turn.recent_stderr, vec!["note"]);
    let mut kept = vec![parse(r#"{"method":"turn/completed","params":{"turnId":"tu"}}"#)];
    match turn.next_step(true, &mut kept) {
        BackendStep::Completed(success) => {
            assert_eq!(success.text, "response from good-1");
            assert_eq!(success.usage, RuntimeUsage { input_tokens: 12, output_tokens: 5 });
        }
        other => panic!("unexpected step {other:?}"),
    }
    assert!(kept.is_empty());
    assert!(matches!(turn.next_step(true, &mut kept), BackendStep::Ended));
}

#[test]
fn a_turn_can_fail() {
    let mut turn = BackendTurn::new("th", "tu");
    assert!(matches!(turn.next_step(true, &mut vec![]), BackendStep::Read));
    let _ = turn.on_line(BackendLine::Stderr("s".to_string()));
    let line = r#"{"method":"error","params":{}}"#.to_string();
    match turn.on_line(BackendLine::Stdout(line.clone())) {
        BackendStep::Said { stdout, stderr } => {
            assert_eq!(stdout, "");
            assert_eq!(stderr, format!("s\n{line}"));
        }
        other => panic!("unexpected step {other:?}"),
    }
    assert!(turn.finished);
    let mut turn = BackendTurn::new("th", "tu");
    match turn.on_end() {
        BackendStep::Said { stdout, stderr } => {
            assert_eq!((stdout.as_str(), stderr.as_str()), ("", ""));
        }
        other => panic!("unexpected step {other:?}"),
    }
    let mut turn = BackendTurn::new("th", "tu");
    match turn.next_step(false, &mut vec![]) {
        BackendStep::Failed(error) => {
            assert_eq!(error.message, "backend worker became unavailable");
        }
        other => panic!("unexpected step {other:?}"),
    }
    let mut turn = BackendTurn::new("th", "tu");
    assert!(matches!(
        turn.on_read_error(BackendError::fatal("io")),
        BackendStep::Failed(_)
    ));
    assert!(turn.finished);
}

// ---------------------------------------------------------------------------
// Attempts and streams
// ---------------------------------------------------------------------------
fn success(text: &str) -> BackendSuccess {
    BackendSuccess {
        text: text.to_string(),
        usage: RuntimeUsage { input_tokens: 12, output_tokens: 4 },
    }
}

fn retriable(message: &str) -> AttemptEvent {
    AttemptEvent::Failed(BackendError {
        message: message.to_string(),
        kind: BackendErrorKind::Retriable,
    })
}

fn refusal(action: AttemptAction) -> (u16, String) {
    match action {
        AttemptAction::Refuse(error) => (error.status, error.message),
        other => panic!("unexpected action {other:?}"),
    }
}

#[test]
fn a_turn_is_tried_with_each_account() {
    let mut attempts = TurnAttempts::new(Some(2), false);
    assert!(matches!(attempts.go_on(), AttemptAction::Acquire));
    assert!(matches!(
        attempts.on_event(retriable("429 usage_limit_exceeded")),
        AttemptAction::Recover
    ));
    assert!(matches!(attempts.go_on(), AttemptAction::Acquire));
    assert!(matches!(attempts.on_event(AttemptEvent::Started), AttemptAction::Read));
    let brought = BackendEvent::TextDelta("response ".to_string());
    assert!(matches!(
        attempts.on_event(AttemptEvent::Brought(brought)),
        AttemptAction::Read
    ));
    let brought = BackendEvent::Completed(success("response from good-1"));
    match attempts.on_event(AttemptEvent::Brought(brought)) {
        AttemptAction::Answer(TurnAnswer::Whole(success)) => {
            assert_eq!(success.text, "response from good-1");
        }
        other => panic!("unexpected action {other:?}"),
    }
}

#[test]
fn spent_attempts_refuse_the_client() {
    let mut attempts = TurnAttempts::new(Some(0), false);
    assert_eq!(attempts.attempts_left, 1);
    let _ = attempts.on_event(retriable("401"));
    assert_eq!(refusal(attempts.go_on()), (502, "401".to_string()));
    let mut attempts = TurnAttempts::new(None, false);
    assert_eq!(
        refusal(attempts.on_event(AttemptEvent::Ended)),
        (502, "all proxy accounts failed".to_string())
    );
    let mut attempts = TurnAttempts::new(Some(5), false);
    assert_eq!(
        refusal(attempts.on_event(AttemptEvent::NoLease("no proxy account available".to_string()))),
        (503, "no proxy account available".to_string())
    );
    assert_eq!(
        refusal(attempts.on_event(AttemptEvent::Failed(BackendError::fatal("broken")))),
        (502, "broken".to_string())
    );
}

#[test]
fn streams_begin_with_the_first_text() {
    let mut attempts = TurnAttempts::new(Some(1), true);
    let empty = BackendEvent::TextDelta(String::new());
    assert!(matches!(attempts.on_event(AttemptEvent::Brought(empty)), AttemptAction::Read));
    let first = BackendEvent::TextDelta("a".to_string());
    match attempts.on_event(AttemptEvent::Brought(first)) {
        AttemptAction::Answer(TurnAnswer::Stream { first_delta, completion }) => {
            assert_eq!(first_delta, "a");
            assert!(completion.is_none());
        }
        other => panic!("unexpected action {other:?}"),
    }
    let whole = BackendEvent::Completed(success("all"));
    match attempts.on_event(AttemptEvent::Brought(whole)) {
        AttemptAction::Answer(TurnAnswer::Stream { first_delta, completion }) => {
            assert_eq!(first_delta, "all");
            assert_eq!(completion.unwrap().usage.input_tokens, 12);
        }
        other => panic!("unexpected action {other:?}"),
    }
}

#[test]
fn openai_streams_have_their_frames() {
    let envelope = new_envelope(ProtocolKind::OpenAi, "codex", "", RuntimeUsage::default());
    let mut stream = AnswerStream::new(ProtocolKind::OpenAi, envelope, "a", &None);
    let opening = stream.open("a", false);
    assert_eq!(opening.len(), 2);
    assert!(opening[0].1.contains("\"role\":\"assistant\""));
    assert!(opening[1].1.contains("\"content\":\"a\""));
    let (frames, done) = stream.on_event(Some(Ok(BackendEvent::TextDelta("b\r\n".to_string()))));
    assert_eq!((frames.len(), done), (1, false));
    assert!(!frames[0].1.contains(['\r', '\n']));
    assert_eq!(parse(&frames[0].1)["choices"][0]["delta"]["content"], "b\r\n");
    assert_eq!(stream.envelope.text, "ab\r\n");
    let (frames, done) = stream.on_event(Some(Ok(BackendEvent::TextDelta(String::new()))));
    assert_eq!((frames.len(), done), (0, false));
    let (frames, done) = stream.on_event(Some(Ok(BackendEvent::Completed(success("abc")))));
    assert!(done);
    assert_eq!(stream.envelope.text, "abc");
    assert!(frames[0].1.contains("\"finish_reason\":\"stop\""));
    assert_eq!(frames[1], (None, "[DONE]".to_string()));
    let (frames, done) = stream.on_event(None);
    assert_eq!((frames.len(), done), (2, true));
}

#[test]
fn anthropic_streams_have_their_frames() {
    let envelope = new_envelope(ProtocolKind::Anthropic, "codex", "", RuntimeUsage::default());
    assert!(envelope.response_id.starts_with("msg_"));
    let completion = Some(success("whole"));
    let stream = AnswerStream::new(ProtocolKind::Anthropic, envelope, "whole", &completion);
    let frames = stream.open("whole", true);
    let names: Vec<_> = frames.iter().map(|frame| frame.0.unwrap()).collect();
    assert_eq!(
        names,
        vec![
            "message_start",
            "content_block_start",
            "content_block_delta",
            "content_block_stop",
            "message_delta",
            "message_stop",
        ]
    );
    assert_eq!(parse(&frames[0].1)["message"]["usage"]["input_tokens"], 12);
    assert_eq!(parse(&frames[4].1)["usage"]["output_tokens"], 4);
    let envelope = new_envelope(ProtocolKind::Anthropic, "codex", "", RuntimeUsage::default());
    let mut stream = AnswerStream::new(ProtocolKind::Anthropic, envelope, "x", &None);
    let (frames, done) = stream.on_event(Some(Err(BackendError::fatal("lost"))));
    assert!(done);
    assert_eq!(frames[2].0, Some("message_stop"));
    assert_eq!(stream.envelope.text, "x");
}
