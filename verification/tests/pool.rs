//! Accounts: sign-in documents, the pool, ranking, references, refreshing and logins.

use base64::engine::general_purpose::{URL_SAFE, URL_SAFE_NO_PAD};
use base64::Engine;
use codex_pool::auth::{
    apply_refreshed_tokens, auth_document_text, auth_has_changed, auth_status_of_text,
    current_auth_account_id,
    decode_jwt_payload, document_status, extract_auth, extract_auth_with_claims,
    extract_client_id_from_claims, missing_auth_status, normalize_imported_auth_json, pad_segment, parse_auth_document,
    refresh_refusal_message, refresh_request_for, settle_token_refresh, token_refresh_request,
    AuthError, RefreshedTokens, TokenReply,
};
use codex_pool::commands::login::{
    combine_outcomes, LoginAction, LoginExit, LoginFlow, LoginStage, MAX_POLLS,
};
use codex_pool::commands::refresh::{AccountRefresh, RefreshAction, StoreRefresh};
use codex_pool::commands::selection::{
    choose_selection, remove_account, resolve_account, select_account, summaries_from_store,
    ResolveError, SelectError, Selection,
};
use codex_pool::commands::{
    added_message, closing_lines, doctor_lines, import_message, legacy_prompt,
    reauthorized_message, refresh_target, removed_message, switched_message, watch_interval,
    InitProgress,
};
use codex_pool::context::{MockUsageResponse, TestHooks};
use codex_pool::models::{
    AccountStatus, AccountSummary, AccountsStore, AppConfig, ImportStats, ProxyConfig,
    StoredAccount, UsageSnapshot, UsageWindow,
};
use codex_pool::percent::Percent;
use codex_pool::ranking::{
    compare_accounts_by_remaining, pick_best_account, sort_accounts_by_remaining,
};
use codex_pool::store::{
    corrupted_store_name, fallback_account_label, find_account, import_store_into_store,
    import_store_with_stamps, normalize_custom_label, settle_loaded_store, temporary_file_name,
    temporary_file_name_with, upsert_auth_account, upsert_auth_account_at, StoreRepair,
};
use serde_json::Value;
use std::cmp::Ordering;

fn percent(value: f64) -> Percent {
    Percent { bits: value.to_bits() }
}

fn parse(text: &str) -> Value {
    serde_json::from_str(text).expect("test document")
}

fn base64_url_payload(email: &str, account_id: &str) -> String {
    URL_SAFE_NO_PAD.encode(format!(
        "{{\"email\":\"{email}\",\"https://api.openai.com/auth\":{{\"chatgpt_account_id\":\"{account_id}\",\"chatgpt_plan_type\":\"pro\"}}}}"
    ))
}

fn build_auth(account_id: &str, email: &str) -> Value {
    parse(&format!(
        "{{\"auth_mode\":\"chatgpt\",\"tokens\":{{\"access_token\":\"access-{account_id}\",\"refresh_token\":\"refresh-{account_id}\",\"account_id\":\"{account_id}\",\"id_token\":\"header.{}.sig\"}}}}",
        base64_url_payload(email, account_id)
    ))
}

fn usage_snapshot(one_week_used: f64, five_hour_used: f64) -> UsageSnapshot {
    UsageSnapshot {
        fetched_at: 1,
        plan_type: Some("pro".to_string()),
        five_hour: Some(UsageWindow {
            used_percent: percent(five_hour_used),
            window_seconds: 18000,
            reset_at: Some(10),
        }),
        one_week: Some(UsageWindow {
            used_percent: percent(one_week_used),
            window_seconds: 604800,
            reset_at: Some(20),
        }),
        credits: None,
    }
}

fn summary(
    label: &str,
    account_id: &str,
    one_week_used: f64,
    five_hour_used: f64,
    status: AccountStatus,
) -> AccountSummary {
    AccountSummary {
        id: label.to_string(),
        label: label.to_string(),
        email: None,
        account_id: account_id.to_string(),
        plan_type: Some("pro".to_string()),
        added_at: 0,
        updated_at: 0,
        usage: Some(UsageSnapshot {
            fetched_at: 0,
            plan_type: Some("pro".to_string()),
            five_hour: Some(UsageWindow {
                used_percent: percent(five_hour_used),
                window_seconds: 18000,
                reset_at: Some(1),
            }),
            one_week: Some(UsageWindow {
                used_percent: percent(one_week_used),
                window_seconds: 604800,
                reset_at: Some(1),
            }),
            credits: None,
        }),
        usage_error: None,
        is_current: false,
        status,
    }
}

fn stored(id: &str, label: &str, account_id: &str) -> StoredAccount {
    StoredAccount {
        id: id.to_string(),
        label: label.to_string(),
        email: None,
        account_id: account_id.to_string(),
        plan_type: None,
        auth_json: build_auth(account_id, "someone@example.com"),
        added_at: 1,
        updated_at: 2,
        usage: None,
        usage_error: None,
    }
}

fn store_of(accounts: Vec<StoredAccount>) -> AccountsStore {
    AccountsStore { version: 1, accounts }
}

// ---------------------------------------------------------------------------
// Sign-in documents
// ---------------------------------------------------------------------------
#[test]
fn normalizes_flat_auth_json() {
    let raw = parse(
        r#"{
            "access_token": "access",
            "id_token": "header.eyJlbWFpbCI6ImRlbW9AZXhhbXBsZS5jb20iLCJodHRwczovL2FwaS5vcGVuYWkuY29tL2F1dGgiOnsiY2hhdGdwdF9hY2NvdW50X2lkIjoiYWNjLTEifX0.sig",
            "refresh_token": "refresh"
        }"#,
    );
    let normalized = normalize_imported_auth_json(raw);
    assert!(normalized.get("tokens").is_some());
}

#[test]
fn normalizing_nests_the_tokens_and_keeps_the_rest() {
    let flat = parse(
        r#"{"access_token":"a","id_token":"i","refresh_token":"r","account_id":"acc","last_refresh":7,"other":true}"#,
    );
    let expected = parse(
        r#"{"auth_mode":"chatgpt","tokens":{"access_token":"a","id_token":"i","refresh_token":"r","account_id":"acc"},"last_refresh":7}"#,
    );
    let normalized = normalize_imported_auth_json(flat);
    assert_eq!(normalized, expected);
    // once is enough
    assert_eq!(normalize_imported_auth_json(normalized.clone()), normalized);
    // what is no flat document stays
    for text in [r#"{"access_token":"a"}"#, r#"[1]"#, r#"{"tokens":{},"access_token":"a","id_token":"i"}"#] {
        assert_eq!(normalize_imported_auth_json(parse(text)), parse(text));
    }
    // tokens that are no object do not count
    let odd = parse(r#"{"tokens":3,"access_token":"a","id_token":"i","auth_mode":"x"}"#);
    assert_eq!(
        normalize_imported_auth_json(odd),
        parse(r#"{"auth_mode":"x","tokens":{"access_token":"a","id_token":"i"}}"#)
    );
}

#[test]
fn decodes_jwt_payload() {
    let payload = decode_jwt_payload(
        "header.eyJlbWFpbCI6ImRlbW9AZXhhbXBsZS5jb20iLCJodHRwczovL2FwaS5vcGVuYWkuY29tL2F1dGgiOnsiY2hhdGdwdF9hY2NvdW50X2lkIjoiYWNjLTEiLCJjaGF0Z3B0X3BsYW5fdHlwZSI6InBybyJ9fQ.sig",
    )
    .expect("jwt should decode");
    assert_eq!(payload["email"], "demo@example.com");
}

#[test]
fn decodes_padded_payloads_and_names_the_failure() {
    let padded = URL_SAFE.encode(r#"{"email":"x@yz"}"#);
    assert!(padded.ends_with('='));
    let payload = decode_jwt_payload(&format!("h.{padded}")).expect("padding is accepted");
    assert_eq!(payload["email"], "x@yz");
    assert_eq!(decode_jwt_payload("nodots").unwrap_err(), AuthError::IdTokenFormat);
    assert_eq!(decode_jwt_payload("h.???.s").unwrap_err(), AuthError::IdTokenEncoding);
    let not_json = URL_SAFE_NO_PAD.encode("not json");
    assert_eq!(
        decode_jwt_payload(&format!("h.{not_json}.s")).unwrap_err(),
        AuthError::IdTokenPayload
    );
    assert_eq!(pad_segment("ab"), "ab==");
    assert_eq!(pad_segment("abc"), "abc=");
    assert_eq!(pad_segment("abcd"), "abcd");
    assert_eq!(pad_segment("a"), "a===");
}

#[test]
fn extracts_nested_auth() {
    let auth = parse(
        r#"{
            "auth_mode": "chatgpt",
            "tokens": {
                "access_token": "access",
                "refresh_token": "refresh",
                "id_token": "header.eyJlbWFpbCI6ImRlbW9AZXhhbXBsZS5jb20iLCJodHRwczovL2FwaS5vcGVuYWkuY29tL2F1dGgiOnsiY2hhdGdwdF9hY2NvdW50X2lkIjoiYWNjLTEiLCJjaGF0Z3B0X3BsYW5fdHlwZSI6InBybyJ9fQ.sig"
            }
        }"#,
    );

    let extracted = extract_auth(&auth).expect("auth should parse");
    assert_eq!(extracted.account_id, "acc-1");
    assert_eq!(extracted.email.as_deref(), Some("demo@example.com"));
    assert_eq!(extracted.plan_type.as_deref(), Some("pro"));
}

#[test]
fn extraction_names_what_is_missing() {
    let cases = [
        (r#"{"auth_mode":"ApiKey"}"#, AuthError::NotChatGptMode),
        (r#"{"auth_mode":"ChatGPT"}"#, AuthError::NoSignInToken),
        (r#"{"auth_mode":"chatgpt_auth_tokens"}"#, AuthError::NoSignInToken),
        (r#"{}"#, AuthError::NoSignInToken),
        (r#"{"tokens":{"id_token":"a"}}"#, AuthError::MissingAccessToken),
        (r#"{"tokens":{"access_token":"a"}}"#, AuthError::MissingIdToken),
        (r#"{"tokens":{"access_token":"a","id_token":"x"}}"#, AuthError::MissingAccountId),
    ];
    for (text, expected) in cases {
        assert_eq!(extract_auth(&parse(text)).unwrap_err(), expected, "{text}");
    }
    assert_eq!(
        AuthError::NotChatGptMode.to_text(),
        "current account is not using ChatGPT sign-in mode; run codex login first"
    );
    assert_eq!(
        AuthError::NoSignInToken.to_text(),
        "no ChatGPT sign-in token detected; run codex login first"
    );
    assert_eq!(AuthError::MissingAccessToken.to_text(), "auth.json is missing access_token");
    assert_eq!(
        AuthError::MissingAccountId.to_text(),
        "failed to read chatgpt_account_id from auth.json"
    );
}

#[test]
fn claims_fill_in_what_the_tokens_do_not_say() {
    let auth = parse(r#"{"tokens":{"access_token":"a","id_token":"i","account_id":"own"}}"#);
    let claims = parse(
        r#"{"email":"e@x","https://api.openai.com/auth":{"chatgpt_account_id":"other","chatgpt_plan_type":"plus"}}"#,
    );
    let with = extract_auth_with_claims(&auth, Some(&claims)).unwrap();
    assert_eq!(with.account_id, "own");
    assert_eq!(with.email.as_deref(), Some("e@x"));
    assert_eq!(with.plan_type.as_deref(), Some("plus"));
    let without = extract_auth_with_claims(&auth, None).unwrap();
    assert_eq!(without.account_id, "own");
    assert_eq!(without.email, None);
    assert_eq!(current_auth_account_id(Some(&auth)).as_deref(), Some("own"));
    assert_eq!(current_auth_account_id(None), None);
}

#[test]
fn status_has_a_fingerprint() {
    let auth = parse(
        r#"{"auth_mode":"chatgpt","last_refresh":"yesterday","tokens":{"access_token":"a","id_token":"i","account_id":"acc"}}"#,
    );
    let status = document_status(&auth, Some(42));
    assert!(status.available);
    assert_eq!(status.account_id.as_deref(), Some("acc"));
    assert_eq!(status.fingerprint.as_deref(), Some("acc|yesterday|42|chatgpt"));
    let bare = document_status(&parse("{}"), None);
    assert_eq!(bare.fingerprint.as_deref(), Some("||0|"));
    let read = auth_status_of_text("{}", Some(-5)).unwrap();
    assert_eq!(read.fingerprint.as_deref(), Some("||-5|"));
    assert_eq!(auth_status_of_text("{", None).unwrap_err(), AuthError::InvalidJson);
    let missing = missing_auth_status();
    assert!(!missing.available);
    assert!(missing.fingerprint.is_none());
    assert!(!auth_has_changed(&missing, &Some("x".to_string())));
    assert!(auth_has_changed(&bare, &None));
    assert!(!auth_has_changed(&bare, &Some("||0|".to_string())));
    assert!(auth_has_changed(&bare, &Some("other".to_string())));
}

#[test]
fn documents_are_written_and_read_back() {
    let auth = build_auth("acc", "e@x");
    let text = auth_document_text(&auth);
    assert!(text.starts_with("{\n  \"auth_mode\": \"chatgpt\",\n  \"tokens\": {\n"));
    assert_eq!(parse_auth_document(&text).unwrap(), auth);
    assert_eq!(parse_auth_document("{").unwrap_err(), AuthError::InvalidJson);
    assert_eq!(AuthError::InvalidJson.to_text(), "invalid JSON");
}

#[test]
fn a_reserved_member_is_not_read_back() {
    let odd = parse(r#"{"a":1,"$serde_json::private::RawValue":"2"}"#);
    assert_eq!(odd["a"], 1);
    assert_eq!(
        parse_auth_document(&auth_document_text(&odd)).unwrap_err(),
        AuthError::InvalidJson
    );
    let mut members = serde_json::Map::new();
    members.insert("$serde_json::private::RawValue".to_string(), Value::from("2"));
    let alone = Value::Object(members);
    assert_eq!(parse_auth_document(&auth_document_text(&alone)).unwrap(), 2);
}

#[test]
fn token_refresh_is_requested_from_the_issuer() {
    let claims = parse(r#"{"iss":"https://issuer.example//","aud":["", 3, "client"]}"#);
    let request = refresh_request_for("fresh", &claims);
    assert_eq!(request.token_url, "https://issuer.example/oauth/token");
    assert_eq!(
        request.form,
        vec![
            ("grant_type".to_string(), "refresh_token".to_string()),
            ("refresh_token".to_string(), "fresh".to_string()),
            ("client_id".to_string(), "client".to_string()),
        ]
    );
    let plain = refresh_request_for("fresh", &parse("{}"));
    assert_eq!(plain.token_url, "https://auth.openai.com/oauth/token");
    assert_eq!(plain.form.len(), 2);
    assert_eq!(
        extract_client_id_from_claims(&parse(r#"{"aud":"one"}"#)).as_deref(),
        Some("one")
    );
    assert_eq!(extract_client_id_from_claims(&parse(r#"{"aud":""}"#)), None);
    assert_eq!(extract_client_id_from_claims(&parse(r#"{"aud":4}"#)), None);
    let auth = build_auth("acc", "e@x");
    let request = token_refresh_request(&auth).unwrap();
    assert_eq!(request.form[1].1, "refresh-acc");
    assert_eq!(
        token_refresh_request(&parse("{}")).unwrap_err(),
        AuthError::MissingTokens
    );
    assert_eq!(
        token_refresh_request(&parse(r#"{"tokens":{"id_token":"x"}}"#)).unwrap_err(),
        AuthError::MissingRefreshToken
    );
    assert_eq!(
        token_refresh_request(&parse(r#"{"tokens":{"refresh_token":"x"}}"#)).unwrap_err(),
        AuthError::MissingIdToken
    );
    assert_eq!(
        token_refresh_request(&parse(r#"{"tokens":{"refresh_token":"x","id_token":"y"}}"#))
            .unwrap_err(),
        AuthError::IdTokenFormat
    );
}

#[test]
fn refreshed_tokens_replace_the_old_ones() {
    let auth = build_auth("acc", "e@x");
    let fresh = RefreshedTokens {
        access_token: "new-access".to_string(),
        id_token: "new-id".to_string(),
        refresh_token: None,
    };
    let updated = apply_refreshed_tokens(&auth, &fresh).unwrap();
    assert_eq!(updated["tokens"]["access_token"], "new-access");
    assert_eq!(updated["tokens"]["id_token"], "new-id");
    assert_eq!(updated["tokens"]["refresh_token"], "refresh-acc");
    assert_eq!(updated["tokens"]["account_id"], "acc");
    assert_eq!(updated["auth_mode"], "chatgpt");
    assert_eq!(extract_auth(&updated).unwrap().account_id, "acc");
    assert_eq!(
        apply_refreshed_tokens(&parse("[]"), &fresh).unwrap_err(),
        AuthError::RootIsNotAnObject
    );
    assert_eq!(
        apply_refreshed_tokens(&parse(r#"{"access_token":"a","id_token":"i"}"#), &fresh)
            .unwrap_err(),
        AuthError::MissingTokens
    );
    let replaced = RefreshedTokens { refresh_token: Some("next".to_string()), ..fresh };
    let updated = settle_token_refresh(&auth, "u", TokenReply::Tokens(replaced)).unwrap();
    assert_eq!(updated["tokens"]["refresh_token"], "next");
    assert_eq!(
        settle_token_refresh(&auth, "u", TokenReply::Unreachable).unwrap_err(),
        "failed to refresh login token u"
    );
    assert_eq!(
        settle_token_refresh(&auth, "u", TokenReply::Unreadable).unwrap_err(),
        "failed to parse token refresh response"
    );
    let refused = TokenReply::Refused {
        status: "400 Bad Request".to_string(),
        body: "b".repeat(150),
    };
    assert_eq!(
        settle_token_refresh(&auth, "u", refused).unwrap_err(),
        format!("failed to refresh login token u -> 400 Bad Request: {}...", "b".repeat(140))
    );
    assert_eq!(
        refresh_refusal_message("u", "500", "short"),
        "failed to refresh login token u -> 500: short"
    );
}

// ---------------------------------------------------------------------------
// The pool
// ---------------------------------------------------------------------------
#[test]
fn enrolling_adds_and_then_updates() {
    let mut store = AccountsStore::default();
    let (added, was_updated) = upsert_auth_account_at(
        &mut store,
        build_auth("acc-1", "one@example.com"),
        Some("  One ".to_string()),
        None,
        Some("old error".to_string()),
        "id-1".to_string(),
        100,
    )
    .unwrap();
    assert!(!was_updated);
    assert_eq!(added.id, "id-1");
    assert_eq!(added.label, "One");
    assert_eq!(added.email.as_deref(), Some("one@example.com"));
    assert_eq!(added.plan_type.as_deref(), Some("pro"));
    assert_eq!((added.added_at, added.updated_at), (100, 100));
    assert_eq!(added.usage_error.as_deref(), Some("old error"));

    let mut usage = usage_snapshot(1.0, 2.0);
    usage.plan_type = Some("team".to_string());
    let (updated, was_updated) = upsert_auth_account_at(
        &mut store,
        build_auth("acc-1", "two@example.com"),
        Some("   ".to_string()),
        Some(usage),
        None,
        "id-2".to_string(),
        200,
    )
    .unwrap();
    assert!(was_updated);
    assert_eq!(store.accounts.len(), 1);
    assert_eq!(updated.id, "id-1");
    assert_eq!(updated.label, "two@example.com");
    assert_eq!(updated.plan_type.as_deref(), Some("team"));
    assert_eq!((updated.added_at, updated.updated_at), (100, 200));
    assert_eq!(updated.usage_error, None);

    // usage that is not brought stays
    let (again, _) = upsert_auth_account_at(
        &mut store,
        build_auth("acc-1", "two@example.com"),
        None,
        None,
        None,
        "id-3".to_string(),
        300,
    )
    .unwrap();
    assert!(again.usage.is_some());
    assert_eq!(again.plan_type.as_deref(), Some("pro"));

    let error = upsert_auth_account(&mut store, parse("{}"), None, None, None).unwrap_err();
    assert_eq!(error, AuthError::NoSignInToken);
    assert_eq!(store.accounts.len(), 1);
    assert_eq!(find_account(&store.accounts, "acc-1"), 0);
    assert_eq!(find_account(&store.accounts, "acc-2"), 1);
}

#[test]
fn enrolling_now_gives_a_fresh_identifier() {
    let mut store = AccountsStore::default();
    let (account, _) =
        upsert_auth_account(&mut store, build_auth("acc-1", "a@x"), None, None, None).unwrap();
    assert_eq!(account.id.len(), 36);
    assert_eq!(account.id.as_bytes()[14], b'4');
    assert_eq!(account.id.matches('-').count(), 4);
    assert!(account.added_at > 1_600_000_000);
}

#[test]
fn labels_fall_back_to_the_email_and_the_identifier() {
    assert_eq!(normalize_custom_label(Some(" x ".to_string())).as_deref(), Some("x"));
    assert_eq!(normalize_custom_label(Some(" \t".to_string())), None);
    assert_eq!(normalize_custom_label(None), None);
    assert_eq!(fallback_account_label(Some("e@x"), "acc"), "e@x");
    assert_eq!(fallback_account_label(None, "abcdefghijk"), "Codex abcdefgh");
}

#[test]
fn import_codex_tools_deduplicates_accounts() {
    let mut target = AccountsStore::default();
    let _ = upsert_auth_account(
        &mut target,
        build_auth("acc-1", "one@example.com"),
        Some("One".to_string()),
        None,
        None,
    )
    .expect("upsert should work");

    let mut legacy = AccountsStore::default();
    let _ = upsert_auth_account(
        &mut legacy,
        build_auth("acc-1", "one@example.com"),
        Some("One Updated".to_string()),
        None,
        None,
    )
    .expect("upsert should work");
    let _ = upsert_auth_account(
        &mut legacy,
        build_auth("acc-2", "two@example.com"),
        Some("Two".to_string()),
        None,
        None,
    )
    .expect("upsert should work");

    let stats = import_store_into_store(&mut target, &legacy).expect("import should work");
    assert_eq!(stats.imported, 1);
    assert_eq!(stats.updated, 1);
    assert_eq!(target.accounts.len(), 2);
    assert_eq!(target.accounts[0].label, "One Updated");
}

#[test]
fn import_counts_no_update_of_a_later_record_and_stops_at_a_bad_one() {
    let mut target = store_of(vec![stored("a", "A", "acc-1")]);
    let mut later = stored("b", "B", "acc-1");
    later.updated_at = 1000;
    let mut bad = stored("c", "C", "acc-3");
    bad.auth_json = parse("{}");
    let source = store_of(vec![later, stored("d", "D", "acc-2"), bad, stored("e", "E", "acc-4")]);
    let stamps = vec![
        ("s1".to_string(), 10),
        ("s2".to_string(), 20),
        ("s3".to_string(), 30),
        ("s4".to_string(), 40),
    ];
    let error = import_store_with_stamps(&mut target, &source, &stamps).unwrap_err();
    assert_eq!(error, AuthError::NoSignInToken);
    assert_eq!(target.accounts.len(), 2);
    assert_eq!(target.accounts[0].label, "B");
    assert_eq!(target.accounts[1].id, "s2");

    let mut target = store_of(vec![stored("a", "A", "acc-1")]);
    let mut later = stored("b", "B", "acc-1");
    later.updated_at = 1000;
    let source = store_of(vec![later, stored("d", "D", "acc-2")]);
    let stats = import_store_with_stamps(&mut target, &source, &stamps[..2].to_vec()).unwrap();
    assert_eq!((stats.imported, stats.updated), (1, 0));
    assert_eq!(stats.total_changed(), 1);
}

#[test]
fn an_unreadable_pool_is_repaired() {
    let (store, repair) = settle_loaded_store(Some(store_of(vec![])), None);
    assert_eq!((store.accounts.len(), repair), (0, StoreRepair::NotNeeded));
    let first = store_of(vec![stored("a", "A", "acc-1")]);
    let (store, repair) = settle_loaded_store(None, Some(first));
    assert_eq!((store.accounts.len(), repair), (1, StoreRepair::BestEffort));
    let (store, repair) = settle_loaded_store(None, None);
    assert_eq!((store.accounts.len(), store.version, repair), (0, 1, StoreRepair::Required));
    assert_eq!(temporary_file_name_with(Some("x.json"), "7"), ".x.json.tmp-7");
    assert_eq!(temporary_file_name_with(None, "7"), ".accounts.json.tmp-7");
    let fresh = temporary_file_name(None);
    assert!(fresh.starts_with(".accounts.json.tmp-"));
    assert_eq!(fresh.len(), 19 + 36);
    assert_eq!(corrupted_store_name(12), "accounts.corrupt-12.json");
}

#[test]
fn default_configuration() {
    let config = AppConfig::default();
    assert_eq!(config.version, 1);
    assert_eq!(config.default_watch_interval_seconds, 60);
    assert_eq!(config.proxy.listen, "127.0.0.1:4141");
    assert_eq!(config.proxy.model_aliases.get("codex").as_deref(), Some("gpt-5.4"));
    let mut proxy = ProxyConfig::default();
    proxy.api_key = "  ".to_string();
    proxy.max_concurrent_requests = 0;
    proxy.normalize("/work");
    assert_eq!(proxy.api_key, "codex-pool-local");
    assert_eq!(proxy.max_concurrent_requests, 8);
    assert_eq!(proxy.default_cwd, "/work");
    assert_eq!(proxy.sandbox, "workspace-write");
    let filled = format!("{proxy:?}");
    proxy.normalize("/work");
    assert_eq!(format!("{proxy:?}"), filled);
}

#[test]
fn an_enrolled_account_can_be_referred_to() {
    let mut store = store_of(vec![stored("x", "X", "acc-0")]);
    let (account, _) =
        upsert_auth_account(&mut store, build_auth("acc-1", "a@x"), None, None, None).unwrap();
    assert_eq!(resolve_account(&store, "acc-1").unwrap().id, account.id);
    assert_eq!(resolve_account(&store, &account.id).unwrap().account_id, "acc-1");
}

#[test]
fn a_refresh_takes_three_events_for_an_account_at_most() {
    let store = store_of(vec![stored("a", "A", "acc-1"), stored("b", "B", "acc-2")]);
    let mut run = StoreRefresh::begin(store, None, None, 1).unwrap();
    let mut events = 0;
    loop {
        events += 1;
        match run.action() {
            RefreshAction::FetchUsage { .. } => run.on_fetch(Err("401".to_string()), 2),
            RefreshAction::RefreshTokens { auth_json } => run.on_tokens(Ok(auth_json), 3),
            RefreshAction::Finish => break,
        }
    }
    assert_eq!(events - 1, 6);
    let store = run.into_store();
    assert_eq!(store.accounts[0].id, "a");
    assert_eq!(store.accounts[1].usage_error.as_deref(), Some("401"));
}

// ---------------------------------------------------------------------------
// Status and ranking
// ---------------------------------------------------------------------------
#[test]
fn status_follows_the_last_error() {
    let usage = usage_snapshot(1.0, 1.0);
    assert_eq!(AccountStatus::classify(Some(&usage), None), AccountStatus::Healthy);
    assert_eq!(AccountStatus::classify(None, None), AccountStatus::UnknownError);
    let cases = [
        ("DEACTIVATED_WORKSPACE", AccountStatus::WorkspaceRemoved),
        ("Token is expired", AccountStatus::Expired),
        ("authorization expired, please re-auth this account", AccountStatus::Expired),
        ("please try signing in again", AccountStatus::Expired),
        ("run codex login first", AccountStatus::ReauthRequired),
        ("not using ChatGPT sign-in", AccountStatus::ReauthRequired),
        ("timeout", AccountStatus::UnknownError),
    ];
    for (error, expected) in cases {
        assert_eq!(AccountStatus::classify(Some(&usage), Some(error)), expected, "{error}");
    }
    assert_eq!(AccountStatus::Healthy.to_text(), "healthy");
    assert_eq!(AccountStatus::ReauthRequired.to_text(), "reauth_required");
    assert_eq!(AccountStatus::WorkspaceRemoved.to_text(), "workspace_removed");
    assert_eq!(AccountStatus::UnknownError.to_text(), "unknown_error");
}

#[test]
fn prefers_more_one_week_remaining_before_five_hour() {
    let accounts = vec![
        summary("A", "acc-a", 20.0, 80.0, AccountStatus::Healthy),
        summary("B", "acc-b", 10.0, 95.0, AccountStatus::Healthy),
    ];

    let selected = pick_best_account(&accounts).expect("should pick account");
    assert_eq!(selected.account_id, "acc-b");
}

#[test]
fn skips_expired_accounts() {
    let accounts = vec![
        summary("A", "acc-a", 1.0, 1.0, AccountStatus::Expired),
        summary("B", "acc-b", 20.0, 20.0, AccountStatus::Healthy),
    ];

    let selected = pick_best_account(&accounts).expect("should pick healthy account");
    assert_eq!(selected.account_id, "acc-b");
}

#[test]
fn ties_go_to_the_current_account_then_to_the_label() {
    let a = summary("b", "acc-a", 20.0, 20.0, AccountStatus::Healthy);
    let mut b = summary("c", "acc-b", 20.0, 20.0, AccountStatus::Healthy);
    let c = summary("a", "acc-c", 20.0, 20.0, AccountStatus::Healthy);
    assert_eq!(compare_accounts_by_remaining(&a, &b), Ordering::Less);
    assert_eq!(compare_accounts_by_remaining(&a, &a), Ordering::Equal);
    b.is_current = true;
    assert_eq!(compare_accounts_by_remaining(&a, &b), Ordering::Greater);
    let order: Vec<String> = sort_accounts_by_remaining(vec![a, b, c])
        .into_iter()
        .map(|account| account.label)
        .collect();
    assert_eq!(order, vec!["c", "a", "b"]);
    let accounts = vec![
        summary("n", "acc-n", f64::NAN, f64::NAN, AccountStatus::Expired),
        summary("o", "acc-o", 50.0, 50.0, AccountStatus::Healthy),
        summary("p", "acc-p", 40.0, 50.0, AccountStatus::Healthy),
    ];
    assert_eq!(pick_best_account(&accounts).unwrap().account_id, "acc-p");
    let removed = summary("x", "acc-x", 0.0, 0.0, AccountStatus::WorkspaceRemoved);
    assert!(pick_best_account(&[removed]).is_none());
}

#[test]
fn remaining_percent_is_rounded_and_clamped() {
    assert_eq!(percent(0.0).remaining_units(), Some(100 << 47));
    assert_eq!(percent(100.0).remaining_units(), Some(0));
    assert_eq!(percent(250.0).remaining_units(), Some(0));
    assert_eq!(percent(-5.0).remaining_units(), Some(100 << 47));
    assert_eq!(percent(12.5).remaining_units(), Some((175 << 47) / 2));
    assert_eq!(percent(f64::NAN).remaining_units(), None);
    assert!(percent(f64::NAN).nan());
    for used in [0.1, 33.3, 99.999_999, 1e-300, 57.29577951308232] {
        let units = percent(used).remaining_units().unwrap();
        assert_eq!(units as f64 / (1u64 << 47) as f64, 100.0 - used);
    }
}

// ---------------------------------------------------------------------------
// References and selection
// ---------------------------------------------------------------------------
#[test]
fn references_resolve_by_identifier_then_account_then_prefix() {
    let store = store_of(vec![
        stored("id-one", "One", "acc-1"),
        stored("acc-1", "Two", "acc-2"),
        stored("id-two", "Three", "other"),
    ]);
    assert_eq!(resolve_account(&store, "acc-1").unwrap().label, "Two");
    assert_eq!(resolve_account(&store, "acc-2").unwrap().label, "Two");
    assert_eq!(resolve_account(&store, "oth").unwrap().label, "Three");
    let missing = resolve_account(&store, "zzz").unwrap_err();
    assert_eq!(missing.to_text(), "account reference `zzz` not found");
    let ambiguous = resolve_account(&store, "id-").unwrap_err();
    assert!(matches!(ambiguous, ResolveError::Ambiguous { .. }));
    assert_eq!(
        ambiguous.to_text(),
        "account reference `id-` is ambiguous. Candidates:\n- id-one | One | acc-1\n- id-two | Three | other"
    );
}

#[test]
fn removing_takes_the_account_out() {
    let mut store = store_of(vec![stored("a1", "A", "acc-1"), stored("b1", "B", "acc-2")]);
    let removed = remove_account(&mut store, "a").unwrap_err();
    assert!(matches!(removed, ResolveError::Ambiguous { .. }));
    assert_eq!(store.accounts.len(), 2);
    let removed = remove_account(&mut store, "acc-1").unwrap();
    assert_eq!(removed.label, "A");
    assert_eq!(store.accounts.len(), 1);
    assert_eq!(store.accounts[0].id, "b1");
    assert!(remove_account(&mut store, "acc-1").is_err());
}

#[test]
fn a_selection_is_the_best_or_a_named_account() {
    assert_eq!(
        choose_selection(Some("x"), true).unwrap_err().to_text(),
        "pass either --best or <account-ref>, not both"
    );
    assert_eq!(
        choose_selection(None, false).unwrap_err().to_text(),
        "missing <account-ref> or --best"
    );
    assert!(matches!(choose_selection(None, true).unwrap(), Selection::Best));
    let named = choose_selection(Some("acc-2"), false).unwrap();
    let mut first = stored("a", "A", "acc-1");
    first.usage = Some(usage_snapshot(90.0, 90.0));
    let mut second = stored("b", "B", "acc-2");
    second.usage = Some(usage_snapshot(10.0, 10.0));
    second.usage_error = Some("token is expired".to_string());
    let mut store = store_of(vec![first, second]);
    assert_eq!(select_account(&store, None, &named).unwrap().account_id, "acc-2");
    assert_eq!(select_account(&store, None, &Selection::Best).unwrap().account_id, "acc-1");
    let listed = summaries_from_store(&store, Some("acc-1"));
    assert_eq!(listed[0].account_id, "acc-2");
    assert!(listed[1].is_current);
    store.accounts.remove(0);
    let error = select_account(&store, None, &Selection::Best).unwrap_err();
    assert!(matches!(error, SelectError::NoSwitchableAccount));
    assert_eq!(error.to_text(), "no switchable account found");
}

// ---------------------------------------------------------------------------
// Refreshing
// ---------------------------------------------------------------------------
fn run_refresh(
    store: AccountsStore,
    live: Option<Value>,
    target: Option<&str>,
    hooks: &TestHooks,
) -> AccountsStore {
    let mut run = StoreRefresh::begin(store, live, target, 50).expect("target should resolve");
    loop {
        match run.action() {
            RefreshAction::FetchUsage { account_id, .. } => {
                let fetched = hooks.mock_usage_of(&account_id).expect("answer should be set");
                run.on_fetch(fetched, 60);
            }
            RefreshAction::RefreshTokens { .. } => {
                run.on_tokens(Err("offline".to_string()), 70);
            }
            RefreshAction::Finish => return run.into_store(),
        }
    }
}

#[test]
fn refresh_marks_healthy_and_expired_accounts() {
    let mut store_value = AccountsStore::default();
    let _ = upsert_auth_account(
        &mut store_value,
        build_auth("healthy-1", "one@example.com"),
        Some("Healthy".to_string()),
        None,
        None,
    )
    .expect("upsert should work");
    let _ = upsert_auth_account(
        &mut store_value,
        build_auth("expired-1", "two@example.com"),
        Some("Expired".to_string()),
        None,
        None,
    )
    .expect("upsert should work");

    let mut hooks = TestHooks::default();
    hooks.set_mock_usage("healthy-1", MockUsageResponse::Snapshot(usage_snapshot(10.0, 10.0)));
    hooks.set_mock_usage(
        "expired-1",
        MockUsageResponse::Error("provided authentication token is expired".to_string()),
    );

    let refreshed = run_refresh(store_value, None, None, &hooks);
    let summaries = summaries_from_store(&refreshed, None);
    let healthy = summaries
        .iter()
        .find(|account| account.account_id == "healthy-1")
        .expect("healthy account should exist");
    let expired = summaries
        .iter()
        .find(|account| account.account_id == "expired-1")
        .expect("expired account should exist");
    assert_eq!(healthy.status.to_text(), "healthy");
    assert_eq!(expired.status.to_text(), "expired");
}

#[test]
fn use_best_and_run_best_share_same_selection_logic() {
    let mut store_value = AccountsStore::default();
    let _ = upsert_auth_account(
        &mut store_value,
        build_auth("acc-1", "one@example.com"),
        Some("One".to_string()),
        None,
        None,
    )
    .expect("upsert should work");
    let _ = upsert_auth_account(
        &mut store_value,
        build_auth("acc-2", "two@example.com"),
        Some("Two".to_string()),
        None,
        None,
    )
    .expect("upsert should work");
    let mut hooks = TestHooks::default();
    hooks.set_mock_usage("acc-1", MockUsageResponse::Snapshot(usage_snapshot(30.0, 40.0)));
    hooks.set_mock_usage("acc-2", MockUsageResponse::Snapshot(usage_snapshot(10.0, 20.0)));

    let refreshed = run_refresh(store_value, None, None, &hooks);
    let selected_for_use =
        select_account(&refreshed, None, &Selection::Best).expect("best account should be found");
    let refreshed = run_refresh(refreshed, None, None, &hooks);
    let selected_for_run =
        select_account(&refreshed, None, &Selection::Best).expect("best account should be found");
    assert_eq!(selected_for_use.account_id, selected_for_run.account_id);
    assert_eq!(selected_for_use.account_id, "acc-2");
}

#[test]
fn refresh_touches_only_what_is_meant() {
    let store = store_of(vec![stored("a", "A", "acc-1"), stored("b", "B", "acc-2")]);
    let mut hooks = TestHooks::default();
    hooks.set_mock_usage("acc-2", MockUsageResponse::Error("boom".to_string()));
    hooks.set_mock_usage("acc-2", MockUsageResponse::Error("401 nope".to_string()));
    let refreshed = run_refresh(store, None, Some("acc-2"), &hooks);
    assert_eq!(refreshed.accounts[0].updated_at, 2);
    assert_eq!(refreshed.accounts[1].updated_at, 70);
    assert_eq!(
        refreshed.accounts[1].usage_error.as_deref(),
        Some("401 nope | token refresh failed: offline")
    );
    assert_eq!(refreshed.accounts[1].label, "B");
    assert!(hooks.mock_usage_of("acc-9").is_none());
    let store = store_of(vec![stored("a", "A", "acc-1")]);
    assert!(StoreRefresh::begin(store, None, Some("zzz"), 1).is_err());
}

#[test]
fn refresh_prefers_the_document_in_use() {
    let store = store_of(vec![stored("a", "A", "acc-1"), stored("b", "B", "acc-2")]);
    let mut live = build_auth("acc-2", "live@example.com");
    live["tokens"]["access_token"] = Value::String("live-access".to_string());
    let mut run = StoreRefresh::begin(store, Some(live), None, 5).unwrap();
    match run.action() {
        RefreshAction::FetchUsage { access_token, account_id } => {
            assert_eq!((access_token.as_str(), account_id.as_str()), ("access-acc-1", "acc-1"));
        }
        other => panic!("unexpected action {other:?}"),
    }
    run.on_fetch(Ok(usage_snapshot(1.0, 1.0)), 6);
    match run.action() {
        RefreshAction::FetchUsage { access_token, .. } => assert_eq!(access_token, "live-access"),
        other => panic!("unexpected action {other:?}"),
    }
    run.on_fetch(Ok(usage_snapshot(1.0, 1.0)), 7);
    assert!(matches!(run.action(), RefreshAction::Finish));
    let store = run.into_store();
    assert_eq!(store.accounts[1].auth_json["tokens"]["access_token"], "live-access");
    assert_eq!(store.accounts[1].email.as_deref(), Some("live@example.com"));
    assert_eq!((store.accounts[0].updated_at, store.accounts[1].updated_at), (6, 7));
}

#[test]
fn a_report_without_a_plan_asks_for_fresh_tokens_once() {
    let mut refresh = AccountRefresh::new(build_auth("acc-1", "e@x"));
    let mut bare = usage_snapshot(1.0, 2.0);
    bare.plan_type = None;
    refresh.on_fetch(Ok(bare));
    assert!(matches!(refresh.action(), RefreshAction::RefreshTokens { .. }));
    refresh.on_tokens(Ok(build_auth("acc-1", "new@x")));
    assert!(matches!(refresh.action(), RefreshAction::FetchUsage { .. }));
    let mut bare = usage_snapshot(3.0, 4.0);
    bare.plan_type = None;
    refresh.on_fetch(Ok(bare));
    assert!(matches!(refresh.action(), RefreshAction::Finish));
    let mut account = stored("a", "A", "acc-1");
    account.usage_error = Some("old".to_string());
    refresh.apply(&mut account, 9);
    assert_eq!(account.email.as_deref(), Some("new@x"));
    assert_eq!(account.plan_type.as_deref(), Some("pro"));
    assert_eq!(account.usage.as_ref().unwrap().plan_type.as_deref(), Some("pro"));
    assert_eq!(account.usage_error, None);

    // a document that cannot be used is an error at once
    let refresh = AccountRefresh::new(parse("{}"));
    assert!(matches!(refresh.action(), RefreshAction::Finish));
    let mut account = stored("a", "A", "acc-1");
    refresh.apply(&mut account, 9);
    assert_eq!(
        account.usage_error.as_deref(),
        Some("no ChatGPT sign-in token detected; run codex login first")
    );
    assert_eq!(account.to_summary(None).status, AccountStatus::ReauthRequired);
}

// ---------------------------------------------------------------------------
// Logins
// ---------------------------------------------------------------------------
struct Trial {
    live: Value,
    saved: Option<StoredAccount>,
}

fn run_login(
    trial: &mut Trial,
    new_auth: &Value,
    label: Option<String>,
    expected: Option<String>,
) -> Result<StoredAccount, String> {
    let baseline = document_status(&trial.live, Some(1)).fingerprint;
    let (mut flow, mut action) = LoginFlow::new(label, expected, Some(trial.live.clone()), baseline);
    loop {
        action = match action {
            LoginAction::RunLogin => {
                trial.live = new_auth.clone();
                flow.on_login(LoginExit::Exited { success: true, status: "0".to_string() })
            }
            LoginAction::ReadStatus => flow.on_status(Ok(document_status(&trial.live, Some(2)))),
            LoginAction::ReadAuth => flow.on_auth(Ok(Some(trial.live.clone()))),
            LoginAction::Sleep => flow.on_slept(),
            LoginAction::FetchUsage { .. } => flow.on_fetched(Ok(usage_snapshot(10.0, 20.0))),
            LoginAction::Save { auth_json, label, usage, usage_error } => {
                let mut store = AccountsStore::default();
                let (account, _) =
                    upsert_auth_account(&mut store, auth_json, label, usage, usage_error)
                        .expect("upsert should work");
                trial.saved = Some(account.clone());
                flow.on_saved(Ok(account))
            }
            LoginAction::Restore { document } => {
                trial.live = document.expect("there was a document");
                flow.on_restored(Ok(()))
            }
            LoginAction::Finish(result) => return result,
        };
    }
}

#[test]
fn add_restores_original_live_auth() {
    let original = build_auth("original-1", "orig@example.com");
    let mut trial = Trial { live: original, saved: None };
    let account = run_login(&mut trial, &build_auth("new-1", "new@example.com"), None, None)
        .expect("account should be added");
    assert_eq!(account.account_id, "new-1");
    assert_eq!(
        extract_auth(&trial.live).expect("restored auth should parse").account_id,
        "original-1"
    );
}

#[test]
fn reauth_fails_when_login_returns_different_account() {
    let original = build_auth("current-1", "current@example.com");
    let mut trial = Trial { live: original, saved: None };
    let mut store_value = AccountsStore::default();
    let (stored, _) = upsert_auth_account(
        &mut store_value,
        build_auth("expected-1", "expected@example.com"),
        Some("Expected".to_string()),
        Some(usage_snapshot(30.0, 40.0)),
        None,
    )
    .expect("store upsert should work");

    let error = run_login(
        &mut trial,
        &build_auth("wrong-1", "wrong@example.com"),
        Some(stored.label.clone()),
        Some(stored.account_id.clone()),
    )
    .expect_err("reauth should reject mismatched account");
    assert!(error.contains("instead of expected"));
    assert_eq!(error, "reauth returned account wrong-1 instead of expected expected-1");
    assert!(trial.saved.is_none());
    assert_eq!(
        extract_auth(&trial.live).expect("restored auth should parse").account_id,
        "current-1"
    );
}

#[test]
fn a_login_that_shows_no_document_times_out_and_restores() {
    let (mut flow, action) = LoginFlow::new(None, None, None, Some("same".to_string()));
    assert!(matches!(action, LoginAction::RunLogin));
    let mut action =
        flow.on_login(LoginExit::Exited { success: true, status: "0".to_string() });
    let mut looks = 0;
    while !matches!(action, LoginAction::Restore { document: None }) {
        action = match action {
            LoginAction::ReadStatus => {
                looks += 1;
                let mut status = missing_auth_status();
                status.fingerprint = Some("a\"b".to_string());
                flow.on_status(Ok(status))
            }
            LoginAction::Sleep => flow.on_slept(),
            other => panic!("unexpected action {other:?}"),
        };
    }
    assert_eq!(looks, MAX_POLLS);
    match flow.on_restored(Err("disk full".to_string())) {
        LoginAction::Finish(Err(error)) => assert_eq!(
            error,
            "timed out waiting for auth.json to change after login (last fingerprint: Some(\"a\\\"b\")); restore failed: disk full"
        ),
        other => panic!("unexpected action {other:?}"),
    }
    assert!(matches!(flow.stage, LoginStage::Over));
}

#[test]
fn a_failed_login_is_reported_after_the_restore() {
    let (mut flow, _) = LoginFlow::new(None, None, None, None);
    let action =
        flow.on_login(LoginExit::Exited { success: false, status: "exit status: 1".to_string() });
    assert!(matches!(action, LoginAction::Restore { document: None }));
    match flow.on_restored(Ok(())) {
        LoginAction::Finish(Err(error)) => {
            assert_eq!(error, "`codex login` exited with status exit status: 1");
        }
        other => panic!("unexpected action {other:?}"),
    }
    let (mut flow, _) = LoginFlow::new(None, None, None, None);
    let _ = flow.on_login(LoginExit::NotRun("codex executable not found in PATH".to_string()));
    assert!(matches!(flow.stage, LoginStage::Restoring { outcome: Err(_) }));
    let saved = combine_outcomes(Ok(stored("a", "A", "acc")), Err("no".to_string()));
    assert_eq!(saved.unwrap_err(), "no");
    let (mut flow, _) = LoginFlow::new(Some("L".to_string()), None, None, None);
    let _ = flow.on_login(LoginExit::Exited { success: true, status: String::new() });
    let _ = flow.on_status(Ok(document_status(&build_auth("n", "e"), None)));
    assert!(matches!(flow.on_auth(Ok(None)), LoginAction::Sleep));
    let _ = flow.on_slept();
    let _ = flow.on_status(Ok(document_status(&build_auth("n", "e"), None)));
    let _ = flow.on_auth(Ok(Some(build_auth("n", "e"))));
    match flow.on_fetched(Err("Token is expired".to_string())) {
        LoginAction::Save { label, usage, usage_error, .. } => {
            assert_eq!(label.as_deref(), Some("L"));
            assert!(usage.is_none());
            assert_eq!(
                usage_error.as_deref(),
                Some("authorization expired, please re-auth this account")
            );
        }
        other => panic!("unexpected action {other:?}"),
    }
}

// ---------------------------------------------------------------------------
// What the commands say
// ---------------------------------------------------------------------------
#[test]
fn messages_name_the_account() {
    let account = stored("a", "Work", "abcdefghijkl");
    assert_eq!(added_message(&account), "added account Work (abcdefgh)");
    assert_eq!(switched_message(&account), "switched live auth to Work (abcdefgh)");
    assert_eq!(removed_message(&account), "removed Work (abcdefgh) from codex-pool store");
    assert_eq!(reauthorized_message(&account), "reauthorized Work (abcdefgh)");
    assert_eq!(
        import_message(&ImportStats { imported: 12, updated: 0 }),
        "imported 12 accounts, updated 0 accounts"
    );
    assert_eq!(
        legacy_prompt("/x"),
        "Import accounts from legacy Codex Tools store at /x?"
    );
    assert_eq!(closing_lines().len(), 4);
    assert_eq!(refresh_target(Some("a"), true), None);
    assert_eq!(refresh_target(Some("a"), false), Some("a"));
    assert_eq!(watch_interval(None, 60), 60);
    assert_eq!(watch_interval(Some(5), 60), 5);
}

#[test]
fn set_up_offers_an_account_until_one_came() {
    let mut progress = InitProgress::new();
    assert!(progress.offers_account());
    progress.on_import(&ImportStats { imported: 0, updated: 0 });
    assert!(progress.offers_account());
    progress.on_import(&ImportStats { imported: 0, updated: 2 });
    assert!(!progress.offers_account());
    let mut progress = InitProgress::new();
    progress.on_account();
    assert!(!progress.offers_account());
}

#[test]
fn doctor_reports_what_is_there() {
    let lines = doctor_lines(None, "/d", "/d/s", 3, &missing_auth_status(), None);
    assert_eq!(
        lines,
        vec![
            "codex_cli=missing",
            "data_dir=/d",
            "store_path=/d/s",
            "account_count=3",
            "live_auth=missing",
            "legacy_store=not found",
        ]
    );
    let live = document_status(&build_auth("acc", "e"), None);
    let lines = doctor_lines(Some("/bin/codex"), "d", "s", 0, &live, Some("/l"));
    assert_eq!(lines[0], "codex_cli=/bin/codex");
    assert_eq!(lines[4], "live_auth=acc");
    assert_eq!(lines[5], "legacy_store=/l");
    let nameless = document_status(&parse("{}"), None);
    assert_eq!(doctor_lines(None, "d", "s", 0, &nameless, None)[4], "live_auth=available");
}
