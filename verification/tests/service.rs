//! Usage reports, updates, the table of accounts, files and texts.

use codex_pool::context::{
    codex_candidates, merged_search_path, resolve_legacy_store_path, system_directories, user_bin_directory,
    AppContext, AppPaths, Platform,
};
use codex_pool::models::{AccountStatus, AccountSummary, UsageSnapshot, UsageWindow};
use codex_pool::output::{
    account_rows, are_showable_at, errors_below, is_showable, render_account_table,
    render_account_table_within, render_if_showable,
    render_if_showable_within, table_header,
};
use codex_pool::percent::Percent;
use codex_pool::percent_text::{format_percent, format_remaining};
use codex_pool::text;
use codex_pool::text::CharClass;
use codex_pool::updater::{
    after_failed_move, check_archive, choose_install_place, detect_target, lower_hex,
    normalize_requested_version, parse_checksum, parse_version_output, plan_release,
    resolve_archive_url, verify_checksum, verify_digest, InstallPlace, MoveFallback, UpdateError,
};
use codex_pool::usage::{
    fetch_failure_message, format_error_chain, is_readable_report, map_usage_payload,
    map_usage_payload_at, normalize_usage_error_message, pick_nearest_window,
    read_chatgpt_base_url, resolve_usage_urls, should_retry_with_token_refresh,
    AdditionalRateLimitDetails, CreditDetails, RateLimitDetails, UsageAction, UsageApiResponse,
    UsageFetch, UsageReply, UsageWindowRaw,
};
use codex_pool::utils::{
    format_timestamp, format_timestamp_at, is_placed_at, is_safely_placed, now_unix_seconds,
    reading_to_timestamp, short_account, truncate_for_error,
};
use std::path::PathBuf;

fn percent(value: f64) -> Percent {
    Percent { bits: value.to_bits() }
}

fn window(seconds: i64, reset_at: i64) -> UsageWindowRaw {
    UsageWindowRaw { used_percent: percent(1.5), limit_window_seconds: seconds, reset_at }
}

// ---------------------------------------------------------------------------
// Usage
// ---------------------------------------------------------------------------
#[test]
fn usage_urls_prefer_custom_base_url() {
    let config = "chatgpt_base_url = \"https://chatgpt.com/backend-api\"\n";
    let urls = resolve_usage_urls(Some(config));
    assert_eq!(urls[0], "https://chatgpt.com/backend-api/wham/usage");
}

#[test]
fn usage_urls_are_tried_once_each() {
    assert_eq!(
        resolve_usage_urls(None),
        vec![
            "https://chatgpt.com/backend-api/wham/usage",
            "https://chatgpt.com/wham/usage",
            "https://chatgpt.com/api/codex/usage",
        ]
    );
    assert_eq!(
        resolve_usage_urls(Some("chatgpt_base_url = 'https://x.example/'")),
        vec![
            "https://x.example/backend-api/wham/usage",
            "https://x.example/wham/usage",
            "https://x.example/api/codex/usage",
            "https://chatgpt.com/backend-api/wham/usage",
            "https://chatgpt.com/api/codex/usage",
        ]
    );
    assert_eq!(
        resolve_usage_urls(Some("chatgpt_base_url = \"https://x.example/backend-api\"")),
        vec![
            "https://x.example/backend-api/wham/usage",
            "https://x.example/api/codex/usage",
            "https://chatgpt.com/backend-api/wham/usage",
            "https://chatgpt.com/api/codex/usage",
        ]
    );
}

#[test]
fn base_url_is_read_from_the_first_line_that_sets_it() {
    assert_eq!(
        read_chatgpt_base_url("a = 1\r\n  chatgpt_base_url =  \"u\"  \r\n").as_deref(),
        Some("u")
    );
    assert_eq!(
        read_chatgpt_base_url("chatgpt_base_url = \"\"\nchatgpt_base_url = 'v'").as_deref(),
        Some("v")
    );
    assert_eq!(read_chatgpt_base_url("chatgpt_base_url\nchatgpt_base_url = 'v'"), None);
    assert_eq!(read_chatgpt_base_url(""), None);
    assert_eq!(read_chatgpt_base_url("chatgpt_base_url = a=b").as_deref(), Some("a=b"));
}

#[test]
fn reports_give_the_nearest_windows() {
    let report = UsageApiResponse {
        plan_type: Some("pro".to_string()),
        rate_limit: Some(RateLimitDetails {
            primary_window: Some(window(17_000, 1)),
            secondary_window: Some(window(600_000, 2)),
        }),
        additional_rate_limits: Some(vec![
            AdditionalRateLimitDetails { rate_limit: None },
            AdditionalRateLimitDetails {
                rate_limit: Some(RateLimitDetails {
                    primary_window: Some(window(19_000, 3)),
                    secondary_window: Some(window(604_800, 4)),
                }),
            },
        ]),
        credits: Some(CreditDetails {
            has_credits: true,
            unlimited: false,
            balance: Some("7".to_string()),
        }),
    };
    assert!(is_readable_report(&report));
    let snapshot = map_usage_payload_at(report, 99);
    assert_eq!(snapshot.fetched_at, 99);
    // the first of two that are equally near
    assert_eq!(snapshot.five_hour.unwrap().reset_at, Some(1));
    assert_eq!(snapshot.one_week.unwrap().reset_at, Some(4));
    assert_eq!(snapshot.five_hour.unwrap().window_seconds, 17_000);
    assert_eq!(snapshot.five_hour.unwrap().used_percent.bits, 1.5f64.to_bits());
    let credits = snapshot.credits.unwrap();
    assert!(credits.has_credits && !credits.unlimited);
    assert_eq!(credits.balance.as_deref(), Some("7"));
    let empty = UsageApiResponse {
        plan_type: None,
        rate_limit: None,
        additional_rate_limits: None,
        credits: None,
    };
    let snapshot = map_usage_payload(empty);
    assert!(snapshot.five_hour.is_none() && snapshot.one_week.is_none());
    assert!(snapshot.fetched_at > 1_600_000_000);
    assert!(pick_nearest_window(&vec![], 5).is_none());
    let far = UsageApiResponse {
        plan_type: None,
        rate_limit: Some(RateLimitDetails {
            primary_window: Some(window(i64::MIN, 1)),
            secondary_window: None,
        }),
        additional_rate_limits: None,
        credits: None,
    };
    assert!(!is_readable_report(&far));
}

fn urls(n: usize) -> Vec<String> {
    (0..n).map(|i| format!("u{i}")).collect()
}

fn request_url(action: &UsageAction) -> String {
    match action {
        UsageAction::Request(request) => request.url.clone(),
        other => panic!("unexpected action {other:?}"),
    }
}

#[test]
fn a_search_goes_from_address_to_address() {
    let mut fetch = UsageFetch::new(urls(3), "token", "acc");
    let first = fetch.action();
    match &first {
        UsageAction::Request(request) => assert_eq!(
            request.headers,
            vec![
                ("Authorization".to_string(), "Bearer token".to_string()),
                ("ChatGPT-Account-Id".to_string(), "acc".to_string()),
                ("Accept".to_string(), "application/json".to_string()),
            ]
        ),
        other => panic!("unexpected action {other:?}"),
    }
    assert_eq!(request_url(&first), "u0");
    let causes = vec!["a".to_string(), "b".to_string(), "a".to_string()];
    let second = fetch.on_reply(UsageReply::Unreachable(causes), 1);
    assert_eq!(request_url(&second), "u1");
    let third = fetch.on_reply(
        UsageReply::Refused { status: "500 x".to_string(), body: "y".repeat(141) },
        1,
    );
    assert_eq!(request_url(&third), "u2");
    let last = fetch.on_reply(
        UsageReply::Refused { status: "404 z".to_string(), body: "w".to_string() },
        1,
    );
    match last {
        UsageAction::Finish(Err(error)) => assert_eq!(
            error,
            format!(
                "failed to query usage endpoint: u0 -> a -> b | u1 -> 500 x: {}... | and 1 more failures",
                "y".repeat(140)
            )
        ),
        other => panic!("unexpected action {other:?}"),
    }
}

#[test]
fn a_search_ends_with_a_report_or_one_that_cannot_be_read() {
    let mut fetch = UsageFetch::new(urls(2), "t", "a");
    match fetch.on_reply(UsageReply::Unreadable, 1) {
        UsageAction::Finish(Err(error)) => {
            assert_eq!(error, "failed to parse response from u0");
        }
        other => panic!("unexpected action {other:?}"),
    }
    let report = UsageApiResponse {
        plan_type: Some("p".to_string()),
        rate_limit: None,
        additional_rate_limits: None,
        credits: None,
    };
    match fetch.on_reply(UsageReply::Report(report), 8) {
        UsageAction::Finish(Ok(snapshot)) => assert_eq!(snapshot.fetched_at, 8),
        other => panic!("unexpected action {other:?}"),
    }
    let empty = UsageFetch::new(vec![], "t", "a");
    match empty.action() {
        UsageAction::Finish(Err(error)) => assert_eq!(
            error,
            "failed to query usage endpoint: no candidate URL succeeded"
        ),
        other => panic!("unexpected action {other:?}"),
    }
    assert_eq!(
        fetch_failure_message(&vec!["a".to_string(), "b".to_string()]),
        "failed to query usage endpoint: a | b"
    );
    assert_eq!(format_error_chain(vec!["x".to_string(), "x".to_string()]), "x");
}

#[test]
fn failures_are_read_for_what_they_say() {
    for error in ["HTTP 401", "Unauthorized", "INVALID_TOKEN", "deactivated_workspace"] {
        assert!(should_retry_with_token_refresh(&Err(error.to_string())), "{error}");
    }
    assert!(!should_retry_with_token_refresh(&Err("timeout".to_string())));
    let snapshot = UsageSnapshot {
        fetched_at: 0,
        plan_type: None,
        five_hour: None,
        one_week: None,
        credits: None,
    };
    assert!(should_retry_with_token_refresh(&Ok(snapshot.clone())));
    let named = UsageSnapshot { plan_type: Some("p".to_string()), ..snapshot };
    assert!(!should_retry_with_token_refresh(&Ok(named)));
    assert_eq!(
        normalize_usage_error_message("x DEACTIVATED_workspace"),
        "deactivated_workspace: account was removed from the team workspace"
    );
    assert_eq!(
        normalize_usage_error_message("Your refresh token has already been used"),
        "authorization expired, please re-auth this account"
    );
    assert_eq!(normalize_usage_error_message("Other"), "Other");
    for raw in ["deactivated_workspace", "token is expired", "Other"] {
        let kept = normalize_usage_error_message(raw);
        assert_eq!(normalize_usage_error_message(&kept), kept);
        assert_eq!(
            AccountStatus::classify(None, Some(&kept)),
            AccountStatus::classify(None, Some(raw))
        );
    }
}

// ---------------------------------------------------------------------------
// Updates
// ---------------------------------------------------------------------------
#[test]
fn normalizes_requested_versions() {
    assert_eq!(
        normalize_requested_version(Some("0.1.1")).as_deref(),
        Some("v0.1.1")
    );
    assert_eq!(
        normalize_requested_version(Some("v0.1.1")).as_deref(),
        Some("v0.1.1")
    );
    assert_eq!(normalize_requested_version(None), None);
}

#[test]
fn parses_checksum_entries() {
    let checksum = "abc123  codex-pool-aarch64-apple-darwin.tar.gz\n";
    assert_eq!(
        parse_checksum(checksum, "codex-pool-aarch64-apple-darwin.tar.gz")
            .expect("checksum should parse"),
        "abc123"
    );
}

#[test]
fn parses_version_output() {
    assert_eq!(
        parse_version_output("codex-pool 0.1.1\n").as_deref(),
        Some("0.1.1")
    );
}

#[test]
fn version_edge_cases() {
    let tag = normalize_requested_version(Some(" 1 ")).unwrap();
    assert_eq!(tag, "v1");
    assert_eq!(normalize_requested_version(Some(&tag)).unwrap(), tag);
    assert_eq!(normalize_requested_version(Some("  ")).as_deref(), Some("v"));
    assert_eq!(parse_version_output(""), None);
    assert_eq!(parse_version_output(" \nx"), None);
    assert_eq!(parse_version_output("a vv2\nb").as_deref(), Some("2"));
}

#[test]
fn checksums_are_checked() {
    let listing = "\nAB12 *other\nonlyone\nBA7816BF8F01CFEA414140DE5DAE2223B00361A396177A9CB410FF61F20015AD  *name\n";
    let sum = parse_checksum(listing, "name").unwrap();
    assert_eq!(sum, "ba7816bf8f01cfea414140de5dae2223b00361a396177a9cb410ff61f20015ad");
    assert!(verify_checksum(b"abc", &sum).is_ok());
    assert!(verify_checksum(b"abc", &sum.to_uppercase()).is_ok());
    assert!(check_archive(b"abc", listing, "name").is_ok());
    let error = check_archive(b"abd", listing, "name").unwrap_err();
    assert!(matches!(error, UpdateError::ChecksumMismatch { .. }));
    assert!(error.to_text().starts_with(&format!("checksum mismatch: expected {sum}, got ")));
    let missing = check_archive(b"abc", listing, "absent").unwrap_err();
    assert_eq!(
        missing.to_text(),
        "checksum file did not contain an entry for absent"
    );
    assert_eq!(lower_hex(&[0, 10, 255, 16]), "000aff10");
    assert!(verify_digest(&[1, 2], "0102").is_ok());
    assert_eq!(
        verify_digest(&[1, 2], "XX").unwrap_err().to_text(),
        "checksum mismatch: expected XX, got 0102"
    );
}

#[test]
fn releases_are_planned_for_the_platform() {
    let plan = plan_release(Some("0.2"), "linux", "x86_64").unwrap();
    assert_eq!(plan.requested_version, "v0.2");
    assert_eq!(plan.archive_name, "codex-pool-x86_64-unknown-linux-gnu.tar.gz");
    assert_eq!(
        plan.archive_url,
        "https://github.com/lilong7676/codex-pool/releases/download/v0.2/codex-pool-x86_64-unknown-linux-gnu.tar.gz"
    );
    assert_eq!(plan.checksum_url, format!("{}.sha256", plan.archive_url));
    let latest = plan_release(None, "macos", "aarch64").unwrap();
    assert_eq!(latest.requested_version, "latest");
    assert_eq!(
        latest.archive_url,
        "https://github.com/lilong7676/codex-pool/releases/latest/download/codex-pool-aarch64-apple-darwin.tar.gz"
    );
    assert_eq!(detect_target("macos", "x86_64").unwrap(), "x86_64-apple-darwin");
    assert_eq!(
        detect_target("windows", "x86_64").unwrap_err().to_text(),
        "unsupported OS: windows"
    );
    assert_eq!(
        detect_target("linux", "riscv").unwrap_err().to_text(),
        "unsupported architecture: riscv"
    );
    assert_eq!(
        detect_target("linux", "aarch64").unwrap_err().to_text(),
        "only x86_64 Linux builds are published right now"
    );
    assert_eq!(
        resolve_archive_url("f", Some("v9")),
        "https://github.com/lilong7676/codex-pool/releases/download/v9/f"
    );
}

#[test]
fn install_places_are_tried_in_order() {
    let place = |configured, found, name, home| {
        choose_install_place(configured, found, name, "codex-pool", home)
    };
    assert_eq!(place(true, true, None, true).unwrap(), InstallPlace::Configured);
    assert_eq!(place(false, true, None, true).unwrap(), InstallPlace::SearchPath);
    assert_eq!(
        place(false, false, Some("codex-pool"), true).unwrap(),
        InstallPlace::CurrentProgram
    );
    assert_eq!(place(false, false, Some("x"), true).unwrap(), InstallPlace::Home);
    assert_eq!(
        place(false, false, None, false).unwrap_err().to_text(),
        "failed to resolve HOME for install path"
    );
    assert_eq!(UpdateError::MissingBinary.to_text(), "release archive did not contain `codex-pool`");
    assert_eq!(after_failed_move(true), MoveFallback::ReplaceAndRetry);
    assert_eq!(after_failed_move(false), MoveFallback::GiveUp);
}

// ---------------------------------------------------------------------------
// The table
// ---------------------------------------------------------------------------
fn listed(label: &str, error: Option<&str>) -> AccountSummary {
    AccountSummary {
        id: "id".to_string(),
        label: label.to_string(),
        email: None,
        account_id: "account-0001".to_string(),
        plan_type: None,
        added_at: 0,
        updated_at: 0,
        usage: Some(UsageSnapshot {
            fetched_at: 0,
            plan_type: None,
            five_hour: Some(UsageWindow {
                used_percent: percent(1.0),
                window_seconds: 18000,
                reset_at: Some(86_400),
            }),
            one_week: None,
            credits: None,
        }),
        usage_error: error.map(|error| error.to_string()),
        is_current: true,
        status: AccountStatus::Healthy,
    }
}

#[test]
fn rows_show_each_account() {
    let accounts = vec![listed("Work", None)];
    assert!(is_showable(&accounts[0]));
    let rows = account_rows(&accounts, None);
    assert_eq!(
        rows[0],
        vec![
            "Work",
            "account-",
            "--",
            "healthy",
            "1.0%",
            "99.0%",
            "1970-01-02T00:00:00Z",
            "--",
            "--",
            "--",
            "yes",
            "1970-01-01T00:00:00Z",
        ]
    );
    assert_eq!(table_header().len(), 12);
    let mut off = listed("x", None);
    off.usage.as_mut().unwrap().fetched_at = 253_402_300_799;
    assert!(!is_showable(&off));
    off.usage.as_mut().unwrap().fetched_at = i64::MAX;
    assert!(is_showable(&off));
    assert_eq!(account_rows(&[off], None)[0][11], "--");
}

#[test]
fn the_table_ends_with_the_errors() {
    let accounts = vec![listed("A", Some("broken")), listed("B", None), listed("C", Some("gone"))];
    let errors = "\n\nerrors:\n- A (account-) -> broken\n- C (account-) -> gone\n";
    assert_eq!(errors_below(&accounts), errors);
    assert_eq!(errors_below(&accounts[1..2]), "");
    let table = render_account_table_within(&accounts, None, Some(3600));
    assert!(table.ends_with(errors));
    assert!(table.starts_with('╭'));
    assert!(table.contains("1970-01-02T01:00:00+01:00"));
    assert!(table.contains("last refreshed"));
    let narrow = render_account_table_within(&accounts, Some(80), None);
    assert!(narrow.lines().take(3).all(|line| line.chars().count() <= 80));
    let mut last = listed("x", None);
    last.usage.as_mut().unwrap().fetched_at = 253_402_300_799;
    assert!(are_showable_at(&[last.clone()], Some(-1)));
    assert!(!are_showable_at(&[last.clone()], Some(1)));
    assert_eq!(render_if_showable_within(&[last.clone()], None, Some(1)), None);
    assert_eq!(
        render_if_showable_within(&[last.clone()], Some(80), Some(-1)),
        Some(render_account_table_within(&[last.clone()], Some(80), Some(-1)))
    );
    assert_eq!(account_rows(&[last], None)[0][11], "9999-12-31T23:59:59Z");
    assert_eq!(
        render_if_showable(&accounts[1..2]),
        Some(render_account_table(&accounts[1..2]))
    );
    let shown = render_account_table(&accounts[1..2]);
    assert!(shown.contains("99.0%"));
    assert!(shown.ends_with('╯'));
}

#[test]
fn percentages_are_shown_as_doubles_are() {
    let mut values = vec![
        0.0, -0.0, 0.04, 0.05, 0.06, 0.25, 0.35, 0.75, 0.95, 1.0, 12.34, 12.35, 12.25, 36.0, 49.95,
        50.0, 63.999, 64.0, 99.949, 99.95, 99.96, 99.99999999999999, 100.0, 100.00000000000001,
        100.05, 127.5, 128.0, 250.75, 1000.05, 4503599627370496.5, 9007199254740991.0, 1e16, 1e17,
        1e18, 1e19, 3.5e20, 1.8e25, 1e34, 2e34, 1e100, 1.7976931348623157e308, 5e-324, 1e-310,
        2.2250738585072014e-308, 1e-20, 1e-14, 7.105427357601002e-15, 1.4210854715202004e-14,
        7.1e-15, 3.55e-15, 0.0078125, 0.00781249999, 9007199254740993e2, 1152921504606846976.0,
        2305843009213693952.0, 4611686018427387904.0, 1.0384593717069655e34, 1.2676506002282294e30,
        f64::NAN, f64::INFINITY,
    ];
    let mut bits: u64 = 0x9e37_79b9_7f4a_7c15;
    for _ in 0..4000 {
        bits = bits.wrapping_mul(6364136223846793005).wrapping_add(1442695040888963407);
        values.push(f64::from_bits(bits));
        values.push((bits >> 40) as f64 / 131072.0);
        values.push(100.0 - (bits >> 52) as f64 * 1e-15);
        values.push(f64::from_bits((bits >> 14) | 0x4000_0000_0000_0000));
    }
    for value in values {
        for used in [value, -value] {
            assert_eq!(format_percent(Some(percent(used))), format!("{used:.1}%"), "{used:e}");
            let remaining = 100.0 - used;
            assert_eq!(
                format_remaining(Some(percent(used))),
                format!("{remaining:.1}%"),
                "{used:e}"
            );
        }
    }
    assert_eq!(format_percent(None), "--");
    assert_eq!(format_remaining(None), "--");
}

// ---------------------------------------------------------------------------
// Files
// ---------------------------------------------------------------------------
#[test]
fn files_lie_under_the_home_directory() {
    let paths = AppPaths::for_home(PathBuf::from("/h"));
    assert_eq!(paths.data_dir, PathBuf::from("/h/.codex-pool"));
    assert_eq!(paths.store_path, PathBuf::from("/h/.codex-pool/accounts.json"));
    assert_eq!(paths.config_path, PathBuf::from("/h/.codex-pool/config.toml"));
    assert_eq!(paths.live_auth_path, PathBuf::from("/h/.codex/auth.json"));
    assert_eq!(paths.codex_config_path, PathBuf::from("/h/.codex/config.toml"));
    assert_eq!(
        paths.legacy_store_candidates(Platform::OtherUnix, Some(PathBuf::from("/x"))),
        vec![
            PathBuf::from("/x/com.carry.codex-tools/accounts.json"),
            PathBuf::from("/h/.local/share/com.carry.codex-tools/accounts.json"),
        ]
    );
    assert_eq!(
        paths.legacy_store_candidates(Platform::MacOs, None),
        vec![PathBuf::from(
            "/h/Library/Application Support/com.carry.codex-tools/accounts.json"
        )]
    );
    assert!(paths.legacy_store_candidates(Platform::Other, None).is_empty());
    let context = AppContext::with_paths(paths, None);
    assert!(context.test_hooks.mock_usage.is_empty());
}

#[test]
fn the_named_store_is_taken_or_the_first_that_exists() {
    let a = PathBuf::from("a");
    let b = PathBuf::from("b");
    assert_eq!(resolve_legacy_store_path(Some((a.clone(), true)), vec![]), Some(a.clone()));
    assert_eq!(
        resolve_legacy_store_path(Some((a.clone(), false)), vec![(b.clone(), true)]),
        None
    );
    assert_eq!(
        resolve_legacy_store_path(None, vec![(a.clone(), false), (b.clone(), true)]),
        Some(b.clone())
    );
    assert_eq!(resolve_legacy_store_path(None, vec![(a.clone(), false)]), None);
    assert_eq!(merged_search_path(a.clone(), vec![b.clone()]), vec![a, b]);
}

#[test]
fn codex_is_looked_for_in_order() {
    let home = PathBuf::from("/h");
    let found = codex_candidates(
        &vec![PathBuf::from("/p1"), PathBuf::from("/p2")],
        Some(&home),
        &vec![PathBuf::from("/s")],
    );
    assert_eq!(found.len(), 10);
    assert_eq!(found[0], PathBuf::from("/p1/codex"));
    assert_eq!(found[2], PathBuf::from("/h/.local/bin/codex"));
    assert_eq!(found[7], PathBuf::from("/h/Library/pnpm/codex"));
    assert_eq!(found[9], PathBuf::from("/s/codex"));
    assert_eq!(codex_candidates(&vec![], None, &vec![]).len(), 0);
    assert_eq!(user_bin_directory(&home), PathBuf::from("/h/.local/bin"));
    assert_eq!(system_directories(Platform::MacOs)[0], "/opt/homebrew/bin");
    assert!(system_directories(Platform::OtherUnix).is_empty());
}

// ---------------------------------------------------------------------------
// Texts
// ---------------------------------------------------------------------------
#[test]
fn texts_are_shortened_by_bytes() {
    assert_eq!(truncate_for_error("short", 5), "short");
    assert_eq!(truncate_for_error("longer", 5), "longe...");
    assert!(text::clean_cut("aé", 1));
    assert!(!text::clean_cut("aé", 2));
    assert_eq!(short_account("éééééééééé"), "éééééééé");
    assert_eq!(short_account("abc"), "abc");
}

#[test]
fn timestamps_are_shown_at_an_offset() {
    assert_eq!(format_timestamp_at(Some(0), None), "1970-01-01T00:00:00Z");
    assert_eq!(format_timestamp_at(Some(0), Some(-3600)), "1969-12-31T23:00:00-01:00");
    assert_eq!(format_timestamp_at(None, None), "--");
    assert_eq!(format_timestamp_at(Some(i64::MAX), None), "--");
    assert_eq!(format_timestamp(None), "--");
    assert_eq!(format_timestamp(Some(86_400 * 365)).len() >= 20, true);
    assert!(is_safely_placed(Some(0)));
    assert!(!is_safely_placed(Some(253_402_300_000)));
    assert!(is_placed_at(Some(253_402_300_000), Some(-60)));
    assert!(!is_placed_at(Some(253_402_300_799), Some(60)));
    assert!(is_placed_at(Some(i64::MAX), Some(60)));
    assert_eq!(reading_to_timestamp(None), 0);
    assert_eq!(reading_to_timestamp(Some(5)), 5);
    assert!(now_unix_seconds() > 1_600_000_000);
}

#[test]
fn text_helpers() {
    assert_eq!(text::lines("a\r\nb\n\nc\r"), vec!["a", "b", "", "c\r"]);
    assert_eq!(text::lines("\n"), vec![""]);
    assert_eq!(text::words("  a \t b\u{3000}c "), vec!["a", "b", "c"]);
    assert_eq!(text::trim("\u{a0} x \n"), "x");
    assert_eq!(text::trim_of("\"\"a\"b\"", CharClass::Only('"')), "a\"b");
    assert_eq!(text::lower("ÀBc"), "Àbc");
    assert!(text::contains("abcabd", "abd"));
    assert!(text::contains("x", ""));
    assert!(!text::contains("ab", "abc"));
    assert_eq!(text::dedupe(vec!["a".to_string(), "b".to_string(), "a".to_string()]), vec!["a", "b"]);
    assert_eq!(text::decimal_of(0), "0");
    assert_eq!(text::decimal_of(u64::MAX), "18446744073709551615");
    assert_eq!(text::signed_decimal_of(i64::MIN), "-9223372036854775808");
    assert!(text::less("a", "ab") && text::less("Z", "a") && !text::less("b", "a"));
}
