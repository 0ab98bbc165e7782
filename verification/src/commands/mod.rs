//! The commands: which account they mean, what they do to the pool, and what they
//! say.

use crate::models::{CurrentAuthStatus, ImportStats, StoredAccount};
use crate::text;
use crate::text::{decimal, str_view, text_view, texts};
use crate::utils::{short_account, short_form};
use vstd::prelude::*;

pub mod login;
pub mod refresh;
pub mod selection;

verus! {

// ---------------------------------------------------------------------------
// What a command says
// ---------------------------------------------------------------------------
/// An account by its label and the beginning of its identifier.
pub open spec fn account_phrase(account: StoredAccount) -> Seq<char> {
    account.label@ + " ("@ + short_form(account.account_id@) + ")"@
}

/// An account by its label and the beginning of its identifier, between two texts.
fn phrase(before: &str, account: &StoredAccount, after: &str) -> (r: String)
    ensures
        r@ == before@ + account_phrase(*account) + after@,
{
    let short = short_account(account.account_id.as_str());
    let mut named = account.label.clone();
    named.append(" (");
    named.append(short.as_str());
    named.append(")");
    let mut out = before.to_owned();
    out.append(named.as_str());
    out.append(after);
    out
}

/// What is said of an account that was added.
pub fn added_message(account: &StoredAccount) -> (r: String)
    ensures
        r@ == "added account "@ + account_phrase(*account),
{
    proof {
        reveal_strlit("");
        assert("added account "@ + account_phrase(*account) + ""@ =~= "added account "@
            + account_phrase(*account));
    }
    phrase("added account ", account, "")
}

/// What is said of an account that is now in use.
pub fn switched_message(account: &StoredAccount) -> (r: String)
    ensures
        r@ == "switched live auth to "@ + account_phrase(*account),
{
    proof {
        reveal_strlit("");
        assert("switched live auth to "@ + account_phrase(*account) + ""@
            =~= "switched live auth to "@ + account_phrase(*account));
    }
    phrase("switched live auth to ", account, "")
}

/// What is said of an account that was removed.
pub fn removed_message(account: &StoredAccount) -> (r: String)
    ensures
        r@ == "removed "@ + account_phrase(*account) + " from codex-pool store"@,
{
    phrase("removed ", account, " from codex-pool store")
}

/// What is said of an account that signed in again.
pub fn reauthorized_message(account: &StoredAccount) -> (r: String)
    ensures
        r@ == "reauthorized "@ + account_phrase(*account),
{
    proof {
        reveal_strlit("");
        assert("reauthorized "@ + account_phrase(*account) + ""@ =~= "reauthorized "@
            + account_phrase(*account));
    }
    phrase("reauthorized ", account, "")
}

/// What is said of an import.
pub fn import_message(stats: &ImportStats) -> (r: String)
    ensures
        r@ == "imported "@ + decimal(stats.imported as nat) + " accounts, updated "@ + decimal(
            stats.updated as nat,
        ) + " accounts"@,
{
    let imported = text::decimal_of(stats.imported as u64);
    let updated = text::decimal_of(stats.updated as u64);
    let mut out = "imported ".to_owned();
    out.append(imported.as_str());
    out.append(" accounts, updated ");
    out.append(updated.as_str());
    out.append(" accounts");
    out
}

/// The question whether the accounts of an earlier tool are imported.
pub fn legacy_prompt(path: &str) -> (r: String)
    ensures
        r@ == "Import accounts from legacy Codex Tools store at "@ + path@ + "?"@,
{
    let mut out = "Import accounts from legacy Codex Tools store at ".to_owned();
    out.append(path);
    out.append("?");
    out
}

/// What is said at the end of the first set-up.
pub fn closing_lines() -> (r: Vec<String>)
    ensures
        texts(r@) == seq![
            "\nNext commands:"@,
            "  codex-pool list"@,
            "  codex-pool run --best"@,
            "  codex-pool reauth <account-ref>"@,
        ],
{
    let mut lines: Vec<String> = Vec::new();
    lines.push("\nNext commands:".to_owned());
    lines.push("  codex-pool list".to_owned());
    lines.push("  codex-pool run --best".to_owned());
    lines.push("  codex-pool reauth <account-ref>".to_owned());
    assert(texts(lines@) =~= seq![
        "\nNext commands:"@,
        "  codex-pool list"@,
        "  codex-pool run --best"@,
        "  codex-pool reauth <account-ref>"@,
    ]);
    lines
}

// ---------------------------------------------------------------------------
// The first set-up
// ---------------------------------------------------------------------------
/// Whether the first set-up has brought an account.
#[derive(Debug, Clone, Copy)]
pub struct InitProgress {
    pub changed: bool,
}

impl InitProgress {
    /// The set-up at its start.
    pub fn new() -> (r: InitProgress)
        ensures
            !r.changed,
    {
        InitProgress { changed: false }
    }

    /// Takes in that an account was imported or added.
    pub fn on_account(&mut self)
        ensures
            final(self).changed,
    {
        self.changed = true;
    }

    /// Takes in what an import brought.
    pub fn on_import(&mut self, stats: &ImportStats)
        ensures
            final(self).changed == (old(self).changed || stats.imported + stats.updated > 0),
    {
        if stats.imported > 0 || stats.updated > 0 {
            self.changed = true;
        }
    }

    /// Whether adding an account is what is offered first.
    pub fn offers_account(&self) -> (r: bool)
        ensures
            r == !self.changed,
    {
        !self.changed
    }
}

// ---------------------------------------------------------------------------
// Arguments
// ---------------------------------------------------------------------------
/// Which account a refresh is of: none in particular where all are asked for.
pub fn refresh_target<'a>(account_ref: Option<&'a str>, all: bool) -> (r: Option<&'a str>)
    ensures
        str_view(r) == if all {
            None
        } else {
            str_view(account_ref)
        },
{
    if all {
        None
    } else {
        account_ref
    }
}

/// The seconds between two looks of `watch`.
pub fn watch_interval(interval: Option<u64>, configured: u64) -> (r: u64)
    ensures
        r == match interval {
            Some(interval) => interval,
            None => configured,
        },
{
    match interval {
        Some(interval) => interval,
        None => configured,
    }
}

// ---------------------------------------------------------------------------
// The state of the tool
// ---------------------------------------------------------------------------
/// A text, or another where there is none.
pub open spec fn text_or(value: Option<Seq<char>>, otherwise: Seq<char>) -> Seq<char> {
    match value {
        Some(value) => value,
        None => otherwise,
    }
}

/// What is said of the document in use.
pub open spec fn live_auth_text(status: CurrentAuthStatus) -> Seq<char> {
    if status.available {
        text_or(text_view(status.account_id), "available"@)
    } else {
        "missing"@
    }
}

/// The state of the tool: where `codex` and the files are, how many accounts there
/// are, and whose document is in use.
pub open spec fn report_lines(
    codex_cli: Option<Seq<char>>,
    data_dir: Seq<char>,
    store_path: Seq<char>,
    account_count: nat,
    live: CurrentAuthStatus,
    legacy_store: Option<Seq<char>>,
) -> Seq<Seq<char>> {
    seq![
        "codex_cli="@ + text_or(codex_cli, "missing"@),
        "data_dir="@ + data_dir,
        "store_path="@ + store_path,
        "account_count="@ + decimal(account_count),
        "live_auth="@ + live_auth_text(live),
        "legacy_store="@ + text_or(legacy_store, "not found"@),
    ]
}

/// The state of the tool.
pub fn doctor_lines(
    codex_cli: Option<&str>,
    data_dir: &str,
    store_path: &str,
    account_count: usize,
    live: &CurrentAuthStatus,
    legacy_store: Option<&str>,
) -> (r: Vec<String>)
    ensures
        texts(r@) == report_lines(
            str_view(codex_cli),
            data_dir@,
            store_path@,
            account_count as nat,
            *live,
            str_view(legacy_store),
        ),
{
    let count = text::decimal_of(account_count as u64);
    let live_text = if live.available {
        match &live.account_id {
            Some(account_id) => account_id.as_str(),
            None => "available",
        }
    } else {
        "missing"
    };
    let mut lines: Vec<String> = Vec::new();
    lines.push(
        text::glued(
            "codex_cli=",
            match codex_cli {
                Some(path) => path,
                None => "missing",
            },
        ),
    );
    lines.push(text::glued("data_dir=", data_dir));
    lines.push(text::glued("store_path=", store_path));
    lines.push(text::glued("account_count=", count.as_str()));
    lines.push(text::glued("live_auth=", live_text));
    lines.push(
        text::glued(
            "legacy_store=",
            match legacy_store {
                Some(path) => path,
                None => "not found",
            },
        ),
    );
    assert(texts(lines@) =~= report_lines(
        str_view(codex_cli),
        data_dir@,
        store_path@,
        account_count as nat,
        *live,
        str_view(legacy_store),
    ));
    lines
}

// ---------------------------------------------------------------------------
// Laws
// ---------------------------------------------------------------------------
/// An account is spoken of by its label and, in brackets, by the beginning of its identifier.
pub proof fn law_how_an_account_is_spoken_of(account: StoredAccount)
    ensures
        account.account_id@.len() <= 8 ==> account_phrase(account) == account.label@ + " ("@
            + account.account_id@ + ")"@,
        account.account_id@.len() > 8 ==> account_phrase(account) == account.label@ + " ("@
            + account.account_id@.subrange(0, 8) + ")"@,
{
    if account.account_id@.len() > 8 {
        assert(account.account_id@.take(8) =~= account.account_id@.subrange(0, 8));
    }
}

/// The state of the tool is told part by part: what is missing is said to be.
pub proof fn law_state_is_told(
    codex_cli: Option<Seq<char>>,
    data_dir: Seq<char>,
    store_path: Seq<char>,
    account_count: nat,
    live: CurrentAuthStatus,
    legacy_store: Option<Seq<char>>,
)
    ensures
        ({
            let lines = report_lines(
                codex_cli,
                data_dir,
                store_path,
                account_count,
                live,
                legacy_store,
            );
            &&& lines.len() == 6
            &&& codex_cli is Some ==> lines[0] == "codex_cli="@ + codex_cli->0
            &&& codex_cli is None ==> lines[0] == "codex_cli="@ + "missing"@
            &&& lines[1] == "data_dir="@ + data_dir
            &&& lines[2] == "store_path="@ + store_path
            &&& lines[3] == "account_count="@ + decimal(account_count)
            &&& live.available && live.account_id is Some ==> lines[4] == "live_auth="@
                + live.account_id->0@
            &&& live.available && live.account_id is None ==> lines[4] == "live_auth="@
                + "available"@
            &&& !live.available ==> lines[4] == "live_auth="@ + "missing"@
            &&& legacy_store is Some ==> lines[5] == "legacy_store="@ + legacy_store->0
            &&& legacy_store is None ==> lines[5] == "legacy_store="@ + "not found"@
        }),
{
}

} // verus!
