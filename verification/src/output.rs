//! The table of accounts.

use crate::models::{AccountSummary, UsageSnapshot, UsageWindow};
use crate::percent::Percent;
use crate::percent_text::{format_percent, format_remaining, hundred_less, percent_cell};
use crate::text::{text_view, texts};
use crate::utils::{
    format_timestamp_at, is_offset, is_placed_at, is_safely_placed, local_offset, offset_or_utc,
    placed_at, safely_placed, short_account, short_form, timestamp_text,
};
use comfy_table::modifiers::UTF8_ROUND_CORNERS;
use comfy_table::presets::UTF8_FULL;
use comfy_table::{ContentArrangement, Table};
use vstd::prelude::*;

verus! {

// ---------------------------------------------------------------------------
// Drawing
// ---------------------------------------------------------------------------
/// The views of some rows.
pub open spec fn rows_view(rows: Seq<Vec<String>>) -> Seq<Seq<Seq<char>>> {
    rows.map_values(|row: Vec<String>| texts(row@))
}

/// A table as the `comfy-table` crate draws it, as wide as its contents.
pub uninterp spec fn drawn_at_ease(
    header: Seq<Seq<char>>,
    rows: Seq<Seq<Seq<char>>>,
) -> Seq<char>;

/// A table as the `comfy-table` crate draws it within a width.
pub uninterp spec fn drawn_within(
    header: Seq<Seq<char>>,
    rows: Seq<Seq<Seq<char>>>,
    width: u16,
) -> Seq<char>;

/// Calls `Table::width` of a new table: the width of the terminal, where there is
/// one. Which it is depends on the machine.
#[verifier::external_body]
fn terminal_width() -> (r: Option<u16>) {
    Table::new().width()
}

/// Draws a table by `Table::to_string`, with round corners and no width set. The
/// characters are left to the name [`drawn_at_ease`].
#[verifier::external_body]
fn draw_at_ease(header: Vec<String>, rows: Vec<Vec<String>>) -> (r: String)
    ensures
        r@ == drawn_at_ease(texts(header@), rows_view(rows@)),
{
    let mut table = Table::new();
    table.load_preset(UTF8_FULL).apply_modifier(UTF8_ROUND_CORNERS);
    table.set_content_arrangement(ContentArrangement::Dynamic).force_no_tty();
    table.set_header(header).add_rows(rows);
    table.to_string()
}

/// Draws a table by `Table::to_string`, with round corners and the width of
/// `Table::set_width`. The characters are left to the name [`drawn_within`].
#[verifier::external_body]
fn draw_within(header: Vec<String>, rows: Vec<Vec<String>>, width: u16) -> (r: String)
    ensures
        r@ == drawn_within(texts(header@), rows_view(rows@), width),
{
    let mut table = Table::new();
    table.load_preset(UTF8_FULL).apply_modifier(UTF8_ROUND_CORNERS);
    table.set_content_arrangement(ContentArrangement::Dynamic).force_no_tty().set_width(width);
    table.set_header(header).add_rows(rows);
    table.to_string()
}

/// A table, within a width where there is one.
pub open spec fn drawn(
    header: Seq<Seq<char>>,
    rows: Seq<Seq<Seq<char>>>,
    width: Option<u16>,
) -> Seq<char> {
    match width {
        Some(width) => drawn_within(header, rows, width),
        None => drawn_at_ease(header, rows),
    }
}

// ---------------------------------------------------------------------------
// Rows
// ---------------------------------------------------------------------------
/// The header of the table.
pub open spec fn header_cells() -> Seq<Seq<char>> {
    seq![
        "label"@,
        "account"@,
        "plan"@,
        "status"@,
        "5h used"@,
        "5h remain"@,
        "5h reset"@,
        "1w used"@,
        "1w remain"@,
        "1w reset"@,
        "current"@,
        "last refreshed"@,
    ]
}

/// The header of the table.
pub fn table_header() -> (r: Vec<String>)
    ensures
        texts(r@) == header_cells(),
{
    let mut header: Vec<String> = Vec::new();
    header.push("label".to_owned());
    header.push("account".to_owned());
    header.push("plan".to_owned());
    header.push("status".to_owned());
    header.push("5h used".to_owned());
    header.push("5h remain".to_owned());
    header.push("5h reset".to_owned());
    header.push("1w used".to_owned());
    header.push("1w remain".to_owned());
    header.push("1w reset".to_owned());
    header.push("current".to_owned());
    header.push("last refreshed".to_owned());
    assert(texts(header@) =~= header_cells());
    header
}

/// When a window begins anew.
pub open spec fn reset_of(window: Option<UsageWindow>) -> Option<i64> {
    match window {
        Some(window) => window.reset_at,
        None => None,
    }
}

/// When the usage of an account was fetched.
pub open spec fn fetch_time(usage: Option<UsageSnapshot>) -> Option<i64> {
    match usage {
        Some(usage) => Some(usage.fetched_at),
        None => None,
    }
}

/// The short window of an account.
pub open spec fn five_hour_window(usage: Option<UsageSnapshot>) -> Option<UsageWindow> {
    match usage {
        Some(usage) => usage.five_hour,
        None => None,
    }
}

/// The long window of an account.
pub open spec fn one_week_window(usage: Option<UsageSnapshot>) -> Option<UsageWindow> {
    match usage {
        Some(usage) => usage.one_week,
        None => None,
    }
}

/// How much of a window is used.
pub open spec fn used_cell(window: Option<UsageWindow>) -> Seq<char> {
    percent_cell(
        match window {
            Some(window) => Some(window.used_percent.number()),
            None => None,
        },
    )
}

/// How much of a window remains.
pub open spec fn remaining_cell(window: Option<UsageWindow>) -> Seq<char> {
    percent_cell(
        match window {
            Some(window) => Some(hundred_less(window.used_percent.number())),
            None => None,
        },
    )
}

/// The row of an account, with its times seen at an offset.
pub open spec fn row_cells(account: AccountSummary, offset: Option<i32>) -> Seq<Seq<char>> {
    let five_hour = five_hour_window(account.usage);
    let one_week = one_week_window(account.usage);
    seq![
        account.label@,
        short_form(account.account_id@),
        match text_view(account.plan_type) {
            Some(plan) => plan,
            None => "--"@,
        },
        account.status.name(),
        used_cell(five_hour),
        remaining_cell(five_hour),
        timestamp_text(reset_of(five_hour), offset),
        used_cell(one_week),
        remaining_cell(one_week),
        timestamp_text(reset_of(one_week), offset),
        if account.is_current {
            "yes"@
        } else {
            "no"@
        },
        timestamp_text(fetch_time(account.usage), offset),
    ]
}

/// Whether all times of an account can be shown.
pub open spec fn can_show(account: AccountSummary) -> bool {
    &&& safely_placed(reset_of(five_hour_window(account.usage)))
    &&& safely_placed(reset_of(one_week_window(account.usage)))
    &&& safely_placed(fetch_time(account.usage))
}

/// Whether all times of an account can be shown at an offset.
pub open spec fn can_show_at(account: AccountSummary, offset: Option<i32>) -> bool {
    &&& placed_at(reset_of(five_hour_window(account.usage)), offset)
    &&& placed_at(reset_of(one_week_window(account.usage)), offset)
    &&& placed_at(fetch_time(account.usage), offset)
}

/// Whether all times of some accounts can be shown at an offset.
pub open spec fn all_show_at(accounts: Seq<AccountSummary>, offset: Option<i32>) -> bool {
    forall|i: int| 0 <= i < accounts.len() ==> can_show_at(#[trigger] accounts[i], offset)
}

/// The windows of an account.
fn windows_of(account: &AccountSummary) -> (r: (Option<UsageWindow>, Option<UsageWindow>))
    ensures
        r.0 == five_hour_window(account.usage),
        r.1 == one_week_window(account.usage),
{
    match &account.usage {
        Some(usage) => (usage.five_hour, usage.one_week),
        None => (None, None),
    }
}

/// When a window begins anew.
fn window_reset(window: Option<UsageWindow>) -> (r: Option<i64>)
    ensures
        r == reset_of(window),
{
    match window {
        Some(window) => window.reset_at,
        None => None,
    }
}

/// When the usage of an account was fetched.
fn fetched_at(account: &AccountSummary) -> (r: Option<i64>)
    ensures
        r == fetch_time(account.usage),
{
    match &account.usage {
        Some(usage) => Some(usage.fetched_at),
        None => None,
    }
}

/// How much of a window is used.
fn used_percent(window: Option<UsageWindow>) -> (r: Option<Percent>)
    ensures
        r == match window {
            Some(window) => Some(window.used_percent),
            None => None,
        },
{
    match window {
        Some(window) => Some(window.used_percent),
        None => None,
    }
}

/// Whether all times of an account can be shown.
pub fn is_showable(account: &AccountSummary) -> (r: bool)
    ensures
        r == can_show(*account),
{
    let (five_hour, one_week) = windows_of(account);
    is_safely_placed(window_reset(five_hour)) && is_safely_placed(window_reset(one_week))
        && is_safely_placed(fetched_at(account))
}

/// Whether all times of some accounts can be shown at an offset.
pub fn are_showable_at(accounts: &[AccountSummary], offset: Option<i32>) -> (r: bool)
    requires
        is_offset(offset_or_utc(offset) as int),
    ensures
        r == all_show_at(accounts@, offset),
{
    let mut i: usize = 0;
    while i < accounts.len()
        invariant
            0 <= i <= accounts@.len(),
            is_offset(offset_or_utc(offset) as int),
            forall|j: int| 0 <= j < i ==> can_show_at(#[trigger] accounts@[j], offset),
        decreases accounts@.len() - i,
    {
        let account = &accounts[i];
        let (five_hour, one_week) = windows_of(account);
        if !is_placed_at(window_reset(five_hour), offset) || !is_placed_at(
            window_reset(one_week),
            offset,
        ) || !is_placed_at(fetched_at(account), offset) {
            assert(!can_show_at(accounts@[i as int], offset));
            return false;
        }
        i = i + 1;
    }
    true
}

/// The row of an account, with its times seen at an offset.
pub fn account_row(account: &AccountSummary, offset: Option<i32>) -> (r: Vec<String>)
    requires
        can_show_at(*account, offset),
        is_offset(offset_or_utc(offset) as int),
    ensures
        texts(r@) == row_cells(*account, offset),
{
    let (five_hour, one_week) = windows_of(account);
    let mut row: Vec<String> = Vec::new();
    row.push(account.label.clone());
    row.push(short_account(account.account_id.as_str()));
    row.push(
        match &account.plan_type {
            Some(plan) => plan.clone(),
            None => "--".to_owned(),
        },
    );
    row.push(account.status.to_text());
    row.push(format_percent(used_percent(five_hour)));
    row.push(format_remaining(used_percent(five_hour)));
    row.push(format_timestamp_at(window_reset(five_hour), offset));
    row.push(format_percent(used_percent(one_week)));
    row.push(format_remaining(used_percent(one_week)));
    row.push(format_timestamp_at(window_reset(one_week), offset));
    row.push(
        if account.is_current {
            "yes".to_owned()
        } else {
            "no".to_owned()
        },
    );
    row.push(format_timestamp_at(fetched_at(account), offset));
    assert(texts(row@) =~= row_cells(*account, offset));
    row
}

/// The rows of some accounts.
pub open spec fn table_rows(
    accounts: Seq<AccountSummary>,
    offset: Option<i32>,
) -> Seq<Seq<Seq<char>>> {
    Seq::new(accounts.len(), |i: int| row_cells(accounts[i], offset))
}

/// The rows of some accounts.
pub fn account_rows(accounts: &[AccountSummary], offset: Option<i32>) -> (r: Vec<Vec<String>>)
    requires
        all_show_at(accounts@, offset),
        is_offset(offset_or_utc(offset) as int),
    ensures
        rows_view(r@) == table_rows(accounts@, offset),
{
    let mut rows: Vec<Vec<String>> = Vec::new();
    let mut i: usize = 0;
    while i < accounts.len()
        invariant
            0 <= i <= accounts@.len(),
            all_show_at(accounts@, offset),
            is_offset(offset_or_utc(offset) as int),
            rows_view(rows@) =~= table_rows(accounts@, offset).take(i as int),
        decreases accounts@.len() - i,
    {
        let ghost before = rows_view(rows@);
        let row = account_row(&accounts[i], offset);
        let ghost shown = texts(row@);
        rows.push(row);
        assert(rows_view(rows@) =~= before.push(shown));
        i = i + 1;
    }
    assert(rows_view(rows@) =~= table_rows(accounts@, offset));
    rows
}

// ---------------------------------------------------------------------------
// Errors
// ---------------------------------------------------------------------------
/// The line of an account's error, where it has one.
pub open spec fn error_line(account: AccountSummary) -> Seq<char> {
    match account.usage_error {
        Some(error) => "- "@ + account.label@ + " ("@ + short_form(account.account_id@) + ") -> "@
            + error@ + "\n"@,
        None => Seq::empty(),
    }
}

/// The lines of the errors of some accounts.
pub open spec fn error_lines(accounts: Seq<AccountSummary>) -> Seq<char>
    decreases accounts.len(),
{
    if accounts.len() == 0 {
        Seq::empty()
    } else {
        error_lines(accounts.drop_last()) + error_line(accounts.last())
    }
}

/// Whether some account has an error.
pub open spec fn any_error(accounts: Seq<AccountSummary>) -> bool {
    exists|i: int| 0 <= i < accounts.len() && (#[trigger] accounts[i]).usage_error is Some
}

/// The list of errors below the table: nothing where there is none.
pub open spec fn error_section(accounts: Seq<AccountSummary>) -> Seq<char> {
    if any_error(accounts) {
        "\n\nerrors:\n"@ + error_lines(accounts)
    } else {
        Seq::empty()
    }
}

/// The list of errors below the table.
pub fn errors_below(accounts: &[AccountSummary]) -> (r: String)
    ensures
        r@ == error_section(accounts@),
{
    let mut lines = String::new();
    let mut found = false;
    let mut i: usize = 0;
    assert(accounts@.take(0) =~= Seq::empty());
    assert(lines@ =~= Seq::empty());
    while i < accounts.len()
        invariant
            0 <= i <= accounts@.len(),
            lines@ == error_lines(accounts@.take(i as int)),
            found == any_error(accounts@.take(i as int)),
        decreases accounts@.len() - i,
    {
        let ghost seen = accounts@.take(i as int);
        let ghost next = accounts@.take(i + 1);
        let account = &accounts[i];
        proof {
            assert(next.drop_last() =~= seen);
            assert(next.last() == accounts@[i as int]);
            assert(next[i as int] == accounts@[i as int]);
            if any_error(seen) {
                let j = choose|j: int|
                    0 <= j < seen.len() && (#[trigger] seen[j]).usage_error is Some;
                assert(next[j] == seen[j]);
            }
            if any_error(next) && account.usage_error is None {
                let j = choose|j: int|
                    0 <= j < next.len() && (#[trigger] next[j]).usage_error is Some;
                assert(seen[j] == next[j]);
            }
        }
        match &account.usage_error {
            Some(error) => {
                let short = short_account(account.account_id.as_str());
                let mut line = "- ".to_owned();
                line.append(account.label.as_str());
                line.append(" (");
                line.append(short.as_str());
                line.append(") -> ");
                line.append(error.as_str());
                line.append("\n");
                assert(line@ == error_line(*account));
                lines.append(line.as_str());
                found = true;
            },
            None => {
                assert(lines@ + Seq::<char>::empty() =~= lines@);
            },
        }
        i = i + 1;
    }
    assert(accounts@.take(i as int) =~= accounts@);
    if found {
        let mut out = "\n\nerrors:\n".to_owned();
        out.append(lines.as_str());
        out
    } else {
        let out = String::new();
        assert(out@ =~= Seq::empty());
        out
    }
}

// ---------------------------------------------------------------------------
// The whole
// ---------------------------------------------------------------------------
/// The table of some accounts and the list of their errors, for a width and an
/// offset.
pub open spec fn rendered(
    accounts: Seq<AccountSummary>,
    width: Option<u16>,
    offset: Option<i32>,
) -> Seq<char> {
    drawn(header_cells(), table_rows(accounts, offset), width) + error_section(accounts)
}

/// The table of some accounts and the list of their errors, within a width where
/// there is one, with the times seen at an offset.
pub fn render_account_table_within(
    accounts: &[AccountSummary],
    width: Option<u16>,
    offset: Option<i32>,
) -> (r: String)
    requires
        all_show_at(accounts@, offset),
        is_offset(offset_or_utc(offset) as int),
    ensures
        r@ == rendered(accounts@, width, offset),
{
    let header = table_header();
    let rows = account_rows(accounts, offset);
    let mut out = match width {
        Some(width) => draw_within(header, rows, width),
        None => draw_at_ease(header, rows),
    };
    let errors = errors_below(accounts);
    out.append(errors.as_str());
    out
}

/// The table of some accounts and the list of their errors, for the terminal and in
/// the time zone of the machine.
pub fn render_account_table(accounts: &[AccountSummary]) -> (r: String)
    requires
        forall|i: int| 0 <= i < accounts@.len() ==> can_show(#[trigger] accounts@[i]),
    ensures
        exists|width: Option<u16>, offset: Option<i32>|
            is_offset(offset_or_utc(offset) as int) && r@ == #[trigger] rendered(
                accounts@,
                width,
                offset,
            ),
{
    let width = terminal_width();
    let offset = local_offset();
    render_account_table_within(accounts, width, offset)
}

/// The table of some accounts and the list of their errors, for a width and an
/// offset, where all their times can be shown.
pub open spec fn shown(
    accounts: Seq<AccountSummary>,
    width: Option<u16>,
    offset: Option<i32>,
) -> Option<Seq<char>> {
    if all_show_at(accounts, offset) {
        Some(rendered(accounts, width, offset))
    } else {
        None
    }
}

/// The table of some accounts and the list of their errors, within a width where
/// there is one, with the times seen at an offset; `None` where that puts a time off
/// the calendar.
pub fn render_if_showable_within(
    accounts: &[AccountSummary],
    width: Option<u16>,
    offset: Option<i32>,
) -> (r: Option<String>)
    requires
        is_offset(offset_or_utc(offset) as int),
    ensures
        text_view(r) == shown(accounts@, width, offset),
{
    if are_showable_at(accounts, offset) {
        Some(render_account_table_within(accounts, width, offset))
    } else {
        None
    }
}

/// The table of some accounts and the list of their errors, for the terminal and in
/// the time zone of the machine; `None` where that puts a time off the calendar.
pub fn render_if_showable(accounts: &[AccountSummary]) -> (r: Option<String>)
    ensures
        exists|width: Option<u16>, offset: Option<i32>|
            is_offset(offset_or_utc(offset) as int) && text_view(r) == #[trigger] shown(
                accounts@,
                width,
                offset,
            ),
{
    let width = terminal_width();
    let offset = local_offset();
    render_if_showable_within(accounts, width, offset)
}

// ---------------------------------------------------------------------------
// Laws
// ---------------------------------------------------------------------------
/// The row of an account shows under each heading what that says of the account: of each window
/// what is used, what remains and when it begins anew, and of the account whether it is the one
/// in use and when its usage was fetched.
pub proof fn law_row_shows_the_account(account: AccountSummary, offset: Option<i32>)
    ensures
        ({
            let row = row_cells(account, offset);
            let head = header_cells();
            &&& row.len() == 12
            &&& head.len() == 12
            &&& head[0] == "label"@ && row[0] == account.label@
            &&& head[1] == "account"@ && row[1] == short_form(account.account_id@)
            &&& head[2] == "plan"@ && (account.plan_type is Some ==> row[2]
                == account.plan_type->0@)
            &&& head[3] == "status"@ && row[3] == account.status.name()
            &&& head[4] == "5h used"@ && head[5] == "5h remain"@ && head[6] == "5h reset"@
            &&& account.usage is Some && account.usage->0.five_hour is Some ==> {
                let window = account.usage->0.five_hour->0;
                &&& row[4] == percent_cell(Some(window.used_percent.number()))
                &&& row[5] == percent_cell(Some(hundred_less(window.used_percent.number())))
                &&& row[6] == timestamp_text(window.reset_at, offset)
            }
            &&& head[7] == "1w used"@ && head[8] == "1w remain"@ && head[9] == "1w reset"@
            &&& account.usage is Some && account.usage->0.one_week is Some ==> {
                let window = account.usage->0.one_week->0;
                &&& row[7] == percent_cell(Some(window.used_percent.number()))
                &&& row[8] == percent_cell(Some(hundred_less(window.used_percent.number())))
                &&& row[9] == timestamp_text(window.reset_at, offset)
            }
            &&& head[10] == "current"@
            &&& account.is_current ==> row[10] == "yes"@
            &&& !account.is_current ==> row[10] == "no"@
            &&& head[11] == "last refreshed"@
            &&& account.usage is Some ==> row[11] == timestamp_text(
                Some(account.usage->0.fetched_at),
                offset,
            )
        }),
{
}

/// What is not known of an account is shown by dashes.
pub proof fn law_dashes_for_what_is_not_known(account: AccountSummary, offset: Option<i32>)
    ensures
        ({
            let row = row_cells(account, offset);
            &&& account.plan_type is None ==> row[2] == "--"@
            &&& account.usage is None || account.usage->0.five_hour is None ==> row[4] == "--"@
                && row[5] == "--"@ && row[6] == "--"@
            &&& account.usage is None || account.usage->0.one_week is None ==> row[7] == "--"@
                && row[8] == "--"@ && row[9] == "--"@
            &&& account.usage is None ==> row[11] == "--"@
        }),
{
}

/// The table has one row for each account, in their order, and below it the errors: nothing
/// where there is none, and else one line for each account that has one, with its label, its
/// identifier and the error.
pub proof fn law_table_shows_every_account(
    accounts: Seq<AccountSummary>,
    more: Seq<AccountSummary>,
    account: AccountSummary,
    offset: Option<i32>,
    i: int,
)
    requires
        0 <= i < accounts.len(),
    ensures
        table_rows(accounts, offset).len() == accounts.len(),
        table_rows(accounts, offset)[i] == row_cells(accounts[i], offset),
        (forall|k: int| 0 <= k < accounts.len() ==> (#[trigger] accounts[k]).usage_error is None)
            ==> error_section(accounts).len() == 0,
        accounts[i].usage_error is Some ==> error_section(accounts) == "\n\nerrors:\n"@
            + error_lines(accounts),
        error_lines(accounts + more) == error_lines(accounts) + error_lines(more),
        account.usage_error is Some ==> error_lines(seq![account]) == "- "@ + account.label@
            + " ("@ + short_form(account.account_id@) + ") -> "@ + account.usage_error->0@ + "\n"@,
        account.usage_error is None ==> error_lines(seq![account]).len() == 0,
{
    if accounts[i].usage_error is Some {
        assert(any_error(accounts));
    }
    lemma_error_lines_of_both(accounts, more);
    reveal_with_fuel(error_lines, 2);
    assert(seq![account].drop_last() =~= Seq::empty());
    let none = Seq::<char>::empty();
    assert(none + error_line(account) =~= error_line(account));
}

/// The lines of the errors of some accounts and some more are the ones and then the others.
proof fn lemma_error_lines_of_both(accounts: Seq<AccountSummary>, more: Seq<AccountSummary>)
    ensures
        error_lines(accounts + more) == error_lines(accounts) + error_lines(more),
    decreases more.len(),
{
    let all = accounts + more;
    if more.len() == 0 {
        assert(all =~= accounts);
        assert(error_lines(accounts) + error_lines(more) =~= error_lines(accounts));
    } else {
        lemma_error_lines_of_both(accounts, more.drop_last());
        assert(all.drop_last() =~= accounts + more.drop_last());
        assert(all.last() == more.last());
        assert(error_lines(all) =~= error_lines(accounts) + error_lines(more));
    }
}

/// What is shown is the table, drawn within the width where there is one, with the errors below.
pub proof fn law_table_is_drawn_with_the_errors_below(
    accounts: Seq<AccountSummary>,
    width: u16,
    offset: Option<i32>,
)
    ensures
        rendered(accounts, Some(width), offset) == drawn_within(
            header_cells(),
            table_rows(accounts, offset),
            width,
        ) + error_section(accounts),
        rendered(accounts, None, offset) == drawn_at_ease(
            header_cells(),
            table_rows(accounts, offset),
        ) + error_section(accounts),
{
}

} // verus!
