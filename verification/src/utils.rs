//! The clock, fresh identifiers, and texts for people.

use crate::text;
use crate::text::{byte_length, byte_prefix, cuts_cleanly, text_view};
use std::time::{SystemTime, UNIX_EPOCH};
use time::format_description::well_known::Rfc3339;
use time::{OffsetDateTime, UtcOffset};
use uuid::Uuid;
use vstd::prelude::*;
use vstd::utf8::{encode_utf8, encode_utf8_decode_utf8};

verus! {

// ---------------------------------------------------------------------------
// The clock
// ---------------------------------------------------------------------------
/// Reads `SystemTime::now` as whole seconds since the Unix epoch; `None` where
/// the clock stands before it. What the clock says is not known.
#[verifier::external_body]
fn clock_seconds() -> (r: Option<u64>) {
    SystemTime::now().duration_since(UNIX_EPOCH).ok().map(|elapsed| elapsed.as_secs())
}

/// A reading of the clock as a timestamp.
pub open spec fn timestamp_of(reading: Option<u64>) -> i64 {
    match reading {
        Some(seconds) => seconds as i64,
        None => 0,
    }
}

/// A reading of the clock as a timestamp: zero before the epoch.
pub fn reading_to_timestamp(reading: Option<u64>) -> (r: i64)
    ensures
        r == timestamp_of(reading),
{
    match reading {
        Some(seconds) => seconds as i64,
        None => 0,
    }
}

/// The seconds since the Unix epoch.
pub fn now_unix_seconds() -> (r: i64)
    ensures
        exists|reading: Option<u64>| r == #[trigger] timestamp_of(reading),
{
    let reading = clock_seconds();
    reading_to_timestamp(reading)
}

// ---------------------------------------------------------------------------
// Identifiers
// ---------------------------------------------------------------------------
/// Whether a character is a lower-case hexadecimal digit.
pub open spec fn is_hex_digit(c: char) -> bool {
    '0' <= c <= '9' || 'a' <= c <= 'f'
}

/// Whether a character is the variant digit of a random identifier.
pub open spec fn is_variant_digit(c: char) -> bool {
    c == '8' || c == '9' || c == 'a' || c == 'b'
}

/// Whether a text is a random (version 4) identifier in groups.
pub open spec fn is_grouped_id(id: Seq<char>) -> bool {
    &&& id.len() == 36
    &&& forall|i: int|
        0 <= i < 36 ==> if i == 8 || i == 13 || i == 18 || i == 23 {
            #[trigger] id[i] == '-'
        } else {
            is_hex_digit(id[i])
        }
    &&& id[14] == '4'
    &&& is_variant_digit(id[19])
}

/// Whether a text is a random (version 4) identifier in one piece.
pub open spec fn is_plain_id(id: Seq<char>) -> bool {
    &&& id.len() == 32
    &&& forall|i: int| 0 <= i < 32 ==> is_hex_digit(#[trigger] id[i])
    &&& id[12] == '4'
    &&& is_variant_digit(id[16])
}

/// Calls `Uuid::new_v4` and writes the result in groups. Which identifier comes
/// is chance; its form is not.
#[verifier::external_body]
pub(crate) fn grouped_id() -> (r: String)
    ensures
        is_grouped_id(r@),
{
    Uuid::new_v4().to_string()
}

/// Calls `Uuid::new_v4` and writes the result in one piece, by `Uuid::simple`.
/// Which identifier comes is chance; its form is not.
#[verifier::external_body]
pub(crate) fn plain_id() -> (r: String)
    ensures
        is_plain_id(r@),
{
    Uuid::new_v4().simple().to_string()
}

// ---------------------------------------------------------------------------
// Texts
// ---------------------------------------------------------------------------
/// The beginning of an account identifier.
pub open spec fn short_form(account_id: Seq<char>) -> Seq<char> {
    if account_id.len() <= 8 {
        account_id
    } else {
        account_id.take(8)
    }
}

/// The beginning of an account identifier: at most eight characters.
pub fn short_account(account_id: &str) -> (r: String)
    ensures
        r@ == short_form(account_id@),
{
    let chars = text::chars_of(account_id);
    let n: usize = if chars.len() <= 8 {
        chars.len()
    } else {
        8
    };
    assert(chars@.subrange(0, n as int) =~= short_form(account_id@));
    text::substring(&chars, 0, n)
}

/// A text of at most `max_len` bytes, or its first `max_len` bytes and an
/// ellipsis.
pub open spec fn truncated(value: Seq<char>, max_len: int) -> Seq<char> {
    if byte_length(value) <= max_len {
        value
    } else {
        byte_prefix(value, max_len) + "..."@
    }
}

/// Shortens a text to `max_len` bytes, unless a character lies across that
/// limit.
pub fn truncate_for_error(value: &str, max_len: usize) -> (r: String)
    requires
        cuts_cleanly(value@, max_len as int),
    ensures
        r@ == truncated(value@, max_len as int),
{
    if text::byte_len(value) <= max_len {
        value.to_owned()
    } else {
        let (front, _back) = value.split_at(max_len);
        proof {
            encode_utf8_decode_utf8(front@);
            assert(encode_utf8(front@) =~= encode_utf8(value@).subrange(0, max_len as int));
        }
        let mut out = front.to_owned();
        out.append("...");
        out
    }
}

// ---------------------------------------------------------------------------
// Timestamps
// ---------------------------------------------------------------------------
/// The first second of the year -9999 and the last of the year 9999, since the
/// epoch.
pub open spec fn on_calendar(timestamp: int) -> bool {
    -377_705_116_800 <= timestamp <= 253_402_300_799
}

/// Whether a number of seconds is an offset from UTC: less than 26 hours.
pub open spec fn is_offset(seconds: int) -> bool {
    -93_599 <= seconds <= 93_599
}

/// The text that the `time` crate gives a timestamp in RFC 3339, seen at an
/// offset from UTC; `None` where it has none.
pub uninterp spec fn rfc3339_text(timestamp: i64, offset: i32) -> Option<Seq<char>>;

/// Calls `UtcOffset::current_local_offset`: the offset of the machine's time
/// zone, in seconds. Which it is depends on the machine; `UtcOffset` holds less
/// than 26 hours either way.
#[verifier::external_body]
pub(crate) fn local_offset() -> (r: Option<i32>)
    ensures
        is_offset(offset_or_utc(r) as int),
{
    UtcOffset::current_local_offset().ok().map(|offset| offset.whole_seconds())
}

/// Calls `OffsetDateTime::format` with `Rfc3339`, on the time that
/// `from_unix_timestamp` makes of `timestamp`, moved to `offset` by `to_offset`.
/// A timestamp off the calendar has no text; one that the offset moves off the
/// calendar is left out, for there `to_offset` panics. The characters are left to
/// the name [`rfc3339_text`].
#[verifier::external_body]
fn rfc3339(timestamp: i64, offset: i32) -> (r: Option<String>)
    requires
        is_offset(offset as int),
        on_calendar(timestamp as int) ==> on_calendar(timestamp + offset),
    ensures
        text_view(r) == rfc3339_text(timestamp, offset),
        !on_calendar(timestamp as int) ==> r is None,
{
    let offset = UtcOffset::from_whole_seconds(offset).ok()?;
    let time = OffsetDateTime::from_unix_timestamp(timestamp).ok()?;
    time.to_offset(offset).format(&Rfc3339).ok()
}

/// The offset that is used where the machine's is not known.
pub open spec fn offset_or_utc(offset: Option<i32>) -> i32 {
    match offset {
        Some(offset) => offset,
        None => 0,
    }
}

/// A timestamp for people, given what its text is: dashes where there is none.
pub open spec fn timestamp_cell(formatted: Option<Seq<char>>) -> Seq<char> {
    match formatted {
        Some(formatted) => formatted,
        None => "--"@,
    }
}

/// A timestamp for people, seen at an offset.
pub open spec fn timestamp_text(value: Option<i64>, offset: Option<i32>) -> Seq<char> {
    match value {
        Some(value) => timestamp_cell(rfc3339_text(value, offset_or_utc(offset))),
        None => "--"@,
    }
}

/// Whether a timestamp stays on the calendar at every offset, or is off it.
pub open spec fn safely_placed(value: Option<i64>) -> bool {
    value is Some && on_calendar(value->0 as int) ==> on_calendar(value->0 - 93_599)
        && on_calendar(value->0 + 93_599)
}

/// Whether a timestamp stays on the calendar at every offset, or is off it.
pub fn is_safely_placed(value: Option<i64>) -> (r: bool)
    ensures
        r == safely_placed(value),
{
    match value {
        Some(value) => if -377_705_116_800 <= value && value <= 253_402_300_799 {
            -377_705_116_800 <= value - 93_599 && value + 93_599 <= 253_402_300_799
        } else {
            true
        },
        None => true,
    }
}

/// Whether a timestamp stays on the calendar at an offset, or is off it.
pub open spec fn placed_at(value: Option<i64>, offset: Option<i32>) -> bool {
    value is Some && on_calendar(value->0 as int) ==> on_calendar(
        value->0 + offset_or_utc(offset),
    )
}

/// Whether a timestamp stays on the calendar at an offset, or is off it.
pub fn is_placed_at(value: Option<i64>, offset: Option<i32>) -> (r: bool)
    requires
        is_offset(offset_or_utc(offset) as int),
    ensures
        r == placed_at(value, offset),
{
    let shift: i64 = match offset {
        Some(shift) => shift as i64,
        None => 0,
    };
    match value {
        Some(value) => if -377_705_116_800 <= value && value <= 253_402_300_799 {
            -377_705_116_800 <= value + shift && value + shift <= 253_402_300_799
        } else {
            true
        },
        None => true,
    }
}

/// Puts dashes where a timestamp has no text.
pub fn timestamp_or_dashes(formatted: Option<String>) -> (r: String)
    ensures
        r@ == timestamp_cell(text_view(formatted)),
{
    match formatted {
        Some(formatted) => formatted,
        None => "--".to_owned(),
    }
}

/// A timestamp for people, seen at an offset: dashes where there is none.
pub fn format_timestamp_at(value: Option<i64>, offset: Option<i32>) -> (r: String)
    requires
        placed_at(value, offset),
        is_offset(offset_or_utc(offset) as int),
    ensures
        r@ == timestamp_text(value, offset),
{
    let shift: i32 = match offset {
        Some(shift) => shift,
        None => 0,
    };
    match value {
        Some(value) => timestamp_or_dashes(rfc3339(value, shift)),
        None => "--".to_owned(),
    }
}

/// A timestamp for people, in the machine's time zone.
pub fn format_timestamp(value: Option<i64>) -> (r: String)
    requires
        safely_placed(value),
    ensures
        exists|offset: Option<i32>|
            is_offset(offset_or_utc(offset) as int) && r@ == #[trigger] timestamp_text(
                value,
                offset,
            ),
{
    let offset = local_offset();
    format_timestamp_at(value, offset)
}

// ---------------------------------------------------------------------------
// Laws
// ---------------------------------------------------------------------------
/// An account is shown by the first eight characters of its identifier, or by all of them where
/// there are no more.
pub proof fn law_short_form_is_the_beginning(account_id: Seq<char>, rest: Seq<char>)
    ensures
        account_id.len() <= 8 ==> short_form(account_id) == account_id,
        account_id.len() == 8 ==> short_form(account_id + rest) == account_id,
        short_form(account_id).len() <= 8,
{
    if account_id.len() == 8 {
        let whole = account_id + rest;
        assert(whole.take(8) =~= account_id);
        if rest.len() == 0 {
            assert(whole =~= account_id);
        }
    }
}

/// A text that fits is shown as it is, and any other by its beginning and three dots.
pub proof fn law_long_texts_are_cut(value: Seq<char>, max_len: int)
    ensures
        byte_length(value) <= max_len ==> truncated(value, max_len) == value,
        byte_length(value) > max_len ==> truncated(value, max_len) == byte_prefix(value, max_len)
            + seq!['.', '.', '.'],
{
    reveal_strlit("...");
    assert("..."@ =~= seq!['.', '.', '.']);
}

/// A time is shown as the `time` crate writes it at the offset, or in UTC where that is not
/// known; without a time, and for one without a text, dashes are shown.
pub proof fn law_shown_time(value: i64, offset: i32)
    ensures
        rfc3339_text(value, offset) is Some ==> timestamp_text(Some(value), Some(offset))
            == rfc3339_text(value, offset)->0,
        rfc3339_text(value, 0) is Some ==> timestamp_text(Some(value), None) == rfc3339_text(
            value,
            0,
        )->0,
        rfc3339_text(value, offset) is None ==> timestamp_text(Some(value), Some(offset)) == seq![
            '-',
            '-',
        ],
        timestamp_text(None, Some(offset)) == seq!['-', '-'],
{
    reveal_strlit("--");
    assert("--"@ =~= seq!['-', '-']);
}

/// A reading of the clock is its seconds, and zero before the epoch.
pub proof fn law_reading_is_its_seconds(seconds: u64)
    ensures
        seconds <= i64::MAX ==> timestamp_of(Some(seconds)) == seconds,
        timestamp_of(None) == 0,
{
}

} // verus!
