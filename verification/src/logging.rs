//! The runtime log: the names of its files and archives, which archives have expired,
//! and the JSON record of each log line.
//!
//! Creating, archiving and deleting the files, the clock and the global logger live at
//! the caller.

use vstd::prelude::*;

use crate::json::{json_text, object_entries, push_entry, text_value, JsonValue};
use crate::redaction::{byte_offset, char_utf8_len, lemma_byte_offset_step, utf8_width};
use crate::text::{chars_of, concat2, decimal_chars, decimal_string, ends_with, ends_with_spec, push_decimal, slice_chars, starts_with, starts_with_spec, string_of};

verus! {

broadcast use vstd::string::group_string_axioms;

/// Whether a file in the log directory is a runtime log: `runtime.ndjson`, or
/// `alfred-*.ndjson`.
pub open spec fn runtime_ndjson_name(name: Seq<char>) -> bool {
    name == "runtime.ndjson"@ || (starts_with_spec(name, "alfred-"@) && ends_with_spec(name, ".ndjson"@))
}

/// Whether a file in the log directory is a runtime log.
pub fn is_runtime_ndjson_file(file_name: &str) -> (r: bool)
    ensures
        r == runtime_ndjson_name(file_name@),
{
    let name = chars_of(file_name);
    let exact = chars_of("runtime.ndjson");
    if name.len() == exact.len() && starts_with(name.as_slice(), exact.as_slice()) {
        assert(name@.subrange(0, exact@.len() as int) =~= name@);
        return true;
    }
    proof {
        if name@ == "runtime.ndjson"@ {
            assert(name@.subrange(0, exact@.len() as int) =~= exact@);
        }
    }
    let prefix = chars_of("alfred-");
    let suffix = chars_of(".ndjson");
    starts_with(name.as_slice(), prefix.as_slice()) && ends_with(name.as_slice(), suffix.as_slice())
}

/// The name of a new runtime log file: `alfred-<timestamp>.ndjson`, then
/// `alfred-<timestamp>-<n>.ndjson` for the `n`th retry.
pub open spec fn runtime_log_file_name_spec(timestamp: Seq<char>, counter: u32) -> Seq<char> {
    "alfred-"@ + timestamp + if counter == 0 {
        Seq::empty()
    } else {
        "-"@ + decimal_chars(counter as nat)
    } + ".ndjson"@
}

/// The name of a new runtime log file.
pub fn runtime_log_file_name(timestamp: &str, counter: u32) -> (r: String)
    ensures
        r@ == runtime_log_file_name_spec(timestamp@, counter),
{
    let mut out = concat2("alfred-", timestamp);
    if counter != 0 {
        out.append("-");
        push_decimal(&mut out, counter as u64);
    }
    out.append(".ndjson");
    proof {
        if counter == 0 {
            assert(out@ =~= runtime_log_file_name_spec(timestamp@, counter));
        } else {
            assert(out@ =~= runtime_log_file_name_spec(timestamp@, counter));
        }
    }
    out
}

/// The name of the archive of a rotated log: `<name>.zip`, then `<name>.<n>.zip` for the
/// `n`th retry.
pub open spec fn archive_file_name_spec(source_name: Seq<char>, counter: u32) -> Seq<char> {
    if counter == 0 {
        source_name + ".zip"@
    } else {
        source_name + "."@ + decimal_chars(counter as nat) + ".zip"@
    }
}

/// The name of the archive of a rotated log.
pub fn archive_file_name(source_name: &str, counter: u32) -> (r: String)
    ensures
        r@ == archive_file_name_spec(source_name@, counter),
{
    if counter == 0 {
        return concat2(source_name, ".zip");
    }
    let mut out = concat2(source_name, ".");
    push_decimal(&mut out, counter as u64);
    out.append(".zip");
    out
}

/// The name of the file that probes whether a directory is writable:
/// `.alfred-writable-<pid>-<n>.tmp`.
pub open spec fn writable_probe_name_spec(pid: u32, counter: u32) -> Seq<char> {
    ".alfred-writable-"@ + decimal_chars(pid as nat) + "-"@ + decimal_chars(counter as nat) + ".tmp"@
}

/// The name of the file that probes whether a directory is writable.
pub fn writable_probe_name(pid: u32, counter: u32) -> (r: String)
    ensures
        r@ == writable_probe_name_spec(pid, counter),
{
    let mut out = String::from_str(".alfred-writable-");
    push_decimal(&mut out, pid as u64);
    out.append("-");
    push_decimal(&mut out, counter as u64);
    out.append(".tmp");
    out
}

// ---------------------------------------------------------------------------
// Archive dates
// ---------------------------------------------------------------------------

/// The calendar date `chrono::NaiveDate::parse_from_str` reads from a text with the format
/// `%Y%m%d`, as (year, month, day).
pub uninterp spec fn calendar_date(token: Seq<char>) -> Option<(int, int, int)>;

/// `chrono::NaiveDate::parse_from_str(token, "%Y%m%d")`: the date as (year, month, day),
/// or `None` when the text is no such date. The outcome is a function of the text, named
/// by `calendar_date`; a parsed date has a month from 1 to 12 and a day from 1 to 31.
#[verifier::external_body]
fn parse_date_yyyymmdd(token: &str) -> (r: Option<(i32, u32, u32)>)
    ensures
        match r {
            Some((y, m, d)) => calendar_date(token@) == Some((y as int, m as int, d as int)) && 1
                <= m <= 12 && 1 <= d <= 31,
            None => calendar_date(token@) is None,
        },
{
    match chrono::NaiveDate::parse_from_str(token, "%Y%m%d") {
        Ok(date) => Some((
            chrono::Datelike::year(&date),
            chrono::Datelike::month(&date),
            chrono::Datelike::day(&date),
        )),
        Err(_) => None,
    }
}

/// The date `days` days before a date, as chrono's calendar counts.
pub uninterp spec fn date_minus_days(date: (int, int, int), days: nat) -> Option<(int, int, int)>;

/// `chrono::NaiveDate::checked_sub_days(Days::new(days))` on the date (year, month, day):
/// `None` when that is no valid date or the result is out of chrono's range. The outcome
/// is a function of the arguments, named by `date_minus_days`.
#[verifier::external_body]
fn checked_sub_days(date: (i32, u32, u32), days: u64) -> (r: Option<(i32, u32, u32)>)
    ensures
        match r {
            Some((y, m, d)) => date_minus_days((date.0 as int, date.1 as int, date.2 as int), days as nat)
                == Some((y as int, m as int, d as int)),
            None => date_minus_days((date.0 as int, date.1 as int, date.2 as int), days as nat) is None,
        },
{
    let start = match chrono::NaiveDate::from_ymd_opt(date.0, date.1, date.2) {
        Some(d) => d,
        None => return None,
    };
    match start.checked_sub_days(chrono::Days::new(days)) {
        Some(d) => Some((chrono::Datelike::year(&d), chrono::Datelike::month(&d), chrono::Datelike::day(&d))),
        None => None,
    }
}

/// The oldest archive date kept: `retention_days` days back (at least one) counting today,
/// or today when that date cannot be computed.
pub open spec fn oldest_kept_spec(today: (i32, u32, u32), retention_days: u64) -> (i32, u32, u32) {
    let keep: int = if retention_days < 1 {
        1
    } else {
        retention_days as int
    };
    match date_minus_days((today.0 as int, today.1 as int, today.2 as int), (keep - 1) as nat) {
        Some((y, m, d)) => (y as i32, m as u32, d as u32),
        None => today,
    }
}

/// The oldest archive date kept.
pub fn oldest_kept_date(today: (i32, u32, u32), retention_days: u64) -> (r: (i32, u32, u32))
    ensures
        r == oldest_kept_spec(today, retention_days),
{
    let keep_days = if retention_days < 1 {
        1
    } else {
        retention_days
    };
    match checked_sub_days(today, keep_days - 1) {
        Some(d) => d,
        None => today,
    }
}

/// The part of a text before byte `n`, when `n` is a character boundary within it
/// (`str::get(0..n)`).
pub open spec fn byte_prefix(s: Seq<char>, n: int) -> Option<Seq<char>> {
    if exists|k: int| 0 <= k <= s.len() && byte_offset(s, k) == n {
        Some(s.take(choose|k: int| 0 <= k <= s.len() && byte_offset(s, k) == n))
    } else {
        None
    }
}

/// The date token of an archive name: the first 8 bytes after `runtime-` or `alfred-`,
/// for names ending in `.ndjson.zip`.
pub open spec fn archive_date_token(name: Seq<char>) -> Option<Seq<char>> {
    let runtime = starts_with_spec(name, "runtime-"@);
    let alfred = starts_with_spec(name, "alfred-"@);
    if !(runtime || alfred) || !ends_with_spec(name, ".ndjson.zip"@) {
        None
    } else {
        let rest = if runtime {
            name.subrange(8, name.len() as int)
        } else {
            name.subrange(7, name.len() as int)
        };
        byte_prefix(rest, 8)
    }
}

/// The date in an archive name, if it holds one.
pub open spec fn archive_date_spec(name: Seq<char>) -> Option<(int, int, int)> {
    match archive_date_token(name) {
        Some(t) => calendar_date(t),
        None => None,
    }
}

/// The first 8 bytes of a text, when they end at a character boundary.
fn first_eight_bytes(s: &[char]) -> (r: Option<Vec<char>>)
    ensures
        match r {
            Some(t) => byte_prefix(s@, 8) == Some(t@),
            None => byte_prefix(s@, 8) is None,
        },
{
    let mut k: usize = 0;
    let mut bytes: usize = 0;
    assert(s@.take(0) =~= Seq::<char>::empty());
    while k < s.len() && bytes < 8
        invariant
            k <= s@.len(),
            bytes == byte_offset(s@, k as int),
            bytes < 8 + 4,
            forall|j: int| 0 <= j < k ==> byte_offset(s@, j) < 8,
        decreases s@.len() - k,
    {
        proof {
            lemma_byte_offset_step(s@, k as int);
        }
        bytes = bytes + char_utf8_len(s[k]);
        k = k + 1;
    }
    proof {
        assert forall|j: int| 0 <= j <= s@.len() && byte_offset(s@, j) == 8 implies j == k by {
            if j < k {
            } else if j > k {
                crate::redaction::lemma_byte_offset_monotone(s@, k as int, j);
            }
        }
    }
    if bytes == 8 {
        let t = slice_chars(s, 0, k);
        proof {
            assert(byte_offset(s@, k as int) == 8);
            let c = choose|j: int| 0 <= j <= s@.len() && byte_offset(s@, j) == 8;
            assert(c == k);
            assert(t@ =~= s@.take(k as int));
        }
        Some(t)
    } else {
        None
    }
}

/// The date in an archive name (`runtime-YYYYMMDD...ndjson.zip` or
/// `alfred-YYYYMMDD...ndjson.zip`), if it holds one.
pub fn parse_archive_date(file_name: &str) -> (r: Option<(i32, u32, u32)>)
    ensures
        match r {
            Some((y, m, d)) => archive_date_spec(file_name@) == Some((y as int, m as int, d as int)),
            None => archive_date_spec(file_name@) is None,
        },
{
    let name = chars_of(file_name);
    let runtime_prefix = chars_of("runtime-");
    let alfred_prefix = chars_of("alfred-");
    let zip_suffix = chars_of(".ndjson.zip");
    let runtime = starts_with(name.as_slice(), runtime_prefix.as_slice());
    let alfred = starts_with(name.as_slice(), alfred_prefix.as_slice());
    if !(runtime || alfred) || !ends_with(name.as_slice(), zip_suffix.as_slice()) {
        return None;
    }
    proof {
        reveal_strlit("runtime-");
        reveal_strlit("alfred-");
    }
    let rest = if runtime {
        slice_chars(name.as_slice(), 8, name.len())
    } else {
        slice_chars(name.as_slice(), 7, name.len())
    };
    let token = match first_eight_bytes(rest.as_slice()) {
        Some(t) => t,
        None => return None,
    };
    let token = string_of(token.as_slice());
    parse_date_yyyymmdd(token.as_str())
}

/// Whether a date comes before another, as (year, month, day) in lexicographic order
/// (the order of valid calendar dates).
pub open spec fn date_lt(a: (int, int, int), b: (int, int, int)) -> bool {
    a.0 < b.0 || (a.0 == b.0 && (a.1 < b.1 || (a.1 == b.1 && a.2 < b.2)))
}

/// A calendar date as (year, month, day) with a month from 1 to 12 and a day from 1 to 31.
pub open spec fn calendar_shaped(d: (int, int, int)) -> bool {
    1 <= d.1 <= 12 && 1 <= d.2 <= 31
}

/// A number for each calendar-shaped date that grows with time: later years, then later
/// months, then later days give larger numbers.
pub open spec fn day_number(d: (int, int, int)) -> int {
    d.0 * 416 + d.1 * 32 + d.2
}

/// `date_lt` is chronological order: on calendar-shaped dates, one comes before another
/// exactly when its day number is smaller (so the year decides first, then the month,
/// then the day; 2026-03-05 is not before 2026-02-10).
pub proof fn lemma_date_lt_is_chronological(a: (int, int, int), b: (int, int, int))
    requires
        calendar_shaped(a),
        calendar_shaped(b),
    ensures
        date_lt(a, b) <==> day_number(a) < day_number(b),
{
    assert(date_lt(a, b) <==> day_number(a) < day_number(b)) by (nonlinear_arith)
        requires
            1 <= a.1 <= 12,
            1 <= a.2 <= 31,
            1 <= b.1 <= 12,
            1 <= b.2 <= 31,
    ;
}

/// Whether a file in the log directory is an archive older than the oldest date kept.
pub fn archive_expired(file_name: &str, oldest_keep: (i32, u32, u32)) -> (r: bool)
    ensures
        r == match archive_date_spec(file_name@) {
            Some(d) => date_lt(d, (oldest_keep.0 as int, oldest_keep.1 as int, oldest_keep.2 as int)),
            None => false,
        },
        archive_date_spec(file_name@) is None ==> !r,
        match archive_date_spec(file_name@) {
            Some(d) => calendar_shaped(d) && calendar_shaped(
                (oldest_keep.0 as int, oldest_keep.1 as int, oldest_keep.2 as int),
            ) ==> (r <==> day_number(d) < day_number(
                (oldest_keep.0 as int, oldest_keep.1 as int, oldest_keep.2 as int),
            )),
            None => true,
        },
{
    proof {
        match archive_date_spec(file_name@) {
            Some(d) => {
                let k = (oldest_keep.0 as int, oldest_keep.1 as int, oldest_keep.2 as int);
                if calendar_shaped(d) && calendar_shaped(k) {
                    lemma_date_lt_is_chronological(d, k);
                }
            },
            None => {},
        }
    }
    match parse_archive_date(file_name) {
        Some((y, m, d)) => y < oldest_keep.0 || (y == oldest_keep.0 && (m < oldest_keep.1 || (m
            == oldest_keep.1 && d < oldest_keep.2))),
        None => false,
    }
}

// ---------------------------------------------------------------------------
// Log records
// ---------------------------------------------------------------------------

/// `v` is the log record `{timestamp, level, message, source, extra: {}}`.
pub open spec fn log_record_json(
    v: JsonValue,
    timestamp: Seq<char>,
    level: Seq<char>,
    message: Seq<char>,
    source: Seq<char>,
) -> bool {
    let e = object_entries(v);
    &&& v is Object && e.len() == 5
    &&& e[0].0@ == "timestamp"@ && text_value(e[0].1, timestamp)
    &&& e[1].0@ == "level"@ && text_value(e[1].1, level)
    &&& e[2].0@ == "message"@ && text_value(e[2].1, message)
    &&& e[3].0@ == "source"@ && text_value(e[3].1, source)
    &&& e[4].0@ == "extra"@ && e[4].1 is Object && object_entries(e[4].1).len() == 0
}

/// The JSON record of one log line.
pub fn render_log_record(timestamp: &str, level: &str, message: &str, source: &str) -> (v: JsonValue)
    ensures
        log_record_json(v, timestamp@, level@, message@, source@),
{
    let mut entries: Vec<(String, JsonValue)> = Vec::new();
    push_entry(&mut entries, "timestamp", json_text(timestamp));
    push_entry(&mut entries, "level", json_text(level));
    push_entry(&mut entries, "message", json_text(message));
    push_entry(&mut entries, "source", json_text(source));
    push_entry(&mut entries, "extra", JsonValue::Object(Vec::new()));
    JsonValue::Object(entries)
}

} // verus!
