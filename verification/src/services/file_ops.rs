//! Patching workspace files: which patches apply, what each file's result reports, the
//! undo record of the last batch and what a revert decides.
//!
//! Reading and writing the files happen at the caller, which hands the current text in
//! and writes the text a step asks for.

use vstd::prelude::*;

use crate::configuration::loading::{hex_encode, hex_lower, sha256_digest, sha256_of};
use crate::configuration::{is_workspace_relative_path, workspace_relative};
use crate::errors::{error_kind_of, error_message_of, error_prefix, is_error, AlfredError, ErrorKind};
use crate::json::{json_text, json_unsigned, object_entries, push_entry, text_value, unsigned_value, JsonValue};
use crate::path_encoding::{normalize_inbound_separators, normalized_separators};
use crate::services::plan_round_trip::{joined_lines, lemma_lines_of_joined, plain_line};
use crate::text::{chars_of, concat2, is_space, join_with, lines_of, str_eq, trim_spec, trim_str};

verus! {

broadcast use vstd::string::group_string_axioms;

/// The largest file, in bytes, that a patch is applied to.
pub const MAX_PATCH_SOURCE_BYTES: u64 = 8 * 1024 * 1024;

// ---------------------------------------------------------------------------
// Text search
// ---------------------------------------------------------------------------

/// `t` occurs in `s` at position `i`.
pub open spec fn occurs_at(s: Seq<char>, t: Seq<char>, i: int) -> bool {
    0 <= i && i + t.len() <= s.len() && s.subrange(i, i + t.len()) == t
}

/// `t` occurs somewhere in `s`.
pub open spec fn contains_text(s: Seq<char>, t: Seq<char>) -> bool {
    exists|i: int| #[trigger] occurs_at(s, t, i)
}

/// The number of non-overlapping occurrences of a non-empty `t` in `s`, found from left
/// to right (`str::matches(..).count()`).
pub open spec fn match_count(s: Seq<char>, t: Seq<char>) -> nat
    decreases s.len(),
{
    if t.len() == 0 || s.len() < t.len() {
        0
    } else if s.subrange(0, t.len() as int) == t {
        1 + match_count(s.subrange(t.len() as int, s.len() as int), t)
    } else {
        match_count(s.subrange(1, s.len() as int), t)
    }
}

/// Whether `t` occurs in `s` at position `i`.
fn occurs_at_exec(s: &[char], t: &[char], i: usize) -> (r: bool)
    requires
        i + t@.len() <= s@.len(),
    ensures
        r == occurs_at(s@, t@, i as int),
{
    let n = s.len();
    let mut k: usize = 0;
    while k < t.len()
        invariant
            n == s@.len(),
            i + t@.len() <= s@.len(),
            k <= t@.len(),
            forall|j: int| 0 <= j < k ==> s@[i + j] == t@[j],
        decreases t@.len() - k,
    {
        if s[i + k] != t[k] {
            assert(s@.subrange(i as int, i + t@.len())[k as int] != t@[k as int]);
            return false;
        }
        k = k + 1;
    }
    assert(s@.subrange(i as int, i + t@.len()) =~= t@);
    true
}

/// Whether `t` occurs in `s`.
pub fn contains_chars(s: &[char], t: &[char]) -> (r: bool)
    ensures
        r == contains_text(s@, t@),
{
    if t.len() > s.len() {
        assert forall|i: int| !occurs_at(s@, t@, i) by {}
        return false;
    }
    let last = s.len() - t.len();
    let mut i: usize = 0;
    while i <= last
        invariant
            last == s@.len() - t@.len(),
            t@.len() <= s@.len(),
            i <= last + 1,
            forall|j: int| 0 <= j < i ==> !#[trigger] occurs_at(s@, t@, j),
        decreases s@.len() - i,
    {
        if occurs_at_exec(s, t, i) {
            return true;
        }
        if i == last {
            assert forall|j: int| !#[trigger] occurs_at(s@, t@, j) by {
                if 0 <= j <= i {
                }
            }
            return false;
        }
        i = i + 1;
    }
    assert forall|j: int| !#[trigger] occurs_at(s@, t@, j) by {
        if 0 <= j < i {
        }
    }
    false
}

/// The number of non-overlapping occurrences of `t` in `s`.
pub fn count_matches(s: &[char], t: &[char]) -> (r: usize)
    requires
        t@.len() > 0,
    ensures
        r == match_count(s@, t@),
{
    let n = s.len();
    let mut i: usize = 0;
    let mut count: usize = 0;
    assert(s@.subrange(0, s@.len() as int) =~= s@);
    while i < n && t.len() <= n - i
        invariant
            n == s@.len(),
            t@.len() > 0,
            i <= s@.len(),
            count <= i,
            count + match_count(s@.subrange(i as int, s@.len() as int), t@) == match_count(s@, t@),
        decreases s@.len() - i,
    {
        let ghost rest = s@.subrange(i as int, s@.len() as int);
        if occurs_at_exec(s, t, i) {
            proof {
                assert(rest.subrange(0, t@.len() as int) =~= s@.subrange(i as int, i + t@.len()));
                assert(rest.subrange(t@.len() as int, rest.len() as int) =~= s@.subrange(
                    i + t@.len(),
                    s@.len() as int,
                ));
            }
            count = count + 1;
            i = i + t.len();
        } else {
            proof {
                assert(rest.subrange(0, t@.len() as int) =~= s@.subrange(i as int, i + t@.len()));
                assert(rest.subrange(1, rest.len() as int) =~= s@.subrange(i + 1, s@.len() as int));
            }
            i = i + 1;
        }
    }
    proof {
        let rest = s@.subrange(i as int, s@.len() as int);
        assert(rest.len() < t@.len());
    }
    count
}

// ---------------------------------------------------------------------------
// Patch text and results
// ---------------------------------------------------------------------------

/// The patch text handed to the parser: the trimmed patch, wrapped in a fenced diff
/// with `--- a/<path>` and `+++ b/<path>` headers unless it has both header markers.
pub open spec fn patch_with_header(path: Seq<char>, patch: Seq<char>) -> Seq<char> {
    let p = trim_spec(patch);
    if contains_text(p, "--- "@) && contains_text(p, "+++ "@) {
        p
    } else {
        "```diff\n--- a/"@ + path + "\n+++ b/"@ + path + "\n"@ + p + "\n```\n"@
    }
}

/// Adds unified diff headers for `path` to a patch that lacks them.
pub fn ensure_patch_includes_header(path: &str, patch: &str) -> (r: String)
    ensures
        r@ == patch_with_header(path@, patch@),
{
    let p = trim_str(patch);
    let chars = chars_of(p.as_str());
    let minus = chars_of("--- ");
    let plus = chars_of("+++ ");
    if contains_chars(chars.as_slice(), minus.as_slice()) && contains_chars(
        chars.as_slice(),
        plus.as_slice(),
    ) {
        return p;
    }
    let mut out = String::from_str("```diff\n--- a/");
    out.append(path);
    out.append("\n+++ b/");
    out.append(path);
    out.append("\n");
    out.append(p.as_str());
    out.append("\n```\n");
    out
}

/// The byte length of a text.
pub open spec fn byte_len(s: Seq<char>) -> nat {
    vstd::utf8::encode_utf8(s).len()
}

/// The warning that a patched file holds its original content twice or more, when the
/// trimmed original is at least 64 bytes long.
pub open spec fn duplicate_risk(
    path: Seq<char>,
    original: Option<Seq<char>>,
    new_content: Seq<char>,
) -> Option<(nat, nat)> {
    match original {
        None => None,
        Some(o) => {
            let t = trim_spec(o);
            if byte_len(t) < 64 || match_count(new_content, t) < 2 {
                None
            } else {
                Some((byte_len(t), match_count(new_content, t)))
            }
        },
    }
}

/// `v` is the warning `{kind: "duplicate_content_risk", path, details: {original_bytes,
/// occurrences}}`.
pub open spec fn duplicate_warning_json(v: JsonValue, path: Seq<char>, bytes: nat, occurrences: nat) -> bool {
    let e = object_entries(v);
    let d = object_entries(e[2].1);
    &&& v is Object && e.len() == 3
    &&& e[0].0@ == "kind"@ && text_value(e[0].1, "duplicate_content_risk"@)
    &&& e[1].0@ == "path"@ && text_value(e[1].1, path)
    &&& e[2].0@ == "details"@ && e[2].1 is Object && d.len() == 2
    &&& d[0].0@ == "original_bytes"@ && unsigned_value(d[0].1, bytes as u64)
    &&& d[1].0@ == "occurrences"@ && unsigned_value(d[1].1, occurrences as u64)
}

/// Warns when the patched content holds the original content at least twice.
pub fn detect_duplicate_content_risk(path: &str, original: Option<&str>, new_content: &str) -> (r:
    Option<JsonValue>)
    ensures
        match duplicate_risk(path@, opt_view(original), new_content@) {
            None => r is None,
            Some((bytes, occurrences)) => r matches Some(v) && duplicate_warning_json(
                v,
                path@,
                bytes,
                occurrences,
            ),
        },
{
    let original = match original {
        Some(o) => o,
        None => return None,
    };
    let trimmed = trim_str(original);
    let bytes = trimmed.as_str().as_bytes().len();
    if bytes < 64 {
        return None;
    }
    let needle = chars_of(trimmed.as_str());
    if needle.len() == 0 {
        assert(vstd::utf8::encode_utf8(trimmed@).len() == 0) by {
            assert(trimmed@ =~= Seq::<char>::empty());
        }
        return None;
    }
    let haystack = chars_of(new_content);
    let occurrences = count_matches(haystack.as_slice(), needle.as_slice());
    if occurrences < 2 {
        return None;
    }
    let mut details: Vec<(String, JsonValue)> = Vec::new();
    push_entry(&mut details, "original_bytes", json_unsigned(bytes as u64));
    push_entry(&mut details, "occurrences", json_unsigned(occurrences as u64));
    let mut entries: Vec<(String, JsonValue)> = Vec::new();
    push_entry(&mut entries, "kind", json_text("duplicate_content_risk"));
    push_entry(&mut entries, "path", json_text(path));
    push_entry(&mut entries, "details", JsonValue::Object(details));
    Some(JsonValue::Object(entries))
}

/// The text of an optional string slice.
pub open spec fn opt_view(s: Option<&str>) -> Option<Seq<char>> {
    match s {
        Some(t) => Some(t@),
        None => None,
    }
}

/// `v` reports a hunk that did not apply: `{hunk_index, reason}`.
pub open spec fn hunk_failure_json(v: JsonValue, index: usize, reason: Seq<char>) -> bool {
    let e = object_entries(v);
    &&& v is Object && e.len() == 2
    &&& e[0].0@ == "hunk_index"@ && unsigned_value(e[0].1, index as u64)
    &&& e[1].0@ == "reason"@ && text_value(e[1].1, reason)
}

/// One report per hunk that did not apply, in order.
pub fn render_hunk_failures(failures: &Vec<(usize, String)>) -> (r: Vec<JsonValue>)
    ensures
        r@.len() == failures@.len(),
        forall|i: int|
            0 <= i < r@.len() ==> #[trigger] hunk_failure_json(r@[i], failures@[i].0, failures@[i].1@),
{
    let mut out: Vec<JsonValue> = Vec::new();
    let mut i: usize = 0;
    while i < failures.len()
        invariant
            i <= failures@.len(),
            out@.len() == i,
            forall|j: int|
                0 <= j < i ==> #[trigger] hunk_failure_json(out@[j], failures@[j].0, failures@[j].1@),
        decreases failures@.len() - i,
    {
        let mut entries: Vec<(String, JsonValue)> = Vec::new();
        push_entry(&mut entries, "hunk_index", json_unsigned(failures[i].0 as u64));
        push_entry(&mut entries, "reason", json_text(failures[i].1.as_str()));
        out.push(JsonValue::Object(entries));
        i = i + 1;
    }
    out
}

/// `v` is the conflict `{kind, message}`.
pub open spec fn conflict_json(v: JsonValue, kind: Seq<char>, message: Seq<char>) -> bool {
    let e = object_entries(v);
    &&& v is Object && e.len() == 2
    &&& e[0].0@ == "kind"@ && text_value(e[0].1, kind)
    &&& e[1].0@ == "message"@ && text_value(e[1].1, message)
}

/// The conflict `{kind, message}`.
pub fn conflict(kind: &str, message: &str) -> (v: JsonValue)
    ensures
        conflict_json(v, kind@, message@),
{
    let mut entries: Vec<(String, JsonValue)> = Vec::new();
    push_entry(&mut entries, "kind", json_text(kind));
    push_entry(&mut entries, "message", json_text(message));
    JsonValue::Object(entries)
}

/// The text an error is shown with.
pub open spec fn error_text(e: AlfredError) -> Seq<char> {
    error_prefix(error_kind_of(e)) + error_message_of(e)@
}

/// The single conflict that reports an error.
pub fn error_conflicts(error: &AlfredError) -> (r: Vec<JsonValue>)
    ensures
        r@.len() == 1,
        conflict_json(r@[0], "error"@, error_text(*error)),
{
    let text = error.to_display_string();
    let mut out: Vec<JsonValue> = Vec::new();
    out.push(conflict("error", text.as_str()));
    out
}

// ---------------------------------------------------------------------------
// Paths
// ---------------------------------------------------------------------------

/// The normalized form of a patched file's path, or the kind and message of the error it
/// is refused with.
pub open spec fn patch_path_outcome(raw_path: Seq<char>) -> Result<Seq<char>, (ErrorKind, Seq<char>)> {
    let t = normalized_separators(trim_spec(raw_path));
    if t.len() == 0 {
        Err((ErrorKind::InvalidArgument, "path must not be empty"@))
    } else if !workspace_relative(t) {
        Err((ErrorKind::WorkspaceBoundaryViolation, "path escapes workspace boundary: "@ + raw_path))
    } else {
        Ok(t)
    }
}

/// Normalizes the path of a file to patch: trimmed, with `/` separators, and
/// workspace-relative.
pub fn normalize_workspace_path(raw_path: &str) -> (r: Result<String, AlfredError>)
    ensures
        match r {
            Ok(p) => patch_path_outcome(raw_path@) == Ok::<Seq<char>, (ErrorKind, Seq<char>)>(p@),
            Err(e) => patch_path_outcome(raw_path@) is Err && is_error(
                e,
                patch_path_outcome(raw_path@)->Err_0.0,
                patch_path_outcome(raw_path@)->Err_0.1,
            ),
        },
{
    let t = trim_str(raw_path);
    let trimmed = normalize_inbound_separators(t.as_str());
    if trimmed.as_str().is_empty() {
        return Err(AlfredError::InvalidArgument("path must not be empty".to_string()));
    }
    if !is_workspace_relative_path(trimmed.as_str()) {
        return Err(
            AlfredError::WorkspaceBoundaryViolation(
                concat2("path escapes workspace boundary: ", raw_path),
            ),
        );
    }
    Ok(trimmed)
}

// ---------------------------------------------------------------------------
// The patch library
// ---------------------------------------------------------------------------

/// What `mpatch::parse_single_patch` gives on a text: the lines of each hunk of the one
/// file patch (each with its ` `, `+` or `-` mark) and whether the patched file ends with
/// a newline; or the message of its error.
pub uninterp spec fn parsed_patch(text: Seq<char>) -> Result<(Seq<Seq<Seq<char>>>, bool), Seq<char>>;

/// The message of the parse error of a patch text, or `None` when it parses.
pub open spec fn patch_parse_error(text: Seq<char>) -> Option<Seq<char>> {
    match parsed_patch(text) {
        Err(m) => Some(m),
        Ok(_) => None,
    }
}

/// The lines a hunk looks for: its context and removed lines, without their marks.
pub open spec fn hunk_match_block(hunk: Seq<Seq<char>>) -> Seq<Seq<char>> {
    hunk.filter(|l: Seq<char>| l[0] != '+').map_values(|l: Seq<char>| l.drop_first())
}

/// The lines an exactly matched hunk puts in their place: its context and added lines,
/// without their marks, an added line of whitespace becoming empty.
pub open spec fn hunk_replace_block(hunk: Seq<Seq<char>>) -> Seq<Seq<char>> {
    hunk.filter(|l: Seq<char>| l[0] != '-').map_values(
        |l: Seq<char>|
            if l[0] == '+' && trim_spec(l.drop_first()).len() == 0 {
                Seq::empty()
            } else {
                l.drop_first()
            },
    )
}

/// A line the patch library cannot take for a wildcard (`...`) line: it holds neither
/// `...` nor `…`, and it is blank or has a character that is neither whitespace nor one of
/// `.`, `…`, `-`, `~`.
pub open spec fn plain_hunk_text(t: Seq<char>) -> bool {
    &&& !t.contains('…')
    &&& !(exists|i: int| 0 <= i && i + 2 < t.len() && #[trigger] t[i] == '.' && t[i + 1] == '.' && t[i + 2] == '.')
    &&& ((forall|i: int| 0 <= i < t.len() ==> is_space(#[trigger] t[i])) || exists|i: int|
        0 <= i < t.len() && !is_space(#[trigger] t[i]) && t[i] != '.' && t[i] != '…' && t[i] != '-'
            && t[i] != '~')
}

/// A hunk the patch library applies by its exact splice when its match block occurs once:
/// every line is marked, no line is a wildcard, it changes something and it has lines to
/// look for.
pub open spec fn plain_hunk(hunk: Seq<Seq<char>>) -> bool {
    &&& forall|i: int|
        0 <= i < hunk.len() ==> (#[trigger] hunk[i]).len() > 0 && (hunk[i][0] == ' ' || hunk[i][0]
            == '+' || hunk[i][0] == '-') && plain_hunk_text(hunk[i].drop_first())
    &&& exists|i: int| 0 <= i < hunk.len() && (#[trigger] hunk[i])[0] != ' '
    &&& hunk_match_block(hunk).len() > 0
}

/// Whether `block` stands in `lines` from line `k` on.
pub open spec fn block_at(lines: Seq<Seq<char>>, block: Seq<Seq<char>>, k: int) -> bool {
    0 <= k && k + block.len() <= lines.len() && lines.subrange(k, k + block.len()) == block
}

/// Whether `block` stands in `lines` at exactly one place.
pub open spec fn block_once(lines: Seq<Seq<char>>, block: Seq<Seq<char>>) -> bool {
    &&& exists|k: int| block_at(lines, block, k)
    &&& forall|j: int, k: int| block_at(lines, block, j) && block_at(lines, block, k) ==> j == k
}

/// Whether the line a hunk leaves at the end of the file ends with a newline: a line it
/// added follows the patch's newline status, a line after removed ones had one, and a line
/// of the file keeps its own.
pub open spec fn hunk_eof_newline(hunk: Seq<Seq<char>>, patch_newline: bool, file_newline: bool) -> bool {
    let kept = hunk.filter(|l: Seq<char>| l[0] != '-');
    if kept.len() > 0 && kept.last()[0] == '+' {
        patch_newline
    } else if hunk.len() > 0 && hunk.last()[0] == '-' {
        true
    } else {
        file_newline
    }
}

/// The lines and the final-newline status after hunks are applied in turn by exact
/// splices; `None` once a hunk is not plain or its match block does not occur exactly once.
pub open spec fn exact_applied(
    hunks: Seq<Seq<Seq<char>>>,
    lines: Seq<Seq<char>>,
    newline: bool,
    patch_newline: bool,
) -> Option<(Seq<Seq<char>>, bool)>
    decreases hunks.len(),
{
    if hunks.len() == 0 {
        Some((lines, newline))
    } else {
        let hunk = hunks[0];
        let block = hunk_match_block(hunk);
        if !plain_hunk(hunk) || !block_once(lines, block) {
            None
        } else {
            let k = choose|k: int| block_at(lines, block, k);
            let put = hunk_replace_block(hunk);
            let next = lines.take(k) + put + lines.skip(k + block.len());
            let newline2 = if k + put.len() >= next.len() {
                hunk_eof_newline(hunk, patch_newline, newline)
            } else {
                newline
            };
            exact_applied(hunks.drop_first(), next, newline2, patch_newline)
        }
    }
}

/// The text a patch gives by exact splices on a file's text (`None`: no file), when every
/// hunk in turn finds its match block exactly once; else `None`.
pub open spec fn exact_patch_content(
    hunks: Seq<Seq<Seq<char>>>,
    patch_newline: bool,
    original: Option<Seq<char>>,
) -> Option<Seq<char>> {
    let lines = match original {
        Some(t) => lines_of(t),
        None => Seq::empty(),
    };
    let newline = match original {
        Some(t) => t.len() > 0 && t.last() == '\n',
        None => true,
    };
    match exact_applied(hunks, lines, newline, patch_newline) {
        Some((ls, e)) => Some(
            join_with(ls, seq!['\n']) + if e && ls.len() > 0 {
                seq!['\n']
            } else {
                Seq::empty()
            },
        ),
        None => None,
    }
}

/// A hunk line with its `+` and `-` marks swapped (`Hunk::invert`).
pub open spec fn inverted_line(l: Seq<char>) -> Seq<char> {
    if l.len() > 0 && l[0] == '+' {
        seq!['-'] + l.drop_first()
    } else if l.len() > 0 && l[0] == '-' {
        seq!['+'] + l.drop_first()
    } else {
        l
    }
}

/// The hunks of the inverse patch (`Patch::invert`).
pub open spec fn inverted_hunks(hunks: Seq<Seq<Seq<char>>>) -> Seq<Seq<Seq<char>>> {
    hunks.map_values(|h: Seq<Seq<char>>| h.map_values(|l: Seq<char>| inverted_line(l)))
}

/// Whether a text may go to the patch library without carriage returns to restore.
pub open spec fn without_cr(t: Option<Seq<char>>) -> bool {
    match t {
        Some(x) => !x.contains('\r'),
        None => true,
    }
}

/// Hunk failures as positions and texts.
pub open spec fn failures_view(f: Seq<(usize, String)>) -> Seq<(usize, Seq<char>)> {
    f.map_values(|x: (usize, String)| (x.0, x.1@))
}

/// `mpatch::parse_single_patch` on `patch_text`, `Patch::file_path` set to `path`, then
/// `mpatch::apply_patch_to_content` with `ApplyOptions::new().with_dry_run(dry_run)`. The
/// parse (`parsed_patch`) decides success; a parse error is returned as its `Display`
/// text. When the text given has no carriage return and every hunk in turn finds its
/// match block exactly once, the library splices each hunk in exactly (its first search)
/// and no hunk fails: the content is `exact_patch_content`. Nothing is claimed otherwise:
/// the library then matches fuzzily and breaks ties between candidate places by the
/// iteration order of a hash map, so the same arguments can give different results.
#[verifier::external_body]
fn apply_patch_text(patch_text: &str, path: &str, original: Option<&str>, dry_run: bool) -> (r: Result<
    (String, Vec<(usize, String)>),
    String,
>)
    ensures
        match parsed_patch(patch_text@) {
            Err(m) => r is Err && r->Err_0@ == m,
            Ok((hunks, patch_newline)) => r is Ok && (without_cr(opt_view(original)) ==> match exact_patch_content(
                hunks,
                patch_newline,
                opt_view(original),
            ) {
                Some(c) => r->Ok_0.0@ == c && r->Ok_0.1@.len() == 0,
                None => true,
            }),
        },
{
    let mut patch = mpatch::parse_single_patch(patch_text).map_err(|e| e.to_string())?;
    patch.file_path = std::path::PathBuf::from(path);
    let applied = mpatch::apply_patch_to_content(&patch, original, &mpatch::ApplyOptions::new().with_dry_run(dry_run));
    let failures = applied.report.failures().iter().map(|f| (f.hunk_index, format!("{:?}", f.reason))).collect();
    Ok((applied.new_content, failures))
}

/// `mpatch::parse_single_patch` on `patch_text`, `Patch::file_path` set to `path`,
/// `Patch::invert` (marks swapped, final newline assumed), then
/// `mpatch::apply_patch_to_content` on `current` with
/// `ApplyOptions::new().with_dry_run(dry_run)`. As for `apply_patch_text`: the parse
/// decides success, and the content is the exact splice of the inverted hunks when the
/// text has no carriage return and each inverted hunk finds its match block exactly once;
/// nothing is claimed otherwise.
#[verifier::external_body]
fn revert_patch_text(patch_text: &str, path: &str, current: &str, dry_run: bool) -> (r: Result<
    (String, Vec<(usize, String)>),
    String,
>)
    ensures
        match parsed_patch(patch_text@) {
            Err(m) => r is Err && r->Err_0@ == m,
            Ok((hunks, patch_newline)) => r is Ok && (!current@.contains('\r') ==> match exact_patch_content(
                inverted_hunks(hunks),
                true,
                Some(current@),
            ) {
                Some(c) => r->Ok_0.0@ == c && r->Ok_0.1@.len() == 0,
                None => true,
            }),
        },
{
    let mut patch = mpatch::parse_single_patch(patch_text).map_err(|e| e.to_string())?;
    patch.file_path = std::path::PathBuf::from(path);
    let applied = mpatch::apply_patch_to_content(&patch.invert(), Some(current), &mpatch::ApplyOptions::new().with_dry_run(dry_run));
    let failures = applied.report.failures().iter().map(|f| (f.hunk_index, format!("{:?}", f.reason))).collect();
    Ok((applied.new_content, failures))
}

/// The lower-case hexadecimal SHA-256 digest of a text's UTF-8 bytes.
pub open spec fn sha_hex(content: Seq<char>) -> Seq<char> {
    hex_lower(sha256_of(vstd::utf8::encode_utf8(content)))
}

/// The lower-case hexadecimal SHA-256 digest of a text's UTF-8 bytes.
pub fn sha256_hex(content: &str) -> (r: String)
    ensures
        r@ == sha_hex(content@),
{
    let digest = sha256_digest(content.as_bytes());
    hex_encode(digest.as_slice())
}

// ---------------------------------------------------------------------------
// Per-file results
// ---------------------------------------------------------------------------

/// A patch to apply to a file.
#[derive(Debug)]
pub struct PatchRequest {
    pub path: String,
    pub patch: String,
}

/// What patching one file gave.
#[derive(Debug)]
pub struct PatchFileResult {
    pub path: String,
    pub patched: bool,
    pub bytes_written: Option<u64>,
    pub conflicts: Option<Vec<JsonValue>>,
    pub warnings: Option<Vec<JsonValue>>,
}

/// What reverting one file gave.
#[derive(Debug)]
pub struct RevertFileResult {
    pub path: String,
    pub reverted: bool,
    pub bytes_written: Option<u64>,
    pub conflicts: Option<Vec<JsonValue>>,
}

/// How to undo the patch of one file: the patch text that was applied (its inverse undoes
/// it), and the digest of the content the patch wrote.
pub struct RevertPatchEntry {
    pub path: String,
    pub patch_text: String,
    pub after_sha256: String,
}

/// How to undo the last batch of patches.
pub struct RevertPatchState {
    pub entries: Vec<RevertPatchEntry>,
}

/// `c` reports each failed hunk of `failures`, in order.
pub open spec fn failures_json(c: Seq<JsonValue>, failures: Seq<(usize, Seq<char>)>) -> bool {
    &&& c.len() == failures.len()
    &&& forall|i: int| 0 <= i < c.len() ==> #[trigger] hunk_failure_json(c[i], failures[i].0, failures[i].1)
}

/// `w` holds the duplicate-content warning that patching `original` into `content` calls
/// for, if any.
pub open spec fn warnings_json(
    w: Option<Vec<JsonValue>>,
    path: Seq<char>,
    original: Option<Seq<char>>,
    content: Seq<char>,
) -> bool {
    match duplicate_risk(path, original, content) {
        None => w is None,
        Some((bytes, occurrences)) => w matches Some(ws) && ws@.len() == 1 && duplicate_warning_json(
            ws@[0],
            path,
            bytes,
            occurrences,
        ),
    }
}

/// `result` and `write` are what patching `path` gives when the patch library turned
/// `original` into `content` with the hunk failures `failures`: a conflict report when a
/// hunk failed; else a patch, with the duplicate-content warning, and (but for a dry run)
/// the content to write and its byte count.
pub open spec fn patched_as(
    path: Seq<char>,
    original: Option<Seq<char>>,
    content: Seq<char>,
    failures: Seq<(usize, Seq<char>)>,
    dry_run: bool,
    result: PatchFileResult,
    write: Option<String>,
) -> bool {
    &&& result.path@ == path
    &&& if failures.len() > 0 {
        &&& !result.patched
        &&& result.bytes_written is None
        &&& result.conflicts matches Some(c) && failures_json(c@, failures)
        &&& result.warnings is None
        &&& write is None
    } else {
        &&& result.patched
        &&& result.conflicts is None
        &&& warnings_json(result.warnings, path, original, content)
        &&& if dry_run {
            result.bytes_written is None && write is None
        } else {
            &&& result.bytes_written == Some(byte_len(content) as u64)
            &&& write matches Some(w) && w@ == content
        }
    }
}

/// What patching `path` gives once the patch library turned `original` into `new_content`
/// with the hunk failures `failures`: see `patched_as`.
pub fn patch_outcome(
    path: String,
    original: Option<&str>,
    new_content: String,
    failures: Vec<(usize, String)>,
    dry_run: bool,
) -> (r: (PatchFileResult, Option<String>))
    ensures
        patched_as(path@, opt_view(original), new_content@, failures_view(failures@), dry_run, r.0, r.1),
{
    if failures.len() > 0 {
        let conflicts = render_hunk_failures(&failures);
        return (
            PatchFileResult {
                path,
                patched: false,
                bytes_written: None,
                conflicts: Some(conflicts),
                warnings: None,
            },
            None,
        );
    }
    let warning = detect_duplicate_content_risk(path.as_str(), original, new_content.as_str());
    let warnings = match warning {
        Some(w) => {
            let mut ws: Vec<JsonValue> = Vec::new();
            ws.push(w);
            Some(ws)
        },
        None => None,
    };
    if dry_run {
        return (
            PatchFileResult { path, patched: true, bytes_written: None, conflicts: None, warnings },
            None,
        );
    }
    let bytes = new_content.as_str().as_bytes().len() as u64;
    (
        PatchFileResult {
            path,
            patched: true,
            bytes_written: Some(bytes),
            conflicts: None,
            warnings,
        },
        Some(new_content),
    )
}

/// One file's patch step: the result, the content to write (if any) and, with it, the
/// record that undoes it.
pub struct PatchStep {
    pub result: PatchFileResult,
    pub write: Option<String>,
    pub undo: Option<RevertPatchEntry>,
}

/// `result` and `write` are what reverting `path` gives when the patch library turned the
/// current content into `content` with the hunk failures `failures`: a conflict report when
/// a hunk failed; else a revert, with (but for a dry run) the content to write and its byte
/// count.
pub open spec fn reverted_as(
    path: Seq<char>,
    content: Seq<char>,
    failures: Seq<(usize, Seq<char>)>,
    dry_run: bool,
    result: RevertFileResult,
    write: Option<String>,
) -> bool {
    &&& result.path@ == path
    &&& if failures.len() > 0 {
        &&& !result.reverted
        &&& result.bytes_written is None
        &&& result.conflicts matches Some(c) && failures_json(c@, failures)
        &&& write is None
    } else {
        &&& result.reverted
        &&& result.conflicts is None
        &&& if dry_run {
            result.bytes_written is None && write is None
        } else {
            &&& result.bytes_written == Some(byte_len(content) as u64)
            &&& write matches Some(w) && w@ == content
        }
    }
}

/// What reverting `path` gives once the patch library turned the current content into
/// `new_content` with the hunk failures `failures`: see `reverted_as`.
pub fn revert_outcome(path: &str, new_content: String, failures: Vec<(usize, String)>, dry_run: bool) -> (r: (
    RevertFileResult,
    Option<String>,
))
    ensures
        reverted_as(path@, new_content@, failures_view(failures@), dry_run, r.0, r.1),
{
    if failures.len() > 0 {
        let conflicts = render_hunk_failures(&failures);
        return (
            RevertFileResult {
                path: path.to_string(),
                reverted: false,
                bytes_written: None,
                conflicts: Some(conflicts),
            },
            None,
        );
    }
    if dry_run {
        return (
            RevertFileResult {
                path: path.to_string(),
                reverted: true,
                bytes_written: None,
                conflicts: None,
            },
            None,
        );
    }
    let bytes = new_content.as_str().as_bytes().len() as u64;
    (
        RevertFileResult {
            path: path.to_string(),
            reverted: true,
            bytes_written: Some(bytes),
            conflicts: None,
        },
        Some(new_content),
    )
}

/// `r` reports a single conflict `{kind, message}` for `path`.
pub open spec fn revert_conflict(r: RevertFileResult, path: Seq<char>, kind: Seq<char>, message: Seq<char>) -> bool {
    &&& r.path@ == path
    &&& !r.reverted
    &&& r.bytes_written is None
    &&& r.conflicts matches Some(c) && c@.len() == 1 && conflict_json(c@[0], kind, message)
}

/// The result for a file whose patch step failed with `error`.
pub fn patch_error_result(path: String, error: &AlfredError) -> (r: PatchFileResult)
    ensures
        r.path@ == path@,
        !r.patched,
        r.bytes_written is None,
        r.warnings is None,
        r.conflicts matches Some(c) && c@.len() == 1 && conflict_json(c@[0], "error"@, error_text(*error)),
{
    PatchFileResult {
        path,
        patched: false,
        bytes_written: None,
        conflicts: Some(error_conflicts(error)),
        warnings: None,
    }
}

/// The result for a file whose revert step failed with `error`.
pub fn revert_error_result(path: &str, error: &AlfredError) -> (r: RevertFileResult)
    ensures
        revert_conflict(r, path@, "error"@, error_text(*error)),
{
    RevertFileResult {
        path: path.to_string(),
        reverted: false,
        bytes_written: None,
        conflicts: Some(error_conflicts(error)),
    }
}

// ---------------------------------------------------------------------------
// The engine
// ---------------------------------------------------------------------------

/// Applies and reverts patches inside one workspace, remembering how to undo the last
/// batch that wrote files.
pub struct FileOperationsEngine {
    workspace_root: String,
    last_patch: Option<RevertPatchState>,
}

impl FileOperationsEngine {
    /// The workspace root.
    pub closed spec fn root_view(&self) -> Seq<char> {
        self.workspace_root@
    }

    /// The undo record of the last batch that wrote files.
    pub closed spec fn last_patch_view(&self) -> Option<Seq<RevertPatchEntry>> {
        match self.last_patch {
            Some(state) => Some(state.entries@),
            None => None,
        }
    }

    /// An engine for a workspace, with nothing to revert.
    pub fn new(workspace_root: String) -> (e: Self)
        ensures
            e.root_view() == workspace_root@,
            e.last_patch_view() is None,
    {
        FileOperationsEngine { workspace_root, last_patch: None }
    }

    /// The workspace root.
    pub fn workspace_root(&self) -> (r: &str)
        ensures
            r@ == self.root_view(),
    {
        self.workspace_root.as_str()
    }

    /// Patches the file at the normalized `path`, whose current text is `original` (`None`
    /// when there is no file): the patch text gets its headers, is parsed (an error names
    /// the file), and is applied; the step says what to write and how to undo it.
    pub fn apply_single_patch(
        &self,
        path: String,
        patch: &str,
        original: Option<String>,
        dry_run: bool,
    ) -> (r: Result<PatchStep, AlfredError>)
        ensures
            match patch_parse_error(patch_with_header(path@, patch@)) {
                Some(m) => r is Err && is_error(
                    r->Err_0,
                    ErrorKind::InvalidArgument,
                    "failed to parse patch for "@ + path@ + ": "@ + m,
                ),
                None => r is Ok && {
                    let step = r->Ok_0;
                    let text = patch_with_header(path@, patch@);
                    &&& match parsed_patch(text) {
                        Ok((hunks, patch_newline)) => match exact_patch_content(
                            hunks,
                            patch_newline,
                            opt_string_view(original),
                        ) {
                            Some(c) => without_cr(opt_string_view(original)) ==> patched_as(
                                path@,
                                opt_string_view(original),
                                c,
                                Seq::empty(),
                                dry_run,
                                step.result,
                                step.write,
                            ),
                            None => true,
                        },
                        Err(_) => true,
                    }
                    &&& exists|content: Seq<char>, failures: Seq<(usize, Seq<char>)>|
                        #[trigger] patched_as(
                            path@,
                            opt_string_view(original),
                            content,
                            failures,
                            dry_run,
                            step.result,
                            step.write,
                        )
                    &&& match step.write {
                        Some(w) => step.undo matches Some(u) && u.path@ == path@ && u.patch_text@
                            == text && u.after_sha256@ == sha_hex(w@),
                        None => step.undo is None,
                    }
                },
            },
    {
        let patch_text = ensure_patch_includes_header(path.as_str(), patch);
        let original_text: Option<&str> = match &original {
            Some(o) => Some(o.as_str()),
            None => None,
        };
        let (new_content, failures) = match apply_patch_text(
            patch_text.as_str(),
            path.as_str(),
            original_text,
            dry_run,
        ) {
            Ok(applied) => applied,
            Err(message) => {
                let mut text = String::from_str("failed to parse patch for ");
                text.append(path.as_str());
                text.append(": ");
                text.append(message.as_str());
                return Err(AlfredError::InvalidArgument(text));
            },
        };
        assert(opt_view(original_text) == opt_string_view(original));
        let ghost content = new_content@;
        let ghost failed = failures_view(failures@);
        let (result, write) = patch_outcome(path.clone(), original_text, new_content, failures, dry_run);
        let undo = match &write {
            Some(w) => Some(
                RevertPatchEntry {
                    path: path.clone(),
                    patch_text,
                    after_sha256: sha256_hex(w.as_str()),
                },
            ),
            None => None,
        };
        let step = PatchStep { result, write, undo };
        proof {
            if failed.len() == 0 {
                assert(failed =~= Seq::<(usize, Seq<char>)>::empty());
            }
        }
        assert(patched_as(path@, opt_string_view(original), content, failed, dry_run, step.result, step.write));
        Ok(step)
    }

    /// Remembers the undo records of a batch that wrote files; a dry run, or a batch that
    /// wrote nothing, leaves the last record in place.
    pub fn finish_apply_patches(&mut self, undo_entries: Vec<RevertPatchEntry>, dry_run: bool)
        ensures
            final(self).root_view() == old(self).root_view(),
            final(self).last_patch_view() == if !dry_run && undo_entries@.len() > 0 {
                Some(undo_entries@)
            } else {
                old(self).last_patch_view()
            },
    {
        if !dry_run && undo_entries.len() > 0 {
            self.last_patch = Some(RevertPatchState { entries: undo_entries });
        }
    }

    /// The undo records of the last batch; an error when there is none.
    pub fn revert_entries(&self) -> (r: Result<&Vec<RevertPatchEntry>, AlfredError>)
        ensures
            match self.last_patch_view() {
                Some(entries) => r is Ok && r->Ok_0@ == entries,
                None => r is Err && is_error(
                    r->Err_0,
                    ErrorKind::InvalidArgument,
                    "no patch available to revert"@,
                ),
            },
    {
        match &self.last_patch {
            Some(state) => Ok(&state.entries),
            None => Err(AlfredError::InvalidArgument("no patch available to revert".to_string())),
        }
    }

    /// Reverts one file of the last batch, whose current text is `current` (`None` when
    /// the file is gone): a missing file or one whose digest differs from the one the patch
    /// wrote is left alone and reported; otherwise the inverse of the recorded patch is
    /// applied (a record whose patch text does not parse is reported as an error). When the
    /// patch went in by exact splices, what the revert gives back: `lemma_exact_revert_restores`.
    pub fn revert_single_entry(
        &self,
        entry: &RevertPatchEntry,
        current: Option<String>,
        dry_run: bool,
    ) -> (r: (RevertFileResult, Option<String>))
        ensures
            match current {
                None => r.1 is None && revert_conflict(
                    r.0,
                    entry.path@,
                    "not_found"@,
                    "file missing while attempting revert"@,
                ),
                Some(c) => if sha_hex(c@) != entry.after_sha256@ {
                    r.1 is None && revert_conflict(
                        r.0,
                        entry.path@,
                        "content_mismatch"@,
                        "file changed since last patch; refusing to revert"@,
                    )
                } else {
                    match patch_parse_error(entry.patch_text@) {
                        Some(m) => r.1 is None && revert_conflict(r.0, entry.path@, "error"@, m),
                        None => {
                            &&& exists|content: Seq<char>, failures: Seq<(usize, Seq<char>)>|
                                #[trigger] reverted_as(entry.path@, content, failures, dry_run, r.0, r.1)
                            &&& match parsed_patch(entry.patch_text@) {
                                Ok((hunks, patch_newline)) => match exact_patch_content(
                                    inverted_hunks(hunks),
                                    true,
                                    Some(c@),
                                ) {
                                    Some(x) => !c@.contains('\r') ==> reverted_as(
                                        entry.path@,
                                        x,
                                        Seq::empty(),
                                        dry_run,
                                        r.0,
                                        r.1,
                                    ),
                                    None => true,
                                },
                                Err(_) => true,
                            }
                        },
                    }
                },
            },
    {
        let current = match current {
            Some(c) => c,
            None => {
                let mut conflicts: Vec<JsonValue> = Vec::new();
                conflicts.push(conflict("not_found", "file missing while attempting revert"));
                return (
                    RevertFileResult {
                        path: entry.path.clone(),
                        reverted: false,
                        bytes_written: None,
                        conflicts: Some(conflicts),
                    },
                    None,
                );
            },
        };
        let current_hash = sha256_hex(current.as_str());
        if !str_eq(current_hash.as_str(), entry.after_sha256.as_str()) {
            let mut conflicts: Vec<JsonValue> = Vec::new();
            conflicts.push(
                conflict("content_mismatch", "file changed since last patch; refusing to revert"),
            );
            return (
                RevertFileResult {
                    path: entry.path.clone(),
                    reverted: false,
                    bytes_written: None,
                    conflicts: Some(conflicts),
                },
                None,
            );
        }
        match revert_patch_text(
            entry.patch_text.as_str(),
            entry.path.as_str(),
            current.as_str(),
            dry_run,
        ) {
            Ok((new_content, failures)) => {
                let ghost content = new_content@;
                let ghost failed = failures_view(failures@);
                let r = revert_outcome(entry.path.as_str(), new_content, failures, dry_run);
                proof {
                    if failed.len() == 0 {
                        assert(failed =~= Seq::<(usize, Seq<char>)>::empty());
                    }
                }
                assert(reverted_as(entry.path@, content, failed, dry_run, r.0, r.1));
                r
            },
            Err(message) => {
                let mut conflicts: Vec<JsonValue> = Vec::new();
                conflicts.push(conflict("error", message.as_str()));
                (
                    RevertFileResult {
                        path: entry.path.clone(),
                        reverted: false,
                        bytes_written: None,
                        conflicts: Some(conflicts),
                    },
                    None,
                )
            },
        }
    }

    /// Forgets the last batch once it was reverted; a dry run keeps it.
    pub fn finish_revert(&mut self, dry_run: bool)
        ensures
            final(self).root_view() == old(self).root_view(),
            final(self).last_patch_view() == if dry_run {
                old(self).last_patch_view()
            } else {
                None
            },
    {
        if !dry_run {
            self.last_patch = None;
        }
    }
}

/// The text of an optional string.
pub open spec fn opt_string_view(s: Option<String>) -> Option<Seq<char>> {
    match s {
        Some(t) => Some(t@),
        None => None,
    }
}

// ---------------------------------------------------------------------------
// Reverting an exactly applied patch
// ---------------------------------------------------------------------------

/// Lines joined by newlines, then a final newline, are the lines each followed by one.
proof fn lemma_join_then_newline(ls: Seq<Seq<char>>)
    requires
        ls.len() > 0,
    ensures
        join_with(ls, seq!['\n']) + seq!['\n'] == joined_lines(ls),
    decreases ls.len(),
{
    if ls.len() == 1 {
        assert(ls.drop_last() =~= Seq::<Seq<char>>::empty());
        assert(joined_lines(ls.drop_last()) =~= Seq::<char>::empty());
        assert(joined_lines(ls) =~= ls[0] + seq!['\n']);
    } else {
        lemma_join_then_newline(ls.drop_last());
        assert(join_with(ls, seq!['\n']) + seq!['\n'] =~= (join_with(ls.drop_last(), seq!['\n'])
            + seq!['\n']) + ls.last() + seq!['\n']);
    }
}

/// A marked hunk line: a mark, and for a changed line a body that is not blank.
pub open spec fn marked_line(l: Seq<char>) -> bool {
    &&& l.len() > 0
    &&& (l[0] == ' ' || l[0] == '+' || l[0] == '-')
    &&& l[0] != ' ' ==> trim_spec(l.drop_first()).len() > 0
}

/// Inverting a hunk whose changed lines are not blank swaps what it looks for and what it
/// puts in place.
proof fn lemma_inverted_blocks(h: Seq<Seq<char>>)
    requires
        forall|i: int| 0 <= i < h.len() ==> marked_line(#[trigger] h[i]),
    ensures
        hunk_match_block(h.map_values(|l: Seq<char>| inverted_line(l))) == hunk_replace_block(h),
        hunk_replace_block(h.map_values(|l: Seq<char>| inverted_line(l))) == hunk_match_block(h),
    decreases h.len(),
{
    reveal(Seq::filter);
    let inv = h.map_values(|l: Seq<char>| inverted_line(l));
    if h.len() == 0 {
        assert(hunk_match_block(inv) =~= Seq::<Seq<char>>::empty());
        assert(hunk_replace_block(h) =~= Seq::<Seq<char>>::empty());
        assert(hunk_replace_block(inv) =~= Seq::<Seq<char>>::empty());
        assert(hunk_match_block(h) =~= Seq::<Seq<char>>::empty());
    } else {
        let init = h.drop_last();
        assert forall|i: int| 0 <= i < init.len() implies marked_line(#[trigger] init[i]) by {
            assert(init[i] == h[i]);
        }
        lemma_inverted_blocks(init);
        let x = h.last();
        assert(marked_line(h[h.len() - 1]));
        let ix = inverted_line(x);
        assert(inv.drop_last() =~= init.map_values(|l: Seq<char>| inverted_line(l)));
        assert(inv.last() == ix);
        assert(ix.len() > 0 && ix.drop_first() =~= x.drop_first());
        let pm = |l: Seq<char>| l[0] != '+';
        let pr = |l: Seq<char>| l[0] != '-';
        assert(h.filter(pm) == if pm(x) { init.filter(pm).push(x) } else { init.filter(pm) });
        assert(h.filter(pr) == if pr(x) { init.filter(pr).push(x) } else { init.filter(pr) });
        assert(inv.filter(pm) == if pm(ix) { inv.drop_last().filter(pm).push(ix) } else {
            inv.drop_last().filter(pm)
        });
        assert(inv.filter(pr) == if pr(ix) { inv.drop_last().filter(pr).push(ix) } else {
            inv.drop_last().filter(pr)
        });
        let body = |l: Seq<char>| l.drop_first();
        let norm = |l: Seq<char>|
            if l[0] == '+' && trim_spec(l.drop_first()).len() == 0 {
                Seq::<char>::empty()
            } else {
                l.drop_first()
            };
        assert forall|a: Seq<Seq<char>>, y: Seq<char>| #[trigger] a.push(y).map_values(body) =~= a.map_values(
            body,
        ).push(body(y)) by {}
        assert forall|a: Seq<Seq<char>>, y: Seq<char>| #[trigger] a.push(y).map_values(norm) =~= a.map_values(
            norm,
        ).push(norm(y)) by {}
        assert(hunk_match_block(inv) =~= hunk_replace_block(h));
        assert(hunk_replace_block(inv) =~= hunk_match_block(h));
    }
}

/// Reverting undoes an exact patch: a text whose lines end with newlines and hold no
/// carriage return, patched by a one-hunk patch that ends with a newline and whose changed
/// lines are not blank, where both the patch and its inverse apply by exact splices (each
/// finds its lines exactly once), gets its text back from the revert.
pub proof fn lemma_exact_revert_restores(lines: Seq<Seq<char>>, hunk: Seq<Seq<char>>)
    requires
        lines.len() > 0,
        forall|i: int| 0 <= i < lines.len() ==> plain_line(#[trigger] lines[i]),
        forall|i: int| 0 <= i < hunk.len() ==> marked_line(#[trigger] hunk[i]) && plain_line(hunk[i]),
        exact_patch_content(seq![hunk], true, Some(joined_lines(lines))) is Some,
        exact_patch_content(
            inverted_hunks(seq![hunk]),
            true,
            Some(exact_patch_content(seq![hunk], true, Some(joined_lines(lines)))->0),
        ) is Some,
    ensures
        exact_patch_content(
            inverted_hunks(seq![hunk]),
            true,
            Some(exact_patch_content(seq![hunk], true, Some(joined_lines(lines)))->0),
        )->0 == joined_lines(lines),
{
    let original = joined_lines(lines);
    lemma_lines_of_joined(lines);
    assert(original.len() > 0 && original.last() == '\n');
    let block = hunk_match_block(hunk);
    let put = hunk_replace_block(hunk);
    assert(exact_applied(seq![hunk], lines, true, true) is Some);
    assert(seq![hunk][0] == hunk && seq![hunk].drop_first() =~= Seq::<Seq<Seq<char>>>::empty());
    let k = choose|k: int| block_at(lines, block, k);
    let next = lines.take(k) + put + lines.skip(k + block.len());
    assert(hunk_eof_newline(hunk, true, true));
    assert(exact_applied(seq![hunk].drop_first(), next, true, true) == Some((next, true)));
    assert(exact_applied(seq![hunk], lines, true, true) == Some((next, true)));
    let inv = hunk.map_values(|l: Seq<char>| inverted_line(l));
    assert(inverted_hunks(seq![hunk]) =~= seq![inv]);
    lemma_inverted_blocks(hunk);
    assert(hunk_match_block(inv) == put && hunk_replace_block(inv) == block);
    if next.len() == 0 {
        let c = join_with(next, seq!['\n']);
        assert(c =~= Seq::<char>::empty());
        assert(lines_of(c) =~= Seq::<Seq<char>>::empty());
        assert(exact_applied(seq![inv], lines_of(c), false, true) is None);
        assert(false);
    }
    lemma_join_then_newline(next);
    let c = joined_lines(next);
    assert(exact_patch_content(seq![hunk], true, Some(original)) == Some(c));
    assert forall|i: int| 0 <= i < next.len() implies plain_line(#[trigger] next[i]) by {
        if i < k {
            assert(next[i] == lines[i]);
        } else if i < k + put.len() {
            reveal(Seq::filter);
            let kept = hunk.filter(|l: Seq<char>| l[0] != '-');
            assert(put[i - k] == (if kept[i - k][0] == '+' && trim_spec(kept[i - k].drop_first()).len() == 0 {
                Seq::<char>::empty()
            } else {
                kept[i - k].drop_first()
            }));
            hunk.lemma_filter_contains_rev(|l: Seq<char>| l[0] != '-', kept[i - k]);
            assert(kept.contains(kept[i - k]));
            assert(hunk.contains(kept[i - k])) by {
                hunk.filter_lemma(|l: Seq<char>| l[0] != '-');
            }
            let j = choose|j: int| 0 <= j < hunk.len() && hunk[j] == kept[i - k];
            assert(plain_line(hunk[j]));
            let t = hunk[j];
            if t.drop_first().contains('\n') {
                let q = choose|q: int| 0 <= q < t.drop_first().len() && t.drop_first()[q] == '\n';
                assert(t[q + 1] == '\n');
            }
        } else {
            assert(next[i] == lines[i - put.len() + block.len()]);
        }
    }
    lemma_lines_of_joined(next);
    assert(lines_of(c) == next);
    assert(c.len() > 0 && c.last() == '\n');
    assert(block_at(next, put, k)) by {
        assert(next.subrange(k, k + put.len()) =~= put);
    }
    let k2 = choose|k: int| block_at(next, put, k);
    assert(k2 == k);
    assert(lines.subrange(k, k + block.len()) == block);
    assert(next.take(k) + block + next.skip(k + put.len()) =~= lines);
    assert(seq![inv][0] == inv && seq![inv].drop_first() =~= Seq::<Seq<Seq<char>>>::empty());
    assert(hunk_eof_newline(inv, true, true));
    assert(exact_applied(seq![inv].drop_first(), lines, true, true) == Some((lines, true)));
    assert(exact_applied(seq![inv], next, true, true) == Some((lines, true)));
    lemma_join_then_newline(lines);
}

} // verus!
