//! Deterministic redaction of non-public information in log messages and tool output.

use vstd::prelude::*;
use vstd::utf8::{encode_scalar, encode_utf8};

use crate::json::{
    entries_count, items_count, json_count, json_mapped, lemma_entries_mapped, lemma_items_mapped,
    JsonValue,
};
use crate::path_encoding::{lemma_encode_one, lemma_encode_utf8_concat};
use crate::text::{chars_of, join_with, push_char, str_eq, string_of, trim_chars, trim_spec};

verus! {

/// Default replacement token for redacted content.
pub const DEFAULT_REPLACEMENT_TOKEN: &'static str = "<-REDACTED->";

/// A configurable redaction rule, evaluated in order.
pub enum RedactionRule {
    /// Redact the value portion of key/value-like text. `keys` entries are regex fragments
    /// combined into one case-insensitive alternation.
    StructuredKeys { keys: Vec<String> },
    /// Redact any free-text matches of the configured regex.
    Regex { pattern: String, case_sensitive: bool },
    /// Built-in email address matcher.
    BuiltinEmail,
    /// Built-in bearer-token matcher (redacts only the token portion).
    BuiltinBearerToken,
}

/// The content of a redaction rule.
pub enum RuleModel {
    StructuredKeys(Seq<Seq<char>>),
    Regex(Seq<char>, bool),
    BuiltinEmail,
    BuiltinBearerToken,
}

impl View for RedactionRule {
    type V = RuleModel;

    open spec fn view(&self) -> RuleModel {
        match self {
            RedactionRule::StructuredKeys { keys } => RuleModel::StructuredKeys(
                keys@.map_values(|k: String| k@),
            ),
            RedactionRule::Regex { pattern, case_sensitive } => RuleModel::Regex(
                pattern@,
                *case_sensitive,
            ),
            RedactionRule::BuiltinEmail => RuleModel::BuiltinEmail,
            RedactionRule::BuiltinBearerToken => RuleModel::BuiltinBearerToken,
        }
    }
}

/// The keys the default structured-key rule matches, as regex fragments.
pub open spec fn default_structured_keys() -> Seq<Seq<char>> {
    seq![
        "password"@,
        "passwd"@,
        "pwd"@,
        "secret"@,
        "token"@,
        "api[_-]?key"@,
        "authorization"@,
        "cookie"@,
        "set-cookie"@,
    ]
}

/// The default rule list: structured keys, then e-mail addresses, then bearer tokens.
pub open spec fn default_rule_models() -> Seq<RuleModel> {
    seq![
        RuleModel::StructuredKeys(default_structured_keys()),
        RuleModel::BuiltinEmail,
        RuleModel::BuiltinBearerToken,
    ]
}

/// The default, ordered redaction rules.
pub fn default_redaction_rules() -> (rules: Vec<RedactionRule>)
    ensures
        rules@.map_values(|r: RedactionRule| r@) == default_rule_models(),
{
    let mut keys: Vec<String> = Vec::new();
    keys.push("password".to_string());
    keys.push("passwd".to_string());
    keys.push("pwd".to_string());
    keys.push("secret".to_string());
    keys.push("token".to_string());
    keys.push("api[_-]?key".to_string());
    keys.push("authorization".to_string());
    keys.push("cookie".to_string());
    keys.push("set-cookie".to_string());
    assert(keys@.map_values(|k: String| k@) =~= default_structured_keys());
    let mut rules: Vec<RedactionRule> = Vec::new();
    rules.push(RedactionRule::StructuredKeys { keys });
    rules.push(RedactionRule::BuiltinEmail);
    rules.push(RedactionRule::BuiltinBearerToken);
    assert(rules@.map_values(|r: RedactionRule| r@) =~= default_rule_models());
    rules
}

// ---------------------------------------------------------------------------
// Character and byte positions
// ---------------------------------------------------------------------------

/// The UTF-8 length of a character.
pub open spec fn utf8_width(c: char) -> nat {
    encode_scalar(c as u32).len()
}

pub(crate) fn char_utf8_len(c: char) -> (n: usize)
    ensures
        n == utf8_width(c),
        1 <= n <= 4,
{
    proof {
        vstd::utf8::char_is_scalar(c);
    }
    let v = c as u32;
    if v < 0x80 {
        1
    } else if v < 0x800 {
        2
    } else if v < 0x10000 {
        3
    } else {
        4
    }
}

/// The byte offset of the `k`-th character of `s`.
pub open spec fn byte_offset(s: Seq<char>, k: int) -> int {
    encode_utf8(s.take(k)).len() as int
}

pub(crate) proof fn lemma_byte_offset_step(s: Seq<char>, k: int)
    requires
        0 <= k < s.len(),
    ensures
        byte_offset(s, k + 1) == byte_offset(s, k) + utf8_width(s[k]),
{
    assert(s.take(k + 1) =~= s.take(k) + seq![s[k]]);
    lemma_encode_utf8_concat(s.take(k), seq![s[k]]);
    lemma_encode_one(s[k]);
}

/// The byte offset of every character of `input`, then the length of `input` in bytes.
pub fn scalar_to_byte_offsets(input: &str) -> (r: Vec<usize>)
    ensures
        r@.len() == input@.len() + 1,
        forall|k: int| 0 <= k <= input@.len() ==> #[trigger] r@[k] as int == byte_offset(input@, k),
{
    let bytes = input.as_bytes();
    let total = bytes.len();
    let chars = chars_of(input);
    proof {
        assert(input@.take(input@.len() as int) =~= input@);
    }
    let mut out: Vec<usize> = Vec::new();
    let mut acc: usize = 0;
    let mut i: usize = 0;
    assert(input@.take(0) =~= Seq::<char>::empty());
    while i < chars.len()
        invariant
            chars@ == input@,
            bytes@ == encode_utf8(input@),
            total == bytes@.len(),
            byte_offset(input@, input@.len() as int) == bytes@.len(),
            i <= chars.len(),
            out@.len() == i,
            acc as int == byte_offset(input@, i as int),
            forall|k: int| 0 <= k < i ==> #[trigger] out@[k] as int == byte_offset(input@, k),
        decreases chars.len() - i,
    {
        out.push(acc);
        proof {
            lemma_byte_offset_step(input@, i as int);
            lemma_byte_offset_monotone(input@, i + 1, input@.len() as int);
        }
        acc = acc + char_utf8_len(chars[i]);
        i = i + 1;
    }
    out.push(acc);
    out
}

pub(crate) proof fn lemma_byte_offset_monotone(s: Seq<char>, j: int, k: int)
    requires
        0 <= j <= k <= s.len(),
    ensures
        byte_offset(s, j) <= byte_offset(s, k),
        j < k ==> byte_offset(s, j) < byte_offset(s, k),
    decreases k - j,
{
    if j < k {
        lemma_byte_offset_monotone(s, j, k - 1);
        lemma_byte_offset_step(s, k - 1);
        vstd::utf8::char_is_scalar(s[k - 1]);
    }
}

/// The character index at byte offset `b` of `s`, or the number of characters when `b` is
/// not the start of a character (`str::get(..b)` then counting characters).
pub open spec fn scalar_index(s: Seq<char>, b: int) -> int {
    if exists|k: int| 0 <= k <= s.len() && byte_offset(s, k) == b {
        choose|k: int| 0 <= k <= s.len() && byte_offset(s, k) == b
    } else {
        s.len() as int
    }
}

/// Converts a byte offset into a character index using the offsets table.
fn scalar_index_from(offsets: &Vec<usize>, byte_index: usize, Ghost(s): Ghost<Seq<char>>) -> (r: usize)
    requires
        offsets@.len() == s.len() + 1,
        forall|k: int| 0 <= k <= s.len() ==> #[trigger] offsets@[k] as int == byte_offset(s, k),
    ensures
        r as int == scalar_index(s, byte_index as int),
{
    let len = offsets.len();
    let n = len - 1;
    let mut k: usize = 0;
    while k <= n
        invariant
            n == s.len(),
            n + 1 == len,
            offsets@.len() == n + 1,
            k <= n + 1,
            forall|j: int| 0 <= j <= s.len() ==> #[trigger] offsets@[j] as int == byte_offset(s, j),
            forall|j: int| 0 <= j < k ==> byte_offset(s, j) != byte_index,
        decreases n + 1 - k,
    {
        if offsets[k] == byte_index {
            proof {
                let c = choose|j: int| 0 <= j <= s.len() && byte_offset(s, j) == byte_index;
                if c != k {
                    if c < k {
                        lemma_byte_offset_monotone(s, c, k as int);
                    } else {
                        lemma_byte_offset_monotone(s, k as int, c);
                    }
                }
            }
            return k;
        }
        k = k + 1;
    }
    n
}

// ---------------------------------------------------------------------------
// Replacement tokens
// ---------------------------------------------------------------------------

/// `n` dashes.
pub open spec fn dashes(n: nat) -> Seq<char> {
    Seq::new(n, |i: int| '-')
}

/// A token padded to `len` characters with dashes after a leading `<-`, or at its end.
pub open spec fn padded_token(token: Seq<char>, len: nat) -> Seq<char> {
    if token.len() >= len {
        token
    } else if token.len() >= 2 && token[0] == '<' && token[1] == '-' {
        seq!['<', '-'] + dashes((len - token.len()) as nat) + token.skip(2)
    } else {
        token + dashes((len - token.len()) as nat)
    }
}

/// The smallest tokens: `*`, `**`, else `<`, dashes, `>`.
pub open spec fn minimal_token(len: nat) -> Seq<char> {
    if len == 1 {
        seq!['*']
    } else if len == 2 {
        seq!['*', '*']
    } else {
        seq!['<'] + dashes((if len >= 2 {
            len - 2
        } else {
            0
        }) as nat) + seq!['>']
    }
}

/// The default token shortened to `len` (below its own length): letters of `DETCA` are
/// dropped from the right one at a time, then dashes from the left, then the minimal
/// tokens.
pub open spec fn shrunk_default(len: nat) -> Seq<char> {
    if len == 11 {
        "<-REDACTE->"@
    } else if len == 10 {
        "<-REDACT->"@
    } else if len == 9 {
        "<-REDAC->"@
    } else if len == 8 {
        "<-REDA->"@
    } else if len == 7 {
        "<-RED->"@
    } else if len == 6 {
        "<RED->"@
    } else if len == 5 {
        "<RED>"@
    } else {
        minimal_token(len)
    }
}

/// The replacement for a span of `len` characters.
pub open spec fn fitted_token(token: Seq<char>, len: nat) -> Seq<char> {
    if len == 0 {
        Seq::empty()
    } else if token.len() == len {
        token
    } else if token.len() < len {
        padded_token(token, len)
    } else if token == DEFAULT_REPLACEMENT_TOKEN@ {
        shrunk_default(len)
    } else {
        minimal_token(len)
    }
}

fn push_dashes(out: &mut String, n: usize)
    ensures
        final(out)@ == old(out)@ + dashes(n as nat),
{
    let mut i: usize = 0;
    let ghost base = out@;
    while i < n
        invariant
            i <= n,
            out@ == base + dashes(i as nat),
        decreases n - i,
    {
        push_char(out, '-');
        i = i + 1;
        assert(dashes(i as nat) =~= dashes((i - 1) as nat).push('-'));
    }
}

/// Pads a token to `desired_len` characters.
pub fn pad_token(token: &str, desired_len: usize) -> (r: String)
    ensures
        r@ == padded_token(token@, desired_len as nat),
{
    let chars = chars_of(token);
    let current = chars.len();
    if current >= desired_len {
        return token.to_string();
    }
    if current >= 2 && chars[0] == '<' && chars[1] == '-' {
        let mut padded = String::new();
        push_char(&mut padded, '<');
        push_char(&mut padded, '-');
        push_dashes(&mut padded, desired_len - current);
        let mut i: usize = 2;
        let ghost base = padded@;
        while i < current
            invariant
                2 <= i <= current == chars@.len(),
                chars@ == token@,
                padded@ == base + token@.subrange(2, i as int),
            decreases current - i,
        {
            push_char(&mut padded, chars[i]);
            i = i + 1;
            assert(token@.subrange(2, i as int) =~= token@.subrange(2, i - 1).push(token@[i - 1]));
        }
        assert(token@.subrange(2, current as int) =~= token@.skip(2));
        assert(seq!['<', '-'] + dashes((desired_len - current) as nat) =~= base);
        return padded;
    }
    let mut output = token.to_string();
    push_dashes(&mut output, desired_len - current);
    output
}

/// The minimal replacement for very short spans.
pub fn minimal_fallback_token(desired_len: usize) -> (r: String)
    ensures
        r@ == minimal_token(desired_len as nat),
{
    if desired_len == 1 {
        let mut s = String::new();
        push_char(&mut s, '*');
        s
    } else if desired_len == 2 {
        let mut s = String::new();
        push_char(&mut s, '*');
        push_char(&mut s, '*');
        s
    } else {
        let mut token = String::new();
        push_char(&mut token, '<');
        push_dashes(&mut token, if desired_len >= 2 {
            desired_len - 2
        } else {
            0
        });
        push_char(&mut token, '>');
        token
    }
}

/// The default token shortened to `desired_len` characters.
pub fn shrink_default_token(desired_len: usize) -> (r: String)
    ensures
        r@ == shrunk_default(desired_len as nat),
{
    if desired_len == 11 {
        "<-REDACTE->".to_string()
    } else if desired_len == 10 {
        "<-REDACT->".to_string()
    } else if desired_len == 9 {
        "<-REDAC->".to_string()
    } else if desired_len == 8 {
        "<-REDA->".to_string()
    } else if desired_len == 7 {
        "<-RED->".to_string()
    } else if desired_len == 6 {
        "<RED->".to_string()
    } else if desired_len == 5 {
        "<RED>".to_string()
    } else {
        minimal_fallback_token(desired_len)
    }
}

/// Fits a replacement token to a span of `desired_len` characters.
pub fn fit_replacement_token(token: &str, desired_len: usize) -> (r: String)
    ensures
        r@ == fitted_token(token@, desired_len as nat),
{
    if desired_len == 0 {
        return String::new();
    }
    let token_len = chars_of(token).len();
    if token_len == desired_len {
        return token.to_string();
    }
    if token_len < desired_len {
        return pad_token(token, desired_len);
    }
    if str_eq(token, DEFAULT_REPLACEMENT_TOKEN) {
        return shrink_default_token(desired_len);
    }
    minimal_fallback_token(desired_len)
}

/// The character index of byte offset `byte_index` of `input`, or the character count
/// when it is not the start of a character.
pub fn byte_to_scalar_index(input: &str, byte_index: usize) -> (r: usize)
    ensures
        r as int == scalar_index(input@, byte_index as int),
{
    let offsets = scalar_to_byte_offsets(input);
    scalar_index_from(&offsets, byte_index, Ghost(input@))
}

// ---------------------------------------------------------------------------
// Spans
// ---------------------------------------------------------------------------

/// A half-open range of character positions to redact.
#[derive(Debug, Clone, Copy, PartialEq, Eq, Structural)]
pub struct RedactionSpan {
    pub start: usize,
    pub end: usize,
}

impl RedactionSpan {
    /// Whether the span covers at least one character.
    pub fn is_valid(&self) -> (r: bool)
        ensures
            r == (self.start < self.end),
    {
        self.start < self.end
    }
}

/// Whether span `a` orders before or equal to `b` (by start, then end).
pub open spec fn span_le(a: RedactionSpan, b: RedactionSpan) -> bool {
    a.start < b.start || (a.start == b.start && a.end <= b.end)
}

/// Where an insertion keeps spans ordered: after every span that is not larger.
pub open spec fn span_insert_position(sorted: Seq<RedactionSpan>, x: RedactionSpan) -> int
    decreases sorted.len(),
{
    if sorted.len() == 0 {
        0
    } else if span_le(sorted.last(), x) {
        sorted.len() as int
    } else {
        span_insert_position(sorted.drop_last(), x)
    }
}

/// Valid spans sorted by start, then end.
pub open spec fn sorted_valid_spans(spans: Seq<RedactionSpan>) -> Seq<RedactionSpan>
    decreases spans.len(),
{
    if spans.len() == 0 {
        spans
    } else {
        let rest = sorted_valid_spans(spans.drop_last());
        let x = spans.last();
        if x.start < x.end {
            rest.insert(span_insert_position(rest, x), x)
        } else {
            rest
        }
    }
}

/// Sorted spans folded left to right: a span that starts before the current one ends is
/// absorbed into it; otherwise the current span is emitted.
pub open spec fn merge_from(done: Seq<RedactionSpan>, cursor: RedactionSpan, rest: Seq<RedactionSpan>) -> Seq<RedactionSpan>
    decreases rest.len(),
{
    if rest.len() == 0 {
        done.push(cursor)
    } else if rest[0].start < cursor.end {
        merge_from(
            done,
            RedactionSpan {
                start: cursor.start,
                end: if rest[0].end > cursor.end {
                    rest[0].end
                } else {
                    cursor.end
                },
            },
            rest.drop_first(),
        )
    } else {
        merge_from(done.push(cursor), rest[0], rest.drop_first())
    }
}

/// The merged spans: valid spans, sorted, overlapping ones combined.
pub open spec fn merged_spans(spans: Seq<RedactionSpan>) -> Seq<RedactionSpan> {
    let sorted = sorted_valid_spans(spans);
    if sorted.len() == 0 {
        sorted
    } else {
        merge_from(Seq::empty(), sorted[0], sorted.drop_first())
    }
}

/// Position `p` lies in one of the spans.
pub open spec fn covered(spans: Seq<RedactionSpan>, p: int) -> bool {
    exists|i: int| 0 <= i < spans.len() && (#[trigger] spans[i]).start <= p < spans[i].end
}

/// Spans that are non-empty, in increasing order, and apart: each ends at or before the
/// next one starts.
pub open spec fn spans_apart(spans: Seq<RedactionSpan>) -> bool {
    &&& forall|i: int| 0 <= i < spans.len() ==> (#[trigger] spans[i]).start < spans[i].end
    &&& forall|i: int, j: int| 0 <= i < j < spans.len() ==> (#[trigger] spans[i]).end <= (#[trigger] spans[j]).start
}

/// Spans that are non-empty and ordered by `span_le`.
pub open spec fn spans_ordered(spans: Seq<RedactionSpan>) -> bool {
    &&& forall|i: int| 0 <= i < spans.len() ==> (#[trigger] spans[i]).start < spans[i].end
    &&& forall|i: int, j: int| 0 <= i < j < spans.len() ==> span_le(#[trigger] spans[i], #[trigger] spans[j])
}

proof fn lemma_insert_position(sorted: Seq<RedactionSpan>, x: RedactionSpan)
    requires
        forall|i: int, j: int| 0 <= i < j < sorted.len() ==> span_le(#[trigger] sorted[i], #[trigger] sorted[j]),
    ensures
        0 <= span_insert_position(sorted, x) <= sorted.len(),
        forall|i: int| 0 <= i < span_insert_position(sorted, x) ==> span_le(#[trigger] sorted[i], x),
        forall|i: int| span_insert_position(sorted, x) <= i < sorted.len() ==> span_le(x, #[trigger] sorted[i]),
    decreases sorted.len(),
{
    if sorted.len() > 0 {
        let last = sorted.len() - 1;
        if span_le(sorted[last], x) {
            assert forall|i: int| 0 <= i < sorted.len() implies span_le(#[trigger] sorted[i], x) by {
                if i < last {
                    assert(span_le(sorted[i], sorted[last]));
                }
            }
        } else {
            let rest = sorted.drop_last();
            lemma_insert_position(rest, x);
            let k = span_insert_position(rest, x);
            assert forall|i: int| 0 <= i < k implies span_le(#[trigger] sorted[i], x) by {
                assert(sorted[i] == rest[i]);
            }
            assert forall|i: int| k <= i < sorted.len() implies span_le(x, #[trigger] sorted[i]) by {
                if i < last {
                    assert(sorted[i] == rest[i]);
                }
            }
        }
    }
}

proof fn lemma_sorted_valid_spans(spans: Seq<RedactionSpan>)
    ensures
        spans_ordered(sorted_valid_spans(spans)),
        forall|p: int| covered(sorted_valid_spans(spans), p) <==> covered(spans, p),
    decreases spans.len(),
{
    if spans.len() > 0 {
        let init = spans.drop_last();
        let x = spans.last();
        lemma_sorted_valid_spans(init);
        let rest = sorted_valid_spans(init);
        let r = sorted_valid_spans(spans);
        assert forall|p: int| covered(spans, p) <==> (covered(init, p) || (x.start <= p < x.end)) by {
            if covered(spans, p) {
                let i = choose|i: int| 0 <= i < spans.len() && (#[trigger] spans[i]).start <= p < spans[i].end;
                if i < spans.len() - 1 {
                    assert(init[i] == spans[i]);
                }
            }
            if covered(init, p) {
                let i = choose|i: int| 0 <= i < init.len() && (#[trigger] init[i]).start <= p < init[i].end;
                assert(spans[i] == init[i]);
            }
            if x.start <= p < x.end {
                assert(spans[spans.len() - 1] == x);
            }
        }
        if x.start < x.end {
            lemma_insert_position(rest, x);
            let k = span_insert_position(rest, x);
            assert(r == rest.insert(k, x));
            assert forall|a: int, b: int| 0 <= a < b < r.len() implies span_le(#[trigger] r[a], #[trigger] r[b]) by {
                if b < k {
                    assert(r[a] == rest[a] && r[b] == rest[b]);
                } else if b == k {
                    assert(r[a] == rest[a]);
                } else if a < k {
                    assert(r[a] == rest[a] && r[b] == rest[b - 1]);
                } else if a == k {
                    assert(r[b] == rest[b - 1]);
                } else {
                    assert(r[a] == rest[a - 1] && r[b] == rest[b - 1]);
                }
            }
            assert forall|a: int| 0 <= a < r.len() implies (#[trigger] r[a]).start < r[a].end by {
                if a < k {
                    assert(r[a] == rest[a]);
                } else if a > k {
                    assert(r[a] == rest[a - 1]);
                }
            }
            assert forall|p: int| covered(r, p) <==> (covered(rest, p) || (x.start <= p < x.end)) by {
                if covered(r, p) {
                    let i = choose|i: int| 0 <= i < r.len() && (#[trigger] r[i]).start <= p < r[i].end;
                    if i < k {
                        assert(r[i] == rest[i]);
                    } else if i > k {
                        assert(r[i] == rest[i - 1]);
                    }
                }
                if covered(rest, p) {
                    let i = choose|i: int| 0 <= i < rest.len() && (#[trigger] rest[i]).start <= p < rest[i].end;
                    if i < k {
                        assert(r[i] == rest[i]);
                    } else {
                        assert(r[i + 1] == rest[i]);
                    }
                }
                if x.start <= p < x.end {
                    assert(r[k] == x);
                }
            }
        }
    }
}

proof fn lemma_merge_from(done: Seq<RedactionSpan>, cursor: RedactionSpan, rest: Seq<RedactionSpan>)
    requires
        spans_apart(done),
        done.len() > 0 ==> done.last().end <= cursor.start,
        cursor.start < cursor.end,
        spans_ordered(rest),
        forall|k: int| 0 <= k < rest.len() ==> cursor.start <= (#[trigger] rest[k]).start,
    ensures
        spans_apart(merge_from(done, cursor, rest)),
        forall|p: int| covered(merge_from(done, cursor, rest), p) <==> (covered(done, p) || (
            cursor.start <= p < cursor.end) || covered(rest, p)),
    decreases rest.len(),
{
    let pushed = done.push(cursor);
    assert(spans_apart(pushed)) by {
        assert forall|i: int, j: int| 0 <= i < j < pushed.len() implies (#[trigger] pushed[i]).end
            <= (#[trigger] pushed[j]).start by {
            if j == done.len() {
                if i < done.len() - 1 {
                    assert(done[i].end <= done[done.len() - 1].start);
                }
            } else {
                assert(pushed[i] == done[i] && pushed[j] == done[j]);
            }
        }
    }
    assert forall|p: int| covered(pushed, p) <==> (covered(done, p) || (cursor.start <= p < cursor.end)) by {
        if covered(pushed, p) {
            let i = choose|i: int| 0 <= i < pushed.len() && (#[trigger] pushed[i]).start <= p < pushed[i].end;
            if i < done.len() {
                assert(done[i] == pushed[i]);
            }
        }
        if covered(done, p) {
            let i = choose|i: int| 0 <= i < done.len() && (#[trigger] done[i]).start <= p < done[i].end;
            assert(pushed[i] == done[i]);
        }
        if cursor.start <= p < cursor.end {
            assert(pushed[done.len() as int] == cursor);
        }
    }
    if rest.len() > 0 {
        let next = rest.drop_first();
        assert(spans_ordered(next)) by {
            assert forall|a: int, b: int| 0 <= a < b < next.len() implies span_le(#[trigger] next[a], #[trigger] next[b]) by {
                assert(next[a] == rest[a + 1] && next[b] == rest[b + 1]);
            }
            assert forall|a: int| 0 <= a < next.len() implies (#[trigger] next[a]).start < next[a].end by {
                assert(next[a] == rest[a + 1]);
            }
        }
        assert forall|p: int| covered(rest, p) <==> ((rest[0].start <= p < rest[0].end) || covered(next, p)) by {
            if covered(rest, p) {
                let i = choose|i: int| 0 <= i < rest.len() && (#[trigger] rest[i]).start <= p < rest[i].end;
                if i > 0 {
                    assert(next[i - 1] == rest[i]);
                }
            }
            if covered(next, p) {
                let i = choose|i: int| 0 <= i < next.len() && (#[trigger] next[i]).start <= p < next[i].end;
                assert(rest[i + 1] == next[i]);
            }
        }
        assert(rest[0].start < rest[0].end);
        if rest[0].start < cursor.end {
            let merged = RedactionSpan {
                start: cursor.start,
                end: if rest[0].end > cursor.end {
                    rest[0].end
                } else {
                    cursor.end
                },
            };
            assert forall|k: int| 0 <= k < next.len() implies merged.start <= (#[trigger] next[k]).start by {
                assert(next[k] == rest[k + 1]);
                assert(cursor.start <= rest[k + 1].start);
            }
            lemma_merge_from(done, merged, next);
        } else {
            assert forall|k: int| 0 <= k < next.len() implies rest[0].start <= (#[trigger] next[k]).start by {
                assert(next[k] == rest[k + 1]);
                assert(span_le(rest[0], rest[k + 1]));
            }
            assert(pushed.last() == cursor);
            lemma_merge_from(pushed, rest[0], next);
        }
    }
}

/// Merging spans gives non-empty spans in increasing order that are apart (each ends at or
/// before the next one starts), and covers exactly the positions the input spans cover.
pub proof fn lemma_merged_spans(spans: Seq<RedactionSpan>)
    ensures
        spans_apart(merged_spans(spans)),
        forall|p: int| covered(merged_spans(spans), p) <==> covered(spans, p),
{
    lemma_sorted_valid_spans(spans);
    let sorted = sorted_valid_spans(spans);
    if sorted.len() > 0 {
        let rest = sorted.drop_first();
        assert(spans_ordered(rest)) by {
            assert forall|a: int, b: int| 0 <= a < b < rest.len() implies span_le(#[trigger] rest[a], #[trigger] rest[b]) by {
                assert(rest[a] == sorted[a + 1] && rest[b] == sorted[b + 1]);
            }
            assert forall|a: int| 0 <= a < rest.len() implies (#[trigger] rest[a]).start < rest[a].end by {
                assert(rest[a] == sorted[a + 1]);
            }
        }
        assert forall|k: int| 0 <= k < rest.len() implies sorted[0].start <= (#[trigger] rest[k]).start by {
            assert(rest[k] == sorted[k + 1]);
            assert(span_le(sorted[0], sorted[k + 1]));
        }
        assert(sorted[0].start < sorted[0].end);
        lemma_merge_from(Seq::empty(), sorted[0], rest);
        assert forall|p: int| covered(sorted, p) <==> ((sorted[0].start <= p < sorted[0].end) || covered(rest, p)) by {
            if covered(sorted, p) {
                let i = choose|i: int| 0 <= i < sorted.len() && (#[trigger] sorted[i]).start <= p < sorted[i].end;
                if i > 0 {
                    assert(rest[i - 1] == sorted[i]);
                }
            }
            if covered(rest, p) {
                let i = choose|i: int| 0 <= i < rest.len() && (#[trigger] rest[i]).start <= p < rest[i].end;
                assert(sorted[i + 1] == rest[i]);
            }
        }
        assert forall|p: int| !covered(Seq::<RedactionSpan>::empty(), p) by {}
    }
}

fn insert_span(v: &mut Vec<RedactionSpan>, x: RedactionSpan)
    ensures
        final(v)@ == old(v)@.insert(span_insert_position(old(v)@, x), x),
{
    let ghost base = v@;
    let mut k = v.len();
    assert(base.take(k as int) =~= base);
    while k > 0 && !(v[k - 1].start < x.start || (v[k - 1].start == x.start && v[k - 1].end
        <= x.end))
        invariant
            k <= v.len(),
            base == v@,
            span_insert_position(base, x) == span_insert_position(base.take(k as int), x),
        decreases k,
    {
        assert(base.take(k as int).drop_last() =~= base.take(k - 1));
        k = k - 1;
    }
    proof {
        if k > 0 {
            assert(base.take(k as int).last() == v@[k - 1]);
        }
    }
    v.insert(k, x);
}

/// Drops empty spans, sorts the rest and combines overlapping ones (spans that only touch
/// stay apart).
pub fn merge_spans(spans: Vec<RedactionSpan>) -> (r: Vec<RedactionSpan>)
    ensures
        r@ == merged_spans(spans@),
{
    let mut sorted: Vec<RedactionSpan> = Vec::new();
    let mut i: usize = 0;
    while i < spans.len()
        invariant
            i <= spans.len(),
            sorted@ == sorted_valid_spans(spans@.take(i as int)),
        decreases spans.len() - i,
    {
        let ghost next = spans@.take(i + 1);
        assert(next.drop_last() =~= spans@.take(i as int));
        assert(next.last() == spans@[i as int]);
        let span = spans[i];
        if span.is_valid() {
            insert_span(&mut sorted, span);
        }
        i = i + 1;
    }
    assert(spans@.take(spans.len() as int) =~= spans@);
    let mut merged: Vec<RedactionSpan> = Vec::new();
    if sorted.len() == 0 {
        return merged;
    }
    let mut cursor = sorted[0];
    let mut j: usize = 1;
    assert(sorted@.drop_first() =~= sorted@.skip(1));
    while j < sorted.len()
        invariant
            1 <= j <= sorted.len(),
            sorted@ == sorted_valid_spans(spans@),
            merged_spans(spans@) == merge_from(merged@, cursor, sorted@.skip(j as int)),
        decreases sorted.len() - j,
    {
        let span = sorted[j];
        assert(sorted@.skip(j as int)[0] == span);
        assert(sorted@.skip(j as int).drop_first() =~= sorted@.skip(j + 1));
        if span.start < cursor.end {
            cursor.end = if span.end > cursor.end {
                span.end
            } else {
                cursor.end
            };
        } else {
            merged.push(cursor);
            cursor = span;
        }
        j = j + 1;
    }
    assert(sorted@.skip(sorted.len() as int) =~= Seq::<RedactionSpan>::empty());
    merged.push(cursor);
    merged
}

// ---------------------------------------------------------------------------
// Applying replacements
// ---------------------------------------------------------------------------

/// The replacement text for a span.
pub open spec fn replacement_for(span: RedactionSpan, token: Seq<char>, preserve_length: bool) -> Seq<char> {
    if preserve_length {
        fitted_token(token, (if span.end >= span.start {
            span.end - span.start
        } else {
            0
        }) as nat)
    } else {
        token
    }
}

/// `s` from character `last` on, with each span replaced in turn.
pub open spec fn apply_from(
    s: Seq<char>,
    spans: Seq<RedactionSpan>,
    token: Seq<char>,
    preserve_length: bool,
    last: int,
) -> Seq<char>
    decreases spans.len(),
{
    if spans.len() == 0 {
        if last < s.len() {
            s.skip(last)
        } else {
            Seq::empty()
        }
    } else {
        let span = spans[0];
        let start = if span.start < s.len() {
            span.start as int
        } else {
            s.len() as int
        };
        let end = if span.end < s.len() {
            span.end as int
        } else {
            s.len() as int
        };
        (if start > last {
            s.subrange(last, start)
        } else {
            Seq::empty()
        }) + replacement_for(span, token, preserve_length) + apply_from(
            s,
            spans.drop_first(),
            token,
            preserve_length,
            end,
        )
    }
}

fn push_chars(out: &mut String, v: &Vec<char>, from: usize, to: usize)
    requires
        from <= to <= v.len(),
    ensures
        final(out)@ == old(out)@ + v@.subrange(from as int, to as int),
{
    let ghost base = out@;
    let mut i = from;
    while i < to
        invariant
            from <= i <= to <= v.len(),
            out@ == base + v@.subrange(from as int, i as int),
        decreases to - i,
    {
        push_char(out, v[i]);
        i = i + 1;
        assert(v@.subrange(from as int, i as int) =~= v@.subrange(from as int, i - 1).push(
            v@[i - 1],
        ));
    }
}

/// Replaces each span of `input` (in order) by the token, fitted to the span's length
/// when `preserve_length` is set.
pub fn apply_replacements(
    input: &str,
    spans: &[RedactionSpan],
    replacement_token: &str,
    preserve_length: bool,
) -> (r: String)
    ensures
        r@ == apply_from(input@, spans@, replacement_token@, preserve_length, 0),
{
    let chars = chars_of(input);
    let n = chars.len();
    let mut output = String::new();
    let mut last_end: usize = 0;
    let mut i: usize = 0;
    assert(spans@.skip(0) =~= spans@);
    while i < spans.len()
        invariant
            chars@ == input@,
            n == chars@.len(),
            i <= spans.len(),
            last_end <= n,
            apply_from(input@, spans@, replacement_token@, preserve_length, 0) == output@
                + apply_from(input@, spans@.skip(i as int), replacement_token@, preserve_length, last_end as int),
        decreases spans.len() - i,
    {
        let span = spans[i];
        assert(spans@.skip(i as int)[0] == span);
        assert(spans@.skip(i as int).drop_first() =~= spans@.skip(i + 1));
        let start = if span.start < n {
            span.start
        } else {
            n
        };
        let end = if span.end < n {
            span.end
        } else {
            n
        };
        let ghost before = output@;
        if start > last_end {
            push_chars(&mut output, &chars, last_end, start);
        }
        let replacement = if preserve_length {
            let len = if span.end >= span.start {
                span.end - span.start
            } else {
                0
            };
            fit_replacement_token(replacement_token, len)
        } else {
            replacement_token.to_string()
        };
        output.append(replacement.as_str());
        last_end = end;
        i = i + 1;
    }
    assert(spans@.skip(spans.len() as int) =~= Seq::<RedactionSpan>::empty());
    if last_end < n {
        push_chars(&mut output, &chars, last_end, n);
        assert(chars@.subrange(last_end as int, n as int) =~= input@.skip(last_end as int));
    }
    output
}

// ---------------------------------------------------------------------------
// Rules as regular expressions
// ---------------------------------------------------------------------------

/// Whether `regex::RegexBuilder` accepts the pattern, with case folding as given.
pub uninterp spec fn regex_builds(pattern: Seq<char>, case_insensitive: bool) -> bool;

/// The byte ranges of the successive non-overlapping matches of a pattern in a text
/// (`Regex::find_iter`).
pub uninterp spec fn regex_find_ranges(
    pattern: Seq<char>,
    case_insensitive: bool,
    text: Seq<char>,
) -> Seq<(int, int)>;

/// For each successive match of a pattern in a text (`Regex::captures_iter`), the byte
/// range of each of the named groups, in the order of `names`, where the group took part.
pub uninterp spec fn regex_group_ranges(
    pattern: Seq<char>,
    case_insensitive: bool,
    text: Seq<char>,
    names: Seq<Seq<char>>,
) -> Seq<Seq<Option<(int, int)>>>;

/// `RegexBuilder::new(pattern).case_insensitive(..).build()`: whether it succeeds.
#[verifier::external_body]
pub(crate) fn regex_compiles(pattern: &str, case_insensitive: bool) -> (r: bool)
    ensures
        r == regex_builds(pattern@, case_insensitive),
{
    regex::RegexBuilder::new(pattern).case_insensitive(case_insensitive).build().is_ok()
}

/// A byte range as integers.
pub open spec fn range_view(r: (usize, usize)) -> (int, int) {
    (r.0 as int, r.1 as int)
}

/// `Regex::find_iter` on a pattern that builds: the start and end byte offsets of each
/// match, in order.
#[verifier::external_body]
pub(crate) fn regex_find(pattern: &str, case_insensitive: bool, text: &str) -> (r: Vec<(usize, usize)>)
    requires
        regex_builds(pattern@, case_insensitive),
    ensures
        r@.map_values(|x: (usize, usize)| range_view(x)) == regex_find_ranges(
            pattern@,
            case_insensitive,
            text@,
        ),
{
    let re = regex::RegexBuilder::new(pattern).case_insensitive(case_insensitive).build().unwrap();
    re.find_iter(text).map(|m| (m.start(), m.end())).collect()
}

/// Optional ranges as integers.
pub open spec fn group_row_view(row: Vec<Option<(usize, usize)>>) -> Seq<Option<(int, int)>> {
    row@.map_values(
        |g: Option<(usize, usize)>|
            match g {
                Some(x) => Some(range_view(x)),
                None => None,
            },
    )
}

/// `Regex::captures_iter` on a pattern that builds: for each match, the byte range of
/// each of the named groups that took part.
#[verifier::external_body]
fn regex_groups(pattern: &str, case_insensitive: bool, text: &str, names: &Vec<&str>) -> (r: Vec<
    Vec<Option<(usize, usize)>>,
>)
    requires
        regex_builds(pattern@, case_insensitive),
    ensures
        r@.map_values(|row: Vec<Option<(usize, usize)>>| group_row_view(row))
            == regex_group_ranges(
            pattern@,
            case_insensitive,
            text@,
            names@.map_values(|n: &str| n@),
        ),
{
    let re = regex::RegexBuilder::new(pattern).case_insensitive(case_insensitive).build().unwrap();
    re.captures_iter(text).map(
        |caps| names.iter().map(|n| caps.name(n).map(|m| (m.start(), m.end()))).collect(),
    ).collect()
}

/// The built-in e-mail address pattern.
pub const EMAIL_PATTERN: &'static str = "(?i)\\b[A-Z0-9._%+-]+@[A-Z0-9.-]+\\.[A-Z]{2,}\\b";

/// The built-in bearer-token pattern; the `token` group is redacted.
pub const BEARER_PATTERN: &'static str = "(?i)\\bBearer\\s+(?P<token>[A-Za-z0-9._\\-~+/]+=*)";

/// The part of the structured-key pattern before the key alternation.
pub const STRUCTURED_KEY_PREFIX: &'static str = "(?ix)\n\t\t(?:^|[\\s\\{\\[,(])\n\t\t\\\"?(?:";

/// The part of the structured-key pattern after the key alternation.
pub const STRUCTURED_KEY_SUFFIX: &'static str = ")\\\"?\n\t\t\\s*[:=]\\s*\n\t\t(?:\n\t\t\tBearer\\s+(?P<bearer_token>[^\\s,;\\}\\]\\)]+) |\n\t\t\t\\\"(?P<value_dq>(?:\\\\.|[^\\\"\\\\])*)\\\" |\n\t\t\t'(?P<value_sq>(?:\\\\.|[^'\\\\])*)' |\n\t\t\t(?P<value_bare>[^\\s,;\\}\\]\\)]+)\n\t\t)";

/// The pattern that never matches a non-empty text, used when no key is configured.
pub const NEVER_PATTERN: &'static str = "$^";

/// The trimmed, non-blank keys.
pub open spec fn usable_keys(keys: Seq<Seq<char>>) -> Seq<Seq<char>>
    decreases keys.len(),
{
    if keys.len() == 0 {
        keys
    } else if trim_spec(keys.last()).len() == 0 {
        usable_keys(keys.drop_last())
    } else {
        usable_keys(keys.drop_last()).push(trim_spec(keys.last()))
    }
}

/// The regular expression of a structured-key rule: key, optional quotes, `:` or `=`,
/// then a bearer token, a quoted value or a bare value.
pub open spec fn structured_pattern(keys: Seq<Seq<char>>) -> Seq<char> {
    let alternation = join_with(usable_keys(keys), "|"@);
    if alternation.len() == 0 {
        NEVER_PATTERN@
    } else {
        STRUCTURED_KEY_PREFIX@ + alternation + STRUCTURED_KEY_SUFFIX@
    }
}

proof fn lemma_usable_keys_len(keys: Seq<Seq<char>>)
    ensures
        usable_keys(keys).len() <= keys.len(),
    decreases keys.len(),
{
    if keys.len() > 0 {
        lemma_usable_keys_len(keys.drop_last());
    }
}

/// The key alternation of a structured-key rule: trimmed, non-blank keys joined by `|`.
pub fn structured_key_alternation(keys: &Vec<String>) -> (r: String)
    ensures
        r@ == join_with(usable_keys(keys@.map_values(|k: String| k@)), "|"@),
{
    let ghost kv = keys@.map_values(|k: String| k@);
    let mut alternation = String::new();
    let mut count: usize = 0;
    let mut i: usize = 0;
    while i < keys.len()
        invariant
            i <= keys.len(),
            kv == keys@.map_values(|k: String| k@),
            count == usable_keys(kv.take(i as int)).len(),
            count <= i,
            alternation@ == join_with(usable_keys(kv.take(i as int)), "|"@),
        decreases keys.len() - i,
    {
        let ghost next = kv.take(i + 1);
        assert(next.drop_last() =~= kv.take(i as int));
        assert(next.last() == keys@[i as int]@);
        let key = trim_chars(chars_of(keys[i].as_str()).as_slice());
        proof {
            if key@.len() > 0 {
                assert(usable_keys(next) == usable_keys(kv.take(i as int)).push(key@));
            } else {
                assert(usable_keys(next) == usable_keys(kv.take(i as int)));
            }
            lemma_usable_keys_len(kv.take(i as int));
        }
        if key.len() > 0 {
            if count > 0 {
                alternation.append("|");
            }
            alternation.append(string_of(key.as_slice()).as_str());
            proof {
                let prev = usable_keys(kv.take(i as int));
                assert(usable_keys(next).drop_last() =~= prev);
                if count == 0 {
                    assert(usable_keys(next).len() == 1);
                    assert(alternation@ =~= usable_keys(next)[0]);
                } else {
                    assert(alternation@ =~= join_with(prev, "|"@) + "|"@ + key@);
                }
            }
            count = count + 1;
        }
        i = i + 1;
    }
    assert(kv.take(keys.len() as int) =~= kv);
    alternation
}

/// Compiles a structured-key rule.
pub fn compile_structured_key_rule(keys: &Vec<String>) -> (r: Result<CompiledRule, String>)
    ensures
        match r {
            Ok(c) => c matches CompiledRule::StructuredKeys { pattern } && pattern@
                == structured_pattern(keys@.map_values(|k: String| k@)) && regex_builds(
                pattern@,
                false,
            ),
            Err(m) => !regex_builds(structured_pattern(keys@.map_values(|k: String| k@)), false)
                && m@ == rule_failure_text(RuleModel::StructuredKeys(keys@.map_values(|k: String| k@))),
        },
{
    let alternation = structured_key_alternation(keys);
    if chars_of(alternation.as_str()).len() == 0 {
        if !regex_compiles(NEVER_PATTERN, false) {
            return Err("failed to compile empty structured-key rule".to_string());
        }
        return Ok(CompiledRule::StructuredKeys { pattern: NEVER_PATTERN.to_string() });
    }
    let mut pattern = String::from_str(STRUCTURED_KEY_PREFIX);
    pattern.append(alternation.as_str());
    pattern.append(STRUCTURED_KEY_SUFFIX);
    if !regex_compiles(pattern.as_str(), false) {
        return Err("failed to compile structured-key redaction rule".to_string());
    }
    Ok(CompiledRule::StructuredKeys { pattern })
}

/// A rule ready to run: the pattern of each kind of rule.
pub enum CompiledRule {
    StructuredKeys { pattern: String },
    Regex { pattern: String, case_insensitive: bool },
    Email,
    BearerToken,
}

/// The pattern a compiled rule runs, and whether it folds case.
pub open spec fn rule_regex(rule: CompiledRule) -> (Seq<char>, bool) {
    match rule {
        CompiledRule::StructuredKeys { pattern } => (pattern@, false),
        CompiledRule::Regex { pattern, case_insensitive } => (pattern@, case_insensitive),
        CompiledRule::Email => (EMAIL_PATTERN@, false),
        CompiledRule::BearerToken => (BEARER_PATTERN@, false),
    }
}

/// The groups whose first participating one is redacted, for rules that use groups.
pub open spec fn structured_groups() -> Seq<Seq<char>> {
    seq!["bearer_token"@, "value_dq"@, "value_sq"@, "value_bare"@]
}

/// The first group that took part.
pub open spec fn first_present(groups: Seq<Option<(int, int)>>) -> Option<(int, int)>
    decreases groups.len(),
{
    if groups.len() == 0 {
        None
    } else if groups[0] is Some {
        groups[0]
    } else {
        first_present(groups.drop_first())
    }
}

/// A byte range as a character span.
pub open spec fn span_of(input: Seq<char>, range: (int, int)) -> RedactionSpan {
    RedactionSpan {
        start: scalar_index(input, range.0) as usize,
        end: scalar_index(input, range.1) as usize,
    }
}

/// The non-empty character spans of match ranges.
pub open spec fn match_spans(input: Seq<char>, ranges: Seq<(int, int)>) -> Seq<RedactionSpan>
    decreases ranges.len(),
{
    if ranges.len() == 0 {
        Seq::empty()
    } else {
        let rest = match_spans(input, ranges.drop_last());
        let span = span_of(input, ranges.last());
        if span.start < span.end {
            rest.push(span)
        } else {
            rest
        }
    }
}

/// The non-empty character spans of the first participating group of each match.
pub open spec fn group_spans(input: Seq<char>, rows: Seq<Seq<Option<(int, int)>>>) -> Seq<
    RedactionSpan,
>
    decreases rows.len(),
{
    if rows.len() == 0 {
        Seq::empty()
    } else {
        let rest = group_spans(input, rows.drop_last());
        match first_present(rows.last()) {
            Some(range) => {
                let span = span_of(input, range);
                if span.start < span.end {
                    rest.push(span)
                } else {
                    rest
                }
            },
            None => rest,
        }
    }
}

/// The spans one rule finds in a text.
pub open spec fn rule_spans(rule: CompiledRule, input: Seq<char>) -> Seq<RedactionSpan> {
    match rule {
        CompiledRule::StructuredKeys { pattern } => group_spans(
            input,
            regex_group_ranges(pattern@, false, input, structured_groups()),
        ),
        CompiledRule::Regex { pattern, case_insensitive } => match_spans(
            input,
            regex_find_ranges(pattern@, case_insensitive, input),
        ),
        CompiledRule::Email => match_spans(input, regex_find_ranges(EMAIL_PATTERN@, false, input)),
        CompiledRule::BearerToken => group_spans(
            input,
            regex_group_ranges(BEARER_PATTERN@, false, input, seq!["token"@]),
        ),
    }
}

/// The spans all rules find, rule after rule.
pub open spec fn all_rule_spans(rules: Seq<CompiledRule>, input: Seq<char>) -> Seq<RedactionSpan>
    decreases rules.len(),
{
    if rules.len() == 0 {
        Seq::empty()
    } else {
        all_rule_spans(rules.drop_last(), input) + rule_spans(rules.last(), input)
    }
}

fn first_group(row: &Vec<Option<(usize, usize)>>) -> (r: Option<(usize, usize)>)
    ensures
        match first_present(group_row_view(*row)) {
            Some(x) => r is Some && range_view(r->0) == x,
            None => r is None,
        },
{
    let mut k: usize = 0;
    assert(group_row_view(*row).skip(0) =~= group_row_view(*row));
    while k < row.len()
        invariant
            k <= row.len(),
            first_present(group_row_view(*row)) == first_present(group_row_view(*row).skip(k as int)),
        decreases row.len() - k,
    {
        assert(group_row_view(*row).skip(k as int)[0] == match row@[k as int] {
            Some(x) => Some(range_view(x)),
            None => None::<(int, int)>,
        });
        assert(group_row_view(*row).skip(k as int).drop_first() =~= group_row_view(*row).skip(k + 1));
        if let Some(x) = row[k] {
            return Some(x);
        }
        k = k + 1;
    }
    assert(group_row_view(*row).skip(k as int) =~= Seq::<Option<(int, int)>>::empty());
    None
}

fn spans_of_groups(input: &str, rows: Vec<Vec<Option<(usize, usize)>>>) -> (r: Vec<RedactionSpan>)
    ensures
        r@ == group_spans(
            input@,
            rows@.map_values(|row: Vec<Option<(usize, usize)>>| group_row_view(row)),
        ),
{
    let ghost rv = rows@.map_values(|row: Vec<Option<(usize, usize)>>| group_row_view(row));
    let mut spans: Vec<RedactionSpan> = Vec::new();
    let mut i: usize = 0;
    while i < rows.len()
        invariant
            i <= rows.len(),
            rv == rows@.map_values(|row: Vec<Option<(usize, usize)>>| group_row_view(row)),
            spans@ == group_spans(input@, rv.take(i as int)),
        decreases rows.len() - i,
    {
        let ghost next = rv.take(i + 1);
        assert(next.drop_last() =~= rv.take(i as int));
        assert(next.last() == group_row_view(rows@[i as int]));
        let found = first_group(&rows[i]);
        match found {
            Some((s, e)) => {
                let span = RedactionSpan {
                    start: byte_to_scalar_index(input, s),
                    end: byte_to_scalar_index(input, e),
                };
                if span.is_valid() {
                    spans.push(span);
                }
            },
            None => {},
        }
        i = i + 1;
    }
    assert(rv.take(rows.len() as int) =~= rv);
    spans
}

fn spans_of_matches(input: &str, ranges: Vec<(usize, usize)>) -> (r: Vec<RedactionSpan>)
    ensures
        r@ == match_spans(input@, ranges@.map_values(|x: (usize, usize)| range_view(x))),
{
    let ghost rv = ranges@.map_values(|x: (usize, usize)| range_view(x));
    let mut spans: Vec<RedactionSpan> = Vec::new();
    let mut i: usize = 0;
    while i < ranges.len()
        invariant
            i <= ranges.len(),
            rv == ranges@.map_values(|x: (usize, usize)| range_view(x)),
            spans@ == match_spans(input@, rv.take(i as int)),
        decreases ranges.len() - i,
    {
        let ghost next = rv.take(i + 1);
        assert(next.drop_last() =~= rv.take(i as int));
        assert(next.last() == range_view(ranges@[i as int]));
        let (s, e) = ranges[i];
        let span = RedactionSpan {
            start: byte_to_scalar_index(input, s),
            end: byte_to_scalar_index(input, e),
        };
        if span.is_valid() {
            spans.push(span);
        }
        i = i + 1;
    }
    assert(rv.take(ranges.len() as int) =~= rv);
    spans
}

/// Whether a compiled rule's pattern builds.
pub open spec fn rule_builds(rule: CompiledRule) -> bool {
    regex_builds(rule_regex(rule).0, rule_regex(rule).1)
}

/// The spans one compiled rule finds in `input`.
pub fn collect_spans_for_rule(rule: &CompiledRule, input: &str) -> (r: Vec<RedactionSpan>)
    requires
        rule_builds(*rule),
    ensures
        r@ == rule_spans(*rule, input@),
{
    match rule {
        CompiledRule::StructuredKeys { pattern } => {
            let mut names: Vec<&str> = Vec::new();
            names.push("bearer_token");
            names.push("value_dq");
            names.push("value_sq");
            names.push("value_bare");
            assert(names@.map_values(|n: &str| n@) =~= structured_groups());
            spans_of_groups(input, regex_groups(pattern.as_str(), false, input, &names))
        },
        CompiledRule::Regex { pattern, case_insensitive } => spans_of_matches(
            input,
            regex_find(pattern.as_str(), *case_insensitive, input),
        ),
        CompiledRule::Email => spans_of_matches(input, regex_find(EMAIL_PATTERN, false, input)),
        CompiledRule::BearerToken => {
            let mut names: Vec<&str> = Vec::new();
            names.push("token");
            assert(names@.map_values(|n: &str| n@) =~= seq!["token"@]);
            spans_of_groups(input, regex_groups(BEARER_PATTERN, false, input, &names))
        },
    }
}

// ---------------------------------------------------------------------------
// The redactor
// ---------------------------------------------------------------------------

/// Summary statistics about a redaction pass.
#[derive(Debug, Clone, Copy, PartialEq, Eq, Structural)]
pub struct RedactionStats {
    pub redacted_spans: usize,
}

impl Default for RedactionStats {
    fn default() -> (s: Self)
        ensures
            s.redacted_spans == 0,
    {
        RedactionStats { redacted_spans: 0 }
    }
}

/// Result of redacting a single string.
pub struct RedactionResult {
    pub output: String,
    pub stats: RedactionStats,
}

/// Redacts non-public information from log messages and tool outputs.
pub struct Redactor {
    enabled: bool,
    replacement_token: String,
    preserve_length: bool,
    rules: Vec<CompiledRule>,
}

/// The pattern and case folding a configured rule compiles to.
pub open spec fn rule_source(rule: RuleModel) -> (Seq<char>, bool) {
    match rule {
        RuleModel::StructuredKeys(keys) => (structured_pattern(keys), false),
        RuleModel::Regex(pattern, case_sensitive) => (pattern, !case_sensitive),
        RuleModel::BuiltinEmail => (EMAIL_PATTERN@, false),
        RuleModel::BuiltinBearerToken => (BEARER_PATTERN@, false),
    }
}

/// The message of a configured rule whose pattern does not build.
pub open spec fn rule_failure_text(rule: RuleModel) -> Seq<char> {
    match rule {
        RuleModel::StructuredKeys(keys) => if join_with(usable_keys(keys), "|"@).len() == 0 {
            "failed to compile empty structured-key rule"@
        } else {
            "failed to compile structured-key redaction rule"@
        },
        RuleModel::Regex(pattern, _) => "failed to compile redaction regex: "@ + pattern,
        RuleModel::BuiltinEmail => "failed to compile email redaction rule"@,
        RuleModel::BuiltinBearerToken => "failed to compile bearer-token redaction rule"@,
    }
}

/// The first rule whose pattern does not build, after the built-in patterns.
pub open spec fn build_failure(rules: Seq<RuleModel>) -> Option<Seq<char>> {
    if !regex_builds(EMAIL_PATTERN@, false) {
        Some("failed to compile email redaction rule"@)
    } else if !regex_builds(BEARER_PATTERN@, false) {
        Some("failed to compile bearer-token redaction rule"@)
    } else {
        first_rule_failure(rules)
    }
}

/// The first configured rule whose pattern does not build.
pub open spec fn first_rule_failure(rules: Seq<RuleModel>) -> Option<Seq<char>>
    decreases rules.len(),
{
    if rules.len() == 0 {
        None
    } else if !regex_builds(rule_source(rules[0]).0, rule_source(rules[0]).1) {
        Some(rule_failure_text(rules[0]))
    } else {
        first_rule_failure(rules.drop_first())
    }
}

/// Whether a compiled rule is the one a configured rule compiles to.
pub open spec fn compiled_from(c: CompiledRule, m: RuleModel) -> bool {
    match (c, m) {
        (CompiledRule::StructuredKeys { pattern }, RuleModel::StructuredKeys(keys)) => pattern@
            == structured_pattern(keys),
        (CompiledRule::Regex { pattern, case_insensitive }, RuleModel::Regex(p, case_sensitive)) =>
            pattern@ == p && case_insensitive == !case_sensitive,
        (CompiledRule::Email, RuleModel::BuiltinEmail) => true,
        (CompiledRule::BearerToken, RuleModel::BuiltinBearerToken) => true,
        _ => false,
    }
}

/// What redacting `input` gives: the text and the number of redacted spans.
pub open spec fn redaction_of(
    enabled: bool,
    token: Seq<char>,
    preserve_length: bool,
    rules: Seq<CompiledRule>,
    input: Seq<char>,
) -> (Seq<char>, nat) {
    if !enabled || input.len() == 0 {
        (input, 0)
    } else {
        let spans = merged_spans(all_rule_spans(rules, input));
        if spans.len() == 0 {
            (input, 0)
        } else {
            (apply_from(input, spans, token, preserve_length, 0), spans.len())
        }
    }
}

impl Redactor {
    #[verifier::type_invariant]
    spec fn rules_build(&self) -> bool {
        forall|i: int| 0 <= i < self.rules@.len() ==> #[trigger] rule_builds(self.rules@[i])
    }

    /// Whether redaction is on.
    pub closed spec fn enabled_view(&self) -> bool {
        self.enabled
    }

    /// The replacement token.
    pub closed spec fn token_view(&self) -> Seq<char> {
        self.replacement_token@
    }

    /// Whether replacements keep the length of what they replace.
    pub closed spec fn preserve_view(&self) -> bool {
        self.preserve_length
    }

    /// The compiled rules, in order.
    pub closed spec fn rules_view(&self) -> Seq<CompiledRule> {
        self.rules@
    }

    /// Builds a redactor from explicit settings and rules, compiling the built-in patterns
    /// and then each rule in order; the first pattern that does not build is the error.
    pub fn try_from_rules(
        enabled: bool,
        replacement_token: String,
        preserve_length: bool,
        rules: Vec<RedactionRule>,
    ) -> (r: Result<Redactor, String>)
        ensures
            match build_failure(rules@.map_values(|x: RedactionRule| x@)) {
                Some(m) => r is Err && r->Err_0@ == m,
                None => r is Ok && r->Ok_0.enabled_view() == enabled && r->Ok_0.token_view()
                    == replacement_token@ && r->Ok_0.preserve_view() == preserve_length
                    && r->Ok_0.rules_view().len() == rules@.len() && forall|i: int|
                    0 <= i < rules@.len() ==> #[trigger] compiled_from(
                        r->Ok_0.rules_view()[i],
                        rules@[i]@,
                    ),
            },
    {
        let ghost models = rules@.map_values(|x: RedactionRule| x@);
        if !regex_compiles(EMAIL_PATTERN, false) {
            return Err("failed to compile email redaction rule".to_string());
        }
        if !regex_compiles(BEARER_PATTERN, false) {
            return Err("failed to compile bearer-token redaction rule".to_string());
        }
        let mut compiled: Vec<CompiledRule> = Vec::new();
        let mut i: usize = 0;
        assert(models.skip(0) =~= models);
        while i < rules.len()
            invariant
                i <= rules.len(),
                models == rules@.map_values(|x: RedactionRule| x@),
                regex_builds(EMAIL_PATTERN@, false),
                regex_builds(BEARER_PATTERN@, false),
                first_rule_failure(models) == first_rule_failure(models.skip(i as int)),
                compiled@.len() == i,
                forall|j: int| 0 <= j < i ==> #[trigger] compiled_from(compiled@[j], rules@[j]@),
                forall|j: int| 0 <= j < i ==> #[trigger] rule_builds(compiled@[j]),
            decreases rules.len() - i,
        {
            assert(models.skip(i as int)[0] == rules@[i as int]@);
            assert(models.skip(i as int).drop_first() =~= models.skip(i + 1));
            let rule = &rules[i];
            let c = match rule {
                RedactionRule::StructuredKeys { keys } => match compile_structured_key_rule(keys) {
                    Ok(c) => c,
                    Err(m) => {
                        return Err(m);
                    },
                },
                RedactionRule::Regex { pattern, case_sensitive } => {
                    if !regex_compiles(pattern.as_str(), !*case_sensitive) {
                        let mut m = String::from_str("failed to compile redaction regex: ");
                        m.append(pattern.as_str());
                        return Err(m);
                    }
                    CompiledRule::Regex { pattern: pattern.clone(), case_insensitive: !*case_sensitive }
                },
                RedactionRule::BuiltinEmail => CompiledRule::Email,
                RedactionRule::BuiltinBearerToken => CompiledRule::BearerToken,
            };
            compiled.push(c);
            i = i + 1;
        }
        assert(models.skip(rules.len() as int) =~= Seq::<RuleModel>::empty());
        Ok(Redactor { enabled, replacement_token, preserve_length, rules: compiled })
    }

    /// The default policy: enabled, the default token, lengths preserved, default rules.
    pub fn try_default() -> (r: Result<Redactor, String>)
        ensures
            match build_failure(default_rule_models()) {
                Some(m) => r is Err && r->Err_0@ == m,
                None => r is Ok && r->Ok_0.enabled_view() && r->Ok_0.token_view()
                    == DEFAULT_REPLACEMENT_TOKEN@ && r->Ok_0.preserve_view()
                    && r->Ok_0.rules_view().len() == 3 && forall|i: int|
                    0 <= i < 3 ==> #[trigger] compiled_from(
                        r->Ok_0.rules_view()[i],
                        default_rule_models()[i],
                    ),
            },
    {
        let rules = default_redaction_rules();
        let r = Redactor::try_from_rules(true, DEFAULT_REPLACEMENT_TOKEN.to_string(), true, rules);
        proof {
            assert(rules@.len() == default_rule_models().len());
            assert forall|i: int| 0 <= i < rules@.len() implies rules@[i]@ == default_rule_models()[i] by {
                assert(rules@.map_values(|x: RedactionRule| x@)[i] == rules@[i]@);
            }
        }
        r
    }

    /// A redactor with explicit settings and the default rules.
    pub fn try_new(enabled: bool, replacement_token: String, preserve_length: bool) -> (r: Result<
        Redactor,
        String,
    >)
        ensures
            match build_failure(default_rule_models()) {
                Some(m) => r is Err && r->Err_0@ == m,
                None => r is Ok && r->Ok_0.enabled_view() == enabled && r->Ok_0.token_view()
                    == replacement_token@ && r->Ok_0.preserve_view() == preserve_length
                    && r->Ok_0.rules_view().len() == 3 && forall|i: int|
                    0 <= i < 3 ==> #[trigger] compiled_from(
                        r->Ok_0.rules_view()[i],
                        default_rule_models()[i],
                    ),
            },
    {
        let rules = default_redaction_rules();
        let ghost token = replacement_token@;
        let r = Redactor::try_from_rules(enabled, replacement_token, preserve_length, rules);
        proof {
            assert forall|i: int| 0 <= i < rules@.len() implies rules@[i]@ == default_rule_models()[i] by {
                assert(rules@.map_values(|x: RedactionRule| x@)[i] == rules@[i]@);
            }
        }
        r
    }

    /// Redacts the configured patterns from `input` and counts the redacted spans.
    pub fn redact_text_with_stats(&self, input: &str) -> (r: RedactionResult)
        ensures
            (r.output@, r.stats.redacted_spans as nat) == redaction_of(
                self.enabled_view(),
                self.token_view(),
                self.preserve_view(),
                self.rules_view(),
                input@,
            ),
    {
        proof {
            use_type_invariant(self);
        }
        if !self.enabled || chars_of(input).len() == 0 {
            return RedactionResult { output: input.to_string(), stats: RedactionStats::default() };
        }
        let mut spans: Vec<RedactionSpan> = Vec::new();
        let mut i: usize = 0;
        while i < self.rules.len()
            invariant
                i <= self.rules.len(),
                forall|j: int| 0 <= j < self.rules@.len() ==> #[trigger] rule_builds(self.rules@[j]),
                spans@ == all_rule_spans(self.rules@.take(i as int), input@),
            decreases self.rules.len() - i,
        {
            let ghost next = self.rules@.take(i + 1);
            assert(next.drop_last() =~= self.rules@.take(i as int));
            assert(next.last() == self.rules@[i as int]);
            let found = collect_spans_for_rule(&self.rules[i], input);
            let ghost before = spans@;
            let mut k: usize = 0;
            while k < found.len()
                invariant
                    k <= found.len(),
                    spans@ == before + found@.take(k as int),
                decreases found.len() - k,
            {
                spans.push(found[k]);
                k = k + 1;
                assert(found@.take(k as int) =~= found@.take(k - 1).push(found@[k - 1]));
            }
            assert(found@.take(found.len() as int) =~= found@);
            i = i + 1;
        }
        assert(self.rules@.take(self.rules.len() as int) =~= self.rules@);
        let merged = merge_spans(spans);
        if merged.len() == 0 {
            return RedactionResult { output: input.to_string(), stats: RedactionStats::default() };
        }
        let output = apply_replacements(
            input,
            merged.as_slice(),
            self.replacement_token.as_str(),
            self.preserve_length,
        );
        RedactionResult { output, stats: RedactionStats { redacted_spans: merged.len() } }
    }

    /// Redacts the configured patterns from `input`.
    pub fn redact_text(&self, input: &str) -> (r: String)
        ensures
            r@ == redaction_of(
                self.enabled_view(),
                self.token_view(),
                self.preserve_view(),
                self.rules_view(),
                input@,
            ).0,
    {
        self.redact_text_with_stats(input).output
    }
}


/// `n`, or `usize::MAX` where `n` is larger.
pub open spec fn saturated(n: nat) -> nat {
    if n <= usize::MAX {
        n
    } else {
        usize::MAX as nat
    }
}

impl Redactor {
    /// What the redactor makes of a text: the output and the number of spans replaced.
    pub open spec fn text_redaction(&self, s: Seq<char>) -> (Seq<char>, nat) {
        redaction_of(self.enabled_view(), self.token_view(), self.preserve_view(), self.rules_view(), s)
    }

    /// The redacted form of each text.
    pub open spec fn redacted_text(&self) -> spec_fn(Seq<char>) -> Seq<char> {
        |s: Seq<char>| self.text_redaction(s).0
    }

    /// The number of spans redacted in each text.
    pub open spec fn redacted_count(&self) -> spec_fn(Seq<char>) -> nat {
        |s: Seq<char>| self.text_redaction(s).1
    }

    /// Redacts every string inside a JSON value in place, keeping its shape and keys,
    /// and counts the redacted spans (the count stops at `usize::MAX`).
    pub fn redact_json_value(&self, value: &mut JsonValue) -> (stats: RedactionStats)
        ensures
            !self.enabled_view() ==> *final(value) == *old(value) && stats.redacted_spans == 0,
            self.enabled_view() ==> json_mapped(*old(value), *final(value), self.redacted_text()),
            self.enabled_view() ==> stats.redacted_spans == saturated(
                json_count(*old(value), self.redacted_count()),
            ),
        decreases *old(value),
    {
        if !self.enabled {
            return RedactionStats::default();
        }
        let ghost start = *value;
        match value {
            JsonValue::String(text) => {
                let result = self.redact_text_with_stats(text.as_str());
                *text = result.output;
                result.stats
            },
            JsonValue::Array(items) => {
                let ghost before = *items;
                let mut total: usize = 0;
                let mut i: usize = 0;
                assert(before@.take(0) =~= Seq::<JsonValue>::empty());
                while i < items.len()
                    invariant
                        self.enabled_view(),
                        start == *old(value),
                        start == JsonValue::Array(before),
                        i <= items@.len() == before@.len(),
                        forall|j: int|
                            0 <= j < i ==> #[trigger] json_mapped(before@[j], items@[j], self.redacted_text()),
                        forall|j: int| i <= j < items@.len() ==> #[trigger] items@[j] == before@[j],
                        total == saturated(items_count(before@.take(i as int), self.redacted_count())),
                    decreases items@.len() - i,
                {
                    proof {
                        assert(decreases_to!(start => start->Array_0));
                        assert(decreases_to!(before => before@));
                        assert(decreases_to!(before@ => before@[i as int]));
                        assert(decreases_to!(start => items@[i as int]));
                        assert(before@.take(i + 1).drop_last() =~= before@.take(i as int));
                        assert(before@.take(i + 1).last() == before@[i as int]);
                    }
                    let child = self.redact_json_value(&mut items[i]);
                    total = total.saturating_add(child.redacted_spans);
                    i = i + 1;
                }
                proof {
                    assert(before@.take(i as int) =~= before@);
                    lemma_items_mapped(before@, items@, self.redacted_text());
                }
                RedactionStats { redacted_spans: total }
            },
            JsonValue::Object(entries) => {
                let ghost before = *entries;
                let mut total: usize = 0;
                let mut i: usize = 0;
                assert(before@.take(0) =~= Seq::<(String, JsonValue)>::empty());
                while i < entries.len()
                    invariant
                        self.enabled_view(),
                        start == *old(value),
                        start == JsonValue::Object(before),
                        i <= entries@.len() == before@.len(),
                        forall|j: int| 0 <= j < entries@.len() ==> (#[trigger] before@[j]).0@ == entries@[j].0@,
                        forall|j: int|
                            0 <= j < i ==> #[trigger] json_mapped(
                                before@[j].1,
                                entries@[j].1,
                                self.redacted_text(),
                            ),
                        forall|j: int| i <= j < entries@.len() ==> #[trigger] entries@[j] == before@[j],
                        total == saturated(entries_count(before@.take(i as int), self.redacted_count())),
                    decreases entries@.len() - i,
                {
                    proof {
                        assert(decreases_to!(start => start->Object_0));
                        assert(decreases_to!(before => before@));
                        assert(decreases_to!(before@ => before@[i as int]));
                        assert(decreases_to!(before@[i as int] => before@[i as int].1));
                        assert(decreases_to!(start => entries@[i as int].1));
                        assert(before@.take(i + 1).drop_last() =~= before@.take(i as int));
                        assert(before@.take(i + 1).last() == before@[i as int]);
                    }
                    let entry = &mut entries[i];
                    let child = self.redact_json_value(&mut entry.1);
                    total = total.saturating_add(child.redacted_spans);
                    i = i + 1;
                }
                proof {
                    assert(before@.take(i as int) =~= before@);
                    lemma_entries_mapped(before@, entries@, self.redacted_text());
                }
                RedactionStats { redacted_spans: total }
            },
            _ => RedactionStats::default(),
        }
    }
}

// ---------------------------------------------------------------------------
// Length-preserving redaction keeps the character count
// ---------------------------------------------------------------------------

/// `n` dashes are `n` characters.
proof fn lemma_dashes_len(n: nat)
    ensures
        dashes(n).len() == n,
{
}

/// A fitted token has exactly the length it was fitted to.
pub proof fn lemma_fitted_token_len(token: Seq<char>, len: nat)
    ensures
        fitted_token(token, len).len() == len,
{
    reveal_strlit("<-REDACTED->");
    reveal_strlit("<-REDACTE->");
    reveal_strlit("<-REDACT->");
    reveal_strlit("<-REDAC->");
    reveal_strlit("<-REDA->");
    reveal_strlit("<-RED->");
    reveal_strlit("<RED->");
    reveal_strlit("<RED>");
    if len > 0 && token.len() != len {
        if token.len() < len {
            if token.len() >= 2 && token[0] == '<' && token[1] == '-' {
                lemma_dashes_len((len - token.len()) as nat);
            } else {
                lemma_dashes_len((len - token.len()) as nat);
            }
        } else if len >= 3 {
            lemma_dashes_len((len - 2) as nat);
        }
    }
}

/// Replacing apart spans that lie inside the text, from a point at or before the first of
/// them, with tokens fitted to their lengths gives as many characters as the text has
/// from that point.
proof fn lemma_apply_from_len(s: Seq<char>, spans: Seq<RedactionSpan>, token: Seq<char>, last: int)
    requires
        spans_apart(spans),
        forall|i: int| 0 <= i < spans.len() ==> (#[trigger] spans[i]).end <= s.len(),
        0 <= last <= s.len(),
        spans.len() > 0 ==> last <= spans[0].start,
    ensures
        apply_from(s, spans, token, true, last).len() == s.len() - last,
    decreases spans.len(),
{
    if spans.len() > 0 {
        let span = spans[0];
        let rest = spans.drop_first();
        assert(spans_apart(rest)) by {
            assert forall|i: int| 0 <= i < rest.len() implies (#[trigger] rest[i]).start < rest[i].end by {
                assert(rest[i] == spans[i + 1]);
            }
            assert forall|i: int, j: int| 0 <= i < j < rest.len() implies (#[trigger] rest[i]).end
                <= (#[trigger] rest[j]).start by {
                assert(rest[i] == spans[i + 1] && rest[j] == spans[j + 1]);
            }
        }
        assert forall|i: int| 0 <= i < rest.len() implies (#[trigger] rest[i]).end <= s.len() by {
            assert(rest[i] == spans[i + 1]);
        }
        if rest.len() > 0 {
            assert(rest[0] == spans[1]);
            assert(span.end <= spans[1].start);
        }
        assert(span.start < span.end);
        lemma_fitted_token_len(token, (span.end - span.start) as nat);
        lemma_apply_from_len(s, rest, token, span.end as int);
    }
}

/// A character span taken from a byte range lies inside the text.
proof fn lemma_span_of_bounds(input: Seq<char>, range: (int, int))
    requires
        input.len() <= usize::MAX,
    ensures
        span_of(input, range).end <= input.len(),
        span_of(input, range).start <= input.len(),
{
    let s0 = scalar_index(input, range.0);
    let s1 = scalar_index(input, range.1);
    assert(0 <= s0 <= input.len());
    assert(0 <= s1 <= input.len());
}

proof fn lemma_match_spans_bounds(input: Seq<char>, ranges: Seq<(int, int)>)
    requires
        input.len() <= usize::MAX,
    ensures
        forall|i: int|
            0 <= i < match_spans(input, ranges).len() ==> (#[trigger] match_spans(input, ranges)[i]).end
                <= input.len(),
    decreases ranges.len(),
{
    if ranges.len() > 0 {
        lemma_match_spans_bounds(input, ranges.drop_last());
        lemma_span_of_bounds(input, ranges.last());
        let rest = match_spans(input, ranges.drop_last());
        let span = span_of(input, ranges.last());
        assert forall|i: int| 0 <= i < rest.push(span).len() implies (#[trigger] rest.push(span)[i]).end
            <= input.len() by {
            if i < rest.len() {
                assert(rest.push(span)[i] == rest[i]);
            }
        }
    }
}

proof fn lemma_group_spans_bounds(input: Seq<char>, rows: Seq<Seq<Option<(int, int)>>>)
    requires
        input.len() <= usize::MAX,
    ensures
        forall|i: int|
            0 <= i < group_spans(input, rows).len() ==> (#[trigger] group_spans(input, rows)[i]).end
                <= input.len(),
    decreases rows.len(),
{
    if rows.len() > 0 {
        lemma_group_spans_bounds(input, rows.drop_last());
        match first_present(rows.last()) {
            Some(range) => {
                lemma_span_of_bounds(input, range);
                let rest = group_spans(input, rows.drop_last());
                let span = span_of(input, range);
                assert forall|i: int| 0 <= i < rest.push(span).len() implies (#[trigger] rest.push(
                    span,
                )[i]).end <= input.len() by {
                    if i < rest.len() {
                        assert(rest.push(span)[i] == rest[i]);
                    }
                }
                if span.start < span.end {
                    assert(group_spans(input, rows) == rest.push(span));
                } else {
                    assert(group_spans(input, rows) == rest);
                }
            },
            None => {
                assert(group_spans(input, rows) == group_spans(input, rows.drop_last()));
            },
        }
    }
}

proof fn lemma_all_rule_spans_bounds(rules: Seq<CompiledRule>, input: Seq<char>)
    requires
        input.len() <= usize::MAX,
    ensures
        forall|i: int|
            0 <= i < all_rule_spans(rules, input).len() ==> (#[trigger] all_rule_spans(rules, input)[i]).end
                <= input.len(),
    decreases rules.len(),
{
    if rules.len() > 0 {
        lemma_all_rule_spans_bounds(rules.drop_last(), input);
        let a = all_rule_spans(rules.drop_last(), input);
        let b = rule_spans(rules.last(), input);
        match rules.last() {
            CompiledRule::StructuredKeys { pattern } => lemma_group_spans_bounds(
                input,
                regex_group_ranges(pattern@, false, input, structured_groups()),
            ),
            CompiledRule::Regex { pattern, case_insensitive } => lemma_match_spans_bounds(
                input,
                regex_find_ranges(pattern@, case_insensitive, input),
            ),
            CompiledRule::Email => lemma_match_spans_bounds(
                input,
                regex_find_ranges(EMAIL_PATTERN@, false, input),
            ),
            CompiledRule::BearerToken => lemma_group_spans_bounds(
                input,
                regex_group_ranges(BEARER_PATTERN@, false, input, seq!["token"@]),
            ),
        }
        assert forall|i: int| 0 <= i < (a + b).len() implies (#[trigger] (a + b)[i]).end <= input.len() by {
            if i < a.len() {
                assert((a + b)[i] == a[i]);
            } else {
                assert((a + b)[i] == b[i - a.len()]);
            }
        }
    }
}

/// With `preserve_length` set, redaction keeps the number of characters of the text.
pub proof fn lemma_preserve_length_keeps_count(
    enabled: bool,
    token: Seq<char>,
    rules: Seq<CompiledRule>,
    input: Seq<char>,
)
    requires
        input.len() <= usize::MAX,
    ensures
        redaction_of(enabled, token, true, rules, input).0.len() == input.len(),
{
    if enabled && input.len() > 0 {
        let found = all_rule_spans(rules, input);
        let spans = merged_spans(found);
        lemma_merged_spans(found);
        lemma_all_rule_spans_bounds(rules, input);
        assert forall|i: int| 0 <= i < spans.len() implies (#[trigger] spans[i]).end <= input.len() by {
            let p = spans[i].end - 1;
            assert(spans[i].start < spans[i].end);
            assert(covered(spans, p));
            assert(covered(found, p));
            let k = choose|k: int| 0 <= k < found.len() && (#[trigger] found[k]).start <= p < found[k].end;
            assert(found[k].end <= input.len());
        }
        if spans.len() > 0 {
            lemma_apply_from_len(input, spans, token, 0);
        }
    }
}

// ---------------------------------------------------------------------------
// The default secret keys
// ---------------------------------------------------------------------------

/// The default policy redacts structured fields under every usual secret key: the first
/// default rule is a structured-key rule, and `password`, `passwd`, `pwd`, `secret`,
/// `token`, `api[_-]?key` (api_key, api-key, apikey), `authorization`, `cookie` and
/// `set-cookie` each stand as one alternative of its key pattern.
pub proof fn lemma_default_rules_cover_secret_keys()
    ensures
        default_rule_models().len() == 3,
        default_rule_models()[0] matches RuleModel::StructuredKeys(keys) && {
            let alternatives = usable_keys(keys);
            &&& alternatives.contains("password"@)
            &&& alternatives.contains("passwd"@)
            &&& alternatives.contains("pwd"@)
            &&& alternatives.contains("secret"@)
            &&& alternatives.contains("token"@)
            &&& alternatives.contains("api[_-]?key"@)
            &&& alternatives.contains("authorization"@)
            &&& alternatives.contains("cookie"@)
            &&& alternatives.contains("set-cookie"@)
        },
        default_rule_models()[1] == RuleModel::BuiltinEmail,
        default_rule_models()[2] == RuleModel::BuiltinBearerToken,
{
    let keys = default_structured_keys();
    reveal_strlit("password");
    reveal_strlit("passwd");
    reveal_strlit("pwd");
    reveal_strlit("secret");
    reveal_strlit("token");
    reveal_strlit("api[_-]?key");
    reveal_strlit("authorization");
    reveal_strlit("cookie");
    reveal_strlit("set-cookie");
    assert forall|i: int| 0 <= i < keys.len() implies trim_spec(#[trigger] keys[i]) == keys[i] by {
        crate::services::plan_round_trip::lemma_trim_of_solid(keys[i]);
    }
    lemma_usable_solid(keys);
    assert(keys[0] == "password"@);
    assert(keys[1] == "passwd"@);
    assert(keys[2] == "pwd"@);
    assert(keys[3] == "secret"@);
    assert(keys[4] == "token"@);
    assert(keys[5] == "api[_-]?key"@);
    assert(keys[6] == "authorization"@);
    assert(keys[7] == "cookie"@);
    assert(keys[8] == "set-cookie"@);
}

/// Keys that are their own non-blank trim are all usable, in order.
proof fn lemma_usable_solid(keys: Seq<Seq<char>>)
    requires
        forall|i: int| 0 <= i < keys.len() ==> trim_spec(#[trigger] keys[i]) == keys[i] && keys[i].len() > 0,
    ensures
        usable_keys(keys) == keys,
    decreases keys.len(),
{
    if keys.len() > 0 {
        assert forall|i: int| 0 <= i < keys.drop_last().len() implies trim_spec(
            #[trigger] keys.drop_last()[i],
        ) == keys.drop_last()[i] && keys.drop_last()[i].len() > 0 by {
            assert(keys.drop_last()[i] == keys[i]);
        }
        lemma_usable_solid(keys.drop_last());
        assert(keys[keys.len() - 1] == keys.last());
        assert(keys.drop_last().push(keys.last()) =~= keys);
    }
}

} // verus!
