//! Deterministic rendering and decoding of filesystem paths that may not be valid
//! Unicode: invalid UTF-8 bytes render as `\xNN`, backslashes as `\\`.

use vstd::prelude::*;

use vstd::utf8::{decode_utf8, encode_utf8, valid_utf8};

use crate::text::{chars_of, join_with, push_char, split_chars, split_on, string_of, views_of};

verus! {

broadcast use vstd::string::group_string_axioms;

/// Characters after a backslash that mark the start of an escape sequence.
pub open spec fn is_escape_lead(c: char) -> bool {
    c == '\\' || c == 'x' || c == 'u'
}

/// Inbound separator normalization of `raw` from position `i` on, read left to right: a
/// backslash followed by another keeps the pair (the escape for a literal backslash), a
/// backslash before `x` or `u` is kept (it begins an `\xNN` or `\u{..}` escape), and any
/// other backslash becomes `/`.
pub open spec fn normalized_from(raw: Seq<char>, i: int) -> Seq<char>
    decreases raw.len() - i,
{
    if i < 0 || i >= raw.len() {
        Seq::empty()
    } else if raw[i] != '\\' {
        seq![raw[i]] + normalized_from(raw, i + 1)
    } else if i + 1 < raw.len() && raw[i + 1] == '\\' {
        seq!['\\', '\\'] + normalized_from(raw, i + 2)
    } else if i + 1 < raw.len() && is_escape_lead(raw[i + 1]) {
        seq!['\\'] + normalized_from(raw, i + 1)
    } else {
        seq!['/'] + normalized_from(raw, i + 1)
    }
}

/// `raw` with each backslash that neither begins nor ends an escape sequence turned into
/// `/`.
pub open spec fn normalized_separators(raw: Seq<char>) -> Seq<char> {
    normalized_from(raw, 0)
}

/// Normalizes inbound separators on characters.
pub fn normalize_separator_chars(raw: &[char]) -> (r: Vec<char>)
    ensures
        r@ == normalized_separators(raw@),
{
    let mut out: Vec<char> = Vec::new();
    let mut i: usize = 0;
    while i < raw.len()
        invariant
            i <= raw.len(),
            out@ + normalized_from(raw@, i as int) == normalized_from(raw@, 0),
        decreases raw.len() - i,
    {
        let ch = raw[i];
        let ghost before = out@;
        if ch != '\\' {
            out.push(ch);
            i = i + 1;
            assert(before + normalized_from(raw@, i - 1) =~= out@ + normalized_from(raw@, i as int));
        } else if i + 1 < raw.len() && raw[i + 1] == '\\' {
            out.push('\\');
            out.push('\\');
            i = i + 2;
            assert(before + normalized_from(raw@, i - 2) =~= out@ + normalized_from(raw@, i as int));
        } else if i + 1 < raw.len() && (raw[i + 1] == 'x' || raw[i + 1] == 'u') {
            out.push('\\');
            i = i + 1;
            assert(before + normalized_from(raw@, i - 1) =~= out@ + normalized_from(raw@, i as int));
        } else {
            out.push('/');
            i = i + 1;
            assert(before + normalized_from(raw@, i - 1) =~= out@ + normalized_from(raw@, i as int));
        }
    }
    assert(out@ + normalized_from(raw@, i as int) =~= out@);
    out
}

/// Normalizes inbound path separators by treating `\` as `/` except where the backslash
/// belongs to an encoded-path escape sequence (`\\`, `\xNN`, `\u{...}`).
pub fn normalize_inbound_separators(raw: &str) -> (r: String)
    ensures
        r@ == normalized_separators(raw@),
{
    let v = chars_of(raw);
    let n = normalize_separator_chars(v.as_slice());
    string_of(n.as_slice())
}

// ---------------------------------------------------------------------------
// Rendering byte strings
// ---------------------------------------------------------------------------

/// A rendered path and whether any part of it needed escapes.
pub struct RenderedPath {
    pub text: String,
    pub was_encoded: bool,
}

/// The length of the longest prefix of `bytes` that is valid UTF-8.
pub open spec fn valid_prefix_len(bytes: Seq<u8>) -> nat
    decreases bytes.len(),
{
    if valid_utf8(bytes) || bytes.len() == 0 {
        bytes.len()
    } else {
        valid_prefix_len(bytes.drop_last())
    }
}

/// The longest valid prefix is valid, and shorter than an invalid input.
pub proof fn lemma_valid_prefix_len(bytes: Seq<u8>)
    ensures
        valid_prefix_len(bytes) <= bytes.len(),
        valid_utf8(bytes.take(valid_prefix_len(bytes) as int)),
        !valid_utf8(bytes) ==> valid_prefix_len(bytes) < bytes.len(),
    decreases bytes.len(),
{
    if valid_utf8(bytes) || bytes.len() == 0 {
        assert(bytes.take(bytes.len() as int) =~= bytes);
        if bytes.len() == 0 {
            assert(valid_utf8(bytes));
        }
    } else {
        lemma_valid_prefix_len(bytes.drop_last());
        assert(bytes.drop_last().take(valid_prefix_len(bytes) as int) =~= bytes.take(
            valid_prefix_len(bytes) as int,
        ));
    }
}

/// The length of the invalid sequence after the valid prefix, or `None` when the input
/// ends inside a sequence (`Utf8Error::error_len`).
pub uninterp spec fn utf8_error_len(bytes: Seq<u8>) -> Option<nat>;

/// `std::str::from_utf8`: the text of valid UTF-8; otherwise how far the input is valid
/// (`valid_up_to`: the length of the longest valid prefix) and the length (1 to 3) of the
/// invalid sequence that follows, if the input does not end inside it (`error_len`).
#[verifier::external_body]
pub(crate) fn from_utf8(bytes: &[u8]) -> (r: Result<String, (usize, Option<usize>)>)
    ensures
        match r {
            Ok(s) => valid_utf8(bytes@) && s@ == decode_utf8(bytes@),
            Err((v, e)) => {
                &&& !valid_utf8(bytes@)
                &&& v as nat == valid_prefix_len(bytes@)
                &&& match e {
                    Some(l) => utf8_error_len(bytes@) == Some(l as nat) && 1 <= l <= 3 && v + l
                        <= bytes@.len(),
                    None => utf8_error_len(bytes@) is None,
                }
            },
        },
{
    match std::str::from_utf8(bytes) {
        Ok(s) => Ok(s.to_string()),
        Err(e) => Err((e.valid_up_to(), e.error_len())),
    }
}

/// A character with `\` doubled.
pub open spec fn escaped_char(c: char) -> Seq<char> {
    if c == '\\' {
        seq!['\\', '\\']
    } else {
        seq![c]
    }
}

/// Text with every `\` doubled.
pub open spec fn escape_backslashes(s: Seq<char>) -> Seq<char>
    decreases s.len(),
{
    if s.len() == 0 {
        Seq::empty()
    } else {
        escaped_char(s[0]) + escape_backslashes(s.drop_first())
    }
}

proof fn lemma_escape_push(s: Seq<char>, c: char)
    ensures
        escape_backslashes(s.push(c)) == escape_backslashes(s) + escaped_char(c),
    decreases s.len(),
{
    if s.len() == 0 {
        assert(s.push(c).drop_first() =~= Seq::<char>::empty());
        assert(s.push(c)[0] == c);
        assert(escape_backslashes(s.push(c).drop_first()) =~= Seq::<char>::empty());
        assert(escape_backslashes(s.push(c)) =~= escaped_char(c));
    } else {
        assert(s.push(c).drop_first() =~= s.drop_first().push(c));
        lemma_escape_push(s.drop_first(), c);
        assert(escape_backslashes(s.push(c)) =~= escaped_char(s[0]) + (escape_backslashes(
            s.drop_first(),
        ) + escaped_char(c)));
    }
}

/// An upper-case hexadecimal digit.
pub open spec fn hex_digit_upper(n: int) -> char {
    if n < 10 {
        ((n + 48) as u8) as char
    } else {
        ((n + 55) as u8) as char
    }
}

/// A byte that is not valid UTF-8: `\\` for a backslash, else `\x` and two upper-case
/// hexadecimal digits.
pub open spec fn byte_escape(b: u8) -> Seq<char> {
    if b == 92 {
        seq!['\\', '\\']
    } else {
        seq!['\\', 'x', hex_digit_upper(b as int / 16), hex_digit_upper(b as int % 16)]
    }
}

/// Bytes escaped one by one.
pub open spec fn bytes_escape(bs: Seq<u8>) -> Seq<char>
    decreases bs.len(),
{
    if bs.len() == 0 {
        Seq::empty()
    } else {
        byte_escape(bs[0]) + bytes_escape(bs.drop_first())
    }
}

proof fn lemma_bytes_escape_push(bs: Seq<u8>, b: u8)
    ensures
        bytes_escape(bs.push(b)) == bytes_escape(bs) + byte_escape(b),
    decreases bs.len(),
{
    if bs.len() == 0 {
        assert(bs.push(b).drop_first() =~= Seq::<u8>::empty());
        assert(bs.push(b)[0] == b);
        assert(bytes_escape(bs.push(b).drop_first()) =~= Seq::<char>::empty());
        assert(bytes_escape(bs.push(b)) =~= byte_escape(b));
    } else {
        assert(bs.push(b).drop_first() =~= bs.drop_first().push(b));
        lemma_bytes_escape_push(bs.drop_first(), b);
        assert(bytes_escape(bs.push(b)) =~= byte_escape(bs[0]) + (bytes_escape(bs.drop_first())
            + byte_escape(b)));
    }
}

/// The length of the invalid run that is escaped after a valid prefix: the reported
/// sequence length, or the rest of the input, and at least one byte.
pub open spec fn invalid_run(bytes: Seq<u8>) -> int {
    let l = match utf8_error_len(bytes) {
        Some(n) => n as int,
        None => bytes.len() as int,
    };
    let l = if l < 1 {
        1
    } else {
        l
    };
    if l > bytes.len() {
        bytes.len() as int
    } else {
        l
    }
}

/// The escaped rendering of a byte string that is not valid UTF-8: valid stretches with
/// `\` doubled, invalid bytes as `\xNN`.
pub open spec fn encoded_bytes(bytes: Seq<u8>) -> Seq<char>
    decreases bytes.len(),
{
    if bytes.len() == 0 {
        Seq::empty()
    } else if valid_utf8(bytes) {
        escape_backslashes(decode_utf8(bytes))
    } else {
        let v = valid_prefix_len(bytes) as int;
        if 0 < v < bytes.len() {
            escape_backslashes(decode_utf8(bytes.take(v))) + encoded_bytes(bytes.skip(v))
        } else {
            let l = invalid_run(bytes);
            bytes_escape(bytes.take(l)) + encoded_bytes(bytes.skip(l))
        }
    }
}

/// Appends `text` with every `\` doubled.
pub fn push_escaped_backslashes(output: &mut String, text: &str)
    ensures
        final(output)@ == old(output)@ + escape_backslashes(text@),
{
    let chars = chars_of(text);
    let ghost base = output@;
    let mut i: usize = 0;
    assert(chars@.take(0) =~= Seq::<char>::empty());
    while i < chars.len()
        invariant
            i <= chars.len(),
            chars@ == text@,
            output@ == base + escape_backslashes(chars@.take(i as int)),
        decreases chars.len() - i,
    {
        let c = chars[i];
        proof {
            assert(chars@.take(i + 1) =~= chars@.take(i as int).push(c));
            lemma_escape_push(chars@.take(i as int), c);
        }
        if c == '\\' {
            push_char(output, '\\');
            push_char(output, '\\');
        } else {
            push_char(output, c);
        }
        i = i + 1;
    }
    assert(chars@.take(chars.len() as int) =~= chars@);
}

fn hex_digit(n: u8) -> (c: char)
    requires
        n < 16,
    ensures
        c == hex_digit_upper(n as int),
{
    if n < 10 {
        ((n + 48) as u8) as char
    } else {
        ((n + 55) as u8) as char
    }
}

fn push_byte_escape(output: &mut String, b: u8)
    ensures
        final(output)@ == old(output)@ + byte_escape(b),
{
    if b == 92 {
        push_char(output, '\\');
        push_char(output, '\\');
    } else {
        push_char(output, '\\');
        push_char(output, 'x');
        push_char(output, hex_digit(b / 16));
        push_char(output, hex_digit(b % 16));
    }
}

/// Copies `v[from..to]`.
pub fn slice_bytes(v: &[u8], from: usize, to: usize) -> (r: Vec<u8>)
    requires
        from <= to <= v.len(),
    ensures
        r@ == v@.subrange(from as int, to as int),
{
    let mut out: Vec<u8> = Vec::new();
    let mut i = from;
    while i < to
        invariant
            from <= i <= to <= v.len(),
            out@ =~= v@.subrange(from as int, i as int),
        decreases to - i,
    {
        out.push(v[i]);
        i = i + 1;
    }
    out
}

/// Renders bytes that are not valid UTF-8: valid stretches keep their characters (with
/// `\` doubled) and each invalid byte becomes `\xNN`.
pub fn encode_unix_bytes(bytes: &[u8]) -> (r: String)
    ensures
        r@ == encoded_bytes(bytes@),
{
    let mut output = String::new();
    let mut pos: usize = 0;
    let n = bytes.len();
    assert(bytes@.skip(0) =~= bytes@);
    while pos < n
        invariant
            pos <= n == bytes@.len(),
            encoded_bytes(bytes@) == output@ + encoded_bytes(bytes@.skip(pos as int)),
        decreases n - pos,
    {
        let remaining = slice_bytes(bytes, pos, n);
        assert(remaining@ =~= bytes@.skip(pos as int));
        match from_utf8(remaining.as_slice()) {
            Ok(text) => {
                push_escaped_backslashes(&mut output, text.as_str());
                assert(bytes@.skip(n as int) =~= Seq::<u8>::empty());
                pos = n;
            },
            Err((valid, error_len)) => {
                proof {
                    lemma_valid_prefix_len(remaining@);
                }
                if valid > 0 {
                    let prefix = slice_bytes(remaining.as_slice(), 0, valid);
                    assert(prefix@ =~= remaining@.take(valid as int));
                    match from_utf8(prefix.as_slice()) {
                        Ok(text) => {
                            push_escaped_backslashes(&mut output, text.as_str());
                        },
                        Err(_) => {},
                    }
                    assert(remaining@.skip(valid as int) =~= bytes@.skip(pos + valid));
                    pos = pos + valid;
                } else {
                    let rest = n - pos;
                    let l0 = match error_len {
                        Some(l) => l,
                        None => rest,
                    };
                    let l1 = if l0 < 1 {
                        1
                    } else {
                        l0
                    };
                    let l = if l1 > rest {
                        rest
                    } else {
                        l1
                    };
                    assert(l as int == invalid_run(remaining@));
                    let ghost before = output@;
                    let mut k: usize = 0;
                    while k < l
                        invariant
                            k <= l <= remaining@.len(),
                            output@ == before + bytes_escape(remaining@.take(k as int)),
                        decreases l - k,
                    {
                        proof {
                            assert(remaining@.take(k + 1) =~= remaining@.take(k as int).push(
                                remaining@[k as int],
                            ));
                            lemma_bytes_escape_push(remaining@.take(k as int), remaining@[k as int]);
                        }
                        push_byte_escape(&mut output, remaining[k]);
                        k = k + 1;
                    }
                    assert(remaining@.skip(l as int) =~= bytes@.skip(pos + l));
                    pos = pos + l;
                }
            },
        }
    }
    output
}

/// A path component rendered as text: itself when valid UTF-8, else escaped.
pub open spec fn rendered_component(bytes: Seq<u8>) -> (Seq<char>, bool) {
    if valid_utf8(bytes) {
        (decode_utf8(bytes), false)
    } else {
        (encoded_bytes(bytes), true)
    }
}

/// Renders one path component (its bytes, as the Unix OS string holds them).
pub fn render_component(component: &[u8]) -> (r: RenderedPath)
    ensures
        (r.text@, r.was_encoded) == rendered_component(component@),
{
    match from_utf8(component) {
        Ok(text) => RenderedPath { text, was_encoded: false },
        Err(_) => RenderedPath { text: encode_unix_bytes(component), was_encoded: true },
    }
}

// ---------------------------------------------------------------------------
// Decoding
// ---------------------------------------------------------------------------

/// The value of an ASCII hexadecimal digit.
pub open spec fn hex_value_spec(b: u8) -> Option<u8> {
    if 48 <= b <= 57 {
        Some((b - 48) as u8)
    } else if 97 <= b <= 102 {
        Some((10 + (b - 97)) as u8)
    } else if 65 <= b <= 70 {
        Some((10 + (b - 65)) as u8)
    } else {
        None
    }
}

/// The value of an ASCII hexadecimal digit.
pub fn hex_value(byte: u8) -> (r: Option<u8>)
    ensures
        r == hex_value_spec(byte),
{
    if 48 <= byte && byte <= 57 {
        Some(byte - 48)
    } else if 97 <= byte && byte <= 102 {
        Some(10 + (byte - 97))
    } else if 65 <= byte && byte <= 70 {
        Some(10 + (byte - 65))
    } else {
        None
    }
}

/// The bytes a rendered segment stands for: `\\` is a backslash, `\x` with two hexadecimal
/// digits is that byte, and anything else is itself.
pub open spec fn decoded_segment(b: Seq<u8>) -> Seq<u8>
    decreases b.len(),
{
    if b.len() == 0 {
        Seq::empty()
    } else if b[0] != 92 {
        seq![b[0]] + decoded_segment(b.skip(1))
    } else if b.len() >= 2 && b[1] == 92 {
        seq![92u8] + decoded_segment(b.skip(2))
    } else if b.len() >= 4 && b[1] == 120 && hex_value_spec(b[2]) is Some && hex_value_spec(b[3]) is Some {
        seq![(hex_value_spec(b[2])->0 * 16 + hex_value_spec(b[3])->0) as u8] + decoded_segment(b.skip(4))
    } else {
        seq![92u8] + decoded_segment(b.skip(1))
    }
}

/// Decodes the bytes of a rendered path segment.
pub fn decode_unix_segment_bytes(bytes: &[u8]) -> (r: Vec<u8>)
    ensures
        r@ == decoded_segment(bytes@),
{
    let mut output: Vec<u8> = Vec::new();
    let mut index: usize = 0;
    let n = bytes.len();
    assert(bytes@.skip(0) =~= bytes@);
    while index < n
        invariant
            index <= n == bytes@.len(),
            decoded_segment(bytes@) == output@ + decoded_segment(bytes@.skip(index as int)),
        decreases n - index,
    {
        let ghost rest = bytes@.skip(index as int);
        assert(rest[0] == bytes@[index as int]);
        if bytes[index] != 92 {
            output.push(bytes[index]);
            assert(rest.skip(1) =~= bytes@.skip(index + 1));
            index = index + 1;
            continue;
        }
        if n - index >= 2 && bytes[index + 1] == 92 {
            assert(rest[1] == bytes@[index + 1]);
            output.push(92);
            assert(rest.skip(2) =~= bytes@.skip(index + 2));
            index = index + 2;
            continue;
        }
        if n - index >= 4 && bytes[index + 1] == 120 {
            assert(rest[1] == bytes@[index + 1]);
            assert(rest[2] == bytes@[index + 2]);
            assert(rest[3] == bytes@[index + 3]);
            match (hex_value(bytes[index + 2]), hex_value(bytes[index + 3])) {
                (Some(hi), Some(lo)) => {
                    let value: u8 = (hi << 4) | lo;
                    assert(value == hi * 16 + lo) by (bit_vector)
                        requires
                            hi < 16,
                            lo < 16,
                            value == (hi << 4) | lo,
                    ;
                    output.push(value);
                    assert(rest.skip(4) =~= bytes@.skip(index + 4));
                    index = index + 4;
                    continue;
                },
                _ => {},
            }
        }
        proof {
            if n - index >= 2 {
                assert(rest[1] == bytes@[index + 1]);
            }
            if n - index >= 4 {
                assert(rest[2] == bytes@[index + 2]);
                assert(rest[3] == bytes@[index + 3]);
            }
        }
        output.push(92);
        assert(rest.skip(1) =~= bytes@.skip(index + 1));
        index = index + 1;
    }
    assert(bytes@.skip(n as int) =~= Seq::<u8>::empty());
    output
}

// ---------------------------------------------------------------------------
// The round trip: decoding a rendered component gives its bytes back
// ---------------------------------------------------------------------------

pub proof fn lemma_encode_utf8_concat(a: Seq<char>, b: Seq<char>)
    ensures
        encode_utf8(a + b) == encode_utf8(a) + encode_utf8(b),
    decreases a.len(),
{
    if a.len() > 0 {
        assert((a + b).drop_first() =~= a.drop_first() + b);
        assert((a + b)[0] == a[0]);
        lemma_encode_utf8_concat(a.drop_first(), b);
    } else {
        assert(a + b =~= b);
    }
}

proof fn lemma_decoded_plain_prefix(e: Seq<u8>, rest: Seq<u8>)
    requires
        forall|i: int| 0 <= i < e.len() ==> e[i] != 92,
    ensures
        decoded_segment(e + rest) == e + decoded_segment(rest),
    decreases e.len(),
{
    if e.len() == 0 {
        assert(e + rest =~= rest);
    } else {
        assert((e + rest)[0] == e[0]);
        assert((e + rest).skip(1) =~= e.skip(1) + rest);
        lemma_decoded_plain_prefix(e.skip(1), rest);
        assert(e =~= seq![e[0]] + e.skip(1));
    }
}

pub proof fn lemma_encode_one(c: char)
    ensures
        encode_utf8(seq![c]) == vstd::utf8::encode_scalar(c as u32),
{
    assert(seq![c][0] == c);
    assert(seq![c].drop_first() =~= Seq::<char>::empty());
    assert(encode_utf8(Seq::<char>::empty()) =~= Seq::<u8>::empty());
    assert(encode_utf8(seq![c]) =~= vstd::utf8::encode_scalar(c as u32) + Seq::<u8>::empty());
}

proof fn lemma_encode_ascii(c: char)
    requires
        (c as u32) < 128,
    ensures
        encode_utf8(seq![c]) == seq![(c as u32) as u8],
{
    lemma_encode_one(c);
    let v = c as u32;
    assert((v & 0x7F) as u8 == v as u8) by (bit_vector)
        requires
            v < 128,
    ;
    assert(vstd::utf8::encode_scalar(v) =~= seq![v as u8]);
}

proof fn lemma_encode_pair(a: char, b: char)
    ensures
        encode_utf8(seq![a, b]) == encode_utf8(seq![a]) + encode_utf8(seq![b]),
{
    assert(seq![a, b] =~= seq![a] + seq![b]);
    lemma_encode_utf8_concat(seq![a], seq![b]);
}

proof fn lemma_scalar_has_no_backslash(c: char)
    requires
        c != '\\',
    ensures
        forall|i: int| 0 <= i < encode_utf8(seq![c]).len() ==> encode_utf8(seq![c])[i] != 92,
{
    vstd::utf8::char_is_scalar(c);
    let v = c as u32;
    lemma_encode_one(c);
    if vstd::utf8::has_width_1_encoding(v) {
        assert(v != 92);
        assert((v & 0x7F) as u8 != 92) by (bit_vector)
            requires
                v <= 0x7F,
                v != 92,
        ;
    } else {
        assert(0xC0u8 | ((v >> 6) & 0x1F) as u8 != 92) by (bit_vector);
        assert(0xE0u8 | ((v >> 12) & 0x0F) as u8 != 92) by (bit_vector);
        assert(0xF0u8 | ((v >> 18) & 0x7) as u8 != 92) by (bit_vector);
        assert(0x80u8 | (v & 0x3F) as u8 != 92) by (bit_vector);
        assert(0x80u8 | ((v >> 6) & 0x3F) as u8 != 92) by (bit_vector);
        assert(0x80u8 | ((v >> 12) & 0x3F) as u8 != 92) by (bit_vector);
    }
}

proof fn lemma_decode_escaped(s: Seq<char>, rest: Seq<u8>)
    ensures
        decoded_segment(encode_utf8(escape_backslashes(s)) + rest) == encode_utf8(s)
            + decoded_segment(rest),
    decreases s.len(),
{
    if s.len() == 0 {
        assert(escape_backslashes(s) =~= Seq::<char>::empty());
        assert(encode_utf8(Seq::<char>::empty()) =~= Seq::<u8>::empty());
        assert(Seq::<u8>::empty() + rest =~= rest);
        assert(encode_utf8(s) =~= Seq::<u8>::empty());
    } else {
        let c = s[0];
        let t = s.drop_first();
        lemma_decode_escaped(t, rest);
        lemma_encode_utf8_concat(escaped_char(c), escape_backslashes(t));
        let head = encode_utf8(escaped_char(c));
        let tail = encode_utf8(escape_backslashes(t)) + rest;
        assert(encode_utf8(escape_backslashes(s)) + rest =~= head + tail);
        assert(s =~= seq![c] + t);
        lemma_encode_utf8_concat(seq![c], t);
        if c == '\\' {
            assert(escaped_char(c) =~= seq!['\\', '\\']);
            lemma_encode_ascii('\\');
            lemma_encode_pair('\\', '\\');
            assert(head =~= seq![92u8, 92u8]);
            assert((head + tail)[0] == 92u8);
            assert((head + tail)[1] == 92u8);
            assert((head + tail).skip(2) =~= tail);
        } else {
            lemma_scalar_has_no_backslash(c);
            lemma_decoded_plain_prefix(head, tail);
        }
    }
}

proof fn lemma_decode_byte_escapes(bs: Seq<u8>, rest: Seq<u8>)
    ensures
        decoded_segment(encode_utf8(bytes_escape(bs)) + rest) == bs + decoded_segment(rest),
    decreases bs.len(),
{
    if bs.len() == 0 {
        assert(bytes_escape(bs) =~= Seq::<char>::empty());
        assert(encode_utf8(Seq::<char>::empty()) =~= Seq::<u8>::empty());
        assert(Seq::<u8>::empty() + rest =~= rest);
        assert(bs + decoded_segment(rest) =~= decoded_segment(rest));
    } else {
        let b = bs[0];
        let t = bs.drop_first();
        lemma_decode_byte_escapes(t, rest);
        lemma_encode_utf8_concat(byte_escape(b), bytes_escape(t));
        let head = encode_utf8(byte_escape(b));
        let tail = encode_utf8(bytes_escape(t)) + rest;
        assert(encode_utf8(bytes_escape(bs)) + rest =~= head + tail);
        assert(bs =~= seq![b] + t);
        if b == 92 {
            assert(byte_escape(b) =~= seq!['\\', '\\']);
            lemma_encode_ascii('\\');
            lemma_encode_pair('\\', '\\');
            assert(head =~= seq![92u8, 92u8]);
            assert((head + tail).skip(2) =~= tail);
        } else {
            let hi = b / 16;
            let lo = b % 16;
            let hc = hex_digit_upper(hi as int);
            let lc = hex_digit_upper(lo as int);
            let hb: u8 = if hi < 10 { (hi + 48) as u8 } else { (hi + 55) as u8 };
            let lb: u8 = if lo < 10 { (lo + 48) as u8 } else { (lo + 55) as u8 };
            assert(hc as u32 == hb as u32);
            assert(lc as u32 == lb as u32);
            let e = seq!['\\', 'x', hc, lc];
            assert(byte_escape(b) =~= e);
            assert(e =~= seq!['\\', 'x'] + seq![hc, lc]);
            lemma_encode_utf8_concat(seq!['\\', 'x'], seq![hc, lc]);
            lemma_encode_pair('\\', 'x');
            lemma_encode_pair(hc, lc);
            lemma_encode_ascii('\\');
            lemma_encode_ascii('x');
            lemma_encode_ascii(hc);
            lemma_encode_ascii(lc);
            assert(head =~= seq![92u8, 120u8, hb, lb]);
            assert(hex_value_spec(hb) == Some(hi as u8));
            assert(hex_value_spec(lb) == Some(lo as u8));
            assert((head + tail).skip(4) =~= tail);
            assert((hi * 16 + lo) as u8 == b);
        }
    }
}

/// Decoding the UTF-8 bytes of an escaped rendering gives back the original bytes.
pub proof fn lemma_encoded_bytes_round_trip(bytes: Seq<u8>)
    ensures
        decoded_segment(encode_utf8(encoded_bytes(bytes))) == bytes,
    decreases bytes.len(),
{
    if bytes.len() == 0 {
        assert(encode_utf8(Seq::<char>::empty()) =~= Seq::<u8>::empty());
    } else if valid_utf8(bytes) {
        lemma_decode_escaped(decode_utf8(bytes), Seq::empty());
        assert(encode_utf8(encoded_bytes(bytes)) + Seq::<u8>::empty() =~= encode_utf8(
            encoded_bytes(bytes),
        ));
        vstd::utf8::decode_utf8_encode_utf8(bytes);
        assert(decoded_segment(Seq::<u8>::empty()) =~= Seq::<u8>::empty());
        assert(bytes + Seq::<u8>::empty() =~= bytes);
    } else {
        let v = valid_prefix_len(bytes) as int;
        lemma_valid_prefix_len(bytes);
        if 0 < v < bytes.len() {
            let head = escape_backslashes(decode_utf8(bytes.take(v)));
            let tail = encoded_bytes(bytes.skip(v));
            lemma_encoded_bytes_round_trip(bytes.skip(v));
            lemma_encode_utf8_concat(head, tail);
            lemma_decode_escaped(decode_utf8(bytes.take(v)), encode_utf8(tail));
            vstd::utf8::decode_utf8_encode_utf8(bytes.take(v));
            assert(bytes.take(v) + bytes.skip(v) =~= bytes);
        } else {
            let l = invalid_run(bytes);
            let tail = encoded_bytes(bytes.skip(l));
            lemma_encoded_bytes_round_trip(bytes.skip(l));
            lemma_encode_utf8_concat(bytes_escape(bytes.take(l)), tail);
            lemma_decode_byte_escapes(bytes.take(l), encode_utf8(tail));
            assert(bytes.take(l) + bytes.skip(l) =~= bytes);
        }
    }
}

/// A component that was escaped decodes back to its bytes.
pub proof fn lemma_rendered_component_round_trip(bytes: Seq<u8>)
    ensures
        rendered_component(bytes).1 ==> decoded_segment(encode_utf8(rendered_component(bytes).0))
            == bytes,
        !rendered_component(bytes).1 ==> encode_utf8(rendered_component(bytes).0) == bytes,
{
    if valid_utf8(bytes) {
        vstd::utf8::decode_utf8_encode_utf8(bytes);
    } else {
        lemma_encoded_bytes_round_trip(bytes);
    }
}

proof fn lemma_encode_has_slash(t: Seq<char>)
    requires
        t.contains('/'),
    ensures
        encode_utf8(t).contains(47u8),
    decreases t.len(),
{
    if t[0] == '/' {
        lemma_encode_ascii('/');
        lemma_encode_one('/');
        assert(encode_utf8(t)[0] == 47u8);
    } else {
        assert(t.drop_first().contains('/')) by {
            let k = choose|k: int| 0 <= k < t.len() && t[k] == '/';
            assert(t.drop_first()[k - 1] == '/');
        }
        lemma_encode_has_slash(t.drop_first());
        let head = vstd::utf8::encode_scalar(t[0] as u32);
        let rest = encode_utf8(t.drop_first());
        let k = choose|k: int| 0 <= k < rest.len() && rest[k] == 47u8;
        assert((head + rest)[head.len() + k] == 47u8);
    }
}

proof fn lemma_decoded_keeps_slash(b: Seq<u8>)
    requires
        b.contains(47u8),
    ensures
        decoded_segment(b).contains(47u8),
    decreases b.len(),
{
    if b[0] == 47 {
        assert(decoded_segment(b)[0] == 47u8);
    } else {
        let k = choose|k: int| 0 <= k < b.len() && b[k] == 47u8;
        let step: int = if b[0] != 92 {
            1
        } else if b.len() >= 2 && b[1] == 92 {
            2
        } else if b.len() >= 4 && b[1] == 120 && hex_value_spec(b[2]) is Some && hex_value_spec(
            b[3],
        ) is Some {
            4
        } else {
            1
        };
        assert(k >= step);
        assert(b.skip(step)[k - step] == 47u8);
        lemma_decoded_keeps_slash(b.skip(step));
        let head: Seq<u8> = if step == 4 {
            seq![(hex_value_spec(b[2])->0 * 16 + hex_value_spec(b[3])->0) as u8]
        } else if step == 2 {
            seq![92u8]
        } else if b[0] != 92 {
            seq![b[0]]
        } else {
            seq![92u8]
        };
        assert(decoded_segment(b) == head + decoded_segment(b.skip(step)));
        let rest = decoded_segment(b.skip(step));
        let j = choose|j: int| 0 <= j < rest.len() && rest[j] == 47u8;
        assert((head + rest)[head.len() + j] == 47u8);
    }
}

proof fn lemma_decoded_plain(b: Seq<u8>)
    requires
        !b.contains(92u8),
    ensures
        decoded_segment(b) == b,
    decreases b.len(),
{
    if b.len() > 0 {
        assert(b[0] != 92);
        assert(!b.skip(1).contains(92u8)) by {
            if b.skip(1).contains(92u8) {
                let k = choose|k: int| 0 <= k < b.skip(1).len() && b.skip(1)[k] == 92u8;
                assert(b[k + 1] == 92u8);
            }
        }
        lemma_decoded_plain(b.skip(1));
        assert(seq![b[0]] + b.skip(1) =~= b);
    }
}

/// A text without the separator splits into itself alone.
pub proof fn lemma_split_whole(t: Seq<char>, sep: char)
    requires
        !t.contains(sep),
    ensures
        split_on(t, sep) == seq![t],
    decreases t.len(),
{
    if t.len() == 0 {
        assert(t =~= Seq::<char>::empty());
    } else {
        assert(!t.drop_last().contains(sep)) by {
            if t.drop_last().contains(sep) {
                let k = choose|k: int| 0 <= k < t.drop_last().len() && t.drop_last()[k] == sep;
                assert(t[k] == sep);
            }
        }
        lemma_split_whole(t.drop_last(), sep);
        assert(t.last() != sep) by {
            assert(t[t.len() - 1] == t.last());
        }
        let rest = split_on(t.drop_last(), sep);
        assert(rest =~= seq![t.drop_last()]);
        assert(t.drop_last().push(t.last()) =~= t);
        assert(rest.len() - 1 == 0);
        assert(rest.update(0, rest.last().push(t.last())) =~= seq![t]);
    }
}

/// A single file-name component (non-empty, without `/`, neither `.` nor `..`) that is not
/// valid UTF-8 or holds no backslash: decoding its rendering as a relative path gives back
/// its bytes.
pub proof fn lemma_component_decode_round_trip(bytes: Seq<u8>)
    requires
        bytes.len() > 0,
        !bytes.contains(47u8),
        bytes != seq![46u8],
        bytes != seq![46u8, 46u8],
        !valid_utf8(bytes) || !bytes.contains(92u8),
    ensures
        decode_steps(Seq::empty(), split_on(rendered_component(bytes).0, '/')) == bytes,
{
    let t = rendered_component(bytes).0;
    lemma_rendered_component_round_trip(bytes);
    let d = decoded_segment(encode_utf8(t));
    if valid_utf8(bytes) {
        lemma_decoded_plain(bytes);
        assert(d == bytes);
    }
    assert(d == bytes);
    if t.contains('/') {
        lemma_encode_has_slash(t);
        lemma_decoded_keeps_slash(encode_utf8(t));
        assert(false);
    }
    lemma_split_whole(t, '/');
    if t.len() == 0 {
        assert(encode_utf8(t) =~= Seq::<u8>::empty());
        assert(false);
    }
    if t =~= seq!['.'] {
        lemma_encode_ascii('.');
        assert(encode_utf8(t) =~= seq![46u8]);
        lemma_decoded_plain(seq![46u8]);
        assert(false);
    }
    if t =~= seq!['.', '.'] {
        lemma_encode_ascii('.');
        lemma_encode_pair('.', '.');
        assert(encode_utf8(t) =~= seq![46u8, 46u8]);
        lemma_decoded_plain(seq![46u8, 46u8]);
        assert(false);
    }
    let segs = split_on(t, '/');
    assert(segs.drop_first() =~= Seq::<Seq<char>>::empty());
    assert(segs[0] == t);
    assert(decode_steps(decode_step(Seq::empty(), t), segs.drop_first()) == decode_step(
        Seq::empty(),
        t,
    ));
    assert(bytes[0] != 47);
    assert(Seq::<u8>::empty() + bytes =~= bytes);
}

// ---------------------------------------------------------------------------
// Whole paths
// ---------------------------------------------------------------------------

/// Byte strings split at `/`.
pub open spec fn split_slash(s: Seq<u8>) -> Seq<Seq<u8>>
    decreases s.len(),
{
    if s.len() == 0 {
        seq![Seq::empty()]
    } else {
        let rest = split_slash(s.drop_last());
        if s.last() == 47 {
            rest.push(Seq::empty())
        } else {
            rest.update(rest.len() - 1, rest.last().push(s.last()))
        }
    }
}

proof fn lemma_split_slash_nonempty(s: Seq<u8>)
    ensures
        split_slash(s).len() >= 1,
    decreases s.len(),
{
    if s.len() > 0 {
        lemma_split_slash_nonempty(s.drop_last());
    }
}

fn split_at_slash(v: &[u8]) -> (r: Vec<Vec<u8>>)
    ensures
        r@.map_values(|x: Vec<u8>| x@) == split_slash(v@),
{
    let mut pieces: Vec<Vec<u8>> = Vec::new();
    let mut current: Vec<u8> = Vec::new();
    let mut i: usize = 0;
    assert(pieces@.map_values(|x: Vec<u8>| x@).push(current@) =~= split_slash(v@.subrange(0, 0)));
    while i < v.len()
        invariant
            i <= v.len(),
            pieces@.map_values(|x: Vec<u8>| x@).push(current@) == split_slash(
                v@.subrange(0, i as int),
            ),
        decreases v.len() - i,
    {
        let ghost prev = v@.subrange(0, i as int);
        let ghost old_pieces = pieces@;
        let ghost old_current = current@;
        assert(v@.subrange(0, i + 1).drop_last() =~= prev);
        assert(v@.subrange(0, i + 1).last() == v@[i as int]);
        if v[i] == 47 {
            let done = current;
            pieces.push(done);
            current = Vec::new();
            assert(pieces@.map_values(|x: Vec<u8>| x@) =~= old_pieces.map_values(|x: Vec<u8>| x@).push(old_current));
            assert(pieces@.map_values(|x: Vec<u8>| x@).push(current@) =~= split_slash(prev).push(Seq::empty()));
        } else {
            current.push(v[i]);
            let ghost rest = split_slash(prev);
            assert(pieces@.map_values(|x: Vec<u8>| x@).push(current@) =~= rest.update(
                rest.len() - 1,
                rest.last().push(v@[i as int]),
            ));
        }
        i = i + 1;
    }
    pieces.push(current);
    assert(v@.subrange(0, v@.len() as int) =~= v@);
    pieces
}

/// Whether a segment is skipped when a path is walked: empty, or `.`.
pub open spec fn skipped_segment(s: Seq<u8>) -> bool {
    s.len() == 0 || s =~= seq![46u8]
}

/// The rendered texts of the segments that are not skipped, with whether any needed
/// escapes.
pub open spec fn rendered_segments(segs: Seq<Seq<u8>>) -> (Seq<Seq<char>>, bool)
    decreases segs.len(),
{
    if segs.len() == 0 {
        (Seq::empty(), false)
    } else {
        let (texts, enc) = rendered_segments(segs.drop_last());
        if skipped_segment(segs.last()) {
            (texts, enc)
        } else {
            let (t, e) = rendered_component(segs.last());
            (texts.push(t), enc || e)
        }
    }
}

/// A relative rendering: the non-skipped segments rendered and joined with `/` (a root
/// is dropped).
pub open spec fn rendered_relative(path: Seq<u8>) -> (Seq<char>, bool) {
    let (texts, enc) = rendered_segments(split_slash(path));
    (join_with(texts, "/"@), enc)
}

/// A rendering that keeps the root of an absolute path.
pub open spec fn rendered_path(path: Seq<u8>) -> (Seq<char>, bool) {
    let (joined, enc) = rendered_relative(path);
    if path.len() > 0 && path[0] == 47 {
        (if joined.len() == 0 {
            "/"@
        } else {
            "/"@ + joined
        }, enc)
    } else {
        (joined, enc)
    }
}

fn render_segments(path: &[u8]) -> (r: (Vec<String>, bool))
    ensures
        (r.0@.map_values(|s: String| s@), r.1) == rendered_segments(split_slash(path@)),
{
    let segs = split_at_slash(path);
    let ghost sv = segs@.map_values(|x: Vec<u8>| x@);
    let mut texts: Vec<String> = Vec::new();
    let mut enc = false;
    let mut i: usize = 0;
    while i < segs.len()
        invariant
            i <= segs.len(),
            sv == segs@.map_values(|x: Vec<u8>| x@),
            sv == split_slash(path@),
            (texts@.map_values(|s: String| s@), enc) == rendered_segments(sv.take(i as int)),
        decreases segs.len() - i,
    {
        let ghost next = sv.take(i + 1);
        assert(next.drop_last() =~= sv.take(i as int));
        assert(next.last() == segs@[i as int]@);
        let seg = &segs[i];
        let is_dot = seg.len() == 1 && seg[0] == 46;
        proof {
            if seg@.len() == 1 && seg@[0] == 46 {
                assert(seg@ =~= seq![46u8]);
            }
        }
        if seg.len() > 0 && !is_dot {
            let part = render_component(seg.as_slice());
            let ghost before = texts@.map_values(|s: String| s@);
            enc = enc || part.was_encoded;
            texts.push(part.text);
            assert(texts@.map_values(|s: String| s@) =~= before.push(rendered_component(seg@).0));
        }
        i = i + 1;
    }
    assert(sv.take(segs.len() as int) =~= sv);
    (texts, enc)
}

fn join_with_slash(texts: &Vec<String>) -> (r: String)
    ensures
        r@ == join_with(texts@.map_values(|s: String| s@), "/"@),
{
    let ghost tv = texts@.map_values(|s: String| s@);
    let mut out = String::new();
    let mut i: usize = 0;
    while i < texts.len()
        invariant
            i <= texts.len(),
            tv == texts@.map_values(|s: String| s@),
            out@ == join_with(tv.take(i as int), "/"@),
        decreases texts.len() - i,
    {
        let ghost next = tv.take(i + 1);
        assert(next.drop_last() =~= tv.take(i as int));
        assert(next.last() == texts@[i as int]@);
        if i > 0 {
            out.append("/");
        }
        out.append(texts[i].as_str());
        proof {
            if i == 0 {
                assert(next.len() == 1);
                assert(out@ =~= next[0]);
            }
        }
        i = i + 1;
    }
    assert(tv.take(texts.len() as int) =~= tv);
    out
}

/// Renders a path (its bytes, as the Unix OS string holds them) relative, with `/`
/// separators: `.` and empty segments are dropped, and a root is not rendered.
pub fn render_relative_path(path: &[u8]) -> (r: RenderedPath)
    ensures
        (r.text@, r.was_encoded) == rendered_relative(path@),
{
    let (texts, was_encoded) = render_segments(path);
    RenderedPath { text: join_with_slash(&texts), was_encoded }
}

/// Renders a path with `/` separators; an absolute path keeps its leading `/`.
pub fn render_path(path: &[u8]) -> (r: RenderedPath)
    ensures
        (r.text@, r.was_encoded) == rendered_path(path@),
{
    let (texts, was_encoded) = render_segments(path);
    let joined = join_with_slash(&texts);
    let is_absolute = path.len() > 0 && path[0] == 47;
    let text = if is_absolute {
        if joined.unicode_len() == 0 {
            "/".to_string()
        } else {
            let mut t = String::from_str("/");
            t.append(joined.as_str());
            t
        }
    } else {
        joined
    };
    RenderedPath { text, was_encoded }
}

// ---------------------------------------------------------------------------
// Decoding protocol paths
// ---------------------------------------------------------------------------

/// `s` without trailing `/`, keeping a lone root.
pub open spec fn trim_slashes(s: Seq<u8>) -> Seq<u8>
    decreases s.len(),
{
    if s.len() > 1 && s.last() == 47 {
        trim_slashes(s.drop_last())
    } else {
        s
    }
}

/// The index of the last `/`, or -1.
pub open spec fn last_slash_index(s: Seq<u8>) -> int
    decreases s.len(),
{
    if s.len() == 0 {
        -1
    } else if s.last() == 47 {
        s.len() - 1
    } else {
        last_slash_index(s.drop_last())
    }
}

/// The parent of a path: without its last segment and the separators before it; `None`
/// for the empty path and the root (`Path::parent` on Unix, segments taken as written).
pub open spec fn byte_parent(p: Seq<u8>) -> Option<Seq<u8>> {
    let t = trim_slashes(p);
    if t.len() == 0 || t =~= seq![47u8] {
        None
    } else if last_slash_index(t) < 0 {
        Some(Seq::empty())
    } else {
        Some(trim_slashes(t.take(last_slash_index(t) + 1)))
    }
}

/// `PathBuf::push` on Unix: an absolute segment replaces the path; otherwise it is
/// appended after one separator.
pub open spec fn path_push(buf: Seq<u8>, seg: Seq<u8>) -> Seq<u8> {
    if seg.len() > 0 && seg[0] == 47 {
        seg
    } else if buf.len() == 0 || buf.last() == 47 {
        buf + seg
    } else {
        buf.push(47) + seg
    }
}

/// One protocol segment applied to the decoded path: empty and `.` are skipped, `..`
/// goes to the parent, anything else is decoded and pushed.
pub open spec fn decode_step(buf: Seq<u8>, seg: Seq<char>) -> Seq<u8> {
    if seg.len() == 0 || seg =~= seq!['.'] {
        buf
    } else if seg =~= seq!['.', '.'] {
        match byte_parent(buf) {
            Some(p) => p,
            None => buf,
        }
    } else {
        path_push(buf, decoded_segment(encode_utf8(seg)))
    }
}

/// The segments applied in order.
pub open spec fn decode_steps(buf: Seq<u8>, segs: Seq<Seq<char>>) -> Seq<u8>
    decreases segs.len(),
{
    if segs.len() == 0 {
        buf
    } else {
        decode_steps(decode_step(buf, segs[0]), segs.drop_first())
    }
}

proof fn lemma_trim_slashes_prefix(s: Seq<u8>)
    ensures
        trim_slashes(s).len() <= s.len(),
        trim_slashes(s) =~= s.take(trim_slashes(s).len() as int),
    decreases s.len(),
{
    if s.len() > 1 && s.last() == 47 {
        lemma_trim_slashes_prefix(s.drop_last());
        assert(s.drop_last().take(trim_slashes(s).len() as int) =~= s.take(
            trim_slashes(s).len() as int,
        ));
    }
}

fn trimmed_slash_len(v: &Vec<u8>, end: usize) -> (k: usize)
    requires
        end <= v.len(),
    ensures
        k <= end,
        v@.take(k as int) == trim_slashes(v@.take(end as int)),
{
    let mut k = end;
    while k > 1 && v[k - 1] == 47
        invariant
            k <= end <= v.len(),
            trim_slashes(v@.take(k as int)) == trim_slashes(v@.take(end as int)),
        decreases k,
    {
        assert(v@.take(k as int).drop_last() =~= v@.take(k - 1));
        k = k - 1;
    }
    k
}

fn last_slash_at(v: &Vec<u8>, end: usize) -> (k: Option<usize>)
    requires
        end <= v.len(),
    ensures
        match k {
            Some(i) => i < end && last_slash_index(v@.take(end as int)) == i,
            None => last_slash_index(v@.take(end as int)) == -1,
        },
{
    let mut k = end;
    while k > 0
        invariant
            k <= end <= v.len(),
            last_slash_index(v@.take(end as int)) == last_slash_index(v@.take(k as int)),
        decreases k,
    {
        assert(v@.take(k as int).drop_last() =~= v@.take(k - 1));
        if v[k - 1] == 47 {
            return Some(k - 1);
        }
        k = k - 1;
    }
    None
}

/// The length of the parent of a path (a prefix of it), if it has one.
fn parent_len(v: &Vec<u8>) -> (r: Option<usize>)
    ensures
        match byte_parent(v@) {
            Some(p) => r is Some && r->0 <= v@.len() && p == v@.take(r->0 as int),
            None => r is None,
        },
{
    let t = trimmed_slash_len(v, v.len());
    assert(v@.take(v.len() as int) =~= v@);
    if t == 0 || (t == 1 && v[0] == 47) {
        proof {
            if t == 1 {
                assert(v@.take(1) =~= seq![47u8]);
            }
        }
        return None;
    }
    proof {
        if v@.take(t as int) =~= seq![47u8] {
            assert(v@[0] == 47);
        }
    }
    match last_slash_at(v, t) {
        None => {
            assert(v@.take(0) =~= Seq::<u8>::empty());
            Some(0)
        },
        Some(i) => {
            let k = trimmed_slash_len(v, i + 1);
            assert(v@.take(t as int).take(i + 1) =~= v@.take(i + 1));
            Some(k)
        },
    }
}

/// Decodes a workspace-relative protocol path into the bytes of a relative path.
pub fn decode_relative_path(relative: &str) -> (r: Vec<u8>)
    ensures
        r@ == decode_steps(Seq::empty(), split_on(relative@, '/')),
{
    let chars = chars_of(relative);
    let segments = split_chars(chars.as_slice(), '/');
    let ghost sv = views_of(segments@);
    let mut path: Vec<u8> = Vec::new();
    let mut i: usize = 0;
    assert(sv.skip(0) =~= sv);
    while i < segments.len()
        invariant
            i <= segments.len(),
            sv == views_of(segments@),
            sv == split_on(relative@, '/'),
            decode_steps(Seq::empty(), sv) == decode_steps(path@, sv.skip(i as int)),
        decreases segments.len() - i,
    {
        let seg = &segments[i];
        assert(sv.skip(i as int)[0] == seg@);
        assert(sv.skip(i as int).drop_first() =~= sv.skip(i + 1));
        let is_dot = seg.len() == 1 && seg[0] == '.';
        let is_dotdot = seg.len() == 2 && seg[0] == '.' && seg[1] == '.';
        proof {
            if seg@.len() == 1 && seg@[0] == '.' {
                assert(seg@ =~= seq!['.']);
            }
            if seg@.len() == 2 && seg@[0] == '.' && seg@[1] == '.' {
                assert(seg@ =~= seq!['.', '.']);
            }
            if seg@ =~= seq!['.'] {
                assert(seg@.len() == 1);
            }
        }
        if seg.len() == 0 || is_dot {
        } else if is_dotdot {
            let ghost before = path@;
            match parent_len(&path) {
                Some(k) => {
                    path.truncate(k);
                    assert(path@ =~= byte_parent(before)->0);
                },
                None => {},
            }
        } else {
            let text = string_of(seg.as_slice());
            let decoded = decode_unix_segment_bytes(text.as_str().as_bytes());
            let ghost before = path@;
            if decoded.len() > 0 && decoded[0] == 47 {
                path = decoded;
            } else {
                if path.len() > 0 && path[path.len() - 1] != 47 {
                    path.push(47);
                }
                let mut k: usize = 0;
                let ghost base = path@;
                while k < decoded.len()
                    invariant
                        k <= decoded.len(),
                        path@ == base + decoded@.take(k as int),
                    decreases decoded.len() - k,
                {
                    path.push(decoded[k]);
                    k = k + 1;
                    assert(decoded@.take(k as int) =~= decoded@.take(k - 1).push(decoded@[k - 1]));
                }
                assert(decoded@.take(decoded.len() as int) =~= decoded@);
            }
            assert(path@ =~= path_push(before, decoded@));
        }
        i = i + 1;
    }
    assert(sv.skip(segments.len() as int) =~= Seq::<Seq<char>>::empty());
    path
}

} // verus!
